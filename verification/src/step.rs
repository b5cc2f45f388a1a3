//! The per-trap step engine and its single-outstanding-patch protocol.
//!
//! The engine turns execution into a loop of breakpoint traps. On each trap
//! it restores the instruction the previous trap displaced, asks the opcode
//! where control flow goes next, and arms a same-width trap there. Between
//! two traps, executable memory therefore differs from the logical program
//! image in exactly one place — the currently armed patch site.

use vstd::prelude::*;

verus! {

use crate::memory::{Memory, store_bytes};
use crate::opcode::{Opcode, width_at};

/// The one location currently armed with a trap, together with the real
/// instruction it temporarily displaced.
#[derive(Clone, Copy, Debug, PartialEq, Eq, Structural)]
pub struct PatchSite {
    pub addr: u32,
    pub original: Opcode,
}

/// The process-wide slot holding the at most one outstanding [`PatchSite`].
pub struct PatchState {
    slot: Option<PatchSite>,
}

impl PatchState {
    /// The outstanding patch site, if one is armed.
    pub closed spec fn spec_slot(self) -> Option<PatchSite> {
        self.slot
    }

    /// A state with no armed site: the very first trap is a hand-placed
    /// breakpoint, handled as if a no-op had been armed at the trapped
    /// address.
    pub fn new() -> (r: PatchState)
        ensures
            r.spec_slot() is None,
    {
        PatchState { slot: None }
    }

    /// Installs a new outstanding site.
    pub fn store(&mut self, site: PatchSite)
        ensures
            final(self).spec_slot() == Some(site),
    {
        self.slot = Some(site);
    }

    /// Hands the outstanding site to the caller and clears the slot.
    pub fn take(&mut self) -> (r: Option<PatchSite>)
        ensures
            r == old(self).spec_slot(),
            final(self).spec_slot() is None,
    {
        self.slot.take()
    }

    /// The outstanding site, left in place; for diagnostics.
    pub fn armed(&self) -> (r: Option<PatchSite>)
        ensures
            r == self.spec_slot(),
    {
        self.slot
    }
}

/// The site a trap at `pc` works on: the outstanding one, or — on the very
/// first trap, when none was ever armed — a synthetic bootstrap site that
/// treats the hand-placed breakpoint at `pc` as having displaced a
/// compressed no-op.
pub open spec fn cur_site(slot: Option<PatchSite>, pc: u32) -> PatchSite {
    match slot {
        Some(site) => site,
        None => PatchSite { addr: pc, original: Opcode::Opcode16(0x0001) },
    }
}

/// Memory after the displaced original instruction is written back at the
/// trapped address.
pub open spec fn restored_mem(mem: Seq<u8>, base: u32, slot: Option<PatchSite>, pc: u32) -> Seq<
    u8,
> {
    store_bytes(mem, pc - base, cur_site(slot, pc).original.enc())
}

/// The address the engine arms next: the successor of the instruction that
/// really stands at the trapped address.
pub open spec fn next_trap_addr(slot: Option<PatchSite>, pc: u32, regs: Seq<u32>) -> u32 {
    cur_site(slot, pc).original.spec_next_pc(pc, regs)
}

/// The site outstanding after a trap at `pc`: the successor address,
/// remembered together with the real instruction found there once the
/// trapped address was restored.
pub open spec fn next_site(
    mem: Seq<u8>,
    base: u32,
    slot: Option<PatchSite>,
    pc: u32,
    regs: Seq<u32>,
) -> PatchSite {
    let m1 = restored_mem(mem, base, slot, pc);
    let b = next_trap_addr(slot, pc, regs);
    PatchSite { addr: b, original: Opcode::decode(m1, b - base) }
}

/// Memory after a trap at `pc` is fully handled: the original restored at
/// `pc`, and the same-width trap form armed over the successor instruction.
pub open spec fn armed_mem(
    mem: Seq<u8>,
    base: u32,
    slot: Option<PatchSite>,
    pc: u32,
    regs: Seq<u32>,
) -> Seq<u8> {
    let m1 = restored_mem(mem, base, slot, pc);
    let ns = next_site(mem, base, slot, pc, regs);
    store_bytes(m1, ns.addr - base, ns.original.spec_trap().enc())
}

/// Handles one breakpoint trap at `pc` with the registers captured by the
/// trap entry trampoline: restores the displaced instruction, predicts the
/// successor address, reads the real instruction there, arms a same-width
/// trap over it, and remembers it as the new outstanding patch site.
pub fn replace_ebreak(state: &mut PatchState, mem: &mut Memory, pc: u32, trap_frame: &[u32; 32])
    requires
        old(mem).contains_range(pc, cur_site(old(state).spec_slot(), pc).original.spec_size()),
        ({
            let base = old(mem).spec_base();
            let m1 = restored_mem(old(mem)@, base, old(state).spec_slot(), pc);
            let b = next_trap_addr(old(state).spec_slot(), pc, trap_frame@);
            base <= b && b - base + width_at(m1, b - base) <= old(mem)@.len()
        }),
    ensures
        final(mem).spec_base() == old(mem).spec_base(),
        final(mem)@ == armed_mem(
            old(mem)@,
            old(mem).spec_base(),
            old(state).spec_slot(),
            pc,
            trap_frame@,
        ),
        final(state).spec_slot() == Some(
            next_site(old(mem)@, old(mem).spec_base(), old(state).spec_slot(), pc, trap_frame@),
        ),
{
    let site = match state.take() {
        Some(site) => site,
        None => PatchSite { addr: pc, original: Opcode::Opcode16(0x0001) },
    };
    // Restore the real instruction, undoing the previous arming, so hardware
    // executes it for real after this handler returns.
    site.original.write(mem, pc);
    // Predict where control flow goes next and arm a trap there.
    let new_pc = site.original.next_pc(pc, trap_frame);
    let new_opcode = Opcode::read(mem, new_pc);
    proof {
        Opcode::lemma_decode_wf(mem@, new_pc - mem.spec_base());
    }
    new_opcode.patch(mem, new_pc);
    state.store(PatchSite { addr: new_pc, original: new_opcode });
}

/// The single-outstanding-patch invariant: with `site` armed, memory is the
/// program image except that the bytes at the site's address hold the
/// same-width trap form of the instruction displaced there, and that
/// displaced instruction is the image's own.
pub open spec fn single_patch(image: Seq<u8>, base: u32, mem: Seq<u8>, site: PatchSite) -> bool {
    let a = site.addr - base;
    &&& base <= site.addr
    &&& a + site.original.spec_size() <= image.len()
    &&& site.original.wf()
    &&& site.original == Opcode::decode(image, a)
    &&& mem == store_bytes(image, a, site.original.spec_trap().enc())
}

/// Under the invariant, memory differs from the image in at most the one
/// armed range, and what sits there decodes, at the displaced instruction's
/// own width, to its trap form.
pub proof fn lemma_single_patch_shape(image: Seq<u8>, base: u32, mem: Seq<u8>, site: PatchSite)
    requires
        single_patch(image, base, mem, site),
    ensures
        mem.len() == image.len(),
        forall|j: int|
            0 <= j < image.len() && !(site.addr - base <= j < site.addr - base
                + site.original.spec_size()) ==> mem[j] == image[j],
        Opcode::decode(mem, site.addr - base) == site.original.spec_trap(),
        Opcode::decode(mem, site.addr - base).spec_size() == site.original.spec_size(),
{
    let a = site.addr - base;
    Opcode::lemma_trap_same_width(site.original);
    Opcode::lemma_write_read_round_trip(image, a, site.original.spec_trap());
}

/// The site outstanding after one trap at the armed address, written over
/// the program image alone: the armed instruction's successor, holding the
/// image's own instruction there.
pub open spec fn image_next_site(image: Seq<u8>, base: u32, site: PatchSite, regs: Seq<u32>) -> PatchSite {
    let b = site.original.spec_next_pc(site.addr, regs);
    PatchSite { addr: b, original: Opcode::decode(image, b - base) }
}

/// True when every successor site that a sequence of traps — one register
/// snapshot per trap — walks through lies inside the image.
pub open spec fn traps_in_bounds(
    image: Seq<u8>,
    base: u32,
    site: PatchSite,
    frames: Seq<Seq<u32>>,
) -> bool
    decreases frames.len(),
{
    frames.len() == 0 || {
        let b = site.original.spec_next_pc(site.addr, frames[0]);
        &&& base <= b
        &&& b - base + width_at(image, b - base) <= image.len()
        &&& traps_in_bounds(image, base, image_next_site(image, base, site, frames[0]), frames.drop_first())
    }
}

/// The site outstanding after a whole sequence of traps, one register
/// snapshot per trap, each trap taken at the site armed before it.
pub open spec fn site_after(image: Seq<u8>, base: u32, site: PatchSite, frames: Seq<Seq<u32>>) -> PatchSite
    decreases frames.len(),
{
    if frames.len() == 0 {
        site
    } else {
        site_after(image, base, image_next_site(image, base, site, frames[0]), frames.drop_first())
    }
}

/// Memory after that whole sequence of traps: the image, with the trap form
/// of the last armed site's instruction written over it.
pub open spec fn mem_after(image: Seq<u8>, base: u32, site: PatchSite, frames: Seq<Seq<u32>>) -> Seq<u8> {
    let s = site_after(image, base, site, frames);
    store_bytes(image, s.addr - base, s.original.spec_trap().enc())
}

/// Handling a trap at the armed address first brings memory back to the
/// image exactly, then re-establishes the invariant at the successor site:
/// after any sequence of traps, at most one patch is outstanding.
pub proof fn lemma_step_preserves_single_patch(
    image: Seq<u8>,
    base: u32,
    mem: Seq<u8>,
    site: PatchSite,
    regs: Seq<u32>,
)
    requires
        single_patch(image, base, mem, site),
        ({
            let b = next_trap_addr(Some(site), site.addr, regs);
            base <= b && b - base + width_at(image, b - base) <= image.len()
        }),
    ensures
        restored_mem(mem, base, Some(site), site.addr) == image,
        single_patch(
            image,
            base,
            armed_mem(mem, base, Some(site), site.addr, regs),
            next_site(mem, base, Some(site), site.addr, regs),
        ),
{
    let a = site.addr - base;
    let o = site.original;
    let m1 = restored_mem(mem, base, Some(site), site.addr);
    Opcode::lemma_trap_same_width(o);
    Opcode::lemma_decode_wf(image, a);
    Opcode::lemma_decode_enc(image, a);
    assert(m1 =~= image);
    let b = next_trap_addr(Some(site), site.addr, regs);
    Opcode::lemma_decode_wf(image, b - base);
}

/// The bootstrap start satisfies the invariant. With no site armed, a trap
/// at `pc` is handled as if a compressed no-op had been armed there
/// ([`cur_site`] of the empty slot); a hand-placed 16-bit breakpoint over a
/// no-op of the image is exactly that armed state, so the
/// single-outstanding-patch invariant holds from the very first trap on.
pub proof fn lemma_bootstrap_single_patch(image: Seq<u8>, base: u32, mem: Seq<u8>, pc: u32)
    requires
        base <= pc,
        pc - base + 2 <= image.len(),
        Opcode::decode(image, pc - base) == Opcode::Opcode16(0x0001),
        mem == store_bytes(image, pc - base, Opcode::Opcode16(0x9002).enc()),
    ensures
        single_patch(image, base, mem, cur_site(None, pc)),
{
    assert(0x0001u16 & 0b11 != 0b11) by (bit_vector);
}

/// After any sequence of simulated traps, each taken at the address armed
/// before it and kept inside the image, exactly one patch is outstanding:
/// memory is the image except for the one armed site, which holds the
/// same-width trap form of the image's own instruction there.
pub proof fn lemma_trap_sequence_single_patch(
    image: Seq<u8>,
    base: u32,
    mem: Seq<u8>,
    site: PatchSite,
    frames: Seq<Seq<u32>>,
)
    requires
        single_patch(image, base, mem, site),
        traps_in_bounds(image, base, site, frames),
    ensures
        single_patch(
            image,
            base,
            mem_after(image, base, site, frames),
            site_after(image, base, site, frames),
        ),
    decreases frames.len(),
{
    if frames.len() > 0 {
        let regs = frames[0];
        lemma_step_preserves_single_patch(image, base, mem, site, regs);
        let ns = image_next_site(image, base, site, regs);
        lemma_trap_sequence_single_patch(
            image,
            base,
            armed_mem(mem, base, Some(site), site.addr, regs),
            ns,
            frames.drop_first(),
        );
    }
}

} // verus!
