use riscv_step::memory::Memory;
use riscv_step::opcode::{determine_width, Opcode};
use riscv_step::step::{replace_ebreak, PatchState};

/// Checks the single-outstanding-patch shape: `mem` differs from `image`
/// only inside the armed site's byte range, and the bytes there decode, at
/// the displaced instruction's own width, to its trap form.
fn assert_single_patch(mem: &Memory, image: &[u8], base: u32, state: &PatchState) {
    let site = state.armed().expect("a site must be armed");
    let off = (site.addr - base) as usize;
    let width = site.original.size();
    for j in 0..image.len() {
        if j < off || j >= off + width {
            assert_eq!(mem.byte_at(j), image[j], "byte {} changed outside the armed site", j);
        }
    }
    assert_eq!(determine_width(mem.byte_at(off)), width);
    assert_eq!(Opcode::read(mem, site.addr), site.original.to_trap());
}

#[test]
fn bootstrap_then_jump_scenario() {
    // The logical program text: at P = 0x20 a compressed no-op, right after
    // it a jump taken to 0 + 0x100, and a compressed no-op at 0x100.
    let mut image = vec![0u8; 0x200];
    image[0x20] = 0x01; // c.nop
    image[0x21] = 0x00;
    image[0x22] = 0x6f; // jump, offset 0x100, source register x0
    image[0x23] = 0x00;
    image[0x24] = 0x00;
    image[0x25] = 0x10;
    image[0x100] = 0x01; // c.nop
    image[0x101] = 0x00;

    // What actually sits in memory: the image, with a hand-placed 16-bit
    // breakpoint over the no-op at P to start the stepping loop.
    let mut bytes = image.clone();
    bytes[0x20] = 0x02;
    bytes[0x21] = 0x90;
    let mut mem = Memory::new(0, bytes);
    let mut state = PatchState::new();
    let frame = [0u32; 32];

    // First trap at P: the no-op is restored and a trap armed at P + 2.
    replace_ebreak(&mut state, &mut mem, 0x20, &frame);
    assert_eq!(mem.byte_at(0x20), 0x01);
    assert_eq!(mem.byte_at(0x21), 0x00);
    assert_eq!(Opcode::read(&mem, 0x22), Opcode::Opcode32(0x0010_0073));
    let armed = state.armed().unwrap();
    assert_eq!(armed.addr, 0x22);
    assert_eq!(armed.original, Opcode::Opcode32(0x1000_006f));
    assert_single_patch(&mem, &image, 0, &state);

    // Second trap at P + 2: the jump is restored, its successor is
    // 0 + 0x100, and a 16-bit trap is armed over the no-op there.
    replace_ebreak(&mut state, &mut mem, 0x22, &frame);
    assert_eq!(Opcode::read(&mem, 0x22), Opcode::Opcode32(0x1000_006f));
    assert_eq!(Opcode::read(&mem, 0x100), Opcode::Opcode16(0x9002));
    let armed = state.armed().unwrap();
    assert_eq!(armed.addr, 0x100);
    assert_eq!(armed.original, Opcode::Opcode16(0x0001));
    assert_single_patch(&mem, &image, 0, &state);
}

#[test]
fn at_most_one_patch_outstanding_across_a_loop() {
    // A tight loop at base 0x80: c.nop, then c.j back to the no-op.
    let base: u32 = 0x80;
    let mut image = vec![0u8; 0x10];
    image[0] = 0x01; // c.nop
    image[1] = 0x00;
    image[2] = 0xfd; // c.j -2
    image[3] = 0xbf;

    let mut bytes = image.clone();
    bytes[0] = 0x02; // bootstrap breakpoint over the no-op
    bytes[1] = 0x90;
    let mut mem = Memory::new(base, bytes);
    let mut state = PatchState::new();
    let frame = [0u32; 32];

    let mut pc: u32 = base;
    for _ in 0..8 {
        replace_ebreak(&mut state, &mut mem, pc, &frame);
        assert_single_patch(&mem, &image, base, &state);
        // hardware re-enters the handler at the address armed last
        pc = state.armed().unwrap().addr;
    }
    // the two sites alternate: no-op at base, jump at base + 2
    assert_eq!(pc, base);
}

#[test]
fn conditional_branch_steps_both_ways() {
    // At 0x00: beq x1, x2, 8; the engine must arm at 0x08 when the
    // registers are equal and at 0x04 when they are not.
    let mut image = vec![0u8; 0x10];
    image[0x0] = 0x63; // beq x1, x2, 8
    image[0x1] = 0x84;
    image[0x2] = 0x20;
    image[0x3] = 0x00;
    image[0x4] = 0x01; // c.nop
    image[0x5] = 0x00;
    image[0x8] = 0x01; // c.nop
    image[0x9] = 0x00;

    for (r1, r2, expect) in [(5u32, 5u32, 0x8u32), (5, 6, 0x4)] {
        let mut bytes = image.clone();
        bytes[0x0] = 0x73; // bootstrap: a 32-bit breakpoint over the branch
        bytes[0x1] = 0x00;
        bytes[0x2] = 0x10;
        bytes[0x3] = 0x00;
        let mut mem = Memory::new(0, bytes);
        let mut state = PatchState::new();
        // the very first trap is treated as a no-op site, so arm the branch
        // site first by stepping once from a synthetic start
        state.store(riscv_step::step::PatchSite {
            addr: 0,
            original: Opcode::Opcode32(0x0020_8463),
        });
        let mut frame = [0u32; 32];
        frame[1] = r1;
        frame[2] = r2;
        replace_ebreak(&mut state, &mut mem, 0, &frame);
        // the branch is back in place
        assert_eq!(Opcode::read(&mem, 0), Opcode::Opcode32(0x0020_8463));
        let armed = state.armed().unwrap();
        assert_eq!(armed.addr, expect);
        assert_eq!(Opcode::read(&mem, expect), Opcode::Opcode16(0x9002));
    }
}

#[test]
fn take_clears_and_store_installs() {
    let mut state = PatchState::new();
    assert!(state.armed().is_none());
    assert!(state.take().is_none());
    let site = riscv_step::step::PatchSite { addr: 4, original: Opcode::Opcode16(0x0001) };
    state.store(site);
    assert_eq!(state.armed(), Some(site));
    assert_eq!(state.take(), Some(site));
    assert!(state.armed().is_none());
}
