//! Instruction words and their control-flow successors.
//!
//! An [`Opcode`] is the instruction starting at some address, decoded at one
//! instant: either a 16-bit compressed encoding or a 32-bit base encoding,
//! told apart by the low two bits of the first byte. It knows how to read
//! itself from memory, write itself back, produce the same-width breakpoint
//! instruction, and predict the address that executes next.

use vstd::prelude::*;
use vstd::string::StringExecFns;

verus! {

use crate::memory::{Memory, store_bytes};

/// One machine instruction: a 16-bit compressed encoding or a 32-bit base
/// encoding.
#[derive(Clone, Copy, Debug, PartialEq, Eq, Structural)]
pub enum Opcode {
    Opcode16(u16),
    Opcode32(u32),
}

/// The instruction width that a first byte announces: 4 bytes when its low
/// two bits are `11`, else 2 bytes.
pub open spec fn byte_width(b: u8) -> int {
    if b & 0b11 == 0b11 {
        4
    } else {
        2
    }
}

/// The width of the instruction starting at offset `i` of `bytes`.
pub open spec fn width_at(bytes: Seq<u8>, i: int) -> int {
    byte_width(bytes[i])
}

/// The 16-bit value that two bytes encode little-endian.
pub open spec fn le16(b0: u8, b1: u8) -> u16 {
    (b0 as u16) | ((b1 as u16) << 8)
}

/// The 32-bit value that four bytes encode little-endian.
pub open spec fn le32(b0: u8, b1: u8, b2: u8, b3: u8) -> u32 {
    (b0 as u32) | ((b1 as u32) << 8) | ((b2 as u32) << 16) | ((b3 as u32) << 24)
}

/// The width in bytes of the instruction whose first byte is `b`.
pub fn determine_width(b: u8) -> (w: usize)
    ensures
        w as int == byte_width(b),
{
    if b & 0b11 == 0b11 {
        4
    } else {
        2
    }
}

/// The width is 4 exactly when the low two bits of the first byte are `11`,
/// and 2 exactly otherwise.
pub proof fn lemma_width_determination(b: u8)
    ensures
        byte_width(b) == 4 <==> b & 0b11 == 0b11,
        byte_width(b) == 2 <==> b & 0b11 != 0b11,
{
}

proof fn lemma_le16_bytes(b0: u8, b1: u8)
    by (bit_vector)
    ensures
        (le16(b0, b1) & 0xff) as u8 == b0,
        ((le16(b0, b1) >> 8) & 0xff) as u8 == b1,
        le16(b0, b1) & 0b11 == (b0 & 0b11) as u16,
{
}

proof fn lemma_le32_bytes(b0: u8, b1: u8, b2: u8, b3: u8)
    by (bit_vector)
    ensures
        (le32(b0, b1, b2, b3) & 0xff) as u8 == b0,
        ((le32(b0, b1, b2, b3) >> 8) & 0xff) as u8 == b1,
        ((le32(b0, b1, b2, b3) >> 16) & 0xff) as u8 == b2,
        ((le32(b0, b1, b2, b3) >> 24) & 0xff) as u8 == b3,
        le32(b0, b1, b2, b3) & 0b11 == (b0 & 0b11) as u32,
{
}

proof fn lemma_u16_le_round(v: u16)
    by (bit_vector)
    ensures
        le16((v & 0xff) as u8, ((v >> 8) & 0xff) as u8) == v,
        ((v & 0xff) as u8) & 0b11 == 0b11 <==> v & 0b11 == 0b11,
{
}

proof fn lemma_u32_le_round(v: u32)
    by (bit_vector)
    ensures
        le32(
            (v & 0xff) as u8,
            ((v >> 8) & 0xff) as u8,
            ((v >> 16) & 0xff) as u8,
            ((v >> 24) & 0xff) as u8,
        ) == v,
        ((v & 0xff) as u8) & 0b11 == 0b11 <==> v & 0b11 == 0b11,
{
}

/// The register with index `idx` of a register snapshot.
pub open spec fn reg(regs: Seq<u32>, idx: u32) -> u32
    recommends
        regs.len() == 32,
        idx < 32,
{
    regs[idx as int]
}

/// The source-register field of a 32-bit encoding, bits 15 to 19.
pub open spec fn rs1_of(op: u32) -> u32 {
    (op >> 15) & 0b11111
}

/// The second source-register field of a 32-bit encoding, bits 20 to 24.
pub open spec fn rs2_of(op: u32) -> u32 {
    (op >> 20) & 0b11111
}

/// The minor-opcode field of a 32-bit encoding, bits 12 to 14; for a
/// conditional branch it selects the comparison.
pub open spec fn funct3_of(op: u32) -> u32 {
    (op >> 12) & 0b111
}

/// The offset a jump-and-link instruction is taken with: the 20-bit
/// immediate reassembled from the encoding's scattered fields — bits 21 to
/// 30 give offset bits 1 to 10, bit 20 gives offset bit 11, bits 12 to 19
/// give offset bits 12 to 19 — and sign-extended from bit 31.
pub open spec fn jal_offset(op: u32) -> u32 {
    let imm = ((op >> 20) & 0b0111_1111_1110) | ((op >> 9) & 0b1000_0000_0000) | (op
        & 0b1111_1111_0000_0000_0000);
    if op & 0x8000_0000 != 0 {
        imm | 0xfff0_0000
    } else {
        imm
    }
}

/// The offset of an indirect jump: bits 20 to 31 of the encoding,
/// sign-extended from bit 31.
pub open spec fn jalr_offset(op: u32) -> u32 {
    let imm = (op >> 20) & 0b111_1111_1111;
    if op & 0x8000_0000 != 0 {
        imm | 0xffff_f800
    } else {
        imm
    }
}

/// The offset a conditional branch is taken with, reassembled from the four
/// scattered fields of the encoding and sign-extended from bit 31.
pub open spec fn branch_offset(op: u32) -> u32 {
    let imm = ((op >> 7) & 0b0_000000_1111_0) | ((op >> 20) & 0b0_111111_0000_0) | ((op << 4)
        & 0b1_000000_0000_0);
    if op & 0x8000_0000 != 0 {
        imm | 0xffff_f000
    } else {
        imm
    }
}

/// What a conditional branch adds to the program counter: the branch offset
/// when the comparison holds over the two named registers, else 4.
///
/// The comparison is keyed by `funct3`: equal (`000`), not equal (`001`),
/// signed less-than (`100`) and greater-or-equal (`101`), unsigned
/// less-than (`110`) and greater-or-equal (`111`). The remaining two
/// `funct3` values are not branch encodings and fall through like
/// straight-line code.
pub open spec fn branch_addend(op: u32, pc: u32, regs: Seq<u32>) -> u32 {
    let a = reg(regs, rs1_of(op));
    let b = reg(regs, rs2_of(op));
    let f = funct3_of(op);
    if f == 0b000 {
        if a == b {
            branch_offset(op)
        } else {
            4
        }
    } else if f == 0b001 {
        if a != b {
            branch_offset(op)
        } else {
            4
        }
    } else if f == 0b100 {
        if (a as i32) < (b as i32) {
            branch_offset(op)
        } else {
            4
        }
    } else if f == 0b101 {
        if (a as i32) >= (b as i32) {
            branch_offset(op)
        } else {
            4
        }
    } else if f == 0b110 {
        if a < b {
            branch_offset(op)
        } else {
            4
        }
    } else if f == 0b111 {
        if a >= b {
            branch_offset(op)
        } else {
            4
        }
    } else {
        4
    }
}

/// The successor address of a 32-bit instruction word `op` at `pc`:
/// - jump-and-link (low bits `1101111`): the register named in bits 15 to
///   19 plus [`jal_offset`] — the base is deliberately register-relative,
///   where the standard encoding is relative to `pc`;
/// - indirect jump (low bits `1100111`, `funct3` `000`): the named source
///   register plus [`jalr_offset`];
/// - conditional branch (low bits `1100011`): `pc` plus [`branch_addend`];
/// - anything else is treated as straight-line code: `pc + 4`.
///
/// All additions wrap on overflow.
pub open spec fn spec_next_pc_32(op: u32, pc: u32, regs: Seq<u32>) -> u32 {
    if op & 0b1111111 == 0b110_1111 {
        reg(regs, rs1_of(op)).wrapping_add(jal_offset(op))
    } else if op & 0b000000000000_00000_111_00000_1111111 == 0b000000000000_00000_000_00000_1100111 {
        reg(regs, rs1_of(op)).wrapping_add(jalr_offset(op))
    } else if op & 0b1111111 == 0b1100011 {
        pc.wrapping_add(branch_addend(op, pc, regs))
    } else {
        pc.wrapping_add(4)
    }
}

/// The full register index named by a compressed register-jump encoding,
/// bits 7 to 11.
pub open spec fn c_rs1_of(op: u32) -> u32 {
    (op >> 7) & 0b11111
}

/// The full register index named by a compressed branch: a 3-bit field at
/// bits 7 to 9, offset by 8.
pub open spec fn c_branch_reg_of(op: u32) -> u32 {
    ((op >> 7) & 0b111) | 0b1000
}

/// The offset of a compressed jump, reassembled from the scattered fields of
/// the encoding and sign-extended from bit 12.
pub open spec fn c_jump_offset(op: u32) -> u32 {
    let imm = ((op >> 2) & 0b00000001110) | ((op >> 7) & 0b00000010000) | ((op << 3)
        & 0b00000100000) | ((op >> 1) & 0b00001000000) | ((op << 1) & 0b00010000000) | ((op >> 1)
        & 0b01100000000) | ((op << 2) & 0b10000000000);
    if op & 0b0001_0000_0000_0000 != 0 {
        imm | 0xffff_f800
    } else {
        imm
    }
}

/// The offset of a compressed conditional branch, reassembled from the
/// scattered fields of the encoding and sign-extended from bit 12.
pub open spec fn c_branch_offset(op: u32) -> u32 {
    let imm = ((op >> 2) & 0b00_0_00_11_0) | ((op >> 7) & 0b00_0_11_00_0) | ((op << 3)
        & 0b00_1_00_00_0) | ((op << 1) & 0b11_0_00_00_0);
    if op & 0b0001_0000_0000_0000 != 0 {
        imm | 0xffff_ff00
    } else {
        imm
    }
}

/// The successor address of a 16-bit instruction word `op` (zero-extended to
/// 32 bits) at `pc`:
/// - register jump and register-jump-and-link: the value of the named source
///   register, with no `pc`-relative part;
/// - compressed jump and jump-and-link: `pc` plus [`c_jump_offset`];
/// - compressed branch-if-zero / branch-if-nonzero: `pc` plus
///   [`c_branch_offset`] when the named register is zero / nonzero per the
///   sense bit, else `pc + 2`;
/// - anything else is treated as straight-line code: `pc + 2`.
///
/// All additions wrap on overflow.
pub open spec fn spec_next_pc_16(op: u32, pc: u32, regs: Seq<u32>) -> u32 {
    if op & 0b1110_00000_1111111 == 0b1000_00000_0000010 {
        reg(regs, c_rs1_of(op))
    } else if op & 0b011_0000000000011 == 0b001_00000000000_01 {
        pc.wrapping_add(c_jump_offset(op))
    } else if op & 0b110_00000000000_11 == 0b110_00000000000_01 {
        let v = reg(regs, c_branch_reg_of(op));
        let taken = if op & 0b001_00000000000_00 != 0 {
            v != 0
        } else {
            v == 0
        };
        if taken {
            pc.wrapping_add(c_branch_offset(op))
        } else {
            pc.wrapping_add(2)
        }
    } else {
        pc.wrapping_add(2)
    }
}

/// The lowercase character for one hex digit.
pub open spec fn nibble_char(n: u32) -> char {
    if n == 0 {
        '0'
    } else if n == 1 {
        '1'
    } else if n == 2 {
        '2'
    } else if n == 3 {
        '3'
    } else if n == 4 {
        '4'
    } else if n == 5 {
        '5'
    } else if n == 6 {
        '6'
    } else if n == 7 {
        '7'
    } else if n == 8 {
        '8'
    } else if n == 9 {
        '9'
    } else if n == 10 {
        'a'
    } else if n == 11 {
        'b'
    } else if n == 12 {
        'c'
    } else if n == 13 {
        'd'
    } else if n == 14 {
        'e'
    } else {
        'f'
    }
}

/// One lowercase hex digit.
fn hex_digit(n: u32) -> (r: &'static str)
    requires
        n < 16,
    ensures
        r@ =~= seq![nibble_char(n)],
{
    let s = if n == 0 {
        "0"
    } else if n == 1 {
        "1"
    } else if n == 2 {
        "2"
    } else if n == 3 {
        "3"
    } else if n == 4 {
        "4"
    } else if n == 5 {
        "5"
    } else if n == 6 {
        "6"
    } else if n == 7 {
        "7"
    } else if n == 8 {
        "8"
    } else if n == 9 {
        "9"
    } else if n == 10 {
        "a"
    } else if n == 11 {
        "b"
    } else if n == 12 {
        "c"
    } else if n == 13 {
        "d"
    } else if n == 14 {
        "e"
    } else {
        "f"
    };
    proof {
        reveal_strlit("0");
        reveal_strlit("1");
        reveal_strlit("2");
        reveal_strlit("3");
        reveal_strlit("4");
        reveal_strlit("5");
        reveal_strlit("6");
        reveal_strlit("7");
        reveal_strlit("8");
        reveal_strlit("9");
        reveal_strlit("a");
        reveal_strlit("b");
        reveal_strlit("c");
        reveal_strlit("d");
        reveal_strlit("e");
        reveal_strlit("f");
    }
    s
}

proof fn lemma_nibble_bound(x: u32)
    by (bit_vector)
    ensures
        x & 0xf < 16,
{
}

proof fn lemma_reg_index_bounds(x: u32)
    by (bit_vector)
    ensures
        x & 0b11111 < 32,
        ((x & 0b111) | 0b1000) < 32,
{
}

impl Opcode {
    /// A 16-bit value only encodes a compressed instruction when its low two
    /// bits are not `11`, and a 32-bit value only encodes a base instruction
    /// when they are: otherwise the first byte in memory would announce the
    /// other width.
    pub open spec fn wf(self) -> bool {
        match self {
            Opcode::Opcode16(v) => v & 0b11 != 0b11,
            Opcode::Opcode32(v) => v & 0b11 == 0b11,
        }
    }

    /// The instruction's width in bytes: 2 or 4.
    pub open spec fn spec_size(self) -> int {
        match self {
            Opcode::Opcode16(_) => 2,
            Opcode::Opcode32(_) => 4,
        }
    }

    /// The instruction's width in bytes: 2 or 4.
    pub fn size(&self) -> (r: usize)
        ensures
            r as int == self.spec_size(),
    {
        match self {
            Opcode::Opcode16(_) => 2,
            Opcode::Opcode32(_) => 4,
        }
    }

    /// The instruction's little-endian byte encoding, `spec_size` bytes long.
    pub open spec fn enc(self) -> Seq<u8> {
        match self {
            Opcode::Opcode16(v) => seq![(v & 0xff) as u8, ((v >> 8) & 0xff) as u8],
            Opcode::Opcode32(v) => seq![
                (v & 0xff) as u8,
                ((v >> 8) & 0xff) as u8,
                ((v >> 16) & 0xff) as u8,
                ((v >> 24) & 0xff) as u8,
            ],
        }
    }

    /// The instruction encoded at offset `i` of `bytes`: the first byte picks
    /// the width, and the bytes are read little-endian.
    pub open spec fn decode(bytes: Seq<u8>, i: int) -> Opcode
        recommends
            0 <= i,
            i + width_at(bytes, i) <= bytes.len(),
    {
        if byte_width(bytes[i]) == 4 {
            Opcode::Opcode32(le32(bytes[i], bytes[i + 1], bytes[i + 2], bytes[i + 3]))
        } else {
            Opcode::Opcode16(le16(bytes[i], bytes[i + 1]))
        }
    }

    /// What `decode` yields is always well formed, and as wide as its first
    /// byte announces.
    pub proof fn lemma_decode_wf(bytes: Seq<u8>, i: int)
        ensures
            Opcode::decode(bytes, i).wf(),
            Opcode::decode(bytes, i).spec_size() == width_at(bytes, i),
    {
        let b0 = bytes[i];
        if byte_width(b0) == 4 {
            lemma_le32_bytes(b0, bytes[i + 1], bytes[i + 2], bytes[i + 3]);
        } else {
            lemma_le16_bytes(b0, bytes[i + 1]);
        }
    }

    /// Decoding and re-encoding reproduces the bytes the instruction was
    /// decoded from.
    pub proof fn lemma_decode_enc(bytes: Seq<u8>, i: int)
        requires
            0 <= i,
            i + width_at(bytes, i) <= bytes.len(),
        ensures
            Opcode::decode(bytes, i).enc() =~= bytes.subrange(i, i + width_at(bytes, i)),
    {
        let b0 = bytes[i];
        if byte_width(b0) == 4 {
            lemma_le32_bytes(b0, bytes[i + 1], bytes[i + 2], bytes[i + 3]);
        } else {
            lemma_le16_bytes(b0, bytes[i + 1]);
        }
    }

    /// Round-trip: after a well-formed opcode is written at an offset,
    /// decoding at that offset yields the opcode again.
    pub proof fn lemma_write_read_round_trip(bytes: Seq<u8>, i: int, o: Opcode)
        requires
            o.wf(),
            0 <= i,
            i + o.spec_size() <= bytes.len(),
        ensures
            Opcode::decode(store_bytes(bytes, i, o.enc()), i) == o,
    {
        let m = store_bytes(bytes, i, o.enc());
        match o {
            Opcode::Opcode16(v) => {
                assert(m[i] == (v & 0xff) as u8);
                assert(m[i + 1] == ((v >> 8) & 0xff) as u8);
                lemma_u16_le_round(v);
            }
            Opcode::Opcode32(v) => {
                assert(m[i] == (v & 0xff) as u8);
                assert(m[i + 1] == ((v >> 8) & 0xff) as u8);
                assert(m[i + 2] == ((v >> 16) & 0xff) as u8);
                assert(m[i + 3] == ((v >> 24) & 0xff) as u8);
                lemma_u32_le_round(v);
            }
        }
    }

    /// Reads the instruction at `addr`: the byte there picks the width, and 2
    /// or 4 bytes are read little-endian.
    pub fn read(mem: &Memory, addr: u32) -> (r: Opcode)
        requires
            mem.contains_range(addr, width_at(mem@, addr - mem.spec_base())),
        ensures
            r == Opcode::decode(mem@, addr - mem.spec_base()),
            r.wf(),
    {
        // binds the span's length so the offset sums below are known to fit
        let _len: usize = mem.len();
        let off = (addr - mem.base()) as usize;
        let b0 = mem.byte_at(off);
        if b0 & 0b11 == 0b11 {
            let b1 = mem.byte_at(off + 1);
            let b2 = mem.byte_at(off + 2);
            let b3 = mem.byte_at(off + 3);
            let v = (b0 as u32) | ((b1 as u32) << 8) | ((b2 as u32) << 16) | ((b3 as u32) << 24);
            proof {
                lemma_le32_bytes(b0, b1, b2, b3);
            }
            Opcode::Opcode32(v)
        } else {
            let b1 = mem.byte_at(off + 1);
            let v = (b0 as u16) | ((b1 as u16) << 8);
            proof {
                lemma_le16_bytes(b0, b1);
            }
            Opcode::Opcode16(v)
        }
    }

    /// Writes the instruction's bytes back to memory at `addr`, in its own
    /// width.
    pub fn write(&self, mem: &mut Memory, addr: u32)
        requires
            old(mem).contains_range(addr, self.spec_size()),
        ensures
            final(mem).spec_base() == old(mem).spec_base(),
            final(mem)@ == store_bytes(old(mem)@, addr - old(mem).spec_base(), self.enc()),
    {
        // binds the span's length so the offset sums below are known to fit
        let _len: usize = mem.len();
        let off = (addr - mem.base()) as usize;
        match self {
            Opcode::Opcode16(v) => {
                mem.set_byte(off, (*v & 0xff) as u8);
                mem.set_byte(off + 1, ((*v >> 8) & 0xff) as u8);
            }
            Opcode::Opcode32(v) => {
                mem.set_byte(off, (*v & 0xff) as u8);
                mem.set_byte(off + 1, ((*v >> 8) & 0xff) as u8);
                mem.set_byte(off + 2, ((*v >> 16) & 0xff) as u8);
                mem.set_byte(off + 3, ((*v >> 24) & 0xff) as u8);
            }
        }
        proof {
            assert(mem@ =~= store_bytes(old(mem)@, addr - old(mem).spec_base(), self.enc()));
        }
    }

    /// The address executed after this instruction at `pc`, given the
    /// register snapshot: [`spec_next_pc_32`] or [`spec_next_pc_16`] by
    /// width.
    pub open spec fn spec_next_pc(self, pc: u32, regs: Seq<u32>) -> u32 {
        match self {
            Opcode::Opcode16(v) => spec_next_pc_16(v as u32, pc, regs),
            Opcode::Opcode32(v) => spec_next_pc_32(v, pc, regs),
        }
    }

    /// The successor address of this instruction at `pc`: where the program
    /// counter will point once the instruction has really executed.
    pub fn next_pc(&self, pc: u32, registers: &[u32; 32]) -> (r: u32)
        ensures
            r == self.spec_next_pc(pc, registers@),
    {
        match self {
            Opcode::Opcode16(val) => self.next_pc_16(pc, registers, *val as u32).unwrap(),
            Opcode::Opcode32(val) => self.next_pc_32(pc, registers, *val).unwrap(),
        }
    }

    /// The successor address of the 32-bit instruction word `opcode` at `pc`;
    /// never an error.
    pub fn next_pc_32(&self, pc: u32, registers: &[u32; 32], opcode: u32) -> (r: Result<u32, ()>)
        ensures
            r == Ok::<u32, ()>(spec_next_pc_32(opcode, pc, registers@)),
    {
        if opcode & 0b1111111 == 0b110_1111 {
            // jump-and-link; the offset is added to the source register
            let mut imm = ((opcode >> 20) & 0b0111_1111_1110) | ((opcode >> 9)
                & 0b1000_0000_0000) | (opcode & 0b1111_1111_0000_0000_0000);
            if opcode & 0x80000000 != 0 {
                imm = imm | 0xfff0_0000;
            }
            let rs1 = (opcode >> 15) & 0b11111;
            proof {
                lemma_reg_index_bounds(opcode >> 15);
            }
            let rs1_val = registers[rs1 as usize];
            Ok(rs1_val.wrapping_add(imm))
        } else if opcode & 0b000000000000_00000_111_00000_1111111
            == 0b000000000000_00000_000_00000_1100111 {
            // indirect jump
            let mut imm = (opcode >> 20) & 0b111_1111_1111;
            if opcode & 0x80000000 != 0 {
                imm = imm | 0xffff_f800;
            }
            let rs1 = (opcode >> 15) & 0b11111;
            proof {
                lemma_reg_index_bounds(opcode >> 15);
            }
            let rs1_val = registers[rs1 as usize];
            Ok(rs1_val.wrapping_add(imm))
        } else if opcode & 0b1111111 == 0b1100011 {
            // conditional branch
            let mut imm = ((opcode >> 7) & 0b0_000000_1111_0) | ((opcode >> 20)
                & 0b0_111111_0000_0) | ((opcode << 4) & 0b1_000000_0000_0);
            if opcode & 0x80000000 != 0 {
                imm = imm | 0xffff_f000;
            }
            let rs1 = (opcode >> 15) & 0b11111;
            let rs2 = (opcode >> 20) & 0b11111;
            proof {
                lemma_reg_index_bounds(opcode >> 15);
                lemma_reg_index_bounds(opcode >> 20);
            }
            let rs1_val = registers[rs1 as usize];
            let rs2_val = registers[rs2 as usize];
            let f = (opcode >> 12) & 0b111;
            let addend: u32 = if f == 0b000 {
                if rs1_val == rs2_val {
                    imm
                } else {
                    4
                }
            } else if f == 0b001 {
                if rs1_val != rs2_val {
                    imm
                } else {
                    4
                }
            } else if f == 0b100 {
                if (rs1_val as i32) < (rs2_val as i32) {
                    imm
                } else {
                    4
                }
            } else if f == 0b101 {
                if (rs1_val as i32) >= (rs2_val as i32) {
                    imm
                } else {
                    4
                }
            } else if f == 0b110 {
                if rs1_val < rs2_val {
                    imm
                } else {
                    4
                }
            } else if f == 0b111 {
                if rs1_val >= rs2_val {
                    imm
                } else {
                    4
                }
            } else {
                4
            };
            Ok(pc.wrapping_add(addend))
        } else {
            Ok(pc.wrapping_add(4))
        }
    }

    /// The successor address of the 16-bit instruction word `opcode`
    /// (zero-extended to 32 bits) at `pc`; never an error.
    pub fn next_pc_16(&self, pc: u32, registers: &[u32; 32], opcode: u32) -> (r: Result<u32, ()>)
        ensures
            r == Ok::<u32, ()>(spec_next_pc_16(opcode, pc, registers@)),
    {
        if opcode & 0b1110_00000_1111111 == 0b1000_00000_0000010 {
            // register jump / register-jump-and-link
            let rs1 = (opcode >> 7) & 0b11111;
            proof {
                lemma_reg_index_bounds(opcode >> 7);
            }
            let rs1_val = registers[rs1 as usize];
            Ok(rs1_val)
        } else if opcode & 0b011_0000000000011 == 0b001_00000000000_01 {
            // compressed jump / jump-and-link
            let mut imm = ((opcode >> 2) & 0b00000001110) | ((opcode >> 7) & 0b00000010000) | ((
            opcode << 3) & 0b00000100000) | ((opcode >> 1) & 0b00001000000) | ((opcode << 1)
                & 0b00010000000) | ((opcode >> 1) & 0b01100000000) | ((opcode << 2)
                & 0b10000000000);
            if opcode & 0b0001_0000_0000_0000 != 0 {
                imm = imm | 0xffff_f800;
            }
            Ok(pc.wrapping_add(imm))
        } else if opcode & 0b110_00000000000_11 == 0b110_00000000000_01 {
            // compressed branch-if-zero / branch-if-nonzero
            let rs1 = ((opcode >> 7) & 0b111) | 0b1000;
            proof {
                lemma_reg_index_bounds(opcode >> 7);
            }
            let rs1_val = registers[rs1 as usize];
            let mut imm = ((opcode >> 2) & 0b00_0_00_11_0) | ((opcode >> 7) & 0b00_0_11_00_0) | ((
            opcode << 3) & 0b00_1_00_00_0) | ((opcode << 1) & 0b11_0_00_00_0);
            if opcode & 0b0001_0000_0000_0000 != 0 {
                imm = imm | 0xffff_ff00;
            }
            let taken = if opcode & 0b001_00000000000_00 != 0 {
                rs1_val != 0
            } else {
                rs1_val == 0
            };
            if taken {
                Ok(pc.wrapping_add(imm))
            } else {
                Ok(pc.wrapping_add(2))
            }
        } else {
            Ok(pc.wrapping_add(2))
        }
    }

    /// The same-width instruction whose execution raises a breakpoint trap:
    /// `c.ebreak` for the 16-bit width, `ebreak` for the 32-bit width.
    pub open spec fn spec_trap(self) -> Opcode {
        match self {
            Opcode::Opcode16(_) => Opcode::Opcode16(0x9002),
            Opcode::Opcode32(_) => Opcode::Opcode32(0x0010_0073),
        }
    }

    /// The trap form keeps the instruction's width, and is itself well
    /// formed.
    pub proof fn lemma_trap_same_width(o: Opcode)
        ensures
            o.spec_trap().spec_size() == o.spec_size(),
            o.spec_trap().wf(),
    {
        assert(0x9002u16 & 0b11 != 0b11) by (bit_vector);
        assert(0x0010_0073u32 & 0b11 == 0b11) by (bit_vector);
    }

    /// The same-width breakpoint instruction.
    pub fn to_trap(&self) -> (r: Opcode)
        ensures
            r == self.spec_trap(),
    {
        match self {
            Opcode::Opcode16(_) => Opcode::Opcode16(0x9002),
            Opcode::Opcode32(_) => Opcode::Opcode32(0x0010_0073),
        }
    }

    /// The instruction's fixed-width lowercase hex rendering: four digits
    /// for a 16-bit word, eight for a 32-bit word, most significant first.
    pub open spec fn spec_hex(self) -> Seq<char> {
        match self {
            Opcode::Opcode16(v) => {
                let x = v as u32;
                seq![
                    nibble_char((x >> 12) & 0xf),
                    nibble_char((x >> 8) & 0xf),
                    nibble_char((x >> 4) & 0xf),
                    nibble_char(x & 0xf),
                ]
            },
            Opcode::Opcode32(x) => seq![
                nibble_char((x >> 28) & 0xf),
                nibble_char((x >> 24) & 0xf),
                nibble_char((x >> 20) & 0xf),
                nibble_char((x >> 16) & 0xf),
                nibble_char((x >> 12) & 0xf),
                nibble_char((x >> 8) & 0xf),
                nibble_char((x >> 4) & 0xf),
                nibble_char(x & 0xf),
            ],
        }
    }

    /// Renders the encoding as fixed-width lowercase hex, for diagnostics.
    pub fn hex(&self) -> (r: String)
        ensures
            r@ == self.spec_hex(),
            r@.len() == 2 * self.spec_size(),
    {
        let mut s = String::new();
        match self {
            Opcode::Opcode16(v) => {
                let x = *v as u32;
                proof {
                    lemma_nibble_bound(x >> 12);
                    lemma_nibble_bound(x >> 8);
                    lemma_nibble_bound(x >> 4);
                    lemma_nibble_bound(x);
                }
                s.append(hex_digit((x >> 12) & 0xf));
                s.append(hex_digit((x >> 8) & 0xf));
                s.append(hex_digit((x >> 4) & 0xf));
                s.append(hex_digit(x & 0xf));
            }
            Opcode::Opcode32(v) => {
                let x = *v;
                proof {
                    lemma_nibble_bound(x >> 28);
                    lemma_nibble_bound(x >> 24);
                    lemma_nibble_bound(x >> 20);
                    lemma_nibble_bound(x >> 16);
                    lemma_nibble_bound(x >> 12);
                    lemma_nibble_bound(x >> 8);
                    lemma_nibble_bound(x >> 4);
                    lemma_nibble_bound(x);
                }
                s.append(hex_digit((x >> 28) & 0xf));
                s.append(hex_digit((x >> 24) & 0xf));
                s.append(hex_digit((x >> 20) & 0xf));
                s.append(hex_digit((x >> 16) & 0xf));
                s.append(hex_digit((x >> 12) & 0xf));
                s.append(hex_digit((x >> 8) & 0xf));
                s.append(hex_digit((x >> 4) & 0xf));
                s.append(hex_digit(x & 0xf));
            }
        }
        proof {
            assert(s@ =~= self.spec_hex());
        }
        s
    }

    /// Arms a trap at `addr`: writes the same-width breakpoint instruction
    /// over whatever is there.
    pub fn patch(&self, mem: &mut Memory, addr: u32)
        requires
            old(mem).contains_range(addr, self.spec_size()),
        ensures
            final(mem).spec_base() == old(mem).spec_base(),
            final(mem)@ == store_bytes(
                old(mem)@,
                addr - old(mem).spec_base(),
                self.spec_trap().enc(),
            ),
    {
        proof {
            Opcode::lemma_trap_same_width(*self);
        }
        self.to_trap().write(mem, addr);
    }
}

} // verus!
