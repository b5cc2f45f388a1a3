//! A single-instruction-stepping engine for a 32-bit RISC-V core with the
//! compressed extension.
//!
//! Ordinary execution is turned into a sequence of breakpoint traps: one trap
//! per machine instruction. On each trap the engine restores the instruction
//! that the previous trap displaced, predicts where control flow goes next
//! (across straight-line code, jumps, indirect jumps and conditional branches,
//! in both 16-bit and 32-bit encodings), and arms a same-width trap
//! instruction at that successor address.
//!
//! Executable memory is modeled as a span of bytes ([`memory::Memory`]) so
//! that the self-modifying-code protocol can be stated and proved over an
//! ordinary byte buffer; the hardware glue that maps it onto real instruction
//! memory lives outside this crate.

pub mod memory;
pub mod opcode;
pub mod step;
