//! The two kinds of instruction and their decoding from a raw word.

pub mod a;
pub mod c;

pub use a::AInstruction;
pub use c::CInstruction;

use crate::memory::Word;
use vstd::prelude::*;

verus! {

/// A decoded instruction.
#[derive(Clone, Copy, Debug)]
pub enum Instruction {
    /// The highest bit is 0: load the word into A.
    A(AInstruction),
    /// The highest bit is 1: compute, store and jump.
    C(CInstruction),
}

/// Whether the highest bit of `raw` is set, which makes it a C-instruction.
pub open spec fn is_c(raw: Word) -> bool {
    raw >= 0x8000
}

impl Instruction {
    /// Decodes a raw word by its highest bit.
    pub fn new(raw: Word) -> (instruction: Instruction)
        ensures
            instruction == if is_c(raw) {
                Instruction::C(CInstruction(raw))
            } else {
                Instruction::A(AInstruction(raw))
            },
    {
        if raw >= 0x8000 {
            Instruction::C(CInstruction(raw))
        } else {
            Instruction::A(AInstruction(raw))
        }
    }
}

} // verus!
