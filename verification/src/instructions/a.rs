//! The A-instruction.

use crate::memory::Word;
use vstd::prelude::*;

verus! {

/// An A-instruction: a word whose highest bit is 0 and whose other 15 bits
/// are an address.
#[derive(Clone, Copy, Debug)]
pub struct AInstruction(pub Word);

impl AInstruction {
    /// The address that the instruction loads into A.
    pub fn address(&self) -> (address: Word)
        ensures
            address == self.0,
    {
        self.0
    }
}

} // verus!
