//! The data memory.

use super::{Word, RAM_SIZE, SCREEN_ADDR, SCREEN_HEIGHT, SCREEN_WIDTH};
use vstd::prelude::*;

verus! {

/// The data memory: `RAM_SIZE` words, which a program reads and writes.
pub struct Ram([Word; RAM_SIZE]);

impl View for Ram {
    type V = Seq<Word>;

    closed spec fn view(&self) -> Seq<Word> {
        self.0@
    }
}

/// Whether the pixel in column `x` of row `y` of the screen is black. The
/// screen's words follow each other row by row, 32 to a row, and the lowest
/// bit of a word is its leftmost pixel.
pub open spec fn pixel(ram: Seq<Word>, x: int, y: int) -> bool {
    ram[SCREEN_ADDR + y * 32 + x / 16] & (1u16 << ((x % 16) as u16)) != 0
}

impl Ram {
    /// A memory of zeros.
    pub fn new() -> (ram: Ram)
        ensures
            ram@ == Seq::new(RAM_SIZE as nat, |i: int| 0u16),
    {
        let ram = Ram([0u16;RAM_SIZE]);
        assert(ram.0@ =~= Seq::new(RAM_SIZE as nat, |i: int| 0u16));
        ram
    }

    /// The memory always has `RAM_SIZE` words.
    pub proof fn lemma_len(&self)
        ensures
            self@.len() == RAM_SIZE,
    {
    }

    /// The word at `address`.
    pub fn get(&self, address: usize) -> (word: Word)
        requires
            address < RAM_SIZE,
        ensures
            word == self@[address as int],
    {
        self.0[address]
    }

    /// Tests whether the pixel in column `x` of row `y` of the screen is
    /// black.
    pub fn pixel(&self, x: usize, y: usize) -> (black: bool)
        requires
            x < SCREEN_WIDTH,
            y < SCREEN_HEIGHT,
        ensures
            black == pixel(self@, x as int, y as int),
    {
        let word = self.0[SCREEN_ADDR + y * 32 + x / 16];
        let bit: u16 = (x % 16) as u16;
        word & (1u16 << bit) != 0
    }

    /// Writes `word` at `address`.
    pub fn set(&mut self, address: usize, word: Word)
        requires
            address < RAM_SIZE,
        ensures
            final(self)@ == old(self)@.update(address as int, word),
    {
        self.0[address] = word;
    }
}

impl std::ops::Deref for Ram {
    type Target = [Word];

    /// The memory as a slice of its words.
    fn deref(&self) -> (words: &[Word])
        ensures
            words@ == self@,
    {
        self.0.as_slice()
    }
}

} // verus!
