//! The memories of the Hack computer: the program's ROM and the data RAM.

pub mod ram;
pub mod rom;

pub use ram::Ram;
pub use rom::Rom;

use vstd::prelude::*;

verus! {

/// A memory cell or a register: 16 bits.
pub type Word = u16;

/// The number of instructions that the ROM holds.
pub const ROM_SIZE: usize = 32768;

/// The number of words of the RAM: 16K of data, 8K of screen and the
/// keyboard's word.
pub const RAM_SIZE: usize = 24577;

/// The address of the first word of the screen.
pub const SCREEN_ADDR: usize = 16384;

/// The address of the keyboard's word.
pub const KBD_ADDR: usize = 24576;

/// The code that the keyboard's word holds while the left arrow is pressed.
pub const KEY_LEFT: Word = 130;

/// The code that the keyboard's word holds while the up arrow is pressed.
pub const KEY_UP: Word = 131;

/// The code that the keyboard's word holds while the right arrow is pressed.
pub const KEY_RIGHT: Word = 132;

/// The code that the keyboard's word holds while the down arrow is pressed.
pub const KEY_DOWN: Word = 133;

/// The number of pixels in a row of the screen.
pub const SCREEN_WIDTH: usize = 512;

/// The number of rows of the screen.
pub const SCREEN_HEIGHT: usize = 256;

} // verus!
