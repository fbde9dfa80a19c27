//! The C-instruction: its fields, the ALU, the stores and the jump.

use crate::memory::{Ram, Word, RAM_SIZE};
use vstd::prelude::*;

verus! {

/// A C-instruction: a word whose highest bit is 1. From the lowest bit up it
/// holds the jump bits `j3 j2 j1`, the destination bits `d3 d2 d1`, the six
/// control bits of the ALU and the bit `a` that picks the ALU's second input.
#[derive(Clone, Copy, Debug)]
pub struct CInstruction(pub Word);

/// Bit 12, `a`: whether the second input of the ALU is `RAM[A]`, not A.
pub open spec fn reads_memory(raw: Word) -> bool {
    (raw / 4096) % 2 == 1
}

/// Bits 11 to 6, `c1` to `c6`: the control bits of the ALU, as a number.
pub open spec fn control(raw: Word) -> Word {
    ((raw / 64) % 64) as Word
}

/// Bit 5, `d1`: whether the result is stored in A.
pub open spec fn writes_a(raw: Word) -> bool {
    (raw / 32) % 2 == 1
}

/// Bit 4, `d2`: whether the result is stored in D.
pub open spec fn writes_d(raw: Word) -> bool {
    (raw / 16) % 2 == 1
}

/// Bit 3, `d3`: whether the result is stored in `RAM[A]`.
pub open spec fn writes_memory(raw: Word) -> bool {
    (raw / 8) % 2 == 1
}

/// Bit 2, `j1`: whether to jump on a negative result.
pub open spec fn jumps_if_negative(raw: Word) -> bool {
    (raw / 4) % 2 == 1
}

/// Bit 1, `j2`: whether to jump on a zero result.
pub open spec fn jumps_if_zero(raw: Word) -> bool {
    (raw / 2) % 2 == 1
}

/// Bit 0, `j3`: whether to jump on a positive result.
pub open spec fn jumps_if_positive(raw: Word) -> bool {
    raw % 2 == 1
}

/// Whether the instruction uses A as an address into the RAM, to read or to
/// write.
pub open spec fn uses_memory(raw: Word) -> bool {
    reads_memory(raw) || writes_memory(raw)
}

/// The sum of two words, modulo two to the 16.
pub open spec fn wrapping_sum(x: Word, y: Word) -> Word {
    ((x + y) % 0x10000) as Word
}

/// The ALU. Its six control bits are, from the highest down: `zx`, use zero
/// for x; `nx`, invert x; `zy`, use zero for y; `ny`, invert y; `f`, add
/// rather than and; `no`, invert the result.
pub open spec fn alu(x: Word, y: Word, control: Word) -> Word {
    let x = if (control / 32) % 2 == 1 {
        0u16
    } else {
        x
    };
    let x = if (control / 16) % 2 == 1 {
        !x
    } else {
        x
    };
    let y = if (control / 8) % 2 == 1 {
        0u16
    } else {
        y
    };
    let y = if (control / 4) % 2 == 1 {
        !y
    } else {
        y
    };
    let out = if (control / 2) % 2 == 1 {
        wrapping_sum(x, y)
    } else {
        x & y
    };
    if control % 2 == 1 {
        !out
    } else {
        out
    }
}

/// Whether a word is negative as a two's-complement number: its highest bit
/// is set.
pub open spec fn is_negative(word: Word) -> bool {
    word >= 0x8000
}

/// Whether the instruction `raw` jumps on a result with the given flags.
pub open spec fn jumps(raw: Word, zero: bool, negative: bool) -> bool {
    ||| jumps_if_negative(raw) && negative
    ||| jumps_if_zero(raw) && zero
    ||| jumps_if_positive(raw) && !negative && !zero
}

/// The second input of the ALU for the instruction `raw`: `RAM[A]` or A.
pub open spec fn operand(raw: Word, ram: Seq<Word>, a: Word) -> Word {
    if reads_memory(raw) {
        ram[a as int]
    } else {
        a
    }
}

/// The result of the instruction `raw` with A, D and the RAM as given.
pub open spec fn result_of(raw: Word, ram: Seq<Word>, a: Word, d: Word) -> Word {
    alu(d, operand(raw, ram, a), control(raw))
}

impl CInstruction {
    /// Executes the instruction on the RAM and the registers A and D:
    /// computes, stores the result where the destination bits say, and
    /// returns whether to jump. The RAM is written at the address that A
    /// held before the instruction.
    pub fn execute(self, ram: &mut Ram, a: &mut Word, d: &mut Word) -> (jump: bool)
        requires
            uses_memory(self.0) ==> *old(a) < RAM_SIZE,
        ensures
            *final(a) == if writes_a(self.0) {
                result_of(self.0, old(ram)@, *old(a), *old(d))
            } else {
                *old(a)
            },
            *final(d) == if writes_d(self.0) {
                result_of(self.0, old(ram)@, *old(a), *old(d))
            } else {
                *old(d)
            },
            final(ram)@ == if writes_memory(self.0) {
                old(ram)@.update(*old(a) as int, result_of(self.0, old(ram)@, *old(a), *old(d)))
            } else {
                old(ram)@
            },
            jump == jumps(
                self.0,
                result_of(self.0, old(ram)@, *old(a), *old(d)) == 0,
                is_negative(result_of(self.0, old(ram)@, *old(a), *old(d))),
            ),
    {
        let x = *d;
        let y = if self.a_is_address() {
            ram.get(*a as usize)
        } else {
            *a
        };
        let (result, zero, negative) = self.computation(x, y);
        self.store(result, ram, a, d);
        self.jump(zero, negative)
    }

    /// Whether the ALU's second input is read from the RAM at the address in
    /// A.
    pub fn a_is_address(&self) -> (r: bool)
        ensures
            r == reads_memory(self.0),
    {
        (self.0 / 4096) % 2 == 1
    }

    /// The ALU's result for the inputs `x` and `y`, with its flags: whether
    /// it is zero, and whether it is negative.
    pub fn computation(&self, x: Word, y: Word) -> (r: (Word, bool, bool))
        ensures
            r.0 == alu(x, y, control(self.0)),
            r.1 == (r.0 == 0),
            r.2 == is_negative(r.0),
    {
        let control: Word = (self.0 / 64) % 64;
        let x = if (control / 32) % 2 == 1 {
            0
        } else {
            x
        };
        let x = if (control / 16) % 2 == 1 {
            !x
        } else {
            x
        };
        let y = if (control / 8) % 2 == 1 {
            0
        } else {
            y
        };
        let y = if (control / 4) % 2 == 1 {
            !y
        } else {
            y
        };
        let out = if (control / 2) % 2 == 1 {
            ((x as u32 + y as u32) % 0x10000) as u16
        } else {
            x & y
        };
        let result = if control % 2 == 1 {
            !out
        } else {
            out
        };
        (result, result == 0, result >= 0x8000)
    }

    /// Stores `result` where the destination bits say: in `RAM[A]`, in D and
    /// in A. The RAM is written first, at the address that A still holds.
    pub fn store(&self, result: Word, ram: &mut Ram, a: &mut Word, d: &mut Word)
        requires
            writes_memory(self.0) ==> *old(a) < RAM_SIZE,
        ensures
            *final(a) == if writes_a(self.0) {
                result
            } else {
                *old(a)
            },
            *final(d) == if writes_d(self.0) {
                result
            } else {
                *old(d)
            },
            final(ram)@ == if writes_memory(self.0) {
                old(ram)@.update(*old(a) as int, result)
            } else {
                old(ram)@
            },
    {
        if (self.0 / 8) % 2 == 1 {
            ram.set(*a as usize, result);
        }
        if (self.0 / 16) % 2 == 1 {
            *d = result;
        }
        if (self.0 / 32) % 2 == 1 {
            *a = result;
        }
    }

    /// Whether the instruction jumps on a result with the given flags.
    pub fn jump(&self, zero: bool, negative: bool) -> (r: bool)
        ensures
            r == jumps(self.0, zero, negative),
    {
        let j1 = (self.0 / 4) % 2 == 1;
        let j2 = (self.0 / 2) % 2 == 1;
        let j3 = self.0 % 2 == 1;
        (j1 && negative) || (j2 && zero) || (j3 && !negative && !zero)
    }
}

/// The constants of the ALU: what it computes from zeros alone.
proof fn lemma_alu_constants()
    by (bit_vector)
    ensures
        ((0u16 + 0u16) % 0x10000) as u16 == 0u16,
        !(((!0u16 + !0u16) % 0x10000) as u16) == 1u16,
        ((!0u16 + 0u16) % 0x10000) as u16 == 0xFFFFu16,
{
}

/// What the ALU computes from one input and a zero.
proof fn lemma_alu_unary(x: u16)
    by (bit_vector)
    ensures
        x & !0u16 == x,
        !0u16 & x == x,
        !(x & !0u16) == !x,
        !(!0u16 & x) == !x,
        !(((x + !0u16) % 0x10000) as u16) == ((0x10000 - x) % 0x10000) as u16,
        !(((!0u16 + x) % 0x10000) as u16) == ((0x10000 - x) % 0x10000) as u16,
        !(((!x + !0u16) % 0x10000) as u16) == ((x + 1) % 0x10000) as u16,
        !(((!0u16 + !x) % 0x10000) as u16) == ((x + 1) % 0x10000) as u16,
        ((x + !0u16) % 0x10000) as u16 == ((x + 0xFFFF) % 0x10000) as u16,
        ((!0u16 + x) % 0x10000) as u16 == ((x + 0xFFFF) % 0x10000) as u16,
{
}

/// What the ALU computes from both inputs.
proof fn lemma_alu_binary(x: u16, y: u16)
    by (bit_vector)
    ensures
        !(((!x + y) % 0x10000) as u16) == ((x + 0x10000 - y) % 0x10000) as u16,
        !(((x + !y) % 0x10000) as u16) == ((y + 0x10000 - x) % 0x10000) as u16,
        !(!x & !y) == x | y,
{
}

/// The ALU computes what the mnemonics of the machine language say, each
/// with the control bits that the table of computations gives it. Here `x`
/// is D and `y` is A or M. Sums and differences wrap around: a difference
/// is the sum with two to the 16 less what is taken away, modulo two to the
/// 16.
pub proof fn lemma_alu_table(x: Word, y: Word)
    ensures
        alu(x, y, 0b101010) == 0,  // 0
        alu(x, y, 0b111111) == 1,  // 1
        alu(x, y, 0b111010) == 0xFFFF,  // -1
        alu(x, y, 0b001100) == x,  // D
        alu(x, y, 0b110000) == y,  // A, M
        alu(x, y, 0b001101) == !x,  // !D
        alu(x, y, 0b110001) == !y,  // !A, !M
        alu(x, y, 0b001111) == (0x10000 - x) % 0x10000,  // -D
        alu(x, y, 0b110011) == (0x10000 - y) % 0x10000,  // -A, -M
        alu(x, y, 0b011111) == (x + 1) % 0x10000,  // D+1
        alu(x, y, 0b110111) == (y + 1) % 0x10000,  // A+1, M+1
        alu(x, y, 0b001110) == (x + 0xFFFF) % 0x10000,  // D-1
        alu(x, y, 0b110010) == (y + 0xFFFF) % 0x10000,  // A-1, M-1
        alu(x, y, 0b000010) == (x + y) % 0x10000,  // D+A, D+M
        alu(x, y, 0b010011) == (x + 0x10000 - y) % 0x10000,  // D-A, D-M
        alu(x, y, 0b000111) == (y + 0x10000 - x) % 0x10000,  // A-D, M-D
        alu(x, y, 0b000000) == x & y,  // D&A, D&M
        alu(x, y, 0b010101) == x | y,  // D|A, D|M
{
    lemma_alu_constants();
    lemma_alu_unary(x);
    lemma_alu_unary(y);
    lemma_alu_binary(x, y);
}

} // verus!
