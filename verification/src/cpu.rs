//! The CPU: three registers, the RAM and the ROM, and the cycle that
//! fetches, decodes and executes one instruction.

use crate::instructions::c::{
    is_negative, jumps, jumps_if_negative, jumps_if_positive, jumps_if_zero, result_of,
    uses_memory, writes_a, writes_d, writes_memory,
};
use crate::instructions::{is_c, Instruction};
use crate::memory::rom::loaded;
use crate::memory::{Ram, Rom, Word, RAM_SIZE, ROM_SIZE};
use vstd::prelude::*;

verus! {

/// A register of the CPU.
pub type Register = Word;

/// The register that holds the address of the next instruction.
pub type ProgramCounter = Word;

/// The Hack CPU with its memories.
pub struct Cpu {
    /// The data memory.
    pub ram: Ram,
    /// The program memory.
    pub rom: Rom,
    /// The address of the next instruction.
    pub pc: ProgramCounter,
    /// The register A: an address or a value.
    pub ra: Register,
    /// The register D: a value.
    pub rd: Register,
}

/// What a CPU holds: the words of its memories and registers.
pub struct Machine {
    pub ram: Seq<Word>,
    pub rom: Seq<Word>,
    pub pc: Word,
    pub ra: Word,
    pub rd: Word,
}

impl Machine {
    /// A machine around the program `words`: the registers and the RAM hold
    /// zeros.
    pub open spec fn around(words: Seq<Word>) -> Machine {
        Machine {
            ram: Seq::new(RAM_SIZE as nat, |i: int| 0u16),
            rom: loaded(words),
            pc: 0,
            ra: 0,
            rd: 0,
        }
    }

    /// The instruction that the next step executes, if the program counter
    /// stands within the ROM.
    pub open spec fn fetched(self) -> Word {
        self.rom[self.pc as int]
    }

    /// Whether the next step cannot be made: the program counter stands
    /// beyond the ROM, or the instruction uses the RAM at an address in A
    /// beyond it.
    pub open spec fn faulted(self) -> bool {
        ||| self.pc >= ROM_SIZE
        ||| is_c(self.fetched()) && uses_memory(self.fetched()) && self.ra >= RAM_SIZE
    }

    /// The result that the ALU computes in the next step, for a
    /// C-instruction.
    pub open spec fn result(self) -> Word {
        result_of(self.fetched(), self.ram, self.ra, self.rd)
    }

    /// Whether the next step jumps.
    pub open spec fn jumping(self) -> bool {
        is_c(self.fetched()) && jumps(self.fetched(), self.result() == 0, is_negative(self.result()))
    }

    /// What A holds after the next step: the word of an A-instruction, or
    /// the result of a C-instruction that stores in A.
    pub open spec fn next_a(self) -> Word {
        if !is_c(self.fetched()) {
            self.fetched()
        } else if writes_a(self.fetched()) {
            self.result()
        } else {
            self.ra
        }
    }

    /// The machine after one step. A C-instruction writes the RAM at the
    /// address that A held before, and jumps to the address that A holds
    /// after.
    pub open spec fn stepped(self) -> Machine {
        Machine {
            ram: if is_c(self.fetched()) && writes_memory(self.fetched()) {
                self.ram.update(self.ra as int, self.result())
            } else {
                self.ram
            },
            rom: self.rom,
            pc: if self.jumping() {
                self.next_a()
            } else {
                (self.pc + 1) as Word
            },
            ra: self.next_a(),
            rd: if is_c(self.fetched()) && writes_d(self.fetched()) {
                self.result()
            } else {
                self.rd
            },
        }
    }
}

impl View for Cpu {
    type V = Machine;

    open spec fn view(&self) -> Machine {
        Machine { ram: self.ram@, rom: self.rom@, pc: self.pc, ra: self.ra, rd: self.rd }
    }
}

impl Cpu {
    /// A CPU around the program `program`: the registers and the RAM hold
    /// zeros.
    pub fn new(program: Rom) -> (cpu: Cpu)
        ensures
            cpu@ == (Machine {
                ram: Seq::new(RAM_SIZE as nat, |i: int| 0u16),
                rom: program@,
                pc: 0,
                ra: 0,
                rd: 0,
            }),
    {
        Cpu { rom: program, ram: Ram::new(), pc: 0, ra: 0, rd: 0 }
    }

    /// Tests whether the next step cannot be made.
    pub fn faults(&self) -> (r: bool)
        ensures
            r == self@.faulted(),
    {
        if self.pc as usize >= ROM_SIZE {
            return true;
        }
        let raw = self.rom.get(self.pc as usize);
        raw >= 0x8000 && ((raw / 4096) % 2 == 1 || (raw / 8) % 2 == 1) && self.ra as usize
            >= RAM_SIZE
    }

    /// One cycle: fetches the instruction at the program counter, decodes
    /// and executes it. An A-instruction loads its word into A. A
    /// C-instruction computes, stores its result, and then jumps to the
    /// address in A or goes on with the next instruction.
    pub fn step(&mut self)
        requires
            !old(self)@.faulted(),
        ensures
            final(self)@ == old(self)@.stepped(),
    {
        let raw = self.rom.get(self.pc as usize);
        match Instruction::new(raw) {
            Instruction::A(ins) => {
                self.ra = ins.address();
            },
            Instruction::C(ins) => {
                let jump = ins.execute(&mut self.ram, &mut self.ra, &mut self.rd);
                if jump {
                    self.pc = self.ra;
                    return ;
                }
            },
        }
        self.pc += 1;
    }
}

/// An A-instruction loads its word into A and goes on with the next
/// instruction; D and the RAM stay as they are, and the step can be made.
pub proof fn lemma_a_instruction(machine: Machine)
    requires
        machine.pc < ROM_SIZE,
        !is_c(machine.fetched()),
    ensures
        !machine.faulted(),
        machine.stepped() == (Machine {
            ram: machine.ram,
            rom: machine.rom,
            pc: (machine.pc + 1) as Word,
            ra: machine.fetched(),
            rd: machine.rd,
        }),
{
}

/// A C-instruction without destination and without jump goes on with the
/// next instruction and changes nothing else.
pub proof fn lemma_plain_computation(machine: Machine)
    requires
        machine.pc < ROM_SIZE,
        is_c(machine.fetched()),
        !writes_a(machine.fetched()),
        !writes_d(machine.fetched()),
        !writes_memory(machine.fetched()),
        !jumps_if_negative(machine.fetched()),
        !jumps_if_zero(machine.fetched()),
        !jumps_if_positive(machine.fetched()),
    ensures
        machine.stepped() == (Machine {
            ram: machine.ram,
            rom: machine.rom,
            pc: (machine.pc + 1) as Word,
            ra: machine.ra,
            rd: machine.rd,
        }),
{
}

/// A jump that is taken goes to the address that A holds after the
/// instruction has stored its result.
pub proof fn lemma_jump_target(machine: Machine)
    requires
        machine.jumping(),
    ensures
        machine.stepped().pc == machine.stepped().ra,
{
}

} // verus!
