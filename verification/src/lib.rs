//! The Hack computer's toolchain: an assembler from symbolic assembly to
//! 16-bit machine words, a CPU that executes those words against the Hack
//! memory map, and a runner for test scripts that drives the CPU and checks
//! its tabular output against an expected trace.

pub mod assembler;
pub mod cpu;
pub mod instructions;
pub mod memory;
pub mod numeral;
pub mod runner;
pub mod text;

pub use assembler::{assemble, Code, Parser, SymbolTable};
pub use cpu::Cpu;
pub use memory::{Ram, Rom};
pub use runner::runner;
