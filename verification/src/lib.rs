//! A small register machine: a four-byte instruction encoding, an assembler
//! for its mnemonic text form, and the engine that executes it.

pub mod assembly;
pub mod cpu;
pub mod instruction;
pub mod parser;
pub mod reassembly;
pub mod text;
pub mod utils;
