//! A register-based virtual machine over 32-bit words: eight registers,
//! dynamically allocated arrays of words addressed by 32-bit identifiers,
//! byte-oriented console input and output, and a load-program instruction
//! that can replace the running code with a copy of any allocated array.

pub mod cpu;
pub mod isa;
pub mod memory;
