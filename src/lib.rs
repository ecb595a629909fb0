//! A stack machine over a 128-bit prime field whose runs compute on LWE
//! ciphertexts and record an algebraic execution trace, together with the
//! Rescue-Prime commitment to the program that was run.

pub mod field;
pub mod opcodes;
pub mod rescue;
pub mod text;
pub mod errors;
pub mod program;
pub mod fhe;
pub mod stack;
pub mod decoder;
pub mod system;
pub mod chiplets;
pub mod processor;
pub mod air;
pub mod laws;
pub mod fhe_laws;
