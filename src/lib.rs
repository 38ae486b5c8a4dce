//! An assembler core for a 16-register, byte-addressable instruction set:
//! a shift/reduce parser over classified tokens, an expression evaluator,
//! and a two-pass layout and encoding stage that yields a flat byte image.
#![allow(non_camel_case_types)]

pub mod error;
pub mod token;
pub mod expr;
pub mod isa;
pub mod parser;
pub mod layout;
