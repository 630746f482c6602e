//! An emulator for a small register machine and a two-pass assembler for
//! its symbolic assembly language.
#![allow(non_snake_case)]

use vstd::prelude::*;

pub mod instruction;
pub mod text;
pub mod interrupt;
pub mod command;
pub mod error;
pub mod lexer;
pub mod cpu;

pub use error::Error;

verus! {

/// Unsigned machine word: opcodes and addresses.
pub type URS = usize;

/// Signed machine word: operands, the accumulator and the registers.
pub type IRS = i64;

/// A program image: `(opcode, operand)` pairs, addressed by position.
pub type RAM = Vec<(URS, IRS)>;

/// A result with both of its sides seen through their views.
pub open spec fn result_view<T: View, E: View>(r: Result<T, E>) -> Result<T::V, E::V> {
    match r {
        Ok(t) => Ok(t@),
        Err(e) => Err(e@),
    }
}

/// The number of data registers of the machine.
pub const DATA_REGISTERS: usize = 16;

} // verus!
