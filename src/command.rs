//! The command set of the interactive shell: the instructions without `BP`.
use vstd::prelude::*;

verus! {

/// A command that the shell accepts.
#[derive(Clone, Copy, Debug, PartialEq, Eq, Structural)]
pub enum Command {
    LOAD,
    DLOAD,
    STORE,
    ADD,
    SUB,
    MULT,
    DIV,
    JUMP,
    JGE,
    JGT,
    JLE,
    JLT,
    JEQ,
    JNE,
    END,
    NOOP,
    INT,
}

impl Command {
    /// Whether the command carries a value: all but `END` and `NOOP` do.
    pub fn takes_value(self) -> (r: bool)
        ensures
            r == !(self is END || self is NOOP),
    {
        match self {
            Command::END | Command::NOOP => false,
            _ => true,
        }
    }
}

} // verus!
