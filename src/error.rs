//! The errors of the assembler and of the execution engine.
use vstd::prelude::*;

use crate::lexer::code_token::{CodeToken, CodeTokenView};
use crate::{IRS, URS};

verus! {

/// Why a line could not be read.
#[derive(Debug)]
pub enum ParseError {
    /// The word is no token.
    UnknownToken { token: String },
    /// The line holds more than two tokens.
    TooManyTokens { line: String },
    /// The token cannot open a line.
    TokenMayNotBeFirst { token: CodeToken },
    /// The token cannot stand second in a line.
    TokenMayNotBeSecond { token: CodeToken },
    /// The token needs an operand and has none.
    TokenDoesTakeAnArgument { token: CodeToken },
    /// The token has an operand and takes none.
    TokenDoesNotTakeAnArgument { token: CodeToken },
}

/// A `ParseError` with its texts as character sequences.
pub enum ParseErrorView {
    UnknownToken { token: Seq<char> },
    TooManyTokens { line: Seq<char> },
    TokenMayNotBeFirst { token: CodeTokenView },
    TokenMayNotBeSecond { token: CodeTokenView },
    TokenDoesTakeAnArgument { token: CodeTokenView },
    TokenDoesNotTakeAnArgument { token: CodeTokenView },
}

impl View for ParseError {
    type V = ParseErrorView;

    open spec fn view(&self) -> ParseErrorView {
        match self {
            ParseError::UnknownToken { token } => ParseErrorView::UnknownToken { token: token@ },
            ParseError::TooManyTokens { line } => ParseErrorView::TooManyTokens { line: line@ },
            ParseError::TokenMayNotBeFirst { token } => ParseErrorView::TokenMayNotBeFirst {
                token: token@,
            },
            ParseError::TokenMayNotBeSecond { token } => ParseErrorView::TokenMayNotBeSecond {
                token: token@,
            },
            ParseError::TokenDoesTakeAnArgument { token } =>
                ParseErrorView::TokenDoesTakeAnArgument { token: token@ },
            ParseError::TokenDoesNotTakeAnArgument { token } =>
                ParseErrorView::TokenDoesNotTakeAnArgument { token: token@ },
        }
    }
}

/// An error of assembly or of execution.
#[derive(Debug)]
pub enum Error {
    /// The opcode at the program counter belongs to no instruction.
    InvalidInstruction { inst: URS, BZ: URS },
    /// The operand of `INT` names no interrupt.
    InvalidInterrupt { int: IRS, BZ: URS },
    /// `DIV` by a register that holds zero; `lhs` is the accumulator.
    DivideByZero { lhs: IRS, BZ: URS },
    /// An operand used as a register index is negative or too large.
    InvalidRxIndex { i: IRS, len: usize, BZ: URS },
    /// The program counter is past the end of the program image.
    NoMoreInstructions { BZ: URS },
    /// A run that cannot be resumed used up its budget of steps.
    TooManySteps(u64),
    /// A label is referred to and declared nowhere.
    UndefinedJumpPoint { name: String, line: usize },
    /// A line (counted from 1) could not be read.
    ParsingFailed { s: String, line: usize, err: ParseError },
    /// The tokens of a line (counted from 1) do not fit together.
    InvalidTokenArrangement { line: usize, err: ParseError },
}

/// An `Error` with its texts as character sequences.
pub enum ErrorView {
    InvalidInstruction { inst: URS, BZ: URS },
    InvalidInterrupt { int: IRS, BZ: URS },
    DivideByZero { lhs: IRS, BZ: URS },
    InvalidRxIndex { i: IRS, len: usize, BZ: URS },
    NoMoreInstructions { BZ: URS },
    TooManySteps(u64),
    UndefinedJumpPoint { name: Seq<char>, line: usize },
    ParsingFailed { s: Seq<char>, line: usize, err: ParseErrorView },
    InvalidTokenArrangement { line: usize, err: ParseErrorView },
}

impl View for Error {
    type V = ErrorView;

    open spec fn view(&self) -> ErrorView {
        match self {
            Error::InvalidInstruction { inst, BZ } => ErrorView::InvalidInstruction {
                inst: *inst,
                BZ: *BZ,
            },
            Error::InvalidInterrupt { int: code, BZ } => ErrorView::InvalidInterrupt {
                int: *code,
                BZ: *BZ,
            },
            Error::DivideByZero { lhs, BZ } => ErrorView::DivideByZero { lhs: *lhs, BZ: *BZ },
            Error::InvalidRxIndex { i, len, BZ } => ErrorView::InvalidRxIndex {
                i: *i,
                len: *len,
                BZ: *BZ,
            },
            Error::NoMoreInstructions { BZ } => ErrorView::NoMoreInstructions { BZ: *BZ },
            Error::TooManySteps(n) => ErrorView::TooManySteps(*n),
            Error::UndefinedJumpPoint { name, line } => ErrorView::UndefinedJumpPoint {
                name: name@,
                line: *line,
            },
            Error::ParsingFailed { s, line, err } => ErrorView::ParsingFailed {
                s: s@,
                line: *line,
                err: err@,
            },
            Error::InvalidTokenArrangement { line, err } => ErrorView::InvalidTokenArrangement {
                line: *line,
                err: err@,
            },
        }
    }
}

} // verus!
