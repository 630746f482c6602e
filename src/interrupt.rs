//! The interrupts that the `INT` instruction can raise.
use vstd::prelude::*;

verus! {

/// A diagnostic operation, chosen by the operand of `INT`.
#[derive(Clone, Copy, Debug, PartialEq, Eq, Structural)]
pub enum Interrupt {
    /// The registers up to the last non-zero one, as text.
    Print,
    /// The registers up to the last non-zero one, as a list of bytes.
    PrintBytes,
    /// The accumulator.
    DumpA,
    /// The program counter.
    DumpBZ,
    /// The whole register file.
    DumpRx,
    /// The program image.
    DumpRam,
}

/// The interrupt whose number is `code`, if there is one.
pub open spec fn interrupt_spec(code: int) -> Option<Interrupt> {
    if code == 0 {
        Some(Interrupt::Print)
    } else if code == 1 {
        Some(Interrupt::PrintBytes)
    } else if code == 2 {
        Some(Interrupt::DumpA)
    } else if code == 3 {
        Some(Interrupt::DumpBZ)
    } else if code == 4 {
        Some(Interrupt::DumpRx)
    } else if code == 5 {
        Some(Interrupt::DumpRam)
    } else {
        None
    }
}

impl Interrupt {
    /// The interrupt with number `code`, or `None` if no interrupt has it.
    pub fn from_code(code: i64) -> (r: Option<Interrupt>)
        ensures
            r == interrupt_spec(code as int),
    {
        match code {
            0 => Some(Interrupt::Print),
            1 => Some(Interrupt::PrintBytes),
            2 => Some(Interrupt::DumpA),
            3 => Some(Interrupt::DumpBZ),
            4 => Some(Interrupt::DumpRx),
            5 => Some(Interrupt::DumpRam),
            _ => None,
        }
    }
}

} // verus!
