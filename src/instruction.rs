//! The instruction set of the machine.
use vstd::prelude::*;

use crate::text::chars_equal;

verus! {

/// An instruction of the machine; its ordinal is its opcode in a program image.
#[derive(Clone, Copy, Debug, PartialEq, Eq, Structural)]
pub enum Instruction {
    LOAD,
    DLOAD,
    STORE,
    ADD,
    SUB,
    MULT,
    DIV,
    JUMP,
    JGE,
    JGT,
    JLE,
    JLT,
    JEQ,
    JNE,
    END,
    BP,
    NOOP,
    INT,
}

/// The number of instructions, and one past the largest opcode.
pub const INSTRUCTION_COUNT: usize = 18;

/// The opcode of each instruction: its position in the declaration.
pub open spec fn opcode_of(inst: Instruction) -> nat {
    match inst {
        Instruction::LOAD => 0,
        Instruction::DLOAD => 1,
        Instruction::STORE => 2,
        Instruction::ADD => 3,
        Instruction::SUB => 4,
        Instruction::MULT => 5,
        Instruction::DIV => 6,
        Instruction::JUMP => 7,
        Instruction::JGE => 8,
        Instruction::JGT => 9,
        Instruction::JLE => 10,
        Instruction::JLT => 11,
        Instruction::JEQ => 12,
        Instruction::JNE => 13,
        Instruction::END => 14,
        Instruction::BP => 15,
        Instruction::NOOP => 16,
        Instruction::INT => 17,
    }
}

/// The instruction whose opcode is `code`, if there is one.
pub open spec fn decode_spec(code: int) -> Option<Instruction> {
    if code == 0 {
        Some(Instruction::LOAD)
    } else if code == 1 {
        Some(Instruction::DLOAD)
    } else if code == 2 {
        Some(Instruction::STORE)
    } else if code == 3 {
        Some(Instruction::ADD)
    } else if code == 4 {
        Some(Instruction::SUB)
    } else if code == 5 {
        Some(Instruction::MULT)
    } else if code == 6 {
        Some(Instruction::DIV)
    } else if code == 7 {
        Some(Instruction::JUMP)
    } else if code == 8 {
        Some(Instruction::JGE)
    } else if code == 9 {
        Some(Instruction::JGT)
    } else if code == 10 {
        Some(Instruction::JLE)
    } else if code == 11 {
        Some(Instruction::JLT)
    } else if code == 12 {
        Some(Instruction::JEQ)
    } else if code == 13 {
        Some(Instruction::JNE)
    } else if code == 14 {
        Some(Instruction::END)
    } else if code == 15 {
        Some(Instruction::BP)
    } else if code == 16 {
        Some(Instruction::NOOP)
    } else if code == 17 {
        Some(Instruction::INT)
    } else {
        None
    }
}

/// The mnemonic of an instruction: its name in capitals.
pub open spec fn mnemonic(inst: Instruction) -> Seq<char> {
    match inst {
        Instruction::LOAD => seq!['L', 'O', 'A', 'D'],
        Instruction::DLOAD => seq!['D', 'L', 'O', 'A', 'D'],
        Instruction::STORE => seq!['S', 'T', 'O', 'R', 'E'],
        Instruction::ADD => seq!['A', 'D', 'D'],
        Instruction::SUB => seq!['S', 'U', 'B'],
        Instruction::MULT => seq!['M', 'U', 'L', 'T'],
        Instruction::DIV => seq!['D', 'I', 'V'],
        Instruction::JUMP => seq!['J', 'U', 'M', 'P'],
        Instruction::JGE => seq!['J', 'G', 'E'],
        Instruction::JGT => seq!['J', 'G', 'T'],
        Instruction::JLE => seq!['J', 'L', 'E'],
        Instruction::JLT => seq!['J', 'L', 'T'],
        Instruction::JEQ => seq!['J', 'E', 'Q'],
        Instruction::JNE => seq!['J', 'N', 'E'],
        Instruction::END => seq!['E', 'N', 'D'],
        Instruction::BP => seq!['B', 'P'],
        Instruction::NOOP => seq!['N', 'O', 'O', 'P'],
        Instruction::INT => seq!['I', 'N', 'T'],
    }
}

/// The first instruction, in opcode order from `k` on, whose mnemonic is `w`.
pub open spec fn named_from(w: Seq<char>, k: nat) -> Option<Instruction>
    decreases INSTRUCTION_COUNT - k,
{
    if k >= INSTRUCTION_COUNT {
        None
    } else if mnemonic(decode_spec(k as int).unwrap()) == w {
        decode_spec(k as int)
    } else {
        named_from(w, k + 1)
    }
}

/// The instruction whose mnemonic is `w`, if there is one.
pub open spec fn instruction_named(w: Seq<char>) -> Option<Instruction> {
    named_from(w, 0)
}

/// Whether an instruction carries an operand: all but `END`, `BP` and `NOOP` do.
pub open spec fn takes_operand(inst: Instruction) -> bool {
    !(inst is END || inst is BP || inst is NOOP)
}

/// Every mnemonic starts with a capital letter.
pub proof fn lemma_mnemonic_letter(inst: Instruction)
    ensures
        mnemonic(inst).len() > 0,
        'A' <= mnemonic(inst)[0] <= 'Z',
{
}

proof fn lemma_named_from_none(w: Seq<char>, k: nat)
    requires
        w.len() > 0,
        !('A' <= w[0] <= 'Z'),
    ensures
        named_from(w, k) is None,
    decreases INSTRUCTION_COUNT - k,
{
    if k < INSTRUCTION_COUNT {
        lemma_mnemonic_letter(decode_spec(k as int).unwrap());
        lemma_named_from_none(w, k + 1);
    }
}

/// A word that does not start with a capital letter names no instruction.
pub proof fn lemma_not_mnemonic(w: Seq<char>)
    requires
        w.len() > 0,
        !('A' <= w[0] <= 'Z'),
    ensures
        instruction_named(w) is None,
{
    lemma_named_from_none(w, 0);
}

impl Instruction {
    /// Whether the instruction carries an operand.
    pub fn takes_argument(self) -> (r: bool)
        ensures
            r == takes_operand(self),
    {
        match self {
            Instruction::END | Instruction::BP | Instruction::NOOP => false,
            _ => true,
        }
    }

    /// Whether the instruction carries an operand (the same as `takes_argument`).
    pub fn takes_value(self) -> (r: bool)
        ensures
            r == takes_operand(self),
    {
        match self {
            Instruction::END | Instruction::BP | Instruction::NOOP => false,
            _ => true,
        }
    }

    /// The opcode of the instruction.
    pub fn opcode(self) -> (r: usize)
        ensures
            r == opcode_of(self),
    {
        match self {
            Instruction::LOAD => 0,
            Instruction::DLOAD => 1,
            Instruction::STORE => 2,
            Instruction::ADD => 3,
            Instruction::SUB => 4,
            Instruction::MULT => 5,
            Instruction::DIV => 6,
            Instruction::JUMP => 7,
            Instruction::JGE => 8,
            Instruction::JGT => 9,
            Instruction::JLE => 10,
            Instruction::JLT => 11,
            Instruction::JEQ => 12,
            Instruction::JNE => 13,
            Instruction::END => 14,
            Instruction::BP => 15,
            Instruction::NOOP => 16,
            Instruction::INT => 17,
        }
    }

    /// The instruction with opcode `code`, or `None` if no instruction has it.
    pub fn from_opcode(code: usize) -> (r: Option<Instruction>)
        ensures
            r == decode_spec(code as int),
    {
        match code {
            0 => Some(Instruction::LOAD),
            1 => Some(Instruction::DLOAD),
            2 => Some(Instruction::STORE),
            3 => Some(Instruction::ADD),
            4 => Some(Instruction::SUB),
            5 => Some(Instruction::MULT),
            6 => Some(Instruction::DIV),
            7 => Some(Instruction::JUMP),
            8 => Some(Instruction::JGE),
            9 => Some(Instruction::JGT),
            10 => Some(Instruction::JLE),
            11 => Some(Instruction::JLT),
            12 => Some(Instruction::JEQ),
            13 => Some(Instruction::JNE),
            14 => Some(Instruction::END),
            15 => Some(Instruction::BP),
            16 => Some(Instruction::NOOP),
            17 => Some(Instruction::INT),
            _ => None,
        }
    }

    /// The mnemonic of the instruction.
    pub fn mnemonic(self) -> (r: Vec<char>)
        ensures
            r@ == mnemonic(self),
    {
        let r = match self {
            Instruction::LOAD => vec!['L', 'O', 'A', 'D'],
            Instruction::DLOAD => vec!['D', 'L', 'O', 'A', 'D'],
            Instruction::STORE => vec!['S', 'T', 'O', 'R', 'E'],
            Instruction::ADD => vec!['A', 'D', 'D'],
            Instruction::SUB => vec!['S', 'U', 'B'],
            Instruction::MULT => vec!['M', 'U', 'L', 'T'],
            Instruction::DIV => vec!['D', 'I', 'V'],
            Instruction::JUMP => vec!['J', 'U', 'M', 'P'],
            Instruction::JGE => vec!['J', 'G', 'E'],
            Instruction::JGT => vec!['J', 'G', 'T'],
            Instruction::JLE => vec!['J', 'L', 'E'],
            Instruction::JLT => vec!['J', 'L', 'T'],
            Instruction::JEQ => vec!['J', 'E', 'Q'],
            Instruction::JNE => vec!['J', 'N', 'E'],
            Instruction::END => vec!['E', 'N', 'D'],
            Instruction::BP => vec!['B', 'P'],
            Instruction::NOOP => vec!['N', 'O', 'O', 'P'],
            Instruction::INT => vec!['I', 'N', 'T'],
        };
        assert(r@ =~= mnemonic(self));
        r
    }

    /// The instruction whose mnemonic is `w`, or `None`.
    pub fn from_mnemonic(w: &Vec<char>) -> (r: Option<Instruction>)
        ensures
            r == instruction_named(w@),
    {
        let mut k: usize = 0;
        while k < INSTRUCTION_COUNT
            invariant
                k <= INSTRUCTION_COUNT,
                instruction_named(w@) == named_from(w@, k as nat),
            decreases INSTRUCTION_COUNT - k,
        {
            let inst = Instruction::from_opcode(k).unwrap();
            let m = inst.mnemonic();
            if chars_equal(&m, w) {
                return Some(inst);
            }
            k = k + 1;
        }
        None
    }
}

} // verus!
