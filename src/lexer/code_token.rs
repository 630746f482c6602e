//! The tokenizer: one word of source text to one token.
use vstd::prelude::*;

use crate::error::{ParseError, ParseErrorView};
use crate::instruction::{decode_spec, instruction_named, opcode_of, takes_operand, Instruction};
use crate::text::{
    parse_i64, parse_i64_spec, parse_usize, parse_usize_spec, string_of, upper_chars,
    upper_of,
};
use crate::{result_view, IRS, URS};

verus! {

/// The name of a label, without its leading `.`.
#[derive(Clone, Debug)]
pub struct JumpPoint(pub String);

impl View for JumpPoint {
    type V = Seq<char>;

    open spec fn view(&self) -> Seq<char> {
        self.0@
    }
}

/// The label that a word refers to: a `.` and at least one more character,
/// not ending in `:`.
pub open spec fn jump_point_spec(w: Seq<char>) -> Option<Seq<char>> {
    if w.len() > 1 && w[0] == '.' && w.last() != ':' {
        Some(w.drop_first())
    } else {
        None
    }
}

impl JumpPoint {
    /// The label that a word refers to, as `jump_point_spec` describes.
    pub fn from_chars(w: &Vec<char>) -> (r: Option<JumpPoint>)
        ensures
            match (r, jump_point_spec(w@)) {
                (Some(jp), Some(name)) => jp@ == name,
                (None, None) => true,
                _ => false,
            },
    {
        let n = w.len();
        if n > 1 && w[0] == '.' && w[n - 1] != ':' {
            let mut name: Vec<char> = Vec::new();
            for i in 1..n
                invariant
                    n == w.len(),
                    name@ == w@.subrange(1, i as int),
            {
                name.push(w[i]);
                assert(name@ =~= w@.subrange(1, i as int + 1));
            }
            assert(w@.subrange(1, n as int) =~= w@.drop_first());
            Some(JumpPoint(string_of(&name)))
        } else {
            None
        }
    }

    /// The name of the label.
    pub fn name(&self) -> (r: &str)
        ensures
            r@ == self@,
    {
        self.0.as_str()
    }
}

/// One token of source text.
#[derive(Clone, Debug)]
pub enum CodeToken {
    /// An instruction by its mnemonic.
    Inst(Instruction),
    /// A signed number: an operand.
    Val(IRS),
    /// An unsigned number opening a line: an opcode.
    Code(URS),
    /// A reference to a label.
    JumpPoint(JumpPoint),
    /// The declaration of a label.
    JumpPointDeclaration(JumpPoint),
}

/// A `CodeToken` with label names as character sequences.
pub enum CodeTokenView {
    Inst(Instruction),
    Val(IRS),
    Code(URS),
    JumpPoint(Seq<char>),
    JumpPointDeclaration(Seq<char>),
}

impl View for CodeToken {
    type V = CodeTokenView;

    open spec fn view(&self) -> CodeTokenView {
        match self {
            CodeToken::Inst(i) => CodeTokenView::Inst(*i),
            CodeToken::Val(v) => CodeTokenView::Val(*v),
            CodeToken::Code(c) => CodeTokenView::Code(*c),
            CodeToken::JumpPoint(jp) => CodeTokenView::JumpPoint(jp@),
            CodeToken::JumpPointDeclaration(jp) => CodeTokenView::JumpPointDeclaration(jp@),
        }
    }
}

/// The token that a case-folded word opening a line stands for. The word is
/// tried, in turn, as a mnemonic, an opcode, a signed number, a label
/// reference and a label declaration.
pub open spec fn classify_spec(w: Seq<char>) -> Result<CodeTokenView, ParseErrorView> {
    if instruction_named(w) is Some {
        Ok(CodeTokenView::Inst(instruction_named(w).unwrap()))
    } else if parse_usize_spec(w) is Some {
        Ok(CodeTokenView::Code(parse_usize_spec(w).unwrap()))
    } else {
        classify_operand_spec(w)
    }
}

/// The token that a case-folded word in second place stands for: as
/// `classify_spec`, but a number there is always a signed operand.
pub open spec fn classify_operand_spec(w: Seq<char>) -> Result<CodeTokenView, ParseErrorView> {
    if instruction_named(w) is Some {
        Ok(CodeTokenView::Inst(instruction_named(w).unwrap()))
    } else if parse_i64_spec(w) is Some {
        Ok(CodeTokenView::Val(parse_i64_spec(w).unwrap()))
    } else if jump_point_spec(w) is Some {
        Ok(CodeTokenView::JumpPoint(jump_point_spec(w).unwrap()))
    } else if w.len() > 0 && w.last() == ':' && jump_point_spec(w.drop_last()) is Some {
        Ok(CodeTokenView::JumpPointDeclaration(jump_point_spec(w.drop_last()).unwrap()))
    } else {
        Err(ParseErrorView::UnknownToken { token: w })
    }
}

/// Whether a token may open a line.
pub open spec fn can_be_first_spec(t: CodeTokenView) -> bool {
    t is Inst || t is Code || t is JumpPointDeclaration
}

/// Whether a token may stand second in a line.
pub open spec fn can_be_second_spec(t: CodeTokenView) -> bool {
    t is Code || t is Val || t is JumpPoint
}

/// Whether a token opening a line needs an operand after it. An opcode of no
/// instruction is taken to need one.
pub open spec fn takes_second_spec(t: CodeTokenView) -> bool {
    match t {
        CodeTokenView::Inst(i) => takes_operand(i),
        CodeTokenView::Code(c) => match decode_spec(c as int) {
            Some(i) => takes_operand(i),
            None => true,
        },
        _ => false,
    }
}

/// Whether a token stands for a number: it is no label reference or declaration.
pub open spec fn is_resolved(t: CodeTokenView) -> bool {
    !(t is JumpPoint || t is JumpPointDeclaration)
}

/// The opcode that a resolved token stands for.
pub open spec fn urs_of(t: CodeTokenView) -> URS {
    match t {
        CodeTokenView::Inst(i) => opcode_of(i) as URS,
        CodeTokenView::Val(v) => v as URS,
        CodeTokenView::Code(c) => c,
        _ => 0,
    }
}

/// The operand that a resolved token stands for.
pub open spec fn irs_of(t: CodeTokenView) -> IRS {
    match t {
        CodeTokenView::Inst(i) => opcode_of(i) as IRS,
        CodeTokenView::Val(v) => v,
        CodeTokenView::Code(c) => c as IRS,
        _ => 0,
    }
}

} // verus!

verus! {

impl CodeToken {
    /// The token that a word opening a line stands for, after case folding.
    pub fn from_str(s: &str) -> (r: Result<CodeToken, ParseError>)
        ensures
            result_view(r) == classify_spec(upper_of(s@)),
    {
        let w = upper_chars(s);
        CodeToken::classify(&w)
    }

    /// The token that a word in second place stands for, after case folding.
    pub fn from_operand_str(s: &str) -> (r: Result<CodeToken, ParseError>)
        ensures
            result_view(r) == classify_operand_spec(upper_of(s@)),
    {
        let w = upper_chars(s);
        CodeToken::classify_operand(&w)
    }

    /// The token that a case-folded word opening a line stands for.
    pub fn classify(w: &Vec<char>) -> (r: Result<CodeToken, ParseError>)
        ensures
            result_view(r) == classify_spec(w@),
    {
        if let Some(inst) = Instruction::from_mnemonic(w) {
            return Ok(CodeToken::Inst(inst));
        }
        if let Some(code) = parse_usize(w) {
            return Ok(CodeToken::Code(code));
        }
        CodeToken::classify_operand(w)
    }

    /// The token that a case-folded word in second place stands for.
    pub fn classify_operand(w: &Vec<char>) -> (r: Result<CodeToken, ParseError>)
        ensures
            result_view(r) == classify_operand_spec(w@),
    {
        if let Some(inst) = Instruction::from_mnemonic(w) {
            return Ok(CodeToken::Inst(inst));
        }
        if let Some(val) = parse_i64(w) {
            return Ok(CodeToken::Val(val));
        }
        if let Some(jp) = JumpPoint::from_chars(w) {
            return Ok(CodeToken::JumpPoint(jp));
        }
        let n = w.len();
        if n > 0 && w[n - 1] == ':' {
            let mut head: Vec<char> = Vec::new();
            for i in 0..n - 1
                invariant
                    n == w.len(),
                    n > 0,
                    head@ == w@.take(i as int),
            {
                head.push(w[i]);
                assert(head@ =~= w@.take(i as int + 1));
            }
            assert(head@ =~= w@.drop_last());
            if let Some(jp) = JumpPoint::from_chars(&head) {
                return Ok(CodeToken::JumpPointDeclaration(jp));
            }
        }
        Err(ParseError::UnknownToken { token: string_of(w) })
    }

    /// The opcode that a resolved token stands for.
    pub fn as_urs(&self) -> (r: URS)
        requires
            is_resolved(self@),
        ensures
            r == urs_of(self@),
    {
        match self {
            CodeToken::Inst(inst) => inst.opcode(),
            CodeToken::Val(val) => *val as URS,
            CodeToken::Code(code) => *code,
            _ => 0,
        }
    }

    /// The operand that a resolved token stands for.
    pub fn as_irs(&self) -> (r: IRS)
        requires
            is_resolved(self@),
        ensures
            r == irs_of(self@),
    {
        match self {
            CodeToken::Inst(inst) => inst.opcode() as IRS,
            CodeToken::Val(val) => *val,
            CodeToken::Code(code) => *code as IRS,
            _ => 0,
        }
    }

    /// Whether the token may open a line.
    pub fn can_be_first(&self) -> (r: bool)
        ensures
            r == can_be_first_spec(self@),
    {
        match self {
            CodeToken::Inst(_) | CodeToken::Code(_) | CodeToken::JumpPointDeclaration(_) => true,
            CodeToken::Val(_) | CodeToken::JumpPoint(_) => false,
        }
    }

    /// Whether the token may stand second in a line.
    pub fn can_be_second(&self) -> (r: bool)
        ensures
            r == can_be_second_spec(self@),
    {
        match self {
            CodeToken::Inst(_) | CodeToken::JumpPointDeclaration(_) => false,
            CodeToken::Code(_) | CodeToken::Val(_) | CodeToken::JumpPoint(_) => true,
        }
    }

    /// Whether the token, opening a line, needs an operand after it.
    pub fn takes_second(&self) -> (r: bool)
        ensures
            r == takes_second_spec(self@),
    {
        match self {
            CodeToken::Inst(inst) => inst.takes_value(),
            CodeToken::Code(code) => match Instruction::from_opcode(*code) {
                Some(inst) => inst.takes_value(),
                None => true,
            },
            _ => false,
        }
    }

    /// The label that the token declares, if it is a declaration.
    pub fn as_jump_point_declaration(&self) -> (r: Option<&JumpPoint>)
        ensures
            match (r, self@) {
                (Some(jp), CodeTokenView::JumpPointDeclaration(name)) => jp@ == name,
                (None, t) => !(t is JumpPointDeclaration),
                _ => false,
            },
    {
        match self {
            CodeToken::JumpPointDeclaration(jp) => Some(jp),
            _ => None,
        }
    }

    /// A copy of the token.
    pub fn duplicate(&self) -> (r: CodeToken)
        ensures
            r@ == self@,
    {
        match self {
            CodeToken::Inst(inst) => CodeToken::Inst(*inst),
            CodeToken::Val(val) => CodeToken::Val(*val),
            CodeToken::Code(code) => CodeToken::Code(*code),
            CodeToken::JumpPoint(jp) => CodeToken::JumpPoint(JumpPoint(jp.0.clone())),
            CodeToken::JumpPointDeclaration(jp) => CodeToken::JumpPointDeclaration(
                JumpPoint(jp.0.clone()),
            ),
        }
    }
}

} // verus!
