//! The line parser: one line of source text to at most two tokens.
use vstd::prelude::*;

use super::code_token::{
    can_be_first_spec, can_be_second_spec, classify_operand_spec, classify_spec, irs_of,
    is_resolved, takes_second_spec, urs_of, CodeToken, CodeTokenView,
};
use crate::error::{ParseError, ParseErrorView};
use crate::text::{chars_of, code_words, string_of, strip_comment, upper_of, words_of};
use crate::{IRS, URS};

verus! {

/// A line of code: a token alone, or a token and its operand.
#[derive(Debug)]
pub enum CodeLine {
    SingleToken(CodeToken),
    DoubleToken(CodeToken, CodeToken),
}

/// A `CodeLine` seen through the views of its tokens.
pub enum CodeLineView {
    SingleToken(CodeTokenView),
    DoubleToken(CodeTokenView, CodeTokenView),
}

impl View for CodeLine {
    type V = CodeLineView;

    open spec fn view(&self) -> CodeLineView {
        match self {
            CodeLine::SingleToken(t) => CodeLineView::SingleToken(t@),
            CodeLine::DoubleToken(t0, t1) => CodeLineView::DoubleToken(t0@, t1@),
        }
    }
}

/// The outcome of reading a line, seen through views.
pub open spec fn line_result_view(r: Result<Option<CodeLine>, ParseError>) -> Result<
    Option<CodeLineView>,
    ParseErrorView,
> {
    match r {
        Ok(Some(cl)) => Ok(Some(cl@)),
        Ok(None) => Ok(None),
        Err(e) => Err(e@),
    }
}

/// What a line of source text reads as: nothing for a line without tokens
/// before its comment, else its first word as a token that opens a line and
/// its second as an operand; an error for a word that is no token (the first
/// word before the second), then for a third word.
pub open spec fn parse_line_spec(line: Seq<char>) -> Result<Option<CodeLineView>, ParseErrorView> {
    let ws = words_of(strip_comment(line));
    if ws.len() == 0 {
        Ok(None)
    } else {
        match classify_spec(upper_of(ws[0])) {
            Err(e) => Err(e),
            Ok(t0) => if ws.len() == 1 {
                Ok(Some(CodeLineView::SingleToken(t0)))
            } else {
                match classify_operand_spec(upper_of(ws[1])) {
                    Err(e) => Err(e),
                    Ok(t1) => if ws.len() > 2 {
                        Err(ParseErrorView::TooManyTokens { line })
                    } else {
                        Ok(Some(CodeLineView::DoubleToken(t0, t1)))
                    },
                }
            },
        }
    }
}

/// Whether the tokens of a line fit together: the first may open a line,
/// the second may stand second, and an operand is there exactly when the
/// first token needs one.
pub open spec fn check_spec(cl: CodeLineView) -> Result<(), ParseErrorView> {
    match cl {
        CodeLineView::SingleToken(t) => if !can_be_first_spec(t) {
            Err(ParseErrorView::TokenMayNotBeFirst { token: t })
        } else if takes_second_spec(t) {
            Err(ParseErrorView::TokenDoesTakeAnArgument { token: t })
        } else {
            Ok(())
        },
        CodeLineView::DoubleToken(t0, t1) => if !can_be_first_spec(t0) {
            Err(ParseErrorView::TokenMayNotBeFirst { token: t0 })
        } else if !can_be_second_spec(t1) {
            Err(ParseErrorView::TokenMayNotBeSecond { token: t1 })
        } else if !takes_second_spec(t0) {
            Err(ParseErrorView::TokenDoesNotTakeAnArgument { token: t0 })
        } else {
            Ok(())
        },
    }
}

/// Whether no token of the line is a label reference or declaration.
pub open spec fn line_resolved(cl: CodeLineView) -> bool {
    match cl {
        CodeLineView::SingleToken(t) => is_resolved(t),
        CodeLineView::DoubleToken(t0, t1) => is_resolved(t0) && is_resolved(t1),
    }
}

/// The `(opcode, operand)` pair of a resolved line; a line without operand
/// has operand zero.
pub open spec fn urs_irs_of(cl: CodeLineView) -> (URS, IRS) {
    match cl {
        CodeLineView::SingleToken(t) => (urs_of(t), 0),
        CodeLineView::DoubleToken(t0, t1) => (urs_of(t0), irs_of(t1)),
    }
}

impl CodeLine {
    /// Reads a line of source text, as `parse_line_spec` describes.
    pub fn from_str(s: &str) -> (r: Result<Option<CodeLine>, ParseError>)
        ensures
            line_result_view(r) == parse_line_spec(s@),
    {
        let line = chars_of(s);
        CodeLine::from_chars(&line)
    }

    /// Reads a line given as characters, as `parse_line_spec` describes.
    pub fn from_chars(line: &Vec<char>) -> (r: Result<Option<CodeLine>, ParseError>)
        ensures
            line_result_view(r) == parse_line_spec(line@),
    {
        let ws = code_words(line);
        if ws.len() == 0 {
            return Ok(None);
        }
        let w0 = string_of(&ws[0]);
        let ct0 = match CodeToken::from_str(w0.as_str()) {
            Ok(t) => t,
            Err(e) => return Err(e),
        };
        if ws.len() == 1 {
            return Ok(Some(CodeLine::SingleToken(ct0)));
        }
        let w1 = string_of(&ws[1]);
        let ct1 = match CodeToken::from_operand_str(w1.as_str()) {
            Ok(t) => t,
            Err(e) => return Err(e),
        };
        if ws.len() > 2 {
            return Err(ParseError::TooManyTokens { line: string_of(line) });
        }
        Ok(Some(CodeLine::DoubleToken(ct0, ct1)))
    }

    /// The `(opcode, operand)` pair of a resolved line.
    pub fn as_urs_irs(&self) -> (r: (URS, IRS))
        requires
            line_resolved(self@),
        ensures
            r == urs_irs_of(self@),
    {
        match self {
            CodeLine::SingleToken(ct) => (ct.as_urs(), 0),
            CodeLine::DoubleToken(ct0, ct1) => (ct0.as_urs(), ct1.as_irs()),
        }
    }

    /// Checks that the tokens of the line fit together, as `check_spec` describes.
    pub fn check(&self) -> (r: Result<(), ParseError>)
        ensures
            match (r, check_spec(self@)) {
                (Ok(()), Ok(())) => true,
                (Err(e), Err(f)) => e@ == f,
                _ => false,
            },
    {
        match self {
            CodeLine::SingleToken(ct) => CodeLine::check_single(ct),
            CodeLine::DoubleToken(ct0, ct1) => CodeLine::check_double(ct0, ct1),
        }
    }

    fn check_single(ct: &CodeToken) -> (r: Result<(), ParseError>)
        ensures
            match (r, check_spec(CodeLineView::SingleToken(ct@))) {
                (Ok(()), Ok(())) => true,
                (Err(e), Err(f)) => e@ == f,
                _ => false,
            },
    {
        if !ct.can_be_first() {
            Err(ParseError::TokenMayNotBeFirst { token: ct.duplicate() })
        } else if ct.takes_second() {
            Err(ParseError::TokenDoesTakeAnArgument { token: ct.duplicate() })
        } else {
            Ok(())
        }
    }

    fn check_double(ct0: &CodeToken, ct1: &CodeToken) -> (r: Result<(), ParseError>)
        ensures
            match (r, check_spec(CodeLineView::DoubleToken(ct0@, ct1@))) {
                (Ok(()), Ok(())) => true,
                (Err(e), Err(f)) => e@ == f,
                _ => false,
            },
    {
        if !ct0.can_be_first() {
            Err(ParseError::TokenMayNotBeFirst { token: ct0.duplicate() })
        } else if !ct1.can_be_second() {
            Err(ParseError::TokenMayNotBeSecond { token: ct1.duplicate() })
        } else if !ct0.takes_second() {
            Err(ParseError::TokenDoesNotTakeAnArgument { token: ct0.duplicate() })
        } else {
            Ok(())
        }
    }
}

} // verus!
