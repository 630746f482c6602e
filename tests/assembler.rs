use kasm::error::{Error, ParseError};
use kasm::instruction::Instruction;
use kasm::lexer::code_line::CodeLine;
use kasm::lexer::code_token::CodeToken;
use kasm::lexer::{assemble, Document};

#[test]
fn example_program_assembles_with_one_slot_per_code_line() {
    let src = "DLOAD 5\nSTORE 0\nDLOAD 0\nJEQ .done\nDLOAD 1\nSTORE 0\n.done:\nEND\n";
    let ram = assemble(src).unwrap();
    assert_eq!(ram.len(), 8);
    assert_eq!(ram[3], (12, 6));
    assert_eq!(ram[6], (16, 0));
    assert_eq!(ram[7], (14, 0));
}

#[test]
fn raw_numeric_program_round_trips() {
    let ram = assemble("1 42\n5 -3\n14\n").unwrap();
    assert_eq!(ram, vec![(1, 42), (5, -3), (14, 0)]);
}

#[test]
fn forward_label_skips_blank_and_comment_lines() {
    let src = "JEQ .x\n\n; only a comment\nNOOP\n   \n.x:\nEND\n";
    let ram = assemble(src).unwrap();
    assert_eq!(ram, vec![(12, 2), (16, 0), (16, 0), (14, 0)]);
}

#[test]
fn backward_label_resolves_too() {
    let ram = assemble(".top:\nJUMP .top\n").unwrap();
    assert_eq!(ram, vec![(16, 0), (7, 0)]);
}

#[test]
fn last_declaration_of_a_label_wins() {
    let ram = assemble(".a:\n.a:\nJUMP .a\n").unwrap();
    assert_eq!(ram[2], (7, 1));
}

#[test]
fn tokens_are_case_insensitive() {
    let ram = assemble("dload 5\nJne .Loop\n.LOOP:\nEnd\n").unwrap();
    assert_eq!(ram, vec![(1, 5), (13, 2), (16, 0), (14, 0)]);
}

#[test]
fn comments_and_crlf_are_ignored() {
    let ram = assemble("DLOAD 5 ; load five\r\nEND;stop\r\n").unwrap();
    assert_eq!(ram, vec![(1, 5), (14, 0)]);
}

#[test]
fn empty_source_gives_empty_image() {
    assert_eq!(assemble("").unwrap(), vec![]);
    assert_eq!(assemble("\n; nothing\n\n").unwrap(), vec![]);
}

#[test]
fn extreme_operands_parse() {
    let ram = assemble("DLOAD -9223372036854775808\nDLOAD +9223372036854775807\n").unwrap();
    assert_eq!(ram, vec![(1, i64::MIN), (1, i64::MAX)]);
}

#[test]
fn operand_out_of_range_is_unknown_token() {
    match assemble("DLOAD 9223372036854775808") {
        Err(Error::ParsingFailed { line: 1, err: ParseError::UnknownToken { token }, .. }) => {
            assert_eq!(token, "9223372036854775808");
        },
        other => panic!("unexpected {:?}", other),
    }
}

#[test]
fn unknown_token_reports_line_and_word() {
    match assemble("END\nFOO 1\n") {
        Err(Error::ParsingFailed { s, line, err: ParseError::UnknownToken { token } }) => {
            assert_eq!(s, "FOO 1");
            assert_eq!(line, 2);
            assert_eq!(token, "FOO");
        },
        other => panic!("unexpected {:?}", other),
    }
}

#[test]
fn three_tokens_are_too_many() {
    match assemble("LOAD 1 2") {
        Err(Error::ParsingFailed { line: 1, err: ParseError::TooManyTokens { line }, .. }) => {
            assert_eq!(line, "LOAD 1 2");
        },
        other => panic!("unexpected {:?}", other),
    }
}

#[test]
fn value_cannot_open_a_line() {
    assert!(matches!(
        assemble("-5"),
        Err(Error::InvalidTokenArrangement {
            line: 1,
            err: ParseError::TokenMayNotBeFirst { token: CodeToken::Val(-5) }
        })
    ));
}

#[test]
fn instruction_cannot_stand_second() {
    assert!(matches!(
        assemble("LOAD LOAD"),
        Err(Error::InvalidTokenArrangement {
            line: 1,
            err: ParseError::TokenMayNotBeSecond { token: CodeToken::Inst(Instruction::LOAD) }
        })
    ));
}

#[test]
fn missing_operand_is_reported() {
    assert!(matches!(
        assemble("END\nLOAD"),
        Err(Error::InvalidTokenArrangement {
            line: 2,
            err: ParseError::TokenDoesTakeAnArgument { token: CodeToken::Inst(Instruction::LOAD) }
        })
    ));
}

#[test]
fn unknown_opcode_is_taken_to_need_an_operand() {
    assert!(matches!(
        assemble("99"),
        Err(Error::InvalidTokenArrangement {
            line: 1,
            err: ParseError::TokenDoesTakeAnArgument { token: CodeToken::Code(99) }
        })
    ));
    assert_eq!(assemble("99 1").unwrap(), vec![(99, 1)]);
}

#[test]
fn surplus_operand_is_reported() {
    assert!(matches!(
        assemble("END 5"),
        Err(Error::InvalidTokenArrangement {
            line: 1,
            err: ParseError::TokenDoesNotTakeAnArgument { token: CodeToken::Inst(Instruction::END) }
        })
    ));
}

#[test]
fn undefined_label_is_reported() {
    match assemble("NOOP\nJUMP .nowhere\n") {
        Err(Error::UndefinedJumpPoint { name, line }) => {
            assert_eq!(name, "NOWHERE");
            assert_eq!(line, 2);
        },
        other => panic!("unexpected {:?}", other),
    }
}

#[test]
fn tokenizer_priority_order() {
    assert!(matches!(CodeToken::from_str("load"), Ok(CodeToken::Inst(Instruction::LOAD))));
    assert!(matches!(CodeToken::from_str("7"), Ok(CodeToken::Code(7))));
    assert!(matches!(CodeToken::from_str("-7"), Ok(CodeToken::Val(-7))));
    assert!(matches!(CodeToken::from_operand_str("7"), Ok(CodeToken::Val(7))));
    match CodeToken::from_str(".abc") {
        Ok(CodeToken::JumpPoint(jp)) => assert_eq!(jp.name(), "ABC"),
        other => panic!("unexpected {:?}", other),
    }
    match CodeToken::from_str(".abc:") {
        Ok(CodeToken::JumpPointDeclaration(jp)) => assert_eq!(jp.name(), "ABC"),
        other => panic!("unexpected {:?}", other),
    }
    assert!(matches!(CodeToken::from_str("."), Err(ParseError::UnknownToken { .. })));
    assert!(matches!(CodeToken::from_str(".:"), Err(ParseError::UnknownToken { .. })));
}

#[test]
fn token_queries() {
    let inst = CodeToken::Inst(Instruction::END);
    assert!(inst.can_be_first() && !inst.can_be_second() && !inst.takes_second());
    let val = CodeToken::Val(3);
    assert!(!val.can_be_first() && val.can_be_second() && !val.takes_second());
    assert!(CodeToken::Code(0).takes_second());
    assert!(!CodeToken::Code(15).takes_second());
    assert_eq!(CodeToken::Inst(Instruction::INT).as_urs(), 17);
    assert_eq!(CodeToken::Code(4).as_irs(), 4);
    assert_eq!(CodeToken::Val(-2).as_irs(), -2);
    let decl = CodeToken::from_str(".x:").unwrap();
    assert_eq!(decl.as_jump_point_declaration().unwrap().name(), "X");
    assert!(val.as_jump_point_declaration().is_none());
}

#[test]
fn code_line_parsing_and_check() {
    assert!(CodeLine::from_str("  ; nothing here").unwrap().is_none());
    let cl = CodeLine::from_str("ADD 3").unwrap().unwrap();
    assert!(cl.check().is_ok());
    assert_eq!(cl.as_urs_irs(), (3, 3));
    let single = CodeLine::from_str("NOOP").unwrap().unwrap();
    assert_eq!(single.as_urs_irs(), (16, 0));
}

#[test]
fn document_gives_program_image() {
    let doc = Document::from_str("DLOAD 2\nEND").unwrap();
    assert_eq!(doc.as_ram(), vec![(1, 2), (14, 0)]);
}

#[test]
fn instruction_metadata() {
    assert!(!Instruction::END.takes_argument());
    assert!(!Instruction::BP.takes_value());
    assert!(Instruction::INT.takes_value());
    assert_eq!(Instruction::from_opcode(6), Some(Instruction::DIV));
    assert_eq!(Instruction::from_opcode(18), None);
    assert_eq!(Instruction::JNE.opcode(), 13);
    assert_eq!(Instruction::from_mnemonic(&"MULT".chars().collect()), Some(Instruction::MULT));
    assert_eq!(Instruction::from_mnemonic(&"MUL".chars().collect()), None);
}
