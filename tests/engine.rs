use kasm::command::Command;
use kasm::cpu::{ExecResult, CPU};
use kasm::error::Error;
use kasm::instruction::Instruction;
use kasm::interrupt::Interrupt;
use kasm::lexer::assemble;
use kasm::DATA_REGISTERS;

fn load(src: &str) -> CPU {
    CPU::new(assemble(src).unwrap())
}

#[test]
fn example_program_runs_to_end() {
    let mut cpu = load("DLOAD 5\nSTORE 0\nDLOAD 0\nJEQ .done\nDLOAD 1\nSTORE 0\n.done:\nEND\n");
    assert!(matches!(cpu.step_to_end(1000), Ok(ExecResult::Ended)));
    assert_eq!(cpu.Rx()[0], 5);
    assert_eq!(cpu.A(), 0);
}

#[test]
fn end_alone_takes_one_step() {
    let mut cpu = load("END");
    assert!(matches!(cpu.step_to_end(1), Ok(ExecResult::Ended)));
    assert_eq!(cpu.BZ(), 1);
    let mut cpu = load("END");
    assert!(matches!(cpu.step(), Ok(ExecResult::Ended)));
}

#[test]
fn small_budget_is_resumable() {
    let mut cpu = load("DLOAD 1\nNOOP\nNOOP\nNOOP\nNOOP\nEND\n");
    assert!(matches!(cpu.step_to_end(2), Ok(ExecResult::NotFinished)));
    assert_eq!(cpu.BZ(), 2);
    assert!(matches!(cpu.step_to_end(2), Ok(ExecResult::NotFinished)));
    assert_eq!(cpu.BZ(), 4);
    assert!(matches!(cpu.step_to_end(2), Ok(ExecResult::Ended)));
    assert_eq!(cpu.BZ(), 6);
}

#[test]
fn zero_budget_does_nothing() {
    let mut cpu = load("END");
    assert!(matches!(cpu.step_to_end(0), Ok(ExecResult::NotFinished)));
    assert_eq!(cpu.BZ(), 0);
}

#[test]
fn forward_program_finishes_within_its_length() {
    let src = "DLOAD 3\nSTORE 1\nJGT .skip\nDLOAD 9\n.skip:\nADD 1\nEND\n";
    let ram = assemble(src).unwrap();
    let n = ram.len() + 1;
    let mut cpu = CPU::new(ram);
    assert!(matches!(cpu.step_to_end(n), Ok(ExecResult::Ended)));
    assert_eq!(cpu.A(), 6);
}

#[test]
fn divide_by_zero_keeps_state() {
    let mut cpu = load("DLOAD 7\nDIV 3\nEND\n");
    cpu.step().unwrap();
    match cpu.step() {
        Err(Error::DivideByZero { lhs, BZ }) => {
            assert_eq!(lhs, 7);
            assert_eq!(BZ, 1);
        },
        other => panic!("unexpected {:?}", other),
    }
    assert_eq!(cpu.A(), 7);
    assert_eq!(cpu.BZ(), 1);
    assert!(matches!(cpu.step_to_end(10), Err(Error::DivideByZero { lhs: 7, BZ: 1 })));
    assert_eq!(cpu.BZ(), 1);
}

#[test]
fn register_index_bounds() {
    let mut cpu = load("LOAD 16\nEND");
    assert!(matches!(cpu.step(), Err(Error::InvalidRxIndex { i: 16, len: 16, BZ: 0 })));
    let mut cpu = load("STORE -1\nEND");
    assert!(matches!(cpu.step(), Err(Error::InvalidRxIndex { i: -1, len: 16, BZ: 0 })));
    let mut cpu = load("ADD 16\nEND");
    assert!(matches!(cpu.step(), Err(Error::InvalidRxIndex { i: 16, .. })));
    let mut cpu = load("DLOAD 4\nSTORE 15\nLOAD 15\nMULT 15\nEND");
    assert!(matches!(cpu.step_to_end(10), Ok(ExecResult::Ended)));
    assert_eq!(cpu.Rx()[DATA_REGISTERS - 1], 4);
    assert_eq!(cpu.A(), 16);
}

#[test]
fn arithmetic_results() {
    let mut cpu = load("DLOAD 2\nSTORE 0\nDLOAD -7\nDIV 0\nSTORE 1\nDLOAD 10\nSUB 0\nADD 1\nEND");
    assert!(matches!(cpu.step_to_end(20), Ok(ExecResult::Ended)));
    assert_eq!(cpu.Rx()[1], -3);
    assert_eq!(cpu.A(), 5);
}

#[test]
fn arithmetic_wraps() {
    let mut cpu = load("DLOAD 1\nSTORE 0\nDLOAD 9223372036854775807\nADD 0\nEND");
    assert!(matches!(cpu.step_to_end(10), Ok(ExecResult::Ended)));
    assert_eq!(cpu.A(), i64::MIN);
    let mut cpu = load("DLOAD -1\nSTORE 0\nDLOAD -9223372036854775808\nDIV 0\nEND");
    assert!(matches!(cpu.step_to_end(10), Ok(ExecResult::Ended)));
    assert_eq!(cpu.A(), i64::MIN);
}

#[test]
fn conditional_jumps() {
    let mut cpu = load("DLOAD -1\nJGE .no\nJLT .yes\n.no:\nEND\n.yes:\nDLOAD 42\nEND\n");
    assert!(matches!(cpu.step_to_end(10), Ok(ExecResult::Ended)));
    assert_eq!(cpu.A(), 42);
}

#[test]
fn breakpoint_pauses_a_run() {
    let mut cpu = load("DLOAD 1\nBP\nDLOAD 2\nEND\n");
    assert!(matches!(cpu.step_to_breakpoint(10), Ok(ExecResult::HitBreakPoint)));
    assert_eq!(cpu.BZ(), 2);
    assert_eq!(cpu.A(), 1);
    assert!(matches!(cpu.step_to_breakpoint(10), Ok(ExecResult::Ended)));
    assert_eq!(cpu.A(), 2);
    let mut cpu = load("BP\nEND\n");
    assert!(matches!(cpu.step_to_end(10), Ok(ExecResult::Ended)));
}

#[test]
fn running_off_the_end_fails() {
    let mut cpu = load("NOOP");
    assert!(matches!(cpu.step_to_end(5), Err(Error::NoMoreInstructions { BZ: 1 })));
    let mut cpu = CPU::new(vec![]);
    assert!(matches!(cpu.step(), Err(Error::NoMoreInstructions { BZ: 0 })));
}

#[test]
fn negative_jump_target_runs_off_the_end() {
    let mut cpu = load("JUMP -1\nEND");
    cpu.step().unwrap();
    assert_eq!(cpu.BZ(), usize::MAX);
    assert!(matches!(cpu.step(), Err(Error::NoMoreInstructions { .. })));
}

#[test]
fn invalid_instruction_and_interrupt() {
    let mut cpu = CPU::new(vec![(99, 0)]);
    assert!(matches!(cpu.step(), Err(Error::InvalidInstruction { inst: 99, BZ: 0 })));
    let mut cpu = load("INT 9\nEND");
    assert!(matches!(cpu.step(), Err(Error::InvalidInterrupt { int: 9, BZ: 0 })));
    assert_eq!(cpu.BZ(), 0);
}

#[test]
fn dump_interrupts_print_state() {
    let mut cpu = load("DLOAD -12\nSTORE 1\nINT 2\nINT 3\nINT 4\nEND\n");
    assert!(matches!(cpu.step_to_end(10), Ok(ExecResult::Ended)));
    let out = cpu.stdout();
    assert_eq!(out.len(), 3);
    assert_eq!(out[0], "-12");
    assert_eq!(out[1], "3");
    assert_eq!(out[2], "[0, -12, 0, 0, 0, 0, 0, 0, 0, 0, 0, 0, 0, 0, 0, 0]");
}

#[test]
fn dump_ram_interrupt() {
    let mut cpu = load("INT 5\nEND");
    match cpu.step() {
        Ok(ExecResult::Print(t)) => assert_eq!(t, "[(17, 5), (14, 0)]"),
        other => panic!("unexpected {:?}", other),
    }
}

#[test]
fn print_interrupts_show_register_memory() {
    let mut cpu = load("DLOAD 72\nSTORE 0\nDLOAD 105\nSTORE 1\nINT 1\nINT 0\nEND\n");
    assert!(matches!(cpu.step_to_end(10), Ok(ExecResult::Ended)));
    let out = cpu.stdout();
    assert_eq!(out.len(), 2);
    if 1u16.to_ne_bytes()[0] == 1 {
        assert_eq!(out[0], "[72, 0, 0, 0, 0, 0, 0, 0, 105, 0, 0, 0, 0, 0, 0, 0]");
        assert_eq!(out[1], "H\0\0\0\0\0\0\0i\0\0\0\0\0\0\0");
    }
}

#[test]
fn print_with_blank_registers_shows_ten() {
    let mut cpu = load("INT 1\nEND");
    match cpu.step() {
        Ok(ExecResult::Print(t)) => assert_eq!(t.matches('0').count(), 80),
        other => panic!("unexpected {:?}", other),
    }
}

#[test]
fn exec_runs_one_instruction() {
    let mut cpu = CPU::new(vec![]);
    assert!(matches!(cpu.exec(Instruction::DLOAD, 9), Ok(ExecResult::Continue)));
    assert_eq!(cpu.A(), 9);
    assert_eq!(cpu.BZ(), 1);
    assert!(matches!(cpu.exec(Instruction::INT, 2), Ok(ExecResult::Print(_))));
}

#[test]
fn reset_and_host_access() {
    let mut cpu = load("DLOAD 3\nSTORE 2\nEND");
    cpu.step_to_end(10).unwrap();
    cpu.reset_registers();
    assert_eq!(cpu.A(), 0);
    assert_eq!(cpu.BZ(), 0);
    assert_eq!(cpu.Rx()[2], 0);
    assert_eq!(cpu.ram().len(), 3);
    *cpu.BZ_mut() = 2;
    assert_eq!(cpu.BZ(), 2);
    cpu.ram_mut().push((16, 0));
    assert_eq!(cpu.ram().len(), 4);
    cpu.println("hello");
    assert_eq!(cpu.stdout()[0], "hello");
}

#[test]
fn interrupts_and_commands() {
    assert_eq!(Interrupt::from_code(3), Some(Interrupt::DumpBZ));
    assert_eq!(Interrupt::from_code(6), None);
    assert!(!Command::NOOP.takes_value());
    assert!(Command::INT.takes_value());
}
