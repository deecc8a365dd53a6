use regsim::cpu::{CPU, ExecError, NUM_REGS};
use regsim::decode::decode_program;
use regsim::instr::INSTR;

#[test]
fn new_machine_is_zeroed() {
    let cpu = CPU::new();
    assert_eq!(cpu.num_regs(), NUM_REGS);
    for i in 0..NUM_REGS {
        assert_eq!(cpu.reg(i), 0);
    }
}

#[test]
fn apply_mov_and_movi() {
    let mut cpu = CPU::new();
    assert!(cpu.apply(&INSTR::MOVI(1, 42)));
    assert_eq!(cpu.reg(1), 42);
    assert!(cpu.apply(&INSTR::MOV(2, 1)));
    assert_eq!(cpu.reg(2), 42);
    assert_eq!(cpu.reg(1), 42);
}

#[test]
fn apply_immediate_arithmetic() {
    let mut cpu = CPU::new();
    assert!(cpu.apply(&INSTR::MOVI(0, 10)));
    assert!(cpu.apply(&INSTR::ADDI(0, 5)));
    assert_eq!(cpu.reg(0), 15);
    assert!(cpu.apply(&INSTR::SUBI(0, 6)));
    assert_eq!(cpu.reg(0), 9);
    assert!(cpu.apply(&INSTR::ADD(1, 20, 22)));
    assert_eq!(cpu.reg(1), 42);
    assert!(cpu.apply(&INSTR::SUB(2, 50, 8)));
    assert_eq!(cpu.reg(2), 42);
}

#[test]
fn apply_register_arithmetic() {
    let mut cpu = CPU::new();
    assert!(cpu.apply(&INSTR::MOVI(1, 30)));
    assert!(cpu.apply(&INSTR::MOVI(2, 12)));
    assert!(cpu.apply(&INSTR::ADDR(0, 1, 2)));
    assert_eq!(cpu.reg(0), 42);
    assert!(cpu.apply(&INSTR::SUBR(3, 1, 2)));
    assert_eq!(cpu.reg(3), 18);
}

#[test]
fn arithmetic_wraps_around() {
    let mut cpu = CPU::new();
    assert!(cpu.apply(&INSTR::MOVI(0, u32::MAX)));
    assert!(cpu.apply(&INSTR::ADDI(0, 1)));
    assert_eq!(cpu.reg(0), 0);
    assert!(cpu.apply(&INSTR::SUBI(1, 1)));
    assert_eq!(cpu.reg(1), u32::MAX);
    assert!(cpu.apply(&INSTR::SUB(2, 0, 42)));
    assert_eq!(cpu.reg(2), u32::MAX - 41);
}

#[test]
fn apply_out_of_range_register_changes_nothing() {
    let mut cpu = CPU::new();
    assert!(!cpu.apply(&INSTR::MOVI(NUM_REGS as u32, 1)));
    assert!(!cpu.apply(&INSTR::MOV(0, NUM_REGS as u32)));
    assert!(!cpu.apply(&INSTR::ADDR(0, 1, NUM_REGS as u32)));
    for i in 0..NUM_REGS {
        assert_eq!(cpu.reg(i), 0);
    }
}

#[test]
fn fdew_halts_at_first_fatal_instruction() {
    let mut cpu = CPU::new();
    let program = vec![
        INSTR::MOVI(0, 7),
        INSTR::MOV(45, 0),
        INSTR::MOVI(1, 9),
    ];
    let r = cpu.fdew(&program);
    assert_eq!(
        r,
        Err(ExecError { pos: 1, instr: INSTR::MOV(45, 0) })
    );
    // The registers keep the state reached before the fatal instruction.
    assert_eq!(cpu.reg(0), 7);
    assert_eq!(cpu.reg(1), 0);
}

#[test]
fn fdew_runs_the_example_program() {
    let lines: Vec<String> = vec![
        String::from("movi r0 #42"),
        String::from("mov r0 r0"),
        String::from("addr r0 r0 r0"),
        String::from("addi r0 #42"),
        String::from("add r0 #42 #42"),
        String::from("subr r0 r0 r0"),
        String::from("subi r0 #42"),
        String::from("sub r0 #42 #42"),
    ];
    let mut program: Vec<INSTR> = Vec::new();
    for r in decode_program(&lines) {
        program.push(r.expect("every line of the example decodes"));
    }
    let mut cpu = CPU::new();
    assert_eq!(cpu.fdew(&program), Ok(()));
    // movi 42; mov keeps 42; addr doubles to 84; addi gives 126;
    // add overwrites with 84; subr zeroes; subi wraps; sub zeroes again.
    assert_eq!(cpu.reg(0), 0);
}
