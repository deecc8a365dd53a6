use regsim::decode::{decode_line, decode_program, parse_operand, split_line, to_instr, DecodeError};
use regsim::instr::INSTR;

#[test]
fn parse_mov() {
    let mut instr = vec!["mov", "r0", "#1"];
    let r = to_instr(&mut instr);
    match r {
        Ok(INSTR::MOV(0, 1)) => (),
        _ => panic!("Failed to parse MOV instruction = {:?}", instr),
    }
}

#[test]
fn parse_movi() {
    let mut instr = vec!["movi", "r0", "#1"];
    let r = to_instr(&mut instr);
    match r {
        Ok(INSTR::MOVI(0, 1)) => (),
        _ => panic!("Failed to parse MOVI instruction = {:?}", instr),
    }
}

#[test]
fn parse_addi() {
    let mut instr = vec!["addi", "r0", "#1"];
    let r = to_instr(&mut instr);
    match r {
        Ok(INSTR::ADDI(0, 1)) => (),
        _ => panic!("Failed to parse ADDi instruction = {:?}", instr),
    }
}

#[test]
fn parse_subi() {
    let mut instr = vec!["subi", "r0", "#1"];
    let r = to_instr(&mut instr);
    match r {
        Ok(INSTR::SUBI(0, 1)) => (),
        _ => panic!("Failed to parse SUBI instruction = {:?}", instr),
    }
}

#[test]
fn parse_add() {
    let mut instr = vec!["add", "r0", "#1", "#2"];
    let r = to_instr(&mut instr);
    match r {
        Ok(INSTR::ADD(0, 1, 2)) => (),
        _ => panic!("Failed to parse ADD instruction = {:?}", instr),
    }
}

#[test]
fn parse_addr() {
    let mut instr = vec!["addr", "r0", "r1", "r2"];
    let r = to_instr(&mut instr);
    match r {
        Ok(INSTR::ADDR(0, 1, 2)) => (),
        _ => panic!("Failed to parse ADDR instruction = {:?}", instr),
    }
}

#[test]
fn parse_sub() {
    let mut instr = vec!["sub", "r0", "#1", "#2"];
    let r = to_instr(&mut instr);
    match r {
        Ok(INSTR::SUB(0, 1, 2)) => (),
        _ => panic!("Failed to parse SUB instruction = {:?}", instr),
    }
}

#[test]
fn parse_subr() {
    let mut instr = vec!["subr", "r0", "r1", "r2"];
    let r = to_instr(&mut instr);
    match r {
        Ok(INSTR::SUBR(0, 1, 2)) => (),
        _ => panic!("Failed to parse SUBR instruction = {:?}", instr),
    }
}

#[test]
fn split_line_single_spaces() {
    let tokens = split_line("movi r0 #42");
    assert_eq!(tokens, vec!["movi", "r0", "#42"]);
}

#[test]
fn split_line_empty_and_double_space() {
    assert_eq!(split_line(""), vec![""]);
    assert_eq!(split_line("mov  r0"), vec!["mov", "", "r0"]);
}

#[test]
fn operand_values() {
    assert_eq!(parse_operand("r0"), Some(0));
    assert_eq!(parse_operand("#42"), Some(42));
    assert_eq!(parse_operand("#4294967295"), Some(u32::MAX));
}

#[test]
fn operand_malformed() {
    assert_eq!(parse_operand(""), None);
    assert_eq!(parse_operand("r"), None);
    assert_eq!(parse_operand("#4x"), None);
    assert_eq!(parse_operand("#4294967296"), None);
}

#[test]
fn decode_register_and_immediate_sources() {
    assert_eq!(decode_line("mov r3 r7"), Ok(INSTR::MOV(3, 7)));
    assert_eq!(decode_line("mov r3 #7"), Ok(INSTR::MOV(3, 7)));
    assert_eq!(decode_line("add r1 r2 #3"), Ok(INSTR::ADD(1, 2, 3)));
    assert_eq!(decode_line("add r1 #2 r3"), Ok(INSTR::ADD(1, 2, 3)));
}

#[test]
fn decode_unrecognized_mnemonic() {
    let r = decode_line("jmp r0");
    assert_eq!(r, Err(DecodeError::Unrecognized(String::from("jmp"))));
}

#[test]
fn decode_empty_line() {
    let r = decode_line("");
    assert_eq!(r, Err(DecodeError::Unrecognized(String::from(""))));
}

#[test]
fn decode_insufficient_arguments_class2() {
    let r = decode_line("mov r0");
    assert_eq!(r, Err(DecodeError::InsufficientArguments(String::from("mov"))));
}

#[test]
fn decode_insufficient_arguments_class3() {
    let r = decode_line("add r0 #1");
    assert_eq!(r, Err(DecodeError::InsufficientArguments(String::from("add"))));
}

#[test]
fn decode_malformed_operand() {
    assert_eq!(
        decode_line("mov rx #1"),
        Err(DecodeError::MalformedOperand(String::from("rx")))
    );
    assert_eq!(
        decode_line("mov r0 #x"),
        Err(DecodeError::MalformedOperand(String::from("#x")))
    );
    assert_eq!(
        decode_line("movi r0 #4294967296"),
        Err(DecodeError::MalformedOperand(String::from("#4294967296")))
    );
}

#[test]
fn decode_uses_trailing_operand_tokens() {
    // The operands of a mnemonic are the trailing tokens of the line; any
    // tokens between the mnemonic and them are passed over.
    assert_eq!(decode_line("mov x r1 r2"), Ok(INSTR::MOV(1, 2)));
}

#[test]
fn decode_example_program() {
    let lines: Vec<String> = vec![
        String::from("movi r0 #42"),
        String::from("mov r0 r0"),
        String::from("addr r0 r0 r0"),
        String::from("addi r0 #42"),
        String::from("add r0 #42 #42"),
        String::from("subr r0 r0 r0"),
        String::from("subi r0 #42"),
        String::from("sub r0 #42 #42"),
    ];
    let expected = vec![
        INSTR::MOVI(0, 42),
        INSTR::MOV(0, 0),
        INSTR::ADDR(0, 0, 0),
        INSTR::ADDI(0, 42),
        INSTR::ADD(0, 42, 42),
        INSTR::SUBR(0, 0, 0),
        INSTR::SUBI(0, 42),
        INSTR::SUB(0, 42, 42),
    ];
    let decoded = decode_program(&lines);
    assert_eq!(decoded.len(), expected.len());
    for (l, r) in expected.into_iter().zip(decoded) {
        match r {
            Ok(instr) => assert_eq!(l, instr),
            Err(e) => panic!("Failed to parse string {:?}", e),
        }
    }
}

#[test]
fn decode_program_keeps_failing_lines_in_place() {
    let lines: Vec<String> = vec![
        String::from("movi r0 #1"),
        String::from("jmp r0"),
        String::from("movi r1 #2"),
    ];
    let decoded = decode_program(&lines);
    assert_eq!(decoded.len(), 3);
    assert_eq!(decoded[0], Ok(INSTR::MOVI(0, 1)));
    assert_eq!(decoded[1], Err(DecodeError::Unrecognized(String::from("jmp"))));
    assert_eq!(decoded[2], Ok(INSTR::MOVI(1, 2)));
}
