//! End-to-end tests of the assembler: lexing plus encoding.

use mc14500_asm::{AssemblerError, Program};

#[test]
fn handles_simple_program() {
    let program = Program::from_assembly("OEN 0 \nSTO 0");
    let bin = program.into_opcodes();
    assert_eq!(bin, Ok(String::from("B080")));
}

#[test]
fn handles_non_zero_operands() {
    let program = Program::from_assembly("OEN 0\nSTO 0\nLD 7\nSTO F");
    let bin = program.into_opcodes();
    assert_eq!(bin, Ok(String::from("B080178F")));
}

#[test]
fn handles_missing_final_operand() {
    let program = Program::from_assembly("OEN 0\nSTO 0\nLD 7\nSTO");
    let bin = program.into_opcodes();
    assert_eq!(bin, Err(AssemblerError::ExpectedOperand));
}

#[test]
fn handles_missing_middle_operand() {
    let program = Program::from_assembly("OEN 0\nSTO \nLD 7\nSTO F");
    let bin = program.into_opcodes();
    assert_eq!(bin, Err(AssemblerError::ExpectedOperand));
}

#[test]
fn handles_comments() {
    let program = Program::from_assembly("OEN 0 ;enable the output because RR is zero, so input 1 (!RR) is 1\nSTO 0 ;store the 0 from RR in output 1, so the unit outputs the signal \"0:0\"");
    let bin = program.into_opcodes();
    assert_eq!(bin, Ok(String::from("B080")));
}

#[test]
fn rejects_programs_over_the_length_ceiling() {
    // 129 valid tokens: one more than the ceiling of 128.
    let source = "0".repeat(129);
    let program = Program::from_assembly(&source);
    assert_eq!(program.into_opcodes(), Err(AssemblerError::ExceededMaxLength));
}

#[test]
fn accepts_programs_at_the_length_ceiling() {
    let source = "0".repeat(128);
    let program = Program::from_assembly(&source);
    assert_eq!(program.into_opcodes(), Ok("0".repeat(128)));
}

#[test]
fn length_error_takes_precedence_over_missing_operand() {
    // 129 tokens ending in an operand-requiring mnemonic: the length check
    // runs first, so the length error is the one reported.
    let source = format!("{}LD", "0".repeat(128));
    let program = Program::from_assembly(&source);
    assert_eq!(program.into_opcodes(), Err(AssemblerError::ExceededMaxLength));
}

#[test]
fn encodes_every_mnemonic_to_its_table_entry() {
    let program = Program::from_assembly(
        "NOP LD 0 LDC 0 AND 0 ANDC 0 OR 0 ORC 0 XNOR 0 STO 0 STOC 0 IEN 0 OEN 0 JMP 0 RTN SKZ",
    );
    assert_eq!(
        program.into_opcodes(),
        Ok(String::from("0102030405060708090A0B0C0DE"))
    );
}

#[test]
fn emits_operand_digits_uppercase() {
    // All sixteen operand values, the lowercase digits included, come out as
    // the uppercase hex digit of the value they were parsed from.
    let program = Program::from_assembly("0 1 2 3 4 5 6 7 8 9 a b c d e f");
    assert_eq!(program.into_opcodes(), Ok(String::from("0123456789ABCDEF")));
    let shouting = Program::from_assembly("A B C D E F");
    assert_eq!(shouting.into_opcodes(), Ok(String::from("ABCDEF")));
}

#[test]
fn lexes_extended_mnemonics_greedily() {
    // STOC, ANDC, ORC and LDC are one token each, never the shorter
    // mnemonic they extend plus a trailing fragment.
    let program = Program::from_assembly("STOC 1");
    assert_eq!(program.into_opcodes(), Ok(String::from("91")));
    let program = Program::from_assembly("ANDC 2");
    assert_eq!(program.into_opcodes(), Ok(String::from("42")));
    let program = Program::from_assembly("ORC 3");
    assert_eq!(program.into_opcodes(), Ok(String::from("63")));
    let program = Program::from_assembly("LDC 4");
    assert_eq!(program.into_opcodes(), Ok(String::from("24")));
}

#[test]
fn comment_between_mnemonic_and_operand_is_transparent() {
    let program = Program::from_assembly("LD ;the operand is on the next line\n7");
    assert_eq!(program.into_opcodes(), Ok(String::from("17")));
}

#[test]
fn comment_does_not_satisfy_an_operand_requirement() {
    let program = Program::from_assembly("LD ;no operand follows");
    assert_eq!(program.into_opcodes(), Err(AssemblerError::ExpectedOperand));
}

#[test]
fn comment_without_trailing_newline_is_dropped() {
    let program = Program::from_assembly("NOP ;comment at end of file");
    assert_eq!(program.into_opcodes(), Ok(String::from("0")));
}

#[test]
fn unrecognized_characters_are_silently_dropped() {
    let program = Program::from_assembly("NOP %$! RTN #?");
    assert_eq!(program.into_opcodes(), Ok(String::from("0D")));
}

#[test]
fn dropped_garbage_does_not_break_operand_adjacency() {
    // Unrecognized characters are dropped at the lexing stage, so they
    // neither satisfy nor interrupt an operand requirement.
    let program = Program::from_assembly("LD @ 5");
    assert_eq!(program.into_opcodes(), Ok(String::from("15")));
}

#[test]
fn empty_source_encodes_to_empty_output() {
    let program = Program::from_assembly("");
    assert_eq!(program.into_opcodes(), Ok(String::from("")));
}

#[test]
fn encoding_is_idempotent() {
    let program = Program::from_assembly("OEN 0\nSTO 0\nLD 7\nSTO F");
    let first = program.into_opcodes();
    let second = program.into_opcodes();
    assert_eq!(first, second);
    assert_eq!(first, Ok(String::from("B080178F")));
}

#[test]
fn assembly_is_deterministic() {
    let source = "IEN F ;inputs on\nOEN F ;outputs on\nLD 1\nSTO 2";
    let first = Program::from_assembly(source).into_opcodes();
    let second = Program::from_assembly(source).into_opcodes();
    assert_eq!(first, second);
    let bad = "LD\nLD 1";
    let first_err = Program::from_assembly(bad).into_opcodes();
    let second_err = Program::from_assembly(bad).into_opcodes();
    assert_eq!(first_err, second_err);
    assert_eq!(first_err, Err(AssemblerError::ExpectedOperand));
}

#[test]
fn output_length_equals_token_count() {
    // 2 mnemonics and 2 operands: 4 accepted tokens, 4 output characters,
    // whatever whitespace and comments stood around them.
    let program = Program::from_assembly("  OEN 0 ;a comment\n\tSTO 0\n");
    let output = program.into_opcodes().unwrap();
    assert_eq!(output.len(), 4);
}
