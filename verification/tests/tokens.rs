//! Tests of the token-level helpers: the opcode table and the
//! operand-requirement classification.

use mc14500_asm::{does_token_require_operand, get_token_representation, Token};

#[test]
fn token_representations_follow_the_table() {
    assert_eq!(get_token_representation(&Token::NoOp), Some('0'));
    assert_eq!(get_token_representation(&Token::Load), Some('1'));
    assert_eq!(get_token_representation(&Token::LoadComplement), Some('2'));
    assert_eq!(get_token_representation(&Token::And), Some('3'));
    assert_eq!(get_token_representation(&Token::AndComplement), Some('4'));
    assert_eq!(get_token_representation(&Token::Or), Some('5'));
    assert_eq!(get_token_representation(&Token::OrComplement), Some('6'));
    assert_eq!(get_token_representation(&Token::ExclusiveNor), Some('7'));
    assert_eq!(get_token_representation(&Token::Store), Some('8'));
    assert_eq!(get_token_representation(&Token::StoreComplement), Some('9'));
    assert_eq!(get_token_representation(&Token::InputEnable), Some('A'));
    assert_eq!(get_token_representation(&Token::OutputEnable), Some('B'));
    assert_eq!(get_token_representation(&Token::Jump), Some('C'));
    assert_eq!(get_token_representation(&Token::Return), Some('D'));
    assert_eq!(get_token_representation(&Token::SkipIfZero), Some('E'));
    assert_eq!(get_token_representation(&Token::Comment), None);
    assert_eq!(get_token_representation(&Token::Error), None);
}

#[test]
fn operand_digits_round_trip() {
    // Every operand value 0..=15 emits the uppercase hex digit that parses
    // back to the same value.
    let digits = [
        '0', '1', '2', '3', '4', '5', '6', '7', '8', '9', 'A', 'B', 'C', 'D', 'E', 'F',
    ];
    for v in 0u8..16 {
        let emitted = get_token_representation(&Token::Operand(v)).unwrap();
        assert_eq!(emitted, digits[v as usize]);
        assert_eq!(emitted.to_digit(16).unwrap(), v as u32);
    }
}

#[test]
fn exactly_twelve_mnemonics_require_an_operand() {
    let requiring = [
        Token::Load,
        Token::LoadComplement,
        Token::And,
        Token::AndComplement,
        Token::Or,
        Token::OrComplement,
        Token::ExclusiveNor,
        Token::Store,
        Token::StoreComplement,
        Token::InputEnable,
        Token::OutputEnable,
        Token::Jump,
    ];
    for token in requiring {
        assert!(does_token_require_operand(&token));
    }
    let free = [
        Token::NoOp,
        Token::Return,
        Token::SkipIfZero,
        Token::Operand(0),
        Token::Operand(15),
        Token::Comment,
        Token::Error,
    ];
    for token in free {
        assert!(!does_token_require_operand(&token));
    }
}
