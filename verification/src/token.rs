//! The token alphabet of the assembler and the fixed mnemonic-to-opcode table.

use vstd::prelude::*;

verus! {

/// The two ways an encoding can fail: an operand-requiring mnemonic was not
/// immediately followed by an operand, or the program has more tokens than
/// the fixed ceiling allows.
#[derive(Debug, PartialEq, Eq, Structural, Clone, Copy)]
pub enum AssemblerError {
    ExpectedOperand,
    ExceededMaxLength,
}

/// One lexical unit of an assembly source: a mnemonic, a single-hex-digit
/// operand, or one of the two markers (comments, and whitespace or
/// unrecognized input) that the lexer consumes and discards, so that neither
/// marker ever reaches the encoder.
#[derive(Debug, PartialEq, Eq, Structural, Clone, Copy)]
pub enum Token {
    NoOp,
    Load,
    LoadComplement,
    And,
    AndComplement,
    Or,
    OrComplement,
    ExclusiveNor,
    Store,
    StoreComplement,
    InputEnable,
    OutputEnable,
    Jump,
    Return,
    SkipIfZero,
    Operand(u8),
    Comment,
    Error,
}

/// The mnemonics whose semantics mandate an immediately following operand.
/// Return, SkipIfZero and NoOp take none; an operand never requires another.
pub open spec fn needs_operand(t: Token) -> bool {
    match t {
        Token::Load
        | Token::LoadComplement
        | Token::And
        | Token::AndComplement
        | Token::Or
        | Token::OrComplement
        | Token::ExclusiveNor
        | Token::Store
        | Token::StoreComplement
        | Token::InputEnable
        | Token::OutputEnable
        | Token::Jump => true,
        _ => false,
    }
}

/// The uppercase hexadecimal digit of a 4-bit value.
pub open spec fn hex_digit_char(v: u8) -> char
    recommends
        v < 16,
{
    if v == 0 {
        '0'
    } else if v == 1 {
        '1'
    } else if v == 2 {
        '2'
    } else if v == 3 {
        '3'
    } else if v == 4 {
        '4'
    } else if v == 5 {
        '5'
    } else if v == 6 {
        '6'
    } else if v == 7 {
        '7'
    } else if v == 8 {
        '8'
    } else if v == 9 {
        '9'
    } else if v == 10 {
        'A'
    } else if v == 11 {
        'B'
    } else if v == 12 {
        'C'
    } else if v == 13 {
        'D'
    } else if v == 14 {
        'E'
    } else if v == 15 {
        'F'
    } else {
        '0'
    }
}

/// A character that stands for a single hexadecimal digit, in either case.
pub open spec fn is_hex_digit(c: char) -> bool {
    ||| c == '0'
    ||| c == '1'
    ||| c == '2'
    ||| c == '3'
    ||| c == '4'
    ||| c == '5'
    ||| c == '6'
    ||| c == '7'
    ||| c == '8'
    ||| c == '9'
    ||| c == 'a'
    ||| c == 'b'
    ||| c == 'c'
    ||| c == 'd'
    ||| c == 'e'
    ||| c == 'f'
    ||| c == 'A'
    ||| c == 'B'
    ||| c == 'C'
    ||| c == 'D'
    ||| c == 'E'
    ||| c == 'F'
}

/// The numeric value of a hexadecimal digit character, in either case.
pub open spec fn hex_char_value(c: char) -> u8
    recommends
        is_hex_digit(c),
{
    if c == '0' {
        0
    } else if c == '1' {
        1
    } else if c == '2' {
        2
    } else if c == '3' {
        3
    } else if c == '4' {
        4
    } else if c == '5' {
        5
    } else if c == '6' {
        6
    } else if c == '7' {
        7
    } else if c == '8' {
        8
    } else if c == '9' {
        9
    } else if c == 'a' || c == 'A' {
        10
    } else if c == 'b' || c == 'B' {
        11
    } else if c == 'c' || c == 'C' {
        12
    } else if c == 'd' || c == 'D' {
        13
    } else if c == 'e' || c == 'E' {
        14
    } else if c == 'f' || c == 'F' {
        15
    } else {
        0
    }
}

/// A token the encoder may be handed: an instruction or an in-range operand.
/// The comment and error markers are discarded by the lexer and never occur
/// in a program.
pub open spec fn encodable(t: Token) -> bool {
    &&& (t matches Token::Operand(v) ==> v < 16)
    &&& t !is Comment
    &&& t !is Error
}

/// Every token of the sequence is one the encoder may be handed.
pub open spec fn tokens_encodable(tokens: Seq<Token>) -> bool {
    forall|i: int| 0 <= i < tokens.len() ==> encodable(#[trigger] tokens[i])
}

/// The fixed mnemonic-to-opcode table: the single uppercase hexadecimal
/// character each token contributes to the output stream. The comment and
/// error markers contribute nothing and never reach the encoder; their value
/// here is an arbitrary placeholder.
pub open spec fn opcode_char(t: Token) -> char
    recommends
        encodable(t),
{
    match t {
        Token::NoOp => '0',
        Token::Load => '1',
        Token::LoadComplement => '2',
        Token::And => '3',
        Token::AndComplement => '4',
        Token::Or => '5',
        Token::OrComplement => '6',
        Token::ExclusiveNor => '7',
        Token::Store => '8',
        Token::StoreComplement => '9',
        Token::InputEnable => 'A',
        Token::OutputEnable => 'B',
        Token::Jump => 'C',
        Token::Return => 'D',
        Token::SkipIfZero => 'E',
        Token::Operand(v) => hex_digit_char(v),
        Token::Comment => '0',
        Token::Error => '0',
    }
}

/// The character a token contributes to the output, or None for the two
/// markers that contribute nothing.
pub open spec fn token_repr(t: Token) -> Option<char> {
    match t {
        Token::Comment | Token::Error => None,
        _ => Some(opcode_char(t)),
    }
}

/// The uppercase hexadecimal digit of a 4-bit value.
fn hex_digit(v: u8) -> (c: char)
    requires
        v < 16,
    ensures
        c == hex_digit_char(v),
{
    match v {
        0 => '0',
        1 => '1',
        2 => '2',
        3 => '3',
        4 => '4',
        5 => '5',
        6 => '6',
        7 => '7',
        8 => '8',
        9 => '9',
        10 => 'A',
        11 => 'B',
        12 => 'C',
        13 => 'D',
        14 => 'E',
        _ => 'F',
    }
}

/// The single hexadecimal character a token contributes to the opcode
/// stream, or None for the comment and error markers, which contribute
/// nothing.
pub fn get_token_representation(token: &Token) -> (r: Option<char>)
    requires
        *token matches Token::Operand(v) ==> v < 16,
    ensures
        r == token_repr(*token),
{
    match token {
        Token::NoOp => Some('0'),
        Token::Load => Some('1'),
        Token::LoadComplement => Some('2'),
        Token::And => Some('3'),
        Token::AndComplement => Some('4'),
        Token::Or => Some('5'),
        Token::OrComplement => Some('6'),
        Token::ExclusiveNor => Some('7'),
        Token::Store => Some('8'),
        Token::StoreComplement => Some('9'),
        Token::InputEnable => Some('A'),
        Token::OutputEnable => Some('B'),
        Token::Jump => Some('C'),
        Token::Return => Some('D'),
        Token::SkipIfZero => Some('E'),
        Token::Operand(operand) => Some(hex_digit(*operand)),
        Token::Comment | Token::Error => None,
    }
}

/// Whether the token must be immediately followed by an operand.
pub fn does_token_require_operand(token: &Token) -> (r: bool)
    ensures
        r == needs_operand(*token),
{
    matches!(
        token,
        Token::Load
            | Token::LoadComplement
            | Token::And
            | Token::AndComplement
            | Token::Or
            | Token::OrComplement
            | Token::ExclusiveNor
            | Token::Store
            | Token::StoreComplement
            | Token::InputEnable
            | Token::OutputEnable
            | Token::Jump
    )
}

/// Round trip on digit identity: the character emitted for an operand value
/// in range, re-parsed as a hexadecimal digit, equals that value.
pub proof fn lemma_operand_round_trip(v: u8)
    requires
        v < 16,
    ensures
        is_hex_digit(opcode_char(Token::Operand(v))),
        hex_char_value(opcode_char(Token::Operand(v))) == v,
{
}

} // verus!
