//! Assembler for a 1-bit-wide, 16-instruction microcontroller.
//!
//! Source text is lexed into a sequence of tokens (mnemonics, single-digit
//! hexadecimal operands; whitespace, comments and unrecognized characters are
//! discarded), and the token sequence is then validated and encoded into a
//! compact stream of uppercase hexadecimal opcode characters, one character
//! per token. The encoder enforces that every operand-requiring mnemonic is
//! immediately followed by an operand and that the program does not exceed a
//! fixed length ceiling.

pub mod encoder;
pub mod lexer;
pub mod token;

pub use encoder::Program;
pub use token::does_token_require_operand;
pub use token::get_token_representation;
pub use token::AssemblerError;
pub use token::Token;
