//! The program type and the validating encoder: token sequence to hex
//! opcode stream.
//!
//! The encoder walks the tokens once, tracking a single piece of state —
//! whether an operand is owed as the very next token — and either emits one
//! uppercase hexadecimal character per token or fails. The length ceiling is
//! checked first, so a program that is both too long and missing an operand
//! reports ExceededMaxLength.

use vstd::prelude::*;

use crate::lexer::{lex_str, spec_lex};
use crate::token::{
    does_token_require_operand, encodable, get_token_representation, needs_operand, opcode_char,
    tokens_encodable, AssemblerError, Token,
};

verus! {

/// The largest number of tokens a program may hold.
pub const MAX_PROGRAM_LENGTH: usize = 128;

/// Every operand-requiring mnemonic in the sequence is immediately followed
/// by an operand token; none stands last.
pub open spec fn operands_follow(tokens: Seq<Token>) -> bool {
    forall|i: int|
        0 <= i < tokens.len() && needs_operand(#[trigger] tokens[i]) ==> i + 1 < tokens.len()
            && tokens[i + 1] is Operand
}

/// The opcode stream of a token sequence: one hexadecimal character per
/// token, in token order.
pub open spec fn opcode_chars(tokens: Seq<Token>) -> Seq<char> {
    tokens.map_values(|t: Token| opcode_char(t))
}

/// What encoding a token sequence yields: the length ceiling is enforced
/// first, then operand adjacency, and on success the opcode stream.
pub open spec fn spec_encode(tokens: Seq<Token>) -> Result<Seq<char>, AssemblerError> {
    if tokens.len() > MAX_PROGRAM_LENGTH {
        Err(AssemblerError::ExceededMaxLength)
    } else if !operands_follow(tokens) {
        Err(AssemblerError::ExpectedOperand)
    } else {
        Ok(opcode_chars(tokens))
    }
}

/// An ordered token sequence produced once from a source string, consumed by
/// `into_opcodes` to produce the hex opcode stream or an error.
pub struct Program {
    tokens: Vec<Token>,
}

impl View for Program {
    type V = Seq<Token>;

    closed spec fn view(&self) -> Seq<Token> {
        self.tokens@
    }
}

impl Program {
    /// The lexer discards comments, whitespace and unrecognized input, so a
    /// program holds only instructions and in-range operands.
    #[verifier::type_invariant]
    spec fn wf(self) -> bool {
        tokens_encodable(self.tokens@)
    }

    /// Lexes a source text into a program: the token sequence, in source
    /// order, with whitespace, comments and unrecognized characters dropped.
    /// Lexing never fails.
    pub fn from_assembly(assembly: &str) -> (program: Self)
        ensures
            program@ == spec_lex(assembly@),
    {
        let tokens = lex_str(assembly);
        Program { tokens }
    }

    /// Validates the program and emits its opcode stream: one uppercase
    /// hexadecimal character per token. Fails with ExceededMaxLength when
    /// the program holds more than `MAX_PROGRAM_LENGTH` tokens (checked
    /// first), and with ExpectedOperand when an operand-requiring mnemonic
    /// is not immediately followed by an operand, the end of the program
    /// included.
    pub fn into_opcodes(&self) -> (result: Result<String, AssemblerError>)
        ensures
            result is Ok <==> (self@.len() <= MAX_PROGRAM_LENGTH && operands_follow(self@)),
            match result {
                Ok(output) => spec_encode(self@) matches Ok(cs) && output@ == cs,
                Err(e) => spec_encode(self@) matches Err(e2) && e == e2,
            },
    {
        proof {
            use_type_invariant(&*self);
        }
        let n = self.tokens.len();
        if n > MAX_PROGRAM_LENGTH {
            return Err(AssemblerError::ExceededMaxLength);
        }
        let mut output = String::new();
        let mut expecting_operand = false;
        let mut idx: usize = 0;
        while idx < n
            invariant
                n == self.tokens@.len(),
                n <= MAX_PROGRAM_LENGTH,
                idx <= n,
                tokens_encodable(self.tokens@),
                expecting_operand == (idx > 0 && needs_operand(self.tokens@[idx as int - 1])),
                forall|j: int|
                    0 <= j && j + 1 < idx && needs_operand(#[trigger] self.tokens@[j])
                        ==> self.tokens@[j + 1] is Operand,
                output@ == opcode_chars(self.tokens@.take(idx as int)),
            decreases n - idx,
        {
            let token = self.tokens[idx];
            proof {
                assert(encodable(self.tokens@[idx as int]));
            }

            // If we're expecting an operand, make sure this token is one
            if expecting_operand {
                match token {
                    Token::Operand(_) => {},
                    _ => {
                        proof {
                            lemma_adjacency_violation(self.tokens@, idx as int - 1);
                        }
                        return Err(AssemblerError::ExpectedOperand);
                    },
                }
            }

            // Push the token representation to the output
            if let Some(token_repr) = get_token_representation(&token) {
                push_char(&mut output, token_repr);
            }

            // Flag whether we're expecting an operand as the next token
            expecting_operand = does_token_require_operand(&token);
            idx = idx + 1;
            proof {
                assert(self.tokens@.take(idx as int) =~= self.tokens@.take(idx as int - 1).push(
                    token,
                ));
                assert(opcode_chars(self.tokens@.take(idx as int)) =~= opcode_chars(
                    self.tokens@.take(idx as int - 1),
                ).push(opcode_char(token)));
            }
        }
        if expecting_operand {
            proof {
                lemma_adjacency_violation(self.tokens@, n as int - 1);
            }
            return Err(AssemblerError::ExpectedOperand);
        }
        proof {
            assert(operands_follow(self.tokens@)) by {
                assert forall|j: int|
                    0 <= j < self.tokens@.len() && needs_operand(
                        #[trigger] self.tokens@[j],
                    ) implies j + 1 < self.tokens@.len() && self.tokens@[j + 1] is Operand by {
                        assert(j != n - 1);
                    }
            }
            assert(self.tokens@.take(n as int) =~= self.tokens@);
        }
        Ok(output)
    }
}

/// An operand-requiring mnemonic whose successor is missing or is not an
/// operand breaks the adjacency rule for the whole sequence.
proof fn lemma_adjacency_violation(tokens: Seq<Token>, j: int)
    requires
        0 <= j < tokens.len(),
        needs_operand(tokens[j]),
        j + 1 < tokens.len() ==> !(tokens[j + 1] is Operand),
    ensures
        !operands_follow(tokens),
{
    assert(!(j + 1 < tokens.len() && tokens[j + 1] is Operand));
}

/// Relies on String::push: appends exactly the given character at the end
/// of the string.
#[verifier::external_body]
fn push_char(s: &mut String, c: char)
    ensures
        final(s)@ == old(s)@.push(c),
{
    s.push(c);
}

/// Encoding is deterministic and idempotent: the result is a function of
/// the token sequence alone, so encoding the same sequence twice — or two
/// equal sequences — yields identical results.
pub proof fn lemma_encode_deterministic(a: Seq<Token>, b: Seq<Token>)
    requires
        a == b,
    ensures
        spec_encode(a) == spec_encode(b),
{
}

/// Assembly is deterministic end to end: equal source texts lex to equal
/// token sequences and encode to equal results, output or error alike.
pub proof fn lemma_assembly_deterministic(s1: Seq<char>, s2: Seq<char>)
    requires
        s1 == s2,
    ensures
        spec_lex(s1) == spec_lex(s2),
        spec_encode(spec_lex(s1)) == spec_encode(spec_lex(s2)),
{
}

/// Comment transparency, end to end: inserting a comment — a ';' and any
/// newline-free text — at the end of a line changes neither the token
/// sequence nor the encoding result. In particular, a comment standing
/// between a mnemonic and its operand cannot trigger ExpectedOperand.
pub proof fn lemma_comment_transparent_encoding(a: Seq<char>, c: Seq<char>, b: Seq<char>)
    requires
        forall|j: int| 0 <= j < c.len() ==> (#[trigger] c[j]) != '\n',
        b.len() > 0 ==> b[0] == '\n',
    ensures
        spec_lex(a + seq![';'] + c + b) == spec_lex(a + b),
        spec_encode(spec_lex(a + seq![';'] + c + b)) == spec_encode(spec_lex(a + b)),
{
    crate::lexer::lemma_comment_insertion(a, c, b);
}

/// Length invariant: a successful encoding emits exactly one character per
/// token, so the output length equals the number of tokens the lexer kept.
pub proof fn lemma_output_length(tokens: Seq<Token>)
    requires
        spec_encode(tokens) is Ok,
    ensures
        spec_encode(tokens) matches Ok(output) && output.len() == tokens.len(),
{
}

} // verus!
