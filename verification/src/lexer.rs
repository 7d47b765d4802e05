//! The lexer: source text to token sequence.
//!
//! Mnemonics are matched greedily (longest literal first, so "STOC" is one
//! StoreComplement token, never Store followed by a fragment), a lone
//! hexadecimal digit is an operand, a ';' starts a comment that runs to the
//! end of the line, and whitespace and unrecognized characters are silently
//! dropped. The lexer never fails; it only ever discards what it cannot
//! classify.

use vstd::prelude::*;
use vstd::string::StrSliceExecFns;

use crate::token::{encodable, hex_char_value, is_hex_digit, tokens_encodable, Token};

verus! {

/// The characters skipped between tokens: space, tab, newline and form feed.
pub open spec fn is_space(c: char) -> bool {
    c == ' ' || c == '\t' || c == '\n' || c == '\u{000C}'
}

/// The first index at or after `i` holding a newline, or the length of the
/// source if no newline follows: where a comment starting before `i` ends.
pub open spec fn comment_end(s: Seq<char>, i: int) -> int
    recommends
        0 <= i <= s.len(),
    decreases s.len() - i,
{
    if i < 0 || s.len() <= i {
        s.len() as int
    } else if s[i] == '\n' {
        i
    } else {
        comment_end(s, i + 1)
    }
}

/// A comment runs from its start to the next newline: every character before
/// `comment_end` is on the comment's line, and the end is a newline or the
/// end of the source.
pub proof fn lemma_comment_end_bounds(s: Seq<char>, i: int)
    requires
        0 <= i <= s.len(),
    ensures
        i <= comment_end(s, i) <= s.len(),
        forall|j: int| i <= j < comment_end(s, i) ==> (#[trigger] s[j]) != '\n',
        comment_end(s, i) < s.len() ==> s[comment_end(s, i)] == '\n',
    decreases s.len() - i,
{
    if i < s.len() && s[i] != '\n' {
        lemma_comment_end_bounds(s, i + 1);
    }
}

/// The 4-character mnemonic starting at `i`, if any.
pub open spec fn mnemonic4_at(s: Seq<char>, i: int) -> Option<Token>
    recommends
        0 <= i < s.len(),
{
    if i + 4 <= s.len() {
        if s[i] == 'A' && s[i + 1] == 'N' && s[i + 2] == 'D' && s[i + 3] == 'C' {
            Some(Token::AndComplement)
        } else if s[i] == 'X' && s[i + 1] == 'N' && s[i + 2] == 'O' && s[i + 3] == 'R' {
            Some(Token::ExclusiveNor)
        } else if s[i] == 'S' && s[i + 1] == 'T' && s[i + 2] == 'O' && s[i + 3] == 'C' {
            Some(Token::StoreComplement)
        } else {
            None
        }
    } else {
        None
    }
}

/// The 3-character mnemonic starting at `i`, if any.
pub open spec fn mnemonic3_at(s: Seq<char>, i: int) -> Option<Token>
    recommends
        0 <= i < s.len(),
{
    if i + 3 <= s.len() {
        if s[i] == 'N' && s[i + 1] == 'O' && s[i + 2] == 'P' {
            Some(Token::NoOp)
        } else if s[i] == 'L' && s[i + 1] == 'D' && s[i + 2] == 'C' {
            Some(Token::LoadComplement)
        } else if s[i] == 'A' && s[i + 1] == 'N' && s[i + 2] == 'D' {
            Some(Token::And)
        } else if s[i] == 'O' && s[i + 1] == 'R' && s[i + 2] == 'C' {
            Some(Token::OrComplement)
        } else if s[i] == 'S' && s[i + 1] == 'T' && s[i + 2] == 'O' {
            Some(Token::Store)
        } else if s[i] == 'I' && s[i + 1] == 'E' && s[i + 2] == 'N' {
            Some(Token::InputEnable)
        } else if s[i] == 'O' && s[i + 1] == 'E' && s[i + 2] == 'N' {
            Some(Token::OutputEnable)
        } else if s[i] == 'J' && s[i + 1] == 'M' && s[i + 2] == 'P' {
            Some(Token::Jump)
        } else if s[i] == 'R' && s[i + 1] == 'T' && s[i + 2] == 'N' {
            Some(Token::Return)
        } else if s[i] == 'S' && s[i + 1] == 'K' && s[i + 2] == 'Z' {
            Some(Token::SkipIfZero)
        } else {
            None
        }
    } else {
        None
    }
}

/// The 2-character mnemonic starting at `i`, if any.
pub open spec fn mnemonic2_at(s: Seq<char>, i: int) -> Option<Token>
    recommends
        0 <= i < s.len(),
{
    if i + 2 <= s.len() {
        if s[i] == 'L' && s[i + 1] == 'D' {
            Some(Token::Load)
        } else if s[i] == 'O' && s[i + 1] == 'R' {
            Some(Token::Or)
        } else {
            None
        }
    } else {
        None
    }
}

/// The token sequence lexed from position `i` of the source onward.
///
/// Longer literals are tried before their prefixes (4, then 3, then 2
/// characters, then a single hex digit), which gives longest-match semantics
/// among mnemonics sharing a prefix; no mnemonic is a single character, so a
/// digit is an operand only where no mnemonic matches.
pub open spec fn spec_lex_from(s: Seq<char>, i: int) -> Seq<Token>
    recommends
        0 <= i <= s.len(),
    decreases s.len() - i,
{
    if i < 0 || s.len() <= i {
        Seq::empty()
    } else if is_space(s[i]) {
        spec_lex_from(s, i + 1)
    } else if s[i] == ';' {
        proof {
            lemma_comment_end_bounds(s, i + 1);
        }
        spec_lex_from(s, comment_end(s, i + 1))
    } else {
        match mnemonic4_at(s, i) {
            Some(t) => seq![t] + spec_lex_from(s, i + 4),
            None => match mnemonic3_at(s, i) {
                Some(t) => seq![t] + spec_lex_from(s, i + 3),
                None => match mnemonic2_at(s, i) {
                    Some(t) => seq![t] + spec_lex_from(s, i + 2),
                    None => if is_hex_digit(s[i]) {
                        seq![Token::Operand(hex_char_value(s[i]))] + spec_lex_from(s, i + 1)
                    } else {
                        spec_lex_from(s, i + 1)
                    },
                },
            },
        }
    }
}

/// The token sequence lexed from a whole source text.
pub open spec fn spec_lex(s: Seq<char>) -> Seq<Token> {
    spec_lex_from(s, 0)
}

/// The lexer only ever emits instructions and in-range operands: the comment
/// and error markers never appear in its output.
pub proof fn lemma_lex_from_encodable(s: Seq<char>, i: int)
    ensures
        tokens_encodable(spec_lex_from(s, i)),
    decreases s.len() - i,
{
    if i < 0 || s.len() <= i {
    } else if is_space(s[i]) {
        lemma_lex_from_encodable(s, i + 1);
    } else if s[i] == ';' {
        lemma_comment_end_bounds(s, i + 1);
        lemma_lex_from_encodable(s, comment_end(s, i + 1));
    } else {
        match mnemonic4_at(s, i) {
            Some(t) => {
                lemma_lex_from_encodable(s, i + 4);
                lemma_cons_encodable(t, spec_lex_from(s, i + 4));
            },
            None => match mnemonic3_at(s, i) {
                Some(t) => {
                    lemma_lex_from_encodable(s, i + 3);
                    lemma_cons_encodable(t, spec_lex_from(s, i + 3));
                },
                None => match mnemonic2_at(s, i) {
                    Some(t) => {
                        lemma_lex_from_encodable(s, i + 2);
                        lemma_cons_encodable(t, spec_lex_from(s, i + 2));
                    },
                    None => {
                        lemma_lex_from_encodable(s, i + 1);
                        if is_hex_digit(s[i]) {
                            lemma_cons_encodable(
                                Token::Operand(hex_char_value(s[i])),
                                spec_lex_from(s, i + 1),
                            );
                        }
                    },
                },
            },
        }
    }
}

/// Prepending one encodable token to an all-encodable sequence keeps every
/// token encodable.
proof fn lemma_cons_encodable(t: Token, rest: Seq<Token>)
    requires
        encodable(t),
        tokens_encodable(rest),
    ensures
        tokens_encodable(seq![t] + rest),
{
    let all = seq![t] + rest;
    assert forall|k: int| 0 <= k < all.len() implies encodable(#[trigger] all[k]) by {
        if k == 0 {
            assert(all[0] == t);
        } else {
            assert(all[k] == rest[k - 1]);
        }
    }
}

/// Inserting a comment — a ';' followed by any newline-free text — at the
/// end of a line of the source does not change the tokens lexed from any
/// position at or before the insertion point.
proof fn lemma_comment_insertion_from(a: Seq<char>, c: Seq<char>, b: Seq<char>, q: int)
    requires
        0 <= q <= a.len(),
        forall|j: int| 0 <= j < c.len() ==> (#[trigger] c[j]) != '\n',
        b.len() > 0 ==> b[0] == '\n',
    ensures
        spec_lex_from(a + b, q) == spec_lex_from(a + seq![';'] + c + b, q),
    decreases a.len() - q,
{
    let s2 = a + b;
    let s1 = a + seq![';'] + c + b;
    let alen = a.len() as int;
    let clen = c.len() as int;
    // the character layout of the two sources
    assert forall|j: int| 0 <= j < alen implies #[trigger] s1[j] == a[j] by {}
    assert forall|j: int| 0 <= j < alen implies #[trigger] s2[j] == a[j] by {}
    assert(s1[alen] == ';');
    assert forall|j: int| alen + 1 <= j < alen + 1 + clen implies #[trigger] s1[j] == c[j - alen
        - 1] by {}
    assert forall|j: int| alen + 1 + clen <= j < s1.len() implies #[trigger] s1[j] == b[j - alen - 1
        - clen] by {}
    assert forall|j: int| alen <= j < s2.len() implies #[trigger] s2[j] == b[j - alen] by {}
    if q == alen {
        // the inserted comment starts exactly here; it runs over `c` and
        // stops at the newline that starts `b`, or at the end of the source
        lemma_comment_end_past(s1, q + 1, alen + 1 + clen);
        lemma_lex_common_suffix(s1, alen + 1 + clen, s2, alen);
    } else {
        assert(s1[q] == a[q] && s2[q] == a[q]);
        if is_space(a[q]) {
            lemma_comment_insertion_from(a, c, b, q + 1);
        } else if a[q] == ';' {
            let e2 = comment_end(s2, q + 1);
            lemma_comment_end_bounds(s2, q + 1);
            // a comment of the original source ends at its newline, which is
            // no later than the start of `b`
            assert(e2 <= alen) by {
                if e2 > alen {
                    assert(s2[alen] != '\n');
                    assert(false);
                }
            }
            if e2 < alen {
                assert forall|j: int| q + 1 <= j < e2 implies (#[trigger] s1[j]) != '\n' by {
                    assert(s2[j] != '\n');
                    assert(s1[j] == a[j] && s2[j] == a[j]);
                }
                assert(s1[e2] == a[e2] && s2[e2] == a[e2]);
                lemma_comment_end_past(s1, q + 1, e2);
                lemma_comment_insertion_from(a, c, b, e2);
            } else {
                // the comment runs to the start of `b`: in the extended
                // source it swallows the inserted comment as well
                assert forall|j: int| q + 1 <= j < alen + 1 + clen implies (#[trigger] s1[j])
                    != '\n' by {
                    if j < alen {
                        assert(s2[j] != '\n');
                        assert(s1[j] == a[j] && s2[j] == a[j]);
                    } else if j > alen {
                        assert(s1[j] == c[j - alen - 1]);
                    }
                }
                lemma_comment_end_past(s1, q + 1, alen + 1 + clen);
                lemma_lex_common_suffix(s1, alen + 1 + clen, s2, alen);
            }
        } else {
            // no mnemonic reaches across the inserted ';' or the newline at
            // the start of `b`, so the matches at `q` agree
            if q + 4 <= alen {
                assert(mnemonic4_at(s1, q) == mnemonic4_at(s2, q));
            } else {
                assert(mnemonic4_at(s1, q) is None);
                assert(mnemonic4_at(s2, q) is None);
            }
            if q + 3 <= alen {
                assert(mnemonic3_at(s1, q) == mnemonic3_at(s2, q));
            } else {
                assert(mnemonic3_at(s1, q) is None);
                assert(mnemonic3_at(s2, q) is None);
            }
            if q + 2 <= alen {
                assert(mnemonic2_at(s1, q) == mnemonic2_at(s2, q));
            } else {
                assert(mnemonic2_at(s1, q) is None);
                assert(mnemonic2_at(s2, q) is None);
            }
            match mnemonic4_at(s2, q) {
                Some(t) => {
                    lemma_comment_insertion_from(a, c, b, q + 4);
                },
                None => match mnemonic3_at(s2, q) {
                    Some(t) => {
                        lemma_comment_insertion_from(a, c, b, q + 3);
                    },
                    None => match mnemonic2_at(s2, q) {
                        Some(t) => {
                            lemma_comment_insertion_from(a, c, b, q + 2);
                        },
                        None => {
                            lemma_comment_insertion_from(a, c, b, q + 1);
                        },
                    },
                },
            }
        }
    }
}

/// Comment transparency over whole sources: inserting a comment — a ';' and
/// any newline-free text — at the end of a line leaves the lexed token
/// sequence unchanged. A comment between a mnemonic and its operand thus
/// neither satisfies nor breaks the operand requirement.
pub proof fn lemma_comment_insertion(a: Seq<char>, c: Seq<char>, b: Seq<char>)
    requires
        forall|j: int| 0 <= j < c.len() ==> (#[trigger] c[j]) != '\n',
        b.len() > 0 ==> b[0] == '\n',
    ensures
        spec_lex(a + seq![';'] + c + b) == spec_lex(a + b),
{
    lemma_comment_insertion_from(a, c, b, 0);
}

/// Greedy mnemonic matching: a mnemonic that extends a shorter mnemonic
/// lexes as the single longer token, never as the shorter one followed by a
/// trailing fragment.
pub proof fn lemma_greedy_mnemonic_matching()
    ensures
        spec_lex("STOC"@) == seq![Token::StoreComplement],
        spec_lex("ANDC"@) == seq![Token::AndComplement],
        spec_lex("ORC"@) == seq![Token::OrComplement],
        spec_lex("LDC"@) == seq![Token::LoadComplement],
{
    reveal_strlit("STOC");
    reveal_strlit("ANDC");
    reveal_strlit("ORC");
    reveal_strlit("LDC");
    let stoc = "STOC"@;
    assert(mnemonic4_at(stoc, 0) == Some(Token::StoreComplement));
    assert(spec_lex_from(stoc, 4) =~= Seq::<Token>::empty());
    assert(spec_lex(stoc) =~= seq![Token::StoreComplement]);
    let andc = "ANDC"@;
    assert(mnemonic4_at(andc, 0) == Some(Token::AndComplement));
    assert(spec_lex_from(andc, 4) =~= Seq::<Token>::empty());
    assert(spec_lex(andc) =~= seq![Token::AndComplement]);
    let orc = "ORC"@;
    assert(mnemonic4_at(orc, 0) is None);
    assert(mnemonic3_at(orc, 0) == Some(Token::OrComplement));
    assert(spec_lex_from(orc, 3) =~= Seq::<Token>::empty());
    assert(spec_lex(orc) =~= seq![Token::OrComplement]);
    let ldc = "LDC"@;
    assert(mnemonic4_at(ldc, 0) is None);
    assert(mnemonic3_at(ldc, 0) == Some(Token::LoadComplement));
    assert(spec_lex_from(ldc, 3) =~= Seq::<Token>::empty());
    assert(spec_lex(ldc) =~= seq![Token::LoadComplement]);
}

/// The converse characterization of `comment_end`: if nothing from `i` up to
/// `e` is a newline and `e` holds a newline or is the end of the source, the
/// scan from `i` stops exactly at `e`.
proof fn lemma_comment_end_past(s: Seq<char>, i: int, e: int)
    requires
        0 <= i <= e <= s.len(),
        forall|j: int| i <= j < e ==> (#[trigger] s[j]) != '\n',
        e < s.len() ==> s[e] == '\n',
    ensures
        comment_end(s, i) == e,
    decreases e - i,
{
    if i < e {
        lemma_comment_end_past(s, i + 1, e);
    }
}

/// Advancing both positions of a character-for-character correspondence by
/// the same amount keeps the correspondence.
proof fn lemma_suffix_shift(s1: Seq<char>, p: int, s2: Seq<char>, q: int, k: int)
    requires
        0 <= p,
        0 <= q,
        0 <= k,
        s1.len() - p == s2.len() - q,
        forall|d: int| 0 <= d < s1.len() - p ==> s1[p + d] == #[trigger] s2[q + d],
    ensures
        forall|d: int| 0 <= d < s1.len() - (p + k) ==> s1[p + k + d] == #[trigger] s2[q + k + d],
{
    assert forall|d: int| 0 <= d < s1.len() - (p + k) implies s1[p + k + d] == #[trigger] s2[q + k
        + d] by {
        let dd = k + d;
        assert(s1[p + dd] == s2[q + dd]);
    }
}

/// Two sources that agree, character for character, from the given positions
/// to their ends lex to the same token sequence from there on.
proof fn lemma_lex_common_suffix(s1: Seq<char>, p: int, s2: Seq<char>, q: int)
    requires
        0 <= p <= s1.len(),
        0 <= q <= s2.len(),
        s1.len() - p == s2.len() - q,
        forall|d: int| 0 <= d < s1.len() - p ==> s1[p + d] == #[trigger] s2[q + d],
    ensures
        spec_lex_from(s1, p) == spec_lex_from(s2, q),
    decreases s1.len() - p,
{
    if p >= s1.len() {
    } else {
        assert(s1[p] == s2[q]) by {
            assert(s1[p + 0] == s2[q + 0]);
        }
        if is_space(s1[p]) {
            lemma_suffix_shift(s1, p, s2, q, 1);
            lemma_lex_common_suffix(s1, p + 1, s2, q + 1);
        } else if s1[p] == ';' {
            let e1 = comment_end(s1, p + 1);
            lemma_comment_end_bounds(s1, p + 1);
            let e2 = q + 1 + (e1 - (p + 1));
            assert forall|j: int| q + 1 <= j < e2 implies (#[trigger] s2[j]) != '\n' by {
                let d = j - q;
                assert(s1[p + d] == s2[q + d]);
            }
            if e2 < s2.len() {
                assert(s2[q + (e1 - p)] == s1[p + (e1 - p)]);
            }
            lemma_comment_end_past(s2, q + 1, e2);
            lemma_suffix_shift(s1, p, s2, q, e1 - p);
            lemma_lex_common_suffix(s1, e1, s2, e2);
        } else {
            assert(s1[p + 1] == s2[q + 1] || s1.len() - p < 2) by {
                if s1.len() - p >= 2 {
                    assert(s1[p + 1] == s2[q + 1]);
                }
            }
            assert(s1[p + 2] == s2[q + 2] || s1.len() - p < 3) by {
                if s1.len() - p >= 3 {
                    assert(s1[p + 2] == s2[q + 2]);
                }
            }
            assert(s1[p + 3] == s2[q + 3] || s1.len() - p < 4) by {
                if s1.len() - p >= 4 {
                    assert(s1[p + 3] == s2[q + 3]);
                }
            }
            assert(mnemonic4_at(s1, p) == mnemonic4_at(s2, q));
            assert(mnemonic3_at(s1, p) == mnemonic3_at(s2, q));
            assert(mnemonic2_at(s1, p) == mnemonic2_at(s2, q));
            match mnemonic4_at(s1, p) {
                Some(t) => {
                    lemma_suffix_shift(s1, p, s2, q, 4);
                    lemma_lex_common_suffix(s1, p + 4, s2, q + 4);
                },
                None => match mnemonic3_at(s1, p) {
                    Some(t) => {
                        lemma_suffix_shift(s1, p, s2, q, 3);
                    lemma_lex_common_suffix(s1, p + 3, s2, q + 3);
                    },
                    None => match mnemonic2_at(s1, p) {
                        Some(t) => {
                            lemma_suffix_shift(s1, p, s2, q, 2);
                    lemma_lex_common_suffix(s1, p + 2, s2, q + 2);
                        },
                        None => {
                            lemma_suffix_shift(s1, p, s2, q, 1);
                            lemma_lex_common_suffix(s1, p + 1, s2, q + 1);
                        },
                    },
                },
            }
        }
    }
}

/// Comment transparency: at a ';' the lexer emits no token and resumes right
/// after the comment, so a comment between a mnemonic and its operand leaves
/// the token sequence — and with it the operand-adjacency check — unchanged.
pub proof fn lemma_comment_transparent(s: Seq<char>, i: int)
    requires
        0 <= i < s.len(),
        s[i] == ';',
    ensures
        spec_lex_from(s, i) == spec_lex_from(s, comment_end(s, i + 1)),
{
    assert(!is_space(s[i]));
}

/// The 4-character mnemonic starting at `i`, if any.
fn match_mnemonic4(src: &str, i: usize, n: usize) -> (r: Option<Token>)
    requires
        n == src@.len(),
        i < n,
    ensures
        r == mnemonic4_at(src@, i as int),
{
    if n - i >= 4 {
        let c0 = src.get_char(i);
        let c1 = src.get_char(i + 1);
        let c2 = src.get_char(i + 2);
        let c3 = src.get_char(i + 3);
        if c0 == 'A' && c1 == 'N' && c2 == 'D' && c3 == 'C' {
            Some(Token::AndComplement)
        } else if c0 == 'X' && c1 == 'N' && c2 == 'O' && c3 == 'R' {
            Some(Token::ExclusiveNor)
        } else if c0 == 'S' && c1 == 'T' && c2 == 'O' && c3 == 'C' {
            Some(Token::StoreComplement)
        } else {
            None
        }
    } else {
        None
    }
}

/// The 3-character mnemonic starting at `i`, if any.
fn match_mnemonic3(src: &str, i: usize, n: usize) -> (r: Option<Token>)
    requires
        n == src@.len(),
        i < n,
    ensures
        r == mnemonic3_at(src@, i as int),
{
    if n - i >= 3 {
        let c0 = src.get_char(i);
        let c1 = src.get_char(i + 1);
        let c2 = src.get_char(i + 2);
        if c0 == 'N' && c1 == 'O' && c2 == 'P' {
            Some(Token::NoOp)
        } else if c0 == 'L' && c1 == 'D' && c2 == 'C' {
            Some(Token::LoadComplement)
        } else if c0 == 'A' && c1 == 'N' && c2 == 'D' {
            Some(Token::And)
        } else if c0 == 'O' && c1 == 'R' && c2 == 'C' {
            Some(Token::OrComplement)
        } else if c0 == 'S' && c1 == 'T' && c2 == 'O' {
            Some(Token::Store)
        } else if c0 == 'I' && c1 == 'E' && c2 == 'N' {
            Some(Token::InputEnable)
        } else if c0 == 'O' && c1 == 'E' && c2 == 'N' {
            Some(Token::OutputEnable)
        } else if c0 == 'J' && c1 == 'M' && c2 == 'P' {
            Some(Token::Jump)
        } else if c0 == 'R' && c1 == 'T' && c2 == 'N' {
            Some(Token::Return)
        } else if c0 == 'S' && c1 == 'K' && c2 == 'Z' {
            Some(Token::SkipIfZero)
        } else {
            None
        }
    } else {
        None
    }
}

/// The 2-character mnemonic starting at `i`, if any.
fn match_mnemonic2(src: &str, i: usize, n: usize) -> (r: Option<Token>)
    requires
        n == src@.len(),
        i < n,
    ensures
        r == mnemonic2_at(src@, i as int),
{
    if n - i >= 2 {
        let c0 = src.get_char(i);
        let c1 = src.get_char(i + 1);
        if c0 == 'L' && c1 == 'D' {
            Some(Token::Load)
        } else if c0 == 'O' && c1 == 'R' {
            Some(Token::Or)
        } else {
            None
        }
    } else {
        None
    }
}

/// Whether the character is a hexadecimal digit, in either case.
fn is_hex_digit_char(c: char) -> (r: bool)
    ensures
        r == is_hex_digit(c),
{
    c == '0' || c == '1' || c == '2' || c == '3' || c == '4' || c == '5' || c == '6' || c == '7'
        || c == '8' || c == '9' || c == 'a' || c == 'b' || c == 'c' || c == 'd' || c == 'e'
        || c == 'f' || c == 'A' || c == 'B' || c == 'C' || c == 'D' || c == 'E' || c == 'F'
}

/// The numeric value of a hexadecimal digit character.
fn hex_value(c: char) -> (v: u8)
    requires
        is_hex_digit(c),
    ensures
        v == hex_char_value(c),
        v < 16,
{
    match c {
        '0' => 0,
        '1' => 1,
        '2' => 2,
        '3' => 3,
        '4' => 4,
        '5' => 5,
        '6' => 6,
        '7' => 7,
        '8' => 8,
        '9' => 9,
        'a' | 'A' => 10,
        'b' | 'B' => 11,
        'c' | 'C' => 12,
        'd' | 'D' => 13,
        'e' | 'E' => 14,
        _ => 15,
    }
}

/// Lexes a whole source text into its token sequence, in source order.
pub(crate) fn lex_str(src: &str) -> (tokens: Vec<Token>)
    ensures
        tokens@ == spec_lex(src@),
        tokens_encodable(tokens@),
{
    let n: usize = src.unicode_len();
    let mut tokens: Vec<Token> = Vec::new();
    let mut i: usize = 0;
    while i < n
        invariant
            n == src@.len(),
            i <= n,
            spec_lex(src@) == tokens@ + spec_lex_from(src@, i as int),
        decreases n - i,
    {
        let ghost prev = tokens@;
        let ghost start: int = i as int;
        let c = src.get_char(i);
        if c == ' ' || c == '\t' || c == '\n' || c == '\u{000C}' {
            i = i + 1;
            proof {
                assert(spec_lex_from(src@, start) == spec_lex_from(src@, i as int));
            }
        } else if c == ';' {
            i = i + 1;
            while i < n && src.get_char(i) != '\n'
                invariant
                    n == src@.len(),
                    0 <= start < n,
                    start + 1 <= i <= n,
                    src@[start] == ';',
                    comment_end(src@, start + 1) == comment_end(src@, i as int),
                decreases n - i,
            {
                proof {
                    assert(comment_end(src@, i as int) == comment_end(src@, i as int + 1));
                }
                i = i + 1;
            }
            proof {
                assert(comment_end(src@, i as int) == i as int);
                assert(!is_space(src@[start]));
                assert(spec_lex_from(src@, start) == spec_lex_from(src@, i as int));
            }
        } else {
            proof {
                assert(!is_space(src@[start]));
            }
            let m4 = match_mnemonic4(src, i, n);
            if let Some(t) = m4 {
                tokens.push(t);
                i = i + 4;
                proof {
                    assert(spec_lex_from(src@, start) == seq![t] + spec_lex_from(src@, i as int));
                    lemma_step(prev, t, spec_lex_from(src@, i as int), tokens@);
                }
            } else {
                let m3 = match_mnemonic3(src, i, n);
                if let Some(t) = m3 {
                    tokens.push(t);
                    i = i + 3;
                    proof {
                        assert(spec_lex_from(src@, start) == seq![t] + spec_lex_from(
                            src@,
                            i as int,
                        ));
                        lemma_step(prev, t, spec_lex_from(src@, i as int), tokens@);
                    }
                } else {
                    let m2 = match_mnemonic2(src, i, n);
                    if let Some(t) = m2 {
                        tokens.push(t);
                        i = i + 2;
                        proof {
                            assert(spec_lex_from(src@, start) == seq![t] + spec_lex_from(
                                src@,
                                i as int,
                            ));
                            lemma_step(prev, t, spec_lex_from(src@, i as int), tokens@);
                        }
                    } else if is_hex_digit_char(c) {
                        let t = Token::Operand(hex_value(c));
                        tokens.push(t);
                        i = i + 1;
                        proof {
                            assert(spec_lex_from(src@, start) == seq![t] + spec_lex_from(
                                src@,
                                i as int,
                            ));
                            lemma_step(prev, t, spec_lex_from(src@, i as int), tokens@);
                        }
                    } else {
                        i = i + 1;
                        proof {
                            assert(spec_lex_from(src@, start) == spec_lex_from(src@, i as int));
                        }
                    }
                }
            }
        }
    }
    proof {
        assert(spec_lex_from(src@, n as int) =~= Seq::<Token>::empty());
        assert(tokens@ + spec_lex_from(src@, n as int) =~= tokens@);
        lemma_lex_from_encodable(src@, 0);
    }
    tokens
}

/// Rebracketing one lexing step: emitting token `t` and going on with the
/// rest of the source extends the output by exactly that token.
proof fn lemma_step(prev: Seq<Token>, t: Token, rest: Seq<Token>, now: Seq<Token>)
    requires
        now == prev.push(t),
    ensures
        prev + (seq![t] + rest) == now + rest,
{
    assert(prev + (seq![t] + rest) =~= now + rest);
}

} // verus!
