//! Mathematical model of the scanner.
//!
//! Everything here is specification-level: given the input as a byte
//! sequence and a position, [`scan`] says which token starts at that
//! position, which bytes it covers, and where scanning continues. The
//! executable [`crate::lexer::Lexer`] is verified against this model.

use vstd::prelude::*;

use crate::token::TokenKind;

verus! {

/// The byte at `pos`, or the sentinel 0 when `pos` lies outside the input.
/// The sentinel stands for "no byte here"; a real NUL byte in the input is
/// indistinguishable from it, as the scanner assumes source text carries no
/// meaningful NUL bytes.
pub open spec fn byte_at(input: Seq<u8>, pos: int) -> u8 {
    if 0 <= pos < input.len() {
        input[pos]
    } else {
        0
    }
}

/// ASCII whitespace: space, tab, line feed, form feed, carriage return.
pub open spec fn is_whitespace(b: u8) -> bool {
    b == 32 || b == 9 || b == 10 || b == 12 || b == 13
}

/// ASCII letter.
pub open spec fn is_alpha(b: u8) -> bool {
    (97 <= b <= 122) || (65 <= b <= 90)
}

/// ASCII decimal digit.
pub open spec fn is_digit(b: u8) -> bool {
    48 <= b <= 57
}

/// A byte that may begin an identifier or keyword run.
pub open spec fn is_ident_start(b: u8) -> bool {
    is_alpha(b) || b == 95
}

/// A byte that may continue an identifier or keyword run.
pub open spec fn is_ident_cont(b: u8) -> bool {
    is_alpha(b) || is_digit(b) || b == 95
}

/// First position at or after `pos` whose byte fails `pred`, or the end of
/// the input if every remaining byte satisfies it. This is the landing point
/// of a "consume while the predicate holds" loop.
pub open spec fn run_end(input: Seq<u8>, pos: int, pred: spec_fn(u8) -> bool) -> int
    decreases input.len() - pos,
{
    if 0 <= pos < input.len() && pred(input[pos]) {
        run_end(input, pos + 1, pred)
    } else {
        pos
    }
}

/// Where the whitespace run starting at `pos` ends.
pub open spec fn ws_end(input: Seq<u8>, pos: int) -> int {
    run_end(input, pos, |b: u8| is_whitespace(b))
}

/// Where the identifier-continuation run starting at `pos` ends.
pub open spec fn ident_end(input: Seq<u8>, pos: int) -> int {
    run_end(input, pos, |b: u8| is_ident_cont(b))
}

/// Where the digit run starting at `pos` ends.
pub open spec fn digits_end(input: Seq<u8>, pos: int) -> int {
    run_end(input, pos, |b: u8| is_digit(b))
}

/// Where the run of non-quote bytes starting at `pos` ends.
pub open spec fn non_quote_end(input: Seq<u8>, pos: int) -> int {
    run_end(input, pos, |b: u8| b != 34)
}

/// End of the quoted-string token whose opening quote stands at `pos`:
/// one past the closing quote when one exists, the end of the input
/// otherwise (an unterminated string silently consumes the rest).
pub open spec fn string_end(input: Seq<u8>, pos: int) -> int {
    let q = non_quote_end(input, pos + 1);
    if q < input.len() {
        q + 1
    } else {
        q
    }
}

/// Spelling of the `fn` keyword.
pub open spec fn kw_fn() -> Seq<u8> {
    seq![102u8, 110u8]
}

/// Spelling of the `let` keyword.
pub open spec fn kw_let() -> Seq<u8> {
    seq![108u8, 101u8, 116u8]
}

/// Spelling of the `return` keyword.
pub open spec fn kw_return() -> Seq<u8> {
    seq![114u8, 101u8, 116u8, 117u8, 114u8, 110u8]
}

/// The keyword table: an identifier-shaped spelling that exactly matches a
/// reserved word gets that word's kind; every other spelling is a generic
/// identifier. Matching is case-sensitive, byte for byte.
pub open spec fn keyword_kind(s: Seq<u8>) -> TokenKind {
    if s == kw_fn() {
        TokenKind::Fn
    } else if s == kw_let() {
        TokenKind::Let
    } else if s == kw_return() {
        TokenKind::Return
    } else {
        TokenKind::Ident
    }
}

/// The single token produced by scanning from `pos`: its kind, the offset of
/// its first byte, and the offset one past its last byte. Scanning resumes at
/// the end offset; the end-of-input token has an empty span and leaves the
/// position unchanged.
pub open spec fn scan(input: Seq<u8>, pos: int) -> (TokenKind, int, int) {
    let start = ws_end(input, pos);
    let c = byte_at(input, start);
    if c == 0 {
        (TokenKind::Eof, start, start)
    } else if c == 61 {  // '='
        (TokenKind::Assign, start, start + 1)
    } else if c == 43 {  // '+'
        (TokenKind::Plus, start, start + 1)
    } else if c == 45 {  // '-'
        (TokenKind::Minus, start, start + 1)
    } else if c == 44 {  // ','
        (TokenKind::Comma, start, start + 1)
    } else if c == 59 {  // ';'
        (TokenKind::Semicolon, start, start + 1)
    } else if c == 40 {  // '('
        (TokenKind::LParan, start, start + 1)
    } else if c == 41 {  // ')'
        (TokenKind::RParan, start, start + 1)
    } else if c == 123 {  // '{'
        (TokenKind::LBrace, start, start + 1)
    } else if c == 125 {  // '}'
        (TokenKind::RBrace, start, start + 1)
    } else if c == 34 {  // '"'
        (TokenKind::String, start, string_end(input, start))
    } else if is_ident_start(c) {
        let e = ident_end(input, start + 1);
        (keyword_kind(input.subrange(start, e)), start, e)
    } else if is_digit(c) {
        let e = digits_end(input, start + 1);
        if byte_at(input, e) == 46 {  // '.'
            (TokenKind::Float, start, digits_end(input, e + 1))
        } else {
            (TokenKind::Int, start, e)
        }
    } else {
        (TokenKind::Illegal, start, start + 1)
    }
}

/// What a "consume while" loop guarantees: the run stays within the input,
/// every byte inside it satisfies the predicate, and the byte at its end
/// (when one exists) does not.
pub proof fn lemma_run_end(input: Seq<u8>, pos: int, pred: spec_fn(u8) -> bool)
    requires
        0 <= pos <= input.len(),
    ensures
        pos <= run_end(input, pos, pred) <= input.len(),
        forall|i: int| pos <= i < run_end(input, pos, pred) ==> pred(input[i]),
        run_end(input, pos, pred) == input.len() || !pred(input[run_end(input, pos, pred)]),
    decreases input.len() - pos,
{
    if pos < input.len() && pred(input[pos]) {
        lemma_run_end(input, pos + 1, pred);
    }
}

/// Stepping over one byte that satisfies the predicate does not change where
/// the run ends: the landing point seen from `pos` and from `pos + 1` is the
/// same.
pub proof fn lemma_run_end_step(input: Seq<u8>, pos: int, pred: spec_fn(u8) -> bool)
    requires
        0 <= pos < input.len(),
        pred(input[pos]),
    ensures
        run_end(input, pos, pred) == run_end(input, pos + 1, pred),
{
}

/// Every token other than end-of-input covers at least one byte and ends
/// strictly past the position it was scanned from; no token ever extends
/// past the end of the input. Hence a stream of `next_token` calls reaches
/// end-of-input after finitely many tokens: each one consumes part of a
/// finite input.
pub proof fn lemma_scan_progress(input: Seq<u8>, pos: int)
    requires
        0 <= pos <= input.len(),
    ensures
        pos <= scan(input, pos).1 <= scan(input, pos).2 <= input.len(),
        scan(input, pos).0 != TokenKind::Eof ==> scan(input, pos).1 < scan(input, pos).2,
        scan(input, pos).0 == TokenKind::Eof ==> scan(input, pos).1 == scan(input, pos).2,
{
    let start = ws_end(input, pos);
    lemma_run_end(input, pos, |b: u8| is_whitespace(b));
    let c = byte_at(input, start);
    if c == 0 {
    } else if c == 34 {
        lemma_run_end(input, start + 1, |b: u8| b != 34);
    } else if is_ident_start(c) {
        lemma_run_end(input, start + 1, |b: u8| is_ident_cont(b));
    } else if is_digit(c) {
        let e = digits_end(input, start + 1);
        lemma_run_end(input, start + 1, |b: u8| is_digit(b));
        if byte_at(input, e) == 46 {
            lemma_run_end(input, e + 1, |b: u8| is_digit(b));
        }
    }
}

} // verus!
