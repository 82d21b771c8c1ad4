//! The executable scanning engine: a byte cursor over an owned input buffer
//! and the `next_token` dispatcher built on it.
//!
//! Every method is verified against the specification-level model in
//! [`crate::scan`]: `next_token` returns exactly the token that
//! [`crate::scan::scan`] names for the cursor's position, and leaves the
//! cursor at that token's end.

use vstd::prelude::*;
use vstd::slice::{slice_subrange, slice_to_vec};
use vstd::utf8::encode_utf8;

use crate::scan::{
    byte_at, digits_end, ident_end, is_digit, is_ident_cont, is_ident_start, is_whitespace,
    keyword_kind, kw_fn, kw_let, kw_return, lemma_run_end, lemma_run_end_step, non_quote_end,
    lemma_scan_progress, scan, string_end, ws_end,
};
use crate::stream::{eof_pos, stream_from, token_triples};
use crate::token::{Span, Token, TokenKind};

verus! {

/// Where the cursor lands after advancing one byte from `pos`: the next
/// position while one exists, pinned at the end of the input thereafter.
pub open spec fn advanced(input: Seq<u8>, pos: int) -> int {
    if pos + 1 < input.len() {
        pos + 1
    } else {
        input.len() as int
    }
}

/// A lexing session: the owned input and a byte-at-a-time cursor over it.
pub struct Lexer {
    input: Vec<u8>,
    pos: usize,
    read_pos: usize,
    ch: u8,
}

impl Lexer {
    /// The input this session owns, as the byte sequence the scanner reads.
    pub closed spec fn bytes(&self) -> Seq<u8> {
        self.input@
    }

    /// The cursor's current byte offset into the input.
    pub closed spec fn position(&self) -> int {
        self.pos as int
    }

    /// The byte under the cursor, or the sentinel 0 once the input is
    /// exhausted.
    pub closed spec fn cur(&self) -> u8 {
        self.ch
    }

    /// Cursor well-formedness: the position never passes the end of the
    /// input, the cached current byte is exactly the byte at the position
    /// (sentinel 0 past the end), and the read position is one ahead of the
    /// position while bytes remain.
    pub closed spec fn wf(&self) -> bool {
        &&& self.pos <= self.input@.len()
        &&& self.ch == byte_at(self.input@, self.pos as int)
        &&& (self.pos < self.input@.len() ==> self.read_pos == self.pos + 1)
        &&& (self.pos == self.input@.len() ==> self.read_pos >= self.input@.len())
    }

    /// Open a session over an owned text buffer. The scanner works on the
    /// buffer's bytes (its UTF-8 encoding), starting at offset 0.
    pub fn new(input: String) -> (l: Lexer)
        ensures
            l.wf(),
            l.bytes() == encode_utf8(input@),
            l.position() == 0,
    {
        let bytes = slice_to_vec(input.as_str().as_bytes());
        let ch = if bytes.len() > 0 {
            bytes[0]
        } else {
            0
        };
        Lexer { input: bytes, pos: 0, read_pos: 1, ch }
    }

    /// Advance the cursor one byte: if a byte exists at the read position it
    /// becomes the current byte; otherwise the current byte becomes the
    /// sentinel 0 and the position pins at the end of the input. Always safe
    /// to call, however far past the end.
    pub fn read_char(&mut self)
        requires
            old(self).wf(),
        ensures
            final(self).wf(),
            final(self).bytes() == old(self).bytes(),
            final(self).position() == advanced(old(self).bytes(), old(self).position()),
    {
        if self.read_pos < self.input.len() {
            self.ch = self.input[self.read_pos];
            self.pos = self.read_pos;
            self.read_pos = self.read_pos + 1;
        } else {
            self.ch = 0;
            self.pos = self.input.len();
            self.read_pos = self.read_pos.saturating_add(1);
        }
    }

    /// The byte one position ahead of the current byte, without moving the
    /// cursor; the sentinel 0 when no such byte exists.
    pub fn peek(&self) -> (b: u8)
        requires
            self.wf(),
        ensures
            b == byte_at(self.bytes(), self.position() + 1),
    {
        self.look_ahead(1)
    }

    /// The byte `n` positions ahead of the cursor (`n == 0` is the current
    /// byte), without moving the cursor; the sentinel 0 when out of range.
    pub fn look_ahead(&self, n: usize) -> (b: u8)
        requires
            self.wf(),
        ensures
            b == byte_at(self.bytes(), self.position() + n),
    {
        if self.pos < self.input.len() && n < self.input.len() - self.pos {
            self.input[self.pos + n]
        } else {
            0
        }
    }

    /// Advance the cursor past every whitespace byte under it.
    pub fn skip_whitespace(&mut self)
        requires
            old(self).wf(),
        ensures
            final(self).wf(),
            final(self).bytes() == old(self).bytes(),
            final(self).position() == ws_end(old(self).bytes(), old(self).position()),
    {
        let ghost input0 = self.input@;
        let ghost pos0 = self.pos as int;
        while self.ch == 32 || self.ch == 9 || self.ch == 10 || self.ch == 12 || self.ch == 13
            invariant
                self.wf(),
                self.input@ == input0,
                pos0 <= self.pos as int,
                ws_end(input0, pos0) == ws_end(input0, self.pos as int),
            decreases input0.len() - self.pos,
        {
            proof {
                lemma_run_end_step(input0, self.pos as int, |b: u8| is_whitespace(b));
            }
            self.read_char();
        }
    }

    /// Produce the next token: skip whitespace, classify what starts at the
    /// cursor, and leave the cursor one byte past the token (unchanged for
    /// end-of-input). This is exactly the token the specification-level
    /// [`scan`] names, so the span always fits the input, a non-end token
    /// moves the cursor strictly forward, and the end-of-input token is
    /// empty and repeats on every further call.
    pub fn next_token(&mut self) -> (t: Token)
        requires
            old(self).wf(),
        ensures
            final(self).wf(),
            final(self).bytes() == old(self).bytes(),
            ({
                let (kind, start, end) = scan(old(self).bytes(), old(self).position());
                &&& t.kind == kind
                &&& t.span.0 == start
                &&& t.span.0 + t.span.1 == end
                &&& final(self).position() == end
            }),
            t.span.0 + t.span.1 <= old(self).bytes().len(),
            t.kind != TokenKind::Eof ==> old(self).position() < final(self).position(),
            t.kind == TokenKind::Eof ==> t.span.1 == 0 && final(self).position() == t.span.0,
    {
        self.skip_whitespace();

        let ghost input0 = self.input@;
        proof {
            lemma_run_end(input0, old(self).pos as int, |b: u8| is_whitespace(b));
            lemma_scan_progress(input0, old(self).pos as int);
        }
        let start = self.pos;

        let mut t = Token { kind: TokenKind::Illegal, span: Span::new(start, 1) };

        match self.ch {
            61 => t.kind = TokenKind::Assign,  // '='
            43 => t.kind = TokenKind::Plus,  // '+'
            45 => t.kind = TokenKind::Minus,  // '-'
            44 => t.kind = TokenKind::Comma,  // ','
            59 => t.kind = TokenKind::Semicolon,  // ';'
            40 => t.kind = TokenKind::LParan,  // '('
            41 => t.kind = TokenKind::RParan,  // ')'
            123 => t.kind = TokenKind::LBrace,  // '{'
            125 => t.kind = TokenKind::RBrace,  // '}'
            34 => {  // '"'
                return self.read_string();
            },
            0 => {
                t.kind = TokenKind::Eof;
                t.span = Span::new(start, 0);
                return t;
            },
            _ => {
                // letter or underscore
                if (97 <= self.ch && self.ch <= 122) || (65 <= self.ch && self.ch <= 90)
                    || self.ch == 95 {
                    let span = self.read_identifier();
                    let text = self.extract(span);
                    t.kind = lookup_ident(text);
                    t.span = span;
                    return t;
                } else if 48 <= self.ch && self.ch <= 57 {  // digit
                    return self.read_number();
                }
            },
        }

        self.read_char();

        t
    }

    /// Pull tokens until end-of-input and collect them, in order; the
    /// end-of-input token itself is not kept. The loop provably terminates
    /// on every input, and the tokens collected are exactly the stream that
    /// [`stream_from`] names for the starting position.
    pub fn tokenize(&mut self) -> (ts: Vec<Token>)
        requires
            old(self).wf(),
        ensures
            final(self).wf(),
            final(self).bytes() == old(self).bytes(),
            final(self).position() == eof_pos(old(self).bytes(), old(self).position()),
            token_triples(ts@) == stream_from(old(self).bytes(), old(self).position()),
    {
        let ghost input0 = self.input@;
        let ghost pos0 = self.pos as int;
        let mut ts: Vec<Token> = Vec::new();
        loop
            invariant
                self.wf(),
                self.input@ == input0,
                input0 == old(self).bytes(),
                pos0 == old(self).position(),
                0 <= pos0 <= input0.len(),
                eof_pos(input0, pos0) == eof_pos(input0, self.pos as int),
                stream_from(input0, pos0) == token_triples(ts@) + stream_from(
                    input0,
                    self.pos as int,
                ),
            decreases input0.len() - self.pos,
        {
            let ghost pos_before = self.pos as int;
            let ghost ts_before = ts@;
            let t = self.next_token();
            if t.kind == TokenKind::Eof {
                proof {
                    assert(stream_from(input0, pos_before) =~= Seq::<(
                        TokenKind,
                        int,
                        int,
                    )>::empty());
                    assert(token_triples(ts@) + stream_from(input0, pos_before) =~= token_triples(
                        ts@,
                    ));
                }
                return ts;
            }
            ts.push(t);
            proof {
                let (k, s, e) = scan(input0, pos_before);
                assert(token_triples(ts@) =~= token_triples(ts_before).push((k, s, e)));
                assert(token_triples(ts_before).push((k, s, e)) + stream_from(input0, e)
                    =~= token_triples(ts_before) + (seq![(k, s, e)] + stream_from(input0, e)));
            }
        }
    }

    /// Scan a quoted string: the span runs from the opening quote through
    /// the closing quote inclusive, or to the end of the input when no
    /// closing quote exists.
    fn read_string(&mut self) -> (t: Token)
        requires
            old(self).wf(),
            old(self).cur() == 34,
        ensures
            final(self).wf(),
            final(self).bytes() == old(self).bytes(),
            t.kind == TokenKind::String,
            t.span.0 == old(self).position(),
            t.span.0 + t.span.1 == string_end(old(self).bytes(), old(self).position()),
            final(self).position() == t.span.0 + t.span.1,
            t.span.0 + t.span.1 <= old(self).bytes().len(),
    {
        let ghost input0 = self.input@;
        let start = self.pos;
        proof {
            lemma_run_end(input0, start as int + 1, |b: u8| b != 34);
        }

        // past the opening quote
        self.read_char();

        while self.pos < self.input.len() && self.ch != 34  // not yet '"' nor past the end
            invariant
                self.wf(),
                self.input@ == input0,
                start as int + 1 <= self.pos as int,
                non_quote_end(input0, start as int + 1) == non_quote_end(input0, self.pos as int),
            decreases input0.len() - self.pos,
        {
            proof {
                lemma_run_end_step(input0, self.pos as int, |b: u8| b != 34);
            }
            self.read_char();
        }

        // past the closing quote, when one was found
        if self.pos < self.input.len() {
            self.read_char();
        }

        Token { kind: TokenKind::String, span: Span::new(start, self.pos - start) }
    }

    /// Scan an identifier or keyword run: the byte under the cursor, then
    /// every following alphanumeric or underscore byte.
    fn read_identifier(&mut self) -> (s: Span)
        requires
            old(self).wf(),
            is_ident_start(old(self).cur()),
        ensures
            final(self).wf(),
            final(self).bytes() == old(self).bytes(),
            s.0 == old(self).position(),
            s.0 + s.1 == ident_end(old(self).bytes(), old(self).position() + 1),
            final(self).position() == s.0 + s.1,
            s.0 + s.1 <= old(self).bytes().len(),
    {
        let ghost input0 = self.input@;
        let start = self.pos;
        proof {
            lemma_run_end(input0, start as int + 1, |b: u8| is_ident_cont(b));
        }

        // past the first byte, already classified by the caller
        self.read_char();

        // alphanumeric or underscore
        while (97 <= self.ch && self.ch <= 122) || (65 <= self.ch && self.ch <= 90)
            || (48 <= self.ch && self.ch <= 57) || self.ch == 95
            invariant
                self.wf(),
                self.input@ == input0,
                start as int + 1 <= self.pos as int,
                ident_end(input0, start as int + 1) == ident_end(input0, self.pos as int),
            decreases input0.len() - self.pos,
        {
            proof {
                lemma_run_end_step(input0, self.pos as int, |b: u8| is_ident_cont(b));
            }
            self.read_char();
        }

        Span::new(start, self.pos - start)
    }

    /// Scan a numeric literal: a digit run, and, when a `.` follows it, the
    /// `.` and a further (possibly empty) digit run. Integer kind when no
    /// `.` was consumed, float kind otherwise.
    fn read_number(&mut self) -> (t: Token)
        requires
            old(self).wf(),
            is_digit(old(self).cur()),
        ensures
            final(self).wf(),
            final(self).bytes() == old(self).bytes(),
            t.span.0 == old(self).position(),
            ({
                let e = digits_end(old(self).bytes(), old(self).position() + 1);
                if byte_at(old(self).bytes(), e) == 46 {
                    t.kind == TokenKind::Float && t.span.0 + t.span.1 == digits_end(
                        old(self).bytes(),
                        e + 1,
                    )
                } else {
                    t.kind == TokenKind::Int && t.span.0 + t.span.1 == e
                }
            }),
            final(self).position() == t.span.0 + t.span.1,
            t.span.0 + t.span.1 <= old(self).bytes().len(),
    {
        let ghost input0 = self.input@;
        let start = self.pos;
        let mut kind = TokenKind::Int;
        proof {
            lemma_run_end(input0, start as int + 1, |b: u8| is_digit(b));
        }

        // past the first digit, already classified by the caller
        self.read_char();

        while 48 <= self.ch && self.ch <= 57  // digit
            invariant
                self.wf(),
                self.input@ == input0,
                start as int + 1 <= self.pos as int,
                digits_end(input0, start as int + 1) == digits_end(input0, self.pos as int),
            decreases input0.len() - self.pos,
        {
            proof {
                lemma_run_end_step(input0, self.pos as int, |b: u8| is_digit(b));
            }
            self.read_char();
        }

        if self.ch == 46 {  // '.' commits to a float
            kind = TokenKind::Float;
            let ghost frac0 = self.pos as int + 1;
            proof {
                lemma_run_end(input0, frac0, |b: u8| is_digit(b));
            }
            self.read_char();

            while 48 <= self.ch && self.ch <= 57  // digit
                invariant
                    self.wf(),
                    self.input@ == input0,
                    start as int + 1 <= frac0 <= self.pos as int,
                    digits_end(input0, frac0) == digits_end(input0, self.pos as int),
                decreases input0.len() - self.pos,
            {
                proof {
                    lemma_run_end_step(input0, self.pos as int, |b: u8| is_digit(b));
                }
                self.read_char();
            }
        }

        Token { kind, span: Span::new(start, self.pos - start) }
    }

    /// The exact substring of this session's input that `s` denotes,
    /// zero-copy. The span must have come from this session.
    pub fn extract(&self, s: Span) -> (r: &[u8])
        requires
            s.0 + s.1 <= self.bytes().len(),
        ensures
            r@ == self.bytes().subrange(s.0 as int, s.0 + s.1),
    {
        proof {
            // the span's end is bounded by the input's length, which fits usize
            vstd::std_specs::vec::axiom_spec_len(&self.input);
        }
        slice_subrange(self.input.as_slice(), s.0, s.0 + s.1)
    }
}

/// Consult the keyword table for an identifier-shaped spelling: a reserved
/// word's exact spelling gets that word's kind, anything else the generic
/// identifier kind.
fn lookup_ident(s: &[u8]) -> (k: TokenKind)
    ensures
        k == keyword_kind(s@),
{
    if s.len() == 2 && s[0] == 102 && s[1] == 110 {  // "fn"
        proof {
            assert(s@ =~= kw_fn());
        }
        TokenKind::Fn
    } else if s.len() == 3 && s[0] == 108 && s[1] == 101 && s[2] == 116 {  // "let"
        proof {
            assert(s@ =~= kw_let());
        }
        TokenKind::Let
    // "return"
    } else if s.len() == 6 && s[0] == 114 && s[1] == 101 && s[2] == 116 && s[3] == 117
        && s[4] == 114 && s[5] == 110 {
        proof {
            assert(s@ =~= kw_return());
        }
        TokenKind::Return
    } else {
        proof {
            assert(s@ != kw_fn()) by {
                if s@ == kw_fn() {
                    assert(s@.len() == 2 && s@[0] == 102 && s@[1] == 110);
                }
            }
            assert(s@ != kw_let()) by {
                if s@ == kw_let() {
                    assert(s@.len() == 3 && s@[0] == 108 && s@[1] == 101 && s@[2] == 116);
                }
            }
            assert(s@ != kw_return()) by {
                if s@ == kw_return() {
                    assert(s@.len() == 6 && s@[0] == 114 && s@[1] == 101 && s@[2] == 116
                        && s@[3] == 117 && s@[4] == 114 && s@[5] == 110);
                }
            }
        }
        TokenKind::Ident
    }
}

} // verus!
