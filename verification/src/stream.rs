//! Properties of the whole token stream.
//!
//! [`stream_from`] names every token that repeated scanning emits before the
//! end-of-input token. The proof functions here state what holds of that
//! stream: it is finite, end-of-input is a fixed point, keyword lookup is
//! exact, numeric runs stop exactly at the first byte that cannot extend
//! them, and concatenating the bytes every token covers gives back the input
//! with the skipped whitespace removed.

use vstd::prelude::*;

use crate::scan::{
    byte_at, digits_end, is_digit, is_whitespace, keyword_kind, kw_fn, kw_let, kw_return,
    lemma_run_end, lemma_scan_progress, scan, ws_end,
};
use crate::token::{Token, TokenKind};

verus! {

/// The kind and span offsets of each token in a sequence, in order, stated
/// as the scan model's triples.
pub open spec fn token_triples(ts: Seq<Token>) -> Seq<(TokenKind, int, int)> {
    ts.map(|i: int, t: Token| (t.kind, t.span.0 as int, t.span.0 as int + t.span.1 as int))
}

/// Every token scanning emits from `pos` on, in order, each as its kind with
/// the start and end offsets of its span; the trailing end-of-input token is
/// not listed.
pub open spec fn stream_from(input: Seq<u8>, pos: int) -> Seq<(TokenKind, int, int)>
    decreases input.len() - pos,
    when 0 <= pos <= input.len()
    via stream_from_decreases
{
    let (k, s, e) = scan(input, pos);
    if k == TokenKind::Eof {
        seq![]
    } else {
        seq![(k, s, e)] + stream_from(input, e)
    }
}

#[via_fn]
proof fn stream_from_decreases(input: Seq<u8>, pos: int) {
    lemma_scan_progress(input, pos);
}

/// The offset at which scanning from `pos` reports end-of-input: where the
/// cursor finally stands, never to move again.
pub open spec fn eof_pos(input: Seq<u8>, pos: int) -> int
    decreases input.len() - pos,
    when 0 <= pos <= input.len()
    via eof_pos_decreases
{
    let (k, s, e) = scan(input, pos);
    if k == TokenKind::Eof {
        s
    } else {
        eof_pos(input, e)
    }
}

#[via_fn]
proof fn eof_pos_decreases(input: Seq<u8>, pos: int) {
    lemma_scan_progress(input, pos);
}

/// Concatenation, in stream order, of the bytes each emitted token's span
/// covers: what extracting every token and joining the pieces yields.
pub open spec fn cat_from(input: Seq<u8>, pos: int) -> Seq<u8>
    decreases input.len() - pos,
    when 0 <= pos <= input.len()
    via cat_from_decreases
{
    let (k, s, e) = scan(input, pos);
    if k == TokenKind::Eof {
        seq![]
    } else {
        input.subrange(s, e) + cat_from(input, e)
    }
}

#[via_fn]
proof fn cat_from_decreases(input: Seq<u8>, pos: int) {
    lemma_scan_progress(input, pos);
}

/// `s` with every whitespace byte removed, the rest in original order.
pub open spec fn non_ws(s: Seq<u8>) -> Seq<u8>
    decreases s.len(),
{
    if s.len() == 0 {
        seq![]
    } else if is_whitespace(s[0]) {
        non_ws(s.drop_first())
    } else {
        seq![s[0]] + non_ws(s.drop_first())
    }
}

/// No byte inside the given token's span is whitespace.
pub open spec fn span_ws_free(input: Seq<u8>, tok: (TokenKind, int, int)) -> bool {
    forall|j: int| tok.1 <= j < tok.2 ==> !is_whitespace(byte_at(input, j))
}

/// No whitespace byte lies inside any emitted token's span. Only a quoted
/// string literal can cover whitespace, so this says exactly: no string
/// literal in the stream contains a whitespace byte.
pub open spec fn tokens_ws_free(input: Seq<u8>, pos: int) -> bool {
    forall|i: int|
        0 <= i < stream_from(input, pos).len() ==> span_ws_free(
            input,
            #[trigger] stream_from(input, pos)[i],
        )
}

/// Repeatedly scanning terminates: from any position the stream holds at
/// most one token per remaining input byte, so finitely many calls reach
/// end-of-input, whatever the input.
pub proof fn lemma_stream_finite(input: Seq<u8>, pos: int)
    requires
        0 <= pos <= input.len(),
    ensures
        stream_from(input, pos).len() <= input.len() - pos,
    decreases input.len() - pos,
{
    lemma_scan_progress(input, pos);
    let (k, s, e) = scan(input, pos);
    if k != TokenKind::Eof {
        lemma_stream_finite(input, e);
    }
}

/// Every span in the stream fits the input: each emitted token starts no
/// earlier than scanning began, covers at least one byte, and ends within
/// the input; and the end-of-input token never appears among them.
pub proof fn lemma_stream_spans_in_bounds(input: Seq<u8>, pos: int)
    requires
        0 <= pos <= input.len(),
    ensures
        forall|i: int|
            0 <= i < stream_from(input, pos).len() ==> {
                let (k, s, e) = #[trigger] stream_from(input, pos)[i];
                pos <= s < e <= input.len() && k != TokenKind::Eof
            },
    decreases input.len() - pos,
{
    lemma_scan_progress(input, pos);
    let (k, s, e) = scan(input, pos);
    if k != TokenKind::Eof {
        lemma_stream_spans_in_bounds(input, e);
        assert forall|i: int| 0 <= i < stream_from(input, pos).len() implies {
            let (ki, si, ei) = #[trigger] stream_from(input, pos)[i];
            pos <= si < ei <= input.len() && ki != TokenKind::Eof
        } by {
            if i > 0 {
                assert(stream_from(input, pos)[i] == stream_from(input, e)[i - 1]);
            }
        }
    }
}

/// End-of-input is a fixed point: once a scan reports it, its span is empty,
/// and scanning again from the position it leaves reports end-of-input at
/// the very same span, forever.
pub proof fn lemma_eof_idempotent(input: Seq<u8>, pos: int)
    requires
        0 <= pos <= input.len(),
        scan(input, pos).0 == TokenKind::Eof,
    ensures
        scan(input, pos).1 == scan(input, pos).2,
        scan(input, scan(input, pos).2) == scan(input, pos),
{
    lemma_scan_progress(input, pos);
    let s = scan(input, pos).1;
    lemma_run_end(input, pos, |b: u8| is_whitespace(b));
    assert(byte_at(input, s) == 0);
    assert(ws_end(input, s) == s);
}

/// The keyword table matches whole spellings, case-sensitively: a reserved
/// word's exact spelling gets that word's kind and never the generic
/// identifier kind, and every other spelling — a prefix, a different case,
/// anything else — is a generic identifier.
pub proof fn lemma_keyword_precedence(s: Seq<u8>)
    ensures
        keyword_kind(s) == TokenKind::Fn <==> s == kw_fn(),
        keyword_kind(s) == TokenKind::Let <==> s == kw_let(),
        keyword_kind(s) == TokenKind::Return <==> s == kw_return(),
        keyword_kind(s) == TokenKind::Ident <==> (s != kw_fn() && s != kw_let() && s
            != kw_return()),
{
    assert(kw_fn().len() == 2);
    assert(kw_let().len() == 3);
    assert(kw_return().len() == 6);
}

/// A token that starts with a digit is an integer or float literal, and its
/// runs stop exactly where they must: the digit run ends just before the
/// first non-digit byte; a dot there, and only a dot, commits the token to a
/// float, whose fractional digit run (possibly empty) then ends the same
/// way; and the byte just past the token, if any, is never a digit.
pub proof fn lemma_numeric_token(input: Seq<u8>, pos: int)
    requires
        0 <= pos <= input.len(),
        is_digit(byte_at(input, ws_end(input, pos))),
    ensures
        ({
            let (k, s, e) = scan(input, pos);
            let d = digits_end(input, s + 1);
            &&& s == ws_end(input, pos)
            &&& k == TokenKind::Int || k == TokenKind::Float
            &&& (k == TokenKind::Float <==> byte_at(input, d) == 46)
            &&& (k == TokenKind::Int ==> e == d)
            &&& (k == TokenKind::Float ==> e == digits_end(input, d + 1) && d < e)
            &&& forall|j: int| s <= j < d ==> is_digit(byte_at(input, j))
            &&& (k == TokenKind::Float ==> forall|j: int|
                d + 1 <= j < e ==> is_digit(byte_at(input, j)))
            &&& !is_digit(byte_at(input, e))
            &&& (k == TokenKind::Int ==> byte_at(input, e) != 46)
        }),
{
    lemma_run_end(input, pos, |b: u8| is_whitespace(b));
    let s = ws_end(input, pos);
    lemma_run_end(input, s + 1, |b: u8| is_digit(b));
    let d = digits_end(input, s + 1);
    if byte_at(input, d) == 46 {
        lemma_run_end(input, d + 1, |b: u8| is_digit(b));
    }
}

/// Removing whitespace distributes over concatenation.
proof fn lemma_non_ws_concat(a: Seq<u8>, b: Seq<u8>)
    ensures
        non_ws(a + b) == non_ws(a) + non_ws(b),
    decreases a.len(),
{
    if a.len() == 0 {
        assert(a + b =~= b);
        assert(non_ws(a) + non_ws(b) =~= non_ws(b));
    } else {
        assert((a + b).drop_first() =~= a.drop_first() + b);
        lemma_non_ws_concat(a.drop_first(), b);
        assert((a + b)[0] == a[0]);
        if !is_whitespace(a[0]) {
            assert(seq![a[0]] + (non_ws(a.drop_first()) + non_ws(b)) =~= (seq![a[0]] + non_ws(
                a.drop_first(),
            )) + non_ws(b));
        }
    }
}

/// A sequence of nothing but whitespace vanishes entirely.
proof fn lemma_non_ws_all_ws(a: Seq<u8>)
    requires
        forall|i: int| 0 <= i < a.len() ==> is_whitespace(a[i]),
    ensures
        non_ws(a) == Seq::<u8>::empty(),
    decreases a.len(),
{
    if a.len() == 0 {
        assert(non_ws(a) =~= Seq::<u8>::empty());
    } else {
        assert forall|i: int| 0 <= i < a.drop_first().len() implies is_whitespace(
            a.drop_first()[i],
        ) by {
            assert(a.drop_first()[i] == a[i + 1]);
        }
        lemma_non_ws_all_ws(a.drop_first());
    }
}

/// A sequence with no whitespace byte is left untouched.
proof fn lemma_non_ws_no_ws(a: Seq<u8>)
    requires
        forall|i: int| 0 <= i < a.len() ==> !is_whitespace(a[i]),
    ensures
        non_ws(a) == a,
    decreases a.len(),
{
    if a.len() == 0 {
        assert(non_ws(a) =~= a);
    } else {
        assert forall|i: int| 0 <= i < a.drop_first().len() implies !is_whitespace(
            a.drop_first()[i],
        ) by {
            assert(a.drop_first()[i] == a[i + 1]);
        }
        lemma_non_ws_no_ws(a.drop_first());
        assert(seq![a[0]] + a.drop_first() =~= a);
    }
}

/// The inductive heart of the round trip: from any position, the
/// concatenated token bytes equal the rest of the input with whitespace
/// removed, provided no token covers a whitespace byte and the scan reaches
/// the end of the input.
proof fn lemma_cat_from(input: Seq<u8>, pos: int)
    requires
        0 <= pos <= input.len(),
        tokens_ws_free(input, pos),
        eof_pos(input, pos) == input.len(),
    ensures
        cat_from(input, pos) == non_ws(input.subrange(pos, input.len() as int)),
    decreases input.len() - pos,
{
    lemma_scan_progress(input, pos);
    lemma_run_end(input, pos, |b: u8| is_whitespace(b));
    let (k, s, e) = scan(input, pos);
    let tail = input.subrange(pos, input.len() as int);
    if k == TokenKind::Eof {
        assert(s == input.len());
        assert forall|i: int| 0 <= i < tail.len() implies is_whitespace(tail[i]) by {
            assert(tail[i] == input[pos + i]);
        }
        lemma_non_ws_all_ws(tail);
    } else {
        let a = input.subrange(pos, s);
        let b = input.subrange(s, e);
        let c = input.subrange(e, input.len() as int);
        assert(tail =~= a + (b + c));
        lemma_non_ws_concat(a, b + c);
        lemma_non_ws_concat(b, c);
        assert forall|i: int| 0 <= i < a.len() implies is_whitespace(a[i]) by {
            assert(a[i] == input[pos + i]);
        }
        lemma_non_ws_all_ws(a);
        assert(stream_from(input, pos) == seq![(k, s, e)] + stream_from(input, e));
        assert(span_ws_free(input, stream_from(input, pos)[0]));
        assert forall|i: int| 0 <= i < b.len() implies !is_whitespace(b[i]) by {
            assert(b[i] == byte_at(input, s + i));
        }
        lemma_non_ws_no_ws(b);
        assert forall|i: int|
            0 <= i < stream_from(input, e).len() implies span_ws_free(
            input,
            #[trigger] stream_from(input, e)[i],
        ) by {
            assert(stream_from(input, e)[i] == stream_from(input, pos)[i + 1]);
        }
        lemma_cat_from(input, e);
        assert(non_ws(tail) =~= b + non_ws(c));
        assert(cat_from(input, pos) == b + non_ws(c));
    }
}

/// Whitespace-skip round trip: extracting every emitted token's bytes and
/// concatenating them, in stream order, reproduces the input with the
/// skipped whitespace removed — every non-whitespace byte survives, in its
/// original order. The two premises name exactly the inputs on which this
/// can fail: a string literal covering a whitespace byte (its span keeps
/// bytes the filter would drop), and a NUL byte outside a string literal
/// (it halts the scan before the end, leaving later bytes uncovered).
pub proof fn lemma_whitespace_round_trip(input: Seq<u8>)
    requires
        tokens_ws_free(input, 0),
        eof_pos(input, 0) == input.len(),
    ensures
        cat_from(input, 0) == non_ws(input),
{
    lemma_cat_from(input, 0);
    assert(input.subrange(0, input.len() as int) =~= input);
}

} // verus!
