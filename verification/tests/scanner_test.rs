use monkey::lexer::Lexer;
use monkey::token::{Span, TokenKind};

fn kinds_and_texts(input: &str) -> Vec<(TokenKind, Vec<u8>)> {
    let mut l = Lexer::new(input.to_string());
    let mut out = Vec::new();
    loop {
        let t = l.next_token();
        out.push((t.kind, l.extract(t.span).to_vec()));
        if t.kind == TokenKind::Eof {
            return out;
        }
    }
}

#[test]
fn numeric_boundaries() {
    assert_eq!(
        kinds_and_texts("4."),
        vec![(TokenKind::Float, b"4.".to_vec()), (TokenKind::Eof, b"".to_vec())]
    );
    assert_eq!(
        kinds_and_texts("42.0"),
        vec![(TokenKind::Float, b"42.0".to_vec()), (TokenKind::Eof, b"".to_vec())]
    );
    assert_eq!(
        kinds_and_texts("123"),
        vec![(TokenKind::Int, b"123".to_vec()), (TokenKind::Eof, b"".to_vec())]
    );
    // a non-digit, non-dot byte ends the run exactly before itself
    assert_eq!(
        kinds_and_texts("12abc"),
        vec![
            (TokenKind::Int, b"12".to_vec()),
            (TokenKind::Ident, b"abc".to_vec()),
            (TokenKind::Eof, b"".to_vec()),
        ]
    );
    assert_eq!(
        kinds_and_texts("7+8"),
        vec![
            (TokenKind::Int, b"7".to_vec()),
            (TokenKind::Plus, b"+".to_vec()),
            (TokenKind::Int, b"8".to_vec()),
            (TokenKind::Eof, b"".to_vec()),
        ]
    );
}

#[test]
fn string_literal_spans_quotes() {
    let mut l = Lexer::new("\"ok\"".to_string());
    let t = l.next_token();
    assert_eq!(t.kind, TokenKind::String);
    assert_eq!(l.extract(t.span), b"\"ok\"");
    assert_eq!(l.next_token().kind, TokenKind::Eof);
}

#[test]
fn unterminated_string_consumes_to_end() {
    let mut l = Lexer::new("\"abc".to_string());
    let t = l.next_token();
    assert_eq!(t.kind, TokenKind::String);
    assert_eq!(l.extract(t.span), b"\"abc");
    assert_eq!(l.next_token().kind, TokenKind::Eof);
}

#[test]
fn eof_repeats_with_unchanged_span() {
    for input in ["", "   \t\n\r ", "let x"] {
        let mut l = Lexer::new(input.to_string());
        let mut t = l.next_token();
        while t.kind != TokenKind::Eof {
            t = l.next_token();
        }
        let first_eof = t;
        for _ in 0..5 {
            let again = l.next_token();
            assert_eq!(again.kind, TokenKind::Eof);
            assert_eq!(again.span.pos(), first_eof.span.pos());
            assert_eq!(again.span.len(), 0);
        }
    }
}

#[test]
fn keywords_are_case_sensitive() {
    assert_eq!(
        kinds_and_texts("Fn fN fn"),
        vec![
            (TokenKind::Ident, b"Fn".to_vec()),
            (TokenKind::Ident, b"fN".to_vec()),
            (TokenKind::Fn, b"fn".to_vec()),
            (TokenKind::Eof, b"".to_vec()),
        ]
    );
    // prefixes and extensions of reserved words are plain identifiers
    assert_eq!(
        kinds_and_texts("le lets return1 _fn"),
        vec![
            (TokenKind::Ident, b"le".to_vec()),
            (TokenKind::Ident, b"lets".to_vec()),
            (TokenKind::Ident, b"return1".to_vec()),
            (TokenKind::Ident, b"_fn".to_vec()),
            (TokenKind::Eof, b"".to_vec()),
        ]
    );
}

#[test]
fn illegal_bytes_keep_the_stream_moving() {
    assert_eq!(
        kinds_and_texts("@#"),
        vec![
            (TokenKind::Illegal, b"@".to_vec()),
            (TokenKind::Illegal, b"#".to_vec()),
            (TokenKind::Eof, b"".to_vec()),
        ]
    );
}

#[test]
fn concatenated_extracts_drop_only_whitespace() {
    let input = "let x = 5 ;\t\"ab\"\n12.5 @";
    let mut l = Lexer::new(input.to_string());
    let mut joined = Vec::new();
    loop {
        let t = l.next_token();
        if t.kind == TokenKind::Eof {
            break;
        }
        joined.extend_from_slice(l.extract(t.span));
    }
    let expected: Vec<u8> =
        input.bytes().filter(|b| !b" \t\n\x0C\r".contains(b)).collect();
    assert_eq!(joined, expected);
}

#[test]
fn lookahead_reads_without_moving() {
    let l = Lexer::new("ab".to_string());
    assert_eq!(l.look_ahead(0), b'a');
    assert_eq!(l.peek(), b'b');
    assert_eq!(l.look_ahead(2), 0);
    assert_eq!(l.look_ahead(100), 0);
}

#[test]
fn read_char_advances_and_pins_at_end() {
    let mut l = Lexer::new("a".to_string());
    assert_eq!(l.look_ahead(0), b'a');
    l.read_char();
    assert_eq!(l.look_ahead(0), 0);
    l.read_char();
    l.read_char();
    assert_eq!(l.look_ahead(0), 0);
    assert_eq!(l.next_token().kind, TokenKind::Eof);
}

#[test]
fn span_accessors() {
    let s = Span::new(3, 4);
    assert_eq!(s.pos(), 3);
    assert_eq!(s.len(), 4);
    let empty = Span::new(7, 0);
    assert_eq!(empty.pos(), 7);
    assert_eq!(empty.len(), 0);
}

#[test]
fn nul_byte_reads_as_end_of_input() {
    // the sentinel design: a real NUL byte outside a string pins the scanner
    let mut l = Lexer::new("a\u{0}b".to_string());
    let t = l.next_token();
    assert_eq!(t.kind, TokenKind::Ident);
    assert_eq!(l.extract(t.span), b"a");
    let e1 = l.next_token();
    assert_eq!(e1.kind, TokenKind::Eof);
    assert_eq!(e1.span.pos(), 1);
    let e2 = l.next_token();
    assert_eq!(e2.kind, TokenKind::Eof);
    assert_eq!(e2.span.pos(), 1);
}

#[test]
fn mixed_whitespace_variants_are_skipped_alike() {
    let input = "fn\u{0C}let\n return\r\t4.5";
    assert_eq!(
        kinds_and_texts(input),
        vec![
            (TokenKind::Fn, b"fn".to_vec()),
            (TokenKind::Let, b"let".to_vec()),
            (TokenKind::Return, b"return".to_vec()),
            (TokenKind::Float, b"4.5".to_vec()),
            (TokenKind::Eof, b"".to_vec()),
        ]
    );
}

#[test]
fn string_may_contain_whitespace_and_operators() {
    let mut l = Lexer::new("x = \"a + b\";".to_string());
    let mut check = |k: TokenKind, v: &[u8]| {
        let t = l.next_token();
        assert_eq!(k, t.kind);
        assert_eq!(v, l.extract(t.span));
    };
    check(TokenKind::Ident, b"x");
    check(TokenKind::Assign, b"=");
    check(TokenKind::String, b"\"a + b\"");
    check(TokenKind::Semicolon, b";");
    check(TokenKind::Eof, b"");
}

#[test]
fn single_statement_token_sequence() {
    assert_eq!(
        kinds_and_texts("let add = fn(x, y) { x + y };"),
        vec![
            (TokenKind::Let, b"let".to_vec()),
            (TokenKind::Ident, b"add".to_vec()),
            (TokenKind::Assign, b"=".to_vec()),
            (TokenKind::Fn, b"fn".to_vec()),
            (TokenKind::LParan, b"(".to_vec()),
            (TokenKind::Ident, b"x".to_vec()),
            (TokenKind::Comma, b",".to_vec()),
            (TokenKind::Ident, b"y".to_vec()),
            (TokenKind::RParan, b")".to_vec()),
            (TokenKind::LBrace, b"{".to_vec()),
            (TokenKind::Ident, b"x".to_vec()),
            (TokenKind::Plus, b"+".to_vec()),
            (TokenKind::Ident, b"y".to_vec()),
            (TokenKind::RBrace, b"}".to_vec()),
            (TokenKind::Semicolon, b";".to_vec()),
            (TokenKind::Eof, b"".to_vec()),
        ]
    );
}

#[test]
fn tokenize_collects_whole_stream() {
    let mut l = Lexer::new("let x = 1;".to_string());
    let ts = l.tokenize();
    let kinds: Vec<monkey::token::TokenKind> = ts.iter().map(|t| t.kind).collect();
    assert_eq!(
        kinds,
        vec![
            TokenKind::Let,
            TokenKind::Ident,
            TokenKind::Assign,
            TokenKind::Int,
            TokenKind::Semicolon,
        ]
    );
    // the session now stands at end-of-input
    assert_eq!(l.next_token().kind, TokenKind::Eof);

    let mut empty = Lexer::new("".to_string());
    assert_eq!(empty.tokenize().len(), 0);
}
