use vstd::prelude::*;

verus! {

/// A zero-copy reference to a substring of the source input: the byte offset
/// where the substring starts, and its length in bytes.
#[derive(Debug, Clone, Copy, PartialEq, Eq, Structural)]
pub struct Span(pub usize, pub usize);

impl Span {
    pub fn new(pos: usize, len: usize) -> (s: Span)
        ensures
            s.0 == pos,
            s.1 == len,
    {
        Span(pos, len)
    }

    /// Byte offset of the first byte the span covers.
    pub fn pos(&self) -> (p: usize)
        ensures
            p == self.0,
    {
        self.0
    }

    /// Number of bytes the span covers.
    pub fn len(&self) -> (l: usize)
        ensures
            l == self.1,
    {
        self.1
    }
}

/// The closed set of token categories the scanner can emit.
#[derive(Debug, Clone, Copy, PartialEq, Eq, Structural)]
pub enum TokenKind {
    /// A single byte that matches no lexical rule.
    Illegal,
    /// End of input; repeats on every further call.
    Eof,

    Ident,
    Int,
    Float,
    String,

    Assign,
    Plus,
    Minus,

    Comma,
    Semicolon,

    LParan,
    RParan,
    LBrace,
    RBrace,

    Let,
    Fn,
    Return,
}

/// One classified unit of lexical meaning: a kind together with the span of
/// the source text it covers. A token never owns text.
#[derive(Debug, Clone, Copy, PartialEq, Eq, Structural)]
pub struct Token {
    pub kind: TokenKind,
    pub span: Span,
}

} // verus!
