//! Lexical analysis for a small programming language.
//!
//! Source text is treated as a byte sequence with single-byte character
//! semantics. A [`lexer::Lexer`] is built over an owned input buffer and
//! hands out one classified [`token::Token`] per call to `next_token`,
//! ending in an end-of-input token that repeats forever. Tokens carry only
//! spans into the original input; the text itself is recovered with
//! [`lexer::Lexer::extract`].
//!
//! The mathematical model the engine is verified against lives in [`scan`];
//! what holds of whole token streams — termination, the end-of-input fixed
//! point, keyword exactness, numeric boundaries, and the whitespace-skip
//! round trip — is proved in [`stream`].

pub mod lexer;
pub mod scan;
pub mod stream;
pub mod token;
