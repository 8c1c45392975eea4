//! A declarative lexer engine.
//!
//! A token declaration lists, in order, the token patterns (each a literal or
//! a regular expression, optionally with a continuation hook) followed by the
//! skip patterns. The declaration compiles into a single anchored dense DFA
//! (built by `regex_automata`) configured to report all accepting patterns,
//! so that the scan step can select the longest match and break ties by
//! declaration order. A compiled lexer hands out restartable iterators that
//! yield `(start, pattern, end)` triples or a lexical error at a byte offset.

use vstd::prelude::*;

pub mod dfa;
pub mod scan;
pub mod decl;
pub mod hooks;
pub mod lexer;
pub mod laws;

pub use scan::dfa_search_next;

verus! {

/// A lexical error: the byte offset at which no pattern matched or a
/// continuation hook refused the match.
#[derive(Debug, Clone, Copy, PartialEq, Eq, Structural)]
pub struct Error(pub usize);

/// A type of tokens that can be produced from a borrowed input buffer.
///
/// The engine itself lexes through [`lexer::CompiledLexer`]; this trait is the
/// surface a client token type offers its own callers, where `Tokens` is some
/// stream of `Result<(usize, Self, usize), Error>` items.
pub trait Lexer<'a>: Sized {
    type Tokens;

    fn lex(input: &'a [u8]) -> Self::Tokens;
}

} // verus!
