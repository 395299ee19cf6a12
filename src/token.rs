//! Token kinds.
use vstd::prelude::*;

verus! {

/// The kind of the current lexeme.
#[derive(Debug, Clone, Copy, PartialEq, Eq, Structural)]
pub enum Token {
    /// Letters, digits, `_` and `.`, starting with a letter or `_`.
    Identifier,
    /// Digits with one interior `.`.
    Real,
    /// Digits only.
    Integer,
    /// One to three punctuation bytes.
    Operator,
    /// Any other byte.
    Unknown,
}

} // verus!
