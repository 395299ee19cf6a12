//! The punctuation alphabet: one-byte operators, digraphs and trigraphs.
use vstd::prelude::*;

verus! {

/// One-byte operators: ``! " % & ' ( ) * + - . / : < = > ? [ ] ^ { | }``.
pub open spec fn single_op(c: u8) -> bool {
    c == 33 || c == 34 || c == 37 || c == 38 || c == 39 || c == 40 || c == 41 || c == 42 || c
        == 43 || c == 45 || c == 46 || c == 47 || c == 58 || c == 60 || c == 61 || c == 62 || c
        == 63 || c == 91 || c == 93 || c == 94 || c == 123 || c == 124 || c == 125
}

/// Digraphs: `!= %= && &= *= += -= /= << <= == >= >> ^= |= ||`.
pub open spec fn double_op(a: u8, b: u8) -> bool {
    (a == 33 && b == 61) || (a == 37 && b == 61) || (a == 38 && b == 38) || (a == 38 && b == 61)
        || (a == 42 && b == 61) || (a == 43 && b == 61) || (a == 45 && b == 61) || (a == 47 && b
        == 61) || (a == 60 && b == 60) || (a == 60 && b == 61) || (a == 61 && b == 61) || (a
        == 62 && b == 61) || (a == 62 && b == 62) || (a == 94 && b == 61) || (a == 124 && b == 61) || (a == 124 && b
        == 124)
}

/// Trigraphs: `<<=` and `>>=`.
pub open spec fn triple_op(a: u8, b: u8, c: u8) -> bool {
    (a == 60 && b == 60 && c == 61) || (a == 62 && b == 62 && c == 61)
}

/// Whether a byte is a one-byte operator.
pub fn is_single_operator(c: u8) -> (r: bool)
    ensures
        r == single_op(c),
{
    c == 33 || c == 34 || c == 37 || c == 38 || c == 39 || c == 40 || c == 41 || c == 42 || c
        == 43 || c == 45 || c == 46 || c == 47 || c == 58 || c == 60 || c == 61 || c == 62 || c
        == 63 || c == 91 || c == 93 || c == 94 || c == 123 || c == 124 || c == 125
}

/// Whether two bytes form a digraph.
pub fn is_double_operator(a: u8, b: u8) -> (r: bool)
    ensures
        r == double_op(a, b),
{
    (a == 33 && b == 61) || (a == 37 && b == 61) || (a == 38 && b == 38) || (a == 38 && b == 61)
        || (a == 42 && b == 61) || (a == 43 && b == 61) || (a == 45 && b == 61) || (a == 47 && b
        == 61) || (a == 60 && b == 60) || (a == 60 && b == 61) || (a == 61 && b == 61) || (a
        == 62 && b == 61) || (a == 62 && b == 62) || (a == 94 && b == 61) || (a == 124 && b == 61) || (a == 124 && b
        == 124)
}

/// Whether three bytes form a trigraph.
pub fn is_triple_operator(a: u8, b: u8, c: u8) -> (r: bool)
    ensures
        r == triple_op(a, b, c),
{
    (a == 60 && b == 60 && c == 61) || (a == 62 && b == 62 && c == 61)
}

} // verus!
