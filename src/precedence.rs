//! Binding strength of binary operators.
use vstd::prelude::*;

verus! {

/// Assignment, plain or compound.
pub const ASSIGNMENT_PRECEDENCE: u8 = 2;
/// Logical or.
pub const OR_PRECEDENCE: u8 = 3;
/// Logical and.
pub const AND_PRECEDENCE: u8 = 4;
/// Comparisons.
pub const COMPARISON_PRECEDENCE: u8 = 5;
/// Bitwise exclusive or.
pub const BITWISE_XOR_PRECEDENCE: u8 = 6;
/// Bitwise or.
pub const BITWISE_OR_PRECEDENCE: u8 = 7;
/// Bitwise and.
pub const BITWISE_AND_PRECEDENCE: u8 = 8;
/// Shifts.
pub const SHIFTS_PRECEDENCE: u8 = 9;
/// Addition and subtraction.
pub const TERM_PRECEDENCE: u8 = 10;
/// Multiplication, division and remainder.
pub const FACTOR_PRECEDENCE: u8 = 11;

/// The precedence of an operator triple padded with spaces; 0 for anything
/// that is not a binary operator.
pub open spec fn prec(a: u8, b: u8, c: u8) -> u8 {
    if c == 32 {
        if b == 32 {
            if a == 37 || a == 42 || a == 47 {
                FACTOR_PRECEDENCE
            } else if a == 43 || a == 45 {
                TERM_PRECEDENCE
            } else if a == 38 {
                BITWISE_AND_PRECEDENCE
            } else if a == 124 {
                BITWISE_OR_PRECEDENCE
            } else if a == 94 {
                BITWISE_XOR_PRECEDENCE
            } else if a == 60 || a == 62 {
                COMPARISON_PRECEDENCE
            } else if a == 61 {
                ASSIGNMENT_PRECEDENCE
            } else {
                0
            }
        } else if b == 61 {
            if a == 33 || a == 60 || a == 61 || a == 62 {
                COMPARISON_PRECEDENCE
            } else if a == 37 || a == 38 || a == 42 || a == 43 || a == 45 || a == 47 || a == 94
                || a == 124 {
                ASSIGNMENT_PRECEDENCE
            } else {
                0
            }
        } else if a == 38 && b == 38 {
            AND_PRECEDENCE
        } else if a == 124 && b == 124 {
            OR_PRECEDENCE
        } else if (a == 60 && b == 60) || (a == 62 && b == 62) {
            SHIFTS_PRECEDENCE
        } else {
            0
        }
    } else if c == 61 && ((a == 60 && b == 60) || (a == 62 && b == 62)) {
        ASSIGNMENT_PRECEDENCE
    } else {
        0
    }
}

/// The precedence of an operator triple padded with spaces.
pub fn get(c: (u8, u8, u8)) -> (r: u8)
    ensures
        r == prec(c.0, c.1, c.2),
        r <= FACTOR_PRECEDENCE,
{
    let (a, b, c) = c;
    if c == 32 {
        if b == 32 {
            if a == 37 || a == 42 || a == 47 {
                FACTOR_PRECEDENCE
            } else if a == 43 || a == 45 {
                TERM_PRECEDENCE
            } else if a == 38 {
                BITWISE_AND_PRECEDENCE
            } else if a == 124 {
                BITWISE_OR_PRECEDENCE
            } else if a == 94 {
                BITWISE_XOR_PRECEDENCE
            } else if a == 60 || a == 62 {
                COMPARISON_PRECEDENCE
            } else if a == 61 {
                ASSIGNMENT_PRECEDENCE
            } else {
                0
            }
        } else if b == 61 {
            if a == 33 || a == 60 || a == 61 || a == 62 {
                COMPARISON_PRECEDENCE
            } else if a == 37 || a == 38 || a == 42 || a == 43 || a == 45 || a == 47 || a == 94
                || a == 124 {
                ASSIGNMENT_PRECEDENCE
            } else {
                0
            }
        } else if a == 38 && b == 38 {
            AND_PRECEDENCE
        } else if a == 124 && b == 124 {
            OR_PRECEDENCE
        } else if (a == 60 && b == 60) || (a == 62 && b == 62) {
            SHIFTS_PRECEDENCE
        } else {
            0
        }
    } else if c == 61 && ((a == 60 && b == 60) || (a == 62 && b == 62)) {
        ASSIGNMENT_PRECEDENCE
    } else {
        0
    }
}

} // verus!
