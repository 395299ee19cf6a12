//! Opcode values and their operand-width classes.
use vstd::prelude::*;

verus! {

/// Return from the current function, or halt in the entry frame.
pub const RET: u8 = 0x00;
/// Discard the top of the stack.
pub const DROP: u8 = 0x01;
/// Push the void value.
pub const VOID: u8 = 0x02;
/// Less-than comparison.
pub const LS: u8 = 0x10;
/// Greater-than comparison.
pub const GR: u8 = 0x11;
/// Equality comparison.
pub const EQ: u8 = 0x12;
/// Addition.
pub const ADD: u8 = 0x13;
/// Less-or-equal comparison.
pub const LE: u8 = 0x14;
/// Subtraction.
pub const SUB: u8 = 0x15;
/// Multiplication.
pub const MUL: u8 = 0x16;
/// Load a local slot, one-byte index.
pub const LD1: u8 = 0x30;
/// Push an integer, one-byte immediate.
pub const INT1: u8 = 0x31;
/// Call with a one-byte argument count.
pub const CALL: u8 = 0x32;
/// Store to a local slot, one-byte index.
pub const ST1: u8 = 0x33;
/// Push an integer, three-byte big-endian immediate.
pub const INT3: u8 = 0x50;
/// Load a local slot, three-byte index.
pub const LD3: u8 = 0x51;
/// Store to a local slot, three-byte index.
pub const ST3: u8 = 0x52;
/// Jump if the popped boolean is false; eight-byte absolute address.
pub const JPF: u8 = 0x70;
/// Unconditional jump; eight-byte absolute address.
pub const JP: u8 = 0x71;
/// Push the absolute address of a symbol; eight-byte operand.
pub const PTR: u8 = 0x72;
/// Load a local slot, eight-byte index.
pub const LD8: u8 = 0x73;
/// Store to a local slot, eight-byte index.
pub const ST8: u8 = 0x74;
/// Push an integer, eight-byte big-endian immediate.
pub const INT8: u8 = 0x90;
/// Push a real number, eight-byte immediate.
pub const REAL: u8 = 0x91;

/// Number of operand bytes that follow an opcode, decided by its range alone.
pub open spec fn width_of(op: u8) -> nat {
    if op <= 0x2F {
        0
    } else if op <= 0x4F {
        1
    } else if op <= 0x6F {
        3
    } else {
        8
    }
}

/// Whether the operand of this opcode is an absolute code address.
pub open spec fn is_address_op(op: u8) -> bool {
    op == JPF || op == JP || op == PTR
}

/// Operand width of an opcode.
pub fn operand_width(op: u8) -> (r: usize)
    ensures
        r == width_of(op),
{
    if op <= 0x2F {
        0
    } else if op <= 0x4F {
        1
    } else if op <= 0x6F {
        3
    } else {
        8
    }
}

} // verus!
