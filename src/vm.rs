//! The virtual machine: a fetch-decode-execute loop over a fixed-capacity
//! value stack with explicit call frames.
//!
//! Call convention: `CALL n` finds the callee address `n + 1` cells below the
//! top, replaces it with the caller's saved state and makes that cell the new
//! frame base, so slot 0 holds the saved state and slots 1..=n the arguments.
//! `RET` in the entry frame (base 0) halts with the top of the stack.
use vstd::prelude::*;
use crate::module::Module;
use crate::opcodes::{
    ADD, CALL, DROP, EQ, GR, INT1, INT3, INT8, JP, JPF, LD1, LD3, LD8, LE, LS, MUL, PTR, RET, ST1,
    ST3, ST8, SUB, VOID,
};

verus! {

/// Number of cells of the value stack.
pub const STACK_SIZE: usize = 1024;

/// A runtime value.
#[derive(Debug, Clone, Copy, PartialEq, Eq, Structural)]
pub enum Value {
    Void,
    Boolean(bool),
    Integer(i64),
    Address(u64),
    CallState(u64, u64),
}

/// An unrecoverable machine error.
#[derive(Debug, Clone, Copy, PartialEq, Eq, Structural)]
pub enum VMError {
    StackUnderflow,
    StackOverflow,
    FetchOpcodeError,
    Custom,
}

/// What a `Custom` machine error was about.
#[derive(Debug, Clone, Copy, PartialEq, Eq, Structural)]
pub enum Fault {
    /// An operator met operands of the wrong types.
    TypeMismatch,
    /// `JPF` popped something other than a boolean.
    ExpectedBoolean,
    /// `CALL` found something other than an address.
    ExpectedAddress,
    /// `RET` found something other than a saved call state.
    ExpectedCallState,
    /// The callee's prologue declares another argument count.
    ArityMismatch,
    /// A byte that is no instruction.
    UnknownOpcode,
    /// The program did not halt within the step limit.
    StepLimit,
    /// The module has no `__ctor__` entry label.
    MissingEntry,
}

/// The result of a binary operator on two values, or `None` on a type mismatch.
pub open spec fn binop(op: u8, l: Value, r: Value) -> Option<Value> {
    match (l, r) {
        (Value::Integer(a), Value::Integer(b)) => if op == LS {
            Some(Value::Boolean(a < b))
        } else if op == LE {
            Some(Value::Boolean(a <= b))
        } else if op == GR {
            Some(Value::Boolean(a > b))
        } else if op == EQ {
            Some(Value::Boolean(a == b))
        } else if op == ADD {
            Some(Value::Integer(a.wrapping_add(b)))
        } else if op == SUB {
            Some(Value::Integer(a.wrapping_sub(b)))
        } else if op == MUL {
            Some(Value::Integer(a.wrapping_mul(b)))
        } else {
            None
        },
        _ => None,
    }
}

/// The byte at `offset`.
pub fn fetch_u8(opcodes: &[u8], offset: u64) -> (r: Result<u8, VMError>)
    ensures
        offset < opcodes@.len() ==> r == Ok::<u8, VMError>(opcodes@[offset as int]),
        offset >= opcodes@.len() ==> r == Err::<u8, VMError>(VMError::FetchOpcodeError),
{
    if offset < opcodes.len() as u64 {
        Ok(opcodes[offset as usize])
    } else {
        Err(VMError::FetchOpcodeError)
    }
}

/// The big-endian value of `n` bytes at `offset`.
pub open spec fn be_value(s: Seq<u8>, offset: int, n: nat) -> nat
    decreases n,
{
    if n == 0 {
        0
    } else {
        be_value(s, offset, (n - 1) as nat) * 256 + s[offset + n - 1] as nat
    }
}

/// The big-endian value of `n` bytes at `offset`, `n` at most 8.
pub fn fetch_be(opcodes: &[u8], offset: u64, n: u64) -> (r: Result<u64, VMError>)
    requires
        n <= 8,
    ensures
        offset + n <= opcodes@.len() ==> r is Ok && r->Ok_0 == be_value(
            opcodes@,
            offset as int,
            n as nat,
        ),
        offset + n > opcodes@.len() ==> r == Err::<u64, VMError>(VMError::FetchOpcodeError),
{
    let len = opcodes.len() as u64;
    if offset > len || n > len - offset {
        return Err(VMError::FetchOpcodeError);
    }
    let mut v: u64 = 0;
    let mut i: u64 = 0;
    while i < n
        invariant
            i <= n <= 8,
            offset + n <= opcodes@.len(),
            v == be_value(opcodes@, offset as int, i as nat),
            v < pow256(i as nat),
            opcodes@.len() == len,
        decreases n - i,
    {
        let b = opcodes[(offset + i) as usize];
        proof {
            lemma_pow256_step(i as nat);
            lemma_pow256_small(i as nat);
            lemma_pow256_7();
            assert(v * 256 + b < pow256((i + 1) as nat)) by (nonlinear_arith)
                requires
                    v < pow256(i as nat),
                    b < 256,
                    pow256((i + 1) as nat) == pow256(i as nat) * 256,
            ;
            assert(v * 256 + b < 0x1_0000_0000_0000_0000) by (nonlinear_arith)
                requires
                    v < pow256(i as nat),
                    b < 256,
                    pow256(i as nat) <= 0x100_0000_0000_0000,
            ;
        }
        v = v * 256 + b as u64;
        i += 1;
    }
    Ok(v)
}

/// The big-endian 32-bit value at `offset`.
pub fn fetch_u32(opcodes: &[u8], offset: u64) -> (r: Result<u64, VMError>)
    ensures
        offset + 4 <= opcodes@.len() ==> r is Ok && r->Ok_0 == be_value(opcodes@, offset as int, 4),
        offset + 4 > opcodes@.len() ==> r == Err::<u64, VMError>(VMError::FetchOpcodeError),
{
    fetch_be(opcodes, offset, 4)
}

/// The big-endian 64-bit value at `offset`.
pub fn fetch_u64(opcodes: &[u8], offset: u64) -> (r: Result<u64, VMError>)
    ensures
        offset + 8 <= opcodes@.len() ==> r is Ok && r->Ok_0 == be_value(opcodes@, offset as int, 8),
        offset + 8 > opcodes@.len() ==> r == Err::<u64, VMError>(VMError::FetchOpcodeError),
{
    fetch_be(opcodes, offset, 8)
}

/// 256 to the power `n`.
pub open spec fn pow256(n: nat) -> nat
    decreases n,
{
    if n == 0 {
        1
    } else {
        pow256((n - 1) as nat) * 256
    }
}

proof fn lemma_pow256_step(n: nat)
    ensures
        pow256(n + 1) == pow256(n) * 256,
{
}

proof fn lemma_pow256_7()
    ensures
        pow256(7) == 0x100_0000_0000_0000,
{
    reveal_with_fuel(pow256, 8);
}

proof fn lemma_pow256_small(n: nat)
    requires
        n <= 7,
    ensures
        pow256(n) <= pow256(7),
    decreases 7 - n,
{
    if n < 7 {
        lemma_pow256_small(n + 1);
    }
}

/// What `DROP` does, as a relation between the states before and after.
pub open spec fn post_drop(s0: State, s1: State, r: Result<bool, VMError>) -> bool {
    &&& s0.sp() == 0 ==> r == Err::<bool, VMError>(VMError::StackUnderflow)
    &&& s0.sp() > 0 ==> {
        &&& r == Ok::<bool, VMError>(true)
        &&& s1.sp() == s0.sp() - 1
        &&& s1.pc() == s0.pc() + 1
        &&& s1.cells() == s0.cells()
    }
}

/// What a binary operator does: the two top values are replaced by the result.
pub open spec fn post_binary(s0: State, s1: State, op: u8, r: Result<bool, VMError>) -> bool {
    &&& s0.sp() < 2 ==> r == Err::<bool, VMError>(VMError::StackUnderflow)
    &&& s0.sp() >= 2 ==> match binop(op, s0.cells()[s0.sp() - 2], s0.cells()[s0.sp() - 1]) {
        Some(v) => {
            &&& r == Ok::<bool, VMError>(true)
            &&& s1.sp() == s0.sp() - 1
            &&& s1.cells() == s0.cells().update(s0.sp() - 2, v)
            &&& s1.pc() == s0.pc() + 1
        },
        None => r == Err::<bool, VMError>(VMError::Custom) && s1.fault() == Some(
            Fault::TypeMismatch,
        ),
    }
}

/// What `VOID` does.
pub open spec fn post_void(s0: State, s1: State, r: Result<bool, VMError>) -> bool {
    &&& s0.sp() >= STACK_SIZE ==> r == Err::<bool, VMError>(VMError::StackOverflow)
    &&& s0.sp() < STACK_SIZE ==> {
        &&& r == Ok::<bool, VMError>(true)
        &&& s1.sp() == s0.sp() + 1
        &&& s1.cells() == s0.cells().update(s0.sp() as int, Value::Void)
        &&& s1.pc() == s0.pc() + 1
    }
}

/// What `INT1`, `INT3`, `INT8` do with their `n`-byte immediate.
pub open spec fn post_int(s0: State, s1: State, code: Seq<u8>, n: u64, r: Result<bool, VMError>) -> bool {
    &&& s0.pc() + 1 + n > code.len() ==> r == Err::<bool, VMError>(VMError::FetchOpcodeError)
    &&& s0.pc() + 1 + n <= code.len() && s0.sp() < STACK_SIZE ==> {
        &&& r == Ok::<bool, VMError>(true)
        &&& s1.sp() == s0.sp() + 1
        &&& s1.cells() == s0.cells().update(
            s0.sp() as int,
            Value::Integer(be_value(code, s0.pc() + 1, n as nat) as u64 as i64),
        )
        &&& s1.pc() == s0.pc() + 1 + n
    }
    &&& s0.pc() + 1 + n <= code.len() && s0.sp() >= STACK_SIZE ==> r == Err::<bool, VMError>(
        VMError::StackOverflow,
    )
}

/// What `PTR` does.
pub open spec fn post_ptr(s0: State, s1: State, code: Seq<u8>, r: Result<bool, VMError>) -> bool {
    &&& s0.pc() + 9 > code.len() ==> r == Err::<bool, VMError>(VMError::FetchOpcodeError)
    &&& s0.pc() + 9 <= code.len() && s0.sp() < STACK_SIZE ==> {
        &&& r == Ok::<bool, VMError>(true)
        &&& s1.sp() == s0.sp() + 1
        &&& s1.cells() == s0.cells().update(
            s0.sp() as int,
            Value::Address(be_value(code, s0.pc() + 1, 8) as u64),
        )
        &&& s1.pc() == s0.pc() + 9
    }
    &&& s0.pc() + 9 <= code.len() && s0.sp() >= STACK_SIZE ==> r == Err::<bool, VMError>(
        VMError::StackOverflow,
    )
}

/// What `JPF` does.
pub open spec fn post_jpf(s0: State, s1: State, code: Seq<u8>, r: Result<bool, VMError>) -> bool {
    &&& s0.sp() == 0 ==> r == Err::<bool, VMError>(VMError::StackUnderflow)
    &&& s0.sp() > 0 ==> match s0.cells()[s0.sp() - 1] {
        Value::Boolean(b) => if s0.pc() + 9 > code.len() {
            r == Err::<bool, VMError>(VMError::FetchOpcodeError)
        } else {
            &&& r == Ok::<bool, VMError>(true)
            &&& s1.sp() == s0.sp() - 1
            &&& s1.pc() == if b {
                (s0.pc() + 9) as u64
            } else {
                be_value(code, s0.pc() + 1, 8) as u64
            }
        },
        _ => r == Err::<bool, VMError>(VMError::Custom) && s1.fault() == Some(
            Fault::ExpectedBoolean,
        ),
    }
}

/// What `JP` does.
pub open spec fn post_jp(s0: State, s1: State, code: Seq<u8>, r: Result<bool, VMError>) -> bool {
    &&& s0.pc() + 9 > code.len() ==> r == Err::<bool, VMError>(VMError::FetchOpcodeError)
    &&& s0.pc() + 9 <= code.len() ==> {
        &&& r == Ok::<bool, VMError>(true)
        &&& s1.pc() == be_value(code, s0.pc() + 1, 8)
        &&& s1.sp() == s0.sp()
        &&& s1.cells() == s0.cells()
    }
}

/// The stack after a call: the saved state at `cell`, the reserved cells
/// from `sp` on set to void, every other cell kept.
pub open spec fn call_cells(
    cells: Seq<Value>,
    cell: int,
    saved: Value,
    sp: int,
    reserve: int,
) -> Seq<Value> {
    Seq::new(
        cells.len(),
        |k: int|
            if k == cell {
                saved
            } else if sp <= k < sp + reserve {
                Value::Void
            } else {
                cells[k]
            },
    )
}

/// What `CALL n` does: the callee address `n + 1` cells below the top
/// becomes the saved state and the frame base; the callee's prologue must
/// declare `n` arguments; its reservation grows the stack with void cells.
pub open spec fn post_call(s0: State, s1: State, code: Seq<u8>, r: Result<bool, VMError>) -> bool {
    let pc = s0.pc() as int;
    if pc + 1 >= code.len() {
        r == Err::<bool, VMError>(VMError::FetchOpcodeError)
    } else {
        let n = code[pc + 1] as int;
        if s0.sp() < n + 1 {
            r == Err::<bool, VMError>(VMError::StackUnderflow)
        } else {
            let cell = s0.sp() - n - 1;
            match s0.cells()[cell] {
                Value::Address(t) => if t + 5 > code.len() {
                    r == Err::<bool, VMError>(VMError::FetchOpcodeError)
                } else if code[t as int] != n {
                    r == Err::<bool, VMError>(VMError::Custom) && s1.fault() == Some(
                        Fault::ArityMismatch,
                    )
                } else {
                    let reserve = be_value(code, t + 1, 4);
                    if s0.sp() + reserve > STACK_SIZE {
                        r == Err::<bool, VMError>(VMError::StackOverflow)
                    } else {
                        &&& r == Ok::<bool, VMError>(true)
                        &&& s1.locals() == cell
                        &&& s1.sp() == s0.sp() + reserve
                        &&& s1.pc() == t + 5
                        &&& s1.cells() == call_cells(
                            s0.cells(),
                            cell,
                            Value::CallState((pc + 2) as u64, s0.locals() as u64),
                            s0.sp() as int,
                            reserve as int,
                        )
                    }
                },
                _ => r == Err::<bool, VMError>(VMError::Custom) && s1.fault() == Some(
                    Fault::ExpectedAddress,
                ),
            }
        }
    }
}

/// What `RET` does: halt in the entry frame, else return to the saved state.
pub open spec fn post_ret(s0: State, s1: State, r: Result<bool, VMError>) -> bool {
    let base = s0.locals();
    if base == 0 {
        &&& r == Ok::<bool, VMError>(false)
        &&& s1.sp() == s0.sp()
        &&& s1.cells() == s0.cells()
    } else if s0.sp() == 0 {
        r == Err::<bool, VMError>(VMError::StackUnderflow)
    } else if base >= STACK_SIZE {
        r == Err::<bool, VMError>(VMError::StackOverflow)
    } else {
        match s0.cells()[base as int] {
            Value::CallState(pc, locals) => if locals >= STACK_SIZE {
                r == Err::<bool, VMError>(VMError::StackOverflow)
            } else {
                &&& r == Ok::<bool, VMError>(true)
                &&& s1.sp() == base + 1
                &&& s1.cells() == s0.cells().update(base as int, s0.cells()[s0.sp() - 1])
                &&& s1.pc() == pc
                &&& s1.locals() == locals
            },
            _ => r == Err::<bool, VMError>(VMError::Custom) && s1.fault() == Some(
                Fault::ExpectedCallState,
            ),
        }
    }
}

/// What `LD` with an `n`-byte index does: pushes a copy of a local slot.
pub open spec fn post_ld(s0: State, s1: State, code: Seq<u8>, n: u64, r: Result<bool, VMError>) -> bool {
    if s0.pc() + 1 + n > code.len() {
        r == Err::<bool, VMError>(VMError::FetchOpcodeError)
    } else {
        let i = be_value(code, s0.pc() + 1, n as nat);
        if s0.locals() + i >= STACK_SIZE || s0.sp() >= STACK_SIZE {
            r == Err::<bool, VMError>(VMError::StackOverflow)
        } else {
            &&& r == Ok::<bool, VMError>(true)
            &&& s1.sp() == s0.sp() + 1
            &&& s1.cells() == s0.cells().update(s0.sp() as int, s0.cells()[(s0.locals() + i) as int])
            &&& s1.pc() == s0.pc() + 1 + n
        }
    }
}

/// What `ST` with an `n`-byte index does: copies the top of the stack to a
/// local slot; the value stays on the stack.
pub open spec fn post_st(s0: State, s1: State, code: Seq<u8>, n: u64, r: Result<bool, VMError>) -> bool {
    if s0.pc() + 1 + n > code.len() {
        r == Err::<bool, VMError>(VMError::FetchOpcodeError)
    } else {
        let i = be_value(code, s0.pc() + 1, n as nat);
        if s0.locals() + i >= STACK_SIZE {
            r == Err::<bool, VMError>(VMError::StackOverflow)
        } else if s0.sp() == 0 {
            r == Err::<bool, VMError>(VMError::StackUnderflow)
        } else {
            &&& r == Ok::<bool, VMError>(true)
            &&& s1.sp() == s0.sp()
            &&& s1.cells() == s0.cells().update((s0.locals() + i) as int, s0.cells()[s0.sp() - 1])
            &&& s1.pc() == s0.pc() + 1 + n
        }
    }
}

/// What entering the code at `entry` does: the prologue must declare no
/// argument; slot 0 and the reserved slots become void.
pub open spec fn post_enter(s0: State, s1: State, code: Seq<u8>, entry: u64, r: Result<(), VMError>) -> bool {
    if entry >= code.len() {
        r == Err::<(), VMError>(VMError::FetchOpcodeError)
    } else if code[entry as int] != 0 {
        r == Err::<(), VMError>(VMError::Custom) && s1.fault() == Some(Fault::ArityMismatch)
    } else if entry + 5 > code.len() {
        r == Err::<(), VMError>(VMError::FetchOpcodeError)
    } else {
        let reserve = be_value(code, entry + 1, 4);
        if reserve >= STACK_SIZE {
            r == Err::<(), VMError>(VMError::StackOverflow)
        } else {
            &&& r is Ok
            &&& s1.locals() == 0
            &&& s1.pc() == entry + 5
            &&& s1.sp() == reserve + 1
            &&& forall|k: int| 0 <= k <= reserve ==> #[trigger] s1.cells()[k] == Value::Void
            &&& s1.cells().len() == s0.cells().len()
            &&& forall|k: int| reserve < k < s0.cells().len() ==> #[trigger] s1.cells()[k] == s0.cells()[k]
        }
    }
}

/// A stack of void cells.
pub open spec fn void_cells() -> Seq<Value> {
    Seq::new(STACK_SIZE as nat, |k: int| Value::Void)
}

/// The machine that entering the code at `entry` from a fresh state gives.
pub open spec fn entered(code: Seq<u8>, entry: u64) -> Result<Machine, VMError> {
    if entry >= code.len() || code[entry as int] != 0 {
        if entry >= code.len() {
            Err(VMError::FetchOpcodeError)
        } else {
            Err(VMError::Custom)
        }
    } else if entry + 5 > code.len() {
        Err(VMError::FetchOpcodeError)
    } else {
        let reserve = be_value(code, entry + 1, 4);
        if reserve >= STACK_SIZE {
            Err(VMError::StackOverflow)
        } else {
            Ok(Machine { pc: (entry + 5) as u64, cells: void_cells(), sp: reserve + 1, locals: 0 })
        }
    }
}

/// Whether a byte is an instruction that the machine executes.
pub open spec fn is_instruction(op: u8) -> bool {
    op == DROP || op == LS || op == GR || op == EQ || op == ADD || op == LE || op == SUB || op
        == MUL || op == VOID || op == INT1 || op == INT3 || op == INT8 || op == PTR || op == JPF
        || op == JP || op == CALL || op == RET || op == LD1 || op == LD3 || op == LD8 || op == ST1
        || op == ST3 || op == ST8
}

/// The machine as plain values.
pub struct Machine {
    pub pc: u64,
    pub cells: Seq<Value>,
    pub sp: nat,
    pub locals: nat,
}

/// The machine with a new counter, stack and frame base.
pub open spec fn moved(m: Machine, pc: int, cells: Seq<Value>, sp: int, locals: int) -> Machine {
    Machine { pc: pc as u64, cells, sp: sp as nat, locals: locals as nat }
}

/// One instruction as a function: whether the machine goes on, and the
/// machine after it; or the error it stops with.
pub open spec fn step_model(m: Machine, code: Seq<u8>) -> Result<(bool, Machine), VMError> {
    let pc = m.pc as int;
    let sp = m.sp as int;
    let c = m.cells;
    if pc >= code.len() {
        Err(VMError::FetchOpcodeError)
    } else {
        let op = code[pc];
        if op == DROP {
            if sp == 0 {
                Err(VMError::StackUnderflow)
            } else {
                Ok((true, moved(m, pc + 1, c, sp - 1, m.locals as int)))
            }
        } else if op == LS || op == GR || op == EQ || op == ADD || op == LE || op == SUB || op
            == MUL {
            if sp < 2 {
                Err(VMError::StackUnderflow)
            } else {
                match binop(op, c[sp - 2], c[sp - 1]) {
                    Some(v) => Ok((true, moved(m, pc + 1, c.update(sp - 2, v), sp - 1, m.locals as int))),
                    None => Err(VMError::Custom),
                }
            }
        } else if op == VOID {
            if sp >= STACK_SIZE {
                Err(VMError::StackOverflow)
            } else {
                Ok((true, moved(m, pc + 1, c.update(sp, Value::Void), sp + 1, m.locals as int)))
            }
        } else if op == INT1 || op == INT3 || op == INT8 {
            let n = if op == INT1 { 1int } else if op == INT3 { 3int } else { 8int };
            if pc + 1 + n > code.len() {
                Err(VMError::FetchOpcodeError)
            } else if sp >= STACK_SIZE {
                Err(VMError::StackOverflow)
            } else {
                let v = Value::Integer(be_value(code, pc + 1, n as nat) as u64 as i64);
                Ok((true, moved(m, pc + 1 + n, c.update(sp, v), sp + 1, m.locals as int)))
            }
        } else if op == PTR {
            if pc + 9 > code.len() {
                Err(VMError::FetchOpcodeError)
            } else if sp >= STACK_SIZE {
                Err(VMError::StackOverflow)
            } else {
                let v = Value::Address(be_value(code, pc + 1, 8) as u64);
                Ok((true, moved(m, pc + 9, c.update(sp, v), sp + 1, m.locals as int)))
            }
        } else if op == JPF {
            if sp == 0 {
                Err(VMError::StackUnderflow)
            } else {
                match c[sp - 1] {
                    Value::Boolean(b) => if pc + 9 > code.len() {
                        Err(VMError::FetchOpcodeError)
                    } else {
                        let target = if b { pc + 9 } else { be_value(code, pc + 1, 8) as u64 as int };
                        Ok((true, moved(m, target, c, sp - 1, m.locals as int)))
                    },
                    _ => Err(VMError::Custom),
                }
            }
        } else if op == JP {
            if pc + 9 > code.len() {
                Err(VMError::FetchOpcodeError)
            } else {
                Ok((true, moved(m, be_value(code, pc + 1, 8) as int, c, sp, m.locals as int)))
            }
        } else if op == CALL {
            if pc + 1 >= code.len() {
                Err(VMError::FetchOpcodeError)
            } else {
                let n = code[pc + 1] as int;
                if sp < n + 1 {
                    Err(VMError::StackUnderflow)
                } else {
                    let cell = sp - n - 1;
                    match c[cell] {
                        Value::Address(t) => if t + 5 > code.len() {
                            Err(VMError::FetchOpcodeError)
                        } else if code[t as int] != n {
                            Err(VMError::Custom)
                        } else {
                            let reserve = be_value(code, t + 1, 4) as int;
                            if sp + reserve > STACK_SIZE {
                                Err(VMError::StackOverflow)
                            } else {
                                let saved = Value::CallState((pc + 2) as u64, m.locals as u64);
                                Ok((true, moved(m, t + 5, call_cells(c, cell, saved, sp, reserve), sp + reserve, cell)))
                            }
                        },
                        _ => Err(VMError::Custom),
                    }
                }
            }
        } else if op == RET {
            let base = m.locals as int;
            if base == 0 {
                Ok((false, m))
            } else if sp == 0 {
                Err(VMError::StackUnderflow)
            } else if base >= STACK_SIZE {
                Err(VMError::StackOverflow)
            } else {
                match c[base] {
                    Value::CallState(rpc, rl) => if rl >= STACK_SIZE {
                        Err(VMError::StackOverflow)
                    } else {
                        Ok((true, moved(m, rpc as int, c.update(base, c[sp - 1]), base + 1, rl as int)))
                    },
                    _ => Err(VMError::Custom),
                }
            }
        } else if op == LD1 || op == LD3 || op == LD8 || op == ST1 || op == ST3 || op == ST8 {
            let n = if op == LD1 || op == ST1 { 1int } else if op == LD3 || op == ST3 { 3int } else { 8int };
            if pc + 1 + n > code.len() {
                Err(VMError::FetchOpcodeError)
            } else {
                let i = be_value(code, pc + 1, n as nat) as int;
                if m.locals + i >= STACK_SIZE {
                    Err(VMError::StackOverflow)
                } else if op == LD1 || op == LD3 || op == LD8 {
                    if sp >= STACK_SIZE {
                        Err(VMError::StackOverflow)
                    } else {
                        Ok((true, moved(m, pc + 1 + n, c.update(sp, c[m.locals + i]), sp + 1, m.locals as int)))
                    }
                } else if sp == 0 {
                    Err(VMError::StackUnderflow)
                } else {
                    Ok((true, moved(m, pc + 1 + n, c.update(m.locals + i, c[sp - 1]), sp, m.locals as int)))
                }
            }
        } else {
            Err(VMError::Custom)
        }
    }
}

/// Running for at most `limit` instructions: the value on top of the stack
/// when the entry frame returns, the first error, or `Custom` when the limit
/// is reached first.
pub open spec fn run_model(m: Machine, code: Seq<u8>, limit: nat) -> Result<Value, VMError>
    decreases limit,
{
    if limit == 0 {
        Err(VMError::Custom)
    } else {
        match step_model(m, code) {
            Err(e) => Err(e),
            Ok((false, m2)) => if m2.sp == 0 {
                Err(VMError::StackUnderflow)
            } else {
                Ok(m2.cells[m2.sp - 1])
            },
            Ok((true, m2)) => run_model(m2, code, (limit - 1) as nat),
        }
    }
}

/// The machine state.
pub struct State {
    pc: u64,
    stack: Vec<Value>,
    sp: usize,
    locals: usize,
    message: Option<Fault>,
}

impl State {
    /// The offset of the next instruction.
    pub closed spec fn pc(&self) -> u64 {
        self.pc
    }

    /// The stack cells, all of them.
    pub closed spec fn cells(&self) -> Seq<Value> {
        self.stack@
    }

    /// The number of cells in use.
    pub closed spec fn sp(&self) -> nat {
        self.sp as nat
    }

    /// The base of the current frame.
    pub closed spec fn locals(&self) -> nat {
        self.locals as nat
    }

    /// What the last `Custom` error was about.
    pub closed spec fn fault(&self) -> Option<Fault> {
        self.message
    }

    /// The state as plain values.
    pub open spec fn machine(&self) -> Machine {
        Machine { pc: self.pc(), cells: self.cells(), sp: self.sp(), locals: self.locals() }
    }

    /// The stack has its capacity and the used cells lie within it.
    pub closed spec fn wf(&self) -> bool {
        self.stack@.len() == STACK_SIZE && self.sp <= STACK_SIZE
    }

    /// A machine with an empty stack at offset 0.
    pub fn new() -> (r: Self)
        ensures
            r.wf(),
            r.pc() == 0,
            r.sp() == 0,
            r.locals() == 0,
            r.fault() is None,
            r.cells() == void_cells(),
    {
        let mut stack: Vec<Value> = Vec::new();
        let mut i: usize = 0;
        while i < STACK_SIZE
            invariant
                i <= STACK_SIZE,
                stack@.len() == i,
                forall|k: int| 0 <= k < i ==> #[trigger] stack@[k] == Value::Void,
            decreases STACK_SIZE - i,
        {
            stack.push(Value::Void);
            i += 1;
        }
        assert(stack@ =~= void_cells());
        State { pc: 0, stack, sp: 0, locals: 0, message: None }
    }

    /// Moves execution to an offset.
    pub fn set_pc(&mut self, pc: u64)
        ensures
            final(self).pc() == pc,
            final(self).cells() == old(self).cells(),
            final(self).sp() == old(self).sp(),
            final(self).locals() == old(self).locals(),
            final(self).fault() == old(self).fault(),
            final(self).wf() == old(self).wf(),
    {
        self.pc = pc;
    }

    /// What the last `Custom` error was about.
    pub fn message(&self) -> (r: Option<Fault>)
        ensures
            r == self.fault(),
    {
        self.message
    }

    /// The values in use, bottom first.
    pub fn values(&self) -> (r: Vec<Value>)
        requires
            self.wf(),
        ensures
            r@ == self.cells().subrange(0, self.sp() as int),
    {
        let mut r: Vec<Value> = Vec::new();
        let mut i: usize = 0;
        while i < self.sp
            invariant
                self.wf(),
                i <= self.sp,
                r@ == self.cells().subrange(0, i as int),
            decreases self.sp - i,
        {
            r.push(self.stack[i]);
            i += 1;
            assert(r@ =~= self.cells().subrange(0, i as int));
        }
        r
    }

    /// Forgets the top value.
    fn drop(&mut self) -> (r: Result<(), VMError>)
        requires
            old(self).wf(),
        ensures
            final(self).wf(),
            final(self).pc() == old(self).pc(),
            final(self).cells() == old(self).cells(),
            final(self).locals() == old(self).locals(),
            final(self).fault() == old(self).fault(),
            old(self).sp() == 0 ==> r == Err::<(), VMError>(VMError::StackUnderflow)
                && final(self).sp() == 0,
            old(self).sp() > 0 ==> r is Ok && final(self).sp() == old(self).sp() - 1,
    {
        if self.sp == 0 {
            Err(VMError::StackUnderflow)
        } else {
            self.sp -= 1;
            Ok(())
        }
    }

    /// Pushes a value.
    fn push(&mut self, value: Value) -> (r: Result<(), VMError>)
        requires
            old(self).wf(),
        ensures
            final(self).wf(),
            final(self).pc() == old(self).pc(),
            final(self).locals() == old(self).locals(),
            final(self).fault() == old(self).fault(),
            old(self).sp() >= STACK_SIZE ==> r == Err::<(), VMError>(VMError::StackOverflow)
                && final(self).sp() == old(self).sp() && final(self).cells() == old(self).cells(),
            old(self).sp() < STACK_SIZE ==> r is Ok && final(self).sp() == old(self).sp() + 1
                && final(self).cells() == old(self).cells().update(old(self).sp() as int, value),
    {
        if self.sp >= STACK_SIZE {
            Err(VMError::StackOverflow)
        } else {
            self.stack.set(self.sp, value);
            self.sp += 1;
            Ok(())
        }
    }

    /// Pops the top value.
    fn pop(&mut self) -> (r: Result<Value, VMError>)
        requires
            old(self).wf(),
        ensures
            final(self).wf(),
            final(self).pc() == old(self).pc(),
            final(self).cells() == old(self).cells(),
            final(self).locals() == old(self).locals(),
            final(self).fault() == old(self).fault(),
            old(self).sp() == 0 ==> r == Err::<Value, VMError>(VMError::StackUnderflow)
                && final(self).sp() == 0,
            old(self).sp() > 0 ==> r == Ok::<Value, VMError>(
                old(self).cells()[old(self).sp() - 1],
            ) && final(self).sp() == old(self).sp() - 1,
    {
        if self.sp == 0 {
            Err(VMError::StackUnderflow)
        } else {
            self.sp -= 1;
            Ok(self.stack[self.sp])
        }
    }

    /// The top value.
    fn peek(&self) -> (r: Result<Value, VMError>)
        requires
            self.wf(),
        ensures
            self.sp() == 0 ==> r == Err::<Value, VMError>(VMError::StackUnderflow),
            self.sp() > 0 ==> r == Ok::<Value, VMError>(self.cells()[self.sp() - 1]),
    {
        if self.sp == 0 {
            Err(VMError::StackUnderflow)
        } else {
            Ok(self.stack[self.sp - 1])
        }
    }

    /// Records what went wrong and fails with `Custom`.
    fn error<T>(&mut self, fault: Fault) -> (r: Result<T, VMError>)
        ensures
            r == Err::<T, VMError>(VMError::Custom),
            final(self).fault() == Some(fault),
            final(self).pc() == old(self).pc(),
            final(self).cells() == old(self).cells(),
            final(self).sp() == old(self).sp(),
            final(self).locals() == old(self).locals(),
            final(self).wf() == old(self).wf(),
    {
        self.message = Some(fault);
        Err(VMError::Custom)
    }

    /// Applies a binary operator to two values; a type mismatch is a
    /// `Custom` error.
    fn bin(&mut self, op: u8, l: Value, r: Value) -> (res: Result<Value, VMError>)
        ensures
            binop(op, l, r) is Some ==> res == Ok::<Value, VMError>(binop(op, l, r)->0)
                && final(self).fault() == old(self).fault(),
            binop(op, l, r) is None ==> res == Err::<Value, VMError>(VMError::Custom)
                && final(self).fault() == Some(Fault::TypeMismatch),
            final(self).pc() == old(self).pc(),
            final(self).cells() == old(self).cells(),
            final(self).sp() == old(self).sp(),
            final(self).locals() == old(self).locals(),
            final(self).wf() == old(self).wf(),
    {
        match (l, r) {
            (Value::Integer(a), Value::Integer(b)) => {
                if op == LS {
                    Ok(Value::Boolean(a < b))
                } else if op == LE {
                    Ok(Value::Boolean(a <= b))
                } else if op == GR {
                    Ok(Value::Boolean(a > b))
                } else if op == EQ {
                    Ok(Value::Boolean(a == b))
                } else if op == ADD {
                    Ok(Value::Integer(a.wrapping_add(b)))
                } else if op == SUB {
                    Ok(Value::Integer(a.wrapping_sub(b)))
                } else if op == MUL {
                    Ok(Value::Integer(a.wrapping_mul(b)))
                } else {
                    self.error(Fault::TypeMismatch)
                }
            },
            _ => self.error(Fault::TypeMismatch),
        }
    }

    /// `DROP`.
    fn op_drop(&mut self) -> (r: Result<bool, VMError>)
        requires
            old(self).wf(),
            old(self).pc() < u64::MAX,
        ensures
            final(self).wf(),
            r is Ok ==> final(self).locals() == old(self).locals(),
            r != Ok::<bool, VMError>(false),
            post_drop(*old(self), *final(self), r),

    {
        self.drop()?;
        self.pc = self.pc + 1;
        Ok(true)
    }

    /// A binary operator: pops the right then the left operand, pushes the result.
    fn op_binary(&mut self, op: u8) -> (r: Result<bool, VMError>)
        requires
            old(self).wf(),
            old(self).pc() < u64::MAX,
        ensures
            final(self).wf(),
            r is Ok ==> final(self).locals() == old(self).locals(),
            r != Ok::<bool, VMError>(false),
            post_binary(*old(self), *final(self), op, r),

    {
        if self.sp < 2 {
            return Err(VMError::StackUnderflow);
        }
        let rv = self.pop()?;
        let l = self.pop()?;
        let v = self.bin(op, l, rv)?;
        self.push(v)?;
        self.pc = self.pc + 1;
        Ok(true)
    }

    /// `VOID`.
    fn op_void(&mut self) -> (r: Result<bool, VMError>)
        requires
            old(self).wf(),
            old(self).pc() < u64::MAX,
        ensures
            final(self).wf(),
            r is Ok ==> final(self).locals() == old(self).locals(),
            r != Ok::<bool, VMError>(false),
            post_void(*old(self), *final(self), r),

    {
        self.push(Value::Void)?;
        self.pc = self.pc + 1;
        Ok(true)
    }

    /// `INT1`, `INT3`, `INT8`: pushes the `n`-byte big-endian immediate.
    fn op_int(&mut self, opcodes: &[u8], n: u64) -> (r: Result<bool, VMError>)
        requires
            old(self).wf(),
            n == 1 || n == 3 || n == 8,
        ensures
            final(self).wf(),
            r is Ok ==> final(self).locals() == old(self).locals(),
            r != Ok::<bool, VMError>(false),
            post_int(*old(self), *final(self), opcodes@, n, r),

    {
        let len = opcodes.len() as u64;
        if self.pc >= len || n > len - self.pc - 1 {
            return Err(VMError::FetchOpcodeError);
        }
        let v = fetch_be(opcodes, self.pc + 1, n)?;
        self.push(Value::Integer(v as i64))?;
        self.pc = self.pc + 1 + n;
        Ok(true)
    }

    /// `PTR`: pushes the eight-byte address.
    fn op_ptr(&mut self, opcodes: &[u8]) -> (r: Result<bool, VMError>)
        requires
            old(self).wf(),
        ensures
            final(self).wf(),
            r is Ok ==> final(self).locals() == old(self).locals(),
            r != Ok::<bool, VMError>(false),
            post_ptr(*old(self), *final(self), opcodes@, r),

    {
        let len = opcodes.len() as u64;
        if self.pc >= len || 8 > len - self.pc - 1 {
            return Err(VMError::FetchOpcodeError);
        }
        let address = fetch_u64(opcodes, self.pc + 1)?;
        self.push(Value::Address(address))?;
        self.pc = self.pc + 9;
        Ok(true)
    }

    /// `JPF`: pops a boolean; jumps when it is false, else steps over.
    fn op_jpf(&mut self, opcodes: &[u8]) -> (r: Result<bool, VMError>)
        requires
            old(self).wf(),
        ensures
            final(self).wf(),
            r is Ok ==> final(self).locals() == old(self).locals(),
            r is Ok ==> final(self).cells() == old(self).cells(),
            r != Ok::<bool, VMError>(false),
            post_jpf(*old(self), *final(self), opcodes@, r),

    {
        let value = self.pop()?;
        match value {
            Value::Boolean(b) => {
                let len = opcodes.len() as u64;
                if self.pc >= len || 8 > len - self.pc - 1 {
                    return Err(VMError::FetchOpcodeError);
                }
                let target = fetch_u64(opcodes, self.pc + 1)?;
                if b {
                    self.pc = self.pc + 9;
                } else {
                    self.pc = target;
                }
                Ok(true)
            },
            _ => self.error(Fault::ExpectedBoolean),
        }
    }

    /// `JP`: jumps to the eight-byte address.
    fn op_jp(&mut self, opcodes: &[u8]) -> (r: Result<bool, VMError>)
        requires
            old(self).wf(),
        ensures
            final(self).wf(),
            r is Ok ==> final(self).locals() == old(self).locals(),
            r != Ok::<bool, VMError>(false),
            post_jp(*old(self), *final(self), opcodes@, r),

    {
        let len = opcodes.len() as u64;
        if self.pc >= len || 8 > len - self.pc - 1 {
            return Err(VMError::FetchOpcodeError);
        }
        self.pc = fetch_u64(opcodes, self.pc + 1)?;
        Ok(true)
    }

    /// `CALL n`: replaces the callee address below the arguments with the
    /// saved state, makes that cell the frame base, checks the callee's
    /// argument count and grows the stack by its reservation.
    fn op_call(&mut self, opcodes: &[u8]) -> (r: Result<bool, VMError>)
        requires
            old(self).wf(),
        ensures
            final(self).wf(),
            r != Ok::<bool, VMError>(false),
            post_call(*old(self), *final(self), opcodes@, r),

    {
        let len = opcodes.len() as u64;
        if self.pc >= len || 1 >= len - self.pc {
            return Err(VMError::FetchOpcodeError);
        }
        let n = fetch_u8(opcodes, self.pc + 1)?;
        if self.sp < n as usize + 1 {
            return Err(VMError::StackUnderflow);
        }
        let cell = self.sp - n as usize - 1;
        let target = match self.stack[cell] {
            Value::Address(a) => a,
            _ => {
                return self.error(Fault::ExpectedAddress);
            },
        };
        if target > len || 5 > len - target {
            return Err(VMError::FetchOpcodeError);
        }
        let argc = fetch_u8(opcodes, target)?;
        if argc != n {
            return self.error(Fault::ArityMismatch);
        }
        let reserve = fetch_u32(opcodes, target + 1)?;
        if reserve > (STACK_SIZE - self.sp) as u64 {
            return Err(VMError::StackOverflow);
        }
        let ghost cells0 = self.stack@;
        let ghost sp0 = self.sp as int;
        let saved = Value::CallState(self.pc + 2, self.locals as u64);
        self.stack.set(cell, saved);
        let mut k: usize = 0;
        while k < reserve as usize
            invariant
                self.stack@.len() == STACK_SIZE,
                cells0.len() == STACK_SIZE,
                self.sp == sp0,
                sp0 + reserve <= STACK_SIZE,
                k <= reserve,
                cell < sp0,
                forall|m: int|
                    0 <= m < STACK_SIZE ==> #[trigger] self.stack@[m] == if m == cell {
                        saved
                    } else if sp0 <= m < sp0 + k {
                        Value::Void
                    } else {
                        cells0[m]
                    },
            decreases reserve - k,
        {
            self.stack.set(self.sp + k, Value::Void);
            k += 1;
        }
        assert(self.stack@ =~= call_cells(cells0, cell as int, saved, sp0, reserve as int));
        self.sp = self.sp + reserve as usize;
        self.locals = cell;
        self.pc = target + 5;
        Ok(true)
    }

    /// `RET`: in the entry frame halts; else pops the result, restores the
    /// caller's state from slot 0 and pushes the result in its place.
    fn op_ret(&mut self) -> (r: Result<bool, VMError>)
        requires
            old(self).wf(),
        ensures
            final(self).wf(),
            r == Ok::<bool, VMError>(false) ==> final(self).pc() == old(self).pc(),
            r == Ok::<bool, VMError>(false) ==> old(self).locals() == 0 && final(self).locals() == 0
                && final(self).sp() == old(self).sp() && final(self).cells() == old(self).cells(),
            post_ret(*old(self), *final(self), r),

    {
        if self.locals == 0 {
            return Ok(false);
        }
        let result = self.pop()?;
        if self.locals >= STACK_SIZE {
            return Err(VMError::StackOverflow);
        }
        let base = self.locals;
        match self.stack[base] {
            Value::CallState(pc, locals) => {
                if locals >= STACK_SIZE as u64 {
                    return Err(VMError::StackOverflow);
                }
                self.stack.set(base, result);
                self.sp = base + 1;
                self.pc = pc;
                self.locals = locals as usize;
                Ok(true)
            },
            _ => self.error(Fault::ExpectedCallState),
        }
    }

    /// `LD1`, `LD3`, `LD8`: pushes a copy of a local slot.
    fn op_ld(&mut self, opcodes: &[u8], n: u64) -> (r: Result<bool, VMError>)
        requires
            old(self).wf(),
            n == 1 || n == 3 || n == 8,
        ensures
            final(self).wf(),
            r is Ok ==> final(self).locals() == old(self).locals(),
            r != Ok::<bool, VMError>(false),
            post_ld(*old(self), *final(self), opcodes@, n, r),

    {
        let len = opcodes.len() as u64;
        if self.pc >= len || n > len - self.pc - 1 {
            return Err(VMError::FetchOpcodeError);
        }
        let index = fetch_be(opcodes, self.pc + 1, n)?;
        if index >= (STACK_SIZE - self.locals.min(STACK_SIZE)) as u64 || self.locals >= STACK_SIZE {
            return Err(VMError::StackOverflow);
        }
        let v = self.stack[self.locals + index as usize];
        self.push(v)?;
        self.pc = self.pc + 1 + n;
        Ok(true)
    }

    /// `ST1`, `ST3`, `ST8`: copies the top of the stack to a local slot; the
    /// value stays on the stack.
    fn op_st(&mut self, opcodes: &[u8], n: u64) -> (r: Result<bool, VMError>)
        requires
            old(self).wf(),
            n == 1 || n == 3 || n == 8,
        ensures
            final(self).wf(),
            r is Ok ==> final(self).locals() == old(self).locals(),
            r != Ok::<bool, VMError>(false),
            post_st(*old(self), *final(self), opcodes@, n, r),

    {
        let len = opcodes.len() as u64;
        if self.pc >= len || n > len - self.pc - 1 {
            return Err(VMError::FetchOpcodeError);
        }
        let index = fetch_be(opcodes, self.pc + 1, n)?;
        if self.locals >= STACK_SIZE || index >= (STACK_SIZE - self.locals) as u64 {
            return Err(VMError::StackOverflow);
        }
        let v = self.peek()?;
        self.stack.set(self.locals + index as usize, v);
        self.pc = self.pc + 1 + n;
        Ok(true)
    }

    /// Executes one instruction; `Ok(false)` when the machine halts.
    pub fn step(&mut self, opcodes: &[u8]) -> (r: Result<bool, VMError>)
        requires
            old(self).wf(),
        ensures
            final(self).wf(),
            old(self).pc() >= opcodes@.len() ==> r == Err::<bool, VMError>(
                VMError::FetchOpcodeError,
            ),
            r == Ok::<bool, VMError>(false) ==> old(self).pc() < opcodes@.len() && opcodes@[old(self).pc() as int] == RET && old(self).locals() == 0 && final(self).locals() == 0 && final(self).sp() == old(self).sp()
                && final(self).cells() == old(self).cells(),
            old(self).pc() < opcodes@.len() ==> ({
                let op = opcodes@[old(self).pc() as int];
                let s0 = *old(self);
                let s1 = *final(self);
                &&& op == DROP ==> post_drop(s0, s1, r)
                &&& (op == LS || op == GR || op == EQ || op == ADD || op == LE || op == SUB || op
                    == MUL) ==> post_binary(s0, s1, op, r)
                &&& op == VOID ==> post_void(s0, s1, r)
                &&& op == INT1 ==> post_int(s0, s1, opcodes@, 1, r)
                &&& op == INT3 ==> post_int(s0, s1, opcodes@, 3, r)
                &&& op == INT8 ==> post_int(s0, s1, opcodes@, 8, r)
                &&& op == PTR ==> post_ptr(s0, s1, opcodes@, r)
                &&& op == JPF ==> post_jpf(s0, s1, opcodes@, r)
                &&& op == JP ==> post_jp(s0, s1, opcodes@, r)
                &&& op == CALL ==> post_call(s0, s1, opcodes@, r)
                &&& op == RET ==> post_ret(s0, s1, r)
                &&& op == LD1 ==> post_ld(s0, s1, opcodes@, 1, r)
                &&& op == LD3 ==> post_ld(s0, s1, opcodes@, 3, r)
                &&& op == LD8 ==> post_ld(s0, s1, opcodes@, 8, r)
                &&& op == ST1 ==> post_st(s0, s1, opcodes@, 1, r)
                &&& op == ST3 ==> post_st(s0, s1, opcodes@, 3, r)
                &&& op == ST8 ==> post_st(s0, s1, opcodes@, 8, r)
                &&& !is_instruction(op) ==> r == Err::<bool, VMError>(VMError::Custom)
                    && s1.fault() == Some(Fault::UnknownOpcode)
            }),
            match step_model(old(self).machine(), opcodes@) {
                Ok((b, m)) => r == Ok::<bool, VMError>(b) && final(self).machine() == m,
                Err(e) => r == Err::<bool, VMError>(e),
            },
    {
        let len = opcodes.len() as u64;
        let opcode = fetch_u8(opcodes, self.pc)?;
        assert(self.pc() < len);
        if opcode == DROP {
            self.op_drop()
        } else if opcode == LS || opcode == GR || opcode == EQ || opcode == ADD || opcode == LE
            || opcode == SUB || opcode == MUL {
            self.op_binary(opcode)
        } else if opcode == VOID {
            self.op_void()
        } else if opcode == INT1 {
            self.op_int(opcodes, 1)
        } else if opcode == INT3 {
            self.op_int(opcodes, 3)
        } else if opcode == INT8 {
            self.op_int(opcodes, 8)
        } else if opcode == PTR {
            self.op_ptr(opcodes)
        } else if opcode == JPF {
            self.op_jpf(opcodes)
        } else if opcode == JP {
            self.op_jp(opcodes)
        } else if opcode == CALL {
            self.op_call(opcodes)
        } else if opcode == RET {
            self.op_ret()
        } else if opcode == LD1 {
            self.op_ld(opcodes, 1)
        } else if opcode == LD3 {
            self.op_ld(opcodes, 3)
        } else if opcode == LD8 {
            self.op_ld(opcodes, 8)
        } else if opcode == ST1 {
            self.op_st(opcodes, 1)
        } else if opcode == ST3 {
            self.op_st(opcodes, 3)
        } else if opcode == ST8 {
            self.op_st(opcodes, 8)
        } else {
            self.error(Fault::UnknownOpcode)
        }
    }

    /// Enters the code at `entry` as the entry frame: its prologue must
    /// declare no argument; slot 0 is void and the reservation follows it.
    pub fn enter(&mut self, opcodes: &[u8], entry: u64) -> (r: Result<(), VMError>)
        requires
            old(self).wf(),
        ensures
            final(self).wf(),
            post_enter(*old(self), *final(self), opcodes@, entry, r),
    {
        let len = opcodes.len() as u64;
        let argc = fetch_u8(opcodes, entry)?;
        if argc != 0 {
            return self.error(Fault::ArityMismatch);
        }
        if entry > len || 5 > len - entry {
            return Err(VMError::FetchOpcodeError);
        }
        let reserve = fetch_u32(opcodes, entry + 1)?;
        if reserve >= STACK_SIZE as u64 {
            return Err(VMError::StackOverflow);
        }
        let mut k: usize = 0;
        while k <= reserve as usize
            invariant
                self.stack@.len() == STACK_SIZE,
                reserve < STACK_SIZE,
                k <= reserve + 1,
                forall|m: int| 0 <= m < k ==> #[trigger] self.stack@[m] == Value::Void,
                forall|m: int| k <= m < STACK_SIZE ==> #[trigger] self.stack@[m] == old(self).cells()[m],
                old(self).cells().len() == STACK_SIZE,
            decreases reserve + 1 - k,
        {
            self.stack.set(k, Value::Void);
            k += 1;
        }
        self.sp = reserve as usize + 1;
        self.locals = 0;
        self.pc = entry + 5;
        Ok(())
    }

    /// Runs until the machine halts, for at most `limit` instructions;
    /// returns the value on top of the stack.
    pub fn run(&mut self, opcodes: &[u8], limit: u64) -> (r: Result<Value, VMError>)
        requires
            old(self).wf(),
        ensures
            final(self).wf(),
            r == run_model(old(self).machine(), opcodes@, limit as nat),
            r is Ok ==> final(self).locals() == 0 && r->Ok_0 == final(self).cells()[final(self).sp() as int],
            limit > 0 && old(self).pc() < opcodes@.len() && opcodes@[old(self).pc() as int] == RET
                && old(self).locals() == 0 && old(self).sp() > 0 ==> r == Ok::<Value, VMError>(
                old(self).cells()[old(self).sp() - 1],
            ),
            limit > 0 && old(self).pc() >= opcodes@.len() ==> r == Err::<Value, VMError>(
                VMError::FetchOpcodeError,
            ),
            limit == 0 ==> r == Err::<Value, VMError>(VMError::Custom) && final(self).fault()
                == Some(Fault::StepLimit),
    {
        let mut steps: u64 = 0;
        while steps < limit
            invariant
                self.wf(),
                steps <= limit,
                steps == 0 ==> *self == *old(self),
                steps > 0 ==> old(self).pc() < opcodes@.len() && !(opcodes@[old(self).pc() as int]
                    == RET && old(self).locals() == 0),
                run_model(old(self).machine(), opcodes@, limit as nat) == run_model(
                    self.machine(),
                    opcodes@,
                    (limit - steps) as nat,
                ),
            decreases limit - steps,
        {
            let step = self.step(opcodes);
            match step {
                Ok(true) => {},
                Ok(false) => {
                    return self.pop();
                },
                Err(e) => {
                    return Err(e);
                },
            }
            steps += 1;
        }
        self.error(Fault::StepLimit)
    }
}

/// Runs a linked module from its `__ctor__` entry for at most `limit`
/// instructions; returns the program's result.
pub fn execute(module: &Module, limit: u64) -> (r: Result<Value, VMError>)
    requires
        module.wf(),
    ensures
        crate::table::lookup(
            module@.labels,
            seq![95u8, 95u8, 99u8, 116u8, 111u8, 114u8, 95u8, 95u8],
        ) is None ==> r == Err::<Value, VMError>(VMError::Custom),
        ({
            let entry = crate::table::lookup(
                module@.labels,
                seq![95u8, 95u8, 99u8, 116u8, 111u8, 114u8, 95u8, 95u8],
            );
            entry is Some ==> r == match entered(module@.opcodes, entry->0) {
                Err(e) => Err::<Value, VMError>(e),
                Ok(m) => run_model(m, module@.opcodes, limit as nat),
            }
        }),
{
    let mut state = State::new();
    let ctor: [u8; 8] = [95u8, 95u8, 99u8, 116u8, 111u8, 114u8, 95u8, 95u8];
    assert(ctor@ =~= seq![95u8, 95u8, 99u8, 116u8, 111u8, 114u8, 95u8, 95u8]);
    match module.labels.get(&ctor) {
        Some(entry) => {
            let ghost s0 = state;
            state.enter(module.opcodes.as_slice(), entry)?;
            proof {
                let code = module@.opcodes;
                let reserve = be_value(code, entry + 1, 4);
                assert forall|k: int| 0 <= k < STACK_SIZE implies #[trigger] state.cells()[k]
                    == void_cells()[k] by {
                    if k > reserve {
                        assert(state.cells()[k] == s0.cells()[k]);
                    }
                }
                assert(state.cells() =~= void_cells());
                assert(state.machine() == entered(code, entry)->Ok_0);
            }
            state.run(module.opcodes.as_slice(), limit)
        },
        None => Err(VMError::Custom),
    }
}

} // verus!
