//! The capability set that the parser and the assembler drive: one method
//! per instruction kind, implemented by the binary and the assembly emitter.
use vstd::prelude::*;
use crate::error::Error;

verus! {

/// One capability call made on an emitter, as a value.
pub enum Call {
    Integer(u64),
    Call(u8),
    Binary(Seq<u8>),
    Drop,
    Ret,
    Void,
    Label(u64),
    LabelNamed(Seq<u8>),
    Jump(u64),
    JumpFalse(u64),
    JumpName(Seq<u8>),
    JumpFalseName(Seq<u8>),
    Pointer(Seq<u8>),
    Load(u64),
    Store(u64),
    Function(u8),
    FinishFunction(u32),
}

/// `b` begins with `a`.
pub open spec fn extends(a: Seq<Call>, b: Seq<Call>) -> bool {
    a.len() <= b.len() && forall|i: int| 0 <= i < a.len() ==> #[trigger] b[i] == a[i]
}

/// Whether a call defines a label.
pub open spec fn is_label(c: Call) -> bool {
    c is Label || c is LabelNamed
}

/// No label is defined twice, and the emitter accepts each call as it stands.
pub open spec fn acceptable<E: Emit>(e: E, cs: Seq<Call>) -> bool {
    &&& forall|i: int, j: int| 0 <= i < j < cs.len() && is_label(cs[i]) ==> cs[i] != cs[j]
    &&& forall|i: int| 0 <= i < cs.len() ==> #[trigger] e.accepts(cs[i])
}

/// A target for compiled code.
pub trait Emit {
    /// The emitter's own consistency condition, kept by every method.
    spec fn ready(&self) -> bool;

    /// The calls that succeeded so far, in order.
    spec fn calls(&self) -> Seq<Call>;

    /// Whether the call succeeds in this state.
    spec fn accepts(&self, c: Call) -> bool;

    /// Whether completing the function started at `cursor` succeeds.
    spec fn finish_ok(&self, cursor: u64) -> bool;

    /// Pushes an integer literal.
    fn integer(&mut self, value: u64) -> (r: Result<(), Error>)
        requires
            old(self).ready(),
        ensures
            final(self).ready(),
            old(self).accepts(Call::Integer(value)) ==> r is Ok,
            r is Ok ==> forall|c: Call| old(self).accepts(c) ==> #[trigger] final(self).accepts(c),
            r is Ok ==> final(self).calls() == old(self).calls().push(Call::Integer(value)),
            r is Err ==> final(self).calls() == old(self).calls(),
    ;

    /// Calls with `arguments` values above the callee address.
    fn call(&mut self, arguments: u8) -> (r: Result<(), Error>)
        requires
            old(self).ready(),
        ensures
            final(self).ready(),
            old(self).accepts(Call::Call(arguments)) ==> r is Ok,
            r is Ok ==> forall|c: Call| old(self).accepts(c) ==> #[trigger] final(self).accepts(c),
            r is Ok ==> final(self).calls() == old(self).calls().push(Call::Call(arguments)),
            r is Err ==> final(self).calls() == old(self).calls(),
    ;

    /// Applies an operator glyph, padded with spaces to three bytes.
    fn binary(&mut self, operator: [u8; 3]) -> (r: Result<(), Error>)
        requires
            old(self).ready(),
        ensures
            final(self).ready(),
            old(self).accepts(Call::Binary(operator@)) ==> r is Ok,
            r is Ok ==> forall|c: Call| old(self).accepts(c) ==> #[trigger] final(self).accepts(c),
            r is Ok ==> final(self).calls() == old(self).calls().push(Call::Binary(operator@)),
            r is Err ==> final(self).calls() == old(self).calls(),
    ;

    /// Discards the top of the stack.
    fn drop(&mut self) -> (r: Result<(), Error>)
        requires
            old(self).ready(),
        ensures
            final(self).ready(),
            old(self).accepts(Call::Drop) ==> r is Ok,
            r is Ok ==> forall|c: Call| old(self).accepts(c) ==> #[trigger] final(self).accepts(c),
            r is Ok ==> final(self).calls() == old(self).calls().push(Call::Drop),
            r is Err ==> final(self).calls() == old(self).calls(),
    ;

    /// Pushes the void value.
    fn void(&mut self) -> (r: Result<(), Error>)
        requires
            old(self).ready(),
        ensures
            final(self).ready(),
            old(self).accepts(Call::Void) ==> r is Ok,
            r is Ok ==> forall|c: Call| old(self).accepts(c) ==> #[trigger] final(self).accepts(c),
            r is Ok ==> final(self).calls() == old(self).calls().push(Call::Void),
            r is Err ==> final(self).calls() == old(self).calls(),
    ;

    /// Returns from the current function.
    fn ret(&mut self) -> (r: Result<(), Error>)
        requires
            old(self).ready(),
        ensures
            final(self).ready(),
            old(self).accepts(Call::Ret) ==> r is Ok,
            r is Ok ==> forall|c: Call| old(self).accepts(c) ==> #[trigger] final(self).accepts(c),
            r is Ok ==> final(self).calls() == old(self).calls().push(Call::Ret),
            r is Err ==> final(self).calls() == old(self).calls(),
    ;

    /// Defines a numeric label here.
    fn label(&mut self, id: u64) -> (r: Result<(), Error>)
        requires
            old(self).ready(),
        ensures
            final(self).ready(),
            old(self).accepts(Call::Label(id)) ==> r is Ok,
            r is Ok ==> forall|c: Call| old(self).accepts(c) && c != Call::Label(id) ==> #[trigger] final(self).accepts(c),
            r is Ok ==> final(self).calls() == old(self).calls().push(Call::Label(id)),
            r is Err ==> final(self).calls() == old(self).calls(),
    ;

    /// Defines a named label here.
    fn label_named(&mut self, name: &[u8]) -> (r: Result<(), Error>)
        requires
            old(self).ready(),
        ensures
            final(self).ready(),
            old(self).accepts(Call::LabelNamed(name@)) ==> r is Ok,
            r is Ok ==> forall|c: Call| old(self).accepts(c) && c != Call::LabelNamed(name@) ==> #[trigger] final(self).accepts(c),
            r is Ok ==> final(self).calls() == old(self).calls().push(Call::LabelNamed(name@)),
            r is Err ==> final(self).calls() == old(self).calls(),
    ;

    /// Jumps to a numeric label.
    fn jump(&mut self, id: u64) -> (r: Result<(), Error>)
        requires
            old(self).ready(),
        ensures
            final(self).ready(),
            old(self).accepts(Call::Jump(id)) ==> r is Ok,
            r is Ok ==> forall|c: Call| old(self).accepts(c) ==> #[trigger] final(self).accepts(c),
            r is Ok ==> final(self).calls() == old(self).calls().push(Call::Jump(id)),
            r is Err ==> final(self).calls() == old(self).calls(),
    ;

    /// Jumps to a numeric label when the popped boolean is false.
    fn jump_false(&mut self, id: u64) -> (r: Result<(), Error>)
        requires
            old(self).ready(),
        ensures
            final(self).ready(),
            old(self).accepts(Call::JumpFalse(id)) ==> r is Ok,
            r is Ok ==> forall|c: Call| old(self).accepts(c) ==> #[trigger] final(self).accepts(c),
            r is Ok ==> final(self).calls() == old(self).calls().push(Call::JumpFalse(id)),
            r is Err ==> final(self).calls() == old(self).calls(),
    ;

    /// Jumps to a named label.
    fn jump_name(&mut self, name: &[u8]) -> (r: Result<(), Error>)
        requires
            old(self).ready(),
        ensures
            final(self).ready(),
            old(self).accepts(Call::JumpName(name@)) ==> r is Ok,
            r is Ok ==> forall|c: Call| old(self).accepts(c) ==> #[trigger] final(self).accepts(c),
            r is Ok ==> final(self).calls() == old(self).calls().push(Call::JumpName(name@)),
            r is Err ==> final(self).calls() == old(self).calls(),
    ;

    /// Jumps to a named label when the popped boolean is false.
    fn jump_false_name(&mut self, name: &[u8]) -> (r: Result<(), Error>)
        requires
            old(self).ready(),
        ensures
            final(self).ready(),
            old(self).accepts(Call::JumpFalseName(name@)) ==> r is Ok,
            r is Ok ==> forall|c: Call| old(self).accepts(c) ==> #[trigger] final(self).accepts(c),
            r is Ok ==> final(self).calls() == old(self).calls().push(Call::JumpFalseName(name@)),
            r is Err ==> final(self).calls() == old(self).calls(),
    ;

    /// Pushes the address of a named symbol.
    fn pointer(&mut self, name: &[u8]) -> (r: Result<(), Error>)
        requires
            old(self).ready(),
        ensures
            final(self).ready(),
            old(self).accepts(Call::Pointer(name@)) ==> r is Ok,
            r is Ok ==> forall|c: Call| old(self).accepts(c) ==> #[trigger] final(self).accepts(c),
            r is Ok ==> final(self).calls() == old(self).calls().push(Call::Pointer(name@)),
            r is Err ==> final(self).calls() == old(self).calls(),
    ;

    /// Pushes a local slot.
    fn load(&mut self, index: u64) -> (r: Result<(), Error>)
        requires
            old(self).ready(),
        ensures
            final(self).ready(),
            old(self).accepts(Call::Load(index)) ==> r is Ok,
            r is Ok ==> forall|c: Call| old(self).accepts(c) ==> #[trigger] final(self).accepts(c),
            r is Ok ==> final(self).calls() == old(self).calls().push(Call::Load(index)),
            r is Err ==> final(self).calls() == old(self).calls(),
    ;

    /// Copies the top of the stack to a local slot.
    fn store(&mut self, index: u64) -> (r: Result<(), Error>)
        requires
            old(self).ready(),
        ensures
            final(self).ready(),
            old(self).accepts(Call::Store(index)) ==> r is Ok,
            r is Ok ==> forall|c: Call| old(self).accepts(c) ==> #[trigger] final(self).accepts(c),
            r is Ok ==> final(self).calls() == old(self).calls().push(Call::Store(index)),
            r is Err ==> final(self).calls() == old(self).calls(),
    ;

    /// Starts a function with its argument count; returns the cursor that
    /// `finish_function` takes.
    fn function(&mut self, args_count: u8) -> (r: Result<u64, Error>)
        requires
            old(self).ready(),
        ensures
            final(self).ready(),
            old(self).accepts(Call::Function(args_count)) ==> r is Ok,
            r is Ok ==> forall|c: Call| old(self).accepts(c) ==> #[trigger] final(self).accepts(c),
            r is Ok ==> final(self).finish_ok(r->Ok_0),
            r is Ok ==> final(self).calls() == old(self).calls().push(Call::Function(args_count)),
            r is Err ==> final(self).calls() == old(self).calls(),
    ;

    /// Records the stack growth of the function started at `cursor`.
    fn finish_function(&mut self, cursor: u64, growth: u32) -> (r: Result<(), Error>)
        requires
            old(self).ready(),
        ensures
            final(self).ready(),
            old(self).finish_ok(cursor) ==> r is Ok,
            r is Ok ==> forall|c: Call| old(self).accepts(c) ==> #[trigger] final(self).accepts(c),
            r is Ok ==> final(self).calls() == old(self).calls().push(Call::FinishFunction(growth)),
            r is Err ==> final(self).calls() == old(self).calls(),
    ;
}

} // verus!
