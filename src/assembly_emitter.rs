//! The assembly emitter: it writes the textual listing, one line per label
//! or instruction, that the assembler reads back.
use vstd::prelude::*;
use crate::bytes::push_all;
use crate::emit::{Call, Emit};
use crate::error::Error;
use crate::text::{dec, push_decimal};

verus! {

/// `INT`
pub open spec fn mn_int() -> Seq<u8> {
    seq![73u8, 78u8, 84u8]
}

/// `CALL`
pub open spec fn mn_call() -> Seq<u8> {
    seq![67u8, 65u8, 76u8, 76u8]
}

/// `OP`
pub open spec fn mn_op() -> Seq<u8> {
    seq![79u8, 80u8]
}

/// `DROP`
pub open spec fn mn_drop() -> Seq<u8> {
    seq![68u8, 82u8, 79u8, 80u8]
}

/// `RET`
pub open spec fn mn_ret() -> Seq<u8> {
    seq![82u8, 69u8, 84u8]
}

/// `JP`
pub open spec fn mn_jp() -> Seq<u8> {
    seq![74u8, 80u8]
}

/// `JPF`
pub open spec fn mn_jpf() -> Seq<u8> {
    seq![74u8, 80u8, 70u8]
}

/// `PTR`
pub open spec fn mn_ptr() -> Seq<u8> {
    seq![80u8, 84u8, 82u8]
}

/// `LD`
pub open spec fn mn_ld() -> Seq<u8> {
    seq![76u8, 68u8]
}

/// `ST`
pub open spec fn mn_st() -> Seq<u8> {
    seq![83u8, 84u8]
}

/// `FN`
pub open spec fn mn_fn() -> Seq<u8> {
    seq![70u8, 78u8]
}

/// `VOID`
pub open spec fn mn_void() -> Seq<u8> {
    seq![86u8, 79u8, 73u8, 68u8]
}

/// The name of a numeric label: `@lbl_` and the id in decimal.
pub open spec fn numeric_name(id: u64) -> Seq<u8> {
    seq![64u8, 108u8, 98u8, 108u8, 95u8] + dec(id as nat)
}

/// An instruction line: a tab, the mnemonic, a space and the operand.
pub open spec fn instr(mnemonic: Seq<u8>, operand: Seq<u8>) -> Seq<u8> {
    seq![9u8] + mnemonic + seq![32u8] + operand
}

/// An instruction line without operand.
pub open spec fn bare(mnemonic: Seq<u8>) -> Seq<u8> {
    seq![9u8] + mnemonic
}

/// A label line: the name and a colon.
pub open spec fn label_line(name: Seq<u8>) -> Seq<u8> {
    name + seq![58u8]
}

/// One byte of an operator glyph, dropped when it is padding.
pub open spec fn keep(c: u8) -> Seq<u8> {
    if c == 32 {
        seq![]
    } else {
        seq![c]
    }
}

/// An operator glyph without its padding spaces.
pub open spec fn strip(g: Seq<u8>) -> Seq<u8> {
    keep(g[0]) + keep(g[1]) + keep(g[2])
}

/// The listing: every line followed by a newline.
pub open spec fn join_lines(lines: Seq<Seq<u8>>) -> Seq<u8>
    decreases lines.len(),
{
    if lines.len() == 0 {
        seq![]
    } else {
        join_lines(lines.drop_last()) + lines.last() + seq![10u8]
    }
}

/// Writes the assembly listing of the compiled code.
pub struct AssemblyEmitter {
    lines: Vec<Vec<u8>>,
    calls: Ghost<Seq<Call>>,
}

impl View for AssemblyEmitter {
    type V = Seq<Seq<u8>>;

    closed spec fn view(&self) -> Seq<Seq<u8>> {
        self.lines@.map_values(|l: Vec<u8>| l@)
    }
}

/// A line built from a mnemonic given as bytes and an operand.
fn make_instr(mnemonic: &[u8], operand: &[u8]) -> (r: Vec<u8>)
    ensures
        r@ == instr(mnemonic@, operand@),
{
    let mut r: Vec<u8> = Vec::new();
    r.push(9u8);
    push_all(&mut r, mnemonic);
    r.push(32u8);
    push_all(&mut r, operand);
    assert(r@ =~= instr(mnemonic@, operand@));
    r
}

/// A line built from a mnemonic and a number in decimal.
fn make_number(mnemonic: &[u8], v: u64) -> (r: Vec<u8>)
    ensures
        r@ == instr(mnemonic@, dec(v as nat)),
{
    let mut r: Vec<u8> = Vec::new();
    r.push(9u8);
    push_all(&mut r, mnemonic);
    r.push(32u8);
    push_decimal(&mut r, v);
    assert(r@ =~= instr(mnemonic@, dec(v as nat)));
    r
}

/// A line without operand.
fn make_bare(mnemonic: &[u8]) -> (r: Vec<u8>)
    ensures
        r@ == bare(mnemonic@),
{
    let mut r: Vec<u8> = Vec::new();
    r.push(9u8);
    push_all(&mut r, mnemonic);
    assert(r@ =~= bare(mnemonic@));
    r
}

/// The name of a numeric label as bytes.
fn make_numeric_name(id: u64) -> (r: Vec<u8>)
    ensures
        r@ == numeric_name(id),
{
    let mut r: Vec<u8> = Vec::new();
    r.push(64u8);
    r.push(108u8);
    r.push(98u8);
    r.push(108u8);
    r.push(95u8);
    push_decimal(&mut r, id);
    assert(r@ =~= numeric_name(id));
    r
}

impl AssemblyEmitter {
    /// An emitter with no line written.
    pub fn new() -> (r: Self)
        ensures
            r@ == Seq::<Seq<u8>>::empty(),
    {
        let r = AssemblyEmitter { lines: Vec::new(), calls: Ghost(Seq::empty()) };
        assert(r@ =~= Seq::<Seq<u8>>::empty());
        r
    }

    /// Appends a line.
    fn push_line(&mut self, line: Vec<u8>)
        ensures
            final(self)@ == old(self)@.push(line@),
    {
        self.lines.push(line);
        assert(self@ =~= old(self)@.push(line@));
    }

    /// The listing written so far, one line per label or instruction.
    pub fn text(&self) -> (r: Vec<u8>)
        ensures
            r@ == join_lines(self@),
    {
        let mut r: Vec<u8> = Vec::new();
        let mut i: usize = 0;
        while i < self.lines.len()
            invariant
                i <= self@.len(),
                r@ == join_lines(self@.subrange(0, i as int)),
            decreases self@.len() - i,
        {
            push_all(&mut r, self.lines[i].as_slice());
            r.push(10u8);
            i += 1;
            assert(self@.subrange(0, i as int).drop_last() =~= self@.subrange(0, i - 1));
            assert(r@ =~= join_lines(self@.subrange(0, i as int)));
        }
        assert(self@.subrange(0, self@.len() as int) =~= self@);
        r
    }
}

impl AssemblyEmitter {
    /// `\tINT <value>`
    pub fn integer(&mut self, value: u64) -> (r: Result<(), Error>)
        ensures
            r is Ok,
            final(self)@ == old(self)@.push(instr(mn_int(), dec(value as nat))),
    {
        let m: [u8; 3] = [73u8, 78u8, 84u8];
        assert(m@ =~= mn_int());
        self.push_line(make_number(&m, value));
        Ok(())
    }

    /// `\tCALL <arguments>`
    pub fn call(&mut self, arguments: u8) -> (r: Result<(), Error>)
        ensures
            r is Ok,
            final(self)@ == old(self)@.push(instr(mn_call(), dec(arguments as nat))),
    {
        let m: [u8; 4] = [67u8, 65u8, 76u8, 76u8];
        assert(m@ =~= mn_call());
        self.push_line(make_number(&m, arguments as u64));
        Ok(())
    }

    /// `\tOP <glyph>`, the padding spaces dropped.
    pub fn binary(&mut self, operator: [u8; 3]) -> (r: Result<(), Error>)
        ensures
            r is Ok,
            final(self)@ == old(self)@.push(instr(mn_op(), strip(operator@))),
    {
        let mut g: Vec<u8> = Vec::new();
        if operator[0] != 32u8 {
            g.push(operator[0]);
        }
        let ghost g1 = g@;
        if operator[1] != 32u8 {
            g.push(operator[1]);
        }
        let ghost g2 = g@;
        if operator[2] != 32u8 {
            g.push(operator[2]);
        }
        assert(g1 =~= keep(operator@[0]));
        assert(g2 =~= keep(operator@[0]) + keep(operator@[1]));
        assert(g@ =~= strip(operator@));
        let m: [u8; 2] = [79u8, 80u8];
        assert(m@ =~= mn_op());
        self.push_line(make_instr(&m, g.as_slice()));
        Ok(())
    }

    /// `\tDROP`
    pub fn drop(&mut self) -> (r: Result<(), Error>)
        ensures
            r is Ok,
            final(self)@ == old(self)@.push(bare(mn_drop())),
    {
        let m: [u8; 4] = [68u8, 82u8, 79u8, 80u8];
        assert(m@ =~= mn_drop());
        self.push_line(make_bare(&m));
        Ok(())
    }

    /// `\tRET`
    pub fn ret(&mut self) -> (r: Result<(), Error>)
        ensures
            r is Ok,
            final(self)@ == old(self)@.push(bare(mn_ret())),
    {
        let m: [u8; 3] = [82u8, 69u8, 84u8];
        assert(m@ =~= mn_ret());
        self.push_line(make_bare(&m));
        Ok(())
    }

    /// `\tVOID`
    pub fn void(&mut self) -> (r: Result<(), Error>)
        ensures
            r is Ok,
            final(self)@ == old(self)@.push(bare(mn_void())),
    {
        let m: [u8; 4] = [86u8, 79u8, 73u8, 68u8];
        assert(m@ =~= mn_void());
        self.push_line(make_bare(&m));
        Ok(())
    }

    /// `@lbl_<id>:`
    pub fn label(&mut self, id: u64) -> (r: Result<(), Error>)
        ensures
            r is Ok,
            final(self)@ == old(self)@.push(label_line(numeric_name(id))),
    {
        let mut line = make_numeric_name(id);
        line.push(58u8);
        assert(line@ =~= label_line(numeric_name(id)));
        self.push_line(line);
        Ok(())
    }

    /// `<name>:`
    pub fn label_named(&mut self, name: &[u8]) -> (r: Result<(), Error>)
        ensures
            r is Ok,
            final(self)@ == old(self)@.push(label_line(name@)),
    {
        let mut line: Vec<u8> = Vec::new();
        push_all(&mut line, name);
        line.push(58u8);
        assert(line@ =~= label_line(name@));
        self.push_line(line);
        Ok(())
    }

    /// `\tJP @lbl_<id>`
    pub fn jump(&mut self, id: u64) -> (r: Result<(), Error>)
        ensures
            r is Ok,
            final(self)@ == old(self)@.push(instr(mn_jp(), numeric_name(id))),
    {
        let name = make_numeric_name(id);
        let m: [u8; 2] = [74u8, 80u8];
        assert(m@ =~= mn_jp());
        self.push_line(make_instr(&m, name.as_slice()));
        Ok(())
    }

    /// `\tJPF @lbl_<id>`
    pub fn jump_false(&mut self, id: u64) -> (r: Result<(), Error>)
        ensures
            r is Ok,
            final(self)@ == old(self)@.push(instr(mn_jpf(), numeric_name(id))),
    {
        let name = make_numeric_name(id);
        let m: [u8; 3] = [74u8, 80u8, 70u8];
        assert(m@ =~= mn_jpf());
        self.push_line(make_instr(&m, name.as_slice()));
        Ok(())
    }

    /// `\tJP <name>`
    pub fn jump_name(&mut self, name: &[u8]) -> (r: Result<(), Error>)
        ensures
            r is Ok,
            final(self)@ == old(self)@.push(instr(mn_jp(), name@)),
    {
        let m: [u8; 2] = [74u8, 80u8];
        assert(m@ =~= mn_jp());
        self.push_line(make_instr(&m, name));
        Ok(())
    }

    /// `\tJPF <name>`
    pub fn jump_false_name(&mut self, name: &[u8]) -> (r: Result<(), Error>)
        ensures
            r is Ok,
            final(self)@ == old(self)@.push(instr(mn_jpf(), name@)),
    {
        let m: [u8; 3] = [74u8, 80u8, 70u8];
        assert(m@ =~= mn_jpf());
        self.push_line(make_instr(&m, name));
        Ok(())
    }

    /// `\tPTR <name>`
    pub fn pointer(&mut self, name: &[u8]) -> (r: Result<(), Error>)
        ensures
            r is Ok,
            final(self)@ == old(self)@.push(instr(mn_ptr(), name@)),
    {
        let m: [u8; 3] = [80u8, 84u8, 82u8];
        assert(m@ =~= mn_ptr());
        self.push_line(make_instr(&m, name));
        Ok(())
    }

    /// `\tLD <index>`
    pub fn load(&mut self, index: u64) -> (r: Result<(), Error>)
        ensures
            r is Ok,
            final(self)@ == old(self)@.push(instr(mn_ld(), dec(index as nat))),
    {
        let m: [u8; 2] = [76u8, 68u8];
        assert(m@ =~= mn_ld());
        self.push_line(make_number(&m, index));
        Ok(())
    }

    /// `\tST <index>`
    pub fn store(&mut self, index: u64) -> (r: Result<(), Error>)
        ensures
            r is Ok,
            final(self)@ == old(self)@.push(instr(mn_st(), dec(index as nat))),
    {
        let m: [u8; 2] = [83u8, 84u8];
        assert(m@ =~= mn_st());
        self.push_line(make_number(&m, index));
        Ok(())
    }

    /// `\tFN <args_count>`, completed by `finish_function`; returns the line.
    pub fn function(&mut self, args_count: u8) -> (r: Result<u64, Error>)
        ensures
            r == Ok::<u64, Error>(old(self)@.len() as u64),
            final(self)@ == old(self)@.push(instr(mn_fn(), dec(args_count as nat))),
    {
        let at = self.lines.len() as u64;
        let m: [u8; 2] = [70u8, 78u8];
        assert(m@ =~= mn_fn());
        self.push_line(make_number(&m, args_count as u64));
        Ok(at)
    }

    /// Appends ` <growth>` to the `FN` line at `cursor`; a cursor past the
    /// listing is an error.
    pub fn finish_function(&mut self, cursor: u64, growth: u32) -> (r: Result<(), Error>)
        ensures
            cursor >= old(self)@.len() ==> r == Err::<(), Error>(Error::PatchOutOfBounds)
                && final(self)@ == old(self)@,
            cursor < old(self)@.len() ==> r is Ok && final(self)@ == old(self)@.update(
                cursor as int,
                old(self)@[cursor as int] + seq![32u8] + dec(growth as nat),
            ),
    {
        if cursor >= self.lines.len() as u64 {
            return Err(Error::PatchOutOfBounds);
        }
        let i = cursor as usize;
        let mut line = crate::bytes::to_vec(self.lines[i].as_slice());
        assert(line@ == old(self)@[cursor as int]);
        line.push(32u8);
        push_decimal(&mut line, growth as u64);
        let ghost lv = line@;
        assert(lv =~= old(self)@[cursor as int] + seq![32u8] + dec(growth as nat));
        self.lines.set(i, line);
        assert(self@ =~= old(self)@.update(
            cursor as int,
            old(self)@[cursor as int] + seq![32u8] + dec(growth as nat),
        ));
        Ok(())
    }
}

impl Emit for AssemblyEmitter {
    open spec fn ready(&self) -> bool {
        true
    }

    open spec fn accepts(&self, c: Call) -> bool {
        true
    }

    open spec fn finish_ok(&self, cursor: u64) -> bool {
        cursor < self@.len()
    }

    closed spec fn calls(&self) -> Seq<Call> {
        self.calls@
    }

    fn integer(&mut self, value: u64) -> (r: Result<(), Error>) {
        let ghost before = self.calls@;
        let r = AssemblyEmitter::integer(self, value);
        if r.is_ok() {
            self.calls = Ghost(before.push(Call::Integer(value)));
        } else {
            self.calls = Ghost(before);
        }
        r
    }

    fn call(&mut self, arguments: u8) -> (r: Result<(), Error>) {
        let ghost before = self.calls@;
        let r = AssemblyEmitter::call(self, arguments);
        if r.is_ok() {
            self.calls = Ghost(before.push(Call::Call(arguments)));
        } else {
            self.calls = Ghost(before);
        }
        r
    }

    fn binary(&mut self, operator: [u8; 3]) -> (r: Result<(), Error>) {
        let ghost before = self.calls@;
        let r = AssemblyEmitter::binary(self, operator);
        if r.is_ok() {
            self.calls = Ghost(before.push(Call::Binary(operator@)));
        } else {
            self.calls = Ghost(before);
        }
        r
    }

    fn drop(&mut self) -> (r: Result<(), Error>) {
        let ghost before = self.calls@;
        let r = AssemblyEmitter::drop(self);
        if r.is_ok() {
            self.calls = Ghost(before.push(Call::Drop));
        } else {
            self.calls = Ghost(before);
        }
        r
    }

    fn ret(&mut self) -> (r: Result<(), Error>) {
        let ghost before = self.calls@;
        let r = AssemblyEmitter::ret(self);
        if r.is_ok() {
            self.calls = Ghost(before.push(Call::Ret));
        } else {
            self.calls = Ghost(before);
        }
        r
    }

    fn void(&mut self) -> (r: Result<(), Error>) {
        let ghost before = self.calls@;
        let r = AssemblyEmitter::void(self);
        if r.is_ok() {
            self.calls = Ghost(before.push(Call::Void));
        } else {
            self.calls = Ghost(before);
        }
        r
    }

    fn label(&mut self, id: u64) -> (r: Result<(), Error>) {
        let ghost before = self.calls@;
        let r = AssemblyEmitter::label(self, id);
        if r.is_ok() {
            self.calls = Ghost(before.push(Call::Label(id)));
        } else {
            self.calls = Ghost(before);
        }
        r
    }

    fn label_named(&mut self, name: &[u8]) -> (r: Result<(), Error>) {
        let ghost before = self.calls@;
        let r = AssemblyEmitter::label_named(self, name);
        if r.is_ok() {
            self.calls = Ghost(before.push(Call::LabelNamed(name@)));
        } else {
            self.calls = Ghost(before);
        }
        r
    }

    fn jump(&mut self, id: u64) -> (r: Result<(), Error>) {
        let ghost before = self.calls@;
        let r = AssemblyEmitter::jump(self, id);
        if r.is_ok() {
            self.calls = Ghost(before.push(Call::Jump(id)));
        } else {
            self.calls = Ghost(before);
        }
        r
    }

    fn jump_false(&mut self, id: u64) -> (r: Result<(), Error>) {
        let ghost before = self.calls@;
        let r = AssemblyEmitter::jump_false(self, id);
        if r.is_ok() {
            self.calls = Ghost(before.push(Call::JumpFalse(id)));
        } else {
            self.calls = Ghost(before);
        }
        r
    }

    fn jump_name(&mut self, name: &[u8]) -> (r: Result<(), Error>) {
        let ghost before = self.calls@;
        let r = AssemblyEmitter::jump_name(self, name);
        if r.is_ok() {
            self.calls = Ghost(before.push(Call::JumpName(name@)));
        } else {
            self.calls = Ghost(before);
        }
        r
    }

    fn jump_false_name(&mut self, name: &[u8]) -> (r: Result<(), Error>) {
        let ghost before = self.calls@;
        let r = AssemblyEmitter::jump_false_name(self, name);
        if r.is_ok() {
            self.calls = Ghost(before.push(Call::JumpFalseName(name@)));
        } else {
            self.calls = Ghost(before);
        }
        r
    }

    fn pointer(&mut self, name: &[u8]) -> (r: Result<(), Error>) {
        let ghost before = self.calls@;
        let r = AssemblyEmitter::pointer(self, name);
        if r.is_ok() {
            self.calls = Ghost(before.push(Call::Pointer(name@)));
        } else {
            self.calls = Ghost(before);
        }
        r
    }

    fn load(&mut self, index: u64) -> (r: Result<(), Error>) {
        let ghost before = self.calls@;
        let r = AssemblyEmitter::load(self, index);
        if r.is_ok() {
            self.calls = Ghost(before.push(Call::Load(index)));
        } else {
            self.calls = Ghost(before);
        }
        r
    }

    fn store(&mut self, index: u64) -> (r: Result<(), Error>) {
        let ghost before = self.calls@;
        let r = AssemblyEmitter::store(self, index);
        if r.is_ok() {
            self.calls = Ghost(before.push(Call::Store(index)));
        } else {
            self.calls = Ghost(before);
        }
        r
    }

    fn function(&mut self, args_count: u8) -> (r: Result<u64, Error>) {
        let ghost before = self.calls@;
        let r = AssemblyEmitter::function(self, args_count);
        if r.is_ok() {
            self.calls = Ghost(before.push(Call::Function(args_count)));
        } else {
            self.calls = Ghost(before);
        }
        r
    }

    fn finish_function(&mut self, cursor: u64, growth: u32) -> (r: Result<(), Error>) {
        let ghost before = self.calls@;
        let r = AssemblyEmitter::finish_function(self, cursor, growth);
        if r.is_ok() {
            self.calls = Ghost(before.push(Call::FinishFunction(growth)));
        } else {
            self.calls = Ghost(before);
        }
        r
    }
}

} // verus!
