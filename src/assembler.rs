//! The assembler: one line of the listing at a time, to emitter calls.
use vstd::prelude::*;
use crate::emit::{acceptable, is_label, Call, Emit};
use crate::error::Error;
use crate::lexer::is_ws;
use crate::text::{digits_value, is_digit, parse_decimal};

verus! {

/// The first position in `[i, j)` that is not whitespace, or `j`.
pub open spec fn skip_ws_to(s: Seq<u8>, i: int, j: int) -> int
    decreases j - i,
{
    if i < j && is_ws(s[i]) {
        skip_ws_to(s, i + 1, j)
    } else {
        i
    }
}

/// The end of `[i, j)` once trailing whitespace is dropped.
pub open spec fn trim_end(s: Seq<u8>, i: int, j: int) -> int
    decreases j - i,
{
    if i < j && is_ws(s[j - 1]) {
        trim_end(s, i, j - 1)
    } else {
        j
    }
}

/// The bytes of `[i, j)` without the whitespace at both ends.
pub open spec fn trimmed(s: Seq<u8>, i: int, j: int) -> Seq<u8> {
    s.subrange(skip_ws_to(s, i, j), trim_end(s, skip_ws_to(s, i, j), j))
}

/// The first `:` in `[i, j)`, or `j`.
pub open spec fn first_colon(s: Seq<u8>, i: int, j: int) -> int
    decreases j - i,
{
    if i < j && s[i] != 58 {
        first_colon(s, i + 1, j)
    } else {
        i
    }
}

/// The first whitespace in `[i, j)`, or `j`.
pub open spec fn first_space(s: Seq<u8>, i: int, j: int) -> int
    decreases j - i,
{
    if i < j && !is_ws(s[i]) {
        first_space(s, i + 1, j)
    } else {
        i
    }
}

/// The value of a non-empty string of decimal digits that fits in 64 bits.
pub open spec fn decimal(s: Seq<u8>) -> Option<u64> {
    if s.len() > 0 && (forall|k: int| 0 <= k < s.len() ==> is_digit(#[trigger] s[k]))
        && digits_value(s) <= u64::MAX {
        Some(digits_value(s) as u64)
    } else {
        None
    }
}

/// `@lbl_`
pub open spec fn lbl_prefix() -> Seq<u8> {
    seq![64u8, 108u8, 98u8, 108u8, 95u8]
}

/// The id of a numeric label name `@lbl_<digits>`.
pub open spec fn numeric_id(name: Seq<u8>) -> Option<u64> {
    if name.len() >= 5 && name.subrange(0, 5) == lbl_prefix() {
        decimal(name.subrange(5, name.len() as int))
    } else {
        None
    }
}

/// A decimal operand that fills `[i, j)` exactly.
pub open spec fn number_at(s: Seq<u8>, i: int, j: int) -> Option<u64> {
    if skip_ws_to(s, i, j) != i || trim_end(s, i, j) != j {
        None
    } else {
        decimal(s.subrange(i, j))
    }
}

/// Whether `[i, j)` starts with `p`.
pub open spec fn starts(s: Seq<u8>, i: int, j: int, p: Seq<u8>) -> bool {
    p.len() <= j - i && s.subrange(i, i + p.len()) == p
}

/// The label call for a name: numeric for `@lbl_<id>`, named otherwise.
pub open spec fn label_call(name: Seq<u8>) -> Call {
    match numeric_id(name) {
        Some(id) => Call::Label(id),
        None => Call::LabelNamed(name),
    }
}

/// A glyph of one to three bytes padded with spaces to three.
pub open spec fn pad3(g: Seq<u8>) -> Seq<u8> {
    seq![g[0], if g.len() > 1 { g[1] } else { 32u8 }, if g.len() > 2 { g[2] } else { 32u8 }]
}

/// The calls of the instruction in `[a, b)`, trimmed and not empty.
#[verifier::opaque]
pub open spec fn instr_calls(s: Seq<u8>, a: int, b: int) -> Result<Seq<Call>, Error> {
    if starts(s, a, b, seq![76u8, 68u8, 32u8]) {
        match number_at(s, a + 3, b) {
            Some(v) => Ok(seq![Call::Load(v)]),
            None => Err(Error::IllFormedOperand),
        }
    } else if starts(s, a, b, seq![83u8, 84u8, 32u8]) {
        match number_at(s, a + 3, b) {
            Some(v) => Ok(seq![Call::Store(v)]),
            None => Err(Error::IllFormedOperand),
        }
    } else if starts(s, a, b, seq![80u8, 84u8, 82u8, 32u8]) {
        Ok(seq![Call::Pointer(trimmed(s, a + 4, b))])
    } else if starts(s, a, b, seq![73u8, 78u8, 84u8, 32u8]) {
        match number_at(s, a + 4, b) {
            Some(v) => Ok(seq![Call::Integer(v)]),
            None => Err(Error::IllFormedOperand),
        }
    } else if starts(s, a, b, seq![79u8, 80u8, 32u8]) {
        let g = trimmed(s, a + 3, b);
        if g.len() > 3 || g.len() == 0 {
            Err(Error::IllFormedOperand)
        } else {
            Ok(seq![Call::Binary(pad3(g))])
        }
    } else if starts(s, a, b, seq![74u8, 80u8, 70u8, 32u8]) {
        let name = trimmed(s, a + 4, b);
        match numeric_id(name) {
            Some(id) => Ok(seq![Call::JumpFalse(id)]),
            None => Ok(seq![Call::JumpFalseName(name)]),
        }
    } else if starts(s, a, b, seq![74u8, 80u8, 32u8]) {
        let name = trimmed(s, a + 3, b);
        match numeric_id(name) {
            Some(id) => Ok(seq![Call::Jump(id)]),
            None => Ok(seq![Call::JumpName(name)]),
        }
    } else if starts(s, a, b, seq![67u8, 65u8, 76u8, 76u8, 32u8]) {
        match number_at(s, a + 5, b) {
            Some(v) => if v > 255 {
                Err(Error::IllFormedOperand)
            } else {
                Ok(seq![Call::Call(v as u8)])
            },
            None => Err(Error::IllFormedOperand),
        }
    } else if starts(s, a, b, seq![70u8, 78u8, 32u8]) {
        let na = skip_ws_to(s, a + 3, b);
        let nb = trim_end(s, na, b);
        let k = first_space(s, na, nb);
        let ga = skip_ws_to(s, k, nb);
        let gb = trim_end(s, ga, nb);
        match (number_at(s, na, k), number_at(s, ga, gb)) {
            (Some(argc), Some(growth)) => if argc > 255 || growth > u32::MAX || ga == k {
                Err(Error::IllFormedOperand)
            } else {
                Ok(seq![Call::Function(argc as u8), Call::FinishFunction(growth as u32)])
            },
            _ => Err(Error::IllFormedOperand),
        }
    } else if b - a == 3 && starts(s, a, b, seq![82u8, 69u8, 84u8]) {
        Ok(seq![Call::Ret])
    } else if b - a == 4 && starts(s, a, b, seq![68u8, 82u8, 79u8, 80u8]) {
        Ok(seq![Call::Drop])
    } else if b - a == 4 && starts(s, a, b, seq![86u8, 79u8, 73u8, 68u8]) {
        Ok(seq![Call::Void])
    } else {
        Err(Error::UnknownMnemonic)
    }
}

/// The calls of `[a, b)` (trimmed): labels `name:` one after the other,
/// then one instruction or nothing.
pub open spec fn labels_calls(s: Seq<u8>, a: int, b: int) -> Result<Seq<Call>, Error>
    decreases b - a,
{
    let k = first_colon(s, a, b);
    if a >= b {
        Ok(seq![])
    } else if k >= b {
        instr_calls(s, a, b)
    } else {
        let c = label_call(trimmed(s, a, k));
        let a2 = skip_ws_to(s, k + 1, b);
        if a2 >= b || a2 <= a {
            Ok(seq![c])
        } else {
            match labels_calls(s, a2, b) {
                Ok(cs) => Ok(seq![c] + cs),
                Err(e) => Err(e),
            }
        }
    }
}

/// The calls that one line of the listing makes.
pub open spec fn line_calls(s: Seq<u8>) -> Result<Seq<Call>, Error> {
    let a = skip_ws_to(s, 0, s.len() as int);
    labels_calls(s, a, trim_end(s, a, s.len() as int))
}

/// Bounds of `s[i..j]` without the whitespace at both ends.
pub fn trim(s: &[u8], i: usize, j: usize) -> (r: (usize, usize))
    requires
        i <= j <= s@.len(),
    ensures
        i <= r.0 <= r.1 <= j,
        r.0 == skip_ws_to(s@, i as int, j as int),
        r.1 == trim_end(s@, r.0 as int, j as int),
{
    let mut a = i;
    while a < j && crate::lexer::is_space(s[a])
        invariant
            i <= a <= j <= s@.len(),
            skip_ws_to(s@, i as int, j as int) == skip_ws_to(s@, a as int, j as int),
        decreases j - a,
    {
        a += 1;
    }
    let mut b = j;
    while b > a && crate::lexer::is_space(s[b - 1])
        invariant
            a <= b <= j <= s@.len(),
            trim_end(s@, a as int, j as int) == trim_end(s@, a as int, b as int),
        decreases b - a,
    {
        b -= 1;
    }
    (a, b)
}

/// Whether `s[i..j]` starts with `p`.
pub fn starts_with(s: &[u8], i: usize, j: usize, p: &[u8]) -> (r: bool)
    requires
        i <= j <= s@.len(),
    ensures
        r == (p@.len() <= j - i && s@.subrange(i as int, i + p@.len()) == p@),
{
    if p.len() > j - i {
        return false;
    }
    let mut k: usize = 0;
    while k < p.len()
        invariant
            p@.len() <= j - i,
            i <= j <= s@.len(),
            k <= p@.len(),
            forall|m: int| 0 <= m < k ==> s@[i + m] == p@[m],
        decreases p@.len() - k,
    {
        if s[i + k] != p[k] {
            assert(s@.subrange(i as int, i + p@.len())[k as int] != p@[k as int]);
            return false;
        }
        k += 1;
    }
    assert(s@.subrange(i as int, i + p@.len()) =~= p@);
    true
}

/// Copies `s[i..j]`.
fn slice_of(s: &[u8], i: usize, j: usize) -> (r: Vec<u8>)
    requires
        i <= j <= s@.len(),
    ensures
        r@ == s@.subrange(i as int, j as int),
{
    crate::bytes::take(s, i, j - i)
}

/// The numeric label id of a name of the form `@lbl_` followed by digits.
pub fn numeric_label(name: &[u8]) -> (r: Option<u64>)
    ensures
        r == numeric_id(name@),
{
    let p: [u8; 5] = [64u8, 108u8, 98u8, 108u8, 95u8];
    assert(p@ =~= lbl_prefix());
    if !starts_with(name, 0, name.len(), &p) {
        return None;
    }
    let digits = slice_of(name, 5, name.len());
    parse_decimal(digits.as_slice())
}

/// Drives an emitter from assembly lines.
pub struct Assembler<E: Emit> {
    emiter: E,
}

impl<E: Emit> Assembler<E> {
    /// The emitter is consistent.
    pub closed spec fn wf(&self) -> bool {
        self.emiter.ready()
    }

    /// The calls made on the emitter so far.
    pub closed spec fn calls(&self) -> Seq<Call> {
        self.emiter.calls()
    }

    /// The emitter the listing goes to.
    pub closed spec fn target(&self) -> E {
        self.emiter
    }

    /// An assembler writing to `emiter`.
    pub fn new(emiter: E) -> (r: Self)
        requires
            emiter.ready(),
        ensures
            r.wf(),
            r.calls() == emiter.calls(),
            r.target() == emiter,
    {
        Assembler { emiter }
    }

    /// Gives the emitter back.
    pub fn into_emitter(self) -> (r: E)
        requires
            self.wf(),
        ensures
            r.ready(),
            r.calls() == self.calls(),
    {
        self.emiter
    }

    /// Defines a label, numeric for `@lbl_<id>`, named otherwise.
    fn label(&mut self, name: &[u8]) -> (r: Result<(), Error>)
        requires
            old(self).wf(),
        ensures
            final(self).wf(),
            r is Ok ==> final(self).calls() == old(self).calls().push(label_call(name@)),
            old(self).target().accepts(label_call(name@)) ==> r is Ok,
            r is Ok ==> forall|c: Call|
                old(self).target().accepts(c) && c != label_call(name@) ==> #[trigger] final(self).target().accepts(c),
    {
        match numeric_label(name) {
            Some(id) => self.emiter.label(id),
            None => self.emiter.label_named(name),
        }
    }

    /// A decimal operand in `s[i..j]`, or an ill-formed operand error.
    fn number(s: &[u8], i: usize, j: usize) -> (r: Result<u64, Error>)
        requires
            i <= j <= s@.len(),
        ensures
            number_at(s@, i as int, j as int) is Some ==> r == Ok::<u64, Error>(
                number_at(s@, i as int, j as int)->0,
            ),
            number_at(s@, i as int, j as int) is None ==> r == Err::<u64, Error>(
                Error::IllFormedOperand,
            ),
    {
        let (a, b) = trim(s, i, j);
        if a != i || b != j {
            return Err(Error::IllFormedOperand);
        }
        let digits = slice_of(s, a, b);
        match parse_decimal(digits.as_slice()) {
            Some(v) => Ok(v),
            None => Err(Error::IllFormedOperand),
        }
    }

    /// Emits the instruction in `[a, b)`, trimmed and not empty.
    #[verifier::rlimit(100)]
    fn instruction(&mut self, line: &[u8], a: usize, b: usize) -> (r: Result<(), Error>)
        requires
            old(self).wf(),
            a < b <= line@.len(),
        ensures
            final(self).wf(),
            r is Ok ==> instr_calls(line@, a as int, b as int) is Ok && final(self).calls() == old(
                self,
            ).calls() + instr_calls(line@, a as int, b as int)->Ok_0,
            instr_calls(line@, a as int, b as int) is Err ==> r is Err,
            instr_calls(line@, a as int, b as int) is Ok && acceptable(
                old(self).target(),
                instr_calls(line@, a as int, b as int)->Ok_0,
            ) ==> r is Ok,
            r is Ok ==> forall|c: Call|
                old(self).target().accepts(c) && (is_label(c) ==> forall|i: int|
                    0 <= i < instr_calls(line@, a as int, b as int)->Ok_0.len() ==> instr_calls(
                        line@,
                        a as int,
                        b as int,
                    )->Ok_0[i] != c) ==> #[trigger] final(self).target().accepts(c),
    {
        proof {
            let r0 = instr_calls(line@, a as int, b as int);
            if r0 is Ok && acceptable(self.target(), r0->Ok_0) {
                if r0->Ok_0.len() > 0 {
                    assert(self.target().accepts(r0->Ok_0[0]));
                }
                if r0->Ok_0.len() > 1 {
                    assert(self.target().accepts(r0->Ok_0[1]));
                }
            }
        }
        reveal(instr_calls);
        let ghost s = line@;
        let p_ld: [u8; 3] = [76u8, 68u8, 32u8];
        let p_st: [u8; 3] = [83u8, 84u8, 32u8];
        let p_ptr: [u8; 4] = [80u8, 84u8, 82u8, 32u8];
        let p_int: [u8; 4] = [73u8, 78u8, 84u8, 32u8];
        let p_op: [u8; 3] = [79u8, 80u8, 32u8];
        let p_jpf: [u8; 4] = [74u8, 80u8, 70u8, 32u8];
        let p_jp: [u8; 3] = [74u8, 80u8, 32u8];
        let p_call: [u8; 5] = [67u8, 65u8, 76u8, 76u8, 32u8];
        let p_fn: [u8; 3] = [70u8, 78u8, 32u8];
        let p_ret: [u8; 3] = [82u8, 69u8, 84u8];
        let p_drop: [u8; 4] = [68u8, 82u8, 79u8, 80u8];
        let p_void: [u8; 4] = [86u8, 79u8, 73u8, 68u8];
        assert(p_ld@ =~= seq![76u8, 68u8, 32u8]);
        assert(p_st@ =~= seq![83u8, 84u8, 32u8]);
        assert(p_ptr@ =~= seq![80u8, 84u8, 82u8, 32u8]);
        assert(p_int@ =~= seq![73u8, 78u8, 84u8, 32u8]);
        assert(p_op@ =~= seq![79u8, 80u8, 32u8]);
        assert(p_jpf@ =~= seq![74u8, 80u8, 70u8, 32u8]);
        assert(p_jp@ =~= seq![74u8, 80u8, 32u8]);
        assert(p_call@ =~= seq![67u8, 65u8, 76u8, 76u8, 32u8]);
        assert(p_fn@ =~= seq![70u8, 78u8, 32u8]);
        assert(p_ret@ =~= seq![82u8, 69u8, 84u8]);
        assert(p_drop@ =~= seq![68u8, 82u8, 79u8, 80u8]);
        assert(p_void@ =~= seq![86u8, 79u8, 73u8, 68u8]);
        if starts_with(line, a, b, &p_ld) {
            let v = Self::number(line, a + 3, b)?;
            let r = self.emiter.load(v);
            assert(seq![Call::Load(v)] =~= Seq::empty().push(Call::Load(v)));
            r
        } else if starts_with(line, a, b, &p_st) {
            let v = Self::number(line, a + 3, b)?;
            let r = self.emiter.store(v);
            assert(seq![Call::Store(v)] =~= Seq::empty().push(Call::Store(v)));
            r
        } else if starts_with(line, a, b, &p_ptr) {
            let (na, nb) = trim(line, a + 4, b);
            let name = slice_of(line, na, nb);
            let r = self.emiter.pointer(name.as_slice());
            assert(seq![Call::Pointer(name@)] =~= Seq::empty().push(Call::Pointer(name@)));
            r
        } else if starts_with(line, a, b, &p_int) {
            let v = Self::number(line, a + 4, b)?;
            let r = self.emiter.integer(v);
            assert(seq![Call::Integer(v)] =~= Seq::empty().push(Call::Integer(v)));
            r
        } else if starts_with(line, a, b, &p_op) {
            let (na, nb) = trim(line, a + 3, b);
            if nb - na > 3 || nb == na {
                return Err(Error::IllFormedOperand);
            }
            let c0b = line[na];
            let c1 = if nb - na > 1 {
                line[na + 1]
            } else {
                32u8
            };
            let c2 = if nb - na > 2 {
                line[na + 2]
            } else {
                32u8
            };
            let op = [c0b, c1, c2];
            assert(op@ =~= pad3(s.subrange(na as int, nb as int)));
            let r = self.emiter.binary(op);
            assert(seq![Call::Binary(op@)] =~= Seq::empty().push(Call::Binary(op@)));
            r
        } else if starts_with(line, a, b, &p_jpf) {
            let (na, nb) = trim(line, a + 4, b);
            let name = slice_of(line, na, nb);
            match numeric_label(name.as_slice()) {
                Some(id) => {
                    let r = self.emiter.jump_false(id);
                    assert(seq![Call::JumpFalse(id)] =~= Seq::empty().push(Call::JumpFalse(id)));
                    r
                },
                None => {
                    let r = self.emiter.jump_false_name(name.as_slice());
                    assert(seq![Call::JumpFalseName(name@)] =~= Seq::empty().push(
                        Call::JumpFalseName(name@),
                    ));
                    r
                },
            }
        } else if starts_with(line, a, b, &p_jp) {
            let (na, nb) = trim(line, a + 3, b);
            let name = slice_of(line, na, nb);
            match numeric_label(name.as_slice()) {
                Some(id) => {
                    let r = self.emiter.jump(id);
                    assert(seq![Call::Jump(id)] =~= Seq::empty().push(Call::Jump(id)));
                    r
                },
                None => {
                    let r = self.emiter.jump_name(name.as_slice());
                    assert(seq![Call::JumpName(name@)] =~= Seq::empty().push(
                        Call::JumpName(name@),
                    ));
                    r
                },
            }
        } else if starts_with(line, a, b, &p_call) {
            let v = Self::number(line, a + 5, b)?;
            if v > 255 {
                return Err(Error::IllFormedOperand);
            }
            let r = self.emiter.call(v as u8);
            assert(seq![Call::Call(v as u8)] =~= Seq::empty().push(Call::Call(v as u8)));
            r
        } else if starts_with(line, a, b, &p_fn) {
            let (na, nb) = trim(line, a + 3, b);
            let mut k = na;
            while k < nb && !crate::lexer::is_space(line[k])
                invariant
                    na <= k <= nb,
                    nb <= line@.len(),
                    s == line@,
                    first_space(s, na as int, nb as int) == first_space(s, k as int, nb as int),
                decreases nb - k,
            {
                k += 1;
            }
            let argc = Self::number(line, na, k)?;
            let (ga, gb) = trim(line, k, nb);
            let growth = Self::number(line, ga, gb)?;
            if argc > 255 || growth > u32::MAX as u64 || ga == k {
                return Err(Error::IllFormedOperand);
            }
            let cursor = self.emiter.function(argc as u8)?;
            let r = self.emiter.finish_function(cursor, growth as u32);
            assert(seq![Call::Function(argc as u8), Call::FinishFunction(growth as u32)] =~= Seq::<
                Call,
            >::empty().push(Call::Function(argc as u8)).push(Call::FinishFunction(growth as u32)));
            r
        } else if b - a == 3 && starts_with(line, a, b, &p_ret) {
            let r = self.emiter.ret();
            assert(seq![Call::Ret] =~= Seq::empty().push(Call::Ret));
            r
        } else if b - a == 4 && starts_with(line, a, b, &p_drop) {
            let r = self.emiter.drop();
            assert(seq![Call::Drop] =~= Seq::empty().push(Call::Drop));
            r
        } else if b - a == 4 && starts_with(line, a, b, &p_void) {
            let r = self.emiter.void();
            assert(seq![Call::Void] =~= Seq::empty().push(Call::Void));
            r
        } else {
            Err(Error::UnknownMnemonic)
        }
    }

    /// Assembles one line: labels `name:` (any number, before an
    /// instruction or alone), then one instruction or nothing. An unknown
    /// mnemonic or a malformed operand is an error.
    pub fn assemble(&mut self, line: &[u8]) -> (r: Result<(), Error>)
        requires
            old(self).wf(),
        ensures
            final(self).wf(),
            r is Ok ==> line_calls(line@) is Ok && final(self).calls() == old(self).calls()
                + line_calls(line@)->Ok_0,
            line_calls(line@) is Err ==> r is Err,
            line_calls(line@) is Ok && acceptable(old(self).target(), line_calls(line@)->Ok_0)
                ==> r is Ok,
            r is Ok ==> forall|c: Call|
                old(self).target().accepts(c) && (is_label(c) ==> forall|i: int|
                    0 <= i < line_calls(line@)->Ok_0.len() ==> line_calls(line@)->Ok_0[i] != c)
                    ==> #[trigger] final(self).target().accepts(c),
    {
        let ghost s = line@;
        let (a0, b) = trim(line, 0, line.len());
        let mut a = a0;
        let ghost mut done: Seq<Call> = Seq::empty();
        assert(old(self).calls() + done =~= old(self).calls());
        loop
            invariant
                self.wf(),
                s == line@,
                a0 <= a <= b <= line@.len(),
                self.calls() == old(self).calls() + done,
                match labels_calls(s, a as int, b as int) {
                    Ok(cs) => line_calls(s) == Ok::<Seq<Call>, Error>(done + cs),
                    Err(e) => line_calls(s) == Err::<Seq<Call>, Error>(e),
                },
                line_calls(s) is Ok && acceptable(old(self).target(), line_calls(s)->Ok_0)
                    ==> labels_calls(s, a as int, b as int) is Ok && acceptable(
                    self.target(),
                    labels_calls(s, a as int, b as int)->Ok_0,
                ),
                forall|c: Call|
                    old(self).target().accepts(c) && (is_label(c) ==> forall|i: int|
                        0 <= i < done.len() ==> done[i] != c) ==> #[trigger] self.target().accepts(c),
            decreases b - a,
        {
            if a >= b {
                assert(done + Seq::<Call>::empty() =~= done);
                assert(line_calls(s)->Ok_0 =~= done);
                return Ok(());
            }
            let mut k = a;
            while k < b && line[k] != 58u8
                invariant
                    a <= k <= b,
                    b <= line@.len(),
                    s == line@,
                    first_colon(s, a as int, b as int) == first_colon(s, k as int, b as int),
                decreases b - k,
            {
                k += 1;
            }
            if k == b {
                let ghost before = self.calls();
                let ghost t1 = self.target();
                let r = self.instruction(line, a, b);
                proof {
                    if r is Ok {
                        let ics = instr_calls(s, a as int, b as int)->Ok_0;
                        assert(self.calls() =~= old(self).calls() + (done + ics));
                        assert(line_calls(s)->Ok_0 =~= done + ics);
                        assert forall|c2: Call|
                            old(self).target().accepts(c2) && (is_label(c2) ==> forall|i: int|
                                0 <= i < line_calls(s)->Ok_0.len() ==> line_calls(s)->Ok_0[i]
                                != c2) implies #[trigger] self.target().accepts(c2) by {
                            let all = line_calls(s)->Ok_0;
                            if is_label(c2) {
                                assert forall|i: int| 0 <= i < done.len() implies done[i] != c2 by {
                                    assert(all[i] == done[i]);
                                }
                                assert forall|i: int| 0 <= i < ics.len() implies ics[i] != c2 by {
                                    assert(all[done.len() + i] == ics[i]);
                                }
                            }
                            assert(t1.accepts(c2));
                        }
                    }
                }
                return r;
            }
            let (na, nb) = trim(line, a, k);
            let name = slice_of(line, na, nb);
            let ghost c = label_call(name@);
            let (a2, _) = trim(line, k + 1, b);
            proof {
                assert(first_colon(s, a as int, b as int) == k);
                assert(name@ == trimmed(s, a as int, k as int));
                assert(a2 > a);
                if a2 < b {
                    assert(labels_calls(s, a as int, b as int) == match labels_calls(
                        s,
                        a2 as int,
                        b as int,
                    ) {
                        Ok(cs) => Ok::<Seq<Call>, Error>(seq![c] + cs),
                        Err(e) => Err::<Seq<Call>, Error>(e),
                    });
                } else {
                    assert(labels_calls(s, a as int, b as int) == Ok::<Seq<Call>, Error>(seq![c]));
                }
                if line_calls(s) is Ok && acceptable(old(self).target(), line_calls(s)->Ok_0) {
                    let rest = labels_calls(s, a as int, b as int)->Ok_0;
                    assert(rest[0] == c);
                    assert(self.target().accepts(rest[0]));
                }
            }
            let ghost t0 = self.target();
            let ghost rest0 = labels_calls(s, a as int, b as int);
            self.label(name.as_slice())?;
            proof {
                let done_old = done;
                done = done.push(c);
                assert(self.calls() =~= old(self).calls() + done);
                assert forall|c2: Call|
                    old(self).target().accepts(c2) && (is_label(c2) ==> forall|i: int|
                        0 <= i < done.len() ==> done[i] != c2) implies #[trigger] self.target().accepts(c2) by {
                    assert(is_label(c));
                    if is_label(c2) {
                        assert forall|i: int| 0 <= i < done_old.len() implies done_old[i] != c2 by {
                            assert(done[i] == done_old[i]);
                        }
                        assert(done[done.len() - 1] == c);
                    }
                    assert(t0.accepts(c2));
                }
                if a2 < b {
                    match labels_calls(s, a2 as int, b as int) {
                        Ok(cs) => {
                            assert(done_old + (seq![c] + cs) =~= done + cs);
                            if line_calls(s) is Ok && acceptable(old(self).target(), line_calls(s)->Ok_0) {
                                let rest = rest0->Ok_0;
                                assert(rest == seq![c] + cs);
                                assert forall|i: int, j: int| 0 <= i < j < cs.len() && is_label(cs[i]) implies cs[i] != cs[j] by {
                                    assert(rest[i + 1] == cs[i] && rest[j + 1] == cs[j]);
                                }
                                assert forall|i: int| 0 <= i < cs.len() implies #[trigger] self.target().accepts(cs[i]) by {
                                    assert(rest[i + 1] == cs[i]);
                                    assert(t0.accepts(rest[i + 1]));
                                    assert(rest[0] != rest[i + 1]);
                                }
                            }
                        },
                        Err(e) => {},
                    }
                } else {
                    assert(done_old + seq![c] =~= done);
                }
            }
            if a2 >= b {
                assert(line_calls(s)->Ok_0 =~= done);
                return Ok(());
            }
            a = a2;
        }
    }
}

/// The first newline at or after `i`, or the end.
pub open spec fn line_end(t: Seq<u8>, i: int) -> int
    decreases t.len() - i,
{
    if 0 <= i < t.len() && t[i] != 10 {
        line_end(t, i + 1)
    } else {
        i
    }
}

/// The calls that the lines of a listing from `start` on make, in order.
pub open spec fn listing_calls(t: Seq<u8>, start: int) -> Result<Seq<Call>, Error>
    decreases t.len() - start,
{
    if start < 0 || start >= t.len() {
        Ok(seq![])
    } else {
        let e = line_end(t, start);
        match line_calls(t.subrange(start, e)) {
            Err(x) => Err(x),
            Ok(cs) => if e >= t.len() || e < start {
                Ok(cs)
            } else {
                match listing_calls(t, e + 1) {
                    Ok(rest) => Ok(cs + rest),
                    Err(x) => Err(x),
                }
            },
        }
    }
}

proof fn lemma_line_end_bounds(t: Seq<u8>, i: int)
    requires
        0 <= i <= t.len(),
    ensures
        i <= line_end(t, i) <= t.len(),
    decreases t.len() - i,
{
    if i < t.len() && t[i] != 10 {
        lemma_line_end_bounds(t, i + 1);
    }
}

/// A call sequence that a fresh binary emitter accepts: no label defined
/// twice, and every operator glyph has an instruction.
pub open spec fn binary_acceptable(cs: Seq<Call>) -> bool {
    &&& forall|i: int, j: int| 0 <= i < j < cs.len() && is_label(cs[i]) ==> cs[i] != cs[j]
    &&& forall|i: int|
        0 <= i < cs.len() ==> match #[trigger] cs[i] {
            Call::Binary(g) => crate::emitter::op_of(g) is Some,
            _ => true,
        }
}

/// The calls of a prefix are acceptable when the whole is.
proof fn lemma_acceptable_prefix<E: Emit>(e: E, cs: Seq<Call>, rest: Seq<Call>)
    requires
        acceptable(e, cs + rest),
    ensures
        acceptable(e, cs),
{
    let all = cs + rest;
    assert forall|i: int| 0 <= i < cs.len() implies #[trigger] e.accepts(cs[i]) by {
        assert(all[i] == cs[i]);
    }
    assert forall|i: int, j: int| 0 <= i < j < cs.len() && is_label(cs[i]) implies cs[i] != cs[j] by {
        assert(all[i] == cs[i] && all[j] == cs[j]);
    }
}

/// After the calls `cs`, the rest stays acceptable.
proof fn lemma_acceptable_rest<E: Emit>(e: E, e2: E, cs: Seq<Call>, rest: Seq<Call>)
    requires
        acceptable(e, cs + rest),
        forall|c: Call|
            e.accepts(c) && (is_label(c) ==> forall|i: int| 0 <= i < cs.len() ==> cs[i] != c) ==> #[trigger] e2.accepts(c),
    ensures
        acceptable(e2, rest),
{
    let all = cs + rest;
    assert forall|j: int| 0 <= j < rest.len() implies #[trigger] e2.accepts(rest[j]) by {
        assert(all[cs.len() + j] == rest[j]);
        assert(e.accepts(all[cs.len() + j]));
        if is_label(rest[j]) {
            assert forall|i: int| 0 <= i < cs.len() implies cs[i] != rest[j] by {
                assert(all[i] == cs[i]);
            }
        }
    }
    assert forall|i: int, j: int| 0 <= i < j < rest.len() && is_label(rest[i]) implies rest[i] != rest[j] by {
        assert(all[cs.len() + i] == rest[i] && all[cs.len() + j] == rest[j]);
    }
}

/// Assembles a whole listing, line by line, and gives the emitter back.
pub fn assemble<E: Emit>(text: &[u8], emiter: E) -> (r: Result<E, Error>)
    requires
        emiter.ready(),
    ensures
        r is Ok ==> r->Ok_0.ready() && listing_calls(text@, 0) is Ok && r->Ok_0.calls()
            == emiter.calls() + listing_calls(text@, 0)->Ok_0,
        listing_calls(text@, 0) is Err ==> r is Err,
        listing_calls(text@, 0) is Ok && acceptable(emiter, listing_calls(text@, 0)->Ok_0)
            ==> r is Ok,
{
    let ghost t = text@;
    let mut assembler = Assembler::new(emiter);
    let mut start: usize = 0;
    let mut i: usize = 0;
    let ghost mut done: Seq<Call> = Seq::empty();
    assert(emiter.calls() + done =~= emiter.calls());
    while i < text.len()
        invariant
            assembler.wf(),
            t == text@,
            start <= i <= text@.len(),
            line_end(t, start as int) == line_end(t, i as int),
            assembler.calls() == emiter.calls() + done,
            match listing_calls(t, start as int) {
                Ok(rest) => listing_calls(t, 0) == Ok::<Seq<Call>, Error>(done + rest),
                Err(x) => listing_calls(t, 0) == Err::<Seq<Call>, Error>(x),
            },
            listing_calls(t, 0) is Ok && acceptable(emiter, listing_calls(t, 0)->Ok_0)
                ==> listing_calls(t, start as int) is Ok && acceptable(
                assembler.target(),
                listing_calls(t, start as int)->Ok_0,
            ),
        decreases text@.len() - i,
    {
        if text[i] == 10u8 {
            let line = slice_of(text, start, i);
            proof {
                lemma_line_end_bounds(t, (i + 1) as int);
            }
            let ghost t0 = assembler.target();
            proof {
                if listing_calls(t, 0) is Ok && acceptable(emiter, listing_calls(t, 0)->Ok_0) {
                    assert(line@ == t.subrange(start as int, line_end(t, start as int)));
                    let cs = line_calls(line@)->Ok_0;
                    if listing_calls(t, i + 1) is Ok {
                        assert(listing_calls(t, start as int)->Ok_0 == cs + listing_calls(t, i + 1)->Ok_0);
                        lemma_acceptable_prefix(t0, cs, listing_calls(t, i + 1)->Ok_0);
                    }
                }
            }
            assembler.assemble(line.as_slice())?;
            proof {
                let cs = line_calls(line@)->Ok_0;
                if listing_calls(t, 0) is Ok && acceptable(emiter, listing_calls(t, 0)->Ok_0) {
                    lemma_acceptable_rest(t0, assembler.target(), cs, listing_calls(t, i + 1)->Ok_0);
                }
                let done_old = done;
                done = done + cs;
                assert(assembler.calls() =~= emiter.calls() + done);
                match listing_calls(t, i + 1) {
                    Ok(rest) => {
                        assert(done_old + (cs + rest) =~= done + rest);
                    },
                    Err(x) => {},
                }
            }
            start = i + 1;
        }
        i += 1;
    }
    if start < text.len() {
        let line = slice_of(text, start, text.len());
        proof {
            lemma_line_end_bounds(t, start as int);
        }
        assembler.assemble(line.as_slice())?;
        proof {
            let cs = line_calls(line@)->Ok_0;
            assert(assembler.calls() =~= emiter.calls() + (done + cs));
        }
    } else {
        assert(done + Seq::<Call>::empty() =~= done);
    }
    Ok(assembler.into_emitter())
}

/// Assembles a listing into a resolved module.
pub fn assemble_module(text: &[u8]) -> (r: Result<crate::module::Module, Error>)
    ensures
        r is Ok ==> r->Ok_0.wf(),
        listing_calls(text@, 0) is Err ==> r is Err,
        listing_calls(text@, 0) is Ok && binary_acceptable(listing_calls(text@, 0)->Ok_0) ==> r is Ok,
{
    let e0 = crate::emitter::Emitter::new();
    proof {
        let cs = listing_calls(text@, 0)->Ok_0;
        if listing_calls(text@, 0) is Ok && binary_acceptable(cs) {
            assert forall|i: int| 0 <= i < cs.len() implies #[trigger] e0.accepts(cs[i]) by {
                match cs[i] {
                    Call::Label(id) => {},
                    Call::LabelNamed(n) => {},
                    _ => {},
                }
            }
        }
    }
    let mut emitter = assemble(text, e0)?;
    emitter.resolve()?;
    Ok(emitter.into_module())
}

} // verus!
