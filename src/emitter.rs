//! The binary emitter: it appends instructions to an opcode buffer and keeps
//! the label and link tables that resolution and linking need.
use vstd::prelude::*;
use crate::bytes::{be8, write_u64};
use crate::emit::{Call, Emit};
use crate::error::Error;
use crate::module::{IndexedLabels, IndexedLinks, Module, NamedLabels, NamedLinks};
use crate::opcodes::{ADD, CALL, DROP, EQ, GR, INT1, INT3, INT8, JP, JPF, LD1, LD3, LD8, LE, LS, MUL, PTR, RET, ST1, ST3, ST8, SUB, VOID};
use crate::patch::{
    all_apart, cross_apart, lemma_add_site_apart, lemma_cross_sym, lemma_unresolved_apart,
    lemma_unresolved_within, lemma_within_fit, resolved_ops, unresolved,
};
use crate::table::{add_links, has_key, id_key, sites_within};

verus! {

/// The instruction for an integer literal, in the smallest width that holds it.
pub open spec fn enc_int(v: u64) -> Seq<u8> {
    if v <= 0xFF {
        seq![INT1, v as u8]
    } else if v <= 0xFF_FFFF {
        seq![INT3, (v >> 16u64) as u8, (v >> 8u64) as u8, v as u8]
    } else {
        seq![INT8] + be8(v)
    }
}

/// The instruction for a local slot access, in the smallest width that holds
/// the index: `op1`, `op3` or `op8` by width.
pub open spec fn enc_slot(op1: u8, op3: u8, op8: u8, i: u64) -> Seq<u8> {
    if i <= 0xFF {
        seq![op1, i as u8]
    } else if i <= 0xFF_FFFF {
        seq![op3, (i >> 16u64) as u8, (i >> 8u64) as u8, i as u8]
    } else {
        seq![op8] + be8(i)
    }
}

/// The opcode of an operator glyph, padded with spaces to three bytes.
pub open spec fn op_of(g: Seq<u8>) -> Option<u8> {
    if g == seq![43u8, 32u8, 32u8] {
        Some(ADD)
    } else if g == seq![60u8, 32u8, 32u8] {
        Some(LS)
    } else if g == seq![62u8, 32u8, 32u8] {
        Some(GR)
    } else if g == seq![61u8, 61u8, 32u8] {
        Some(EQ)
    } else if g == seq![60u8, 61u8, 32u8] {
        Some(LE)
    } else if g == seq![45u8, 32u8, 32u8] {
        Some(SUB)
    } else if g == seq![42u8, 32u8, 32u8] {
        Some(MUL)
    } else {
        None
    }
}

/// Encoding is width-optimal: an integer literal takes two bytes exactly when
/// it is at most 255, four exactly when it is above 255 and at most
/// 0xFF_FFFF, and nine otherwise; likewise for local slot indices.
pub proof fn lemma_width_optimal(k: u64, op1: u8, op3: u8, op8: u8)
    ensures
        enc_int(k).len() == 2 <==> k <= 0xFF,
        enc_int(k).len() == 4 <==> 0xFF < k <= 0xFF_FFFF,
        enc_int(k).len() == 9 <==> k > 0xFF_FFFF,
        enc_int(k)[0] == INT1 <==> k <= 0xFF,
        enc_int(k)[0] == INT3 <==> 0xFF < k <= 0xFF_FFFF,
        enc_int(k)[0] == INT8 <==> k > 0xFF_FFFF,
        enc_slot(op1, op3, op8, k).len() == 2 <==> k <= 0xFF,
        enc_slot(op1, op3, op8, k).len() == 4 <==> 0xFF < k <= 0xFF_FFFF,
        enc_slot(op1, op3, op8, k).len() == 9 <==> k > 0xFF_FFFF,
{
}

/// The opcode of an operator glyph.
pub fn opcode_of(g: [u8; 3]) -> (r: Option<u8>)
    ensures
        r == op_of(g@),
{
    let a = g[0];
    let b = g[1];
    let c = g[2];
    proof {
        assert(g@ == seq![a, b, c]);
    }
    if a == 43u8 && b == 32u8 && c == 32u8 {
        Some(ADD)
    } else if a == 60u8 && b == 32u8 && c == 32u8 {
        Some(LS)
    } else if a == 62u8 && b == 32u8 && c == 32u8 {
        Some(GR)
    } else if a == 61u8 && b == 61u8 && c == 32u8 {
        Some(EQ)
    } else if a == 60u8 && b == 61u8 && c == 32u8 {
        Some(LE)
    } else if a == 45u8 && b == 32u8 && c == 32u8 {
        Some(SUB)
    } else if a == 42u8 && b == 32u8 && c == 32u8 {
        Some(MUL)
    } else {
        proof {
            assert(g@ != seq![43u8, 32u8, 32u8]);
            assert(g@ != seq![60u8, 32u8, 32u8]);
            assert(g@ != seq![62u8, 32u8, 32u8]);
            assert(g@ != seq![61u8, 61u8, 32u8]);
            assert(g@ != seq![60u8, 61u8, 32u8]);
            assert(g@ != seq![45u8, 32u8, 32u8]);
            assert(g@ != seq![42u8, 32u8, 32u8]);
        }
        None
    }
}

/// Appends an instruction with a width-optimised operand.
fn push_sized(out: &mut Vec<u8>, op1: u8, op3: u8, op8: u8, v: u64)
    ensures
        final(out)@ == old(out)@ + enc_slot(op1, op3, op8, v),
{
    if v <= 0xFF {
        out.push(op1);
        out.push(v as u8);
    } else if v <= 0xFF_FFFF {
        out.push(op3);
        out.push((v >> 16u64) as u8);
        out.push((v >> 8u64) as u8);
        out.push(v as u8);
    } else {
        out.push(op8);
        write_u64(out, v);
    }
    assert(out@ =~= old(out)@ + enc_slot(op1, op3, op8, v));
}

/// Defining one numeric label leaves every other id undefined.
proof fn lemma_label_frame(labels: Seq<(Seq<u8>, u64)>, id: u64, address: u64, other: u64)
    requires
        !has_key(labels, id_key(other)),
        other != id,
    ensures
        !has_key(labels.push((id_key(id), address)), id_key(other)),
{
    let l = labels.push((id_key(id), address));
    if has_key(l, id_key(other)) {
        let k = choose|k: int| 0 <= k < l.len() && l[k].0 == id_key(other);
        if k == labels.len() {
            crate::bytes::lemma_be8_round_trip(id);
            crate::bytes::lemma_be8_round_trip(other);
        } else {
            assert(labels[k].0 == id_key(other));
        }
    }
}

/// Builds a module in memory.
pub struct Emitter {
    opcodes: Vec<u8>,
    named_labels: NamedLabels,
    named_links: NamedLinks,
    indexed_labels: IndexedLabels,
    indexed_links: IndexedLinks,
    calls: Ghost<Seq<Call>>,
}

impl Emitter {
    /// The opcodes written so far.
    pub closed spec fn code(&self) -> Seq<u8> {
        self.opcodes@
    }

    /// The named labels defined so far.
    pub closed spec fn named_labels(&self) -> Seq<(Seq<u8>, u64)> {
        self.named_labels@
    }

    /// The named link sites recorded so far.
    pub closed spec fn named_links(&self) -> Seq<(Seq<u8>, Seq<u64>)> {
        self.named_links@
    }

    /// The numeric labels defined so far.
    pub closed spec fn indexed_labels(&self) -> Seq<(Seq<u8>, u64)> {
        self.indexed_labels@
    }

    /// The numeric link sites recorded so far.
    pub closed spec fn indexed_links(&self) -> Seq<(Seq<u8>, Seq<u64>)> {
        self.indexed_links@
    }

    /// Every table has unique keys.
    pub closed spec fn wf(&self) -> bool {
        &&& self.named_labels.wf()
        &&& self.named_links.wf()
        &&& self.indexed_labels.wf()
        &&& self.indexed_links.wf()
        &&& sites_within(self.named_links@, self.opcodes@.len())
        &&& sites_within(self.indexed_links@, self.opcodes@.len())
        &&& all_apart(self.named_links@)
        &&& all_apart(self.indexed_links@)
        &&& cross_apart(self.named_links@, self.indexed_links@)
    }

    /// An emitter with nothing written.
    pub fn new() -> (r: Self)
        ensures
            r.wf(),
            r.code() == Seq::<u8>::empty(),
            r.named_labels().len() == 0,
            r.named_links().len() == 0,
            r.indexed_labels().len() == 0,
            r.indexed_links().len() == 0,
    {
        let r = Emitter {
            opcodes: Vec::new(),
            named_labels: NamedLabels::new(),
            named_links: NamedLinks::new(),
            indexed_labels: IndexedLabels::new(),
            indexed_links: IndexedLinks::new(),
            calls: Ghost(Seq::empty()),
        };
        assert(r.code() =~= Seq::<u8>::empty());
        r
    }

    /// Pushes an integer literal in the smallest width that holds it.
    pub fn integer(&mut self, value: u64) -> (r: Result<(), Error>)
        requires
            old(self).wf(),
        ensures
            final(self).wf(),
            r is Ok,
            final(self).code() == old(self).code() + enc_int(value),
            final(self).named_labels() == old(self).named_labels(),
            final(self).named_links() == old(self).named_links(),
            final(self).indexed_labels() == old(self).indexed_labels(),
            final(self).indexed_links() == old(self).indexed_links(),
    {
        push_sized(&mut self.opcodes, INT1, INT3, INT8, value);
        Ok(())
    }

    /// Calls the address below the `arguments` values on the stack.
    pub fn call(&mut self, arguments: u8) -> (r: Result<(), Error>)
        requires
            old(self).wf(),
        ensures
            final(self).wf(),
            r is Ok,
            final(self).code() == old(self).code() + seq![CALL, arguments],
            final(self).named_labels() == old(self).named_labels(),
            final(self).named_links() == old(self).named_links(),
            final(self).indexed_labels() == old(self).indexed_labels(),
            final(self).indexed_links() == old(self).indexed_links(),
    {
        self.opcodes.push(CALL);
        self.opcodes.push(arguments);
        assert(self.code() =~= old(self).code() + seq![CALL, arguments]);
        Ok(())
    }

    /// The instruction of an operator glyph; a glyph without one is an error.
    pub fn binary(&mut self, operator: [u8; 3]) -> (r: Result<(), Error>)
        requires
            old(self).wf(),
        ensures
            final(self).wf(),
            op_of(operator@) is None ==> r == Err::<(), Error>(Error::UnsupportedOperator)
                && final(self).code() == old(self).code(),
            op_of(operator@) is Some ==> r is Ok && final(self).code() == old(self).code().push(
                op_of(operator@)->0,
            ),
            final(self).named_labels() == old(self).named_labels(),
            final(self).named_links() == old(self).named_links(),
            final(self).indexed_labels() == old(self).indexed_labels(),
            final(self).indexed_links() == old(self).indexed_links(),
    {
        match opcode_of(operator) {
            Some(op) => {
                self.opcodes.push(op);
                Ok(())
            },
            None => Err(Error::UnsupportedOperator),
        }
    }

    /// Discards the top of the stack.
    pub fn drop(&mut self) -> (r: Result<(), Error>)
        requires
            old(self).wf(),
        ensures
            final(self).wf(),
            r is Ok,
            final(self).code() == old(self).code().push(DROP),
            final(self).named_labels() == old(self).named_labels(),
            final(self).named_links() == old(self).named_links(),
            final(self).indexed_labels() == old(self).indexed_labels(),
            final(self).indexed_links() == old(self).indexed_links(),
    {
        self.opcodes.push(DROP);
        Ok(())
    }

    /// Returns from the current function.
    pub fn ret(&mut self) -> (r: Result<(), Error>)
        requires
            old(self).wf(),
        ensures
            final(self).wf(),
            r is Ok,
            final(self).code() == old(self).code().push(RET),
            final(self).named_labels() == old(self).named_labels(),
            final(self).named_links() == old(self).named_links(),
            final(self).indexed_labels() == old(self).indexed_labels(),
            final(self).indexed_links() == old(self).indexed_links(),
    {
        self.opcodes.push(RET);
        Ok(())
    }

    /// Pushes the void value.
    pub fn void(&mut self)
        requires
            old(self).wf(),
        ensures
            final(self).wf(),
            final(self).code() == old(self).code().push(VOID),
            final(self).named_labels() == old(self).named_labels(),
            final(self).named_links() == old(self).named_links(),
            final(self).indexed_labels() == old(self).indexed_labels(),
            final(self).indexed_links() == old(self).indexed_links(),
    {
        self.opcodes.push(VOID);
    }

    /// Defines a numeric label at the current offset; an id defined already
    /// is an error.
    pub fn label(&mut self, id: u64) -> (r: Result<(), Error>)
        requires
            old(self).wf(),
        ensures
            final(self).wf(),
            final(self).code() == old(self).code(),
            has_key(old(self).indexed_labels(), id_key(id)) ==> r == Err::<(), Error>(
                Error::DuplicateLabel,
            ) && final(self).indexed_labels() == old(self).indexed_labels(),
            !has_key(old(self).indexed_labels(), id_key(id)) ==> r is Ok
                && final(self).indexed_labels() == old(self).indexed_labels().push(
                (id_key(id), old(self).code().len() as u64),
            ),
            final(self).named_labels() == old(self).named_labels(),
            final(self).named_links() == old(self).named_links(),
            final(self).indexed_links() == old(self).indexed_links(),
    {
        let at = self.opcodes.len() as u64;
        self.indexed_labels.push(id, at)
    }

    /// Defines a named label at the current offset; a name defined already
    /// is an error.
    pub fn label_named(&mut self, name: &[u8]) -> (r: Result<(), Error>)
        requires
            old(self).wf(),
        ensures
            final(self).wf(),
            final(self).code() == old(self).code(),
            has_key(old(self).named_labels(), name@) ==> r == Err::<(), Error>(
                Error::DuplicateLabel,
            ) && final(self).named_labels() == old(self).named_labels(),
            !has_key(old(self).named_labels(), name@) ==> r is Ok && final(self).named_labels()
                == old(self).named_labels().push((name@, old(self).code().len() as u64)),
            final(self).named_links() == old(self).named_links(),
            final(self).indexed_labels() == old(self).indexed_labels(),
            final(self).indexed_links() == old(self).indexed_links(),
    {
        let at = self.opcodes.len() as u64;
        self.named_labels.push(name, at)
    }

    /// Appends an address instruction whose operand waits for a numeric label.
    fn address_to_index(&mut self, op: u8, id: u64)
        requires
            old(self).wf(),
        ensures
            final(self).wf(),
            final(self).code() == old(self).code().push(op) + be8(0),
            final(self).indexed_links() == add_links(
                old(self).indexed_links(),
                id_key(id),
                seq![(old(self).code().len() + 1) as u64],
            ),
            final(self).named_labels() == old(self).named_labels(),
            final(self).named_links() == old(self).named_links(),
            final(self).indexed_labels() == old(self).indexed_labels(),
    {
        self.opcodes.push(op);
        let site = self.opcodes.len() as u64;
        proof {
            lemma_cross_sym(self.named_links@, self.indexed_links@);
            lemma_add_site_apart(
                self.indexed_links@,
                id_key(id),
                site,
                self.opcodes@.len(),
                self.named_links@,
            );
        }
        self.indexed_links.push(id, site);
        proof {
            lemma_cross_sym(self.indexed_links@, self.named_links@);
        }
        write_u64(&mut self.opcodes, 0);
    }

    /// Appends an address instruction whose operand waits for a named label.
    fn address_to_name(&mut self, op: u8, name: &[u8])
        requires
            old(self).wf(),
        ensures
            final(self).wf(),
            final(self).code() == old(self).code().push(op) + be8(0),
            final(self).named_links() == add_links(
                old(self).named_links(),
                name@,
                seq![(old(self).code().len() + 1) as u64],
            ),
            final(self).named_labels() == old(self).named_labels(),
            final(self).indexed_labels() == old(self).indexed_labels(),
            final(self).indexed_links() == old(self).indexed_links(),
    {
        self.opcodes.push(op);
        let site = self.opcodes.len() as u64;
        proof {
            lemma_add_site_apart(
                self.named_links@,
                name@,
                site,
                self.opcodes@.len(),
                self.indexed_links@,
            );
        }
        self.named_links.push(name, site);
        write_u64(&mut self.opcodes, 0);
    }

    /// Jumps to a numeric label.
    pub fn jump(&mut self, id: u64) -> (r: Result<(), Error>)
        requires
            old(self).wf(),
        ensures
            final(self).wf(),
            r is Ok,
            final(self).code() == old(self).code().push(JP) + be8(0),
            final(self).indexed_links() == add_links(
                old(self).indexed_links(),
                id_key(id),
                seq![(old(self).code().len() + 1) as u64],
            ),
            final(self).named_labels() == old(self).named_labels(),
            final(self).named_links() == old(self).named_links(),
            final(self).indexed_labels() == old(self).indexed_labels(),
    {
        self.address_to_index(JP, id);
        Ok(())
    }

    /// Jumps to a numeric label when the popped boolean is false.
    pub fn jump_false(&mut self, id: u64) -> (r: Result<(), Error>)
        requires
            old(self).wf(),
        ensures
            final(self).wf(),
            r is Ok,
            final(self).code() == old(self).code().push(JPF) + be8(0),
            final(self).indexed_links() == add_links(
                old(self).indexed_links(),
                id_key(id),
                seq![(old(self).code().len() + 1) as u64],
            ),
            final(self).named_labels() == old(self).named_labels(),
            final(self).named_links() == old(self).named_links(),
            final(self).indexed_labels() == old(self).indexed_labels(),
    {
        self.address_to_index(JPF, id);
        Ok(())
    }

    /// Jumps to a named label.
    pub fn jump_name(&mut self, name: &[u8]) -> (r: Result<(), Error>)
        requires
            old(self).wf(),
        ensures
            final(self).wf(),
            r is Ok,
            final(self).code() == old(self).code().push(JP) + be8(0),
            final(self).named_links() == add_links(
                old(self).named_links(),
                name@,
                seq![(old(self).code().len() + 1) as u64],
            ),
            final(self).named_labels() == old(self).named_labels(),
            final(self).indexed_labels() == old(self).indexed_labels(),
            final(self).indexed_links() == old(self).indexed_links(),
    {
        self.address_to_name(JP, name);
        Ok(())
    }

    /// Jumps to a named label when the popped boolean is false.
    pub fn jump_false_name(&mut self, name: &[u8]) -> (r: Result<(), Error>)
        requires
            old(self).wf(),
        ensures
            final(self).wf(),
            r is Ok,
            final(self).code() == old(self).code().push(JPF) + be8(0),
            final(self).named_links() == add_links(
                old(self).named_links(),
                name@,
                seq![(old(self).code().len() + 1) as u64],
            ),
            final(self).named_labels() == old(self).named_labels(),
            final(self).indexed_labels() == old(self).indexed_labels(),
            final(self).indexed_links() == old(self).indexed_links(),
    {
        self.address_to_name(JPF, name);
        Ok(())
    }

    /// Pushes the absolute address of a named symbol.
    pub fn pointer(&mut self, name: &[u8]) -> (r: Result<(), Error>)
        requires
            old(self).wf(),
        ensures
            final(self).wf(),
            r is Ok,
            final(self).code() == old(self).code().push(PTR) + be8(0),
            final(self).named_links() == add_links(
                old(self).named_links(),
                name@,
                seq![(old(self).code().len() + 1) as u64],
            ),
            final(self).named_labels() == old(self).named_labels(),
            final(self).indexed_labels() == old(self).indexed_labels(),
            final(self).indexed_links() == old(self).indexed_links(),
    {
        self.address_to_name(PTR, name);
        Ok(())
    }

    /// Pushes a local slot, with the smallest index width that holds it.
    pub fn load(&mut self, index: u64)
        requires
            old(self).wf(),
        ensures
            final(self).wf(),
            final(self).code() == old(self).code() + enc_slot(LD1, LD3, LD8, index),
            final(self).named_labels() == old(self).named_labels(),
            final(self).named_links() == old(self).named_links(),
            final(self).indexed_labels() == old(self).indexed_labels(),
            final(self).indexed_links() == old(self).indexed_links(),
    {
        push_sized(&mut self.opcodes, LD1, LD3, LD8, index);
    }

    /// Copies the top of the stack to a local slot, with the smallest index
    /// width that holds it.
    pub fn store(&mut self, index: u64)
        requires
            old(self).wf(),
        ensures
            final(self).wf(),
            final(self).code() == old(self).code() + enc_slot(ST1, ST3, ST8, index),
            final(self).named_labels() == old(self).named_labels(),
            final(self).named_links() == old(self).named_links(),
            final(self).indexed_labels() == old(self).indexed_labels(),
            final(self).indexed_links() == old(self).indexed_links(),
    {
        push_sized(&mut self.opcodes, ST1, ST3, ST8, index);
    }

    /// Writes a function prologue: the argument count and four reserved
    /// bytes for the stack growth; returns the offset of the reserved bytes.
    pub fn function(&mut self, args_count: u8) -> (r: Result<u64, Error>)
        requires
            old(self).wf(),
        ensures
            final(self).wf(),
            r == Ok::<u64, Error>((old(self).code().len() + 1) as u64),
            final(self).code() == old(self).code() + seq![args_count, 0u8, 0u8, 0u8, 0u8],
            final(self).named_labels() == old(self).named_labels(),
            final(self).named_links() == old(self).named_links(),
            final(self).indexed_labels() == old(self).indexed_labels(),
            final(self).indexed_links() == old(self).indexed_links(),
    {
        self.opcodes.push(args_count);
        let address = self.opcodes.len() as u64;
        self.opcodes.push(0);
        self.opcodes.push(0);
        self.opcodes.push(0);
        self.opcodes.push(0);
        assert(self.code() =~= old(self).code() + seq![args_count, 0u8, 0u8, 0u8, 0u8]);
        Ok(address)
    }

    /// Overwrites one byte already written.
    pub fn set(&mut self, address: u64, value: u8)
        requires
            old(self).wf(),
            address < old(self).code().len(),
        ensures
            final(self).wf(),
            final(self).code() == old(self).code().update(address as int, value),
            final(self).named_labels() == old(self).named_labels(),
            final(self).named_links() == old(self).named_links(),
            final(self).indexed_labels() == old(self).indexed_labels(),
            final(self).indexed_links() == old(self).indexed_links(),
    {
        let n = self.opcodes.len();
        assert(address < n);
        self.opcodes.set(address as usize, value);
    }

    /// Fills the four reserved prologue bytes at `cursor` with the stack
    /// growth, big-endian.
    pub fn reserve(&mut self, cursor: u64, growth: u32)
        requires
            old(self).wf(),
            cursor + 4 <= old(self).code().len(),
        ensures
            final(self).wf(),
            final(self).code() == old(self).code().subrange(0, cursor as int)
                + crate::bytes::be4(growth) + old(self).code().subrange(
                cursor + 4,
                old(self).code().len() as int,
            ),
            final(self).named_labels() == old(self).named_labels(),
            final(self).named_links() == old(self).named_links(),
            final(self).indexed_labels() == old(self).indexed_labels(),
            final(self).indexed_links() == old(self).indexed_links(),
    {
        let n = self.opcodes.len();
        assert(cursor + 4 <= n);
        self.set(cursor, (growth >> 24u32) as u8);
        self.set(cursor + 1, (growth >> 16u32) as u8);
        self.set(cursor + 2, (growth >> 8u32) as u8);
        self.set(cursor + 3, growth as u8);
        assert(self.code() =~= old(self).code().subrange(0, cursor as int)
            + crate::bytes::be4(growth) + old(self).code().subrange(
            cursor + 4,
            old(self).code().len() as int,
        ));
    }

    /// The current write position.
    pub fn offset(&self) -> (r: u64)
        ensures
            r == self.code().len(),
    {
        self.opcodes.len() as u64
    }

    /// Jumps to a known absolute address.
    pub fn jump_to(&mut self, address: u64)
        requires
            old(self).wf(),
        ensures
            final(self).wf(),
            final(self).code() == old(self).code().push(JP) + be8(address),
            final(self).named_labels() == old(self).named_labels(),
            final(self).named_links() == old(self).named_links(),
            final(self).indexed_labels() == old(self).indexed_labels(),
            final(self).indexed_links() == old(self).indexed_links(),
    {
        self.opcodes.push(JP);
        write_u64(&mut self.opcodes, address);
    }

    /// Back-patches every numeric link, then forgets the numeric labels, then
    /// back-patches every named link whose label is defined. Every site lies
    /// inside the opcodes, so this always succeeds.
    pub fn resolve(&mut self) -> (r: Result<(), Error>)
        requires
            old(self).wf(),
        ensures
            final(self).wf(),
            r is Ok,
            ({
                let c0 = old(self).code();
                let il = old(self).indexed_labels();
                let ik = old(self).indexed_links();
                let nl = old(self).named_labels();
                let nk = old(self).named_links();
                &&& final(self).code() == resolved_ops(resolved_ops(c0, il, ik), nl, nk)
                &&& final(self).indexed_labels().len() == 0
                &&& final(self).indexed_links() == unresolved(il, ik)
                &&& final(self).named_labels() == nl
                &&& final(self).named_links() == unresolved(nl, nk)
            }),
            forall|x: Seq<u8>|
                has_key(final(self).named_links(), x) ==> !has_key(final(self).named_labels(), x),
            final(self).code().len() == old(self).code().len(),
            forall|i: int, j: int|
                0 <= i < old(self).indexed_links().len() && has_key(
                    old(self).indexed_labels(),
                    old(self).indexed_links()[i].0,
                ) && 0 <= j < old(self).indexed_links()[i].1.len() ==> final(self).code().subrange(
                    old(self).indexed_links()[i].1[j] as int,
                    old(self).indexed_links()[i].1[j] + 8,
                ) == crate::bytes::be8(
                    crate::table::lookup(
                        old(self).indexed_labels(),
                        old(self).indexed_links()[i].0,
                    )->0,
                ),
            forall|i: int, j: int|
                0 <= i < old(self).named_links().len() && has_key(
                    old(self).named_labels(),
                    old(self).named_links()[i].0,
                ) && 0 <= j < old(self).named_links()[i].1.len() ==> final(self).code().subrange(
                    old(self).named_links()[i].1[j] as int,
                    old(self).named_links()[i].1[j] + 8,
                ) == crate::bytes::be8(
                    crate::table::lookup(old(self).named_labels(), old(self).named_links()[i].0)->0,
                ),
    {
        proof {
            crate::patch::lemma_unresolved_keys(self.named_labels@, self.named_links@);
            lemma_within_fit(self.opcodes@.len(), self.indexed_labels@, self.indexed_links@);
            lemma_within_fit(self.opcodes@.len(), self.named_labels@, self.named_links@);
            lemma_unresolved_within(self.indexed_labels@, self.indexed_links@, self.opcodes@.len());
            lemma_unresolved_within(self.named_labels@, self.named_links@, self.opcodes@.len());
            lemma_cross_sym(self.named_links@, self.indexed_links@);
            lemma_unresolved_apart(self.indexed_labels@, self.indexed_links@, self.named_links@);
            let ik2 = unresolved(self.indexed_labels@, self.indexed_links@);
            lemma_cross_sym(ik2, self.named_links@);
            lemma_unresolved_apart(self.named_labels@, self.named_links@, ik2);
        }
        let ghost nl = self.named_labels@;
        let ghost nk = self.named_links@;
        let ghost il = self.indexed_labels@;
        let ghost ik = self.indexed_links@;
        let ghost c0 = self.opcodes@;
        proof {
            assert(crate::patch::sites_apart(il, ik)) by {
                assert forall|i1: int, j1: int, i2: int, j2: int|
                    0 <= i1 < ik.len() && 0 <= i2 < ik.len() && has_key(il, ik[i1].0) && has_key(
                        il,
                        ik[i2].0,
                    ) && 0 <= j1 < ik[i1].1.len() && 0 <= j2 < ik[i2].1.len() && (i1 != i2 || j1
                        != j2) implies crate::patch::apart(
                    #[trigger] ik[i1].1[j1],
                    #[trigger] ik[i2].1[j2],
                ) by {}
            }
        }
        let _ = self.indexed_links.resolve(&self.indexed_labels, &mut self.opcodes);
        let ghost c1 = self.opcodes@;
        self.indexed_labels.clear();
        proof {
            assert(crate::patch::sites_apart(nl, nk)) by {
                assert forall|i1: int, j1: int, i2: int, j2: int|
                    0 <= i1 < nk.len() && 0 <= i2 < nk.len() && has_key(nl, nk[i1].0) && has_key(
                        nl,
                        nk[i2].0,
                    ) && 0 <= j1 < nk[i1].1.len() && 0 <= j2 < nk[i2].1.len() && (i1 != i2 || j1
                        != j2) implies crate::patch::apart(
                    #[trigger] nk[i1].1[j1],
                    #[trigger] nk[i2].1[j2],
                ) by {}
            }
            lemma_within_fit(c1.len(), nl, nk);
        }
        let _ = self.named_links.resolve(&self.named_labels, &mut self.opcodes);
        proof {
            assert forall|i: int, j: int|
                0 <= i < nk.len() && has_key(nl, nk[i].0) && 0 <= j < nk[i].1.len() implies self.code().subrange(
                nk[i].1[j] as int,
                nk[i].1[j] + 8,
            ) == crate::bytes::be8(crate::table::lookup(nl, nk[i].0)->0) by {
                crate::patch::lemma_resolution_sound(c1, nl, nk, i, j);
            }
            crate::patch::lemma_resolved_len(c1, nl, nk);
            assert forall|i: int, j: int|
                0 <= i < ik.len() && has_key(il, ik[i].0) && 0 <= j < ik[i].1.len() implies self.code().subrange(
                ik[i].1[j] as int,
                ik[i].1[j] + 8,
            ) == crate::bytes::be8(crate::table::lookup(il, ik[i].0)->0) by {
                crate::patch::lemma_resolution_sound(c0, il, ik, i, j);
                let s0 = ik[i].1[j];
                assert(s0 + 8 <= c1.len());
                assert forall|a: int, b: int|
                    0 <= a < nk.len() && has_key(nl, nk[a].0) && 0 <= b < nk[a].1.len() implies crate::patch::apart(
                    #[trigger] nk[a].1[b],
                    s0,
                ) by {}
                crate::patch::lemma_resolved_keeps(c1, nl, nk, s0);
            }
        }
        Ok(())
    }

    /// The module built so far.
    pub fn into_module(self) -> (r: Module)
        requires
            self.wf(),
        ensures
            r.wf(),
            r@.opcodes == self.code(),
            r@.labels == self.named_labels(),
            r@.links == self.named_links(),
    {
        Module { opcodes: self.opcodes, labels: self.named_labels, links: self.named_links }
    }

    /// The bytes of the module file built so far.
    pub fn write(self) -> (r: Result<Vec<u8>, Error>)
        requires
            self.wf(),
        ensures
            ({
                let m = crate::format::ModuleView {
                    opcodes: self.code(),
                    labels: self.named_labels(),
                    links: self.named_links(),
                };
                &&& crate::format::module_fits(m) ==> r is Ok && r->Ok_0@
                    == crate::format::enc_module(m)
                &&& !crate::format::module_fits(m) ==> r == Err::<Vec<u8>, Error>(
                    Error::ValueTooLarge,
                )
            }),
    {
        let module = self.into_module();
        module.write()
    }
}

impl Emit for Emitter {
    open spec fn ready(&self) -> bool {
        self.wf()
    }

    open spec fn accepts(&self, c: Call) -> bool {
        match c {
            Call::Label(id) => !has_key(self.indexed_labels(), id_key(id)),
            Call::LabelNamed(n) => !has_key(self.named_labels(), n),
            Call::Binary(g) => op_of(g) is Some,
            _ => true,
        }
    }

    open spec fn finish_ok(&self, cursor: u64) -> bool {
        cursor + 4 <= self.code().len()
    }

    closed spec fn calls(&self) -> Seq<Call> {
        self.calls@
    }

    fn integer(&mut self, value: u64) -> (r: Result<(), Error>) {
        let ghost before = self.calls@;
        let r = Emitter::integer(self, value);
        if r.is_ok() {
            self.calls = Ghost(before.push(Call::Integer(value)));
        } else {
            self.calls = Ghost(before);
        }
        r
    }

    fn call(&mut self, arguments: u8) -> (r: Result<(), Error>) {
        let ghost before = self.calls@;
        let r = Emitter::call(self, arguments);
        if r.is_ok() {
            self.calls = Ghost(before.push(Call::Call(arguments)));
        } else {
            self.calls = Ghost(before);
        }
        r
    }

    fn binary(&mut self, operator: [u8; 3]) -> (r: Result<(), Error>) {
        let ghost before = self.calls@;
        let r = Emitter::binary(self, operator);
        if r.is_ok() {
            self.calls = Ghost(before.push(Call::Binary(operator@)));
        } else {
            self.calls = Ghost(before);
        }
        r
    }

    fn drop(&mut self) -> (r: Result<(), Error>) {
        let ghost before = self.calls@;
        let r = Emitter::drop(self);
        if r.is_ok() {
            self.calls = Ghost(before.push(Call::Drop));
        } else {
            self.calls = Ghost(before);
        }
        r
    }

    fn ret(&mut self) -> (r: Result<(), Error>) {
        let ghost before = self.calls@;
        let r = Emitter::ret(self);
        if r.is_ok() {
            self.calls = Ghost(before.push(Call::Ret));
        } else {
            self.calls = Ghost(before);
        }
        r
    }

    fn void(&mut self) -> (r: Result<(), Error>) {
        let ghost before = self.calls@;
        let r = {
            Emitter::void(self);
            Ok(())
        };
        if r.is_ok() {
            self.calls = Ghost(before.push(Call::Void));
        } else {
            self.calls = Ghost(before);
        }
        r
    }

    fn label(&mut self, id: u64) -> (r: Result<(), Error>) {
        let ghost before = self.calls@;
        let r = Emitter::label(self, id);
        if r.is_ok() {
            self.calls = Ghost(before.push(Call::Label(id)));
        } else {
            self.calls = Ghost(before);
        }
        proof {
            if r is Ok {
                assert forall|c: Call| old(self).accepts(c) && c != Call::Label(id) implies self.accepts(
                    c,
                ) by {
                    match c {
                        Call::Label(other) => {
                            lemma_label_frame(
                                old(self).indexed_labels(),
                                id,
                                old(self).code().len() as u64,
                                other,
                            );
                        },
                        _ => {},
                    }
                }
            }
        }
        r
    }

    fn label_named(&mut self, name: &[u8]) -> (r: Result<(), Error>) {
        let ghost before = self.calls@;
        let r = Emitter::label_named(self, name);
        if r.is_ok() {
            self.calls = Ghost(before.push(Call::LabelNamed(name@)));
        } else {
            self.calls = Ghost(before);
        }
        r
    }

    fn jump(&mut self, id: u64) -> (r: Result<(), Error>) {
        let ghost before = self.calls@;
        let r = Emitter::jump(self, id);
        if r.is_ok() {
            self.calls = Ghost(before.push(Call::Jump(id)));
        } else {
            self.calls = Ghost(before);
        }
        r
    }

    fn jump_false(&mut self, id: u64) -> (r: Result<(), Error>) {
        let ghost before = self.calls@;
        let r = Emitter::jump_false(self, id);
        if r.is_ok() {
            self.calls = Ghost(before.push(Call::JumpFalse(id)));
        } else {
            self.calls = Ghost(before);
        }
        r
    }

    fn jump_name(&mut self, name: &[u8]) -> (r: Result<(), Error>) {
        let ghost before = self.calls@;
        let r = Emitter::jump_name(self, name);
        if r.is_ok() {
            self.calls = Ghost(before.push(Call::JumpName(name@)));
        } else {
            self.calls = Ghost(before);
        }
        r
    }

    fn jump_false_name(&mut self, name: &[u8]) -> (r: Result<(), Error>) {
        let ghost before = self.calls@;
        let r = Emitter::jump_false_name(self, name);
        if r.is_ok() {
            self.calls = Ghost(before.push(Call::JumpFalseName(name@)));
        } else {
            self.calls = Ghost(before);
        }
        r
    }

    fn pointer(&mut self, name: &[u8]) -> (r: Result<(), Error>) {
        let ghost before = self.calls@;
        let r = Emitter::pointer(self, name);
        if r.is_ok() {
            self.calls = Ghost(before.push(Call::Pointer(name@)));
        } else {
            self.calls = Ghost(before);
        }
        r
    }

    fn load(&mut self, index: u64) -> (r: Result<(), Error>) {
        let ghost before = self.calls@;
        let r = {
            Emitter::load(self, index);
            Ok(())
        };
        if r.is_ok() {
            self.calls = Ghost(before.push(Call::Load(index)));
        } else {
            self.calls = Ghost(before);
        }
        r
    }

    fn store(&mut self, index: u64) -> (r: Result<(), Error>) {
        let ghost before = self.calls@;
        let r = {
            Emitter::store(self, index);
            Ok(())
        };
        if r.is_ok() {
            self.calls = Ghost(before.push(Call::Store(index)));
        } else {
            self.calls = Ghost(before);
        }
        r
    }

    fn function(&mut self, args_count: u8) -> (r: Result<u64, Error>) {
        let ghost before = self.calls@;
        let r = Emitter::function(self, args_count);
        if r.is_ok() {
            self.calls = Ghost(before.push(Call::Function(args_count)));
        } else {
            self.calls = Ghost(before);
        }
        r
    }

    fn finish_function(&mut self, cursor: u64, growth: u32) -> (r: Result<(), Error>) {
        let ghost before = self.calls@;
        let r = {
            if cursor > self.offset() || self.offset() - cursor < 4 {
            return Err(Error::PatchOutOfBounds);
            }
            self.reserve(cursor, growth);
            Ok(())
        };
        if r.is_ok() {
            self.calls = Ghost(before.push(Call::FinishFunction(growth)));
        } else {
            self.calls = Ghost(before);
        }
        r
    }
}

/// An emitter for object files: it builds a module and writes it with every
/// label qualified by the module's name.
pub struct ObjectEmitter {
    inner: Emitter,
    calls: Ghost<Seq<Call>>,
}

impl ObjectEmitter {
    /// The module being built.
    pub closed spec fn emitter(&self) -> Emitter {
        self.inner
    }

    /// An emitter with nothing written.
    pub fn new() -> (r: Self)
        ensures
            r.emitter().wf(),
            r.emitter().code().len() == 0,
    {
        ObjectEmitter { inner: Emitter::new(), calls: Ghost(Seq::empty()) }
    }

    /// Resolves the module and gives the bytes of its object file, every
    /// label qualified as `module_name.label`.
    pub fn finish(self, module_name: &[u8]) -> (r: Result<Vec<u8>, Error>)
        requires
            self.emitter().wf(),
        ensures
            ({
                let e = self.emitter();
                let m = crate::format::ModuleView {
                    opcodes: resolved_ops(
                        resolved_ops(e.code(), e.indexed_labels(), e.indexed_links()),
                        e.named_labels(),
                        e.named_links(),
                    ),
                    labels: crate::module::prefix_labels(module_name@, e.named_labels()),
                    links: unresolved(e.named_labels(), e.named_links()),
                };
                &&& crate::format::module_fits(m) ==> r is Ok && r->Ok_0@
                    == crate::format::enc_module(m)
                &&& !crate::format::module_fits(m) ==> r == Err::<Vec<u8>, Error>(
                    Error::ValueTooLarge,
                )
            }),
    {
        let mut inner = self.inner;
        inner.resolve()?;
        let module = inner.into_module();
        module.write_prefixed(module_name)
    }
}

impl Emit for ObjectEmitter {
    open spec fn ready(&self) -> bool {
        self.emitter().wf()
    }

    open spec fn accepts(&self, c: Call) -> bool {
        self.emitter().accepts(c)
    }

    open spec fn finish_ok(&self, cursor: u64) -> bool {
        self.emitter().finish_ok(cursor)
    }

    closed spec fn calls(&self) -> Seq<Call> {
        self.calls@
    }

    fn integer(&mut self, value: u64) -> (r: Result<(), Error>) {
        let ghost before = self.calls@;
        let r = self.inner.integer(value);
        if r.is_ok() {
            self.calls = Ghost(before.push(Call::Integer(value)));
        } else {
            self.calls = Ghost(before);
        }
        r
    }

    fn call(&mut self, arguments: u8) -> (r: Result<(), Error>) {
        let ghost before = self.calls@;
        let r = self.inner.call(arguments);
        if r.is_ok() {
            self.calls = Ghost(before.push(Call::Call(arguments)));
        } else {
            self.calls = Ghost(before);
        }
        r
    }

    fn binary(&mut self, operator: [u8; 3]) -> (r: Result<(), Error>) {
        let ghost before = self.calls@;
        let r = self.inner.binary(operator);
        if r.is_ok() {
            self.calls = Ghost(before.push(Call::Binary(operator@)));
        } else {
            self.calls = Ghost(before);
        }
        r
    }

    fn drop(&mut self) -> (r: Result<(), Error>) {
        let ghost before = self.calls@;
        let r = self.inner.drop();
        if r.is_ok() {
            self.calls = Ghost(before.push(Call::Drop));
        } else {
            self.calls = Ghost(before);
        }
        r
    }

    fn ret(&mut self) -> (r: Result<(), Error>) {
        let ghost before = self.calls@;
        let r = self.inner.ret();
        if r.is_ok() {
            self.calls = Ghost(before.push(Call::Ret));
        } else {
            self.calls = Ghost(before);
        }
        r
    }

    fn void(&mut self) -> (r: Result<(), Error>) {
        let ghost before = self.calls@;
        let r = Emit::void(&mut self.inner);
        if r.is_ok() {
            self.calls = Ghost(before.push(Call::Void));
        } else {
            self.calls = Ghost(before);
        }
        r
    }

    fn label(&mut self, id: u64) -> (r: Result<(), Error>) {
        let ghost before = self.calls@;
        let r = self.inner.label(id);
        if r.is_ok() {
            self.calls = Ghost(before.push(Call::Label(id)));
        } else {
            self.calls = Ghost(before);
        }
        proof {
            if r is Ok {
                assert forall|c: Call| old(self).accepts(c) && c != Call::Label(id) implies self.accepts(
                    c,
                ) by {
                    match c {
                        Call::Label(other) => {
                            lemma_label_frame(
                                old(self).emitter().indexed_labels(),
                                id,
                                old(self).emitter().code().len() as u64,
                                other,
                            );
                        },
                        _ => {},
                    }
                }
            }
        }
        r
    }

    fn label_named(&mut self, name: &[u8]) -> (r: Result<(), Error>) {
        let ghost before = self.calls@;
        let r = self.inner.label_named(name);
        if r.is_ok() {
            self.calls = Ghost(before.push(Call::LabelNamed(name@)));
        } else {
            self.calls = Ghost(before);
        }
        r
    }

    fn jump(&mut self, id: u64) -> (r: Result<(), Error>) {
        let ghost before = self.calls@;
        let r = self.inner.jump(id);
        if r.is_ok() {
            self.calls = Ghost(before.push(Call::Jump(id)));
        } else {
            self.calls = Ghost(before);
        }
        r
    }

    fn jump_false(&mut self, id: u64) -> (r: Result<(), Error>) {
        let ghost before = self.calls@;
        let r = self.inner.jump_false(id);
        if r.is_ok() {
            self.calls = Ghost(before.push(Call::JumpFalse(id)));
        } else {
            self.calls = Ghost(before);
        }
        r
    }

    fn jump_name(&mut self, name: &[u8]) -> (r: Result<(), Error>) {
        let ghost before = self.calls@;
        let r = self.inner.jump_name(name);
        if r.is_ok() {
            self.calls = Ghost(before.push(Call::JumpName(name@)));
        } else {
            self.calls = Ghost(before);
        }
        r
    }

    fn jump_false_name(&mut self, name: &[u8]) -> (r: Result<(), Error>) {
        let ghost before = self.calls@;
        let r = self.inner.jump_false_name(name);
        if r.is_ok() {
            self.calls = Ghost(before.push(Call::JumpFalseName(name@)));
        } else {
            self.calls = Ghost(before);
        }
        r
    }

    fn pointer(&mut self, name: &[u8]) -> (r: Result<(), Error>) {
        let ghost before = self.calls@;
        let r = self.inner.pointer(name);
        if r.is_ok() {
            self.calls = Ghost(before.push(Call::Pointer(name@)));
        } else {
            self.calls = Ghost(before);
        }
        r
    }

    fn load(&mut self, index: u64) -> (r: Result<(), Error>) {
        let ghost before = self.calls@;
        let r = Emit::load(&mut self.inner, index);
        if r.is_ok() {
            self.calls = Ghost(before.push(Call::Load(index)));
        } else {
            self.calls = Ghost(before);
        }
        r
    }

    fn store(&mut self, index: u64) -> (r: Result<(), Error>) {
        let ghost before = self.calls@;
        let r = Emit::store(&mut self.inner, index);
        if r.is_ok() {
            self.calls = Ghost(before.push(Call::Store(index)));
        } else {
            self.calls = Ghost(before);
        }
        r
    }

    fn function(&mut self, args_count: u8) -> (r: Result<u64, Error>) {
        let ghost before = self.calls@;
        let r = self.inner.function(args_count);
        if r.is_ok() {
            self.calls = Ghost(before.push(Call::Function(args_count)));
        } else {
            self.calls = Ghost(before);
        }
        r
    }

    fn finish_function(&mut self, cursor: u64, growth: u32) -> (r: Result<(), Error>) {
        let ghost before = self.calls@;
        let r = self.inner.finish_function(cursor, growth);
        if r.is_ok() {
            self.calls = Ghost(before.push(Call::FinishFunction(growth)));
        } else {
            self.calls = Ghost(before);
        }
        r
    }
}

} // verus!
