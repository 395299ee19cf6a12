//! The in-memory module: opcodes with a named label table and a named link
//! table; its encoding, decoding, resolution and merging.
use vstd::prelude::*;
use crate::bytes::{be8, from_be8, push_all, read_label, read_u32, read_u32_vec, read_u8_vec, write_label, write_labels, write_u32, write_u32_slice, write_u64, write_u8_slice, all_fit_u32};
use crate::error::Error;
use crate::format::{
    ModuleView, enc_label_items, enc_labels, enc_link_items, enc_links, enc_module,
    labels_fit, link_fits, links_fit, module_fits, parse_label_items, parse_labels, parse_link_items,
    parse_links, parse_module, parse_name, parse_u32, parse_u32s, lemma_label_items_err,
    lemma_link_items_err,
};
use crate::opcodes::{is_address_op, operand_width, width_of, JP, JPF, PTR};
use crate::patch::{resolve, resolved_ops, sites_fit, unresolved};
use crate::table::{add_links, copy_labels, copy_links, find_label, find_links, has_key, id_bytes, id_key, keys_unique, labels_view, links_view, merge_links, push_label, push_link, push_links, lookup};

verus! {

/// The sum of two 64-bit values, modulo 2^64.
pub open spec fn add_wrap(x: u64, y: u64) -> u64 {
    if x + y <= u64::MAX {
        (x + y) as u64
    } else {
        (x + y - 0x1_0000_0000_0000_0000) as u64
    }
}

/// Adds two 64-bit values modulo 2^64.
pub fn wrapping_add(x: u64, y: u64) -> (r: u64)
    ensures
        r == add_wrap(x, y),
{
    if x <= u64::MAX - y {
        x + y
    } else {
        let d = u64::MAX - y;
        x - d - 1
    }
}

/// Every address of a label table moved by `offset`.
pub open spec fn shift_labels(s: Seq<(Seq<u8>, u64)>, offset: u64) -> Seq<(Seq<u8>, u64)> {
    Seq::new(s.len(), |i: int| (s[i].0, add_wrap(s[i].1, offset)))
}

/// Every site of a list moved by `offset`.
pub open spec fn shift_sites(s: Seq<u64>, offset: u64) -> Seq<u64> {
    Seq::new(s.len(), |j: int| add_wrap(s[j], offset))
}

/// Every site of a link table moved by `offset`.
pub open spec fn shift_links(
    s: Seq<(Seq<u8>, Seq<u64>)>,
    offset: u64,
) -> Seq<(Seq<u8>, Seq<u64>)> {
    Seq::new(s.len(), |i: int| (s[i].0, shift_sites(s[i].1, offset)))
}

/// Every name of a label table qualified as `prefix.name`.
pub open spec fn prefix_labels(prefix: Seq<u8>, s: Seq<(Seq<u8>, u64)>) -> Seq<(Seq<u8>, u64)> {
    Seq::new(s.len(), |i: int| (prefix + seq![46u8] + s[i].0, s[i].1))
}

/// The opcodes from position `i` on with every absolute address operand
/// (`JP`, `JPF`, `PTR`) moved by `base`; `None` when an instruction is cut
/// short. Instructions are skipped by the width their opcode's range gives.
pub open spec fn reloc(ops: Seq<u8>, i: int, base: u64) -> Option<Seq<u8>>
    decreases ops.len() - i,
{
    if i < 0 || i >= ops.len() {
        Some(seq![])
    } else {
        let w = width_of(ops[i]) as int;
        if i + 1 + w > ops.len() {
            None
        } else {
            let piece = if is_address_op(ops[i]) {
                seq![ops[i]] + be8(add_wrap(from_be8(ops.subrange(i + 1, i + 9)), base))
            } else {
                ops.subrange(i, i + 1 + w)
            };
            match reloc(ops, i + 1 + w, base) {
                Some(r) => Some(piece + r),
                None => None,
            }
        }
    }
}

/// The module that merging `b` into `a` produces: `b`'s opcodes relocated
/// behind `a`'s, the label tables joined, the link lists joined per name,
/// then resolution over the whole.
pub open spec fn merge_model(a: ModuleView, b: ModuleView) -> Result<ModuleView, Error> {
    let base = a.opcodes.len();
    if base + b.opcodes.len() > u32::MAX {
        Err(Error::ProgramTooLarge)
    } else {
        match reloc(b.opcodes, 0, base as u64) {
            None => Err(Error::Truncated),
            Some(r) => if exists|i: int| 0 <= i < b.labels.len() && has_key(a.labels, b.labels[i].0) {
                Err(Error::DuplicateLabel)
            } else {
                let labels = a.labels + shift_labels(b.labels, base as u64);
                let links = merge_links(a.links, shift_links(b.links, base as u64));
                let ops = a.opcodes + r;
                if !sites_fit(ops.len(), labels, links) {
                    Err(Error::PatchOutOfBounds)
                } else {
                    Ok(
                        ModuleView {
                            opcodes: resolved_ops(ops, labels, links),
                            labels,
                            links: unresolved(labels, links),
                        },
                    )
                }
            },
        }
    }
}

/// The module that resolving `m` produces.
pub open spec fn resolve_model(m: ModuleView) -> Result<ModuleView, Error> {
    if !sites_fit(m.opcodes.len(), m.labels, m.links) {
        Err(Error::PatchOutOfBounds)
    } else {
        Ok(
            ModuleView {
                opcodes: resolved_ops(m.opcodes, m.labels, m.links),
                labels: m.labels,
                links: unresolved(m.labels, m.links),
            },
        )
    }
}

/// Named labels: name to address, one entry per name, in order of definition.
pub struct NamedLabels(Vec<(Vec<u8>, u64)>);

impl View for NamedLabels {
    type V = Seq<(Seq<u8>, u64)>;

    closed spec fn view(&self) -> Seq<(Seq<u8>, u64)> {
        labels_view(self.0@)
    }
}

impl NamedLabels {
    /// No name occurs twice.
    pub open spec fn wf(&self) -> bool {
        keys_unique(self@)
    }

    /// An empty table.
    pub fn new() -> (r: Self)
        ensures
            r@ == Seq::<(Seq<u8>, u64)>::empty(),
            r.wf(),
    {
        let r = NamedLabels(Vec::new());
        assert(r@ =~= Seq::<(Seq<u8>, u64)>::empty());
        r
    }

    /// Defines a label; a name defined already is an error.
    pub fn push(&mut self, name: &[u8], address: u64) -> (r: Result<(), Error>)
        requires
            old(self).wf(),
        ensures
            final(self).wf(),
            has_key(old(self)@, name@) ==> r == Err::<(), Error>(Error::DuplicateLabel)
                && final(self)@ == old(self)@,
            !has_key(old(self)@, name@) ==> r is Ok && final(self)@ == old(self)@.push(
                (name@, address),
            ),
    {
        push_label(&mut self.0, name, address)
    }

    /// The address of a name.
    pub fn get(&self, name: &[u8]) -> (r: Option<u64>)
        requires
            self.wf(),
        ensures
            r == lookup(self@, name@),
    {
        match find_label(&self.0, name) {
            Some(i) => {
                proof {
                    crate::table::lemma_lookup_at(self@, i as int);
                }
                Some(self.0[i].1)
            },
            None => None,
        }
    }

    /// Whether every entry fits the on-disk widths.
    pub fn fits(&self) -> (r: bool)
        ensures
            r == labels_fit(self@),
    {
        if self.0.len() as u64 > u32::MAX as u64 {
            return false;
        }
        let mut i: usize = 0;
        while i < self.0.len()
            invariant
                i <= self@.len(),
                self@.len() <= u32::MAX,
                forall|j: int| 0 <= j < i ==> #[trigger] self@[j].0.len() <= 255 && self@[j].1
                    <= u32::MAX,
            decreases self@.len() - i,
        {
            if self.0[i].0.len() > 255 || self.0[i].1 > u32::MAX as u64 {
                assert(!(self@[i as int].0.len() <= 255 && self@[i as int].1 <= u32::MAX));
                return false;
            }
            i += 1;
        }
        true
    }

    /// Appends the table in the module format; fails, writing nothing, when
    /// an entry does not fit.
    pub fn write(&self, out: &mut Vec<u8>) -> (r: Result<(), Error>)
        ensures
            labels_fit(self@) ==> r is Ok && final(out)@ == old(out)@ + enc_labels(self@),
            !labels_fit(self@) ==> r == Err::<(), Error>(Error::ValueTooLarge) && final(out)@
                == old(out)@,
    {
        if !self.fits() {
            return Err(Error::ValueTooLarge);
        }
        write_u32(out, self.0.len() as u32);
        let ghost start = out@;
        let mut i: usize = 0;
        while i < self.0.len()
            invariant
                i <= self@.len(),
                labels_fit(self@),
                out@ == start + enc_label_items(self@.subrange(0, i as int)),
            decreases self@.len() - i,
        {
            assert(self@[i as int].0.len() <= 255 && self@[i as int].1 <= u32::MAX);
            let _ = write_label(out, self.0[i].0.as_slice());
            write_u32(out, self.0[i].1 as u32);
            i += 1;
            assert(self@.subrange(0, i as int).drop_last() =~= self@.subrange(0, i - 1));
        }
        assert(self@.subrange(0, self@.len() as int) =~= self@);
        assert(out@ =~= old(out)@ + enc_labels(self@));
        Ok(())
    }

    /// Appends the table with every name qualified as `prefix.name`; fails,
    /// writing nothing, when an entry does not fit.
    pub fn write_prefixed(&self, prefix: &[u8], out: &mut Vec<u8>) -> (r: Result<(), Error>)
        ensures
            labels_fit(prefix_labels(prefix@, self@)) ==> r is Ok && final(out)@ == old(out)@
                + enc_labels(prefix_labels(prefix@, self@)),
            !labels_fit(prefix_labels(prefix@, self@)) ==> r == Err::<(), Error>(
                Error::ValueTooLarge,
            ) && final(out)@ == old(out)@,
    {
        let ghost pv = prefix_labels(prefix@, self@);
        if self.0.len() as u64 > u32::MAX as u64 {
            return Err(Error::ValueTooLarge);
        }
        let mut k: usize = 0;
        while k < self.0.len()
            invariant
                k <= self@.len(),
                pv == prefix_labels(prefix@, self@),
                self@.len() <= u32::MAX,
                forall|j: int| 0 <= j < k ==> #[trigger] pv[j].0.len() <= 255 && pv[j].1 <= u32::MAX,
            decreases self@.len() - k,
        {
            if prefix.len() > 254 || self.0[k].0.len() > 254 - prefix.len() || self.0[k].1
                > u32::MAX as u64 {
                assert(!(pv[k as int].0.len() <= 255 && pv[k as int].1 <= u32::MAX));
                return Err(Error::ValueTooLarge);
            }
            k += 1;
        }
        write_u32(out, self.0.len() as u32);
        let ghost start = out@;
        let mut i: usize = 0;
        while i < self.0.len()
            invariant
                i <= self@.len(),
                pv == prefix_labels(prefix@, self@),
                labels_fit(pv),
                out@ == start + enc_label_items(pv.subrange(0, i as int)),
            decreases self@.len() - i,
        {
            assert(pv[i as int].0.len() <= 255 && pv[i as int].1 <= u32::MAX);
            let _ = write_labels(out, prefix, self.0[i].0.as_slice());
            write_u32(out, self.0[i].1 as u32);
            i += 1;
            assert(pv.subrange(0, i as int).drop_last() =~= pv.subrange(0, i - 1));
        }
        assert(pv.subrange(0, pv.len() as int) =~= pv);
        assert(out@ =~= old(out)@ + enc_labels(pv));
        Ok(())
    }

    /// Appends the labels of `other` with their addresses moved by
    /// `offset`; a name defined in both is an error, and nothing changes.
    pub fn merge(&mut self, other: &NamedLabels, offset: u64) -> (r: Result<(), Error>)
        requires
            old(self).wf(),
            other.wf(),
        ensures
            final(self).wf(),
            (exists|j: int| 0 <= j < other@.len() && has_key(old(self)@, #[trigger] other@[j].0))
                ==> r == Err::<(), Error>(Error::DuplicateLabel) && final(self)@ == old(self)@,
            !(exists|j: int| 0 <= j < other@.len() && has_key(old(self)@, #[trigger] other@[j].0))
                ==> r is Ok && final(self)@ == old(self)@ + shift_labels(other@, offset),
    {
        let ghost a = self@;
        let ghost b = other@;
        let mut i: usize = 0;
        while i < other.0.len()
            invariant
                i <= b.len(),
                b == other@,
                a == self@,
                self@ == old(self)@,
                self.wf(),
                forall|j: int| 0 <= j < i ==> !has_key(a, #[trigger] b[j].0),
            decreases b.len() - i,
        {
            if let Some(_) = find_label(&self.0, other.0[i].0.as_slice()) {
                assert(has_key(a, b[i as int].0));
                return Err(Error::DuplicateLabel);
            }
            i += 1;
        }
        let ghost sl = shift_labels(b, offset);
        let mut k: usize = 0;
        while k < other.0.len()
            invariant
                k <= b.len(),
                b == other@,
                sl == shift_labels(b, offset),
                keys_unique(a),
                keys_unique(b),
                a == old(self)@,
                forall|j: int| 0 <= j < b.len() ==> !has_key(a, #[trigger] b[j].0),
                self@ == a + sl.subrange(0, k as int),
                keys_unique(self@),
            decreases b.len() - k,
        {
            let ghost before = self@;
            let name = crate::bytes::to_vec(other.0[k].0.as_slice());
            let address = wrapping_add(other.0[k].1, offset);
            let ghost nv = name@;
            self.0.push((name, address));
            proof {
                assert(self@ =~= before.push((nv, address)));
                assert(sl[k as int] == (nv, address));
                assert(a + sl.subrange(0, k + 1) =~= (a + sl.subrange(0, k as int)).push(
                    sl[k as int],
                ));
                assert forall|x: int, y: int|
                    0 <= x < self@.len() && 0 <= y < self@.len() && #[trigger] self@[x].0
                        == #[trigger] self@[y].0 implies x == y by {
                    if x == before.len() && y < before.len() {
                        if y < a.len() {
                            assert(has_key(a, b[k as int].0));
                        } else {
                            assert(b[y - a.len()].0 == b[k as int].0);
                        }
                    }
                    if y == before.len() && x < before.len() {
                        if x < a.len() {
                            assert(has_key(a, b[k as int].0));
                        } else {
                            assert(b[x - a.len()].0 == b[k as int].0);
                        }
                    }
                }
            }
            k += 1;
        }
        assert(sl.subrange(0, sl.len() as int) =~= sl);
        Ok(())
    }

    /// Reads a label table at the cursor; a name that occurs twice is an error.
    pub fn read(data: &[u8], pos: &mut usize) -> (r: Result<Self, Error>)
        ensures
            match parse_labels(data@, *old(pos) as int) {
                Ok((s, q)) => r is Ok && r->Ok_0@ == s && r->Ok_0.wf() && *final(pos) == q,
                Err(e) => r == Err::<Self, Error>(e),
            },
    {
        let ghost p0 = *pos as int;
        let n = read_u32(data, pos)?;
        let ghost p1 = *pos as int;
        let mut t: Vec<(Vec<u8>, u64)> = Vec::new();
        assert(labels_view(t@) =~= Seq::<(Seq<u8>, u64)>::empty());
        assert(parse_labels(data@, p0) == parse_label_items(data@, p1, n as nat));
        let mut i: u32 = 0;
        while i < n
            invariant
                i <= n,
                p0 == *old(pos) as int,
                parse_labels(data@, p0) == parse_label_items(data@, p1, n as nat),
                p1 == p0 + 4,
                parse_u32(data@, p0) == Some::<(u32, int)>((n, p1)),
                parse_label_items(data@, p1, i as nat) == Ok::<(Seq<(Seq<u8>, u64)>, int), Error>(
                    (labels_view(t@), *pos as int),
                ),
                keys_unique(labels_view(t@)),
            decreases n - i,
        {
            let ghost q = *pos as int;
            let name = match read_label(data, pos) {
                Ok(name) => name,
                Err(e) => {
                    proof {
                        assert(parse_name(data@, q) is None);
                        assert(((i + 1) as nat - 1) as nat == i as nat);
                        assert(parse_label_items(data@, p1, (i + 1) as nat) == Err::<
                            (Seq<(Seq<u8>, u64)>, int),
                            Error,
                        >(Error::Truncated));
                        lemma_label_items_err(data@, p1, (i + 1) as nat, n as nat);
                    }
                    return Err(e);
                },
            };
            assert(parse_name(data@, q) == Some::<(Seq<u8>, int)>((name@, *pos as int)));
            if let Some(_) = find_label(&t, name.as_slice()) {
                proof {
                    assert(((i + 1) as nat - 1) as nat == i as nat);
                    assert(has_key(labels_view(t@), name@));
                    assert(parse_label_items(data@, p1, (i + 1) as nat) == Err::<
                        (Seq<(Seq<u8>, u64)>, int),
                        Error,
                    >(Error::DuplicateLabel));
                    lemma_label_items_err(data@, p1, (i + 1) as nat, n as nat);
                }
                return Err(Error::DuplicateLabel);
            }
            let ghost q1 = *pos as int;
            let a = match read_u32(data, pos) {
                Ok(a) => a,
                Err(e) => {
                    proof {
                        assert(((i + 1) as nat - 1) as nat == i as nat);
                        assert(parse_u32(data@, q1) is None);
                        assert(parse_label_items(data@, p1, (i + 1) as nat) == Err::<
                            (Seq<(Seq<u8>, u64)>, int),
                            Error,
                        >(Error::Truncated));
                        lemma_label_items_err(data@, p1, (i + 1) as nat, n as nat);
                    }
                    return Err(e);
                },
            };
            let ghost nv = name@;
            let ghost before = labels_view(t@);
            t.push((name, a as u64));
            assert(labels_view(t@) =~= before.push((nv, a as u64)));
            assert(((i + 1) as nat - 1) as nat == i as nat);
            assert(parse_u32(data@, q1) == Some::<(u32, int)>((a, *pos as int)));
            i += 1;
        }
        Ok(NamedLabels(t))
    }
}

/// Named link lists: name to the ordered patch sites that wait for its
/// address, one entry per name.
pub struct NamedLinks(Vec<(Vec<u8>, Vec<u64>)>);

impl View for NamedLinks {
    type V = Seq<(Seq<u8>, Seq<u64>)>;

    closed spec fn view(&self) -> Seq<(Seq<u8>, Seq<u64>)> {
        links_view(self.0@)
    }
}

impl NamedLinks {
    /// No name occurs twice.
    pub open spec fn wf(&self) -> bool {
        keys_unique(self@)
    }

    /// An empty table.
    pub fn new() -> (r: Self)
        ensures
            r@ == Seq::<(Seq<u8>, Seq<u64>)>::empty(),
            r.wf(),
    {
        let r = NamedLinks(Vec::new());
        assert(r@ =~= Seq::<(Seq<u8>, Seq<u64>)>::empty());
        r
    }

    /// Records a patch site waiting for a name.
    pub fn push(&mut self, name: &[u8], site: u64)
        requires
            old(self).wf(),
        ensures
            final(self).wf(),
            final(self)@ == add_links(old(self)@, name@, seq![site]),
    {
        push_link(&mut self.0, name, site);
    }

    /// Patches the sites of every name that has a label and keeps the others.
    pub fn resolve(&mut self, labels: &NamedLabels, opcodes: &mut Vec<u8>) -> (r: Result<(), Error>)
        requires
            old(self).wf(),
            labels.wf(),
        ensures
            final(self).wf(),
            final(opcodes)@.len() == old(opcodes)@.len(),
            !sites_fit(old(opcodes)@.len(), labels@, old(self)@) ==> r == Err::<(), Error>(
                Error::PatchOutOfBounds,
            ) && final(opcodes)@ == old(opcodes)@ && final(self)@ == old(self)@,
            sites_fit(old(opcodes)@.len(), labels@, old(self)@) ==> r is Ok && final(opcodes)@
                == resolved_ops(old(opcodes)@, labels@, old(self)@) && final(self)@ == unresolved(
                labels@,
                old(self)@,
            ),
    {
        resolve(&mut self.0, &labels.0, opcodes)
    }

    /// Whether every entry fits the on-disk widths.
    pub fn fits(&self) -> (r: bool)
        ensures
            r == links_fit(self@),
    {
        if self.0.len() as u64 > u32::MAX as u64 {
            return false;
        }
        let mut i: usize = 0;
        while i < self.0.len()
            invariant
                i <= self@.len(),
                self@.len() <= u32::MAX,
                forall|j: int| 0 <= j < i ==> #[trigger] link_fits(self@[j]),
            decreases self@.len() - i,
        {
            let sites = &self.0[i].1;
            if self.0[i].0.len() > 255 || sites.len() as u64 > u32::MAX as u64 {
                assert(!link_fits(self@[i as int]));
                return false;
            }
            let mut j: usize = 0;
            while j < sites.len()
                invariant
                    i < self@.len(),
                    sites@ == self@[i as int].1,
                    j <= sites@.len(),
                    forall|k: int| 0 <= k < j ==> sites@[k] <= u32::MAX,
                decreases sites@.len() - j,
            {
                if sites[j] > u32::MAX as u64 {
                    assert(self@[i as int].1[j as int] > u32::MAX);
                    assert(!all_fit_u32(self@[i as int].1));
                    assert(!link_fits(self@[i as int]));
                    return false;
                }
                j += 1;
            }
            assert(link_fits(self@[i as int]));
            i += 1;
        }
        true
    }

    /// Appends the table in the module format; fails, writing nothing, when
    /// an entry does not fit.
    pub fn write(&self, out: &mut Vec<u8>) -> (r: Result<(), Error>)
        ensures
            links_fit(self@) ==> r is Ok && final(out)@ == old(out)@ + enc_links(self@),
            !links_fit(self@) ==> r == Err::<(), Error>(Error::ValueTooLarge) && final(out)@
                == old(out)@,
    {
        if !self.fits() {
            return Err(Error::ValueTooLarge);
        }
        write_u32(out, self.0.len() as u32);
        let ghost start = out@;
        let mut i: usize = 0;
        while i < self.0.len()
            invariant
                i <= self@.len(),
                links_fit(self@),
                out@ == start + enc_link_items(self@.subrange(0, i as int)),
            decreases self@.len() - i,
        {
            assert(link_fits(self@[i as int]));
            let _ = write_label(out, self.0[i].0.as_slice());
            let _ = write_u32_slice(out, self.0[i].1.as_slice());
            i += 1;
            assert(self@.subrange(0, i as int).drop_last() =~= self@.subrange(0, i - 1));
        }
        assert(self@.subrange(0, self@.len() as int) =~= self@);
        assert(out@ =~= old(out)@ + enc_links(self@));
        Ok(())
    }

    /// Reads a link table at the cursor; a name that occurs twice is an error.
    pub fn read(data: &[u8], pos: &mut usize) -> (r: Result<Self, Error>)
        ensures
            match parse_links(data@, *old(pos) as int) {
                Ok((s, q)) => r is Ok && r->Ok_0@ == s && r->Ok_0.wf() && *final(pos) == q,
                Err(e) => r == Err::<Self, Error>(e),
            },
    {
        let ghost p0 = *pos as int;
        let n = read_u32(data, pos)?;
        let ghost p1 = *pos as int;
        let mut t: Vec<(Vec<u8>, Vec<u64>)> = Vec::new();
        assert(links_view(t@) =~= Seq::<(Seq<u8>, Seq<u64>)>::empty());
        assert(parse_links(data@, p0) == parse_link_items(data@, p1, n as nat));
        let mut i: u32 = 0;
        while i < n
            invariant
                i <= n,
                p0 == *old(pos) as int,
                parse_links(data@, p0) == parse_link_items(data@, p1, n as nat),
                parse_link_items(data@, p1, i as nat) == Ok::<
                    (Seq<(Seq<u8>, Seq<u64>)>, int),
                    Error,
                >((links_view(t@), *pos as int)),
                keys_unique(links_view(t@)),
            decreases n - i,
        {
            let ghost q = *pos as int;
            let name = match read_label(data, pos) {
                Ok(name) => name,
                Err(e) => {
                    proof {
                        assert(parse_name(data@, q) is None);
                        assert(((i + 1) as nat - 1) as nat == i as nat);
                        assert(parse_link_items(data@, p1, (i + 1) as nat) == Err::<
                            (Seq<(Seq<u8>, Seq<u64>)>, int),
                            Error,
                        >(Error::Truncated));
                        lemma_link_items_err(data@, p1, (i + 1) as nat, n as nat);
                    }
                    return Err(e);
                },
            };
            assert(parse_name(data@, q) == Some::<(Seq<u8>, int)>((name@, *pos as int)));
            if let Some(_) = find_links(&t, name.as_slice()) {
                proof {
                    assert(((i + 1) as nat - 1) as nat == i as nat);
                    assert(has_key(links_view(t@), name@));
                    assert(parse_link_items(data@, p1, (i + 1) as nat) == Err::<
                        (Seq<(Seq<u8>, Seq<u64>)>, int),
                        Error,
                    >(Error::DuplicateLabel));
                    lemma_link_items_err(data@, p1, (i + 1) as nat, n as nat);
                }
                return Err(Error::DuplicateLabel);
            }
            let ghost q1 = *pos as int;
            let sites = match read_u32_vec(data, pos) {
                Ok(sites) => sites,
                Err(e) => {
                    proof {
                        assert(((i + 1) as nat - 1) as nat == i as nat);
                        assert(parse_u32s(data@, q1) is None);
                        assert(parse_link_items(data@, p1, (i + 1) as nat) == Err::<
                            (Seq<(Seq<u8>, Seq<u64>)>, int),
                            Error,
                        >(Error::Truncated));
                        lemma_link_items_err(data@, p1, (i + 1) as nat, n as nat);
                    }
                    return Err(e);
                },
            };
            let ghost nv = name@;
            let ghost sv = sites@;
            let ghost before = links_view(t@);
            t.push((name, sites));
            assert(links_view(t@) =~= before.push((nv, sv)));
            assert(((i + 1) as nat - 1) as nat == i as nat);
            assert(parse_u32s(data@, q1) == Some::<(Seq<u64>, int)>((sv, *pos as int)));
            i += 1;
        }
        Ok(NamedLinks(t))
    }

    /// Adds every list of `other`, its sites moved by `offset`, to the list
    /// of the same name, or as a new entry for a new name.
    pub fn merge(&mut self, other: NamedLinks, offset: u64)
        requires
            old(self).wf(),
        ensures
            final(self).wf(),
            final(self)@ == merge_links(old(self)@, shift_links(other@, offset)),
    {
        let ghost ov = shift_links(other@, offset);
        let mut i: usize = 0;
        while i < other.0.len()
            invariant
                i <= other@.len(),
                ov == shift_links(other@, offset),
                keys_unique(self@),
                self@ == merge_links(old(self)@, ov.subrange(0, i as int)),
            decreases other@.len() - i,
        {
            let src = &other.0[i].1;
            let mut sites: Vec<u64> = Vec::new();
            let mut j: usize = 0;
            while j < src.len()
                invariant
                    i < other@.len(),
                    src@ == other@[i as int].1,
                    j <= src@.len(),
                    sites@ == shift_sites(src@, offset).subrange(0, j as int),
                decreases src@.len() - j,
            {
                sites.push(wrapping_add(src[j], offset));
                j += 1;
                assert(sites@ =~= shift_sites(src@, offset).subrange(0, j as int));
            }
            assert(shift_sites(src@, offset).subrange(0, src@.len() as int) =~= shift_sites(
                src@,
                offset,
            ));
            let name = crate::bytes::to_vec(other.0[i].0.as_slice());
            push_links(&mut self.0, name, sites);
            i += 1;
            assert(ov.subrange(0, i as int).drop_last() =~= ov.subrange(0, i - 1));
        }
        assert(ov.subrange(0, ov.len() as int) =~= ov);
    }
}

/// Numeric labels, keyed by the eight big-endian bytes of their id.
pub struct IndexedLabels(Vec<(Vec<u8>, u64)>);

impl View for IndexedLabels {
    type V = Seq<(Seq<u8>, u64)>;

    closed spec fn view(&self) -> Seq<(Seq<u8>, u64)> {
        labels_view(self.0@)
    }
}

impl IndexedLabels {
    /// No id occurs twice.
    pub open spec fn wf(&self) -> bool {
        keys_unique(self@)
    }

    /// An empty table.
    pub fn new() -> (r: Self)
        ensures
            r@ == Seq::<(Seq<u8>, u64)>::empty(),
            r.wf(),
    {
        let r = IndexedLabels(Vec::new());
        assert(r@ =~= Seq::<(Seq<u8>, u64)>::empty());
        r
    }

    /// Defines a numeric label; an id defined already is an error.
    pub fn push(&mut self, index: u64, address: u64) -> (r: Result<(), Error>)
        requires
            old(self).wf(),
        ensures
            final(self).wf(),
            has_key(old(self)@, id_key(index)) ==> r == Err::<(), Error>(Error::DuplicateLabel)
                && final(self)@ == old(self)@,
            !has_key(old(self)@, id_key(index)) ==> r is Ok && final(self)@ == old(self)@.push(
                (id_key(index), address),
            ),
    {
        let key = id_bytes(index);
        push_label(&mut self.0, key.as_slice(), address)
    }

    /// Forgets every label.
    pub fn clear(&mut self)
        ensures
            final(self)@ == Seq::<(Seq<u8>, u64)>::empty(),
            final(self).wf(),
    {
        self.0 = Vec::new();
        assert(self@ =~= Seq::<(Seq<u8>, u64)>::empty());
    }
}

/// Link lists of numeric labels, keyed by the eight big-endian bytes of the id.
pub struct IndexedLinks(Vec<(Vec<u8>, Vec<u64>)>);

impl View for IndexedLinks {
    type V = Seq<(Seq<u8>, Seq<u64>)>;

    closed spec fn view(&self) -> Seq<(Seq<u8>, Seq<u64>)> {
        links_view(self.0@)
    }
}

impl IndexedLinks {
    /// No id occurs twice.
    pub open spec fn wf(&self) -> bool {
        keys_unique(self@)
    }

    /// An empty table.
    pub fn new() -> (r: Self)
        ensures
            r@ == Seq::<(Seq<u8>, Seq<u64>)>::empty(),
            r.wf(),
    {
        let r = IndexedLinks(Vec::new());
        assert(r@ =~= Seq::<(Seq<u8>, Seq<u64>)>::empty());
        r
    }

    /// Records a patch site waiting for a numeric label.
    pub fn push(&mut self, index: u64, site: u64)
        requires
            old(self).wf(),
        ensures
            final(self).wf(),
            final(self)@ == add_links(old(self)@, id_key(index), seq![site]),
    {
        let key = id_bytes(index);
        push_link(&mut self.0, key.as_slice(), site);
    }

    /// Patches the sites of every id that has a label and keeps the others.
    pub fn resolve(&mut self, labels: &IndexedLabels, opcodes: &mut Vec<u8>) -> (r: Result<
        (),
        Error,
    >)
        requires
            old(self).wf(),
            labels.wf(),
        ensures
            final(self).wf(),
            final(opcodes)@.len() == old(opcodes)@.len(),
            !sites_fit(old(opcodes)@.len(), labels@, old(self)@) ==> r == Err::<(), Error>(
                Error::PatchOutOfBounds,
            ) && final(opcodes)@ == old(opcodes)@ && final(self)@ == old(self)@,
            sites_fit(old(opcodes)@.len(), labels@, old(self)@) ==> r is Ok && final(opcodes)@
                == resolved_ops(old(opcodes)@, labels@, old(self)@) && final(self)@ == unresolved(
                labels@,
                old(self)@,
            ),
    {
        resolve(&mut self.0, &labels.0, opcodes)
    }
}

/// Reads eight big-endian bytes at `i`.
fn read_u64_at(ops: &[u8], i: usize) -> (r: u64)
    requires
        i + 8 <= ops@.len(),
    ensures
        r == from_be8(ops@.subrange(i as int, i + 8)),
{
    let s = Ghost(ops@.subrange(i as int, i + 8));
    assert(s@[0] == ops@[i as int] && s@[1] == ops@[i + 1] && s@[2] == ops@[i + 2] && s@[3]
        == ops@[i + 3] && s@[4] == ops@[i + 4] && s@[5] == ops@[i + 5] && s@[6] == ops@[i + 6]
        && s@[7] == ops@[i + 7]);
    ((ops[i] as u64) << 56u64) | ((ops[i + 1] as u64) << 48u64) | ((ops[i + 2] as u64) << 40u64)
        | ((ops[i + 3] as u64) << 32u64) | ((ops[i + 4] as u64) << 24u64) | ((ops[i + 5] as u64)
        << 16u64) | ((ops[i + 6] as u64) << 8u64) | (ops[i + 7] as u64)
}

/// Whether an opcode carries an absolute address.
pub fn is_address_opcode(op: u8) -> (r: bool)
    ensures
        r == is_address_op(op),
{
    op == JPF || op == JP || op == PTR
}

/// Copies opcodes with every absolute address operand moved by `base`,
/// skipping each instruction by the width its opcode's range gives; `None`
/// when the last instruction is cut short.
pub fn relocate(ops: &[u8], base: u64) -> (r: Option<Vec<u8>>)
    ensures
        r is Some <==> reloc(ops@, 0, base) is Some,
        r is Some ==> r->0@ == reloc(ops@, 0, base)->0,
{
    let mut out: Vec<u8> = Vec::new();
    let n = ops.len();
    let mut i: usize = 0;
    while i < n
        invariant
            n == ops@.len(),
            i <= n,
            match reloc(ops@, i as int, base) {
                Some(rest) => reloc(ops@, 0, base) == Some(out@ + rest),
                None => reloc(ops@, 0, base) is None,
            },
        decreases n - i,
    {
        let op = ops[i];
        let w = operand_width(op);
        if n - i - 1 < w {
            return None;
        }
        let ghost before = out@;
        let ghost next = i + 1 + w;
        if is_address_opcode(op) {
            let v = read_u64_at(ops, i + 1);
            out.push(op);
            write_u64(&mut out, wrapping_add(v, base));
            assert(out@ =~= before + (seq![op] + be8(add_wrap(
                from_be8(ops@.subrange(i + 1, i + 9)),
                base,
            ))));
        } else {
            crate::bytes::push_range(&mut out, ops, i, i + 1 + w);
        }
        proof {
            match reloc(ops@, next, base) {
                Some(rest) => {
                    assert(out@ + rest =~= before + (out@.subrange(before.len() as int, out@.len() as int) + rest));
                },
                None => {},
            }
        }
        i = i + 1 + w;
    }
    assert(out@ + Seq::<u8>::empty() =~= out@);
    Some(out)
}

/// A module: opcodes, the named labels it defines and the named link sites
/// it leaves for the linker.
pub struct Module {
    pub opcodes: Vec<u8>,
    pub labels: NamedLabels,
    pub links: NamedLinks,
}

impl View for Module {
    type V = ModuleView;

    open spec fn view(&self) -> ModuleView {
        ModuleView { opcodes: self.opcodes@, labels: self.labels@, links: self.links@ }
    }
}

impl Module {
    /// Both tables have unique names.
    pub open spec fn wf(&self) -> bool {
        self.labels.wf() && self.links.wf()
    }

    /// An empty module.
    pub fn new() -> (r: Self)
        ensures
            r.wf(),
            r@.opcodes.len() == 0,
            r@.labels.len() == 0,
            r@.links.len() == 0,
    {
        Module { opcodes: Vec::new(), labels: NamedLabels::new(), links: NamedLinks::new() }
    }

    /// Patches every link site whose name has a label; the others stay for
    /// the linker. Fails, changing nothing, on a site outside the opcodes.
    pub fn resolve(&mut self) -> (r: Result<(), Error>)
        requires
            old(self).wf(),
        ensures
            final(self).wf(),
            match resolve_model(old(self)@) {
                Ok(m) => r is Ok && final(self)@ == m,
                Err(e) => r == Err::<(), Error>(e) && final(self)@ == old(self)@,
            },
    {
        self.links.resolve(&self.labels, &mut self.opcodes)
    }

    /// The bytes of the module file; fails when a field does not fit its
    /// on-disk width.
    pub fn write(&self) -> (r: Result<Vec<u8>, Error>)
        ensures
            module_fits(self@) ==> r is Ok && r->Ok_0@ == enc_module(self@),
            !module_fits(self@) ==> r == Err::<Vec<u8>, Error>(Error::ValueTooLarge),
    {
        if self.opcodes.len() as u64 > u32::MAX as u64 || !self.labels.fits()
            || !self.links.fits() {
            return Err(Error::ValueTooLarge);
        }
        let mut out: Vec<u8> = Vec::new();
        out.push(76u8);
        out.push(69u8);
        out.push(84u8);
        out.push(38u8);
        let _ = write_u8_slice(&mut out, self.opcodes.as_slice());
        let _ = self.labels.write(&mut out);
        let _ = self.links.write(&mut out);
        proof {
            reveal(enc_module);
            assert(out@ =~= enc_module(self@));
        }
        Ok(out)
    }

    /// The bytes of the module file with every label qualified as
    /// `prefix.name`; fails when a field does not fit its on-disk width.
    pub fn write_prefixed(&self, prefix: &[u8]) -> (r: Result<Vec<u8>, Error>)
        ensures
            ({
                let m = ModuleView {
                    opcodes: self@.opcodes,
                    labels: prefix_labels(prefix@, self@.labels),
                    links: self@.links,
                };
                &&& module_fits(m) ==> r is Ok && r->Ok_0@ == enc_module(m)
                &&& !module_fits(m) ==> r == Err::<Vec<u8>, Error>(Error::ValueTooLarge)
            }),
    {
        if self.opcodes.len() as u64 > u32::MAX as u64 || !self.links.fits() {
            return Err(Error::ValueTooLarge);
        }
        let mut out: Vec<u8> = Vec::new();
        out.push(76u8);
        out.push(69u8);
        out.push(84u8);
        out.push(38u8);
        let _ = write_u8_slice(&mut out, self.opcodes.as_slice());
        match self.labels.write_prefixed(prefix, &mut out) {
            Ok(()) => {},
            Err(e) => {
                return Err(e);
            },
        }
        let _ = self.links.write(&mut out);
        proof {
            reveal(enc_module);
            let m = ModuleView {
                opcodes: self@.opcodes,
                labels: prefix_labels(prefix@, self@.labels),
                links: self@.links,
            };
            assert(out@ =~= enc_module(m));
        }
        Ok(out)
    }

    /// The module held by a module file.
    pub fn read(data: &[u8]) -> (r: Result<Self, Error>)
        ensures
            match parse_module(data@) {
                Ok(m) => r is Ok && r->Ok_0@ == m && r->Ok_0.wf(),
                Err(e) => r == Err::<Self, Error>(e),
            },
    {
        proof {
            reveal(parse_module);
        }
        if data.len() < 4 {
            return Err(Error::Truncated);
        }
        if data[0] != 76u8 || data[1] != 69u8 || data[2] != 84u8 || data[3] != 38u8 {
            proof {
                if data@.subrange(0, 4) == crate::format::magic() {
                    assert(data@.subrange(0, 4)[0] == data@[0]);
                    assert(data@.subrange(0, 4)[1] == data@[1]);
                    assert(data@.subrange(0, 4)[2] == data@[2]);
                    assert(data@.subrange(0, 4)[3] == data@[3]);
                }
            }
            return Err(Error::UnknownFormat);
        }
        assert(data@.subrange(0, 4) =~= crate::format::magic());
        let mut pos: usize = 4;
        let opcodes = read_u8_vec(data, &mut pos)?;
        let labels = NamedLabels::read(data, &mut pos)?;
        let links = NamedLinks::read(data, &mut pos)?;
        Ok(Module { opcodes, labels, links })
    }

    /// Appends `other` to this module: its opcodes relocated behind this
    /// module's, its labels rebased, its link lists rebased and joined per
    /// name, then resolution over the whole. Fails, changing nothing, on a
    /// program over 4 GiB, a cut instruction, a label defined in both, or a
    /// site outside the opcodes.
    pub fn merge(&mut self, other: Module) -> (r: Result<(), Error>)
        requires
            old(self).wf(),
            other.wf(),
        ensures
            match merge_model(old(self)@, other@) {
                Ok(m) => r is Ok && final(self)@ == m && final(self).wf(),
                Err(e) => r == Err::<(), Error>(e) && final(self)@ == old(self)@
                    && final(self).wf(),
            },
    {
        let len = self.opcodes.len();
        if len as u64 > u32::MAX as u64 || other.opcodes.len() as u64 > u32::MAX as u64 - len as u64 {
            return Err(Error::ProgramTooLarge);
        }
        let base = len as u64;
        let relocated = match relocate(other.opcodes.as_slice(), base) {
            Some(v) => v,
            None => {
                return Err(Error::Truncated);
            },
        };
        let mut labels = NamedLabels(copy_labels(&self.labels.0));
        labels.merge(&other.labels, base)?;
        let mut links = NamedLinks(copy_links(&self.links.0));
        let other_links = other.links;
        links.merge(other_links, base);
        let mut ops = crate::bytes::to_vec(self.opcodes.as_slice());
        push_all(&mut ops, relocated.as_slice());
        match links.resolve(&labels, &mut ops) {
            Ok(()) => {},
            Err(e) => {
                return Err(e);
            },
        }
        self.opcodes = ops;
        self.labels = labels;
        self.links = links;
        Ok(())
    }
}

/// What linking an ordered list of modules gives before the final resolution:
/// the first module, with each following one merged into it in turn.
pub open spec fn link_fold(ms: Seq<ModuleView>) -> Result<ModuleView, Error>
    decreases ms.len(),
{
    if ms.len() <= 1 {
        if ms.len() == 1 {
            Ok(ms[0])
        } else {
            Err(Error::NoModules)
        }
    } else {
        match link_fold(ms.drop_last()) {
            Ok(acc) => merge_model(acc, ms.last()),
            Err(e) => Err(e),
        }
    }
}

/// What linking an ordered list of modules gives.
pub open spec fn link_model(ms: Seq<ModuleView>) -> Result<ModuleView, Error> {
    match link_fold(ms) {
        Ok(m) => resolve_model(m),
        Err(e) => Err(e),
    }
}

/// Links modules into one: the first taken as it is, each following one
/// merged into it, then one resolution over the whole.
pub fn link(modules: Vec<Module>) -> (r: Result<Module, Error>)
    requires
        forall|i: int| 0 <= i < modules@.len() ==> #[trigger] modules@[i].wf(),
    ensures
        match link_model(modules@.map_values(|m: Module| m@)) {
            Ok(m) => r is Ok && r->Ok_0@ == m && r->Ok_0.wf(),
            Err(e) => r == Err::<Module, Error>(e),
        },
{
    let ghost views = modules@.map_values(|m: Module| m@);
    let mut work = modules;
    let n0 = work.len();
    if n0 == 0 {
        return Err(Error::NoModules);
    }
    let mut rest: Vec<Module> = Vec::new();
    while work.len() > 1
        invariant
            work@.len() >= 1,
            views == modules@.map_values(|m: Module| m@),
            forall|i: int| 0 <= i < work@.len() ==> #[trigger] work@[i].wf(),
            forall|i: int| 0 <= i < rest@.len() ==> #[trigger] rest@[i].wf(),
            views == work@.map_values(|m: Module| m@) + rest@.reverse().map_values(
                |m: Module| m@,
            ),
        decreases work@.len(),
    {
        let m = work.pop().unwrap();
        rest.push(m);
        assert(work@.map_values(|m: Module| m@) + rest@.reverse().map_values(|m: Module| m@)
            =~= views);
    }
    let mut acc = work.pop().unwrap();
    assert(link_fold(views.subrange(0, 1)) == Ok::<ModuleView, Error>(acc@)) by {
        assert(views[0] == acc@);
    }
    let ghost total = views.len();
    let mut done: usize = 1;
    while rest.len() > 0
        invariant
            acc.wf(),
            views == modules@.map_values(|m: Module| m@),
            1 <= done,
            done + rest@.len() == total,
            total == views.len(),
            total == n0,
            forall|i: int| 0 <= i < rest@.len() ==> #[trigger] rest@[i].wf(),
            forall|i: int| 0 <= i < rest@.len() ==> views[done + i] == #[trigger] rest@[rest@.len() - 1 - i]@,
            link_fold(views.subrange(0, done as int)) == Ok::<ModuleView, Error>(acc@),
        decreases rest@.len(),
    {
        assert(views[done + 0] == rest@[rest@.len() - 1 - 0]@);
        let ghost old_rest = rest@;
        let next = rest.pop().unwrap();
        assert(views[done as int] == next@);
        assert forall|i: int| 0 <= i < rest@.len() implies views[done + 1 + i] == #[trigger] rest@[rest@.len() - 1 - i]@ by {
            assert(views[done + (i + 1)] == old_rest[old_rest.len() - 1 - (i + 1)]@);
        }
        assert forall|i: int| 0 <= i < rest@.len() implies #[trigger] rest@[i].wf() by {
            assert(old_rest[i].wf());
        }
        let ghost before = acc@;
        let ghost sub = views.subrange(0, done + 1);
        assert(sub.drop_last() =~= views.subrange(0, done as int));
        assert(sub.last() == next@);
        match acc.merge(next) {
            Ok(()) => {},
            Err(e) => {
                proof {
                    assert(link_fold(sub) == merge_model(before, next@));
                    assert(link_fold(sub) == Err::<ModuleView, Error>(e));
                    lemma_link_fold_err(views, (done + 1) as nat);
                    assert(link_fold(views) == Err::<ModuleView, Error>(e));
                    assert(link_model(views) == Err::<ModuleView, Error>(e));
                }
                return Err(e);
            },
        }
        done += 1;
    }
    assert(views.subrange(0, total as int) =~= views);
    match acc.resolve() {
        Ok(()) => Ok(acc),
        Err(e) => Err(e),
    }
}

/// Once merging a prefix fails, linking the whole list fails the same way.
pub proof fn lemma_link_fold_err(ms: Seq<ModuleView>, n: nat)
    requires
        1 <= n <= ms.len(),
        link_fold(ms.subrange(0, n as int)) is Err,
    ensures
        link_fold(ms) == link_fold(ms.subrange(0, n as int)),
    decreases ms.len() - n,
{
    if n < ms.len() {
        let s = ms.subrange(0, (n + 1) as int);
        assert(s.drop_last() =~= ms.subrange(0, n as int));
        lemma_link_fold_err(ms, n + 1);
    } else {
        assert(ms.subrange(0, n as int) =~= ms);
    }
}

/// Linking a single module gives that module after running its own resolver.
pub proof fn lemma_link_single(m: ModuleView)
    ensures
        link_model(seq![m]) == resolve_model(m),
{
    assert(seq![m].len() == 1);
}

/// What one more module file does to the linker's accumulator.
pub open spec fn link_step(acc: Option<ModuleView>, data: Seq<u8>) -> Result<ModuleView, Error> {
    match parse_module(data) {
        Err(e) => Err(e),
        Ok(m) => match acc {
            None => Ok(m),
            Some(a) => merge_model(a, m),
        },
    }
}

/// Links module files given one at a time.
pub struct Linker(Option<Module>);

impl Linker {
    /// The module merged so far, if any.
    pub closed spec fn current(&self) -> Option<ModuleView> {
        match self.0 {
            Some(m) => Some(m@),
            None => None,
        }
    }

    /// The module merged so far is consistent.
    pub closed spec fn wf(&self) -> bool {
        match self.0 {
            Some(m) => m.wf(),
            None => true,
        }
    }

    /// A linker with no module yet.
    pub fn new() -> (r: Self)
        ensures
            r.wf(),
            r.current() is None,
    {
        Linker(None)
    }

    /// Reads a module file and merges it into what was linked so far; the
    /// first module is taken as it is. Fails, changing nothing, on a file
    /// that does not decode or a merge that fails.
    pub fn link(&mut self, data: &[u8]) -> (r: Result<(), Error>)
        requires
            old(self).wf(),
        ensures
            final(self).wf(),
            match link_step(old(self).current(), data@) {
                Ok(m) => r is Ok && final(self).current() == Some(m),
                Err(e) => r == Err::<(), Error>(e) && final(self).current() == old(self).current(),
            },
    {
        let other = Module::read(data)?;
        match &mut self.0 {
            Some(current) => current.merge(other),
            None => {
                self.0 = Some(other);
                Ok(())
            },
        }
    }

    /// Resolves what was linked and gives the bytes of the module file; no
    /// module at all is an error.
    pub fn finish(self) -> (r: Result<Vec<u8>, Error>)
        requires
            self.wf(),
        ensures
            self.current() is None ==> r == Err::<Vec<u8>, Error>(Error::NoModules),
            self.current() is Some ==> match resolve_model(self.current()->0) {
                Err(e) => r == Err::<Vec<u8>, Error>(e),
                Ok(m) => if module_fits(m) {
                    r is Ok && r->Ok_0@ == enc_module(m)
                } else {
                    r == Err::<Vec<u8>, Error>(Error::ValueTooLarge)
                },
            },
    {
        match self.0 {
            Some(mut current) => {
                current.resolve()?;
                current.write()
            },
            None => Err(Error::NoModules),
        }
    }
}

/// Relocation keeps the number of bytes.
pub proof fn lemma_reloc_len(ops: Seq<u8>, i: int, base: u64)
    requires
        0 <= i <= ops.len(),
        reloc(ops, i, base) is Some,
    ensures
        reloc(ops, i, base)->0.len() == ops.len() - i,
    decreases ops.len() - i,
{
    if i < ops.len() {
        let w = width_of(ops[i]) as int;
        lemma_reloc_len(ops, i + 1 + w, base);
    }
}

proof fn lemma_add_wrap_assoc(v: u64, x: u64, y: u64)
    requires
        x + y <= u64::MAX,
    ensures
        add_wrap(add_wrap(v, x), y) == add_wrap(v, (x + y) as u64),
{
}

/// What merging gives, in length and labels, when it succeeds.
pub proof fn lemma_merge_shape(a: ModuleView, b: ModuleView, m: ModuleView)
    requires
        merge_model(a, b) == Ok::<ModuleView, Error>(m),
    ensures
        m.opcodes.len() == a.opcodes.len() + b.opcodes.len(),
        m.labels == a.labels + shift_labels(b.labels, a.opcodes.len() as u64),
        a.opcodes.len() + b.opcodes.len() <= u32::MAX,
{
    let base = a.opcodes.len() as u64;
    lemma_reloc_len(b.opcodes, 0, base);
    let r = reloc(b.opcodes, 0, base)->0;
    let labels = a.labels + shift_labels(b.labels, base);
    let links = merge_links(a.links, shift_links(b.links, base));
    crate::patch::lemma_resolved_len(a.opcodes + r, labels, links);
}

/// Linking is associative in the shape of its result: when both groupings
/// of three modules link, the results have the same length and the same
/// label table. (The opcodes and link tables are not compared here.)
pub proof fn lemma_link_assoc_shape(
    a: ModuleView,
    b: ModuleView,
    c: ModuleView,
    ab: ModuleView,
    bc: ModuleView,
    left: ModuleView,
    right: ModuleView,
)
    requires
        merge_model(a, b) == Ok::<ModuleView, Error>(ab),
        merge_model(ab, c) == Ok::<ModuleView, Error>(left),
        merge_model(b, c) == Ok::<ModuleView, Error>(bc),
        merge_model(a, bc) == Ok::<ModuleView, Error>(right),
    ensures
        left.opcodes.len() == right.opcodes.len(),
        left.labels == right.labels,
{
    lemma_merge_shape(a, b, ab);
    lemma_merge_shape(ab, c, left);
    lemma_merge_shape(b, c, bc);
    lemma_merge_shape(a, bc, right);
    let la = a.opcodes.len() as u64;
    let lb = b.opcodes.len() as u64;
    assert forall|k: int| 0 <= k < c.labels.len() implies shift_labels(
        shift_labels(c.labels, lb),
        la,
    )[k] == shift_labels(c.labels, (la + lb) as u64)[k] by {
        lemma_add_wrap_assoc(c.labels[k].1, lb, la);
    }
    assert(shift_labels(shift_labels(c.labels, lb), la) =~= shift_labels(
        c.labels,
        (la + lb) as u64,
    ));
    assert(shift_labels(b.labels + shift_labels(c.labels, lb), la) =~= shift_labels(b.labels, la)
        + shift_labels(shift_labels(c.labels, lb), la));
    assert(left.labels =~= right.labels);
}

} // verus!
