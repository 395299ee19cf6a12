//! The resolver: per-symbol records of an optional address and the patch
//! sites waiting for it, keyed by name and by numeric id, with
//! back-patching and a textual dump of the symbol table.
use vstd::prelude::*;
use crate::bytes::{push_all};
use crate::error::Error;
use crate::patch::{resolve as resolve_links, resolved_ops, sites_fit, unresolved};
use crate::table::{
    add_links, copy_links, copy_sites, find_label, find_links, has_key, id_bytes, id_key,
    keys_unique, labels_view, lemma_lookup_at, links_view, lookup, push_label, push_link,
};
use crate::text::{dec, push_decimal};

verus! {

/// What is known of one symbol.
pub struct Info {
    pub address: Option<u64>,
    pub links: Vec<u64>,
}

/// Patches, in `opcodes`, every site whose key has a label.
pub fn resolve(
    labels: &Vec<(Vec<u8>, u64)>,
    links: &Vec<(Vec<u8>, Vec<u64>)>,
    opcodes: &mut Vec<u8>,
) -> (r: Result<(), Error>)
    requires
        keys_unique(labels_view(labels@)),
        keys_unique(links_view(links@)),
    ensures
        !sites_fit(old(opcodes)@.len(), labels_view(labels@), links_view(links@)) ==> r == Err::<
            (),
            Error,
        >(Error::PatchOutOfBounds) && final(opcodes)@ == old(opcodes)@,
        sites_fit(old(opcodes)@.len(), labels_view(labels@), links_view(links@)) ==> r is Ok
            && final(opcodes)@ == resolved_ops(
            old(opcodes)@,
            labels_view(labels@),
            links_view(links@),
        ),
{
    let mut pending = copy_links(links);
    resolve_links(&mut pending, labels, opcodes)
}

/// The sites of a link list as text: a space and the decimal site each.
pub open spec fn sites_text(sites: Seq<u64>) -> Seq<u8>
    decreases sites.len(),
{
    if sites.len() == 0 {
        seq![]
    } else {
        sites_text(sites.drop_last()) + seq![32u8] + dec(sites.last() as nat)
    }
}

/// `None`
pub open spec fn none_text() -> Seq<u8> {
    seq![78u8, 111u8, 110u8, 101u8]
}

/// A name as written in the symbol table: its space bytes dropped, so that
/// the space-separated line stays readable.
pub open spec fn name_text(name: Seq<u8>) -> Seq<u8>
    decreases name.len(),
{
    if name.len() == 0 {
        seq![]
    } else {
        name_text(name.drop_last()) + if name.last() == 32 {
            Seq::<u8>::empty()
        } else {
            seq![name.last()]
        }
    }
}

/// Whether a name holds a `.`, that is, names a symbol of another module.
pub open spec fn has_dot(name: Seq<u8>) -> bool {
    exists|k: int| 0 <= k < name.len() && name[k] == 46
}

/// `.__ctor__`
pub open spec fn ctor_suffix() -> Seq<u8> {
    seq![46u8, 95u8, 95u8, 99u8, 116u8, 111u8, 114u8, 95u8, 95u8]
}

/// One line of the symbol table: the name, qualified by the module when the
/// symbol is defined here, its address or `None`, its sites. A name that is
/// only referred to and holds no `.` is written as `name.__ctor__`.
pub open spec fn symbol_line(
    module: Seq<u8>,
    name: Seq<u8>,
    address: Option<u64>,
    sites: Seq<u64>,
) -> Seq<u8> {
    match address {
        Some(a) => (if module.len() > 0 {
            module + seq![46u8]
        } else {
            seq![]
        }) + name_text(name) + seq![32u8] + dec(a as nat) + sites_text(sites) + seq![10u8],
        None => name_text(name) + (if has_dot(name) {
            Seq::<u8>::empty()
        } else {
            ctor_suffix()
        }) + seq![32u8] + none_text() + sites_text(sites) + seq![10u8],
    }
}

/// The sites recorded for a name, or none.
pub open spec fn sites_of(links: Seq<(Seq<u8>, Seq<u64>)>, name: Seq<u8>) -> Seq<u64> {
    match lookup(links, name) {
        Some(s) => s,
        None => seq![],
    }
}

/// The lines of the defined symbols, in order of definition.
pub open spec fn defined_lines(
    module: Seq<u8>,
    labels: Seq<(Seq<u8>, u64)>,
    links: Seq<(Seq<u8>, Seq<u64>)>,
) -> Seq<u8>
    decreases labels.len(),
{
    if labels.len() == 0 {
        seq![]
    } else {
        let e = labels.last();
        defined_lines(module, labels.drop_last(), links) + symbol_line(
            module,
            e.0,
            Some(e.1),
            sites_of(links, e.0),
        )
    }
}

/// The lines of the symbols that are only referred to, in order.
pub open spec fn undefined_lines(
    labels: Seq<(Seq<u8>, u64)>,
    links: Seq<(Seq<u8>, Seq<u64>)>,
) -> Seq<u8>
    decreases links.len(),
{
    if links.len() == 0 {
        seq![]
    } else {
        let e = links.last();
        undefined_lines(labels, links.drop_last()) + if has_key(labels, e.0) {
            seq![]
        } else {
            symbol_line(seq![], e.0, None, e.1)
        }
    }
}

/// Appends a name without its space bytes.
fn push_name(out: &mut Vec<u8>, name: &[u8])
    ensures
        final(out)@ == old(out)@ + name_text(name@),
{
    let mut i: usize = 0;
    while i < name.len()
        invariant
            i <= name@.len(),
            out@ == old(out)@ + name_text(name@.subrange(0, i as int)),
        decreases name@.len() - i,
    {
        if name[i] != 32u8 {
            out.push(name[i]);
        }
        i += 1;
        assert(name@.subrange(0, i as int).drop_last() =~= name@.subrange(0, i - 1));
        assert(out@ =~= old(out)@ + name_text(name@.subrange(0, i as int)));
    }
    assert(name@.subrange(0, name@.len() as int) =~= name@);
}

/// Appends the line of a name that is only referred to.
fn push_undefined_line(out: &mut Vec<u8>, name: &[u8], sites: &[u64])
    ensures
        final(out)@ == old(out)@ + symbol_line(seq![], name@, None, sites@),
{
    push_name(out, name);
    let ghost n1 = out@;
    if !contains_dot(name) {
        out.push(46u8);
        out.push(95u8);
        out.push(95u8);
        out.push(99u8);
        out.push(116u8);
        out.push(111u8);
        out.push(114u8);
        out.push(95u8);
        out.push(95u8);
        assert(out@ =~= n1 + ctor_suffix());
    } else {
        assert(out@ =~= n1 + Seq::<u8>::empty());
    }
    let ghost n2 = out@;
    out.push(32u8);
    out.push(78u8);
    out.push(111u8);
    out.push(110u8);
    out.push(101u8);
    assert(out@ =~= n2 + seq![32u8] + none_text());
    push_sites(out, sites);
    out.push(10u8);
    assert(out@ =~= old(out)@ + symbol_line(seq![], name@, None, sites@));
}

/// Whether a name holds a `.`.
fn contains_dot(name: &[u8]) -> (r: bool)
    ensures
        r == has_dot(name@),
{
    let mut i: usize = 0;
    while i < name.len()
        invariant
            i <= name@.len(),
            forall|k: int| 0 <= k < i ==> name@[k] != 46,
        decreases name@.len() - i,
    {
        if name[i] == 46u8 {
            return true;
        }
        i += 1;
    }
    false
}

/// Appends the decimal sites, each after a space.
fn push_sites(out: &mut Vec<u8>, sites: &[u64])
    ensures
        final(out)@ == old(out)@ + sites_text(sites@),
{
    let mut i: usize = 0;
    while i < sites.len()
        invariant
            i <= sites@.len(),
            out@ == old(out)@ + sites_text(sites@.subrange(0, i as int)),
        decreases sites@.len() - i,
    {
        out.push(32u8);
        push_decimal(out, sites[i]);
        i += 1;
        assert(sites@.subrange(0, i as int).drop_last() =~= sites@.subrange(0, i - 1));
        assert(out@ =~= old(out)@ + sites_text(sites@.subrange(0, i as int)));
    }
    assert(sites@.subrange(0, sites@.len() as int) =~= sites@);
}

/// Named symbols: labels and the link sites waiting for them.
pub struct Name {
    labels: Vec<(Vec<u8>, u64)>,
    links: Vec<(Vec<u8>, Vec<u64>)>,
}

impl Name {
    /// The defined names with their addresses.
    pub closed spec fn labels(&self) -> Seq<(Seq<u8>, u64)> {
        labels_view(self.labels@)
    }

    /// The names with their waiting sites.
    pub closed spec fn links(&self) -> Seq<(Seq<u8>, Seq<u64>)> {
        links_view(self.links@)
    }

    /// Both tables have unique names.
    pub open spec fn wf(&self) -> bool {
        keys_unique(self.labels()) && keys_unique(self.links())
    }

    /// No symbol.
    pub fn new() -> (r: Self)
        ensures
            r.wf(),
            r.labels().len() == 0,
            r.links().len() == 0,
    {
        let r = Name { labels: Vec::new(), links: Vec::new() };
        assert(r.labels() =~= Seq::<(Seq<u8>, u64)>::empty());
        assert(r.links() =~= Seq::<(Seq<u8>, Seq<u64>)>::empty());
        r
    }

    /// Gives a name its address; a name that has one already is an error.
    pub fn label(&mut self, name: &[u8], address: u64) -> (r: Result<(), Error>)
        requires
            old(self).wf(),
        ensures
            final(self).wf(),
            final(self).links() == old(self).links(),
            has_key(old(self).labels(), name@) ==> r == Err::<(), Error>(Error::DuplicateLabel)
                && final(self).labels() == old(self).labels(),
            !has_key(old(self).labels(), name@) ==> r is Ok && final(self).labels() == old(self).labels().push((name@, address)),
    {
        push_label(&mut self.labels, name, address)
    }

    /// Records a site waiting for a name.
    pub fn link(&mut self, name: &[u8], site: u64)
        requires
            old(self).wf(),
        ensures
            final(self).wf(),
            final(self).labels() == old(self).labels(),
            final(self).links() == add_links(old(self).links(), name@, seq![site]),
    {
        push_link(&mut self.links, name, site);
    }

    /// What is known of a name.
    pub fn get(&self, name: &[u8]) -> (r: Info)
        requires
            self.wf(),
        ensures
            r.address == lookup(self.labels(), name@),
            r.links@ == sites_of(self.links(), name@),
    {
        let address = match find_label(&self.labels, name) {
            Some(i) => {
                proof {
                    lemma_lookup_at(self.labels(), i as int);
                }
                Some(self.labels[i].1)
            },
            None => None,
        };
        let links = match find_links(&self.links, name) {
            Some(i) => {
                proof {
                    lemma_lookup_at(self.links(), i as int);
                }
                copy_sites(self.links[i].1.as_slice())
            },
            None => Vec::new(),
        };
        proof {
            if !has_key(self.links(), name@) {
                assert(links@ =~= Seq::<u64>::empty());
            }
        }
        Info { address, links }
    }

    /// Patches every site whose name has an address; the records stay.
    pub fn resolve(&self, opcodes: &mut Vec<u8>) -> (r: Result<(), Error>)
        requires
            self.wf(),
        ensures
            !sites_fit(old(opcodes)@.len(), self.labels(), self.links()) ==> r == Err::<
                (),
                Error,
            >(Error::PatchOutOfBounds) && final(opcodes)@ == old(opcodes)@,
            sites_fit(old(opcodes)@.len(), self.labels(), self.links()) ==> r is Ok && final(opcodes)@ == resolved_ops(old(opcodes)@, self.labels(), self.links()),
    {
        resolve(&self.labels, &self.links, opcodes)
    }

    /// Forgets the sites of every name that has an address.
    fn drop_resolved(&mut self, opcodes: &mut Vec<u8>) -> (r: Result<(), Error>)
        requires
            old(self).wf(),
        ensures
            final(self).wf(),
            final(self).labels() == old(self).labels(),
            !sites_fit(old(opcodes)@.len(), old(self).labels(), old(self).links()) ==> r
                == Err::<(), Error>(Error::PatchOutOfBounds) && final(opcodes)@ == old(opcodes)@
                && final(self).links() == old(self).links(),
            sites_fit(old(opcodes)@.len(), old(self).labels(), old(self).links()) ==> r is Ok
                && final(opcodes)@ == resolved_ops(
                old(opcodes)@,
                old(self).labels(),
                old(self).links(),
            ) && final(self).links() == unresolved(old(self).labels(), old(self).links()),
    {
        resolve_links(&mut self.links, &self.labels, opcodes)
    }

    /// The symbol table as text: one line per defined name, qualified by
    /// `module` when it is not empty, with its address and sites; then one
    /// line per name only referred to, with `None` and its sites.
    pub fn save(&self, module: &[u8]) -> (r: Vec<u8>)
        requires
            self.wf(),
        ensures
            r@ == defined_lines(module@, self.labels(), self.links()) + undefined_lines(
                self.labels(),
                self.links(),
            ),
    {
        let mut out: Vec<u8> = Vec::new();
        let mut i: usize = 0;
        while i < self.labels.len()
            invariant
                self.wf(),
                i <= self.labels@.len(),
                out@ == defined_lines(module@, self.labels().subrange(0, i as int), self.links()),
            decreases self.labels@.len() - i,
        {
            let ghost before = out@;
            if module.len() > 0 {
                push_all(&mut out, module);
                out.push(46u8);
            }
            push_name(&mut out, self.labels[i].0.as_slice());
            out.push(32u8);
            push_decimal(&mut out, self.labels[i].1);
            let info = self.get(self.labels[i].0.as_slice());
            push_sites(&mut out, info.links.as_slice());
            out.push(10u8);
            let ghost e = self.labels()[i as int];
            i += 1;
            proof {
                let sub = self.labels().subrange(0, i as int);
                assert(sub.drop_last() =~= self.labels().subrange(0, i - 1));
                assert(sub.last() == e);
                assert(out@ =~= before + symbol_line(module@, e.0, Some(e.1), sites_of(self.links(), e.0)));
            }
        }
        assert(self.labels().subrange(0, self.labels@.len() as int) =~= self.labels());
        let ghost mid = out@;
        let mut k: usize = 0;
        while k < self.links.len()
            invariant
                self.wf(),
                k <= self.links@.len(),
                out@ == mid + undefined_lines(self.labels(), self.links().subrange(0, k as int)),
            decreases self.links@.len() - k,
        {
            let ghost before = out@;
            let ghost e = self.links()[k as int];
            if find_label(&self.labels, self.links[k].0.as_slice()).is_none() {
                push_undefined_line(&mut out, self.links[k].0.as_slice(), self.links[k].1.as_slice());
                assert(out@ =~= before + symbol_line(seq![], e.0, None, e.1));
            }
            k += 1;
            proof {
                let sub = self.links().subrange(0, k as int);
                assert(sub.drop_last() =~= self.links().subrange(0, k - 1));
                assert(sub.last() == e);
                assert(out@ =~= mid + undefined_lines(self.labels(), sub));
            }
        }
        assert(self.links().subrange(0, self.links@.len() as int) =~= self.links());
        out
    }
}

/// Numeric symbols, keyed by the eight big-endian bytes of their id.
pub struct Index {
    labels: Vec<(Vec<u8>, u64)>,
    links: Vec<(Vec<u8>, Vec<u64>)>,
}

impl Index {
    /// The defined ids with their addresses.
    pub closed spec fn labels(&self) -> Seq<(Seq<u8>, u64)> {
        labels_view(self.labels@)
    }

    /// The ids with their waiting sites.
    pub closed spec fn links(&self) -> Seq<(Seq<u8>, Seq<u64>)> {
        links_view(self.links@)
    }

    /// Both tables have unique ids.
    pub open spec fn wf(&self) -> bool {
        keys_unique(self.labels()) && keys_unique(self.links())
    }

    /// No symbol.
    pub fn new() -> (r: Self)
        ensures
            r.wf(),
            r.labels().len() == 0,
            r.links().len() == 0,
    {
        let r = Index { labels: Vec::new(), links: Vec::new() };
        assert(r.labels() =~= Seq::<(Seq<u8>, u64)>::empty());
        assert(r.links() =~= Seq::<(Seq<u8>, Seq<u64>)>::empty());
        r
    }

    /// Gives an id its address; an id that has one already is an error.
    pub fn label(&mut self, index: u64, address: u64) -> (r: Result<(), Error>)
        requires
            old(self).wf(),
        ensures
            final(self).wf(),
            final(self).links() == old(self).links(),
            has_key(old(self).labels(), id_key(index)) ==> r == Err::<(), Error>(
                Error::DuplicateLabel,
            ) && final(self).labels() == old(self).labels(),
            !has_key(old(self).labels(), id_key(index)) ==> r is Ok && final(self).labels()
                == old(self).labels().push((id_key(index), address)),
    {
        let key = id_bytes(index);
        push_label(&mut self.labels, key.as_slice(), address)
    }

    /// Records a site waiting for an id.
    pub fn link(&mut self, index: u64, site: u64)
        requires
            old(self).wf(),
        ensures
            final(self).wf(),
            final(self).labels() == old(self).labels(),
            final(self).links() == add_links(old(self).links(), id_key(index), seq![site]),
    {
        let key = id_bytes(index);
        push_link(&mut self.links, key.as_slice(), site);
    }

    /// Patches every site whose id has an address, keeps the sites of ids
    /// without one, and forgets the labels.
    fn settle(&mut self, opcodes: &mut Vec<u8>) -> (r: Result<(), Error>)
        requires
            old(self).wf(),
        ensures
            final(self).wf(),
            !sites_fit(old(opcodes)@.len(), old(self).labels(), old(self).links()) ==> r
                == Err::<(), Error>(Error::PatchOutOfBounds) && final(opcodes)@ == old(opcodes)@
                && *final(self) == *old(self),
            sites_fit(old(opcodes)@.len(), old(self).labels(), old(self).links()) ==> r is Ok
                && final(opcodes)@ == resolved_ops(
                old(opcodes)@,
                old(self).labels(),
                old(self).links(),
            ) && final(self).links() == unresolved(old(self).labels(), old(self).links())
                && final(self).labels().len() == 0,
    {
        if !crate::patch::check_sites(&self.links, &self.labels, opcodes.len()) {
            return Err(Error::PatchOutOfBounds);
        }
        let _ = resolve_links(&mut self.links, &self.labels, opcodes);
        self.labels = Vec::new();
        assert(self.labels() =~= Seq::<(Seq<u8>, u64)>::empty());
        Ok(())
    }

    /// Patches every site whose id has an address; the records stay.
    pub fn resolve(&self, opcodes: &mut Vec<u8>) -> (r: Result<(), Error>)
        requires
            self.wf(),
        ensures
            !sites_fit(old(opcodes)@.len(), self.labels(), self.links()) ==> r == Err::<
                (),
                Error,
            >(Error::PatchOutOfBounds) && final(opcodes)@ == old(opcodes)@,
            sites_fit(old(opcodes)@.len(), self.labels(), self.links()) ==> r is Ok && final(opcodes)@ == resolved_ops(old(opcodes)@, self.labels(), self.links()),
    {
        resolve(&self.labels, &self.links, opcodes)
    }
}

/// Labels and link sites of one translation unit, by name and by numeric id.
pub struct Resolver {
    labels: Name,
    indexes: Index,
}

impl Resolver {
    /// The named symbols.
    pub closed spec fn names(&self) -> Name {
        self.labels
    }

    /// The numeric symbols.
    pub closed spec fn ids(&self) -> Index {
        self.indexes
    }

    /// Both parts are consistent.
    pub open spec fn wf(&self) -> bool {
        self.names().wf() && self.ids().wf()
    }

    /// No symbol.
    pub fn new() -> (r: Self)
        ensures
            r.wf(),
            r.names().labels().len() == 0,
            r.names().links().len() == 0,
            r.ids().labels().len() == 0,
            r.ids().links().len() == 0,
    {
        Resolver { labels: Name::new(), indexes: Index::new() }
    }

    /// Gives a name its address; a name that has one already is an error.
    pub fn push_label_name(&mut self, name: &[u8], address: u64) -> (r: Result<(), Error>)
        requires
            old(self).wf(),
        ensures
            final(self).wf(),
            final(self).ids() == old(self).ids(),
            final(self).names().links() == old(self).names().links(),
            has_key(old(self).names().labels(), name@) ==> r == Err::<(), Error>(
                Error::DuplicateLabel,
            ) && final(self).names().labels() == old(self).names().labels(),
            !has_key(old(self).names().labels(), name@) ==> r is Ok && final(self).names().labels() == old(self).names().labels().push((name@, address)),
    {
        self.labels.label(name, address)
    }

    /// Gives an id its address; an id that has one already is an error.
    pub fn push_label_index(&mut self, index: u64, address: u64) -> (r: Result<(), Error>)
        requires
            old(self).wf(),
        ensures
            final(self).wf(),
            final(self).names() == old(self).names(),
            final(self).ids().links() == old(self).ids().links(),
            has_key(old(self).ids().labels(), id_key(index)) ==> r == Err::<(), Error>(
                Error::DuplicateLabel,
            ) && final(self).ids().labels() == old(self).ids().labels(),
            !has_key(old(self).ids().labels(), id_key(index)) ==> r is Ok && final(self).ids().labels() == old(self).ids().labels().push((id_key(index), address)),
    {
        self.indexes.label(index, address)
    }

    /// Records a site waiting for a name.
    pub fn push_link_name(&mut self, name: &[u8], site: u64)
        requires
            old(self).wf(),
        ensures
            final(self).wf(),
            final(self).ids() == old(self).ids(),
            final(self).names().labels() == old(self).names().labels(),
            final(self).names().links() == add_links(old(self).names().links(), name@, seq![site]),
    {
        self.labels.link(name, site);
    }

    /// Records a site waiting for an id.
    pub fn push_link_index(&mut self, index: u64, site: u64)
        requires
            old(self).wf(),
        ensures
            final(self).wf(),
            final(self).names() == old(self).names(),
            final(self).ids().labels() == old(self).ids().labels(),
            final(self).ids().links() == add_links(
                old(self).ids().links(),
                id_key(index),
                seq![site],
            ),
    {
        self.indexes.link(index, site);
    }

    /// Patches every numeric site and forgets the numeric labels, keeping
    /// the sites of ids without one; then
    /// patches every named site whose name has an address and forgets those
    /// sites. The other named sites stay for the linker.
    pub fn resolve(&mut self, opcodes: &mut Vec<u8>) -> (r: Result<(), Error>)
        requires
            old(self).wf(),
        ensures
            final(self).wf(),
            ({
                let c0 = old(opcodes)@;
                let il = old(self).ids().labels();
                let ik = old(self).ids().links();
                let nl = old(self).names().labels();
                let nk = old(self).names().links();
                if !sites_fit(c0.len(), il, ik) || !sites_fit(c0.len(), nl, nk) {
                    &&& r == Err::<(), Error>(Error::PatchOutOfBounds)
                    &&& final(opcodes)@ == c0
                    &&& final(self).ids() == old(self).ids()
                    &&& final(self).names() == old(self).names()
                } else {
                    &&& r is Ok
                    &&& final(opcodes)@ == resolved_ops(resolved_ops(c0, il, ik), nl, nk)
                    &&& final(self).ids().labels().len() == 0
                    &&& final(self).ids().links() == unresolved(il, ik)
                    &&& final(self).names().labels() == nl
                    &&& final(self).names().links() == unresolved(nl, nk)
                }
            }),
    {
        proof {
            if sites_fit(opcodes@.len(), self.ids().labels(), self.ids().links()) {
                crate::patch::lemma_resolved_len(
                    opcodes@,
                    self.ids().labels(),
                    self.ids().links(),
                );
            }
        }
        if !crate::patch::check_sites(&self.labels.links, &self.labels.labels, opcodes.len()) {
            return Err(Error::PatchOutOfBounds);
        }
        self.indexes.settle(opcodes)?;
        self.labels.drop_resolved(opcodes)
    }

    /// The named symbol table as text, defined names qualified by `module`.
    pub fn save_labels(&self, module: &[u8]) -> (r: Vec<u8>)
        requires
            self.wf(),
        ensures
            r@ == defined_lines(module@, self.names().labels(), self.names().links())
                + undefined_lines(self.names().labels(), self.names().links()),
    {
        self.labels.save(module)
    }
}

} // verus!
