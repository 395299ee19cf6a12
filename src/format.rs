//! The object-module file format as values: what a module is, how it is
//! encoded, how bytes are decoded, and the proof that decoding undoes encoding.
use vstd::prelude::*;
use crate::bytes::{
    be4, enc_bytes, enc_name, enc_u32_items, enc_u32s, from_be4, lemma_be4_round_trip, u32_items,
    all_fit_u32,
};
use crate::error::Error;
use crate::table::{has_key, keys_unique};

verus! {

/// A module as plain values: opcodes, named labels, named link lists.
pub struct ModuleView {
    pub opcodes: Seq<u8>,
    pub labels: Seq<(Seq<u8>, u64)>,
    pub links: Seq<(Seq<u8>, Seq<u64>)>,
}

/// The four magic bytes `LET&` that open a module file.
pub open spec fn magic() -> Seq<u8> {
    seq![76u8, 69u8, 84u8, 38u8]
}

/// Label entries: a name and a 32-bit address each.
pub open spec fn enc_label_items(s: Seq<(Seq<u8>, u64)>) -> Seq<u8>
    decreases s.len(),
{
    if s.len() == 0 {
        seq![]
    } else {
        enc_label_items(s.drop_last()) + enc_name(s.last().0) + be4(s.last().1 as u32)
    }
}

/// Link entries: a name and a counted list of 32-bit sites each.
pub open spec fn enc_link_items(s: Seq<(Seq<u8>, Seq<u64>)>) -> Seq<u8>
    decreases s.len(),
{
    if s.len() == 0 {
        seq![]
    } else {
        enc_link_items(s.drop_last()) + enc_name(s.last().0) + enc_u32s(s.last().1)
    }
}

/// The label table: a 32-bit count, then the entries.
pub open spec fn enc_labels(s: Seq<(Seq<u8>, u64)>) -> Seq<u8> {
    be4(s.len() as u32) + enc_label_items(s)
}

/// The link table: a 32-bit count, then the entries.
pub open spec fn enc_links(s: Seq<(Seq<u8>, Seq<u64>)>) -> Seq<u8> {
    be4(s.len() as u32) + enc_link_items(s)
}

/// The bytes of a module file.
#[verifier::opaque]
pub open spec fn enc_module(m: ModuleView) -> Seq<u8> {
    magic() + enc_bytes(m.opcodes) + enc_labels(m.labels) + enc_links(m.links)
}

/// Every label fits the on-disk widths.
pub open spec fn labels_fit(s: Seq<(Seq<u8>, u64)>) -> bool {
    &&& s.len() <= u32::MAX
    &&& forall|i: int| 0 <= i < s.len() ==> #[trigger] s[i].0.len() <= 255 && s[i].1 <= u32::MAX
}

/// One link entry fits the on-disk widths.
pub open spec fn link_fits(e: (Seq<u8>, Seq<u64>)) -> bool {
    e.0.len() <= 255 && e.1.len() <= u32::MAX && all_fit_u32(e.1)
}

/// Every link list fits the on-disk widths.
pub open spec fn links_fit(s: Seq<(Seq<u8>, Seq<u64>)>) -> bool {
    &&& s.len() <= u32::MAX
    &&& forall|i: int| 0 <= i < s.len() ==> #[trigger] link_fits(s[i])
}

/// Every field of the module fits its on-disk width.
pub open spec fn module_fits(m: ModuleView) -> bool {
    m.opcodes.len() <= u32::MAX && labels_fit(m.labels) && links_fit(m.links)
}

/// A name at `p`: its length byte and that many bytes.
pub open spec fn parse_name(d: Seq<u8>, p: int) -> Option<(Seq<u8>, int)> {
    if 0 <= p && p + 1 <= d.len() && p + 1 + d[p] <= d.len() {
        Some((d.subrange(p + 1, p + 1 + d[p]), p + 1 + d[p]))
    } else {
        None
    }
}

/// A big-endian 32-bit value at `p`.
pub open spec fn parse_u32(d: Seq<u8>, p: int) -> Option<(u32, int)> {
    if 0 <= p && p + 4 <= d.len() {
        Some((from_be4(d.subrange(p, p + 4)), p + 4))
    } else {
        None
    }
}

/// A counted list of 32-bit values at `p`.
pub open spec fn parse_u32s(d: Seq<u8>, p: int) -> Option<(Seq<u64>, int)> {
    match parse_u32(d, p) {
        Some((n, q)) => if q + 4 * n <= d.len() {
            Some((u32_items(d, q, n as nat), q + 4 * n))
        } else {
            None
        },
        None => None,
    }
}

/// A counted byte string at `p`.
pub open spec fn parse_bytes(d: Seq<u8>, p: int) -> Option<(Seq<u8>, int)> {
    match parse_u32(d, p) {
        Some((n, q)) => if q + n <= d.len() {
            Some((d.subrange(q, q + n), q + n))
        } else {
            None
        },
        None => None,
    }
}

/// The first `n` label entries at `p`; a repeated name is an error.
pub open spec fn parse_label_items(d: Seq<u8>, p: int, n: nat) -> Result<
    (Seq<(Seq<u8>, u64)>, int),
    Error,
>
    decreases n,
{
    if n == 0 {
        Ok((seq![], p))
    } else {
        match parse_label_items(d, p, (n - 1) as nat) {
            Err(e) => Err(e),
            Ok((s, q)) => match parse_name(d, q) {
                None => Err(Error::Truncated),
                Some((name, q1)) => if has_key(s, name) {
                    Err(Error::DuplicateLabel)
                } else {
                    match parse_u32(d, q1) {
                        None => Err(Error::Truncated),
                        Some((a, q2)) => Ok((s.push((name, a as u64)), q2)),
                    }
                },
            },
        }
    }
}

/// The first `n` link entries at `p`; a repeated name is an error.
pub open spec fn parse_link_items(d: Seq<u8>, p: int, n: nat) -> Result<
    (Seq<(Seq<u8>, Seq<u64>)>, int),
    Error,
>
    decreases n,
{
    if n == 0 {
        Ok((seq![], p))
    } else {
        match parse_link_items(d, p, (n - 1) as nat) {
            Err(e) => Err(e),
            Ok((s, q)) => match parse_name(d, q) {
                None => Err(Error::Truncated),
                Some((name, q1)) => if has_key(s, name) {
                    Err(Error::DuplicateLabel)
                } else {
                    match parse_u32s(d, q1) {
                        None => Err(Error::Truncated),
                        Some((sites, q2)) => Ok((s.push((name, sites)), q2)),
                    }
                },
            },
        }
    }
}

/// A label table at `p`.
pub open spec fn parse_labels(d: Seq<u8>, p: int) -> Result<(Seq<(Seq<u8>, u64)>, int), Error> {
    match parse_u32(d, p) {
        None => Err(Error::Truncated),
        Some((n, q)) => parse_label_items(d, q, n as nat),
    }
}

/// A link table at `p`.
pub open spec fn parse_links(d: Seq<u8>, p: int) -> Result<
    (Seq<(Seq<u8>, Seq<u64>)>, int),
    Error,
> {
    match parse_u32(d, p) {
        None => Err(Error::Truncated),
        Some((n, q)) => parse_link_items(d, q, n as nat),
    }
}

/// The module held by a file; bytes after the link table are not read.
#[verifier::opaque]
pub open spec fn parse_module(d: Seq<u8>) -> Result<ModuleView, Error> {
    if d.len() < 4 {
        Err(Error::Truncated)
    } else if d.subrange(0, 4) != magic() {
        Err(Error::UnknownFormat)
    } else {
        match parse_bytes(d, 4) {
            None => Err(Error::Truncated),
            Some((ops, p)) => match parse_labels(d, p) {
                Err(e) => Err(e),
                Ok((labels, q)) => match parse_links(d, q) {
                    Err(e) => Err(e),
                    Ok((links, _)) => Ok(ModuleView { opcodes: ops, labels, links }),
                },
            },
        }
    }
}

/// Once the label entries fail, more entries fail the same way.
pub proof fn lemma_label_items_err(d: Seq<u8>, p: int, i: nat, n: nat)
    requires
        i <= n,
        parse_label_items(d, p, i) is Err,
    ensures
        parse_label_items(d, p, n) == parse_label_items(d, p, i),
    decreases n,
{
    if n > i {
        lemma_label_items_err(d, p, i, (n - 1) as nat);
    }
}

/// Once the link entries fail, more entries fail the same way.
pub proof fn lemma_link_items_err(d: Seq<u8>, p: int, i: nat, n: nat)
    requires
        i <= n,
        parse_link_items(d, p, i) is Err,
    ensures
        parse_link_items(d, p, n) == parse_link_items(d, p, i),
    decreases n,
{
    if n > i {
        lemma_link_items_err(d, p, i, (n - 1) as nat);
    }
}

proof fn lemma_split(d: Seq<u8>, p: int, x: Seq<u8>, y: Seq<u8>)
    requires
        0 <= p,
        p + x.len() + y.len() <= d.len(),
        d.subrange(p, p + x.len() + y.len()) == x + y,
    ensures
        d.subrange(p, p + x.len()) == x,
        d.subrange(p + x.len(), p + x.len() + y.len()) == y,
{
    assert(d.subrange(p, p + x.len()) =~= (x + y).subrange(0, x.len() as int));
    assert(d.subrange(p + x.len(), p + x.len() + y.len()) =~= (x + y).subrange(
        x.len() as int,
        (x.len() + y.len()) as int,
    ));
}

proof fn lemma_parse_name_at(d: Seq<u8>, p: int, name: Seq<u8>)
    requires
        0 <= p,
        name.len() <= 255,
        p + 1 + name.len() <= d.len(),
        d.subrange(p, p + 1 + name.len()) == enc_name(name),
    ensures
        parse_name(d, p) == Some::<(Seq<u8>, int)>((name, p + 1 + name.len())),
{
    lemma_split(d, p, seq![name.len() as u8], name);
    assert(d[p] == d.subrange(p, p + 1)[0]);
    assert((name.len() as u8) as int == name.len());
}

proof fn lemma_parse_u32_at(d: Seq<u8>, p: int, v: u32)
    requires
        0 <= p,
        p + 4 <= d.len(),
        d.subrange(p, p + 4) == be4(v),
    ensures
        parse_u32(d, p) == Some::<(u32, int)>((v, p + 4)),
{
    lemma_be4_round_trip(v);
}

proof fn lemma_u32_items_at(d: Seq<u8>, p: int, s: Seq<u64>)
    requires
        0 <= p,
        all_fit_u32(s),
        p + enc_u32_items(s).len() <= d.len(),
        d.subrange(p, p + enc_u32_items(s).len()) == enc_u32_items(s),
    ensures
        enc_u32_items(s).len() == 4 * s.len(),
        u32_items(d, p, s.len()) == s,
    decreases s.len(),
{
    if s.len() > 0 {
        let t = s.drop_last();
        let last = s.last();
        assert(all_fit_u32(t));
        lemma_split(d, p, enc_u32_items(t), be4(last as u32));
        lemma_u32_items_at(d, p, t);
        let q = p + 4 * t.len();
        lemma_be4_round_trip(last as u32);
        assert((last as u32) as u64 == last);
        assert(u32_items(d, p, s.len()) =~= s) by {
            assert forall|i: int| 0 <= i < s.len() implies #[trigger] u32_items(d, p, s.len())[i]
                == s[i] by {
                if i < t.len() {
                    assert(u32_items(d, p, t.len())[i] == t[i]);
                }
            }
        }
    }
}

proof fn lemma_label_items_at(d: Seq<u8>, p: int, s: Seq<(Seq<u8>, u64)>)
    requires
        0 <= p,
        keys_unique(s),
        labels_fit(s),
        p + enc_label_items(s).len() <= d.len(),
        d.subrange(p, p + enc_label_items(s).len()) == enc_label_items(s),
    ensures
        parse_label_items(d, p, s.len()) == Ok::<(Seq<(Seq<u8>, u64)>, int), Error>(
            (s, p + enc_label_items(s).len()),
        ),
    decreases s.len(),
{
    if s.len() > 0 {
        let t = s.drop_last();
        let e = s.last();
        assert(s[s.len() - 1] == e);
        assert(keys_unique(t));
        assert(labels_fit(t)) by {
            assert forall|i: int| 0 <= i < t.len() implies #[trigger] t[i].0.len() <= 255 && t[i].1
                <= u32::MAX by {
                assert(s[i] == t[i]);
            }
        }
        let et = enc_label_items(t);
        lemma_split(d, p, et + enc_name(e.0), be4(e.1 as u32));
        lemma_split(d, p, et, enc_name(e.0));
        lemma_label_items_at(d, p, t);
        let q = p + et.len();
        lemma_parse_name_at(d, q, e.0);
        let q1 = q + 1 + e.0.len();
        lemma_parse_u32_at(d, q1, e.1 as u32);
        if has_key(t, e.0) {
            let j = choose|j: int| 0 <= j < t.len() && t[j].0 == e.0;
            assert(s[j].0 == s[s.len() - 1].0);
        }
        assert((e.1 as u32) as u64 == e.1);
        assert(t.push((e.0, e.1)) =~= s);
        assert(((s.len() - 1) as nat) == t.len());
    } else {
        assert(s =~= seq![]);
    }
}

proof fn lemma_link_items_at(d: Seq<u8>, p: int, s: Seq<(Seq<u8>, Seq<u64>)>)
    requires
        0 <= p,
        keys_unique(s),
        links_fit(s),
        p + enc_link_items(s).len() <= d.len(),
        d.subrange(p, p + enc_link_items(s).len()) == enc_link_items(s),
    ensures
        parse_link_items(d, p, s.len()) == Ok::<(Seq<(Seq<u8>, Seq<u64>)>, int), Error>(
            (s, p + enc_link_items(s).len()),
        ),
    decreases s.len(),
{
    if s.len() > 0 {
        let t = s.drop_last();
        let e = s.last();
        assert(s[s.len() - 1] == e);
        assert(keys_unique(t));
        assert(links_fit(t)) by {
            assert forall|i: int| 0 <= i < t.len() implies #[trigger] link_fits(t[i]) by {
                assert(s[i] == t[i]);
            }
        }
        assert(link_fits(s[s.len() - 1]));
        assert(e.0.len() <= 255 && e.1.len() <= u32::MAX && all_fit_u32(e.1));
        let et = enc_link_items(t);
        lemma_split(d, p, et + enc_name(e.0), enc_u32s(e.1));
        lemma_split(d, p, et, enc_name(e.0));
        lemma_link_items_at(d, p, t);
        let q = p + et.len();
        lemma_parse_name_at(d, q, e.0);
        let q1 = q + 1 + e.0.len();
        lemma_split(d, q1, be4(e.1.len() as u32), enc_u32_items(e.1));
        lemma_parse_u32_at(d, q1, e.1.len() as u32);
        lemma_u32_items_at(d, q1 + 4, e.1);
        assert((e.1.len() as u32) as nat == e.1.len());
        if has_key(t, e.0) {
            let j = choose|j: int| 0 <= j < t.len() && t[j].0 == e.0;
            assert(s[j].0 == s[s.len() - 1].0);
        }
        assert(t.push((e.0, e.1)) =~= s);
        assert(((s.len() - 1) as nat) == t.len());
    } else {
        assert(s =~= seq![]);
    }
}

proof fn lemma_bytes_at(d: Seq<u8>, p: int, ops: Seq<u8>)
    requires
        0 <= p,
        ops.len() <= u32::MAX,
        p + enc_bytes(ops).len() <= d.len(),
        d.subrange(p, p + enc_bytes(ops).len()) == enc_bytes(ops),
    ensures
        parse_bytes(d, p) == Some::<(Seq<u8>, int)>((ops, p + enc_bytes(ops).len())),
{
    lemma_split(d, p, be4(ops.len() as u32), ops);
    lemma_parse_u32_at(d, p, ops.len() as u32);
    assert((ops.len() as u32) as nat == ops.len());
}

proof fn lemma_labels_at(d: Seq<u8>, p: int, s: Seq<(Seq<u8>, u64)>)
    requires
        0 <= p,
        keys_unique(s),
        labels_fit(s),
        p + enc_labels(s).len() <= d.len(),
        d.subrange(p, p + enc_labels(s).len()) == enc_labels(s),
    ensures
        parse_labels(d, p) == Ok::<(Seq<(Seq<u8>, u64)>, int), Error>(
            (s, p + enc_labels(s).len()),
        ),
{
    lemma_split(d, p, be4(s.len() as u32), enc_label_items(s));
    lemma_parse_u32_at(d, p, s.len() as u32);
    assert((s.len() as u32) as nat == s.len());
    lemma_label_items_at(d, p + 4, s);
}

proof fn lemma_links_at(d: Seq<u8>, p: int, s: Seq<(Seq<u8>, Seq<u64>)>)
    requires
        0 <= p,
        keys_unique(s),
        links_fit(s),
        p + enc_links(s).len() <= d.len(),
        d.subrange(p, p + enc_links(s).len()) == enc_links(s),
    ensures
        parse_links(d, p) == Ok::<(Seq<(Seq<u8>, Seq<u64>)>, int), Error>(
            (s, p + enc_links(s).len()),
        ),
{
    lemma_split(d, p, be4(s.len() as u32), enc_link_items(s));
    lemma_parse_u32_at(d, p, s.len() as u32);
    assert((s.len() as u32) as nat == s.len());
    lemma_link_items_at(d, p + 4, s);
}

proof fn lemma_concat4(a: Seq<u8>, b: Seq<u8>, c: Seq<u8>, e: Seq<u8>)
    ensures
        (a + b + c + e).subrange(0, a.len() as int) == a,
        (a + b + c + e).subrange(a.len() as int, (a.len() + b.len()) as int) == b,
        (a + b + c + e).subrange((a.len() + b.len()) as int, (a.len() + b.len() + c.len()) as int)
            == c,
        (a + b + c + e).subrange(
            (a.len() + b.len() + c.len()) as int,
            (a.len() + b.len() + c.len() + e.len()) as int,
        ) == e,
{
    let d = a + b + c + e;
    assert(d.subrange(0, a.len() as int) =~= a);
    assert(d.subrange(a.len() as int, (a.len() + b.len()) as int) =~= b);
    assert(d.subrange((a.len() + b.len()) as int, (a.len() + b.len() + c.len()) as int) =~= c);
    assert(d.subrange(
        (a.len() + b.len() + c.len()) as int,
        (a.len() + b.len() + c.len() + e.len()) as int,
    ) =~= e);
}

proof fn lemma_parse_module_at(d: Seq<u8>, m: ModuleView, p: int, q: int, r: int)
    requires
        module_fits(m),
        keys_unique(m.labels),
        keys_unique(m.links),
        p == 4 + enc_bytes(m.opcodes).len(),
        q == p + enc_labels(m.labels).len(),
        r == q + enc_links(m.links).len(),
        r <= d.len(),
        d.subrange(0, 4) == magic(),
        d.subrange(4, p) == enc_bytes(m.opcodes),
        d.subrange(p, q) == enc_labels(m.labels),
        d.subrange(q, r) == enc_links(m.links),
    ensures
        parse_module(d) == Ok::<ModuleView, Error>(m),
{
    reveal(parse_module);
    lemma_bytes_at(d, 4, m.opcodes);
    lemma_labels_at(d, p, m.labels);
    lemma_links_at(d, q, m.links);
}

/// Decoding the encoding of a module gives the module back, for every module
/// whose fields fit the on-disk widths and whose table names are unique.
pub proof fn lemma_module_round_trip(m: ModuleView)
    requires
        module_fits(m),
        keys_unique(m.labels),
        keys_unique(m.links),
    ensures
        parse_module(enc_module(m)) == Ok::<ModuleView, Error>(m),
{
    reveal(enc_module);
    lemma_concat4(magic(), enc_bytes(m.opcodes), enc_labels(m.labels), enc_links(m.links));
    let p = 4 + enc_bytes(m.opcodes).len();
    let q = p + enc_labels(m.labels).len();
    let r = q + enc_links(m.links).len();
    lemma_parse_module_at(enc_module(m), m, p as int, q as int, r as int);
}

} // verus!
