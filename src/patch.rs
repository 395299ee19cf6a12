//! Back-patching: every patch site whose key has a label receives the
//! label's address as eight big-endian bytes.
use vstd::prelude::*;
use crate::bytes::be8;
use crate::error::Error;
use crate::table::{
    add_links, copy_sites, find_label, has_key, key_index, sites_within, keys_unique, labels_view, links_view, lemma_lookup_at,
    lookup,
};
use crate::bytes::to_vec;

verus! {

/// The opcode bytes with eight bytes at `site` replaced by the address.
pub open spec fn patch(ops: Seq<u8>, site: int, address: u64) -> Seq<u8> {
    ops.subrange(0, site) + be8(address) + ops.subrange(site + 8, ops.len() as int)
}

/// Patches every site of a list, in order.
pub open spec fn patch_all(ops: Seq<u8>, sites: Seq<u64>, address: u64) -> Seq<u8>
    decreases sites.len(),
{
    if sites.len() == 0 {
        ops
    } else {
        patch(patch_all(ops, sites.drop_last(), address), sites.last() as int, address)
    }
}

/// The opcodes after patching, entry by entry, each link list whose key has a label.
pub open spec fn resolved_ops(
    ops: Seq<u8>,
    labels: Seq<(Seq<u8>, u64)>,
    links: Seq<(Seq<u8>, Seq<u64>)>,
) -> Seq<u8>
    decreases links.len(),
{
    if links.len() == 0 {
        ops
    } else {
        let prev = resolved_ops(ops, labels, links.drop_last());
        match lookup(labels, links.last().0) {
            Some(a) => patch_all(prev, links.last().1, a),
            None => prev,
        }
    }
}

/// The link entries whose key has no label, in their order.
pub open spec fn unresolved(
    labels: Seq<(Seq<u8>, u64)>,
    links: Seq<(Seq<u8>, Seq<u64>)>,
) -> Seq<(Seq<u8>, Seq<u64>)>
    decreases links.len(),
{
    if links.len() == 0 {
        seq![]
    } else {
        let prev = unresolved(labels, links.drop_last());
        if has_key(labels, links.last().0) {
            prev
        } else {
            prev.push(links.last())
        }
    }
}

/// Every site that will be patched lies fully inside a buffer of this length.
pub open spec fn sites_fit(
    len: nat,
    labels: Seq<(Seq<u8>, u64)>,
    links: Seq<(Seq<u8>, Seq<u64>)>,
) -> bool {
    forall|i: int, j: int|
        0 <= i < links.len() && has_key(labels, links[i].0) && 0 <= j < links[i].1.len()
            ==> #[trigger] links[i].1[j] + 8 <= len
}

proof fn lemma_patch_all_len(ops: Seq<u8>, sites: Seq<u64>, address: u64)
    requires
        forall|j: int| 0 <= j < sites.len() ==> #[trigger] sites[j] + 8 <= ops.len(),
    ensures
        patch_all(ops, sites, address).len() == ops.len(),
    decreases sites.len(),
{
    if sites.len() > 0 {
        lemma_patch_all_len(ops, sites.drop_last(), address);
    }
}

/// Keys of the unresolved entries are keys of the links.
pub proof fn lemma_unresolved_keys(labels: Seq<(Seq<u8>, u64)>, links: Seq<(Seq<u8>, Seq<u64>)>)
    requires
        keys_unique(links),
    ensures
        keys_unique(unresolved(labels, links)),
        forall|x: Seq<u8>| has_key(unresolved(labels, links), x) ==> has_key(links, x),
        forall|x: Seq<u8>| has_key(unresolved(labels, links), x) ==> !has_key(labels, x),
    decreases links.len(),
{
    if links.len() > 0 {
        let d = links.drop_last();
        assert(keys_unique(d));
        lemma_unresolved_keys(labels, d);
        let prev = unresolved(labels, d);
        let r = unresolved(labels, links);
        assert forall|x: Seq<u8>| has_key(r, x) implies has_key(links, x) && !has_key(labels, x) by {
            let j = choose|j: int| 0 <= j < r.len() && r[j].0 == x;
            if j < prev.len() {
                assert(has_key(prev, x));
                assert(has_key(d, x));
                let k = choose|k: int| 0 <= k < d.len() && d[k].0 == x;
                assert(links[k].0 == x);
            } else {
                assert(links[links.len() - 1].0 == x);
            }
        }
        if !has_key(labels, links.last().0) {
            assert forall|i: int, j: int|
                0 <= i < r.len() && 0 <= j < r.len() && #[trigger] r[i].0 == #[trigger] r[j].0
                implies i == j by {
                if i < prev.len() && j == prev.len() {
                    assert(has_key(prev, r[i].0));
                    assert(has_key(d, r[i].0));
                    let k = choose|k: int| 0 <= k < d.len() && d[k].0 == r[i].0;
                    assert(links[k].0 == links[links.len() - 1].0);
                }
                if j < prev.len() && i == prev.len() {
                    assert(has_key(prev, r[j].0));
                    assert(has_key(d, r[j].0));
                    let k = choose|k: int| 0 <= k < d.len() && d[k].0 == r[j].0;
                    assert(links[k].0 == links[links.len() - 1].0);
                }
            }
        }
    }
}

/// Overwrites eight bytes at `site` with the big-endian address.
pub fn patch_at(ops: &mut Vec<u8>, site: u64, address: u64)
    requires
        site + 8 <= old(ops)@.len(),
    ensures
        final(ops)@ == patch(old(ops)@, site as int, address),
{
    let n = ops.len();
    assert(site < n);
    let s = site as usize;
    ops.set(s, (address >> 56u64) as u8);
    ops.set(s + 1, (address >> 48u64) as u8);
    ops.set(s + 2, (address >> 40u64) as u8);
    ops.set(s + 3, (address >> 32u64) as u8);
    ops.set(s + 4, (address >> 24u64) as u8);
    ops.set(s + 5, (address >> 16u64) as u8);
    ops.set(s + 6, (address >> 8u64) as u8);
    ops.set(s + 7, address as u8);
    assert(ops@ =~= patch(old(ops)@, site as int, address));
}

/// Checks that every site to be patched lies inside the buffer.
pub fn check_sites(
    links: &Vec<(Vec<u8>, Vec<u64>)>,
    labels: &Vec<(Vec<u8>, u64)>,
    len: usize,
) -> (r: bool)
    ensures
        r == sites_fit(len as nat, labels_view(labels@), links_view(links@)),
{
    let ghost lv = labels_view(labels@);
    let ghost kv = links_view(links@);
    let mut i: usize = 0;
    while i < links.len()
        invariant
            i <= links@.len(),
            lv == labels_view(labels@),
            kv == links_view(links@),
            forall|a: int, b: int|
                0 <= a < i && has_key(lv, kv[a].0) && 0 <= b < kv[a].1.len() ==> #[trigger] kv[a].1[b]
                    + 8 <= len,
        decreases links@.len() - i,
    {
        if let Some(_) = find_label(labels, links[i].0.as_slice()) {
            let sites = &links[i].1;
            let mut j: usize = 0;
            while j < sites.len()
                invariant
                    i < links@.len(),
                    sites@ == kv[i as int].1,
                    j <= sites@.len(),
                    has_key(lv, kv[i as int].0),
                    lv == labels_view(labels@),
                    kv == links_view(links@),
                    forall|a: int, b: int|
                        0 <= a < i && has_key(lv, kv[a].0) && 0 <= b < kv[a].1.len()
                            ==> #[trigger] kv[a].1[b] + 8 <= len,
                    forall|b: int| 0 <= b < j ==> #[trigger] kv[i as int].1[b] + 8 <= len,
                decreases sites@.len() - j,
            {
                if len < 8 || sites[j] > (len - 8) as u64 {
                    assert(kv[i as int].1[j as int] + 8 > len);
                    return false;
                }
                j += 1;
            }
        }
        i += 1;
    }
    true
}

/// Patches every site whose key has a label and keeps, in order, the link
/// entries whose key has none. Fails, changing nothing, when a site to be
/// patched does not lie inside the buffer.
pub fn resolve(
    links: &mut Vec<(Vec<u8>, Vec<u64>)>,
    labels: &Vec<(Vec<u8>, u64)>,
    ops: &mut Vec<u8>,
) -> (r: Result<(), Error>)
    requires
        keys_unique(labels_view(labels@)),
        keys_unique(links_view(old(links)@)),
    ensures
        !sites_fit(old(ops)@.len(), labels_view(labels@), links_view(old(links)@)) ==> r
            == Err::<(), Error>(Error::PatchOutOfBounds) && final(ops)@ == old(ops)@
            && final(links)@ == old(links)@,
        sites_fit(old(ops)@.len(), labels_view(labels@), links_view(old(links)@)) ==> r is Ok
            && final(ops)@ == resolved_ops(old(ops)@, labels_view(labels@), links_view(old(links)@))
            && links_view(final(links)@) == unresolved(labels_view(labels@), links_view(old(links)@)),
        final(ops)@.len() == old(ops)@.len(),
        keys_unique(links_view(final(links)@)),
{
    if !check_sites(links, labels, ops.len()) {
        return Err(Error::PatchOutOfBounds);
    }
    let ghost lv = labels_view(labels@);
    let ghost kv = links_view(links@);
    let ghost ops0 = ops@;
    let mut remaining: Vec<(Vec<u8>, Vec<u64>)> = Vec::new();
    let mut i: usize = 0;
    while i < links.len()
        invariant
            i <= links@.len(),
            lv == labels_view(labels@),
            kv == links_view(links@),
            keys_unique(lv),
            sites_fit(ops0.len(), lv, kv),
            ops@.len() == ops0.len(),
            ops@ == resolved_ops(ops0, lv, kv.subrange(0, i as int)),
            links_view(remaining@) == unresolved(lv, kv.subrange(0, i as int)),
        decreases links@.len() - i,
    {
        let ghost pre = kv.subrange(0, i as int);
        assert(kv.subrange(0, i + 1).drop_last() =~= pre);
        match find_label(labels, links[i].0.as_slice()) {
            Some(li) => {
                let address = labels[li].1;
                proof {
                    lemma_lookup_at(lv, li as int);
                }
                let sites = &links[i].1;
                let ghost start = ops@;
                let mut j: usize = 0;
                while j < sites.len()
                    invariant
                        i < links@.len(),
                        sites@ == kv[i as int].1,
                        j <= sites@.len(),
                        has_key(lv, kv[i as int].0),
                        lv == labels_view(labels@),
                        kv == links_view(links@),
                        sites_fit(ops0.len(), lv, kv),
                        start.len() == ops0.len(),
                        ops@ == patch_all(start, sites@.subrange(0, j as int), address),
                        ops@.len() == ops0.len(),
                    decreases sites@.len() - j,
                {
                    assert(kv[i as int].1[j as int] + 8 <= ops0.len());
                    patch_at(ops, sites[j], address);
                    j += 1;
                    assert(sites@.subrange(0, j as int).drop_last() =~= sites@.subrange(
                        0,
                        j - 1,
                    ));
                }
                assert(sites@.subrange(0, sites@.len() as int) =~= sites@);
            },
            None => {
                let entry = (to_vec(links[i].0.as_slice()), copy_sites(links[i].1.as_slice()));
                remaining.push(entry);
                assert(links_view(remaining@) =~= unresolved(lv, kv.subrange(0, i + 1)));
            },
        }
        i += 1;
    }
    assert(kv.subrange(0, kv.len() as int) =~= kv);
    proof {
        lemma_unresolved_keys(lv, kv);
    }
    *links = remaining;
    Ok(())
}

/// Two eight-byte patch sites do not overlap.
pub open spec fn apart(a: u64, b: u64) -> bool {
    a + 8 <= b || b + 8 <= a
}

/// The sites of every link list whose key has a label are pairwise apart.
pub open spec fn sites_apart(
    labels: Seq<(Seq<u8>, u64)>,
    links: Seq<(Seq<u8>, Seq<u64>)>,
) -> bool {
    forall|i1: int, j1: int, i2: int, j2: int|
        0 <= i1 < links.len() && 0 <= i2 < links.len() && has_key(labels, links[i1].0) && has_key(
            labels,
            links[i2].0,
        ) && 0 <= j1 < links[i1].1.len() && 0 <= j2 < links[i2].1.len() && (i1 != i2 || j1
            != j2) ==> apart(#[trigger] links[i1].1[j1], #[trigger] links[i2].1[j2])
}

proof fn lemma_patch_effect(x: Seq<u8>, site: u64, a: u64, s: u64)
    requires
        site + 8 <= x.len(),
        s + 8 <= x.len(),
    ensures
        patch(x, site as int, a).len() == x.len(),
        patch(x, site as int, a).subrange(site as int, site + 8) == be8(a),
        apart(site, s) ==> patch(x, site as int, a).subrange(s as int, s + 8) == x.subrange(
            s as int,
            s + 8,
        ),
{
    let y = patch(x, site as int, a);
    assert(y.subrange(site as int, site + 8) =~= be8(a));
    if apart(site, s) {
        assert(y.subrange(s as int, s + 8) =~= x.subrange(s as int, s + 8));
    }
}

proof fn lemma_patch_all_effect(x: Seq<u8>, sites: Seq<u64>, a: u64, s: u64)
    requires
        forall|j: int| 0 <= j < sites.len() ==> #[trigger] sites[j] + 8 <= x.len(),
        s + 8 <= x.len(),
    ensures
        patch_all(x, sites, a).len() == x.len(),
        (forall|j: int| 0 <= j < sites.len() ==> apart(#[trigger] sites[j], s)) ==> patch_all(
            x,
            sites,
            a,
        ).subrange(s as int, s + 8) == x.subrange(s as int, s + 8),
    decreases sites.len(),
{
    if sites.len() > 0 {
        let d = sites.drop_last();
        lemma_patch_all_effect(x, d, a, s);
        let y = patch_all(x, d, a);
        assert(sites[sites.len() - 1] + 8 <= x.len());
        lemma_patch_effect(y, sites.last(), a, s);
        if forall|j: int| 0 <= j < sites.len() ==> apart(#[trigger] sites[j], s) {
            assert(apart(sites[sites.len() - 1], s));
            assert forall|j: int| 0 <= j < d.len() implies apart(#[trigger] d[j], s) by {
                assert(d[j] == sites[j]);
            }
        }
    }
}

proof fn lemma_patch_all_sets(x: Seq<u8>, sites: Seq<u64>, a: u64, k: int)
    requires
        forall|j: int| 0 <= j < sites.len() ==> #[trigger] sites[j] + 8 <= x.len(),
        forall|j1: int, j2: int|
            0 <= j1 < sites.len() && 0 <= j2 < sites.len() && j1 != j2 ==> apart(
                #[trigger] sites[j1],
                #[trigger] sites[j2],
            ),
        0 <= k < sites.len(),
    ensures
        patch_all(x, sites, a).subrange(sites[k] as int, sites[k] + 8) == be8(a),
    decreases sites.len(),
{
    let d = sites.drop_last();
    let y = patch_all(x, d, a);
    lemma_patch_all_effect(x, d, a, sites.last());
    lemma_patch_effect(y, sites.last(), a, sites[k]);
    if k < sites.len() - 1 {
        lemma_patch_all_sets(x, d, a, k);
        assert(apart(sites[sites.len() - 1], sites[k]));
    }
}

/// Resolution is sound: when the patched sites do not overlap, after
/// resolution the eight bytes at every site of a defined label hold the
/// label's address in big-endian order, and the address lies within the
/// opcodes whenever every label address does.
pub proof fn lemma_resolution_sound(
    ops: Seq<u8>,
    labels: Seq<(Seq<u8>, u64)>,
    links: Seq<(Seq<u8>, Seq<u64>)>,
    i: int,
    j: int,
)
    requires
        sites_fit(ops.len(), labels, links),
        sites_apart(labels, links),
        0 <= i < links.len(),
        has_key(labels, links[i].0),
        0 <= j < links[i].1.len(),
    ensures
        resolved_ops(ops, labels, links).len() == ops.len(),
        resolved_ops(ops, labels, links).subrange(links[i].1[j] as int, links[i].1[j] + 8) == be8(
            lookup(labels, links[i].0)->0,
        ),
        (forall|k: int| 0 <= k < labels.len() ==> #[trigger] labels[k].1 <= ops.len())
            ==> lookup(labels, links[i].0)->0 <= resolved_ops(ops, labels, links).len(),
    decreases links.len(),
{
    let d = links.drop_last();
    let last = links.len() - 1;
    assert(sites_fit(ops.len(), labels, d)) by {
        assert forall|a: int, b: int|
            0 <= a < d.len() && has_key(labels, d[a].0) && 0 <= b < d[a].1.len() implies #[trigger] d[a].1[b] + 8 <= ops.len() by {
            assert(d[a] == links[a]);
            assert(links[a].1[b] + 8 <= ops.len());
        }
    }
    assert(sites_apart(labels, d)) by {
        assert forall|i1: int, j1: int, i2: int, j2: int|
            0 <= i1 < d.len() && 0 <= i2 < d.len() && has_key(labels, d[i1].0) && has_key(
                labels,
                d[i2].0,
            ) && 0 <= j1 < d[i1].1.len() && 0 <= j2 < d[i2].1.len() && (i1 != i2 || j1 != j2)
            implies apart(#[trigger] d[i1].1[j1], #[trigger] d[i2].1[j2]) by {
            assert(d[i1] == links[i1]);
            assert(d[i2] == links[i2]);
            assert(apart(links[i1].1[j1], links[i2].1[j2]));
        }
    }
    lemma_resolved_len(ops, labels, d);
    let prev = resolved_ops(ops, labels, d);
    let e = links[last];
    assert(e == links.last());
    let s = links[i].1[j];
    assert(s + 8 <= ops.len());
    if has_key(labels, e.0) {
        let a = lookup(labels, e.0)->0;
        assert forall|k: int| 0 <= k < e.1.len() implies #[trigger] e.1[k] + 8 <= prev.len() by {
            assert(links[last].1[k] + 8 <= ops.len());
        }
        if i < last {
            assert(d[i] == links[i]);
            lemma_resolution_sound(ops, labels, d, i, j);
            lemma_patch_all_effect(prev, e.1, a, s);
            assert forall|k: int| 0 <= k < e.1.len() implies apart(#[trigger] e.1[k], s) by {
                assert(apart(links[last].1[k], links[i].1[j]));
            }
        } else {
            assert forall|j1: int, j2: int|
                0 <= j1 < e.1.len() && 0 <= j2 < e.1.len() && j1 != j2 implies apart(
                #[trigger] e.1[j1],
                #[trigger] e.1[j2],
            ) by {
                assert(apart(links[last].1[j1], links[last].1[j2]));
            }
            lemma_patch_all_sets(prev, e.1, a, j);
        }
        lemma_patch_all_effect(prev, e.1, a, s);
    } else {
        assert(i < last);
        assert(d[i] == links[i]);
        lemma_resolution_sound(ops, labels, d, i, j);
    }
    lemma_resolved_len(ops, labels, links);
    if forall|k: int| 0 <= k < labels.len() ==> #[trigger] labels[k].1 <= ops.len() {
        let ki = key_index(labels, links[i].0);
        assert(labels[ki].1 <= ops.len());
    }
}

/// Resolution keeps the length of the opcodes.
pub proof fn lemma_resolved_len(
    ops: Seq<u8>,
    labels: Seq<(Seq<u8>, u64)>,
    links: Seq<(Seq<u8>, Seq<u64>)>,
)
    requires
        sites_fit(ops.len(), labels, links),
    ensures
        resolved_ops(ops, labels, links).len() == ops.len(),
    decreases links.len(),
{
    if links.len() > 0 {
        let d = links.drop_last();
        assert(sites_fit(ops.len(), labels, d)) by {
            assert forall|a: int, b: int|
                0 <= a < d.len() && has_key(labels, d[a].0) && 0 <= b < d[a].1.len() implies #[trigger] d[a].1[b] + 8 <= ops.len() by {
                assert(d[a] == links[a]);
                assert(links[a].1[b] + 8 <= ops.len());
            }
        }
        lemma_resolved_len(ops, labels, d);
        let e = links.last();
        if has_key(labels, e.0) {
            assert forall|k: int| 0 <= k < e.1.len() implies #[trigger] e.1[k] + 8 <= ops.len() by {
                assert(links[links.len() - 1].1[k] + 8 <= ops.len());
            }
            lemma_patch_all_len(resolved_ops(ops, labels, d), e.1, lookup(labels, e.0)->0);
        }
    }
}

/// Sites inside the buffer are all the sites that resolution may patch.
pub proof fn lemma_within_fit(
    len: nat,
    labels: Seq<(Seq<u8>, u64)>,
    links: Seq<(Seq<u8>, Seq<u64>)>,
)
    requires
        sites_within(links, len),
    ensures
        sites_fit(len, labels, links),
{
}

/// The entries that resolution keeps have their sites inside the buffer too.
pub proof fn lemma_unresolved_within(
    labels: Seq<(Seq<u8>, u64)>,
    links: Seq<(Seq<u8>, Seq<u64>)>,
    len: nat,
)
    requires
        sites_within(links, len),
    ensures
        sites_within(unresolved(labels, links), len),
    decreases links.len(),
{
    if links.len() > 0 {
        let d = links.drop_last();
        assert(sites_within(d, len)) by {
            assert forall|i: int, j: int| 0 <= i < d.len() && 0 <= j < d[i].1.len() implies #[trigger] d[i].1[j] + 8 <= len by {
                assert(d[i] == links[i]);
            }
        }
        lemma_unresolved_within(labels, d, len);
        let u = unresolved(labels, links);
        let p = unresolved(labels, d);
        if !has_key(labels, links.last().0) {
            assert forall|i: int, j: int| 0 <= i < u.len() && 0 <= j < u[i].1.len() implies #[trigger] u[i].1[j] + 8 <= len by {
                if i < p.len() {
                    assert(u[i] == p[i]);
                } else {
                    assert(u[i] == links[links.len() - 1]);
                }
            }
        }
    }
}

/// No two patch sites of a link table overlap.
pub open spec fn all_apart(links: Seq<(Seq<u8>, Seq<u64>)>) -> bool {
    forall|i1: int, j1: int, i2: int, j2: int|
        0 <= i1 < links.len() && 0 <= i2 < links.len() && 0 <= j1 < links[i1].1.len() && 0 <= j2
            < links[i2].1.len() && (i1 != i2 || j1 != j2) ==> apart(
            #[trigger] links[i1].1[j1],
            #[trigger] links[i2].1[j2],
        )
}

/// No patch site of one table overlaps one of the other.
pub open spec fn cross_apart(a: Seq<(Seq<u8>, Seq<u64>)>, b: Seq<(Seq<u8>, Seq<u64>)>) -> bool {
    forall|i1: int, j1: int, i2: int, j2: int|
        0 <= i1 < a.len() && 0 <= i2 < b.len() && 0 <= j1 < a[i1].1.len() && 0 <= j2
            < b[i2].1.len() ==> apart(#[trigger] a[i1].1[j1], #[trigger] b[i2].1[j2])
}

/// A new site past every old one keeps the sites of a table apart, and apart
/// from those of another table inside the same buffer.
pub proof fn lemma_add_site_apart(
    s: Seq<(Seq<u8>, Seq<u64>)>,
    k: Seq<u8>,
    site: u64,
    len: nat,
    other: Seq<(Seq<u8>, Seq<u64>)>,
)
    requires
        all_apart(s),
        sites_within(s, len),
        sites_within(other, len),
        cross_apart(s, other),
        site >= len,
    ensures
        all_apart(add_links(s, k, seq![site])),
        cross_apart(add_links(s, k, seq![site]), other),
{
    let r = add_links(s, k, seq![site]);
    // every site of r is an old site or the new one
    assert forall|i: int, j: int| 0 <= i < r.len() && 0 <= j < r[i].1.len() implies (r[i].1[j]
        == site || (exists|a: int, b: int| 0 <= a < s.len() && 0 <= b < s[a].1.len() && s[a].1[b]
        == r[i].1[j] && (a == i && b == j || i >= s.len()))) by {
        if has_key(s, k) {
            let x = key_index(s, k);
            if i == x && j >= s[x].1.len() {
            } else {
                assert(r[i].1[j] == s[i].1[j]);
            }
        } else {
            if i < s.len() {
                assert(r[i] == s[i]);
            }
        }
    }
    assert forall|i1: int, j1: int, i2: int, j2: int|
        0 <= i1 < r.len() && 0 <= i2 < r.len() && 0 <= j1 < r[i1].1.len() && 0 <= j2
            < r[i2].1.len() && (i1 != i2 || j1 != j2) implies apart(
        #[trigger] r[i1].1[j1],
        #[trigger] r[i2].1[j2],
    ) by {
        let new1 = !(i1 < s.len() && j1 < s[i1].1.len());
        let new2 = !(i2 < s.len() && j2 < s[i2].1.len());
        if !new1 {
            assert(r[i1].1[j1] == s[i1].1[j1]);
            assert(s[i1].1[j1] + 8 <= len);
        }
        if !new2 {
            assert(r[i2].1[j2] == s[i2].1[j2]);
            assert(s[i2].1[j2] + 8 <= len);
        }
        if new1 && new2 {
            if has_key(s, k) {
                let x = key_index(s, k);
                assert(i1 == x && i2 == x);
                assert(j1 == s[x].1.len() && j2 == s[x].1.len());
            } else {
                assert(i1 == s.len() && i2 == s.len());
            }
        }
        if new1 && !new2 {
            if has_key(s, k) {
                let x = key_index(s, k);
                assert(r[i1].1[j1] == site);
            } else {
                assert(r[i1].1[j1] == site);
            }
        }
        if new2 && !new1 {
            if has_key(s, k) {
                assert(r[i2].1[j2] == site);
            } else {
                assert(r[i2].1[j2] == site);
            }
        }
    }
    assert forall|i1: int, j1: int, i2: int, j2: int|
        0 <= i1 < r.len() && 0 <= i2 < other.len() && 0 <= j1 < r[i1].1.len() && 0 <= j2
            < other[i2].1.len() implies apart(#[trigger] r[i1].1[j1], #[trigger] other[i2].1[j2]) by {
        assert(other[i2].1[j2] + 8 <= len);
        if i1 < s.len() && j1 < s[i1].1.len() {
            assert(r[i1].1[j1] == s[i1].1[j1]);
        } else {
            if has_key(s, k) {
                assert(r[i1].1[j1] == site);
            } else {
                assert(r[i1].1[j1] == site);
            }
        }
    }
}

/// Resolution keeps only entries of the table, so their sites stay apart.
pub proof fn lemma_unresolved_apart(
    labels: Seq<(Seq<u8>, u64)>,
    links: Seq<(Seq<u8>, Seq<u64>)>,
    other: Seq<(Seq<u8>, Seq<u64>)>,
)
    requires
        all_apart(links),
        cross_apart(links, other),
    ensures
        all_apart(unresolved(labels, links)),
        cross_apart(unresolved(labels, links), other),
        forall|i: int|
            0 <= i < unresolved(labels, links).len() ==> exists|k: int|
                0 <= k < links.len() && #[trigger] unresolved(labels, links)[i] == links[k],
    decreases links.len(),
{
    if links.len() > 0 {
        let d = links.drop_last();
        let last = links.len() - 1;
        assert(all_apart(d)) by {
            assert forall|i1: int, j1: int, i2: int, j2: int|
                0 <= i1 < d.len() && 0 <= i2 < d.len() && 0 <= j1 < d[i1].1.len() && 0 <= j2
                    < d[i2].1.len() && (i1 != i2 || j1 != j2) implies apart(
                #[trigger] d[i1].1[j1],
                #[trigger] d[i2].1[j2],
            ) by {
                assert(d[i1] == links[i1] && d[i2] == links[i2]);
                assert(apart(links[i1].1[j1], links[i2].1[j2]));
            }
        }
        assert(cross_apart(d, other)) by {
            assert forall|i1: int, j1: int, i2: int, j2: int|
                0 <= i1 < d.len() && 0 <= i2 < other.len() && 0 <= j1 < d[i1].1.len() && 0 <= j2
                    < other[i2].1.len() implies apart(#[trigger] d[i1].1[j1], #[trigger] other[i2].1[j2]) by {
                assert(d[i1] == links[i1]);
                assert(apart(links[i1].1[j1], other[i2].1[j2]));
            }
        }
        lemma_unresolved_apart(labels, d, other);
        let p = unresolved(labels, d);
        let u = unresolved(labels, links);
        assert forall|i: int| 0 <= i < p.len() implies exists|k: int| 0 <= k < d.len() && #[trigger] p[i] == d[k] by {
        }
        if has_key(labels, links.last().0) {
            assert(u == p);
            assert forall|i: int| 0 <= i < u.len() implies exists|k: int| 0 <= k < links.len() && #[trigger] u[i] == links[k] by {
                let k = choose|k: int| 0 <= k < d.len() && p[i] == d[k];
                assert(links[k] == d[k]);
            }
        } else {
            assert(u == p.push(links[last]));
            assert forall|i: int| 0 <= i < u.len() implies exists|k: int| 0 <= k < links.len() && #[trigger] u[i] == links[k] by {
                if i < p.len() {
                    let k = choose|k: int| 0 <= k < d.len() && p[i] == d[k];
                    assert(u[i] == p[i]);
                    assert(links[k] == d[k]);
                } else {
                    assert(u[i] == links[last]);
                }
            }
            assert forall|i1: int, j1: int, i2: int, j2: int|
                0 <= i1 < u.len() && 0 <= i2 < u.len() && 0 <= j1 < u[i1].1.len() && 0 <= j2
                    < u[i2].1.len() && (i1 != i2 || j1 != j2) implies apart(
                #[trigger] u[i1].1[j1],
                #[trigger] u[i2].1[j2],
            ) by {
                if i1 < p.len() && i2 < p.len() {
                    assert(u[i1] == p[i1] && u[i2] == p[i2]);
                } else if i1 < p.len() {
                    let k = choose|k: int| 0 <= k < d.len() && p[i1] == d[k];
                    assert(u[i1] == p[i1]);
                    assert(links[k] == d[k]);
                    assert(u[i2] == links[last]);
                    assert(apart(links[k].1[j1], links[last].1[j2]));
                } else if i2 < p.len() {
                    let k = choose|k: int| 0 <= k < d.len() && p[i2] == d[k];
                    assert(u[i2] == p[i2]);
                    assert(links[k] == d[k]);
                    assert(u[i1] == links[last]);
                    assert(apart(links[last].1[j1], links[k].1[j2]));
                } else {
                    assert(u[i1] == links[last] && u[i2] == links[last]);
                    assert(apart(links[last].1[j1], links[last].1[j2]));
                }
            }
            assert forall|i1: int, j1: int, i2: int, j2: int|
                0 <= i1 < u.len() && 0 <= i2 < other.len() && 0 <= j1 < u[i1].1.len() && 0 <= j2
                    < other[i2].1.len() implies apart(#[trigger] u[i1].1[j1], #[trigger] other[i2].1[j2]) by {
                if i1 < p.len() {
                    assert(u[i1] == p[i1]);
                } else {
                    assert(u[i1] == links[last]);
                    assert(apart(links[last].1[j1], other[i2].1[j2]));
                }
            }
        }
    }
}

/// Being apart is symmetric across tables.
pub proof fn lemma_cross_sym(a: Seq<(Seq<u8>, Seq<u64>)>, b: Seq<(Seq<u8>, Seq<u64>)>)
    requires
        cross_apart(a, b),
    ensures
        cross_apart(b, a),
{
    assert forall|i1: int, j1: int, i2: int, j2: int|
        0 <= i1 < b.len() && 0 <= i2 < a.len() && 0 <= j1 < b[i1].1.len() && 0 <= j2
            < a[i2].1.len() implies apart(#[trigger] b[i1].1[j1], #[trigger] a[i2].1[j2]) by {
        assert(apart(a[i2].1[j2], b[i1].1[j1]));
    }
}

/// Resolution leaves alone eight bytes apart from every site it patches.
pub proof fn lemma_resolved_keeps(
    ops: Seq<u8>,
    labels: Seq<(Seq<u8>, u64)>,
    links: Seq<(Seq<u8>, Seq<u64>)>,
    s: u64,
)
    requires
        sites_fit(ops.len(), labels, links),
        s + 8 <= ops.len(),
        forall|i: int, j: int|
            0 <= i < links.len() && has_key(labels, links[i].0) && 0 <= j < links[i].1.len()
                ==> apart(#[trigger] links[i].1[j], s),
    ensures
        resolved_ops(ops, labels, links).subrange(s as int, s + 8) == ops.subrange(s as int, s + 8),
    decreases links.len(),
{
    if links.len() > 0 {
        let d = links.drop_last();
        assert(sites_fit(ops.len(), labels, d)) by {
            assert forall|a: int, b: int|
                0 <= a < d.len() && has_key(labels, d[a].0) && 0 <= b < d[a].1.len() implies #[trigger] d[a].1[b] + 8 <= ops.len() by {
                assert(d[a] == links[a]);
                assert(links[a].1[b] + 8 <= ops.len());
            }
        }
        assert forall|i: int, j: int|
            0 <= i < d.len() && has_key(labels, d[i].0) && 0 <= j < d[i].1.len() implies apart(#[trigger] d[i].1[j], s) by {
            assert(d[i] == links[i]);
            assert(apart(links[i].1[j], s));
        }
        lemma_resolved_keeps(ops, labels, d, s);
        lemma_resolved_len(ops, labels, d);
        let e = links.last();
        if has_key(labels, e.0) {
            let prev = resolved_ops(ops, labels, d);
            assert forall|k: int| 0 <= k < e.1.len() implies #[trigger] e.1[k] + 8 <= prev.len() by {
                assert(links[links.len() - 1].1[k] + 8 <= ops.len());
            }
            assert forall|k: int| 0 <= k < e.1.len() implies apart(#[trigger] e.1[k], s) by {
                assert(apart(links[links.len() - 1].1[k], s));
            }
            lemma_patch_all_effect(prev, e.1, lookup(labels, e.0)->0, s);
        }
    }
}

} // verus!
