//! Symbol tables: label tables map a key to an address, link tables map a key
//! to the ordered patch sites that wait for its address. Keys are byte
//! strings; numeric label ids are keyed by their eight big-endian bytes.
use vstd::prelude::*;
use crate::bytes::{be8, bytes_eq, to_vec};
use crate::error::Error;

verus! {

/// A table with one entry per key.
pub open spec fn has_key<V>(s: Seq<(Seq<u8>, V)>, k: Seq<u8>) -> bool {
    exists|i: int| 0 <= i < s.len() && s[i].0 == k
}

/// No key occurs twice.
pub open spec fn keys_unique<V>(s: Seq<(Seq<u8>, V)>) -> bool {
    forall|i: int, j: int|
        0 <= i < s.len() && 0 <= j < s.len() && #[trigger] s[i].0 == #[trigger] s[j].0 ==> i == j
}

/// Position of a key in the table, if it is there.
pub open spec fn key_index<V>(s: Seq<(Seq<u8>, V)>, k: Seq<u8>) -> int {
    choose|i: int| 0 <= i < s.len() && s[i].0 == k
}

/// The value stored under a key.
pub open spec fn lookup<V>(s: Seq<(Seq<u8>, V)>, k: Seq<u8>) -> Option<V> {
    if has_key(s, k) {
        Some(s[key_index(s, k)].1)
    } else {
        None
    }
}

/// In a table with unique keys, the entry found is the one at the key's position.
pub proof fn lemma_lookup_at<V>(s: Seq<(Seq<u8>, V)>, i: int)
    requires
        keys_unique(s),
        0 <= i < s.len(),
    ensures
        has_key(s, s[i].0),
        key_index(s, s[i].0) == i,
        lookup(s, s[i].0) == Some(s[i].1),
{
    assert(has_key(s, s[i].0));
    let j = key_index(s, s[i].0);
    assert(s[j].0 == s[i].0);
}

/// Label table entries as plain values.
pub open spec fn labels_view(v: Seq<(Vec<u8>, u64)>) -> Seq<(Seq<u8>, u64)> {
    Seq::new(v.len(), |i: int| (v[i].0@, v[i].1))
}

/// Link table entries as plain values.
pub open spec fn links_view(v: Seq<(Vec<u8>, Vec<u64>)>) -> Seq<(Seq<u8>, Seq<u64>)> {
    Seq::new(v.len(), |i: int| (v[i].0@, v[i].1@))
}

/// Adds patch sites under a key: appended to the key's list, or a new entry
/// at the end for a new key.
pub open spec fn add_links(
    s: Seq<(Seq<u8>, Seq<u64>)>,
    k: Seq<u8>,
    sites: Seq<u64>,
) -> Seq<(Seq<u8>, Seq<u64>)> {
    if has_key(s, k) {
        let i = key_index(s, k);
        s.update(i, (k, s[i].1 + sites))
    } else {
        s.push((k, sites))
    }
}

/// Every entry of `b` added in order to `a`.
pub open spec fn merge_links(
    a: Seq<(Seq<u8>, Seq<u64>)>,
    b: Seq<(Seq<u8>, Seq<u64>)>,
) -> Seq<(Seq<u8>, Seq<u64>)>
    decreases b.len(),
{
    if b.len() == 0 {
        a
    } else {
        let m = merge_links(a, b.drop_last());
        add_links(m, b.last().0, b.last().1)
    }
}

/// Adding sites keeps keys unique.
pub proof fn lemma_add_links_unique(s: Seq<(Seq<u8>, Seq<u64>)>, k: Seq<u8>, sites: Seq<u64>)
    requires
        keys_unique(s),
    ensures
        keys_unique(add_links(s, k, sites)),
        forall|x: Seq<u8>| has_key(add_links(s, k, sites), x) <==> (has_key(s, x) || x == k),
{
    let r = add_links(s, k, sites);
    if has_key(s, k) {
        assert forall|x: Seq<u8>| has_key(r, x) <==> (has_key(s, x) || x == k) by {
            if has_key(s, x) {
                let j = choose|j: int| 0 <= j < s.len() && s[j].0 == x;
                assert(r[j].0 == x);
            }
            if has_key(r, x) {
                let j = choose|j: int| 0 <= j < r.len() && r[j].0 == x;
                assert(s[j].0 == x);
            }
        }
    } else {
        assert forall|x: Seq<u8>| has_key(r, x) <==> (has_key(s, x) || x == k) by {
            if has_key(s, x) {
                let j = choose|j: int| 0 <= j < s.len() && s[j].0 == x;
                assert(r[j].0 == x);
            }
            if x == k {
                assert(r[s.len() as int].0 == x);
            }
            if has_key(r, x) {
                let j = choose|j: int| 0 <= j < r.len() && r[j].0 == x;
                if j < s.len() {
                    assert(s[j].0 == x);
                }
            }
        }
    }
}

/// Finds the position of a key in a label table.
pub fn find_label(t: &Vec<(Vec<u8>, u64)>, k: &[u8]) -> (r: Option<usize>)
    ensures
        r is Some ==> r->0 < t@.len() && labels_view(t@)[r->0 as int].0 == k@,
        r is None ==> !has_key(labels_view(t@), k@),
{
    let mut i: usize = 0;
    while i < t.len()
        invariant
            i <= t@.len(),
            forall|j: int| 0 <= j < i ==> labels_view(t@)[j].0 != k@,
        decreases t@.len() - i,
    {
        if bytes_eq(t[i].0.as_slice(), k) {
            return Some(i);
        }
        i += 1;
    }
    None
}

/// Finds the position of a key in a link table.
pub fn find_links(t: &Vec<(Vec<u8>, Vec<u64>)>, k: &[u8]) -> (r: Option<usize>)
    ensures
        r is Some ==> r->0 < t@.len() && links_view(t@)[r->0 as int].0 == k@,
        r is None ==> !has_key(links_view(t@), k@),
{
    let mut i: usize = 0;
    while i < t.len()
        invariant
            i <= t@.len(),
            forall|j: int| 0 <= j < i ==> links_view(t@)[j].0 != k@,
        decreases t@.len() - i,
    {
        if bytes_eq(t[i].0.as_slice(), k) {
            return Some(i);
        }
        i += 1;
    }
    None
}

/// Copies a list of patch sites.
pub fn copy_sites(s: &[u64]) -> (r: Vec<u64>)
    ensures
        r@ == s@,
{
    let mut r: Vec<u64> = Vec::new();
    let mut i: usize = 0;
    while i < s.len()
        invariant
            i <= s@.len(),
            r@ == s@.subrange(0, i as int),
        decreases s@.len() - i,
    {
        r.push(s[i]);
        i += 1;
        assert(r@ =~= s@.subrange(0, i as int));
    }
    assert(s@.subrange(0, s@.len() as int) =~= s@);
    r
}

/// Adds a label to a table; fails, changing nothing, when the key is there.
pub fn push_label(t: &mut Vec<(Vec<u8>, u64)>, k: &[u8], address: u64) -> (r: Result<(), Error>)
    requires
        keys_unique(labels_view(old(t)@)),
    ensures
        has_key(labels_view(old(t)@), k@) ==> r == Err::<(), Error>(Error::DuplicateLabel)
            && final(t)@ == old(t)@,
        !has_key(labels_view(old(t)@), k@) ==> r is Ok && labels_view(final(t)@)
            == labels_view(old(t)@).push((k@, address)),
        keys_unique(labels_view(final(t)@)),
{
    match find_label(t, k) {
        Some(i) => {
            proof {
                assert(labels_view(t@)[i as int].0 == k@);
            }
            Err(Error::DuplicateLabel)
        },
        None => {
            t.push((to_vec(k), address));
            assert(labels_view(t@) =~= labels_view(old(t)@).push((k@, address)));
            Ok(())
        },
    }
}

/// Appends one patch site under a key.
pub fn push_link(t: &mut Vec<(Vec<u8>, Vec<u64>)>, k: &[u8], site: u64)
    requires
        keys_unique(links_view(old(t)@)),
    ensures
        links_view(final(t)@) == add_links(links_view(old(t)@), k@, seq![site]),
        keys_unique(links_view(final(t)@)),
{
    proof {
        lemma_add_links_unique(links_view(t@), k@, seq![site]);
    }
    match find_links(t, k) {
        Some(i) => {
            proof {
                lemma_lookup_at(links_view(t@), i as int);
            }
            let ghost before = t@;
            t[i].1.push(site);
            assert(before[i as int].1@.push(site) =~= before[i as int].1@ + seq![site]);
            assert(t@[i as int].1@ == before[i as int].1@.push(site));
            assert(links_view(t@) =~= add_links(links_view(old(t)@), k@, seq![site]));
        },
        None => {
            let mut sites: Vec<u64> = Vec::new();
            sites.push(site);
            t.push((to_vec(k), sites));
            assert(links_view(t@) =~= add_links(links_view(old(t)@), k@, seq![site]));
        },
    }
}

/// The key of a numeric label id.
pub open spec fn id_key(id: u64) -> Seq<u8> {
    be8(id)
}

/// The key of a numeric label id, as bytes.
pub fn id_bytes(id: u64) -> (r: Vec<u8>)
    ensures
        r@ == id_key(id),
{
    let mut r: Vec<u8> = Vec::new();
    crate::bytes::write_u64(&mut r, id);
    assert(r@ =~= id_key(id));
    r
}


/// Adds a list of patch sites under a key.
pub fn push_links(t: &mut Vec<(Vec<u8>, Vec<u64>)>, k: Vec<u8>, sites: Vec<u64>)
    requires
        keys_unique(links_view(old(t)@)),
    ensures
        links_view(final(t)@) == add_links(links_view(old(t)@), k@, sites@),
        keys_unique(links_view(final(t)@)),
{
    proof {
        lemma_add_links_unique(links_view(t@), k@, sites@);
    }
    match find_links(t, k.as_slice()) {
        Some(i) => {
            proof {
                lemma_lookup_at(links_view(t@), i as int);
            }
            let ghost before = t@;
            let mut j: usize = 0;
            while j < sites.len()
                invariant
                    i < t@.len(),
                    t@.len() == before.len(),
                    j <= sites@.len(),
                    forall|x: int| 0 <= x < t@.len() && x != i ==> t@[x] == before[x],
                    t@[i as int].0 == before[i as int].0,
                    t@[i as int].1@ == before[i as int].1@ + sites@.subrange(0, j as int),
                decreases sites@.len() - j,
            {
                t[i].1.push(sites[j]);
                j += 1;
                assert(t@[i as int].1@ =~= before[i as int].1@ + sites@.subrange(0, j as int));
            }
            assert(sites@.subrange(0, sites@.len() as int) =~= sites@);
            assert(links_view(t@) =~= add_links(links_view(old(t)@), k@, sites@));
        },
        None => {
            let ghost kv = k@;
            let ghost sv = sites@;
            t.push((k, sites));
            assert(links_view(t@) =~= add_links(links_view(old(t)@), kv, sv));
        },
    }
}

/// Copies a label table.
pub fn copy_labels(t: &Vec<(Vec<u8>, u64)>) -> (r: Vec<(Vec<u8>, u64)>)
    ensures
        labels_view(r@) == labels_view(t@),
{
    let mut r: Vec<(Vec<u8>, u64)> = Vec::new();
    let mut i: usize = 0;
    while i < t.len()
        invariant
            i <= t@.len(),
            labels_view(r@) == labels_view(t@).subrange(0, i as int),
        decreases t@.len() - i,
    {
        let ghost before = labels_view(r@);
        let name = crate::bytes::to_vec(t[i].0.as_slice());
        let ghost nv = name@;
        r.push((name, t[i].1));
        assert(labels_view(r@) =~= before.push((nv, t@[i as int].1)));
        i += 1;
        assert(labels_view(r@) =~= labels_view(t@).subrange(0, i as int));
    }
    assert(labels_view(t@).subrange(0, t@.len() as int) =~= labels_view(t@));
    r
}

/// Copies a link table.
pub fn copy_links(t: &Vec<(Vec<u8>, Vec<u64>)>) -> (r: Vec<(Vec<u8>, Vec<u64>)>)
    ensures
        links_view(r@) == links_view(t@),
{
    let mut r: Vec<(Vec<u8>, Vec<u64>)> = Vec::new();
    let mut i: usize = 0;
    while i < t.len()
        invariant
            i <= t@.len(),
            links_view(r@) == links_view(t@).subrange(0, i as int),
        decreases t@.len() - i,
    {
        let ghost before = links_view(r@);
        let name = crate::bytes::to_vec(t[i].0.as_slice());
        let sites = copy_sites(t[i].1.as_slice());
        let ghost nv = name@;
        let ghost sv = sites@;
        r.push((name, sites));
        assert(links_view(r@) =~= before.push((nv, sv)));
        i += 1;
        assert(links_view(r@) =~= links_view(t@).subrange(0, i as int));
    }
    assert(links_view(t@).subrange(0, t@.len() as int) =~= links_view(t@));
    r
}

/// Every patch site of a link table lies fully inside a buffer of this length.
pub open spec fn sites_within(links: Seq<(Seq<u8>, Seq<u64>)>, len: nat) -> bool {
    forall|i: int, j: int|
        0 <= i < links.len() && 0 <= j < links[i].1.len() ==> #[trigger] links[i].1[j] + 8 <= len
}

} // verus!
