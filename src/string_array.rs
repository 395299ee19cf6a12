//! A pool of NUL-terminated byte strings in one buffer, each stored once and
//! named by the offset where it starts.
use vstd::prelude::*;
use crate::bytes::{push_all, take};

verus! {

/// The string `s` is stored at offset `i`: it starts a string and is
/// followed by its terminator.
pub open spec fn entry_at(d: Seq<u8>, i: int, s: Seq<u8>) -> bool {
    &&& 0 <= i
    &&& i == 0 || d[i - 1] == 0
    &&& i + s.len() < d.len()
    &&& d.subrange(i, i + s.len()) == s
    &&& d[i + s.len()] == 0
}

/// A byte string without NUL bytes.
pub open spec fn no_nul(s: Seq<u8>) -> bool {
    forall|k: int| 0 <= k < s.len() ==> s[k] != 0
}

/// The offset of the first NUL at or after `offset`.
pub fn find_terminator(s: &[u8], offset: usize) -> (r: usize)
    requires
        exists|k: int| offset <= k < s@.len() && s@[k] == 0,
    ensures
        offset <= r < s@.len(),
        s@[r as int] == 0,
        forall|k: int| offset <= k < r ==> s@[k] != 0,
{
    let mut i = offset;
    while s[i] != 0
        invariant
            offset <= i < s@.len(),
            exists|k: int| i <= k < s@.len() && s@[k] == 0,
            forall|k: int| offset <= k < i ==> s@[k] != 0,
        decreases s@.len() - i,
    {
        i += 1;
    }
    i
}

/// Interned strings.
pub struct StringArray {
    data: Vec<u8>,
}

impl View for StringArray {
    type V = Seq<u8>;

    closed spec fn view(&self) -> Seq<u8> {
        self.data@
    }
}

/// Bytes gathered for one string before it is interned.
pub struct StringBuilder {
    bytes: Vec<u8>,
}

impl StringBuilder {
    /// The bytes gathered so far.
    pub closed spec fn content(&self) -> Seq<u8> {
        self.bytes@
    }

    /// An empty string.
    pub fn new() -> (r: Self)
        ensures
            r.content() == Seq::<u8>::empty(),
    {
        StringBuilder { bytes: Vec::new() }
    }

    /// Appends a byte.
    pub fn push(&mut self, c: u8)
        ensures
            final(self).content() == old(self).content().push(c),
    {
        self.bytes.push(c);
    }

    /// Interns the gathered string and gives its offset.
    pub fn build(self, array: &mut StringArray) -> (r: usize)
        requires
            old(array).wf(),
            no_nul(self.content()),
        ensures
            final(array).wf(),
            entry_at(final(array)@, r as int, self.content()),
            (exists|j: int| 0 <= j < old(array)@.len() && entry_at(old(array)@, j, self.content()))
                ==> final(array)@ == old(array)@ && forall|j: int|
                0 <= j < r ==> !entry_at(old(array)@, j, self.content()),
            !(exists|j: int| 0 <= j < old(array)@.len() && entry_at(old(array)@, j, self.content()))
                ==> final(array)@ == old(array)@ + self.content() + seq![0u8] && r == old(array)@.len(),
            old(array)@.is_prefix_of(final(array)@),
    {
        array.push(self.bytes.as_slice())
    }
}

impl StringArray {
    /// Empty, or ending with a terminator.
    pub open spec fn wf(&self) -> bool {
        self@.len() == 0 || self@.last() == 0
    }

    /// No string.
    pub fn new() -> (r: Self)
        ensures
            r.wf(),
            r@ == Seq::<u8>::empty(),
    {
        StringArray { data: Vec::new() }
    }

    /// The first offset where `s` is stored, if it is.
    pub fn index_of(&self, s: &[u8]) -> (r: Option<usize>)
        ensures
            r is Some ==> entry_at(self@, r->0 as int, s@) && forall|j: int|
                0 <= j < r->0 ==> !entry_at(self@, j, s@),
            r is None ==> forall|j: int| 0 <= j < self@.len() ==> !entry_at(self@, j, s@),
    {
        let n = self.data.len();
        let mut i: usize = 0;
        while i < n
            invariant
                n == self@.len(),
                i <= n,
                forall|j: int| 0 <= j < i ==> !entry_at(self@, j, s@),
            decreases n - i,
        {
            let starts = i == 0 || self.data[i - 1] == 0;
            if starts && s.len() < n - i && self.data[i + s.len()] == 0 && crate::bytes::bytes_eq(
                take(self.data.as_slice(), i, s.len()).as_slice(),
                s,
            ) {
                return Some(i);
            }
            i += 1;
        }
        None
    }

    /// Interns `s`: the offset where it is stored already, or else the
    /// offset where it is appended with its terminator.
    pub fn push(&mut self, s: &[u8]) -> (r: usize)
        requires
            old(self).wf(),
            no_nul(s@),
        ensures
            final(self).wf(),
            entry_at(final(self)@, r as int, s@),
            (exists|j: int| 0 <= j < old(self)@.len() && entry_at(old(self)@, j, s@)) ==> final(self)@ == old(self)@
                && forall|j: int| 0 <= j < r ==> !entry_at(old(self)@, j, s@),
            !(exists|j: int| 0 <= j < old(self)@.len() && entry_at(old(self)@, j, s@)) ==> final(self)@ == old(self)@ + s@ + seq![0u8] && r == old(self)@.len(),
            old(self)@.is_prefix_of(final(self)@),
    {
        match self.index_of(s) {
            Some(i) => {
                assert(self@.is_prefix_of(self@));
                i
            },
            None => {
                let at = self.data.len();
                push_all(&mut self.data, s);
                self.data.push(0u8);
                let ghost d = self@;
                assert(d.subrange(at as int, at + s@.len()) =~= s@);
                assert(old(self)@.is_prefix_of(d)) by {
                    assert(d.subrange(0, old(self)@.len() as int) =~= old(self)@);
                }
                at
            },
        }
    }

    /// The string stored at an offset.
    pub fn get(&self, index: usize) -> (r: Vec<u8>)
        requires
            self.wf(),
            index < self@.len(),
        ensures
            r@ == self@.subrange(index as int, index + r@.len()),
            index + r@.len() < self@.len(),
            self@[index + r@.len()] == 0,
            no_nul(r@),
    {
        assert(self@[self@.len() - 1] == 0);
        let end = find_terminator(self.data.as_slice(), index);
        take(self.data.as_slice(), index, end - index)
    }
}

} // verus!
