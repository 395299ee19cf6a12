//! Local-variable scopes: a function is a stack of blocks, a block maps
//! names to slot indices.
use vstd::prelude::*;
use crate::error::Error;
use crate::table::{find_label, has_key, keys_unique, labels_view, lemma_lookup_at, lookup};

verus! {

/// One block of local names, each with its slot.
pub struct Block {
    locals: Vec<(Vec<u8>, u64)>,
    base: u64,
}

impl View for Block {
    type V = Seq<(Seq<u8>, u64)>;

    closed spec fn view(&self) -> Seq<(Seq<u8>, u64)> {
        labels_view(self.locals@)
    }
}

impl Block {
    /// The slot counter when the block was entered.
    pub closed spec fn base(&self) -> u64 {
        self.base
    }

    /// No name occurs twice.
    pub open spec fn wf(&self) -> bool {
        keys_unique(self@)
    }

    /// An empty block entered with the slot counter at `base`.
    pub fn new(base: u64) -> (r: Self)
        ensures
            r@ == Seq::<(Seq<u8>, u64)>::empty(),
            r.base() == base,
            r.wf(),
    {
        let r = Block { locals: Vec::new(), base };
        assert(r@ =~= Seq::<(Seq<u8>, u64)>::empty());
        r
    }

    /// Declares a name with its slot; a name declared already in this block
    /// is an error.
    pub fn var(&mut self, name: &[u8], id: u64) -> (r: Result<(), Error>)
        requires
            old(self).wf(),
        ensures
            final(self).wf(),
            final(self).base() == old(self).base(),
            has_key(old(self)@, name@) ==> r == Err::<(), Error>(Error::DuplicateLocal)
                && final(self)@ == old(self)@,
            !has_key(old(self)@, name@) ==> r is Ok && final(self)@ == old(self)@.push(
                (name@, id),
            ),
    {
        if let Some(_) = find_label(&self.locals, name) {
            return Err(Error::DuplicateLocal);
        }
        let ghost before = self@;
        self.locals.push((crate::bytes::to_vec(name), id));
        assert(self@ =~= before.push((name@, id)));
        assert(keys_unique(self@)) by {
            assert forall|i: int, j: int|
                0 <= i < self@.len() && 0 <= j < self@.len() && #[trigger] self@[i].0
                    == #[trigger] self@[j].0 implies i == j by {
                if i < before.len() && j == before.len() {
                    assert(before[i].0 == name@);
                }
                if j < before.len() && i == before.len() {
                    assert(before[j].0 == name@);
                }
            }
        }
        Ok(())
    }

    /// The slot of a name declared in this block.
    pub fn get(&self, name: &[u8]) -> (r: Option<u64>)
        requires
            self.wf(),
        ensures
            r == lookup(self@, name@),
    {
        match find_label(&self.locals, name) {
            Some(i) => {
                proof {
                    lemma_lookup_at(self@, i as int);
                }
                Some(self.locals[i].1)
            },
            None => None,
        }
    }

    /// The number of names declared in this block.
    pub fn len(&self) -> (r: usize)
        ensures
            r == self@.len(),
    {
        self.locals.len()
    }
}

/// The slot of a name in the innermost block that declares it.
pub open spec fn find_slot(blocks: Seq<Seq<(Seq<u8>, u64)>>, name: Seq<u8>) -> Option<u64>
    decreases blocks.len(),
{
    if blocks.len() == 0 {
        None
    } else if has_key(blocks.last(), name) {
        lookup(blocks.last(), name)
    } else {
        find_slot(blocks.drop_last(), name)
    }
}

/// The locals of one function: its block stack, the next free slot, and the
/// largest slot used. Slot 0 holds the caller's saved state, so slots start at 1.
pub struct Function {
    blocks: Vec<Block>,
    local_counter: u64,
    stack_size: u64,
}

impl Function {
    /// The names of each block, outermost first.
    pub closed spec fn scopes(&self) -> Seq<Seq<(Seq<u8>, u64)>> {
        self.blocks@.map_values(|b: Block| b@)
    }

    /// The next free slot.
    pub closed spec fn counter(&self) -> u64 {
        self.local_counter
    }

    /// The largest slot used so far.
    pub closed spec fn max_slot(&self) -> u64 {
        self.stack_size
    }

    /// The largest slot used so far.
    pub fn max_slot_count(&self) -> (r: u64)
        ensures
            r == self.max_slot(),
    {
        self.stack_size
    }

    /// At least one block, each with unique names; slots only grow from 1.
    pub closed spec fn wf(&self) -> bool {
        &&& self.blocks@.len() >= 1
        &&& forall|i: int| 0 <= i < self.blocks@.len() ==> #[trigger] self.blocks@[i].wf()
        &&& 1 <= self.local_counter
        &&& self.local_counter - 1 <= self.stack_size
        &&& forall|i: int|
            0 <= i < self.blocks@.len() ==> 1 <= #[trigger] self.blocks@[i].base()
                <= self.local_counter
        &&& forall|i: int, j: int|
            0 <= i < j < self.blocks@.len() ==> #[trigger] self.blocks@[i].base()
                <= #[trigger] self.blocks@[j].base()
    }

    /// A function with one empty block and no slot used.
    pub fn new() -> (r: Self)
        ensures
            r.wf(),
            r.scopes().len() == 1,
            r.scopes()[0].len() == 0,
            r.counter() == 1,
            r.max_slot() == 0,
    {
        let mut blocks: Vec<Block> = Vec::new();
        blocks.push(Block::new(1));
        let r = Function { blocks, local_counter: 1, stack_size: 0 };
        assert(r.blocks@[0].wf());
        r
    }

    /// Enters a nested block.
    pub fn push(&mut self)
        requires
            old(self).wf(),
        ensures
            final(self).wf(),
            final(self).scopes() == old(self).scopes().push(Seq::<(Seq<u8>, u64)>::empty()),
            final(self).counter() == old(self).counter(),
            final(self).max_slot() == old(self).max_slot(),
    {
        let b = Block::new(self.local_counter);
        self.blocks.push(b);
        assert(self.scopes() =~= old(self).scopes().push(Seq::<(Seq<u8>, u64)>::empty()));
        assert forall|i: int| 0 <= i < self.blocks@.len() implies #[trigger] self.blocks@[i].wf()
            by {
            if i < old(self).blocks@.len() {
                assert(old(self).blocks@[i].wf());
            }
        }
    }

    /// Leaves the innermost block; its slots become free again. The
    /// outermost block is never left.
    pub fn pop(&mut self)
        requires
            old(self).wf(),
        ensures
            final(self).wf(),
            old(self).scopes().len() > 1 ==> final(self).scopes() == old(self).scopes().drop_last(),
            old(self).scopes().len() == 1 ==> final(self).scopes() == old(self).scopes(),
            final(self).max_slot() == old(self).max_slot(),
    {
        if self.blocks.len() > 1 {
            let ghost ob = self.blocks@;
            let b = self.blocks.pop().unwrap();
            self.local_counter = b.base;
            assert(self.scopes() =~= old(self).scopes().drop_last());
            assert forall|i: int| 0 <= i < self.blocks@.len() implies #[trigger] self.blocks@[i].wf()
                && 1 <= self.blocks@[i].base() <= self.local_counter by {
                assert(self.blocks@[i] == ob[i]);
                assert(ob[i].wf());
                assert(ob[i].base() <= ob[ob.len() - 1].base());
            }
            assert forall|i: int, j: int|
                0 <= i < j < self.blocks@.len() implies #[trigger] self.blocks@[i].base()
                <= #[trigger] self.blocks@[j].base() by {
                assert(self.blocks@[i] == ob[i]);
                assert(self.blocks@[j] == ob[j]);
            }
        }
    }

    /// Declares a name in the innermost block at the next free slot; a name
    /// declared already in that block is an error, one of an outer block is
    /// shadowed.
    pub fn var(&mut self, name: &[u8]) -> (r: Result<u64, Error>)
        requires
            old(self).wf(),
        ensures
            final(self).wf(),
            has_key(old(self).scopes().last(), name@) ==> r == Err::<u64, Error>(
                Error::DuplicateLocal,
            ) && final(self).scopes() == old(self).scopes(),
            !has_key(old(self).scopes().last(), name@) && old(self).counter() < u64::MAX ==> r
                == Ok::<u64, Error>(old(self).counter()) && final(self).scopes() == old(self).scopes().drop_last().push(old(self).scopes().last().push((name@, old(self).counter())))
                && final(self).counter() == old(self).counter() + 1,
            !has_key(old(self).scopes().last(), name@) && old(self).counter() == u64::MAX ==> r
                == Err::<u64, Error>(Error::ProgramTooLarge),
            final(self).max_slot() >= old(self).max_slot(),
            r is Ok ==> r->Ok_0 <= final(self).max_slot(),
    {
        let n = self.blocks.len();
        let id = self.local_counter;
        let ghost before = self.scopes();
        assert(self.blocks@[n - 1].wf());
        assert(before.last() == self.blocks@[n - 1]@);
        if self.blocks[n - 1].get(name).is_some() {
            return Err(Error::DuplicateLocal);
        }
        if id == u64::MAX {
            return Err(Error::ProgramTooLarge);
        }
        let ghost old_blocks = self.blocks@;
        let _ = self.blocks[n - 1].var(name, id);
        self.local_counter = id + 1;
        if id > self.stack_size {
            self.stack_size = id;
        }
        assert(self.scopes() =~= before.drop_last().push(before.last().push((name@, id))));
        assert forall|i: int| 0 <= i < self.blocks@.len() implies #[trigger] self.blocks@[i].wf()
            && 1 <= self.blocks@[i].base() <= self.local_counter by {
            if i < n - 1 {
                assert(self.blocks@[i] == old_blocks[i]);
                assert(old_blocks[i].wf());
            }
        }
        Ok(id)
    }

    /// The slot of a name, searching from the innermost block out.
    pub fn get(&self, name: &[u8]) -> (r: Option<u64>)
        requires
            self.wf(),
        ensures
            r == find_slot(self.scopes(), name@),
    {
        let mut i: usize = self.blocks.len();
        assert(self.scopes().subrange(0, i as int) =~= self.scopes());
        while i > 0
            invariant
                i <= self.blocks@.len(),
                self.wf(),
                find_slot(self.scopes(), name@) == find_slot(self.scopes().subrange(0, i as int), name@),
            decreases i,
        {
            assert(self.blocks@[i - 1].wf());
            let ghost sub = self.scopes().subrange(0, i as int);
            assert(sub.last() == self.blocks@[i - 1]@);
            assert(sub.drop_last() =~= self.scopes().subrange(0, i - 1));
            match self.blocks[i - 1].get(name) {
                Some(id) => {
                    return Some(id);
                },
                None => {},
            }
            i -= 1;
        }
        None
    }
}

/// The scopes after declaring `name` at `slot` in the innermost block.
pub open spec fn declared(
    scopes: Seq<Seq<(Seq<u8>, u64)>>,
    name: Seq<u8>,
    slot: u64,
) -> Seq<Seq<(Seq<u8>, u64)>> {
    scopes.drop_last().push(scopes.last().push((name, slot)))
}

/// Scoping of locals: once a name is declared in a block, declaring it again
/// in that block is the duplicate case of `Function::var`; in a nested block
/// it is accepted, and the name then finds the nested slot.
pub proof fn lemma_scoping(scopes: Seq<Seq<(Seq<u8>, u64)>>, name: Seq<u8>, a: u64, b: u64)
    requires
        scopes.len() >= 1,
        keys_unique(scopes.last()),
    ensures
        has_key(declared(scopes, name, a).last(), name),
        !has_key(scopes.last(), name) ==> find_slot(declared(scopes, name, a), name) == Some(a),
        !has_key(declared(scopes, name, a).push(Seq::empty()).last(), name),
        find_slot(declared(declared(scopes, name, a).push(Seq::empty()), name, b), name) == Some(b),
{
    let once = declared(scopes, name, a);
    let last = scopes.last().push((name, a));
    assert(once.last() == last);
    assert(last[last.len() - 1].0 == name);
    let nested = once.push(Seq::<(Seq<u8>, u64)>::empty());
    let twice = declared(nested, name, b);
    let inner = Seq::<(Seq<u8>, u64)>::empty().push((name, b));
    assert(twice.last() == inner);
    assert(inner[0].0 == name);
    crate::table::lemma_lookup_at(inner, 0);
    if !has_key(scopes.last(), name) {
        assert(keys_unique(last)) by {
            assert forall|i: int, j: int|
                0 <= i < last.len() && 0 <= j < last.len() && #[trigger] last[i].0
                    == #[trigger] last[j].0 implies i == j by {
                if i < last.len() - 1 {
                    assert(last[i] == scopes.last()[i]);
                }
                if j < last.len() - 1 {
                    assert(last[j] == scopes.last()[j]);
                }
                if i < last.len() - 1 && j < last.len() - 1 && i != j {
                    assert(scopes.last()[i].0 == scopes.last()[j].0);
                }
            }
        }
        crate::table::lemma_lookup_at(last, last.len() - 1);
    }
}

} // verus!
