//! The segmented memory of the machine.

use vstd::prelude::*;

use crate::fault::Fault;
use crate::pool::RecyclePool;
use crate::store::{
    alloc_spec, free_spec, lemma_lowest_retired_is_next, load_spec, lowest_retired, read_spec,
    retired, store_inv, write_spec, zeros, Store,
};

verus! {

/// The segmented word store: every array that the machine owns, by
/// identifier, and the pool of retired identifiers.
pub struct Mem {
    data: Vec<Option<Vec<u32>>>,
    free_pq: RecyclePool,
}

impl Mem {
    /// The store that this memory holds.
    pub closed spec fn view(&self) -> Store {
        Seq::new(
            self.data@.len(),
            |i: int|
                match self.data@[i] {
                    Some(words) => Some(words@),
                    None => None,
                },
        )
    }

    /// The pool holds `id` once if `id` is retired, and not at all otherwise.
    spec fn pooled(&self, id: u32) -> bool {
        self.free_pq@.count(id) == if retired(self@, id as int) {
            1nat
        } else {
            0nat
        }
    }

    /// The representation invariant: the store is valid, and the pool holds
    /// exactly the retired identifiers.
    pub closed spec fn wf(&self) -> bool {
        &&& store_inv(self@)
        &&& self.free_pq.wf()
        &&& forall|id: u32| #[trigger] self.pooled(id)
    }

    /// A well-formed memory holds a valid store.
    pub proof fn lemma_store_inv(&self)
        requires
            self.wf(),
        ensures
            store_inv(self@),
    {
    }

    /// A memory whose array 0 is `prog` and that has issued no other
    /// identifier.
    pub fn init(prog: Vec<u32>) -> (mem: Self)
        ensures
            mem.wf(),
            mem@ == seq![Some(prog@)],
    {
        let mut data: Vec<Option<Vec<u32>>> = Vec::new();
        data.push(Some(prog));
        let mem = Mem { data, free_pq: RecyclePool::new() };
        proof {
            broadcast use vstd::multiset::group_multiset_axioms;

            assert(mem@ =~= seq![Some(prog@)]);
            assert forall|id: u32| #[trigger] mem.pooled(id) by {}
        }
        mem
    }

    /// Replaces the contents of array 0 by a copy of array `addr`. With
    /// `addr == 0` nothing is copied.
    pub fn copy_to_zero(&mut self, addr: u32) -> (r: Result<(), Fault>)
        requires
            old(self).wf(),
        ensures
            final(self).wf(),
            (final(self)@, r) == load_spec(old(self)@, addr),
    {
        if addr != 0 {
            let id = addr as usize;
            if id >= self.data.len() {
                return Err(Fault::Unallocated);
            }
            let copy = match &self.data[id] {
                Some(words) => words.clone(),
                None => {
                    return Err(Fault::UseAfterFree);
                },
            };
            self.data[0] = Some(copy);
            proof {
                assert(copy@ =~= old(self)@[addr as int]->0);
                assert(self@ =~= old(self)@.update(0, old(self)@[addr as int]));
                assert forall|other: u32| #[trigger] self.pooled(other) by {
                    assert(old(self).pooled(other));
                }
            }
        }
        Ok(())
    }

    /// The number of identifiers issued so far, array 0 included.
    pub fn len(&self) -> (n: u32)
        requires
            self.wf(),
        ensures
            n == self@.len(),
    {
        self.data.len() as u32
    }

    /// Binds an identifier to a new array of `size` zero words: the smallest
    /// retired identifier if there is one, else the next one never issued.
    pub fn allocate(&mut self, size: u32) -> (r: Result<u32, Fault>)
        requires
            old(self).wf(),
        ensures
            final(self).wf(),
            (final(self)@, r) == alloc_spec(old(self)@, size),
    {
        match self.free_pq.pop() {
            Some(addr) => {
                proof {
                    assert(old(self).pooled(addr));
                    assert forall|other: int| retired(old(self)@, other) implies addr
                        <= other by {
                        assert(old(self).pooled(other as u32));
                    }
                    assert(lowest_retired(old(self)@, addr as int));
                    lemma_lowest_retired_is_next(old(self)@, addr as int);
                }
                let words = vec![0u32; size as usize];
                self.data[addr as usize] = Some(words);
                proof {
                    assert(words@ =~= zeros(size as nat));
                    assert(self@ =~= old(self)@.update(addr as int, Some(zeros(size as nat))));
                    assert forall|id: u32| #[trigger] self.pooled(id) by {
                        assert(old(self).pooled(id));
                    }
                }
                Ok(addr)
            },
            None => {
                proof {
                    assert forall|id: int| !retired(old(self)@, id) by {
                        assert(old(self).pooled(id as u32));
                    }
                }
                if self.data.len() >= u32::MAX as usize {
                    return Err(Fault::IdSpaceExhausted);
                }
                let words = vec![0u32; size as usize];
                self.data.push(Some(words));
                proof {
                    assert(words@ =~= zeros(size as nat));
                    assert(self@ =~= old(self)@.push(Some(zeros(size as nat))));
                    assert forall|id: u32| #[trigger] self.pooled(id) by {
                        assert(old(self).pooled(id));
                    }
                }
                Ok((self.data.len() - 1) as u32)
            },
        }
    }

    /// Retires `addr` and releases the storage of its array.
    pub fn free(&mut self, addr: u32) -> (r: Result<(), Fault>)
        requires
            old(self).wf(),
        ensures
            final(self).wf(),
            (final(self)@, r) == free_spec(old(self)@, addr),
    {
        if addr == 0 {
            return Err(Fault::FreeOfProgram);
        }
        let id = addr as usize;
        if id >= self.data.len() {
            return Err(Fault::Unallocated);
        }
        if self.data[id].is_none() {
            return Err(Fault::DoubleFree);
        }
        self.data[id] = None;
        self.free_pq.push(addr);
        proof {
            assert(self@ =~= old(self)@.update(addr as int, None));
            assert forall|other: u32| #[trigger] self.pooled(other) by {
                assert(old(self).pooled(other));
            }
        }
        Ok(())
    }

    /// The word at `offset` of array `addr`.
    pub fn read(&self, addr: u32, offset: u32) -> (r: Result<&u32, Fault>)
        requires
            self.wf(),
        ensures
            match r {
                Ok(word) => read_spec(self@, addr, offset) == Ok::<u32, Fault>(*word),
                Err(fault) => read_spec(self@, addr, offset) == Err::<u32, Fault>(fault),
            },
    {
        let id = addr as usize;
        if id >= self.data.len() {
            return Err(Fault::Unallocated);
        }
        match &self.data[id] {
            Some(words) => {
                let at = offset as usize;
                if at < words.len() {
                    Ok(&words[at])
                } else {
                    Err(Fault::OutOfBounds)
                }
            },
            None => Err(Fault::UseAfterFree),
        }
    }

    /// Stores `val` at `offset` of array `addr`.
    pub fn write(&mut self, addr: u32, offset: u32, val: u32) -> (r: Result<(), Fault>)
        requires
            old(self).wf(),
        ensures
            final(self).wf(),
            (final(self)@, r) == write_spec(old(self)@, addr, offset, val),
    {
        let id = addr as usize;
        if id >= self.data.len() {
            return Err(Fault::Unallocated);
        }
        let r = match &mut self.data[id] {
            Some(words) => {
                let at = offset as usize;
                if at < words.len() {
                    words[at] = val;
                    Ok(())
                } else {
                    Err(Fault::OutOfBounds)
                }
            },
            None => Err(Fault::UseAfterFree),
        };
        proof {
            assert(self@ =~= write_spec(old(self)@, addr, offset, val).0);
            assert forall|other: u32| #[trigger] self.pooled(other) by {
                assert(old(self).pooled(other));
            }
        }
        r
    }
}

} // verus!
