//! The pool of retired identifiers.

use vstd::multiset::Multiset;
use vstd::prelude::*;
use vstd::seq_lib::{to_multiset_build, to_multiset_update};

verus! {

/// Position of the parent of position `i` in the implicit binary tree.
spec fn parent(i: int) -> int {
    (i - 1) / 2
}

/// The item at `i` is no smaller than the item at the parent of `i`.
spec fn above_parent(s: Seq<u32>, i: int) -> bool {
    s[parent(i)] <= s[i]
}

/// The heap order: no item is smaller than its parent.
spec fn heap_ordered(s: Seq<u32>) -> bool {
    forall|i: int| 0 < i < s.len() ==> #[trigger] above_parent(s, i)
}

/// The heap order with one position left out: `hole` may be smaller than its
/// parent, but its children are no smaller than that parent.
spec fn ordered_but_up(s: Seq<u32>, hole: int) -> bool {
    &&& forall|i: int| 0 < i < s.len() && i != hole ==> #[trigger] above_parent(s, i)
    &&& forall|i: int|
        0 < hole && 0 < i < s.len() && #[trigger] parent(i) == hole ==> s[parent(hole)] <= s[i]
}

/// The heap order with one position left out: the children of `hole` may be
/// smaller than it, but they are no smaller than the parent of `hole`.
spec fn ordered_but_down(s: Seq<u32>, hole: int) -> bool {
    &&& forall|i: int|
        0 < i < s.len() && parent(i) != hole ==> #[trigger] above_parent(s, i)
    &&& forall|i: int|
        0 < hole && 0 < i < s.len() && #[trigger] parent(i) == hole ==> s[parent(hole)] <= s[i]
}

/// The sequence `s` with the items at `i` and `j` exchanged.
spec fn swapped(s: Seq<u32>, i: int, j: int) -> Seq<u32> {
    s.update(i, s[j]).update(j, s[i])
}

/// In a heap-ordered sequence the first item is a least one.
proof fn lemma_root_is_least(s: Seq<u32>, i: int)
    requires
        heap_ordered(s),
        0 <= i < s.len(),
    ensures
        s[0] <= s[i],
    decreases i,
{
    if i > 0 {
        assert(above_parent(s, i));
        lemma_root_is_least(s, parent(i));
    }
}

/// Exchanging two items keeps the items a sequence holds.
proof fn lemma_swap_keeps_items(s: Seq<u32>, i: int, j: int)
    requires
        0 <= i < s.len(),
        0 <= j < s.len(),
    ensures
        swapped(s, i, j).to_multiset() == s.to_multiset(),
{
    broadcast use vstd::multiset::group_multiset_axioms;

    let t = s.update(i, s[j]);
    to_multiset_update(s, i, s[j]);
    to_multiset_update(t, j, s[i]);
    s.to_multiset_ensures();
    assert(s.contains(s[i]));
    assert(s.contains(s[j]));
    assert(swapped(s, i, j).to_multiset() =~= s.to_multiset());
}

/// A pool of identifiers that hands back its smallest member first.
///
/// The members are kept as a binary min-heap in a vector, so that both
/// [`RecyclePool::push`] and [`RecyclePool::pop`] take logarithmic time.
pub struct RecyclePool {
    items: Vec<u32>,
}

impl RecyclePool {
    /// The members of the pool, each as often as it was pushed and not yet
    /// popped.
    pub closed spec fn view(&self) -> Multiset<u32> {
        self.items@.to_multiset()
    }

    /// The representation invariant: the vector is heap-ordered.
    pub closed spec fn wf(&self) -> bool {
        heap_ordered(self.items@)
    }

    /// An empty pool.
    pub fn new() -> (pool: Self)
        ensures
            pool.wf(),
            pool@ == Multiset::<u32>::empty(),
    {
        let pool = RecyclePool { items: Vec::new() };
        proof {
            broadcast use vstd::multiset::group_multiset_axioms;

            pool.items@.to_multiset_ensures();
            assert(pool@ =~= Multiset::<u32>::empty());
        }
        pool
    }

    /// The number of members.
    pub fn len(&self) -> (n: usize)
        ensures
            n == self@.len(),
    {
        proof {
            self.items@.to_multiset_ensures();
        }
        self.items.len()
    }

    /// Whether the pool has no member.
    pub fn is_empty(&self) -> (e: bool)
        ensures
            e <==> self@.len() == 0,
    {
        proof {
            self.items@.to_multiset_ensures();
        }
        self.items.len() == 0
    }

    /// Adds `id` to the pool.
    pub fn push(&mut self, id: u32)
        requires
            old(self).wf(),
        ensures
            final(self).wf(),
            final(self)@ == old(self)@.insert(id),
    {
        self.items.push(id);
        proof {
            to_multiset_build(old(self).items@, id);
            assert forall|i: int| 0 < i < self.items@.len() - 1 implies #[trigger] above_parent(
                self.items@,
                i,
            ) by {
                assert(above_parent(old(self).items@, i));
            }
        }
        let mut pos: usize = self.items.len() - 1;
        loop
            invariant
                0 <= pos < self.items@.len(),
                ordered_but_up(self.items@, pos as int),
                self.items@.to_multiset() == old(self).items@.to_multiset().insert(id),
            ensures
                heap_ordered(self.items@),
                self.items@.to_multiset() == old(self).items@.to_multiset().insert(id),
            decreases pos,
        {
            if pos == 0 {
                break ;
            }
            let up: usize = (pos - 1) / 2;
            let here: u32 = self.items[pos];
            let above: u32 = self.items[up];
            if above <= here {
                proof {
                    assert(above_parent(self.items@, pos as int));
                }
                break ;
            }
            let ghost before = self.items@;
            self.items[pos] = above;
            self.items[up] = here;
            proof {
                assert(self.items@ =~= swapped(before, up as int, pos as int));
                lemma_swap_keeps_items(before, up as int, pos as int);
                let after = self.items@;
                assert forall|i: int| 0 < i < after.len() && i != up implies #[trigger] above_parent(
                    after,
                    i,
                ) by {
                    // `pos` now holds what its parent held, which was no larger
                    // than any child of `pos`.
                    if i != pos {
                        assert(above_parent(before, i));
                        if parent(i) == pos {
                            assert(before[parent(pos as int)] <= before[i]);
                        }
                    }
                }
                assert forall|i: int|
                    0 < up && 0 < i < after.len() && #[trigger] parent(i) == up implies after[parent(
                        up as int,
                    )] <= after[i] by {
                    assert(above_parent(before, up as int));
                    if i != pos {
                        assert(above_parent(before, i));
                    }
                }
            }
            pos = up;
        }
    }

    /// Takes the smallest member out of the pool, if there is one.
    pub fn pop(&mut self) -> (r: Option<u32>)
        requires
            old(self).wf(),
        ensures
            final(self).wf(),
            match r {
                Some(least) => {
                    &&& old(self)@.count(least) > 0
                    &&& forall|id: u32| old(self)@.count(id) > 0 ==> least <= id
                    &&& final(self)@ == old(self)@.remove(least)
                },
                None => old(self)@ == Multiset::<u32>::empty() && final(self)@ == old(self)@,
            },
    {
        let ghost before = self.items@;
        proof {
            broadcast use vstd::multiset::group_multiset_axioms;

            before.to_multiset_ensures();
        }
        let last = match self.items.pop() {
            Some(last) => last,
            None => {
                proof {
                    assert(before.to_multiset() =~= Multiset::<u32>::empty());
                }
                return None;
            },
        };
        let ghost rest = self.items@;
        proof {
            assert(before =~= rest.push(last));
            to_multiset_build(rest, last);
            assert forall|id: u32| before.to_multiset().count(id) > 0 implies before[0] <= id by {
                let k = choose|k: int| 0 <= k < before.len() && before[k] == id;
                lemma_root_is_least(before, k);
            }
            assert(before.contains(before[0]));
        }
        let len = self.items.len();
        if len == 0 {
            proof {
                broadcast use vstd::multiset::group_multiset_axioms;

                assert(rest.to_multiset() =~= before.to_multiset().remove(last));
            }
            return Some(last);
        }
        let least: u32 = self.items[0];
        self.items[0] = last;
        proof {
            broadcast use vstd::multiset::group_multiset_axioms;

            to_multiset_update(rest, 0, last);
            assert(self.items@.to_multiset() =~= before.to_multiset().remove(least));
            assert forall|i: int|
                0 < i < self.items@.len() && parent(i) != 0 implies #[trigger] above_parent(
                    self.items@,
                    i,
                ) by {
                assert(above_parent(before, i));
            }
        }
        let mut pos: usize = 0;
        loop
            invariant
                len == self.items@.len(),
                0 <= pos < len,
                ordered_but_down(self.items@, pos as int),
                self.items@.to_multiset() == before.to_multiset().remove(least),
            ensures
                heap_ordered(self.items@),
                self.items@.to_multiset() == before.to_multiset().remove(least),
            decreases len - pos,
        {
            if pos >= len / 2 {
                proof {
                    assert forall|i: int| 0 < i < len implies parent(i) != pos by {}
                }
                break ;
            }
            let left: usize = 2 * pos + 1;
            let right: usize = left + 1;
            let mut child: usize = left;
            if right < len && self.items[right] < self.items[left] {
                child = right;
            }
            let here: u32 = self.items[pos];
            let below: u32 = self.items[child];
            if here <= below {
                proof {
                    assert forall|i: int| 0 < i < len && parent(i) == pos implies above_parent(
                        self.items@,
                        i,
                    ) by {
                        assert(i == left || i == right);
                    }
                }
                break ;
            }
            let ghost prior = self.items@;
            self.items[pos] = below;
            self.items[child] = here;
            proof {
                assert(self.items@ =~= swapped(prior, pos as int, child as int));
                lemma_swap_keeps_items(prior, pos as int, child as int);
                let after = self.items@;
                assert forall|i: int|
                    0 < i < after.len() && parent(i) != child implies #[trigger] above_parent(
                        after,
                        i,
                    ) by {
                    if parent(i) == pos {
                        assert(i == left || i == right);
                    } else if i == pos {
                        assert(parent(child as int) == pos);
                        assert(prior[parent(pos as int)] <= prior[child as int]);
                    } else {
                        assert(above_parent(prior, i));
                    }
                }
                assert forall|i: int|
                    0 < i < after.len() && #[trigger] parent(i) == child implies after[parent(
                        child as int,
                    )] <= after[i] by {
                    assert(above_parent(prior, i));
                }
            }
            pos = child;
        }
        Some(least)
    }
}

} // verus!
