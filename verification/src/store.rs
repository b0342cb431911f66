//! The abstract store: what the memory of the machine holds, what each
//! operation on it does, and the laws that follow.

use vstd::prelude::*;

use crate::fault::Fault;

verus! {

/// The abstract store. Position `id` holds the contents of the array bound to
/// the identifier `id`, or `None` once `id` is retired. The length is the
/// number of identifiers issued so far.
pub type Store = Seq<Option<Seq<u32>>>;

/// `id` is bound to an array.
pub open spec fn live(s: Store, id: int) -> bool {
    0 <= id < s.len() && s[id] is Some
}

/// `id` was issued and later abandoned, and has not been issued again.
pub open spec fn retired(s: Store, id: int) -> bool {
    0 <= id < s.len() && s[id] is None
}

/// Some identifier is retired.
pub open spec fn has_retired(s: Store) -> bool {
    exists|id: int| retired(s, id)
}

/// `id` is the numerically smallest retired identifier.
pub open spec fn lowest_retired(s: Store, id: int) -> bool {
    retired(s, id) && forall|other: int| retired(s, other) ==> id <= other
}

/// The identifier that the next allocation binds: the smallest retired one if
/// there is any, else the first one never issued.
pub open spec fn next_id(s: Store) -> int {
    if has_retired(s) {
        choose|id: int| lowest_retired(s, id)
    } else {
        s.len() as int
    }
}

/// An array of `n` zero words.
pub open spec fn zeros(n: nat) -> Seq<u32> {
    Seq::new(n, |i: int| 0u32)
}

/// What holds of every store: array 0 is live, and the number of identifiers
/// issued stays below 2^32.
pub open spec fn store_inv(s: Store) -> bool {
    0 < s.len() <= u32::MAX && s[0] is Some
}

/// The store after an allocation of `size` words, and the identifier bound.
/// The allocation fails when no identifier is retired and 2^32 - 1 of them
/// are issued.
pub open spec fn alloc_spec(s: Store, size: u32) -> (Store, Result<u32, Fault>) {
    if has_retired(s) {
        (s.update(next_id(s), Some(zeros(size as nat))), Ok(next_id(s) as u32))
    } else if s.len() < u32::MAX {
        (s.push(Some(zeros(size as nat))), Ok(next_id(s) as u32))
    } else {
        (s, Err(Fault::IdSpaceExhausted))
    }
}

/// The store after the abandonment of `id`. Array 0 cannot be abandoned, nor
/// an identifier that is not live.
pub open spec fn free_spec(s: Store, id: u32) -> (Store, Result<(), Fault>) {
    if id == 0 {
        (s, Err(Fault::FreeOfProgram))
    } else if id >= s.len() {
        (s, Err(Fault::Unallocated))
    } else if s[id as int] is None {
        (s, Err(Fault::DoubleFree))
    } else {
        (s.update(id as int, None), Ok(()))
    }
}

/// The fault, if any, of an access to the word at `offset` of array `id`.
pub open spec fn access_fault(s: Store, id: u32, offset: u32) -> Option<Fault> {
    if id >= s.len() {
        Some(Fault::Unallocated)
    } else if s[id as int] is None {
        Some(Fault::UseAfterFree)
    } else if offset >= s[id as int]->0.len() {
        Some(Fault::OutOfBounds)
    } else {
        None
    }
}

/// The word at `offset` of array `id`.
pub open spec fn read_spec(s: Store, id: u32, offset: u32) -> Result<u32, Fault> {
    match access_fault(s, id, offset) {
        Some(fault) => Err(fault),
        None => Ok(s[id as int]->0[offset as int]),
    }
}

/// The store after `value` is written at `offset` of array `id`.
pub open spec fn write_spec(s: Store, id: u32, offset: u32, value: u32) -> (
    Store,
    Result<(), Fault>,
) {
    match access_fault(s, id, offset) {
        Some(fault) => (s, Err(fault)),
        None => (
            s.update(id as int, Some(s[id as int]->0.update(offset as int, value))),
            Ok(()),
        ),
    }
}

/// The store after array 0 is replaced by a copy of array `src`. With
/// `src == 0` the store stays as it is.
pub open spec fn load_spec(s: Store, src: u32) -> (Store, Result<(), Fault>) {
    if src == 0 {
        (s, Ok(()))
    } else if src >= s.len() {
        (s, Err(Fault::Unallocated))
    } else if s[src as int] is None {
        (s, Err(Fault::UseAfterFree))
    } else {
        (s.update(0, s[src as int]), Ok(()))
    }
}

/// The smallest retired identifier is the one that `next_id` names.
pub proof fn lemma_lowest_retired_is_next(s: Store, id: int)
    requires
        lowest_retired(s, id),
    ensures
        has_retired(s),
        next_id(s) == id,
{
    assert(retired(s, id));
    let chosen = choose|c: int| lowest_retired(s, c);
    assert(lowest_retired(s, chosen));
}

/// At or below any retired identifier there is a smallest retired one.
proof fn lemma_lowest_retired_exists(s: Store, id: int)
    requires
        retired(s, id),
    ensures
        exists|least: int| lowest_retired(s, least),
    decreases id,
{
    if exists|lower: int| retired(s, lower) && lower < id {
        let lower = choose|lower: int| retired(s, lower) && lower < id;
        lemma_lowest_retired_exists(s, lower);
    } else {
        assert(lowest_retired(s, id));
    }
}

/// The next allocation binds the smallest retired identifier when there is
/// one, and otherwise the smallest identifier that was never issued. Either
/// way every identifier below it is live.
pub proof fn lemma_next_id_minimal(s: Store)
    ensures
        has_retired(s) ==> lowest_retired(s, next_id(s)),
        !has_retired(s) ==> next_id(s) == s.len(),
        0 <= next_id(s) <= s.len(),
        forall|id: int| 0 <= id < next_id(s) ==> live(s, id),
{
    if has_retired(s) {
        let any = choose|id: int| retired(s, id);
        lemma_lowest_retired_exists(s, any);
    }
    assert forall|id: int| 0 <= id < next_id(s) implies live(s, id) by {
        if !live(s, id) {
            assert(retired(s, id));
        }
    }
}

/// An abandoned identifier can be bound again: right after `id` is
/// abandoned an allocation succeeds, and binds `id` or a smaller retired
/// identifier.
pub proof fn lemma_abandoned_id_is_reused(s: Store, id: u32, size: u32)
    requires
        free_spec(s, id).1 is Ok,
    ensures
        ({
            let freed = free_spec(s, id).0;
            &&& retired(freed, id as int)
            &&& next_id(freed) <= id
            &&& alloc_spec(freed, size).1 == Ok::<u32, Fault>(next_id(freed) as u32)
        }),
{
    let freed = free_spec(s, id).0;
    assert(retired(freed, id as int));
    lemma_next_id_minimal(freed);
}

/// Every operation keeps a valid store valid: array 0 stays live whatever is
/// allocated, abandoned, written or loaded, and no identifier once issued is
/// forgotten.
pub proof fn lemma_store_stays_valid(s: Store, id: u32, offset: u32, value: u32)
    requires
        store_inv(s),
    ensures
        store_inv(alloc_spec(s, value).0),
        store_inv(free_spec(s, id).0),
        store_inv(write_spec(s, id, offset, value).0),
        store_inv(load_spec(s, id).0),
        alloc_spec(s, value).0.len() >= s.len(),
        free_spec(s, id).0.len() == s.len(),
        write_spec(s, id, offset, value).0.len() == s.len(),
        load_spec(s, id).0.len() == s.len(),
{
    lemma_next_id_minimal(s);
}

/// A freshly allocated array has the size asked for and every word of it
/// reads as zero, whether its identifier is new or reused.
pub proof fn lemma_fresh_array_reads_zero(s: Store, size: u32, offset: u32)
    requires
        store_inv(s),
        alloc_spec(s, size).1 is Ok,
    ensures
        ({
            let (after, id) = alloc_spec(s, size);
            &&& live(after, id->Ok_0 as int)
            &&& after[id->Ok_0 as int] == Some(zeros(size as nat))
            &&& offset < size ==> read_spec(after, id->Ok_0, offset) == Ok::<u32, Fault>(0u32)
            &&& offset >= size ==> read_spec(after, id->Ok_0, offset) == Err::<u32, Fault>(
                Fault::OutOfBounds,
            )
        }),
{
    lemma_next_id_minimal(s);
}

/// An allocation leaves every array that was live as it was.
pub proof fn lemma_alloc_keeps_live_arrays(s: Store, size: u32, other: int)
    requires
        live(s, other),
    ensures
        alloc_spec(s, size).0[other] == s[other],
{
    lemma_next_id_minimal(s);
}

/// A word that was written is the word that is read back.
pub proof fn lemma_read_after_write(s: Store, id: u32, offset: u32, value: u32)
    requires
        write_spec(s, id, offset, value).1 is Ok,
    ensures
        read_spec(write_spec(s, id, offset, value).0, id, offset) == Ok::<u32, Fault>(value),
{
}

/// A write changes the array it names and no other.
pub proof fn lemma_write_touches_one_array(
    s: Store,
    id: u32,
    offset: u32,
    value: u32,
    other: int,
)
    requires
        other != id,
    ensures
        write_spec(s, id, offset, value).0.len() == s.len(),
        0 <= other < s.len() ==> write_spec(s, id, offset, value).0[other] == s[other],
{
}

/// Loading array 0 onto itself changes nothing in the store.
pub proof fn lemma_load_self_is_identity(s: Store)
    ensures
        load_spec(s, 0) == (s, Ok::<(), Fault>(())),
{
}

/// A loaded program is a copy. A load of array `src` leaves array 0 with the
/// contents of `src` and `src` as it was, and from then on a write to either
/// of the two leaves the other one as it was.
pub proof fn lemma_loaded_copy_is_independent(s: Store, src: u32, offset: u32, value: u32)
    requires
        src != 0,
        load_spec(s, src).1 is Ok,
    ensures
        ({
            let loaded = load_spec(s, src).0;
            &&& loaded[0] == s[src as int]
            &&& loaded[src as int] == s[src as int]
            &&& write_spec(loaded, src, offset, value).0[0] == loaded[0]
            &&& write_spec(loaded, 0, offset, value).0[src as int] == loaded[src as int]
        }),
{
}

/// A read or a write at the offset equal to the length of a live array is
/// refused, and the store stays as it was.
pub proof fn lemma_access_at_length_is_refused(s: Store, id: u32, offset: u32, value: u32)
    requires
        live(s, id as int),
        offset == s[id as int]->0.len(),
    ensures
        read_spec(s, id, offset) == Err::<u32, Fault>(Fault::OutOfBounds),
        write_spec(s, id, offset, value) == (s, Err::<(), Fault>(Fault::OutOfBounds)),
{
}

} // verus!
