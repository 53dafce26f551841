//! Recency order of the cached subjects, kept by [`lru::LruCache`].
//!
//! A slot pairs a subject with the number of its entry and the tick of its last use.

use std::num::NonZeroUsize;

use lru::LruCache;
use vstd::prelude::*;

verus! {

/// Subject, number of its entry, and tick of its last use.
pub type Slot = (u64, (u64, u64));

#[verifier::external_type_specification]
#[verifier::external_body]
#[verifier::reject_recursive_types(K)]
#[verifier::reject_recursive_types(V)]
#[verifier::reject_recursive_types(S)]
pub struct ExLruCache<K, V, S>(LruCache<K, V, S>);

/// Hasher of an [`LruCache`] that was made without naming one.
#[verifier::external_type_specification]
#[verifier::external_body]
pub struct ExDefaultHasher(lru::DefaultHasher);

/// Slots of a cache, the most recently used first.
pub uninterp spec fn recency_slots(cache: LruCache<u64, (u64, u64)>) -> Seq<(u64, (u64, u64))>;

/// Number of slots that a cache was made for.
pub uninterp spec fn recency_capacity(cache: LruCache<u64, (u64, u64)>) -> nat;

/// Whether slot `i` belongs to `subject`.
pub open spec fn slot_at(slots: Seq<Slot>, subject: u64, i: int) -> bool {
    0 <= i < slots.len() && slots[i].0 == subject
}

/// Whether some slot belongs to `subject`.
pub open spec fn holds(slots: Seq<Slot>, subject: u64) -> bool {
    exists|i: int| slot_at(slots, subject, i)
}

/// A slot of `subject`.
pub open spec fn position(slots: Seq<Slot>, subject: u64) -> int {
    choose|i: int| slot_at(slots, subject, i)
}

/// Whether no subject has two slots.
pub open spec fn distinct_subjects(slots: Seq<Slot>) -> bool {
    forall|i: int, j: int|
        #![trigger slots[i], slots[j]]
        0 <= i < j < slots.len() ==> slots[i].0 != slots[j].0
}

/// A subject of distinct slots has one position.
pub proof fn lemma_position(slots: Seq<Slot>, subject: u64, i: int)
    requires
        distinct_subjects(slots),
        slot_at(slots, subject, i),
    ensures
        holds(slots, subject),
        position(slots, subject) == i,
{
    let p = position(slots, subject);
    assert(slot_at(slots, subject, p));
    assert(slots[p].0 == slots[i].0);
}

/// `LruCache::new`: an empty cache for `capacity` slots.
///
/// It reserves its table at once, so the bytes of that table must have a size.
#[verifier::external_body]
pub(crate) fn new_cache(capacity: usize) -> (cache: LruCache<u64, (u64, u64)>)
    requires
        0 < capacity <= isize::MAX / 40,
    ensures
        recency_slots(cache) == Seq::<(u64, (u64, u64))>::empty(),
        recency_capacity(cache) == capacity,
{
    LruCache::new(NonZeroUsize::new(capacity).expect("the capacity is not zero"))
}

/// `LruCache::get_mut`: moves the slot of `subject` to the front and lends its value.
#[verifier::external_body]
pub(crate) fn get_mut(cache: &mut LruCache<u64, (u64, u64)>, subject: u64) -> (value: Option<
    &mut (u64, u64),
>)
    ensures
        recency_capacity(*final(cache)) == recency_capacity(*old(cache)),
        match value {
            Some(value) => exists|i: int|
                {
                    &&& #[trigger] slot_at(recency_slots(*old(cache)), subject, i)
                    &&& *value == recency_slots(*old(cache))[i].1
                    &&& recency_slots(*final(cache)) == seq![(subject, *final(value))]
                        + recency_slots(*old(cache)).remove(i)
                },
            None => {
                &&& !holds(recency_slots(*old(cache)), subject)
                &&& recency_slots(*final(cache)) == recency_slots(*old(cache))
            },
        },
{
    cache.get_mut(&subject)
}

/// `LruCache::peek`: the value of `subject`, in whatever place it stands.
#[verifier::external_body]
pub(crate) fn peek(cache: &LruCache<u64, (u64, u64)>, subject: u64) -> (value: Option<&(u64, u64)>)
    ensures
        match value {
            Some(value) => exists|i: int|
                {
                    &&& #[trigger] slot_at(recency_slots(*cache), subject, i)
                    &&& *value == recency_slots(*cache)[i].1
                },
            None => !holds(recency_slots(*cache), subject),
        },
{
    cache.peek(&subject)
}

/// `LruCache::push`: puts a slot in front. Returns what made way for it: the former value of
/// `subject` where it had one, else the last slot of a full cache.
#[verifier::external_body]
pub(crate) fn push(cache: &mut LruCache<u64, (u64, u64)>, subject: u64, value: (u64, u64)) -> (
replaced: Option<(u64, (u64, u64))>)
    ensures
        recency_capacity(*final(cache)) == recency_capacity(*old(cache)),
        if holds(recency_slots(*old(cache)), subject) {
            exists|i: int|
                {
                    &&& #[trigger] slot_at(recency_slots(*old(cache)), subject, i)
                    &&& replaced == Some((subject, recency_slots(*old(cache))[i].1))
                    &&& recency_slots(*final(cache)) == seq![(subject, value)] + recency_slots(
                        *old(cache),
                    ).remove(i)
                }
        } else if recency_slots(*old(cache)).len() == recency_capacity(*old(cache)) {
            &&& replaced == Some(recency_slots(*old(cache)).last())
            &&& recency_slots(*final(cache)) == seq![(subject, value)] + recency_slots(
                *old(cache),
            ).drop_last()
        } else {
            &&& replaced == None::<(u64, (u64, u64))>
            &&& recency_slots(*final(cache)) == seq![(subject, value)] + recency_slots(*old(cache))
        },
{
    cache.push(subject, value)
}

/// `LruCache::pop`: removes the slot of `subject` and returns its value.
#[verifier::external_body]
pub(crate) fn pop(cache: &mut LruCache<u64, (u64, u64)>, subject: u64) -> (value: Option<
    (u64, u64),
>)
    ensures
        recency_capacity(*final(cache)) == recency_capacity(*old(cache)),
        match value {
            Some(value) => exists|i: int|
                {
                    &&& #[trigger] slot_at(recency_slots(*old(cache)), subject, i)
                    &&& value == recency_slots(*old(cache))[i].1
                    &&& recency_slots(*final(cache)) == recency_slots(*old(cache)).remove(i)
                },
            None => {
                &&& !holds(recency_slots(*old(cache)), subject)
                &&& recency_slots(*final(cache)) == recency_slots(*old(cache))
            },
        },
{
    cache.pop(&subject)
}

/// `LruCache::peek_lru`: the last slot.
#[verifier::external_body]
pub(crate) fn peek_lru(cache: &LruCache<u64, (u64, u64)>) -> (slot: Option<(u64, (u64, u64))>)
    ensures
        slot == if recency_slots(*cache).len() > 0 {
            Some(recency_slots(*cache).last())
        } else {
            None
        },
{
    cache.peek_lru().map(|(subject, value)| (*subject, *value))
}

/// `LruCache::pop_lru`: removes the last slot and returns it.
#[verifier::external_body]
pub(crate) fn pop_lru(cache: &mut LruCache<u64, (u64, u64)>) -> (slot: Option<(u64, (u64, u64))>)
    ensures
        recency_capacity(*final(cache)) == recency_capacity(*old(cache)),
        if recency_slots(*old(cache)).len() > 0 {
            &&& slot == Some(recency_slots(*old(cache)).last())
            &&& recency_slots(*final(cache)) == recency_slots(*old(cache)).drop_last()
        } else {
            &&& slot == None::<(u64, (u64, u64))>
            &&& recency_slots(*final(cache)) == recency_slots(*old(cache))
        },
{
    cache.pop_lru()
}

/// `LruCache::iter`: every slot, the most recently used first.
#[verifier::external_body]
pub(crate) fn slots(cache: &LruCache<u64, (u64, u64)>) -> (slots: Vec<(u64, (u64, u64))>)
    ensures
        slots@ == recency_slots(*cache),
{
    cache.iter().map(|(subject, value)| (*subject, *value)).collect()
}

/// `LruCache::clear`: removes every slot.
#[verifier::external_body]
pub(crate) fn clear(cache: &mut LruCache<u64, (u64, u64)>)
    ensures
        recency_capacity(*final(cache)) == recency_capacity(*old(cache)),
        recency_slots(*final(cache)) == Seq::<(u64, (u64, u64))>::empty(),
{
    cache.clear()
}

} // verus!
