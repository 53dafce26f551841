//! Bounded, recency-ordered map of the cached subjects and the entries that handles still hold.
//!
//! Every entry has a number. A subject's slot names the entry that answers for it; an entry that
//! has lost its slot stays stale for the handles that hold its number.

use std::collections::HashMap;

use lru::LruCache;
use vstd::prelude::*;

use crate::config::PolicyGateConfig;
use crate::decision;
use crate::decision::{Decision, DecisionResult, DecisionSourceError, DecisionSourceErrorKind};
use crate::entry;
use crate::entry::{Entry, EntryState, Observed, PendingFetch};
use crate::recency;
use crate::subject_model;
use crate::subject_model::{Removal, SubjectModel};
use crate::time;
use crate::time::{Duration, Instant};

verus! {

broadcast use vstd::std_specs::hash::group_hash_axioms;

/// Cached subjects in order of recency, with the entries that answer for them.
#[verifier::reject_recursive_types(P)]
#[derive(Debug)]
pub struct SubjectMap<P> {
    cache: LruCache<u64, (u64, u64)>,
    table: HashMap<u64, Entry<P>>,
    subject_ttl: Duration,
    activity_epoch: Instant,
    shape_dirty: bool,
    aborted: Vec<u64>,
    next_id: u64,
}

impl<P> View for SubjectMap<P> {
    type V = SubjectModel<P>;

    closed spec fn view(&self) -> SubjectModel<P> {
        SubjectModel {
            slots: recency::recency_slots(self.cache),
            capacity: recency::recency_capacity(self.cache),
            table: self.table@,
            dirty: self.shape_dirty,
            aborted: self.aborted@,
            ttl: self.subject_ttl,
            epoch: self.activity_epoch,
            next_id: self.next_id,
        }
    }
}

impl<P> SubjectMap<P> {
    /// An empty map.
    pub fn new(max_subjects: usize, subject_ttl: Duration, activity_epoch: Instant) -> (map:
        SubjectMap<P>)
        requires
            0 < max_subjects <= isize::MAX / 40,
        ensures
            map@.wf(),
            map@ == (SubjectModel::<P> {
                slots: Seq::empty(),
                capacity: max_subjects as nat,
                table: Map::empty(),
                dirty: false,
                aborted: Seq::empty(),
                ttl: subject_ttl,
                epoch: activity_epoch,
                next_id: 0,
            }),
    {
        SubjectMap {
            cache: recency::new_cache(max_subjects),
            table: HashMap::new(),
            subject_ttl,
            activity_epoch,
            shape_dirty: false,
            aborted: Vec::new(),
            next_id: 0,
        }
    }

    /// Nanoseconds from the epoch to `now`.
    pub fn tick(&self, now: Instant) -> (tick: u64)
        ensures
            tick == self@.spec_tick(now),
    {
        now.saturating_duration_since(self.activity_epoch).clamped_nanos()
    }

    /// Invalidates an entry and notes the lookup that it drops.
    fn drop_entry(&mut self, id: u64)
        requires
            old(self)@.table.contains_key(id),
        ensures
            final(self)@ == old(self)@.dropped(id),
    {
        let ghost before = self.table@;
        match self.table.remove(&id) {
            Some(mut entry) => {
                match entry.invalidate() {
                    Some(pending) => {
                        self.aborted.push(pending.generation);
                    },
                    None => {},
                }
                self.table.insert(id, entry);
            },
            None => {},
        }
        assert(self.table@ =~= before.insert(id, before[id].invalidated()));
    }

    /// Drops the slots that have been idle for too long, from the least recently used on.
    pub fn evict(&mut self, tick: u64)
        requires
            old(self)@.wf(),
        ensures
            final(self)@.wf(),
            final(self)@ == old(self)@.evicted(tick as int),
    {
        let subject_ttl: u64 = self.subject_ttl.clamped_nanos();
        loop
            invariant
                self@.wf(),
                self@.evicted(tick as int) == old(self)@.evicted(tick as int),
                subject_ttl == time::least(self@.ttl.nanos as int, u64::MAX as int),
            ensures
                self@.wf(),
                self@ == old(self)@.evicted(tick as int),
            decreases self@.slots.len(),
        {
            let idle = match recency::peek_lru(&self.cache) {
                Some(slot) => tick.saturating_sub(slot.1.1) > subject_ttl,
                None => false,
            };
            if !idle {
                break;
            }
            let ghost before = self@;
            match recency::pop_lru(&mut self.cache) {
                Some(slot) => {
                    assert(before.slots[before.slots.len() - 1].1.0 == slot.1.0);
                    proof {
                        subject_model::lemma_detached(before, before.slots.len() - 1);
                    }
                    assert(self@.table.contains_key(slot.1.0));
                    self.drop_entry(slot.1.0);
                    self.shape_dirty = true;
                    assert(before.slots.remove(before.slots.len() - 1)
                        =~= before.slots.drop_last());
                    assert(self@ == (SubjectModel {
                        dirty: true,
                        ..before.detached(before.slots.len() - 1)
                    }));
                },
                None => {
                    break;
                },
            }
        }
    }

    /// Uses `subject` at `now` and returns the number of its entry. A subject without one gets a
    /// pending entry, and the second value says so.
    pub fn get_or_insert_with(&mut self, subject: u64, now: Instant, refresh_before: Duration) -> (
    joined: (u64, bool))
        requires
            old(self)@.wf(),
            old(self)@.next_id + 2 <= u64::MAX,
        ensures
            final(self)@.wf(),
            final(self)@ == old(self)@.joined(subject, now, refresh_before),
            joined.0 == old(self)@.joined_entry(subject),
            joined.1 == !recency::holds(old(self)@.slots, subject),
            final(self)@.table.contains_key(joined.0),
    {
        proof {
            subject_model::lemma_joined(self@, subject, now, refresh_before);
        }
        let ghost before = self@;
        let tick: u64 = self.tick(now);
        let found: Option<u64> = match recency::get_mut(&mut self.cache, subject) {
            Some(value) => {
                if value.1 < tick {
                    value.1 = tick;
                }
                Some(value.0)
            },
            None => None,
        };
        match found {
            Some(id) => {
                proof {
                    let i = choose|i: int|
                        recency::slot_at(before.slots, subject, i) && before.slots[i].1.0 == id && self@.slots
                            == seq![
                            (
                                subject,
                                (
                                    id,
                                    if before.slots[i].1.1 >= tick {
                                        before.slots[i].1.1
                                    } else {
                                        tick
                                    },
                                ),
                            ),
                        ] + before.slots.remove(i);
                    recency::lemma_position(before.slots, subject, i);
                    subject_model::lemma_promoted(before, i, tick as int);
                    assert(self@ == before.promoted(i, tick as int));
                }
                self.evict(tick);
                (id, false)
            },
            None => {
                assert(self@ == before);
                proof {
                    subject_model::lemma_evicted(before, tick as int);
                }
                self.evict(tick);
                let ghost room = self@;
                let id: u64 = self.next_id;
                let entry = Entry::pending(subject, now, id + 1, refresh_before);
                proof {
                    subject_model::lemma_inserted(room, subject, tick as int, entry);
                }
                let replaced = recency::push(&mut self.cache, subject, (id, tick));
                match replaced {
                    Some(slot) => {
                        let ghost last = room.slots.len() - 1;
                        assert(room.slots[last].1.0 == slot.1.0);
                        assert(self@.table.contains_key(slot.1.0));
                        self.drop_entry(slot.1.0);
                        self.shape_dirty = true;
                        assert(room.slots.remove(last) =~= room.slots.drop_last());
                    },
                    None => {},
                }
                self.table.insert(id, entry);
                self.next_id = id + 2;
                assert(self@ == room.inserted(subject, tick as int, entry));
                self.evict(tick);
                (id, true)
            },
        }
    }

    /// Uses `subject` at `now`, where its slot still names the entry `id`.
    pub fn touch(&mut self, subject: u64, id: u64, now: Instant) -> (matched: bool)
        requires
            old(self)@.wf(),
        ensures
            final(self)@.wf(),
            final(self)@ == old(self)@.touched(subject, id, now),
            matched == old(self)@.matches_entry(subject, id),
    {
        let ghost before = self@;
        let tick: u64 = self.tick(now);
        let matched = match recency::peek(&self.cache, subject) {
            Some(value) => value.0 == id,
            None => false,
        };
        proof {
            assert forall|i: int| recency::slot_at(before.slots, subject, i) implies recency::position(
                before.slots,
                subject,
            ) == i by {
                recency::lemma_position(before.slots, subject, i);
            }
        }
        assert(matched == before.matches_entry(subject, id));
        if matched {
            let ghost i = recency::position(before.slots, subject);
            match recency::get_mut(&mut self.cache, subject) {
                Some(value) => {
                    if value.1 < tick {
                        value.1 = tick;
                    }
                },
                None => {},
            }
            proof {
                subject_model::lemma_promoted(before, i, tick as int);
                assert(self@ == before.promoted(i, tick as int));
            }
        }
        self.evict(tick);
        matched
    }

    /// The entry of `subject` once the idle subjects have gone.
    pub fn find(&mut self, subject: u64, now: Instant) -> (found: Option<u64>)
        requires
            old(self)@.wf(),
        ensures
            final(self)@.wf(),
            final(self)@ == old(self)@.evicted(old(self)@.spec_tick(now)),
            match found {
                Some(id) => final(self)@.matches_entry(subject, id)
                    && final(self)@.table.contains_key(id),
                None => !recency::holds(final(self)@.slots, subject),
            },
    {
        let tick: u64 = self.tick(now);
        self.evict(tick);
        match recency::peek(&self.cache, subject) {
            Some(value) => {
                proof {
                    let i = choose|i: int|
                        recency::slot_at(self@.slots, subject, i) && *value == self@.slots[i].1;
                    recency::lemma_position(self@.slots, subject, i);
                    assert(self@.table.contains_key(self@.slots[i].1.0));
                }
                Some(value.0)
            },
            None => None,
        }
    }

    /// Removes the slot of `subject` and invalidates its entry.
    fn detach(&mut self, subject: u64) -> (removed: bool)
        requires
            old(self)@.wf(),
        ensures
            final(self)@.wf(),
            final(self)@ == old(self)@.removed(subject),
            removed == recency::holds(old(self)@.slots, subject),
    {
        let ghost before = self@;
        match recency::pop(&mut self.cache, subject) {
            Some(value) => {
                proof {
                    let i = choose|i: int|
                        recency::slot_at(before.slots, subject, i) && value == before.slots[i].1
                            && self@.slots == before.slots.remove(i);
                    recency::lemma_position(before.slots, subject, i);
                    subject_model::lemma_detached(before, i);
                    assert(before.table.contains_key(before.slots[i].1.0));
                }
                self.drop_entry(value.0);
                true
            },
            None => {
                assert(self@ == before);
                false
            },
        }
    }

    /// Drops `subject`, which lost its decision.
    pub fn remove(&mut self, subject: u64, now: Instant) -> (removed: bool)
        requires
            old(self)@.wf(),
        ensures
            final(self)@.wf(),
            final(self)@ == old(self)@.evicted(old(self)@.spec_tick(now)).removed(subject),
            removed == recency::holds(old(self)@.evicted(old(self)@.spec_tick(now)).slots, subject),
    {
        let tick: u64 = self.tick(now);
        self.evict(tick);
        self.detach(subject)
    }

    /// Drops `subject` where it still has the entry `id` and `removal` applies to that entry.
    pub fn remove_if(&mut self, subject: u64, id: u64, now: Instant, removal: Removal) -> (removed:
        bool)
        requires
            old(self)@.wf(),
        ensures
            final(self)@.wf(),
            final(self)@ == old(self)@.removed_if(subject, id, now, removal),
            removed == old(self)@.removes(subject, id, now, removal),
    {
        let found = self.find(subject, now);
        let matched = match found {
            Some(current) => current == id,
            None => false,
        };
        if !matched {
            return false;
        }
        let applies = match removal {
            Removal::Always => true,
            Removal::Stale => self.state_at(id, now) == EntryState::Stale,
            Removal::Failed(generation) => match self.table.get(&id) {
                Some(entry) => entry.pending_generation(generation)
                    && entry::decode_entry_state(entry.current.word)
                    == EntryState::Pending,
                None => false,
            },
        };
        if !applies {
            return false;
        }
        self.detach(subject)
    }

    /// State of the entry `id` at `now`. Looking at an expired entry makes it stale.
    pub fn state_at(&mut self, id: u64, now: Instant) -> (state: EntryState)
        requires
            old(self)@.wf(),
        ensures
            final(self)@.wf(),
            final(self)@ == old(self)@.looked(id, now),
            state == old(self)@.live_state(id, now),
    {
        proof {
            subject_model::lemma_looked(self@, id, now);
        }
        let ghost before = self.table@;
        match self.table.remove(&id) {
            Some(mut entry) => {
                let state = entry.state_at(now);
                self.table.insert(id, entry);
                assert(self.table@ =~= before.insert(id, before[id].latched(now)));
                state
            },
            None => {
                assert(self.table@ =~= before);
                EntryState::Stale
            },
        }
    }

    /// What a handle of the entry `id` sees at `now`.
    pub fn observed_at(&mut self, id: u64, now: Instant) -> (observed: Observed)
        requires
            old(self)@.wf(),
            old(self)@.table.contains_key(id) ==> old(self)@.table[id].state()
                != EntryState::Pending,
        ensures
            final(self)@.wf(),
            final(self)@ == old(self)@.looked(id, now),
            observed == if old(self)@.table.contains_key(id) {
                old(self)@.table[id].observed(now)
            } else {
                Observed::Stale
            },
    {
        proof {
            subject_model::lemma_looked(self@, id, now);
        }
        let ghost before = self.table@;
        match self.table.remove(&id) {
            Some(mut entry) => {
                let observed = entry.observed_at(now);
                self.table.insert(id, entry);
                assert(self.table@ =~= before.insert(id, before[id].latched(now)));
                observed
            },
            None => {
                assert(self.table@ =~= before);
                Observed::Stale
            },
        }
    }

    /// Every cached subject with its entry, the most recently used first.
    pub fn for_each(&self) -> (slots: Vec<(u64, (u64, u64))>)
        ensures
            slots@ == self@.slots,
    {
        recency::slots(&self.cache)
    }

    /// Drops every subject.
    pub fn clear(&mut self)
        requires
            old(self)@.wf(),
        ensures
            final(self)@.wf(),
            final(self)@ == old(self)@.cleared(),
    {
        let ghost before = self@;
        proof {
            subject_model::lemma_cleared(before);
        }
        let slots = recency::slots(&self.cache);
        let mut i: usize = 0;
        while i < slots.len()
            invariant
                self@.wf(),
                slots@ == before.slots,
                self@.slots == before.slots,
                0 <= i <= slots.len(),
                self@.dropped_from(i as int) == before.dropped_from(0),
            decreases slots.len() - i,
        {
            assert(self@.table.contains_key(self@.slots[i as int].1.0));
            proof {
                subject_model::lemma_dropped(self@, self@.slots[i as int].1.0);
            }
            self.drop_entry(slots[i].1.0);
            i = i + 1;
        }
        recency::clear(&mut self.cache);
    }
}

impl<P> SubjectMap<P> {
    /// Notes that a subject came or went.
    pub fn mark_dirty(&mut self)
        ensures
            final(self)@ == old(self)@.marked(),
    {
        self.shape_dirty = true;
    }

    /// Takes up the noted change of shape.
    pub fn clear_dirty(&mut self)
        ensures
            final(self)@ == old(self)@.unmarked(),
    {
        self.shape_dirty = false;
    }

    pub fn is_dirty(&self) -> (dirty: bool)
        ensures
            dirty == self@.dirty,
    {
        self.shape_dirty
    }

    /// Returns whether `count` more numbers can be given out.
    pub fn has_numbers(&self, count: u64) -> (enough: bool)
        ensures
            enough == (self@.next_id + count <= u64::MAX),
    {
        count <= u64::MAX - self.next_id
    }

    /// The entry `id`, with or without a slot.
    pub fn entry(&self, id: u64) -> (entry: Option<&Entry<P>>)
        ensures
            match entry {
                Some(entry) => self@.table.contains_key(id) && *entry == self@.table[id],
                None => !self@.table.contains_key(id),
            },
    {
        self.table.get(&id)
    }

    /// Authoritative and unexpired decision of the entry `id` at `now`.
    pub fn verdict_at(&mut self, id: u64, now: Instant) -> (verdict: Option<Decision>)
        requires
            old(self)@.wf(),
        ensures
            final(self)@.wf(),
            final(self)@ == old(self)@.looked(id, now),
            verdict == old(self)@.verdict(id, now),
    {
        match self.state_at(id, now) {
            EntryState::Allowed => Some(Decision::Allowed),
            EntryState::Denied => Some(Decision::Denied),
            EntryState::Pending | EntryState::Stale => None,
        }
    }

    /// Invalidates the entry `id`, with or without a slot.
    pub fn invalidate(&mut self, id: u64)
        requires
            old(self)@.wf(),
        ensures
            final(self)@.wf(),
            final(self)@ == if old(self)@.table.contains_key(id) {
                old(self)@.dropped(id)
            } else {
                old(self)@
            },
    {
        if self.table.contains_key(&id) {
            proof {
                subject_model::lemma_dropped(self@, id);
            }
            self.drop_entry(id);
        }
    }

    /// Installs a watched decision for a subject that the map knows.
    pub fn update(&mut self, subject: u64, decision: Decision, ttl: Duration, now: Instant)
        requires
            old(self)@.wf(),
        ensures
            final(self)@.wf(),
            final(self)@ == old(self)@.changed(subject, decision, ttl, now),
    {
        proof {
            subject_model::lemma_changed(self@, subject, decision, ttl, now);
        }
        match self.find(subject, now) {
            Some(id) => {
                let ghost before = self@;
                match self.table.remove(&id) {
                    Some(mut entry) => {
                        let snapshot = entry.decision_snapshot(
                            DecisionResult::plain(decision),
                            ttl,
                            now,
                        );
                        match entry.decide(snapshot) {
                            Some(pending) => {
                                self.aborted.push(pending.generation);
                            },
                            None => {},
                        }
                        self.table.insert(id, entry);
                        assert(self.table@ =~= before.table.insert(
                            id,
                            before.table[id].decided(snapshot),
                        ));
                    },
                    None => {},
                }
            },
            None => {},
        }
    }

    /// Drops a subject whose decision the authority withdrew.
    pub fn withdraw(&mut self, subject: u64, now: Instant)
        requires
            old(self)@.wf(),
        ensures
            final(self)@.wf(),
            final(self)@ == old(self)@.withdrawn(subject, now),
    {
        proof {
            subject_model::lemma_withdrawn(self@, subject, now);
        }
        if self.remove(subject, now) {
            self.mark_dirty();
        }
    }

    /// Puts a refresh in flight for the entry `id`, where one is due, and returns its number.
    pub fn claim_refresh(&mut self, id: u64, now: Instant) -> (generation: Option<u64>)
        requires
            old(self)@.wf(),
            old(self)@.next_id < u64::MAX,
        ensures
            final(self)@.wf(),
            old(self)@.table.contains_key(id) && old(self)@.table[id].refresh_due(now) ==> {
                &&& generation == Some(old(self)@.next_id)
                &&& final(self)@ == old(self)@.claimed(id)
            },
            !(old(self)@.table.contains_key(id) && old(self)@.table[id].refresh_due(now)) ==> {
                &&& generation is None
                &&& final(self)@ == old(self)@
            },
    {
        let ghost before = self@;
        match self.table.remove(&id) {
            Some(mut entry) => {
                let due = entry.refresh_due_at(now);
                if !due {
                    self.table.insert(id, entry);
                    assert(self.table@ =~= before.table);
                    return None;
                }
                proof {
                    subject_model::lemma_claimed(before, id, now);
                }
                let generation: u64 = self.next_id;
                entry.pending = Some(
                    PendingFetch {
                        generation,
                        delay: None,
                        refresh_from: Some(entry.current.word),
                    },
                );
                self.next_id = generation + 1;
                self.table.insert(id, entry);
                assert(self.table@ =~= before.claimed(id).table);
                Some(generation)
            },
            None => {
                assert(self.table@ =~= before.table);
                None
            },
        }
    }

    /// Gives up the refresh `generation`, if the entry `id` still awaits it.
    pub fn release_claim(&mut self, id: u64, generation: u64)
        requires
            old(self)@.wf(),
        ensures
            final(self)@.wf(),
            final(self)@ == old(self)@.released(id, generation),
    {
        proof {
            subject_model::lemma_released(self@, id, generation);
        }
        let ghost before = self@;
        match self.table.remove(&id) {
            Some(mut entry) => {
                let refresh = match &entry.pending {
                    Some(pending) => pending.refresh_from.is_some(),
                    None => false,
                };
                if refresh {
                    entry.replace_pending(generation, None);
                }
                self.table.insert(id, entry);
            },
            None => {},
        }
        assert(self.table@ =~= before.released(id, generation).table);
    }

    /// Ends the lookup `generation` of `subject` with `result`.
    ///
    /// The value returned is what the callers that joined the lookup see of it.
    pub fn apply_fetch_result(
        &mut self,
        subject: u64,
        id: u64,
        generation: u64,
        result: Result<DecisionResult<P>, DecisionSourceError>,
        config: &PolicyGateConfig,
        now: Instant,
    ) -> (returned: Result<(), DecisionSourceError>)
        requires
            old(self)@.wf(),
            old(self)@.next_id < u64::MAX,
        ensures
            final(self)@.wf(),
            final(self)@ == old(self)@.fetched(subject, id, generation, result, config@, now),
            fetch_returns(old(self)@, id, generation, result, config@, now, returned),
    {
        proof {
            subject_model::lemma_fetched(self@, subject, id, generation, result, config@, now);
        }
        let ghost before = self@;
        let mut entry = match self.table.remove(&id) {
            Some(entry) => entry,
            None => {
                assert(self.table@ =~= before.table);
                return match result {
                    Ok(_) => Ok(()),
                    Err(error) => Err(error),
                };
            },
        };
        if !entry.pending_generation(generation) {
            self.table.insert(id, entry);
            assert(self.table@ =~= before.table);
            return match result {
                Ok(_) => Ok(()),
                Err(error) => Err(error),
            };
        }
        let refresh_from: Option<u64> = match &entry.pending {
            Some(pending) => pending.refresh_from,
            None => None,
        };
        let ghost original = result;
        let prepared = match result {
            Ok(result) => {
                let snapshot = entry.decision_snapshot(
                    result,
                    config.decision_freshness_ttl(),
                    now,
                );
                if entry.is_expired_at(snapshot.word, now) {
                    Err(
                        DecisionSourceError::new(
                            DecisionSourceErrorKind::Transient,
                            "decision expired before publication",
                        ),
                    )
                } else {
                    Ok(snapshot)
                }
            },
            Err(error) => Err(error),
        };
        match prepared {
            Ok(snapshot) => {
                match refresh_from {
                    Some(from) => {
                        entry.complete_refresh(from, snapshot, now);
                    },
                    None => {
                        entry.decide(snapshot);
                    },
                }
                self.table.insert(id, entry);
                assert(self.table@ =~= before.fetched(
                    subject,
                    id,
                    generation,
                    original,
                    config@,
                    now,
                ).table);
                Ok(())
            },
            Err(error) => {
                if refresh_from.is_some() {
                    entry.fail_refresh(now, config.permanent_failure_cooldown());
                    self.table.insert(id, entry);
                    assert(self.table@ =~= before.fetched(
                        subject,
                        id,
                        generation,
                        original,
                        config@,
                        now,
                    ).table);
                    return Err(error);
                }
                if decision::is_permanent_status(&error) {
                    let retry: u64 = self.next_id;
                    entry.replace_pending(
                        generation,
                        Some(
                            PendingFetch {
                                generation: retry,
                                delay: Some(config.permanent_failure_cooldown()),
                                refresh_from: None,
                            },
                        ),
                    );
                    self.next_id = retry + 1;
                    self.table.insert(id, entry);
                    assert(self.table@ =~= before.fetched(
                        subject,
                        id,
                        generation,
                        original,
                        config@,
                        now,
                    ).table);
                    return Err(error);
                }
                self.table.insert(id, entry);
                assert(self.table@ =~= before.table);
                assert(self@ == before);
                if self.remove_if(subject, id, now, Removal::Failed(generation)) {
                    self.mark_dirty();
                }
                Err(error)
            },
        }
    }

    /// Lookups that no longer count, since they were last taken.
    pub fn take_aborted(&mut self) -> (aborted: Vec<u64>)
        ensures
            aborted@ == old(self)@.aborted,
            final(self)@ == (SubjectModel { aborted: Seq::empty(), ..old(self)@ }),
    {
        let mut aborted: Vec<u64> = Vec::new();
        std::mem::swap(&mut aborted, &mut self.aborted);
        aborted
    }

    /// Forgets the entry `id`, which no handle holds, if it has no slot.
    pub fn forget(&mut self, id: u64) -> (forgotten: bool)
        requires
            old(self)@.wf(),
        ensures
            final(self)@.wf(),
            forgotten == (old(self)@.table.contains_key(id) && !subject_model::attached(
                old(self)@.slots,
                id,
            )),
            final(self)@ == if forgotten {
                SubjectModel { table: old(self)@.table.remove(id), ..old(self)@ }
            } else {
                old(self)@
            },
    {
        let ghost before = self@;
        let subject: u64 = match self.table.get(&id) {
            Some(entry) => entry.subject,
            None => {
                return false;
            },
        };
        let named = match recency::peek(&self.cache, subject) {
            Some(value) => value.0 == id,
            None => false,
        };
        if named {
            proof {
                let i = choose|i: int|
                    recency::slot_at(before.slots, subject, i) && before.slots[i].1.0 == id;
                assert(subject_model::names_entry(before.slots, id, i));
            }
            return false;
        }
        proof {
            if subject_model::attached(before.slots, id) {
                let i = choose|i: int| subject_model::names_entry(before.slots, id, i);
                assert(before.table[before.slots[i].1.0].subject == before.slots[i].0);
                assert(recency::slot_at(before.slots, subject, i));
                recency::lemma_position(before.slots, subject, i);
                assert(false);
            }
        }
        let forgotten = self.table.remove(&id).is_some();
        proof {
            assert forall|j: int| 0 <= j < self@.slots.len() implies {
                &&& self@.table.contains_key(#[trigger] self@.slots[j].1.0)
                &&& self@.table[self@.slots[j].1.0].subject == self@.slots[j].0
            } by {
                assert(before.table.contains_key(before.slots[j].1.0));
                assert(!subject_model::names_entry(before.slots, id, j));
            }
            assert forall|other: u64| #[trigger] self@.table.contains_key(other) implies
                before.table.contains_key(other) && self@.table[other] == before.table[other] by {}
        }
        forgotten
    }
}

/// What the callers that joined a lookup see of its `result`: a decision whose deadline has come
/// when it is published is a transient failure, everything else is passed on.
pub open spec fn fetch_returns<P>(
    before: SubjectModel<P>,
    id: u64,
    generation: u64,
    result: Result<DecisionResult<P>, DecisionSourceError>,
    settings: crate::config::Settings,
    now: Instant,
    returned: Result<(), DecisionSourceError>,
) -> bool {
    let ttl = settings.decision_freshness_ttl;
    match result {
        Ok(_) => if before.awaits(id, generation) && before.fetch_failure(
            id,
            result,
            ttl,
            now,
        ) is Some {
            &&& returned matches Err(error)
            &&& error.spec_kind() == DecisionSourceErrorKind::Transient
            &&& error.text() == "decision expired before publication"@
        } else {
            returned is Ok
        },
        Err(error) => returned == Err::<(), DecisionSourceError>(error),
    }
}

} // verus!
