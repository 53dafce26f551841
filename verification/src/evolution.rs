//! What every step leaves as it was: which entries stay, which stay stale, and which decisions stand.

use vstd::prelude::*;

use crate::config::Settings;
use crate::decision;
use crate::decision::{Decision, DecisionResult, DecisionSourceError};
use crate::entry;
use crate::entry::{Entry, EntryState};
use crate::recency;
use crate::subject_model;
use crate::subject_model::{Removal, SubjectModel};
use crate::time::{Duration, Instant};

verus! {

/// How an entry may develop: one that has had a decision does not become pending again, and its
/// subject, its epoch and its refresh window stay.
pub open spec fn entry_evolves<P>(before: Entry<P>, after: Entry<P>) -> bool {
    &&& after.subject == before.subject
    &&& after.epoch == before.epoch
    &&& after.refresh_before == before.refresh_before
    &&& before.state() != EntryState::Pending ==> after.state() != EntryState::Pending
}

/// How the map may develop. Numbers are given out once, entries evolve, and an entry without a slot
/// stays without one, stale and without a lookup.
pub open spec fn evolves<P>(before: SubjectModel<P>, after: SubjectModel<P>) -> bool {
    &&& before.next_id <= after.next_id
    &&& forall|id: u64| #[trigger]
        after.table.contains_key(id) ==> before.table.contains_key(id) || before.next_id <= id
    &&& forall|id: u64| #[trigger]
        after.table.contains_key(id) && before.table.contains_key(id) ==> {
            &&& entry_evolves(before.table[id], after.table[id])
            &&& !subject_model::attached(before.slots, id) ==> !subject_model::attached(
                after.slots,
                id,
            )
        }
}

/// Whether an entry has its decision still, or has lost it: the deadline is the same, and state and
/// payload are as they were or gone.
pub open spec fn entry_keeps_decision<P>(before: Entry<P>, after: Entry<P>) -> bool {
    &&& after.deadline() == before.deadline()
    &&& after.state() == before.state() || after.state() == EntryState::Stale
    &&& after.current.payload == before.current.payload || after.current.payload is None
}

/// Whether no entry got a decision or another deadline.
pub open spec fn keeps_decisions<P>(before: SubjectModel<P>, after: SubjectModel<P>) -> bool {
    forall|id: u64| #[trigger]
        after.table.contains_key(id) ==> if before.table.contains_key(id) {
            entry_keeps_decision(before.table[id], after.table[id])
        } else {
            after.table[id].state() == EntryState::Pending || after.table[id].state()
                == EntryState::Stale
        }
}

/// Development is transitive.
pub proof fn lemma_evolves_trans<P>(a: SubjectModel<P>, b: SubjectModel<P>, c: SubjectModel<P>)
    requires
        a.wf(),
        b.wf(),
        evolves(a, b),
        evolves(b, c),
        b.table.dom().subset_of(c.table.dom()),
    ensures
        evolves(a, c),
        keeps_decisions(a, b) && keeps_decisions(b, c) && a.table.dom().subset_of(b.table.dom())
            ==> keeps_decisions(a, c),
{
    assert forall|id: u64| #[trigger] c.table.contains_key(id) implies a.table.contains_key(id)
        || a.next_id <= id by {
        if b.table.contains_key(id) {
        } else {
            assert(b.next_id <= id);
        }
    }
    assert forall|id: u64| #[trigger]
        c.table.contains_key(id) && a.table.contains_key(id) implies {
        &&& entry_evolves(a.table[id], c.table[id])
        &&& !subject_model::attached(a.slots, id) ==> !subject_model::attached(c.slots, id)
    } by {
        assert(id < a.next_id);
        assert(b.table.contains_key(id));
    }
    if keeps_decisions(a, b) && keeps_decisions(b, c) && a.table.dom().subset_of(b.table.dom()) {
        assert forall|id: u64| #[trigger]
            c.table.contains_key(id) implies if a.table.contains_key(id) {
            entry_keeps_decision(a.table[id], c.table[id])
        } else {
            c.table[id].state() == EntryState::Pending || c.table[id].state() == EntryState::Stale
        } by {
            if a.table.contains_key(id) {
                assert(b.table.dom().contains(id));
            }
        }
    }
}

/// Invalidating an entry keeps its deadline and its subject.
pub proof fn lemma_dropped_evolves<P>(m: SubjectModel<P>, id: u64)
    requires
        m.wf(),
        m.table.contains_key(id),
    ensures
        evolves(m, m.dropped(id)),
        keeps_decisions(m, m.dropped(id)),
{
    entry::lemma_word_parts(m.table[id].current.word);
}

/// Detaching a slot is a development that keeps the decisions.
pub proof fn lemma_detached_evolves<P>(m: SubjectModel<P>, i: int)
    requires
        m.wf(),
        0 <= i < m.slots.len(),
    ensures
        evolves(m, m.detached(i)),
        keeps_decisions(m, m.detached(i)),
{
    let id = m.slots[i].1.0;
    assert(m.table.contains_key(id));
    lemma_dropped_evolves(m, id);
    subject_model::lemma_remove_slot(m, i);
    subject_model::lemma_detached(m, i);
    assert forall|other: u64|
        !subject_model::attached(m.slots, other) implies !#[trigger] subject_model::attached(
        m.detached(i).slots,
        other,
    ) by {
        if other == id {
            assert(subject_model::names_entry(m.slots, id, i));
        }
    }
}

/// Eviction is a development that keeps the decisions.
pub proof fn lemma_evicted_evolves<P>(m: SubjectModel<P>, tick: int)
    requires
        m.wf(),
    ensures
        evolves(m, m.evicted(tick)),
        keeps_decisions(m, m.evicted(tick)),
        m.evicted(tick).wf(),
        m.evicted(tick).table.dom() == m.table.dom(),
    decreases m.slots.len(),
{
    subject_model::lemma_evicted(m, tick);
    if m.slots.len() > 0 && m.idle(m.slots.last(), tick) {
        let last = m.slots.len() - 1;
        subject_model::lemma_detached(m, last);
        lemma_detached_evolves(m, last);
        let next = SubjectModel { dirty: true, ..m.detached(last) };
        assert(next.wf());
        subject_model::lemma_evicted(next, tick);
        lemma_evicted_evolves(next, tick);
        lemma_evolves_trans(m, next, next.evicted(tick));
    }
}

/// Promotion is a development that keeps the decisions.
pub proof fn lemma_promoted_evolves<P>(m: SubjectModel<P>, i: int, tick: int)
    requires
        m.wf(),
        0 <= i < m.slots.len(),
        0 <= tick <= u64::MAX,
    ensures
        evolves(m, m.promoted(i, tick)),
        keeps_decisions(m, m.promoted(i, tick)),
{
    subject_model::lemma_promoted(m, i, tick);
}

/// A use of a subject is a development that keeps the decisions.
pub proof fn lemma_touched_evolves<P>(m: SubjectModel<P>, subject: u64, id: u64, now: Instant)
    requires
        m.wf(),
    ensures
        evolves(m, m.touched(subject, id, now)),
        keeps_decisions(m, m.touched(subject, id, now)),
        m.touched(subject, id, now).wf(),
        m.touched(subject, id, now).table.dom() == m.table.dom(),
{
    let tick = m.spec_tick(now);
    subject_model::lemma_touched(m, subject, id, now);
    if m.matches_entry(subject, id) {
        let i = recency::position(m.slots, subject);
        assert(recency::slot_at(m.slots, subject, i));
        subject_model::lemma_promoted(m, i, tick);
        lemma_promoted_evolves(m, i, tick);
        let p = m.promoted(i, tick);
        lemma_evicted_evolves(p, tick);
        lemma_evolves_trans(m, p, p.evicted(tick));
    } else {
        lemma_evicted_evolves(m, tick);
    }
}

/// Insertion is a development that keeps the decisions.
pub proof fn lemma_inserted_evolves<P>(m: SubjectModel<P>, subject: u64, tick: int, entry: Entry<P>)
    requires
        m.wf(),
        !recency::holds(m.slots, subject),
        0 <= tick <= u64::MAX,
        m.next_id + 2 <= u64::MAX,
        entry.wf(),
        entry.subject == subject,
        entry.state() == EntryState::Pending,
        entry.pending matches Some(pending) ==> pending.generation < m.next_id + 2,
    ensures
        evolves(m, m.inserted(subject, tick, entry)),
        keeps_decisions(m, m.inserted(subject, tick, entry)),
        m.table.dom().subset_of(m.inserted(subject, tick, entry).table.dom()),
{
    subject_model::lemma_inserted(m, subject, tick, entry);
    let room = if m.slots.len() == m.capacity {
        SubjectModel { dirty: true, ..m.detached(m.slots.len() - 1) }
    } else {
        m
    };
    if m.slots.len() == m.capacity {
        subject_model::lemma_detached(m, m.slots.len() - 1);
        lemma_detached_evolves(m, m.slots.len() - 1);
    }
    let n = m.inserted(subject, tick, entry);
    assert(!m.table.contains_key(m.next_id));
    assert forall|id: u64| #[trigger]
        n.table.contains_key(id) && m.table.contains_key(id) implies {
        &&& entry_evolves(m.table[id], n.table[id])
        &&& entry_keeps_decision(m.table[id], n.table[id])
        &&& !subject_model::attached(m.slots, id) ==> !subject_model::attached(n.slots, id)
    } by {
        assert(room.table.contains_key(id));
        if subject_model::attached(n.slots, id) {
            let j = choose|j: int| subject_model::names_entry(n.slots, id, j);
            assert(j > 0);
            assert(subject_model::names_entry(room.slots, id, j - 1));
        }
    }
}

/// Joining a subject is a development that keeps the decisions.
pub proof fn lemma_joined_evolves<P>(
    m: SubjectModel<P>,
    subject: u64,
    now: Instant,
    refresh_before: Duration,
)
    requires
        m.wf(),
        m.next_id + 2 <= u64::MAX,
    ensures
        evolves(m, m.joined(subject, now, refresh_before)),
        keeps_decisions(m, m.joined(subject, now, refresh_before)),
        m.table.dom().subset_of(m.joined(subject, now, refresh_before).table.dom()),
        m.joined(subject, now, refresh_before).wf(),
{
    let tick = m.spec_tick(now);
    subject_model::lemma_joined(m, subject, now, refresh_before);
    if recency::holds(m.slots, subject) {
        let i = recency::position(m.slots, subject);
        assert(recency::slot_at(m.slots, subject, i));
        subject_model::lemma_promoted(m, i, tick);
        lemma_promoted_evolves(m, i, tick);
        let p = m.promoted(i, tick);
        lemma_evicted_evolves(p, tick);
        lemma_evolves_trans(m, p, p.evicted(tick));
    } else {
        subject_model::lemma_evicted(m, tick);
        lemma_evicted_evolves(m, tick);
        let room = m.evicted(tick);
        let entry = entry::spec_pending::<P>(
            subject,
            now,
            (room.next_id + 1) as u64,
            refresh_before,
        );
        entry::lemma_word(EntryState::Pending, entry::NO_EXPIRY as int);
        subject_model::lemma_inserted(room, subject, tick, entry);
        lemma_inserted_evolves(room, subject, tick, entry);
        let n = room.inserted(subject, tick, entry);
        lemma_evolves_trans(m, room, n);
        lemma_evicted_evolves(n, tick);
        lemma_evolves_trans(m, n, n.evicted(tick));
    }
}

/// Looking at an entry is a development that keeps the decisions.
pub proof fn lemma_looked_evolves<P>(m: SubjectModel<P>, id: u64, now: Instant)
    requires
        m.wf(),
    ensures
        evolves(m, m.looked(id, now)),
        keeps_decisions(m, m.looked(id, now)),
        m.looked(id, now).wf(),
        m.looked(id, now).table.dom() == m.table.dom(),
{
    subject_model::lemma_looked(m, id, now);
    if m.table.contains_key(id) {
        entry::lemma_word_parts(m.table[id].current.word);
        subject_model::lemma_latched(m.table[id], now);
    }
}

/// Clearing is a development that keeps the decisions.
pub proof fn lemma_dropped_from_evolves<P>(m: SubjectModel<P>, i: int)
    requires
        m.wf(),
        0 <= i <= m.slots.len(),
    ensures
        evolves(m, m.dropped_from(i)),
        keeps_decisions(m, m.dropped_from(i)),
    decreases m.slots.len() - i,
{
    subject_model::lemma_dropped_from(m, i);
    if i < m.slots.len() {
        let id = m.slots[i].1.0;
        assert(m.table.contains_key(id));
        subject_model::lemma_dropped(m, id);
        lemma_dropped_evolves(m, id);
        subject_model::lemma_dropped_from(m.dropped(id), i + 1);
        lemma_dropped_from_evolves(m.dropped(id), i + 1);
        lemma_evolves_trans(m, m.dropped(id), m.dropped(id).dropped_from(i + 1));
    }
}

/// Clearing is a development that keeps the decisions.
pub proof fn lemma_cleared_evolves<P>(m: SubjectModel<P>)
    requires
        m.wf(),
    ensures
        evolves(m, m.cleared()),
        keeps_decisions(m, m.cleared()),
{
    subject_model::lemma_dropped_from(m, 0);
    lemma_dropped_from_evolves(m, 0);
    assert forall|id: u64| !#[trigger] subject_model::attached(m.cleared().slots, id) by {}
}

/// A conditional removal is a development that keeps the decisions.
pub proof fn lemma_removed_if_evolves<P>(
    m: SubjectModel<P>,
    subject: u64,
    id: u64,
    now: Instant,
    removal: Removal,
)
    requires
        m.wf(),
    ensures
        evolves(m, m.removed_if(subject, id, now, removal)),
        keeps_decisions(m, m.removed_if(subject, id, now, removal)),
        m.removed_if(subject, id, now, removal).wf(),
        m.removed_if(subject, id, now, removal).table.dom() == m.table.dom(),
{
    let tick = m.spec_tick(now);
    subject_model::lemma_removed_if(m, subject, id, now, removal);
    subject_model::lemma_evicted(m, tick);
    lemma_evicted_evolves(m, tick);
    let room = m.evicted(tick);
    lemma_looked_evolves(room, id, now);
    let seen = if removal is Stale {
        room.looked(id, now)
    } else {
        room
    };
    lemma_evolves_trans(m, room, seen);
    if recency::holds(seen.slots, subject) {
        let i = recency::position(seen.slots, subject);
        assert(recency::slot_at(seen.slots, subject, i));
        subject_model::lemma_detached(seen, i);
        lemma_detached_evolves(seen, i);
        lemma_evolves_trans(m, seen, seen.detached(i));
    }
}

/// A watch change is a development.
pub proof fn lemma_changed_evolves<P>(
    m: SubjectModel<P>,
    subject: u64,
    decision: Decision,
    ttl: Duration,
    now: Instant,
)
    requires
        m.wf(),
    ensures
        evolves(m, m.changed(subject, decision, ttl, now)),
{
    let tick = m.spec_tick(now);
    lemma_evicted_evolves(m, tick);
    let room = m.evicted(tick);
    subject_model::lemma_changed(m, subject, decision, ttl, now);
    if recency::holds(room.slots, subject) {
        let i = recency::position(room.slots, subject);
        assert(recency::slot_at(room.slots, subject, i));
        let id = room.slots[i].1.0;
        assert(room.table.contains_key(id));
        let result = DecisionResult { decision, payload: None, valid_until: None };
        subject_model::lemma_snapshot(room.table[id], result, ttl, now);
        lemma_evolves_trans(m, room, m.changed(subject, decision, ttl, now));
    }
}

/// A withdrawal is a development that keeps the decisions.
pub proof fn lemma_withdrawn_evolves<P>(m: SubjectModel<P>, subject: u64, now: Instant)
    requires
        m.wf(),
    ensures
        evolves(m, m.withdrawn(subject, now)),
        keeps_decisions(m, m.withdrawn(subject, now)),
{
    let tick = m.spec_tick(now);
    lemma_evicted_evolves(m, tick);
    let room = m.evicted(tick);
    if recency::holds(room.slots, subject) {
        let i = recency::position(room.slots, subject);
        assert(recency::slot_at(room.slots, subject, i));
        subject_model::lemma_detached(room, i);
        lemma_detached_evolves(room, i);
        lemma_evolves_trans(m, room, room.detached(i));
    }
}

/// Starting and giving up a refresh are developments that keep the decisions.
pub proof fn lemma_claimed_evolves<P>(m: SubjectModel<P>, id: u64, now: Instant)
    requires
        m.wf(),
        m.table.contains_key(id),
        m.table[id].refresh_due(now),
        m.next_id < u64::MAX,
    ensures
        evolves(m, m.claimed(id)),
        keeps_decisions(m, m.claimed(id)),
{
    subject_model::lemma_claimed(m, id, now);
}

pub proof fn lemma_released_evolves<P>(m: SubjectModel<P>, id: u64, generation: u64)
    requires
        m.wf(),
    ensures
        evolves(m, m.released(id, generation)),
        keeps_decisions(m, m.released(id, generation)),
{
    subject_model::lemma_released(m, id, generation);
}

/// The end of a lookup is a development.
pub proof fn lemma_fetched_evolves<P>(
    m: SubjectModel<P>,
    subject: u64,
    id: u64,
    generation: u64,
    result: Result<DecisionResult<P>, DecisionSourceError>,
    settings: Settings,
    now: Instant,
)
    requires
        m.wf(),
        m.next_id < u64::MAX,
    ensures
        evolves(m, m.fetched(subject, id, generation, result, settings, now)),
        m.fetch_failure(id, result, settings.decision_freshness_ttl, now) is Some
            ==> keeps_decisions(m, m.fetched(subject, id, generation, result, settings, now)),
{
    subject_model::lemma_fetched(m, subject, id, generation, result, settings, now);
    if m.awaits(id, generation) {
        let entry = m.table[id];
        let ttl = settings.decision_freshness_ttl;
        if entry.pending->0.refresh_from is Some {
            entry::lemma_word_parts(entry.pending->0.refresh_from->0);
        }
        match m.fetch_failure(id, result, ttl, now) {
            None => {
                subject_model::lemma_snapshot(entry, result->Ok_0, ttl, now);
            },
            Some(kind) => {
                if entry.pending->0.refresh_from is None && !decision::ends_admission(kind) {
                    lemma_removed_if_evolves(m, subject, id, now, Removal::Failed(generation));
                }
            },
        }
    }
}

} // verus!
