//! Laws of lookups that end without a decision, of what their callers see, and of what is counted.

use vstd::prelude::*;

use crate::decision;
use crate::decision::{DecisionResult, DecisionSourceError, DecisionSourceErrorKind};
use crate::entry;
use crate::entry::{EntryState, PendingFetch};
use crate::evolution;
use crate::gate;
use crate::gate::GateModel;
use crate::laws::admission;
use crate::laws::lifetime;
use crate::metrics::MetricEvent;
use crate::recency;
use crate::subject_model;
use crate::subject_model::SubjectModel;
use crate::subjects;
use crate::time::Instant;

verus! {

/// After a permanent or protocol failure the subject stays pending, and its next lookup is a new one
/// that waits out the cooldown. Nothing else changes.
pub proof fn a_permanent_failure_is_followed_by_a_delayed_lookup<P>(
    gate: GateModel<P>,
    subject: u64,
    id: u64,
    generation: u64,
    error: DecisionSourceError,
    now: Instant,
    at: Instant,
)
    requires
        gate.wf(),
        gate.has_numbers(),
        gate.subjects.awaits(id, generation),
        gate.subjects.table[id].state() == EntryState::Pending,
        error.spec_kind() == DecisionSourceErrorKind::Permanent || error.spec_kind()
            == DecisionSourceErrorKind::Wire,
    ensures
        ({
            let after = gate.fetched(subject, id, generation, Err(error), now);
            let entry = after.subjects.table[id];
            &&& entry.live_state(at) == EntryState::Pending
            &&& entry.pending == Some(
                PendingFetch {
                    generation: gate.subjects.next_id,
                    delay: Some(gate.settings.permanent_failure_cooldown),
                    refresh_from: None,
                },
            )
            &&& after.subjects.next_id == gate.subjects.next_id + 1
            &&& after.subjects.slots == gate.subjects.slots
            &&& after.subjects.aborted == gate.subjects.aborted
            &&& after.snapshot == gate.snapshot
            &&& after.events == gate.events
            &&& forall|other: u64|
                other != id && gate.subjects.table.contains_key(other)
                    ==> #[trigger] after.subjects.table[other] == gate.subjects.table[other]
        }),
{
    entry::lemma_word_parts(gate.subjects.table[id].current.word);
}

/// After a transient failure, or an answer that comes too late, the subject is not cached any more,
/// the entry is stale for everybody at every instant, and no lookup of it is in flight. Subjects that
/// stay in the map keep their entries.
pub proof fn a_transient_failure_takes_the_subject_out<P>(
    gate: GateModel<P>,
    subject: u64,
    id: u64,
    generation: u64,
    result: Result<DecisionResult<P>, DecisionSourceError>,
    now: Instant,
    at: Instant,
    i: int,
)
    requires
        gate.wf(),
        gate.subjects.matches_entry(subject, id),
        gate.subjects.awaits(id, generation),
        gate.subjects.table[id].state() == EntryState::Pending,
        lifetime::in_reach(
            gate.subjects.table[id].epoch,
            now,
            gate.settings.decision_freshness_ttl,
            now,
        ),
        match result {
            Ok(answer) => !lifetime::in_force(
                answer,
                gate.settings.decision_freshness_ttl,
                now,
                now,
            ),
            Err(error) => error.spec_kind() == DecisionSourceErrorKind::Transient,
        },
    ensures
        ({
            let after = gate.fetched(subject, id, generation, result, now).subjects;
            &&& !recency::holds(after.slots, subject)
            &&& after.live_state(id, at) == EntryState::Stale
            &&& after.table.contains_key(id) && after.table[id].pending is None
            &&& 0 <= i < after.slots.len() ==> {
                &&& after.table[after.slots[i].1.0] == gate.subjects.table[after.slots[i].1.0]
                &&& recency::holds(gate.subjects.slots, after.slots[i].0)
            }
            &&& after.next_id == gate.subjects.next_id
        }),
{
    lifetime::a_lookup_fails_only_with_its_source_or_too_late(gate, id, generation, result, now);
    let m = gate.subjects;
    let tick = m.spec_tick(now);
    subject_model::lemma_evicted(m, tick);
    let room = m.evicted(tick);
    let p = recency::position(m.slots, subject);
    assert(recency::slot_at(m.slots, subject, p));
    assert(m.table.contains_key(m.slots[p].1.0));
    let after = gate.fetched(subject, id, generation, result, now).subjects;
    if recency::holds(room.slots, subject) {
        let j = recency::position(room.slots, subject);
        assert(recency::slot_at(room.slots, subject, j));
        admission::lemma_eviction_keeps_entries(m, tick, j);
        recency::lemma_position(m.slots, subject, j);
        subject_model::lemma_detached(room, j);
        subject_model::lemma_remove_slot(room, j);
        subject_model::lemma_invalidated(room.table[id]);
        assert(after.slots == room.slots.remove(j));
        assert(!subject_model::attached(after.slots, id));
        if 0 <= i < after.slots.len() {
            let k = if i < j {
                i
            } else {
                i + 1
            };
            assert(after.slots[i] == room.slots[k]);
            admission::lemma_eviction_keeps_entries(m, tick, k);
            assert(room.slots[k].1.0 != room.slots[j].1.0);
            assert(recency::slot_at(m.slots, after.slots[i].0, k));
        }
    } else {
        evolution::lemma_evicted_evolves(m, tick);
        assert(room.table.contains_key(id));
        lemma_detached_is_stale(room, subject, id, at);
        if 0 <= i < after.slots.len() {
            assert(after.slots[i] == room.slots[i]);
            admission::lemma_eviction_keeps_entries(m, tick, i);
            assert(recency::slot_at(m.slots, after.slots[i].0, i));
        }
    }
}

/// An entry of a subject without a slot is stale.
proof fn lemma_detached_is_stale<P>(m: SubjectModel<P>, subject: u64, id: u64, at: Instant)
    requires
        m.wf(),
        !recency::holds(m.slots, subject),
        m.table.contains_key(id),
        m.table[id].subject == subject,
    ensures
        m.live_state(id, at) == EntryState::Stale,
        m.table[id].pending is None,
{
    if subject_model::attached(m.slots, id) {
        let j = choose|j: int| subject_model::names_entry(m.slots, id, j);
        assert(m.table[m.slots[j].1.0].subject == m.slots[j].0);
        assert(recency::slot_at(m.slots, subject, j));
    }
}

/// The callers of a lookup see the failure that the source reported, as it is. They see success
/// where its answer was in force when it was published, and a transient failure where it was not.
pub proof fn callers_see_what_became_of_the_lookup<P>(
    gate: GateModel<P>,
    id: u64,
    generation: u64,
    result: Result<DecisionResult<P>, DecisionSourceError>,
    now: Instant,
    returned: Result<(), DecisionSourceError>,
)
    requires
        subjects::fetch_returns(
            gate.subjects,
            id,
            generation,
            result,
            gate.settings,
            now,
            returned,
        ),
        gate.subjects.awaits(id, generation) ==> lifetime::in_reach(
            gate.subjects.table[id].epoch,
            now,
            gate.settings.decision_freshness_ttl,
            now,
        ),
    ensures
        match result {
            Err(error) => returned == Err::<(), DecisionSourceError>(error),
            Ok(answer) => if !gate.subjects.awaits(id, generation) || lifetime::in_force(
                answer,
                gate.settings.decision_freshness_ttl,
                now,
                now,
            ) {
                returned is Ok
            } else {
                &&& returned matches Err(error)
                &&& error.spec_kind() == DecisionSourceErrorKind::Transient
                &&& error.text() == "decision expired before publication"@
            },
        },
{
    if gate.subjects.awaits(id, generation) {
        lifetime::a_lookup_fails_only_with_its_source_or_too_late(
            gate,
            id,
            generation,
            result,
            now,
        );
    }
}

/// Permanent and protocol failures end an admission; a transient one does not.
pub proof fn only_transient_failures_may_be_retried(kind: DecisionSourceErrorKind)
    ensures
        decision::ends_admission(DecisionSourceErrorKind::Permanent),
        decision::ends_admission(DecisionSourceErrorKind::Wire),
        !decision::ends_admission(DecisionSourceErrorKind::Transient),
        decision::ends_admission(kind) || kind == DecisionSourceErrorKind::Transient,
{
}

/// Every lookup that fails is counted as such, once; a protocol violation is counted besides, and
/// before. A lookup that succeeds counts nothing.
pub proof fn a_failed_lookup_is_counted<P>(
    gate: GateModel<P>,
    failure: Option<DecisionSourceErrorKind>,
)
    ensures
        ({
            let after = gate.failure_counted(failure);
            &&& after.subjects == gate.subjects
            &&& after.snapshot == gate.snapshot
            &&& after.connected == gate.connected
            &&& match failure {
                None => after.events == gate.events,
                Some(DecisionSourceErrorKind::Wire) => after.events == gate.events.push(
                    MetricEvent::WireFailure,
                ).push(MetricEvent::UnaryFailure),
                Some(DecisionSourceErrorKind::Permanent) => after.events == gate.events.push(
                    MetricEvent::UnaryFailure,
                ),
                Some(DecisionSourceErrorKind::Transient) => after.events == gate.events.push(
                    MetricEvent::UnaryFailure,
                ),
            }
        }),
        gate::failure_events(None).len() == 0,
{
    let after = gate.failure_counted(failure);
    match failure {
        None => {
            assert(after.events =~= gate.events);
        },
        Some(DecisionSourceErrorKind::Wire) => {
            assert(after.events =~= gate.events.push(MetricEvent::WireFailure).push(
                MetricEvent::UnaryFailure,
            ));
        },
        Some(_) => {
            assert(after.events =~= gate.events.push(MetricEvent::UnaryFailure));
        },
    }
}

/// A refresh that the queue did not take is over, one that it took stays in flight; a lookup that
/// resolves a pending subject is never given up in this way. The decision stays.
pub proof fn only_a_refresh_is_given_up<P>(
    gate: GateModel<P>,
    id: u64,
    generation: u64,
    queued: bool,
    now: Instant,
)
    requires
        gate.wf(),
        gate.subjects.table.contains_key(id),
        gate.subjects.table[id].awaits(generation),
    ensures
        ({
            let after = gate.access_finished(id, generation, queued, now);
            let before = gate.subjects.table[id];
            &&& after.subjects.table[id].pending == if !queued
                && before.pending->0.refresh_from is Some {
                None
            } else {
                before.pending
            }
            &&& after.subjects.verdict(id, now) == gate.subjects.verdict(id, now)
            &&& after.subjects.slots == gate.subjects.slots
            &&& after.subjects.next_id == gate.subjects.next_id
            &&& after.events == gate.events
        }),
{
    let kept = if queued {
        gate.subjects
    } else {
        gate.subjects.released(id, generation)
    };
    subject_model::lemma_released(gate.subjects, id, generation);
    subject_model::lemma_latched(kept.table[id], now);
}

} // verus!
