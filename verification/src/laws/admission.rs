//! Laws of admission: what a handle rests on, when an admission ends, and how it retries.

use vstd::prelude::*;

use crate::admission::Admission;
use crate::admitting::{AdmitCall, AdmitStep, ConnectionWait, FetchWait, SleepWait};
use crate::decision;
use crate::decision::{Decision, DecisionResult, DecisionSourceError, DecisionSourceErrorKind};
use crate::entry;
use crate::entry::EntryState;
use crate::gate::{Access, GateModel};
use crate::metrics::MetricEvent;
use crate::recency;
use crate::subject_model;
use crate::time::{Instant, MAX_SPAN_NANOS};

verus! {

/// Whether a step that ends in an admission ends in one whose decision is authoritative at `now`.
pub open spec fn rests_on_a_decision<P>(step: (GateModel<P>, AdmitStep), now: Instant) -> bool {
    step.1 matches AdmitStep::Done(Some(admission)) ==> {
        &&& step.0.subjects.verdict(admission.entry, now) is Some
        &&& step.0.admitted(admission.entry)
    }
}

proof fn lemma_access_rests_on_a_decision<P>(
    gate: GateModel<P>,
    id: u64,
    deadline: Option<Instant>,
    now: Instant,
)
    requires
        gate.wf(),
    ensures
        gate.accessed(id, deadline, now).1 matches Access::Ready(admission) ==> {
            &&& admission.entry == id
            &&& gate.accessed(id, deadline, now).0.subjects.verdict(id, now) is Some
            &&& gate.accessed(id, deadline, now).0.admitted(id)
        },
        gate.accessed(id, deadline, now).1 matches Access::Enqueue { admission, .. } ==> {
            &&& admission.entry == id
            &&& gate.accessed(id, deadline, now).0.subjects.verdict(id, now) is Some
            &&& gate.accessed(id, deadline, now).0.admitted(id)
        },
{
    if gate.subjects.table.contains_key(id) {
        subject_model::lemma_latched(gate.subjects.table[id], now);
    }
}

/// A cached read yields a handle only of an authoritative and unexpired decision.
pub proof fn a_cached_read_rests_on_a_decision<P>(gate: GateModel<P>, subject: u64, now: Instant)
    requires
        gate.wf(),
    ensures
        gate.checked(subject, now).1 matches Access::Ready(admission)
            ==> gate.checked(subject, now).0.subjects.verdict(admission.entry, now) is Some
            && gate.checked(subject, now).0.admitted(admission.entry),
        gate.checked(subject, now).1 matches Access::Enqueue { admission, .. }
            ==> gate.checked(subject, now).0.subjects.verdict(admission.entry, now) is Some
            && gate.checked(subject, now).0.admitted(admission.entry),
        gate.peeked(subject, now).1 matches Some(admission) ==> gate.peeked(
            subject,
            now,
        ).0.subjects.verdict(admission.entry, now) is Some && gate.peeked(subject, now).0.admitted(
            admission.entry,
        ),
{
    let id = gate.snapshot[subject];
    subject_model::lemma_looked(gate.subjects, id, now);
    let seen = gate.looked(id, now);
    subject_model::lemma_touched(seen.subjects, subject, id, now);
    let used = seen.with_subjects(seen.subjects.touched(subject, id, now));
    lemma_access_rests_on_a_decision(used, id, None, now);
    if used.subjects.table.contains_key(id) {
        subject_model::lemma_latched(used.subjects.table[id], now);
    }
}

/// An admission yields a handle only of an authoritative and unexpired decision.
pub proof fn an_attempt_rests_on_a_decision<P>(
    gate: GateModel<P>,
    call: AdmitCall,
    wait: ConnectionWait,
    now: Instant,
)
    requires
        gate.wf(),
        gate.subjects.next_id + 2 <= u64::MAX,
    ensures
        rests_on_a_decision(gate.admit_connected(call, wait, now), now),
{
    let id = gate.subjects.joined_entry(call.subject);
    subject_model::lemma_joined(
        gate.subjects,
        call.subject,
        now,
        gate.settings.refresh_before_expiry,
    );
    let joined = gate.joined(call.subject, now);
    assert(joined.wf());
    subject_model::lemma_looked(joined.subjects, id, now);
    let seen = joined.looked(id, now).emit(MetricEvent::MapHit);
    lemma_access_rests_on_a_decision(seen, id, Some(call.deadline), now);
}

/// The end of a lookup yields a handle only of an authoritative and unexpired decision.
pub proof fn a_lookup_rests_on_a_decision<P>(
    gate: GateModel<P>,
    call: AdmitCall,
    id: u64,
    wait: FetchWait,
    now: Instant,
)
    requires
        gate.wf(),
    ensures
        rests_on_a_decision(gate.admit_fetched(call, id, wait, now), now),
{
    subject_model::lemma_looked(gate.subjects, id, now);
    lemma_access_rests_on_a_decision(gate, id, Some(call.deadline), now);
    lemma_access_rests_on_a_decision(gate.looked(id, now), id, Some(call.deadline), now);
}

/// The end of a wait for the refresh queue yields a handle only of an authoritative and unexpired
/// decision.
pub proof fn a_queued_access_rests_on_a_decision<P>(
    gate: GateModel<P>,
    call: AdmitCall,
    id: u64,
    generation: u64,
    late: bool,
    queued: bool,
    now: Instant,
)
    requires
        gate.wf(),
    ensures
        rests_on_a_decision(gate.admit_queued(call, id, generation, late, queued, now), now),
{
    if gate.subjects.table.contains_key(id) {
        subject_model::lemma_latched(gate.subjects.table[id], now);
    }
}

/// While the watch is down an attempt yields no handle.
pub proof fn no_admission_while_the_watch_is_down<P>(
    gate: GateModel<P>,
    call: AdmitCall,
    wait: ConnectionWait,
    now: Instant,
)
    requires
        !gate.connected,
    ensures
        gate.admit_connected(call, wait, now).1 !is Done || gate.admit_connected(
            call,
            wait,
            now,
        ).1 == AdmitStep::Done(None),
{
}

/// From its deadline on an attempt yields no handle, and the timeout is counted once.
pub proof fn an_attempt_after_the_deadline_fails<P>(gate: GateModel<P>, call: AdmitCall, now: Instant)
    requires
        now.nanos >= call.deadline.nanos,
    ensures
        gate.admit_connected(call, ConnectionWait::Connected, now).1 == AdmitStep::Done(None),
        gate.admit_connected(call, ConnectionWait::Connected, now).0.events == gate.joined(
            call.subject,
            now,
        ).events.push(MetricEvent::AdmissionTimeout),
{
}

/// After the watcher is gone every admission fails at its wait for the connection.
pub proof fn no_admission_after_the_watcher_is_gone<P>(
    gate: GateModel<P>,
    call: AdmitCall,
    now: Instant,
)
    ensures
        gate.admit_connected(call, ConnectionWait::Closed, now) == (gate, AdmitStep::Done(None)),
{
}

/// Admissions of one subject share the lookup in flight: each of them waits for that lookup, and
/// none starts another.
pub proof fn concurrent_admissions_share_one_lookup<P>(
    gate: GateModel<P>,
    call: AdmitCall,
    id: u64,
    now: Instant,
)
    requires
        gate.wf(),
        gate.connected,
        now.nanos < call.deadline.nanos,
        gate.subjects.matches_entry(call.subject, id),
        gate.subjects.table[id].state() == EntryState::Pending,
    ensures
        ({
            let (after, step) = gate.admit_connected(call, ConnectionWait::Connected, now);
            &&& step == AdmitStep::AwaitFetch {
                call,
                entry: id,
                generation: gate.subjects.table[id].pending->0.generation,
            }
            &&& after.subjects.next_id == gate.subjects.next_id
            &&& after.subjects.table[id].pending == gate.subjects.table[id].pending
        }),
{
    let m = gate.subjects;
    let tick = m.spec_tick(now);
    let i = recency::position(m.slots, call.subject);
    assert(recency::slot_at(m.slots, call.subject, i));
    assert(m.table.contains_key(m.slots[i].1.0));
    let p = m.promoted(i, tick);
    subject_model::lemma_promoted(m, i, tick);
    subject_model::lemma_evicted(p, tick);
    subject_model::lemma_front_survives(p, tick);
    entry::lemma_word_parts(m.table[id].current.word);
}

/// An admission does not serve a stale or expired decision: it takes the subject out and starts over,
/// so that the decision is fetched again.
pub proof fn a_stale_decision_is_fetched_again<P>(
    gate: GateModel<P>,
    call: AdmitCall,
    id: u64,
    now: Instant,
)
    requires
        gate.wf(),
        gate.connected,
        now.nanos < call.deadline.nanos,
        gate.subjects.matches_entry(call.subject, id),
        gate.subjects.live_state(id, now) == EntryState::Stale,
    ensures
        ({
            let (after, step) = gate.admit_connected(call, ConnectionWait::Connected, now);
            &&& step == AdmitStep::AwaitConnection(call)
            &&& !recency::holds(after.subjects.slots, call.subject)
            &&& after.connected
        }),
{
    let m = gate.subjects;
    let tick = m.spec_tick(now);
    let i = recency::position(m.slots, call.subject);
    assert(recency::slot_at(m.slots, call.subject, i));
    assert(m.table.contains_key(m.slots[i].1.0));
    let p = m.promoted(i, tick);
    subject_model::lemma_promoted(m, i, tick);
    subject_model::lemma_evicted(p, tick);
    subject_model::lemma_front_survives(p, tick);
    let joined = gate.joined(call.subject, now);
    let seen = joined.looked(id, now);
    subject_model::lemma_looked(joined.subjects, id, now);
    subject_model::lemma_latched(joined.subjects.table[id], now);
    subject_model::lemma_evicted(seen.subjects, tick);
    subject_model::lemma_front_survives(seen.subjects, tick);
    let room = seen.subjects.evicted(tick);
    assert(recency::slot_at(room.slots, call.subject, 0));
    recency::lemma_position(room.slots, call.subject, 0);
    subject_model::lemma_looked(room, id, now);
    subject_model::lemma_detached(room.looked(id, now), 0);
}

/// Whether the lookup `generation` of `subject` is in flight, for the entry `id`.
pub open spec fn in_flight<P>(gate: GateModel<P>, subject: u64, id: u64, generation: u64) -> bool {
    &&& gate.wf()
    &&& gate.connected
    &&& gate.subjects.matches_entry(subject, id)
    &&& gate.subjects.awaits(id, generation)
    &&& gate.subjects.table[id].state() == EntryState::Pending
}

/// An attempt at an unknown subject starts one lookup.
pub proof fn lemma_first_attempt<P>(gate: GateModel<P>, call: AdmitCall, now: Instant)
    requires
        gate.wf(),
        gate.connected,
        gate.subjects.next_id + 2 <= u64::MAX,
        !recency::holds(gate.subjects.slots, call.subject),
        now.nanos < call.deadline.nanos,
    ensures
        ({
            let (after, step) = gate.admit_connected(call, ConnectionWait::Connected, now);
            let id = gate.subjects.next_id;
            let generation = (id + 1) as u64;
            &&& step == AdmitStep::AwaitFetch { call, entry: id, generation }
            &&& in_flight(after, call.subject, id, generation)
            &&& after.subjects.next_id == gate.subjects.next_id + 2
        }),
{
    let m = gate.subjects;
    let tick = m.spec_tick(now);
    let refresh_before = gate.settings.refresh_before_expiry;
    let id = m.next_id;
    subject_model::lemma_joined(m, call.subject, now, refresh_before);
    subject_model::lemma_evicted(m, tick);
    let room = m.evicted(tick);
    let entry = entry::spec_pending::<P>(
        call.subject,
        now,
        (room.next_id + 1) as u64,
        refresh_before,
    );
    entry::lemma_word(EntryState::Pending, entry::NO_EXPIRY as int);
    subject_model::lemma_inserted(room, call.subject, tick, entry);
    let n = room.inserted(call.subject, tick, entry);
    subject_model::lemma_evicted(n, tick);
    subject_model::lemma_front_survives(n, tick);
    let joined = gate.joined(call.subject, now);
    assert(joined.subjects.table[id] == entry);
    assert(recency::slot_at(joined.subjects.slots, call.subject, 0));
    recency::lemma_position(joined.subjects.slots, call.subject, 0);
    subject_model::lemma_looked(joined.subjects, id, now);
}

/// An attempt at a subject whose lookup is in flight joins that lookup and leaves it in flight.
pub proof fn lemma_further_attempt<P>(
    gate: GateModel<P>,
    call: AdmitCall,
    id: u64,
    generation: u64,
    now: Instant,
)
    requires
        in_flight(gate, call.subject, id, generation),
        now.nanos < call.deadline.nanos,
    ensures
        ({
            let (after, step) = gate.admit_connected(call, ConnectionWait::Connected, now);
            &&& step == AdmitStep::AwaitFetch { call, entry: id, generation }
            &&& in_flight(after, call.subject, id, generation)
            &&& after.subjects.next_id == gate.subjects.next_id
        }),
{
    let m = gate.subjects;
    let tick = m.spec_tick(now);
    let i = recency::position(m.slots, call.subject);
    assert(recency::slot_at(m.slots, call.subject, i));
    let p = m.promoted(i, tick);
    subject_model::lemma_promoted(m, i, tick);
    subject_model::lemma_evicted(p, tick);
    subject_model::lemma_front_survives(p, tick);
    entry::lemma_word_parts(m.table[id].current.word);
    let joined = gate.joined(call.subject, now);
    assert(recency::slot_at(joined.subjects.slots, call.subject, 0));
    recency::lemma_position(joined.subjects.slots, call.subject, 0);
    subject_model::lemma_looked(joined.subjects, id, now);
}

/// State after attempts of these admissions, each at its instant and with the watch up.
pub open spec fn attempted<P>(gate: GateModel<P>, calls: Seq<(AdmitCall, Instant)>) -> GateModel<P>
    decreases calls.len(),
{
    if calls.len() == 0 {
        gate
    } else {
        attempted(gate, calls.drop_last()).admit_connected(
            calls.last().0,
            ConnectionWait::Connected,
            calls.last().1,
        ).0
    }
}

/// What the attempt `i` of these admissions waits for.
pub open spec fn attempt_step<P>(
    gate: GateModel<P>,
    calls: Seq<(AdmitCall, Instant)>,
    i: int,
) -> AdmitStep {
    attempted(gate, calls.take(i)).admit_connected(
        calls[i].0,
        ConnectionWait::Connected,
        calls[i].1,
    ).1
}

/// Whether these are attempts of admissions of `subject` in time.
pub open spec fn in_time(calls: Seq<(AdmitCall, Instant)>, subject: u64) -> bool {
    forall|i: int|
        0 <= i < calls.len() ==> (#[trigger] calls[i]).0.subject == subject && calls[i].1.nanos
            < calls[i].0.deadline.nanos
}

proof fn lemma_flight_after_attempts<P>(
    gate: GateModel<P>,
    subject: u64,
    calls: Seq<(AdmitCall, Instant)>,
)
    requires
        gate.wf(),
        gate.connected,
        gate.subjects.next_id + 2 <= u64::MAX,
        !recency::holds(gate.subjects.slots, subject),
        calls.len() > 0,
        in_time(calls, subject),
    ensures
        in_flight(
            attempted(gate, calls),
            subject,
            gate.subjects.next_id,
            (gate.subjects.next_id + 1) as u64,
        ),
        attempted(gate, calls).subjects.next_id == gate.subjects.next_id + 2,
    decreases calls.len(),
{
    let before = calls.drop_last();
    let id = gate.subjects.next_id;
    assert(calls[calls.len() - 1].0.subject == subject);
    if before.len() == 0 {
        lemma_first_attempt(gate, calls.last().0, calls.last().1);
    } else {
        assert forall|i: int| 0 <= i < before.len() implies (#[trigger] before[i]).0.subject
            == subject && before[i].1.nanos < before[i].0.deadline.nanos by {
            assert(before[i] == calls[i]);
        }
        lemma_flight_after_attempts(gate, subject, before);
        lemma_further_attempt(
            attempted(gate, before),
            calls.last().0,
            id,
            (id + 1) as u64,
            calls.last().1,
        );
    }
}

proof fn lemma_attempt_joins<P>(
    gate: GateModel<P>,
    subject: u64,
    calls: Seq<(AdmitCall, Instant)>,
    i: int,
)
    requires
        gate.wf(),
        gate.connected,
        gate.subjects.next_id + 2 <= u64::MAX,
        !recency::holds(gate.subjects.slots, subject),
        in_time(calls, subject),
        0 <= i < calls.len(),
    ensures
        attempt_step(gate, calls, i) == (AdmitStep::AwaitFetch {
            call: calls[i].0,
            entry: gate.subjects.next_id,
            generation: (gate.subjects.next_id + 1) as u64,
        }),
{
    let before = calls.take(i);
    let id = gate.subjects.next_id;
    assert(calls[i].0.subject == subject);
    if i == 0 {
        lemma_first_attempt(gate, calls[i].0, calls[i].1);
    } else {
        assert forall|j: int| 0 <= j < before.len() implies (#[trigger] before[j]).0.subject
            == subject && before[j].1.nanos < before[j].0.deadline.nanos by {
            assert(before[j] == calls[j]);
        }
        lemma_flight_after_attempts(gate, subject, before);
        lemma_further_attempt(
            attempted(gate, before),
            calls[i].0,
            id,
            (id + 1) as u64,
            calls[i].1,
        );
    }
}

/// However many admissions of an unknown subject overlap, together they start exactly one lookup:
/// each of them waits for it, and only the numbers of one entry and one lookup are given out.
pub proof fn overlapping_admissions_start_one_lookup<P>(
    gate: GateModel<P>,
    subject: u64,
    calls: Seq<(AdmitCall, Instant)>,
)
    requires
        gate.wf(),
        gate.connected,
        gate.subjects.next_id + 2 <= u64::MAX,
        !recency::holds(gate.subjects.slots, subject),
        calls.len() > 0,
        in_time(calls, subject),
    ensures
        forall|i: int|
            0 <= i < calls.len() ==> #[trigger] attempt_step(gate, calls, i)
                == (AdmitStep::AwaitFetch {
                call: calls[i].0,
                entry: gate.subjects.next_id,
                generation: (gate.subjects.next_id + 1) as u64,
            }),
        in_flight(
            attempted(gate, calls),
            subject,
            gate.subjects.next_id,
            (gate.subjects.next_id + 1) as u64,
        ),
        attempted(gate, calls).subjects.next_id == gate.subjects.next_id + 2,
{
    lemma_flight_after_attempts(gate, subject, calls);
    assert forall|i: int| 0 <= i < calls.len() implies #[trigger] attempt_step(gate, calls, i)
        == (AdmitStep::AwaitFetch {
        call: calls[i].0,
        entry: gate.subjects.next_id,
        generation: (gate.subjects.next_id + 1) as u64,
    }) by {
        lemma_attempt_joins(gate, subject, calls, i);
    }
}

/// Whether an access to the entry `id` at `now` starts no refresh.
pub open spec fn starts_no_refresh<P>(gate: GateModel<P>, id: u64, now: Instant) -> bool {
    gate.settings.refresh_before_expiry.nanos == 0 || !gate.subjects.table[id].refresh_due(now)
}

/// Whether the watch is up and the entry `id` holds `decision` for `subject`.
pub open spec fn answers<P>(gate: GateModel<P>, subject: u64, id: u64, decision: Decision) -> bool {
    &&& gate.wf()
    &&& gate.connected
    &&& gate.subjects.matches_entry(subject, id)
    &&& gate.subjects.table.contains_key(id)
    &&& gate.subjects.table[id].state() == entry::decision_state(decision)
}

/// A lookup that brings a decision leaves its entry with that decision and nothing in flight.
pub proof fn lemma_resolved<P>(
    gate: GateModel<P>,
    subject: u64,
    id: u64,
    generation: u64,
    result: DecisionResult<P>,
    end: Instant,
)
    requires
        in_flight(gate, subject, id, generation),
        gate.seen_failure(id, generation, Ok(result), end) is None,
    ensures
        answers(
            gate.fetched(subject, id, generation, Ok(result), end),
            subject,
            id,
            result.decision,
        ),
        gate.fetched(subject, id, generation, Ok(result), end).subjects.table[id].pending is None,
{
    let entry = gate.subjects.table[id];
    let ttl = gate.settings.decision_freshness_ttl;
    let snapshot = entry.spec_decision_snapshot(result, ttl, end);
    subject_model::lemma_snapshot(entry, result, ttl, end);
    let i = recency::position(gate.subjects.slots, subject);
    assert(recency::slot_at(gate.subjects.slots, subject, i));
    assert(subject_model::names_entry(gate.subjects.slots, id, i));
    subject_model::lemma_put(gate.subjects, id, entry.decided(snapshot));
}

/// An admission whose lookup ended returns the decision of its entry.
pub proof fn lemma_waiting_admission_returns<P>(
    gate: GateModel<P>,
    call: AdmitCall,
    id: u64,
    decision: Decision,
    now: Instant,
)
    requires
        answers(gate, gate.subjects.table[id].subject, id, decision),
        !gate.subjects.table[id].expired(now),
    ensures
        ({
            let (after, step) = gate.admit_fetched(call, id, FetchWait::Ended(Ok(())), now);
            &&& gate.subjects.verdict(id, now) == Some(decision)
            &&& after.subjects.verdict(id, now) == Some(decision)
            &&& starts_no_refresh(gate, id, now) ==> after == gate && step == AdmitStep::Done(
                Some(Admission { entry: id }),
            )
            &&& !starts_no_refresh(gate, id, now) ==> {
                &&& step matches AdmitStep::AwaitQueue { entry, generation, late, .. }
                &&& entry == id
                &&& forall|queued: bool| #[trigger]
                    after.admit_queued(call, id, generation, late, queued, now).1
                        == AdmitStep::Done(Some(Admission { entry: id }))
            }
        }),
{
    assert(gate.looked(id, now).subjects.table =~= gate.subjects.table);
    assert(gate.looked(id, now) == gate);
}

/// An admission of a subject with a decision is served from the map.
pub proof fn lemma_later_admission_is_served<P>(
    gate: GateModel<P>,
    call: AdmitCall,
    id: u64,
    decision: Decision,
    now: Instant,
)
    requires
        answers(gate, call.subject, id, decision),
        !gate.subjects.table[id].expired(now),
        now.nanos < call.deadline.nanos,
        starts_no_refresh(gate, id, now),
    ensures
        ({
            let (after, step) = gate.admit_connected(call, ConnectionWait::Connected, now);
            &&& step == AdmitStep::Done(Some(Admission { entry: id }))
            &&& after.subjects.verdict(id, now) == Some(decision)
            &&& after.subjects.table[id].pending == gate.subjects.table[id].pending
            &&& after.subjects.next_id == gate.subjects.next_id
        }),
{
    let m = gate.subjects;
    let tick = m.spec_tick(now);
    let i = recency::position(m.slots, call.subject);
    assert(recency::slot_at(m.slots, call.subject, i));
    let p = m.promoted(i, tick);
    subject_model::lemma_promoted(m, i, tick);
    subject_model::lemma_evicted(p, tick);
    subject_model::lemma_front_survives(p, tick);
    let joined = gate.joined(call.subject, now);
    assert(joined.subjects.table[id] == m.table[id]);
    let seen = joined.looked(id, now);
    assert(seen.subjects.table[id] == m.table[id]);
}

/// A permanent failure ends the admission; a transient one is retried after the current delay.
pub proof fn only_transient_failures_are_retried<P>(
    gate: GateModel<P>,
    call: AdmitCall,
    id: u64,
    error: DecisionSourceError,
    now: Instant,
)
    requires
        gate.connected,
        gate.subjects.verdict(id, now) is None,
    ensures
        gate.admit_fetched(call, id, FetchWait::Ended(Err(error)), now).1 == if error.spec_kind()
            == DecisionSourceErrorKind::Transient {
            AdmitStep::Sleep { call, delay: call.retry_delay }
        } else {
            AdmitStep::Done(None)
        },
{
}

/// After a permanent failure the next lookup of the subject waits out the cooldown; the entry goes
/// on waiting for it.
pub proof fn a_permanent_failure_delays_the_next_lookup<P>(
    gate: GateModel<P>,
    subject: u64,
    id: u64,
    generation: u64,
    error: DecisionSourceError,
    now: Instant,
)
    requires
        gate.wf(),
        gate.subjects.next_id < u64::MAX,
        gate.subjects.awaits(id, generation),
        gate.subjects.table[id].state() == EntryState::Pending,
        decision::ends_admission(error.spec_kind()),
    ensures
        ({
            let after = gate.fetched(subject, id, generation, Err(error), now).subjects.table[id];
            &&& after.state() == EntryState::Pending
            &&& after.pending matches Some(retry) && retry.delay == Some(
                gate.settings.permanent_failure_cooldown,
            ) && retry.generation != generation
        }),
{
}

/// A transient failure takes the pending entry out, so that the next attempt asks again.
pub proof fn a_transient_failure_makes_room_for_another_lookup<P>(
    gate: GateModel<P>,
    subject: u64,
    id: u64,
    generation: u64,
    error: DecisionSourceError,
    now: Instant,
)
    requires
        gate.wf(),
        gate.subjects.matches_entry(subject, id),
        gate.subjects.awaits(id, generation),
        gate.subjects.table[id].state() == EntryState::Pending,
        error.spec_kind() == DecisionSourceErrorKind::Transient,
    ensures
        !recency::holds(
            gate.fetched(subject, id, generation, Err(error), now).subjects.slots,
            subject,
        ),
{
    let m = gate.subjects;
    let tick = m.spec_tick(now);
    subject_model::lemma_evicted(m, tick);
    let room = m.evicted(tick);
    let i = recency::position(m.slots, subject);
    assert(recency::slot_at(m.slots, subject, i));
    if recency::holds(room.slots, subject) {
        let j = recency::position(room.slots, subject);
        assert(recency::slot_at(room.slots, subject, j));
        lemma_eviction_keeps_entries(m, tick, j);
        recency::lemma_position(m.slots, subject, j);
        subject_model::lemma_detached(room, j);
    }
}

/// A slot that eviction leaves stands where it stood, with the same entry in the same state.
pub proof fn lemma_eviction_keeps_entries<P>(m: subject_model::SubjectModel<P>, tick: int, i: int)
    requires
        m.wf(),
        0 <= i < m.evicted(tick).slots.len(),
    ensures
        i < m.slots.len(),
        m.evicted(tick).slots[i] == m.slots[i],
        m.evicted(tick).table[m.slots[i].1.0] == m.table[m.slots[i].1.0],
    decreases m.slots.len(),
{
    if m.slots.len() > 0 && m.idle(m.slots.last(), tick) {
        let last = m.slots.len() - 1;
        let next = subject_model::SubjectModel { dirty: true, ..m.detached(last) };
        subject_model::lemma_detached(m, last);
        assert(next.wf());
        lemma_eviction_keeps_entries(next, tick, i);
        assert(m.slots[i].1.0 != m.slots[last].1.0);
    }
}

/// A lookup that brings a decision resolves the pending entry for everybody who waits for it.
pub proof fn a_lookup_resolves_its_entry<P>(
    gate: GateModel<P>,
    subject: u64,
    id: u64,
    generation: u64,
    result: DecisionResult<P>,
    now: Instant,
)
    requires
        gate.wf(),
        gate.subjects.awaits(id, generation),
        gate.subjects.table[id].state() == EntryState::Pending,
        gate.seen_failure(id, generation, Ok(result), now) is None,
    ensures
        gate.fetched(subject, id, generation, Ok(result), now).subjects.verdict(id, now) == Some(
            result.decision,
        ),
{
    let entry = gate.subjects.table[id];
    subject_model::lemma_snapshot(entry, result, gate.settings.decision_freshness_ttl, now);
}

/// The retry delay never falls below the one before and never exceeds its ceiling.
pub proof fn the_retry_delay_stays_within_its_bounds<P>(
    gate: GateModel<P>,
    call: AdmitCall,
    next: AdmitCall,
)
    requires
        gate.settings.valid(),
        gate.settings.max_admission_retry_delay.nanos <= MAX_SPAN_NANOS,
        gate.settings.initial_admission_retry_delay.nanos <= call.retry_delay.nanos
            <= gate.settings.max_admission_retry_delay.nanos,
        gate.admit_slept(call, SleepWait::Slept).1 == AdmitStep::AwaitConnection(next),
    ensures
        gate.settings.initial_admission_retry_delay.nanos <= call.retry_delay.nanos
            <= next.retry_delay.nanos <= gate.settings.max_admission_retry_delay.nanos,
        next.deadline == call.deadline,
        next.subject == call.subject,
{
}

} // verus!
