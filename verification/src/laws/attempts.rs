//! Laws of the steps of an admission: what each wait is followed by.

use vstd::prelude::*;

use crate::admission::Admission;
use crate::admitting::{AdmitCall, AdmitStep, ConnectionWait, FetchWait, SleepWait};
use crate::decision::{DecisionSourceError, DecisionSourceErrorKind};
use crate::entry;
use crate::entry::EntryState;
use crate::gate::GateModel;
use crate::laws::admission;
use crate::laws::snapshot;
use crate::metrics::MetricEvent;
use crate::recency;
use crate::subject_model;
use crate::subject_model::{Removal, SubjectModel};
use crate::time::{Instant, MAX_SPAN_NANOS};

verus! {

/// Whether an admission is over for want of time: it yields nothing, and the timeout is counted.
pub open spec fn times_out<P>(before: GateModel<P>, after: (GateModel<P>, AdmitStep)) -> bool {
    &&& after.1 == AdmitStep::Done(None)
    &&& after.0.events == before.events.push(MetricEvent::AdmissionTimeout)
}

/// An admission may take the admission timeout from its start on and begins with the first retry
/// delay. Where the clock cannot represent its end it is over at once.
pub proof fn an_admission_may_take_its_timeout<P>(gate: GateModel<P>, subject: u64, now: Instant)
    ensures
        ({
            let (after, step) = gate.admit_begun(subject, now);
            if now.nanos + gate.settings.admission_timeout.nanos <= gate.clock_end.nanos {
                &&& after == gate
                &&& step matches AdmitStep::AwaitConnection(call)
                &&& call.subject == subject
                &&& call.deadline.nanos == now.nanos + gate.settings.admission_timeout.nanos
                &&& call.retry_delay == gate.settings.initial_admission_retry_delay
            } else {
                times_out(gate, (after, step))
            }
        }),
{
}

/// A wait for the watch that ran out of time ends the admission.
pub proof fn a_wait_for_the_watch_may_run_out<P>(gate: GateModel<P>, call: AdmitCall, now: Instant)
    ensures
        times_out(gate, gate.admit_connected(call, ConnectionWait::TimedOut, now)),
        gate.admit_connected(call, ConnectionWait::TimedOut, now).0.subjects == gate.subjects,
{
}

/// An attempt at a subject that the map does not know starts its lookup, under a new number, for a
/// new entry of that subject.
pub proof fn an_unknown_subject_is_looked_up<P>(gate: GateModel<P>, call: AdmitCall, now: Instant)
    requires
        gate.wf(),
        gate.connected,
        gate.has_numbers(),
        !recency::holds(gate.subjects.slots, call.subject),
        now.nanos < call.deadline.nanos,
    ensures
        ({
            let (after, step) = gate.admit_connected(call, ConnectionWait::Connected, now);
            &&& step matches AdmitStep::AwaitFetch { call: waiting, entry, generation }
            &&& waiting == call
            &&& !gate.subjects.table.contains_key(entry)
            &&& after.subjects.table[entry].subject == call.subject
            &&& after.subjects.table[entry].live_state(now) == EntryState::Pending
            &&& after.subjects.awaits(entry, generation)
            &&& after.subjects.table[entry].pending->0.refresh_from is None
            &&& after.subjects.table[entry].pending->0.delay is None
            &&& gate.subjects.next_id <= entry
            &&& gate.subjects.next_id <= generation
            &&& after.subjects.next_id > generation
            &&& recency::holds(after.subjects.slots, call.subject)
        }),
{
    admission::lemma_first_attempt(gate, call, now);
    snapshot::an_admission_uses_its_own_subject(gate, call.subject, now);
    let id = gate.subjects.joined_entry(call.subject);
    let joined = gate.joined(call.subject, now);
    assert(joined.wf()) by {
        subject_model::lemma_joined(
            gate.subjects,
            call.subject,
            now,
            gate.settings.refresh_before_expiry,
        );
    }
    subject_model::lemma_latched(joined.subjects.table[id], now);
    entry::lemma_word_parts(joined.subjects.table[id].current.word);
}

/// An attempt at a subject with a decision in force is served from the map by the subject's own
/// entry and counted as a hit. Where no refresh is due it ends with that admission and starts no
/// lookup; where one is due it hands the refresh over first, by the end of the admission at the
/// latest.
pub proof fn a_known_subject_is_served_from_the_map<P>(
    gate: GateModel<P>,
    call: AdmitCall,
    id: u64,
    now: Instant,
)
    requires
        gate.wf(),
        gate.connected,
        gate.has_numbers(),
        gate.subjects.matches_entry(call.subject, id),
        gate.subjects.verdict(id, now) is Some,
        now.nanos < call.deadline.nanos,
    ensures
        ({
            let (after, step) = gate.admit_connected(call, ConnectionWait::Connected, now);
            &&& after.subjects.verdict(id, now) == gate.subjects.verdict(id, now)
            &&& after.events.last() == MetricEvent::MapHit
            &&& after.events.len() > gate.events.len()
            &&& if gate.settings.refresh_before_expiry.nanos > 0
                && gate.subjects.table[id].refresh_due(now) {
                &&& step matches AdmitStep::AwaitQueue {
                    call: waiting,
                    entry,
                    generation,
                    deadline,
                    late,
                }
                &&& waiting == call
                &&& entry == id
                &&& deadline.nanos <= call.deadline.nanos
                &&& !late
                &&& after.subjects.refreshes(id, generation)
                &&& generation == gate.subjects.next_id
            } else {
                &&& step == AdmitStep::Done(Some(Admission { entry: id }))
                &&& after.subjects.next_id == gate.subjects.next_id
                &&& after.subjects.table[id] == gate.subjects.table[id]
            }
        }),
{
    let m = gate.subjects;
    let tick = m.spec_tick(now);
    let i = recency::position(m.slots, call.subject);
    assert(recency::slot_at(m.slots, call.subject, i));
    assert(m.table.contains_key(m.slots[i].1.0));
    let p = m.promoted(i, tick);
    subject_model::lemma_promoted(m, i, tick);
    subject_model::lemma_evicted(p, tick);
    subject_model::lemma_front_survives(p, tick);
    let joined = gate.joined(call.subject, now);
    assert(joined.subjects.table[id] == m.table[id]);
    assert(joined.subjects.table.contains_key(id));
    let hit = joined.looked(id, now).emit(MetricEvent::MapHit);
    assert(hit.subjects.table[id] == m.table[id]);
    assert(hit.looked(id, now).subjects.table[id] == m.table[id]);
}

/// An attempt that finds the watch down leaves the subject out of the map and waits for the watch.
pub proof fn an_attempt_without_a_watch_waits_for_it<P>(
    gate: GateModel<P>,
    call: AdmitCall,
    now: Instant,
)
    requires
        gate.wf(),
        gate.has_numbers(),
        !gate.connected,
        now.nanos < call.deadline.nanos,
    ensures
        gate.admit_connected(call, ConnectionWait::Connected, now).1
            == AdmitStep::AwaitConnection(call),
        !recency::holds(
            gate.admit_connected(call, ConnectionWait::Connected, now).0.subjects.slots,
            call.subject,
        ),
{
    let m = gate.subjects;
    let id = m.joined_entry(call.subject);
    let tick = m.spec_tick(now);
    snapshot::an_admission_uses_its_own_subject(gate, call.subject, now);
    let joined = gate.joined(call.subject, now);
    assert(joined.wf()) by {
        subject_model::lemma_joined(m, call.subject, now, gate.settings.refresh_before_expiry);
    }
    lemma_front_leaves(joined.subjects, call.subject, id, now);
}

proof fn lemma_front_leaves<P>(m: SubjectModel<P>, subject: u64, id: u64, now: Instant)
    requires
        m.wf(),
        m.slots.len() > 0,
        m.slots[0].0 == subject,
        m.slots[0].1.0 == id,
    ensures
        !recency::holds(m.removed_if(subject, id, now, Removal::Always).slots, subject),
{
    let tick = m.spec_tick(now);
    subject_model::lemma_evicted(m, tick);
    let room = m.evicted(tick);
    if recency::holds(room.slots, subject) {
        let j = recency::position(room.slots, subject);
        assert(recency::slot_at(room.slots, subject, j));
        admission::lemma_eviction_keeps_entries(m, tick, j);
        assert(m.slots[j].0 == m.slots[0].0);
        subject_model::lemma_detached(room, j);
    }
}

/// Whatever an attempt ends with, an admission that it yields is of an entry of its own subject.
pub proof fn an_attempt_yields_the_subjects_own_entry<P>(
    gate: GateModel<P>,
    call: AdmitCall,
    wait: ConnectionWait,
    now: Instant,
)
    requires
        gate.wf(),
        gate.has_numbers(),
    ensures
        gate.admit_connected(call, wait, now).1 matches AdmitStep::Done(Some(admission)) ==> {
            let table = gate.joined(call.subject, now).subjects.table;
            &&& table.contains_key(admission.entry)
            &&& table[admission.entry].subject == call.subject
        },
        gate.admit_connected(call, wait, now).1 matches AdmitStep::AwaitFetch { entry, .. } ==> {
            let table = gate.joined(call.subject, now).subjects.table;
            &&& table.contains_key(entry)
            &&& table[entry].subject == call.subject
        },
        gate.admit_connected(call, wait, now).1 matches AdmitStep::AwaitQueue { entry, .. } ==> {
            let table = gate.joined(call.subject, now).subjects.table;
            &&& table.contains_key(entry)
            &&& table[entry].subject == call.subject
        },
{
    snapshot::an_admission_uses_its_own_subject(gate, call.subject, now);
}

/// What the end of a lookup is followed by, while the watch is up and the entry holds no decision in
/// force: after success another attempt, after a transient failure another attempt once the retry
/// delay has passed, which is counted, and after every other failure the end.
pub proof fn the_end_of_a_lookup_decides_what_follows<P>(
    gate: GateModel<P>,
    call: AdmitCall,
    id: u64,
    result: Result<(), DecisionSourceError>,
    now: Instant,
)
    requires
        gate.wf(),
        gate.connected,
        gate.subjects.verdict(id, now) is None,
    ensures
        ({
            let (after, step) = gate.admit_fetched(call, id, FetchWait::Ended(result), now);
            match result {
                Ok(_) => step == AdmitStep::AwaitConnection(call) && after.events == gate.events,
                Err(error) => match error.spec_kind() {
                    DecisionSourceErrorKind::Transient => {
                        &&& step == AdmitStep::Sleep { call, delay: call.retry_delay }
                        &&& after.events == gate.events.push(MetricEvent::AdmissionRetry)
                    },
                    DecisionSourceErrorKind::Permanent => step == AdmitStep::Done(None)
                        && after.events == gate.events,
                    DecisionSourceErrorKind::Wire => step == AdmitStep::Done(None) && after.events
                        == gate.events,
                },
            }
        }),
{
}

/// A lookup that was dropped, or during which the watch changed, is followed by another attempt; so
/// is one that ended while the watch was down. Nothing is counted.
pub proof fn a_lookup_that_does_not_count_is_tried_again<P>(
    gate: GateModel<P>,
    call: AdmitCall,
    id: u64,
    result: Result<(), DecisionSourceError>,
    now: Instant,
)
    ensures
        gate.admit_fetched(call, id, FetchWait::Aborted, now) == (
            gate,
            AdmitStep::AwaitConnection(call),
        ),
        gate.admit_fetched(call, id, FetchWait::ConnectionChanged, now) == (
            gate,
            AdmitStep::AwaitConnection(call),
        ),
        !gate.connected ==> gate.admit_fetched(call, id, FetchWait::Ended(result), now) == (
            gate,
            AdmitStep::AwaitConnection(call),
        ),
{
}

/// A lookup that ends with a decision in force ends the admission with it, whatever its callers were
/// told; where a refresh is due that is handed over first. So does a wait that ran out of time while
/// the decision came in force; without one the admission has timed out.
pub proof fn a_decision_in_force_ends_the_admission<P>(
    gate: GateModel<P>,
    call: AdmitCall,
    id: u64,
    result: Result<(), DecisionSourceError>,
    now: Instant,
)
    requires
        gate.wf(),
        gate.connected,
    ensures
        ({
            let ended = gate.admit_fetched(call, id, FetchWait::Ended(result), now);
            let late = gate.admit_fetched(call, id, FetchWait::TimedOut, now);
            if gate.subjects.verdict(id, now) is Some {
                &&& ended.0.subjects.verdict(id, now) == gate.subjects.verdict(id, now)
                &&& late.0.subjects.verdict(id, now) == gate.subjects.verdict(id, now)
                &&& if gate.settings.refresh_before_expiry.nanos > 0
                    && gate.subjects.table[id].refresh_due(now) {
                    &&& ended.1 matches AdmitStep::AwaitQueue {
                        call: waiting,
                        entry,
                        generation,
                        deadline,
                        late,
                    }
                    &&& waiting == call && entry == id && generation == gate.subjects.next_id
                    &&& deadline.nanos <= call.deadline.nanos
                    &&& !late
                } else {
                    &&& ended.1 == AdmitStep::Done(Some(Admission { entry: id }))
                    &&& late.1 == AdmitStep::Done(Some(Admission { entry: id }))
                }
                &&& ended.0.events == gate.events
                &&& late.0.events == gate.events
            } else {
                times_out(gate, late)
            }
        }),
{
    assert(gate.subjects.verdict(id, now) is Some ==> gate.looked(id, now).subjects.table
        =~= gate.subjects.table);
}

/// A wait that ran out of time while a refresh was due is followed by the hand-over of that refresh,
/// after which the admission does not start over.
pub proof fn a_late_hand_over_is_the_last<P>(
    gate: GateModel<P>,
    call: AdmitCall,
    id: u64,
    now: Instant,
)
    requires
        gate.wf(),
        gate.subjects.verdict(id, now) is Some,
        gate.settings.refresh_before_expiry.nanos > 0,
        gate.subjects.table[id].refresh_due(now),
    ensures
        gate.admit_fetched(call, id, FetchWait::TimedOut, now).1 matches AdmitStep::AwaitQueue {
            entry,
            late,
            ..
        } && entry == id && late,
{
    assert(gate.looked(id, now).subjects.table =~= gate.subjects.table);
}

/// What the hand-over of a refresh is followed by: the end with the decision that is in force, taken
/// by the queue or not. Where there is none any more, another attempt, or the end for want of time
/// where the admission was late already.
pub proof fn the_hand_over_decides_what_follows<P>(
    gate: GateModel<P>,
    call: AdmitCall,
    id: u64,
    generation: u64,
    late: bool,
    queued: bool,
    now: Instant,
)
    requires
        gate.wf(),
    ensures
        ({
            let (after, step) = gate.admit_queued(call, id, generation, late, queued, now);
            if gate.subjects.verdict(id, now) is Some {
                &&& step == AdmitStep::Done(Some(Admission { entry: id }))
                &&& after.events == gate.events
            } else if late {
                times_out(gate, (after, step))
            } else {
                &&& step == AdmitStep::AwaitConnection(call)
                &&& after.events == gate.events
            }
        }),
{
}

/// A retry delay that has passed is followed by another attempt, within the same deadline, whose own
/// retry delay is twice as long, up to the ceiling. One that ran out of time ends the admission.
pub proof fn a_retry_delay_is_followed_by_twice_itself<P>(gate: GateModel<P>, call: AdmitCall)
    requires
        gate.settings.max_admission_retry_delay.nanos <= MAX_SPAN_NANOS,
    ensures
        times_out(gate, gate.admit_slept(call, SleepWait::TimedOut)),
        ({
            let (after, step) = gate.admit_slept(call, SleepWait::Slept);
            let ceiling = gate.settings.max_admission_retry_delay.nanos;
            &&& after == gate
            &&& step matches AdmitStep::AwaitConnection(next)
            &&& next.subject == call.subject
            &&& next.deadline == call.deadline
            &&& 2 * call.retry_delay.nanos <= ceiling ==> next.retry_delay.nanos == 2
                * call.retry_delay.nanos
            &&& 2 * call.retry_delay.nanos > ceiling ==> next.retry_delay.nanos == ceiling
        }),
{
}

} // verus!
