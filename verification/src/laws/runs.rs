//! Laws of runs: what holds of lookups, decisions and the order of use whatever steps come between.

use vstd::prelude::*;

use crate::admission::Admission;
use crate::admitting::{AdmitCall, AdmitStep, ConnectionWait, FetchWait};
use crate::continuity;
use crate::decision::{Decision, DecisionResult};
use crate::entry::EntryState;
use crate::evolution;
use crate::gate::GateModel;
use crate::laws;
use crate::laws::admission;
use crate::laws::cache;
use crate::laws::GateStep;
use crate::metrics::MetricEvent;
use crate::recency;
use crate::stream::{BodyGuard, ReadmissionPoll};
use crate::subject_model;
use crate::subject_model::{Removal, SubjectModel};
use crate::time::Instant;

verus! {

/// Instant of a step that has one.
pub open spec fn instant_of<P>(step: GateStep<P>) -> Option<Instant> {
    match step {
        GateStep::WatchDisconnected { now } => Some(now),
        GateStep::Change { now, .. } => Some(now),
        GateStep::RepublishClaim { now } => Some(now),
        GateStep::Republish { now } => Some(now),
        GateStep::Look { now, .. } => Some(now),
        GateStep::Access { now, .. } => Some(now),
        GateStep::Read { now, .. } => Some(now),
        GateStep::Peek { now, .. } => Some(now),
        GateStep::RefreshRequest { now, .. } => Some(now),
        GateStep::AccessEnd { now, .. } => Some(now),
        GateStep::LookupEnd { now, .. } => Some(now),
        GateStep::Join { now, .. } => Some(now),
        GateStep::Discard { now, .. } => Some(now),
        GateStep::AdmitBegin { now, .. } => Some(now),
        GateStep::AdmitConnected { now, .. } => Some(now),
        GateStep::AdmitFetched { now, .. } => Some(now),
        GateStep::AdmitQueued { now, .. } => Some(now),
        GateStep::BodyPolled { now, .. } => Some(now),
        GateStep::BodyReadmitted { now, .. } => Some(now),
        GateStep::WatchConnected
        | GateStep::WatchStable
        | GateStep::RepublishCommit { .. }
        | GateStep::Release { .. }
        | GateStep::Invalidate { .. }
        | GateStep::Forget { .. }
        | GateStep::Sweep { .. }
        | GateStep::Emit { .. }
        | GateStep::TakeEvents
        | GateStep::TakeAborted
        | GateStep::AdmitSlept { .. } => None,
    }
}

/// Entry and number of the lookup that a step brings to its end or gives up.
pub open spec fn lookup_ended_by<P>(step: GateStep<P>) -> Option<(u64, u64)> {
    match step {
        GateStep::LookupEnd { entry, generation, .. } => Some((entry, generation)),
        GateStep::Release { entry, generation } => Some((entry, generation)),
        GateStep::AccessEnd { entry, generation, queued, .. } => if queued {
            None
        } else {
            Some((entry, generation))
        },
        GateStep::AdmitQueued { entry, generation, queued, .. } => if queued {
            None
        } else {
            Some((entry, generation))
        },
        _ => None,
    }
}

/// What a step at `now` that leaves the watch as it is carries on.
spec fn carried<P>(
    before: GateModel<P>,
    after: GateModel<P>,
    now: Instant,
    ended: Option<(u64, u64)>,
) -> bool {
    &&& continuity::carries(before.subjects, after.subjects, now, ended)
    &&& after.connected == before.connected
}

proof fn lemma_carried_trans<P>(
    a: GateModel<P>,
    b: GateModel<P>,
    c: GateModel<P>,
    now: Instant,
    ended: Option<(u64, u64)>,
)
    requires
        carried(a, b, now, ended),
        carried(b, c, now, ended),
    ensures
        carried(a, c, now, ended),
{
    continuity::lemma_carries_trans(a.subjects, b.subjects, c.subjects, now, ended);
}

/// A state with the same map, whether its shape is noted or not, carries on.
proof fn lemma_same_carried<P>(
    before: GateModel<P>,
    mid: GateModel<P>,
    after: GateModel<P>,
    now: Instant,
    ended: Option<(u64, u64)>,
)
    requires
        carried(before, mid, now, ended),
        after.connected == mid.connected,
        after.subjects == (SubjectModel { dirty: after.subjects.dirty, ..mid.subjects }),
    ensures
        carried(before, after, now, ended),
{
    continuity::lemma_same_carries(mid.subjects, after.subjects, now);
    continuity::lemma_carries_trans(before.subjects, mid.subjects, after.subjects, now, ended);
}

proof fn lemma_looked_carried<P>(gate: GateModel<P>, id: u64, now: Instant)
    ensures
        carried(gate, gate.looked(id, now), now, None),
{
    continuity::lemma_looked_carries(gate.subjects, id, now, now);
}

proof fn lemma_accessed_carried<P>(
    gate: GateModel<P>,
    id: u64,
    deadline: Option<Instant>,
    now: Instant,
)
    ensures
        carried(gate, gate.accessed(id, deadline, now).0, now, None),
{
    lemma_looked_carried(gate, id, now);
    let seen = gate.looked(id, now);
    if gate.subjects.verdict(id, now) is Some && seen.subjects.table[id].refresh_due(now) {
        continuity::lemma_claimed_carries(seen.subjects, id, now, now);
        lemma_carried_trans(
            gate,
            seen,
            seen.with_subjects(seen.subjects.claimed(id)),
            now,
            None,
        );
    }
}

proof fn lemma_used_carried<P>(gate: GateModel<P>, subject: u64, id: u64, now: Instant)
    requires
        gate.wf(),
    ensures
        carried(gate, gate.with_subjects(gate.subjects.touched(subject, id, now)), now, None),
{
    continuity::lemma_touched_carries(gate.subjects, subject, id, now);
}

proof fn lemma_read_carried<P>(gate: GateModel<P>, subject: u64, now: Instant)
    requires
        gate.wf(),
    ensures
        carried(gate, gate.checked(subject, now).0, now, None),
        carried(gate, gate.peeked(subject, now).0, now, None),
{
    continuity::lemma_same_carries(gate.subjects, gate.subjects, now);
    let id = gate.snapshot[subject];
    lemma_looked_carried(gate, id, now);
    subject_model::lemma_looked(gate.subjects, id, now);
    let seen = gate.looked(id, now);
    lemma_used_carried(seen, subject, id, now);
    let used = seen.with_subjects(seen.subjects.touched(subject, id, now));
    lemma_carried_trans(gate, seen, used, now, None);
    lemma_accessed_carried(used, id, None, now);
    lemma_carried_trans(gate, used, used.accessed(id, None, now).0, now, None);
    lemma_looked_carried(used, id, now);
    lemma_carried_trans(gate, used, used.looked(id, now), now, None);
}

proof fn lemma_refresh_carried<P>(gate: GateModel<P>, subject: u64, id: u64, now: Instant)
    requires
        gate.wf(),
    ensures
        carried(gate, gate.refresh_asked(subject, id, now).0, now, None),
{
    lemma_used_carried(gate, subject, id, now);
    let used = gate.with_subjects(gate.subjects.touched(subject, id, now));
    lemma_accessed_carried(used, id, None, now);
    lemma_carried_trans(gate, used, used.accessed(id, None, now).0, now, None);
}

proof fn lemma_access_end_carried<P>(
    gate: GateModel<P>,
    id: u64,
    generation: u64,
    queued: bool,
    now: Instant,
)
    ensures
        carried(
            gate,
            gate.access_finished(id, generation, queued, now),
            now,
            if queued {
                None
            } else {
                Some((id, generation))
            },
        ),
{
    let ended = if queued {
        None
    } else {
        Some((id, generation))
    };
    continuity::lemma_same_carries(gate.subjects, gate.subjects, now);
    continuity::lemma_released_carries(gate.subjects, id, generation, now);
    let kept = if queued {
        gate
    } else {
        gate.with_subjects(gate.subjects.released(id, generation))
    };
    lemma_looked_carried(kept, id, now);
    lemma_carried_trans(gate, kept, kept.looked(id, now), now, ended);
}

proof fn lemma_joined_carried<P>(gate: GateModel<P>, subject: u64, now: Instant)
    requires
        gate.wf(),
        gate.has_numbers(),
    ensures
        carried(gate, gate.joined(subject, now), now, None),
{
    let refresh_before = gate.settings.refresh_before_expiry;
    continuity::lemma_joined_carries(gate.subjects, subject, now, refresh_before);
    let mid = gate.with_subjects(gate.subjects.joined(subject, now, refresh_before));
    lemma_same_carried(gate, mid, gate.joined(subject, now), now, None);
}

proof fn lemma_discarded_carried<P>(
    gate: GateModel<P>,
    subject: u64,
    id: u64,
    now: Instant,
    removal: Removal,
)
    requires
        gate.wf(),
    ensures
        carried(gate, gate.discarded(subject, id, now, removal), now, None),
        carried(gate, gate.discarded(subject, id, now, removal).republished(now), now, None),
{
    continuity::lemma_removed_if_carries(gate.subjects, subject, id, now, removal);
    let mid = gate.with_subjects(gate.subjects.removed_if(subject, id, now, removal));
    let after = gate.discarded(subject, id, now, removal);
    lemma_same_carried(gate, mid, after, now, None);
    lemma_same_carried(gate, mid, after.republished(now), now, None);
}

proof fn lemma_admit_connected_carried<P>(
    gate: GateModel<P>,
    call: AdmitCall,
    wait: ConnectionWait,
    now: Instant,
)
    requires
        gate.wf(),
        gate.has_numbers(),
    ensures
        carried(gate, gate.admit_connected(call, wait, now).0, now, None),
{
    continuity::lemma_same_carries(gate.subjects, gate.subjects, now);
    let id = gate.subjects.joined_entry(call.subject);
    subject_model::lemma_joined(
        gate.subjects,
        call.subject,
        now,
        gate.settings.refresh_before_expiry,
    );
    lemma_joined_carried(gate, call.subject, now);
    let joined = gate.joined(call.subject, now);
    assert(joined.wf());
    lemma_discarded_carried(joined, call.subject, id, now, Removal::Always);
    let left = joined.discarded(call.subject, id, now, Removal::Always);
    lemma_carried_trans(gate, joined, left, now, None);
    lemma_looked_carried(joined, id, now);
    let seen = joined.looked(id, now);
    subject_model::lemma_looked(joined.subjects, id, now);
    lemma_carried_trans(gate, joined, seen, now, None);
    let hit = seen.emit(MetricEvent::MapHit);
    lemma_accessed_carried(hit, id, Some(call.deadline), now);
    lemma_carried_trans(gate, hit, hit.accessed(id, Some(call.deadline), now).0, now, None);
    lemma_discarded_carried(seen, call.subject, id, now, Removal::Stale);
    let gone = seen.discarded(call.subject, id, now, Removal::Stale).republished(now);
    lemma_carried_trans(gate, seen, gone, now, None);
}

proof fn lemma_admit_fetched_carried<P>(
    gate: GateModel<P>,
    call: AdmitCall,
    id: u64,
    wait: FetchWait,
    now: Instant,
)
    ensures
        carried(gate, gate.admit_fetched(call, id, wait, now).0, now, None),
{
    continuity::lemma_same_carries(gate.subjects, gate.subjects, now);
    lemma_accessed_carried(gate, id, Some(call.deadline), now);
    lemma_looked_carried(gate, id, now);
    let seen = gate.looked(id, now);
    lemma_accessed_carried(seen, id, Some(call.deadline), now);
    lemma_carried_trans(gate, seen, seen.accessed(id, Some(call.deadline), now).0, now, None);
}

proof fn lemma_body_checked_carried<P>(guard: BodyGuard, gate: GateModel<P>, now: Instant)
    requires
        gate.wf(),
    ensures
        carried(gate, guard.checked(gate, now).1, now, None),
{
    continuity::lemma_same_carries(gate.subjects, gate.subjects, now);
    lemma_looked_carried(gate, guard.admission.entry, now);
    subject_model::lemma_looked(gate.subjects, guard.admission.entry, now);
    let seen = gate.looked(guard.admission.entry, now);
    lemma_read_carried(seen, guard.subject, now);
    lemma_carried_trans(gate, seen, seen.peeked(guard.subject, now).0, now, None);
}

proof fn lemma_body_readmitted_carried<P>(
    guard: BodyGuard,
    gate: GateModel<P>,
    poll: ReadmissionPoll,
    now: Instant,
)
    requires
        gate.wf(),
    ensures
        carried(gate, guard.readmitted(gate, poll, now).1, now, None),
{
    continuity::lemma_same_carries(gate.subjects, gate.subjects, now);
    match poll {
        ReadmissionPoll::Ready(admission) => {
            let seen = gate.looked(admission.entry, now);
            let idle = BodyGuard { readmitting: false, ..guard };
            lemma_looked_carried(gate, admission.entry, now);
            subject_model::lemma_looked(gate.subjects, admission.entry, now);
            lemma_body_checked_carried(idle, seen, now);
            lemma_carried_trans(gate, seen, idle.checked(seen, now).1, now, None);
        },
        ReadmissionPoll::Pending | ReadmissionPoll::Failed => {},
    }
}

proof fn lemma_change_carried<P>(gate: GateModel<P>, step: GateStep<P>, now: Instant)
    requires
        gate.wf(),
        step is Change,
        instant_of(step) == Some(now),
    ensures
        carried(gate, gate.after(step), now, None),
{
    if let GateStep::Change { subject, decision, .. } = step {
        let ttl = gate.settings.decision_freshness_ttl;
        let mid = match decision {
            Some(decision) => gate.with_subjects(
                gate.subjects.changed(subject, decision, ttl, now),
            ),
            None => gate.with_subjects(gate.subjects.withdrawn(subject, now)),
        };
        if let Some(decision) = decision {
            continuity::lemma_changed_carries(gate.subjects, subject, decision, ttl, now);
        } else {
            continuity::lemma_withdrawn_carries(gate.subjects, subject, now);
        }
        lemma_same_carried(gate, mid, gate.after(step), now, None);
    }
}

proof fn lemma_lookup_end_carried<P>(gate: GateModel<P>, step: GateStep<P>, now: Instant)
    requires
        gate.wf(),
        step is LookupEnd,
        instant_of(step) == Some(now),
    ensures
        carried(gate, gate.after(step), now, lookup_ended_by(step)),
{
    if let GateStep::LookupEnd { subject, entry, generation, result, .. } = step {
        let settings = gate.settings;
        continuity::lemma_fetched_carries(
            gate.subjects,
            subject,
            entry,
            generation,
            result,
            settings,
            now,
        );
        let mid = gate.with_subjects(
            gate.subjects.fetched(subject, entry, generation, result, settings, now),
        );
        lemma_same_carried(gate, mid, gate.after(step), now, lookup_ended_by(step));
    }
}

/// Forgetting entries that answer for no subject touches no lookup.
proof fn lemma_forgotten_carried<P>(gate: GateModel<P>, gone: Set<u64>, now: Instant)
    requires
        gate.wf(),
        forall|id: u64|
            gone.contains(id) ==> !(#[trigger] subject_model::attached(gate.subjects.slots, id)),
    ensures
        carried(
            gate,
            gate.with_subjects(
                SubjectModel { table: gate.subjects.table.remove_keys(gone), ..gate.subjects },
            ),
            now,
            None,
        ),
{
    let m = gate.subjects;
    let n = SubjectModel { table: m.table.remove_keys(gone), ..m };
    assert forall|id: u64| #[trigger] m.table.contains_key(id) implies continuity::keeps_lookup(
        m,
        n,
        id,
        None,
    ) by {
        if gone.contains(id) {
            assert(!subject_model::attached(m.slots, id));
        }
    }
}

/// What every step at `now` carries on, but for the opening and the loss of the watch.
proof fn lemma_step_carried<P>(gate: GateModel<P>, step: GateStep<P>, now: Instant)
    requires
        gate.wf(),
        gate.has_numbers(),
        instant_of(step) is Some ==> instant_of(step) == Some(now),
        !(step is WatchConnected),
        !(step is WatchDisconnected),
        !(step is TakeAborted),
    ensures
        carried(gate, gate.after(step), now, lookup_ended_by(step)),
{
    let m = gate.subjects;
    continuity::lemma_same_carries(m, m, now);
    match step {
        GateStep::WatchConnected => {},
        GateStep::WatchDisconnected { .. } => {},
        GateStep::TakeAborted => {},
        GateStep::WatchStable => {},
        GateStep::RepublishClaim { .. } => {
            lemma_same_carried(gate, gate, gate.after(step), now, None);
        },
        GateStep::RepublishCommit { .. } => {},
        GateStep::Republish { .. } => {
            lemma_same_carried(gate, gate, gate.after(step), now, None);
        },
        GateStep::Change { .. } => {
            lemma_change_carried(gate, step, now);
        },
        GateStep::Look { entry, .. } => {
            lemma_looked_carried(gate, entry, now);
        },
        GateStep::Access { entry, deadline, .. } => {
            lemma_accessed_carried(gate, entry, deadline, now);
        },
        GateStep::Read { subject, .. } => {
            lemma_read_carried(gate, subject, now);
        },
        GateStep::Peek { subject, .. } => {
            lemma_read_carried(gate, subject, now);
        },
        GateStep::RefreshRequest { subject, entry, .. } => {
            lemma_refresh_carried(gate, subject, entry, now);
        },
        GateStep::AccessEnd { entry, generation, queued, .. } => {
            lemma_access_end_carried(gate, entry, generation, queued, now);
        },
        GateStep::Release { entry, generation } => {
            continuity::lemma_released_carries(m, entry, generation, now);
        },
        GateStep::LookupEnd { .. } => {
            lemma_lookup_end_carried(gate, step, now);
        },
        GateStep::Join { subject, .. } => {
            lemma_joined_carried(gate, subject, now);
        },
        GateStep::Discard { subject, entry, removal, .. } => {
            lemma_discarded_carried(gate, subject, entry, now, removal);
        },
        GateStep::Invalidate { entry } => {
            if m.table.contains_key(entry) {
                continuity::lemma_dropped_carries(m, entry, now);
            }
        },
        GateStep::Forget { entry } => {
            if !subject_model::attached(m.slots, entry) {
                lemma_forgotten_carried(gate, set![entry], now);
                assert(m.table.remove(entry) =~= m.table.remove_keys(set![entry]));
            }
        },
        GateStep::Sweep { candidates, held } => {
            lemma_forgotten_carried(
                gate,
                Set::new(|id: u64| candidates.contains(id) && !gate.needs(held, id)),
                now,
            );
        },
        GateStep::Emit { .. } => {},
        GateStep::TakeEvents => {},
        GateStep::AdmitBegin { .. } => {},
        GateStep::AdmitSlept { .. } => {},
        GateStep::AdmitConnected { call, wait, .. } => {
            lemma_admit_connected_carried(gate, call, wait, now);
        },
        GateStep::AdmitFetched { call, entry, wait, .. } => {
            lemma_admit_fetched_carried(gate, call, entry, wait, now);
        },
        GateStep::AdmitQueued { entry, generation, queued, .. } => {
            lemma_access_end_carried(gate, entry, generation, queued, now);
        },
        GateStep::BodyPolled { guard, .. } => {
            lemma_body_checked_carried(guard, gate, now);
        },
        GateStep::BodyReadmitted { guard, poll, .. } => {
            lemma_body_readmitted_carried(guard, gate, poll, now);
        },
    }
}

/// A lookup in flight stays in flight through every step, unless the step brings that very lookup to
/// its end or gives it up, or drops it and notes so among the lookups to abort.
///
/// So an entry never has two lookups at once.
pub proof fn every_step_keeps_the_lookups_in_flight<P>(
    gate: GateModel<P>,
    step: GateStep<P>,
    id: u64,
    generation: u64,
)
    requires
        gate.wf(),
        gate.has_numbers(),
        gate.subjects.awaits(id, generation),
    ensures
        ({
            let after = gate.after(step);
            ||| lookup_ended_by(step) == Some((id, generation))
            ||| continuity::newly_aborted(gate.subjects, after.subjects, generation)
            ||| continuity::same_lookup(gate.subjects, after.subjects, id) && after.connected
                == gate.connected
        }),
{
    let m = gate.subjects;
    let after = gate.after(step);
    match step {
        GateStep::WatchConnected | GateStep::WatchDisconnected { .. } => {
            let now = Instant { nanos: 0 };
            subject_model::lemma_cleared(m);
            continuity::lemma_cleared_carries(m, now);
            assert(continuity::keeps_lookup(m, after.subjects, id, None));
        },
        GateStep::TakeAborted => {},
        _ => {
            let now = match instant_of(step) {
                Some(now) => now,
                None => Instant { nanos: 0 },
            };
            lemma_step_carried(gate, step, now);
            assert(continuity::keeps_lookup(m, after.subjects, id, lookup_ended_by(step)));
        },
    }
}

/// Whether the lookup `generation` is dropped, and noted so, in the course of a run.
pub open spec fn dropped_in<P>(gate: GateModel<P>, steps: Seq<GateStep<P>>, generation: u64) -> bool
    decreases steps.len(),
{
    steps.len() > 0 && {
        ||| dropped_in(gate, steps.drop_last(), generation)
        ||| continuity::newly_aborted(
            gate.after_all(steps.drop_last()).subjects,
            gate.after_all(steps).subjects,
            generation,
        )
    }
}

/// Whether no step of a run brings the lookup `generation` of the entry `id` to its end.
pub open spec fn stays_open<P>(steps: Seq<GateStep<P>>, id: u64, generation: u64) -> bool {
    forall|i: int|
        0 <= i < steps.len() ==> lookup_ended_by(#[trigger] steps[i]) != Some((id, generation))
}

/// Whether a step is an attempt of an admission of `subject` in time.
pub open spec fn attempts<P>(step: GateStep<P>, subject: u64) -> bool {
    match step {
        GateStep::AdmitConnected { call, wait, now } => wait is Connected && call.subject == subject
            && now.nanos < call.deadline.nanos,
        _ => false,
    }
}

/// Whether step `i` of a run is told to wait for the lookup `generation` of the entry `id`.
pub open spec fn told_to_await<P>(
    gate: GateModel<P>,
    steps: Seq<GateStep<P>>,
    i: int,
    id: u64,
    generation: u64,
) -> bool {
    match steps[i] {
        GateStep::AdmitConnected { call, wait, now } => gate.after_all(
            steps.take(i),
        ).admit_connected(call, wait, now).1 == (AdmitStep::AwaitFetch {
            call,
            entry: id,
            generation,
        }),
        _ => false,
    }
}

/// An entry that awaits the lookup of its subject has the slot of that subject.
proof fn lemma_awaited_is_in_flight<P>(
    gate: GateModel<P>,
    after: GateModel<P>,
    subject: u64,
    id: u64,
    generation: u64,
)
    requires
        admission::in_flight(gate, subject, id, generation),
        laws::lawful(gate, after, false) || laws::lawful(gate, after, true),
        continuity::same_lookup(gate.subjects, after.subjects, id),
        after.connected == gate.connected,
    ensures
        admission::in_flight(after, subject, id, generation),
{
    let m = gate.subjects;
    let n = after.subjects;
    let i = recency::position(m.slots, subject);
    assert(recency::slot_at(m.slots, subject, i));
    assert(m.table[m.slots[i].1.0].subject == subject);
    assert(n.table[id].pending is Some);
    assert(subject_model::attached(n.slots, id));
    lemma_attached_matches(n, subject, id);
}

/// An entry of `subject` that has a slot has that of `subject`.
proof fn lemma_attached_matches<P>(m: SubjectModel<P>, subject: u64, id: u64)
    requires
        m.wf(),
        m.table.contains_key(id),
        m.table[id].subject == subject,
        subject_model::attached(m.slots, id),
    ensures
        m.matches_entry(subject, id),
{
    let j = choose|j: int| subject_model::names_entry(m.slots, id, j);
    assert(m.table[m.slots[j].1.0].subject == m.slots[j].0);
    assert(recency::slot_at(m.slots, subject, j));
    recency::lemma_position(m.slots, subject, j);
}

/// One step leaves a lookup in flight that it neither ends nor drops.
proof fn lemma_flight_after_step<P>(
    gate: GateModel<P>,
    step: GateStep<P>,
    subject: u64,
    id: u64,
    generation: u64,
)
    requires
        admission::in_flight(gate, subject, id, generation),
        gate.has_numbers(),
        lookup_ended_by(step) != Some((id, generation)),
        !continuity::newly_aborted(gate.subjects, gate.after(step).subjects, generation),
    ensures
        admission::in_flight(gate.after(step), subject, id, generation),
{
    laws::lemma_step(gate, step);
    every_step_keeps_the_lookups_in_flight(gate, step, id, generation);
    lemma_awaited_is_in_flight(gate, gate.after(step), subject, id, generation);
}

/// An attempt at a subject whose lookup is in flight is told to wait for it.
proof fn lemma_attempt_awaits<P>(
    gate: GateModel<P>,
    steps: Seq<GateStep<P>>,
    i: int,
    subject: u64,
    id: u64,
    generation: u64,
)
    requires
        0 <= i < steps.len(),
        admission::in_flight(gate.after_all(steps.take(i)), subject, id, generation),
        attempts(steps[i], subject),
    ensures
        told_to_await(gate, steps, i, id, generation),
{
    if let GateStep::AdmitConnected { call, now, .. } = steps[i] {
        admission::lemma_further_attempt(
            gate.after_all(steps.take(i)),
            call,
            id,
            generation,
            now,
        );
    }
}

/// A beginning of a run leaves a lookup open that the run leaves open.
proof fn lemma_beginning_of_a_run<P>(
    gate: GateModel<P>,
    steps: Seq<GateStep<P>>,
    n: int,
    id: u64,
    generation: u64,
)
    requires
        0 <= n <= steps.len(),
        gate.has_numbers_for(steps),
        stays_open(steps, id, generation),
        !dropped_in(gate, steps, generation),
    ensures
        gate.has_numbers_for(steps.take(n)),
        stays_open(steps.take(n), id, generation),
        !dropped_in(gate, steps.take(n), generation),
    decreases steps.len(),
{
    if n == steps.len() {
        assert(steps.take(n) =~= steps);
    } else {
        let earlier = steps.drop_last();
        assert forall|i: int| 0 <= i < earlier.len() implies lookup_ended_by(#[trigger] earlier[i])
            != Some((id, generation)) by {
            assert(earlier[i] == steps[i]);
        }
        lemma_beginning_of_a_run(gate, earlier, n, id, generation);
        assert(steps.take(n) =~= earlier.take(n));
    }
}

/// A lookup that a run neither ends nor drops is in flight at its end.
proof fn lemma_flight_after_run<P>(
    gate: GateModel<P>,
    steps: Seq<GateStep<P>>,
    subject: u64,
    id: u64,
    generation: u64,
)
    requires
        admission::in_flight(gate, subject, id, generation),
        gate.has_numbers_for(steps),
        stays_open(steps, id, generation),
        !dropped_in(gate, steps, generation),
    ensures
        admission::in_flight(gate.after_all(steps), subject, id, generation),
    decreases steps.len(),
{
    if steps.len() > 0 {
        let earlier = steps.drop_last();
        lemma_beginning_of_a_run(gate, steps, steps.len() - 1, id, generation);
        assert(steps.take(steps.len() - 1) =~= earlier);
        lemma_flight_after_run(gate, earlier, subject, id, generation);
        assert(lookup_ended_by(steps[steps.len() - 1]) != Some((id, generation)));
        lemma_flight_after_step(
            gate.after_all(earlier),
            steps.last(),
            subject,
            id,
            generation,
        );
    }
}

/// Whatever steps come between, of this subject or of others, every admission of a subject whose
/// lookup is in flight waits for that lookup: as long as the lookup neither ends nor is dropped,
/// none repeats it, and a cancelled admission, which takes no further step, does not end it.
pub proof fn admissions_of_a_run_share_one_lookup<P>(
    gate: GateModel<P>,
    steps: Seq<GateStep<P>>,
    subject: u64,
    id: u64,
    generation: u64,
)
    requires
        admission::in_flight(gate, subject, id, generation),
        gate.has_numbers_for(steps),
        stays_open(steps, id, generation),
        !dropped_in(gate, steps, generation),
    ensures
        admission::in_flight(gate.after_all(steps), subject, id, generation),
        forall|i: int|
            0 <= i < steps.len() && attempts(#[trigger] steps[i], subject) ==> told_to_await(
                gate,
                steps,
                i,
                id,
                generation,
            ),
{
    lemma_flight_after_run(gate, steps, subject, id, generation);
    assert forall|i: int|
        0 <= i < steps.len() && attempts(#[trigger] steps[i], subject) implies told_to_await(
        gate,
        steps,
        i,
        id,
        generation,
    ) by {
        lemma_beginning_of_a_run(gate, steps, i, id, generation);
        lemma_flight_after_run(gate, steps.take(i), subject, id, generation);
        lemma_attempt_awaits(gate, steps, i, subject, id, generation);
    }
}

/// Whether a step brings a decision for the entry `id` of `subject`.
pub open spec fn decides<P>(step: GateStep<P>, subject: u64, id: u64) -> bool {
    match step {
        GateStep::Change { subject: changed, decision, .. } => changed == subject
            && decision is Some,
        GateStep::LookupEnd { entry, .. } => entry == id,
        _ => false,
    }
}

/// Whether an entry has its decision still, or has lost it.
spec fn keeps_decision<P>(before: GateModel<P>, after: GateModel<P>, id: u64) -> bool {
    after.subjects.table.contains_key(id) ==> evolution::entry_keeps_decision(
        before.subjects.table[id],
        after.subjects.table[id],
    )
}

/// A step that decides about other subjects leaves an entry its decision, or drops it.
proof fn lemma_step_keeps_decision<P>(
    gate: GateModel<P>,
    step: GateStep<P>,
    subject: u64,
    id: u64,
)
    requires
        gate.wf(),
        gate.has_numbers(),
        gate.subjects.table.contains_key(id),
        gate.subjects.table[id].subject == subject,
        !decides(step, subject, id),
    ensures
        keeps_decision(gate, gate.after(step), id),
{
    let m = gate.subjects;
    laws::lemma_step(gate, step);
    match step {
        GateStep::Change { subject: changed, decision: Some(decision), now } => {
            let tick = m.spec_tick(now);
            evolution::lemma_evicted_evolves(m, tick);
            let room = m.evicted(tick);
            if recency::holds(room.slots, changed) {
                let i = recency::position(room.slots, changed);
                assert(recency::slot_at(room.slots, changed, i));
                assert(room.table[room.slots[i].1.0].subject == changed);
                assert(room.table.contains_key(id));
                assert(room.table[id].subject == subject);
            }
        },
        _ => {},
    }
}

/// Whether the entry `id` answers for `subject` with `decision` while the watch is up, or has lost
/// its decision.
pub open spec fn answers_or_lost<P>(
    gate: GateModel<P>,
    subject: u64,
    id: u64,
    decision: Decision,
) -> bool {
    ||| admission::answers(gate, subject, id, decision)
    ||| {
        &&& gate.wf()
        &&& id < gate.subjects.next_id
        &&& gate.subjects.table.contains_key(id) ==> gate.subjects.table[id].state()
            == EntryState::Stale && gate.subjects.table[id].subject == subject
    }
}

/// Whatever steps come between, a decision stands until another one comes for its subject, or is
/// lost for all: it expires, or the subject leaves the map, or the watch goes down.
pub proof fn a_decision_stands_through_a_run<P>(
    gate: GateModel<P>,
    steps: Seq<GateStep<P>>,
    subject: u64,
    id: u64,
    decision: Decision,
)
    requires
        answers_or_lost(gate, subject, id, decision),
        gate.has_numbers_for(steps),
        forall|i: int| 0 <= i < steps.len() ==> !decides(#[trigger] steps[i], subject, id),
    ensures
        answers_or_lost(gate.after_all(steps), subject, id, decision),
    decreases steps.len(),
{
    if steps.len() > 0 {
        let earlier = steps.drop_last();
        let before = gate.after_all(earlier);
        let step = steps.last();
        assert forall|i: int| 0 <= i < earlier.len() implies !decides(
            #[trigger] earlier[i],
            subject,
            id,
        ) by {
            assert(earlier[i] == steps[i]);
        }
        a_decision_stands_through_a_run(gate, earlier, subject, id, decision);
        assert(!decides(steps[steps.len() - 1], subject, id));
        lemma_answer_after_step(before, step, subject, id, decision);
    }
}

proof fn lemma_answer_after_step<P>(
    gate: GateModel<P>,
    step: GateStep<P>,
    subject: u64,
    id: u64,
    decision: Decision,
)
    requires
        answers_or_lost(gate, subject, id, decision),
        gate.has_numbers(),
        !decides(step, subject, id),
    ensures
        answers_or_lost(gate.after(step), subject, id, decision),
{
    let m = gate.subjects;
    let after = gate.after(step);
    laws::lemma_step(gate, step);
    if m.table.contains_key(id) {
        if admission::answers(gate, subject, id, decision) {
            let i = recency::position(m.slots, subject);
            assert(recency::slot_at(m.slots, subject, i));
            assert(m.table[m.slots[i].1.0].subject == subject);
        }
        lemma_step_keeps_decision(gate, step, subject, id);
        if after.subjects.table.contains_key(id) && after.subjects.table[id].state()
            != EntryState::Stale {
            match step {
                GateStep::WatchConnected | GateStep::WatchDisconnected { .. } => {
                    subject_model::lemma_cleared(m);
                },
                GateStep::TakeAborted => {},
                _ => {
                    let now = match instant_of(step) {
                        Some(now) => now,
                        None => Instant { nanos: 0 },
                    };
                    lemma_step_carried(gate, step, now);
                },
            }
            assert(subject_model::attached(after.subjects.slots, id));
            lemma_attached_matches(after.subjects, subject, id);
        }
    }
}

/// Single flight: an admission of an unknown subject starts a lookup, and every admission of that
/// subject which overlaps it waits for the same one, whatever other steps come `between`. Once the
/// lookup has brought a decision, and whatever steps come `since`, every admission that still waits
/// returns this verdict, and a later one is served from the map without a lookup.
///
/// The verdict stands unless the decision has expired, or was replaced or lost meanwhile. A due
/// refresh is handed over before the admission returns.
pub proof fn overlapping_admissions_make_one_lookup<P>(
    gate: GateModel<P>,
    first: AdmitCall,
    at: Instant,
    between: Seq<GateStep<P>>,
    result: DecisionResult<P>,
    end: Instant,
    since: Seq<GateStep<P>>,
    call: AdmitCall,
    now: Instant,
)
    requires
        ({
            let id = gate.subjects.next_id;
            let generation = (id + 1) as u64;
            let flight = gate.admit_connected(first, ConnectionWait::Connected, at).0;
            let awaited = flight.after_all(between);
            let resolved = awaited.fetched(first.subject, id, generation, Ok(result), end);
            &&& gate.wf()
            &&& gate.connected
            &&& gate.has_numbers()
            &&& !recency::holds(gate.subjects.slots, first.subject)
            &&& at.nanos < first.deadline.nanos
            &&& flight.has_numbers_for(between)
            &&& stays_open(between, id, generation)
            &&& !dropped_in(flight, between, generation)
            &&& awaited.has_numbers()
            &&& awaited.seen_failure(id, generation, Ok(result), end) is None
            &&& resolved.has_numbers_for(since)
            &&& forall|i: int|
                0 <= i < since.len() ==> !decides(#[trigger] since[i], first.subject, id)
        }),
    ensures
        ({
            let id = gate.subjects.next_id;
            let generation = (id + 1) as u64;
            let (flight, step) = gate.admit_connected(first, ConnectionWait::Connected, at);
            let awaited = flight.after_all(between);
            let resolved = awaited.fetched(first.subject, id, generation, Ok(result), end);
            let later = resolved.after_all(since);
            &&& step == AdmitStep::AwaitFetch { call: first, entry: id, generation }
            &&& forall|i: int|
                0 <= i < between.len() && attempts(#[trigger] between[i], first.subject)
                    ==> told_to_await(flight, between, i, id, generation)
            &&& admission::in_flight(awaited, first.subject, id, generation)
            &&& admission::answers(resolved, first.subject, id, result.decision)
            &&& later.subjects.verdict(id, now) is None || {
                let (after, step) = later.admit_fetched(call, id, FetchWait::Ended(Ok(())), now);
                &&& later.subjects.verdict(id, now) == Some(result.decision)
                &&& after.subjects.verdict(id, now) == Some(result.decision)
                &&& admission::starts_no_refresh(later, id, now) ==> after == later && step
                    == AdmitStep::Done(Some(Admission { entry: id }))
                &&& !admission::starts_no_refresh(later, id, now) ==> {
                    &&& step matches AdmitStep::AwaitQueue { entry, generation, late, .. }
                    &&& entry == id
                    &&& forall|queued: bool| #[trigger]
                        after.admit_queued(call, id, generation, late, queued, now).1
                            == AdmitStep::Done(Some(Admission { entry: id }))
                }
                &&& call.subject == first.subject && now.nanos < call.deadline.nanos
                    && admission::starts_no_refresh(later, id, now) ==> {
                    let (served, step) = later.admit_connected(
                        call,
                        ConnectionWait::Connected,
                        now,
                    );
                    &&& step == AdmitStep::Done(Some(Admission { entry: id }))
                    &&& served.subjects.verdict(id, now) == Some(result.decision)
                    &&& served.subjects.table[id].pending == later.subjects.table[id].pending
                    &&& served.subjects.next_id == later.subjects.next_id
                }
            }
        }),
{
    let subject = first.subject;
    let id = gate.subjects.next_id;
    let generation = (id + 1) as u64;
    admission::lemma_first_attempt(gate, first, at);
    let flight = gate.admit_connected(first, ConnectionWait::Connected, at).0;
    admissions_of_a_run_share_one_lookup(flight, between, subject, id, generation);
    let awaited = flight.after_all(between);
    admission::lemma_resolved(awaited, subject, id, generation, result, end);
    let resolved = awaited.fetched(subject, id, generation, Ok(result), end);
    a_decision_stands_through_a_run(resolved, since, subject, id, result.decision);
    let later = resolved.after_all(since);
    if later.subjects.verdict(id, now) is Some {
        let i = recency::position(later.subjects.slots, subject);
        assert(recency::slot_at(later.subjects.slots, subject, i));
        assert(later.subjects.table[later.subjects.slots[i].1.0].subject == subject);
        admission::lemma_waiting_admission_returns(later, call, id, result.decision, now);
        if call.subject == subject && now.nanos < call.deadline.nanos
            && admission::starts_no_refresh(later, id, now) {
            admission::lemma_later_admission_is_served(later, call, id, result.decision, now);
        }
    }
}

/// Every step at `now` keeps the subjects in the order of their use, none of them used after `now`.
pub proof fn every_step_keeps_the_order_of_use<P>(
    gate: GateModel<P>,
    step: GateStep<P>,
    now: Instant,
)
    requires
        gate.wf(),
        gate.has_numbers(),
        continuity::ordered(gate.subjects, now),
        instant_of(step) is Some ==> instant_of(step) == Some(now),
    ensures
        continuity::ordered(gate.after(step).subjects, now),
{
    match step {
        GateStep::WatchConnected | GateStep::WatchDisconnected { .. } => {
            continuity::lemma_cleared_carries(gate.subjects, now);
        },
        GateStep::TakeAborted => {},
        _ => {
            lemma_step_carried(gate, step, now);
        },
    }
}

/// Instant of the last step of a run that has one, or `start`.
pub open spec fn clock_after<P>(steps: Seq<GateStep<P>>, start: Instant) -> Instant
    decreases steps.len(),
{
    if steps.len() == 0 {
        start
    } else {
        match instant_of(steps.last()) {
            Some(now) => now,
            None => clock_after(steps.drop_last(), start),
        }
    }
}

/// Whether the clock does not run backwards in a run that begins at `start`.
pub open spec fn clock_runs_forward<P>(steps: Seq<GateStep<P>>, start: Instant) -> bool
    decreases steps.len(),
{
    steps.len() > 0 ==> {
        &&& clock_runs_forward(steps.drop_last(), start)
        &&& clock_after(steps.drop_last(), start).nanos <= clock_after(steps, start).nanos
    }
}

/// While the clock does not run backwards, every run keeps the subjects in the order of their use.
/// So no idle subject is left after an eviction at the end of the run. A new map is in order.
pub proof fn every_run_keeps_the_order_of_use<P>(
    gate: GateModel<P>,
    steps: Seq<GateStep<P>>,
    start: Instant,
)
    requires
        gate.wf(),
        gate.has_numbers_for(steps),
        continuity::ordered(gate.subjects, start),
        clock_runs_forward(steps, start),
    ensures
        continuity::ordered(gate.after_all(steps).subjects, clock_after(steps, start)),
        ({
            let m = gate.after_all(steps).subjects;
            forall|tick: int, i: int|
                0 <= i < m.evicted(tick).slots.len() ==> !m.idle(
                    #[trigger] m.evicted(tick).slots[i],
                    tick,
                )
        }),
    decreases steps.len(),
{
    if steps.len() > 0 {
        let before = gate.after_all(steps.drop_last());
        let earlier = clock_after(steps.drop_last(), start);
        every_run_keeps_the_order_of_use(gate, steps.drop_last(), start);
        laws::every_run_keeps_a_gate_in_order(gate, steps.drop_last());
        continuity::lemma_ordered_later(before.subjects, earlier, clock_after(steps, start));
        every_step_keeps_the_order_of_use(before, steps.last(), clock_after(steps, start));
    }
    let m = gate.after_all(steps).subjects;
    assert forall|tick: int, i: int|
        0 <= i < m.evicted(tick).slots.len() implies !m.idle(
        #[trigger] m.evicted(tick).slots[i],
        tick,
    ) by {
        cache::eviction_leaves_no_idle_subject(m, tick, i);
    }
}

} // verus!
