//! Laws of cached reads: what the snapshot holds, and what a read of it yields.

use vstd::prelude::*;

use crate::admission::Admission;
use crate::admitting::{AdmitCall, ConnectionWait};
use crate::decision::{Decision, DecisionSourceError, DecisionSourceErrorKind};
use crate::entry::EntryState;
use crate::evolution;
use crate::gate;
use crate::gate::{Access, GateModel};
use crate::laws;
use crate::laws::admission;
use crate::laws::idleness;
use crate::laws::GateStep;
use crate::metrics::MetricEvent;
use crate::recency;
use crate::recency::Slot;
use crate::subject_model;
use crate::subject_model::{Removal, SubjectModel};
use crate::time::Instant;

verus! {

/// Whether the entry `id` is one that was made for `subject`, or that has been forgotten since.
pub open spec fn made_for<P>(m: SubjectModel<P>, id: u64, subject: u64) -> bool {
    &&& id < m.next_id
    &&& m.table.contains_key(id) ==> m.table[id].subject == subject
}

/// Whether `entries` give every subject an entry that was made for it.
pub open spec fn own_entries<P>(entries: Map<u64, u64>, m: SubjectModel<P>) -> bool {
    forall|subject: u64| #[trigger]
        entries.contains_key(subject) ==> made_for(m, entries[subject], subject)
}

/// Whether the snapshot gives every subject an entry that was made for it.
pub open spec fn serves_own<P>(gate: GateModel<P>) -> bool {
    own_entries(gate.snapshot, gate.subjects)
}

/// A copy of the map gives every cached subject the entry of its own slot, and knows no other
/// subject.
pub proof fn a_copy_holds_every_slot(slots: Seq<Slot>, i: int, subject: u64)
    requires
        recency::distinct_subjects(slots),
        0 <= i < slots.len(),
    ensures
        gate::snapshot_of(slots).contains_key(slots[i].0),
        gate::snapshot_of(slots)[slots[i].0] == slots[i].1.0,
        gate::snapshot_of(slots).contains_key(subject) ==> exists|j: int|
            0 <= j < slots.len() && #[trigger] slots[j].0 == subject,
{
    assert(recency::slot_at(slots, slots[i].0, i));
    recency::lemma_position(slots, slots[i].0, i);
    if gate::snapshot_of(slots).contains_key(subject) {
        let j = recency::position(slots, subject);
        assert(recency::slot_at(slots, subject, j));
        assert(slots[j].0 == subject);
    }
}

proof fn lemma_copy_is_own<P>(m: SubjectModel<P>)
    requires
        m.wf(),
    ensures
        own_entries(gate::snapshot_of(m.slots), m),
{
    let entries = gate::snapshot_of(m.slots);
    assert forall|subject: u64| #[trigger] entries.contains_key(subject) implies made_for(
        m,
        entries[subject],
        subject,
    ) by {
        let j = recency::position(m.slots, subject);
        assert(recency::slot_at(m.slots, subject, j));
        a_copy_holds_every_slot(m.slots, j, subject);
        assert(m.table.contains_key(m.slots[j].1.0));
    }
}

/// Entries that were made for their subjects stay so: numbers are given out once.
pub proof fn lemma_own_entries_stay<P>(
    entries: Map<u64, u64>,
    before: SubjectModel<P>,
    after: SubjectModel<P>,
)
    requires
        own_entries(entries, before),
        evolution::evolves(before, after),
    ensures
        own_entries(entries, after),
{
    assert forall|subject: u64| #[trigger] entries.contains_key(subject) implies made_for(
        after,
        entries[subject],
        subject,
    ) by {
        let id = entries[subject];
        assert(made_for(before, id, subject));
        if after.table.contains_key(id) {
            assert(before.table.contains_key(id));
        }
    }
}

proof fn lemma_evolved_serves_own<P>(gate: GateModel<P>, after: GateModel<P>)
    requires
        serves_own(gate),
        evolution::evolves(gate.subjects, after.subjects),
        after.snapshot == gate.snapshot,
    ensures
        serves_own(after),
{
    lemma_own_entries_stay(gate.snapshot, gate.subjects, after.subjects);
}

proof fn lemma_republished_serves_own<P>(gate: GateModel<P>, now: Instant)
    requires
        gate.wf(),
        serves_own(gate),
    ensures
        serves_own(gate.republished(now)),
        gate.republished(now).wf(),
{
    lemma_copy_is_own(gate.subjects);
    let after = gate.republished(now);
    assert(after.subjects.table == gate.subjects.table);
    assert(after.subjects.next_id == gate.subjects.next_id);
    assert forall|subject: u64| #[trigger] after.snapshot.contains_key(subject) implies made_for(
        after.subjects,
        after.snapshot[subject],
        subject,
    ) by {
        if gate.snapshot.contains_key(subject) {
            assert(made_for(gate.subjects, gate.snapshot[subject], subject));
        }
        if gate::snapshot_of(gate.subjects.slots).contains_key(subject) {
            assert(made_for(
                gate.subjects,
                gate::snapshot_of(gate.subjects.slots)[subject],
                subject,
            ));
        }
    }
}

proof fn lemma_joined_serves_own<P>(gate: GateModel<P>, subject: u64, now: Instant)
    requires
        gate.wf(),
        gate.has_numbers(),
        serves_own(gate),
    ensures
        serves_own(gate.joined(subject, now)),
        gate.joined(subject, now).wf(),
{
    let refresh_before = gate.settings.refresh_before_expiry;
    evolution::lemma_joined_evolves(gate.subjects, subject, now, refresh_before);
    subject_model::lemma_joined(gate.subjects, subject, now, refresh_before);
    let subjects = gate.subjects.joined(subject, now, refresh_before);
    lemma_evolved_serves_own(gate, gate.with_subjects(subjects));
    lemma_evolved_serves_own(gate, gate.with_subjects(subjects.marked()));
    lemma_republished_serves_own(gate.with_subjects(subjects), now);
    lemma_republished_serves_own(gate.with_subjects(subjects.marked()), now);
}

proof fn lemma_discarded_serves_own<P>(
    gate: GateModel<P>,
    subject: u64,
    id: u64,
    now: Instant,
    removal: Removal,
)
    requires
        gate.wf(),
        serves_own(gate),
    ensures
        serves_own(gate.discarded(subject, id, now, removal)),
        serves_own(gate.discarded(subject, id, now, removal).republished(now)),
{
    evolution::lemma_removed_if_evolves(gate.subjects, subject, id, now, removal);
    let after = gate.discarded(subject, id, now, removal);
    lemma_evolved_serves_own(gate, after);
    assert(after.wf());
    lemma_republished_serves_own(after, now);
}

proof fn lemma_attempt_serves_own<P>(
    gate: GateModel<P>,
    call: AdmitCall,
    wait: ConnectionWait,
    now: Instant,
)
    requires
        gate.wf(),
        gate.has_numbers(),
        serves_own(gate),
    ensures
        serves_own(gate.admit_connected(call, wait, now).0),
{
    let id = gate.subjects.joined_entry(call.subject);
    lemma_joined_serves_own(gate, call.subject, now);
    subject_model::lemma_joined(
        gate.subjects,
        call.subject,
        now,
        gate.settings.refresh_before_expiry,
    );
    let joined = gate.joined(call.subject, now);
    lemma_discarded_serves_own(joined, call.subject, id, now, Removal::Always);
    evolution::lemma_looked_evolves(joined.subjects, id, now);
    let seen = joined.looked(id, now);
    lemma_evolved_serves_own(joined, seen);
    let hit = seen.emit(MetricEvent::MapHit);
    laws::lemma_accessed_evolves(hit, id, Some(call.deadline), now);
    lemma_evolved_serves_own(hit, hit.accessed(id, Some(call.deadline), now).0);
    lemma_discarded_serves_own(seen, call.subject, id, now, Removal::Stale);
}

/// No step makes the snapshot give a subject an entry that was made for another one. A rebuild that
/// is committed must have been collected from the map.
pub proof fn every_step_serves_subjects_their_own_entry<P>(gate: GateModel<P>, step: GateStep<P>)
    requires
        gate.wf(),
        gate.has_numbers(),
        serves_own(gate),
        step matches GateStep::RepublishCommit { entries, .. } ==> own_entries(
            entries,
            gate.subjects,
        ),
    ensures
        serves_own(gate.after(step)),
{
    laws::lemma_step(gate, step);
    let after = gate.after(step);
    match step {
        GateStep::Change { subject, decision, now } => {
            let mid = match decision {
                Some(decision) => {
                    let ttl = gate.settings.decision_freshness_ttl;
                    subject_model::lemma_changed(gate.subjects, subject, decision, ttl, now);
                    evolution::lemma_changed_evolves(gate.subjects, subject, decision, ttl, now);
                    gate.with_subjects(gate.subjects.changed(subject, decision, ttl, now))
                },
                None => {
                    subject_model::lemma_withdrawn(gate.subjects, subject, now);
                    evolution::lemma_withdrawn_evolves(gate.subjects, subject, now);
                    gate.with_subjects(gate.subjects.withdrawn(subject, now))
                },
            };
            lemma_evolved_serves_own(gate, mid);
            lemma_republished_serves_own(mid, now);
        },
        GateStep::RepublishCommit { .. } => {},
        GateStep::Republish { now } => {
            lemma_republished_serves_own(gate, now);
        },
        GateStep::LookupEnd { subject, entry, generation, result, now } => {
            let settings = gate.settings;
            subject_model::lemma_fetched(
                gate.subjects,
                subject,
                entry,
                generation,
                result,
                settings,
                now,
            );
            evolution::lemma_fetched_evolves(
                gate.subjects,
                subject,
                entry,
                generation,
                result,
                settings,
                now,
            );
            let mid = gate.with_subjects(
                gate.subjects.fetched(subject, entry, generation, result, settings, now),
            );
            lemma_evolved_serves_own(gate, mid);
            lemma_republished_serves_own(mid, now);
        },
        GateStep::Join { subject, now } => {
            lemma_joined_serves_own(gate, subject, now);
        },
        GateStep::AdmitConnected { call, wait, now } => {
            lemma_attempt_serves_own(gate, call, wait, now);
        },
        GateStep::WatchConnected => {},
        GateStep::WatchDisconnected { .. } => {},
        _ => {
            lemma_snapshot_stays(gate, step);
            lemma_evolved_serves_own(gate, after);
        },
    }
}

/// A step that neither rebuilds nor empties the snapshot leaves it as it is.
proof fn lemma_snapshot_stays<P>(gate: GateModel<P>, step: GateStep<P>)
    requires
        !(step is Change),
        !(step is RepublishCommit),
        !(step is Republish),
        !(step is LookupEnd),
        !(step is Join),
        !(step is AdmitConnected),
        !(step is WatchConnected),
        !(step is WatchDisconnected),
    ensures
        gate.after(step).snapshot == gate.snapshot,
{
}

/// Whether every rebuild that a run commits was collected from the map, then or earlier in the run.
pub open spec fn rebuilds_are_collected<P>(gate: GateModel<P>, steps: Seq<GateStep<P>>) -> bool {
    forall|i: int|
        0 <= i < steps.len() ==> (#[trigger] steps[i] matches GateStep::RepublishCommit {
            entries,
            ..
        } ==> exists|k: int| 0 <= k <= i && entries == #[trigger] collected(gate, steps, k))
}

/// What a rebuild collects after `k` steps of a run.
pub open spec fn collected<P>(gate: GateModel<P>, steps: Seq<GateStep<P>>, k: int) -> Map<u64, u64> {
    gate::snapshot_of(gate.after_all(steps.take(k)).subjects.slots)
}

proof fn lemma_own_entries_after_run<P>(
    gate: GateModel<P>,
    steps: Seq<GateStep<P>>,
    k: int,
    entries: Map<u64, u64>,
)
    requires
        gate.wf(),
        gate.has_numbers_for(steps),
        0 <= k <= steps.len(),
        own_entries(entries, gate.after_all(steps.take(k)).subjects),
    ensures
        own_entries(entries, gate.after_all(steps).subjects),
    decreases steps.len(),
{
    if k == steps.len() {
        assert(steps.take(k) =~= steps);
    } else {
        let earlier = steps.drop_last();
        assert(steps.take(k) =~= earlier.take(k));
        lemma_own_entries_after_run(gate, earlier, k, entries);
        laws::every_run_keeps_a_gate_in_order(gate, earlier);
        lemma_own_entries_after_step(gate.after_all(earlier), steps.last(), entries);
    }
}

proof fn lemma_has_numbers_at_first<P>(gate: GateModel<P>, steps: Seq<GateStep<P>>, k: int)
    requires
        gate.has_numbers_for(steps),
        0 <= k <= steps.len(),
    ensures
        gate.has_numbers_for(steps.take(k)),
    decreases steps.len(),
{
    if k == steps.len() {
        assert(steps.take(k) =~= steps);
    } else {
        assert(steps.take(k) =~= steps.drop_last().take(k));
        lemma_has_numbers_at_first(gate, steps.drop_last(), k);
    }
}

proof fn lemma_collected_stays_own<P>(gate: GateModel<P>, steps: Seq<GateStep<P>>, k: int)
    requires
        gate.wf(),
        gate.has_numbers_for(steps),
        0 <= k <= steps.len(),
    ensures
        own_entries(collected(gate, steps, k), gate.after_all(steps).subjects),
{
    lemma_has_numbers_at_first(gate, steps, k);
    laws::every_run_keeps_a_gate_in_order(gate, steps.take(k));
    lemma_copy_is_own(gate.after_all(steps.take(k)).subjects);
    lemma_own_entries_after_run(gate, steps, k, collected(gate, steps, k));
}

proof fn lemma_own_entries_after_step<P>(
    gate: GateModel<P>,
    step: GateStep<P>,
    entries: Map<u64, u64>,
)
    requires
        gate.wf(),
        gate.has_numbers(),
        own_entries(entries, gate.subjects),
    ensures
        own_entries(entries, gate.after(step).subjects),
{
    laws::lemma_step(gate, step);
    lemma_own_entries_stay(entries, gate.subjects, gate.after(step).subjects);
}

/// After every run of steps the snapshot gives no subject an entry of another one. A new gate, whose
/// snapshot is empty, meets what is asked of the start.
pub proof fn every_run_serves_subjects_their_own_entry<P>(
    gate: GateModel<P>,
    steps: Seq<GateStep<P>>,
)
    requires
        gate.wf(),
        serves_own(gate),
        gate.has_numbers_for(steps),
        rebuilds_are_collected(gate, steps),
    ensures
        serves_own(gate.after_all(steps)),
    decreases steps.len(),
{
    if steps.len() > 0 {
        let earlier = steps.drop_last();
        let last = steps.len() - 1;
        assert forall|i: int| 0 <= i < earlier.len() implies (
        #[trigger] earlier[i] matches GateStep::RepublishCommit { entries, .. } ==> exists|k: int|
            0 <= k <= i && entries == #[trigger] collected(gate, earlier, k)) by {
            assert(earlier[i] == steps[i]);
            if let GateStep::RepublishCommit { entries, .. } = steps[i] {
                let k = choose|k: int|
                    0 <= k <= i && entries == #[trigger] collected(gate, steps, k);
                assert(steps.take(k) =~= earlier.take(k));
                assert(entries == collected(gate, earlier, k));
            }
        }
        every_run_serves_subjects_their_own_entry(gate, earlier);
        laws::every_run_keeps_a_gate_in_order(gate, earlier);
        if let GateStep::RepublishCommit { entries, .. } = steps[last] {
            let k = choose|k: int|
                0 <= k <= last && entries == #[trigger] collected(gate, steps, k);
            assert(steps.take(k) =~= earlier.take(k));
            lemma_collected_stays_own(gate, earlier, k);
        }
        every_step_serves_subjects_their_own_entry(gate.after_all(earlier), steps.last());
    }
}

/// After every run of steps from an empty snapshot, a cached read that yields an admission yields
/// one of an entry that was made for the subject that was asked for.
pub proof fn a_cached_read_yields_the_subjects_own_entry<P>(
    start: GateModel<P>,
    steps: Seq<GateStep<P>>,
    subject: u64,
    now: Instant,
)
    requires
        start.wf(),
        start.snapshot == Map::<u64, u64>::empty(),
        start.has_numbers_for(steps),
        rebuilds_are_collected(start, steps),
    ensures
        ({
            let gate = start.after_all(steps);
            let table = gate.subjects.table;
            &&& gate.checked(subject, now).1 matches Access::Ready(admission)
                ==> table.contains_key(admission.entry) && table[admission.entry].subject
                == subject
            &&& gate.checked(subject, now).1 matches Access::Enqueue { admission, .. }
                ==> table.contains_key(admission.entry) && table[admission.entry].subject
                == subject
            &&& gate.peeked(subject, now).1 matches Some(admission) ==> table.contains_key(
                admission.entry,
            ) && table[admission.entry].subject == subject
        }),
{
    every_run_serves_subjects_their_own_entry(start, steps);
    let gate = start.after_all(steps);
    if gate.snapshot.contains_key(subject) {
        assert(made_for(gate.subjects, gate.snapshot[subject], subject));
    }
}

/// An entry with a decision in force has the slot of its subject.
proof fn lemma_in_force_matches<P>(m: SubjectModel<P>, subject: u64, id: u64, now: Instant)
    requires
        m.wf(),
        m.table.contains_key(id),
        m.table[id].subject == subject,
        m.verdict(id, now) is Some,
    ensures
        m.matches_entry(subject, id),
        m.looked(id, now) == m,
        ({
            let used = m.looked(id, now).touched(subject, id, now);
            &&& used.table.contains_key(id)
            &&& used.verdict(id, now) == m.verdict(id, now)
            &&& used.table[id] == m.table[id]
            &&& used.slots.len() > 0
            &&& used.slots[0].0 == subject
            &&& used.slots[0].1.0 == id
        }),
{
    assert(subject_model::attached(m.slots, id));
    let j = choose|j: int| subject_model::names_entry(m.slots, id, j);
    assert(m.table[m.slots[j].1.0].subject == m.slots[j].0);
    assert(recency::slot_at(m.slots, subject, j));
    recency::lemma_position(m.slots, subject, j);
    assert(m.looked(id, now).table =~= m.table);
    assert(m.looked(id, now) == m);
    let tick = m.spec_tick(now);
    subject_model::lemma_promoted(m, j, tick);
    subject_model::lemma_evicted(m.promoted(j, tick), tick);
    subject_model::lemma_front_survives(m.promoted(j, tick), tick);
}

/// A cached read without refresh finds a decision in force.
pub proof fn lemma_peek_finds<P>(gate: GateModel<P>, subject: u64, now: Instant)
    requires
        gate.wf(),
        gate.snapshot.contains_key(subject),
        made_for(gate.subjects, gate.snapshot[subject], subject),
        gate.subjects.verdict(gate.snapshot[subject], now) is Some,
    ensures
        ({
            let id = gate.snapshot[subject];
            let peeked = gate.peeked(subject, now);
            &&& peeked.1 == Some(Admission { entry: id })
            &&& peeked.0.subjects.verdict(id, now) == gate.subjects.verdict(id, now)
            &&& peeked.0.subjects.next_id == gate.subjects.next_id
            &&& peeked.0.subjects.slots.len() > 0
            &&& peeked.0.subjects.slots[0].0 == subject
            &&& peeked.0.subjects.slots[0].1.0 == id
        }),
{
    let id = gate.snapshot[subject];
    lemma_in_force_matches(gate.subjects, subject, id, now);
    let seen = gate.looked(id, now);
    let used = seen.with_subjects(seen.subjects.touched(subject, id, now));
    assert(used.subjects.table.contains_key(id));
    assert(used.looked(id, now).subjects.table[id] == used.subjects.table[id]);
    subject_model::lemma_looked(gate.subjects, id, now);
    subject_model::lemma_touched(seen.subjects, subject, id, now);
}

proof fn lemma_check_finds<P>(gate: GateModel<P>, subject: u64, now: Instant)
    requires
        gate.wf(),
        gate.snapshot.contains_key(subject),
        made_for(gate.subjects, gate.snapshot[subject], subject),
        gate.subjects.verdict(gate.snapshot[subject], now) is Some,
    ensures
        ({
            let id = gate.snapshot[subject];
            let checked = gate.checked(subject, now);
            &&& checked.1 == Access::Ready(Admission { entry: id }) || (
            checked.1 matches Access::Enqueue { admission, .. } && admission.entry == id)
            &&& checked.0.subjects.verdict(id, now) == gate.subjects.verdict(id, now)
            &&& checked.0.subjects.slots.len() > 0
            &&& checked.0.subjects.slots[0].0 == subject
            &&& checked.0.subjects.slots[0].1.0 == id
        }),
{
    let id = gate.snapshot[subject];
    lemma_in_force_matches(gate.subjects, subject, id, now);
    let seen = gate.looked(id, now);
    let used = seen.with_subjects(seen.subjects.touched(subject, id, now));
    assert(used.subjects.table.contains_key(id));
    assert(used.looked(id, now).subjects.table[id] == used.subjects.table[id]);
}

/// A cached read finds the decision of its subject where the snapshot names an entry of the subject
/// whose decision is in force, and nothing in every other case. It names that entry, does not change
/// the decision, and makes the subject the most recently used one.
pub proof fn a_cached_read_finds_a_decision_in_force<P>(
    gate: GateModel<P>,
    subject: u64,
    now: Instant,
)
    requires
        gate.wf(),
        serves_own(gate),
    ensures
        gate.snapshot.contains_key(subject) && gate.subjects.verdict(
            gate.snapshot[subject],
            now,
        ) is Some ==> {
            let id = gate.snapshot[subject];
            let peeked = gate.peeked(subject, now);
            let checked = gate.checked(subject, now);
            &&& peeked.1 == Some(Admission { entry: id })
            &&& peeked.0.subjects.verdict(id, now) == gate.subjects.verdict(id, now)
            &&& peeked.0.subjects.next_id == gate.subjects.next_id
            &&& peeked.0.subjects.slots[0].0 == subject
            &&& peeked.0.subjects.slots[0].1.0 == id
            &&& checked.1 == Access::Ready(Admission { entry: id }) || (
            checked.1 matches Access::Enqueue { admission, .. } && admission.entry == id)
            &&& checked.0.subjects.verdict(id, now) == gate.subjects.verdict(id, now)
            &&& checked.0.subjects.slots[0].0 == subject
            &&& checked.0.subjects.slots[0].1.0 == id
        },
        !(gate.snapshot.contains_key(subject) && gate.subjects.verdict(
            gate.snapshot[subject],
            now,
        ) is Some) ==> {
            &&& gate.peeked(subject, now).1 is None
            &&& gate.checked(subject, now).1 is Unavailable
            &&& gate.checked(subject, now).0.subjects.slots == gate.subjects.slots
        },
        gate.checked(subject, now).0.snapshot == gate.snapshot,
        gate.checked(subject, now).0.events == gate.events,
        gate.peeked(subject, now).0.events == gate.events,
{
    if gate.snapshot.contains_key(subject) {
        let id = gate.snapshot[subject];
        assert(made_for(gate.subjects, id, subject));
        if gate.subjects.verdict(id, now) is Some {
            lemma_peek_finds(gate, subject, now);
            lemma_check_finds(gate, subject, now);
        }
    }
}

/// An access to a decision in force hands its refresh over exactly where refreshes are enabled, this
/// one is due, and there is an instant until which the hand-over may take: the earlier of the
/// queue's timeout and the end of the admission. The refresh then is the one lookup in flight.
pub proof fn an_access_hands_a_due_refresh_over<P>(
    gate: GateModel<P>,
    id: u64,
    admission_deadline: Option<Instant>,
    now: Instant,
)
    requires
        gate.wf(),
        gate.subjects.verdict(id, now) is Some,
        gate.subjects.next_id < u64::MAX,
        now.nanos + gate.settings.refresh_enqueue_timeout.nanos <= gate.clock_end.nanos,
    ensures
        ({
            let (after, access) = gate.accessed(id, admission_deadline, now);
            let end = now.nanos + gate.settings.refresh_enqueue_timeout.nanos;
            if gate.settings.refresh_before_expiry.nanos > 0 && gate.subjects.table[id].refresh_due(
                now,
            ) {
                &&& access matches Access::Enqueue { admission, generation, deadline }
                &&& admission.entry == id
                &&& generation == gate.subjects.next_id
                &&& deadline.nanos <= end
                &&& admission_deadline matches Some(limit) ==> deadline.nanos <= limit.nanos
                &&& deadline.nanos == end || admission_deadline == Some(deadline)
                &&& after.subjects.awaits(id, generation)
                &&& after.subjects.refreshes(id, generation)
                &&& after.subjects.table[id].pending->0.delay is None
                &&& after.subjects.table[id].pending->0.refresh_from == Some(
                    gate.subjects.table[id].current.word,
                )
                &&& after.subjects.table[id].current == gate.subjects.table[id].current
                &&& after.subjects.next_id == gate.subjects.next_id + 1
            } else {
                &&& access == Access::Ready(Admission { entry: id })
                &&& after.subjects.table == gate.subjects.table
                &&& after.subjects.next_id == gate.subjects.next_id
            }
        }),
{
    assert(gate.looked(id, now).subjects.table =~= gate.subjects.table);
}

/// Where the clock cannot represent the end of the queue's timeout, only the end of the admission
/// bounds the hand-over of a due refresh; without one nothing is handed over.
pub proof fn a_hand_over_needs_an_end<P>(
    gate: GateModel<P>,
    id: u64,
    admission_deadline: Option<Instant>,
    now: Instant,
)
    requires
        gate.wf(),
        gate.subjects.verdict(id, now) is Some,
        gate.settings.refresh_before_expiry.nanos > 0,
        gate.subjects.table[id].refresh_due(now),
        now.nanos + gate.settings.refresh_enqueue_timeout.nanos > gate.clock_end.nanos,
    ensures
        match admission_deadline {
            Some(limit) => gate.accessed(id, admission_deadline, now).1 matches Access::Enqueue {
                admission,
                generation,
                deadline,
            } && admission.entry == id && generation == gate.subjects.next_id && deadline == limit,
            None => gate.accessed(id, admission_deadline, now).1 == Access::Ready(
                Admission { entry: id },
            ) && gate.accessed(id, admission_deadline, now).0.subjects.table
                == gate.subjects.table,
        },
{
    assert(gate.looked(id, now).subjects.table =~= gate.subjects.table);
}

/// A refresh asked for through a handle of the entry that answers for the subject renews the idle
/// time of the subject and hands the refresh over where that is due; otherwise it starts nothing.
/// The decision stays.
pub proof fn a_handle_may_ask_for_a_due_refresh<P>(
    gate: GateModel<P>,
    subject: u64,
    id: u64,
    now: Instant,
)
    requires
        gate.wf(),
        gate.subjects.matches_entry(subject, id),
        gate.subjects.verdict(id, now) is Some,
        gate.subjects.next_id < u64::MAX,
        now.nanos + gate.settings.refresh_enqueue_timeout.nanos <= gate.clock_end.nanos,
    ensures
        ({
            let (after, access) = gate.refresh_asked(subject, id, now);
            &&& after.subjects.slots[0].0 == subject
            &&& after.subjects.slots[0].1.0 == id
            &&& after.subjects.verdict(id, now) == gate.subjects.verdict(id, now)
            &&& if gate.settings.refresh_before_expiry.nanos > 0
                && gate.subjects.table[id].refresh_due(now) {
                &&& access matches Access::Enqueue { admission, generation, deadline }
                &&& admission.entry == id
                &&& generation == gate.subjects.next_id
                &&& deadline.nanos == now.nanos + gate.settings.refresh_enqueue_timeout.nanos
                &&& after.subjects.refreshes(id, generation)
            } else {
                &&& access == Access::Ready(Admission { entry: id })
                &&& after.subjects.table[id] == gate.subjects.table[id]
                &&& after.subjects.next_id == gate.subjects.next_id
            }
        }),
{
    let m = gate.subjects;
    let i = recency::position(m.slots, subject);
    assert(recency::slot_at(m.slots, subject, i));
    assert(m.table[m.slots[i].1.0].subject == subject);
    lemma_in_force_matches(m, subject, id, now);
    subject_model::lemma_touched(m, subject, id, now);
    let used = gate.with_subjects(m.touched(subject, id, now));
    an_access_hands_a_due_refresh_over(used, id, None, now);
}

/// A chance to rebuild the snapshot is taken exactly where the map has changed its shape and the
/// interval since the last rebuild has passed. While the watch is up the snapshot then holds every
/// cached subject with the entry of its slot and no other subject, and the rebuild is counted; the
/// next one waits for the interval and for another change.
pub proof fn a_rebuild_takes_every_subject_in<P>(gate: GateModel<P>, now: Instant, i: int, subject: u64)
    requires
        gate.wf(),
        gate.clock_fits(now),
        0 <= i < gate.subjects.slots.len(),
    ensures
        ({
            let after = gate.republished(now);
            let slots = gate.subjects.slots;
            if gate.subjects.dirty && gate.next_allowed.nanos <= now.nanos {
                &&& gate.connected ==> {
                    &&& after.snapshot.contains_key(slots[i].0)
                    &&& after.snapshot[slots[i].0] == slots[i].1.0
                    &&& after.snapshot.contains_key(subject) ==> exists|j: int|
                        0 <= j < slots.len() && #[trigger] slots[j].0 == subject
                    &&& after.events == gate.events.push(MetricEvent::SnapshotRepublish)
                }
                &&& !gate.connected ==> after.snapshot == gate.snapshot && after.events
                    == gate.events
                &&& !after.subjects.dirty
                &&& after.next_allowed.nanos == now.nanos
                    + gate.settings.snapshot_republish_interval.nanos
            } else {
                after == gate
            }
        }),
        gate.republished(now).subjects.slots == gate.subjects.slots,
        gate.republished(now).subjects.table == gate.subjects.table,
        gate.republished(now).connected == gate.connected,
{
    a_copy_holds_every_slot(gate.subjects.slots, i, subject);
}

/// Once its interval has passed, an admission of a subject that cached reads do not know yet puts it
/// in the snapshot, with the entry that the admission uses.
pub proof fn an_admission_publishes_its_subject<P>(gate: GateModel<P>, subject: u64, now: Instant)
    requires
        gate.wf(),
        gate.has_numbers(),
        gate.connected,
        gate.clock_fits(now),
        !gate.snapshot.contains_key(subject),
        gate.next_allowed.nanos <= now.nanos,
    ensures
        gate.joined(subject, now).snapshot.contains_key(subject),
        gate.joined(subject, now).snapshot[subject] == gate.subjects.joined_entry(subject),
        gate.joined(subject, now).subjects.table[gate.subjects.joined_entry(subject)].subject
            == subject,
{
    let m = gate.subjects;
    let refresh_before = gate.settings.refresh_before_expiry;
    subject_model::lemma_joined(m, subject, now, refresh_before);
    lemma_joined_front(m, subject, now, refresh_before);
    let mid = gate.with_subjects(m.joined(subject, now, refresh_before).marked());
    a_rebuild_takes_every_subject_in(mid, now, 0, subject);
    assert(mid.subjects.table[mid.subjects.slots[0].1.0].subject == mid.subjects.slots[0].0);
}

proof fn lemma_joined_front<P>(
    m: SubjectModel<P>,
    subject: u64,
    now: Instant,
    refresh_before: crate::time::Duration,
)
    requires
        m.wf(),
        m.next_id + 2 <= u64::MAX,
    ensures
        ({
            let joined = m.joined(subject, now, refresh_before);
            &&& joined.slots.len() > 0
            &&& joined.slots[0].0 == subject
            &&& joined.slots[0].1.0 == m.joined_entry(subject)
        }),
{
    let tick = m.spec_tick(now);
    if recency::holds(m.slots, subject) {
        let i = recency::position(m.slots, subject);
        assert(recency::slot_at(m.slots, subject, i));
        subject_model::lemma_promoted(m, i, tick);
        subject_model::lemma_front_survives(m.promoted(i, tick), tick);
    } else {
        subject_model::lemma_evicted(m, tick);
        let room = m.evicted(tick);
        let entry = crate::entry::spec_pending::<P>(
            subject,
            now,
            (room.next_id + 1) as u64,
            refresh_before,
        );
        crate::entry::lemma_word(EntryState::Pending, crate::entry::NO_EXPIRY as int);
        subject_model::lemma_inserted(room, subject, tick, entry);
        subject_model::lemma_front_survives(room.inserted(subject, tick, entry), tick);
    }
}

/// An admission finds or makes the entry of its own subject and makes the subject the most recently
/// used one.
pub proof fn an_admission_uses_its_own_subject<P>(gate: GateModel<P>, subject: u64, now: Instant)
    requires
        gate.wf(),
        gate.has_numbers(),
    ensures
        ({
            let after = gate.joined(subject, now).subjects;
            let id = gate.subjects.joined_entry(subject);
            &&& after.slots.len() > 0
            &&& after.slots[0].0 == subject
            &&& after.slots[0].1.0 == id
            &&& after.table.contains_key(id)
            &&& after.table[id].subject == subject
            &&& recency::holds(gate.subjects.slots, subject) ==> after.table[id]
                == gate.subjects.table[id] && after.next_id == gate.subjects.next_id
            &&& !recency::holds(gate.subjects.slots, subject) ==> {
                &&& after.table[id].state() == EntryState::Pending
                &&& after.table[id].epoch == now
                &&& after.table[id].pending->0.refresh_from is None
                &&& after.table[id].pending->0.delay is None
                &&& after.next_id == gate.subjects.next_id + 2
            }
        }),
{
    let m = gate.subjects;
    let refresh_before = gate.settings.refresh_before_expiry;
    let tick = m.spec_tick(now);
    subject_model::lemma_joined(m, subject, now, refresh_before);
    lemma_joined_front(m, subject, now, refresh_before);
    let joined = m.joined(subject, now, refresh_before);
    assert(joined.table.contains_key(joined.slots[0].1.0));
    assert(joined.table[joined.slots[0].1.0].subject == joined.slots[0].0);
    if recency::holds(m.slots, subject) {
        let i = recency::position(m.slots, subject);
        assert(recency::slot_at(m.slots, subject, i));
        subject_model::lemma_promoted(m, i, tick);
        subject_model::lemma_front_survives(m.promoted(i, tick), tick);
        subject_model::lemma_evicted(m.promoted(i, tick), tick);
    } else {
        subject_model::lemma_evicted(m, tick);
        let room = m.evicted(tick);
        let entry = crate::entry::spec_pending::<P>(
            subject,
            now,
            (room.next_id + 1) as u64,
            refresh_before,
        );
        crate::entry::lemma_word(EntryState::Pending, crate::entry::NO_EXPIRY as int);
        subject_model::lemma_inserted(room, subject, tick, entry);
        subject_model::lemma_front_survives(room.inserted(subject, tick, entry), tick);
        subject_model::lemma_evicted(room.inserted(subject, tick, entry), tick);
    }
}

/// Whether the snapshot holds exactly the cached subjects, each with the entry of its slot.
pub open spec fn mirrors_the_map<P>(gate: GateModel<P>) -> bool {
    &&& forall|i: int|
        0 <= i < gate.subjects.slots.len() ==> {
            &&& gate.snapshot.contains_key((#[trigger] gate.subjects.slots[i]).0)
            &&& gate.snapshot[gate.subjects.slots[i].0] == gate.subjects.slots[i].1.0
        }
    &&& forall|subject: u64| #[trigger]
        gate.snapshot.contains_key(subject) ==> recency::holds(gate.subjects.slots, subject)
}

/// A rebuild makes the snapshot mirror the map.
proof fn lemma_republished_mirrors<P>(gate: GateModel<P>, now: Instant)
    requires
        gate.wf(),
        gate.connected,
        gate.subjects.dirty,
        gate.next_allowed.nanos <= now.nanos,
    ensures
        mirrors_the_map(gate.republished(now)),
{
    let after = gate.republished(now);
    assert(after.snapshot == gate::snapshot_of(gate.subjects.slots));
    assert forall|i: int| 0 <= i < after.subjects.slots.len() implies {
        &&& after.snapshot.contains_key((#[trigger] after.subjects.slots[i]).0)
        &&& after.snapshot[after.subjects.slots[i].0] == after.subjects.slots[i].1.0
    } by {
        a_copy_holds_every_slot(gate.subjects.slots, i, 0);
    }
}

/// Once the interval has passed, the snapshot mirrors the map after every watch change, every
/// admission of a subject and every lookup that fails for a while, as far as the map has changed its
/// shape by then or with them.
pub proof fn the_snapshot_mirrors_the_map_when_due<P>(
    gate: GateModel<P>,
    subject: u64,
    decision: Option<Decision>,
    now: Instant,
)
    requires
        gate.wf(),
        gate.has_numbers(),
        gate.connected,
        gate.next_allowed.nanos <= now.nanos,
    ensures
        gate.subjects.dirty ==> mirrors_the_map(gate.changed(subject, decision, now)),
        decision is None && recency::holds(gate.subjects.slots, subject) ==> mirrors_the_map(
            gate.changed(subject, decision, now),
        ),
        gate.subjects.dirty || !gate.snapshot.contains_key(subject) || !recency::holds(
            gate.subjects.slots,
            subject,
        ) ==> mirrors_the_map(gate.joined(subject, now)),
{
    let m = gate.subjects;
    let tick = m.spec_tick(now);
    let refresh_before = gate.settings.refresh_before_expiry;
    idleness::an_eviction_is_noted(m, tick);
    subject_model::lemma_evicted(m, tick);
    match decision {
        Some(decided) => {
            let ttl = gate.settings.decision_freshness_ttl;
            subject_model::lemma_changed(m, subject, decided, ttl, now);
            let mid = gate.with_subjects(m.changed(subject, decided, ttl, now));
            if mid.subjects.dirty {
                lemma_republished_mirrors(mid, now);
            }
        },
        None => {
            subject_model::lemma_withdrawn(m, subject, now);
            let mid = gate.with_subjects(m.withdrawn(subject, now));
            if mid.subjects.dirty {
                lemma_republished_mirrors(mid, now);
            }
        },
    }
    subject_model::lemma_joined(m, subject, now, refresh_before);
    let joined = m.joined(subject, now, refresh_before);
    if recency::holds(m.slots, subject) {
        let i = recency::position(m.slots, subject);
        idleness::an_eviction_is_noted(m.promoted(i, tick), tick);
    }
    if joined.dirty {
        lemma_republished_mirrors(gate.with_subjects(joined), now);
    }
    lemma_republished_mirrors(gate.with_subjects(joined.marked()), now);
}

/// Once the interval has passed, a lookup that fails for a while takes its subject out of the
/// snapshot too.
pub proof fn a_transient_failure_is_published<P>(
    gate: GateModel<P>,
    subject: u64,
    id: u64,
    generation: u64,
    error: DecisionSourceError,
    now: Instant,
)
    requires
        gate.wf(),
        gate.has_numbers(),
        gate.connected,
        gate.next_allowed.nanos <= now.nanos,
        gate.subjects.matches_entry(subject, id),
        gate.subjects.awaits(id, generation),
        gate.subjects.table[id].state() == EntryState::Pending,
        error.spec_kind() == DecisionSourceErrorKind::Transient,
    ensures
        mirrors_the_map(gate.fetched(subject, id, generation, Err(error), now)),
        !gate.fetched(subject, id, generation, Err(error), now).snapshot.contains_key(subject),
{
    let m = gate.subjects;
    let tick = m.spec_tick(now);
    let settings = gate.settings;
    admission::a_transient_failure_makes_room_for_another_lookup(
        gate,
        subject,
        id,
        generation,
        error,
        now,
    );
    subject_model::lemma_fetched(m, subject, id, generation, Err(error), settings, now);
    let mid = gate.with_subjects(
        m.fetched(subject, id, generation, Err(error), settings, now),
    );
    let i = recency::position(m.slots, subject);
    assert(recency::slot_at(m.slots, subject, i));
    subject_model::lemma_evicted(m, tick);
    idleness::an_eviction_is_noted(m, tick);
    let room = m.evicted(tick);
    if recency::holds(room.slots, subject) {
        let j = recency::position(room.slots, subject);
        assert(recency::slot_at(room.slots, subject, j));
        admission::lemma_eviction_keeps_entries(m, tick, j);
        recency::lemma_position(m.slots, subject, j);
        assert(mid.subjects.dirty);
    } else if room.slots.len() == m.slots.len() {
        assert(room == m);
    }
    lemma_republished_mirrors(mid, now);
}

} // verus!
