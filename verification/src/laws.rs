//! Laws of a gate: what every step keeps, and what its steps promise together.

use vstd::prelude::*;

use crate::admitting::{AdmitCall, ConnectionWait, FetchWait, SleepWait};
use crate::decision::{Decision, DecisionResult, DecisionSourceError};
use crate::entry::{EntryState, Observed};
use crate::evolution;
use crate::gate::GateModel;
use crate::metrics::MetricEvent;
use crate::stream::{BodyGuard, ReadmissionPoll};
use crate::subject_model;
use crate::subject_model::{Removal, SubjectModel};
use crate::time::Instant;

pub mod aborts;
pub mod admission;
pub mod attempts;
pub mod bodies;
pub mod cache;
pub mod freshness;
pub mod idleness;
pub mod lifetime;
pub mod outcomes;
pub mod protocol;
pub mod runs;
pub mod settings;
pub mod snapshot;
pub mod stream;
pub mod watching;

verus! {

/// One step of a gate.
pub enum GateStep<P> {
    WatchConnected,
    WatchDisconnected { now: Instant },
    WatchStable,
    Change { subject: u64, decision: Option<Decision>, now: Instant },
    RepublishClaim { now: Instant },
    RepublishCommit { generation: u64, entries: Map<u64, u64> },
    Republish { now: Instant },
    Look { entry: u64, now: Instant },
    Access { entry: u64, deadline: Option<Instant>, now: Instant },
    Read { subject: u64, now: Instant },
    Peek { subject: u64, now: Instant },
    RefreshRequest { subject: u64, entry: u64, now: Instant },
    AccessEnd { entry: u64, generation: u64, queued: bool, now: Instant },
    Release { entry: u64, generation: u64 },
    LookupEnd {
        subject: u64,
        entry: u64,
        generation: u64,
        result: Result<DecisionResult<P>, DecisionSourceError>,
        now: Instant,
    },
    Join { subject: u64, now: Instant },
    Discard { subject: u64, entry: u64, now: Instant, removal: Removal },
    Invalidate { entry: u64 },
    Forget { entry: u64 },
    Sweep { candidates: Seq<u64>, held: Set<u64> },
    Emit { event: MetricEvent },
    TakeEvents,
    TakeAborted,
    AdmitBegin { subject: u64, now: Instant },
    AdmitConnected { call: AdmitCall, wait: ConnectionWait, now: Instant },
    AdmitFetched { call: AdmitCall, entry: u64, wait: FetchWait, now: Instant },
    AdmitQueued {
        call: AdmitCall,
        entry: u64,
        generation: u64,
        late: bool,
        queued: bool,
        now: Instant,
    },
    AdmitSlept { call: AdmitCall, wait: SleepWait },
    BodyPolled { guard: BodyGuard, now: Instant },
    BodyReadmitted { guard: BodyGuard, poll: ReadmissionPoll, now: Instant },
}

impl<P> GateModel<P> {
    /// State after `step`.
    pub open spec fn after(self, step: GateStep<P>) -> GateModel<P> {
        match step {
            GateStep::WatchConnected => self.opened(),
            GateStep::WatchDisconnected { now } => self.lost(now),
            GateStep::WatchStable => GateModel { disconnected_since: None, ..self },
            GateStep::Change { subject, decision, now } => self.changed(subject, decision, now),
            GateStep::RepublishClaim { now } => if self.republish_due(now) {
                self.republish_claimed(now)
            } else {
                self
            },
            GateStep::RepublishCommit { generation, entries } => self.republish_committed(
                generation,
                entries,
            ),
            GateStep::Republish { now } => self.republished(now),
            GateStep::Look { entry, now } => self.looked(entry, now),
            GateStep::Access { entry, deadline, now } => self.accessed(entry, deadline, now).0,
            GateStep::Read { subject, now } => self.checked(subject, now).0,
            GateStep::Peek { subject, now } => self.peeked(subject, now).0,
            GateStep::RefreshRequest { subject, entry, now } => self.refresh_asked(
                subject,
                entry,
                now,
            ).0,
            GateStep::AccessEnd { entry, generation, queued, now } => self.access_finished(
                entry,
                generation,
                queued,
                now,
            ),
            GateStep::Release { entry, generation } => self.with_subjects(
                self.subjects.released(entry, generation),
            ),
            GateStep::LookupEnd { subject, entry, generation, result, now } => self.fetched(
                subject,
                entry,
                generation,
                result,
                now,
            ),
            GateStep::Join { subject, now } => self.joined(subject, now),
            GateStep::Discard { subject, entry, now, removal } => self.discarded(
                subject,
                entry,
                now,
                removal,
            ),
            GateStep::Invalidate { entry } => self.invalidated(entry),
            GateStep::Forget { entry } => if subject_model::attached(self.subjects.slots, entry) {
                self
            } else {
                self.with_subjects(
                    SubjectModel { table: self.subjects.table.remove(entry), ..self.subjects },
                )
            },
            GateStep::Sweep { candidates, held } => self.swept(candidates, held),
            GateStep::Emit { event } => self.emit(event),
            GateStep::TakeEvents => GateModel { events: Seq::empty(), ..self },
            GateStep::TakeAborted => self.with_subjects(
                SubjectModel { aborted: Seq::empty(), ..self.subjects },
            ),
            GateStep::AdmitBegin { subject, now } => self.admit_begun(subject, now).0,
            GateStep::AdmitConnected { call, wait, now } => self.admit_connected(call, wait, now).0,
            GateStep::AdmitFetched { call, entry, wait, now } => self.admit_fetched(
                call,
                entry,
                wait,
                now,
            ).0,
            GateStep::AdmitQueued { call, entry, generation, late, queued, now } => {
                self.admit_queued(call, entry, generation, late, queued, now).0
            },
            GateStep::AdmitSlept { call, wait } => self.admit_slept(call, wait).0,
            GateStep::BodyPolled { guard, now } => guard.polled(self, now).1,
            GateStep::BodyReadmitted { guard, poll, now } => guard.readmitted(self, poll, now).1,
        }
    }

    /// Whether numbers are left for any step.
    pub open spec fn has_numbers(self) -> bool {
        self.subjects.next_id + 3 <= u64::MAX
    }
}

impl<P> GateModel<P> {
    /// State after a run of steps.
    pub open spec fn after_all(self, steps: Seq<GateStep<P>>) -> GateModel<P>
        decreases steps.len(),
    {
        if steps.len() == 0 {
            self
        } else {
            self.after_all(steps.drop_last()).after(steps.last())
        }
    }

    /// Whether numbers are left for every step of a run.
    pub open spec fn has_numbers_for(self, steps: Seq<GateStep<P>>) -> bool
        decreases steps.len(),
    {
        steps.len() > 0 ==> {
            &&& self.has_numbers_for(steps.drop_last())
            &&& self.after_all(steps.drop_last()).has_numbers()
        }
    }
}

/// Whether a step brings an authoritative decision.
pub open spec fn brings_decision<P>(gate: GateModel<P>, step: GateStep<P>) -> bool {
    match step {
        GateStep::Change { decision, .. } => decision is Some,
        GateStep::LookupEnd { entry, result, now, .. } => gate.subjects.fetch_failure(
            entry,
            result,
            gate.settings.decision_freshness_ttl,
            now,
        ) is None,
        _ => false,
    }
}

proof fn lemma_accessed_evolves<P>(
    gate: GateModel<P>,
    id: u64,
    deadline: Option<Instant>,
    now: Instant,
)
    requires
        gate.wf(),
        gate.subjects.next_id < u64::MAX,
    ensures
        gate.accessed(id, deadline, now).0.wf(),
        evolution::evolves(gate.subjects, gate.accessed(id, deadline, now).0.subjects),
        evolution::keeps_decisions(gate.subjects, gate.accessed(id, deadline, now).0.subjects),
        gate.accessed(id, deadline, now).0.subjects.table.dom() == gate.subjects.table.dom(),
        gate.accessed(id, deadline, now).0.snapshot == gate.snapshot,
        gate.accessed(id, deadline, now).0.connected == gate.connected,
{
    evolution::lemma_looked_evolves(gate.subjects, id, now);
    let seen = gate.looked(id, now).subjects;
    if gate.subjects.verdict(id, now) is Some && seen.table[id].refresh_due(now) {
        subject_model::lemma_claimed(seen, id, now);
        evolution::lemma_claimed_evolves(seen, id, now);
        evolution::lemma_evolves_trans(gate.subjects, seen, seen.claimed(id));
    }
}

/// Whether a step from `before` to `after` keeps a gate in order, develops its map, and touches
/// no decision but to drop it, unless it brings one.
pub open spec fn lawful<P>(before: GateModel<P>, after: GateModel<P>, decides: bool) -> bool {
    &&& after.wf()
    &&& evolution::evolves(before.subjects, after.subjects)
    &&& !decides ==> evolution::keeps_decisions(before.subjects, after.subjects)
}

proof fn lemma_read<P>(gate: GateModel<P>, subject: u64, now: Instant)
    requires
        gate.wf(),
        gate.has_numbers(),
    ensures
        lawful(gate, gate.checked(subject, now).0, false),
        follows(gate, gate.peeked(subject, now).0),
{
    let m = gate.subjects;
    let id = gate.snapshot[subject];
    evolution::lemma_looked_evolves(m, id, now);
    let seen = gate.looked(id, now);
    evolution::lemma_touched_evolves(seen.subjects, subject, id, now);
    subject_model::lemma_touched(seen.subjects, subject, id, now);
    let used = seen.with_subjects(seen.subjects.touched(subject, id, now));
    evolution::lemma_evolves_trans(m, seen.subjects, used.subjects);
    lemma_accessed_evolves(used, id, None, now);
    evolution::lemma_evolves_trans(m, used.subjects, used.accessed(id, None, now).0.subjects);
    evolution::lemma_looked_evolves(used.subjects, id, now);
    evolution::lemma_evolves_trans(m, used.subjects, used.looked(id, now).subjects);
}

/// Whether a step that brings no decision leads from `before` to `after` and forgets no entry.
pub open spec fn follows<P>(before: GateModel<P>, after: GateModel<P>) -> bool {
    &&& lawful(before, after, false)
    &&& before.subjects.table.dom().subset_of(after.subjects.table.dom())
}

proof fn lemma_follows_trans<P>(a: GateModel<P>, b: GateModel<P>, c: GateModel<P>)
    requires
        a.wf(),
        follows(a, b),
        follows(b, c),
    ensures
        follows(a, c),
{
    evolution::lemma_evolves_trans(a.subjects, b.subjects, c.subjects);
}

proof fn lemma_look_follows<P>(gate: GateModel<P>, id: u64, now: Instant)
    requires
        gate.wf(),
    ensures
        follows(gate, gate.looked(id, now)),
{
    evolution::lemma_looked_evolves(gate.subjects, id, now);
}

proof fn lemma_admit_accessed<P>(
    gate: GateModel<P>,
    call: AdmitCall,
    id: u64,
    late: bool,
    now: Instant,
)
    requires
        gate.wf(),
        gate.subjects.next_id < u64::MAX,
    ensures
        follows(gate, gate.admit_accessed(call, id, late, now).0),
{
    lemma_accessed_evolves(gate, id, Some(call.deadline), now);
}

proof fn lemma_admit_connected<P>(
    gate: GateModel<P>,
    call: AdmitCall,
    wait: ConnectionWait,
    now: Instant,
)
    requires
        gate.wf(),
        gate.has_numbers(),
    ensures
        follows(gate, gate.admit_connected(call, wait, now).0),
{
    let id = gate.subjects.joined_entry(call.subject);
    let refresh_before = gate.settings.refresh_before_expiry;
    evolution::lemma_joined_evolves(gate.subjects, call.subject, now, refresh_before);
    subject_model::lemma_joined(gate.subjects, call.subject, now, refresh_before);
    let joined = gate.joined(call.subject, now);
    assert(follows(gate, joined));
    evolution::lemma_removed_if_evolves(
        joined.subjects,
        call.subject,
        id,
        now,
        Removal::Always,
    );
    let left = joined.discarded(call.subject, id, now, Removal::Always);
    lemma_follows_trans(gate, joined, left);
    lemma_look_follows(joined, id, now);
    let seen = joined.looked(id, now);
    lemma_follows_trans(gate, joined, seen);
    let hit = seen.emit(MetricEvent::MapHit);
    lemma_admit_accessed(hit, call, id, false, now);
    lemma_follows_trans(gate, hit, hit.admit_accessed(call, id, false, now).0);
    evolution::lemma_removed_if_evolves(seen.subjects, call.subject, id, now, Removal::Stale);
    let gone = seen.discarded(call.subject, id, now, Removal::Stale).republished(now);
    lemma_follows_trans(gate, seen, gone);
}

proof fn lemma_admit_fetched<P>(
    gate: GateModel<P>,
    call: AdmitCall,
    id: u64,
    wait: FetchWait,
    now: Instant,
)
    requires
        gate.wf(),
        gate.has_numbers(),
    ensures
        follows(gate, gate.admit_fetched(call, id, wait, now).0),
{
    lemma_admit_accessed(gate, call, id, true, now);
    lemma_look_follows(gate, id, now);
    let seen = gate.looked(id, now);
    lemma_admit_accessed(seen, call, id, false, now);
    lemma_follows_trans(gate, seen, seen.admit_accessed(call, id, false, now).0);
}

proof fn lemma_body_checked<P>(guard: BodyGuard, gate: GateModel<P>, now: Instant)
    requires
        gate.wf(),
        gate.has_numbers(),
    ensures
        follows(gate, guard.checked(gate, now).1),
{
    let seen = gate.looked(guard.admission.entry, now);
    lemma_look_follows(gate, guard.admission.entry, now);
    lemma_read(seen, guard.subject, now);
    lemma_follows_trans(gate, seen, seen.peeked(guard.subject, now).0);
}

proof fn lemma_body_readmitted<P>(
    guard: BodyGuard,
    gate: GateModel<P>,
    poll: ReadmissionPoll,
    now: Instant,
)
    requires
        gate.wf(),
        gate.has_numbers(),
    ensures
        follows(gate, guard.readmitted(gate, poll, now).1),
{
    match poll {
        ReadmissionPoll::Ready(admission) => {
            let seen = gate.looked(admission.entry, now);
            let idle = BodyGuard { readmitting: false, ..guard };
            lemma_look_follows(gate, admission.entry, now);
            lemma_body_checked(idle, seen, now);
            lemma_follows_trans(gate, seen, idle.checked(seen, now).1);
        },
        ReadmissionPoll::Pending | ReadmissionPoll::Failed => {},
    }
}

proof fn lemma_refresh_request<P>(gate: GateModel<P>, subject: u64, entry: u64, now: Instant)
    requires
        gate.wf(),
        gate.has_numbers(),
    ensures
        lawful(gate, gate.refresh_asked(subject, entry, now).0, false),
{
    let m = gate.subjects;
    evolution::lemma_touched_evolves(m, subject, entry, now);
    subject_model::lemma_touched(m, subject, entry, now);
    let used = gate.with_subjects(m.touched(subject, entry, now));
    lemma_accessed_evolves(used, entry, None, now);
    evolution::lemma_evolves_trans(m, used.subjects, used.accessed(entry, None, now).0.subjects);
}

proof fn lemma_access_end<P>(
    gate: GateModel<P>,
    entry: u64,
    generation: u64,
    queued: bool,
    now: Instant,
)
    requires
        gate.wf(),
    ensures
        lawful(gate, gate.access_finished(entry, generation, queued, now), false),
{
    let m = gate.subjects;
    evolution::lemma_released_evolves(m, entry, generation);
    subject_model::lemma_released(m, entry, generation);
    let kept = if queued {
        m
    } else {
        m.released(entry, generation)
    };
    evolution::lemma_looked_evolves(kept, entry, now);
    evolution::lemma_evolves_trans(m, kept, kept.looked(entry, now));
}

proof fn lemma_change<P>(
    gate: GateModel<P>,
    subject: u64,
    decision: Option<Decision>,
    now: Instant,
)
    requires
        gate.wf(),
    ensures
        lawful(gate, gate.changed(subject, decision, now), decision is Some),
{
    let m = gate.subjects;
    match decision {
        Some(decision) => {
            let ttl = gate.settings.decision_freshness_ttl;
            subject_model::lemma_changed(m, subject, decision, ttl, now);
            evolution::lemma_changed_evolves(m, subject, decision, ttl, now);
        },
        None => {
            subject_model::lemma_withdrawn(m, subject, now);
            evolution::lemma_withdrawn_evolves(m, subject, now);
        },
    }
}

proof fn lemma_lookup_end<P>(
    gate: GateModel<P>,
    subject: u64,
    entry: u64,
    generation: u64,
    result: Result<DecisionResult<P>, DecisionSourceError>,
    now: Instant,
)
    requires
        gate.wf(),
        gate.has_numbers(),
    ensures
        lawful(
            gate,
            gate.fetched(subject, entry, generation, result, now),
            gate.subjects.fetch_failure(
                entry,
                result,
                gate.settings.decision_freshness_ttl,
                now,
            ) is None,
        ),
{
    let m = gate.subjects;
    let settings = gate.settings;
    subject_model::lemma_fetched(m, subject, entry, generation, result, settings, now);
    evolution::lemma_fetched_evolves(m, subject, entry, generation, result, settings, now);
}

proof fn lemma_entries_removed<P>(gate: GateModel<P>, gone: Set<u64>)
    requires
        gate.wf(),
        forall|id: u64|
            gone.contains(id) ==> !(#[trigger] subject_model::attached(gate.subjects.slots, id)),
    ensures
        lawful(
            gate,
            gate.with_subjects(
                SubjectModel { table: gate.subjects.table.remove_keys(gone), ..gate.subjects },
            ),
            false,
        ),
{
    let m = gate.subjects;
    let n = SubjectModel { table: m.table.remove_keys(gone), ..m };
    assert forall|j: int| 0 <= j < n.slots.len() implies {
        &&& n.table.contains_key(#[trigger] n.slots[j].1.0)
        &&& n.table[n.slots[j].1.0].subject == n.slots[j].0
    } by {
        assert(m.table.contains_key(m.slots[j].1.0));
        assert(subject_model::names_entry(m.slots, m.slots[j].1.0, j));
        assert(subject_model::attached(m.slots, m.slots[j].1.0));
    }
    assert forall|id: u64| #[trigger] n.table.contains_key(id) implies m.table.contains_key(id)
        && n.table[id] == m.table[id] by {}
}

proof fn lemma_forget<P>(gate: GateModel<P>, entry: u64)
    requires
        gate.wf(),
    ensures
        lawful(gate, gate.after(GateStep::Forget { entry }), false),
{
    let m = gate.subjects;
    if !subject_model::attached(m.slots, entry) {
        lemma_entries_removed(gate, set![entry]);
        assert(m.table.remove(entry) =~= m.table.remove_keys(set![entry]));
    }
}

/// Every step is lawful.
proof fn lemma_step<P>(gate: GateModel<P>, step: GateStep<P>)
    requires
        gate.wf(),
        gate.has_numbers(),
    ensures
        lawful(gate, gate.after(step), brings_decision(gate, step)),
{
    let m = gate.subjects;
    match step {
        GateStep::WatchConnected => {
            subject_model::lemma_cleared(m);
            evolution::lemma_cleared_evolves(m);
        },
        GateStep::WatchDisconnected { now } => {
            subject_model::lemma_cleared(m);
            evolution::lemma_cleared_evolves(m);
        },
        GateStep::WatchStable => {},
        GateStep::RepublishClaim { .. } => {},
        GateStep::RepublishCommit { .. } => {},
        GateStep::Republish { .. } => {},
        GateStep::Change { subject, decision, now } => {
            lemma_change(gate, subject, decision, now);
        },
        GateStep::Look { entry, now } => {
            evolution::lemma_looked_evolves(m, entry, now);
        },
        GateStep::Access { entry, deadline, now } => {
            lemma_accessed_evolves(gate, entry, deadline, now);
        },
        GateStep::Read { subject, now } => {
            lemma_read(gate, subject, now);
        },
        GateStep::Peek { subject, now } => {
            lemma_read(gate, subject, now);
        },
        GateStep::RefreshRequest { subject, entry, now } => {
            lemma_refresh_request(gate, subject, entry, now);
        },
        GateStep::AccessEnd { entry, generation, queued, now } => {
            lemma_access_end(gate, entry, generation, queued, now);
        },
        GateStep::Release { entry, generation } => {
            evolution::lemma_released_evolves(m, entry, generation);
            subject_model::lemma_released(m, entry, generation);
        },
        GateStep::LookupEnd { subject, entry, generation, result, now } => {
            lemma_lookup_end(gate, subject, entry, generation, result, now);
        },
        GateStep::Join { subject, now } => {
            evolution::lemma_joined_evolves(m, subject, now, gate.settings.refresh_before_expiry);
        },
        GateStep::Discard { subject, entry, now, removal } => {
            evolution::lemma_removed_if_evolves(m, subject, entry, now, removal);
        },
        GateStep::Invalidate { entry } => {
            if m.table.contains_key(entry) {
                subject_model::lemma_dropped(m, entry);
                evolution::lemma_dropped_evolves(m, entry);
            }
        },
        GateStep::Forget { entry } => {
            lemma_forget(gate, entry);
        },
        GateStep::Sweep { candidates, held } => {
            lemma_entries_removed(
                gate,
                Set::new(|id: u64| candidates.contains(id) && !gate.needs(held, id)),
            );
        },
        GateStep::Emit { .. } => {},
        GateStep::TakeEvents => {},
        GateStep::TakeAborted => {},
        GateStep::AdmitBegin { .. } => {},
        GateStep::AdmitSlept { .. } => {},
        GateStep::AdmitConnected { call, wait, now } => {
            lemma_admit_connected(gate, call, wait, now);
        },
        GateStep::AdmitFetched { call, entry, wait, now } => {
            lemma_admit_fetched(gate, call, entry, wait, now);
        },
        GateStep::AdmitQueued { entry, generation, queued, now, .. } => {
            lemma_access_end(gate, entry, generation, queued, now);
        },
        GateStep::BodyPolled { guard, now } => {
            lemma_body_checked(guard, gate, now);
        },
        GateStep::BodyReadmitted { guard, poll, now } => {
            lemma_body_readmitted(guard, gate, poll, now);
        },
    }
}

/// Every step keeps a gate in order.
///
/// The steps are those of a gate itself, of an admission and of an enforced body; the watch is
/// made of them too.
pub proof fn every_step_keeps_the_gate_in_order<P>(gate: GateModel<P>, step: GateStep<P>)
    requires
        gate.wf(),
        gate.has_numbers(),
    ensures
        gate.after(step).wf(),
{
    lemma_step(gate, step);
}

/// An entry that an admission may name never becomes pending: a handle always has a state to report.
pub proof fn an_admission_stays_an_admission<P>(gate: GateModel<P>, step: GateStep<P>, id: u64)
    requires
        gate.wf(),
        gate.has_numbers(),
        id < gate.subjects.next_id,
        gate.admitted(id),
    ensures
        id < gate.after(step).subjects.next_id,
        gate.after(step).admitted(id),
{
    lemma_step(gate, step);
}

/// Eviction, withdrawal and disconnection are terminal for a handle: an entry that answers for no
/// subject stays stale at every instant, whatever happens.
pub proof fn a_detached_entry_stays_stale<P>(
    gate: GateModel<P>,
    step: GateStep<P>,
    id: u64,
    now: Instant,
)
    requires
        gate.wf(),
        gate.has_numbers(),
        id < gate.subjects.next_id,
        !subject_model::attached(gate.subjects.slots, id),
    ensures
        !subject_model::attached(gate.after(step).subjects.slots, id),
        gate.after(step).subjects.live_state(id, now) == EntryState::Stale,
{
    lemma_step(gate, step);
    let n = gate.after(step).subjects;
    if subject_model::attached(n.slots, id) {
        let j = choose|j: int| subject_model::names_entry(n.slots, id, j);
        assert(n.table.contains_key(n.slots[j].1.0));
        assert(gate.subjects.table.contains_key(id));
    }
}

/// A gate is in order after every run of steps.
pub proof fn every_run_keeps_a_gate_in_order<P>(gate: GateModel<P>, steps: Seq<GateStep<P>>)
    requires
        gate.wf(),
        gate.has_numbers_for(steps),
    ensures
        gate.after_all(steps).wf(),
    decreases steps.len(),
{
    if steps.len() > 0 {
        every_run_keeps_a_gate_in_order(gate, steps.drop_last());
        lemma_step(gate.after_all(steps.drop_last()), steps.last());
    }
}

/// A handle that has lost its subject is stale after every run of steps and at every instant.
pub proof fn a_lost_handle_is_lost_for_good<P>(
    gate: GateModel<P>,
    steps: Seq<GateStep<P>>,
    id: u64,
    now: Instant,
)
    requires
        gate.wf(),
        gate.has_numbers_for(steps),
        id < gate.subjects.next_id,
        !subject_model::attached(gate.subjects.slots, id),
    ensures
        gate.after_all(steps).subjects.live_state(id, now) == EntryState::Stale,
        !subject_model::attached(gate.after_all(steps).subjects.slots, id),
        id < gate.after_all(steps).subjects.next_id,
    decreases steps.len(),
{
    if steps.len() > 0 {
        let before = gate.after_all(steps.drop_last());
        every_run_keeps_a_gate_in_order(gate, steps.drop_last());
        a_lost_handle_is_lost_for_good(gate, steps.drop_last(), id, now);
        a_detached_entry_stays_stale(before, steps.last(), id, now);
        lemma_step(before, steps.last());
    }
}

/// Ordinary access never extends a deadline: only a watch change or a lookup that brings a decision
/// moves one.
pub proof fn only_a_decision_moves_a_deadline<P>(gate: GateModel<P>, step: GateStep<P>, id: u64)
    requires
        gate.wf(),
        gate.has_numbers(),
        !brings_decision(gate, step),
        gate.subjects.table.contains_key(id),
        gate.after(step).subjects.table.contains_key(id),
    ensures
        gate.after(step).subjects.table[id].deadline() == gate.subjects.table[id].deadline(),
{
    lemma_step(gate, step);
}

/// Whether the snapshot is empty unless the watch is up.
pub open spec fn serves_only_while_up<P>(gate: GateModel<P>) -> bool {
    gate.connected || gate.snapshot == Map::<u64, u64>::empty()
}

proof fn lemma_accessed_serves<P>(
    gate: GateModel<P>,
    id: u64,
    deadline: Option<Instant>,
    now: Instant,
)
    requires
        serves_only_while_up(gate),
    ensures
        serves_only_while_up(gate.accessed(id, deadline, now).0),
{
}

proof fn lemma_peeked_serves<P>(gate: GateModel<P>, subject: u64, now: Instant)
    requires
        serves_only_while_up(gate),
    ensures
        serves_only_while_up(gate.peeked(subject, now).0),
{
}

proof fn lemma_admit_connected_serves<P>(
    gate: GateModel<P>,
    call: AdmitCall,
    wait: ConnectionWait,
    now: Instant,
)
    requires
        serves_only_while_up(gate),
    ensures
        serves_only_while_up(gate.admit_connected(call, wait, now).0),
{
    let id = gate.subjects.joined_entry(call.subject);
    let joined = gate.joined(call.subject, now);
    assert(serves_only_while_up(joined));
    let seen = joined.looked(id, now);
    lemma_accessed_serves(seen.emit(MetricEvent::MapHit), id, Some(call.deadline), now);
    assert(serves_only_while_up(joined.discarded(call.subject, id, now, Removal::Always)));
    let gone = seen.discarded(call.subject, id, now, Removal::Stale);
    assert(serves_only_while_up(gone));
    assert(serves_only_while_up(gone.republished(now)));
}

proof fn lemma_admit_fetched_serves<P>(
    gate: GateModel<P>,
    call: AdmitCall,
    id: u64,
    wait: FetchWait,
    now: Instant,
)
    requires
        serves_only_while_up(gate),
    ensures
        serves_only_while_up(gate.admit_fetched(call, id, wait, now).0),
{
    lemma_accessed_serves(gate, id, Some(call.deadline), now);
    lemma_accessed_serves(gate.looked(id, now), id, Some(call.deadline), now);
}

proof fn lemma_body_checked_serves<P>(guard: BodyGuard, gate: GateModel<P>, now: Instant)
    requires
        serves_only_while_up(gate),
    ensures
        serves_only_while_up(guard.checked(gate, now).1),
{
    lemma_peeked_serves(gate.looked(guard.admission.entry, now), guard.subject, now);
}

/// Nothing but a decision allows: a handle that is not allowed does not become so by any other step,
/// at this or another instant.
pub proof fn only_a_decision_allows<P>(
    gate: GateModel<P>,
    step: GateStep<P>,
    id: u64,
    now: Instant,
)
    requires
        gate.wf(),
        gate.has_numbers(),
        !brings_decision(gate, step),
        gate.observed(id, now) != Observed::Allowed,
    ensures
        gate.after(step).observed(id, now) != Observed::Allowed,
{
    lemma_step(gate, step);
}

/// While the watch is down the snapshot is empty, so that no cached state is served.
pub proof fn the_snapshot_is_empty_while_the_watch_is_down<P>(gate: GateModel<P>, step: GateStep<P>)
    requires
        serves_only_while_up(gate),
    ensures
        serves_only_while_up(gate.after(step)),
{
    match step {
        GateStep::AdmitConnected { call, wait, now } => {
            lemma_admit_connected_serves(gate, call, wait, now);
        },
        GateStep::AdmitFetched { call, entry, wait, now } => {
            lemma_admit_fetched_serves(gate, call, entry, wait, now);
        },
        GateStep::BodyPolled { guard, now } => {
            lemma_body_checked_serves(guard, gate, now);
        },
        GateStep::BodyReadmitted { guard, poll, now } => {
            match poll {
                ReadmissionPoll::Ready(admission) => {
                    let idle = BodyGuard { readmitting: false, ..guard };
                    lemma_body_checked_serves(idle, gate.looked(admission.entry, now), now);
                },
                ReadmissionPoll::Pending | ReadmissionPoll::Failed => {},
            }
        },
        GateStep::Access { entry, deadline, now } => {
            lemma_accessed_serves(gate, entry, deadline, now);
        },
        GateStep::Peek { subject, now } => {
            lemma_peeked_serves(gate, subject, now);
        },
        _ => {},
    }
}

} // verus!
