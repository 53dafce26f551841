//! State of one gate: the cached subjects, the snapshot that readers use, and the watch that keeps
//! both current.
//!
//! Every method is one indivisible step at the instant it is given. What the step owes to the
//! outside, metric events and lookups to abort, is collected and taken by the caller.

use std::collections::HashMap;
use std::sync::Arc;

use vstd::prelude::*;

use crate::admission::Admission;
use crate::config::{PolicyGateConfig, Settings};
use crate::decision::{
    Decision, DecisionChange, DecisionResult, DecisionSourceError, DecisionSourceErrorKind,
};
use crate::entry::{EntryState, Observed, PendingFetch};
use crate::metrics::MetricEvent;
use crate::recency;
use crate::recency::Slot;
use crate::subject_model;
use crate::subject_model::{Removal, SubjectModel};
use crate::subjects;
use crate::subjects::SubjectMap;
use crate::time;
use crate::time::{Duration, Instant};

verus! {

broadcast use vstd::std_specs::hash::group_hash_axioms;

/// Content of a gate.
#[verifier::ext_equal]
#[verifier::reject_recursive_types(P)]
pub struct GateModel<P> {
    pub settings: Settings,
    /// Last instant that the clock can represent.
    pub clock_end: Instant,
    /// Whether the watch is up.
    pub connected: bool,
    /// Since when the watch has not been stable.
    pub disconnected_since: Option<Instant>,
    pub subjects: SubjectModel<P>,
    /// Entries that cached reads find, by subject.
    pub snapshot: Map<u64, u64>,
    /// Number of times that the snapshot has been emptied.
    pub generation: u64,
    /// Earliest instant of the next rebuild.
    pub next_allowed: Instant,
    /// Metric events that nobody has taken yet.
    pub events: Seq<MetricEvent>,
}

/// The snapshot of a map with these slots.
pub open spec fn snapshot_of(slots: Seq<Slot>) -> Map<u64, u64> {
    Map::new(
        |subject: u64| recency::holds(slots, subject),
        |subject: u64| slots[recency::position(slots, subject)].1.0,
    )
}

impl<P> GateModel<P> {
    /// What holds of every gate.
    pub open spec fn wf(self) -> bool {
        self.subjects.wf()
    }

    /// Whether a step can happen at `now`: numbers are left to give out, and the clock can
    /// represent the next rebuild.
    pub open spec fn ready(self, now: Instant) -> bool {
        &&& self.subjects.next_id + 3 <= u64::MAX
        &&& self.generation < u64::MAX
        &&& self.clock_fits(now)
    }

    /// Whether the clock can represent the rebuild after one at `now`.
    pub open spec fn clock_fits(self, now: Instant) -> bool {
        now.nanos + self.settings.snapshot_republish_interval.nanos <= self.clock_end.nanos
    }

    pub open spec fn emit(self, event: MetricEvent) -> GateModel<P> {
        GateModel { events: self.events.push(event), ..self }
    }

    pub open spec fn with_subjects(self, subjects: SubjectModel<P>) -> GateModel<P> {
        GateModel { subjects, ..self }
    }

    /// State after its snapshot was emptied.
    pub open spec fn emptied(self) -> GateModel<P> {
        GateModel {
            generation: (self.generation + 1) as u64,
            snapshot: Map::empty(),
            ..self
        }
    }

    /// Whether the snapshot is to be rebuilt at `now`.
    pub open spec fn republish_due(self, now: Instant) -> bool {
        self.subjects.dirty && now.nanos >= self.next_allowed.nanos
    }

    /// State after a rebuild was claimed at `now`.
    pub open spec fn republish_claimed(self, now: Instant) -> GateModel<P> {
        GateModel {
            next_allowed: Instant {
                nanos: (now.nanos + self.settings.snapshot_republish_interval.nanos) as u128,
            },
            subjects: self.subjects.unmarked(),
            ..self
        }
    }

    /// State after a rebuild that was claimed in `generation` brought `entries`. One that
    /// started before the snapshot was emptied, or ends while the watch is down, is dropped.
    pub open spec fn republish_committed(self, generation: u64, entries: Map<u64, u64>) -> GateModel<
        P,
    > {
        if self.generation == generation && self.connected {
            (GateModel { snapshot: entries, ..self }).emit(MetricEvent::SnapshotRepublish)
        } else {
            self
        }
    }

    /// State after a chance to rebuild its snapshot at `now`.
    pub open spec fn republished(self, now: Instant) -> GateModel<P> {
        if self.republish_due(now) {
            self.republish_claimed(now).republish_committed(
                self.generation,
                snapshot_of(self.subjects.slots),
            )
        } else {
            self
        }
    }

    /// State after its watch opened. Nothing of the prior watch is left.
    pub open spec fn opened(self) -> GateModel<P> {
        (GateModel {
            subjects: self.subjects.cleared(),
            connected: true,
            ..self.emptied()
        }).emit(MetricEvent::WatchConnected(true))
    }

    /// State after its watch went down at `now`.
    pub open spec fn lost(self, now: Instant) -> GateModel<P> {
        (GateModel {
            subjects: self.subjects.cleared(),
            connected: false,
            disconnected_since: if self.disconnected_since is None {
                Some(now)
            } else {
                self.disconnected_since
            },
            ..self.emptied()
        }).emit(MetricEvent::WatchConnected(false))
    }

    /// State after a watch change of `subject` at `now`.
    pub open spec fn changed(self, subject: u64, decision: Option<Decision>, now: Instant) -> GateModel<
        P,
    > {
        let subjects = match decision {
            Some(decision) => self.subjects.changed(
                subject,
                decision,
                self.settings.decision_freshness_ttl,
                now,
            ),
            None => self.subjects.withdrawn(subject, now),
        };
        self.with_subjects(subjects).republished(now)
    }
}

/// Copy of the subject map that is to become the snapshot.
#[derive(Debug)]
pub struct Rebuild {
    pub generation: u64,
    pub entries: HashMap<u64, u64>,
}

/// State of one gate.
#[verifier::reject_recursive_types(P)]
#[derive(Debug)]
pub struct GateState<P> {
    config: PolicyGateConfig,
    clock_end: Instant,
    connected: bool,
    disconnected_since: Option<Instant>,
    subjects: SubjectMap<P>,
    snapshot: HashMap<u64, u64>,
    generation: u64,
    next_allowed: Instant,
    events: Vec<MetricEvent>,
}

impl<P> View for GateState<P> {
    type V = GateModel<P>;

    closed spec fn view(&self) -> GateModel<P> {
        GateModel {
            settings: self.config@,
            clock_end: self.clock_end,
            connected: self.connected,
            disconnected_since: self.disconnected_since,
            subjects: self.subjects@,
            snapshot: self.snapshot@,
            generation: self.generation,
            next_allowed: self.next_allowed,
            events: self.events@,
        }
    }
}

impl<P> GateState<P> {
    /// A gate that has not seen its watch yet. Its clock can represent instants up to `clock_end`.
    pub fn new(config: &PolicyGateConfig, now: Instant, clock_end: Instant) -> (gate: GateState<P>)
        requires
            config@.max_subjects <= isize::MAX / 40,
        ensures
            gate@.wf(),
            gate@.settings == config@,
            gate@.clock_end == clock_end,
            !gate@.connected,
            gate@.disconnected_since == Some(now),
            gate@.subjects == (SubjectModel::<P> {
                slots: Seq::empty(),
                capacity: config@.max_subjects as nat,
                table: Map::empty(),
                dirty: false,
                aborted: Seq::empty(),
                ttl: config@.subject_ttl,
                epoch: now,
                next_id: 0,
            }),
            gate@.snapshot == Map::<u64, u64>::empty(),
            gate@.generation == 0,
            gate@.next_allowed == now,
            gate@.events == Seq::<MetricEvent>::empty(),
    {
        GateState {
            config: *config,
            clock_end,
            connected: false,
            disconnected_since: Some(now),
            subjects: SubjectMap::new(config.max_subjects(), config.subject_ttl(), now),
            snapshot: HashMap::new(),
            generation: 0,
            next_allowed: now,
            events: Vec::new(),
        }
    }

    /// Returns whether a step can happen at `now`.
    pub fn is_ready(&self, now: Instant) -> (ready: bool)
        ensures
            ready == self@.ready(now),
    {
        self.subjects.has_numbers(3) && self.generation < u64::MAX && now.checked_add(
            self.config.snapshot_republish_interval(),
            self.clock_end,
        ).is_some()
    }

    /// Notes a metric event.
    pub fn emit(&mut self, event: MetricEvent)
        ensures
            final(self)@ == old(self)@.emit(event),
    {
        self.events.push(event);
    }

    fn publish_empty(&mut self)
        requires
            old(self)@.generation < u64::MAX,
        ensures
            final(self)@ == old(self)@.emptied(),
    {
        self.generation = self.generation + 1;
        self.snapshot = HashMap::new();
    }

    /// Marks the watch connected after clearing state from the prior connection.
    pub fn watch_connected(&mut self)
        requires
            old(self)@.wf(),
            old(self)@.generation < u64::MAX,
        ensures
            final(self)@.wf(),
            final(self)@ == old(self)@.opened(),
    {
        self.publish_empty();
        self.subjects.clear();
        self.connected = true;
        self.emit(MetricEvent::WatchConnected(true));
    }

    /// Marks a continuously open watch as healthy.
    pub fn watch_stable(&mut self)
        ensures
            final(self)@ == (GateModel { disconnected_since: None, ..old(self)@ }),
    {
        self.disconnected_since = None;
    }

    fn mark_disconnected(&mut self, now: Instant)
        ensures
            final(self)@ == (GateModel {
                disconnected_since: if old(self)@.disconnected_since is None {
                    Some(now)
                } else {
                    old(self)@.disconnected_since
                },
                ..old(self)@
            }),
    {
        if self.disconnected_since.is_none() {
            self.disconnected_since = Some(now);
        }
    }

    /// Marks the watch disconnected and clears its subject state.
    pub fn watch_disconnected(&mut self, now: Instant)
        requires
            old(self)@.wf(),
            old(self)@.generation < u64::MAX,
        ensures
            final(self)@.wf(),
            final(self)@ == old(self)@.lost(now),
    {
        self.publish_empty();
        self.connected = false;
        self.emit(MetricEvent::WatchConnected(false));
        self.mark_disconnected(now);
        self.subjects.clear();
    }

    /// Claims the rebuild of the snapshot, where one is due.
    pub fn claim_republish(&mut self, now: Instant) -> (generation: Option<u64>)
        requires
            old(self)@.wf(),
            old(self)@.clock_fits(now),
        ensures
            final(self)@.wf(),
            old(self)@.republish_due(now) ==> generation == Some(old(self)@.generation)
                && final(self)@ == old(self)@.republish_claimed(now),
            !old(self)@.republish_due(now) ==> generation is None && final(self)@ == old(self)@,
    {
        if !self.subjects.is_dirty() || now.nanos < self.next_allowed.nanos {
            return None;
        }
        self.next_allowed = Instant {
            nanos: now.nanos + self.config.snapshot_republish_interval().nanos,
        };
        self.subjects.clear_dirty();
        Some(self.generation)
    }

    /// Copies the subject map for the rebuild claimed in `generation`.
    pub fn collect_republish(&self, generation: u64) -> (rebuild: Rebuild)
        requires
            self@.wf(),
        ensures
            rebuild.generation == generation,
            rebuild.entries@ == snapshot_of(self@.subjects.slots),
    {
        let slots = self.subjects.for_each();
        let mut entries: HashMap<u64, u64> = HashMap::new();
        let mut i: usize = 0;
        while i < slots.len()
            invariant
                slots@ == self@.subjects.slots,
                recency::distinct_subjects(slots@),
                0 <= i <= slots.len(),
                forall|subject: u64| #[trigger]
                    entries@.contains_key(subject) ==> exists|j: int|
                        j < i && recency::slot_at(slots@, subject, j),
                forall|j: int|
                    0 <= j < i ==> entries@.contains_key(#[trigger] slots@[j].0)
                        && entries@[slots@[j].0] == slots@[j].1.0,
            decreases slots.len() - i,
        {
            let ghost before = entries@;
            entries.insert(slots[i].0, slots[i].1.0);
            proof {
                assert forall|subject: u64| #[trigger] entries@.contains_key(subject) implies exists|
                    j: int,
                |
                    j < i + 1 && recency::slot_at(slots@, subject, j) by {
                    if subject == slots@[i as int].0 {
                        assert(recency::slot_at(slots@, subject, i as int));
                    } else {
                        assert(before.contains_key(subject));
                        let j = choose|j: int| j < i && recency::slot_at(slots@, subject, j);
                        assert(recency::slot_at(slots@, subject, j));
                    }
                }
            }
            i = i + 1;
        }
        proof {
            let target = snapshot_of(slots@);
            assert forall|subject: u64| entries@.contains_key(subject) == #[trigger]
                target.contains_key(subject) by {
                if recency::holds(slots@, subject) {
                    let j = recency::position(slots@, subject);
                    assert(recency::slot_at(slots@, subject, j));
                    assert(entries@.contains_key(slots@[j].0));
                }
                if entries@.contains_key(subject) {
                    let j = choose|j: int| j < i && recency::slot_at(slots@, subject, j);
                    assert(recency::slot_at(slots@, subject, j));
                    assert(recency::holds(slots@, subject));
                }
            }
            assert forall|subject: u64| #[trigger] target.contains_key(subject) implies entries@[subject]
                == target[subject] by {
                let j = recency::position(slots@, subject);
                assert(recency::slot_at(slots@, subject, j));
                assert(entries@[slots@[j].0] == slots@[j].1.0);
            }
            assert(entries@ =~= target);
        }
        Rebuild { generation, entries }
    }

    /// Publishes a rebuild, unless the watch went down since it was claimed.
    pub fn commit_republish(&mut self, rebuild: Rebuild)
        ensures
            final(self)@ == old(self)@.republish_committed(
                rebuild.generation,
                rebuild.entries@,
            ),
    {
        if self.generation == rebuild.generation && self.connected {
            self.snapshot = rebuild.entries;
            self.emit(MetricEvent::SnapshotRepublish);
        }
    }

    /// Rate-limited rebuild of the snapshot, run by the step that finds the map changed after the
    /// window; until it runs, a new subject's requests take the map path of an admission.
    pub fn republish_if_due(&mut self, now: Instant)
        requires
            old(self)@.wf(),
            old(self)@.clock_fits(now),
        ensures
            final(self)@.wf(),
            final(self)@ == old(self)@.republished(now),
    {
        match self.claim_republish(now) {
            Some(generation) => {
                let rebuild = self.collect_republish(generation);
                self.commit_republish(rebuild);
            },
            None => {},
        }
    }

    /// Applies one watch change to a subject already known to this process.
    ///
    /// Absent subjects are ignored: a vanished entry is admitted again by its stream or by the next
    /// request.
    pub fn apply_change(&mut self, change: DecisionChange<u64>, now: Instant)
        requires
            old(self)@.wf(),
            old(self)@.clock_fits(now),
        ensures
            final(self)@.wf(),
            final(self)@ == old(self)@.changed(change.subject, change.decision, now),
    {
        match change.decision {
            Some(decision) => {
                let ttl = self.config.decision_freshness_ttl();
                proof {
                    subject_model::lemma_changed(
                        self@.subjects,
                        change.subject,
                        decision,
                        ttl,
                        now,
                    );
                }
                self.subjects.update(change.subject, decision, ttl, now);
            },
            None => {
                proof {
                    subject_model::lemma_withdrawn(self@.subjects, change.subject, now);
                }
                self.subjects.withdraw(change.subject, now);
            },
        }
        self.republish_if_due(now);
    }
}

/// What an access to a cached decision asks of its caller.
#[derive(Clone, Copy, Debug)]
pub enum Access {
    /// There is no authoritative decision to use.
    Unavailable,
    /// The decision can be used as it is.
    Ready(Admission),
    /// The decision can be used, once its refresh has been handed to the watcher or that has taken
    /// until `deadline`.
    Enqueue { admission: Admission, generation: u64, deadline: Instant },
}

/// How a lookup of the source ended.
#[derive(Debug)]
pub enum LookupOutcome<P> {
    /// The lookup took longer than its budget.
    TimedOut,
    /// The source reported a failure.
    Failed(DecisionSourceError),
    /// The source holds no decision.
    Absent,
    /// The source answered.
    Found(DecisionResult<P>),
    /// The source panicked.
    Panicked,
}

/// Returns what a lookup that ended at `now` brought. An answer that has already expired, and every
/// way not to answer, is a transient failure.
pub fn settle_lookup<P>(outcome: LookupOutcome<P>, now: Instant) -> (result: Result<
    DecisionResult<P>,
    DecisionSourceError,
>)
    ensures
        match outcome {
            LookupOutcome::Found(found) => if found.valid_until matches Some(end) && end.nanos
                <= now.nanos {
                transient(result, "decision source returned an expired decision"@)
            } else {
                result == Ok::<DecisionResult<P>, DecisionSourceError>(found)
            },
            LookupOutcome::Failed(error) => result == Err::<DecisionResult<P>, DecisionSourceError>(
                error,
            ),
            LookupOutcome::TimedOut => transient(result, "subject state lookup timed out"@),
            LookupOutcome::Absent => transient(
                result,
                "decision source holds no decision for the subject"@,
            ),
            LookupOutcome::Panicked => transient(result, "decision source panicked"@),
        },
{
    let message: &str = match outcome {
        LookupOutcome::Found(found) => {
            let expired = match found.valid_until {
                Some(end) => end.nanos <= now.nanos,
                None => false,
            };
            if !expired {
                return Ok(found);
            }
            "decision source returned an expired decision"
        },
        LookupOutcome::Failed(error) => {
            return Err(error);
        },
        LookupOutcome::TimedOut => "subject state lookup timed out",
        LookupOutcome::Absent => "decision source holds no decision for the subject",
        LookupOutcome::Panicked => "decision source panicked",
    };
    Err(DecisionSourceError::new(DecisionSourceErrorKind::Transient, message))
}

/// Whether `result` is a transient failure with this text.
pub open spec fn transient<P>(
    result: Result<DecisionResult<P>, DecisionSourceError>,
    text: Seq<char>,
) -> bool {
    &&& result matches Err(error)
    &&& error.spec_kind() == DecisionSourceErrorKind::Transient
    &&& error.text() == text
}

/// Until when an access at `now` waits for the refresh queue: its own timeout or the end of the
/// admission, whichever comes first. `None` where it does not wait.
pub open spec fn queue_deadline(
    settings: Settings,
    clock_end: Instant,
    now: Instant,
    admission_deadline: Option<Instant>,
) -> Option<Instant> {
    let end = now.nanos + settings.refresh_enqueue_timeout.nanos;
    let own = if end <= clock_end.nanos {
        Some(Instant { nanos: end as u128 })
    } else {
        None
    };
    time::spec_earlier(own, admission_deadline)
}

impl<P> GateModel<P> {
    /// State after somebody looked at the entry `id` at `now`.
    pub open spec fn looked(self, id: u64, now: Instant) -> GateModel<P> {
        self.with_subjects(self.subjects.looked(id, now))
    }

    /// Whether the entry `id` is one that an admission may name: it has had a decision.
    pub open spec fn admitted(self, id: u64) -> bool {
        self.subjects.table.contains_key(id) ==> self.subjects.table[id].state()
            != EntryState::Pending
    }

    /// State after an access to the entry `id` at `now`, and what the access asks for.
    ///
    /// An access to a decision whose refresh is due puts that refresh in flight.
    pub open spec fn accessed(
        self,
        id: u64,
        admission_deadline: Option<Instant>,
        now: Instant,
    ) -> (GateModel<P>, Access) {
        let seen = self.looked(id, now);
        let admission = Admission { entry: id };
        if self.subjects.verdict(id, now) is None {
            (seen, Access::Unavailable)
        } else if self.settings.refresh_before_expiry.nanos == 0
            || !seen.subjects.table[id].refresh_due(now) {
            (seen, Access::Ready(admission))
        } else {
            match queue_deadline(self.settings, self.clock_end, now, admission_deadline) {
                None => (seen, Access::Ready(admission)),
                Some(deadline) => (
                    seen.with_subjects(seen.subjects.claimed(id)),
                    Access::Enqueue { admission, generation: seen.subjects.next_id, deadline },
                ),
            }
        }
    }

    /// State after a cached read of `subject` at `now`, and what the read asks for.
    pub open spec fn checked(self, subject: u64, now: Instant) -> (GateModel<P>, Access) {
        if !self.snapshot.contains_key(subject) {
            (self, Access::Unavailable)
        } else {
            let id = self.snapshot[subject];
            let seen = self.looked(id, now);
            if self.subjects.verdict(id, now) is None {
                (seen, Access::Unavailable)
            } else {
                seen.with_subjects(seen.subjects.touched(subject, id, now)).accessed(id, None, now)
            }
        }
    }

    /// State after a cached read of `subject` at `now` that starts no refresh, and its result.
    pub open spec fn peeked(self, subject: u64, now: Instant) -> (GateModel<P>, Option<Admission>) {
        if !self.snapshot.contains_key(subject) {
            (self, None)
        } else {
            let id = self.snapshot[subject];
            let seen = self.looked(id, now);
            if self.subjects.verdict(id, now) is None {
                (seen, None)
            } else {
                let used = seen.with_subjects(seen.subjects.touched(subject, id, now));
                if used.subjects.verdict(id, now) is None {
                    (used.looked(id, now), None)
                } else {
                    (used.looked(id, now), Some(Admission { entry: id }))
                }
            }
        }
    }

    /// State after a refresh of `subject` through a handle was asked for at `now`.
    pub open spec fn refresh_asked(self, subject: u64, id: u64, now: Instant) -> (
        GateModel<P>,
        Access,
    ) {
        let used = self.with_subjects(self.subjects.touched(subject, id, now));
        if self.subjects.matches_entry(subject, id) {
            used.accessed(id, None, now)
        } else {
            (used, Access::Unavailable)
        }
    }

    /// State after the wait of an access for the refresh queue ended at `now`.
    pub open spec fn access_finished(
        self,
        id: u64,
        generation: u64,
        queued: bool,
        now: Instant,
    ) -> GateModel<P> {
        let kept = if queued {
            self
        } else {
            self.with_subjects(self.subjects.released(id, generation))
        };
        kept.looked(id, now)
    }

    /// Kind of the failure that callers see of a lookup.
    pub open spec fn seen_failure(
        self,
        id: u64,
        generation: u64,
        result: Result<DecisionResult<P>, DecisionSourceError>,
        now: Instant,
    ) -> Option<DecisionSourceErrorKind> {
        if self.subjects.awaits(id, generation) {
            self.subjects.fetch_failure(id, result, self.settings.decision_freshness_ttl, now)
        } else {
            match result {
                Ok(_) => None,
                Err(error) => Some(error.spec_kind()),
            }
        }
    }

    /// State after the lookup `generation` ended with `result` at `now`. Where that took a
    /// pending entry out, the snapshot may be rebuilt.
    pub open spec fn fetched(
        self,
        subject: u64,
        id: u64,
        generation: u64,
        result: Result<DecisionResult<P>, DecisionSourceError>,
        now: Instant,
    ) -> GateModel<P> {
        let after = self.with_subjects(
            self.subjects.fetched(subject, id, generation, result, self.settings, now),
        );
        if self.subjects.awaits(id, generation)
            && self.subjects.table[id].pending->0.refresh_from is None && self.seen_failure(
            id,
            generation,
            result,
            now,
        ) == Some(DecisionSourceErrorKind::Transient) {
            after.republished(now)
        } else {
            after
        }
    }

    /// State with the metric events of a lookup that callers see failed.
    pub open spec fn failure_counted(self, failure: Option<DecisionSourceErrorKind>) -> GateModel<P> {
        GateModel { events: self.events + failure_events(failure), ..self }
    }
}

/// Metric events of a lookup, by the kind of failure that its callers see.
pub open spec fn failure_events(failure: Option<DecisionSourceErrorKind>) -> Seq<MetricEvent> {
    match failure {
        None => Seq::empty(),
        Some(DecisionSourceErrorKind::Wire) => seq![
            MetricEvent::WireFailure,
            MetricEvent::UnaryFailure,
        ],
        Some(_) => seq![MetricEvent::UnaryFailure],
    }
}

/// Returns the metric events of a lookup whose callers see `result`.
pub fn lookup_events<R>(result: &Result<R, DecisionSourceError>) -> (events: Vec<MetricEvent>)
    ensures
        events@ == failure_events(
            match result {
                Ok(_) => None,
                Err(error) => Some(error.spec_kind()),
            },
        ),
{
    let mut events: Vec<MetricEvent> = Vec::new();
    match result {
        Ok(_) => {},
        Err(error) => {
            if error.kind() == DecisionSourceErrorKind::Wire {
                events.push(MetricEvent::WireFailure);
            }
            events.push(MetricEvent::UnaryFailure);
        },
    }
    events
}

/// `Arc::clone`: one more pointer to the same value.
#[verifier::external_body]
fn share<P>(value: &Arc<P>) -> (shared: Arc<P>)
    ensures
        shared == *value,
{
    Arc::clone(value)
}

impl<P> GateState<P> {
    /// Returns the admission of an entry that holds an authoritative decision at `now`.
    fn admission(&mut self, id: u64, now: Instant) -> (admission: Option<Admission>)
        requires
            old(self)@.wf(),
        ensures
            final(self)@.wf(),
            final(self)@ == old(self)@.looked(id, now),
            admission == if old(self)@.subjects.verdict(id, now) is Some {
                Some(Admission { entry: id })
            } else {
                None
            },
    {
        match self.subjects.verdict_at(id, now) {
            Some(_) => Some(Admission { entry: id }),
            None => None,
        }
    }

    /// Reads a decision and puts its refresh in flight where that is due.
    pub fn admission_on_access(
        &mut self,
        id: u64,
        admission_deadline: Option<Instant>,
        now: Instant,
    ) -> (access: Access)
        requires
            old(self)@.wf(),
            old(self)@.subjects.next_id < u64::MAX,
        ensures
            final(self)@.wf(),
            (final(self)@, access) == old(self)@.accessed(id, admission_deadline, now),
    {
        proof {
            subject_model::lemma_looked(self@.subjects, id, now);
        }
        let admission = match self.admission(id, now) {
            Some(admission) => admission,
            None => {
                return Access::Unavailable;
            },
        };
        if self.config.refresh_before_expiry().is_zero() {
            return Access::Ready(admission);
        }
        let end = now.checked_add(self.config.refresh_enqueue_timeout(), self.clock_end);
        let deadline = match time::earlier(end, admission_deadline) {
            Some(deadline) => deadline,
            None => {
                return Access::Ready(admission);
            },
        };
        match self.subjects.claim_refresh(id, now) {
            Some(generation) => Access::Enqueue { admission, generation, deadline },
            None => Access::Ready(admission),
        }
    }

    /// Ends the wait of an access for the refresh queue. A refresh that the queue did not take is
    /// given up.
    pub fn finish_access(&mut self, id: u64, generation: u64, queued: bool, now: Instant) -> (
    admission: Option<Admission>)
        requires
            old(self)@.wf(),
        ensures
            final(self)@.wf(),
            final(self)@ == old(self)@.access_finished(id, generation, queued, now),
            admission == if old(self)@.subjects.verdict(id, now) is Some {
                Some(Admission { entry: id })
            } else {
                None
            },
    {
        if !queued {
            self.release_claim(id, generation);
        }
        self.admission(id, now)
    }

    /// Gives up a refresh whose caller went away before the queue took it.
    pub fn release_claim(&mut self, id: u64, generation: u64)
        requires
            old(self)@.wf(),
        ensures
            final(self)@.wf(),
            final(self)@ == old(self)@.with_subjects(
                old(self)@.subjects.released(id, generation),
            ),
    {
        self.subjects.release_claim(id, generation);
    }

    /// Reads subject state through the snapshot and records its map recency.
    pub fn check(&mut self, subject: u64, now: Instant) -> (access: Access)
        requires
            old(self)@.wf(),
            old(self)@.subjects.next_id < u64::MAX,
        ensures
            final(self)@.wf(),
            (final(self)@, access) == old(self)@.checked(subject, now),
    {
        let id: u64 = match self.snapshot.get(&subject) {
            Some(id) => *id,
            None => {
                return Access::Unavailable;
            },
        };
        if self.subjects.verdict_at(id, now).is_none() {
            return Access::Unavailable;
        }
        proof {
            subject_model::lemma_touched(self@.subjects, subject, id, now);
        }
        self.subjects.touch(subject, id, now);
        self.admission_on_access(id, None, now)
    }

    /// Reads subject state through the snapshot without starting a refresh.
    pub fn check_without_refresh(&mut self, subject: u64, now: Instant) -> (admission: Option<
        Admission,
    >)
        requires
            old(self)@.wf(),
        ensures
            final(self)@.wf(),
            final(self)@ == old(self)@.peeked(subject, now).0,
            admission == old(self)@.peeked(subject, now).1,
    {
        let id: u64 = match self.snapshot.get(&subject) {
            Some(id) => *id,
            None => {
                return None;
            },
        };
        if self.subjects.verdict_at(id, now).is_none() {
            return None;
        }
        proof {
            subject_model::lemma_touched(self@.subjects, subject, id, now);
        }
        self.subjects.touch(subject, id, now);
        self.admission(id, now)
    }

    /// Hands a due refresh of an admission to the caller. The entry must still answer for `subject`.
    pub fn refresh_entry(&mut self, subject: u64, admission: Admission, now: Instant) -> (access:
        Access)
        requires
            old(self)@.wf(),
            old(self)@.subjects.next_id < u64::MAX,
        ensures
            final(self)@.wf(),
            (final(self)@, access) == old(self)@.refresh_asked(subject, admission.entry, now),
    {
        proof {
            subject_model::lemma_touched(self@.subjects, subject, admission.entry, now);
        }
        if self.subjects.touch(subject, admission.entry, now) {
            self.admission_on_access(admission.entry, None, now)
        } else {
            Access::Unavailable
        }
    }

    /// Notes that the source is about to be called.
    pub fn begin_lookup(&mut self)
        ensures
            final(self)@ == old(self)@.emit(MetricEvent::UnaryCall),
    {
        self.emit(MetricEvent::UnaryCall);
    }

    /// Ends the lookup `generation` of `subject` with `result`.
    pub fn apply_fetch_result(
        &mut self,
        subject: u64,
        id: u64,
        generation: u64,
        result: Result<DecisionResult<P>, DecisionSourceError>,
        now: Instant,
    ) -> (returned: Result<(), DecisionSourceError>)
        requires
            old(self)@.wf(),
            old(self)@.ready(now),
        ensures
            final(self)@.wf(),
            final(self)@ == old(self)@.fetched(subject, id, generation, result, now),
            subjects::fetch_returns(
                old(self)@.subjects,
                id,
                generation,
                result,
                old(self)@.settings,
                now,
                returned,
            ),
    {
        let ghost before = self@;
        proof {
            subject_model::lemma_fetched(
                self@.subjects,
                subject,
                id,
                generation,
                result,
                self@.settings,
                now,
            );
        }
        let awaited = match self.subjects.entry(id) {
            Some(entry) => match &entry.pending {
                Some(pending) => pending.generation == generation
                    && pending.refresh_from.is_none(),
                None => false,
            },
            None => false,
        };
        let returned = self.subjects.apply_fetch_result(
            subject,
            id,
            generation,
            result,
            &self.config,
            now,
        );
        let retried = match &returned {
            Ok(_) => false,
            Err(error) => error.kind() == DecisionSourceErrorKind::Transient,
        };
        if awaited && retried {
            self.republish_if_due(now);
        }
        returned
    }

    /// Ends a lookup and counts its failure.
    pub fn complete_fetch(
        &mut self,
        subject: u64,
        id: u64,
        generation: u64,
        result: Result<DecisionResult<P>, DecisionSourceError>,
        now: Instant,
    ) -> (returned: Result<(), DecisionSourceError>)
        requires
            old(self)@.wf(),
            old(self)@.ready(now),
        ensures
            final(self)@.wf(),
            final(self)@ == old(self)@.fetched(
                subject,
                id,
                generation,
                result,
                now,
            ).failure_counted(old(self)@.seen_failure(id, generation, result, now)),
            subjects::fetch_returns(
                old(self)@.subjects,
                id,
                generation,
                result,
                old(self)@.settings,
                now,
                returned,
            ),
    {
        let returned = self.apply_fetch_result(subject, id, generation, result, now);
        let mut events = lookup_events(&returned);
        self.events.append(&mut events);
        returned
    }
}

impl<P> GateModel<P> {
    /// What a handle sees of the entry `id` at `now`. An entry that is gone counts as stale.
    pub open spec fn observed(self, id: u64, now: Instant) -> Observed {
        if self.subjects.table.contains_key(id) {
            self.subjects.table[id].observed(now)
        } else {
            Observed::Stale
        }
    }

    /// Whether a refresh of the entry `id` should start at `now`.
    pub open spec fn refresh_due(self, id: u64, now: Instant) -> bool {
        self.subjects.table.contains_key(id) && self.subjects.table[id].refresh_due(now)
    }

    /// Payload of the entry `id` at `now`: that of an allowed, unexpired decision.
    pub open spec fn payload(self, id: u64, now: Instant) -> Option<Arc<P>> {
        if self.observed(id, now) == Observed::Allowed {
            self.subjects.table[id].current.payload
        } else {
            None
        }
    }

    /// State after the entry `id` was invalidated through a handle.
    pub open spec fn invalidated(self, id: u64) -> GateModel<P> {
        if self.subjects.table.contains_key(id) {
            self.with_subjects(self.subjects.dropped(id))
        } else {
            self
        }
    }
}

impl<P> GateState<P> {
    /// What a handle of the entry `id` sees at `now`.
    pub fn observe(&mut self, id: u64, now: Instant) -> (observed: Observed)
        requires
            old(self)@.wf(),
            old(self)@.admitted(id),
        ensures
            final(self)@.wf(),
            final(self)@ == old(self)@.looked(id, now),
            observed == old(self)@.observed(id, now),
    {
        self.subjects.observed_at(id, now)
    }

    /// Returns whether a refresh of the entry `id` should start at `now`.
    pub fn is_refresh_due(&self, id: u64, now: Instant) -> (due: bool)
        ensures
            due == self@.refresh_due(id, now),
    {
        match self.subjects.entry(id) {
            Some(entry) => entry.refresh_due_at(now),
            None => false,
        }
    }

    /// Payload of the entry `id` at `now`.
    pub fn payload(&mut self, id: u64, now: Instant) -> (payload: Option<Arc<P>>)
        requires
            old(self)@.wf(),
            old(self)@.admitted(id),
        ensures
            final(self)@.wf(),
            final(self)@ == old(self)@.looked(id, now),
            payload == old(self)@.payload(id, now),
    {
        if self.observe(id, now) != Observed::Allowed {
            return None;
        }
        match self.subjects.entry(id) {
            Some(entry) => match &entry.current.payload {
                Some(payload) => Some(share(payload)),
                None => None,
            },
            None => None,
        }
    }

    /// Makes the entry `id` stale and drops its lookup.
    pub fn invalidate(&mut self, id: u64)
        requires
            old(self)@.wf(),
        ensures
            final(self)@.wf(),
            final(self)@ == old(self)@.invalidated(id),
    {
        self.subjects.invalidate(id);
    }

    /// Forgets the entry `id`, which no handle holds, if it answers for no subject.
    pub fn forget(&mut self, id: u64) -> (forgotten: bool)
        requires
            old(self)@.wf(),
        ensures
            final(self)@.wf(),
            forgotten == (old(self)@.subjects.table.contains_key(id) && !subject_model::attached(
                old(self)@.subjects.slots,
                id,
            )),
            final(self)@ == if forgotten {
                old(self)@.with_subjects(
                    SubjectModel {
                        table: old(self)@.subjects.table.remove(id),
                        ..old(self)@.subjects
                    },
                )
            } else {
                old(self)@
            },
    {
        self.subjects.forget(id)
    }

    /// Returns whether the entry `id` has not been forgotten.
    pub fn has_entry(&self, id: u64) -> (known: bool)
        ensures
            known == self@.subjects.table.contains_key(id),
    {
        self.subjects.entry(id).is_some()
    }

    /// Metric events since they were last taken, in their order.
    pub fn take_events(&mut self) -> (events: Vec<MetricEvent>)
        ensures
            events@ == old(self)@.events,
            final(self)@ == (GateModel { events: Seq::empty(), ..old(self)@ }),
    {
        let mut events: Vec<MetricEvent> = Vec::new();
        std::mem::swap(&mut events, &mut self.events);
        events
    }

    /// Lookups that no longer count, since they were last taken.
    pub fn take_aborted(&mut self) -> (aborted: Vec<u64>)
        ensures
            aborted@ == old(self)@.subjects.aborted,
            final(self)@ == old(self)@.with_subjects(
                SubjectModel { aborted: Seq::empty(), ..old(self)@.subjects },
            ),
    {
        self.subjects.take_aborted()
    }

    /// Lookup in flight for the entry `id`.
    pub fn pending_operation(&self, id: u64) -> (pending: Option<PendingFetch>)
        ensures
            pending == if self@.subjects.table.contains_key(id) {
                self@.subjects.table[id].pending
            } else {
                None
            },
    {
        match self.subjects.entry(id) {
            Some(entry) => entry.pending,
            None => None,
        }
    }

    /// Every cached subject, the most recently used first.
    pub fn cached_subjects(&self) -> (subjects: Vec<(u64, (u64, u64))>)
        ensures
            subjects@ == self@.subjects.slots,
    {
        self.subjects.for_each()
    }

    pub fn is_connected(&self) -> (connected: bool)
        ensures
            connected == self@.connected,
    {
        self.connected
    }

    pub fn disconnected_since(&self) -> (since: Option<Instant>)
        ensures
            since == self@.disconnected_since,
    {
        self.disconnected_since
    }

    /// Total admission time budget.
    /// Last instant that the clock can represent.
    pub fn clock_end(&self) -> (end: Instant)
        ensures
            end == self@.clock_end,
    {
        self.clock_end
    }

    pub fn admission_timeout(&self) -> (timeout: Duration)
        ensures
            timeout == self@.settings.admission_timeout,
    {
        self.config.admission_timeout()
    }

    pub fn initial_reconnect_delay(&self) -> (delay: Duration)
        ensures
            delay == self@.settings.initial_reconnect_delay,
            0 < delay.nanos <= self@.settings.max_reconnect_delay.nanos,
    {
        self.config.initial_reconnect_delay()
    }

    pub fn max_reconnect_delay(&self) -> (delay: Duration)
        ensures
            delay == self@.settings.max_reconnect_delay,
    {
        self.config.max_reconnect_delay()
    }

    pub fn refresh_queue_capacity(&self) -> (capacity: usize)
        ensures
            capacity == self@.settings.refresh_queue_capacity,
            0 < capacity,
    {
        self.config.refresh_queue_capacity()
    }

    pub fn watch_events_per_yield(&self) -> (events: usize)
        ensures
            events == self@.settings.watch_events_per_yield,
            0 < events,
    {
        self.config.watch_events_per_yield()
    }
}

impl<P> GateModel<P> {
    /// State after an admission of `subject` found or made its entry at `now`. A subject that
    /// cached reads would miss has the snapshot rebuilt.
    pub open spec fn joined(self, subject: u64, now: Instant) -> GateModel<P> {
        let subjects = self.subjects.joined(subject, now, self.settings.refresh_before_expiry);
        let noted = if recency::holds(self.subjects.slots, subject) && self.snapshot.contains_key(
            subject,
        ) {
            subjects
        } else {
            subjects.marked()
        };
        self.with_subjects(noted).republished(now)
    }

    /// State after an attempt to take `subject` out at `now`.
    pub open spec fn discarded(
        self,
        subject: u64,
        id: u64,
        now: Instant,
        removal: Removal,
    ) -> GateModel<P> {
        let left = self.subjects.removed_if(subject, id, now, removal);
        if self.subjects.removes(subject, id, now, removal) {
            self.with_subjects(left.marked())
        } else {
            self.with_subjects(left)
        }
    }
}

impl<P> GateState<P> {
    /// Finds or makes the entry of `subject`.
    pub fn join(&mut self, subject: u64, now: Instant) -> (id: u64)
        requires
            old(self)@.wf(),
            old(self)@.subjects.next_id + 2 <= u64::MAX,
            old(self)@.clock_fits(now),
        ensures
            final(self)@.wf(),
            final(self)@ == old(self)@.joined(subject, now),
            id == old(self)@.subjects.joined_entry(subject),
            final(self)@.subjects.table.contains_key(id),
            final(self)@.subjects.next_id <= old(self)@.subjects.next_id + 2,
    {
        let refresh_before = self.config.refresh_before_expiry();
        proof {
            subject_model::lemma_joined(self@.subjects, subject, now, refresh_before);
        }
        let (id, inserted) = self.subjects.get_or_insert_with(subject, now, refresh_before);
        if inserted || !self.snapshot.contains_key(&subject) {
            self.subjects.mark_dirty();
        }
        self.republish_if_due(now);
        id
    }

    /// Takes `subject` out, where it still has the entry `id` and `removal` applies.
    pub fn discard(&mut self, subject: u64, id: u64, now: Instant, removal: Removal)
        requires
            old(self)@.wf(),
        ensures
            final(self)@.wf(),
            final(self)@ == old(self)@.discarded(subject, id, now, removal),
            final(self)@.subjects.next_id == old(self)@.subjects.next_id,
    {
        proof {
            subject_model::lemma_removed_if(self@.subjects, subject, id, now, removal);
        }
        if self.subjects.remove_if(subject, id, now, removal) {
            self.subjects.mark_dirty();
        }
    }

    /// State of the entry `id` at `now`.
    pub fn state_at(&mut self, id: u64, now: Instant) -> (state: EntryState)
        requires
            old(self)@.wf(),
        ensures
            final(self)@.wf(),
            final(self)@ == old(self)@.looked(id, now),
            state == old(self)@.subjects.live_state(id, now),
    {
        self.subjects.state_at(id, now)
    }

    /// Authoritative and unexpired decision of the entry `id` at `now`.
    pub fn verdict(&mut self, id: u64, now: Instant) -> (verdict: Option<Decision>)
        requires
            old(self)@.wf(),
        ensures
            final(self)@.wf(),
            final(self)@ == old(self)@.looked(id, now),
            verdict == old(self)@.subjects.verdict(id, now),
    {
        self.subjects.verdict_at(id, now)
    }

    /// Returns whether an admission may name the entry `id`.
    pub fn is_admitted(&self, id: u64) -> (admitted: bool)
        ensures
            admitted == self@.admitted(id),
    {
        match self.subjects.entry(id) {
            Some(entry) => crate::entry::decode_entry_state(entry.current.word)
                != EntryState::Pending,
            None => true,
        }
    }

    /// Ceiling for the doubling admission retry backoff.
    pub fn max_admission_retry_delay(&self) -> (delay: Duration)
        ensures
            delay == self@.settings.max_admission_retry_delay,
    {
        self.config.max_admission_retry_delay()
    }

    /// First delay of the admission retry backoff.
    pub fn initial_admission_retry_delay(&self) -> (delay: Duration)
        ensures
            delay == self@.settings.initial_admission_retry_delay,
    {
        self.config.initial_admission_retry_delay()
    }
}

} // verus!
