//! Eviction of subjects and publication of the snapshot.

use std::collections::{HashMap, VecDeque};

use policy_gate::{
    settle_lookup, Access, Admission, AdmissionState, AdmitStep, ConnectionWait, Decision,
    DecisionChange, DecisionResult, DecisionSourceError, DecisionSourceErrorKind, Duration,
    FetchWait, GateState, Instant, LookupOutcome, MetricEvent, PolicyGateConfig, Reconnect,
    SleepWait, WatchItem, WatchOutcome, WatchSession, WatchStep,
};

const A: u64 = 1;
const B: u64 = 2;
#[allow(dead_code)]
const C: u64 = 3;

type Payload = &'static str;

/// Drives one gate against a scripted decision source and a clock that only moves when told.
struct World {
    gate: GateState<Payload>,
    now: Instant,
    session: Option<WatchSession>,
    reconnect: Reconnect,
    replies: HashMap<u64, VecDeque<LookupOutcome<Payload>>>,
    calls: usize,
    misses: usize,
    queue: VecDeque<(u64, u64, u64)>,
    queue_capacity: usize,
    events: Vec<MetricEvent>,
}

fn millis(value: u64) -> Duration {
    Duration::from_millis(value)
}

fn found(decision: Decision) -> LookupOutcome<Payload> {
    LookupOutcome::Found(DecisionResult::plain(decision))
}

fn failed(kind: DecisionSourceErrorKind) -> LookupOutcome<Payload> {
    LookupOutcome::Failed(DecisionSourceError::new(kind, "scripted failure"))
}

#[allow(dead_code)]
impl World {
    fn disconnected(config: PolicyGateConfig) -> World {
        let now = Instant::from_nanos(1_000_000_000);
        let gate = GateState::new(&config, now, Instant::last());
        let reconnect = Reconnect::new(&gate);
        World {
            gate,
            now,
            session: None,
            reconnect,
            replies: HashMap::new(),
            calls: 0,
            misses: 0,
            queue: VecDeque::new(),
            queue_capacity: config.refresh_queue_capacity(),
            events: Vec::new(),
        }
    }

    fn new(config: PolicyGateConfig) -> World {
        let mut world = World::disconnected(config);
        world.open_watch();
        world
    }

    fn open_watch(&mut self) {
        self.session = Some(WatchSession::open(&mut self.gate));
    }

    /// Closes the watch as the end of its stream does. Returns the delay before jitter.
    fn close_watch(&mut self) -> Duration {
        let stable = self.session.take().expect("an open watch").stable;
        self.reconnect
            .watch_ended(&mut self.gate, WatchOutcome::Closed { stable }, self.now)
    }

    fn item(&mut self, item: WatchItem) -> WatchStep {
        let mut session = self.session.take().expect("an open watch");
        let step = session.item_received(&mut self.gate, item, self.now);
        self.session = Some(session);
        step
    }

    fn change(&mut self, subject: u64, decision: Option<Decision>) -> WatchStep {
        self.item(Some(Ok(DecisionChange { subject, decision })))
    }

    fn advance(&mut self, by: u64) {
        self.now = Instant::from_nanos(self.now.nanos + u128::from(by) * 1_000_000);
    }

    fn reply(&mut self, subject: u64, outcome: LookupOutcome<Payload>) {
        self.replies.entry(subject).or_default().push_back(outcome);
    }

    /// Calls the source. Without a script it allows.
    fn call_source(&mut self, subject: u64) -> LookupOutcome<Payload> {
        self.calls += 1;
        self.gate.begin_lookup();
        self.replies
            .entry(subject)
            .or_default()
            .pop_front()
            .unwrap_or_else(|| found(Decision::Allowed))
    }

    fn finish_lookup(
        &mut self,
        subject: u64,
        entry: u64,
        generation: u64,
        outcome: LookupOutcome<Payload>,
    ) -> Result<(), DecisionSourceError> {
        let result = settle_lookup(outcome, self.now);
        self.gate
            .complete_fetch(subject, entry, generation, result, self.now)
    }

    /// First step of an admission that does not find the watch down.
    fn begin(&mut self, subject: u64) -> AdmitStep {
        let step = self.gate.begin_admission(subject, self.now);
        self.after_connection(step)
    }

    fn after_connection(&mut self, step: AdmitStep) -> AdmitStep {
        match step {
            AdmitStep::AwaitConnection(call) => {
                self.gate
                    .admit_after_connection(call, ConnectionWait::Connected, self.now)
            }
            other => other,
        }
    }

    /// Runs an admission to its end; waits move the clock.
    fn run(&mut self, mut step: AdmitStep) -> Option<Admission> {
        loop {
            step = match step {
                AdmitStep::Done(admission) => return admission,
                AdmitStep::AwaitConnection(call) => {
                    let wait = if self.gate.is_connected() && self.now.nanos < call.deadline.nanos {
                        ConnectionWait::Connected
                    } else {
                        self.now = call.deadline;
                        ConnectionWait::TimedOut
                    };
                    self.gate.admit_after_connection(call, wait, self.now)
                }
                AdmitStep::AwaitFetch {
                    call,
                    entry,
                    generation,
                } => {
                    let pending = self.gate.pending_operation(entry).expect("a lookup");
                    assert_eq!(pending.generation, generation);
                    if let Some(delay) = pending.delay {
                        self.now = Instant::from_nanos(self.now.nanos + delay.nanos);
                    }
                    let outcome = self.call_source(call.subject);
                    let result = self.finish_lookup(call.subject, entry, generation, outcome);
                    self.gate
                        .admit_after_fetch(call, entry, FetchWait::Ended(result), self.now)
                }
                AdmitStep::AwaitQueue {
                    call,
                    entry,
                    generation,
                    late,
                    ..
                } => {
                    let queued = self.enqueue(call.subject, entry, generation);
                    self.gate
                        .admit_after_queue(call, entry, generation, late, queued, self.now)
                }
                AdmitStep::Sleep { call, delay } => {
                    let end = self.now.nanos + delay.nanos;
                    if end >= call.deadline.nanos {
                        self.now = call.deadline;
                        self.gate.admit_after_sleep(call, SleepWait::TimedOut)
                    } else {
                        self.now = Instant::from_nanos(end);
                        self.gate.admit_after_sleep(call, SleepWait::Slept)
                    }
                }
            };
        }
    }

    /// Admits through the subject map.
    fn join(&mut self, subject: u64) -> Option<Admission> {
        let step = self.gate.begin_admission(subject, self.now);
        self.run(step)
    }

    fn allowed(&mut self, subject: u64) -> Admission {
        let admission = self.join(subject).expect("admission succeeds");
        assert!(self.is_allowed(admission), "subject must be allowed");
        admission
    }

    fn enqueue(&mut self, subject: u64, entry: u64, generation: u64) -> bool {
        if self.queue.len() < self.queue_capacity {
            self.queue.push_back((subject, entry, generation));
            true
        } else {
            false
        }
    }

    fn access(&mut self, subject: u64, access: Access) -> Option<Admission> {
        match access {
            Access::Unavailable => None,
            Access::Ready(admission) => Some(admission),
            Access::Enqueue {
                admission,
                generation,
                ..
            } => {
                let queued = self.enqueue(subject, admission.entry, generation);
                self.gate
                    .finish_access(admission.entry, generation, queued, self.now)
            }
        }
    }

    fn try_cached(&mut self, subject: u64) -> Option<Admission> {
        let access = self.gate.check(subject, self.now);
        self.access(subject, access)
    }

    fn refresh(&mut self, subject: u64, admission: Admission) {
        let access = self.gate.refresh_entry(subject, admission, self.now);
        self.access(subject, access);
    }

    /// Serves a request: from the snapshot, else through the map.
    fn serve(&mut self, subject: u64) -> Option<AdmissionState> {
        let admission = match self.try_cached(subject) {
            Some(admission) => Some(admission),
            None => {
                self.misses += 1;
                self.join(subject)
            }
        };
        admission.map(|admission| self.state(admission))
    }

    /// Runs the refreshes that wait for the watcher.
    fn run_queue(&mut self) {
        while let Some((subject, entry, generation)) = self.queue.pop_front() {
            let outcome = self.call_source(subject);
            let _ = self.finish_lookup(subject, entry, generation, outcome);
        }
    }

    fn state(&mut self, admission: Admission) -> AdmissionState {
        assert!(self.gate.is_admitted(admission.entry));
        admission.state(&mut self.gate, self.now)
    }

    fn check(&mut self, admission: Admission) -> (AdmissionState, bool) {
        admission.check(&mut self.gate, self.now)
    }

    fn is_allowed(&mut self, admission: Admission) -> bool {
        admission.is_allowed(&mut self.gate, self.now)
    }

    fn payload(&mut self, admission: Admission) -> Option<Payload> {
        admission
            .payload(&mut self.gate, self.now)
            .map(|payload| *payload)
    }

    fn count(&mut self, event: MetricEvent) -> usize {
        self.events.extend(self.gate.take_events());
        self.events.iter().filter(|seen| **seen == event).count()
    }
}

fn policy(max_subjects: usize, subject_ttl: Duration) -> PolicyGateConfig {
    PolicyGateConfig::builder()
        .max_subjects(max_subjects)
        .subject_ttl(subject_ttl)
        .snapshot_republish_interval(millis(10))
        .build()
        .expect("valid config")
}

#[test]
fn idle_subject_is_evicted_and_readmitted() {
    let mut world = World::new(policy(65_536, millis(10)));
    assert_eq!(world.serve(A), Some(AdmissionState::Allowed));
    assert_eq!(world.count(MetricEvent::SnapshotRepublish), 1);
    let misses_before = world.misses;
    world.advance(20);
    assert_eq!(world.serve(B), Some(AdmissionState::Allowed));
    assert_eq!(world.count(MetricEvent::SnapshotRepublish), 2);
    assert_eq!(world.serve(A), Some(AdmissionState::Allowed));
    assert_eq!(world.calls, 3);
    assert_eq!(world.misses, misses_before + 2);
}

#[test]
fn cached_activity_keeps_watch_denials_authoritative_past_ttl() {
    let mut world = World::new(policy(65_536, millis(50)));
    assert_eq!(world.serve(A), Some(AdmissionState::Allowed));
    for _ in 0..20 {
        world.advance(5);
        assert_eq!(world.serve(A), Some(AdmissionState::Allowed));
    }
    assert_eq!(world.calls, 1);
    world.change(A, Some(Decision::Denied));
    assert_eq!(world.serve(A), Some(AdmissionState::Denied));
    assert_eq!(world.calls, 1);
}

#[test]
fn max_count_evicts_the_least_recently_used_subject() {
    let mut world = World::new(policy(2, Duration::from_secs(3_600)));
    // Prime the immediate snapshot publish so the following subjects exercise the truth-map LRU.
    assert_eq!(world.serve(C), Some(AdmissionState::Allowed));
    assert_eq!(world.serve(A), Some(AdmissionState::Allowed));
    assert_eq!(world.serve(B), Some(AdmissionState::Allowed));
    assert_eq!(world.serve(A), Some(AdmissionState::Allowed));
    world.advance(10);
    assert_eq!(world.serve(C), Some(AdmissionState::Allowed));
    assert_eq!(world.calls, 4);
    assert_eq!(world.serve(A), Some(AdmissionState::Allowed));
    assert_eq!(world.calls, 4, "the recently used subject stays live");
    assert_eq!(world.serve(B), Some(AdmissionState::Allowed));
    assert_eq!(world.calls, 5, "the LRU subject is fetched again");
}

#[test]
fn an_evicted_handle_is_stale_for_good() {
    let mut world = World::new(policy(1, Duration::from_secs(3_600)));
    let first = world.allowed(A);
    world.allowed(B);
    assert_eq!(world.state(first), AdmissionState::Stale);
    world.change(A, Some(Decision::Allowed));
    assert_eq!(world.state(first), AdmissionState::Stale);
    let again = world.allowed(A);
    assert_ne!(again, first);
    assert_eq!(world.state(first), AdmissionState::Stale);
}

#[test]
fn an_idle_time_ends_only_after_it_has_passed() {
    let mut world = World::new(policy(8, millis(50)));
    let first = world.allowed(A);
    world.advance(50);
    world.allowed(B);
    assert_eq!(world.state(first), AdmissionState::Allowed);
    world.advance(1);
    world.allowed(C);
    assert_eq!(world.state(first), AdmissionState::Stale);
    let cached: Vec<u64> = world
        .gate
        .cached_subjects()
        .iter()
        .map(|slot| slot.0)
        .collect();
    assert_eq!(cached, vec![C, B]);
}

#[test]
fn subjects_stand_in_the_order_of_their_use() {
    let mut world = World::new(policy(8, Duration::from_secs(3_600)));
    for subject in [A, B, C] {
        world.allowed(subject);
        world.advance(1);
    }
    world.serve(A);
    let cached: Vec<u64> = world
        .gate
        .cached_subjects()
        .iter()
        .map(|slot| slot.0)
        .collect();
    assert_eq!(cached, vec![A, C, B]);
}

#[test]
fn new_subject_is_served_correctly_before_the_republish_interval() {
    let config = PolicyGateConfig::builder()
        .snapshot_republish_interval(millis(100))
        .build()
        .expect("valid config");
    let mut world = World::new(config);
    assert_eq!(world.serve(A), Some(AdmissionState::Allowed));
    assert_eq!(world.serve(B), Some(AdmissionState::Allowed));
    assert_eq!(world.misses, 2);
    assert_eq!(world.calls, 2);
    assert_eq!(world.count(MetricEvent::SnapshotRepublish), 1);
    world.advance(110);
    assert_eq!(world.serve(B), Some(AdmissionState::Allowed));
    assert_eq!(world.count(MetricEvent::SnapshotRepublish), 2);
    assert_eq!(world.serve(B), Some(AdmissionState::Allowed));
    assert_eq!(world.calls, 2);
}

#[test]
fn a_rebuild_from_before_a_disconnect_is_not_published() {
    let mut world = World::new(policy(8, Duration::from_secs(3_600)));
    world.allowed(A);
    world.advance(10);
    let AdmitStep::AwaitFetch { .. } = world.begin(B) else {
        panic!("the admission waits for its lookup");
    };
    assert_eq!(world.count(MetricEvent::SnapshotRepublish), 2);
    world.advance(10);
    world.change(A, None);
    assert_eq!(world.count(MetricEvent::SnapshotRepublish), 3);
    world.allowed(A);
    world.advance(10);
    let generation = world
        .gate
        .claim_republish(world.now)
        .expect("the map has changed");
    let rebuild = world.gate.collect_republish(generation);
    assert_eq!(rebuild.entries.len(), 2);
    world.close_watch();
    world.open_watch();
    world.gate.commit_republish(rebuild);
    assert!(world.try_cached(A).is_none());
    assert_eq!(world.count(MetricEvent::SnapshotRepublish), 3);
}

#[test]
fn a_cached_read_without_refresh_starts_none() {
    let config = PolicyGateConfig::builder()
        .decision_freshness_ttl(millis(100))
        .refresh_before_expiry(millis(40))
        .build()
        .expect("valid config");
    let mut world = World::new(config);
    let admission = world.allowed(A);
    world.advance(60);
    assert_eq!(
        world.gate.check_without_refresh(A, world.now),
        Some(admission)
    );
    assert_eq!(world.check(admission), (AdmissionState::Allowed, true));
    assert_eq!(world.gate.check_without_refresh(B, world.now), None);
    world.advance(40);
    assert_eq!(world.gate.check_without_refresh(A, world.now), None);
}
