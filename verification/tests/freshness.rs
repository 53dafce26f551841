//! Absolute freshness, refresh before expiry, validity caps and payloads.

use std::collections::{HashMap, VecDeque};
use std::sync::Arc;

use policy_gate::{
    settle_lookup, Access, Admission, AdmissionState, AdmitStep, ConnectionWait, Decision,
    DecisionChange, DecisionResult, DecisionSourceError, DecisionSourceErrorKind, Duration,
    FetchWait, GateState, Instant, LookupOutcome, MetricEvent, PolicyGateConfig, Reconnect,
    SleepWait, WatchItem, WatchOutcome, WatchSession, WatchStep,
};

const A: u64 = 1;
const B: u64 = 2;
#[allow(dead_code)]
const C: u64 = 3;

type Payload = &'static str;

/// Drives one gate against a scripted decision source and a clock that only moves when told.
struct World {
    gate: GateState<Payload>,
    now: Instant,
    session: Option<WatchSession>,
    reconnect: Reconnect,
    replies: HashMap<u64, VecDeque<LookupOutcome<Payload>>>,
    calls: usize,
    misses: usize,
    queue: VecDeque<(u64, u64, u64)>,
    queue_capacity: usize,
    events: Vec<MetricEvent>,
}

fn millis(value: u64) -> Duration {
    Duration::from_millis(value)
}

fn found(decision: Decision) -> LookupOutcome<Payload> {
    LookupOutcome::Found(DecisionResult::plain(decision))
}

fn failed(kind: DecisionSourceErrorKind) -> LookupOutcome<Payload> {
    LookupOutcome::Failed(DecisionSourceError::new(kind, "scripted failure"))
}

#[allow(dead_code)]
impl World {
    fn disconnected(config: PolicyGateConfig) -> World {
        let now = Instant::from_nanos(1_000_000_000);
        let gate = GateState::new(&config, now, Instant::last());
        let reconnect = Reconnect::new(&gate);
        World {
            gate,
            now,
            session: None,
            reconnect,
            replies: HashMap::new(),
            calls: 0,
            misses: 0,
            queue: VecDeque::new(),
            queue_capacity: config.refresh_queue_capacity(),
            events: Vec::new(),
        }
    }

    fn new(config: PolicyGateConfig) -> World {
        let mut world = World::disconnected(config);
        world.open_watch();
        world
    }

    fn open_watch(&mut self) {
        self.session = Some(WatchSession::open(&mut self.gate));
    }

    /// Closes the watch as the end of its stream does. Returns the delay before jitter.
    fn close_watch(&mut self) -> Duration {
        let stable = self.session.take().expect("an open watch").stable;
        self.reconnect
            .watch_ended(&mut self.gate, WatchOutcome::Closed { stable }, self.now)
    }

    fn item(&mut self, item: WatchItem) -> WatchStep {
        let mut session = self.session.take().expect("an open watch");
        let step = session.item_received(&mut self.gate, item, self.now);
        self.session = Some(session);
        step
    }

    fn change(&mut self, subject: u64, decision: Option<Decision>) -> WatchStep {
        self.item(Some(Ok(DecisionChange { subject, decision })))
    }

    fn advance(&mut self, by: u64) {
        self.now = Instant::from_nanos(self.now.nanos + u128::from(by) * 1_000_000);
    }

    fn reply(&mut self, subject: u64, outcome: LookupOutcome<Payload>) {
        self.replies.entry(subject).or_default().push_back(outcome);
    }

    /// Calls the source. Without a script it allows.
    fn call_source(&mut self, subject: u64) -> LookupOutcome<Payload> {
        self.calls += 1;
        self.gate.begin_lookup();
        self.replies
            .entry(subject)
            .or_default()
            .pop_front()
            .unwrap_or_else(|| found(Decision::Allowed))
    }

    fn finish_lookup(
        &mut self,
        subject: u64,
        entry: u64,
        generation: u64,
        outcome: LookupOutcome<Payload>,
    ) -> Result<(), DecisionSourceError> {
        let result = settle_lookup(outcome, self.now);
        self.gate
            .complete_fetch(subject, entry, generation, result, self.now)
    }

    /// First step of an admission that does not find the watch down.
    fn begin(&mut self, subject: u64) -> AdmitStep {
        let step = self.gate.begin_admission(subject, self.now);
        self.after_connection(step)
    }

    fn after_connection(&mut self, step: AdmitStep) -> AdmitStep {
        match step {
            AdmitStep::AwaitConnection(call) => {
                self.gate
                    .admit_after_connection(call, ConnectionWait::Connected, self.now)
            }
            other => other,
        }
    }

    /// Runs an admission to its end; waits move the clock.
    fn run(&mut self, mut step: AdmitStep) -> Option<Admission> {
        loop {
            step = match step {
                AdmitStep::Done(admission) => return admission,
                AdmitStep::AwaitConnection(call) => {
                    let wait = if self.gate.is_connected() && self.now.nanos < call.deadline.nanos {
                        ConnectionWait::Connected
                    } else {
                        self.now = call.deadline;
                        ConnectionWait::TimedOut
                    };
                    self.gate.admit_after_connection(call, wait, self.now)
                }
                AdmitStep::AwaitFetch {
                    call,
                    entry,
                    generation,
                } => {
                    let pending = self.gate.pending_operation(entry).expect("a lookup");
                    assert_eq!(pending.generation, generation);
                    if let Some(delay) = pending.delay {
                        self.now = Instant::from_nanos(self.now.nanos + delay.nanos);
                    }
                    let outcome = self.call_source(call.subject);
                    let result = self.finish_lookup(call.subject, entry, generation, outcome);
                    self.gate
                        .admit_after_fetch(call, entry, FetchWait::Ended(result), self.now)
                }
                AdmitStep::AwaitQueue {
                    call,
                    entry,
                    generation,
                    late,
                    ..
                } => {
                    let queued = self.enqueue(call.subject, entry, generation);
                    self.gate
                        .admit_after_queue(call, entry, generation, late, queued, self.now)
                }
                AdmitStep::Sleep { call, delay } => {
                    let end = self.now.nanos + delay.nanos;
                    if end >= call.deadline.nanos {
                        self.now = call.deadline;
                        self.gate.admit_after_sleep(call, SleepWait::TimedOut)
                    } else {
                        self.now = Instant::from_nanos(end);
                        self.gate.admit_after_sleep(call, SleepWait::Slept)
                    }
                }
            };
        }
    }

    /// Admits through the subject map.
    fn join(&mut self, subject: u64) -> Option<Admission> {
        let step = self.gate.begin_admission(subject, self.now);
        self.run(step)
    }

    fn allowed(&mut self, subject: u64) -> Admission {
        let admission = self.join(subject).expect("admission succeeds");
        assert!(self.is_allowed(admission), "subject must be allowed");
        admission
    }

    fn enqueue(&mut self, subject: u64, entry: u64, generation: u64) -> bool {
        if self.queue.len() < self.queue_capacity {
            self.queue.push_back((subject, entry, generation));
            true
        } else {
            false
        }
    }

    fn access(&mut self, subject: u64, access: Access) -> Option<Admission> {
        match access {
            Access::Unavailable => None,
            Access::Ready(admission) => Some(admission),
            Access::Enqueue {
                admission,
                generation,
                ..
            } => {
                let queued = self.enqueue(subject, admission.entry, generation);
                self.gate
                    .finish_access(admission.entry, generation, queued, self.now)
            }
        }
    }

    fn try_cached(&mut self, subject: u64) -> Option<Admission> {
        let access = self.gate.check(subject, self.now);
        self.access(subject, access)
    }

    fn refresh(&mut self, subject: u64, admission: Admission) {
        let access = self.gate.refresh_entry(subject, admission, self.now);
        self.access(subject, access);
    }

    /// Serves a request: from the snapshot, else through the map.
    fn serve(&mut self, subject: u64) -> Option<AdmissionState> {
        let admission = match self.try_cached(subject) {
            Some(admission) => Some(admission),
            None => {
                self.misses += 1;
                self.join(subject)
            }
        };
        admission.map(|admission| self.state(admission))
    }

    /// Runs the refreshes that wait for the watcher.
    fn run_queue(&mut self) {
        while let Some((subject, entry, generation)) = self.queue.pop_front() {
            let outcome = self.call_source(subject);
            let _ = self.finish_lookup(subject, entry, generation, outcome);
        }
    }

    fn state(&mut self, admission: Admission) -> AdmissionState {
        assert!(self.gate.is_admitted(admission.entry));
        admission.state(&mut self.gate, self.now)
    }

    fn check(&mut self, admission: Admission) -> (AdmissionState, bool) {
        admission.check(&mut self.gate, self.now)
    }

    fn is_allowed(&mut self, admission: Admission) -> bool {
        admission.is_allowed(&mut self.gate, self.now)
    }

    fn payload(&mut self, admission: Admission) -> Option<Payload> {
        admission
            .payload(&mut self.gate, self.now)
            .map(|payload| *payload)
    }

    fn count(&mut self, event: MetricEvent) -> usize {
        self.events.extend(self.gate.take_events());
        self.events.iter().filter(|seen| **seen == event).count()
    }
}

fn freshness_config() -> PolicyGateConfig {
    PolicyGateConfig::builder()
        .decision_freshness_ttl(millis(100))
        .build()
        .expect("valid config")
}

fn refresh_config() -> PolicyGateConfig {
    PolicyGateConfig::builder()
        .decision_freshness_ttl(millis(100))
        .refresh_before_expiry(millis(40))
        .permanent_failure_cooldown(millis(20))
        .build()
        .expect("valid config")
}

fn default_config() -> PolicyGateConfig {
    PolicyGateConfig::builder().build().expect("valid config")
}

#[test]
fn freshness_is_disabled_by_default() {
    let mut world = World::new(default_config());
    let admission = world.allowed(A);
    world.advance(60_000);
    assert_eq!(world.calls, 1);
    assert_eq!(world.state(admission), AdmissionState::Allowed);
}

#[test]
fn ordinary_access_does_not_extend_the_absolute_deadline() {
    let mut world = World::new(freshness_config());
    let admission = world.allowed(A);
    world.advance(70);
    assert!(world.try_cached(A).is_some(), "decision remains fresh");
    world.advance(29);
    assert!(world.try_cached(A).is_some());
    world.advance(1);
    assert!(!world.is_allowed(admission));
    assert_eq!(world.state(admission), AdmissionState::Stale);
    assert!(world.try_cached(A).is_none());
    world.allowed(A);
    assert_eq!(world.calls, 2);
}

#[test]
fn denied_decision_expires_and_is_refetched() {
    let mut world = World::new(freshness_config());
    world.reply(A, found(Decision::Denied));
    let admission = world.join(A).expect("denial");
    assert_eq!(world.state(admission), AdmissionState::Denied);
    world.advance(100);
    assert!(world.try_cached(A).is_none());
    world.allowed(A);
    assert_eq!(world.calls, 2);
}

#[test]
fn watch_change_starts_a_new_absolute_window() {
    let mut world = World::new(freshness_config());
    let admission = world.allowed(A);
    world.advance(70);
    world.change(A, Some(Decision::Allowed));
    world.advance(99);
    assert_eq!(world.state(admission), AdmissionState::Allowed);
    world.advance(1);
    assert_eq!(world.state(admission), AdmissionState::Stale);
    assert_eq!(world.calls, 1);
}

#[test]
fn subject_ttl_remains_sliding_and_can_expire_first() {
    let config = PolicyGateConfig::builder()
        .decision_freshness_ttl(millis(100))
        .subject_ttl(millis(50))
        .build()
        .expect("valid config");
    let mut world = World::new(config);
    let first = world.allowed(A);
    world.advance(40);
    assert!(world.try_cached(A).is_some(), "access renews idle age");
    world.advance(40);
    world.allowed(B);
    assert_eq!(world.state(first), AdmissionState::Allowed);
    world.advance(11);
    assert!(world.try_cached(B).is_some(), "second subject is cached");
    assert_eq!(world.state(first), AdmissionState::Stale);
    assert_eq!(world.calls, 2);
}

#[test]
fn watch_can_renew_an_expired_entry() {
    let mut world = World::new(freshness_config());
    let admission = world.allowed(A);
    world.advance(100);
    assert_eq!(world.state(admission), AdmissionState::Stale);
    assert!(!world.is_allowed(admission));
    world.change(A, Some(Decision::Allowed));
    assert_eq!(world.state(admission), AdmissionState::Allowed);
    assert!(world.is_allowed(admission));
    world.change(A, Some(Decision::Denied));
    assert_eq!(world.state(admission), AdmissionState::Denied);
    assert!(!world.is_allowed(admission));
    assert_eq!(world.calls, 1);
}

#[test]
fn unrepresentable_deadline_fails_closed() {
    let config = PolicyGateConfig::builder()
        .unary_timeout(Duration::from_secs(1))
        .admission_timeout(Duration::from_secs(3))
        .decision_freshness_ttl(Duration::from_nanos((1_u128 << 62) - 1))
        .build()
        .expect("valid config");
    let mut world = World::new(config);
    let AdmitStep::AwaitFetch {
        call,
        entry,
        generation,
    } = world.begin(A)
    else {
        panic!("the admission waits for its lookup");
    };
    world.advance(1);
    let outcome = world.call_source(A);
    let error = world
        .finish_lookup(A, entry, generation, outcome)
        .expect_err("the deadline has no tick");
    assert_eq!(error.kind(), DecisionSourceErrorKind::Transient);
    assert_eq!(error.message(), "decision expired before publication");
    let step = world
        .gate
        .admit_after_fetch(call, entry, FetchWait::Ended(Err(error)), world.now);
    // An unusable decision takes the admission backoff before the next lookup.
    let AdmitStep::Sleep { call, delay } = step else {
        panic!("the admission backs off");
    };
    assert_eq!(delay, millis(100));
    assert_eq!(world.count(MetricEvent::AdmissionRetry), 1);
    assert_eq!(world.count(MetricEvent::UnaryFailure), 1);
    world.advance(100);
    let step = world.gate.admit_after_sleep(call, SleepWait::Slept);
    let AdmitStep::AwaitFetch { call, entry, .. } = world.after_connection(step) else {
        panic!("the admission looks up again");
    };
    // The second lookup never ends, and the admission fails at its timeout.
    let _ = world.call_source(A);
    assert_eq!(world.calls, 2);
    world.advance(3_000);
    let step = world
        .gate
        .admit_after_fetch(call, entry, FetchWait::TimedOut, world.now);
    assert!(matches!(step, AdmitStep::Done(None)));
    assert_eq!(world.count(MetricEvent::AdmissionTimeout), 1);
}

#[test]
fn check_reports_refresh_due_only_inside_the_window() {
    for (config, decision) in [
        (refresh_config(), Decision::Allowed),
        (refresh_config(), Decision::Denied),
        (freshness_config(), Decision::Allowed),
        (default_config(), Decision::Allowed),
    ] {
        let mut world = World::new(config);
        world.reply(A, found(decision));
        let admission = world.join(A).expect("admission");
        let state = match decision {
            Decision::Allowed => AdmissionState::Allowed,
            Decision::Denied => AdmissionState::Denied,
        };
        assert_eq!(world.check(admission), (state, false));
        for (advance, in_window) in [(59, false), (1, true), (39, true)] {
            world.advance(advance);
            assert_eq!(
                world.check(admission),
                (state, in_window && !config.refresh_before_expiry().is_zero())
            );
        }
        world.advance(1);
        let expired = config.decision_freshness_ttl() != Duration::longest();
        let last = if expired { AdmissionState::Stale } else { state };
        assert_eq!(world.check(admission), (last, false));
        assert_eq!(world.calls, 1, "checking never starts a lookup");
    }
}

#[test]
fn refresh_renews_the_retained_handle_in_place() {
    let mut world = World::new(refresh_config());
    let admission = world.allowed(A);
    world.advance(60);
    world.refresh(A, admission);
    world.run_queue();
    assert_eq!(world.check(admission), (AdmissionState::Allowed, false));
    world.advance(99);
    assert!(world.is_allowed(admission));
    world.advance(1);
    assert_eq!(world.check(admission), (AdmissionState::Stale, false));
    assert_eq!(world.calls, 2);
}

#[test]
fn refresh_is_single_flight_across_handles_and_tasks() {
    let mut world = World::new(refresh_config());
    let admission = world.allowed(A);
    let second = admission;
    world.advance(60);
    world.refresh(A, admission);
    world.refresh(A, second);
    assert_eq!(world.queue.len(), 1);
    assert_eq!(world.check(admission), (AdmissionState::Allowed, false));
    assert_eq!(world.check(second), (AdmissionState::Allowed, false));
    assert!(world.try_cached(A).is_some());
    assert!(world.join(A).is_some());
    assert_eq!(world.queue.len(), 1);
    world.run_queue();
    world.advance(99);
    assert!(world.is_allowed(second));
    world.advance(1);
    assert_eq!(world.state(admission), AdmissionState::Stale);
    assert_eq!(world.calls, 2);
}

#[test]
fn failed_refresh_waits_for_the_cooldown() {
    for kind in [
        DecisionSourceErrorKind::Transient,
        DecisionSourceErrorKind::Permanent,
        DecisionSourceErrorKind::Wire,
    ] {
        let mut world = World::new(refresh_config());
        let admission = world.allowed(A);
        world.reply(A, failed(kind));
        world.advance(60);
        world.refresh(A, admission);
        world.run_queue();
        for advance in [0, 19] {
            world.advance(advance);
            assert_eq!(world.check(admission), (AdmissionState::Allowed, false));
            assert!(world.try_cached(A).is_some());
            assert!(world.join(A).is_some());
            world.refresh(A, admission);
            assert!(world.queue.is_empty());
            assert_eq!(world.calls, 2);
        }
        world.advance(1);
        assert_eq!(world.check(admission), (AdmissionState::Allowed, true));
        world.refresh(A, admission);
        world.run_queue();
        assert_eq!(world.check(admission), (AdmissionState::Allowed, false));
        world.advance(99);
        assert!(world.is_allowed(admission));
        world.advance(1);
        assert_eq!(world.state(admission), AdmissionState::Stale);
        assert_eq!(world.calls, 3);
    }
}

#[test]
fn zero_cooldown_retries_on_the_next_read() {
    let config = PolicyGateConfig::builder()
        .decision_freshness_ttl(millis(100))
        .refresh_before_expiry(millis(40))
        .permanent_failure_cooldown(Duration::zero())
        .build()
        .expect("valid config");
    let mut world = World::new(config);
    let admission = world.allowed(A);
    world.reply(A, LookupOutcome::Absent);
    world.advance(60);
    world.refresh(A, admission);
    world.run_queue();
    assert_eq!(world.check(admission), (AdmissionState::Allowed, true));
    assert!(world.try_cached(A).is_some());
    world.run_queue();
    assert_eq!(world.check(admission), (AdmissionState::Allowed, false));
    assert_eq!(world.calls, 3);
}

#[test]
fn refresh_with_a_mismatched_subject_is_a_no_op() {
    let mut world = World::new(refresh_config());
    let admission = world.allowed(A);
    world.advance(60);
    world.refresh(B, admission);
    assert!(world.try_cached(B).is_none());
    assert!(world.queue.is_empty());
    assert_eq!(world.calls, 1);
    assert_eq!(world.check(admission), (AdmissionState::Allowed, true));
    // A wrong subject that is itself cached must also fail the identity check.
    world.allowed(B);
    world.refresh(B, admission);
    assert!(world.queue.is_empty());
    assert_eq!(world.calls, 2);
    assert_eq!(world.check(admission), (AdmissionState::Allowed, true));
}

#[test]
fn refresh_of_a_replaced_entry_is_a_no_op() {
    let mut world = World::new(refresh_config());
    let old = world.allowed(A);
    world.advance(100);
    let new = world.allowed(A);
    assert_ne!(old, new);
    world.advance(60);
    world.refresh(A, old);
    assert!(world.queue.is_empty());
    assert_eq!(world.calls, 2);
    assert_eq!(world.check(old), (AdmissionState::Stale, false));
    assert_eq!(world.check(new), (AdmissionState::Allowed, true));
}

#[test]
fn refresh_renews_the_idle_ttl() {
    for touch in [false, true] {
        let config = PolicyGateConfig::builder()
            .decision_freshness_ttl(millis(100))
            .refresh_before_expiry(millis(40))
            .subject_ttl(millis(50))
            .build()
            .expect("valid config");
        let mut world = World::new(config);
        let admission = world.allowed(A);
        world.advance(40);
        if touch {
            world.refresh(A, admission);
        }
        assert!(world.queue.is_empty(), "outside the refresh window");
        world.advance(40);
        world.allowed(B);
        let expected = if touch {
            AdmissionState::Allowed
        } else {
            AdmissionState::Stale
        };
        assert_eq!(world.state(admission), expected);
        assert_eq!(world.calls, 2);
    }
}

#[test]
fn no_events_no_refresh() {
    let mut world = World::new(refresh_config());
    let admission = world.allowed(A);
    world.advance(100);
    assert_eq!(world.check(admission), (AdmissionState::Stale, false));
    world.refresh(A, admission);
    assert_eq!(world.state(admission), AdmissionState::Stale);
    assert!(world.queue.is_empty());
    assert_eq!(world.calls, 1);
}

#[test]
fn refresh_uses_the_retained_entry_when_the_snapshot_lags() {
    let config = PolicyGateConfig::builder()
        .decision_freshness_ttl(millis(100))
        .refresh_before_expiry(millis(40))
        .snapshot_republish_interval(Duration::from_secs(1))
        .build()
        .expect("valid config");
    let mut world = World::new(config);
    world.allowed(A);
    let admission = world.allowed(B);
    world.advance(60);
    assert!(world.try_cached(B).is_none());
    world.refresh(B, admission);
    world.run_queue();
    assert_eq!(world.check(admission), (AdmissionState::Allowed, false));
    assert_eq!(world.calls, 3);
}

#[test]
fn refresh_cannot_revive_an_expired_decision_or_overwrite_a_watch_change() {
    for watch_change in [false, true] {
        let mut world = World::new(refresh_config());
        let admission = world.allowed(A);
        world.advance(60);
        world.refresh(A, admission);
        let (subject, entry, generation) = world.queue.pop_front().expect("a refresh");
        let outcome = world.call_source(subject);
        let expected = if watch_change {
            world.change(A, Some(Decision::Denied));
            AdmissionState::Denied
        } else {
            world.advance(40);
            AdmissionState::Stale
        };
        assert_eq!(world.check(admission), (expected, false));
        let _ = world.finish_lookup(subject, entry, generation, outcome);
        assert_eq!(world.check(admission), (expected, false));
        assert_eq!(world.calls, 2);
    }
}

#[test]
fn a_refresh_that_ends_after_expiry_revives_nothing_unseen_either() {
    let mut world = World::new(refresh_config());
    let admission = world.allowed(A);
    world.advance(60);
    world.refresh(A, admission);
    world.advance(40);
    world.run_queue();
    assert_eq!(world.check(admission), (AdmissionState::Stale, false));
}

#[test]
fn cancelled_or_timed_out_enqueue_releases_the_claim_without_cooldown() {
    for timeout in [false, true] {
        let config = PolicyGateConfig::builder()
            .decision_freshness_ttl(millis(100))
            .refresh_before_expiry(millis(40))
            .refresh_queue_capacity(1)
            .refresh_enqueue_timeout(millis(10))
            .build()
            .expect("valid config");
        let mut world = World::new(config);
        let first = world.allowed(A);
        let second = world.allowed(B);
        world.advance(60);
        world.refresh(A, first);
        assert_eq!(world.queue.len(), 1);
        let Access::Enqueue {
            admission,
            generation,
            deadline,
        } = world.gate.refresh_entry(B, second, world.now)
        else {
            panic!("the second refresh waits for the queue");
        };
        assert_eq!(deadline.nanos - world.now.nanos, 10_000_000);
        assert_eq!(world.check(second), (AdmissionState::Allowed, false));
        if timeout {
            world.advance(10);
            let access =
                world
                    .gate
                    .finish_access(admission.entry, generation, false, world.now);
            assert_eq!(access, Some(second));
        } else {
            world.gate.release_claim(admission.entry, generation);
        }
        assert_eq!(world.check(second), (AdmissionState::Allowed, true));
        assert_eq!(world.calls, 2, "enqueue never calls the authority");
        world.run_queue();
        world.refresh(B, second);
        world.run_queue();
        assert_eq!(world.calls, 4);
        assert_eq!(world.check(second), (AdmissionState::Allowed, false));
    }
}

#[test]
fn delayed_refresh_claimant_observes_a_completed_generations_cooldown() {
    let mut world = World::new(refresh_config());
    let admission = world.allowed(A);
    world.advance(60);
    assert_eq!(world.check(admission), (AdmissionState::Allowed, true));
    // One contender has seen the refresh due; another one completes a generation first.
    world.reply(A, failed(DecisionSourceErrorKind::Transient));
    world.refresh(A, admission);
    world.run_queue();
    world.refresh(A, admission);
    world.run_queue();
    assert_eq!(world.calls, 2, "delayed claim must respect cooldown");
    assert_eq!(world.check(admission), (AdmissionState::Allowed, false));
    world.advance(20);
    assert_eq!(world.check(admission), (AdmissionState::Allowed, true));
}

#[test]
fn an_admission_waits_for_the_queue_no_longer_than_it_lives() {
    let config = PolicyGateConfig::builder()
        .unary_timeout(millis(5))
        .admission_timeout(millis(50))
        .decision_freshness_ttl(millis(100))
        .refresh_before_expiry(millis(40))
        .build()
        .expect("valid config");
    let mut world = World::new(config);
    world.allowed(A);
    world.advance(60);
    let AdmitStep::AwaitQueue { call, deadline, .. } = world.begin(A) else {
        panic!("the admission hands its refresh over");
    };
    assert_eq!(deadline, call.deadline);
    assert_eq!(world.count(MetricEvent::MapHit), 1);
}

fn allowed(value: Payload) -> LookupOutcome<Payload> {
    LookupOutcome::Found(DecisionResult {
        decision: Decision::Allowed,
        payload: Some(Arc::new(value)),
        valid_until: None,
    })
}

fn capped(decision: Decision, value: Payload, deadline: Instant) -> LookupOutcome<Payload> {
    LookupOutcome::Found(DecisionResult {
        decision,
        payload: Some(Arc::new(value)),
        valid_until: Some(deadline),
    })
}

fn later(now: Instant, by: u64) -> Instant {
    now.checked_add(millis(by), Instant::last()).expect("representable")
}

#[test]
fn watch_and_invalidation_clear_the_published_payload() {
    let mut world = World::new(default_config());
    world.reply(A, allowed("cached"));
    let admission = world.allowed(A);
    assert_eq!(world.payload(admission), Some("cached"));
    world.change(A, Some(Decision::Allowed));
    assert!(world.is_allowed(admission));
    assert_eq!(world.payload(admission), None);
    admission.invalidate(&mut world.gate);
    assert_eq!(world.state(admission), AdmissionState::Stale);
    assert_eq!(world.payload(admission), None);
    // An invalidated entry that kept its slot is renewed by the watch.
    world.change(A, Some(Decision::Denied));
    assert_eq!(world.state(admission), AdmissionState::Denied);
}

#[test]
fn expiry_latch_fences_late_refresh_payload() {
    let mut world = World::new(refresh_config());
    world.reply(A, allowed("old"));
    let admission = world.allowed(A);
    assert_eq!(world.payload(admission), Some("old"));
    world.advance(60);
    world.refresh(A, admission);
    let (subject, entry, generation) = world.queue.pop_front().expect("a refresh");
    let before_expiry = world.now;
    let result = settle_lookup(allowed("late"), before_expiry);
    world.advance(40);
    assert_eq!(world.payload(admission), None);
    // The refresh looked at its clock before the decision expired.
    let _ = world
        .gate
        .complete_fetch(subject, entry, generation, result, before_expiry);
    assert_eq!(world.state(admission), AdmissionState::Stale);
    assert_eq!(world.payload(admission), None);
}

#[test]
fn validity_caps_freshness_and_reusing_a_result_keeps_its_anchor() {
    let config = PolicyGateConfig::builder()
        .decision_freshness_ttl(millis(100))
        .refresh_before_expiry(millis(40))
        .build()
        .expect("valid config");
    let mut world = World::new(config);
    let anchor = later(world.now, 30);
    world.reply(A, capped(Decision::Allowed, "short", anchor));
    let short = world.allowed(A);
    assert_eq!(world.check(short), (AdmissionState::Allowed, false));
    // A later source deadline must never extend the configured 100 ms TTL.
    let far = later(world.now, 1_000);
    world.reply(B, capped(Decision::Allowed, "long", far));
    let long = world.allowed(B);
    world.advance(15);
    assert_eq!(world.check(short), (AdmissionState::Allowed, true));
    world.reply(A, capped(Decision::Allowed, "reused", anchor));
    world.refresh(A, short);
    world.run_queue();
    assert_eq!(world.payload(short), Some("reused"));
    assert_eq!(world.check(short), (AdmissionState::Allowed, false));
    world.advance(15);
    assert_eq!(world.state(short), AdmissionState::Stale);
    assert_eq!(world.payload(short), None);
    world.advance(70);
    assert_eq!(world.state(long), AdmissionState::Stale);
    assert_eq!(world.payload(long), None);
}

#[test]
fn a_cap_applies_without_configured_freshness() {
    let mut world = World::new(default_config());
    let end = later(world.now, 30);
    world.reply(A, capped(Decision::Allowed, "short", end));
    let admission = world.allowed(A);
    world.advance(29);
    assert_eq!(world.payload(admission), Some("short"));
    world.advance(1);
    assert_eq!(world.state(admission), AdmissionState::Stale);
}

#[test]
fn expired_cold_results_back_off_before_retrying() {
    let config = PolicyGateConfig::builder()
        .initial_admission_retry_delay(millis(10))
        .max_admission_retry_delay(millis(20))
        .build()
        .expect("valid config");
    let mut world = World::new(config);
    let started = world.now;
    for _ in 0..2 {
        world.reply(A, capped(Decision::Allowed, "expired", started));
    }
    world.reply(A, allowed("fresh"));
    let admission = world.allowed(A);
    assert_eq!(world.payload(admission), Some("fresh"));
    assert_eq!(world.calls, 3);
    assert_eq!(world.now.nanos - started.nanos, 30_000_000);
}

#[test]
fn expired_refresh_retains_snapshot_and_short_success_waits_half_its_lifetime() {
    let config = PolicyGateConfig::builder()
        .decision_freshness_ttl(millis(100))
        .refresh_before_expiry(millis(40))
        .permanent_failure_cooldown(millis(10))
        .build()
        .expect("valid config");
    let mut world = World::new(config);
    world.reply(A, allowed("old"));
    let admission = world.allowed(A);
    world.advance(60);
    // A denial that expires while the lookup is pending cannot replace the old allow and payload.
    let deadline = later(world.now, 5);
    world.refresh(A, admission);
    world.advance(5);
    world.reply(A, capped(Decision::Denied, "expired", deadline));
    world.run_queue();
    assert_eq!(world.payload(admission), Some("old"));
    assert_eq!(world.check(admission), (AdmissionState::Allowed, false));
    world.advance(9);
    world.refresh(A, admission);
    assert!(world.queue.is_empty());
    assert_eq!(world.calls, 2);
    world.advance(1);
    assert_eq!(world.check(admission), (AdmissionState::Allowed, true));
    let end = later(world.now, 20);
    world.reply(A, capped(Decision::Allowed, "short", end));
    world.refresh(A, admission);
    world.run_queue();
    assert_eq!(world.payload(admission), Some("short"));
    for _ in 0..4 {
        assert_eq!(world.check(admission), (AdmissionState::Allowed, false));
        world.refresh(A, admission);
        assert!(world.try_cached(A).is_some());
        assert!(world.queue.is_empty());
    }
    assert_eq!(world.calls, 3);
    world.advance(9);
    assert_eq!(world.check(admission), (AdmissionState::Allowed, false));
    world.advance(1);
    assert_eq!(world.check(admission), (AdmissionState::Allowed, true));
    world.advance(10);
    assert_eq!(world.check(admission), (AdmissionState::Stale, false));
    assert_eq!(world.payload(admission), None);
}

#[test]
fn a_denied_result_keeps_no_payload() {
    let mut world = World::new(default_config());
    let end = later(world.now, 1_000);
    world.reply(A, capped(Decision::Denied, "secret", end));
    let admission = world.join(A).expect("denial");
    assert_eq!(world.state(admission), AdmissionState::Denied);
    assert_eq!(world.payload(admission), None);
}
