//! Admission of subjects, driven step by step.

use std::collections::{HashMap, HashSet, VecDeque};

use policy_gate::{
    lookup_events, settle_lookup, sweep_due, Access, Admission, AdmissionState, AdmitStep, ConnectionWait, Decision,
    DecisionChange, DecisionResult, DecisionSourceError, DecisionSourceErrorKind, Duration,
    FetchWait, GateState, Instant, LookupOutcome, MetricEvent, PolicyGateConfig, Reconnect,
    SleepWait, Sweeper, WatchItem, WatchOutcome, WatchSession, WatchStep, SWEEP_INTERVAL,
};

const A: u64 = 1;
const B: u64 = 2;
#[allow(dead_code)]
const C: u64 = 3;

type Payload = &'static str;

/// Drives one gate against a scripted decision source and a clock that only moves when told.
struct World {
    gate: GateState<Payload>,
    now: Instant,
    session: Option<WatchSession>,
    reconnect: Reconnect,
    replies: HashMap<u64, VecDeque<LookupOutcome<Payload>>>,
    calls: usize,
    misses: usize,
    queue: VecDeque<(u64, u64, u64)>,
    queue_capacity: usize,
    events: Vec<MetricEvent>,
}

fn millis(value: u64) -> Duration {
    Duration::from_millis(value)
}

fn found(decision: Decision) -> LookupOutcome<Payload> {
    LookupOutcome::Found(DecisionResult::plain(decision))
}

fn failed(kind: DecisionSourceErrorKind) -> LookupOutcome<Payload> {
    LookupOutcome::Failed(DecisionSourceError::new(kind, "scripted failure"))
}

#[allow(dead_code)]
impl World {
    fn disconnected(config: PolicyGateConfig) -> World {
        let now = Instant::from_nanos(1_000_000_000);
        let gate = GateState::new(&config, now, Instant::last());
        let reconnect = Reconnect::new(&gate);
        World {
            gate,
            now,
            session: None,
            reconnect,
            replies: HashMap::new(),
            calls: 0,
            misses: 0,
            queue: VecDeque::new(),
            queue_capacity: config.refresh_queue_capacity(),
            events: Vec::new(),
        }
    }

    fn new(config: PolicyGateConfig) -> World {
        let mut world = World::disconnected(config);
        world.open_watch();
        world
    }

    fn open_watch(&mut self) {
        self.session = Some(WatchSession::open(&mut self.gate));
    }

    /// Closes the watch as the end of its stream does. Returns the delay before jitter.
    fn close_watch(&mut self) -> Duration {
        let stable = self.session.take().expect("an open watch").stable;
        self.reconnect
            .watch_ended(&mut self.gate, WatchOutcome::Closed { stable }, self.now)
    }

    fn item(&mut self, item: WatchItem) -> WatchStep {
        let mut session = self.session.take().expect("an open watch");
        let step = session.item_received(&mut self.gate, item, self.now);
        self.session = Some(session);
        step
    }

    fn change(&mut self, subject: u64, decision: Option<Decision>) -> WatchStep {
        self.item(Some(Ok(DecisionChange { subject, decision })))
    }

    fn advance(&mut self, by: u64) {
        self.now = Instant::from_nanos(self.now.nanos + u128::from(by) * 1_000_000);
    }

    fn reply(&mut self, subject: u64, outcome: LookupOutcome<Payload>) {
        self.replies.entry(subject).or_default().push_back(outcome);
    }

    /// Calls the source. Without a script it allows.
    fn call_source(&mut self, subject: u64) -> LookupOutcome<Payload> {
        self.calls += 1;
        self.gate.begin_lookup();
        self.replies
            .entry(subject)
            .or_default()
            .pop_front()
            .unwrap_or_else(|| found(Decision::Allowed))
    }

    fn finish_lookup(
        &mut self,
        subject: u64,
        entry: u64,
        generation: u64,
        outcome: LookupOutcome<Payload>,
    ) -> Result<(), DecisionSourceError> {
        let result = settle_lookup(outcome, self.now);
        self.gate
            .complete_fetch(subject, entry, generation, result, self.now)
    }

    /// First step of an admission that does not find the watch down.
    fn begin(&mut self, subject: u64) -> AdmitStep {
        let step = self.gate.begin_admission(subject, self.now);
        self.after_connection(step)
    }

    fn after_connection(&mut self, step: AdmitStep) -> AdmitStep {
        match step {
            AdmitStep::AwaitConnection(call) => {
                self.gate
                    .admit_after_connection(call, ConnectionWait::Connected, self.now)
            }
            other => other,
        }
    }

    /// Runs an admission to its end; waits move the clock.
    fn run(&mut self, mut step: AdmitStep) -> Option<Admission> {
        loop {
            step = match step {
                AdmitStep::Done(admission) => return admission,
                AdmitStep::AwaitConnection(call) => {
                    let wait = if self.gate.is_connected() && self.now.nanos < call.deadline.nanos {
                        ConnectionWait::Connected
                    } else {
                        self.now = call.deadline;
                        ConnectionWait::TimedOut
                    };
                    self.gate.admit_after_connection(call, wait, self.now)
                }
                AdmitStep::AwaitFetch {
                    call,
                    entry,
                    generation,
                } => {
                    let pending = self.gate.pending_operation(entry).expect("a lookup");
                    assert_eq!(pending.generation, generation);
                    if let Some(delay) = pending.delay {
                        self.now = Instant::from_nanos(self.now.nanos + delay.nanos);
                    }
                    let outcome = self.call_source(call.subject);
                    let result = self.finish_lookup(call.subject, entry, generation, outcome);
                    self.gate
                        .admit_after_fetch(call, entry, FetchWait::Ended(result), self.now)
                }
                AdmitStep::AwaitQueue {
                    call,
                    entry,
                    generation,
                    late,
                    ..
                } => {
                    let queued = self.enqueue(call.subject, entry, generation);
                    self.gate
                        .admit_after_queue(call, entry, generation, late, queued, self.now)
                }
                AdmitStep::Sleep { call, delay } => {
                    let end = self.now.nanos + delay.nanos;
                    if end >= call.deadline.nanos {
                        self.now = call.deadline;
                        self.gate.admit_after_sleep(call, SleepWait::TimedOut)
                    } else {
                        self.now = Instant::from_nanos(end);
                        self.gate.admit_after_sleep(call, SleepWait::Slept)
                    }
                }
            };
        }
    }

    /// Admits through the subject map.
    fn join(&mut self, subject: u64) -> Option<Admission> {
        let step = self.gate.begin_admission(subject, self.now);
        self.run(step)
    }

    fn allowed(&mut self, subject: u64) -> Admission {
        let admission = self.join(subject).expect("admission succeeds");
        assert!(self.is_allowed(admission), "subject must be allowed");
        admission
    }

    fn enqueue(&mut self, subject: u64, entry: u64, generation: u64) -> bool {
        if self.queue.len() < self.queue_capacity {
            self.queue.push_back((subject, entry, generation));
            true
        } else {
            false
        }
    }

    fn access(&mut self, subject: u64, access: Access) -> Option<Admission> {
        match access {
            Access::Unavailable => None,
            Access::Ready(admission) => Some(admission),
            Access::Enqueue {
                admission,
                generation,
                ..
            } => {
                let queued = self.enqueue(subject, admission.entry, generation);
                self.gate
                    .finish_access(admission.entry, generation, queued, self.now)
            }
        }
    }

    fn try_cached(&mut self, subject: u64) -> Option<Admission> {
        let access = self.gate.check(subject, self.now);
        self.access(subject, access)
    }

    fn refresh(&mut self, subject: u64, admission: Admission) {
        let access = self.gate.refresh_entry(subject, admission, self.now);
        self.access(subject, access);
    }

    /// Serves a request: from the snapshot, else through the map.
    fn serve(&mut self, subject: u64) -> Option<AdmissionState> {
        let admission = match self.try_cached(subject) {
            Some(admission) => Some(admission),
            None => {
                self.misses += 1;
                self.join(subject)
            }
        };
        admission.map(|admission| self.state(admission))
    }

    /// Runs the refreshes that wait for the watcher.
    fn run_queue(&mut self) {
        while let Some((subject, entry, generation)) = self.queue.pop_front() {
            let outcome = self.call_source(subject);
            let _ = self.finish_lookup(subject, entry, generation, outcome);
        }
    }

    fn state(&mut self, admission: Admission) -> AdmissionState {
        assert!(self.gate.is_admitted(admission.entry));
        admission.state(&mut self.gate, self.now)
    }

    fn check(&mut self, admission: Admission) -> (AdmissionState, bool) {
        admission.check(&mut self.gate, self.now)
    }

    fn is_allowed(&mut self, admission: Admission) -> bool {
        admission.is_allowed(&mut self.gate, self.now)
    }

    fn payload(&mut self, admission: Admission) -> Option<Payload> {
        admission
            .payload(&mut self.gate, self.now)
            .map(|payload| *payload)
    }

    fn count(&mut self, event: MetricEvent) -> usize {
        self.events.extend(self.gate.take_events());
        self.events.iter().filter(|seen| **seen == event).count()
    }
}

fn default_config() -> PolicyGateConfig {
    PolicyGateConfig::builder().build().expect("valid config")
}

#[test]
fn disconnected_request_waits_for_watch_then_is_admitted() {
    let mut world = World::disconnected(default_config());
    let step = world.gate.begin_admission(A, world.now);
    assert!(matches!(step, AdmitStep::AwaitConnection(_)));
    world.advance(1_000);
    world.open_watch();
    let admission = world.run(step).expect("admission succeeds");
    assert_eq!(world.state(admission), AdmissionState::Allowed);
    assert_eq!(world.calls, 1);
}

#[test]
fn disconnected_request_times_out_at_the_admission_deadline() {
    let config = PolicyGateConfig::builder()
        .unary_timeout(millis(500))
        .admission_timeout(Duration::from_secs(1))
        .build()
        .expect("valid config");
    let mut world = World::disconnected(config);
    let started = world.now;
    assert_eq!(world.join(A), None);
    assert_eq!(world.now.nanos - started.nanos, 1_000_000_000);
    assert_eq!(world.calls, 0);
    assert_eq!(world.count(MetricEvent::AdmissionTimeout), 1);
}

#[test]
fn shutdown_rejects_new_admissions_without_waiting_for_the_deadline() {
    let mut world = World::new(default_config());
    let step = world.begin(A);
    let AdmitStep::AwaitFetch { call, entry, .. } = step else {
        panic!("the admission waits for its lookup");
    };
    world.gate.watch_disconnected(world.now);
    let step =
        world
            .gate
            .admit_after_fetch(call, entry, FetchWait::ConnectionChanged, world.now);
    let AdmitStep::AwaitConnection(call) = step else {
        panic!("the admission starts over");
    };
    let step = world
        .gate
        .admit_after_connection(call, ConnectionWait::Closed, world.now);
    assert!(matches!(step, AdmitStep::Done(None)));
    assert_eq!(world.count(MetricEvent::AdmissionTimeout), 0);
}

#[test]
fn shutdown_rejects_another_subject_without_a_lookup() {
    let mut world = World::new(default_config());
    world.reply(A, found(Decision::Allowed));
    let step = world.begin(A);
    let AdmitStep::AwaitFetch { call, entry, .. } = step else {
        panic!("the admission waits for its lookup");
    };
    let _ = world.call_source(A);
    assert_eq!(world.calls, 1);
    world.gate.watch_disconnected(world.now);
    let step =
        world
            .gate
            .admit_after_fetch(call, entry, FetchWait::ConnectionChanged, world.now);
    let started = world.now;
    let other = world.gate.begin_admission(B, world.now);
    for step in [step, other] {
        let AdmitStep::AwaitConnection(call) = step else {
            panic!("the admission waits for the watch");
        };
        let step = world
            .gate
            .admit_after_connection(call, ConnectionWait::Closed, world.now);
        assert!(matches!(step, AdmitStep::Done(None)));
    }
    assert_eq!(world.now, started);
    assert_eq!(world.calls, 1);
    assert_eq!(world.count(MetricEvent::UnaryCall), 1);
    assert_eq!(world.count(MetricEvent::AdmissionTimeout), 0);
    assert!(world.gate.cached_subjects().is_empty());
}

#[test]
fn an_admission_beyond_the_end_of_the_clock_times_out_at_once() {
    let config = PolicyGateConfig::builder()
        .unary_timeout(millis(500))
        .admission_timeout(Duration::from_secs(1))
        .build()
        .expect("valid config");
    let now = Instant::from_nanos(5);
    let enough = Instant::from_nanos(1_000_000_005);
    let mut gate = GateState::<Payload>::new(&config, now, enough);
    let step = gate.begin_admission(A, now);
    assert!(matches!(step, AdmitStep::AwaitConnection(call) if call.deadline == enough));
    let short = Instant::from_nanos(1_000_000_004);
    let mut gate = GateState::<Payload>::new(&config, now, short);
    assert!(matches!(gate.begin_admission(A, now), AdmitStep::Done(None)));
    assert_eq!(gate.take_events(), vec![MetricEvent::AdmissionTimeout]);
    assert_eq!(gate.clock_end(), short);
}

#[test]
fn dropping_an_unpolled_watcher_stops_admission() {
    let mut world = World::disconnected(default_config());
    let AdmitStep::AwaitConnection(call) = world.gate.begin_admission(A, world.now) else {
        panic!("the admission waits for the watch");
    };
    let step = world
        .gate
        .admit_after_connection(call, ConnectionWait::Closed, world.now);
    assert!(matches!(step, AdmitStep::Done(None)));
    assert_eq!(world.calls, 0);
}

#[test]
fn denied_is_cached_until_an_allowed_event() {
    let mut world = World::new(default_config());
    world.reply(A, found(Decision::Denied));
    assert_eq!(world.serve(A), Some(AdmissionState::Denied));
    assert_eq!(world.serve(A), Some(AdmissionState::Denied));
    assert_eq!(world.calls, 1);

    world.change(A, Some(Decision::Allowed));
    assert_eq!(world.count(MetricEvent::WatchEvent), 1);
    assert_eq!(world.serve(A), Some(AdmissionState::Allowed));
    assert_eq!(world.calls, 1);
}

#[test]
fn dropped_first_requester_does_not_cancel_the_shared_fetch() {
    let mut world = World::new(default_config());
    let AdmitStep::AwaitFetch {
        entry, generation, ..
    } = world.begin(A)
    else {
        panic!("the first admission waits for its lookup");
    };
    // The first requester goes away here; the second one finds its lookup.
    let AdmitStep::AwaitFetch {
        call,
        entry: shared,
        generation: joined,
    } = world.begin(A)
    else {
        panic!("the second admission waits for the same lookup");
    };
    assert_eq!((entry, generation), (shared, joined));
    let outcome = world.call_source(A);
    let result = world.finish_lookup(A, entry, generation, outcome);
    let step = world
        .gate
        .admit_after_fetch(call, entry, FetchWait::Ended(result), world.now);
    assert!(matches!(step, AdmitStep::Done(Some(_))));
    assert_eq!(world.calls, 1);
}

#[test]
fn concurrent_pending_requests_share_one_unary() {
    let mut world = World::new(default_config());
    let AdmitStep::AwaitFetch {
        call: first,
        entry,
        generation,
    } = world.begin(A)
    else {
        panic!("the first admission waits for its lookup");
    };
    let AdmitStep::AwaitFetch {
        call: second,
        entry: same_entry,
        generation: same_generation,
    } = world.begin(A)
    else {
        panic!("the second admission waits for the same lookup");
    };
    assert_eq!((entry, generation), (same_entry, same_generation));
    let outcome = world.call_source(A);
    let result = world.finish_lookup(A, entry, generation, outcome);
    assert!(result.is_ok());
    for call in [first, second] {
        let step = world
            .gate
            .admit_after_fetch(call, entry, FetchWait::Ended(Ok(())), world.now);
        assert!(matches!(step, AdmitStep::Done(Some(_))));
    }
    assert_eq!(world.calls, 1);
    assert_eq!(world.serve(A), Some(AdmissionState::Allowed));
    assert_eq!(world.calls, 1);
}

#[test]
fn transient_unary_failure_is_retried_then_admitted() {
    let mut world = World::new(default_config());
    world.reply(A, failed(DecisionSourceErrorKind::Transient));
    world.reply(A, found(Decision::Allowed));
    let started = world.now;
    let admission = world.join(A).expect("the retry succeeds");
    assert_eq!(world.state(admission), AdmissionState::Allowed);
    assert_eq!(world.calls, 2);
    assert_eq!(world.now.nanos - started.nanos, 100_000_000);
    assert_eq!(world.count(MetricEvent::AdmissionRetry), 1);
}

#[test]
fn retries_double_up_to_the_ceiling_until_the_deadline() {
    let mut world = World::new(default_config());
    for _ in 0..64 {
        world.reply(A, failed(DecisionSourceErrorKind::Transient));
    }
    let started = world.now;
    assert_eq!(world.join(A), None);
    assert_eq!(world.now.nanos - started.nanos, 10_000_000_000);
    // 100, 200, 400 and 800 ms, then one second at a time: the thirteenth wait ends too late.
    assert_eq!(world.calls, 13);
    assert_eq!(world.count(MetricEvent::AdmissionRetry), 13);
    assert_eq!(world.count(MetricEvent::AdmissionTimeout), 1);
}

#[test]
fn permanent_unary_status_fails_fast() {
    let mut world = World::new(default_config());
    world.reply(A, failed(DecisionSourceErrorKind::Permanent));
    let started = world.now;
    assert_eq!(world.join(A), None);
    assert_eq!(world.now, started);
    assert_eq!(world.calls, 1);
    assert_eq!(world.count(MetricEvent::AdmissionRetry), 0);
    assert_eq!(world.count(MetricEvent::AdmissionTimeout), 0);
    assert_eq!(world.count(MetricEvent::UnaryFailure), 1);
    assert_eq!(world.count(MetricEvent::WireFailure), 0);
}

#[test]
fn permanent_failure_cooldown_coalesces_later_requests() {
    let config = PolicyGateConfig::builder()
        .permanent_failure_cooldown(millis(250))
        .build()
        .expect("valid config");
    let mut world = World::new(config);
    let AdmitStep::AwaitFetch {
        call: first,
        entry,
        generation,
    } = world.begin(A)
    else {
        panic!("the first admission waits for its lookup");
    };
    let AdmitStep::AwaitFetch { call: second, .. } = world.begin(A) else {
        panic!("the second admission joins");
    };
    world.reply(A, failed(DecisionSourceErrorKind::Permanent));
    let outcome = world.call_source(A);
    let error = world
        .finish_lookup(A, entry, generation, outcome)
        .expect_err("the lookup fails");
    for call in [first, second] {
        let result = Err(error.clone());
        let step = world
            .gate
            .admit_after_fetch(call, entry, FetchWait::Ended(result), world.now);
        assert!(matches!(step, AdmitStep::Done(None)));
    }
    assert_eq!(world.calls, 1);
    assert_eq!(world.count(MetricEvent::UnaryCall), 1);
    assert_eq!(world.count(MetricEvent::UnaryFailure), 1);

    // Later requests join one lookup that waits out the cooldown.
    let AdmitStep::AwaitFetch {
        entry: third,
        generation: delayed,
        ..
    } = world.begin(A)
    else {
        panic!("the third admission joins the delayed lookup");
    };
    let AdmitStep::AwaitFetch {
        call: fourth,
        generation: same,
        ..
    } = world.begin(A)
    else {
        panic!("the fourth admission joins the delayed lookup");
    };
    assert_eq!(third, entry);
    assert_eq!(delayed, same);
    assert_ne!(delayed, generation);
    let pending = world.gate.pending_operation(entry).expect("a lookup");
    assert_eq!(pending.delay, Some(millis(250)));
    world.advance(250);
    let outcome = world.call_source(A);
    let result = world.finish_lookup(A, entry, delayed, outcome);
    let step = world
        .gate
        .admit_after_fetch(fourth, entry, FetchWait::Ended(result), world.now);
    assert!(matches!(step, AdmitStep::Done(Some(_))));
    assert_eq!(world.calls, 2);
}

#[test]
fn unspecified_unary_state_is_retried() {
    let config = PolicyGateConfig::builder()
        .initial_admission_retry_delay(millis(250))
        .build()
        .expect("valid config");
    let mut world = World::new(config);
    world.reply(B, LookupOutcome::Absent);
    world.reply(B, found(Decision::Allowed));
    let started = world.now;
    assert!(world.join(B).is_some());
    assert_eq!(world.now.nanos - started.nanos, 250_000_000);
    assert_eq!(world.calls, 2);
    assert_eq!(world.count(MetricEvent::UnaryFailure), 1);
    assert_eq!(world.count(MetricEvent::AdmissionRetry), 1);
}

#[test]
fn unknown_unary_state_fails_fast_as_a_wire_error() {
    let mut world = World::new(default_config());
    world.reply(C, failed(DecisionSourceErrorKind::Wire));
    let started = world.now;
    assert_eq!(world.join(C), None);
    assert_eq!(world.now, started);
    assert_eq!(world.calls, 1);
    assert_eq!(world.count(MetricEvent::WireFailure), 1);
    assert_eq!(world.count(MetricEvent::AdmissionRetry), 0);
}

#[test]
fn denied_event_during_an_in_flight_unary_wins_over_its_result() {
    let mut world = World::new(default_config());
    let AdmitStep::AwaitFetch {
        call,
        entry,
        generation,
    } = world.begin(A)
    else {
        panic!("the admission waits for its lookup");
    };
    world.change(A, Some(Decision::Denied));
    assert_eq!(world.gate.take_aborted(), vec![generation]);
    let outcome = world.call_source(A);
    assert!(world.finish_lookup(A, entry, generation, outcome).is_ok());
    let step = world
        .gate
        .admit_after_fetch(call, entry, FetchWait::Aborted, world.now);
    let admission = world.run(step).expect("the watch decided");
    assert_eq!(world.state(admission), AdmissionState::Denied);
    assert_eq!(world.serve(A), Some(AdmissionState::Denied));
    assert_eq!(world.calls, 1);
}

#[test]
fn watch_verdict_wakes_pending_admission_before_unary_completion() {
    let mut world = World::new(default_config());
    let AdmitStep::AwaitFetch {
        call,
        entry,
        generation,
    } = world.begin(A)
    else {
        panic!("the admission waits for its lookup");
    };
    world.change(A, Some(Decision::Denied));
    // The lookup is aborted, which wakes the admission that waits for it.
    assert_eq!(world.gate.take_aborted(), vec![generation]);
    let step = world
        .gate
        .admit_after_fetch(call, entry, FetchWait::Aborted, world.now);
    let admission = world.run(step).expect("the watch decided");
    assert_eq!(world.state(admission), AdmissionState::Denied);
    assert_eq!(world.count(MetricEvent::MapHit), 1);
}

#[test]
fn engine_admission_returns_an_observable_permit() {
    let mut world = World::new(default_config());
    let admission = world.allowed(A);
    assert_eq!(world.state(admission), AdmissionState::Allowed);
    world.change(A, Some(Decision::Denied));
    assert_eq!(world.state(admission), AdmissionState::Denied);
}

#[test]
fn disconnect_mid_fetch_reconnects_and_refetches_before_admitting() {
    let mut world = World::new(default_config());
    let AdmitStep::AwaitFetch {
        call,
        entry,
        generation,
    } = world.begin(A)
    else {
        panic!("the admission waits for its lookup");
    };
    world.close_watch();
    assert_eq!(world.gate.take_aborted(), vec![generation]);
    world.advance(125);
    world.open_watch();
    let outcome = world.call_source(A);
    let result = world.finish_lookup(A, entry, generation, outcome);
    let step = world
        .gate
        .admit_after_fetch(call, entry, FetchWait::Ended(result), world.now);
    assert!(matches!(step, AdmitStep::AwaitConnection(_)));
    let admission = world.run(step).expect("the second lookup answers");
    assert_ne!(admission.entry, entry);
    assert_eq!(world.state(admission), AdmissionState::Allowed);
    assert_eq!(world.calls, 2);
    assert_eq!(world.count(MetricEvent::AdmissionRetry), 0);
}

#[test]
fn unspecified_event_forgets_a_known_subject() {
    let mut world = World::new(default_config());
    world.reply(A, found(Decision::Allowed));
    world.reply(A, found(Decision::Denied));
    let admission = world.allowed(A);
    world.change(A, None);
    assert_eq!(world.state(admission), AdmissionState::Stale);
    assert_eq!(world.serve(A), Some(AdmissionState::Denied));
    assert_eq!(world.calls, 2);
    // Withdrawal is terminal for the old handle.
    world.change(A, Some(Decision::Allowed));
    assert_eq!(world.state(admission), AdmissionState::Stale);
}

#[test]
fn a_decision_that_races_the_deadline_is_still_used() {
    let mut world = World::new(default_config());
    let AdmitStep::AwaitFetch {
        call,
        entry,
        generation,
    } = world.begin(A)
    else {
        panic!("the admission waits for its lookup");
    };
    let outcome = world.call_source(A);
    assert!(world.finish_lookup(A, entry, generation, outcome).is_ok());
    world.now = call.deadline;
    let step = world
        .gate
        .admit_after_fetch(call, entry, FetchWait::TimedOut, world.now);
    assert!(matches!(step, AdmitStep::Done(Some(_))));
    assert_eq!(world.count(MetricEvent::AdmissionTimeout), 0);

    let AdmitStep::AwaitFetch { call, entry, .. } = world.begin(B) else {
        panic!("the admission waits for its lookup");
    };
    world.now = call.deadline;
    let step = world
        .gate
        .admit_after_fetch(call, entry, FetchWait::TimedOut, world.now);
    assert!(matches!(step, AdmitStep::Done(None)));
    assert_eq!(world.count(MetricEvent::AdmissionTimeout), 1);
}

#[test]
fn cancellation_between_clear_and_insert_does_not_retain_the_subject() {
    let mut world = World::new(default_config());
    let AdmitStep::AwaitConnection(call) = world.gate.begin_admission(A, world.now) else {
        panic!("the admission waits for the watch");
    };
    // The watcher goes away after connectivity was seen and before the subject is inserted.
    world.gate.watch_disconnected(world.now);
    let step = world
        .gate
        .admit_after_connection(call, ConnectionWait::Connected, world.now);
    assert!(matches!(step, AdmitStep::AwaitConnection(_)));
    assert!(world.gate.cached_subjects().is_empty());
    assert_eq!(world.gate.take_aborted().len(), 1);
}

#[test]
fn lookups_settle_into_decisions_or_transient_failures() {
    let now = Instant::from_nanos(50);
    let cases: [(LookupOutcome<Payload>, &str); 4] = [
        (LookupOutcome::TimedOut, "subject state lookup timed out"),
        (
            LookupOutcome::Absent,
            "decision source holds no decision for the subject",
        ),
        (LookupOutcome::Panicked, "decision source panicked"),
        (
            LookupOutcome::Found(DecisionResult {
                decision: Decision::Allowed,
                payload: None,
                valid_until: Some(now),
            }),
            "decision source returned an expired decision",
        ),
    ];
    for (outcome, message) in cases {
        let error = settle_lookup(outcome, now).expect_err("no decision");
        assert_eq!(error.kind(), DecisionSourceErrorKind::Transient);
        assert_eq!(error.message(), message);
    }
    let error = settle_lookup(failed(DecisionSourceErrorKind::Wire), now).expect_err("failure");
    assert_eq!(error.kind(), DecisionSourceErrorKind::Wire);
    assert_eq!(error.message(), "scripted failure");
    let result = settle_lookup(found(Decision::Denied), now).expect("decision");
    assert_eq!(result.decision, Decision::Denied);
    let capped = LookupOutcome::<Payload>::Found(DecisionResult {
        decision: Decision::Allowed,
        payload: None,
        valid_until: Some(Instant::from_nanos(51)),
    });
    assert!(settle_lookup(capped, now).is_ok());
}

#[test]
fn an_admission_without_a_representable_deadline_times_out_at_once() {
    let mut world = World::new(default_config());
    world.now = Instant::last();
    assert!(matches!(
        world.gate.begin_admission(A, world.now),
        AdmitStep::Done(None)
    ));
    assert_eq!(world.count(MetricEvent::AdmissionTimeout), 1);
    assert!(!world.gate.is_ready(world.now));
}

#[test]
fn an_entry_is_forgotten_only_without_its_slot() {
    let mut world = World::new(default_config());
    let admission = world.allowed(A);
    assert!(!world.gate.forget(admission.entry));
    world.change(A, None);
    assert_eq!(world.state(admission), AdmissionState::Stale);
    assert!(world.gate.forget(admission.entry));
    assert!(!world.gate.forget(admission.entry));
    assert_eq!(world.state(admission), AdmissionState::Stale);
}

#[test]
fn a_sweep_spares_cached_and_held_entries() {
    let mut world = World::new(default_config());
    let cached = world.allowed(A);
    let held = world.allowed(B);
    world.change(B, None);
    let unused = world.allowed(C);
    world.change(C, None);
    let mut sweeper = Sweeper::new();
    assert!(!sweeper.note(SWEEP_INTERVAL - 1));
    assert!(sweeper.note(SWEEP_INTERVAL));
    let handles: HashSet<u64> = [held.entry].into_iter().collect();
    sweeper.sweep(&mut world.gate, &handles);
    assert_eq!(sweeper.kept, vec![cached.entry, held.entry]);
    assert_eq!(sweeper.unswept, SWEEP_INTERVAL + 1);
    assert!(world.gate.has_entry(cached.entry));
    assert!(world.gate.has_entry(held.entry));
    assert!(!world.gate.has_entry(unused.entry));
    sweeper.sweep(&mut world.gate, &HashSet::new());
    assert_eq!(sweeper.kept, vec![cached.entry]);
    assert!(!world.gate.has_entry(held.entry));
}

#[test]
fn a_sweep_is_due_after_as_many_numbers_as_the_last_one_left() {
    let mut sweeper = Sweeper::new();
    sweeper.kept = vec![0; 2_000];
    assert!(!sweeper.note(1_999));
    assert!(sweeper.note(2_000));
    assert!(sweeper.note(5));
    assert_eq!(sweeper.largest, 2_000);
    assert!(!sweep_due(SWEEP_INTERVAL - 1, 0));
    assert!(sweep_due(SWEEP_INTERVAL, 0));
    assert!(!sweep_due(1_999, 2_000));
}

#[test]
fn a_failed_lookup_is_counted_by_its_kind() {
    let wire: Result<(), DecisionSourceError> = Err(DecisionSourceError::new(DecisionSourceErrorKind::Wire, "bad"));
    assert_eq!(
        lookup_events(&wire),
        vec![MetricEvent::WireFailure, MetricEvent::UnaryFailure]
    );
    let transient: Result<(), DecisionSourceError> = Err(DecisionSourceError::new(DecisionSourceErrorKind::Transient, "down"));
    assert_eq!(lookup_events(&transient), vec![MetricEvent::UnaryFailure]);
    assert!(lookup_events(&Ok(())).is_empty());
}

#[test]
fn overlapping_admissions_share_one_verdict() {
    let mut world = World::new(default_config());
    let mut waits = Vec::new();
    for _ in 0..3 {
        let AdmitStep::AwaitConnection(call) = world.gate.begin_admission(A, world.now) else {
            panic!("an admission first waits for the watch");
        };
        let step = world
            .gate
            .admit_after_connection(call, ConnectionWait::Connected, world.now);
        let AdmitStep::AwaitFetch { call, entry, generation } = step else {
            panic!("an unknown subject is looked up");
        };
        waits.push((call, entry, generation));
    }
    let (_, entry, generation) = waits[0];
    assert!(waits.iter().all(|wait| wait.1 == entry && wait.2 == generation));
    waits.remove(0);
    let result = settle_lookup(found(Decision::Denied), world.now);
    assert!(world
        .gate
        .complete_fetch(A, entry, generation, result, world.now)
        .is_ok());
    for (call, entry, _) in waits {
        let step = world
            .gate
            .admit_after_fetch(call, entry, FetchWait::Ended(Ok(())), world.now);
        let AdmitStep::Done(Some(admission)) = step else {
            panic!("every waiting admission returns");
        };
        assert_eq!(world.state(admission), AdmissionState::Denied);
    }
    let AdmitStep::AwaitConnection(call) = world.gate.begin_admission(A, world.now) else {
        panic!("an admission first waits for the watch");
    };
    let step = world
        .gate
        .admit_after_connection(call, ConnectionWait::Connected, world.now);
    assert!(matches!(step, AdmitStep::Done(Some(admission)) if admission.entry == entry));
}

#[test]
fn overlapping_admissions_share_one_lookup_whatever_comes_between() {
    let mut world = World::new(default_config());
    let AdmitStep::AwaitFetch { entry, generation, .. } = world.begin(A) else {
        panic!("an unknown subject is looked up");
    };
    let other = world.allowed(B);
    world.advance(10);
    world.change(C, Some(Decision::Denied));
    world.change(B, Some(Decision::Denied));
    assert!(world.gate.take_aborted().is_empty());
    let AdmitStep::AwaitFetch { call, entry: joined, generation: awaited } = world.begin(A) else {
        panic!("the subject is still looked up");
    };
    assert_eq!((joined, awaited), (entry, generation));
    let ended = world.finish_lookup(A, entry, generation, found(Decision::Allowed));
    assert!(ended.is_ok());
    world.change(B, None);
    let step = world
        .gate
        .admit_after_fetch(call, entry, FetchWait::Ended(Ok(())), world.now);
    assert!(matches!(step, AdmitStep::Done(Some(admission)) if admission.entry == entry));
    assert_eq!(world.state(Admission { entry }), AdmissionState::Allowed);
    assert_eq!(world.state(other), AdmissionState::Stale);
}

#[test]
fn a_dropped_lookup_is_noted_and_looked_up_anew() {
    let mut world = World::new(default_config());
    let AdmitStep::AwaitFetch { entry, generation, .. } = world.begin(A) else {
        panic!("an unknown subject is looked up");
    };
    world.change(A, None);
    assert_eq!(world.gate.take_aborted(), vec![generation]);
    let AdmitStep::AwaitFetch { entry: next, .. } = world.begin(A) else {
        panic!("the subject is looked up anew");
    };
    assert_ne!(next, entry);
}

#[test]
fn a_watch_change_is_no_use_of_its_subject() {
    let mut world = World::new(default_config());
    world.allowed(A);
    world.advance(1);
    world.allowed(B);
    world.advance(1);
    world.allowed(C);
    world.advance(1);
    world.change(B, Some(Decision::Denied));
    world.allowed(A);
    let slots = world.gate.cached_subjects();
    let order: Vec<u64> = slots.iter().map(|slot| slot.0).collect();
    assert_eq!(order, vec![A, C, B]);
    assert!(slots.windows(2).all(|pair| pair[0].1 .1 >= pair[1].1 .1));
}
