//! The watch: its events, its health and the backoff between two attempts.

use std::collections::{HashMap, VecDeque};

use policy_gate::{
    jitter, jitter_with, settle_lookup, Access, Admission, AdmissionState, AdmitStep, ConnectionWait, Decision,
    DecisionChange, DecisionResult, DecisionSourceError, DecisionSourceErrorKind, Duration,
    FetchWait, GateState, Instant, LookupOutcome, MetricEvent, PolicyGateConfig, Reconnect,
    DecisionSourceHealthStatus, SleepWait, WatchItem, WatchOutcome, WatchSession, WatchStep,
};

const A: u64 = 1;
const B: u64 = 2;
#[allow(dead_code)]
const C: u64 = 3;

type Payload = &'static str;

/// Drives one gate against a scripted decision source and a clock that only moves when told.
struct World {
    gate: GateState<Payload>,
    now: Instant,
    session: Option<WatchSession>,
    reconnect: Reconnect,
    replies: HashMap<u64, VecDeque<LookupOutcome<Payload>>>,
    calls: usize,
    misses: usize,
    queue: VecDeque<(u64, u64, u64)>,
    queue_capacity: usize,
    events: Vec<MetricEvent>,
}

fn millis(value: u64) -> Duration {
    Duration::from_millis(value)
}

fn found(decision: Decision) -> LookupOutcome<Payload> {
    LookupOutcome::Found(DecisionResult::plain(decision))
}

fn failed(kind: DecisionSourceErrorKind) -> LookupOutcome<Payload> {
    LookupOutcome::Failed(DecisionSourceError::new(kind, "scripted failure"))
}

#[allow(dead_code)]
impl World {
    fn disconnected(config: PolicyGateConfig) -> World {
        let now = Instant::from_nanos(1_000_000_000);
        let gate = GateState::new(&config, now, Instant::last());
        let reconnect = Reconnect::new(&gate);
        World {
            gate,
            now,
            session: None,
            reconnect,
            replies: HashMap::new(),
            calls: 0,
            misses: 0,
            queue: VecDeque::new(),
            queue_capacity: config.refresh_queue_capacity(),
            events: Vec::new(),
        }
    }

    fn new(config: PolicyGateConfig) -> World {
        let mut world = World::disconnected(config);
        world.open_watch();
        world
    }

    fn open_watch(&mut self) {
        self.session = Some(WatchSession::open(&mut self.gate));
    }

    /// Closes the watch as the end of its stream does. Returns the delay before jitter.
    fn close_watch(&mut self) -> Duration {
        let stable = self.session.take().expect("an open watch").stable;
        self.reconnect
            .watch_ended(&mut self.gate, WatchOutcome::Closed { stable }, self.now)
    }

    fn item(&mut self, item: WatchItem) -> WatchStep {
        let mut session = self.session.take().expect("an open watch");
        let step = session.item_received(&mut self.gate, item, self.now);
        self.session = Some(session);
        step
    }

    fn change(&mut self, subject: u64, decision: Option<Decision>) -> WatchStep {
        self.item(Some(Ok(DecisionChange { subject, decision })))
    }

    fn advance(&mut self, by: u64) {
        self.now = Instant::from_nanos(self.now.nanos + u128::from(by) * 1_000_000);
    }

    fn reply(&mut self, subject: u64, outcome: LookupOutcome<Payload>) {
        self.replies.entry(subject).or_default().push_back(outcome);
    }

    /// Calls the source. Without a script it allows.
    fn call_source(&mut self, subject: u64) -> LookupOutcome<Payload> {
        self.calls += 1;
        self.gate.begin_lookup();
        self.replies
            .entry(subject)
            .or_default()
            .pop_front()
            .unwrap_or_else(|| found(Decision::Allowed))
    }

    fn finish_lookup(
        &mut self,
        subject: u64,
        entry: u64,
        generation: u64,
        outcome: LookupOutcome<Payload>,
    ) -> Result<(), DecisionSourceError> {
        let result = settle_lookup(outcome, self.now);
        self.gate
            .complete_fetch(subject, entry, generation, result, self.now)
    }

    /// First step of an admission that does not find the watch down.
    fn begin(&mut self, subject: u64) -> AdmitStep {
        let step = self.gate.begin_admission(subject, self.now);
        self.after_connection(step)
    }

    fn after_connection(&mut self, step: AdmitStep) -> AdmitStep {
        match step {
            AdmitStep::AwaitConnection(call) => {
                self.gate
                    .admit_after_connection(call, ConnectionWait::Connected, self.now)
            }
            other => other,
        }
    }

    /// Runs an admission to its end; waits move the clock.
    fn run(&mut self, mut step: AdmitStep) -> Option<Admission> {
        loop {
            step = match step {
                AdmitStep::Done(admission) => return admission,
                AdmitStep::AwaitConnection(call) => {
                    let wait = if self.gate.is_connected() && self.now.nanos < call.deadline.nanos {
                        ConnectionWait::Connected
                    } else {
                        self.now = call.deadline;
                        ConnectionWait::TimedOut
                    };
                    self.gate.admit_after_connection(call, wait, self.now)
                }
                AdmitStep::AwaitFetch {
                    call,
                    entry,
                    generation,
                } => {
                    let pending = self.gate.pending_operation(entry).expect("a lookup");
                    assert_eq!(pending.generation, generation);
                    if let Some(delay) = pending.delay {
                        self.now = Instant::from_nanos(self.now.nanos + delay.nanos);
                    }
                    let outcome = self.call_source(call.subject);
                    let result = self.finish_lookup(call.subject, entry, generation, outcome);
                    self.gate
                        .admit_after_fetch(call, entry, FetchWait::Ended(result), self.now)
                }
                AdmitStep::AwaitQueue {
                    call,
                    entry,
                    generation,
                    late,
                    ..
                } => {
                    let queued = self.enqueue(call.subject, entry, generation);
                    self.gate
                        .admit_after_queue(call, entry, generation, late, queued, self.now)
                }
                AdmitStep::Sleep { call, delay } => {
                    let end = self.now.nanos + delay.nanos;
                    if end >= call.deadline.nanos {
                        self.now = call.deadline;
                        self.gate.admit_after_sleep(call, SleepWait::TimedOut)
                    } else {
                        self.now = Instant::from_nanos(end);
                        self.gate.admit_after_sleep(call, SleepWait::Slept)
                    }
                }
            };
        }
    }

    /// Admits through the subject map.
    fn join(&mut self, subject: u64) -> Option<Admission> {
        let step = self.gate.begin_admission(subject, self.now);
        self.run(step)
    }

    fn allowed(&mut self, subject: u64) -> Admission {
        let admission = self.join(subject).expect("admission succeeds");
        assert!(self.is_allowed(admission), "subject must be allowed");
        admission
    }

    fn enqueue(&mut self, subject: u64, entry: u64, generation: u64) -> bool {
        if self.queue.len() < self.queue_capacity {
            self.queue.push_back((subject, entry, generation));
            true
        } else {
            false
        }
    }

    fn access(&mut self, subject: u64, access: Access) -> Option<Admission> {
        match access {
            Access::Unavailable => None,
            Access::Ready(admission) => Some(admission),
            Access::Enqueue {
                admission,
                generation,
                ..
            } => {
                let queued = self.enqueue(subject, admission.entry, generation);
                self.gate
                    .finish_access(admission.entry, generation, queued, self.now)
            }
        }
    }

    fn try_cached(&mut self, subject: u64) -> Option<Admission> {
        let access = self.gate.check(subject, self.now);
        self.access(subject, access)
    }

    fn refresh(&mut self, subject: u64, admission: Admission) {
        let access = self.gate.refresh_entry(subject, admission, self.now);
        self.access(subject, access);
    }

    /// Serves a request: from the snapshot, else through the map.
    fn serve(&mut self, subject: u64) -> Option<AdmissionState> {
        let admission = match self.try_cached(subject) {
            Some(admission) => Some(admission),
            None => {
                self.misses += 1;
                self.join(subject)
            }
        };
        admission.map(|admission| self.state(admission))
    }

    /// Runs the refreshes that wait for the watcher.
    fn run_queue(&mut self) {
        while let Some((subject, entry, generation)) = self.queue.pop_front() {
            let outcome = self.call_source(subject);
            let _ = self.finish_lookup(subject, entry, generation, outcome);
        }
    }

    fn state(&mut self, admission: Admission) -> AdmissionState {
        assert!(self.gate.is_admitted(admission.entry));
        admission.state(&mut self.gate, self.now)
    }

    fn check(&mut self, admission: Admission) -> (AdmissionState, bool) {
        admission.check(&mut self.gate, self.now)
    }

    fn is_allowed(&mut self, admission: Admission) -> bool {
        admission.is_allowed(&mut self.gate, self.now)
    }

    fn payload(&mut self, admission: Admission) -> Option<Payload> {
        admission
            .payload(&mut self.gate, self.now)
            .map(|payload| *payload)
    }

    fn count(&mut self, event: MetricEvent) -> usize {
        self.events.extend(self.gate.take_events());
        self.events.iter().filter(|seen| **seen == event).count()
    }
}

fn default_config() -> PolicyGateConfig {
    PolicyGateConfig::builder()
        .unary_timeout(Duration::from_secs(1))
        .admission_timeout(Duration::from_secs(3))
        .build()
        .expect("valid config")
}

fn hasty_config() -> PolicyGateConfig {
    PolicyGateConfig::builder()
        .unary_timeout(millis(1))
        .admission_timeout(millis(20))
        .build()
        .expect("valid config")
}

fn stability(world: &mut World) {
    let mut session = world.session.take().expect("an open watch");
    session.stability_reached(&mut world.gate);
    world.session = Some(session);
}

fn status(world: &World) -> DecisionSourceHealthStatus {
    world.gate.health().status(world.now)
}

#[test]
fn always_ready_watch_stream_yields_to_its_caller() {
    let config = PolicyGateConfig::builder()
        .watch_events_per_yield(3)
        .build()
        .expect("valid config");
    let mut world = World::new(config);
    for _ in 0..2 {
        assert_eq!(world.change(A, Some(Decision::Denied)), WatchStep::Continue);
        assert_eq!(world.change(A, Some(Decision::Denied)), WatchStep::Continue);
        assert_eq!(world.change(A, Some(Decision::Denied)), WatchStep::Yield);
    }
    assert_eq!(world.count(MetricEvent::WatchEvent), 6);
}

#[test]
fn refreshes_count_toward_the_yield() {
    let config = PolicyGateConfig::builder()
        .watch_events_per_yield(2)
        .build()
        .expect("valid config");
    let mut world = World::new(config);
    assert_eq!(world.change(A, Some(Decision::Denied)), WatchStep::Continue);
    let mut session = world.session.take().expect("an open watch");
    session.refresh_started();
    session.refresh_started();
    assert_eq!(session.refresh_ended(), WatchStep::Yield);
    assert_eq!(session.refresh_ended(), WatchStep::Continue);
}

#[test]
fn an_open_watch_runs_as_many_refreshes_as_its_queue_holds() {
    let config = PolicyGateConfig::builder()
        .refresh_queue_capacity(2)
        .build()
        .expect("valid config");
    let mut world = World::new(config);
    world.change(A, Some(Decision::Denied));
    let mut session = world.session.take().expect("an open watch");
    assert!(session.accepts_refresh());
    session.refresh_started();
    assert!(session.accepts_refresh());
    session.refresh_started();
    assert!(!session.accepts_refresh());
    session.refresh_ended();
    assert!(session.accepts_refresh());
}

#[test]
fn a_watch_opens_within_the_admission_timeout_and_settles_after_the_longest_delay() {
    let config = PolicyGateConfig::builder()
        .admission_timeout(Duration::from_secs(7))
        .max_reconnect_delay(Duration::from_secs(19))
        .build()
        .expect("valid config");
    let world = World::new(config);
    assert_eq!(Reconnect::open_timeout(&world.gate), Duration::from_secs(7));
    assert_eq!(world.reconnect.stability_delay(), Duration::from_secs(19));
}

#[test]
fn disconnect_forces_refetch_after_reconnect() {
    let mut world = World::new(default_config());
    world.allowed(A);
    assert_eq!(world.calls, 1);
    world.reply(A, found(Decision::Denied));
    let republishes = world.count(MetricEvent::SnapshotRepublish);
    let delay = world.close_watch();
    assert_eq!(delay, millis(100));
    assert!(world.try_cached(A).is_none());
    let step = world.gate.begin_admission(A, world.now);
    let AdmitStep::AwaitConnection(call) = step else {
        panic!("the admission waits for the watch");
    };
    assert_eq!(world.calls, 1);
    world.advance(125);
    assert_eq!(world.count(MetricEvent::SnapshotRepublish), republishes);
    world.open_watch();
    let step = world
        .gate
        .admit_after_connection(call, ConnectionWait::Connected, world.now);
    let admission = world.run(step).expect("an answer");
    assert_eq!(world.state(admission), AdmissionState::Denied);
    assert_eq!(world.calls, 2);
}

#[test]
fn watch_open_is_abandoned_at_the_admission_deadline() {
    let config = PolicyGateConfig::builder()
        .unary_timeout(Duration::from_secs(1))
        .admission_timeout(Duration::from_secs(1))
        .build()
        .expect("valid config");
    let mut world = World::disconnected(config);
    world.advance(1_000);
    let delay =
        world
            .reconnect
            .watch_ended(&mut world.gate, WatchOutcome::OpenTimedOut, world.now);
    assert_eq!(delay, millis(100));
    assert_eq!(world.count(MetricEvent::WatchOpenFailure), 1);
    assert_eq!(world.count(MetricEvent::WatchDisconnect), 0);
    assert_ne!(status(&world), DecisionSourceHealthStatus::Stable);
}

#[test]
fn wire_failure_reconnects_and_clears_state() {
    let mut world = World::new(default_config());
    world.allowed(A);
    assert_eq!(world.calls, 1);
    world.reply(A, found(Decision::Denied));
    let step = world.item(Some(Err(DecisionSourceError::new(
        DecisionSourceErrorKind::Wire,
        "invalid typed watch change",
    ))));
    assert_eq!(step, WatchStep::Closed { stable: false });
    world.close_watch();
    assert_eq!(world.count(MetricEvent::WireFailure), 1);
    assert_eq!(world.count(MetricEvent::WatchDisconnect), 1);
    world.advance(125);
    world.open_watch();
    let admission = world.join(A).expect("an answer");
    assert_eq!(world.state(admission), AdmissionState::Denied);
    assert_eq!(world.calls, 2);
}

#[test]
fn only_wire_failures_of_the_stream_are_counted() {
    for kind in [
        DecisionSourceErrorKind::Transient,
        DecisionSourceErrorKind::Permanent,
    ] {
        let mut world = World::new(default_config());
        let step = world.item(Some(Err(DecisionSourceError::new(kind, "stream failed"))));
        assert_eq!(step, WatchStep::Closed { stable: false });
        assert_eq!(world.count(MetricEvent::WireFailure), 0);
        assert_eq!(world.item(None), WatchStep::Closed { stable: false });
        stability(&mut world);
        assert_eq!(world.item(None), WatchStep::Closed { stable: true });
    }
}

#[test]
fn wire_failure_opening_watch_is_recorded() {
    let mut world = World::disconnected(default_config());
    let error = DecisionSourceError::new(DecisionSourceErrorKind::Wire, "invalid watch response");
    world.reconnect.watch_ended(
        &mut world.gate,
        WatchOutcome::OpenFailed(error),
        world.now,
    );
    assert_eq!(world.count(MetricEvent::WatchOpenFailure), 1);
    assert_eq!(world.count(MetricEvent::WireFailure), 1);
}

#[test]
fn dropping_a_stable_watcher_marks_health_disconnected() {
    let mut world = World::new(hasty_config());
    world.advance(5_000);
    stability(&mut world);
    assert_eq!(status(&world), DecisionSourceHealthStatus::Stable);
    world.gate.watch_disconnected(world.now);
    assert_eq!(status(&world), DecisionSourceHealthStatus::NotYetStable);
    world.advance(20);
    assert_eq!(status(&world), DecisionSourceHealthStatus::Failed);
}

#[test]
fn aborting_the_watcher_task_fails_admissions_closed() {
    let mut world = World::new(default_config());
    let admission = world.allowed(A);
    assert_eq!(world.calls, 1);
    world.gate.watch_disconnected(world.now);
    assert_eq!(world.state(admission), AdmissionState::Stale);
    assert_eq!(world.count(MetricEvent::WatchConnected(true)), 1);
    assert_eq!(world.count(MetricEvent::WatchConnected(false)), 1);
    assert_eq!(status(&world), DecisionSourceHealthStatus::NotYetStable);
    let AdmitStep::AwaitConnection(call) = world.gate.begin_admission(B, world.now) else {
        panic!("the admission waits for the watch");
    };
    let step = world
        .gate
        .admit_after_connection(call, ConnectionWait::Closed, world.now);
    assert!(matches!(step, AdmitStep::Done(None)));
    assert_eq!(world.calls, 1);
    assert_eq!(world.count(MetricEvent::AdmissionTimeout), 0);
}

#[test]
fn dropping_the_watcher_marks_handles_stale_synchronously() {
    let mut world = World::new(default_config());
    let admission = world.allowed(A);
    world.gate.watch_disconnected(world.now);
    assert_eq!(world.state(admission), AdmissionState::Stale);
    assert!(world.try_cached(A).is_none());
}

#[test]
fn sustained_disconnect_promotes_health_from_warning_to_failed() {
    let mut world = World::disconnected(hasty_config());
    assert_eq!(status(&world), DecisionSourceHealthStatus::NotYetStable);
    world.advance(30);
    assert_eq!(status(&world), DecisionSourceHealthStatus::Failed);
    world.open_watch();
    assert_eq!(status(&world), DecisionSourceHealthStatus::Failed);
    world.advance(4_999);
    assert_ne!(status(&world), DecisionSourceHealthStatus::Stable);
    world.advance(1);
    stability(&mut world);
    assert_eq!(status(&world), DecisionSourceHealthStatus::Stable);
}

#[test]
fn flapping_watch_streams_still_promote_health_to_failed() {
    let mut world = World::new(hasty_config());
    assert_eq!(world.close_watch(), millis(100));
    world.advance(125);
    world.open_watch();
    assert_eq!(world.close_watch(), millis(200));
    world.advance(250);
    world.open_watch();
    world.advance(30);
    assert_eq!(status(&world), DecisionSourceHealthStatus::Failed);
    world.advance(5_000);
    stability(&mut world);
    assert_eq!(status(&world), DecisionSourceHealthStatus::Stable);
}

#[test]
fn reconnect_backoff_resets_only_after_a_stable_stream() {
    let config = PolicyGateConfig::builder()
        .initial_reconnect_delay(millis(200))
        .max_reconnect_delay(Duration::from_secs(2))
        .build()
        .expect("valid config");
    let mut world = World::new(config);
    world.advance(2_000);
    stability(&mut world);
    let first = world.close_watch();
    assert!(jitter(first).nanos <= 249_000_000);
    world.advance(249);
    world.open_watch();
    let second = world.close_watch();
    let spread = jitter(second);
    assert!(spread.nanos > 299_000_000 && spread.nanos <= 499_000_000);
    world.advance(499);
    world.open_watch();
    world.advance(1_999);
    assert_ne!(status(&world), DecisionSourceHealthStatus::Stable);
    world.advance(1);
    stability(&mut world);
    let third = world.close_watch();
    let spread = jitter(third);
    assert!(spread.nanos > 149_000_000 && spread.nanos <= 249_000_000);
    assert_eq!((first, second, third), (millis(200), millis(400), millis(200)));
}

#[test]
fn the_reconnect_delay_doubles_up_to_its_ceiling() {
    let mut world = World::disconnected(default_config());
    let mut delays = Vec::new();
    for _ in 0..8 {
        let delay =
            world
                .reconnect
                .watch_ended(&mut world.gate, WatchOutcome::OpenTimedOut, world.now);
        delays.push(delay.nanos / 1_000_000);
    }
    assert_eq!(delays, vec![100, 200, 400, 800, 1_600, 3_200, 5_000, 5_000]);
}

#[test]
fn jitter_spreads_by_half_the_delay() {
    assert_eq!(jitter_with(millis(200), 0), millis(150));
    assert_eq!(jitter_with(millis(200), 99), millis(249));
    assert_eq!(jitter_with(millis(200), 100), millis(150));
    assert_eq!(jitter_with(millis(200), u64::MAX), millis(165));
    assert_eq!(jitter_with(millis(3), 7), millis(3));
    assert_eq!(jitter_with(millis(1), 7), millis(1));
    let short = Duration::from_nanos(1_999_999);
    assert_eq!(jitter_with(short, 7), short);
    let mut seen = HashMap::new();
    for _ in 0..64 {
        *seen.entry(jitter(Duration::from_secs(1_000)).nanos).or_insert(0) += 1;
    }
    assert!(seen.len() > 1, "the spread is random");
}
