//! Enforcement of decisions on bodies.

use std::collections::{HashMap, VecDeque};

use policy_gate::{
    settle_lookup, Access, Admission, AdmissionState, AdmitStep, ConnectionWait, Decision,
    DecisionChange, DecisionResult, DecisionSourceError, DecisionSourceErrorKind, Duration,
    FetchWait, GateState, Instant, LookupOutcome, MetricEvent, PolicyGateConfig, Reconnect,
    BodyGuard, BodySide, BodyStep, InnerPoll, PolicyGateLayerConfig, ReadmissionPoll, SleepWait,
    StreamRejection, TonicRejectionResponse, WatchItem, WatchOutcome, WatchSession, WatchStep,
};

const A: u64 = 1;
const B: u64 = 2;
#[allow(dead_code)]
const C: u64 = 3;

type Payload = &'static str;

/// Drives one gate against a scripted decision source and a clock that only moves when told.
struct World {
    gate: GateState<Payload>,
    now: Instant,
    session: Option<WatchSession>,
    reconnect: Reconnect,
    replies: HashMap<u64, VecDeque<LookupOutcome<Payload>>>,
    calls: usize,
    misses: usize,
    queue: VecDeque<(u64, u64, u64)>,
    queue_capacity: usize,
    events: Vec<MetricEvent>,
}

fn millis(value: u64) -> Duration {
    Duration::from_millis(value)
}

fn found(decision: Decision) -> LookupOutcome<Payload> {
    LookupOutcome::Found(DecisionResult::plain(decision))
}

fn failed(kind: DecisionSourceErrorKind) -> LookupOutcome<Payload> {
    LookupOutcome::Failed(DecisionSourceError::new(kind, "scripted failure"))
}

#[allow(dead_code)]
impl World {
    fn disconnected(config: PolicyGateConfig) -> World {
        let now = Instant::from_nanos(1_000_000_000);
        let gate = GateState::new(&config, now, Instant::last());
        let reconnect = Reconnect::new(&gate);
        World {
            gate,
            now,
            session: None,
            reconnect,
            replies: HashMap::new(),
            calls: 0,
            misses: 0,
            queue: VecDeque::new(),
            queue_capacity: config.refresh_queue_capacity(),
            events: Vec::new(),
        }
    }

    fn new(config: PolicyGateConfig) -> World {
        let mut world = World::disconnected(config);
        world.open_watch();
        world
    }

    fn open_watch(&mut self) {
        self.session = Some(WatchSession::open(&mut self.gate));
    }

    /// Closes the watch as the end of its stream does. Returns the delay before jitter.
    fn close_watch(&mut self) -> Duration {
        let stable = self.session.take().expect("an open watch").stable;
        self.reconnect
            .watch_ended(&mut self.gate, WatchOutcome::Closed { stable }, self.now)
    }

    fn item(&mut self, item: WatchItem) -> WatchStep {
        let mut session = self.session.take().expect("an open watch");
        let step = session.item_received(&mut self.gate, item, self.now);
        self.session = Some(session);
        step
    }

    fn change(&mut self, subject: u64, decision: Option<Decision>) -> WatchStep {
        self.item(Some(Ok(DecisionChange { subject, decision })))
    }

    fn advance(&mut self, by: u64) {
        self.now = Instant::from_nanos(self.now.nanos + u128::from(by) * 1_000_000);
    }

    fn reply(&mut self, subject: u64, outcome: LookupOutcome<Payload>) {
        self.replies.entry(subject).or_default().push_back(outcome);
    }

    /// Calls the source. Without a script it allows.
    fn call_source(&mut self, subject: u64) -> LookupOutcome<Payload> {
        self.calls += 1;
        self.gate.begin_lookup();
        self.replies
            .entry(subject)
            .or_default()
            .pop_front()
            .unwrap_or_else(|| found(Decision::Allowed))
    }

    fn finish_lookup(
        &mut self,
        subject: u64,
        entry: u64,
        generation: u64,
        outcome: LookupOutcome<Payload>,
    ) -> Result<(), DecisionSourceError> {
        let result = settle_lookup(outcome, self.now);
        self.gate
            .complete_fetch(subject, entry, generation, result, self.now)
    }

    /// First step of an admission that does not find the watch down.
    fn begin(&mut self, subject: u64) -> AdmitStep {
        let step = self.gate.begin_admission(subject, self.now);
        self.after_connection(step)
    }

    fn after_connection(&mut self, step: AdmitStep) -> AdmitStep {
        match step {
            AdmitStep::AwaitConnection(call) => {
                self.gate
                    .admit_after_connection(call, ConnectionWait::Connected, self.now)
            }
            other => other,
        }
    }

    /// Runs an admission to its end; waits move the clock.
    fn run(&mut self, mut step: AdmitStep) -> Option<Admission> {
        loop {
            step = match step {
                AdmitStep::Done(admission) => return admission,
                AdmitStep::AwaitConnection(call) => {
                    let wait = if self.gate.is_connected() && self.now.nanos < call.deadline.nanos {
                        ConnectionWait::Connected
                    } else {
                        self.now = call.deadline;
                        ConnectionWait::TimedOut
                    };
                    self.gate.admit_after_connection(call, wait, self.now)
                }
                AdmitStep::AwaitFetch {
                    call,
                    entry,
                    generation,
                } => {
                    let pending = self.gate.pending_operation(entry).expect("a lookup");
                    assert_eq!(pending.generation, generation);
                    if let Some(delay) = pending.delay {
                        self.now = Instant::from_nanos(self.now.nanos + delay.nanos);
                    }
                    let outcome = self.call_source(call.subject);
                    let result = self.finish_lookup(call.subject, entry, generation, outcome);
                    self.gate
                        .admit_after_fetch(call, entry, FetchWait::Ended(result), self.now)
                }
                AdmitStep::AwaitQueue {
                    call,
                    entry,
                    generation,
                    late,
                    ..
                } => {
                    let queued = self.enqueue(call.subject, entry, generation);
                    self.gate
                        .admit_after_queue(call, entry, generation, late, queued, self.now)
                }
                AdmitStep::Sleep { call, delay } => {
                    let end = self.now.nanos + delay.nanos;
                    if end >= call.deadline.nanos {
                        self.now = call.deadline;
                        self.gate.admit_after_sleep(call, SleepWait::TimedOut)
                    } else {
                        self.now = Instant::from_nanos(end);
                        self.gate.admit_after_sleep(call, SleepWait::Slept)
                    }
                }
            };
        }
    }

    /// Admits through the subject map.
    fn join(&mut self, subject: u64) -> Option<Admission> {
        let step = self.gate.begin_admission(subject, self.now);
        self.run(step)
    }

    fn allowed(&mut self, subject: u64) -> Admission {
        let admission = self.join(subject).expect("admission succeeds");
        assert!(self.is_allowed(admission), "subject must be allowed");
        admission
    }

    fn enqueue(&mut self, subject: u64, entry: u64, generation: u64) -> bool {
        if self.queue.len() < self.queue_capacity {
            self.queue.push_back((subject, entry, generation));
            true
        } else {
            false
        }
    }

    fn access(&mut self, subject: u64, access: Access) -> Option<Admission> {
        match access {
            Access::Unavailable => None,
            Access::Ready(admission) => Some(admission),
            Access::Enqueue {
                admission,
                generation,
                ..
            } => {
                let queued = self.enqueue(subject, admission.entry, generation);
                self.gate
                    .finish_access(admission.entry, generation, queued, self.now)
            }
        }
    }

    fn try_cached(&mut self, subject: u64) -> Option<Admission> {
        let access = self.gate.check(subject, self.now);
        self.access(subject, access)
    }

    fn refresh(&mut self, subject: u64, admission: Admission) {
        let access = self.gate.refresh_entry(subject, admission, self.now);
        self.access(subject, access);
    }

    /// Serves a request: from the snapshot, else through the map.
    fn serve(&mut self, subject: u64) -> Option<AdmissionState> {
        let admission = match self.try_cached(subject) {
            Some(admission) => Some(admission),
            None => {
                self.misses += 1;
                self.join(subject)
            }
        };
        admission.map(|admission| self.state(admission))
    }

    /// Runs the refreshes that wait for the watcher.
    fn run_queue(&mut self) {
        while let Some((subject, entry, generation)) = self.queue.pop_front() {
            let outcome = self.call_source(subject);
            let _ = self.finish_lookup(subject, entry, generation, outcome);
        }
    }

    fn state(&mut self, admission: Admission) -> AdmissionState {
        assert!(self.gate.is_admitted(admission.entry));
        admission.state(&mut self.gate, self.now)
    }

    fn check(&mut self, admission: Admission) -> (AdmissionState, bool) {
        admission.check(&mut self.gate, self.now)
    }

    fn is_allowed(&mut self, admission: Admission) -> bool {
        admission.is_allowed(&mut self.gate, self.now)
    }

    fn payload(&mut self, admission: Admission) -> Option<Payload> {
        admission
            .payload(&mut self.gate, self.now)
            .map(|payload| *payload)
    }

    fn count(&mut self, event: MetricEvent) -> usize {
        self.events.extend(self.gate.take_events());
        self.events.iter().filter(|seen| **seen == event).count()
    }
}

const PAYMENT_URL: &str = "https://pay.example.test/billing";

fn denied_message() -> String {
    format!(
        "Your organization has reached its cache usage limit. Visit {PAYMENT_URL} to review usage and restore access."
    )
}

fn default_config() -> PolicyGateConfig {
    PolicyGateConfig::builder()
        .unary_timeout(Duration::from_secs(1))
        .admission_timeout(Duration::from_secs(3))
        .build()
        .expect("valid config")
}

fn patient_config() -> PolicyGateConfig {
    PolicyGateConfig::builder()
        .unary_timeout(millis(1))
        .admission_timeout(millis(50))
        .permanent_failure_cooldown(Duration::zero())
        .build()
        .expect("valid config")
}

fn freshness_config() -> PolicyGateConfig {
    PolicyGateConfig::builder()
        .decision_freshness_ttl(millis(100))
        .build()
        .expect("valid config")
}

/// A frame of the wrapped body.
#[derive(Clone, Debug, PartialEq)]
enum Frame {
    Data(&'static str),
    Trailers,
}

/// What a poll of the enforced body came to.
#[derive(Clone, Debug, PartialEq)]
enum Polled {
    Pending,
    Frame(Frame),
    Rejected(StreamRejection),
    End,
}

/// An enforced body over a queue of frames. Its readmission runs by the poll.
struct Body {
    guard: BodyGuard,
    side: BodySide,
    frames: VecDeque<Frame>,
    closed: bool,
    bytes: usize,
    inner_polls: usize,
    readmission: Option<(AdmitStep, Instant)>,
    retry_at: Option<Instant>,
}

impl Body {
    fn new(admission: Admission, side: BodySide) -> Body {
        Body {
            guard: BodyGuard::new(A, admission),
            side,
            frames: VecDeque::new(),
            closed: false,
            bytes: 0,
            inner_polls: 0,
            readmission: None,
            retry_at: None,
        }
    }

    fn send(&mut self, data: &'static str) {
        self.frames.push_back(Frame::Data(data));
    }

    fn poll_inner(&mut self) -> Polled {
        self.inner_polls += 1;
        let (event, polled) = match self.frames.pop_front() {
            Some(Frame::Data(data)) => {
                self.bytes += data.len();
                (InnerPoll::Data, Polled::Frame(Frame::Data(data)))
            }
            Some(Frame::Trailers) => (InnerPoll::Trailers, Polled::Frame(Frame::Trailers)),
            None if self.closed => (InnerPoll::End, Polled::End),
            None => (InnerPoll::Pending, Polled::Pending),
        };
        self.guard.inner_polled(event);
        polled
    }

    fn poll(&mut self, world: &mut World, blocked: bool) -> Polled {
        assert!(world.gate.is_admitted(self.guard.admission.entry));
        let mut step = self.guard.poll_frame(&mut world.gate, world.now);
        loop {
            match step {
                BodyStep::End => return Polled::End,
                BodyStep::PollInner => return self.poll_inner(),
                BodyStep::PollReadmission { start } => {
                    if start {
                        let first = world.gate.begin_admission(A, world.now);
                        self.readmission = Some((first, world.now));
                        self.retry_at = None;
                    }
                    let poll = self.poll_readmission(world, blocked);
                    step = self
                        .guard
                        .readmission_polled(&mut world.gate, poll, world.now);
                }
                BodyStep::PollInnerRetrying { delay } => {
                    self.retry_at = Some(Instant::from_nanos(world.now.nanos + delay.nanos));
                    self.readmission = None;
                    return self.poll_inner();
                }
                BodyStep::Cutoff => {
                    return Polled::Rejected(
                        TonicRejectionResponse.stream_denied(self.side, &denied_message()),
                    );
                }
            }
        }
    }

    fn poll_readmission(&mut self, world: &mut World, blocked: bool) -> ReadmissionPoll {
        if let Some(at) = self.retry_at {
            if world.now.nanos < at.nanos {
                return ReadmissionPoll::Pending;
            }
            self.retry_at = None;
            self.readmission = Some((world.gate.begin_admission(A, world.now), world.now));
        }
        let (mut step, mut since) = self.readmission.take().expect("a readmission");
        loop {
            let next = match step {
                AdmitStep::Done(Some(admission)) => return ReadmissionPoll::Ready(admission),
                AdmitStep::Done(None) => return ReadmissionPoll::Failed,
                AdmitStep::AwaitConnection(call) => {
                    world
                        .gate
                        .admit_after_connection(call, ConnectionWait::Connected, world.now)
                }
                AdmitStep::AwaitFetch {
                    call,
                    entry,
                    generation,
                } => {
                    if blocked {
                        break;
                    }
                    let outcome = world.call_source(A);
                    let result = world.finish_lookup(A, entry, generation, outcome);
                    world
                        .gate
                        .admit_after_fetch(call, entry, FetchWait::Ended(result), world.now)
                }
                AdmitStep::AwaitQueue { .. } => panic!("no refresh is configured"),
                AdmitStep::Sleep { call, delay } => {
                    if world.now.nanos < since.nanos + delay.nanos {
                        break;
                    }
                    world.gate.admit_after_sleep(call, SleepWait::Slept)
                }
            };
            step = next;
            since = world.now;
        }
        self.readmission = Some((step, since));
        ReadmissionPoll::Pending
    }
}

fn data(value: &'static str) -> Polled {
    Polled::Frame(Frame::Data(value))
}

fn reconnect(world: &mut World) {
    world.close_watch();
    world.advance(125);
    world.open_watch();
}

/// Reads the status that ends a response body back from its trailers.
fn status_of(polled: Polled) -> tonic::Status {
    let Polled::Rejected(StreamRejection::Trailers(fields)) = polled else {
        panic!("the body must emit denial trailers");
    };
    let mut headers = http::HeaderMap::new();
    for field in fields {
        let value = http::HeaderValue::from_bytes(&field.value).expect("a header value");
        headers.insert(field.name, value);
    }
    tonic::Status::from_header_map(&headers).expect("gRPC status trailers")
}

fn assert_denied(polled: Polled) {
    let status = status_of(polled);
    assert_eq!(status.code(), tonic::Code::FailedPrecondition);
    assert_eq!(status.message(), denied_message());
}

fn reset() -> Polled {
    Polled::Rejected(StreamRejection::Error {
        code: 9,
        message: denied_message(),
    })
}

#[test]
fn wrapped_response_removes_exact_length_metadata() {
    let mut world = World::new(default_config());
    let admission = world.allowed(A);
    let body = Body::new(admission, BodySide::Response);
    assert!(!body.guard.is_end_stream());
    assert_eq!(body.guard.size_hint(), None);
}

#[test]
fn wrapped_response_latches_eof() {
    let mut world = World::new(default_config());
    let admission = world.allowed(A);
    let mut body = Body::new(admission, BodySide::Response);
    body.send("ok");
    body.closed = true;
    assert_eq!(body.poll(&mut world, false), data("ok"));
    assert_eq!(body.poll(&mut world, false), Polled::End);
    assert!(body.guard.is_end_stream());
    assert_eq!(body.guard.size_hint(), Some(0));
    world.change(A, Some(Decision::Denied));
    assert_eq!(
        body.poll(&mut world, false),
        Polled::End,
        "EOF remains terminal"
    );
    assert_eq!(world.count(MetricEvent::StreamCutoff), 0);
}

#[test]
fn wrapped_response_latches_terminal_trailers() {
    let mut world = World::new(default_config());
    let admission = world.allowed(A);
    let mut body = Body::new(admission, BodySide::Response);
    body.frames.push_back(Frame::Trailers);
    body.send("after-trailers");
    assert_eq!(body.poll(&mut world, false), Polled::Frame(Frame::Trailers));
    assert!(body.guard.is_end_stream());
    assert_eq!(
        body.poll(&mut world, false),
        Polled::End,
        "nothing follows trailers"
    );
}

#[test]
fn an_inner_error_does_not_end_the_body() {
    let mut world = World::new(default_config());
    let admission = world.allowed(A);
    let mut guard = BodyGuard::new(A, admission);
    guard.inner_polled(InnerPoll::Error);
    assert!(!guard.is_end_stream());
    guard.inner_polled(InnerPoll::End);
    assert!(guard.is_end_stream());
}

#[test]
fn read_is_cut_after_denial_with_trailers_and_metering_stops_at_the_cut() {
    let mut world = World::new(default_config());
    let admission = world.allowed(A);
    let mut body = Body::new(admission, BodySide::Response);
    body.send("one");
    assert_eq!(body.poll(&mut world, false), data("one"));
    body.send("two");
    assert_eq!(body.poll(&mut world, false), data("two"));
    world.change(A, Some(Decision::Denied));
    body.send("not-delivered");
    assert_denied(body.poll(&mut world, false));
    assert_eq!(body.poll(&mut world, false), Polled::End);
    assert_eq!(body.bytes, 6);
    assert_eq!(world.count(MetricEvent::StreamCutoff), 1);
}

#[test]
fn authority_changes_leave_idle_bodies_asleep_and_enforce_on_next_poll() {
    for change in [Some(Decision::Denied), None] {
        let mut world = World::new(default_config());
        world.reply(A, found(Decision::Allowed));
        world.reply(A, found(Decision::Denied));
        let admission = world.allowed(A);
        let mut request = Body::new(admission, BodySide::Request);
        let mut response = Body::new(admission, BodySide::Response);
        assert_eq!(request.poll(&mut world, false), Polled::Pending);
        assert_eq!(response.poll(&mut world, false), Polled::Pending);
        world.change(A, change);
        assert_eq!(world.calls, 1, "stale recovery starts on the next poll");
        request.send("blocked");
        response.send("blocked");
        assert_eq!(request.poll(&mut world, false), reset());
        assert_denied(response.poll(&mut world, false));
        assert_eq!(request.bytes, 0);
        assert_eq!(response.bytes, 0);
    }
}

#[test]
fn client_streaming_request_is_reset_after_denial() {
    let mut world = World::new(default_config());
    let admission = world.allowed(A);
    let mut body = Body::new(admission, BodySide::Request);
    body.send("one");
    assert_eq!(body.poll(&mut world, false), data("one"));
    world.change(A, Some(Decision::Denied));
    body.send("not-delivered");
    assert_eq!(body.poll(&mut world, false), reset());
    assert_eq!(body.poll(&mut world, false), Polled::End);
    assert_eq!(body.bytes, 3);
    assert_eq!(world.count(MetricEvent::StreamCutoff), 1);
}

#[test]
fn reconnect_keeps_stream_open_and_later_denial_of_refetched_entry_cuts_it() {
    let mut world = World::new(default_config());
    let admission = world.allowed(A);
    let mut body = Body::new(admission, BodySide::Response);
    body.send("before");
    assert_eq!(body.poll(&mut world, false), data("before"));
    reconnect(&mut world);
    body.send("after");
    assert_eq!(body.poll(&mut world, true), data("after"));
    assert!(body.guard.readmitting);
    body.send("adopted");
    assert_eq!(body.poll(&mut world, false), data("adopted"));
    assert!(!body.guard.readmitting);
    assert_ne!(body.guard.admission, admission);
    world.change(A, Some(Decision::Denied));
    assert_denied(body.poll(&mut world, false));
    assert_eq!(world.count(MetricEvent::StreamCutoff), 1);
    assert_eq!(world.calls, 2);
}

#[test]
fn permanent_readmission_failure_flows_during_the_cooldown() {
    let mut world = World::new(patient_config());
    world.reply(A, found(Decision::Allowed));
    for _ in 0..2 {
        world.reply(A, failed(DecisionSourceErrorKind::Permanent));
    }
    let admission = world.allowed(A);
    let mut body = Body::new(admission, BodySide::Response);
    reconnect(&mut world);
    for value in ["one", "two", "three"] {
        body.send(value);
        assert_eq!(body.poll(&mut world, false), data(value));
    }
    assert_eq!(world.calls, 2);
    world.advance(10);
    body.send("still-cooling");
    assert_eq!(body.poll(&mut world, false), data("still-cooling"));
    assert_eq!(world.calls, 2);
    world.advance(50);
    body.send("join-cooldown");
    assert_eq!(body.poll(&mut world, false), data("join-cooldown"));
    assert_eq!(world.calls, 3);
}

#[test]
fn idle_stale_stream_retries_readmission_after_a_failure() {
    let mut world = World::new(patient_config());
    world.reply(A, found(Decision::Allowed));
    world.reply(A, failed(DecisionSourceErrorKind::Permanent));
    world.reply(A, found(Decision::Denied));
    let admission = world.allowed(A);
    let mut body = Body::new(admission, BodySide::Response);
    reconnect(&mut world);
    body.send("starts-readmission");
    assert_eq!(body.poll(&mut world, false), data("starts-readmission"));
    assert_eq!(world.calls, 2);
    assert_eq!(body.poll(&mut world, false), Polled::Pending);
    world.advance(50);
    assert_denied(body.poll(&mut world, false));
    assert_eq!(world.calls, 3);
}

#[test]
fn stale_stream_is_cut_when_readmission_is_denied() {
    let mut world = World::new(default_config());
    world.reply(A, found(Decision::Allowed));
    world.reply(A, found(Decision::Denied));
    let admission = world.allowed(A);
    let mut body = Body::new(admission, BodySide::Response);
    reconnect(&mut world);
    body.send("not-delivered");
    assert_denied(body.poll(&mut world, false));
    assert_eq!(world.calls, 2);
    assert_eq!(world.count(MetricEvent::StreamCutoff), 1);
}

#[test]
fn event_does_not_revive_an_entry_removed_after_a_failed_readmission() {
    let mut world = World::new(default_config());
    world.reply(A, found(Decision::Allowed));
    world.reply(A, failed(DecisionSourceErrorKind::Transient));
    world.reply(A, found(Decision::Allowed));
    let admission = world.allowed(A);
    let mut body = Body::new(admission, BodySide::Response);
    reconnect(&mut world);
    body.send("starts-readmission");
    assert_eq!(body.poll(&mut world, true), data("starts-readmission"));
    body.send("failed");
    assert_eq!(body.poll(&mut world, false), data("failed"));
    assert_eq!(world.count(MetricEvent::AdmissionRetry), 1);
    // An event cannot revive the detached stale entry that the stream holds.
    world.change(A, Some(Decision::Allowed));
    assert_eq!(world.state(admission), AdmissionState::Stale);
    world.advance(100);
    body.send("refetched");
    assert_eq!(body.poll(&mut world, false), data("refetched"));
    assert_eq!(world.calls, 3, "the stale entry is not revived");
}

#[test]
fn idle_bodies_cut_off_expiry_on_the_next_poll_even_after_cached_readmission() {
    let mut world = World::new(freshness_config());
    let admission = world.allowed(A);
    let mut request = Body::new(admission, BodySide::Request);
    let mut response = Body::new(admission, BodySide::Response);
    assert_eq!(request.poll(&mut world, false), Polled::Pending);
    assert_eq!(response.poll(&mut world, false), Polled::Pending);
    let polls = (request.inner_polls, response.inner_polls);
    world.advance(100);
    assert_eq!(world.calls, 1);
    world.allowed(A);
    assert_eq!(world.calls, 2);
    request.send("blocked");
    response.send("blocked");
    assert_eq!(request.poll(&mut world, false), reset());
    assert_denied(response.poll(&mut world, false));
    assert_eq!((request.inner_polls, response.inner_polls), polls);
    assert_eq!(world.count(MetricEvent::StreamCutoff), 2);
    assert_eq!(world.calls, 2, "cutoff must not start readmission");
}

#[test]
fn expired_admission_cuts_off_without_attempting_readmission() {
    let mut world = World::new(freshness_config());
    let admission = world.allowed(A);
    let mut body = Body::new(admission, BodySide::Request);
    assert_eq!(body.poll(&mut world, false), Polled::Pending);
    world.advance(100);
    assert_eq!(body.poll(&mut world, false), reset());
    assert_eq!(
        world.calls, 1,
        "an expired admission must cut off without attempting readmission"
    );
}

#[test]
fn a_stale_body_adopts_what_the_snapshot_holds() {
    let mut world = World::new(default_config());
    let admission = world.allowed(A);
    let mut body = Body::new(admission, BodySide::Response);
    reconnect(&mut world);
    let fresh = world.allowed(A);
    body.send("adopted");
    assert_eq!(body.poll(&mut world, false), data("adopted"));
    assert_eq!(body.guard.admission, fresh);
    assert_eq!(world.calls, 2);
}

#[test]
fn a_stale_body_is_cut_by_a_denial_in_the_snapshot() {
    let mut world = World::new(default_config());
    let admission = world.allowed(A);
    let mut body = Body::new(admission, BodySide::Response);
    reconnect(&mut world);
    world.reply(A, found(Decision::Denied));
    world.join(A).expect("an answer");
    assert_denied(body.poll(&mut world, false));
    assert_eq!(world.calls, 2);
}

#[test]
fn the_layer_messages_reach_the_client() {
    let config = PolicyGateLayerConfig::new(&denied_message(), "subject is required");
    let rejection = TonicRejectionResponse.stream_denied(BodySide::Response, config.denied_message());
    assert_denied(Polled::Rejected(rejection));
}
