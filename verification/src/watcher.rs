//! The watch over the authority's changes: what each of its events does to a gate, and when it is
//! opened again.

use rand::RngCore;
use vstd::prelude::*;

use crate::decision::{DecisionChange, DecisionSourceError, DecisionSourceErrorKind};
use crate::gate::{GateModel, GateState};
use crate::metrics::MetricEvent;
use crate::time;
use crate::time::{Duration, Instant, MAX_SPAN_NANOS, NANOS_PER_MILLI};

verus! {

/// Health derived from decision-source watch connectivity.
#[derive(Clone, Copy, Debug, PartialEq, Eq, Structural)]
pub enum DecisionSourceHealthStatus {
    /// The watch has stayed open long enough to be considered reliable.
    Stable,
    /// The watch is down, or has reopened too recently to count as stable, but not for long
    /// enough to be treated as failed.
    ///
    /// Admissions may still succeed. Every process starts here.
    NotYetStable,
    /// The watch has gone without a stable connection for at least the admission timeout.
    ///
    /// Admissions are timing out, or a flapping connection is keeping the watch from ever settling.
    Failed,
}

/// Health indicator derived from decision-source watch connectivity.
#[derive(Clone, Copy, Debug, PartialEq, Eq)]
pub struct DecisionSourceHealth {
    /// Since when the watch has not been stable.
    pub disconnected_since: Option<Instant>,
    /// How long that may last before it counts as a failure.
    pub admission_timeout: Duration,
}

impl DecisionSourceHealth {
    /// Watch health at `now`.
    pub open spec fn spec_status(self, now: Instant) -> DecisionSourceHealthStatus {
        match self.disconnected_since {
            None => DecisionSourceHealthStatus::Stable,
            Some(since) => if time::monus(now.nanos as int, since.nanos as int)
                >= self.admission_timeout.nanos {
                DecisionSourceHealthStatus::Failed
            } else {
                DecisionSourceHealthStatus::NotYetStable
            },
        }
    }

    /// Returns the decision-source watch health at `now`.
    ///
    /// A watch counts as stable only after it stays open for the longest reconnect delay, which
    /// keeps a flapping connection from reporting healthy between drops.
    pub fn status(&self, now: Instant) -> (status: DecisionSourceHealthStatus)
        ensures
            status == self.spec_status(now),
    {
        match self.disconnected_since {
            None => DecisionSourceHealthStatus::Stable,
            Some(since) => if now.saturating_duration_since(since).nanos
                >= self.admission_timeout.nanos {
                DecisionSourceHealthStatus::Failed
            } else {
                DecisionSourceHealthStatus::NotYetStable
            },
        }
    }
}

impl<P> GateState<P> {
    /// Connectivity of this gate's watch.
    pub fn health(&self) -> (health: DecisionSourceHealth)
        ensures
            health.disconnected_since == self@.disconnected_since,
            health.admission_timeout == self@.settings.admission_timeout,
    {
        DecisionSourceHealth {
            disconnected_since: self.disconnected_since(),
            admission_timeout: self.admission_timeout(),
        }
    }
}

/// Item of the authority's change stream; `None` is the end of the stream.
pub type WatchItem = Option<Result<DecisionChange<u64>, DecisionSourceError>>;

/// What an open watch does next.
#[derive(Clone, Copy, Debug, PartialEq, Eq, Structural)]
pub enum WatchStep {
    /// Wait for the next event.
    Continue,
    /// Yield to the async runtime, then wait for the next event.
    Yield,
    /// The watch is over.
    Closed {
        /// Whether it stayed open long enough to count as stable.
        stable: bool,
    },
}

/// An open watch.
#[derive(Clone, Copy, Debug)]
pub struct WatchSession {
    /// Whether the watch has stayed open long enough to count as stable.
    pub stable: bool,
    pub work_since_yield: usize,
    /// Number of changes and refreshes between two yields.
    pub work_per_yield: usize,
    /// Number of background refreshes that the watch runs.
    pub refreshes: usize,
    /// Number of background refreshes that the watch runs at most.
    pub max_refreshes: usize,
}

impl WatchSession {
    /// What holds of every open watch.
    pub open spec fn wf(self) -> bool {
        &&& self.work_since_yield < self.work_per_yield
        &&& self.refreshes <= self.max_refreshes
        &&& 0 < self.max_refreshes
    }

    /// The watch after one more change or refresh: it yields at the end of each budget.
    pub open spec fn worked(self) -> (WatchSession, WatchStep) {
        if self.work_since_yield + 1 == self.work_per_yield {
            (WatchSession { work_since_yield: 0, ..self }, WatchStep::Yield)
        } else {
            (
                WatchSession { work_since_yield: (self.work_since_yield + 1) as usize, ..self },
                WatchStep::Continue,
            )
        }
    }

    fn work(&mut self) -> (step: WatchStep)
        requires
            old(self).wf(),
        ensures
            final(self).wf(),
            (*final(self), step) == old(self).worked(),
    {
        self.work_since_yield = self.work_since_yield + 1;
        if self.work_since_yield == self.work_per_yield {
            self.work_since_yield = 0;
            WatchStep::Yield
        } else {
            WatchStep::Continue
        }
    }

    /// Takes up a watch that the source has just opened.
    pub fn open<P>(gate: &mut GateState<P>) -> (session: WatchSession)
        requires
            old(gate)@.wf(),
            old(gate)@.generation < u64::MAX,
        ensures
            final(gate)@.wf(),
            final(gate)@ == old(gate)@.opened(),
            session == (WatchSession {
                stable: false,
                work_since_yield: 0,
                work_per_yield: old(gate)@.settings.watch_events_per_yield,
                refreshes: 0,
                max_refreshes: old(gate)@.settings.refresh_queue_capacity,
            }),
            session.wf(),
    {
        gate.watch_connected();
        WatchSession {
            stable: false,
            work_since_yield: 0,
            work_per_yield: gate.watch_events_per_yield(),
            refreshes: 0,
            max_refreshes: gate.refresh_queue_capacity(),
        }
    }

    /// The watch has stayed open for the longest reconnect delay.
    pub fn stability_reached<P>(&mut self, gate: &mut GateState<P>)
        requires
            old(self).wf(),
        ensures
            final(self).wf(),
            *final(self) == (WatchSession { stable: true, ..*old(self) }),
            final(gate)@ == (GateModel { disconnected_since: None, ..old(gate)@ }),
            old(gate)@.wf() ==> final(gate)@.wf(),
    {
        self.stable = true;
        gate.watch_stable();
    }

    /// Returns whether the watch takes one more refresh from the queue.
    pub fn accepts_refresh(&self) -> (accepts: bool)
        ensures
            accepts == (self.refreshes < self.max_refreshes),
    {
        self.refreshes < self.max_refreshes
    }

    /// A background refresh has left the queue and runs.
    pub fn refresh_started(&mut self)
        requires
            old(self).wf(),
            old(self).refreshes < old(self).max_refreshes,
        ensures
            final(self).wf(),
            *final(self) == (WatchSession {
                refreshes: (old(self).refreshes + 1) as usize,
                ..*old(self)
            }),
    {
        self.refreshes = self.refreshes + 1;
    }

    /// A background refresh has ended.
    pub fn refresh_ended(&mut self) -> (step: WatchStep)
        requires
            old(self).wf(),
            0 < old(self).refreshes,
        ensures
            final(self).wf(),
            (*final(self), step) == (WatchSession {
                refreshes: (old(self).refreshes - 1) as usize,
                ..*old(self)
            }).worked(),
    {
        self.refreshes = self.refreshes - 1;
        self.work()
    }

    /// The change stream has yielded `item`.
    ///
    /// A change is applied; a failure or the end of the stream closes the watch.
    pub fn item_received<P>(&mut self, gate: &mut GateState<P>, item: WatchItem, now: Instant) -> (
    step: WatchStep)
        requires
            old(self).wf(),
            old(gate)@.wf(),
            old(gate)@.clock_fits(now),
        ensures
            final(self).wf(),
            final(gate)@.wf(),
            match item {
                Some(Ok(change)) => {
                    &&& final(gate)@ == old(gate)@.changed(
                        change.subject,
                        change.decision,
                        now,
                    ).emit(MetricEvent::WatchEvent)
                    &&& (*final(self), step) == old(self).worked()
                },
                Some(Err(error)) => {
                    &&& final(gate)@ == if error.spec_kind() == DecisionSourceErrorKind::Wire {
                        old(gate)@.emit(MetricEvent::WireFailure)
                    } else {
                        old(gate)@
                    }
                    &&& *final(self) == *old(self)
                    &&& step == (WatchStep::Closed { stable: old(self).stable })
                },
                None => {
                    &&& final(gate)@ == old(gate)@
                    &&& *final(self) == *old(self)
                    &&& step == (WatchStep::Closed { stable: old(self).stable })
                },
            },
    {
        match decode_watch_item(item, gate) {
            Some(change) => {
                gate.apply_change(change, now);
                gate.emit(MetricEvent::WatchEvent);
                self.work()
            },
            None => WatchStep::Closed { stable: self.stable },
        }
    }
}

/// Returns the change that the stream yielded, and counts a protocol violation.
pub fn decode_watch_item<P>(item: WatchItem, gate: &mut GateState<P>) -> (change: Option<
    DecisionChange<u64>,
>)
    ensures
        match item {
            Some(Ok(expected)) => change == Some(expected) && final(gate)@ == old(gate)@,
            Some(Err(error)) => change is None && final(gate)@ == if error.spec_kind()
                == DecisionSourceErrorKind::Wire {
                old(gate)@.emit(MetricEvent::WireFailure)
            } else {
                old(gate)@
            },
            None => change is None && final(gate)@ == old(gate)@,
        },
{
    match item {
        Some(Ok(change)) => Some(change),
        Some(Err(error)) => {
            if error.kind() == DecisionSourceErrorKind::Wire {
                gate.emit(MetricEvent::WireFailure);
            }
            None
        },
        None => None,
    }
}

/// How an attempt to watch the source ended.
#[derive(Debug)]
pub enum WatchOutcome {
    /// The watch was open and has closed.
    Closed { stable: bool },
    /// The source refused to open the watch.
    OpenFailed(DecisionSourceError),
    /// The watch did not open within the admission timeout.
    OpenTimedOut,
}

/// Backoff between two attempts to watch the source.
#[derive(Clone, Copy, Debug, PartialEq, Eq, Structural)]
pub struct Reconnect {
    /// Delay before the next attempt, before jitter.
    pub delay: Duration,
    pub initial: Duration,
    pub max: Duration,
}

impl Reconnect {
    /// What holds of every backoff: the delay is never longer than its ceiling.
    pub open spec fn wf(self) -> bool {
        &&& 0 < self.initial.nanos <= self.max.nanos
        &&& 0 < self.delay.nanos <= self.max.nanos
    }

    /// Delay after an attempt that ended in this way.
    pub open spec fn delay_after(self, outcome: WatchOutcome) -> Duration {
        if outcome matches WatchOutcome::Closed { stable } && stable {
            self.initial
        } else {
            self.delay
        }
    }

    /// The backoff once that delay has been waited out.
    pub open spec fn advanced(self, delay: Duration) -> Reconnect {
        Reconnect {
            delay: Duration {
                nanos: time::least(
                    time::least(2 * delay.nanos, MAX_SPAN_NANOS as int),
                    self.max.nanos as int,
                ) as u128,
            },
            ..self
        }
    }

    /// Backoff of a gate that has not been watched yet.
    pub fn new<P>(gate: &GateState<P>) -> (reconnect: Reconnect)
        ensures
            reconnect.wf(),
            reconnect.delay == gate@.settings.initial_reconnect_delay,
            reconnect.initial == gate@.settings.initial_reconnect_delay,
            reconnect.max == gate@.settings.max_reconnect_delay,
    {
        let initial = gate.initial_reconnect_delay();
        Reconnect { delay: initial, initial, max: gate.max_reconnect_delay() }
    }

    /// How long the source may take to open the watch: as long as an admission.
    pub fn open_timeout<P>(gate: &GateState<P>) -> (timeout: Duration)
        ensures
            timeout == gate@.settings.admission_timeout,
    {
        gate.admission_timeout()
    }

    /// How long a watch stays open before it counts as stable: the longest delay.
    pub fn stability_delay(&self) -> (delay: Duration)
        ensures
            delay == self.max,
    {
        self.max
    }

    /// Ends an attempt to watch the source. Returns the delay before the next one, before jitter.
    pub fn watch_ended<P>(
        &mut self,
        gate: &mut GateState<P>,
        outcome: WatchOutcome,
        now: Instant,
    ) -> (delay: Duration)
        requires
            old(self).wf(),
            old(gate)@.wf(),
            old(gate)@.generation < u64::MAX,
        ensures
            final(self).wf(),
            final(gate)@.wf(),
            final(gate)@ == outcome_counted(old(gate)@, outcome).lost(now),
            delay == old(self).delay_after(outcome),
            *final(self) == old(self).advanced(delay),
    {
        match outcome {
            WatchOutcome::Closed { stable } => {
                if stable {
                    self.delay = self.initial;
                }
                gate.emit(MetricEvent::WatchDisconnect);
            },
            WatchOutcome::OpenFailed(error) => {
                if error.kind() == DecisionSourceErrorKind::Wire {
                    gate.emit(MetricEvent::WireFailure);
                }
                gate.emit(MetricEvent::WatchOpenFailure);
            },
            WatchOutcome::OpenTimedOut => {
                gate.emit(MetricEvent::WatchOpenFailure);
            },
        }
        gate.watch_disconnected(now);
        let delay = self.delay;
        self.delay = delay.saturating_double().at_most(self.max);
        delay
    }
}

/// State with the metric events of a watch that ended in this way.
pub open spec fn outcome_counted<P>(gate: GateModel<P>, outcome: WatchOutcome) -> GateModel<P> {
    match outcome {
        WatchOutcome::Closed { .. } => gate.emit(MetricEvent::WatchDisconnect),
        WatchOutcome::OpenFailed(error) => if error.spec_kind() == DecisionSourceErrorKind::Wire {
            gate.emit(MetricEvent::WireFailure).emit(MetricEvent::WatchOpenFailure)
        } else {
            gate.emit(MetricEvent::WatchOpenFailure)
        },
        WatchOutcome::OpenTimedOut => gate.emit(MetricEvent::WatchOpenFailure),
    }
}

/// Whole milliseconds of a delay.
pub open spec fn delay_millis(delay: Duration) -> int {
    time::least(delay.nanos as int / NANOS_PER_MILLI as int, u64::MAX as int)
}

/// Whether every jittered form of `delay` has its milliseconds in 64 bits.
pub open spec fn jitter_fits(delay: Duration) -> bool {
    let spread = delay_millis(delay) / 2;
    delay_millis(delay) - spread / 2 + spread - 1 <= u64::MAX
}

/// `delay` spread by half its length around itself, as `sample` falls. A delay too short to be
/// spread in milliseconds stays as it is.
pub open spec fn jittered(delay: Duration, sample: u64) -> int {
    let millis = delay_millis(delay);
    let spread = millis / 2;
    if spread == 0 {
        delay.nanos as int
    } else {
        (millis - spread / 2 + sample as int % spread) * NANOS_PER_MILLI
    }
}

/// Spreads `delay` by what `sample` says.
pub fn jitter_with(delay: Duration, sample: u64) -> (spread_delay: Duration)
    requires
        jitter_fits(delay),
    ensures
        spread_delay.nanos == jittered(delay, sample),
{
    let whole: u128 = delay.nanos / 1_000_000;
    let millis: u64 = if whole <= 0xffff_ffff_ffff_ffffu128 {
        whole as u64
    } else {
        u64::MAX
    };
    let spread: u64 = millis / 2;
    if spread == 0 {
        return delay;
    }
    Duration::from_millis(millis - spread / 2 + sample % spread)
}

/// `RngCore::next_u64` of `rand::rng`: a random number, of which nothing is claimed.
#[verifier::external_body]
fn random_sample() -> (sample: u64) {
    rand::rng().next_u64()
}

/// Whether the random number generator may have drawn `sample`.
pub closed spec fn drawn(sample: u64) -> bool {
    call_ensures(random_sample, (), sample)
}

/// Spreads `delay` at random, so that many processes do not reconnect together.
pub fn jitter(delay: Duration) -> (spread_delay: Duration)
    requires
        jitter_fits(delay),
    ensures
        exists|sample: u64| #[trigger]
            drawn(sample) && spread_delay.nanos == jittered(delay, sample),
{
    let sample: u64 = random_sample();
    assert(drawn(sample));
    jitter_with(delay, sample)
}

} // verus!
