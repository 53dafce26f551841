//! Laws of enforced streams and of the waits between watches.

use vstd::prelude::*;

use crate::entry::Observed;
use crate::gate::GateModel;
use crate::metrics::MetricEvent;
use crate::stream::{BodyGuard, BodyStep, ReadmissionPoll};
use crate::time::{Duration, Instant, NANOS_PER_MILLI};
use crate::watcher;
use crate::watcher::{Reconnect, WatchOutcome};

verus! {

/// A body that has ended stays ended: a poll yields nothing and does nothing.
pub proof fn an_ended_body_stays_ended<P>(guard: BodyGuard, gate: GateModel<P>, now: Instant)
    requires
        guard.ended,
    ensures
        guard.polled(gate, now) == (guard, gate, BodyStep::End),
{
}

/// A denied or expired decision cuts the stream off at the next poll, before any more traffic.
pub proof fn a_denied_or_expired_stream_is_cut_off<P>(
    guard: BodyGuard,
    gate: GateModel<P>,
    now: Instant,
)
    requires
        !guard.ended,
        gate.observed(guard.admission.entry, now) == Observed::Denied || gate.observed(
            guard.admission.entry,
            now,
        ) == Observed::Expired,
    ensures
        guard.polled(gate, now).2 == BodyStep::Cutoff,
        guard.polled(gate, now).0.ended,
        guard.polled(gate, now).1.events == gate.events.push(MetricEvent::StreamCutoff),
{
}

/// An allowed decision lets the wrapped body go on.
pub proof fn an_allowed_stream_goes_on<P>(guard: BodyGuard, gate: GateModel<P>, now: Instant)
    requires
        !guard.ended,
        gate.observed(guard.admission.entry, now) == Observed::Allowed,
    ensures
        guard.polled(gate, now).0 == guard,
        guard.polled(gate, now).2 == BodyStep::PollInner,
        guard.polled(gate, now).1.events == gate.events,
{
}

/// A stream whose decision is merely unknown is not cut off for that: it goes on while a
/// readmission is tried, and a failed readmission is tried again after the admission timeout.
pub proof fn a_stale_stream_goes_on_while_readmission_is_tried<P>(
    guard: BodyGuard,
    gate: GateModel<P>,
    now: Instant,
)
    requires
        !guard.ended,
    ensures
        gate.observed(guard.admission.entry, now) == Observed::Stale && !gate.snapshot.contains_key(
            guard.subject,
        ) ==> guard.polled(gate, now).2 == (BodyStep::PollReadmission {
            start: !guard.readmitting,
        }) && !guard.polled(gate, now).0.ended,
        guard.readmitted(gate, ReadmissionPoll::Pending, now).2 == BodyStep::PollInner,
        guard.readmitted(gate, ReadmissionPoll::Failed, now).2 == (BodyStep::PollInnerRetrying {
            delay: gate.settings.admission_timeout,
        }),
{
}

/// An outage lasts until the watch is stable: a watch that opens and is lost again before that does
/// not start it anew.
pub proof fn a_flapping_watch_prolongs_its_outage<P>(
    gate: GateModel<P>,
    now: Instant,
    later: Instant,
)
    ensures
        gate.lost(now).disconnected_since is Some,
        gate.lost(now).opened().lost(later).disconnected_since
            == gate.lost(now).disconnected_since,
        gate.disconnected_since is Some ==> gate.lost(now).disconnected_since
            == gate.disconnected_since,
{
}

/// A jittered delay stays within a quarter of the delay on either side, to a millisecond.
pub proof fn jitter_stays_near_the_delay(delay: Duration, sample: u64)
    requires
        watcher::jitter_fits(delay),
        delay.nanos >= 2 * NANOS_PER_MILLI,
    ensures
        4 * watcher::jittered(delay, sample) >= (3 * watcher::delay_millis(delay))
            * NANOS_PER_MILLI,
        4 * watcher::jittered(delay, sample) < (5 * watcher::delay_millis(delay) + 4)
            * NANOS_PER_MILLI,
{
    let millis = watcher::delay_millis(delay);
    let spread = millis / 2;
    assert(spread >= 1);
    assert(0 <= sample as int % spread < spread) by (nonlinear_arith)
        requires
            spread >= 1,
    ;
}

/// A watch that was stable is followed by the first delay; every other attempt that fails doubles
/// the delay up to its ceiling.
pub proof fn the_reconnect_delay_doubles_up_to_its_ceiling(reconnect: Reconnect, outcome: WatchOutcome)
    requires
        reconnect.wf(),
        reconnect.max.nanos <= crate::time::MAX_SPAN_NANOS,
    ensures
        reconnect.initial.nanos <= reconnect.delay.nanos ==> {
            let delay = reconnect.delay_after(outcome);
            let next = reconnect.advanced(delay);
            &&& reconnect.initial.nanos <= delay.nanos <= next.delay.nanos <= reconnect.max.nanos
            &&& outcome == (WatchOutcome::Closed { stable: true }) ==> delay == reconnect.initial
        },
{
}

} // verus!
