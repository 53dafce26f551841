//! Laws of the watch: its health, its backoff, its yields and what its end is counted as.

use vstd::prelude::*;

use crate::decision::DecisionSourceErrorKind;
use crate::gate::GateModel;
use crate::metrics::MetricEvent;
use crate::time::{Duration, Instant, MAX_SPAN_NANOS, NANOS_PER_MILLI};
use crate::watcher;
use crate::watcher::{
    DecisionSourceHealth, DecisionSourceHealthStatus, Reconnect, WatchOutcome, WatchSession,
    WatchStep,
};

verus! {

/// A watch that is stable counts as such at every instant.
pub proof fn a_stable_watch_is_healthy(health: DecisionSourceHealth, now: Instant)
    requires
        health.disconnected_since is None,
    ensures
        health.spec_status(now) == DecisionSourceHealthStatus::Stable,
{
}

/// An outage counts as a failure from exactly the admission timeout after its start on, and until
/// then as not yet stable.
pub proof fn an_outage_fails_after_the_admission_timeout(
    health: DecisionSourceHealth,
    since: Instant,
    now: Instant,
)
    requires
        health.disconnected_since == Some(since),
        since.nanos <= now.nanos,
    ensures
        health.spec_status(now) == DecisionSourceHealthStatus::Failed <==> now.nanos >= since.nanos
            + health.admission_timeout.nanos,
        health.spec_status(now) == DecisionSourceHealthStatus::NotYetStable <==> now.nanos
            < since.nanos + health.admission_timeout.nanos,
{
}

/// An outage that began after `now` is no failure yet, unless no outage is tolerated at all.
pub proof fn an_outage_ahead_is_no_failure(
    health: DecisionSourceHealth,
    since: Instant,
    now: Instant,
)
    requires
        health.disconnected_since == Some(since),
        now.nanos < since.nanos,
        health.admission_timeout.nanos > 0,
    ensures
        health.spec_status(now) == DecisionSourceHealthStatus::NotYetStable,
{
}

/// A gate is healthy from the moment its watch is stable until it is lost; the outage starts with
/// the loss.
pub proof fn an_outage_starts_with_the_loss<P>(
    gate: GateModel<P>,
    lost: Instant,
    admission_timeout: Duration,
    now: Instant,
)
    requires
        gate.disconnected_since is None,
        lost.nanos <= now.nanos,
    ensures
        ({
            let health = DecisionSourceHealth {
                disconnected_since: gate.lost(lost).disconnected_since,
                admission_timeout,
            };
            health.spec_status(now) == DecisionSourceHealthStatus::Failed <==> now.nanos
                >= lost.nanos + admission_timeout.nanos
        }),
        gate.opened().disconnected_since == gate.disconnected_since,
{
}

/// The watch is up from its opening to its loss, and each is counted.
pub proof fn the_watch_is_up_from_opening_to_loss<P>(gate: GateModel<P>, now: Instant)
    requires
        gate.wf(),
        gate.generation < u64::MAX,
    ensures
        gate.opened().connected,
        !gate.lost(now).connected,
        gate.opened().events == gate.events.push(MetricEvent::WatchConnected(true)),
        gate.lost(now).events == gate.events.push(MetricEvent::WatchConnected(false)),
        gate.opened().generation == gate.generation + 1,
        gate.lost(now).generation == gate.generation + 1,
        gate.lost(now).snapshot == Map::<u64, u64>::empty(),
        gate.opened().snapshot == Map::<u64, u64>::empty(),
        gate.opened().settings == gate.settings,
        gate.lost(now).settings == gate.settings,
{
}

/// The delay after a stable watch is the first one, after every other attempt the one that is due;
/// each delay is followed by twice itself, up to the ceiling.
pub proof fn a_delay_is_followed_by_twice_itself(reconnect: Reconnect, outcome: WatchOutcome)
    requires
        reconnect.wf(),
        reconnect.max.nanos <= MAX_SPAN_NANOS,
    ensures
        ({
            let delay = reconnect.delay_after(outcome);
            let next = reconnect.advanced(delay);
            &&& match outcome {
                WatchOutcome::Closed { stable: true } => delay == reconnect.initial,
                WatchOutcome::Closed { stable: false } => delay == reconnect.delay,
                WatchOutcome::OpenFailed(_) => delay == reconnect.delay,
                WatchOutcome::OpenTimedOut => delay == reconnect.delay,
            }
            &&& 2 * delay.nanos <= reconnect.max.nanos ==> next.delay.nanos == 2 * delay.nanos
            &&& 2 * delay.nanos > reconnect.max.nanos ==> next.delay.nanos == reconnect.max.nanos
            &&& next.initial == reconnect.initial
            &&& next.max == reconnect.max
        }),
{
}

/// The end of a watch is counted once, as a disconnect where it was open and as a failed opening
/// where it was not; a protocol violation on opening is counted besides.
pub proof fn the_end_of_a_watch_is_counted<P>(gate: GateModel<P>, outcome: WatchOutcome)
    ensures
        ({
            let after = watcher::outcome_counted(gate, outcome);
            &&& after.subjects == gate.subjects
            &&& after.snapshot == gate.snapshot
            &&& after.connected == gate.connected
            &&& match outcome {
                WatchOutcome::Closed { .. } => after.events == gate.events.push(
                    MetricEvent::WatchDisconnect,
                ),
                WatchOutcome::OpenTimedOut => after.events == gate.events.push(
                    MetricEvent::WatchOpenFailure,
                ),
                WatchOutcome::OpenFailed(error) => if error.spec_kind()
                    == DecisionSourceErrorKind::Wire {
                    after.events == gate.events.push(MetricEvent::WireFailure).push(
                        MetricEvent::WatchOpenFailure,
                    )
                } else {
                    after.events == gate.events.push(MetricEvent::WatchOpenFailure)
                },
            }
        }),
{
}

/// The watch after a number of changes and refreshes.
pub open spec fn after_work(session: WatchSession, count: nat) -> WatchSession
    decreases count,
{
    if count == 0 {
        session
    } else {
        after_work(session, (count - 1) as nat).worked().0
    }
}

/// Counted from a yield, the watch yields with every full budget of changes and refreshes, and with
/// no other: after `count` of them, the next one yields exactly where it fills a budget.
pub proof fn the_watch_yields_with_every_full_budget(session: WatchSession, count: nat)
    requires
        session.wf(),
        session.work_since_yield == 0,
    ensures
        after_work(session, count).wf(),
        after_work(session, count).work_per_yield == session.work_per_yield,
        after_work(session, count).work_since_yield == count as int
            % session.work_per_yield as int,
        after_work(session, count).stable == session.stable,
        after_work(session, count).refreshes == session.refreshes,
        after_work(session, count).worked().1 == WatchStep::Yield <==> (count as int + 1)
            % session.work_per_yield as int == 0,
        after_work(session, count).worked().1 == WatchStep::Yield || after_work(
            session,
            count,
        ).worked().1 == WatchStep::Continue,
    decreases count,
{
    let budget = session.work_per_yield as int;
    if count > 0 {
        the_watch_yields_with_every_full_budget(session, (count - 1) as nat);
    }
    lemma_next_remainder(count as int, budget);
    if count > 0 {
        lemma_next_remainder(count as int - 1, budget);
    } else {
        assert(0int % budget == 0) by (nonlinear_arith)
            requires
                budget > 0,
        ;
    }
}

proof fn lemma_next_remainder(count: int, budget: int)
    requires
        0 <= count,
        0 < budget,
    ensures
        0 <= count % budget < budget,
        (count + 1) % budget == if count % budget + 1 == budget {
            0
        } else {
            count % budget + 1
        },
{
    vstd::arithmetic::div_mod::lemma_fundamental_div_mod(count, budget);
    let q = count / budget;
    let r = count % budget;
    assert(0 <= r < budget) by (nonlinear_arith)
        requires
            r == count % budget,
            0 < budget,
    ;
    if r + 1 == budget {
        assert(count + 1 == budget * (q + 1)) by (nonlinear_arith)
            requires
                count == budget * q + r,
                r + 1 == budget,
        ;
        vstd::arithmetic::div_mod::lemma_fundamental_div_mod_converse(
            count + 1,
            budget,
            q + 1,
            0,
        );
    } else {
        vstd::arithmetic::div_mod::lemma_fundamental_div_mod_converse(
            count + 1,
            budget,
            q,
            r + 1,
        );
    }
}

/// A delay of less than two milliseconds is not spread.
pub proof fn a_short_delay_is_not_spread(delay: Duration, sample: u64)
    requires
        delay.nanos < 2 * NANOS_PER_MILLI,
    ensures
        watcher::jittered(delay, sample) == delay.nanos,
{
}

/// The samples spread a delay evenly: over half its whole milliseconds, in steps of one of them,
/// from a quarter below the delay on. One more than a sample gives one millisecond more, or starts
/// again from below.
pub proof fn the_samples_spread_a_delay_evenly(delay: Duration, sample: u64, millis: int)
    requires
        millis == delay.nanos as int / NANOS_PER_MILLI as int,
        2 <= millis <= u64::MAX,
        sample < u64::MAX,
    ensures
        watcher::jittered(delay, 0) == (millis - millis / 4) * NANOS_PER_MILLI,
        watcher::jittered(delay, (sample + 1) as u64) == watcher::jittered(delay, sample)
            + NANOS_PER_MILLI || (watcher::jittered(delay, (sample + 1) as u64)
            == watcher::jittered(delay, 0) && watcher::jittered(delay, sample)
            == watcher::jittered(delay, 0) + (millis / 2 - 1) * NANOS_PER_MILLI),
        watcher::jittered(delay, sample) >= watcher::jittered(delay, 0),
{
    let spread = millis / 2;
    lemma_next_remainder(sample as int, spread);
    assert(0int % spread == 0) by (nonlinear_arith)
        requires
            spread > 0,
    ;
}

} // verus!
