//! Admission of one subject: a sequence of waits, each followed by one step of a gate.
//!
//! A step says what to wait for next. The caller waits, never past the deadline of the call, and
//! comes back with what happened. A lost race starts over at once; only a failed lookup takes the
//! retry backoff.

use vstd::prelude::*;

use crate::admission::Admission;
use crate::decision;
use crate::decision::DecisionSourceError;
use crate::entry::EntryState;
use crate::gate::{Access, GateModel, GateState};
use crate::metrics::MetricEvent;
use crate::subject_model;
use crate::subject_model::Removal;
use crate::time;
use crate::time::{Duration, Instant, MAX_SPAN_NANOS};

verus! {

/// What an admission keeps between its waits.
#[derive(Clone, Copy, Debug)]
pub struct AdmitCall {
    pub subject: u64,
    /// Instant at which the admission gives up.
    pub deadline: Instant,
    /// Delay before the next retry.
    pub retry_delay: Duration,
}

/// What an admission waits for, or its result.
#[derive(Clone, Copy, Debug)]
pub enum AdmitStep {
    /// Wait until the watch is up.
    AwaitConnection(AdmitCall),
    /// Wait for the lookup `generation` of `entry`, or a change of the connection.
    AwaitFetch { call: AdmitCall, entry: u64, generation: u64 },
    /// Hand the refresh `generation` to the watcher, waiting until `deadline` at most.
    AwaitQueue {
        call: AdmitCall,
        entry: u64,
        generation: u64,
        deadline: Instant,
        /// Whether the admission is over if its decision is gone after the wait.
        late: bool,
    },
    /// Wait for `delay` before the next attempt.
    Sleep { call: AdmitCall, delay: Duration },
    /// The admission is over.
    Done(Option<Admission>),
}

/// How the wait for the connection ended.
#[derive(Clone, Copy, Debug)]
pub enum ConnectionWait {
    Connected,
    /// The watcher is gone for good.
    Closed,
    TimedOut,
}

/// How the wait for a lookup ended.
#[derive(Debug)]
pub enum FetchWait {
    Ended(Result<(), DecisionSourceError>),
    /// The lookup no longer counts.
    Aborted,
    ConnectionChanged,
    TimedOut,
}

/// How a wait between attempts ended.
#[derive(Clone, Copy, Debug)]
pub enum SleepWait {
    Slept,
    TimedOut,
}

impl<P> GateModel<P> {
    /// State after an admission ran out of time.
    pub open spec fn timed_out(self) -> (GateModel<P>, AdmitStep) {
        (self.emit(MetricEvent::AdmissionTimeout), AdmitStep::Done(None))
    }

    /// Start of an admission of `subject` at `now`.
    pub open spec fn admit_begun(self, subject: u64, now: Instant) -> (GateModel<P>, AdmitStep) {
        let end = now.nanos + self.settings.admission_timeout.nanos;
        if end > self.clock_end.nanos {
            self.timed_out()
        } else {
            let call = AdmitCall {
                subject,
                deadline: Instant { nanos: end as u128 },
                retry_delay: self.settings.initial_admission_retry_delay,
            };
            (self, AdmitStep::AwaitConnection(call))
        }
    }

    /// Access to the decision of the entry `id` within an admission. Without one the admission
    /// starts over, or is over where it is `late`.
    pub open spec fn admit_accessed(self, call: AdmitCall, id: u64, late: bool, now: Instant) -> (
        GateModel<P>,
        AdmitStep,
    ) {
        let (after, access) = self.accessed(id, Some(call.deadline), now);
        match access {
            Access::Ready(admission) => (after, AdmitStep::Done(Some(admission))),
            Access::Enqueue { generation, deadline, .. } => (
                after,
                AdmitStep::AwaitQueue { call, entry: id, generation, deadline, late },
            ),
            Access::Unavailable => if late {
                after.timed_out()
            } else {
                (after, AdmitStep::AwaitConnection(call))
            },
        }
    }

    /// Attempt of an admission whose connection wait ended with the watch up.
    pub open spec fn admit_attempted(self, call: AdmitCall, now: Instant) -> (
        GateModel<P>,
        AdmitStep,
    ) {
        let id = self.subjects.joined_entry(call.subject);
        let joined = self.joined(call.subject, now);
        if now.nanos >= call.deadline.nanos {
            joined.timed_out()
        } else if !joined.connected {
            (
                joined.discarded(call.subject, id, now, Removal::Always),
                AdmitStep::AwaitConnection(call),
            )
        } else {
            let seen = joined.looked(id, now);
            match joined.subjects.live_state(id, now) {
                EntryState::Allowed | EntryState::Denied => seen.emit(
                    MetricEvent::MapHit,
                ).admit_accessed(call, id, false, now),
                EntryState::Pending => (
                    seen,
                    AdmitStep::AwaitFetch {
                        call,
                        entry: id,
                        generation: seen.subjects.table[id].pending->0.generation,
                    },
                ),
                EntryState::Stale => (
                    seen.discarded(call.subject, id, now, Removal::Stale).republished(now),
                    AdmitStep::AwaitConnection(call),
                ),
            }
        }
    }

    /// End of the wait of an admission for the connection.
    pub open spec fn admit_connected(self, call: AdmitCall, wait: ConnectionWait, now: Instant) -> (
        GateModel<P>,
        AdmitStep,
    ) {
        match wait {
            ConnectionWait::Connected => self.admit_attempted(call, now),
            ConnectionWait::Closed => (self, AdmitStep::Done(None)),
            ConnectionWait::TimedOut => self.timed_out(),
        }
    }

    /// End of the wait of an admission for the lookup of the entry `id`.
    pub open spec fn admit_fetched(self, call: AdmitCall, id: u64, wait: FetchWait, now: Instant) -> (
        GateModel<P>,
        AdmitStep,
    ) {
        match wait {
            FetchWait::Aborted | FetchWait::ConnectionChanged => (
                self,
                AdmitStep::AwaitConnection(call),
            ),
            FetchWait::TimedOut => self.admit_accessed(call, id, true, now),
            FetchWait::Ended(result) => if !self.connected {
                (self, AdmitStep::AwaitConnection(call))
            } else {
                let seen = self.looked(id, now);
                match self.subjects.live_state(id, now) {
                    EntryState::Allowed | EntryState::Denied => seen.admit_accessed(
                        call,
                        id,
                        false,
                        now,
                    ),
                    EntryState::Pending | EntryState::Stale => match result {
                        Ok(_) => (seen, AdmitStep::AwaitConnection(call)),
                        Err(error) => if decision::ends_admission(error.spec_kind()) {
                            (seen, AdmitStep::Done(None))
                        } else {
                            (
                                seen.emit(MetricEvent::AdmissionRetry),
                                AdmitStep::Sleep { call, delay: call.retry_delay },
                            )
                        },
                    },
                }
            },
        }
    }

    /// End of the wait of an admission for the refresh queue.
    pub open spec fn admit_queued(
        self,
        call: AdmitCall,
        id: u64,
        generation: u64,
        late: bool,
        queued: bool,
        now: Instant,
    ) -> (GateModel<P>, AdmitStep) {
        let after = self.access_finished(id, generation, queued, now);
        if self.subjects.verdict(id, now) is Some {
            (after, AdmitStep::Done(Some(Admission { entry: id })))
        } else if late {
            after.timed_out()
        } else {
            (after, AdmitStep::AwaitConnection(call))
        }
    }

    /// Delay of the retry after one that took `delay`: twice as long, up to the ceiling.
    pub open spec fn next_retry_delay(self, delay: Duration) -> int {
        time::least(
            time::least(2 * delay.nanos, MAX_SPAN_NANOS as int),
            self.settings.max_admission_retry_delay.nanos as int,
        )
    }

    /// End of the wait of an admission between two attempts.
    pub open spec fn admit_slept(self, call: AdmitCall, wait: SleepWait) -> (
        GateModel<P>,
        AdmitStep,
    ) {
        match wait {
            SleepWait::TimedOut => self.timed_out(),
            SleepWait::Slept => (
                self,
                AdmitStep::AwaitConnection(
                    AdmitCall {
                        retry_delay: Duration {
                            nanos: self.next_retry_delay(call.retry_delay) as u128,
                        },
                        ..call
                    },
                ),
            ),
        }
    }
}

impl<P> GateState<P> {
    fn admission_timed_out(&mut self) -> (step: AdmitStep)
        ensures
            (final(self)@, step) == old(self)@.timed_out(),
    {
        self.emit(MetricEvent::AdmissionTimeout);
        AdmitStep::Done(None)
    }

    /// Starts an admission of `subject`.
    pub fn begin_admission(&mut self, subject: u64, now: Instant) -> (step: AdmitStep)
        ensures
            (final(self)@, step) == old(self)@.admit_begun(subject, now),
    {
        let deadline = match now.checked_add(self.admission_timeout(), self.clock_end()) {
            Some(deadline) => deadline,
            None => {
                return self.admission_timed_out();
            },
        };
        let retry_delay = self.initial_admission_retry_delay();
        AdmitStep::AwaitConnection(AdmitCall { subject, deadline, retry_delay })
    }

    fn admit_access(&mut self, call: AdmitCall, id: u64, late: bool, now: Instant) -> (step:
        AdmitStep)
        requires
            old(self)@.wf(),
            old(self)@.subjects.next_id < u64::MAX,
        ensures
            final(self)@.wf(),
            (final(self)@, step) == old(self)@.admit_accessed(call, id, late, now),
    {
        match self.admission_on_access(id, Some(call.deadline), now) {
            Access::Ready(admission) => AdmitStep::Done(Some(admission)),
            Access::Enqueue { generation, deadline, .. } => AdmitStep::AwaitQueue {
                call,
                entry: id,
                generation,
                deadline,
                late,
            },
            Access::Unavailable => if late {
                self.admission_timed_out()
            } else {
                AdmitStep::AwaitConnection(call)
            },
        }
    }

    /// Goes on after the wait for the connection: serves the cached verdict or asks for a lookup.
    pub fn admit_after_connection(&mut self, call: AdmitCall, wait: ConnectionWait, now: Instant) -> (
    step: AdmitStep)
        requires
            old(self)@.wf(),
            old(self)@.ready(now),
        ensures
            final(self)@.wf(),
            (final(self)@, step) == old(self)@.admit_connected(call, wait, now),
    {
        match wait {
            ConnectionWait::Connected => {},
            ConnectionWait::Closed => {
                return AdmitStep::Done(None);
            },
            ConnectionWait::TimedOut => {
                return self.admission_timed_out();
            },
        }
        let id: u64 = self.join(call.subject, now);
        if now.nanos >= call.deadline.nanos {
            return self.admission_timed_out();
        }
        if !self.is_connected() {
            self.discard(call.subject, id, now, Removal::Always);
            return AdmitStep::AwaitConnection(call);
        }
        proof {
            subject_model::lemma_looked(self@.subjects, id, now);
            subject_model::lemma_latched(self@.subjects.table[id], now);
        }
        match self.state_at(id, now) {
            EntryState::Allowed | EntryState::Denied => {
                self.emit(MetricEvent::MapHit);
                self.admit_access(call, id, false, now)
            },
            EntryState::Pending => match self.pending_operation(id) {
                Some(pending) => AdmitStep::AwaitFetch {
                    call,
                    entry: id,
                    generation: pending.generation,
                },
                None => AdmitStep::AwaitConnection(call),
            },
            EntryState::Stale => {
                self.discard(call.subject, id, now, Removal::Stale);
                self.republish_if_due(now);
                AdmitStep::AwaitConnection(call)
            },
        }
    }

    /// Goes on after the wait for the lookup of the entry `id`.
    pub fn admit_after_fetch(&mut self, call: AdmitCall, id: u64, wait: FetchWait, now: Instant) -> (
    step: AdmitStep)
        requires
            old(self)@.wf(),
            old(self)@.subjects.next_id < u64::MAX,
        ensures
            final(self)@.wf(),
            (final(self)@, step) == old(self)@.admit_fetched(call, id, wait, now),
    {
        let result = match wait {
            FetchWait::Ended(result) => result,
            FetchWait::Aborted | FetchWait::ConnectionChanged => {
                return AdmitStep::AwaitConnection(call);
            },
            FetchWait::TimedOut => {
                return self.admit_access(call, id, true, now);
            },
        };
        if !self.is_connected() {
            return AdmitStep::AwaitConnection(call);
        }
        match self.state_at(id, now) {
            EntryState::Allowed | EntryState::Denied => {
                return self.admit_access(call, id, false, now);
            },
            EntryState::Pending | EntryState::Stale => {},
        }
        match result {
            Ok(_) => AdmitStep::AwaitConnection(call),
            Err(error) => {
                if decision::is_permanent_status(&error) {
                    return AdmitStep::Done(None);
                }
                self.emit(MetricEvent::AdmissionRetry);
                AdmitStep::Sleep { call, delay: call.retry_delay }
            },
        }
    }

    /// Goes on after the wait for the refresh queue.
    pub fn admit_after_queue(
        &mut self,
        call: AdmitCall,
        id: u64,
        generation: u64,
        late: bool,
        queued: bool,
        now: Instant,
    ) -> (step: AdmitStep)
        requires
            old(self)@.wf(),
        ensures
            final(self)@.wf(),
            (final(self)@, step) == old(self)@.admit_queued(
                call,
                id,
                generation,
                late,
                queued,
                now,
            ),
    {
        match self.finish_access(id, generation, queued, now) {
            Some(admission) => AdmitStep::Done(Some(admission)),
            None => if late {
                self.admission_timed_out()
            } else {
                AdmitStep::AwaitConnection(call)
            },
        }
    }

    /// Goes on after the wait between two attempts.
    pub fn admit_after_sleep(&mut self, call: AdmitCall, wait: SleepWait) -> (step: AdmitStep)
        ensures
            (final(self)@, step) == old(self)@.admit_slept(call, wait),
    {
        match wait {
            SleepWait::TimedOut => self.admission_timed_out(),
            SleepWait::Slept => {
                let retry_delay = call.retry_delay.saturating_double().at_most(
                    self.max_admission_retry_delay(),
                );
                AdmitStep::AwaitConnection(AdmitCall { retry_delay, ..call })
            },
        }
    }
}

} // verus!
