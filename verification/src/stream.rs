//! Enforcement of one request or response body: what each poll of the body does.
//!
//! A poll looks at the admission first. No change of a decision wakes an idle body.

use vstd::prelude::*;

use crate::admission::Admission;
use crate::decision::Decision;
use crate::entry::Observed;
use crate::gate::{GateModel, GateState};
use crate::metrics::MetricEvent;
use crate::subject_model;
use crate::time::{Duration, Instant};

verus! {

/// What a poll of an enforced body does next.
#[derive(Clone, Copy, Debug, PartialEq, Eq, Structural)]
pub enum BodyStep {
    /// The body has ended.
    End,
    /// Poll the wrapped body and return what it yields.
    PollInner,
    /// Poll the readmission once, starting it first where `start` says so.
    PollReadmission { start: bool },
    /// Start a readmission after `delay`, then poll the wrapped body.
    PollInnerRetrying { delay: Duration },
    /// Cut the stream off with the rendered rejection.
    Cutoff,
}

/// How a poll of the readmission went.
#[derive(Clone, Copy, Debug)]
pub enum ReadmissionPoll {
    Pending,
    /// No authoritative decision was available.
    Failed,
    Ready(Admission),
}

/// What a poll of the wrapped body yielded.
#[derive(Clone, Copy, Debug)]
pub enum InnerPoll {
    Pending,
    Data,
    Trailers,
    Error,
    End,
}

/// Enforcement state of one body.
#[derive(Clone, Copy, Debug, PartialEq, Eq, Structural)]
pub struct BodyGuard {
    pub subject: u64,
    pub admission: Admission,
    /// Whether a readmission is under way.
    pub readmitting: bool,
    pub ended: bool,
}

impl BodyGuard {
    /// The body after its stream was cut off.
    pub open spec fn cut(self) -> BodyGuard {
        BodyGuard { ended: true, ..self }
    }

    /// Check of the admission at `now`, with a readmission under way or not.
    ///
    /// An allowed admission lets the wrapped body go on, a denied or expired one cuts the stream
    /// off. A stale one is replaced by what the snapshot holds, else by a readmission.
    pub open spec fn checked<P>(self, gate: GateModel<P>, now: Instant) -> (
        BodyGuard,
        GateModel<P>,
        BodyStep,
    ) {
        let seen = gate.looked(self.admission.entry, now);
        match gate.observed(self.admission.entry, now) {
            Observed::Allowed => (self, seen, BodyStep::PollInner),
            Observed::Denied | Observed::Expired => (
                self.cut(),
                seen.emit(MetricEvent::StreamCutoff),
                BodyStep::Cutoff,
            ),
            Observed::Stale => {
                let (peeked, cached) = seen.peeked(self.subject, now);
                match cached {
                    Some(admission) => if peeked.subjects.verdict(admission.entry, now) == Some(
                        Decision::Allowed,
                    ) {
                        (
                            BodyGuard { admission, readmitting: false, ..self },
                            peeked,
                            BodyStep::PollInner,
                        )
                    } else {
                        (
                            (BodyGuard { readmitting: false, ..self }).cut(),
                            peeked.emit(MetricEvent::StreamCutoff),
                            BodyStep::Cutoff,
                        )
                    },
                    None => (
                        BodyGuard { readmitting: true, ..self },
                        peeked,
                        BodyStep::PollReadmission { start: !self.readmitting },
                    ),
                }
            },
        }
    }

    /// Poll of the body at `now`.
    pub open spec fn polled<P>(self, gate: GateModel<P>, now: Instant) -> (
        BodyGuard,
        GateModel<P>,
        BodyStep,
    ) {
        if self.ended {
            (self, gate, BodyStep::End)
        } else {
            self.checked(gate, now)
        }
    }

    /// End of a poll of the readmission at `now`.
    pub open spec fn readmitted<P>(self, gate: GateModel<P>, poll: ReadmissionPoll, now: Instant) -> (
        BodyGuard,
        GateModel<P>,
        BodyStep,
    ) {
        match poll {
            ReadmissionPoll::Pending => (self, gate, BodyStep::PollInner),
            ReadmissionPoll::Failed => (
                BodyGuard { readmitting: true, ..self },
                gate,
                BodyStep::PollInnerRetrying { delay: gate.settings.admission_timeout },
            ),
            ReadmissionPoll::Ready(admission) => {
                let seen = gate.looked(admission.entry, now);
                let idle = BodyGuard { readmitting: false, ..self };
                match gate.subjects.verdict(admission.entry, now) {
                    Some(Decision::Allowed) => (
                        BodyGuard { admission, ..idle },
                        seen,
                        BodyStep::PollInner,
                    ),
                    Some(Decision::Denied) => (
                        idle.cut(),
                        seen.emit(MetricEvent::StreamCutoff),
                        BodyStep::Cutoff,
                    ),
                    None => idle.checked(seen, now),
                }
            },
        }
    }

    /// Enforces the decision behind `admission` on a body of `subject`.
    pub fn new(subject: u64, admission: Admission) -> (guard: BodyGuard)
        ensures
            guard == (BodyGuard { subject, admission, readmitting: false, ended: false }),
    {
        BodyGuard { subject, admission, readmitting: false, ended: false }
    }

    fn cut_off<P>(&mut self, gate: &mut GateState<P>) -> (step: BodyStep)
        ensures
            *final(self) == old(self).cut(),
            final(gate)@ == old(gate)@.emit(MetricEvent::StreamCutoff),
            step == BodyStep::Cutoff,
    {
        self.ended = true;
        gate.emit(MetricEvent::StreamCutoff);
        BodyStep::Cutoff
    }

    fn check<P>(&mut self, gate: &mut GateState<P>, now: Instant) -> (step: BodyStep)
        requires
            old(gate)@.wf(),
            old(gate)@.admitted(old(self).admission.entry),
        ensures
            final(gate)@.wf(),
            (*final(self), final(gate)@, step) == old(self).checked(old(gate)@, now),
    {
        match gate.observe(self.admission.entry, now) {
            Observed::Allowed => {
                return BodyStep::PollInner;
            },
            Observed::Denied | Observed::Expired => {
                return self.cut_off(gate);
            },
            Observed::Stale => {},
        }
        match gate.check_without_refresh(self.subject, now) {
            Some(admission) => {
                self.readmitting = false;
                if gate.verdict(admission.entry, now) == Some(Decision::Allowed) {
                    self.admission = admission;
                    BodyStep::PollInner
                } else {
                    self.cut_off(gate)
                }
            },
            None => {
                let start = !self.readmitting;
                self.readmitting = true;
                BodyStep::PollReadmission { start }
            },
        }
    }

    /// Starts a poll of the body.
    pub fn poll_frame<P>(&mut self, gate: &mut GateState<P>, now: Instant) -> (step: BodyStep)
        requires
            old(gate)@.wf(),
            !old(self).ended ==> old(gate)@.admitted(old(self).admission.entry),
        ensures
            final(gate)@.wf(),
            (*final(self), final(gate)@, step) == old(self).polled(old(gate)@, now),
    {
        if self.ended {
            return BodyStep::End;
        }
        self.check(gate, now)
    }

    /// Goes on after the readmission was polled once.
    pub fn readmission_polled<P>(
        &mut self,
        gate: &mut GateState<P>,
        poll: ReadmissionPoll,
        now: Instant,
    ) -> (step: BodyStep)
        requires
            old(gate)@.wf(),
            old(gate)@.admitted(old(self).admission.entry),
        ensures
            final(gate)@.wf(),
            (*final(self), final(gate)@, step) == old(self).readmitted(old(gate)@, poll, now),
    {
        match poll {
            ReadmissionPoll::Pending => BodyStep::PollInner,
            ReadmissionPoll::Failed => {
                self.readmitting = true;
                BodyStep::PollInnerRetrying { delay: gate.admission_timeout() }
            },
            ReadmissionPoll::Ready(admission) => {
                self.readmitting = false;
                proof {
                    subject_model::lemma_looked(gate@.subjects, admission.entry, now);
                    if gate@.subjects.table.contains_key(admission.entry) {
                        subject_model::lemma_latched(
                            gate@.subjects.table[admission.entry],
                            now,
                        );
                    }
                }
                match gate.verdict(admission.entry, now) {
                    Some(Decision::Allowed) => {
                        self.admission = admission;
                        BodyStep::PollInner
                    },
                    Some(Decision::Denied) => self.cut_off(gate),
                    None => self.check(gate, now),
                }
            },
        }
    }

    /// Notes what the wrapped body yielded: its end and its trailers end this body.
    pub fn inner_polled(&mut self, poll: InnerPoll)
        ensures
            *final(self) == (BodyGuard {
                ended: old(self).ended || poll is End || poll is Trailers,
                ..*old(self)
            }),
    {
        match poll {
            InnerPoll::End | InnerPoll::Trailers => {
                self.ended = true;
            },
            InnerPoll::Pending | InnerPoll::Data | InnerPoll::Error => {},
        }
    }

    pub fn is_end_stream(&self) -> (ended: bool)
        ensures
            ended == self.ended,
    {
        self.ended
    }

    /// Number of bytes that are left, where it is known. A denial can cut off all that remains.
    pub fn size_hint(&self) -> (exact: Option<u64>)
        ensures
            exact == if self.ended {
                Some(0u64)
            } else {
                None
            },
    {
        if self.ended {
            Some(0)
        } else {
            None
        }
    }
}

} // verus!
