//! Handles of admitted subjects.

use std::sync::Arc;

use vstd::prelude::*;

use crate::entry::Observed;
use crate::gate::GateState;
use crate::time::Instant;

verus! {

/// Current state of a subject admission.
#[derive(Clone, Copy, Debug, PartialEq, Eq, Structural)]
pub enum AdmissionState {
    /// The subject is still allowed.
    Allowed,
    /// The authority has denied the subject; admitted work must stop.
    Denied,
    /// No authoritative state is known any more, because the watch went down or the subject was
    /// evicted from the cache, or the decision expired.
    ///
    /// Expired entries can receive a new authoritative watch decision. Eviction and watch
    /// disconnection are terminal for the admission; readmit the subject to obtain a new one.
    Stale,
}

/// Admission failed because no authoritative verdict was available before the deadline.
///
/// This is a fail-closed outcome, not a denial: the authority never answered. Callers usually map
/// it to a retryable response such as HTTP 503.
#[derive(Clone, Copy, Debug, PartialEq, Eq, Structural)]
pub struct AdmissionUnavailable;

impl AdmissionUnavailable {
    /// Describes this error in one sentence.
    pub fn message(&self) -> (message: &'static str)
        ensures
            message@ == "policy decision source is unavailable"@,
    {
        "policy decision source is unavailable"
    }
}

/// Activity-checked decision for a subject, whether allowed or denied.
///
/// An admission names an entry and reports its live state rather than the verdict captured at
/// admission, which is what lets long-running work react to a later denial. It holds no capacity
/// and does not keep its subject cached: eviction or a watch failure makes it stale.
///
/// Read [`Admission::state`], [`Admission::is_allowed`], or [`Admission::check`] before each
/// activity. `check` also reports when refresh is due. These checks never start a lookup.
#[derive(Clone, Copy, Debug, PartialEq, Eq, Structural)]
pub struct Admission {
    /// Number of the entry.
    pub entry: u64,
}

/// State that a handle reports for what it sees.
pub open spec fn admission_state(observed: Observed) -> AdmissionState {
    match observed {
        Observed::Allowed => AdmissionState::Allowed,
        Observed::Denied => AdmissionState::Denied,
        Observed::Expired | Observed::Stale => AdmissionState::Stale,
    }
}

impl Admission {
    /// Returns the current state, treating an expired decision as [`AdmissionState::Stale`].
    ///
    /// Expiration is checked lazily and marks the entry stale.
    pub fn state<P>(&self, gate: &mut GateState<P>, now: Instant) -> (state: AdmissionState)
        requires
            old(gate)@.wf(),
            old(gate)@.admitted(self.entry),
        ensures
            final(gate)@.wf(),
            final(gate)@ == old(gate)@.looked(self.entry, now),
            state == admission_state(old(gate)@.observed(self.entry, now)),
    {
        match gate.observe(self.entry, now) {
            Observed::Allowed => AdmissionState::Allowed,
            Observed::Denied => AdmissionState::Denied,
            Observed::Expired | Observed::Stale => AdmissionState::Stale,
        }
    }

    /// Returns the current state and whether a background refresh should start now.
    ///
    /// This only observes state: it does not start work or renew the idle time of the subject. The
    /// signal stays true until a refresh claims the entry. Pending refreshes, failure cooldowns,
    /// disabled refresh windows, and expired decisions report false.
    pub fn check<P>(&self, gate: &mut GateState<P>, now: Instant) -> (checked: (
        AdmissionState,
        bool,
    ))
        requires
            old(gate)@.wf(),
            old(gate)@.admitted(self.entry),
        ensures
            final(gate)@.wf(),
            final(gate)@ == old(gate)@.looked(self.entry, now),
            checked.0 == admission_state(old(gate)@.observed(self.entry, now)),
            checked.1 == old(gate)@.refresh_due(self.entry, now),
            checked.1 ==> checked.0 != AdmissionState::Stale,
    {
        let due = gate.is_refresh_due(self.entry, now);
        (self.state(gate, now), due)
    }

    /// Returns whether the current decision is allowed, authoritative, and unexpired.
    pub fn is_allowed<P>(&self, gate: &mut GateState<P>, now: Instant) -> (allowed: bool)
        requires
            old(gate)@.wf(),
            old(gate)@.admitted(self.entry),
        ensures
            final(gate)@.wf(),
            final(gate)@ == old(gate)@.looked(self.entry, now),
            allowed == (old(gate)@.observed(self.entry, now) == Observed::Allowed),
    {
        self.state(gate, now) == AdmissionState::Allowed
    }

    /// Returns the payload of an allowed and unexpired decision.
    pub fn payload<P>(&self, gate: &mut GateState<P>, now: Instant) -> (payload: Option<Arc<P>>)
        requires
            old(gate)@.wf(),
            old(gate)@.admitted(self.entry),
        ensures
            final(gate)@.wf(),
            final(gate)@ == old(gate)@.looked(self.entry, now),
            payload == old(gate)@.payload(self.entry, now),
    {
        gate.payload(self.entry, now)
    }

    /// Makes the entry stale for every handle, until the authority decides anew.
    pub fn invalidate<P>(&self, gate: &mut GateState<P>)
        requires
            old(gate)@.wf(),
        ensures
            final(gate)@.wf(),
            final(gate)@ == old(gate)@.invalidated(self.entry),
    {
        gate.invalidate(self.entry)
    }
}

} // verus!
