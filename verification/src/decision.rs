//! Decisions, their changes, and the failures of the source that supplies them.

use std::sync::Arc;

use vstd::prelude::*;

use crate::time::Instant;

verus! {

/// Authoritative decision returned for one subject.
#[derive(Clone, Copy, Debug, PartialEq, Eq, Structural)]
pub enum Decision {
    /// The subject may start and continue work.
    Allowed,
    /// The subject may not start work, and admitted work must stop.
    Denied,
}

/// One normalized authoritative subject-state update.
#[derive(Clone, Debug, PartialEq, Eq)]
pub struct DecisionChange<T> {
    /// Subject the update applies to.
    pub subject: T,
    /// Decision now in force, or `None` when the authority withdrew its decision.
    ///
    /// Withdrawal drops the subject from the cache and marks its admission handles stale.
    pub decision: Option<Decision>,
}

/// Decision with an optional payload and an optional cap on the validity of both.
#[derive(Clone, Debug)]
pub struct DecisionResult<P> {
    pub decision: Decision,
    /// Value that accompanies an allowed decision.
    pub payload: Option<Arc<P>>,
    /// Instant at which decision and payload end, in the policy gate's clock. `None` adds no cap.
    pub valid_until: Option<Instant>,
}

impl<P> DecisionResult<P> {
    /// The result of a source that supplies neither payload nor cap.
    pub fn plain(decision: Decision) -> (result: DecisionResult<P>)
        ensures
            result == (DecisionResult::<P> { decision, payload: None, valid_until: None }),
    {
        DecisionResult { decision, payload: None, valid_until: None }
    }
}

/// How the runtime should handle a decision-source failure.
#[derive(Clone, Copy, Debug, PartialEq, Eq, Structural)]
pub enum DecisionSourceErrorKind {
    /// Retryable failure, such as a timeout or an unavailable authority.
    ///
    /// Admission retries with backoff until its deadline expires.
    Transient,
    /// The request cannot succeed as issued, such as an unknown scope or a rejected credential.
    ///
    /// Admission fails immediately; a later admission for the same subject waits out the
    /// permanent-failure cooldown before the source is called again.
    Permanent,
    /// The response violated the protocol contract, such as a mismatched scope echo or an
    /// undecodable decision or subject identifier.
    ///
    /// Handled like [`DecisionSourceErrorKind::Permanent`] and additionally reported as a wire
    /// failure.
    Wire,
}

/// Decision source request or protocol failure.
#[derive(Clone, Debug, PartialEq, Eq)]
pub struct DecisionSourceError {
    kind: DecisionSourceErrorKind,
    message: String,
}

impl DecisionSourceError {
    /// Kind of this failure.
    pub closed spec fn spec_kind(&self) -> DecisionSourceErrorKind {
        self.kind
    }

    /// Text of this failure.
    pub closed spec fn text(&self) -> Seq<char> {
        self.message@
    }

    /// Creates a failure of `kind` whose text is `message`.
    pub fn new(kind: DecisionSourceErrorKind, message: &str) -> (error: DecisionSourceError)
        ensures
            error.spec_kind() == kind,
            error.text() == message@,
    {
        DecisionSourceError { kind, message: message.to_owned() }
    }

    /// Returns how the runtime treats this failure.
    pub fn kind(&self) -> (kind: DecisionSourceErrorKind)
        ensures
            kind == self.spec_kind(),
    {
        self.kind
    }

    /// Returns the message supplied with this failure.
    pub fn message(&self) -> (message: &str)
        ensures
            message@ == self.text(),
    {
        self.message.as_str()
    }
}

/// Whether a failure of `kind` ends the admission that met it.
pub open spec fn ends_admission(kind: DecisionSourceErrorKind) -> bool {
    kind != DecisionSourceErrorKind::Transient
}

/// Returns whether the failure ends the admission that met it rather than being retried.
pub fn is_permanent_status(error: &DecisionSourceError) -> (permanent: bool)
    ensures
        permanent == ends_admission(error.spec_kind()),
{
    match error.kind() {
        DecisionSourceErrorKind::Permanent | DecisionSourceErrorKind::Wire => true,
        DecisionSourceErrorKind::Transient => false,
    }
}

/// Subject identifier accepted by the policy-gate runtime.
///
/// Implemented for every type that satisfies its bounds, so a caller never implements it by hand.
/// Subjects are cloned and hashed on the admission path, which favors small keys such as a `u64`
/// over an owned `String`.
pub trait Subject: Clone + Eq + std::hash::Hash + Send + Sync + 'static {

}

impl<T> Subject for T where T: Clone + Eq + std::hash::Hash + Send + Sync + 'static {

}

} // verus!
