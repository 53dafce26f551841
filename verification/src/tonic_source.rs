//! What the policy-authority protocol says in its messages and statuses.

use std::sync::Arc;

use vstd::prelude::*;

use crate::decision::{
    Decision, DecisionChange, DecisionResult, DecisionSourceError, DecisionSourceErrorKind,
};
use crate::time::{Duration, NANOS_PER_SEC};

verus! {

/// Interval of HTTP/2 keep-alive pings to the authority.
pub const KEEP_ALIVE_INTERVAL_SECS: u64 = 10;

/// Time the authority has to answer a keep-alive ping.
pub const KEEP_ALIVE_TIMEOUT_SECS: u64 = 5;

/// Interval of TCP keep-alive probes to the authority.
pub const TCP_KEEPALIVE_SECS: u64 = 30;

/// Endpoint and scope configuration for the lazy tonic policy decision source.
#[derive(Clone, Debug, PartialEq, Eq)]
pub struct TonicDecisionSourceConfig {
    endpoint: String,
    scope: String,
    connect_timeout: Duration,
}

impl TonicDecisionSourceConfig {
    pub closed spec fn spec_endpoint(&self) -> Seq<char> {
        self.endpoint@
    }

    pub closed spec fn spec_scope(&self) -> Seq<char> {
        self.scope@
    }

    pub closed spec fn spec_connect_timeout(&self) -> Duration {
        self.connect_timeout
    }

    /// Creates strict scope-bound client configuration.
    ///
    /// `endpoint` is a tonic URI such as `http://authority.internal:50051`, and `scope` is the
    /// opaque scope name this source is bound to. The connect timeout defaults to two seconds and
    /// the scope echo is validated strictly.
    pub fn new(endpoint: &str, scope: &str) -> (config: TonicDecisionSourceConfig)
        ensures
            config.spec_endpoint() == endpoint@,
            config.spec_scope() == scope@,
            config.spec_connect_timeout().nanos == 2 * NANOS_PER_SEC,
    {
        TonicDecisionSourceConfig {
            endpoint: endpoint.to_owned(),
            scope: scope.to_owned(),
            connect_timeout: Duration::from_secs(2),
        }
    }

    /// Sets how long one TCP connection attempt to the authority may take.
    pub fn with_connect_timeout(self, timeout: Duration) -> (config: TonicDecisionSourceConfig)
        ensures
            config.spec_endpoint() == self.spec_endpoint(),
            config.spec_scope() == self.spec_scope(),
            config.spec_connect_timeout() == timeout,
    {
        TonicDecisionSourceConfig { connect_timeout: timeout, ..self }
    }

    /// Returns the configured authority endpoint.
    pub fn endpoint(&self) -> (endpoint: &str)
        ensures
            endpoint@ == self.spec_endpoint(),
    {
        self.endpoint.as_str()
    }

    /// Returns the scope this source is bound to.
    pub fn scope(&self) -> (scope: &str)
        ensures
            scope@ == self.spec_scope(),
    {
        self.scope.as_str()
    }

    /// Returns the per-attempt connect timeout.
    pub fn connect_timeout(&self) -> (timeout: Duration)
        ensures
            timeout == self.spec_connect_timeout(),
    {
        self.connect_timeout
    }
}

/// Invalid tonic policy decision source configuration: the endpoint is no URI.
#[derive(Clone, Debug, PartialEq, Eq)]
pub struct TonicDecisionSourceConfigError {
    reason: String,
}

impl TonicDecisionSourceConfigError {
    /// What is wrong with the endpoint.
    pub closed spec fn spec_reason(&self) -> Seq<char> {
        self.reason@
    }

    /// Describes this error in one sentence.
    pub fn message(&self) -> (message: String)
        ensures
            message@ == "invalid policy authority endpoint: "@ + self.spec_reason(),
    {
        "invalid policy authority endpoint: ".to_owned().concat(self.reason.as_str())
    }
}

/// Whether tonic takes an endpoint: it is a URI, or names a Unix socket.
pub uninterp spec fn endpoint_accepted(endpoint: Seq<char>) -> bool;

/// `tonic::transport::Endpoint::from_shared`: whether it takes this endpoint, which depends on the
/// endpoint alone, and the text of its error, which is the same for every endpoint that it rejects.
#[verifier::external_body]
fn endpoint_error(endpoint: &str) -> (error: Option<String>)
    ensures
        error is None == endpoint_accepted(endpoint@),
        error is Some ==> error->0@ == "invalid URI"@,
{
    match tonic::transport::Endpoint::from_shared(endpoint.to_owned()) {
        Ok(_) => None,
        Err(error) => Some(error.to_string()),
    }
}

/// Checks that the endpoint is a valid tonic URI.
///
/// # Errors
///
/// Returns [`TonicDecisionSourceConfigError`] where it is not.
pub fn validate_endpoint(config: &TonicDecisionSourceConfig) -> (valid: Result<
    (),
    TonicDecisionSourceConfigError,
>)
    ensures
        match valid {
            Ok(_) => endpoint_accepted(config.spec_endpoint()),
            Err(error) => !endpoint_accepted(config.spec_endpoint()) && error.spec_reason()
                == "invalid URI"@,
        },
{
    endpoint_outcome(endpoint_error(config.endpoint()))
}

/// Turns the text of an endpoint's rejection into the configuration error.
pub fn endpoint_outcome(rejection: Option<String>) -> (outcome: Result<
    (),
    TonicDecisionSourceConfigError,
>)
    ensures
        match rejection {
            Some(reason) => outcome matches Err(error) && error.spec_reason() == reason@,
            None => outcome is Ok,
        },
{
    match rejection {
        Some(reason) => Err(TonicDecisionSourceConfigError { reason }),
        None => Ok(()),
    }
}

/// Whether `result` is a wire failure with this text.
pub open spec fn wire_failure<T>(result: Result<T, DecisionSourceError>, text: Seq<char>) -> bool {
    &&& result matches Err(error)
    &&& error.spec_kind() == DecisionSourceErrorKind::Wire
    &&& error.text() == text
}

/// Checks that the authority answered for the scope that was asked.
pub fn validate_scope_echo(expected: &str, actual: &str) -> (valid: Result<(), DecisionSourceError>)
    ensures
        if actual@ == expected@ {
            valid is Ok
        } else {
            wire_failure(valid, "decision source returned a mismatched scope"@)
        },
{
    if actual.to_owned() == expected.to_owned() {
        return Ok(());
    }
    Err(
        DecisionSourceError::new(
            DecisionSourceErrorKind::Wire,
            "decision source returned a mismatched scope",
        ),
    )
}

/// Decision that a protocol number stands for, where it stands for one or for none at all.
pub open spec fn spec_decision(state: i32) -> Option<Option<Decision>> {
    if state == 0 {
        Some(None)
    } else if state == 1 {
        Some(Some(Decision::Allowed))
    } else if state == 2 {
        Some(Some(Decision::Denied))
    } else {
        None
    }
}

/// Reads the number of a decision in the protocol: unspecified, allowed or denied.
pub fn decode_decision(state: i32) -> (decision: Result<Option<Decision>, DecisionSourceError>)
    ensures
        match spec_decision(state) {
            Some(expected) => decision == Ok::<Option<Decision>, DecisionSourceError>(expected),
            None => wire_failure(decision, "decision source returned an unknown decision"@),
        },
{
    match state {
        0 => Ok(None),
        1 => Ok(Some(Decision::Allowed)),
        2 => Ok(Some(Decision::Denied)),
        _ => Err(
            DecisionSourceError::new(
                DecisionSourceErrorKind::Wire,
                "decision source returned an unknown decision",
            ),
        ),
    }
}

/// Reads the answer to a lookup: the decision's number and the scope it was made in.
pub fn decode_response(state: i32, actual_scope: &str, scope: &str) -> (decision: Result<
    Option<Decision>,
    DecisionSourceError,
>)
    ensures
        if actual_scope@ != scope@ {
            wire_failure(decision, "decision source returned a mismatched scope"@)
        } else {
            match spec_decision(state) {
                Some(expected) => decision == Ok::<Option<Decision>, DecisionSourceError>(expected),
                None => wire_failure(decision, "decision source returned an unknown decision"@),
            }
        },
{
    match validate_scope_echo(scope, actual_scope) {
        Ok(_) => decode_decision(state),
        Err(error) => Err(error),
    }
}

/// Reads the answer to a lookup together with its payload. An empty payload is none: the protocol
/// does not transmit it.
pub fn decode_response_with_payload(
    state: i32,
    payload: String,
    actual_scope: &str,
    scope: &str,
) -> (result: Result<Option<DecisionResult<String>>, DecisionSourceError>)
    ensures
        if actual_scope@ != scope@ {
            wire_failure(result, "decision source returned a mismatched scope"@)
        } else {
            match spec_decision(state) {
                None => wire_failure(result, "decision source returned an unknown decision"@),
                Some(None) => result matches Ok(None),
                Some(Some(decision)) => {
                    &&& result matches Ok(Some(found))
                    &&& found.decision == decision
                    &&& found.valid_until is None
                    &&& match found.payload {
                        Some(shared) => payload@.len() > 0 && *shared == payload,
                        None => payload@.len() == 0,
                    }
                },
            }
        },
{
    match decode_response(state, actual_scope, scope) {
        Ok(Some(decision)) => {
            let payload = if payload.as_str().is_empty() {
                None
            } else {
                Some(Arc::new(payload))
            };
            Ok(Some(DecisionResult { decision, payload, valid_until: None }))
        },
        Ok(None) => Ok(None),
        Err(error) => Err(error),
    }
}

/// Reads one change of the watch: the parsed subject, the decision's number and the scope.
pub fn decode_change<T>(subject: Option<T>, state: i32, actual_scope: &str, scope: &str) -> (change:
    Result<DecisionChange<T>, DecisionSourceError>)
    ensures
        if actual_scope@ != scope@ {
            wire_failure(change, "decision source returned a mismatched scope"@)
        } else if subject is None {
            wire_failure(change, "decision source returned an invalid subject identifier"@)
        } else {
            match spec_decision(state) {
                Some(decision) => change == Ok::<DecisionChange<T>, DecisionSourceError>(
                    DecisionChange { subject: subject->0, decision },
                ),
                None => wire_failure(change, "decision source returned an unknown decision"@),
            }
        },
{
    match validate_scope_echo(scope, actual_scope) {
        Ok(_) => {},
        Err(error) => {
            return Err(error);
        },
    }
    let subject = match subject {
        Some(subject) => subject,
        None => {
            return Err(
                DecisionSourceError::new(
                    DecisionSourceErrorKind::Wire,
                    "decision source returned an invalid subject identifier",
                ),
            );
        },
    };
    match decode_decision(state) {
        Ok(decision) => Ok(DecisionChange { subject, decision }),
        Err(error) => Err(error),
    }
}

/// Whether a gRPC code says that the same request cannot succeed: `INVALID_ARGUMENT`, `NOT_FOUND`,
/// `PERMISSION_DENIED`, `UNIMPLEMENTED`, `DATA_LOSS` or `UNAUTHENTICATED`.
pub open spec fn permanent_code(code: i32) -> bool {
    code == 3 || code == 5 || code == 7 || code == 12 || code == 15 || code == 16
}

/// Classifies a gRPC code; `text` describes the status.
pub fn status_error(code: i32, text: &str) -> (error: DecisionSourceError)
    ensures
        error.spec_kind() == if permanent_code(code) {
            DecisionSourceErrorKind::Permanent
        } else {
            DecisionSourceErrorKind::Transient
        },
        error.text() == text@,
{
    let kind = match code {
        3 | 5 | 7 | 12 | 15 | 16 => DecisionSourceErrorKind::Permanent,
        _ => DecisionSourceErrorKind::Transient,
    };
    DecisionSourceError::new(kind, text)
}

#[verifier::external_type_specification]
#[verifier::external_body]
pub struct ExStatus(tonic::Status);

/// Number of a status's code.
pub uninterp spec fn code_of(status: tonic::Status) -> i32;

/// `tonic::Status::code`: the number of a status's code, which the status alone determines and
/// which is one of the seventeen that gRPC has.
#[verifier::external_body]
fn status_code(status: &tonic::Status) -> (code: i32)
    ensures
        code == code_of(*status),
        0 <= code <= 16,
{
    status.code().into()
}

/// `to_string` of a `tonic::Status`: its code and message in words, and the debug form of whatever
/// error caused it. Of that form nothing is known, so nothing is claimed of the text.
#[verifier::external_body]
fn status_text(status: &tonic::Status) -> (text: String) {
    status.to_string()
}

/// Whether a status may describe itself as `text`.
pub closed spec fn described(status: &tonic::Status, text: String) -> bool {
    call_ensures(status_text, (status,), text)
}

/// Turns a gRPC status into a failure of the decision source, whose text is the status's own
/// description.
pub fn source_error(status: &tonic::Status) -> (error: DecisionSourceError)
    ensures
        error.spec_kind() == if permanent_code(code_of(*status)) {
            DecisionSourceErrorKind::Permanent
        } else {
            DecisionSourceErrorKind::Transient
        },
        exists|text: String| #[trigger] described(status, text) && error.text() == text@,
{
    let code: i32 = status_code(status);
    let text = status_text(status);
    assert(described(status, text));
    status_error(code, text.as_str())
}

} // verus!
