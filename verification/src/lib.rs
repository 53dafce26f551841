//! Continuous admission and streaming enforcement driven by an external policy authority.
//!
//! A gate answers one question about a subject: is it allowed right now? Decisions come from one
//! decision source bound to a single policy scope, and are cached in a bounded, idle-evicted map
//! that a watch over the authority's changes keeps current.
//!
//! The library holds the rules and no I/O. [`GateState`] is the state of one gate; every method is
//! one indivisible step at an instant of the caller's clock. What takes time, such as a lookup, a
//! wait or a poll of the watch, happens outside between two steps:
//!
//! - [`GateState::begin_admission`] and the `admit_after_*` steps admit a subject,
//! - [`WatchSession`] and [`Reconnect`] run the watch,
//! - [`BodyGuard`] enforces a decision on the polls of one body.
//!
//! Each step's contract gives the content of the state after it, over [`gate::GateModel`]. The
//! [`laws`] say what these steps keep and promise together.

pub mod admission;
pub mod admitting;
pub mod config;
pub mod continuity;
pub mod decision;
pub mod entry;
pub mod evolution;
pub mod gate;
pub mod grpc;
pub mod laws;
pub mod layer;
pub mod metrics;
pub mod recency;
pub mod stream;
pub mod subject_model;
pub mod subjects;
pub mod sweep;
pub mod time;
pub mod tonic_source;
pub mod transform;
pub mod watcher;

pub use admission::{Admission, AdmissionState, AdmissionUnavailable};
pub use admitting::{AdmitCall, AdmitStep, ConnectionWait, FetchWait, SleepWait};
pub use config::{
    clock_reach, ConfigError, DeadlineFit, PolicyGateConfig, PolicyGateConfigBuilder, DEFAULT_ADMISSION_TIMEOUT,
    DEFAULT_DECISION_FRESHNESS_TTL, DEFAULT_INITIAL_ADMISSION_RETRY_DELAY,
    DEFAULT_INITIAL_RECONNECT_DELAY, DEFAULT_MAX_ADMISSION_RETRY_DELAY,
    DEFAULT_MAX_RECONNECT_DELAY, DEFAULT_MAX_SUBJECTS, DEFAULT_PERMANENT_FAILURE_COOLDOWN,
    DEFAULT_REFRESH_BEFORE_EXPIRY, DEFAULT_REFRESH_ENQUEUE_TIMEOUT,
    DEFAULT_REFRESH_QUEUE_CAPACITY, DEFAULT_SNAPSHOT_REPUBLISH_INTERVAL, DEFAULT_SUBJECT_TTL,
    DEFAULT_UNARY_TIMEOUT, DEFAULT_WATCH_EVENTS_PER_YIELD,
};
pub use decision::{
    is_permanent_status, Decision, DecisionChange, DecisionResult, DecisionSourceError,
    DecisionSourceErrorKind, Subject,
};
pub use gate::{lookup_events, settle_lookup, Access, GateState, LookupOutcome, Rebuild};
pub use grpc::TonicRejectionResponse;
pub use layer::{BodySide, HeaderField, PolicyGateLayerConfig, StreamRejection};
pub use metrics::{MetricEvent, NoopPolicyGateMetrics, PolicyGateMetrics};
pub use stream::{BodyGuard, BodyStep, InnerPoll, ReadmissionPoll};
pub use sweep::{sweep_due, Sweeper, SWEEP_INTERVAL};
pub use time::{resolve_timeout, Duration, Instant, TimeoutElapsed, TokioTimeDriver};
pub use tonic_source::{TonicDecisionSourceConfig, TonicDecisionSourceConfigError};
pub use transform::{transform_result, TransformSource};
pub use watcher::{
    jitter, jitter_with, DecisionSourceHealth, DecisionSourceHealthStatus, Reconnect, WatchItem,
    WatchOutcome, WatchSession, WatchStep,
};
