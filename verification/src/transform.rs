//! Decisions whose payload is transformed before it is cached.

use std::marker::PhantomData;
use std::sync::Arc;

use vstd::prelude::*;

use crate::decision::{Decision, DecisionResult, DecisionSourceError, DecisionSourceErrorKind};
use crate::time;
use crate::time::{Duration, Instant, MAX_SPAN_NANOS};

verus! {

/// Transforms payloads inside the lookup that brings them. `D` must match the policy gate's clock.
/// Missing payloads skip transformation. Watch changes still clear payloads.
#[derive(Debug)]
pub struct TransformSource<S, V, D> {
    source: Arc<S>,
    transform: V,
    time: PhantomData<D>,
}

impl<S, V, D> TransformSource<S, V, D> {
    /// Source whose payloads are transformed.
    pub closed spec fn spec_source(&self) -> Arc<S> {
        self.source
    }

    /// Transformation of the payloads.
    pub closed spec fn spec_transform(&self) -> V {
        self.transform
    }

    /// Transforms the payloads of `source`.
    pub fn new(source: Arc<S>, transform: V) -> (transformed: TransformSource<S, V, D>)
        ensures
            transformed.spec_source() == source,
            transformed.spec_transform() == transform,
    {
        TransformSource { source, transform, time: PhantomData }
    }

    pub fn source(&self) -> (source: &Arc<S>)
        ensures
            *source == self.spec_source(),
    {
        &self.source
    }

    pub fn transform(&self) -> (transform: &V)
        ensures
            *transform == self.spec_transform(),
    {
        &self.transform
    }
}

/// Cap on a result whose payload lives for `lifetime` from `started`. The longest span adds none.
pub open spec fn transformed_cap(
    valid_until: Option<Instant>,
    started: Instant,
    lifetime: Duration,
) -> Option<Instant> {
    if lifetime.nanos == MAX_SPAN_NANOS {
        valid_until
    } else {
        time::spec_earlier(
            valid_until,
            Some(Instant { nanos: (started.nanos + lifetime.nanos) as u128 }),
        )
    }
}

/// Whether a clock that ends at `clock_end` cannot represent the end of a lifetime.
pub open spec fn lifetime_overflows(
    started: Instant,
    lifetime: Duration,
    clock_end: Instant,
) -> bool {
    lifetime.nanos != MAX_SPAN_NANOS && started.nanos + lifetime.nanos > clock_end.nanos
}

/// Puts together a decision and its transformed payload, which lives for a span from `started`.
///
/// # Errors
///
/// Returns a wire failure where the clock, which ends at `clock_end`, cannot represent the end of
/// that span.
pub fn transform_result<P>(
    decision: Decision,
    valid_until: Option<Instant>,
    transformed: Option<(P, Duration)>,
    started: Instant,
    clock_end: Instant,
) -> (result: Result<DecisionResult<P>, DecisionSourceError>)
    ensures
        match transformed {
            None => result == Ok::<DecisionResult<P>, DecisionSourceError>(
                DecisionResult { decision, payload: None, valid_until },
            ),
            Some((payload, lifetime)) => if lifetime_overflows(
                started,
                lifetime,
                clock_end,
            ) {
                &&& result matches Err(error)
                &&& error.spec_kind() == DecisionSourceErrorKind::Wire
                &&& error.text() == "transformed payload lifetime overflows the clock"@
            } else {
                &&& result matches Ok(result)
                &&& result.decision == decision
                &&& result.payload matches Some(shared) && *shared == payload
                &&& result.valid_until == transformed_cap(valid_until, started, lifetime)
            },
        },
{
    let (payload, lifetime) = match transformed {
        Some(transformed) => transformed,
        None => {
            return Ok(DecisionResult { decision, payload: None, valid_until });
        },
    };
    let mut valid_until = valid_until;
    if lifetime.nanos != MAX_SPAN_NANOS {
        match started.checked_add(lifetime, clock_end) {
            Some(deadline) => {
                valid_until = time::earlier(valid_until, Some(deadline));
            },
            None => {
                return Err(
                    DecisionSourceError::new(
                        DecisionSourceErrorKind::Wire,
                        "transformed payload lifetime overflows the clock",
                    ),
                );
            },
        }
    }
    Ok(DecisionResult { decision, payload: Some(Arc::new(payload)), valid_until })
}

} // verus!
