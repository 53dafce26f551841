//! Laws of configurations: which settings are accepted, and what a refusal says.

use vstd::prelude::*;

use crate::config;
use crate::config::{ConfigError, DeadlineFit, Settings};
use crate::gate::GateModel;
use crate::time::{Instant, MAX_SPAN_NANOS};

verus! {

/// Whether `settings` break the rule that `error` stands for, on a platform that can add to its time
/// the spans that `fit` says.
pub open spec fn breaks(settings: Settings, fit: DeadlineFit, error: ConfigError) -> bool {
    match error {
        ConfigError::UnaryExceedsAdmission => settings.admission_timeout.nanos
            < settings.unary_timeout.nanos,
        ConfigError::InitialAdmissionRetryDelayZero => settings.initial_admission_retry_delay.nanos
            == 0,
        ConfigError::InitialRetryExceedsMaximum => settings.max_admission_retry_delay.nanos
            < settings.initial_admission_retry_delay.nanos,
        ConfigError::InitialReconnectDelayZero => settings.initial_reconnect_delay.nanos == 0,
        ConfigError::InitialReconnectExceedsMaximum => settings.max_reconnect_delay.nanos
            < settings.initial_reconnect_delay.nanos,
        ConfigError::WatchEventsPerYieldZero => settings.watch_events_per_yield == 0,
        ConfigError::AdmissionDeadlineOverflow => !fit.admission_timeout,
        ConfigError::DurationOverflow(name) => {
            ||| name == "initial admission retry delay" && !fit.initial_admission_retry_delay
            ||| name == "maximum admission retry delay" && !fit.max_admission_retry_delay
            ||| name == "permanent failure cooldown" && !fit.permanent_failure_cooldown
            ||| name == "snapshot republish interval" && !fit.snapshot_republish_interval
            ||| name == "initial reconnect delay" && !fit.initial_reconnect_delay
            ||| name == "maximum reconnect delay" && !fit.max_reconnect_delay
            ||| name == "refresh enqueue timeout" && !fit.refresh_enqueue_timeout
            ||| name == "decision freshness TTL" && !fit.decision_freshness_ttl
                && settings.decision_freshness_ttl.nanos != MAX_SPAN_NANOS
        },
        ConfigError::MaxSubjectsZero => settings.max_subjects == 0,
        ConfigError::RefreshQueueCapacityZero => settings.refresh_queue_capacity == 0,
        ConfigError::RefreshEnqueueTimeoutZero => settings.refresh_enqueue_timeout.nanos == 0,
        ConfigError::DecisionFreshnessTtlZero => settings.decision_freshness_ttl.nanos == 0,
        ConfigError::RefreshRequiresFiniteDecisionFreshnessTtl => {
            &&& settings.refresh_before_expiry.nanos > 0
            &&& settings.decision_freshness_ttl.nanos == MAX_SPAN_NANOS
        },
        ConfigError::RefreshWindowNotLessThanDecisionFreshnessTtl => {
            settings.refresh_before_expiry.nanos >= settings.decision_freshness_ttl.nanos
        },
    }
}

/// Settings are accepted exactly where they break no rule, and a refusal names a rule that they
/// break.
pub proof fn settings_are_refused_for_a_broken_rule(
    settings: Settings,
    fit: DeadlineFit,
    error: ConfigError,
)
    ensures
        config::build_error(settings, fit) is None ==> !breaks(settings, fit, error),
        config::build_error(settings, fit) matches Some(named) ==> breaks(settings, fit, named),
{
}

/// Place of a rule among the others.
pub open spec fn place(error: ConfigError) -> int {
    match error {
        ConfigError::UnaryExceedsAdmission => 0,
        ConfigError::InitialAdmissionRetryDelayZero => 1,
        ConfigError::InitialRetryExceedsMaximum => 2,
        ConfigError::InitialReconnectDelayZero => 3,
        ConfigError::InitialReconnectExceedsMaximum => 4,
        ConfigError::WatchEventsPerYieldZero => 5,
        ConfigError::AdmissionDeadlineOverflow => 6,
        ConfigError::DurationOverflow(name) => if name == "initial admission retry delay" {
            7
        } else if name == "maximum admission retry delay" {
            8
        } else if name == "permanent failure cooldown" {
            9
        } else if name == "snapshot republish interval" {
            10
        } else if name == "initial reconnect delay" {
            11
        } else if name == "maximum reconnect delay" {
            12
        } else if name == "refresh enqueue timeout" {
            13
        } else {
            20
        },
        ConfigError::MaxSubjectsZero => 14,
        ConfigError::RefreshQueueCapacityZero => 15,
        ConfigError::RefreshEnqueueTimeoutZero => 16,
        ConfigError::DecisionFreshnessTtlZero => 17,
        ConfigError::RefreshRequiresFiniteDecisionFreshnessTtl => 18,
        ConfigError::RefreshWindowNotLessThanDecisionFreshnessTtl => 19,
    }
}

/// Of several broken rules the first is named.
pub proof fn the_first_broken_rule_is_named(
    settings: Settings,
    fit: DeadlineFit,
    named: ConfigError,
    other: ConfigError,
)
    requires
        config::build_error(settings, fit) == Some(named),
        breaks(settings, fit, other),
    ensures
        place(named) <= place(other),
{
}

/// Settings that no setter has touched are accepted on a platform that can add them to its time.
pub proof fn the_defaults_are_accepted(fit: DeadlineFit)
    requires
        fit.admission_timeout,
        fit.initial_admission_retry_delay,
        fit.max_admission_retry_delay,
        fit.permanent_failure_cooldown,
        fit.snapshot_republish_interval,
        fit.initial_reconnect_delay,
        fit.max_reconnect_delay,
        fit.refresh_enqueue_timeout,
    ensures
        config::build_error(config::default_settings(), fit) is None,
        config::default_settings().valid(),
{
}

/// A gate takes steps while three numbers and one emptied snapshot are left and the clock can
/// represent the next rebuild.
pub proof fn a_gate_is_ready_while_numbers_and_clock_last<P>(gate: GateModel<P>, now: Instant)
    ensures
        gate.ready(now) <==> {
            &&& gate.subjects.next_id <= u64::MAX - 3
            &&& gate.generation != u64::MAX
            &&& now.nanos + gate.settings.snapshot_republish_interval.nanos
                <= gate.clock_end.nanos
        },
{
}

/// What a platform says of each setting is what its clock answered for that very setting.
pub proof fn every_setting_is_asked_for(now: std::time::Instant, settings: Settings, fit: DeadlineFit)
    requires
        config::clock_fit(&now, settings, fit),
    ensures
        config::span_fit(&now, settings.admission_timeout, fit.admission_timeout),
        config::span_fit(
            &now,
            settings.initial_admission_retry_delay,
            fit.initial_admission_retry_delay,
        ),
        config::span_fit(&now, settings.max_admission_retry_delay, fit.max_admission_retry_delay),
        config::span_fit(&now, settings.permanent_failure_cooldown, fit.permanent_failure_cooldown),
        config::span_fit(
            &now,
            settings.snapshot_republish_interval,
            fit.snapshot_republish_interval,
        ),
        config::span_fit(&now, settings.initial_reconnect_delay, fit.initial_reconnect_delay),
        config::span_fit(&now, settings.max_reconnect_delay, fit.max_reconnect_delay),
        config::span_fit(&now, settings.refresh_enqueue_timeout, fit.refresh_enqueue_timeout),
        config::span_fit(&now, settings.decision_freshness_ttl, fit.decision_freshness_ttl),
{
}

} // verus!
