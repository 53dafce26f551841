//! Settings of a gate and the rules between them.

use policy_gate::{
    ConfigError, DeadlineFit, Duration, PolicyGateConfig, PolicyGateConfigBuilder,
    PolicyGateLayerConfig, Subject, DEFAULT_ADMISSION_TIMEOUT, DEFAULT_DECISION_FRESHNESS_TTL,
    DEFAULT_INITIAL_ADMISSION_RETRY_DELAY, DEFAULT_INITIAL_RECONNECT_DELAY,
    DEFAULT_MAX_ADMISSION_RETRY_DELAY, DEFAULT_MAX_RECONNECT_DELAY, DEFAULT_MAX_SUBJECTS,
    DEFAULT_PERMANENT_FAILURE_COOLDOWN, DEFAULT_REFRESH_BEFORE_EXPIRY,
    DEFAULT_REFRESH_ENQUEUE_TIMEOUT, DEFAULT_REFRESH_QUEUE_CAPACITY,
    DEFAULT_SNAPSHOT_REPUBLISH_INTERVAL, DEFAULT_SUBJECT_TTL, DEFAULT_UNARY_TIMEOUT,
    DEFAULT_WATCH_EVENTS_PER_YIELD,
};

fn config() -> PolicyGateConfigBuilder {
    PolicyGateConfig::builder()
}

#[test]
fn builder_uses_public_defaults() {
    let defaults = config().build().expect("defaults validate");
    assert_eq!(defaults.unary_timeout().as_nanos(), DEFAULT_UNARY_TIMEOUT);
    assert_eq!(defaults.admission_timeout().as_nanos(), DEFAULT_ADMISSION_TIMEOUT);
    assert_eq!(
        defaults.initial_admission_retry_delay().as_nanos(),
        DEFAULT_INITIAL_ADMISSION_RETRY_DELAY
    );
    assert_eq!(
        defaults.max_admission_retry_delay().as_nanos(),
        DEFAULT_MAX_ADMISSION_RETRY_DELAY
    );
    assert_eq!(
        defaults.permanent_failure_cooldown().as_nanos(),
        DEFAULT_PERMANENT_FAILURE_COOLDOWN
    );
    assert_eq!(
        defaults.snapshot_republish_interval().as_nanos(),
        DEFAULT_SNAPSHOT_REPUBLISH_INTERVAL
    );
    assert_eq!(
        defaults.initial_reconnect_delay().as_nanos(),
        DEFAULT_INITIAL_RECONNECT_DELAY
    );
    assert_eq!(
        defaults.max_reconnect_delay().as_nanos(),
        DEFAULT_MAX_RECONNECT_DELAY
    );
    assert_eq!(
        defaults.watch_events_per_yield(),
        DEFAULT_WATCH_EVENTS_PER_YIELD
    );
    assert_eq!(defaults.max_subjects(), DEFAULT_MAX_SUBJECTS);
    assert_eq!(defaults.subject_ttl().as_nanos(), DEFAULT_SUBJECT_TTL);
    assert_eq!(
        defaults.decision_freshness_ttl().as_nanos(),
        DEFAULT_DECISION_FRESHNESS_TTL
    );
    assert_eq!(
        defaults.refresh_before_expiry().as_nanos(),
        DEFAULT_REFRESH_BEFORE_EXPIRY
    );
    assert_eq!(
        defaults.refresh_enqueue_timeout().as_nanos(),
        DEFAULT_REFRESH_ENQUEUE_TIMEOUT
    );
    assert_eq!(
        defaults.refresh_queue_capacity(),
        DEFAULT_REFRESH_QUEUE_CAPACITY
    );
}

#[test]
fn defaults_are_the_documented_values() {
    let defaults = config().build().expect("defaults validate");
    assert_eq!(defaults.unary_timeout(), Duration::from_secs(2));
    assert_eq!(defaults.admission_timeout(), Duration::from_secs(10));
    assert_eq!(
        defaults.initial_admission_retry_delay(),
        Duration::from_millis(100)
    );
    assert_eq!(defaults.max_admission_retry_delay(), Duration::from_secs(1));
    assert_eq!(defaults.permanent_failure_cooldown(), Duration::from_secs(1));
    assert_eq!(
        defaults.snapshot_republish_interval(),
        Duration::from_millis(10)
    );
    assert_eq!(defaults.initial_reconnect_delay(), Duration::from_millis(100));
    assert_eq!(defaults.max_reconnect_delay(), Duration::from_secs(5));
    assert_eq!(defaults.watch_events_per_yield(), 64);
    assert_eq!(defaults.max_subjects(), 65_536);
    assert_eq!(defaults.subject_ttl(), Duration::from_secs(3_600));
    assert_eq!(defaults.decision_freshness_ttl(), Duration::longest());
    assert_eq!(defaults.refresh_before_expiry(), Duration::zero());
    assert_eq!(defaults.refresh_enqueue_timeout(), Duration::from_millis(100));
    assert_eq!(defaults.refresh_queue_capacity(), 1_024);
}

#[test]
fn every_setter_sets_its_own_setting() {
    let built = config()
        .unary_timeout(Duration::from_secs(3))
        .admission_timeout(Duration::from_secs(4))
        .initial_admission_retry_delay(Duration::from_millis(5))
        .max_admission_retry_delay(Duration::from_millis(6))
        .permanent_failure_cooldown(Duration::from_millis(7))
        .snapshot_republish_interval(Duration::from_millis(8))
        .initial_reconnect_delay(Duration::from_millis(9))
        .max_reconnect_delay(Duration::from_millis(10))
        .watch_events_per_yield(11)
        .max_subjects(12)
        .subject_ttl(Duration::from_millis(13))
        .decision_freshness_ttl(Duration::from_millis(15))
        .refresh_before_expiry(Duration::from_millis(14))
        .refresh_enqueue_timeout(Duration::from_millis(16))
        .refresh_queue_capacity(17)
        .build()
        .expect("settings validate");
    assert_eq!(built.unary_timeout(), Duration::from_secs(3));
    assert_eq!(built.admission_timeout(), Duration::from_secs(4));
    assert_eq!(built.initial_admission_retry_delay(), Duration::from_millis(5));
    assert_eq!(built.max_admission_retry_delay(), Duration::from_millis(6));
    assert_eq!(built.permanent_failure_cooldown(), Duration::from_millis(7));
    assert_eq!(built.snapshot_republish_interval(), Duration::from_millis(8));
    assert_eq!(built.initial_reconnect_delay(), Duration::from_millis(9));
    assert_eq!(built.max_reconnect_delay(), Duration::from_millis(10));
    assert_eq!(built.watch_events_per_yield(), 11);
    assert_eq!(built.max_subjects(), 12);
    assert_eq!(built.subject_ttl(), Duration::from_millis(13));
    assert_eq!(built.decision_freshness_ttl(), Duration::from_millis(15));
    assert_eq!(built.refresh_before_expiry(), Duration::from_millis(14));
    assert_eq!(built.refresh_enqueue_timeout(), Duration::from_millis(16));
    assert_eq!(built.refresh_queue_capacity(), 17);
}

#[test]
fn layer_configuration_preserves_rejection_messages() {
    let layer = PolicyGateLayerConfig::new("denied", "subject is required");
    assert_eq!(layer.denied_message(), "denied");
    assert_eq!(layer.missing_subject_message(), "subject is required");
}

#[derive(Clone, Eq, Hash, PartialEq)]
struct OpaqueSubject(u64);

#[test]
fn core_subject_does_not_require_string_conversion() {
    fn assert_subject<T: Subject>() {}
    assert_subject::<OpaqueSubject>();
}

fn assert_config_error(builder: PolicyGateConfigBuilder, expected: ConfigError) {
    assert_eq!(
        builder.build().expect_err("configuration must fail"),
        expected
    );
}

#[test]
fn unary_timeout_cannot_exceed_admission_timeout() {
    assert_config_error(
        config()
            .unary_timeout(Duration::from_secs(3))
            .admission_timeout(Duration::from_secs(2)),
        ConfigError::UnaryExceedsAdmission,
    );
}

#[test]
fn admission_timeout_must_fit_an_instant_deadline() {
    assert_config_error(
        config().admission_timeout(Duration::longest()),
        ConfigError::AdmissionDeadlineOverflow,
    );
}

#[test]
fn admission_retry_delays_must_be_positive_and_ordered() {
    assert_config_error(
        config().initial_admission_retry_delay(Duration::zero()),
        ConfigError::InitialAdmissionRetryDelayZero,
    );
    assert_config_error(
        config()
            .initial_admission_retry_delay(Duration::from_secs(2))
            .max_admission_retry_delay(Duration::from_secs(1)),
        ConfigError::InitialRetryExceedsMaximum,
    );
}

#[test]
fn snapshot_republish_interval_must_fit_an_instant_deadline() {
    assert_config_error(
        config().snapshot_republish_interval(Duration::longest()),
        ConfigError::DurationOverflow("snapshot republish interval"),
    );
}

#[test]
fn every_named_duration_must_fit_an_instant_deadline() {
    let long = Duration::longest();
    assert_config_error(
        config()
            .initial_admission_retry_delay(long)
            .max_admission_retry_delay(long),
        ConfigError::DurationOverflow("initial admission retry delay"),
    );
    assert_config_error(
        config().max_admission_retry_delay(long),
        ConfigError::DurationOverflow("maximum admission retry delay"),
    );
    assert_config_error(
        config().permanent_failure_cooldown(long),
        ConfigError::DurationOverflow("permanent failure cooldown"),
    );
    assert_config_error(
        config().initial_reconnect_delay(long).max_reconnect_delay(long),
        ConfigError::DurationOverflow("initial reconnect delay"),
    );
    assert_config_error(
        config().max_reconnect_delay(long),
        ConfigError::DurationOverflow("maximum reconnect delay"),
    );
    assert_config_error(
        config().refresh_enqueue_timeout(long),
        ConfigError::DurationOverflow("refresh enqueue timeout"),
    );
    assert_config_error(
        config().decision_freshness_ttl(Duration::from_nanos(long.as_nanos() - 1)),
        ConfigError::DurationOverflow("decision freshness TTL"),
    );
}

#[test]
fn reconnect_delays_must_be_positive_and_ordered() {
    assert_config_error(
        config().initial_reconnect_delay(Duration::zero()),
        ConfigError::InitialReconnectDelayZero,
    );
    assert_config_error(
        config()
            .initial_reconnect_delay(Duration::from_secs(2))
            .max_reconnect_delay(Duration::from_secs(1)),
        ConfigError::InitialReconnectExceedsMaximum,
    );
}

#[test]
fn watcher_yield_batch_must_be_positive() {
    assert_config_error(
        config().watch_events_per_yield(0),
        ConfigError::WatchEventsPerYieldZero,
    );
}

#[test]
fn maximum_subject_count_must_be_positive() {
    let error = config()
        .max_subjects(0)
        .build()
        .expect_err("zero subject capacity must fail");
    assert_eq!(error, ConfigError::MaxSubjectsZero);
    assert!(error.message().contains("greater than zero"));
}

#[test]
fn finite_decision_freshness_ttl_is_independently_configurable() {
    let configured = config()
        .decision_freshness_ttl(Duration::from_secs(30))
        .build()
        .expect("freshness TTL validates without another setting");
    assert_eq!(configured.decision_freshness_ttl(), Duration::from_secs(30));
}

#[test]
fn decision_freshness_ttl_must_be_positive() {
    assert_config_error(
        config().decision_freshness_ttl(Duration::zero()),
        ConfigError::DecisionFreshnessTtlZero,
    );
}

#[test]
fn decision_freshness_ttl_remains_valid_without_refresh_ahead() {
    let configured = config()
        .decision_freshness_ttl(Duration::from_secs(30))
        .build()
        .expect("freshness TTL alone remains valid");
    assert_eq!(configured.refresh_before_expiry(), Duration::zero());
}

#[test]
fn decision_refresh_ahead_requires_a_finite_freshness_ttl() {
    assert_config_error(
        config().refresh_before_expiry(Duration::from_secs(5)),
        ConfigError::RefreshRequiresFiniteDecisionFreshnessTtl,
    );
}

#[test]
fn decision_refresh_ahead_must_be_less_than_freshness_ttl() {
    for invalid in [Duration::from_secs(30), Duration::from_secs(31)] {
        assert_config_error(
            config()
                .decision_freshness_ttl(Duration::from_secs(30))
                .refresh_before_expiry(invalid),
            ConfigError::RefreshWindowNotLessThanDecisionFreshnessTtl,
        );
    }
}

#[test]
fn a_documented_refresh_window_validates() {
    let configured = config()
        .decision_freshness_ttl(Duration::from_secs(60))
        .refresh_before_expiry(Duration::from_secs(10))
        .build()
        .expect("window lies within the freshness");
    assert_eq!(configured.refresh_before_expiry(), Duration::from_secs(10));
}

#[test]
fn refresh_queue_settings_must_be_positive() {
    assert_config_error(
        config().refresh_queue_capacity(0),
        ConfigError::RefreshQueueCapacityZero,
    );
    assert_config_error(
        config().refresh_enqueue_timeout(Duration::zero()),
        ConfigError::RefreshEnqueueTimeoutZero,
    );
}

#[test]
fn the_first_broken_rule_is_reported() {
    assert_config_error(
        config()
            .unary_timeout(Duration::from_secs(3))
            .admission_timeout(Duration::from_secs(2))
            .initial_admission_retry_delay(Duration::zero())
            .max_subjects(0),
        ConfigError::UnaryExceedsAdmission,
    );
    assert_config_error(
        config()
            .permanent_failure_cooldown(Duration::longest())
            .max_subjects(0),
        ConfigError::DurationOverflow("permanent failure cooldown"),
    );
}

#[test]
fn platform_limits_decide_only_what_they_are_asked() {
    let everything = DeadlineFit {
        admission_timeout: true,
        initial_admission_retry_delay: true,
        max_admission_retry_delay: true,
        permanent_failure_cooldown: true,
        snapshot_republish_interval: true,
        initial_reconnect_delay: true,
        max_reconnect_delay: true,
        refresh_enqueue_timeout: true,
        decision_freshness_ttl: false,
    };
    // The never-expire freshness needs no deadline.
    assert!(config().build_on(everything).is_ok());
    assert_eq!(
        config()
            .decision_freshness_ttl(Duration::from_secs(1))
            .build_on(everything)
            .expect_err("the freshness does not fit"),
        ConfigError::DurationOverflow("decision freshness TTL")
    );
    assert_eq!(
        config()
            .build_on(DeadlineFit {
                max_reconnect_delay: false,
                ..everything
            })
            .expect_err("the reconnect delay does not fit"),
        ConfigError::DurationOverflow("maximum reconnect delay")
    );
}

#[test]
fn config_errors_describe_themselves() {
    assert_eq!(
        ConfigError::UnaryExceedsAdmission.message(),
        "unary timeout must not exceed admission timeout"
    );
    assert_eq!(
        ConfigError::InitialAdmissionRetryDelayZero.message(),
        "initial admission retry delay must be greater than zero"
    );
    assert_eq!(
        ConfigError::InitialRetryExceedsMaximum.message(),
        "initial admission retry delay must not exceed its maximum"
    );
    assert_eq!(
        ConfigError::InitialReconnectDelayZero.message(),
        "initial reconnect delay must be greater than zero"
    );
    assert_eq!(
        ConfigError::InitialReconnectExceedsMaximum.message(),
        "initial reconnect delay must not exceed its maximum"
    );
    assert_eq!(
        ConfigError::WatchEventsPerYieldZero.message(),
        "watch events per yield must be greater than zero"
    );
    assert_eq!(
        ConfigError::AdmissionDeadlineOverflow.message(),
        "admission timeout is too large to represent as an Instant deadline"
    );
    assert_eq!(
        ConfigError::DurationOverflow("maximum reconnect delay").message(),
        "maximum reconnect delay is too large to represent as an Instant deadline"
    );
    assert_eq!(
        ConfigError::MaxSubjectsZero.message(),
        "maximum subject count must be greater than zero"
    );
    assert_eq!(
        ConfigError::RefreshQueueCapacityZero.message(),
        "refresh queue capacity must be greater than zero"
    );
    assert_eq!(
        ConfigError::RefreshEnqueueTimeoutZero.message(),
        "refresh enqueue timeout must be greater than zero"
    );
    assert_eq!(
        ConfigError::DecisionFreshnessTtlZero.message(),
        "decision freshness TTL must be greater than zero"
    );
    assert_eq!(
        ConfigError::RefreshRequiresFiniteDecisionFreshnessTtl.message(),
        "decision refresh requires a finite decision freshness TTL"
    );
    assert_eq!(
        ConfigError::RefreshWindowNotLessThanDecisionFreshnessTtl.message(),
        "decision refresh window must be less than decision freshness TTL"
    );
}

#[test]
fn the_clock_reaches_as_far_as_the_platform_adds() {
    let origin = std::time::Instant::now();
    let reach = policy_gate::clock_reach(&origin);
    let span = std::time::Duration::new(reach.as_secs(), reach.subsec_nanos());
    assert!(origin.checked_add(span).is_some());
    assert!(reach.as_secs() > 86_400 * 365);
    if let Some(beyond) = span.checked_add(std::time::Duration::from_nanos(1)) {
        assert!(origin.checked_add(beyond).is_none());
    }
}
