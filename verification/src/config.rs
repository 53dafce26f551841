//! Timing and capacity settings of a gate, and the rules between them.

use vstd::prelude::*;

use crate::time;
use crate::time::{Duration, MAX_SPAN_NANOS, NANOS_PER_SEC};

verus! {

/// Default [`PolicyGateConfigBuilder::unary_timeout`], in nanoseconds.
pub const DEFAULT_UNARY_TIMEOUT: u128 = 2_000_000_000;

/// Default [`PolicyGateConfigBuilder::admission_timeout`], in nanoseconds.
pub const DEFAULT_ADMISSION_TIMEOUT: u128 = 10_000_000_000;

/// Default [`PolicyGateConfigBuilder::initial_admission_retry_delay`], in nanoseconds.
pub const DEFAULT_INITIAL_ADMISSION_RETRY_DELAY: u128 = 100_000_000;

/// Default [`PolicyGateConfigBuilder::max_admission_retry_delay`], in nanoseconds.
pub const DEFAULT_MAX_ADMISSION_RETRY_DELAY: u128 = 1_000_000_000;

/// Default [`PolicyGateConfigBuilder::permanent_failure_cooldown`], in nanoseconds.
pub const DEFAULT_PERMANENT_FAILURE_COOLDOWN: u128 = 1_000_000_000;

/// Default [`PolicyGateConfigBuilder::snapshot_republish_interval`], in nanoseconds.
pub const DEFAULT_SNAPSHOT_REPUBLISH_INTERVAL: u128 = 10_000_000;

/// Default [`PolicyGateConfigBuilder::initial_reconnect_delay`], in nanoseconds.
pub const DEFAULT_INITIAL_RECONNECT_DELAY: u128 = 100_000_000;

/// Default [`PolicyGateConfigBuilder::max_reconnect_delay`], in nanoseconds.
pub const DEFAULT_MAX_RECONNECT_DELAY: u128 = 5_000_000_000;

/// Default [`PolicyGateConfigBuilder::watch_events_per_yield`].
pub const DEFAULT_WATCH_EVENTS_PER_YIELD: usize = 64;

/// Default [`PolicyGateConfigBuilder::max_subjects`].
pub const DEFAULT_MAX_SUBJECTS: usize = 65_536;

/// Default [`PolicyGateConfigBuilder::subject_ttl`], in nanoseconds.
pub const DEFAULT_SUBJECT_TTL: u128 = 3_600_000_000_000;

/// Default [`PolicyGateConfigBuilder::decision_freshness_ttl`], in nanoseconds.
///
/// This exact span never expires; no deadline is made of it.
pub const DEFAULT_DECISION_FRESHNESS_TTL: u128 = MAX_SPAN_NANOS;

/// Default [`PolicyGateConfigBuilder::refresh_before_expiry`], in nanoseconds.
pub const DEFAULT_REFRESH_BEFORE_EXPIRY: u128 = 0;

/// Default [`PolicyGateConfigBuilder::refresh_enqueue_timeout`], in nanoseconds.
pub const DEFAULT_REFRESH_ENQUEUE_TIMEOUT: u128 = 100_000_000;

/// Default [`PolicyGateConfigBuilder::refresh_queue_capacity`].
pub const DEFAULT_REFRESH_QUEUE_CAPACITY: usize = 1_024;

/// Values of every setting, valid or not.
#[derive(Clone, Copy, Debug, PartialEq, Eq, Structural)]
pub struct Settings {
    pub unary_timeout: Duration,
    pub admission_timeout: Duration,
    pub initial_admission_retry_delay: Duration,
    pub max_admission_retry_delay: Duration,
    pub permanent_failure_cooldown: Duration,
    pub snapshot_republish_interval: Duration,
    pub initial_reconnect_delay: Duration,
    pub max_reconnect_delay: Duration,
    pub watch_events_per_yield: usize,
    pub max_subjects: usize,
    pub subject_ttl: Duration,
    pub decision_freshness_ttl: Duration,
    pub refresh_before_expiry: Duration,
    pub refresh_enqueue_timeout: Duration,
    pub refresh_queue_capacity: usize,
}

/// Invalid caller-supplied policy-gate configuration.
#[derive(Clone, Copy, Debug, PartialEq, Eq)]
pub enum ConfigError {
    /// The unary timeout exceeds the admission timeout, so one lookup could outlive admission.
    UnaryExceedsAdmission,
    /// The initial admission retry delay is zero, which would retry without backoff.
    InitialAdmissionRetryDelayZero,
    /// The initial admission retry delay exceeds its own maximum.
    InitialRetryExceedsMaximum,
    /// The initial reconnect delay is zero, which would reconnect without backoff.
    InitialReconnectDelayZero,
    /// The initial reconnect delay exceeds its own maximum.
    InitialReconnectExceedsMaximum,
    /// The watch would never yield to the runtime because its event budget is zero.
    WatchEventsPerYieldZero,
    /// The admission timeout cannot be represented as a deadline on this platform.
    AdmissionDeadlineOverflow,
    /// The named duration cannot be represented as a deadline on this platform.
    DurationOverflow(&'static str),
    /// The subject-map capacity is zero, so no subject could ever be cached.
    MaxSubjectsZero,
    /// The refresh queue capacity is zero, so no background lookup could be scheduled.
    RefreshQueueCapacityZero,
    /// A zero queue handoff timeout would never attempt to enqueue a refresh.
    RefreshEnqueueTimeoutZero,
    /// A zero freshness TTL would make every authoritative decision immediately unusable.
    DecisionFreshnessTtlZero,
    /// Refresh needs a finite freshness deadline to define its trigger window.
    RefreshRequiresFiniteDecisionFreshnessTtl,
    /// Refresh must start strictly before the freshness deadline.
    RefreshWindowNotLessThanDecisionFreshnessTtl,
}

/// Timing and cache configuration owned by the transport-neutral gate.
///
/// Build one with [`PolicyGateConfig::builder`]; every field defaults to the matching `DEFAULT_*`
/// constant, and [`PolicyGateConfigBuilder::build`] enforces the cross-field rules the runtime
/// relies on.
#[derive(Clone, Copy, Debug, PartialEq, Eq)]
pub struct PolicyGateConfig {
    settings: Settings,
}

/// Builds one validated gate configuration.
///
/// Each setter documents only its default; see the matching [`PolicyGateConfig`] accessor for what
/// the value controls.
#[derive(Clone, Copy, Debug, PartialEq, Eq)]
pub struct PolicyGateConfigBuilder {
    candidate: Settings,
}

impl View for PolicyGateConfig {
    type V = Settings;

    closed spec fn view(&self) -> Settings {
        self.settings
    }
}

impl View for PolicyGateConfigBuilder {
    type V = Settings;

    closed spec fn view(&self) -> Settings {
        self.candidate
    }
}

impl Settings {
    /// The rules between settings that hold of every built configuration.
    pub open spec fn valid(self) -> bool {
        &&& self.unary_timeout.nanos <= self.admission_timeout.nanos
        &&& 0 < self.initial_admission_retry_delay.nanos <= self.max_admission_retry_delay.nanos
        &&& 0 < self.initial_reconnect_delay.nanos <= self.max_reconnect_delay.nanos
        &&& 0 < self.watch_events_per_yield
        &&& 0 < self.max_subjects
        &&& 0 < self.refresh_queue_capacity
        &&& 0 < self.refresh_enqueue_timeout.nanos
        &&& 0 < self.decision_freshness_ttl.nanos
        &&& self.refresh_before_expiry.nanos < self.decision_freshness_ttl.nanos
        &&& self.decision_freshness_ttl.nanos == MAX_SPAN_NANOS
            ==> self.refresh_before_expiry.nanos == 0
    }
}

/// The settings before any setter ran.
pub open spec fn default_settings() -> Settings {
    Settings {
        unary_timeout: Duration { nanos: DEFAULT_UNARY_TIMEOUT },
        admission_timeout: Duration { nanos: DEFAULT_ADMISSION_TIMEOUT },
        initial_admission_retry_delay: Duration { nanos: DEFAULT_INITIAL_ADMISSION_RETRY_DELAY },
        max_admission_retry_delay: Duration { nanos: DEFAULT_MAX_ADMISSION_RETRY_DELAY },
        permanent_failure_cooldown: Duration { nanos: DEFAULT_PERMANENT_FAILURE_COOLDOWN },
        snapshot_republish_interval: Duration { nanos: DEFAULT_SNAPSHOT_REPUBLISH_INTERVAL },
        initial_reconnect_delay: Duration { nanos: DEFAULT_INITIAL_RECONNECT_DELAY },
        max_reconnect_delay: Duration { nanos: DEFAULT_MAX_RECONNECT_DELAY },
        watch_events_per_yield: DEFAULT_WATCH_EVENTS_PER_YIELD,
        max_subjects: DEFAULT_MAX_SUBJECTS,
        subject_ttl: Duration { nanos: DEFAULT_SUBJECT_TTL },
        decision_freshness_ttl: Duration { nanos: DEFAULT_DECISION_FRESHNESS_TTL },
        refresh_before_expiry: Duration { nanos: DEFAULT_REFRESH_BEFORE_EXPIRY },
        refresh_enqueue_timeout: Duration { nanos: DEFAULT_REFRESH_ENQUEUE_TIMEOUT },
        refresh_queue_capacity: DEFAULT_REFRESH_QUEUE_CAPACITY,
    }
}

impl PolicyGateConfig {
    #[verifier::type_invariant]
    spec fn built(self) -> bool {
        self.settings.valid()
    }

    /// Starts a builder with the default timing and capacity values.
    pub fn builder() -> (builder: PolicyGateConfigBuilder)
        ensures
            builder@ == default_settings(),
    {
        PolicyGateConfigBuilder {
            candidate: Settings {
                unary_timeout: Duration::from_nanos(DEFAULT_UNARY_TIMEOUT),
                admission_timeout: Duration::from_nanos(DEFAULT_ADMISSION_TIMEOUT),
                initial_admission_retry_delay: Duration::from_nanos(DEFAULT_INITIAL_ADMISSION_RETRY_DELAY),
                max_admission_retry_delay: Duration::from_nanos(DEFAULT_MAX_ADMISSION_RETRY_DELAY),
                permanent_failure_cooldown: Duration::from_nanos(DEFAULT_PERMANENT_FAILURE_COOLDOWN),
                snapshot_republish_interval: Duration::from_nanos(DEFAULT_SNAPSHOT_REPUBLISH_INTERVAL),
                initial_reconnect_delay: Duration::from_nanos(DEFAULT_INITIAL_RECONNECT_DELAY),
                max_reconnect_delay: Duration::from_nanos(DEFAULT_MAX_RECONNECT_DELAY),
                watch_events_per_yield: DEFAULT_WATCH_EVENTS_PER_YIELD,
                max_subjects: DEFAULT_MAX_SUBJECTS,
                subject_ttl: Duration::from_nanos(DEFAULT_SUBJECT_TTL),
                decision_freshness_ttl: Duration::from_nanos(DEFAULT_DECISION_FRESHNESS_TTL),
                refresh_before_expiry: Duration::from_nanos(DEFAULT_REFRESH_BEFORE_EXPIRY),
                refresh_enqueue_timeout: Duration::from_nanos(DEFAULT_REFRESH_ENQUEUE_TIMEOUT),
                refresh_queue_capacity: DEFAULT_REFRESH_QUEUE_CAPACITY,
            },
        }
    }

    /// Per-attempt budget for one lookup of a subject's decision.
    pub fn unary_timeout(&self) -> (unary_timeout: Duration)
        ensures
            unary_timeout == self@.unary_timeout,
            self@.unary_timeout.nanos <= self@.admission_timeout.nanos,
    {
        proof {
            use_type_invariant(self);
        }
        self.settings.unary_timeout
    }

    /// Total budget for one admission.
    ///
    /// It covers waiting for the watch, every lookup attempt, and every retry. It is also the
    /// window after which the health of the decision source is reported as failed, and the minimum
    /// spacing between readmission attempts made by an enforced stream.
    pub fn admission_timeout(&self) -> (admission_timeout: Duration)
        ensures
            admission_timeout == self@.admission_timeout,
    {
        self.settings.admission_timeout
    }

    /// First delay in the admission retry backoff after a transient failure.
    pub fn initial_admission_retry_delay(&self) -> (initial_admission_retry_delay: Duration)
        ensures
            initial_admission_retry_delay == self@.initial_admission_retry_delay,
            0 < initial_admission_retry_delay.nanos <= self@.max_admission_retry_delay.nanos,
    {
        proof {
            use_type_invariant(self);
        }
        self.settings.initial_admission_retry_delay
    }

    /// Ceiling for the doubling admission retry backoff.
    pub fn max_admission_retry_delay(&self) -> (max_admission_retry_delay: Duration)
        ensures
            max_admission_retry_delay == self@.max_admission_retry_delay,
    {
        self.settings.max_admission_retry_delay
    }

    /// Minimum spacing between lookups for a subject whose last lookup failed permanently.
    pub fn permanent_failure_cooldown(&self) -> (permanent_failure_cooldown: Duration)
        ensures
            permanent_failure_cooldown == self@.permanent_failure_cooldown,
    {
        self.settings.permanent_failure_cooldown
    }

    /// Minimum interval between rebuilds of the cached decision snapshot.
    ///
    /// Until a rebuild runs, a newly cached subject is served through the slower map path.
    pub fn snapshot_republish_interval(&self) -> (snapshot_republish_interval: Duration)
        ensures
            snapshot_republish_interval == self@.snapshot_republish_interval,
    {
        self.settings.snapshot_republish_interval
    }

    /// First delay before the watcher reopens a lost watch, before jitter.
    pub fn initial_reconnect_delay(&self) -> (initial_reconnect_delay: Duration)
        ensures
            initial_reconnect_delay == self@.initial_reconnect_delay,
            0 < initial_reconnect_delay.nanos <= self@.max_reconnect_delay.nanos,
    {
        proof {
            use_type_invariant(self);
        }
        self.settings.initial_reconnect_delay
    }

    /// Ceiling for the doubling reconnect backoff.
    ///
    /// It doubles as the stability threshold: a watch that stays open this long resets the backoff
    /// and reports healthy.
    pub fn max_reconnect_delay(&self) -> (max_reconnect_delay: Duration)
        ensures
            max_reconnect_delay == self@.max_reconnect_delay,
    {
        self.settings.max_reconnect_delay
    }

    /// Number of watch changes the watcher applies before yielding to the async runtime.
    pub fn watch_events_per_yield(&self) -> (watch_events_per_yield: usize)
        ensures
            watch_events_per_yield == self@.watch_events_per_yield,
            0 < watch_events_per_yield,
    {
        proof {
            use_type_invariant(self);
        }
        self.settings.watch_events_per_yield
    }

    /// Capacity of the cached subject map.
    ///
    /// Inserting past it evicts the least recently used subject and marks that subject's admission
    /// handles stale.
    pub fn max_subjects(&self) -> (max_subjects: usize)
        ensures
            max_subjects == self@.max_subjects,
            0 < max_subjects,
    {
        proof {
            use_type_invariant(self);
        }
        self.settings.max_subjects
    }

    /// Idle time after which a cached subject is evicted and its admission handles are marked stale.
    pub fn subject_ttl(&self) -> (subject_ttl: Duration)
        ensures
            subject_ttl == self@.subject_ttl,
    {
        self.settings.subject_ttl
    }

    /// Absolute age after which an authoritative decision is no longer usable.
    ///
    /// Unlike the idle time of a subject, ordinary access does not extend this deadline. The longest
    /// span disables decision freshness checks; it is never converted into a deadline.
    pub fn decision_freshness_ttl(&self) -> (decision_freshness_ttl: Duration)
        ensures
            decision_freshness_ttl == self@.decision_freshness_ttl,
            0 < decision_freshness_ttl.nanos,
    {
        proof {
            use_type_invariant(self);
        }
        self.settings.decision_freshness_ttl
    }

    /// Window before decision expiry in which a cached subject read starts a background refresh.
    /// Zero disables background refresh.
    pub fn refresh_before_expiry(&self) -> (refresh_before_expiry: Duration)
        ensures
            refresh_before_expiry == self@.refresh_before_expiry,
            refresh_before_expiry.nanos < self@.decision_freshness_ttl.nanos,
    {
        proof {
            use_type_invariant(self);
        }
        self.settings.refresh_before_expiry
    }

    /// Maximum time a cached access waits to hand a refresh to the background watcher.
    /// Admission also caps this wait at its remaining admission budget.
    pub fn refresh_enqueue_timeout(&self) -> (refresh_enqueue_timeout: Duration)
        ensures
            refresh_enqueue_timeout == self@.refresh_enqueue_timeout,
            0 < refresh_enqueue_timeout.nanos,
    {
        proof {
            use_type_invariant(self);
        }
        self.settings.refresh_enqueue_timeout
    }

    /// Maximum number of decision refreshes waiting for the background watcher.
    pub fn refresh_queue_capacity(&self) -> (refresh_queue_capacity: usize)
        ensures
            refresh_queue_capacity == self@.refresh_queue_capacity,
            0 < refresh_queue_capacity,
    {
        proof {
            use_type_invariant(self);
        }
        self.settings.refresh_queue_capacity
    }
}

impl PolicyGateConfigBuilder {
    /// Sets [`PolicyGateConfig::unary_timeout`]. Defaults to
    /// [`DEFAULT_UNARY_TIMEOUT`].
    pub fn unary_timeout(self, timeout: Duration) -> (builder: PolicyGateConfigBuilder)
        ensures
            builder@ == (Settings { unary_timeout: timeout, ..self@ }),
    {
        PolicyGateConfigBuilder { candidate: Settings { unary_timeout: timeout, ..self.candidate } }
    }

    /// Sets [`PolicyGateConfig::admission_timeout`]. Defaults to
    /// [`DEFAULT_ADMISSION_TIMEOUT`].
    pub fn admission_timeout(self, timeout: Duration) -> (builder: PolicyGateConfigBuilder)
        ensures
            builder@ == (Settings { admission_timeout: timeout, ..self@ }),
    {
        PolicyGateConfigBuilder { candidate: Settings { admission_timeout: timeout, ..self.candidate } }
    }

    /// Sets [`PolicyGateConfig::initial_admission_retry_delay`]. Defaults to
    /// [`DEFAULT_INITIAL_ADMISSION_RETRY_DELAY`].
    pub fn initial_admission_retry_delay(self, delay: Duration) -> (builder: PolicyGateConfigBuilder)
        ensures
            builder@ == (Settings { initial_admission_retry_delay: delay, ..self@ }),
    {
        PolicyGateConfigBuilder { candidate: Settings { initial_admission_retry_delay: delay, ..self.candidate } }
    }

    /// Sets [`PolicyGateConfig::max_admission_retry_delay`]. Defaults to
    /// [`DEFAULT_MAX_ADMISSION_RETRY_DELAY`].
    pub fn max_admission_retry_delay(self, delay: Duration) -> (builder: PolicyGateConfigBuilder)
        ensures
            builder@ == (Settings { max_admission_retry_delay: delay, ..self@ }),
    {
        PolicyGateConfigBuilder { candidate: Settings { max_admission_retry_delay: delay, ..self.candidate } }
    }

    /// Sets [`PolicyGateConfig::permanent_failure_cooldown`]. Defaults to
    /// [`DEFAULT_PERMANENT_FAILURE_COOLDOWN`].
    pub fn permanent_failure_cooldown(self, cooldown: Duration) -> (builder: PolicyGateConfigBuilder)
        ensures
            builder@ == (Settings { permanent_failure_cooldown: cooldown, ..self@ }),
    {
        PolicyGateConfigBuilder { candidate: Settings { permanent_failure_cooldown: cooldown, ..self.candidate } }
    }

    /// Sets [`PolicyGateConfig::snapshot_republish_interval`]. Defaults to
    /// [`DEFAULT_SNAPSHOT_REPUBLISH_INTERVAL`].
    pub fn snapshot_republish_interval(self, interval: Duration) -> (builder: PolicyGateConfigBuilder)
        ensures
            builder@ == (Settings { snapshot_republish_interval: interval, ..self@ }),
    {
        PolicyGateConfigBuilder { candidate: Settings { snapshot_republish_interval: interval, ..self.candidate } }
    }

    /// Sets [`PolicyGateConfig::initial_reconnect_delay`]. Defaults to
    /// [`DEFAULT_INITIAL_RECONNECT_DELAY`].
    pub fn initial_reconnect_delay(self, delay: Duration) -> (builder: PolicyGateConfigBuilder)
        ensures
            builder@ == (Settings { initial_reconnect_delay: delay, ..self@ }),
    {
        PolicyGateConfigBuilder { candidate: Settings { initial_reconnect_delay: delay, ..self.candidate } }
    }

    /// Sets [`PolicyGateConfig::max_reconnect_delay`]. Defaults to
    /// [`DEFAULT_MAX_RECONNECT_DELAY`].
    pub fn max_reconnect_delay(self, delay: Duration) -> (builder: PolicyGateConfigBuilder)
        ensures
            builder@ == (Settings { max_reconnect_delay: delay, ..self@ }),
    {
        PolicyGateConfigBuilder { candidate: Settings { max_reconnect_delay: delay, ..self.candidate } }
    }

    /// Sets [`PolicyGateConfig::watch_events_per_yield`]. Defaults to
    /// [`DEFAULT_WATCH_EVENTS_PER_YIELD`].
    pub fn watch_events_per_yield(self, events: usize) -> (builder: PolicyGateConfigBuilder)
        ensures
            builder@ == (Settings { watch_events_per_yield: events, ..self@ }),
    {
        PolicyGateConfigBuilder { candidate: Settings { watch_events_per_yield: events, ..self.candidate } }
    }

    /// Sets [`PolicyGateConfig::max_subjects`]. Defaults to
    /// [`DEFAULT_MAX_SUBJECTS`].
    pub fn max_subjects(self, max_subjects: usize) -> (builder: PolicyGateConfigBuilder)
        ensures
            builder@ == (Settings { max_subjects, ..self@ }),
    {
        PolicyGateConfigBuilder { candidate: Settings { max_subjects, ..self.candidate } }
    }

    /// Sets [`PolicyGateConfig::subject_ttl`]. Defaults to
    /// [`DEFAULT_SUBJECT_TTL`].
    pub fn subject_ttl(self, subject_ttl: Duration) -> (builder: PolicyGateConfigBuilder)
        ensures
            builder@ == (Settings { subject_ttl, ..self@ }),
    {
        PolicyGateConfigBuilder { candidate: Settings { subject_ttl, ..self.candidate } }
    }

    /// Sets [`PolicyGateConfig::decision_freshness_ttl`]. Defaults to
    /// [`DEFAULT_DECISION_FRESHNESS_TTL`].
    pub fn decision_freshness_ttl(self, ttl: Duration) -> (builder: PolicyGateConfigBuilder)
        ensures
            builder@ == (Settings { decision_freshness_ttl: ttl, ..self@ }),
    {
        PolicyGateConfigBuilder { candidate: Settings { decision_freshness_ttl: ttl, ..self.candidate } }
    }

    /// Sets [`PolicyGateConfig::refresh_before_expiry`]. Defaults to
    /// [`DEFAULT_REFRESH_BEFORE_EXPIRY`].
    pub fn refresh_before_expiry(self, refresh_before: Duration) -> (builder: PolicyGateConfigBuilder)
        ensures
            builder@ == (Settings { refresh_before_expiry: refresh_before, ..self@ }),
    {
        PolicyGateConfigBuilder { candidate: Settings { refresh_before_expiry: refresh_before, ..self.candidate } }
    }

    /// Sets [`PolicyGateConfig::refresh_enqueue_timeout`]. Defaults to
    /// [`DEFAULT_REFRESH_ENQUEUE_TIMEOUT`].
    pub fn refresh_enqueue_timeout(self, timeout: Duration) -> (builder: PolicyGateConfigBuilder)
        ensures
            builder@ == (Settings { refresh_enqueue_timeout: timeout, ..self@ }),
    {
        PolicyGateConfigBuilder { candidate: Settings { refresh_enqueue_timeout: timeout, ..self.candidate } }
    }

    /// Sets [`PolicyGateConfig::refresh_queue_capacity`]. Defaults to
    /// [`DEFAULT_REFRESH_QUEUE_CAPACITY`].
    pub fn refresh_queue_capacity(self, capacity: usize) -> (builder: PolicyGateConfigBuilder)
        ensures
            builder@ == (Settings { refresh_queue_capacity: capacity, ..self@ }),
    {
        PolicyGateConfigBuilder { candidate: Settings { refresh_queue_capacity: capacity, ..self.candidate } }
    }

    /// Checks the cross-field rules, given which spans this platform can add to its clock.
    ///
    /// # Errors
    ///
    /// Returns a [`ConfigError`] when the candidate settings cannot provide the runtime's timing
    /// and capacity guarantees.
    pub fn build_on(self, fit: DeadlineFit) -> (built: Result<PolicyGateConfig, ConfigError>)
        ensures
            match built {
                Ok(config) => build_error(self@, fit) is None && config@ == self@
                    && config@.valid(),
                Err(error) => build_error(self@, fit) == Some(error),
            },
    {
        let candidate = self.candidate;
        if candidate.unary_timeout.nanos > candidate.admission_timeout.nanos {
            return Err(ConfigError::UnaryExceedsAdmission);
        }
        if candidate.initial_admission_retry_delay.is_zero() {
            return Err(ConfigError::InitialAdmissionRetryDelayZero);
        }
        if candidate.initial_admission_retry_delay.nanos
            > candidate.max_admission_retry_delay.nanos {
            return Err(ConfigError::InitialRetryExceedsMaximum);
        }
        if candidate.initial_reconnect_delay.is_zero() {
            return Err(ConfigError::InitialReconnectDelayZero);
        }
        if candidate.initial_reconnect_delay.nanos > candidate.max_reconnect_delay.nanos {
            return Err(ConfigError::InitialReconnectExceedsMaximum);
        }
        if candidate.watch_events_per_yield == 0 {
            return Err(ConfigError::WatchEventsPerYieldZero);
        }
        if !fit.admission_timeout {
            return Err(ConfigError::AdmissionDeadlineOverflow);
        }
        match fit.first_overflow() {
            Some(name) => {
                return Err(ConfigError::DurationOverflow(name));
            },
            None => {},
        }
        if candidate.max_subjects == 0 {
            return Err(ConfigError::MaxSubjectsZero);
        }
        if candidate.refresh_queue_capacity == 0 {
            return Err(ConfigError::RefreshQueueCapacityZero);
        }
        if candidate.refresh_enqueue_timeout.is_zero() {
            return Err(ConfigError::RefreshEnqueueTimeoutZero);
        }
        if candidate.decision_freshness_ttl.is_zero() {
            return Err(ConfigError::DecisionFreshnessTtlZero);
        }
        if !candidate.refresh_before_expiry.is_zero() && candidate.decision_freshness_ttl.nanos
            == MAX_SPAN_NANOS {
            return Err(ConfigError::RefreshRequiresFiniteDecisionFreshnessTtl);
        }
        if candidate.refresh_before_expiry.nanos >= candidate.decision_freshness_ttl.nanos {
            return Err(ConfigError::RefreshWindowNotLessThanDecisionFreshnessTtl);
        }
        if candidate.decision_freshness_ttl.nanos != DEFAULT_DECISION_FRESHNESS_TTL
            && !fit.decision_freshness_ttl {
            return Err(ConfigError::DurationOverflow("decision freshness TTL"));
        }
        Ok(PolicyGateConfig { settings: candidate })
    }

    /// Checks the cross-field rules on this platform's clock.
    ///
    /// # Errors
    ///
    /// Returns a [`ConfigError`] when the candidate settings cannot provide the runtime's timing
    /// and capacity guarantees. The clock is read once and asked about every span; which ones are
    /// too long for a deadline depends on the platform.
    pub fn build(self) -> (built: Result<PolicyGateConfig, ConfigError>)
        ensures
            exists|now: std::time::Instant, fit: DeadlineFit|
                {
                    &&& clock_shows(now)
                    &&& #[trigger] clock_fit(&now, self@, fit)
                    &&& fits_zero(self@, fit)
                    &&& match built {
                        Ok(config) => build_error(self@, fit) is None && config@ == self@
                            && config@.valid(),
                        Err(error) => build_error(self@, fit) == Some(error),
                    }
                },
    {
        let candidate = self.candidate;
        let now = clock_now();
        let fit = DeadlineFit {
            admission_timeout: deadline_fits(&now, candidate.admission_timeout),
            initial_admission_retry_delay: deadline_fits(
                &now,
                candidate.initial_admission_retry_delay,
            ),
            max_admission_retry_delay: deadline_fits(&now, candidate.max_admission_retry_delay),
            permanent_failure_cooldown: deadline_fits(&now, candidate.permanent_failure_cooldown),
            snapshot_republish_interval: deadline_fits(
                &now,
                candidate.snapshot_republish_interval,
            ),
            initial_reconnect_delay: deadline_fits(&now, candidate.initial_reconnect_delay),
            max_reconnect_delay: deadline_fits(&now, candidate.max_reconnect_delay),
            refresh_enqueue_timeout: deadline_fits(&now, candidate.refresh_enqueue_timeout),
            decision_freshness_ttl: deadline_fits(&now, candidate.decision_freshness_ttl),
        };
        assert(clock_shows(now));
        assert(clock_fit(&now, self@, fit));
        self.build_on(fit)
    }
}

/// Which settings a platform can add to its current time.
#[derive(Clone, Copy, Debug)]
pub struct DeadlineFit {
    pub admission_timeout: bool,
    pub initial_admission_retry_delay: bool,
    pub max_admission_retry_delay: bool,
    pub permanent_failure_cooldown: bool,
    pub snapshot_republish_interval: bool,
    pub initial_reconnect_delay: bool,
    pub max_reconnect_delay: bool,
    pub refresh_enqueue_timeout: bool,
    pub decision_freshness_ttl: bool,
}

impl DeadlineFit {
    /// Name of the first span, after the admission timeout, that is too long for a deadline.
    pub open spec fn spec_first_overflow(self) -> Option<&'static str> {
        if !self.initial_admission_retry_delay {
            Some("initial admission retry delay")
        } else if !self.max_admission_retry_delay {
            Some("maximum admission retry delay")
        } else if !self.permanent_failure_cooldown {
            Some("permanent failure cooldown")
        } else if !self.snapshot_republish_interval {
            Some("snapshot republish interval")
        } else if !self.initial_reconnect_delay {
            Some("initial reconnect delay")
        } else if !self.max_reconnect_delay {
            Some("maximum reconnect delay")
        } else if !self.refresh_enqueue_timeout {
            Some("refresh enqueue timeout")
        } else {
            None
        }
    }

    fn first_overflow(&self) -> (name: Option<&'static str>)
        ensures
            name == self.spec_first_overflow(),
    {
        if !self.initial_admission_retry_delay {
            Some("initial admission retry delay")
        } else if !self.max_admission_retry_delay {
            Some("maximum admission retry delay")
        } else if !self.permanent_failure_cooldown {
            Some("permanent failure cooldown")
        } else if !self.snapshot_republish_interval {
            Some("snapshot republish interval")
        } else if !self.initial_reconnect_delay {
            Some("initial reconnect delay")
        } else if !self.max_reconnect_delay {
            Some("maximum reconnect delay")
        } else if !self.refresh_enqueue_timeout {
            Some("refresh enqueue timeout")
        } else {
            None
        }
    }
}

/// Whether every empty span fits: the current time itself can be represented.
pub open spec fn fits_zero(settings: Settings, fit: DeadlineFit) -> bool {
    &&& settings.admission_timeout.nanos == 0 ==> fit.admission_timeout
    &&& settings.permanent_failure_cooldown.nanos == 0 ==> fit.permanent_failure_cooldown
    &&& settings.snapshot_republish_interval.nanos == 0 ==> fit.snapshot_republish_interval
    &&& settings.refresh_enqueue_timeout.nanos == 0 ==> fit.refresh_enqueue_timeout
    &&& settings.decision_freshness_ttl.nanos == 0 ==> fit.decision_freshness_ttl
}

/// Whether the platform's clock, asked at `now`, says of each span whether it fits what `fit` says.
pub open spec fn clock_fit(now: &std::time::Instant, settings: Settings, fit: DeadlineFit) -> bool {
    &&& span_fit(now, settings.admission_timeout, fit.admission_timeout)
    &&& span_fit(now, settings.initial_admission_retry_delay, fit.initial_admission_retry_delay)
    &&& span_fit(now, settings.max_admission_retry_delay, fit.max_admission_retry_delay)
    &&& span_fit(now, settings.permanent_failure_cooldown, fit.permanent_failure_cooldown)
    &&& span_fit(now, settings.snapshot_republish_interval, fit.snapshot_republish_interval)
    &&& span_fit(now, settings.initial_reconnect_delay, fit.initial_reconnect_delay)
    &&& span_fit(now, settings.max_reconnect_delay, fit.max_reconnect_delay)
    &&& span_fit(now, settings.refresh_enqueue_timeout, fit.refresh_enqueue_timeout)
    &&& span_fit(now, settings.decision_freshness_ttl, fit.decision_freshness_ttl)
}

/// The first rule that `settings` break on a platform with these limits.
pub open spec fn build_error(settings: Settings, fit: DeadlineFit) -> Option<ConfigError> {
    if settings.unary_timeout.nanos > settings.admission_timeout.nanos {
        Some(ConfigError::UnaryExceedsAdmission)
    } else if settings.initial_admission_retry_delay.nanos == 0 {
        Some(ConfigError::InitialAdmissionRetryDelayZero)
    } else if settings.initial_admission_retry_delay.nanos
        > settings.max_admission_retry_delay.nanos {
        Some(ConfigError::InitialRetryExceedsMaximum)
    } else if settings.initial_reconnect_delay.nanos == 0 {
        Some(ConfigError::InitialReconnectDelayZero)
    } else if settings.initial_reconnect_delay.nanos > settings.max_reconnect_delay.nanos {
        Some(ConfigError::InitialReconnectExceedsMaximum)
    } else if settings.watch_events_per_yield == 0 {
        Some(ConfigError::WatchEventsPerYieldZero)
    } else if !fit.admission_timeout {
        Some(ConfigError::AdmissionDeadlineOverflow)
    } else if fit.spec_first_overflow() is Some {
        Some(ConfigError::DurationOverflow(fit.spec_first_overflow()->0))
    } else if settings.max_subjects == 0 {
        Some(ConfigError::MaxSubjectsZero)
    } else if settings.refresh_queue_capacity == 0 {
        Some(ConfigError::RefreshQueueCapacityZero)
    } else if settings.refresh_enqueue_timeout.nanos == 0 {
        Some(ConfigError::RefreshEnqueueTimeoutZero)
    } else if settings.decision_freshness_ttl.nanos == 0 {
        Some(ConfigError::DecisionFreshnessTtlZero)
    } else if settings.refresh_before_expiry.nanos != 0 && settings.decision_freshness_ttl.nanos
        == MAX_SPAN_NANOS {
        Some(ConfigError::RefreshRequiresFiniteDecisionFreshnessTtl)
    } else if settings.refresh_before_expiry.nanos >= settings.decision_freshness_ttl.nanos {
        Some(ConfigError::RefreshWindowNotLessThanDecisionFreshnessTtl)
    } else if settings.decision_freshness_ttl.nanos != MAX_SPAN_NANOS
        && !fit.decision_freshness_ttl {
        Some(ConfigError::DurationOverflow("decision freshness TTL"))
    } else {
        None
    }
}

#[verifier::external_type_specification]
#[verifier::external_body]
pub struct ExClockInstant(std::time::Instant);

/// `std::time::Instant::now`: the platform's current time, of which nothing is claimed.
#[verifier::external_body]
fn clock_now() -> (now: std::time::Instant) {
    std::time::Instant::now()
}

/// Whether the platform's clock may show `now` when it is read.
pub closed spec fn clock_shows(now: std::time::Instant) -> bool {
    call_ensures(clock_now, (), now)
}

/// `std::time::Instant::checked_add`: the time `secs` seconds and `nanos` nanoseconds later, where
/// the platform can represent it. It can represent `now` itself.
#[verifier::external_body]
fn clock_checked_add(now: &std::time::Instant, secs: u64, nanos: u32) -> (later: Option<
    std::time::Instant,
>)
    requires
        nanos < 1_000_000_000,
    ensures
        secs == 0 && nanos == 0 ==> later is Some,
{
    now.checked_add(core::time::Duration::new(secs, nanos))
}

/// Whether the platform's clock may answer `later` when asked for the time `span` after `now`. The
/// clock is asked in whole seconds, of which it knows `u64::MAX` at most, and the rest.
spec fn clock_answers(
    now: &std::time::Instant,
    span: Duration,
    later: Option<std::time::Instant>,
) -> bool {
    let secs = time::least(span.nanos as int / NANOS_PER_SEC as int, u64::MAX as int) as u64;
    let nanos = (span.nanos as int % NANOS_PER_SEC as int) as u32;
    call_ensures(clock_checked_add, (now, secs, nanos), later)
}

/// Whether the platform's clock, asked for the time `span` after `now`, answers with a time exactly
/// where `fits` says so.
pub closed spec fn span_fit(now: &std::time::Instant, span: Duration, fits: bool) -> bool {
    exists|later: Option<std::time::Instant>| #[trigger]
        clock_answers(now, span, later) && fits == later is Some
}

/// The platform's clock is asked for the whole span, in seconds and nanoseconds that make it up.
proof fn the_clock_is_asked_for_the_whole_span(
    now: &std::time::Instant,
    span: Duration,
    fits: bool,
    secs: u64,
    nanos: u32,
)
    requires
        span_fit(now, span, fits),
        secs * NANOS_PER_SEC + nanos == span.nanos,
        nanos < NANOS_PER_SEC,
    ensures
        exists|later: Option<std::time::Instant>| #[trigger]
            call_ensures(clock_checked_add, (now, secs, nanos), later) && fits == later is Some,
{
    let later = choose|later: Option<std::time::Instant>| #[trigger]
        clock_answers(now, span, later) && fits == later is Some;
    assert(span.nanos as int / NANOS_PER_SEC as int == secs);
    assert(span.nanos as int % NANOS_PER_SEC as int == nanos);
    assert(call_ensures(clock_checked_add, (now, secs, nanos), later));
}

/// Returns whether the platform can represent the time `span` after `now`: whether the clock, asked
/// for it, answers with a time.
fn deadline_fits(now: &std::time::Instant, span: Duration) -> (fits: bool)
    ensures
        span_fit(now, span, fits),
        span.nanos == 0 ==> fits,
{
    let later = clock_checked_add(now, span.as_secs(), span.subsec_nanos());
    assert(clock_answers(now, span, later));
    later.is_some()
}

/// Returns how far beyond `origin` the platform's clock reaches: by a span that it can add to
/// `origin`, and cannot add once the span is a nanosecond longer, unless it is the longest span.
pub fn clock_reach(origin: &std::time::Instant) -> (reach: Duration)
    ensures
        reach.nanos <= MAX_SPAN_NANOS,
        span_fit(origin, reach, true),
        reach.nanos == MAX_SPAN_NANOS || span_fit(
            origin,
            Duration { nanos: (reach.nanos + 1) as u128 },
            false,
        ),
{
    let longest = Duration { nanos: MAX_SPAN_NANOS };
    if deadline_fits(origin, longest) {
        return longest;
    }
    let mut near: u128 = 0;
    let mut far: u128 = MAX_SPAN_NANOS;
    let fits = deadline_fits(origin, Duration { nanos: near });
    assert(fits);
    while far - near > 1
        invariant
            near < far <= MAX_SPAN_NANOS,
            span_fit(origin, Duration { nanos: near }, true),
            span_fit(origin, Duration { nanos: far }, false),
        decreases far - near,
    {
        let middle: u128 = near + (far - near) / 2;
        if deadline_fits(origin, Duration { nanos: middle }) {
            near = middle;
        } else {
            far = middle;
        }
    }
    Duration { nanos: near }
}

impl ConfigError {
    /// Text of this error.
    pub open spec fn text(self) -> Seq<char> {
        match self {
            ConfigError::UnaryExceedsAdmission => "unary timeout must not exceed admission timeout"@,
            ConfigError::InitialAdmissionRetryDelayZero =>
                "initial admission retry delay must be greater than zero"@,
            ConfigError::InitialRetryExceedsMaximum =>
                "initial admission retry delay must not exceed its maximum"@,
            ConfigError::InitialReconnectDelayZero =>
                "initial reconnect delay must be greater than zero"@,
            ConfigError::InitialReconnectExceedsMaximum =>
                "initial reconnect delay must not exceed its maximum"@,
            ConfigError::WatchEventsPerYieldZero =>
                "watch events per yield must be greater than zero"@,
            ConfigError::AdmissionDeadlineOverflow =>
                "admission timeout is too large to represent as an Instant deadline"@,
            ConfigError::DurationOverflow(name) => name@
                + " is too large to represent as an Instant deadline"@,
            ConfigError::MaxSubjectsZero => "maximum subject count must be greater than zero"@,
            ConfigError::RefreshQueueCapacityZero =>
                "refresh queue capacity must be greater than zero"@,
            ConfigError::RefreshEnqueueTimeoutZero =>
                "refresh enqueue timeout must be greater than zero"@,
            ConfigError::DecisionFreshnessTtlZero =>
                "decision freshness TTL must be greater than zero"@,
            ConfigError::RefreshRequiresFiniteDecisionFreshnessTtl =>
                "decision refresh requires a finite decision freshness TTL"@,
            ConfigError::RefreshWindowNotLessThanDecisionFreshnessTtl =>
                "decision refresh window must be less than decision freshness TTL"@,
        }
    }

    /// Describes this error in one sentence.
    pub fn message(&self) -> (message: String)
        ensures
            message@ == self.text(),
    {
        let fixed: &str = match self {
            ConfigError::UnaryExceedsAdmission => "unary timeout must not exceed admission timeout",
            ConfigError::InitialAdmissionRetryDelayZero =>
                "initial admission retry delay must be greater than zero",
            ConfigError::InitialRetryExceedsMaximum =>
                "initial admission retry delay must not exceed its maximum",
            ConfigError::InitialReconnectDelayZero =>
                "initial reconnect delay must be greater than zero",
            ConfigError::InitialReconnectExceedsMaximum =>
                "initial reconnect delay must not exceed its maximum",
            ConfigError::WatchEventsPerYieldZero =>
                "watch events per yield must be greater than zero",
            ConfigError::AdmissionDeadlineOverflow =>
                "admission timeout is too large to represent as an Instant deadline",
            ConfigError::DurationOverflow(name) => {
                return (*name).to_owned().concat(
                    " is too large to represent as an Instant deadline",
                );
            },
            ConfigError::MaxSubjectsZero => "maximum subject count must be greater than zero",
            ConfigError::RefreshQueueCapacityZero =>
                "refresh queue capacity must be greater than zero",
            ConfigError::RefreshEnqueueTimeoutZero =>
                "refresh enqueue timeout must be greater than zero",
            ConfigError::DecisionFreshnessTtlZero =>
                "decision freshness TTL must be greater than zero",
            ConfigError::RefreshRequiresFiniteDecisionFreshnessTtl =>
                "decision refresh requires a finite decision freshness TTL",
            ConfigError::RefreshWindowNotLessThanDecisionFreshnessTtl =>
                "decision refresh window must be less than decision freshness TTL",
        };
        fixed.to_owned()
    }
}

} // verus!
