//! Exact values of one entry's words, deadlines and refresh ticks, and of the clock's arithmetic.

use std::sync::Arc;

use policy_gate::entry::{
    decode_deadline, decode_entry_state, word, Entry, EntryState, Observed, MAX_FINITE_DEADLINE,
    NO_EXPIRY,
};
use policy_gate::time::{earlier, MAX_SPAN_NANOS};
use policy_gate::{Decision, DecisionResult, Duration, Instant};

fn at(nanos: u128) -> Instant {
    Instant::from_nanos(nanos)
}

fn span(nanos: u128) -> Duration {
    Duration::from_nanos(nanos)
}

/// An entry of subject 7 with epoch 1,000, lookup 3 in flight and a refresh window of 40.
fn entry() -> Entry<&'static str> {
    Entry::pending(7, at(1_000), 3, span(40))
}

fn result(decision: Decision, valid_until: Option<Instant>) -> DecisionResult<&'static str> {
    DecisionResult {
        decision,
        payload: Some(Arc::new("payload")),
        valid_until,
    }
}

#[test]
fn a_word_holds_its_state_below_its_deadline() {
    assert_eq!(word(EntryState::Pending, 5), 20);
    assert_eq!(word(EntryState::Allowed, 5), 21);
    assert_eq!(word(EntryState::Denied, 5), 22);
    assert_eq!(word(EntryState::Stale, 5), 23);
    assert_eq!(word(EntryState::Stale, NO_EXPIRY), u64::MAX);
    for state in [
        EntryState::Pending,
        EntryState::Allowed,
        EntryState::Denied,
        EntryState::Stale,
    ] {
        for deadline in [0, 1, MAX_FINITE_DEADLINE, NO_EXPIRY] {
            let packed = word(state, deadline);
            assert_eq!(decode_entry_state(packed), state);
            assert_eq!(decode_deadline(packed), deadline);
        }
    }
    assert_eq!(MAX_FINITE_DEADLINE + 1, NO_EXPIRY);
    assert_eq!(NO_EXPIRY, (1 << 62) - 1);
}

#[test]
fn a_new_entry_is_pending_and_never_expires() {
    let mut entry = entry();
    assert_eq!(entry.state_at(at(u128::MAX)), EntryState::Pending);
    assert_eq!(entry.verdict_at(at(1_000)), None);
    assert!(entry.pending_generation(3));
    assert!(!entry.pending_generation(4));
    assert!(!entry.refresh_due_at(at(1_000)));
}

#[test]
fn ticks_count_from_the_epoch_within_the_finite_deadlines() {
    let entry = entry();
    assert_eq!(entry.tick(at(999)), 0);
    assert_eq!(entry.tick(at(1_000)), 0);
    assert_eq!(entry.tick(at(1_025)), 25);
    assert_eq!(entry.tick(at(u128::MAX)), MAX_FINITE_DEADLINE);
}

#[test]
fn deadlines_are_finite_absent_or_over() {
    let entry = entry();
    assert_eq!(entry.deadline_after(at(1_025), span(100)), 125);
    assert_eq!(entry.deadline_after(at(1_025), Duration::longest()), NO_EXPIRY);
    let last = u128::from(MAX_FINITE_DEADLINE) - 25;
    assert_eq!(entry.deadline_after(at(1_025), span(last)), MAX_FINITE_DEADLINE);
    assert_eq!(entry.deadline_after(at(1_025), span(last + 1)), 25);
    assert_eq!(entry.deadline_after(at(1_025), span(u128::from(u64::MAX) + 1)), 25);
}

#[test]
fn a_snapshot_takes_the_earlier_of_freshness_and_cap() {
    let entry = entry();
    let fresh = entry.decision_snapshot(result(Decision::Allowed, None), span(100), at(1_010));
    assert_eq!(fresh.word, word(EntryState::Allowed, 110));
    assert_eq!(fresh.refresh_after, 0);
    assert_eq!(fresh.payload.as_deref(), Some(&"payload"));
    let capped = entry.decision_snapshot(
        result(Decision::Denied, Some(at(1_041))),
        span(100),
        at(1_010),
    );
    assert_eq!(capped.word, word(EntryState::Denied, 41));
    assert_eq!(capped.refresh_after, 10 + 16);
    assert!(capped.payload.is_none());
    let late_cap = entry.decision_snapshot(
        result(Decision::Allowed, Some(at(9_000))),
        span(100),
        at(1_010),
    );
    assert_eq!(late_cap.word, word(EntryState::Allowed, 110));
    let passed = entry.decision_snapshot(
        result(Decision::Allowed, Some(at(1_005))),
        Duration::longest(),
        at(1_010),
    );
    assert_eq!(passed.word, word(EntryState::Allowed, 5));
    assert_eq!(passed.refresh_after, 10);
    assert!(entry.is_expired_at(passed.word, at(1_010)));
}

#[test]
fn a_decision_lives_until_its_deadline() {
    let mut entry = entry();
    let snapshot = entry.decision_snapshot(result(Decision::Allowed, None), span(100), at(1_000));
    assert_eq!(entry.decide(snapshot).expect("a lookup").generation, 3);
    assert_eq!(entry.observed_at(at(1_099)), Observed::Allowed);
    assert_eq!(entry.verdict_at(at(1_099)), Some(Decision::Allowed));
    assert!(!entry.refresh_due_at(at(1_059)));
    assert!(entry.refresh_due_at(at(1_060)));
    assert!(entry.refresh_due_at(at(1_099)));
    assert!(!entry.refresh_due_at(at(1_100)));
    assert_eq!(entry.observed_at(at(1_100)), Observed::Expired);
    assert_eq!(entry.current.word, word(EntryState::Stale, 100));
    assert!(entry.current.payload.is_none());
    assert_eq!(entry.observed_at(at(1_050)), Observed::Stale, "seen expired");
}

#[test]
fn a_failed_refresh_waits_out_its_cooldown() {
    let mut entry = entry();
    let snapshot = entry.decision_snapshot(result(Decision::Denied, None), span(100), at(1_000));
    entry.decide(snapshot);
    entry.fail_refresh(at(1_060), span(20));
    assert_eq!(entry.refresh_not_before, 80);
    assert!(!entry.refresh_due_at(at(1_079)));
    assert!(entry.refresh_due_at(at(1_080)));
    entry.fail_refresh(at(1_060), Duration::longest());
    assert_eq!(entry.refresh_not_before, u64::MAX);
}

#[test]
fn invalidation_keeps_the_deadline_and_hands_out_the_lookup() {
    let mut entry = entry();
    assert_eq!(entry.invalidate().expect("a lookup").generation, 3);
    assert_eq!(entry.current.word, word(EntryState::Stale, NO_EXPIRY));
    assert!(entry.invalidate().is_none());
    assert!(!entry.replace_pending(3, None));
}

#[test]
fn spans_saturate() {
    assert_eq!(Duration::from_secs(u64::MAX).nanos, u128::from(u64::MAX) * 1_000_000_000);
    assert_eq!(Duration::longest().nanos, core::time::Duration::MAX.as_nanos());
    assert_eq!(Duration::longest().saturating_double(), Duration::longest());
    assert_eq!(span(MAX_SPAN_NANOS / 2).saturating_double(), span(MAX_SPAN_NANOS - 1));
    assert_eq!(span(3).saturating_double(), span(6));
    assert_eq!(span(3).at_most(span(2)), span(2));
    assert_eq!(span(u128::from(u64::MAX) + 1).clamped_nanos(), u64::MAX);
    assert_eq!(span(2_000_000_003).as_secs(), 2);
    assert_eq!(span(2_000_000_003).subsec_nanos(), 3);
    assert_eq!(Duration::longest().as_secs(), u64::MAX);
}

#[test]
fn instants_stop_at_the_last_one() {
    assert_eq!(at(5).checked_add(span(7), at(12)), Some(at(12)));
    assert_eq!(at(5).checked_add(span(7), at(11)), None);
    assert_eq!(at(5).checked_add(Duration::zero(), at(4)), None);
    let last = Instant::last();
    assert_eq!(last.checked_add(Duration::zero(), last), Some(at(u128::MAX)));
    assert_eq!(last.checked_add(span(1), last), None);
    assert_eq!(at(12).saturating_duration_since(at(5)), span(7));
    assert_eq!(at(5).saturating_duration_since(at(12)), Duration::zero());
    assert_eq!(earlier(Some(at(3)), Some(at(2))), Some(at(2)));
    assert_eq!(earlier(Some(at(2)), Some(at(3))), Some(at(2)));
    assert_eq!(earlier(None, Some(at(3))), Some(at(3)));
    assert_eq!(earlier(Some(at(3)), None), Some(at(3)));
    assert_eq!(earlier(None, None), None);
}
