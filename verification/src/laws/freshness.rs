//! Laws of decision freshness: expiry, refresh, validity caps and payloads.

use vstd::prelude::*;

use crate::decision::{Decision, DecisionResult, DecisionSourceError};
use crate::entry;
use crate::entry::{Entry, EntryState, Observed, NO_EXPIRY};
use crate::evolution;
use crate::gate::GateModel;
use crate::recency;
use crate::subject_model;
use crate::subject_model::SubjectModel;
use crate::time::{Duration, Instant, MAX_SPAN_NANOS};

verus! {

/// A handle is allowed exactly where its entry holds an allowed decision that has not expired.
pub proof fn allowed_means_allowed_and_unexpired<P>(gate: GateModel<P>, id: u64, now: Instant)
    ensures
        gate.observed(id, now) == Observed::Allowed <==> {
            &&& gate.subjects.table.contains_key(id)
            &&& gate.subjects.table[id].state() == EntryState::Allowed
            &&& !gate.subjects.table[id].expired(now)
        },
{
}

/// What has expired stays expired.
pub proof fn expiry_is_final<P>(entry: Entry<P>, now: Instant, later: Instant)
    requires
        entry.expired(now),
        now.nanos <= later.nanos,
    ensures
        entry.expired(later),
{
}

/// A decision with the longest freshness and without a cap never expires.
pub proof fn the_longest_freshness_never_expires<P>(
    entry: Entry<P>,
    result: DecisionResult<P>,
    ttl: Duration,
    arrival: Instant,
    now: Instant,
)
    requires
        ttl.nanos == MAX_SPAN_NANOS,
        result.valid_until is None,
    ensures
        !entry.decided(entry.spec_decision_snapshot(result, ttl, arrival)).expired(now),
{
    subject_model::lemma_snapshot(entry, result, ttl, arrival);
}

/// A fresh decision is in force from its arrival until its time is over, and no longer.
pub proof fn a_decision_is_in_force_for_its_freshness<P>(
    entry: Entry<P>,
    result: DecisionResult<P>,
    ttl: Duration,
    arrival: Instant,
    now: Instant,
)
    requires
        ttl.nanos != MAX_SPAN_NANOS,
        result.valid_until is None,
        entry.epoch.nanos <= arrival.nanos <= now.nanos,
        now.nanos - entry.epoch.nanos < NO_EXPIRY,
        arrival.nanos - entry.epoch.nanos + ttl.nanos < NO_EXPIRY,
    ensures
        entry.decided(entry.spec_decision_snapshot(result, ttl, arrival)).live_state(now) == if now.nanos
            < arrival.nanos + ttl.nanos {
            entry::decision_state(result.decision)
        } else {
            EntryState::Stale
        },
{
    subject_model::lemma_snapshot(entry, result, ttl, arrival);
}

/// A cap only shortens: a capped decision ends no later than its freshness, and no later than its
/// cap, whatever the freshness.
pub proof fn a_cap_only_shortens<P>(
    entry: Entry<P>,
    result: DecisionResult<P>,
    ttl: Duration,
    arrival: Instant,
    now: Instant,
)
    ensures
        entry.result_deadline(result, ttl, arrival) <= entry.spec_deadline_after(arrival, ttl),
        result.valid_until matches Some(cap) && cap.nanos <= now.nanos ==> entry.decided(
            entry.spec_decision_snapshot(result, ttl, arrival),
        ).expired(now),
{
    subject_model::lemma_snapshot(entry, result, ttl, arrival);
}

/// A decision that arrives inside its own refresh window is not refreshed before half of what is
/// left of it has passed.
pub proof fn a_late_decision_waits_half_its_life<P>(
    entry: Entry<P>,
    result: DecisionResult<P>,
    ttl: Duration,
    arrival: Instant,
    now: Instant,
)
    requires
        entry.result_deadline(result, ttl, arrival) != NO_EXPIRY,
        entry.result_deadline(result, ttl, arrival) - entry.spec_tick(arrival)
            <= entry.refresh_before,
        2 * (entry.spec_tick(now) - entry.spec_tick(arrival)) < entry.result_deadline(
            result,
            ttl,
            arrival,
        ) - entry.spec_tick(arrival),
    ensures
        !entry.decided(entry.spec_decision_snapshot(result, ttl, arrival)).refresh_eligible(now),
{
    subject_model::lemma_snapshot(entry, result, ttl, arrival);
}

/// A decision that arrives before its refresh window is refreshed within that window and at no other
/// time: from the window's length before its deadline on, until the deadline.
pub proof fn a_refresh_is_due_within_the_window<P>(
    entry: Entry<P>,
    result: DecisionResult<P>,
    ttl: Duration,
    arrival: Instant,
    now: Instant,
)
    requires
        entry.refresh_not_before == 0,
        entry.result_deadline(result, ttl, arrival) != NO_EXPIRY,
        entry.result_deadline(result, ttl, arrival) - entry.spec_tick(arrival)
            > entry.refresh_before,
    ensures
        entry.decided(entry.spec_decision_snapshot(result, ttl, arrival)).refresh_due(now) <==> {
            let deadline = entry.result_deadline(result, ttl, arrival);
            deadline - entry.refresh_before <= entry.spec_tick(now) < deadline
        },
{
    subject_model::lemma_snapshot(entry, result, ttl, arrival);
}

/// Without a cooldown a failed refresh is due again at once.
pub proof fn a_zero_cooldown_permits_an_immediate_retry<P>(
    entry: Entry<P>,
    now: Instant,
    cooldown: Duration,
)
    requires
        entry.refresh_eligible(now),
        cooldown.nanos == 0,
    ensures
        entry.refresh_failed(now, cooldown).refresh_due(now),
{
}

/// A failed refresh extends nothing, and no refresh is due before its cooldown has passed.
pub proof fn a_failed_refresh_cools_down<P>(
    entry: Entry<P>,
    failure: Instant,
    cooldown: Duration,
    now: Instant,
)
    ensures
        entry.refresh_failed(failure, cooldown).current == entry.current,
        entry.spec_tick(now) < entry.cooldown_end(failure, cooldown) ==> !entry.refresh_failed(
            failure,
            cooldown,
        ).refresh_due(now),
{
}

/// A refresh that the queue did not take leaves no trace on its entry: no cooldown starts, and the
/// next access may try again.
pub proof fn a_refresh_given_up_leaves_no_trace<P>(m: SubjectModel<P>, id: u64, now: Instant)
    requires
        m.wf(),
        m.table.contains_key(id),
        m.table[id].refresh_due(now),
        m.next_id < u64::MAX,
    ensures
        m.claimed(id).released(id, m.next_id).table == m.table,
{
    assert(m.claimed(id).released(id, m.next_id).table =~= m.table);
}

/// While a lookup is in flight no access starts another one.
pub proof fn one_lookup_at_a_time<P>(
    gate: GateModel<P>,
    id: u64,
    deadline: Option<Instant>,
    now: Instant,
)
    requires
        gate.wf(),
        gate.subjects.table.contains_key(id),
        gate.subjects.table[id].pending is Some,
    ensures
        gate.accessed(id, deadline, now).1 !is Enqueue,
        gate.accessed(id, deadline, now).0.subjects.table[id].pending
            == gate.subjects.table[id].pending,
        gate.accessed(id, deadline, now).0.subjects.next_id == gate.subjects.next_id,
{
}

/// Once somebody has seen a decision expired, its refresh cannot revive it.
pub proof fn a_refresh_cannot_revive_what_was_seen_expired<P>(
    gate: GateModel<P>,
    subject: u64,
    id: u64,
    generation: u64,
    seen: Instant,
    result: Result<DecisionResult<P>, DecisionSourceError>,
    now: Instant,
)
    requires
        gate.wf(),
        gate.subjects.table.contains_key(id),
        gate.subjects.table[id].expired(seen),
        gate.subjects.refreshes(id, generation),
    ensures
        gate.looked(id, seen).fetched(
            subject,
            id,
            generation,
            result,
            now,
        ).subjects.table[id].state() == EntryState::Stale,
{
    let entry = gate.subjects.table[id];
    entry::lemma_word_parts(entry.current.word);
    entry::lemma_word_parts(entry.pending->0.refresh_from->0);
}

/// A refresh that ends after its decision expired does not revive it either.
pub proof fn a_refresh_cannot_revive_what_has_expired<P>(
    gate: GateModel<P>,
    subject: u64,
    id: u64,
    generation: u64,
    result: Result<DecisionResult<P>, DecisionSourceError>,
    now: Instant,
)
    requires
        gate.wf(),
        gate.subjects.table.contains_key(id),
        gate.subjects.table[id].expired(now),
        gate.subjects.refreshes(id, generation),
    ensures
        gate.fetched(subject, id, generation, result, now).subjects.live_state(id, now)
            == EntryState::Stale,
{
    let entry = gate.subjects.table[id];
    entry::lemma_word_parts(entry.current.word);
    entry::lemma_word_parts(entry.pending->0.refresh_from->0);
}

/// A successful refresh renews the handle in place, unless its decision was already gone.
pub proof fn a_refresh_renews_in_place<P>(
    gate: GateModel<P>,
    subject: u64,
    id: u64,
    generation: u64,
    result: Result<DecisionResult<P>, DecisionSourceError>,
    now: Instant,
)
    requires
        gate.wf(),
        gate.subjects.refreshes(id, generation),
        gate.subjects.verdict(id, now) is Some,
        gate.seen_failure(id, generation, result, now) is None,
    ensures
        gate.fetched(subject, id, generation, result, now).subjects.verdict(id, now) == Some(
            result->Ok_0.decision,
        ),
        gate.fetched(subject, id, generation, result, now).subjects.table[id].deadline()
            == gate.subjects.table[id].result_deadline(
            result->Ok_0,
            gate.settings.decision_freshness_ttl,
            now,
        ),
{
    let entry = gate.subjects.table[id];
    let ttl = gate.settings.decision_freshness_ttl;
    entry::lemma_word_parts(entry.current.word);
    entry::lemma_word_parts(entry.pending->0.refresh_from->0);
    subject_model::lemma_snapshot(entry, result->Ok_0, ttl, now);
}

/// A refresh that fails leaves the decision, its deadline and its payload as they were.
pub proof fn a_failed_refresh_keeps_the_decision<P>(
    gate: GateModel<P>,
    subject: u64,
    id: u64,
    generation: u64,
    result: Result<DecisionResult<P>, DecisionSourceError>,
    now: Instant,
)
    requires
        gate.wf(),
        gate.subjects.refreshes(id, generation),
        gate.seen_failure(id, generation, result, now) is Some,
    ensures
        gate.fetched(subject, id, generation, result, now).subjects.table[id].current
            == gate.subjects.table[id].current,
        gate.fetched(subject, id, generation, result, now).subjects.table[id].pending is None,
{
}

/// A watch change installs its decision with a new deadline in the entry that answers for the
/// subject, even where that has expired; the payload and the lookup in flight are gone.
pub proof fn a_watch_change_renews<P>(
    gate: GateModel<P>,
    subject: u64,
    decision: Decision,
    now: Instant,
    id: u64,
)
    requires
        gate.wf(),
        gate.subjects.evicted(gate.subjects.spec_tick(now)).matches_entry(subject, id),
    ensures
        ({
            let after = gate.changed(subject, Some(decision), now).subjects.table[id];
            &&& after.state() == entry::decision_state(decision)
            &&& after.deadline() == after.spec_deadline_after(
                now,
                gate.settings.decision_freshness_ttl,
            )
            &&& after.current.payload is None
            &&& after.pending is None
        }),
{
    let tick = gate.subjects.spec_tick(now);
    let room = gate.subjects.evicted(tick);
    let result = DecisionResult::<P> { decision, payload: None, valid_until: None };
    subject_model::lemma_snapshot(
        room.table[id],
        result,
        gate.settings.decision_freshness_ttl,
        now,
    );
}

/// A watched denial reaches every handle: once it is applied, no handle of the subject is allowed at
/// any instant, whichever entry the handle names.
pub proof fn a_watched_denial_reaches_every_handle<P>(
    gate: GateModel<P>,
    subject: u64,
    now: Instant,
    id: u64,
    at: Instant,
)
    requires
        gate.wf(),
        gate.subjects.table.contains_key(id),
        gate.subjects.table[id].subject == subject,
    ensures
        gate.changed(subject, Some(Decision::Denied), now).observed(id, at) != Observed::Allowed,
{
    let ttl = gate.settings.decision_freshness_ttl;
    let room = gate.subjects.evicted(gate.subjects.spec_tick(now));
    let after = gate.subjects.changed(subject, Decision::Denied, ttl, now);
    subject_model::lemma_evicted(gate.subjects, gate.subjects.spec_tick(now));
    subject_model::lemma_changed(gate.subjects, subject, Decision::Denied, ttl, now);
    evolution::lemma_changed_evolves(gate.subjects, subject, Decision::Denied, ttl, now);
    if subject_model::attached(after.slots, id) {
        let i = choose|i: int| subject_model::names_entry(after.slots, id, i);
        assert(after.table[after.slots[i].1.0].subject == after.slots[i].0);
        assert(recency::slot_at(room.slots, subject, i));
        recency::lemma_position(room.slots, subject, i);
        let result = DecisionResult::<P> {
            decision: Decision::Denied,
            payload: None,
            valid_until: None,
        };
        subject_model::lemma_snapshot(room.table[id], result, ttl, now);
    }
}

/// A payload is handed out only with an allowed and unexpired decision.
pub proof fn a_payload_needs_an_allowed_decision<P>(gate: GateModel<P>, id: u64, now: Instant)
    requires
        gate.payload(id, now) is Some,
    ensures
        gate.subjects.verdict(id, now) == Some(Decision::Allowed),
{
}

/// A denied decision keeps no payload.
pub proof fn a_denial_keeps_no_payload<P>(
    entry: Entry<P>,
    result: DecisionResult<P>,
    ttl: Duration,
    now: Instant,
)
    requires
        result.decision == Decision::Denied,
    ensures
        entry.spec_decision_snapshot(result, ttl, now).payload is None,
{
}

/// Looking at an entry starts no lookup and renews no idle time.
pub proof fn looking_starts_nothing<P>(gate: GateModel<P>, id: u64, now: Instant)
    requires
        gate.wf(),
        gate.subjects.table.contains_key(id),
    ensures
        gate.looked(id, now).subjects.slots == gate.subjects.slots,
        gate.looked(id, now).subjects.table[id].pending == gate.subjects.table[id].pending,
        gate.looked(id, now).subjects.next_id == gate.subjects.next_id,
{
}

/// A refresh asked for with the wrong subject, or for an entry that was replaced, starts nothing.
pub proof fn a_mismatched_refresh_starts_nothing<P>(
    gate: GateModel<P>,
    subject: u64,
    id: u64,
    now: Instant,
)
    requires
        gate.wf(),
        !gate.subjects.matches_entry(subject, id),
    ensures
        gate.refresh_asked(subject, id, now).1 is Unavailable,
        gate.refresh_asked(subject, id, now).0.subjects == gate.subjects.evicted(
            gate.subjects.spec_tick(now),
        ),
{
}

/// A disabled refresh window never starts a refresh.
pub proof fn a_zero_window_never_refreshes<P>(
    gate: GateModel<P>,
    id: u64,
    deadline: Option<Instant>,
    now: Instant,
)
    requires
        gate.settings.refresh_before_expiry.nanos == 0,
    ensures
        gate.accessed(id, deadline, now).1 !is Enqueue,
{
}

} // verus!
