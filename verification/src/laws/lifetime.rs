//! Laws of a decision's life in terms of the clock: when it is in force, when it is renewed, and
//! when its answer comes too late.

use vstd::prelude::*;

use crate::decision::{Decision, DecisionResult, DecisionSourceError, DecisionSourceErrorKind};
use crate::entry;
use crate::entry::{Entry, EntryState, Observed, MAX_FINITE_DEADLINE, NO_EXPIRY};
use crate::evolution;
use crate::gate::GateModel;
use crate::laws::admission;
use crate::recency;
use crate::subject_model;
use crate::time::{Duration, Instant, MAX_SPAN_NANOS};

verus! {

/// Whether what a source answered at `arrival` is in force at `now`: neither its freshness nor its
/// own cap is over. The longest freshness is never over.
pub open spec fn in_force<P>(
    result: DecisionResult<P>,
    ttl: Duration,
    arrival: Instant,
    now: Instant,
) -> bool {
    &&& ttl.nanos == MAX_SPAN_NANOS || now.nanos < arrival.nanos + ttl.nanos
    &&& match result.valid_until {
        Some(cap) => now.nanos < cap.nanos,
        None => true,
    }
}

/// Whether an entry made at `epoch` can tell these instants apart: deadlines have 62 bits.
pub open spec fn in_reach(epoch: Instant, arrival: Instant, ttl: Duration, now: Instant) -> bool {
    &&& epoch.nanos <= arrival.nanos <= now.nanos
    &&& now.nanos - epoch.nanos < MAX_FINITE_DEADLINE
    &&& ttl.nanos == MAX_SPAN_NANOS || arrival.nanos - epoch.nanos + ttl.nanos < NO_EXPIRY
}

/// Whether an entry shows the decision of `result` at `now`, with the payload of an allowed one.
pub open spec fn shows<P>(entry: Entry<P>, result: DecisionResult<P>, now: Instant) -> bool {
    match result.decision {
        Decision::Allowed => {
            &&& entry.live_state(now) == EntryState::Allowed
            &&& entry.observed(now) == Observed::Allowed
            &&& entry.verdict(now) == Some(Decision::Allowed)
            &&& entry.current.payload == result.payload
        },
        Decision::Denied => {
            &&& entry.live_state(now) == EntryState::Denied
            &&& entry.observed(now) == Observed::Denied
            &&& entry.verdict(now) == Some(Decision::Denied)
            &&& entry.current.payload is None
        },
    }
}

/// Whether an entry shows at `now` that its decision is over.
pub open spec fn shows_the_end<P>(entry: Entry<P>, now: Instant) -> bool {
    &&& entry.live_state(now) == EntryState::Stale
    &&& entry.observed(now) == Observed::Expired
    &&& entry.verdict(now) is None
}

/// What an entry shows at `now` of an answer that came at `arrival`: the answer while it is in
/// force, and its end from then on.
pub open spec fn shows_while_in_force<P>(
    entry: Entry<P>,
    result: DecisionResult<P>,
    ttl: Duration,
    arrival: Instant,
    now: Instant,
) -> bool {
    if in_force(result, ttl, arrival, now) {
        shows(entry, result, now)
    } else {
        shows_the_end(entry, now)
    }
}

/// Whether an entry is still that of the same subject, with the same refresh window and cooldown.
pub open spec fn same_entry<P>(before: Entry<P>, after: Entry<P>) -> bool {
    &&& after.subject == before.subject
    &&& after.epoch == before.epoch
    &&& after.refresh_before == before.refresh_before
    &&& after.refresh_not_before == before.refresh_not_before
}

/// A decision is in force from its arrival exactly until the earlier of its freshness and its cap,
/// whatever the refresh window.
pub proof fn a_decision_ends_with_its_freshness_or_its_cap<P>(
    entry: Entry<P>,
    result: DecisionResult<P>,
    ttl: Duration,
    arrival: Instant,
    now: Instant,
)
    requires
        in_reach(entry.epoch, arrival, ttl, now),
    ensures
        shows_while_in_force(
            entry.decided(entry.spec_decision_snapshot(result, ttl, arrival)),
            result,
            ttl,
            arrival,
            now,
        ),
{
    subject_model::lemma_snapshot(entry, result, ttl, arrival);
}

/// A finite freshness whose end an entry cannot tell is over at once.
pub proof fn a_freshness_out_of_reach_is_over_at_once<P>(
    entry: Entry<P>,
    result: DecisionResult<P>,
    ttl: Duration,
    arrival: Instant,
    now: Instant,
)
    requires
        entry.epoch.nanos <= arrival.nanos <= now.nanos,
        ttl.nanos != MAX_SPAN_NANOS,
        arrival.nanos - entry.epoch.nanos + ttl.nanos >= NO_EXPIRY,
    ensures
        shows_the_end(entry.decided(entry.spec_decision_snapshot(result, ttl, arrival)), now),
{
    subject_model::lemma_snapshot(entry, result, ttl, arrival);
}

/// A lookup fails only where the source reported a failure, of the kind that it reported, or where
/// its answer is no longer in force when it is published, which is a transient failure. Neither the
/// decision nor the reason for the lookup matters.
pub proof fn a_lookup_fails_only_with_its_source_or_too_late<P>(
    gate: GateModel<P>,
    id: u64,
    generation: u64,
    result: Result<DecisionResult<P>, DecisionSourceError>,
    now: Instant,
)
    requires
        gate.subjects.awaits(id, generation),
        in_reach(
            gate.subjects.table[id].epoch,
            now,
            gate.settings.decision_freshness_ttl,
            now,
        ),
    ensures
        gate.seen_failure(id, generation, result, now) == match result {
            Err(error) => Some(error.spec_kind()),
            Ok(answer) => if in_force(answer, gate.settings.decision_freshness_ttl, now, now) {
                None
            } else {
                Some(DecisionSourceErrorKind::Transient)
            },
        },
{
    if let Ok(answer) = result {
        subject_model::lemma_snapshot(
            gate.subjects.table[id],
            answer,
            gate.settings.decision_freshness_ttl,
            now,
        );
    }
}

/// The callers of a lookup that nobody awaits any more see what the source said.
pub proof fn a_superseded_lookup_fails_only_with_its_source<P>(
    gate: GateModel<P>,
    id: u64,
    generation: u64,
    result: Result<DecisionResult<P>, DecisionSourceError>,
    now: Instant,
)
    requires
        !gate.subjects.awaits(id, generation),
    ensures
        gate.seen_failure(id, generation, result, now) == match result {
            Err(error) => Some(error.spec_kind()),
            Ok(_) => None,
        },
{
}

/// Whether every entry but `id`, and everything else of the map, is as it was.
pub open spec fn only_entry_changed<P>(before: GateModel<P>, after: GateModel<P>, id: u64) -> bool {
    &&& after.subjects.table.dom() == before.subjects.table.dom()
    &&& forall|other: u64|
        other != id && before.subjects.table.contains_key(other)
            ==> #[trigger] after.subjects.table[other] == before.subjects.table[other]
    &&& after.subjects.slots == before.subjects.slots
    &&& after.subjects.next_id == before.subjects.next_id
    &&& after.subjects.aborted == before.subjects.aborted
    &&& after.snapshot == before.snapshot
    &&& after.connected == before.connected
    &&& after.events == before.events
}

/// The first lookup of a subject puts its answer in force for every handle of the entry and touches
/// nothing else.
pub proof fn a_first_lookup_puts_its_answer_in_force<P>(
    gate: GateModel<P>,
    subject: u64,
    id: u64,
    generation: u64,
    answer: DecisionResult<P>,
    arrival: Instant,
    now: Instant,
)
    requires
        gate.wf(),
        gate.subjects.awaits(id, generation),
        gate.subjects.table[id].state() == EntryState::Pending,
        in_reach(
            gate.subjects.table[id].epoch,
            arrival,
            gate.settings.decision_freshness_ttl,
            now,
        ),
        in_force(answer, gate.settings.decision_freshness_ttl, arrival, arrival),
    ensures
        ({
            let after = gate.fetched(subject, id, generation, Ok(answer), arrival);
            &&& shows_while_in_force(
                after.subjects.table[id],
                answer,
                gate.settings.decision_freshness_ttl,
                arrival,
                now,
            )
            &&& after.subjects.table[id].pending is None
            &&& same_entry(gate.subjects.table[id], after.subjects.table[id])
            &&& only_entry_changed(gate, after, id)
        }),
{
    let entry = gate.subjects.table[id];
    let ttl = gate.settings.decision_freshness_ttl;
    a_lookup_fails_only_with_its_source_or_too_late(gate, id, generation, Ok(answer), arrival);
    a_decision_ends_with_its_freshness_or_its_cap(entry, answer, ttl, arrival, now);
    subject_model::lemma_snapshot(entry, answer, ttl, arrival);
    let after = gate.fetched(subject, id, generation, Ok(answer), arrival);
    assert(after.subjects.table.dom() =~= gate.subjects.table.dom());
}

/// A refresh of a decision that is still in force puts its answer in force for every handle of the
/// entry, whether it allows or denies, and touches nothing else.
pub proof fn a_refresh_puts_its_answer_in_force<P>(
    gate: GateModel<P>,
    subject: u64,
    id: u64,
    generation: u64,
    answer: DecisionResult<P>,
    arrival: Instant,
    now: Instant,
)
    requires
        gate.wf(),
        gate.subjects.refreshes(id, generation),
        gate.subjects.verdict(id, arrival) is Some,
        in_reach(
            gate.subjects.table[id].epoch,
            arrival,
            gate.settings.decision_freshness_ttl,
            now,
        ),
        in_force(answer, gate.settings.decision_freshness_ttl, arrival, arrival),
    ensures
        ({
            let after = gate.fetched(subject, id, generation, Ok(answer), arrival);
            &&& shows_while_in_force(
                after.subjects.table[id],
                answer,
                gate.settings.decision_freshness_ttl,
                arrival,
                now,
            )
            &&& after.subjects.table[id].pending is None
            &&& same_entry(gate.subjects.table[id], after.subjects.table[id])
            &&& only_entry_changed(gate, after, id)
        }),
{
    let entry = gate.subjects.table[id];
    let ttl = gate.settings.decision_freshness_ttl;
    a_lookup_fails_only_with_its_source_or_too_late(gate, id, generation, Ok(answer), arrival);
    a_decision_ends_with_its_freshness_or_its_cap(entry, answer, ttl, arrival, now);
    subject_model::lemma_snapshot(entry, answer, ttl, arrival);
    entry::lemma_word_parts(entry.current.word);
    entry::lemma_word_parts(entry.pending->0.refresh_from->0);
    let after = gate.fetched(subject, id, generation, Ok(answer), arrival);
    assert(after.subjects.table.dom() =~= gate.subjects.table.dom());
}

/// A refresh that fails, or whose answer comes too late, leaves every answer as it was at every
/// instant and touches nothing else but the lookup, which is over.
pub proof fn a_failed_refresh_changes_no_answer<P>(
    gate: GateModel<P>,
    subject: u64,
    id: u64,
    generation: u64,
    result: Result<DecisionResult<P>, DecisionSourceError>,
    arrival: Instant,
    now: Instant,
)
    requires
        gate.wf(),
        gate.subjects.refreshes(id, generation),
        in_reach(
            gate.subjects.table[id].epoch,
            arrival,
            gate.settings.decision_freshness_ttl,
            arrival,
        ),
        match result {
            Ok(answer) => !in_force(
                answer,
                gate.settings.decision_freshness_ttl,
                arrival,
                arrival,
            ),
            Err(_) => true,
        },
    ensures
        ({
            let before = gate.subjects.table[id];
            let after = gate.fetched(subject, id, generation, result, arrival);
            let entry = after.subjects.table[id];
            &&& entry.live_state(now) == before.live_state(now)
            &&& entry.observed(now) == before.observed(now)
            &&& entry.verdict(now) == before.verdict(now)
            &&& entry.current.payload == before.current.payload
            &&& entry.pending is None
            &&& entry.subject == before.subject
            &&& entry.epoch == before.epoch
            &&& entry.refresh_before == before.refresh_before
            &&& only_entry_changed(gate, after, id)
        }),
{
    a_lookup_fails_only_with_its_source_or_too_late(gate, id, generation, result, arrival);
    let after = gate.fetched(subject, id, generation, result, arrival);
    assert(after.subjects.table.dom() =~= gate.subjects.table.dom());
}

/// After a refresh that failed, the next one may start once the cooldown has passed, and not before.
pub proof fn a_failed_refresh_waits_out_its_cooldown<P>(
    entry: Entry<P>,
    failure: Instant,
    cooldown: Duration,
    now: Instant,
)
    requires
        entry.epoch.nanos <= failure.nanos <= now.nanos,
        now.nanos - entry.epoch.nanos < MAX_FINITE_DEADLINE,
    ensures
        entry.refresh_failed(failure, cooldown).refresh_due(now) <==> {
            &&& now.nanos >= failure.nanos + cooldown.nanos
            &&& (Entry { pending: None, refresh_not_before: 0, ..entry }).refresh_due(now)
        },
{
}

/// When a decision with an end is to be refreshed, were nothing in flight and no cooldown running:
/// within the refresh window before its end, and not before half of its life has passed where it
/// arrived inside that window.
pub open spec fn refresh_time(arrival: int, end: int, window: int, now: int) -> bool {
    &&& now < end
    &&& end - now <= window
    &&& end - arrival <= window ==> 2 * (now - arrival) >= end - arrival
}

/// A refresh is due exactly at the refresh time of its decision.
pub proof fn a_refresh_is_due_at_its_time<P>(
    entry: Entry<P>,
    result: DecisionResult<P>,
    ttl: Duration,
    arrival: Instant,
    now: Instant,
    end: int,
)
    requires
        in_reach(entry.epoch, arrival, ttl, now),
        entry.refresh_not_before == 0,
        end > arrival.nanos,
        end - entry.epoch.nanos < MAX_FINITE_DEADLINE,
        ttl.nanos != MAX_SPAN_NANOS || result.valid_until is Some,
        ttl.nanos == MAX_SPAN_NANOS || end <= arrival.nanos + ttl.nanos,
        result.valid_until matches Some(cap) ==> end <= cap.nanos,
        (ttl.nanos != MAX_SPAN_NANOS && end == arrival.nanos + ttl.nanos) || (
        result.valid_until matches Some(cap) && end == cap.nanos),
    ensures
        entry.decided(entry.spec_decision_snapshot(result, ttl, arrival)).refresh_due(now)
            <==> refresh_time(
            arrival.nanos as int,
            end,
            entry.refresh_before as int,
            now.nanos as int,
        ),
{
    subject_model::lemma_snapshot(entry, result, ttl, arrival);
}

/// A decision without an end is never refreshed.
pub proof fn a_decision_without_an_end_is_never_refreshed<P>(
    entry: Entry<P>,
    result: DecisionResult<P>,
    ttl: Duration,
    arrival: Instant,
    now: Instant,
)
    requires
        ttl.nanos == MAX_SPAN_NANOS,
        result.valid_until is None,
    ensures
        !entry.decided(entry.spec_decision_snapshot(result, ttl, arrival)).refresh_due(now),
{
    subject_model::lemma_snapshot(entry, result, ttl, arrival);
}

/// The refresh window of an entry is the configured one.
pub proof fn the_refresh_window_is_the_configured_one<P>(
    subject: u64,
    epoch: Instant,
    generation: u64,
    refresh_before: Duration,
)
    requires
        refresh_before.nanos <= u64::MAX,
    ensures
        entry::spec_pending::<P>(subject, epoch, generation, refresh_before).refresh_before
            == refresh_before.nanos,
        entry::spec_pending::<P>(subject, epoch, generation, refresh_before).refresh_not_before
            == 0,
        entry::spec_pending::<P>(subject, epoch, generation, refresh_before).epoch == epoch,
        entry::spec_pending::<P>(subject, epoch, generation, refresh_before).subject == subject,
{
}

/// A new entry shows nothing: it allows and denies at no instant.
pub proof fn a_pending_entry_shows_nothing<P>(
    subject: u64,
    epoch: Instant,
    generation: u64,
    refresh_before: Duration,
    now: Instant,
)
    ensures
        ({
            let entry = entry::spec_pending::<P>(subject, epoch, generation, refresh_before);
            &&& entry.live_state(now) == EntryState::Pending
            &&& entry.observed(now) == Observed::Stale
            &&& entry.verdict(now) is None
            &&& entry.current.payload is None
            &&& !entry.refresh_due(now)
            &&& entry.awaits(generation)
        }),
{
    entry::lemma_word(EntryState::Pending, NO_EXPIRY as int);
}

/// The three ways to read an entry agree: it is allowed to its handles exactly where its verdict
/// allows, denied exactly where its verdict denies, and gives no verdict where it is stale.
pub proof fn the_readings_of_an_entry_agree<P>(entry: Entry<P>, now: Instant)
    ensures
        entry.observed(now) == Observed::Allowed <==> entry.verdict(now) == Some(Decision::Allowed),
        entry.observed(now) == Observed::Denied <==> entry.verdict(now) == Some(Decision::Denied),
        entry.live_state(now) == EntryState::Allowed <==> entry.verdict(now) == Some(
            Decision::Allowed,
        ),
        entry.live_state(now) == EntryState::Denied <==> entry.verdict(now) == Some(
            Decision::Denied,
        ),
        entry.live_state(now) == EntryState::Stale ==> entry.observed(now) == Observed::Expired
            || entry.observed(now) == Observed::Stale,
        entry.observed(now) == Observed::Expired ==> entry.live_state(now) == EntryState::Stale,
{
}

/// Looking at an entry changes no answer that anybody gets at that instant or later, of that entry
/// or of another.
pub proof fn looking_changes_no_answer<P>(
    gate: GateModel<P>,
    id: u64,
    now: Instant,
    other: u64,
    later: Instant,
)
    requires
        gate.wf(),
        now.nanos <= later.nanos,
    ensures
        gate.looked(id, now).observed(other, later) == gate.observed(other, later),
        gate.looked(id, now).subjects.live_state(other, later) == gate.subjects.live_state(
            other,
            later,
        ),
        gate.looked(id, now).subjects.verdict(other, later) == gate.subjects.verdict(other, later),
        gate.looked(id, now).payload(other, later) == gate.payload(other, later),
        gate.looked(id, now).events == gate.events,
        gate.looked(id, now).snapshot == gate.snapshot,
        gate.subjects.table.contains_key(other) ==> same_entry(
            gate.subjects.table[other],
            gate.looked(id, now).subjects.table[other],
        ) && gate.looked(id, now).subjects.table[other].pending
            == gate.subjects.table[other].pending,
{
    if gate.subjects.table.contains_key(id) {
        entry::lemma_word_parts(gate.subjects.table[id].current.word);
    }
}

/// A handle that is invalidated is stale at every instant, without payload and without a lookup, and
/// so is every other handle of its entry; other entries keep their answers.
pub proof fn invalidating_makes_stale<P>(gate: GateModel<P>, id: u64, other: u64, now: Instant)
    requires
        gate.wf(),
    ensures
        gate.invalidated(id).subjects.live_state(id, now) == EntryState::Stale,
        gate.invalidated(id).subjects.verdict(id, now) is None,
        gate.invalidated(id).payload(id, now) is None,
        gate.invalidated(id).subjects.table.contains_key(id) ==> gate.invalidated(
            id,
        ).subjects.table[id].pending is None,
        other != id ==> gate.invalidated(id).observed(other, now) == gate.observed(other, now),
        gate.invalidated(id).subjects.slots == gate.subjects.slots,
        gate.invalidated(id).snapshot == gate.snapshot,
{
    if gate.subjects.table.contains_key(id) {
        subject_model::lemma_invalidated(gate.subjects.table[id]);
        entry::lemma_word_parts(gate.subjects.table[id].current.word);
    }
}

/// A watch change puts its decision in force, for its own freshness and without payload, in the
/// entry of a subject that is not idle, whatever that entry held or awaited.
pub proof fn a_watch_change_puts_its_decision_in_force<P>(
    gate: GateModel<P>,
    subject: u64,
    decision: Decision,
    arrival: Instant,
    id: u64,
    now: Instant,
)
    requires
        gate.wf(),
        gate.subjects.evicted(gate.subjects.spec_tick(arrival)).matches_entry(subject, id),
        in_reach(
            gate.subjects.table[id].epoch,
            arrival,
            gate.settings.decision_freshness_ttl,
            now,
        ),
    ensures
        ({
            let after = gate.changed(subject, Some(decision), arrival).subjects.table[id];
            let result = DecisionResult::<P> { decision, payload: None, valid_until: None };
            &&& shows_while_in_force(
                after,
                result,
                gate.settings.decision_freshness_ttl,
                arrival,
                now,
            )
            &&& after.pending is None
            &&& same_entry(gate.subjects.table[id], after)
        }),
{
    let tick = gate.subjects.spec_tick(arrival);
    let ttl = gate.settings.decision_freshness_ttl;
    let room = gate.subjects.evicted(tick);
    evolution::lemma_evicted_evolves(gate.subjects, tick);
    let i = recency::position(room.slots, subject);
    assert(recency::slot_at(room.slots, subject, i));
    assert(room.table.contains_key(room.slots[i].1.0));
    admission::lemma_eviction_keeps_entries(gate.subjects, tick, i);
    let result = DecisionResult::<P> { decision, payload: None, valid_until: None };
    a_decision_ends_with_its_freshness_or_its_cap(room.table[id], result, ttl, arrival, now);
}

/// Whether `end` is the end of an answer that came at `arrival`: the earlier of its freshness and its
/// cap, where it has one.
pub open spec fn ends_at<P>(
    result: DecisionResult<P>,
    ttl: Duration,
    arrival: Instant,
    end: int,
) -> bool {
    &&& ttl.nanos == MAX_SPAN_NANOS || end <= arrival.nanos + ttl.nanos
    &&& result.valid_until matches Some(cap) ==> end <= cap.nanos
    &&& ttl.nanos != MAX_SPAN_NANOS && end == arrival.nanos + ttl.nanos || (
    result.valid_until matches Some(cap) && end == cap.nanos)
}

/// After a lookup, a first one or a refresh, the next refresh is due at the refresh time of the
/// answer, while no cooldown runs.
pub proof fn the_next_refresh_is_due_at_its_time<P>(
    gate: GateModel<P>,
    subject: u64,
    id: u64,
    generation: u64,
    answer: DecisionResult<P>,
    arrival: Instant,
    end: int,
    now: Instant,
)
    requires
        gate.wf(),
        gate.subjects.awaits(id, generation),
        gate.subjects.table[id].state() == EntryState::Pending || gate.subjects.verdict(
            id,
            arrival,
        ) is Some,
        gate.subjects.table[id].refresh_not_before == 0,
        in_reach(
            gate.subjects.table[id].epoch,
            arrival,
            gate.settings.decision_freshness_ttl,
            now,
        ),
        in_force(answer, gate.settings.decision_freshness_ttl, arrival, arrival),
        ends_at(answer, gate.settings.decision_freshness_ttl, arrival, end),
        end - gate.subjects.table[id].epoch.nanos < MAX_FINITE_DEADLINE,
    ensures
        gate.fetched(subject, id, generation, Ok(answer), arrival).refresh_due(id, now)
            <==> refresh_time(
            arrival.nanos as int,
            end,
            gate.subjects.table[id].refresh_before as int,
            now.nanos as int,
        ),
{
    let entry = gate.subjects.table[id];
    let ttl = gate.settings.decision_freshness_ttl;
    a_lookup_fails_only_with_its_source_or_too_late(gate, id, generation, Ok(answer), arrival);
    a_refresh_is_due_at_its_time(entry, answer, ttl, arrival, now, end);
    if entry.state() != EntryState::Pending {
        entry::lemma_word_parts(entry.current.word);
        entry::lemma_word_parts(entry.pending->0.refresh_from->0);
    }
}

/// A handle gets the payload of an allowed answer exactly while that is in force.
pub proof fn a_payload_lives_as_long_as_its_decision<P>(
    gate: GateModel<P>,
    subject: u64,
    id: u64,
    generation: u64,
    answer: DecisionResult<P>,
    arrival: Instant,
    now: Instant,
)
    requires
        gate.wf(),
        gate.subjects.awaits(id, generation),
        gate.subjects.table[id].state() == EntryState::Pending || gate.subjects.verdict(
            id,
            arrival,
        ) is Some,
        in_reach(
            gate.subjects.table[id].epoch,
            arrival,
            gate.settings.decision_freshness_ttl,
            now,
        ),
        in_force(answer, gate.settings.decision_freshness_ttl, arrival, arrival),
    ensures
        gate.fetched(subject, id, generation, Ok(answer), arrival).payload(id, now)
            == if answer.decision == Decision::Allowed && in_force(
            answer,
            gate.settings.decision_freshness_ttl,
            arrival,
            now,
        ) {
            answer.payload
        } else {
            None
        },
{
    if gate.subjects.table[id].state() == EntryState::Pending {
        a_first_lookup_puts_its_answer_in_force(
            gate,
            subject,
            id,
            generation,
            answer,
            arrival,
            now,
        );
    } else {
        a_refresh_puts_its_answer_in_force(gate, subject, id, generation, answer, arrival, now);
    }
}

/// What every handle of an entry sees at an instant depends on the entry alone: what a gate
/// reads is what the entry holds, and of an entry that is gone nothing is left.
pub proof fn a_gate_reads_its_entries<P>(gate: GateModel<P>, id: u64, now: Instant)
    ensures
        gate.subjects.table.contains_key(id) ==> {
            let entry = gate.subjects.table[id];
            &&& gate.observed(id, now) == entry.observed(now)
            &&& gate.subjects.live_state(id, now) == entry.live_state(now)
            &&& gate.subjects.verdict(id, now) == entry.verdict(now)
            &&& gate.refresh_due(id, now) == entry.refresh_due(now)
            &&& gate.payload(id, now) == if entry.verdict(now) == Some(Decision::Allowed) {
                entry.current.payload
            } else {
                None
            }
        },
        !gate.subjects.table.contains_key(id) ==> {
            &&& gate.observed(id, now) == Observed::Stale
            &&& gate.subjects.live_state(id, now) == EntryState::Stale
            &&& gate.subjects.verdict(id, now) is None
            &&& !gate.refresh_due(id, now)
            &&& gate.payload(id, now) is None
        },
{
    if gate.subjects.table.contains_key(id) {
        the_readings_of_an_entry_agree(gate.subjects.table[id], now);
    }
}

} // verus!
