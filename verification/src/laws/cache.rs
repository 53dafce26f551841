//! Laws of the subject cache: eviction, disconnection and the snapshot.

use vstd::prelude::*;

use crate::continuity;
use crate::decision::Decision;
use crate::entry;
use crate::entry::EntryState;
use crate::evolution;
use crate::gate;
use crate::gate::GateModel;
use crate::recency;
use crate::subject_model;
use crate::subject_model::SubjectModel;
use crate::time::{Duration, Instant};

verus! {

/// Idle eviction takes slots from the far end only, and only idle ones; the last slot that is left
/// is not idle.
pub proof fn eviction_takes_idle_slots_from_the_far_end<P>(m: SubjectModel<P>, tick: int) -> (kept:
    int)
    ensures
        0 <= kept <= m.slots.len(),
        m.evicted(tick).slots == m.slots.take(kept),
        forall|i: int| kept <= i < m.slots.len() ==> m.idle(#[trigger] m.slots[i], tick),
        kept > 0 ==> !m.idle(m.slots[kept - 1], tick),
    decreases m.slots.len(),
{
    if m.slots.len() > 0 && m.idle(m.slots.last(), tick) {
        let last = m.slots.len() - 1;
        let next = SubjectModel { dirty: true, ..m.detached(last) };
        assert(next.slots =~= m.slots.take(last));
        let kept = eviction_takes_idle_slots_from_the_far_end(next, tick);
        assert(next.slots.take(kept) =~= m.slots.take(kept));
        assert forall|i: int| kept <= i < m.slots.len() implies m.idle(
            #[trigger] m.slots[i],
            tick,
        ) by {
            if i < last {
                assert(next.idle(next.slots[i], tick));
            }
        }
        kept
    } else {
        assert(m.slots.take(m.slots.len() as int) =~= m.slots);
        m.slots.len() as int
    }
}

/// Where the slots stand in the order of their use, no idle subject is left after eviction.
pub proof fn eviction_leaves_no_idle_subject<P>(m: SubjectModel<P>, tick: int, i: int)
    requires
        continuity::in_order_of_use(m.slots),
        0 <= i < m.evicted(tick).slots.len(),
    ensures
        !m.idle(m.evicted(tick).slots[i], tick),
{
    let kept = eviction_takes_idle_slots_from_the_far_end(m, tick);
    assert(m.slots[i].1.1 >= m.slots[kept - 1].1.1);
}

/// An evicted subject's handles are stale.
pub proof fn eviction_makes_handles_stale<P>(m: SubjectModel<P>, tick: int, id: u64, now: Instant)
    requires
        m.wf(),
        subject_model::attached(m.slots, id),
        !subject_model::attached(m.evicted(tick).slots, id),
    ensures
        m.evicted(tick).live_state(id, now) == EntryState::Stale,
{
    subject_model::lemma_evicted(m, tick);
}

/// A subject that joins a full map without idle subjects takes the place of the least recently used
/// one, whose handles become stale.
pub proof fn a_full_map_drops_the_least_recently_used<P>(
    m: SubjectModel<P>,
    subject: u64,
    now: Instant,
    refresh_before: Duration,
    at: Instant,
)
    requires
        m.wf(),
        m.next_id + 2 <= u64::MAX,
        !recency::holds(m.slots, subject),
        m.slots.len() == m.capacity,
        forall|i: int|
            0 <= i < m.slots.len() ==> !m.idle(#[trigger] m.slots[i], m.spec_tick(now)),
    ensures
        m.joined(subject, now, refresh_before).slots == seq![
            (subject, (m.next_id, m.spec_tick(now) as u64)),
        ] + m.slots.drop_last(),
        m.joined(subject, now, refresh_before).live_state(m.slots.last().1.0, at)
            == EntryState::Stale,
        m.joined(subject, now, refresh_before).dirty,
{
    let tick = m.spec_tick(now);
    let last = m.slots.len() - 1;
    let id = m.slots[last].1.0;
    let entry = entry::spec_pending::<P>(subject, now, (m.next_id + 1) as u64, refresh_before);
    let n = m.inserted(subject, tick, entry);
    assert(m.evicted(tick) == m);
    assert(m.slots.remove(last) =~= m.slots.drop_last());
    assert(m.table.contains_key(id));
    subject_model::lemma_invalidated(m.table[id]);
    assert(n.slots.last() == if m.capacity == 1 {
        (subject, (m.next_id, tick as u64))
    } else {
        m.slots[last - 1]
    });
    assert(n.evicted(tick) == n);
}

/// The map never holds more subjects than its capacity.
pub proof fn the_map_stays_within_its_capacity<P>(
    m: SubjectModel<P>,
    subject: u64,
    now: Instant,
    refresh_before: Duration,
)
    requires
        m.wf(),
        m.next_id + 2 <= u64::MAX,
    ensures
        m.joined(subject, now, refresh_before).slots.len() <= m.capacity,
{
    subject_model::lemma_joined(m, subject, now, refresh_before);
    let tick = m.spec_tick(now);
    if recency::holds(m.slots, subject) {
        let i = recency::position(m.slots, subject);
        assert(recency::slot_at(m.slots, subject, i));
        subject_model::lemma_promoted(m, i, tick);
        subject_model::lemma_evicted(m.promoted(i, tick), tick);
    } else {
        subject_model::lemma_evicted(m, tick);
        let room = m.evicted(tick);
        let entry = entry::spec_pending::<P>(
            subject,
            now,
            (room.next_id + 1) as u64,
            refresh_before,
        );
        entry::lemma_word(EntryState::Pending, entry::NO_EXPIRY as int);
        subject_model::lemma_inserted(room, subject, tick, entry);
        subject_model::lemma_evicted(room.inserted(subject, tick, entry), tick);
    }
}

/// A use through the entry that answers for the subject renews its idle time: the subject stands in
/// front, used at this instant.
pub proof fn a_use_renews_the_idle_time<P>(m: SubjectModel<P>, subject: u64, id: u64, now: Instant)
    requires
        m.wf(),
        m.matches_entry(subject, id),
    ensures
        m.touched(subject, id, now).slots.len() > 0,
        m.touched(subject, id, now).slots[0].0 == subject,
        m.touched(subject, id, now).slots[0].1.0 == id,
        m.touched(subject, id, now).slots[0].1.1 >= m.spec_tick(now),
{
    let tick = m.spec_tick(now);
    let i = recency::position(m.slots, subject);
    assert(recency::slot_at(m.slots, subject, i));
    subject_model::lemma_promoted(m, i, tick);
    subject_model::lemma_front_survives(m.promoted(i, tick), tick);
}

/// Once the watch is down, every handle is stale, no cached read finds anything, and no lookup in
/// flight counts any more.
pub proof fn a_disconnect_makes_everything_stale<P>(
    gate: GateModel<P>,
    now: Instant,
    id: u64,
    subject: u64,
    at: Instant,
)
    requires
        gate.wf(),
    ensures
        !gate.lost(now).connected,
        gate.lost(now).subjects.slots.len() == 0,
        gate.lost(now).subjects.live_state(id, at) == EntryState::Stale,
        gate.lost(now).subjects.table.contains_key(id)
            ==> gate.lost(now).subjects.table[id].pending is None,
        gate.lost(now).checked(subject, at).1 is Unavailable,
        gate.lost(now).peeked(subject, at).1 is None,
{
    subject_model::lemma_cleared(gate.subjects);
}

/// A watch that opens starts from nothing: no state from the prior watch is served.
pub proof fn a_new_watch_starts_from_nothing<P>(gate: GateModel<P>, id: u64, at: Instant)
    requires
        gate.wf(),
    ensures
        gate.opened().connected,
        gate.opened().snapshot == Map::<u64, u64>::empty(),
        gate.opened().subjects.slots.len() == 0,
        gate.opened().subjects.live_state(id, at) == EntryState::Stale,
{
    subject_model::lemma_cleared(gate.subjects);
}

/// A rebuild that was claimed before the watch went down is dropped, even after it came back.
pub proof fn a_rebuild_from_before_a_disconnect_is_dropped<P>(
    gate: GateModel<P>,
    now: Instant,
    entries: Map<u64, u64>,
)
    requires
        gate.generation < u64::MAX - 1,
    ensures
        gate.lost(now).republish_committed(gate.generation, entries) == gate.lost(now),
        gate.lost(now).opened().republish_committed(gate.generation, entries) == gate.lost(
            now,
        ).opened(),
{
}

/// A rebuild publishes the map as it is, and no rebuild follows within the interval.
pub proof fn a_rebuild_publishes_the_map<P>(gate: GateModel<P>, now: Instant, later: Instant)
    requires
        gate.republish_due(now),
        gate.connected,
        gate.clock_fits(now),
        later.nanos < now.nanos + gate.settings.snapshot_republish_interval.nanos,
    ensures
        gate.republished(now).snapshot == gate::snapshot_of(gate.subjects.slots),
        !gate.republished(now).republish_due(later),
        forall|dirty: bool|
            !(#[trigger] gate.republished(now).with_subjects(
                SubjectModel { dirty, ..gate.subjects },
            )).republish_due(later),
{
}

/// A withdrawal takes the subject out and makes its handles stale.
pub proof fn a_withdrawal_makes_handles_stale<P>(
    gate: GateModel<P>,
    subject: u64,
    id: u64,
    now: Instant,
    at: Instant,
)
    requires
        gate.wf(),
        gate.subjects.matches_entry(subject, id),
    ensures
        !recency::holds(gate.changed(subject, None, now).subjects.slots, subject),
        gate.changed(subject, None, now).subjects.live_state(id, at) == EntryState::Stale,
{
    let tick = gate.subjects.spec_tick(now);
    let i = recency::position(gate.subjects.slots, subject);
    assert(recency::slot_at(gate.subjects.slots, subject, i));
    subject_model::lemma_evicted(gate.subjects, tick);
    subject_model::lemma_withdrawn(gate.subjects, subject, now);
    let room = gate.subjects.evicted(tick);
    let n = gate.subjects.withdrawn(subject, now);
    assert(gate.subjects.table.contains_key(id));
    if subject_model::attached(n.slots, id) {
        let j = choose|j: int| subject_model::names_entry(n.slots, id, j);
        evolution::lemma_withdrawn_evolves(gate.subjects, subject, now);
        assert(n.table[n.slots[j].1.0].subject == n.slots[j].0);
        assert(gate.subjects.table[gate.subjects.slots[i].1.0].subject == subject);
        assert(recency::slot_at(n.slots, subject, j));
    }
}

/// A change of a subject that the map does not know changes no entry that the map keeps.
pub proof fn a_change_of_an_unknown_subject_is_ignored<P>(
    m: SubjectModel<P>,
    subject: u64,
    decision: Decision,
    ttl: Duration,
    now: Instant,
)
    requires
        m.wf(),
        !recency::holds(m.slots, subject),
    ensures
        m.changed(subject, decision, ttl, now) == m.evicted(m.spec_tick(now)),
{
    subject_model::lemma_evicted(m, m.spec_tick(now));
}

/// A lookup that its entry no longer awaits changes nothing.
pub proof fn a_superseded_lookup_changes_nothing<P>(
    gate: GateModel<P>,
    subject: u64,
    id: u64,
    generation: u64,
    result: Result<crate::decision::DecisionResult<P>, crate::decision::DecisionSourceError>,
    now: Instant,
)
    requires
        !gate.subjects.awaits(id, generation),
    ensures
        gate.fetched(subject, id, generation, result, now) == gate,
{
}

/// A sweep forgets no entry that answers for a subject or is held, and changes none: it answers
/// every subject and every handle as before.
pub proof fn a_sweep_spares_what_is_needed<P>(
    gate: GateModel<P>,
    candidates: Seq<u64>,
    held: Set<u64>,
    id: u64,
    now: Instant,
)
    requires
        gate.wf(),
        gate.needs(held, id),
    ensures
        gate.swept(candidates, held).subjects.slots == gate.subjects.slots,
        gate.swept(candidates, held).subjects.table.contains_key(id)
            == gate.subjects.table.contains_key(id),
        gate.swept(candidates, held).observed(id, now) == gate.observed(id, now),
        gate.swept(candidates, held).payload(id, now) == gate.payload(id, now),
{
}

} // verus!
