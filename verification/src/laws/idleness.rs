//! Laws of the map in terms of the clock: which subjects are idle, what a change leaves alone, and
//! what a sweep forgets.

use vstd::prelude::*;

use crate::continuity;
use crate::decision::Decision;
use crate::entry::EntryState;
use crate::evolution;
use crate::gate::GateModel;
use crate::laws::admission;
use crate::laws::cache;
use crate::recency;
use crate::subject_model;
use crate::subject_model::{Removal, SubjectModel};
use crate::time::{Duration, Instant};

verus! {

/// Whether the map can tell these instants apart: ticks of last use have 64 bits.
pub open spec fn in_time<P>(m: SubjectModel<P>, now: Instant) -> bool {
    m.epoch.nanos <= now.nanos && now.nanos - m.epoch.nanos <= u64::MAX
}

/// Instant of the last use of slot `i`, in nanoseconds.
pub open spec fn last_use<P>(m: SubjectModel<P>, i: int) -> int {
    m.epoch.nanos + m.slots[i].1.1
}

/// Eviction at `now` keeps exactly the subjects whose last use is no longer ago than the idle time,
/// in their order and with their entries as they were. The entries of the others become stale.
pub proof fn a_subject_stays_while_it_is_not_idle<P>(m: SubjectModel<P>, now: Instant, i: int, at: Instant)
    requires
        m.wf(),
        continuity::in_order_of_use(m.slots),
        in_time(m, now),
        0 <= i < m.slots.len(),
    ensures
        ({
            let after = m.evicted(m.spec_tick(now));
            if now.nanos - last_use(m, i) <= m.ttl.nanos {
                &&& i < after.slots.len()
                &&& after.slots[i] == m.slots[i]
                &&& after.table[m.slots[i].1.0] == m.table[m.slots[i].1.0]
            } else {
                &&& after.slots.len() <= i
                &&& !recency::holds(after.slots, m.slots[i].0)
                &&& after.live_state(m.slots[i].1.0, at) == EntryState::Stale
            }
        }),
{
    let tick = m.spec_tick(now);
    let kept = cache::eviction_takes_idle_slots_from_the_far_end(m, tick);
    let after = m.evicted(tick);
    if now.nanos - last_use(m, i) <= m.ttl.nanos {
        assert(!m.idle(m.slots[i], tick));
        assert(i < kept);
        admission::lemma_eviction_keeps_entries(m, tick, i);
    } else {
        if kept > i {
            assert(m.slots[i].1.1 >= m.slots[kept - 1].1.1);
            assert(m.idle(m.slots[kept - 1], tick));
        }
        subject_model::lemma_evicted(m, tick);
        assert(m.table.contains_key(m.slots[i].1.0));
        if recency::holds(after.slots, m.slots[i].0) {
            let j = recency::position(after.slots, m.slots[i].0);
            assert(recency::slot_at(after.slots, m.slots[i].0, j));
            assert(m.slots[j].0 == m.slots[i].0);
        }
        if subject_model::attached(after.slots, m.slots[i].1.0) {
            let j = choose|j: int| subject_model::names_entry(after.slots, m.slots[i].1.0, j);
            assert(m.slots[j].1.0 == m.slots[i].1.0);
        }
    }
}

/// A use of a subject through its entry, and an admission of it, note the instant of the use.
pub proof fn a_use_is_noted_at_its_instant<P>(
    m: SubjectModel<P>,
    subject: u64,
    id: u64,
    now: Instant,
    refresh_before: Duration,
)
    requires
        m.wf(),
        m.next_id + 2 <= u64::MAX,
        continuity::ordered(m, now),
        in_time(m, now),
    ensures
        m.matches_entry(subject, id) ==> {
            let used = m.touched(subject, id, now);
            &&& used.slots[0].0 == subject
            &&& used.slots[0].1.0 == id
            &&& last_use(used, 0) == now.nanos
        },
        ({
            let joined = m.joined(subject, now, refresh_before);
            &&& joined.slots[0].0 == subject
            &&& last_use(joined, 0) == now.nanos
        }),
        m.touched(subject, id, now).ttl == m.ttl,
        m.joined(subject, now, refresh_before).ttl == m.ttl,
        m.joined(subject, now, refresh_before).capacity == m.capacity,
{
    let tick = m.spec_tick(now);
    subject_model::lemma_evicted(m, tick);
    if recency::holds(m.slots, subject) {
        let i = recency::position(m.slots, subject);
        assert(recency::slot_at(m.slots, subject, i));
        subject_model::lemma_promoted(m, i, tick);
        subject_model::lemma_evicted(m.promoted(i, tick), tick);
        subject_model::lemma_front_survives(m.promoted(i, tick), tick);
        assert(m.slots[i].1.1 <= tick);
    } else {
        let room = m.evicted(tick);
        let entry = crate::entry::spec_pending::<P>(
            subject,
            now,
            (room.next_id + 1) as u64,
            refresh_before,
        );
        crate::entry::lemma_word(EntryState::Pending, crate::entry::NO_EXPIRY as int);
        subject_model::lemma_inserted(room, subject, tick, entry);
        subject_model::lemma_evicted(room.inserted(subject, tick, entry), tick);
        subject_model::lemma_front_survives(room.inserted(subject, tick, entry), tick);
    }
}

/// A use of one subject leaves every other subject that is not idle in the map, with its entry as it
/// was.
pub proof fn a_use_leaves_other_subjects_alone<P>(
    m: SubjectModel<P>,
    subject: u64,
    id: u64,
    now: Instant,
    i: int,
)
    requires
        m.wf(),
        continuity::ordered(m, now),
        in_time(m, now),
        0 <= i < m.slots.len(),
        m.slots[i].0 != subject,
        now.nanos - last_use(m, i) <= m.ttl.nanos,
    ensures
        ({
            let after = m.touched(subject, id, now);
            &&& after.matches_entry(m.slots[i].0, m.slots[i].1.0)
            &&& after.table[m.slots[i].1.0] == m.table[m.slots[i].1.0]
        }),
{
    let tick = m.spec_tick(now);
    let other = m.slots[i].0;
    if m.matches_entry(subject, id) {
        let p = recency::position(m.slots, subject);
        assert(recency::slot_at(m.slots, subject, p));
        subject_model::lemma_promoted(m, p, tick);
        continuity::lemma_promoted_carries(m, p, now);
        let promoted = m.promoted(p, tick);
        let k = if i < p {
            i + 1
        } else {
            i
        };
        assert(promoted.slots[k] == m.slots[i]);
        a_subject_stays_while_it_is_not_idle(promoted, now, k, now);
        subject_model::lemma_evicted(promoted, tick);
        assert(recency::slot_at(promoted.evicted(tick).slots, other, k));
        recency::lemma_position(promoted.evicted(tick).slots, other, k);
    } else {
        a_subject_stays_while_it_is_not_idle(m, now, i, now);
        subject_model::lemma_evicted(m, tick);
        assert(recency::slot_at(m.evicted(tick).slots, other, i));
        recency::lemma_position(m.evicted(tick).slots, other, i);
    }
}

/// A watch change leaves every other subject that is not idle in the map, with its entry as it was,
/// and renews no idle time. Only a withdrawal takes its own subject out.
pub proof fn a_watch_change_leaves_other_subjects_alone<P>(
    gate: GateModel<P>,
    subject: u64,
    decision: Option<Decision>,
    now: Instant,
    i: int,
)
    requires
        gate.wf(),
        continuity::ordered(gate.subjects, now),
        in_time(gate.subjects, now),
        0 <= i < gate.subjects.slots.len(),
        now.nanos - last_use(gate.subjects, i) <= gate.subjects.ttl.nanos,
    ensures
        ({
            let slot = gate.subjects.slots[i];
            let after = gate.changed(subject, decision, now).subjects;
            &&& slot.0 != subject ==> after.matches_entry(slot.0, slot.1.0)
                && after.table[slot.1.0] == gate.subjects.table[slot.1.0]
            &&& slot.0 == subject && decision is Some ==> after.matches_entry(slot.0, slot.1.0)
                && after.slots[i] == slot
            &&& slot.0 == subject && decision is None ==> !recency::holds(after.slots, subject)
            &&& after.next_id == gate.subjects.next_id
        }),
{
    let m = gate.subjects;
    let tick = m.spec_tick(now);
    let room = m.evicted(tick);
    let slot = m.slots[i];
    a_subject_stays_while_it_is_not_idle(m, now, i, now);
    subject_model::lemma_evicted(m, tick);
    assert(recency::slot_at(room.slots, slot.0, i));
    recency::lemma_position(room.slots, slot.0, i);
    let after = gate.changed(subject, decision, now).subjects;
    if recency::holds(room.slots, subject) {
        let p = recency::position(room.slots, subject);
        assert(recency::slot_at(room.slots, subject, p));
        if slot.0 != subject {
            assert(room.slots[p].1.0 != room.slots[i].1.0);
        }
        match decision {
            Some(_) => {
                assert(after.slots == room.slots);
            },
            None => {
                subject_model::lemma_detached(room, p);
                assert(after.slots == room.slots.remove(p));
                if slot.0 != subject {
                    let k = if i < p {
                        i
                    } else {
                        i - 1
                    };
                    assert(after.slots[k] == slot);
                    assert(recency::slot_at(after.slots, slot.0, k));
                    recency::lemma_position(after.slots, slot.0, k);
                }
            },
        }
    }
}

/// A sweep forgets exactly the candidates that no slot names and no handle holds.
pub proof fn a_sweep_forgets_what_nobody_needs<P>(
    gate: GateModel<P>,
    candidates: Seq<u64>,
    held: Set<u64>,
    id: u64,
)
    requires
        gate.subjects.table.contains_key(id),
    ensures
        gate.swept(candidates, held).subjects.table.contains_key(id) <==> {
            ||| held.contains(id)
            ||| exists|i: int|
                0 <= i < gate.subjects.slots.len() && #[trigger] gate.subjects.slots[i].1.0 == id
            ||| forall|k: int| 0 <= k < candidates.len() ==> #[trigger] candidates[k] != id
        },
        gate.swept(candidates, held).subjects.table.contains_key(id) ==> gate.swept(
            candidates,
            held,
        ).subjects.table[id] == gate.subjects.table[id],
        gate.swept(candidates, held).subjects.slots == gate.subjects.slots,
        gate.swept(candidates, held).subjects.next_id == gate.subjects.next_id,
        gate.swept(candidates, held).snapshot == gate.snapshot,
        gate.swept(candidates, held).events == gate.events,
{
    let slots = gate.subjects.slots;
    if exists|i: int| 0 <= i < slots.len() && #[trigger] slots[i].1.0 == id {
        let i = choose|i: int| 0 <= i < slots.len() && #[trigger] slots[i].1.0 == id;
        assert(subject_model::names_entry(slots, id, i));
    }
    if subject_model::attached(slots, id) {
        let i = choose|i: int| subject_model::names_entry(slots, id, i);
        assert(slots[i].1.0 == id);
    }
    if candidates.contains(id) {
        let k = choose|k: int| 0 <= k < candidates.len() && candidates[k] == id;
        assert(candidates[k] == id);
    }
}

/// A subject that eviction takes out is noted, so that the snapshot is rebuilt without it.
pub proof fn an_eviction_is_noted<P>(m: SubjectModel<P>, tick: int)
    ensures
        m.evicted(tick).slots.len() < m.slots.len() ==> m.evicted(tick).dirty,
        m.dirty ==> m.evicted(tick).dirty,
        m.evicted(tick).slots.len() == m.slots.len() ==> m.evicted(tick) == m,
        m.evicted(tick).slots.len() <= m.slots.len(),
    decreases m.slots.len(),
{
    if m.slots.len() > 0 && m.idle(m.slots.last(), tick) {
        an_eviction_is_noted(
            SubjectModel { dirty: true, ..m.detached(m.slots.len() - 1) },
            tick,
        );
    }
}

/// Once its interval has passed, a withdrawal takes the subject out of the snapshot too.
pub proof fn a_withdrawal_is_published<P>(gate: GateModel<P>, subject: u64, now: Instant)
    requires
        gate.wf(),
        gate.connected,
        recency::holds(gate.subjects.slots, subject),
        gate.next_allowed.nanos <= now.nanos,
    ensures
        !gate.changed(subject, None, now).snapshot.contains_key(subject),
{
    let m = gate.subjects;
    let tick = m.spec_tick(now);
    subject_model::lemma_withdrawn(m, subject, now);
    subject_model::lemma_evicted(m, tick);
    an_eviction_is_noted(m, tick);
}

/// An admission leaves every other subject that is not idle in the map, with its entry as it was, but
/// for the least recently used one where a full map makes room for a new subject.
pub proof fn an_admission_leaves_other_subjects_alone<P>(
    m: SubjectModel<P>,
    subject: u64,
    now: Instant,
    refresh_before: Duration,
    i: int,
)
    requires
        m.wf(),
        m.next_id + 2 <= u64::MAX,
        continuity::ordered(m, now),
        in_time(m, now),
        0 <= i < m.slots.len(),
        m.slots[i].0 != subject,
        now.nanos - last_use(m, i) <= m.ttl.nanos,
        recency::holds(m.slots, subject) || m.slots.len() < m.capacity || i < m.slots.len() - 1,
    ensures
        ({
            let after = m.joined(subject, now, refresh_before);
            &&& after.matches_entry(m.slots[i].0, m.slots[i].1.0)
            &&& after.table[m.slots[i].1.0] == m.table[m.slots[i].1.0]
        }),
{
    let tick = m.spec_tick(now);
    let other = m.slots[i].0;
    if recency::holds(m.slots, subject) {
        let p = recency::position(m.slots, subject);
        assert(recency::slot_at(m.slots, subject, p));
        a_use_leaves_other_subjects_alone(m, subject, m.slots[p].1.0, now, i);
    } else {
        a_subject_stays_while_it_is_not_idle(m, now, i, now);
        subject_model::lemma_evicted(m, tick);
        continuity::lemma_evicted_carries(m, tick, now);
        let kept = cache::eviction_takes_idle_slots_from_the_far_end(m, tick);
        let room = m.evicted(tick);
        let entry = crate::entry::spec_pending::<P>(
            subject,
            now,
            (room.next_id + 1) as u64,
            refresh_before,
        );
        crate::entry::lemma_word(EntryState::Pending, crate::entry::NO_EXPIRY as int);
        subject_model::lemma_inserted(room, subject, tick, entry);
        continuity::lemma_inserted_carries(room, subject, entry, now);
        let n = room.inserted(subject, tick, entry);
        assert(room.slots[i] == m.slots[i]);
        assert(room.table.contains_key(room.slots[i].1.0));
        if room.slots.len() == room.capacity {
            let last = room.slots.len() - 1;
            assert(i < last);
            assert(room.slots[i].1.0 != room.slots[last].1.0);
        }
        assert(n.slots[i + 1] == m.slots[i]);
        assert(n.table[m.slots[i].1.0] == m.table[m.slots[i].1.0]);
        a_subject_stays_while_it_is_not_idle(n, now, i + 1, now);
        subject_model::lemma_evicted(n, tick);
        assert(recency::slot_at(n.evicted(tick).slots, other, i + 1));
        recency::lemma_position(n.evicted(tick).slots, other, i + 1);
    }
}

/// A subject that is not idle is discarded exactly where its slot still names the entry and the
/// condition holds of that entry: always, where it holds no decision in force and is not pending, or
/// where it is pending with this very lookup. Discarding makes the entry stale and is noted.
pub proof fn a_subject_is_discarded_where_the_condition_holds<P>(
    gate: GateModel<P>,
    i: int,
    id: u64,
    now: Instant,
    removal: Removal,
    at: Instant,
)
    requires
        gate.wf(),
        continuity::ordered(gate.subjects, now),
        in_time(gate.subjects, now),
        0 <= i < gate.subjects.slots.len(),
        now.nanos - last_use(gate.subjects, i) <= gate.subjects.ttl.nanos,
    ensures
        ({
            let slot = gate.subjects.slots[i];
            let after = gate.discarded(slot.0, id, now, removal).subjects;
            let applies = slot.1.0 == id && match removal {
                Removal::Always => true,
                Removal::Stale => gate.subjects.live_state(id, now) == EntryState::Stale,
                Removal::Failed(generation) => gate.subjects.awaits(id, generation)
                    && gate.subjects.table[id].state() == EntryState::Pending,
            };
            if applies {
                &&& !recency::holds(after.slots, slot.0)
                &&& after.live_state(id, at) == EntryState::Stale
                &&& after.dirty
            } else {
                &&& after.matches_entry(slot.0, slot.1.0)
                &&& after.table[slot.1.0].pending == gate.subjects.table[slot.1.0].pending
                &&& after.verdict(slot.1.0, now) == gate.subjects.verdict(slot.1.0, now)
            }
        }),
{
    let m = gate.subjects;
    let tick = m.spec_tick(now);
    let room = m.evicted(tick);
    let slot = m.slots[i];
    a_subject_stays_while_it_is_not_idle(m, now, i, now);
    subject_model::lemma_evicted(m, tick);
    assert(recency::slot_at(room.slots, slot.0, i));
    recency::lemma_position(room.slots, slot.0, i);
    assert(room.table.contains_key(room.slots[i].1.0));
    assert(m.table.contains_key(m.slots[i].1.0));
    subject_model::lemma_looked(room, id, now);
    let seen = if removal is Stale {
        room.looked(id, now)
    } else {
        room
    };
    subject_model::lemma_detached(seen, i);
    subject_model::lemma_latched(room.table[slot.1.0], now);
    if slot.1.0 == id {
        subject_model::lemma_invalidated(seen.table[id]);
    }
}

/// A subject matches an entry exactly where a slot pairs them.
pub proof fn a_match_is_a_slot<P>(m: SubjectModel<P>, subject: u64, id: u64)
    requires
        m.wf(),
    ensures
        m.matches_entry(subject, id) <==> exists|i: int|
            0 <= i < m.slots.len() && #[trigger] m.slots[i].0 == subject && m.slots[i].1.0 == id,
{
    if m.matches_entry(subject, id) {
        let i = recency::position(m.slots, subject);
        assert(recency::slot_at(m.slots, subject, i));
        assert(m.slots[i].0 == subject);
    }
    if exists|i: int|
        0 <= i < m.slots.len() && #[trigger] m.slots[i].0 == subject && m.slots[i].1.0 == id {
        let i = choose|i: int|
            0 <= i < m.slots.len() && #[trigger] m.slots[i].0 == subject && m.slots[i].1.0 == id;
        assert(recency::slot_at(m.slots, subject, i));
        recency::lemma_position(m.slots, subject, i);
    }
}

/// An entry awaits exactly the lookup in flight for it, and refreshes with it exactly where that
/// lookup started from a decision.
pub proof fn an_entry_awaits_its_lookup_in_flight<P>(m: SubjectModel<P>, id: u64, generation: u64)
    ensures
        m.awaits(id, generation) <==> m.table.contains_key(id) && m.table[id].pending is Some
            && m.table[id].pending->0.generation == generation,
        m.refreshes(id, generation) <==> m.awaits(id, generation)
            && m.table[id].pending->0.refresh_from is Some,
{
}

/// To give up a lookup that the entry does not await, or that resolves a pending subject, changes
/// nothing.
pub proof fn only_its_own_refresh_is_given_up<P>(m: SubjectModel<P>, id: u64, generation: u64)
    requires
        !(m.table.contains_key(id) && m.table[id].pending is Some
            && m.table[id].pending->0.generation == generation
            && m.table[id].pending->0.refresh_from is Some),
    ensures
        m.released(id, generation) == m,
{
}

/// An idle subject is gone, and its entry stale, after a use of another subject, after an admission
/// of another one, and after any change that the watch brings, were it one of that very subject.
pub proof fn an_idle_subject_leaves_with_the_next_use<P>(
    gate: GateModel<P>,
    i: int,
    subject: u64,
    id: u64,
    decision: Option<Decision>,
    now: Instant,
    at: Instant,
)
    requires
        gate.wf(),
        gate.has_numbers(),
        continuity::ordered(gate.subjects, now),
        in_time(gate.subjects, now),
        0 <= i < gate.subjects.slots.len(),
        now.nanos - last_use(gate.subjects, i) > gate.subjects.ttl.nanos,
    ensures
        ({
            let m = gate.subjects;
            let slot = m.slots[i];
            let touched = m.touched(subject, id, now);
            let joined = m.joined(subject, now, gate.settings.refresh_before_expiry);
            let changed = gate.changed(subject, decision, now).subjects;
            &&& slot.0 != subject ==> {
                &&& !recency::holds(touched.slots, slot.0)
                &&& touched.live_state(slot.1.0, at) == EntryState::Stale
                &&& !recency::holds(joined.slots, slot.0)
                &&& joined.live_state(slot.1.0, at) == EntryState::Stale
            }
            &&& !recency::holds(changed.slots, slot.0)
            &&& changed.live_state(slot.1.0, at) == EntryState::Stale
        }),
{
    let m = gate.subjects;
    let tick = m.spec_tick(now);
    let slot = m.slots[i];
    let refresh_before = gate.settings.refresh_before_expiry;
    let room = m.evicted(tick);
    a_subject_stays_while_it_is_not_idle(m, now, i, at);
    subject_model::lemma_evicted(m, tick);
    assert(m.table[m.slots[i].1.0].subject == slot.0);
    if slot.0 != subject {
        lemma_idle_leaves_a_use(m, i, subject, id, now, at);
        if recency::holds(m.slots, subject) {
            let p = recency::position(m.slots, subject);
            assert(recency::slot_at(m.slots, subject, p));
            lemma_idle_leaves_a_use(m, i, subject, m.slots[p].1.0, now, at);
        } else {
            lemma_idle_leaves_an_insertion(m, i, subject, now, refresh_before, at);
        }
    }
    subject_model::lemma_withdrawn(m, subject, now);
    evolution::lemma_evicted_evolves(m, tick);
    let changed = gate.changed(subject, decision, now).subjects;
    if recency::holds(room.slots, subject) {
        let p = recency::position(room.slots, subject);
        assert(recency::slot_at(room.slots, subject, p));
        subject_model::lemma_remove_slot(room, p);
        assert(room.table[room.slots[p].1.0].subject == subject);
        assert(room.slots[p].1.0 != slot.1.0);
        if slot.0 != subject {
            assert(!recency::holds(room.slots.remove(p), slot.0));
        }
    }
}

proof fn lemma_idle_leaves_a_use<P>(
    m: SubjectModel<P>,
    i: int,
    subject: u64,
    id: u64,
    now: Instant,
    at: Instant,
)
    requires
        m.wf(),
        continuity::ordered(m, now),
        in_time(m, now),
        0 <= i < m.slots.len(),
        m.slots[i].0 != subject,
        now.nanos - last_use(m, i) > m.ttl.nanos,
    ensures
        !recency::holds(m.touched(subject, id, now).slots, m.slots[i].0),
        m.touched(subject, id, now).live_state(m.slots[i].1.0, at) == EntryState::Stale,
{
    let tick = m.spec_tick(now);
    if m.matches_entry(subject, id) {
        let p = recency::position(m.slots, subject);
        assert(recency::slot_at(m.slots, subject, p));
        subject_model::lemma_promoted(m, p, tick);
        continuity::lemma_promoted_carries(m, p, now);
        let promoted = m.promoted(p, tick);
        let k = if i < p {
            i + 1
        } else {
            i
        };
        assert(promoted.slots[k] == m.slots[i]);
        a_subject_stays_while_it_is_not_idle(promoted, now, k, at);
    } else {
        a_subject_stays_while_it_is_not_idle(m, now, i, at);
    }
}

proof fn lemma_idle_leaves_an_insertion<P>(
    m: SubjectModel<P>,
    i: int,
    subject: u64,
    now: Instant,
    refresh_before: Duration,
    at: Instant,
)
    requires
        m.wf(),
        m.next_id + 2 <= u64::MAX,
        continuity::ordered(m, now),
        in_time(m, now),
        0 <= i < m.slots.len(),
        !recency::holds(m.slots, subject),
        m.slots[i].0 != subject,
        now.nanos - last_use(m, i) > m.ttl.nanos,
    ensures
        !recency::holds(m.joined(subject, now, refresh_before).slots, m.slots[i].0),
        m.joined(subject, now, refresh_before).live_state(m.slots[i].1.0, at)
            == EntryState::Stale,
{
    let tick = m.spec_tick(now);
    let slot = m.slots[i];
    a_subject_stays_while_it_is_not_idle(m, now, i, at);
    evolution::lemma_evicted_evolves(m, tick);
    subject_model::lemma_evicted(m, tick);
    let room = m.evicted(tick);
    let entry = crate::entry::spec_pending::<P>(
        subject,
        now,
        (room.next_id + 1) as u64,
        refresh_before,
    );
    crate::entry::lemma_word(EntryState::Pending, crate::entry::NO_EXPIRY as int);
    subject_model::lemma_inserted(room, subject, tick, entry);
    let n = room.inserted(subject, tick, entry);
    assert(m.table.contains_key(slot.1.0));
    assert(room.table[slot.1.0].subject == slot.0);
    if recency::holds(n.slots, slot.0) {
        let j = recency::position(n.slots, slot.0);
        assert(recency::slot_at(n.slots, slot.0, j));
        assert(recency::slot_at(room.slots, slot.0, j - 1));
    }
    evolution::lemma_inserted_evolves(room, subject, tick, entry);
    evolution::lemma_evicted_evolves(n, tick);
    subject_model::lemma_evicted(n, tick);
    let after = n.evicted(tick);
    assert(!recency::holds(after.slots, slot.0));
    assert(n.table.contains_key(slot.1.0));
    assert(after.table.contains_key(slot.1.0));
    assert(after.table[slot.1.0].subject == slot.0);
    if subject_model::attached(after.slots, slot.1.0) {
        let j = choose|j: int| subject_model::names_entry(after.slots, slot.1.0, j);
        assert(after.table[after.slots[j].1.0].subject == after.slots[j].0);
        assert(recency::slot_at(after.slots, slot.0, j));
    }
}

} // verus!
