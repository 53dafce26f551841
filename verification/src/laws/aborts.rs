//! Which lookups are aborted: those that were in flight and no longer count, and no other.

use vstd::prelude::*;

use crate::decision::Decision;
use crate::entry;
use crate::entry::EntryState;
use crate::gate::GateModel;
use crate::recency;
use crate::subject_model;
use crate::subject_model::SubjectModel;
use crate::time::Instant;

verus! {

/// Whether some entry awaits the lookup `generation`.
pub open spec fn in_flight<P>(m: SubjectModel<P>, generation: u64) -> bool {
    exists|id: u64| m.awaits(id, generation)
}

/// Whether, on the way from `before` to `after`, no lookup was started, and the lookups noted as
/// dropped are ones that were in flight.
pub open spec fn only_drops<P>(before: SubjectModel<P>, after: SubjectModel<P>) -> bool {
    &&& before.aborted.len() <= after.aborted.len()
    &&& forall|j: int|
        0 <= j < before.aborted.len() ==> #[trigger] after.aborted[j] == before.aborted[j]
    &&& forall|j: int|
        before.aborted.len() <= j < after.aborted.len() ==> in_flight(
            before,
            #[trigger] after.aborted[j],
        )
    &&& forall|id: u64, generation: u64| #[trigger]
        after.awaits(id, generation) ==> before.awaits(id, generation)
}

/// Steps that only drop lookups follow each other.
proof fn lemma_only_drops_trans<P>(a: SubjectModel<P>, b: SubjectModel<P>, c: SubjectModel<P>)
    requires
        only_drops(a, b),
        only_drops(b, c),
    ensures
        only_drops(a, c),
{
    assert forall|j: int| 0 <= j < a.aborted.len() implies #[trigger] c.aborted[j] == a.aborted[j] by {
        assert(b.aborted[j] == a.aborted[j]);
    }
    assert forall|j: int| a.aborted.len() <= j < c.aborted.len() implies in_flight(
        a,
        #[trigger] c.aborted[j],
    ) by {
        let generation = c.aborted[j];
        if j < b.aborted.len() {
            assert(b.aborted[j] == generation);
        } else {
            let id = choose|id: u64| b.awaits(id, generation);
            assert(a.awaits(id, generation));
        }
    }
}

/// An entry that is dropped has its lookup aborted.
proof fn lemma_dropped<P>(m: SubjectModel<P>, id: u64)
    requires
        m.table.contains_key(id),
    ensures
        only_drops(m, m.dropped(id)),
{
    let after = m.dropped(id);
    if let Some(pending) = m.table[id].pending {
        assert(m.awaits(id, pending.generation));
    }
    assert forall|other: u64, generation: u64| #[trigger] after.awaits(other, generation) implies m.awaits(
        other,
        generation,
    ) by {
        if other == id {
            assert(after.table[id].pending is None);
        }
    }
}

/// Idle subjects leave with their lookups aborted.
proof fn lemma_evicted<P>(m: SubjectModel<P>, tick: int)
    requires
        m.wf(),
    ensures
        only_drops(m, m.evicted(tick)),
    decreases m.slots.len(),
{
    if m.slots.len() > 0 && m.idle(m.slots.last(), tick) {
        let last = m.slots.len() - 1;
        assert(m.table.contains_key(m.slots[last].1.0));
        lemma_dropped(m, m.slots[last].1.0);
        subject_model::lemma_detached(m, last);
        let next = SubjectModel { dirty: true, ..m.detached(last) };
        assert(next.wf());
        assert(only_drops(m, next)) by {
            assert forall|id: u64, generation: u64| #[trigger] next.awaits(id, generation) implies m.awaits(
                id,
                generation,
            ) by {
                assert(m.dropped(m.slots[last].1.0).awaits(id, generation));
            }
        }
        lemma_evicted(next, tick);
        lemma_only_drops_trans(m, next, m.evicted(tick));
    }
}

/// A map that is cleared has the lookups of its subjects aborted.
proof fn lemma_dropped_from<P>(m: SubjectModel<P>, i: int)
    requires
        m.wf(),
        0 <= i,
    ensures
        only_drops(m, m.dropped_from(i)),
    decreases m.slots.len() - i,
{
    if i < m.slots.len() {
        assert(m.table.contains_key(m.slots[i].1.0));
        let next = m.dropped(m.slots[i].1.0);
        lemma_dropped(m, m.slots[i].1.0);
        subject_model::lemma_invalidated(m.table[m.slots[i].1.0]);
        assert(next.wf()) by {
            assert forall|j: int| 0 <= j < next.slots.len() implies {
                &&& next.table.contains_key(#[trigger] next.slots[j].1.0)
                &&& next.table[next.slots[j].1.0].subject == next.slots[j].0
            } by {
                assert(m.table.contains_key(m.slots[j].1.0));
            }
        }
        lemma_dropped_from(next, i + 1);
        lemma_only_drops_trans(m, next, m.dropped_from(i));
    }
}

/// Only a lookup in flight is aborted, and none is started, when a handle invalidates its entry, the
/// watch opens or goes down, a subject is used through its entry, or the authority decides or
/// withdraws a decision. An invalidated entry's lookup is the one that is aborted.
pub proof fn only_a_lookup_in_flight_is_aborted<P>(
    gate: GateModel<P>,
    subject: u64,
    id: u64,
    decision: Option<Decision>,
    now: Instant,
)
    requires
        gate.wf(),
    ensures
        only_drops(gate.subjects, gate.invalidated(id).subjects),
        only_drops(gate.subjects, gate.opened().subjects),
        only_drops(gate.subjects, gate.lost(now).subjects),
        only_drops(gate.subjects, gate.subjects.touched(subject, id, now)),
        only_drops(gate.subjects, gate.changed(subject, decision, now).subjects),
        gate.subjects.table.contains_key(id) ==> gate.invalidated(id).subjects.aborted == (
        match gate.subjects.table[id].pending {
            Some(pending) => gate.subjects.aborted.push(pending.generation),
            None => gate.subjects.aborted,
        }),
{
    let m = gate.subjects;
    let tick = m.spec_tick(now);
    if m.table.contains_key(id) {
        lemma_dropped(m, id);
    }
    lemma_dropped_from(m, 0);
    lemma_unslotted(m, m.dropped_from(0), m.cleared());
    lemma_unslotted(m, m.cleared(), gate.opened().subjects);
    lemma_unslotted(m, m.cleared(), gate.lost(now).subjects);
    lemma_evicted(m, tick);
    if m.matches_entry(subject, id) {
        let i = recency::position(m.slots, subject);
        assert(recency::slot_at(m.slots, subject, i));
        subject_model::lemma_promoted(m, i, tick);
        let front = m.promoted(i, tick);
        lemma_evicted(front, tick);
        lemma_unslotted(m, m, front);
        lemma_only_drops_trans(m, front, front.evicted(tick));
    }
    lemma_changed_only_drops(gate, subject, decision, now);
}

/// A map with the same entries and the same dropped lookups has dropped the same.
proof fn lemma_unslotted<P>(m: SubjectModel<P>, a: SubjectModel<P>, b: SubjectModel<P>)
    requires
        only_drops(m, a),
        b.table == a.table,
        b.aborted == a.aborted,
    ensures
        only_drops(m, b),
{
    assert forall|id: u64, generation: u64| #[trigger] b.awaits(id, generation) implies m.awaits(
        id,
        generation,
    ) by {
        assert(a.awaits(id, generation));
    }
}

/// A watch change only drops lookups.
proof fn lemma_changed_only_drops<P>(
    gate: GateModel<P>,
    subject: u64,
    decision: Option<Decision>,
    now: Instant,
)
    requires
        gate.wf(),
    ensures
        only_drops(gate.subjects, gate.changed(subject, decision, now).subjects),
{
    let m = gate.subjects;
    let tick = m.spec_tick(now);
    let room = m.evicted(tick);
    let after = gate.changed(subject, decision, now).subjects;
    subject_model::lemma_evicted(m, tick);
    lemma_evicted(m, tick);
    if recency::holds(room.slots, subject) {
        let i = recency::position(room.slots, subject);
        assert(recency::slot_at(room.slots, subject, i));
        let id = room.slots[i].1.0;
        assert(room.table.contains_key(id));
        lemma_dropped(room, id);
        match decision {
            Some(decided) => {
                let next = m.changed(
                    subject,
                    decided,
                    gate.settings.decision_freshness_ttl,
                    now,
                );
                assert(next.aborted == room.dropped(id).aborted);
                assert forall|other: u64, generation: u64| #[trigger] next.awaits(
                    other,
                    generation,
                ) implies room.awaits(other, generation) by {}
                assert(only_drops(room, next));
                lemma_unslotted(room, next, after);
            },
            None => {
                lemma_unslotted(room, room.dropped(id), after);
            },
        }
        lemma_only_drops_trans(m, room, after);
    } else {
        lemma_unslotted(m, room, after);
    }
}

/// An admission starts no lookup beside that of a new subject, and aborts only lookups in flight.
pub proof fn an_admission_aborts_only_lookups_in_flight<P>(
    gate: GateModel<P>,
    subject: u64,
    now: Instant,
    generation: u64,
    j: int,
)
    requires
        gate.wf(),
        gate.has_numbers(),
        gate.subjects.aborted.len() <= j < gate.joined(subject, now).subjects.aborted.len(),
    ensures
        ({
            let aborted = gate.joined(subject, now).subjects.aborted[j];
            in_flight(gate.subjects, aborted) || !recency::holds(gate.subjects.slots, subject)
                && aborted == gate.subjects.next_id + 1
        }),
        in_flight(gate.joined(subject, now).subjects, generation) ==> in_flight(
            gate.subjects,
            generation,
        ) || !recency::holds(gate.subjects.slots, subject) && generation == gate.subjects.next_id
            + 1,
{
    let m = gate.subjects;
    let tick = m.spec_tick(now);
    let refresh_before = gate.settings.refresh_before_expiry;
    let after = gate.joined(subject, now).subjects;
    if recency::holds(m.slots, subject) {
        let i = recency::position(m.slots, subject);
        assert(recency::slot_at(m.slots, subject, i));
        subject_model::lemma_promoted(m, i, tick);
        let front = m.promoted(i, tick);
        lemma_evicted(front, tick);
        lemma_unslotted(m, m, front);
        lemma_only_drops_trans(m, front, front.evicted(tick));
        lemma_unslotted(m, front.evicted(tick), after);
    } else {
        let room = m.evicted(tick);
        subject_model::lemma_evicted(m, tick);
        lemma_evicted(m, tick);
        let full = room.slots.len() == room.capacity;
        let freed = if full {
            room.dropped(room.slots.last().1.0)
        } else {
            room
        };
        if full {
            let last = room.slots.len() - 1;
            assert(room.table.contains_key(room.slots[last].1.0));
            lemma_dropped(room, room.slots[last].1.0);
            lemma_only_drops_trans(m, room, freed);
        }
        let fresh = entry::spec_pending::<P>(
            subject,
            now,
            (room.next_id + 1) as u64,
            refresh_before,
        );
        entry::lemma_word(EntryState::Pending, entry::NO_EXPIRY as int);
        subject_model::lemma_inserted(room, subject, tick, fresh);
        let added = room.inserted(subject, tick, fresh);
        lemma_evicted(added, tick);
        assert forall|id: u64, number: u64| #[trigger] added.awaits(id, number) implies in_flight(
            m,
            number,
        ) || number == m.next_id + 1 by {
            if id != room.next_id {
                assert(freed.awaits(id, number));
                assert(m.awaits(id, number));
            }
        }
        assert forall|id: u64, number: u64| #[trigger] after.awaits(id, number) implies added.awaits(
            id,
            number,
        ) by {
            assert(added.evicted(tick).awaits(id, number));
        }
        assert(after.aborted == added.evicted(tick).aborted);
        let aborted = after.aborted[j];
        if j < freed.aborted.len() {
            assert(added.evicted(tick).aborted[j] == added.aborted[j]);
            assert(freed.aborted[j] == aborted);
        } else {
            let id = choose|id: u64| added.awaits(id, aborted);
            assert(added.awaits(id, aborted));
        }
    }
    if in_flight(after, generation) {
        let id = choose|id: u64| after.awaits(id, generation);
        assert(after.awaits(id, generation));
    }
}

} // verus!
