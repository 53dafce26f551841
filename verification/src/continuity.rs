//! What every step carries on: the lookups in flight, and the order in which subjects were used.

use vstd::prelude::*;

use crate::config::Settings;
use crate::decision;
use crate::decision::{Decision, DecisionResult, DecisionSourceError};
use crate::entry;
use crate::entry::{Entry, EntryState};
use crate::recency;
use crate::recency::Slot;
use crate::subject_model;
use crate::subject_model::{Removal, SubjectModel};
use crate::time::{Duration, Instant};

verus! {

/// Whether the lookup `generation` was dropped on the way from `before` to `after`.
pub open spec fn newly_aborted<P>(
    before: SubjectModel<P>,
    after: SubjectModel<P>,
    generation: u64,
) -> bool {
    exists|j: int|
        before.aborted.len() <= j < after.aborted.len() && #[trigger] after.aborted[j]
            == generation
}

/// Whether the entry `id` awaits in `after` what it awaits in `before`.
pub open spec fn same_lookup<P>(before: SubjectModel<P>, after: SubjectModel<P>, id: u64) -> bool {
    after.table.contains_key(id) && after.table[id].pending == before.table[id].pending
}

/// Whether the lookup that the entry `id` awaits stays in flight, is noted as dropped, or is the one
/// that may end.
pub open spec fn keeps_lookup<P>(
    before: SubjectModel<P>,
    after: SubjectModel<P>,
    id: u64,
    ended: Option<(u64, u64)>,
) -> bool {
    match before.table[id].pending {
        Some(pending) => {
            ||| ended == Some((id, pending.generation))
            ||| same_lookup(before, after, id)
            ||| newly_aborted(before, after, pending.generation)
        },
        None => true,
    }
}

/// Whether each lookup in flight either stays in flight or is noted as dropped. `ended` names the
/// entry and the number of a lookup that may end.
pub open spec fn keeps_lookups<P>(
    before: SubjectModel<P>,
    after: SubjectModel<P>,
    ended: Option<(u64, u64)>,
) -> bool {
    &&& before.aborted.len() <= after.aborted.len()
    &&& forall|j: int|
        0 <= j < before.aborted.len() ==> #[trigger] after.aborted[j] == before.aborted[j]
    &&& forall|id: u64| #[trigger]
        before.table.contains_key(id) ==> keeps_lookup(before, after, id, ended)
}

/// Whether slots stand in the order of their last use.
pub open spec fn in_order_of_use(slots: Seq<Slot>) -> bool {
    forall|i: int, j: int|
        #![trigger slots[i], slots[j]]
        0 <= i < j < slots.len() ==> slots[i].1.1 >= slots[j].1.1
}

/// Whether no slot was used after `tick`.
pub open spec fn used_by(slots: Seq<Slot>, tick: int) -> bool {
    forall|i: int| 0 <= i < slots.len() ==> (#[trigger] slots[i]).1.1 <= tick
}

/// Whether the slots stand in the order of their last use, none of them used after `now`.
pub open spec fn ordered<P>(m: SubjectModel<P>, now: Instant) -> bool {
    in_order_of_use(m.slots) && used_by(m.slots, m.spec_tick(now))
}

/// Whether a map that was in the order of its use at `now` is so still.
pub open spec fn keeps_order<P>(before: SubjectModel<P>, after: SubjectModel<P>, now: Instant) -> bool {
    &&& after.epoch == before.epoch
    &&& ordered(before, now) ==> ordered(after, now)
}

/// What a step at `now` carries on from `before` to `after`.
pub open spec fn carries<P>(
    before: SubjectModel<P>,
    after: SubjectModel<P>,
    now: Instant,
    ended: Option<(u64, u64)>,
) -> bool {
    keeps_lookups(before, after, ended) && keeps_order(before, after, now)
}

/// Steps that carry on follow each other.
pub proof fn lemma_carries_trans<P>(
    a: SubjectModel<P>,
    b: SubjectModel<P>,
    c: SubjectModel<P>,
    now: Instant,
    ended: Option<(u64, u64)>,
)
    requires
        carries(a, b, now, ended),
        carries(b, c, now, ended),
    ensures
        carries(a, c, now, ended),
{
    assert forall|j: int| 0 <= j < a.aborted.len() implies #[trigger] c.aborted[j]
        == a.aborted[j] by {
        assert(b.aborted[j] == a.aborted[j]);
    }
    assert forall|id: u64| #[trigger] a.table.contains_key(id) implies keeps_lookup(
        a,
        c,
        id,
        ended,
    ) by {
        assert(keeps_lookup(a, b, id, ended));
        if let Some(pending) = a.table[id].pending {
            if ended != Some((id, pending.generation)) {
                if newly_aborted(a, b, pending.generation) {
                    let j = choose|j: int|
                        a.aborted.len() <= j < b.aborted.len() && #[trigger] b.aborted[j]
                            == pending.generation;
                    assert(c.aborted[j] == pending.generation);
                } else {
                    assert(b.table.contains_key(id));
                    assert(keeps_lookup(b, c, id, ended));
                    if newly_aborted(b, c, pending.generation) {
                        let j = choose|j: int|
                            b.aborted.len() <= j < c.aborted.len() && #[trigger] c.aborted[j]
                                == pending.generation;
                        assert(c.aborted[j] == pending.generation);
                    }
                }
            }
        }
    }
}

/// A map in order stays so while the clock does not run backwards.
pub proof fn lemma_ordered_later<P>(m: SubjectModel<P>, now: Instant, later: Instant)
    requires
        ordered(m, now),
        now.nanos <= later.nanos,
    ensures
        ordered(m, later),
{
}

/// Invalidating an entry notes the lookup that it drops.
pub proof fn lemma_dropped_carries<P>(m: SubjectModel<P>, id: u64, now: Instant)
    requires
        m.table.contains_key(id),
    ensures
        carries(m, m.dropped(id), now, None),
{
    let n = m.dropped(id);
    if let Some(pending) = m.table[id].pending {
        assert(n.aborted[m.aborted.len() as int] == pending.generation);
    }
}

/// Detaching a slot notes the lookup of its entry and leaves the others in their order.
pub proof fn lemma_detached_carries<P>(m: SubjectModel<P>, i: int, now: Instant)
    requires
        m.wf(),
        0 <= i < m.slots.len(),
    ensures
        carries(m, m.detached(i), now, None),
{
    let id = m.slots[i].1.0;
    assert(m.table.contains_key(id));
    lemma_dropped_carries(m, id, now);
    let d = m.detached(i);
    assert(forall|j: int|
        0 <= j < d.slots.len() ==> #[trigger] d.slots[j] == m.slots[if j < i {
            j
        } else {
            j + 1
        }]);
    assert forall|other: u64| #[trigger] m.table.contains_key(other) implies keeps_lookup(
        m,
        d,
        other,
        None,
    ) by {
        assert(keeps_lookup(m, m.dropped(id), other, None));
        if let Some(pending) = m.table[other].pending {
            if newly_aborted(m, m.dropped(id), pending.generation) {
                let j = choose|j: int|
                    m.aborted.len() <= j < m.dropped(id).aborted.len() && #[trigger] m.dropped(
                        id,
                    ).aborted[j] == pending.generation;
                assert(d.aborted[j] == pending.generation);
            }
        }
    }
}

/// Eviction carries on.
pub proof fn lemma_evicted_carries<P>(m: SubjectModel<P>, tick: int, now: Instant)
    requires
        m.wf(),
    ensures
        carries(m, m.evicted(tick), now, None),
    decreases m.slots.len(),
{
    if m.slots.len() > 0 && m.idle(m.slots.last(), tick) {
        let last = m.slots.len() - 1;
        subject_model::lemma_detached(m, last);
        lemma_detached_carries(m, last, now);
        let next = SubjectModel { dirty: true, ..m.detached(last) };
        assert(next.wf());
        lemma_same_carries(m.detached(last), next, now);
        lemma_carries_trans(m, m.detached(last), next, now, None);
        lemma_evicted_carries(next, tick, now);
        lemma_carries_trans(m, next, next.evicted(tick), now, None);
    }
}

/// A map with the same slots, epoch, lookups and dropped lookups carries on.
pub proof fn lemma_same_carries<P>(m: SubjectModel<P>, n: SubjectModel<P>, now: Instant)
    requires
        n.slots == m.slots,
        n.epoch == m.epoch,
        n.aborted == m.aborted,
        forall|id: u64| #[trigger] m.table.contains_key(id) ==> same_lookup(m, n, id),
    ensures
        carries(m, n, now, None),
{
}

/// Promotion carries on.
pub proof fn lemma_promoted_carries<P>(m: SubjectModel<P>, i: int, now: Instant)
    requires
        0 <= i < m.slots.len(),
    ensures
        carries(m, m.promoted(i, m.spec_tick(now)), now, None),
{
    let p = m.promoted(i, m.spec_tick(now));
    assert(forall|j: int|
        1 <= j < p.slots.len() ==> #[trigger] p.slots[j] == m.slots[if j - 1 < i {
            j - 1
        } else {
            j
        }]);
}

/// A use of a subject carries on.
pub proof fn lemma_touched_carries<P>(m: SubjectModel<P>, subject: u64, id: u64, now: Instant)
    requires
        m.wf(),
    ensures
        carries(m, m.touched(subject, id, now), now, None),
{
    let tick = m.spec_tick(now);
    if m.matches_entry(subject, id) {
        let i = recency::position(m.slots, subject);
        assert(recency::slot_at(m.slots, subject, i));
        subject_model::lemma_promoted(m, i, tick);
        lemma_promoted_carries(m, i, now);
        let p = m.promoted(i, tick);
        lemma_evicted_carries(p, tick, now);
        lemma_carries_trans(m, p, p.evicted(tick), now, None);
    } else {
        lemma_evicted_carries(m, tick, now);
    }
}

/// Insertion carries on.
pub proof fn lemma_inserted_carries<P>(
    m: SubjectModel<P>,
    subject: u64,
    entry: Entry<P>,
    now: Instant,
)
    requires
        m.wf(),
    ensures
        carries(m, m.inserted(subject, m.spec_tick(now), entry), now, None),
{
    let tick = m.spec_tick(now);
    let last = m.slots.len() - 1;
    let room = if m.slots.len() == m.capacity {
        SubjectModel { dirty: true, ..m.detached(last) }
    } else {
        m
    };
    if m.slots.len() == m.capacity {
        lemma_detached_carries(m, last, now);
        lemma_same_carries(m.detached(last), room, now);
        lemma_carries_trans(m, m.detached(last), room, now, None);
        subject_model::lemma_detached(m, last);
    } else {
        lemma_same_carries(m, m, now);
    }
    assert(room.table.dom() == m.table.dom());
    let n = m.inserted(subject, tick, entry);
    assert(!room.table.contains_key(m.next_id));
    assert(forall|j: int| 1 <= j < n.slots.len() ==> #[trigger] n.slots[j] == room.slots[j - 1]);
    assert(keeps_lookups(room, n, None));
    assert(keeps_order(room, n, now));
    lemma_carries_trans(m, room, n, now, None);
}

/// Joining a subject carries on.
pub proof fn lemma_joined_carries<P>(
    m: SubjectModel<P>,
    subject: u64,
    now: Instant,
    refresh_before: Duration,
)
    requires
        m.wf(),
        m.next_id + 2 <= u64::MAX,
    ensures
        carries(m, m.joined(subject, now, refresh_before), now, None),
{
    let tick = m.spec_tick(now);
    if recency::holds(m.slots, subject) {
        let i = recency::position(m.slots, subject);
        assert(recency::slot_at(m.slots, subject, i));
        subject_model::lemma_promoted(m, i, tick);
        lemma_promoted_carries(m, i, now);
        let p = m.promoted(i, tick);
        lemma_evicted_carries(p, tick, now);
        lemma_carries_trans(m, p, p.evicted(tick), now, None);
    } else {
        subject_model::lemma_evicted(m, tick);
        lemma_evicted_carries(m, tick, now);
        let room = m.evicted(tick);
        let entry = entry::spec_pending::<P>(
            subject,
            now,
            (room.next_id + 1) as u64,
            refresh_before,
        );
        entry::lemma_word(EntryState::Pending, entry::NO_EXPIRY as int);
        subject_model::lemma_inserted(room, subject, tick, entry);
        lemma_inserted_carries(room, subject, entry, now);
        let n = room.inserted(subject, tick, entry);
        lemma_carries_trans(m, room, n, now, None);
        lemma_evicted_carries(n, tick, now);
        lemma_carries_trans(m, n, n.evicted(tick), now, None);
    }
}

/// Looking at an entry carries on.
pub proof fn lemma_looked_carries<P>(m: SubjectModel<P>, id: u64, at: Instant, now: Instant)
    ensures
        carries(m, m.looked(id, at), now, None),
{
    lemma_same_carries(m, m.looked(id, at), now);
}

/// Clearing notes every lookup in flight.
pub proof fn lemma_dropped_from_carries<P>(m: SubjectModel<P>, i: int, now: Instant)
    requires
        m.wf(),
        0 <= i <= m.slots.len(),
    ensures
        carries(m, m.dropped_from(i), now, None),
    decreases m.slots.len() - i,
{
    if i < m.slots.len() {
        let id = m.slots[i].1.0;
        assert(m.table.contains_key(id));
        subject_model::lemma_dropped(m, id);
        lemma_dropped_carries(m, id, now);
        lemma_dropped_from_carries(m.dropped(id), i + 1, now);
        lemma_carries_trans(m, m.dropped(id), m.dropped(id).dropped_from(i + 1), now, None);
    } else {
        lemma_same_carries(m, m, now);
    }
}

/// Clearing carries on.
pub proof fn lemma_cleared_carries<P>(m: SubjectModel<P>, now: Instant)
    requires
        m.wf(),
    ensures
        carries(m, m.cleared(), now, None),
{
    subject_model::lemma_dropped_from(m, 0);
    lemma_dropped_from_carries(m, 0, now);
    let d = m.dropped_from(0);
    let c = m.cleared();
    assert(keeps_lookups(d, c, None));
    assert(keeps_order(d, c, now));
    lemma_carries_trans(m, d, c, now, None);
}

/// A conditional removal carries on.
pub proof fn lemma_removed_if_carries<P>(
    m: SubjectModel<P>,
    subject: u64,
    id: u64,
    now: Instant,
    removal: Removal,
)
    requires
        m.wf(),
    ensures
        carries(m, m.removed_if(subject, id, now, removal), now, None),
{
    let tick = m.spec_tick(now);
    subject_model::lemma_evicted(m, tick);
    lemma_evicted_carries(m, tick, now);
    let room = m.evicted(tick);
    subject_model::lemma_looked(room, id, now);
    lemma_looked_carries(room, id, now, now);
    lemma_same_carries(room, room, now);
    let seen = if removal is Stale {
        room.looked(id, now)
    } else {
        room
    };
    lemma_carries_trans(m, room, seen, now, None);
    if recency::holds(seen.slots, subject) {
        let i = recency::position(seen.slots, subject);
        assert(recency::slot_at(seen.slots, subject, i));
        lemma_detached_carries(seen, i, now);
        lemma_carries_trans(m, seen, seen.detached(i), now, None);
    }
}

/// A watch change carries on: it notes the lookup that it makes needless.
pub proof fn lemma_changed_carries<P>(
    m: SubjectModel<P>,
    subject: u64,
    decision: Decision,
    ttl: Duration,
    now: Instant,
)
    requires
        m.wf(),
    ensures
        carries(m, m.changed(subject, decision, ttl, now), now, None),
{
    let tick = m.spec_tick(now);
    subject_model::lemma_evicted(m, tick);
    lemma_evicted_carries(m, tick, now);
    let room = m.evicted(tick);
    if recency::holds(room.slots, subject) {
        let i = recency::position(room.slots, subject);
        assert(recency::slot_at(room.slots, subject, i));
        let id = room.slots[i].1.0;
        assert(room.table.contains_key(id));
        let n = m.changed(subject, decision, ttl, now);
        if let Some(pending) = room.table[id].pending {
            assert(n.aborted[room.aborted.len() as int] == pending.generation);
        }
        assert(keeps_lookups(room, n, None));
        assert(keeps_order(room, n, now));
        lemma_carries_trans(m, room, n, now, None);
    }
}

/// A withdrawal carries on.
pub proof fn lemma_withdrawn_carries<P>(m: SubjectModel<P>, subject: u64, now: Instant)
    requires
        m.wf(),
    ensures
        carries(m, m.withdrawn(subject, now), now, None),
{
    let tick = m.spec_tick(now);
    subject_model::lemma_evicted(m, tick);
    lemma_evicted_carries(m, tick, now);
    let room = m.evicted(tick);
    if recency::holds(room.slots, subject) {
        let i = recency::position(room.slots, subject);
        assert(recency::slot_at(room.slots, subject, i));
        lemma_detached_carries(room, i, now);
        lemma_same_carries(room.detached(i), room.detached(i).marked(), now);
        lemma_carries_trans(m, room, room.detached(i), now, None);
        lemma_carries_trans(m, room.detached(i), room.detached(i).marked(), now, None);
    }
}

/// A refresh starts only where nothing is in flight.
pub proof fn lemma_claimed_carries<P>(m: SubjectModel<P>, id: u64, at: Instant, now: Instant)
    requires
        m.table.contains_key(id),
        m.table[id].refresh_due(at),
    ensures
        carries(m, m.claimed(id), now, None),
{
}

/// Giving up a refresh ends no other lookup.
pub proof fn lemma_released_carries<P>(m: SubjectModel<P>, id: u64, generation: u64, now: Instant)
    ensures
        carries(m, m.released(id, generation), now, Some((id, generation))),
{
}

/// The end of a lookup ends no other lookup.
pub proof fn lemma_fetched_carries<P>(
    m: SubjectModel<P>,
    subject: u64,
    id: u64,
    generation: u64,
    result: Result<DecisionResult<P>, DecisionSourceError>,
    settings: Settings,
    now: Instant,
)
    requires
        m.wf(),
    ensures
        carries(
            m,
            m.fetched(subject, id, generation, result, settings, now),
            now,
            Some((id, generation)),
        ),
{
    if m.awaits(id, generation) {
        match m.fetch_failure(id, result, settings.decision_freshness_ttl, now) {
            None => {},
            Some(kind) => {
                if m.table[id].pending->0.refresh_from is None && !decision::ends_admission(kind) {
                    let left = m.removed_if(subject, id, now, Removal::Failed(generation));
                    lemma_removed_if_carries(m, subject, id, now, Removal::Failed(generation));
                    lemma_same_carries(left, left.marked(), now);
                    lemma_carries_trans(m, left, left.marked(), now, None);
                }
            },
        }
    }
}

} // verus!
