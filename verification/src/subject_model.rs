//! Mathematical model of the subject map, and what each of its operations keeps.

use vstd::prelude::*;

use crate::config::Settings;
use crate::decision;
use crate::decision::{Decision, DecisionResult, DecisionSourceError, DecisionSourceErrorKind};
use crate::entry;
use crate::entry::{Entry, EntrySnapshot, EntryState, PendingFetch};
use crate::recency;
use crate::recency::Slot;
use crate::time;
use crate::time::{Duration, Instant};

verus! {

/// Content of a subject map.
#[verifier::ext_equal]
#[verifier::reject_recursive_types(P)]
pub struct SubjectModel<P> {
    /// Slots of the cached subjects, the most recently used first.
    pub slots: Seq<Slot>,
    /// Largest number of slots.
    pub capacity: nat,
    /// Entries by their number, with or without a slot.
    pub table: Map<u64, Entry<P>>,
    /// Whether subjects came or went since the map was last copied.
    pub dirty: bool,
    /// Lookups that no longer count, in the order in which they were dropped.
    pub aborted: Seq<u64>,
    /// Idle time after which a subject is evicted.
    pub ttl: Duration,
    /// Origin of the ticks of last use.
    pub epoch: Instant,
    /// Smallest number that neither an entry nor a lookup has had.
    pub next_id: u64,
}

/// Whether slot `i` names the entry `id`.
pub open spec fn names_entry(slots: Seq<Slot>, id: u64, i: int) -> bool {
    0 <= i < slots.len() && slots[i].1.0 == id
}

/// Whether some slot names the entry `id`.
pub open spec fn attached(slots: Seq<Slot>, id: u64) -> bool {
    exists|i: int| names_entry(slots, id, i)
}

/// Whether no entry has two slots.
pub open spec fn distinct_entries(slots: Seq<Slot>) -> bool {
    forall|i: int, j: int|
        #![trigger slots[i], slots[j]]
        0 <= i < j < slots.len() ==> slots[i].1.0 != slots[j].1.0
}

/// Appends the lookup that an entry drops.
pub open spec fn with_abort(aborted: Seq<u64>, dropped: Option<PendingFetch>) -> Seq<u64> {
    match dropped {
        Some(pending) => aborted.push(pending.generation),
        None => aborted,
    }
}

impl<P> SubjectModel<P> {
    /// Nanoseconds from the epoch to `now`.
    pub open spec fn spec_tick(self, now: Instant) -> int {
        time::least(time::monus(now.nanos as int, self.epoch.nanos as int), u64::MAX as int)
    }

    /// Whether a slot has been left alone for more than the idle time at `tick`.
    pub open spec fn idle(self, slot: Slot, tick: int) -> bool {
        time::monus(tick, slot.1.1 as int) > time::least(self.ttl.nanos as int, u64::MAX as int)
    }

    /// The map with the entry `id` replaced.
    pub open spec fn put(self, id: u64, entry: Entry<P>) -> SubjectModel<P> {
        SubjectModel { table: self.table.insert(id, entry), ..self }
    }

    /// The map with the entry `id` invalidated.
    pub open spec fn dropped(self, id: u64) -> SubjectModel<P> {
        SubjectModel {
            table: self.table.insert(id, self.table[id].invalidated()),
            aborted: with_abort(self.aborted, self.table[id].pending),
            ..self
        }
    }

    /// The map without slot `i`, whose entry is invalidated.
    pub open spec fn detached(self, i: int) -> SubjectModel<P> {
        SubjectModel { slots: self.slots.remove(i), ..self.dropped(self.slots[i].1.0) }
    }

    /// The map after the idle slots at its far end have gone.
    pub open spec fn evicted(self, tick: int) -> SubjectModel<P>
        decreases self.slots.len(),
    {
        if self.slots.len() > 0 && self.idle(self.slots.last(), tick) {
            (SubjectModel { dirty: true, ..self.detached(self.slots.len() - 1) }).evicted(tick)
        } else {
            self
        }
    }

    /// The map with slot `i` in front, used at `tick`.
    pub open spec fn promoted(self, i: int, tick: int) -> SubjectModel<P> {
        let slot = self.slots[i];
        let last_used = if slot.1.1 >= tick {
            slot.1.1
        } else {
            tick as u64
        };
        SubjectModel {
            slots: seq![(slot.0, (slot.1.0, last_used))] + self.slots.remove(i),
            ..self
        }
    }

    /// The map with a new slot in front. A full map drops its last slot for it.
    pub open spec fn inserted(self, subject: u64, tick: int, entry: Entry<P>) -> SubjectModel<P> {
        let room = if self.slots.len() == self.capacity {
            SubjectModel { dirty: true, ..self.detached(self.slots.len() - 1) }
        } else {
            self
        };
        SubjectModel {
            slots: seq![(subject, (self.next_id, tick as u64))] + room.slots,
            table: room.table.insert(self.next_id, entry),
            next_id: (self.next_id + 2) as u64,
            ..room
        }
    }

    /// The map after `subject` was used at `now`; one that it does not know gets a pending entry.
    pub open spec fn joined(
        self,
        subject: u64,
        now: Instant,
        refresh_before: Duration,
    ) -> SubjectModel<P> {
        let tick = self.spec_tick(now);
        if recency::holds(self.slots, subject) {
            self.promoted(recency::position(self.slots, subject), tick).evicted(tick)
        } else {
            let room = self.evicted(tick);
            let entry = entry::spec_pending::<P>(subject, now, (room.next_id + 1) as u64, refresh_before);
            room.inserted(subject, tick, entry).evicted(tick)
        }
    }

    /// Number of the entry that answers for `subject` in [`SubjectModel::joined`].
    pub open spec fn joined_entry(self, subject: u64) -> u64 {
        if recency::holds(self.slots, subject) {
            self.slots[recency::position(self.slots, subject)].1.0
        } else {
            self.next_id
        }
    }

    /// Whether the slot of `subject` names the entry `id`.
    pub open spec fn matches_entry(self, subject: u64, id: u64) -> bool {
        recency::holds(self.slots, subject) && self.slots[recency::position(self.slots, subject)].1.0 == id
    }

    /// The map after a use of `subject` through the entry `id`.
    pub open spec fn touched(self, subject: u64, id: u64, now: Instant) -> SubjectModel<P> {
        let tick = self.spec_tick(now);
        if self.matches_entry(subject, id) {
            self.promoted(recency::position(self.slots, subject), tick).evicted(tick)
        } else {
            self.evicted(tick)
        }
    }

    /// The map without `subject`.
    pub open spec fn removed(self, subject: u64) -> SubjectModel<P> {
        if recency::holds(self.slots, subject) {
            self.detached(recency::position(self.slots, subject))
        } else {
            self
        }
    }

    /// The map with the entries of the slots from `i` on invalidated, in this order.
    pub open spec fn dropped_from(self, i: int) -> SubjectModel<P>
        decreases self.slots.len() - i,
    {
        if 0 <= i < self.slots.len() {
            self.dropped(self.slots[i].1.0).dropped_from(i + 1)
        } else {
            self
        }
    }

    /// The map without any slot, every entry that had one invalidated.
    pub open spec fn cleared(self) -> SubjectModel<P> {
        SubjectModel { slots: Seq::empty(), ..self.dropped_from(0) }
    }

    /// The map after somebody looked at the entry `id` at `now`.
    pub open spec fn looked(self, id: u64, now: Instant) -> SubjectModel<P> {
        if self.table.contains_key(id) {
            self.put(id, self.table[id].latched(now))
        } else {
            self
        }
    }

    /// State of the entry `id` at `now`. An entry that is gone counts as stale.
    pub open spec fn live_state(self, id: u64, now: Instant) -> EntryState {
        if self.table.contains_key(id) {
            self.table[id].live_state(now)
        } else {
            EntryState::Stale
        }
    }

    /// What holds of every map.
    pub open spec fn wf(self) -> bool {
        &&& 0 < self.capacity
        &&& self.slots.len() <= self.capacity
        &&& recency::distinct_subjects(self.slots)
        &&& distinct_entries(self.slots)
        &&& forall|i: int|
            0 <= i < self.slots.len() ==> {
                &&& self.table.contains_key(#[trigger] self.slots[i].1.0)
                &&& self.table[self.slots[i].1.0].subject == self.slots[i].0
            }
        &&& forall|id: u64| #[trigger]
            self.table.contains_key(id) ==> {
                &&& self.table[id].wf()
                &&& id < self.next_id
                &&& self.table[id].pending matches Some(pending) ==> pending.generation
                    < self.next_id
                &&& !attached(self.slots, id) ==> self.table[id].state() == EntryState::Stale
                    && self.table[id].pending is None
            }
    }
}

/// Removing a slot leaves the others in their order.
pub proof fn lemma_remove_slot<P>(m: SubjectModel<P>, i: int)
    requires
        m.wf(),
        0 <= i < m.slots.len(),
    ensures
        recency::distinct_subjects(m.slots.remove(i)),
        distinct_entries(m.slots.remove(i)),
        !recency::holds(m.slots.remove(i), m.slots[i].0),
        !attached(m.slots.remove(i), m.slots[i].1.0),
        forall|id: u64|
            #![trigger attached(m.slots, id)]
            #![trigger attached(m.slots.remove(i), id)]
            id != m.slots[i].1.0 ==> attached(m.slots, id) == attached(m.slots.remove(i), id),
        forall|subject: u64|
            #![trigger recency::holds(m.slots, subject)]
            #![trigger recency::holds(m.slots.remove(i), subject)]
            subject != m.slots[i].0 ==> recency::holds(m.slots, subject) == recency::holds(
                m.slots.remove(i),
                subject,
            ),
{
    let rest = m.slots.remove(i);
    assert forall|j: int| 0 <= j < rest.len() implies #[trigger] rest[j] == m.slots[if j < i {
        j
    } else {
        j + 1
    }] by {}
    assert forall|id: u64|
        #![trigger attached(m.slots, id)]
        #![trigger attached(rest, id)]
        id != m.slots[i].1.0 implies attached(m.slots, id) == attached(rest, id) by {
        if attached(m.slots, id) {
            let j = choose|j: int| names_entry(m.slots, id, j);
            assert(names_entry(
                rest,
                id,
                if j < i {
                    j
                } else {
                    j - 1
                },
            ));
        }
        if attached(rest, id) {
            let j = choose|j: int| names_entry(rest, id, j);
            assert(names_entry(
                m.slots,
                id,
                if j < i {
                    j
                } else {
                    j + 1
                },
            ));
        }
    }
    assert forall|subject: u64|
        #![trigger recency::holds(m.slots, subject)]
        #![trigger recency::holds(rest, subject)]
        subject != m.slots[i].0 implies recency::holds(m.slots, subject) == recency::holds(rest, subject) by {
        if recency::holds(m.slots, subject) {
            let j = choose|j: int| recency::slot_at(m.slots, subject, j);
            assert(recency::slot_at(
                rest,
                subject,
                if j < i {
                    j
                } else {
                    j - 1
                },
            ));
        }
        if recency::holds(rest, subject) {
            let j = choose|j: int| recency::slot_at(rest, subject, j);
            assert(recency::slot_at(
                m.slots,
                subject,
                if j < i {
                    j
                } else {
                    j + 1
                },
            ));
        }
    }
}

/// An invalidated entry is stale and awaits nothing.
pub proof fn lemma_invalidated<P>(entry: Entry<P>)
    ensures
        entry.invalidated().wf(),
        entry.invalidated().state() == EntryState::Stale,
        entry.invalidated().pending is None,
{
    entry::lemma_word_parts(entry.current.word);
}

/// Detaching a slot keeps the map in order.
pub proof fn lemma_detached<P>(m: SubjectModel<P>, i: int)
    requires
        m.wf(),
        0 <= i < m.slots.len(),
    ensures
        m.detached(i).wf(),
        m.detached(i).table.dom() == m.table.dom(),
        !recency::holds(m.detached(i).slots, m.slots[i].0),
        !attached(m.detached(i).slots, m.slots[i].1.0),
{
    lemma_remove_slot(m, i);
    let d = m.detached(i);
    let id = m.slots[i].1.0;
    assert(m.table.contains_key(id));
    lemma_invalidated(m.table[id]);
    assert(d.table.dom() =~= m.table.dom());
    assert forall|j: int| 0 <= j < d.slots.len() implies {
        &&& d.table.contains_key(#[trigger] d.slots[j].1.0)
        &&& d.table[d.slots[j].1.0].subject == d.slots[j].0
    } by {
        let k = if j < i {
            j
        } else {
            j + 1
        };
        assert(d.slots[j] == m.slots[k]);
        assert(m.table.contains_key(m.slots[k].1.0));
    }
}

/// Eviction keeps the map in order, forgets no entry and gives out no number.
pub proof fn lemma_evicted<P>(m: SubjectModel<P>, tick: int)
    requires
        m.wf(),
    ensures
        m.evicted(tick).wf(),
        m.evicted(tick).table.dom() == m.table.dom(),
        m.evicted(tick).next_id == m.next_id,
        m.evicted(tick).capacity == m.capacity,
        m.evicted(tick).ttl == m.ttl,
        m.evicted(tick).epoch == m.epoch,
        forall|subject: u64|
            !recency::holds(m.slots, subject) ==> !#[trigger] recency::holds(m.evicted(tick).slots, subject),
    decreases m.slots.len(),
{
    if m.slots.len() > 0 && m.idle(m.slots.last(), tick) {
        let last = m.slots.len() - 1;
        lemma_detached(m, last);
        lemma_remove_slot(m, last);
        let next = SubjectModel { dirty: true, ..m.detached(last) };
        assert(next.wf());
        lemma_evicted(next, tick);
        assert forall|subject: u64| !recency::holds(m.slots, subject) implies !#[trigger] recency::holds(
            m.evicted(tick).slots,
            subject,
        ) by {
            if subject == m.slots[last].0 {
                assert(recency::slot_at(m.slots, subject, last));
            }
            assert(!recency::holds(m.slots.remove(last), subject));
            assert(!recency::holds(next.slots, subject));
        }
    }
}

/// Promotion keeps the map in order and every slot in the map.
pub proof fn lemma_promoted<P>(m: SubjectModel<P>, i: int, tick: int)
    requires
        m.wf(),
        0 <= i < m.slots.len(),
        0 <= tick <= u64::MAX,
    ensures
        m.promoted(i, tick).wf(),
        forall|id: u64| #[trigger] attached(m.promoted(i, tick).slots, id) == attached(m.slots, id),
        forall|subject: u64| #[trigger]
            recency::holds(m.promoted(i, tick).slots, subject) == recency::holds(m.slots, subject),
{
    lemma_remove_slot(m, i);
    let p = m.promoted(i, tick);
    let rest = m.slots.remove(i);
    assert(forall|j: int| 1 <= j < p.slots.len() ==> #[trigger] p.slots[j] == rest[j - 1]);
    assert forall|j: int, k: int|
        #![trigger p.slots[j], p.slots[k]]
        0 <= j < k < p.slots.len() implies p.slots[j].0 != p.slots[k].0 && p.slots[j].1.0
        != p.slots[k].1.0 by {
        if j == 0 {
            if p.slots[k].0 == m.slots[i].0 {
                assert(recency::slot_at(rest, m.slots[i].0, k - 1));
            }
            if p.slots[k].1.0 == m.slots[i].1.0 {
                assert(names_entry(rest, m.slots[i].1.0, k - 1));
            }
        } else {
            assert(rest[j - 1].0 != rest[k - 1].0);
            assert(rest[j - 1].1.0 != rest[k - 1].1.0);
        }
    }
    assert forall|id: u64| #[trigger] attached(p.slots, id) == attached(m.slots, id) by {
        if id == m.slots[i].1.0 {
            assert(names_entry(p.slots, id, 0));
            assert(names_entry(m.slots, id, i));
        } else {
            if attached(rest, id) {
                let j = choose|j: int| names_entry(rest, id, j);
                assert(names_entry(p.slots, id, j + 1));
            }
            if attached(p.slots, id) {
                let j = choose|j: int| names_entry(p.slots, id, j);
                assert(names_entry(rest, id, j - 1));
            }
        }
    }
    assert forall|subject: u64| #[trigger] recency::holds(p.slots, subject) == recency::holds(m.slots, subject) by {
        if subject == m.slots[i].0 {
            assert(recency::slot_at(p.slots, subject, 0));
            assert(recency::slot_at(m.slots, subject, i));
        } else {
            if recency::holds(rest, subject) {
                let j = choose|j: int| recency::slot_at(rest, subject, j);
                assert(recency::slot_at(p.slots, subject, j + 1));
            }
            if recency::holds(p.slots, subject) {
                let j = choose|j: int| recency::slot_at(p.slots, subject, j);
                assert(recency::slot_at(rest, subject, j - 1));
            }
        }
    }
    assert forall|j: int| 0 <= j < p.slots.len() implies {
        &&& p.table.contains_key(#[trigger] p.slots[j].1.0)
        &&& p.table[p.slots[j].1.0].subject == p.slots[j].0
    } by {
        if j == 0 {
            assert(m.table.contains_key(m.slots[i].1.0));
        } else {
            let k = if j - 1 < i {
                j - 1
            } else {
                j
            };
            assert(rest[j - 1] == m.slots[k]);
            assert(m.table.contains_key(m.slots[k].1.0));
        }
    }
}

/// Insertion keeps the map in order.
pub proof fn lemma_inserted<P>(m: SubjectModel<P>, subject: u64, tick: int, entry: Entry<P>)
    requires
        m.wf(),
        !recency::holds(m.slots, subject),
        0 <= tick <= u64::MAX,
        m.next_id + 2 <= u64::MAX,
        entry.wf(),
        entry.subject == subject,
        entry.pending matches Some(pending) ==> pending.generation < m.next_id + 2,
    ensures
        m.inserted(subject, tick, entry).wf(),
{
    let room = if m.slots.len() == m.capacity {
        SubjectModel { dirty: true, ..m.detached(m.slots.len() - 1) }
    } else {
        m
    };
    if m.slots.len() == m.capacity {
        lemma_detached(m, m.slots.len() - 1);
        lemma_remove_slot(m, m.slots.len() - 1);
        if subject != m.slots.last().0 {
            assert(!recency::holds(m.slots.remove(m.slots.len() - 1), subject));
        }
    }
    assert(room.wf());
    assert(!recency::holds(room.slots, subject));
    let n = m.inserted(subject, tick, entry);
    let id = m.next_id;
    assert(!room.table.contains_key(id));
    assert(forall|j: int| 1 <= j < n.slots.len() ==> #[trigger] n.slots[j] == room.slots[j - 1]);
    assert forall|j: int, k: int|
        #![trigger n.slots[j], n.slots[k]]
        0 <= j < k < n.slots.len() implies n.slots[j].0 != n.slots[k].0 && n.slots[j].1.0
        != n.slots[k].1.0 by {
        if j == 0 {
            if n.slots[k].0 == subject {
                assert(recency::slot_at(room.slots, subject, k - 1));
            }
            assert(room.table.contains_key(room.slots[k - 1].1.0));
        } else {
            assert(room.slots[j - 1].0 != room.slots[k - 1].0);
            assert(room.slots[j - 1].1.0 != room.slots[k - 1].1.0);
        }
    }
    assert forall|j: int| 0 <= j < n.slots.len() implies {
        &&& n.table.contains_key(#[trigger] n.slots[j].1.0)
        &&& n.table[n.slots[j].1.0].subject == n.slots[j].0
    } by {
        if j > 0 {
            assert(room.table.contains_key(room.slots[j - 1].1.0));
        }
    }
    assert(names_entry(n.slots, id, 0));
    assert forall|other: u64| #[trigger] n.table.contains_key(other) implies {
        &&& n.table[other].wf()
        &&& other < n.next_id
        &&& n.table[other].pending matches Some(pending) ==> pending.generation < n.next_id
        &&& !attached(n.slots, other) ==> n.table[other].state() == EntryState::Stale
            && n.table[other].pending is None
    } by {
        if other != id {
            assert(room.table.contains_key(other));
            if attached(room.slots, other) {
                let j = choose|j: int| names_entry(room.slots, other, j);
                assert(names_entry(n.slots, other, j + 1));
            }
        }
    }
}

/// Joining a subject keeps the map in order and yields an entry of the map.
pub proof fn lemma_joined<P>(m: SubjectModel<P>, subject: u64, now: Instant, refresh_before: Duration)
    requires
        m.wf(),
        m.next_id + 2 <= u64::MAX,
    ensures
        m.joined(subject, now, refresh_before).wf(),
        m.joined(subject, now, refresh_before).table.contains_key(m.joined_entry(subject)),
        m.joined(subject, now, refresh_before).next_id <= m.next_id + 2,
{
    let tick = m.spec_tick(now);
    if recency::holds(m.slots, subject) {
        let i = recency::position(m.slots, subject);
        assert(recency::slot_at(m.slots, subject, i));
        lemma_promoted(m, i, tick);
        lemma_evicted(m.promoted(i, tick), tick);
        assert(m.table.contains_key(m.slots[i].1.0));
    } else {
        lemma_evicted(m, tick);
        let room = m.evicted(tick);
        let entry = entry::spec_pending::<P>(subject, now, (room.next_id + 1) as u64, refresh_before);
        entry::lemma_word(EntryState::Pending, entry::NO_EXPIRY as int);
        lemma_inserted(room, subject, tick, entry);
        lemma_evicted(room.inserted(subject, tick, entry), tick);
    }
}

/// Invalidating entries that have a slot keeps the map in order.
pub proof fn lemma_dropped<P>(m: SubjectModel<P>, id: u64)
    requires
        m.wf(),
        m.table.contains_key(id),
    ensures
        m.dropped(id).wf(),
        m.dropped(id).table.dom() == m.table.dom(),
{
    lemma_invalidated(m.table[id]);
    assert(m.dropped(id).table.dom() =~= m.table.dom());
}

/// After the entries from slot `i` on have been invalidated, each of them is stale.
pub proof fn lemma_dropped_from<P>(m: SubjectModel<P>, i: int)
    requires
        m.wf(),
        0 <= i <= m.slots.len(),
    ensures
        m.dropped_from(i).wf(),
        m.dropped_from(i).slots == m.slots,
        m.dropped_from(i).table.dom() == m.table.dom(),
        m.dropped_from(i).next_id == m.next_id,
        m.dropped_from(i).capacity == m.capacity,
        m.dropped_from(i).ttl == m.ttl,
        m.dropped_from(i).epoch == m.epoch,
        forall|j: int|
            i <= j < m.slots.len() ==> {
                let entry = m.dropped_from(i).table[#[trigger] m.slots[j].1.0];
                entry.state() == EntryState::Stale && entry.pending is None
            },
        forall|id: u64|
            m.table.contains_key(id) && m.table[id].state() == EntryState::Stale
                && m.table[id].pending is None ==> {
                let entry = #[trigger] m.dropped_from(i).table[id];
                entry.state() == EntryState::Stale && entry.pending is None
            },
    decreases m.slots.len() - i,
{
    if i < m.slots.len() {
        let id = m.slots[i].1.0;
        lemma_dropped(m, id);
        lemma_invalidated(m.table[id]);
        lemma_dropped_from(m.dropped(id), i + 1);
        assert forall|j: int| i <= j < m.slots.len() implies {
            let entry = m.dropped_from(i).table[#[trigger] m.slots[j].1.0];
            entry.state() == EntryState::Stale && entry.pending is None
        } by {
            if j == i {
                let next = m.dropped(id);
                assert(next.table.contains_key(id));
                assert(next.dropped_from(i + 1).table[id].state() == EntryState::Stale);
            } else {
                assert(m.dropped(id).slots[j].1.0 == m.slots[j].1.0);
            }
        }
    }
}

/// A cleared map is in order, knows the same entries, and holds them all stale.
pub proof fn lemma_cleared<P>(m: SubjectModel<P>)
    requires
        m.wf(),
    ensures
        m.cleared().wf(),
        m.cleared().table.dom() == m.table.dom(),
        forall|id: u64| #[trigger]
            m.cleared().table.contains_key(id) ==> m.cleared().table[id].state()
                == EntryState::Stale && m.cleared().table[id].pending is None,
{
    lemma_dropped_from(m, 0);
    let c = m.cleared();
    assert forall|id: u64| #[trigger] c.table.contains_key(id) implies c.table[id].state()
        == EntryState::Stale && c.table[id].pending is None by {
        assert(m.table.contains_key(id));
        if attached(m.slots, id) {
            let j = choose|j: int| names_entry(m.slots, id, j);
            assert(m.slots[j].1.0 == id);
        } else {
            assert(m.dropped_from(0).table[id].state() == EntryState::Stale);
        }
    }
    assert forall|id: u64| #[trigger] c.table.contains_key(id) implies c.table[id].wf() && id
        < c.next_id by {
        assert(m.dropped_from(0).table.contains_key(id));
    }
}

/// Replacing an entry by a valid one keeps the map in order.
pub proof fn lemma_put<P>(m: SubjectModel<P>, id: u64, entry: Entry<P>)
    requires
        m.wf(),
        m.table.contains_key(id),
        entry.wf(),
        entry.subject == m.table[id].subject,
        entry.pending matches Some(pending) ==> pending.generation < m.next_id,
        !attached(m.slots, id) ==> entry.state() == EntryState::Stale && entry.pending is None,
    ensures
        m.put(id, entry).wf(),
        m.put(id, entry).table.dom() == m.table.dom(),
{
    assert(m.put(id, entry).table.dom() =~= m.table.dom());
}

/// Looking at an entry keeps it valid.
pub proof fn lemma_latched<P>(entry: Entry<P>, now: Instant)
    requires
        entry.wf(),
    ensures
        entry.latched(now).wf(),
        entry.latched(now).pending == entry.pending,
        entry.state() == EntryState::Stale ==> entry.latched(now) == entry,
        entry.latched(now).state() == EntryState::Pending <==> entry.state() == EntryState::Pending,
        entry.latched(now).live_state(now) == entry.live_state(now),
        entry.latched(now).latched(now) == entry.latched(now),
        !entry.expired(now) ==> entry.latched(now) == entry,
{
    entry::lemma_word_parts(entry.current.word);
}

/// Looking at an entry keeps the map in order.
pub proof fn lemma_looked<P>(m: SubjectModel<P>, id: u64, now: Instant)
    requires
        m.wf(),
    ensures
        m.looked(id, now).wf(),
        m.looked(id, now).table.dom() == m.table.dom(),
{
    if m.table.contains_key(id) {
        lemma_latched(m.table[id], now);
        lemma_put(m, id, m.table[id].latched(now));
    }
}

/// When a conditional removal drops the slot of an entry.
#[derive(Clone, Copy, Debug)]
pub enum Removal {
    /// In any state.
    Always,
    /// Where it holds no live decision.
    Stale,
    /// Where it still awaits this lookup.
    Failed(u64),
}

impl<P> SubjectModel<P> {
    /// Whether `removal` applies to the entry `id` at `now`.
    pub open spec fn removable(self, id: u64, now: Instant, removal: Removal) -> bool {
        match removal {
            Removal::Always => true,
            Removal::Stale => self.live_state(id, now) == EntryState::Stale,
            Removal::Failed(generation) => self.table[id].awaits(generation)
                && self.table[id].state() == EntryState::Pending,
        }
    }

    /// The map after a conditional removal of `subject`: it must still have the entry `id`.
    pub open spec fn removed_if(
        self,
        subject: u64,
        id: u64,
        now: Instant,
        removal: Removal,
    ) -> SubjectModel<P> {
        let room = self.evicted(self.spec_tick(now));
        if !room.matches_entry(subject, id) {
            room
        } else {
            let seen = if removal is Stale {
                room.looked(id, now)
            } else {
                room
            };
            if room.removable(id, now, removal) {
                seen.removed(subject)
            } else {
                seen
            }
        }
    }

    /// Whether the conditional removal takes place.
    pub open spec fn removes(self, subject: u64, id: u64, now: Instant, removal: Removal) -> bool {
        let room = self.evicted(self.spec_tick(now));
        room.matches_entry(subject, id) && room.removable(id, now, removal)
    }
}

/// A conditional removal keeps the map in order.
pub proof fn lemma_removed_if<P>(
    m: SubjectModel<P>,
    subject: u64,
    id: u64,
    now: Instant,
    removal: Removal,
)
    requires
        m.wf(),
    ensures
        m.removed_if(subject, id, now, removal).wf(),
        m.removed_if(subject, id, now, removal).table.dom() == m.table.dom(),
        m.removed_if(subject, id, now, removal).next_id == m.next_id,
{
    let tick = m.spec_tick(now);
    lemma_evicted(m, tick);
    let room = m.evicted(tick);
    lemma_looked(room, id, now);
    let seen = if removal is Stale {
        room.looked(id, now)
    } else {
        room
    };
    if recency::holds(seen.slots, subject) {
        let i = recency::position(seen.slots, subject);
        assert(recency::slot_at(seen.slots, subject, i));
        lemma_detached(seen, i);
    }
}

impl<P> SubjectModel<P> {
    /// Authoritative and unexpired decision of the entry `id` at `now`.
    pub open spec fn verdict(self, id: u64, now: Instant) -> Option<Decision> {
        if self.table.contains_key(id) {
            self.table[id].verdict(now)
        } else {
            None
        }
    }

    /// Whether the entry `id` awaits the lookup `generation`.
    pub open spec fn awaits(self, id: u64, generation: u64) -> bool {
        self.table.contains_key(id) && self.table[id].awaits(generation)
    }

    /// The map with its change of shape noted.
    pub open spec fn marked(self) -> SubjectModel<P> {
        SubjectModel { dirty: true, ..self }
    }

    /// The map with its change of shape taken up.
    pub open spec fn unmarked(self) -> SubjectModel<P> {
        SubjectModel { dirty: false, ..self }
    }

    /// The map with an authoritative decision in the entry `id`, whose lookup no longer counts.
    pub open spec fn decided(self, id: u64, snapshot: EntrySnapshot<P>) -> SubjectModel<P> {
        SubjectModel {
            table: self.table.insert(id, self.table[id].decided(snapshot)),
            aborted: with_abort(self.aborted, self.table[id].pending),
            ..self
        }
    }

    /// The map after a change of `subject` to `decision` at `now`.
    pub open spec fn changed(
        self,
        subject: u64,
        decision: Decision,
        ttl: Duration,
        now: Instant,
    ) -> SubjectModel<P> {
        let room = self.evicted(self.spec_tick(now));
        if recency::holds(room.slots, subject) {
            let id = room.slots[recency::position(room.slots, subject)].1.0;
            let result = DecisionResult { decision, payload: None, valid_until: None };
            room.decided(id, room.table[id].spec_decision_snapshot(result, ttl, now))
        } else {
            room
        }
    }

    /// The map after the authority withdrew the decision of `subject` at `now`.
    pub open spec fn withdrawn(self, subject: u64, now: Instant) -> SubjectModel<P> {
        let room = self.evicted(self.spec_tick(now));
        if recency::holds(room.slots, subject) {
            room.removed(subject).marked()
        } else {
            room
        }
    }

    /// The map with a refresh in flight for the entry `id`.
    pub open spec fn claimed(self, id: u64) -> SubjectModel<P> {
        let entry = Entry {
            pending: Some(
                PendingFetch {
                    generation: self.next_id,
                    delay: None,
                    refresh_from: Some(self.table[id].current.word),
                },
            ),
            ..self.table[id]
        };
        SubjectModel { next_id: (self.next_id + 1) as u64, ..self.put(id, entry) }
    }

    /// Whether `generation` is a refresh that the entry `id` still awaits.
    pub open spec fn refreshes(self, id: u64, generation: u64) -> bool {
        self.awaits(id, generation) && self.table[id].pending->0.refresh_from is Some
    }

    /// The map after the refresh `generation` was given up before it started.
    pub open spec fn released(self, id: u64, generation: u64) -> SubjectModel<P> {
        if self.refreshes(id, generation) {
            self.put(id, Entry { pending: None, ..self.table[id] })
        } else {
            self
        }
    }

    /// Kind of the failure with which a lookup for the entry `id` ends at `now`. A decision whose
    /// deadline has come when it is published counts as a transient failure.
    pub open spec fn fetch_failure(
        self,
        id: u64,
        result: Result<DecisionResult<P>, DecisionSourceError>,
        ttl: Duration,
        now: Instant,
    ) -> Option<DecisionSourceErrorKind> {
        match result {
            Ok(result) => {
                let entry = self.table[id];
                let snapshot = entry.spec_decision_snapshot(result, ttl, now);
                if entry.word_expired(snapshot.word, now) {
                    Some(DecisionSourceErrorKind::Transient)
                } else {
                    None
                }
            },
            Err(error) => Some(error.spec_kind()),
        }
    }

    /// The map after the lookup `generation` of `subject` ended with `result` at `now`.
    ///
    /// A lookup that the entry no longer awaits changes nothing. A refresh renews the decision in
    /// place or starts its cooldown. The lookup of a pending entry resolves it, or is followed by a
    /// delayed one after a permanent failure, or takes the entry out after a transient one.
    pub open spec fn fetched(
        self,
        subject: u64,
        id: u64,
        generation: u64,
        result: Result<DecisionResult<P>, DecisionSourceError>,
        settings: Settings,
        now: Instant,
    ) -> SubjectModel<P> {
        if !self.awaits(id, generation) {
            self
        } else {
            let entry = self.table[id];
            let ttl = settings.decision_freshness_ttl;
            let cooldown = settings.permanent_failure_cooldown;
            match self.fetch_failure(id, result, ttl, now) {
                None => {
                    let snapshot = entry.spec_decision_snapshot(result->Ok_0, ttl, now);
                    match entry.pending->0.refresh_from {
                        Some(from) => self.put(id, entry.refreshed(from, snapshot, now)),
                        None => self.put(id, Entry { current: snapshot, pending: None, ..entry }),
                    }
                },
                Some(kind) => if entry.pending->0.refresh_from is Some {
                    self.put(id, entry.refresh_failed(now, cooldown))
                } else if decision::ends_admission(kind) {
                    let retry = PendingFetch {
                        generation: self.next_id,
                        delay: Some(cooldown),
                        refresh_from: None,
                    };
                    SubjectModel {
                        next_id: (self.next_id + 1) as u64,
                        ..self.put(id, Entry { pending: Some(retry), ..entry })
                    }
                } else {
                    let failed = Removal::Failed(generation);
                    let left = self.removed_if(subject, id, now, failed);
                    if self.removes(subject, id, now, failed) {
                        left.marked()
                    } else {
                        left
                    }
                },
            }
        }
    }
}

/// A decision with a snapshot of its own keeps an entry valid.
pub proof fn lemma_snapshot<P>(
    entry: Entry<P>,
    result: DecisionResult<P>,
    ttl: Duration,
    now: Instant,
)
    ensures
        entry::word_state(entry.spec_decision_snapshot(result, ttl, now).word)
            == entry::decision_state(result.decision),
        entry::word_deadline(entry.spec_decision_snapshot(result, ttl, now).word)
            == entry.result_deadline(result, ttl, now),
        entry.decided(entry.spec_decision_snapshot(result, ttl, now)).wf(),
{
    entry::lemma_word(
        entry::decision_state(result.decision),
        entry.result_deadline(result, ttl, now),
    );
}

/// A change of a subject keeps the map in order.
pub proof fn lemma_changed<P>(
    m: SubjectModel<P>,
    subject: u64,
    decision: Decision,
    ttl: Duration,
    now: Instant,
)
    requires
        m.wf(),
    ensures
        m.changed(subject, decision, ttl, now).wf(),
        m.changed(subject, decision, ttl, now).table.dom() == m.table.dom(),
        m.changed(subject, decision, ttl, now).next_id == m.next_id,
{
    let tick = m.spec_tick(now);
    lemma_evicted(m, tick);
    let room = m.evicted(tick);
    if recency::holds(room.slots, subject) {
        let i = recency::position(room.slots, subject);
        assert(recency::slot_at(room.slots, subject, i));
        let id = room.slots[i].1.0;
        assert(room.table.contains_key(id));
        assert(names_entry(room.slots, id, i));
        let result = DecisionResult { decision, payload: None, valid_until: None };
        lemma_snapshot(room.table[id], result, ttl, now);
        lemma_put(
            room,
            id,
            room.table[id].decided(room.table[id].spec_decision_snapshot(result, ttl, now)),
        );
    }
}

/// A withdrawal keeps the map in order.
pub proof fn lemma_withdrawn<P>(m: SubjectModel<P>, subject: u64, now: Instant)
    requires
        m.wf(),
    ensures
        m.withdrawn(subject, now).wf(),
        m.withdrawn(subject, now).table.dom() == m.table.dom(),
        m.withdrawn(subject, now).next_id == m.next_id,
        !recency::holds(m.withdrawn(subject, now).slots, subject),
{
    let tick = m.spec_tick(now);
    lemma_evicted(m, tick);
    let room = m.evicted(tick);
    if recency::holds(room.slots, subject) {
        let i = recency::position(room.slots, subject);
        assert(recency::slot_at(room.slots, subject, i));
        lemma_detached(room, i);
    }
}

/// Claiming a due refresh keeps the map in order.
pub proof fn lemma_claimed<P>(m: SubjectModel<P>, id: u64, now: Instant)
    requires
        m.wf(),
        m.table.contains_key(id),
        m.table[id].refresh_due(now),
        m.next_id < u64::MAX,
    ensures
        m.claimed(id).wf(),
        m.claimed(id).table.dom() == m.table.dom(),
{
    assert(m.claimed(id).table.dom() =~= m.table.dom());
}

/// Giving up a refresh keeps the map in order.
pub proof fn lemma_released<P>(m: SubjectModel<P>, id: u64, generation: u64)
    requires
        m.wf(),
    ensures
        m.released(id, generation).wf(),
        m.released(id, generation).table.dom() == m.table.dom(),
{
    if m.refreshes(id, generation) {
        entry::lemma_word_parts(m.table[id].pending->0.refresh_from->0);
        lemma_put(m, id, Entry { pending: None, ..m.table[id] });
    }
}

/// The end of a lookup keeps the map in order.
pub proof fn lemma_fetched<P>(
    m: SubjectModel<P>,
    subject: u64,
    id: u64,
    generation: u64,
    result: Result<DecisionResult<P>, DecisionSourceError>,
    settings: Settings,
    now: Instant,
)
    requires
        m.wf(),
        m.next_id < u64::MAX,
    ensures
        m.fetched(subject, id, generation, result, settings, now).wf(),
        m.fetched(subject, id, generation, result, settings, now).table.dom() == m.table.dom(),
        m.fetched(subject, id, generation, result, settings, now).next_id <= m.next_id + 1,
{
    if m.awaits(id, generation) {
        let entry = m.table[id];
        let ttl = settings.decision_freshness_ttl;
        let cooldown = settings.permanent_failure_cooldown;
        if entry.pending->0.refresh_from is Some {
            entry::lemma_word_parts(entry.pending->0.refresh_from->0);
        }
        match m.fetch_failure(id, result, ttl, now) {
            None => {
                lemma_snapshot(entry, result->Ok_0, ttl, now);
                let snapshot = entry.spec_decision_snapshot(result->Ok_0, ttl, now);
                match entry.pending->0.refresh_from {
                    Some(from) => {
                        lemma_put(m, id, entry.refreshed(from, snapshot, now));
                    },
                    None => {
                        lemma_put(m, id, entry.decided(snapshot));
                    },
                }
            },
            Some(kind) => {
                if entry.pending->0.refresh_from is Some {
                    lemma_put(m, id, entry.refresh_failed(now, cooldown));
                } else if decision::ends_admission(kind) {
                    let n = m.fetched(subject, id, generation, result, settings, now);
                    assert(n.table.dom() =~= m.table.dom());
                } else {
                    lemma_removed_if(m, subject, id, now, Removal::Failed(generation));
                }
            },
        }
    }
}

/// A use of a subject through an entry keeps the map in order.
pub proof fn lemma_touched<P>(m: SubjectModel<P>, subject: u64, id: u64, now: Instant)
    requires
        m.wf(),
    ensures
        m.touched(subject, id, now).wf(),
        m.touched(subject, id, now).table.dom() == m.table.dom(),
        m.touched(subject, id, now).next_id == m.next_id,
{
    let tick = m.spec_tick(now);
    if m.matches_entry(subject, id) {
        let i = recency::position(m.slots, subject);
        assert(recency::slot_at(m.slots, subject, i));
        lemma_promoted(m, i, tick);
        lemma_evicted(m.promoted(i, tick), tick);
    } else {
        lemma_evicted(m, tick);
    }
}

/// Eviction does not touch a front slot that was used at its tick.
pub proof fn lemma_front_survives<P>(m: SubjectModel<P>, tick: int)
    requires
        m.wf(),
        m.slots.len() > 0,
        m.slots[0].1.1 >= tick,
    ensures
        m.evicted(tick).slots.len() > 0,
        m.evicted(tick).slots[0] == m.slots[0],
        m.evicted(tick).table[m.slots[0].1.0] == m.table[m.slots[0].1.0],
    decreases m.slots.len(),
{
    if m.idle(m.slots.last(), tick) {
        let last = m.slots.len() - 1;
        let next = SubjectModel { dirty: true, ..m.detached(last) };
        lemma_detached(m, last);
        assert(next.wf());
        assert(last > 0);
        assert(m.slots[0].1.0 != m.slots[last].1.0);
        lemma_front_survives(next, tick);
    }
}

} // verus!
