//! Shared state of one cached subject: its decision, the deadline of that decision and the
//! lookup in flight for it.
//!
//! Deadlines are ticks, nanoseconds since the entry's epoch. State and deadline share one word:
//! the low two bits hold the state, the upper bits the deadline.

use std::sync::Arc;

use vstd::prelude::*;

use crate::decision::{Decision, DecisionResult};
use crate::time;
use crate::time::{Duration, Instant, MAX_SPAN_NANOS};

verus! {

/// Locally observable lifecycle state of a subject entry.
#[derive(Clone, Copy, Debug, PartialEq, Eq, Structural)]
pub enum EntryState {
    Pending,
    Allowed,
    Denied,
    Stale,
}

/// Deadline of a decision that never expires.
pub const NO_EXPIRY: u64 = 4_611_686_018_427_387_903;

/// Largest deadline at which a decision expires.
pub const MAX_FINITE_DEADLINE: u64 = 4_611_686_018_427_387_902;

/// Number that stands for a state in the low two bits of a word.
pub open spec fn state_code(state: EntryState) -> int {
    match state {
        EntryState::Pending => 0,
        EntryState::Allowed => 1,
        EntryState::Denied => 2,
        EntryState::Stale => 3,
    }
}

/// The word that holds `state` and `deadline`.
pub open spec fn spec_word(state: EntryState, deadline: int) -> u64 {
    (deadline * 4 + state_code(state)) as u64
}

/// State held by a word.
pub open spec fn word_state(word: u64) -> EntryState {
    if word % 4 == 0 {
        EntryState::Pending
    } else if word % 4 == 1 {
        EntryState::Allowed
    } else if word % 4 == 2 {
        EntryState::Denied
    } else {
        EntryState::Stale
    }
}

/// Deadline held by a word.
pub open spec fn word_deadline(word: u64) -> int {
    (word / 4) as int
}

/// The word with its deadline kept and its state replaced by `Stale`.
pub open spec fn stale_word(word: u64) -> u64 {
    spec_word(EntryState::Stale, word_deadline(word))
}

/// A word gives back the state and the deadline that it was made of.
pub proof fn lemma_word(state: EntryState, deadline: int)
    requires
        0 <= deadline <= NO_EXPIRY,
    ensures
        word_state(spec_word(state, deadline)) == state,
        word_deadline(spec_word(state, deadline)) == deadline,
        spec_word(state, deadline) == deadline * 4 + state_code(state),
{
}

/// State and deadline determine the word that holds them.
pub proof fn lemma_word_parts(word: u64)
    ensures
        0 <= word_deadline(word) <= NO_EXPIRY,
        word == word_deadline(word) * 4 + state_code(word_state(word)),
        word_state(stale_word(word)) == EntryState::Stale,
        word_deadline(stale_word(word)) == word_deadline(word),
{
    lemma_word(EntryState::Stale, word_deadline(word));
}

/// State that an authoritative decision puts an entry in.
pub open spec fn decision_state(decision: Decision) -> EntryState {
    match decision {
        Decision::Allowed => EntryState::Allowed,
        Decision::Denied => EntryState::Denied,
    }
}

pub(crate) fn entry_state(decision: Decision) -> (state: EntryState)
    ensures
        state == decision_state(decision),
{
    match decision {
        Decision::Allowed => EntryState::Allowed,
        Decision::Denied => EntryState::Denied,
    }
}

/// Packs a state and a deadline into one word.
pub fn word(state: EntryState, deadline: u64) -> (word: u64)
    requires
        deadline <= NO_EXPIRY,
    ensures
        word == spec_word(state, deadline as int),
        word_state(word) == state,
        word_deadline(word) == deadline,
{
    let code: u64 = match state {
        EntryState::Pending => 0,
        EntryState::Allowed => 1,
        EntryState::Denied => 2,
        EntryState::Stale => 3,
    };
    proof {
        lemma_word(state, deadline as int);
        assert((deadline << 2) | code == deadline * 4 + code) by (bit_vector)
            requires
                deadline <= 4_611_686_018_427_387_903u64,
                code < 4,
        ;
    }
    (deadline << 2) | code
}

/// Reads the state held by a word.
pub fn decode_entry_state(word: u64) -> (state: EntryState)
    ensures
        state == word_state(word),
{
    assert(word & 3 == word % 4) by (bit_vector);
    match word & 3 {
        0 => EntryState::Pending,
        1 => EntryState::Allowed,
        2 => EntryState::Denied,
        _ => EntryState::Stale,
    }
}

/// Reads the deadline held by a word.
pub fn decode_deadline(word: u64) -> (deadline: u64)
    ensures
        deadline == word_deadline(word),
        deadline <= NO_EXPIRY,
{
    assert(word >> 2 == word / 4) by (bit_vector);
    word >> 2
}

/// Lookup in flight for an entry.
#[derive(Clone, Copy, Debug)]
pub struct PendingFetch {
    /// Number that no other lookup of the same gate has.
    pub generation: u64,
    /// Wait before the source is called, after a permanent failure.
    pub delay: Option<Duration>,
    /// Word that the lookup refreshes. `None` where it resolves a pending entry.
    pub refresh_from: Option<u64>,
}

/// State, deadline, payload and earliest refresh tick of an entry, published together.
#[derive(Debug)]
pub struct EntrySnapshot<P> {
    pub word: u64,
    pub payload: Option<Arc<P>>,
    pub refresh_after: u64,
}

/// Subject state observed by admissions and active streams.
#[derive(Debug)]
pub struct Entry<P> {
    /// Subject that the entry answers for.
    pub subject: u64,
    pub current: EntrySnapshot<P>,
    pub epoch: Instant,
    pub pending: Option<PendingFetch>,
    pub refresh_before: u64,
    pub refresh_not_before: u64,
}

/// What a handle sees of its entry.
#[derive(Clone, Copy, Debug, PartialEq, Eq, Structural)]
pub enum Observed {
    Allowed,
    Denied,
    Expired,
    Stale,
}

impl<P> EntrySnapshot<P> {
    /// The snapshot of an entry that holds no decision any more; its deadline stays.
    pub open spec fn staled(self) -> EntrySnapshot<P> {
        EntrySnapshot { word: stale_word(self.word), payload: None, refresh_after: 0 }
    }
}

impl<P> Entry<P> {
    pub open spec fn state(self) -> EntryState {
        word_state(self.current.word)
    }

    pub open spec fn deadline(self) -> int {
        word_deadline(self.current.word)
    }

    /// Nanoseconds from the entry's epoch to `now`, within the finite deadlines.
    pub open spec fn spec_tick(self, now: Instant) -> int {
        time::least(time::monus(now.nanos as int, self.epoch.nanos as int), MAX_FINITE_DEADLINE as int)
    }

    /// Whether the deadline held by `word` has been reached at `now`.
    pub open spec fn word_expired(self, word: u64, now: Instant) -> bool {
        word_deadline(word) != NO_EXPIRY && self.spec_tick(now) >= word_deadline(word)
    }

    pub open spec fn expired(self, now: Instant) -> bool {
        self.word_expired(self.current.word, now)
    }

    /// The entry after somebody looked at it at `now`: one that is seen expired becomes stale.
    pub open spec fn latched(self, now: Instant) -> Entry<P> {
        if self.expired(now) && self.state() != EntryState::Stale {
            Entry { current: self.current.staled(), ..self }
        } else {
            self
        }
    }

    /// State of the entry at `now`.
    pub open spec fn live_state(self, now: Instant) -> EntryState {
        if self.expired(now) {
            EntryState::Stale
        } else {
            self.state()
        }
    }

    /// Authoritative and unexpired decision at `now`.
    pub open spec fn verdict(self, now: Instant) -> Option<Decision> {
        match self.live_state(now) {
            EntryState::Allowed => Some(Decision::Allowed),
            EntryState::Denied => Some(Decision::Denied),
            EntryState::Pending | EntryState::Stale => None,
        }
    }

    /// What a handle sees at `now`.
    pub open spec fn observed(self, now: Instant) -> Observed {
        if self.expired(now) {
            Observed::Expired
        } else {
            match self.state() {
                EntryState::Allowed => Observed::Allowed,
                EntryState::Denied => Observed::Denied,
                EntryState::Pending | EntryState::Stale => Observed::Stale,
            }
        }
    }

    /// The entry without decision and without lookup.
    pub open spec fn invalidated(self) -> Entry<P> {
        Entry { current: self.current.staled(), pending: None, ..self }
    }

    /// Whether a refresh may start at `now`, were none in flight: the decision is finite and
    /// alive, its refresh window is open, and neither its first half nor a cooldown holds it back.
    pub open spec fn refresh_eligible(self, now: Instant) -> bool {
        let tick = self.spec_tick(now);
        &&& self.deadline() != NO_EXPIRY
        &&& self.state() == EntryState::Allowed || self.state() == EntryState::Denied
        &&& tick < self.deadline()
        &&& tick >= self.current.refresh_after
        &&& self.deadline() - tick <= self.refresh_before
        &&& tick >= self.refresh_not_before
    }

    /// Whether a refresh should start at `now`.
    pub open spec fn refresh_due(self, now: Instant) -> bool {
        self.refresh_eligible(now) && self.pending is None
    }

    /// Deadline of a decision that arrives at `now` and stays fresh for `ttl`.
    ///
    /// The longest span never expires. A finite deadline that has no tick is over at once.
    pub open spec fn spec_deadline_after(self, now: Instant, ttl: Duration) -> int {
        let tick = self.spec_tick(now);
        if ttl.nanos == MAX_SPAN_NANOS {
            NO_EXPIRY as int
        } else if tick + ttl.nanos < NO_EXPIRY {
            tick + ttl.nanos
        } else {
            tick
        }
    }

    /// Deadline of `result`: that of its freshness, or its own cap where that comes first.
    pub open spec fn result_deadline(
        self,
        result: DecisionResult<P>,
        ttl: Duration,
        now: Instant,
    ) -> int {
        let configured = self.spec_deadline_after(now, ttl);
        match result.valid_until {
            Some(cap) => time::least(configured, self.spec_tick(cap)),
            None => configured,
        }
    }

    /// Tick before which `deadline` is not refreshed: half way where the refresh window is already
    /// open at `now`.
    pub open spec fn spec_refresh_after(self, deadline: int, now: Instant) -> int {
        let remaining = time::monus(deadline, self.spec_tick(now));
        if remaining <= self.refresh_before {
            self.spec_tick(now) + (remaining + 1) / 2
        } else {
            0
        }
    }

    /// What the entry holds once `result` has arrived at `now`.
    pub open spec fn spec_decision_snapshot(
        self,
        result: DecisionResult<P>,
        ttl: Duration,
        now: Instant,
    ) -> EntrySnapshot<P> {
        let deadline = self.result_deadline(result, ttl, now);
        EntrySnapshot {
            word: spec_word(decision_state(result.decision), deadline),
            payload: if result.decision == Decision::Allowed {
                result.payload
            } else {
                None
            },
            refresh_after: self.spec_refresh_after(deadline, now) as u64,
        }
    }

    /// The entry after an authoritative decision replaced whatever it held or awaited.
    pub open spec fn decided(self, snapshot: EntrySnapshot<P>) -> Entry<P> {
        Entry { current: snapshot, pending: None, ..self }
    }

    /// The entry after its refresh of `from` brought `snapshot` at `now`. What has expired, or has
    /// been seen expired, is not revived.
    pub open spec fn refreshed(self, from: u64, snapshot: EntrySnapshot<P>, now: Instant) -> Entry<
        P,
    > {
        if !self.word_expired(from, now) && self.current.word == from {
            Entry { current: snapshot, pending: None, ..self }
        } else {
            Entry { pending: None, ..self }
        }
    }

    /// Tick before which no refresh starts after one that failed at `now`.
    pub open spec fn cooldown_end(self, now: Instant, cooldown: Duration) -> int {
        time::least(
            self.spec_tick(now) + time::least(cooldown.nanos as int, u64::MAX as int),
            u64::MAX as int,
        )
    }

    /// The entry after its refresh failed at `now`.
    pub open spec fn refresh_failed(self, now: Instant, cooldown: Duration) -> Entry<P> {
        Entry {
            refresh_not_before: self.cooldown_end(now, cooldown) as u64,
            pending: None,
            ..self
        }
    }

    /// Whether the lookup in flight is `generation`.
    pub open spec fn awaits(self, generation: u64) -> bool {
        self.pending matches Some(pending) && pending.generation == generation
    }

    /// What holds of every entry.
    pub open spec fn wf(self) -> bool {
        &&& self.state() == EntryState::Pending ==> {
            &&& self.deadline() == NO_EXPIRY
            &&& self.pending matches Some(pending) && pending.refresh_from is None
        }
        &&& self.pending matches Some(pending) ==> match pending.refresh_from {
            None => self.state() == EntryState::Pending,
            Some(from) => {
                &&& word_state(from) == EntryState::Allowed || word_state(from)
                    == EntryState::Denied
                &&& self.current.word == from || self.current.word == stale_word(from)
            },
        }
        &&& self.current.payload is Some ==> self.state() == EntryState::Allowed
        &&& self.state() == EntryState::Stale ==> self.current.refresh_after == 0
    }

    /// A new entry of `subject` that awaits the lookup `generation`.
    pub fn pending(
        subject: u64,
        epoch: Instant,
        generation: u64,
        refresh_before: Duration,
    ) -> (entry: Entry<P>)
        ensures
            entry.wf(),
            entry.state() == EntryState::Pending,
            entry == spec_pending::<P>(subject, epoch, generation, refresh_before),
    {
        Entry {
            subject,
            current: EntrySnapshot {
                word: word(EntryState::Pending, NO_EXPIRY),
                payload: None,
                refresh_after: 0,
            },
            epoch,
            pending: Some(PendingFetch { generation, delay: None, refresh_from: None }),
            refresh_before: refresh_before.clamped_nanos(),
            refresh_not_before: 0,
        }
    }

    /// Nanoseconds from the entry's epoch to `now`, within the finite deadlines.
    pub fn tick(&self, now: Instant) -> (tick: u64)
        ensures
            tick == self.spec_tick(now),
            tick <= MAX_FINITE_DEADLINE,
    {
        let elapsed: u64 = now.saturating_duration_since(self.epoch).clamped_nanos();
        if elapsed <= MAX_FINITE_DEADLINE {
            elapsed
        } else {
            MAX_FINITE_DEADLINE
        }
    }

    /// Deadline of a decision that arrives at `now` and stays fresh for `ttl`.
    pub fn deadline_after(&self, now: Instant, ttl: Duration) -> (deadline: u64)
        ensures
            deadline == self.spec_deadline_after(now, ttl),
            deadline <= NO_EXPIRY,
    {
        if ttl.nanos == MAX_SPAN_NANOS {
            return NO_EXPIRY;
        }
        let tick: u64 = self.tick(now);
        if ttl.nanos < (NO_EXPIRY - tick) as u128 {
            tick + ttl.nanos as u64
        } else {
            tick
        }
    }

    /// Returns whether the deadline held by `word` has been reached at `now`.
    pub fn is_expired_at(&self, word: u64, now: Instant) -> (expired: bool)
        ensures
            expired == self.word_expired(word, now),
    {
        let deadline: u64 = decode_deadline(word);
        deadline != NO_EXPIRY && self.tick(now) >= deadline
    }

    /// Looks at the entry at `now`. One that is seen expired becomes stale for good.
    pub fn current_at(&mut self, now: Instant) -> (expired: bool)
        ensures
            *final(self) == old(self).latched(now),
            expired == old(self).expired(now),
    {
        if !self.is_expired_at(self.current.word, now) {
            return false;
        }
        if decode_entry_state(self.current.word) != EntryState::Stale {
            let deadline: u64 = decode_deadline(self.current.word);
            self.current = EntrySnapshot {
                word: word(EntryState::Stale, deadline),
                payload: None,
                refresh_after: 0,
            };
        }
        true
    }

    pub fn state_at(&mut self, now: Instant) -> (state: EntryState)
        ensures
            *final(self) == old(self).latched(now),
            state == old(self).live_state(now),
    {
        if self.current_at(now) {
            EntryState::Stale
        } else {
            decode_entry_state(self.current.word)
        }
    }

    /// What a handle sees at `now`. A handle exists only of an entry that has had a decision.
    pub fn observed_at(&mut self, now: Instant) -> (observed: Observed)
        requires
            old(self).state() != EntryState::Pending,
        ensures
            *final(self) == old(self).latched(now),
            observed == old(self).observed(now),
    {
        if self.current_at(now) {
            return Observed::Expired;
        }
        match decode_entry_state(self.current.word) {
            EntryState::Allowed => Observed::Allowed,
            EntryState::Denied => Observed::Denied,
            EntryState::Pending | EntryState::Stale => Observed::Stale,
        }
    }

    pub fn verdict_at(&mut self, now: Instant) -> (verdict: Option<Decision>)
        ensures
            *final(self) == old(self).latched(now),
            verdict == old(self).verdict(now),
    {
        match self.state_at(now) {
            EntryState::Allowed => Some(Decision::Allowed),
            EntryState::Denied => Some(Decision::Denied),
            EntryState::Pending | EntryState::Stale => None,
        }
    }

    pub fn refresh_eligible_at(&self, now: Instant) -> (eligible: bool)
        ensures
            eligible == self.refresh_eligible(now),
    {
        let deadline: u64 = decode_deadline(self.current.word);
        if deadline == NO_EXPIRY {
            return false;
        }
        match decode_entry_state(self.current.word) {
            EntryState::Allowed | EntryState::Denied => {},
            EntryState::Pending | EntryState::Stale => {
                return false;
            },
        }
        let tick: u64 = self.tick(now);
        tick < deadline && tick >= self.current.refresh_after && deadline - tick
            <= self.refresh_before && tick >= self.refresh_not_before
    }

    pub fn refresh_due_at(&self, now: Instant) -> (due: bool)
        ensures
            due == self.refresh_due(now),
    {
        self.refresh_eligible_at(now) && self.pending.is_none()
    }

    /// Drops the decision and the lookup. Returns the lookup that no longer counts.
    pub fn invalidate(&mut self) -> (aborted: Option<PendingFetch>)
        ensures
            *final(self) == old(self).invalidated(),
            aborted == old(self).pending,
    {
        let deadline: u64 = decode_deadline(self.current.word);
        self.current = EntrySnapshot {
            word: word(EntryState::Stale, deadline),
            payload: None,
            refresh_after: 0,
        };
        self.abort_pending()
    }

    /// Drops the lookup in flight and returns it.
    pub fn abort_pending(&mut self) -> (aborted: Option<PendingFetch>)
        ensures
            *final(self) == (Entry { pending: None, ..*old(self) }),
            aborted == old(self).pending,
    {
        let aborted = self.pending;
        self.pending = None;
        aborted
    }

    /// Returns whether the lookup in flight is `generation`.
    pub fn pending_generation(&self, generation: u64) -> (awaited: bool)
        ensures
            awaited == self.awaits(generation),
    {
        match &self.pending {
            Some(pending) => pending.generation == generation,
            None => false,
        }
    }

    /// Replaces the lookup `generation`, if it is the one in flight.
    pub fn replace_pending(&mut self, generation: u64, replacement: Option<PendingFetch>) -> (
    replaced: bool)
        ensures
            replaced == old(self).awaits(generation),
            *final(self) == if old(self).awaits(generation) {
                Entry { pending: replacement, ..*old(self) }
            } else {
                *old(self)
            },
    {
        if self.pending_generation(generation) {
            self.pending = replacement;
            true
        } else {
            false
        }
    }

    /// Prepares what the entry holds once `result` has arrived at `now`.
    pub fn decision_snapshot(&self, result: DecisionResult<P>, ttl: Duration, now: Instant) -> (
    snapshot: EntrySnapshot<P>)
        ensures
            snapshot == self.spec_decision_snapshot(result, ttl, now),
            word_state(snapshot.word) == decision_state(result.decision),
            word_deadline(snapshot.word) == self.result_deadline(result, ttl, now),
    {
        let tick: u64 = self.tick(now);
        let configured: u64 = self.deadline_after(now, ttl);
        let deadline: u64 = match result.valid_until {
            Some(cap) => {
                let cap_tick: u64 = self.tick(cap);
                if configured <= cap_tick {
                    configured
                } else {
                    cap_tick
                }
            },
            None => configured,
        };
        let remaining: u64 = if deadline >= tick {
            deadline - tick
        } else {
            0
        };
        let refresh_after: u64 = if remaining <= self.refresh_before {
            tick + (remaining / 2 + remaining % 2)
        } else {
            0
        };
        EntrySnapshot {
            word: word(entry_state(result.decision), deadline),
            payload: match result.decision {
                Decision::Allowed => result.payload,
                Decision::Denied => None,
            },
            refresh_after,
        }
    }

    /// Installs an authoritative decision. Returns the lookup that no longer counts.
    pub fn decide(&mut self, snapshot: EntrySnapshot<P>) -> (aborted: Option<PendingFetch>)
        ensures
            *final(self) == old(self).decided(snapshot),
            aborted == old(self).pending,
    {
        self.current = snapshot;
        self.abort_pending()
    }

    /// Ends the refresh of `from` with what it brought.
    pub fn complete_refresh(&mut self, from: u64, snapshot: EntrySnapshot<P>, now: Instant)
        ensures
            *final(self) == old(self).refreshed(from, snapshot, now),
    {
        if !self.is_expired_at(from, now) && self.current.word == from {
            self.current = snapshot;
        }
        self.pending = None;
    }

    /// Ends a refresh that failed and starts its cooldown.
    pub fn fail_refresh(&mut self, now: Instant, cooldown: Duration)
        ensures
            *final(self) == old(self).refresh_failed(now, cooldown),
    {
        let tick: u64 = self.tick(now);
        let cooldown: u64 = cooldown.clamped_nanos();
        self.refresh_not_before = if cooldown <= u64::MAX - tick {
            tick + cooldown
        } else {
            u64::MAX
        };
        self.pending = None;
    }
}

/// A new entry of `subject` that awaits the lookup `generation`.
pub open spec fn spec_pending<P>(
    subject: u64,
    epoch: Instant,
    generation: u64,
    refresh_before: Duration,
) -> Entry<P> {
    Entry {
        subject,
        current: EntrySnapshot {
            word: spec_word(EntryState::Pending, NO_EXPIRY as int),
            payload: None,
            refresh_after: 0,
        },
        epoch,
        pending: Some(PendingFetch { generation, delay: None, refresh_from: None }),
        refresh_before: time::least(refresh_before.nanos as int, u64::MAX as int) as u64,
        refresh_not_before: 0,
    }
}

} // verus!
