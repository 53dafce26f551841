//! Which entries a gate may forget.
//!
//! An entry outlives its slot while a handle names it. Entries and lookups take their numbers from
//! one sequence, so that every number handed out since the last sweep may be that of an entry.

use std::collections::HashSet;

use vstd::prelude::*;

use crate::gate::{GateModel, GateState};
use crate::subject_model;
use crate::subject_model::SubjectModel;

verus! {

broadcast use vstd::std_specs::hash::group_hash_axioms;

/// Number of new numbers after which a sweep is due.
pub const SWEEP_INTERVAL: u64 = 1_024;

impl<P> GateModel<P> {
    /// Whether the entry `id` answers for a subject or is held by a handle.
    pub open spec fn needs(self, held: Set<u64>, id: u64) -> bool {
        held.contains(id) || subject_model::attached(self.subjects.slots, id)
    }

    /// State without those candidates that nobody needs.
    pub open spec fn swept(self, candidates: Seq<u64>, held: Set<u64>) -> GateModel<P> {
        self.with_subjects(
            SubjectModel {
                table: self.subjects.table.remove_keys(
                    Set::new(|id: u64| candidates.contains(id) && !self.needs(held, id)),
                ),
                ..self.subjects
            },
        )
    }
}

impl<P> GateState<P> {
    /// Forgets each of the entries `candidates` that neither answers for a subject nor is among the
    /// `held`. Returns the candidates that are needed, in their order.
    pub fn sweep(&mut self, candidates: &Vec<u64>, held: &HashSet<u64>) -> (kept: Vec<u64>)
        requires
            old(self)@.wf(),
        ensures
            final(self)@.wf(),
            final(self)@ == old(self)@.swept(candidates@, held@),
            kept@ == candidates@.filter(|id: u64| old(self)@.needs(held@, id)),
    {
        let ghost before = self@;
        let ghost needed = |id: u64| before.needs(held@, id);
        let mut kept: Vec<u64> = Vec::new();
        let mut i: usize = 0;
        proof {
            reveal(Seq::filter);
            assert(candidates@.take(0) =~= Seq::empty());
            assert(before.swept(candidates@.take(0), held@) =~= before);
        }
        while i < candidates.len()
            invariant
                i <= candidates.len(),
                before.wf(),
                self@.wf(),
                self@ == before.swept(candidates@.take(i as int), held@),
                needed == (|id: u64| before.needs(held@, id)),
                kept@ == candidates@.take(i as int).filter(needed),
            decreases candidates.len() - i,
        {
            let id: u64 = candidates[i];
            let ghost swept = self@;
            let keep = held.contains(&id) || (!self.forget(id) && self.has_entry(id));
            proof {
                reveal(Seq::filter);
                let done = candidates@.take(i as int);
                let next = candidates@.take(i + 1);
                assert(next =~= done.push(id));
                assert(next.drop_last() =~= done);
                if subject_model::attached(before.subjects.slots, id) {
                    let j = choose|j: int|
                        subject_model::names_entry(before.subjects.slots, id, j);
                    assert(before.subjects.table.contains_key(before.subjects.slots[j].1.0));
                }
                assert forall|other: u64| next.contains(other) == (done.contains(other) || other
                    == id) by {
                    if done.contains(other) {
                        let k = choose|k: int| 0 <= k < done.len() && done[k] == other;
                        assert(next[k] == other);
                    }
                    assert(next[done.len() as int] == id);
                }
                assert(keep == before.needs(held@, id));
                assert(self@.subjects.table =~= before.swept(next, held@).subjects.table);
                assert(self@ =~= before.swept(next, held@));
            }
            if keep {
                kept.push(id);
            }
            i = i + 1;
        }
        assert(candidates@.take(candidates.len() as int) =~= candidates@);
        kept
    }
}

/// The numbers from `from` to `to`, both of them counted.
pub open spec fn numbers(from: int, to: int) -> Seq<u64> {
    Seq::new(
        (if from <= to {
            to - from + 1
        } else {
            0
        }) as nat,
        |i: int| (from + i) as u64,
    )
}

/// Returns whether a sweep is due after `fresh` new numbers, where the last one left `kept`: after
/// [`SWEEP_INTERVAL`] of them, or as many as were left if those are more.
pub fn sweep_due(fresh: u64, kept: usize) -> (due: bool)
    ensures
        due == (fresh >= SWEEP_INTERVAL && fresh >= kept),
{
    fresh >= SWEEP_INTERVAL && fresh >= kept as u64
}

/// Numbers of entries and lookups that were given out.
pub struct Sweeper {
    /// First number that no sweep has seen.
    pub unswept: u64,
    /// Largest number met so far.
    pub largest: u64,
    /// Entries that the last sweep left.
    pub kept: Vec<u64>,
}

impl Sweeper {
    /// The numbers that the next sweep looks at.
    pub open spec fn candidates(self) -> Seq<u64> {
        self.kept@ + numbers(self.unswept as int, self.largest as int)
    }

    /// The sweeper of a gate that has given out no number.
    pub fn new() -> (sweeper: Sweeper)
        ensures
            sweeper.unswept == 0,
            sweeper.largest == 0,
            sweeper.kept@ == Seq::<u64>::empty(),
    {
        Sweeper { unswept: 0, largest: 0, kept: Vec::new() }
    }

    /// Notes a number that was given out. Returns whether a sweep is due, as [`sweep_due`] has it.
    pub fn note(&mut self, number: u64) -> (due: bool)
        ensures
            final(self).unswept == old(self).unswept,
            final(self).kept == old(self).kept,
            final(self).largest == if number > old(self).largest {
                number
            } else {
                old(self).largest
            },
            due == (final(self).largest - final(self).unswept >= SWEEP_INTERVAL
                && final(self).largest - final(self).unswept >= final(self).kept@.len()),
    {
        if number > self.largest {
            self.largest = number;
        }
        if self.largest < self.unswept {
            return false;
        }
        sweep_due(self.largest - self.unswept, self.kept.len())
    }

    /// Sweeps every number that was met since the last sweep or left by it.
    pub fn sweep<P>(&mut self, gate: &mut GateState<P>, held: &HashSet<u64>)
        requires
            old(gate)@.wf(),
            old(self).largest < u64::MAX,
        ensures
            final(gate)@.wf(),
            final(gate)@ == old(gate)@.swept(old(self).candidates(), held@),
            final(self).largest == old(self).largest,
            final(self).unswept == old(self).largest + 1,
            final(self).kept@ == old(self).candidates().filter(
                |id: u64| old(gate)@.needs(held@, id),
            ),
    {
        let ghost before = *self;
        let mut candidates: Vec<u64> = Vec::new();
        std::mem::swap(&mut candidates, &mut self.kept);
        let mut number: u64 = self.unswept;
        while number <= self.largest
            invariant
                self.largest == before.largest < u64::MAX,
                before.unswept <= number,
                number <= before.largest + 1 || number == before.unswept,
                candidates@ == before.kept@ + numbers(before.unswept as int, number - 1),
            decreases before.largest + 1 - number,
        {
            candidates.push(number);
            number = number + 1;
            assert(candidates@ =~= before.kept@ + numbers(before.unswept as int, number - 1));
        }
        assert(candidates@ =~= before.candidates());
        self.kept = gate.sweep(&candidates, held);
        self.unswept = self.largest + 1;
    }
}

} // verus!
