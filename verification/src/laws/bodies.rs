//! Laws of enforced bodies: what lets data pass, what cuts a stream off, and what is tried again.

use vstd::prelude::*;

use crate::admission;
use crate::admission::{Admission, AdmissionState};
use crate::decision::Decision;
use crate::entry::Observed;
use crate::evolution;
use crate::gate::GateModel;
use crate::laws::lifetime;
use crate::laws::snapshot;
use crate::metrics::MetricEvent;
use crate::stream::{BodyGuard, BodyStep, ReadmissionPoll};
use crate::time::Instant;

verus! {

/// Whether a poll cut the stream off: the body has ended and the cutoff is counted.
pub open spec fn cuts_off<P>(
    before: GateModel<P>,
    polled: (BodyGuard, GateModel<P>, BodyStep),
) -> bool {
    &&& polled.2 == BodyStep::Cutoff
    &&& polled.0.ended
    &&& polled.1.events == before.events.push(MetricEvent::StreamCutoff)
}

/// Whether a poll lets the wrapped body go on under `admission`.
pub open spec fn goes_on<P>(
    guard: BodyGuard,
    before: GateModel<P>,
    polled: (BodyGuard, GateModel<P>, BodyStep),
    admission: Admission,
) -> bool {
    &&& polled.2 == BodyStep::PollInner
    &&& !polled.0.ended
    &&& polled.0.admission == admission
    &&& polled.0.subject == guard.subject
    &&& polled.1.events == before.events
}

/// The decision that a cached read of the body's subject would find.
pub open spec fn cached_decision<P>(guard: BodyGuard, gate: GateModel<P>, now: Instant) -> Option<
    Decision,
> {
    if gate.snapshot.contains_key(guard.subject) {
        gate.subjects.verdict(gate.snapshot[guard.subject], now)
    } else {
        None
    }
}

/// A poll of a stale stream does what the cached decision of its subject says, whether or not a
/// readmission is under way: a denied one cuts the stream off, an allowed one is taken over and lets
/// the wrapped body go on. Without one a readmission is polled, which is started unless it is under
/// way already; the stream does not end for that.
pub proof fn a_stale_stream_does_what_the_cache_says<P>(
    guard: BodyGuard,
    gate: GateModel<P>,
    now: Instant,
)
    requires
        gate.wf(),
        snapshot::serves_own(gate),
        !guard.ended,
        gate.observed(guard.admission.entry, now) == Observed::Stale,
    ensures
        match cached_decision(guard, gate, now) {
            Some(Decision::Denied) => cuts_off(gate, guard.polled(gate, now)),
            Some(Decision::Allowed) => {
                &&& goes_on(
                    guard,
                    gate,
                    guard.polled(gate, now),
                    Admission { entry: gate.snapshot[guard.subject] },
                )
                &&& !guard.polled(gate, now).0.readmitting
            },
            None => {
                let polled = guard.polled(gate, now);
                &&& polled.2 == (BodyStep::PollReadmission { start: !guard.readmitting })
                &&& polled.0 == (BodyGuard { readmitting: true, ..guard })
                &&& polled.1.events == gate.events
            },
        },
{
    let entry = guard.admission.entry;
    let seen = gate.looked(entry, now);
    evolution::lemma_looked_evolves(gate.subjects, entry, now);
    snapshot::lemma_own_entries_stay(gate.snapshot, gate.subjects, seen.subjects);
    if gate.snapshot.contains_key(guard.subject) {
        let id = gate.snapshot[guard.subject];
        lifetime::looking_changes_no_answer(gate, entry, now, id, now);
        assert(snapshot::made_for(seen.subjects, id, guard.subject));
        if gate.subjects.verdict(id, now) is Some {
            snapshot::lemma_peek_finds(seen, guard.subject, now);
        }
    }
    snapshot::a_cached_read_finds_a_decision_in_force(seen, guard.subject, now);
}

/// A poll lets data pass only under an admission that is allowed at that instant: whatever the state
/// of the body, its readmission and the cache.
pub proof fn data_passes_only_while_allowed<P>(guard: BodyGuard, gate: GateModel<P>, now: Instant)
    requires
        gate.wf(),
        guard.polled(gate, now).2 == BodyStep::PollInner,
    ensures
        !guard.ended,
        guard.polled(gate, now).1.observed(guard.polled(gate, now).0.admission.entry, now)
            == Observed::Allowed,
        !guard.polled(gate, now).0.ended,
        guard.polled(gate, now).0.subject == guard.subject,
{
    lifetime::looking_changes_no_answer(
        gate,
        guard.admission.entry,
        now,
        guard.admission.entry,
        now,
    );
    let seen = gate.looked(guard.admission.entry, now);
    let peeked = seen.peeked(guard.subject, now);
    if let Some(admission) = peeked.1 {
        if peeked.0.subjects.table.contains_key(admission.entry) {
            lifetime::the_readings_of_an_entry_agree(
                peeked.0.subjects.table[admission.entry],
                now,
            );
        }
    }
}

/// A poll ends a body exactly by cutting its stream off, and never for want of a decision.
pub proof fn a_poll_ends_a_body_only_by_cutting_it_off<P>(
    guard: BodyGuard,
    gate: GateModel<P>,
    now: Instant,
)
    requires
        !guard.ended,
    ensures
        guard.polled(gate, now).0.ended <==> guard.polled(gate, now).2 == BodyStep::Cutoff,
        guard.polled(gate, now).2 != BodyStep::End,
        guard.polled(gate, now).2 == BodyStep::Cutoff ==> cuts_off(gate, guard.polled(gate, now)),
        guard.polled(gate, now).2 != BodyStep::Cutoff ==> guard.polled(gate, now).1.events
            == gate.events,
{
}

/// A readmission that succeeded decides by its own decision: an allowed one lets the wrapped body go
/// on under the new admission, a denied one cuts the stream off. Either way it is over.
pub proof fn a_readmission_decides<P>(
    guard: BodyGuard,
    gate: GateModel<P>,
    admission: Admission,
    now: Instant,
)
    requires
        gate.wf(),
        !guard.ended,
    ensures
        ({
            let polled = guard.readmitted(gate, ReadmissionPoll::Ready(admission), now);
            match gate.subjects.verdict(admission.entry, now) {
                Some(Decision::Allowed) => goes_on(guard, gate, polled, admission)
                    && !polled.0.readmitting,
                Some(Decision::Denied) => cuts_off(gate, polled) && !polled.0.readmitting,
                None => polled == (BodyGuard { readmitting: false, ..guard }).polled(
                    gate.looked(admission.entry, now),
                    now,
                ),
            }
        }),
{
}

/// A readmission that is still under way, or failed, lets the wrapped body go on; after a failure
/// another one follows after the admission timeout. The admission stays.
pub proof fn an_open_readmission_lets_the_body_go_on<P>(
    guard: BodyGuard,
    gate: GateModel<P>,
    now: Instant,
)
    requires
        !guard.ended,
    ensures
        guard.readmitted(gate, ReadmissionPoll::Pending, now) == (guard, gate, BodyStep::PollInner),
        ({
            let failed = guard.readmitted(gate, ReadmissionPoll::Failed, now);
            &&& failed.0.readmitting && !failed.0.ended
            &&& failed.0.admission == guard.admission
            &&& failed.1 == gate
            &&& failed.2 == BodyStep::PollInnerRetrying {
                delay: gate.settings.admission_timeout,
            }
        }),
{
}

/// A body that was cut off yields nothing more.
pub proof fn a_cut_off_body_yields_nothing_more<P>(
    guard: BodyGuard,
    gate: GateModel<P>,
    now: Instant,
    later: GateModel<P>,
    at: Instant,
)
    requires
        !guard.ended,
        guard.polled(gate, now).2 == BodyStep::Cutoff,
    ensures
        guard.polled(gate, now).0.polled(later, at) == (
            guard.polled(gate, now).0,
            later,
            BodyStep::End,
        ),
{
}

/// A handle reports what it sees; to see a decision expired is to see it stale.
pub proof fn a_handle_reports_what_it_sees<P>(gate: GateModel<P>, id: u64, now: Instant)
    ensures
        ({
            let state = admission::admission_state(gate.observed(id, now));
            &&& state == AdmissionState::Allowed <==> gate.subjects.verdict(id, now) == Some(
                Decision::Allowed,
            )
            &&& state == AdmissionState::Denied <==> gate.subjects.verdict(id, now) == Some(
                Decision::Denied,
            )
            &&& state == AdmissionState::Stale <==> gate.subjects.verdict(id, now) is None
        }),
{
    if gate.subjects.table.contains_key(id) {
        lifetime::the_readings_of_an_entry_agree(gate.subjects.table[id], now);
    }
}

} // verus!
