//! The daemon's core: the sampler, which fills the history, and the
//! decisions of the listener that answers control requests.

use crate::csvdump::{render, rendered, text_view, threshold, ExportError};
use crate::history::{appended, chronological, HistoryBuffer};
use crate::ipc_common::{DecodeError, SaveTo, SaveToView, Signal, SignalView};
use crate::process::{
    entry_refs, history_refs, history_view, holders, identities, lemma_interned_all,
    list_processes, listed, occurrences, pruned, released, CurrentProcesses, IdentityCache,
    Process, ProcessView, RawProcess, SnapshotView,
};
use std::collections::VecDeque;
use vstd::prelude::*;

verus! {

/// The sampling ticks between two prunings of the identity cache.
pub const CLEANUP_INTERVAL: usize = 100;

/// The milliseconds that the sampler waits between two samples.
pub const SAMPLING_PERIOD_MS: u64 = 1000;

/// What a probe of the control endpoint found.
#[derive(Debug, Clone, Copy, PartialEq, Eq, Structural)]
pub enum PingResult {
    DaemonExists,
    DaemonNotFound,
}

/// How the sampler's wait for a stop notification ended.
#[derive(Debug, Clone, Copy, PartialEq, Eq, Structural)]
pub enum WaitOutcome {
    /// A stop notification came.
    StopRequested,
    /// The sampling period went by without one.
    TimedOut,
    /// Nobody is left who could send one.
    Disconnected,
}

/// Whether the sampler goes on after a wait: only when the wait timed out.
pub fn listing_should_continue(outcome: WaitOutcome) -> (go_on: bool)
    ensures
        go_on == (outcome == WaitOutcome::TimedOut),
{
    match outcome {
        WaitOutcome::StopRequested => false,
        WaitOutcome::TimedOut => true,
        WaitOutcome::Disconnected => false,
    }
}

/// The cache after a handle was given back for each of `identities`,
/// first to last.
pub open spec fn released_all(cache: Map<ProcessView, nat>, identities: Seq<ProcessView>) -> Map<
    ProcessView,
    nat,
>
    decreases identities.len(),
{
    if identities.len() == 0 {
        cache
    } else {
        released(released_all(cache, identities.drop_last()), identities.last())
    }
}

/// Giving back handles that are all outstanding lowers the count of each
/// identity by the number of times it occurs, and drops no record.
proof fn lemma_released_all(cache: Map<ProcessView, nat>, identities: Seq<ProcessView>)
    requires
        forall|q: ProcessView| occurrences(identities, q) <= #[trigger] holders(cache, q),
    ensures
        forall|p: ProcessView| #[trigger]
            holders(released_all(cache, identities), p) == holders(cache, p) - occurrences(
                identities,
                p,
            ),
        released_all(cache, identities).dom() == cache.dom(),
    decreases identities.len(),
{
    if identities.len() > 0 {
        let earlier = identities.drop_last();
        let last = identities.last();
        assert forall|q: ProcessView| occurrences(earlier, q) <= #[trigger] holders(
            cache,
            q,
        ) by {
            assert(occurrences(identities, q) <= holders(cache, q));
        }
        lemma_released_all(cache, earlier);
        let before = released_all(cache, earlier);
        assert(occurrences(identities, last) <= holders(cache, last));
        assert(holders(before, last) == holders(cache, last) - occurrences(earlier, last));
        assert(released(before, last).dom() =~= before.dom());
        assert forall|p: ProcessView| #[trigger]
            holders(released_all(cache, identities), p) == holders(cache, p) - occurrences(
                identities,
                p,
            ) by {
            assert(holders(before, p) == holders(cache, p) - occurrences(earlier, p));
        }
    }
}

/// The references of a history are those of its first sample and those of
/// the rest.
proof fn lemma_refs_first(history: Seq<CurrentProcesses>, p: ProcessView)
    requires
        history.len() > 0,
    ensures
        history_refs(history, p) == entry_refs(history[0].entries@, p) + history_refs(
            history.drop_first(),
            p,
        ),
    decreases history.len(),
{
    if history.len() == 1 {
        assert(history.drop_last() =~= Seq::<CurrentProcesses>::empty());
        assert(history.drop_first() =~= Seq::<CurrentProcesses>::empty());
    } else {
        lemma_refs_first(history.drop_last(), p);
        assert(history.drop_last().drop_first() =~= history.drop_first().drop_last());
    }
}

/// No identity has more references than the history has entries, and each
/// sample has at most as many entries as a `usize` counts.
proof fn lemma_refs_bound(history: Seq<CurrentProcesses>, p: ProcessView)
    ensures
        history_refs(history, p) <= history.len() * usize::MAX,
    decreases history.len(),
{
    if history.len() > 0 {
        lemma_refs_bound(history.drop_last(), p);
        let last = history.last();
        lemma_interned_all(Map::empty(), identities(last.entries@), p);
        assert(last.entries.len() == last.entries@.len());
        assert(entry_refs(last.entries@, p) <= usize::MAX);
        assert((history.len() - 1) * usize::MAX + usize::MAX == history.len() * usize::MAX)
            by (nonlinear_arith);
    }
}

/// Gives back the handles of a sample that has left the history.
fn release_all(cache: &mut IdentityCache, snapshot: CurrentProcesses)
    requires
        old(cache).wf(),
    ensures
        final(cache).wf(),
        final(cache)@ == released_all(old(cache)@, identities(snapshot.entries@)),
{
    let ghost before = cache@;
    let ghost all = identities(snapshot.entries@);
    let entries = snapshot.entries;
    assert(all.take(0) =~= Seq::<ProcessView>::empty());
    for entry in it: entries
        invariant
            cache.wf(),
            identities(it.seq()) == all,
            cache@ == released_all(before, all.take(it.index() as int)),
    {
        let ghost i = it.index() as int;
        assert(all.take(i + 1).drop_last() =~= all.take(i));
        assert(all.take(i + 1).last() == entry.process@);
        cache.release(&entry.process);
    }
    assert(all.take(all.len() as int) =~= all);
}

/// Where the sampler stands.
#[derive(Debug, Clone, Copy, PartialEq, Eq, Structural)]
pub enum SamplerPhase {
    /// It waits for a stop notification or for the period to go by.
    Waiting,
    /// The period went by: the processes are to be enumerated.
    Listing,
    /// A stop notification was observed.
    Stopped,
    /// The processes could not be enumerated.
    Failed,
}

/// What happened outside since the sampler's last step.
pub enum SamplerEvent {
    /// The wait ended.
    Waited(WaitOutcome),
    /// The processes were enumerated at `now`, in milliseconds since the
    /// Unix epoch.
    Listed { now: u128, page_size: u64, listing: Vec<RawProcess> },
    /// The processes could not be enumerated.
    ListingFailed,
}

/// What is to be done outside before the sampler's next step.
#[derive(Debug, Clone, Copy, PartialEq, Eq, Structural)]
pub enum SamplerAction {
    /// Wait for a stop notification, `period_ms` milliseconds at most.
    Wait { period_ms: u64 },
    /// Enumerate the processes.
    ListProcesses,
    /// Leave the loop: the sampler was stopped.
    Finish,
    /// Leave the loop with the failure of the enumeration.
    Fail,
}

/// The phase that follows `phase` on `event`. An event that the phase does
/// not wait for changes nothing.
pub open spec fn next_phase(phase: SamplerPhase, event: SamplerEvent) -> SamplerPhase {
    match (phase, event) {
        (SamplerPhase::Waiting, SamplerEvent::Waited(WaitOutcome::TimedOut)) => SamplerPhase::Listing,
        (SamplerPhase::Waiting, SamplerEvent::Waited(_)) => SamplerPhase::Stopped,
        (SamplerPhase::Listing, SamplerEvent::Listed { .. }) => SamplerPhase::Waiting,
        (SamplerPhase::Listing, SamplerEvent::ListingFailed) => SamplerPhase::Failed,
        _ => phase,
    }
}

/// What a phase asks of the outside.
pub open spec fn action_of(phase: SamplerPhase) -> SamplerAction {
    match phase {
        SamplerPhase::Waiting => SamplerAction::Wait { period_ms: SAMPLING_PERIOD_MS },
        SamplerPhase::Listing => SamplerAction::ListProcesses,
        SamplerPhase::Stopped => SamplerAction::Finish,
        SamplerPhase::Failed => SamplerAction::Fail,
    }
}

/// The cleanup counter after one more tick.
pub open spec fn next_tick(ticks: nat) -> nat {
    if ticks + 1 >= CLEANUP_INTERVAL {
        0
    } else {
        ticks + 1
    }
}

/// What one tick does to the sampler's state. The sample of the reported
/// processes, stamped `now`, is appended to the history. On the tick that
/// brings the counter back to zero the cache keeps exactly the identities
/// that an entry of the history refers to; on any other tick it keeps what
/// it had and has a record of each identity of the new sample. A history
/// whose samples are in the order of their timestamps stays so where `now`
/// is not before its last sample.
pub open spec fn recorded(
    before: Sampler,
    after: Sampler,
    now: u128,
    page_size: u64,
    listing: Seq<RawProcess>,
) -> bool {
    let rows = listed(listing, page_size);
    &&& after.limit() == before.limit()
    &&& after.ticks() == next_tick(before.ticks())
    &&& history_view(after.samples()) == appended(
        history_view(before.samples()),
        SnapshotView { timestamp: now, entries: rows },
        before.limit(),
    )
    &&& forall|p: ProcessView|
        #[trigger] after.cache().dom().contains(p) <==> if after.ticks() == 0 {
            history_refs(after.samples(), p) > 0
        } else {
            before.cache().dom().contains(p) || exists|i: int|
                0 <= i < rows.len() && rows[i].process == p
        }
    &&& chronological(before.samples()) && (before.samples().len() > 0
        ==> before.samples().last().timestamp <= now) ==> chronological(after.samples())
}

/// Whether a step changes nothing but the phase.
pub open spec fn untouched(before: Sampler, after: Sampler) -> bool {
    &&& after.limit() == before.limit()
    &&& after.ticks() == before.ticks()
    &&& after.samples() == before.samples()
    &&& after.cache() == before.cache()
}

/// The state that the daemon shares between its sampler and its listener:
/// the history, the identity cache that its entries point into, and the
/// sampler's own counters.
pub struct Sampler {
    cache: IdentityCache,
    history: HistoryBuffer,
    cleanup_tick: usize,
    phase: SamplerPhase,
}

impl Sampler {
    /// The cached identities, each with its outstanding handles.
    pub closed spec fn cache(&self) -> Map<ProcessView, nat> {
        self.cache@
    }

    /// The samples of the history, oldest first.
    pub closed spec fn samples(&self) -> Seq<CurrentProcesses> {
        self.history@
    }

    /// The capacity of the history.
    pub closed spec fn limit(&self) -> nat {
        self.history.limit()
    }

    /// The ticks since the cache was last pruned.
    pub closed spec fn ticks(&self) -> nat {
        self.cleanup_tick as nat
    }

    /// Where the sampler stands.
    pub closed spec fn phase(&self) -> SamplerPhase {
        self.phase
    }

    /// The cache and the history are each well formed.
    pub closed spec fn parts_wf(&self) -> bool {
        self.cache.wf() && self.history.wf()
    }

    /// The history is within its capacity, and the cache counts for each
    /// identity exactly the entries of the history that refer to it.
    pub open spec fn wf(&self) -> bool {
        &&& self.parts_wf()
        &&& self.samples().len() <= self.limit()
        &&& self.ticks() < CLEANUP_INTERVAL
        &&& forall|p: ProcessView| #[trigger]
            holders(self.cache(), p) == history_refs(self.samples(), p)
    }

    /// A sampler with an empty history of the given capacity, about to wait
    /// for its first period.
    pub fn new(history_capacity: usize) -> (sampler: Sampler)
        ensures
            sampler.wf(),
            sampler.samples() == Seq::<CurrentProcesses>::empty(),
            sampler.cache() == Map::<ProcessView, nat>::empty(),
            sampler.limit() == history_capacity,
            sampler.ticks() == 0,
            sampler.phase() == SamplerPhase::Waiting,
    {
        Sampler {
            cache: IdentityCache::new(),
            history: HistoryBuffer::new(history_capacity),
            cleanup_tick: 0,
            phase: SamplerPhase::Waiting,
        }
    }

    fn enter(&mut self, phase: SamplerPhase)
        requires
            old(self).wf(),
        ensures
            final(self).wf(),
            final(self).phase() == phase,
            untouched(*old(self), *final(self)),
    {
        self.phase = phase;
        proof {
            assert forall|p: ProcessView| #[trigger]
                holders(self.cache(), p) == history_refs(self.samples(), p) by {
                assert(holders(old(self).cache(), p) == history_refs(old(self).samples(), p));
            }
        }
    }

    /// The history as it stands, oldest sample first.
    pub fn read(&self) -> (snapshots: &VecDeque<CurrentProcesses>)
        ensures
            snapshots@ == self.samples(),
    {
        self.history.read()
    }

    /// Whether the cache has a record of this identity.
    pub fn is_cached(&self, candidate: &Process) -> (cached: bool)
        requires
            self.wf(),
        ensures
            cached == self.cache().dom().contains(candidate@),
    {
        self.cache.is_cached(candidate)
    }

    /// The number of entries of the history that refer to this identity.
    pub fn references(&self, candidate: &Process) -> (count: u128)
        requires
            self.wf(),
        ensures
            count == history_refs(self.samples(), candidate@),
    {
        proof {
            assert(holders(self.cache(), candidate@) == history_refs(self.samples(), candidate@));
        }
        self.cache.holders_of(candidate)
    }

    /// What the sampler asks of the outside now.
    pub fn action(&self) -> (action: SamplerAction)
        ensures
            action == action_of(self.phase()),
    {
        match self.phase {
            SamplerPhase::Waiting => SamplerAction::Wait { period_ms: SAMPLING_PERIOD_MS },
            SamplerPhase::Listing => SamplerAction::ListProcesses,
            SamplerPhase::Stopped => SamplerAction::Finish,
            SamplerPhase::Failed => SamplerAction::Fail,
        }
    }

    /// One tick: takes a sample of the reported processes, appends it to
    /// the history, gives back the handles of the sample that has left, and
    /// prunes the cache on every hundredth tick.
    pub fn record(&mut self, now: u128, page_size: u64, listing: Vec<RawProcess>)
        requires
            old(self).wf(),
        ensures
            final(self).wf(),
            final(self).phase() == old(self).phase(),
            recorded(*old(self), *final(self), now, page_size, listing@),
    {
        let ghost before = *self;
        let ghost rows = listed(listing@, page_size);
        let kept = self.history.len();
        proof {
            assert forall|p: ProcessView| #[trigger]
                holders(self.cache@, p) + listing@.len() <= u128::MAX by {
                lemma_refs_bound(self.history@, p);
                assert(holders(self.cache(), p) == history_refs(self.samples(), p));
                assert(listing.len() == listing@.len());
                let held = kept as nat;
                let most = usize::MAX as nat;
                assert(held * most + most <= 0xffff_ffff_ffff_ffff_ffff_ffff_ffff_ffff)
                    by (nonlinear_arith)
                    requires
                        held <= most,
                        most <= 0xffff_ffff_ffff_ffff,
                ;
            }
        }
        let snapshot = list_processes(&mut self.cache, now, page_size, listing);
        let ghost sample = snapshot;
        let ghost ids = identities(sample.entries@);
        let ghost longer = before.history@.push(sample);
        proof {
            assert(longer.drop_last() =~= before.history@);
            assert forall|p: ProcessView| #[trigger]
                holders(self.cache@, p) == history_refs(longer, p) by {
                lemma_interned_all(before.cache@, ids, p);
                assert(holders(before.cache(), p) == history_refs(before.samples(), p));
            }
            assert(history_view(longer) =~= history_view(before.history@).push(sample@));
        }
        let ghost filled = self.cache@;
        let evicted = self.history.append(snapshot);
        match evicted {
            Some(oldest) => {
                proof {
                    assert(history_view(longer.drop_first()) =~= history_view(
                        longer,
                    ).drop_first());
                    assert forall|q: ProcessView|
                        occurrences(identities(oldest.entries@), q) <= #[trigger] holders(
                            filled,
                            q,
                        ) by {
                        lemma_refs_first(longer, q);
                        assert(holders(filled, q) == history_refs(longer, q));
                    }
                    lemma_released_all(filled, identities(oldest.entries@));
                    assert forall|p: ProcessView| #[trigger]
                        holders(released_all(filled, identities(oldest.entries@)), p)
                            == history_refs(longer.drop_first(), p) by {
                        lemma_refs_first(longer, p);
                        assert(holders(filled, p) == history_refs(longer, p));
                    }
                }
                release_all(&mut self.cache, oldest);
            },
            None => {},
        }
        proof {
            assert(self.cache@.dom() == filled.dom());
            assert forall|p: ProcessView| #[trigger]
                holders(self.cache@, p) == history_refs(self.history@, p) by {
                if evicted is Some {
                    assert(holders(
                        released_all(filled, identities(evicted->0.entries@)),
                        p,
                    ) == history_refs(longer.drop_first(), p));
                } else {
                    assert(holders(filled, p) == history_refs(longer, p));
                }
            }
            assert forall|p: ProcessView|
                filled.dom().contains(p) <==> before.cache@.dom().contains(p) || exists|i: int|
                    0 <= i < rows.len() && rows[i].process == p by {
                lemma_interned_all(before.cache@, ids, p);
                lemma_occurs(ids, p);
                assert(rows.len() == ids.len());
                assert forall|i: int| 0 <= i < ids.len() implies ids[i] == rows[i].process by {
                    assert(rows[i] == sample.entries@[i]@);
                }
                if exists|i: int| 0 <= i < rows.len() && rows[i].process == p {
                    let i = choose|i: int| 0 <= i < rows.len() && rows[i].process == p;
                    assert(ids[i] == p);
                }
                if exists|i: int| 0 <= i < ids.len() && ids[i] == p {
                    let i = choose|i: int| 0 <= i < ids.len() && ids[i] == p;
                    assert(rows[i].process == p);
                }
            }
        }
        let ghost settled = self.cache@;
        if self.cleanup_tick + 1 >= CLEANUP_INTERVAL {
            self.cleanup_tick = 0;
            self.cache.prune();
            proof {
                assert forall|p: ProcessView| #[trigger]
                    holders(self.cache@, p) == history_refs(self.history@, p) by {
                    assert(holders(settled, p) == history_refs(self.history@, p));
                }
                assert forall|p: ProcessView| #[trigger]
                    self.cache@.dom().contains(p) <==> history_refs(self.history@, p) > 0 by {
                    assert(holders(settled, p) == history_refs(self.history@, p));
                }
            }
        } else {
            self.cleanup_tick = self.cleanup_tick + 1;
        }
    }
}

/// An identity occurs a positive number of times exactly when it stands at
/// some place.
pub proof fn lemma_occurs(identities: Seq<ProcessView>, p: ProcessView)
    ensures
        occurrences(identities, p) > 0 <==> exists|i: int|
            0 <= i < identities.len() && identities[i] == p,
    decreases identities.len(),
{
    if identities.len() > 0 {
        let earlier = identities.drop_last();
        lemma_occurs(earlier, p);
        if occurrences(identities, p) > 0 {
            if identities.last() == p {
                assert(identities[identities.len() - 1] == p);
            } else {
                let i = choose|i: int| 0 <= i < earlier.len() && earlier[i] == p;
                assert(identities[i] == p);
            }
        }
        if exists|i: int| 0 <= i < identities.len() && identities[i] == p {
            let i = choose|i: int| 0 <= i < identities.len() && identities[i] == p;
            if i < earlier.len() {
                assert(earlier[i] == p);
            }
        }
    }
}

/// One step of the sampler: what it makes of an event, and what it asks of
/// the outside next.
///
/// A wait that timed out leads to an enumeration, any other end of the wait
/// stops the sampler. An enumeration is recorded as one tick and leads to
/// the next wait; a failed one ends the sampler with a failure.
pub fn run_process_list_daemon(sampler: &mut Sampler, event: SamplerEvent) -> (action:
    SamplerAction)
    requires
        old(sampler).wf(),
    ensures
        final(sampler).wf(),
        final(sampler).phase() == next_phase(old(sampler).phase(), event),
        action == action_of(final(sampler).phase()),
        match (old(sampler).phase(), event) {
            (SamplerPhase::Listing, SamplerEvent::Listed { now, page_size, listing }) => recorded(
                *old(sampler),
                *final(sampler),
                now,
                page_size,
                listing@,
            ),
            _ => untouched(*old(sampler), *final(sampler)),
        },
{
    match sampler.phase {
        SamplerPhase::Waiting => match event {
            SamplerEvent::Waited(outcome) => {
                if listing_should_continue(outcome) {
                    sampler.enter(SamplerPhase::Listing);
                } else {
                    sampler.enter(SamplerPhase::Stopped);
                }
            },
            _ => {},
        },
        SamplerPhase::Listing => match event {
            SamplerEvent::Listed { now, page_size, listing } => {
                let ghost reported = listing@;
                sampler.record(now, page_size, listing);
                let ghost ticked = *sampler;
                sampler.enter(SamplerPhase::Waiting);
                proof {
                    let rows = listed(reported, page_size);
                    assert forall|p: ProcessView|
                        #[trigger] sampler.cache().dom().contains(p) <==> if sampler.ticks()
                            == 0 {
                            history_refs(sampler.samples(), p) > 0
                        } else {
                            old(sampler).cache().dom().contains(p) || exists|i: int|
                                0 <= i < rows.len() && rows[i].process == p
                        } by {
                        assert(ticked.cache().dom().contains(p) == sampler.cache().dom().contains(
                            p,
                        ));
                    }
                }
            },
            SamplerEvent::ListingFailed => {
                sampler.enter(SamplerPhase::Failed);
            },
            _ => {},
        },
        _ => {},
    }
    sampler.action()
}

/// An identity has references in a history exactly when some entry of some
/// sample of the history refers to it.
pub proof fn lemma_referenced(history: Seq<CurrentProcesses>, p: ProcessView)
    ensures
        history_refs(history, p) > 0 <==> exists|i: int, j: int|
            0 <= i < history.len() && 0 <= j < history[i].entries@.len()
                && #[trigger] history[i].entries@[j].process@ == p,
    decreases history.len(),
{
    if history.len() > 0 {
        let earlier = history.drop_last();
        let last = history.len() - 1;
        lemma_referenced(earlier, p);
        lemma_occurs(identities(history[last].entries@), p);
        if history_refs(history, p) > 0 {
            if history_refs(earlier, p) > 0 {
                let (i, j) = choose|i: int, j: int|
                    0 <= i < earlier.len() && 0 <= j < earlier[i].entries@.len()
                        && #[trigger] earlier[i].entries@[j].process@ == p;
                assert(history[i].entries@[j].process@ == p);
            } else {
                let ids = identities(history[last].entries@);
                let j = choose|j: int| 0 <= j < ids.len() && ids[j] == p;
                assert(history[last].entries@[j].process@ == p);
            }
        }
        if exists|i: int, j: int|
            0 <= i < history.len() && 0 <= j < history[i].entries@.len()
                && #[trigger] history[i].entries@[j].process@ == p {
            let (i, j) = choose|i: int, j: int|
                0 <= i < history.len() && 0 <= j < history[i].entries@.len()
                    && #[trigger] history[i].entries@[j].process@ == p;
            if i < last {
                assert(earlier[i].entries@[j].process@ == p);
            } else {
                let ids = identities(history[last].entries@);
                assert(ids[j] == p);
            }
        }
    }
}

/// Pruning and the history. Where the cache counts for each identity the
/// entries of the history that refer to it, as a sampler's cache does,
/// the pruned cache has a record of an identity exactly when some entry of
/// a sample that the history retains refers to it: an identity without
/// reference is gone, a referenced one stays, with its count.
pub proof fn lemma_prune_keeps_referenced(
    cache: Map<ProcessView, nat>,
    history: Seq<CurrentProcesses>,
    p: ProcessView,
)
    requires
        forall|q: ProcessView| #[trigger] holders(cache, q) == history_refs(history, q),
    ensures
        history_refs(history, p) == 0 ==> !pruned(cache).dom().contains(p),
        history_refs(history, p) > 0 ==> pruned(cache).dom().contains(p) && pruned(cache)[p]
            == history_refs(history, p),
        pruned(cache).dom().contains(p) <==> exists|i: int, j: int|
            0 <= i < history.len() && 0 <= j < history[i].entries@.len()
                && #[trigger] history[i].entries@[j].process@ == p,
{
    assert(holders(cache, p) == history_refs(history, p));
    lemma_referenced(history, p);
}

/// What the listener does once it has answered a request.
#[derive(Debug)]
pub enum Next {
    /// Nothing more: it accepts the next connection.
    Accept,
    /// It notifies the sampler to stop and leaves the accept loop.
    Shutdown,
    /// It exports the history to `to`, as far back as `time_sec` seconds.
    Export { to: SaveTo, time_sec: Option<usize> },
    /// It leaves the accept loop with this failure.
    Surface { failure: DecodeError },
}

/// What a next step says.
pub enum NextView {
    Accept,
    Shutdown,
    Export { to: SaveToView, time_sec: Option<usize> },
    Surface { failure: DecodeError },
}

impl View for Next {
    type V = NextView;

    open spec fn view(&self) -> NextView {
        match self {
            Next::Accept => NextView::Accept,
            Next::Shutdown => NextView::Shutdown,
            Next::Export { to, time_sec } => NextView::Export { to: to@, time_sec: *time_sec },
            Next::Surface { failure } => NextView::Surface { failure: *failure },
        }
    }
}

/// What the listener makes of one connection: the reply that it sends at
/// once, and what it does next.
#[derive(Debug)]
pub struct Dispatch {
    pub reply: Signal,
    pub next: Next,
}

/// The reply to what was read from a connection: `Ack` to every request
/// that could be read, else an `Error` that says why it could not.
pub open spec fn reply_to(received: Result<SignalView, DecodeError>) -> SignalView {
    match received {
        Ok(_) => SignalView::Ack,
        Err(failure) => SignalView::Error { explanation: failure.explained() },
    }
}

/// What follows the reply. `Stop` ends the listener, `Save` starts an
/// export, a request that could not be read ends the listener with the
/// failure, and every other signal is passed over.
pub open spec fn follow_up(received: Result<SignalView, DecodeError>) -> NextView {
    match received {
        Ok(SignalView::Stop) => NextView::Shutdown,
        Ok(SignalView::Save { to, time_sec }) => NextView::Export { to, time_sec },
        Ok(_) => NextView::Accept,
        Err(failure) => NextView::Surface { failure },
    }
}

/// What a request, or the failure to read one, says.
pub open spec fn received_view(received: Result<Signal, DecodeError>) -> Result<
    SignalView,
    DecodeError,
> {
    match received {
        Ok(signal) => Ok(signal@),
        Err(failure) => Err(failure),
    }
}

/// Decides on one connection, from the one request that was read from it
/// or the failure to read one.
pub fn dispatch(received: Result<Signal, DecodeError>) -> (plan: Dispatch)
    ensures
        plan.reply@ == reply_to(received_view(received)),
        plan.next@ == follow_up(received_view(received)),
{
    match received {
        Ok(Signal::Stop) => Dispatch { reply: Signal::Ack, next: Next::Shutdown },
        Ok(Signal::Save { to, time_sec }) => Dispatch {
            reply: Signal::Ack,
            next: Next::Export { to, time_sec },
        },
        Ok(_) => Dispatch { reply: Signal::Ack, next: Next::Accept },
        Err(failure) => Dispatch {
            reply: Signal::Error { explanation: failure.explanation() },
            next: Next::Surface { failure },
        },
    }
}

/// What is done with an export once it is rendered.
#[derive(Debug)]
pub enum ExportAction {
    /// This signal goes back over the connection.
    Reply { signal: Signal },
    /// These contents go into the file of this name, and nothing goes
    /// back over the connection.
    Write { name: String, contents: String },
}

/// What an action on an export says.
pub enum ExportActionView {
    Reply { signal: SignalView },
    Write { name: Seq<char>, contents: Seq<char> },
}

impl View for ExportAction {
    type V = ExportActionView;

    open spec fn view(&self) -> ExportActionView {
        match self {
            ExportAction::Reply { signal } => ExportActionView::Reply { signal: signal@ },
            ExportAction::Write { name, contents } => ExportActionView::Write {
                name: name@,
                contents: contents@,
            },
        }
    }
}

/// What is done with a rendered export: a report for the client goes back
/// as one `Output`, a report for a file goes into the file, and a failure
/// to render goes back as an `Error` with its explanation.
pub open spec fn exported(to: SaveToView, rendered: Result<Seq<char>, Seq<char>>) -> ExportActionView {
    match rendered {
        Ok(report) => match to {
            SaveToView::Stdout => ExportActionView::Reply {
                signal: SignalView::Output { output: report },
            },
            SaveToView::File { name } => ExportActionView::Write { name, contents: report },
        },
        Err(explanation) => ExportActionView::Reply { signal: SignalView::Error { explanation } },
    }
}

/// A report, or the words for the failure to render one.
pub open spec fn explained_view(rendered: Result<Seq<char>, ExportError>) -> Result<
    Seq<char>,
    Seq<char>,
> {
    match rendered {
        Ok(report) => Ok(report),
        Err(failure) => Err(failure.explained()),
    }
}

/// What a report, or the failure to render one, says.
pub open spec fn rendered_view(rendered: Result<String, ExportError>) -> Result<
    Seq<char>,
    Seq<char>,
> {
    explained_view(text_view(rendered))
}

/// Decides what is done with a rendered export.
pub fn export_action(to: SaveTo, rendered: Result<String, ExportError>) -> (action: ExportAction)
    ensures
        action@ == exported(to@, rendered_view(rendered)),
{
    match rendered {
        Ok(report) => match to {
            SaveTo::Stdout => ExportAction::Reply { signal: Signal::Output { output: report } },
            SaveTo::File { name } => ExportAction::Write { name, contents: report },
        },
        Err(failure) => ExportAction::Reply {
            signal: Signal::Error { explanation: failure.explanation() },
        },
    }
}

/// The reply to a client whose export could not be written to its file.
pub fn export_failed(reason: String) -> (signal: Signal)
    ensures
        signal@ == (SignalView::Error { explanation: reason@ }),
{
    Signal::Error { explanation: reason }
}

/// Renders the history for a `Save` request and decides what is done with
/// it: the samples that are at most `time_sec` seconds older than `now`,
/// all of them where no span is given. The report goes back to the client
/// or into the file, as the request asks; where the rows are no text, an
/// `Error` goes back in its place.
pub fn export(
    history: &VecDeque<CurrentProcesses>,
    to: SaveTo,
    time_sec: Option<usize>,
    now: u128,
) -> (action: ExportAction)
    ensures
        action@ == exported(
            to@,
            explained_view(rendered(history_view(history@), threshold(now, time_sec))),
        ),
{
    export_action(to, render(history, time_sec, now))
}

/// How an attempt to bind the control endpoint ended.
#[derive(Debug, Clone, Copy, PartialEq, Eq, Structural)]
pub enum BindOutcome {
    /// The endpoint is bound.
    Bound,
    /// The address is in use.
    AddressInUse,
    /// The attempt failed for any other reason.
    Failed,
}

/// Why the listener could not start.
#[derive(Debug, Clone, Copy, PartialEq, Eq, Structural)]
pub enum ListenError {
    /// The endpoint is occupied: another daemon may be running.
    Occupied,
    /// The endpoint could not be bound for another reason.
    BindFailed,
}

/// Decides on the start of the listener from its attempt to bind the
/// endpoint: it starts only where the endpoint is bound.
pub fn fork_ipc(bind: BindOutcome) -> (start: Result<(), ListenError>)
    ensures
        start == match bind {
            BindOutcome::Bound => Ok::<(), ListenError>(()),
            BindOutcome::AddressInUse => Err::<(), ListenError>(ListenError::Occupied),
            BindOutcome::Failed => Err::<(), ListenError>(ListenError::BindFailed),
        },
{
    match bind {
        BindOutcome::Bound => Ok(()),
        BindOutcome::AddressInUse => Err(ListenError::Occupied),
        BindOutcome::Failed => Err(ListenError::BindFailed),
    }
}

/// Why a probe of the endpoint gave no answer.
#[derive(Debug, Clone, Copy, PartialEq, Eq, Structural)]
pub enum ProbeError {
    /// The endpoint could neither be bound nor found in use.
    BindFailed,
    /// The endpoint is in use, and what holds it does not answer a `Ping`
    /// with an `Ack`: it is occupied by another program.
    Occupied,
}

/// A step of the probe of the endpoint.
#[derive(Debug, Clone, Copy, PartialEq, Eq)]
pub enum ProbeStep {
    /// The probe has its answer.
    Finished { result: Result<PingResult, ProbeError> },
    /// The endpoint is in use: a `Ping` tells whether a daemon holds it.
    SendPing,
}

/// The first step of the probe, from an attempt to bind the endpoint.
/// Where the endpoint could be bound, no daemon is running.
pub fn check_socket_status(bind: BindOutcome) -> (step: ProbeStep)
    ensures
        step == match bind {
            BindOutcome::Bound => ProbeStep::Finished { result: Ok(PingResult::DaemonNotFound) },
            BindOutcome::AddressInUse => ProbeStep::SendPing,
            BindOutcome::Failed => ProbeStep::Finished { result: Err(ProbeError::BindFailed) },
        },
{
    match bind {
        BindOutcome::Bound => ProbeStep::Finished { result: Ok(PingResult::DaemonNotFound) },
        BindOutcome::AddressInUse => ProbeStep::SendPing,
        BindOutcome::Failed => ProbeStep::Finished { result: Err(ProbeError::BindFailed) },
    }
}

/// The second step of the probe, from the reply to the `Ping` or `None`
/// where the exchange failed. A daemon holds the endpoint exactly when the
/// reply is an `Ack`.
pub fn confirm_daemon(reply: Option<Signal>) -> (result: Result<PingResult, ProbeError>)
    ensures
        result == if reply matches Some(signal) && signal@ == SignalView::Ack {
            Ok::<PingResult, ProbeError>(PingResult::DaemonExists)
        } else {
            Err::<PingResult, ProbeError>(ProbeError::Occupied)
        },
{
    match reply {
        Some(Signal::Ack) => Ok(PingResult::DaemonExists),
        _ => Err(ProbeError::Occupied),
    }
}

/// A sampler for a daemon that keeps `history_capacity` samples.
pub fn run_daemon(history_capacity: usize) -> (sampler: Sampler)
    ensures
        sampler.wf(),
        sampler.samples() == Seq::<CurrentProcesses>::empty(),
        sampler.cache() == Map::<ProcessView, nat>::empty(),
        sampler.limit() == history_capacity,
        sampler.ticks() == 0,
        sampler.phase() == SamplerPhase::Waiting,
{
    Sampler::new(history_capacity)
}

} // verus!
