//! Processes as they are sampled, and the cache that keeps one shared
//! record for each process identity.

use crate::text::{decimal_digits, push_decimal};
use std::sync::Arc;
use vstd::prelude::*;
use vstd::string::StringExecFns;

verus! {

/// The identity of a process: never changed once it is made.
pub struct Process {
    pub pid: u32,
    /// The executable's name, or `"?"` where it could not be had.
    pub name: String,
    /// The arguments joined, or `"?"` where they could not be had.
    pub commandline: String,
}

/// What an identity is made of. Two processes are the same identity when
/// all three fields agree.
pub struct ProcessView {
    pub pid: u32,
    pub name: Seq<char>,
    pub commandline: Seq<char>,
}

impl View for Process {
    type V = ProcessView;

    open spec fn view(&self) -> ProcessView {
        ProcessView { pid: self.pid, name: self.name@, commandline: self.commandline@ }
    }
}

/// One process in one sample.
pub struct HistoryEntry {
    /// The shared record of the process.
    pub process: Arc<Process>,
    /// Resident memory in megabytes when the sample was taken.
    pub memory_mb: u64,
}

/// What one entry says.
pub struct EntryView {
    pub process: ProcessView,
    pub memory_mb: u64,
}

impl View for HistoryEntry {
    type V = EntryView;

    open spec fn view(&self) -> EntryView {
        EntryView { process: self.process@, memory_mb: self.memory_mb }
    }
}

impl HistoryEntry {
    /// The entry in one line: pid, name, megabytes and command line between
    /// angle brackets, with bars between them.
    pub open spec fn shown(self) -> Seq<char> {
        "<"@ + decimal_digits(self.process.pid as nat) + " | "@ + self.process.name@ + " | "@
            + decimal_digits(self.memory_mb as nat) + " | "@ + self.process.commandline@ + ">"@
    }

    /// The entry in one line.
    pub fn to_text(&self) -> (text: String)
        ensures
            text@ == self.shown(),
    {
        let mut text = "<".to_owned();
        push_decimal(&mut text, self.process.pid as u128);
        text.append(" | ");
        text.append(self.process.name.as_str());
        text.append(" | ");
        push_decimal(&mut text, self.memory_mb as u128);
        text.append(" | ");
        text.append(self.process.commandline.as_str());
        text.append(">");
        text
    }
}

/// One sample: the processes that held memory at one moment.
pub struct CurrentProcesses {
    /// Milliseconds since the Unix epoch.
    pub timestamp: u128,
    pub entries: Vec<HistoryEntry>,
}

/// What one sample says.
pub struct SnapshotView {
    pub timestamp: u128,
    pub entries: Seq<EntryView>,
}

impl View for CurrentProcesses {
    type V = SnapshotView;

    open spec fn view(&self) -> SnapshotView {
        SnapshotView { timestamp: self.timestamp, entries: sampled(self.entries@) }
    }
}

/// The lines of some entries, each indented and ended.
pub open spec fn shown_entries(entries: Seq<HistoryEntry>) -> Seq<char>
    decreases entries.len(),
{
    if entries.len() == 0 {
        Seq::empty()
    } else {
        shown_entries(entries.drop_last()) + "    "@ + entries.last().shown() + "\n"@
    }
}

impl CurrentProcesses {
    /// The sample as text: its timestamp between dashes on a line of its
    /// own, then one indented line for each entry.
    pub open spec fn shown(self) -> Seq<char> {
        "--- "@ + decimal_digits(self.timestamp as nat) + " ---\n"@ + shown_entries(self.entries@)
    }

    /// The sample as text.
    pub fn to_text(&self) -> (text: String)
        ensures
            text@ == self.shown(),
    {
        let mut text = "--- ".to_owned();
        push_decimal(&mut text, self.timestamp);
        text.append(" ---\n");
        let ghost head = text@;
        let mut i: usize = 0;
        assert(self.entries@.take(0) =~= Seq::<HistoryEntry>::empty());
        assert(text@ =~= head + shown_entries(self.entries@.take(0)));
        while i < self.entries.len()
            invariant
                i <= self.entries@.len(),
                text@ == head + shown_entries(self.entries@.take(i as int)),
            decreases self.entries@.len() - i,
        {
            let ghost before = text@;
            assert(self.entries@.take(i + 1).drop_last() =~= self.entries@.take(i as int));
            assert(self.entries@.take(i + 1).last() == self.entries@[i as int]);
            let line = self.entries[i].to_text();
            text.append("    ");
            text.append(line.as_str());
            text.append("\n");
            assert(text@ =~= head + shown_entries(self.entries@.take(i + 1)));
            i = i + 1;
        }
        assert(self.entries@.take(self.entries@.len() as int) =~= self.entries@);
        text
    }
}

/// One process as the operating system reports it.
pub struct RawProcess {
    pub pid: u32,
    /// The executable's name, if it could be read.
    pub name: Option<String>,
    /// The arguments joined by spaces, if they could be read.
    pub command_line: Option<String>,
    /// Resident memory, in pages.
    pub resident_pages: u64,
}

/// `Arc::clone`: one more handle to the same record.
#[verifier::external_body]
fn share(record: &Arc<Process>) -> (handle: Arc<Process>)
    ensures
        handle == *record,
{
    Arc::clone(record)
}

/// Whether two processes are the same identity.
pub fn same_identity(a: &Process, b: &Process) -> (same: bool)
    ensures
        same == (a@ == b@),
{
    a.pid == b.pid && a.name == b.name && a.commandline == b.commandline
}

/// How many handles to `p` are outstanding according to `cache`: none where
/// the cache has no record of `p`.
pub open spec fn holders(cache: Map<ProcessView, nat>, p: ProcessView) -> nat {
    if cache.dom().contains(p) {
        cache[p]
    } else {
        0
    }
}

/// The cache after one more handle to `p` was handed out.
pub open spec fn interned(cache: Map<ProcessView, nat>, p: ProcessView) -> Map<ProcessView, nat> {
    cache.insert(p, holders(cache, p) + 1)
}

/// The cache after one handle to `p` was given back.
pub open spec fn released(cache: Map<ProcessView, nat>, p: ProcessView) -> Map<ProcessView, nat> {
    if holders(cache, p) > 0 {
        cache.insert(p, (cache[p] - 1) as nat)
    } else {
        cache
    }
}

/// The cache without the records that nobody holds.
pub open spec fn pruned(cache: Map<ProcessView, nat>) -> Map<ProcessView, nat> {
    Map::new(|p: ProcessView| cache.dom().contains(p) && cache[p] > 0, |p: ProcessView| cache[p])
}

/// Interning twice. Two candidates with the same three fields get the same
/// record: the second interning adds none, and the record then has two
/// more handles than before. Candidates that differ in a field get a record
/// each, and each record one more handle.
pub proof fn lemma_intern_twice(cache: Map<ProcessView, nat>, a: ProcessView, b: ProcessView)
    ensures
        interned(interned(cache, a), b).dom().contains(a),
        interned(interned(cache, a), b).dom().contains(b),
        a == b ==> interned(interned(cache, a), b).dom() == interned(cache, a).dom() && holders(
            interned(interned(cache, a), b),
            a,
        ) == holders(cache, a) + 2,
        a != b ==> holders(interned(interned(cache, a), b), a) == holders(cache, a) + 1 && holders(
            interned(interned(cache, a), b),
            b,
        ) == holders(cache, b) + 1,
        forall|q: ProcessView|
            interned(interned(cache, a), b).dom().contains(q) <==> cache.dom().contains(q) || q == a
                || q == b,
{
    if a == b {
        assert(interned(interned(cache, a), b).dom() =~= interned(cache, a).dom());
    }
}

/// Interning and the number of records: an identity that the cache knows
/// adds no record, any other adds one.
pub proof fn lemma_intern_adds_at_most_one(cache: Map<ProcessView, nat>, p: ProcessView)
    requires
        cache.dom().finite(),
    ensures
        interned(cache, p).dom().finite(),
        cache.dom().contains(p) ==> interned(cache, p).dom().len() == cache.dom().len(),
        !cache.dom().contains(p) ==> interned(cache, p).dom().len() == cache.dom().len() + 1,
{
    assert(interned(cache, p).dom() =~= cache.dom().insert(p));
}

/// The cache after a handle was handed out for each of `identities`, first
/// to last.
pub open spec fn interned_all(cache: Map<ProcessView, nat>, identities: Seq<ProcessView>) -> Map<
    ProcessView,
    nat,
>
    decreases identities.len(),
{
    if identities.len() == 0 {
        cache
    } else {
        interned(interned_all(cache, identities.drop_last()), identities.last())
    }
}

/// How often `p` occurs in `identities`.
pub open spec fn occurrences(identities: Seq<ProcessView>, p: ProcessView) -> nat
    decreases identities.len(),
{
    if identities.len() == 0 {
        0
    } else {
        occurrences(identities.drop_last(), p) + if identities.last() == p {
            1nat
        } else {
            0nat
        }
    }
}

/// Handing out a handle for each of `identities` raises the count of each
/// identity by the number of times it occurs, and adds no other record.
pub proof fn lemma_interned_all(
    cache: Map<ProcessView, nat>,
    identities: Seq<ProcessView>,
    p: ProcessView,
)
    ensures
        holders(interned_all(cache, identities), p) == holders(cache, p) + occurrences(
            identities,
            p,
        ),
        interned_all(cache, identities).dom().contains(p) <==> cache.dom().contains(p)
            || occurrences(identities, p) > 0,
        occurrences(identities, p) <= identities.len(),
    decreases identities.len(),
{
    if identities.len() > 0 {
        lemma_interned_all(cache, identities.drop_last(), p);
    }
}

/// The identities of the processes of one sample, in its order.
pub open spec fn identities(entries: Seq<HistoryEntry>) -> Seq<ProcessView> {
    Seq::new(entries.len(), |i: int| entries[i].process@)
}

/// What the entries of one sample say, in its order.
pub open spec fn sampled(entries: Seq<HistoryEntry>) -> Seq<EntryView> {
    Seq::new(entries.len(), |i: int| entries[i]@)
}

/// What the samples of a history say, oldest first.
pub open spec fn history_view(history: Seq<CurrentProcesses>) -> Seq<SnapshotView> {
    Seq::new(history.len(), |i: int| history[i]@)
}

/// How many entries of one sample refer to `p`.
pub open spec fn entry_refs(entries: Seq<HistoryEntry>, p: ProcessView) -> nat {
    occurrences(identities(entries), p)
}

/// How many entries of all the samples of `history` refer to `p`.
pub open spec fn history_refs(history: Seq<CurrentProcesses>, p: ProcessView) -> nat
    decreases history.len(),
{
    if history.len() == 0 {
        0
    } else {
        history_refs(history.drop_last(), p) + entry_refs(history.last().entries@, p)
    }
}

/// The name that stands for one that could not be read.
pub open spec fn unknown() -> Seq<char> {
    seq!['?']
}

/// The identity that a reported process has.
pub open spec fn identity_of(raw: RawProcess) -> ProcessView {
    ProcessView {
        pid: raw.pid,
        name: match raw.name {
            Some(name) => name@,
            None => unknown(),
        },
        commandline: match raw.command_line {
            Some(line) => line@,
            None => unknown(),
        },
    }
}

/// Resident memory in megabytes, of a million bytes each, rounded down;
/// the largest `u64` where the type cannot hold the number.
pub open spec fn megabytes(resident_pages: u64, page_size: u64) -> u64 {
    let whole = resident_pages * page_size / 1_000_000;
    if whole > u64::MAX {
        u64::MAX
    } else {
        whole as u64
    }
}

/// What a sample of the reported processes says: one entry for each
/// process that holds memory, in the order of the report.
pub open spec fn listed(listing: Seq<RawProcess>, page_size: u64) -> Seq<EntryView>
    decreases listing.len(),
{
    if listing.len() == 0 {
        Seq::empty()
    } else if listing.last().resident_pages == 0 {
        listed(listing.drop_last(), page_size)
    } else {
        listed(listing.drop_last(), page_size).push(
            EntryView {
                process: identity_of(listing.last()),
                memory_mb: megabytes(listing.last().resident_pages, page_size),
            },
        )
    }
}

/// A sample has no more entries than processes were reported.
pub proof fn lemma_listed_len(listing: Seq<RawProcess>, page_size: u64)
    ensures
        listed(listing, page_size).len() <= listing.len(),
    decreases listing.len(),
{
    if listing.len() > 0 {
        lemma_listed_len(listing.drop_last(), page_size);
    }
}

/// Resident memory in megabytes.
pub fn memory_mb(resident_pages: u64, page_size: u64) -> (mb: u64)
    ensures
        mb == megabytes(resident_pages, page_size),
{
    assert(resident_pages * page_size <= 0xffff_ffff_ffff_ffff * 0xffff_ffff_ffff_ffff)
        by (nonlinear_arith)
        requires
            0 <= resident_pages <= 0xffff_ffff_ffff_ffff,
            0 <= page_size <= 0xffff_ffff_ffff_ffff,
    ;
    let bytes: u128 = resident_pages as u128 * page_size as u128;
    let whole: u128 = bytes / 1_000_000;
    if whole > u64::MAX as u128 {
        u64::MAX
    } else {
        whole as u64
    }
}

struct Slot {
    record: Arc<Process>,
    /// Handles handed out and not given back. The cache's own is not
    /// counted. Wide enough for every entry of a history that fits in memory.
    holders: u128,
}

/// One shared record for each process identity, with the number of handles
/// to it that are outstanding.
///
/// The share count of a record is that number and one, the cache's own
/// handle: a record held only by the cache has no outstanding handle.
pub struct IdentityCache {
    slots: Vec<Slot>,
}

impl IdentityCache {
    spec fn holds_at(&self, i: int, p: ProcessView) -> bool {
        0 <= i < self.slots@.len() && self.slots@[i].record@ == p
    }

    spec fn position(&self, p: ProcessView) -> int {
        choose|i: int| self.holds_at(i, p)
    }

    /// No identity has two records.
    pub closed spec fn wf(&self) -> bool {
        forall|i: int, j: int|
            0 <= i < j < self.slots@.len() ==> (#[trigger] self.slots@[i]).record@ != (
            #[trigger] self.slots@[j]).record@
    }

    /// The identities that have a record, each with the number of
    /// outstanding handles to it.
    pub closed spec fn view(&self) -> Map<ProcessView, nat> {
        Map::new(
            |p: ProcessView| exists|i: int| self.holds_at(i, p),
            |p: ProcessView| self.slots@[self.position(p)].holders as nat,
        )
    }

    proof fn lemma_slot(&self, i: int)
        requires
            self.wf(),
            0 <= i < self.slots@.len(),
        ensures
            self@.dom().contains(self.slots@[i].record@),
            self@[self.slots@[i].record@] == self.slots@[i].holders,
    {
        let p = self.slots@[i].record@;
        assert(self.holds_at(i, p));
        let j = self.position(p);
        assert(self.holds_at(j, p));
        if j < i {
            assert(self.slots@[j].record@ != self.slots@[i].record@);
        } else if i < j {
            assert(self.slots@[i].record@ != self.slots@[j].record@);
        }
    }

    proof fn lemma_found(&self, p: ProcessView) -> (i: int)
        requires
            self.wf(),
            self@.dom().contains(p),
        ensures
            self.holds_at(i, p),
            self@[p] == self.slots@[i].holders,
    {
        let i = choose|i: int| self.holds_at(i, p);
        self.lemma_slot(i);
        i
    }

    /// A cache without records.
    pub fn new() -> (cache: IdentityCache)
        ensures
            cache.wf(),
            cache@ == Map::<ProcessView, nat>::empty(),
    {
        let cache = IdentityCache { slots: Vec::with_capacity(1000) };
        assert(cache@ =~= Map::<ProcessView, nat>::empty());
        cache
    }

    fn find(&self, candidate: &Process) -> (found: Option<usize>)
        ensures
            found matches Some(i) ==> self.holds_at(i as int, candidate@),
            found is None ==> forall|i: int| !self.holds_at(i, candidate@),
    {
        let mut i: usize = 0;
        while i < self.slots.len()
            invariant
                i <= self.slots@.len(),
                forall|j: int| 0 <= j < i ==> !self.holds_at(j, candidate@),
            decreases self.slots@.len() - i,
        {
            if same_identity(&self.slots[i].record, candidate) {
                return Some(i);
            }
            i = i + 1;
        }
        None
    }

    /// The number of records.
    pub fn len(&self) -> (count: usize)
        requires
            self.wf(),
        ensures
            self@.dom().finite(),
            count == self@.dom().len(),
    {
        proof {
            let keys = Seq::new(self.slots@.len(), |i: int| self.slots@[i].record@);
            assert(keys.no_duplicates()) by {
                assert forall|i: int, j: int|
                    0 <= i < keys.len() && 0 <= j < keys.len() && i != j implies keys[i]
                    != keys[j] by {
                    if i < j {
                        assert(self.slots@[i].record@ != self.slots@[j].record@);
                    } else {
                        assert(self.slots@[j].record@ != self.slots@[i].record@);
                    }
                }
            }
            assert(keys.to_set() =~= self@.dom()) by {
                assert forall|p: ProcessView| keys.to_set().contains(p) == self@.dom().contains(
                    p,
                ) by {
                    if keys.contains(p) {
                        let i = choose|i: int| 0 <= i < keys.len() && keys[i] == p;
                        assert(self.holds_at(i, p));
                    }
                    if self@.dom().contains(p) {
                        let i = choose|i: int| self.holds_at(i, p);
                        assert(keys[i] == p);
                    }
                }
            }
            keys.unique_seq_to_set();
            vstd::seq_lib::seq_to_set_is_finite(keys);
        }
        self.slots.len()
    }

    /// Whether the cache has a record of this identity.
    pub fn is_cached(&self, candidate: &Process) -> (cached: bool)
        requires
            self.wf(),
        ensures
            cached == self@.dom().contains(candidate@),
    {
        self.find(candidate).is_some()
    }

    /// The number of outstanding handles to this identity.
    pub fn holders_of(&self, candidate: &Process) -> (count: u128)
        requires
            self.wf(),
        ensures
            count == holders(self@, candidate@),
    {
        match self.find(candidate) {
            Some(i) => {
                proof {
                    self.lemma_slot(i as int);
                }
                self.slots[i].holders
            },
            None => 0,
        }
    }

    /// Hands out the shared record of the candidate's identity: the one
    /// that the cache has, or else the candidate itself, which the cache
    /// then keeps.
    pub fn intern(&mut self, candidate: Process) -> (handle: Arc<Process>)
        requires
            old(self).wf(),
            holders(old(self)@, candidate@) < u128::MAX,
        ensures
            final(self).wf(),
            handle@ == candidate@,
            final(self)@ == interned(old(self)@, candidate@),
    {
        let ghost before = *self;
        let ghost p = candidate@;
        match self.find(&candidate) {
            Some(i) => {
                proof {
                    before.lemma_slot(i as int);
                }
                let handle = share(&self.slots[i].record);
                let count = self.slots[i].holders;
                self.slots.set(i, Slot { record: share(&handle), holders: count + 1 });
                proof {
                    assert(self.wf()) by {
                        assert forall|a: int, b: int| 0 <= a < b < self.slots@.len() implies (
                        #[trigger] self.slots@[a]).record@ != (#[trigger] self.slots@[b]).record@ by {
                            assert(self.slots@[a].record@ == before.slots@[a].record@);
                            assert(self.slots@[b].record@ == before.slots@[b].record@);
                        }
                    }
                    assert forall|q: ProcessView| self@.dom().contains(q) == interned(
                        before@,
                        p,
                    ).dom().contains(q) by {
                        if self@.dom().contains(q) {
                            let j = choose|j: int| self.holds_at(j, q);
                            assert(before.holds_at(j, q));
                        }
                        if before@.dom().contains(q) {
                            let j = choose|j: int| before.holds_at(j, q);
                            assert(self.holds_at(j, q));
                        }
                        if q == p {
                            assert(self.holds_at(i as int, q));
                        }
                    }
                    assert forall|q: ProcessView| self@.dom().contains(q) implies self@[q]
                        == interned(before@, p)[q] by {
                        let j = self.lemma_found(q);
                        before.lemma_slot(j);
                        if j == i {
                        } else {
                            assert(self.slots@[j] == before.slots@[j]);
                            if q == p {
                                assert(before.holds_at(i as int, p));
                                assert(before.holds_at(j, p));
                                if j < i {
                                    assert(before.slots@[j].record@ != before.slots@[i as int].record@);
                                } else {
                                    assert(before.slots@[i as int].record@ != before.slots@[j].record@);
                                }
                            }
                        }
                    }
                    assert(self@ =~= interned(before@, p));
                }
                handle
            },
            None => {
                let record = Arc::new(candidate);
                let handle = share(&record);
                self.slots.push(Slot { record, holders: 1 });
                proof {
                    let last = before.slots@.len() as int;
                    assert(self.wf()) by {
                        assert forall|a: int, b: int| 0 <= a < b < self.slots@.len() implies (
                        #[trigger] self.slots@[a]).record@ != (#[trigger] self.slots@[b]).record@ by {
                            assert(self.slots@[a] == before.slots@[a]);
                            if b < last {
                                assert(self.slots@[b] == before.slots@[b]);
                            } else {
                                assert(!before.holds_at(a, p));
                            }
                        }
                    }
                    assert(!before@.dom().contains(p));
                    assert forall|q: ProcessView| self@.dom().contains(q) == interned(
                        before@,
                        p,
                    ).dom().contains(q) by {
                        if self@.dom().contains(q) {
                            let j = choose|j: int| self.holds_at(j, q);
                            if j < last {
                                assert(before.holds_at(j, q));
                            }
                        }
                        if before@.dom().contains(q) {
                            let j = choose|j: int| before.holds_at(j, q);
                            assert(self.holds_at(j, q));
                        }
                        if q == p {
                            assert(self.holds_at(last, q));
                        }
                    }
                    assert forall|q: ProcessView| self@.dom().contains(q) implies self@[q]
                        == interned(before@, p)[q] by {
                        let j = self.lemma_found(q);
                        if j < last {
                            assert(self.slots@[j] == before.slots@[j]);
                            before.lemma_slot(j);
                        }
                    }
                    assert(self@ =~= interned(before@, p));
                }
                handle
            },
        }
    }

    /// Takes note that one handle to this identity is gone.
    pub fn release(&mut self, identity: &Process)
        requires
            old(self).wf(),
        ensures
            final(self).wf(),
            final(self)@ == released(old(self)@, identity@),
    {
        let ghost before = *self;
        let ghost p = identity@;
        match self.find(identity) {
            Some(i) => {
                proof {
                    before.lemma_slot(i as int);
                }
                let count = self.slots[i].holders;
                if count > 0 {
                    let record = share(&self.slots[i].record);
                    self.slots.set(i, Slot { record, holders: count - 1 });
                    proof {
                        assert(self.wf()) by {
                            assert forall|a: int, b: int|
                                0 <= a < b < self.slots@.len() implies (
                            #[trigger] self.slots@[a]).record@ != (
                            #[trigger] self.slots@[b]).record@ by {
                                assert(self.slots@[a].record@ == before.slots@[a].record@);
                                assert(self.slots@[b].record@ == before.slots@[b].record@);
                            }
                        }
                        assert forall|q: ProcessView| self@.dom().contains(q) == released(
                            before@,
                            p,
                        ).dom().contains(q) by {
                            if self@.dom().contains(q) {
                                let j = choose|j: int| self.holds_at(j, q);
                                assert(before.holds_at(j, q));
                            }
                            if before@.dom().contains(q) {
                                let j = choose|j: int| before.holds_at(j, q);
                                assert(self.holds_at(j, q));
                            }
                        }
                        assert forall|q: ProcessView| self@.dom().contains(q) implies self@[q]
                            == released(before@, p)[q] by {
                            let j = self.lemma_found(q);
                            before.lemma_slot(j);
                            if j != i {
                                assert(self.slots@[j] == before.slots@[j]);
                                if q == p {
                                    assert(before.holds_at(i as int, p));
                                    assert(before.holds_at(j, p));
                                    if j < i {
                                        assert(before.slots@[j].record@ != before.slots@[i as int].record@);
                                    } else {
                                        assert(before.slots@[i as int].record@ != before.slots@[j].record@);
                                    }
                                }
                            }
                        }
                        assert(self@ =~= released(before@, p));
                    }
                }
            },
            None => {},
        }
    }

    /// Drops every record to which no handle is outstanding.
    pub fn prune(&mut self)
        requires
            old(self).wf(),
        ensures
            final(self).wf(),
            final(self)@ == pruned(old(self)@),
    {
        let ghost before = *self;
        let mut kept: Vec<Slot> = Vec::new();
        let ghost mut source: Seq<int> = Seq::empty();
        let mut i: usize = 0;
        while i < self.slots.len()
            invariant
                *self == before,
                i <= self.slots@.len(),
                source.len() == kept@.len(),
                forall|a: int|
                    0 <= a < source.len() ==> 0 <= #[trigger] source[a] < i && kept@[a].record@
                        == before.slots@[source[a]].record@ && kept@[a].holders
                        == before.slots@[source[a]].holders && kept@[a].holders > 0,
                forall|a: int, b: int| 0 <= a < b < source.len() ==> source[a] < source[b],
                forall|j: int|
                    0 <= j < i && (#[trigger] before.slots@[j]).holders > 0 ==> exists|a: int|
                        0 <= a < source.len() && source[a] == j,
            decreases self.slots@.len() - i,
        {
            if self.slots[i].holders > 0 {
                let record = share(&self.slots[i].record);
                let count = self.slots[i].holders;
                kept.push(Slot { record, holders: count });
                proof {
                    let ghost earlier = source;
                    source = source.push(i as int);
                    assert forall|j: int|
                        0 <= j < i + 1 && (#[trigger] before.slots@[j]).holders > 0 implies exists|
                        a: int,
                    |
                        0 <= a < source.len() && source[a] == j by {
                        if j < i {
                            let a = choose|a: int| 0 <= a < earlier.len() && earlier[a] == j;
                            assert(source[a] == j);
                        } else {
                            assert(source[earlier.len() as int] == j);
                        }
                    }
                }
            }
            i = i + 1;
        }
        self.slots = kept;
        proof {
            assert(self.wf()) by {
                assert forall|a: int, b: int| 0 <= a < b < self.slots@.len() implies (
                #[trigger] self.slots@[a]).record@ != (#[trigger] self.slots@[b]).record@ by {
                    assert(source[a] < source[b]);
                    assert(before.slots@[source[a]].record@ != before.slots@[source[b]].record@);
                }
            }
            assert forall|q: ProcessView| self@.dom().contains(q) == pruned(
                before@,
            ).dom().contains(q) by {
                if self@.dom().contains(q) {
                    let a = choose|a: int| self.holds_at(a, q);
                    before.lemma_slot(source[a]);
                }
                if pruned(before@).dom().contains(q) {
                    let j = before.lemma_found(q);
                    assert(before.slots@[j].holders > 0);
                    let a = choose|a: int| 0 <= a < source.len() && source[a] == j;
                    assert(self.holds_at(a, q));
                }
            }
            assert forall|q: ProcessView| self@.dom().contains(q) implies self@[q] == pruned(
                before@,
            )[q] by {
                let a = self.lemma_found(q);
                before.lemma_slot(source[a]);
            }
            assert(self@ =~= pruned(before@));
        }
    }
}

/// Takes one sample: an entry for each reported process that holds memory,
/// each with the shared record of its identity, stamped with `now`.
///
/// The cache hands out one handle for each entry. It counts for each
/// identity as many handles more as entries of the sample refer to it, and
/// gets a record of an identity only where it had none and the sample has
/// an entry of it: processes with the same three fields share one record.
pub fn list_processes(
    process_cache: &mut IdentityCache,
    now: u128,
    page_size: u64,
    listing: Vec<RawProcess>,
) -> (snapshot: CurrentProcesses)
    requires
        old(process_cache).wf(),
        forall|p: ProcessView| #[trigger]
            holders(old(process_cache)@, p) + listing@.len() <= u128::MAX,
    ensures
        final(process_cache).wf(),
        snapshot@ == (SnapshotView { timestamp: now, entries: listed(listing@, page_size) }),
        final(process_cache)@ == interned_all(
            old(process_cache)@,
            identities(snapshot.entries@),
        ),
        forall|p: ProcessView| #[trigger]
            holders(final(process_cache)@, p) == holders(old(process_cache)@, p) + entry_refs(
                snapshot.entries@,
                p,
            ),
        forall|p: ProcessView| #[trigger]
            final(process_cache)@.dom().contains(p) <==> old(process_cache)@.dom().contains(p)
                || entry_refs(snapshot.entries@, p) > 0,
{
    let ghost before = process_cache@;
    let ghost all = listing@;
    let mut entries: Vec<HistoryEntry> = Vec::new();
    assert(identities(entries@) =~= Seq::<ProcessView>::empty());
    assert(all.take(0) =~= Seq::<RawProcess>::empty());
    assert(sampled(entries@) =~= listed(all.take(0), page_size));
    for raw in it: listing
        invariant
            it.seq() == all,
            process_cache.wf(),
            forall|p: ProcessView| #[trigger] holders(before, p) + all.len() <= u128::MAX,
            sampled(entries@) == listed(all.take(it.index() as int), page_size),
            process_cache@ == interned_all(before, identities(entries@)),
    {
        let ghost i = it.index() as int;
        let ghost earlier = entries@;
        proof {
            assert(all.take(i + 1).drop_last() =~= all.take(i));
            assert(all.take(i + 1).last() == raw);
            lemma_listed_len(all.take(i), page_size);
        }
        if raw.resident_pages != 0 {
            let name = match raw.name {
                Some(name) => name,
                None => {
                    proof {
                        reveal_strlit("?");
                    }
                    "?".to_owned()
                },
            };
            let commandline = match raw.command_line {
                Some(line) => line,
                None => {
                    proof {
                        reveal_strlit("?");
                    }
                    "?".to_owned()
                },
            };
            let candidate = Process { pid: raw.pid, name, commandline };
            assert(candidate@ =~= identity_of(raw)) by {
                assert(candidate@.name =~= identity_of(raw).name);
                assert(candidate@.commandline =~= identity_of(raw).commandline);
            }
            proof {
                lemma_interned_all(before, identities(earlier), candidate@);
                assert(holders(before, candidate@) + all.len() <= u128::MAX);
            }
            let handle = process_cache.intern(candidate);
            let memory = memory_mb(raw.resident_pages, page_size);
            entries.push(HistoryEntry { process: handle, memory_mb: memory });
            proof {
                assert(identities(entries@).drop_last() =~= identities(earlier));
                assert(identities(entries@).last() == identity_of(raw));
                assert(sampled(entries@) =~= sampled(earlier).push(
                    EntryView {
                        process: identity_of(raw),
                        memory_mb: megabytes(raw.resident_pages, page_size),
                    },
                ));
            }
        }
    }
    assert(all.take(all.len() as int) =~= all);
    proof {
        assert forall|p: ProcessView| #[trigger]
            holders(process_cache@, p) == holders(before, p) + entry_refs(entries@, p) by {
            lemma_interned_all(before, identities(entries@), p);
        }
        assert forall|p: ProcessView| #[trigger]
            process_cache@.dom().contains(p) <==> before.dom().contains(p) || entry_refs(
                entries@,
                p,
            ) > 0 by {
            lemma_interned_all(before, identities(entries@), p);
        }
    }
    CurrentProcesses { timestamp: now, entries }
}

} // verus!
