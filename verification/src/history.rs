//! The history buffer: the last samples, oldest first, never more of them
//! than its capacity.

use crate::process::CurrentProcesses;
use std::collections::VecDeque;
use vstd::prelude::*;

verus! {

/// A history after one more item: the item goes to the tail, and where that
/// makes the history longer than its capacity, the head leaves.
pub open spec fn appended<T>(history: Seq<T>, item: T, capacity: nat) -> Seq<T> {
    let longer = history.push(item);
    if longer.len() > capacity {
        longer.drop_first()
    } else {
        longer
    }
}

/// The item that leaves when `item` is appended, if one does.
pub open spec fn evicted_by<T>(history: Seq<T>, item: T, capacity: nat) -> Option<T> {
    let longer = history.push(item);
    if longer.len() > capacity {
        Some(longer[0])
    } else {
        None
    }
}

/// A history after each of `items` was appended, first to last.
pub open spec fn appended_all<T>(history: Seq<T>, items: Seq<T>, capacity: nat) -> Seq<T>
    decreases items.len(),
{
    if items.len() == 0 {
        history
    } else {
        appended(appended_all(history, items.drop_last(), capacity), items.last(), capacity)
    }
}

/// The last `count` items of `items`, or all of them where there are fewer.
pub open spec fn last_of<T>(items: Seq<T>, count: nat) -> Seq<T> {
    if items.len() <= count {
        items
    } else {
        items.skip(items.len() - count)
    }
}

/// Whether no sample is older than one before it.
pub open spec fn chronological(history: Seq<CurrentProcesses>) -> bool {
    forall|i: int, j: int|
        0 <= i <= j < history.len() ==> history[i].timestamp <= history[j].timestamp
}

/// Appending to a history that is within its capacity keeps exactly the
/// last items of all that it has seen, as many as the capacity allows.
pub proof fn lemma_appended_all<T>(history: Seq<T>, items: Seq<T>, capacity: nat)
    requires
        history.len() <= capacity,
    ensures
        appended_all(history, items, capacity) == last_of(history + items, capacity),
    decreases items.len(),
{
    if items.len() == 0 {
        assert(history + items =~= history);
    } else {
        let earlier = items.drop_last();
        lemma_appended_all(history, earlier, capacity);
        assert((history + earlier).push(items.last()) =~= history + items);
        assert(appended(last_of(history + earlier, capacity), items.last(), capacity) =~= last_of(
            history + items,
            capacity,
        ));
    }
}

/// After any number of appends to an empty history, the history holds the
/// last of them, as many as its capacity or all where they are fewer, in
/// the order in which they came.
pub proof fn lemma_history_retains_last<T>(items: Seq<T>, capacity: nat)
    ensures
        appended_all(Seq::<T>::empty(), items, capacity) == last_of(items, capacity),
        appended_all(Seq::<T>::empty(), items, capacity).len() == if items.len() <= capacity {
            items.len()
        } else {
            capacity
        },
        forall|i: int|
            0 <= i < appended_all(Seq::<T>::empty(), items, capacity).len() ==> appended_all(
                Seq::<T>::empty(),
                items,
                capacity,
            )[i] == items[items.len() - appended_all(Seq::<T>::empty(), items, capacity).len() + i],
{
    lemma_appended_all(Seq::<T>::empty(), items, capacity);
    assert(Seq::<T>::empty() + items =~= items);
}

/// The samples that the daemon keeps.
pub struct HistoryBuffer {
    snapshots: VecDeque<CurrentProcesses>,
    capacity: usize,
}

impl HistoryBuffer {
    /// The samples, oldest first.
    pub closed spec fn view(&self) -> Seq<CurrentProcesses> {
        self.snapshots@
    }

    /// The number of samples that the buffer keeps at most.
    pub closed spec fn limit(&self) -> nat {
        self.capacity as nat
    }

    /// The buffer is within its capacity.
    pub closed spec fn wf(&self) -> bool {
        self.snapshots@.len() <= self.capacity
    }

    /// An empty buffer that keeps `capacity` samples.
    pub fn new(capacity: usize) -> (buffer: HistoryBuffer)
        ensures
            buffer.wf(),
            buffer@ == Seq::<CurrentProcesses>::empty(),
            buffer.limit() == capacity,
    {
        HistoryBuffer { snapshots: VecDeque::new(), capacity }
    }

    /// The number of samples that the buffer keeps at most.
    pub fn capacity(&self) -> (capacity: usize)
        ensures
            capacity == self.limit(),
    {
        self.capacity
    }

    /// The number of samples in the buffer.
    pub fn len(&self) -> (len: usize)
        ensures
            len == self@.len(),
    {
        self.snapshots.len()
    }

    /// Puts a sample at the tail. Where the buffer then holds more than its
    /// capacity, the oldest sample leaves and is handed back.
    pub fn append(&mut self, snapshot: CurrentProcesses) -> (evicted: Option<CurrentProcesses>)
        requires
            old(self).wf(),
        ensures
            final(self).wf(),
            final(self).limit() == old(self).limit(),
            final(self)@ == appended(old(self)@, snapshot, old(self).limit()),
            evicted == evicted_by(old(self)@, snapshot, old(self).limit()),
            chronological(old(self)@) && (old(self)@.len() > 0 ==> old(self)@.last().timestamp
                <= snapshot.timestamp) ==> chronological(final(self)@),
    {
        self.snapshots.push_back(snapshot);
        if self.snapshots.len() > self.capacity {
            self.snapshots.pop_front()
        } else {
            None
        }
    }

    /// The samples as they stand, oldest first. While the view is held the
    /// buffer cannot change.
    pub fn read(&self) -> (snapshots: &VecDeque<CurrentProcesses>)
        ensures
            snapshots@ == self@,
    {
        &self.snapshots
    }
}

} // verus!
