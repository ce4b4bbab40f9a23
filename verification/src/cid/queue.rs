//! Bounded queues of connection ID entries.

use crate::bounded::{other_path, SeqKey};
use crate::cid::entries::{
    below, entry_with_cid, entry_with_seq, from_bound, has_cid, has_seq, index_of_seq, is_below,
    is_lowest_seq, lemma_cid_index, lemma_lowest_seq, lemma_seq_index, lowest_seq, not_below,
    unique_cids, unique_seqs, unlinked, with_entry, with_link, without_seq, ConnectionIdEntry,
    EntryView,
};
use crate::cid::model::marked;
use crate::error::Error;
use crate::packet::ConnectionId;
use std::collections::VecDeque;
use vstd::prelude::*;

verus! {

/// What a queue of connection ID entries holds.
pub struct QueueView {
    /// The entries, from the oldest inserted one on.
    pub entries: Seq<EntryView>,
    /// The maximum number of entries.
    pub capacity: usize,
}

/// A bounded queue of connection ID entries, ordered by insertion.
pub struct BoundedNonEmptyConnectionIdVecDeque {
    /// The inner `VecDeque`.
    inner: VecDeque<ConnectionIdEntry>,
    /// The maximum number of elements that the `VecDeque` can have.
    capacity: usize,
}

/// The entries of a sequence, each by what it holds.
pub open spec fn views(s: Seq<ConnectionIdEntry>) -> Seq<EntryView> {
    s.map_values(|e: ConnectionIdEntry| e@)
}

impl View for BoundedNonEmptyConnectionIdVecDeque {
    type V = QueueView;

    closed spec fn view(&self) -> QueueView {
        QueueView { entries: views(self.inner@), capacity: self.capacity }
    }
}

impl Default for BoundedNonEmptyConnectionIdVecDeque {
    fn default() -> (r: Self)
        ensures
            r@ == (QueueView { entries: Seq::empty(), capacity: 0 }),
    {
        let r = BoundedNonEmptyConnectionIdVecDeque { inner: VecDeque::new(), capacity: 0 };
        assert(r@.entries =~= Seq::empty());
        r
    }
}

impl BoundedNonEmptyConnectionIdVecDeque {
    /// Creates a queue bounded by `capacity` that holds `initial_entry`.
    pub fn new(capacity: usize, initial_entry: ConnectionIdEntry) -> (r: Self)
        ensures
            r@ == (QueueView { entries: seq![initial_entry@], capacity }),
    {
        let mut inner: VecDeque<ConnectionIdEntry> = VecDeque::with_capacity(1);
        inner.push_back(initial_entry);
        let r = BoundedNonEmptyConnectionIdVecDeque { inner, capacity };
        assert(r@.entries =~= seq![initial_entry@]);
        r
    }

    /// Updates the maximum number of entries to `new_capacity`. Does nothing if
    /// `new_capacity` is lower or equal to the current one.
    pub fn resize(&mut self, new_capacity: usize)
        ensures
            final(self)@ == (QueueView {
                capacity: if new_capacity > old(self)@.capacity {
                    new_capacity
                } else {
                    old(self)@.capacity
                },
                ..old(self)@
            }),
    {
        if new_capacity > self.capacity {
            self.capacity = new_capacity;
        }
    }

    /// The maximum number of entries.
    pub fn capacity(&self) -> (r: usize)
        ensures
            r == self@.capacity,
    {
        self.capacity
    }

    /// Returns the oldest inserted entry still present in the queue.
    pub fn get_oldest(&self) -> (r: &ConnectionIdEntry)
        requires
            self@.entries.len() > 0,
        ensures
            r@ == self@.entries[0],
    {
        &self.inner[0]
    }

    /// Returns the number of entries.
    pub fn len(&self) -> (r: usize)
        ensures
            r == self@.entries.len(),
    {
        self.inner.len()
    }

    /// The entry at position `i`.
    pub fn at(&self, i: usize) -> (r: &ConnectionIdEntry)
        requires
            i < self@.entries.len(),
        ensures
            r@ == self@.entries[i as int],
    {
        &self.inner[i]
    }

    /// The position of the entry with sequence number `seq`.
    fn position(&self, seq: u64) -> (r: Option<usize>)
        requires
            unique_seqs(self@.entries),
        ensures
            match r {
                Some(i) => {
                    &&& i < self@.entries.len()
                    &&& self@.entries[i as int].seq == seq
                    &&& has_seq(self@.entries, seq)
                    &&& index_of_seq(self@.entries, seq) == i
                },
                None => !has_seq(self@.entries, seq),
            },
    {
        let mut i: usize = 0;
        while i < self.inner.len()
            invariant
                i <= self.inner@.len(),
                unique_seqs(self@.entries),
                forall|j: int| 0 <= j < i ==> (#[trigger] self@.entries[j]).seq != seq,
            decreases self.inner@.len() - i,
        {
            assert(self@.entries[i as int] == self.inner@[i as int]@);
            if self.inner[i].seq == seq {
                proof {
                    lemma_seq_index(self@.entries, seq, i as int);
                }
                return Some(i);
            }
            i += 1;
        }
        None
    }

    /// Gets the entry having the provided `seq`.
    pub fn get(&self, seq: u64) -> (r: Option<&ConnectionIdEntry>)
        requires
            unique_seqs(self@.entries),
        ensures
            match r {
                Some(e) => entry_with_seq(self@.entries, seq) == Some(e@),
                None => entry_with_seq(self@.entries, seq) is None,
            },
    {
        match self.position(seq) {
            Some(i) => Some(&self.inner[i]),
            None => None,
        }
    }

    /// Gets the entry having the provided connection ID.
    pub fn find_cid(&self, cid: &ConnectionId) -> (r: Option<&ConnectionIdEntry>)
        requires
            unique_cids(self@.entries),
        ensures
            match r {
                Some(e) => entry_with_cid(self@.entries, cid@) == Some(e@),
                None => entry_with_cid(self@.entries, cid@) is None,
            },
    {
        let mut i: usize = 0;
        while i < self.inner.len()
            invariant
                i <= self.inner@.len(),
                unique_cids(self@.entries),
                forall|j: int| 0 <= j < i ==> (#[trigger] self@.entries[j]).cid != cid@,
            decreases self.inner@.len() - i,
        {
            assert(self@.entries[i as int] == self.inner@[i as int]@);
            let e = &self.inner[i];
            if e.cid == *cid {
                proof {
                    lemma_cid_index(self@.entries, cid@, i as int);
                }
                return Some(e);
            }
            i += 1;
        }
        None
    }

    /// Whether some entry holds the provided connection ID.
    pub fn contains_cid(&self, cid: &ConnectionId) -> (r: bool)
        ensures
            r == has_cid(self@.entries, cid@),
    {
        let mut i: usize = 0;
        while i < self.inner.len()
            invariant
                i <= self.inner@.len(),
                forall|j: int| 0 <= j < i ==> (#[trigger] self@.entries[j]).cid != cid@,
            decreases self.inner@.len() - i,
        {
            assert(self@.entries[i as int] == self.inner@[i as int]@);
            if self.inner[i].cid == *cid {
                return true;
            }
            i += 1;
        }
        false
    }

    /// The first entry that has either the provided connection ID or the
    /// provided sequence number.
    pub fn find_cid_or_seq(&self, cid: &ConnectionId, seq: u64) -> (r: Option<&ConnectionIdEntry>)
        ensures
            match r {
                Some(e) => exists|i: int|
                    {
                        &&& 0 <= i < self@.entries.len()
                        &&& #[trigger] self@.entries[i] == e@
                        &&& e@.cid == cid@ || e@.seq == seq
                    },
                None => !has_cid(self@.entries, cid@) && !has_seq(self@.entries, seq),
            },
    {
        let mut i: usize = 0;
        while i < self.inner.len()
            invariant
                i <= self.inner@.len(),
                forall|j: int|
                    0 <= j < i ==> (#[trigger] self@.entries[j]).cid != cid@
                        && self@.entries[j].seq != seq,
            decreases self.inner@.len() - i,
        {
            assert(self@.entries[i as int] == self.inner@[i as int]@);
            let e = &self.inner[i];
            if e.cid == *cid || e.seq == seq {
                return Some(e);
            }
            i += 1;
        }
        None
    }

    /// Replaces the entry at position `i`.
    fn replace(&mut self, i: usize, e: ConnectionIdEntry)
        requires
            i < old(self)@.entries.len(),
        ensures
            final(self)@ == (QueueView {
                entries: old(self)@.entries.update(i as int, e@),
                ..old(self)@
            }),
    {
        let _ = self.inner.remove(i);
        self.inner.insert(i, e);
        assert(self@.entries =~= old(self)@.entries.update(i as int, e@));
    }

    /// Inserts the provided entry.
    ///
    /// If an entry has the same `seq` as `e`, this updates that entry and the
    /// number of stored entries remains unchanged. If inserting a new entry
    /// would exceed the capacity, this raises an `IdLimit`.
    pub fn insert(&mut self, e: ConnectionIdEntry) -> (r: Result<(), Error>)
        requires
            unique_seqs(old(self)@.entries),
        ensures
            has_seq(old(self)@.entries, e.seq) || old(self)@.entries.len() < old(self)@.capacity
                ==> {
                &&& r == Ok::<(), Error>(())
                &&& final(self)@ == (QueueView {
                    entries: with_entry(old(self)@.entries, e@),
                    ..old(self)@
                })
            },
            !has_seq(old(self)@.entries, e.seq) && old(self)@.entries.len()
                >= old(self)@.capacity ==> {
                &&& r == Err::<(), Error>(Error::IdLimit)
                &&& final(self)@ == old(self)@
            },
    {
        match self.position(e.seq) {
            Some(i) => {
                self.replace(i, e);
            },
            None => {
                if self.inner.len() >= self.capacity {
                    return Err(Error::IdLimit);
                }
                self.inner.push_back(e);
                assert(self@.entries =~= old(self)@.entries.push(e@));
            },
        }
        Ok(())
    }

    /// Links the entry having the provided `seq` to `path_id`, and says whether
    /// there is such an entry.
    pub fn link(&mut self, seq: u64, path_id: usize) -> (r: bool)
        requires
            unique_seqs(old(self)@.entries),
        ensures
            r == has_seq(old(self)@.entries, seq),
            r ==> final(self)@ == (QueueView {
                entries: with_link(old(self)@.entries, seq, path_id),
                ..old(self)@
            }),
            !r ==> final(self)@ == old(self)@,
    {
        let i = match self.position(seq) {
            Some(i) => i,
            None => {
                return false;
            },
        };
        if let Some(mut e) = self.inner.remove(i) {
            e.path_id = Some(path_id);
            self.inner.insert(i, e);
            assert(self@.entries =~= with_link(old(self)@.entries, seq, path_id));
        }
        true
    }

    /// Removes all the entries and inserts the provided one.
    pub fn clear_and_insert(&mut self, e: ConnectionIdEntry)
        ensures
            final(self)@ == (QueueView { entries: seq![e@], ..old(self)@ }),
    {
        self.inner.clear();
        self.inner.push_back(e);
        assert(self@.entries =~= seq![e@]);
    }

    /// Removes the entry having the provided `seq`.
    ///
    /// If there remains a single entry, this raises an `OutOfIdentifiers`.
    ///
    /// Returns `Some` if the entry was in the collection and removed, or `None`
    /// if it was not and nothing was modified.
    pub fn remove(&mut self, seq: u64) -> (r: Result<Option<ConnectionIdEntry>, Error>)
        requires
            unique_seqs(old(self)@.entries),
        ensures
            old(self)@.entries.len() <= 1 ==> {
                &&& r matches Err(e) && e == Error::OutOfIdentifiers
                &&& final(self)@ == old(self)@
            },
            old(self)@.entries.len() > 1 ==> {
                &&& final(self)@ == (QueueView {
                    entries: without_seq(old(self)@.entries, seq),
                    ..old(self)@
                })
                &&& match r {
                    Ok(Some(e)) => entry_with_seq(old(self)@.entries, seq) == Some(e@),
                    Ok(None) => entry_with_seq(old(self)@.entries, seq) is None,
                    Err(_) => false,
                }
            },
    {
        if self.inner.len() <= 1 {
            return Err(Error::OutOfIdentifiers);
        }
        Ok(self.remove_allow_empty(seq))
    }

    /// Removes the entry having the provided `seq`, allowing the collection to
    /// become empty.
    ///
    /// Returns `Some` if the entry was present and removed, `None` otherwise.
    pub fn remove_allow_empty(&mut self, seq: u64) -> (r: Option<ConnectionIdEntry>)
        requires
            unique_seqs(old(self)@.entries),
        ensures
            final(self)@ == (QueueView {
                entries: without_seq(old(self)@.entries, seq),
                ..old(self)@
            }),
            match r {
                Some(e) => entry_with_seq(old(self)@.entries, seq) == Some(e@),
                None => entry_with_seq(old(self)@.entries, seq) is None,
            },
    {
        match self.position(seq) {
            Some(i) => {
                let r = self.inner.remove(i);
                assert(self@.entries =~= without_seq(old(self)@.entries, seq));
                r
            },
            None => None,
        }
    }

    /// Removes all the entries.
    pub fn clear_allow_empty(&mut self)
        ensures
            final(self)@ == (QueueView { entries: Seq::empty(), ..old(self)@ }),
    {
        self.inner.clear();
        assert(self@.entries =~= Seq::empty());
    }

    /// Removes the entries whose sequence numbers are below `bound`, wherever they
    /// stand, and hands them out in their order.
    pub fn drain_below(&mut self, bound: u64) -> (r: VecDeque<ConnectionIdEntry>)
        ensures
            views(r@) == below(old(self)@.entries, bound),
            final(self)@ == (QueueView {
                entries: from_bound(old(self)@.entries, bound),
                ..old(self)@
            }),
    {
        let ghost es = self@.entries;
        let ghost mut n: int = 0;
        let mut drained: VecDeque<ConnectionIdEntry> = VecDeque::new();
        let mut kept: VecDeque<ConnectionIdEntry> = VecDeque::new();
        proof {
            reveal(Seq::filter);
            assert(es.take(0) =~= Seq::empty());
            assert(es.skip(0) =~= es);
            assert(views(drained@) =~= below(es.take(0), bound));
            assert(views(kept@) =~= from_bound(es.take(0), bound));
        }
        while self.inner.len() > 0
            invariant
                0 <= n <= es.len(),
                self@ == (QueueView { entries: es.skip(n), ..old(self)@ }),
                views(drained@) == below(es.take(n), bound),
                views(kept@) == from_bound(es.take(n), bound),
            decreases self.inner@.len(),
        {
            let ghost left = self.inner@;
            if let Some(e) = self.inner.pop_front() {
                proof {
                    assert(es.skip(n) == views(left));
                    assert(e@ == views(left)[0]);
                    assert(es.skip(n).len() == left.len());
                    assert(es.skip(n)[0] == es[n]);
                    assert(es.take(n + 1) =~= es.take(n).push(e@));
                    assert forall|i: int| 0 <= i < self.inner@.len() implies es[n + 1 + i]
                        == #[trigger] self@.entries[i] by {
                        assert(es.skip(n)[i + 1] == left[i + 1]@);
                    }
                    assert(self@.entries =~= es.skip(n + 1));
                    es.take(n).lemma_filter_push(e@, is_below(bound));
                    es.take(n).lemma_filter_push(e@, not_below(bound));
                    n = n + 1;
                }
                if e.seq < bound {
                    let ghost before = drained@;
                    drained.push_back(e);
                    assert(views(drained@) =~= views(before).push(e@));
                } else {
                    let ghost before = kept@;
                    kept.push_back(e);
                    assert(views(kept@) =~= views(before).push(e@));
                }
            }
        }
        assert(es.skip(n).len() == self.inner@.len());
        assert(es.take(n) =~= es);
        self.inner = kept;
        drained
    }

    /// The lowest sequence number that is at least `bound`, if any.
    pub fn lowest_from(&self, bound: u64) -> (r: Option<u64>)
        ensures
            r == lowest_seq(self@.entries, |e: EntryView| e.seq >= bound),
    {
        let ghost p = |e: EntryView| e.seq >= bound;
        let mut best: Option<u64> = None;
        let mut i: usize = 0;
        while i < self.inner.len()
            invariant
                i <= self.inner@.len(),
                p == (|e: EntryView| e.seq >= bound),
                match best {
                    Some(m) => is_lowest_seq(self@.entries.take(i as int), p, m),
                    None => forall|j: int| 0 <= j < i ==> !p(#[trigger] self@.entries[j]),
                },
            decreases self.inner@.len() - i,
        {
            let ghost es = self@.entries;
            let ghost before = es.take(i as int);
            let ghost after = es.take(i + 1);
            assert(es[i as int] == self.inner@[i as int]@);
            assert(after =~= before.push(es[i as int]));
            let s: u64 = self.inner[i].seq;
            let better: bool = match best {
                Some(m) => s < m,
                None => true,
            };
            if s >= bound && better {
                best = Some(s);
            }
            proof {
                assert(after[i as int] == es[i as int]);
                match best {
                    Some(m) => {
                        if m != s || !p(es[i as int]) {
                            let w = choose|w: int|
                                0 <= w < before.len() && p(#[trigger] before[w]) && before[w].seq
                                    == m;
                            assert(after[w] == before[w]);
                        }
                        assert forall|j: int| 0 <= j < after.len() && p(#[trigger] after[j]) implies m
                            <= after[j].seq by {
                            if j < i {
                                assert(before[j] == after[j]);
                                assert(es[j] == after[j]);
                            }
                        }
                        assert(is_lowest_seq(after, p, m));
                    },
                    None => {},
                }
            }
            i += 1;
        }
        proof {
            assert(self@.entries.take(i as int) =~= self@.entries);
            if let Some(m) = best {
                lemma_lowest_seq(self@.entries, p, m);
            }
        }
        best
    }

    /// The lowest sequence number that no path uses, if any.
    pub fn lowest_unlinked(&self) -> (r: Option<u64>)
        ensures
            r == lowest_seq(self@.entries, unlinked()),
    {
        let ghost p = unlinked();
        let mut best: Option<u64> = None;
        let mut i: usize = 0;
        while i < self.inner.len()
            invariant
                i <= self.inner@.len(),
                p == unlinked(),
                match best {
                    Some(m) => is_lowest_seq(self@.entries.take(i as int), p, m),
                    None => forall|j: int| 0 <= j < i ==> !p(#[trigger] self@.entries[j]),
                },
            decreases self.inner@.len() - i,
        {
            let ghost es = self@.entries;
            let ghost before = es.take(i as int);
            let ghost after = es.take(i + 1);
            assert(es[i as int] == self.inner@[i as int]@);
            assert(after =~= before.push(es[i as int]));
            let s: u64 = self.inner[i].seq;
            let better: bool = match best {
                Some(m) => s < m,
                None => true,
            };
            if self.inner[i].path_id.is_none() && better {
                best = Some(s);
            }
            proof {
                assert(after[i as int] == es[i as int]);
                match best {
                    Some(m) => {
                        if m != s || !p(es[i as int]) {
                            let w = choose|w: int|
                                0 <= w < before.len() && p(#[trigger] before[w]) && before[w].seq
                                    == m;
                            assert(after[w] == before[w]);
                        }
                        assert forall|j: int| 0 <= j < after.len() && p(#[trigger] after[j]) implies m
                            <= after[j].seq by {
                            if j < i {
                                assert(before[j] == after[j]);
                                assert(es[j] == after[j]);
                            }
                        }
                        assert(is_lowest_seq(after, p, m));
                    },
                    None => {},
                }
            }
            i += 1;
        }
        proof {
            assert(self@.entries.take(i as int) =~= self@.entries);
            if let Some(m) = best {
                lemma_lowest_seq(self@.entries, p, m);
            }
        }
        best
    }

    /// The number of entries that no path uses.
    pub fn count_unlinked(&self) -> (r: usize)
        ensures
            r == self@.entries.filter(unlinked()).len(),
    {
        let mut n: usize = 0;
        let mut i: usize = 0;
        assert(self@.entries.take(0).filter(unlinked()) =~= Seq::empty()) by {
            assert(self@.entries.take(0) =~= Seq::empty());
            reveal(Seq::filter);
        }
        while i < self.inner.len()
            invariant
                n <= i <= self.inner@.len(),
                n == self@.entries.take(i as int).filter(unlinked()).len(),
            decreases self.inner@.len() - i,
        {
            let ghost es = self@.entries;
            proof {
                assert(es[i as int] == self.inner@[i as int]@);
                assert(es.take(i + 1) =~= es.take(i as int).push(es[i as int]));
                es.take(i as int).lemma_filter_len_push(unlinked(), es[i as int]);
            }
            if self.inner[i].path_id.is_none() {
                n += 1;
            }
            i += 1;
        }
        assert(self@.entries.take(i as int) =~= self@.entries);
        n
    }

    /// Copies of the connection IDs of the entries, in their order.
    pub fn cids(&self) -> (r: Vec<ConnectionId>)
        ensures
            r@.map_values(|c: ConnectionId| c@) == self@.entries.map_values(|e: EntryView| e.cid),
    {
        let mut r: Vec<ConnectionId> = Vec::new();
        let mut i: usize = 0;
        while i < self.inner.len()
            invariant
                i <= self.inner@.len(),
                r@.len() == i,
                forall|j: int| 0 <= j < i ==> (#[trigger] r@[j])@ == self@.entries[j].cid,
            decreases self.inner@.len() - i,
        {
            assert(self@.entries[i as int] == self.inner@[i as int]@);
            r.push(self.inner[i].cid.clone());
            i += 1;
        }
        assert(r@.map_values(|c: ConnectionId| c@) =~= self@.entries.map_values(
            |e: EntryView| e.cid,
        ));
        r
    }
}

/// Adds `k` to the end of `q`, or takes its first occurrence away.
pub fn mark<T: SeqKey>(q: &mut VecDeque<T>, k: T, add: bool)
    ensures
        final(q)@ == marked(old(q)@, k, add),
{
    if add {
        q.push_back(k);
        return;
    }
    let ghost s = q@;
    let mut i: usize = 0;
    while i < q.len()
        invariant
            i <= s.len(),
            !add,
            q@ == s,
            s == old(q)@,
            forall|j: int| 0 <= j < i ==> s[j] != k,
        decreases s.len() - i,
    {
        if q[i].same(&k) {
            proof {
                assert(s[i as int] == k);
                assert(s.contains(k));
                s.index_of_first_ensures(k);
                let f = s.index_of_first(k).unwrap();
                assert(s[f] == k);
                assert(f == i);
            }
            let _ = q.remove(i);
            return;
        }
        i += 1;
    }
}

/// Takes the pairs of `path_id` away.
pub fn retain_other_paths(q: &mut VecDeque<(u64, u64)>, path_id: u64)
    ensures
        final(q)@ == old(q)@.filter(other_path(path_id)),
{
    let ghost s = q@;
    let ghost keep = other_path(path_id);
    let mut kept: VecDeque<(u64, u64)> = VecDeque::new();
    let mut i: usize = 0;
    proof {
        reveal(Seq::filter);
        assert(s.take(0) =~= Seq::empty());
    }
    while i < q.len()
        invariant
            i <= s.len(),
            q@ == s,
            keep == other_path(path_id),
            kept@ == s.take(i as int).filter(keep),
        decreases s.len() - i,
    {
        proof {
            assert(s.take(i + 1) =~= s.take(i as int).push(s[i as int]));
            s.take(i as int).lemma_filter_push(s[i as int], keep);
        }
        let k = q[i];
        if k.0 != path_id {
            kept.push_back(k);
        }
        i += 1;
    }
    assert(s.take(i as int) =~= s);
    *q = kept;
}

} // verus!
