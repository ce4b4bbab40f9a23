//! Collections with a limit on the number of their elements.

use crate::error::Error;
use vstd::prelude::*;

verus! {

/// A key of a retirement queue: a sequence number, alone or together with the
/// path it belongs to.
pub trait SeqKey: Sized {
    /// The key of sequence number `seq` on path `path_id`.
    spec fn key_of(path_id: u64, seq: u64) -> Self;

    /// Builds the key of sequence number `seq` on path `path_id`.
    fn key(path_id: u64, seq: u64) -> (r: Self)
        ensures
            r == Self::key_of(path_id, seq),
    ;

    /// A key equal to this one.
    fn duplicate(&self) -> (r: Self)
        ensures
            r == *self,
    ;

    /// Whether the two keys are the same one.
    fn same(&self, other: &Self) -> (r: bool)
        ensures
            r == (*self == *other),
    ;
}

impl SeqKey for u64 {
    open spec fn key_of(path_id: u64, seq: u64) -> Self {
        seq
    }

    fn key(path_id: u64, seq: u64) -> (r: Self) {
        seq
    }

    fn duplicate(&self) -> (r: Self) {
        *self
    }

    fn same(&self, other: &Self) -> (r: bool) {
        *self == *other
    }
}

impl SeqKey for (u64, u64) {
    open spec fn key_of(path_id: u64, seq: u64) -> Self {
        (path_id, seq)
    }

    fn key(path_id: u64, seq: u64) -> (r: Self) {
        (path_id, seq)
    }

    fn duplicate(&self) -> (r: Self) {
        *self
    }

    fn same(&self, other: &Self) -> (r: bool) {
        self.0 == other.0 && self.1 == other.1
    }
}

/// Whether `e` can be put into a set that holds `held` and is limited to `cap`
/// elements: an element that is there already takes no room.
pub open spec fn fits<T>(held: Set<T>, cap: nat, e: T) -> bool {
    held.contains(e) || held.len() < cap
}

/// The pairs of other paths than `path_id` satisfy this.
pub open spec fn other_path(path_id: u64) -> spec_fn((u64, u64)) -> bool {
    |k: (u64, u64)| k.0 != path_id
}

/// A set bounded by `capacity`.
pub struct BoundedSeqSet<T: SeqKey> {
    /// The elements, each of them once.
    inner: Vec<T>,
    /// The maximum number of elements that the set can have.
    capacity: usize,
}

impl<T: SeqKey> View for BoundedSeqSet<T> {
    type V = Set<T>;

    closed spec fn view(&self) -> Set<T> {
        self.inner@.to_set()
    }
}

impl<T: SeqKey> BoundedSeqSet<T> {
    /// The maximum number of elements that the set can have.
    pub closed spec fn limit(&self) -> usize {
        self.capacity
    }

    /// No element is stored twice and the limit is respected.
    pub closed spec fn wf(&self) -> bool {
        self.inner@.no_duplicates() && self.inner@.len() <= self.capacity
    }

    /// What the set's bound means for its contents.
    pub proof fn lemma_bounded(&self)
        requires
            self.wf(),
        ensures
            self@.finite(),
            self@.len() <= self.limit(),
    {
        self.inner@.unique_seq_to_set();
        vstd::seq_lib::seq_to_set_is_finite(self.inner@);
    }

    /// Creates a set bounded by `capacity`.
    pub fn new(capacity: usize) -> (r: Self)
        ensures
            r.wf(),
            r@ == Set::<T>::empty(),
            r.limit() == capacity,
    {
        let r = BoundedSeqSet { inner: Vec::new(), capacity };
        assert(r@ =~= Set::<T>::empty());
        r
    }

    /// The position of `e` among the stored elements.
    fn position(&self, e: &T) -> (r: Option<usize>)
        ensures
            match r {
                Some(i) => i < self.inner@.len() && self.inner@[i as int] == *e,
                None => !self@.contains(*e),
            },
    {
        let mut i: usize = 0;
        while i < self.inner.len()
            invariant
                i <= self.inner@.len(),
                forall|j: int| 0 <= j < i ==> self.inner@[j] != *e,
            decreases self.inner@.len() - i,
        {
            if self.inner[i].same(e) {
                return Some(i);
            }
            i += 1;
        }
        None
    }

    /// Inserts `e`, unless the set is full. An element that is already present
    /// does not consume any additional capacity.
    pub fn insert(&mut self, e: T) -> (r: Result<bool, Error>)
        requires
            old(self).wf(),
        ensures
            final(self).wf(),
            final(self).limit() == old(self).limit(),
            fits(old(self)@, old(self).limit() as nat, e) ==> {
                &&& r == Ok::<bool, Error>(!old(self)@.contains(e))
                &&& final(self)@ == old(self)@.insert(e)
            },
            !fits(old(self)@, old(self).limit() as nat, e) ==> {
                &&& r == Err::<bool, Error>(Error::IdLimit)
                &&& final(self)@ == old(self)@
            },
    {
        proof {
            self.inner@.unique_seq_to_set();
        }
        if let Some(i) = self.position(&e) {
            assert(self@.contains(self.inner@[i as int]));
            assert(self@.insert(e) =~= self@);
            return Ok(false);
        }
        if self.inner.len() >= self.capacity {
            return Err(Error::IdLimit);
        }
        let ghost before = self.inner@;
        self.inner.push(e);
        proof {
            assert(self.inner@ =~= before.push(e));
            before.lemma_push_to_set_commute(e);
            assert(!before.contains(e));
        }
        Ok(true)
    }

    /// Updates the maximum capacity of the set to `new_capacity`. The capacity
    /// only grows: this does nothing if `new_capacity` is lower than or equal
    /// to the current one.
    pub fn set_capacity(&mut self, new_capacity: usize)
        requires
            old(self).wf(),
        ensures
            final(self).wf(),
            final(self)@ == old(self)@,
            final(self).limit() == if new_capacity > old(self).limit() {
                new_capacity
            } else {
                old(self).limit()
            },
    {
        if new_capacity > self.capacity {
            self.capacity = new_capacity;
        }
    }

    /// Removes `e`, and says whether it was there.
    pub fn remove(&mut self, e: &T) -> (r: bool)
        requires
            old(self).wf(),
        ensures
            final(self).wf(),
            final(self).limit() == old(self).limit(),
            r == old(self)@.contains(*e),
            final(self)@ == old(self)@.remove(*e),
    {
        let ghost before = self.inner@;
        if let Some(i) = self.position(e) {
            assert(self@.contains(before[i as int]));
            self.inner.remove(i);
            proof {
                let after = self.inner@;
                assert(after =~= before.remove(i as int));
                assert forall|x: T| after.to_set().contains(x) == before.to_set().remove(
                    *e,
                ).contains(x) by {
                    if after.contains(x) {
                        let j = choose|j: int| 0 <= j < after.len() && after[j] == x;
                        let k = if j < i { j } else { j + 1 };
                        assert(before[k] == x);
                    }
                    if before.contains(x) && x != *e {
                        let k = choose|k: int| 0 <= k < before.len() && before[k] == x;
                        let j = if k < i { k } else { k - 1 };
                        assert(after[j] == x);
                    }
                }
                assert(after.to_set() =~= before.to_set().remove(*e));
            }
            return true;
        }
        assert(self@.remove(*e) =~= self@);
        false
    }

    /// Removes every element.
    pub fn clear(&mut self)
        requires
            old(self).wf(),
        ensures
            final(self).wf(),
            final(self).limit() == old(self).limit(),
            final(self)@ == Set::<T>::empty(),
    {
        self.inner.clear();
        assert(self@ =~= Set::<T>::empty());
    }

    /// Whether the set has no elements.
    pub fn is_empty(&self) -> (r: bool)
        ensures
            r == (self@ == Set::<T>::empty()),
    {
        let r = self.inner.len() == 0;
        proof {
            if r {
                assert(self@ =~= Set::<T>::empty());
            } else {
                assert(self@.contains(self.inner@[0]));
            }
        }
        r
    }

    /// The elements, each of them once, in no particular order.
    pub fn elements(&self) -> (r: Vec<T>)
        requires
            self.wf(),
        ensures
            r@.no_duplicates(),
            r@.to_set() == self@,
    {
        let mut r: Vec<T> = Vec::new();
        let mut i: usize = 0;
        while i < self.inner.len()
            invariant
                i <= self.inner@.len(),
                r@ == self.inner@.take(i as int),
            decreases self.inner@.len() - i,
        {
            r.push(self.inner[i].duplicate());
            i += 1;
            assert(r@ =~= self.inner@.take(i as int));
        }
        assert(r@ =~= self.inner@);
        r
    }
}

impl BoundedSeqSet<(u64, u64)> {
    /// Removes every pair whose first component is `path_id`.
    pub fn remove_path(&mut self, path_id: u64)
        requires
            old(self).wf(),
        ensures
            final(self).wf(),
            final(self).limit() == old(self).limit(),
            final(self)@ == old(self)@.filter(other_path(path_id)),
    {
        let ghost before = self.inner@;
        let ghost keep = other_path(path_id);
        let mut i: usize = 0;
        while i < self.inner.len()
            invariant
                i <= self.inner@.len(),
                self.inner@.len() <= before.len(),
                self.capacity == old(self).capacity,
                self.inner@.no_duplicates(),
                keep == other_path(path_id),
                forall|j: int| 0 <= j < i ==> (#[trigger] self.inner@[j]).0 != path_id,
                forall|k: (u64, u64)|
                    k.0 != path_id ==> (#[trigger] self.inner@.contains(k) <==> before.contains(k)),
                forall|k: (u64, u64)| #[trigger] self.inner@.contains(k) ==> before.contains(k),
            decreases self.inner@.len() - i,
        {
            let ghost now = self.inner@;
            if self.inner[i].0 == path_id {
                self.inner.remove(i);
                proof {
                    let after = self.inner@;
                    assert(after =~= now.remove(i as int));
                    assert forall|k: (u64, u64)| #[trigger] after.contains(k) implies now.contains(
                        k,
                    ) by {
                        let j = choose|j: int| 0 <= j < after.len() && after[j] == k;
                        let m = if j < i { j } else { j + 1 };
                        assert(now[m] == k);
                    }
                    assert forall|k: (u64, u64)| k.0 != path_id implies (
                    #[trigger] after.contains(k) <==> before.contains(k)) by {
                        if now.contains(k) {
                            let m = choose|m: int| 0 <= m < now.len() && now[m] == k;
                            let j = if m < i { m } else { m - 1 };
                            assert(after[j] == k);
                        }
                    }
                }
            } else {
                i += 1;
            }
        }
        proof {
            assert forall|k: (u64, u64)|
                self.inner@.to_set().contains(k) == before.to_set().filter(keep).contains(k) by {
                if self.inner@.contains(k) {
                    let j = choose|j: int| 0 <= j < self.inner@.len() && self.inner@[j] == k;
                    assert(self.inner@[j].0 != path_id);
                }
            }
            assert(self@ =~= before.to_set().filter(keep));
        }
    }
}

} // verus!
