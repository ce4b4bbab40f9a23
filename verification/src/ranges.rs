//! Sets of packet numbers.

use core::ops::Range;
use vstd::prelude::*;

verus! {

/// A set of numbers, kept as ranges that neither overlap nor touch each other.
#[derive(Debug, PartialEq, Eq)]
pub struct RangeSet {
    /// The start and the end of each range, the end not included, in increasing
    /// order.
    inner: Vec<(u64, u64)>,
}

impl View for RangeSet {
    type V = Seq<(u64, u64)>;

    closed spec fn view(&self) -> Seq<(u64, u64)> {
        self.inner@
    }
}

/// Ranges that are not empty, in increasing order, with a gap between each and
/// the next.
pub open spec fn canonical(rs: Seq<(u64, u64)>) -> bool {
    &&& forall|i: int| 0 <= i < rs.len() ==> (#[trigger] rs[i]).0 < rs[i].1
    &&& forall|i: int, j: int|
        0 <= i < j < rs.len() ==> (#[trigger] rs[i]).1 < (#[trigger] rs[j]).0
}

/// Whether `x` is in one of the ranges.
pub open spec fn covers(rs: Seq<(u64, u64)>, x: int) -> bool {
    exists|i: int| 0 <= i < rs.len() && (#[trigger] rs[i]).0 <= x < rs[i].1
}

/// Whether the ranges `a`, together with `p` where it is pending, have the same
/// numbers as the ranges `b` together with `q`.
spec fn same_numbers(
    a: Seq<(u64, u64)>,
    pending: bool,
    p: (u64, u64),
    b: Seq<(u64, u64)>,
    q: (u64, u64),
) -> bool {
    forall|x: int|
        #![trigger covers(a, x)]
        #![trigger covers(b, x)]
        (covers(a, x) || (pending && p.0 <= x < p.1)) <==> (covers(b, x) || q.0 <= x < q.1)
}

/// One more range on both sides keeps the numbers the same: it is added at the
/// end, or follows the pending one, or is merged with it.
proof fn lemma_same_numbers_step(
    was: (Seq<(u64, u64)>, bool, (u64, u64)),
    now: (Seq<(u64, u64)>, bool, (u64, u64)),
    b: Seq<(u64, u64)>,
    q: (u64, u64),
    r: (u64, u64),
)
    requires
        same_numbers(was.0, was.1, was.2, b, q),
        r.0 < r.1,
        was.2.0 < was.2.1,
        ({
            ||| now == (was.0.push(r), was.1, was.2)
            ||| was.1 && !now.1 && now.0 == was.0.push(was.2).push(r)
            ||| {
                &&& was.1 && now.1 && now.0 == was.0
                &&& r.0 <= was.2.1 && was.2.0 <= r.1
                &&& now.2.0 == if r.0 < was.2.0 { r.0 } else { was.2.0 }
                &&& now.2.1 == if r.1 > was.2.1 { r.1 } else { was.2.1 }
            }
        }),
    ensures
        same_numbers(now.0, now.1, now.2, b.push(r), q),
{
    assert forall|x: int|
        #![trigger covers(now.0, x)]
        #![trigger covers(b.push(r), x)]
        (covers(now.0, x) || (now.1 && now.2.0 <= x < now.2.1)) <==> (covers(b.push(r), x) || q.0
            <= x < q.1) by {
        assert((covers(was.0, x) || (was.1 && was.2.0 <= x < was.2.1)) == (covers(b, x) || q.0 <= x
            < q.1));
        lemma_push_covers(b, r, x);
        lemma_push_covers(was.0, r, x);
        lemma_push_covers(was.0, was.2, x);
        lemma_push_covers(was.0.push(was.2), r, x);
    }
}

/// A set of numbers has one canonical form: ranges in that form are the same
/// where their numbers are the same.
pub proof fn law_canonical_form_is_unique(a: Seq<(u64, u64)>, b: Seq<(u64, u64)>)
    requires
        canonical(a),
        canonical(b),
        forall|x: int| covers(a, x) == covers(b, x),
    ensures
        a == b,
    decreases a.len(),
{
    if a.len() == 0 {
        if b.len() > 0 {
            assert(b[0].0 <= b[0].0 < b[0].1);
            assert(covers(b, b[0].0 as int));
            assert(covers(a, b[0].0 as int));
        }
        assert(a =~= b);
    } else if b.len() == 0 {
        assert(a[0].0 <= a[0].0 < a[0].1);
        assert(covers(a, a[0].0 as int));
        assert(covers(b, a[0].0 as int));
    } else {
        let la = a.last();
        let lb = b.last();
        lemma_last_covers(a);
        lemma_last_covers(b);
        // The largest numbers agree.
        assert(covers(a, lb.1 - 1) && covers(b, la.1 - 1));
        assert(la.1 == lb.1);
        // So do the numbers right below the last ranges.
        assert(covers(a, lb.0 - 1) == covers(b, lb.0 - 1));
        assert(covers(a, la.0 - 1) == covers(b, la.0 - 1));
        assert(la.0 == lb.0) by {
            if la.0 < lb.0 {
                assert(a[a.len() - 1].0 <= lb.0 - 1 < a[a.len() - 1].1);
                assert(covers(a, lb.0 - 1));
            }
            if lb.0 < la.0 {
                assert(b[b.len() - 1].0 <= la.0 - 1 < b[b.len() - 1].1);
                assert(covers(b, la.0 - 1));
            }
        }
        let fa = a.drop_last();
        let fb = b.drop_last();
        assert forall|x: int| covers(fa, x) == covers(fb, x) by {
            lemma_drop_last_covers(a, x);
            lemma_drop_last_covers(b, x);
            assert(covers(a, x) == covers(b, x));
        }
        law_canonical_form_is_unique(fa, fb);
        assert(a =~= fa.push(la));
        assert(b =~= fb.push(lb));
    }
}

/// The last range holds the largest number, and the number below it is missing.
proof fn lemma_last_covers(a: Seq<(u64, u64)>)
    requires
        canonical(a),
        a.len() > 0,
    ensures
        covers(a, a.last().1 - 1),
        forall|x: int| x >= a.last().1 ==> !covers(a, x),
        !covers(a, a.last().0 - 1),
{
    let n = a.len() - 1;
    assert(a[n].0 <= a[n].1 - 1 < a[n].1);
    assert forall|x: int| x >= a.last().1 implies !covers(a, x) by {
        if covers(a, x) {
            let i = choose|i: int| 0 <= i < a.len() && (#[trigger] a[i]).0 <= x < a[i].1;
            if i < n {
                assert(a[i].1 < a[n].0);
            }
        }
    }
    if covers(a, a.last().0 - 1) {
        let x = a.last().0 - 1;
        let i = choose|i: int| 0 <= i < a.len() && (#[trigger] a[i]).0 <= x < a[i].1;
        if i < n {
            assert(a[i].1 < a[n].0);
        }
    }
}

/// What is covered without the last range.
proof fn lemma_drop_last_covers(a: Seq<(u64, u64)>, x: int)
    requires
        canonical(a),
        a.len() > 0,
    ensures
        canonical(a.drop_last()),
        covers(a.drop_last(), x) == (covers(a, x) && x < a.last().0),
{
    let f = a.drop_last();
    let n = a.len() - 1;
    assert forall|i: int, j: int| 0 <= i < j < f.len() implies (#[trigger] f[i]).1 < (
    #[trigger] f[j]).0 by {
        assert(f[i] == a[i] && f[j] == a[j]);
    }
    if covers(f, x) {
        let i = choose|i: int| 0 <= i < f.len() && (#[trigger] f[i]).0 <= x < f[i].1;
        assert(a[i] == f[i]);
        assert(a[i].1 < a[n].0);
    }
    if covers(a, x) && x < a.last().0 {
        let i = choose|i: int| 0 <= i < a.len() && (#[trigger] a[i]).0 <= x < a[i].1;
        assert(f[i] == a[i]);
    }
}

/// What is covered with one more range at the end.
pub proof fn lemma_push_covers(a: Seq<(u64, u64)>, r: (u64, u64), x: int)
    ensures
        covers(a.push(r), x) == (covers(a, x) || r.0 <= x < r.1),
{
    let t = a.push(r);
    if covers(a, x) {
        let i = choose|i: int| 0 <= i < a.len() && (#[trigger] a[i]).0 <= x < a[i].1;
        assert(t[i] == a[i]);
    }
    if r.0 <= x < r.1 {
        assert(t[a.len() as int] == r);
    }
    if covers(t, x) {
        let i = choose|i: int| 0 <= i < t.len() && (#[trigger] t[i]).0 <= x < t[i].1;
        if i < a.len() {
            assert(a[i] == t[i]);
        }
    }
}

/// What is covered with one more range at the start.
pub proof fn lemma_prepend_covers(a: Seq<(u64, u64)>, r: (u64, u64), x: int)
    ensures
        covers(seq![r] + a, x) == (covers(a, x) || r.0 <= x < r.1),
{
    let t = seq![r] + a;
    if covers(a, x) {
        let i = choose|i: int| 0 <= i < a.len() && (#[trigger] a[i]).0 <= x < a[i].1;
        assert(t[i + 1] == a[i]);
    }
    if r.0 <= x < r.1 {
        assert(t[0] == r);
    }
    if covers(t, x) {
        let i = choose|i: int| 0 <= i < t.len() && (#[trigger] t[i]).0 <= x < t[i].1;
        if i > 0 {
            assert(a[i - 1] == t[i]);
        }
    }
}

impl Default for RangeSet {
    fn default() -> (r: Self)
        ensures
            r@ == Seq::<(u64, u64)>::empty(),
    {
        RangeSet { inner: Vec::new() }
    }
}

impl Clone for RangeSet {
    fn clone(&self) -> (r: Self)
        ensures
            r@ == self@,
    {
        let mut inner: Vec<(u64, u64)> = Vec::new();
        let mut i: usize = 0;
        while i < self.inner.len()
            invariant
                i <= self.inner@.len(),
                inner@ == self.inner@.take(i as int),
            decreases self.inner@.len() - i,
        {
            inner.push(self.inner[i]);
            i += 1;
            assert(inner@ =~= self.inner@.take(i as int));
        }
        assert(inner@ =~= self.inner@);
        RangeSet { inner }
    }
}

impl RangeSet {
    /// The ranges are in canonical form.
    pub open spec fn wf(&self) -> bool {
        canonical(self@)
    }

    /// Adds the numbers of a range.
    pub fn insert(&mut self, item: Range<u64>)
        requires
            old(self).wf(),
        ensures
            final(self).wf(),
            forall|x: int|
                covers(final(self)@, x) == (covers(old(self)@, x) || item.start <= x < item.end),
    {
        let (mut start, mut end) = (item.start, item.end);
        if start >= end {
            return;
        }
        let ghost before = self.inner@;
        let mut out: Vec<(u64, u64)> = Vec::new();
        let mut placed: bool = false;
        let mut i: usize = 0;
        assert(before.take(0) =~= Seq::empty());
        while i < self.inner.len()
            invariant
                i <= before.len(),
                self.inner@ == before,
                before == old(self)@,
                canonical(before),
                start < end,
                item.start < item.end,
                start <= item.start,
                item.end <= end,
                canonical(out@),
                !placed ==> forall|k: int| 0 <= k < out@.len() ==> (#[trigger] out@[k]).1 < start,
                same_numbers(out@, !placed, (start, end), before.take(i as int), (item.start, item.end)),
                placed ==> i < before.len() ==> forall|k: int|
                    0 <= k < out@.len() ==> (#[trigger] out@[k]).1 < before[i as int].0,
                !placed && i < before.len() ==> forall|k: int|
                    0 <= k < out@.len() ==> (#[trigger] out@[k]).1 < before[i as int].0,
            decreases before.len() - i,
        {
            let r: (u64, u64) = self.inner[i];
            let ghost seen = before.take(i as int);
            let ghost was = out@;
            let ghost was_start = start;
            let ghost was_end = end;
            let ghost was_placed = placed;
            if placed {
                out.push(r);
            } else if r.1 < start {
                out.push(r);
            } else if end < r.0 {
                out.push((start, end));
                out.push(r);
                placed = true;
            } else {
                if r.0 < start {
                    start = r.0;
                }
                if r.1 > end {
                    end = r.1;
                }
            }
            i += 1;
            proof {
                assert(before.take(i as int) =~= seen.push(r));
                lemma_same_numbers_step(
                    (was, !was_placed, (was_start, was_end)),
                    (out@, !placed, (start, end)),
                    seen,
                    (item.start, item.end),
                    r,
                );
            }
        }
        assert(before.take(i as int) =~= before);
        if !placed {
            let ghost was = out@;
            out.push((start, end));
            proof {
                assert forall|x: int|
                    #![trigger covers(out@, x)]
                    covers(out@, x) == (covers(before, x) || item.start <= x < item.end) by {
                    lemma_push_covers(was, (start, end), x);
                }
            }
        }
        self.inner = out;
    }

    /// The number of ranges.
    pub fn len(&self) -> (r: usize)
        ensures
            r == self@.len(),
    {
        self.inner.len()
    }

    /// The start and the end of the range at position `i`.
    pub fn range(&self, i: usize) -> (r: (u64, u64))
        requires
            i < self@.len(),
        ensures
            r == self@[i as int],
    {
        self.inner[i]
    }

    /// The largest number, if any.
    pub fn last(&self) -> (r: Option<u64>)
        requires
            self.wf(),
        ensures
            match r {
                Some(m) => self@.len() > 0 && m == self@.last().1 - 1 && covers(self@, m as int)
                    && forall|x: int| covers(self@, x) ==> x <= m,
                None => self@.len() == 0,
            },
    {
        let n: usize = self.inner.len();
        if n == 0 {
            return None;
        }
        proof {
            lemma_last_covers(self@);
        }
        Some(self.inner[n - 1].1 - 1)
    }
}

} // verus!
