//! What is done about lost frames once all of them are known.

use crate::cid::model::{mark_retired, IdsView};
use crate::error::Error;
use crate::multipath::frames::PATH_ABANDON_NO_ERROR;
use crate::send::lost::{Deferred, DeferredView};
use crate::send::state::{
    lemma_valid_with_conn, AbandonState, ConnFields, PathFields, PathLimits, PathView, Sender,
    SenderView, StatusState,
};
use vstd::prelude::*;

verus! {

/// Whether the path at position `i` is the first one with the given path ID.
pub open spec fn is_first_with_id(paths: Seq<PathView>, id: u64, i: int) -> bool {
    &&& 0 <= i < paths.len()
    &&& paths[i].fields.path_id == id
    &&& forall|j: int| 0 <= j < i ==> (#[trigger] paths[j]).fields.path_id != id
}

/// Whether some path has the given path ID.
pub open spec fn has_path_id(paths: Seq<PathView>, id: u64) -> bool {
    exists|i: int| 0 <= i < paths.len() && (#[trigger] paths[i]).fields.path_id == id
}

/// The position of the first path with the given path ID.
pub open spec fn first_with_id(paths: Seq<PathView>, id: u64) -> int {
    choose|i: int| is_first_with_id(paths, id, i)
}

/// The state once the loss of a PATH_ABANDON frame was dealt with. The frame is to
/// be sent again unless it was acknowledged; where the state of the path is gone,
/// it is sent for the connection.
pub open spec fn rearm_abandon(s: SenderView, id: u64) -> SenderView {
    if has_path_id(s.paths, id) {
        let i = first_with_id(s.paths, id);
        let p = s.path(i);
        if p.abandon.acked {
            s
        } else {
            s.with_path(
                i,
                PathFields { abandon: AbandonState { pending: true, ..p.abandon }, ..p },
            )
        }
    } else if s.abandoned.contains(id) && !(exists|k: int|
        0 <= k < s.abandon_queue.len() && (#[trigger] s.abandon_queue[k]).0 == id) {
        SenderView { abandon_queue: s.abandon_queue.push((id, PATH_ABANDON_NO_ERROR)), ..s }
    } else {
        s
    }
}

/// The state once the loss of a PATH_STATUS frame was dealt with: the status is to
/// be sent again where it was the latest one and was not acknowledged.
pub open spec fn rearm_status(s: SenderView, id: u64, seq_num: u64) -> SenderView {
    if has_path_id(s.paths, id) {
        let i = first_with_id(s.paths, id);
        let p = s.path(i);
        if seq_num == p.status.seq_num && !p.status.acked {
            s.with_path(
                i,
                PathFields { status: StatusState { pending: true, ..p.status }, ..p },
            )
        } else {
            s
        }
    } else {
        s
    }
}

/// Whether the connection IDs of a path ID are retired implicitly: it is abandoned,
/// or about to be.
pub open spec fn implicitly_retired(s: SenderView, id: u64) -> bool {
    ||| s.abandoned.contains(id)
    ||| exists|i: int|
        0 <= i < s.paths.len() && (#[trigger] s.paths[i]).fields.path_id == id
            && s.paths[i].fields.mp_closing
}

/// The state, and what is returned, once the loss of a PATH_RETIRE_CONNECTION_ID
/// frame was dealt with.
pub open spec fn rearm_retire(s: SenderView, id: u64, seq_num: u64) -> (
    SenderView,
    Result<(), Error>,
) {
    if implicitly_retired(s, id) {
        (s, Ok(()))
    } else {
        let (held, r) = mark_retired(
            s.ids.mp_retire,
            s.ids.mp_retire_capacity,
            (id, seq_num),
            true,
        );
        (SenderView { ids: IdsView { mp_retire: held, ..s.ids }, ..s }, r)
    }
}

/// The state, and what is returned, once the loss of a RETIRE_CONNECTION_ID frame
/// was dealt with: its connection ID belongs to path ID 0.
pub open spec fn rearm_legacy_retire(s: SenderView, seq_num: u64) -> (
    SenderView,
    Result<(), Error>,
) {
    if implicitly_retired(s, 0) {
        (s, Ok(()))
    } else {
        let (held, r) = mark_retired(s.ids.retire, s.ids.retire_capacity, seq_num, true);
        (SenderView { ids: IdsView { retire: held, ..s.ids }, ..s }, r)
    }
}

/// The state once lost PATH_ABANDON frames were dealt with one after the other.
pub open spec fn rearm_abandons(s: SenderView, ids: Seq<u64>) -> SenderView
    decreases ids.len(),
{
    if ids.len() == 0 {
        s
    } else {
        rearm_abandon(rearm_abandons(s, ids.drop_last()), ids.last())
    }
}

/// The state once lost PATH_STATUS frames were dealt with one after the other.
pub open spec fn rearm_statuses(s: SenderView, lost: Seq<(u64, u64)>) -> SenderView
    decreases lost.len(),
{
    if lost.len() == 0 {
        s
    } else {
        rearm_status(rearm_statuses(s, lost.drop_last()), lost.last().0, lost.last().1)
    }
}

/// The state once lost PATH_RETIRE_CONNECTION_ID frames were dealt with one after
/// the other, up to the first error.
pub open spec fn rearm_retires(s: SenderView, lost: Seq<(u64, u64)>) -> (
    SenderView,
    Result<(), Error>,
)
    decreases lost.len(),
{
    if lost.len() == 0 {
        (s, Ok(()))
    } else {
        let (t, r) = rearm_retires(s, lost.drop_last());
        match r {
            Ok(_) => rearm_retire(t, lost.last().0, lost.last().1),
            Err(e) => (t, Err(e)),
        }
    }
}

/// The state once lost RETIRE_CONNECTION_ID frames were dealt with one after the
/// other, up to the first error.
pub open spec fn rearm_legacy_retires(s: SenderView, lost: Seq<u64>) -> (
    SenderView,
    Result<(), Error>,
)
    decreases lost.len(),
{
    if lost.len() == 0 {
        (s, Ok(()))
    } else {
        let (t, r) = rearm_legacy_retires(s, lost.drop_last());
        match r {
            Ok(_) => rearm_legacy_retire(t, lost.last()),
            Err(e) => (t, Err(e)),
        }
    }
}

/// The state, and what is returned, once everything that was deferred is done.
pub open spec fn deferred_done(s: SenderView, d: DeferredView) -> (SenderView, Result<(), Error>) {
    let t = rearm_statuses(rearm_abandons(s, d.abandon), d.status);
    let (u, r) = rearm_retires(t, d.retire);
    match r {
        Ok(_) => rearm_legacy_retires(u, d.legacy_retire),
        Err(e) => (u, Err(e)),
    }
}

/// Once an error came up, nothing more is done.
proof fn lemma_retires_stop(s: SenderView, lost: Seq<(u64, u64)>, k: int)
    requires
        0 <= k <= lost.len(),
        rearm_retires(s, lost.take(k)).1 is Err,
    ensures
        rearm_retires(s, lost) == rearm_retires(s, lost.take(k)),
    decreases lost.len() - k,
{
    if k == lost.len() {
        assert(lost.take(k) =~= lost);
    } else {
        assert(lost.drop_last().take(k) =~= lost.take(k));
        lemma_retires_stop(s, lost.drop_last(), k);
    }
}

/// Once an error came up, nothing more is done.
proof fn lemma_legacy_retires_stop(s: SenderView, lost: Seq<u64>, k: int)
    requires
        0 <= k <= lost.len(),
        rearm_legacy_retires(s, lost.take(k)).1 is Err,
    ensures
        rearm_legacy_retires(s, lost) == rearm_legacy_retires(s, lost.take(k)),
    decreases lost.len() - k,
{
    if k == lost.len() {
        assert(lost.take(k) =~= lost);
    } else {
        assert(lost.drop_last().take(k) =~= lost.take(k));
        lemma_legacy_retires_stop(s, lost.drop_last(), k);
    }
}

impl Sender {
    /// The position of the first path with the given path ID.
    pub fn position_of(&self, id: u64) -> (r: Option<usize>)
        ensures
            match r {
                Some(i) => has_path_id(self@.paths, id) && first_with_id(self@.paths, id) == i && i
                    < self@.paths.len(),
                None => !has_path_id(self@.paths, id),
            },
    {
        let ghost ps = self@.paths;
        let mut i: usize = 0;
        while i < self.paths.len()
            invariant
                ps == self@.paths,
                i <= ps.len(),
                forall|j: int| 0 <= j < i ==> (#[trigger] ps[j]).fields.path_id != id,
            decreases ps.len() - i,
        {
            assert(ps[i as int] == self.paths@[i as int]@);
            if self.paths[i].fields.path_id == id {
                proof {
                    assert(is_first_with_id(ps, id, i as int));
                    let c = first_with_id(ps, id);
                    assert(is_first_with_id(ps, id, c));
                    if c < i {
                        assert(ps[c].fields.path_id != id);
                    }
                    if i < c {
                        assert(ps[i as int].fields.path_id != id);
                    }
                }
                return Some(i);
            }
            i += 1;
        }
        None
    }

    /// Whether the state of a path ID was deleted after it was abandoned.
    pub fn is_abandoned_path_id(&self, id: u64) -> (r: bool)
        ensures
            r == self@.abandoned.contains(id),
    {
        let mut i: usize = 0;
        while i < self.abandoned.len()
            invariant
                i <= self.abandoned@.len(),
                forall|j: int| 0 <= j < i ==> self.abandoned@[j] != id,
            decreases self.abandoned@.len() - i,
        {
            if self.abandoned[i] == id {
                return true;
            }
            i += 1;
        }
        false
    }

    /// Whether the connection IDs of a path ID are retired implicitly.
    pub fn is_implicitly_retired(&self, id: u64) -> (r: bool)
        ensures
            r == implicitly_retired(self@, id),
    {
        if self.is_abandoned_path_id(id) {
            return true;
        }
        let ghost ps = self@.paths;
        let mut i: usize = 0;
        while i < self.paths.len()
            invariant
                ps == self@.paths,
                i <= ps.len(),
                forall|j: int|
                    0 <= j < i ==> !((#[trigger] ps[j]).fields.path_id == id
                        && ps[j].fields.mp_closing),
            decreases ps.len() - i,
        {
            assert(ps[i as int] == self.paths@[i as int]@);
            let p = &self.paths[i].fields;
            if p.path_id == id && p.mp_closing {
                return true;
            }
            i += 1;
        }
        false
    }

    /// Deals with the loss of a PATH_ABANDON frame, which SHOULD be repeated.
    fn on_lost_abandon(&mut self, id: u64)
        requires
            old(self).wf(),
        ensures
            final(self).wf(),
            final(self)@ == rearm_abandon(old(self)@, id),
    {
        match self.position_of(id) {
            Some(i) => {
                let mut p: PathFields = self.paths[i].fields;
                if !p.abandon.acked {
                    p.abandon.pending = true;
                    self.set_path(i, p);
                }
            },
            None => {
                if self.is_abandoned_path_id(id) {
                    let mut k: usize = 0;
                    while k < self.abandon_queue.len()
                        invariant
                            k <= self.abandon_queue@.len(),
                            self.wf(),
                            self@ == old(self)@,
                            !has_path_id(self@.paths, id),
                            self@.abandoned.contains(id),
                            forall|j: int| 0 <= j < k ==> (#[trigger] self.abandon_queue@[j]).0 != id,
                        decreases self.abandon_queue@.len() - k,
                    {
                        if self.abandon_queue[k].0 == id {
                            return;
                        }
                        k += 1;
                    }
                    self.abandon_queue.push((id, PATH_ABANDON_NO_ERROR));
                    proof {
                        lemma_valid_with_conn(old(self)@, self@);
                    }
                }
            },
        }
    }

    /// Deals with the loss of a PATH_STATUS frame.
    fn on_lost_status(&mut self, id: u64, seq_num: u64)
        requires
            old(self).wf(),
        ensures
            final(self).wf(),
            final(self)@ == rearm_status(old(self)@, id, seq_num),
    {
        if let Some(i) = self.position_of(id) {
            let mut p: PathFields = self.paths[i].fields;
            // Only re-arm for the loss of the *latest* PATH_STATUS frame; a
            // superseded status frame must not be retransmitted.
            if seq_num == p.status.seq_num && !p.status.acked {
                p.status.pending = true;
                self.set_path(i, p);
            }
        }
    }

    /// Deals with the loss of a PATH_RETIRE_CONNECTION_ID frame.
    fn on_lost_retire(&mut self, id: u64, seq_num: u64) -> (r: Result<(), Error>)
        requires
            old(self).wf(),
        ensures
            final(self).wf(),
            (final(self)@, r) == rearm_retire(old(self)@, id, seq_num),
    {
        // Abandoned path IDs have their connection IDs implicitly retired: no
        // PATH_RETIRE_CONNECTION_ID is emitted for them.
        if self.is_implicitly_retired(id) {
            return Ok(());
        }
        let r = self.ids.mp_mark_retire_dcid(id, seq_num, true);
        proof {
            lemma_valid_with_conn(old(self)@, self@);
        }
        r
    }

    /// Deals with the loss of a RETIRE_CONNECTION_ID frame.
    fn on_lost_legacy_retire(&mut self, seq_num: u64) -> (r: Result<(), Error>)
        requires
            old(self).wf(),
        ensures
            final(self).wf(),
            (final(self)@, r) == rearm_legacy_retire(old(self)@, seq_num),
    {
        // These connection IDs belong to path 0: once it is abandoned they are
        // implicitly retired.
        if self.is_implicitly_retired(0) {
            return Ok(());
        }
        let r = self.ids.mark_retire_dcid_seq(seq_num, true);
        proof {
            lemma_valid_with_conn(old(self)@, self@);
        }
        r
    }

    /// Does everything that was deferred.
    pub fn apply_deferred(&mut self, d: &Deferred) -> (r: Result<(), Error>)
        requires
            old(self).wf(),
        ensures
            final(self).wf(),
            (final(self)@, r) == deferred_done(old(self)@, d@),
    {
        let ghost s = self@;
        let abandon = d.abandon.as_slice();
        let status = d.status.as_slice();
        let retire = d.retire.as_slice();
        let legacy_retire = d.legacy_retire.as_slice();
        let mut i: usize = 0;
        assert(d.abandon@.take(0) =~= Seq::empty());
        while i < abandon.len()
            invariant
                abandon@ == d.abandon@,
                i <= d.abandon@.len(),
                self.wf(),
                self@ == rearm_abandons(s, d.abandon@.take(i as int)),
            decreases d.abandon@.len() - i,
        {
            assert(d.abandon@.take(i + 1).drop_last() =~= d.abandon@.take(i as int));
            self.on_lost_abandon(abandon[i]);
            i += 1;
        }
        assert(d.abandon@.take(i as int) =~= d.abandon@);
        let ghost s1 = self@;
        let mut j: usize = 0;
        assert(d.status@.take(0) =~= Seq::empty());
        while j < status.len()
            invariant
                status@ == d.status@,
                j <= d.status@.len(),
                self.wf(),
                self@ == rearm_statuses(s1, d.status@.take(j as int)),
            decreases d.status@.len() - j,
        {
            assert(d.status@.take(j + 1).drop_last() =~= d.status@.take(j as int));
            self.on_lost_status(status[j].0, status[j].1);
            j += 1;
        }
        assert(d.status@.take(j as int) =~= d.status@);
        let ghost s2 = self@;
        let mut k: usize = 0;
        assert(d.retire@.take(0) =~= Seq::empty());
        while k < retire.len()
            invariant
                retire@ == d.retire@,
                k <= d.retire@.len(),
                self.wf(),
                (self@, Ok::<(), Error>(())) == rearm_retires(s2, d.retire@.take(k as int)),
                s1 == rearm_abandons(s, d.abandon@),
                s2 == rearm_statuses(s1, d.status@),
                s == old(self)@,
            decreases d.retire@.len() - k,
        {
            assert(d.retire@.take(k + 1).drop_last() =~= d.retire@.take(k as int));
            if let Err(e) = self.on_lost_retire(retire[k].0, retire[k].1) {
                proof {
                    lemma_retires_stop(s2, d.retire@, k + 1);
                }
                return Err(e);
            }
            k += 1;
        }
        assert(d.retire@.take(k as int) =~= d.retire@);
        let ghost s3 = self@;
        let mut m: usize = 0;
        assert(d.legacy_retire@.take(0) =~= Seq::empty());
        while m < legacy_retire.len()
            invariant
                legacy_retire@ == d.legacy_retire@,
                m <= d.legacy_retire@.len(),
                self.wf(),
                (self@, Ok::<(), Error>(())) == rearm_legacy_retires(
                    s3,
                    d.legacy_retire@.take(m as int),
                ),
                s1 == rearm_abandons(s, d.abandon@),
                s2 == rearm_statuses(s1, d.status@),
                (s3, Ok::<(), Error>(())) == rearm_retires(s2, d.retire@),
                s == old(self)@,
            decreases d.legacy_retire@.len() - m,
        {
            assert(d.legacy_retire@.take(m + 1).drop_last() =~= d.legacy_retire@.take(m as int));
            if let Err(e) = self.on_lost_legacy_retire(legacy_retire[m]) {
                proof {
                    lemma_legacy_retires_stop(s3, d.legacy_retire@, m + 1);
                }
                return Err(e);
            }
            m += 1;
        }
        assert(d.legacy_retire@.take(m as int) =~= d.legacy_retire@);
        Ok(())
    }
}

/// What keeps another path from being opened.
#[derive(Clone, Copy, Debug, PartialEq, Eq, Structural)]
pub enum NewPathOutcome {
    /// Nothing does.
    Possible,
    /// All the path IDs up to the peer's limit are in use.
    Exhausted {
        /// The limit.
        max_path_id: u64,
    },
    /// The peer has not issued a connection ID for the next path ID.
    NoCid {
        /// The path ID.
        path_id: u64,
        /// The sequence number of the next expected connection ID.
        next_seq: u64,
    },
}

/// The limits once lost PATHS_BLOCKED and PATH_CIDS_BLOCKED frames were dealt with:
/// they carry a point-in-time value, so that one is sent again with the current
/// value where what it said still holds.
pub open spec fn rearm_blocked(l: PathLimits, d: DeferredView, outcome: NewPathOutcome) -> PathLimits {
    match outcome {
        NewPathOutcome::Exhausted { max_path_id } => if d.paths_blocked {
            PathLimits { paths_blocked_pending: Some(max_path_id), ..l }
        } else {
            l
        },
        NewPathOutcome::NoCid { path_id, next_seq } => if d.cids_blocked {
            PathLimits {
                cids_blocked_path: Some(path_id),
                cids_blocked_seq: next_seq,
                ..l
            }
        } else {
            l
        },
        NewPathOutcome::Possible => l,
    }
}

impl Sender {
    /// Deals with the loss of PATHS_BLOCKED and PATH_CIDS_BLOCKED frames, given
    /// what keeps another path from being opened now.
    pub fn rearm_blocked_signals(&mut self, d: &Deferred, outcome: NewPathOutcome)
        requires
            old(self).wf(),
        ensures
            final(self).wf(),
            final(self)@ == old(self)@.with_conn(
                ConnFields {
                    limits: rearm_blocked(old(self)@.conn.limits, d@, outcome),
                    ..old(self)@.conn
                },
            ),
    {
        let mut c: ConnFields = self.conn;
        match outcome {
            NewPathOutcome::Exhausted { max_path_id } => {
                if d.paths_blocked {
                    c.limits.paths_blocked_pending = Some(max_path_id);
                }
            },
            NewPathOutcome::NoCid { path_id, next_seq } => {
                if d.cids_blocked {
                    c.limits.cids_blocked_path = Some(path_id);
                    c.limits.cids_blocked_seq = next_seq;
                }
            },
            NewPathOutcome::Possible => {},
        }
        self.set_conn(c);
    }
}

} // verus!
