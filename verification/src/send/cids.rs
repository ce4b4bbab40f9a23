//! Frames that announce and retire connection IDs.

use crate::bytes::be_bytes;
use crate::cid::entries::{entry_with_seq, EntryView};
use crate::cid::model::{marked, IdsView};
use crate::cid::ConnectionIdentifiers;
use crate::error::Error;
use crate::frame::{Frame, FrameView};
use crate::send::packing::{Packing, PackingView};
use crate::send::state::{lemma_valid_with_conn, PathFields, Sender, SenderView};
use vstd::prelude::*;

verus! {

/// The NEW_CONNECTION_ID frame of a source connection ID of path 0.
pub open spec fn new_cid_frame(ids: IdsView, seq: u64) -> Option<FrameView> {
    match entry_with_seq(ids.scids.entries, seq) {
        Some(EntryView { cid, reset_token: Some(token), .. }) => Some(
            FrameView::NewConnectionId {
                seq_num: seq,
                retire_prior_to: ids.retire_prior_to,
                conn_id: cid,
                reset_token: be_bytes(token as nat, 16),
            },
        ),
        _ => None,
    }
}

/// The PATH_NEW_CONNECTION_ID frame of a source connection ID of a path.
pub open spec fn path_new_cid_frame(ids: IdsView, path_id: u64, seq: u64) -> Option<FrameView> {
    match entry_with_seq(ids.scids_of(path_id), seq) {
        Some(EntryView { cid, reset_token: Some(token), .. }) => Some(
            FrameView::PathNewConnectionId {
                path_id,
                seq_num: seq,
                retire_prior_to: if path_id == 0 {
                    ids.retire_prior_to
                } else {
                    ids.pools[path_id].retire_prior_to
                },
                conn_id: cid,
                reset_token: token,
            },
        ),
        _ => None,
    }
}

/// The connection IDs and the packet once NEW_CONNECTION_ID frames were added for
/// those to advertise, in their order, up to the first that finds no room.
pub open spec fn announce_cids(ids: IdsView, p: PackingView) -> (
    IdsView,
    PackingView,
    Result<(), Error>,
)
    decreases ids.advertise.len(),
{
    if ids.advertise.len() == 0 {
        (ids, p, Ok(()))
    } else {
        let seq = ids.advertise[0];
        match new_cid_frame(ids, seq) {
            None => (ids, p, Err(Error::InvalidState)),
            Some(f) => if p.has_room(f) {
                announce_cids(
                    IdsView { advertise: ids.advertise.skip(1), ..ids },
                    p.with(f).eliciting(),
                )
            } else {
                (ids, p, Ok(()))
            },
        }
    }
}

/// The connection IDs and the packet once PATH_NEW_CONNECTION_ID frames were added
/// for those to advertise, in their order, up to the first that finds no room.
pub open spec fn announce_path_cids(ids: IdsView, p: PackingView) -> (
    IdsView,
    PackingView,
    Result<(), Error>,
)
    decreases ids.mp_advertise.len(),
{
    if ids.mp_advertise.len() == 0 {
        (ids, p, Ok(()))
    } else {
        let (path_id, seq) = ids.mp_advertise[0];
        match path_new_cid_frame(ids, path_id, seq) {
            None => (ids, p, Err(Error::InvalidState)),
            Some(f) => if p.has_room(f) {
                announce_path_cids(
                    IdsView { mp_advertise: ids.mp_advertise.skip(1), ..ids },
                    p.with(f).eliciting(),
                )
            } else {
                (ids, p, Ok(()))
            },
        }
    }
}

/// Taking the first one away from those to advertise leaves the others.
proof fn lemma_unmark_first<T>(q: Seq<T>)
    requires
        q.len() > 0,
    ensures
        marked(q, q[0], false) == q.skip(1),
{
    assert(q.contains(q[0]));
    q.index_of_first_ensures(q[0]);
    assert(q.index_of_first(q[0]) == Some(0int));
    assert(q.remove(0) =~= q.skip(1));
}

/// Creates NEW_CONNECTION_ID frames as needed.
pub fn add_new_cids(ids: &mut ConnectionIdentifiers, pk: &mut Packing) -> (r: Result<(), Error>)
    requires
        old(ids).wf(),
        old(pk)@.valid(),
    ensures
        final(ids).wf(),
        final(pk)@.valid(),
        (final(ids)@, final(pk)@, r) == announce_cids(old(ids)@, old(pk)@),
{
    let ghost goal = announce_cids(ids@, pk@);
    while ids.has_new_scids()
        invariant
            ids.wf(),
            pk@.valid(),
            goal == announce_cids(ids@, pk@),
            goal == announce_cids(old(ids)@, old(pk)@),
        decreases ids@.advertise.len(),
    {
        if let Some(seq_num) = ids.next_advertise_new_scid_seq() {
            let frame = match ids.get_new_connection_id_frame_for(seq_num) {
                Ok(f) => f,
                Err(e) => {
                    return Err(e);
                },
            };
            assert(new_cid_frame(ids@, seq_num) == Some(frame@));
            if pk.push_eliciting(frame) {
                proof {
                    lemma_unmark_first(ids@.advertise);
                }
                ids.mark_advertise_new_scid_seq(seq_num, false);
            } else {
                return Ok(());
            }
        }
    }
    Ok(())
}

/// Creates PATH_NEW_CONNECTION_ID frames as needed.
pub fn add_new_path_cids(ids: &mut ConnectionIdentifiers, pk: &mut Packing) -> (r: Result<
    (),
    Error,
>)
    requires
        old(ids).wf(),
        old(pk)@.valid(),
    ensures
        final(ids).wf(),
        final(pk)@.valid(),
        (final(ids)@, final(pk)@, r) == announce_path_cids(old(ids)@, old(pk)@),
{
    let ghost goal = announce_path_cids(ids@, pk@);
    while ids.mp_has_new_scids()
        invariant
            ids.wf(),
            pk@.valid(),
            goal == announce_path_cids(ids@, pk@),
            goal == announce_path_cids(old(ids)@, old(pk)@),
        decreases ids@.mp_advertise.len(),
    {
        if let Some((path_id, seq_num)) = ids.mp_next_advertise_new_scid() {
            let frame = match ids.mp_get_path_new_connection_id_frame_for(path_id, seq_num) {
                Ok(f) => f,
                Err(e) => {
                    return Err(e);
                },
            };
            assert(path_new_cid_frame(ids@, path_id, seq_num) == Some(frame@));
            if pk.push_eliciting(frame) {
                proof {
                    lemma_unmark_first(ids@.mp_advertise);
                }
                ids.mp_mark_advertise_new_scid(path_id, seq_num, false);
            } else {
                return Ok(());
            }
        }
    }
    Ok(())
}

/// The state and the packet once connection IDs were announced.
pub open spec fn announce_stage(s: SenderView, p: PackingView) -> (
    SenderView,
    PackingView,
    Result<(), Error>,
) {
    let (ids, q, r) = announce_cids(s.ids, p);
    let t = SenderView { ids, ..s };
    if r is Ok && s.conn.config.multipath_enabled {
        let (ids2, q2, r2) = announce_path_cids(ids, q);
        (SenderView { ids: ids2, ..s }, q2, r2)
    } else {
        (t, q, r)
    }
}

/// What a retirement makes of those that are pending and of the packet, and whether
/// there is room for more. `carrying` is the sequence number of the destination
/// connection ID of the packet, where it is of the same space: a packet does not
/// retire that one.
pub open spec fn retire_step(
    held: Set<u64>,
    p: PackingView,
    carrying: Option<u64>,
    seq_num: u64,
) -> (Set<u64>, PackingView, bool) {
    let f = FrameView::RetireConnectionId { seq_num };
    if carrying == Some(seq_num) {
        (held, p, true)
    } else if p.has_room(f) {
        (held.remove(seq_num), p.with(f).eliciting(), true)
    } else {
        (held, p, false)
    }
}

/// What the retirements of some connection IDs of path 0 in the given order make of
/// those that are pending and of the packet, and whether there is room for more.
pub open spec fn retire_all(
    held: Set<u64>,
    p: PackingView,
    carrying: Option<u64>,
    order: Seq<u64>,
) -> (Set<u64>, PackingView, bool)
    decreases order.len(),
{
    if order.len() == 0 {
        (held, p, true)
    } else {
        let (h, q, more) = retire_all(held, p, carrying, order.drop_last());
        if more {
            retire_step(h, q, carrying, order.last())
        } else {
            (h, q, false)
        }
    }
}

/// What a retirement of a connection ID of some path makes of those that are pending
/// and of the packet, and whether there is room for more.
pub open spec fn path_retire_step(
    held: Set<(u64, u64)>,
    p: PackingView,
    carrying: Option<(u64, u64)>,
    k: (u64, u64),
) -> (Set<(u64, u64)>, PackingView, bool) {
    let f = FrameView::PathRetireConnectionId { path_id: k.0, seq_num: k.1 };
    if carrying == Some(k) {
        (held, p, true)
    } else if p.has_room(f) {
        (held.remove(k), p.with(f).eliciting(), true)
    } else {
        (held, p, false)
    }
}

/// What the retirements of some connection IDs in the given order make of those that
/// are pending and of the packet, and whether there is room for more.
pub open spec fn path_retire_all(
    held: Set<(u64, u64)>,
    p: PackingView,
    carrying: Option<(u64, u64)>,
    order: Seq<(u64, u64)>,
) -> (Set<(u64, u64)>, PackingView, bool)
    decreases order.len(),
{
    if order.len() == 0 {
        (held, p, true)
    } else {
        let (h, q, more) = path_retire_all(held, p, carrying, order.drop_last());
        if more {
            path_retire_step(h, q, carrying, order.last())
        } else {
            (h, q, false)
        }
    }
}

/// Once there is no room for more, nothing more is done.
proof fn lemma_retire_stops(
    held: Set<u64>,
    p: PackingView,
    carrying: Option<u64>,
    order: Seq<u64>,
    k: int,
)
    requires
        0 <= k <= order.len(),
        !retire_all(held, p, carrying, order.take(k)).2,
    ensures
        retire_all(held, p, carrying, order) == retire_all(held, p, carrying, order.take(k)),
    decreases order.len() - k,
{
    if k == order.len() {
        assert(order.take(k) =~= order);
    } else {
        assert(order.drop_last().take(k) =~= order.take(k));
        lemma_retire_stops(held, p, carrying, order.drop_last(), k);
    }
}

/// Once there is no room for more, nothing more is done.
proof fn lemma_path_retire_stops(
    held: Set<(u64, u64)>,
    p: PackingView,
    carrying: Option<(u64, u64)>,
    order: Seq<(u64, u64)>,
    k: int,
)
    requires
        0 <= k <= order.len(),
        !path_retire_all(held, p, carrying, order.take(k)).2,
    ensures
        path_retire_all(held, p, carrying, order) == path_retire_all(
            held,
            p,
            carrying,
            order.take(k),
        ),
    decreases order.len() - k,
{
    if k == order.len() {
        assert(order.take(k) =~= order);
    } else {
        assert(order.drop_last().take(k) =~= order.take(k));
        lemma_path_retire_stops(held, p, carrying, order.drop_last(), k);
    }
}

/// Creates RETIRE_CONNECTION_ID frames in the given order.
///
/// The sequence number specified in a RETIRE_CONNECTION_ID frame MUST NOT refer to
/// the Destination Connection ID field of the packet in which the frame is
/// contained.
pub fn add_retires(
    ids: &mut ConnectionIdentifiers,
    pk: &mut Packing,
    carrying: Option<u64>,
    order: &[u64],
)
    requires
        old(ids).wf(),
        old(pk)@.valid(),
    ensures
        final(ids).wf(),
        final(pk)@.valid(),
        ({
            let (held, p, _) = retire_all(old(ids)@.retire, old(pk)@, carrying, order@);
            final(ids)@ == (IdsView { retire: held, ..old(ids)@ }) && final(pk)@ == p
        }),
{
    let ghost held = ids@.retire;
    let ghost p = pk@;
    let mut i: usize = 0;
    assert(order@.take(0) =~= Seq::empty());
    while i < order.len()
        invariant
            i <= order@.len(),
            ids.wf(),
            pk@.valid(),
            held == old(ids)@.retire,
            p == old(pk)@,
            (ids@.retire, pk@, true) == retire_all(held, p, carrying, order@.take(i as int)),
            ids@ == (IdsView { retire: ids@.retire, ..old(ids)@ }),
        decreases order@.len() - i,
    {
        proof {
            assert(order@.take(i + 1).drop_last() =~= order@.take(i as int));
        }
        let seq_num: u64 = order[i];
        let is_carrying: bool = match carrying {
            Some(seq) => seq == seq_num,
            None => false,
        };
        if !is_carrying {
            if pk.push_eliciting(Frame::RetireConnectionId { seq_num }) {
                let _ = ids.mark_retire_dcid_seq(seq_num, false);
            } else {
                proof {
                    lemma_retire_stops(held, p, carrying, order@, i + 1);
                }
                return;
            }
        }
        i += 1;
    }
    assert(order@.take(i as int) =~= order@);
}

/// Creates PATH_RETIRE_CONNECTION_ID frames in the given order.
///
/// Like with RETIRE_CONNECTION_ID, the sequence number MUST NOT refer to the
/// Destination Connection ID of the packet in which the frame is contained.
pub fn add_path_retires(
    ids: &mut ConnectionIdentifiers,
    pk: &mut Packing,
    carrying: Option<(u64, u64)>,
    order: &[(u64, u64)],
)
    requires
        old(ids).wf(),
        old(pk)@.valid(),
    ensures
        final(ids).wf(),
        final(pk)@.valid(),
        ({
            let (held, p, _) = path_retire_all(old(ids)@.mp_retire, old(pk)@, carrying, order@);
            final(ids)@ == (IdsView { mp_retire: held, ..old(ids)@ }) && final(pk)@ == p
        }),
{
    let ghost held = ids@.mp_retire;
    let ghost p = pk@;
    let mut i: usize = 0;
    assert(order@.take(0) =~= Seq::empty());
    while i < order.len()
        invariant
            i <= order@.len(),
            ids.wf(),
            pk@.valid(),
            held == old(ids)@.mp_retire,
            p == old(pk)@,
            (ids@.mp_retire, pk@, true) == path_retire_all(
                held,
                p,
                carrying,
                order@.take(i as int),
            ),
            ids@ == (IdsView { mp_retire: ids@.mp_retire, ..old(ids)@ }),
        decreases order@.len() - i,
    {
        proof {
            assert(order@.take(i + 1).drop_last() =~= order@.take(i as int));
        }
        let (path_id, seq_num) = order[i];
        let is_carrying: bool = match carrying {
            Some(c) => c.0 == path_id && c.1 == seq_num,
            None => false,
        };
        if !is_carrying {
            if pk.push_eliciting(Frame::PathRetireConnectionId { path_id, seq_num }) {
                let _ = ids.mp_mark_retire_dcid(path_id, seq_num, false);
            } else {
                proof {
                    lemma_path_retire_stops(held, p, carrying, order@, i + 1);
                }
                return;
            }
        }
        i += 1;
    }
    assert(order@.take(i as int) =~= order@);
}

/// The destination connection ID of packets on a path: the path ID whose pool it is
/// from and its sequence number.
pub open spec fn carried_by(x: PathFields) -> Option<(u64, u64)> {
    match x.active_dcid_seq {
        Some(seq) => Some(
            (
                if x.mp_per_path_cids {
                    x.path_id
                } else {
                    0
                },
                seq,
            ),
        ),
        None => None,
    }
}

/// The sequence number of the destination connection ID of packets on a path, where
/// it is one of path 0. A connection ID of a path's own pool never collides with
/// one of path 0.
pub open spec fn legacy_carried_by(x: PathFields) -> Option<u64> {
    if x.mp_per_path_cids {
        None
    } else {
        x.active_dcid_seq
    }
}

/// What the retirement of connection IDs makes of the state and the packet, given
/// the orders in which the pending ones are gone through.
pub open spec fn retire_stage(
    s: SenderView,
    p: PackingView,
    pid: int,
    order: Seq<u64>,
    mp_order: Seq<(u64, u64)>,
) -> (SenderView, PackingView) {
    let x = s.path(pid);
    let (held, q, _) = retire_all(s.ids.retire, p, legacy_carried_by(x), order);
    let ids = IdsView { retire: held, ..s.ids };
    if s.conn.config.multipath_enabled {
        let (mp_held, q2, _) = path_retire_all(ids.mp_retire, q, carried_by(x), mp_order);
        (SenderView { ids: IdsView { mp_retire: mp_held, ..ids }, ..s }, q2)
    } else {
        (SenderView { ids, ..s }, q)
    }
}

impl Sender {
    /// Creates NEW_CONNECTION_ID and PATH_NEW_CONNECTION_ID frames as needed.
    pub fn announce_connection_ids(&mut self, pk: &mut Packing) -> (r: Result<(), Error>)
        requires
            old(self).wf(),
            old(pk)@.valid(),
        ensures
            final(self).wf(),
            final(pk)@.valid(),
            (final(self)@, final(pk)@, r) == announce_stage(old(self)@, old(pk)@),
    {
        let r = add_new_cids(&mut self.ids, pk);
        if r.is_err() || !self.conn.config.multipath_enabled {
            proof {
                lemma_valid_with_conn(old(self)@, self@);
            }
            return r;
        }
        let r2 = add_new_path_cids(&mut self.ids, pk);
        proof {
            lemma_valid_with_conn(old(self)@, self@);
        }
        r2
    }

    /// Creates RETIRE_CONNECTION_ID and PATH_RETIRE_CONNECTION_ID frames as needed.
    ///
    /// The pending retirements are gone through in no particular order. The packet
    /// has a destination connection ID.
    pub fn retire_connection_ids(&mut self, pk: &mut Packing, pid: usize)
        requires
            old(self).wf(),
            old(pk)@.valid(),
            pid < old(self)@.paths.len(),
            old(self)@.path(pid as int).active_dcid_seq is Some,
        ensures
            final(self).wf(),
            final(pk)@.valid(),
            exists|order: Seq<u64>, mp_order: Seq<(u64, u64)>|
                {
                    &&& order.no_duplicates() && order.to_set() == old(self)@.ids.retire
                    &&& mp_order.no_duplicates() && mp_order.to_set() == old(self)@.ids.mp_retire
                    &&& (final(self)@, final(pk)@) == #[trigger] retire_stage(
                        old(self)@,
                        old(pk)@,
                        pid as int,
                        order,
                        mp_order,
                    )
                },
    {
        let x: PathFields = self.paths[pid].fields;
        assert(x == self@.path(pid as int));
        let dcid_seq: u64 = match x.active_dcid_seq {
            Some(seq) => seq,
            None => 0,
        };
        let legacy: Option<u64> = if x.mp_per_path_cids {
            None
        } else {
            Some(dcid_seq)
        };
        let carrying: (u64, u64) = if x.mp_per_path_cids {
            (x.path_id, dcid_seq)
        } else {
            (0, dcid_seq)
        };
        let order = self.ids.retire_dcid_seq_list();
        let mp_order = self.ids.mp_retire_dcid_seqs();
        add_retires(&mut self.ids, pk, legacy, order.as_slice());
        if self.conn.config.multipath_enabled {
            add_path_retires(&mut self.ids, pk, Some(carrying), mp_order.as_slice());
        }
        proof {
            lemma_valid_with_conn(old(self)@, self@);
            assert((self@, pk@) == retire_stage(
                old(self)@,
                old(pk)@,
                pid as int,
                order@,
                mp_order@,
            ));
        }
    }
}

} // verus!
