//! What the frames about connection IDs are for: which of them a packet gets, and what is
//! left for the next one.

use crate::bytes::be_bytes;
use crate::cid::model::IdsView;
use crate::error::Error;
use crate::frame::FrameView;
use crate::packet::Type;
use crate::send::assembly::management_stage;
use crate::send::cids::{
    announce_cids, announce_path_cids, announce_stage, new_cid_frame, path_new_cid_frame,
    path_retire_all, retire_all, retire_stage,
};
use crate::send::packing::PackingView;
use crate::send::path_laws::{
    conserves, extends, lemma_added_one, lemma_added_stays, marks_added, was_added,
};
use crate::send::state::{ConnFields, HandshakeDone, SenderView};
use vstd::prelude::*;

verus! {

/// Whether a frame announces a source connection ID of path 0: with its number, its
/// bytes, its reset token and the bound below which older ones are to be retired.
pub open spec fn announces(ids: IdsView, seq: u64, f: FrameView) -> bool {
    f matches FrameView::NewConnectionId { seq_num, retire_prior_to, conn_id, reset_token }
        && seq_num == seq && retire_prior_to == ids.retire_prior_to && exists|i: int|
        0 <= i < ids.scids.entries.len() && (#[trigger] ids.scids.entries[i]).seq == seq
            && ids.scids.entries[i].cid == conn_id && (ids.scids.entries[i].reset_token matches Some(
            token,
        ) && reset_token == be_bytes(token as nat, 16))
}

/// Whether a frame announces a source connection ID of a path.
pub open spec fn path_announces(ids: IdsView, k: (u64, u64), f: FrameView) -> bool {
    f matches FrameView::PathNewConnectionId {
        path_id,
        seq_num,
        retire_prior_to,
        conn_id,
        reset_token,
    } && path_id == k.0 && seq_num == k.1 && retire_prior_to == (if k.0 == 0 {
        ids.retire_prior_to
    } else {
        ids.pools[k.0].retire_prior_to
    }) && exists|i: int|
        0 <= i < ids.scids_of(k.0).len() && (#[trigger] ids.scids_of(k.0)[i]).seq == k.1
            && ids.scids_of(k.0)[i].cid == conn_id && ids.scids_of(k.0)[i].reset_token == Some(
            reset_token,
        )
}

/// Whether the first `n` of the connection IDs to advertise were announced, in their
/// order.
pub open spec fn announced_first(
    ids: IdsView,
    p: PackingView,
    q: PackingView,
    n: nat,
) -> bool {
    &&& n <= ids.advertise.len()
    &&& extends(p, q) && conserves(p, q) && marks_added(p, q)
    &&& q.frames.len() == p.frames.len() + n
    &&& forall|k: int|
        p.frames.len() <= k < q.frames.len() ==> announces(
            ids,
            ids.advertise[k - p.frames.len()],
            #[trigger] q.frames[k],
        )
}

/// Connection IDs to advertise are announced in their order, each by its own frame, until
/// one finds no room; those that were announced are no longer to advertise and the others
/// still are.
pub proof fn law_cids_are_announced_in_order(ids: IdsView, p: PackingView) -> (n: nat)
    ensures
        ({
            let (t, q, r) = announce_cids(ids, p);
            &&& announced_first(ids, p, q, n)
            &&& t == (IdsView { advertise: ids.advertise.skip(n as int), ..ids })
            &&& r is Ok && n < ids.advertise.len() ==> exists|f: FrameView| #[trigger]
                announces(ids, ids.advertise[n as int], f) && f.wire_len() > q.fields.left
            &&& r matches Err(e) ==> e == Error::InvalidState && n < ids.advertise.len()
        }),
    decreases ids.advertise.len(),
{
    let (t, q, r) = announce_cids(ids, p);
    if ids.advertise.len() == 0 {
        assert(ids.advertise.skip(0) =~= ids.advertise);
        0
    } else {
        let seq = ids.advertise[0];
        let frame = new_cid_frame(ids, seq);
        assert(ids.advertise.skip(0) =~= ids.advertise);
        if let Some(f) = frame {
            assert(announces(ids, seq, f)) by {
                let i = crate::cid::entries::index_of_seq(ids.scids.entries, seq);
                assert(ids.scids.entries[i].seq == seq);
            }
            if f.wire_len() <= p.fields.left {
                let ids1 = IdsView { advertise: ids.advertise.skip(1), ..ids };
                let p1 = p.with(f).eliciting();
                lemma_added_one(p, p1, f);
                let m = law_cids_are_announced_in_order(ids1, p1);
                lemma_added_stays(p, p1, q, f);
                assert(ids1.advertise.skip(m as int) =~= ids.advertise.skip(m as int + 1));
                assert forall|k: int| p.frames.len() <= k < q.frames.len() implies announces(
                    ids,
                    ids.advertise[k - p.frames.len()],
                    #[trigger] q.frames[k],
                ) by {
                    if k == p.frames.len() {
                        assert(q.frames[k] == p1.frames[k]);
                    } else {
                        assert(ids1.advertise[k - p1.frames.len()] == ids.advertise[k
                            - p.frames.len()]);
                        assert(announces(ids1, ids1.advertise[k - p1.frames.len()], q.frames[k]));
                    }
                }
                if r is Ok && m < ids1.advertise.len() {
                    let g = choose|g: FrameView| #[trigger]
                        announces(ids1, ids1.advertise[m as int], g) && g.wire_len()
                            > q.fields.left;
                    assert(announces(ids, ids.advertise[m as int + 1], g));
                }
                m + 1
            } else {
                0
            }
        } else {
            0
        }
    }
}

/// Whether the first `n` of the connection IDs of paths to advertise were announced, in
/// their order.
pub open spec fn path_announced_first(
    ids: IdsView,
    p: PackingView,
    q: PackingView,
    n: nat,
) -> bool {
    &&& n <= ids.mp_advertise.len()
    &&& extends(p, q) && conserves(p, q) && marks_added(p, q)
    &&& q.frames.len() == p.frames.len() + n
    &&& forall|k: int|
        p.frames.len() <= k < q.frames.len() ==> path_announces(
            ids,
            ids.mp_advertise[k - p.frames.len()],
            #[trigger] q.frames[k],
        )
}

/// Connection IDs of paths to advertise are announced in their order, each by its own
/// frame, until one finds no room; those that were announced are no longer to advertise
/// and the others still are.
pub proof fn law_path_cids_are_announced_in_order(ids: IdsView, p: PackingView) -> (n: nat)
    ensures
        ({
            let (t, q, r) = announce_path_cids(ids, p);
            &&& path_announced_first(ids, p, q, n)
            &&& t == (IdsView { mp_advertise: ids.mp_advertise.skip(n as int), ..ids })
            &&& r is Ok && n < ids.mp_advertise.len() ==> exists|f: FrameView| #[trigger]
                path_announces(ids, ids.mp_advertise[n as int], f) && f.wire_len() > q.fields.left
            &&& r matches Err(e) ==> e == Error::InvalidState && n < ids.mp_advertise.len()
        }),
    decreases ids.mp_advertise.len(),
{
    let (t, q, r) = announce_path_cids(ids, p);
    if ids.mp_advertise.len() == 0 {
        assert(ids.mp_advertise.skip(0) =~= ids.mp_advertise);
        0
    } else {
        let key = ids.mp_advertise[0];
        let frame = path_new_cid_frame(ids, key.0, key.1);
        assert(ids.mp_advertise.skip(0) =~= ids.mp_advertise);
        if let Some(f) = frame {
            assert(path_announces(ids, key, f)) by {
                let i = crate::cid::entries::index_of_seq(ids.scids_of(key.0), key.1);
                assert(ids.scids_of(key.0)[i].seq == key.1);
            }
            if f.wire_len() <= p.fields.left {
                let ids1 = IdsView { mp_advertise: ids.mp_advertise.skip(1), ..ids };
                let p1 = p.with(f).eliciting();
                lemma_added_one(p, p1, f);
                let m = law_path_cids_are_announced_in_order(ids1, p1);
                lemma_added_stays(p, p1, q, f);
                assert(ids1.mp_advertise.skip(m as int) =~= ids.mp_advertise.skip(m as int + 1));
                assert forall|j: u64| #[trigger] ids1.scids_of(j) == ids.scids_of(j) by {}
                assert forall|k: int| p.frames.len() <= k < q.frames.len() implies path_announces(
                    ids,
                    ids.mp_advertise[k - p.frames.len()],
                    #[trigger] q.frames[k],
                ) by {
                    if k == p.frames.len() {
                        assert(q.frames[k] == p1.frames[k]);
                    } else {
                        let a = ids1.mp_advertise[k - p1.frames.len()];
                        assert(a == ids.mp_advertise[k - p.frames.len()]);
                        assert(path_announces(ids1, a, q.frames[k]));
                        lemma_path_announces_same(ids1, ids, a, q.frames[k]);
                    }
                }
                if r is Ok && m < ids1.mp_advertise.len() {
                    let a = ids1.mp_advertise[m as int];
                    let g = choose|g: FrameView| #[trigger]
                        path_announces(ids1, a, g) && g.wire_len() > q.fields.left;
                    lemma_path_announces_same(ids1, ids, a, g);
                    assert(path_announces(ids, ids.mp_advertise[m as int + 1], g));
                }
                m + 1
            } else {
                0
            }
        } else {
            0
        }
    }
}

/// What announces a connection ID does not depend on those to advertise.
proof fn lemma_path_announces_same(a: IdsView, b: IdsView, k: (u64, u64), f: FrameView)
    requires
        a.scids == b.scids,
        a.pools == b.pools,
        a.retire_prior_to == b.retire_prior_to,
        path_announces(a, k, f),
    ensures
        path_announces(b, k, f),
{
    let i = choose|i: int|
        0 <= i < a.scids_of(k.0).len() && (#[trigger] a.scids_of(k.0)[i]).seq == k.1 && (
        f matches FrameView::PathNewConnectionId { conn_id, reset_token, .. } && a.scids_of(
            k.0,
        )[i].cid == conn_id && a.scids_of(k.0)[i].reset_token == Some(reset_token));
    assert(a.scids_of(k.0) == b.scids_of(k.0));
    assert(b.scids_of(k.0)[i].seq == k.1);
}

/// A connection ID to advertise gets its frame into the packet or stays to be advertised.
pub proof fn law_advertised_cid_is_announced_or_stays(ids: IdsView, p: PackingView, seq: u64)
    requires
        ids.advertise.contains(seq),
    ensures
        ({
            let (t, q, r) = announce_cids(ids, p);
            t.advertise.contains(seq) || exists|f: FrameView| #[trigger]
                was_added(p, q, f) && announces(ids, seq, f)
        }),
{
    let n = law_cids_are_announced_in_order(ids, p);
    let (t, q, r) = announce_cids(ids, p);
    let i = choose|i: int| 0 <= i < ids.advertise.len() && ids.advertise[i] == seq;
    if i < n {
        let f = q.frames[p.frames.len() + i];
        assert(announces(ids, ids.advertise[p.frames.len() + i - p.frames.len()], f));
        assert(was_added(p, q, f));
    } else {
        assert(t.advertise[i - n] == seq);
    }
}

/// A packet with room for all announcements has them all, and nothing is left to
/// advertise.
pub proof fn law_all_cids_are_announced_where_there_is_room(ids: IdsView, p: PackingView, seq: u64)
    requires
        ids.advertise.contains(seq),
        announce_cids(ids, p).2 is Ok,
        forall|f: FrameView, n: u64| #[trigger]
            announces(ids, n, f) ==> f.wire_len() <= announce_cids(ids, p).1.fields.left,
    ensures
        exists|f: FrameView| #[trigger]
            was_added(p, announce_cids(ids, p).1, f) && announces(ids, seq, f),
        announce_cids(ids, p).0.advertise.len() == 0,
{
    let n = law_cids_are_announced_in_order(ids, p);
    let (t, q, r) = announce_cids(ids, p);
    if n < ids.advertise.len() {
        let f = choose|f: FrameView| #[trigger]
            announces(ids, ids.advertise[n as int], f) && f.wire_len() > q.fields.left;
        assert(announces(ids, ids.advertise[n as int], f));
    }
    law_advertised_cid_is_announced_or_stays(ids, p, seq);
}

/// Connection IDs are announced and the end of the handshake is told in 1-RTT packets of
/// a connection that is not being closed only. HANDSHAKE_DONE goes on the active path, by
/// a server whose handshake completed, until it was sent.
pub proof fn law_management_frames_belong_to_open_connections(
    s: SenderView,
    p: PackingView,
    pid: int,
    ty: Type,
)
    ensures
        ({
            let (t, q, r) = management_stage(s, p, pid, ty);
            &&& ty != Type::Short || s.local_error is Some ==> (t, q, r) == (
                s,
                p,
                Ok::<(), Error>(()),
            )
            &&& extends(p, q) && conserves(p, q) && marks_added(p, q)
            &&& t == (SenderView {
                ids: IdsView {
                    advertise: t.ids.advertise,
                    mp_advertise: t.ids.mp_advertise,
                    ..s.ids
                },
                conn: ConnFields { handshake_done: t.conn.handshake_done, ..s.conn },
                ..s
            })
            &&& was_added(p, q, FrameView::HandshakeDone) ==> s.paths[pid].fields.active
                && s.conn.config.is_server && s.conn.config.handshake_completed
                && !s.conn.handshake_done.sent && t.conn.handshake_done == (HandshakeDone {
                sent: true,
                ..s.conn.handshake_done
            })
            &&& !was_added(p, q, FrameView::HandshakeDone) ==> t.conn.handshake_done
                == s.conn.handshake_done
            &&& ty == Type::Short && s.local_error is None && r is Ok
                && s.paths[pid].fields.active && s.conn.config.is_server
                && s.conn.config.handshake_completed && !s.conn.handshake_done.sent ==> was_added(
                p,
                q,
                FrameView::HandshakeDone,
            ) || q.fields.left == 0
            &&& !s.conn.config.multipath_enabled ==> t.ids.mp_advertise == s.ids.mp_advertise
        }),
{
    let (t, q, r) = management_stage(s, p, pid, ty);
    if ty == Type::Short && s.local_error is None {
        let n = law_cids_are_announced_in_order(s.ids, p);
        let (ids1, q1, r1) = announce_cids(s.ids, p);
        let m = law_path_cids_are_announced_in_order(ids1, q1);
        let q2 = announce_stage(s, p).1;
        let f = FrameView::HandshakeDone;
        lemma_added_stays(p, q1, announce_path_cids(ids1, q1).1, f);
        assert(extends(p, q2) && conserves(p, q2) && marks_added(p, q2));
        assert forall|k: int| p.frames.len() <= k < q2.frames.len() implies #[trigger] q2.frames[k]
            != f by {
            if k < q1.frames.len() {
                assert(q2.frames[k] == q1.frames[k]);
                assert(announces(s.ids, s.ids.advertise[k - p.frames.len()], q1.frames[k]));
            } else {
                assert(path_announces(
                    ids1,
                    ids1.mp_advertise[k - q1.frames.len()],
                    announce_path_cids(ids1, q1).1.frames[k],
                ));
            }
        }
        assert(!was_added(p, q2, f));
        if q != q2 {
            lemma_added_one(q2, q, f);
            lemma_added_stays(p, q2, q, f);
        }
    }
}

/// What the retirements of path 0 do to the packet and to those that are pending.
pub open spec fn retired_from(
    held: Set<u64>,
    h: Set<u64>,
    p: PackingView,
    q: PackingView,
    carrying: Option<u64>,
    order: Seq<u64>,
    more: bool,
) -> bool {
    &&& extends(p, q) && conserves(p, q) && marks_added(p, q)
    &&& forall|k: int|
        p.frames.len() <= k < q.frames.len() ==> retires_one(carrying, order, #[trigger] q.frames[k])
    &&& forall|n: u64| #[trigger]
        h.contains(n) == (held.contains(n) && !was_added(
            p,
            q,
            FrameView::RetireConnectionId { seq_num: n },
        ))
    &&& more ==> forall|i: int|
        0 <= i < order.len() ==> carrying == Some(#[trigger] order[i]) || was_added(
            p,
            q,
            FrameView::RetireConnectionId { seq_num: order[i] },
        )
    &&& !more ==> exists|i: int|
        0 <= i < order.len() && carrying != Some(#[trigger] order[i]) && (
        FrameView::RetireConnectionId { seq_num: order[i] }).wire_len() > q.fields.left
}

/// Whether a frame retires one of some connection IDs, but not the one that carries it.
pub open spec fn retires_one(carrying: Option<u64>, order: Seq<u64>, f: FrameView) -> bool {
    f matches FrameView::RetireConnectionId { seq_num } && order.contains(seq_num) && carrying
        != Some(seq_num)
}

/// What the retirements of path 0 do.
proof fn lemma_retires(held: Set<u64>, p: PackingView, carrying: Option<u64>, order: Seq<u64>)
    ensures
        ({
            let (h, q, more) = retire_all(held, p, carrying, order);
            retired_from(held, h, p, q, carrying, order, more)
        }),
    decreases order.len(),
{
    let (h2, r, more2) = retire_all(held, p, carrying, order);
    if order.len() == 0 {
        assert forall|n: u64| !was_added(p, p, FrameView::RetireConnectionId { seq_num: n }) by {}
    } else {
        let front = order.drop_last();
        let last = order.last();
        lemma_retires(held, p, carrying, front);
        let (h, q, more) = retire_all(held, p, carrying, front);
        let f = FrameView::RetireConnectionId { seq_num: last };
        assert(order[order.len() - 1] == last);
        assert forall|n: u64| front.contains(n) implies order.contains(n) by {
            let i = choose|i: int| 0 <= i < front.len() && front[i] == n;
            assert(order[i] == n);
        }
        if r != q {
            lemma_added_one(q, r, f);
        }
        lemma_added_stays(p, q, r, f);
        assert forall|k: int| p.frames.len() <= k < r.frames.len() implies retires_one(
            carrying,
            order,
            #[trigger] r.frames[k],
        ) by {
            if k < q.frames.len() {
                assert(r.frames[k] == q.frames[k]);
                assert(retires_one(carrying, front, q.frames[k]));
            }
        }
        assert forall|n: u64| #[trigger] h2.contains(n) == (held.contains(n) && !was_added(
            p,
            r,
            FrameView::RetireConnectionId { seq_num: n },
        )) by {
            let g = FrameView::RetireConnectionId { seq_num: n };
            lemma_added_stays(p, q, r, g);
            assert(h.contains(n) == (held.contains(n) && !was_added(p, q, g)));
            if was_added(p, r, g) && !was_added(p, q, g) {
                let k = choose|k: int|
                    p.frames.len() <= k < r.frames.len() && #[trigger] r.frames[k] == g;
                if k < q.frames.len() {
                    assert(q.frames[k] == g);
                }
                assert(n == last);
            }
        }
        if more2 {
            assert forall|i: int| 0 <= i < order.len() implies carrying == Some(
                #[trigger] order[i],
            ) || was_added(p, r, FrameView::RetireConnectionId { seq_num: order[i] }) by {
                if i < front.len() {
                    assert(front[i] == order[i]);
                    lemma_added_stays(
                        p,
                        q,
                        r,
                        FrameView::RetireConnectionId { seq_num: order[i] },
                    );
                }
            }
        } else if !more {
            let i = choose|i: int|
                0 <= i < front.len() && carrying != Some(#[trigger] front[i]) && (
                FrameView::RetireConnectionId { seq_num: front[i] }).wire_len() > q.fields.left;
            assert(order[i] == front[i]);
        }
    }
}

/// What the retirements of paths do to the packet and to those that are pending.
pub open spec fn path_retired_from(
    held: Set<(u64, u64)>,
    h: Set<(u64, u64)>,
    p: PackingView,
    q: PackingView,
    carrying: Option<(u64, u64)>,
    order: Seq<(u64, u64)>,
    more: bool,
) -> bool {
    &&& extends(p, q) && conserves(p, q) && marks_added(p, q)
    &&& forall|k: int|
        p.frames.len() <= k < q.frames.len() ==> path_retires_one(
            carrying,
            order,
            #[trigger] q.frames[k],
        )
    &&& forall|n: (u64, u64)| #[trigger]
        h.contains(n) == (held.contains(n) && !was_added(p, q, path_retire_of(n)))
    &&& more ==> forall|i: int|
        0 <= i < order.len() ==> carrying == Some(#[trigger] order[i]) || was_added(
            p,
            q,
            path_retire_of(order[i]),
        )
    &&& !more ==> exists|i: int|
        0 <= i < order.len() && carrying != Some(#[trigger] order[i]) && path_retire_of(
            order[i],
        ).wire_len() > q.fields.left
}

/// The frame that retires a connection ID of a path.
pub open spec fn path_retire_of(n: (u64, u64)) -> FrameView {
    FrameView::PathRetireConnectionId { path_id: n.0, seq_num: n.1 }
}

/// Whether a frame retires one of some connection IDs of paths, but not the one that
/// carries it.
pub open spec fn path_retires_one(
    carrying: Option<(u64, u64)>,
    order: Seq<(u64, u64)>,
    f: FrameView,
) -> bool {
    f matches FrameView::PathRetireConnectionId { path_id, seq_num } && order.contains(
        (path_id, seq_num),
    ) && carrying != Some((path_id, seq_num))
}

/// What the retirements of paths do.
proof fn lemma_path_retires(
    held: Set<(u64, u64)>,
    p: PackingView,
    carrying: Option<(u64, u64)>,
    order: Seq<(u64, u64)>,
)
    ensures
        ({
            let (h, q, more) = path_retire_all(held, p, carrying, order);
            path_retired_from(held, h, p, q, carrying, order, more)
        }),
    decreases order.len(),
{
    let (h2, r, more2) = path_retire_all(held, p, carrying, order);
    if order.len() == 0 {
        assert forall|n: (u64, u64)| !was_added(p, p, #[trigger] path_retire_of(n)) by {}
    } else {
        let front = order.drop_last();
        let last = order.last();
        lemma_path_retires(held, p, carrying, front);
        let (h, q, more) = path_retire_all(held, p, carrying, front);
        let f = path_retire_of(last);
        assert(order[order.len() - 1] == last);
        assert forall|n: (u64, u64)| front.contains(n) implies order.contains(n) by {
            let i = choose|i: int| 0 <= i < front.len() && front[i] == n;
            assert(order[i] == n);
        }
        if r != q {
            lemma_added_one(q, r, f);
        }
        lemma_added_stays(p, q, r, f);
        assert forall|k: int| p.frames.len() <= k < r.frames.len() implies path_retires_one(
            carrying,
            order,
            #[trigger] r.frames[k],
        ) by {
            if k < q.frames.len() {
                assert(r.frames[k] == q.frames[k]);
                assert(path_retires_one(carrying, front, q.frames[k]));
            }
        }
        assert forall|n: (u64, u64)| #[trigger] h2.contains(n) == (held.contains(n) && !was_added(
            p,
            r,
            path_retire_of(n),
        )) by {
            let g = path_retire_of(n);
            lemma_added_stays(p, q, r, g);
            assert(h.contains(n) == (held.contains(n) && !was_added(p, q, g)));
            if was_added(p, r, g) && !was_added(p, q, g) {
                let k = choose|k: int|
                    p.frames.len() <= k < r.frames.len() && #[trigger] r.frames[k] == g;
                if k < q.frames.len() {
                    assert(q.frames[k] == g);
                }
                assert(n == last);
            }
        }
        if more2 {
            assert forall|i: int| 0 <= i < order.len() implies carrying == Some(
                #[trigger] order[i],
            ) || was_added(p, r, path_retire_of(order[i])) by {
                if i < front.len() {
                    assert(front[i] == order[i]);
                    lemma_added_stays(p, q, r, path_retire_of(order[i]));
                }
            }
        } else if !more {
            let i = choose|i: int|
                0 <= i < front.len() && carrying != Some(#[trigger] front[i]) && path_retire_of(
                    front[i],
                ).wire_len() > q.fields.left;
            assert(order[i] == front[i]);
        }
    }
}

/// Whether a pending retirement of path 0 waits: its connection ID is the one that the
/// packet is sent to.
pub open spec fn carries_legacy(s: SenderView, pid: int, n: u64) -> bool {
    let x = s.paths[pid].fields;
    !x.mp_per_path_cids && x.active_dcid_seq == Some(n)
}

/// Whether a pending retirement of a path waits: its connection ID is the one that the
/// packet is sent to, of the path's own pool or of that of path 0.
pub open spec fn carries_path(s: SenderView, pid: int, k: (u64, u64)) -> bool {
    let x = s.paths[pid].fields;
    &&& x.active_dcid_seq == Some(k.1)
    &&& k.0 == if x.mp_per_path_cids {
        x.path_id
    } else {
        0
    }
}

/// A retirement of a connection ID of path 0 that is pending gets its frame into the
/// packet and is not pending anymore, or stays pending: because the packet is sent to
/// that connection ID, or because some frame found no room. No other retirement of path 0
/// is told.
pub proof fn law_pending_retirements_are_told(
    s: SenderView,
    p: PackingView,
    pid: int,
    orders: (Seq<u64>, Seq<(u64, u64)>),
    n: u64,
)
    requires
        orders.0.to_set() == s.ids.retire,
        orders.1.to_set() == s.ids.mp_retire,
        s.paths[pid].fields.active_dcid_seq is Some,
    ensures
        ({
            let (t, q) = retire_stage(s, p, pid, orders.0, orders.1);
            let f = FrameView::RetireConnectionId { seq_num: n };
            &&& was_added(p, q, f) ==> s.ids.retire.contains(n) && !t.ids.retire.contains(n)
                && !carries_legacy(s, pid, n)
            &&& s.ids.retire.contains(n) && !was_added(p, q, f) ==> t.ids.retire.contains(n)
            &&& t.ids.retire.contains(n) ==> s.ids.retire.contains(n)
            &&& t.ids.retire.contains(n) && !carries_legacy(s, pid, n) ==> exists|m: u64|
                s.ids.retire.contains(m) && !carries_legacy(s, pid, m) && (
                #[trigger] legacy_retire_of(m)).wire_len() > q.fields.left
            &&& extends(p, q) && conserves(p, q) && marks_added(p, q)
            &&& t == (SenderView {
                ids: IdsView { retire: t.ids.retire, mp_retire: t.ids.mp_retire, ..s.ids },
                ..s
            })
        }),
{
    let x = s.paths[pid].fields;
    let carrying = crate::send::cids::legacy_carried_by(x);
    let (h, q1, more) = retire_all(s.ids.retire, p, carrying, orders.0);
    lemma_retires(s.ids.retire, p, carrying, orders.0);
    let (t, q) = retire_stage(s, p, pid, orders.0, orders.1);
    lemma_path_retires(s.ids.mp_retire, q1, crate::send::cids::carried_by(x), orders.1);
    let f = FrameView::RetireConnectionId { seq_num: n };
    lemma_added_stays(p, q1, q, f);
    assert(h.contains(n) == (s.ids.retire.contains(n) && !was_added(p, q1, f)));
    if was_added(p, q, f) {
        let k = choose|k: int| p.frames.len() <= k < q.frames.len() && #[trigger] q.frames[k] == f;
        if k < q1.frames.len() {
            assert(q1.frames[k] == f);
            assert(retires_one(carrying, orders.0, q1.frames[k]));
            assert(orders.0.to_set().contains(n));
        } else {
            assert(path_retires_one(
                crate::send::cids::carried_by(x),
                orders.1,
                path_retire_all(s.ids.mp_retire, q1, crate::send::cids::carried_by(x), orders.1).1.frames[k],
            ));
        }
    }
    if t.ids.retire.contains(n) && !carries_legacy(s, pid, n) {
        assert(orders.0.to_set().contains(n));
        let i = choose|i: int| 0 <= i < orders.0.len() && orders.0[i] == n;
        assert(orders.0[i] == n);
        assert(!more);
        let j = choose|j: int|
            0 <= j < orders.0.len() && carrying != Some(#[trigger] orders.0[j]) && (
            FrameView::RetireConnectionId { seq_num: orders.0[j] }).wire_len() > q1.fields.left;
        let m = orders.0[j];
        assert(orders.0.contains(m));
        assert(orders.0.to_set().contains(m));
        assert(legacy_retire_of(m).wire_len() > q.fields.left);
    }
}

/// The frame that retires a connection ID of path 0.
pub open spec fn legacy_retire_of(n: u64) -> FrameView {
    FrameView::RetireConnectionId { seq_num: n }
}

/// A retirement of a connection ID of a path that is pending gets its frame into a packet
/// of a multipath connection and is not pending anymore, or stays pending: because the
/// packet is sent to that connection ID, or because some frame found no room. No other
/// retirement of a path is told, and none at all without multipath.
pub proof fn law_pending_path_retirements_are_told(
    s: SenderView,
    p: PackingView,
    pid: int,
    orders: (Seq<u64>, Seq<(u64, u64)>),
    n: (u64, u64),
)
    requires
        orders.0.to_set() == s.ids.retire,
        orders.1.to_set() == s.ids.mp_retire,
        s.paths[pid].fields.active_dcid_seq is Some,
    ensures
        ({
            let (t, q) = retire_stage(s, p, pid, orders.0, orders.1);
            let f = FrameView::PathRetireConnectionId { path_id: n.0, seq_num: n.1 };
            &&& was_added(p, q, f) ==> s.conn.config.multipath_enabled && s.ids.mp_retire.contains(n)
                && !t.ids.mp_retire.contains(n) && !carries_path(s, pid, n)
            &&& s.ids.mp_retire.contains(n) && !was_added(p, q, f) ==> t.ids.mp_retire.contains(n)
            &&& t.ids.mp_retire.contains(n) ==> s.ids.mp_retire.contains(n)
            &&& s.conn.config.multipath_enabled && t.ids.mp_retire.contains(n) && !carries_path(
                s,
                pid,
                n,
            ) ==> exists|m: (u64, u64)|
                s.ids.mp_retire.contains(m) && !carries_path(s, pid, m) && (
                #[trigger] path_retire_of(m)).wire_len() > q.fields.left
        }),
{
    let x = s.paths[pid].fields;
    let legacy = crate::send::cids::legacy_carried_by(x);
    let carrying = crate::send::cids::carried_by(x);
    let (h1, q1, more1) = retire_all(s.ids.retire, p, legacy, orders.0);
    lemma_retires(s.ids.retire, p, legacy, orders.0);
    let (h, q2, more) = path_retire_all(s.ids.mp_retire, q1, carrying, orders.1);
    lemma_path_retires(s.ids.mp_retire, q1, carrying, orders.1);
    let (t, q) = retire_stage(s, p, pid, orders.0, orders.1);
    let f = path_retire_of(n);
    lemma_added_stays(p, q1, q, f);
    assert(h.contains(n) == (s.ids.mp_retire.contains(n) && !was_added(q1, q2, f)));
    if was_added(p, q, f) {
        let k = choose|k: int| p.frames.len() <= k < q.frames.len() && #[trigger] q.frames[k] == f;
        if k < q1.frames.len() {
            assert(q1.frames[k] == f);
            assert(retires_one(legacy, orders.0, q1.frames[k]));
        } else {
            assert(path_retires_one(carrying, orders.1, q2.frames[k]));
            assert(was_added(q1, q2, f));
            assert(orders.1.to_set().contains(n));
        }
    }
    if s.conn.config.multipath_enabled && t.ids.mp_retire.contains(n) && !carries_path(s, pid, n) {
        assert(orders.1.to_set().contains(n));
        let i = choose|i: int| 0 <= i < orders.1.len() && orders.1[i] == n;
        assert(orders.1[i] == n);
        assert(!more);
        let j = choose|j: int|
            0 <= j < orders.1.len() && carrying != Some(#[trigger] orders.1[j]) && path_retire_of(
                orders.1[j],
            ).wire_len() > q2.fields.left;
        let m = orders.1[j];
        assert(orders.1.contains(m));
        assert(orders.1.to_set().contains(m));
        assert(path_retire_of(m).wire_len() > q.fields.left);
    }
}

} // verus!
