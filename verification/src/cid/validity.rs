//! Every operation on the connection IDs of a connection keeps what holds of
//! them.

use crate::bounded::SeqKey;
use crate::cid::entries::{
    below, from_bound, has_cid, has_seq, index_of_seq, lemma_lowest_seq_exists, lowest_seq, not_below,
    unique_cids, unique_seqs, with_link, without_seq, EntryView,
};
use crate::cid::model::{
    add_dcid, add_scid, announce, dcids_valid, drop_dcid, drop_dcid_pool, drop_path_pools,
    drop_scid, is_queued_count, link_dcid, link_scid, with_source_limit, keys, mp_add_dcid,
    mp_add_scid, mp_drop_dcid, mp_drop_scid, new_ids, queued_count, queues_at, with_dcid_room,
    DcidSpace, IdsView, PoolView,
};
use vstd::prelude::*;

verus! {

/// Which connection IDs a queue holds once an entry is added.
pub proof fn lemma_has_cid_push(es: Seq<EntryView>, e: EntryView, c: Seq<u8>)
    ensures
        has_cid(es.push(e), c) == (has_cid(es, c) || e.cid == c),
{
    let t = es.push(e);
    if has_cid(es, c) {
        let i = choose|i: int| 0 <= i < es.len() && (#[trigger] es[i]).cid == c;
        assert(t[i] == es[i]);
    }
    if e.cid == c {
        assert(t[es.len() as int] == e);
    }
    if has_cid(t, c) && e.cid != c {
        let i = choose|i: int| 0 <= i < t.len() && (#[trigger] t[i]).cid == c;
        assert(t[i] == es[i]);
    }
}

/// An entry with a new sequence number and a new connection ID keeps a queue
/// free of repetitions.
pub proof fn lemma_push_unique(es: Seq<EntryView>, e: EntryView)
    requires
        unique_seqs(es),
        unique_cids(es),
        !has_seq(es, e.seq),
        !has_cid(es, e.cid),
    ensures
        unique_seqs(es.push(e)),
        unique_cids(es.push(e)),
{
    let t = es.push(e);
    assert forall|i: int, j: int|
        0 <= i < t.len() && 0 <= j < t.len() && ((#[trigger] t[i]).seq == (#[trigger] t[j]).seq
            || t[i].cid == t[j].cid) implies i == j by {
        if i < es.len() {
            assert(t[i] == es[i]);
        }
        if j < es.len() {
            assert(t[j] == es[j]);
        }
    }
}

/// What taking an entry away leaves of a queue.
pub proof fn lemma_remove_facts(es: Seq<EntryView>, i: int)
    requires
        0 <= i < es.len(),
        unique_seqs(es),
        unique_cids(es),
    ensures
        unique_seqs(es.remove(i)),
        unique_cids(es.remove(i)),
        forall|c: Seq<u8>| #[trigger] has_cid(es.remove(i), c) ==> has_cid(es, c),
        forall|k: int|
            0 <= k < es.len() - 1 ==> #[trigger] es.remove(i)[k] == es[if k < i {
                k
            } else {
                k + 1
            }],
{
    let t = es.remove(i);
    assert forall|c: Seq<u8>| #[trigger] has_cid(t, c) implies has_cid(es, c) by {
        let k = choose|k: int| 0 <= k < t.len() && (#[trigger] t[k]).cid == c;
        let m = if k < i {
            k
        } else {
            k + 1
        };
        assert(es[m].cid == c);
    }
}

/// Linking an entry to a path leaves its connection ID and its sequence number
/// alone.
pub proof fn lemma_link_facts(es: Seq<EntryView>, seq: u64, path_id: usize)
    requires
        has_seq(es, seq),
        unique_seqs(es),
        unique_cids(es),
    ensures
        unique_seqs(with_link(es, seq, path_id)),
        unique_cids(with_link(es, seq, path_id)),
        with_link(es, seq, path_id).len() == es.len(),
        forall|c: Seq<u8>| #[trigger] has_cid(with_link(es, seq, path_id), c) == has_cid(es, c),
        forall|k: int|
            0 <= k < es.len() ==> (#[trigger] with_link(es, seq, path_id)[k]).seq == es[k].seq,
{
    let t = with_link(es, seq, path_id);
    assert forall|k: int| 0 <= k < es.len() implies (#[trigger] t[k]).seq == es[k].seq && t[k].cid
        == es[k].cid by {}
    assert forall|c: Seq<u8>| #[trigger] has_cid(t, c) == has_cid(es, c) by {
        if has_cid(t, c) {
            let k = choose|k: int| 0 <= k < t.len() && (#[trigger] t[k]).cid == c;
            assert(es[k].cid == c);
        }
        if has_cid(es, c) {
            let k = choose|k: int| 0 <= k < es.len() && (#[trigger] es[k]).cid == c;
            assert(t[k].cid == c);
        }
    }
}

/// Where the source CIDs of no path gain any, they stay distinct.
pub proof fn lemma_distinct_shrinks(s: IdsView, t: IdsView)
    requires
        s.distinct_across_paths(),
        forall|p: u64, c: Seq<u8>| #[trigger]
            has_cid(t.scids_of(p), c) ==> has_cid(s.scids_of(p), c),
    ensures
        t.distinct_across_paths(),
{
    assert forall|p: u64, q: u64, c: Seq<u8>|
        #![trigger has_cid(t.scids_of(p), c), has_cid(t.scids_of(q), c)]
        has_cid(t.scids_of(p), c) && has_cid(t.scids_of(q), c) implies p == q by {
        assert(has_cid(s.scids_of(p), c));
        assert(has_cid(s.scids_of(q), c));
    }
}

/// Where one path gains a source CID that was not in use, they stay distinct.
pub proof fn lemma_distinct_grows(s: IdsView, t: IdsView, path_id: u64, cid: Seq<u8>)
    requires
        s.distinct_across_paths(),
        !s.cid_in_use(cid),
        forall|p: u64, c: Seq<u8>| #[trigger]
            has_cid(t.scids_of(p), c) ==> has_cid(s.scids_of(p), c) || (p == path_id && c == cid),
    ensures
        t.distinct_across_paths(),
{
    assert forall|p: u64, q: u64, c: Seq<u8>|
        #![trigger has_cid(t.scids_of(p), c), has_cid(t.scids_of(q), c)]
        has_cid(t.scids_of(p), c) && has_cid(t.scids_of(q), c) implies p == q by {
        assert(has_cid(s.scids_of(p), c) || (p == path_id && c == cid));
        assert(has_cid(s.scids_of(q), c) || (q == path_id && c == cid));
        if c == cid {
            assert(!has_cid(s.scids_of(p), c));
            assert(!has_cid(s.scids_of(q), c));
        }
    }
}

/// A connection ID of some path is in use.
pub proof fn lemma_in_use(s: IdsView, path_id: u64, cid: Seq<u8>)
    requires
        has_cid(s.scids_of(path_id), cid) || has_cid(s.dcids_of(path_id), cid),
    ensures
        s.cid_in_use(cid),
{
    let w = s.scids_of(path_id);
    assert(has_cid(s.scids_of(path_id), cid) || has_cid(s.dcids_of(path_id), cid));
}

/// Which connection IDs are in use depends on the queues of the paths alone.
pub proof fn lemma_in_use_same(s: IdsView, t: IdsView, cid: Seq<u8>)
    requires
        s.scids == t.scids,
        s.dcids == t.dcids,
        s.pools == t.pools,
    ensures
        s.cid_in_use(cid) == t.cid_in_use(cid),
{
    if s.cid_in_use(cid) {
        let p = choose|p: u64|
            {
                ||| has_cid(#[trigger] s.scids_of(p), cid)
                ||| has_cid(s.dcids_of(p), cid)
            };
        assert(s.scids_of(p) == t.scids_of(p));
        assert(s.dcids_of(p) == t.dcids_of(p));
        lemma_in_use(t, p, cid);
    }
    if t.cid_in_use(cid) {
        let p = choose|p: u64|
            {
                ||| has_cid(#[trigger] t.scids_of(p), cid)
                ||| has_cid(t.dcids_of(p), cid)
            };
        assert(s.scids_of(p) == t.scids_of(p));
        assert(s.dcids_of(p) == t.dcids_of(p));
        lemma_in_use(s, p, cid);
    }
}

/// Where the source CIDs are the same they stay distinct.
pub proof fn lemma_same_scids(s: IdsView, t: IdsView)
    requires
        s.distinct_across_paths(),
        s.scids == t.scids,
        s.pools == t.pools,
    ensures
        t.distinct_across_paths(),
{
    assert forall|p: u64, c: Seq<u8>| #[trigger] has_cid(t.scids_of(p), c) implies has_cid(
        s.scids_of(p),
        c,
    ) by {
        assert(t.scids_of(p) == s.scids_of(p));
    }
    lemma_distinct_shrinks(s, t);
}

/// A new connection starts from a valid state.
pub proof fn lemma_new_ids_valid(
    destination_conn_id_limit: usize,
    scid: Seq<u8>,
    path_id: usize,
    reset_token: Option<u128>,
)
    ensures
        new_ids(destination_conn_id_limit, scid, path_id, reset_token).valid(),
{
    let s = new_ids(destination_conn_id_limit, scid, path_id, reset_token);
    assert forall|p: u64, c: Seq<u8>| #[trigger] has_cid(s.scids_of(p), c) implies p == 0 by {}
    assert(s.pools.dom() =~= Set::<u64>::empty());
}

/// Adding a source CID to path 0 keeps the state valid.
pub proof fn lemma_add_scid_valid(
    s: IdsView,
    cid: Seq<u8>,
    reset_token: Option<u128>,
    advertise: bool,
    path_id: Option<usize>,
    retire_if_needed: bool,
)
    requires
        s.valid(),
        s.next_scid_seq < u64::MAX,
    ensures
        add_scid(s, cid, reset_token, advertise, path_id, retire_if_needed).0.valid(),
{
    let (t, r) = add_scid(s, cid, reset_token, advertise, path_id, retire_if_needed);
    let usable = |e: EntryView| e.seq >= s.retire_prior_to;
    if s.lowest_usable_scid() is Some {
        lemma_lowest_seq_exists(s.scids.entries, usable);
        let m = s.lowest_usable_scid().unwrap();
        let i = choose|i: int|
            0 <= i < s.scids.entries.len() && usable(#[trigger] s.scids.entries[i])
                && s.scids.entries[i].seq == m;
        assert(s.scids.entries[i].seq < s.next_scid_seq);
    }
    let es = s.scids.entries;
    let e = EntryView { cid, seq: s.next_scid_seq, reset_token, path_id };
    if t.scids.entries == es.push(e) {
        assert(has_cid(s.scids_of(0), cid) ==> s.cid_in_use(cid));
        if has_seq(es, e.seq) {
            let k = choose|k: int| 0 <= k < es.len() && (#[trigger] es[k]).seq == e.seq;
            assert(es[k].seq < s.next_scid_seq);
        }
        if !s.cid_in_use(cid) {
            lemma_push_unique(es, e);
            assert forall|p: u64, c: Seq<u8>| #[trigger] has_cid(t.scids_of(p), c) implies has_cid(
                s.scids_of(p),
                c,
            ) || (p == 0 && c == cid) by {
                if p == 0 {
                    lemma_has_cid_push(es, e, c);
                } else {
                    assert(t.scids_of(p) == s.scids_of(p));
                }
            }
            lemma_distinct_grows(s, t, 0, cid);
        }
    } else {
        assert forall|p: u64, c: Seq<u8>| #[trigger] has_cid(t.scids_of(p), c) implies has_cid(
            s.scids_of(p),
            c,
        ) by {
            assert(t.scids_of(p) == s.scids_of(p));
        }
        lemma_distinct_shrinks(s, t);
    }
}

/// What holds of a space and the retirements to announce.
pub open spec fn space_valid<T>(s: DcidSpace<T>) -> bool {
    &&& dcids_valid(s.dcids)
    &&& s.retire.finite()
    &&& s.retire.len() <= s.retire_capacity
}

/// The keys that find room stay within the limit.
pub proof fn lemma_queued_bounded<T>(held: Set<T>, cap: nat, ks: Seq<T>, n: int)
    requires
        held.finite(),
        held.len() <= cap,
        0 <= n <= ks.len(),
        forall|j: int| 0 <= j < n ==> #[trigger] queues_at(held, cap, ks, j),
    ensures
        held.union(ks.take(n).to_set()).finite(),
        held.union(ks.take(n).to_set()).len() <= cap,
    decreases n,
{
    if n == 0 {
        assert(held.union(ks.take(0).to_set()) =~= held);
    } else {
        lemma_queued_bounded(held, cap, ks, n - 1);
        assert(queues_at(held, cap, ks, n - 1));
        assert(ks.take(n) =~= ks.take(n - 1).push(ks[n - 1]));
        ks.take(n - 1).lemma_push_to_set_commute(ks[n - 1]);
        let before = held.union(ks.take(n - 1).to_set());
        assert(held.union(ks.take(n).to_set()) =~= before.insert(ks[n - 1]));
        if before.contains(ks[n - 1]) {
            assert(before.insert(ks[n - 1]) =~= before);
        }
    }
}

/// There always is a number of leading keys that can be queued.
pub proof fn lemma_queued_count_exists<T>(held: Set<T>, cap: nat, ks: Seq<T>)
    ensures
        is_queued_count(held, cap, ks, queued_count(held, cap, ks)),
{
    lemma_queued_from(held, cap, ks, 0);
}

/// Where the first `k` keys can be queued, some number of them is the most.
proof fn lemma_queued_from<T>(held: Set<T>, cap: nat, ks: Seq<T>, k: int)
    requires
        0 <= k <= ks.len(),
        forall|j: int| 0 <= j < k ==> #[trigger] queues_at(held, cap, ks, j),
    ensures
        exists|n: int| is_queued_count(held, cap, ks, n),
    decreases ks.len() - k,
{
    if k < ks.len() && queues_at(held, cap, ks, k) {
        lemma_queued_from(held, cap, ks, k + 1);
    } else {
        assert(is_queued_count(held, cap, ks, k));
    }
}

/// Which entries are left once those that do not satisfy `p` are taken away: some
/// of those that were there, without repetitions.
pub proof fn lemma_filter_unique(es: Seq<EntryView>, p: spec_fn(EntryView) -> bool)
    requires
        unique_seqs(es),
        unique_cids(es),
    ensures
        unique_seqs(es.filter(p)),
        unique_cids(es.filter(p)),
        es.filter(p).len() <= es.len(),
        forall|i: int|
            0 <= i < es.filter(p).len() ==> p(#[trigger] es.filter(p)[i]) && es.contains(
                es.filter(p)[i],
            ),
    decreases es.len(),
{
    reveal(Seq::filter);
    if es.len() > 0 {
        let front = es.drop_last();
        let last = es.last();
        assert forall|i: int, j: int|
            0 <= i < front.len() && 0 <= j < front.len() && ((#[trigger] front[i]).seq == (
            #[trigger] front[j]).seq || front[i].cid == front[j].cid) implies i == j by {
            assert(es[i] == front[i] && es[j] == front[j]);
        }
        lemma_filter_unique(front, p);
        let t = front.filter(p);
        assert forall|i: int| 0 <= i < t.len() implies (#[trigger] t[i]).seq != last.seq && t[i].cid
            != last.cid && es.contains(t[i]) by {
            let k = choose|k: int| 0 <= k < front.len() && front[k] == t[i];
            assert(es[k] == t[i]);
            assert(es[es.len() - 1] == last);
        }
        assert(es.contains(last));
        if p(last) {
            lemma_push_unique(t, last);
            assert(es.filter(p) =~= t.push(last));
        } else {
            assert(es.filter(p) =~= t);
        }
    }
}

/// An announcement keeps a space valid, and a space that holds a destination
/// CID does not run out of them.
pub proof fn lemma_announce_valid<T: SeqKey>(
    s: DcidSpace<T>,
    path_id: u64,
    cid: Seq<u8>,
    seq: u64,
    reset_token: u128,
    retire_prior_to: u64,
)
    requires
        space_valid(s),
    ensures
        space_valid(announce(s, path_id, cid, seq, reset_token, retire_prior_to).space),
        s.dcids.entries.len() >= 1 && s.dcids.capacity >= 1 ==> announce(
            s,
            path_id,
            cid,
            seq,
            reset_token,
            retire_prior_to,
        ).space.dcids.entries.len() >= 1,
{
    let es = s.dcids.entries;
    let a = announce(s, path_id, cid, seq, reset_token, retire_prior_to);
    if has_cid(es, cid) || has_seq(es, seq) || retire_prior_to > seq {
    } else if seq < s.largest_peer_retire_prior_to {
        let key = T::key_of(path_id, seq);
        if s.retire.contains(key) {
            assert(s.retire.insert(key) =~= s.retire);
        }
    } else {
        let advances = retire_prior_to > s.largest_peer_retire_prior_to;
        let retired = if advances {
            below(es, retire_prior_to)
        } else {
            Seq::empty()
        };
        let ks = keys::<T>(retired, path_id);
        let cap = s.retire_capacity as nat;
        lemma_queued_count_exists(s.retire, cap, ks);
        lemma_queued_bounded(s.retire, cap, ks, queued_count(s.retire, cap, ks));
        lemma_filter_unique(es, not_below(retire_prior_to));
        let left = if advances {
            from_bound(es, retire_prior_to)
        } else {
            es
        };
        let e = EntryView { cid, seq, reset_token: Some(reset_token), path_id: None };
        assert forall|i: int| 0 <= i < left.len() implies (#[trigger] left[i]).seq != seq
            && left[i].cid != cid by {
            assert(es.contains(left[i]));
            let k = choose|k: int| 0 <= k < es.len() && es[k] == left[i];
            assert(es[k].seq != seq && es[k].cid != cid);
        }
        if left.len() < s.dcids.capacity {
            lemma_push_unique(left, e);
        }
    }
}

/// The announcement of a destination CID on path 0 keeps the state valid.
pub proof fn lemma_add_dcid_valid(
    s: IdsView,
    cid: Seq<u8>,
    seq: u64,
    reset_token: u128,
    retire_prior_to: u64,
)
    requires
        s.valid(),
    ensures
        add_dcid(s, cid, seq, reset_token, retire_prior_to).0.valid(),
{
    let t = add_dcid(s, cid, seq, reset_token, retire_prior_to).0;
    lemma_announce_valid(s.dcid_space(), 0, cid, seq, reset_token, retire_prior_to);
    assert forall|p: u64, c: Seq<u8>| #[trigger] has_cid(t.scids_of(p), c) implies has_cid(
        s.scids_of(p),
        c,
    ) by {
        assert(t.scids_of(p) == s.scids_of(p));
    }
    lemma_distinct_shrinks(s, t);
}

/// Making a pool for a path keeps the state valid.
pub proof fn lemma_with_pool_for_valid(s: IdsView, path_id: u64)
    requires
        s.valid(),
        path_id != 0,
    ensures
        s.with_pool_for(path_id).valid(),
        s.with_pool_for(path_id).pools.contains_key(path_id),
        forall|p: u64| #[trigger] s.with_pool_for(path_id).scids_of(p) =~= s.scids_of(p),
        forall|p: u64| #[trigger] s.with_pool_for(path_id).dcids_of(p) =~= s.dcids_of(p),
        forall|c: Seq<u8>| #[trigger] s.with_pool_for(path_id).cid_in_use(c) == s.cid_in_use(c),
{
    let t = s.with_pool_for(path_id);
    assert forall|p: u64| #[trigger] t.scids_of(p) =~= s.scids_of(p) by {}
    assert forall|p: u64| #[trigger] t.dcids_of(p) =~= s.dcids_of(p) by {}
    assert forall|p: u64, c: Seq<u8>| #[trigger] has_cid(t.scids_of(p), c) implies has_cid(
        s.scids_of(p),
        c,
    ) by {
        assert(t.scids_of(p) =~= s.scids_of(p));
    }
    lemma_distinct_shrinks(s, t);
    if !s.pools.contains_key(path_id) {
        assert(t.pools.dom() =~= s.pools.dom().insert(path_id));
        assert forall|p: u64| #[trigger] t.pools.contains_key(p) implies p != 0
            && t.pools[p].valid() by {
            if p != path_id {
                assert(s.pools.contains_key(p));
            }
        }
    }
    assert forall|c: Seq<u8>| #[trigger] t.cid_in_use(c) == s.cid_in_use(c) by {
        if s.cid_in_use(c) {
            let p = choose|p: u64|
                {
                    ||| has_cid(#[trigger] s.scids_of(p), c)
                    ||| has_cid(s.dcids_of(p), c)
                };
            assert(t.scids_of(p) =~= s.scids_of(p));
            assert(t.dcids_of(p) =~= s.dcids_of(p));
        }
        if t.cid_in_use(c) {
            let p = choose|p: u64|
                {
                    ||| has_cid(#[trigger] t.scids_of(p), c)
                    ||| has_cid(t.dcids_of(p), c)
                };
            assert(t.scids_of(p) =~= s.scids_of(p));
            assert(t.dcids_of(p) =~= s.dcids_of(p));
        }
    }
}

/// Replacing the pool of a path by a valid one that holds no other source CIDs
/// keeps the state valid.
pub proof fn lemma_with_pool_valid(s: IdsView, path_id: u64, p: PoolView)
    requires
        s.valid(),
        s.pools.contains_key(path_id),
        p.valid(),
        p.dcids.capacity <= s.dcids.capacity,
        forall|c: Seq<u8>| #[trigger]
            has_cid(p.scids.entries, c) ==> has_cid(s.pools[path_id].scids.entries, c),
    ensures
        s.with_pool(path_id, p).valid(),
        s.with_pool(path_id, p).pools.dom() =~= s.pools.dom(),
{
    let t = s.with_pool(path_id, p);
    assert(t.pools.dom() =~= s.pools.dom());
    assert forall|q: u64| #[trigger] t.pools.contains_key(q) implies q != 0 && t.pools[q].valid()
        && t.pools[q].dcids.capacity <= t.dcids.capacity by {
        assert(s.pools.contains_key(q));
    }
    assert forall|q: u64, c: Seq<u8>| #[trigger] has_cid(t.scids_of(q), c) implies has_cid(
        s.scids_of(q),
        c,
    ) by {
        if q == path_id {
            assert(t.scids_of(q) == p.scids.entries);
        } else {
            assert(t.scids_of(q) == s.scids_of(q));
        }
    }
    lemma_distinct_shrinks(s, t);
}

/// The announcement of a destination CID on any path keeps the state valid.
pub proof fn lemma_mp_add_dcid_valid(
    s: IdsView,
    path_id: u64,
    cid: Seq<u8>,
    seq: u64,
    reset_token: u128,
    retire_prior_to: u64,
)
    requires
        s.valid(),
    ensures
        mp_add_dcid(s, path_id, cid, seq, reset_token, retire_prior_to).0.valid(),
{
    if path_id == 0 {
        lemma_add_dcid_valid(s, cid, seq, reset_token, retire_prior_to);
    } else if !s.zero_length_dcid {
        let u = s.with_pool_for(path_id);
        lemma_with_pool_for_valid(s, path_id);
        let t = with_dcid_room(u, path_id);
        lemma_with_pool_valid(u, path_id, t.pools[path_id]);
        lemma_announce_valid(
            t.mp_dcid_space(path_id),
            path_id,
            cid,
            seq,
            reset_token,
            retire_prior_to,
        );
        let a = announce(
            t.mp_dcid_space(path_id),
            path_id,
            cid,
            seq,
            reset_token,
            retire_prior_to,
        );
        let v = t.with_mp_dcid_space(path_id, a.space);
        lemma_with_pool_valid(t, path_id, v.pools[path_id]);
        let w = t.with_pool(path_id, v.pools[path_id]);
        assert forall|q: u64| v.scids_of(q) == w.scids_of(q) by {}
        lemma_distinct_shrinks(w, v);
    }
}

/// Adding a source CID to any path keeps the state valid.
pub proof fn lemma_mp_add_scid_valid(s: IdsView, path_id: u64, cid: Seq<u8>, reset_token: u128)
    requires
        s.valid(),
        path_id == 0 ==> s.next_scid_seq < u64::MAX,
        path_id != 0 && s.pools.contains_key(path_id) ==> s.pools[path_id].next_scid_seq
            < u64::MAX,
    ensures
        mp_add_scid(s, path_id, cid, reset_token).0.valid(),
{
    let (t, r) = mp_add_scid(s, path_id, cid, reset_token);
    if path_id == 0 {
        lemma_add_scid_valid(s, cid, Some(reset_token), true, None, false);
    } else if !(s.zero_length_scid || s.cid_in_use(cid)) {
        let u = s.with_pool_for(path_id);
        lemma_with_pool_for_valid(s, path_id);
        let p = u.pools[path_id];
        if p.scids.entries.len() < s.source_conn_id_limit {
            let es = p.scids.entries;
            let e = EntryView {
                cid,
                seq: p.next_scid_seq,
                reset_token: Some(reset_token),
                path_id: None,
            };
            assert(u.scids_of(path_id) == es);
            assert(!u.cid_in_use(cid));
            assert(!has_cid(es, cid));
            if has_seq(es, e.seq) {
                let k = choose|k: int| 0 <= k < es.len() && (#[trigger] es[k]).seq == e.seq;
                assert(es[k].seq < p.next_scid_seq);
            }
            lemma_push_unique(es, e);
            assert(t.pools.dom() =~= u.pools.dom());
            assert forall|q: u64| #[trigger] t.pools.contains_key(q) implies q != 0
                && t.pools[q].valid() by {
                assert(u.pools.contains_key(q));
            }
            assert forall|q: u64, c: Seq<u8>| #[trigger] has_cid(t.scids_of(q), c) implies has_cid(
                u.scids_of(q),
                c,
            ) || (q == path_id && c == cid) by {
                if q == path_id {
                    lemma_has_cid_push(es, e, c);
                } else {
                    assert(t.scids_of(q) == u.scids_of(q));
                }
            }
            lemma_distinct_grows(u, t, path_id, cid);
        }
    }
}

/// Retiring a source CID of path 0 keeps the state valid.
pub proof fn lemma_drop_scid_valid(s: IdsView, seq: u64, pkt_dcid: Seq<u8>)
    requires
        s.valid(),
    ensures
        drop_scid(s, seq, pkt_dcid).0.valid(),
{
    let t = drop_scid(s, seq, pkt_dcid).0;
    let es = s.scids.entries;
    if t.scids.entries != es {
        lemma_remove_facts(es, index_of_seq(es, seq));
        let left = without_seq(es, seq);
        let p = |e: EntryView| e.seq >= s.retire_prior_to;
        if lowest_seq(left, p) is Some {
            lemma_lowest_seq_exists(left, p);
            let m = lowest_seq(left, p).unwrap();
            let i = choose|i: int|
                0 <= i < left.len() && p(#[trigger] left[i]) && left[i].seq == m;
            assert(left[i].seq < s.next_scid_seq);
        }
    }
    assert forall|q: u64, c: Seq<u8>| #[trigger] has_cid(t.scids_of(q), c) implies has_cid(
        s.scids_of(q),
        c,
    ) by {
        if q != 0 {
            assert(t.scids_of(q) == s.scids_of(q));
        }
    }
    lemma_distinct_shrinks(s, t);
}

/// Retiring a source CID of any path keeps the state valid.
pub proof fn lemma_mp_drop_scid_valid(s: IdsView, path_id: u64, seq: u64, pkt_dcid: Seq<u8>)
    requires
        s.valid(),
    ensures
        mp_drop_scid(s, path_id, seq, pkt_dcid).0.valid(),
{
    let t = mp_drop_scid(s, path_id, seq, pkt_dcid).0;
    if path_id == 0 {
        lemma_drop_scid_valid(s, seq, pkt_dcid);
    } else if s.pools.contains_key(path_id) && has_seq(s.pools[path_id].scids.entries, seq) && seq
        < s.pools[path_id].next_scid_seq {
        let es = s.pools[path_id].scids.entries;
        lemma_remove_facts(es, index_of_seq(es, seq));
        lemma_with_pool_valid(s, path_id, t.pools[path_id]);
        let w = s.with_pool(path_id, t.pools[path_id]);
        assert forall|q: u64| t.scids_of(q) == w.scids_of(q) by {}
        lemma_distinct_shrinks(w, t);
    }
}

/// Retiring a destination CID of path 0 keeps the state valid.
pub proof fn lemma_drop_dcid_valid(s: IdsView, seq: u64)
    requires
        s.valid(),
    ensures
        drop_dcid(s, seq).0.valid(),
{
    let t = drop_dcid(s, seq).0;
    let es = s.dcids.entries;
    if t.dcids.entries != es {
        lemma_remove_facts(es, index_of_seq(es, seq));
    }
    if s.retire.contains(seq) {
        assert(s.retire.insert(seq) =~= s.retire);
    }
    assert forall|q: u64| t.scids_of(q) == s.scids_of(q) by {}
    lemma_distinct_shrinks(s, t);
}

/// Retiring a destination CID of any path keeps the state valid.
pub proof fn lemma_mp_drop_dcid_valid(s: IdsView, path_id: u64, seq: u64)
    requires
        s.valid(),
    ensures
        mp_drop_dcid(s, path_id, seq).0.valid(),
{
    let t = mp_drop_dcid(s, path_id, seq).0;
    if path_id == 0 {
        lemma_drop_dcid_valid(s, seq);
    } else if s.pools.contains_key(path_id) && has_seq(s.pools[path_id].dcids.entries, seq)
        && !s.zero_length_dcid && s.pools[path_id].dcids.entries.len() > 1 {
        let es = s.pools[path_id].dcids.entries;
        lemma_remove_facts(es, index_of_seq(es, seq));
        lemma_with_pool_valid(s, path_id, t.pools[path_id]);
        let w = s.with_pool(path_id, t.pools[path_id]);
        if s.mp_retire.contains((path_id, seq)) {
            assert(s.mp_retire.insert((path_id, seq)) =~= s.mp_retire);
        }
        assert forall|q: u64| t.scids_of(q) == w.scids_of(q) by {}
        lemma_distinct_shrinks(w, t);
    }
}

/// Abandoning a path keeps the state valid.
pub proof fn lemma_drop_dcid_pool_valid(s: IdsView, path_id: u64)
    requires
        s.valid(),
    ensures
        drop_dcid_pool(s, path_id).valid(),
{
    let t = drop_dcid_pool(s, path_id);
    if path_id == 0 {
        lemma_same_scids(s, t);
    } else {
        vstd::set_lib::lemma_len_subset(t.mp_retire, s.mp_retire);
        if s.pools.contains_key(path_id) {
            lemma_with_pool_valid(s, path_id, t.pools[path_id]);
            lemma_same_scids(s.with_pool(path_id, t.pools[path_id]), t);
        } else {
            lemma_same_scids(s, t);
        }
    }
}

/// Removing the pools of a path keeps the state valid.
pub proof fn lemma_drop_path_pools_valid(s: IdsView, path_id: u64)
    requires
        s.valid(),
    ensures
        drop_path_pools(s, path_id).valid(),
{
    let t = drop_path_pools(s, path_id);
    if path_id != 0 {
        vstd::set_lib::lemma_len_subset(t.mp_retire, s.mp_retire);
        assert(t.pools.dom() =~= s.pools.dom().remove(path_id));
        assert forall|p: u64| #[trigger] t.pools.contains_key(p) implies p != 0
            && t.pools[p].valid() by {
            assert(s.pools.contains_key(p));
        }
        assert forall|q: u64, c: Seq<u8>| #[trigger] has_cid(t.scids_of(q), c) implies has_cid(
            s.scids_of(q),
            c,
        ) by {
            if q != path_id {
                assert(t.scids_of(q) == s.scids_of(q));
            }
        }
        lemma_distinct_shrinks(s, t);
    }
}

/// Linking a source CID to a path keeps the state valid.
pub proof fn lemma_link_scid_valid(s: IdsView, seq: u64, path_id: usize)
    requires
        s.valid(),
    ensures
        link_scid(s, seq, path_id).0.valid(),
{
    let t = link_scid(s, seq, path_id).0;
    if has_seq(s.scids.entries, seq) {
        lemma_link_facts(s.scids.entries, seq, path_id);
        assert forall|q: u64, c: Seq<u8>| #[trigger] has_cid(t.scids_of(q), c) implies has_cid(
            s.scids_of(q),
            c,
        ) by {
            if q != 0 {
                assert(t.scids_of(q) == s.scids_of(q));
            }
        }
        lemma_distinct_shrinks(s, t);
    }
}

/// Linking a destination CID to a path keeps the state valid.
pub proof fn lemma_link_dcid_valid(s: IdsView, path_id: u64, seq: u64, four_tuple: usize)
    requires
        s.valid(),
    ensures
        link_dcid(s, path_id, seq, four_tuple).0.valid(),
{
    let t = link_dcid(s, path_id, seq, four_tuple).0;
    if has_seq(s.dcids_of(path_id), seq) {
        lemma_link_facts(s.dcids_of(path_id), seq, four_tuple);
        if path_id == 0 {
            lemma_same_scids(s, t);
        } else {
            lemma_with_pool_valid(s, path_id, t.pools[path_id]);
        }
    }
}

/// Changing the limit on source CIDs keeps the state valid.
pub proof fn lemma_with_source_limit_valid(s: IdsView, v: u64)
    requires
        s.valid(),
    ensures
        with_source_limit(s, v).valid(),
{
    let t = with_source_limit(s, v);
    assert forall|q: u64, c: Seq<u8>| #[trigger] has_cid(t.scids_of(q), c) implies has_cid(
        s.scids_of(q),
        c,
    ) by {
        assert(t.scids_of(q) == s.scids_of(q));
    }
    lemma_distinct_shrinks(s, t);
}

} // verus!
