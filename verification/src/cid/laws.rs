//! What holds of the connection IDs of a connection across operations.

use crate::bounded::SeqKey;
use crate::cid::entries::{
    below, from_bound, has_cid, has_seq, index_of_seq, is_below, lemma_seq_index, not_below,
    unique_cids, unique_seqs,
    without_seq, EntryView,
};
use crate::cid::model::{
    add_dcid, add_scid, announce, drop_dcid, drop_dcid_pool, drop_path_pools, drop_scid, keys,
    legacy_triples, link_dcid, mark_retired, marked, mp_add_dcid, mp_add_scid, mp_drop_dcid,
    mp_drop_scid, path_triples, with_dcid_room, Announced, DcidSpace, IdsView,
};
use crate::cid::validity::{
    lemma_announce_valid, lemma_filter_unique, lemma_queued_count_exists, lemma_remove_facts,
    lemma_with_pool_for_valid, lemma_with_pool_valid, space_valid,
};
use crate::error::Error;
use vstd::prelude::*;

verus! {

/// Path ID 0 and the connection's initial path are the same thing: the per-path
/// operations do on path 0 what the single-space operations do.
pub proof fn law_path_zero_is_initial_path(
    s: IdsView,
    cid: Seq<u8>,
    seq: u64,
    reset_token: u128,
    retire_prior_to: u64,
    pkt_dcid: Seq<u8>,
)
    ensures
        mp_add_scid(s, 0, cid, reset_token) == add_scid(
            s,
            cid,
            Some(reset_token),
            true,
            None,
            false,
        ),
        ({
            let (t, pairs, r) = add_dcid(s, cid, seq, reset_token, retire_prior_to);
            mp_add_dcid(s, 0, cid, seq, reset_token, retire_prior_to) == (
                t,
                legacy_triples(pairs),
                r,
            )
        }),
        mp_drop_dcid(s, 0, seq) == drop_dcid(s, seq),
        mp_drop_scid(s, 0, seq, pkt_dcid).0 == drop_scid(s, seq, pkt_dcid).0,
        mp_drop_scid(s, 0, seq, pkt_dcid).1 is Ok == drop_scid(s, seq, pkt_dcid).1 is Ok,
{
}

/// The bytes of a source connection ID occur once on the whole connection: they
/// determine the path and the place in its queue.
pub proof fn law_scid_determines_path(s: IdsView, p: u64, q: u64, i: int, j: int)
    requires
        s.valid(),
        0 <= i < s.scids_of(p).len(),
        0 <= j < s.scids_of(q).len(),
        s.scids_of(p)[i].cid == s.scids_of(q)[j].cid,
    ensures
        p == q,
        i == j,
{
    let c = s.scids_of(p)[i].cid;
    assert(has_cid(s.scids_of(p), c));
    assert(has_cid(s.scids_of(q), c));
    if p != 0 {
        assert(s.pools.contains_key(p));
    }
}

/// The limit on active destination connection IDs applies to each path on its own:
/// no path has more of them than path 0 may have.
pub proof fn law_dcid_limit_applies_per_path(s: IdsView, path_id: u64)
    requires
        s.valid(),
    ensures
        s.dcids_of(path_id).len() <= s.dcids.capacity,
{
    if path_id != 0 && s.pools.contains_key(path_id) {
        assert(s.pools[path_id].valid());
    }
}

/// A source connection ID that is new to a path gets a sequence number that the
/// path has not used, and the next one gets the number after it.
pub proof fn law_scid_seq_is_fresh(s: IdsView, path_id: u64, cid: Seq<u8>, reset_token: u128)
    requires
        s.valid(),
        path_id == 0 ==> s.next_scid_seq < u64::MAX,
        path_id != 0 && s.pools.contains_key(path_id) ==> s.pools[path_id].next_scid_seq
            < u64::MAX,
        mp_add_scid(s, path_id, cid, reset_token).1 is Ok,
        !has_cid(s.scids_of(path_id), cid),
    ensures
        ({
            let (t, r) = mp_add_scid(s, path_id, cid, reset_token);
            let seq = r.unwrap();
            &&& !has_seq(s.scids_of(path_id), seq)
            &&& t.scids_of(path_id) == s.scids_of(path_id).push(
                EntryView { cid, seq, reset_token: Some(reset_token), path_id: None },
            )
            &&& if path_id == 0 {
                seq == s.next_scid_seq && t.next_scid_seq == seq + 1
            } else {
                t.pools[path_id].next_scid_seq == seq + 1
            }
        }),
{
    let (t, r) = mp_add_scid(s, path_id, cid, reset_token);
    let seq = r.unwrap();
    let es = s.scids_of(path_id);
    if has_seq(es, seq) {
        let k = index_of_seq(es, seq);
        assert(es[k].seq == seq);
        if path_id != 0 {
            assert(s.pools.contains_key(path_id));
        }
    }
    assert(t.scids_of(path_id) =~= es.push(
        EntryView { cid, seq, reset_token: Some(reset_token), path_id: None },
    ));
}

/// A source connection ID that is not in use can be issued for a path exactly as
/// long as the path has fewer of them than the peer allows, and it is the limit that
/// stands in the way otherwise.
pub proof fn law_scids_can_be_issued_up_to_the_limit(
    s: IdsView,
    path_id: u64,
    cid: Seq<u8>,
    reset_token: u128,
)
    requires
        s.valid(),
        !s.zero_length_scid,
        !s.cid_in_use(cid),
    ensures
        ({
            let (t, r) = mp_add_scid(s, path_id, cid, reset_token);
            if s.scids_of(path_id).len() < s.source_conn_id_limit {
                r is Ok && t.scids_of(path_id).len() == s.scids_of(path_id).len() + 1
            } else {
                r == Err::<u64, Error>(Error::IdLimit) && t.scids_of(path_id) == s.scids_of(
                    path_id,
                )
            }
        }),
{
    assert(!has_cid(s.scids_of(0), cid));
    assert(s.with_pool_for(path_id).scids_of(path_id) =~= s.scids_of(path_id));
}

/// An operation on one path leaves the connection IDs of the others alone.
pub proof fn law_paths_are_independent(
    s: IdsView,
    path_id: u64,
    other: u64,
    cid: Seq<u8>,
    seq: u64,
    reset_token: u128,
    retire_prior_to: u64,
    pkt_dcid: Seq<u8>,
    four_tuple: usize,
)
    requires
        s.valid(),
        other != path_id,
    ensures
        mp_add_scid(s, path_id, cid, reset_token).0.scids_of(other) == s.scids_of(other),
        mp_add_scid(s, path_id, cid, reset_token).0.dcids_of(other) == s.dcids_of(other),
        mp_add_dcid(s, path_id, cid, seq, reset_token, retire_prior_to).0.scids_of(other)
            == s.scids_of(other),
        mp_add_dcid(s, path_id, cid, seq, reset_token, retire_prior_to).0.dcids_of(other)
            == s.dcids_of(other),
        mp_drop_scid(s, path_id, seq, pkt_dcid).0.scids_of(other) == s.scids_of(other),
        mp_drop_scid(s, path_id, seq, pkt_dcid).0.dcids_of(other) == s.dcids_of(other),
        mp_drop_dcid(s, path_id, seq).0.scids_of(other) == s.scids_of(other),
        mp_drop_dcid(s, path_id, seq).0.dcids_of(other) == s.dcids_of(other),
        link_dcid(s, path_id, seq, four_tuple).0.scids_of(other) == s.scids_of(other),
        link_dcid(s, path_id, seq, four_tuple).0.dcids_of(other) == s.dcids_of(other),
        drop_dcid_pool(s, path_id).scids_of(other) == s.scids_of(other),
        drop_dcid_pool(s, path_id).dcids_of(other) == s.dcids_of(other),
        drop_path_pools(s, path_id).scids_of(other) == s.scids_of(other),
        drop_path_pools(s, path_id).dcids_of(other) == s.dcids_of(other),
{
}

/// Repeating an announcement that was accepted changes nothing, reports nothing
/// and succeeds.
pub proof fn law_announcement_is_idempotent<T: SeqKey>(
    s: DcidSpace<T>,
    path_id: u64,
    cid: Seq<u8>,
    seq: u64,
    reset_token: u128,
    retire_prior_to: u64,
)
    requires
        space_valid(s),
        announce(s, path_id, cid, seq, reset_token, retire_prior_to).result is Ok,
    ensures
        ({
            let t = announce(s, path_id, cid, seq, reset_token, retire_prior_to).space;
            announce(t, path_id, cid, seq, reset_token, retire_prior_to) == (Announced {
                space: t,
                reported: Seq::empty(),
                result: Ok(()),
            })
        }),
{
    let t = announce(s, path_id, cid, seq, reset_token, retire_prior_to).space;
    let es = s.dcids.entries;
    let fs = t.dcids.entries;
    if has_cid(es, cid) || has_seq(es, seq) {
        assert(t == s);
    } else if seq < s.largest_peer_retire_prior_to {
        assert(t.retire.insert(T::key_of(path_id, seq)) =~= t.retire);
    } else {
        lemma_announce_valid(s, path_id, cid, seq, reset_token, retire_prior_to);
        let i = fs.len() - 1;
        assert(fs[i].seq == seq);
        lemma_seq_index(fs, seq, i);
    }
}

/// An announcement that contradicts one of the active destination connection
/// IDs is refused and changes nothing.
pub proof fn law_contradiction_is_refused<T: SeqKey>(
    s: DcidSpace<T>,
    path_id: u64,
    i: int,
    cid: Seq<u8>,
    seq: u64,
    reset_token: u128,
    retire_prior_to: u64,
)
    requires
        space_valid(s),
        0 <= i < s.dcids.entries.len(),
        s.dcids.entries[i].cid == cid || s.dcids.entries[i].seq == seq,
        !(s.dcids.entries[i].cid == cid && s.dcids.entries[i].seq == seq
            && s.dcids.entries[i].reset_token == Some(reset_token)),
    ensures
        announce(s, path_id, cid, seq, reset_token, retire_prior_to) == (Announced {
            space: s,
            reported: Seq::empty(),
            result: Err(Error::InvalidFrame),
        }),
{
    let es = s.dcids.entries;
    assert(has_cid(es, cid) || has_seq(es, seq));
    if has_seq(es, seq) {
        let k = index_of_seq(es, seq);
        if es[i].seq == seq {
            lemma_seq_index(es, seq, i);
        } else {
            assert(es[k].cid != es[i].cid);
        }
    }
}

/// An announcement that raises the "Retire Prior To" of a space retires every older
/// connection ID, in whatever order they arrived: those that are left active are not
/// below it, and, unless the limit on pending retirements was hit, exactly the older
/// ones are reported and their retirements are pending.
pub proof fn law_retire_prior_to_is_obeyed<T: SeqKey>(
    s: DcidSpace<T>,
    path_id: u64,
    cid: Seq<u8>,
    seq: u64,
    reset_token: u128,
    retire_prior_to: u64,
)
    requires
        space_valid(s),
        !has_cid(s.dcids.entries, cid),
        !has_seq(s.dcids.entries, seq),
        s.largest_peer_retire_prior_to < retire_prior_to <= seq,
    ensures
        ({
            let a = announce(s, path_id, cid, seq, reset_token, retire_prior_to);
            let es = s.dcids.entries;
            &&& a.space.largest_peer_retire_prior_to == retire_prior_to
            &&& forall|i: int|
                0 <= i < a.space.dcids.entries.len() ==> (
                #[trigger] a.space.dcids.entries[i]).seq >= retire_prior_to
            &&& forall|i: int|
                0 <= i < es.len() && (#[trigger] es[i]).seq >= retire_prior_to
                    ==> a.space.dcids.entries.contains(es[i])
            &&& forall|i: int|
                0 <= i < a.reported.len() ==> (#[trigger] a.reported[i]).seq < retire_prior_to
                    && es.contains(a.reported[i])
            &&& a.result is Ok ==> a.space.dcids.entries == from_bound(es, retire_prior_to).push(
                EntryView { cid, seq, reset_token: Some(reset_token), path_id: None },
            )
            &&& a.result is Ok ==> a.reported == below(es, retire_prior_to)
            &&& a.result is Ok ==> forall|i: int|
                0 <= i < es.len() && (#[trigger] es[i]).seq < retire_prior_to
                    ==> a.reported.contains(es[i]) && a.space.retire.contains(
                    T::key_of(path_id, es[i].seq),
                )
        }),
{
    let a = announce(s, path_id, cid, seq, reset_token, retire_prior_to);
    let es = s.dcids.entries;
    let retired = below(es, retire_prior_to);
    let left = from_bound(es, retire_prior_to);
    let ks = keys::<T>(retired, path_id);
    lemma_queued_count_exists(s.retire, s.retire_capacity as nat, ks);
    lemma_filter_unique(es, is_below(retire_prior_to));
    lemma_filter_unique(es, not_below(retire_prior_to));
    assert forall|i: int| 0 <= i < a.space.dcids.entries.len() implies (
    #[trigger] a.space.dcids.entries[i]).seq >= retire_prior_to by {
        if i < left.len() {
            assert(a.space.dcids.entries[i] == left[i]);
        }
    }
    assert forall|i: int|
        0 <= i < es.len() && (#[trigger] es[i]).seq >= retire_prior_to implies a.space.dcids.entries.contains(
        es[i],
    ) by {
        es.lemma_filter_contains(not_below(retire_prior_to), i);
        let k = choose|k: int| 0 <= k < left.len() && left[k] == es[i];
        assert(a.space.dcids.entries[k] == es[i]);
    }
    assert forall|i: int| 0 <= i < a.reported.len() implies (#[trigger] a.reported[i]).seq
        < retire_prior_to && es.contains(a.reported[i]) by {
        assert(a.reported[i] == retired[i]);
    }
    if a.result is Ok {
        assert(a.reported =~= retired);
        assert forall|i: int|
            0 <= i < es.len() && (#[trigger] es[i]).seq < retire_prior_to implies a.reported.contains(
            es[i],
        ) && a.space.retire.contains(T::key_of(path_id, es[i].seq)) by {
            es.lemma_filter_contains(is_below(retire_prior_to), i);
            let k = choose|k: int| 0 <= k < retired.len() && retired[k] == es[i];
            assert(ks[k] == T::key_of(path_id, es[i].seq));
            assert(ks.take(ks.len() as int) =~= ks);
            assert(ks.contains(ks[k]));
        }
    }
}

/// A "Retire Prior To" that was raised on a non-zero path retires exactly the older
/// connection IDs of that path: each is reported, with the 4-tuple path that was
/// using it if any was, and its retirement is pending.
pub proof fn law_path_retires_every_older_dcid(
    s: IdsView,
    path_id: u64,
    cid: Seq<u8>,
    seq: u64,
    reset_token: u128,
    retire_prior_to: u64,
)
    requires
        s.valid(),
        path_id != 0,
        !has_cid(s.dcids_of(path_id), cid),
        !has_seq(s.dcids_of(path_id), seq),
        0 < retire_prior_to <= seq,
        s.pools.contains_key(path_id) ==> s.pools[path_id].largest_peer_retire_prior_to
            < retire_prior_to,
        mp_add_dcid(s, path_id, cid, seq, reset_token, retire_prior_to).2 is Ok,
    ensures
        ({
            let (t, triples, _) = mp_add_dcid(s, path_id, cid, seq, reset_token, retire_prior_to);
            let es = s.dcids_of(path_id);
            &&& t.dcids_of(path_id) == from_bound(es, retire_prior_to).push(
                EntryView { cid, seq, reset_token: Some(reset_token), path_id: None },
            )
            &&& triples == path_triples(path_id, below(es, retire_prior_to))
            &&& forall|i: int|
                0 <= i < es.len() && (#[trigger] es[i]).seq < retire_prior_to
                    ==> t.mp_retire.contains((path_id, es[i].seq))
        }),
{
    let u = with_dcid_room(s.with_pool_for(path_id), path_id);
    lemma_with_pool_for_valid(s, path_id);
    lemma_with_pool_valid(s.with_pool_for(path_id), path_id, u.pools[path_id]);
    assert(u.pools.contains_key(path_id));
    let sp = u.mp_dcid_space(path_id);
    assert(sp.dcids.entries =~= s.dcids_of(path_id));
    law_retire_prior_to_is_obeyed(sp, path_id, cid, seq, reset_token, retire_prior_to);
}

/// The sequence number to advertise next stays the same until it is itself
/// taken away.
pub proof fn law_next_advertised_is_stable<T>(advertise: Seq<T>, k: T, add: bool)
    requires
        advertise.len() > 0,
        add || k != advertise[0],
    ensures
        marked(advertise, k, add).len() > 0,
        marked(advertise, k, add)[0] == advertise[0],
{
    if !add && advertise.contains(k) {
        advertise.index_of_first_ensures(k);
    }
}

/// Adding a retirement that is pending already succeeds, even at the limit, and
/// changes nothing.
pub proof fn law_pending_retirement_can_be_repeated<T>(held: Set<T>, cap: usize, k: T)
    requires
        held.contains(k),
    ensures
        mark_retired(held, cap, k, true) == (held, Ok::<(), Error>(())),
{
    assert(held.insert(k) =~= held);
}

/// Taking back a retirement that was just added restores the pending ones.
pub proof fn law_retirement_can_be_taken_back<T>(held: Set<T>, cap: usize, k: T)
    requires
        !held.contains(k),
    ensures
        mark_retired(mark_retired(held, cap, k, true).0, cap, k, false) == (
            held,
            Ok::<(), Error>(()),
        ),
{
    assert(held.insert(k).remove(k) =~= held);
    assert(held.remove(k) =~= held);
}

/// A destination connection ID whose retirement succeeds is no longer active,
/// and its retirement is pending.
pub proof fn law_retired_dcid_is_pending(s: IdsView, path_id: u64, seq: u64)
    requires
        s.valid(),
        mp_drop_dcid(s, path_id, seq).1 is Ok,
    ensures
        has_seq(s.dcids_of(path_id), seq),
        !has_seq(mp_drop_dcid(s, path_id, seq).0.dcids_of(path_id), seq),
        path_id == 0 ==> mp_drop_dcid(s, path_id, seq).0.retire == s.retire.insert(seq),
        path_id != 0 ==> mp_drop_dcid(s, path_id, seq).0.mp_retire == s.mp_retire.insert(
            (path_id, seq),
        ),
{
    let es = s.dcids_of(path_id);
    if path_id != 0 {
        assert(s.pools.contains_key(path_id));
    }
    lemma_without_seq(es, seq);
}

/// Without the entry that has a sequence number no entry has it.
proof fn lemma_without_seq(es: Seq<EntryView>, seq: u64)
    requires
        unique_seqs(es),
        unique_cids(es),
    ensures
        !has_seq(without_seq(es, seq), seq),
        has_seq(es, seq) ==> without_seq(es, seq).len() == es.len() - 1,
{
    if has_seq(es, seq) {
        let i = index_of_seq(es, seq);
        lemma_remove_facts(es, i);
        let t = without_seq(es, seq);
        if has_seq(t, seq) {
            let k = index_of_seq(t, seq);
            assert(t[k].seq == seq);
            let m = if k < i {
                k
            } else {
                k + 1
            };
            assert(es[m].seq == es[i].seq);
        }
    }
}

/// A source connection ID that the peer retires is no longer active, and the
/// application is notified of it.
pub proof fn law_retired_scid_is_notified(s: IdsView, path_id: u64, seq: u64, pkt_dcid: Seq<u8>)
    requires
        s.valid(),
        mp_drop_scid(s, path_id, seq, pkt_dcid).1 matches Ok(Some(_)),
    ensures
        ({
            let (t, r) = mp_drop_scid(s, path_id, seq, pkt_dcid);
            &&& !has_seq(t.scids_of(path_id), seq)
            &&& t.scids_of(path_id).len() == s.scids_of(path_id).len() - 1
            &&& r matches Ok(Some(c)) && c != pkt_dcid && t.retired_scids
                == s.retired_scids.push(c)
        }),
{
    if path_id != 0 {
        assert(s.pools.contains_key(path_id));
    }
    lemma_without_seq(s.scids_of(path_id), seq);
}

/// Retiring a source connection ID of a path makes room for a replacement: it
/// can be issued where the bytes of the new one are not in use.
pub proof fn law_retired_scid_can_be_replaced(
    s: IdsView,
    path_id: u64,
    seq: u64,
    pkt_dcid: Seq<u8>,
    cid: Seq<u8>,
    reset_token: u128,
)
    requires
        s.valid(),
        path_id != 0,
        !s.zero_length_scid,
        s.scids_of(path_id).len() <= s.source_conn_id_limit,
        mp_drop_scid(s, path_id, seq, pkt_dcid).1 matches Ok(Some(_)),
        !mp_drop_scid(s, path_id, seq, pkt_dcid).0.cid_in_use(cid),
    ensures
        mp_add_scid(mp_drop_scid(s, path_id, seq, pkt_dcid).0, path_id, cid, reset_token).1 == Ok::<
            u64,
            Error,
        >(s.pools[path_id].next_scid_seq),
{
    law_retired_scid_is_notified(s, path_id, seq, pkt_dcid);
    assert(s.pools.contains_key(path_id));
}

/// Abandoning a path retires its destination connection IDs without a pending
/// retirement, and keeps every source connection ID.
pub proof fn law_abandoned_path_keeps_scids(s: IdsView, path_id: u64, p: u64, seq: u64)
    requires
        path_id != 0,
    ensures
        drop_dcid_pool(s, path_id).dcids_of(path_id) == Seq::<EntryView>::empty(),
        drop_dcid_pool(s, path_id).scids_of(p) == s.scids_of(p),
        !drop_dcid_pool(s, path_id).mp_retire.contains((path_id, seq)),
        p != path_id ==> drop_dcid_pool(s, path_id).mp_retire.contains((p, seq))
            == s.mp_retire.contains((p, seq)),
{
}

/// Nothing of a removed path is left: no connection ID, no advertisement and no
/// retirement.
pub proof fn law_removed_path_leaves_nothing(s: IdsView, path_id: u64, seq: u64)
    requires
        path_id != 0,
    ensures
        drop_path_pools(s, path_id).scids_of(path_id) == Seq::<EntryView>::empty(),
        drop_path_pools(s, path_id).dcids_of(path_id) == Seq::<EntryView>::empty(),
        !drop_path_pools(s, path_id).mp_advertise.contains((path_id, seq)),
        !drop_path_pools(s, path_id).mp_retire.contains((path_id, seq)),
{
    let keep = crate::bounded::other_path(path_id);
    let t = drop_path_pools(s, path_id);
    if t.mp_advertise.contains((path_id, seq)) {
        let i = choose|i: int|
            0 <= i < t.mp_advertise.len() && t.mp_advertise[i] == (path_id, seq);
        s.mp_advertise.lemma_filter_pred(keep, i);
    }
}

/// The limit on the pending retirements of the non-zero paths never shrinks, and
/// a new path makes it at least three times the active destination connection
/// IDs that all paths together can have.
pub proof fn law_retirement_limit_scales_with_paths(s: IdsView, path_id: u64)
    ensures
        s.with_pool_for(path_id).mp_retire_capacity >= s.mp_retire_capacity,
        !s.pools.contains_key(path_id) ==> ({
            let n = s.with_pool_for(path_id).pools.dom().len();
            let wanted = (1 + n) * s.dcids.capacity * 3;
            s.with_pool_for(path_id).mp_retire_capacity >= if wanted > usize::MAX {
                usize::MAX as int
            } else {
                wanted
            }
        }),
{
}

} // verus!
