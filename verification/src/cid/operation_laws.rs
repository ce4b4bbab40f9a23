//! What the operations on connection IDs are for, in terms of the entries that they find
//! and leave.

use crate::bounded::SeqKey;
use crate::cid::entries::{
    below, entry_with_cid, entry_with_seq, from_bound, has_cid, has_seq, index_of_cid, index_of_seq,
    is_below, lemma_cid_index, lemma_lowest_seq_exists, lemma_seq_index, lowest_seq, not_below,
    unique_cids, unique_seqs, unlinked, with_link, without_seq, EntryView,
};
use crate::cid::model::{
    add_scid, announce, drop_scid, keys, legacy_triples, link_dcid, link_of, link_scid,
    linked_pairs, mark_retired, marked, mp_add_dcid, mp_add_scid, mp_drop_dcid, mp_drop_scid, new_ids,
    path_triples, queued_count, queues_at, with_source_limit, DcidSpace, IdsView,
};
use crate::cid::validity::{lemma_filter_unique, lemma_queued_count_exists, space_valid};
use crate::error::Error;
use vstd::prelude::*;

verus! {

/// Whether an entry with a sequence number is among some.
pub open spec fn holds(es: Seq<EntryView>, seq: u64) -> bool {
    exists|i: int| 0 <= i < es.len() && (#[trigger] es[i]).seq == seq
}

/// Whether the entries are those of before without the one with a sequence number.
pub open spec fn lost_only(before: Seq<EntryView>, after: Seq<EntryView>, seq: u64) -> bool {
    &&& after.len() == before.len() - 1
    &&& !holds(after, seq)
    &&& forall|i: int|
        0 <= i < before.len() && (#[trigger] before[i]).seq != seq ==> after.contains(before[i])
    &&& forall|i: int| 0 <= i < after.len() ==> before.contains(#[trigger] after[i])
}

/// Taking an entry away leaves the others.
proof fn lemma_lost_only(es: Seq<EntryView>, seq: u64)
    requires
        unique_seqs(es),
        has_seq(es, seq),
    ensures
        lost_only(es, without_seq(es, seq), seq),
{
    let k = index_of_seq(es, seq);
    let t = without_seq(es, seq);
    assert(es[k].seq == seq);
    assert forall|i: int| 0 <= i < t.len() implies es.contains(#[trigger] t[i]) && t[i].seq
        != seq by {
        let m = if i < k {
            i
        } else {
            i + 1
        };
        assert(t[i] == es[m]);
        if es[m].seq == es[k].seq {
            assert(m == k);
        }
    }
    assert forall|i: int| 0 <= i < es.len() && (#[trigger] es[i]).seq != seq implies t.contains(
        es[i],
    ) by {
        let m = if i < k {
            i
        } else {
            i - 1
        };
        assert(t[m] == es[i]);
    }
}

/// The destination CIDs of a valid state are without repetitions.
proof fn lemma_dcids_unique(s: IdsView, path_id: u64)
    requires
        s.valid(),
    ensures
        unique_seqs(s.dcids_of(path_id)),
        unique_cids(s.dcids_of(path_id)),
        unique_seqs(s.scids_of(path_id)),
        unique_cids(s.scids_of(path_id)),
{
    if path_id != 0 && s.pools.contains_key(path_id) {
        assert(s.pools[path_id].valid());
    }
}

/// Retiring a destination connection ID takes just its entry away, and says which 4-tuple
/// path was using it: the one that the entry was linked to, and none only where it was
/// linked to none.
pub proof fn law_retiring_a_dcid_names_its_path(s: IdsView, path_id: u64, seq: u64, i: int)
    requires
        s.valid(),
        0 <= i < s.dcids_of(path_id).len(),
        s.dcids_of(path_id)[i].seq == seq,
        mp_drop_dcid(s, path_id, seq).1 is Ok,
    ensures
        mp_drop_dcid(s, path_id, seq).1 == Ok::<Option<usize>, Error>(
            s.dcids_of(path_id)[i].path_id,
        ),
        lost_only(s.dcids_of(path_id), mp_drop_dcid(s, path_id, seq).0.dcids_of(path_id), seq),
{
    lemma_dcids_unique(s, path_id);
    lemma_seq_index(s.dcids_of(path_id), seq, i);
    lemma_lost_only(s.dcids_of(path_id), seq);
}

/// Linking a destination connection ID to a 4-tuple path and then retiring it gives that
/// path.
pub proof fn law_linked_dcid_is_retired_from_its_path(
    s: IdsView,
    path_id: u64,
    seq: u64,
    four_tuple: usize,
)
    requires
        s.valid(),
        link_dcid(s, path_id, seq, four_tuple).1 is Ok,
        mp_drop_dcid(link_dcid(s, path_id, seq, four_tuple).0, path_id, seq).1 is Ok,
    ensures
        mp_drop_dcid(link_dcid(s, path_id, seq, four_tuple).0, path_id, seq).1 == Ok::<
            Option<usize>,
            Error,
        >(Some(four_tuple)),
{
    let t = link_dcid(s, path_id, seq, four_tuple).0;
    crate::cid::validity::lemma_link_dcid_valid(s, path_id, seq, four_tuple);
    law_linking_changes_the_link_alone(s, path_id, seq, four_tuple);
    let i = choose|i: int|
        0 <= i < t.dcids_of(path_id).len() && (#[trigger] t.dcids_of(path_id)[i]).seq == seq;
    law_retiring_a_dcid_names_its_path(t, path_id, seq, i);
}

/// A destination connection ID can be retired exactly where connection IDs have bytes, the
/// path has it and at least one other, and there is room for one more pending retirement.
pub proof fn law_when_a_dcid_can_be_retired(s: IdsView, path_id: u64, seq: u64)
    requires
        s.valid(),
    ensures
        ({
            let (t, r) = mp_drop_dcid(s, path_id, seq);
            let known = path_id == 0 || s.pools.contains_key(path_id);
            let room = if path_id == 0 {
                s.retire.contains(seq) || s.retire.len() < s.retire_capacity
            } else {
                s.mp_retire.contains((path_id, seq)) || s.mp_retire.len() < s.mp_retire_capacity
            };
            let es = s.dcids_of(path_id);
            if s.zero_length_dcid || !known {
                r == Err::<Option<usize>, Error>(Error::InvalidState) && t == s
            } else if es.len() <= 1 {
                r == Err::<Option<usize>, Error>(Error::OutOfIdentifiers) && t == s
            } else if !holds(es, seq) {
                r == Err::<Option<usize>, Error>(Error::InvalidState) && t == s
            } else if !room {
                r == Err::<Option<usize>, Error>(Error::IdLimit)
            } else {
                r is Ok
            }
        }),
{
}

/// Linking a destination connection ID changes what path uses it, and nothing else; it
/// fails where the path does not have it, and then changes nothing.
pub proof fn law_linking_changes_the_link_alone(
    s: IdsView,
    path_id: u64,
    seq: u64,
    four_tuple: usize,
)
    requires
        s.valid(),
    ensures
        ({
            let (t, r) = link_dcid(s, path_id, seq, four_tuple);
            let es = s.dcids_of(path_id);
            let fs = t.dcids_of(path_id);
            if holds(es, seq) {
                &&& r == Ok::<(), Error>(())
                &&& fs.len() == es.len()
                &&& forall|i: int|
                    0 <= i < es.len() ==> (#[trigger] fs[i]) == (EntryView {
                        path_id: if es[i].seq == seq {
                            Some(four_tuple)
                        } else {
                            es[i].path_id
                        },
                        ..es[i]
                    })
                &&& holds(fs, seq)
                &&& t.scids_of(path_id) == s.scids_of(path_id)
            } else {
                r == Err::<(), Error>(Error::InvalidState) && t == s
            }
        }),
{
    lemma_dcids_unique(s, path_id);
    let (t, r) = link_dcid(s, path_id, seq, four_tuple);
    let es = s.dcids_of(path_id);
    let fs = t.dcids_of(path_id);
    if holds(es, seq) {
        lemma_link(es, seq, four_tuple);
        assert(fs =~= with_link(es, seq, four_tuple));
    }
}

/// Linking one of some entries.
proof fn lemma_link(es: Seq<EntryView>, seq: u64, q: usize)
    requires
        unique_seqs(es),
        has_seq(es, seq),
    ensures
        with_link(es, seq, q).len() == es.len(),
        forall|i: int|
            0 <= i < es.len() ==> (#[trigger] with_link(es, seq, q)[i]) == (EntryView {
                path_id: if es[i].seq == seq {
                    Some(q)
                } else {
                    es[i].path_id
                },
                ..es[i]
            }),
        holds(with_link(es, seq, q), seq),
{
    let k = index_of_seq(es, seq);
    assert(es[k].seq == seq);
    let t = with_link(es, seq, q);
    assert forall|i: int| 0 <= i < es.len() implies (#[trigger] t[i]) == (EntryView {
        path_id: if es[i].seq == seq {
            Some(q)
        } else {
            es[i].path_id
        },
        ..es[i]
    }) by {
        if es[i].seq == seq {
            assert(es[i].seq == es[k].seq);
        }
    }
    assert(t[k].seq == seq);
}

/// Linking a source connection ID of path 0 changes what path uses it, and nothing else; it
/// fails where there is none, and then changes nothing.
pub proof fn law_linking_a_scid_changes_the_link_alone(s: IdsView, seq: u64, q: usize)
    requires
        s.valid(),
    ensures
        ({
            let (t, r) = link_scid(s, seq, q);
            let es = s.scids.entries;
            let fs = t.scids.entries;
            if holds(es, seq) {
                &&& r == Ok::<(), Error>(())
                &&& fs.len() == es.len()
                &&& forall|i: int|
                    0 <= i < es.len() ==> (#[trigger] fs[i]) == (EntryView {
                        path_id: if es[i].seq == seq {
                            Some(q)
                        } else {
                            es[i].path_id
                        },
                        ..es[i]
                    })
                &&& t == (IdsView { scids: t.scids, ..s })
                &&& t.scids.capacity == s.scids.capacity
            } else {
                r == Err::<(), Error>(Error::InvalidState) && t == s
            }
        }),
{
    if holds(s.scids.entries, seq) {
        lemma_link(s.scids.entries, seq, q);
    }
}

/// A source connection ID that the peer retires is the one with that sequence number: its
/// bytes are returned and handed to the application, after those before it, and just its
/// entry is gone. The retirement is refused for a number that was never issued and for the
/// connection ID that the packet was sent to.
pub proof fn law_retiring_a_scid_names_it(
    s: IdsView,
    path_id: u64,
    seq: u64,
    pkt_dcid: Seq<u8>,
    i: int,
)
    requires
        s.valid(),
        0 <= i < s.scids_of(path_id).len(),
        s.scids_of(path_id)[i].seq == seq,
    ensures
        ({
            let (t, r) = mp_drop_scid(s, path_id, seq, pkt_dcid);
            let e = s.scids_of(path_id)[i];
            &&& r matches Ok(c) ==> c == Some(e.cid) && e.cid != pkt_dcid && t.retired_scids
                == s.retired_scids.push(e.cid) && lost_only(
                s.scids_of(path_id),
                t.scids_of(path_id),
                seq,
            )
            &&& e.cid == pkt_dcid && (path_id != 0 || s.scids_of(0).len() > 1) ==> r == Err::<
                Option<Seq<u8>>,
                Error,
            >(Error::InvalidState)
            &&& path_id == 0 && s.scids_of(0).len() <= 1 ==> r == Err::<Option<Seq<u8>>, Error>(
                Error::OutOfIdentifiers,
            )
            &&& path_id != 0 && e.cid != pkt_dcid ==> r is Ok
        }),
{
    lemma_dcids_unique(s, path_id);
    let es = s.scids_of(path_id);
    lemma_seq_index(es, seq, i);
    lemma_lost_only(es, seq);
    if path_id != 0 {
        assert(s.pools.contains_key(path_id));
        assert(s.pools[path_id].valid());
        assert(es[i].seq < s.pools[path_id].next_scid_seq);
    } else {
        assert(es[i].seq < s.next_scid_seq);
    }
}

/// On path 0 the 4-tuple path that was using a retired source connection ID is returned.
pub proof fn law_retiring_a_scid_names_its_path(s: IdsView, seq: u64, pkt_dcid: Seq<u8>, i: int)
    requires
        s.valid(),
        0 <= i < s.scids.entries.len(),
        s.scids.entries[i].seq == seq,
    ensures
        drop_scid(s, seq, pkt_dcid).1 matches Ok(q) ==> q == s.scids.entries[i].path_id,
{
    lemma_seq_index(s.scids.entries, seq, i);
}

/// A number that was never issued cannot be retired, and one that is gone already is
/// retired without any effect.
pub proof fn law_unknown_scids_are_told_apart(
    s: IdsView,
    path_id: u64,
    seq: u64,
    pkt_dcid: Seq<u8>,
)
    requires
        s.valid(),
        !holds(s.scids_of(path_id), seq),
    ensures
        ({
            let (t, r) = mp_drop_scid(s, path_id, seq, pkt_dcid);
            let issued = seq < (if path_id == 0 {
                s.next_scid_seq
            } else if s.pools.contains_key(path_id) {
                s.pools[path_id].next_scid_seq
            } else {
                0u64
            });
            &&& t == s
            &&& !issued ==> r == Err::<Option<Seq<u8>>, Error>(Error::InvalidState)
            &&& issued && (path_id != 0 || s.scids_of(0).len() > 1) ==> r == Ok::<
                Option<Seq<u8>>,
                Error,
            >(None)
        }),
{
}

/// The bound that the peer is told after a retirement is the lowest source connection ID
/// that is left, of those whose removal was not asked for; where none is left on a path it
/// stays.
pub proof fn law_retirement_raises_the_bound(
    s: IdsView,
    path_id: u64,
    seq: u64,
    pkt_dcid: Seq<u8>,
)
    requires
        s.valid(),
        mp_drop_scid(s, path_id, seq, pkt_dcid).1 matches Ok(Some(_)),
    ensures
        ({
            let t = mp_drop_scid(s, path_id, seq, pkt_dcid).0;
            let (old, new) = if path_id == 0 {
                (s.retire_prior_to, t.retire_prior_to)
            } else {
                (s.pools[path_id].retire_prior_to, t.pools[path_id].retire_prior_to)
            };
            let es = t.scids_of(path_id);
            &&& forall|i: int|
                0 <= i < es.len() && (#[trigger] es[i]).seq >= old ==> new <= es[i].seq
            &&& (exists|i: int| 0 <= i < es.len() && (#[trigger] es[i]).seq >= old) ==> holds(
                es,
                new,
            ) && new >= old
            &&& (forall|i: int| 0 <= i < es.len() ==> (#[trigger] es[i]).seq < old) ==> new == old
        }),
{
    let t = mp_drop_scid(s, path_id, seq, pkt_dcid).0;
    let es = t.scids_of(path_id);
    if path_id == 0 {
        lemma_lowest_raw(es, s.retire_prior_to);
    } else {
        assert(s.pools.contains_key(path_id));
        lemma_lowest_raw(es, s.pools[path_id].retire_prior_to);
    }
}

/// What the lowest sequence number from a bound on is.
proof fn lemma_lowest_raw(es: Seq<EntryView>, bound: u64)
    ensures
        match lowest_seq(es, |e: EntryView| e.seq >= bound) {
            Some(m) => holds(es, m) && m >= bound && forall|i: int|
                0 <= i < es.len() && (#[trigger] es[i]).seq >= bound ==> m <= es[i].seq,
            None => forall|i: int| 0 <= i < es.len() ==> (#[trigger] es[i]).seq < bound,
        },
{
    let p = |e: EntryView| e.seq >= bound;
    if exists|i: int| 0 <= i < es.len() && p(#[trigger] es[i]) {
        lemma_lowest_seq_exists(es, p);
        let m = lowest_seq(es, p).unwrap();
        let i = choose|i: int| 0 <= i < es.len() && p(#[trigger] es[i]) && es[i].seq == m;
        assert(es[i].seq == m);
        assert forall|i: int| 0 <= i < es.len() && (#[trigger] es[i]).seq >= bound implies m
            <= es[i].seq by {
            assert(p(es[i]));
        }
    } else {
        assert forall|i: int| 0 <= i < es.len() implies (#[trigger] es[i]).seq < bound by {
            assert(!p(es[i]));
        }
    }
}

/// The lowest source connection ID of path 0 whose removal was not asked for is one of
/// them, and none of them is lower.
pub proof fn law_lowest_usable_scid(s: IdsView)
    ensures
        match s.lowest_usable_scid() {
            Some(m) => holds(s.scids.entries, m) && m >= s.retire_prior_to && forall|i: int|
                0 <= i < s.scids.entries.len() && (#[trigger] s.scids.entries[i]).seq
                    >= s.retire_prior_to ==> m <= s.scids.entries[i].seq,
            None => forall|i: int|
                0 <= i < s.scids.entries.len() ==> (#[trigger] s.scids.entries[i]).seq
                    < s.retire_prior_to,
        },
{
    lemma_lowest_raw(s.scids.entries, s.retire_prior_to);
}

/// The lowest available connection ID is one that no path uses, and none that no path uses
/// is lower; there is none only where every one is used.
pub proof fn law_lowest_available_is_unused(es: Seq<EntryView>)
    ensures
        match lowest_seq(es, unlinked()) {
            Some(m) => (exists|i: int|
                0 <= i < es.len() && (#[trigger] es[i]).seq == m && es[i].path_id is None)
                && forall|i: int|
                0 <= i < es.len() && (#[trigger] es[i]).path_id is None ==> m <= es[i].seq,
            None => forall|i: int| 0 <= i < es.len() ==> (#[trigger] es[i]).path_id is Some,
        },
{
    let p = unlinked();
    if exists|i: int| 0 <= i < es.len() && p(#[trigger] es[i]) {
        lemma_lowest_seq_exists(es, p);
        let m = lowest_seq(es, p).unwrap();
        let i = choose|i: int| 0 <= i < es.len() && p(#[trigger] es[i]) && es[i].seq == m;
        assert(es[i].seq == m && es[i].path_id is None);
        assert forall|i: int| 0 <= i < es.len() && (#[trigger] es[i]).path_id is None implies m
            <= es[i].seq by {
            assert(p(es[i]));
        }
    } else {
        assert forall|i: int| 0 <= i < es.len() implies (#[trigger] es[i]).path_id is Some by {
            assert(!p(es[i]));
        }
    }
}

/// An unused entry counts as available, and a used one does not.
pub proof fn law_available_are_the_unused(es: Seq<EntryView>, e: EntryView)
    ensures
        Seq::<EntryView>::empty().filter(unlinked()).len() == 0,
        e.path_id is None ==> es.push(e).filter(unlinked()).len() == es.filter(unlinked()).len()
            + 1,
        e.path_id is Some ==> es.push(e).filter(unlinked()).len() == es.filter(unlinked()).len(),
{
    reveal(Seq::filter);
    es.lemma_filter_push(e, unlinked());
}

/// Whether the bytes of a connection ID occur on some path, on either side.
pub open spec fn is_used(s: IdsView, cid: Seq<u8>) -> bool {
    exists|p: u64, i: int|
        {
            ||| 0 <= i < s.scids_of(p).len() && (#[trigger] s.scids_of(p)[i]).cid == cid
            ||| 0 <= i < s.dcids_of(p).len() && s.dcids_of(p)[i].cid == cid
        }
}

/// A new source connection ID of path 0 is recorded with its reset token and its path under
/// the next number, is advertised where that is asked for, and everything else stays but
/// for the bound of those to retire. One that is there already keeps its number, and needs
/// the same reset token.
pub proof fn law_new_scid_is_recorded(
    s: IdsView,
    cid: Seq<u8>,
    reset_token: Option<u128>,
    advertise: bool,
    path_id: Option<usize>,
    retire_if_needed: bool,
)
    requires
        s.valid(),
        s.next_scid_seq < u64::MAX,
    ensures
        ({
            let (t, r) = add_scid(s, cid, reset_token, advertise, path_id, retire_if_needed);
            let es = s.scids.entries;
            &&& r matches Ok(seq) ==> reset_token is Some && !s.zero_length_scid && exists|i: int|
                0 <= i < t.scids.entries.len() && (#[trigger] t.scids.entries[i]).seq == seq
                    && t.scids.entries[i].cid == cid && t.scids.entries[i].reset_token
                    == reset_token
            &&& r is Ok && !has_cid(es, cid) ==> {
                &&& r == Ok::<u64, Error>(s.next_scid_seq)
                &&& t.scids.entries == es.push(
                    EntryView { cid, seq: s.next_scid_seq, reset_token, path_id },
                )
                &&& t.next_scid_seq == s.next_scid_seq + 1
                &&& advertise ==> t.advertise == s.advertise.push(s.next_scid_seq)
                &&& es.len() >= s.source_conn_id_limit ==> retire_if_needed
            }
            &&& r is Err || has_cid(es, cid) ==> t.scids == s.scids && t.next_scid_seq
                == s.next_scid_seq && t.advertise == s.advertise
            &&& t == (IdsView {
                scids: t.scids,
                next_scid_seq: t.next_scid_seq,
                advertise: t.advertise,
                retire_prior_to: t.retire_prior_to,
                ..s
            })
            &&& t.scids.capacity == s.scids.capacity
        }),
{
    let (t, r) = add_scid(s, cid, reset_token, advertise, path_id, retire_if_needed);
    let es = s.scids.entries;
    if let Ok(seq) = r {
        if has_cid(es, cid) {
            let i = index_of_cid(es, cid);
            assert(es[i].cid == cid);
            assert(t.scids.entries[i].seq == seq);
        } else {
            assert(t.scids.entries[es.len() as int].seq == seq);
        }
    }
}

/// Where the peer has as many source connection IDs as it allows, another one needs leave to
/// retire old ones; then the peer is asked to retire the lowest one that it was not asked
/// to retire before, and no other.
pub proof fn law_room_is_made_by_retiring_the_lowest(
    s: IdsView,
    cid: Seq<u8>,
    reset_token: u128,
    advertise: bool,
    path_id: Option<usize>,
)
    requires
        s.valid(),
        !s.zero_length_scid,
    ensures
        ({
            let (t, r) = add_scid(s, cid, Some(reset_token), advertise, path_id, true);
            let full = s.scids.entries.len() >= s.source_conn_id_limit;
            &&& full ==> add_scid(s, cid, Some(reset_token), advertise, path_id, false) == (
                s,
                Err::<u64, Error>(Error::IdLimit),
            )
            &&& !full ==> t.retire_prior_to == s.retire_prior_to
            &&& full && r is Ok ==> t.retire_prior_to > 0 && holds(
                s.scids.entries,
                (t.retire_prior_to - 1) as u64,
            ) && t.retire_prior_to - 1 >= s.retire_prior_to && forall|i: int|
                0 <= i < s.scids.entries.len() && (#[trigger] s.scids.entries[i]).seq
                    >= s.retire_prior_to ==> t.retire_prior_to - 1 <= s.scids.entries[i].seq
        }),
{
    law_lowest_usable_scid(s);
    if let Some(m) = s.lowest_usable_scid() {
        let i = choose|i: int|
            0 <= i < s.scids.entries.len() && (#[trigger] s.scids.entries[i]).seq == m;
        assert(s.scids.entries[i].seq < s.next_scid_seq);
    }
}

/// A new source connection ID of a non-zero path is recorded under the path's next number
/// with its reset token, used by no path, and is to be advertised after those before it. It
/// is refused where its bytes occur anywhere, or where the path has as many as the peer
/// allows.
pub proof fn law_new_path_scid_is_recorded(s: IdsView, path_id: u64, cid: Seq<u8>, reset_token: u128)
    requires
        s.valid(),
        path_id != 0,
        s.next_scid_seq_of(path_id) < u64::MAX,
    ensures
        ({
            let (t, r) = mp_add_scid(s, path_id, cid, reset_token);
            let es = s.scids_of(path_id);
            let seq = if s.pools.contains_key(path_id) {
                s.pools[path_id].next_scid_seq
            } else {
                0
            };
            if s.zero_length_scid || is_used(s, cid) {
                r == Err::<u64, Error>(Error::InvalidState) && t == s
            } else if es.len() >= s.source_conn_id_limit {
                r == Err::<u64, Error>(Error::IdLimit) && t.scids_of(path_id) == es
                    && t.mp_advertise == s.mp_advertise
            } else {
                &&& r == Ok::<u64, Error>(seq)
                &&& t.scids_of(path_id) == es.push(
                    EntryView { cid, seq, reset_token: Some(reset_token), path_id: None },
                )
                &&& t.pools[path_id].next_scid_seq == seq + 1
                &&& t.mp_advertise == s.mp_advertise.push((path_id, seq))
                &&& t.advertise == s.advertise
                &&& t.dcids_of(path_id) == s.dcids_of(path_id)
            }
        }),
{
    lemma_used(s, cid);
    let (t, r) = mp_add_scid(s, path_id, cid, reset_token);
    let u = s.with_pool_for(path_id);
    assert(u.scids_of(path_id) =~= s.scids_of(path_id));
    assert(u.dcids_of(path_id) =~= s.dcids_of(path_id));
}

/// The bytes of a connection ID are in use where they occur.
proof fn lemma_used(s: IdsView, cid: Seq<u8>)
    ensures
        s.cid_in_use(cid) == is_used(s, cid),
{
    if s.cid_in_use(cid) {
        let p = choose|p: u64|
            {
                ||| has_cid(#[trigger] s.scids_of(p), cid)
                ||| has_cid(s.dcids_of(p), cid)
            };
        if has_cid(s.scids_of(p), cid) {
            let i = index_of_cid(s.scids_of(p), cid);
            assert(s.scids_of(p)[i].cid == cid);
        } else {
            let i = index_of_cid(s.dcids_of(p), cid);
            assert(s.dcids_of(p)[i].cid == cid);
            let w = s.scids_of(p)[i];
        }
    }
    if is_used(s, cid) {
        let (p, i) = choose|p: u64, i: int|
            {
                ||| 0 <= i < s.scids_of(p).len() && (#[trigger] s.scids_of(p)[i]).cid == cid
                ||| 0 <= i < s.dcids_of(p).len() && s.dcids_of(p)[i].cid == cid
            };
        assert(has_cid(s.scids_of(p), cid) || has_cid(s.dcids_of(p), cid));
    }
}

/// A destination connection ID that is announced is active afterwards, used by no path, with
/// its bytes and its reset token; unless it came too late: one below a bound that was told
/// before is to be retired at once and is not active.
pub proof fn law_announced_dcid_is_active_or_retired<T: SeqKey>(
    s: DcidSpace<T>,
    path_id: u64,
    cid: Seq<u8>,
    seq: u64,
    reset_token: u128,
    retire_prior_to: u64,
)
    requires
        space_valid(s),
        !has_cid(s.dcids.entries, cid),
        !has_seq(s.dcids.entries, seq),
        announce(s, path_id, cid, seq, reset_token, retire_prior_to).result is Ok,
    ensures
        ({
            let a = announce(s, path_id, cid, seq, reset_token, retire_prior_to);
            &&& retire_prior_to <= seq
            &&& seq < s.largest_peer_retire_prior_to ==> a.space.dcids == s.dcids
                && a.space.retire == s.retire.insert(T::key_of(path_id, seq)) && a.reported.len()
                == 0 && a.space.largest_peer_retire_prior_to == s.largest_peer_retire_prior_to
                && a.space.largest_destination_seq == s.largest_destination_seq
            &&& seq >= s.largest_peer_retire_prior_to ==> a.space.dcids.entries.len() > 0
                && a.space.dcids.entries.last() == (EntryView {
                cid,
                seq,
                reset_token: Some(reset_token),
                path_id: None,
            }) && a.space.dcids.entries.len() <= s.dcids.capacity
            &&& seq >= s.largest_peer_retire_prior_to ==> a.space.largest_destination_seq >= seq
                && a.space.largest_destination_seq >= s.largest_destination_seq && (
            a.space.largest_destination_seq == seq || a.space.largest_destination_seq
                == s.largest_destination_seq)
            &&& seq >= s.largest_peer_retire_prior_to ==> a.space.largest_peer_retire_prior_to
                >= retire_prior_to && a.space.largest_peer_retire_prior_to
                >= s.largest_peer_retire_prior_to && (a.space.largest_peer_retire_prior_to
                == retire_prior_to || a.space.largest_peer_retire_prior_to
                == s.largest_peer_retire_prior_to)
            &&& seq >= s.largest_peer_retire_prior_to && retire_prior_to
                <= s.largest_peer_retire_prior_to ==> a.space.dcids.entries.drop_last()
                == s.dcids.entries && a.space.retire == s.retire && a.reported.len() == 0
            &&& a.space.dcids.capacity == s.dcids.capacity && a.space.retire_capacity
                == s.retire_capacity
        }),
{
    let a = announce(s, path_id, cid, seq, reset_token, retire_prior_to);
    let es = s.dcids.entries;
    if seq >= s.largest_peer_retire_prior_to && retire_prior_to <= s.largest_peer_retire_prior_to {
        lemma_queued_count_exists(
            s.retire,
            s.retire_capacity as nat,
            keys::<T>(Seq::empty(), path_id),
        );
        let ks = keys::<T>(Seq::empty(), path_id);
        assert(ks.take(0) =~= Seq::<T>::empty());
        assert(a.space.retire =~= s.retire);
        assert(a.space.dcids.entries.drop_last() =~= es);
    } else if seq >= s.largest_peer_retire_prior_to {
        lemma_filter_unique(es, not_below(retire_prior_to));
    }
}

/// A bound above the number of its own connection ID is refused, and one announcement too
/// many meets the limit: neither is active afterwards.
pub proof fn law_announcement_is_refused<T: SeqKey>(
    s: DcidSpace<T>,
    path_id: u64,
    cid: Seq<u8>,
    seq: u64,
    reset_token: u128,
    retire_prior_to: u64,
)
    requires
        space_valid(s),
        !has_cid(s.dcids.entries, cid),
        !has_seq(s.dcids.entries, seq),
    ensures
        ({
            let a = announce(s, path_id, cid, seq, reset_token, retire_prior_to);
            &&& retire_prior_to > seq ==> a.result == Err::<(), Error>(Error::InvalidFrame)
                && a.space == s && a.reported.len() == 0
            &&& retire_prior_to <= seq && retire_prior_to <= s.largest_peer_retire_prior_to && seq
                >= s.largest_peer_retire_prior_to && s.dcids.entries.len() >= s.dcids.capacity
                ==> a.result == Err::<(), Error>(Error::IdLimit) && a.space.dcids == s.dcids
            &&& a.result matches Err(e) ==> e == Error::InvalidFrame || e == Error::IdLimit
        }),
{
}

/// The pairs that report retired connection IDs are those of the ones that a path uses,
/// with that path, in their order.
pub proof fn law_reported_pairs_are_the_used_ones(es: Seq<EntryView>, e: EntryView)
    ensures
        linked_pairs(Seq::empty()) == Seq::<(u64, usize)>::empty(),
        linked_pairs(es.push(e)) == match e.path_id {
            Some(q) => linked_pairs(es).push((e.seq, q)),
            None => linked_pairs(es),
        },
{
    reveal(Seq::filter_map);
    let t = es.push(e);
    assert(t.take(t.len() as int) =~= t);
    assert(t.take(es.len() as int) =~= es);
    t.lemma_filter_map_take_succ(link_of(), es.len() as int);
    assert(linked_pairs(t) =~= match e.path_id {
        Some(q) => linked_pairs(es).push((e.seq, q)),
        None => linked_pairs(es),
    });
}

/// The triples that report retired connection IDs name the path ID, the sequence number and
/// the path that was using it, if any.
pub proof fn law_reported_triples_name_the_path(
    path_id: u64,
    es: Seq<EntryView>,
    pairs: Seq<(u64, usize)>,
    k: int,
)
    ensures
        path_triples(path_id, es).len() == es.len(),
        0 <= k < es.len() ==> path_triples(path_id, es)[k] == (path_id, es[k].seq, es[k].path_id),
        legacy_triples(pairs).len() == pairs.len(),
        0 <= k < pairs.len() ==> legacy_triples(pairs)[k] == (0u64, pairs[k].0, Some(pairs[k].1)),
{
}

/// What is to be advertised: what is added comes last, what is taken away is not there
/// anymore where it was there once, and the others stay.
pub proof fn law_advertising_is_marked<T>(advertise: Seq<T>, k: T, x: T)
    ensures
        marked(advertise, k, true).len() == advertise.len() + 1,
        marked(advertise, k, true).last() == k,
        marked(advertise, k, true).drop_last() == advertise,
        !advertise.contains(k) ==> marked(advertise, k, false) == advertise,
        advertise.contains(k) ==> marked(advertise, k, false).len() == advertise.len() - 1,
        x != k ==> marked(advertise, k, false).contains(x) == advertise.contains(x),
        advertise.no_duplicates() ==> !marked(advertise, k, false).contains(k),
{
    assert(marked(advertise, k, true).drop_last() =~= advertise);
    if advertise.contains(k) {
        advertise.index_of_first_ensures(k);
        let i = advertise.index_of_first(k).unwrap();
        let t = marked(advertise, k, false);
        assert(t =~= advertise.remove(i));
        if advertise.contains(x) && x != k {
            let j = choose|j: int| 0 <= j < advertise.len() && advertise[j] == x;
            let m = if j < i {
                j
            } else {
                j - 1
            };
            assert(t[m] == x);
        }
        assert forall|m: int| 0 <= m < t.len() implies #[trigger] t[m] == advertise[if m < i {
            m
        } else {
            m + 1
        }] by {}
        if t.contains(x) {
            let m = choose|m: int| 0 <= m < t.len() && t[m] == x;
            assert(advertise.contains(x));
        }
        if advertise.no_duplicates() && t.contains(k) {
            let m = choose|m: int| 0 <= m < t.len() && t[m] == k;
        }
    }
}

/// What is to be retired: what is added is there, where it was there or there is room, and
/// what is taken away is not; the others stay.
pub proof fn law_retirement_is_marked<T>(held: Set<T>, cap: usize, k: T, x: T)
    ensures
        ({
            let (h, r) = mark_retired(held, cap, k, true);
            &&& held.contains(k) || held.len() < cap ==> r == Ok::<(), Error>(()) && h.contains(k)
            &&& !held.contains(k) && held.len() >= cap ==> r == Err::<(), Error>(Error::IdLimit)
                && h == held
            &&& x != k ==> h.contains(x) == held.contains(x)
        }),
        ({
            let (h, r) = mark_retired(held, cap, k, false);
            &&& r == Ok::<(), Error>(())
            &&& !h.contains(k)
            &&& x != k ==> h.contains(x) == held.contains(x)
        }),
{
}

/// The limit on source connection IDs is what the peer tells, as far as twice of it can be
/// counted; a limit below two is ignored. There is room for nearly twice as many while old
/// ones are replaced, and never less than before.
pub proof fn law_source_limit_is_taken(s: IdsView, v: u64)
    ensures
        ({
            let t = with_source_limit(s, v);
            &&& v < 2 ==> t == s
            &&& 2 <= v <= usize::MAX / 2 ==> t.source_conn_id_limit == v
            &&& v > usize::MAX / 2 ==> t.source_conn_id_limit == usize::MAX / 2
            &&& v >= 2 ==> t.scids.capacity >= 2 * t.source_conn_id_limit - 1
                && t.scids.capacity >= s.scids.capacity && (t.scids.capacity == 2
                * t.source_conn_id_limit - 1 || t.scids.capacity == s.scids.capacity)
            &&& t.scids.entries == s.scids.entries
            &&& t == (IdsView {
                scids: t.scids,
                source_conn_id_limit: t.source_conn_id_limit,
                ..s
            })
        }),
{
}

/// A new connection has the given source connection ID and an empty destination one, both
/// with number 0 and used by the given path, allows at least two of each, and has nothing to
/// advertise or to retire; up to three times as many retirements as destination connection
/// IDs can be pending.
pub proof fn law_new_connection(limit: usize, scid: Seq<u8>, path_id: usize, token: Option<u128>)
    requires
        limit * 3 <= usize::MAX,
    ensures
        ({
            let s = new_ids(limit, scid, path_id, token);
            let n = if limit < 2 {
                2
            } else {
                limit as int
            };
            &&& s.scids.entries == seq![
                EntryView { cid: scid, seq: 0, reset_token: token, path_id: Some(path_id) },
            ]
            &&& s.dcids.entries == seq![
                EntryView {
                    cid: Seq::empty(),
                    seq: 0,
                    reset_token: None,
                    path_id: Some(path_id),
                },
            ]
            &&& s.dcids.capacity == n && s.source_conn_id_limit == 2 && s.scids.capacity == 3
            &&& s.next_scid_seq == 1 && s.retire_prior_to == 0 && s.largest_destination_seq == 0
                && s.largest_peer_retire_prior_to == 0
            &&& s.retire_capacity == 3 * n && s.mp_retire_capacity == 3 * n
            &&& s.advertise.len() == 0 && s.mp_advertise.len() == 0 && s.retired_scids.len() == 0
            &&& forall|k: u64| !s.retire.contains(k) && !s.pools.contains_key(k)
            &&& forall|k: (u64, u64)| !s.mp_retire.contains(k)
            &&& s.zero_length_scid == (scid.len() == 0) && !s.zero_length_dcid
        }),
{
}

/// An entry is found by its sequence number and by its connection ID, and none is where no
/// entry has them.
pub proof fn law_entries_are_found(es: Seq<EntryView>, i: int, seq: u64, cid: Seq<u8>)
    requires
        unique_seqs(es),
        unique_cids(es),
    ensures
        0 <= i < es.len() ==> entry_with_seq(es, es[i].seq) == Some(es[i]) && entry_with_cid(
            es,
            es[i].cid,
        ) == Some(es[i]),
        (forall|j: int| 0 <= j < es.len() ==> (#[trigger] es[j]).seq != seq) ==> entry_with_seq(
            es,
            seq,
        ) is None,
        (forall|j: int| 0 <= j < es.len() ==> (#[trigger] es[j]).cid != cid) ==> entry_with_cid(
            es,
            cid,
        ) is None,
{
    if 0 <= i < es.len() {
        lemma_seq_index(es, es[i].seq, i);
        lemma_cid_index(es, es[i].cid, i);
    }
}

/// A pending retirement is named by the sequence number on path 0, and by the path and the
/// sequence number on the others.
pub proof fn law_retirements_are_named(path_id: u64, seq: u64)
    ensures
        u64::key_of(path_id, seq) == seq,
        <(u64, u64)>::key_of(path_id, seq) == (path_id, seq),
{
}

/// Raising the bound of a space makes just the older connection IDs pending, besides those
/// that were. It succeeds where there is an older one and room for the retirements of all
/// of them; otherwise the limit is what it fails for.
pub proof fn law_older_dcids_find_room<T: SeqKey>(
    s: DcidSpace<T>,
    path_id: u64,
    cid: Seq<u8>,
    seq: u64,
    reset_token: u128,
    retire_prior_to: u64,
    k: T,
    i: int,
)
    requires
        space_valid(s),
        !has_cid(s.dcids.entries, cid),
        !has_seq(s.dcids.entries, seq),
        s.largest_peer_retire_prior_to < retire_prior_to <= seq,
    ensures
        ({
            let a = announce(s, path_id, cid, seq, reset_token, retire_prior_to);
            let es = s.dcids.entries;
            &&& s.retire.contains(k) ==> a.space.retire.contains(k)
            &&& a.space.retire.contains(k) && !s.retire.contains(k) ==> exists|j: int|
                0 <= j < es.len() && (#[trigger] es[j]).seq < retire_prior_to && k == T::key_of(
                    path_id,
                    es[j].seq,
                )
            &&& 0 <= i < es.len() && es[i].seq < retire_prior_to && s.retire.len() + es.len()
                <= s.retire_capacity ==> a.result == Ok::<(), Error>(())
            &&& a.result is Err ==> a.result == Err::<(), Error>(Error::IdLimit)
        }),
{
    let a = announce(s, path_id, cid, seq, reset_token, retire_prior_to);
    let es = s.dcids.entries;
    let retired = below(es, retire_prior_to);
    let left = from_bound(es, retire_prior_to);
    let ks = keys::<T>(retired, path_id);
    let cap = s.retire_capacity as nat;
    let n = queued_count(s.retire, cap, ks);
    lemma_queued_count_exists(s.retire, cap, ks);
    lemma_filter_unique(es, is_below(retire_prior_to));
    lemma_filter_unique(es, not_below(retire_prior_to));
    if a.space.retire.contains(k) && !s.retire.contains(k) {
        assert(ks.take(n).contains(k));
        let m = choose|m: int| 0 <= m < ks.take(n).len() && ks.take(n)[m] == k;
        assert(ks[m] == k);
        assert(es.contains(retired[m]));
        let j = choose|j: int| 0 <= j < es.len() && es[j] == retired[m];
        assert(es[j].seq < retire_prior_to);
    }
    if 0 <= i < es.len() && es[i].seq < retire_prior_to && s.retire.len() + es.len()
        <= s.retire_capacity {
        if n < ks.len() {
            let more = ks.take(n).to_set();
            ks.take(n).lemma_cardinality_of_set();
            vstd::seq_lib::seq_to_set_is_finite(ks.take(n));
            vstd::set_lib::lemma_len_union(s.retire, more);
            assert(!queues_at(s.retire, cap, ks, n));
        }
        lemma_fewer_left(es, not_below(retire_prior_to), i);
    }
}

/// Fewer entries are left where one does not satisfy the condition.
proof fn lemma_fewer_left(es: Seq<EntryView>, p: spec_fn(EntryView) -> bool, i: int)
    requires
        0 <= i < es.len(),
        !p(es[i]),
    ensures
        es.filter(p).len() < es.len(),
    decreases es.len(),
{
    reveal(Seq::filter);
    let front = es.drop_last();
    if i < front.len() {
        lemma_fewer_left(front, p, i);
    } else {
        front.lemma_filter_len(p);
    }
}

/// Where the peer's connection IDs have no bytes none can be announced, and where ours have
/// none, none can be issued; both leave everything as it is.
pub proof fn law_empty_cids_stay_alone(
    s: IdsView,
    path_id: u64,
    cid: Seq<u8>,
    seq: u64,
    reset_token: u128,
    retire_prior_to: u64,
    advertise: bool,
    four_tuple: Option<usize>,
    retire_if_needed: bool,
)
    ensures
        s.zero_length_dcid ==> {
            let (t, triples, r) = mp_add_dcid(s, path_id, cid, seq, reset_token, retire_prior_to);
            t == s && triples.len() == 0 && r == Err::<(), Error>(Error::InvalidState)
        },
        s.zero_length_scid ==> mp_add_scid(s, path_id, cid, reset_token) == (
            s,
            Err::<u64, Error>(Error::InvalidState),
        ),
        s.zero_length_scid ==> add_scid(
            s,
            cid,
            Some(reset_token),
            advertise,
            four_tuple,
            retire_if_needed,
        ) == (s, Err::<u64, Error>(Error::InvalidState)),
{
}

/// The first destination connection ID of a path that has none yet is active afterwards,
/// and the path can have as many as path 0.
pub proof fn law_first_dcid_of_a_path(
    s: IdsView,
    path_id: u64,
    cid: Seq<u8>,
    seq: u64,
    reset_token: u128,
)
    requires
        s.valid(),
        path_id != 0,
        !s.pools.contains_key(path_id),
        !s.zero_length_dcid,
    ensures
        ({
            let (t, triples, r) = mp_add_dcid(s, path_id, cid, seq, reset_token, 0);
            &&& r == Ok::<(), Error>(())
            &&& triples.len() == 0
            &&& t.dcids_of(path_id) == seq![
                EntryView { cid, seq, reset_token: Some(reset_token), path_id: None },
            ]
            &&& t.pools[path_id].largest_destination_seq == seq
            &&& t.pools[path_id].dcids.capacity == s.dcids.capacity
            &&& t.mp_retire == s.mp_retire && t.retire == s.retire
            &&& t.dcids == s.dcids && t.scids == s.scids
        }),
{
    let (t, triples, r) = mp_add_dcid(s, path_id, cid, seq, reset_token, 0);
    let u = s.with_pool_for(path_id);
    let ks = keys::<(u64, u64)>(Seq::empty(), path_id);
    lemma_queued_count_exists(s.mp_retire, u.mp_retire_capacity as nat, ks);
    assert(ks.take(0) =~= Seq::<(u64, u64)>::empty());
    assert(t.mp_retire =~= s.mp_retire);
    assert(t.dcids_of(path_id) =~= seq![
        EntryView { cid, seq, reset_token: Some(reset_token), path_id: None },
    ]);
}

} // verus!
