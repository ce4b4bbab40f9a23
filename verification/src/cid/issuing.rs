//! How many source connection IDs can be issued in a row.

use crate::cid::entries::{has_cid, EntryView};
use crate::cid::laws::{law_paths_are_independent, law_scids_can_be_issued_up_to_the_limit};
use crate::cid::model::{mp_add_scid, IdsView};
use crate::cid::validity::{lemma_has_cid_push, lemma_in_use, lemma_mp_add_scid_valid};
use crate::error::Error;
use vstd::prelude::*;

verus! {

/// The state once connection IDs, each with its reset token, were issued for a path
/// one after the other, as far as they can be.
pub open spec fn issued(s: IdsView, path_id: u64, cids: Seq<(Seq<u8>, u128)>) -> IdsView
    decreases cids.len(),
{
    if cids.len() == 0 {
        s
    } else {
        mp_add_scid(
            issued(s, path_id, cids.drop_last()),
            path_id,
            cids.last().0,
            cids.last().1,
        ).0
    }
}

/// Connection IDs that are not in use, no two of which are the same.
pub open spec fn are_fresh(s: IdsView, cids: Seq<(Seq<u8>, u128)>) -> bool {
    &&& forall|i: int| 0 <= i < cids.len() ==> !s.cid_in_use((#[trigger] cids[i]).0)
    &&& forall|i: int, j: int|
        0 <= i < j < cids.len() ==> (#[trigger] cids[i]).0 != (#[trigger] cids[j]).0
}

/// Issuing a connection ID brings none but itself into use.
proof fn lemma_in_use_after(
    s: IdsView,
    path_id: u64,
    cid: Seq<u8>,
    reset_token: u128,
    other: Seq<u8>,
)
    requires
        s.valid(),
        !s.cid_in_use(cid),
        !s.cid_in_use(other),
        other != cid,
    ensures
        !mp_add_scid(s, path_id, cid, reset_token).0.cid_in_use(other),
{
    let t = mp_add_scid(s, path_id, cid, reset_token).0;
    assert forall|p: u64|
        !has_cid(#[trigger] t.scids_of(p), other) && !has_cid(t.dcids_of(p), other) by {
        if has_cid(s.scids_of(p), other) || has_cid(s.dcids_of(p), other) {
            lemma_in_use(s, p, other);
        }
        if p == path_id {
            let e = EntryView {
                cid,
                seq: s.next_scid_seq_of(p),
                reset_token: Some(reset_token),
                path_id: None,
            };
            lemma_has_cid_push(s.scids_of(p), e, other);
            assert(!has_cid(s.scids_of(0), cid));
            assert(t.scids_of(p) =~= s.scids_of(p) || t.scids_of(p) =~= s.scids_of(p).push(e));
            assert(t.dcids_of(p) =~= s.dcids_of(p));
        } else {
            law_paths_are_independent(
                s,
                path_id,
                p,
                cid,
                0,
                reset_token,
                0,
                Seq::empty(),
                0,
            );
        }
    }
}

/// What is known of the state once fresh connection IDs were issued for a path.
proof fn lemma_issued(s: IdsView, path_id: u64, cids: Seq<(Seq<u8>, u128)>, k: int, other: u64)
    requires
        s.valid(),
        !s.zero_length_scid,
        are_fresh(s, cids),
        s.next_scid_seq_of(path_id) + cids.len() <= u64::MAX,
        0 <= k <= cids.len(),
    ensures
        ({
            let t = issued(s, path_id, cids.take(k));
            &&& t.valid()
            &&& !t.zero_length_scid
            &&& t.next_scid_seq_of(path_id) <= s.next_scid_seq_of(path_id) + k
            &&& t.scids_left(path_id) == if k < s.scids_left(path_id) {
                s.scids_left(path_id) - k
            } else {
                0
            }
            &&& other != path_id ==> t.scids_left(other) == s.scids_left(other)
            &&& forall|j: int| k <= j < cids.len() ==> !t.cid_in_use((#[trigger] cids[j]).0)
        }),
    decreases k,
{
    if k > 0 {
        lemma_issued(s, path_id, cids, k - 1, other);
        let t = issued(s, path_id, cids.take(k - 1));
        let (cid, reset_token) = cids[k - 1];
        let u = mp_add_scid(t, path_id, cid, reset_token).0;
        assert(cids.take(k).drop_last() =~= cids.take(k - 1));
        assert(cids.take(k).last() == cids[k - 1]);
        lemma_mp_add_scid_valid(t, path_id, cid, reset_token);
        law_scids_can_be_issued_up_to_the_limit(t, path_id, cid, reset_token);
        if other != path_id {
            law_paths_are_independent(
                t,
                path_id,
                other,
                cid,
                0,
                reset_token,
                0,
                Seq::empty(),
                0,
            );
        }
        assert forall|j: int| k <= j < cids.len() implies !u.cid_in_use((#[trigger] cids[j]).0) by {
            assert(cids[k - 1].0 != cids[j].0);
            lemma_in_use_after(t, path_id, cid, reset_token, cids[j].0);
        }
    } else {
        assert(cids.take(0) =~= Seq::empty());
    }
}

/// The number of source connection IDs that can still be issued on a path, path 0
/// included, is how many calls in a row succeed: of fresh connection IDs exactly the
/// first `scids_left` are issued, each of them lowers the number by one, and the ones
/// after them meet the limit. The numbers of the other paths stay.
pub proof fn law_scids_left_counts_what_can_be_issued(
    s: IdsView,
    path_id: u64,
    cids: Seq<(Seq<u8>, u128)>,
    k: int,
    other: u64,
)
    requires
        s.valid(),
        !s.zero_length_scid,
        are_fresh(s, cids),
        s.next_scid_seq_of(path_id) + cids.len() <= u64::MAX,
        0 <= k < cids.len(),
    ensures
        ({
            let n = s.scids_left(path_id);
            let before = issued(s, path_id, cids.take(k));
            let after = issued(s, path_id, cids.take(k + 1));
            let r = mp_add_scid(before, path_id, cids[k].0, cids[k].1).1;
            &&& k < n ==> r is Ok && before.scids_left(path_id) == n - k && after.scids_left(
                path_id,
            ) == n - k - 1
            &&& k >= n ==> r == Err::<u64, Error>(Error::IdLimit) && before.scids_left(path_id)
                == 0 && after.scids_left(path_id) == 0
            &&& other != path_id ==> after.scids_left(other) == s.scids_left(other)
        }),
{
    lemma_issued(s, path_id, cids, k, other);
    lemma_issued(s, path_id, cids, k + 1, other);
    let before = issued(s, path_id, cids.take(k));
    law_scids_can_be_issued_up_to_the_limit(before, path_id, cids[k].0, cids[k].1);
}

} // verus!
