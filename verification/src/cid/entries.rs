//! Connection ID entries and the bounded queues that hold them.

use crate::packet::ConnectionId;
use vstd::prelude::*;

verus! {

/// What a [`ConnectionIdEntry`] holds.
pub struct EntryView {
    /// The bytes of the connection ID.
    pub cid: Seq<u8>,
    /// Its sequence number.
    pub seq: u64,
    /// Its reset token, if any.
    pub reset_token: Option<u128>,
    /// The path using it, if any.
    pub path_id: Option<usize>,
}

/// A structure holding a `ConnectionId` and all its related metadata.
#[derive(Debug)]
pub struct ConnectionIdEntry {
    /// The Connection ID.
    pub cid: ConnectionId,
    /// Its associated sequence number.
    pub seq: u64,
    /// Its associated reset token. Initial CIDs may not have any reset token.
    pub reset_token: Option<u128>,
    /// The path identifier using this CID, if any.
    pub path_id: Option<usize>,
}

impl View for ConnectionIdEntry {
    type V = EntryView;

    open spec fn view(&self) -> EntryView {
        EntryView {
            cid: self.cid@,
            seq: self.seq,
            reset_token: self.reset_token,
            path_id: self.path_id,
        }
    }
}

impl Default for ConnectionIdEntry {
    fn default() -> (r: Self)
        ensures
            r@ == (EntryView {
                cid: Seq::empty(),
                seq: 0,
                reset_token: None,
                path_id: None,
            }),
    {
        ConnectionIdEntry {
            cid: ConnectionId::default(),
            seq: 0,
            reset_token: None,
            path_id: None,
        }
    }
}

/// Whether some entry has sequence number `seq`.
pub open spec fn has_seq(es: Seq<EntryView>, seq: u64) -> bool {
    exists|i: int| 0 <= i < es.len() && (#[trigger] es[i]).seq == seq
}

/// Whether some entry holds the connection ID `cid`.
pub open spec fn has_cid(es: Seq<EntryView>, cid: Seq<u8>) -> bool {
    exists|i: int| 0 <= i < es.len() && (#[trigger] es[i]).cid == cid
}

/// No two entries have the same sequence number.
pub open spec fn unique_seqs(es: Seq<EntryView>) -> bool {
    forall|i: int, j: int|
        0 <= i < es.len() && 0 <= j < es.len() && (#[trigger] es[i]).seq == (
        #[trigger] es[j]).seq ==> i == j
}

/// No two entries hold the same connection ID.
pub open spec fn unique_cids(es: Seq<EntryView>) -> bool {
    forall|i: int, j: int|
        0 <= i < es.len() && 0 <= j < es.len() && (#[trigger] es[i]).cid == (
        #[trigger] es[j]).cid ==> i == j
}

/// Where the entry with sequence number `seq` stands.
pub open spec fn index_of_seq(es: Seq<EntryView>, seq: u64) -> int {
    choose|i: int| 0 <= i < es.len() && (#[trigger] es[i]).seq == seq
}

/// Where the entry with connection ID `cid` stands.
pub open spec fn index_of_cid(es: Seq<EntryView>, cid: Seq<u8>) -> int {
    choose|i: int| 0 <= i < es.len() && (#[trigger] es[i]).cid == cid
}

/// The entry with sequence number `seq`, if any.
pub open spec fn entry_with_seq(es: Seq<EntryView>, seq: u64) -> Option<EntryView> {
    if has_seq(es, seq) {
        Some(es[index_of_seq(es, seq)])
    } else {
        None
    }
}

/// The entry with connection ID `cid`, if any.
pub open spec fn entry_with_cid(es: Seq<EntryView>, cid: Seq<u8>) -> Option<EntryView> {
    if has_cid(es, cid) {
        Some(es[index_of_cid(es, cid)])
    } else {
        None
    }
}

/// The entries without the one that has sequence number `seq`.
pub open spec fn without_seq(es: Seq<EntryView>, seq: u64) -> Seq<EntryView> {
    if has_seq(es, seq) {
        es.remove(index_of_seq(es, seq))
    } else {
        es
    }
}

/// The entries with the one that has sequence number `seq` linked to `path_id`.
pub open spec fn with_link(es: Seq<EntryView>, seq: u64, path_id: usize) -> Seq<EntryView> {
    let i = index_of_seq(es, seq);
    es.update(i, EntryView { path_id: Some(path_id), ..es[i] })
}

/// The entries with `e` added, in place of the one with its sequence number
/// where there is one, else at the end.
pub open spec fn with_entry(es: Seq<EntryView>, e: EntryView) -> Seq<EntryView> {
    if has_seq(es, e.seq) {
        es.update(index_of_seq(es, e.seq), e)
    } else {
        es.push(e)
    }
}

/// Whether `m` is the lowest sequence number of the entries that satisfy `p`.
pub open spec fn is_lowest_seq(es: Seq<EntryView>, p: spec_fn(EntryView) -> bool, m: u64) -> bool {
    &&& exists|i: int| 0 <= i < es.len() && p(#[trigger] es[i]) && es[i].seq == m
    &&& forall|i: int| 0 <= i < es.len() && p(#[trigger] es[i]) ==> m <= es[i].seq
}

/// The lowest sequence number of the entries that satisfy `p`, if any does.
pub open spec fn lowest_seq(es: Seq<EntryView>, p: spec_fn(EntryView) -> bool) -> Option<u64> {
    if exists|i: int| 0 <= i < es.len() && p(#[trigger] es[i]) {
        Some(choose|m: u64| is_lowest_seq(es, p, m))
    } else {
        None
    }
}

/// The entries that no path uses satisfy this.
pub open spec fn unlinked() -> spec_fn(EntryView) -> bool {
    |e: EntryView| e.path_id is None
}

/// The entries whose sequence numbers are below `bound` satisfy this.
pub open spec fn is_below(bound: u64) -> spec_fn(EntryView) -> bool {
    |e: EntryView| e.seq < bound
}

/// The entries whose sequence numbers are not below `bound` satisfy this.
pub open spec fn not_below(bound: u64) -> spec_fn(EntryView) -> bool {
    |e: EntryView| e.seq >= bound
}

/// The entries below `bound`, in their order.
pub open spec fn below(es: Seq<EntryView>, bound: u64) -> Seq<EntryView> {
    es.filter(is_below(bound))
}

/// The entries that are not below `bound`, in their order.
pub open spec fn from_bound(es: Seq<EntryView>, bound: u64) -> Seq<EntryView> {
    es.filter(not_below(bound))
}

/// A unique sequence number determines the place of its entry.
pub proof fn lemma_seq_index(es: Seq<EntryView>, seq: u64, i: int)
    requires
        unique_seqs(es),
        0 <= i < es.len(),
        es[i].seq == seq,
    ensures
        has_seq(es, seq),
        index_of_seq(es, seq) == i,
{
}

/// A unique connection ID determines the place of its entry.
pub proof fn lemma_cid_index(es: Seq<EntryView>, cid: Seq<u8>, i: int)
    requires
        unique_cids(es),
        0 <= i < es.len(),
        es[i].cid == cid,
    ensures
        has_cid(es, cid),
        index_of_cid(es, cid) == i,
{
}

/// The lowest sequence number is the one that satisfies its description.
pub proof fn lemma_lowest_seq(es: Seq<EntryView>, p: spec_fn(EntryView) -> bool, m: u64)
    requires
        is_lowest_seq(es, p, m),
    ensures
        lowest_seq(es, p) == Some(m),
{
    let c = choose|c: u64| is_lowest_seq(es, p, c);
    let i = choose|i: int| 0 <= i < es.len() && p(#[trigger] es[i]) && es[i].seq == m;
    let j = choose|j: int| 0 <= j < es.len() && p(#[trigger] es[j]) && es[j].seq == c;
    assert(c <= es[i].seq);
    assert(m <= es[j].seq);
}

/// Where some entry satisfies `p` there is a lowest sequence number.
pub proof fn lemma_lowest_seq_exists(es: Seq<EntryView>, p: spec_fn(EntryView) -> bool)
    requires
        exists|i: int| 0 <= i < es.len() && p(#[trigger] es[i]),
    ensures
        lowest_seq(es, p) is Some,
        is_lowest_seq(es, p, lowest_seq(es, p).unwrap()),
    decreases es.len(),
{
    let i = choose|i: int| 0 <= i < es.len() && p(#[trigger] es[i]);
    let front = es.drop_last();
    let last = es.last();
    if exists|k: int| 0 <= k < front.len() && p(#[trigger] front[k]) {
        lemma_lowest_seq_exists(front, p);
        let m = lowest_seq(front, p).unwrap();
        let w = choose|w: int| 0 <= w < front.len() && p(#[trigger] front[w]) && front[w].seq == m;
        assert(es[w] == front[w]);
        let best = if p(last) && last.seq < m { last.seq } else { m };
        assert forall|k: int| 0 <= k < es.len() && p(#[trigger] es[k]) implies best
            <= es[k].seq by {
            if k < front.len() {
                assert(front[k] == es[k]);
            }
        }
        assert(es[es.len() - 1] == last);
        assert(is_lowest_seq(es, p, best));
        lemma_lowest_seq(es, p, best);
    } else {
        if i < front.len() {
            assert(front[i] == es[i]);
        }
        assert(i == es.len() - 1);
        assert forall|k: int| 0 <= k < es.len() && p(#[trigger] es[k]) implies last.seq
            <= es[k].seq by {
            if k < front.len() {
                assert(front[k] == es[k]);
            }
        }
        assert(is_lowest_seq(es, p, last.seq));
        lemma_lowest_seq(es, p, last.seq);
    }
}

} // verus!
