//! Destination connection IDs announced by the peer.

use crate::bounded::{BoundedSeqSet, SeqKey};
use crate::cid::entries::{
    has_cid, has_seq, index_of_seq, lemma_seq_index, not_below, ConnectionIdEntry, EntryView,
};
use crate::cid::model::{
    announce, dcids_valid, is_queued_count, keys, queued_count, queues_at, DcidSpace,
};
use crate::cid::queue::{views, BoundedNonEmptyConnectionIdVecDeque, QueueView};
use crate::cid::validity::lemma_filter_unique;
use crate::error::Error;
use crate::packet::ConnectionId;
use std::collections::VecDeque;
use vstd::prelude::*;

verus! {

/// The number of leading keys that can be queued is the one that satisfies its
/// description.
pub proof fn lemma_queued_count<T>(held: Set<T>, cap: nat, ks: Seq<T>, n: int)
    requires
        is_queued_count(held, cap, ks, n),
    ensures
        queued_count(held, cap, ks) == n,
{
    let c = choose|c: int| is_queued_count(held, cap, ks, c);
    if c < n {
        assert(queues_at(held, cap, ks, c));
    }
    if n < c {
        assert(queues_at(held, cap, ks, n));
    }
}

/// The space that a queue, its two marks and the pending retirements make up.
pub open spec fn space_of<T: SeqKey>(
    dcids: QueueView,
    largest_peer_retire_prior_to: u64,
    largest_destination_seq: u64,
    retire: BoundedSeqSet<T>,
) -> DcidSpace<T> {
    DcidSpace {
        dcids,
        largest_peer_retire_prior_to,
        largest_destination_seq,
        retire: retire@,
        retire_capacity: retire.limit(),
    }
}

/// What is reported of a retired entry.
pub open spec fn seq_and_path(es: Seq<EntryView>) -> Seq<(u64, Option<usize>)> {
    es.map_values(|e: EntryView| (e.seq, e.path_id))
}

/// Queues the retirement of `drained` up to the first entry that finds no room,
/// and reports the entries up to and including that one.
fn queue_retired<T: SeqKey>(
    retire: &mut BoundedSeqSet<T>,
    path_id: u64,
    drained: &VecDeque<ConnectionIdEntry>,
) -> (r: (Vec<(u64, Option<usize>)>, bool))
    requires
        old(retire).wf(),
    ensures
        final(retire).wf(),
        final(retire).limit() == old(retire).limit(),
        ({
            let es = views(drained@);
            let ks = keys::<T>(es, path_id);
            let n = queued_count(old(retire)@, old(retire).limit() as nat, ks);
            &&& 0 <= n <= es.len()
            &&& final(retire)@ == old(retire)@.union(ks.take(n).to_set())
            &&& r.1 == (n < es.len())
            &&& r.0@ == seq_and_path(
                es.take(
                    if n < es.len() {
                        n + 1
                    } else {
                        n
                    },
                ),
            )
        }),
{
    let ghost es = views(drained@);
    let ghost ks = keys::<T>(es, path_id);
    let ghost held = retire@;
    let ghost cap = retire.limit() as nat;
    let mut reported: Vec<(u64, Option<usize>)> = Vec::new();
    let mut i: usize = 0;
    assert(retire@ =~= held.union(ks.take(0).to_set()));
    assert(reported@ =~= seq_and_path(es.take(0)));
    while i < drained.len()
        invariant
            i <= drained@.len(),
            es == views(drained@),
            ks == keys::<T>(es, path_id),
            held == old(retire)@,
            cap == old(retire).limit(),
            retire.wf(),
            retire.limit() == old(retire).limit(),
            retire@ == held.union(ks.take(i as int).to_set()),
            reported@ == seq_and_path(es.take(i as int)),
            forall|j: int| 0 <= j < i ==> #[trigger] queues_at(held, cap, ks, j),
        decreases drained@.len() - i,
    {
        let e = &drained[i];
        assert(es[i as int] == e@);
        assert(ks[i as int] == T::key_of(path_id, e.seq));
        reported.push((e.seq, e.path_id));
        assert(reported@ =~= seq_and_path(es.take(i + 1)));
        if retire.insert(T::key(path_id, e.seq)).is_err() {
            proof {
                lemma_queued_count(held, cap, ks, i as int);
            }
            return (reported, true);
        }
        proof {
            assert(queues_at(held, cap, ks, i as int));
            assert(ks.take(i + 1) =~= ks.take(i as int).push(ks[i as int]));
            ks.take(i as int).lemma_push_to_set_commute(ks[i as int]);
            assert(retire@ =~= held.union(ks.take(i + 1).to_set()));
        }
        i += 1;
    }
    proof {
        lemma_queued_count(held, cap, ks, i as int);
    }
    (reported, false)
}

/// Adds a destination connection ID that the peer announced to its space, and
/// retires those that the announcement asks to retire.
///
/// Returns the sequence numbers of the retired entries with the paths that were
/// using them, and the outcome.
pub fn announce_dcid<T: SeqKey>(
    dcids: &mut BoundedNonEmptyConnectionIdVecDeque,
    largest_peer_retire_prior_to: &mut u64,
    largest_destination_seq: &mut u64,
    retire: &mut BoundedSeqSet<T>,
    path_id: u64,
    cid: ConnectionId,
    seq: u64,
    reset_token: u128,
    retire_prior_to: u64,
) -> (r: (Vec<(u64, Option<usize>)>, Result<(), Error>))
    requires
        dcids_valid(old(dcids)@),
        old(retire).wf(),
    ensures
        final(retire).wf(),
        dcids_valid(final(dcids)@),
        old(dcids)@.entries.len() >= 1 && old(dcids)@.capacity >= 1 ==>
            final(dcids)@.entries.len() >= 1,
        ({
            let a = announce(
                space_of(
                    old(dcids)@,
                    *old(largest_peer_retire_prior_to),
                    *old(largest_destination_seq),
                    *old(retire),
                ),
                path_id,
                cid@,
                seq,
                reset_token,
                retire_prior_to,
            );
            &&& space_of(
                final(dcids)@,
                *final(largest_peer_retire_prior_to),
                *final(largest_destination_seq),
                *final(retire),
            ) == a.space
            &&& r.0@ == seq_and_path(a.reported)
            &&& r.1 == a.result
        }),
{
    let ghost es = dcids@.entries;
    let ghost s = space_of(
        dcids@,
        *largest_peer_retire_prior_to,
        *largest_destination_seq,
        *retire,
    );
    let ghost a = announce(s, path_id, cid@, seq, reset_token, retire_prior_to);
    let mut reported: Vec<(u64, Option<usize>)> = Vec::new();
    assert(reported@ =~= seq_and_path(Seq::<EntryView>::empty()));

    // A repeated announcement has to be the same one.
    if let Some(e) = dcids.find_cid_or_seq(&cid, seq) {
        let same: bool = e.cid == cid && e.seq == seq && e.reset_token == Some(reset_token);
        proof {
            let i = choose|i: int|
                {
                    &&& 0 <= i < es.len()
                    &&& #[trigger] es[i] == e@
                    &&& e@.cid == cid@ || e@.seq == seq
                };
            assert(has_cid(es, cid@) || has_seq(es, seq));
            if e@.seq == seq {
                lemma_seq_index(es, seq, i);
            } else if has_seq(es, seq) {
                // Another entry has the sequence number, so not the ID.
                let k = index_of_seq(es, seq);
                assert(es[k].cid != es[i].cid);
            }
        }
        if same {
            return (reported, Ok(()));
        }
        return (reported, Err(Error::InvalidFrame));
    }
    if retire_prior_to > seq {
        return (reported, Err(Error::InvalidFrame));
    }
    // One that was to be retired already is retired on arrival.
    if seq < *largest_peer_retire_prior_to {
        match retire.insert(T::key(path_id, seq)) {
            Ok(_) => {
                return (reported, Ok(()));
            },
            Err(e) => {
                return (reported, Err(e));
            },
        }
    }
    if seq > *largest_destination_seq {
        *largest_destination_seq = seq;
    }
    let new_entry = ConnectionIdEntry {
        cid,
        seq,
        reset_token: Some(reset_token),
        path_id: None,
    };
    let mut queue_full: bool = false;
    proof {
        lemma_filter_unique(es, not_below(retire_prior_to));
    }
    if retire_prior_to > *largest_peer_retire_prior_to {
        // To avoid exceeding the capacity, the entries are removed first and
        // the new one is inserted afterwards.
        let drained = dcids.drain_below(retire_prior_to);
        let (list, failed) = queue_retired(retire, path_id, &drained);
        reported = list;
        queue_full = failed;
        *largest_peer_retire_prior_to = retire_prior_to;
    } else {
        proof {
            let ks = keys::<T>(Seq::empty(), path_id);
            lemma_queued_count(s.retire, s.retire_capacity as nat, ks, 0);
            assert(retire@ =~= s.retire.union(ks.take(0).to_set()));
            assert(a.reported =~= Seq::<EntryView>::empty());
        }
    }
    proof {
        assert forall|i: int| 0 <= i < dcids@.entries.len() implies (
        #[trigger] dcids@.entries[i]).seq != seq && dcids@.entries[i].cid != cid@ by {
            assert(es.contains(dcids@.entries[i]));
            let k = choose|k: int| 0 <= k < es.len() && es[k] == dcids@.entries[i];
            assert(es[k].seq != seq && es[k].cid != cid@);
        }
    }
    // An error of the retirement queue is reported once the new ID had its
    // chance to be inserted.
    if let Err(e) = dcids.insert(new_entry) {
        return (reported, Err(e));
    }
    if queue_full {
        return (reported, Err(Error::IdLimit));
    }
    (reported, Ok(()))
}

} // verus!
