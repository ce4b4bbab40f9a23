//! What the connection IDs of a connection are, and what each operation makes
//! of them.

use crate::bounded::{fits, other_path, SeqKey};
use crate::cid::entries::{
    below, entry_with_cid, entry_with_seq, from_bound, has_cid, has_seq, lowest_seq, unique_cids,
    unique_seqs, with_link, without_seq, EntryView,
};
use crate::cid::queue::QueueView;
use crate::error::Error;
use vstd::prelude::*;

verus! {

/// The connection IDs of one non-zero path.
pub struct PoolView {
    /// Source CIDs issued to the peer for this path.
    pub scids: QueueView,
    /// Destination CIDs the peer issued for this path.
    pub dcids: QueueView,
    /// Next source CID sequence number to issue on this path.
    pub next_scid_seq: u64,
    /// "Retire Prior To" value to advertise to the peer for this path.
    pub retire_prior_to: u64,
    /// Largest "Retire Prior To" received from the peer on this path.
    pub largest_peer_retire_prior_to: u64,
    /// Largest DCID sequence number received from the peer on this path.
    pub largest_destination_seq: u64,
}

/// The connection IDs of a connection.
pub struct IdsView {
    /// Destination CIDs provided by the peer for path 0.
    pub dcids: QueueView,
    /// Source CIDs provided to the peer for path 0.
    pub scids: QueueView,
    /// Source CIDs of path 0 to announce to the peer, in order.
    pub advertise: Seq<u64>,
    /// Retired destination CIDs of path 0 to announce to the peer.
    pub retire: Set<u64>,
    /// The limit on their number.
    pub retire_capacity: usize,
    /// Retired source CIDs to notify to the application, in order.
    pub retired_scids: Seq<Seq<u8>>,
    /// Largest "Retire Prior To" received from the peer on path 0.
    pub largest_peer_retire_prior_to: u64,
    /// Largest DCID sequence number received from the peer on path 0.
    pub largest_destination_seq: u64,
    /// Next source CID sequence number of path 0.
    pub next_scid_seq: u64,
    /// "Retire Prior To" value to advertise to the peer for path 0.
    pub retire_prior_to: u64,
    /// The maximum number of source CIDs the peer allows, on each path.
    pub source_conn_id_limit: usize,
    /// Whether source CIDs have no bytes.
    pub zero_length_scid: bool,
    /// Whether destination CIDs have no bytes.
    pub zero_length_dcid: bool,
    /// The connection IDs of the non-zero paths.
    pub pools: Map<u64, PoolView>,
    /// Source CIDs of non-zero paths to announce, as (path ID, seq) pairs.
    pub mp_advertise: Seq<(u64, u64)>,
    /// Retired destination CIDs of non-zero paths to announce, as (path ID,
    /// seq) pairs.
    pub mp_retire: Set<(u64, u64)>,
    /// The limit on their number.
    pub mp_retire_capacity: usize,
}

/// The pool of a path of which nothing is known yet.
pub open spec fn empty_pool() -> PoolView {
    PoolView {
        scids: QueueView { entries: Seq::empty(), capacity: 0 },
        dcids: QueueView { entries: Seq::empty(), capacity: 0 },
        next_scid_seq: 0,
        retire_prior_to: 0,
        largest_peer_retire_prior_to: 0,
        largest_destination_seq: 0,
    }
}

/// A queue of source CIDs whose sequence numbers were issued in order.
pub open spec fn scids_valid(q: QueueView, next_scid_seq: u64) -> bool {
    &&& unique_seqs(q.entries)
    &&& unique_cids(q.entries)
    &&& q.entries.len() <= q.capacity
    &&& forall|i: int| 0 <= i < q.entries.len() ==> (#[trigger] q.entries[i]).seq < next_scid_seq
}

/// A queue of destination CIDs.
pub open spec fn dcids_valid(q: QueueView) -> bool {
    &&& unique_seqs(q.entries)
    &&& unique_cids(q.entries)
    &&& q.entries.len() <= q.capacity
}

impl PoolView {
    /// What holds of every pool.
    pub open spec fn valid(self) -> bool {
        &&& scids_valid(self.scids, self.next_scid_seq)
        &&& dcids_valid(self.dcids)
    }
}

impl IdsView {
    /// The source CIDs of a path.
    pub open spec fn scids_of(self, path_id: u64) -> Seq<EntryView> {
        if path_id == 0 {
            self.scids.entries
        } else if self.pools.contains_key(path_id) {
            self.pools[path_id].scids.entries
        } else {
            Seq::empty()
        }
    }

    /// The destination CIDs of a path.
    pub open spec fn dcids_of(self, path_id: u64) -> Seq<EntryView> {
        if path_id == 0 {
            self.dcids.entries
        } else if self.pools.contains_key(path_id) {
            self.pools[path_id].dcids.entries
        } else {
            Seq::empty()
        }
    }

    /// The number of source CIDs that can still be issued on a path.
    pub open spec fn scids_left(self, path_id: u64) -> int {
        if self.scids_of(path_id).len() >= self.source_conn_id_limit {
            0
        } else {
            self.source_conn_id_limit - self.scids_of(path_id).len()
        }
    }

    /// The next source CID sequence number of a path.
    pub open spec fn next_scid_seq_of(self, path_id: u64) -> u64 {
        if path_id == 0 {
            self.next_scid_seq
        } else if self.pools.contains_key(path_id) {
            self.pools[path_id].next_scid_seq
        } else {
            0
        }
    }

    /// No two paths have a source CID in common.
    pub open spec fn distinct_across_paths(self) -> bool {
        forall|p: u64, q: u64, c: Seq<u8>|
            #![trigger has_cid(self.scids_of(p), c), has_cid(self.scids_of(q), c)]
            has_cid(self.scids_of(p), c) && has_cid(self.scids_of(q), c) ==> p == q
    }

    /// What holds in every state that the operations lead to.
    pub open spec fn valid(self) -> bool {
        &&& scids_valid(self.scids, self.next_scid_seq)
        &&& dcids_valid(self.dcids)
        &&& self.scids.entries.len() >= 1
        &&& self.dcids.entries.len() >= 1
        &&& self.next_scid_seq >= 1
        &&& self.retire_prior_to <= self.next_scid_seq
        &&& 2 <= self.source_conn_id_limit <= usize::MAX / 2
        &&& self.scids.capacity >= 2 * self.source_conn_id_limit - 1
        &&& self.dcids.capacity >= 2
        &&& self.retire.finite() && self.retire.len() <= self.retire_capacity
        &&& self.mp_retire.finite() && self.mp_retire.len() <= self.mp_retire_capacity
        &&& self.pools.dom().finite()
        &&& forall|p: u64| #[trigger]
            self.pools.contains_key(p) ==> p != 0 && self.pools[p].valid()
                && self.pools[p].dcids.capacity <= self.dcids.capacity
        &&& self.distinct_across_paths()
    }

    /// Whether `cid` is used anywhere on the connection, on any path and on
    /// either the source or the destination side.
    pub open spec fn cid_in_use(self, cid: Seq<u8>) -> bool {
        exists|p: u64|
            {
                ||| has_cid(#[trigger] self.scids_of(p), cid)
                ||| has_cid(self.dcids_of(p), cid)
            }
    }

    /// The lowest sequence number of the source CIDs of path 0 whose removal
    /// has not been requested.
    pub open spec fn lowest_usable_scid(self) -> Option<u64> {
        lowest_seq(self.scids.entries, |e: EntryView| e.seq >= self.retire_prior_to)
    }
}

/// `advertise` with `k` added at the end, or with its first occurrence taken
/// away.
pub open spec fn marked<T>(advertise: Seq<T>, k: T, add: bool) -> Seq<T> {
    if add {
        advertise.push(k)
    } else if advertise.contains(k) {
        advertise.remove(advertise.index_of_first(k).unwrap())
    } else {
        advertise
    }
}

/// The state of a new connection whose source CID is `scid`.
pub open spec fn new_ids(
    destination_conn_id_limit: usize,
    scid: Seq<u8>,
    path_id: usize,
    reset_token: Option<u128>,
) -> IdsView {
    let limit: int = if destination_conn_id_limit < 2 {
        2
    } else {
        destination_conn_id_limit as int
    };
    let pending: int = if limit * 3 > usize::MAX {
        usize::MAX as int
    } else {
        limit * 3
    };
    IdsView {
        dcids: QueueView {
            entries: seq![
                EntryView {
                    cid: Seq::empty(),
                    seq: 0,
                    reset_token: None,
                    path_id: Some(path_id),
                },
            ],
            capacity: limit as usize,
        },
        scids: QueueView {
            entries: seq![EntryView { cid: scid, seq: 0, reset_token, path_id: Some(path_id) }],
            capacity: 3,
        },
        advertise: Seq::empty(),
        retire: Set::empty(),
        retire_capacity: pending as usize,
        retired_scids: Seq::empty(),
        largest_peer_retire_prior_to: 0,
        largest_destination_seq: 0,
        next_scid_seq: 1,
        retire_prior_to: 0,
        source_conn_id_limit: 2,
        zero_length_scid: scid.len() == 0,
        zero_length_dcid: false,
        pools: Map::empty(),
        mp_advertise: Seq::empty(),
        mp_retire: Set::empty(),
        mp_retire_capacity: pending as usize,
    }
}

/// What becomes of the state, and what is returned, when a source CID is added
/// to path 0.
pub open spec fn add_scid(
    s: IdsView,
    cid: Seq<u8>,
    reset_token: Option<u128>,
    advertise: bool,
    path_id: Option<usize>,
    retire_if_needed: bool,
) -> (IdsView, Result<u64, Error>) {
    let at_limit = s.scids.entries.len() >= s.source_conn_id_limit;
    // Room is made by asking the peer to retire the lowest usable one.
    let asked = match s.lowest_usable_scid() {
        Some(m) if at_limit => IdsView { retire_prior_to: (m + 1) as u64, ..s },
        _ => s,
    };
    if s.zero_length_scid {
        (s, Err(Error::InvalidState))
    } else if at_limit && !retire_if_needed {
        (s, Err(Error::IdLimit))
    } else if at_limit && s.lowest_usable_scid() is None {
        (s, Err(Error::InvalidState))
    } else if reset_token is None {
        (asked, Err(Error::InvalidState))
    } else if let Some(e) = entry_with_cid(s.scids.entries, cid) {
        // Adding it again changes nothing.
        (
            asked,
            if e.reset_token == reset_token {
                Ok(e.seq)
            } else {
                Err(Error::InvalidState)
            },
        )
    } else if s.cid_in_use(cid) {
        (asked, Err(Error::InvalidState))
    } else if s.scids.entries.len() >= s.scids.capacity {
        (asked, Err(Error::IdLimit))
    } else {
        let e = EntryView { cid, seq: s.next_scid_seq, reset_token, path_id };
        (
            IdsView {
                scids: QueueView { entries: s.scids.entries.push(e), ..s.scids },
                next_scid_seq: (s.next_scid_seq + 1) as u64,
                advertise: marked(s.advertise, s.next_scid_seq, advertise),
                ..asked
            },
            Ok(s.next_scid_seq),
        )
    }
}

/// A sequence number space for destination CIDs, together with the retirements
/// that are still to be announced to the peer.
#[verifier::reject_recursive_types(T)]
pub struct DcidSpace<T> {
    /// The active destination CIDs.
    pub dcids: QueueView,
    /// Largest "Retire Prior To" received from the peer.
    pub largest_peer_retire_prior_to: u64,
    /// Largest sequence number received from the peer.
    pub largest_destination_seq: u64,
    /// The retirements to announce.
    pub retire: Set<T>,
    /// The limit on their number.
    pub retire_capacity: usize,
}

/// The keys of the entries of `es` on path `path_id`, in their order.
pub open spec fn keys<T: SeqKey>(es: Seq<EntryView>, path_id: u64) -> Seq<T> {
    es.map_values(|e: EntryView| T::key_of(path_id, e.seq))
}

/// Whether the key at position `j` finds room once those before it are queued.
pub open spec fn queues_at<T>(held: Set<T>, cap: nat, ks: Seq<T>, j: int) -> bool {
    fits(held.union(ks.take(j).to_set()), cap, ks[j])
}

/// Whether `n` is the number of leading keys that can be queued.
pub open spec fn is_queued_count<T>(held: Set<T>, cap: nat, ks: Seq<T>, n: int) -> bool {
    &&& 0 <= n <= ks.len()
    &&& forall|j: int| 0 <= j < n ==> #[trigger] queues_at(held, cap, ks, j)
    &&& n < ks.len() ==> !queues_at(held, cap, ks, n)
}

/// The number of leading keys that can be queued.
pub open spec fn queued_count<T>(held: Set<T>, cap: nat, ks: Seq<T>) -> int {
    choose|n: int| is_queued_count(held, cap, ks, n)
}

/// What becomes of a space, which entries are reported as retired, and what is
/// returned, when the peer announces a destination CID.
#[verifier::reject_recursive_types(T)]
pub struct Announced<T> {
    /// The space afterwards.
    pub space: DcidSpace<T>,
    /// The retired entries that are reported.
    pub reported: Seq<EntryView>,
    /// What is returned.
    pub result: Result<(), Error>,
}

/// What the announcement of a destination CID makes of its space.
///
/// Where the number of retirements to announce reaches its limit, the error
/// comes after the new CID was inserted, and the entry that found no room is
/// the last one reported.
pub open spec fn announce<T: SeqKey>(
    s: DcidSpace<T>,
    path_id: u64,
    cid: Seq<u8>,
    seq: u64,
    reset_token: u128,
    retire_prior_to: u64,
) -> Announced<T> {
    let es = s.dcids.entries;
    let new_entry = EntryView { cid, seq, reset_token: Some(reset_token), path_id: None };
    let key = T::key_of(path_id, seq);
    let nothing = |r: Result<(), Error>|
        Announced { space: s, reported: Seq::empty(), result: r };
    if has_cid(es, cid) || has_seq(es, seq) {
        // A repeated announcement has to be the same one.
        match entry_with_seq(es, seq) {
            Some(e) if e.cid == cid && e.reset_token == Some(reset_token) => nothing(Ok(())),
            _ => nothing(Err(Error::InvalidFrame)),
        }
    } else if retire_prior_to > seq {
        nothing(Err(Error::InvalidFrame))
    } else if seq < s.largest_peer_retire_prior_to {
        // It is retired on arrival.
        if fits(s.retire, s.retire_capacity as nat, key) {
            Announced {
                space: DcidSpace { retire: s.retire.insert(key), ..s },
                reported: Seq::empty(),
                result: Ok(()),
            }
        } else {
            nothing(Err(Error::IdLimit))
        }
    } else {
        let largest_destination_seq = if seq > s.largest_destination_seq {
            seq
        } else {
            s.largest_destination_seq
        };
        let advances = retire_prior_to > s.largest_peer_retire_prior_to;
        // Every older one is retired, wherever it stands.
        let retired = if advances {
            below(es, retire_prior_to)
        } else {
            Seq::empty()
        };
        let left = if advances {
            from_bound(es, retire_prior_to)
        } else {
            es
        };
        let ks = keys::<T>(retired, path_id);
        let queued = queued_count(s.retire, s.retire_capacity as nat, ks);
        let full = left.len() >= s.dcids.capacity;
        Announced {
            space: DcidSpace {
                dcids: QueueView {
                    entries: if full {
                        left
                    } else {
                        left.push(new_entry)
                    },
                    ..s.dcids
                },
                largest_peer_retire_prior_to: if advances {
                    retire_prior_to
                } else {
                    s.largest_peer_retire_prior_to
                },
                largest_destination_seq,
                retire: s.retire.union(ks.take(queued).to_set()),
                retire_capacity: s.retire_capacity,
            },
            reported: retired.take(
                if queued < retired.len() {
                    queued + 1
                } else {
                    retired.len() as int
                },
            ),
            result: if full || queued < retired.len() {
                Err(Error::IdLimit)
            } else {
                Ok(())
            },
        }
    }
}

impl IdsView {
    /// The destination CID space of path 0.
    pub open spec fn dcid_space(self) -> DcidSpace<u64> {
        DcidSpace {
            dcids: self.dcids,
            largest_peer_retire_prior_to: self.largest_peer_retire_prior_to,
            largest_destination_seq: self.largest_destination_seq,
            retire: self.retire,
            retire_capacity: self.retire_capacity,
        }
    }

    /// The state with another destination CID space for path 0.
    pub open spec fn with_dcid_space(self, sp: DcidSpace<u64>) -> IdsView {
        IdsView {
            dcids: sp.dcids,
            largest_peer_retire_prior_to: sp.largest_peer_retire_prior_to,
            largest_destination_seq: sp.largest_destination_seq,
            retire: sp.retire,
            ..self
        }
    }

    /// The destination CID space of a path that has a pool.
    pub open spec fn mp_dcid_space(self, path_id: u64) -> DcidSpace<(u64, u64)> {
        let p = self.pools[path_id];
        DcidSpace {
            dcids: p.dcids,
            largest_peer_retire_prior_to: p.largest_peer_retire_prior_to,
            largest_destination_seq: p.largest_destination_seq,
            retire: self.mp_retire,
            retire_capacity: self.mp_retire_capacity,
        }
    }

    /// The state with another destination CID space for a path that has a pool.
    pub open spec fn with_mp_dcid_space(
        self,
        path_id: u64,
        sp: DcidSpace<(u64, u64)>,
    ) -> IdsView {
        let p = PoolView {
            dcids: sp.dcids,
            largest_peer_retire_prior_to: sp.largest_peer_retire_prior_to,
            largest_destination_seq: sp.largest_destination_seq,
            ..self.pools[path_id]
        };
        IdsView { pools: self.pools.insert(path_id, p), mp_retire: sp.retire, ..self }
    }

    /// The state with another pool for a path.
    pub open spec fn with_pool(self, path_id: u64, p: PoolView) -> IdsView {
        IdsView { pools: self.pools.insert(path_id, p), ..self }
    }

    /// The state once the path has a pool. A new pool makes room for the
    /// retirements of one more path.
    pub open spec fn with_pool_for(self, path_id: u64) -> IdsView {
        if self.pools.contains_key(path_id) {
            self
        } else {
            let pools = self.pools.insert(path_id, empty_pool());
            let wanted = (1 + pools.dom().len()) * self.dcids.capacity * 3;
            let bounded = if wanted > usize::MAX {
                usize::MAX as int
            } else {
                wanted as int
            };
            IdsView {
                pools,
                mp_retire_capacity: if bounded > self.mp_retire_capacity {
                    bounded as usize
                } else {
                    self.mp_retire_capacity
                },
                ..self
            }
        }
    }
}

/// The sequence number of an entry together with the path that uses it, if any
/// does.
pub open spec fn link_of() -> spec_fn(EntryView) -> Option<(u64, usize)> {
    |e: EntryView|
        match e.path_id {
            Some(p) => Some((e.seq, p)),
            None => None,
        }
}

/// The (sequence number, path) pairs of the entries that a path uses.
pub open spec fn linked_pairs(es: Seq<EntryView>) -> Seq<(u64, usize)> {
    es.filter_map(link_of())
}

/// The (path ID, sequence number, path) triples of the entries.
pub open spec fn path_triples(path_id: u64, es: Seq<EntryView>) -> Seq<(u64, u64, Option<usize>)> {
    es.map_values(|e: EntryView| (path_id, e.seq, e.path_id))
}

/// The path ID 0 triples of (sequence number, path) pairs.
pub open spec fn legacy_triples(pairs: Seq<(u64, usize)>) -> Seq<(u64, u64, Option<usize>)> {
    pairs.map_values(|p: (u64, usize)| (0u64, p.0, Some(p.1)))
}

/// What the announcement of a destination CID makes of path 0: the state, the
/// retired (sequence number, path) pairs, and what is returned.
pub open spec fn add_dcid(
    s: IdsView,
    cid: Seq<u8>,
    seq: u64,
    reset_token: u128,
    retire_prior_to: u64,
) -> (IdsView, Seq<(u64, usize)>, Result<(), Error>) {
    if s.zero_length_dcid {
        (s, Seq::empty(), Err(Error::InvalidState))
    } else {
        let a = announce(s.dcid_space(), 0, cid, seq, reset_token, retire_prior_to);
        (s.with_dcid_space(a.space), linked_pairs(a.reported), a.result)
    }
}

/// What the announcement of a destination CID makes of any path: the state, the
/// retired (path ID, sequence number, path) triples, and what is returned.
pub open spec fn mp_add_dcid(
    s: IdsView,
    path_id: u64,
    cid: Seq<u8>,
    seq: u64,
    reset_token: u128,
    retire_prior_to: u64,
) -> (IdsView, Seq<(u64, u64, Option<usize>)>, Result<(), Error>) {
    if path_id == 0 {
        let (t, pairs, r) = add_dcid(s, cid, seq, reset_token, retire_prior_to);
        (t, legacy_triples(pairs), r)
    } else if s.zero_length_dcid {
        (s, Seq::empty(), Err(Error::InvalidState))
    } else {
        let t = with_dcid_room(s.with_pool_for(path_id), path_id);
        let a = announce(
            t.mp_dcid_space(path_id),
            path_id,
            cid,
            seq,
            reset_token,
            retire_prior_to,
        );
        (t.with_mp_dcid_space(path_id, a.space), path_triples(path_id, a.reported), a.result)
    }
}

/// The state once the pool of `path_id` holds as many destination CIDs as path
/// 0 does.
pub open spec fn with_dcid_room(s: IdsView, path_id: u64) -> IdsView {
    let p = s.pools[path_id];
    let q = QueueView {
        capacity: if s.dcids.capacity > p.dcids.capacity {
            s.dcids.capacity
        } else {
            p.dcids.capacity
        },
        ..p.dcids
    };
    s.with_pool(path_id, PoolView { dcids: q, ..p })
}

/// What becomes of the state, and what is returned, when a source CID is added
/// to any path.
pub open spec fn mp_add_scid(
    s: IdsView,
    path_id: u64,
    cid: Seq<u8>,
    reset_token: u128,
) -> (IdsView, Result<u64, Error>) {
    if path_id == 0 {
        add_scid(s, cid, Some(reset_token), true, None, false)
    } else if s.zero_length_scid || s.cid_in_use(cid) {
        (s, Err(Error::InvalidState))
    } else {
        let t = s.with_pool_for(path_id);
        let p = t.pools[path_id];
        if p.scids.entries.len() >= s.source_conn_id_limit {
            (t, Err(Error::IdLimit))
        } else {
            let seq = p.next_scid_seq;
            let e = EntryView { cid, seq, reset_token: Some(reset_token), path_id: None };
            let q = QueueView {
                entries: p.scids.entries.push(e),
                capacity: if s.source_conn_id_limit > p.scids.capacity {
                    s.source_conn_id_limit
                } else {
                    p.scids.capacity
                },
            };
            (
                IdsView {
                    mp_advertise: t.mp_advertise.push((path_id, seq)),
                    ..t.with_pool(
                        path_id,
                        PoolView { scids: q, next_scid_seq: (seq + 1) as u64, ..p },
                    )
                },
                Ok(seq),
            )
        }
    }
}

/// What becomes of the state, and what is returned, when the peer retires a
/// source CID of path 0 with a packet sent to `pkt_dcid`.
pub open spec fn drop_scid(s: IdsView, seq: u64, pkt_dcid: Seq<u8>) -> (
    IdsView,
    Result<Option<usize>, Error>,
) {
    if seq >= s.next_scid_seq {
        (s, Err(Error::InvalidState))
    } else if s.scids.entries.len() <= 1 {
        (s, Err(Error::OutOfIdentifiers))
    } else if let Some(e) = entry_with_seq(s.scids.entries, seq) {
        let t = IdsView {
            scids: QueueView { entries: without_seq(s.scids.entries, seq), ..s.scids },
            ..s
        };
        let notified = IdsView { retired_scids: s.retired_scids.push(e.cid), ..t };
        if e.cid == pkt_dcid {
            (t, Err(Error::InvalidState))
        } else if let Some(m) = t.lowest_usable_scid() {
            (IdsView { retire_prior_to: m, ..notified }, Ok(e.path_id))
        } else {
            (notified, Err(Error::InvalidState))
        }
    } else {
        (s, Ok(None))
    }
}

/// What becomes of the state, and which connection ID is returned, when the
/// peer retires a source CID of any path with a packet sent to `pkt_dcid`.
pub open spec fn mp_drop_scid(s: IdsView, path_id: u64, seq: u64, pkt_dcid: Seq<u8>) -> (
    IdsView,
    Result<Option<Seq<u8>>, Error>,
) {
    if path_id == 0 {
        let (t, r) = drop_scid(s, seq, pkt_dcid);
        match r {
            Ok(_) => (
                t,
                Ok(
                    match entry_with_seq(s.scids.entries, seq) {
                        Some(e) => Some(e.cid),
                        None => None,
                    },
                ),
            ),
            Err(e) => (t, Err(e)),
        }
    } else if !s.pools.contains_key(path_id) || seq >= s.pools[path_id].next_scid_seq {
        (s, Err(Error::InvalidState))
    } else {
        let p = s.pools[path_id];
        if let Some(e) = entry_with_seq(p.scids.entries, seq) {
            let left = without_seq(p.scids.entries, seq);
            let q = PoolView { scids: QueueView { entries: left, ..p.scids }, ..p };
            if e.cid == pkt_dcid {
                (s.with_pool(path_id, q), Err(Error::InvalidState))
            } else {
                let retire_prior_to = match lowest_seq(
                    left,
                    |x: EntryView| x.seq >= p.retire_prior_to,
                ) {
                    Some(m) => m,
                    None => p.retire_prior_to,
                };
                (
                    IdsView {
                        retired_scids: s.retired_scids.push(e.cid),
                        ..s.with_pool(path_id, PoolView { retire_prior_to, ..q })
                    },
                    Ok(Some(e.cid)),
                )
            }
        } else {
            (s, Ok(None))
        }
    }
}

/// What becomes of the state, and what is returned, when a destination CID of
/// path 0 is retired.
pub open spec fn drop_dcid(s: IdsView, seq: u64) -> (IdsView, Result<Option<usize>, Error>) {
    if s.zero_length_dcid {
        (s, Err(Error::InvalidState))
    } else if s.dcids.entries.len() <= 1 {
        (s, Err(Error::OutOfIdentifiers))
    } else if let Some(e) = entry_with_seq(s.dcids.entries, seq) {
        let t = IdsView {
            dcids: QueueView { entries: without_seq(s.dcids.entries, seq), ..s.dcids },
            ..s
        };
        if fits(s.retire, s.retire_capacity as nat, seq) {
            (IdsView { retire: s.retire.insert(seq), ..t }, Ok(e.path_id))
        } else {
            (t, Err(Error::IdLimit))
        }
    } else {
        (s, Err(Error::InvalidState))
    }
}

/// What becomes of the state, and what is returned, when a destination CID of
/// any path is retired.
pub open spec fn mp_drop_dcid(s: IdsView, path_id: u64, seq: u64) -> (
    IdsView,
    Result<Option<usize>, Error>,
) {
    if path_id == 0 {
        drop_dcid(s, seq)
    } else if s.zero_length_dcid || !s.pools.contains_key(path_id) {
        (s, Err(Error::InvalidState))
    } else {
        let p = s.pools[path_id];
        if p.dcids.entries.len() <= 1 {
            (s, Err(Error::OutOfIdentifiers))
        } else if let Some(e) = entry_with_seq(p.dcids.entries, seq) {
            let q = QueueView { entries: without_seq(p.dcids.entries, seq), ..p.dcids };
            let t = s.with_pool(path_id, PoolView { dcids: q, ..p });
            if fits(s.mp_retire, s.mp_retire_capacity as nat, (path_id, seq)) {
                (IdsView { mp_retire: s.mp_retire.insert((path_id, seq)), ..t }, Ok(e.path_id))
            } else {
                (t, Err(Error::IdLimit))
            }
        } else {
            (s, Err(Error::InvalidState))
        }
    }
}

/// The state once the destination CIDs of a path are gone, and the retirements
/// to announce for it with them. Those of path 0 stay, without its retirements.
pub open spec fn drop_dcid_pool(s: IdsView, path_id: u64) -> IdsView {
    if path_id == 0 {
        IdsView { retire: Set::empty(), ..s }
    } else {
        let t = if s.pools.contains_key(path_id) {
            let p = s.pools[path_id];
            s.with_pool(
                path_id,
                PoolView { dcids: QueueView { entries: Seq::empty(), ..p.dcids }, ..p },
            )
        } else {
            s
        };
        IdsView { mp_retire: s.mp_retire.filter(other_path(path_id)), ..t }
    }
}

/// The state once nothing of a non-zero path is left.
pub open spec fn drop_path_pools(s: IdsView, path_id: u64) -> IdsView {
    if path_id == 0 {
        s
    } else {
        IdsView {
            pools: s.pools.remove(path_id),
            mp_advertise: s.mp_advertise.filter(other_path(path_id)),
            mp_retire: s.mp_retire.filter(other_path(path_id)),
            ..s
        }
    }
}

/// The state, and what is returned, when a source CID of path 0 is linked to a
/// path.
pub open spec fn link_scid(s: IdsView, seq: u64, path_id: usize) -> (IdsView, Result<(), Error>) {
    if has_seq(s.scids.entries, seq) {
        let q = QueueView { entries: with_link(s.scids.entries, seq, path_id), ..s.scids };
        (IdsView { scids: q, ..s }, Ok(()))
    } else {
        (s, Err(Error::InvalidState))
    }
}

/// The state, and what is returned, when a destination CID of any path is
/// linked to a 4-tuple path.
pub open spec fn link_dcid(s: IdsView, path_id: u64, seq: u64, four_tuple: usize) -> (
    IdsView,
    Result<(), Error>,
) {
    if !has_seq(s.dcids_of(path_id), seq) {
        (s, Err(Error::InvalidState))
    } else if path_id == 0 {
        let q = QueueView { entries: with_link(s.dcids.entries, seq, four_tuple), ..s.dcids };
        (IdsView { dcids: q, ..s }, Ok(()))
    } else {
        let p = s.pools[path_id];
        let q = QueueView { entries: with_link(p.dcids.entries, seq, four_tuple), ..p.dcids };
        (s.with_pool(path_id, PoolView { dcids: q, ..p }), Ok(()))
    }
}

/// The state once the peer allows `v` source CIDs.
pub open spec fn with_source_limit(s: IdsView, v: u64) -> IdsView {
    let limit: int = if v > usize::MAX / 2 {
        (usize::MAX / 2) as int
    } else {
        v as int
    };
    if limit >= 2 {
        IdsView {
            source_conn_id_limit: limit as usize,
            scids: QueueView {
                capacity: if 2 * limit - 1 > s.scids.capacity {
                    (2 * limit - 1) as usize
                } else {
                    s.scids.capacity
                },
                ..s.scids
            },
            ..s
        }
    } else {
        s
    }
}

/// The set of retirements to announce, and what is returned, when `k` is added
/// to it or taken away.
pub open spec fn mark_retired<T>(held: Set<T>, cap: usize, k: T, retire: bool) -> (
    Set<T>,
    Result<(), Error>,
) {
    if !retire {
        (held.remove(k), Ok(()))
    } else if fits(held, cap as nat, k) {
        (held.insert(k), Ok(()))
    } else {
        (held, Err(Error::IdLimit))
    }
}

} // verus!
