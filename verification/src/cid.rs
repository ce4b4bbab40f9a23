//! Connection ID management.

use crate::bounded::BoundedSeqSet;
use crate::bytes::{be_bytes, u128_to_be};
use crate::cid::entries::{
    entry_with_cid, entry_with_seq, has_cid, has_seq, index_of_seq, lowest_seq, unlinked,
    ConnectionIdEntry, EntryView,
};
use crate::cid::model::{
    add_dcid, add_scid, announce, drop_dcid, drop_scid, empty_pool, link_dcid, link_of, link_scid,
    linked_pairs, mark_retired, marked, new_ids, with_source_limit, IdsView, PoolView,
};
use crate::cid::queue::{mark, BoundedNonEmptyConnectionIdVecDeque, QueueView};
use crate::cid::retired::RetiredPathIds;
use crate::cid::space::{announce_dcid, seq_and_path, space_of};
use crate::cid::validity::{
    lemma_add_dcid_valid, lemma_add_scid_valid, lemma_drop_dcid_valid, lemma_drop_scid_valid,
    lemma_in_use, lemma_in_use_same, lemma_link_dcid_valid, lemma_link_scid_valid, lemma_same_scids,
    lemma_with_source_limit_valid, lemma_new_ids_valid,
};
use crate::error::Error;
use crate::frame::Frame;
use crate::packet::ConnectionId;
use std::collections::{BTreeMap, HashSet, VecDeque};
use vstd::prelude::*;
use vstd::std_specs::cmp::OrdSpec;

pub mod entries;
pub mod history;
pub mod issuing;
pub mod laws;
pub mod model;
pub mod multipath;
pub mod operation_laws;
pub mod queue;
pub mod retired;
pub mod space;
pub mod validity;

verus! {

/// Used to calculate the cap for the queue of retired connection IDs for which
/// a RETIRED_CONNECTION_ID frame has not been sent, as a multiple of
/// `active_conn_id_limit`.
pub const RETIRED_CONN_ID_LIMIT_MULTIPLIER: u64 = 3;

/// Per-Path ID connection ID pool.
///
/// Every non-zero path identifier has its own connection ID sequence number
/// spaces in both directions, each starting at 0, with the active connection
/// ID limits applying per path.
struct PathCidPool {
    /// Source CIDs we issued to the peer for this path.
    scids: BoundedNonEmptyConnectionIdVecDeque,
    /// Destination CIDs the peer issued to us for this path.
    dcids: BoundedNonEmptyConnectionIdVecDeque,
    /// Next source CID sequence number to issue on this path.
    next_scid_seq: u64,
    /// "Retire Prior To" value to advertise to the peer for this path.
    retire_prior_to: u64,
    /// Largest "Retire Prior To" received from the peer on this path.
    largest_peer_retire_prior_to: u64,
    /// Largest DCID sequence number received from the peer on this path.
    largest_destination_seq: u64,
}

impl PathCidPool {
    spec fn model(self) -> PoolView {
        PoolView {
            scids: self.scids@,
            dcids: self.dcids@,
            next_scid_seq: self.next_scid_seq,
            retire_prior_to: self.retire_prior_to,
            largest_peer_retire_prior_to: self.largest_peer_retire_prior_to,
            largest_destination_seq: self.largest_destination_seq,
        }
    }

    /// A pool without any connection ID.
    fn empty() -> (r: Self)
        ensures
            r.model() == empty_pool(),
    {
        PathCidPool {
            scids: BoundedNonEmptyConnectionIdVecDeque::default(),
            dcids: BoundedNonEmptyConnectionIdVecDeque::default(),
            next_scid_seq: 0,
            retire_prior_to: 0,
            largest_peer_retire_prior_to: 0,
            largest_destination_seq: 0,
        }
    }
}

/// The pools, each by what it holds.
spec fn pool_models(m: Map<u64, PathCidPool>) -> Map<u64, PoolView> {
    m.map_values(|p: PathCidPool| p.model())
}

/// Updating a pool updates what is known of it.
proof fn lemma_pool_insert(m: Map<u64, PathCidPool>, k: u64, p: PathCidPool)
    ensures
        pool_models(m.insert(k, p)) == pool_models(m).insert(k, p.model()),
        pool_models(m.remove(k)) == pool_models(m).remove(k),
        pool_models(m).dom() == m.dom(),
        pool_models(m.remove(k).insert(k, p)) == pool_models(m).insert(k, p.model()),
{
    assert(pool_models(m.insert(k, p)) =~= pool_models(m).insert(k, p.model()));
    assert(pool_models(m.remove(k)) =~= pool_models(m).remove(k));
    assert(pool_models(m).dom() =~= m.dom());
    assert(m.remove(k).insert(k, p) =~= m.insert(k, p));
}

/// The pairs of no entries are no pairs.
proof fn lemma_linked_pairs_empty()
    ensures
        linked_pairs(Seq::empty()) == Seq::<(u64, usize)>::empty(),
{
    reveal(Seq::filter_map);
}

/// The pairs of one more entry.
proof fn lemma_linked_pairs_step(es: Seq<EntryView>, i: int)
    requires
        0 <= i < es.len(),
    ensures
        linked_pairs(es.take(i + 1)) == match es[i].path_id {
            Some(p) => linked_pairs(es.take(i)).push((es[i].seq, p)),
            None => linked_pairs(es.take(i)),
        },
{
    es.lemma_filter_map_take_succ(link_of(), i);

    assert(linked_pairs(es.take(i + 1)) =~= match es[i].path_id {
        Some(p) => linked_pairs(es.take(i)).push((es[i].seq, p)),
        None => linked_pairs(es.take(i)),
    });
}

/// Keys in increasing order are increasing numbers.
proof fn lemma_increasing(ks: Seq<u64>)
    requires
        vstd::std_specs::btree::increasing_seq(ks),
    ensures
        forall|i: int, j: int| 0 <= i < j < ks.len() ==> ks[i] < ks[j],
{
    broadcast use vstd::std_specs::btree::group_btree_axioms;

    assert forall|i: int, j: int| 0 <= i < j < ks.len() implies ks[i] < ks[j] by {
        assert(ks[i].cmp_spec(&ks[j]) is Less);
    }
}

/// The connection IDs of a connection, on all its paths and in both directions.
pub struct ConnectionIdentifiers {
    /// All the Destination Connection IDs provided by our peer.
    dcids: BoundedNonEmptyConnectionIdVecDeque,
    /// All the Source Connection IDs we provide to our peer.
    scids: BoundedNonEmptyConnectionIdVecDeque,
    /// Source Connection IDs that should be announced to the peer.
    advertise_new_scid_seqs: VecDeque<u64>,
    /// Retired Destination Connection IDs that should be announced to the peer.
    retire_dcid_seqs: BoundedSeqSet<u64>,
    /// Retired Source Connection IDs that should be notified to the
    /// application.
    retired_scids: VecDeque<ConnectionId>,
    /// Largest "Retire Prior To" we received from the peer.
    largest_peer_retire_prior_to: u64,
    /// Largest sequence number we received from the peer.
    largest_destination_seq: u64,
    /// Next sequence number to use.
    next_scid_seq: u64,
    /// "Retire Prior To" value to advertise to the peer.
    retire_prior_to: u64,
    /// The maximum number of source Connection IDs our peer allows us.
    source_conn_id_limit: usize,
    /// Does the host use zero-length source Connection ID.
    zero_length_scid: bool,
    /// Does the host use zero-length destination Connection ID.
    zero_length_dcid: bool,
    /// Per-Path ID connection ID pools for non-zero path identifiers. Path ID 0
    /// uses the `scids`/`dcids` collections above.
    mp_pools: BTreeMap<u64, PathCidPool>,
    /// Per-path source CIDs that should be advertised to the peer through
    /// PATH_NEW_CONNECTION_ID frames, as (path_id, seq) pairs.
    mp_advertise_new_scid_seqs: VecDeque<(u64, u64)>,
    /// Per-path retired destination CIDs that should be advertised to the peer
    /// through PATH_RETIRE_CONNECTION_ID frames, as (path_id, seq) pairs.
    mp_retire_dcid_seqs: BoundedSeqSet<(u64, u64)>,
}

impl View for ConnectionIdentifiers {
    type V = IdsView;

    closed spec fn view(&self) -> IdsView {
        IdsView {
            dcids: self.dcids@,
            scids: self.scids@,
            advertise: self.advertise_new_scid_seqs@,
            retire: self.retire_dcid_seqs@,
            retire_capacity: self.retire_dcid_seqs.limit(),
            retired_scids: self.retired_scids@.map_values(|c: ConnectionId| c@),
            largest_peer_retire_prior_to: self.largest_peer_retire_prior_to,
            largest_destination_seq: self.largest_destination_seq,
            next_scid_seq: self.next_scid_seq,
            retire_prior_to: self.retire_prior_to,
            source_conn_id_limit: self.source_conn_id_limit,
            zero_length_scid: self.zero_length_scid,
            zero_length_dcid: self.zero_length_dcid,
            pools: pool_models(self.mp_pools@),
            mp_advertise: self.mp_advertise_new_scid_seqs@,
            mp_retire: self.mp_retire_dcid_seqs@,
            mp_retire_capacity: self.mp_retire_dcid_seqs.limit(),
        }
    }
}

impl ConnectionIdentifiers {
    /// Whether the sets of pending retirements are in order.
    pub closed spec fn sets_wf(&self) -> bool {
        self.retire_dcid_seqs.wf() && self.mp_retire_dcid_seqs.wf()
    }

    /// What holds of the connection IDs between calls: among other things, their
    /// state is valid.
    pub closed spec fn wf(&self) -> bool {
        self.sets_wf() && self@.valid()
    }

    /// Between calls the state is valid.
    pub proof fn law_state_is_valid(&self)
        requires
            self.wf(),
        ensures
            self@.valid(),
    {
    }

    /// Creates a new `ConnectionIdentifiers` with the specified destination
    /// connection ID limit and initial source Connection ID. The destination
    /// Connection ID is set to the empty one.
    pub fn new(
        destination_conn_id_limit: usize,
        initial_scid: &ConnectionId,
        initial_path_id: usize,
        reset_token: Option<u128>,
    ) -> (r: ConnectionIdentifiers)
        requires
            destination_conn_id_limit * 3 <= u64::MAX,
        ensures
            r.wf(),
            r@ == new_ids(destination_conn_id_limit, initial_scid@, initial_path_id, reset_token),
    {
        // It must be at least 2.
        let limit: usize = if destination_conn_id_limit < 2 {
            2
        } else {
            destination_conn_id_limit
        };
        // Initially, the limit of active source connection IDs is 2.
        let source_conn_id_limit: usize = 2;
        // We need to track up to (2 * source_conn_id_limit - 1) source
        // Connection IDs when the host wants to force their renewal.
        let scids = BoundedNonEmptyConnectionIdVecDeque::new(
            2 * source_conn_id_limit - 1,
            ConnectionIdEntry {
                cid: initial_scid.clone(),
                seq: 0,
                reset_token,
                path_id: Some(initial_path_id),
            },
        );
        let dcids = BoundedNonEmptyConnectionIdVecDeque::new(
            limit,
            ConnectionIdEntry {
                cid: ConnectionId::default(),
                seq: 0,
                reset_token: None,
                path_id: Some(initial_path_id),
            },
        );
        // Guard against overflow.
        let value: u64 = limit as u64 * RETIRED_CONN_ID_LIMIT_MULTIPLIER;
        let size: usize = if value > usize::MAX as u64 {
            usize::MAX
        } else {
            value as usize
        };
        let r = ConnectionIdentifiers {
            dcids,
            scids,
            advertise_new_scid_seqs: VecDeque::new(),
            retire_dcid_seqs: BoundedSeqSet::new(size),
            retired_scids: VecDeque::new(),
            largest_peer_retire_prior_to: 0,
            largest_destination_seq: 0,
            // Because we already inserted the initial SCID.
            next_scid_seq: 1,
            retire_prior_to: 0,
            source_conn_id_limit,
            zero_length_scid: initial_scid.is_empty(),
            zero_length_dcid: false,
            mp_pools: BTreeMap::new(),
            mp_advertise_new_scid_seqs: VecDeque::new(),
            mp_retire_dcid_seqs: BoundedSeqSet::new(size),
        };
        proof {
            let m = new_ids(
                destination_conn_id_limit,
                initial_scid@,
                initial_path_id,
                reset_token,
            );
            assert(r@.dcids.entries =~= m.dcids.entries);
            assert(r@.pools =~= m.pools);
            assert(r@.retired_scids =~= m.retired_scids);
            assert(r@.retire_capacity == m.retire_capacity);
            assert(r@ == m);
            lemma_new_ids_valid(
                destination_conn_id_limit,
                initial_scid@,
                initial_path_id,
                reset_token,
            );
        }
        r
    }

    /// Adds a new source identifier, and indicates whether it should be
    /// advertised through a `NEW_CONNECTION_ID` frame or not.
    ///
    /// At any time, the peer cannot have more Destination Connection IDs than
    /// the maximum number of active Connection IDs it negotiated. In such case,
    /// if the caller agrees to request the removal of previous connection IDs,
    /// it sets the `retire_if_needed` parameter. Otherwise, an `IdLimit` is
    /// returned.
    ///
    /// Note that setting `retire_if_needed` does not prevent this function from
    /// returning an `IdLimit` in the case the caller wants to retire still
    /// unannounced Connection IDs.
    ///
    /// When setting the initial Source Connection ID, the `reset_token` may be
    /// `None`. However, other Source CIDs must have an associated
    /// `reset_token`. Providing `None` as the `reset_token` for non-initial
    /// SCIDs raises an `InvalidState`.
    ///
    /// In the case the provided `cid` is already present, it does not add it.
    /// If the provided `reset_token` differs from the one already registered,
    /// returns an `InvalidState`.
    ///
    /// Returns the sequence number associated to that new source identifier.
    pub fn new_scid(
        &mut self,
        cid: ConnectionId,
        reset_token: Option<u128>,
        advertise: bool,
        path_id: Option<usize>,
        retire_if_needed: bool,
    ) -> (r: Result<u64, Error>)
        requires
            old(self).wf(),
            old(self)@.next_scid_seq < u64::MAX,
        ensures
            final(self).wf(),
            (final(self)@, r) == add_scid(
                old(self)@,
                cid@,
                reset_token,
                advertise,
                path_id,
                retire_if_needed,
            ),
    {
        let ghost s = self@;
        proof {
            lemma_add_scid_valid(s, cid@, reset_token, advertise, path_id, retire_if_needed);
        }
        if self.zero_length_scid {
            return Err(Error::InvalidState);
        }
        // If the host agrees to retire old CIDs, it can store up to
        // (2 * source_active_conn_id - 1) source CIDs. This limit is enforced
        // when inserting.
        if self.scids.len() >= self.source_conn_id_limit {
            if !retire_if_needed {
                return Err(Error::IdLimit);
            }
            // We need to retire the lowest one.
            match self.scids.lowest_from(self.retire_prior_to) {
                Some(m) => {
                    proof {
                        self.lemma_lowest_bounded(m);
                    }
                    self.retire_prior_to = m + 1;
                },
                None => {
                    return Err(Error::InvalidState);
                },
            }
        }
        let seq: u64 = self.next_scid_seq;
        if reset_token.is_none() && seq != 0 {
            return Err(Error::InvalidState);
        }
        // Check first that the SCID has not been inserted before.
        if let Some(e) = self.scids.find_cid(&cid) {
            if e.reset_token != reset_token {
                return Err(Error::InvalidState);
            }
            return Ok(e.seq);
        }
        proof {
            lemma_in_use_same(s, self@, cid@);
        }
        // CID bytes must be globally unique across all paths and both
        // directions.
        if self.mp_cid_in_use(&cid) {
            return Err(Error::InvalidState);
        }
        proof {
            if has_seq(self.scids@.entries, seq) {
                let k = index_of_seq(self.scids@.entries, seq);
                assert(self.scids@.entries[k].seq < s.next_scid_seq);
            }
        }
        if let Err(e) = self.scids.insert(ConnectionIdEntry { cid, seq, reset_token, path_id }) {
            return Err(e);
        }
        self.next_scid_seq += 1;
        mark(&mut self.advertise_new_scid_seqs, seq, advertise);
        Ok(seq)
    }

    /// A lowest sequence number of the source CIDs has been issued.
    proof fn lemma_lowest_bounded(&self, m: u64)
        requires
            self@.valid(),
            self@.lowest_usable_scid() == Some(m),
        ensures
            m < self@.next_scid_seq,
    {
        let p = |e: EntryView| e.seq >= self@.retire_prior_to;
        let es = self@.scids.entries;
        crate::cid::entries::lemma_lowest_seq_exists(es, p);
        let i = choose|i: int| 0 <= i < es.len() && p(#[trigger] es[i]) && es[i].seq == m;
        assert(es[i].seq < self@.next_scid_seq);
    }

    /// Returns whether the provided CID bytes are already used by any
    /// connection ID known to this connection, on any path and on either the
    /// source or destination side.
    ///
    /// Connection ID values must be unique across the whole connection,
    /// whatever the path ID.
    fn mp_cid_in_use(&self, cid: &ConnectionId) -> (r: bool)
        requires
            self@.pools.dom().finite(),
            !self@.pools.contains_key(0),
        ensures
            r == self@.cid_in_use(cid@),
    {
        if self.scids.contains_cid(cid) || self.dcids.contains_cid(cid) {
            proof {
                lemma_in_use(self@, 0, cid@);
            }
            return true;
        }
        let ghost m = self.mp_pools@;
        for kp in it: self.mp_pools.iter()
            invariant
                m == self.mp_pools@,
                !self@.pools.contains_key(0),
                forall|i: int|
                    0 <= i < it.index() ==> !has_cid((#[trigger] it.seq()[i].1).scids@.entries, cid@)
                        && !has_cid(it.seq()[i].1.dcids@.entries, cid@),
                forall|i: int|
                    0 <= i < it.seq().len() ==> m.contains_key(*(#[trigger] it.seq()[i]).0)
                        && m[*it.seq()[i].0] == *it.seq()[i].1,
                forall|k: u64| #[trigger] m.contains_key(k) ==> it.seq().contains((&k, &m[k])),
        {
            let ghost k = *kp.0;
            let p: &PathCidPool = kp.1;
            if p.scids.contains_cid(cid) || p.dcids.contains_cid(cid) {
                proof {
                    assert(m.contains_key(k) && m[k] == *p);
                    assert(pool_models(m).contains_key(k));
                    lemma_in_use(self@, k, cid@);
                }
                return true;
            }
        }
        proof {
            assert forall|p: u64|
                !has_cid(#[trigger] self@.scids_of(p), cid@) && !has_cid(self@.dcids_of(p), cid@) by {
                if p != 0 && self@.pools.contains_key(p) {
                    assert(m.contains_key(p));
                }
            }
        }
        false
    }

    /// Sets the initial destination identifier.
    pub fn set_initial_dcid(
        &mut self,
        cid: ConnectionId,
        reset_token: Option<u128>,
        path_id: Option<usize>,
    )
        requires
            old(self).wf(),
        ensures
            final(self).wf(),
            final(self)@ == (IdsView {
                zero_length_dcid: cid@.len() == 0,
                dcids: QueueView {
                    entries: seq![EntryView { cid: cid@, seq: 0, reset_token, path_id }],
                    ..old(self)@.dcids
                },
                ..old(self)@
            }),
    {
        let ghost s = self@;
        // Record the zero-length DCID status.
        self.zero_length_dcid = cid.is_empty();
        self.dcids.clear_and_insert(ConnectionIdEntry { cid, seq: 0, reset_token, path_id });
        proof {
            lemma_same_scids(s, self@);
        }
    }

    /// Adds a new Destination Connection ID (originating from a
    /// NEW_CONNECTION_ID frame) and process all its related metadata.
    ///
    /// Returns an error if the provided Connection ID or its metadata are
    /// invalid.
    ///
    /// The sequence numbers of retired DCIDs that were linked to a path are
    /// appended to `retired_path_ids`, each with its path.
    pub fn new_dcid(
        &mut self,
        cid: ConnectionId,
        seq: u64,
        reset_token: u128,
        retire_prior_to: u64,
        retired_path_ids: &mut RetiredPathIds,
    ) -> (r: Result<(), Error>)
        requires
            old(self).wf(),
        ensures
            final(self).wf(),
            ({
                let (t, pairs, res) = add_dcid(
                    old(self)@,
                    cid@,
                    seq,
                    reset_token,
                    retire_prior_to,
                );
                &&& final(self)@ == t
                &&& final(retired_path_ids)@ == old(retired_path_ids)@ + pairs
                &&& r == res
            }),
    {
        let ghost s = self@;
        let ghost a = announce(s.dcid_space(), 0, cid@, seq, reset_token, retire_prior_to);
        proof {
            lemma_add_dcid_valid(s, cid@, seq, reset_token, retire_prior_to);
        }
        if self.zero_length_dcid {
            assert(retired_path_ids@ =~= old(retired_path_ids)@ + Seq::empty());
            return Err(Error::InvalidState);
        }
        let (reported, res) = announce_dcid(
            &mut self.dcids,
            &mut self.largest_peer_retire_prior_to,
            &mut self.largest_destination_seq,
            &mut self.retire_dcid_seqs,
            0,
            cid,
            seq,
            reset_token,
            retire_prior_to,
        );
        proof {
            assert(space_of(
                self.dcids@,
                self.largest_peer_retire_prior_to,
                self.largest_destination_seq,
                self.retire_dcid_seqs,
            ) == a.space);
            assert(self@ == s.with_dcid_space(a.space));
            assert(a.reported.take(0) =~= Seq::empty());
            lemma_linked_pairs_empty();
            assert(retired_path_ids@ =~= old(retired_path_ids)@ + linked_pairs(a.reported.take(0)));
        }
        let mut i: usize = 0;
        while i < reported.len()
            invariant
                i <= reported@.len(),
                reported@ == seq_and_path(a.reported),
                retired_path_ids@ == old(retired_path_ids)@ + linked_pairs(
                    a.reported.take(i as int),
                ),
            decreases reported@.len() - i,
        {
            let (q, p) = reported[i];
            proof {
                lemma_linked_pairs_step(a.reported, i as int);
            }
            if let Some(pid) = p {
                retired_path_ids.push((q, pid));
            }
            assert(retired_path_ids@ =~= old(retired_path_ids)@ + linked_pairs(
                a.reported.take(i + 1),
            ));
            i += 1;
        }
        assert(a.reported.take(i as int) =~= a.reported);
        res
    }

    /// Retires the Source Connection ID having the provided sequence number.
    ///
    /// In case the retired Connection ID is the same as the one used by the
    /// packet requesting the retiring, or if the retired sequence number is
    /// greater than any previously advertised sequence numbers, it returns an
    /// `InvalidState`.
    ///
    /// Returns the path ID that was associated to the retired CID, if any.
    pub fn retire_scid(&mut self, seq: u64, pkt_dcid: &ConnectionId) -> (r: Result<
        Option<usize>,
        Error,
    >)
        requires
            old(self).wf(),
        ensures
            final(self).wf(),
            (final(self)@, r) == drop_scid(old(self)@, seq, pkt_dcid@),
    {
        let ghost s = self@;
        proof {
            lemma_drop_scid_valid(s, seq, pkt_dcid@);
        }
        if seq >= self.next_scid_seq {
            return Err(Error::InvalidState);
        }
        let removed = match self.scids.remove(seq) {
            Ok(e) => e,
            Err(e) => {
                return Err(e);
            },
        };
        match removed {
            Some(e) => {
                if e.cid == *pkt_dcid {
                    return Err(Error::InvalidState);
                }
                let ghost before = self.retired_scids@;
                // Notifies the application.
                self.retired_scids.push_back(e.cid);
                assert(self@.retired_scids =~= s.retired_scids.push(e.cid@));
                // Retiring this SCID may increase the retire prior to.
                match self.scids.lowest_from(self.retire_prior_to) {
                    Some(m) => {
                        self.retire_prior_to = m;
                    },
                    None => {
                        return Err(Error::InvalidState);
                    },
                }
                Ok(e.path_id)
            },
            None => Ok(None),
        }
    }

    /// Retires the Destination Connection ID having the provided sequence
    /// number.
    ///
    /// If the caller tries to retire the last destination Connection ID, this
    /// method triggers an `OutOfIdentifiers`.
    ///
    /// If the caller tries to retire a non-existing Destination Connection ID
    /// sequence number, this method returns an `InvalidState`.
    ///
    /// Returns the path ID that was associated to the retired CID, if any.
    pub fn retire_dcid(&mut self, seq: u64) -> (r: Result<Option<usize>, Error>)
        requires
            old(self).wf(),
        ensures
            final(self).wf(),
            (final(self)@, r) == drop_dcid(old(self)@, seq),
    {
        let ghost s = self@;
        proof {
            lemma_drop_dcid_valid(s, seq);
        }
        if self.zero_length_dcid {
            return Err(Error::InvalidState);
        }
        let e = match self.dcids.remove(seq) {
            Ok(Some(e)) => e,
            Ok(None) => {
                return Err(Error::InvalidState);
            },
            Err(e) => {
                return Err(e);
            },
        };
        match self.retire_dcid_seqs.insert(seq) {
            Ok(_) => Ok(e.path_id),
            Err(err) => Err(err),
        }
    }
}

impl ConnectionIdentifiers {
    /// Sets the maximum number of source connection IDs our peer allows us.
    pub fn set_source_conn_id_limit(&mut self, v: u64)
        requires
            old(self).wf(),
        ensures
            final(self).wf(),
            final(self)@ == with_source_limit(old(self)@, v),
    {
        proof {
            lemma_with_source_limit_valid(self@, v);
        }
        // Bound conn id limit so our scids queue sizing is valid.
        let most: usize = usize::MAX / 2;
        let limit: usize = if v > most as u64 {
            most
        } else {
            v as usize
        };
        // It must be at least 2.
        if limit >= 2 {
            self.source_conn_id_limit = limit;
            // We need to track up to (2 * source_conn_id_limit - 1) source
            // Connection IDs when the host wants to force their renewal.
            self.scids.resize(2 * limit - 1);
        }
    }

    /// Gets the destination Connection ID associated with the provided sequence
    /// number.
    pub fn get_dcid(&self, seq_num: u64) -> (r: Result<&ConnectionIdEntry, Error>)
        requires
            self.wf(),
        ensures
            match r {
                Ok(e) => entry_with_seq(self@.dcids.entries, seq_num) == Some(e@),
                Err(e) => e == Error::InvalidState && !has_seq(self@.dcids.entries, seq_num),
            },
    {
        match self.dcids.get(seq_num) {
            Some(e) => Ok(e),
            None => Err(Error::InvalidState),
        }
    }

    /// Gets the source Connection ID associated with the provided sequence
    /// number.
    pub fn get_scid(&self, seq_num: u64) -> (r: Result<&ConnectionIdEntry, Error>)
        requires
            self.wf(),
        ensures
            match r {
                Ok(e) => entry_with_seq(self@.scids.entries, seq_num) == Some(e@),
                Err(e) => e == Error::InvalidState && !has_seq(self@.scids.entries, seq_num),
            },
    {
        match self.scids.get(seq_num) {
            Some(e) => Ok(e),
            None => Err(Error::InvalidState),
        }
    }

    /// Returns the source connection IDs of path 0, from the oldest one on.
    pub fn scids_iter(&self) -> (r: Vec<ConnectionId>)
        ensures
            r@.map_values(|c: ConnectionId| c@) == self@.scids.entries.map_values(
                |e: EntryView| e.cid,
            ),
    {
        self.scids.cids()
    }

    /// Updates the Source Connection ID entry with the provided sequence number
    /// to indicate that it is now linked to the provided path ID.
    pub fn link_scid_to_path_id(&mut self, dcid_seq: u64, path_id: usize) -> (r: Result<(), Error>)
        requires
            old(self).wf(),
        ensures
            final(self).wf(),
            (final(self)@, r) == link_scid(old(self)@, dcid_seq, path_id),
    {
        proof {
            lemma_link_scid_valid(self@, dcid_seq, path_id);
        }
        if self.scids.link(dcid_seq, path_id) {
            Ok(())
        } else {
            Err(Error::InvalidState)
        }
    }

    /// Updates the Destination Connection ID entry with the provided sequence
    /// number to indicate that it is now linked to the provided path ID.
    pub fn link_dcid_to_path_id(&mut self, dcid_seq: u64, path_id: usize) -> (r: Result<(), Error>)
        requires
            old(self).wf(),
        ensures
            final(self).wf(),
            (final(self)@, r) == link_dcid(old(self)@, 0, dcid_seq, path_id),
    {
        proof {
            lemma_link_dcid_valid(self@, 0, dcid_seq, path_id);
        }
        if self.dcids.link(dcid_seq, path_id) {
            Ok(())
        } else {
            Err(Error::InvalidState)
        }
    }

    /// Gets the minimum Source Connection ID sequence number whose removal has
    /// not been requested yet.
    pub fn lowest_usable_scid_seq(&self) -> (r: Result<u64, Error>)
        ensures
            r == match self@.lowest_usable_scid() {
                Some(m) => Ok::<u64, Error>(m),
                None => Err::<u64, Error>(Error::InvalidState),
            },
    {
        match self.scids.lowest_from(self.retire_prior_to) {
            Some(m) => Ok(m),
            None => Err(Error::InvalidState),
        }
    }

    /// Gets the lowest Destination Connection ID sequence number that is not
    /// associated to a path.
    pub fn lowest_available_dcid_seq(&self) -> (r: Option<u64>)
        ensures
            r == lowest_seq(self@.dcids.entries, unlinked()),
    {
        self.dcids.lowest_unlinked()
    }

    /// Finds the sequence number of the Source Connection ID having the provided
    /// value and the identifier of the path using it, if any.
    pub fn find_scid_seq(&self, scid: &ConnectionId) -> (r: Option<(u64, Option<usize>)>)
        requires
            self.wf(),
        ensures
            r == match entry_with_cid(self@.scids.entries, scid@) {
                Some(e) => Some((e.seq, e.path_id)),
                None => None,
            },
    {
        match self.scids.find_cid(scid) {
            Some(e) => Some((e.seq, e.path_id)),
            None => None,
        }
    }

    /// Returns the number of Source Connection IDs that have not been assigned
    /// to a path yet.
    ///
    /// Note that this function is only meaningful if the host uses non-zero
    /// length Source Connection IDs.
    pub fn available_scids(&self) -> (r: usize)
        ensures
            r == self@.scids.entries.filter(unlinked()).len(),
    {
        self.scids.count_unlinked()
    }

    /// Returns the number of Destination Connection IDs that have not been
    /// assigned to a path yet.
    ///
    /// Note that this function returns 0 if the host uses zero length
    /// Destination Connection IDs.
    pub fn available_dcids(&self) -> (r: usize)
        ensures
            r == if self@.zero_length_dcid {
                0
            } else {
                self@.dcids.entries.filter(unlinked()).len()
            },
    {
        if self.zero_length_dcid {
            return 0;
        }
        self.dcids.count_unlinked()
    }

    /// Returns the oldest active source Connection ID of this connection.
    pub fn oldest_scid(&self) -> (r: &ConnectionIdEntry)
        requires
            self.wf(),
        ensures
            r@ == self@.scids.entries[0],
    {
        self.scids.get_oldest()
    }

    /// Returns the oldest known active destination Connection ID of this
    /// connection.
    ///
    /// Note that due to e.g., reordering at reception side, the oldest known
    /// active destination Connection ID is not necessarily the one having the
    /// lowest sequence.
    pub fn oldest_dcid(&self) -> (r: &ConnectionIdEntry)
        requires
            self.wf(),
        ensures
            r@ == self@.dcids.entries[0],
    {
        self.dcids.get_oldest()
    }

    /// Adds or remove the source Connection ID sequence number from the source
    /// Connection ID set that need to be advertised to the peer through
    /// NEW_CONNECTION_ID frames.
    pub fn mark_advertise_new_scid_seq(&mut self, scid_seq: u64, advertise: bool)
        requires
            old(self).wf(),
        ensures
            final(self).wf(),
            final(self)@ == (IdsView {
                advertise: marked(old(self)@.advertise, scid_seq, advertise),
                ..old(self)@
            }),
    {
        let ghost s = self@;
        mark(&mut self.advertise_new_scid_seqs, scid_seq, advertise);
        proof {
            lemma_same_scids(s, self@);
        }
    }

    /// Adds or remove the destination Connection ID sequence number from the
    /// retired destination Connection ID set that need to be advertised to the
    /// peer through RETIRE_CONNECTION_ID frames.
    pub fn mark_retire_dcid_seq(&mut self, dcid_seq: u64, retire: bool) -> (r: Result<(), Error>)
        requires
            old(self).wf(),
        ensures
            final(self).wf(),
            ({
                let (held, res) = mark_retired(
                    old(self)@.retire,
                    old(self)@.retire_capacity,
                    dcid_seq,
                    retire,
                );
                final(self)@ == (IdsView { retire: held, ..old(self)@ }) && r == res
            }),
    {
        let ghost s = self@;
        let res = if retire {
            match self.retire_dcid_seqs.insert(dcid_seq) {
                Ok(_) => Ok(()),
                Err(e) => Err(e),
            }
        } else {
            self.retire_dcid_seqs.remove(&dcid_seq);
            Ok(())
        };
        proof {
            self.retire_dcid_seqs.lemma_bounded();
            lemma_same_scids(s, self@);
        }
        res
    }

    /// Gets a source Connection ID's sequence number requiring advertising it to
    /// the peer through NEW_CONNECTION_ID frame, if any.
    ///
    /// If `Some`, it always returns the same value until it has been removed
    /// using `mark_advertise_new_scid_seq`.
    pub fn next_advertise_new_scid_seq(&self) -> (r: Option<u64>)
        ensures
            r == if self@.advertise.len() > 0 {
                Some(self@.advertise[0])
            } else {
                None
            },
    {
        if self.advertise_new_scid_seqs.len() > 0 {
            Some(self.advertise_new_scid_seqs[0])
        } else {
            None
        }
    }

    /// Returns a copy of the set of destination Connection IDs's sequence
    /// numbers to send RETIRE_CONNECTION_ID frames.
    ///
    /// Note that the set includes sequence numbers at the time the copy was
    /// created. To account for newly inserted or removed sequence numbers, a new
    /// copy needs to be created.
    pub fn retire_dcid_seqs(&self) -> (r: HashSet<u64>)
        requires
            self.wf(),
        ensures
            r@ == self@.retire,
    {
        broadcast use vstd::std_specs::hash::group_hash_axioms;

        let elements = self.retire_dcid_seqs.elements();
        let mut r: HashSet<u64> = HashSet::new();
        let mut i: usize = 0;
        assert(r@ =~= elements@.take(0).to_set());
        while i < elements.len()
            invariant
                i <= elements@.len(),
                r@ == elements@.take(i as int).to_set(),
            decreases elements@.len() - i,
        {
            proof {
                let t = elements@.take(i as int);
                assert(elements@.take(i + 1) =~= t.push(elements@[i as int]));
                t.lemma_push_to_set_commute(elements@[i as int]);
            }
            r.insert(elements[i]);
            i += 1;
        }
        assert(elements@.take(i as int) =~= elements@);
        r
    }

    /// Returns the sequence numbers of [`Self::retire_dcid_seqs`], each of them
    /// once and in no particular order.
    pub fn retire_dcid_seq_list(&self) -> (r: Vec<u64>)
        requires
            self.wf(),
        ensures
            r@.no_duplicates(),
            r@.to_set() == self@.retire,
    {
        self.retire_dcid_seqs.elements()
    }

    /// Returns true if there are new source Connection IDs to advertise.
    pub fn has_new_scids(&self) -> (r: bool)
        ensures
            r == (self@.advertise.len() > 0),
    {
        self.advertise_new_scid_seqs.len() > 0
    }

    /// Returns true if there are retired destination Connection IDs to
    /// advertise.
    pub fn has_retire_dcids(&self) -> (r: bool)
        ensures
            r == (self@.retire != Set::<u64>::empty()),
    {
        !self.retire_dcid_seqs.is_empty()
    }

    /// Returns whether zero-length source CIDs are used.
    pub fn zero_length_scid(&self) -> (r: bool)
        ensures
            r == self@.zero_length_scid,
    {
        self.zero_length_scid
    }

    /// Returns whether zero-length destination CIDs are used.
    pub fn zero_length_dcid(&self) -> (r: bool)
        ensures
            r == self@.zero_length_dcid,
    {
        self.zero_length_dcid
    }

    /// Gets the NEW_CONNECTION_ID frame related to the source connection ID with
    /// sequence `seq_num`.
    pub fn get_new_connection_id_frame_for(&self, seq_num: u64) -> (r: Result<Frame, Error>)
        requires
            self.wf(),
        ensures
            match entry_with_seq(self@.scids.entries, seq_num) {
                Some(EntryView { cid, reset_token: Some(token), .. }) => r matches Ok(
                    Frame::NewConnectionId {
                        seq_num: n,
                        retire_prior_to,
                        conn_id,
                        reset_token: bytes,
                    },
                ) && n == seq_num && retire_prior_to == self@.retire_prior_to && conn_id@ == cid
                    && bytes@ == be_bytes(token as nat, 16),
                _ => r matches Err(e) && e == Error::InvalidState,
            },
    {
        match self.scids.get(seq_num) {
            Some(e) => match e.reset_token {
                Some(token) => Ok(
                    Frame::NewConnectionId {
                        seq_num,
                        retire_prior_to: self.retire_prior_to,
                        conn_id: e.cid.to_vec(),
                        reset_token: u128_to_be(token),
                    },
                ),
                None => Err(Error::InvalidState),
            },
            None => Err(Error::InvalidState),
        }
    }

    /// Returns the number of source Connection IDs that are active. This is only
    /// meaningful if the host uses non-zero length Source Connection IDs.
    pub fn active_source_cids(&self) -> (r: usize)
        ensures
            r == self@.scids.entries.len(),
    {
        self.scids.len()
    }

    /// Returns the number of destination Connection IDs of path 0.
    pub fn active_destination_cids(&self) -> (r: usize)
        ensures
            r == self@.dcids.entries.len(),
    {
        self.dcids.len()
    }

    /// Returns the number of source Connection IDs that are retired. This is
    /// only meaningful if the host uses non-zero length Source Connection IDs.
    pub fn retired_source_cids(&self) -> (r: usize)
        ensures
            r == self@.retired_scids.len(),
    {
        self.retired_scids.len()
    }

    /// Hands out the oldest retired source Connection ID that the application
    /// does not know of yet.
    pub fn pop_retired_scid(&mut self) -> (r: Option<ConnectionId>)
        requires
            old(self).wf(),
        ensures
            final(self).wf(),
            match r {
                Some(c) => {
                    &&& old(self)@.retired_scids.len() > 0
                    &&& c@ == old(self)@.retired_scids[0]
                    &&& final(self)@ == (IdsView {
                        retired_scids: old(self)@.retired_scids.skip(1),
                        ..old(self)@
                    })
                },
                None => old(self)@.retired_scids.len() == 0 && final(self)@ == old(self)@,
            },
    {
        let ghost s = self@;
        let r = self.retired_scids.pop_front();
        proof {
            assert(self@.retired_scids =~= if r is Some {
                s.retired_scids.skip(1)
            } else {
                s.retired_scids
            });
            lemma_same_scids(s, self@);
        }
        r
    }
}

} // verus!
