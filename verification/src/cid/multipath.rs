//! Connection IDs of the non-zero paths.

use crate::cid::{
    lemma_increasing, lemma_pool_insert, ConnectionIdentifiers, PathCidPool,
    RETIRED_CONN_ID_LIMIT_MULTIPLIER,
};
use crate::cid::entries::{
    entry_with_cid, entry_with_seq, has_cid, has_seq, index_of_seq, lowest_seq, unlinked,
    ConnectionIdEntry, EntryView,
};
use crate::cid::model::{
    add_dcid, announce, drop_dcid_pool, drop_path_pools, empty_pool, link_dcid, legacy_triples,
    mark_retired, marked, mp_add_dcid, mp_add_scid, mp_drop_dcid, mp_drop_scid, path_triples,
    with_dcid_room, IdsView,
};
use crate::cid::queue::{mark, retain_other_paths};
use crate::cid::retired::RetiredPathIds;
use crate::cid::space::{announce_dcid, seq_and_path};
use crate::cid::validity::{
    lemma_drop_dcid_pool_valid, lemma_drop_path_pools_valid, lemma_link_dcid_valid,
    lemma_same_scids, lemma_mp_add_dcid_valid, lemma_mp_add_scid_valid, lemma_mp_drop_dcid_valid,
    lemma_mp_drop_scid_valid, lemma_with_pool_for_valid, lemma_with_pool_valid,
};
use crate::error::Error;
use crate::frame::Frame;
use crate::packet::ConnectionId;
use vstd::prelude::*;

verus! {

/// Per-Path ID connection ID pool management.
///
/// All methods taking a `path_id` treat Path ID 0 as the initial path and
/// delegate to the single-space methods, so that legacy
/// NEW_CONNECTION_ID/RETIRE_CONNECTION_ID frames and PATH_* frames carrying
/// Path ID 0 are equivalent.
impl ConnectionIdentifiers {
    /// Ensures that a connection ID pool exists for the provided non-zero path
    /// ID, creating an empty one if needed.
    ///
    /// Whenever a new pool is created, the capacity of the pending
    /// PATH_RETIRE_CONNECTION_ID set is grown to `(1 + number of pools) *
    /// destination_conn_id_limit * RETIRED_CONN_ID_LIMIT_MULTIPLIER`, so that a
    /// legitimate retirement wave spanning several paths cannot spuriously
    /// exhaust a single path's budget and close the connection with an
    /// `IdLimit`.
    fn mp_ensure_pool(&mut self, path_id: u64)
        requires
            old(self).wf(),
            path_id != 0,
        ensures
            final(self).wf(),
            final(self)@ == old(self)@.with_pool_for(path_id),
    {
        let ghost s = self@;
        proof {
            lemma_with_pool_for_valid(s, path_id);
            lemma_pool_insert(self.mp_pools@, path_id, arbitrary());
        }
        if self.mp_pools.contains_key(&path_id) {
            return;
        }
        let pool = PathCidPool::empty();
        proof {
            lemma_pool_insert(self.mp_pools@, path_id, pool);
        }
        self.mp_pools.insert(path_id, pool);
        proof {
            lemma_pool_insert(self.mp_pools@, path_id, pool);
            assert(self@.pools == s.pools.insert(path_id, empty_pool()));
        }
        // Guard against overflow, like in `new()`. The capacity of the DCIDs is
        // the destination connection ID limit.
        let paths: u64 = (self.mp_pools.len() as u64).saturating_add(1);
        let limit: u64 = self.dcids.capacity() as u64;
        let value: u64 = match paths.checked_mul(limit) {
            Some(v) => match v.checked_mul(RETIRED_CONN_ID_LIMIT_MULTIPLIER) {
                Some(w) => w,
                None => u64::MAX,
            },
            None => u64::MAX,
        };
        let size: usize = if value > usize::MAX as u64 {
            usize::MAX
        } else {
            value as usize
        };
        proof {
            let n = self.mp_pools@.len();
            let wanted = (1 + n) * self.dcids@.capacity * 3;
            assert(self@.pools.dom().len() == n);
            assert(value == if wanted > u64::MAX {
                u64::MAX as int
            } else {
                wanted as int
            }) by {
                if n + 1 > u64::MAX {
                    assert((1 + n) * self.dcids@.capacity >= 2 * (1 + n)) by (nonlinear_arith)
                        requires
                            self.dcids@.capacity >= 2,
                    ;
                    assert(paths * limit >= 2 * paths) by (nonlinear_arith)
                        requires
                            limit >= 2,
                    ;
                }
            }
        }
        self.mp_retire_dcid_seqs.set_capacity(size);
    }

    /// Adds a new source identifier for the provided path ID and queues its
    /// advertisement through a PATH_NEW_CONNECTION_ID frame. For path ID 0, the
    /// advertisement is instead queued through the legacy NEW_CONNECTION_ID
    /// queue, as legacy frames are the ones carrying path-0 CIDs.
    ///
    /// The sequence number spaces are per path and start at 0. The number of
    /// active source CIDs is limited per path by the maximum number of source
    /// Connection IDs our peer allows us; exceeding it raises an `IdLimit`.
    ///
    /// Providing a CID whose bytes are already used anywhere on the connection
    /// raises an `InvalidState`.
    ///
    /// Returns the sequence number associated to that new source identifier in
    /// the path's sequence number space.
    pub fn mp_new_scid(&mut self, path_id: u64, cid: ConnectionId, reset_token: u128) -> (r: Result<
        u64,
        Error,
    >)
        requires
            old(self).wf(),
            path_id == 0 ==> old(self)@.next_scid_seq < u64::MAX,
            path_id != 0 && old(self)@.pools.contains_key(path_id) ==>
                old(self)@.pools[path_id].next_scid_seq < u64::MAX,
        ensures
            final(self).wf(),
            (final(self)@, r) == mp_add_scid(old(self)@, path_id, cid@, reset_token),
    {
        let ghost s = self@;
        proof {
            lemma_mp_add_scid_valid(s, path_id, cid@, reset_token);
        }
        if path_id == 0 {
            return self.new_scid(cid, Some(reset_token), true, None, false);
        }
        if self.zero_length_scid {
            return Err(Error::InvalidState);
        }
        // CID bytes must be unique across all paths and both directions.
        if self.mp_cid_in_use(&cid) {
            return Err(Error::InvalidState);
        }
        let limit: usize = self.source_conn_id_limit;
        self.mp_ensure_pool(path_id);
        let ghost t = self@;
        let ghost m = self.mp_pools@;
        proof {
            lemma_with_pool_for_valid(s, path_id);
            lemma_pool_insert(m, path_id, arbitrary());
            assert(m.contains_key(path_id));
        }
        if let Some(mut pool) = self.mp_pools.remove(&path_id) {
            assert(pool.model() == t.pools[path_id]);
            // The active connection ID limit applies per path.
            if pool.scids.len() >= limit {
                proof {
                    lemma_pool_insert(m, path_id, pool);
                    assert(t.pools.insert(path_id, pool.model()) =~= t.pools);
                }
                self.mp_pools.insert(path_id, pool);
                assert(self@ == t);
                return Err(Error::IdLimit);
            }
            pool.scids.resize(limit);
            let seq: u64 = pool.next_scid_seq;
            proof {
                let es = pool.scids@.entries;
                if has_seq(es, seq) {
                    let k = index_of_seq(es, seq);
                    assert(es[k].seq < pool.next_scid_seq);
                }
            }
            let res = pool.scids.insert(
                ConnectionIdEntry { cid, seq, reset_token: Some(reset_token), path_id: None },
            );
            assert(res is Ok);
            pool.next_scid_seq += 1;
            proof {
                lemma_pool_insert(m, path_id, pool);
            }
            self.mp_pools.insert(path_id, pool);
            self.mp_advertise_new_scid_seqs.push_back((path_id, seq));
            return Ok(seq);
        }
        Err(Error::InvalidState)
    }

    /// Adds a new Destination Connection ID for the provided path ID
    /// (originating from a PATH_NEW_CONNECTION_ID frame) and processes all its
    /// related metadata.
    ///
    /// Returns an error if the provided Connection ID or its metadata are
    /// invalid.
    ///
    /// DCIDs retired by the Retire Prior To field are appended to `retired` as
    /// `(path ID, sequence number, slab path ID)` triples (the last element
    /// being the 4-tuple path that was using the retired DCID, if any) and
    /// queued for later PATH_RETIRE_CONNECTION_ID emission. The caller must
    /// unlink/re-fund any affected 4-tuple path, even when this method returns
    /// an error: entries may have been retired before the error was detected.
    ///
    /// For path ID 0, this delegates to `new_dcid()`, operating on the very same
    /// sequence number space as legacy NEW_CONNECTION_ID frames. Note an
    /// asymmetry: for path 0 only drained entries that were linked to a 4-tuple
    /// path are reported (always with `Some` slab path ID), while for non-zero
    /// path IDs every drained entry is reported, linked or not.
    pub fn mp_new_dcid(
        &mut self,
        path_id: u64,
        cid: ConnectionId,
        seq: u64,
        reset_token: u128,
        retire_prior_to: u64,
        retired: &mut Vec<(u64, u64, Option<usize>)>,
    ) -> (r: Result<(), Error>)
        requires
            old(self).wf(),
        ensures
            final(self).wf(),
            ({
                let (t, triples, res) = mp_add_dcid(
                    old(self)@,
                    path_id,
                    cid@,
                    seq,
                    reset_token,
                    retire_prior_to,
                );
                &&& final(self)@ == t
                &&& final(retired)@ == old(retired)@ + triples
                &&& r == res
            }),
    {
        let ghost s = self@;
        proof {
            lemma_mp_add_dcid_valid(s, path_id, cid@, seq, reset_token, retire_prior_to);
        }
        if path_id == 0 {
            let mut retired_path_ids = RetiredPathIds::new();
            let res = self.new_dcid(
                cid,
                seq,
                reset_token,
                retire_prior_to,
                &mut retired_path_ids,
            );
            // The call may have retired entries even on error.
            let pairs = retired_path_ids.as_slice();
            let ghost ps = add_dcid(s, cid@, seq, reset_token, retire_prior_to).1;
            assert(pairs@ =~= ps);
            assert(retired@ =~= old(retired)@ + legacy_triples(ps.take(0)));
            let mut i: usize = 0;
            while i < pairs.len()
                invariant
                    i <= pairs@.len(),
                    pairs@ == ps,
                    retired@ == old(retired)@ + legacy_triples(ps.take(i as int)),
                decreases pairs@.len() - i,
            {
                retired.push((0, pairs[i].0, Some(pairs[i].1)));
                assert(legacy_triples(ps.take(i + 1)) =~= legacy_triples(ps.take(i as int)).push(
                    (0, ps[i as int].0, Some(ps[i as int].1)),
                ));
                i += 1;
                assert(retired@ =~= old(retired)@ + legacy_triples(ps.take(i as int)));
            }
            assert(ps.take(i as int) =~= ps);
            return res;
        }
        if self.zero_length_dcid {
            assert(retired@ =~= old(retired)@ + Seq::empty());
            return Err(Error::InvalidState);
        }
        // The active connection ID limit applies per path.
        let dcid_limit: usize = self.dcids.capacity();
        self.mp_ensure_pool(path_id);
        let ghost u = self@;
        let ghost m = self.mp_pools@;
        let ghost t = with_dcid_room(u, path_id);
        let ghost a = announce(
            t.mp_dcid_space(path_id),
            path_id,
            cid@,
            seq,
            reset_token,
            retire_prior_to,
        );
        proof {
            lemma_with_pool_for_valid(s, path_id);
            lemma_with_pool_valid(u, path_id, t.pools[path_id]);
            lemma_pool_insert(m, path_id, arbitrary());
            assert(m.contains_key(path_id));
        }
        if let Some(mut pool) = self.mp_pools.remove(&path_id) {
            assert(pool.model() == u.pools[path_id]);
            pool.dcids.resize(dcid_limit);
            assert(pool.model() == t.pools[path_id]);
            let (reported, res) = announce_dcid(
                &mut pool.dcids,
                &mut pool.largest_peer_retire_prior_to,
                &mut pool.largest_destination_seq,
                &mut self.mp_retire_dcid_seqs,
                path_id,
                cid,
                seq,
                reset_token,
                retire_prior_to,
            );
            proof {
                lemma_pool_insert(m, path_id, pool);
            }
            self.mp_pools.insert(path_id, pool);
            proof {
                let v = t.with_mp_dcid_space(path_id, a.space);
                assert(self@.pools =~= v.pools);
                assert(self@ == v);
                assert(retired@ =~= old(retired)@ + path_triples(path_id, a.reported.take(0)));
            }
            let mut i: usize = 0;
            while i < reported.len()
                invariant
                    i <= reported@.len(),
                    reported@ == seq_and_path(a.reported),
                    retired@ == old(retired)@ + path_triples(path_id, a.reported.take(i as int)),
                decreases reported@.len() - i,
            {
                let (q, p) = reported[i];
                retired.push((path_id, q, p));
                assert(path_triples(path_id, a.reported.take(i + 1)) =~= path_triples(
                    path_id,
                    a.reported.take(i as int),
                ).push((path_id, q, p)));
                i += 1;
                assert(retired@ =~= old(retired)@ + path_triples(
                    path_id,
                    a.reported.take(i as int),
                ));
            }
            assert(a.reported.take(i as int) =~= a.reported);
            return res;
        }
        Err(Error::InvalidState)
    }

    /// Retires the Source Connection ID of the provided path ID having the
    /// provided sequence number, mirroring `retire_scid()` per path.
    ///
    /// In case the retired Connection ID is the same as the one used by the
    /// packet requesting the retiring, or if the retired sequence number is
    /// greater than any previously advertised sequence numbers on that path, it
    /// returns an `InvalidState`.
    ///
    /// Returns the retired Connection ID, if any, so that the caller can tell
    /// whether an actual retirement happened (and of which CID). The
    /// application is notified of the retirement through the retired SCIDs
    /// queue (see `pop_retired_scid()`) in all cases, and can check
    /// `mp_scids_left()` to decide whether to supply a replacement.
    ///
    /// Per-path SCID pools may legally drain to zero when the peer retires our
    /// only SCID for that path.
    pub fn mp_retire_scid(&mut self, path_id: u64, seq: u64, pkt_dcid: &ConnectionId) -> (r: Result<
        Option<ConnectionId>,
        Error,
    >)
        requires
            old(self).wf(),
        ensures
            final(self).wf(),
            ({
                let (t, res) = mp_drop_scid(old(self)@, path_id, seq, pkt_dcid@);
                &&& final(self)@ == t
                &&& match r {
                    Ok(Some(c)) => res == Ok::<Option<Seq<u8>>, Error>(Some(c@)),
                    Ok(None) => res == Ok::<Option<Seq<u8>>, Error>(None),
                    Err(e) => res == Err::<Option<Seq<u8>>, Error>(e),
                }
            }),
    {
        let ghost s = self@;
        proof {
            lemma_mp_drop_scid_valid(s, path_id, seq, pkt_dcid@);
        }
        if path_id == 0 {
            let cid = match self.scids.get(seq) {
                Some(e) => Some(e.cid.clone()),
                None => None,
            };
            match self.retire_scid(seq, pkt_dcid) {
                Ok(_) => {
                    return Ok(cid);
                },
                Err(e) => {
                    return Err(e);
                },
            }
        }
        let ghost m = self.mp_pools@;
        proof {
            lemma_pool_insert(m, path_id, arbitrary());
            assert(s.pools.contains_key(path_id) == m.contains_key(path_id));
        }
        let mut pool = match self.mp_pools.remove(&path_id) {
            Some(pool) => pool,
            None => {
                assert(self.mp_pools@ =~= m);
                return Err(Error::InvalidState);
            },
        };
        assert(pool.model() == s.pools[path_id]);
        let mut res: Result<Option<ConnectionId>, Error> = Ok(None);
        if seq >= pool.next_scid_seq {
            res = Err(Error::InvalidState);
        } else if let Some(e) = pool.scids.remove_allow_empty(seq) {
            if e.cid == *pkt_dcid {
                res = Err(Error::InvalidState);
            } else {
                // Notifies the application.
                self.retired_scids.push_back(e.cid.clone());
                assert(self.retired_scids@.map_values(|c: ConnectionId| c@)
                    =~= s.retired_scids.push(e.cid@));
                // Retiring this SCID may increase the path's retire prior to. If
                // the pool is now empty there is no active CID to anchor the
                // value to, so it is left unchanged.
                if let Some(lowest_scid_seq) = pool.scids.lowest_from(pool.retire_prior_to) {
                    pool.retire_prior_to = lowest_scid_seq;
                }
                res = Ok(Some(e.cid));
            }
        }
        proof {
            lemma_pool_insert(m, path_id, pool);
            let t = mp_drop_scid(s, path_id, seq, pkt_dcid@).0;
            assert(s.pools.insert(path_id, pool.model()) =~= t.pools);
        }
        self.mp_pools.insert(path_id, pool);
        res
    }

    /// Retires the Destination Connection ID of the provided path ID having the
    /// provided sequence number, mirroring `retire_dcid()` per path.
    ///
    /// If the caller tries to retire the last destination Connection ID of the
    /// path, this method triggers an `OutOfIdentifiers`.
    ///
    /// If the caller tries to retire a non-existing Destination Connection ID
    /// sequence number, this method returns an `InvalidState`.
    ///
    /// Returns the (4-tuple) path ID that was associated to the retired CID, if
    /// any.
    pub fn mp_retire_dcid(&mut self, path_id: u64, seq: u64) -> (r: Result<Option<usize>, Error>)
        requires
            old(self).wf(),
        ensures
            final(self).wf(),
            (final(self)@, r) == mp_drop_dcid(old(self)@, path_id, seq),
    {
        let ghost s = self@;
        proof {
            lemma_mp_drop_dcid_valid(s, path_id, seq);
        }
        if path_id == 0 {
            return self.retire_dcid(seq);
        }
        if self.zero_length_dcid {
            return Err(Error::InvalidState);
        }
        let ghost m = self.mp_pools@;
        proof {
            lemma_pool_insert(m, path_id, arbitrary());
            assert(s.pools.contains_key(path_id) == m.contains_key(path_id));
        }
        let mut pool = match self.mp_pools.remove(&path_id) {
            Some(pool) => pool,
            None => {
                assert(self.mp_pools@ =~= m);
                return Err(Error::InvalidState);
            },
        };
        assert(pool.model() == s.pools[path_id]);
        let removed = pool.dcids.remove(seq);
        proof {
            lemma_pool_insert(m, path_id, pool);
            let t = mp_drop_dcid(s, path_id, seq).0;
            assert(s.pools.insert(path_id, pool.model()) =~= t.pools);
        }
        self.mp_pools.insert(path_id, pool);
        let e = match removed {
            Ok(Some(e)) => e,
            Ok(None) => {
                return Err(Error::InvalidState);
            },
            Err(e) => {
                return Err(e);
            },
        };
        match self.mp_retire_dcid_seqs.insert((path_id, seq)) {
            Ok(_) => Ok(e.path_id),
            Err(err) => Err(err),
        }
    }

    /// Treats all the destination Connection IDs the peer issued for the
    /// provided path ID as immediately retired, without queueing
    /// PATH_RETIRE_CONNECTION_ID frames: when a PATH_ABANDON frame is sent or
    /// received for a path, retirement of its connection IDs is implicit and no
    /// explicit retirement frames are exchanged. Any retirement frames
    /// already queued for that path are dropped as well.
    ///
    /// Our own source Connection IDs for the path are intentionally *not*
    /// touched: knowledge of the connection IDs issued to the peer is retained
    /// until the retention window expires, see `mp_remove_path_pools()`.
    ///
    /// The destination CIDs of path ID 0 are never empty; for that reason they
    /// are left in place and only the queued retirements are dropped.
    pub fn mp_retire_dcid_pool(&mut self, path_id: u64)
        requires
            old(self).wf(),
        ensures
            final(self).wf(),
            final(self)@ == drop_dcid_pool(old(self)@, path_id),
    {
        let ghost s = self@;
        proof {
            lemma_drop_dcid_pool_valid(s, path_id);
        }
        if path_id == 0 {
            self.retire_dcid_seqs.clear();
            return;
        }
        let ghost m = self.mp_pools@;
        proof {
            lemma_pool_insert(m, path_id, arbitrary());
            assert(s.pools.contains_key(path_id) == m.contains_key(path_id));
        }
        if let Some(mut pool) = self.mp_pools.remove(&path_id) {
            pool.dcids.clear_allow_empty();
            proof {
                lemma_pool_insert(m, path_id, pool);
            }
            self.mp_pools.insert(path_id, pool);
        } else {
            assert(self.mp_pools@ =~= m);
        }
        self.mp_retire_dcid_seqs.remove_path(path_id);
        proof {
            let t = drop_dcid_pool(s, path_id);
            assert(self@.pools =~= t.pools);
            assert(self@.mp_retire =~= t.mp_retire);
        }
    }

    /// Removes the whole per-path Connection ID pool of the provided path ID,
    /// both directions, together with any pending advertisements for it. Called
    /// when all state associated with an abandoned path is finally deleted, at
    /// the end of the post-abandon retention window.
    ///
    /// The connection IDs of path ID 0 are left in place (see
    /// `mp_retire_dcid_pool()`).
    pub fn mp_remove_path_pools(&mut self, path_id: u64)
        requires
            old(self).wf(),
        ensures
            final(self).wf(),
            final(self)@ == drop_path_pools(old(self)@, path_id),
    {
        let ghost s = self@;
        proof {
            lemma_drop_path_pools_valid(s, path_id);
        }
        if path_id == 0 {
            return;
        }
        proof {
            lemma_pool_insert(self.mp_pools@, path_id, arbitrary());
        }
        let _ = self.mp_pools.remove(&path_id);
        retain_other_paths(&mut self.mp_advertise_new_scid_seqs, path_id);
        self.mp_retire_dcid_seqs.remove_path(path_id);
        proof {
            let t = drop_path_pools(s, path_id);
            assert(self@.pools =~= t.pools);
            assert(self@.mp_retire =~= t.mp_retire);
        }
    }
}

impl ConnectionIdentifiers {
    /// Gets the lowest Destination Connection ID sequence number of the provided
    /// path ID that is not associated to a (4-tuple) path, if any.
    pub fn mp_lowest_available_dcid_seq(&self, path_id: u64) -> (r: Option<u64>)
        ensures
            r == lowest_seq(self@.dcids_of(path_id), unlinked()),
    {
        if path_id == 0 {
            return self.lowest_available_dcid_seq();
        }
        match self.mp_pools.get(&path_id) {
            Some(pool) => pool.dcids.lowest_unlinked(),
            None => None,
        }
    }

    /// Returns the number of Destination Connection IDs of the provided path ID
    /// that have not been assigned to a (4-tuple) path yet.
    pub fn mp_available_dcids(&self, path_id: u64) -> (r: usize)
        ensures
            r == if path_id == 0 && self@.zero_length_dcid {
                0
            } else {
                self@.dcids_of(path_id).filter(unlinked()).len()
            },
    {
        if path_id == 0 {
            return self.available_dcids();
        }
        match self.mp_pools.get(&path_id) {
            Some(pool) => pool.dcids.count_unlinked(),
            None => {
                proof {
                    reveal(Seq::filter);
                }
                0
            },
        }
    }

    /// Gets the destination Connection ID of the provided path ID associated
    /// with the provided sequence number.
    pub fn mp_get_dcid(&self, path_id: u64, seq_num: u64) -> (r: Result<&ConnectionIdEntry, Error>)
        requires
            self.wf(),
        ensures
            match r {
                Ok(e) => entry_with_seq(self@.dcids_of(path_id), seq_num) == Some(e@),
                Err(e) => e == Error::InvalidState && !has_seq(self@.dcids_of(path_id), seq_num),
            },
    {
        if path_id == 0 {
            return self.get_dcid(seq_num);
        }
        match self.mp_pools.get(&path_id) {
            Some(pool) => {
                proof {
                    self.lemma_pool_valid(path_id);
                }
                match pool.dcids.get(seq_num) {
                    Some(e) => Ok(e),
                    None => Err(Error::InvalidState),
                }
            },
            None => Err(Error::InvalidState),
        }
    }

    /// Gets the source Connection ID of the provided path ID associated with the
    /// provided sequence number.
    pub fn mp_get_scid(&self, path_id: u64, seq_num: u64) -> (r: Result<&ConnectionIdEntry, Error>)
        requires
            self.wf(),
        ensures
            match r {
                Ok(e) => entry_with_seq(self@.scids_of(path_id), seq_num) == Some(e@),
                Err(e) => e == Error::InvalidState && !has_seq(self@.scids_of(path_id), seq_num),
            },
    {
        if path_id == 0 {
            return self.get_scid(seq_num);
        }
        match self.mp_pools.get(&path_id) {
            Some(pool) => {
                proof {
                    self.lemma_pool_valid(path_id);
                }
                match pool.scids.get(seq_num) {
                    Some(e) => Ok(e),
                    None => Err(Error::InvalidState),
                }
            },
            None => Err(Error::InvalidState),
        }
    }

    /// A stored pool is a valid one.
    proof fn lemma_pool_valid(&self, path_id: u64)
        requires
            self@.valid(),
            self.mp_pools@.contains_key(path_id),
        ensures
            self@.pools.contains_key(path_id),
            self@.pools[path_id] == self.mp_pools@[path_id].model(),
            self@.pools[path_id].valid(),
            path_id != 0,
    {
        assert(self@.pools.contains_key(path_id));
    }

    /// Updates the Destination Connection ID entry of the provided path ID with
    /// the provided sequence number to indicate that it is now linked to the
    /// provided (4-tuple) path ID.
    pub fn mp_link_dcid_to_path_id(
        &mut self,
        path_id: u64,
        dcid_seq: u64,
        four_tuple_path_id: usize,
    ) -> (r: Result<(), Error>)
        requires
            old(self).wf(),
        ensures
            final(self).wf(),
            (final(self)@, r) == link_dcid(old(self)@, path_id, dcid_seq, four_tuple_path_id),
    {
        let ghost s = self@;
        if path_id == 0 {
            return self.link_dcid_to_path_id(dcid_seq, four_tuple_path_id);
        }
        let ghost m = self.mp_pools@;
        proof {
            lemma_link_dcid_valid(s, path_id, dcid_seq, four_tuple_path_id);
            lemma_pool_insert(m, path_id, arbitrary());
        }
        let mut pool = match self.mp_pools.remove(&path_id) {
            Some(pool) => pool,
            None => {
                assert(self.mp_pools@ =~= m);
                return Err(Error::InvalidState);
            },
        };
        assert(s.pools.contains_key(path_id) && pool.model() == s.pools[path_id]);
        let linked: bool = pool.dcids.link(dcid_seq, four_tuple_path_id);
        proof {
            lemma_pool_insert(m, path_id, pool);
            let t = link_dcid(s, path_id, dcid_seq, four_tuple_path_id).0;
            assert(s.pools.insert(path_id, pool.model()) =~= t.pools);
        }
        self.mp_pools.insert(path_id, pool);
        if linked {
            Ok(())
        } else {
            Err(Error::InvalidState)
        }
    }

    /// Returns the number of source Connection IDs that can still be issued to
    /// the peer on the provided path ID without exceeding the per-path active
    /// connection ID limit it advertised (the same limit `mp_new_scid()`
    /// enforces).
    ///
    /// A non-zero value after a PATH_RETIRE_CONNECTION_ID means the application
    /// should supply replacement Connection IDs for that path; the transport
    /// never mints Connection IDs on its own, as the application must know every
    /// source CID for packet routing.
    pub fn mp_scids_left(&self, path_id: u64) -> (r: usize)
        ensures
            r == self@.scids_left(path_id),
    {
        let active: usize = if path_id == 0 {
            self.scids.len()
        } else {
            match self.mp_pools.get(&path_id) {
                Some(pool) => pool.scids.len(),
                None => 0,
            }
        };
        self.source_conn_id_limit.saturating_sub(active)
    }

    /// Returns the number of destination Connection IDs of the provided path ID.
    pub fn mp_active_destination_cids(&self, path_id: u64) -> (r: usize)
        ensures
            r == self@.dcids_of(path_id).len(),
    {
        if path_id == 0 {
            return self.dcids.len();
        }
        match self.mp_pools.get(&path_id) {
            Some(pool) => pool.dcids.len(),
            None => 0,
        }
    }

    /// Returns the largest "Retire Prior To" received from the peer for the
    /// provided path ID.
    pub fn mp_largest_peer_retire_prior_to(&self, path_id: u64) -> (r: u64)
        ensures
            r == if path_id == 0 {
                self@.largest_peer_retire_prior_to
            } else if self@.pools.contains_key(path_id) {
                self@.pools[path_id].largest_peer_retire_prior_to
            } else {
                0
            },
    {
        if path_id == 0 {
            return self.largest_peer_retire_prior_to;
        }
        match self.mp_pools.get(&path_id) {
            Some(pool) => pool.largest_peer_retire_prior_to,
            None => 0,
        }
    }

    /// Returns the next source CID sequence number we would issue for the
    /// provided path ID.
    pub fn mp_next_scid_seq(&self, path_id: u64) -> (r: u64)
        ensures
            r == self@.next_scid_seq_of(path_id),
    {
        if path_id == 0 {
            return self.next_scid_seq;
        }
        match self.mp_pools.get(&path_id) {
            Some(pool) => pool.next_scid_seq,
            None => 0,
        }
    }

    /// Finds the multipath path ID owning one of our source Connection IDs
    /// having the provided value, if any. SCIDs from the legacy pool belong to
    /// path ID 0.
    pub fn mp_find_scid_path_id(&self, cid: &ConnectionId) -> (r: Option<u64>)
        requires
            self.wf(),
        ensures
            match r {
                Some(p) => has_cid(self@.scids_of(p), cid@),
                None => forall|p: u64| !has_cid(#[trigger] self@.scids_of(p), cid@),
            },
    {
        match self.mp_find_scid(cid) {
            Some((path_id, _)) => Some(path_id),
            None => None,
        }
    }

    /// Finds one of our source Connection IDs having the provided value and
    /// returns the multipath path ID owning it along with its sequence number in
    /// that path's sequence number space, if any. SCIDs from the legacy pool
    /// belong to path ID 0 (with their legacy sequence number).
    pub fn mp_find_scid(&self, cid: &ConnectionId) -> (r: Option<(u64, u64)>)
        requires
            self.wf(),
        ensures
            match r {
                Some((p, seq)) => {
                    &&& has_cid(self@.scids_of(p), cid@)
                    &&& entry_with_cid(self@.scids_of(p), cid@).unwrap().seq == seq
                },
                None => forall|p: u64| !has_cid(#[trigger] self@.scids_of(p), cid@),
            },
    {
        if let Some(e) = self.scids.find_cid(cid) {
            return Some((0, e.seq));
        }
        let ghost m = self.mp_pools@;
        for kp in it: self.mp_pools.iter()
            invariant
                m == self.mp_pools@,
                self@.valid(),
                forall|i: int|
                    0 <= i < it.index() ==> !has_cid((#[trigger] it.seq()[i].1).scids@.entries, cid@),
                forall|i: int|
                    0 <= i < it.seq().len() ==> m.contains_key(*(#[trigger] it.seq()[i]).0)
                        && m[*it.seq()[i].0] == *it.seq()[i].1,
                forall|k: u64| #[trigger] m.contains_key(k) ==> it.seq().contains((&k, &m[k])),
        {
            let k: u64 = *kp.0;
            let pool: &PathCidPool = kp.1;
            proof {
                assert(m.contains_key(k) && m[k] == *pool);
                self.lemma_pool_valid(k);
            }
            if let Some(e) = pool.scids.find_cid(cid) {
                return Some((k, e.seq));
            }
        }
        proof {
            assert forall|p: u64| !has_cid(#[trigger] self@.scids_of(p), cid@) by {
                if p != 0 && self@.pools.contains_key(p) {
                    assert(m.contains_key(p));
                }
            }
        }
        None
    }

    /// Returns the sequence number of the next destination Connection ID we
    /// expect the peer to issue for the provided non-zero path ID (the "Next
    /// Sequence Number" of a PATH_CIDS_BLOCKED frame).
    ///
    /// This is derived from the largest DCID sequence number seen on the path's
    /// pool: 0 when no DCID was ever received for that path ID, largest + 1
    /// otherwise. One approximation: if the only DCID ever received had sequence
    /// number 0 and was since retired, this reports 0 instead of 1; the value is
    /// informational, so this is harmless.
    pub fn mp_next_expected_dcid_seq(&self, path_id: u64) -> (r: u64)
        requires
            self@.pools.contains_key(path_id) ==> self@.pools[path_id].largest_destination_seq
                < u64::MAX,
        ensures
            r == if !self@.pools.contains_key(path_id) {
                0
            } else {
                let p = self@.pools[path_id];
                if p.dcids.entries.len() == 0 && p.largest_destination_seq == 0
                    && p.largest_peer_retire_prior_to == 0 {
                    0
                } else {
                    p.largest_destination_seq + 1
                }
            },
    {
        match self.mp_pools.get(&path_id) {
            None => 0,
            Some(p) => {
                assert(self@.pools.contains_key(path_id));
                if p.dcids.len() == 0 && p.largest_destination_seq == 0
                    && p.largest_peer_retire_prior_to == 0 {
                    0
                } else {
                    p.largest_destination_seq + 1
                }
            },
        }
    }

    /// Returns the non-zero path IDs that have a connection ID pool, in
    /// increasing order.
    pub fn mp_pools_path_ids(&self) -> (r: Vec<u64>)
        ensures
            r@.to_set() == self@.pools.dom(),
            forall|i: int, j: int| 0 <= i < j < r@.len() ==> r@[i] < r@[j],
            self.wf() ==> forall|i: int| 0 <= i < r@.len() ==> r@[i] != 0,
    {
        broadcast use vstd::std_specs::btree::group_btree_axioms;

        let mut r: Vec<u64> = Vec::new();
        let ghost m = self.mp_pools@;
        for kp in it: self.mp_pools.iter()
            invariant
                m == self.mp_pools@,
                r@.len() == it.index(),
                forall|i: int| 0 <= i < it.index() ==> r@[i] == *(#[trigger] it.seq()[i]).0,
                forall|i: int| 0 <= i < it.seq().len() ==> m.contains_key(*(#[trigger] it.seq()[i]).0),
                forall|k: u64| #[trigger] m.contains_key(k) ==> it.seq().contains((&k, &m[k])),
                forall|i: int, j: int| 0 <= i < j < r@.len() ==> r@[i] < r@[j],
                forall|i: int| 0 <= i < r@.len() ==> m.contains_key(#[trigger] r@[i]),
                vstd::std_specs::btree::increasing_seq(
                    it.seq().map_values(|kv: (&u64, &PathCidPool)| *kv.0),
                ),
        {
            proof {
                let ks = it.seq().map_values(|kv: (&u64, &PathCidPool)| *kv.0);
                let n: int = r@.len() - 0;
                assert(ks[n] == *kp.0);
                lemma_increasing(ks);
                assert forall|j: int| 0 <= j < n implies #[trigger] r@[j] < *kp.0 by {
                    assert(ks[j] == *it.seq()[j].0);
                }
            }
            r.push(*kp.0);
        }
        proof {
            assert forall|k: u64| m.contains_key(k) implies #[trigger] r@.contains(k) by {
                assert(m.contains_key(k));
            }
            assert(r@.to_set() =~= self@.pools.dom());
            if self.wf() {
                assert forall|i: int| 0 <= i < r@.len() implies r@[i] != 0 by {
                    self.lemma_pool_valid(r@[i]);
                }
            }
        }
        r
    }

    /// Adds or removes the (path ID, sequence number) pair from the set of source
    /// Connection IDs that need to be advertised to the peer through
    /// PATH_NEW_CONNECTION_ID frames.
    pub fn mp_mark_advertise_new_scid(&mut self, path_id: u64, seq: u64, advertise: bool)
        requires
            old(self).wf(),
        ensures
            final(self).wf(),
            final(self)@ == (IdsView {
                mp_advertise: marked(old(self)@.mp_advertise, (path_id, seq), advertise),
                ..old(self)@
            }),
    {
        let ghost s = self@;
        mark(&mut self.mp_advertise_new_scid_seqs, (path_id, seq), advertise);
        proof {
            lemma_same_scids(s, self@);
        }
    }

    /// Gets a (path ID, sequence number) pair requiring advertising it to the
    /// peer through a PATH_NEW_CONNECTION_ID frame, if any.
    ///
    /// If `Some`, it always returns the same value until it has been removed
    /// using `mp_mark_advertise_new_scid`.
    pub fn mp_next_advertise_new_scid(&self) -> (r: Option<(u64, u64)>)
        ensures
            r == if self@.mp_advertise.len() > 0 {
                Some(self@.mp_advertise[0])
            } else {
                None
            },
    {
        if self.mp_advertise_new_scid_seqs.len() > 0 {
            Some(self.mp_advertise_new_scid_seqs[0])
        } else {
            None
        }
    }

    /// Returns true if there are per-path source Connection IDs to advertise.
    pub fn mp_has_new_scids(&self) -> (r: bool)
        ensures
            r == (self@.mp_advertise.len() > 0),
    {
        self.mp_advertise_new_scid_seqs.len() > 0
    }

    /// Adds or removes the (path ID, sequence number) pair from the set of
    /// retired destination Connection IDs that need to be advertised to the peer
    /// through PATH_RETIRE_CONNECTION_ID frames.
    pub fn mp_mark_retire_dcid(&mut self, path_id: u64, seq: u64, retire: bool) -> (r: Result<
        (),
        Error,
    >)
        requires
            old(self).wf(),
        ensures
            final(self).wf(),
            ({
                let (held, res) = mark_retired(
                    old(self)@.mp_retire,
                    old(self)@.mp_retire_capacity,
                    (path_id, seq),
                    retire,
                );
                final(self)@ == (IdsView { mp_retire: held, ..old(self)@ }) && r == res
            }),
    {
        let ghost s = self@;
        let res = if retire {
            match self.mp_retire_dcid_seqs.insert((path_id, seq)) {
                Ok(_) => Ok(()),
                Err(e) => Err(e),
            }
        } else {
            self.mp_retire_dcid_seqs.remove(&(path_id, seq));
            Ok(())
        };
        proof {
            self.mp_retire_dcid_seqs.lemma_bounded();
            lemma_same_scids(s, self@);
        }
        res
    }

    /// Returns a copy of the set of (path ID, sequence number) pairs to send
    /// PATH_RETIRE_CONNECTION_ID frames for, each of them once and in no
    /// particular order.
    ///
    /// Note that the copy includes pairs at the time it was created. To account
    /// for newly inserted or removed pairs, a new copy needs to be created.
    pub fn mp_retire_dcid_seqs(&self) -> (r: Vec<(u64, u64)>)
        requires
            self.wf(),
        ensures
            r@.no_duplicates(),
            r@.to_set() == self@.mp_retire,
    {
        self.mp_retire_dcid_seqs.elements()
    }

    /// Returns true if there are retired per-path destination Connection IDs to
    /// advertise.
    pub fn mp_has_retire_dcids(&self) -> (r: bool)
        ensures
            r == (self@.mp_retire != Set::<(u64, u64)>::empty()),
    {
        !self.mp_retire_dcid_seqs.is_empty()
    }

    /// Gets the PATH_NEW_CONNECTION_ID frame related to the source Connection ID
    /// of the provided path ID with sequence `seq_num`, mirroring
    /// `get_new_connection_id_frame_for()` per path.
    ///
    /// Path ID 0 frames operate on the very same sequence number space as legacy
    /// NEW_CONNECTION_ID frames; note that path-0 CIDs are normally advertised
    /// through legacy frames instead.
    pub fn mp_get_path_new_connection_id_frame_for(&self, path_id: u64, seq_num: u64) -> (r: Result<
        Frame,
        Error,
    >)
        requires
            self.wf(),
        ensures
            match entry_with_seq(self@.scids_of(path_id), seq_num) {
                Some(EntryView { cid, reset_token: Some(token), .. }) => r matches Ok(
                    Frame::PathNewConnectionId {
                        path_id: p,
                        seq_num: n,
                        retire_prior_to,
                        conn_id,
                        reset_token,
                    },
                ) && p == path_id && n == seq_num && retire_prior_to == (if path_id == 0 {
                    self@.retire_prior_to
                } else {
                    self@.pools[path_id].retire_prior_to
                }) && conn_id@ == cid && reset_token == token,
                _ => r matches Err(e) && e == Error::InvalidState,
            },
    {
        let (entry, retire_prior_to) = if path_id == 0 {
            (self.scids.get(seq_num), self.retire_prior_to)
        } else {
            match self.mp_pools.get(&path_id) {
                Some(pool) => {
                    proof {
                        self.lemma_pool_valid(path_id);
                    }
                    (pool.scids.get(seq_num), pool.retire_prior_to)
                },
                None => {
                    return Err(Error::InvalidState);
                },
            }
        };
        match entry {
            Some(e) => match e.reset_token {
                Some(reset_token) => Ok(
                    Frame::PathNewConnectionId {
                        path_id,
                        seq_num,
                        retire_prior_to,
                        conn_id: e.cid.to_vec(),
                        reset_token,
                    },
                ),
                None => Err(Error::InvalidState),
            },
            None => Err(Error::InvalidState),
        }
    }
}

} // verus!
