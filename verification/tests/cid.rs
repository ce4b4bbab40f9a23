//! Connection ID management.

use quiche_multipath::cid::retired::RetiredPathIds;
use quiche_multipath::cid::{ConnectionIdentifiers, RETIRED_CONN_ID_LIMIT_MULTIPLIER};
use quiche_multipath::error::Error;

use quiche_multipath::packet::ConnectionId;

/// Makes connection IDs and reset tokens, each of them once.
#[derive(Default)]
struct Maker {
    made: u16,
}

impl Maker {
    /// A connection ID of `cid_len` bytes and a reset token.
    fn create_cid_and_reset_token(&mut self, cid_len: usize) -> (ConnectionId, u128) {
        self.made += 1;
        let cid = (0..cid_len).map(|i| if i % 2 == 0 { 7 } else { self.made as u8 }).collect();
        (ConnectionId::from_vec(cid), 0x1000 + self.made as u128)
    }
}

#[test]
fn ids_new_scids() {
    let mut maker = Maker::default();
    let (scid, _) = maker.create_cid_and_reset_token(16);
    let (dcid, _) = maker.create_cid_and_reset_token(16);

    let mut ids = ConnectionIdentifiers::new(2, &scid, 0, None);
    ids.set_source_conn_id_limit(3);
    ids.set_initial_dcid(dcid, None, Some(0));

    assert_eq!(ids.available_dcids(), 0);
    assert_eq!(ids.available_scids(), 0);
    assert!(!ids.has_new_scids());
    assert_eq!(ids.next_advertise_new_scid_seq(), None);

    let (scid2, rt2) = maker.create_cid_and_reset_token(16);

    assert_eq!(ids.new_scid(scid2, Some(rt2), true, None, false), Ok(1));
    assert_eq!(ids.available_dcids(), 0);
    assert_eq!(ids.available_scids(), 1);
    assert!(ids.has_new_scids());
    assert_eq!(ids.next_advertise_new_scid_seq(), Some(1));

    let (scid3, rt3) = maker.create_cid_and_reset_token(16);

    assert_eq!(ids.new_scid(scid3, Some(rt3), true, None, false), Ok(2));
    assert_eq!(ids.available_dcids(), 0);
    assert_eq!(ids.available_scids(), 2);
    assert!(ids.has_new_scids());
    assert_eq!(ids.next_advertise_new_scid_seq(), Some(1));

    // If now we give another CID, it reports an error since it exceeds the
    // limit of active CIDs.
    let (scid4, rt4) = maker.create_cid_and_reset_token(16);

    assert_eq!(
        ids.new_scid(scid4, Some(rt4), true, None, false),
        Err(Error::IdLimit),
    );
    assert_eq!(ids.available_dcids(), 0);
    assert_eq!(ids.available_scids(), 2);
    assert!(ids.has_new_scids());
    assert_eq!(ids.next_advertise_new_scid_seq(), Some(1));

    // Assume we sent one of them.
    ids.mark_advertise_new_scid_seq(1, false);
    assert_eq!(ids.available_dcids(), 0);
    assert_eq!(ids.available_scids(), 2);
    assert!(ids.has_new_scids());
    assert_eq!(ids.next_advertise_new_scid_seq(), Some(2));

    // Send the other.
    ids.mark_advertise_new_scid_seq(2, false);

    assert_eq!(ids.available_dcids(), 0);
    assert_eq!(ids.available_scids(), 2);
    assert!(!ids.has_new_scids());
    assert_eq!(ids.next_advertise_new_scid_seq(), None);
}

#[test]
fn new_dcid_event() {
    let mut maker = Maker::default();
    let (scid, _) = maker.create_cid_and_reset_token(16);
    let (dcid, _) = maker.create_cid_and_reset_token(16);

    let mut retired_path_ids = RetiredPathIds::new();

    let mut ids = ConnectionIdentifiers::new(2, &scid, 0, None);
    ids.set_initial_dcid(dcid, None, Some(0));

    assert_eq!(ids.available_dcids(), 0);
    assert_eq!(ids.active_destination_cids(), 1);

    let (dcid2, rt2) = maker.create_cid_and_reset_token(16);

    assert_eq!(
        ids.new_dcid(dcid2, 1, rt2, 0, &mut retired_path_ids),
        Ok(()),
    );
    assert_eq!(retired_path_ids.as_slice(), &[] as &[(u64, usize)]);
    assert_eq!(ids.available_dcids(), 1);
    assert_eq!(ids.active_destination_cids(), 2);

    // Now we assume that the client wants to advertise more source
    // Connection IDs than the advertised limit. This is valid if it
    // requests its peer to retire enough Connection IDs to fit within the
    // limits.
    let (dcid3, rt3) = maker.create_cid_and_reset_token(16);
    assert_eq!(
        ids.new_dcid(dcid3, 2, rt3, 1, &mut retired_path_ids),
        Ok(())
    );
    assert_eq!(retired_path_ids.as_slice(), &[(0, 0)]);
    // The CID module does not handle path replacing. Fake it now.
    ids.link_dcid_to_path_id(1, 0).unwrap();
    assert_eq!(ids.available_dcids(), 1);
    assert_eq!(ids.active_destination_cids(), 2);
    assert!(ids.has_retire_dcids());
    assert_eq!(ids.retire_dcid_seqs().iter().next(), Some(&0));

    // Fake RETIRE_CONNECTION_ID sending.
    let _ = ids.mark_retire_dcid_seq(0, false);
    assert!(!ids.has_retire_dcids());
    assert_eq!(ids.retire_dcid_seqs().iter().next(), None);

    // Now tries to experience CID retirement. If the server tries to remove
    // non-existing DCIDs, it fails.
    assert_eq!(ids.retire_dcid(0), Err(Error::InvalidState));
    assert_eq!(ids.retire_dcid(3), Err(Error::InvalidState));
    assert!(!ids.has_retire_dcids());
    assert_eq!(ids.active_destination_cids(), 2);

    // Now it removes DCID with sequence 1.
    assert_eq!(ids.retire_dcid(1), Ok(Some(0)));
    // The CID module does not handle path replacing. Fake it now.
    ids.link_dcid_to_path_id(2, 0).unwrap();
    assert_eq!(ids.available_dcids(), 0);
    assert!(ids.has_retire_dcids());
    assert_eq!(ids.retire_dcid_seqs().iter().next(), Some(&1));
    assert_eq!(ids.active_destination_cids(), 1);

    // Fake RETIRE_CONNECTION_ID sending.
    let _ = ids.mark_retire_dcid_seq(1, false);
    assert!(!ids.has_retire_dcids());
    assert_eq!(ids.retire_dcid_seqs().iter().next(), None);

    // Trying to remove the last DCID triggers an error.
    assert_eq!(ids.retire_dcid(2), Err(Error::OutOfIdentifiers));
    assert_eq!(ids.available_dcids(), 0);
    assert!(!ids.has_retire_dcids());
    assert_eq!(ids.active_destination_cids(), 1);
}

#[test]
fn new_dcid_reordered() {
    let mut maker = Maker::default();
    let (scid, _) = maker.create_cid_and_reset_token(16);
    let (dcid, _) = maker.create_cid_and_reset_token(16);

    let mut retired_path_ids = RetiredPathIds::new();

    let mut ids = ConnectionIdentifiers::new(2, &scid, 0, None);
    ids.set_initial_dcid(dcid, None, Some(0));

    assert_eq!(ids.available_dcids(), 0);
    assert_eq!(ids.active_destination_cids(), 1);

    // Skip DCID #1 (e.g due to packet loss) and insert DCID #2.
    let (dcid, rt) = maker.create_cid_and_reset_token(16);
    assert!(ids.new_dcid(dcid, 2, rt, 1, &mut retired_path_ids).is_ok());
    assert_eq!(ids.active_destination_cids(), 1);

    let (dcid, rt) = maker.create_cid_and_reset_token(16);
    assert!(ids.new_dcid(dcid, 3, rt, 2, &mut retired_path_ids).is_ok());
    assert_eq!(ids.active_destination_cids(), 2);

    let (dcid, rt) = maker.create_cid_and_reset_token(16);
    assert!(ids.new_dcid(dcid, 4, rt, 3, &mut retired_path_ids).is_ok());
    assert_eq!(ids.active_destination_cids(), 2);

    // Insert DCID #1 (e.g due to packet reordering).
    let (dcid, rt) = maker.create_cid_and_reset_token(16);
    assert!(ids.new_dcid(dcid, 1, rt, 0, &mut retired_path_ids).is_ok());
    assert_eq!(ids.active_destination_cids(), 2);

    // Try inserting DCID #1 again (e.g. due to retransmission).
    let (dcid, rt) = maker.create_cid_and_reset_token(16);
    assert!(ids.new_dcid(dcid, 1, rt, 0, &mut retired_path_ids).is_ok());
    assert_eq!(ids.active_destination_cids(), 2);
}

#[test]
fn new_dcid_partial_retire_prior_to() {
    let mut maker = Maker::default();
    let (scid, _) = maker.create_cid_and_reset_token(16);
    let (dcid, _) = maker.create_cid_and_reset_token(16);

    let mut retired_path_ids = RetiredPathIds::new();

    let mut ids = ConnectionIdentifiers::new(5, &scid, 0, None);
    ids.set_initial_dcid(dcid, None, Some(0));

    assert_eq!(ids.available_dcids(), 0);
    assert_eq!(ids.active_destination_cids(), 1);

    let (dcid, rt) = maker.create_cid_and_reset_token(16);
    assert!(ids.new_dcid(dcid, 1, rt, 0, &mut retired_path_ids).is_ok());
    assert_eq!(ids.active_destination_cids(), 2);

    let (dcid, rt) = maker.create_cid_and_reset_token(16);
    assert!(ids.new_dcid(dcid, 2, rt, 0, &mut retired_path_ids).is_ok());
    assert_eq!(ids.active_destination_cids(), 3);

    let (dcid, rt) = maker.create_cid_and_reset_token(16);
    assert!(ids.new_dcid(dcid, 3, rt, 0, &mut retired_path_ids).is_ok());
    assert_eq!(ids.active_destination_cids(), 4);

    let (dcid, rt) = maker.create_cid_and_reset_token(16);
    assert!(ids.new_dcid(dcid, 4, rt, 0, &mut retired_path_ids).is_ok());
    assert_eq!(ids.active_destination_cids(), 5);

    // Retire a DCID from the middle of the list
    assert!(ids.retire_dcid(3).is_ok());

    // Retire prior to DCID that was just retired.
    //
    // This is largely to test that the `partition_point()` call above
    // returns a meaningful value even if the actual sequence that is
    // searched isn't present in the list.
    let (dcid, rt) = maker.create_cid_and_reset_token(16);
    assert!(ids.new_dcid(dcid, 5, rt, 3, &mut retired_path_ids).is_ok());
    assert_eq!(ids.active_destination_cids(), 2);
}

#[test]
fn retire_scids() {
    let mut maker = Maker::default();
    let (scid, _) = maker.create_cid_and_reset_token(16);
    let (dcid, _) = maker.create_cid_and_reset_token(16);

    let mut ids = ConnectionIdentifiers::new(3, &scid, 0, None);
    ids.set_initial_dcid(dcid, None, Some(0));
    ids.set_source_conn_id_limit(3);

    let (scid2, rt2) = maker.create_cid_and_reset_token(16);
    let (scid3, rt3) = maker.create_cid_and_reset_token(16);

    assert_eq!(
        ids.new_scid(scid2.clone(), Some(rt2), true, None, false),
        Ok(1),
    );
    assert_eq!(ids.active_source_cids(), 2);
    assert_eq!(
        ids.new_scid(scid3.clone(), Some(rt3), true, None, false),
        Ok(2),
    );
    assert_eq!(ids.active_source_cids(), 3);

    assert_eq!(ids.pop_retired_scid(), None);

    assert_eq!(ids.retire_scid(0, &scid2), Ok(Some(0)));

    assert_eq!(ids.pop_retired_scid(), Some(scid));
    assert_eq!(ids.pop_retired_scid(), None);

    assert_eq!(ids.retire_scid(1, &scid3), Ok(None));

    assert_eq!(ids.pop_retired_scid(), Some(scid2));
    assert_eq!(ids.pop_retired_scid(), None);
}

#[test]
fn mp_scid_per_path_seq_spaces() {
    let mut maker = Maker::default();
    let (scid, _) = maker.create_cid_and_reset_token(16);
    let (dcid, _) = maker.create_cid_and_reset_token(16);

    let mut ids = ConnectionIdentifiers::new(2, &scid, 0, None);
    ids.set_source_conn_id_limit(3);
    ids.set_initial_dcid(dcid, None, Some(0));

    // Path 1 and path 2 have independent, 0-based sequence spaces.
    let (c10, rt10) = maker.create_cid_and_reset_token(16);
    let (c11, rt11) = maker.create_cid_and_reset_token(16);
    let (c20, rt20) = maker.create_cid_and_reset_token(16);

    assert_eq!(ids.mp_new_scid(1, c10.clone(), rt10), Ok(0));
    assert_eq!(ids.mp_new_scid(1, c11.clone(), rt11), Ok(1));
    assert_eq!(ids.mp_new_scid(2, c20.clone(), rt20), Ok(0));

    assert_eq!(ids.mp_next_scid_seq(1), 2);
    assert_eq!(ids.mp_next_scid_seq(2), 1);
    assert_eq!(ids.mp_next_scid_seq(0), 1);

    assert_eq!(ids.mp_get_scid(1, 0).unwrap().cid, c10);
    assert_eq!(ids.mp_get_scid(1, 1).unwrap().cid, c11);
    assert_eq!(ids.mp_get_scid(2, 0).unwrap().cid, c20);
    assert_eq!(ids.mp_get_scid(2, 1).err(), Some(Error::InvalidState));

    // Pools exist for paths 1 and 2 only; path 0 uses the legacy space.
    let pids: Vec<u64> = ids.mp_pools_path_ids();
    assert_eq!(pids, vec![1, 2]);
}

#[test]
fn mp_scid_path_zero_delegation() {
    let mut maker = Maker::default();
    let (scid, _) = maker.create_cid_and_reset_token(16);
    let (dcid, _) = maker.create_cid_and_reset_token(16);

    let mut ids = ConnectionIdentifiers::new(2, &scid, 0, None);
    ids.set_source_conn_id_limit(3);
    ids.set_initial_dcid(dcid, None, Some(0));

    // Issue via the legacy API, observe through the multipath one.
    let (scid2, rt2) = maker.create_cid_and_reset_token(16);
    assert_eq!(
        ids.new_scid(scid2.clone(), Some(rt2), true, None, false),
        Ok(1)
    );
    assert_eq!(ids.mp_get_scid(0, 1).unwrap().cid, scid2);

    // Issue via the multipath API for path 0, observe through legacy.
    let (scid3, rt3) = maker.create_cid_and_reset_token(16);
    assert_eq!(ids.mp_new_scid(0, scid3.clone(), rt3), Ok(2));
    assert_eq!(ids.get_scid(2).unwrap().cid, scid3);
    assert_eq!(ids.mp_next_scid_seq(0), 3);
    assert_eq!(ids.mp_next_scid_seq(0), 3);

    // Path-0 issuance goes through the legacy advertise queue, not the
    // multipath one.
    assert_eq!(ids.next_advertise_new_scid_seq(), Some(1));
    assert_eq!(ids.mp_next_advertise_new_scid(), None);

    // Path 0 never creates a pool.
    assert_eq!(ids.mp_pools_path_ids().len(), 0);
}

#[test]
fn mp_scid_global_duplicate_rejected() {
    let mut maker = Maker::default();
    let (scid, _) = maker.create_cid_and_reset_token(16);
    let (dcid, _) = maker.create_cid_and_reset_token(16);

    let mut ids = ConnectionIdentifiers::new(2, &scid, 0, None);
    ids.set_source_conn_id_limit(3);
    ids.set_initial_dcid(dcid.clone(), None, Some(0));

    // Reusing the initial (path 0) SCID bytes on another path is invalid.
    assert_eq!(
        ids.mp_new_scid(1, scid.clone(), 42),
        Err(Error::InvalidState)
    );

    // Reusing the initial DCID bytes is also invalid.
    assert_eq!(
        ids.mp_new_scid(1, dcid.clone(), 43),
        Err(Error::InvalidState)
    );

    // Same bytes on path 1 then path 2.
    let (ca, rta) = maker.create_cid_and_reset_token(16);
    assert_eq!(ids.mp_new_scid(1, ca.clone(), rta), Ok(0));
    assert_eq!(
        ids.mp_new_scid(2, ca.clone(), rta),
        Err(Error::InvalidState)
    );
    // Even on the same path.
    assert_eq!(
        ids.mp_new_scid(1, ca.clone(), rta),
        Err(Error::InvalidState)
    );

    // Bytes already used by a per-path DCID are rejected too.
    let (dx, rtx) = maker.create_cid_and_reset_token(16);
    let mut retired = Vec::new();
    assert_eq!(
        ids.mp_new_dcid(1, dx.clone(), 0, rtx, 0, &mut retired),
        Ok(())
    );
    assert_eq!(ids.mp_new_scid(2, dx, 44), Err(Error::InvalidState));
}

#[test]
fn mp_scid_per_path_limit() {
    let mut maker = Maker::default();
    let (scid, _) = maker.create_cid_and_reset_token(16);
    let (dcid, _) = maker.create_cid_and_reset_token(16);

    let mut ids = ConnectionIdentifiers::new(2, &scid, 0, None);
    ids.set_source_conn_id_limit(3);
    ids.set_initial_dcid(dcid, None, Some(0));

    // The active CID limit applies per path, not summed across paths.
    for path_id in 1..=2 {
        for seq in 0..3 {
            let (c, rt) = maker.create_cid_and_reset_token(16);
            assert_eq!(ids.mp_new_scid(path_id, c, rt), Ok(seq));
        }
        let (c, rt) = maker.create_cid_and_reset_token(16);
        assert_eq!(ids.mp_new_scid(path_id, c, rt), Err(Error::IdLimit));
    }
}

#[test]
fn mp_new_dcid_per_path() {
    let mut maker = Maker::default();
    let (scid, _) = maker.create_cid_and_reset_token(16);
    let (dcid, _) = maker.create_cid_and_reset_token(16);

    let mut retired = Vec::new();

    let mut ids = ConnectionIdentifiers::new(2, &scid, 0, None);
    ids.set_initial_dcid(dcid, None, Some(0));

    let (d0, rt0) = maker.create_cid_and_reset_token(16);
    let (d1, rt1) = maker.create_cid_and_reset_token(16);

    assert_eq!(
        ids.mp_new_dcid(1, d0.clone(), 0, rt0, 0, &mut retired),
        Ok(())
    );
    assert!(retired.is_empty());
    assert_eq!(ids.mp_get_dcid(1, 0).unwrap().cid, d0);

    assert_eq!(
        ids.mp_new_dcid(1, d1.clone(), 1, rt1, 0, &mut retired),
        Ok(())
    );
    assert_eq!(ids.mp_active_destination_cids(1), 2);

    // Exceeding the per-path destination CID limit (2) errors.
    let (d2, rt2) = maker.create_cid_and_reset_token(16);
    assert_eq!(
        ids.mp_new_dcid(1, d2, 2, rt2, 0, &mut retired),
        Err(Error::IdLimit)
    );

    // Retire Prior To drains entries below it on that path only.
    let (d3, rt3) = maker.create_cid_and_reset_token(16);
    assert_eq!(ids.mp_new_dcid(1, d3, 3, rt3, 1, &mut retired), Ok(()));
    assert_eq!(retired, vec![(1, 0, None)]);
    assert_eq!(ids.mp_active_destination_cids(1), 2);
    assert!(ids.mp_has_retire_dcids());
    assert!(ids.mp_retire_dcid_seqs().contains(&(1, 0)));

    // Path 2 has its own independent space and limit.
    retired.clear();
    let (e0, ert0) = maker.create_cid_and_reset_token(16);
    let (e1, ert1) = maker.create_cid_and_reset_token(16);
    assert_eq!(ids.mp_new_dcid(2, e0, 0, ert0, 0, &mut retired), Ok(()));
    assert_eq!(ids.mp_new_dcid(2, e1, 1, ert1, 0, &mut retired), Ok(()));
    assert!(retired.is_empty());
    assert_eq!(ids.mp_active_destination_cids(2), 2);

    // Path 0 delegates to the legacy pool.
    let (f1, frt1) = maker.create_cid_and_reset_token(16);
    assert_eq!(
        ids.mp_new_dcid(0, f1.clone(), 1, frt1, 0, &mut retired),
        Ok(())
    );
    assert_eq!(ids.get_dcid(1).unwrap().cid, f1);
    assert_eq!(ids.active_destination_cids(), 2);

    // Path 0 retirement is reported with path_id 0, carrying the slab
    // path link of the initial DCID, and goes through the legacy retire
    // queue.
    let (f2, frt2) = maker.create_cid_and_reset_token(16);
    assert_eq!(ids.mp_new_dcid(0, f2, 2, frt2, 1, &mut retired), Ok(()));
    assert_eq!(retired, vec![(0, 0, Some(0))]);
    assert!(ids.has_retire_dcids());
    assert!(ids.retire_dcid_seqs().contains(&0));
}

#[test]
fn mp_new_dcid_mismatch_and_invalid_rpt() {
    let mut maker = Maker::default();
    let (scid, _) = maker.create_cid_and_reset_token(16);
    let (dcid, _) = maker.create_cid_and_reset_token(16);

    let mut retired = Vec::new();

    let mut ids = ConnectionIdentifiers::new(2, &scid, 0, None);
    ids.set_initial_dcid(dcid, None, Some(0));

    let (d0, rt0) = maker.create_cid_and_reset_token(16);
    assert_eq!(
        ids.mp_new_dcid(1, d0.clone(), 0, rt0, 0, &mut retired),
        Ok(())
    );

    // Exact duplicate is tolerated.
    assert_eq!(
        ids.mp_new_dcid(1, d0.clone(), 0, rt0, 0, &mut retired),
        Ok(())
    );
    assert_eq!(ids.mp_active_destination_cids(1), 1);

    // Same CID with a different sequence number.
    assert_eq!(
        ids.mp_new_dcid(1, d0.clone(), 1, rt0, 0, &mut retired),
        Err(Error::InvalidFrame)
    );

    // Same sequence number with a different CID.
    let (dx, rtx) = maker.create_cid_and_reset_token(16);
    assert_eq!(
        ids.mp_new_dcid(1, dx.clone(), 0, rtx, 0, &mut retired),
        Err(Error::InvalidFrame)
    );

    // Same CID and seq with a different reset token.
    assert_eq!(
        ids.mp_new_dcid(
            1,
            d0.clone(),
            0,
            rt0.wrapping_add(1),
            0,
            &mut retired
        ),
        Err(Error::InvalidFrame)
    );

    // Retire Prior To greater than the sequence number.
    let (dy, rty) = maker.create_cid_and_reset_token(16);
    assert_eq!(
        ids.mp_new_dcid(1, dy, 9, rty, 10, &mut retired),
        Err(Error::InvalidFrame)
    );
}

#[test]
fn mp_new_dcid_reordered_per_path() {
    let mut maker = Maker::default();
    let (scid, _) = maker.create_cid_and_reset_token(16);
    let (dcid, _) = maker.create_cid_and_reset_token(16);

    let mut retired = Vec::new();

    let mut ids = ConnectionIdentifiers::new(2, &scid, 0, None);
    ids.set_initial_dcid(dcid, None, Some(0));

    // Skip DCID #1 (e.g due to packet loss) and insert DCID #2.
    let (d, rt) = maker.create_cid_and_reset_token(16);
    assert!(ids.mp_new_dcid(1, d, 2, rt, 1, &mut retired).is_ok());
    assert_eq!(ids.mp_active_destination_cids(1), 1);

    let (d, rt) = maker.create_cid_and_reset_token(16);
    assert!(ids.mp_new_dcid(1, d, 3, rt, 2, &mut retired).is_ok());
    assert_eq!(ids.mp_active_destination_cids(1), 2);

    let (d, rt) = maker.create_cid_and_reset_token(16);
    assert!(ids.mp_new_dcid(1, d, 4, rt, 3, &mut retired).is_ok());
    assert_eq!(ids.mp_active_destination_cids(1), 2);

    // Insert DCID #1 (e.g due to packet reordering): it is below the
    // path's Retire Prior To, so it is immediately queued for retirement.
    let (d, rt) = maker.create_cid_and_reset_token(16);
    assert!(ids.mp_new_dcid(1, d, 1, rt, 0, &mut retired).is_ok());
    assert_eq!(ids.mp_active_destination_cids(1), 2);
    assert!(ids.mp_retire_dcid_seqs().contains(&(1, 1)));

    // Try inserting DCID #1 again (e.g. due to retransmission).
    let (d, rt) = maker.create_cid_and_reset_token(16);
    assert!(ids.mp_new_dcid(1, d, 1, rt, 0, &mut retired).is_ok());
    assert_eq!(ids.mp_active_destination_cids(1), 2);
}

#[test]
fn mp_new_dcid_partial_retire_prior_to_per_path() {
    let mut maker = Maker::default();
    let (scid, _) = maker.create_cid_and_reset_token(16);
    let (dcid, _) = maker.create_cid_and_reset_token(16);

    let mut retired = Vec::new();

    let mut ids = ConnectionIdentifiers::new(5, &scid, 0, None);
    ids.set_initial_dcid(dcid, None, Some(0));

    for seq in 0..5 {
        let (d, rt) = maker.create_cid_and_reset_token(16);
        assert!(ids.mp_new_dcid(1, d, seq, rt, 0, &mut retired).is_ok());
    }
    assert_eq!(ids.mp_active_destination_cids(1), 5);

    // Retire a DCID from the middle of the list.
    assert!(ids.mp_retire_dcid(1, 3).is_ok());

    // Retire prior to the DCID that was just retired; the drain point
    // must be meaningful even if the sequence is absent from the list.
    let (d, rt) = maker.create_cid_and_reset_token(16);
    assert!(ids.mp_new_dcid(1, d, 5, rt, 3, &mut retired).is_ok());
    assert_eq!(ids.mp_active_destination_cids(1), 2);
    assert_eq!(retired, vec![(1, 0, None), (1, 1, None), (1, 2, None)]);
}

#[test]
fn mp_lowest_available_dcid_seq_per_path() {
    let mut maker = Maker::default();
    let (scid, _) = maker.create_cid_and_reset_token(16);
    let (dcid, _) = maker.create_cid_and_reset_token(16);

    let mut retired = Vec::new();

    let mut ids = ConnectionIdentifiers::new(2, &scid, 0, None);
    ids.set_initial_dcid(dcid, None, Some(0));

    // No pool yet.
    assert_eq!(ids.mp_lowest_available_dcid_seq(1), None);

    let (d0, rt0) = maker.create_cid_and_reset_token(16);
    let (d1, rt1) = maker.create_cid_and_reset_token(16);
    assert_eq!(ids.mp_new_dcid(1, d0, 0, rt0, 0, &mut retired), Ok(()));
    assert_eq!(ids.mp_new_dcid(1, d1, 1, rt1, 0, &mut retired), Ok(()));

    assert_eq!(ids.mp_lowest_available_dcid_seq(1), Some(0));

    // Linking a DCID to a live 4-tuple (slab path) makes it unavailable.
    assert_eq!(ids.mp_link_dcid_to_path_id(1, 0, 4), Ok(()));
    assert_eq!(ids.mp_lowest_available_dcid_seq(1), Some(1));

    assert_eq!(ids.mp_link_dcid_to_path_id(1, 1, 5), Ok(()));
    assert_eq!(ids.mp_lowest_available_dcid_seq(1), None);

    // Path 0 delegates to the legacy accessor: the initial DCID (seq 0)
    // is linked to the initial 4-tuple path, so nothing is available.
    assert_eq!(ids.mp_lowest_available_dcid_seq(0), None);

    // A fresh, unlinked legacy DCID becomes path 0's lowest available.
    let mut retired_path_ids = RetiredPathIds::new();
    let (f1, frt1) = maker.create_cid_and_reset_token(16);
    assert_eq!(ids.new_dcid(f1, 1, frt1, 0, &mut retired_path_ids), Ok(()));
    assert_eq!(ids.mp_lowest_available_dcid_seq(0), Some(1));
}

#[test]
fn mp_retire_dcid_round_trip() {
    let mut maker = Maker::default();
    let (scid, _) = maker.create_cid_and_reset_token(16);
    let (dcid, _) = maker.create_cid_and_reset_token(16);

    let mut retired = Vec::new();

    let mut ids = ConnectionIdentifiers::new(2, &scid, 0, None);
    ids.set_initial_dcid(dcid, None, Some(0));

    let (d0, rt0) = maker.create_cid_and_reset_token(16);
    let (d1, rt1) = maker.create_cid_and_reset_token(16);
    assert_eq!(ids.mp_new_dcid(1, d0, 0, rt0, 0, &mut retired), Ok(()));
    assert_eq!(ids.mp_new_dcid(1, d1, 1, rt1, 0, &mut retired), Ok(()));

    // Retiring a non-existing sequence number fails.
    assert_eq!(ids.mp_retire_dcid(1, 7), Err(Error::InvalidState));

    // Retiring an existing one removes it and queues the retirement.
    assert_eq!(ids.mp_retire_dcid(1, 0), Ok(None));
    assert_eq!(ids.mp_active_destination_cids(1), 1);
    assert!(ids.mp_has_retire_dcids());
    assert!(ids.mp_retire_dcid_seqs().contains(&(1, 0)));

    // Fake RETIRE frame emission.
    assert_eq!(ids.mp_mark_retire_dcid(1, 0, false), Ok(()));
    assert!(!ids.mp_has_retire_dcids());

    // Retiring the last DCID of the path fails.
    assert_eq!(ids.mp_retire_dcid(1, 1), Err(Error::OutOfIdentifiers));
}

#[test]
fn mp_retire_scid_round_trip() {
    let mut maker = Maker::default();
    let (scid, _) = maker.create_cid_and_reset_token(16);
    let (dcid, _) = maker.create_cid_and_reset_token(16);

    let mut ids = ConnectionIdentifiers::new(2, &scid, 0, None);
    ids.set_source_conn_id_limit(3);
    ids.set_initial_dcid(dcid, None, Some(0));

    let (c0, rt0) = maker.create_cid_and_reset_token(16);
    let (c1, rt1) = maker.create_cid_and_reset_token(16);
    let (c2, rt2) = maker.create_cid_and_reset_token(16);
    assert_eq!(ids.mp_new_scid(1, c0.clone(), rt0), Ok(0));
    assert_eq!(ids.mp_new_scid(1, c1.clone(), rt1), Ok(1));
    assert_eq!(ids.mp_new_scid(1, c2.clone(), rt2), Ok(2));

    // Sequence numbers we never issued on that path are invalid.
    assert_eq!(ids.mp_retire_scid(1, 5, &c1), Err(Error::InvalidState));
    // Path 1 issued seq 0..2, but path 2 issued nothing.
    assert_eq!(ids.mp_retire_scid(2, 0, &c1), Err(Error::InvalidState));

    // A packet cannot retire the CID it arrived on.
    assert_eq!(ids.mp_retire_scid(1, 0, &c0), Err(Error::InvalidState));

    // Valid retirement returns the retired CID and notifies the app.
    assert_eq!(ids.mp_retire_scid(1, 1, &c2), Ok(Some(c1.clone())));
    assert_eq!(ids.pop_retired_scid(), Some(c1));
    assert_eq!(ids.pop_retired_scid(), None);

    // Path 0 delegates to the legacy logic.
    let (s2, srt2) = maker.create_cid_and_reset_token(16);
    assert_eq!(
        ids.new_scid(s2.clone(), Some(srt2), true, None, false),
        Ok(1)
    );
    assert_eq!(ids.mp_retire_scid(0, 0, &s2), Ok(Some(scid.clone())));
    assert_eq!(ids.pop_retired_scid(), Some(scid));
}

#[test]
fn mp_find_scid_path_id_resolves_pools() {
    let mut maker = Maker::default();
    let (scid, _) = maker.create_cid_and_reset_token(16);
    let (dcid, _) = maker.create_cid_and_reset_token(16);

    let mut ids = ConnectionIdentifiers::new(2, &scid, 0, None);
    ids.set_source_conn_id_limit(3);
    ids.set_initial_dcid(dcid, None, Some(0));

    // Legacy-pool SCIDs belong to path 0.
    assert_eq!(ids.mp_find_scid_path_id(&scid), Some(0));

    let (s2, rt2) = maker.create_cid_and_reset_token(16);
    assert_eq!(
        ids.new_scid(s2.clone(), Some(rt2), true, None, false),
        Ok(1)
    );
    assert_eq!(ids.mp_find_scid_path_id(&s2), Some(0));

    let (c1, rt1) = maker.create_cid_and_reset_token(16);
    let (c2, crt2) = maker.create_cid_and_reset_token(16);
    assert_eq!(ids.mp_new_scid(1, c1.clone(), rt1), Ok(0));
    assert_eq!(ids.mp_new_scid(2, c2.clone(), crt2), Ok(0));
    assert_eq!(ids.mp_find_scid_path_id(&c1), Some(1));
    assert_eq!(ids.mp_find_scid_path_id(&c2), Some(2));

    let (unknown, _) = maker.create_cid_and_reset_token(16);
    assert_eq!(ids.mp_find_scid_path_id(&unknown), None);
}

#[test]
fn mp_advertise_queue_drain() {
    let mut maker = Maker::default();
    let (scid, _) = maker.create_cid_and_reset_token(16);
    let (dcid, _) = maker.create_cid_and_reset_token(16);

    let mut ids = ConnectionIdentifiers::new(2, &scid, 0, None);
    ids.set_source_conn_id_limit(3);
    ids.set_initial_dcid(dcid, None, Some(0));

    assert_eq!(ids.mp_next_advertise_new_scid(), None);

    let (c1, rt1) = maker.create_cid_and_reset_token(16);
    let (c2, rt2) = maker.create_cid_and_reset_token(16);
    assert_eq!(ids.mp_new_scid(1, c1, rt1), Ok(0));
    assert_eq!(ids.mp_new_scid(2, c2, rt2), Ok(0));

    // Issued SCIDs are queued for PATH_NEW_CONNECTION_ID advertisement.
    assert_eq!(ids.mp_next_advertise_new_scid(), Some((1, 0)));

    // Fake the frame being sent.
    ids.mp_mark_advertise_new_scid(1, 0, false);
    assert_eq!(ids.mp_next_advertise_new_scid(), Some((2, 0)));

    // A lost frame can be re-queued.
    ids.mp_mark_advertise_new_scid(1, 0, true);
    ids.mp_mark_advertise_new_scid(2, 0, false);
    assert_eq!(ids.mp_next_advertise_new_scid(), Some((1, 0)));

    ids.mp_mark_advertise_new_scid(1, 0, false);
    assert_eq!(ids.mp_next_advertise_new_scid(), None);
}

/// Issue 1: CIDs issued in a per-path pool must not be re-issuable on
/// path 0, neither through `mp_new_scid(0, …)` nor through `new_scid`.
#[test]
fn mp_path0_rejects_cid_already_in_per_path_pool() {
    let mut maker = Maker::default();
    let (scid, _) = maker.create_cid_and_reset_token(16);
    let (dcid, _) = maker.create_cid_and_reset_token(16);

    let mut ids = ConnectionIdentifiers::new(2, &scid, 0, None);
    ids.set_source_conn_id_limit(4);
    ids.set_initial_dcid(dcid, None, Some(0));

    // Issue CID bytes X on path 1.
    let (x, rtx) = maker.create_cid_and_reset_token(16);
    assert_eq!(ids.mp_new_scid(1, x.clone(), rtx), Ok(0));

    // Re-issuing the same bytes on path 0 via the multipath shim must fail.
    assert_eq!(
        ids.mp_new_scid(0, x.clone(), rtx),
        Err(Error::InvalidState),
        "mp_new_scid(0) must reject CID bytes already in a per-path pool",
    );

    // Re-issuing the same bytes directly via new_scid must also fail.
    let other_token: u128 = rtx.wrapping_add(1);
    assert_eq!(
        ids.new_scid(x.clone(), Some(other_token), true, None, false),
        Err(Error::InvalidState),
        "new_scid must reject CID bytes already in a per-path pool",
    );
}

/// Issue 2: `mp_retire_dcid_seqs` must be bounded; once the cap is
/// reached, further inserts via `mp_mark_retire_dcid` must return
/// `Error::IdLimit`.
#[test]
fn mp_retire_dcid_seqs_bounded() {
    let mut maker = Maker::default();
    let (scid, _) = maker.create_cid_and_reset_token(16);
    let (dcid, _) = maker.create_cid_and_reset_token(16);

    // destination_conn_id_limit = 2 → cap = 2 * 3 = 6.
    let dcid_limit = 2usize;
    let cap = dcid_limit * (RETIRED_CONN_ID_LIMIT_MULTIPLIER as usize);

    let mut ids = ConnectionIdentifiers::new(dcid_limit, &scid, 0, None);
    ids.set_initial_dcid(dcid, None, Some(0));

    // Fill the set to the cap — all inserts must succeed.
    for seq in 0..cap as u64 {
        assert_eq!(
            ids.mp_mark_retire_dcid(1, seq, true),
            Ok(()),
            "insert {seq} should succeed (cap = {cap})",
        );
    }

    // One more insert must return IdLimit.
    assert_eq!(
        ids.mp_mark_retire_dcid(1, cap as u64, true),
        Err(Error::IdLimit),
        "insert past cap must return IdLimit",
    );

    // Re-inserting an already-present element at capacity (e.g., upon
    // frame retransmission) is not an error.
    assert_eq!(
        ids.mp_mark_retire_dcid(1, 0, true),
        Ok(()),
        "re-inserting a present element at cap must not error",
    );
}

/// `BoundedSeqSet::insert` must report success for an already-present
/// element even when the set is at capacity, so that e.g. re-receiving
/// a frame retiring an already-queued sequence number does not close
/// the connection. This exercises the legacy (`u64`) alias.
#[test]
fn retire_dcid_seqs_reinsert_at_capacity() {
    let mut maker = Maker::default();
    let (scid, _) = maker.create_cid_and_reset_token(16);
    let (dcid, _) = maker.create_cid_and_reset_token(16);

    // destination_conn_id_limit = 2 → cap = 2 * 3 = 6.
    let cap = 2 * RETIRED_CONN_ID_LIMIT_MULTIPLIER;

    let mut ids = ConnectionIdentifiers::new(2, &scid, 0, None);
    ids.set_initial_dcid(dcid, None, Some(0));

    for seq in 0..cap {
        assert_eq!(ids.mark_retire_dcid_seq(seq, true), Ok(()));
    }

    // A new element does not fit.
    assert_eq!(ids.mark_retire_dcid_seq(cap, true), Err(Error::IdLimit));

    // An already-present one is fine.
    assert_eq!(ids.mark_retire_dcid_seq(0, true), Ok(()));
    assert_eq!(ids.retire_dcid_seqs().len(), cap as usize);
}

/// Fix: the pending PATH_RETIRE_CONNECTION_ID set capacity must scale
/// with the number of per-path pools, so that a legitimate retirement
/// wave across several paths does not spuriously hit `IdLimit`.
#[test]
fn mp_retire_dcid_seqs_capacity_scales_with_pools() {
    let mut maker = Maker::default();
    let (scid, _) = maker.create_cid_and_reset_token(16);
    let (dcid, _) = maker.create_cid_and_reset_token(16);

    // destination_conn_id_limit = 2 → single-path cap = 2 * 3 = 6.
    let dcid_limit = 2usize;
    let single_cap = dcid_limit * (RETIRED_CONN_ID_LIMIT_MULTIPLIER as usize);

    let mut ids = ConnectionIdentifiers::new(dcid_limit, &scid, 0, None);
    ids.set_initial_dcid(dcid, None, Some(0));

    // Create 3 per-path pools.
    let mut retired = Vec::new();
    for path_id in 1..=3 {
        let (d, rt) = maker.create_cid_and_reset_token(16);
        assert_eq!(
            ids.mp_new_dcid(path_id, d, 0, rt, 0, &mut retired),
            Ok(())
        );
    }

    // With 3 pools the cap is (1 + 3) * 2 * 3 = 24.
    let scaled_cap = (1 + 3) * single_cap;

    // Drive retirements across all 3 paths, well beyond the single-path
    // cap of 6 (the 7th insert would fail without capacity scaling):
    // every insert up to the scaled cap must succeed.
    let per_path = (scaled_cap / 3) as u64;
    for seq in 0..per_path {
        for path_id in 1..=3 {
            assert_eq!(
                ids.mp_mark_retire_dcid(path_id, seq, true),
                Ok(()),
                "retire ({path_id}, {seq}) must fit in the scaled cap",
            );
        }
    }

    // The very next (new) insert exceeds the scaled cap.
    assert_eq!(
        ids.mp_mark_retire_dcid(1, per_path, true),
        Err(Error::IdLimit),
    );
}

/// `mp_new_dcid` must replicate `new_dcid`'s delayed-error handling:
/// when queueing a retired sequence number hits the set's capacity, the
/// drain still completes, the path's largest Retire Prior To advances
/// and the new DCID is inserted before the error is propagated.
#[test]
fn mp_new_dcid_retire_queue_error_is_delayed() {
    let mut maker = Maker::default();
    let (scid, _) = maker.create_cid_and_reset_token(16);
    let (dcid, _) = maker.create_cid_and_reset_token(16);

    let mut retired = Vec::new();

    let mut ids = ConnectionIdentifiers::new(2, &scid, 0, None);
    ids.set_initial_dcid(dcid, None, Some(0));

    // Populate path 1 with seqs 0 and 1 (creating the pool grows the
    // retire set capacity to (1 + 1) * 2 * 3 = 12).
    let (d0, rt0) = maker.create_cid_and_reset_token(16);
    let (d1, rt1) = maker.create_cid_and_reset_token(16);
    assert_eq!(ids.mp_new_dcid(1, d0, 0, rt0, 0, &mut retired), Ok(()));
    assert_eq!(ids.mp_new_dcid(1, d1, 1, rt1, 0, &mut retired), Ok(()));

    // Fill the retire set to its capacity with unrelated entries.
    for seq in 0..12 {
        assert_eq!(ids.mp_mark_retire_dcid(9, seq, true), Ok(()));
    }

    // Seq 2 with Retire Prior To 2 drains seqs 0 and 1, but queueing
    // them for PATH_RETIRE_CONNECTION_ID emission fails.
    let (d2, rt2) = maker.create_cid_and_reset_token(16);
    retired.clear();
    assert_eq!(
        ids.mp_new_dcid(1, d2.clone(), 2, rt2, 2, &mut retired),
        Err(Error::IdLimit)
    );

    // The drained entry that hit the error is still reported.
    assert_eq!(retired, vec![(1, 0, None)]);

    // Despite the error, the drain completed, the path's Retire Prior
    // To advanced and the new DCID was inserted.
    assert_eq!(ids.mp_largest_peer_retire_prior_to(1), 2);
    assert_eq!(ids.mp_active_destination_cids(1), 1);
    assert_eq!(ids.mp_get_dcid(1, 2).unwrap().cid, d2);
}

/// Retired entries reported by `mp_new_dcid` carry the (4-tuple) slab
/// path that was using them, if any, so that the caller can unlink and
/// re-fund the affected path.
#[test]
fn mp_new_dcid_reports_slab_link_of_retired_entries() {
    let mut maker = Maker::default();
    let (scid, _) = maker.create_cid_and_reset_token(16);
    let (dcid, _) = maker.create_cid_and_reset_token(16);

    let mut retired = Vec::new();

    let mut ids = ConnectionIdentifiers::new(2, &scid, 0, None);
    ids.set_initial_dcid(dcid, None, Some(0));

    let (d0, rt0) = maker.create_cid_and_reset_token(16);
    let (d1, rt1) = maker.create_cid_and_reset_token(16);
    assert_eq!(ids.mp_new_dcid(1, d0, 0, rt0, 0, &mut retired), Ok(()));
    assert_eq!(ids.mp_new_dcid(1, d1, 1, rt1, 0, &mut retired), Ok(()));

    // Link seq 0 to slab path 4; seq 1 stays unlinked.
    assert_eq!(ids.mp_link_dcid_to_path_id(1, 0, 4), Ok(()));

    // Retire both: the slab link must be surfaced for seq 0.
    let (d2, rt2) = maker.create_cid_and_reset_token(16);
    assert_eq!(ids.mp_new_dcid(1, d2, 2, rt2, 2, &mut retired), Ok(()));
    assert_eq!(retired, vec![(1, 0, Some(4)), (1, 1, None)]);
}

/// B1: retiring the sole SCID on a per-path pool must succeed; the pool
/// becomes empty, headroom opens up to the full limit, and the sequence
/// number space continues (no reuse of seq 0).
#[test]
fn mp_retire_last_per_path_scid_pool_empties() {
    let mut maker = Maker::default();
    let (scid, _) = maker.create_cid_and_reset_token(16);
    let (dcid, _) = maker.create_cid_and_reset_token(16);
    let other_cid = {
        let (c, _) = maker.create_cid_and_reset_token(16);
        c
    };

    let mut ids = ConnectionIdentifiers::new(2, &scid, 0, None);
    ids.set_source_conn_id_limit(2);
    ids.set_initial_dcid(dcid, None, Some(0));

    // Issue exactly 1 SCID on path 1.
    let (c0, rt0) = maker.create_cid_and_reset_token(16);
    assert_eq!(ids.mp_new_scid(1, c0.clone(), rt0), Ok(0));
    assert_eq!(ids.mp_scids_left(1), 1); // 2 limit, 1 active → 1 left

    // Retiring the only SCID must succeed (carried on another CID).
    assert_eq!(
        ids.mp_retire_scid(1, 0, &other_cid),
        Ok(Some(c0.clone())),
        "retiring the last per-path SCID must not error",
    );

    // The retired CID is surfaced to the application.
    assert_eq!(ids.pop_retired_scid(), Some(c0));
    assert_eq!(ids.pop_retired_scid(), None);

    // Pool is now empty: full headroom is available.
    assert_eq!(
        ids.mp_scids_left(1),
        2,
        "after draining the pool, full limit headroom must be available",
    );

    // Sequence number space continues; a fresh issue must use seq 1.
    let (c1, rt1) = maker.create_cid_and_reset_token(16);
    assert_eq!(
        ids.mp_new_scid(1, c1, rt1),
        Ok(1),
        "next issued SCID on path 1 must use seq 1, not reuse seq 0",
    );
}

/// `mp_scids_left` mirrors the legacy accounting per path: it reports
/// how many SCIDs can still be issued on the path, and increases when
/// one is retired (signalling that the application should supply a
/// replacement).
#[test]
fn mp_scids_left_per_path() {
    let mut maker = Maker::default();
    let (scid, _) = maker.create_cid_and_reset_token(16);
    let (dcid, _) = maker.create_cid_and_reset_token(16);

    let mut ids = ConnectionIdentifiers::new(2, &scid, 0, None);
    ids.set_source_conn_id_limit(3);
    ids.set_initial_dcid(dcid, None, Some(0));

    // Path 0 reports the legacy space: 1 active SCID out of 3.
    assert_eq!(ids.mp_scids_left(0), 2);

    // A path without a pool has the full budget available.
    assert_eq!(ids.mp_scids_left(1), 3);

    let (c0, rt0) = maker.create_cid_and_reset_token(16);
    let (c1, rt1) = maker.create_cid_and_reset_token(16);
    let (c2, rt2) = maker.create_cid_and_reset_token(16);
    assert_eq!(ids.mp_new_scid(1, c0.clone(), rt0), Ok(0));
    assert_eq!(ids.mp_new_scid(1, c1.clone(), rt1), Ok(1));
    assert_eq!(ids.mp_new_scid(1, c2, rt2), Ok(2));
    assert_eq!(ids.mp_scids_left(1), 0);

    // Retiring one frees one slot: a replacement is needed.
    assert_eq!(ids.mp_retire_scid(1, 1, &c0), Ok(Some(c1)));
    assert_eq!(ids.mp_scids_left(1), 1);

    // Other paths are not affected.
    assert_eq!(ids.mp_scids_left(2), 3);
    assert_eq!(ids.mp_scids_left(0), 2);
}
