//! Connection ID management: edge cases and what holds across operations.

use quiche_multipath::bounded::BoundedSeqSet;
use quiche_multipath::cid::entries::ConnectionIdEntry;
use quiche_multipath::cid::queue::BoundedNonEmptyConnectionIdVecDeque;
use quiche_multipath::cid::retired::RetiredPathIds;
use quiche_multipath::cid::ConnectionIdentifiers;
use quiche_multipath::error::Error;
use quiche_multipath::frame::Frame;
use quiche_multipath::packet::ConnectionId;

fn cid(n: u8) -> ConnectionId {
    ConnectionId::from_vec(vec![n; 8])
}

fn ids(limit: usize) -> ConnectionIdentifiers {
    let mut ids = ConnectionIdentifiers::new(limit, &cid(1), 0, None);
    ids.set_initial_dcid(cid(2), None, Some(0));
    ids
}

#[test]
fn connection_id_equality_is_by_bytes() {
    assert_eq!(cid(3), ConnectionId::from_ref(&[3; 8]));
    assert_ne!(cid(3), cid(4));
    assert_ne!(cid(3), ConnectionId::from_ref(&[3; 7]));
    assert!(ConnectionId::default().is_empty());
    assert_eq!(cid(5).to_vec(), vec![5; 8]);
    assert_eq!(cid(5).as_slice(), &[5; 8]);
    assert_eq!(cid(5).clone(), cid(5));
}

#[test]
fn bounded_set_limits_new_elements_only() {
    let mut set: BoundedSeqSet<u64> = BoundedSeqSet::new(2);
    assert_eq!(set.insert(7), Ok(true));
    assert_eq!(set.insert(8), Ok(true));
    assert_eq!(set.insert(9), Err(Error::IdLimit));
    assert_eq!(set.insert(7), Ok(false));
    set.set_capacity(1);
    assert_eq!(set.insert(9), Err(Error::IdLimit));
    set.set_capacity(3);
    assert_eq!(set.insert(9), Ok(true));
    assert!(set.remove(&8));
    assert!(!set.remove(&8));
    let mut left = set.elements();
    left.sort();
    assert_eq!(left, vec![7, 9]);
    set.clear();
    assert!(set.is_empty());
}

#[test]
fn bounded_set_drops_the_pairs_of_a_path() {
    let mut set: BoundedSeqSet<(u64, u64)> = BoundedSeqSet::new(8);
    for pair in [(1, 0), (2, 0), (1, 1), (3, 1), (1, 2)] {
        assert_eq!(set.insert(pair), Ok(true));
    }
    set.remove_path(1);
    let mut left = set.elements();
    left.sort();
    assert_eq!(left, vec![(2, 0), (3, 1)]);
}

#[test]
fn queue_replaces_entries_with_the_same_sequence_number() {
    let entry = |seq: u64, n: u8| ConnectionIdEntry {
        cid: cid(n),
        seq,
        reset_token: None,
        path_id: None,
    };
    let mut q = BoundedNonEmptyConnectionIdVecDeque::new(2, entry(0, 1));
    assert_eq!(q.insert(entry(1, 2)), Ok(()));
    assert_eq!(q.insert(entry(2, 3)), Err(Error::IdLimit));
    assert_eq!(q.insert(entry(0, 9)), Ok(()));
    assert_eq!(q.len(), 2);
    assert_eq!(q.get_oldest().cid, cid(9));
    assert_eq!(q.at(1).cid, cid(2));
    q.resize(1);
    assert_eq!(q.capacity(), 2);
    assert_eq!(q.remove(5).unwrap().map(|e| e.seq), None);
    assert_eq!(q.remove(0).unwrap().map(|e| e.cid), Some(cid(9)));
    assert!(matches!(q.remove(1), Err(Error::OutOfIdentifiers)));
    assert_eq!(q.remove_allow_empty(1).map(|e| e.seq), Some(1));
    assert_eq!(q.len(), 0);
    q.clear_and_insert(entry(4, 4));
    q.clear_allow_empty();
    assert_eq!(q.len(), 0);
}

#[test]
fn entry_default_is_empty() {
    let e = ConnectionIdEntry::default();
    assert!(e.cid.is_empty());
    assert_eq!((e.seq, e.reset_token, e.path_id), (0, None, None));
}

#[test]
fn zero_length_ids_cannot_be_added() {
    let empty = ConnectionId::default();
    let mut ids = ConnectionIdentifiers::new(2, &empty, 0, None);
    assert!(ids.zero_length_scid());
    assert_eq!(ids.new_scid(cid(1), Some(1), true, None, false), Err(Error::InvalidState));
    assert_eq!(ids.mp_new_scid(1, cid(1), 1), Err(Error::InvalidState));

    ids.set_initial_dcid(ConnectionId::default(), None, Some(0));
    assert!(ids.zero_length_dcid());
    let mut retired = RetiredPathIds::new();
    assert_eq!(ids.new_dcid(cid(3), 1, 1, 0, &mut retired), Err(Error::InvalidState));
    assert_eq!(ids.retire_dcid(0), Err(Error::InvalidState));
    assert_eq!(ids.mp_retire_dcid(1, 0), Err(Error::InvalidState));
    assert_eq!(ids.available_dcids(), 0);
}

#[test]
fn missing_reset_token_is_refused() {
    let mut ids = ids(2);
    assert_eq!(ids.new_scid(cid(3), None, true, None, false), Err(Error::InvalidState));
    assert_eq!(ids.active_source_cids(), 1);
}

#[test]
fn known_source_cid_is_not_added_again() {
    let mut ids = ids(2);
    ids.set_source_conn_id_limit(4);
    assert_eq!(ids.new_scid(cid(3), Some(5), true, None, false), Ok(1));
    assert_eq!(ids.new_scid(cid(3), Some(5), true, None, false), Ok(1));
    assert_eq!(ids.new_scid(cid(3), Some(6), true, None, false), Err(Error::InvalidState));
    assert_eq!(ids.active_source_cids(), 2);
}

#[test]
fn renewal_raises_retire_prior_to() {
    let mut ids = ids(2);
    assert_eq!(ids.new_scid(cid(3), Some(5), true, None, false), Ok(1));
    assert_eq!(ids.new_scid(cid(4), Some(6), true, None, false), Err(Error::IdLimit));
    assert_eq!(ids.lowest_usable_scid_seq(), Ok(0));
    assert_eq!(ids.new_scid(cid(4), Some(6), true, None, true), Ok(2));
    assert_eq!(ids.lowest_usable_scid_seq(), Ok(1));
    match ids.get_new_connection_id_frame_for(2) {
        Ok(Frame::NewConnectionId { seq_num, retire_prior_to, conn_id, reset_token }) => {
            assert_eq!((seq_num, retire_prior_to), (2, 1));
            assert_eq!(conn_id, vec![4; 8]);
            assert_eq!(reset_token, 6u128.to_be_bytes());
        }
        other => panic!("{other:?}"),
    }
    // No more than (2 * 2 - 1) are tracked, and those that were not told to the
    // peer cannot be retired.
    assert_eq!(ids.new_scid(cid(5), Some(7), true, None, true), Err(Error::IdLimit));
}

#[test]
fn retirement_by_the_carrying_packet_is_refused() {
    let mut ids = ids(2);
    assert_eq!(ids.new_scid(cid(3), Some(5), true, None, false), Ok(1));
    assert_eq!(ids.retire_scid(1, &cid(3)), Err(Error::InvalidState));
    assert_eq!(ids.active_source_cids(), 1);
    assert_eq!(ids.retired_source_cids(), 0);
    assert_eq!(ids.retire_scid(7, &cid(1)), Err(Error::InvalidState));
    assert_eq!(ids.retire_scid(0, &cid(9)), Err(Error::OutOfIdentifiers));
}

#[test]
fn frame_of_an_unknown_cid_is_an_error() {
    let ids = ids(2);
    // The initial one has no reset token.
    assert_eq!(ids.get_new_connection_id_frame_for(0), Err(Error::InvalidState));
    assert_eq!(ids.get_new_connection_id_frame_for(1), Err(Error::InvalidState));
    assert_eq!(ids.mp_get_path_new_connection_id_frame_for(3, 0), Err(Error::InvalidState));
    assert_eq!(ids.mp_get_path_new_connection_id_frame_for(0, 0), Err(Error::InvalidState));
}

#[test]
fn lookups_find_what_was_added() {
    let mut ids = ids(3);
    ids.set_source_conn_id_limit(3);
    ids.new_scid(cid(3), Some(5), false, Some(4), false).unwrap();
    assert_eq!(ids.find_scid_seq(&cid(3)), Some((1, Some(4))));
    assert_eq!(ids.find_scid_seq(&cid(8)), None);
    assert_eq!(ids.get_scid(1).unwrap().cid, cid(3));
    assert!(matches!(ids.get_scid(2), Err(Error::InvalidState)));
    assert_eq!(ids.get_dcid(0).unwrap().cid, cid(2));
    assert!(matches!(ids.get_dcid(2), Err(Error::InvalidState)));
    assert_eq!(ids.oldest_scid().cid, cid(1));
    assert_eq!(ids.oldest_dcid().cid, cid(2));
    assert_eq!(ids.scids_iter(), vec![cid(1), cid(3)]);
    assert_eq!(ids.link_scid_to_path_id(1, 6), Ok(()));
    assert_eq!(ids.find_scid_seq(&cid(3)), Some((1, Some(6))));
    assert_eq!(ids.link_scid_to_path_id(5, 6), Err(Error::InvalidState));
    assert_eq!(ids.link_dcid_to_path_id(5, 6), Err(Error::InvalidState));
}

#[test]
fn repeated_announcement_changes_nothing() {
    let mut ids = ids(2);
    let mut retired = RetiredPathIds::new();
    assert_eq!(ids.new_dcid(cid(3), 1, 7, 1, &mut retired), Ok(()));
    assert_eq!(retired.as_slice(), &[(0, 0)]);
    assert_eq!(ids.new_dcid(cid(3), 1, 7, 1, &mut retired), Ok(()));
    assert_eq!(retired.as_slice(), &[(0, 0)]);
    assert_eq!(ids.active_destination_cids(), 1);
    // Another token, another number or another connection ID contradict it.
    assert_eq!(ids.new_dcid(cid(3), 1, 8, 1, &mut retired), Err(Error::InvalidFrame));
    assert_eq!(ids.new_dcid(cid(3), 2, 7, 1, &mut retired), Err(Error::InvalidFrame));
    assert_eq!(ids.new_dcid(cid(4), 1, 7, 1, &mut retired), Err(Error::InvalidFrame));
    assert_eq!(ids.new_dcid(cid(4), 2, 7, 3, &mut retired), Err(Error::InvalidFrame));
}

#[test]
fn every_older_number_is_retired() {
    // The queue holds 0, 2, 1: both 0 and 1 are below 2.
    let mut ids = ids(4);
    let mut retired = RetiredPathIds::new();
    assert_eq!(ids.new_dcid(cid(3), 2, 7, 0, &mut retired), Ok(()));
    assert_eq!(ids.new_dcid(cid(4), 1, 8, 0, &mut retired), Ok(()));
    ids.link_dcid_to_path_id(1, 6).unwrap();
    assert_eq!(ids.new_dcid(cid(5), 3, 9, 2, &mut retired), Ok(()));
    assert_eq!(retired.as_slice(), &[(0, 0), (1, 6)]);
    assert!(ids.get_dcid(0).is_err());
    assert!(ids.get_dcid(1).is_err());
    assert!(ids.get_dcid(2).is_ok());
    assert!(ids.get_dcid(3).is_ok());
    assert_eq!(ids.retire_dcid_seqs(), [0, 1].into());
}

#[test]
fn every_older_number_of_a_path_is_retired() {
    let mut ids = ids(4);
    let mut retired = Vec::new();
    for seq in [3, 2] {
        assert_eq!(ids.mp_new_dcid(5, cid(20 + seq as u8), seq, 1, 0, &mut retired), Ok(()));
    }
    assert_eq!(ids.mp_new_dcid(6, cid(30), 0, 1, 0, &mut retired), Ok(()));
    assert_eq!(ids.mp_new_dcid(5, cid(24), 4, 1, 3, &mut retired), Ok(()));
    assert_eq!(retired, vec![(5, 2, None)]);
    assert_eq!(ids.mp_retire_dcid_seqs(), vec![(5, 2)]);
    assert!(ids.mp_get_dcid(5, 2).is_err());
    assert!(ids.mp_get_dcid(5, 3).is_ok());
    assert!(ids.mp_get_dcid(5, 4).is_ok());
    assert!(ids.mp_get_dcid(6, 0).is_ok());
}

#[test]
fn queue_limit_is_reported_after_insertion() {
    // Three times the limit of 2 retirements can be pending.
    let mut ids = ids(2);
    for seq in 100..106 {
        assert_eq!(ids.mark_retire_dcid_seq(seq, true), Ok(()));
    }
    let mut retired = RetiredPathIds::new();
    assert_eq!(ids.new_dcid(cid(3), 1, 7, 1, &mut retired), Err(Error::IdLimit));
    assert_eq!(retired.as_slice(), &[(0, 0)]);
    assert_eq!(ids.get_dcid(1).unwrap().cid, cid(3));
    assert!(ids.get_dcid(0).is_err());
    assert_eq!(ids.mp_largest_peer_retire_prior_to(0), 1);
}

#[test]
fn retirement_frees_room_for_a_replacement() {
    let mut ids = ids(2);
    assert_eq!(ids.mp_new_scid(1, cid(10), 1), Ok(0));
    assert_eq!(ids.mp_new_scid(1, cid(11), 2), Ok(1));
    assert_eq!(ids.mp_scids_left(1), 0);
    assert_eq!(ids.mp_new_scid(1, cid(12), 3), Err(Error::IdLimit));
    assert_eq!(ids.mp_retire_scid(1, 0, &cid(11)), Ok(Some(cid(10))));
    assert_eq!(ids.pop_retired_scid(), Some(cid(10)));
    assert_eq!(ids.mp_scids_left(1), 1);
    assert_eq!(ids.mp_new_scid(1, cid(12), 3), Ok(2));
    // The bytes of a retired one may be used again.
    assert_eq!(ids.mp_retire_scid(1, 1, &cid(12)), Ok(Some(cid(11))));
    assert_eq!(ids.mp_new_scid(2, cid(11), 4), Ok(0));
}

#[test]
fn abandoned_path_keeps_source_cids_only() {
    let mut ids = ids(2);
    let mut retired = Vec::new();
    ids.mp_new_scid(1, cid(10), 1).unwrap();
    ids.mp_new_dcid(1, cid(20), 0, 1, 0, &mut retired).unwrap();
    ids.mp_new_dcid(2, cid(21), 0, 1, 0, &mut retired).unwrap();
    ids.mp_mark_retire_dcid(1, 5, true).unwrap();
    ids.mp_mark_retire_dcid(2, 6, true).unwrap();
    ids.mp_retire_dcid_pool(1);
    assert_eq!(ids.mp_active_destination_cids(1), 0);
    assert_eq!(ids.mp_active_destination_cids(2), 1);
    assert_eq!(ids.mp_get_scid(1, 0).unwrap().cid, cid(10));
    assert_eq!(ids.mp_retire_dcid_seqs(), vec![(2, 6)]);

    ids.mark_retire_dcid_seq(3, true).unwrap();
    ids.mp_retire_dcid_pool(0);
    assert!(!ids.has_retire_dcids());
    assert_eq!(ids.active_destination_cids(), 1);
}

#[test]
fn removed_path_leaves_nothing() {
    let mut ids = ids(2);
    let mut retired = Vec::new();
    ids.mp_new_scid(1, cid(10), 1).unwrap();
    ids.mp_new_scid(2, cid(11), 1).unwrap();
    ids.mp_new_dcid(1, cid(20), 0, 1, 0, &mut retired).unwrap();
    ids.mp_mark_retire_dcid(1, 5, true).unwrap();
    ids.mp_remove_path_pools(1);
    assert_eq!(ids.mp_pools_path_ids(), vec![2]);
    assert_eq!(ids.mp_find_scid(&cid(10)), None);
    assert_eq!(ids.mp_next_advertise_new_scid(), Some((2, 0)));
    assert!(!ids.mp_has_retire_dcids());
    assert_eq!(ids.mp_next_scid_seq(1), 0);
    // Path 0 stays.
    ids.mp_remove_path_pools(0);
    assert_eq!(ids.active_source_cids(), 1);
}

#[test]
fn next_expected_dcid_follows_the_largest() {
    let mut ids = ids(3);
    let mut retired = Vec::new();
    assert_eq!(ids.mp_next_expected_dcid_seq(1), 0);
    ids.mp_new_scid(1, cid(9), 1).unwrap();
    assert_eq!(ids.mp_next_expected_dcid_seq(1), 0);
    ids.mp_new_dcid(1, cid(20), 0, 1, 0, &mut retired).unwrap();
    assert_eq!(ids.mp_next_expected_dcid_seq(1), 1);
    ids.mp_new_dcid(1, cid(21), 4, 1, 0, &mut retired).unwrap();
    assert_eq!(ids.mp_next_expected_dcid_seq(1), 5);
}

#[test]
fn path_frame_carries_the_token_of_its_path() {
    let mut ids = ids(2);
    ids.mp_new_scid(4, cid(10), 0xabcd).unwrap();
    assert_eq!(
        ids.mp_get_path_new_connection_id_frame_for(4, 0),
        Ok(Frame::PathNewConnectionId {
            path_id: 4,
            seq_num: 0,
            retire_prior_to: 0,
            conn_id: vec![10; 8],
            reset_token: 0xabcd,
        }),
    );
}

#[test]
fn next_advertised_stays_until_taken_away() {
    let mut ids = ids(2);
    ids.mark_advertise_new_scid_seq(4, true);
    ids.mark_advertise_new_scid_seq(5, true);
    assert_eq!(ids.next_advertise_new_scid_seq(), Some(4));
    ids.mark_advertise_new_scid_seq(5, false);
    ids.mark_advertise_new_scid_seq(6, true);
    assert_eq!(ids.next_advertise_new_scid_seq(), Some(4));
    ids.mark_advertise_new_scid_seq(4, false);
    assert_eq!(ids.next_advertise_new_scid_seq(), Some(6));
}

#[test]
fn limits_below_two_are_ignored() {
    let mut ids = ConnectionIdentifiers::new(0, &cid(1), 0, None);
    ids.set_initial_dcid(cid(2), None, Some(0));
    let mut retired = RetiredPathIds::new();
    // The destination limit is at least 2.
    assert_eq!(ids.new_dcid(cid(3), 1, 7, 0, &mut retired), Ok(()));
    assert_eq!(ids.new_dcid(cid(4), 2, 7, 0, &mut retired), Err(Error::IdLimit));
    ids.set_source_conn_id_limit(1);
    assert_eq!(ids.mp_scids_left(0), 1);
    ids.set_source_conn_id_limit(u64::MAX);
    assert_eq!(ids.mp_scids_left(0), usize::MAX / 2 - 1);
}

#[test]
fn scids_are_issued_up_to_the_limit_of_each_path() {
    let mut ids = ids(4);
    ids.set_source_conn_id_limit(3);
    let mut next = 10;
    for path_id in [0, 1, 7] {
        while ids.mp_scids_left(path_id) > 0 {
            assert!(ids.mp_new_scid(path_id, cid(next), 1).is_ok());
            next += 1;
        }
        assert_eq!(ids.mp_new_scid(path_id, cid(next), 1), Err(Error::IdLimit));
    }
    // Two more on path 0, three on each of the others.
    assert_eq!(next, 18);
}

#[test]
fn dcid_limit_applies_to_each_path() {
    let mut ids = ids(2);
    let mut retired = Vec::new();
    assert_eq!(ids.mp_new_dcid(0, cid(10), 1, 1, 0, &mut retired), Ok(()));
    for path_id in [0, 5, 6] {
        for seq in 0..2 {
            if path_id != 0 {
                let c = cid(20 + 2 * path_id as u8 + seq as u8);
                assert_eq!(ids.mp_new_dcid(path_id, c, seq, 1, 0, &mut retired), Ok(()));
            }
        }
        assert_eq!(ids.mp_new_dcid(path_id, cid(99), 2, 1, 0, &mut retired), Err(Error::IdLimit));
        assert_eq!(ids.mp_active_destination_cids(path_id), 2);
    }
}

#[test]
fn available_dcids_are_counted_by_path() {
    let mut ids = ids(3);
    let mut retired = Vec::new();
    assert_eq!(ids.mp_available_dcids(0), 0);
    assert_eq!(ids.mp_available_dcids(4), 0);
    for seq in 0..3 {
        ids.mp_new_dcid(4, cid(30 + seq as u8), seq, 1, 0, &mut retired).unwrap();
    }
    ids.mp_new_dcid(0, cid(40), 1, 1, 0, &mut retired).unwrap();
    assert_eq!((ids.mp_available_dcids(0), ids.mp_available_dcids(4)), (1, 3));
    ids.mp_link_dcid_to_path_id(4, 1, 8).unwrap();
    assert_eq!((ids.mp_available_dcids(0), ids.mp_available_dcids(4)), (1, 2));
}

#[test]
fn pools_stay_until_they_are_removed() {
    let mut ids = ids(4);
    let mut retired = Vec::new();
    assert_eq!(ids.mp_pools_path_ids(), vec![]);
    ids.mp_new_scid(0, cid(40), 1).unwrap();
    ids.mp_new_dcid(9, cid(41), 0, 1, 0, &mut retired).unwrap();
    ids.mp_new_scid(4, cid(42), 1).unwrap();
    assert_eq!(ids.mp_pools_path_ids(), vec![4, 9]);
    ids.mp_retire_scid(4, 0, &cid(99)).unwrap();
    ids.mp_retire_dcid_pool(9);
    ids.mp_remove_path_pools(0);
    assert_eq!(ids.mp_pools_path_ids(), vec![4, 9]);
    ids.mp_remove_path_pools(4);
    assert_eq!(ids.mp_pools_path_ids(), vec![9]);
}

#[test]
fn scids_left_counts_what_can_be_issued() {
    for path_id in [0, 6] {
        let mut ids = ids(4);
        ids.set_source_conn_id_limit(5);
        ids.mp_new_scid(9, cid(90), 1).unwrap();
        let others = [ids.mp_scids_left(9), ids.mp_scids_left(7)];
        let n = ids.mp_scids_left(path_id);
        for k in 0..n {
            assert_eq!(ids.mp_scids_left(path_id), n - k);
            assert!(ids.mp_new_scid(path_id, cid(20 + k as u8), 1).is_ok());
        }
        assert_eq!(ids.mp_scids_left(path_id), 0);
        assert_eq!(ids.mp_new_scid(path_id, cid(60), 1), Err(Error::IdLimit));
        assert_eq!(ids.mp_new_scid(path_id, cid(61), 1), Err(Error::IdLimit));
        assert_eq!([ids.mp_scids_left(9), ids.mp_scids_left(7)], others);
    }
}
