//! Schedulers: what holds of their choices; nonces; reinjection; snapshots.

use quiche_multipath::multipath::path_info::{refresh_path_info, PathSnapshot};
use quiche_multipath::multipath::pktns::compute_nonce_mp;
use quiche_multipath::multipath::reinjection::{
    best_alternative_srtt, decide, past_threshold, settle, ReinjectionCandidate, ReinjectionContext,
    ReinjectionMode, StreamQosHint,
};
use quiche_multipath::multipath::scheduler::{
    LossRate, PacketContentType, PacketMeta, PathInfo, Scheduler, SchedulerConnEvent,
    SchedulerDecision, SchedulerFactory, SchedulerPathEvent,
};
use quiche_multipath::multipath::schedulers::{
    MinRttScheduler, MinRttSchedulerFactory, RoundRobinScheduler, RoundRobinSchedulerFactory,
};
use quiche_multipath::net::SocketAddr;
use quiche_multipath::path::{PathAppStatus, PathState};

const NOW: u128 = 1_000;

fn path(path_id: u64, srtt: u128, next_send_time: Option<u128>, app_status: PathAppStatus) -> PathInfo {
    PathInfo {
        path_id,
        local_addr: SocketAddr::v4([127, 0, 0, 1], 1),
        peer_addr: SocketAddr::v4([127, 0, 0, 1], 2),
        state: PathState::Validated,
        app_status,
        srtt,
        rttvar: 1,
        min_rtt: None,
        cwnd: 100,
        cwnd_available: 50,
        bytes_in_flight: 50,
        est_bandwidth_bps: None,
        loss_rate: LossRate { lost: 0, total: 0 },
        mtu: 1200,
        next_send_time,
        pacing_rate_bps: None,
    }
}

fn packet(original_path_id: Option<u64>) -> PacketMeta {
    PacketMeta {
        packet_type: PacketContentType::Stream,
        size_estimate: 1200,
        is_retransmission: false,
        is_reinjection: original_path_id.is_some(),
        original_path_id,
        now: NOW,
    }
}

const AVAILABLE: PathAppStatus = PathAppStatus::Available;
const BACKUP: PathAppStatus = PathAppStatus::Backup;

#[test]
fn minrtt_prefers_ready_backup_to_delayed_available() {
    let mut sched = MinRttScheduler;
    let delayed = path(0, 1, Some(NOW + 1), AVAILABLE);
    let backup = path(1, 99, None, BACKUP);
    let decide = |s: &mut MinRttScheduler, ps: &[PathInfo]| s.select_path(ps, &packet(None));
    assert_eq!(decide(&mut sched, &[delayed, backup]), SchedulerDecision::Send(1));
    // Among delayed ones Available comes before Backup.
    let late = path(1, 99, Some(NOW + 1), BACKUP);
    let later = path(0, 1, Some(NOW + 9), AVAILABLE);
    assert_eq!(decide(&mut sched, &[late, later]), SchedulerDecision::Send(0));
    assert_eq!(decide(&mut sched, &[late]), SchedulerDecision::Send(1));
    // A time that has come is ready.
    let due = path(4, 100, Some(NOW), AVAILABLE);
    assert_eq!(decide(&mut sched, &[later, due]), SchedulerDecision::Send(4));
}

#[test]
fn minrtt_takes_the_first_of_equals() {
    let mut sched = MinRttSchedulerFactory.create();
    let ps = [path(3, 10, None, AVAILABLE), path(2, 10, None, AVAILABLE)];
    assert_eq!(sched.select_path(&ps, &packet(None)), SchedulerDecision::Send(3));
    let ps = [path(3, 10, Some(NOW + 5), AVAILABLE), path(2, 1, Some(NOW + 5), AVAILABLE)];
    assert_eq!(sched.select_path(&ps, &packet(None)), SchedulerDecision::Send(3));
}

#[test]
fn schedulers_take_events() {
    let mut sched = MinRttScheduler::default();
    sched.on_path_event(SchedulerPathEvent::Activated(1));
    sched.on_conn_event(SchedulerConnEvent::RoundStart);
    assert_eq!(sched.select_path(&[], &packet(None)), SchedulerDecision::NoAvailablePath);
}

#[test]
fn round_robin_is_fair() {
    let mut sched = RoundRobinSchedulerFactory.create();
    let ps: Vec<PathInfo> = (0..5).map(|i| path(i, 1, None, AVAILABLE)).collect();
    let mut counts = [0; 5];
    for k in 0..20 {
        match sched.select_path(&ps, &packet(None)) {
            SchedulerDecision::Send(id) => {
                assert_eq!(id, k % 5);
                counts[id as usize] += 1;
            }
            other => panic!("{other:?}"),
        }
    }
    assert_eq!(counts, [4; 5]);
}

#[test]
fn round_robin_keeps_its_turn_across_events() {
    let mut sched = RoundRobinScheduler::default();
    let ps: Vec<PathInfo> = (0..3).map(|i| path(i, 1, None, AVAILABLE)).collect();
    assert_eq!(sched.select_path(&ps, &packet(None)), SchedulerDecision::Send(0));
    sched.on_path_event(SchedulerPathEvent::Lost(1));
    sched.on_conn_event(SchedulerConnEvent::RoundEnd);
    assert_eq!(sched.select_path(&ps, &packet(None)), SchedulerDecision::Send(1));
}

#[test]
fn round_robin_falls_back_tier_by_tier() {
    let mut sched = RoundRobinScheduler::default();
    let delayed = path(0, 1, Some(NOW + 1), AVAILABLE);
    let backup = path(1, 1, None, BACKUP);
    assert_eq!(sched.select_path(&[backup, delayed], &packet(None)), SchedulerDecision::Send(0));
    assert_eq!(sched.select_path(&[backup], &packet(None)), SchedulerDecision::Send(1));
    let mut blocked = delayed;
    blocked.cwnd_available = 0;
    assert_eq!(sched.select_path(&[blocked], &packet(None)), SchedulerDecision::AllBlocked);
    blocked.state = PathState::ValidatingMTU;
    assert_eq!(sched.select_path(&[blocked], &packet(None)), SchedulerDecision::NoAvailablePath);
}

#[test]
fn reinjection_prefers_backup_to_the_original_path() {
    let mut sched = RoundRobinScheduler::default();
    let ps = [path(0, 1, None, AVAILABLE), path(1, 1, None, BACKUP)];
    assert_eq!(sched.select_path(&ps, &packet(Some(0))), SchedulerDecision::Send(1));
    assert_eq!(sched.select_path(&ps, &packet(Some(7))), SchedulerDecision::Send(0));
}

#[test]
fn nonces_of_different_packets_differ() {
    let iv = [7; 12];
    let mut seen = Vec::new();
    for path_id in [0, 1, 256, u32::MAX] {
        for pn in [0, 1, 255, 256, (1 << 62) - 1] {
            let n = compute_nonce_mp(&iv, pn, path_id);
            assert!(!seen.contains(&n));
            seen.push(n);
        }
    }
    assert_eq!(
        compute_nonce_mp(&[0xf0; 12], 0x0102, 0x03),
        [0xf0, 0xf0, 0xf0, 0xf3, 0xf0, 0xf0, 0xf0, 0xf0, 0xf0, 0xf0, 0xf1, 0xf2],
    );
}

fn candidate(original_path_id: u64, is_already_reinjected: bool) -> ReinjectionCandidate {
    ReinjectionCandidate {
        packet_number: 1,
        original_path_id,
        sent_time: 0,
        size: 1200,
        content_type: PacketContentType::Stream,
        is_already_reinjected,
    }
}

fn hint(deadline: Option<u128>, redundant: bool) -> StreamQosHint {
    StreamQosHint { stream_id: 4, deadline, priority: 0, redundant }
}

#[test]
fn reinjection_is_settled_without_times() {
    assert_eq!(ReinjectionMode::default(), ReinjectionMode::AfterScheduling);
    assert_eq!(settle(&candidate(0, true), Some(&hint(None, true))), Some(false));
    assert_eq!(settle(&candidate(0, false), Some(&hint(None, true))), Some(true));
    assert_eq!(settle(&candidate(0, false), Some(&hint(None, false))), None);
    assert_eq!(settle(&candidate(0, false), None), None);
}

#[test]
fn reinjection_threshold() {
    let original = path(0, 100, None, AVAILABLE);
    let mut blocked = path(1, 10, None, AVAILABLE);
    blocked.cwnd_available = 0;
    let other = path(2, 40, None, AVAILABLE);
    let all = [original, blocked, other, path(3, 60, None, BACKUP)];
    assert_eq!(best_alternative_srtt(&all, 0, 100), 40);
    assert_eq!(best_alternative_srtt(&all[..2], 0, 100), 100);

    let decide = |elapsed: u128, deadline: Option<u128>, base: u128, adjusted: u128| {
        let h = hint(deadline, false);
        let ctx = ReinjectionContext {
            original_path: &original,
            all_paths: &all,
            elapsed_since_sent: elapsed,
            qos_hint: Some(&h),
        };
        past_threshold(&candidate(0, false), &ctx, base, adjusted)
    };
    assert!(!decide(150, None, 150, 1));
    assert!(decide(151, None, 150, 1));
    // The deadline of 100 less the best alternative of 40 leaves 60.
    assert!(!decide(60, Some(100), 150, 90));
    assert!(decide(61, Some(100), 150, 90));
    // The adjusted threshold comes first.
    assert!(!decide(20, Some(100), 150, 20));
    assert!(decide(21, Some(100), 150, 20));
    // A deadline that cannot be made is due at once.
    assert!(decide(1, Some(30), 150, 90));
    assert!(!decide(0, Some(30), 150, 90));
}

#[test]
fn snapshots_leave_closing_paths_out() {
    let open = PathSnapshot {
        path_id: 7,
        local_addr: SocketAddr::v4([10, 0, 0, 1], 1),
        peer_addr: SocketAddr::v4([10, 0, 0, 2], 2),
        state: PathState::Validated,
        app_status: PathAppStatus::Backup,
        mp_closing: false,
        mp_closed: false,
        rtt: 11,
        rttvar: 12,
        min_rtt: Some(13),
        cwnd: 14,
        cwnd_available: 15,
        bytes_in_flight: 16,
        delivery_rate_bps: 17,
        total_acked_bytes: 18,
        bytes_lost: 2,
        max_datagram_size: 1350,
        next_send_time: Some(19),
        pacing_rate: 20,
    };
    let closing = PathSnapshot { path_id: 8, mp_closing: true, ..open };
    let closed = PathSnapshot { path_id: 9, mp_closed: true, ..open };
    let mut buf = vec![path(1, 1, None, AVAILABLE)];
    refresh_path_info(&[closing, open, closed], &mut buf);
    assert_eq!(buf.len(), 1);
    let p = buf[0];
    assert_eq!((p.path_id, p.srtt, p.rttvar, p.min_rtt), (7, 11, 12, Some(13)));
    assert_eq!((p.cwnd, p.cwnd_available, p.bytes_in_flight), (14, 15, 16));
    assert_eq!(p.loss_rate, LossRate { lost: 2, total: 20 });
    assert_eq!((p.est_bandwidth_bps, p.pacing_rate_bps), (Some(17), Some(160)));
    assert_eq!((p.mtu, p.next_send_time), (1350, Some(19)));
    assert_eq!(p.peer_addr, open.peer_addr);
}

#[test]
fn reinjection_is_decided_by_what_is_settled_first() {
    let original = path(0, 100, None, AVAILABLE);
    let all = [original];
    let decided = |already: bool, redundant: bool, elapsed: u128| {
        let h = hint(None, redundant);
        let ctx = ReinjectionContext {
            original_path: &original,
            all_paths: &all,
            elapsed_since_sent: elapsed,
            qos_hint: Some(&h),
        };
        decide(&candidate(0, already), &ctx, 150, 150)
    };
    assert!(!decided(true, true, 500));
    assert!(decided(false, true, 0));
    assert!(!decided(false, false, 150));
    assert!(decided(false, false, 151));
}
