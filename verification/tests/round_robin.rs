//! RoundRobin scheduler.

use quiche_multipath::multipath::scheduler::{
    LossRate, PacketContentType, PacketMeta, PathInfo, Scheduler, SchedulerDecision,
};
use quiche_multipath::multipath::schedulers::RoundRobinScheduler;
use quiche_multipath::net::SocketAddr;
use quiche_multipath::path::{PathAppStatus, PathState};
use std::time::Duration;

/// The current time, in nanoseconds.
const NOW: u128 = 1_000_000_000;

fn make_path(id: u64, srtt_ms: u64, cwnd_avail: usize,
             status: PathAppStatus) -> PathInfo {
    PathInfo {
        path_id: id,
        local_addr: SocketAddr::v4([127, 0, 0, 1], 1234),
        peer_addr: SocketAddr::v4([127, 0, 0, 1], 5678),
        state: PathState::Validated,
        app_status: status,
        srtt: Duration::from_millis(srtt_ms).as_nanos(),
        rttvar: Duration::from_millis(5).as_nanos(),
        min_rtt: Some(Duration::from_millis(srtt_ms).as_nanos()),
        cwnd: 65535,
        cwnd_available: cwnd_avail,
        bytes_in_flight: 0,
        est_bandwidth_bps: None,
        loss_rate: LossRate { lost: 0, total: 0 },
        mtu: 1200,
        next_send_time: None,
        pacing_rate_bps: None,
    }
}

fn default_packet() -> PacketMeta {
    PacketMeta {
        packet_type: PacketContentType::Stream,
        size_estimate: 1200,
        is_retransmission: false,
        is_reinjection: false,
        original_path_id: None,
        now: NOW,
    }
}

#[test]
fn round_robin_distributes_evenly() {
    let mut sched = RoundRobinScheduler::default();
    let paths = vec![
        make_path(0, 50, 10000, PathAppStatus::Available),
        make_path(1, 50, 10000, PathAppStatus::Available),
        make_path(2, 50, 10000, PathAppStatus::Available),
    ];
    let pkt = default_packet();

    assert_eq!(sched.select_path(&paths, &pkt), SchedulerDecision::Send(0));
    assert_eq!(sched.select_path(&paths, &pkt), SchedulerDecision::Send(1));
    assert_eq!(sched.select_path(&paths, &pkt), SchedulerDecision::Send(2));
    assert_eq!(sched.select_path(&paths, &pkt), SchedulerDecision::Send(0));
}

#[test]
fn round_robin_skips_blocked_paths() {
    let mut sched = RoundRobinScheduler::default();
    let paths = vec![
        make_path(0, 50, 0, PathAppStatus::Available),
        make_path(1, 50, 10000, PathAppStatus::Available),
    ];
    assert_eq!(
        sched.select_path(&paths, &default_packet()),
        SchedulerDecision::Send(1),
    );
}

#[test]
fn prefers_ready_paths_in_round_robin() {
    let mut sched = RoundRobinScheduler::default();
    let now = NOW;
    let future = now + Duration::from_millis(50).as_nanos();

    let paths = vec![
        {
            let mut p =
                make_path(0, 50, 10000, PathAppStatus::Available);
            p.next_send_time = Some(future); // delayed
            p
        },
        {
            let mut p =
                make_path(1, 50, 10000, PathAppStatus::Available);
            p.next_send_time = None; // ready
            p
        },
        {
            let mut p =
                make_path(2, 50, 10000, PathAppStatus::Available);
            p.next_send_time = None; // ready
            p
        },
    ];

    let mut pkt = default_packet();
    pkt.now = now;

    let d1 = sched.select_path(&paths, &pkt);
    let d2 = sched.select_path(&paths, &pkt);
    let d3 = sched.select_path(&paths, &pkt);

    assert_eq!(d1, SchedulerDecision::Send(1));
    assert_eq!(d2, SchedulerDecision::Send(2));
    assert_eq!(d3, SchedulerDecision::Send(1)); // wraps around
}

#[test]
fn empty_returns_no_available() {
    let mut sched = RoundRobinScheduler::default();
    assert_eq!(
        sched.select_path(&[], &default_packet()),
        SchedulerDecision::NoAvailablePath,
    );
}

#[test]
fn reinjection_avoids_original_path() {
    let mut sched = RoundRobinScheduler::default();
    let paths = vec![
        make_path(0, 10, 10000, PathAppStatus::Available),
        make_path(1, 50, 10000, PathAppStatus::Available),
    ];
    let packet = PacketMeta {
        is_reinjection: true,
        original_path_id: Some(0),
        ..default_packet()
    };
    assert_eq!(sched.select_path(&paths, &packet), SchedulerDecision::Send(1));
}

#[test]
fn reinjection_fallback_single_path() {
    let mut sched = RoundRobinScheduler::default();
    let paths = vec![
        make_path(0, 10, 10000, PathAppStatus::Available),
    ];
    let packet = PacketMeta {
        is_reinjection: true,
        original_path_id: Some(0),
        ..default_packet()
    };
    assert_eq!(sched.select_path(&paths, &packet), SchedulerDecision::Send(0));
}
