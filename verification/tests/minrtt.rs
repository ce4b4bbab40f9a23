//! MinRtt scheduler.

use quiche_multipath::multipath::scheduler::{
    LossRate, PacketContentType, PacketMeta, PathInfo, Scheduler, SchedulerDecision,
    SchedulerFactory,
};
use quiche_multipath::multipath::schedulers::{MinRttScheduler, MinRttSchedulerFactory};
use quiche_multipath::net::SocketAddr;
use quiche_multipath::path::{PathAppStatus, PathState};
use std::time::Duration;

/// The current time, in nanoseconds.
const NOW: u128 = 1_000_000_000;

fn make_path(id: u64, srtt_ms: u64, cwnd_avail: usize,
             status: PathAppStatus) -> PathInfo {
    PathInfo {
        path_id: id,
        local_addr: SocketAddr::v4([127, 0, 0, 1], 1234),
        peer_addr: SocketAddr::v4([127, 0, 0, 1], 5678),
        state: PathState::Validated,
        app_status: status,
        srtt: Duration::from_millis(srtt_ms).as_nanos(),
        rttvar: Duration::from_millis(5).as_nanos(),
        min_rtt: Some(Duration::from_millis(srtt_ms).as_nanos()),
        cwnd: 65535,
        cwnd_available: cwnd_avail,
        bytes_in_flight: 0,
        est_bandwidth_bps: None,
        loss_rate: LossRate { lost: 0, total: 0 },
        mtu: 1200,
        next_send_time: None,
        pacing_rate_bps: None,
    }
}

fn default_packet() -> PacketMeta {
    PacketMeta {
        packet_type: PacketContentType::Stream,
        size_estimate: 1200,
        is_retransmission: false,
        is_reinjection: false,
        original_path_id: None,
        now: NOW,
    }
}

#[test]
fn selects_lowest_rtt() {
    let mut sched = MinRttScheduler;
    let paths = vec![
        make_path(0, 50, 10000, PathAppStatus::Available),
        make_path(1, 20, 10000, PathAppStatus::Available),
        make_path(2, 80, 10000, PathAppStatus::Available),
    ];
    assert_eq!(
        sched.select_path(&paths, &default_packet()),
        SchedulerDecision::Send(1),
    );
}

#[test]
fn minrtt_skips_blocked_paths() {
    let mut sched = MinRttScheduler;
    let paths = vec![
        make_path(0, 10, 0, PathAppStatus::Available),
        make_path(1, 50, 10000, PathAppStatus::Available),
    ];
    assert_eq!(
        sched.select_path(&paths, &default_packet()),
        SchedulerDecision::Send(1),
    );
}

#[test]
fn falls_back_to_backup() {
    let mut sched = MinRttScheduler;
    let paths = vec![
        make_path(0, 10, 0, PathAppStatus::Available),
        make_path(1, 30, 10000, PathAppStatus::Backup),
    ];
    assert_eq!(
        sched.select_path(&paths, &default_packet()),
        SchedulerDecision::Send(1),
    );
}

#[test]
fn all_blocked_returns_all_blocked() {
    let mut sched = MinRttScheduler;
    let paths = vec![
        make_path(0, 10, 0, PathAppStatus::Available),
        make_path(1, 20, 0, PathAppStatus::Available),
    ];
    assert_eq!(
        sched.select_path(&paths, &default_packet()),
        SchedulerDecision::AllBlocked,
    );
}

#[test]
fn empty_paths_returns_no_available() {
    let mut sched = MinRttScheduler;
    assert_eq!(
        sched.select_path(&[], &default_packet()),
        SchedulerDecision::NoAvailablePath,
    );
}

#[test]
fn unvalidated_paths_skipped() {
    let mut sched = MinRttScheduler;
    let mut p = make_path(0, 10, 10000, PathAppStatus::Available);
    p.state = PathState::Validating;
    assert_eq!(
        sched.select_path(&[p], &default_packet()),
        SchedulerDecision::NoAvailablePath,
    );
}

#[test]
fn prefers_ready_path_over_pacing_delayed() {
    let mut sched = MinRttScheduler;
    let now = NOW;
    let future = now + Duration::from_millis(50).as_nanos();

    let paths = vec![
        {
            let mut p =
                make_path(0, 10, 10000, PathAppStatus::Available);
            p.next_send_time = Some(future); // pacing-delayed
            p
        },
        {
            let mut p =
                make_path(1, 50, 10000, PathAppStatus::Available);
            p.next_send_time = None; // ready now
            p
        },
    ];

    let mut pkt = default_packet();
    pkt.now = now;

    assert_eq!(
        sched.select_path(&paths, &pkt),
        SchedulerDecision::Send(1)
    );
}

#[test]
fn picks_earliest_when_all_delayed() {
    let mut sched = MinRttScheduler;
    let now = NOW;

    let paths = vec![
        {
            let mut p =
                make_path(0, 10, 10000, PathAppStatus::Available);
            p.next_send_time =
                Some(now + Duration::from_millis(100).as_nanos());
            p
        },
        {
            let mut p =
                make_path(1, 50, 10000, PathAppStatus::Available);
            p.next_send_time =
                Some(now + Duration::from_millis(20).as_nanos());
            p
        },
    ];

    let mut pkt = default_packet();
    pkt.now = now;

    assert_eq!(
        sched.select_path(&paths, &pkt),
        SchedulerDecision::Send(1)
    );
}

#[test]
fn ready_paths_still_sorted_by_rtt() {
    let mut sched = MinRttScheduler;
    let now = NOW;

    let paths = vec![
        {
            let mut p =
                make_path(0, 50, 10000, PathAppStatus::Available);
            p.next_send_time = None;
            p
        },
        {
            let mut p =
                make_path(1, 20, 10000, PathAppStatus::Available);
            p.next_send_time = None;
            p
        },
    ];

    let mut pkt = default_packet();
    pkt.now = now;

    assert_eq!(
        sched.select_path(&paths, &pkt),
        SchedulerDecision::Send(1)
    );
}

#[test]
fn factory_creates_scheduler() {
    let factory = MinRttSchedulerFactory;
    let mut sched = factory.create();
    let paths = vec![
        make_path(0, 50, 10000, PathAppStatus::Available),
    ];
    assert_eq!(
        sched.select_path(&paths, &default_packet()),
        SchedulerDecision::Send(0),
    );
}
