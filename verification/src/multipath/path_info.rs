//! Snapshots of the paths for the scheduler.

use crate::multipath::scheduler::{LossRate, PathInfo};
use crate::net::SocketAddr;
use crate::path::{PathAppStatus, PathState};
use vstd::prelude::*;

verus! {

/// What is known of a path. Times are in nanoseconds.
#[derive(Debug, Clone, Copy)]
pub struct PathSnapshot {
    /// Unique identifier of the path.
    pub path_id: u64,
    /// Local socket address.
    pub local_addr: SocketAddr,
    /// Remote peer socket address.
    pub peer_addr: SocketAddr,
    /// Current validation state.
    pub state: PathState,
    /// Application-level status.
    pub app_status: PathAppStatus,
    /// Whether the path is being abandoned.
    pub mp_closing: bool,
    /// Whether the path was abandoned.
    pub mp_closed: bool,
    /// Smoothed round-trip time.
    pub rtt: u128,
    /// Round-trip time variation.
    pub rttvar: u128,
    /// Minimum observed round-trip time, if available.
    pub min_rtt: Option<u128>,
    /// Congestion window in bytes.
    pub cwnd: usize,
    /// Available congestion window space in bytes.
    pub cwnd_available: usize,
    /// Bytes in flight.
    pub bytes_in_flight: usize,
    /// Delivery rate in bits per second.
    pub delivery_rate_bps: u64,
    /// Bytes that were acknowledged.
    pub total_acked_bytes: u64,
    /// Bytes that were lost.
    pub bytes_lost: u64,
    /// Maximum datagram size in bytes.
    pub max_datagram_size: usize,
    /// When the pacer lets the path send, if not at once.
    pub next_send_time: Option<u128>,
    /// Pacing rate in bytes per second.
    pub pacing_rate: u64,
}

/// The paths that are neither closing nor closed satisfy this: the scheduler
/// must not select the others for new data.
pub open spec fn is_open() -> spec_fn(PathSnapshot) -> bool {
    |p: PathSnapshot| !p.mp_closing && !p.mp_closed
}

/// What the scheduler sees of a path.
pub open spec fn info_of(p: PathSnapshot) -> PathInfo {
    PathInfo {
        path_id: p.path_id,
        local_addr: p.local_addr,
        peer_addr: p.peer_addr,
        state: p.state,
        app_status: p.app_status,
        srtt: p.rtt,
        rttvar: p.rttvar,
        min_rtt: p.min_rtt,
        cwnd: p.cwnd,
        cwnd_available: p.cwnd_available,
        bytes_in_flight: p.bytes_in_flight,
        est_bandwidth_bps: Some(p.delivery_rate_bps),
        loss_rate: LossRate {
            lost: p.bytes_lost,
            total: (p.total_acked_bytes + p.bytes_lost) as u64,
        },
        mtu: p.max_datagram_size,
        next_send_time: p.next_send_time,
        pacing_rate_bps: Some((p.pacing_rate * 8) as u64),
    }
}

/// What the scheduler sees of paths: of each open one, in their order.
pub open spec fn infos(paths: Seq<PathSnapshot>) -> Seq<PathInfo> {
    paths.filter(is_open()).map_values(|p: PathSnapshot| info_of(p))
}

/// Refresh the PathInfo buffer from current path state.
///
/// Goes through all the paths, skips any that are closing or already closed, and
/// populates `buf` with a snapshot of each path's scheduling-relevant metrics.
pub fn refresh_path_info(paths: &[PathSnapshot], buf: &mut Vec<PathInfo>)
    requires
        forall|i: int|
            0 <= i < paths@.len() && is_open()(#[trigger] paths@[i]) ==> paths@[i].total_acked_bytes
                + paths@[i].bytes_lost <= u64::MAX && paths@[i].pacing_rate * 8 <= u64::MAX,
    ensures
        final(buf)@ == infos(paths@),
{
    let ghost keep = is_open();
    buf.clear();
    let mut i: usize = 0;
    proof {
        reveal(Seq::filter);
        assert(paths@.take(0) =~= Seq::empty());
        assert(buf@ =~= infos(paths@.take(0)));
    }
    while i < paths.len()
        invariant
            i <= paths@.len(),
            keep == is_open(),
            buf@ == infos(paths@.take(i as int)),
            forall|j: int|
                0 <= j < paths@.len() && is_open()(#[trigger] paths@[j])
                    ==> paths@[j].total_acked_bytes + paths@[j].bytes_lost <= u64::MAX
                    && paths@[j].pacing_rate * 8 <= u64::MAX,
        decreases paths@.len() - i,
    {
        let p = &paths[i];
        let ghost seen = paths@.take(i as int);
        let skipped: bool = p.mp_closing || p.mp_closed;
        proof {
            assert(keep(*p) == !skipped);
            assert(paths@.take(i + 1) =~= seen.push(*p));
            seen.lemma_filter_push(*p, keep);
            if !skipped {
                assert(infos(seen.push(*p)) =~= infos(seen).push(info_of(*p)));
            }
        }
        if !skipped {
            buf.push(
                PathInfo {
                    path_id: p.path_id,
                    local_addr: p.local_addr,
                    peer_addr: p.peer_addr,
                    state: p.state,
                    app_status: p.app_status,
                    srtt: p.rtt,
                    rttvar: p.rttvar,
                    min_rtt: p.min_rtt,
                    cwnd: p.cwnd,
                    cwnd_available: p.cwnd_available,
                    bytes_in_flight: p.bytes_in_flight,
                    est_bandwidth_bps: Some(p.delivery_rate_bps),
                    loss_rate: LossRate {
                        lost: p.bytes_lost,
                        total: p.total_acked_bytes + p.bytes_lost,
                    },
                    mtu: p.max_datagram_size,
                    next_send_time: p.next_send_time,
                    pacing_rate_bps: Some(p.pacing_rate * 8),
                },
            );
        }
        i += 1;
    }
    assert(paths@.take(i as int) =~= paths@);
}

} // verus!
