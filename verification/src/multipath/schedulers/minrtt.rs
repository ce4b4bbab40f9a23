//! MinRTT scheduler: selects the path with the lowest smoothed RTT.

use crate::multipath::scheduler::{
    can_send, explain_nothing, is_ready, nothing_selected, PacketMeta, PathInfo, Scheduler,
    SchedulerDecision, SchedulerFactory,
};
use crate::path::{PathAppStatus, PathState};
use vstd::prelude::*;

verus! {

/// Selects the path with the lowest smoothed RTT among Available paths. Falls
/// back to Backup paths when all Available paths are blocked.
#[derive(Debug)]
pub struct MinRttScheduler;

impl Default for MinRttScheduler {
    fn default() -> (r: Self)
        ensures
            r == MinRttScheduler,
    {
        MinRttScheduler
    }
}

/// When the pacer of a path lets it send: at once, or at a time.
pub open spec fn send_time(p: PathInfo) -> int {
    match p.next_send_time {
        Some(t) => t as int,
        None => -1,
    }
}

/// The paths of a status that can send at once satisfy this.
pub open spec fn ready_with(status: PathAppStatus, now: u128) -> spec_fn(PathInfo) -> bool {
    |p: PathInfo| can_send(p) && p.app_status == status && is_ready(p, now)
}

/// The paths of a status that can send, be it later, satisfy this.
pub open spec fn sending_with(status: PathAppStatus) -> spec_fn(PathInfo) -> bool {
    |p: PathInfo| can_send(p) && p.app_status == status
}

/// The smoothed RTT of a path.
pub open spec fn by_rtt() -> spec_fn(PathInfo) -> int {
    |p: PathInfo| p.srtt as int
}

/// The time at which the pacer of a path lets it send.
pub open spec fn by_send_time() -> spec_fn(PathInfo) -> int {
    |p: PathInfo| send_time(p)
}

/// Whether the path at position `i` is the first one with the lowest key among
/// those that satisfy `p`.
pub open spec fn is_first_lowest(
    paths: Seq<PathInfo>,
    p: spec_fn(PathInfo) -> bool,
    key: spec_fn(PathInfo) -> int,
    i: int,
) -> bool {
    &&& 0 <= i < paths.len()
    &&& p(paths[i])
    &&& forall|j: int| 0 <= j < paths.len() && p(#[trigger] paths[j]) ==> key(paths[i]) <= key(
        paths[j],
    )
    &&& forall|j: int| 0 <= j < i && p(#[trigger] paths[j]) ==> key(paths[i]) < key(paths[j])
}

/// The path ID of the first path with the lowest key among those that satisfy
/// `p`, if any does.
pub open spec fn first_lowest(
    paths: Seq<PathInfo>,
    p: spec_fn(PathInfo) -> bool,
    key: spec_fn(PathInfo) -> int,
) -> Option<u64> {
    if exists|i: int| 0 <= i < paths.len() && p(#[trigger] paths[i]) {
        Some(paths[choose|i: int| is_first_lowest(paths, p, key, i)].path_id)
    } else {
        None
    }
}

/// The first path with the lowest key is the one that satisfies its description.
pub proof fn lemma_first_lowest(
    paths: Seq<PathInfo>,
    p: spec_fn(PathInfo) -> bool,
    key: spec_fn(PathInfo) -> int,
    i: int,
)
    requires
        is_first_lowest(paths, p, key, i),
    ensures
        first_lowest(paths, p, key) == Some(paths[i].path_id),
{
    let c = choose|c: int| is_first_lowest(paths, p, key, c);
    assert(p(paths[i]));
    assert(p(paths[c]));
    if c < i {
        assert(key(paths[i]) < key(paths[c]));
    }
    if i < c {
        assert(key(paths[c]) < key(paths[i]));
    }
}

/// The path that the MinRTT scheduler selects: among the ready ones the one with
/// the lowest RTT, else the one whose pacer is the first to let it send; each
/// time an Available one before a Backup one.
pub open spec fn minrtt_decision(paths: Seq<PathInfo>, now: u128) -> SchedulerDecision {
    if let Some(id) = first_lowest(paths, ready_with(PathAppStatus::Available, now), by_rtt()) {
        SchedulerDecision::Send(id)
    } else if let Some(id) = first_lowest(
        paths,
        ready_with(PathAppStatus::Backup, now),
        by_rtt(),
    ) {
        SchedulerDecision::Send(id)
    } else if let Some(id) = first_lowest(
        paths,
        sending_with(PathAppStatus::Available),
        by_send_time(),
    ) {
        SchedulerDecision::Send(id)
    } else if let Some(id) = first_lowest(
        paths,
        sending_with(PathAppStatus::Backup),
        by_send_time(),
    ) {
        SchedulerDecision::Send(id)
    } else {
        nothing_selected(paths)
    }
}

/// The first ready path of a status with the lowest RTT.
fn lowest_rtt(paths: &[PathInfo], status: PathAppStatus, now: u128) -> (r: Option<u64>)
    ensures
        r == first_lowest(paths@, ready_with(status, now), by_rtt()),
{
    let ghost p = ready_with(status, now);
    let mut best: Option<usize> = None;
    let mut i: usize = 0;
    while i < paths.len()
        invariant
            i <= paths@.len(),
            p == ready_with(status, now),
            match best {
                Some(b) => is_first_lowest(paths@.take(i as int), p, by_rtt(), b as int),
                None => forall|j: int| 0 <= j < i ==> !p(#[trigger] paths@[j]),
            },
        decreases paths@.len() - i,
    {
        let q = &paths[i];
        let usable: bool = q.state == PathState::Validated && q.cwnd_available > 0 && q.app_status
            == status;
        let ready: bool = match q.next_send_time {
            Some(t) => t <= now,
            None => true,
        };
        let better: bool = match best {
            Some(b) => q.srtt < paths[b].srtt,
            None => true,
        };
        let ghost seen = paths@.take(i as int);
        let ghost more = paths@.take(i + 1);
        proof {
            assert(p(*q) == (usable && ready));
            assert(more =~= seen.push(*q));
            assert forall|j: int| 0 <= j < i implies #[trigger] more[j] == seen[j] && more[j]
                == paths@[j] by {}
            assert(more[i as int] == *q);
        }
        if usable && ready && better {
            best = Some(i);
        }
        i += 1;
    }
    assert(paths@.take(i as int) =~= paths@);
    match best {
        Some(b) => {
            proof {
                lemma_first_lowest(paths@, p, by_rtt(), b as int);
            }
            Some(paths[b].path_id)
        },
        None => None,
    }
}

/// The first path of a status that can send the earliest.
fn earliest_send_time(paths: &[PathInfo], status: PathAppStatus) -> (r: Option<u64>)
    ensures
        r == first_lowest(paths@, sending_with(status), by_send_time()),
{
    let ghost p = sending_with(status);
    let mut best: Option<usize> = None;
    let mut i: usize = 0;
    while i < paths.len()
        invariant
            i <= paths@.len(),
            p == sending_with(status),
            match best {
                Some(b) => is_first_lowest(paths@.take(i as int), p, by_send_time(), b as int),
                None => forall|j: int| 0 <= j < i ==> !p(#[trigger] paths@[j]),
            },
        decreases paths@.len() - i,
    {
        let q = &paths[i];
        let usable: bool = q.state == PathState::Validated && q.cwnd_available > 0 && q.app_status
            == status;
        let better: bool = match best {
            Some(b) => match (q.next_send_time, paths[b].next_send_time) {
                (Some(t), Some(u)) => t < u,
                (None, Some(_)) => true,
                _ => false,
            },
            None => true,
        };
        let ghost seen = paths@.take(i as int);
        let ghost more = paths@.take(i + 1);
        proof {
            assert(p(*q) == usable);
            assert(more =~= seen.push(*q));
            assert forall|j: int| 0 <= j < i implies #[trigger] more[j] == seen[j] && more[j]
                == paths@[j] by {}
            assert(more[i as int] == *q);
        }
        if usable && better {
            best = Some(i);
        }
        i += 1;
    }
    assert(paths@.take(i as int) =~= paths@);
    match best {
        Some(b) => {
            proof {
                lemma_first_lowest(paths@, p, by_send_time(), b as int);
            }
            Some(paths[b].path_id)
        },
        None => None,
    }
}

impl Scheduler for MinRttScheduler {
    fn select_path(&mut self, paths: &[PathInfo], packet: &PacketMeta) -> (r: SchedulerDecision)
        ensures
            r == minrtt_decision(paths@, packet.now),
    {
        let now: u128 = packet.now;
        // Prefer ready paths (sorted by RTT).
        if let Some(id) = lowest_rtt(paths, PathAppStatus::Available, now) {
            return SchedulerDecision::Send(id);
        }
        if let Some(id) = lowest_rtt(paths, PathAppStatus::Backup, now) {
            return SchedulerDecision::Send(id);
        }
        // All pacing-delayed: pick earliest ready time.
        if let Some(id) = earliest_send_time(paths, PathAppStatus::Available) {
            return SchedulerDecision::Send(id);
        }
        if let Some(id) = earliest_send_time(paths, PathAppStatus::Backup) {
            return SchedulerDecision::Send(id);
        }
        explain_nothing(paths)
    }
}

/// Factory for MinRttScheduler.
#[derive(Debug)]
pub struct MinRttSchedulerFactory;

impl Default for MinRttSchedulerFactory {
    fn default() -> (r: Self)
        ensures
            r == MinRttSchedulerFactory,
    {
        MinRttSchedulerFactory
    }
}

impl SchedulerFactory for MinRttSchedulerFactory {
    type Created = MinRttScheduler;

    fn create(&self) -> (r: MinRttScheduler)
        ensures
            r == MinRttScheduler,
    {
        MinRttScheduler
    }
}

} // verus!
