//! RoundRobin scheduler: distributes packets evenly across paths.

use crate::multipath::scheduler::{
    can_send, explain_nothing, is_ready, nothing_selected, PacketMeta, PathInfo, Scheduler,
    SchedulerConnEvent, SchedulerDecision, SchedulerFactory, SchedulerPathEvent,
};
use crate::path::{PathAppStatus, PathState};
use vstd::prelude::*;

verus! {

/// Distributes packets round-robin across available paths. Skips
/// congestion-blocked paths.
#[derive(Debug)]
pub struct RoundRobinScheduler {
    last_index: usize,
}

impl View for RoundRobinScheduler {
    type V = nat;

    /// The position at which the next round-robin choice starts.
    closed spec fn view(&self) -> nat {
        self.last_index as nat
    }
}

impl Default for RoundRobinScheduler {
    fn default() -> (r: Self)
        ensures
            r@ == 0,
    {
        RoundRobinScheduler { last_index: 0 }
    }
}

/// Which paths take part in a choice.
#[derive(Clone, Copy, Debug, PartialEq, Eq, Structural)]
pub enum Tier {
    /// Available paths that are not pacing-delayed.
    Ready,
    /// Available paths, pacing-delayed or not.
    Available,
    /// Backup paths.
    Backup,
}

/// The paths of a tier other than `skip` satisfy this.
pub open spec fn in_tier(tier: Tier, skip: Option<u64>, now: u128) -> spec_fn(PathInfo) -> bool {
    |p: PathInfo|
        {
            &&& Some(p.path_id) != skip
            &&& can_send(p)
            &&& match tier {
                Tier::Ready => p.app_status == PathAppStatus::Available && is_ready(p, now),
                Tier::Available => p.app_status == PathAppStatus::Available,
                Tier::Backup => p.app_status == PathAppStatus::Backup,
            }
        }
}

/// The paths of a tier other than `skip`, in their order.
pub open spec fn candidates(
    paths: Seq<PathInfo>,
    tier: Tier,
    skip: Option<u64>,
    now: u128,
) -> Seq<PathInfo> {
    paths.filter(in_tier(tier, skip, now))
}

/// The path that is due among some candidates, and the position that comes next.
pub open spec fn take_turn(last: nat, cs: Seq<PathInfo>) -> (nat, SchedulerDecision) {
    let i = last % cs.len();
    ((i + 1) as nat % cs.len(), SchedulerDecision::Send(cs[i as int].path_id))
}

/// The path that is due in the first tier that has candidates, with the position
/// that comes next.
pub open spec fn pass(last: nat, paths: Seq<PathInfo>, skip: Option<u64>, now: u128) -> Option<
    (nat, SchedulerDecision),
> {
    let ready = candidates(paths, Tier::Ready, skip, now);
    let usable = candidates(paths, Tier::Available, skip, now);
    let backup = candidates(paths, Tier::Backup, skip, now);
    if ready.len() > 0 {
        Some(take_turn(last, ready))
    } else if usable.len() > 0 {
        Some(take_turn(last, usable))
    } else if backup.len() > 0 {
        Some(take_turn(last, backup))
    } else {
        None
    }
}

/// The path that a reinjection avoids: the one that the original was sent on.
pub open spec fn avoided(packet: PacketMeta) -> Option<u64> {
    if packet.is_reinjection {
        packet.original_path_id
    } else {
        None
    }
}

/// What the scheduler selects, with the position that comes next: a path other
/// than the avoided one where that is possible, else any.
pub open spec fn round_robin_decision(last: nat, paths: Seq<PathInfo>, packet: PacketMeta) -> (
    nat,
    SchedulerDecision,
) {
    if let Some(t) = pass(last, paths, avoided(packet), packet.now) {
        t
    } else if let Some(t) = pass(last, paths, None, packet.now) {
        t
    } else {
        (last, nothing_selected(paths))
    }
}

/// The path IDs of the candidates, in their order.
fn candidate_ids(paths: &[PathInfo], tier: Tier, skip: Option<u64>, now: u128) -> (r: Vec<u64>)
    ensures
        r@ == candidates(paths@, tier, skip, now).map_values(|p: PathInfo| p.path_id),
{
    let ghost keep = in_tier(tier, skip, now);
    let ghost id = |p: PathInfo| p.path_id;
    let mut r: Vec<u64> = Vec::new();
    let mut i: usize = 0;
    proof {
        reveal(Seq::filter);
        assert(paths@.take(0) =~= Seq::empty());
        assert(r@ =~= paths@.take(0).filter(keep).map_values(id));
    }
    while i < paths.len()
        invariant
            i <= paths@.len(),
            keep == in_tier(tier, skip, now),
            id == (|p: PathInfo| p.path_id),
            r@ == paths@.take(i as int).filter(keep).map_values(id),
        decreases paths@.len() - i,
    {
        let p = &paths[i];
        let skipped: bool = match skip {
            Some(s) => p.path_id == s,
            None => false,
        };
        let fits_tier: bool = match tier {
            Tier::Ready => p.app_status == PathAppStatus::Available && match p.next_send_time {
                Some(t) => t <= now,
                None => true,
            },
            Tier::Available => p.app_status == PathAppStatus::Available,
            Tier::Backup => p.app_status == PathAppStatus::Backup,
        };
        let taken: bool = !skipped && p.state == PathState::Validated && p.cwnd_available > 0
            && fits_tier;
        proof {
            let seen = paths@.take(i as int);
            assert(keep(*p) == taken);
            assert(paths@.take(i + 1) =~= seen.push(*p));
            seen.lemma_filter_push(*p, keep);
            if taken {
                assert(seen.filter(keep).push(*p).map_values(id) =~= seen.filter(keep).map_values(
                    id,
                ).push(p.path_id));
            }
        }
        if taken {
            r.push(p.path_id);
        }
        i += 1;
    }
    assert(paths@.take(i as int) =~= paths@);
    r
}

impl RoundRobinScheduler {
    /// Takes the turn of the candidate that is due.
    fn advance(&mut self, ids: &Vec<u64>, Ghost(cs): Ghost<Seq<PathInfo>>) -> (r: SchedulerDecision)
        requires
            ids@.len() > 0,
            ids@ == cs.map_values(|p: PathInfo| p.path_id),
        ensures
            (final(self)@, r) == take_turn(old(self)@, cs),
    {
        let n: usize = ids.len();
        let i: usize = self.last_index % n;
        let chosen: u64 = ids[i];
        self.last_index = (i + 1) % n;
        SchedulerDecision::Send(chosen)
    }

    /// Selects among the paths other than `skip`.
    fn select_without(&mut self, paths: &[PathInfo], skip: Option<u64>, now: u128) -> (r: Option<
        SchedulerDecision,
    >)
        ensures
            match pass(old(self)@, paths@, skip, now) {
                Some((next, d)) => r == Some(d) && final(self)@ == next,
                None => r is None && final(self)@ == old(self)@,
            },
    {
        // Tier 1: ready (not pacing-delayed) Available paths.
        let ready = candidate_ids(paths, Tier::Ready, skip, now);
        if ready.len() > 0 {
            return Some(
                self.advance(&ready, Ghost(candidates(paths@, Tier::Ready, skip, now))),
            );
        }
        // Tier 2: all Available paths with cwnd (including pacing-delayed).
        let usable = candidate_ids(paths, Tier::Available, skip, now);
        if usable.len() > 0 {
            return Some(
                self.advance(&usable, Ghost(candidates(paths@, Tier::Available, skip, now))),
            );
        }
        // Tier 3: Backup paths.
        let backup = candidate_ids(paths, Tier::Backup, skip, now);
        if backup.len() > 0 {
            return Some(
                self.advance(&backup, Ghost(candidates(paths@, Tier::Backup, skip, now))),
            );
        }
        None
    }
}

impl Scheduler for RoundRobinScheduler {
    fn select_path(&mut self, paths: &[PathInfo], packet: &PacketMeta) -> (r: SchedulerDecision)
        ensures
            (final(self)@, r) == round_robin_decision(old(self)@, paths@, *packet),
    {
        let now: u128 = packet.now;
        // For reinjections, try to avoid the path the original was lost on.
        let skip: Option<u64> = if packet.is_reinjection {
            packet.original_path_id
        } else {
            None
        };
        if let Some(d) = self.select_without(paths, skip, now) {
            return d;
        }
        // If there is no path to skip, no point doing a second pass.
        if skip.is_some() {
            if let Some(d) = self.select_without(paths, None, now) {
                return d;
            }
        }
        explain_nothing(paths)
    }

    /// Events do not change whose turn it is.
    fn on_path_event(&mut self, _event: SchedulerPathEvent)
        ensures
            final(self)@ == old(self)@,
    {
    }

    /// Events do not change whose turn it is.
    fn on_conn_event(&mut self, _event: SchedulerConnEvent)
        ensures
            final(self)@ == old(self)@,
    {
    }
}

/// Factory for RoundRobinScheduler.
#[derive(Debug)]
pub struct RoundRobinSchedulerFactory;

impl Default for RoundRobinSchedulerFactory {
    fn default() -> (r: Self)
        ensures
            r == RoundRobinSchedulerFactory,
    {
        RoundRobinSchedulerFactory
    }
}

impl SchedulerFactory for RoundRobinSchedulerFactory {
    type Created = RoundRobinScheduler;

    fn create(&self) -> (r: RoundRobinScheduler)
        ensures
            r@ == 0,
    {
        RoundRobinScheduler::default()
    }
}

} // verus!
