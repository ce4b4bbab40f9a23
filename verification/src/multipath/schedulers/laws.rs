//! What holds of the schedulers' choices.

use crate::multipath::scheduler::{can_send, is_ready, PacketMeta, PathInfo, SchedulerDecision};
use crate::multipath::schedulers::minrtt::{
    by_rtt, by_send_time, first_lowest, is_first_lowest, minrtt_decision, ready_with, sending_with,
};
use crate::multipath::schedulers::round_robin::{
    avoided, candidates, in_tier, pass, round_robin_decision, Tier,
};
use crate::path::PathAppStatus;
use vstd::prelude::*;

verus! {

/// Where some path satisfies `p` there is a first one with the lowest key.
pub proof fn lemma_first_lowest_exists(
    paths: Seq<PathInfo>,
    p: spec_fn(PathInfo) -> bool,
    key: spec_fn(PathInfo) -> int,
)
    requires
        exists|i: int| 0 <= i < paths.len() && p(#[trigger] paths[i]),
    ensures
        exists|i: int| is_first_lowest(paths, p, key, i),
    decreases paths.len(),
{
    let front = paths.drop_last();
    let n = paths.len() - 1;
    let last = paths[n];
    let w = choose|w: int| 0 <= w < paths.len() && p(#[trigger] paths[w]);
    if exists|k: int| 0 <= k < front.len() && p(#[trigger] front[k]) {
        lemma_first_lowest_exists(front, p, key);
        let b = choose|b: int| is_first_lowest(front, p, key, b);
        assert(front[b] == paths[b]);
        assert forall|j: int| 0 <= j < front.len() implies #[trigger] paths[j] == front[j] by {}
        if p(last) && key(last) < key(paths[b]) {
            assert(is_first_lowest(paths, p, key, n));
        } else {
            assert(is_first_lowest(paths, p, key, b));
        }
    } else {
        assert forall|j: int| 0 <= j < n implies !p(#[trigger] paths[j]) by {
            assert(front[j] == paths[j]);
        }
        assert(w == n);
        assert(is_first_lowest(paths, p, key, n));
    }
}

/// What a choice of the lowest key says: it is the ID of a path that satisfies
/// `p` and that none of those that satisfy `p` is below.
proof fn lemma_choice(
    paths: Seq<PathInfo>,
    p: spec_fn(PathInfo) -> bool,
    key: spec_fn(PathInfo) -> int,
    id: u64,
) -> (i: int)
    requires
        first_lowest(paths, p, key) == Some(id),
    ensures
        is_first_lowest(paths, p, key, i),
        paths[i].path_id == id,
{
    lemma_first_lowest_exists(paths, p, key);
    choose|i: int| is_first_lowest(paths, p, key, i)
}

/// The MinRTT scheduler sends on a validated path whose congestion window has
/// space. It is a ready one where there is one, and then none that is ready and
/// of the same status has a lower RTT; and it is a Backup one only where no
/// Available path is ready, or none can send.
pub proof fn law_minrtt_choice(paths: Seq<PathInfo>, now: u128, id: u64) -> (i: int)
    requires
        minrtt_decision(paths, now) == SchedulerDecision::Send(id),
    ensures
        0 <= i < paths.len(),
        paths[i].path_id == id,
        can_send(paths[i]),
        (exists|j: int| 0 <= j < paths.len() && can_send(#[trigger] paths[j]) && is_ready(
            paths[j],
            now,
        )) ==> is_ready(paths[i], now),
        is_ready(paths[i], now) ==> forall|j: int|
            0 <= j < paths.len() && can_send(#[trigger] paths[j]) && is_ready(paths[j], now)
                && paths[j].app_status == paths[i].app_status ==> paths[i].srtt <= paths[j].srtt,
        paths[i].app_status == PathAppStatus::Backup ==> forall|j: int|
            0 <= j < paths.len() && can_send(#[trigger] paths[j]) && paths[j].app_status
                == PathAppStatus::Available ==> !is_ready(paths[j], now) && is_ready(
                paths[i],
                now,
            ),
{
    let ra = ready_with(PathAppStatus::Available, now);
    let rb = ready_with(PathAppStatus::Backup, now);
    let sa = sending_with(PathAppStatus::Available);
    let sb = sending_with(PathAppStatus::Backup);
    if first_lowest(paths, ra, by_rtt()) is Some {
        let i = lemma_choice(paths, ra, by_rtt(), id);
        assert forall|j: int|
            0 <= j < paths.len() && can_send(#[trigger] paths[j]) && is_ready(paths[j], now)
                && paths[j].app_status == paths[i].app_status implies paths[i].srtt
            <= paths[j].srtt by {
            assert(ra(paths[j]));
        }
        i
    } else {
        assert forall|j: int| 0 <= j < paths.len() implies !ra(#[trigger] paths[j]) by {}
        if first_lowest(paths, rb, by_rtt()) is Some {
            let i = lemma_choice(paths, rb, by_rtt(), id);
            assert forall|j: int|
                0 <= j < paths.len() && can_send(#[trigger] paths[j]) && is_ready(paths[j], now)
                    && paths[j].app_status == paths[i].app_status implies paths[i].srtt
                <= paths[j].srtt by {
                assert(rb(paths[j]));
            }
            assert forall|j: int|
                0 <= j < paths.len() && can_send(#[trigger] paths[j]) && paths[j].app_status
                    == PathAppStatus::Available implies !is_ready(paths[j], now) by {
                assert(!ra(paths[j]));
            }
            i
        } else {
            assert forall|j: int| 0 <= j < paths.len() implies !rb(#[trigger] paths[j]) by {}
            assert forall|j: int|
                0 <= j < paths.len() && can_send(#[trigger] paths[j]) implies !is_ready(
                paths[j],
                now,
            ) by {
                assert(!ra(paths[j]) && !rb(paths[j]));
            }
            if first_lowest(paths, sa, by_send_time()) is Some {
                lemma_choice(paths, sa, by_send_time(), id)
            } else {
                assert forall|j: int| 0 <= j < paths.len() implies !sa(#[trigger] paths[j]) by {}
                let i = lemma_choice(paths, sb, by_send_time(), id);
                assert forall|j: int|
                    0 <= j < paths.len() && can_send(
                        #[trigger] paths[j],
                    ) implies paths[j].app_status != PathAppStatus::Available by {
                    assert(!sa(paths[j]));
                }
                i
            }
        }
    }
}

/// The MinRTT scheduler finds a path exactly where one can send.
pub proof fn law_minrtt_finds_a_path(paths: Seq<PathInfo>, now: u128)
    ensures
        minrtt_decision(paths, now) is Send <==> exists|i: int|
            0 <= i < paths.len() && can_send(#[trigger] paths[i]),
{
    if exists|i: int| 0 <= i < paths.len() && can_send(#[trigger] paths[i]) {
        let i = choose|i: int| 0 <= i < paths.len() && can_send(#[trigger] paths[i]);
        assert(sending_with(paths[i].app_status)(paths[i]));
    }
    if let SchedulerDecision::Send(id) = minrtt_decision(paths, now) {
        let i = law_minrtt_choice(paths, now, id);
        assert(can_send(paths[i]));
    }
}

/// What being a candidate means.
proof fn lemma_candidate(
    paths: Seq<PathInfo>,
    tier: Tier,
    skip: Option<u64>,
    now: u128,
    i: int,
)
    requires
        0 <= i < candidates(paths, tier, skip, now).len(),
    ensures
        in_tier(tier, skip, now)(candidates(paths, tier, skip, now)[i]),
        paths.contains(candidates(paths, tier, skip, now)[i]),
{
    let keep = in_tier(tier, skip, now);
    paths.lemma_filter_pred(keep, i);
    paths.lemma_filter_contains_rev(keep, candidates(paths, tier, skip, now)[i]);
}

/// A path of a tier is a candidate of it.
proof fn lemma_is_candidate(
    paths: Seq<PathInfo>,
    tier: Tier,
    skip: Option<u64>,
    now: u128,
    i: int,
)
    requires
        0 <= i < paths.len(),
        in_tier(tier, skip, now)(paths[i]),
    ensures
        candidates(paths, tier, skip, now).len() > 0,
{
    paths.lemma_filter_contains(in_tier(tier, skip, now), i);
}

/// The round-robin scheduler sends on a validated path whose congestion window
/// has space.
pub proof fn law_round_robin_choice(last: nat, paths: Seq<PathInfo>, packet: PacketMeta, id: u64)
    requires
        round_robin_decision(last, paths, packet).1 == SchedulerDecision::Send(id),
    ensures
        exists|i: int|
            0 <= i < paths.len() && (#[trigger] paths[i]).path_id == id && can_send(paths[i]),
{
    let skip = if pass(last, paths, avoided(packet), packet.now) is Some {
        avoided(packet)
    } else {
        None
    };
    let now = packet.now;
    let ready = candidates(paths, Tier::Ready, skip, now);
    let usable = candidates(paths, Tier::Available, skip, now);
    let backup = candidates(paths, Tier::Backup, skip, now);
    let (tier, cs) = if ready.len() > 0 {
        (Tier::Ready, ready)
    } else if usable.len() > 0 {
        (Tier::Available, usable)
    } else {
        (Tier::Backup, backup)
    };
    let i = (last % cs.len()) as int;
    lemma_candidate(paths, tier, skip, now, i);
    let k = choose|k: int| 0 <= k < paths.len() && paths[k] == cs[i];
    assert(paths[k].path_id == id);
}

/// A reinjection goes to another path than the original one wherever another one
/// can send.
pub proof fn law_reinjection_avoids_original_path(
    last: nat,
    paths: Seq<PathInfo>,
    packet: PacketMeta,
    original: u64,
    i: int,
)
    requires
        packet.is_reinjection,
        packet.original_path_id == Some(original),
        0 <= i < paths.len(),
        can_send(paths[i]),
        paths[i].path_id != original,
    ensures
        round_robin_decision(last, paths, packet).1 matches SchedulerDecision::Send(id) && id
            != original,
{
    let skip = Some(original);
    let now = packet.now;
    let ready = candidates(paths, Tier::Ready, skip, now);
    let usable = candidates(paths, Tier::Available, skip, now);
    let backup = candidates(paths, Tier::Backup, skip, now);
    if paths[i].app_status == PathAppStatus::Available {
        lemma_is_candidate(paths, Tier::Available, skip, now, i);
    } else {
        lemma_is_candidate(paths, Tier::Backup, skip, now, i);
    }
    let (tier, cs) = if ready.len() > 0 {
        (Tier::Ready, ready)
    } else if usable.len() > 0 {
        (Tier::Available, usable)
    } else {
        (Tier::Backup, backup)
    };
    lemma_candidate(paths, tier, skip, now, (last % cs.len()) as int);
}

/// The position after `k` turns on the same paths and packet.
pub open spec fn after_turns(last: nat, paths: Seq<PathInfo>, packet: PacketMeta, k: nat) -> nat
    decreases k,
{
    if k == 0 {
        last
    } else {
        round_robin_decision(
            after_turns(last, paths, packet, (k - 1) as nat),
            paths,
            packet,
        ).0
    }
}

/// Packets are spread evenly: while the paths stay as they are, the choices go
/// through the ready ones in their order, each once before any comes again.
pub proof fn law_round_robin_is_fair(last: nat, paths: Seq<PathInfo>, packet: PacketMeta, k: nat)
    requires
        candidates(paths, Tier::Ready, avoided(packet), packet.now).len() > 0,
    ensures
        ({
            let cs = candidates(paths, Tier::Ready, avoided(packet), packet.now);
            let turn = after_turns(last, paths, packet, k);
            &&& turn % cs.len() == (last + k) % cs.len()
            &&& round_robin_decision(turn, paths, packet).1 == SchedulerDecision::Send(
                cs[((last + k) % cs.len()) as int].path_id,
            )
        }),
    decreases k,
{
    let cs = candidates(paths, Tier::Ready, avoided(packet), packet.now);
    let n = cs.len() as int;
    if k > 0 {
        let before = after_turns(last, paths, packet, (k - 1) as nat);
        law_round_robin_is_fair(last, paths, packet, (k - 1) as nat);
        let i = before % cs.len();
        assert(after_turns(last, paths, packet, k) == (i + 1) as nat % cs.len());
        vstd::arithmetic::div_mod::lemma_mod_twice(i as int + 1, n);
        vstd::arithmetic::div_mod::lemma_add_mod_noop((last + k - 1) as int, 1, n);
        vstd::arithmetic::div_mod::lemma_add_mod_noop(i as int, 1, n);
        vstd::arithmetic::div_mod::lemma_mod_twice((last + k - 1) as int, n);
    }
}

/// The round-robin scheduler finds a path exactly where one can send.
pub proof fn law_round_robin_finds_a_path(last: nat, paths: Seq<PathInfo>, packet: PacketMeta)
    ensures
        round_robin_decision(last, paths, packet).1 is Send <==> exists|i: int|
            0 <= i < paths.len() && can_send(#[trigger] paths[i]),
{
    if exists|i: int| 0 <= i < paths.len() && can_send(#[trigger] paths[i]) {
        let i = choose|i: int| 0 <= i < paths.len() && can_send(#[trigger] paths[i]);
        if paths[i].app_status == PathAppStatus::Available {
            lemma_is_candidate(paths, Tier::Available, None, packet.now, i);
        } else {
            lemma_is_candidate(paths, Tier::Backup, None, packet.now, i);
        }
    }
    if let SchedulerDecision::Send(id) = round_robin_decision(last, paths, packet).1 {
        law_round_robin_choice(last, paths, packet, id);
    }
}

} // verus!
