//! What the schedulers and the reinjection controller are for, in terms of the paths
//! that they are given.

use crate::multipath::path_info::{info_of, infos, is_open, PathSnapshot};
use crate::multipath::reinjection::{
    alternative, best_alternative, is_best_alternative, settled, threshold, StreamQosHint,
};
use crate::multipath::scheduler::{can_send, PacketMeta, PathInfo, SchedulerDecision};
use crate::multipath::schedulers::laws::{
    after_turns, law_minrtt_choice, law_minrtt_finds_a_path, law_reinjection_avoids_original_path,
    law_round_robin_choice, law_round_robin_finds_a_path, law_round_robin_is_fair,
    lemma_first_lowest_exists,
};
use crate::multipath::schedulers::minrtt::{
    by_rtt, by_send_time, first_lowest, is_first_lowest, lemma_first_lowest, minrtt_decision,
    ready_with, sending_with,
};
use crate::multipath::schedulers::round_robin::{
    candidates, in_tier, pass, round_robin_decision, Tier,
};
use crate::path::{PathAppStatus, PathState};
use vstd::prelude::*;

verus! {

/// Whether an entry shows a path as it is.
pub open spec fn shows(i: PathInfo, p: PathSnapshot) -> bool {
    &&& i.path_id == p.path_id
    &&& i.local_addr == p.local_addr
    &&& i.peer_addr == p.peer_addr
    &&& i.state == p.state
    &&& i.app_status == p.app_status
    &&& i.srtt == p.rtt
    &&& i.rttvar == p.rttvar
    &&& i.min_rtt == p.min_rtt
    &&& i.cwnd == p.cwnd
    &&& i.cwnd_available == p.cwnd_available
    &&& i.bytes_in_flight == p.bytes_in_flight
    &&& i.est_bandwidth_bps == Some(p.delivery_rate_bps)
    &&& i.loss_rate.lost == p.bytes_lost
    &&& i.loss_rate.total == p.total_acked_bytes + p.bytes_lost
    &&& i.mtu == p.max_datagram_size
    &&& i.next_send_time == p.next_send_time
    &&& i.pacing_rate_bps matches Some(bits) && bits == 8 * p.pacing_rate
}

/// Whether the byte counts and the rate of a path can be shown.
pub open spec fn showable(p: PathSnapshot) -> bool {
    p.total_acked_bytes + p.bytes_lost <= u64::MAX && p.pacing_rate * 8 <= u64::MAX
}

/// One more path is one more entry, which shows it as it is, unless it is closing or
/// closed; the entries of the others stay.
pub proof fn law_each_open_path_is_shown_once(paths: Seq<PathSnapshot>, p: PathSnapshot)
    requires
        showable(p),
    ensures
        infos(Seq::empty()) == Seq::<PathInfo>::empty(),
        p.mp_closing || p.mp_closed ==> infos(paths.push(p)) == infos(paths),
        !p.mp_closing && !p.mp_closed ==> infos(paths.push(p)).len() == infos(paths).len() + 1
            && infos(paths.push(p)).drop_last() == infos(paths) && shows(
            infos(paths.push(p)).last(),
            p,
        ),
{
    reveal(Seq::filter);
    assert(infos(Seq::empty()) =~= Seq::<PathInfo>::empty());
    paths.lemma_filter_push(p, is_open());
    if is_open()(p) {
        assert(infos(paths.push(p)) =~= infos(paths).push(info_of(p)));
        assert(infos(paths).push(info_of(p)).drop_last() =~= infos(paths));
    }
}

/// Each entry shows a path that is neither closing nor closed.
pub proof fn law_entry_is_an_open_path(paths: Seq<PathSnapshot>, k: int) -> (j: int)
    requires
        forall|j: int| 0 <= j < paths.len() ==> showable(#[trigger] paths[j]),
        0 <= k < infos(paths).len(),
    ensures
        0 <= j < paths.len(),
        shows(infos(paths)[k], paths[j]),
        !paths[j].mp_closing,
        !paths[j].mp_closed,
{
    let open = paths.filter(is_open());
    paths.lemma_filter_pred(is_open(), k);
    paths.lemma_filter_contains_rev(is_open(), open[k]);
    let j = choose|j: int| 0 <= j < paths.len() && paths[j] == open[k];
    assert(showable(paths[j]));
    assert(infos(paths)[k] == info_of(open[k]));
    j
}

/// Each path that is neither closing nor closed is shown.
pub proof fn law_open_path_has_an_entry(paths: Seq<PathSnapshot>, j: int) -> (k: int)
    requires
        0 <= j < paths.len(),
        showable(paths[j]),
        !paths[j].mp_closing,
        !paths[j].mp_closed,
    ensures
        0 <= k < infos(paths).len(),
        shows(infos(paths)[k], paths[j]),
{
    let open = paths.filter(is_open());
    paths.lemma_filter_contains(is_open(), j);
    let k = choose|k: int| 0 <= k < open.len() && open[k] == paths[j];
    assert(infos(paths)[k] == info_of(open[k]));
    k
}

/// Whether a path can carry data now: it is validated, its congestion window has space
/// and its pacer does not hold it back.
pub open spec fn carries_now(p: PathInfo, now: u128) -> bool {
    &&& p.state == PathState::Validated
    &&& p.cwnd_available > 0
    &&& match p.next_send_time {
        None => true,
        Some(t) => t <= now,
    }
}

/// The MinRTT scheduler sends on a validated path with congestion window space. Where
/// some path can carry data now it is one of them, none of its status that can has a
/// lower RTT, and it is a Backup path only where no Available one can. Where all are
/// held back it is an Available one if there is any, and none of its status is let go
/// earlier.
pub proof fn law_minrtt_sends_on_the_fastest_path(paths: Seq<PathInfo>, now: u128, id: u64) -> (i:
    int)
    requires
        minrtt_decision(paths, now) == SchedulerDecision::Send(id),
    ensures
        0 <= i < paths.len(),
        paths[i].path_id == id,
        paths[i].state == PathState::Validated,
        paths[i].cwnd_available > 0,
        forall|j: int|
            0 <= j < paths.len() && carries_now(#[trigger] paths[j], now) ==> carries_now(
                paths[i],
                now,
            ),
        carries_now(paths[i], now) ==> forall|j: int|
            0 <= j < paths.len() && carries_now(#[trigger] paths[j], now) && paths[j].app_status
                == paths[i].app_status ==> paths[i].srtt <= paths[j].srtt,
        carries_now(paths[i], now) && paths[i].app_status == PathAppStatus::Backup ==> forall|j: int|
            0 <= j < paths.len() && carries_now(#[trigger] paths[j], now) ==> paths[j].app_status
                == PathAppStatus::Backup,
        !carries_now(paths[i], now) ==> forall|j: int|
            0 <= j < paths.len() && (#[trigger] paths[j]).state == PathState::Validated
                && paths[j].cwnd_available > 0 ==> (paths[i].app_status == PathAppStatus::Backup
                ==> paths[j].app_status == PathAppStatus::Backup) && (paths[j].app_status
                == paths[i].app_status ==> paths[i].next_send_time.unwrap()
                <= paths[j].next_send_time.unwrap()),
{
    let i0 = law_minrtt_choice(paths, now, id);
    let ra = ready_with(PathAppStatus::Available, now);
    let rb = ready_with(PathAppStatus::Backup, now);
    let sa = sending_with(PathAppStatus::Available);
    let sb = sending_with(PathAppStatus::Backup);
    if carries_now(paths[i0], now) {
        assert forall|j: int|
            0 <= j < paths.len() && carries_now(#[trigger] paths[j], now) && paths[j].app_status
                == paths[i0].app_status implies paths[i0].srtt <= paths[j].srtt by {
            assert(can_send(paths[j]));
        }
        if paths[i0].app_status == PathAppStatus::Backup {
            assert forall|j: int|
                0 <= j < paths.len() && carries_now(
                    #[trigger] paths[j],
                    now,
                ) implies paths[j].app_status == PathAppStatus::Backup by {
                assert(can_send(paths[j]));
            }
        }
        i0
    } else {
        assert forall|j: int| 0 <= j < paths.len() implies !carries_now(
            #[trigger] paths[j],
            now,
        ) by {
            if carries_now(paths[j], now) {
                assert(can_send(paths[j]));
            }
        }
        assert forall|j: int| 0 <= j < paths.len() implies !ra(#[trigger] paths[j]) && !rb(
            paths[j],
        ) by {
            assert(!carries_now(paths[j], now));
        }
        let s = if first_lowest(paths, sa, by_send_time()) is Some {
            sa
        } else {
            sb
        };
        lemma_first_lowest_exists(paths, s, by_send_time());
        let i = choose|i: int| is_first_lowest(paths, s, by_send_time(), i);
        assert(paths[i].path_id == id);
        assert(!carries_now(paths[i], now));
        assert forall|j: int|
            0 <= j < paths.len() && (#[trigger] paths[j]).state == PathState::Validated
                && paths[j].cwnd_available > 0 implies (paths[i].app_status
            == PathAppStatus::Backup ==> paths[j].app_status == PathAppStatus::Backup) && (
        paths[j].app_status == paths[i].app_status ==> paths[i].next_send_time.unwrap()
            <= paths[j].next_send_time.unwrap()) by {
            assert(!carries_now(paths[j], now));
            if paths[j].app_status == PathAppStatus::Available {
                assert(sa(paths[j]));
            } else {
                assert(sb(paths[j]));
            }
        }
        i
    }
}

/// Of the paths that can carry data now, the MinRTT scheduler sends on the first one with
/// the lowest RTT; on a Backup path only where no Available one can.
pub proof fn law_minrtt_takes_the_first_of_the_fastest(paths: Seq<PathInfo>, now: u128, i: int)
    requires
        0 <= i < paths.len(),
        carries_now(paths[i], now),
        paths[i].app_status == PathAppStatus::Backup ==> forall|j: int|
            0 <= j < paths.len() && (#[trigger] paths[j]).app_status == PathAppStatus::Available
                ==> !carries_now(paths[j], now),
        forall|j: int|
            0 <= j < paths.len() && carries_now(#[trigger] paths[j], now) && paths[j].app_status
                == paths[i].app_status ==> paths[i].srtt <= paths[j].srtt && (j < i
                ==> paths[i].srtt < paths[j].srtt),
    ensures
        minrtt_decision(paths, now) == SchedulerDecision::Send(paths[i].path_id),
{
    let k = ready_with(paths[i].app_status, now);
    let ra = ready_with(PathAppStatus::Available, now);
    assert forall|j: int| 0 <= j < paths.len() && k(#[trigger] paths[j]) implies paths[i].srtt
        <= paths[j].srtt && (j < i ==> paths[i].srtt < paths[j].srtt) by {
        assert(carries_now(paths[j], now));
    }
    assert(k(paths[i]));
    assert(is_first_lowest(paths, k, by_rtt(), i));
    lemma_first_lowest(paths, k, by_rtt(), i);
    if paths[i].app_status == PathAppStatus::Backup {
        assert forall|j: int| 0 <= j < paths.len() implies !ra(#[trigger] paths[j]) by {
            if ra(paths[j]) {
                assert(carries_now(paths[j], now));
            }
        }
    }
}

/// Where the pacers hold all paths back, the MinRTT scheduler sends on the first one that is
/// let go the earliest; on a Backup path only where no Available one is validated and has
/// congestion window space.
pub proof fn law_minrtt_takes_the_first_to_be_let_go(
    paths: Seq<PathInfo>,
    now: u128,
    i: int,
    t: u128,
)
    requires
        forall|j: int| 0 <= j < paths.len() ==> !carries_now(#[trigger] paths[j], now),
        0 <= i < paths.len(),
        paths[i].state == PathState::Validated,
        paths[i].cwnd_available > 0,
        paths[i].next_send_time == Some(t),
        paths[i].app_status == PathAppStatus::Backup ==> forall|j: int|
            0 <= j < paths.len() && (#[trigger] paths[j]).app_status == PathAppStatus::Available
                && paths[j].cwnd_available > 0 ==> paths[j].state != PathState::Validated,
        forall|j: int|
            0 <= j < paths.len() && (#[trigger] paths[j]).state == PathState::Validated
                && paths[j].cwnd_available > 0 && paths[j].app_status == paths[i].app_status ==> (
            paths[j].next_send_time matches Some(u) && t <= u && (j < i ==> t < u)),
    ensures
        minrtt_decision(paths, now) == SchedulerDecision::Send(paths[i].path_id),
{
    let k = sending_with(paths[i].app_status);
    let ra = ready_with(PathAppStatus::Available, now);
    let rb = ready_with(PathAppStatus::Backup, now);
    let sa = sending_with(PathAppStatus::Available);
    assert forall|j: int| 0 <= j < paths.len() implies !ra(#[trigger] paths[j]) && !rb(
        paths[j],
    ) by {
        assert(!carries_now(paths[j], now));
    }
    assert(k(paths[i]));
    assert(is_first_lowest(paths, k, by_send_time(), i));
    lemma_first_lowest(paths, k, by_send_time(), i);
    if paths[i].app_status == PathAppStatus::Backup {
        assert forall|j: int| 0 <= j < paths.len() implies !sa(#[trigger] paths[j]) by {
            assert(paths[j].app_status == PathAppStatus::Available && paths[j].cwnd_available > 0
                ==> paths[j].state != PathState::Validated);
        }
    }
}

/// Whether a scheduler's answer is right where it does not name a path: none is
/// validated and has congestion window space, and whether any is validated at all is
/// told.
pub open spec fn explains(paths: Seq<PathInfo>, d: SchedulerDecision) -> bool {
    &&& !(d is Send) ==> forall|i: int|
        0 <= i < paths.len() ==> !((#[trigger] paths[i]).state == PathState::Validated
            && paths[i].cwnd_available > 0)
    &&& d == SchedulerDecision::AllBlocked ==> exists|i: int|
        0 <= i < paths.len() && (#[trigger] paths[i]).state == PathState::Validated
    &&& d == SchedulerDecision::NoAvailablePath ==> forall|i: int|
        0 <= i < paths.len() ==> (#[trigger] paths[i]).state != PathState::Validated
}

/// Both schedulers name a path wherever one is validated and has congestion window
/// space, and otherwise say whether any is validated.
pub proof fn law_schedulers_explain_why_nothing_is_sent(
    last: nat,
    paths: Seq<PathInfo>,
    packet: PacketMeta,
)
    ensures
        explains(paths, minrtt_decision(paths, packet.now)),
        explains(paths, round_robin_decision(last, paths, packet).1),
{
    law_minrtt_finds_a_path(paths, packet.now);
    law_round_robin_finds_a_path(last, paths, packet);
    let m = minrtt_decision(paths, packet.now);
    let r = round_robin_decision(last, paths, packet).1;
    if !(m is Send) || !(r is Send) {
        assert forall|i: int| 0 <= i < paths.len() implies !((#[trigger] paths[i]).state
            == PathState::Validated && paths[i].cwnd_available > 0) by {
            assert(!can_send(paths[i]));
        }
    }
}

/// The round-robin scheduler sends on a validated path with congestion window space,
/// never on a Backup path while an Available one has it, and on one that is held back
/// only where no Available one can carry data now; of a packet that is no
/// reinjection.
pub proof fn law_round_robin_prefers_available_paths(
    last: nat,
    paths: Seq<PathInfo>,
    packet: PacketMeta,
    id: u64,
)
    requires
        !packet.is_reinjection,
        round_robin_decision(last, paths, packet).1 == SchedulerDecision::Send(id),
    ensures
        exists|i: int|
            {
                &&& 0 <= i < paths.len()
                &&& (#[trigger] paths[i]).path_id == id
                &&& paths[i].state == PathState::Validated
                &&& paths[i].cwnd_available > 0
                &&& paths[i].app_status == PathAppStatus::Backup ==> forall|j: int|
                    0 <= j < paths.len() && (#[trigger] paths[j]).state == PathState::Validated
                        && paths[j].cwnd_available > 0 ==> paths[j].app_status
                        == PathAppStatus::Backup
                &&& !carries_now(paths[i], packet.now) ==> forall|j: int|
                    0 <= j < paths.len() && (#[trigger] paths[j]).app_status
                        == PathAppStatus::Available ==> !carries_now(paths[j], packet.now)
            },
{
    let now = packet.now;
    let ready = candidates(paths, Tier::Ready, None, now);
    let usable = candidates(paths, Tier::Available, None, now);
    let backup = candidates(paths, Tier::Backup, None, now);
    let (tier, cs) = if ready.len() > 0 {
        (Tier::Ready, ready)
    } else if usable.len() > 0 {
        (Tier::Available, usable)
    } else {
        (Tier::Backup, backup)
    };
    let keep = in_tier(tier, None, now);
    assert(pass(last, paths, None, now) is Some);
    let c = (last % cs.len()) as int;
    paths.lemma_filter_pred(keep, c);
    paths.lemma_filter_contains_rev(keep, cs[c]);
    let i = choose|i: int| 0 <= i < paths.len() && paths[i] == cs[c];
    assert(paths[i].path_id == id);
    assert forall|j: int|
        0 <= j < paths.len() && (#[trigger] paths[j]).state == PathState::Validated
            && paths[j].cwnd_available > 0 && paths[j].app_status
            == PathAppStatus::Available implies usable.len() > 0 && (carries_now(paths[j], now)
        ==> ready.len() > 0) by {
        assert(in_tier(Tier::Available, None, now)(paths[j]));
        paths.lemma_filter_contains(in_tier(Tier::Available, None, now), j);
        if carries_now(paths[j], now) {
            assert(in_tier(Tier::Ready, None, now)(paths[j]));
            paths.lemma_filter_contains(in_tier(Tier::Ready, None, now), j);
        }
    }
}

/// A reinjection goes to a path with another ID than the one that the packet was sent
/// on, wherever such a path is validated and has congestion window space.
pub proof fn law_reinjection_leaves_its_path(
    last: nat,
    paths: Seq<PathInfo>,
    packet: PacketMeta,
    original: u64,
    i: int,
)
    requires
        packet.is_reinjection,
        packet.original_path_id == Some(original),
        0 <= i < paths.len(),
        paths[i].state == PathState::Validated,
        paths[i].cwnd_available > 0,
        paths[i].path_id != original,
    ensures
        round_robin_decision(last, paths, packet).1 matches SchedulerDecision::Send(id) && id
            != original && exists|k: int|
            0 <= k < paths.len() && (#[trigger] paths[k]).path_id == id && paths[k].state
                == PathState::Validated && paths[k].cwnd_available > 0,
{
    assert(can_send(paths[i]));
    law_reinjection_avoids_original_path(last, paths, packet, original, i);
    if let SchedulerDecision::Send(id) = round_robin_decision(last, paths, packet).1 {
        law_round_robin_choice(last, paths, packet, id);
        let k = choose|k: int|
            0 <= k < paths.len() && (#[trigger] paths[k]).path_id == id && can_send(paths[k]);
        assert(paths[k].path_id == id);
    }
}

/// Every Available path that can carry data now gets its turn within as many packets
/// as there are paths, while the paths stay as they are.
pub proof fn law_every_ready_path_gets_its_turn(
    last: nat,
    paths: Seq<PathInfo>,
    packet: PacketMeta,
    i: int,
)
    requires
        !packet.is_reinjection,
        0 <= i < paths.len(),
        paths[i].app_status == PathAppStatus::Available,
        carries_now(paths[i], packet.now),
    ensures
        exists|k: nat|
            k < paths.len() && #[trigger] round_robin_decision(
                after_turns(last, paths, packet, k),
                paths,
                packet,
            ).1 == SchedulerDecision::Send(paths[i].path_id),
{
    let keep = in_tier(Tier::Ready, None, packet.now);
    let cs = candidates(paths, Tier::Ready, None, packet.now);
    assert(keep(paths[i]));
    paths.lemma_filter_contains(keep, i);
    paths.lemma_filter_len(keep);
    let m = choose|m: int| 0 <= m < cs.len() && cs[m] == paths[i];
    let n = cs.len() as int;
    let at = (last as int) % n;
    let k: nat = if m >= at {
        (m - at) as nat
    } else {
        (m - at + n) as nat
    };
    law_round_robin_is_fair(last, paths, packet, k);
    assert((last + k) as int % n == m) by {
        vstd::arithmetic::div_mod::lemma_fundamental_div_mod(last as int, n);
        let q = last as int / n;
        let whole = if m >= at {
            q
        } else {
            q + 1
        };
        assert(last + k == whole * n + m) by (nonlinear_arith)
            requires
                last as int == n * q + at,
                k as int == if m >= at {
                    m - at
                } else {
                    m - at + n
                },
                whole == if m >= at {
                    q
                } else {
                    q + 1
                },
        ;
        vstd::arithmetic::div_mod::lemma_fundamental_div_mod_converse(
            (last + k) as int,
            n,
            whole,
            m,
        );
    }
}

/// The schedulers see a Backup path as one: MinRTT sends on a Backup path only where
/// no open Available path is validated, has congestion window space and is not held
/// back by its pacer.
pub proof fn law_backup_waits_for_available_paths(
    paths: Seq<PathSnapshot>,
    now: u128,
    id: u64,
    j: int,
)
    requires
        forall|k: int| 0 <= k < paths.len() ==> showable(#[trigger] paths[k]),
        minrtt_decision(infos(paths), now) == SchedulerDecision::Send(id),
        0 <= j < paths.len(),
        !paths[j].mp_closing && !paths[j].mp_closed,
        paths[j].state == PathState::Validated,
        paths[j].cwnd_available > 0,
        paths[j].app_status == PathAppStatus::Available,
        paths[j].next_send_time matches Some(t) ==> t <= now,
    ensures
        exists|i: int|
            0 <= i < paths.len() && (#[trigger] paths[i]).path_id == id && !paths[i].mp_closing
                && !paths[i].mp_closed && paths[i].state == PathState::Validated
                && paths[i].cwnd_available > 0 && paths[i].app_status == PathAppStatus::Available
                && paths[i].rtt <= paths[j].rtt,
{
    let es = infos(paths);
    let k = law_open_path_has_an_entry(paths, j);
    let m = law_minrtt_sends_on_the_fastest_path(es, now, id);
    assert(carries_now(es[k], now));
    assert(carries_now(es[m], now));
    assert(es[m].app_status == PathAppStatus::Available);
    let i = law_entry_is_an_open_path(paths, m);
    assert(paths[i].path_id == id);
}

/// The best alternative is the lowest RTT of the paths with another ID than the
/// original one's that have congestion window space, and the fallback where there is no
/// such path.
pub proof fn law_best_alternative_is_another_path(
    paths: Seq<PathInfo>,
    original: u64,
    otherwise: u128,
)
    ensures
        ({
            let m = best_alternative(paths, original, otherwise);
            &&& forall|j: int|
                0 <= j < paths.len() && (#[trigger] paths[j]).path_id != original
                    && paths[j].cwnd_available > 0 ==> m <= paths[j].srtt
            &&& (exists|i: int|
                0 <= i < paths.len() && (#[trigger] paths[i]).path_id != original
                    && paths[i].cwnd_available > 0) ==> exists|i: int|
                0 <= i < paths.len() && (#[trigger] paths[i]).path_id != original
                    && paths[i].cwnd_available > 0 && paths[i].srtt == m
            &&& (forall|i: int|
                0 <= i < paths.len() ==> !((#[trigger] paths[i]).path_id != original
                    && paths[i].cwnd_available > 0)) ==> m == otherwise
        }),
{
    let alt = alternative(original);
    if exists|i: int| 0 <= i < paths.len() && alt(#[trigger] paths[i]) {
        lemma_best_exists(paths, original);
        let m = best_alternative(paths, original, otherwise);
        assert(is_best_alternative(paths, original, m));
        assert forall|j: int|
            0 <= j < paths.len() && (#[trigger] paths[j]).path_id != original
                && paths[j].cwnd_available > 0 implies m <= paths[j].srtt by {
            assert(alt(paths[j]));
        }
    } else {
        assert forall|i: int| 0 <= i < paths.len() implies !((#[trigger] paths[i]).path_id
            != original && paths[i].cwnd_available > 0) by {
            assert(!alt(paths[i]));
        }
    }
}

/// Where there is an alternative one of them has the lowest RTT.
proof fn lemma_best_exists(paths: Seq<PathInfo>, original: u64)
    requires
        exists|i: int| 0 <= i < paths.len() && alternative(original)(#[trigger] paths[i]),
    ensures
        exists|m: u128| is_best_alternative(paths, original, m),
    decreases paths.len(),
{
    let alt = alternative(original);
    let front = paths.drop_last();
    let last = paths.last();
    let w = choose|w: int| 0 <= w < paths.len() && alt(#[trigger] paths[w]);
    if exists|i: int| 0 <= i < front.len() && alt(#[trigger] front[i]) {
        lemma_best_exists(front, original);
        let m = choose|m: u128| is_best_alternative(front, original, m);
        let b = choose|b: int| 0 <= b < front.len() && alt(#[trigger] front[b]) && front[b].srtt == m;
        assert(paths[b] == front[b]);
        let best = if alt(last) && last.srtt < m {
            last.srtt
        } else {
            m
        };
        assert(paths[paths.len() - 1] == last);
        assert forall|j: int| 0 <= j < paths.len() && alt(#[trigger] paths[j]) implies best
            <= paths[j].srtt by {
            if j < front.len() {
                assert(front[j] == paths[j]);
            }
        }
        assert(is_best_alternative(paths, original, best));
    } else {
        if w < front.len() {
            assert(front[w] == paths[w]);
        }
        assert forall|j: int| 0 <= j < paths.len() && alt(#[trigger] paths[j]) implies last.srtt
            <= paths[j].srtt by {
            if j < front.len() {
                assert(front[j] == paths[j]);
            }
        }
        assert(is_best_alternative(paths, original, last.srtt));
    }
}

/// The entry of the path that a packet was sent on does not count as an alternative:
/// whatever its RTT and its window, the best alternative is the same.
pub proof fn law_original_path_is_no_alternative(
    paths: Seq<PathInfo>,
    original: u64,
    otherwise: u128,
    i: int,
    entry: PathInfo,
)
    requires
        0 <= i < paths.len(),
        paths[i].path_id == original,
        entry.path_id == original,
    ensures
        best_alternative(paths.update(i, entry), original, otherwise) == best_alternative(
            paths,
            original,
            otherwise,
        ),
{
    let other = paths.update(i, entry);
    law_best_alternative_is_another_path(paths, original, otherwise);
    law_best_alternative_is_another_path(other, original, otherwise);
    let a = best_alternative(paths, original, otherwise);
    let b = best_alternative(other, original, otherwise);
    if exists|k: int|
        0 <= k < paths.len() && (#[trigger] paths[k]).path_id != original
            && paths[k].cwnd_available > 0 {
        let k = choose|k: int|
            0 <= k < paths.len() && (#[trigger] paths[k]).path_id != original
                && paths[k].cwnd_available > 0 && paths[k].srtt == a;
        assert(other[k] == paths[k]);
        let j = choose|j: int|
            0 <= j < other.len() && (#[trigger] other[j]).path_id != original
                && other[j].cwnd_available > 0 && other[j].srtt == b;
        assert(other[j] == paths[j]);
    } else {
        assert forall|k: int| 0 <= k < other.len() implies !((#[trigger] other[k]).path_id
            != original && other[k].cwnd_available > 0) by {
            if k != i {
                assert(other[k] == paths[k]);
            }
        }
    }
}

/// A packet is reinjected at most once, and that of a redundant stream always is; in
/// all other cases time decides.
pub proof fn law_reinjection_is_settled(already: bool, hint: Option<StreamQosHint>)
    ensures
        already ==> settled(already, hint) == Some(false),
        !already && (hint matches Some(h) && h.redundant) ==> settled(already, hint) == Some(true),
        !already && !(hint matches Some(h) && h.redundant) ==> settled(already, hint) is None,
{
}

/// Without a deadline a packet waits for the base time, whatever the alternatives.
/// With one it is reinjected as soon as the adjusted time has passed or an alternative
/// path could no longer make the deadline, and not before.
pub proof fn law_deadline_is_made(
    elapsed: u128,
    base: u128,
    adjusted: u128,
    deadline: u128,
    best_alt_srtt: u128,
)
    ensures
        threshold(base, adjusted, None, best_alt_srtt) == base,
        elapsed > threshold(base, adjusted, Some(deadline), best_alt_srtt) <==> elapsed > adjusted
            || (elapsed > 0 && elapsed + best_alt_srtt > deadline),
{
}

} // verus!
