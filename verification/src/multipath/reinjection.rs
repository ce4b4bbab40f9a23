//! Reinjection controller trait and the rules of the default one.

use crate::multipath::scheduler::{PacketContentType, PathInfo};
use vstd::prelude::*;

verus! {

/// Application-provided QoS requirements per stream. Times are in nanoseconds.
#[derive(Debug, Clone, Copy, PartialEq, Eq)]
pub struct StreamQosHint {
    /// The stream.
    pub stream_id: u64,
    /// The time by which its data is needed, if any.
    pub deadline: Option<u128>,
    /// The higher, the earlier its data is reinjected.
    pub priority: u8,
    /// Whether its data is always sent on more than one path.
    pub redundant: bool,
}

/// When to perform reinjection relative to normal scheduling.
#[derive(Debug, Clone, Copy, PartialEq, Eq, Structural)]
pub enum ReinjectionMode {
    /// Once normal scheduling has nothing left.
    AfterScheduling,
    /// Before normal scheduling.
    BeforeScheduling,
}

impl Default for ReinjectionMode {
    fn default() -> (r: Self)
        ensures
            r == ReinjectionMode::AfterScheduling,
    {
        ReinjectionMode::AfterScheduling
    }
}

/// Information about a packet that is a candidate for reinjection. Times are in
/// nanoseconds.
#[derive(Debug, Clone, Copy)]
pub struct ReinjectionCandidate {
    /// The packet number.
    pub packet_number: u64,
    /// The path it was sent on.
    pub original_path_id: u64,
    /// The time at which it was sent.
    pub sent_time: u128,
    /// Its size in bytes.
    pub size: usize,
    /// What it carries.
    pub content_type: PacketContentType,
    /// Whether it was reinjected before.
    pub is_already_reinjected: bool,
}

/// Context for reinjection decisions. Times are in nanoseconds.
pub struct ReinjectionContext<'a> {
    /// The path the packet was sent on.
    pub original_path: &'a PathInfo,
    /// All the paths.
    pub all_paths: &'a [PathInfo],
    /// The time that passed since the packet was sent.
    pub elapsed_since_sent: u128,
    /// The requirements of its stream, if any.
    pub qos_hint: Option<&'a StreamQosHint>,
}

/// Implement this trait to create custom reinjection strategies.
pub trait ReinjectionController: Send {
    /// Whether the packet is to be sent on another path too.
    fn should_reinject(
        &mut self,
        candidate: &ReinjectionCandidate,
        ctx: &ReinjectionContext,
    ) -> (r: bool);
}

/// Factory for creating per-connection reinjection controller instances.
pub trait ReinjectionControllerFactory: Send + Sync {
    /// The controllers that it creates.
    type Created: ReinjectionController;

    /// Create a new controller instance for a connection.
    fn create(&self) -> (r: Self::Created);
}

/// What is settled without looking at any time: nothing is reinjected twice, and
/// redundant streams always are.
pub open spec fn settled(already: bool, hint: Option<StreamQosHint>) -> Option<bool> {
    if already {
        Some(false)
    } else if hint matches Some(h) && h.redundant {
        Some(true)
    } else {
        None
    }
}

/// Settles what does not depend on any time.
pub fn settle(candidate: &ReinjectionCandidate, qos_hint: Option<&StreamQosHint>) -> (r: Option<
    bool,
>)
    ensures
        r == settled(
            candidate.is_already_reinjected,
            match qos_hint {
                Some(h) => Some(*h),
                None => None,
            },
        ),
{
    if candidate.is_already_reinjected {
        return Some(false);
    }
    if let Some(hint) = qos_hint {
        if hint.redundant {
            return Some(true);
        }
    }
    None
}

/// The paths other than the original one whose congestion window has space
/// satisfy this.
pub open spec fn alternative(original: u64) -> spec_fn(PathInfo) -> bool {
    |p: PathInfo| p.path_id != original && p.cwnd_available > 0
}

/// Whether `m` is the lowest smoothed RTT of the alternatives.
pub open spec fn is_best_alternative(paths: Seq<PathInfo>, original: u64, m: u128) -> bool {
    let alt = alternative(original);
    &&& exists|i: int| 0 <= i < paths.len() && alt(#[trigger] paths[i]) && paths[i].srtt == m
    &&& forall|i: int| 0 <= i < paths.len() && alt(#[trigger] paths[i]) ==> m <= paths[i].srtt
}

/// The lowest smoothed RTT of the alternatives, or `otherwise` where there are
/// none.
pub open spec fn best_alternative(paths: Seq<PathInfo>, original: u64, otherwise: u128) -> u128 {
    if exists|i: int| 0 <= i < paths.len() && alternative(original)(#[trigger] paths[i]) {
        choose|m: u128| is_best_alternative(paths, original, m)
    } else {
        otherwise
    }
}

/// The lowest smoothed RTT of the alternatives, or that of the original path
/// where there are none.
pub fn best_alternative_srtt(paths: &[PathInfo], original_path_id: u64, original_srtt: u128) -> (r:
    u128)
    ensures
        r == best_alternative(paths@, original_path_id, original_srtt),
{
    let ghost alt = alternative(original_path_id);
    let mut best: Option<u128> = None;
    let mut i: usize = 0;
    while i < paths.len()
        invariant
            i <= paths@.len(),
            alt == alternative(original_path_id),
            match best {
                Some(m) => {
                    &&& exists|j: int|
                        0 <= j < i && alt(#[trigger] paths@[j]) && paths@[j].srtt == m
                    &&& forall|j: int|
                        0 <= j < i && alt(#[trigger] paths@[j]) ==> m <= paths@[j].srtt
                },
                None => forall|j: int| 0 <= j < i ==> !alt(#[trigger] paths@[j]),
            },
        decreases paths@.len() - i,
    {
        let p = &paths[i];
        if p.path_id != original_path_id && p.cwnd_available > 0 {
            let better: bool = match best {
                Some(m) => p.srtt < m,
                None => true,
            };
            if better {
                best = Some(p.srtt);
            }
            assert(alt(paths@[i as int]));
        }
        i += 1;
    }
    match best {
        Some(m) => {
            proof {
                assert(is_best_alternative(paths@, original_path_id, m));
                let c = choose|c: u128| is_best_alternative(paths@, original_path_id, c);
                let i = choose|i: int|
                    0 <= i < paths@.len() && alt(#[trigger] paths@[i]) && paths@[i].srtt == m;
                let j = choose|j: int|
                    0 <= j < paths@.len() && alt(#[trigger] paths@[j]) && paths@[j].srtt == c;
                assert(c <= paths@[i].srtt);
                assert(m <= paths@[j].srtt);
            }
            m
        },
        None => original_srtt,
    }
}

/// The time after which a packet is reinjected: `base`, or, where its stream has
/// a deadline, the earlier of `adjusted` and the last time at which an
/// alternative path of round-trip time `best_alt_srtt` still makes the deadline.
pub open spec fn threshold(
    base: u128,
    adjusted: u128,
    deadline: Option<u128>,
    best_alt_srtt: u128,
) -> u128 {
    match deadline {
        None => base,
        Some(d) => {
            let latest = if d >= best_alt_srtt {
                (d - best_alt_srtt) as u128
            } else {
                0
            };
            if adjusted < latest {
                adjusted
            } else {
                latest
            }
        },
    }
}

/// Whether a packet whose case is not settled is reinjected. `base` is the
/// smoothed RTT of its path scaled by the controller's multiplier, and `adjusted`
/// is `base` scaled by the priority of its stream.
pub fn past_threshold(
    candidate: &ReinjectionCandidate,
    ctx: &ReinjectionContext,
    base: u128,
    adjusted: u128,
) -> (r: bool)
    ensures
        r == (ctx.elapsed_since_sent > threshold(
            base,
            adjusted,
            match ctx.qos_hint {
                Some(h) => h.deadline,
                None => None,
            },
            best_alternative(
                ctx.all_paths@,
                candidate.original_path_id,
                ctx.original_path.srtt,
            ),
        )),
{
    let best: u128 = best_alternative_srtt(
        ctx.all_paths,
        candidate.original_path_id,
        ctx.original_path.srtt,
    );
    let deadline: Option<u128> = match ctx.qos_hint {
        Some(h) => h.deadline,
        None => None,
    };
    let limit: u128 = match deadline {
        None => base,
        Some(d) => {
            let latest: u128 = if d >= best {
                d - best
            } else {
                0
            };
            if adjusted < latest {
                adjusted
            } else {
                latest
            }
        },
    };
    ctx.elapsed_since_sent > limit
}

/// Whether a packet is reinjected: what is settled without looking at any time
/// decides, else whether its threshold has passed. `base` is the smoothed RTT of its
/// path scaled by the controller's multiplier, and `adjusted` is `base` scaled by the
/// priority of its stream.
pub fn decide(
    candidate: &ReinjectionCandidate,
    ctx: &ReinjectionContext,
    base: u128,
    adjusted: u128,
) -> (r: bool)
    ensures
        r == match settled(
            candidate.is_already_reinjected,
            match ctx.qos_hint {
                Some(h) => Some(*h),
                None => None,
            },
        ) {
            Some(b) => b,
            None => ctx.elapsed_since_sent > threshold(
                base,
                adjusted,
                match ctx.qos_hint {
                    Some(h) => h.deadline,
                    None => None,
                },
                best_alternative(
                    ctx.all_paths@,
                    candidate.original_path_id,
                    ctx.original_path.srtt,
                ),
            ),
        },
{
    match settle(candidate, ctx.qos_hint) {
        Some(b) => b,
        None => past_threshold(candidate, ctx, base, adjusted),
    }
}

} // verus!
