//! What holds in every state that the operations on connection IDs lead to.

use crate::cid::entries::EntryView;
use crate::cid::model::{
    add_dcid, add_scid, drop_dcid, drop_dcid_pool, drop_path_pools, drop_scid, link_dcid, link_scid,
    mark_retired, marked, mp_add_dcid, mp_add_scid, mp_drop_dcid, mp_drop_scid, new_ids,
    with_source_limit, IdsView,
};
use crate::cid::queue::QueueView;
use vstd::prelude::*;

verus! {

/// An operation that changes the connection IDs of a connection.
#[allow(inconsistent_fields)]
pub enum Operation {
    /// `new_scid`.
    NewScid {
        /// The connection ID.
        cid: Seq<u8>,
        /// Its reset token.
        reset_token: Option<u128>,
        /// Whether it is advertised.
        advertise: bool,
        /// The path using it.
        path_id: Option<usize>,
        /// Whether older ones may be retired.
        retire_if_needed: bool,
    },
    /// `set_initial_dcid`.
    SetInitialDcid {
        /// The connection ID.
        cid: Seq<u8>,
        /// Its reset token.
        reset_token: Option<u128>,
        /// The path using it.
        path_id: Option<usize>,
    },
    /// `new_dcid`.
    NewDcid {
        /// The connection ID.
        cid: Seq<u8>,
        /// Its sequence number.
        seq: u64,
        /// Its reset token.
        reset_token: u128,
        /// The bound below which older ones are retired.
        retire_prior_to: u64,
    },
    /// `retire_scid`.
    RetireScid {
        /// The sequence number.
        seq: u64,
        /// The destination of the packet that asks for it.
        pkt_dcid: Seq<u8>,
    },
    /// `retire_dcid`.
    RetireDcid {
        /// The sequence number.
        seq: u64,
    },
    /// `set_source_conn_id_limit`.
    SetSourceLimit {
        /// The limit.
        v: u64,
    },
    /// `link_scid_to_path_id`.
    LinkScid {
        /// The sequence number.
        seq: u64,
        /// The path.
        path_id: usize,
    },
    /// `mark_advertise_new_scid_seq`.
    MarkAdvertise {
        /// The sequence number.
        seq: u64,
        /// Whether it is added.
        advertise: bool,
    },
    /// `mark_retire_dcid_seq`.
    MarkRetire {
        /// The sequence number.
        seq: u64,
        /// Whether it is added.
        retire: bool,
    },
    /// `pop_retired_scid`.
    PopRetiredScid,
    /// `mp_new_scid`.
    MpNewScid {
        /// The path ID.
        path_id: u64,
        /// The connection ID.
        cid: Seq<u8>,
        /// Its reset token.
        reset_token: u128,
    },
    /// `mp_new_dcid`.
    MpNewDcid {
        /// The path ID.
        path_id: u64,
        /// The connection ID.
        cid: Seq<u8>,
        /// Its sequence number.
        seq: u64,
        /// Its reset token.
        reset_token: u128,
        /// The bound below which older ones are retired.
        retire_prior_to: u64,
    },
    /// `mp_retire_scid`.
    MpRetireScid {
        /// The path ID.
        path_id: u64,
        /// The sequence number.
        seq: u64,
        /// The destination of the packet that asks for it.
        pkt_dcid: Seq<u8>,
    },
    /// `mp_retire_dcid`.
    MpRetireDcid {
        /// The path ID.
        path_id: u64,
        /// The sequence number.
        seq: u64,
    },
    /// `mp_retire_dcid_pool`.
    MpRetireDcidPool {
        /// The path ID.
        path_id: u64,
    },
    /// `mp_remove_path_pools`.
    MpRemovePathPools {
        /// The path ID.
        path_id: u64,
    },
    /// `link_dcid_to_path_id`, where the path ID is 0, and
    /// `mp_link_dcid_to_path_id`.
    LinkDcid {
        /// The path ID.
        path_id: u64,
        /// The sequence number.
        seq: u64,
        /// The 4-tuple path.
        four_tuple: usize,
    },
    /// `mp_mark_advertise_new_scid`.
    MpMarkAdvertise {
        /// The path ID.
        path_id: u64,
        /// The sequence number.
        seq: u64,
        /// Whether it is added.
        advertise: bool,
    },
    /// `mp_mark_retire_dcid`.
    MpMarkRetire {
        /// The path ID.
        path_id: u64,
        /// The sequence number.
        seq: u64,
        /// Whether it is added.
        retire: bool,
    },
}

/// The state once an operation was carried out.
pub open spec fn after(s: IdsView, op: Operation) -> IdsView {
    match op {
        Operation::NewScid { cid, reset_token, advertise, path_id, retire_if_needed } => add_scid(
            s,
            cid,
            reset_token,
            advertise,
            path_id,
            retire_if_needed,
        ).0,
        Operation::SetInitialDcid { cid, reset_token, path_id } => IdsView {
            zero_length_dcid: cid.len() == 0,
            dcids: QueueView {
                entries: seq![EntryView { cid, seq: 0, reset_token, path_id }],
                ..s.dcids
            },
            ..s
        },
        Operation::NewDcid { cid, seq, reset_token, retire_prior_to } => add_dcid(
            s,
            cid,
            seq,
            reset_token,
            retire_prior_to,
        ).0,
        Operation::RetireScid { seq, pkt_dcid } => drop_scid(s, seq, pkt_dcid).0,
        Operation::RetireDcid { seq } => drop_dcid(s, seq).0,
        Operation::SetSourceLimit { v } => with_source_limit(s, v),
        Operation::LinkScid { seq, path_id } => link_scid(s, seq, path_id).0,
        Operation::MarkAdvertise { seq, advertise } => IdsView {
            advertise: marked(s.advertise, seq, advertise),
            ..s
        },
        Operation::MarkRetire { seq, retire } => IdsView {
            retire: mark_retired(s.retire, s.retire_capacity, seq, retire).0,
            ..s
        },
        Operation::PopRetiredScid => if s.retired_scids.len() > 0 {
            IdsView { retired_scids: s.retired_scids.skip(1), ..s }
        } else {
            s
        },
        Operation::MpNewScid { path_id, cid, reset_token } => mp_add_scid(
            s,
            path_id,
            cid,
            reset_token,
        ).0,
        Operation::MpNewDcid { path_id, cid, seq, reset_token, retire_prior_to } => mp_add_dcid(
            s,
            path_id,
            cid,
            seq,
            reset_token,
            retire_prior_to,
        ).0,
        Operation::MpRetireScid { path_id, seq, pkt_dcid } => mp_drop_scid(
            s,
            path_id,
            seq,
            pkt_dcid,
        ).0,
        Operation::MpRetireDcid { path_id, seq } => mp_drop_dcid(s, path_id, seq).0,
        Operation::MpRetireDcidPool { path_id } => drop_dcid_pool(s, path_id),
        Operation::MpRemovePathPools { path_id } => drop_path_pools(s, path_id),
        Operation::LinkDcid { path_id, seq, four_tuple } => link_dcid(
            s,
            path_id,
            seq,
            four_tuple,
        ).0,
        Operation::MpMarkAdvertise { path_id, seq, advertise } => IdsView {
            mp_advertise: marked(s.mp_advertise, (path_id, seq), advertise),
            ..s
        },
        Operation::MpMarkRetire { path_id, seq, retire } => IdsView {
            mp_retire: mark_retired(s.mp_retire, s.mp_retire_capacity, (path_id, seq), retire).0,
            ..s
        },
    }
}

/// The state once operations were carried out one after the other.
pub open spec fn after_all(s: IdsView, ops: Seq<Operation>) -> IdsView
    decreases ops.len(),
{
    if ops.len() == 0 {
        s
    } else {
        after(after_all(s, ops.drop_last()), ops.last())
    }
}

/// Path 0 never has a pool: in every state that a new connection comes to, the path
/// IDs of the pools do not include 0.
pub proof fn law_pools_are_of_nonzero_paths(
    destination_conn_id_limit: usize,
    scid: Seq<u8>,
    path_id: usize,
    reset_token: Option<u128>,
    ops: Seq<Operation>,
)
    ensures
        !after_all(
            new_ids(destination_conn_id_limit, scid, path_id, reset_token),
            ops,
        ).pools.contains_key(0),
    decreases ops.len(),
{
    if ops.len() > 0 {
        law_pools_are_of_nonzero_paths(
            destination_conn_id_limit,
            scid,
            path_id,
            reset_token,
            ops.drop_last(),
        );
    }
}

/// A path has a pool once a connection ID was issued or announced for it.
pub proof fn law_used_path_has_a_pool(
    s: IdsView,
    path_id: u64,
    cid: Seq<u8>,
    seq: u64,
    reset_token: u128,
    retire_prior_to: u64,
)
    requires
        path_id != 0,
    ensures
        mp_add_scid(s, path_id, cid, reset_token).1 is Ok ==> mp_add_scid(
            s,
            path_id,
            cid,
            reset_token,
        ).0.pools.contains_key(path_id),
        mp_add_dcid(s, path_id, cid, seq, reset_token, retire_prior_to).2 is Ok ==> mp_add_dcid(
            s,
            path_id,
            cid,
            seq,
            reset_token,
            retire_prior_to,
        ).0.pools.contains_key(path_id),
{
}

/// The pool of a path stays until it is removed, whatever else is done: draining it
/// does not remove it.
pub proof fn law_pool_stays_until_removed(s: IdsView, path_id: u64, ops: Seq<Operation>)
    requires
        s.pools.contains_key(path_id),
        forall|i: int|
            0 <= i < ops.len() ==> #[trigger] ops[i] != (Operation::MpRemovePathPools { path_id }),
    ensures
        after_all(s, ops).pools.contains_key(path_id),
    decreases ops.len(),
{
    if ops.len() > 0 {
        let front = ops.drop_last();
        assert forall|i: int| 0 <= i < front.len() implies #[trigger] front[i] != (
        Operation::MpRemovePathPools { path_id }) by {
            assert(front[i] == ops[i]);
        }
        law_pool_stays_until_removed(s, path_id, front);
        assert(ops[ops.len() - 1] == ops.last());
    }
}

/// Removing the pools of a non-zero path removes it from the path IDs of the pools,
/// and only it.
pub proof fn law_removed_path_has_no_pool(s: IdsView, path_id: u64, other: u64)
    requires
        path_id != 0,
    ensures
        !drop_path_pools(s, path_id).pools.contains_key(path_id),
        other != path_id ==> drop_path_pools(s, path_id).pools.contains_key(other)
            == s.pools.contains_key(other),
{
}

} // verus!
