//! Beginning a packet: its number, its connection IDs and its room.

use crate::cid::entries::{entry_with_seq, EntryView};
use crate::error::Error;
use crate::packet::{ConnectionId, Type};
use crate::send::state::{ConnFields, PathFields, Sender, SenderView};
use vstd::prelude::*;

verus! {

/// The number of bytes that the length of a payload takes, in packets that have
/// it.
pub const PAYLOAD_LENGTH_LEN: usize = 2;

/// The least number of bytes of a payload.
pub const PAYLOAD_MIN_LEN: usize = 4;

/// Whether a packet is numbered in the packet number space of its path. A
/// connection with a single path keeps using the shared space.
pub open spec fn uses_path_numbers(s: SenderView, ty: Type) -> bool {
    s.conn.config.multipath_enabled && ty == Type::Short && s.paths.len() > 1
}

/// The state once a packet on the path at `pid` was given its number, and that
/// number. A number of the shared space is used up only once the packet is sent.
pub open spec fn numbered(s: SenderView, pid: int, ty: Type, skip: bool) -> (SenderView, u64) {
    if uses_path_numbers(s, ty) {
        let p = s.path(pid);
        (
            s.with_path(
                pid,
                PathFields { mp_next_pkt_num: (p.mp_next_pkt_num + 1) as u64, ..p },
            ),
            p.mp_next_pkt_num,
        )
    } else if skip {
        (
            s.with_conn(
                ConnFields {
                    skipped_pkt_num: Some(s.conn.next_pkt_num),
                    next_pkt_num: (s.conn.next_pkt_num + 1) as u64,
                    ..s.conn
                },
            ),
            (s.conn.next_pkt_num + 1) as u64,
        )
    } else {
        (s, s.conn.next_pkt_num)
    }
}

/// The connection ID of an entry, or an error where there is none.
pub open spec fn cid_of(e: Option<EntryView>) -> Result<Seq<u8>, Error> {
    match e {
        Some(x) => Ok(x.cid),
        None => Err(Error::InvalidState),
    }
}

/// The destination and source connection IDs of a packet on the path at `pid`.
pub open spec fn packet_cids(s: SenderView, pid: int, ty: Type) -> Result<
    (Seq<u8>, Seq<u8>),
    Error,
> {
    let p = s.path(pid);
    let space: u64 = if p.mp_per_path_cids {
        p.path_id
    } else {
        0
    };
    match p.active_dcid_seq {
        None => Err(Error::OutOfIdentifiers),
        Some(dcid_seq) => match cid_of(entry_with_seq(s.ids.dcids_of(space), dcid_seq)) {
            Err(e) => Err(e),
            Ok(dcid) => match p.active_scid_seq {
                Some(scid_seq) => match cid_of(entry_with_seq(s.ids.scids_of(space), scid_seq)) {
                    Err(e) => Err(e),
                    Ok(scid) => Ok((dcid, scid)),
                },
                None => if ty == Type::Short {
                    Ok((dcid, Seq::empty()))
                } else {
                    Err(Error::InvalidState)
                },
            },
        },
    }
}

impl Sender {
    /// Whether a packet is numbered in the packet number space of its path.
    pub fn numbers_by_path(&self, ty: Type) -> (r: bool)
        ensures
            r == uses_path_numbers(self@, ty),
    {
        self.conn.config.multipath_enabled && ty == Type::Short && self.paths.len() > 1
    }

    /// Gives a packet on the path at `pid` its number, and says whether it is one
    /// of the path's own packet number space. `skip` asks for a number of the
    /// shared space to be skipped.
    pub fn number_packet(&mut self, pid: usize, ty: Type, skip: bool) -> (r: (u64, bool))
        requires
            old(self).wf(),
            pid < old(self)@.paths.len(),
            uses_path_numbers(old(self)@, ty) ==> old(self)@.path(pid as int).mp_next_pkt_num
                < u64::MAX,
            !uses_path_numbers(old(self)@, ty) && skip ==> old(self)@.conn.next_pkt_num < u64::MAX,
        ensures
            final(self).wf(),
            (final(self)@, r.0) == numbered(old(self)@, pid as int, ty, skip),
            r.1 == uses_path_numbers(old(self)@, ty),
    {
        if self.numbers_by_path(ty) {
            let mut p: PathFields = self.paths[pid].fields;
            let pn: u64 = p.mp_next_pkt_num;
            p.mp_next_pkt_num = pn + 1;
            self.set_path(pid, p);
            (pn, true)
        } else {
            if skip {
                let mut c: ConnFields = self.conn;
                c.skipped_pkt_num = Some(c.next_pkt_num);
                c.next_pkt_num = c.next_pkt_num + 1;
                self.set_conn(c);
            }
            (self.conn.next_pkt_num, false)
        }
    }

    /// The destination and source connection IDs of a packet on the path at `pid`.
    ///
    /// Paths opened by consuming a per-path CID resolve their Connection IDs
    /// from their path ID's own pools; other paths resolve from those of path 0.
    pub fn connection_ids(&self, pid: usize, ty: Type) -> (r: Result<
        (ConnectionId, ConnectionId),
        Error,
    >)
        requires
            self.wf(),
            pid < self@.paths.len(),
        ensures
            match packet_cids(self@, pid as int, ty) {
                Ok((dcid, scid)) => r matches Ok((d, s)) && d@ == dcid && s@ == scid,
                Err(e) => r matches Err(x) && x == e,
            },
    {
        let p = self.paths[pid].fields;
        let space: u64 = if p.mp_per_path_cids {
            p.path_id
        } else {
            0
        };
        let dcid_seq: u64 = match p.active_dcid_seq {
            Some(seq) => seq,
            None => {
                return Err(Error::OutOfIdentifiers);
            },
        };
        let dcid = match self.ids.mp_get_dcid(space, dcid_seq) {
            Ok(e) => e.cid.clone(),
            Err(e) => {
                return Err(e);
            },
        };
        match p.active_scid_seq {
            Some(scid_seq) => match self.ids.mp_get_scid(space, scid_seq) {
                Ok(e) => Ok((dcid, e.cid.clone())),
                Err(e) => Err(e),
            },
            None => {
                if ty == Type::Short {
                    Ok((dcid, ConnectionId::default()))
                } else {
                    Err(Error::InvalidState)
                }
            },
        }
    }
}

/// The space required for a packet besides its payload: the header, the packet
/// number, the AEAD overhead and, in long header packets, the payload length.
pub open spec fn packet_overhead(header_len: usize, pn_len: usize, crypto: usize, ty: Type) -> int {
    header_len + pn_len + crypto + if ty != Type::Short {
        2int
    } else {
        0int
    }
}

/// The room for the frames of a packet in a buffer of `cap` bytes on a path of the
/// given MTU, if it suffices for a payload.
pub open spec fn packet_room(cap: usize, mtu: Option<usize>, overhead: int) -> Option<int> {
    let most: int = match mtu {
        Some(m) if m < cap => m as int,
        _ => cap as int,
    };
    if most - overhead < PAYLOAD_MIN_LEN {
        None
    } else {
        Some(most - overhead)
    }
}

/// Calculates the space required for a packet besides its payload.
pub fn overhead_of(header_len: usize, pn_len: usize, crypto: usize, ty: Type) -> (r: usize)
    requires
        header_len + pn_len + crypto + 2 <= usize::MAX,
    ensures
        r == packet_overhead(header_len, pn_len, crypto, ty),
{
    let n: usize = header_len + pn_len + crypto;
    // We assume that the payload length, which is only present in long header
    // packets, can always be encoded with a 2-byte varint.
    if ty != Type::Short {
        n + PAYLOAD_LENGTH_LEN
    } else {
        n
    }
}

/// Calculates the room for the frames of a packet, `None` where it does not suffice
/// for a payload.
pub fn room_for_frames(cap: usize, mtu: Option<usize>, overhead: usize) -> (r: Option<usize>)
    ensures
        match packet_room(cap, mtu, overhead as int) {
            Some(n) => r matches Some(m) && m == n,
            None => r is None,
        },
{
    // Limit output buffer size by estimated path MTU.
    let most: usize = match mtu {
        Some(m) => if m < cap {
            m
        } else {
            cap
        },
        None => cap,
    };
    match most.checked_sub(overhead) {
        Some(left) => if left < PAYLOAD_MIN_LEN {
            None
        } else {
            Some(left)
        },
        None => None,
    }
}

} // verus!
