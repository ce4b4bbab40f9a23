//! The order of the stages of a packet.

use crate::error::Error;
use crate::packet::{ConnectionId, Type};
use crate::send::begin::{numbered, packet_cids, uses_path_numbers};
use crate::send::cids::announce_stage;
use crate::send::flow::handshake_done_stage;
use crate::send::packing::{Packing, PackingView};
use crate::send::state::{Sender, SenderView};
use vstd::prelude::*;

verus! {

/// Whether anything can be sent into a buffer of `out_len` bytes.
pub fn check_sendable(out_len: usize, is_draining: bool) -> (r: Result<(), Error>)
    ensures
        r == if out_len == 0 {
            Err::<(), Error>(Error::BufferTooShort)
        } else if is_draining {
            Err::<(), Error>(Error::Done)
        } else {
            Ok::<(), Error>(())
        },
{
    if out_len == 0 {
        return Err(Error::BufferTooShort);
    }
    if is_draining {
        return Err(Error::Done);
    }
    Ok(())
}

/// What a packet begins with.
pub struct Begun {
    /// Its number.
    pub pkt_num: u64,
    /// Whether the number is one of the path's own packet number space.
    pub path_number: bool,
    /// The number of bytes that encryption adds.
    pub crypto_overhead: usize,
    /// Its destination connection ID.
    pub dcid: ConnectionId,
    /// Its source connection ID.
    pub scid: ConnectionId,
}

/// The state once a packet was begun, and the error where it cannot be: there is no
/// key to encrypt it with, or no connection ID. Its number is used up all the same
/// where it is one of the path.
pub open spec fn begun(s: SenderView, pid: int, ty: Type, skip: bool, crypto: Option<usize>) -> (
    SenderView,
    Option<Error>,
) {
    let (t, pn) = numbered(s, pid, ty, skip);
    (
        t,
        if crypto is None {
            Some(Error::Done)
        } else {
            match packet_cids(t, pid, ty) {
                Ok(_) => None,
                Err(e) => Some(e),
            }
        },
    )
}

/// The state and the packet once connection IDs were announced and the end of the
/// handshake was told: in 1-RTT packets of a connection that is not being closed,
/// the latter on the active path only.
pub open spec fn management_stage(s: SenderView, p: PackingView, pid: int, ty: Type) -> (
    SenderView,
    PackingView,
    Result<(), Error>,
) {
    if ty != Type::Short || s.local_error is Some {
        (s, p, Ok(()))
    } else {
        let (t, q, r) = announce_stage(s, p);
        if r is Err || !t.path(pid).active {
            (t, q, r)
        } else {
            let (c, q2) = handshake_done_stage(t.conn, q);
            (t.with_conn(c), q2, r)
        }
    }
}

/// Announcing connection IDs leaves the paths alone.
pub proof fn lemma_management_paths(s: SenderView, p: PackingView, pid: int, ty: Type)
    ensures
        management_stage(s, p, pid, ty).0.paths == s.paths,
        management_stage(s, p, pid, ty).0.local_error == s.local_error,
{
}

impl Sender {
    /// Begins a packet of the given type on the path at `pid`. `crypto` is the number
    /// of bytes that encryption adds, if there is a key.
    pub fn begin_packet(&mut self, pid: usize, ty: Type, skip: bool, crypto: Option<usize>) -> (r:
        Result<Begun, Error>)
        requires
            old(self).wf(),
            pid < old(self)@.paths.len(),
            uses_path_numbers(old(self)@, ty) ==> old(self)@.path(pid as int).mp_next_pkt_num
                < u64::MAX,
            !uses_path_numbers(old(self)@, ty) && skip ==> old(self)@.conn.next_pkt_num < u64::MAX,
        ensures
            final(self).wf(),
            final(self)@ == begun(old(self)@, pid as int, ty, skip, crypto).0,
            match begun(old(self)@, pid as int, ty, skip, crypto).1 {
                Some(e) => r matches Err(x) && x == e,
                None => r matches Ok(b) && b.pkt_num == numbered(
                    old(self)@,
                    pid as int,
                    ty,
                    skip,
                ).1 && b.path_number == uses_path_numbers(old(self)@, ty) && Some(
                    b.crypto_overhead,
                ) == crypto && packet_cids(final(self)@, pid as int, ty) == Ok::<
                    (Seq<u8>, Seq<u8>),
                    Error,
                >((b.dcid@, b.scid@)),
            },
    {
        let (pkt_num, path_number) = self.number_packet(pid, ty, skip);
        let crypto_overhead: usize = match crypto {
            Some(n) => n,
            None => {
                return Err(Error::Done);
            },
        };
        match self.connection_ids(pid, ty) {
            Ok((dcid, scid)) => Ok(Begun { pkt_num, path_number, crypto_overhead, dcid, scid }),
            Err(e) => Err(e),
        }
    }

    /// Announces connection IDs and tells the end of the handshake.
    pub fn add_management_frames(&mut self, pk: &mut Packing, pid: usize, ty: Type) -> (r: Result<
        (),
        Error,
    >)
        requires
            old(self).wf(),
            old(pk)@.valid(),
            pid < old(self)@.paths.len(),
        ensures
            final(self).wf(),
            final(pk)@.valid(),
            (final(self)@, final(pk)@, r) == management_stage(
                old(self)@,
                old(pk)@,
                pid as int,
                ty,
            ),
    {
        if ty != Type::Short || self.local_error.is_some() {
            return Ok(());
        }
        let r = self.announce_connection_ids(pk);
        assert(self@.paths[pid as int] == self.paths@[pid as int]@);
        if r.is_ok() && self.paths[pid].fields.active {
            self.add_handshake_done(pk);
        }
        r
    }
}

} // verus!
