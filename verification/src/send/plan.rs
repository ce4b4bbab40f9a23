//! The order in which a packet is filled.
//!
//! Filling a packet alternates with work on streams, queues and timers. A plan
//! keeps track of what comes next, so that each stage is gone through in its turn
//! and none that does not belong to the packet.

use crate::error::Error;
use crate::frame::{Frame, FrameView};
use crate::packet::Type;
use crate::send::assembly::{lemma_management_paths, management_stage};
use crate::send::begin::{overhead_of, packet_overhead, packet_room, room_for_frames};
use crate::send::cids::retire_stage;
use crate::send::control::{control_stage, AckInputs};
use crate::send::data::{
    crypto_emitted, crypto_room, data_allowed, dgram_emitted_stage, dgram_step, dgram_turn,
    next_dgram_step, room_for_stream, stream_emitted, stream_room, with_data, DgramStep,
};
use crate::send::finish::{finish_stage, FinishInputs, Finished};
use crate::send::flow::{
    close_stage, data_blocked_stage, max_data_stage, max_streams_bidi_stage, max_streams_uni_stage,
    stream_data_blocked_stage,
};
use crate::send::packing::{PackFields, Packing, PackingView};
use crate::send::probes::{
    add_path_challenge, add_path_responses, add_pmtu_probe, path_responses, pmtu_probe,
};
use crate::send::state::{Sender, SenderView};
use std::collections::VecDeque;
use vstd::prelude::*;

verus! {

/// What comes next.
#[derive(Clone, Copy, Debug, PartialEq, Eq, Structural)]
pub enum Stage {
    /// Acknowledgements and frames about paths.
    Control,
    /// A probe of the path MTU.
    Probe,
    /// Path validation, connection IDs and the end of the handshake.
    Validation,
    /// Limits on streams.
    StreamLimits,
    /// Limits on the data of streams, one after the other, and on all data.
    DataLimits,
    /// Frames about single streams, and the retirement of connection IDs.
    Streams,
    /// Closing the connection.
    Close,
    /// Data of the handshake.
    Crypto,
    /// Whether it is the turn of datagrams.
    Queues,
    /// Datagrams.
    Dgrams,
    /// Data of a stream.
    StreamData,
    /// Finishing the packet.
    Finish,
    /// Nothing: the packet is finished.
    Finished,
}

/// What is known of a packet before it is filled.
#[derive(Clone, Copy, Debug)]
pub struct PlanFields {
    /// What comes next.
    pub stage: Stage,
    /// The position of the path.
    pub pid: usize,
    /// The type of the packet.
    pub ty: Type,
    /// The bytes besides the payload.
    pub overhead: usize,
    /// The congestion window space for the payload.
    pub cwnd_available: usize,
    /// Whether an acknowledgement has to be elicited.
    pub elicit_required: bool,
    /// Whether an Initial packet was already written to the datagram.
    pub has_initial: bool,
}

/// A packet that is filled stage by stage.
pub struct Plan {
    /// What was known before.
    pub fields: PlanFields,
    /// The packet.
    pub pk: Packing,
}

/// What a plan holds.
pub struct PlanView {
    /// What was known before.
    pub fields: PlanFields,
    /// The packet.
    pub pk: PackingView,
}

impl View for Plan {
    type V = PlanView;

    open spec fn view(&self) -> PlanView {
        PlanView { fields: self.fields, pk: self.pk@ }
    }
}

impl PlanView {
    /// Whether the plan is one for the connection.
    pub open spec fn fits(self, s: SenderView) -> bool {
        self.pk.valid() && self.fields.pid < s.paths.len()
    }

    /// The plan with another packet, at another stage.
    pub open spec fn moved(self, pk: PackingView, stage: Stage) -> PlanView {
        PlanView { fields: PlanFields { stage, ..self.fields }, pk }
    }
}

/// The stage that follows the frames of 1-RTT packets about paths: frames about
/// streams, on a path that data can be sent on, of a connection that is not being
/// closed.
pub open spec fn after_validation(s: SenderView, pid: int) -> Stage {
    if s.local_error is None && s.path(pid).can_send {
        Stage::StreamLimits
    } else {
        Stage::Close
    }
}

/// What the room of a packet depends on.
#[derive(Clone, Copy, Debug)]
pub struct PlanInputs {
    /// The position of the path.
    pub pid: usize,
    /// The type of the packet.
    pub ty: Type,
    /// The size of the output buffer.
    pub cap: usize,
    /// The current estimate of the path MTU, if there is one.
    pub mtu: Option<usize>,
    /// The length of the header.
    pub header_len: usize,
    /// The length of the packet number.
    pub pn_len: usize,
    /// The number of bytes that encryption adds.
    pub crypto_overhead: usize,
    /// The congestion window space of the path.
    pub cwnd: usize,
    /// Whether an acknowledgement has to be elicited.
    pub elicit_required: bool,
    /// Whether an Initial packet was already written to the datagram.
    pub has_initial: bool,
}

/// The plan of an empty packet, or `None` where there is not enough room for a
/// payload.
pub open spec fn planned(a: PlanInputs) -> Option<PlanView> {
    let overhead = packet_overhead(a.header_len, a.pn_len, a.crypto_overhead, a.ty);
    match packet_room(a.cap, a.mtu, overhead) {
        None => None,
        Some(left) => Some(
            PlanView {
                fields: PlanFields {
                    stage: Stage::Control,
                    pid: a.pid,
                    ty: a.ty,
                    overhead: overhead as usize,
                    cwnd_available: if a.cwnd >= overhead {
                        (a.cwnd - overhead) as usize
                    } else {
                        0
                    },
                    elicit_required: a.elicit_required,
                    has_initial: a.has_initial,
                },
                pk: PackingView {
                    fields: PackFields {
                        left: left as usize,
                        size: 0,
                        ack_eliciting: false,
                        in_flight: false,
                        has_data: false,
                        dgram_emitted: false,
                        is_pmtud_probe: false,
                    },
                    frames: Seq::empty(),
                },
            },
        ),
    }
}

impl Plan {
    /// Plans a packet, `Done` where there is not enough room for a payload.
    pub fn begin(a: PlanInputs) -> (r: Result<Plan, Error>)
        requires
            a.header_len + a.pn_len + a.crypto_overhead + 2 <= usize::MAX,
        ensures
            match planned(a) {
                Some(v) => r matches Ok(p) && p@ == v && p@.pk.valid(),
                None => r matches Err(e) && e == Error::Done,
            },
    {
        let overhead: usize = overhead_of(a.header_len, a.pn_len, a.crypto_overhead, a.ty);
        match room_for_frames(a.cap, a.mtu, overhead) {
            None => Err(Error::Done),
            Some(left) => Ok(
                Plan {
                    fields: PlanFields {
                        stage: Stage::Control,
                        pid: a.pid,
                        ty: a.ty,
                        overhead,
                        cwnd_available: a.cwnd.saturating_sub(overhead),
                        elicit_required: a.elicit_required,
                        has_initial: a.has_initial,
                    },
                    pk: Packing::new(left),
                },
            ),
        }
    }

    /// Adds acknowledgements and frames about paths.
    pub fn control(&mut self, s: &mut Sender, elapsed_micros: u64) -> (r: Result<Stage, Error>)
        requires
            old(s).wf(),
            old(self)@.fits(old(s)@),
        ensures
            final(s).wf(),
            final(self)@.fits(final(s)@),
            ({
                let f = old(self)@.fields;
                if f.stage != Stage::Control {
                    final(self)@ == old(self)@ && final(s)@ == old(s)@ && r == Err::<Stage, Error>(
                        Error::InvalidState,
                    )
                } else {
                    let a = AckInputs {
                        ty: f.ty,
                        elicit_required: f.elicit_required,
                        elapsed_micros,
                        cwnd_available: f.cwnd_available,
                    };
                    let (t, pk) = control_stage(old(s)@, old(self)@.pk, f.pid as int, a);
                    // Probing and validation belong to 1-RTT packets.
                    let next = if f.ty == Type::Short {
                        Stage::Probe
                    } else {
                        Stage::Close
                    };
                    final(s)@ == t && final(self)@ == old(self)@.moved(pk, next) && r == Ok::<
                        Stage,
                        Error,
                    >(next)
                }
            }),
    {
        if self.fields.stage != Stage::Control {
            return Err(Error::InvalidState);
        }
        let a = AckInputs {
            ty: self.fields.ty,
            elicit_required: self.fields.elicit_required,
            elapsed_micros,
            cwnd_available: self.fields.cwnd_available,
        };
        s.add_control_frames(&mut self.pk, self.fields.pid, a);
        let next: Stage = if self.fields.ty == Type::Short {
            Stage::Probe
        } else {
            Stage::Close
        };
        self.fields.stage = next;
        Ok(next)
    }

    /// Makes the packet a probe of the path MTU, where a size to probe is given.
    pub fn probe(&mut self, size: Option<usize>) -> (r: Result<(), Error>)
        requires
            old(self)@.pk.valid(),
            size matches Some(n) ==> n != old(self)@.fields.overhead && (n
                > old(self)@.fields.overhead ==> old(self)@.pk.fields.size + (n
                - old(self)@.fields.overhead) <= usize::MAX),
        ensures
            final(self)@.pk.valid(),
            final(self)@.fields.pid == old(self)@.fields.pid,
            if old(self)@.fields.stage != Stage::Probe {
                final(self)@ == old(self)@ && r == Err::<(), Error>(Error::InvalidState)
            } else {
                match size {
                    None => r == Ok::<(), Error>(()) && final(self)@ == old(self)@.moved(
                        old(self)@.pk,
                        Stage::Validation,
                    ),
                    Some(n) => match pmtu_probe(old(self)@.pk, n, old(self)@.fields.overhead) {
                        Some(pk) => r == Ok::<(), Error>(()) && final(self)@ == old(self)@.moved(
                            pk,
                            Stage::Validation,
                        ),
                        None => r == Err::<(), Error>(Error::Done) && final(self)@ == old(self)@,
                    },
                }
            },
    {
        if self.fields.stage != Stage::Probe {
            return Err(Error::InvalidState);
        }
        if let Some(n) = size {
            if let Err(e) = add_pmtu_probe(&mut self.pk, n, self.fields.overhead) {
                return Err(e);
            }
        }
        self.fields.stage = Stage::Validation;
        Ok(())
    }

    /// Answers path challenges, adds a challenge where validation was requested,
    /// announces connection IDs and tells the end of the handshake. Says whether the
    /// challenge found room.
    pub fn validation(
        &mut self,
        s: &mut Sender,
        received: &mut VecDeque<[u8; 8]>,
        requested: bool,
        data: [u8; 8],
    ) -> (r: Result<bool, Error>)
        requires
            old(s).wf(),
            old(self)@.fits(old(s)@),
        ensures
            final(s).wf(),
            final(self)@.pk.valid(),
            ({
                let f = old(self)@.fields;
                if f.stage != Stage::Validation {
                    final(self)@ == old(self)@ && final(s)@ == old(s)@ && final(received)@ == old(
                        received)@ && r == Err::<bool, Error>(Error::InvalidState)
                } else {
                    let (p1, left) = path_responses(old(self)@.pk, old(received)@);
                    let (p2, challenged) = if requested {
                        p1.push_eliciting(FrameView::PathChallenge { data: data@ })
                    } else {
                        (p1, false)
                    };
                    let (t, p3, res) = management_stage(old(s)@, p2, f.pid as int, f.ty);
                    &&& final(s)@ == t
                    &&& final(received)@ == left
                    &&& match res {
                        Ok(_) => r == Ok::<bool, Error>(challenged) && final(self)@ == old(
                            self)@.moved(p3, after_validation(t, f.pid as int)),
                        Err(e) => r == Err::<bool, Error>(e) && final(self)@ == old(self)@.moved(
                            p3,
                            Stage::Validation,
                        ),
                    }
                }
            }),
    {
        if self.fields.stage != Stage::Validation {
            return Err(Error::InvalidState);
        }
        add_path_responses(&mut self.pk, received);
        let challenged: bool = add_path_challenge(&mut self.pk, requested, data);
        let pid: usize = self.fields.pid;
        let ty: Type = self.fields.ty;
        let ghost before = self.pk@;
        if let Err(e) = s.add_management_frames(&mut self.pk, pid, ty) {
            return Err(e);
        }
        proof {
            lemma_management_paths(old(s)@, before, pid as int, ty);
        }
        assert(s@.paths[pid as int] == s.paths@[pid as int]@);
        self.fields.stage = if s.local_error.is_none() && s.paths[pid].fields.can_send {
            Stage::StreamLimits
        } else {
            Stage::Close
        };
        Ok(challenged)
    }
}

/// The state, the packet and which frames found room, for the limits on the numbers
/// of streams, bidirectional and unidirectional ones, and a DATA_BLOCKED frame.
pub open spec fn stream_limits_stage(
    s: SenderView,
    p: PackingView,
    bidi: (bool, u64),
    uni: (bool, u64),
) -> (SenderView, PackingView, (bool, bool)) {
    let (c1, p1, bidi_sent) = max_streams_bidi_stage(s.conn, p, bidi.0, bidi.1);
    let (c2, p2, uni_sent) = max_streams_uni_stage(c1, p1, uni.0, uni.1);
    let (c3, p3) = data_blocked_stage(c2, p2);
    (s.with_conn(c3), p3, (bidi_sent, uni_sent))
}

/// The stage of a plan that stays where it is while single frames are added: the
/// plan and whether the frame found room.
pub open spec fn single(v: PlanView, f: FrameView) -> (PlanView, bool) {
    let (pk, ok) = v.pk.push_eliciting(f);
    (PlanView { pk, ..v }, ok)
}

impl Plan {
    /// Adds limits on the numbers of streams, where they are due to be raised, and
    /// says which of the frames found room.
    pub fn stream_limits(&mut self, s: &mut Sender, bidi: (bool, u64), uni: (bool, u64)) -> (r:
        Result<(bool, bool), Error>)
        requires
            old(s).wf(),
            old(self)@.fits(old(s)@),
        ensures
            final(s).wf(),
            final(self)@.fits(final(s)@),
            if old(self)@.fields.stage != Stage::StreamLimits {
                final(self)@ == old(self)@ && final(s)@ == old(s)@ && r == Err::<
                    (bool, bool),
                    Error,
                >(Error::InvalidState)
            } else {
                let (t, pk, sent) = stream_limits_stage(old(s)@, old(self)@.pk, bidi, uni);
                final(s)@ == t && final(self)@ == old(self)@.moved(pk, Stage::DataLimits) && r
                    == Ok::<(bool, bool), Error>(sent)
            },
    {
        if self.fields.stage != Stage::StreamLimits {
            return Err(Error::InvalidState);
        }
        let bidi_sent: bool = s.add_max_streams_bidi(&mut self.pk, bidi.0, bidi.1);
        let uni_sent: bool = s.add_max_streams_uni(&mut self.pk, uni.0, uni.1);
        s.add_data_blocked(&mut self.pk);
        self.fields.stage = Stage::DataLimits;
        Ok((bidi_sent, uni_sent))
    }

    /// Adds the limit on the data of a stream, and says whether it found room.
    pub fn stream_data_limit(&mut self, stream_id: u64, max: u64) -> (r: Result<bool, Error>)
        requires
            old(self)@.pk.valid(),
        ensures
            final(self)@.pk.valid(),
            if old(self)@.fields.stage != Stage::DataLimits {
                final(self)@ == old(self)@ && r == Err::<bool, Error>(Error::InvalidState)
            } else {
                let (v, ok) = single(old(self)@, FrameView::MaxStreamData { stream_id, max });
                final(self)@ == v && r == Ok::<bool, Error>(ok)
            },
    {
        if self.fields.stage != Stage::DataLimits {
            return Err(Error::InvalidState);
        }
        Ok(self.pk.push_eliciting(Frame::MaxStreamData { stream_id, max }))
    }

    /// Adds the limit on all data, where it is due to be raised, and says whether it
    /// found room.
    pub fn data_limit(&mut self, s: &mut Sender, due: bool, max: u64) -> (r: Result<bool, Error>)
        requires
            old(s).wf(),
            old(self)@.fits(old(s)@),
        ensures
            final(s).wf(),
            final(self)@.fits(final(s)@),
            if old(self)@.fields.stage != Stage::DataLimits {
                final(self)@ == old(self)@ && final(s)@ == old(s)@ && r == Err::<bool, Error>(
                    Error::InvalidState,
                )
            } else {
                let (c, pk, ok) = max_data_stage(old(s)@.conn, old(self)@.pk, due, max);
                final(s)@ == old(s)@.with_conn(c) && final(self)@ == old(self)@.moved(
                    pk,
                    Stage::Streams,
                ) && r == Ok::<bool, Error>(ok)
            },
    {
        if self.fields.stage != Stage::DataLimits {
            return Err(Error::InvalidState);
        }
        let sent: bool = s.add_max_data(&mut self.pk, due, max);
        self.fields.stage = Stage::Streams;
        Ok(sent)
    }

    /// Adds a STOP_SENDING frame, and says whether it found room.
    pub fn stop_sending(&mut self, stream_id: u64, error_code: u64) -> (r: Result<bool, Error>)
        requires
            old(self)@.pk.valid(),
        ensures
            final(self)@.pk.valid(),
            if old(self)@.fields.stage != Stage::Streams {
                final(self)@ == old(self)@ && r == Err::<bool, Error>(Error::InvalidState)
            } else {
                let (v, ok) = single(old(self)@, FrameView::StopSending { stream_id, error_code });
                final(self)@ == v && r == Ok::<bool, Error>(ok)
            },
    {
        if self.fields.stage != Stage::Streams {
            return Err(Error::InvalidState);
        }
        Ok(self.pk.push_eliciting(Frame::StopSending { stream_id, error_code }))
    }

    /// Adds a RESET_STREAM frame, and says whether it found room.
    pub fn reset_stream(&mut self, stream_id: u64, error_code: u64, final_size: u64) -> (r: Result<
        bool,
        Error,
    >)
        requires
            old(self)@.pk.valid(),
        ensures
            final(self)@.pk.valid(),
            if old(self)@.fields.stage != Stage::Streams {
                final(self)@ == old(self)@ && r == Err::<bool, Error>(Error::InvalidState)
            } else {
                let (v, ok) = single(
                    old(self)@,
                    FrameView::ResetStream { stream_id, error_code, final_size },
                );
                final(self)@ == v && r == Ok::<bool, Error>(ok)
            },
    {
        if self.fields.stage != Stage::Streams {
            return Err(Error::InvalidState);
        }
        Ok(self.pk.push_eliciting(Frame::ResetStream { stream_id, error_code, final_size }))
    }

    /// Adds a STREAM_DATA_BLOCKED frame, and says whether it found room.
    pub fn stream_data_blocked(&mut self, s: &mut Sender, stream_id: u64, limit: u64) -> (r: Result<
        bool,
        Error,
    >)
        requires
            old(s).wf(),
            old(self)@.fits(old(s)@),
        ensures
            final(s).wf(),
            final(self)@.fits(final(s)@),
            if old(self)@.fields.stage != Stage::Streams {
                final(self)@ == old(self)@ && final(s)@ == old(s)@ && r == Err::<bool, Error>(
                    Error::InvalidState,
                )
            } else {
                let (c, pk, ok) = stream_data_blocked_stage(
                    old(s)@.conn,
                    old(self)@.pk,
                    stream_id,
                    limit,
                );
                final(s)@ == old(s)@.with_conn(c) && final(self)@ == (PlanView {
                    pk,
                    ..old(self)@
                }) && r == Ok::<bool, Error>(ok)
            },
    {
        if self.fields.stage != Stage::Streams {
            return Err(Error::InvalidState);
        }
        Ok(s.add_stream_data_blocked(&mut self.pk, stream_id, limit))
    }

    /// Retires connection IDs.
    pub fn retire(&mut self, s: &mut Sender) -> (r: Result<(), Error>)
        requires
            old(s).wf(),
            old(self)@.fits(old(s)@),
            old(s)@.path(old(self)@.fields.pid as int).active_dcid_seq is Some,
        ensures
            final(s).wf(),
            final(self)@.fits(final(s)@),
            old(self)@.fields.stage != Stage::Streams ==> final(self)@ == old(self)@ && final(s)@
                == old(s)@ && r == Err::<(), Error>(Error::InvalidState),
            old(self)@.fields.stage == Stage::Streams ==> r == Ok::<(), Error>(()) && exists|
                order: Seq<u64>,
                mp_order: Seq<(u64, u64)>,
            |
                {
                    &&& order.no_duplicates() && order.to_set() == old(s)@.ids.retire
                    &&& mp_order.no_duplicates() && mp_order.to_set() == old(s)@.ids.mp_retire
                    &&& ({
                        let (t, pk) = #[trigger] retire_stage(
                            old(s)@,
                            old(self)@.pk,
                            old(self)@.fields.pid as int,
                            order,
                            mp_order,
                        );
                        final(s)@ == t && final(self)@ == old(self)@.moved(pk, Stage::Close)
                    })
                },
    {
        if self.fields.stage != Stage::Streams {
            return Err(Error::InvalidState);
        }
        let pid: usize = self.fields.pid;
        s.retire_connection_ids(&mut self.pk, pid);
        self.fields.stage = Stage::Close;
        Ok(())
    }

    /// Closes the connection where it is to be.
    pub fn close(&mut self, s: &mut Sender, now: u128, pto: u128) -> (r: Result<(), Error>)
        requires
            old(s).wf(),
            old(self)@.fits(old(s)@),
            now + 3 * pto <= u128::MAX,
        ensures
            final(s).wf(),
            final(self)@.fits(final(s)@),
            ({
                let f = old(self)@.fields;
                if f.stage != Stage::Close {
                    final(self)@ == old(self)@ && final(s)@ == old(s)@ && r == Err::<(), Error>(
                        Error::InvalidState,
                    )
                } else {
                    let (c, pk) = close_stage(
                        old(s)@,
                        old(self)@.pk,
                        f.pid as int,
                        f.ty,
                        now,
                        pto,
                    );
                    final(s)@ == old(s)@.with_conn(c) && final(self)@ == old(self)@.moved(
                        pk,
                        Stage::Crypto,
                    ) && r == Ok::<(), Error>(())
                }
            }),
    {
        if self.fields.stage != Stage::Close {
            return Err(Error::InvalidState);
        }
        let pid: usize = self.fields.pid;
        let ty: Type = self.fields.ty;
        s.add_close(&mut self.pk, pid, ty, now, pto);
        self.fields.stage = Stage::Crypto;
        Ok(())
    }
}

/// Whether data of a stream goes into the packet: it can, and no datagram does.
pub open spec fn stream_allowed(s: SenderView, v: PlanView, overhead: usize) -> bool {
    data_allowed(s, v.pk, v.fields.pid as int, v.fields.ty, overhead)
        && !v.pk.fields.dgram_emitted
}

impl Plan {
    /// How much data of the handshake is to be written into the packet, `None` where
    /// there is none to be. `overhead` is the room that a CRYPTO frame needs at least.
    pub fn crypto(&mut self, s: &Sender, flushable: bool, offset: u64, overhead: usize) -> (r:
        Result<Option<usize>, Error>)
        requires
            old(self)@.fits(s@),
        ensures
            final(self)@.fits(s@),
            ({
                let f = old(self)@.fields;
                if f.stage != Stage::Crypto {
                    final(self)@ == old(self)@ && r == Err::<Option<usize>, Error>(
                        Error::InvalidState,
                    )
                } else {
                    match crypto_room(s@, old(self)@.pk, f.pid as int, flushable, offset, overhead) {
                        Some(n) => (r matches Ok(Some(m)) && m == n) && final(self)@ == old(self)@,
                        None => final(self)@ == old(self)@.moved(old(self)@.pk, Stage::Queues) && r
                            == Ok::<Option<usize>, Error>(None),
                    }
                }
            }),
    {
        if self.fields.stage != Stage::Crypto {
            return Err(Error::InvalidState);
        }
        let room = s.room_for_crypto(&self.pk, self.fields.pid, flushable, offset, overhead);
        if room.is_none() {
            self.fields.stage = Stage::Queues;
        }
        Ok(room)
    }

    /// Records that data of the handshake was written into the packet.
    pub fn crypto_written(&mut self, offset: u64, length: usize) -> (r: Result<(), Error>)
        requires
            old(self)@.pk.valid(),
        ensures
            final(self)@.pk.valid(),
            if old(self)@.fields.stage != Stage::Crypto {
                final(self)@ == old(self)@ && r == Err::<(), Error>(Error::InvalidState)
            } else {
                final(self)@ == old(self)@.moved(
                    with_data(old(self)@.pk, FrameView::CryptoHeader { offset, length }),
                    Stage::Queues,
                ) && r == Ok::<(), Error>(())
            },
    {
        if self.fields.stage != Stage::Crypto {
            return Err(Error::InvalidState);
        }
        crypto_emitted(&mut self.pk, offset, length);
        self.fields.stage = Stage::Queues;
        Ok(())
    }

    /// Decides whether it is the turn of datagrams, given which queues have something
    /// to send. `overhead` is the room that a DATAGRAM frame needs at least.
    pub fn queues(&mut self, s: &Sender, dgrams: bool, streams: bool, overhead: usize) -> (r: Result<
        Stage,
        Error,
    >)
        requires
            old(self)@.fits(s@),
        ensures
            final(self)@.fits(s@),
            ({
                let v = old(self)@;
                if v.fields.stage != Stage::Queues {
                    final(self)@ == v && r == Err::<Stage, Error>(Error::InvalidState)
                } else {
                    let next = if dgram_turn(s@.conn.emit_dgram, dgrams, streams) && data_allowed(
                        s@,
                        v.pk,
                        v.fields.pid as int,
                        v.fields.ty,
                        overhead,
                    ) {
                        Stage::Dgrams
                    } else {
                        Stage::StreamData
                    };
                    final(self)@ == v.moved(v.pk, next) && r == Ok::<Stage, Error>(next)
                }
            }),
    {
        if self.fields.stage != Stage::Queues {
            return Err(Error::InvalidState);
        }
        let next: Stage = if s.is_dgram_turn(dgrams, streams) && s.allows_data(
            &self.pk,
            self.fields.pid,
            self.fields.ty,
            overhead,
        ) {
            Stage::Dgrams
        } else {
            Stage::StreamData
        };
        self.fields.stage = next;
        Ok(next)
    }

    /// Decides what becomes of the datagram at the front of the queue, given its
    /// length, if there is one.
    pub fn dgram(&mut self, len: Option<usize>, max: usize) -> (r: Result<DgramStep, Error>)
        ensures
            ({
                let v = old(self)@;
                if v.fields.stage != Stage::Dgrams {
                    final(self)@ == v && r == Err::<DgramStep, Error>(Error::InvalidState)
                } else {
                    let step = match len {
                        Some(n) => dgram_step(v.pk, n, max),
                        None => DgramStep::Wait,
                    };
                    r == Ok::<DgramStep, Error>(step) && final(self)@ == if step
                        == DgramStep::Wait {
                        v.moved(v.pk, Stage::StreamData)
                    } else {
                        v
                    }
                }
            }),
    {
        if self.fields.stage != Stage::Dgrams {
            return Err(Error::InvalidState);
        }
        let step: DgramStep = match len {
            Some(n) => next_dgram_step(&self.pk, n, max),
            None => DgramStep::Wait,
        };
        if step == DgramStep::Wait {
            self.fields.stage = Stage::StreamData;
        }
        Ok(step)
    }

    /// Records that a datagram was written into the packet.
    pub fn dgram_written(&mut self, s: &mut Sender, length: usize) -> (r: Result<(), Error>)
        requires
            old(s).wf(),
            old(self)@.fits(old(s)@),
        ensures
            final(s).wf(),
            final(self)@.fits(final(s)@),
            ({
                let v = old(self)@;
                if v.fields.stage != Stage::Dgrams {
                    final(self)@ == v && final(s)@ == old(s)@ && r == Err::<(), Error>(
                        Error::InvalidState,
                    )
                } else {
                    let (t, pk) = dgram_emitted_stage(old(s)@, v.pk, v.fields.pid as int, length);
                    final(s)@ == t && final(self)@ == (PlanView { pk, ..v }) && r == Ok::<
                        (),
                        Error,
                    >(())
                }
            }),
    {
        if self.fields.stage != Stage::Dgrams {
            return Err(Error::InvalidState);
        }
        let pid: usize = self.fields.pid;
        s.dgram_emitted(&mut self.pk, pid, length);
        Ok(())
    }

    /// Whether data of a stream goes into the packet. `overhead` is the room that a
    /// STREAM frame needs at least.
    pub fn stream_turn(&mut self, s: &Sender, overhead: usize) -> (r: Result<bool, Error>)
        requires
            old(self)@.fits(s@),
        ensures
            final(self)@.fits(s@),
            ({
                let v = old(self)@;
                if v.fields.stage != Stage::StreamData {
                    final(self)@ == v && r == Err::<bool, Error>(Error::InvalidState)
                } else {
                    r == Ok::<bool, Error>(stream_allowed(s@, v, overhead)) && final(self)@
                        == if stream_allowed(s@, v, overhead) {
                        v
                    } else {
                        v.moved(v.pk, Stage::Finish)
                    }
                }
            }),
    {
        if self.fields.stage != Stage::StreamData {
            return Err(Error::InvalidState);
        }
        let allowed: bool = s.allows_data(&self.pk, self.fields.pid, self.fields.ty, overhead)
            && !self.pk.fields.dgram_emitted;
        if !allowed {
            self.fields.stage = Stage::Finish;
        }
        Ok(allowed)
    }

    /// How much data of a stream is to be written into the packet, given the stream
    /// and its offset: `None` where not even the header of its frame finds room.
    pub fn stream(&self, stream_id: u64, offset: u64) -> (r: Result<Option<usize>, Error>)
        ensures
            if self@.fields.stage != Stage::StreamData {
                r == Err::<Option<usize>, Error>(Error::InvalidState)
            } else {
                match stream_room(self@.pk, stream_id, offset) {
                    Some(n) => r matches Ok(Some(m)) && m == n,
                    None => r == Ok::<Option<usize>, Error>(None),
                }
            },
    {
        if self.fields.stage != Stage::StreamData {
            return Err(Error::InvalidState);
        }
        Ok(room_for_stream(&self.pk, stream_id, offset))
    }

    /// Records that data of a stream was written into the packet: it is one STREAM
    /// frame that a packet has.
    pub fn stream_written(&mut self, stream_id: u64, offset: u64, length: usize, fin: bool) -> (r:
        Result<(), Error>)
        requires
            old(self)@.pk.valid(),
        ensures
            final(self)@.pk.valid(),
            if old(self)@.fields.stage != Stage::StreamData {
                final(self)@ == old(self)@ && r == Err::<(), Error>(Error::InvalidState)
            } else {
                final(self)@ == old(self)@.moved(
                    with_data(
                        old(self)@.pk,
                        FrameView::StreamHeader { stream_id, offset, length, fin },
                    ),
                    Stage::Finish,
                ) && r == Ok::<(), Error>(())
            },
    {
        if self.fields.stage != Stage::StreamData {
            return Err(Error::InvalidState);
        }
        stream_emitted(&mut self.pk, stream_id, offset, length, fin);
        self.fields.stage = Stage::Finish;
        Ok(())
    }

    /// Goes on without data of a stream: none has anything to send.
    pub fn no_stream(&mut self) -> (r: Result<(), Error>)
        ensures
            if old(self)@.fields.stage != Stage::StreamData {
                final(self)@ == old(self)@ && r == Err::<(), Error>(Error::InvalidState)
            } else {
                final(self)@ == old(self)@.moved(old(self)@.pk, Stage::Finish) && r == Ok::<
                    (),
                    Error,
                >(())
            },
    {
        if self.fields.stage != Stage::StreamData {
            return Err(Error::InvalidState);
        }
        self.fields.stage = Stage::Finish;
        Ok(())
    }

    /// Finishes the packet, and says what remains to be done. `overhead` is the room
    /// that a STREAM frame needs at least.
    pub fn finish(&mut self, s: &mut Sender, overhead: usize) -> (r: Result<Finished, Error>)
        requires
            old(s).wf(),
            old(self)@.fits(old(s)@),
        ensures
            final(s).wf(),
            final(self)@.pk.valid(),
            ({
                let v = old(self)@;
                if v.fields.stage != Stage::Finish {
                    final(self)@ == v && final(s)@ == old(s)@ && r == Err::<Finished, Error>(
                        Error::InvalidState,
                    )
                } else {
                    let a = FinishInputs {
                        ty: v.fields.ty,
                        has_initial: v.fields.has_initial,
                        elicit_required: v.fields.elicit_required,
                        cwnd_available: v.fields.cwnd_available,
                        stream_overhead: overhead,
                    };
                    let (t, pk, done) = finish_stage(old(s)@, v.pk, v.fields.pid as int, a);
                    final(s)@ == t && final(self)@ == v.moved(pk, Stage::Finished) && r == Ok::<
                        Finished,
                        Error,
                    >(done)
                }
            }),
    {
        if self.fields.stage != Stage::Finish {
            return Err(Error::InvalidState);
        }
        let a = FinishInputs {
            ty: self.fields.ty,
            has_initial: self.fields.has_initial,
            elicit_required: self.fields.elicit_required,
            cwnd_available: self.fields.cwnd_available,
            stream_overhead: overhead,
        };
        let pid: usize = self.fields.pid;
        let done = s.finish_packet(&mut self.pk, pid, a);
        self.fields.stage = Stage::Finished;
        Ok(done)
    }
}

} // verus!
