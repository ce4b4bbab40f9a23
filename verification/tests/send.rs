//! The send pipeline: what goes into packets and what is recorded of them.

use quiche_multipath::cid::ConnectionIdentifiers;
use quiche_multipath::error::Error;
use quiche_multipath::frame::Frame;
use quiche_multipath::packet::{ConnectionId, Type};
use quiche_multipath::path::PathAppStatus;
use quiche_multipath::ranges::RangeSet;
use quiche_multipath::send::assembly::check_sendable;
use quiche_multipath::send::data::{after_stream, DgramStep, QueueStep};
use quiche_multipath::send::deferred::NewPathOutcome;
use quiche_multipath::send::finish::{
    dgrams_fill_window, fill_length, limits_delivery, sent_info,
};
use quiche_multipath::send::flow::max_data_due;
use quiche_multipath::send::lost::{should_queue_flushable, Deferred, LostAction, StreamFacts};
use quiche_multipath::send::packing::Packing;
use quiche_multipath::send::plan::{Plan, PlanInputs, Stage};
use quiche_multipath::send::state::{
    AbandonState, Config, ConnFields, ConnectionError, FlowState, HandshakeDone, PathFields,
    PathLimits, SendStats, Sender, StatusState, Timers,
};
use std::collections::VecDeque;

const STATS: SendStats = SendStats {
    stream_retrans_bytes: 0,
    retrans_count: 0,
    dgram_sent_count: 0,
    sent_count: 0,
    sent_bytes: 0,
};

/// The room that STREAM, DATAGRAM and CRYPTO frames need at least.
const STREAM_OVERHEAD: usize = 12;
const DGRAM_OVERHEAD: usize = 2;
const CRYPTO_OVERHEAD: usize = 8;

fn cid(n: u8) -> ConnectionId {
    ConnectionId::from_vec(vec![n; 8])
}

fn path(path_id: u64, active: bool) -> PathFields {
    PathFields {
        path_id,
        active,
        can_send: true,
        validated: true,
        mp_closing: false,
        abandon: AbandonState { pending: false, sent: false, acked: false, error_code: 0 },
        app_status: PathAppStatus::Available,
        status: StatusState { pending: false, acked: false, seq_num: 0 },
        mp_next_pkt_num: 0,
        active_dcid_seq: Some(0),
        active_scid_seq: Some(0),
        mp_per_path_cids: false,
        ack_elicited: false,
        rx_elapsed_micros: 0,
        needs_ack_eliciting: false,
        stats: STATS,
        max_send_bytes: 0,
    }
}

fn sender(paths: Vec<PathFields>) -> Sender {
    let mut ids = ConnectionIdentifiers::new(4, &cid(1), 0, None);
    ids.set_initial_dcid(cid(2), None, Some(0));
    let conn = ConnFields {
        config: Config {
            multipath_enabled: true,
            is_server: true,
            handshake_completed: true,
            ack_delay_exponent: 3,
        },
        handshake_done: HandshakeDone { sent: true, acked: true },
        flow: FlowState {
            send_max_data: false,
            send_max_streams_uni: false,
            send_max_streams_bidi: false,
            blocked_limit: None,
            data_blocked_sent_count: 0,
            stream_data_blocked_sent_count: 0,
        },
        limits: PathLimits {
            max_path_id_sent: None,
            max_path_id_acked: false,
            max_path_id_pending: None,
            paths_blocked_pending: None,
            cids_blocked_path: None,
            cids_blocked_seq: 0,
        },
        stats: STATS,
        timers: Timers { draining: None, idle: None },
        ack_elicited: false,
        next_pkt_num: 7,
        skipped_pkt_num: None,
        tx_buffered: 100,
        pending_reinjection_path: None,
        emit_dgram: true,
        ack_eliciting_sent: false,
    };
    let mut s = Sender::new(conn, ids);
    for fields in paths {
        s.add_path(fields);
    }
    s
}

fn one_path() -> Sender {
    sender(vec![path(0, true)])
}

fn two_paths() -> Sender {
    sender(vec![path(0, true), path(1, false)])
}

fn inputs(ty: Type) -> PlanInputs {
    PlanInputs {
        pid: 0,
        ty,
        cap: 1200,
        mtu: None,
        header_len: 9,
        pn_len: 2,
        crypto_overhead: 16,
        cwnd: 10_000,
        elicit_required: false,
        has_initial: false,
    }
}

fn frames(plan: &Plan) -> &[Frame] {
    plan.pk.frames.as_slice()
}

/// Goes through the stages of a 1-RTT packet up to the data in it.
fn up_to_data(s: &mut Sender, a: PlanInputs) -> Plan {
    let mut plan = Plan::begin(a).unwrap();
    assert_eq!(plan.control(s, 0), Ok(Stage::Probe));
    assert_eq!(plan.probe(None), Ok(()));
    assert_eq!(plan.validation(s, &mut VecDeque::new(), false, [0; 8]), Ok(false));
    if plan.fields.stage == Stage::StreamLimits {
        assert_eq!(plan.stream_limits(s, (false, 0), (false, 0)), Ok((false, false)));
        assert!(plan.data_limit(s, false, 0).is_ok());
        assert_eq!(plan.retire(s), Ok(()));
    }
    assert_eq!(plan.close(s, 1_000, 10), Ok(()));
    assert_eq!(plan.crypto(s, false, 0, CRYPTO_OVERHEAD), Ok(None));
    plan
}

/// Goes through all the stages of a 1-RTT packet without data.
fn without_data(s: &mut Sender, a: PlanInputs) -> Plan {
    let mut plan = up_to_data(s, a);
    assert_eq!(plan.queues(s, false, false, DGRAM_OVERHEAD), Ok(Stage::StreamData));
    if plan.stream_turn(s, STREAM_OVERHEAD).unwrap() {
        assert_eq!(plan.no_stream(), Ok(()));
    }
    plan
}

const NO_STREAM: StreamFacts = StreamFacts { exists: false, send_stopped: false, recv_fin: false };
const OPEN: StreamFacts = StreamFacts { exists: true, send_stopped: false, recv_fin: false };

#[test]
fn nothing_is_sent_without_room_or_while_draining() {
    assert_eq!(check_sendable(0, true), Err(Error::BufferTooShort));
    assert_eq!(check_sendable(1, true), Err(Error::Done));
    assert_eq!(check_sendable(1, false), Ok(()));
}

#[test]
fn lost_data_is_retransmitted_and_counted() {
    let mut s = two_paths();
    let mut d = Deferred::new();
    let lost = Frame::StreamHeader { stream_id: 4, offset: 10, length: 20, fin: true };
    let again = LostAction::RetransmitStream { stream_id: 4, offset: 10, length: 20, fin: true };
    assert_eq!(s.on_lost_frame(1, &lost, OPEN, &mut d), again);
    assert_eq!(s.conn.pending_reinjection_path, Some(1));
    assert_eq!((s.conn.stats.stream_retrans_bytes, s.conn.stats.retrans_count), (20, 1));
    assert_eq!(s.paths[1].fields.stats, s.conn.stats);
    assert_eq!(s.paths[0].fields.stats, STATS);

    let crypto = Frame::CryptoHeader { offset: 3, length: 5 };
    let again = LostAction::RetransmitCrypto { offset: 3, length: 5 };
    assert_eq!(s.on_lost_frame(0, &crypto, NO_STREAM, &mut d), again);
    assert_eq!((s.conn.stats.stream_retrans_bytes, s.conn.stats.retrans_count), (25, 2));
    assert_eq!(s.paths[0].fields.stats.stream_retrans_bytes, 5);
}

#[test]
fn lost_data_of_closed_streams_is_dropped() {
    let mut s = one_path();
    let mut d = Deferred::new();
    let lost = Frame::StreamHeader { stream_id: 4, offset: 10, length: 60, fin: false };
    assert_eq!(s.on_lost_frame(0, &lost, NO_STREAM, &mut d), LostAction::Nothing);
    assert_eq!(s.conn.tx_buffered, 40);
    let stopped = StreamFacts { send_stopped: true, ..OPEN };
    assert_eq!(s.on_lost_frame(0, &lost, stopped, &mut d), LostAction::Nothing);
    assert_eq!(s.conn.tx_buffered, 0);
    assert_eq!(s.conn.stats, STATS);
    assert_eq!(s.conn.pending_reinjection_path, None);
}

#[test]
fn lost_frames_about_streams() {
    let mut s = one_path();
    let mut d = Deferred::new();
    let mut lose = |f: &Frame, facts: StreamFacts| s.on_lost_frame(0, f, facts, &mut d);
    let reset = Frame::ResetStream { stream_id: 4, error_code: 1, final_size: 2 };
    assert_eq!(
        lose(&reset, NO_STREAM),
        LostAction::ResetStream { stream_id: 4, error_code: 1, final_size: 2 },
    );
    let stop = Frame::StopSending { stream_id: 4, error_code: 1 };
    assert_eq!(lose(&stop, OPEN), LostAction::StopSending { stream_id: 4, error_code: 1 });
    assert_eq!(lose(&stop, NO_STREAM), LostAction::Nothing);
    assert_eq!(lose(&stop, StreamFacts { recv_fin: true, ..OPEN }), LostAction::Nothing);
    let max = Frame::MaxStreamData { stream_id: 4, max: 9 };
    assert_eq!(lose(&max, OPEN), LostAction::MaxStreamData { stream_id: 4 });
    assert_eq!(lose(&max, NO_STREAM), LostAction::Nothing);
    let probe = Frame::Ping { mtu_probe: Some(1400) };
    assert_eq!(lose(&probe, NO_STREAM), LostAction::FailedProbe { size: 1400 });
    assert_eq!(lose(&Frame::Ping { mtu_probe: None }, NO_STREAM), LostAction::Nothing);
    assert_eq!(lose(&Frame::Padding { len: 3 }, NO_STREAM), LostAction::Nothing);
}

#[test]
fn lost_flags_are_set_again() {
    let mut s = one_path();
    let mut d = Deferred::new();
    for f in [
        Frame::MaxData { max: 1 },
        Frame::MaxStreamsBidi { max: 1 },
        Frame::MaxStreamsUni { max: 1 },
        Frame::ACK { ack_delay: 0, ranges: RangeSet::default(), ecn_counts: None },
        Frame::HandshakeDone,
    ] {
        assert_eq!(s.on_lost_frame(0, &f, NO_STREAM, &mut d), LostAction::Nothing);
    }
    let flow = s.conn.flow;
    assert!(flow.send_max_data && flow.send_max_streams_bidi && flow.send_max_streams_uni);
    assert!(s.conn.ack_elicited);
    // It was acknowledged.
    assert!(s.conn.handshake_done.sent);
    s.conn.handshake_done.acked = false;
    s.on_lost_frame(0, &Frame::HandshakeDone, NO_STREAM, &mut d);
    assert!(!s.conn.handshake_done.sent);
}

#[test]
fn only_the_latest_max_path_id_is_sent_again() {
    let mut s = one_path();
    let mut d = Deferred::new();
    s.conn.limits.max_path_id_sent = Some(9);
    s.on_lost_frame(0, &Frame::MaxPathId { path_id: 8 }, NO_STREAM, &mut d);
    assert_eq!(s.conn.limits.max_path_id_pending, None);
    s.on_lost_frame(0, &Frame::MaxPathId { path_id: 9 }, NO_STREAM, &mut d);
    assert_eq!(s.conn.limits.max_path_id_pending, Some(9));
    s.conn.limits.max_path_id_pending = None;
    s.conn.limits.max_path_id_acked = true;
    s.on_lost_frame(0, &Frame::MaxPathId { path_id: 9 }, NO_STREAM, &mut d);
    assert_eq!(s.conn.limits.max_path_id_pending, None);
}

#[test]
fn lost_abandons_and_statuses() {
    let mut s = two_paths();
    s.abandoned = vec![7];
    s.paths[1].fields.status.seq_num = 3;
    let mut d = Deferred::new();
    for path_id in [1, 7, 7, 8] {
        s.on_lost_frame(0, &Frame::PathAbandon { path_id, error_code: 5 }, NO_STREAM, &mut d);
    }
    let old = Frame::PathStatusBackup { path_id: 1, seq_num: 2 };
    s.on_lost_frame(0, &old, NO_STREAM, &mut d);
    assert!(!s.paths[1].fields.abandon.pending);
    assert_eq!(s.apply_deferred(&d), Ok(()));
    assert!(s.paths[1].fields.abandon.pending);
    assert!(!s.paths[0].fields.abandon.pending);
    assert_eq!(s.abandon_queue, vec![(7, 0)]);
    assert!(!s.paths[1].fields.status.pending);

    let mut d = Deferred::new();
    let latest = Frame::PathStatusAvailable { path_id: 1, seq_num: 3 };
    s.on_lost_frame(0, &latest, NO_STREAM, &mut d);
    s.paths[1].fields.abandon = AbandonState { pending: false, sent: true, acked: true, error_code: 0 };
    s.on_lost_frame(0, &Frame::PathAbandon { path_id: 1, error_code: 5 }, NO_STREAM, &mut d);
    assert_eq!(s.apply_deferred(&d), Ok(()));
    assert!(s.paths[1].fields.status.pending);
    assert!(!s.paths[1].fields.abandon.pending);
}

#[test]
fn lost_retirements_of_abandoned_paths_are_dropped() {
    let mut s = two_paths();
    s.abandoned = vec![7];
    s.paths[1].fields.mp_closing = true;
    let mut d = Deferred::new();
    for path_id in [1, 7, 2] {
        let f = Frame::PathRetireConnectionId { path_id, seq_num: 4 };
        s.on_lost_frame(0, &f, NO_STREAM, &mut d);
    }
    s.on_lost_frame(0, &Frame::RetireConnectionId { seq_num: 5 }, NO_STREAM, &mut d);
    assert!(!s.ids.has_retire_dcids());
    assert_eq!(s.apply_deferred(&d), Ok(()));
    assert_eq!(s.ids.mp_retire_dcid_seqs(), vec![(2, 4)]);
    assert_eq!(s.ids.retire_dcid_seq_list(), vec![5]);

    let mut s = two_paths();
    s.paths[0].fields.mp_closing = true;
    assert_eq!(s.apply_deferred(&d), Ok(()));
    assert!(!s.ids.has_retire_dcids());
}

#[test]
fn too_many_lost_retirements_are_an_error() {
    let mut s = one_path();
    let mut d = Deferred::new();
    (0..100).for_each(|seq| d.legacy_retire.push(seq));
    assert_eq!(s.apply_deferred(&d), Err(Error::IdLimit));
    let mut d = Deferred::new();
    (0..100).for_each(|seq| d.retire.push((1, seq)));
    d.legacy_retire.push(5);
    let mut s = one_path();
    assert_eq!(s.apply_deferred(&d), Err(Error::IdLimit));
    assert!(!s.ids.has_retire_dcids());
}

#[test]
fn lost_announcements_are_repeated() {
    let mut s = one_path();
    let mut d = Deferred::new();
    s.ids.set_source_conn_id_limit(4);
    assert_eq!(s.ids.mp_new_scid(3, cid(9), 9), Ok(0));
    s.ids.mp_mark_advertise_new_scid(3, 0, false);
    let frame = |path_id: u64, seq_num: u64| Frame::PathNewConnectionId {
        path_id,
        seq_num,
        retire_prior_to: 0,
        conn_id: vec![9; 8],
        reset_token: 9,
    };
    s.on_lost_frame(0, &frame(3, 1), NO_STREAM, &mut d);
    s.on_lost_frame(0, &frame(4, 0), NO_STREAM, &mut d);
    assert_eq!(s.ids.mp_next_advertise_new_scid(), None);
    s.on_lost_frame(0, &frame(3, 0), NO_STREAM, &mut d);
    assert_eq!(s.ids.mp_next_advertise_new_scid(), Some((3, 0)));
}

#[test]
fn blocked_signals_are_rearmed_where_they_still_hold() {
    let mut s = one_path();
    let mut d = Deferred::new();
    let exhausted = NewPathOutcome::Exhausted { max_path_id: 6 };
    let no_cid = NewPathOutcome::NoCid { path_id: 2, next_seq: 1 };
    s.rearm_blocked_signals(&d, exhausted);
    assert_eq!(s.conn.limits.paths_blocked_pending, None);
    s.on_lost_frame(0, &Frame::PathsBlocked { path_id: 5 }, NO_STREAM, &mut d);
    s.rearm_blocked_signals(&d, NewPathOutcome::Possible);
    s.rearm_blocked_signals(&d, no_cid);
    assert_eq!(s.conn.limits.paths_blocked_pending, None);
    assert_eq!(s.conn.limits.cids_blocked_path, None);
    s.rearm_blocked_signals(&d, exhausted);
    assert_eq!(s.conn.limits.paths_blocked_pending, Some(6));
    s.on_lost_frame(0, &Frame::PathCidsBlocked { path_id: 1, seq_num: 1 }, NO_STREAM, &mut d);
    s.rearm_blocked_signals(&d, no_cid);
    assert_eq!((s.conn.limits.cids_blocked_path, s.conn.limits.cids_blocked_seq), (Some(2), 1));
}

#[test]
fn flushable_queue_is_joined_once() {
    assert!(should_queue_flushable(false, true, 5, false));
    assert!(should_queue_flushable(false, false, 0, true));
    assert!(!should_queue_flushable(false, false, 5, true));
    assert!(!should_queue_flushable(true, true, 0, true));
    assert_eq!(after_stream(false, true), QueueStep::Remove);
    assert_eq!(after_stream(true, true), QueueStep::Rotate);
    assert_eq!(after_stream(true, false), QueueStep::Keep);
}

#[test]
fn packets_are_numbered_by_path() {
    let mut s = one_path();
    let b = s.begin_packet(0, Type::Short, false, Some(16)).unwrap();
    assert_eq!((b.pkt_num, b.path_number), (7, false));
    // The number is used up once the packet is sent.
    let b = s.begin_packet(0, Type::Short, true, Some(16)).unwrap();
    assert_eq!((b.pkt_num, b.path_number), (8, false));
    assert_eq!(s.conn.skipped_pkt_num, Some(7));

    let mut s = two_paths();
    for want in [0, 1] {
        let b = s.begin_packet(1, Type::Short, true, Some(16)).unwrap();
        assert_eq!((b.pkt_num, b.path_number), (want, true));
    }
    assert_eq!(s.begin_packet(0, Type::Short, false, Some(16)).unwrap().pkt_num, 0);
    assert_eq!(s.begin_packet(0, Type::Handshake, false, Some(16)).unwrap().pkt_num, 7);
    assert_eq!(s.conn.skipped_pkt_num, None);
}

#[test]
fn packets_carry_the_connection_ids_of_their_path() {
    let mut s = two_paths();
    s.ids.set_source_conn_id_limit(4);
    s.ids.mp_new_scid(1, cid(11), 11).unwrap();
    s.ids.mp_new_dcid(1, cid(12), 0, 12, 0, &mut Default::default()).unwrap();
    s.paths[1].fields.mp_per_path_cids = true;
    let b = s.begin_packet(0, Type::Short, false, Some(16)).unwrap();
    assert_eq!((b.dcid, b.scid, b.crypto_overhead), (cid(2), cid(1), 16));
    let b = s.begin_packet(1, Type::Short, false, Some(16)).unwrap();
    assert_eq!((b.dcid, b.scid), (cid(12), cid(11)));
}

#[test]
fn packets_need_keys_and_connection_ids() {
    let begin = |dcid: Option<u64>, scid: Option<u64>, ty: Type, crypto: Option<usize>| {
        let mut s = one_path();
        s.paths[0].fields.active_dcid_seq = dcid;
        s.paths[0].fields.active_scid_seq = scid;
        s.begin_packet(0, ty, false, crypto).map(|b| b.scid)
    };
    assert_eq!(begin(None, Some(0), Type::Short, None), Err(Error::Done));
    assert_eq!(begin(None, Some(0), Type::Short, Some(16)), Err(Error::OutOfIdentifiers));
    assert_eq!(begin(Some(1), Some(0), Type::Short, Some(16)), Err(Error::InvalidState));
    assert_eq!(begin(Some(0), Some(1), Type::Short, Some(16)), Err(Error::InvalidState));
    assert_eq!(begin(Some(0), None, Type::Initial, Some(16)), Err(Error::InvalidState));
    assert_eq!(begin(Some(0), None, Type::Short, Some(16)), Ok(ConnectionId::default()));
}

#[test]
fn room_of_a_packet() {
    let room = |a: PlanInputs| Plan::begin(a).map(|p| (p.fields.overhead, p.pk.fields.left));
    let a = inputs(Type::Short);
    assert_eq!(room(a), Ok((27, 1173)));
    assert_eq!(room(PlanInputs { ty: Type::Handshake, ..a }), Ok((29, 1171)));
    assert_eq!(room(PlanInputs { mtu: Some(1000), ..a }), Ok((27, 973)));
    assert_eq!(room(PlanInputs { mtu: Some(1500), ..a }), Ok((27, 1173)));
    assert_eq!(room(PlanInputs { cap: 31, ..a }), Ok((27, 4)));
    assert_eq!(room(PlanInputs { cap: 30, ..a }), Err(Error::Done));
    assert_eq!(room(PlanInputs { cap: 3, ..a }), Err(Error::Done));
    assert_eq!(Plan::begin(PlanInputs { cwnd: 20, ..a }).map(|p| p.fields.cwnd_available), Ok(0));
}

#[test]
fn stages_have_their_order() {
    let mut s = one_path();
    let mut plan = Plan::begin(inputs(Type::Short)).unwrap();
    let wrong = Error::InvalidState;
    assert_eq!(plan.probe(None), Err(wrong));
    assert_eq!(plan.validation(&mut s, &mut VecDeque::new(), true, [0; 8]), Err(wrong));
    assert_eq!(plan.stream_limits(&mut s, (true, 1), (true, 1)), Err(wrong));
    assert_eq!(plan.stream_data_limit(0, 1), Err(wrong));
    assert_eq!(plan.data_limit(&mut s, true, 1), Err(wrong));
    assert_eq!(plan.stop_sending(0, 1), Err(wrong));
    assert_eq!(plan.reset_stream(0, 1, 1), Err(wrong));
    assert_eq!(plan.stream_data_blocked(&mut s, 0, 1), Err(wrong));
    assert_eq!(plan.retire(&mut s), Err(wrong));
    assert_eq!(plan.close(&mut s, 0, 0), Err(wrong));
    assert_eq!(plan.crypto(&s, true, 0, CRYPTO_OVERHEAD), Err(wrong));
    assert_eq!(plan.crypto_written(0, 1), Err(wrong));
    assert_eq!(plan.queues(&s, true, true, DGRAM_OVERHEAD), Err(wrong));
    assert_eq!(plan.dgram(Some(1), 2), Err(wrong));
    assert_eq!(plan.dgram_written(&mut s, 1), Err(wrong));
    assert_eq!(plan.stream_turn(&s, STREAM_OVERHEAD), Err(wrong));
    assert_eq!(plan.stream(0, 0), Err(wrong));
    assert_eq!(plan.stream_written(0, 0, 1, false), Err(wrong));
    assert_eq!(plan.no_stream(), Err(wrong));
    assert_eq!(plan.finish(&mut s, STREAM_OVERHEAD), Err(wrong));
    assert!(frames(&plan).is_empty());
    assert_eq!(plan.control(&mut s, 0), Ok(Stage::Probe));
    assert_eq!(plan.control(&mut s, 0), Err(wrong));
}

#[test]
fn long_header_packets_skip_what_is_not_theirs() {
    let mut s = one_path();
    let mut plan = Plan::begin(inputs(Type::Handshake)).unwrap();
    assert_eq!(plan.control(&mut s, 0), Ok(Stage::Close));
    assert_eq!(plan.close(&mut s, 0, 0), Ok(()));
    // 1 byte of type, 1 of offset and 2 of length.
    assert_eq!(plan.crypto(&s, true, 0, CRYPTO_OVERHEAD), Ok(Some(1171 - 4)));
    assert_eq!(plan.crypto_written(0, 100), Ok(()));
    assert_eq!(plan.queues(&s, true, true, DGRAM_OVERHEAD), Ok(Stage::StreamData));
    assert_eq!(plan.stream_turn(&s, STREAM_OVERHEAD), Ok(false));
    let done = plan.finish(&mut s, STREAM_OVERHEAD).unwrap();
    assert!(done.ping_sent && !done.app_limited && !done.is_empty);
    assert_eq!(frames(&plan), vec![Frame::CryptoHeader { offset: 0, length: 100 }]);
    assert_eq!(plan.pk.fields.size, 104);
}

#[test]
fn length_field_covers_what_follows() {
    let mut buf = [9; 5];
    assert_eq!(fill_length(&mut buf, 1, 2, 104, 16), Ok(()));
    assert_eq!(buf, [9, 0x40, 122, 9, 9]);
    assert_eq!(fill_length(&mut buf, 3, 2, 1100, 16), Ok(()));
    assert_eq!(buf, [9, 0x40, 122, 0x44, 0x5e]);
    assert_eq!(fill_length(&mut buf, 4, 2, 1, 1), Err(Error::BufferTooShort));
    assert_eq!(fill_length(&mut buf, 6, 2, 1, 1), Err(Error::BufferTooShort));
    assert_eq!(buf, [9, 0x40, 122, 0x44, 0x5e]);
    // A length that takes more than two bytes loses its upper ones.
    assert_eq!(fill_length(&mut buf, 0, 0, 0x1_8001, 0), Ok(()));
    assert_eq!(buf[..2], [0xc0, 1]);
}

#[test]
fn acknowledgements_are_sent_where_elicited() {
    let mut s = one_path();
    s.need_ack.insert(2..5);
    let mut plan = Plan::begin(inputs(Type::Short)).unwrap();
    plan.control(&mut s, 80).unwrap();
    assert!(frames(&plan).is_empty());

    s.conn.ack_elicited = true;
    let mut plan = Plan::begin(inputs(Type::Short)).unwrap();
    plan.control(&mut s, 80).unwrap();
    let mut ranges = RangeSet::default();
    ranges.insert(2..5);
    assert_eq!(frames(&plan), vec![Frame::ACK { ack_delay: 10, ranges, ecn_counts: None }]);
    assert!(!plan.pk.fields.ack_eliciting && !plan.pk.fields.in_flight);
    assert!(!s.conn.ack_elicited);

    // Where a PING follows, both have to fit the congestion window.
    for (cwnd, want) in [(27 + 5, 0), (27 + 6, 1)] {
        let a = PlanInputs { elicit_required: true, cwnd, ..inputs(Type::Short) };
        let mut plan = Plan::begin(a).unwrap();
        plan.control(&mut s, 80).unwrap();
        assert_eq!(frames(&plan).len(), want, "{cwnd}");
    }
}

#[test]
fn congestion_window_limits_what_follows_acknowledgements() {
    let mut s = one_path();
    s.need_ack.insert(2..5);
    s.conn.ack_elicited = true;
    let mut plan = Plan::begin(PlanInputs { cwnd: 127, ..inputs(Type::Short) }).unwrap();
    plan.control(&mut s, 0).unwrap();
    assert_eq!(plan.pk.fields.size, 5);
    assert_eq!(plan.pk.fields.left, 95);
    // The acknowledgement itself is not limited.
    s.conn.ack_elicited = true;
    let mut plan = Plan::begin(PlanInputs { cwnd: 0, ..inputs(Type::Short) }).unwrap();
    plan.control(&mut s, 0).unwrap();
    assert_eq!((frames(&plan).len(), plan.pk.fields.left), (1, 0));
}

#[test]
fn frames_about_paths_go_on_any_path() {
    let mut s = two_paths();
    s.paths[1].need_ack.insert(0..1);
    s.paths[1].fields.ack_elicited = true;
    s.paths[1].fields.rx_elapsed_micros = 16;
    s.paths[1].fields.abandon.pending = true;
    s.paths[1].fields.abandon.error_code = 3;
    s.paths[0].fields.status = StatusState { pending: true, acked: false, seq_num: 5 };
    s.paths[0].fields.app_status = PathAppStatus::Backup;
    s.abandon_queue = vec![(9, 1)];
    s.conn.limits.paths_blocked_pending = Some(4);
    s.conn.limits.cids_blocked_path = Some(2);
    s.conn.limits.cids_blocked_seq = 1;
    s.conn.limits.max_path_id_pending = Some(6);
    s.conn.limits.max_path_id_acked = true;
    let mut plan = Plan::begin(inputs(Type::Short)).unwrap();
    plan.control(&mut s, 0).unwrap();
    let mut ranges = RangeSet::default();
    ranges.insert(0..1);
    assert_eq!(
        frames(&plan),
        vec![
            Frame::PathAck { path_id: 1, ack_delay: 2, ranges, ecn_counts: None },
            Frame::PathAbandon { path_id: 1, error_code: 3 },
            Frame::PathAbandon { path_id: 9, error_code: 1 },
            Frame::PathStatusBackup { path_id: 0, seq_num: 5 },
            Frame::PathsBlocked { path_id: 4 },
            Frame::PathCidsBlocked { path_id: 2, seq_num: 1 },
            Frame::MaxPathId { path_id: 6 },
        ],
    );
    assert!(plan.pk.fields.ack_eliciting && plan.pk.fields.in_flight);
    let x = s.paths[1].fields;
    assert!(!x.ack_elicited && !x.abandon.pending && x.abandon.sent);
    assert!(!s.paths[0].fields.status.pending);
    assert!(s.abandon_queue.is_empty());
    let l = s.conn.limits;
    assert_eq!((l.paths_blocked_pending, l.cids_blocked_path, l.max_path_id_pending), (None, None, None));
    assert_eq!((l.max_path_id_sent, l.max_path_id_acked), (Some(6), false));

    // Nothing of it is left for the next packet.
    let mut plan = Plan::begin(inputs(Type::Short)).unwrap();
    plan.control(&mut s, 0).unwrap();
    assert!(frames(&plan).is_empty());
}

#[test]
fn queued_abandons_without_room_are_kept() {
    let mut s = two_paths();
    s.abandon_queue = vec![(1 << 40, 1), (3, 1), (1 << 41, 2)];
    // 6 bytes of frame type and ID with 1 byte of error code find room, 13 do not.
    let a = PlanInputs { cap: 27 + 7, ..inputs(Type::Short) };
    let mut plan = Plan::begin(a).unwrap();
    plan.control(&mut s, 0).unwrap();
    assert_eq!(frames(&plan), vec![Frame::PathAbandon { path_id: 3, error_code: 1 }]);
    assert_eq!(s.abandon_queue, vec![(1 << 40, 1), (1 << 41, 2)]);
}

#[test]
fn probe_fills_the_packet() {
    let mut s = one_path();
    let mut plan = Plan::begin(PlanInputs { cwnd: 500, ..inputs(Type::Short) }).unwrap();
    plan.control(&mut s, 0).unwrap();
    assert_eq!(plan.probe(Some(20)), Err(Error::Done));
    assert!(frames(&plan).is_empty());
    assert_eq!(plan.probe(Some(1400)), Ok(()));
    assert_eq!(
        frames(&plan),
        vec![Frame::Padding { len: 1372 }, Frame::Ping { mtu_probe: Some(1400) }],
    );
    assert_eq!((plan.pk.fields.size, plan.pk.fields.left), (1373, 0));
    assert!(plan.pk.fields.is_pmtud_probe && plan.pk.fields.ack_eliciting);
    plan.validation(&mut s, &mut VecDeque::new(), false, [0; 8]).unwrap();
    plan.stream_limits(&mut s, (false, 0), (false, 0)).unwrap();
    plan.data_limit(&mut s, false, 0).unwrap();
    plan.retire(&mut s).unwrap();
    plan.close(&mut s, 0, 0).unwrap();
    plan.crypto(&s, false, 0, CRYPTO_OVERHEAD).unwrap();
    plan.queues(&s, false, true, DGRAM_OVERHEAD).unwrap();
    assert_eq!(plan.stream_turn(&s, STREAM_OVERHEAD), Ok(false));
    // A probe is none of the packets that were asked for.
    assert!(!plan.finish(&mut s, STREAM_OVERHEAD).unwrap().ping_sent);
}

#[test]
fn challenges_are_answered_and_sent() {
    let mut s = one_path();
    let mut received = VecDeque::from([[1; 8], [2; 8], [3; 8]]);
    // There is room for one frame of 9 bytes.
    let a = PlanInputs { cap: 27 + 10, ..inputs(Type::Short) };
    let mut plan = Plan::begin(a).unwrap();
    plan.control(&mut s, 0).unwrap();
    plan.probe(None).unwrap();
    assert_eq!(plan.validation(&mut s, &mut received, true, [9; 8]), Ok(false));
    assert_eq!(frames(&plan), vec![Frame::PathResponse { data: [1; 8] }]);
    // The second one found no room and is lost.
    assert_eq!(received, [[3; 8]]);

    let mut plan = Plan::begin(inputs(Type::Short)).unwrap();
    plan.control(&mut s, 0).unwrap();
    plan.probe(None).unwrap();
    assert_eq!(plan.validation(&mut s, &mut received, true, [9; 8]), Ok(true));
    assert_eq!(
        frames(&plan),
        vec![Frame::PathResponse { data: [3; 8] }, Frame::PathChallenge { data: [9; 8] }],
    );
}

#[test]
fn connection_ids_are_announced() {
    let mut s = one_path();
    s.ids.set_source_conn_id_limit(4);
    s.ids.new_scid(cid(3), Some(0x33), true, None, false).unwrap();
    s.ids.mp_new_scid(2, cid(4), 0x44).unwrap();
    s.conn.handshake_done = HandshakeDone { sent: false, acked: false };
    let plan = up_to_data(&mut s, inputs(Type::Short));
    let mut token = [0; 16];
    token[15] = 0x33;
    assert_eq!(
        frames(&plan),
        vec![
            Frame::NewConnectionId {
                seq_num: 1,
                retire_prior_to: 0,
                conn_id: vec![3; 8],
                reset_token: token,
            },
            Frame::PathNewConnectionId {
                path_id: 2,
                seq_num: 0,
                retire_prior_to: 0,
                conn_id: vec![4; 8],
                reset_token: 0x44,
            },
            Frame::HandshakeDone,
        ],
    );
    assert!(!s.ids.has_new_scids() && !s.ids.mp_has_new_scids());
    assert!(s.conn.handshake_done.sent);
}

#[test]
fn nothing_is_announced_while_closing() {
    let mut s = one_path();
    s.ids.set_source_conn_id_limit(4);
    s.ids.new_scid(cid(3), Some(0x33), true, None, false).unwrap();
    s.local_error = Some(ConnectionError { is_app: true, error_code: 5, reason: vec![6] });
    let plan = up_to_data(&mut s, inputs(Type::Short));
    assert_eq!(
        frames(&plan),
        vec![Frame::ApplicationClose { error_code: 5, reason: vec![6] }],
    );
    assert!(s.ids.has_new_scids());
    // Closing takes three PTOs.
    assert_eq!(s.conn.timers.draining, Some(1_030));
}

#[test]
fn closing_frames() {
    let close = |paths: Vec<PathFields>, pid: usize, is_app: bool, ty: Type| {
        let mut s = sender(paths);
        s.local_error = Some(ConnectionError { is_app, error_code: 5, reason: vec![] });
        let mut plan = Plan::begin(PlanInputs { pid, ..inputs(ty) }).unwrap();
        plan.control(&mut s, 0).unwrap();
        if ty == Type::Short {
            plan.probe(None).unwrap();
            plan.validation(&mut s, &mut VecDeque::new(), false, [0; 8]).unwrap();
        }
        plan.close(&mut s, 0, 1).unwrap();
        let transport = Frame::ConnectionClose { error_code: 5, frame_type: 0, reason: vec![] };
        assert_eq!(frames(&plan).contains(&transport), !is_app);
        assert_eq!(s.conn.timers.draining.is_some(), !frames(&plan).is_empty());
        frames(&plan).len()
    };
    assert_eq!(close(vec![path(0, true)], 0, false, Type::Handshake), 1);
    assert_eq!(close(vec![path(0, true)], 0, true, Type::Handshake), 0);
    assert_eq!(close(vec![path(0, false)], 0, true, Type::Short), 1);
    assert_eq!(close(vec![path(0, true), path(1, false)], 1, true, Type::Short), 0);
    assert_eq!(close(vec![path(0, true), path(1, false)], 0, true, Type::Short), 1);
}

#[test]
fn closing_period_is_that_of_the_slowest_path() {
    let mut s = two_paths();
    assert_eq!(s.closing_pto(3, 9), 9);
    s.conn.config.multipath_enabled = false;
    assert_eq!(s.closing_pto(3, 9), 3);
}

#[test]
fn limits_and_blocked_frames() {
    let mut s = one_path();
    s.conn.flow.send_max_streams_uni = true;
    s.conn.flow.blocked_limit = Some(50);
    s.conn.flow.data_blocked_sent_count = u64::MAX;
    let mut plan = Plan::begin(inputs(Type::Short)).unwrap();
    plan.control(&mut s, 0).unwrap();
    plan.probe(None).unwrap();
    plan.validation(&mut s, &mut VecDeque::new(), false, [0; 8]).unwrap();
    assert_eq!(plan.stream_limits(&mut s, (true, 10), (false, 20)), Ok((true, true)));
    assert_eq!(plan.stream_data_limit(4, 30), Ok(true));
    assert_eq!(plan.stream_data_limit(8, 31), Ok(true));
    assert_eq!(plan.data_limit(&mut s, true, 40), Ok(true));
    assert_eq!(plan.stop_sending(4, 1), Ok(true));
    assert_eq!(plan.reset_stream(8, 2, 3), Ok(true));
    assert_eq!(plan.stream_data_blocked(&mut s, 4, 60), Ok(true));
    assert_eq!(
        frames(&plan),
        vec![
            Frame::MaxStreamsBidi { max: 10 },
            Frame::MaxStreamsUni { max: 20 },
            Frame::DataBlocked { limit: 50 },
            Frame::MaxStreamData { stream_id: 4, max: 30 },
            Frame::MaxStreamData { stream_id: 8, max: 31 },
            Frame::MaxData { max: 40 },
            Frame::StopSending { stream_id: 4, error_code: 1 },
            Frame::ResetStream { stream_id: 8, error_code: 2, final_size: 3 },
            Frame::StreamDataBlocked { stream_id: 4, limit: 60 },
        ],
    );
    let flow = s.conn.flow;
    assert!(!flow.send_max_streams_uni && !flow.send_max_streams_bidi && !flow.send_max_data);
    assert_eq!(flow.blocked_limit, None);
    assert_eq!((flow.data_blocked_sent_count, flow.stream_data_blocked_sent_count), (u64::MAX, 1));
}

#[test]
fn packet_does_not_retire_its_own_connection_id() {
    let mut s = two_paths();
    for seq in [0, 1] {
        s.ids.mark_retire_dcid_seq(seq, true).unwrap();
        s.ids.mp_mark_retire_dcid(0, seq, true).unwrap();
        s.ids.mp_mark_retire_dcid(1, seq, true).unwrap();
    }
    let plan = up_to_data(&mut s, inputs(Type::Short));
    let mut sent: Vec<&Frame> = frames(&plan).iter().collect();
    sent.sort_by_key(|f| format!("{f:?}"));
    assert_eq!(
        sent,
        vec![
            &Frame::PathRetireConnectionId { path_id: 0, seq_num: 1 },
            &Frame::PathRetireConnectionId { path_id: 1, seq_num: 0 },
            &Frame::PathRetireConnectionId { path_id: 1, seq_num: 1 },
            &Frame::RetireConnectionId { seq_num: 1 },
        ],
    );
    assert_eq!(s.ids.retire_dcid_seq_list(), vec![0]);
    assert_eq!(s.ids.mp_retire_dcid_seqs(), vec![(0, 0)]);

    // On a path with connection IDs of its own they are no danger.
    s.paths[1].fields.mp_per_path_cids = true;
    s.ids.mp_mark_retire_dcid(1, 0, true).unwrap();
    up_to_data(&mut s, PlanInputs { pid: 1, ..inputs(Type::Short) });
    assert!(!s.ids.has_retire_dcids());
    assert_eq!(s.ids.mp_retire_dcid_seqs(), vec![(1, 0)]);
}

#[test]
fn datagrams_and_streams_take_turns() {
    let mut s = one_path();
    let mut plan = up_to_data(&mut s, inputs(Type::Short));
    let left = plan.pk.fields.left;
    assert_eq!(plan.queues(&s, true, true, DGRAM_OVERHEAD), Ok(Stage::Dgrams));
    assert_eq!(plan.dgram(Some(left - 2), left - 2), Ok(DgramStep::Wait));
    // The stream has its turn where the datagram has to wait.
    assert_eq!(plan.stream_turn(&s, STREAM_OVERHEAD), Ok(true));
    assert_eq!(plan.stream(4, 0), Ok(Some(left - 5)));
    assert_eq!(plan.stream_written(4, 0, 10, false), Ok(()));
    plan.finish(&mut s, STREAM_OVERHEAD).unwrap();
    assert!(s.conn.emit_dgram);
    assert!(plan.pk.fields.has_data && !plan.pk.fields.dgram_emitted);

    let mut plan = up_to_data(&mut s, inputs(Type::Short));
    assert_eq!(plan.queues(&s, true, true, DGRAM_OVERHEAD), Ok(Stage::Dgrams));
    assert_eq!(plan.dgram(Some(5_000), 1_000), Ok(DgramStep::Purge));
    assert_eq!(plan.dgram(Some(100), 1_000), Ok(DgramStep::Send));
    assert_eq!(plan.dgram_written(&mut s, 100), Ok(()));
    assert_eq!(plan.dgram(None, 1_000), Ok(DgramStep::Wait));
    assert_eq!(plan.stream_turn(&s, STREAM_OVERHEAD), Ok(false));
    let done = plan.finish(&mut s, STREAM_OVERHEAD).unwrap();
    assert!(!done.app_limited);
    assert_eq!(frames(&plan), vec![Frame::DatagramHeader { length: 100 }]);
    assert_eq!((s.conn.stats.dgram_sent_count, s.paths[0].fields.stats.dgram_sent_count), (1, 1));
    assert!(!s.conn.emit_dgram);
    assert!(!sent_info(&plan.pk, 200, false).has_data);
    assert!(sent_info(&plan.pk, 200, true).has_data);

    // Now it is the turn of streams, if there is one.
    let mut plan = up_to_data(&mut s, inputs(Type::Short));
    assert_eq!(plan.queues(&s, true, true, DGRAM_OVERHEAD), Ok(Stage::StreamData));
    let mut plan = up_to_data(&mut s, inputs(Type::Short));
    assert_eq!(plan.queues(&s, true, false, DGRAM_OVERHEAD), Ok(Stage::Dgrams));
}

#[test]
fn paths_that_cannot_send_carry_no_data() {
    let mut s = one_path();
    s.paths[0].fields.can_send = false;
    let mut plan = up_to_data(&mut s, inputs(Type::Short));
    assert_eq!(plan.queues(&s, true, true, DGRAM_OVERHEAD), Ok(Stage::StreamData));
    assert_eq!(plan.stream_turn(&s, STREAM_OVERHEAD), Ok(false));
}

#[test]
fn empty_packets_are_not_sent() {
    let mut s = one_path();
    let mut plan = without_data(&mut s, inputs(Type::Short));
    let done = plan.finish(&mut s, STREAM_OVERHEAD).unwrap();
    assert!(done.is_empty && done.app_limited && !done.ping_sent);
    assert!(frames(&plan).is_empty());
}

#[test]
fn ping_elicits_an_acknowledgement() {
    let mut s = one_path();
    s.paths[0].fields.needs_ack_eliciting = true;
    let mut plan = without_data(&mut s, inputs(Type::Short));
    let done = plan.finish(&mut s, STREAM_OVERHEAD).unwrap();
    assert!(done.ping_sent && !done.is_empty);
    assert!(!s.paths[0].fields.needs_ack_eliciting);
    // The payload has at least four bytes.
    assert_eq!(
        frames(&plan),
        vec![Frame::Ping { mtu_probe: None }, Frame::Padding { len: 3 }],
    );

    let mut plan =
        without_data(&mut s, PlanInputs { elicit_required: true, ..inputs(Type::Short) });
    assert!(plan.finish(&mut s, STREAM_OVERHEAD).unwrap().ping_sent);
    // There is no PING while closing, nor without congestion window space.
    let mut plan =
        without_data(&mut s, PlanInputs { elicit_required: true, cwnd: 27, ..inputs(Type::Short) });
    assert!(plan.finish(&mut s, STREAM_OVERHEAD).unwrap().is_empty);
}

#[test]
fn packets_are_padded_to_their_size() {
    for (has_initial, validated) in [(true, true), (false, false)] {
        let mut s = one_path();
        s.paths[0].fields.validated = validated;
        let a = PlanInputs { has_initial, elicit_required: true, ..inputs(Type::Short) };
        let mut plan = without_data(&mut s, a);
        plan.finish(&mut s, STREAM_OVERHEAD).unwrap();
        assert_eq!(
            frames(&plan),
            vec![Frame::Ping { mtu_probe: None }, Frame::Padding { len: 1172 }],
        );
        assert_eq!(plan.pk.fields.left, 0);
    }
}

#[test]
fn sent_packets_are_recorded() {
    let mut s = one_path();
    s.paths[0].fields.max_send_bytes = 150;
    let mut pk = Packing::new(10);
    assert!(pk.push_eliciting(Frame::Ping { mtu_probe: None }));
    let info = sent_info(&pk, 100, true);
    assert_eq!((info.size, info.ack_eliciting, info.in_flight, info.has_data), (100, true, true, false));
    s.use_number(false);
    s.packet_sent(&pk, 0, 100, 1_000, Some(30));
    assert_eq!((s.conn.stats.sent_count, s.conn.stats.sent_bytes), (1, 100));
    assert_eq!(s.paths[0].fields.stats, s.conn.stats);
    assert_eq!(s.paths[0].fields.max_send_bytes, 50);
    assert_eq!(s.conn.next_pkt_num, 8);
    assert_eq!(s.conn.timers.idle, Some(1_030));
    // Only the first ack-eliciting packet restarts the timer.
    s.use_number(true);
    s.packet_sent(&pk, 0, 100, 2_000, Some(30));
    assert_eq!(s.conn.timers.idle, Some(1_030));
    assert_eq!(s.conn.next_pkt_num, 8);
    assert_eq!(s.paths[0].fields.max_send_bytes, 0);

    let mut pk = Packing::new(10);
    assert!(pk.push(Frame::Padding { len: 10 }));
    assert!(!pk.push(Frame::Padding { len: 1 }));
    assert_eq!(sent_info(&pk, 100, true).size, 0);
    s.conn.ack_eliciting_sent = false;
    s.packet_sent(&pk, 0, 100, 3_000, Some(30));
    assert_eq!(s.conn.timers.idle, Some(1_030));
    assert!(!s.conn.ack_eliciting_sent);
}

#[test]
fn clients_drop_the_initial_state_after_handshake_packets() {
    let mut s = one_path();
    assert!(!s.drops_initial_state(Type::Handshake));
    s.conn.config.is_server = false;
    assert!(s.drops_initial_state(Type::Handshake));
    assert!(!s.drops_initial_state(Type::Short));
}

#[test]
fn streams_that_are_gone_or_stopped_do_not_send() {
    assert!(OPEN.is_sending() && OPEN.takes_limit());
    assert!(!NO_STREAM.is_sending() && !NO_STREAM.takes_limit());
    let stopped = StreamFacts { send_stopped: true, ..OPEN };
    assert!(!stopped.is_sending() && stopped.takes_limit());
}

#[test]
fn app_limited_updates() {
    let mut pk = Packing::new(10);
    assert!(!limits_delivery(&pk, true));
    assert!(pk.push_eliciting(Frame::Ping { mtu_probe: None }));
    assert!(limits_delivery(&pk, true));
    assert!(!limits_delivery(&pk, false));
    assert!(dgrams_fill_window(11, 10));
    assert!(!dgrams_fill_window(10, 10));
}

#[test]
fn max_data_is_due_where_the_limit_grows() {
    assert!(max_data_due(true, 9, 10));
    assert!(!max_data_due(true, 10, 10));
    assert!(!max_data_due(false, 9, 10));
}
