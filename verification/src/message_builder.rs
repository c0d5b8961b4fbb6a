//! The messages that report the metrics.

use crate::bytes;
use crate::metrics::{
    now_ms, ErrorDomain, LatencyAggregator, MessageType, Metrics, StreamType,
};
use crate::metrics;
use crate::wire;
use crate::wire::{EventErrorPayload, SnapshotPeriodicPayload, SnapshotStartPayload, SpscMsg256};
use std::collections::hash_map::DefaultHasher;
use std::hash::{Hash, Hasher};
use vstd::prelude::*;
use vstd::std_specs::hash::*;

verus! {

/// Version of this package.
pub const PKG_VERSION: &'static str = "0.1.0";

/// What a `DefaultHasher` has been fed, once a string has been fed to it behind
/// `fed`.
pub uninterp spec fn str_fed(fed: Seq<Seq<u8>>, s: Seq<char>) -> Seq<Seq<u8>>;

/// `<str as Hash>::hash`: what it feeds to the hasher depends on the string
/// alone.
#[verifier::external_body]
fn feed_str(s: &str, hasher: &mut DefaultHasher)
    ensures
        final(hasher)@ == str_fed(old(hasher)@, s@),
{
    s.hash(hasher);
}

/// The hash of a string under the standard library's default hasher with its
/// fixed keys.
pub open spec fn default_hash(s: Seq<char>) -> u64 {
    DefaultHasher::spec_finish(str_fed(Seq::empty(), s))
}

/// Hashes a string.
pub fn hash_string(s: &str) -> (r: u64)
    ensures
        r == default_hash(s@),
{
    let mut hasher: DefaultHasher = DefaultHasher::new();
    feed_str(s, &mut hasher);
    hasher.finish()
}

/// The bytes of a message of this kind about `m`: the common header, then
/// `payload`.
pub open spec fn message(
    kind: MessageType,
    m: Metrics,
    pid: u32,
    ts_ms: u64,
    payload: Seq<u8>,
) -> Seq<u8> {
    seq![kind.spec_code(), 1u8, 1u8, 0u8] + bytes::le(ts_ms as nat, 8) + bytes::le(
        m.session_id as nat,
        4,
    ) + bytes::le(pid as nat, 4) + seq![m.ws_state.spec_code(), 0u8, 0u8, 0u8] + bytes::le(
        m.log_seq as nat,
        8,
    ) + payload
}

/// What the start message says of `m`.
pub open spec fn start_payload(
    m: Metrics,
    symbols_count: u32,
    version_hash: u64,
    ws_url_hash: u64,
    ring_size: u32,
) -> SnapshotStartPayload {
    SnapshotStartPayload {
        start_ms: m.session_start_ms,
        build_version_hash: version_hash,
        symbols_count,
        stream_type: StreamType::BookTicker.spec_code(),
        _pad0: bytes::zeroed::<3>(),
        ring_size,
        msg_size: 256,
        ws_url_hash,
        ws_rx_frames_total: m.ws_rx_frames_total,
        ws_rx_bytes_total: m.ws_rx_bytes_total,
        ws_rx_msgs_total: m.ws_rx_msgs_total,
        ws_reconnect_total: m.ws_reconnect_total,
        ws_disconnect_total: m.ws_disconnect_total,
        ws_handshake_fail_total: m.ws_handshake_fail_total,
        ws_subscribe_ok_total: m.ws_subscribe_ok_total,
        ws_subscribe_fail_total: m.ws_subscribe_fail_total,
        ws_parse_error_total: m.ws_parse_error_total,
        ws_protocol_error_total: m.ws_protocol_error_total,
        _pad1: 0,
        shm_write_ok_total: m.shm_write_ok_total,
        shm_write_fail_total: m.shm_write_fail_total,
        _pad2: 0,
        last_frame_rx_ms: m.ws_last_frame_rx_ms,
        last_data_rx_ms: m.ws_last_data_rx_ms,
        last_error_code: m.ws_last_error_code,
        last_close_code: m.ws_last_close_code,
        _padding: bytes::zeroed::<90>(),
    }
}

/// `a - b`, zero where that is negative.
pub open spec fn above(a: u64, b: u64) -> u64 {
    if a >= b {
        (a - b) as u64
    } else {
        0
    }
}

/// How far the total `now` is above `before`, in the lowest 32 bits.
pub open spec fn delta(now: u64, before: u64) -> u32 {
    ((now - before) % 0x1_0000_0000) as u32
}

/// What the periodic message says of `m` at the time `ts_ms`.
pub open spec fn periodic_payload(m: Metrics, ts_ms: u64) -> SnapshotPeriodicPayload {
    SnapshotPeriodicPayload {
        session_start_ms: m.session_start_ms,
        last_frame_rx_ms: m.ws_last_frame_rx_ms,
        last_data_rx_ms: m.ws_last_data_rx_ms,
        uptime_ms: above(ts_ms, m.session_start_ms),
        silence_ms: if m.ws_last_data_rx_ms > 0 {
            above(ts_ms, m.ws_last_data_rx_ms)
        } else {
            ts_ms
        },
        rx_msgs_delta: delta(m.ws_rx_msgs_total, m.prev_rx_msgs_total),
        reconnect_delta: (m.ws_reconnect_total - m.prev_reconnect_total) as u32,
        subscribe_fail_delta: (m.ws_subscribe_fail_total - m.prev_subscribe_fail_total) as u32,
        parse_error_delta: (m.ws_parse_error_total - m.prev_parse_error_total) as u32,
        protocol_error_delta: (m.ws_protocol_error_total - m.prev_protocol_error_total) as u32,
        shm_write_ok_delta: delta(m.shm_write_ok_total, m.prev_shm_write_ok_total),
        shm_write_fail_delta: (m.shm_write_fail_total - m.prev_shm_write_fail_total) as u32,
        _pad0: 0,
        shm_last_write_ok_ms: m.shm_last_write_ok_ms,
        shm_last_write_fail_ms: m.shm_last_write_fail_ms,
        lat_count: m.lat_rx_to_written.count,
        lat_min_ms: m.lat_rx_to_written.min_ms,
        lat_max_ms: m.lat_rx_to_written.max_ms,
        lat_avg_ms: m.lat_rx_to_written.mean() as u32,
        last_error_code: m.ws_last_error_code,
        last_close_code: m.ws_last_close_code,
        _padding: bytes::zeroed::<114>(),
    }
}

/// `m` once a periodic message has reported it: the totals are taken down, the
/// latencies begin anew, all else stays.
pub open spec fn reported(m: Metrics) -> Metrics {
    Metrics {
        prev_rx_msgs_total: m.ws_rx_msgs_total,
        prev_reconnect_total: m.ws_reconnect_total,
        prev_subscribe_fail_total: m.ws_subscribe_fail_total,
        prev_parse_error_total: m.ws_parse_error_total,
        prev_protocol_error_total: m.ws_protocol_error_total,
        prev_shm_write_ok_total: m.shm_write_ok_total,
        prev_shm_write_fail_total: m.shm_write_fail_total,
        lat_rx_to_written: LatencyAggregator::none(),
        ..m
    }
}

/// What an error message says of `m`.
pub open spec fn error_payload(
    m: Metrics,
    domain: ErrorDomain,
    code: i16,
    aux_u32: u32,
    aux_u64_0: u64,
    aux_u64_1: u64,
) -> EventErrorPayload {
    EventErrorPayload {
        domain: domain.spec_code(),
        _pad0: 0,
        code,
        aux_u32,
        aux_u64_0,
        aux_u64_1,
        last_frame_rx_ms: m.ws_last_frame_rx_ms,
        last_data_rx_ms: m.ws_last_data_rx_ms,
        _padding: bytes::zeroed::<184>(),
    }
}

/// The bytes of the start message.
pub open spec fn start_message(
    m: Metrics,
    symbols_count: u32,
    version_hash: u64,
    ws_url_hash: u64,
    ring_size: u32,
    pid: u32,
    ts_ms: u64,
) -> Seq<u8> {
    message(
        MessageType::SnapshotStart,
        m,
        pid,
        ts_ms,
        start_payload(m, symbols_count, version_hash, ws_url_hash, ring_size).spec_bytes(),
    )
}

/// The bytes of the periodic message.
pub open spec fn periodic_message(m: Metrics, pid: u32, ts_ms: u64) -> Seq<u8> {
    message(
        MessageType::SnapshotPeriodic,
        m,
        pid,
        ts_ms,
        periodic_payload(m, ts_ms).spec_bytes(),
    )
}

/// The bytes of an error message.
pub open spec fn error_message(
    m: Metrics,
    domain: ErrorDomain,
    code: i16,
    aux_u32: u32,
    aux_u64_0: u64,
    aux_u64_1: u64,
    pid: u32,
    ts_ms: u64,
) -> Seq<u8> {
    message(
        MessageType::EventError,
        m,
        pid,
        ts_ms,
        error_payload(m, domain, code, aux_u32, aux_u64_0, aux_u64_1).spec_bytes(),
    )
}

/// A message of this kind about `metrics`.
fn frame(kind: MessageType, metrics: &Metrics, pid: u32, ts_ms: u64, payload: [u8; 224]) -> (r: [u8;
    256])
    ensures
        r@ == message(kind, *metrics, pid, ts_ms, payload@),
{
    let msg = SpscMsg256 {
        msg_type: kind.code(),
        abi_version: 1,
        layout_version: 1,
        _reserved0: 0,
        ts_ms,
        session_id: metrics.session_id,
        pid,
        ws_state: metrics.ws_state.code(),
        _pad0: [0u8; 3],
        log_seq: metrics.log_seq,
        payload,
    };
    let r: [u8; 256] = msg.as_bytes();
    assert(r@ =~= message(kind, *metrics, pid, ts_ms, payload@));
    r
}

/// The start message with these hashes, at the time `ts_ms`.
pub fn snapshot_start(
    metrics: &Metrics,
    symbols_count: u32,
    version_hash: u64,
    ws_url_hash: u64,
    ring_size: u32,
    pid: u32,
    ts_ms: u64,
) -> (r: [u8; 256])
    ensures
        r@ == start_message(
            *metrics,
            symbols_count,
            version_hash,
            ws_url_hash,
            ring_size,
            pid,
            ts_ms,
        ),
{
    let payload = SnapshotStartPayload {
        start_ms: metrics.session_start_ms,
        build_version_hash: version_hash,
        symbols_count,
        stream_type: StreamType::BookTicker.code(),
        _pad0: [0u8; 3],
        ring_size,
        msg_size: 256,
        ws_url_hash,
        ws_rx_frames_total: metrics.ws_rx_frames_total,
        ws_rx_bytes_total: metrics.ws_rx_bytes_total,
        ws_rx_msgs_total: metrics.ws_rx_msgs_total,
        ws_reconnect_total: metrics.ws_reconnect_total,
        ws_disconnect_total: metrics.ws_disconnect_total,
        ws_handshake_fail_total: metrics.ws_handshake_fail_total,
        ws_subscribe_ok_total: metrics.ws_subscribe_ok_total,
        ws_subscribe_fail_total: metrics.ws_subscribe_fail_total,
        ws_parse_error_total: metrics.ws_parse_error_total,
        ws_protocol_error_total: metrics.ws_protocol_error_total,
        _pad1: 0,
        shm_write_ok_total: metrics.shm_write_ok_total,
        shm_write_fail_total: metrics.shm_write_fail_total,
        _pad2: 0,
        last_frame_rx_ms: metrics.ws_last_frame_rx_ms,
        last_data_rx_ms: metrics.ws_last_data_rx_ms,
        last_error_code: metrics.ws_last_error_code,
        last_close_code: metrics.ws_last_close_code,
        _padding: [0u8; 90],
    };
    frame(MessageType::SnapshotStart, metrics, pid, ts_ms, payload.to_bytes())
}

/// The start message of this process, now.
pub fn build_snapshot_start(
    metrics: &Metrics,
    symbols_count: u32,
    ws_url: &str,
    ring_size: u32,
    pid: u32,
) -> (r: [u8; 256])
    ensures
        exists|ts_ms: u64|
            r@ == #[trigger] start_message(
                *metrics,
                symbols_count,
                default_hash(PKG_VERSION@),
                default_hash(ws_url@),
                ring_size,
                pid,
                ts_ms,
            ),
{
    snapshot_start(
        metrics,
        symbols_count,
        hash_string(PKG_VERSION),
        hash_string(ws_url),
        ring_size,
        pid,
        now_ms(),
    )
}

/// The periodic message at the time `ts_ms`. The totals that it reports are
/// taken down, so that the next one reports what came after.
pub fn snapshot_periodic(metrics: &mut Metrics, pid: u32, ts_ms: u64) -> (r: [u8; 256])
    requires
        old(metrics).coherent(),
    ensures
        r@ == periodic_message(*old(metrics), pid, ts_ms),
        *final(metrics) == reported(*old(metrics)),
        final(metrics).coherent(),
{
    let silence_ms: u64 = if metrics.ws_last_data_rx_ms > 0 {
        ts_ms.saturating_sub(metrics.ws_last_data_rx_ms)
    } else {
        ts_ms
    };
    let rx_msgs: u64 = metrics.ws_rx_msgs_total - metrics.prev_rx_msgs_total;
    let shm_write_ok: u64 = metrics.shm_write_ok_total - metrics.prev_shm_write_ok_total;
    let payload = SnapshotPeriodicPayload {
        session_start_ms: metrics.session_start_ms,
        last_frame_rx_ms: metrics.ws_last_frame_rx_ms,
        last_data_rx_ms: metrics.ws_last_data_rx_ms,
        uptime_ms: ts_ms.saturating_sub(metrics.session_start_ms),
        silence_ms,
        rx_msgs_delta: (rx_msgs % 0x1_0000_0000) as u32,
        reconnect_delta: metrics.ws_reconnect_total - metrics.prev_reconnect_total,
        subscribe_fail_delta: metrics.ws_subscribe_fail_total - metrics.prev_subscribe_fail_total,
        parse_error_delta: metrics.ws_parse_error_total - metrics.prev_parse_error_total,
        protocol_error_delta: metrics.ws_protocol_error_total - metrics.prev_protocol_error_total,
        shm_write_ok_delta: (shm_write_ok % 0x1_0000_0000) as u32,
        shm_write_fail_delta: metrics.shm_write_fail_total - metrics.prev_shm_write_fail_total,
        _pad0: 0,
        shm_last_write_ok_ms: metrics.shm_last_write_ok_ms,
        shm_last_write_fail_ms: metrics.shm_last_write_fail_ms,
        lat_count: metrics.lat_rx_to_written.count,
        lat_min_ms: metrics.lat_rx_to_written.min_ms,
        lat_max_ms: metrics.lat_rx_to_written.max_ms,
        lat_avg_ms: metrics.lat_rx_to_written.avg(),
        last_error_code: metrics.ws_last_error_code,
        last_close_code: metrics.ws_last_close_code,
        _padding: [0u8; 114],
    };
    let r: [u8; 256] = frame(MessageType::SnapshotPeriodic, metrics, pid, ts_ms, payload.to_bytes());
    metrics.prev_rx_msgs_total = metrics.ws_rx_msgs_total;
    metrics.prev_reconnect_total = metrics.ws_reconnect_total;
    metrics.prev_subscribe_fail_total = metrics.ws_subscribe_fail_total;
    metrics.prev_parse_error_total = metrics.ws_parse_error_total;
    metrics.prev_protocol_error_total = metrics.ws_protocol_error_total;
    metrics.prev_shm_write_ok_total = metrics.shm_write_ok_total;
    metrics.prev_shm_write_fail_total = metrics.shm_write_fail_total;
    metrics.lat_rx_to_written.reset();
    r
}

/// The periodic message, now.
pub fn build_snapshot_periodic(metrics: &mut Metrics, pid: u32) -> (r: [u8; 256])
    requires
        old(metrics).coherent(),
    ensures
        exists|ts_ms: u64| r@ == #[trigger] periodic_message(*old(metrics), pid, ts_ms),
        *final(metrics) == reported(*old(metrics)),
        final(metrics).coherent(),
{
    snapshot_periodic(metrics, pid, now_ms())
}

/// An error message at the time `ts_ms`.
pub fn event_error(
    metrics: &Metrics,
    domain: ErrorDomain,
    code: i16,
    aux_u32: u32,
    aux_u64_0: u64,
    aux_u64_1: u64,
    pid: u32,
    ts_ms: u64,
) -> (r: [u8; 256])
    ensures
        r@ == error_message(
            *metrics,
            domain,
            code,
            aux_u32,
            aux_u64_0,
            aux_u64_1,
            pid,
            ts_ms,
        ),
{
    let payload = EventErrorPayload {
        domain: domain.code(),
        _pad0: 0,
        code,
        aux_u32,
        aux_u64_0,
        aux_u64_1,
        last_frame_rx_ms: metrics.ws_last_frame_rx_ms,
        last_data_rx_ms: metrics.ws_last_data_rx_ms,
        _padding: [0u8; 184],
    };
    frame(MessageType::EventError, metrics, pid, ts_ms, payload.to_bytes())
}

/// An error message, now.
pub fn build_event_error(
    metrics: &Metrics,
    domain: ErrorDomain,
    code: i16,
    aux_u32: u32,
    aux_u64_0: u64,
    aux_u64_1: u64,
    pid: u32,
) -> (r: [u8; 256])
    ensures
        exists|ts_ms: u64|
            r@ == #[trigger] error_message(
                *metrics,
                domain,
                code,
                aux_u32,
                aux_u64_0,
                aux_u64_1,
                pid,
                ts_ms,
            ),
{
    event_error(metrics, domain, code, aux_u32, aux_u64_0, aux_u64_1, pid, now_ms())
}

/// Every message is 256 bytes long: its kind, the two version bytes, the time,
/// the session, the process, the state of the connection and the number of the
/// message stand at fixed places, the payload from byte 32 on.
pub proof fn law_header_layout(
    kind: MessageType,
    m: Metrics,
    pid: u32,
    ts_ms: u64,
    payload: Seq<u8>,
)
    requires
        payload.len() == 224,
    ensures
        message(kind, m, pid, ts_ms, payload).len() == 256,
        message(kind, m, pid, ts_ms, payload)[0] == kind.spec_code(),
        message(kind, m, pid, ts_ms, payload)[1] == 1,
        message(kind, m, pid, ts_ms, payload)[2] == 1,
        bytes::le_value(message(kind, m, pid, ts_ms, payload).subrange(4, 12)) == ts_ms,
        bytes::le_value(message(kind, m, pid, ts_ms, payload).subrange(12, 16)) == m.session_id,
        bytes::le_value(message(kind, m, pid, ts_ms, payload).subrange(16, 20)) == pid,
        message(kind, m, pid, ts_ms, payload)[20] == m.ws_state.spec_code(),
        bytes::le_value(message(kind, m, pid, ts_ms, payload).subrange(24, 32)) == m.log_seq,
        message(kind, m, pid, ts_ms, payload).subrange(32, 256) == payload,
{
    let b = message(kind, m, pid, ts_ms, payload);
    bytes::lemma_pow256();
    bytes::law_le_round_trip(ts_ms as nat, 8);
    bytes::law_le_round_trip(m.session_id as nat, 4);
    bytes::law_le_round_trip(pid as nat, 4);
    bytes::law_le_round_trip(m.log_seq as nat, 8);
    assert(b.subrange(4, 12) =~= bytes::le(ts_ms as nat, 8));
    assert(b.subrange(12, 16) =~= bytes::le(m.session_id as nat, 4));
    assert(b.subrange(16, 20) =~= bytes::le(pid as nat, 4));
    assert(b.subrange(24, 32) =~= bytes::le(m.log_seq as nat, 8));
    assert(b.subrange(32, 256) =~= payload);
}

/// The counters that periodic messages report the growth of.
pub ghost enum Counter {
    RxMsgs,
    Reconnect,
    SubscribeFail,
    ParseError,
    ProtocolError,
    ShmWriteOk,
    ShmWriteFail,
}

/// The total of a counter.
pub open spec fn total(m: Metrics, c: Counter) -> int {
    match c {
        Counter::RxMsgs => m.ws_rx_msgs_total as int,
        Counter::Reconnect => m.ws_reconnect_total as int,
        Counter::SubscribeFail => m.ws_subscribe_fail_total as int,
        Counter::ParseError => m.ws_parse_error_total as int,
        Counter::ProtocolError => m.ws_protocol_error_total as int,
        Counter::ShmWriteOk => m.shm_write_ok_total as int,
        Counter::ShmWriteFail => m.shm_write_fail_total as int,
    }
}

/// The total of a counter that the last periodic message has taken down.
pub open spec fn taken_down(m: Metrics, c: Counter) -> int {
    match c {
        Counter::RxMsgs => m.prev_rx_msgs_total as int,
        Counter::Reconnect => m.prev_reconnect_total as int,
        Counter::SubscribeFail => m.prev_subscribe_fail_total as int,
        Counter::ParseError => m.prev_parse_error_total as int,
        Counter::ProtocolError => m.prev_protocol_error_total as int,
        Counter::ShmWriteOk => m.prev_shm_write_ok_total as int,
        Counter::ShmWriteFail => m.prev_shm_write_fail_total as int,
    }
}

/// The growth of a counter that a periodic message reports.
pub open spec fn growth(p: SnapshotPeriodicPayload, c: Counter) -> int {
    match c {
        Counter::RxMsgs => p.rx_msgs_delta as int,
        Counter::Reconnect => p.reconnect_delta as int,
        Counter::SubscribeFail => p.subscribe_fail_delta as int,
        Counter::ParseError => p.parse_error_delta as int,
        Counter::ProtocolError => p.protocol_error_delta as int,
        Counter::ShmWriteOk => p.shm_write_ok_delta as int,
        Counter::ShmWriteFail => p.shm_write_fail_delta as int,
    }
}

/// The sum of what periodic messages about `ms`, at the times `times`, report of
/// a counter.
pub open spec fn growth_of_all(ms: Seq<Metrics>, times: Seq<u64>, c: Counter) -> int
    decreases ms.len(),
{
    if ms.len() == 0 {
        0
    } else {
        growth_of_all(ms.drop_last(), times, c) + growth(
            periodic_payload(ms.last(), times[ms.len() - 1]),
            c,
        )
    }
}

/// Whether the messages about `ms` are a run, as far as a counter goes: each is
/// about metrics that are coherent, and that have been counted on from the total
/// that the message before took down.
pub open spec fn in_a_row(ms: Seq<Metrics>, c: Counter) -> bool {
    &&& forall|i: int| 0 <= i < ms.len() ==> (#[trigger] ms[i]).coherent()
    &&& forall|i: int|
        0 < i < ms.len() ==> taken_down(#[trigger] ms[i], c) == total(ms[i - 1], c)
}

/// A periodic message takes down the total of each counter, and leaves the total
/// itself as it is.
pub proof fn law_totals_taken_down(m: Metrics, c: Counter)
    ensures
        taken_down(reported(m), c) == total(m, c),
        total(reported(m), c) == total(m, c),
{
}

/// The deltas of a run of periodic messages add up: together they report what a
/// counter has gone up by since the message before the run. Where a counter of 64
/// bits goes up by `2^32` or more between two messages, that holds modulo `2^32`.
#[verifier::spinoff_prover]
pub proof fn law_deltas_add_up(ms: Seq<Metrics>, times: Seq<u64>, c: Counter)
    requires
        ms.len() > 0,
        in_a_row(ms, c),
    ensures
        growth_of_all(ms, times, c) % 0x1_0000_0000 == (total(ms.last(), c) - taken_down(
            ms[0],
            c,
        )) % 0x1_0000_0000,
        (forall|i: int|
            0 <= i < ms.len() ==> total(#[trigger] ms[i], c) - taken_down(ms[i], c)
                < 0x1_0000_0000) ==> growth_of_all(ms, times, c) == total(ms.last(), c)
            - taken_down(ms[0], c),
{
    let (ts, bs) = (totals(ms, c), bases(ms, c));
    lemma_steps(ms, c);
    lemma_growth_sum(ms, times, c, ms.len() as int);
    assert(ms.take(ms.len() as int) =~= ms);
    lemma_sum_of_steps(ts, bs, ms.len() as int);
}

/// The total of a counter in each of `ms`.
spec fn totals(ms: Seq<Metrics>, c: Counter) -> Seq<int> {
    Seq::new(ms.len(), |i: int| total(ms[i], c))
}

/// What had been taken down of a counter in each of `ms`.
spec fn bases(ms: Seq<Metrics>, c: Counter) -> Seq<int> {
    Seq::new(ms.len(), |i: int| taken_down(ms[i], c))
}

/// The messages of a run report steps that follow on one another.
#[verifier::spinoff_prover]
proof fn lemma_steps(ms: Seq<Metrics>, c: Counter)
    requires
        in_a_row(ms, c),
    ensures
        forall|i: int| 0 <= i < ms.len() ==> #[trigger] bases(ms, c)[i] <= totals(ms, c)[i],
        forall|i: int| 0 < i < ms.len() ==> #[trigger] bases(ms, c)[i] == totals(ms, c)[i - 1],
        (forall|i: int|
            0 <= i < ms.len() ==> total(#[trigger] ms[i], c) - taken_down(ms[i], c)
                < 0x1_0000_0000) ==> forall|i: int|
            0 <= i < ms.len() ==> totals(ms, c)[i] - #[trigger] bases(ms, c)[i] < 0x1_0000_0000,
{
    assert forall|i: int| 0 <= i < ms.len() implies #[trigger] bases(ms, c)[i] <= totals(
        ms,
        c,
    )[i] by {
        lemma_growth(ms[i], 0, c);
    }
}

/// The sum of the first `n` steps from `bases` up to `totals`, each modulo
/// `2^32`.
spec fn sum_of_steps(totals: Seq<int>, bases: Seq<int>, n: int) -> int
    decreases n,
{
    if n <= 0 {
        0
    } else {
        sum_of_steps(totals, bases, n - 1) + (totals[n - 1] - bases[n - 1]) % 0x1_0000_0000
    }
}

/// Steps that follow on one another add up.
proof fn lemma_sum_of_steps(totals: Seq<int>, bases: Seq<int>, n: int)
    requires
        0 < n <= totals.len(),
        totals.len() == bases.len(),
        forall|i: int| 0 <= i < totals.len() ==> #[trigger] bases[i] <= totals[i],
        forall|i: int| 0 < i < totals.len() ==> #[trigger] bases[i] == totals[i - 1],
    ensures
        sum_of_steps(totals, bases, n) % 0x1_0000_0000 == (totals[n - 1] - bases[0])
            % 0x1_0000_0000,
        (forall|i: int|
            0 <= i < totals.len() ==> totals[i] - #[trigger] bases[i] < 0x1_0000_0000)
            ==> sum_of_steps(totals, bases, n) == totals[n - 1] - bases[0],
    decreases n,
{
    if n > 1 {
        lemma_sum_of_steps(totals, bases, n - 1);
        assert(bases[n - 1] == totals[n - 2]);
    } else {
        assert(sum_of_steps(totals, bases, 0) == 0);
    }
}

/// What periodic messages report of a counter is a sum of steps.
#[verifier::spinoff_prover]
proof fn lemma_growth_sum(
    ms: Seq<Metrics>,
    times: Seq<u64>,
    c: Counter,
    n: int,
)
    requires
        0 <= n <= ms.len(),
        forall|i: int| 0 <= i < ms.len() ==> (#[trigger] ms[i]).coherent(),
    ensures
        growth_of_all(ms.take(n), times, c) == sum_of_steps(totals(ms, c), bases(ms, c), n),
    decreases n,
{
    if n > 0 {
        lemma_growth_sum(ms, times, c, n - 1);
        assert(ms.take(n).drop_last() =~= ms.take(n - 1));
        lemma_growth(ms[n - 1], times[n - 1], c);
    }
}

/// What one periodic message reports of a counter.
proof fn lemma_growth(m: Metrics, ts_ms: u64, c: Counter)
    requires
        m.coherent(),
    ensures
        growth(periodic_payload(m, ts_ms), c) == (total(m, c) - taken_down(m, c)) % 0x1_0000_0000,
        0 <= total(m, c) - taken_down(m, c),
{
}

/// A second periodic message right behind a first one reports that nothing was
/// counted, and no latency.
pub proof fn law_second_snapshot_is_empty(m: Metrics, ts_ms: u64)
    ensures
        ({
            let p = periodic_payload(reported(m), ts_ms);
            &&& p.rx_msgs_delta == 0
            &&& p.reconnect_delta == 0
            &&& p.subscribe_fail_delta == 0
            &&& p.parse_error_delta == 0
            &&& p.protocol_error_delta == 0
            &&& p.shm_write_ok_delta == 0
            &&& p.shm_write_fail_delta == 0
            &&& p.lat_count == 0
            &&& p.lat_min_ms == u32::MAX
            &&& p.lat_max_ms == 0
            &&& p.lat_avg_ms == 0
        }),
{
}

/// The number in a stretch of a message.
pub open spec fn part(msg: Seq<u8>, from: int, to: int) -> nat {
    bytes::le_value(msg.subrange(from, to))
}

/// What the head of any message says: its kind, the two versions, the time, the
/// session, the process, the state of the connection and the message's number.
pub open spec fn head_says(msg: Seq<u8>, kind: u8, m: Metrics, pid: u32, ts_ms: u64) -> bool {
    &&& msg.len() == 256
    &&& msg[0] == kind
    &&& msg[1] == 1
    &&& msg[2] == 1
    &&& msg[3] == 0
    &&& part(msg, 4, 12) == ts_ms
    &&& part(msg, 12, 16) == m.session_id
    &&& part(msg, 16, 20) == pid
    &&& msg[20] == m.ws_state.spec_code()
    &&& msg[21] == 0 && msg[22] == 0 && msg[23] == 0
    &&& part(msg, 24, 32) == m.log_seq
}

/// A stretch of the payload is the stretch of the message 32 bytes further on.
proof fn lemma_payload_part(msg: Seq<u8>, payload: Seq<u8>, from: int, to: int)
    requires
        msg.len() == 256,
        msg.subrange(32, 256) == payload,
        0 <= from <= to <= 224,
    ensures
        part(msg, 32 + from, 32 + to) == bytes::le_value(payload.subrange(from, to)),
{
    assert(msg.subrange(32 + from, 32 + to) =~= payload.subrange(from, to));
}

/// The bytes of the head that say nothing are zero.
proof fn lemma_header_gaps(
    kind: MessageType,
    m: Metrics,
    pid: u32,
    ts_ms: u64,
    payload: Seq<u8>,
)
    ensures
        ({
            let b = message(kind, m, pid, ts_ms, payload);
            b[3] == 0 && b[21] == 0 && b[22] == 0 && b[23] == 0
        }),
{
    bytes::lemma_le_len(ts_ms as nat, 8);
    bytes::lemma_le_len(m.session_id as nat, 4);
    bytes::lemma_le_len(pid as nat, 4);
    bytes::lemma_le_len(m.log_seq as nat, 8);
}

/// What a periodic message says, byte by byte: when the session began and the last
/// frame and quote came in, how long the session and the silence last, what the
/// counters have gone up by, when quotes were written, how many latencies there were,
/// the least, the greatest and their mean, and the last error and close codes.
#[verifier::spinoff_prover]
#[verifier::rlimit(60)]
pub proof fn law_periodic_message_says(m: Metrics, vs: Seq<u32>, pid: u32, ts_ms: u64)
    requires
        m.coherent(),
        m.lat_rx_to_written.summarizes(vs),
    ensures
        ({
            let b = periodic_message(m, pid, ts_ms);
            &&& head_says(b, 2, m, pid, ts_ms)
            &&& part(b, 32, 40) == m.session_start_ms
            &&& part(b, 40, 48) == m.ws_last_frame_rx_ms
            &&& part(b, 48, 56) == m.ws_last_data_rx_ms
            &&& ts_ms >= m.session_start_ms ==> part(b, 56, 64) == ts_ms - m.session_start_ms
            &&& ts_ms < m.session_start_ms ==> part(b, 56, 64) == 0
            &&& m.ws_last_data_rx_ms == 0 ==> part(b, 64, 72) == ts_ms
            &&& 0 < m.ws_last_data_rx_ms <= ts_ms ==> part(b, 64, 72) == ts_ms
                - m.ws_last_data_rx_ms
            &&& m.ws_last_data_rx_ms > ts_ms ==> part(b, 64, 72) == 0
            &&& part(b, 72, 76) == (m.ws_rx_msgs_total - m.prev_rx_msgs_total) % 0x1_0000_0000
            &&& part(b, 76, 80) == m.ws_reconnect_total - m.prev_reconnect_total
            &&& part(b, 80, 84) == m.ws_subscribe_fail_total - m.prev_subscribe_fail_total
            &&& part(b, 84, 88) == m.ws_parse_error_total - m.prev_parse_error_total
            &&& part(b, 88, 92) == m.ws_protocol_error_total - m.prev_protocol_error_total
            &&& part(b, 92, 96) == (m.shm_write_ok_total - m.prev_shm_write_ok_total)
                % 0x1_0000_0000
            &&& part(b, 96, 100) == m.shm_write_fail_total - m.prev_shm_write_fail_total
            &&& part(b, 104, 112) == m.shm_last_write_ok_ms
            &&& part(b, 112, 120) == m.shm_last_write_fail_ms
            &&& part(b, 120, 124) == vs.len()
            &&& part(b, 124, 128) == metrics::least_of(vs)
            &&& part(b, 128, 132) == metrics::greatest_of(vs)
            &&& part(b, 132, 136) == if vs.len() == 0 {
                0
            } else {
                metrics::total_of(vs) as int / vs.len() as int
            }
            &&& part(b, 136, 140) == if m.ws_last_error_code < 0 {
                m.ws_last_error_code + 0x1_0000_0000
            } else {
                m.ws_last_error_code as int
            }
            &&& part(b, 140, 142) == m.ws_last_close_code
            &&& part(b, 100, 104) == 0
            &&& forall|i: int| 142 <= i < 256 ==> #[trigger] b[i] == 0
        }),
{
    let p = periodic_payload(m, ts_ms);
    let b = periodic_message(m, pid, ts_ms);
    let q = p.spec_bytes();
    wire::law_periodic_layout(p);
    law_header_layout(MessageType::SnapshotPeriodic, m, pid, ts_ms, q);
    if vs.len() > 0 {
        metrics::law_mean_between(m.lat_rx_to_written, vs);
    }
    lemma_payload_part(b, q, 0, 8);
    lemma_payload_part(b, q, 8, 16);
    lemma_payload_part(b, q, 16, 24);
    lemma_payload_part(b, q, 24, 32);
    lemma_payload_part(b, q, 32, 40);
    lemma_payload_part(b, q, 40, 44);
    lemma_payload_part(b, q, 44, 48);
    lemma_payload_part(b, q, 48, 52);
    lemma_payload_part(b, q, 52, 56);
    lemma_payload_part(b, q, 56, 60);
    lemma_payload_part(b, q, 60, 64);
    lemma_payload_part(b, q, 64, 68);
    lemma_payload_part(b, q, 72, 80);
    lemma_payload_part(b, q, 80, 88);
    lemma_payload_part(b, q, 88, 92);
    lemma_payload_part(b, q, 92, 96);
    lemma_payload_part(b, q, 96, 100);
    lemma_payload_part(b, q, 100, 104);
    lemma_payload_part(b, q, 104, 108);
    lemma_payload_part(b, q, 108, 110);
    lemma_payload_part(b, q, 68, 72);
    lemma_header_gaps(MessageType::SnapshotPeriodic, m, pid, ts_ms, q);
    assert forall|i: int| 142 <= i < 256 implies #[trigger] b[i] == 0 by {
        assert(b[i] == b.subrange(32, 256)[i - 32]);
        assert(q[i - 32] == q.subrange(110, 224)[i - 142]);
    }
}

/// What the start message says, byte by byte: when the session began, the hashes of
/// the version and the address, how many symbols there are, the size of the ring and
/// of its messages, all totals, when the last frame and quote came in, and the last
/// error and close codes.
#[verifier::spinoff_prover]
#[verifier::rlimit(60)]
pub proof fn law_start_message_says(
    m: Metrics,
    symbols_count: u32,
    version_hash: u64,
    ws_url_hash: u64,
    ring_size: u32,
    pid: u32,
    ts_ms: u64,
)
    ensures
        ({
            let b = start_message(
                m,
                symbols_count,
                version_hash,
                ws_url_hash,
                ring_size,
                pid,
                ts_ms,
            );
            &&& head_says(b, 1, m, pid, ts_ms)
            &&& part(b, 32, 40) == m.session_start_ms
            &&& part(b, 40, 48) == version_hash
            &&& part(b, 48, 52) == symbols_count
            &&& b[52] == 1
            &&& part(b, 56, 60) == ring_size
            &&& part(b, 60, 64) == 256
            &&& part(b, 64, 72) == ws_url_hash
            &&& part(b, 72, 80) == m.ws_rx_frames_total
            &&& part(b, 80, 88) == m.ws_rx_bytes_total
            &&& part(b, 88, 96) == m.ws_rx_msgs_total
            &&& part(b, 96, 100) == m.ws_reconnect_total
            &&& part(b, 100, 104) == m.ws_disconnect_total
            &&& part(b, 104, 108) == m.ws_handshake_fail_total
            &&& part(b, 108, 112) == m.ws_subscribe_ok_total
            &&& part(b, 112, 116) == m.ws_subscribe_fail_total
            &&& part(b, 116, 120) == m.ws_parse_error_total
            &&& part(b, 120, 124) == m.ws_protocol_error_total
            &&& part(b, 128, 136) == m.shm_write_ok_total
            &&& part(b, 136, 140) == m.shm_write_fail_total
            &&& part(b, 144, 152) == m.ws_last_frame_rx_ms
            &&& part(b, 152, 160) == m.ws_last_data_rx_ms
            &&& part(b, 160, 164) == if m.ws_last_error_code < 0 {
                m.ws_last_error_code + 0x1_0000_0000
            } else {
                m.ws_last_error_code as int
            }
            &&& part(b, 164, 166) == m.ws_last_close_code
            &&& b[53] == 0 && b[54] == 0 && b[55] == 0
            &&& part(b, 124, 128) == 0
            &&& part(b, 140, 144) == 0
            &&& forall|i: int| 166 <= i < 256 ==> #[trigger] b[i] == 0
        }),
{
    let p = start_payload(m, symbols_count, version_hash, ws_url_hash, ring_size);
    let b = start_message(m, symbols_count, version_hash, ws_url_hash, ring_size, pid, ts_ms);
    let q = p.spec_bytes();
    wire::law_start_layout(p);
    law_header_layout(MessageType::SnapshotStart, m, pid, ts_ms, q);
    assert(b[52] == b.subrange(32, 256)[20]);
    lemma_payload_part(b, q, 0, 8);
    lemma_payload_part(b, q, 8, 16);
    lemma_payload_part(b, q, 16, 20);
    lemma_payload_part(b, q, 24, 28);
    lemma_payload_part(b, q, 28, 32);
    lemma_payload_part(b, q, 32, 40);
    lemma_payload_part(b, q, 40, 48);
    lemma_payload_part(b, q, 48, 56);
    lemma_payload_part(b, q, 56, 64);
    lemma_payload_part(b, q, 64, 68);
    lemma_payload_part(b, q, 68, 72);
    lemma_payload_part(b, q, 72, 76);
    lemma_payload_part(b, q, 76, 80);
    lemma_payload_part(b, q, 80, 84);
    lemma_payload_part(b, q, 84, 88);
    lemma_payload_part(b, q, 88, 92);
    lemma_payload_part(b, q, 96, 104);
    lemma_payload_part(b, q, 104, 108);
    lemma_payload_part(b, q, 112, 120);
    lemma_payload_part(b, q, 120, 128);
    lemma_payload_part(b, q, 128, 132);
    lemma_payload_part(b, q, 132, 134);
    lemma_payload_part(b, q, 92, 96);
    lemma_payload_part(b, q, 108, 112);
    lemma_header_gaps(MessageType::SnapshotStart, m, pid, ts_ms, q);
    assert forall|i: int| 53 <= i < 56 implies #[trigger] b[i] == 0 by {
        assert(b[i] == b.subrange(32, 256)[i - 32]);
        assert(q[i - 32] == q.subrange(21, 24)[i - 53]);
    }
    assert forall|i: int| 166 <= i < 256 implies #[trigger] b[i] == 0 by {
        assert(b[i] == b.subrange(32, 256)[i - 32]);
        assert(q[i - 32] == q.subrange(134, 224)[i - 166]);
    }
}

/// What an error message says, byte by byte: where the error arose, its code, what
/// goes with it, and when the last frame and quote came in.
#[verifier::spinoff_prover]
pub proof fn law_error_message_says(
    m: Metrics,
    domain: ErrorDomain,
    code: i16,
    aux_u32: u32,
    aux_u64_0: u64,
    aux_u64_1: u64,
    pid: u32,
    ts_ms: u64,
)
    ensures
        ({
            let b = error_message(
                m,
                domain,
                code,
                aux_u32,
                aux_u64_0,
                aux_u64_1,
                pid,
                ts_ms,
            );
            &&& head_says(b, 3, m, pid, ts_ms)
            &&& b[32] == domain.spec_code()
            &&& part(b, 34, 36) == if code < 0 {
                code + 0x1_0000
            } else {
                code as int
            }
            &&& part(b, 36, 40) == aux_u32
            &&& part(b, 40, 48) == aux_u64_0
            &&& part(b, 48, 56) == aux_u64_1
            &&& part(b, 56, 64) == m.ws_last_frame_rx_ms
            &&& part(b, 64, 72) == m.ws_last_data_rx_ms
            &&& b[33] == 0
            &&& forall|i: int| 72 <= i < 256 ==> #[trigger] b[i] == 0
        }),
{
    let p = error_payload(m, domain, code, aux_u32, aux_u64_0, aux_u64_1);
    let b = error_message(m, domain, code, aux_u32, aux_u64_0, aux_u64_1, pid, ts_ms);
    let q = p.spec_bytes();
    wire::law_error_layout(p);
    law_header_layout(MessageType::EventError, m, pid, ts_ms, q);
    assert(b[32] == b.subrange(32, 256)[0]);
    lemma_payload_part(b, q, 2, 4);
    lemma_payload_part(b, q, 4, 8);
    lemma_payload_part(b, q, 8, 16);
    lemma_payload_part(b, q, 16, 24);
    lemma_payload_part(b, q, 24, 32);
    lemma_payload_part(b, q, 32, 40);
    lemma_header_gaps(MessageType::EventError, m, pid, ts_ms, q);
    assert(b[33] == b.subrange(32, 256)[1]);
    assert forall|i: int| 72 <= i < 256 implies #[trigger] b[i] == 0 by {
        assert(b[i] == b.subrange(32, 256)[i - 32]);
        assert(q[i - 32] == q.subrange(40, 224)[i - 72]);
    }
}

/// A periodic message changes nothing but what it takes down: with that put back the
/// metrics are what they were. The latencies begin anew.
pub proof fn law_report_keeps_totals(m: Metrics)
    ensures
        reported(m).lat_rx_to_written.summarizes(Seq::empty()),
        (Metrics {
            prev_rx_msgs_total: m.prev_rx_msgs_total,
            prev_reconnect_total: m.prev_reconnect_total,
            prev_subscribe_fail_total: m.prev_subscribe_fail_total,
            prev_parse_error_total: m.prev_parse_error_total,
            prev_protocol_error_total: m.prev_protocol_error_total,
            prev_shm_write_ok_total: m.prev_shm_write_ok_total,
            prev_shm_write_fail_total: m.prev_shm_write_fail_total,
            lat_rx_to_written: m.lat_rx_to_written,
            ..reported(m)
        }) == m,
{
}

/// The hash of a string is what a new default hasher gives that has been fed that string
/// and nothing else.
pub proof fn law_hash_of_string(s: Seq<char>)
    ensures
        forall|fed: Seq<Seq<u8>>|
            fed == str_fed(Seq::empty(), s) ==> default_hash(s) == #[trigger]
                DefaultHasher::spec_finish(fed),
{
}

} // verus!
