//! The binary messages of the metrics ring.

use crate::bytes;
use vstd::prelude::*;

verus! {

/// A message of the metrics ring: 32 bytes of header, 224 of payload.
#[derive(Clone, Copy)]
pub struct SpscMsg256 {
    pub msg_type: u8,
    pub abi_version: u8,
    pub layout_version: u8,
    pub _reserved0: u8,
    pub ts_ms: u64,
    pub session_id: u32,
    pub pid: u32,
    pub ws_state: u8,
    pub _pad0: [u8; 3],
    pub log_seq: u64,
    pub payload: [u8; 224],
}

impl SpscMsg256 {
    /// The bytes of the message, field by field, least significant byte first.
    pub open spec fn spec_bytes(self) -> Seq<u8> {
        seq![self.msg_type]
            + seq![self.abi_version]
            + seq![self.layout_version]
            + seq![self._reserved0]
            + bytes::le(self.ts_ms as nat, 8)
            + bytes::le(self.session_id as nat, 4)
            + bytes::le(self.pid as nat, 4)
            + seq![self.ws_state]
            + self._pad0@
            + bytes::le(self.log_seq as nat, 8)
            + self.payload@
    }

    /// The message as it stands in a ring slot.
    pub fn as_bytes(&self) -> (r: [u8; 256])
        ensures
            r@ == self.spec_bytes(),
    {
        let mut out: Vec<u8> = Vec::with_capacity(256);
        out.push(self.msg_type);
        out.push(self.abi_version);
        out.push(self.layout_version);
        out.push(self._reserved0);
        bytes::push_le(&mut out, self.ts_ms, 8);
        bytes::push_le(&mut out, self.session_id as u64, 4);
        bytes::push_le(&mut out, self.pid as u64, 4);
        out.push(self.ws_state);
        bytes::push_all(&mut out, &self._pad0);
        bytes::push_le(&mut out, self.log_seq, 8);
        bytes::push_all(&mut out, &self.payload);
        assert(out@ =~= self.spec_bytes());
        proof {
            self.lemma_len();
        }
        bytes::to_array_256(&out)
    }

    pub proof fn lemma_len(self)
        ensures
            self.spec_bytes().len() == 256,
    {
        bytes::lemma_le_len(self.ts_ms as nat, 8);
        bytes::lemma_le_len(self.session_id as nat, 4);
        bytes::lemma_le_len(self.pid as nat, 4);
        bytes::lemma_le_len(self.log_seq as nat, 8);
    }
}

/// Payload of the message at the start of the process.
#[derive(Clone, Copy)]
pub struct SnapshotStartPayload {
    pub start_ms: u64,
    pub build_version_hash: u64,
    pub symbols_count: u32,
    pub stream_type: u8,
    pub _pad0: [u8; 3],
    pub ring_size: u32,
    pub msg_size: u32,
    pub ws_url_hash: u64,
    pub ws_rx_frames_total: u64,
    pub ws_rx_bytes_total: u64,
    pub ws_rx_msgs_total: u64,
    pub ws_reconnect_total: u32,
    pub ws_disconnect_total: u32,
    pub ws_handshake_fail_total: u32,
    pub ws_subscribe_ok_total: u32,
    pub ws_subscribe_fail_total: u32,
    pub ws_parse_error_total: u32,
    pub ws_protocol_error_total: u32,
    pub _pad1: u32,
    pub shm_write_ok_total: u64,
    pub shm_write_fail_total: u32,
    pub _pad2: u32,
    pub last_frame_rx_ms: u64,
    pub last_data_rx_ms: u64,
    pub last_error_code: i32,
    pub last_close_code: u16,
    pub _padding: [u8; 90],
}

impl SnapshotStartPayload {
    /// The bytes of the payload, field by field, least significant byte first.
    pub open spec fn spec_bytes(self) -> Seq<u8> {
        bytes::le(self.start_ms as nat, 8)
            + bytes::le(self.build_version_hash as nat, 8)
            + bytes::le(self.symbols_count as nat, 4)
            + seq![self.stream_type]
            + self._pad0@
            + bytes::le(self.ring_size as nat, 4)
            + bytes::le(self.msg_size as nat, 4)
            + bytes::le(self.ws_url_hash as nat, 8)
            + bytes::le(self.ws_rx_frames_total as nat, 8)
            + bytes::le(self.ws_rx_bytes_total as nat, 8)
            + bytes::le(self.ws_rx_msgs_total as nat, 8)
            + bytes::le(self.ws_reconnect_total as nat, 4)
            + bytes::le(self.ws_disconnect_total as nat, 4)
            + bytes::le(self.ws_handshake_fail_total as nat, 4)
            + bytes::le(self.ws_subscribe_ok_total as nat, 4)
            + bytes::le(self.ws_subscribe_fail_total as nat, 4)
            + bytes::le(self.ws_parse_error_total as nat, 4)
            + bytes::le(self.ws_protocol_error_total as nat, 4)
            + bytes::le(self._pad1 as nat, 4)
            + bytes::le(self.shm_write_ok_total as nat, 8)
            + bytes::le(self.shm_write_fail_total as nat, 4)
            + bytes::le(self._pad2 as nat, 4)
            + bytes::le(self.last_frame_rx_ms as nat, 8)
            + bytes::le(self.last_data_rx_ms as nat, 8)
            + bytes::le(bytes::bits32(self.last_error_code as int), 4)
            + bytes::le(self.last_close_code as nat, 2)
            + self._padding@
    }

    /// The payload as it stands in a message.
    pub fn to_bytes(&self) -> (r: [u8; 224])
        ensures
            r@ == self.spec_bytes(),
    {
        let mut out: Vec<u8> = Vec::with_capacity(224);
        bytes::push_le(&mut out, self.start_ms, 8);
        bytes::push_le(&mut out, self.build_version_hash, 8);
        bytes::push_le(&mut out, self.symbols_count as u64, 4);
        out.push(self.stream_type);
        bytes::push_all(&mut out, &self._pad0);
        bytes::push_le(&mut out, self.ring_size as u64, 4);
        bytes::push_le(&mut out, self.msg_size as u64, 4);
        bytes::push_le(&mut out, self.ws_url_hash, 8);
        bytes::push_le(&mut out, self.ws_rx_frames_total, 8);
        bytes::push_le(&mut out, self.ws_rx_bytes_total, 8);
        bytes::push_le(&mut out, self.ws_rx_msgs_total, 8);
        bytes::push_le(&mut out, self.ws_reconnect_total as u64, 4);
        bytes::push_le(&mut out, self.ws_disconnect_total as u64, 4);
        bytes::push_le(&mut out, self.ws_handshake_fail_total as u64, 4);
        bytes::push_le(&mut out, self.ws_subscribe_ok_total as u64, 4);
        bytes::push_le(&mut out, self.ws_subscribe_fail_total as u64, 4);
        bytes::push_le(&mut out, self.ws_parse_error_total as u64, 4);
        bytes::push_le(&mut out, self.ws_protocol_error_total as u64, 4);
        bytes::push_le(&mut out, self._pad1 as u64, 4);
        bytes::push_le(&mut out, self.shm_write_ok_total, 8);
        bytes::push_le(&mut out, self.shm_write_fail_total as u64, 4);
        bytes::push_le(&mut out, self._pad2 as u64, 4);
        bytes::push_le(&mut out, self.last_frame_rx_ms, 8);
        bytes::push_le(&mut out, self.last_data_rx_ms, 8);
        bytes::push_le(&mut out, bytes::to_bits32(self.last_error_code) as u64, 4);
        bytes::push_le(&mut out, self.last_close_code as u64, 2);
        bytes::push_all(&mut out, &self._padding);
        assert(out@ =~= self.spec_bytes());
        proof {
            self.lemma_len();
        }
        bytes::to_array_224(&out)
    }

    pub proof fn lemma_len(self)
        ensures
            self.spec_bytes().len() == 224,
    {
        bytes::lemma_le_len(self.start_ms as nat, 8);
        bytes::lemma_le_len(self.build_version_hash as nat, 8);
        bytes::lemma_le_len(self.symbols_count as nat, 4);
        bytes::lemma_le_len(self.ring_size as nat, 4);
        bytes::lemma_le_len(self.msg_size as nat, 4);
        bytes::lemma_le_len(self.ws_url_hash as nat, 8);
        bytes::lemma_le_len(self.ws_rx_frames_total as nat, 8);
        bytes::lemma_le_len(self.ws_rx_bytes_total as nat, 8);
        bytes::lemma_le_len(self.ws_rx_msgs_total as nat, 8);
        bytes::lemma_le_len(self.ws_reconnect_total as nat, 4);
        bytes::lemma_le_len(self.ws_disconnect_total as nat, 4);
        bytes::lemma_le_len(self.ws_handshake_fail_total as nat, 4);
        bytes::lemma_le_len(self.ws_subscribe_ok_total as nat, 4);
        bytes::lemma_le_len(self.ws_subscribe_fail_total as nat, 4);
        bytes::lemma_le_len(self.ws_parse_error_total as nat, 4);
        bytes::lemma_le_len(self.ws_protocol_error_total as nat, 4);
        bytes::lemma_le_len(self._pad1 as nat, 4);
        bytes::lemma_le_len(self.shm_write_ok_total as nat, 8);
        bytes::lemma_le_len(self.shm_write_fail_total as nat, 4);
        bytes::lemma_le_len(self._pad2 as nat, 4);
        bytes::lemma_le_len(self.last_frame_rx_ms as nat, 8);
        bytes::lemma_le_len(self.last_data_rx_ms as nat, 8);
        bytes::lemma_le_len(bytes::bits32(self.last_error_code as int), 4);
        bytes::lemma_le_len(self.last_close_code as nat, 2);
    }
}

/// Payload of the periodic message.
#[derive(Clone, Copy)]
pub struct SnapshotPeriodicPayload {
    pub session_start_ms: u64,
    pub last_frame_rx_ms: u64,
    pub last_data_rx_ms: u64,
    pub uptime_ms: u64,
    pub silence_ms: u64,
    pub rx_msgs_delta: u32,
    pub reconnect_delta: u32,
    pub subscribe_fail_delta: u32,
    pub parse_error_delta: u32,
    pub protocol_error_delta: u32,
    pub shm_write_ok_delta: u32,
    pub shm_write_fail_delta: u32,
    pub _pad0: u32,
    pub shm_last_write_ok_ms: u64,
    pub shm_last_write_fail_ms: u64,
    pub lat_count: u32,
    pub lat_min_ms: u32,
    pub lat_max_ms: u32,
    pub lat_avg_ms: u32,
    pub last_error_code: i32,
    pub last_close_code: u16,
    pub _padding: [u8; 114],
}

impl SnapshotPeriodicPayload {
    /// The bytes of the payload, field by field, least significant byte first.
    pub open spec fn spec_bytes(self) -> Seq<u8> {
        bytes::le(self.session_start_ms as nat, 8)
            + bytes::le(self.last_frame_rx_ms as nat, 8)
            + bytes::le(self.last_data_rx_ms as nat, 8)
            + bytes::le(self.uptime_ms as nat, 8)
            + bytes::le(self.silence_ms as nat, 8)
            + bytes::le(self.rx_msgs_delta as nat, 4)
            + bytes::le(self.reconnect_delta as nat, 4)
            + bytes::le(self.subscribe_fail_delta as nat, 4)
            + bytes::le(self.parse_error_delta as nat, 4)
            + bytes::le(self.protocol_error_delta as nat, 4)
            + bytes::le(self.shm_write_ok_delta as nat, 4)
            + bytes::le(self.shm_write_fail_delta as nat, 4)
            + bytes::le(self._pad0 as nat, 4)
            + bytes::le(self.shm_last_write_ok_ms as nat, 8)
            + bytes::le(self.shm_last_write_fail_ms as nat, 8)
            + bytes::le(self.lat_count as nat, 4)
            + bytes::le(self.lat_min_ms as nat, 4)
            + bytes::le(self.lat_max_ms as nat, 4)
            + bytes::le(self.lat_avg_ms as nat, 4)
            + bytes::le(bytes::bits32(self.last_error_code as int), 4)
            + bytes::le(self.last_close_code as nat, 2)
            + self._padding@
    }

    /// The payload as it stands in a message.
    pub fn to_bytes(&self) -> (r: [u8; 224])
        ensures
            r@ == self.spec_bytes(),
    {
        let mut out: Vec<u8> = Vec::with_capacity(224);
        bytes::push_le(&mut out, self.session_start_ms, 8);
        bytes::push_le(&mut out, self.last_frame_rx_ms, 8);
        bytes::push_le(&mut out, self.last_data_rx_ms, 8);
        bytes::push_le(&mut out, self.uptime_ms, 8);
        bytes::push_le(&mut out, self.silence_ms, 8);
        bytes::push_le(&mut out, self.rx_msgs_delta as u64, 4);
        bytes::push_le(&mut out, self.reconnect_delta as u64, 4);
        bytes::push_le(&mut out, self.subscribe_fail_delta as u64, 4);
        bytes::push_le(&mut out, self.parse_error_delta as u64, 4);
        bytes::push_le(&mut out, self.protocol_error_delta as u64, 4);
        bytes::push_le(&mut out, self.shm_write_ok_delta as u64, 4);
        bytes::push_le(&mut out, self.shm_write_fail_delta as u64, 4);
        bytes::push_le(&mut out, self._pad0 as u64, 4);
        bytes::push_le(&mut out, self.shm_last_write_ok_ms, 8);
        bytes::push_le(&mut out, self.shm_last_write_fail_ms, 8);
        bytes::push_le(&mut out, self.lat_count as u64, 4);
        bytes::push_le(&mut out, self.lat_min_ms as u64, 4);
        bytes::push_le(&mut out, self.lat_max_ms as u64, 4);
        bytes::push_le(&mut out, self.lat_avg_ms as u64, 4);
        bytes::push_le(&mut out, bytes::to_bits32(self.last_error_code) as u64, 4);
        bytes::push_le(&mut out, self.last_close_code as u64, 2);
        bytes::push_all(&mut out, &self._padding);
        assert(out@ =~= self.spec_bytes());
        proof {
            self.lemma_len();
        }
        bytes::to_array_224(&out)
    }

    pub proof fn lemma_len(self)
        ensures
            self.spec_bytes().len() == 224,
    {
        bytes::lemma_le_len(self.session_start_ms as nat, 8);
        bytes::lemma_le_len(self.last_frame_rx_ms as nat, 8);
        bytes::lemma_le_len(self.last_data_rx_ms as nat, 8);
        bytes::lemma_le_len(self.uptime_ms as nat, 8);
        bytes::lemma_le_len(self.silence_ms as nat, 8);
        bytes::lemma_le_len(self.rx_msgs_delta as nat, 4);
        bytes::lemma_le_len(self.reconnect_delta as nat, 4);
        bytes::lemma_le_len(self.subscribe_fail_delta as nat, 4);
        bytes::lemma_le_len(self.parse_error_delta as nat, 4);
        bytes::lemma_le_len(self.protocol_error_delta as nat, 4);
        bytes::lemma_le_len(self.shm_write_ok_delta as nat, 4);
        bytes::lemma_le_len(self.shm_write_fail_delta as nat, 4);
        bytes::lemma_le_len(self._pad0 as nat, 4);
        bytes::lemma_le_len(self.shm_last_write_ok_ms as nat, 8);
        bytes::lemma_le_len(self.shm_last_write_fail_ms as nat, 8);
        bytes::lemma_le_len(self.lat_count as nat, 4);
        bytes::lemma_le_len(self.lat_min_ms as nat, 4);
        bytes::lemma_le_len(self.lat_max_ms as nat, 4);
        bytes::lemma_le_len(self.lat_avg_ms as nat, 4);
        bytes::lemma_le_len(bytes::bits32(self.last_error_code as int), 4);
        bytes::lemma_le_len(self.last_close_code as nat, 2);
    }
}

/// Payload of an error message.
#[derive(Clone, Copy)]
pub struct EventErrorPayload {
    pub domain: u8,
    pub _pad0: u8,
    pub code: i16,
    pub aux_u32: u32,
    pub aux_u64_0: u64,
    pub aux_u64_1: u64,
    pub last_frame_rx_ms: u64,
    pub last_data_rx_ms: u64,
    pub _padding: [u8; 184],
}

impl EventErrorPayload {
    /// The bytes of the payload, field by field, least significant byte first.
    pub open spec fn spec_bytes(self) -> Seq<u8> {
        seq![self.domain]
            + seq![self._pad0]
            + bytes::le(bytes::bits16(self.code as int), 2)
            + bytes::le(self.aux_u32 as nat, 4)
            + bytes::le(self.aux_u64_0 as nat, 8)
            + bytes::le(self.aux_u64_1 as nat, 8)
            + bytes::le(self.last_frame_rx_ms as nat, 8)
            + bytes::le(self.last_data_rx_ms as nat, 8)
            + self._padding@
    }

    /// The payload as it stands in a message.
    pub fn to_bytes(&self) -> (r: [u8; 224])
        ensures
            r@ == self.spec_bytes(),
    {
        let mut out: Vec<u8> = Vec::with_capacity(224);
        out.push(self.domain);
        out.push(self._pad0);
        bytes::push_le(&mut out, bytes::to_bits16(self.code) as u64, 2);
        bytes::push_le(&mut out, self.aux_u32 as u64, 4);
        bytes::push_le(&mut out, self.aux_u64_0, 8);
        bytes::push_le(&mut out, self.aux_u64_1, 8);
        bytes::push_le(&mut out, self.last_frame_rx_ms, 8);
        bytes::push_le(&mut out, self.last_data_rx_ms, 8);
        bytes::push_all(&mut out, &self._padding);
        assert(out@ =~= self.spec_bytes());
        proof {
            self.lemma_len();
        }
        bytes::to_array_224(&out)
    }

    pub proof fn lemma_len(self)
        ensures
            self.spec_bytes().len() == 224,
    {
        bytes::lemma_le_len(bytes::bits16(self.code as int), 2);
        bytes::lemma_le_len(self.aux_u32 as nat, 4);
        bytes::lemma_le_len(self.aux_u64_0 as nat, 8);
        bytes::lemma_le_len(self.aux_u64_1 as nat, 8);
        bytes::lemma_le_len(self.last_frame_rx_ms as nat, 8);
        bytes::lemma_le_len(self.last_data_rx_ms as nat, 8);
    }
}

/// The message is 256 bytes long, and every field stands at its place: the
/// header in the first 32 bytes, the payload in the other 224.
pub proof fn law_message_layout(m: SpscMsg256)
    ensures
        m.spec_bytes().len() == 256,
        m.spec_bytes()[0] == m.msg_type,
        m.spec_bytes()[1] == m.abi_version,
        m.spec_bytes()[2] == m.layout_version,
        m.spec_bytes()[3] == m._reserved0,
        bytes::le_value(m.spec_bytes().subrange(4, 12)) == m.ts_ms,
        bytes::le_value(m.spec_bytes().subrange(12, 16)) == m.session_id,
        bytes::le_value(m.spec_bytes().subrange(16, 20)) == m.pid,
        m.spec_bytes()[20] == m.ws_state,
        m.spec_bytes().subrange(21, 24) == m._pad0@,
        bytes::le_value(m.spec_bytes().subrange(24, 32)) == m.log_seq,
        m.spec_bytes().subrange(32, 256) == m.payload@,
{
    bytes::lemma_pow256();
    m.lemma_len();
    bytes::law_le_round_trip(m.ts_ms as nat, 8);
    bytes::law_le_round_trip(m.session_id as nat, 4);
    bytes::law_le_round_trip(m.pid as nat, 4);
    bytes::law_le_round_trip(m.log_seq as nat, 8);
    assert(m.spec_bytes().subrange(4, 12) =~= bytes::le(m.ts_ms as nat, 8));
    assert(m.spec_bytes().subrange(12, 16) =~= bytes::le(m.session_id as nat, 4));
    assert(m.spec_bytes().subrange(16, 20) =~= bytes::le(m.pid as nat, 4));
    assert(m.spec_bytes().subrange(21, 24) =~= m._pad0@);
    assert(m.spec_bytes().subrange(24, 32) =~= bytes::le(m.log_seq as nat, 8));
    assert(m.spec_bytes().subrange(32, 256) =~= m.payload@);
}

/// The start payload is 224 bytes long, and every field stands at its place.
#[verifier::spinoff_prover]
#[verifier::rlimit(30)]
pub proof fn law_start_layout(m: SnapshotStartPayload)
    ensures
        m.spec_bytes().len() == 224,
        bytes::le_value(m.spec_bytes().subrange(0, 8)) == m.start_ms,
        bytes::le_value(m.spec_bytes().subrange(8, 16)) == m.build_version_hash,
        bytes::le_value(m.spec_bytes().subrange(16, 20)) == m.symbols_count,
        m.spec_bytes()[20] == m.stream_type,
        m.spec_bytes().subrange(21, 24) == m._pad0@,
        bytes::le_value(m.spec_bytes().subrange(24, 28)) == m.ring_size,
        bytes::le_value(m.spec_bytes().subrange(28, 32)) == m.msg_size,
        bytes::le_value(m.spec_bytes().subrange(32, 40)) == m.ws_url_hash,
        bytes::le_value(m.spec_bytes().subrange(40, 48)) == m.ws_rx_frames_total,
        bytes::le_value(m.spec_bytes().subrange(48, 56)) == m.ws_rx_bytes_total,
        bytes::le_value(m.spec_bytes().subrange(56, 64)) == m.ws_rx_msgs_total,
        bytes::le_value(m.spec_bytes().subrange(64, 68)) == m.ws_reconnect_total,
        bytes::le_value(m.spec_bytes().subrange(68, 72)) == m.ws_disconnect_total,
        bytes::le_value(m.spec_bytes().subrange(72, 76)) == m.ws_handshake_fail_total,
        bytes::le_value(m.spec_bytes().subrange(76, 80)) == m.ws_subscribe_ok_total,
        bytes::le_value(m.spec_bytes().subrange(80, 84)) == m.ws_subscribe_fail_total,
        bytes::le_value(m.spec_bytes().subrange(84, 88)) == m.ws_parse_error_total,
        bytes::le_value(m.spec_bytes().subrange(88, 92)) == m.ws_protocol_error_total,
        bytes::le_value(m.spec_bytes().subrange(92, 96)) == m._pad1,
        bytes::le_value(m.spec_bytes().subrange(96, 104)) == m.shm_write_ok_total,
        bytes::le_value(m.spec_bytes().subrange(104, 108)) == m.shm_write_fail_total,
        bytes::le_value(m.spec_bytes().subrange(108, 112)) == m._pad2,
        bytes::le_value(m.spec_bytes().subrange(112, 120)) == m.last_frame_rx_ms,
        bytes::le_value(m.spec_bytes().subrange(120, 128)) == m.last_data_rx_ms,
        bytes::le_value(m.spec_bytes().subrange(128, 132)) == bytes::bits32(m.last_error_code as int),
        bytes::le_value(m.spec_bytes().subrange(132, 134)) == m.last_close_code,
        m.spec_bytes().subrange(134, 224) == m._padding@,
{
    bytes::lemma_pow256();
    m.lemma_len();
    bytes::law_le_round_trip(m.start_ms as nat, 8);
    bytes::law_le_round_trip(m.build_version_hash as nat, 8);
    bytes::law_le_round_trip(m.symbols_count as nat, 4);
    bytes::law_le_round_trip(m.ring_size as nat, 4);
    bytes::law_le_round_trip(m.msg_size as nat, 4);
    bytes::law_le_round_trip(m.ws_url_hash as nat, 8);
    bytes::law_le_round_trip(m.ws_rx_frames_total as nat, 8);
    bytes::law_le_round_trip(m.ws_rx_bytes_total as nat, 8);
    bytes::law_le_round_trip(m.ws_rx_msgs_total as nat, 8);
    bytes::law_le_round_trip(m.ws_reconnect_total as nat, 4);
    bytes::law_le_round_trip(m.ws_disconnect_total as nat, 4);
    bytes::law_le_round_trip(m.ws_handshake_fail_total as nat, 4);
    bytes::law_le_round_trip(m.ws_subscribe_ok_total as nat, 4);
    bytes::law_le_round_trip(m.ws_subscribe_fail_total as nat, 4);
    bytes::law_le_round_trip(m.ws_parse_error_total as nat, 4);
    bytes::law_le_round_trip(m.ws_protocol_error_total as nat, 4);
    bytes::law_le_round_trip(m._pad1 as nat, 4);
    bytes::law_le_round_trip(m.shm_write_ok_total as nat, 8);
    bytes::law_le_round_trip(m.shm_write_fail_total as nat, 4);
    bytes::law_le_round_trip(m._pad2 as nat, 4);
    bytes::law_le_round_trip(m.last_frame_rx_ms as nat, 8);
    bytes::law_le_round_trip(m.last_data_rx_ms as nat, 8);
    bytes::law_le_round_trip(bytes::bits32(m.last_error_code as int), 4);
    bytes::law_le_round_trip(m.last_close_code as nat, 2);
    assert(m.spec_bytes().subrange(0, 8) =~= bytes::le(m.start_ms as nat, 8));
    assert(m.spec_bytes().subrange(8, 16) =~= bytes::le(m.build_version_hash as nat, 8));
    assert(m.spec_bytes().subrange(16, 20) =~= bytes::le(m.symbols_count as nat, 4));
    assert(m.spec_bytes().subrange(21, 24) =~= m._pad0@);
    assert(m.spec_bytes().subrange(24, 28) =~= bytes::le(m.ring_size as nat, 4));
    assert(m.spec_bytes().subrange(28, 32) =~= bytes::le(m.msg_size as nat, 4));
    assert(m.spec_bytes().subrange(32, 40) =~= bytes::le(m.ws_url_hash as nat, 8));
    assert(m.spec_bytes().subrange(40, 48) =~= bytes::le(m.ws_rx_frames_total as nat, 8));
    assert(m.spec_bytes().subrange(48, 56) =~= bytes::le(m.ws_rx_bytes_total as nat, 8));
    assert(m.spec_bytes().subrange(56, 64) =~= bytes::le(m.ws_rx_msgs_total as nat, 8));
    assert(m.spec_bytes().subrange(64, 68) =~= bytes::le(m.ws_reconnect_total as nat, 4));
    assert(m.spec_bytes().subrange(68, 72) =~= bytes::le(m.ws_disconnect_total as nat, 4));
    assert(m.spec_bytes().subrange(72, 76) =~= bytes::le(m.ws_handshake_fail_total as nat, 4));
    assert(m.spec_bytes().subrange(76, 80) =~= bytes::le(m.ws_subscribe_ok_total as nat, 4));
    assert(m.spec_bytes().subrange(80, 84) =~= bytes::le(m.ws_subscribe_fail_total as nat, 4));
    assert(m.spec_bytes().subrange(84, 88) =~= bytes::le(m.ws_parse_error_total as nat, 4));
    assert(m.spec_bytes().subrange(88, 92) =~= bytes::le(m.ws_protocol_error_total as nat, 4));
    assert(m.spec_bytes().subrange(92, 96) =~= bytes::le(m._pad1 as nat, 4));
    assert(m.spec_bytes().subrange(96, 104) =~= bytes::le(m.shm_write_ok_total as nat, 8));
    assert(m.spec_bytes().subrange(104, 108) =~= bytes::le(m.shm_write_fail_total as nat, 4));
    assert(m.spec_bytes().subrange(108, 112) =~= bytes::le(m._pad2 as nat, 4));
    assert(m.spec_bytes().subrange(112, 120) =~= bytes::le(m.last_frame_rx_ms as nat, 8));
    assert(m.spec_bytes().subrange(120, 128) =~= bytes::le(m.last_data_rx_ms as nat, 8));
    assert(m.spec_bytes().subrange(128, 132) =~= bytes::le(bytes::bits32(m.last_error_code as int), 4));
    assert(m.spec_bytes().subrange(132, 134) =~= bytes::le(m.last_close_code as nat, 2));
    assert(m.spec_bytes().subrange(134, 224) =~= m._padding@);
}

/// The periodic payload is 224 bytes long, and every field stands at its place.
pub proof fn law_periodic_layout(m: SnapshotPeriodicPayload)
    ensures
        m.spec_bytes().len() == 224,
        bytes::le_value(m.spec_bytes().subrange(0, 8)) == m.session_start_ms,
        bytes::le_value(m.spec_bytes().subrange(8, 16)) == m.last_frame_rx_ms,
        bytes::le_value(m.spec_bytes().subrange(16, 24)) == m.last_data_rx_ms,
        bytes::le_value(m.spec_bytes().subrange(24, 32)) == m.uptime_ms,
        bytes::le_value(m.spec_bytes().subrange(32, 40)) == m.silence_ms,
        bytes::le_value(m.spec_bytes().subrange(40, 44)) == m.rx_msgs_delta,
        bytes::le_value(m.spec_bytes().subrange(44, 48)) == m.reconnect_delta,
        bytes::le_value(m.spec_bytes().subrange(48, 52)) == m.subscribe_fail_delta,
        bytes::le_value(m.spec_bytes().subrange(52, 56)) == m.parse_error_delta,
        bytes::le_value(m.spec_bytes().subrange(56, 60)) == m.protocol_error_delta,
        bytes::le_value(m.spec_bytes().subrange(60, 64)) == m.shm_write_ok_delta,
        bytes::le_value(m.spec_bytes().subrange(64, 68)) == m.shm_write_fail_delta,
        bytes::le_value(m.spec_bytes().subrange(68, 72)) == m._pad0,
        bytes::le_value(m.spec_bytes().subrange(72, 80)) == m.shm_last_write_ok_ms,
        bytes::le_value(m.spec_bytes().subrange(80, 88)) == m.shm_last_write_fail_ms,
        bytes::le_value(m.spec_bytes().subrange(88, 92)) == m.lat_count,
        bytes::le_value(m.spec_bytes().subrange(92, 96)) == m.lat_min_ms,
        bytes::le_value(m.spec_bytes().subrange(96, 100)) == m.lat_max_ms,
        bytes::le_value(m.spec_bytes().subrange(100, 104)) == m.lat_avg_ms,
        bytes::le_value(m.spec_bytes().subrange(104, 108)) == bytes::bits32(m.last_error_code as int),
        bytes::le_value(m.spec_bytes().subrange(108, 110)) == m.last_close_code,
        m.spec_bytes().subrange(110, 224) == m._padding@,
{
    bytes::lemma_pow256();
    m.lemma_len();
    bytes::law_le_round_trip(m.session_start_ms as nat, 8);
    bytes::law_le_round_trip(m.last_frame_rx_ms as nat, 8);
    bytes::law_le_round_trip(m.last_data_rx_ms as nat, 8);
    bytes::law_le_round_trip(m.uptime_ms as nat, 8);
    bytes::law_le_round_trip(m.silence_ms as nat, 8);
    bytes::law_le_round_trip(m.rx_msgs_delta as nat, 4);
    bytes::law_le_round_trip(m.reconnect_delta as nat, 4);
    bytes::law_le_round_trip(m.subscribe_fail_delta as nat, 4);
    bytes::law_le_round_trip(m.parse_error_delta as nat, 4);
    bytes::law_le_round_trip(m.protocol_error_delta as nat, 4);
    bytes::law_le_round_trip(m.shm_write_ok_delta as nat, 4);
    bytes::law_le_round_trip(m.shm_write_fail_delta as nat, 4);
    bytes::law_le_round_trip(m._pad0 as nat, 4);
    bytes::law_le_round_trip(m.shm_last_write_ok_ms as nat, 8);
    bytes::law_le_round_trip(m.shm_last_write_fail_ms as nat, 8);
    bytes::law_le_round_trip(m.lat_count as nat, 4);
    bytes::law_le_round_trip(m.lat_min_ms as nat, 4);
    bytes::law_le_round_trip(m.lat_max_ms as nat, 4);
    bytes::law_le_round_trip(m.lat_avg_ms as nat, 4);
    bytes::law_le_round_trip(bytes::bits32(m.last_error_code as int), 4);
    bytes::law_le_round_trip(m.last_close_code as nat, 2);
    assert(m.spec_bytes().subrange(0, 8) =~= bytes::le(m.session_start_ms as nat, 8));
    assert(m.spec_bytes().subrange(8, 16) =~= bytes::le(m.last_frame_rx_ms as nat, 8));
    assert(m.spec_bytes().subrange(16, 24) =~= bytes::le(m.last_data_rx_ms as nat, 8));
    assert(m.spec_bytes().subrange(24, 32) =~= bytes::le(m.uptime_ms as nat, 8));
    assert(m.spec_bytes().subrange(32, 40) =~= bytes::le(m.silence_ms as nat, 8));
    assert(m.spec_bytes().subrange(40, 44) =~= bytes::le(m.rx_msgs_delta as nat, 4));
    assert(m.spec_bytes().subrange(44, 48) =~= bytes::le(m.reconnect_delta as nat, 4));
    assert(m.spec_bytes().subrange(48, 52) =~= bytes::le(m.subscribe_fail_delta as nat, 4));
    assert(m.spec_bytes().subrange(52, 56) =~= bytes::le(m.parse_error_delta as nat, 4));
    assert(m.spec_bytes().subrange(56, 60) =~= bytes::le(m.protocol_error_delta as nat, 4));
    assert(m.spec_bytes().subrange(60, 64) =~= bytes::le(m.shm_write_ok_delta as nat, 4));
    assert(m.spec_bytes().subrange(64, 68) =~= bytes::le(m.shm_write_fail_delta as nat, 4));
    assert(m.spec_bytes().subrange(68, 72) =~= bytes::le(m._pad0 as nat, 4));
    assert(m.spec_bytes().subrange(72, 80) =~= bytes::le(m.shm_last_write_ok_ms as nat, 8));
    assert(m.spec_bytes().subrange(80, 88) =~= bytes::le(m.shm_last_write_fail_ms as nat, 8));
    assert(m.spec_bytes().subrange(88, 92) =~= bytes::le(m.lat_count as nat, 4));
    assert(m.spec_bytes().subrange(92, 96) =~= bytes::le(m.lat_min_ms as nat, 4));
    assert(m.spec_bytes().subrange(96, 100) =~= bytes::le(m.lat_max_ms as nat, 4));
    assert(m.spec_bytes().subrange(100, 104) =~= bytes::le(m.lat_avg_ms as nat, 4));
    assert(m.spec_bytes().subrange(104, 108) =~= bytes::le(bytes::bits32(m.last_error_code as int), 4));
    assert(m.spec_bytes().subrange(108, 110) =~= bytes::le(m.last_close_code as nat, 2));
    assert(m.spec_bytes().subrange(110, 224) =~= m._padding@);
}

/// The error payload is 224 bytes long, and every field stands at its place.
pub proof fn law_error_layout(m: EventErrorPayload)
    ensures
        m.spec_bytes().len() == 224,
        m.spec_bytes()[0] == m.domain,
        m.spec_bytes()[1] == m._pad0,
        bytes::le_value(m.spec_bytes().subrange(2, 4)) == bytes::bits16(m.code as int),
        bytes::le_value(m.spec_bytes().subrange(4, 8)) == m.aux_u32,
        bytes::le_value(m.spec_bytes().subrange(8, 16)) == m.aux_u64_0,
        bytes::le_value(m.spec_bytes().subrange(16, 24)) == m.aux_u64_1,
        bytes::le_value(m.spec_bytes().subrange(24, 32)) == m.last_frame_rx_ms,
        bytes::le_value(m.spec_bytes().subrange(32, 40)) == m.last_data_rx_ms,
        m.spec_bytes().subrange(40, 224) == m._padding@,
{
    bytes::lemma_pow256();
    m.lemma_len();
    bytes::law_le_round_trip(bytes::bits16(m.code as int), 2);
    bytes::law_le_round_trip(m.aux_u32 as nat, 4);
    bytes::law_le_round_trip(m.aux_u64_0 as nat, 8);
    bytes::law_le_round_trip(m.aux_u64_1 as nat, 8);
    bytes::law_le_round_trip(m.last_frame_rx_ms as nat, 8);
    bytes::law_le_round_trip(m.last_data_rx_ms as nat, 8);
    assert(m.spec_bytes().subrange(2, 4) =~= bytes::le(bytes::bits16(m.code as int), 2));
    assert(m.spec_bytes().subrange(4, 8) =~= bytes::le(m.aux_u32 as nat, 4));
    assert(m.spec_bytes().subrange(8, 16) =~= bytes::le(m.aux_u64_0 as nat, 8));
    assert(m.spec_bytes().subrange(16, 24) =~= bytes::le(m.aux_u64_1 as nat, 8));
    assert(m.spec_bytes().subrange(24, 32) =~= bytes::le(m.last_frame_rx_ms as nat, 8));
    assert(m.spec_bytes().subrange(32, 40) =~= bytes::le(m.last_data_rx_ms as nat, 8));
    assert(m.spec_bytes().subrange(40, 224) =~= m._padding@);
}

} // verus!
