use binance_futures_writer::message_builder::{
    build_event_error, build_snapshot_periodic, build_snapshot_start, event_error, hash_string,
    snapshot_periodic, snapshot_start, PKG_VERSION,
};
use binance_futures_writer::metrics::{now_ms, ErrorDomain, LatencyAggregator, Metrics, WsState};
use std::collections::hash_map::DefaultHasher;
use std::hash::{Hash, Hasher};

fn u16_at(b: &[u8], at: usize) -> u16 {
    u16::from_le_bytes([b[at], b[at + 1]])
}

fn u32_at(b: &[u8], at: usize) -> u32 {
    u32::from_le_bytes([b[at], b[at + 1], b[at + 2], b[at + 3]])
}

fn u64_at(b: &[u8], at: usize) -> u64 {
    let mut v = [0u8; 8];
    v.copy_from_slice(&b[at..at + 8]);
    u64::from_le_bytes(v)
}

fn std_hash(s: &str) -> u64 {
    let mut hasher = DefaultHasher::new();
    s.hash(&mut hasher);
    hasher.finish()
}

fn sample() -> Metrics {
    let mut m = Metrics::started_at(1_000);
    m.session_id = 3;
    m.ws_state = WsState::Running;
    m.ws_last_frame_rx_ms = 2_001;
    m.ws_last_data_rx_ms = 2_002;
    m.ws_rx_frames_total = 11;
    m.ws_rx_bytes_total = 12;
    m.ws_rx_msgs_total = 0x2_0000_000D;
    m.ws_reconnect_total = 14;
    m.ws_disconnect_total = 15;
    m.ws_handshake_fail_total = 16;
    m.ws_subscribe_ok_total = 17;
    m.ws_subscribe_fail_total = 18;
    m.ws_parse_error_total = 19;
    m.ws_protocol_error_total = 20;
    m.ws_last_error_code = -21;
    m.ws_last_close_code = 1006;
    m.shm_write_ok_total = 22;
    m.shm_write_fail_total = 23;
    m.shm_last_write_ok_ms = 2_003;
    m.shm_last_write_fail_ms = 2_004;
    m.lat_rx_to_written = LatencyAggregator { count: 2, min_ms: 1, max_ms: 6, sum_ms: 7 };
    m.prev_rx_msgs_total = 3;
    m.prev_reconnect_total = 4;
    m.prev_subscribe_fail_total = 5;
    m.prev_parse_error_total = 6;
    m.prev_protocol_error_total = 7;
    m.prev_shm_write_ok_total = 8;
    m.prev_shm_write_fail_total = 9;
    m.log_seq = 42;
    m
}

fn check_header(b: &[u8; 256], kind: u8, ts_ms: u64) {
    assert_eq!(b[..4], [kind, 1, 1, 0]);
    assert_eq!(u64_at(b, 4), ts_ms);
    assert_eq!(u32_at(b, 12), 3);
    assert_eq!(u32_at(b, 16), 777);
    assert_eq!(b[20..24], [3, 0, 0, 0]);
    assert_eq!(u64_at(b, 24), 42);
}

#[test]
fn strings_are_hashed_by_the_default_hasher() {
    for s in ["", "0.1.0", "wss://fstream.binance.com/stream", "ж"] {
        assert_eq!(hash_string(s), std_hash(s));
    }
}

#[test]
fn start_message_is_laid_out() {
    let b = snapshot_start(&sample(), 100, 5, 6, 1024, 777, 9_999);
    check_header(&b, 1, 9_999);
    let p = &b[32..];
    assert_eq!(u64_at(p, 0), 1_000);
    assert_eq!(u64_at(p, 8), 5);
    assert_eq!(u32_at(p, 16), 100);
    assert_eq!(p[20..24], [1, 0, 0, 0]);
    assert_eq!(u32_at(p, 24), 1024);
    assert_eq!(u32_at(p, 28), 256);
    assert_eq!(u64_at(p, 32), 6);
    assert_eq!(u64_at(p, 40), 11);
    assert_eq!(u64_at(p, 48), 12);
    assert_eq!(u64_at(p, 56), 0x2_0000_000D);
    for (i, v) in [14u32, 15, 16, 17, 18, 19, 20, 0].iter().enumerate() {
        assert_eq!(u32_at(p, 64 + 4 * i), *v);
    }
    assert_eq!(u64_at(p, 96), 22);
    assert_eq!(u32_at(p, 104), 23);
    assert_eq!(u32_at(p, 108), 0);
    assert_eq!(u64_at(p, 112), 2_001);
    assert_eq!(u64_at(p, 120), 2_002);
    assert_eq!(u32_at(p, 128) as i32, -21);
    assert_eq!(u16_at(p, 132), 1006);
    assert!(p[134..].iter().all(|b| *b == 0));
}

#[test]
fn start_message_carries_hashes_and_time() {
    let before = now_ms();
    let b = build_snapshot_start(&sample(), 1, "wss://x", 64, 777);
    let ts_ms = u64_at(&b, 4);
    assert!(ts_ms >= before && ts_ms <= now_ms());
    let expected = snapshot_start(
        &sample(),
        1,
        std_hash(PKG_VERSION),
        std_hash("wss://x"),
        64,
        777,
        ts_ms,
    );
    assert_eq!(b, expected);
}

#[test]
fn periodic_message_is_laid_out() {
    let mut m = sample();
    let b = snapshot_periodic(&mut m, 777, 5_000);
    check_header(&b, 2, 5_000);
    let p = &b[32..];
    assert_eq!(u64_at(p, 0), 1_000);
    assert_eq!(u64_at(p, 8), 2_001);
    assert_eq!(u64_at(p, 16), 2_002);
    assert_eq!(u64_at(p, 24), 4_000);
    assert_eq!(u64_at(p, 32), 2_998);
    for (i, v) in [10u32, 10, 13, 13, 13, 14, 14, 0].iter().enumerate() {
        assert_eq!(u32_at(p, 40 + 4 * i), *v);
    }
    assert_eq!(u64_at(p, 72), 2_003);
    assert_eq!(u64_at(p, 80), 2_004);
    for (i, v) in [2u32, 1, 6, 3].iter().enumerate() {
        assert_eq!(u32_at(p, 88 + 4 * i), *v);
    }
    assert_eq!(u32_at(p, 104) as i32, -21);
    assert_eq!(u16_at(p, 108), 1006);
    assert!(p[110..].iter().all(|b| *b == 0));
}

#[test]
fn periodic_message_takes_totals_down() {
    let mut m = sample();
    snapshot_periodic(&mut m, 777, 5_000);
    assert_eq!(m.prev_rx_msgs_total, 0x2_0000_000D);
    assert_eq!(m.prev_reconnect_total, 14);
    assert_eq!(m.prev_shm_write_fail_total, 23);
    assert_eq!(m.lat_rx_to_written.count, 0);
    assert_eq!(m.ws_rx_msgs_total, 0x2_0000_000D);
    assert_eq!(m.log_seq, 42);
    let b = snapshot_periodic(&mut m, 777, 6_000);
    assert!(b[72..100].iter().all(|b| *b == 0));
    assert_eq!(u32_at(&b, 120), 0);
    assert_eq!(u32_at(&b, 124), u32::MAX);
    assert_eq!(u32_at(&b, 128), 0);
}

#[test]
fn deltas_of_a_run_add_up() {
    let mut m = sample();
    m.ws_rx_msgs_total = 13;
    let (mut msgs, mut errors) = (0u64, 0u64);
    for round in 0..4u64 {
        m.ws_rx_msgs_total += 100 * round;
        m.ws_parse_error_total += 2;
        let b = snapshot_periodic(&mut m, 777, 5_000 * round);
        msgs += u32_at(&b, 72) as u64;
        errors += u32_at(&b, 84) as u64;
    }
    assert_eq!(msgs, 13 + 600 - 3);
    assert_eq!(errors, 19 + 8 - 6);
}

#[test]
fn times_before_the_session_count_as_zero() {
    let mut m = Metrics::started_at(1_000);
    let b = snapshot_periodic(&mut m, 1, 900);
    assert_eq!(u64_at(&b, 32 + 24), 0);
    assert_eq!(u64_at(&b, 32 + 32), 900);
    m.ws_last_data_rx_ms = 950;
    let b = snapshot_periodic(&mut m, 1, 900);
    assert_eq!(u64_at(&b, 32 + 32), 0);
}

#[test]
fn periodic_message_carries_the_time() {
    let before = now_ms();
    let mut m = sample();
    let b = build_snapshot_periodic(&mut m, 777);
    let ts_ms = u64_at(&b, 4);
    assert!(ts_ms >= before && ts_ms <= now_ms());
    assert_eq!(b, snapshot_periodic(&mut sample(), 777, ts_ms));
}

#[test]
fn error_message_is_laid_out() {
    let b = event_error(&sample(), ErrorDomain::SHM, -1, 2, 3, 4, 777, 8);
    check_header(&b, 3, 8);
    let p = &b[32..];
    assert_eq!(p[..2], [2, 0]);
    assert_eq!(u16_at(p, 2) as i16, -1);
    assert_eq!(u32_at(p, 4), 2);
    assert_eq!(u64_at(p, 8), 3);
    assert_eq!(u64_at(p, 16), 4);
    assert_eq!(u64_at(p, 24), 2_001);
    assert_eq!(u64_at(p, 32), 2_002);
    assert!(p[40..].iter().all(|b| *b == 0));
}

#[test]
fn error_message_carries_the_time() {
    let before = now_ms();
    let b = build_event_error(&sample(), ErrorDomain::SYS, 7, 1, 2, 3, 777);
    let ts_ms = u64_at(&b, 4);
    assert!(ts_ms >= before && ts_ms <= now_ms());
    assert_eq!(b, event_error(&sample(), ErrorDomain::SYS, 7, 1, 2, 3, 777, ts_ms));
}
