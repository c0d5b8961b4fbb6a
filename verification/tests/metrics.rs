use binance_futures_writer::clock;
use binance_futures_writer::metrics::{
    now_ms, ErrorDomain, LatencyAggregator, MessageType, Metrics, StreamType, WsState,
};

#[test]
fn codes_are_fixed() {
    assert_eq!(WsState::Connecting.code(), 0);
    assert_eq!(WsState::Handshake.code(), 1);
    assert_eq!(WsState::Subscribed.code(), 2);
    assert_eq!(WsState::Running.code(), 3);
    assert_eq!(WsState::Reconnecting.code(), 4);
    assert_eq!(WsState::Failed.code(), 5);
    assert_eq!(StreamType::BookTicker.code(), 1);
    assert_eq!(ErrorDomain::WS.code(), 1);
    assert_eq!(ErrorDomain::SHM.code(), 2);
    assert_eq!(ErrorDomain::SYS.code(), 3);
    assert_eq!(MessageType::SnapshotStart.code(), 1);
    assert_eq!(MessageType::SnapshotPeriodic.code(), 2);
    assert_eq!(MessageType::EventError.code(), 3);
}

#[test]
fn latencies_are_summed_up() {
    let mut a = LatencyAggregator::new();
    assert_eq!((a.count, a.min_ms, a.max_ms, a.sum_ms), (0, u32::MAX, 0, 0));
    assert_eq!(a.avg(), 0);
    for v in [5u32, 2, 9, 2] {
        assert!(a.can_record(v));
        a.record(v);
    }
    assert_eq!((a.count, a.min_ms, a.max_ms, a.sum_ms), (4, 2, 9, 18));
    assert_eq!(a.avg(), 4);
    a.reset();
    assert_eq!((a.count, a.min_ms, a.max_ms, a.sum_ms), (0, u32::MAX, 0, 0));
}

#[test]
fn full_summaries_are_told_apart() {
    let mut a = LatencyAggregator::new();
    a.count = u32::MAX;
    assert!(!a.can_record(0));
    a.count = 0;
    a.sum_ms = u64::MAX - 3;
    assert!(a.can_record(3));
    assert!(!a.can_record(4));
}

#[test]
fn mean_keeps_its_lowest_bits() {
    let a = LatencyAggregator { count: 1, min_ms: 0, max_ms: 0, sum_ms: 0x5_0000_0007 };
    assert_eq!(a.avg(), 7);
}

#[test]
fn metrics_begin_at_zero() {
    let before = now_ms();
    let m = Metrics::new();
    let after = now_ms();
    assert!(before <= m.session_start_ms && m.session_start_ms <= after);
    assert_eq!(m.session_id, 0);
    assert_eq!(m.ws_state, WsState::Connecting);
    assert_eq!(m.ws_rx_frames_total, 0);
    assert_eq!(m.ws_last_error_code, 0);
    assert_eq!(m.lat_rx_to_written.min_ms, u32::MAX);
    assert_eq!(m.log_seq, 0);
    assert!(m.is_coherent());
}

#[test]
fn sessions_are_counted() {
    let mut m = Metrics::started_at(5);
    m.ws_state = WsState::Running;
    m.ws_rx_msgs_total = 3;
    m.start_session(77);
    assert_eq!((m.session_id, m.session_start_ms), (1, 77));
    assert_eq!(m.ws_state, WsState::Connecting);
    assert_eq!(m.ws_rx_msgs_total, 3);
    let before = now_ms();
    m.new_session();
    assert_eq!(m.session_id, 2);
    assert!(m.session_start_ms >= before);
}

#[test]
fn incoherent_metrics_are_told_apart() {
    let mut m = Metrics::started_at(0);
    m.prev_parse_error_total = 1;
    assert!(!m.is_coherent());
    m.ws_parse_error_total = 1;
    assert!(m.is_coherent());
}

#[test]
fn spans_are_converted() {
    assert_eq!(clock::span_millis(12, 345_999_999), 12_345);
    assert_eq!(clock::span_micros(12, 345_678), 12_345_678);
    assert_eq!(clock::span_whole_micros(12, 345_678_999), 12_345_678);
    assert_eq!(clock::span_whole_micros(u64::MAX, 0), u64::MAX as u128 * 1_000_000);
    assert_eq!(clock::span_millis(u64::MAX, 0), u64::MAX.wrapping_mul(1000));
    assert_eq!(clock::span_micros(u64::MAX, 1), u64::MAX.wrapping_mul(1_000_000).wrapping_add(1) as i64);
}

#[test]
fn clock_is_that_of_the_system() {
    let span = std::time::SystemTime::now().duration_since(std::time::UNIX_EPOCH).unwrap();
    let ms = now_ms();
    let us = clock::get_monotonic_us();
    assert!(ms >= span.as_millis() as u64 && ms < span.as_millis() as u64 + 60_000);
    assert!(us >= span.as_micros() as i64 && us < span.as_micros() as i64 + 60_000_000);
}
