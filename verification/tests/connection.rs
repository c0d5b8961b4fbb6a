use binance_futures_writer::connection::{
    announce, BookTickerData, BookTickerMessage, Connection, Event, Next, Phase, Step,
};
use binance_futures_writer::message_builder::{
    event_error, hash_string, snapshot_periodic, snapshot_start, PKG_VERSION,
};
use binance_futures_writer::metrics::{ErrorDomain, Metrics, WsState};
use binance_futures_writer::symbols::{validate_symbols, SymbolMap, SymbolMapper};

fn symbols() -> SymbolMap {
    let lines = vec![Ok("5\tBTCUSDT".to_string())];
    let mapper = match SymbolMapper::load_from_tsv(&lines) {
        Ok(m) => m,
        Err(e) => panic!("{}", e),
    };
    match validate_symbols(&["BTCUSDT".to_string()], &mapper) {
        Ok(m) => m,
        Err(e) => panic!("{}", e),
    }
}

fn ticker(now_ms: u64, symbol: &str, bid: &str, ask: &str) -> Event {
    Event::Ticker {
        now_ms,
        message: BookTickerMessage {
            stream: "x".to_string(),
            data: BookTickerData {
                symbol: symbol.to_string(),
                bid: bid.to_string(),
                ask: ask.to_string(),
            },
        },
    }
}

fn step(c: &mut Connection, m: &mut Metrics, event: Event) -> Step {
    let symbols = symbols();
    assert!(c.accepts(m, &event, &symbols), "{:?} in {:?}", event, c);
    c.step(m, &event, &symbols, 9)
}

fn standing() -> (Connection, Metrics) {
    let mut c = Connection::new(1_000);
    let mut m = Metrics::started_at(500);
    step(&mut c, &mut m, Event::Due { now_ms: 1_001 });
    step(&mut c, &mut m, Event::Connected);
    (c, m)
}

fn number(msg: &[u8; 256]) -> u64 {
    let mut v = [0u8; 8];
    v.copy_from_slice(&msg[24..32]);
    u64::from_le_bytes(v)
}

#[test]
fn attempt_begins_a_session() {
    let mut c = Connection::new(1_000);
    assert_eq!(
        c,
        Connection { phase: Phase::Idle, backoff_ms: 200, next_snapshot_ms: 6_000 }
    );
    let mut m = Metrics::started_at(500);
    let s = step(&mut c, &mut m, Event::Due { now_ms: 1_001 });
    assert_eq!(s.next, Next::Connect);
    assert!(s.publish.is_none());
    assert_eq!((m.session_id, m.session_start_ms), (1, 1_001));
    assert_eq!(m.ws_state, WsState::Connecting);
    let s = step(&mut c, &mut m, Event::Connected);
    assert_eq!(s.next, Next::Receive);
    assert_eq!(m.ws_state, WsState::Running);
}

#[test]
fn refused_attempts_wait_longer_and_longer() {
    let mut c = Connection::new(0);
    let mut m = Metrics::started_at(0);
    for (k, ms) in [200u64, 400, 800, 1600, 3200, 6400, 12800, 25600, 30000, 30000].iter().enumerate() {
        step(&mut c, &mut m, Event::Due { now_ms: 1 });
        let s = step(&mut c, &mut m, Event::Refused { now_ms: 7, ts_ms: 8 });
        assert_eq!(s.next, Next::Wait { ms: *ms });
        assert_eq!(m.ws_handshake_fail_total as usize, k + 1);
        assert_eq!(m.ws_last_error_ms, 7);
        let expected = event_error(&m, ErrorDomain::WS, -3, 0, 0, 0, 9, 8);
        assert_eq!(s.publish, Some(expected));
        assert_eq!(number(&expected) as usize, k + 1);
    }
    step(&mut c, &mut m, Event::Due { now_ms: 1 });
    step(&mut c, &mut m, Event::Connected);
    assert_eq!(c.backoff_ms, 200);
    let s = step(&mut c, &mut m, Event::Exhausted { ts_ms: 1 });
    assert_eq!(s.next, Next::Wait { ms: 200 });
    assert_eq!(c.backoff_ms, 400);
}

#[test]
fn snapshots_keep_their_schedule() {
    let (mut c, mut m) = standing();
    let s = step(&mut c, &mut m, Event::Arrived { now_ms: 5_999, ts_ms: 1 });
    assert!(s.publish.is_none());
    assert_eq!(s.next, Next::Handle);
    step(&mut c, &mut m, Event::Other);
    for due in [6_000u64, 11_000] {
        m.ws_rx_msgs_total += 4;
        let mut expected_m = m.clone();
        expected_m.log_seq += 1;
        let s = step(&mut c, &mut m, Event::Arrived { now_ms: 17_000, ts_ms: 17_001 });
        assert_eq!(s.publish, Some(snapshot_periodic(&mut expected_m, 9, 17_001)));
        assert_eq!(c.next_snapshot_ms, due + 5_000);
        assert_eq!(m.prev_rx_msgs_total, m.ws_rx_msgs_total);
        step(&mut c, &mut m, Event::Other);
    }
    assert_eq!(m.log_seq, 2);
}

#[test]
fn quote_goes_through() {
    let (mut c, mut m) = standing();
    step(&mut c, &mut m, Event::Arrived { now_ms: 2_000, ts_ms: 2_000 });
    let s = step(&mut c, &mut m, Event::Text { now_ms: 2_001, len: 120 });
    assert_eq!(s.next, Next::Parse);
    assert_eq!(m.ws_last_frame_rx_ms, 2_001);
    assert_eq!((m.ws_rx_frames_total, m.ws_rx_bytes_total), (1, 120));
    let s = step(&mut c, &mut m, ticker(2_002, "BTCUSDT", "45000.10", "45000.2"));
    assert_eq!(
        s.next,
        Next::Write { symbol_id: 5, bid: 4_500_010_000_000, ask: 4_500_020_000_000 }
    );
    assert_eq!((m.ws_last_data_rx_ms, m.ws_rx_msgs_total), (2_002, 1));
    let s = step(&mut c, &mut m, Event::Written { now_ms: 2_005 });
    assert_eq!(s.next, Next::Receive);
    assert_eq!((m.shm_write_ok_total, m.shm_last_write_ok_ms), (1, 2_005));
    assert_eq!(m.lat_rx_to_written.sum_ms, 4);
    assert_eq!(m.lat_rx_to_written.count, 1);
    assert!(s.publish.is_none());
    assert_eq!(m.log_seq, 0);
}

#[test]
fn clock_that_is_set_back_gives_a_long_latency() {
    let (mut c, mut m) = standing();
    step(&mut c, &mut m, Event::Arrived { now_ms: 2_000, ts_ms: 2_000 });
    step(&mut c, &mut m, Event::Text { now_ms: 2_001, len: 120 });
    step(&mut c, &mut m, ticker(2_002, "BTCUSDT", "1", "2"));
    step(&mut c, &mut m, Event::Written { now_ms: 1_999 });
    assert_eq!(m.lat_rx_to_written.max_ms, u32::MAX - 1);
}

#[test]
fn bad_texts_are_counted() {
    let (mut c, mut m) = standing();
    step(&mut c, &mut m, Event::Arrived { now_ms: 2, ts_ms: 2 });
    step(&mut c, &mut m, Event::Text { now_ms: 3, len: 1 });
    let s = step(&mut c, &mut m, Event::Unreadable);
    assert_eq!(s.next, Next::Receive);
    assert_eq!((m.ws_parse_error_total, m.ws_rx_msgs_total), (1, 0));
    for (bid, ask) in [("x", "1"), ("1", "y"), ("1.2.3", "z")] {
        step(&mut c, &mut m, Event::Arrived { now_ms: 2, ts_ms: 2 });
        step(&mut c, &mut m, Event::Text { now_ms: 3, len: 1 });
        let s = step(&mut c, &mut m, ticker(4, "BTCUSDT", bid, ask));
        assert_eq!(s.next, Next::Receive);
    }
    assert_eq!((m.ws_parse_error_total, m.ws_rx_msgs_total), (4, 3));
}

#[test]
fn unknown_symbol_ends_the_process() {
    let (mut c, mut m) = standing();
    step(&mut c, &mut m, Event::Arrived { now_ms: 2, ts_ms: 2 });
    step(&mut c, &mut m, Event::Text { now_ms: 3, len: 1 });
    let s = step(&mut c, &mut m, ticker(4, "btcusdt", "1", "2"));
    assert_eq!(s.next, Next::Exit { code: 10 });
    assert!(s.publish.is_none());
    assert_eq!(m.ws_rx_msgs_total, 0);
    assert!(!c.accepts(&m, &Event::Other, &symbols()));
    assert!(!c.accepts(&m, &Event::Due { now_ms: 1 }, &symbols()));
}

#[test]
fn failed_write_ends_the_process() {
    let (mut c, mut m) = standing();
    step(&mut c, &mut m, Event::Arrived { now_ms: 2, ts_ms: 2 });
    step(&mut c, &mut m, Event::Text { now_ms: 3, len: 1 });
    step(&mut c, &mut m, ticker(4, "BTCUSDT", "1", "2"));
    let s = step(&mut c, &mut m, Event::NotWritten { now_ms: 5, ts_ms: 6 });
    assert_eq!(s.next, Next::Exit { code: 11 });
    assert_eq!((m.shm_write_fail_total, m.shm_last_write_fail_ms), (1, 5));
    assert_eq!(m.ws_last_error_code, -1);
    assert_eq!(m.log_seq, 1);
    assert_eq!(s.publish, Some(event_error(&m, ErrorDomain::SHM, -1, 0, 0, 0, 9, 6)));
}

#[test]
fn heartbeats_are_counted() {
    let (mut c, mut m) = standing();
    step(&mut c, &mut m, Event::Arrived { now_ms: 2, ts_ms: 2 });
    let s = step(&mut c, &mut m, Event::Heartbeat { now_ms: 3 });
    assert_eq!(s.next, Next::Receive);
    assert_eq!((m.ws_last_frame_rx_ms, m.ws_rx_frames_total, m.ws_rx_bytes_total), (3, 1, 0));
}

#[test]
fn closed_connection_is_lost() {
    for (code, expected) in [(Some(1006u16), 1006u16), (None, 0)] {
        let (mut c, mut m) = standing();
        m.ws_last_close_code = 5;
        step(&mut c, &mut m, Event::Arrived { now_ms: 2, ts_ms: 2 });
        let s = step(&mut c, &mut m, Event::Closed { code, ts_ms: 3 });
        assert_eq!(s.next, Next::Wait { ms: 200 });
        assert_eq!((m.ws_disconnect_total, m.ws_reconnect_total), (1, 1));
        assert_eq!(m.ws_last_close_code, expected);
        assert_eq!(m.ws_state, WsState::Reconnecting);
        assert_eq!(s.publish, Some(event_error(&m, ErrorDomain::WS, -2, 0, 0, 1, 9, 3)));
    }
}

#[test]
fn broken_connection_is_lost() {
    let (mut c, mut m) = standing();
    step(&mut c, &mut m, Event::Arrived { now_ms: 2, ts_ms: 2 });
    let s = step(&mut c, &mut m, Event::Broken { now_ms: 4, ts_ms: 5 });
    assert_eq!(s.next, Next::Wait { ms: 200 });
    assert_eq!((m.ws_protocol_error_total, m.ws_reconnect_total), (1, 1));
    assert_eq!(m.ws_last_error_ms, 4);
    assert_eq!(m.ws_state, WsState::Reconnecting);
    assert_eq!(s.publish, Some(event_error(&m, ErrorDomain::WS, -2, 0, 0, 1, 9, 5)));
}

#[test]
fn exhausted_stream_keeps_its_state() {
    let (mut c, mut m) = standing();
    let s = step(&mut c, &mut m, Event::Exhausted { ts_ms: 5 });
    assert_eq!(s.next, Next::Wait { ms: 200 });
    assert_eq!((m.ws_disconnect_total, m.ws_reconnect_total), (0, 1));
    assert_eq!(m.ws_state, WsState::Running);
    assert_eq!(s.publish, Some(event_error(&m, ErrorDomain::WS, -2, 0, 0, 1, 9, 5)));
}

#[test]
fn messages_are_numbered_without_a_gap() {
    let (mut c, mut m) = standing();
    let mut numbers = Vec::new();
    for round in 0..4u64 {
        let s = step(&mut c, &mut m, Event::Arrived { now_ms: 6_000 + 5_000 * round, ts_ms: 1 });
        numbers.extend(s.publish.map(|msg| number(&msg)));
        let s = step(&mut c, &mut m, Event::Closed { code: None, ts_ms: 1 });
        numbers.extend(s.publish.map(|msg| number(&msg)));
        step(&mut c, &mut m, Event::Due { now_ms: 1 });
        let s = step(&mut c, &mut m, Event::Connected);
        numbers.extend(s.publish.map(|msg| number(&msg)));
    }
    assert_eq!(numbers, vec![1, 2, 3, 4, 5, 6, 7, 8]);
    assert_eq!(m.log_seq, 8);
}

#[test]
fn several_connections_share_the_numbers() {
    let (mut a, mut m) = standing();
    let mut b = Connection::new(2_000);
    let mut numbers = Vec::new();
    step(&mut b, &mut m, Event::Due { now_ms: 2_001 });
    for event in [
        (false, Event::Refused { now_ms: 1, ts_ms: 1 }),
        (true, Event::Arrived { now_ms: 6_000, ts_ms: 1 }),
        (false, Event::Due { now_ms: 1 }),
        (true, Event::Closed { code: None, ts_ms: 1 }),
        (false, Event::Refused { now_ms: 1, ts_ms: 1 }),
    ] {
        let c = if event.0 { &mut a } else { &mut b };
        let s = step(c, &mut m, event.1);
        numbers.extend(s.publish.map(|msg| number(&msg)));
        assert!(m.is_coherent());
    }
    assert_eq!(numbers, vec![1, 2, 3, 4]);
    assert_eq!((a.backoff_ms, b.backoff_ms), (400, 800));
}

#[test]
fn events_out_of_turn_are_told_apart() {
    let (c, m) = standing();
    let symbols = symbols();
    assert!(!c.accepts(&m, &Event::Due { now_ms: 1 }, &symbols));
    assert!(!c.accepts(&m, &Event::Text { now_ms: 1, len: 1 }, &symbols));
    assert!(!c.accepts(&m, &Event::Written { now_ms: 1 }, &symbols));
    assert!(c.accepts(&m, &Event::Exhausted { ts_ms: 1 }, &symbols));
}

#[test]
fn events_that_cannot_be_counted_are_told_apart() {
    let symbols = symbols();
    let (mut c, mut m) = standing();
    m.ws_reconnect_total = u32::MAX;
    assert!(!c.accepts(&m, &Event::Exhausted { ts_ms: 1 }, &symbols));
    m.ws_reconnect_total = 0;
    step(&mut c, &mut m, Event::Arrived { now_ms: 2, ts_ms: 2 });
    m.ws_rx_bytes_total = u64::MAX - 1;
    assert!(!c.accepts(&m, &Event::Text { now_ms: 3, len: 2 }, &symbols));
    step(&mut c, &mut m, Event::Text { now_ms: 3, len: 1 });
    assert!(!c.accepts(&m, &ticker(4, "BTCUSDT", "1.00000000x", "1"), &symbols));
    assert!(!c.accepts(&m, &ticker(4, "BTCUSDT", "1", "99999999999"), &symbols));
    step(&mut c, &mut m, ticker(4, "BTCUSDT", "1", "1"));
    m.lat_rx_to_written.count = u32::MAX;
    assert!(!c.accepts(&m, &Event::Written { now_ms: 3 }, &symbols));
    m.lat_rx_to_written.count = 0;
    assert!(c.accepts(&m, &Event::Written { now_ms: 3 }, &symbols));
}

#[test]
fn start_is_announced() {
    let mut m = Metrics::started_at(1);
    let msg = announce(&mut m, 300, "wss://x", 9);
    assert_eq!(m.log_seq, 1);
    let mut ts = [0u8; 8];
    ts.copy_from_slice(&msg[4..12]);
    let expected = snapshot_start(
        &m,
        300,
        hash_string(PKG_VERSION),
        hash_string("wss://x"),
        1024,
        9,
        u64::from_le_bytes(ts),
    );
    assert_eq!(msg, expected);
}
