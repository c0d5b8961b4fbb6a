use binance_futures_writer::logger::{
    format_entry, work_for, work_now, LogEntry, Logger, Work, RING_BUFFER_SIZE,
};

fn write(line: &str, echo: bool, work: Work) {
    match work {
        Work::Write { line: l, echo: e } => {
            let behind = l.find("] ").unwrap();
            assert!(l[1..behind].parse::<u128>().unwrap() > 1_000_000_000_000_000);
            assert_eq!(&l[behind + 2..], line);
            assert_eq!(e, echo);
        }
        _ => panic!("nothing to write"),
    }
}

#[test]
fn entries_become_lines() {
    let quote = LogEntry::QuoteWritten {
        symbol: "BTCUSDT".to_string(),
        symbol_id: 1,
        bid: 4500000000000,
        ask: -1,
        ts_us: 1234567890123458,
    };
    assert_eq!(
        format_entry(&quote, 7),
        "[7] [QUOTE] symbol=BTCUSDT symbol_id=1 bid=4500000000000 ask=-1 ts_us=1234567890123458"
    );
    let event = LogEntry::ConnectionEvent { event: "lost".to_string(), url: "wss://x".to_string() };
    assert_eq!(format_entry(&event, 0), "[0] [CONNECTION] lost url=wss://x");
    let error = LogEntry::Error { message: "m".to_string(), context: "c".to_string() };
    assert_eq!(format_entry(&error, 1), "[1] [ERROR] m context=c");
    let warning = LogEntry::Warning { message: "w".to_string() };
    assert_eq!(format_entry(&warning, 1), "[1] [WARNING] w");
    let info = LogEntry::Info { message: "i".to_string() };
    assert_eq!(format_entry(&info, 1), "[1] [INFO] i");
    assert_eq!(
        format_entry(&LogEntry::Shutdown, u128::MAX),
        format!("[{}] [SHUTDOWN]", u128::MAX)
    );
}

#[test]
fn lines_carry_the_time() {
    let before = std::time::SystemTime::now()
        .duration_since(std::time::UNIX_EPOCH)
        .unwrap()
        .as_micros();
    let line = Logger::format_log_entry(&LogEntry::Info { message: "x".to_string() });
    let time: u128 = line[1..line.find(']').unwrap()].parse().unwrap();
    assert!(time >= before && time < before + 60_000_000);
    assert!(line.ends_with("] [INFO] x"));
}

#[test]
fn errors_and_warnings_are_echoed() {
    for (entry, echo) in [
        (LogEntry::Error { message: "m".to_string(), context: "c".to_string() }, true),
        (LogEntry::Warning { message: "m".to_string() }, true),
        (LogEntry::Info { message: "m".to_string() }, false),
        (LogEntry::ConnectionEvent { event: "e".to_string(), url: "u".to_string() }, false),
    ] {
        match work_for(&Some(entry.clone()), 3) {
            Work::Write { line, echo: e } => {
                assert_eq!(line, format_entry(&entry, 3));
                assert_eq!(e, echo);
            }
            _ => panic!("nothing to write"),
        }
    }
    assert!(matches!(work_for(&None, 3), Work::Wait));
    assert!(matches!(work_for(&Some(LogEntry::Shutdown), 3), Work::Stop));
}

#[test]
fn entries_come_out_in_order() {
    let mut log = Logger::new();
    assert!(log.is_drained());
    assert!(matches!(log.consume(), Work::Wait));
    log.log_quote_written("A".to_string(), 1, 2, 3, 4);
    log.log_connection("up", "u");
    log.log_error("m", "c");
    log.log_warning("w");
    log.log_info("i");
    log.shutdown();
    assert!(!log.is_drained());
    write("[QUOTE] symbol=A symbol_id=1 bid=2 ask=3 ts_us=4", false, log.consume());
    write("[CONNECTION] up url=u", false, log.consume());
    write("[ERROR] m context=c", true, log.consume());
    write("[WARNING] w", true, log.consume());
    assert!(!log.is_drained());
    write("[INFO] i", false, log.consume());
    assert!(matches!(log.consume(), Work::Stop));
    assert!(log.is_drained());
}

#[test]
fn entries_are_taken_before_the_work_is_found() {
    let mut log = Logger::new();
    log.log_warning("w");
    let entry = log.take();
    assert!(log.is_drained());
    assert!(matches!(&entry, Some(LogEntry::Warning { message }) if message == "w"));
    write("[WARNING] w", true, work_now(&entry));
    assert!(log.take().is_none());
    assert!(matches!(work_now(&None), Work::Wait));
}

#[test]
fn full_queue_drops_new_entries() {
    let mut log = Logger::new();
    for n in 0..RING_BUFFER_SIZE + 3 {
        log.log_info(&format!("{}", n));
    }
    for n in 0..RING_BUFFER_SIZE {
        write(&format!("[INFO] {}", n), false, log.consume());
    }
    assert!(matches!(log.consume(), Work::Wait));
    log.log_info("again");
    write("[INFO] again", false, log.consume());
}
