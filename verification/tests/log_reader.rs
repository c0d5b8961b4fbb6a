use binance_futures_writer::log_reader::{show, MsgType, Poll, RingReader};

fn header(slots: u64) -> Vec<u8> {
    let mut mem = vec![0u8; 128];
    mem[0..4].copy_from_slice(&0x53505343u32.to_le_bytes());
    mem[4..6].copy_from_slice(&1u16.to_le_bytes());
    mem[6..8].copy_from_slice(&256u16.to_le_bytes());
    mem[8..16].copy_from_slice(&slots.to_le_bytes());
    mem
}

fn message(kind: u16, ts: i64, len: u32, body: &[u8]) -> Vec<u8> {
    let mut msg = vec![0u8; 256];
    msg[0..2].copy_from_slice(&1u16.to_le_bytes());
    msg[2..4].copy_from_slice(&kind.to_le_bytes());
    msg[4..6].copy_from_slice(&256u16.to_le_bytes());
    msg[8..16].copy_from_slice(&ts.to_le_bytes());
    msg[24..28].copy_from_slice(&len.to_le_bytes());
    msg[48..48 + body.len()].copy_from_slice(body);
    msg
}

fn fault(mem: &[u8]) -> String {
    match RingReader::open(mem, 0) {
        Ok(_) => panic!("no fault"),
        Err(e) => e,
    }
}

fn reader(mem: &[u8], write_seq: u64) -> RingReader {
    assert!(RingReader::can_open(mem));
    match RingReader::open(mem, write_seq) {
        Ok(r) => r,
        Err(e) => panic!("{}", e),
    }
}

#[test]
fn kinds_are_told_by_number() {
    assert_eq!(MsgType::from(1), MsgType::Info);
    assert_eq!(MsgType::from(2), MsgType::Warning);
    assert_eq!(MsgType::from(3), MsgType::Error);
    assert_eq!(MsgType::from(4), MsgType::Unknown(4));
    assert_eq!(MsgType::from(0), MsgType::Unknown(0));
}

#[test]
fn each_field_of_the_log_header_is_checked() {
    let mut bad = header(4);
    bad[3] = 0;
    assert_eq!(fault(&bad), "Invalid magic: expected 0x53505343, got 0x00505343");
    let mut bad = header(4);
    bad[4] = 9;
    assert_eq!(fault(&bad), "Invalid ABI version: expected 1, got 9");
    let mut bad = header(4);
    bad[6] = 8;
    assert_eq!(fault(&bad), "Invalid msg_size: expected 256, got 264");
}

#[test]
fn short_log_headers_are_refused() {
    assert!(RingReader::can_open(&header(4)[..127]));
    assert_eq!(fault(&header(4)[..127]), "Header too short: expected 128, got 127");
}

#[test]
fn rings_without_a_size_are_told_apart() {
    assert!(!RingReader::can_open(&header(0)));
    assert!(!RingReader::can_open(&header(u64::MAX)));
    assert!(RingReader::can_open(&header(8192)));
}

#[test]
fn banner_says_what_is_read() {
    let r = reader(&header(8192), 0);
    assert_eq!(
        r.banner("/dev/shm/x"),
        vec![
            "SPSC Ring Buffer Reader",
            "Path: /dev/shm/x",
            "Ring slots: 8192",
            "Message size: 256 bytes",
            "Total size: 2048 KB",
            "---",
        ]
    );
}

#[test]
fn messages_are_shown() {
    assert_eq!(
        show(&message(1, 1234567890123456, 5, b"hello!")),
        (None, Some("[1234567890123456] [INFO] hello".to_string()))
    );
    assert_eq!(show(&message(2, -1, 0, b"")), (None, Some("[-1] [WARN] ".to_string())));
    assert_eq!(
        show(&message(3, 0, 3, "ж1".as_bytes())),
        (None, Some("[0] [ERROR] ж1".to_string()))
    );
    assert_eq!(
        show(&message(77, 5, 1, b"x")),
        (Some("Unknown msg_type: 77".to_string()), Some("[5] [UNKNOWN] x".to_string()))
    );
}

#[test]
fn bytes_that_are_not_utf8_are_mended() {
    assert_eq!(
        show(&message(1, 1, 3, b"a\xffb")),
        (None, Some("[1] [INFO] a\u{fffd}b".to_string()))
    );
}

#[test]
fn text_is_at_most_208_bytes() {
    let expected = format!("[1] [INFO] {}", "y".repeat(208));
    assert_eq!(show(&message(1, 1, 208, &[b'y'; 208])), (None, Some(expected.clone())));
    assert_eq!(show(&message(1, 1, u32::MAX, &[b'y'; 208])), (None, Some(expected)));
}

#[test]
fn foreign_messages_are_passed_over() {
    let mut msg = message(1, 1, 1, b"x");
    msg[0] = 2;
    assert_eq!(show(&msg), (None, None));
    let mut msg = message(77, 1, 1, b"x");
    msg[4] = 1;
    assert_eq!(show(&msg), (None, None));
}

#[test]
fn reader_follows_the_writer() {
    let mut mem = header(2);
    mem.extend(message(1, 8, 1, b"a"));
    mem.extend(message(2, 9, 1, b"b"));
    let mut r = reader(&mem, 4);
    assert!(matches!(r.poll(&mem, 4), Poll::Idle));
    assert!(matches!(r.poll(&mem, 3), Poll::Idle));
    for (seq, text) in [(4u64, "[8] [INFO] a"), (5, "[9] [WARN] b"), (6, "[8] [INFO] a")] {
        assert!(r.can_poll(mem.len(), 7));
        match r.poll(&mem, 7) {
            Poll::Message { complaint, line, read_seq } => {
                assert_eq!(complaint, None);
                assert_eq!(line, Some(text.to_string()));
                assert_eq!(read_seq, seq + 1);
            }
            Poll::Idle => panic!("nothing to read"),
        }
    }
    assert!(matches!(r.poll(&mem, 7), Poll::Idle));
    assert!(r.can_poll(0, 7));
    assert!(!r.can_poll(mem.len() - 1, 8));
}
