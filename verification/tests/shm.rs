use binance_futures_writer::shm::{read_u64, ShmWriter, Store};

fn put(mem: &mut [u8], at: usize, v: u64) {
    mem[at..at + 8].copy_from_slice(&v.to_le_bytes());
}

fn table(n_sources: u64, n_symbols: u64) -> Vec<u8> {
    let mut mem = vec![0u8; 4096 + (n_sources * n_symbols * 64) as usize];
    let len = mem.len() as u64;
    mem[0..8].copy_from_slice(b"QSHM1\0\0\0");
    put(&mut mem, 8, 1);
    put(&mut mem, 16, 4096);
    put(&mut mem, 24, 64);
    put(&mut mem, 32, 4096);
    put(&mut mem, 40, 100_000_000);
    put(&mut mem, 48, 1_000_000);
    put(&mut mem, 56, n_sources);
    put(&mut mem, 64, n_symbols);
    put(&mut mem, 72, n_sources * n_symbols);
    put(&mut mem, 80, len);
    mem
}

fn open(mem: &[u8]) -> ShmWriter {
    assert!(ShmWriter::can_judge(mem, mem.len() as u64));
    match ShmWriter::open(mem, mem.len() as u64) {
        Ok(w) => w,
        Err(e) => panic!("{}", e),
    }
}

fn fault(mem: &[u8], size: u64) -> String {
    assert!(ShmWriter::can_judge(mem, size));
    match ShmWriter::open(mem, size) {
        Ok(_) => panic!("no fault"),
        Err(e) => e,
    }
}

fn store(mem: &mut [u8], s: &Store) {
    put(mem, s.offset as usize, s.value);
}

#[test]
fn each_field_of_the_header_is_checked() {
    let good = table(2, 3);
    let size = good.len() as u64;
    let mut bad = good.clone();
    bad[0] = b'X';
    assert_eq!(
        fault(&bad, size),
        "Invalid magic: expected [81, 83, 72, 77, 49, 0, 0, 0], got [88, 83, 72, 77, 49, 0, 0, 0]"
    );
    for (at, name, expected) in [
        (8, "version", 1u64),
        (16, "header_size", 4096),
        (24, "record_size", 64),
        (32, "records_offset", 4096),
        (40, "price_scale", 100_000_000),
        (48, "ts_scale", 1_000_000),
        (72, "n_records", 6),
    ] {
        let mut bad = good.clone();
        put(&mut bad, at, 5);
        assert_eq!(
            fault(&bad, size),
            format!("Invalid {}: expected {}, got 5", name, expected)
        );
    }
    assert_eq!(
        fault(&good, size + 1),
        format!("File size mismatch: expected {}, got {}", size, size + 1)
    );
}

#[test]
fn short_headers_are_refused() {
    let mem = table(1, 1);
    assert_eq!(fault(&mem[..87], 87), "Header too short: expected 88, got 87");
    assert_eq!(fault(&[], 0), "Header too short: expected 88, got 0");
    assert_eq!(fault(&mem[..88], 88), "File size mismatch: expected 4160, got 88");
}

#[test]
fn first_fault_is_reported() {
    let mut bad = table(1, 1);
    put(&mut bad, 48, 3);
    put(&mut bad, 24, 4);
    assert_eq!(fault(&bad, 1), "Invalid record_size: expected 64, got 4");
}

#[test]
fn headers_that_cannot_be_judged_are_told_apart() {
    let mut mem = table(1, 1);
    let size = mem.len() as u64;
    put(&mut mem, 56, u64::MAX);
    put(&mut mem, 64, 2);
    assert!(!ShmWriter::can_judge(&mem, size));
    assert!(ShmWriter::can_judge(&mem, size + 1));
    assert!(ShmWriter::can_judge(&mem[..87], size));
}

#[test]
fn slots_lie_one_behind_the_other() {
    let w = open(&table(2, 3));
    let mut expected = 4096;
    for source in 0..2 {
        for symbol in 0..3 {
            assert!(w.can_reach(source, symbol));
            assert_eq!(w.get_slot(source, symbol), Ok(expected));
            expected += 64;
        }
    }
}

#[test]
fn slots_out_of_range_are_refused() {
    let w = open(&table(2, 3));
    assert_eq!(w.get_slot(2, 9), Err("source_id 2 out of range (max 2)".to_string()));
    assert_eq!(w.get_slot(1, 3), Err("symbol_id 3 out of range (max 3)".to_string()));
    assert_eq!(
        w.write_quote(1, 3, 0, 0, 0, 0),
        Err("symbol_id 3 out of range (max 3)".to_string())
    );
}

#[test]
fn slots_beyond_the_address_space_are_told_apart() {
    let mut mem = table(1, 1);
    let size = mem.len() as u64;
    put(&mut mem, 56, 1);
    put(&mut mem, 64, u64::MAX);
    put(&mut mem, 72, u64::MAX);
    assert!(ShmWriter::can_judge(&mem, size));
    match ShmWriter::open(&mem, size) {
        Ok(w) => {
            assert!(w.can_reach(0, 1));
            assert!(!w.can_reach(0, u64::MAX - 1));
            assert!(w.can_reach(1, u64::MAX - 1));
        }
        Err(e) => panic!("{}", e),
    }
}

#[test]
fn quote_lands_in_its_slot() {
    let mut mem = table(2, 3);
    let w = open(&mem);
    let at = w.get_slot(1, 2).unwrap() as usize;
    let before = mem.clone();
    let stores = w.write_quote(1, 2, -5, i64::MAX, 1_700_000_000_000_000, read_u64(&mem, at)).unwrap();
    for s in &stores {
        store(&mut mem, s);
    }
    assert_eq!(read_u64(&mem, at), 2);
    assert_eq!(read_u64(&mem, at + 8), 1);
    assert_eq!(read_u64(&mem, at + 16), 2);
    assert_eq!(read_u64(&mem, at + 24) as i64, -5);
    assert_eq!(read_u64(&mem, at + 32) as i64, i64::MAX);
    assert_eq!(read_u64(&mem, at + 40) as i64, 1_700_000_000_000_000);
    assert_eq!(read_u64(&mem, at + 48), 0);
    assert_eq!(read_u64(&mem, at + 56), 0);
    assert_eq!(mem[..at], before[..at]);
    assert_eq!(mem[at + 64..], before[at + 64..]);
}

#[test]
fn sequence_number_is_odd_while_a_quote_is_under_way() {
    let mut mem = table(1, 1);
    let w = open(&mem);
    for round in 0..3u64 {
        let seq0 = read_u64(&mem, 4096);
        assert_eq!(seq0, 2 * round);
        let stores = w.write_quote(0, 0, 1, 2, 3, seq0).unwrap();
        assert!(stores[0].release && stores[8].release);
        assert!(stores[1..8].iter().all(|s| !s.release));
        for s in &stores[..8] {
            store(&mut mem, s);
            assert_eq!(read_u64(&mem, 4096), seq0 + 1);
        }
        store(&mut mem, &stores[8]);
    }
    assert_eq!(read_u64(&mem, 4096), 6);
}

#[test]
fn sequence_number_wraps() {
    let w = open(&table(1, 1));
    let stores = w.write_quote(0, 0, 1, 2, 3, u64::MAX - 1).unwrap();
    assert_eq!(stores[0].value, u64::MAX);
    assert_eq!(stores[8].value, 0);
}
