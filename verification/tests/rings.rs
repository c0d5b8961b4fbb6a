use binance_futures_writer::ring;
use binance_futures_writer::spsc_ring::{RingHeader, RingWriter};
use binance_futures_writer::spsc_writer::SpscWriter;

fn header(slots: u32) -> Vec<u8> {
    let mut mem = Vec::new();
    mem.extend_from_slice(&0x53505343u32.to_le_bytes());
    mem.extend_from_slice(&1u16.to_le_bytes());
    mem.extend_from_slice(&2u16.to_le_bytes());
    mem.extend_from_slice(&256u16.to_le_bytes());
    mem.extend_from_slice(&3u16.to_le_bytes());
    mem.extend_from_slice(&slots.to_le_bytes());
    mem.extend_from_slice(&4u64.to_le_bytes());
    mem.extend_from_slice(&5u64.to_le_bytes());
    mem
}

fn ring_memory(slots: u32) -> Vec<u8> {
    let mut mem = header(slots);
    mem.resize(128 + slots as usize * 256, 0);
    mem
}

fn ring_fault(mem: &[u8]) -> String {
    match RingWriter::open(mem) {
        Ok(_) => panic!("no fault"),
        Err(e) => e,
    }
}

fn writer(mem: &[u8]) -> RingWriter {
    match RingWriter::open(mem) {
        Ok(w) => w,
        Err(e) => panic!("{}", e),
    }
}

fn plain_memory(slots: u64) -> Vec<u8> {
    let mut mem = vec![0u8; 128 + slots as usize * 256];
    mem[16..24].copy_from_slice(&slots.to_le_bytes());
    mem
}

#[test]
fn powers_of_two_are_told() {
    for n in 0..5000u64 {
        assert_eq!(ring::is_power_of_two(n), n.is_power_of_two());
    }
    assert!(ring::is_power_of_two(1 << 63));
    assert!(!ring::is_power_of_two(u64::MAX));
}

#[test]
fn header_fields_are_read() {
    let h = RingHeader::read(&header(8));
    assert_eq!(
        h,
        RingHeader {
            magic: 0x53505343,
            abi_version: 1,
            layout_version: 2,
            msg_size: 256,
            flags: 3,
            ring_slots: 8,
            reserved0: 4,
            write_seq: 5,
        }
    );
}

#[test]
fn each_field_of_the_ring_header_is_checked() {
    let mut bad = header(8);
    bad[0] = 0;
    assert_eq!(ring_fault(&bad), "Invalid magic: expected 0x53505343, got 0x53505300");
    let mut bad = header(8);
    bad[4] = 2;
    assert_eq!(ring_fault(&bad), "Invalid abi_version: expected 1, got 2");
    let mut bad = header(8);
    bad[8] = 1;
    assert_eq!(ring_fault(&bad), "Invalid msg_size: expected 256, got 257");
    assert_eq!(ring_fault(&header(0)), "ring_slots must be power of 2, got 0");
    assert_eq!(ring_fault(&header(12)), "ring_slots must be power of 2, got 12");
}

#[test]
fn short_ring_headers_are_refused() {
    assert_eq!(ring_fault(&header(8)[..31]), "Header too short: expected 32, got 31");
    match SpscWriter::open(&plain_memory(1)[..127]) {
        Ok(_) => panic!("no fault"),
        Err(e) => assert_eq!(e, "Header too short: expected 128, got 127"),
    }
}

#[test]
fn messages_go_to_their_slots_in_turn() {
    let mut mem = ring_memory(4);
    let w = writer(&mem);
    let mut seq = 5u64;
    for n in 0..7u8 {
        assert!(w.can_publish(mem.len(), seq));
        assert_eq!(w.publish(&mut mem, seq, &[n + 1; 256]), Ok(seq + 1));
        seq += 1;
    }
    assert_eq!(mem[..32], header(4)[..]);
    assert!(mem[32..128].iter().all(|b| *b == 0));
    for (n, at) in [(4u8, 8u64), (5, 9), (6, 10), (7, 11)] {
        let slot = 128 + (at % 4) as usize * 256;
        assert_eq!(mem[slot..slot + 256], [n; 256][..]);
    }
}

#[test]
fn slots_without_a_message_stay() {
    let mut mem = ring_memory(4);
    for b in &mut mem[128..] {
        *b = 7;
    }
    let w = writer(&mem);
    assert_eq!(w.publish(&mut mem, 6, &[1; 256]), Ok(7));
    assert_eq!(w.publish(&mut mem, 7, &[2; 256]), Ok(8));
    assert_eq!(mem[128..640], [7; 512][..]);
    assert_eq!(mem[640..896], [1; 256][..]);
    assert_eq!(mem[896..], [2; 256][..]);
}

#[test]
fn only_the_low_bits_of_the_number_choose_the_slot() {
    let mut mem = ring_memory(2);
    let w = writer(&mem);
    assert_eq!(w.publish(&mut mem, 0x1_0000_0001, &[9; 256]), Ok(0x1_0000_0002));
    assert_eq!(mem[32..384], [0; 352][..]);
    assert_eq!(mem[384..], [9; 256][..]);
}

#[test]
fn numbers_without_a_slot_are_told_apart() {
    let mem = ring_memory(4);
    let w = writer(&mem);
    assert!(w.can_publish(mem.len(), 3));
    assert!(!w.can_publish(mem.len() - 1, 3));
    assert!(w.can_publish(mem.len() - 1, 2));
    assert!(!w.can_publish(mem.len(), u64::MAX));
}

#[test]
fn plain_ring_checks_its_slots() {
    for slots in [0u64, 3, 1000] {
        let mut mem = plain_memory(1);
        mem[16..24].copy_from_slice(&slots.to_le_bytes());
        match SpscWriter::open(&mem) {
            Ok(_) => panic!("no fault"),
            Err(e) => assert_eq!(e, format!("Invalid ring_slots: {}", slots)),
        }
    }
}

#[test]
fn plain_ring_takes_messages() {
    let mut mem = plain_memory(2);
    let before = mem.clone();
    let w = match SpscWriter::open(&mem) {
        Ok(w) => w,
        Err(e) => panic!("{}", e),
    };
    assert!(w.can_publish(mem.len(), 7));
    assert!(!w.can_publish(mem.len() - 1, 7));
    assert!(!w.can_publish(mem.len(), u64::MAX));
    assert_eq!(w.publish(&mut mem, 7, &[3; 256]), Ok(8));
    assert_eq!(mem[..384], before[..384]);
    assert_eq!(mem[384..], [3; 256][..]);
}

#[test]
fn texts_become_messages() {
    let msg = SpscWriter::create_message("héllo");
    assert_eq!(msg[..6], "héllo".as_bytes()[..]);
    assert!(msg[6..].iter().all(|b| *b == 0));
    let long = "x".repeat(300);
    assert_eq!(SpscWriter::create_message(&long), [b'x'; 256]);
    assert_eq!(SpscWriter::create_message(""), [0; 256]);
}
