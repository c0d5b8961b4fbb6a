use binance_futures_writer::text;

fn dec(n: u128) -> String {
    let mut s = String::from("n=");
    text::push_dec(&mut s, n);
    s
}

#[test]
fn decimal_numbers_are_printed() {
    assert_eq!(dec(0), "n=0");
    assert_eq!(dec(9), "n=9");
    assert_eq!(dec(10), "n=10");
    assert_eq!(dec(1234567890), "n=1234567890");
    assert_eq!(dec(u128::MAX), format!("n={}", u128::MAX));
}

#[test]
fn signed_numbers_are_printed() {
    for i in [0, 1, -1, 42, -42, i64::MAX, i64::MIN] {
        let mut s = String::new();
        text::push_dec_int(&mut s, i);
        assert_eq!(s, format!("{}", i));
    }
}

#[test]
fn hexadecimal_numbers_are_printed() {
    for n in [0u32, 1, 0xABCDEF, 0x53505343, u32::MAX] {
        let mut s = String::from("0x");
        text::push_hex(&mut s, n, 8);
        assert_eq!(s, format!("0x{:08X}", n));
    }
}

#[test]
fn byte_lists_are_printed() {
    let mut s = String::new();
    text::push_bracketed(&mut s, b"QSHM1\0\0\0");
    assert_eq!(s, "[81, 83, 72, 77, 49, 0, 0, 0]");
    let mut e = String::new();
    text::push_bracketed(&mut e, b"");
    assert_eq!(e, "[]");
}

#[test]
fn white_space_is_that_of_char() {
    for n in 0..=0x10FFFFu32 {
        if let Some(c) = char::from_u32(n) {
            assert_eq!(text::is_white(c), c.is_whitespace(), "{:?}", c);
        }
    }
}

#[test]
fn trimming_is_that_of_str() {
    for s in ["", " ", "a", " a", "a ", "\t a b \r\n", "\u{3000}x\u{2003}", "ж \u{85}"] {
        assert_eq!(text::trim(s), s.trim());
    }
}

#[test]
fn splitting_is_that_of_str() {
    for s in ["", "a", "a\tb", "\t", "a\t\tb", "ж\tя\t"] {
        let expected: Vec<String> = s.split('\t').map(String::from).collect();
        assert_eq!(text::split(s, '\t'), expected);
    }
}

#[test]
fn characters_are_those_of_str() {
    assert_eq!(text::to_chars("aж😀"), vec!['a', 'ж', '😀']);
}

#[test]
fn mismatches_are_printed() {
    assert_eq!(
        text::mismatch_text("Invalid record_size", 64, 65),
        "Invalid record_size: expected 64, got 65"
    );
    assert_eq!(
        text::magic_mismatch_text(0x53505343, 0xAB),
        "Invalid magic: expected 0x53505343, got 0x000000AB"
    );
}
