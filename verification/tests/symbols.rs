use binance_futures_writer::symbols::{load_subscribe_list, validate_symbols, SymbolMapper};

fn lines(ls: &[&str]) -> Vec<Result<String, String>> {
    ls.iter().map(|l| Ok(l.to_string())).collect()
}

fn mapper(ls: &[&str]) -> SymbolMapper {
    match SymbolMapper::load_from_tsv(&lines(ls)) {
        Ok(m) => m,
        Err(e) => panic!("{}", e),
    }
}

fn fault(ls: &[Result<String, String>]) -> String {
    match SymbolMapper::load_from_tsv(ls) {
        Ok(_) => panic!("no fault"),
        Err(e) => e,
    }
}

#[test]
fn table_is_loaded() {
    let m = mapper(&["1\tBTCUSDT", "", "  2 \t ethusdt  ", "   "]);
    assert_eq!(m.len(), 2);
    assert_eq!(m.get_id("BTCUSDT"), Some(1));
    assert_eq!(m.get_id("ETHUSDT"), Some(2));
    assert_eq!(m.get_id("BNBUSDT"), None);
}

#[test]
fn case_does_not_matter() {
    let m = mapper(&["7\tstraße"]);
    assert_eq!(m.get_id("STRASSE"), Some(7));
    assert_eq!(m.get_id("Straße"), Some(7));
    assert_eq!(m.get_id("strasse"), Some(7));
}

#[test]
fn ascii_case_maps_letters_alone() {
    let all: String = (33u8..127).map(|b| b as char).collect();
    let m = mapper(&[&format!("7\t{}", all)]);
    assert_eq!(m.get_id(&all), Some(7));
    assert_eq!(m.get_id(&all.to_ascii_lowercase()), Some(7));
    assert_eq!(m.get_id(&all.to_ascii_uppercase()), Some(7));
    assert_eq!(load_subscribe_list(&lines(&[&all])), Ok(vec![all.to_ascii_uppercase()]));
}

#[test]
fn last_line_counts() {
    let m = mapper(&["1\tA", "2\tB", "3\ta"]);
    assert_eq!(m.len(), 2);
    assert_eq!(m.get_id("A"), Some(3));
    assert_eq!(m.get_id("B"), Some(2));
}

#[test]
fn number_may_have_a_plus_sign() {
    assert_eq!(mapper(&["+18446744073709551615\tA"]).get_id("a"), Some(u64::MAX));
}

#[test]
fn columns_are_counted() {
    assert_eq!(
        fault(&lines(&["1\tA", "", "BTCUSDT"])),
        "Invalid format at line 3: expected 2 columns, got 1"
    );
    assert_eq!(
        fault(&lines(&["1\tA\tB"])),
        "Invalid format at line 1: expected 2 columns, got 3"
    );
}

#[test]
fn bad_numbers_are_named() {
    for id in ["x", "-1", "18446744073709551616"] {
        let expected = id.parse::<u64>().unwrap_err();
        assert_eq!(
            fault(&lines(&["1\tA", &format!("{}\tB", id)])),
            format!("Invalid symbol_id at line 2: {}", expected)
        );
    }
}

#[test]
fn read_errors_are_named() {
    let ls = vec![Ok("1\tA".to_string()), Err("stream did not contain valid UTF-8".to_string())];
    assert_eq!(fault(&ls), "Error reading line 2: stream did not contain valid UTF-8");
}

#[test]
fn list_is_loaded() {
    let list = load_subscribe_list(&lines(&["btcusdt", "", " EthUsdt\r", "\t"]));
    assert_eq!(list, Ok(vec!["BTCUSDT".to_string(), "ETHUSDT".to_string()]));
    assert_eq!(load_subscribe_list(&[]), Ok(vec![]));
}

#[test]
fn list_read_errors_are_named() {
    let ls = vec![Ok("A".to_string()), Err("gone".to_string()), Ok("B".to_string())];
    assert_eq!(load_subscribe_list(&ls), Err("Error reading subscribe file: gone".to_string()));
}

#[test]
fn listed_symbols_get_their_numbers() {
    let m = mapper(&["1\tBTCUSDT", "2\tETHUSDT", "3\tBNBUSDT"]);
    let list = vec!["BTCUSDT".to_string(), "bnbusdt".to_string(), "BTCUSDT".to_string()];
    match validate_symbols(&list, &m) {
        Ok(ids) => {
            assert_eq!(ids.len(), 2);
            assert_eq!(ids.get("BTCUSDT"), Some(&1));
            assert_eq!(ids.get("bnbusdt"), Some(&3));
            assert_eq!(ids.get("BNBUSDT"), None);
        }
        Err(e) => panic!("{}", e),
    }
}

#[test]
fn first_missing_symbol_is_named() {
    let m = mapper(&["1\tBTCUSDT"]);
    let list = vec!["BTCUSDT".to_string(), "X".to_string(), "Y".to_string()];
    match validate_symbols(&list, &m) {
        Ok(_) => panic!("no fault"),
        Err(e) => assert_eq!(e, "Symbol X not found in symbols.tsv"),
    }
}
