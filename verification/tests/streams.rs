use binance_futures_writer::streams::{split_symbols, stream_url};

fn names(n: usize) -> Vec<String> {
    (0..n).map(|i| format!("S{}", i)).collect()
}

#[test]
fn symbols_are_shared_out() {
    for n in [0usize, 1, 511, 512, 513, 1024, 1500] {
        let all = names(n);
        let parts = split_symbols(&all);
        assert_eq!(parts.concat(), all);
        let expected: Vec<Vec<String>> = all.chunks(512).map(|c| c.to_vec()).collect();
        assert_eq!(parts, expected);
    }
}

#[test]
fn address_names_the_streams() {
    let symbols = vec!["BTCUSDT".to_string(), "ETHUSDT".to_string()];
    assert_eq!(
        stream_url(&symbols),
        "wss://fstream.binance.com/stream?streams=btcusdt@bookTicker/ethusdt@bookTicker"
    );
    assert_eq!(
        stream_url(&symbols[..1]),
        "wss://fstream.binance.com/stream?streams=btcusdt@bookTicker"
    );
    assert_eq!(stream_url(&[]), "wss://fstream.binance.com/stream?streams=");
}
