[package]
name = "binance_futures_writer"
version = "0.1.0"
edition = "2021"
publish = false

[dependencies]
futures-util = "0.3"
memmap2 = "0.9"
ringbuf = "0.4"
serde = { version = "1", features = ["derive"] }
serde_json = "1"
tokio = { version = "1", features = ["macros", "rt-multi-thread", "time"] }
tokio-tungstenite = { version = "0.21", features = ["rustls-tls-webpki-roots"] }
