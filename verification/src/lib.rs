//! Quote writer for a futures exchange: decimal prices, symbol tables, the
//! shared-memory quote table, the metrics ring and the connection loop.

pub mod bytes;
pub mod clock;
pub mod connection;
pub mod log_reader;
pub mod logger;
pub mod message_builder;
pub mod metrics;
pub mod price;
pub mod ring;
pub mod shm;
pub mod spsc_ring;
pub mod spsc_writer;
pub mod streams;
pub mod symbols;
pub mod text;
pub mod wire;
