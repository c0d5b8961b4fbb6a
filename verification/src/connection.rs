//! The connection loop, as a machine: what happens outside comes in as an
//! event, and what is to be done next goes out.

use crate::bytes;
use crate::message_builder;
use crate::message_builder::{build_snapshot_start, event_error, snapshot_periodic};
use crate::metrics::{ErrorDomain, MessageType, Metrics, WsState};
use crate::metrics;
use crate::price;
use crate::symbols::SymbolMap;
use crate::text;
use vstd::arithmetic::power2::*;
use vstd::prelude::*;
use vstd::string::*;

verus! {

/// How far apart periodic messages are, in milliseconds.
pub const SNAPSHOT_INTERVAL_MS: u64 = 5000;

/// The number of this source in the quote table.
pub const SOURCE_ID: u64 = 1;

/// How long to wait before a connection is tried again, at first.
pub const FIRST_BACKOFF_MS: u64 = 200;

/// How long to wait before a connection is tried again, at most.
pub const MAX_BACKOFF_MS: u64 = 30_000;

/// The size of the ring that the start message reports.
pub const REPORTED_RING_SIZE: u32 = 1024;

/// Exit code: the quote table or the metrics ring cannot be used.
pub const EXIT_NO_TABLE: i32 = 1;

/// Exit code: a connection has ended.
pub const EXIT_CONNECTION: i32 = 2;

/// Exit code: the task of a connection has died.
pub const EXIT_TASK: i32 = 3;

/// Exit code: a quote for an unknown symbol came in.
pub const EXIT_UNKNOWN_SYMBOL: i32 = 10;

/// Exit code: a quote could not be written.
pub const EXIT_WRITE: i32 = 11;

/// Exit code: the symbol lists cannot be used.
pub const EXIT_SYMBOLS: i32 = 20;

/// Error code: a quote could not be written.
pub const ERROR_WRITE: i16 = -1;

/// Error code: a connection that stood is lost.
pub const ERROR_LOST: i16 = -2;

/// Error code: a connection does not come about.
pub const ERROR_REFUSED: i16 = -3;

/// A quote as it comes in.
#[derive(Debug, Clone)]
pub struct BookTickerData {
    pub symbol: String,
    pub bid: String,
    pub ask: String,
}

/// A quote and the stream that it came in on.
#[derive(Debug, Clone)]
pub struct BookTickerMessage {
    pub stream: String,
    pub data: BookTickerData,
}

/// What a connection is waiting for.
#[derive(Debug, Clone, Copy, PartialEq, Eq, Structural)]
pub enum Phase {
    /// The next attempt.
    Idle,
    /// The outcome of the attempt.
    Connecting,
    /// The next message, or the end of the stream.
    Receiving,
    /// What kind of message it is.
    Handling,
    /// The quote in the text that came in at the given time.
    Parsing { t_rx_ms: u64 },
    /// The outcome of writing the quote that came in at the given time.
    Writing { t_rx_ms: u64 },
    /// Nothing: the process ends.
    Ended,
}

/// What has happened outside. `now_ms` is the time at which it happened, and
/// `ts_ms` the time of the message that is published about it.
#[derive(Debug, Clone)]
pub enum Event {
    /// An attempt is due.
    Due { now_ms: u64 },
    /// The connection stands.
    Connected,
    /// The connection does not come about.
    Refused { now_ms: u64, ts_ms: u64 },
    /// A message, or an error in place of one, has come in.
    Arrived { now_ms: u64, ts_ms: u64 },
    /// There are no more messages.
    Exhausted { ts_ms: u64 },
    /// The message is a text of so many bytes.
    Text { now_ms: u64, len: u64 },
    /// The message is a ping or a pong.
    Heartbeat { now_ms: u64 },
    /// The message closes the connection, for the given reason.
    Closed { code: Option<u16>, ts_ms: u64 },
    /// It was an error.
    Broken { now_ms: u64, ts_ms: u64 },
    /// The message is of another kind.
    Other,
    /// The text holds a quote.
    Ticker { now_ms: u64, message: BookTickerMessage },
    /// The text does not hold a quote.
    Unreadable,
    /// The quote is in the table.
    Written { now_ms: u64 },
    /// The quote is not in the table.
    NotWritten { now_ms: u64, ts_ms: u64 },
}

/// What is to be done next.
#[derive(Debug, Clone, Copy, PartialEq, Eq, Structural)]
pub enum Next {
    /// Try to connect.
    Connect,
    /// Wait for a message.
    Receive,
    /// Tell what the message is.
    Handle,
    /// Look for a quote in the text.
    Parse,
    /// Write a quote into the table, with [`SOURCE_ID`] and the current time.
    Write { symbol_id: u64, bid: i64, ask: i64 },
    /// Wait so many milliseconds, then make the next attempt.
    Wait { ms: u64 },
    /// End the process with this code.
    Exit { code: i32 },
}

/// State of a connection.
#[derive(Debug, Clone, Copy, PartialEq, Eq, Structural)]
pub struct Connection {
    pub phase: Phase,
    pub backoff_ms: u64,
    pub next_snapshot_ms: u64,
}

/// The outcome of a step: the message to publish, if any, and what is to be
/// done next.
pub struct Step {
    pub publish: Option<[u8; 256]>,
    pub next: Next,
}

/// All that a step leaves behind.
pub ghost struct Outcome {
    pub conn: Connection,
    pub metrics: Metrics,
    pub publish: Option<Seq<u8>>,
    pub next: Next,
}

impl Connection {
    /// The wait before the next attempt is within its limits.
    pub open spec fn wf(self) -> bool {
        FIRST_BACKOFF_MS <= self.backoff_ms <= MAX_BACKOFF_MS
    }

    pub open spec fn in_phase(self, phase: Phase) -> Self {
        Connection { phase, ..self }
    }

    /// The connection while it waits for the next attempt: the wait behind that
    /// one is twice as long, up to the limit.
    pub open spec fn backed_off(self) -> Self {
        Connection { phase: Phase::Idle, backoff_ms: doubled(self.backoff_ms), ..self }
    }
}

/// Twice as long a wait, up to the limit.
pub open spec fn doubled(backoff_ms: u64) -> u64 {
    if 2 * backoff_ms <= MAX_BACKOFF_MS {
        (2 * backoff_ms) as u64
    } else {
        MAX_BACKOFF_MS
    }
}

/// The time between two readings of the clock, in the lowest 32 bits. A clock
/// that has been set back gives a number close to `2^32`.
pub open spec fn latency(from_ms: u64, to_ms: u64) -> u32 {
    ((to_ms - from_ms) % 0x1_0000_0000) as u32
}

/// The time between two readings of the clock.
fn latency_ms(from_ms: u64, to_ms: u64) -> (r: u32)
    ensures
        r == latency(from_ms, to_ms),
{
    (to_ms.wrapping_sub(from_ms) % 0x1_0000_0000) as u32
}

/// The outcome of a step that changes no more than the phase and the metrics.
pub open spec fn quiet(c: Connection, m: Metrics, phase: Phase, next: Next) -> Outcome {
    Outcome { conn: c.in_phase(phase), metrics: m, publish: None, next }
}

/// The outcome where a connection that stood is lost.
pub open spec fn lost(c: Connection, m: Metrics, pid: u32, ts_ms: u64) -> Outcome {
    let after = Metrics {
        ws_reconnect_total: (m.ws_reconnect_total + 1) as u32,
        log_seq: (m.log_seq + 1) as u64,
        ..m
    };
    Outcome {
        conn: c.backed_off(),
        metrics: after,
        publish: Some(
            message_builder::error_message(
                after,
                ErrorDomain::WS,
                ERROR_LOST,
                0,
                0,
                after.session_id as u64,
                pid,
                ts_ms,
            ),
        ),
        next: Next::Wait { ms: c.backoff_ms },
    }
}

/// The outcome where a text holds a quote.
pub open spec fn ticked(
    c: Connection,
    m: Metrics,
    symbols: Map<Seq<char>, u64>,
    now_ms: u64,
    t_rx_ms: u64,
    data: BookTickerData,
) -> Outcome {
    if !symbols.contains_key(data.symbol@) {
        quiet(c, m, Phase::Ended, Next::Exit { code: EXIT_UNKNOWN_SYMBOL })
    } else {
        let counted = Metrics {
            ws_last_data_rx_ms: now_ms,
            ws_rx_msgs_total: (m.ws_rx_msgs_total + 1) as u64,
            ..m
        };
        match (
            price::decimal(data.bid@, price::PRICE_SCALE as int),
            price::decimal(data.ask@, price::PRICE_SCALE as int),
        ) {
            (price::Reading::Value(bid), price::Reading::Value(ask)) => quiet(
                c,
                counted,
                Phase::Writing { t_rx_ms },
                Next::Write {
                    symbol_id: symbols[data.symbol@],
                    bid: bid as i64,
                    ask: ask as i64,
                },
            ),
            _ => quiet(
                c,
                Metrics {
                    ws_parse_error_total: (counted.ws_parse_error_total + 1) as u32,
                    ..counted
                },
                Phase::Receiving,
                Next::Receive,
            ),
        }
    }
}

/// What an event leads to.
pub open spec fn outcome(
    c: Connection,
    m: Metrics,
    event: Event,
    symbols: Map<Seq<char>, u64>,
    pid: u32,
) -> Outcome {
    match event {
        Event::Due { now_ms } => quiet(
            c,
            Metrics { ws_state: WsState::Connecting, ..m.in_next_session(now_ms) },
            Phase::Connecting,
            Next::Connect,
        ),
        Event::Connected => quiet(
            Connection { backoff_ms: FIRST_BACKOFF_MS, ..c },
            Metrics { ws_state: WsState::Running, ..m },
            Phase::Receiving,
            Next::Receive,
        ),
        Event::Refused { now_ms, ts_ms } => {
            let after = Metrics {
                ws_handshake_fail_total: (m.ws_handshake_fail_total + 1) as u32,
                ws_last_error_ms: now_ms,
                log_seq: (m.log_seq + 1) as u64,
                ..m
            };
            Outcome {
                conn: c.backed_off(),
                metrics: after,
                publish: Some(
                    message_builder::error_message(
                        after,
                        ErrorDomain::WS,
                        ERROR_REFUSED,
                        0,
                        0,
                        0,
                        pid,
                        ts_ms,
                    ),
                ),
                next: Next::Wait { ms: c.backoff_ms },
            }
        },
        Event::Arrived { now_ms, ts_ms } => {
            if now_ms >= c.next_snapshot_ms {
                let counted = Metrics { log_seq: (m.log_seq + 1) as u64, ..m };
                Outcome {
                    conn: Connection {
                        phase: Phase::Handling,
                        next_snapshot_ms: (c.next_snapshot_ms + SNAPSHOT_INTERVAL_MS) as u64,
                        ..c
                    },
                    metrics: message_builder::reported(counted),
                    publish: Some(message_builder::periodic_message(counted, pid, ts_ms)),
                    next: Next::Handle,
                }
            } else {
                quiet(c, m, Phase::Handling, Next::Handle)
            }
        },
        Event::Exhausted { ts_ms } => lost(c, m, pid, ts_ms),
        Event::Text { now_ms, len } => quiet(
            c,
            Metrics {
                ws_last_frame_rx_ms: now_ms,
                ws_rx_frames_total: (m.ws_rx_frames_total + 1) as u64,
                ws_rx_bytes_total: (m.ws_rx_bytes_total + len) as u64,
                ..m
            },
            Phase::Parsing { t_rx_ms: now_ms },
            Next::Parse,
        ),
        Event::Heartbeat { now_ms } => quiet(
            c,
            Metrics {
                ws_last_frame_rx_ms: now_ms,
                ws_rx_frames_total: (m.ws_rx_frames_total + 1) as u64,
                ..m
            },
            Phase::Receiving,
            Next::Receive,
        ),
        Event::Closed { code, ts_ms } => lost(
            c,
            Metrics {
                ws_disconnect_total: (m.ws_disconnect_total + 1) as u32,
                ws_last_close_code: match code {
                    Some(code) => code,
                    None => 0,
                },
                ws_state: WsState::Reconnecting,
                ..m
            },
            pid,
            ts_ms,
        ),
        Event::Broken { now_ms, ts_ms } => lost(
            c,
            Metrics {
                ws_protocol_error_total: (m.ws_protocol_error_total + 1) as u32,
                ws_last_error_ms: now_ms,
                ws_state: WsState::Reconnecting,
                ..m
            },
            pid,
            ts_ms,
        ),
        Event::Other => quiet(c, m, Phase::Receiving, Next::Receive),
        Event::Ticker { now_ms, message } => ticked(
            c,
            m,
            symbols,
            now_ms,
            c.phase->Parsing_t_rx_ms,
            message.data,
        ),
        Event::Unreadable => quiet(
            c,
            Metrics { ws_parse_error_total: (m.ws_parse_error_total + 1) as u32, ..m },
            Phase::Receiving,
            Next::Receive,
        ),
        Event::Written { now_ms } => quiet(
            c,
            Metrics {
                shm_write_ok_total: (m.shm_write_ok_total + 1) as u64,
                shm_last_write_ok_ms: now_ms,
                lat_rx_to_written: m.lat_rx_to_written.with(
                    latency(c.phase->Writing_t_rx_ms, now_ms),
                ),
                ..m
            },
            Phase::Receiving,
            Next::Receive,
        ),
        Event::NotWritten { now_ms, ts_ms } => {
            let after = Metrics {
                shm_write_fail_total: (m.shm_write_fail_total + 1) as u32,
                shm_last_write_fail_ms: now_ms,
                ws_last_error_code: ERROR_WRITE as i32,
                log_seq: (m.log_seq + 1) as u64,
                ..m
            };
            Outcome {
                conn: c.in_phase(Phase::Ended),
                metrics: after,
                publish: Some(
                    message_builder::error_message(
                        after,
                        ErrorDomain::SHM,
                        ERROR_WRITE,
                        0,
                        0,
                        0,
                        pid,
                        ts_ms,
                    ),
                ),
                next: Next::Exit { code: EXIT_WRITE },
            }
        },
    }
}

/// Whether a lost connection can be counted.
pub open spec fn can_lose(m: Metrics) -> bool {
    m.ws_reconnect_total < u32::MAX && m.log_seq < u64::MAX
}

/// Whether a quote can be taken up: unless its symbol is unknown, its prices
/// are within what can be read, and can be counted.
pub open spec fn can_tick(m: Metrics, symbols: Map<Seq<char>, u64>, data: BookTickerData) -> bool {
    symbols.contains_key(data.symbol@) ==> {
        let bid = price::decimal(data.bid@, price::PRICE_SCALE as int);
        let ask = price::decimal(data.ask@, price::PRICE_SCALE as int);
        &&& m.ws_rx_msgs_total < u64::MAX
        &&& !(bid is Undefined)
        &&& !(ask is Undefined)
        &&& bid is Value && ask is Value || m.ws_parse_error_total < u32::MAX
    }
}

/// Whether an event is one that the connection waits for, and no number is at
/// its end that has to be counted up.
pub open spec fn defined(
    c: Connection,
    m: Metrics,
    event: Event,
    symbols: Map<Seq<char>, u64>,
) -> bool {
    match event {
        Event::Due { .. } => c.phase is Idle && m.session_id < u32::MAX,
        Event::Connected => c.phase is Connecting,
        Event::Refused { .. } => {
            &&& c.phase is Connecting
            &&& m.ws_handshake_fail_total < u32::MAX
            &&& m.log_seq < u64::MAX
        },
        Event::Arrived { now_ms, .. } => {
            &&& c.phase is Receiving
            &&& now_ms >= c.next_snapshot_ms ==> {
                &&& m.coherent()
                &&& m.log_seq < u64::MAX
                &&& c.next_snapshot_ms + SNAPSHOT_INTERVAL_MS <= u64::MAX
            }
        },
        Event::Exhausted { .. } => c.phase is Receiving && can_lose(m),
        Event::Text { len, .. } => {
            &&& c.phase is Handling
            &&& m.ws_rx_frames_total < u64::MAX
            &&& m.ws_rx_bytes_total + len <= u64::MAX
        },
        Event::Heartbeat { .. } => c.phase is Handling && m.ws_rx_frames_total < u64::MAX,
        Event::Closed { .. } => {
            &&& c.phase is Handling
            &&& m.ws_disconnect_total < u32::MAX
            &&& can_lose(m)
        },
        Event::Broken { .. } => {
            &&& c.phase is Handling
            &&& m.ws_protocol_error_total < u32::MAX
            &&& can_lose(m)
        },
        Event::Other => c.phase is Handling,
        Event::Ticker { message, .. } => c.phase is Parsing && can_tick(m, symbols, message.data),
        Event::Unreadable => c.phase is Parsing && m.ws_parse_error_total < u32::MAX,
        Event::Written { now_ms } => {
            &&& c.phase is Writing
            &&& m.shm_write_ok_total < u64::MAX
            &&& m.lat_rx_to_written.has_room(latency(c.phase->Writing_t_rx_ms, now_ms))
        },
        Event::NotWritten { .. } => {
            &&& c.phase is Writing
            &&& m.shm_write_fail_total < u32::MAX
            &&& m.log_seq < u64::MAX
        },
    }
}

/// Whether a step has this outcome.
pub open spec fn agrees(step: Step, conn: Connection, metrics: Metrics, o: Outcome) -> bool {
    &&& conn == o.conn
    &&& metrics == o.metrics
    &&& step.next == o.next
    &&& match step.publish {
        Some(msg) => o.publish == Some(msg@),
        None => o.publish is None,
    }
}

impl Connection {
    /// A connection that is about to be tried for the first time.
    pub fn new(now_ms: u64) -> (r: Self)
        requires
            now_ms + SNAPSHOT_INTERVAL_MS <= u64::MAX,
        ensures
            r == (Connection {
                phase: Phase::Idle,
                backoff_ms: FIRST_BACKOFF_MS,
                next_snapshot_ms: (now_ms + SNAPSHOT_INTERVAL_MS) as u64,
            }),
            r.wf(),
    {
        Connection {
            phase: Phase::Idle,
            backoff_ms: FIRST_BACKOFF_MS,
            next_snapshot_ms: now_ms + SNAPSHOT_INTERVAL_MS,
        }
    }

    /// Goes over to the wait before the next attempt.
    fn back_off(&mut self) -> (r: Next)
        requires
            old(self).wf(),
        ensures
            *final(self) == old(self).backed_off(),
            final(self).wf(),
            r == (Next::Wait { ms: old(self).backoff_ms }),
    {
        let ms: u64 = self.backoff_ms;
        self.phase = Phase::Idle;
        self.backoff_ms = if ms * 2 <= MAX_BACKOFF_MS {
            ms * 2
        } else {
            MAX_BACKOFF_MS
        };
        Next::Wait { ms }
    }

    /// Counts a connection that is lost.
    fn lose(&mut self, m: &mut Metrics, pid: u32, ts_ms: u64) -> (r: Step)
        requires
            old(self).wf(),
            can_lose(*old(m)),
        ensures
            agrees(r, *final(self), *final(m), lost(*old(self), *old(m), pid, ts_ms)),
            final(self).wf(),
    {
        m.ws_reconnect_total = m.ws_reconnect_total + 1;
        m.log_seq = m.log_seq + 1;
        let msg: [u8; 256] = event_error(
            m,
            ErrorDomain::WS,
            ERROR_LOST,
            0,
            0,
            m.session_id as u64,
            pid,
            ts_ms,
        );
        let next: Next = self.back_off();
        Step { publish: Some(msg), next }
    }

    /// Takes up a quote.
    fn tick(
        &mut self,
        m: &mut Metrics,
        symbols: &SymbolMap,
        now_ms: u64,
        t_rx_ms: u64,
        data: &BookTickerData,
    ) -> (r: Step)
        requires
            can_tick(*old(m), symbols@, *data),
        ensures
            agrees(
                r,
                *final(self),
                *final(m),
                ticked(*old(self), *old(m), symbols@, now_ms, t_rx_ms, *data),
            ),
    {
        let symbol_id: u64 = match symbols.get(data.symbol.as_str()) {
            Some(id) => *id,
            None => {
                self.phase = Phase::Ended;
                return Step { publish: None, next: Next::Exit { code: EXIT_UNKNOWN_SYMBOL } };
            },
        };
        m.ws_last_data_rx_ms = now_ms;
        m.ws_rx_msgs_total = m.ws_rx_msgs_total + 1;
        let bid: Result<i64, String> = price::parse_decimal_to_scaled(
            data.bid.as_str(),
            price::PRICE_SCALE,
        );
        let ask: Result<i64, String> = price::parse_decimal_to_scaled(
            data.ask.as_str(),
            price::PRICE_SCALE,
        );
        match (bid, ask) {
            (Ok(bid), Ok(ask)) => {
                self.phase = Phase::Writing { t_rx_ms };
                Step { publish: None, next: Next::Write { symbol_id, bid, ask } }
            },
            _ => {
                m.ws_parse_error_total = m.ws_parse_error_total + 1;
                self.phase = Phase::Receiving;
                Step { publish: None, next: Next::Receive }
            },
        }
    }

    /// Takes up an event.
    pub fn step(&mut self, m: &mut Metrics, event: &Event, symbols: &SymbolMap, pid: u32) -> (r:
        Step)
        requires
            old(self).wf(),
            defined(*old(self), *old(m), *event, symbols@),
        ensures
            agrees(
                r,
                *final(self),
                *final(m),
                outcome(*old(self), *old(m), *event, symbols@, pid),
            ),
            final(self).wf(),
            old(m).coherent() ==> final(m).coherent(),
    {
        match event {
            Event::Due { now_ms } => {
                m.start_session(*now_ms);
                m.ws_state = WsState::Connecting;
                self.phase = Phase::Connecting;
                Step { publish: None, next: Next::Connect }
            },
            Event::Connected => {
                m.ws_state = WsState::Running;
                self.backoff_ms = FIRST_BACKOFF_MS;
                self.phase = Phase::Receiving;
                Step { publish: None, next: Next::Receive }
            },
            Event::Refused { now_ms, ts_ms } => {
                m.ws_handshake_fail_total = m.ws_handshake_fail_total + 1;
                m.ws_last_error_ms = *now_ms;
                m.log_seq = m.log_seq + 1;
                let msg: [u8; 256] = event_error(m, ErrorDomain::WS, ERROR_REFUSED, 0, 0, 0, pid, *ts_ms);
                let next: Next = self.back_off();
                Step { publish: Some(msg), next }
            },
            Event::Arrived { now_ms, ts_ms } => {
                self.phase = Phase::Handling;
                if *now_ms >= self.next_snapshot_ms {
                    m.log_seq = m.log_seq + 1;
                    let msg: [u8; 256] = snapshot_periodic(m, pid, *ts_ms);
                    self.next_snapshot_ms = self.next_snapshot_ms + SNAPSHOT_INTERVAL_MS;
                    Step { publish: Some(msg), next: Next::Handle }
                } else {
                    Step { publish: None, next: Next::Handle }
                }
            },
            Event::Exhausted { ts_ms } => self.lose(m, pid, *ts_ms),
            Event::Text { now_ms, len } => {
                m.ws_last_frame_rx_ms = *now_ms;
                m.ws_rx_frames_total = m.ws_rx_frames_total + 1;
                m.ws_rx_bytes_total = m.ws_rx_bytes_total + *len;
                self.phase = Phase::Parsing { t_rx_ms: *now_ms };
                Step { publish: None, next: Next::Parse }
            },
            Event::Heartbeat { now_ms } => {
                m.ws_last_frame_rx_ms = *now_ms;
                m.ws_rx_frames_total = m.ws_rx_frames_total + 1;
                self.phase = Phase::Receiving;
                Step { publish: None, next: Next::Receive }
            },
            Event::Closed { code, ts_ms } => {
                m.ws_disconnect_total = m.ws_disconnect_total + 1;
                m.ws_last_close_code = match code {
                    Some(code) => *code,
                    None => 0,
                };
                m.ws_state = WsState::Reconnecting;
                self.lose(m, pid, *ts_ms)
            },
            Event::Broken { now_ms, ts_ms } => {
                m.ws_protocol_error_total = m.ws_protocol_error_total + 1;
                m.ws_last_error_ms = *now_ms;
                m.ws_state = WsState::Reconnecting;
                self.lose(m, pid, *ts_ms)
            },
            Event::Other => {
                self.phase = Phase::Receiving;
                Step { publish: None, next: Next::Receive }
            },
            Event::Ticker { now_ms, message } => {
                let t_rx_ms: u64 = match self.phase {
                    Phase::Parsing { t_rx_ms } => t_rx_ms,
                    _ => 0,
                };
                self.tick(m, symbols, *now_ms, t_rx_ms, &message.data)
            },
            Event::Unreadable => {
                m.ws_parse_error_total = m.ws_parse_error_total + 1;
                self.phase = Phase::Receiving;
                Step { publish: None, next: Next::Receive }
            },
            Event::Written { now_ms } => {
                let t_rx_ms: u64 = match self.phase {
                    Phase::Writing { t_rx_ms } => t_rx_ms,
                    _ => 0,
                };
                m.shm_write_ok_total = m.shm_write_ok_total + 1;
                m.shm_last_write_ok_ms = *now_ms;
                m.lat_rx_to_written.record(latency_ms(t_rx_ms, *now_ms));
                self.phase = Phase::Receiving;
                Step { publish: None, next: Next::Receive }
            },
            Event::NotWritten { now_ms, ts_ms } => {
                m.shm_write_fail_total = m.shm_write_fail_total + 1;
                m.shm_last_write_fail_ms = *now_ms;
                m.ws_last_error_code = ERROR_WRITE as i32;
                m.log_seq = m.log_seq + 1;
                let msg: [u8; 256] = event_error(m, ErrorDomain::SHM, ERROR_WRITE, 0, 0, 0, pid, *ts_ms);
                self.phase = Phase::Ended;
                Step { publish: Some(msg), next: Next::Exit { code: EXIT_WRITE } }
            },
        }
    }
}

/// Whether a lost connection can be counted.
fn check_lose(m: &Metrics) -> (b: bool)
    ensures
        b == can_lose(*m),
{
    m.ws_reconnect_total < u32::MAX && m.log_seq < u64::MAX
}

/// Whether a text gives a number, or `None` where it is outside what can be
/// read.
fn check_price(s: &str) -> (r: Option<bool>)
    ensures
        ({
            let d = price::decimal(s@, price::PRICE_SCALE as int);
            r == if d is Undefined {
                None
            } else {
                Some(d is Value)
            }
        }),
{
    if price::has_reading(s, price::PRICE_SCALE) {
        Some(price::parse_decimal_to_scaled(s, price::PRICE_SCALE).is_ok())
    } else {
        None
    }
}

/// Whether a quote can be taken up.
fn check_tick(m: &Metrics, symbols: &SymbolMap, data: &BookTickerData) -> (b: bool)
    ensures
        b == can_tick(*m, symbols@, *data),
{
    if !symbols.contains_key(data.symbol.as_str()) {
        return true;
    }
    match (check_price(data.bid.as_str()), check_price(data.ask.as_str())) {
        (Some(bid), Some(ask)) => m.ws_rx_msgs_total < u64::MAX && (bid && ask
            || m.ws_parse_error_total < u32::MAX),
        _ => false,
    }
}

impl Connection {
    /// Whether an event can be taken up: what [`Self::step`] asks.
    pub fn accepts(&self, m: &Metrics, event: &Event, symbols: &SymbolMap) -> (b: bool)
        ensures
            b == (self.wf() && defined(*self, *m, *event, symbols@)),
    {
        if self.backoff_ms < FIRST_BACKOFF_MS || self.backoff_ms > MAX_BACKOFF_MS {
            return false;
        }
        match (self.phase, event) {
            (Phase::Idle, Event::Due { .. }) => m.session_id < u32::MAX,
            (Phase::Connecting, Event::Connected) => true,
            (Phase::Connecting, Event::Refused { .. }) => m.ws_handshake_fail_total < u32::MAX
                && m.log_seq < u64::MAX,
            (Phase::Receiving, Event::Arrived { now_ms, .. }) => {
                *now_ms < self.next_snapshot_ms || m.is_coherent() && m.log_seq < u64::MAX
                    && self.next_snapshot_ms <= u64::MAX - SNAPSHOT_INTERVAL_MS
            },
            (Phase::Receiving, Event::Exhausted { .. }) => check_lose(m),
            (Phase::Handling, Event::Text { len, .. }) => m.ws_rx_frames_total < u64::MAX
                && m.ws_rx_bytes_total <= u64::MAX - *len,
            (Phase::Handling, Event::Heartbeat { .. }) => m.ws_rx_frames_total < u64::MAX,
            (Phase::Handling, Event::Closed { .. }) => m.ws_disconnect_total < u32::MAX
                && check_lose(m),
            (Phase::Handling, Event::Broken { .. }) => m.ws_protocol_error_total < u32::MAX
                && check_lose(m),
            (Phase::Handling, Event::Other) => true,
            (Phase::Parsing { .. }, Event::Ticker { message, .. }) => check_tick(
                m,
                symbols,
                &message.data,
            ),
            (Phase::Parsing { .. }, Event::Unreadable) => m.ws_parse_error_total < u32::MAX,
            (Phase::Writing { t_rx_ms }, Event::Written { now_ms }) => {
                m.shm_write_ok_total < u64::MAX && m.lat_rx_to_written.can_record(
                    latency_ms(t_rx_ms, *now_ms),
                )
            },
            (Phase::Writing { .. }, Event::NotWritten { .. }) => m.shm_write_fail_total < u32::MAX
                && m.log_seq < u64::MAX,
            _ => false,
        }
    }
}

/// The metrics with one more message counted.
pub open spec fn numbered(m: Metrics) -> Metrics {
    Metrics { log_seq: (m.log_seq + 1) as u64, ..m }
}

/// The first message, which reports how many symbols there are, in the lowest
/// 32 bits.
pub fn announce(m: &mut Metrics, symbols: usize, ws_url: &str, pid: u32) -> (r: [u8; 256])
    requires
        old(m).log_seq < u64::MAX,
    ensures
        *final(m) == numbered(*old(m)),
        exists|ts_ms: u64|
            r@ == #[trigger] message_builder::start_message(
                *final(m),
                (symbols as int % 0x1_0000_0000) as u32,
                message_builder::default_hash(message_builder::PKG_VERSION@),
                message_builder::default_hash(ws_url@),
                REPORTED_RING_SIZE,
                pid,
                ts_ms,
            ),
{
    m.log_seq = m.log_seq + 1;
    let count: u32 = (symbols as u64 % 0x1_0000_0000) as u32;
    build_snapshot_start(m, count, ws_url, REPORTED_RING_SIZE, pid)
}

/// The connections of a process, and the metrics that they share.
pub ghost struct Fleet {
    pub conns: Seq<Connection>,
    pub metrics: Metrics,
}

/// The fleet behind a run of events, each with the place of the connection that
/// it happened to.
pub open spec fn after(
    fleet: Fleet,
    events: Seq<(int, Event)>,
    symbols: Map<Seq<char>, u64>,
    pid: u32,
) -> Fleet
    decreases events.len(),
{
    if events.len() == 0 {
        fleet
    } else {
        let (j, event) = events.last();
        let before = after(fleet, events.drop_last(), symbols, pid);
        let o = outcome(before.conns[j], before.metrics, event, symbols, pid);
        Fleet { conns: before.conns.update(j, o.conn), metrics: o.metrics }
    }
}

/// The messages that a run of events has published.
pub open spec fn sent(
    fleet: Fleet,
    events: Seq<(int, Event)>,
    symbols: Map<Seq<char>, u64>,
    pid: u32,
) -> Seq<Seq<u8>>
    decreases events.len(),
{
    if events.len() == 0 {
        Seq::empty()
    } else {
        let (j, event) = events.last();
        let msgs = sent(fleet, events.drop_last(), symbols, pid);
        let before = after(fleet, events.drop_last(), symbols, pid);
        match outcome(before.conns[j], before.metrics, event, symbols, pid).publish {
            Some(msg) => msgs.push(msg),
            None => msgs,
        }
    }
}

/// Whether each event of a run happens to a connection of the fleet and can be
/// taken up when it comes.
pub open spec fn all_defined(
    fleet: Fleet,
    events: Seq<(int, Event)>,
    symbols: Map<Seq<char>, u64>,
    pid: u32,
) -> bool
    decreases events.len(),
{
    events.len() == 0 || {
        let (j, event) = events.last();
        let before = after(fleet, events.drop_last(), symbols, pid);
        &&& all_defined(fleet, events.drop_last(), symbols, pid)
        &&& 0 <= j < fleet.conns.len()
        &&& defined(before.conns[j], before.metrics, event, symbols)
    }
}

/// A run of events neither adds connections nor takes any away.
#[verifier::spinoff_prover]
proof fn lemma_fleet_size(
    fleet: Fleet,
    events: Seq<(int, Event)>,
    symbols: Map<Seq<char>, u64>,
    pid: u32,
)
    requires
        all_defined(fleet, events, symbols, pid),
    ensures
        after(fleet, events, symbols, pid).conns.len() == fleet.conns.len(),
    decreases events.len(),
{
    if events.len() > 0 {
        lemma_fleet_size(fleet, events.drop_last(), symbols, pid);
    }
}

/// No total of `m` is above that of `n`.
pub open spec fn counted_on(m: Metrics, n: Metrics) -> bool {
    &&& m.session_id <= n.session_id
    &&& m.ws_rx_frames_total <= n.ws_rx_frames_total
    &&& m.ws_rx_bytes_total <= n.ws_rx_bytes_total
    &&& m.ws_rx_msgs_total <= n.ws_rx_msgs_total
    &&& m.ws_reconnect_total <= n.ws_reconnect_total
    &&& m.ws_disconnect_total <= n.ws_disconnect_total
    &&& m.ws_handshake_fail_total <= n.ws_handshake_fail_total
    &&& m.ws_subscribe_ok_total <= n.ws_subscribe_ok_total
    &&& m.ws_subscribe_fail_total <= n.ws_subscribe_fail_total
    &&& m.ws_parse_error_total <= n.ws_parse_error_total
    &&& m.ws_protocol_error_total <= n.ws_protocol_error_total
    &&& m.shm_write_ok_total <= n.shm_write_ok_total
    &&& m.shm_write_fail_total <= n.shm_write_fail_total
    &&& m.log_seq <= n.log_seq
}

/// One event lets no total go down, and keeps the metrics coherent and the wait
/// within its limits.
#[verifier::spinoff_prover]
proof fn lemma_event_counts_on(
    c: Connection,
    m: Metrics,
    event: Event,
    symbols: Map<Seq<char>, u64>,
    pid: u32,
)
    requires
        c.wf(),
        m.coherent(),
        defined(c, m, event, symbols),
    ensures
        outcome(c, m, event, symbols, pid).conn.wf(),
        outcome(c, m, event, symbols, pid).metrics.coherent(),
        counted_on(m, outcome(c, m, event, symbols, pid).metrics),
{
    match event {
        Event::Due { .. } => {},
        Event::Connected => {},
        Event::Refused { .. } => {},
        Event::Arrived { .. } => {},
        Event::Exhausted { .. } => {},
        Event::Text { .. } => {},
        Event::Heartbeat { .. } => {},
        Event::Closed { .. } => {},
        Event::Broken { .. } => {},
        Event::Other => {},
        Event::Ticker { .. } => {},
        Event::Unreadable => {},
        Event::Written { .. } => {},
        Event::NotWritten { .. } => {},
    }
}

/// Whatever happens to the connections of a process, no total goes down, the
/// metrics stay coherent, and each wait before the next attempt stays within its
/// limits.
#[verifier::spinoff_prover]
pub proof fn law_totals_never_fall(
    fleet: Fleet,
    events: Seq<(int, Event)>,
    symbols: Map<Seq<char>, u64>,
    pid: u32,
)
    requires
        forall|i: int| 0 <= i < fleet.conns.len() ==> (#[trigger] fleet.conns[i]).wf(),
        fleet.metrics.coherent(),
        all_defined(fleet, events, symbols, pid),
    ensures
        ({
            let end = after(fleet, events, symbols, pid);
            &&& forall|i: int| 0 <= i < end.conns.len() ==> (#[trigger] end.conns[i]).wf()
            &&& end.metrics.coherent()
            &&& counted_on(fleet.metrics, end.metrics)
        }),
    decreases events.len(),
{
    if events.len() > 0 {
        let less = events.drop_last();
        let (j, event) = events.last();
        law_totals_never_fall(fleet, less, symbols, pid);
        lemma_fleet_size(fleet, less, symbols, pid);
        let before = after(fleet, less, symbols, pid);
        lemma_event_counts_on(before.conns[j], before.metrics, event, symbols, pid);
    }
}

/// The number in a message.
pub open spec fn number(msg: Seq<u8>) -> nat {
    bytes::le_value(msg.subrange(24, 32))
}

/// The messages that the connections of a process publish are numbered without a
/// gap, from the number behind the last one on, in whatever order the events come.
#[verifier::spinoff_prover]
pub proof fn law_messages_numbered(
    fleet: Fleet,
    events: Seq<(int, Event)>,
    symbols: Map<Seq<char>, u64>,
    pid: u32,
)
    requires
        all_defined(fleet, events, symbols, pid),
    ensures
        ({
            let msgs = sent(fleet, events, symbols, pid);
            let first = fleet.metrics.log_seq;
            &&& after(fleet, events, symbols, pid).metrics.log_seq == first + msgs.len()
            &&& forall|i: int|
                0 <= i < msgs.len() ==> (#[trigger] msgs[i]).len() == 256 && number(msgs[i])
                    == first + 1 + i
        }),
    decreases events.len(),
{
    if events.len() > 0 {
        let less = events.drop_last();
        let (j, event) = events.last();
        law_messages_numbered(fleet, less, symbols, pid);
        let before = after(fleet, less, symbols, pid);
        lemma_message_number(before.conns[j], before.metrics, event, symbols, pid);
    }
}

/// A step publishes a message just where it counts one, and the message carries
/// that count.
#[verifier::spinoff_prover]
proof fn lemma_message_number(
    c: Connection,
    m: Metrics,
    event: Event,
    symbols: Map<Seq<char>, u64>,
    pid: u32,
)
    requires
        defined(c, m, event, symbols),
    ensures
        ({
            let o = outcome(c, m, event, symbols, pid);
            match o.publish {
                Some(msg) => {
                    &&& msg.len() == 256
                    &&& number(msg) == m.log_seq + 1
                    &&& o.metrics.log_seq == m.log_seq + 1
                },
                None => o.metrics.log_seq == m.log_seq,
            }
        }),
{
    let o = outcome(c, m, event, symbols, pid);
    match event {
        Event::Arrived { ts_ms, .. } => {
            let counted = numbered(m);
            let p = message_builder::periodic_payload(counted, ts_ms);
            p.lemma_len();
            message_builder::law_header_layout(
                MessageType::SnapshotPeriodic,
                counted,
                pid,
                ts_ms,
                p.spec_bytes(),
            );
        },
        Event::Refused { ts_ms, .. } => {
            lemma_error_number(o.metrics, ErrorDomain::WS, ERROR_REFUSED, 0, pid, ts_ms);
        },
        Event::NotWritten { ts_ms, .. } => {
            lemma_error_number(o.metrics, ErrorDomain::SHM, ERROR_WRITE, 0, pid, ts_ms);
        },
        Event::Exhausted { ts_ms } | Event::Closed { ts_ms, .. } | Event::Broken {
            ts_ms,
            ..
        } => {
            let session = o.metrics.session_id as u64;
            lemma_error_number(o.metrics, ErrorDomain::WS, ERROR_LOST, session, pid, ts_ms);
        },
        _ => {},
    }
}

proof fn lemma_error_number(
    m: Metrics,
    domain: ErrorDomain,
    code: i16,
    aux: u64,
    pid: u32,
    ts_ms: u64,
)
    ensures
        ({
            let msg = message_builder::error_message(m, domain, code, 0, 0, aux, pid, ts_ms);
            msg.len() == 256 && number(msg) == m.log_seq
        }),
{
    let p = message_builder::error_payload(m, domain, code, 0, 0, aux);
    p.lemma_len();
    message_builder::law_header_layout(
        MessageType::EventError,
        m,
        pid,
        ts_ms,
        p.spec_bytes(),
    );
}

/// Whether an event makes the connection wait before the next attempt.
pub open spec fn sets_back(event: Event) -> bool {
    event is Refused || event is Exhausted || event is Closed || event is Broken
}

/// How many events of a run make connection `j` wait.
pub open spec fn setbacks(events: Seq<(int, Event)>, j: int) -> nat
    decreases events.len(),
{
    if events.len() == 0 {
        0
    } else {
        setbacks(events.drop_last(), j) + if events.last().0 == j && sets_back(events.last().1) {
            1nat
        } else {
            0nat
        }
    }
}

/// The wait behind `k` others: twice as long each time, up to the limit.
pub open spec fn wait_behind(k: nat) -> nat {
    if FIRST_BACKOFF_MS * pow2(k) <= MAX_BACKOFF_MS {
        FIRST_BACKOFF_MS as nat * pow2(k)
    } else {
        MAX_BACKOFF_MS as nat
    }
}

/// One event, unless it makes a connection stand, makes the wait longer where it
/// is a setback, and leaves it as it is where not.
#[verifier::spinoff_prover]
proof fn lemma_event_backs_off(
    c: Connection,
    m: Metrics,
    event: Event,
    symbols: Map<Seq<char>, u64>,
    pid: u32,
)
    requires
        !(event is Connected),
    ensures
        outcome(c, m, event, symbols, pid).conn.backoff_ms == if sets_back(event) {
            doubled(c.backoff_ms)
        } else {
            c.backoff_ms
        },
{
}

/// The wait behind one more setback is twice as long, up to the limit.
proof fn lemma_wait_doubles(k: nat)
    ensures
        wait_behind(0) == FIRST_BACKOFF_MS,
        wait_behind(k) <= MAX_BACKOFF_MS,
        doubled(wait_behind(k) as u64) == wait_behind(k + 1),
{
    lemma2_to64();
    lemma_pow2_unfold(k + 1);
}

/// As long as a connection does not come to stand, its waits grow exponentially:
/// behind `k` setbacks the next wait is `200 * 2^k` milliseconds, or 30 seconds
/// where that is more, whatever happens to other connections.
#[verifier::spinoff_prover]
pub proof fn law_backoff_exponential(
    fleet: Fleet,
    events: Seq<(int, Event)>,
    symbols: Map<Seq<char>, u64>,
    pid: u32,
    j: int,
)
    requires
        0 <= j < fleet.conns.len(),
        fleet.conns[j].backoff_ms == FIRST_BACKOFF_MS,
        all_defined(fleet, events, symbols, pid),
        forall|i: int|
            0 <= i < events.len() && (#[trigger] events[i]).0 == j ==> !(events[i].1 is Connected),
    ensures
        after(fleet, events, symbols, pid).conns[j].backoff_ms == wait_behind(
            setbacks(events, j),
        ),
    decreases events.len(),
{
    if events.len() == 0 {
        lemma_wait_doubles(0);
    } else {
        let less = events.drop_last();
        assert forall|i: int| 0 <= i < less.len() && (#[trigger] less[i]).0 == j implies !(
        less[i].1 is Connected) by {
            assert(less[i] == events[i]);
        }
        law_backoff_exponential(fleet, less, symbols, pid, j);
        lemma_fleet_size(fleet, less, symbols, pid);
        let before = after(fleet, less, symbols, pid);
        assert(events.last() == events[events.len() - 1]);
        let (at, event) = events.last();
        if at == j {
            lemma_event_backs_off(before.conns[j], before.metrics, event, symbols, pid);
            lemma_wait_doubles(setbacks(less, j));
        }
    }
}

/// A setback makes the connection wait as long as its state says, and once a
/// connection stands the waits begin anew.
pub proof fn law_wait(
    c: Connection,
    m: Metrics,
    event: Event,
    symbols: Map<Seq<char>, u64>,
    pid: u32,
)
    ensures
        ({
            let o = outcome(c, m, event, symbols, pid);
            &&& sets_back(event) <==> o.next is Wait
            &&& o.next matches Next::Wait { ms } ==> ms == c.backoff_ms
            &&& event is Connected ==> o.conn.backoff_ms == FIRST_BACKOFF_MS
        }),
{
}

/// Whether a periodic message goes out when an event comes.
pub open spec fn snapshot_due(c: Connection, event: Event) -> bool {
    event matches Event::Arrived { now_ms, .. } && now_ms >= c.next_snapshot_ms
}

/// How many periodic messages connection `j` has published in a run of events.
pub open spec fn snapshots(
    fleet: Fleet,
    events: Seq<(int, Event)>,
    symbols: Map<Seq<char>, u64>,
    pid: u32,
    j: int,
) -> nat
    decreases events.len(),
{
    if events.len() == 0 {
        0
    } else {
        let (at, event) = events.last();
        let before = after(fleet, events.drop_last(), symbols, pid);
        snapshots(fleet, events.drop_last(), symbols, pid, j) + if at == j && snapshot_due(
            before.conns[j],
            event,
        ) {
            1nat
        } else {
            0nat
        }
    }
}

/// One event moves the time of the next periodic message on where one goes out,
/// and leaves it as it is where not.
#[verifier::spinoff_prover]
proof fn lemma_event_schedules(
    c: Connection,
    m: Metrics,
    event: Event,
    symbols: Map<Seq<char>, u64>,
    pid: u32,
)
    requires
        defined(c, m, event, symbols),
    ensures
        outcome(c, m, event, symbols, pid).conn.next_snapshot_ms == c.next_snapshot_ms
            + if snapshot_due(c, event) {
            SNAPSHOT_INTERVAL_MS as int
        } else {
            0
        },
{
}

/// The periodic messages of a connection keep to their schedule: each moves the
/// time of the next one on by five seconds, and none goes out before its time. So
/// up to the time `t` no more of them have gone out than five-second steps lie
/// between the time of the first one and `t`, and one.
#[verifier::spinoff_prover]
pub proof fn law_snapshots_on_schedule(
    fleet: Fleet,
    events: Seq<(int, Event)>,
    symbols: Map<Seq<char>, u64>,
    pid: u32,
    j: int,
    t: u64,
)
    requires
        0 <= j < fleet.conns.len(),
        all_defined(fleet, events, symbols, pid),
        forall|i: int|
            0 <= i < events.len() && (#[trigger] events[i]).0 == j ==> (
            events[i].1 matches Event::Arrived { now_ms, .. } ==> now_ms <= t),
    ensures
        ({
            let k = snapshots(fleet, events, symbols, pid, j);
            let first = fleet.conns[j].next_snapshot_ms;
            let end = after(fleet, events, symbols, pid);
            &&& end.conns[j].next_snapshot_ms == first + k * SNAPSHOT_INTERVAL_MS
            &&& k > 0 ==> first + (k - 1) * SNAPSHOT_INTERVAL_MS <= t
        }),
    decreases events.len(),
{
    if events.len() > 0 {
        let less = events.drop_last();
        assert forall|i: int| 0 <= i < less.len() && (#[trigger] less[i]).0 == j implies (
        less[i].1 matches Event::Arrived { now_ms, .. } ==> now_ms <= t) by {
            assert(less[i] == events[i]);
        }
        law_snapshots_on_schedule(fleet, less, symbols, pid, j, t);
        lemma_fleet_size(fleet, less, symbols, pid);
        let before = after(fleet, less, symbols, pid);
        assert(events.last() == events[events.len() - 1]);
        let (at, event) = events.last();
        if at == j {
            lemma_event_schedules(before.conns[j], before.metrics, event, symbols, pid);
        }
    }
}

/// A quote is written only for a symbol that is known, under that symbol's
/// number, with the bid and the ask that came in.
pub proof fn law_quote_as_it_came(
    c: Connection,
    m: Metrics,
    event: Event,
    symbols: Map<Seq<char>, u64>,
    pid: u32,
)
    requires
        defined(c, m, event, symbols),
    ensures
        ({
            let o = outcome(c, m, event, symbols, pid);
            o.next matches Next::Write { symbol_id, bid, ask } ==> {
                &&& event matches Event::Ticker { message, .. }
                &&& symbols.contains_key(message.data.symbol@)
                &&& symbol_id == symbols[message.data.symbol@]
                &&& price::decimal(message.data.bid@, price::PRICE_SCALE as int)
                    == price::Reading::Value(bid as int)
                &&& price::decimal(message.data.ask@, price::PRICE_SCALE as int)
                    == price::Reading::Value(ask as int)
            }
        }),
{
}

/// The process ends where a quote for an unknown symbol comes in or a quote
/// cannot be written, and in no other case; a connection that has ended takes up
/// nothing more.
pub proof fn law_exits(
    c: Connection,
    m: Metrics,
    event: Event,
    symbols: Map<Seq<char>, u64>,
    pid: u32,
)
    requires
        defined(c, m, event, symbols),
    ensures
        ({
            let o = outcome(c, m, event, symbols, pid);
            &&& o.next == (Next::Exit { code: EXIT_UNKNOWN_SYMBOL }) <==> (
            event matches Event::Ticker { message, .. } && !symbols.contains_key(
                message.data.symbol@,
            ))
            &&& o.next == (Next::Exit { code: EXIT_WRITE }) <==> event is NotWritten
            &&& o.next matches Next::Exit { code } ==> code == EXIT_UNKNOWN_SYMBOL || code
                == EXIT_WRITE
            &&& o.next is Exit <==> o.conn.phase is Ended
            &&& forall|later: Event, n: Metrics|
                o.conn.phase is Ended ==> !#[trigger] defined(o.conn, n, later, symbols)
        }),
{
}

/// Whether an event brings a quote of a known symbol.
pub open spec fn brings_quote(event: Event, symbols: Map<Seq<char>, u64>) -> bool {
    event matches Event::Ticker { message, .. } && symbols.contains_key(message.data.symbol@)
}

/// Whether both prices of an event that brings a quote are numbers.
pub open spec fn prices_read(event: Event) -> bool {
    event matches Event::Ticker { message, .. } && price::decimal(
        message.data.bid@,
        100_000_000,
    ) is Value && price::decimal(message.data.ask@, 100_000_000) is Value
}

/// Every quote of a known symbol whose two prices are numbers is written, under the
/// number of its symbol and with these two numbers.
pub proof fn law_readable_quote_written(
    c: Connection,
    m: Metrics,
    event: Event,
    symbols: Map<Seq<char>, u64>,
    pid: u32,
)
    requires
        brings_quote(event, symbols),
        prices_read(event),
    ensures
        ({
            let data = event->Ticker_message.data;
            outcome(c, m, event, symbols, pid).next matches Next::Write { symbol_id, bid, ask } && {
                &&& symbol_id == symbols[data.symbol@]
                &&& price::Reading::Value(bid as int) == price::decimal(data.bid@, 100_000_000)
                &&& price::Reading::Value(ask as int) == price::decimal(data.ask@, 100_000_000)
            }
        }),
{
}

/// A price as the exchange writes it: digits, a point and digits, small enough.
pub open spec fn plain_price(text: Seq<char>, whole: Seq<char>, frac: Seq<char>) -> bool {
    &&& whole.len() > 0
    &&& text::all_digits(whole)
    &&& text::all_digits(frac)
    &&& text == whole + seq!['.'] + frac
    &&& price::rounded(text::digits_value(whole + frac), frac.len()) <= i64::MAX
}

/// Every quote of a known symbol whose prices are written as digits, a point and
/// digits is written with these prices times `10^8`, rounded to the nearest.
pub proof fn law_plain_quote_written(
    c: Connection,
    m: Metrics,
    event: Event,
    symbols: Map<Seq<char>, u64>,
    pid: u32,
    bid: (Seq<char>, Seq<char>),
    ask: (Seq<char>, Seq<char>),
)
    requires
        brings_quote(event, symbols),
        plain_price(event->Ticker_message.data.bid@, bid.0, bid.1),
        plain_price(event->Ticker_message.data.ask@, ask.0, ask.1),
    ensures
        outcome(c, m, event, symbols, pid).next == (Next::Write {
            symbol_id: symbols[event->Ticker_message.data.symbol@],
            bid: price::rounded(text::digits_value(bid.0 + bid.1), bid.1.len()) as i64,
            ask: price::rounded(text::digits_value(ask.0 + ask.1), ask.1.len()) as i64,
        }),
{
    let none = Seq::<char>::empty();
    assert(none != seq!['-']) by {
        assert(none.len() != seq!['-'].len());
    }
    assert(none + bid.0 =~= bid.0);
    assert(none + ask.0 =~= ask.0);
    price::law_decimal_exact(none, bid.0, bid.1);
    price::law_decimal_exact(none, ask.0, ask.1);
}

/// One, where something holds, else zero.
pub open spec fn once(b: bool) -> int {
    if b {
        1
    } else {
        0
    }
}

/// What each event adds to each total. Attempts begin sessions; texts, pings and pongs
/// are frames; quotes of known symbols are messages; a connection that was refused,
/// lost, closed or broken, a text that is no quote or no price, a quote that was or was
/// not written count where their totals say; messages that are published are numbered.
#[verifier::spinoff_prover]
pub proof fn law_what_is_counted(
    c: Connection,
    m: Metrics,
    event: Event,
    symbols: Map<Seq<char>, u64>,
    pid: u32,
)
    requires
        defined(c, m, event, symbols),
    ensures
        ({
            let n = outcome(c, m, event, symbols, pid).metrics;
            let lost = event is Exhausted || event is Closed || event is Broken;
            let due = event matches Event::Arrived { now_ms, .. } && now_ms >= c.next_snapshot_ms;
            &&& n.session_id == m.session_id + once(event is Due)
            &&& n.ws_rx_frames_total == m.ws_rx_frames_total + once(
                event is Text || event is Heartbeat,
            )
            &&& n.ws_rx_bytes_total == m.ws_rx_bytes_total + match event {
                Event::Text { len, .. } => len as int,
                _ => 0,
            }
            &&& n.ws_rx_msgs_total == m.ws_rx_msgs_total + once(brings_quote(event, symbols))
            &&& n.ws_reconnect_total == m.ws_reconnect_total + once(lost)
            &&& n.ws_disconnect_total == m.ws_disconnect_total + once(event is Closed)
            &&& n.ws_handshake_fail_total == m.ws_handshake_fail_total + once(event is Refused)
            &&& n.ws_subscribe_ok_total == m.ws_subscribe_ok_total
            &&& n.ws_subscribe_fail_total == m.ws_subscribe_fail_total
            &&& n.ws_parse_error_total == m.ws_parse_error_total + once(
                event is Unreadable || brings_quote(event, symbols) && !prices_read(event),
            )
            &&& n.ws_protocol_error_total == m.ws_protocol_error_total + once(event is Broken)
            &&& n.shm_write_ok_total == m.shm_write_ok_total + once(event is Written)
            &&& n.shm_write_fail_total == m.shm_write_fail_total + once(event is NotWritten)
            &&& n.log_seq == m.log_seq + once(
                lost || due || event is Refused || event is NotWritten,
            )
        }),
{
}

/// What each event leaves of the times, codes and states, which are not counted: each
/// keeps what it was but where the event says otherwise.
#[verifier::spinoff_prover]
pub proof fn law_what_is_noted(
    c: Connection,
    m: Metrics,
    event: Event,
    symbols: Map<Seq<char>, u64>,
    pid: u32,
)
    requires
        defined(c, m, event, symbols),
    ensures
        ({
            let n = outcome(c, m, event, symbols, pid).metrics;
            &&& n.session_start_ms == match event {
                Event::Due { now_ms } => now_ms,
                _ => m.session_start_ms,
            }
            &&& n.ws_state == if event is Due {
                WsState::Connecting
            } else if event is Connected {
                WsState::Running
            } else if event is Closed || event is Broken {
                WsState::Reconnecting
            } else {
                m.ws_state
            }
            &&& n.ws_last_frame_rx_ms == match event {
                Event::Text { now_ms, .. } => now_ms,
                Event::Heartbeat { now_ms } => now_ms,
                _ => m.ws_last_frame_rx_ms,
            }
            &&& n.ws_last_data_rx_ms == if brings_quote(event, symbols) {
                event->Ticker_now_ms
            } else {
                m.ws_last_data_rx_ms
            }
            &&& n.ws_last_error_ms == match event {
                Event::Refused { now_ms, .. } => now_ms,
                Event::Broken { now_ms, .. } => now_ms,
                _ => m.ws_last_error_ms,
            }
            &&& n.ws_last_error_code == if event is NotWritten {
                -1
            } else {
                m.ws_last_error_code as int
            }
            &&& n.ws_last_close_code == match event {
                Event::Closed { code: Some(code), .. } => code,
                Event::Closed { code: None, .. } => 0,
                _ => m.ws_last_close_code,
            }
            &&& n.shm_last_write_ok_ms == match event {
                Event::Written { now_ms } => now_ms,
                _ => m.shm_last_write_ok_ms,
            }
            &&& n.shm_last_write_fail_ms == match event {
                Event::NotWritten { now_ms, .. } => now_ms,
                _ => m.shm_last_write_fail_ms,
            }
        }),
{
}

/// A periodic message that is due takes the totals down and begins the latencies anew;
/// nothing else touches what was taken down, and nothing but a quote that was written
/// adds a latency: the time since its text came in.
#[verifier::spinoff_prover]
pub proof fn law_what_is_reported(
    c: Connection,
    m: Metrics,
    event: Event,
    symbols: Map<Seq<char>, u64>,
    pid: u32,
    vs: Seq<u32>,
)
    requires
        defined(c, m, event, symbols),
        m.lat_rx_to_written.summarizes(vs),
    ensures
        ({
            let n = outcome(c, m, event, symbols, pid).metrics;
            let due = event matches Event::Arrived { now_ms, .. } && now_ms >= c.next_snapshot_ms;
            let from = if due {
                m
            } else {
                Metrics {
                    ws_rx_msgs_total: m.prev_rx_msgs_total,
                    ws_reconnect_total: m.prev_reconnect_total,
                    ws_subscribe_fail_total: m.prev_subscribe_fail_total,
                    ws_parse_error_total: m.prev_parse_error_total,
                    ws_protocol_error_total: m.prev_protocol_error_total,
                    shm_write_ok_total: m.prev_shm_write_ok_total,
                    shm_write_fail_total: m.prev_shm_write_fail_total,
                    ..m
                }
            };
            &&& n.prev_rx_msgs_total == from.ws_rx_msgs_total
            &&& n.prev_reconnect_total == from.ws_reconnect_total
            &&& n.prev_subscribe_fail_total == from.ws_subscribe_fail_total
            &&& n.prev_parse_error_total == from.ws_parse_error_total
            &&& n.prev_protocol_error_total == from.ws_protocol_error_total
            &&& n.prev_shm_write_ok_total == from.shm_write_ok_total
            &&& n.prev_shm_write_fail_total == from.shm_write_fail_total
            &&& due ==> n.lat_rx_to_written.summarizes(Seq::empty())
            &&& event matches Event::Written { now_ms } ==> exists|l: u32|
                {
                    &&& #[trigger] n.lat_rx_to_written.summarizes(vs.push(l))
                    &&& (now_ms - c.phase->Writing_t_rx_ms - l) % 0x1_0000_0000 == 0
                }
            &&& !due && !(event is Written) ==> n.lat_rx_to_written.summarizes(vs)
        }),
{
    if let Event::Written { now_ms } = event {
        let l = latency(c.phase->Writing_t_rx_ms, now_ms);
        metrics::law_latency_counted(m.lat_rx_to_written, vs, l);
        let n = outcome(c, m, event, symbols, pid).metrics;
        assert(n.lat_rx_to_written.summarizes(vs.push(l)));
    }
}

/// What each event is answered by, and what the connection waits for behind it. A text
/// keeps the time at which it came in until its quote is written.
#[verifier::spinoff_prover]
pub proof fn law_what_comes_next(
    c: Connection,
    m: Metrics,
    event: Event,
    symbols: Map<Seq<char>, u64>,
    pid: u32,
)
    requires
        defined(c, m, event, symbols),
    ensures
        ({
            let o = outcome(c, m, event, symbols, pid);
            let written = brings_quote(event, symbols) && prices_read(event);
            &&& o.next is Connect <==> event is Due
            &&& o.next is Handle <==> event is Arrived
            &&& o.next is Parse <==> event is Text
            &&& o.next is Write <==> written
            &&& o.next is Wait <==> event is Refused || event is Exhausted || event is Closed
                || event is Broken
            &&& o.next is Exit <==> event is NotWritten || event is Ticker && !brings_quote(
                event,
                symbols,
            )
            &&& o.next is Receive <==> event is Connected || event is Heartbeat || event is Other
                || event is Unreadable || event is Written || brings_quote(event, symbols)
                && !written
            &&& o.conn.phase is Connecting <==> o.next is Connect
            &&& o.conn.phase is Receiving <==> o.next is Receive
            &&& o.conn.phase is Handling <==> o.next is Handle
            &&& o.conn.phase is Parsing <==> o.next is Parse
            &&& o.conn.phase is Writing <==> o.next is Write
            &&& o.conn.phase is Idle <==> o.next is Wait
            &&& event matches Event::Text { now_ms, .. } ==> o.conn.phase == (Phase::Parsing {
                t_rx_ms: now_ms,
            })
            &&& written ==> o.conn.phase == (Phase::Writing {
                t_rx_ms: c.phase->Parsing_t_rx_ms,
            })
            &&& o.next matches Next::Wait { ms } ==> ms == c.backoff_ms
        }),
{
}

/// The wait before the next attempt and the time of the next periodic message, behind
/// each event: the wait is 200 ms once a connection stands, twice as long, up to 30
/// seconds, behind a setback, and stays behind any other event; the time moves on by
/// five seconds where a periodic message goes out, and stays where none does.
#[verifier::spinoff_prover]
pub proof fn law_waits_and_times(
    c: Connection,
    m: Metrics,
    event: Event,
    symbols: Map<Seq<char>, u64>,
    pid: u32,
)
    requires
        c.wf(),
        defined(c, m, event, symbols),
    ensures
        ({
            let o = outcome(c, m, event, symbols, pid);
            let due = event matches Event::Arrived { now_ms, .. } && now_ms >= c.next_snapshot_ms;
            &&& o.conn.backoff_ms == if event is Connected {
                200
            } else if event is Refused || event is Exhausted || event is Closed
                || event is Broken {
                if 2 * c.backoff_ms <= 30_000 {
                    2 * c.backoff_ms
                } else {
                    30_000
                }
            } else {
                c.backoff_ms as int
            }
            &&& o.conn.next_snapshot_ms == c.next_snapshot_ms + 5000 * once(due)
        }),
{
}

/// What is published behind each event: the periodic message where it is due; an error
/// message where a connection was refused (code -3), was lost (-2, with the session),
/// or a quote was not written (-1, of the quote table); else nothing. Each message is
/// about the metrics with its own number.
#[verifier::spinoff_prover]
pub proof fn law_what_is_published(
    c: Connection,
    m: Metrics,
    event: Event,
    symbols: Map<Seq<char>, u64>,
    pid: u32,
)
    requires
        defined(c, m, event, symbols),
    ensures
        ({
            let o = outcome(c, m, event, symbols, pid);
            let n = o.metrics;
            let (ws, shm) = (ErrorDomain::WS, ErrorDomain::SHM);
            o.publish == match event {
                Event::Refused { ts_ms, .. } => Some(
                    message_builder::error_message(n, ws, (-3) as i16, 0, 0, 0, pid, ts_ms),
                ),
                Event::Exhausted { ts_ms } | Event::Closed { ts_ms, .. } | Event::Broken {
                    ts_ms,
                    ..
                } => Some(
                    message_builder::error_message(
                        n,
                        ws,
                        (-2) as i16,
                        0,
                        0,
                        m.session_id as u64,
                        pid,
                        ts_ms,
                    ),
                ),
                Event::NotWritten { ts_ms, .. } => Some(
                    message_builder::error_message(n, shm, (-1) as i16, 0, 0, 0, pid, ts_ms),
                ),
                Event::Arrived { now_ms, ts_ms } => if now_ms >= c.next_snapshot_ms {
                    let counted = Metrics { log_seq: (m.log_seq + 1) as u64, ..m };
                    Some(message_builder::periodic_message(counted, pid, ts_ms))
                } else {
                    None
                },
                _ => None,
            }
        }),
{
}

/// Whether no counter is at its end.
pub open spec fn has_room(m: Metrics) -> bool {
    &&& m.session_id < u32::MAX
    &&& m.ws_rx_frames_total < u64::MAX
    &&& m.ws_rx_msgs_total < u64::MAX
    &&& m.ws_reconnect_total < u32::MAX
    &&& m.ws_disconnect_total < u32::MAX
    &&& m.ws_handshake_fail_total < u32::MAX
    &&& m.ws_parse_error_total < u32::MAX
    &&& m.ws_protocol_error_total < u32::MAX
    &&& m.shm_write_ok_total < u64::MAX
    &&& m.shm_write_fail_total < u32::MAX
    &&& m.log_seq < u64::MAX
}

/// Every event that a connection waits for is taken up, as long as no counter is at its
/// end, and no other: an attempt where it is idle, its outcome while it is tried, a
/// message or the end of the stream while it stands, the kind of a message that has
/// arrived, the quote of a text, the outcome of a write.
#[verifier::spinoff_prover]
pub proof fn law_events_taken_up(
    c: Connection,
    m: Metrics,
    event: Event,
    symbols: Map<Seq<char>, u64>,
    vs: Seq<u32>,
)
    requires
        has_room(m),
        m.coherent(),
        m.lat_rx_to_written.summarizes(vs),
        vs.len() < u32::MAX,
        c.next_snapshot_ms + 5000 <= u64::MAX,
        event matches Event::Text { len, .. } ==> m.ws_rx_bytes_total + len <= u64::MAX,
        event matches Event::Ticker { message, .. } ==> !(price::decimal(
            message.data.bid@,
            100_000_000,
        ) is Undefined) && !(price::decimal(message.data.ask@, 100_000_000) is Undefined),
    ensures
        defined(c, m, event, symbols) <==> match c.phase {
            Phase::Idle => event is Due,
            Phase::Connecting => event is Connected || event is Refused,
            Phase::Receiving => event is Arrived || event is Exhausted,
            Phase::Handling => event is Text || event is Heartbeat || event is Closed
                || event is Broken || event is Other,
            Phase::Parsing { .. } => event is Ticker || event is Unreadable,
            Phase::Writing { .. } => event is Written || event is NotWritten,
            Phase::Ended => false,
        },
{
    if let Event::Written { now_ms } = event {
        let l = latency(c.phase->Writing_t_rx_ms, now_ms);
        metrics::law_room_for_latency(m.lat_rx_to_written, vs, l);
    }
}

/// The first message is about the metrics with one message more, and nothing else of
/// them changes.
pub proof fn law_announced(m: Metrics)
    requires
        m.log_seq < u64::MAX,
    ensures
        numbered(m).log_seq == m.log_seq + 1,
        (Metrics { log_seq: m.log_seq, ..numbered(m) }) == m,
{
}

/// The numbers that the program goes by.
pub proof fn law_fixed_numbers()
    ensures
        SOURCE_ID == 1,
        REPORTED_RING_SIZE == 1024,
        EXIT_NO_TABLE == 1,
        EXIT_CONNECTION == 2,
        EXIT_TASK == 3,
        EXIT_UNKNOWN_SYMBOL == 10,
        EXIT_WRITE == 11,
        EXIT_SYMBOLS == 20,
{
}

} // verus!
