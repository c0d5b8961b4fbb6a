//! Runtime metrics.

use crate::clock;
use vstd::prelude::*;

verus! {

/// The current time in milliseconds since the Unix epoch.
pub fn now_ms() -> (r: u64)
    ensures
        exists|secs: u64, nanos: u32|
            nanos < 1_000_000_000 && r == #[trigger] clock::millis(secs as int, nanos as int),
{
    let (secs, nanos) = clock::since_epoch();
    clock::span_millis(secs, nanos)
}

/// State of a WebSocket connection.
#[derive(Debug, Clone, Copy, PartialEq, Eq, Structural)]
pub enum WsState {
    Connecting,
    Handshake,
    Subscribed,
    Running,
    Reconnecting,
    Failed,
}

impl WsState {
    /// The number that stands for the state in a message.
    pub open spec fn spec_code(self) -> u8 {
        match self {
            WsState::Connecting => 0,
            WsState::Handshake => 1,
            WsState::Subscribed => 2,
            WsState::Running => 3,
            WsState::Reconnecting => 4,
            WsState::Failed => 5,
        }
    }

    /// The number that stands for the state in a message.
    pub fn code(self) -> (r: u8)
        ensures
            r == self.spec_code(),
    {
        match self {
            WsState::Connecting => 0,
            WsState::Handshake => 1,
            WsState::Subscribed => 2,
            WsState::Running => 3,
            WsState::Reconnecting => 4,
            WsState::Failed => 5,
        }
    }
}

/// Kind of market data stream.
#[derive(Debug, Clone, Copy, PartialEq, Eq, Structural)]
pub enum StreamType {
    BookTicker,
}

impl StreamType {
    /// The number that stands for the stream in a message.
    pub open spec fn spec_code(self) -> u8 {
        1
    }

    /// The number that stands for the stream in a message.
    pub fn code(self) -> (r: u8)
        ensures
            r == self.spec_code(),
    {
        match self {
            StreamType::BookTicker => 1,
        }
    }
}

/// Where an error arose.
#[derive(Debug, Clone, Copy, PartialEq, Eq, Structural)]
pub enum ErrorDomain {
    WS,
    SHM,
    SYS,
}

impl ErrorDomain {
    /// The number that stands for the domain in a message.
    pub open spec fn spec_code(self) -> u8 {
        match self {
            ErrorDomain::WS => 1,
            ErrorDomain::SHM => 2,
            ErrorDomain::SYS => 3,
        }
    }

    /// The number that stands for the domain in a message.
    pub fn code(self) -> (r: u8)
        ensures
            r == self.spec_code(),
    {
        match self {
            ErrorDomain::WS => 1,
            ErrorDomain::SHM => 2,
            ErrorDomain::SYS => 3,
        }
    }
}

/// Kind of message in the metrics ring.
#[derive(Debug, Clone, Copy, PartialEq, Eq, Structural)]
pub enum MessageType {
    SnapshotStart,
    SnapshotPeriodic,
    EventError,
}

impl MessageType {
    /// The number that stands for the kind in a message.
    pub open spec fn spec_code(self) -> u8 {
        match self {
            MessageType::SnapshotStart => 1,
            MessageType::SnapshotPeriodic => 2,
            MessageType::EventError => 3,
        }
    }

    /// The number that stands for the kind in a message.
    pub fn code(self) -> (r: u8)
        ensures
            r == self.spec_code(),
    {
        match self {
            MessageType::SnapshotStart => 1,
            MessageType::SnapshotPeriodic => 2,
            MessageType::EventError => 3,
        }
    }
}

/// The sum of the latencies `vs`.
pub open spec fn total_of(vs: Seq<u32>) -> nat
    decreases vs.len(),
{
    if vs.len() == 0 {
        0
    } else {
        total_of(vs.drop_last()) + vs.last() as nat
    }
}

/// The least of the latencies `vs`, the greatest `u32` where there is none.
pub open spec fn least_of(vs: Seq<u32>) -> u32
    decreases vs.len(),
{
    if vs.len() == 0 {
        u32::MAX
    } else if vs.last() < least_of(vs.drop_last()) {
        vs.last()
    } else {
        least_of(vs.drop_last())
    }
}

/// The greatest of the latencies `vs`, zero where there is none.
pub open spec fn greatest_of(vs: Seq<u32>) -> u32
    decreases vs.len(),
{
    if vs.len() == 0 {
        0
    } else if vs.last() > greatest_of(vs.drop_last()) {
        vs.last()
    } else {
        greatest_of(vs.drop_last())
    }
}

/// Latencies of a period: how many, their least, greatest and sum.
#[derive(Debug, Clone)]
pub struct LatencyAggregator {
    pub count: u32,
    pub min_ms: u32,
    pub max_ms: u32,
    pub sum_ms: u64,
}

impl LatencyAggregator {
    /// Whether this is the summary of the latencies `vs`.
    pub open spec fn summarizes(self, vs: Seq<u32>) -> bool {
        &&& self.count == vs.len()
        &&& self.min_ms == least_of(vs)
        &&& self.max_ms == greatest_of(vs)
        &&& self.sum_ms == total_of(vs)
    }

    /// The summary of no latency.
    pub open spec fn none() -> Self {
        LatencyAggregator { count: 0, min_ms: u32::MAX, max_ms: 0, sum_ms: 0 }
    }

    /// Whether one more latency can be counted.
    pub open spec fn has_room(self, value_ms: u32) -> bool {
        self.count < u32::MAX && self.sum_ms + value_ms <= u64::MAX
    }

    /// The summary with one more latency.
    pub open spec fn with(self, value_ms: u32) -> Self {
        LatencyAggregator {
            count: (self.count + 1) as u32,
            min_ms: if value_ms < self.min_ms {
                value_ms
            } else {
                self.min_ms
            },
            max_ms: if value_ms > self.max_ms {
                value_ms
            } else {
                self.max_ms
            },
            sum_ms: (self.sum_ms + value_ms) as u64,
        }
    }

    /// The mean, rounded down, zero where nothing was counted.
    pub open spec fn mean(self) -> int {
        if self.count > 0 {
            (self.sum_ms as int / self.count as int) % 0x1_0000_0000
        } else {
            0
        }
    }

    /// An empty summary.
    pub fn new() -> (r: Self)
        ensures
            r == Self::none(),
            r.summarizes(Seq::empty()),
    {
        LatencyAggregator { count: 0, min_ms: u32::MAX, max_ms: 0, sum_ms: 0 }
    }

    /// Counts one more latency.
    pub fn record(&mut self, value_ms: u32)
        requires
            old(self).has_room(value_ms),
        ensures
            *final(self) == old(self).with(value_ms),
            forall|vs: Seq<u32>|
                old(self).summarizes(vs) ==> final(self).summarizes(#[trigger] vs.push(value_ms)),
    {
        self.count = self.count + 1;
        if value_ms < self.min_ms {
            self.min_ms = value_ms;
        }
        if value_ms > self.max_ms {
            self.max_ms = value_ms;
        }
        self.sum_ms = self.sum_ms + value_ms as u64;
        assert forall|vs: Seq<u32>| old(self).summarizes(vs) implies self.summarizes(
            #[trigger] vs.push(value_ms),
        ) by {
            assert(vs.push(value_ms).drop_last() =~= vs);
        }
    }

    /// The mean latency, rounded down, in the lowest 32 bits.
    pub fn avg(&self) -> (r: u32)
        ensures
            r == self.mean(),
    {
        if self.count > 0 {
            let mean: u64 = self.sum_ms / self.count as u64;
            (mean % 0x1_0000_0000) as u32
        } else {
            0
        }
    }

    /// Whether one more latency can be counted: what [`Self::record`] asks.
    pub fn can_record(&self, value_ms: u32) -> (b: bool)
        ensures
            b == self.has_room(value_ms),
    {
        self.count < u32::MAX && self.sum_ms <= u64::MAX - value_ms as u64
    }

    /// Forgets all latencies.
    pub fn reset(&mut self)
        ensures
            *final(self) == Self::none(),
            final(self).summarizes(Seq::empty()),
    {
        self.count = 0;
        self.min_ms = u32::MAX;
        self.max_ms = 0;
        self.sum_ms = 0;
    }
}

proof fn lemma_total_bounds(vs: Seq<u32>)
    ensures
        vs.len() * least_of(vs) <= total_of(vs) <= vs.len() * greatest_of(vs),
    decreases vs.len(),
{
    if vs.len() > 0 {
        let front = vs.drop_last();
        let n = front.len() as int;
        lemma_total_bounds(front);
        let (a, b) = (least_of(front) as int, least_of(vs) as int);
        assert(n * b <= n * a) by (nonlinear_arith)
            requires
                n >= 0,
                b <= a,
        ;
        assert((n + 1) * b == n * b + b) by (nonlinear_arith);
        let (c, d) = (greatest_of(front) as int, greatest_of(vs) as int);
        assert(n * c <= n * d) by (nonlinear_arith)
            requires
                n >= 0,
                c <= d,
        ;
        assert((n + 1) * d == n * d + d) by (nonlinear_arith);
    }
}

/// The mean of at least one latency lies between the least and the greatest,
/// and is their sum divided by their number.
pub proof fn law_mean_between(a: LatencyAggregator, vs: Seq<u32>)
    requires
        a.summarizes(vs),
        vs.len() > 0,
    ensures
        a.mean() == total_of(vs) / vs.len(),
        a.min_ms <= a.mean() <= a.max_ms,
{
    lemma_total_bounds(vs);
    let n = vs.len() as int;
    let t = total_of(vs) as int;
    let (lo, hi) = (least_of(vs) as int, greatest_of(vs) as int);
    let q = t / n;
    assert(lo <= q <= hi) by (nonlinear_arith)
        requires
            n > 0,
            n * lo <= t <= n * hi,
            q == t / n,
    ;
}

/// A summary of fewer than `2^32 - 1` latencies has room for one more.
pub proof fn law_room_for_latency(a: LatencyAggregator, vs: Seq<u32>, value_ms: u32)
    requires
        a.summarizes(vs),
        vs.len() < u32::MAX,
    ensures
        a.has_room(value_ms),
{
    lemma_total_bounds(vs);
    let n = vs.len() as int;
    let hi = greatest_of(vs) as int;
    assert(n * hi <= 0xffff_fffe * 0xffff_ffff) by (nonlinear_arith)
        requires
            0 <= n <= 0xffff_fffe,
            0 <= hi <= 0xffff_ffff,
    ;
}

/// Runtime metrics.
#[derive(Debug, Clone)]
pub struct Metrics {
    // Session
    pub session_id: u32,
    pub session_start_ms: u64,
    pub ws_state: WsState,

    // Liveness of the connection
    pub ws_last_frame_rx_ms: u64,
    pub ws_last_data_rx_ms: u64,
    pub ws_rx_frames_total: u64,
    pub ws_rx_bytes_total: u64,
    pub ws_rx_msgs_total: u64,

    // Errors and reconnects
    pub ws_reconnect_total: u32,
    pub ws_disconnect_total: u32,
    pub ws_handshake_fail_total: u32,
    pub ws_subscribe_ok_total: u32,
    pub ws_subscribe_fail_total: u32,
    pub ws_parse_error_total: u32,
    pub ws_protocol_error_total: u32,
    pub ws_last_error_code: i32,
    pub ws_last_error_ms: u64,
    pub ws_last_close_code: u16,

    // Writes to the quote table
    pub shm_write_ok_total: u64,
    pub shm_write_fail_total: u32,
    pub shm_last_write_ok_ms: u64,
    pub shm_last_write_fail_ms: u64,

    // Latency from receipt to write
    pub lat_rx_to_written: LatencyAggregator,

    // Totals at the last periodic snapshot
    pub prev_rx_msgs_total: u64,
    pub prev_reconnect_total: u32,
    pub prev_subscribe_fail_total: u32,
    pub prev_parse_error_total: u32,
    pub prev_protocol_error_total: u32,
    pub prev_shm_write_ok_total: u64,
    pub prev_shm_write_fail_total: u32,

    // Number of the last message
    pub log_seq: u64,
}

impl Metrics {
    /// Metrics of a process that has seen nothing yet.
    pub open spec fn fresh(session_start_ms: u64) -> Self {
        Metrics {
            session_id: 0,
            session_start_ms,
            ws_state: WsState::Connecting,
            ws_last_frame_rx_ms: 0,
            ws_last_data_rx_ms: 0,
            ws_rx_frames_total: 0,
            ws_rx_bytes_total: 0,
            ws_rx_msgs_total: 0,
            ws_reconnect_total: 0,
            ws_disconnect_total: 0,
            ws_handshake_fail_total: 0,
            ws_subscribe_ok_total: 0,
            ws_subscribe_fail_total: 0,
            ws_parse_error_total: 0,
            ws_protocol_error_total: 0,
            ws_last_error_code: 0,
            ws_last_error_ms: 0,
            ws_last_close_code: 0,
            shm_write_ok_total: 0,
            shm_write_fail_total: 0,
            shm_last_write_ok_ms: 0,
            shm_last_write_fail_ms: 0,
            lat_rx_to_written: LatencyAggregator::none(),
            prev_rx_msgs_total: 0,
            prev_reconnect_total: 0,
            prev_subscribe_fail_total: 0,
            prev_parse_error_total: 0,
            prev_protocol_error_total: 0,
            prev_shm_write_ok_total: 0,
            prev_shm_write_fail_total: 0,
            log_seq: 0,
        }
    }

    /// The metrics with the next session begun.
    pub open spec fn in_next_session(self, now: u64) -> Self {
        Metrics {
            session_id: (self.session_id + 1) as u32,
            session_start_ms: now,
            ws_state: WsState::Connecting,
            ..self
        }
    }

    /// No total is behind what the last periodic snapshot reported of it.
    pub open spec fn coherent(self) -> bool {
        &&& self.prev_rx_msgs_total <= self.ws_rx_msgs_total
        &&& self.prev_reconnect_total <= self.ws_reconnect_total
        &&& self.prev_subscribe_fail_total <= self.ws_subscribe_fail_total
        &&& self.prev_parse_error_total <= self.ws_parse_error_total
        &&& self.prev_protocol_error_total <= self.ws_protocol_error_total
        &&& self.prev_shm_write_ok_total <= self.shm_write_ok_total
        &&& self.prev_shm_write_fail_total <= self.shm_write_fail_total
    }

    /// Metrics of a process that has seen nothing yet, begun at `session_start_ms`.
    pub fn started_at(session_start_ms: u64) -> (r: Self)
        ensures
            r == Self::fresh(session_start_ms),
            r.coherent(),
            r.lat_rx_to_written.summarizes(Seq::empty()),
    {
        Metrics {
            session_id: 0,
            session_start_ms,
            ws_state: WsState::Connecting,
            ws_last_frame_rx_ms: 0,
            ws_last_data_rx_ms: 0,
            ws_rx_frames_total: 0,
            ws_rx_bytes_total: 0,
            ws_rx_msgs_total: 0,
            ws_reconnect_total: 0,
            ws_disconnect_total: 0,
            ws_handshake_fail_total: 0,
            ws_subscribe_ok_total: 0,
            ws_subscribe_fail_total: 0,
            ws_parse_error_total: 0,
            ws_protocol_error_total: 0,
            ws_last_error_code: 0,
            ws_last_error_ms: 0,
            ws_last_close_code: 0,
            shm_write_ok_total: 0,
            shm_write_fail_total: 0,
            shm_last_write_ok_ms: 0,
            shm_last_write_fail_ms: 0,
            lat_rx_to_written: LatencyAggregator::new(),
            prev_rx_msgs_total: 0,
            prev_reconnect_total: 0,
            prev_subscribe_fail_total: 0,
            prev_parse_error_total: 0,
            prev_protocol_error_total: 0,
            prev_shm_write_ok_total: 0,
            prev_shm_write_fail_total: 0,
            log_seq: 0,
        }
    }

    /// Metrics of a process that begins now.
    pub fn new() -> (r: Self)
        ensures
            r == Self::fresh(r.session_start_ms),
            r.coherent(),
            r.lat_rx_to_written.summarizes(Seq::empty()),
            exists|secs: u64, nanos: u32|
                nanos < 1_000_000_000 && r.session_start_ms == #[trigger] clock::millis(
                    secs as int,
                    nanos as int,
                ),
    {
        Metrics::started_at(now_ms())
    }

    /// Begins the next session at `now`.
    pub fn start_session(&mut self, now: u64)
        requires
            old(self).session_id < u32::MAX,
        ensures
            *final(self) == old(self).in_next_session(now),
    {
        self.session_id = self.session_id + 1;
        self.session_start_ms = now;
        self.ws_state = WsState::Connecting;
    }

    /// Begins the next session now.
    pub fn new_session(&mut self)
        requires
            old(self).session_id < u32::MAX,
        ensures
            *final(self) == old(self).in_next_session(final(self).session_start_ms),
            exists|secs: u64, nanos: u32|
                nanos < 1_000_000_000 && final(self).session_start_ms == #[trigger] clock::millis(
                    secs as int,
                    nanos as int,
                ),
    {
        self.start_session(now_ms());
    }

    /// Whether the metrics are coherent.
    pub fn is_coherent(&self) -> (b: bool)
        ensures
            b == self.coherent(),
    {
        self.prev_rx_msgs_total <= self.ws_rx_msgs_total && self.prev_reconnect_total
            <= self.ws_reconnect_total && self.prev_subscribe_fail_total
            <= self.ws_subscribe_fail_total && self.prev_parse_error_total
            <= self.ws_parse_error_total && self.prev_protocol_error_total
            <= self.ws_protocol_error_total && self.prev_shm_write_ok_total
            <= self.shm_write_ok_total && self.prev_shm_write_fail_total
            <= self.shm_write_fail_total
    }
}

/// What the sum, the least and the greatest of some latencies are: no latencies have
/// the sum zero, one more adds itself to the sum, and the least and the greatest are
/// among the latencies and bound them all.
pub proof fn law_summary_of_latencies(vs: Seq<u32>, v: u32)
    ensures
        total_of(Seq::empty()) == 0,
        total_of(vs.push(v)) == total_of(vs) + v,
        vs.len() == 0 ==> least_of(vs) == u32::MAX && greatest_of(vs) == 0,
        vs.len() > 0 ==> vs.contains(least_of(vs)) && vs.contains(greatest_of(vs)),
        forall|i: int| 0 <= i < vs.len() ==> least_of(vs) <= #[trigger] vs[i] <= greatest_of(vs),
    decreases vs.len(),
{
    assert(vs.push(v).drop_last() =~= vs);
    if vs.len() > 0 {
        let front = vs.drop_last();
        let last = vs[vs.len() - 1];
        law_summary_of_latencies(front, v);
        assert(vs.contains(last));
        if front.len() > 0 {
            let i = front.index_of(least_of(front));
            let j = front.index_of(greatest_of(front));
            assert(vs[i] == least_of(front));
            assert(vs[j] == greatest_of(front));
        }
        assert forall|i: int| 0 <= i < vs.len() implies least_of(vs) <= #[trigger] vs[i]
            <= greatest_of(vs) by {
            if i < front.len() {
                assert(front[i] == vs[i]);
            }
        }
    }
}

/// One more latency is counted, whatever had been counted before, and no latency
/// makes no mean.
pub proof fn law_latency_counted(a: LatencyAggregator, vs: Seq<u32>, value_ms: u32)
    requires
        a.summarizes(vs),
        a.has_room(value_ms),
    ensures
        a.with(value_ms).summarizes(vs.push(value_ms)),
        a.with(value_ms).count == vs.len() + 1,
        a.with(value_ms).sum_ms == a.sum_ms + value_ms,
        LatencyAggregator::none().summarizes(Seq::empty()),
        vs.len() == 0 ==> a.mean() == 0,
{
    assert(vs.push(value_ms).drop_last() =~= vs);
}

/// Metrics that have seen nothing yet are zero but for the time at which they begin,
/// and wait for a connection.
pub proof fn law_fresh_metrics(start_ms: u64)
    ensures
        ({
            let m = Metrics::fresh(start_ms);
            &&& m.session_start_ms == start_ms
            &&& m.ws_state is Connecting
            &&& m.session_id + m.ws_reconnect_total + m.ws_disconnect_total
                + m.ws_handshake_fail_total + m.ws_subscribe_ok_total + m.ws_subscribe_fail_total
                + m.ws_parse_error_total + m.ws_protocol_error_total + m.shm_write_fail_total == 0
            &&& m.ws_last_frame_rx_ms + m.ws_last_data_rx_ms + m.ws_rx_frames_total
                + m.ws_rx_bytes_total + m.ws_rx_msgs_total + m.ws_last_error_ms
                + m.ws_last_close_code + m.shm_write_ok_total + m.shm_last_write_ok_ms
                + m.shm_last_write_fail_ms + m.log_seq == 0
            &&& m.ws_last_error_code == 0
            &&& m.prev_rx_msgs_total + m.prev_reconnect_total + m.prev_subscribe_fail_total
                + m.prev_parse_error_total + m.prev_protocol_error_total
                + m.prev_shm_write_ok_total + m.prev_shm_write_fail_total == 0
            &&& m.lat_rx_to_written.summarizes(Seq::empty())
            &&& m.coherent()
        }),
{
}

/// The next session has the next number and begins now, while a connection is waited
/// for. What has been counted stays: with its session, its start and its state put
/// back the metrics are what they were.
pub proof fn law_next_session(m: Metrics, now: u64)
    requires
        m.session_id < u32::MAX,
    ensures
        m.in_next_session(now).session_id == m.session_id + 1,
        m.in_next_session(now).session_start_ms == now,
        m.in_next_session(now).ws_state is Connecting,
        (Metrics {
            session_id: m.session_id,
            session_start_ms: m.session_start_ms,
            ws_state: m.ws_state,
            ..m.in_next_session(now)
        }) == m,
{
}

/// The numbers that stand for states, streams, domains and kinds in messages are
/// those of the published layout, and no two states share one.
pub proof fn law_codes(a: WsState, b: WsState)
    ensures
        a.spec_code() == b.spec_code() ==> a == b,
        WsState::Connecting.spec_code() == 0,
        WsState::Handshake.spec_code() == 1,
        WsState::Subscribed.spec_code() == 2,
        WsState::Running.spec_code() == 3,
        WsState::Reconnecting.spec_code() == 4,
        WsState::Failed.spec_code() == 5,
        StreamType::BookTicker.spec_code() == 1,
        ErrorDomain::WS.spec_code() == 1,
        ErrorDomain::SHM.spec_code() == 2,
        ErrorDomain::SYS.spec_code() == 3,
        MessageType::SnapshotStart.spec_code() == 1,
        MessageType::SnapshotPeriodic.spec_code() == 2,
        MessageType::EventError.spec_code() == 3,
{
}

} // verus!
