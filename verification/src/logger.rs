//! The log: a bounded queue of entries, and what is to be done with each.

use crate::clock;
use crate::text;
use ringbuf::traits::Consumer;
use ringbuf::traits::Observer;
use ringbuf::traits::Producer;
use vstd::prelude::*;
use vstd::string::*;

verus! {

/// How many entries the queue holds.
pub const RING_BUFFER_SIZE: usize = 65536;

/// How long to wait where the queue is empty, in microseconds.
pub const IDLE_US: u64 = 100;

/// Entries of the log.
#[derive(Debug, Clone)]
pub enum LogEntry {
    /// A quote was received and written.
    QuoteWritten { symbol: String, symbol_id: u64, bid: i64, ask: i64, ts_us: i64 },
    /// Something happened to a connection.
    ConnectionEvent { event: String, url: String },
    Error { message: String, context: String },
    Warning { message: String },
    Info { message: String },
    /// The log is to end.
    Shutdown,
}

/// An entry, with its texts as sequences of characters.
pub ghost enum Entry {
    QuoteWritten { symbol: Seq<char>, symbol_id: u64, bid: i64, ask: i64, ts_us: i64 },
    ConnectionEvent { event: Seq<char>, url: Seq<char> },
    Error { message: Seq<char>, context: Seq<char> },
    Warning { message: Seq<char> },
    Info { message: Seq<char> },
    Shutdown,
}

impl View for LogEntry {
    type V = Entry;

    open spec fn view(&self) -> Entry {
        match *self {
            LogEntry::QuoteWritten { symbol, symbol_id, bid, ask, ts_us } => Entry::QuoteWritten {
                symbol: symbol@,
                symbol_id,
                bid,
                ask,
                ts_us,
            },
            LogEntry::ConnectionEvent { event, url } => Entry::ConnectionEvent {
                event: event@,
                url: url@,
            },
            LogEntry::Error { message, context } => Entry::Error {
                message: message@,
                context: context@,
            },
            LogEntry::Warning { message } => Entry::Warning { message: message@ },
            LogEntry::Info { message } => Entry::Info { message: message@ },
            LogEntry::Shutdown => Entry::Shutdown,
        }
    }
}

/// A queue of entries: a `ringbuf::HeapRb`.
#[verifier::external_body]
pub struct EntryQueue {
    rb: ringbuf::HeapRb<LogEntry>,
}

/// The entries in a queue, oldest first.
pub uninterp spec fn queued(q: EntryQueue) -> Seq<LogEntry>;

/// How many entries a queue holds at most.
pub uninterp spec fn room(q: EntryQueue) -> nat;

/// `HeapRb::new`: an empty ring buffer of the given capacity. It panics where
/// the capacity is zero.
#[verifier::external_body]
fn queue_new(capacity: usize) -> (r: EntryQueue)
    requires
        capacity > 0,
    ensures
        queued(r) == Seq::<LogEntry>::empty(),
        room(r) == capacity,
{
    EntryQueue { rb: ringbuf::HeapRb::new(capacity) }
}

/// `Producer::try_push`: appends the entry, unless the buffer is full; then it
/// hands the entry back and changes nothing.
#[verifier::external_body]
fn queue_push(q: &mut EntryQueue, entry: LogEntry) -> (r: Result<(), LogEntry>)
    ensures
        room(*final(q)) == room(*old(q)),
        match r {
            Ok(_) => {
                &&& queued(*old(q)).len() < room(*old(q))
                &&& queued(*final(q)) == queued(*old(q)).push(entry)
            },
            Err(e) => {
                &&& queued(*old(q)).len() >= room(*old(q))
                &&& e == entry
                &&& queued(*final(q)) == queued(*old(q))
            },
        },
{
    q.rb.try_push(entry)
}

/// `Consumer::try_pop`: removes the oldest entry and returns it, unless the
/// buffer is empty.
#[verifier::external_body]
fn queue_pop(q: &mut EntryQueue) -> (r: Option<LogEntry>)
    ensures
        room(*final(q)) == room(*old(q)),
        match r {
            Some(e) => {
                &&& queued(*old(q)).len() > 0
                &&& e == queued(*old(q))[0]
                &&& queued(*final(q)) == queued(*old(q)).skip(1)
            },
            None => {
                &&& queued(*old(q)).len() == 0
                &&& queued(*final(q)) == queued(*old(q))
            },
        },
{
    q.rb.try_pop()
}

/// `Observer::is_empty`: whether there is no entry in the buffer.
#[verifier::external_body]
fn queue_is_empty(q: &EntryQueue) -> (b: bool)
    ensures
        b == (queued(*q).len() == 0),
{
    q.rb.is_empty()
}

/// The entries of a queue once one more has been offered to it: a full queue
/// drops the new entry.
pub open spec fn offered(entries: Seq<Entry>, entry: Entry) -> Seq<Entry> {
    if entries.len() < RING_BUFFER_SIZE {
        entries.push(entry)
    } else {
        entries
    }
}

/// The line for an entry that was taken up at the given time.
pub open spec fn line(entry: Entry, timestamp: nat) -> Seq<char> {
    let head = "["@ + text::dec(timestamp) + "] ["@;
    match entry {
        Entry::QuoteWritten { symbol, symbol_id, bid, ask, ts_us } => {
            head + "QUOTE] symbol="@ + symbol + " symbol_id="@ + text::dec(symbol_id as nat)
                + " bid="@ + text::dec_int(bid as int) + " ask="@ + text::dec_int(ask as int)
                + " ts_us="@ + text::dec_int(ts_us as int)
        },
        Entry::ConnectionEvent { event, url } => head + "CONNECTION] "@ + event + " url="@ + url,
        Entry::Error { message, context } => head + "ERROR] "@ + message + " context="@ + context,
        Entry::Warning { message } => head + "WARNING] "@ + message,
        Entry::Info { message } => head + "INFO] "@ + message,
        Entry::Shutdown => head + "SHUTDOWN]"@,
    }
}

/// The line for an entry that was taken up at the given time, in microseconds.
pub fn format_entry(entry: &LogEntry, timestamp: u128) -> (r: String)
    ensures
        r@ == line(entry@, timestamp as nat),
{
    let mut r: String = String::from_str("[");
    text::push_dec(&mut r, timestamp);
    r.append("] [");
    match entry {
        LogEntry::QuoteWritten { symbol, symbol_id, bid, ask, ts_us } => {
            r.append("QUOTE] symbol=");
            r.append(symbol.as_str());
            r.append(" symbol_id=");
            text::push_dec(&mut r, *symbol_id as u128);
            r.append(" bid=");
            text::push_dec_int(&mut r, *bid);
            r.append(" ask=");
            text::push_dec_int(&mut r, *ask);
            r.append(" ts_us=");
            text::push_dec_int(&mut r, *ts_us);
        },
        LogEntry::ConnectionEvent { event, url } => {
            r.append("CONNECTION] ");
            r.append(event.as_str());
            r.append(" url=");
            r.append(url.as_str());
        },
        LogEntry::Error { message, context } => {
            r.append("ERROR] ");
            r.append(message.as_str());
            r.append(" context=");
            r.append(context.as_str());
        },
        LogEntry::Warning { message } => {
            r.append("WARNING] ");
            r.append(message.as_str());
        },
        LogEntry::Info { message } => {
            r.append("INFO] ");
            r.append(message.as_str());
        },
        LogEntry::Shutdown => {
            r.append("SHUTDOWN]");
        },
    }
    r
}

/// What the consumer of the log is to do.
pub enum Work {
    /// The queue is empty: wait [`IDLE_US`].
    Wait,
    /// Write the line to the log, and to the error output too where `echo`
    /// holds; flush where [`Logger::is_drained`] holds behind it.
    Write { line: String, echo: bool },
    /// Flush the log and end.
    Stop,
}

impl Work {
    /// Whether this is what is to be done with an entry taken at the given
    /// time.
    pub open spec fn fits(self, entry: Option<Entry>, timestamp: nat) -> bool {
        match entry {
            None => self is Wait,
            Some(Entry::Shutdown) => self is Stop,
            Some(e) => self matches Work::Write { line: text, echo } && text@ == line(
                e,
                timestamp,
            ) && echo == (e is Error || e is Warning),
        }
    }
}

/// What the queue gave, with its texts as sequences of characters.
pub open spec fn entry_view(entry: Option<LogEntry>) -> Option<Entry> {
    match entry {
        Some(e) => Some(e@),
        None => None,
    }
}

/// What is to be done with what the queue gave at the given time, in
/// microseconds.
pub fn work_for(entry: &Option<LogEntry>, timestamp: u128) -> (r: Work)
    ensures
        r.fits(entry_view(*entry), timestamp as nat),
{
    match entry {
        None => Work::Wait,
        Some(LogEntry::Shutdown) => Work::Stop,
        Some(e) => {
            let echo: bool = match e {
                LogEntry::Error { .. } => true,
                LogEntry::Warning { .. } => true,
                _ => false,
            };
            Work::Write { line: format_entry(e, timestamp), echo }
        },
    }
}

/// What is to be done with what the queue gave, at the time that the clock shows.
pub fn work_now(entry: &Option<LogEntry>) -> (r: Work)
    ensures
        exists|timestamp: nat|
            clock::shows(timestamp) && #[trigger] r.fits(entry_view(*entry), timestamp),
{
    let timestamp: u128 = now_micros();
    let r: Work = work_for(entry, timestamp);
    assert(r.fits(entry_view(*entry), timestamp as nat));
    r
}

/// A log that is being written.
pub struct Logger {
    queue: EntryQueue,
}

impl View for Logger {
    type V = Seq<Entry>;

    /// The entries that wait, oldest first.
    closed spec fn view(&self) -> Seq<Entry> {
        queued(self.queue).map_values(|e: LogEntry| e@)
    }
}

impl Logger {
    /// Whether the queue holds [`RING_BUFFER_SIZE`] entries at most.
    pub closed spec fn wf(self) -> bool {
        &&& room(self.queue) == RING_BUFFER_SIZE
        &&& queued(self.queue).len() <= RING_BUFFER_SIZE
    }

    /// A log without entries.
    pub fn new() -> (r: Self)
        ensures
            r.wf(),
            r@ == Seq::<Entry>::empty(),
    {
        let r: Logger = Logger { queue: queue_new(RING_BUFFER_SIZE) };
        assert(r@ =~= Seq::<Entry>::empty());
        r
    }

    /// Offers an entry to the queue.
    fn push_entry(&mut self, entry: LogEntry)
        requires
            old(self).wf(),
        ensures
            final(self).wf(),
            final(self)@ == offered(old(self)@, entry@),
    {
        let ghost before = self@;
        let _ = queue_push(&mut self.queue, entry);
        assert(self@ =~= offered(before, entry@));
    }

    /// Logs a quote that was written.
    pub fn log_quote_written(
        &mut self,
        symbol: String,
        symbol_id: u64,
        bid: i64,
        ask: i64,
        ts_us: i64,
    )
        requires
            old(self).wf(),
        ensures
            final(self).wf(),
            final(self)@ == offered(
                old(self)@,
                (Entry::QuoteWritten { symbol: symbol@, symbol_id, bid, ask, ts_us }),
            ),
    {
        self.push_entry(LogEntry::QuoteWritten { symbol, symbol_id, bid, ask, ts_us });
    }

    /// Logs what happened to a connection.
    pub fn log_connection(&mut self, event: &str, url: &str)
        requires
            old(self).wf(),
        ensures
            final(self).wf(),
            final(self)@ == offered(
                old(self)@,
                (Entry::ConnectionEvent { event: event@, url: url@ }),
            ),
    {
        self.push_entry(
            LogEntry::ConnectionEvent {
                event: String::from_str(event),
                url: String::from_str(url),
            },
        );
    }

    /// Logs an error.
    pub fn log_error(&mut self, message: &str, context: &str)
        requires
            old(self).wf(),
        ensures
            final(self).wf(),
            final(self)@ == offered(
                old(self)@,
                (Entry::Error { message: message@, context: context@ }),
            ),
    {
        self.push_entry(
            LogEntry::Error {
                message: String::from_str(message),
                context: String::from_str(context),
            },
        );
    }

    /// Logs a warning.
    pub fn log_warning(&mut self, message: &str)
        requires
            old(self).wf(),
        ensures
            final(self).wf(),
            final(self)@ == offered(old(self)@, (Entry::Warning { message: message@ })),
    {
        self.push_entry(LogEntry::Warning { message: String::from_str(message) });
    }

    /// Logs a piece of information.
    pub fn log_info(&mut self, message: &str)
        requires
            old(self).wf(),
        ensures
            final(self).wf(),
            final(self)@ == offered(old(self)@, (Entry::Info { message: message@ })),
    {
        self.push_entry(LogEntry::Info { message: String::from_str(message) });
    }

    /// Tells the consumer to end, behind all entries that wait.
    pub fn shutdown(&mut self)
        requires
            old(self).wf(),
        ensures
            final(self).wf(),
            final(self)@ == offered(old(self)@, Entry::Shutdown),
    {
        self.push_entry(LogEntry::Shutdown);
    }

    /// Takes the oldest entry out of the queue and says what is to be done with
    /// it, at the time that the clock shows.
    pub fn consume(&mut self) -> (r: Work)
        requires
            old(self).wf(),
        ensures
            final(self).wf(),
            old(self)@.len() == 0 ==> r is Wait && final(self)@ == old(self)@,
            old(self)@.len() > 0 ==> final(self)@ == old(self)@.skip(1) && exists|timestamp: nat|
                clock::shows(timestamp) && #[trigger] r.fits(Some(old(self)@[0]), timestamp),
    {
        let entry: Option<LogEntry> = self.take();
        work_now(&entry)
    }

    /// Takes the oldest entry out of the queue.
    pub fn take(&mut self) -> (r: Option<LogEntry>)
        requires
            old(self).wf(),
        ensures
            final(self).wf(),
            match r {
                Some(e) => {
                    &&& old(self)@.len() > 0
                    &&& e@ == old(self)@[0]
                    &&& final(self)@ == old(self)@.skip(1)
                },
                None => old(self)@.len() == 0 && final(self)@ == old(self)@,
            },
    {
        let ghost before = self@;
        let r: Option<LogEntry> = queue_pop(&mut self.queue);
        proof {
            if r is Some {
                assert(self@ =~= before.skip(1));
            }
        }
        r
    }

    /// Whether no entry waits: time to flush what has been written.
    pub fn is_drained(&self) -> (b: bool)
        ensures
            b == (self@.len() == 0),
    {
        queue_is_empty(&self.queue)
    }

    /// The line for an entry, taken up at the time that the clock shows.
    pub fn format_log_entry(entry: &LogEntry) -> (r: String)
        ensures
            exists|timestamp: nat|
                clock::shows(timestamp) && r@ == #[trigger] line(entry@, timestamp),
    {
        let timestamp: u128 = now_micros();
        let r: String = format_entry(entry, timestamp);
        assert(r@ == line(entry@, timestamp as nat));
        r
    }
}

/// Microseconds since the Unix epoch.
fn now_micros() -> (r: u128)
    ensures
        clock::shows(r as nat),
{
    let (secs, nanos) = clock::since_epoch();
    clock::span_whole_micros(secs, nanos)
}

/// The entries of a queue once some more have been offered to it, one after the
/// other.
pub open spec fn all_offered(entries: Seq<Entry>, more: Seq<Entry>) -> Seq<Entry>
    decreases more.len(),
{
    if more.len() == 0 {
        entries
    } else {
        offered(all_offered(entries, more.drop_last()), more.last())
    }
}

/// The queue keeps the order: behind the entries that wait come the new ones,
/// as many as there is room for, and those that are dropped are the last ones.
pub proof fn law_order_kept(entries: Seq<Entry>, more: Seq<Entry>)
    requires
        entries.len() <= RING_BUFFER_SIZE,
    ensures
        all_offered(entries, more) == entries + more.take(
            if more.len() <= RING_BUFFER_SIZE - entries.len() {
                more.len() as int
            } else {
                RING_BUFFER_SIZE - entries.len()
            },
        ),
    decreases more.len(),
{
    if more.len() == 0 {
        assert(all_offered(entries, more) =~= entries + more.take(0));
    } else {
        law_order_kept(entries, more.drop_last());
        assert(all_offered(entries, more) =~= entries + more.take(
            if more.len() <= RING_BUFFER_SIZE - entries.len() {
                more.len() as int
            } else {
                RING_BUFFER_SIZE - entries.len()
            },
        ));
    }
}

/// Errors and warnings, and nothing else, are written to the error output too.
pub proof fn law_errors_echoed(work: Work, entry: Entry, timestamp: nat)
    requires
        work.fits(Some(entry), timestamp),
    ensures
        (work matches Work::Write { echo, .. } && echo) <==> entry is Error || entry is Warning,
{
}

/// What is to be done follows from what the queue gave: nothing, wait; the end, stop;
/// any other entry, write its line.
pub proof fn law_work(work: Work, entry: Option<Entry>, timestamp: nat)
    requires
        work.fits(entry, timestamp),
    ensures
        work is Wait <==> entry is None,
        work is Stop <==> entry == Some(Entry::Shutdown),
        entry is Some && entry != Some(Entry::Shutdown) ==> (work matches Work::Write {
            line: l,
            echo,
        } && l@ == line(entry->0, timestamp) && echo == (entry->0 is Error
            || entry->0 is Warning)),
{
}

/// A queue of fewer than 65536 entries takes one more at its end; one of 65536 entries
/// stays as it is.
pub proof fn law_queue_bound(entries: Seq<Entry>, entry: Entry)
    ensures
        entries.len() < 65536 ==> offered(entries, entry) == entries + seq![entry],
        entries.len() >= 65536 ==> offered(entries, entry) == entries,
        RING_BUFFER_SIZE == 65536,
        IDLE_US == 100,
{
    assert(entries.push(entry) =~= entries + seq![entry]);
}

/// What the line about a quote says, word by word: the time, that it is a quote, and
/// its symbol, number, bid, ask and time of writing.
#[verifier::spinoff_prover]
#[verifier::rlimit(40)]
pub proof fn law_quote_line(
    timestamp: nat,
    symbol: Seq<char>,
    symbol_id: u64,
    bid: i64,
    ask: i64,
    ts_us: i64,
)
    requires
        !symbol.contains(' '),
    ensures
        text::split_on(
            line(Entry::QuoteWritten { symbol, symbol_id, bid, ask, ts_us }, timestamp),
            ' ',
        ) == seq![
            "["@ + text::dec(timestamp) + "]"@,
            "[QUOTE]"@,
            "symbol="@ + symbol,
            "symbol_id="@ + text::dec(symbol_id as nat),
            "bid="@ + text::dec_int(bid as int),
            "ask="@ + text::dec_int(ask as int),
            "ts_us="@ + text::dec_int(ts_us as int),
        ],
{
    let sp = seq![' '];
    let whole = line(Entry::QuoteWritten { symbol, symbol_id, bid, ask, ts_us }, timestamp);
    lemma_quote_words();
    let p0 = "["@ + text::dec(timestamp) + "]"@;
    let p1 = "[QUOTE]"@;
    let p2 = "symbol="@ + symbol;
    let p3 = "symbol_id="@ + text::dec(symbol_id as nat);
    let p4 = "bid="@ + text::dec_int(bid as int);
    let p5 = "ask="@ + text::dec_int(ask as int);
    let p6 = "ts_us="@ + text::dec_int(ts_us as int);
    let r5 = p5 + sp + p6;
    let r4 = p4 + sp + r5;
    let r3 = p3 + sp + r4;
    let r2 = p2 + sp + r3;
    let r1 = p1 + sp + r2;
    let head = "["@ + text::dec(timestamp);
    assert(head + "] ["@ + "QUOTE] symbol="@ =~= head + ("] ["@ + "QUOTE] symbol="@));
    assert(head + "] ["@ + "QUOTE] symbol="@ + symbol =~= p0 + sp + p1 + sp + p2);
    assert(whole =~= p0 + sp + p1 + sp + p2 + sp + p3 + sp + p4 + sp + p5 + sp + p6);
    assert(whole =~= p0 + sp + r1);
    lemma_number_words(timestamp, symbol_id, bid, ask, ts_us, symbol);
    text::law_split_concat(p0, r1, ' ');
    text::law_split_concat(p1, r2, ' ');
    text::law_split_concat(p2, r3, ' ');
    text::law_split_concat(p3, r4, ' ');
    text::law_split_concat(p4, r5, ' ');
    text::law_split_concat(p5, p6, ' ');
    text::lemma_split_whole(p0, ' ');
    text::lemma_split_whole(p1, ' ');
    text::lemma_split_whole(p2, ' ');
    text::lemma_split_whole(p3, ' ');
    text::lemma_split_whole(p4, ' ');
    text::lemma_split_whole(p5, ' ');
    text::lemma_split_whole(p6, ' ');
    assert(text::split_on(whole, ' ') =~= seq![p0, p1, p2, p3, p4, p5, p6]);
}

proof fn lemma_quote_words()
    ensures
        "] ["@ + "QUOTE] symbol="@ == "]"@ + seq![' '] + "[QUOTE]"@ + seq![' '] + "symbol="@,
        " symbol_id="@ == seq![' '] + "symbol_id="@,
        " bid="@ == seq![' '] + "bid="@,
        " ask="@ == seq![' '] + "ask="@,
        " ts_us="@ == seq![' '] + "ts_us="@,
        !"["@.contains(' '),
        !"]"@.contains(' '),
        !"[QUOTE]"@.contains(' '),
        !"symbol="@.contains(' '),
        !"symbol_id="@.contains(' '),
        !"bid="@.contains(' '),
        !"ask="@.contains(' '),
        !"ts_us="@.contains(' '),
{
    reveal_strlit("] [");
    reveal_strlit("QUOTE] symbol=");
    reveal_strlit("[");
    reveal_strlit("]");
    reveal_strlit("[QUOTE]");
    reveal_strlit("symbol=");
    reveal_strlit(" symbol_id=");
    reveal_strlit("symbol_id=");
    reveal_strlit(" bid=");
    reveal_strlit("bid=");
    reveal_strlit(" ask=");
    reveal_strlit("ask=");
    reveal_strlit(" ts_us=");
    reveal_strlit("ts_us=");
}

proof fn lemma_no_space(a: Seq<char>, b: Seq<char>)
    requires
        !a.contains(' '),
        !b.contains(' '),
    ensures
        !(a + b).contains(' '),
{
    assert forall|i: int| 0 <= i < (a + b).len() implies (a + b)[i] != ' ' by {
        if i < a.len() {
            assert(a.contains(a[i]));
        } else {
            assert(b.contains(b[i - a.len()]));
        }
    }
}

proof fn lemma_number_has_no_space(i: int)
    ensures
        !text::dec_int(i).contains(' '),
{
    text::law_dec_int_writes_number(i);
    if i < 0 {
        let s = text::dec_int(i);
        assert forall|k: int| 0 <= k < s.len() implies s[k] != ' ' by {
            if k > 0 {
                assert(s.skip(1)[k - 1] == s[k]);
            }
        }
    }
}

proof fn lemma_number_words(
    timestamp: nat,
    symbol_id: u64,
    bid: i64,
    ask: i64,
    ts_us: i64,
    symbol: Seq<char>,
)
    requires
        !symbol.contains(' '),
    ensures
        !("["@ + text::dec(timestamp) + "]"@).contains(' '),
        !("symbol="@ + symbol).contains(' '),
        !("symbol_id="@ + text::dec(symbol_id as nat)).contains(' '),
        !("bid="@ + text::dec_int(bid as int)).contains(' '),
        !("ask="@ + text::dec_int(ask as int)).contains(' '),
        !("ts_us="@ + text::dec_int(ts_us as int)).contains(' '),
{
    lemma_quote_words();
    lemma_number_has_no_space(timestamp as int);
    lemma_number_has_no_space(symbol_id as int);
    lemma_number_has_no_space(bid as int);
    lemma_number_has_no_space(ask as int);
    lemma_number_has_no_space(ts_us as int);
    lemma_no_space("["@, text::dec(timestamp));
    lemma_no_space("["@ + text::dec(timestamp), "]"@);
    lemma_no_space("symbol="@, symbol);
    lemma_no_space("symbol_id="@, text::dec(symbol_id as nat));
    lemma_no_space("bid="@, text::dec_int(bid as int));
    lemma_no_space("ask="@, text::dec_int(ask as int));
    lemma_no_space("ts_us="@, text::dec_int(ts_us as int));
}

/// What the lines about other entries say: the time and the kind in square brackets,
/// then the texts of the entry, whole.
pub proof fn law_other_lines(timestamp: nat, a: Seq<char>, b: Seq<char>)
    ensures
        ({
            let time = "["@ + text::dec(timestamp) + "]"@;
            &&& line(Entry::ConnectionEvent { event: a, url: b }, timestamp) == time
                + " [CONNECTION] "@ + a + " url="@ + b
            &&& line(Entry::Error { message: a, context: b }, timestamp) == time + " [ERROR] "@ + a
                + " context="@ + b
            &&& line(Entry::Warning { message: a }, timestamp) == time + " [WARNING] "@ + a
            &&& line(Entry::Info { message: a }, timestamp) == time + " [INFO] "@ + a
            &&& line(Entry::Shutdown, timestamp) == time + " [SHUTDOWN]"@
        }),
{
    reveal_strlit("[");
    reveal_strlit("]");
    reveal_strlit("] [");
    reveal_strlit("CONNECTION] ");
    reveal_strlit(" [CONNECTION] ");
    reveal_strlit("ERROR] ");
    reveal_strlit(" [ERROR] ");
    reveal_strlit("WARNING] ");
    reveal_strlit(" [WARNING] ");
    reveal_strlit("INFO] ");
    reveal_strlit(" [INFO] ");
    reveal_strlit("SHUTDOWN]");
    reveal_strlit(" [SHUTDOWN]");
    let time = "["@ + text::dec(timestamp) + "]"@;
    let head = "["@ + text::dec(timestamp) + "] ["@;
    assert(head + "CONNECTION] "@ =~= time + " [CONNECTION] "@);
    assert(head + "ERROR] "@ =~= time + " [ERROR] "@);
    assert(head + "WARNING] "@ =~= time + " [WARNING] "@);
    assert(head + "INFO] "@ =~= time + " [INFO] "@);
    assert(head + "SHUTDOWN]"@ =~= time + " [SHUTDOWN]"@);
}

} // verus!
