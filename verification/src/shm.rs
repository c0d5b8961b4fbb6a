//! The quote table in shared memory: its header, its slots and the order of
//! the stores that change a slot.

use crate::bytes;
use crate::text;
use vstd::prelude::*;
use vstd::string::*;

verus! {

/// The first eight bytes of the table.
pub const MAGIC: [u8; 8] = [81, 83, 72, 77, 49, 0, 0, 0];

/// The version of the table's layout.
pub const VERSION: u64 = 1;

/// Bytes of the header that are looked at.
pub const HEADER_CHECKED: usize = 88;

pub const HEADER_SIZE: u64 = 4096;

pub const RECORD_SIZE: u64 = 64;

pub const RECORDS_OFFSET: u64 = 4096;

pub const PRICE_SCALE: u64 = 100_000_000;

pub const TS_SCALE: u64 = 1_000_000;

/// A record of the table: 64 bytes.
#[derive(Debug, Clone, Copy, PartialEq, Eq, Structural)]
pub struct Quote64 {
    pub seq: u64,
    pub source_id: u64,
    pub symbol_id: u64,
    pub bid: i64,
    pub ask: i64,
    pub ts: i64,
    pub reserved0: u64,
    pub reserved1: u64,
}

/// The number in the eight bytes of `mem` from `at` on.
pub open spec fn word(mem: Seq<u8>, at: int) -> u64 {
    bytes::le_value(mem.subrange(at, at + 8)) as u64
}

/// The record in the 64 bytes of `mem` from `at` on.
pub open spec fn record(mem: Seq<u8>, at: int) -> Quote64 {
    Quote64 {
        seq: word(mem, at),
        source_id: word(mem, at + 8),
        symbol_id: word(mem, at + 16),
        bid: bytes::signed64(word(mem, at + 24) as nat) as i64,
        ask: bytes::signed64(word(mem, at + 32) as nat) as i64,
        ts: bytes::signed64(word(mem, at + 40) as nat) as i64,
        reserved0: word(mem, at + 48),
        reserved1: word(mem, at + 56),
    }
}

/// Whether the header passes every check before the one of the record count.
pub open spec fn header_sound(h: Seq<u8>, file_size: u64) -> bool {
    &&& h.len() >= HEADER_CHECKED
    &&& h.subrange(0, 8) == MAGIC@
    &&& word(h, 8) == VERSION
    &&& word(h, 16) == HEADER_SIZE
    &&& word(h, 24) == RECORD_SIZE
    &&& word(h, 32) == RECORDS_OFFSET
    &&& word(h, 40) == PRICE_SCALE
    &&& word(h, 48) == TS_SCALE
    &&& word(h, 80) == file_size
}

/// Whether the header can be judged: where all else is sound, the number of
/// sources times the number of symbols is a `u64`.
pub open spec fn header_judged(h: Seq<u8>, file_size: u64) -> bool {
    header_sound(h, file_size) ==> word(h, 56) * word(h, 64) <= u64::MAX
}

/// What is wrong with the header of a table of `file_size` bytes, if anything:
/// the first check that fails, in this order.
pub open spec fn header_fault(h: Seq<u8>, file_size: u64) -> Option<Seq<char>> {
    if h.len() < HEADER_CHECKED {
        Some(text::mismatch("Header too short"@, HEADER_CHECKED as nat, h.len()))
    } else if h.subrange(0, 8) != MAGIC@ {
        Some(
            "Invalid magic: expected "@ + text::bracketed(MAGIC@) + ", got "@ + text::bracketed(
                h.subrange(0, 8),
            ),
        )
    } else if word(h, 8) != VERSION {
        Some(text::mismatch("Invalid version"@, VERSION as nat, word(h, 8) as nat))
    } else if word(h, 16) != HEADER_SIZE {
        Some(text::mismatch("Invalid header_size"@, HEADER_SIZE as nat, word(h, 16) as nat))
    } else if word(h, 24) != RECORD_SIZE {
        Some(text::mismatch("Invalid record_size"@, RECORD_SIZE as nat, word(h, 24) as nat))
    } else if word(h, 32) != RECORDS_OFFSET {
        Some(text::mismatch("Invalid records_offset"@, RECORDS_OFFSET as nat, word(h, 32) as nat))
    } else if word(h, 40) != PRICE_SCALE {
        Some(text::mismatch("Invalid price_scale"@, PRICE_SCALE as nat, word(h, 40) as nat))
    } else if word(h, 48) != TS_SCALE {
        Some(text::mismatch("Invalid ts_scale"@, TS_SCALE as nat, word(h, 48) as nat))
    } else if word(h, 80) != file_size {
        Some(text::mismatch("File size mismatch"@, word(h, 80) as nat, file_size as nat))
    } else if word(h, 72) != word(h, 56) * word(h, 64) {
        Some(
            text::mismatch(
                "Invalid n_records"@,
                (word(h, 56) * word(h, 64)) as nat,
                word(h, 72) as nat,
            ),
        )
    } else {
        None
    }
}

/// The number in the eight bytes from `at` on.
pub fn read_u64(mem: &[u8], at: usize) -> (r: u64)
    requires
        at + 8 <= mem@.len(),
    ensures
        r == word(mem@, at as int),
{
    bytes::read_le(mem, at, 8)
}

/// Whether the first eight bytes are the magic ones.
fn has_magic(h: &[u8]) -> (b: bool)
    requires
        h@.len() >= 8,
    ensures
        b == (h@.subrange(0, 8) == MAGIC@),
{
    let mut i: usize = 0;
    while i < 8
        invariant
            i <= 8,
            h@.len() >= 8,
            forall|j: int| 0 <= j < i ==> h@[j] == MAGIC@[j],
        decreases 8 - i,
    {
        if h[i] != MAGIC[i] {
            assert(h@.subrange(0, 8)[i as int] != MAGIC@[i as int]);
            return false;
        }
        i = i + 1;
    }
    assert(h@.subrange(0, 8) =~= MAGIC@);
    true
}

/// Byte offset of a slot in a table with so many symbols.
pub open spec fn slot_offset(symbols: int, source_id: int, symbol_id: int) -> int {
    RECORDS_OFFSET + (source_id * symbols + symbol_id) * RECORD_SIZE
}

/// One store of eight bytes into the table. A release store becomes visible
/// after all stores before it; the stores behind it are plain, and on a machine
/// with weak ordering may become visible before it.
#[derive(Debug, Clone, Copy, PartialEq, Eq, Structural)]
pub struct Store {
    pub offset: u64,
    pub value: u64,
    pub release: bool,
}

/// Writer of the table: how many sources and symbols it has.
pub struct ShmWriter {
    records_offset: u64,
    n_symbols: u64,
    n_sources: u64,
}

impl ShmWriter {
    #[verifier::type_invariant]
    closed spec fn inv(self) -> bool {
        &&& self.records_offset == RECORDS_OFFSET
        &&& self.n_sources * self.n_symbols <= u64::MAX
    }

    pub closed spec fn sources(self) -> u64 {
        self.n_sources
    }

    pub closed spec fn symbols(self) -> u64 {
        self.n_symbols
    }

    /// A writer for the table whose file is `file_size` bytes long and begins
    /// with `header`, or the text of what is wrong with it.
    pub fn open(header: &[u8], file_size: u64) -> (r: Result<Self, String>)
        requires
            header_judged(header@, file_size),
        ensures
            match r {
                Ok(w) => {
                    &&& header_fault(header@, file_size) is None
                    &&& w.sources() == word(header@, 56)
                    &&& w.symbols() == word(header@, 64)
                    &&& w.sources() * w.symbols() == word(header@, 72)
                },
                Err(e) => header_fault(header@, file_size) == Some(e@),
            },
    {
        if header.len() < HEADER_CHECKED {
            return Err(
                text::mismatch_text("Header too short", HEADER_CHECKED as u64, header.len() as u64),
            );
        }
        if !has_magic(header) {
            let mut e: String = String::from_str("Invalid magic: expected ");
            text::push_bracketed(&mut e, &MAGIC);
            e.append(", got ");
            let first: &[u8] = vstd::slice::slice_subrange(header, 0, 8);
            text::push_bracketed(&mut e, first);
            return Err(e);
        }
        let version: u64 = read_u64(header, 8);
        if version != VERSION {
            return Err(text::mismatch_text("Invalid version", VERSION, version));
        }
        let header_size: u64 = read_u64(header, 16);
        if header_size != HEADER_SIZE {
            return Err(text::mismatch_text("Invalid header_size", HEADER_SIZE, header_size));
        }
        let record_size: u64 = read_u64(header, 24);
        if record_size != RECORD_SIZE {
            return Err(text::mismatch_text("Invalid record_size", RECORD_SIZE, record_size));
        }
        let records_offset: u64 = read_u64(header, 32);
        if records_offset != RECORDS_OFFSET {
            return Err(text::mismatch_text("Invalid records_offset", RECORDS_OFFSET, records_offset));
        }
        let price_scale: u64 = read_u64(header, 40);
        if price_scale != PRICE_SCALE {
            return Err(text::mismatch_text("Invalid price_scale", PRICE_SCALE, price_scale));
        }
        let ts_scale: u64 = read_u64(header, 48);
        if ts_scale != TS_SCALE {
            return Err(text::mismatch_text("Invalid ts_scale", TS_SCALE, ts_scale));
        }
        let n_sources: u64 = read_u64(header, 56);
        let n_symbols: u64 = read_u64(header, 64);
        let n_records: u64 = read_u64(header, 72);
        let shm_total_size: u64 = read_u64(header, 80);
        if file_size != shm_total_size {
            return Err(text::mismatch_text("File size mismatch", shm_total_size, file_size));
        }
        let product: u64 = n_sources * n_symbols;
        if n_records != product {
            return Err(text::mismatch_text("Invalid n_records", product, n_records));
        }
        Ok(ShmWriter { records_offset, n_symbols, n_sources })
    }

    /// Whether a header can be judged: what [`Self::open`] asks of it.
    pub fn can_judge(header: &[u8], file_size: u64) -> (b: bool)
        ensures
            b == header_judged(header@, file_size),
    {
        if header.len() >= HEADER_CHECKED && has_magic(header) && read_u64(header, 8) == VERSION
            && read_u64(header, 16) == HEADER_SIZE && read_u64(header, 24) == RECORD_SIZE
            && read_u64(header, 32) == RECORDS_OFFSET && read_u64(header, 40) == PRICE_SCALE
            && read_u64(header, 48) == TS_SCALE && read_u64(header, 80) == file_size {
            read_u64(header, 56).checked_mul(read_u64(header, 64)).is_some()
        } else {
            true
        }
    }

    /// Whether the source and the symbol are in the table.
    pub open spec fn has(self, source_id: u64, symbol_id: u64) -> bool {
        source_id < self.sources() && symbol_id < self.symbols()
    }

    /// Whether the offset of the slot, if there is one, is a `u64`.
    pub open spec fn reaches(self, source_id: u64, symbol_id: u64) -> bool {
        self.has(source_id, symbol_id) ==> slot_offset(
            self.symbols() as int,
            source_id as int,
            symbol_id as int,
        ) <= u64::MAX
    }

    /// The text of the complaint about a source or symbol that is not there.
    pub open spec fn absence(self, source_id: u64, symbol_id: u64) -> Seq<char> {
        if source_id >= self.sources() {
            "source_id "@ + text::dec(source_id as nat) + " out of range (max "@ + text::dec(
                self.sources() as nat,
            ) + ")"@
        } else {
            "symbol_id "@ + text::dec(symbol_id as nat) + " out of range (max "@ + text::dec(
                self.symbols() as nat,
            ) + ")"@
        }
    }

    /// Whether the offset of the slot, if there is one, is a `u64`: what
    /// [`Self::get_slot`] and [`Self::write_quote`] ask.
    pub fn can_reach(&self, source_id: u64, symbol_id: u64) -> (b: bool)
        ensures
            b == self.reaches(source_id, symbol_id),
    {
        if source_id >= self.n_sources || symbol_id >= self.n_symbols {
            return true;
        }
        let offset: u128 = 4096 + self.index(source_id, symbol_id) as u128 * 64;
        offset <= u64::MAX as u128
    }

    /// The number of the slot, counted from the first.
    fn index(&self, source_id: u64, symbol_id: u64) -> (r: u64)
        requires
            self.has(source_id, symbol_id),
        ensures
            r == source_id * self.symbols() + symbol_id,
    {
        proof {
            use_type_invariant(self);
            let (s, n, y, m) = (
                source_id as int,
                self.n_symbols as int,
                symbol_id as int,
                self.n_sources as int,
            );
            assert(0 <= s * n && s * n + y < m * n) by (nonlinear_arith)
                requires
                    0 <= s < m,
                    0 <= y < n,
            ;
        }
        source_id * self.n_symbols + symbol_id
    }

    /// Byte offset of the slot of a source and a symbol.
    pub fn get_slot(&self, source_id: u64, symbol_id: u64) -> (r: Result<u64, String>)
        requires
            self.reaches(source_id, symbol_id),
        ensures
            match r {
                Ok(offset) => {
                    &&& self.has(source_id, symbol_id)
                    &&& offset == slot_offset(
                        self.symbols() as int,
                        source_id as int,
                        symbol_id as int,
                    )
                },
                Err(e) => {
                    &&& !self.has(source_id, symbol_id)
                    &&& e@ == self.absence(source_id, symbol_id)
                },
            },
    {
        if source_id >= self.n_sources {
            return Err(out_of_range("source_id ", source_id, self.n_sources));
        }
        if symbol_id >= self.n_symbols {
            return Err(out_of_range("symbol_id ", symbol_id, self.n_symbols));
        }
        let index: u64 = self.index(source_id, symbol_id);
        proof {
            use_type_invariant(self);
        }
        Ok(self.records_offset + index * RECORD_SIZE)
    }

    /// The stores that put a quote into its slot, in their order. `seq0` is the
    /// sequence number that stands in the slot.
    pub fn write_quote(
        &self,
        source_id: u64,
        symbol_id: u64,
        bid: i64,
        ask: i64,
        ts_us: i64,
        seq0: u64,
    ) -> (r: Result<[Store; 9], String>)
        requires
            self.reaches(source_id, symbol_id),
        ensures
            match r {
                Ok(stores) => {
                    &&& self.has(source_id, symbol_id)
                    &&& stores@ == quote_stores(
                        slot_offset(self.symbols() as int, source_id as int, symbol_id as int),
                        seq0,
                        source_id,
                        symbol_id,
                        bid,
                        ask,
                        ts_us,
                    )
                },
                Err(e) => {
                    &&& !self.has(source_id, symbol_id)
                    &&& e@ == self.absence(source_id, symbol_id)
                },
            },
    {
        let at: u64 = match self.get_slot(source_id, symbol_id) {
            Ok(at) => at,
            Err(e) => {
                return Err(e);
            },
        };
        assert(at % 64 == 0);
        let stores: [Store; 9] = [
            Store { offset: at, value: seq0.wrapping_add(1), release: true },
            Store { offset: at + 8, value: source_id, release: false },
            Store { offset: at + 16, value: symbol_id, release: false },
            Store { offset: at + 24, value: bytes::to_bits64(bid), release: false },
            Store { offset: at + 32, value: bytes::to_bits64(ask), release: false },
            Store { offset: at + 40, value: bytes::to_bits64(ts_us), release: false },
            Store { offset: at + 48, value: 0, release: false },
            Store { offset: at + 56, value: 0, release: false },
            Store { offset: at, value: seq0.wrapping_add(2), release: true },
        ];
        assert(stores@ =~= quote_stores(
            at as int,
            seq0,
            source_id,
            symbol_id,
            bid,
            ask,
            ts_us,
        ));
        Ok(stores)
    }
}

/// Complains that a number is beyond the table.
fn out_of_range(what: &str, id: u64, max: u64) -> (r: String)
    ensures
        r@ == what@ + text::dec(id as nat) + " out of range (max "@ + text::dec(max as nat) + ")"@,
{
    let mut r: String = String::from_str(what);
    text::push_dec(&mut r, id as u128);
    r.append(" out of range (max ");
    text::push_dec(&mut r, max as u128);
    r.append(")");
    r
}

/// The number `n` above `seq`, modulo `2^64`.
pub open spec fn seq_after(seq: u64, n: int) -> u64 {
    ((seq + n) % 0x1_0000_0000_0000_0000) as u64
}

/// The stores that put a quote into the slot at `at`: the sequence number goes
/// up by one, the fields change, the sequence number goes up by one again.
pub open spec fn quote_stores(
    at: int,
    seq0: u64,
    source_id: u64,
    symbol_id: u64,
    bid: i64,
    ask: i64,
    ts: i64,
) -> Seq<Store> {
    seq![
        Store { offset: at as u64, value: seq_after(seq0, 1), release: true },
        Store { offset: (at + 8) as u64, value: source_id, release: false },
        Store { offset: (at + 16) as u64, value: symbol_id, release: false },
        Store { offset: (at + 24) as u64, value: bytes::bits64(bid as int) as u64, release: false },
        Store { offset: (at + 32) as u64, value: bytes::bits64(ask as int) as u64, release: false },
        Store { offset: (at + 40) as u64, value: bytes::bits64(ts as int) as u64, release: false },
        Store { offset: (at + 48) as u64, value: 0, release: false },
        Store { offset: (at + 56) as u64, value: 0, release: false },
        Store { offset: at as u64, value: seq_after(seq0, 2), release: true },
    ]
}

/// What a store leaves in memory.
pub open spec fn stored(mem: Seq<u8>, s: Store) -> Seq<u8> {
    bytes::overwrite(mem, s.offset as int, bytes::le(s.value as nat, 8))
}

/// What some stores, one after the other, leave in memory.
pub open spec fn all_stored(mem: Seq<u8>, stores: Seq<Store>) -> Seq<u8>
    decreases stores.len(),
{
    if stores.len() == 0 {
        mem
    } else {
        stored(all_stored(mem, stores.drop_last()), stores.last())
    }
}

/// What stands in memory after `k` of the stores of a quote.
pub open spec fn midway(
    mem: Seq<u8>,
    at: int,
    source_id: u64,
    symbol_id: u64,
    bid: i64,
    ask: i64,
    ts: i64,
    k: int,
) -> Seq<u8> {
    all_stored(
        mem,
        quote_stores(at, word(mem, at), source_id, symbol_id, bid, ask, ts).take(k),
    )
}

/// One store changes one word and no other byte.
proof fn lemma_stored(mem: Seq<u8>, s: Store)
    requires
        s.offset + 8 <= mem.len(),
    ensures
        stored(mem, s).len() == mem.len(),
        word(stored(mem, s), s.offset as int) == s.value,
        forall|i: int|
            0 <= i < mem.len() && !(s.offset <= i < s.offset + 8) ==> stored(mem, s)[i] == mem[i],
        forall|at: int|
            0 <= at && at + 8 <= mem.len() && (at + 8 <= s.offset || s.offset + 8 <= at)
                ==> #[trigger] word(stored(mem, s), at) == word(mem, at),
{
    let at = s.offset as int;
    bytes::lemma_pow256();
    bytes::law_le_round_trip(s.value as nat, 8);
    let after = stored(mem, s);
    assert(after.subrange(at, at + 8) =~= bytes::le(s.value as nat, 8));
    assert forall|other: int|
        0 <= other && other + 8 <= mem.len() && (other + 8 <= s.offset || s.offset + 8
            <= other) implies #[trigger] word(after, other) == word(mem, other) by {
        assert(after.subrange(other, other + 8) =~= mem.subrange(other, other + 8));
    }
}

/// What holds after `k` of the stores of a quote: the sequence number has gone
/// up by one after the first and by two after the last, the fields before the
/// `k`-th word are new, and no byte outside the slot has changed.
proof fn lemma_midway(
    mem: Seq<u8>,
    at: int,
    source_id: u64,
    symbol_id: u64,
    bid: i64,
    ask: i64,
    ts: i64,
    k: int,
)
    requires
        0 <= at,
        at + 64 <= mem.len() <= u64::MAX,
        0 <= k <= 9,
    ensures
        ({
            let after = midway(mem, at, source_id, symbol_id, bid, ask, ts, k);
            &&& after.len() == mem.len()
            &&& forall|i: int|
                0 <= i < mem.len() && !(at <= i < at + 64) ==> after[i] == mem[i]
            &&& word(after, at) == seq_after(
                word(mem, at),
                if k == 0 {
                    0
                } else if k < 9 {
                    1
                } else {
                    2
                },
            )
            &&& k > 1 ==> word(after, at + 8) == source_id
            &&& k > 2 ==> word(after, at + 16) == symbol_id
            &&& k > 3 ==> word(after, at + 24) == bytes::bits64(bid as int)
            &&& k > 4 ==> word(after, at + 32) == bytes::bits64(ask as int)
            &&& k > 5 ==> word(after, at + 40) == bytes::bits64(ts as int)
            &&& k > 6 ==> word(after, at + 48) == 0
            &&& k > 7 ==> word(after, at + 56) == 0
        }),
    decreases k,
{
    let stores = quote_stores(at, word(mem, at), source_id, symbol_id, bid, ask, ts);
    if k == 0 {
        assert(stores.take(0) =~= Seq::empty());
    } else {
        lemma_midway(mem, at, source_id, symbol_id, bid, ask, ts, k - 1);
        assert(stores.take(k).drop_last() =~= stores.take(k - 1));
        lemma_stored(
            midway(mem, at, source_id, symbol_id, bid, ask, ts, k - 1),
            stores[k - 1],
        );
    }
}

/// Once all stores of a quote are done its slot holds the quote, under a
/// sequence number two higher, and nothing outside the slot has changed.
pub proof fn law_quote_lands(
    mem: Seq<u8>,
    at: int,
    source_id: u64,
    symbol_id: u64,
    bid: i64,
    ask: i64,
    ts: i64,
)
    requires
        0 <= at,
        at + 64 <= mem.len() <= u64::MAX,
    ensures
        ({
            let stores = quote_stores(at, word(mem, at), source_id, symbol_id, bid, ask, ts);
            let after = all_stored(mem, stores);
            &&& record(after, at) == (Quote64 {
                seq: seq_after(word(mem, at), 2),
                source_id,
                symbol_id,
                bid,
                ask,
                ts,
                reserved0: 0,
                reserved1: 0,
            })
            &&& after.len() == mem.len()
            &&& forall|i: int|
                0 <= i < mem.len() && !(at <= i < at + 64) ==> after[i] == mem[i]
        }),
{
    let stores = quote_stores(at, word(mem, at), source_id, symbol_id, bid, ask, ts);
    assert(stores.take(9) =~= stores);
    lemma_midway(mem, at, source_id, symbol_id, bid, ask, ts, 9);
}

/// While the stores of a quote are under way the sequence number is one higher
/// than it was before: odd, if it was even.
pub proof fn law_quote_under_way(
    mem: Seq<u8>,
    at: int,
    source_id: u64,
    symbol_id: u64,
    bid: i64,
    ask: i64,
    ts: i64,
    k: int,
)
    requires
        0 <= at,
        at + 64 <= mem.len() <= u64::MAX,
        0 < k < 9,
    ensures
        ({
            let after = midway(mem, at, source_id, symbol_id, bid, ask, ts, k);
            &&& word(after, at) == seq_after(word(mem, at), 1)
            &&& word(mem, at) % 2 == 0 ==> word(after, at) % 2 == 1
        }),
{
    lemma_midway(mem, at, source_id, symbol_id, bid, ask, ts, k);
}

/// The slots of two different pairs of source and symbol share no byte; each
/// is aligned to its size, behind the header and before the end of the records.
pub proof fn law_slots_apart(
    sources: int,
    symbols: int,
    source_a: int,
    symbol_a: int,
    source_b: int,
    symbol_b: int,
)
    requires
        0 <= source_a < sources,
        0 <= symbol_a < symbols,
        0 <= source_b < sources,
        0 <= symbol_b < symbols,
    ensures
        ({
            let a = slot_offset(symbols, source_a, symbol_a);
            let b = slot_offset(symbols, source_b, symbol_b);
            &&& HEADER_SIZE <= a
            &&& a % 64 == 0
            &&& a + RECORD_SIZE <= RECORDS_OFFSET + sources * symbols * RECORD_SIZE
            &&& (source_a, symbol_a) != (source_b, symbol_b) ==> a + RECORD_SIZE <= b || b
                + RECORD_SIZE <= a
        }),
{
    assert(0 <= source_a * symbols && source_a * symbols + symbol_a < sources * symbols)
        by (nonlinear_arith)
        requires
            0 <= source_a < sources,
            0 <= symbol_a < symbols,
    ;
    if source_a < source_b {
        assert(source_a * symbols + symbols <= source_b * symbols) by (nonlinear_arith)
            requires
                source_a < source_b,
                0 <= symbol_a < symbols,
        ;
    } else if source_b < source_a {
        assert(source_b * symbols + symbols <= source_a * symbols) by (nonlinear_arith)
            requires
                source_b < source_a,
                0 <= symbol_a < symbols,
        ;
    }
}

/// What stands in memory once the first `n` of the quotes, each a bid, an ask
/// and a time, have been stored into the slot at `at`.
pub open spec fn after_quotes(
    mem: Seq<u8>,
    at: int,
    source_id: u64,
    symbol_id: u64,
    quotes: Seq<(i64, i64, i64)>,
    n: int,
) -> Seq<u8>
    decreases n,
{
    if n <= 0 {
        mem
    } else {
        let (bid, ask, ts) = quotes[n - 1];
        let before = after_quotes(mem, at, source_id, symbol_id, quotes, n - 1);
        midway(before, at, source_id, symbol_id, bid, ask, ts, 9)
    }
}

/// What stands in memory at moment `t`, that is after the first `t` stores of
/// a run of quotes, where stores become visible in their order.
pub open spec fn at_moment(
    mem: Seq<u8>,
    at: int,
    source_id: u64,
    symbol_id: u64,
    quotes: Seq<(i64, i64, i64)>,
    t: int,
) -> Seq<u8> {
    let (bid, ask, ts) = quotes[t / 9];
    let before = after_quotes(mem, at, source_id, symbol_id, quotes, t / 9);
    midway(before, at, source_id, symbol_id, bid, ask, ts, t % 9)
}

#[verifier::spinoff_prover]
#[verifier::rlimit(30)]
proof fn lemma_after_quotes(
    mem: Seq<u8>,
    at: int,
    source_id: u64,
    symbol_id: u64,
    quotes: Seq<(i64, i64, i64)>,
    n: int,
)
    requires
        0 <= at,
        at + 64 <= mem.len() <= u64::MAX,
        0 <= n <= quotes.len(),
    ensures
        ({
            let after = after_quotes(mem, at, source_id, symbol_id, quotes, n);
            &&& after.len() == mem.len()
            &&& word(after, at) == seq_after(word(mem, at), 2 * n)
            &&& n > 0 ==> record(after, at) == (Quote64 {
                seq: seq_after(word(mem, at), 2 * n),
                source_id,
                symbol_id,
                bid: quotes[n - 1].0,
                ask: quotes[n - 1].1,
                ts: quotes[n - 1].2,
                reserved0: 0,
                reserved1: 0,
            })
        }),
    decreases n,
{
    if n > 0 {
        lemma_after_quotes(mem, at, source_id, symbol_id, quotes, n - 1);
        let before = after_quotes(mem, at, source_id, symbol_id, quotes, n - 1);
        let (bid, ask, ts) = quotes[n - 1];
        lemma_midway(before, at, source_id, symbol_id, bid, ask, ts, 9);
    }
}

/// The sequence number at moment `t`.
proof fn lemma_moment(
    mem: Seq<u8>,
    at: int,
    source_id: u64,
    symbol_id: u64,
    quotes: Seq<(i64, i64, i64)>,
    t: int,
)
    requires
        0 <= at,
        at + 64 <= mem.len() <= u64::MAX,
        0 <= t < 9 * quotes.len(),
    ensures
        word(at_moment(mem, at, source_id, symbol_id, quotes, t), at) == seq_after(
            seq_after(word(mem, at), 2 * (t / 9)),
            if t % 9 == 0 {
                0
            } else {
                1
            },
        ),
{
    let n = t / 9;
    let (bid, ask, ts) = quotes[n];
    lemma_after_quotes(mem, at, source_id, symbol_id, quotes, n);
    let before = after_quotes(mem, at, source_id, symbol_id, quotes, n);
    lemma_midway(before, at, source_id, symbol_id, bid, ask, ts, t % 9);
}

/// Two moments with the same even sequence number lie between two quotes, and
/// between the same two.
proof fn lemma_same_even(seq: u64, a: int, i: int, b: int, j: int)
    requires
        seq % 2 == 0,
        0 <= a < 0x8000_0000_0000_0000,
        0 <= b < 0x8000_0000_0000_0000,
        seq_after(seq_after(seq, 2 * a), if i == 0 { 0 } else { 1 }) == seq_after(
            seq_after(seq, 2 * b),
            if j == 0 { 0 } else { 1 },
        ),
        seq_after(seq_after(seq, 2 * a), if i == 0 { 0 } else { 1 }) % 2 == 0,
    ensures
        i == 0,
        j == 0,
        a == b,
{
}

/// A reader that finds the same even sequence number before and after it reads
/// a slot that was at rest when a run of quotes began has read one whole
/// record: in all that time nothing in memory has changed, and the slot holds
/// the last quote that was stored, or what it held at first. The run is of
/// fewer than `2^63` quotes, after which sequence numbers come again.
///
/// Stores are taken to become visible in the order in which they are made, as
/// they do on a machine that keeps stores in order.
pub proof fn law_reader_sees_whole_record(
    mem: Seq<u8>,
    at: int,
    source_id: u64,
    symbol_id: u64,
    quotes: Seq<(i64, i64, i64)>,
    first: int,
    last: int,
    between: int,
)
    requires
        0 <= at,
        at + 64 <= mem.len() <= u64::MAX,
        quotes.len() < 0x8000_0000_0000_0000,
        0 <= first <= between <= last < 9 * quotes.len(),
        word(mem, at) % 2 == 0,
        word(at_moment(mem, at, source_id, symbol_id, quotes, first), at) % 2 == 0,
        word(at_moment(mem, at, source_id, symbol_id, quotes, first), at) == word(
            at_moment(mem, at, source_id, symbol_id, quotes, last),
            at,
        ),
    ensures
        ({
            let seen = at_moment(mem, at, source_id, symbol_id, quotes, between);
            let n = first / 9;
            &&& seen == at_moment(mem, at, source_id, symbol_id, quotes, first)
            &&& record(seen, at) == if n == 0 {
                record(mem, at)
            } else {
                Quote64 {
                    seq: seq_after(word(mem, at), 2 * n),
                    source_id,
                    symbol_id,
                    bid: quotes[n - 1].0,
                    ask: quotes[n - 1].1,
                    ts: quotes[n - 1].2,
                    reserved0: 0,
                    reserved1: 0,
                }
            }
        }),
{
    let (a, b) = (first / 9, last / 9);
    lemma_moment(mem, at, source_id, symbol_id, quotes, first);
    lemma_moment(mem, at, source_id, symbol_id, quotes, last);
    lemma_same_even(word(mem, at), a, first % 9, b, last % 9);
    assert(first == 9 * a && last == 9 * b);
    assert(between == first);
    lemma_after_quotes(mem, at, source_id, symbol_id, quotes, a);
    let before = after_quotes(mem, at, source_id, symbol_id, quotes, a);
    let (bid, ask, ts) = quotes[a];
    let stores = quote_stores(at, word(before, at), source_id, symbol_id, bid, ask, ts);
    assert(stores.take(0) =~= Seq::empty());
}

/// The slots lie one behind the other: the first one behind the header at byte
/// 4096, that of the next symbol of a source 64 bytes further on, and that of the
/// same symbol of the next source 64 bytes for each symbol further on.
pub proof fn law_slots_in_order(symbols: int, source_id: int, symbol_id: int)
    ensures
        slot_offset(symbols, 0, 0) == 4096,
        slot_offset(symbols, source_id, symbol_id + 1) == slot_offset(
            symbols,
            source_id,
            symbol_id,
        ) + 64,
        slot_offset(symbols, source_id + 1, symbol_id) == slot_offset(
            symbols,
            source_id,
            symbol_id,
        ) + 64 * symbols,
        slot_offset(symbols, source_id, symbol_id) == 4096 + 64 * (source_id * symbols
            + symbol_id),
{
    assert((source_id + 1) * symbols == source_id * symbols + symbols) by (nonlinear_arith);
    assert(0 * symbols == 0) by (nonlinear_arith);
}

/// A quote is put into its slot by nine stores. The first and the last, and no
/// others, go to the sequence number and are release stores; the seven between
/// them go to the other words of the slot, one each.
pub proof fn law_stores_of_quote(
    at: int,
    seq0: u64,
    source_id: u64,
    symbol_id: u64,
    bid: i64,
    ask: i64,
    ts: i64,
)
    requires
        0 <= at,
        at + 64 <= u64::MAX,
    ensures
        ({
            let stores = quote_stores(at, seq0, source_id, symbol_id, bid, ask, ts);
            &&& stores.len() == 9
            &&& forall|i: int|
                #![trigger stores[i]]
                0 <= i < 9 ==> {
                    &&& stores[i].release <==> i == 0 || i == 8
                    &&& stores[i].offset == at + 8 * (i % 8)
                }
            &&& seq0 < u64::MAX - 1 ==> stores[0].value == seq0 + 1 && stores[8].value == seq0 + 2
        }),
{
}

/// Where the parts of a quote stand in its slot once it has been stored, byte by
/// byte: the sequence number first, then source, symbol, bid, ask, time and two
/// words of zero, each of eight bytes, least significant first, numbers with a
/// sign in two's complement.
pub proof fn law_quote_bytes(
    mem: Seq<u8>,
    at: int,
    source_id: u64,
    symbol_id: u64,
    bid: i64,
    ask: i64,
    ts: i64,
)
    requires
        0 <= at,
        at + 64 <= mem.len() <= u64::MAX,
        bytes::le_value(mem.subrange(at, at + 8)) < u64::MAX - 1,
    ensures
        ({
            let seq0 = word(mem, at);
            let after = all_stored(
                mem,
                quote_stores(at, seq0, source_id, symbol_id, bid, ask, ts),
            );
            &&& seq0 == bytes::le_value(mem.subrange(at, at + 8))
            &&& bytes::le_value(after.subrange(at, at + 8)) == seq0 + 2
            &&& bytes::le_value(after.subrange(at + 8, at + 16)) == source_id
            &&& bytes::le_value(after.subrange(at + 16, at + 24)) == symbol_id
            &&& bytes::signed64(bytes::le_value(after.subrange(at + 24, at + 32))) == bid
            &&& bytes::signed64(bytes::le_value(after.subrange(at + 32, at + 40))) == ask
            &&& bytes::signed64(bytes::le_value(after.subrange(at + 40, at + 48))) == ts
            &&& bytes::le_value(after.subrange(at + 48, at + 56)) == 0
            &&& bytes::le_value(after.subrange(at + 56, at + 64)) == 0
        }),
{
    let stores = quote_stores(at, word(mem, at), source_id, symbol_id, bid, ask, ts);
    assert(stores.take(9) =~= stores);
    lemma_midway(mem, at, source_id, symbol_id, bid, ask, ts, 9);
    let after = all_stored(mem, stores);
    lemma_word_is_value(mem, at);
    lemma_word_is_value(after, at);
    lemma_word_is_value(after, at + 8);
    lemma_word_is_value(after, at + 16);
    lemma_word_is_value(after, at + 24);
    lemma_word_is_value(after, at + 32);
    lemma_word_is_value(after, at + 40);
    lemma_word_is_value(after, at + 48);
    lemma_word_is_value(after, at + 56);
}

proof fn lemma_word_is_value(mem: Seq<u8>, at: int)
    requires
        0 <= at,
        at + 8 <= mem.len(),
    ensures
        word(mem, at) == bytes::le_value(mem.subrange(at, at + 8)),
{
    bytes::lemma_pow256();
    bytes::law_le_value_round_trip(mem.subrange(at, at + 8));
}

/// The number in eight bytes of a header.
pub open spec fn field(h: Seq<u8>, at: int) -> nat {
    bytes::le_value(h.subrange(at, at + 8))
}

/// Opening succeeds on every table whose header is 88 bytes or more and has the
/// magic bytes `QSHM1` and three zeros, version 1, a header of 4096 bytes, records
/// of 64 bytes from byte 4096 on, prices scaled by `10^8`, times by `10^6`, as many
/// records as sources times symbols, and the size of the file; and on no other.
#[verifier::spinoff_prover]
pub proof fn law_sound_table_opens(h: Seq<u8>, file_size: u64)
    ensures
        header_fault(h, file_size) is None <==> {
            &&& h.len() >= 88
            &&& h.subrange(0, 8) == seq![81u8, 83, 72, 77, 49, 0, 0, 0]
            &&& field(h, 8) == 1
            &&& field(h, 16) == 4096
            &&& field(h, 24) == 64
            &&& field(h, 32) == 4096
            &&& field(h, 40) == 100_000_000
            &&& field(h, 48) == 1_000_000
            &&& field(h, 80) == file_size
            &&& field(h, 72) == field(h, 56) * field(h, 64)
        },
        h.len() >= 88 ==> word(h, 56) == field(h, 56) && word(h, 64) == field(h, 64),
        field(h, 56) * field(h, 64) <= u64::MAX ==> header_judged(h, file_size),
{
    assert(MAGIC@ =~= seq![81u8, 83, 72, 77, 49, 0, 0, 0]);
    if h.len() >= 88 {
        lemma_word_is_value(h, 8);
        lemma_word_is_value(h, 16);
        lemma_word_is_value(h, 24);
        lemma_word_is_value(h, 32);
        lemma_word_is_value(h, 40);
        lemma_word_is_value(h, 48);
        lemma_word_is_value(h, 56);
        lemma_word_is_value(h, 64);
        lemma_word_is_value(h, 72);
        lemma_word_is_value(h, 80);
    }
}

/// The fields of a header that have one right value each, in the order in which
/// they are looked at: where they stand, that value, and how a complaint about them
/// begins.
pub open spec fn fixed_fields() -> Seq<(int, nat, Seq<char>)> {
    seq![
        (8, 1, "Invalid version: expected 1, got "@),
        (16, 4096, "Invalid header_size: expected 4096, got "@),
        (24, 64, "Invalid record_size: expected 64, got "@),
        (32, 4096, "Invalid records_offset: expected 4096, got "@),
        (40, 100_000_000, "Invalid price_scale: expected 100000000, got "@),
        (48, 1_000_000, "Invalid ts_scale: expected 1000000, got "@),
    ]
}

/// Whether the fixed fields before the `k`-th are right.
pub open spec fn right_before(h: Seq<u8>, k: int) -> bool {
    forall|j: int|
        0 <= j < k ==> field(h, (#[trigger] fixed_fields()[j]).0) == fixed_fields()[j].1
}

/// What a table that is not opened is complained about: the first thing that is
/// wrong, what was expected and what was found.
#[verifier::spinoff_prover]
#[verifier::rlimit(40)]
pub proof fn law_table_faults(h: Seq<u8>, file_size: u64, k: int)
    requires
        0 <= k < 6,
    ensures
        ({
            let fault = header_fault(h, file_size);
            let magic = seq![81u8, 83, 72, 77, 49, 0, 0, 0];
            let sound = h.len() >= 88 && h.subrange(0, 8) == magic;
            let (at, expected, complaint) = fixed_fields()[k];
            &&& h.len() < 88 ==> fault == Some(
                "Header too short: expected 88, got "@ + text::dec(h.len()),
            )
            &&& h.len() >= 88 && h.subrange(0, 8) != magic ==> fault == Some(
                "Invalid magic: expected "@ + text::bracketed(magic) + ", got "@
                    + text::bracketed(h.subrange(0, 8)),
            )
            &&& sound && right_before(h, k) && field(h, at) != expected ==> fault == Some(
                complaint + text::dec(field(h, at)),
            )
            &&& sound && right_before(h, 6) && field(h, 80) != file_size ==> fault == Some(
                "File size mismatch: expected "@ + text::dec(field(h, 80)) + ", got "@ + text::dec(
                    file_size as nat,
                ),
            )
            &&& sound && right_before(h, 6) && field(h, 80) == file_size && field(h, 72) != field(
                h,
                56,
            ) * field(h, 64) ==> fault == Some(
                "Invalid n_records: expected "@ + text::dec(field(h, 56) * field(h, 64))
                    + ", got "@ + text::dec(field(h, 72)),
            )
        }),
{
    let fields = fixed_fields();
    assert(MAGIC@ =~= seq![81u8, 83, 72, 77, 49, 0, 0, 0]);
    lemma_complaints();
    if h.len() >= 88 {
        lemma_word_is_value(h, 8);
        lemma_word_is_value(h, 16);
        lemma_word_is_value(h, 24);
        lemma_word_is_value(h, 32);
        lemma_word_is_value(h, 40);
        lemma_word_is_value(h, 48);
        lemma_word_is_value(h, 56);
        lemma_word_is_value(h, 64);
        lemma_word_is_value(h, 72);
        lemma_word_is_value(h, 80);
        let e = right_before(h, k);
        assert(e && k > 0 ==> field(h, fields[0].0) == 1);
        assert(e && k > 1 ==> field(h, fields[1].0) == 4096);
        assert(e && k > 2 ==> field(h, fields[2].0) == 64);
        assert(e && k > 3 ==> field(h, fields[3].0) == 4096);
        assert(e && k > 4 ==> field(h, fields[4].0) == 100_000_000);
        let all = right_before(h, 6);
        assert(all ==> field(h, fields[0].0) == 1);
        assert(all ==> field(h, fields[1].0) == 4096);
        assert(all ==> field(h, fields[2].0) == 64);
        assert(all ==> field(h, fields[3].0) == 4096);
        assert(all ==> field(h, fields[4].0) == 100_000_000);
        assert(all ==> field(h, fields[5].0) == 1_000_000);
    }
}

/// How complaints about a number begin.
proof fn lemma_complaints()
    ensures
        "Header too short"@ + ": expected "@ + text::dec(88) + ", got "@
            == "Header too short: expected 88, got "@,
        "Invalid version"@ + ": expected "@ + text::dec(1) + ", got "@
            == "Invalid version: expected 1, got "@,
        "Invalid header_size"@ + ": expected "@ + text::dec(4096) + ", got "@
            == "Invalid header_size: expected 4096, got "@,
        "Invalid record_size"@ + ": expected "@ + text::dec(64) + ", got "@
            == "Invalid record_size: expected 64, got "@,
        "Invalid records_offset"@ + ": expected "@ + text::dec(4096) + ", got "@
            == "Invalid records_offset: expected 4096, got "@,
        "Invalid price_scale"@ + ": expected "@ + text::dec(100_000_000) + ", got "@
            == "Invalid price_scale: expected 100000000, got "@,
        "Invalid ts_scale"@ + ": expected "@ + text::dec(1_000_000) + ", got "@
            == "Invalid ts_scale: expected 1000000, got "@,
        "File size mismatch"@ + ": expected "@ == "File size mismatch: expected "@,
        "Invalid n_records"@ + ": expected "@ == "Invalid n_records: expected "@,
{
    text::lemma_dec_values();
    reveal_strlit(": expected ");
    reveal_strlit(", got ");
    reveal_strlit("Header too short");
    reveal_strlit("Header too short: expected 88, got ");
    reveal_strlit("Invalid version");
    reveal_strlit("Invalid version: expected 1, got ");
    reveal_strlit("Invalid header_size");
    reveal_strlit("Invalid header_size: expected 4096, got ");
    reveal_strlit("Invalid record_size");
    reveal_strlit("Invalid record_size: expected 64, got ");
    reveal_strlit("Invalid records_offset");
    reveal_strlit("Invalid records_offset: expected 4096, got ");
    reveal_strlit("Invalid price_scale");
    reveal_strlit("Invalid price_scale: expected 100000000, got ");
    reveal_strlit("Invalid ts_scale");
    reveal_strlit("Invalid ts_scale: expected 1000000, got ");
    reveal_strlit("File size mismatch");
    reveal_strlit("File size mismatch: expected ");
    reveal_strlit("Invalid n_records");
    reveal_strlit("Invalid n_records: expected ");
}

/// A slot that is asked for is refused just where the source or the symbol is not in
/// the table. The complaint names the source, where it is not there, else the
/// symbol, with the number that was asked for and the number that there are.
pub proof fn law_absence(w: ShmWriter, source_id: u64, symbol_id: u64)
    ensures
        w.has(source_id, symbol_id) <==> source_id < w.sources() && symbol_id < w.symbols(),
        source_id >= w.sources() ==> text::split_on(w.absence(source_id, symbol_id), ' ') == seq![
            "source_id"@,
            text::dec(source_id as nat),
            "out"@,
            "of"@,
            "range"@,
            "(max"@,
            text::dec(w.sources() as nat) + ")"@,
        ],
        source_id < w.sources() ==> text::split_on(w.absence(source_id, symbol_id), ' ') == seq![
            "symbol_id"@,
            text::dec(symbol_id as nat),
            "out"@,
            "of"@,
            "range"@,
            "(max"@,
            text::dec(w.symbols() as nat) + ")"@,
        ],
        w.sources() * w.symbols() <= 0x100_0000_0000_0000 ==> w.reaches(source_id, symbol_id),
{
    reveal_strlit("source_id ");
    reveal_strlit("source_id");
    reveal_strlit("symbol_id ");
    reveal_strlit("symbol_id");
    assert("source_id "@ =~= "source_id"@ + seq![' ']);
    assert("symbol_id "@ =~= "symbol_id"@ + seq![' ']);
    if source_id >= w.sources() {
        lemma_absence_pieces("source_id"@, source_id as nat, w.sources() as nat);
    } else {
        lemma_absence_pieces("symbol_id"@, symbol_id as nat, w.symbols() as nat);
    }
    if w.has(source_id, symbol_id) {
        law_slots_apart(
            w.sources() as int,
            w.symbols() as int,
            source_id as int,
            symbol_id as int,
            source_id as int,
            symbol_id as int,
        );
    }
}

proof fn lemma_absence_pieces(what: Seq<char>, id: nat, max: nat)
    requires
        !what.contains(' '),
    ensures
        text::split_on(
            what + seq![' '] + text::dec(id) + " out of range (max "@ + text::dec(max) + ")"@,
            ' ',
        ) == seq![
            what,
            text::dec(id),
            "out"@,
            "of"@,
            "range"@,
            "(max"@,
            text::dec(max) + ")"@,
        ],
{
    let sp = seq![' '];
    let whole = what + sp + text::dec(id) + " out of range (max "@ + text::dec(max) + ")"@;
    reveal_strlit(" out of range (max ");
    reveal_strlit("out");
    reveal_strlit("of");
    reveal_strlit("range");
    reveal_strlit("(max");
    reveal_strlit(")");
    let end = text::dec(max) + ")"@;
    let r5 = "(max"@ + sp + end;
    let r4 = "range"@ + sp + r5;
    let r3 = "of"@ + sp + r4;
    let r2 = "out"@ + sp + r3;
    let r1 = text::dec(id) + sp + r2;
    assert(" out of range (max "@ =~= sp + "out"@ + sp + "of"@ + sp + "range"@ + sp + "(max"@ + sp);
    assert(whole =~= what + sp + r1);
    text::law_dec_writes_number(id);
    text::law_dec_writes_number(max);
    assert(!text::dec(id).contains(' '));
    assert(!end.contains(' ')) by {
        assert forall|i: int| 0 <= i < end.len() implies end[i] != ' ' by {
            if i < text::dec(max).len() {
                assert(end[i] == text::dec(max)[i]);
            }
        }
    }
    text::law_split_concat(what, r1, ' ');
    text::law_split_concat(text::dec(id), r2, ' ');
    text::law_split_concat("out"@, r3, ' ');
    text::law_split_concat("of"@, r4, ' ');
    text::law_split_concat("range"@, r5, ' ');
    text::law_split_concat("(max"@, end, ' ');
    text::lemma_split_whole(what, ' ');
    text::lemma_split_whole(text::dec(id), ' ');
    text::lemma_split_whole("out"@, ' ');
    text::lemma_split_whole("of"@, ' ');
    text::lemma_split_whole("range"@, ' ');
    text::lemma_split_whole("(max"@, ' ');
    text::lemma_split_whole(end, ' ');
    assert(text::split_on(whole, ' ') =~= seq![
        what,
        text::dec(id),
        "out"@,
        "of"@,
        "range"@,
        "(max"@,
        end,
    ]);
}

/// The number in a word is that of its eight bytes, least significant first.
pub proof fn law_word(mem: Seq<u8>, at: int)
    requires
        0 <= at,
        at + 8 <= mem.len(),
    ensures
        word(mem, at) == field(mem, at),
{
    lemma_word_is_value(mem, at);
}

} // verus!
