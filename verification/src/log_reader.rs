//! The reader of the log ring: what it shows of each message.

use crate::bytes;
use crate::ring;
use crate::text;
use vstd::prelude::*;
use vstd::string::*;
use vstd::utf8::*;

verus! {

pub const SPSC_MAGIC: u32 = 0x53505343;

pub const SPSC_ABI_VERSION: u16 = 1;

pub const MSG_SIZE: u16 = 256;

/// Bytes of the header. The slots begin behind it.
pub const HEADER_SIZE: usize = 128;

/// Where in the header the number of messages written stands.
pub const WRITE_SEQ_OFFSET: usize = 24;

/// Where in the header the number of messages read stands.
pub const READ_SEQ_OFFSET: usize = 32;

/// How long to wait where there is nothing to read, in milliseconds.
pub const IDLE_MS: u64 = 10;

/// Kinds of messages.
#[derive(Debug, Clone, Copy, PartialEq, Eq, Structural)]
pub enum MsgType {
    Info,
    Warning,
    Error,
    Unknown(u16),
}

impl From<u16> for MsgType {
    fn from(val: u16) -> (r: Self) {
        match val {
            1 => MsgType::Info,
            2 => MsgType::Warning,
            3 => MsgType::Error,
            _ => MsgType::Unknown(val),
        }
    }
}

impl vstd::std_specs::convert::FromSpecImpl<u16> for MsgType {
    open spec fn obeys_from_spec() -> bool {
        true
    }

    open spec fn from_spec(val: u16) -> Self {
        msg_type(val)
    }
}

/// The kind that a number stands for.
pub open spec fn msg_type(val: u16) -> MsgType {
    if val == 1 {
        MsgType::Info
    } else if val == 2 {
        MsgType::Warning
    } else if val == 3 {
        MsgType::Error
    } else {
        MsgType::Unknown(val)
    }
}

impl MsgType {
    pub open spec fn spec_label(self) -> Seq<char> {
        match self {
            MsgType::Info => "INFO"@,
            MsgType::Warning => "WARN"@,
            MsgType::Error => "ERROR"@,
            MsgType::Unknown(_) => "UNKNOWN"@,
        }
    }

    /// The word that stands for the kind in a line.
    pub fn label(self) -> (r: &'static str)
        ensures
            r@ == self.spec_label(),
    {
        match self {
            MsgType::Info => "INFO",
            MsgType::Warning => "WARN",
            MsgType::Error => "ERROR",
            MsgType::Unknown(_) => "UNKNOWN",
        }
    }
}

/// What is wrong with the header that memory begins with, if anything: the
/// first check that fails, in this order.
pub open spec fn header_fault(mem: Seq<u8>) -> Option<Seq<char>> {
    let magic = bytes::le_value(mem.subrange(0, 4));
    let abi_version = bytes::le_value(mem.subrange(4, 6));
    let msg_size = bytes::le_value(mem.subrange(6, 8));
    if mem.len() < HEADER_SIZE {
        Some(text::mismatch("Header too short"@, HEADER_SIZE as nat, mem.len()))
    } else if magic != SPSC_MAGIC {
        Some(text::magic_mismatch(SPSC_MAGIC as nat, magic))
    } else if abi_version != SPSC_ABI_VERSION {
        Some(text::mismatch("Invalid ABI version"@, SPSC_ABI_VERSION as nat, abi_version))
    } else if msg_size != MSG_SIZE {
        Some(text::mismatch("Invalid msg_size"@, MSG_SIZE as nat, msg_size))
    } else {
        None
    }
}

/// The number of slots that the header gives.
pub open spec fn ring_slots(mem: Seq<u8>) -> u64 {
    bytes::le_value(mem.subrange(8, 16)) as u64
}

/// Whether a ring whose header is sound has a slot, and a size in bytes that a
/// `usize` holds.
pub open spec fn measured(mem: Seq<u8>) -> bool {
    header_fault(mem) is None ==> 0 < ring_slots(mem) && HEADER_SIZE + ring_slots(mem) * MSG_SIZE
        <= usize::MAX
}

/// What a reader shows of a message: a complaint and a line.
pub ghost struct Shown {
    pub complaint: Option<Seq<char>>,
    pub line: Option<Seq<char>>,
}

/// The text of a message, of at most 208 bytes.
pub open spec fn payload(msg: Seq<u8>) -> Seq<u8> {
    let len = bytes::le_value(msg.subrange(24, 28));
    msg.subrange(
        48,
        if len < 208 {
            48 + len as int
        } else {
            256
        },
    )
}

/// What is shown of a message: nothing, where its version or its size is
/// another; else its time, kind and text, with a complaint where the kind is
/// not known.
pub open spec fn shown(msg: Seq<u8>) -> Shown {
    let abi_version = bytes::le_value(msg.subrange(0, 2));
    let kind = msg_type(bytes::le_value(msg.subrange(2, 4)) as u16);
    let msg_size = bytes::le_value(msg.subrange(4, 6));
    let timestamp_us = bytes::signed64(bytes::le_value(msg.subrange(8, 16)));
    if abi_version == SPSC_ABI_VERSION && msg_size == MSG_SIZE {
        Shown {
            complaint: match kind {
                MsgType::Unknown(t) => Some("Unknown msg_type: "@ + text::dec(t as nat)),
                _ => None,
            },
            line: Some(
                "["@ + text::dec_int(timestamp_us) + "] ["@ + kind.spec_label() + "] "@
                    + text::lossy(payload(msg)),
            ),
        }
    } else {
        Shown { complaint: None, line: None }
    }
}

/// What the reader is to do.
pub enum Poll {
    /// Nothing to read: wait [`IDLE_MS`].
    Idle,
    /// Print the complaint to the error output and the line to the output, and
    /// store the number of messages read.
    Message { complaint: Option<String>, line: Option<String>, read_seq: u64 },
}

/// A text, if there is one, as a sequence of characters.
pub open spec fn option_view(s: Option<String>) -> Option<Seq<char>> {
    match s {
        Some(s) => Some(s@),
        None => None,
    }
}

/// What is to be shown of a message.
pub fn show(msg: &[u8]) -> (r: (Option<String>, Option<String>))
    requires
        msg@.len() == 256,
    ensures
        option_view(r.0) == shown(msg@).complaint,
        option_view(r.1) == shown(msg@).line,
{
    let abi_version: u64 = bytes::read_le(msg, 0, 2);
    let msg_size: u64 = bytes::read_le(msg, 4, 2);
    if abi_version != SPSC_ABI_VERSION as u64 || msg_size != MSG_SIZE as u64 {
        return (None, None);
    }
    proof {
        bytes::law_le_value_round_trip(msg@.subrange(2, 4));
        bytes::lemma_pow256();
    }
    let kind: MsgType = MsgType::from(bytes::read_le(msg, 2, 2) as u16);
    let complaint: Option<String> = match kind {
        MsgType::Unknown(t) => {
            let mut c: String = String::from_str("Unknown msg_type: ");
            text::push_dec(&mut c, t as u128);
            Some(c)
        },
        _ => None,
    };
    let payload_len: u64 = bytes::read_le(msg, 24, 4);
    let end: usize = if payload_len < 208 {
        48 + payload_len as usize
    } else {
        256
    };
    let body: &[u8] = vstd::slice::slice_subrange(msg, 48, end);
    let mut line: String = String::from_str("[");
    text::push_dec_int(&mut line, bytes::from_bits64(bytes::read_le(msg, 8, 8)));
    line.append("] [");
    line.append(kind.label());
    line.append("] ");
    line.append(text::from_utf8_lossy(body).as_str());
    (complaint, Some(line))
}

/// Reader of the log ring.
pub struct RingReader {
    ring_slots: u64,
    local_read_seq: u64,
}

impl RingReader {
    #[verifier::type_invariant]
    closed spec fn inv(self) -> bool {
        0 < self.ring_slots && HEADER_SIZE + self.ring_slots * MSG_SIZE <= usize::MAX
    }

    /// The number of slots.
    pub closed spec fn slots(self) -> u64 {
        self.ring_slots
    }

    /// The number of the next message to read.
    pub closed spec fn next(self) -> u64 {
        self.local_read_seq
    }

    /// Where in memory the next message stands.
    pub open spec fn place(self) -> int {
        HEADER_SIZE + (self.next() & (self.slots() - 1) as u64) * MSG_SIZE
    }

    /// Whether [`Self::open`] can take the ring that memory begins with.
    pub fn can_open(mem: &[u8]) -> (b: bool)
        ensures
            b == measured(mem@),
    {
        if header_complaint(mem).is_some() {
            return true;
        }
        let slots: u64 = bytes::read_le(mem, 8, 8);
        0 < slots && 128 + slots as u128 * 256 <= usize::MAX as u128
    }

    /// A reader for the ring that memory begins with, which starts behind the
    /// messages written so far, or the text of what is wrong with its header.
    pub fn open(mem: &[u8], write_seq: u64) -> (r: Result<Self, String>)
        requires
            measured(mem@),
        ensures
            match r {
                Ok(reader) => {
                    &&& header_fault(mem@) is None
                    &&& reader.slots() == ring_slots(mem@)
                    &&& reader.next() == write_seq
                },
                Err(e) => header_fault(mem@) == Some(e@),
            },
    {
        if let Some(e) = header_complaint(mem) {
            return Err(e);
        }
        Ok(RingReader { ring_slots: bytes::read_le(mem, 8, 8), local_read_seq: write_seq })
    }

    /// The lines that say what is being read.
    pub fn banner(&self, path: &str) -> (r: Vec<String>)
        ensures
            r.deep_view() == seq![
                "SPSC Ring Buffer Reader"@,
                "Path: "@ + path@,
                "Ring slots: "@ + text::dec(self.slots() as nat),
                "Message size: "@ + text::dec(MSG_SIZE as nat) + " bytes"@,
                "Total size: "@ + text::dec(
                    ((HEADER_SIZE + self.slots() * MSG_SIZE) / 1024) as nat,
                ) + " KB"@,
                "---"@,
            ],
    {
        proof {
            use_type_invariant(self);
        }
        let mut path_line: String = String::from_str("Path: ");
        path_line.append(path);
        let mut slots_line: String = String::from_str("Ring slots: ");
        text::push_dec(&mut slots_line, self.ring_slots as u128);
        let mut size_line: String = String::from_str("Message size: ");
        text::push_dec(&mut size_line, MSG_SIZE as u128);
        size_line.append(" bytes");
        let total: usize = (HEADER_SIZE + self.ring_slots as usize * MSG_SIZE as usize) / 1024;
        let mut total_line: String = String::from_str("Total size: ");
        text::push_dec(&mut total_line, total as u128);
        total_line.append(" KB");
        let mut r: Vec<String> = Vec::new();
        r.push(String::from_str("SPSC Ring Buffer Reader"));
        r.push(path_line);
        r.push(slots_line);
        r.push(size_line);
        r.push(total_line);
        r.push(String::from_str("---"));
        assert(r.deep_view() =~= seq![
            "SPSC Ring Buffer Reader"@,
            "Path: "@ + path@,
            "Ring slots: "@ + text::dec(self.slots() as nat),
            "Message size: "@ + text::dec(MSG_SIZE as nat) + " bytes"@,
            "Total size: "@ + text::dec(
                ((HEADER_SIZE + self.slots() * MSG_SIZE) / 1024) as nat,
            ) + " KB"@,
            "---"@,
        ]);
        r
    }

    /// Whether the next message, if there is one, lies within memory of so many
    /// bytes.
    pub open spec fn reaches(self, len: nat, write_seq: u64) -> bool {
        self.next() < write_seq ==> self.place() + MSG_SIZE <= len
    }

    /// Whether [`Self::poll`] can be called with memory of so many bytes.
    pub fn can_poll(&self, len: usize, write_seq: u64) -> (b: bool)
        ensures
            b == self.reaches(len as nat, write_seq),
    {
        proof {
            use_type_invariant(self);
        }
        if self.local_read_seq >= write_seq {
            return true;
        }
        let idx: u64 = self.local_read_seq & (self.ring_slots - 1);
        128 + idx as u128 * 256 + 256 <= len as u128
    }

    /// Reads the next message, where `write_seq` says that there is one.
    pub fn poll(&mut self, mem: &[u8], write_seq: u64) -> (r: Poll)
        requires
            old(self).reaches(mem@.len(), write_seq),
        ensures
            final(self).slots() == old(self).slots(),
            match r {
                Poll::Idle => {
                    &&& old(self).next() >= write_seq
                    &&& final(self).next() == old(self).next()
                },
                Poll::Message { complaint, line, read_seq } => {
                    let msg = mem@.subrange(old(self).place(), old(self).place() + MSG_SIZE);
                    &&& old(self).next() < write_seq
                    &&& final(self).next() == old(self).next() + 1
                    &&& read_seq == final(self).next()
                    &&& option_view(complaint) == shown(msg).complaint
                    &&& option_view(line) == shown(msg).line
                },
            },
    {
        proof {
            use_type_invariant(&*self);
        }
        if self.local_read_seq < write_seq {
            let idx: u64 = self.local_read_seq & (self.ring_slots - 1);
            let len: usize = mem.len();
            let at: usize = HEADER_SIZE + idx as usize * 256;
            let msg: &[u8] = vstd::slice::slice_subrange(mem, at, at + 256);
            let (complaint, line) = show(msg);
            self.local_read_seq = self.local_read_seq + 1;
            Poll::Message { complaint, line, read_seq: self.local_read_seq }
        } else {
            Poll::Idle
        }
    }
}

/// What is wrong with the header, if anything.
fn header_complaint(mem: &[u8]) -> (r: Option<String>)
    ensures
        option_view(r) == header_fault(mem@),
{
    if mem.len() < HEADER_SIZE {
        return Some(
            text::mismatch_text("Header too short", HEADER_SIZE as u64, mem.len() as u64),
        );
    }
    proof {
        bytes::law_le_value_round_trip(mem@.subrange(0, 4));
        bytes::lemma_pow256();
    }
    let magic: u32 = bytes::read_le(mem, 0, 4) as u32;
    if magic != SPSC_MAGIC {
        return Some(text::magic_mismatch_text(SPSC_MAGIC, magic));
    }
    let abi_version: u64 = bytes::read_le(mem, 4, 2);
    if abi_version != SPSC_ABI_VERSION as u64 {
        return Some(
            text::mismatch_text("Invalid ABI version", SPSC_ABI_VERSION as u64, abi_version),
        );
    }
    let msg_size: u64 = bytes::read_le(mem, 6, 2);
    if msg_size != MSG_SIZE as u64 {
        return Some(text::mismatch_text("Invalid msg_size", MSG_SIZE as u64, msg_size));
    }
    None
}

/// Where the number of slots is a power of two, the reader looks for a message
/// in the slot that a writer of such a ring puts it into.
pub proof fn law_reader_finds_slot(reader: RingReader)
    requires
        ring::power_of_two(reader.slots() as nat),
    ensures
        reader.place() == ring::place(
            HEADER_SIZE as int,
            reader.slots() as nat,
            reader.next() as nat,
        ),
{
    ring::lemma_power_positive(reader.slots() as nat);
    ring::lemma_masked(reader.next(), (reader.slots() - 1) as u64);
}

/// A message laid out as the reader expects it: version, kind, size, time,
/// number and length of the text, then the text itself, filled up with zeros.
pub open spec fn laid_out(
    kind: u16,
    timestamp_us: i64,
    seq: u64,
    text: Seq<char>,
) -> Seq<u8> {
    let body = encode_utf8(text);
    bytes::le(SPSC_ABI_VERSION as nat, 2) + bytes::le(kind as nat, 2) + bytes::le(
        MSG_SIZE as nat,
        2,
    ) + bytes::le(0, 2) + bytes::le(bytes::bits64(timestamp_us as int), 8) + bytes::le(
        seq as nat,
        8,
    ) + bytes::le(body.len(), 4) + bytes::le(0, 20) + body + Seq::new(
        (208 - body.len()) as nat,
        |i: int| 0u8,
    )
}

/// Of a message with a text of at most 208 bytes the reader shows the time, the
/// kind and the text, all of it.
pub proof fn law_text_shown_whole(kind: u16, timestamp_us: i64, seq: u64, text: Seq<char>)
    requires
        encode_utf8(text).len() <= 208,
    ensures
        laid_out(kind, timestamp_us, seq, text).len() == 256,
        shown(laid_out(kind, timestamp_us, seq, text)).line == Some(
            "["@ + text::dec_int(timestamp_us as int) + "] ["@ + msg_type(kind).spec_label()
                + "] "@ + text,
        ),
        shown(laid_out(kind, timestamp_us, seq, text)).complaint is Some <==> !(1 <= kind <= 3),
{
    let body = encode_utf8(text);
    let msg = laid_out(kind, timestamp_us, seq, text);
    bytes::lemma_pow256();
    bytes::law_le_round_trip(SPSC_ABI_VERSION as nat, 2);
    bytes::law_le_round_trip(kind as nat, 2);
    bytes::law_le_round_trip(MSG_SIZE as nat, 2);
    bytes::lemma_le_len(0, 2);
    bytes::law_le_round_trip(bytes::bits64(timestamp_us as int), 8);
    bytes::lemma_le_len(seq as nat, 8);
    bytes::law_le_round_trip(body.len(), 4);
    bytes::lemma_le_len(0, 20);
    assert(msg.subrange(0, 2) =~= bytes::le(SPSC_ABI_VERSION as nat, 2));
    assert(msg.subrange(2, 4) =~= bytes::le(kind as nat, 2));
    assert(msg.subrange(4, 6) =~= bytes::le(MSG_SIZE as nat, 2));
    assert(msg.subrange(8, 16) =~= bytes::le(bytes::bits64(timestamp_us as int), 8));
    assert(msg.subrange(24, 28) =~= bytes::le(body.len(), 4));
    assert(payload(msg) =~= body);
    encode_utf8_valid_utf8(text);
    encode_utf8_decode_utf8(text);
}

/// The number in a stretch of a message.
pub open spec fn part(msg: Seq<u8>, from: int, to: int) -> nat {
    bytes::le_value(msg.subrange(from, to))
}

/// A message is shown just where its version is 1 and its size 256. Its line has the
/// time and the kind in square brackets and behind them the text, as long as the
/// message says but at most 208 bytes; there is a complaint just where the kind is
/// none of the three.
#[verifier::spinoff_prover]
pub proof fn law_what_is_shown(msg: Seq<u8>)
    requires
        msg.len() == 256,
    ensures
        ({
            let own = part(msg, 0, 2) == 1 && part(msg, 4, 6) == 256;
            let kind = part(msg, 2, 4);
            let len = part(msg, 24, 28);
            let word = if kind == 1 {
                "INFO"@
            } else if kind == 2 {
                "WARN"@
            } else if kind == 3 {
                "ERROR"@
            } else {
                "UNKNOWN"@
            };
            let text = msg.subrange(
                48,
                if len <= 208 {
                    48 + len as int
                } else {
                    256
                },
            );
            &&& shown(msg).line is Some <==> own
            &&& shown(msg).complaint is Some <==> own && !(1 <= kind <= 3)
            &&& own && !(1 <= kind <= 3) ==> shown(msg).complaint == Some(
                "Unknown msg_type: "@ + text::dec(kind),
            )
            &&& own ==> shown(msg).line == Some(
                seq!['['] + text::dec_int(bytes::signed64(part(msg, 8, 16))) + seq![
                    ']',
                    ' ',
                    '[',
                ] + word + seq![']', ' '] + if valid_utf8(text) {
                    decode_utf8(text)
                } else {
                    text::mended(text)
                },
            )
        }),
{
    bytes::lemma_pow256();
    bytes::law_le_value_round_trip(msg.subrange(2, 4));
    reveal_strlit("[");
    reveal_strlit("] [");
    reveal_strlit("] ");
    assert("["@ =~= seq!['[']);
    assert("] ["@ =~= seq![']', ' ', '[']);
    assert("] "@ =~= seq![']', ' ']);
}

/// Opening succeeds on every header of 128 bytes or more that has the magic number
/// `0x53505343`, version 1 and messages of 256 bytes, and on no other. What is
/// complained about is the first of its numbers that is wrong, with the number
/// expected and the number found.
#[verifier::spinoff_prover]
pub proof fn law_sound_log_opens(mem: Seq<u8>)
    ensures
        ({
            let magic = part(mem, 0, 4);
            let version = part(mem, 4, 6);
            let size = part(mem, 6, 8);
            &&& header_fault(mem) is None <==> mem.len() >= 128 && magic == 0x53505343 && version
                == 1 && size == 256
            &&& mem.len() < 128 ==> header_fault(mem) == Some(
                "Header too short: expected 128, got "@ + text::dec(mem.len()),
            )
            &&& mem.len() >= 128 && magic != 0x53505343 ==> header_fault(mem) == Some(
                "Invalid magic: expected 0x53505343, got 0x"@ + text::hex(magic, 8),
            )
            &&& mem.len() >= 128 && magic == 0x53505343 && version != 1 ==> header_fault(mem)
                == Some("Invalid ABI version: expected 1, got "@ + text::dec(version))
            &&& mem.len() >= 128 && magic == 0x53505343 && version == 1 && size != 256
                ==> header_fault(mem) == Some(
                "Invalid msg_size: expected 256, got "@ + text::dec(size),
            )
            &&& mem.len() >= 128 ==> ring_slots(mem) == part(mem, 8, 16)
            &&& 0 < part(mem, 8, 16) && 128 + 256 * part(mem, 8, 16) <= usize::MAX ==> measured(
                mem,
            )
        }),
{
    if mem.len() >= 128 {
        bytes::lemma_pow256();
        bytes::law_le_value_round_trip(mem.subrange(8, 16));
    }
    text::lemma_dec_values();
    text::lemma_hex_magic();
    reveal_strlit(": expected ");
    reveal_strlit(", got ");
    reveal_strlit("Header too short");
    reveal_strlit("Header too short: expected 128, got ");
    assert("Header too short"@ + ": expected "@ + text::dec(128) + ", got "@
        =~= "Header too short: expected 128, got "@);
    reveal_strlit("Invalid magic: expected 0x");
    reveal_strlit(", got 0x");
    reveal_strlit("Invalid magic: expected 0x53505343, got 0x");
    assert("Invalid magic: expected 0x"@ + text::hex(0x53505343, 8) + ", got 0x"@
        =~= "Invalid magic: expected 0x53505343, got 0x"@);
    reveal_strlit("Invalid ABI version");
    reveal_strlit("Invalid ABI version: expected 1, got ");
    assert("Invalid ABI version"@ + ": expected "@ + text::dec(1) + ", got "@
        =~= "Invalid ABI version: expected 1, got "@);
    reveal_strlit("Invalid msg_size");
    reveal_strlit("Invalid msg_size: expected 256, got ");
    assert("Invalid msg_size"@ + ": expected "@ + text::dec(256) + ", got "@
        =~= "Invalid msg_size: expected 256, got "@);
}

/// The reader waits ten milliseconds where there is nothing to read, and finds the
/// numbers of messages written and read at fixed places.
pub proof fn law_fixed_numbers()
    ensures
        IDLE_MS == 10,
        HEADER_SIZE == 128,
        WRITE_SEQ_OFFSET == 24,
        READ_SEQ_OFFSET == 32,
{
}

/// Memory that holds all slots of a ring whose number of slots is a power of two lets
/// every message be read.
pub proof fn law_whole_ring_read(reader: RingReader, len: nat, write_seq: u64)
    requires
        ring::power_of_two(reader.slots() as nat),
        128 + 256 * reader.slots() <= len,
    ensures
        reader.reaches(len, write_seq),
{
    law_reader_finds_slot(reader);
    ring::lemma_power_positive(reader.slots() as nat);
    ring::lemma_place_aligned(128, reader.slots() as nat, reader.next() as nat);
}

/// The reader looks for the next message behind 128 bytes of header, in the slot that its
/// number gives under the mask of the ring.
pub proof fn law_reader_masks(reader: RingReader)
    requires
        reader.slots() > 0,
    ensures
        (reader.place() - 128) % 256 == 0,
        (reader.place() - 128) / 256 == reader.next() & (reader.slots() - 1) as u64,
{
}

} // verus!
