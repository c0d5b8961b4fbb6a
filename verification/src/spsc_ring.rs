//! The writer of the metrics ring.

use crate::bytes;
use crate::ring;
use crate::text;
use vstd::arithmetic::power2::*;
use vstd::prelude::*;
use vstd::string::*;

verus! {

pub const MAGIC: u32 = 0x53505343;

pub const ABI_VERSION: u16 = 1;

/// Bytes of the header that hold its fields.
pub const HEADER_SIZE: usize = 32;

/// Where the slots begin.
pub const DATA_OFFSET: usize = 128;

/// Where in the header the number of messages written stands.
pub const WRITE_SEQ_OFFSET: usize = 24;

/// The header of the ring: a number of four bytes, four of two bytes, one of
/// four and two of eight, all least significant byte first.
#[derive(Debug, Clone, Copy, PartialEq, Eq, Structural)]
pub struct RingHeader {
    pub magic: u32,
    pub abi_version: u16,
    pub layout_version: u16,
    pub msg_size: u16,
    pub flags: u16,
    pub ring_slots: u32,
    pub reserved0: u64,
    pub write_seq: u64,
}

/// The header that memory begins with.
pub open spec fn header(mem: Seq<u8>) -> RingHeader {
    RingHeader {
        magic: bytes::le_value(mem.subrange(0, 4)) as u32,
        abi_version: bytes::le_value(mem.subrange(4, 6)) as u16,
        layout_version: bytes::le_value(mem.subrange(6, 8)) as u16,
        msg_size: bytes::le_value(mem.subrange(8, 10)) as u16,
        flags: bytes::le_value(mem.subrange(10, 12)) as u16,
        ring_slots: bytes::le_value(mem.subrange(12, 16)) as u32,
        reserved0: bytes::le_value(mem.subrange(16, 24)) as u64,
        write_seq: bytes::le_value(mem.subrange(24, 32)) as u64,
    }
}

/// What is wrong with the ring that memory begins with, if anything.
pub open spec fn ring_fault(mem: Seq<u8>) -> Option<Seq<char>> {
    if mem.len() < HEADER_SIZE {
        Some(text::mismatch("Header too short"@, HEADER_SIZE as nat, mem.len()))
    } else {
        header_fault(header(mem))
    }
}

/// What is wrong with a header, if anything: the first check that fails, in
/// this order.
pub open spec fn header_fault(h: RingHeader) -> Option<Seq<char>> {
    if h.magic != MAGIC {
        Some(text::magic_mismatch(MAGIC as nat, h.magic as nat))
    } else if h.abi_version != ABI_VERSION {
        Some(
            text::mismatch("Invalid abi_version"@, ABI_VERSION as nat, h.abi_version as nat),
        )
    } else if h.msg_size != ring::MSG_SIZE {
        Some(text::mismatch("Invalid msg_size"@, ring::MSG_SIZE as nat, h.msg_size as nat))
    } else if !ring::power_of_two(h.ring_slots as nat) {
        Some("ring_slots must be power of 2, got "@ + text::dec(h.ring_slots as nat))
    } else {
        None
    }
}

impl RingHeader {
    /// Reads the header that memory begins with.
    pub fn read(mem: &[u8]) -> (r: Self)
        requires
            mem@.len() >= HEADER_SIZE,
        ensures
            r == header(mem@),
    {
        RingHeader {
            magic: bytes::read_le(mem, 0, 4) as u32,
            abi_version: bytes::read_le(mem, 4, 2) as u16,
            layout_version: bytes::read_le(mem, 6, 2) as u16,
            msg_size: bytes::read_le(mem, 8, 2) as u16,
            flags: bytes::read_le(mem, 10, 2) as u16,
            ring_slots: bytes::read_le(mem, 12, 4) as u32,
            reserved0: bytes::read_le(mem, 16, 8),
            write_seq: bytes::read_le(mem, 24, 8),
        }
    }
}

/// Writer of the metrics ring.
pub struct RingWriter {
    ring_mask: u32,
    data_off: usize,
}

impl RingWriter {
    #[verifier::type_invariant]
    closed spec fn inv(self) -> bool {
        &&& ring::power_of_two((self.ring_mask + 1) as nat)
        &&& self.data_off == DATA_OFFSET
    }

    /// The number of slots.
    pub closed spec fn slots(self) -> nat {
        (self.ring_mask + 1) as nat
    }

    /// A writer for the ring that memory begins with, or the text of what is
    /// wrong with its header.
    pub fn open(mem: &[u8]) -> (r: Result<Self, String>)
        ensures
            match r {
                Ok(w) => {
                    &&& ring_fault(mem@) is None
                    &&& w.slots() == header(mem@).ring_slots
                },
                Err(e) => ring_fault(mem@) == Some(e@),
            },
    {
        if mem.len() < HEADER_SIZE {
            return Err(
                text::mismatch_text("Header too short", HEADER_SIZE as u64, mem.len() as u64),
            );
        }
        let h: RingHeader = RingHeader::read(mem);
        if h.magic != MAGIC {
            return Err(text::magic_mismatch_text(MAGIC, h.magic));
        }
        if h.abi_version != ABI_VERSION {
            return Err(
                text::mismatch_text(
                    "Invalid abi_version",
                    ABI_VERSION as u64,
                    h.abi_version as u64,
                ),
            );
        }
        if h.msg_size as usize != ring::MSG_SIZE {
            return Err(
                text::mismatch_text("Invalid msg_size", ring::MSG_SIZE as u64, h.msg_size as u64),
            );
        }
        let ring_slots: u32 = h.ring_slots;
        if !ring::is_power_of_two(ring_slots as u64) {
            let mut e: String = String::from_str("ring_slots must be power of 2, got ");
            text::push_dec(&mut e, ring_slots as u128);
            return Err(e);
        }
        proof {
            ring::lemma_power_positive(ring_slots as nat);
        }
        Ok(RingWriter { ring_mask: ring_slots - 1, data_off: DATA_OFFSET })
    }

    /// Whether message `seq` has a slot in memory of so many bytes, and a
    /// number behind it.
    pub open spec fn takes(self, len: nat, seq: u64) -> bool {
        &&& seq < u64::MAX
        &&& ring::place(DATA_OFFSET as int, self.slots(), seq as nat) + ring::MSG_SIZE <= len
    }

    /// The number of the slot of message `seq`.
    fn index(&self, seq: u64) -> (r: u32)
        ensures
            r == ring::slot(seq as nat, self.slots()),
    {
        proof {
            use_type_invariant(self);
            let mask = self.ring_mask;
            assert(((seq as u32) & mask) as u64 == seq & (mask as u64)) by (bit_vector);
            ring::lemma_masked(seq, mask as u64);
        }
        (seq as u32) & self.ring_mask
    }

    /// Whether [`Self::publish`] can put message `seq` into memory of so many
    /// bytes.
    pub fn can_publish(&self, len: usize, seq: u64) -> (b: bool)
        ensures
            b == self.takes(len as nat, seq),
    {
        let idx: u32 = self.index(seq);
        let end: u64 = 128 + idx as u64 * 256 + 256;
        seq < u64::MAX && end <= len as u64
    }

    /// Copies message `seq` into its slot. The number that comes back is the
    /// one to store, in release order, at [`WRITE_SEQ_OFFSET`]: it makes the
    /// message visible once all of it is there.
    pub fn publish(&self, mem: &mut [u8], seq: u64, msg: &[u8; 256]) -> (r: Result<u64, String>)
        requires
            self.takes(old(mem)@.len(), seq),
        ensures
            r == Ok::<u64, String>((seq + 1) as u64),
            final(mem)@ == ring::published(
                old(mem)@,
                DATA_OFFSET as int,
                self.slots(),
                seq as nat,
                seq![msg@],
            ),
    {
        let idx: u32 = self.index(seq);
        proof {
            use_type_invariant(self);
            ring::lemma_published_one(mem@, DATA_OFFSET as int, self.slots(), seq as nat, msg@);
        }
        let len: usize = mem.len();
        let at: usize = self.data_off + idx as usize * ring::MSG_SIZE;
        ring::copy_message(mem, at, msg);
        Ok(seq + 1)
    }
}

/// Opening succeeds on every header of 32 bytes or more that has the magic number
/// `0x53505343`, version 1, messages of 256 bytes and a number of slots that is a
/// power of two, and on no other; the number of slots is the one in the header.
pub proof fn law_sound_ring_opens(mem: Seq<u8>)
    ensures
        ring_fault(mem) is None <==> {
            &&& mem.len() >= 32
            &&& bytes::le_value(mem.subrange(0, 4)) == 0x53505343
            &&& bytes::le_value(mem.subrange(4, 6)) == 1
            &&& bytes::le_value(mem.subrange(8, 10)) == 256
            &&& exists|k: nat|
                k < 32 && bytes::le_value(mem.subrange(12, 16)) == #[trigger] pow2(k)
        },
        mem.len() >= 32 ==> {
            &&& header(mem).magic == bytes::le_value(mem.subrange(0, 4))
            &&& header(mem).abi_version == bytes::le_value(mem.subrange(4, 6))
            &&& header(mem).layout_version == bytes::le_value(mem.subrange(6, 8))
            &&& header(mem).msg_size == bytes::le_value(mem.subrange(8, 10))
            &&& header(mem).flags == bytes::le_value(mem.subrange(10, 12))
            &&& header(mem).ring_slots == bytes::le_value(mem.subrange(12, 16))
            &&& header(mem).reserved0 == bytes::le_value(mem.subrange(16, 24))
            &&& header(mem).write_seq == bytes::le_value(mem.subrange(24, 32))
        },
{
    if mem.len() >= 32 {
        bytes::lemma_pow256();
        bytes::law_le_value_round_trip(mem.subrange(0, 4));
        bytes::law_le_value_round_trip(mem.subrange(4, 6));
        bytes::law_le_value_round_trip(mem.subrange(8, 10));
        bytes::law_le_value_round_trip(mem.subrange(12, 16));
        bytes::law_le_value_round_trip(mem.subrange(24, 32));
        bytes::law_le_value_round_trip(mem.subrange(6, 8));
        bytes::law_le_value_round_trip(mem.subrange(10, 12));
        bytes::law_le_value_round_trip(mem.subrange(16, 24));
        let slots = bytes::le_value(mem.subrange(12, 16));
        if ring::power_of_two(slots) {
            let k = choose|k: nat| slots == #[trigger] pow2(k);
            lemma2_to64();
            if k > 32 {
                lemma_pow2_strictly_increases(32, k);
            }
            assert(k < 32);
        }
    }
}

/// What a ring that is not opened is complained about: the first of its numbers
/// that is wrong, the number expected and the number found.
pub proof fn law_ring_faults(mem: Seq<u8>)
    ensures
        ({
            let magic = bytes::le_value(mem.subrange(0, 4));
            let version = bytes::le_value(mem.subrange(4, 6));
            let size = bytes::le_value(mem.subrange(8, 10));
            let slots = bytes::le_value(mem.subrange(12, 16));
            &&& mem.len() < 32 ==> ring_fault(mem) == Some(
                "Header too short: expected 32, got "@ + text::dec(mem.len()),
            )
            &&& mem.len() >= 32 && magic != 0x53505343 ==> ring_fault(mem) == Some(
                "Invalid magic: expected 0x53505343, got 0x"@ + text::hex(magic, 8),
            )
            &&& mem.len() >= 32 && magic == 0x53505343 && version != 1 ==> ring_fault(mem) == Some(
                "Invalid abi_version: expected 1, got "@ + text::dec(version),
            )
            &&& mem.len() >= 32 && magic == 0x53505343 && version == 1 && size != 256
                ==> ring_fault(mem) == Some(
                "Invalid msg_size: expected 256, got "@ + text::dec(size),
            )
            &&& mem.len() >= 32 && magic == 0x53505343 && version == 1 && size == 256 && !(
            exists|k: nat| k < 32 && slots == #[trigger] pow2(k)) ==> ring_fault(mem) == Some(
                "ring_slots must be power of 2, got "@ + text::dec(slots),
            )
        }),
{
    law_sound_ring_opens(mem);
    if mem.len() >= 32 {
        bytes::lemma_pow256();
        bytes::law_le_value_round_trip(mem.subrange(0, 4));
        bytes::law_le_value_round_trip(mem.subrange(4, 6));
        bytes::law_le_value_round_trip(mem.subrange(8, 10));
    }
    text::lemma_dec_values();
    text::lemma_hex_magic();
    reveal_strlit(": expected ");
    reveal_strlit(", got ");
    reveal_strlit("Header too short");
    reveal_strlit("Header too short: expected 32, got ");
    assert("Header too short"@ + ": expected "@ + text::dec(32) + ", got "@
        =~= "Header too short: expected 32, got "@);
    reveal_strlit("Invalid magic: expected 0x");
    reveal_strlit(", got 0x");
    reveal_strlit("Invalid magic: expected 0x53505343, got 0x");
    assert("Invalid magic: expected 0x"@ + text::hex(0x53505343, 8) + ", got 0x"@
        =~= "Invalid magic: expected 0x53505343, got 0x"@);
    reveal_strlit("Invalid abi_version");
    reveal_strlit("Invalid abi_version: expected 1, got ");
    assert("Invalid abi_version"@ + ": expected "@ + text::dec(1) + ", got "@
        =~= "Invalid abi_version: expected 1, got "@);
    reveal_strlit("Invalid msg_size");
    reveal_strlit("Invalid msg_size: expected 256, got ");
    assert("Invalid msg_size"@ + ": expected "@ + text::dec(256) + ", got "@
        =~= "Invalid msg_size: expected 256, got "@);
}

/// Memory that holds all slots of a ring, from byte 128 on, takes every message but the
/// one with the last number.
pub proof fn law_whole_ring_takes_all(w: RingWriter, len: nat, seq: u64)
    requires
        w.slots() > 0,
        128 + 256 * w.slots() <= len,
        seq < u64::MAX,
    ensures
        w.takes(len, seq),
{
    ring::law_slots_in_turn(128, w.slots(), seq as nat);
    ring::lemma_place_aligned(128, w.slots(), seq as nat);
}

/// Where in the ring things stand.
pub proof fn law_fixed_numbers()
    ensures
        HEADER_SIZE == 32,
        DATA_OFFSET == 128,
        WRITE_SEQ_OFFSET == 24,
        ring::MSG_SIZE == 256,
{
}

} // verus!
