//! A writer for a ring that another program has set up.

use crate::bytes;
use crate::ring;
use crate::text;
use vstd::arithmetic::power2::*;
use vstd::prelude::*;
use vstd::string::*;
use vstd::utf8::*;

verus! {

/// Bytes of the header. The slots begin behind it.
pub const HEADER_SIZE: usize = 128;

/// Where in the header the number of slots stands.
pub const RING_SLOTS_OFFSET: usize = 16;

/// Where in the header the number of messages written stands.
pub const WRITE_SEQ_OFFSET: usize = 32;

/// The number of slots that the header gives.
pub open spec fn ring_slots(mem: Seq<u8>) -> u64 {
    bytes::le_value(mem.subrange(16, 24)) as u64
}

/// What is wrong with the ring that memory begins with, if anything.
pub open spec fn ring_fault(mem: Seq<u8>) -> Option<Seq<char>> {
    if mem.len() < HEADER_SIZE {
        Some(text::mismatch("Header too short"@, HEADER_SIZE as nat, mem.len()))
    } else if !ring::power_of_two(ring_slots(mem) as nat) {
        Some("Invalid ring_slots: "@ + text::dec(ring_slots(mem) as nat))
    } else {
        None
    }
}

/// A message that holds a text: its first 256 bytes in UTF-8, filled up with
/// zeros.
pub open spec fn message(text: Seq<char>) -> Seq<u8> {
    let whole = encode_utf8(text);
    Seq::new(
        256,
        |i: int|
            if i < whole.len() {
                whole[i]
            } else {
                0
            },
    )
}

/// Writer of a ring that is there already; it neither makes one nor sets one
/// up.
pub struct SpscWriter {
    ring_mask: u64,
}

impl SpscWriter {
    #[verifier::type_invariant]
    closed spec fn inv(self) -> bool {
        ring::power_of_two((self.ring_mask + 1) as nat)
    }

    /// The number of slots.
    pub closed spec fn slots(self) -> nat {
        (self.ring_mask + 1) as nat
    }

    /// A writer for the ring that memory begins with, unless its header is too
    /// short or its number of slots is no power of two.
    pub fn open(mem: &[u8]) -> (r: Result<Self, String>)
        ensures
            match r {
                Ok(w) => {
                    &&& ring_fault(mem@) is None
                    &&& w.slots() == ring_slots(mem@)
                },
                Err(e) => ring_fault(mem@) == Some(e@),
            },
    {
        if mem.len() < HEADER_SIZE {
            return Err(
                text::mismatch_text("Header too short", HEADER_SIZE as u64, mem.len() as u64),
            );
        }
        let slots: u64 = bytes::read_le(mem, RING_SLOTS_OFFSET, 8);
        if !ring::is_power_of_two(slots) {
            let mut e: String = String::from_str("Invalid ring_slots: ");
            text::push_dec(&mut e, slots as u128);
            return Err(e);
        }
        proof {
            ring::lemma_power_positive(slots as nat);
        }
        Ok(SpscWriter { ring_mask: slots - 1 })
    }

    /// Whether message `seq` has a slot in memory of so many bytes, and a
    /// number behind it.
    pub open spec fn takes(self, len: nat, seq: u64) -> bool {
        &&& seq < u64::MAX
        &&& ring::place(HEADER_SIZE as int, self.slots(), seq as nat) + ring::MSG_SIZE <= len
    }

    /// The number of the slot of message `seq`.
    fn index(&self, seq: u64) -> (r: u64)
        ensures
            r == ring::slot(seq as nat, self.slots()),
    {
        proof {
            use_type_invariant(self);
            ring::lemma_masked(seq, self.ring_mask);
        }
        seq & self.ring_mask
    }

    /// Whether [`Self::publish`] can put message `seq` into memory of so many
    /// bytes.
    pub fn can_publish(&self, len: usize, seq: u64) -> (b: bool)
        ensures
            b == self.takes(len as nat, seq),
    {
        let end: u128 = 128 + self.index(seq) as u128 * 256 + 256;
        seq < u64::MAX && end <= len as u128
    }

    /// Copies message `seq` into its slot. The number that comes back is the
    /// one to store, in release order, at [`WRITE_SEQ_OFFSET`]: it makes the
    /// message visible once all of it is there.
    pub fn publish(&self, mem: &mut [u8], seq: u64, msg: &[u8; 256]) -> (r: Result<u64, String>)
        requires
            self.takes(old(mem)@.len(), seq),
        ensures
            r == Ok::<u64, String>((seq + 1) as u64),
            final(mem)@ == ring::published(
                old(mem)@,
                HEADER_SIZE as int,
                self.slots(),
                seq as nat,
                seq![msg@],
            ),
    {
        let idx: u64 = self.index(seq);
        let len: usize = mem.len();
        let at: usize = HEADER_SIZE + idx as usize * ring::MSG_SIZE;
        proof {
            ring::lemma_published_one(mem@, HEADER_SIZE as int, self.slots(), seq as nat, msg@);
        }
        ring::copy_message(mem, at, msg);
        Ok(seq + 1)
    }

    /// A message that holds a text.
    pub fn create_message(text: &str) -> (r: [u8; 256])
        ensures
            r@ == message(text@),
    {
        let whole: &[u8] = text.as_bytes();
        let mut msg: [u8; 256] = [0u8; 256];
        let copy_len: usize = if whole.len() < 256 {
            whole.len()
        } else {
            256
        };
        let mut i: usize = 0;
        while i < copy_len
            invariant
                i <= copy_len <= whole@.len(),
                copy_len <= 256,
                forall|j: int|
                    0 <= j < 256 ==> msg@[j] == if j < i {
                        whole@[j]
                    } else {
                        0
                    },
            decreases copy_len - i,
        {
            msg[i] = whole[i];
            i = i + 1;
        }
        assert(msg@ =~= message(text@));
        msg
    }
}

/// The bytes of a text of at most 256 bytes stand whole at the start of the
/// message that holds it, with zeros behind them.
pub proof fn law_short_text_kept(text: Seq<char>)
    requires
        encode_utf8(text).len() <= 256,
    ensures
        message(text).take(encode_utf8(text).len() as int) == encode_utf8(text),
        forall|i: int|
            encode_utf8(text).len() <= i < 256 ==> #[trigger] message(text)[i] == 0,
{
}

/// A message that holds a text is 256 bytes long: the text's bytes from the first
/// on, as many as there is room for, and zeros behind them.
pub proof fn law_text_cut(text: Seq<char>)
    ensures
        message(text).len() == 256,
        forall|i: int|
            0 <= i < 256 ==> #[trigger] message(text)[i] == if i < encode_utf8(text).len() {
                encode_utf8(text)[i]
            } else {
                0
            },
{
}

/// Opening succeeds on every header of 128 bytes or more whose number of slots, in
/// the eight bytes from 16 on, is a power of two, and on no other; the complaint
/// says how long the header is, or how many slots there are.
pub proof fn law_sound_ring_opens(mem: Seq<u8>)
    ensures
        ({
            let slots = bytes::le_value(mem.subrange(16, 24));
            let sound = exists|k: nat| k < 64 && slots == #[trigger] pow2(k);
            &&& ring_fault(mem) is None <==> mem.len() >= 128 && sound
            &&& mem.len() >= 128 ==> ring_slots(mem) == slots
            &&& mem.len() < 128 ==> ring_fault(mem) == Some(
                "Header too short: expected 128, got "@ + text::dec(mem.len()),
            )
            &&& mem.len() >= 128 && !sound ==> ring_fault(mem) == Some(
                "Invalid ring_slots: "@ + text::dec(slots),
            )
        }),
{
    text::lemma_dec_values();
    reveal_strlit(": expected ");
    reveal_strlit(", got ");
    reveal_strlit("Header too short");
    reveal_strlit("Header too short: expected 128, got ");
    assert("Header too short"@ + ": expected "@ + text::dec(128) + ", got "@
        =~= "Header too short: expected 128, got "@);
    if mem.len() >= 128 {
        bytes::lemma_pow256();
        bytes::law_le_value_round_trip(mem.subrange(16, 24));
        let slots = bytes::le_value(mem.subrange(16, 24));
        if ring::power_of_two(slots) {
            let k = choose|k: nat| slots == #[trigger] pow2(k);
            lemma2_to64();
            if k > 64 {
                lemma_pow2_strictly_increases(64, k);
            }
            assert(k < 64);
        }
    }
}

/// Memory that holds all slots of a ring, from byte 128 on, takes every message but the
/// one with the last number.
pub proof fn law_whole_ring_takes_all(w: SpscWriter, len: nat, seq: u64)
    requires
        w.slots() > 0,
        128 + 256 * w.slots() <= len,
        seq < u64::MAX,
    ensures
        w.takes(len, seq),
{
    ring::law_slots_in_turn(128, w.slots(), seq as nat);
    ring::lemma_place_aligned(128, w.slots(), seq as nat);
}

/// Where in the ring things stand.
pub proof fn law_fixed_numbers()
    ensures
        HEADER_SIZE == 128,
        RING_SLOTS_OFFSET == 16,
        WRITE_SEQ_OFFSET == 32,
{
}

} // verus!
