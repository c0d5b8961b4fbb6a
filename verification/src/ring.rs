//! Rings of 256-byte messages in shared memory: which slot a message goes to
//! and what the slots hold.

use crate::bytes;
use vstd::arithmetic::div_mod::*;
use vstd::arithmetic::power2::*;
use vstd::bits::*;
use vstd::prelude::*;

verus! {

/// Bytes of a message.
pub const MSG_SIZE: usize = 256;

/// Whether `n` is a power of two.
pub open spec fn power_of_two(n: nat) -> bool {
    exists|k: nat| n == #[trigger] pow2(k)
}

/// Half of a power of two above one is a power of two, and twice one too.
proof fn lemma_double(n: nat)
    ensures
        power_of_two(2 * n) == power_of_two(n),
{
    if power_of_two(n) {
        let k = choose|k: nat| n == #[trigger] pow2(k);
        lemma_pow2_unfold(k + 1);
        assert(2 * n == pow2(k + 1));
    }
    if power_of_two(2 * n) {
        let k = choose|k: nat| 2 * n == #[trigger] pow2(k);
        lemma2_to64();
        assert(k > 0);
        lemma_pow2_unfold(k);
        assert(n == pow2((k - 1) as nat));
    }
}

/// A number other than zero is a power of two just where it shares no bit with
/// the number below it.
proof fn lemma_one_bit(n: u64)
    requires
        n != 0,
    ensures
        (n & (n - 1) as u64 == 0) == power_of_two(n as nat),
    decreases n,
{
    let m = n / 2;
    if n % 2 == 0 {
        lemma_one_bit(m);
        lemma_double(m as nat);
        assert((n & (n - 1) as u64 == 0) == (m & (m - 1) as u64 == 0)) by (bit_vector)
            requires
                n % 2 == 0,
                n != 0,
                m == n / 2,
        ;
    } else {
        assert((n & (n - 1) as u64 == 0) == (n == 1)) by (bit_vector)
            requires
                n % 2 == 1,
        ;
        lemma2_to64();
        if n == 1 {
            assert(n == pow2(0));
        }
        if power_of_two(n as nat) {
            let k = choose|k: nat| n == #[trigger] pow2(k);
            if k > 0 {
                lemma_pow2_unfold(k);
                assert(false);
            }
        }
    }
}

pub proof fn lemma_power_positive(n: nat)
    requires
        power_of_two(n),
    ensures
        n > 0,
{
    let k = choose|k: nat| n == #[trigger] pow2(k);
    lemma_pow2_pos(k);
}

/// Whether a number is a power of two.
pub fn is_power_of_two(n: u64) -> (b: bool)
    ensures
        b == power_of_two(n as nat),
{
    if n == 0 {
        proof {
            if power_of_two(0) {
                lemma_power_positive(0);
            }
        }
        false
    } else {
        proof {
            lemma_one_bit(n);
        }
        n & (n - 1) == 0
    }
}

/// The slot that the message with number `seq` goes to.
pub open spec fn slot(seq: nat, slots: nat) -> nat {
    seq % slots
}

/// The mask of a ring, one below its number of slots, cuts the number of a
/// message down to the number of its slot.
pub proof fn lemma_masked(seq: u64, mask: u64)
    requires
        power_of_two((mask + 1) as nat),
    ensures
        seq & mask == slot(seq as nat, (mask + 1) as nat),
{
    let k = choose|k: nat| mask + 1 == #[trigger] pow2(k);
    if k >= 64 {
        lemma2_to64();
        if k > 64 {
            lemma_pow2_strictly_increases(64, k);
        }
        assert(pow2(64) == 0x1_0000_0000_0000_0000);
        assert(mask == 0xffff_ffff_ffff_ffff);
        assert(seq & 0xffff_ffff_ffff_ffff == seq) by (bit_vector);
    } else {
        lemma_u64_low_bits_mask_is_mod(seq, k);
        lemma_u64_pow2_no_overflow(k);
    }
}

/// Where in memory message `seq` goes, for a ring whose slots begin at `data`.
pub open spec fn place(data: int, slots: nat, seq: nat) -> int {
    data + slot(seq, slots) * MSG_SIZE
}

/// Copies a message into memory.
pub fn copy_message(mem: &mut [u8], at: usize, msg: &[u8; 256])
    requires
        at + MSG_SIZE <= old(mem)@.len(),
    ensures
        final(mem)@ == bytes::overwrite(old(mem)@, at as int, msg@),
{
    let ghost before = mem@;
    let len: usize = mem.len();
    let mut i: usize = 0;
    while i < 256
        invariant
            i <= 256,
            at + MSG_SIZE <= before.len() == len,
            mem@.len() == before.len(),
            forall|j: int|
                0 <= j < before.len() ==> mem@[j] == if at <= j < at + i {
                    msg@[j - at]
                } else {
                    before[j]
                },
        decreases 256 - i,
    {
        mem[at + i] = msg[i];
        i = i + 1;
    }
    assert(mem@ =~= bytes::overwrite(before, at as int, msg@));
}

/// What stands in memory once the messages, numbered from `seq` on, have been
/// copied into their slots.
pub open spec fn published(
    mem: Seq<u8>,
    data: int,
    slots: nat,
    seq: nat,
    msgs: Seq<Seq<u8>>,
) -> Seq<u8>
    decreases msgs.len(),
{
    if msgs.len() == 0 {
        mem
    } else {
        let before = published(mem, data, slots, seq, msgs.drop_last());
        bytes::overwrite(
            before,
            place(data, slots, (seq + msgs.len() - 1) as nat),
            msgs.last(),
        )
    }
}

pub proof fn lemma_published_one(mem: Seq<u8>, data: int, slots: nat, seq: nat, msg: Seq<u8>)
    ensures
        published(mem, data, slots, seq, seq![msg]) == bytes::overwrite(
            mem,
            place(data, slots, seq),
            msg,
        ),
{
    let none = seq![msg].drop_last();
    assert(none =~= Seq::empty());
    assert(published(mem, data, slots, seq, none) == mem);
}

/// To publish some messages and then one more, under the number behind theirs,
/// is to publish them all.
pub proof fn law_one_by_one(
    mem: Seq<u8>,
    data: int,
    slots: nat,
    seq: nat,
    msgs: Seq<Seq<u8>>,
    msg: Seq<u8>,
)
    ensures
        published(mem, data, slots, seq, msgs.push(msg)) == published(
            published(mem, data, slots, seq, msgs),
            data,
            slots,
            seq + msgs.len(),
            seq![msg],
        ),
{
    assert(msgs.push(msg).drop_last() =~= msgs);
    let before = published(mem, data, slots, seq, msgs);
    lemma_published_one(before, data, slots, seq + msgs.len(), msg);
}

/// Messages whose numbers differ by less than the number of slots go to
/// different slots.
proof fn lemma_places_apart(data: int, slots: nat, a: nat, b: nat)
    requires
        a < b < a + slots,
    ensures
        slot(a, slots) < slots,
        slot(b, slots) < slots,
        place(data, slots, a) + MSG_SIZE <= place(data, slots, b) || place(data, slots, b)
            + MSG_SIZE <= place(data, slots, a),
{
    let (p, q) = (a % slots, b % slots);
    let (x, y) = (a / slots, b / slots);
    vstd::arithmetic::div_mod::lemma_fundamental_div_mod(a as int, slots as int);
    vstd::arithmetic::div_mod::lemma_fundamental_div_mod(b as int, slots as int);
    vstd::arithmetic::div_mod::lemma_mod_bound(a as int, slots as int);
    vstd::arithmetic::div_mod::lemma_mod_bound(b as int, slots as int);
    if p == q {
        assert(b - a == slots * (y - x)) by (nonlinear_arith)
            requires
                a == slots * x + p,
                b == slots * y + q,
                p == q,
        ;
        assert(y - x >= 1 ==> slots * (y - x) >= slots) by (nonlinear_arith);
        assert(y - x <= 0 ==> slots * (y - x) <= 0) by (nonlinear_arith);
        assert(false);
    }
}

/// Whether none of the `n` messages from number `seq` on goes to slot `k`.
pub open spec fn unused(slots: nat, seq: nat, n: nat, k: int) -> bool {
    forall|i: int| 0 <= i < n ==> #[trigger] slot((seq + i) as nat, slots) != k
}

/// Of a run of messages the last ones, as many as the ring has slots, stand
/// whole in their slots; a slot that none of the messages goes to holds what it
/// held, and nothing before the first slot or behind the last has changed.
pub proof fn law_last_messages_stand(
    mem: Seq<u8>,
    data: int,
    slots: nat,
    seq: nat,
    msgs: Seq<Seq<u8>>,
)
    requires
        slots > 0,
        0 <= data,
        data + slots * MSG_SIZE <= mem.len(),
        forall|i: int| 0 <= i < msgs.len() ==> (#[trigger] msgs[i]).len() == MSG_SIZE,
    ensures
        ({
            let after = published(mem, data, slots, seq, msgs);
            &&& after.len() == mem.len()
            &&& forall|i: int|
                0 <= i < msgs.len() && msgs.len() - i <= slots ==> after.subrange(
                    place(data, slots, (seq + i) as nat),
                    place(data, slots, (seq + i) as nat) + MSG_SIZE,
                ) == #[trigger] msgs[i]
            &&& forall|k: int|
                0 <= k < slots && #[trigger] unused(slots, seq, msgs.len(), k) ==> after.subrange(
                    data + k * MSG_SIZE,
                    data + (k + 1) * MSG_SIZE,
                ) == mem.subrange(data + k * MSG_SIZE, data + (k + 1) * MSG_SIZE)
            &&& forall|j: int|
                0 <= j < mem.len() && !(data <= j < data + slots * MSG_SIZE) ==> after[j] == mem[j]
        }),
    decreases msgs.len(),
{
    if msgs.len() > 0 {
        let n = msgs.len() - 1;
        let less = msgs.drop_last();
        law_last_messages_stand(mem, data, slots, seq, less);
        let before = published(mem, data, slots, seq, less);
        let after = published(mem, data, slots, seq, msgs);
        let at = place(data, slots, (seq + n) as nat);
        vstd::arithmetic::div_mod::lemma_mod_bound((seq + n) as int, slots as int);
        assert(data <= at && at + MSG_SIZE <= data + slots * MSG_SIZE);
        assert(after.len() == mem.len());
        assert forall|i: int|
            0 <= i < msgs.len() && msgs.len() - i <= slots implies after.subrange(
            place(data, slots, (seq + i) as nat),
            place(data, slots, (seq + i) as nat) + MSG_SIZE,
        ) == #[trigger] msgs[i] by {
            let spot = place(data, slots, (seq + i) as nat);
            if i < n {
                assert(less[i] == msgs[i]);
                vstd::arithmetic::div_mod::lemma_mod_bound((seq + i) as int, slots as int);
                lemma_places_apart(data, slots, (seq + i) as nat, (seq + n) as nat);
                assert(after.subrange(spot, spot + MSG_SIZE) =~= before.subrange(
                    spot,
                    spot + MSG_SIZE,
                ));
            } else {
                assert(after.subrange(spot, spot + MSG_SIZE) =~= msgs[i]);
            }
        }
        assert forall|k: int|
            0 <= k < slots && #[trigger] unused(slots, seq, msgs.len(), k) implies after.subrange(
            data + k * MSG_SIZE,
            data + (k + 1) * MSG_SIZE,
        ) == mem.subrange(data + k * MSG_SIZE, data + (k + 1) * MSG_SIZE) by {
            assert(unused(slots, seq, less.len(), k));
            assert(slot((seq + n) as nat, slots) != k);
            assert(after.subrange(data + k * MSG_SIZE, data + (k + 1) * MSG_SIZE)
                =~= before.subrange(data + k * MSG_SIZE, data + (k + 1) * MSG_SIZE));
        }
    }
}

/// While a message is being copied, with `k` of its bytes in their place, the
/// messages before it, one fewer than the ring has slots, stand whole: a reader
/// that stays with messages whose number has been passed sees no half message.
pub proof fn law_no_half_message(
    mem: Seq<u8>,
    data: int,
    slots: nat,
    seq: nat,
    msgs: Seq<Seq<u8>>,
    next: Seq<u8>,
    k: int,
    i: int,
)
    requires
        0 <= data,
        data + slots * MSG_SIZE <= mem.len(),
        forall|i: int| 0 <= i < msgs.len() ==> (#[trigger] msgs[i]).len() == MSG_SIZE,
        next.len() == MSG_SIZE,
        0 <= k <= MSG_SIZE,
        0 <= i < msgs.len(),
        msgs.len() - i < slots,
    ensures
        ({
            let midway = bytes::overwrite(
                published(mem, data, slots, seq, msgs),
                place(data, slots, seq + msgs.len()),
                next.take(k),
            );
            let spot = place(data, slots, (seq + i) as nat);
            midway.subrange(spot, spot + MSG_SIZE) == msgs[i]
        }),
{
    law_last_messages_stand(mem, data, slots, seq, msgs);
    lemma_places_apart(data, slots, (seq + i) as nat, seq + msgs.len());
    let before = published(mem, data, slots, seq, msgs);
    let at = place(data, slots, seq + msgs.len());
    let midway = bytes::overwrite(before, at, next.take(k));
    let spot = place(data, slots, (seq + i) as nat);
    assert(before.subrange(spot, spot + MSG_SIZE) == msgs[i]);
    assert(midway.subrange(spot, spot + MSG_SIZE) =~= before.subrange(spot, spot + MSG_SIZE));
}

/// Messages take the slots in turn: the first message goes to the first slot, each
/// goes to the slot behind that of the one before, and behind the last slot comes
/// the first again. Slots are 256 bytes apart.
pub proof fn law_slots_in_turn(data: int, slots: nat, seq: nat)
    requires
        slots > 0,
    ensures
        place(data, slots, 0) == data,
        data <= place(data, slots, seq) < data + slots * 256,
        place(data, slots, seq + 1) == if place(data, slots, seq) + 256 == data + slots * 256 {
            data
        } else {
            place(data, slots, seq) + 256
        },
{
    let (q, r, n) = (seq as int / slots as int, seq as int % slots as int, slots as int);
    lemma_fundamental_div_mod(seq as int, n);
    lemma_mod_bound(seq as int, n);
    lemma_small_mod(0, slots);
    assert(seq + 1 == n * q + (r + 1));
    if r + 1 == n {
        assert(seq + 1 == (q + 1) * n + 0) by (nonlinear_arith)
            requires
                seq + 1 == n * q + (r + 1),
                r + 1 == n,
        ;
        lemma_fundamental_div_mod_converse(seq as int + 1, n, q + 1, 0);
    } else {
        assert(seq + 1 == q * n + (r + 1)) by (nonlinear_arith)
            requires
                seq + 1 == n * q + (r + 1),
        ;
        lemma_fundamental_div_mod_converse(seq as int + 1, n, q, r + 1);
    }
}

/// The slot of a message lies within the ring as a whole.
pub proof fn lemma_place_aligned(data: int, slots: nat, seq: nat)
    requires
        slots > 0,
    ensures
        place(data, slots, seq) + MSG_SIZE <= data + slots * MSG_SIZE,
{
    lemma_mod_bound(seq as int, slots as int);
}

} // verus!
