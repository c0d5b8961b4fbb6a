//! Little-endian numbers in byte sequences.

use vstd::arithmetic::div_mod::*;
use vstd::arithmetic::power::*;
use vstd::prelude::*;

verus! {

/// The lowest `n` bytes of `v`, least significant first.
pub open spec fn le(v: nat, n: nat) -> Seq<u8>
    decreases n,
{
    if n == 0 {
        Seq::empty()
    } else {
        seq![(v % 256) as u8] + le(v / 256, (n - 1) as nat)
    }
}

/// The number that the bytes `s` write, least significant byte first.
pub open spec fn le_value(s: Seq<u8>) -> nat
    decreases s.len(),
{
    if s.len() == 0 {
        0
    } else {
        s[0] as nat + 256 * le_value(s.skip(1))
    }
}

/// The number `256^n`.
pub open spec fn pow256(n: nat) -> nat
    decreases n,
{
    if n == 0 {
        1
    } else {
        256 * pow256((n - 1) as nat)
    }
}

/// `bytes` with the bytes from `at` on replaced by `part`.
pub open spec fn overwrite(bytes: Seq<u8>, at: int, part: Seq<u8>) -> Seq<u8> {
    bytes.take(at) + part + bytes.skip(at + part.len())
}

/// The bytes of an `i64` as an unsigned number, in two's complement.
pub open spec fn bits64(i: int) -> nat {
    if i < 0 {
        (i + 0x1_0000_0000_0000_0000) as nat
    } else {
        i as nat
    }
}

/// The bytes of an `i32` as an unsigned number, in two's complement.
pub open spec fn bits32(i: int) -> nat {
    if i < 0 {
        (i + 0x1_0000_0000) as nat
    } else {
        i as nat
    }
}

/// The bytes of an `i16` as an unsigned number, in two's complement.
pub open spec fn bits16(i: int) -> nat {
    if i < 0 {
        (i + 0x1_0000) as nat
    } else {
        i as nat
    }
}

/// The two's complement reading of a `u64`.
pub open spec fn signed64(n: nat) -> int {
    if n >= 0x8000_0000_0000_0000 {
        n - 0x1_0000_0000_0000_0000
    } else {
        n as int
    }
}

/// `N` zero bytes.
pub open spec fn zeroed<const N: usize>() -> [u8; N] {
    vstd::array::spec_array_fill_for_copy_type::<u8, N>(0u8)
}

pub proof fn lemma_le_len(v: nat, n: nat)
    ensures
        le(v, n).len() == n,
    decreases n,
{
    if n > 0 {
        lemma_le_len(v / 256, (n - 1) as nat);
    }
}

/// Reading back `n` bytes gives the number that was written, where it fits.
pub proof fn law_le_round_trip(v: nat, n: nat)
    requires
        v < pow256(n),
    ensures
        le(v, n).len() == n,
        le_value(le(v, n)) == v,
    decreases n,
{
    lemma_le_len(v, n);
    if n > 0 {
        law_le_round_trip(v / 256, (n - 1) as nat);
        assert(le(v, n).skip(1) =~= le(v / 256, (n - 1) as nat));
    }
}

/// Writing back the number that `s` writes gives `s`.
pub proof fn law_le_value_round_trip(s: Seq<u8>)
    ensures
        le_value(s) < pow256(s.len()),
        le(le_value(s), s.len()) == s,
    decreases s.len(),
{
    if s.len() > 0 {
        law_le_value_round_trip(s.skip(1));
        assert(le(le_value(s), s.len()) =~= s);
    }
}

pub proof fn lemma_pow256()
    ensures
        pow256(1) == 0x100,
        pow256(2) == 0x1_0000,
        pow256(4) == 0x1_0000_0000,
        pow256(8) == 0x1_0000_0000_0000_0000,
{
    reveal_with_fuel(pow256, 9);
}

/// Appends the lowest `n` bytes of `v`, least significant first.
pub fn push_le(out: &mut Vec<u8>, v: u64, n: usize)
    ensures
        final(out)@ == old(out)@ + le(v as nat, n as nat),
{
    let mut rest: u64 = v;
    let mut i: usize = 0;
    assert(out@ + le(v as nat, n as nat) =~= old(out)@ + le(v as nat, n as nat));
    while i < n
        invariant
            i <= n,
            out@ + le(rest as nat, (n - i) as nat) == old(out)@ + le(v as nat, n as nat),
        decreases n - i,
    {
        let ghost before = out@;
        out.push((rest % 256) as u8);
        assert(out@ + le((rest / 256) as nat, (n - i - 1) as nat) =~= before + le(
            rest as nat,
            (n - i) as nat,
        ));
        rest = rest / 256;
        i = i + 1;
    }
    assert(out@ =~= old(out)@ + le(v as nat, n as nat));
}

/// Appends all bytes of a slice.
pub fn push_all(out: &mut Vec<u8>, s: &[u8])
    ensures
        final(out)@ == old(out)@ + s@,
{
    let mut i: usize = 0;
    assert(out@ =~= old(out)@ + s@.take(0));
    while i < s.len()
        invariant
            i <= s@.len(),
            out@ == old(out)@ + s@.take(i as int),
        decreases s@.len() - i,
    {
        out.push(s[i]);
        assert(out@ =~= old(out)@ + s@.take(i + 1));
        i = i + 1;
    }
    assert(s@.take(s@.len() as int) =~= s@);
}

/// The number that `n` bytes from `at` on write, least significant first.
pub fn read_le(s: &[u8], at: usize, n: usize) -> (v: u64)
    requires
        n <= 8,
        at + n <= s@.len(),
    ensures
        v == le_value(s@.subrange(at as int, at + n)),
{
    let len: usize = s.len();
    let mut v: u64 = 0;
    let mut i: usize = n;
    proof {
        lemma_pow256();
        assert(s@.subrange(at + n, at + n) =~= Seq::<u8>::empty());
    }
    while i > 0
        invariant
            i <= n <= 8,
            at + n <= s@.len(),
            len == s@.len(),
            v == le_value(s@.subrange(at + i, at + n)),
        decreases i,
    {
        proof {
            let longer = s@.subrange(at + i - 1, at + n);
            assert(longer.skip(1) =~= s@.subrange(at + i, at + n));
            law_le_value_round_trip(longer);
            lemma_pow256_grows(longer.len(), 8);
            lemma_pow256();
        }
        i = i - 1;
        v = s[at + i] as u64 + 256 * v;
    }
    v
}

proof fn lemma_pow256_grows(a: nat, b: nat)
    requires
        a <= b,
    ensures
        pow256(a) <= pow256(b),
    decreases b,
{
    if a < b {
        lemma_pow256_grows(a, (b - 1) as nat);
    }
}

/// The bytes of an `i64` as a `u64`.
pub fn to_bits64(i: i64) -> (n: u64)
    ensures
        n == bits64(i as int),
        signed64(n as nat) == i,
{
    let n: u64 = i as u64;
    proof {
        assert(i < 0 ==> i as u64 == i + 0x1_0000_0000_0000_0000) by (bit_vector);
        assert(i >= 0 ==> i as u64 == i) by (bit_vector);
    }
    n
}

/// The `i64` with the bytes of a `u64`.
pub fn from_bits64(n: u64) -> (i: i64)
    ensures
        i == signed64(n as nat),
        bits64(i as int) == n,
{
    let i: i64 = n as i64;
    proof {
        assert(n >= 0x8000_0000_0000_0000 ==> n as i64 == n - 0x1_0000_0000_0000_0000)
            by (bit_vector);
        assert(n < 0x8000_0000_0000_0000 ==> n as i64 == n) by (bit_vector);
    }
    i
}

/// The bytes of an `i32` as a `u32`.
pub fn to_bits32(i: i32) -> (n: u32)
    ensures
        n == bits32(i as int),
{
    let n: u32 = i as u32;
    proof {
        assert(i < 0 ==> i as u32 == i + 0x1_0000_0000) by (bit_vector);
        assert(i >= 0 ==> i as u32 == i) by (bit_vector);
    }
    n
}

/// The bytes of an `i16` as a `u16`.
pub fn to_bits16(i: i16) -> (n: u16)
    ensures
        n == bits16(i as int),
{
    let n: u16 = i as u16;
    proof {
        assert(i < 0 ==> i as u16 == i + 0x1_0000) by (bit_vector);
        assert(i >= 0 ==> i as u16 == i) by (bit_vector);
    }
    n
}

/// Copies 224 bytes into an array.
pub fn to_array_224(v: &Vec<u8>) -> (r: [u8; 224])
    requires
        v@.len() == 224,
    ensures
        r@ == v@,
{
    let mut r: [u8; 224] = [0u8; 224];
    let mut i: usize = 0;
    while i < 224
        invariant
            i <= 224,
            v@.len() == 224,
            forall|j: int| 0 <= j < i ==> r@[j] == v@[j],
        decreases 224 - i,
    {
        r[i] = v[i];
        i = i + 1;
    }
    assert(r@ =~= v@);
    r
}

/// Copies 256 bytes into an array.
pub fn to_array_256(v: &Vec<u8>) -> (r: [u8; 256])
    requires
        v@.len() == 256,
    ensures
        r@ == v@,
{
    let mut r: [u8; 256] = [0u8; 256];
    let mut i: usize = 0;
    while i < 256
        invariant
            i <= 256,
            v@.len() == 256,
            forall|j: int| 0 <= j < i ==> r@[j] == v@[j],
        decreases 256 - i,
    {
        r[i] = v[i];
        i = i + 1;
    }
    assert(r@ =~= v@);
    r
}

/// Byte `i` of a number is its digit with weight `256^i`.
pub proof fn law_le_digits(v: nat, n: nat, i: nat)
    requires
        i < n,
    ensures
        le(v, n).len() == n,
        le(v, n)[i as int] as int == (v as int / pow(256, i)) % 256,
    decreases n,
{
    lemma_le_len(v, n);
    reveal(pow);
    if i > 0 {
        law_le_digits(v / 256, (n - 1) as nat, (i - 1) as nat);
        assert(le(v, n)[i as int] == le(v / 256, (n - 1) as nat)[i - 1]);
        lemma_pow_positive(256, (i - 1) as nat);
        lemma_div_denominator(v as int, 256, pow(256, (i - 1) as nat));
    }
}

/// Two's complement: the number without a sign is in range and differs from the
/// one with a sign by nothing or by all its bits, and the way back is the same.
pub proof fn law_twos_complement(i: i64, n: u64)
    ensures
        0 <= bits64(i as int) <= u64::MAX,
        (bits64(i as int) - i) % 0x1_0000_0000_0000_0000 == 0,
        i64::MIN <= signed64(n as nat) <= i64::MAX,
        (signed64(n as nat) - n) % 0x1_0000_0000_0000_0000 == 0,
{
}

/// Overwriting changes the bytes of the part and no others.
pub proof fn law_overwrite(bytes: Seq<u8>, at: int, part: Seq<u8>)
    requires
        0 <= at,
        at + part.len() <= bytes.len(),
    ensures
        overwrite(bytes, at, part).len() == bytes.len(),
        overwrite(bytes, at, part).subrange(at, at + part.len()) == part,
        forall|i: int|
            0 <= i < bytes.len() && !(at <= i < at + part.len()) ==> #[trigger] overwrite(
                bytes,
                at,
                part,
            )[i] == bytes[i],
{
    assert(overwrite(bytes, at, part).subrange(at, at + part.len()) =~= part);
}

} // verus!
