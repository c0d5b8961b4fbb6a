//! Decimal prices as scaled integers, without floating point.

use crate::text;
use vstd::arithmetic::power::*;
use vstd::prelude::*;
use vstd::string::*;
use vstd::utf8::*;

verus! {

/// How many decimal places a price keeps.
pub const SCALE_DIGITS: usize = 8;

/// The factor between a price and its scaled integer: `10^8`.
pub const PRICE_SCALE: i64 = 100_000_000;

/// What a text gives as a decimal number.
pub ghost enum Reading {
    /// A number.
    Value(int),
    /// None: the text has more than one point.
    Malformed,
    /// None: this, where the whole part stands, is no `i64`.
    BadWhole(Seq<char>),
    /// None: this, made of the text behind the point, is no `i64`.
    BadFraction(Seq<char>),
    /// Nothing: the text is outside what can be read.
    Undefined,
}

/// Whether `v` is an `i64`.
pub open spec fn fits(v: int) -> bool {
    i64::MIN <= v <= i64::MAX
}

pub open spec fn zeros(n: nat) -> Seq<char> {
    Seq::new(n, |i: int| '0')
}

/// What the text behind the decimal point counts, in units of `10^-8`.
///
/// Up to eight bytes are padded with zeros on the right. Of a longer text the
/// first eight bytes count, one more where the ninth character is a digit of
/// five or above; the ninth character must be a digit, and the eighth byte the
/// end of a character.
pub open spec fn fraction(f: Seq<char>) -> Reading {
    let bytes = encode_utf8(f);
    if bytes.len() > SCALE_DIGITS {
        if f.len() > SCALE_DIGITS && '0' <= f[8] <= '9' && is_char_boundary(bytes, 8) {
            let kept = decode_utf8(bytes.subrange(0, 8));
            match text::integer(kept, true) {
                Some(v) => Reading::Value(
                    if f[8] >= '5' {
                        v + 1
                    } else {
                        v
                    },
                ),
                None => Reading::BadFraction(kept),
            }
        } else {
            Reading::Undefined
        }
    } else {
        let padded = f + zeros((SCALE_DIGITS - bytes.len()) as nat);
        match text::integer(padded, true) {
            Some(v) => Reading::Value(v),
            None => Reading::BadFraction(padded),
        }
    }
}

/// Whether the text of a whole part begins with a minus sign.
pub open spec fn negative(whole: Seq<char>) -> bool {
    whole.len() > 0 && whole[0] == '-'
}

/// The whole part `int_part` and the fraction `frac`, which counts on the side
/// of zero that the sign in the text says, as one scaled number.
pub open spec fn combined(negative: bool, int_part: int, frac: int, scale: int) -> int {
    int_part * scale + if negative {
        -frac
    } else {
        frac
    }
}

/// What the text `s` gives as a decimal number scaled by `scale`: a whole
/// part, and behind a point, if there is one, a fraction.
pub open spec fn decimal(s: Seq<char>, scale: int) -> Reading {
    let parts = text::split_on(s, '.');
    if parts.len() > 2 {
        Reading::Malformed
    } else {
        match text::integer(parts[0], true) {
            Some(v) if fits(v) => if parts.len() == 1 {
                if fits(v * scale) {
                    Reading::Value(v * scale)
                } else {
                    Reading::Undefined
                }
            } else {
                match fraction(parts[1]) {
                    Reading::Value(f) => if fits(v * scale) && fits(
                        combined(negative(parts[0]), v, f, scale),
                    ) {
                        Reading::Value(combined(negative(parts[0]), v, f, scale))
                    } else {
                        Reading::Undefined
                    },
                    other => other,
                }
            },
            _ => Reading::BadWhole(parts[0]),
        }
    }
}

/// Whether `r` is what the reading `d` of the text `s` comes to: its value, or
/// an error whose text names the part that could not be read.
pub open spec fn delivers(r: Result<i64, String>, d: Reading, s: Seq<char>) -> bool {
    match r {
        Ok(v) => d == Reading::Value(v as int),
        Err(e) => match d {
            Reading::Malformed => e@ == "Invalid decimal format: "@ + s,
            Reading::BadWhole(t) => e@ == "Failed to parse integer part: "@ + text::i64_fault(t),
            Reading::BadFraction(t) => e@ == "Failed to parse fractional part: "@
                + text::i64_fault(t),
            _ => false,
        },
    }
}

pub open spec fn pow10(n: nat) -> nat
    decreases n,
{
    if n == 0 {
        1
    } else {
        10 * pow10((n - 1) as nat)
    }
}

proof fn lemma_digits_bound(s: Seq<char>)
    requires
        text::all_digits(s),
    ensures
        text::digits_value(s) < pow10(s.len()),
    decreases s.len(),
{
    if s.len() > 0 {
        lemma_digits_bound(s.drop_last());
    }
}

proof fn lemma_pow10_8()
    ensures
        pow10(8) == 100_000_000,
{
    reveal_with_fuel(pow10, 9);
}

proof fn lemma_pow10_grows(a: nat, b: nat)
    requires
        a <= b,
    ensures
        0 < pow10(a) <= pow10(b),
    decreases b,
{
    if a < b {
        lemma_pow10_grows(a, (b - 1) as nat);
    } else if a > 0 {
        lemma_pow10_grows((a - 1) as nat, (b - 1) as nat);
    }
}

/// Eight bytes write fewer than `10^8`.
proof fn lemma_eight_bytes(t: Seq<char>)
    requires
        encode_utf8(t).len() <= 8,
    ensures
        text::integer(t, true) matches Some(v) ==> -100_000_000 < v < 100_000_000,
{
    if text::integer(t, true) is Some {
        let has_sign = t[0] == '+' || t[0] == '-';
        let digits = if has_sign {
            t.skip(1)
        } else {
            t
        };
        assert forall|i: int| 0 <= i < t.len() implies '\0' <= #[trigger] t[i] <= '\u{7f}' by {
            if has_sign && i > 0 {
                assert(digits[i - 1] == t[i]);
            }
        }
        assert(is_ascii_chars(t));
        is_ascii_chars_encode_utf8(t);
        lemma_digits_bound(digits);
        lemma_pow10_grows(digits.len(), 8);
        lemma_pow10_8();
    }
}

/// Reads the text behind the decimal point; nothing where it has no reading.
fn read_fraction(f: &str) -> (r: Option<Result<i64, String>>)
    ensures
        match r {
            Some(Ok(v)) => fraction(f@) == Reading::Value(v as int),
            Some(Err(e)) => fraction(f@) matches Reading::BadFraction(t) && e@ == text::i64_fault(
                t,
            ),
            None => fraction(f@) is Undefined,
        },
        r matches Some(Ok(v)) ==> -100_000_000 < v <= 100_000_000,
{
    let n: usize = f.as_bytes().len();
    if n > SCALE_DIGITS {
        let cs: Vec<char> = text::to_chars(f);
        if cs.len() <= SCALE_DIGITS || cs[SCALE_DIGITS] < '0' || cs[SCALE_DIGITS] > '9'
            || !f.is_char_boundary(SCALE_DIGITS) {
            return None;
        }
        let kept: &str = f.split_at(SCALE_DIGITS).0;
        proof {
            encode_utf8_decode_utf8(kept@);
            lemma_eight_bytes(kept@);
        }
        match text::parse_i64(kept) {
            Ok(v) => Some(
                Ok(
                    if cs[SCALE_DIGITS] >= '5' {
                        v + 1
                    } else {
                        v
                    },
                ),
            ),
            Err(e) => Some(Err(e)),
        }
    } else {
        let mut padded: String = String::from_str(f);
        let mut i: usize = n;
        while i < SCALE_DIGITS
            invariant
                n <= i <= SCALE_DIGITS,
                padded@ == f@ + zeros((i - n) as nat),
            decreases SCALE_DIGITS - i,
        {
            padded.push('0');
            i = i + 1;
            assert(padded@ =~= f@ + zeros((i - n) as nat));
        }
        proof {
            lemma_padded_bytes(f@, (SCALE_DIGITS - n) as nat);
            lemma_eight_bytes(padded@);
        }
        match text::parse_i64(padded.as_str()) {
            Ok(v) => Some(Ok(v)),
            Err(e) => Some(Err(e)),
        }
    }
}

/// Each zero on the right adds one byte.
proof fn lemma_padded_bytes(f: Seq<char>, n: nat)
    ensures
        encode_utf8(f + zeros(n)).len() == encode_utf8(f).len() + n,
    decreases f.len(),
{
    if f.len() == 0 {
        assert(f + zeros(n) =~= zeros(n));
        assert(is_ascii_chars(zeros(n)));
        is_ascii_chars_encode_utf8(zeros(n));
    } else {
        assert((f + zeros(n)).drop_first() =~= f.drop_first() + zeros(n));
        lemma_padded_bytes(f.drop_first(), n);
    }
}

/// `int_part * scale`, and `frac` more or less, where each step fits.
fn combine(negative: bool, int_part: i64, frac: i64, scale: i64) -> (r: Option<i64>)
    requires
        frac > i64::MIN,
    ensures
        r == if fits(int_part * scale) && fits(
            combined(negative, int_part as int, frac as int, scale as int),
        ) {
            Some(combined(negative, int_part as int, frac as int, scale as int) as i64)
        } else {
            None
        },
{
    match int_part.checked_mul(scale) {
        Some(whole) => whole.checked_add(
            if negative {
                -frac
            } else {
                frac
            },
        ),
        None => None,
    }
}

/// Reads a decimal number; nothing where the text has no reading.
fn read_decimal(s: &str, scale: i64) -> (r: Option<Result<i64, String>>)
    ensures
        match r {
            Some(x) => delivers(x, decimal(s@, scale as int), s@),
            None => decimal(s@, scale as int) is Undefined,
        },
{
    let parts: Vec<String> = text::split(s, '.');
    proof {
        text::lemma_split_nonempty(s@, '.');
        assert(parts.deep_view() == text::split_on(s@, '.'));
    }
    if parts.len() > 2 {
        return Some(Err(String::from_str("Invalid decimal format: ").concat(s)));
    }
    assert(parts@[0]@ == parts.deep_view()[0]);
    let int_part: i64 = match text::parse_i64(parts[0].as_str()) {
        Ok(v) => v,
        Err(e) => {
            return Some(
                Err(String::from_str("Failed to parse integer part: ").concat(e.as_str())),
            );
        },
    };
    if parts.len() == 1 {
        return match int_part.checked_mul(scale) {
            Some(v) => Some(Ok(v)),
            None => None,
        };
    }
    assert(parts@[1]@ == parts.deep_view()[1]);
    let minus: bool = parts[0].as_str().get_char(0) == '-';
    match read_fraction(parts[1].as_str()) {
        Some(Ok(frac)) => match combine(minus, int_part, frac, scale) {
            Some(v) => Some(Ok(v)),
            None => None,
        },
        Some(Err(e)) => Some(
            Err(String::from_str("Failed to parse fractional part: ").concat(e.as_str())),
        ),
        None => None,
    }
}

/// Whether a text has a reading as a decimal number scaled by `scale`: what
/// [`parse_decimal_to_scaled`] asks of its arguments.
pub fn has_reading(s: &str, scale: i64) -> (b: bool)
    ensures
        b == !(decimal(s@, scale as int) is Undefined),
{
    read_decimal(s, scale).is_some()
}

/// A decimal text as an integer scaled by `scale`, rounded half away from zero
/// at the eighth decimal place, or the text of an error.
pub fn parse_decimal_to_scaled(s: &str, scale: i64) -> (r: Result<i64, String>)
    requires
        !(decimal(s@, scale as int) is Undefined),
    ensures
        delivers(r, decimal(s@, scale as int), s@),
{
    read_decimal(s, scale).unwrap()
}

/// `n / 10^places` in units of `10^-8`, rounded to the nearest, halves up.
pub open spec fn rounded(n: nat, places: nat) -> nat {
    if places <= 8 {
        n * pow10((8 - places) as nat)
    } else {
        let unit = pow10((places - 8) as nat);
        (2 * n + unit) / (2 * unit)
    }
}

/// `m`, or `-m` where `negative` holds.
pub open spec fn with_sign(negative: bool, m: nat) -> int {
    if negative {
        -m
    } else {
        m as int
    }
}

proof fn lemma_pow10_adds(a: nat, b: nat)
    ensures
        pow10(a + b) == pow10(a) * pow10(b),
    decreases b,
{
    if b == 0 {
        assert(pow10(a) * 1 == pow10(a));
    } else {
        lemma_pow10_adds(a, (b - 1) as nat);
        let x = pow10(a);
        let y = pow10((b - 1) as nat);
        assert(10 * (x * y) == x * (10 * y)) by (nonlinear_arith);
    }
}

proof fn lemma_digits_concat(a: Seq<char>, b: Seq<char>)
    requires
        text::all_digits(a),
        text::all_digits(b),
    ensures
        text::all_digits(a + b),
        text::digits_value(a + b) == text::digits_value(a) * pow10(b.len()) + text::digits_value(b),
    decreases b.len(),
{
    if b.len() == 0 {
        assert(a + b =~= a);
        assert(text::digits_value(a) * 1 == text::digits_value(a));
    } else {
        lemma_digits_concat(a, b.drop_last());
        assert((a + b).drop_last() =~= a + b.drop_last());
        assert((a + b).last() == b[b.len() - 1]);
        let x = text::digits_value(a);
        let y = pow10((b.len() - 1) as nat);
        assert(10 * (x * y) == x * (10 * y)) by (nonlinear_arith);
    }
}

proof fn lemma_zeros(n: nat)
    ensures
        text::all_digits(zeros(n)),
        text::digits_value(zeros(n)) == 0,
    decreases n,
{
    if n > 0 {
        lemma_zeros((n - 1) as nat);
        assert(zeros(n).drop_last() =~= zeros((n - 1) as nat));
    }
}

/// The first eight of more than eight decimal places, one more where the ninth
/// is five or above, are the nearest multiple of `10^-8`.
proof fn lemma_ninth_digit(whole: Seq<char>, frac: Seq<char>)
    requires
        text::all_digits(whole),
        text::all_digits(frac),
        frac.len() > 8,
    ensures
        rounded(text::digits_value(whole + frac), frac.len()) == text::digits_value(whole)
            * 100_000_000 + text::digits_value(frac.take(8)) + if frac[8] >= '5' {
            1nat
        } else {
            0nat
        },
{
    let k = frac.len();
    let head = frac.take(8);
    let tail = frac.skip(8);
    let first = tail.take(1);
    let rest = tail.skip(1);
    assert(frac =~= head + tail);
    assert(tail =~= first + rest);
    lemma_digits_concat(whole, frac);
    lemma_digits_concat(head, tail);
    lemma_digits_concat(first, rest);
    lemma_digits_bound(rest);
    lemma_pow10_8();
    lemma_pow10_adds(8, (k - 8) as nat);
    lemma_pow10_grows(0, (k - 9) as nat);
    assert(first.drop_last() =~= Seq::<char>::empty());
    assert(text::digits_value(first.drop_last()) == 0);
    assert(first.last() == frac[8]);
    assert(text::digits_value(first) == frac[8] as int - 48);
    lemma_round_up(
        text::digits_value(whole) as int,
        text::digits_value(head) as int,
        frac[8] as int - 48,
        text::digits_value(rest) as int,
        pow10((k - 9) as nat) as int,
        text::digits_value(whole + frac) as int,
    );
}

/// With `n = (w * 10^8 + h) * 10 q + e q + r`, `e` a digit and `r < q`, the
/// quotient `n / 10 q`, rounded with halves up, is one more than `w * 10^8 + h`
/// where `e >= 5`, and that itself where not.
proof fn lemma_round_up(w: int, h: int, e: int, r: int, q: int, n: int)
    requires
        0 <= e <= 9,
        0 <= r < q,
        n == w * (100_000_000 * (10 * q)) + (h * (10 * q) + (e * q + r)),
    ensures
        (2 * n + 10 * q) / (2 * (10 * q)) == w * 100_000_000 + h + if e >= 5 {
            1int
        } else {
            0int
        },
{
    let u = 10 * q;
    let t = e * q + r;
    let up = if e >= 5 {
        1int
    } else {
        0int
    };
    let x = w * 100_000_000 + h + up;
    let y = 2 * t + u - up * (2 * u);
    assert(n == (w * 100_000_000 + h) * u + t) by (nonlinear_arith)
        requires
            n == w * (100_000_000 * u) + (h * u + t),
    ;
    assert(e >= 5 ==> e * q >= 5 * q) by (nonlinear_arith)
        requires
            q > 0,
    ;
    assert(e <= 4 ==> e * q <= 4 * q) by (nonlinear_arith)
        requires
            q > 0,
    ;
    assert(0 <= e * q <= 9 * q) by (nonlinear_arith)
        requires
            q > 0,
            0 <= e <= 9,
    ;
    assert(up * (2 * u) == if e >= 5 {
        2 * u
    } else {
        0
    });
    assert(0 <= y < 2 * u);
    assert(2 * n + u == x * (2 * u) + y) by (nonlinear_arith)
        requires
            n == (w * 100_000_000 + h) * u + t,
            x == w * 100_000_000 + h + up,
            y == 2 * t + u - up * (2 * u),
    ;
    vstd::arithmetic::div_mod::lemma_fundamental_div_mod_converse(2 * n + u, 2 * u, x, y);
}

proof fn lemma_digits_integer(s: Seq<char>)
    requires
        s.len() > 0,
        text::all_digits(s),
    ensures
        text::integer(s, true) == Some(text::digits_value(s) as int),
{
}

/// What a run of digits behind the point counts.
proof fn lemma_fraction_digits(frac: Seq<char>)
    requires
        text::all_digits(frac),
    ensures
        frac.len() <= 8 ==> fraction(frac) == Reading::Value(
            (text::digits_value(frac) * pow10((8 - frac.len()) as nat)) as int,
        ),
        frac.len() > 8 ==> fraction(frac) == Reading::Value(
            text::digits_value(frac.take(8)) + if frac[8] >= '5' {
                1int
            } else {
                0int
            },
        ),
{
    let bytes = encode_utf8(frac);
    assert(is_ascii_chars(frac));
    is_ascii_chars_encode_utf8(frac);
    encode_utf8_valid_utf8(frac);
    if frac.len() <= 8 {
        let n = (8 - frac.len()) as nat;
        lemma_zeros(n);
        lemma_digits_concat(frac, zeros(n));
        lemma_digits_integer(frac + zeros(n));
    } else {
        let head = frac.take(8);
        assert(is_ascii_chars(head));
        is_ascii_chars_encode_utf8(head);
        assert(bytes.subrange(0, 8) =~= encode_utf8(head));
        encode_utf8_decode_utf8(head);
        lemma_digits_integer(head);
        is_char_boundary_iff_not_is_continuation_byte(bytes, 8);
        assert(bytes[8] == frac[8] as u8);
    }
}

proof fn lemma_signed_integer(sign: Seq<char>, whole: Seq<char>)
    requires
        sign == Seq::<char>::empty() || sign == seq!['+'] || sign == seq!['-'],
        whole.len() > 0,
        text::all_digits(whole),
    ensures
        text::integer(sign + whole, true) == Some(
            with_sign(sign == seq!['-'], text::digits_value(whole)),
        ),
        !(sign + whole).contains('.'),
{
    let s = sign + whole;
    if sign == Seq::<char>::empty() {
        assert(s =~= whole);
        lemma_digits_integer(whole);
    } else {
        assert(s.skip(1) =~= whole);
        assert(s[0] == sign[0]);
    }
    assert forall|i: int| 0 <= i < s.len() implies s[i] != '.' by {
        if i >= sign.len() {
            assert(s[i] == whole[i - sign.len()]);
        }
    }
}

/// A number written with a point is read exactly, up to the nearest multiple of
/// `10^-8` with halves away from zero: for an optional sign, at least one digit,
/// a point and any digits, the value is the number times `10^8`, rounded. It
/// has to fit.
pub proof fn law_decimal_exact(sign: Seq<char>, whole: Seq<char>, frac: Seq<char>)
    requires
        sign == Seq::<char>::empty() || sign == seq!['+'] || sign == seq!['-'],
        whole.len() > 0,
        text::all_digits(whole),
        text::all_digits(frac),
        fits(
            with_sign(
                sign == seq!['-'],
                rounded(text::digits_value(whole + frac), frac.len()),
            ),
        ),
    ensures
        decimal(sign + whole + seq!['.'] + frac, PRICE_SCALE as int) == Reading::Value(
            with_sign(
                sign == seq!['-'],
                rounded(text::digits_value(whole + frac), frac.len()),
            ),
        ),
{
    let s = sign + whole + seq!['.'] + frac;
    let m = rounded(text::digits_value(whole + frac), frac.len()) as int;
    let w = text::digits_value(whole) as int;
    lemma_signed_integer(sign, whole);
    assert forall|i: int| 0 <= i < frac.len() implies frac[i] != '.' by {}
    text::lemma_split_pair(sign + whole, frac, '.');
    lemma_fraction_digits(frac);
    lemma_digits_concat(whole, frac);
    if frac.len() <= 8 {
        let n = (8 - frac.len()) as nat;
        let f = text::digits_value(frac) as int;
        let a = pow10(frac.len()) as int;
        let b = pow10(n) as int;
        lemma_pow10_8();
        lemma_pow10_adds(frac.len(), n);
        lemma_pow10_grows(0, n);
        assert((w * a + f) * b == w * (a * b) + f * b) by (nonlinear_arith);
        assert(f * b >= 0) by (nonlinear_arith)
            requires
                f >= 0,
                b >= 0,
        ;
        assert(w * (a * b) == w * 100_000_000);
    } else {
        lemma_ninth_digit(whole, frac);
    }
    let minus = sign == seq!['-'];
    assert(negative(sign + whole) == minus) by {
        if sign == Seq::<char>::empty() {
            assert((sign + whole)[0] == whole[0]);
        } else {
            assert((sign + whole)[0] == sign[0]);
            assert(sign[0] == '-' ==> sign =~= seq!['-']);
        }
    }
    let v = with_sign(minus, w as nat);
    let f = fraction(frac)->Value_0;
    assert(m == w * 100_000_000 + f);
    assert(f >= 0);
    assert(v * 100_000_000 == with_sign(minus, (w * 100_000_000) as nat));
    assert(combined(minus, v, f, 100_000_000) == with_sign(minus, m as nat));
    let parts = text::split_on(s, '.');
    assert(parts == seq![sign + whole, frac]);
    assert(parts[0] == sign + whole && parts[1] == frac);
}

/// A number written without a point is read exactly: the value is the number
/// times the scale, where both fit.
pub proof fn law_whole_exact(sign: Seq<char>, whole: Seq<char>, scale: int)
    requires
        sign == Seq::<char>::empty() || sign == seq!['+'] || sign == seq!['-'],
        whole.len() > 0,
        text::all_digits(whole),
        fits(with_sign(sign == seq!['-'], text::digits_value(whole))),
        fits(with_sign(sign == seq!['-'], text::digits_value(whole)) * scale),
    ensures
        decimal(sign + whole, scale) == Reading::Value(
            with_sign(sign == seq!['-'], text::digits_value(whole)) * scale,
        ),
{
    lemma_signed_integer(sign, whole);
    text::lemma_split_whole(sign + whole, '.');
}

/// A text with two points or more is no decimal number, whatever else stands in it, and
/// every text with one point or none is told apart from it.
pub proof fn law_two_points(s: Seq<char>, scale: int)
    ensures
        decimal(s, scale) is Malformed <==> text::split_on(s, '.').len() >= 3,
{
    text::lemma_split_nonempty(s, '.');
}

/// A number has to have a whole part that is an integer of 64 bits: where it has none,
/// the reading says so and names it, whatever stands behind the point.
pub proof fn law_bad_whole(whole: Seq<char>, rest: Seq<char>, scale: int)
    requires
        !whole.contains('.'),
        !rest.contains('.'),
        text::integer(whole, true) matches Some(v) ==> !fits(v),
    ensures
        decimal(whole, scale) == Reading::BadWhole(whole),
        decimal(whole + seq!['.'] + rest, scale) == Reading::BadWhole(whole),
{
    text::lemma_split_whole(whole, '.');
    text::lemma_split_pair(whole, rest, '.');
}

/// A text of up to eight bytes behind the point that is not made of digits, behind a sign
/// or not, is no fraction: the reading names it, filled up with zeros.
pub proof fn law_bad_fraction(whole: Seq<char>, frac: Seq<char>, scale: int)
    requires
        !whole.contains('.'),
        !frac.contains('.'),
        text::integer(whole, true) matches Some(v) && fits(v),
        encode_utf8(frac).len() <= 8,
        exists|i: int|
            0 <= i < frac.len() && !('0' <= #[trigger] frac[i] <= '9') && (i > 0 || frac[i] != '+'
                && frac[i] != '-'),
    ensures
        decimal(whole + seq!['.'] + frac, scale) == Reading::BadFraction(
            frac + zeros((8 - encode_utf8(frac).len()) as nat),
        ),
{
    text::lemma_split_pair(whole, frac, '.');
    let padded = frac + zeros((8 - encode_utf8(frac).len()) as nat);
    let i = choose|i: int|
        0 <= i < frac.len() && !('0' <= #[trigger] frac[i] <= '9') && (i > 0 || frac[i] != '+'
            && frac[i] != '-');
    assert(padded[i] == frac[i]);
    assert(padded.skip(1).len() >= 0);
    if i > 0 {
        assert(padded.skip(1)[i - 1] == frac[i]);
    }
    assert(text::integer(padded, true) is None);
}

/// A sign behind the point counts: the digits behind it, with the sign in the first of
/// the eight places, are added or taken away on the side of zero that the whole part is
/// on.
pub proof fn law_signed_fraction(whole: Seq<char>, sign: char, digits: Seq<char>)
    requires
        !whole.contains('.'),
        text::integer(whole, true) matches Some(v) && -90_000_000_000 < v < 90_000_000_000,
        sign == '+' || sign == '-',
        0 < digits.len() <= 7,
        text::all_digits(digits),
    ensures
        ({
            let v = text::integer(whole, true)->0;
            let f = text::digits_value(digits) * pow10((7 - digits.len()) as nat);
            let minus = (whole.len() > 0 && whole[0] == '-') != (sign == '-');
            decimal(whole + seq!['.'] + (seq![sign] + digits), PRICE_SCALE as int)
                == Reading::Value(
                v * 100_000_000 + if minus {
                    -f
                } else {
                    f as int
                },
            )
        }),
{
    let frac = seq![sign] + digits;
    let n = (7 - digits.len()) as nat;
    assert forall|i: int| 0 <= i < frac.len() implies frac[i] != '.' by {
        if i > 0 {
            assert(frac[i] == digits[i - 1]);
        }
    }
    text::lemma_split_pair(whole, frac, '.');
    assert forall|i: int| 0 <= i < frac.len() implies '\0' <= #[trigger] frac[i] <= '\u{7f}' by {
        if i > 0 {
            assert(frac[i] == digits[i - 1]);
        }
    }
    assert(is_ascii_chars(frac));
    is_ascii_chars_encode_utf8(frac);
    let padded = frac + zeros(n);
    assert(padded.skip(1) =~= digits + zeros(n));
    lemma_zeros(n);
    lemma_digits_concat(digits, zeros(n));
    lemma_digits_bound(digits + zeros(n));
    assert(padded[0] == sign);
    reveal_with_fuel(pow10, 8);
}

/// What the result of reading a text says: the value where there is one, else which part
/// could not be read.
pub proof fn law_result_of_reading(r: Result<i64, String>, d: Reading, s: Seq<char>)
    requires
        delivers(r, d, s),
    ensures
        r is Ok <==> d is Value,
        r matches Ok(v) ==> d->Value_0 == v,
        d is Malformed ==> r->Err_0@ == "Invalid decimal format: "@ + s,
        d matches Reading::BadWhole(t) ==> r->Err_0@ == "Failed to parse integer part: "@
            + text::i64_fault(t),
        d matches Reading::BadFraction(t) ==> r->Err_0@ == "Failed to parse fractional part: "@
            + text::i64_fault(t),
{
}

/// Prices are scaled by `10^8`, eight decimal places.
pub proof fn law_scale()
    ensures
        PRICE_SCALE == 100_000_000,
        SCALE_DIGITS == 8,
        PRICE_SCALE == pow10(8),
{
    lemma_pow10_8();
}

/// Rounding gives the nearest multiple of `10^-8`, and of two that are equally near the
/// greater: `n / 10^places` and what it is rounded to are at most half a unit apart.
pub proof fn law_rounded_is_nearest(n: nat, places: nat)
    ensures
        ({
            let p = pow(10, places);
            let gap = 2 * (rounded(n, places) * p) - 2 * (n * 100_000_000);
            -p < gap <= p && (places <= 8 ==> gap == 0)
        }),
{
    let r = rounded(n, places) as int;
    let p = pow10(places) as int;
    lemma_pow10_is_pow(places);
    lemma_pow10_8();
    if places <= 8 {
        let a = pow10((8 - places) as nat) as int;
        lemma_pow10_adds((8 - places) as nat, places);
        lemma_pow10_grows(0, places);
        assert(n * a * p == n * (a * p)) by (nonlinear_arith);
    } else {
        let unit = pow10((places - 8) as nat) as int;
        lemma_pow10_adds((places - 8) as nat, 8);
        lemma_pow10_grows(0, (places - 8) as nat);
        let x = 2 * n + unit;
        let y = 2 * unit;
        vstd::arithmetic::div_mod::lemma_fundamental_div_mod(x, y);
        vstd::arithmetic::div_mod::lemma_mod_bound(x, y);
        let rest = x % y;
        assert(r * p == 50_000_000 * (y * r)) by (nonlinear_arith)
            requires
                p == unit * 100_000_000,
                y == 2 * unit,
        ;
        assert(2 * (r * p) == 100_000_000 * (x - rest));
    }
}

proof fn lemma_pow10_is_pow(n: nat)
    ensures
        pow10(n) == pow(10, n),
    decreases n,
{
    reveal(pow);
    if n > 0 {
        lemma_pow10_is_pow((n - 1) as nat);
    }
}

/// Of a longer ASCII text behind the point the first eight characters count, one more
/// where the ninth is a digit of five or above, on the side of zero that the whole part
/// is on; where the eight are no number, the reading names them.
pub proof fn law_long_fraction(whole: Seq<char>, frac: Seq<char>)
    requires
        !whole.contains('.'),
        !frac.contains('.'),
        text::integer(whole, true) matches Some(v) && -90_000_000_000 < v < 90_000_000_000,
        is_ascii_chars(frac),
        frac.len() > 8,
        '0' <= frac[8] <= '9',
    ensures
        ({
            let v = text::integer(whole, true)->0;
            let minus = whole.len() > 0 && whole[0] == '-';
            let reading = decimal(whole + seq!['.'] + frac, PRICE_SCALE as int);
            match text::integer(frac.take(8), true) {
                Some(f) => {
                    let f = f + if frac[8] >= '5' {
                        1int
                    } else {
                        0int
                    };
                    reading == Reading::Value(
                        v * 100_000_000 + if minus {
                            -f
                        } else {
                            f
                        },
                    )
                },
                None => reading == Reading::BadFraction(frac.take(8)),
            }
        }),
{
    text::lemma_split_pair(whole, frac, '.');
    let bytes = encode_utf8(frac);
    let head = frac.take(8);
    is_ascii_chars_encode_utf8(frac);
    encode_utf8_valid_utf8(frac);
    assert(is_ascii_chars(head));
    is_ascii_chars_encode_utf8(head);
    assert(bytes.subrange(0, 8) =~= encode_utf8(head));
    encode_utf8_decode_utf8(head);
    is_char_boundary_iff_not_is_continuation_byte(bytes, 8);
    assert(bytes[8] == frac[8] as u8);
    lemma_eight_bytes(head);
}

} // verus!
