//! Characters and strings: splitting, trimming, reading and printing integers.

use vstd::arithmetic::power::*;
use vstd::prelude::*;
use vstd::utf8::*;

verus! {

/// The decimal digit `d` as a character.
pub open spec fn digit_char(d: int) -> char {
    (48 + d) as char
}

/// The decimal digits of `n`, most significant first, without leading zeros.
pub open spec fn dec(n: nat) -> Seq<char>
    decreases n,
{
    if n < 10 {
        seq![digit_char(n as int)]
    } else {
        dec(n / 10).push(digit_char((n % 10) as int))
    }
}

/// `i` in decimal, with a leading minus sign where it is negative.
pub open spec fn dec_int(i: int) -> Seq<char> {
    if i < 0 {
        seq!['-'] + dec((-i) as nat)
    } else {
        dec(i as nat)
    }
}

/// The upper-case hexadecimal digit `d` as a character.
pub open spec fn hex_char(d: int) -> char {
    if d < 10 {
        (48 + d) as char
    } else {
        (55 + d) as char
    }
}

/// The last `width` hexadecimal digits of `n`, zero-padded on the left.
pub open spec fn hex(n: nat, width: nat) -> Seq<char>
    decreases width,
{
    if width == 0 {
        Seq::empty()
    } else {
        hex(n / 16, (width - 1) as nat).push(hex_char((n % 16) as int))
    }
}

/// Appends a character to a string, `String::push`: the string keeps what it
/// had and ends in the character.
pub assume_specification[ String::push ](s: &mut String, c: char)
    ensures
        final(s)@ == old(s)@.push(c),
;

/// Appends `n` in decimal.
pub fn push_dec(out: &mut String, n: u128)
    ensures
        final(out)@ == old(out)@ + dec(n as nat),
    decreases n,
{
    if n >= 10 {
        push_dec(out, n / 10);
    }
    let d: u8 = (n % 10) as u8;
    out.push((48 + d) as char);
    assert(out@ =~= old(out)@ + dec(n as nat));
}

/// Appends `i` in decimal, with its sign where it is negative.
pub fn push_dec_int(out: &mut String, i: i64)
    ensures
        final(out)@ == old(out)@ + dec_int(i as int),
{
    let wide: i128 = i as i128;
    if wide < 0 {
        out.push('-');
        push_dec(out, (-wide) as u128);
    } else {
        push_dec(out, wide as u128);
    }
    assert(out@ =~= old(out)@ + dec_int(i as int));
}

/// Appends `n` as `width` upper-case hexadecimal digits.
pub fn push_hex(out: &mut String, n: u32, width: usize)
    ensures
        final(out)@ == old(out)@ + hex(n as nat, width as nat),
    decreases width,
{
    if width > 0 {
        push_hex(out, n / 16, width - 1);
        let d: u8 = (n % 16) as u8;
        if d < 10 {
            out.push((48 + d) as char);
        } else {
            out.push((55 + d) as char);
        }
    }
    assert(out@ =~= old(out)@ + hex(n as nat, width as nat));
}

/// The numbers of `s` in decimal, with a comma and a space between them.
pub open spec fn dec_list(s: Seq<u8>) -> Seq<char>
    decreases s.len(),
{
    if s.len() == 0 {
        Seq::empty()
    } else if s.len() == 1 {
        dec(s[0] as nat)
    } else {
        dec_list(s.drop_last()) + ", "@ + dec(s.last() as nat)
    }
}

/// The bytes `s` as a bracketed list of decimal numbers.
pub open spec fn bracketed(s: Seq<u8>) -> Seq<char> {
    "["@ + dec_list(s) + "]"@
}

/// Appends the bytes as a bracketed list of decimal numbers.
pub fn push_bracketed(out: &mut String, s: &[u8])
    ensures
        final(out)@ == old(out)@ + bracketed(s@),
{
    out.append("[");
    let mut i: usize = 0;
    assert(s@.take(0) =~= Seq::<u8>::empty());
    while i < s.len()
        invariant
            i <= s@.len(),
            out@ == old(out)@ + "["@ + dec_list(s@.take(i as int)),
        decreases s@.len() - i,
    {
        if i > 0 {
            out.append(", ");
        }
        push_dec(out, s[i] as u128);
        proof {
            let next = s@.take(i + 1);
            assert(next.drop_last() =~= s@.take(i as int));
            assert(out@ =~= old(out)@ + "["@ + dec_list(next));
        }
        i = i + 1;
    }
    out.append("]");
    assert(s@.take(s@.len() as int) =~= s@);
    assert(out@ =~= old(out)@ + bracketed(s@));
}

/// The characters with the Unicode property White_Space.
pub open spec fn white(c: char) -> bool {
    let n = c as u32;
    ||| 9 <= n <= 13
    ||| n == 0x20
    ||| n == 0x85
    ||| n == 0xA0
    ||| n == 0x1680
    ||| 0x2000 <= n <= 0x200A
    ||| n == 0x2028
    ||| n == 0x2029
    ||| n == 0x202F
    ||| n == 0x205F
    ||| n == 0x3000
}

/// Whether a character is white space.
pub fn is_white(c: char) -> (b: bool)
    ensures
        b == white(c),
{
    let n: u32 = c as u32;
    (9 <= n && n <= 13) || n == 0x20 || n == 0x85 || n == 0xA0 || n == 0x1680 || (0x2000 <= n && n
        <= 0x200A) || n == 0x2028 || n == 0x2029 || n == 0x202F || n == 0x205F || n == 0x3000
}

/// `s` from its first character on that is not white space.
pub open spec fn trimmed_start(s: Seq<char>) -> Seq<char>
    decreases s.len(),
{
    if s.len() > 0 && white(s[0]) {
        trimmed_start(s.skip(1))
    } else {
        s
    }
}

/// `s` up to its last character that is not white space.
pub open spec fn trimmed_end(s: Seq<char>) -> Seq<char>
    decreases s.len(),
{
    if s.len() > 0 && white(s.last()) {
        trimmed_end(s.drop_last())
    } else {
        s
    }
}

/// `s` without the white space at its two ends.
pub open spec fn trimmed(s: Seq<char>) -> Seq<char> {
    trimmed_end(trimmed_start(s))
}

/// The characters of a string.
pub fn to_chars(s: &str) -> (r: Vec<char>)
    ensures
        r@ == s@,
{
    let mut r: Vec<char> = Vec::new();
    for c in it: s.chars()
        invariant
            it.seq() == s@,
            r@ == s@.take(it.index()),
    {
        r.push(c);
        assert(s@.take(it.index() + 1) =~= s@.take(it.index()).push(c));
    }
    assert(s@.take(s@.len() as int) =~= s@);
    r
}

/// A string without the white space at its two ends.
pub fn trim<'a>(s: &'a str) -> (r: &'a str)
    ensures
        r@ == trimmed(s@),
{
    let cs: Vec<char> = to_chars(s);
    let n: usize = cs.len();
    let mut a: usize = 0;
    assert(s@.skip(0) =~= s@);
    while a < n && is_white(cs[a])
        invariant
            cs@ == s@,
            n == s@.len(),
            a <= n,
            trimmed_start(s@) == trimmed_start(s@.skip(a as int)),
        decreases n - a,
    {
        assert(s@.skip(a as int).skip(1) =~= s@.skip(a + 1));
        a = a + 1;
    }
    let mut b: usize = n;
    assert(s@.subrange(a as int, n as int) =~= s@.skip(a as int));
    while b > a && is_white(cs[b - 1])
        invariant
            cs@ == s@,
            n == s@.len(),
            a <= b <= n,
            trimmed(s@) == trimmed_end(s@.subrange(a as int, b as int)),
        decreases b,
    {
        assert(s@.subrange(a as int, b as int).drop_last() =~= s@.subrange(a as int, b - 1));
        b = b - 1;
    }
    s.substring_char(a, b)
}

/// The pieces of `s` between the occurrences of `sep`.
pub open spec fn split_on(s: Seq<char>, sep: char) -> Seq<Seq<char>>
    decreases s.len(),
{
    if s.len() == 0 {
        seq![Seq::<char>::empty()]
    } else {
        let before = split_on(s.drop_last(), sep);
        if s.last() == sep {
            before.push(Seq::empty())
        } else {
            before.update(before.len() - 1, before.last().push(s.last()))
        }
    }
}

pub proof fn lemma_split_nonempty(s: Seq<char>, sep: char)
    ensures
        split_on(s, sep).len() >= 1,
    decreases s.len(),
{
    if s.len() > 0 {
        lemma_split_nonempty(s.drop_last(), sep);
    }
}

/// A text without the separator is its own only piece.
pub proof fn lemma_split_whole(s: Seq<char>, sep: char)
    requires
        !s.contains(sep),
    ensures
        split_on(s, sep) == seq![s],
    decreases s.len(),
{
    if s.len() == 0 {
        assert(s =~= Seq::<char>::empty());
        assert(split_on(s, sep) =~= seq![s]);
    } else {
        let front = s.drop_last();
        assert forall|i: int| 0 <= i < front.len() implies front[i] != sep by {
            assert(s[i] == front[i]);
        }
        lemma_split_whole(front, sep);
        assert(s[s.len() - 1] != sep);
        assert(front.push(s.last()) =~= s);
        let before = split_on(front, sep);
        assert(before.last() == front);
        assert(split_on(s, sep) == before.update(before.len() - 1, before.last().push(s.last())));
        assert(split_on(s, sep) =~= seq![s]);
    }
}

/// Two texts without the separator are the pieces of what they make with the
/// separator between them.
pub proof fn lemma_split_pair(a: Seq<char>, b: Seq<char>, sep: char)
    requires
        !a.contains(sep),
        !b.contains(sep),
    ensures
        split_on(a + seq![sep] + b, sep) == seq![a, b],
    decreases b.len(),
{
    let s = a + seq![sep] + b;
    if b.len() == 0 {
        lemma_split_whole(a, sep);
        assert(s.drop_last() =~= a);
        assert(b =~= Seq::<char>::empty());
        assert(split_on(s, sep) =~= seq![a, b]);
    } else {
        let front = b.drop_last();
        assert forall|i: int| 0 <= i < front.len() implies front[i] != sep by {
            assert(b[i] == front[i]);
        }
        lemma_split_pair(a, front, sep);
        assert(b[b.len() - 1] != sep);
        assert(s.last() == b.last());
        assert(s.drop_last() =~= a + seq![sep] + front);
        assert(front.push(b.last()) =~= b);
        let before = split_on(s.drop_last(), sep);
        assert(before.last() == front);
        assert(split_on(s, sep) == before.update(before.len() - 1, before.last().push(s.last())));
        assert(split_on(s, sep) =~= seq![a, b]);
    }
}

/// The pieces of a string between the occurrences of a character.
pub fn split(s: &str, sep: char) -> (r: Vec<String>)
    ensures
        r.deep_view() == split_on(s@, sep),
{
    let cs: Vec<char> = to_chars(s);
    let mut done: Vec<String> = Vec::new();
    let mut piece: String = String::new();
    let mut i: usize = 0;
    assert(s@.take(0) =~= Seq::<char>::empty());
    assert(done.deep_view().push(piece@) =~= split_on(s@.take(0), sep));
    while i < cs.len()
        invariant
            cs@ == s@,
            i <= s@.len(),
            done.deep_view().push(piece@) == split_on(s@.take(i as int), sep),
        decreases s@.len() - i,
    {
        let ghost before = done.deep_view().push(piece@);
        let c: char = cs[i];
        proof {
            assert(s@.take(i + 1).drop_last() =~= s@.take(i as int));
        }
        if c == sep {
            done.push(piece);
            piece = String::new();
            assert(done.deep_view() =~= before);
        } else {
            piece.push(c);
        }
        assert(done.deep_view().push(piece@) =~= split_on(s@.take(i + 1), sep));
        i = i + 1;
    }
    assert(s@.take(s@.len() as int) =~= s@);
    let ghost all = done.deep_view().push(piece@);
    done.push(piece);
    assert(done.deep_view() =~= all);
    done
}

/// Whether every character of `s` is an ASCII decimal digit.
pub open spec fn all_digits(s: Seq<char>) -> bool {
    forall|i: int| 0 <= i < s.len() ==> '0' <= #[trigger] s[i] <= '9'
}

/// The number that the decimal digits `s` write.
pub open spec fn digits_value(s: Seq<char>) -> nat
    decreases s.len(),
{
    if s.len() == 0 {
        0
    } else {
        (10 * digits_value(s.drop_last()) + (s.last() as nat - 48)) as nat
    }
}

/// The integer that `s` writes: decimal digits, at least one, behind an
/// optional plus sign or, where `signed` holds, an optional plus or minus sign.
pub open spec fn integer(s: Seq<char>, signed: bool) -> Option<int> {
    let has_sign = s.len() > 0 && (s[0] == '+' || (signed && s[0] == '-'));
    let digits = if has_sign { s.skip(1) } else { s };
    if digits.len() > 0 && all_digits(digits) {
        if s[0] == '-' {
            Some(-digits_value(digits))
        } else {
            Some(digits_value(digits) as int)
        }
    } else {
        None
    }
}

/// The text of the error that `str::parse::<i64>` gives for a string that is
/// no `i64`.
pub uninterp spec fn i64_fault(s: Seq<char>) -> Seq<char>;

/// The text of the error that `str::parse::<u64>` gives for a string that is
/// no `u64`.
pub uninterp spec fn u64_fault(s: Seq<char>) -> Seq<char>;

/// `str::parse::<i64>`: accepts an optional sign and at least one decimal
/// digit, nothing else, where the number fits; the error is handed on as its
/// text, which depends on the string alone.
#[verifier::external_body]
pub(crate) fn parse_i64(s: &str) -> (r: Result<i64, String>)
    ensures
        match r {
            Ok(v) => integer(s@, true) == Some(v as int),
            Err(e) => e@ == i64_fault(s@) && match integer(s@, true) {
                Some(v) => v < i64::MIN || v > i64::MAX,
                None => true,
            },
        },
{
    s.parse::<i64>().map_err(|e| e.to_string())
}

/// `str::parse::<u64>`: accepts an optional plus sign and at least one decimal
/// digit, nothing else, where the number fits; the error is handed on as its
/// text, which depends on the string alone.
#[verifier::external_body]
pub(crate) fn parse_u64(s: &str) -> (r: Result<u64, String>)
    ensures
        match r {
            Ok(v) => integer(s@, false) == Some(v as int),
            Err(e) => e@ == u64_fault(s@) && match integer(s@, false) {
                Some(v) => v > u64::MAX,
                None => true,
            },
        },
{
    s.parse::<u64>().map_err(|e| e.to_string())
}

/// An ASCII character with `a` to `z` made `A` to `Z`.
pub open spec fn upper_char(c: char) -> char {
    if 'a' <= c <= 'z' {
        (c as int - 32) as char
    } else {
        c
    }
}

/// An ASCII character with `A` to `Z` made `a` to `z`.
pub open spec fn lower_char(c: char) -> char {
    if 'A' <= c <= 'Z' {
        (c as int + 32) as char
    } else {
        c
    }
}

/// What `str::to_uppercase` makes of a string that is not ASCII.
pub uninterp spec fn unicode_upper(s: Seq<char>) -> Seq<char>;

/// What `str::to_lowercase` makes of a string that is not ASCII.
pub uninterp spec fn unicode_lower(s: Seq<char>) -> Seq<char>;

/// The upper-case form of a string: character by character where it is ASCII,
/// else under the Unicode case mapping.
pub open spec fn upper(s: Seq<char>) -> Seq<char> {
    if is_ascii_chars(s) {
        s.map_values(|c: char| upper_char(c))
    } else {
        unicode_upper(s)
    }
}

/// The lower-case form of a string: character by character where it is ASCII,
/// else under the Unicode case mapping.
pub open spec fn lower(s: Seq<char>) -> Seq<char> {
    if is_ascii_chars(s) {
        s.map_values(|c: char| lower_char(c))
    } else {
        unicode_lower(s)
    }
}

/// `str::to_uppercase`: an ASCII string has its letters made upper case and
/// nothing else changed; of another string the result depends on the string
/// alone.
pub assume_specification[ str::to_uppercase ](s: &str) -> (r: String)
    ensures
        is_ascii_chars(s@) ==> r@ == s@.map_values(|c: char| upper_char(c)),
        !is_ascii_chars(s@) ==> r@ == unicode_upper(s@),
;

/// `str::to_lowercase`: an ASCII string has its letters made lower case and
/// nothing else changed; of another string the result depends on the string
/// alone.
pub assume_specification[ str::to_lowercase ](s: &str) -> (r: String)
    ensures
        is_ascii_chars(s@) ==> r@ == s@.map_values(|c: char| lower_char(c)),
        !is_ascii_chars(s@) ==> r@ == unicode_lower(s@),
;

/// In an ASCII string the case of the letters is all that case mapping changes:
/// neither the length nor what the other case makes of it, and what is in one
/// case already stays as it is.
pub proof fn law_ascii_case(s: Seq<char>)
    requires
        is_ascii_chars(s),
    ensures
        is_ascii_chars(upper(s)) && upper(s).len() == s.len(),
        is_ascii_chars(lower(s)) && lower(s).len() == s.len(),
        upper(upper(s)) == upper(s),
        lower(lower(s)) == lower(s),
        upper(lower(s)) == upper(s),
        lower(upper(s)) == lower(s),
{
    assert(upper(upper(s)) =~= upper(s));
    assert(lower(lower(s)) =~= lower(s));
    assert(upper(lower(s)) =~= upper(s));
    assert(lower(upper(s)) =~= lower(s));
}

/// The text of a complaint about a number.
pub open spec fn mismatch(what: Seq<char>, expected: nat, got: nat) -> Seq<char> {
    what + ": expected "@ + dec(expected) + ", got "@ + dec(got)
}

/// Complains that a number is not the one expected.
pub fn mismatch_text(what: &str, expected: u64, got: u64) -> (r: String)
    ensures
        r@ == mismatch(what@, expected as nat, got as nat),
{
    let mut r: String = String::from_str(what);
    r.append(": expected ");
    push_dec(&mut r, expected as u128);
    r.append(", got ");
    push_dec(&mut r, got as u128);
    r
}

/// The text of a complaint about a magic number.
pub open spec fn magic_mismatch(expected: nat, got: nat) -> Seq<char> {
    "Invalid magic: expected 0x"@ + hex(expected, 8) + ", got 0x"@ + hex(got, 8)
}

/// Complains that a magic number is not the one expected.
pub fn magic_mismatch_text(expected: u32, got: u32) -> (r: String)
    ensures
        r@ == magic_mismatch(expected as nat, got as nat),
{
    let mut r: String = String::from_str("Invalid magic: expected 0x");
    push_hex(&mut r, expected, 8);
    r.append(", got 0x");
    push_hex(&mut r, got, 8);
    r
}

/// What `String::from_utf8_lossy` makes of bytes that are not UTF-8.
pub uninterp spec fn mended(b: Seq<u8>) -> Seq<char>;

/// The text that bytes hold: the one that they encode where they are UTF-8,
/// else one that is mended.
pub open spec fn lossy(b: Seq<u8>) -> Seq<char> {
    if valid_utf8(b) {
        decode_utf8(b)
    } else {
        mended(b)
    }
}

/// `String::from_utf8_lossy`: its result is the text that the bytes encode
/// where they are UTF-8, and depends on the bytes alone where they are not.
#[verifier::external_body]
pub(crate) fn from_utf8_lossy(b: &[u8]) -> (r: String)
    ensures
        valid_utf8(b@) ==> r@ == decode_utf8(b@),
        !valid_utf8(b@) ==> r@ == mended(b@),
{
    String::from_utf8_lossy(b).into_owned()
}

/// The digits that are printed for a number write that number, without a zero in
/// front.
pub proof fn law_dec_writes_number(n: nat)
    ensures
        dec(n).len() >= 1,
        all_digits(dec(n)),
        digits_value(dec(n)) == n,
        dec(n)[0] == '0' ==> n == 0,
    decreases n,
{
    if n < 10 {
        assert(dec(n).drop_last() =~= Seq::empty());
        assert(digits_value(dec(n).drop_last()) == 0);
    } else {
        law_dec_writes_number(n / 10);
        assert(dec(n).drop_last() =~= dec(n / 10));
        assert(dec(n)[0] == dec(n / 10)[0]);
    }
}

/// A number below zero is printed as a minus sign and its digits, another one as
/// its digits.
pub proof fn law_dec_int_writes_number(i: int)
    ensures
        i >= 0 ==> all_digits(dec_int(i)) && digits_value(dec_int(i)) == i,
        i < 0 ==> dec_int(i)[0] == '-' && all_digits(dec_int(i).skip(1)) && digits_value(
            dec_int(i).skip(1),
        ) == -i,
{
    if i >= 0 {
        law_dec_writes_number(i as nat);
    } else {
        law_dec_writes_number((-i) as nat);
        assert(dec_int(i).skip(1) =~= dec((-i) as nat));
    }
}

/// The number that hexadecimal digits write, with letters in upper case.
pub open spec fn hex_value(s: Seq<char>) -> int
    decreases s.len(),
{
    if s.len() == 0 {
        0
    } else {
        16 * hex_value(s.drop_last()) + if s.last() <= '9' {
            s.last() as int - '0' as int
        } else {
            s.last() as int - 'A' as int + 10
        }
    }
}

/// As many hexadecimal digits as asked for are printed, and where they are enough
/// they write the number.
pub proof fn law_hex_writes_number(n: nat, width: nat)
    ensures
        hex(n, width).len() == width,
        forall|i: int|
            0 <= i < width ==> '0' <= #[trigger] hex(n, width)[i] <= '9' || 'A' <= hex(
                n,
                width,
            )[i] <= 'F',
        n < pow(16, width) ==> hex_value(hex(n, width)) == n,
    decreases width,
{
    reveal(pow);
    if width == 0 {
        assert(hex(n, width) =~= Seq::empty());
    } else {
        law_hex_writes_number(n / 16, (width - 1) as nat);
        assert(hex(n, width).drop_last() =~= hex(n / 16, (width - 1) as nat));
        assert forall|i: int| 0 <= i < width implies '0' <= #[trigger] hex(n, width)[i] <= '9'
            || 'A' <= hex(n, width)[i] <= 'F' by {
            if i < width - 1 {
                assert(hex(n, width)[i] == hex(n / 16, (width - 1) as nat)[i]);
            }
        }
    }
}

/// Texts with a separator between them.
pub open spec fn joined(parts: Seq<Seq<char>>, sep: char) -> Seq<char>
    decreases parts.len(),
{
    if parts.len() == 0 {
        Seq::empty()
    } else if parts.len() == 1 {
        parts[0]
    } else {
        joined(parts.drop_last(), sep) + seq![sep] + parts.last()
    }
}

/// The pieces of a text hold no separator, and with separators between them make
/// up the text again.
pub proof fn law_split_rejoins(s: Seq<char>, sep: char)
    ensures
        split_on(s, sep).len() >= 1,
        joined(split_on(s, sep), sep) == s,
        forall|k: int|
            0 <= k < split_on(s, sep).len() ==> !(#[trigger] split_on(s, sep)[k]).contains(sep),
    decreases s.len(),
{
    let pieces = split_on(s, sep);
    if s.len() == 0 {
        assert(s =~= Seq::<char>::empty());
    } else {
        let front = s.drop_last();
        let before = split_on(front, sep);
        law_split_rejoins(front, sep);
        assert(front.push(s.last()) =~= s);
        if s.last() == sep {
            assert(pieces.drop_last() =~= before);
            assert(joined(pieces, sep) =~= s);
        } else {
            let last = before.last();
            assert(before[before.len() - 1] == last);
            assert forall|i: int| 0 <= i < last.push(s.last()).len() implies last.push(
                s.last(),
            )[i] != sep by {
                if i < last.len() {
                    assert(last.contains(last[i]));
                }
            }
            if before.len() > 1 {
                assert(pieces.drop_last() =~= before.drop_last());
            }
            assert(joined(pieces, sep) =~= s);
        }
        assert forall|k: int| 0 <= k < pieces.len() implies !(#[trigger] pieces[k]).contains(
            sep,
        ) by {
            if k < before.len() {
                assert(!before[k].contains(sep));
            }
        }
    }
}

/// The pieces of two texts with a separator between them are those of the first
/// and those of the second.
pub proof fn law_split_concat(a: Seq<char>, b: Seq<char>, sep: char)
    ensures
        split_on(a + seq![sep] + b, sep) == split_on(a, sep) + split_on(b, sep),
    decreases b.len(),
{
    let s = a + seq![sep] + b;
    if b.len() == 0 {
        assert(s.drop_last() =~= a);
        assert(split_on(s, sep) =~= split_on(a, sep) + split_on(b, sep));
    } else {
        let front = b.drop_last();
        law_split_concat(a, front, sep);
        lemma_split_nonempty(front, sep);
        assert(s.drop_last() =~= a + seq![sep] + front);
        assert(s.last() == b.last());
        assert(split_on(s, sep) =~= split_on(a, sep) + split_on(b, sep));
    }
}

/// What is left of a text without the white space at its ends: a stretch of it
/// that neither begins nor ends in white space, with nothing but white space in
/// front of it and behind it.
pub proof fn law_trimmed(s: Seq<char>) -> (r: (int, int))
    ensures
        0 <= r.0 <= r.1 <= s.len(),
        trimmed(s) == s.subrange(r.0, r.1),
        forall|k: int| 0 <= k < r.0 ==> white(#[trigger] s[k]),
        forall|k: int| r.1 <= k < s.len() ==> white(#[trigger] s[k]),
        r.0 < r.1 ==> !white(s[r.0]) && !white(s[r.1 - 1]),
{
    let i = lemma_trimmed_start(s);
    let t = trimmed_start(s);
    let j = lemma_trimmed_end(t);
    assert(t.take(j) =~= s.subrange(i, i + j));
    assert forall|k: int| i + j <= k < s.len() implies white(#[trigger] s[k]) by {
        assert(t[k - i] == s[k]);
    }
    if j > 0 {
        assert(t[0] == s[i]);
        assert(t[j - 1] == s[i + j - 1]);
    }
    (i, i + j)
}

proof fn lemma_trimmed_start(s: Seq<char>) -> (i: int)
    ensures
        0 <= i <= s.len(),
        trimmed_start(s) == s.skip(i),
        forall|k: int| 0 <= k < i ==> white(#[trigger] s[k]),
        i < s.len() ==> !white(s[i]),
    decreases s.len(),
{
    if s.len() > 0 && white(s[0]) {
        let i = lemma_trimmed_start(s.skip(1));
        assert(s.skip(1).skip(i) =~= s.skip(i + 1));
        assert forall|k: int| 0 <= k < i + 1 implies white(#[trigger] s[k]) by {
            if k > 0 {
                assert(s.skip(1)[k - 1] == s[k]);
            }
        }
        if i < s.skip(1).len() {
            assert(s.skip(1)[i] == s[i + 1]);
        }
        i + 1
    } else {
        assert(s.skip(0) =~= s);
        0
    }
}

proof fn lemma_trimmed_end(s: Seq<char>) -> (j: int)
    ensures
        0 <= j <= s.len(),
        trimmed_end(s) == s.take(j),
        forall|k: int| j <= k < s.len() ==> white(#[trigger] s[k]),
        j > 0 ==> !white(s[j - 1]),
    decreases s.len(),
{
    if s.len() > 0 && white(s.last()) {
        let j = lemma_trimmed_end(s.drop_last());
        assert(s.drop_last().take(j) =~= s.take(j));
        assert forall|k: int| j <= k < s.len() implies white(#[trigger] s[k]) by {
            if k < s.len() - 1 {
                assert(s.drop_last()[k] == s[k]);
            }
        }
        if j > 0 {
            assert(s.drop_last()[j - 1] == s[j - 1]);
        }
        j
    } else {
        assert(s.take(s.len() as int) =~= s);
        s.len() as int
    }
}

/// Digits of some numbers.
pub proof fn lemma_dec_values()
    ensures
        dec(1) == seq!['1'],
        dec(32) == seq!['3', '2'],
        dec(64) == seq!['6', '4'],
        dec(88) == seq!['8', '8'],
        dec(128) == seq!['1', '2', '8'],
        dec(256) == seq!['2', '5', '6'],
        dec(4096) == seq!['4', '0', '9', '6'],
        dec(1_000_000) == seq!['1', '0', '0', '0', '0', '0', '0'],
        dec(100_000_000) == seq!['1', '0', '0', '0', '0', '0', '0', '0', '0'],
{
    reveal_with_fuel(dec, 10);
    assert(dec(1) =~= seq!['1']);
    assert(dec(32) =~= seq!['3', '2']);
    assert(dec(64) =~= seq!['6', '4']);
    assert(dec(88) =~= seq!['8', '8']);
    assert(dec(128) =~= seq!['1', '2', '8']);
    assert(dec(256) =~= seq!['2', '5', '6']);
    assert(dec(4096) =~= seq!['4', '0', '9', '6']);
    assert(dec(1_000_000) =~= seq!['1', '0', '0', '0', '0', '0', '0']);
    assert(dec(100_000_000) =~= seq!['1', '0', '0', '0', '0', '0', '0', '0', '0']);
}

/// Digits of the rings' magic number.
pub proof fn lemma_hex_magic()
    ensures
        hex(0x53505343, 8) == seq!['5', '3', '5', '0', '5', '3', '4', '3'],
{
    reveal_with_fuel(hex, 9);
    assert(hex(0x53505343, 8) =~= seq!['5', '3', '5', '0', '5', '3', '4', '3']);
}

/// A list of bytes is printed in square brackets, the bytes in decimal and in their
/// order, with a comma and a space between one and the next.
pub proof fn law_bracketed(s: Seq<u8>)
    ensures
        bracketed(s).len() >= 2,
        bracketed(s)[0] == '[',
        bracketed(s).last() == ']',
        s.len() == 0 ==> bracketed(s).len() == 2,
        s.len() > 0 ==> {
            let pieces = split_on(bracketed(s).subrange(1, bracketed(s).len() - 1), ',');
            &&& pieces.len() == s.len()
            &&& pieces[0] == dec(s[0] as nat)
            &&& forall|k: int|
                0 < k < s.len() ==> pieces[k] == seq![' '] + dec(#[trigger] s[k] as nat)
        },
{
    reveal_strlit("[");
    reveal_strlit("]");
    assert(bracketed(s).subrange(1, bracketed(s).len() - 1) =~= dec_list(s));
    if s.len() > 0 {
        lemma_list_pieces(s);
    }
}

proof fn lemma_list_pieces(s: Seq<u8>)
    requires
        s.len() > 0,
    ensures
        ({
            let pieces = split_on(dec_list(s), ',');
            &&& pieces.len() == s.len()
            &&& pieces[0] == dec(s[0] as nat)
            &&& forall|k: int|
                0 < k < s.len() ==> pieces[k] == seq![' '] + dec(#[trigger] s[k] as nat)
        }),
    decreases s.len(),
{
    let n = s.len() - 1;
    let last = dec(s[n] as nat);
    law_dec_writes_number(s[n] as nat);
    assert(!last.contains(','));
    let pieces = split_on(dec_list(s), ',');
    if n == 0 {
        lemma_split_whole(last, ',');
    } else {
        let less = s.drop_last();
        lemma_list_pieces(less);
        reveal_strlit(", ");
        let tail = seq![' '] + last;
        assert forall|i: int| 0 <= i < tail.len() implies tail[i] != ',' by {
            if i > 0 {
                assert(last.contains(last[i - 1]));
            }
        }
        assert(dec_list(s) =~= dec_list(less) + seq![','] + tail);
        law_split_concat(dec_list(less), tail, ',');
        lemma_split_whole(tail, ',');
        let before = split_on(dec_list(less), ',');
        assert(pieces == before + seq![tail]);
        assert forall|k: int| 0 < k < s.len() implies pieces[k] == seq![' '] + dec(
            #[trigger] s[k] as nat,
        ) by {
            if k < n {
                assert(less[k] == s[k]);
                assert(pieces[k] == before[k]);
            }
        }
    }
}

} // verus!
