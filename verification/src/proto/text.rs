//! Text fields of the protocol: case-insensitive names, decimal numbers and
//! UTF-8.
use vstd::prelude::*;
use vstd::utf8::{decode_utf8, encode_utf8, valid_utf8};

verus! {

/// The lower-case form of an ASCII letter; any other character stays.
pub open spec fn ascii_lower(c: char) -> char {
    if 'A' <= c <= 'Z' {
        (c as u32 + 32) as char
    } else {
        c
    }
}

/// Equality up to the case of ASCII letters.
pub open spec fn same_ignoring_case(a: Seq<char>, b: Seq<char>) -> bool {
    &&& a.len() == b.len()
    &&& forall|i: int| 0 <= i < a.len() ==> ascii_lower(#[trigger] a[i]) == ascii_lower(b[i])
}

/// Whether `c` is a decimal digit.
pub open spec fn is_digit(c: char) -> bool {
    '0' <= c <= '9'
}

/// The number that a string of decimal digits stands for.
pub open spec fn digits_value(digits: Seq<char>) -> nat
    decreases digits.len(),
{
    if digits.len() == 0 {
        0
    } else {
        digits_value(digits.drop_last()) * 10 + (digits.last() as nat - '0' as nat) as nat
    }
}

/// Whether `s` consists of decimal digits.
pub open spec fn all_digits(s: Seq<char>) -> bool {
    forall|i: int| 0 <= i < s.len() ==> is_digit(#[trigger] s[i])
}

/// `s` without the plus sign that it may start with.
pub open spec fn without_plus(s: Seq<char>) -> Seq<char> {
    if s.len() > 0 && s[0] == '+' {
        s.drop_first()
    } else {
        s
    }
}

/// The number written in `s`: one or more decimal digits, which a plus sign
/// may precede.  Anything else is no number.
pub open spec fn decimal_value(s: Seq<char>) -> Option<nat> {
    let digits = without_plus(s);
    if digits.len() > 0 && all_digits(digits) {
        Some(digits_value(digits))
    } else {
        None
    }
}

/// The digit for `n < 10`.
pub open spec fn digit_char(n: nat) -> char {
    ('0' as nat + n) as char
}

/// The decimal notation of `n`, without leading zeros.
pub open spec fn decimal_text(n: nat) -> Seq<char>
    decreases n,
{
    if n < 10 {
        seq![digit_char(n)]
    } else {
        decimal_text(n / 10).push(digit_char(n % 10))
    }
}

/// The decimal notation of a number consists of digits and stands for that
/// number.
pub proof fn decimal_text_is_digits(n: nat)
    ensures
        decimal_text(n).len() > 0,
        all_digits(decimal_text(n)),
        digits_value(decimal_text(n)) == n,
    decreases n,
{
    if n < 10 {
        assert(decimal_text(n).drop_last() =~= Seq::<char>::empty());
        assert(digits_value(Seq::<char>::empty()) == 0);
    } else {
        decimal_text_is_digits(n / 10);
        assert(decimal_text(n).drop_last() =~= decimal_text(n / 10));
    }
}

/// Reading the decimal notation of a number gives the number again.
pub proof fn decimal_text_round_trips(n: nat)
    ensures
        decimal_value(decimal_text(n)) == Some(n),
{
    decimal_text_is_digits(n);
    assert(is_digit(decimal_text(n)[0]));
}

/// A number below 10^k takes at most k digits.
pub proof fn decimal_text_len(n: nat, k: nat)
    requires
        k > 0,
        n < vstd::arithmetic::power::pow(10, k),
    ensures
        decimal_text(n).len() <= k,
    decreases k,
{
    reveal(vstd::arithmetic::power::pow);
    if n >= 10 {
        assert(k > 1) by {
            if k == 1 {
                assert(vstd::arithmetic::power::pow(10, 0) == 1);
            }
        }
        decimal_text_len(n / 10, (k - 1) as nat);
    }
}

/// A 64-bit number takes at most 20 digits.
pub proof fn decimal_text_u64_len(n: nat)
    requires
        n <= u64::MAX,
    ensures
        decimal_text(n).len() <= 20,
{
    assert(vstd::arithmetic::power::pow(10, 20) == 100_000_000_000_000_000_000int) by {
        reveal_with_fuel(vstd::arithmetic::power::pow, 21);
    }
    decimal_text_len(n, 20);
}

/// A longer string of digits stands for a number at least as large.
proof fn digits_value_grows(digits: Seq<char>, n: int)
    requires
        0 <= n <= digits.len(),
    ensures
        digits_value(digits.take(n)) <= digits_value(digits),
    decreases digits.len() - n,
{
    if n < digits.len() {
        digits_value_grows(digits, n + 1);
        assert(digits.take(n + 1).drop_last() =~= digits.take(n));
    } else {
        assert(digits.take(n) =~= digits);
    }
}

/// The characters of `s`.
pub(crate) fn chars_of(s: &str) -> (chars: Vec<char>)
    ensures
        chars@ == s@,
{
    let mut chars: Vec<char> = Vec::new();
    for c in it: s.chars()
        invariant
            chars@ == it.seq().take(it.index()),
            it.seq() == s@,
    {
        chars.push(c);
    }
    chars
}

fn lower(c: char) -> (r: char)
    ensures
        r == ascii_lower(c),
{
    if 'A' <= c && c <= 'Z' {
        ((c as u8) + 32u8) as char
    } else {
        c
    }
}

/// Whether the two texts are equal up to the case of ASCII letters.
pub fn eq_ignore_case(a: &str, b: &str) -> (same: bool)
    ensures
        same == same_ignoring_case(a@, b@),
{
    let left: Vec<char> = chars_of(a);
    let right: Vec<char> = chars_of(b);
    if left.len() != right.len() {
        return false;
    }
    for i in 0..left.len()
        invariant
            left@ == a@,
            right@ == b@,
            left.len() == right.len(),
            forall|j: int| 0 <= j < i ==> ascii_lower(#[trigger] a@[j]) == ascii_lower(b@[j]),
    {
        if lower(left[i]) != lower(right[i]) {
            assert(ascii_lower(a@[i as int]) != ascii_lower(b@[i as int]));
            return false;
        }
    }
    true
}

/// Reads `s` as a decimal number of at most `max`.
pub fn parse_decimal(s: &str, max: u64) -> (r: Option<u64>)
    ensures
        match r {
            Some(n) => decimal_value(s@) == Some(n as nat) && n <= max,
            None => decimal_value(s@) matches Some(n) ==> n > max,
        },
{
    let chars: Vec<char> = chars_of(s);
    let start: usize = if chars.len() > 0 && chars[0] == '+' {
        1
    } else {
        0
    };
    if start == chars.len() {
        return None;
    }
    let ghost digits = without_plus(s@);
    assert(digits =~= s@.skip(start as int));
    let mut n: u64 = 0;
    for i in start..chars.len()
        invariant
            start <= chars.len(),
            chars@ == s@,
            digits == s@.skip(start as int),
            digits == without_plus(s@),
            forall|j: int| 0 <= j < i - start ==> is_digit(#[trigger] digits[j]),
            n == digits_value(digits.take(i - start)),
            n <= max,
    {
        let c: char = chars[i];
        assert(c == digits[i - start]);
        if c < '0' || c > '9' {
            return None;
        }
        let d: u64 = (c as u64) - ('0' as u64);
        proof {
            assert(digits.take(i - start + 1).drop_last() =~= digits.take(i - start));
            digits_value_grows(digits, i - start + 1);
        }
        if n > (u64::MAX - d) / 10 || n * 10 + d > max {
            return None;
        }
        n = n * 10 + d;
    }
    assert(digits.take(chars.len() - start) =~= digits);
    Some(n)
}

/// Calls `str::from_utf8`: the text that `bytes` encode, if they are UTF-8.
#[verifier::external_body]
pub(crate) fn utf8_text(bytes: &[u8]) -> (r: Option<&str>)
    ensures
        match r {
            Some(s) => valid_utf8(bytes@) && s@ == decode_utf8(bytes@),
            None => !valid_utf8(bytes@),
        },
{
    std::str::from_utf8(bytes).ok()
}

/// The bytes of an ASCII text are valid UTF-8 for that text.
proof fn ascii_bytes_decode(chars: Seq<char>, bytes: Seq<u8>)
    requires
        vstd::utf8::is_ascii_chars(chars),
        bytes.len() == chars.len(),
        forall|i: int| 0 <= i < chars.len() ==> bytes[i] == #[trigger] chars[i] as u8,
    ensures
        valid_utf8(bytes),
        decode_utf8(bytes) == chars,
        encode_utf8(chars) == bytes,
{
    vstd::utf8::is_ascii_chars_encode_utf8(chars);
    assert(encode_utf8(chars) =~= bytes);
    vstd::utf8::encode_utf8_valid_utf8(chars);
    vstd::utf8::encode_utf8_decode_utf8(chars);
}

/// The decimal notation of `n`.
pub fn decimal_string(n: u64) -> (s: String)
    ensures
        s@ == decimal_text(n as nat),
{
    let mut rest: u64 = n;
    let mut reversed: Vec<u8> = Vec::new();
    let ghost mut low: Seq<char> = Seq::empty();
    proof {
        assert(decimal_text(n as nat) =~= decimal_text(rest as nat) + low);
    }
    while rest >= 10
        invariant
            decimal_text(n as nat) == decimal_text(rest as nat) + low,
            low.len() == reversed.len(),
            forall|i: int|
                0 <= i < low.len() ==> #[trigger] low[i] as u8 == reversed[low.len() - 1 - i],
        decreases rest,
    {
        reversed.push(48u8 + (rest % 10) as u8);
        proof {
            let d = digit_char((rest % 10) as nat);
            assert(decimal_text((rest / 10) as nat).push(d) + low =~= decimal_text(
                (rest / 10) as nat,
            ) + (seq![d] + low));
            low = seq![d] + low;
        }
        rest = rest / 10;
    }
    reversed.push(48u8 + rest as u8);
    proof {
        let d = digit_char(rest as nat);
        low = seq![d] + low;
        assert(decimal_text(n as nat) =~= low);
    }
    let mut bytes: Vec<u8> = Vec::new();
    for i in 0..reversed.len()
        invariant
            bytes.len() == i,
            forall|j: int| 0 <= j < i ==> #[trigger] bytes[j] == reversed[reversed.len() - 1 - j],
    {
        bytes.push(reversed[reversed.len() - 1 - i]);
    }
    proof {
        decimal_text_is_digits(n as nat);
        assert forall|i: int| 0 <= i < low.len() implies bytes@[i] == #[trigger] low[i] as u8 by {
            assert(bytes[i] == reversed[reversed.len() - 1 - i]);
        }
        assert forall|i: int| 0 <= i < low.len() implies '\0' <= #[trigger] low[i] <= '\u{7f}' by {
            assert(is_digit(decimal_text(n as nat)[i]));
        }
        ascii_bytes_decode(low, bytes@);
    }
    match utf8_text(bytes.as_slice()) {
        Some(s) => s.to_owned(),
        None => String::new(),
    }
}

/// Two texts are the same but for case just when they have the same length
/// and differ nowhere but between an ASCII letter and the same letter in the
/// other case, whose codes are 32 apart.
pub proof fn only_letters_have_case(a: Seq<char>, b: Seq<char>)
    ensures
        same_ignoring_case(a, b) <==> a.len() == b.len() && forall|i: int|
            0 <= i < a.len() ==> (#[trigger] a[i] == b[i] || (65 <= a[i] as u32 && a[i] as u32 <= 90
                && b[i] as u32 == a[i] as u32 + 32) || (65 <= b[i] as u32 && b[i] as u32 <= 90
                && a[i] as u32 == b[i] as u32 + 32)),
{
    if a.len() == b.len() {
        assert forall|i: int| 0 <= i < a.len() implies (ascii_lower(#[trigger] a[i])
            == ascii_lower(b[i]) <==> (a[i] == b[i] || (65 <= a[i] as u32 && a[i] as u32 <= 90
            && b[i] as u32 == a[i] as u32 + 32) || (65 <= b[i] as u32 && b[i] as u32 <= 90
            && a[i] as u32 == b[i] as u32 + 32))) by {
            same_letter(a[i], b[i]);
        }
    }
}

proof fn same_letter(a: char, b: char)
    ensures
        ascii_lower(a) == ascii_lower(b) <==> (a == b || (65 <= a as u32 && a as u32 <= 90
            && b as u32 == a as u32 + 32) || (65 <= b as u32 && b as u32 <= 90 && a as u32
            == b as u32 + 32)),
{
}

/// What a decimal number is.  One digit stands for its place behind '0'; one
/// more digit multiplies by ten and adds; a plus sign before the digits
/// changes nothing; and anything but digits is no number.
pub proof fn decimal_numbers_are_read_by_digits(s: Seq<char>, c: char)
    ensures
        48 <= c as u32 && c as u32 <= 57 ==> decimal_value(seq![c]) == Some((c as u32 - 48) as nat),
        48 <= c as u32 && c as u32 <= 57 && decimal_value(s) is Some ==> decimal_value(s.push(c))
            == Some((10 * decimal_value(s)->0 + (c as u32 - 48)) as nat),
        !(48 <= c as u32 && c as u32 <= 57) && s.len() > 0 ==> decimal_value(s.push(c)) is None,
        !(48 <= c as u32 && c as u32 <= 57) ==> decimal_value(seq![c]) is None,
        decimal_value(Seq::empty()) is None,
        s.len() > 0 && s[0] != '+' ==> decimal_value(seq!['+'] + s) == decimal_value(s),
        decimal_value(s) is None && s.len() > 0 && s != seq!['+'] ==> decimal_value(
            s.push(c),
        ) is None,
{
    let one = seq![c];
    assert(one.drop_last() =~= Seq::<char>::empty());
    assert(digits_value(Seq::empty()) == 0);
    let more = s.push(c);
    let old_digits = without_plus(s);
    let new_digits = without_plus(more);
    if s.len() > 0 {
        assert(more[0] == s[0]);
        assert(new_digits =~= old_digits.push(c));
        assert(new_digits.drop_last() =~= old_digits);
        assert(new_digits[new_digits.len() - 1] == c);
        if all_digits(new_digits) {
            assert forall|i: int| 0 <= i < old_digits.len() implies is_digit(
                #[trigger] old_digits[i],
            ) by {
                assert(new_digits[i] == old_digits[i]);
            }
        }
        let signed = seq!['+'] + s;
        assert(signed.drop_first() =~= s);
        if old_digits.len() == 0 {
            assert(s =~= seq!['+']);
        }
    }
    assert(one.drop_first() =~= Seq::<char>::empty());
    assert(one[0] == c);
}

/// The decimal notation of a number is the shortest string of digits that
/// stands for it: no sign, and no leading zero but in "0" itself.
pub proof fn decimal_text_is_shortest(n: nat)
    ensures
        decimal_value(decimal_text(n)) == Some(n),
        decimal_text(n).len() > 0,
        forall|i: int|
            0 <= i < decimal_text(n).len() ==> 48 <= #[trigger] decimal_text(n)[i] as u32
                && decimal_text(n)[i] as u32 <= 57,
        n > 0 ==> decimal_text(n)[0] as u32 != 48,
        n == 0 ==> decimal_text(n).len() == 1,
    decreases n,
{
    decimal_text_round_trips(n);
    decimal_text_is_digits(n);
    if n >= 10 {
        decimal_text_is_shortest(n / 10);
        assert(decimal_text(n)[0] == decimal_text(n / 10)[0]);
    }
}

} // verus!
