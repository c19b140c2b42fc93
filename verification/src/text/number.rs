//! Numbers written in text.

use crate::text::{chars_of, code_point, string_of};
use vstd::prelude::*;

verus! {

/// The decimal digit of `d`, where `0 <= d < 10`.
pub open spec fn digit(d: int) -> char {
    ('0' as int + d) as char
}

/// `n` in decimal, without leading zeros.
pub open spec fn decimal(n: nat) -> Seq<char>
    decreases n,
{
    if n < 10 {
        seq![digit(n as int)]
    } else {
        decimal(n / 10).push(digit((n % 10) as int))
    }
}

/// `n` in decimal, with a minus sign where it is negative.
pub open spec fn decimal_int(n: int) -> Seq<char> {
    if n < 0 {
        seq!['-'] + decimal((-n) as nat)
    } else {
        decimal(n as nat)
    }
}

/// Exec form of [`decimal`], as characters.
fn decimal_chars(n: u128) -> (chars: Vec<char>)
    ensures
        chars@ == decimal(n as nat),
    decreases n,
{
    let d: u8 = (n % 10) as u8;
    let c: char = (48u8 + d) as char;
    if n < 10 {
        let mut chars: Vec<char> = Vec::new();
        chars.push(c);
        proof {
            assert(chars@ == seq![digit(n as int)]);
        }
        chars
    } else {
        let mut chars: Vec<char> = decimal_chars(n / 10);
        chars.push(c);
        chars
    }
}

/// `n` in decimal.
pub fn decimal_u64(n: u64) -> (text: String)
    ensures
        text@ == decimal(n as nat),
{
    let chars = decimal_chars(n as u128);
    string_of(chars.as_slice())
}

/// `n` in decimal.
pub fn decimal_u128(n: u128) -> (text: String)
    ensures
        text@ == decimal(n as nat),
{
    let chars = decimal_chars(n);
    string_of(chars.as_slice())
}

/// `n` in decimal.
pub fn decimal_usize(n: usize) -> (text: String)
    ensures
        text@ == decimal(n as nat),
{
    decimal_u64(n as u64)
}

/// `n` in decimal, with a minus sign where it is negative.
pub fn decimal_i64(n: i64) -> (text: String)
    ensures
        text@ == decimal_int(n as int),
{
    if n < 0 {
        let magnitude: u64 = (-(n + 1)) as u64 + 1;
        let mut text: String = String::new();
        text.push('-');
        let digits = decimal_u64(magnitude);
        text.append(digits.as_str());
        proof {
            assert(text@ == seq!['-'] + decimal((-n) as nat));
        }
        text
    } else {
        decimal_u64(n as u64)
    }
}

/// Whether `c` is one of the ten ASCII digits.
pub open spec fn is_digit(c: char) -> bool {
    '0' <= c <= '9'
}

/// Whether every character is an ASCII digit.
pub open spec fn all_digits(s: Seq<char>) -> bool {
    forall|i: int| 0 <= i < s.len() ==> is_digit(#[trigger] s[i])
}

/// The number that a run of digits denotes.
pub open spec fn digits_value(s: Seq<char>) -> int
    decreases s.len(),
{
    if s.len() == 0 {
        0
    } else {
        10 * digits_value(s.drop_last()) + (s.last() as int - '0' as int)
    }
}

/// The digits of a number after its sign: a leading `+` always counts as a
/// sign, a leading `-` only where `signed`.
pub open spec fn after_sign(s: Seq<char>, signed: bool) -> Seq<char> {
    if s.len() > 0 && (s[0] == '+' || (signed && s[0] == '-')) {
        s.drop_first()
    } else {
        s
    }
}

/// Whether a number is written with a minus sign.
pub open spec fn has_minus(s: Seq<char>, signed: bool) -> bool {
    s.len() > 0 && signed && s[0] == '-'
}

/// The integer that `s` denotes, where it denotes one between `lo` and `hi`:
/// an optional sign, then at least one digit and nothing else.
pub open spec fn parsed_int(s: Seq<char>, signed: bool, lo: int, hi: int) -> Option<int> {
    let digits = after_sign(s, signed);
    if digits.len() == 0 || !all_digits(digits) {
        None
    } else {
        let v = if has_minus(s, signed) {
            -digits_value(digits)
        } else {
            digits_value(digits)
        };
        if lo <= v <= hi {
            Some(v)
        } else {
            None
        }
    }
}

/// A longer run of digits denotes no smaller number.
proof fn lemma_digits_value_monotone(s: Seq<char>, n: int)
    requires
        0 <= n <= s.len(),
        all_digits(s),
    ensures
        0 <= digits_value(s.take(n)) <= digits_value(s),
    decreases s.len() + (s.len() - n),
{
    if n < s.len() {
        let t = s.drop_last();
        assert(all_digits(t)) by {
            assert forall|i: int| 0 <= i < t.len() implies is_digit(#[trigger] t[i]) by {
                assert(t[i] == s[i]);
            }
        }
        lemma_digits_value_monotone(t, n);
        lemma_digits_value_monotone(t, t.len() as int);
        assert(t.take(n) == s.take(n));
        assert(t.take(t.len() as int) == t);
        assert(is_digit(s[s.len() - 1]));
    } else {
        assert(s.take(n) == s);
        if n > 0 {
            let t = s.drop_last();
            assert(all_digits(t)) by {
                assert forall|i: int| 0 <= i < t.len() implies is_digit(#[trigger] t[i]) by {
                    assert(t[i] == s[i]);
                }
            }
            lemma_digits_value_monotone(t, t.len() as int);
            assert(t.take(t.len() as int) == t);
            assert(is_digit(s[s.len() - 1]));
        }
    }
}

/// The number that `chars[from..]` denotes, where it is one or more digits and at most `hi`.
fn parse_digits(chars: &[char], from: usize, hi: u64) -> (r: Option<u64>)
    requires
        from <= chars@.len(),
    ensures
        ({
            let digits = chars@.skip(from as int);
            match r {
                Some(v) => digits.len() > 0 && all_digits(digits) && v == digits_value(digits) && v
                    <= hi,
                None => digits.len() == 0 || !all_digits(digits) || digits_value(digits) > hi,
            }
        }),
{
    let ghost digits = chars@.skip(from as int);
    if from == chars.len() {
        return None;
    }
    let mut acc: u64 = 0;
    let mut i: usize = from;
    while i < chars.len()
        invariant
            from <= i <= chars@.len(),
            digits == chars@.skip(from as int),
            digits.len() > 0,
            acc <= hi,
            acc == digits_value(digits.take(i - from)),
            forall|k: int| 0 <= k < i - from ==> is_digit(#[trigger] digits[k]),
        decreases chars@.len() - i,
    {
        let u: u32 = code_point(chars[i]);
        proof {
            assert(digits[i - from] == chars@[i as int]);
            assert(digits.take(i - from + 1).drop_last() == digits.take(i - from));
        }
        if u < 48 || u > 57 {
            proof {
                assert(!is_digit(digits[i - from]));
            }
            return None;
        }
        let d: u64 = (u - 48) as u64;
        if acc > hi / 10 || d > hi || acc * 10 > hi - d {
            proof {
                if all_digits(digits) {
                    lemma_digits_value_monotone(digits, i - from + 1);
                }
            }
            return None;
        }
        acc = acc * 10 + d;
        i = i + 1;
    }
    proof {
        assert(digits.take(digits.len() as int) == digits);
    }
    Some(acc)
}

/// `text` as an `i64`, as `str::parse` reads it.
pub fn parse_i64(text: &str) -> (r: Option<i64>)
    ensures
        match r {
            Some(v) => parsed_int(text@, true, i64::MIN as int, i64::MAX as int) == Some(v as int),
            None => parsed_int(text@, true, i64::MIN as int, i64::MAX as int) is None,
        },
{
    let chars = chars_of(text);
    proof {
        assert(chars@.skip(0) == chars@);
        if chars@.len() > 0 {
            assert(chars@.skip(1) == chars@.drop_first());
        }
    }
    if chars.len() > 0 && chars[0] == '-' {
        match parse_digits(chars.as_slice(), 1, 9223372036854775808) {
            Some(v) => {
                if v == 9223372036854775808 {
                    Some(i64::MIN)
                } else {
                    Some(-(v as i64))
                }
            },
            None => None,
        }
    } else if chars.len() > 0 && chars[0] == '+' {
        match parse_digits(chars.as_slice(), 1, 9223372036854775807) {
            Some(v) => Some(v as i64),
            None => None,
        }
    } else {
        match parse_digits(chars.as_slice(), 0, 9223372036854775807) {
            Some(v) => Some(v as i64),
            None => None,
        }
    }
}

/// The lower-case hexadecimal digit of `d`, where `0 <= d < 16`.
pub open spec fn hex_digit(d: int) -> char {
    if d < 10 {
        ('0' as int + d) as char
    } else {
        ('a' as int + d - 10) as char
    }
}

/// Two hexadecimal digits per byte, high digit first.
pub open spec fn hex(bytes: Seq<u8>) -> Seq<char>
    decreases bytes.len(),
{
    if bytes.len() == 0 {
        seq![]
    } else {
        hex(bytes.drop_last()).push(hex_digit(bytes.last() as int / 16)).push(
            hex_digit(bytes.last() as int % 16),
        )
    }
}

/// Exec form of [`hex_digit`].
fn hex_digit_of(d: u8) -> (c: char)
    requires
        d < 16,
    ensures
        c == hex_digit(d as int),
{
    if d < 10 {
        (48u8 + d) as char
    } else {
        (87u8 + d) as char
    }
}

/// `bytes` in lower-case hexadecimal.
pub fn hex_lower(bytes: &[u8]) -> (text: String)
    ensures
        text@ == hex(bytes@),
{
    let mut text: String = String::new();
    for i in 0..bytes.len()
        invariant
            text@ == hex(bytes@.take(i as int)),
    {
        let b: u8 = bytes[i];
        proof {
            assert(bytes@.take(i + 1).drop_last() == bytes@.take(i as int));
        }
        text.push(hex_digit_of(b / 16));
        text.push(hex_digit_of(b % 16));
    }
    proof {
        assert(bytes@.take(bytes@.len() as int) == bytes@);
    }
    text
}

/// The hexadecimal form has two characters per byte.
pub proof fn lemma_hex_len(bytes: Seq<u8>)
    ensures
        hex(bytes).len() == 2 * bytes.len(),
    decreases bytes.len(),
{
    if bytes.len() > 0 {
        lemma_hex_len(bytes.drop_last());
    }
}

/// The upper-case hexadecimal digit of `d`, where `0 <= d < 16`.
pub open spec fn upper_hex_digit(d: int) -> char {
    if d < 10 {
        ('0' as int + d) as char
    } else {
        ('A' as int + d - 10) as char
    }
}

/// `n` in upper-case hexadecimal, with leading zeros up to `width` digits.
pub open spec fn upper_hex(n: nat, width: nat) -> Seq<char>
    decreases n + width,
{
    if n < 16 && width <= 1 {
        seq![upper_hex_digit(n as int)]
    } else {
        let rest = if width > 0 {
            (width - 1) as nat
        } else {
            0
        };
        upper_hex(n / 16, rest).push(upper_hex_digit((n % 16) as int))
    }
}

/// Exec form of [`upper_hex`].
pub fn upper_hex_u32(n: u32, width: u32) -> (text: String)
    ensures
        text@ == upper_hex(n as nat, width as nat),
    decreases n + width,
{
    let d: u8 = (n % 16) as u8;
    let c: char = if d < 10 {
        (48u8 + d) as char
    } else {
        (55u8 + d) as char
    };
    if n < 16 && width <= 1 {
        let mut text: String = String::new();
        text.push(c);
        proof {
            assert(text@ == seq![upper_hex_digit(n as int)]);
        }
        text
    } else {
        let rest: u32 = if width > 0 {
            width - 1
        } else {
            0
        };
        let mut text: String = upper_hex_u32(n / 16, rest);
        text.push(c);
        text
    }
}

// ---------------------------------------------------------------------------
// Laws
// ---------------------------------------------------------------------------

proof fn lemma_decimal(n: nat)
    ensures
        decimal(n).len() > 0,
        all_digits(decimal(n)),
        digits_value(decimal(n)) == n,
        n > 0 ==> decimal(n)[0] != '0',
        decimal(n)[decimal(n).len() - 1] as int == 48 + n % 10,
    decreases n,
{
    reveal_with_fuel(digits_value, 2);
    if n < 10 {
        assert(decimal(n).drop_last() =~= Seq::<char>::empty());
    } else {
        lemma_decimal(n / 10);
        assert(decimal(n).drop_last() =~= decimal(n / 10));
    }
}

/// A number reads back as what was written: in digits, without a zero before
/// them, and with a minus sign where it is negative.
pub proof fn law_written_numbers_read_back(n: int, lo: int, hi: int)
    requires
        lo <= n <= hi,
    ensures
        parsed_int(decimal_int(n), true, lo, hi) == Some(n),
        n >= 0 ==> parsed_int(decimal(n as nat), true, lo, hi) == Some(n),
        n >= 0 ==> decimal(n as nat).len() > 0,
        n >= 0 ==> forall|i: int|
            0 <= i < decimal(n as nat).len() ==> 48 <= (#[trigger] decimal(n as nat)[i]) as int
                <= 57,
        n > 0 ==> decimal(n as nat)[0] as int != 48,
        n >= 0 ==> decimal(n as nat)[decimal(n as nat).len() - 1] as int == 48 + n % 10,
        0 <= n < 10 ==> decimal(n as nat).len() == 1,
{
    let m = (if n < 0 {
        -n
    } else {
        n
    }) as nat;
    lemma_decimal(m);
    assert(is_digit(decimal(m)[0]));
    if n < 0 {
        assert(decimal_int(n).drop_first() =~= decimal(m));
    } else {
        assert forall|i: int| 0 <= i < decimal(n as nat).len() implies 48 <= (
        #[trigger] decimal(n as nat)[i]) as int <= 57 by {
            assert(is_digit(decimal(m)[i]));
        }
    }
}

/// Only digits, behind a sign or none, are a number; each digit counts tenfold
/// what the next does.
pub proof fn law_only_digits_are_a_number(s: Seq<char>, c: char, signed: bool, lo: int, hi: int)
    ensures
        parsed_int(s, signed, lo, hi) matches Some(v) ==> s.len() > 0 && lo <= v <= hi && (forall|
            i: int,
        |
            0 < i < s.len() ==> 48 <= (#[trigger] s[i]) as int <= 57) && (48 <= s[0] as int <= 57
            || (s.len() > 1 && (s[0] == '+' || (signed && s[0] == '-')))),
        digits_value(s.push(c)) == 10 * digits_value(s) + (c as int - 48),
        digits_value(seq![]) == 0,
{
    assert(s.push(c).drop_last() =~= s);
    if parsed_int(s, signed, lo, hi) is Some {
        let d = after_sign(s, signed);
        assert(is_digit(d[0]));
        assert forall|i: int| 0 < i < s.len() implies 48 <= (#[trigger] s[i]) as int <= 57 by {
            if d.len() == s.len() {
                assert(is_digit(d[i]));
            } else {
                assert(s[i] == d[i - 1]);
                assert(is_digit(d[i - 1]));
            }
        }
    }
}

/// What a hexadecimal digit of either case stands for.
pub open spec fn nibble(c: char) -> int {
    if c as int >= 97 {
        c as int - 87
    } else if c as int >= 65 {
        c as int - 55
    } else {
        c as int - 48
    }
}

/// Two digits stand for each byte, in order.
pub proof fn law_hex_reads_back(bytes: Seq<u8>, i: int)
    requires
        0 <= i < bytes.len(),
    ensures
        hex(bytes).len() == 2 * bytes.len(),
        16 * nibble(hex(bytes)[2 * i]) + nibble(hex(bytes)[2 * i + 1]) == bytes[i],
        0 <= nibble(hex(bytes)[2 * i]) < 16,
        0 <= nibble(hex(bytes)[2 * i + 1]) < 16,
        !(0x41 <= hex(bytes)[2 * i] as int <= 0x5a),
        !(0x41 <= hex(bytes)[2 * i + 1] as int <= 0x5a),
    decreases bytes.len(),
{
    lemma_hex_len(bytes);
    let rest = bytes.drop_last();
    lemma_hex_len(rest);
    if i < rest.len() {
        law_hex_reads_back(rest, i);
        assert(rest[i] == bytes[i]);
        assert(hex(bytes)[2 * i] == hex(rest)[2 * i]);
        assert(hex(bytes)[2 * i + 1] == hex(rest)[2 * i + 1]);
    } else {
        let b = bytes.last() as int;
        assert(16 * (b / 16) + b % 16 == b);
        assert(hex(bytes)[2 * i] == hex_digit(b / 16));
        assert(hex(bytes)[2 * i + 1] == hex_digit(b % 16));
    }
}

/// What a run of hexadecimal digits stands for.
pub open spec fn nibbles_value(s: Seq<char>) -> int
    decreases s.len(),
{
    if s.len() == 0 {
        0
    } else {
        16 * nibbles_value(s.drop_last()) + nibble(s.last())
    }
}

/// A number in hexadecimal stands for itself and is as wide as asked for, at
/// least.
pub proof fn law_upper_hex_reads_back(n: nat, width: nat)
    ensures
        nibbles_value(upper_hex(n, width)) == n,
        upper_hex(n, width).len() >= width,
        upper_hex(n, width).len() >= 1,
    decreases n + width,
{
    reveal_with_fuel(nibbles_value, 2);
    if n < 16 && width <= 1 {
        assert(upper_hex(n, width).drop_last() =~= Seq::<char>::empty());
    } else {
        let rest = if width > 0 {
            (width - 1) as nat
        } else {
            0
        };
        law_upper_hex_reads_back(n / 16, rest);
        assert(upper_hex(n, width).drop_last() =~= upper_hex(n / 16, rest));
    }
}

} // verus!
