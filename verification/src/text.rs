//! Text primitives on sequences of characters.
//!
//! A `&str` or `String` is modelled by its view, the sequence of its Unicode
//! scalar values. The functions here move between strings and vectors of
//! characters and compute what the rest of the library needs on them.

use vstd::prelude::*;

pub mod number;
pub mod order;
pub mod path;
pub mod split;
pub mod trim;

verus! {

/// `String::push` appends the one given character.
pub assume_specification[ String::push ](text: &mut String, c: char)
    ensures
        final(text)@ == old(text)@.push(c),
;

/// The characters of `text`, in order.
pub fn chars_of(text: &str) -> (chars: Vec<char>)
    ensures
        chars@ == text@,
{
    let mut chars: Vec<char> = Vec::new();
    for c in iter: text.chars()
        invariant
            iter.seq() == text@,
            chars@ == text@.take(iter.index() as int),
    {
        chars.push(c);
    }
    chars
}

/// The string made of `chars`, in order.
pub fn string_of(chars: &[char]) -> (text: String)
    ensures
        text@ == chars@,
{
    let mut text: String = String::new();
    for i in 0..chars.len()
        invariant
            text@ == chars@.take(i as int),
    {
        text.push(chars[i]);
    }
    assert(chars@.take(chars@.len() as int) == chars@);
    text
}

/// An owned copy of `text`.
pub fn owned(text: &str) -> (copy: String)
    ensures
        copy@ == text@,
{
    text.to_owned()
}

/// Whether two texts hold the same characters.
pub fn same(a: &str, b: &str) -> (r: bool)
    ensures
        r == (a@ == b@),
{
    a.to_owned() == b.to_owned()
}

/// The code point of `c`.
pub fn code_point(c: char) -> (u: u32)
    ensures
        u == c as int,
        u <= 0x10ffff,
{
    c as u32
}

// ---------------------------------------------------------------------------
// Character classes
// ---------------------------------------------------------------------------

/// The Unicode `White_Space` property.
pub open spec fn white_space(c: char) -> bool {
    let u = c as int;
    ||| 0x09 <= u <= 0x0d
    ||| u == 0x20
    ||| u == 0x85
    ||| u == 0xa0
    ||| u == 0x1680
    ||| 0x2000 <= u <= 0x200a
    ||| u == 0x2028
    ||| u == 0x2029
    ||| u == 0x202f
    ||| u == 0x205f
    ||| u == 0x3000
}

/// The Unicode general category `Cc`.
pub open spec fn control(c: char) -> bool {
    let u = c as int;
    u <= 0x1f || 0x7f <= u <= 0x9f
}

/// Whether `c` has the `White_Space` property.
pub fn is_white_space(c: char) -> (r: bool)
    ensures
        r == white_space(c),
{
    let u: u32 = c as u32;
    (0x09 <= u && u <= 0x0d) || u == 0x20 || u == 0x85 || u == 0xa0 || u == 0x1680 || (0x2000 <= u
        && u <= 0x200a) || u == 0x2028 || u == 0x2029 || u == 0x202f || u == 0x205f || u == 0x3000
}

/// Whether `c` is a control character.
pub fn is_control(c: char) -> (r: bool)
    ensures
        r == control(c),
{
    let u: u32 = c as u32;
    u <= 0x1f || (0x7f <= u && u <= 0x9f)
}

/// `c` with an ASCII capital letter replaced by its small letter.
pub open spec fn ascii_lower(c: char) -> char {
    if 'A' <= c <= 'Z' {
        (c as u32 + 32) as char
    } else {
        c
    }
}

/// Exec form of [`ascii_lower`].
pub fn to_ascii_lower(c: char) -> (r: char)
    ensures
        r == ascii_lower(c),
{
    let u: u32 = c as u32;
    if 65 <= u && u <= 90 {
        let lowered: u8 = (u + 32) as u8;
        lowered as char
    } else {
        c
    }
}

/// Every character of `s`, lowered in the ASCII range.
pub open spec fn ascii_lower_seq(s: Seq<char>) -> Seq<char> {
    s.map_values(|c: char| ascii_lower(c))
}

/// `text` with ASCII capitals lowered.
pub fn ascii_lowercase(text: &str) -> (lowered: String)
    ensures
        lowered@ == ascii_lower_seq(text@),
{
    let chars = chars_of(text);
    let mut lowered: String = String::new();
    for i in 0..chars.len()
        invariant
            chars@ == text@,
            lowered@ == ascii_lower_seq(text@).take(i as int),
    {
        lowered.push(to_ascii_lower(chars[i]));
    }
    lowered
}

/// Number of bytes in the UTF-8 encoding of `c`.
pub open spec fn utf8_width(c: char) -> nat {
    let u = c as int;
    if u < 0x80 {
        1
    } else if u < 0x800 {
        2
    } else if u < 0x10000 {
        3
    } else {
        4
    }
}

/// Exec form of [`utf8_width`].
pub fn utf8_width_of(c: char) -> (n: usize)
    ensures
        n == utf8_width(c),
{
    let u: u32 = c as u32;
    if u < 0x80 {
        1
    } else if u < 0x800 {
        2
    } else if u < 0x10000 {
        3
    } else {
        4
    }
}

/// Number of bytes in the UTF-8 encoding of `s`.
pub open spec fn utf8_len(s: Seq<char>) -> nat
    decreases s.len(),
{
    if s.len() == 0 {
        0
    } else {
        utf8_len(s.drop_last()) + utf8_width(s.last())
    }
}

/// Whether the UTF-8 encoding of `chars` takes at most `limit` bytes.
pub fn utf8_fits(chars: &[char], limit: usize) -> (r: bool)
    ensures
        r == (utf8_len(chars@) <= limit),
{
    let mut room: usize = limit;
    for i in 0..chars.len()
        invariant
            room + utf8_len(chars@.take(i as int)) == limit,
    {
        let width: usize = utf8_width_of(chars[i]);
        proof {
            assert(chars@.take(i + 1).drop_last() == chars@.take(i as int));
        }
        if width > room {
            proof {
                lemma_utf8_len_monotone(chars@, i + 1);
            }
            return false;
        }
        room = room - width;
    }
    proof {
        assert(chars@.take(chars@.len() as int) == chars@);
    }
    true
}

/// A prefix encodes to no more bytes than the whole.
pub proof fn lemma_utf8_len_monotone(s: Seq<char>, n: int)
    requires
        0 <= n <= s.len(),
    ensures
        utf8_len(s.take(n)) <= utf8_len(s),
    decreases s.len() - n,
{
    if n < s.len() {
        assert(s.take(n + 1).drop_last() == s.take(n));
        lemma_utf8_len_monotone(s, n + 1);
    } else {
        assert(s.take(n) == s);
    }
}

// ---------------------------------------------------------------------------
// Laws
// ---------------------------------------------------------------------------

/// Of the ASCII characters the space and the five controls from the tab to the
/// carriage return are white space, and no other is; no letter of Hangul is, and
/// the wide space is.
pub proof fn law_letters_are_no_white_space(c: char)
    ensures
        c as int <= 0x7f ==> (white_space(c) <==> c == ' ' || c == '\t' || c == '\n' || c == '\r'
            || c as int == 0x0b || c as int == 0x0c),
        0xac00 <= c as int <= 0xd7a3 ==> !white_space(c),
        0x1100 <= c as int <= 0x11ff || 0x3131 <= c as int <= 0x318e ==> !white_space(c),
        c as int == 0x3000 || c as int == 0xa0 ==> white_space(c),
        c as int > 0x3000 ==> !white_space(c),
        white_space(c) && c as int > 0x20 ==> c as int >= 0x85,
{
}

/// Control characters are those below the space, the delete character and the
/// thirty-two behind it: no printable ASCII character is one.
pub proof fn law_printable_is_no_control(c: char)
    ensures
        0x20 <= c as int <= 0x7e ==> !control(c),
        (c as int) < 0x20 ==> control(c),
        c as int >= 0xa0 ==> !control(c),
        0x7f <= c as int && (c as int) < 0xa0 ==> control(c),
{
}

/// Lowering gives a capital of ASCII its small letter and leaves everything else
/// alone, so that doing it twice is doing it once.
pub proof fn law_lowering_changes_only_capitals(s: Seq<char>)
    ensures
        ascii_lower_seq(s).len() == s.len(),
        forall|i: int|
            0 <= i < s.len() ==> {
                let c = #[trigger] s[i];
                let l = ascii_lower_seq(s)[i];
                if 0x41 <= c as int <= 0x5a {
                    l as int == c as int + 0x20
                } else {
                    l == c
                }
            },
        ascii_lower_seq(ascii_lower_seq(s)) == ascii_lower_seq(s),
{
    assert(ascii_lower_seq(ascii_lower_seq(s)) =~= ascii_lower_seq(s));
}

/// The bytes of a text are those of its parts one after the other, and as many
/// as its encoding has.
pub proof fn law_utf8_length_adds_up(a: Seq<char>, b: Seq<char>)
    ensures
        utf8_len(a + b) == utf8_len(a) + utf8_len(b),
    decreases b.len(),
{
    if b.len() == 0 {
        assert(a + b =~= a);
    } else {
        assert((a + b).drop_last() =~= a + b.drop_last());
        law_utf8_length_adds_up(a, b.drop_last());
    }
}

proof fn lemma_utf8_width(c: char)
    ensures
        vstd::utf8::encode_scalar(c as u32).len() == utf8_width(c),
{
    vstd::utf8::char_is_scalar(c);
}

/// The length in bytes is that of the encoding.
pub proof fn law_utf8_length_is_that_of_the_encoding(s: Seq<char>)
    ensures
        utf8_len(s) == vstd::utf8::encode_utf8(s).len(),
    decreases s.len(),
{
    if s.len() > 0 {
        let one = seq![s[0]];
        law_utf8_length_adds_up(one, s.drop_first());
        assert(one + s.drop_first() =~= s);
        law_utf8_length_is_that_of_the_encoding(s.drop_first());
        assert(one.drop_last() =~= Seq::<char>::empty());
        assert(utf8_len(one) == utf8_len(Seq::<char>::empty()) + utf8_width(s[0]));
        lemma_utf8_width(s[0]);
    }
}

} // verus!
