//! Removing characters from the ends of a text.

use crate::text::{is_white_space, white_space};
use vstd::prelude::*;

verus! {

/// `s` without its leading white space.
pub open spec fn trim_start(s: Seq<char>) -> Seq<char>
    decreases s.len(),
{
    if s.len() > 0 && white_space(s[0]) {
        trim_start(s.drop_first())
    } else {
        s
    }
}

/// `s` without its trailing white space.
pub open spec fn trim_end(s: Seq<char>) -> Seq<char>
    decreases s.len(),
{
    if s.len() > 0 && white_space(s.last()) {
        trim_end(s.drop_last())
    } else {
        s
    }
}

/// `s` without leading and trailing white space.
pub open spec fn trim(s: Seq<char>) -> Seq<char> {
    trim_end(trim_start(s))
}

/// `s` without leading and trailing characters from `set`.
pub open spec fn strip_ends(s: Seq<char>, set: Seq<char>) -> Seq<char>
    decreases s.len(),
{
    if s.len() > 0 && set.contains(s[0]) {
        strip_ends(s.drop_first(), set)
    } else if s.len() > 0 && set.contains(s.last()) {
        strip_ends(s.drop_last(), set)
    } else {
        s
    }
}

/// Exec form of [`trim_start`]: the index of the first kept character.
pub fn trim_start_index(chars: &[char]) -> (n: usize)
    ensures
        n <= chars@.len(),
        trim_start(chars@) == chars@.skip(n as int),
{
    let mut n: usize = 0;
    proof {
        assert(chars@.skip(0) == chars@);
    }
    while n < chars.len() && is_white_space(chars[n])
        invariant
            n <= chars@.len(),
            trim_start(chars@) == trim_start(chars@.skip(n as int)),
        decreases chars@.len() - n,
    {
        proof {
            assert(chars@.skip(n as int).drop_first() == chars@.skip(n + 1));
        }
        n = n + 1;
    }
    n
}

/// Exec form of [`trim_end`] on `chars[from..]`: the index after the last kept character.
pub fn trim_end_index(chars: &[char], from: usize) -> (m: usize)
    requires
        from <= chars@.len(),
    ensures
        from <= m <= chars@.len(),
        trim_end(chars@.skip(from as int)) == chars@.subrange(from as int, m as int),
{
    let mut m: usize = chars.len();
    proof {
        assert(chars@.skip(from as int) == chars@.subrange(from as int, m as int));
    }
    while m > from && is_white_space(chars[m - 1])
        invariant
            from <= m <= chars@.len(),
            trim_end(chars@.skip(from as int)) == trim_end(chars@.subrange(from as int, m as int)),
        decreases m,
    {
        proof {
            assert(chars@.subrange(from as int, m as int).drop_last() == chars@.subrange(
                from as int,
                m - 1,
            ));
        }
        m = m - 1;
    }
    m
}

/// The characters of `chars` without leading and trailing white space.
pub fn trimmed(chars: &[char]) -> (r: Vec<char>)
    ensures
        r@ == trim(chars@),
{
    let n: usize = trim_start_index(chars);
    let m: usize = trim_end_index(chars, n);
    copy_range(chars, n, m)
}

/// The characters of `chars` without leading white space.
pub fn start_trimmed(chars: &[char]) -> (r: Vec<char>)
    ensures
        r@ == trim_start(chars@),
{
    let n: usize = trim_start_index(chars);
    proof {
        assert(chars@.skip(n as int) == chars@.subrange(n as int, chars@.len() as int));
    }
    copy_range(chars, n, chars.len())
}

/// The characters of `chars` from `from` up to `to`.
pub fn copy_range(chars: &[char], from: usize, to: usize) -> (r: Vec<char>)
    requires
        from <= to <= chars@.len(),
    ensures
        r@ == chars@.subrange(from as int, to as int),
{
    let mut r: Vec<char> = Vec::new();
    for i in from..to
        invariant
            from <= i <= to <= chars@.len(),
            r@ == chars@.subrange(from as int, i as int),
    {
        r.push(chars[i]);
    }
    r
}

/// Whether `set` holds `c`.
pub fn holds_char(set: &[char], c: char) -> (r: bool)
    ensures
        r == set@.contains(c),
{
    for i in 0..set.len()
        invariant
            forall|j: int| 0 <= j < i ==> set@[j] != c,
    {
        if set[i] == c {
            return true;
        }
    }
    false
}

/// The characters of `chars` without leading and trailing characters from `set`.
pub fn ends_stripped(chars: &[char], set: &[char]) -> (r: Vec<char>)
    ensures
        r@ == strip_ends(chars@, set@),
{
    let mut n: usize = 0;
    let mut m: usize = chars.len();
    proof {
        assert(chars@ == chars@.subrange(0, m as int));
    }
    while n < m && (holds_char(set, chars[n]) || holds_char(set, chars[m - 1]))
        invariant
            n <= m <= chars@.len(),
            strip_ends(chars@, set@) == strip_ends(chars@.subrange(n as int, m as int), set@),
        decreases m - n,
    {
        proof {
            let s = chars@.subrange(n as int, m as int);
            assert(s.drop_first() == chars@.subrange(n + 1, m as int));
            assert(s.drop_last() == chars@.subrange(n as int, m - 1));
        }
        if holds_char(set, chars[n]) {
            n = n + 1;
        } else {
            m = m - 1;
        }
    }
    copy_range(chars, n, m)
}

// ---------------------------------------------------------------------------
// Facts
// ---------------------------------------------------------------------------

/// Trimming white space at the end keeps a prefix that ends with no white space.
pub proof fn lemma_trim_end(s: Seq<char>)
    ensures
        trim_end(s).len() <= s.len(),
        trim_end(s) == s.take(trim_end(s).len() as int),
        trim_end(s).len() > 0 ==> !white_space(trim_end(s).last()),
        forall|i: int| trim_end(s).len() <= i < s.len() ==> white_space(s[i]),
    decreases s.len(),
{
    if s.len() > 0 && white_space(s.last()) {
        let t = s.drop_last();
        lemma_trim_end(t);
        assert forall|i: int| trim_end(s).len() <= i < s.len() implies white_space(s[i]) by {
            if i < t.len() {
                assert(s[i] == t[i]);
            }
        }
        assert(t.take(trim_end(t).len() as int) == s.take(trim_end(s).len() as int));
    } else {
        assert(s.take(s.len() as int) == s);
    }
}

/// Trimming cuts a middle piece out of a text: everything around it is white
/// space, and neither of its ends is.
pub proof fn law_trimming_drops_only_white_space(s: Seq<char>)
    ensures
        exists|from: int, to: int|
            0 <= from <= to <= s.len() && trim(s) == #[trigger] s.subrange(from, to) && (forall|i: int|
                0 <= i < from || to <= i < s.len() ==> white_space(#[trigger] s[i])),
        trim(s).len() > 0 ==> !white_space(trim(s)[0]) && !white_space(trim(s)[trim(s).len() - 1]),
        s.len() > 0 && !white_space(s[0]) && !white_space(s[s.len() - 1]) ==> trim(s) == s,
{
    lemma_trim_start(s);
    let t = trim_start(s);
    lemma_trim_end(t);
    let from = s.len() - t.len();
    let to = from + trim_end(t).len();
    assert(trim(s) =~= s.subrange(from, to));
    assert forall|i: int| 0 <= i < from || to <= i < s.len() implies white_space(
        #[trigger] s[i],
    ) by {
        if to <= i {
            assert(s[i] == t[i - from]);
        }
    }
}

/// Trimming white space at the start keeps a suffix that starts with no white space.
pub proof fn lemma_trim_start(s: Seq<char>)
    ensures
        trim_start(s).len() <= s.len(),
        trim_start(s) == s.skip(s.len() - trim_start(s).len()),
        trim_start(s).len() > 0 ==> !white_space(trim_start(s)[0]),
        forall|i: int| 0 <= i < s.len() - trim_start(s).len() ==> white_space(#[trigger] s[i]),
    decreases s.len(),
{
    if s.len() > 0 && white_space(s[0]) {
        let t = s.drop_first();
        lemma_trim_start(t);
        assert forall|i: int| 0 <= i < s.len() - trim_start(s).len() implies white_space(
            #[trigger] s[i],
        ) by {
            if i > 0 {
                assert(s[i] == t[i - 1]);
            }
        }
        assert(t.skip(t.len() - trim_start(t).len()) =~= s.skip(s.len() - trim_start(s).len()));
    } else {
        assert(s.skip(0) =~= s);
    }
}

/// Stripping cuts a middle piece out of a text: everything around it is in the
/// set, and neither of its ends is.
pub proof fn law_stripping_drops_only_the_set(s: Seq<char>, set: Seq<char>) -> (cut: (int, int))
    ensures
        0 <= cut.0 <= cut.1 <= s.len(),
        strip_ends(s, set) == s.subrange(cut.0, cut.1),
        forall|i: int| 0 <= i < cut.0 || cut.1 <= i < s.len() ==> set.contains(#[trigger] s[i]),
        cut.0 < cut.1 ==> !set.contains(s[cut.0]) && !set.contains(s[cut.1 - 1]),
    decreases s.len(),
{
    if s.len() > 0 && set.contains(s[0]) {
        let t = s.drop_first();
        let (from, to) = law_stripping_drops_only_the_set(t, set);
        assert(t.subrange(from, to) =~= s.subrange(from + 1, to + 1));
        assert forall|i: int| 0 <= i < from + 1 || to + 1 <= i < s.len() implies set.contains(
            #[trigger] s[i],
        ) by {
            if i > 0 {
                assert(s[i] == t[i - 1]);
            }
        }
        (from + 1, to + 1)
    } else if s.len() > 0 && set.contains(s.last()) {
        let t = s.drop_last();
        let (from, to) = law_stripping_drops_only_the_set(t, set);
        assert(t.subrange(from, to) =~= s.subrange(from, to));
        assert forall|i: int| 0 <= i < from || to <= i < s.len() implies set.contains(
            #[trigger] s[i],
        ) by {
            if i < t.len() {
                assert(s[i] == t[i]);
            }
        }
        (from, to)
    } else {
        assert(s.subrange(0, s.len() as int) =~= s);
        (0, s.len() as int)
    }
}

} // verus!
