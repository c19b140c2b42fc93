//! Splitting, joining and searching.

use crate::text::trim::copy_range;
use crate::text::{chars_of, is_white_space, string_of, white_space};
use vstd::prelude::*;

verus! {

/// The characters of each string.
pub open spec fn views(parts: Seq<String>) -> Seq<Seq<char>> {
    parts.map_values(|part: String| part@)
}

/// Index of the first occurrence of `c` at or after `from`, or the length.
pub open spec fn first_at(s: Seq<char>, c: char, from: int) -> int
    decreases s.len() - from,
{
    if from >= s.len() {
        s.len() as int
    } else if s[from] == c {
        from
    } else {
        first_at(s, c, from + 1)
    }
}

/// Index of the last occurrence of `c` before `to`, or -1.
pub open spec fn last_before(s: Seq<char>, c: char, to: int) -> int
    decreases to,
{
    if to <= 0 {
        -1
    } else if s[to - 1] == c {
        to - 1
    } else {
        last_before(s, c, to - 1)
    }
}

/// What bounds [`first_at`] and what it finds.
pub proof fn lemma_first_at(s: Seq<char>, c: char, from: int)
    requires
        0 <= from <= s.len(),
    ensures
        from <= first_at(s, c, from) <= s.len(),
        first_at(s, c, from) < s.len() ==> s[first_at(s, c, from)] == c,
        forall|i: int| from <= i < first_at(s, c, from) ==> s[i] != c,
    decreases s.len() - from,
{
    if from < s.len() && s[from] != c {
        lemma_first_at(s, c, from + 1);
    }
}

/// What bounds [`last_before`] and what it finds.
pub proof fn lemma_last_before(s: Seq<char>, c: char, to: int)
    requires
        0 <= to <= s.len(),
    ensures
        -1 <= last_before(s, c, to) < to || (to == 0 && last_before(s, c, to) == -1),
        last_before(s, c, to) >= 0 ==> s[last_before(s, c, to)] == c,
        forall|i: int| last_before(s, c, to) < i < to ==> s[i] != c,
    decreases to,
{
    if to > 0 && s[to - 1] != c {
        lemma_last_before(s, c, to - 1);
    }
}

/// Exec form of [`first_at`].
pub fn first_index(chars: &[char], c: char, from: usize) -> (r: usize)
    requires
        from <= chars@.len(),
    ensures
        r == first_at(chars@, c, from as int),
        from <= r <= chars@.len(),
{
    let mut i: usize = from;
    while i < chars.len() && chars[i] != c
        invariant
            from <= i <= chars@.len(),
            first_at(chars@, c, from as int) == first_at(chars@, c, i as int),
        decreases chars@.len() - i,
    {
        i = i + 1;
    }
    i
}

/// Exec form of [`last_before`] on the whole text.
pub fn last_index(chars: &[char], c: char) -> (r: Option<usize>)
    ensures
        match r {
            Some(i) => i == last_before(chars@, c, chars@.len() as int) && i < chars@.len(),
            None => last_before(chars@, c, chars@.len() as int) == -1,
        },
{
    let mut i: usize = chars.len();
    while i > 0
        invariant
            i <= chars@.len(),
            last_before(chars@, c, chars@.len() as int) == last_before(chars@, c, i as int),
        decreases i,
    {
        if chars[i - 1] == c {
            return Some(i - 1);
        }
        i = i - 1;
    }
    None
}

/// The pieces of `s` between occurrences of `c`. There is always at least one.
pub open spec fn split_on(s: Seq<char>, c: char) -> Seq<Seq<char>>
    decreases s.len(),
{
    let i = first_at(s, c, 0);
    if 0 <= i < s.len() {
        seq![s.take(i)] + split_on(s.skip(i + 1), c)
    } else {
        seq![s]
    }
}

/// Exec form of [`split_on`].
pub fn split_chars(chars: &[char], c: char) -> (parts: Vec<Vec<char>>)
    ensures
        parts@.map_values(|p: Vec<char>| p@) == split_on(chars@, c),
        parts@.len() >= 1,
{
    let mut parts: Vec<Vec<char>> = Vec::new();
    let mut from: usize = 0;
    let ghost view = |p: Vec<char>| p@;
    proof {
        assert(chars@.skip(0) == chars@);
        assert(parts@.map_values(view) + split_on(chars@, c) == split_on(chars@, c));
    }
    loop
        invariant
            from <= chars@.len(),
            view == (|p: Vec<char>| p@),
            parts@.map_values(view) + split_on(chars@.skip(from as int), c) == split_on(chars@, c),
        decreases chars@.len() - from,
    {
        let i: usize = first_index(chars, c, from);
        let ghost rest = chars@.skip(from as int);
        proof {
            lemma_first_at_shift(chars@, c, from as int, from as int);
            assert(first_at(rest, c, 0) == i - from);
            assert(chars@.subrange(from as int, i as int) == rest.take(i - from));
        }
        let part: Vec<char> = copy_range(chars, from, i);
        let ghost before = parts@.map_values(view);
        parts.push(part);
        proof {
            assert(parts@.map_values(view) == before.push(part@));
        }
        if i >= chars.len() {
            proof {
                assert(rest.take(i - from) == rest);
                assert(before + seq![rest] == before.push(rest));
            }
            return parts;
        }
        proof {
            assert(rest.skip(i - from + 1) == chars@.skip(i + 1));
            let tail = split_on(chars@.skip(i + 1), c);
            assert(split_on(rest, c) == seq![part@] + tail);
            assert(before + (seq![part@] + tail) == before.push(part@) + tail);
        }
        from = i + 1;
    }
}

/// Searching in a suffix finds the same place, counted from the suffix's start.
pub proof fn lemma_first_at_shift(s: Seq<char>, c: char, skipped: int, from: int)
    requires
        0 <= skipped <= from <= s.len(),
    ensures
        first_at(s.skip(skipped), c, from - skipped) == first_at(s, c, from) - skipped,
    decreases s.len() - from,
{
    if from < s.len() && s[from] != c {
        lemma_first_at_shift(s, c, skipped, from + 1);
    }
}

/// Number of leading characters that are no white space.
pub open spec fn word_len(s: Seq<char>) -> nat
    decreases s.len(),
{
    if s.len() > 0 && !white_space(s[0]) {
        1 + word_len(s.drop_first())
    } else {
        0
    }
}

/// A word is no longer than the text and holds no white space.
pub proof fn lemma_word_len(s: Seq<char>)
    ensures
        word_len(s) <= s.len(),
        forall|i: int| 0 <= i < word_len(s) ==> !white_space(s[i]),
        word_len(s) < s.len() ==> white_space(s[word_len(s) as int]),
    decreases s.len(),
{
    if s.len() > 0 && !white_space(s[0]) {
        let t = s.drop_first();
        lemma_word_len(t);
        assert forall|i: int| 0 <= i < word_len(s) implies !white_space(s[i]) by {
            if i > 0 {
                assert(s[i] == t[i - 1]);
            }
        }
    }
}

/// The maximal runs of non-white-space characters, in order.
pub open spec fn words(s: Seq<char>) -> Seq<Seq<char>>
    decreases s.len(),
{
    if s.len() == 0 {
        seq![]
    } else if white_space(s[0]) {
        words(s.drop_first())
    } else {
        let n = word_len(s) as int;
        if n <= s.len() {
            seq![s.take(n)] + words(s.skip(n))
        } else {
            seq![]
        }
    }
}

/// Exec form of [`words`].
pub fn split_words(chars: &[char]) -> (parts: Vec<Vec<char>>)
    ensures
        parts@.map_values(|p: Vec<char>| p@) == words(chars@),
{
    let mut parts: Vec<Vec<char>> = Vec::new();
    let mut from: usize = 0;
    let ghost view = |p: Vec<char>| p@;
    proof {
        assert(chars@.skip(0) == chars@);
        assert(parts@.map_values(view) + words(chars@) == words(chars@));
    }
    while from < chars.len()
        invariant
            from <= chars@.len(),
            view == (|p: Vec<char>| p@),
            parts@.map_values(view) + words(chars@.skip(from as int)) == words(chars@),
        decreases chars@.len() - from,
    {
        let ghost rest = chars@.skip(from as int);
        if is_white_space(chars[from]) {
            proof {
                assert(rest.drop_first() == chars@.skip(from + 1));
            }
            from = from + 1;
        } else {
            let mut to: usize = from;
            while to < chars.len() && !is_white_space(chars[to])
                invariant
                    from <= to <= chars@.len(),
                    rest == chars@.skip(from as int),
                    word_len(rest) == (to - from) + word_len(chars@.skip(to as int)),
                decreases chars@.len() - to,
            {
                proof {
                    assert(chars@.skip(to as int).drop_first() == chars@.skip(to + 1));
                }
                to = to + 1;
            }
            let ghost n = to - from;
            proof {
                assert(word_len(rest) == n);
                lemma_word_len(rest);
                if n == 0 {
                    assert(rest[0] == chars@[from as int]);
                }
                assert(chars@.subrange(from as int, to as int) == rest.take(n));
                assert(rest.skip(n) == chars@.skip(to as int));
            }
            let part: Vec<char> = copy_range(chars, from, to);
            let ghost before = parts@.map_values(view);
            parts.push(part);
            proof {
                assert(parts@.map_values(view) == before.push(part@));
                let tail = words(chars@.skip(to as int));
                assert(words(rest) == seq![part@] + tail);
                assert(before + (seq![part@] + tail) == before.push(part@) + tail);
            }
            from = to;
        }
    }
    proof {
        assert(parts@.map_values(view) + words(chars@.skip(from as int)) == parts@.map_values(view));
    }
    parts
}

/// The parts in order, with `sep` between neighbours.
pub open spec fn join(parts: Seq<Seq<char>>, sep: Seq<char>) -> Seq<char>
    decreases parts.len(),
{
    if parts.len() == 0 {
        seq![]
    } else if parts.len() == 1 {
        parts[0]
    } else {
        join(parts.drop_last(), sep) + sep + parts.last()
    }
}

/// Exec form of [`join`].
pub fn join_strings(parts: &[String], sep: &str) -> (text: String)
    ensures
        text@ == join(views(parts@), sep@),
{
    let mut text: String = String::new();
    for i in 0..parts.len()
        invariant
            text@ == join(views(parts@).take(i as int), sep@),
    {
        proof {
            assert(views(parts@).take(i + 1).drop_last() == views(parts@).take(i as int));
        }
        if i > 0 {
            text.append(sep);
        }
        text.append(parts[i].as_str());
        proof {
            if i == 0 {
                assert(text@ == parts@[0]@);
            }
        }
    }
    proof {
        assert(views(parts@).take(parts@.len() as int) == views(parts@));
    }
    text
}

/// Whether `pat` stands in `s` at index `i`.
pub open spec fn occurs_at(s: Seq<char>, pat: Seq<char>, i: int) -> bool {
    0 <= i && i + pat.len() <= s.len() && s.subrange(i, i + pat.len()) == pat
}

/// Whether `pat` stands somewhere in `s`.
pub open spec fn contains_text(s: Seq<char>, pat: Seq<char>) -> bool {
    exists|i: int| occurs_at(s, pat, i)
}

/// Whether `s` starts with `pat`.
pub open spec fn starts_with(s: Seq<char>, pat: Seq<char>) -> bool {
    occurs_at(s, pat, 0)
}

/// Exec form of [`occurs_at`].
pub fn matches_at(chars: &[char], pat: &[char], i: usize) -> (r: bool)
    requires
        i <= chars@.len(),
    ensures
        r == occurs_at(chars@, pat@, i as int),
{
    let total: usize = chars.len();
    if total - i < pat.len() {
        return false;
    }
    for j in 0..pat.len()
        invariant
            i + pat@.len() <= total == chars@.len(),
            forall|k: int| 0 <= k < j ==> chars@[i + k] == pat@[k],
    {
        if chars[i + j] != pat[j] {
            proof {
                assert(chars@.subrange(i as int, i + pat@.len())[j as int] != pat@[j as int]);
            }
            return false;
        }
    }
    proof {
        assert(chars@.subrange(i as int, i + pat@.len()) == pat@);
    }
    true
}

/// The first place where `pat` stands in `chars`.
pub fn find_text(chars: &[char], pat: &[char]) -> (r: Option<usize>)
    ensures
        match r {
            Some(i) => occurs_at(chars@, pat@, i as int) && forall|j: int|
                j < i ==> !occurs_at(chars@, pat@, j),
            None => !contains_text(chars@, pat@),
        },
{
    let mut i: usize = 0;
    while i < chars.len()
        invariant
            i <= chars@.len(),
            forall|j: int| j < i ==> !occurs_at(chars@, pat@, j),
        decreases chars@.len() - i,
    {
        if matches_at(chars, pat, i) {
            return Some(i);
        }
        i = i + 1;
    }
    if matches_at(chars, pat, i) {
        Some(i)
    } else {
        None
    }
}

/// Whether `text` contains `pat`.
pub fn text_contains(text: &str, pat: &str) -> (r: bool)
    ensures
        r == contains_text(text@, pat@),
{
    let chars = chars_of(text);
    let pattern = chars_of(pat);
    find_text(chars.as_slice(), pattern.as_slice()).is_some()
}

/// Whether `text` starts with `pat`.
pub fn text_starts_with(text: &str, pat: &str) -> (r: bool)
    ensures
        r == starts_with(text@, pat@),
{
    let chars = chars_of(text);
    let pattern = chars_of(pat);
    matches_at(chars.as_slice(), pattern.as_slice(), 0)
}

/// What follows `pat` where `text` starts with it.
pub fn after_prefix(text: &str, pat: &str) -> (r: Option<String>)
    ensures
        match r {
            Some(rest) => starts_with(text@, pat@) && rest@ == text@.skip(pat@.len() as int),
            None => !starts_with(text@, pat@),
        },
{
    let chars = chars_of(text);
    let pattern = chars_of(pat);
    if matches_at(chars.as_slice(), pattern.as_slice(), 0) {
        let rest: Vec<char> = copy_range(chars.as_slice(), pattern.len(), chars.len());
        proof {
            assert(rest@ == text@.skip(pat@.len() as int));
        }
        Some(string_of(rest.as_slice()))
    } else {
        None
    }
}

// ---------------------------------------------------------------------------
// Laws
// ---------------------------------------------------------------------------

/// Where a part starts in a joined text: behind the parts before it and a
/// separator after each of them.
pub open spec fn part_start(parts: Seq<Seq<char>>, sep_len: nat, i: int) -> int
    decreases i,
{
    if i <= 0 {
        0
    } else {
        part_start(parts, sep_len, i - 1) + parts[i - 1].len() + sep_len
    }
}

proof fn lemma_part_start(parts: Seq<Seq<char>>, sep_len: nat, i: int)
    requires
        0 <= i < parts.len(),
    ensures
        part_start(parts.drop_last(), sep_len, i) == part_start(parts, sep_len, i),
        part_start(parts, sep_len, i) >= 0,
        i > 0 ==> part_start(parts, sep_len, i) >= sep_len,
    decreases i,
{
    if i > 0 {
        lemma_part_start(parts, sep_len, i - 1);
        assert(parts.drop_last()[i - 1] == parts[i - 1]);
    }
}

/// A joined text holds every part, whole and in order, with one separator
/// between neighbours, and nothing else.
pub proof fn law_join_holds_every_part(parts: Seq<Seq<char>>, sep: Seq<char>)
    ensures
        parts.len() == 0 ==> join(parts, sep).len() == 0,
        parts.len() > 0 ==> join(parts, sep).len() + sep.len() == part_start(
            parts,
            sep.len(),
            parts.len() as int,
        ),
        forall|i: int|
            0 <= i < parts.len() ==> {
                let at = #[trigger] part_start(parts, sep.len(), i);
                &&& 0 <= at
                &&& at + parts[i].len() <= join(parts, sep).len()
                &&& join(parts, sep).subrange(at, at + parts[i].len()) == parts[i]
                &&& i > 0 ==> sep.len() <= at && join(parts, sep).subrange(at - sep.len(), at)
                    == sep
            },
    decreases parts.len(),
{
    if parts.len() > 0 {
        let front = parts.drop_last();
        let last = parts.len() - 1;
        let n = sep.len();
        let text = join(parts, sep);
        law_join_holds_every_part(front, sep);
        lemma_part_start(parts, n, last);
        assert forall|i: int| 0 <= i < parts.len() implies {
            let at = #[trigger] part_start(parts, n, i);
            &&& 0 <= at
            &&& at + parts[i].len() <= text.len()
            &&& text.subrange(at, at + parts[i].len()) == parts[i]
            &&& i > 0 ==> n <= at && text.subrange(at - n, at) == sep
        } by {
            let at = part_start(parts, n, i);
            lemma_part_start(parts, n, i);
            if i < last {
                let head = join(front, sep);
                assert(part_start(front, n, i) == at);
                assert(front[i] == parts[i]);
                assert(text.subrange(at, at + parts[i].len()) =~= head.subrange(
                    at,
                    at + parts[i].len(),
                ));
                if i > 0 {
                    assert(text.subrange(at - n, at) =~= head.subrange(at - n, at));
                }
            } else {
                assert(text.subrange(at, at + parts[i].len()) =~= parts[i]);
                if i > 0 {
                    assert(text.subrange(at - n, at) =~= sep);
                }
            }
        }
    }
}

/// Splitting undoes joining: the pieces hold no separator, and with one between
/// neighbours they are the text again.
pub proof fn law_split_pieces_make_up_the_text(s: Seq<char>, c: char)
    ensures
        split_on(s, c).len() > 0,
        join(split_on(s, c), seq![c]) == s,
        forall|i: int| 0 <= i < split_on(s, c).len() ==> !(#[trigger] split_on(s, c)[i]).contains(c),
    decreases s.len(),
{
    let at = first_at(s, c, 0);
    lemma_first_at(s, c, 0);
    let all = split_on(s, c);
    if at < s.len() {
        let head = s.take(at);
        let rest = split_on(s.skip(at + 1), c);
        law_split_pieces_make_up_the_text(s.skip(at + 1), c);
        lemma_join_first(head, rest, seq![c]);
        assert(head + seq![c] + s.skip(at + 1) =~= s);
        assert forall|i: int| 0 <= i < all.len() implies !(#[trigger] all[i]).contains(c) by {
            if i > 0 {
                assert(all[i] == rest[i - 1]);
            }
        }
    } else {
        assert(all =~= seq![s]);
    }
}

/// A first part goes before what the rest is joined to.
proof fn lemma_join_first(head: Seq<char>, rest: Seq<Seq<char>>, sep: Seq<char>)
    requires
        rest.len() > 0,
    ensures
        join(seq![head] + rest, sep) == head + sep + join(rest, sep),
    decreases rest.len(),
{
    let all = seq![head] + rest;
    assert(all.last() == rest.last());
    if rest.len() == 1 {
        assert(all.drop_last() =~= seq![head]);
        assert(join(all.drop_last(), sep) == head);
    } else {
        lemma_join_first(head, rest.drop_last(), sep);
        assert(all.drop_last() =~= seq![head] + rest.drop_last());
        assert(join(all, sep) =~= head + sep + join(rest, sep));
    }
}

/// The parts one after the other.
pub open spec fn run_together(parts: Seq<Seq<char>>) -> Seq<char>
    decreases parts.len(),
{
    if parts.len() == 0 {
        seq![]
    } else {
        parts[0] + run_together(parts.drop_first())
    }
}

/// The words of a text hold each of its characters that is no white space, in
/// order, and none that is; no word is empty.
pub proof fn law_words_lose_nothing(s: Seq<char>)
    ensures
        run_together(words(s)) == s.filter(|c: char| !white_space(c)),
        forall|i: int| 0 <= i < words(s).len() ==> (#[trigger] words(s)[i]).len() > 0,
        forall|i: int, k: int|
            0 <= i < words(s).len() && 0 <= k < words(s)[i].len() ==> !white_space(
                #[trigger] words(s)[i][k],
            ),
    decreases s.len(),
{
    let visible = |c: char| !white_space(c);
    if s.len() == 0 {
        reveal(Seq::filter);
    } else if white_space(s[0]) {
        let t = s.drop_first();
        law_words_lose_nothing(t);
        lemma_filter_split(seq![s[0]], t, visible);
        assert(seq![s[0]] + t =~= s);
        reveal_with_fuel(Seq::filter, 2);
        assert(seq![s[0]].drop_last() =~= Seq::<char>::empty());
        assert(!visible(seq![s[0]].last()));
        assert(seq![s[0]].filter(visible) =~= Seq::<char>::empty());
        assert(s.filter(visible) =~= t.filter(visible));
    } else {
        lemma_word_len(s);
        let n = word_len(s) as int;
        let head = s.take(n);
        let t = s.skip(n);
        law_words_lose_nothing(t);
        let all = words(s);
        assert(all == seq![head] + words(t));
        assert(all.drop_first() =~= words(t));
        lemma_filter_split(head, t, visible);
        assert(head + t =~= s);
        lemma_filter_all(head, visible);
        assert forall|i: int| 0 <= i < all.len() implies (#[trigger] all[i]).len() > 0 by {
            if i > 0 {
                assert(all[i] == words(t)[i - 1]);
            }
        }
        assert forall|i: int, k: int| 0 <= i < all.len() && 0 <= k < all[i].len() implies !white_space(
            #[trigger] all[i][k],
        ) by {
            if i > 0 {
                assert(all[i] == words(t)[i - 1]);
                assert(all[i][k] == words(t)[i - 1][k]);
            } else {
                assert(all[i][k] == s[k]);
            }
        }
    }
}

proof fn lemma_filter_split(a: Seq<char>, b: Seq<char>, keep: spec_fn(char) -> bool)
    ensures
        (a + b).filter(keep) == a.filter(keep) + b.filter(keep),
    decreases b.len(),
{
    reveal(Seq::filter);
    if b.len() == 0 {
        assert(a + b =~= a);
        assert(b.filter(keep) =~= Seq::<char>::empty());
        assert(a.filter(keep) + b.filter(keep) =~= a.filter(keep));
    } else {
        assert((a + b).drop_last() =~= a + b.drop_last());
        lemma_filter_split(a, b.drop_last(), keep);
        assert((a + b).last() == b.last());
        assert((a + b).filter(keep) =~= a.filter(keep) + b.filter(keep));
    }
}

proof fn lemma_filter_all(s: Seq<char>, keep: spec_fn(char) -> bool)
    requires
        forall|i: int| 0 <= i < s.len() ==> keep(#[trigger] s[i]),
    ensures
        s.filter(keep) == s,
    decreases s.len(),
{
    reveal(Seq::filter);
    if s.len() > 0 {
        let t = s.drop_last();
        assert forall|i: int| 0 <= i < t.len() implies keep(#[trigger] t[i]) by {
            assert(t[i] == s[i]);
        }
        lemma_filter_all(t, keep);
        assert(keep(s[s.len() - 1]));
        assert(t.push(s.last()) =~= s);
    }
}

/// Whether a text is on one line already: words with one space between
/// neighbours, and none at the ends.
pub open spec fn plain_line(s: Seq<char>) -> bool {
    &&& s.len() > 0 ==> !white_space(s[0]) && !white_space(s[s.len() - 1])
    &&& forall|i: int|
        0 <= i < s.len() && white_space(#[trigger] s[i]) ==> s[i] == ' ' && !white_space(s[i + 1])
}

/// The words of a plain line with one space between neighbours are the line
/// again.
pub proof fn law_plain_lines_stay_as_they_are(s: Seq<char>)
    requires
        plain_line(s),
    ensures
        join(words(s), seq![' ']) == s,
    decreases s.len(),
{
    if s.len() > 0 {
        lemma_word_len(s);
        let n = word_len(s) as int;
        let head = s.take(n);
        let rest = s.skip(n);
        if n == s.len() {
            assert(head =~= s);
            assert(words(rest) =~= Seq::<Seq<char>>::empty());
            assert(words(s) =~= seq![s]);
        } else {
            assert(white_space(s[n]));
            assert(n + 1 < s.len());
            let t = s.skip(n + 1);
            assert(rest.drop_first() =~= t);
            assert(rest[0] == s[n]);
            assert(words(rest) == words(t));
            assert(plain_line(t)) by {
                assert(t[0] == s[n + 1]);
                assert(t[t.len() - 1] == s[s.len() - 1]);
                assert forall|i: int| 0 <= i < t.len() && white_space(#[trigger] t[i]) implies t[i]
                    == ' ' && !white_space(t[i + 1]) by {
                    assert(t[i] == s[n + 1 + i]);
                    if i == t.len() - 1 {
                        assert(t[i] == s[s.len() - 1]);
                    }
                    assert(t[i + 1] == s[n + 1 + i + 1]);
                }
            }
            law_plain_lines_stay_as_they_are(t);
            assert(words(t).len() > 0);
            lemma_join_first(head, words(t), seq![' ']);
            assert(s =~= head + seq![' '] + t);
        }
    }
}

/// Joining words by spaces adds nothing that can be seen, and loses nothing.
pub proof fn law_joined_words_show_the_same(parts: Seq<Seq<char>>)
    requires
        forall|i: int, k: int|
            0 <= i < parts.len() && 0 <= k < parts[i].len() ==> !white_space(
                #[trigger] parts[i][k],
            ),
    ensures
        join(parts, seq![' ']).filter(|c: char| !white_space(c)) == run_together(parts),
    decreases parts.len(),
{
    let visible = |c: char| !white_space(c);
    if parts.len() == 0 {
        reveal(Seq::filter);
    } else {
        let rest = parts.drop_first();
        assert forall|i: int, k: int| 0 <= i < rest.len() && 0 <= k < rest[i].len() implies !white_space(
            #[trigger] rest[i][k],
        ) by {
            assert(rest[i][k] == parts[i + 1][k]);
        }
        law_joined_words_show_the_same(rest);
        assert forall|k: int| 0 <= k < parts[0].len() implies visible(#[trigger] parts[0][k]) by {}
        lemma_filter_all(parts[0], visible);
        if rest.len() == 0 {
            assert(join(parts, seq![' ']) == parts[0]);
            assert(run_together(parts) =~= parts[0]);
        } else {
            assert(parts =~= seq![parts[0]] + rest);
            lemma_join_first(parts[0], rest, seq![' ']);
            let tail = join(rest, seq![' ']);
            lemma_filter_split(parts[0] + seq![' '], tail, visible);
            lemma_filter_split(parts[0], seq![' '], visible);
            reveal_with_fuel(Seq::filter, 2);
            assert(seq![' '].drop_last() =~= Seq::<char>::empty());
            assert(!visible(seq![' '].last()));
            assert(seq![' '].filter(visible) =~= Seq::<char>::empty());
            assert(join(parts, seq![' ']).filter(visible) =~= run_together(parts));
        }
    }
}

/// Splitting goes piece by piece: what stands before a separator and what stands
/// behind it are split each for itself.
pub proof fn law_splitting_adds_up(a: Seq<char>, b: Seq<char>, c: char)
    ensures
        split_on(a.push(c) + b, c) == split_on(a, c) + split_on(b, c),
    decreases a.len(),
{
    let s = a.push(c) + b;
    let n = first_at(a, c, 0);
    lemma_first_at(a, c, 0);
    lemma_first_at(s, c, 0);
    let m = first_at(s, c, 0);
    if m < n {
        assert(s[m] == a[m]);
    }
    if n < m {
        assert(s[n] == c);
    }
    assert(n == m);
    assert(s.take(n) =~= a.take(n));
    if n < a.len() {
        law_splitting_adds_up(a.skip(n + 1), b, c);
        assert(s.skip(n + 1) =~= a.skip(n + 1).push(c) + b);
        assert(split_on(s, c) =~= split_on(a, c) + split_on(b, c));
    } else {
        assert(a.take(n) =~= a);
        assert(s.skip(n + 1) =~= b);
    }
}

/// A text stands at a place where each of its characters does.
pub proof fn law_every_character_has_to_match(s: Seq<char>, pat: Seq<char>, i: int)
    ensures
        occurs_at(s, pat, i) <==> 0 <= i && i + pat.len() <= s.len() && forall|k: int|
            0 <= k < pat.len() ==> #[trigger] s[i + k] == pat[k],
        occurs_at(s, pat, i) ==> contains_text(s, pat),
        starts_with(s, pat) <==> pat.len() <= s.len() && s.take(pat.len() as int) == pat,
{
    if 0 <= i && i + pat.len() <= s.len() {
        let piece = s.subrange(i, i + pat.len());
        if occurs_at(s, pat, i) {
            assert forall|k: int| 0 <= k < pat.len() implies #[trigger] s[i + k] == pat[k] by {
                assert(piece[k] == s[i + k]);
            }
        }
        if forall|k: int| 0 <= k < pat.len() ==> #[trigger] s[i + k] == pat[k] {
            assert forall|k: int| 0 <= k < pat.len() implies piece[k] == pat[k] by {
                assert(s[i + k] == pat[k]);
            }
            assert(piece =~= pat);
        }
    }
    if pat.len() <= s.len() {
        assert(s.subrange(0, pat.len() as int) =~= s.take(pat.len() as int));
    }
}

/// A text holds whatever is put in the middle of it, and nothing that is longer
/// than it is.
pub proof fn law_a_text_holds_its_middle(before: Seq<char>, middle: Seq<char>, behind: Seq<char>)
    ensures
        contains_text(before + middle + behind, middle),
        middle.len() > before.len() ==> !contains_text(before, middle),
{
    let s = before + middle + behind;
    let i = before.len() as int;
    assert(s.subrange(i, i + middle.len()) =~= middle);
    assert(occurs_at(s, middle, i));
}

} // verus!
