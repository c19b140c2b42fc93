//! Safe file names for attachments.
//!
//! The name of an attachment is chosen by whoever sent it. What is kept of it
//! cannot leave the output directory, hide its own extension or run past the
//! length that a file system takes.

use crate::text::split::{last_before, last_index, lemma_last_before};
use crate::text::trim::{copy_range, lemma_trim_end, trim_end, trim_end_index};
use crate::text::{
    chars_of, code_point, control, is_control, is_white_space, owned,
    string_of, utf8_fits, utf8_len, utf8_width, utf8_width_of, white_space,
};
use unicode_normalization::UnicodeNormalization;
use vstd::prelude::*;

verus! {

/// Bytes that are kept of the part before the extension.
pub const MAX_STEM_BYTES: usize = 120;

/// Bytes that an extension may have.
pub const MAX_EXT_BYTES: usize = 16;

/// `text` in Unicode normalization form C.
pub uninterp spec fn nfc(text: Seq<char>) -> Seq<char>;

/// `unicode_normalization::UnicodeNormalization::nfc`, collected: the normal form of the text alone.
#[verifier::external_body]
fn nfc_of(text: &str) -> (normal: String)
    ensures
        normal@ == nfc(text@),
{
    text.nfc().collect()
}

/// Characters that are invisible, or that reorder what follows them: the soft
/// hyphen, the Mongolian vowel separator, zero-width spaces and joiners, the
/// directional marks, embeddings, overrides and isolates, the word joiner and
/// the invisible operators, and the byte order mark.
pub open spec fn invisible_or_reordering(c: char) -> bool {
    let u = c as int;
    ||| u == 0x00ad
    ||| u == 0x180e
    ||| 0x200b <= u <= 0x200f
    ||| 0x202a <= u <= 0x202e
    ||| 0x2060 <= u <= 0x2064
    ||| 0x2066 <= u <= 0x2069
    ||| u == 0xfeff
}

/// Exec form of [`invisible_or_reordering`].
pub fn is_invisible_or_reordering(c: char) -> (r: bool)
    ensures
        r == invisible_or_reordering(c),
{
    let u: u32 = code_point(c);
    u == 0x00ad || u == 0x180e || (0x200b <= u && u <= 0x200f) || (0x202a <= u && u <= 0x202e) || (
    0x2060 <= u && u <= 0x2064) || (0x2066 <= u && u <= 0x2069) || u == 0xfeff
}

/// What a visible character becomes: `_` for a separator or a control
/// character, a plain space for any white space, else itself.
pub open spec fn replaced(c: char) -> char {
    if c == '/' || c == '\\' || c == ':' || control(c) {
        '_'
    } else if white_space(c) {
        ' '
    } else {
        c
    }
}

/// The visible characters of `s`, each replaced.
pub open spec fn cleaned(s: Seq<char>) -> Seq<char>
    decreases s.len(),
{
    if s.len() == 0 {
        seq![]
    } else {
        let front = cleaned(s.drop_last());
        if invisible_or_reordering(s.last()) {
            front
        } else {
            front.push(replaced(s.last()))
        }
    }
}

/// `s` without the dots and the white space that lead it.
pub open spec fn unled(s: Seq<char>) -> Seq<char>
    decreases s.len(),
{
    if s.len() > 0 && (s[0] == '.' || white_space(s[0])) {
        unled(s.drop_first())
    } else {
        s
    }
}

/// The cleaned name without leading dots and without white space at its ends.
pub open spec fn undotted(normal: Seq<char>) -> Seq<char> {
    trim_end(unled(cleaned(normal)))
}

/// Where the extension of `s` starts: after the last dot, where that leaves a
/// stem and an extension of at most 16 bytes.
pub open spec fn extension_at(s: Seq<char>) -> Option<int> {
    let dot = last_before(s, '.', s.len() as int);
    if dot > 0 && dot + 1 < s.len() && utf8_len(s.skip(dot + 1)) <= MAX_EXT_BYTES {
        Some(dot)
    } else {
        None
    }
}

/// Number of leading characters of `s` that fit into `limit` bytes.
pub open spec fn fitting(s: Seq<char>, limit: int) -> nat
    decreases s.len(),
{
    if s.len() > 0 && utf8_width(s[0]) <= limit {
        1 + fitting(s.drop_first(), limit - utf8_width(s[0]))
    } else {
        0
    }
}

/// The characters of `s` but those that are invisible or reorder others.
pub open spec fn visible(s: Seq<char>) -> Seq<char>
    decreases s.len(),
{
    if s.len() == 0 {
        seq![]
    } else if invisible_or_reordering(s.last()) {
        visible(s.drop_last())
    } else {
        visible(s.drop_last()).push(s.last())
    }
}

/// The file name that is kept of an attachment name. What is invisible goes
/// before the name is normalized: it cannot keep apart what belongs together.
pub open spec fn sanitized(name: Seq<char>) -> Seq<char> {
    sanitized_normal(nfc(visible(name)))
}

/// The file name that is kept of an attachment name in normal form.
pub open spec fn sanitized_normal(normal: Seq<char>) -> Seq<char> {
    let s = undotted(normal);
    if s.len() == 0 {
        "attachment"@
    } else {
        match extension_at(s) {
            Some(dot) => s.take(dot).take(fitting(s.take(dot), MAX_STEM_BYTES as int) as int) + "."@
                + s.skip(dot + 1),
            None => s.take(fitting(s, MAX_STEM_BYTES as int) as int),
        }
    }
}

/// Exec form of [`cleaned`].
fn clean(chars: &[char]) -> (r: Vec<char>)
    ensures
        r@ == cleaned(chars@),
{
    let mut r: Vec<char> = Vec::new();
    for i in 0..chars.len()
        invariant
            r@ == cleaned(chars@.take(i as int)),
    {
        let c: char = chars[i];
        proof {
            assert(chars@.take(i + 1).drop_last() == chars@.take(i as int));
        }
        if !is_invisible_or_reordering(c) {
            if c == '/' || c == '\\' || c == ':' || is_control(c) {
                r.push('_');
            } else if is_white_space(c) {
                r.push(' ');
            } else {
                r.push(c);
            }
        }
    }
    proof {
        assert(chars@.take(chars@.len() as int) == chars@);
    }
    r
}

/// Exec form of [`visible`].
fn visible_of(chars: &[char]) -> (r: Vec<char>)
    ensures
        r@ == visible(chars@),
{
    let mut r: Vec<char> = Vec::new();
    for i in 0..chars.len()
        invariant
            r@ == visible(chars@.take(i as int)),
    {
        proof {
            assert(chars@.take(i + 1).drop_last() == chars@.take(i as int));
        }
        if !is_invisible_or_reordering(chars[i]) {
            r.push(chars[i]);
        }
    }
    proof {
        assert(chars@.take(chars@.len() as int) == chars@);
    }
    r
}

/// Exec form of [`undotted`] on a cleaned name.
fn undot(chars: &[char]) -> (r: Vec<char>)
    ensures
        r@ == trim_end(unled(chars@)),
{
    let mut n: usize = 0;
    proof {
        assert(chars@.skip(0) == chars@);
    }
    while n < chars.len() && (chars[n] == '.' || is_white_space(chars[n]))
        invariant
            n <= chars@.len(),
            unled(chars@) == unled(chars@.skip(n as int)),
        decreases chars@.len() - n,
    {
        proof {
            assert(chars@.skip(n as int).drop_first() == chars@.skip(n + 1));
        }
        n = n + 1;
    }
    let m: usize = trim_end_index(chars, n);
    copy_range(chars, n, m)
}

/// The leading characters of `chars[..to]` that fit into `limit` bytes.
fn fit(chars: &[char], to: usize, limit: usize) -> (r: Vec<char>)
    requires
        to <= chars@.len(),
    ensures
        r@ == chars@.take(to as int).take(fitting(chars@.take(to as int), limit as int) as int),
{
    let ghost s = chars@.take(to as int);
    let mut room: usize = limit;
    let mut n: usize = 0;
    proof {
        assert(s.skip(0) == s);
    }
    while n < to && utf8_width_of(chars[n]) <= room
        invariant
            n <= to <= chars@.len(),
            s == chars@.take(to as int),
            fitting(s, limit as int) == n + fitting(s.skip(n as int), room as int),
        decreases to - n,
    {
        proof {
            assert(s.skip(n as int)[0] == chars@[n as int]);
            assert(s.skip(n as int).drop_first() == s.skip(n + 1));
        }
        room = room - utf8_width_of(chars[n]);
        n = n + 1;
    }
    proof {
        if n < to {
            assert(s.skip(n as int)[0] == chars@[n as int]);
        }
        assert(fitting(s, limit as int) == n);
        assert(s.take(n as int) == chars@.subrange(0, n as int));
    }
    copy_range(chars, 0, n)
}

/// Reduces an attachment name to a safe file name.
pub fn sanitize_filename(name: &str) -> (file_name: String)
    ensures
        file_name@ == sanitized(name@),
{
    let chars = chars_of(name);
    let shown = visible_of(chars.as_slice());
    let text = string_of(shown.as_slice());
    let normal = nfc_of(text.as_str());
    sanitize_normalized(normal.as_str())
}

/// Reduces an attachment name that is in normal form to a safe file name.
pub fn sanitize_normalized(normal: &str) -> (file_name: String)
    ensures
        file_name@ == sanitized_normal(normal@),
{
    let chars = chars_of(normal);
    let clean_chars = clean(chars.as_slice());
    let kept = undot(clean_chars.as_slice());
    sanitize_kept(kept.as_slice())
}

/// The safe file name of a cleaned name without leading dots.
fn sanitize_kept(kept: &[char]) -> (file_name: String)
    ensures
        file_name@ == if kept@.len() == 0 {
            "attachment"@
        } else {
            match extension_at(kept@) {
                Some(dot) => kept@.take(dot).take(
                    fitting(kept@.take(dot), MAX_STEM_BYTES as int) as int,
                ) + "."@ + kept@.skip(dot + 1),
                None => kept@.take(fitting(kept@, MAX_STEM_BYTES as int) as int),
            }
        },
{
    if kept.len() == 0 {
        return owned("attachment");
    }
    match last_index(kept, '.') {
        Some(dot) => {
            if dot > 0 && dot + 1 < kept.len() {
                let ext = copy_range(kept, dot + 1, kept.len());
                proof {
                    assert(ext@ == kept@.skip(dot + 1));
                }
                if utf8_fits(ext.as_slice(), MAX_EXT_BYTES) {
                    let stem = fit(kept, dot, MAX_STEM_BYTES);
                    let mut file_name = string_of(stem.as_slice());
                    file_name.append(".");
                    let ext_text = string_of(ext.as_slice());
                    file_name.append(ext_text.as_str());
                    return file_name;
                }
            }
        },
        None => {},
    }
    let stem = fit(kept, kept.len(), MAX_STEM_BYTES);
    proof {
        assert(kept@.take(kept@.len() as int) == kept@);
    }
    string_of(stem.as_slice())
}

// ---------------------------------------------------------------------------
// Laws
// ---------------------------------------------------------------------------

/// Characters that a kept name may hold.
pub open spec fn safe(c: char) -> bool {
    &&& c != '/' && c != '\\' && c != ':'
    &&& !control(c)
    &&& !invisible_or_reordering(c)
    &&& white_space(c) ==> c == ' '
}

/// Whether every character is safe.
pub open spec fn all_safe(s: Seq<char>) -> bool {
    forall|i: int| 0 <= i < s.len() ==> safe(#[trigger] s[i])
}

proof fn lemma_cleaned_safe(s: Seq<char>)
    ensures
        all_safe(cleaned(s)),
    decreases s.len(),
{
    if s.len() > 0 {
        lemma_cleaned_safe(s.drop_last());
        let front = cleaned(s.drop_last());
        assert forall|i: int| 0 <= i < cleaned(s).len() implies safe(#[trigger] cleaned(s)[i]) by {
            if i < front.len() {
                assert(cleaned(s)[i] == front[i]);
            }
        }
    }
}

proof fn lemma_piece_safe(s: Seq<char>, from: int, to: int)
    requires
        all_safe(s),
        0 <= from <= to <= s.len(),
    ensures
        all_safe(s.subrange(from, to)),
{
    let t = s.subrange(from, to);
    assert forall|i: int| 0 <= i < t.len() implies safe(#[trigger] t[i]) by {
        assert(t[i] == s[from + i]);
    }
}

/// What leads a name is cut off, and no more.
proof fn lemma_unled(s: Seq<char>)
    ensures
        unled(s).len() <= s.len(),
        unled(s) == s.subrange(s.len() - unled(s).len(), s.len() as int),
        unled(s).len() > 0 ==> unled(s)[0] != '.' && !white_space(unled(s)[0]),
    decreases s.len(),
{
    if s.len() > 0 && (s[0] == '.' || white_space(s[0])) {
        let t = s.drop_first();
        lemma_unled(t);
        assert(t.subrange(t.len() - unled(t).len(), t.len() as int) =~= s.subrange(
            s.len() - unled(s).len(),
            s.len() as int,
        ));
    } else {
        assert(s.subrange(0, s.len() as int) =~= s);
    }
}

proof fn lemma_undotted_safe(normal: Seq<char>)
    ensures
        all_safe(undotted(normal)),
{
    let c = cleaned(normal);
    let u = unled(c);
    let v = trim_end(u);
    lemma_cleaned_safe(normal);
    lemma_unled(c);
    lemma_piece_safe(c, c.len() - u.len(), c.len() as int);
    lemma_trim_end(u);
    assert(v =~= u.subrange(0, v.len() as int));
    lemma_piece_safe(u, 0, v.len() as int);
}

proof fn lemma_fitting(s: Seq<char>, limit: int)
    requires
        limit >= 0,
    ensures
        fitting(s, limit) <= s.len(),
        utf8_len(s.take(fitting(s, limit) as int)) <= limit,
        s.len() > 0 && limit >= 4 ==> fitting(s, limit) > 0,
    decreases s.len(),
{
    if s.len() > 0 && utf8_width(s[0]) <= limit {
        let t = s.drop_first();
        let rest = limit - utf8_width(s[0]);
        lemma_fitting(t, rest);
        let n = fitting(t, rest) as int;
        assert(s.take(n + 1) == seq![s[0]] + t.take(n));
        lemma_utf8_len_prepend(s[0], t.take(n));
    } else {
        assert(s.take(0) == Seq::<char>::empty());
    }
}

proof fn lemma_utf8_len_prepend(c: char, s: Seq<char>)
    ensures
        utf8_len(seq![c] + s) == utf8_width(c) + utf8_len(s),
    decreases s.len(),
{
    let t = seq![c] + s;
    reveal_with_fuel(utf8_len, 2);
    if s.len() == 0 {
        assert(t.drop_last() == Seq::<char>::empty());
        assert(t.last() == c);
    } else {
        assert(t.drop_last() == seq![c] + s.drop_last());
        assert(t.last() == s.last());
        lemma_utf8_len_prepend(c, s.drop_last());
    }
}

proof fn lemma_utf8_len_concat(a: Seq<char>, b: Seq<char>)
    ensures
        utf8_len(a + b) == utf8_len(a) + utf8_len(b),
    decreases b.len(),
{
    if b.len() == 0 {
        assert(a + b == a);
    } else {
        assert((a + b).drop_last() == a + b.drop_last());
        lemma_utf8_len_concat(a, b.drop_last());
    }
}

/// Whatever the name, what is kept of it is never empty and holds no path separator, no control
/// character, no invisible or reordering character and no white space but the
/// plain space: it cannot name another directory or disguise its extension.
pub proof fn law_sanitized_is_safe(normal: Seq<char>)
    ensures
        sanitized_normal(normal).len() > 0,
        all_safe(sanitized_normal(normal)),
{
    reveal_strlit("attachment");
    reveal_strlit(".");
    let s = undotted(normal);
    lemma_undotted_safe(normal);
    if s.len() > 0 {
        match extension_at(s) {
            Some(dot) => {
                lemma_last_before(s, '.', s.len() as int);
                let stem = s.take(dot);
                lemma_fitting(stem, MAX_STEM_BYTES as int);
                let n = fitting(stem, MAX_STEM_BYTES as int) as int;
                assert(stem.take(n) == s.subrange(0, n));
                lemma_piece_safe(s, 0, n);
                assert(s.skip(dot + 1) == s.subrange(dot + 1, s.len() as int));
                lemma_piece_safe(s, dot + 1, s.len() as int);
                let r = sanitized_normal(normal);
                assert forall|i: int| 0 <= i < r.len() implies safe(#[trigger] r[i]) by {
                    if i < n {
                        assert(r[i] == stem.take(n)[i]);
                    } else if i > n {
                        assert(r[i] == s.skip(dot + 1)[i - n - 1]);
                    }
                }
            },
            None => {
                lemma_fitting(s, MAX_STEM_BYTES as int);
                let n = fitting(s, MAX_STEM_BYTES as int) as int;
                assert(s.take(n) == s.subrange(0, n));
                lemma_piece_safe(s, 0, n);
            },
        }
    }
}

/// A kept name takes at most 120 bytes for the stem, one for the dot and 16 for
/// the extension.
pub proof fn law_sanitized_is_short(normal: Seq<char>)
    ensures
        utf8_len(sanitized_normal(normal)) <= MAX_STEM_BYTES + 1 + MAX_EXT_BYTES,
{
    reveal_strlit("attachment");
    reveal_strlit(".");
    let s = undotted(normal);
    if s.len() == 0 {
        reveal_with_fuel(utf8_len, 11);
    } else {
        match extension_at(s) {
            Some(dot) => {
                let stem = s.take(dot);
                lemma_fitting(stem, MAX_STEM_BYTES as int);
                let head = stem.take(fitting(stem, MAX_STEM_BYTES as int) as int);
                lemma_utf8_len_concat(head, "."@);
                lemma_utf8_len_concat(head + "."@, s.skip(dot + 1));
                assert(utf8_len("."@) == 1) by {
                    reveal_with_fuel(utf8_len, 2);
                    assert("."@.drop_last() == Seq::<char>::empty());
                }
            },
            None => {
                lemma_fitting(s, MAX_STEM_BYTES as int);
            },
        }
    }
}

/// An extension of at most 16 bytes survives whatever happens to the stem.
pub proof fn law_sanitized_keeps_extension(normal: Seq<char>)
    ensures
        extension_at(undotted(normal)) matches Some(dot) ==> ({
            let ext = undotted(normal).skip(dot + 1);
            let r = sanitized_normal(normal);
            &&& r.len() > ext.len() + 1
            &&& r.skip(r.len() - ext.len()) == ext
            &&& r[r.len() - ext.len() - 1] == '.'
        }),
{
    reveal_strlit(".");
    let s = undotted(normal);
    if let Some(dot) = extension_at(s) {
        let stem = s.take(dot);
        lemma_last_before(s, '.', s.len() as int);
        lemma_fitting(stem, MAX_STEM_BYTES as int);
        let ext = s.skip(dot + 1);
        let r = sanitized_normal(normal);
        assert(r.skip(r.len() - ext.len()) =~= ext);
    }
}

/// A kept name does not start with a dot, so it is neither hidden nor a dot segment.
pub proof fn law_sanitized_is_not_hidden(normal: Seq<char>)
    ensures
        sanitized_normal(normal)[0] != '.',
{
    reveal_strlit("attachment");
    let u = unled(cleaned(normal));
    let s = undotted(normal);
    lemma_unled(cleaned(normal));
    lemma_trim_end(u);
    if s.len() > 0 {
        assert(s[0] == u[0]);
        match extension_at(s) {
            Some(dot) => {
                lemma_fitting(s.take(dot), MAX_STEM_BYTES as int);
            },
            None => {
                lemma_fitting(s, MAX_STEM_BYTES as int);
            },
        }
    }
}

/// Names that differ in what cannot be seen alone, or that are then canonically
/// equivalent, are kept as the same file name.
pub proof fn law_equivalent_names_agree(a: Seq<char>, b: Seq<char>)
    ensures
        visible(a) == visible(b) ==> sanitized(a) == sanitized(b),
        nfc(visible(a)) == nfc(visible(b)) ==> sanitized(a) == sanitized(b),
{
}

/// A name of safe characters that starts and ends with a visible one, not with a
/// dot, and that is not too long, is kept as it is.
pub proof fn law_a_safe_name_stays_as_it_is(name: Seq<char>)
    requires
        name.len() > 0,
        all_safe(name),
        name[0] != '.',
        !white_space(name[0]),
        !white_space(name[name.len() - 1]),
        utf8_len(name) <= MAX_STEM_BYTES,
    ensures
        sanitized_normal(name) == name,
        visible(name) == name,
{
    reveal_strlit(".");
    lemma_cleaned_stays(name);
    assert(unled(name) == name);
    assert(trim_end(name) == name);
    lemma_last_before(name, '.', name.len() as int);
    match extension_at(name) {
        Some(dot) => {
            let stem = name.take(dot);
            assert(stem + name.skip(dot) =~= name);
            lemma_utf8_len_concat(stem, name.skip(dot));
            lemma_all_fit(stem, MAX_STEM_BYTES as int);
            assert(stem.take(stem.len() as int) =~= stem);
            assert(stem + "."@ + name.skip(dot + 1) =~= name);
        },
        None => {
            lemma_all_fit(name, MAX_STEM_BYTES as int);
            assert(name.take(name.len() as int) =~= name);
        },
    }
}

proof fn lemma_cleaned_stays(s: Seq<char>)
    requires
        all_safe(s),
    ensures
        cleaned(s) == s,
        visible(s) == s,
    decreases s.len(),
{
    if s.len() > 0 {
        let front = s.drop_last();
        assert(all_safe(front)) by {
            assert forall|i: int| 0 <= i < front.len() implies safe(#[trigger] front[i]) by {
                assert(front[i] == s[i]);
            }
        }
        lemma_cleaned_stays(front);
        assert(safe(s[s.len() - 1]));
        assert(front.push(s.last()) =~= s);
    } else {
        assert(cleaned(s) =~= s);
        assert(visible(s) =~= s);
    }
}

proof fn lemma_all_fit(s: Seq<char>, limit: int)
    requires
        utf8_len(s) <= limit,
    ensures
        fitting(s, limit) == s.len(),
    decreases s.len(),
{
    if s.len() > 0 {
        let rest = s.drop_first();
        assert(seq![s[0]] + rest =~= s);
        lemma_utf8_len_prepend(s[0], rest);
        lemma_all_fit(rest, limit - utf8_width(s[0]));
    }
}

/// Each character is cleaned by itself: one that is safe stays, a separator or a
/// control character becomes a low line, other white space a space, and what cannot
/// be seen goes.
pub proof fn law_characters_are_cleaned_one_by_one(a: Seq<char>, b: Seq<char>, c: char)
    ensures
        cleaned(a + b) == cleaned(a) + cleaned(b),
        visible(a + b) == visible(a) + visible(b),
        safe(c) ==> cleaned(seq![c]) == seq![c] && visible(seq![c]) == seq![c],
        c == '/' || c == '\\' || c == ':' || control(c) ==> cleaned(seq![c]) == seq!['_'],
        white_space(c) && !control(c) ==> cleaned(seq![c]) == seq![' '],
        invisible_or_reordering(c) && !control(c) ==> cleaned(seq![c]).len() == 0 && visible(
            seq![c],
        ).len() == 0,
        !invisible_or_reordering(c) ==> visible(seq![c]) == seq![c],
    decreases b.len(),
{
    reveal_with_fuel(cleaned, 2);
    reveal_with_fuel(visible, 2);
    assert(seq![c].drop_last() =~= Seq::<char>::empty());
    assert(Seq::<char>::empty().push(c) =~= seq![c]);
    assert(Seq::<char>::empty().push('_') =~= seq!['_']);
    assert(Seq::<char>::empty().push(' ') =~= seq![' ']);
    lemma_code_points(c);
    if b.len() == 0 {
        assert(a + b =~= a);
        assert(cleaned(a) + cleaned(b) =~= cleaned(a));
        assert(visible(a) + visible(b) =~= visible(a));
    } else {
        law_characters_are_cleaned_one_by_one(a, b.drop_last(), c);
        assert((a + b).drop_last() =~= a + b.drop_last());
        assert(cleaned(a + b) =~= cleaned(a) + cleaned(b));
        assert(visible(a + b) =~= visible(a) + visible(b));
    }
}

proof fn lemma_code_points(c: char)
    ensures
        control(c) ==> !invisible_or_reordering(c),
        white_space(c) ==> !invisible_or_reordering(c),
        c == '/' || c == '\\' || c == ':' ==> !invisible_or_reordering(c) && !control(c),
{
}

/// Only what does not fit is cut: a stem that is shortened could not take one
/// character more, and what is left is how it started.
pub proof fn law_only_what_does_not_fit_is_cut(s: Seq<char>, limit: int)
    requires
        limit >= 0,
    ensures
        fitting(s, limit) <= s.len(),
        utf8_len(s.take(fitting(s, limit) as int)) <= limit,
        fitting(s, limit) < s.len() ==> utf8_len(s.take(fitting(s, limit) as int + 1)) > limit,
    decreases s.len(),
{
    lemma_fitting(s, limit);
    if s.len() > 0 {
        let rest = s.drop_first();
        if utf8_width(s[0]) <= limit {
            let room = limit - utf8_width(s[0]);
            law_only_what_does_not_fit_is_cut(rest, room);
            let n = fitting(rest, room) as int;
            if n < rest.len() {
                assert(s.take(n + 2) =~= seq![s[0]] + rest.take(n + 1));
                lemma_utf8_len_prepend(s[0], rest.take(n + 1));
            }
        } else {
            assert(s.take(1) =~= seq![s[0]] + Seq::<char>::empty());
            lemma_utf8_len_prepend(s[0], Seq::empty());
        }
    }
}

/// A name that leaves nothing is called an attachment; dots and white space in
/// front, and white space behind, leave nothing of themselves.
pub proof fn law_a_name_of_nothing_is_an_attachment(s: Seq<char>)
    ensures
        undotted(s).len() == 0 <==> forall|i: int|
            0 <= i < cleaned(s).len() ==> (#[trigger] cleaned(s)[i]) == '.' || white_space(
                cleaned(s)[i],
            ),
        undotted(s).len() == 0 ==> sanitized_normal(s) == "attachment"@,
{
    let c = cleaned(s);
    lemma_unled(c);
    lemma_unled_only(c);
    lemma_trim_end(unled(c));
    if forall|i: int| 0 <= i < c.len() ==> (#[trigger] c[i]) == '.' || white_space(c[i]) {
        if unled(c).len() > 0 {
            assert(unled(c)[0] == c[c.len() - unled(c).len()]);
        }
    }
    if undotted(s).len() == 0 {
        assert(unled(c).len() == 0) by {
            if unled(c).len() > 0 {
                assert(white_space(unled(c)[0]));
            }
        }
    }
}

proof fn lemma_unled_only(s: Seq<char>)
    ensures
        forall|i: int|
            0 <= i < s.len() - unled(s).len() ==> (#[trigger] s[i]) == '.' || white_space(s[i]),
    decreases s.len(),
{
    if s.len() > 0 && (s[0] == '.' || white_space(s[0])) {
        let t = s.drop_first();
        lemma_unled_only(t);
        assert forall|i: int| 0 <= i < s.len() - unled(s).len() implies (#[trigger] s[i]) == '.'
            || white_space(s[i]) by {
            if i > 0 {
                assert(t[i - 1] == s[i]);
            }
        }
    }
}

/// A name that is too long keeps how it started: its stem is cut, at the first
/// character that does not fit, and nothing else changes.
pub proof fn law_a_long_name_keeps_how_it_started(normal: Seq<char>)
    ensures
        ({
            let s = undotted(normal);
            let r = sanitized_normal(normal);
            match extension_at(s) {
                Some(dot) => {
                    let n = fitting(s.take(dot), 120);
                    &&& n <= dot
                    &&& r.take(n as int) == s.take(n as int)
                    &&& r.skip(n as int) == s.skip(dot)
                },
                None => s.len() > 0 ==> r == s.take(fitting(s, 120) as int) && fitting(s, 120)
                    <= s.len(),
            }
        }),
{
    reveal_strlit(".");
    let s = undotted(normal);
    let r = sanitized_normal(normal);
    lemma_last_before(s, '.', s.len() as int);
    match extension_at(s) {
        Some(dot) => {
            let stem = s.take(dot);
            lemma_fitting(stem, 120);
            let n = fitting(stem, 120) as int;
            assert(r.take(n) =~= s.take(n));
            assert(r.skip(n) =~= s.skip(dot));
        },
        None => {
            lemma_fitting(s, 120);
        },
    }
}

/// An extension is what follows the last dot, where that leaves a stem and an
/// extension of at most sixteen bytes; otherwise all of the name is stem.
pub proof fn law_the_last_dot_starts_the_extension(stem: Seq<char>, ext: Seq<char>)
    requires
        stem.len() > 0,
        ext.len() > 0,
        !ext.contains('.'),
    ensures
        extension_at(stem.push('.') + ext) == if utf8_len(ext) <= 16 {
            Some(stem.len() as int)
        } else {
            None
        },
{
    let s = stem.push('.') + ext;
    lemma_last_before(s, '.', s.len() as int);
    let dot = last_before(s, '.', s.len() as int);
    assert(s[stem.len() as int] == '.');
    if dot > stem.len() {
        assert(ext.contains(ext[dot - stem.len() - 1]));
    }
    assert(s.skip(dot + 1) =~= ext);
}

} // verus!
