//! Names in paths. A component is what stands between slashes.

use crate::text::number::{decimal, decimal_u128, decimal_u64, law_written_numbers_read_back};
use crate::text::split::{last_before, last_index, lemma_last_before};
use crate::text::trim::copy_range;
use crate::text::{chars_of, owned, string_of};
use vstd::prelude::*;

verus! {

/// A path without slashes at its end, and without components `.` there.
pub open spec fn without_trailing(path: Seq<char>) -> Seq<char>
    decreases path.len(),
{
    if path.len() > 0 && path.last() == '/' {
        without_trailing(path.drop_last())
    } else if path.len() > 1 && path.last() == '.' && path[path.len() - 2] == '/' {
        without_trailing(path.drop_last())
    } else {
        path
    }
}

/// What follows the last slash.
pub open spec fn after_last_slash(path: Seq<char>) -> Seq<char> {
    path.skip(last_before(path, '/', path.len() as int) + 1)
}

/// The last component of a path, where it is a name: nothing of the empty
/// path, of the root, and of a path that ends in `..` or is `.`.
pub open spec fn file_name(path: Seq<char>) -> Option<Seq<char>> {
    let name = after_last_slash(without_trailing(path));
    if name.len() == 0 || name == seq!['.'] || name == seq!['.', '.'] {
        None
    } else {
        Some(name)
    }
}

/// The last component of a path, where it is a name.
pub fn file_name_of(path: &str) -> (name: Option<String>)
    ensures
        match name {
            Some(name) => file_name(path@) == Some(name@),
            None => file_name(path@) is None,
        },
{
    let chars = chars_of(path);
    let mut to: usize = chars.len();
    proof {
        assert(chars@.take(to as int) == path@);
    }
    while to > 0 && (chars[to - 1] == '/' || (to > 1 && chars[to - 1] == '.' && chars[to - 2]
        == '/'))
        invariant
            to <= chars@.len(),
            chars@ == path@,
            without_trailing(path@) == without_trailing(chars@.take(to as int)),
        decreases to,
    {
        proof {
            assert(chars@.take(to as int).drop_last() == chars@.take(to - 1));
        }
        to = to - 1;
    }
    let kept = copy_range(chars.as_slice(), 0, to);
    proof {
        assert(kept@ == chars@.take(to as int));
        assert(kept@ == without_trailing(path@));
    }
    let from: usize = match last_index(kept.as_slice(), '/') {
        Some(i) => i + 1,
        None => 0,
    };
    let name = copy_range(kept.as_slice(), from, kept.len());
    proof {
        assert(name@ == after_last_slash(kept@));
    }
    if name.len() == 0 || (name.len() == 1 && name[0] == '.') || (name.len() == 2 && name[0] == '.'
        && name[1] == '.') {
        proof {
            assert(name@.len() == 1 ==> name@ == seq!['.']);
            assert(name@.len() == 2 ==> name@ == seq!['.', '.']);
        }
        return None;
    }
    proof {
        assert(name@ != seq!['.']) by {
            if name@ == seq!['.'] {
                assert(name@[0] == '.');
            }
        }
        assert(name@ != seq!['.', '.']) by {
            if name@ == seq!['.', '.'] {
                assert(name@[0] == '.' && name@[1] == '.');
            }
        }
    }
    Some(string_of(name.as_slice()))
}

/// What follows the last dot of a name, where something stands before that dot.
pub open spec fn name_extension(name: Seq<char>) -> Option<Seq<char>> {
    let dot = last_before(name, '.', name.len() as int);
    if dot <= 0 {
        None
    } else {
        Some(name.skip(dot + 1))
    }
}

/// The extension of the last component of a path.
pub open spec fn extension(path: Seq<char>) -> Option<Seq<char>> {
    match file_name(path) {
        Some(name) => name_extension(name),
        None => None,
    }
}

/// The extension of the last component of a path.
pub fn extension_of(path: &str) -> (ext: Option<String>)
    ensures
        match ext {
            Some(ext) => extension(path@) == Some(ext@),
            None => extension(path@) is None,
        },
{
    match file_name_of(path) {
        None => None,
        Some(name) => {
            let chars = chars_of(name.as_str());
            let total: usize = chars.len();
            match last_index(chars.as_slice(), '.') {
                None => None,
                Some(dot) => if dot == 0 {
                    None
                } else {
                    let ext = copy_range(chars.as_slice(), dot + 1, total);
                    proof {
                        assert(ext@ == name@.skip(dot + 1));
                    }
                    Some(string_of(ext.as_slice()))
                },
            }
        },
    }
}

/// What stands before the last dot of a name, or the whole name where nothing does.
pub open spec fn name_stem(name: Seq<char>) -> Seq<char> {
    let dot = last_before(name, '.', name.len() as int);
    if dot <= 0 {
        name
    } else {
        name.take(dot)
    }
}

/// The last component of a path without its extension.
pub open spec fn file_stem(path: Seq<char>) -> Option<Seq<char>> {
    match file_name(path) {
        Some(name) => Some(name_stem(name)),
        None => None,
    }
}

/// The last component of a path without its extension.
pub fn file_stem_of(path: &str) -> (stem: Option<String>)
    ensures
        match stem {
            Some(stem) => file_stem(path@) == Some(stem@),
            None => file_stem(path@) is None,
        },
{
    match file_name_of(path) {
        None => None,
        Some(name) => {
            let chars = chars_of(name.as_str());
            match last_index(chars.as_slice(), '.') {
                None => Some(name),
                Some(dot) => if dot == 0 {
                    Some(name)
                } else {
                    let stem = copy_range(chars.as_slice(), 0, dot);
                    proof {
                        assert(stem@ == name@.take(dot as int));
                    }
                    Some(string_of(stem.as_slice()))
                },
            }
        },
    }
}

/// The stem of a file with a plain name and an extension is that name.
pub proof fn lemma_stem(dir: Seq<char>, stem: Seq<char>, ext: Seq<char>)
    requires
        dir.len() > 0 ==> dir.last() == '/',
        stem.len() > 0,
        !stem.contains('/'),
        ext.len() > 0,
        !ext.contains('/'),
        !ext.contains('.'),
    ensures
        file_stem(dir + stem + seq!['.'] + ext) == Some(stem),
{
    let path = dir + stem + seq!['.'] + ext;
    let name = stem + seq!['.'] + ext;
    assert(path.last() == ext.last());
    assert(ext.contains(ext.last()));
    assert(without_trailing(path) == path);
    lemma_last_before(path, '/', path.len() as int);
    let at = last_before(path, '/', path.len() as int);
    if at >= dir.len() {
        let k = at - dir.len();
        if k < stem.len() {
            assert(stem.contains(stem[k]));
        } else if k > stem.len() {
            assert(ext.contains(ext[k - stem.len() - 1]));
        }
        assert(false);
    }
    if dir.len() > 0 {
        assert(path[dir.len() - 1] == '/');
    }
    assert(at == dir.len() - 1);
    assert(after_last_slash(path) == name);
    assert(name.len() >= 3);
    lemma_last_before(name, '.', name.len() as int);
    let dot = last_before(name, '.', name.len() as int);
    assert(name[stem.len() as int] == '.');
    if dot > stem.len() {
        assert(ext.contains(ext[dot - stem.len() - 1]));
    }
    assert(dot == stem.len());
    assert(name.take(dot) == stem);
}

/// A component holds no slash.
pub proof fn lemma_file_name_is_plain(path: Seq<char>)
    ensures
        file_name(path) matches Some(name) ==> !name.contains('/'),
{
    let kept = without_trailing(path);
    lemma_last_before(kept, '/', kept.len() as int);
    let at = last_before(kept, '/', kept.len() as int);
    let name = after_last_slash(kept);
    assert forall|i: int| 0 <= i < name.len() implies name[i] != '/' by {
        assert(name[i] == kept[at + 1 + i]);
    }
}

/// The name under which a file is written before it takes its place: that of
/// the file, or `fallback` where it has none, hidden and marked with the
/// process and a number that no two writes share.
pub open spec fn staged_name(
    path: Seq<char>,
    fallback: Seq<char>,
    process: nat,
    nonce: nat,
) -> Seq<char> {
    let name = match file_name(path) {
        Some(name) => name,
        None => fallback,
    };
    "."@ + name + ".tmp-"@ + decimal(process) + "-"@ + decimal(nonce)
}

/// The name under which a file is written before it takes its place.
pub fn staging_name(path: &str, fallback: &str, process: u32, nonce: u128) -> (name: String)
    ensures
        name@ == staged_name(path@, fallback@, process as nat, nonce as nat),
{
    let mut name: String = owned(".");
    match file_name_of(path) {
        Some(file) => {
            name.append(file.as_str());
        },
        None => {
            name.append(fallback);
        },
    }
    name.append(".tmp-");
    name.append(decimal_u64(process as u64).as_str());
    name.append("-");
    name.append(decimal_u128(nonce).as_str());
    name
}

/// A file is staged beside its place under a hidden name that is not its own.
pub proof fn law_staging_name_is_apart(
    path: Seq<char>,
    fallback: Seq<char>,
    process: nat,
    nonce: nat,
)
    requires
        !fallback.contains('/'),
    ensures
        staged_name(path, fallback, process, nonce)[0] == '.',
        !staged_name(path, fallback, process, nonce).contains('/'),
        file_name(path) != Some(staged_name(path, fallback, process, nonce)),
{
    reveal_strlit(".");
    reveal_strlit(".tmp-");
    reveal_strlit("-");
    lemma_file_name_is_plain(path);
    lemma_decimal_is_plain(process);
    lemma_decimal_is_plain(nonce);
    let staged = staged_name(path, fallback, process, nonce);
    let name = match file_name(path) {
        Some(name) => name,
        None => fallback,
    };
    assert forall|i: int| 0 <= i < staged.len() implies staged[i] != '/' by {
        let a = name.len();
        let b = decimal(process).len();
        if 1 <= i < a + 1 {
            assert(name.contains(staged[i]));
        } else if a + 6 <= i < a + 6 + b {
            assert(decimal(process).contains(staged[i]));
        } else if a + 7 + b <= i {
            assert(decimal(nonce).contains(staged[i]));
        }
    }
    assert(staged.len() > name.len());
}

/// Numbers are written without slashes.
proof fn lemma_decimal_is_plain(n: nat)
    ensures
        !decimal(n).contains('/'),
    decreases n,
{
    if n >= 10 {
        lemma_decimal_is_plain(n / 10);
        let front = decimal(n / 10);
        assert forall|i: int| 0 <= i < decimal(n).len() implies decimal(n)[i] != '/' by {
            if i < front.len() {
                assert(front.contains(front[i]));
            }
        }
    }
}

/// A path names what follows its last slash: whatever stands before does not
/// matter, nor do slashes at its end.
pub proof fn law_the_last_component_is_the_name(dir: Seq<char>, name: Seq<char>)
    requires
        name.len() > 0,
        !name.contains('/'),
        name != seq!['.'],
        name != seq!['.', '.'],
    ensures
        file_name(name) == Some(name),
        file_name(dir + seq!['/'] + name) == Some(name),
        file_name(dir + seq!['/'] + name + seq!['/']) == Some(name),
{
    lemma_plain_name(Seq::empty(), name);
    assert(Seq::<char>::empty() + name =~= name);
    let path = dir + seq!['/'] + name;
    lemma_plain_name(dir + seq!['/'], name);
    assert((path + seq!['/']).drop_last() =~= path);
}

proof fn lemma_plain_name(dir: Seq<char>, name: Seq<char>)
    requires
        dir.len() > 0 ==> dir.last() == '/',
        name.len() > 0,
        !name.contains('/'),
        name != seq!['.'],
        name != seq!['.', '.'],
    ensures
        file_name(dir + name) == Some(name),
{
    let path = dir + name;
    assert(path.last() == name.last());
    assert(name.contains(name.last()));
    if name.len() == 1 {
        assert(name =~= seq![name[0]]);
    } else {
        assert(path[path.len() - 2] == name[name.len() - 2]);
        assert(name.contains(name[name.len() - 2]));
    }
    assert(without_trailing(path) == path);
    lemma_last_before(path, '/', path.len() as int);
    let at = last_before(path, '/', path.len() as int);
    if at >= dir.len() {
        assert(name.contains(name[at - dir.len()]));
    }
    if dir.len() > 0 {
        assert(path[dir.len() - 1] == '/');
    }
    assert(at == dir.len() - 1);
    assert(after_last_slash(path) =~= name);
}

/// A name comes apart at its last dot: what is before is the stem and what follows
/// the extension, and put together they are the name again. A name with no dot, or
/// with its only dot in front, is all stem.
pub proof fn law_stem_and_extension_make_up_the_name(name: Seq<char>)
    ensures
        name_extension(name) matches Some(ext) ==> name == name_stem(name) + seq!['.'] + ext
            && !ext.contains('.') && name_stem(name).len() > 0,
        name_extension(name) is None ==> name_stem(name) == name,
        name_extension(name) is None <==> !name.skip(1).contains('.') || name.len() == 0,
{
    let dot = last_before(name, '.', name.len() as int);
    lemma_last_before(name, '.', name.len() as int);
    if let Some(ext) = name_extension(name) {
        assert(name =~= name_stem(name) + seq!['.'] + ext);
        assert forall|i: int| 0 <= i < ext.len() implies ext[i] != '.' by {
            assert(ext[i] == name[dot + 1 + i]);
        }
        assert(name.skip(1)[dot - 1] == '.');
    } else if name.len() > 0 {
        assert forall|i: int| 0 <= i < name.skip(1).len() implies name.skip(1)[i] != '.' by {
            assert(name.skip(1)[i] == name[i + 1]);
        }
    }
}

/// The hidden name holds the name of the file, and two writes of one process with
/// different numbers never share it.
pub proof fn law_staging_names_differ(
    path: Seq<char>,
    fallback: Seq<char>,
    process: nat,
    a: nat,
    b: nat,
)
    ensures
        ({
            let name = match file_name(path) {
                Some(name) => name,
                None => fallback,
            };
            staged_name(path, fallback, process, a).subrange(1, 1int + name.len()) == name
        }),
        staged_name(path, fallback, process, a) == staged_name(path, fallback, process, b) ==> a
            == b,
{
    reveal_strlit(".");
    reveal_strlit(".tmp-");
    reveal_strlit("-");
    let name = match file_name(path) {
        Some(name) => name,
        None => fallback,
    };
    let head = "."@ + name + ".tmp-"@ + decimal(process) + "-"@;
    let s = staged_name(path, fallback, process, a);
    let t = staged_name(path, fallback, process, b);
    assert(s.subrange(1, 1int + name.len()) =~= name);
    assert(s.skip(head.len() as int) =~= decimal(a));
    assert(t.skip(head.len() as int) =~= decimal(b));
    if s == t {
        let hi = if a < b {
            b as int
        } else {
            a as int
        };
        law_written_numbers_read_back(a as int, 0, hi);
        law_written_numbers_read_back(b as int, 0, hi);
    }
}

} // verus!
