//! Which room a title names.
//!
//! A room without a name is titled with its members, and not always in the
//! same order. Two titles are therefore compared by the members they list.

use crate::kakao::ax_send::SendError;
use crate::kakao::filename::invisible_or_reordering;
use crate::text::number::{law_upper_hex_reads_back, nibbles_value, upper_hex, upper_hex_u32};
use crate::text::order::{le_fn, lemma_le_total_ordering, sort_strings, sorted};
use crate::text::split::{
    contains_text, first_at, join, join_strings, law_join_holds_every_part,
    law_split_pieces_make_up_the_text, law_splitting_adds_up, lemma_first_at, occurs_at, part_start,
    split_chars, split_on, views,
};
use crate::text::trim::{trim, trimmed};
use crate::text::{chars_of, code_point, control, is_control, owned, same, string_of};
use vstd::prelude::*;

verus! {

/// The parts without white space around them, blank ones left out.
pub open spec fn nonblank(parts: Seq<Seq<char>>) -> Seq<Seq<char>>
    decreases parts.len(),
{
    if parts.len() == 0 {
        seq![]
    } else {
        let front = nonblank(parts.drop_last());
        let part = trim(parts.last());
        if part.len() == 0 {
            front
        } else {
            front.push(part)
        }
    }
}

/// The members that a title lists, in its order.
pub open spec fn members(title: Seq<char>) -> Seq<Seq<char>> {
    nonblank(split_on(title, ','))
}

/// The members that a title lists, in ascending order.
pub open spec fn member_key(title: Seq<char>) -> Seq<Seq<char>> {
    sorted(members(title))
}

/// The members that `title` lists, in ascending order.
pub fn room_member_key(title: &str) -> (key: Vec<String>)
    ensures
        views(key@) == member_key(title@),
{
    let chars = chars_of(title);
    let parts = split_chars(chars.as_slice(), ',');
    let mut found: Vec<String> = Vec::new();
    let total: usize = parts.len();
    let ghost pieces = split_on(title@, ',');
    proof {
        assert(views(found@) == nonblank(pieces.take(0)));
    }
    for i in 0..total
        invariant
            total == parts@.len(),
            parts@.map_values(|p: Vec<char>| p@) == pieces,
            views(found@) == nonblank(pieces.take(i as int)),
    {
        let part = trimmed(parts[i].as_slice());
        proof {
            assert(parts@.map_values(|p: Vec<char>| p@)[i as int] == parts@[i as int]@);
            assert(pieces.take(i + 1).drop_last() == pieces.take(i as int));
        }
        if part.len() > 0 {
            let ghost before = views(found@);
            found.push(string_of(part.as_slice()));
            proof {
                assert(views(found@) == before.push(part@));
            }
        }
    }
    proof {
        assert(pieces.take(total as int) == pieces);
    }
    sort_strings(found)
}

/// Whether two titles name one room.
pub open spec fn rooms_match(a: Seq<char>, b: Seq<char>) -> bool {
    a == b || member_key(a) == member_key(b)
}

/// Whether two lists hold the same texts in the same order.
fn same_strings(a: &[String], b: &[String]) -> (r: bool)
    ensures
        r == (views(a@) == views(b@)),
{
    if a.len() != b.len() {
        proof {
            assert(views(a@).len() != views(b@).len());
        }
        return false;
    }
    for i in 0..a.len()
        invariant
            a@.len() == b@.len(),
            forall|j: int| 0 <= j < i ==> a@[j]@ == b@[j]@,
    {
        if !same(a[i].as_str(), b[i].as_str()) {
            proof {
                assert(views(a@)[i as int] != views(b@)[i as int]);
            }
            return false;
        }
    }
    proof {
        assert(views(a@) == views(b@));
    }
    true
}

/// Whether `candidate` is the room that `wanted` names, in whatever order the members come.
pub fn room_matches(candidate: &str, wanted: &str) -> (r: bool)
    ensures
        r == rooms_match(candidate@, wanted@),
{
    if same(candidate, wanted) {
        return true;
    }
    let a = room_member_key(candidate);
    let b = room_member_key(wanted);
    same_strings(a.as_slice(), b.as_slice())
}

/// The longest of the parts, the first of them on a tie.
pub open spec fn longest(parts: Seq<Seq<char>>) -> Seq<char>
    decreases parts.len(),
{
    if parts.len() <= 1 {
        parts[0]
    } else {
        let best = longest(parts.drop_last());
        if parts.last().len() > best.len() {
            parts.last()
        } else {
            best
        }
    }
}

/// What is typed to search for a room.
pub open spec fn search_query(room: Seq<char>) -> Seq<char> {
    let key = member_key(room);
    if key.len() == 0 {
        room
    } else {
        longest(key)
    }
}

/// What is typed to search for `room`: its longest member, so that the order
/// of the members cannot matter; the whole title where it lists none.
pub fn search_query_for(room: &str) -> (query: String)
    ensures
        query@ == search_query(room@),
{
    let key = room_member_key(room);
    let total: usize = key.len();
    let ghost parts = views(key@);
    if total == 0 {
        return owned(room);
    }
    let mut best: usize = 0;
    let mut best_len: usize = chars_of(key[0].as_str()).len();
    proof {
        assert(parts.take(1)[0] == key@[0]@);
    }
    for i in 1..total
        invariant
            1 <= i <= total == key@.len(),
            parts == views(key@),
            best < i,
            best_len == key@[best as int]@.len(),
            longest(parts.take(i as int)) == key@[best as int]@,
    {
        let len: usize = chars_of(key[i].as_str()).len();
        proof {
            assert(parts.take(i + 1).drop_last() == parts.take(i as int));
            assert(parts.take(i + 1).last() == key@[i as int]@);
        }
        if len > best_len {
            best = i;
            best_len = len;
        }
    }
    proof {
        assert(parts.take(total as int) == parts);
    }
    key[best].clone()
}

/// Characters that no room name holds: control characters, and those that are
/// invisible or reorder what follows them.
pub open spec fn untypable(c: char) -> bool {
    let u = c as int;
    ||| control(c)
    ||| u == 0x00ad
    ||| 0x200b <= u <= 0x200f
    ||| 0x202a <= u <= 0x202e
    ||| 0x2060 <= u <= 0x2064
    ||| 0x2066 <= u <= 0x2069
    ||| u == 0xfeff
}

/// Exec form of [`untypable`].
fn is_untypable(c: char) -> (r: bool)
    ensures
        r == untypable(c),
{
    let u: u32 = code_point(c);
    is_control(c) || u == 0x00ad || (0x200b <= u && u <= 0x200f) || (0x202a <= u && u <= 0x202e)
        || (0x2060 <= u && u <= 0x2064) || (0x2066 <= u && u <= 0x2069) || u == 0xfeff
}

/// The code point of `c` as `U+` and at least four digits.
pub open spec fn code_point_text(c: char) -> Seq<char> {
    "U+"@ + upper_hex(c as nat, 4)
}

/// Exec form of [`code_point_text`].
fn code_point_string(c: char) -> (text: String)
    ensures
        text@ == code_point_text(c),
{
    let mut text: String = owned("U+");
    let digits = upper_hex_u32(code_point(c), 4);
    text.append(digits.as_str());
    text
}

/// The code points of the characters, in order.
pub open spec fn code_point_texts(s: Seq<char>) -> Seq<Seq<char>> {
    s.map_values(|c: char| code_point_text(c))
}

/// The code points of the characters, joined.
fn code_points(chars: &[char], sep: &str) -> (text: String)
    ensures
        text@ == join(code_point_texts(chars@), sep@),
{
    let mut parts: Vec<String> = Vec::new();
    for i in 0..chars.len()
        invariant
            views(parts@) == code_point_texts(chars@.take(i as int)),
    {
        let ghost before = views(parts@);
        parts.push(code_point_string(chars[i]));
        proof {
            assert(views(parts@) == before.push(code_point_text(chars@[i as int])));
            assert(code_point_texts(chars@.take(i + 1)) == code_point_texts(
                chars@.take(i as int),
            ).push(code_point_text(chars@[i as int])));
        }
    }
    proof {
        assert(chars@.take(chars@.len() as int) == chars@);
    }
    join_strings(parts.as_slice(), sep)
}

/// The quoted and escaped form of a text.
pub uninterp spec fn debug_form(text: Seq<char>) -> Seq<char>;

/// `<str as std::fmt::Debug>::fmt`, through `format!`: the quoted and escaped
/// form of the text alone.
#[verifier::external_body]
fn debug_of(text: &str) -> (form: String)
    ensures
        form@ == debug_form(text@),
{
    format!("{text:?}")
}

/// A text in its quoted form, `form`, with the code points of its characters,
/// so that differences which cannot be seen can be read.
pub open spec fn described_as(text: Seq<char>, form: Seq<char>) -> Seq<char> {
    form + " ["@ + join(code_point_texts(text), " "@) + "]"@
}

/// A text with its quoted form and its code points.
pub open spec fn described(text: Seq<char>) -> Seq<char> {
    described_as(text, debug_form(text))
}

/// `text` in its quoted form, `form`, with the code points of its characters.
pub fn describe_as(text: &str, form: &str) -> (shown: String)
    ensures
        shown@ == described_as(text@, form@),
{
    let chars = chars_of(text);
    let points = code_points(chars.as_slice(), " ");
    let mut shown: String = owned(form);
    shown.append(" [");
    shown.append(points.as_str());
    shown.append("]");
    shown
}

/// `text` so that invisible differences can be read.
pub fn describe_value(text: &str) -> (shown: String)
    ensures
        shown@ == described(text@),
{
    let form = debug_of(text);
    describe_as(text, form.as_str())
}

/// The characters of a name that no room name holds, in order.
pub open spec fn offenders(room: Seq<char>) -> Seq<char> {
    room.filter(|c: char| untypable(c))
}

/// Refuses a room name with characters that no room name holds, and says which.
pub fn validate_room_name(room: &str) -> (r: Result<(), SendError>)
    ensures
        r is Ok <==> offenders(room@).len() == 0,
        r matches Err(e) ==> e matches SendError::RoomNameNotTypable { room: shown, offenders: list }
            && shown@ == described(room@) && list@ == join(
            code_point_texts(offenders(room@)),
            ", "@,
        ),
{
    let chars = chars_of(room);
    let mut bad: Vec<char> = Vec::new();
    let ghost keep = |c: char| untypable(c);
    for i in 0..chars.len()
        invariant
            chars@ == room@,
            keep == (|c: char| untypable(c)),
            bad@ == room@.take(i as int).filter(keep),
    {
        proof {
            reveal(Seq::filter);
            assert(room@.take(i + 1).drop_last() == room@.take(i as int));
        }
        if is_untypable(chars[i]) {
            bad.push(chars[i]);
        }
    }
    proof {
        assert(room@.take(room@.len() as int) == room@);
    }
    if bad.len() == 0 {
        return Ok(());
    }
    Err(
        SendError::RoomNameNotTypable {
            room: describe_value(room),
            offenders: code_points(bad.as_slice(), ", "),
        },
    )
}

// ---------------------------------------------------------------------------
// Laws
// ---------------------------------------------------------------------------

/// Two titles name one room exactly where they list the same members, each as
/// often, in whatever order.
pub proof fn law_members_decide_the_room(a: Seq<char>, b: Seq<char>)
    ensures
        rooms_match(a, b) <==> members(a).to_multiset() == members(b).to_multiset(),
{
    lemma_le_total_ordering();
    members(a).lemma_sort_by_ensures(le_fn());
    members(b).lemma_sort_by_ensures(le_fn());
    if members(a).to_multiset() == members(b).to_multiset() {
        vstd::seq_lib::lemma_sorted_unique(member_key(a), member_key(b), le_fn());
    }
}

/// Naming one room is an equivalence of titles.
pub proof fn law_naming_a_room_is_an_equivalence(a: Seq<char>, b: Seq<char>, c: Seq<char>)
    ensures
        rooms_match(a, a),
        rooms_match(a, b) ==> rooms_match(b, a),
        rooms_match(a, b) && rooms_match(b, c) ==> rooms_match(a, c),
{
}

/// What is typed to search for a room is one of its members, and none is longer.
pub proof fn law_search_query_is_a_longest_member(room: Seq<char>)
    requires
        members(room).len() > 0,
    ensures
        members(room).contains(search_query(room)),
        forall|i: int|
            0 <= i < members(room).len() ==> #[trigger] members(room)[i].len() <= search_query(
                room,
            ).len(),
{
    lemma_le_total_ordering();
    let all = members(room);
    let key = member_key(room);
    all.lemma_sort_by_ensures(le_fn());
    all.to_multiset_ensures();
    key.to_multiset_ensures();
    assert(key.len() == all.len());
    lemma_longest(key);
    assert(key.to_multiset().count(search_query(room)) > 0);
    assert(all.contains(search_query(room)));
    assert forall|i: int| 0 <= i < all.len() implies #[trigger] all[i].len() <= search_query(
        room,
    ).len() by {
        assert(all.to_multiset().count(all[i]) > 0);
        assert(key.contains(all[i]));
    }
}

/// Titles that name one room are searched for by the same text, where they list a member.
pub proof fn law_one_room_one_query(a: Seq<char>, b: Seq<char>)
    requires
        rooms_match(a, b),
        members(a).len() > 0,
    ensures
        search_query(a) == search_query(b),
{
    lemma_le_total_ordering();
    members(a).lemma_sort_by_ensures(le_fn());
    members(a).to_multiset_ensures();
    member_key(a).to_multiset_ensures();
}

/// The longest part is one of the parts, and none is longer.
proof fn lemma_longest(parts: Seq<Seq<char>>)
    requires
        parts.len() > 0,
    ensures
        parts.contains(longest(parts)),
        forall|i: int| 0 <= i < parts.len() ==> #[trigger] parts[i].len() <= longest(parts).len(),
    decreases parts.len(),
{
    if parts.len() > 1 {
        let front = parts.drop_last();
        lemma_longest(front);
        let i = choose|i: int| 0 <= i < front.len() && front[i] == longest(front);
        assert(parts[i] == longest(front));
        assert(parts[parts.len() - 1] == parts.last());
        assert forall|j: int| 0 <= j < parts.len() implies #[trigger] parts[j].len() <= longest(
            parts,
        ).len() by {
            if j < front.len() {
                assert(front[j] == parts[j]);
            }
        }
    } else {
        assert(parts[0] == longest(parts));
    }
}

/// A title lists what stands between its commas: a title put together of two lists
/// the members of both, and a text without a comma is one member, without the
/// white space around it, or none where it is blank.
pub proof fn law_a_title_lists_its_members(a: Seq<char>, b: Seq<char>)
    ensures
        members(a.push(',') + b) == members(a) + members(b),
        !a.contains(',') && trim(a).len() > 0 ==> members(a) == seq![trim(a)],
        !a.contains(',') && trim(a).len() == 0 ==> members(a).len() == 0,
{
    law_splitting_adds_up(a, b, ',');
    lemma_nonblank_adds_up(split_on(a, ','), split_on(b, ','));
    if !a.contains(',') {
        law_split_pieces_make_up_the_text(a, ',');
        lemma_first_at(a, ',', 0);
        if first_at(a, ',', 0) < a.len() {
            assert(a.contains(a[first_at(a, ',', 0)]));
        }
        let parts = split_on(a, ',');
        assert(parts =~= seq![a]);
        reveal_with_fuel(nonblank, 2);
        assert(parts.drop_last() =~= Seq::<Seq<char>>::empty());
        assert(members(a) =~= if trim(a).len() > 0 {
            seq![trim(a)]
        } else {
            seq![]
        });
    }
}

proof fn lemma_nonblank_adds_up(a: Seq<Seq<char>>, b: Seq<Seq<char>>)
    ensures
        nonblank(a + b) == nonblank(a) + nonblank(b),
    decreases b.len(),
{
    if b.len() == 0 {
        assert(a + b =~= a);
        assert(nonblank(a) + nonblank(b) =~= nonblank(a));
    } else {
        lemma_nonblank_adds_up(a, b.drop_last());
        assert((a + b).drop_last() =~= a + b.drop_last());
        assert(nonblank(a + b) =~= nonblank(a) + nonblank(b));
    }
}

/// A room without a comma in its name is searched for by that name, and two such
/// rooms are one exactly where their names are.
pub proof fn law_a_plain_name_is_the_room(a: Seq<char>, b: Seq<char>)
    requires
        !a.contains(','),
        !b.contains(','),
        trim(a) == a,
        trim(b) == b,
        a.len() > 0,
        b.len() > 0,
    ensures
        rooms_match(a, b) <==> a == b,
        search_query(a) == a,
{
    law_a_title_lists_its_members(a, b);
    law_a_title_lists_its_members(b, a);
    law_search_query_is_a_longest_member(a);
    law_members_decide_the_room(a, b);
    members(a).to_multiset_ensures();
    members(b).to_multiset_ensures();
    if rooms_match(a, b) {
        assert(members(a)[0] == a);
        assert(members(a).contains(a));
        assert(members(b).to_multiset().count(a) > 0);
        assert(members(b).contains(a));
    }
    assert(members(a).contains(search_query(a)));
}

/// A code point is written so that it reads back, after `U+` and in at least four
/// digits.
pub proof fn law_code_points_read_back(c: char)
    ensures
        code_point_text(c).len() >= 6,
        code_point_text(c)[0] == 'U',
        code_point_text(c)[1] == '+',
        nibbles_value(code_point_text(c).skip(2)) == c as int,
{
    reveal_strlit("U+");
    law_upper_hex_reads_back(c as nat, 4);
    assert(code_point_text(c).skip(2) =~= upper_hex(c as nat, 4));
}

/// A description starts with the quoted form and names every character.
pub proof fn law_a_description_names_every_character(text: Seq<char>, form: Seq<char>, i: int)
    requires
        0 <= i < text.len(),
    ensures
        described_as(text, form).take(form.len() as int) == form,
        contains_text(described_as(text, form), code_point_text(text[i])),
{
    let parts = code_point_texts(text);
    let inner = join(parts, " "@);
    law_join_holds_every_part(parts, " "@);
    let at = part_start(parts, " "@.len(), i);
    assert(parts[i] == code_point_text(text[i]));
    let s = described_as(text, form);
    let from = form.len() + " ["@.len() + at;
    assert(s.subrange(from, from + parts[i].len()) =~= inner.subrange(at, at + parts[i].len()));
    assert(occurs_at(s, parts[i], from));
    assert(s.take(form.len() as int) =~= form);
}

/// Letters, digits, the space and whatever is neither a control character nor
/// invisible can stand in a name; a name is refused for each character that cannot,
/// and for no other.
pub proof fn law_only_what_cannot_be_seen_is_refused(room: Seq<char>, c: char)
    ensures
        untypable(c) <==> control(c) || (invisible_or_reordering(c) && c as int != 0x180e),
        offenders(room).contains(c) <==> room.contains(c) && untypable(c),
        0x20 <= c as int <= 0x7e || 0xac00 <= c as int <= 0xd7a3 ==> !untypable(c),
{
    let keep = |d: char| untypable(d);
    assert(offenders(room) =~= room.filter(keep));
    if room.contains(c) && untypable(c) {
        let i = choose|i: int| 0 <= i < room.len() && room[i] == c;
        room.lemma_filter_contains(keep, i);
    }
    if room.filter(keep).contains(c) {
        let k = choose|k: int| 0 <= k < room.filter(keep).len() && room.filter(keep)[k] == c;
        room.lemma_filter_pred(keep, k);
        room.lemma_filter_contains_rev(keep, c);
    }
}

} // verus!
