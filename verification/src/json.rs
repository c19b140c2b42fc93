//! JSON objects, as far as the library reads them: the members of the root
//! object, each with its value or, where that is an array, with its items.

use crate::text::number::{
    decimal, decimal_int, law_written_numbers_read_back, parse_i64, parsed_int,
};
use crate::text::trim::{law_trimming_drops_only_white_space, trim, trimmed};
use crate::text::{chars_of, same, string_of};
use vstd::prelude::*;

verus! {

/// A JSON value, by what can be read from it without descending.
#[derive(Debug, Clone)]
pub struct JsonScalar {
    /// The number, where it is an integer that `i64` holds.
    pub integer: Option<i64>,
    /// The number with its fraction cut off, saturated to the range of `i64`.
    pub truncated: Option<i64>,
    /// The number as text.
    pub number: Option<String>,
    /// The text of a string.
    pub text: Option<String>,
}

/// A member of a JSON object.
#[derive(Debug, Clone)]
pub struct JsonMember {
    pub key: String,
    pub own: JsonScalar,
    /// The items, where the value is an array.
    pub items: Option<Vec<JsonScalar>>,
}

/// The model of a [`JsonScalar`].
pub struct ScalarView {
    pub integer: Option<int>,
    pub truncated: Option<int>,
    pub number: Option<Seq<char>>,
    pub text: Option<Seq<char>>,
}

/// The model of a [`JsonMember`].
pub struct MemberView {
    pub key: Seq<char>,
    pub own: ScalarView,
    pub items: Option<Seq<ScalarView>>,
}

/// The view of an optional integer.
pub open spec fn int_view(v: Option<i64>) -> Option<int> {
    match v {
        Some(v) => Some(v as int),
        None => None,
    }
}

/// The view of an optional text.
pub open spec fn str_view(v: Option<String>) -> Option<Seq<char>> {
    match v {
        Some(v) => Some(v@),
        None => None,
    }
}

/// The view of a value.
pub open spec fn scalar_view(v: JsonScalar) -> ScalarView {
    ScalarView {
        integer: int_view(v.integer),
        truncated: int_view(v.truncated),
        number: str_view(v.number),
        text: str_view(v.text),
    }
}

/// The view of a member.
pub open spec fn member_view(m: JsonMember) -> MemberView {
    MemberView {
        key: m.key@,
        own: scalar_view(m.own),
        items: match m.items {
            Some(items) => Some(items@.map_values(|v: JsonScalar| scalar_view(v))),
            None => None,
        },
    }
}

/// The view of a list of members.
pub open spec fn member_views(members: Seq<JsonMember>) -> Seq<MemberView> {
    members.map_values(|m: JsonMember| member_view(m))
}

/// The members of the JSON object that a text holds; nothing where the text is
/// no JSON, or JSON but no object.
pub uninterp spec fn json_members(text: Seq<char>) -> Option<Seq<MemberView>>;

/// `serde_json::from_str` into a `serde_json::Value`, and the members of the
/// object that it is, read with `as_i64`, `as_f64`, `as_number`, `as_str` and
/// `as_array`: they depend on the text alone.
#[verifier::external_body]
pub(crate) fn parse_members(text: &str) -> (r: Option<Vec<JsonMember>>)
    ensures
        match r {
            Some(members) => json_members(text@) == Some(member_views(members@)),
            None => json_members(text@) is None,
        },
{
    let scalar = |v: &serde_json::Value| JsonScalar {
        integer: v.as_i64(),
        truncated: v.as_f64().map(|number| number as i64),
        number: v.as_number().map(|number| number.to_string()),
        text: v.as_str().map(|text| text.to_owned()),
    };
    let value: serde_json::Value = serde_json::from_str(text).ok()?;
    let member = |(key, v): (&String, &serde_json::Value)| JsonMember {
        key: key.clone(),
        own: scalar(v),
        items: v.as_array().map(|items| items.iter().map(scalar).collect()),
    };
    Some(value.as_object()?.iter().map(member).collect())
}

/// The first member with the given key, or the number of members.
pub open spec fn member_index(members: Seq<MemberView>, key: Seq<char>) -> int
    decreases members.len(),
{
    if members.len() == 0 {
        0
    } else if members[0].key == key {
        0
    } else {
        1 + member_index(members.drop_first(), key)
    }
}

/// The member with the given key.
pub open spec fn member_at(members: Seq<MemberView>, key: Seq<char>) -> Option<MemberView> {
    let i = member_index(members, key);
    if i < members.len() {
        Some(members[i])
    } else {
        None
    }
}

/// Exec form of [`member_at`].
pub fn find_member<'a>(members: &'a [JsonMember], key: &str) -> (r: Option<&'a JsonMember>)
    ensures
        match r {
            Some(m) => member_at(member_views(members@), key@) == Some(member_view(*m)),
            None => member_at(member_views(members@), key@) is None,
        },
{
    let ghost all = member_views(members@);
    let mut i: usize = 0;
    proof {
        assert(all.skip(0) =~= all);
    }
    while i < members.len()
        invariant
            i <= members@.len(),
            all == member_views(members@),
            member_index(all, key@) == i + member_index(all.skip(i as int), key@),
        decreases members@.len() - i,
    {
        proof {
            assert(all.skip(i as int)[0] == member_view(members@[i as int]));
            assert(all.skip(i as int).drop_first() =~= all.skip(i + 1));
        }
        if same(members[i].key.as_str(), key) {
            return Some(&members[i]);
        }
        i = i + 1;
    }
    None
}

/// The integer that a value stands for: a number, cut off where it has a
/// fraction, or a text that is a number.
pub open spec fn scalar_int(v: ScalarView) -> Option<int> {
    if v.number is Some {
        if v.integer is Some {
            v.integer
        } else {
            v.truncated
        }
    } else {
        match v.text {
            Some(text) => parsed_int(trim(text), true, i64::MIN as int, i64::MAX as int),
            None => None,
        }
    }
}

/// The text that a value stands for: a text that is not empty, or a number as written.
pub open spec fn scalar_text(v: ScalarView) -> Option<Seq<char>> {
    match v.text {
        Some(text) => if text.len() > 0 {
            Some(text)
        } else {
            None
        },
        None => v.number,
    }
}

/// Exec form of [`scalar_int`].
pub fn value_i64(v: &JsonScalar) -> (r: Option<i64>)
    ensures
        int_view(r) == scalar_int(scalar_view(*v)),
{
    if v.number.is_some() {
        if v.integer.is_some() {
            v.integer
        } else {
            v.truncated
        }
    } else {
        match &v.text {
            Some(text) => {
                let chars = chars_of(text.as_str());
                let bare = trimmed(chars.as_slice());
                let digits = string_of(bare.as_slice());
                parse_i64(digits.as_str())
            },
            None => None,
        }
    }
}

/// Exec form of [`scalar_text`].
pub fn value_string(v: &JsonScalar) -> (r: Option<String>)
    ensures
        str_view(r) == scalar_text(scalar_view(*v)),
{
    match &v.text {
        Some(text) => if text.as_str().is_empty() {
            None
        } else {
            Some(text.clone())
        },
        None => match &v.number {
            Some(number) => Some(number.clone()),
            None => None,
        },
    }
}

/// The integer of the member with the given key.
pub open spec fn int_at(members: Seq<MemberView>, key: Seq<char>) -> Option<int> {
    match member_at(members, key) {
        Some(m) => scalar_int(m.own),
        None => None,
    }
}

/// The text of the member with the given key.
pub open spec fn text_at(members: Seq<MemberView>, key: Seq<char>) -> Option<Seq<char>> {
    match member_at(members, key) {
        Some(m) => scalar_text(m.own),
        None => None,
    }
}

/// The `idx`-th item of the array with the given key.
pub open spec fn item_at(members: Seq<MemberView>, key: Seq<char>, idx: int) -> Option<ScalarView> {
    match member_at(members, key) {
        Some(m) => match m.items {
            Some(items) => if 0 <= idx < items.len() {
                Some(items[idx])
            } else {
                None
            },
            None => None,
        },
        None => None,
    }
}

/// The integer of an item.
pub open spec fn item_int(members: Seq<MemberView>, key: Seq<char>, idx: int) -> Option<int> {
    match item_at(members, key, idx) {
        Some(v) => scalar_int(v),
        None => None,
    }
}

/// The text of an item.
pub open spec fn item_text(members: Seq<MemberView>, key: Seq<char>, idx: int) -> Option<Seq<char>> {
    match item_at(members, key, idx) {
        Some(v) => scalar_text(v),
        None => None,
    }
}

/// Exec form of [`int_at`].
pub fn object_i64(members: &[JsonMember], key: &str) -> (r: Option<i64>)
    ensures
        int_view(r) == int_at(member_views(members@), key@),
{
    match find_member(members, key) {
        Some(m) => value_i64(&m.own),
        None => None,
    }
}

/// Exec form of [`text_at`].
pub fn object_string(members: &[JsonMember], key: &str) -> (r: Option<String>)
    ensures
        str_view(r) == text_at(member_views(members@), key@),
{
    match find_member(members, key) {
        Some(m) => value_string(&m.own),
        None => None,
    }
}

/// Exec form of [`item_at`].
fn find_item<'a>(members: &'a [JsonMember], key: &str, idx: usize) -> (r: Option<&'a JsonScalar>)
    ensures
        match r {
            Some(v) => item_at(member_views(members@), key@, idx as int) == Some(scalar_view(*v)),
            None => item_at(member_views(members@), key@, idx as int) is None,
        },
{
    match find_member(members, key) {
        Some(m) => match &m.items {
            Some(items) => if idx < items.len() {
                Some(&items[idx])
            } else {
                None
            },
            None => None,
        },
        None => None,
    }
}

/// Exec form of [`item_int`].
pub fn array_i64(members: &[JsonMember], key: &str, idx: usize) -> (r: Option<i64>)
    ensures
        int_view(r) == item_int(member_views(members@), key@, idx as int),
{
    match find_item(members, key, idx) {
        Some(v) => value_i64(v),
        None => None,
    }
}

/// Exec form of [`item_text`].
pub fn array_string(members: &[JsonMember], key: &str, idx: usize) -> (r: Option<String>)
    ensures
        str_view(r) == item_text(member_views(members@), key@, idx as int),
{
    match find_item(members, key, idx) {
        Some(v) => value_string(v),
        None => None,
    }
}

/// A member is found by its key where any has it, and it is the first that does.
pub proof fn lemma_member_at(members: Seq<MemberView>, key: Seq<char>)
    ensures
        member_at(members, key) is Some <==> exists|i: int|
            0 <= i < members.len() && (#[trigger] members[i]).key == key,
        member_at(members, key) matches Some(m) ==> m.key == key && members.contains(m),
        0 <= member_index(members, key) <= members.len(),
        forall|i: int|
            0 <= i < member_index(members, key) && i < members.len() ==> (#[trigger] members[i]).key
                != key,
    decreases members.len(),
{
    if members.len() > 0 && members[0].key != key {
        let rest = members.drop_first();
        lemma_member_at(rest, key);
        let n = member_index(rest, key);
        assert forall|i: int|
            0 <= i < member_index(members, key) && i < members.len() implies (
        #[trigger] members[i]).key != key by {
            if i > 0 {
                assert(members[i] == rest[i - 1]);
            }
        }
        if n < rest.len() {
            assert(members[n + 1] == rest[n]);
            assert(member_at(rest, key) == Some(rest[n]));
        } else {
            assert forall|i: int| 0 <= i < members.len() implies (#[trigger] members[i]).key
                != key by {
                if i > 0 {
                    assert(members[i] == rest[i - 1]);
                }
            }
        }
    }
}

/// A member is read by its key, and an item of an array by its place: the first
/// member with the key counts, and where there is none nothing is read.
pub proof fn law_members_are_read_by_their_key(
    members: Seq<MemberView>,
    key: Seq<char>,
    i: int,
    idx: int,
)
    requires
        0 <= i <= members.len(),
        i < members.len() ==> members[i].key == key,
        forall|j: int| 0 <= j < i ==> (#[trigger] members[j]).key != key,
    ensures
        i == members.len() ==> int_at(members, key) is None && text_at(members, key) is None
            && item_int(members, key, idx) is None && item_text(members, key, idx) is None,
        i < members.len() ==> {
            let m = members[i];
            &&& int_at(members, key) == scalar_int(m.own)
            &&& text_at(members, key) == scalar_text(m.own)
            &&& m.items is None ==> item_int(members, key, idx) is None && item_text(
                members,
                key,
                idx,
            ) is None
            &&& m.items matches Some(items) ==> {
                &&& 0 <= idx < items.len() ==> item_int(members, key, idx) == scalar_int(items[idx])
                    && item_text(members, key, idx) == scalar_text(items[idx])
                &&& !(0 <= idx < items.len()) ==> item_int(members, key, idx) is None
                    && item_text(members, key, idx) is None
            }
        },
{
    lemma_member_at(members, key);
    let n = member_index(members, key);
    if n < members.len() {
        assert(members[n].key == key) by {
            assert(member_at(members, key) == Some(members[n]));
        }
    }
    if i < n {
        assert(members[i].key != key);
    }
}

/// A number is read as it is, and from a text that is one; any other text, and
/// whatever is neither, is no number. A text is read as it is unless it is empty,
/// and a number as it is written.
pub proof fn law_values_stand_for_themselves(v: ScalarView, n: int)
    requires
        i64::MIN <= n <= i64::MAX,
    ensures
        v.number is Some && v.integer == Some(n) ==> scalar_int(v) == Some(n),
        v.number is Some && v.integer is None ==> scalar_int(v) == v.truncated,
        v.number is None && v.text == Some(decimal_int(n)) ==> scalar_int(v) == Some(n),
        v.number is None && v.text is None ==> scalar_int(v) is None && scalar_text(v) is None,
        v.text matches Some(text) ==> (text.len() > 0 ==> scalar_text(v) == Some(text)) && (
        text.len() == 0 ==> scalar_text(v) is None),
        v.text is None ==> scalar_text(v) == v.number,
{
    law_written_numbers_read_back(n, i64::MIN as int, i64::MAX as int);
    lemma_numbers_are_bare(n);
}

/// There is no white space around a number.
proof fn lemma_numbers_are_bare(n: int)
    ensures
        trim(decimal_int(n)) == decimal_int(n),
{
    let m = if n < 0 {
        -n
    } else {
        n
    };
    let d = decimal(m as nat);
    let s = decimal_int(n);
    law_written_numbers_read_back(m, m, m);
    let last = d.len() - 1;
    assert(48 <= d[0] as int <= 57 && 48 <= d[last] as int <= 57);
    assert(s.len() > 0 && s[s.len() - 1] == d[last]);
    assert(s[0] == '-' || s[0] == d[0]);
    lemma_not_white(s[0]);
    lemma_not_white(s[s.len() - 1]);
    law_trimming_drops_only_white_space(s);
}

proof fn lemma_not_white(c: char)
    ensures
        48 <= c as int <= 57 || c == '-' ==> !crate::text::white_space(c),
{
}

/// A member is seen as it was read: its key, its own value and each of its items,
/// as many as there are and in order.
pub proof fn law_a_member_is_seen_as_it_was_read(members: Seq<JsonMember>, i: int, k: int)
    requires
        0 <= i < members.len(),
    ensures
        member_views(members).len() == members.len(),
        member_views(members)[i].key == members[i].key@,
        member_views(members)[i].own.integer == int_view(members[i].own.integer),
        member_views(members)[i].own.truncated == int_view(members[i].own.truncated),
        member_views(members)[i].own.number == str_view(members[i].own.number),
        member_views(members)[i].own.text == str_view(members[i].own.text),
        members[i].items is None <==> member_views(members)[i].items is None,
        members[i].items matches Some(items) ==> (member_views(members)[i].items matches Some(
            seen,
        ) && seen.len() == items@.len() && (0 <= k < items@.len() ==> seen[k].integer == int_view(
            items@[k].integer,
        ) && seen[k].text == str_view(items@[k].text) && seen[k].number == str_view(
            items@[k].number,
        ))),
{
}

} // verus!
