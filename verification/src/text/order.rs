//! The order of texts: character by character, a prefix before what it starts.
//!
//! UTF-8 keeps the order of code points, so this is also the order of the
//! encoded bytes, in which `str` is ordered and in which SQLite orders text.

use crate::text::split::views;
use crate::text::{chars_of, code_point, same};
use vstd::prelude::*;
use vstd::relations::{sorted_by, total_ordering};

verus! {

/// Whether `a` comes no later than `b`.
pub open spec fn le(a: Seq<char>, b: Seq<char>) -> bool
    decreases a.len(),
{
    if a.len() == 0 {
        true
    } else if b.len() == 0 {
        false
    } else if a[0] != b[0] {
        a[0] < b[0]
    } else {
        le(a.drop_first(), b.drop_first())
    }
}

/// Whether `a` comes before `b`.
pub open spec fn lt(a: Seq<char>, b: Seq<char>) -> bool {
    !le(b, a)
}

/// [`le`] as a function value.
pub open spec fn le_fn() -> spec_fn(Seq<char>, Seq<char>) -> bool {
    |a: Seq<char>, b: Seq<char>| le(a, b)
}

/// The order is reflexive.
pub proof fn lemma_le_refl(a: Seq<char>)
    ensures
        le(a, a),
    decreases a.len(),
{
    if a.len() > 0 {
        lemma_le_refl(a.drop_first());
    }
}

/// Any two texts are comparable.
pub proof fn lemma_le_total(a: Seq<char>, b: Seq<char>)
    ensures
        le(a, b) || le(b, a),
    decreases a.len(),
{
    if a.len() > 0 && b.len() > 0 && a[0] == b[0] {
        lemma_le_total(a.drop_first(), b.drop_first());
    }
}

/// Two texts that come no later than each other are equal.
pub proof fn lemma_le_antisymmetric(a: Seq<char>, b: Seq<char>)
    requires
        le(a, b),
        le(b, a),
    ensures
        a == b,
    decreases a.len(),
{
    if a.len() > 0 && b.len() > 0 {
        lemma_le_antisymmetric(a.drop_first(), b.drop_first());
        assert(a == seq![a[0]] + a.drop_first());
        assert(b == seq![b[0]] + b.drop_first());
    } else {
        assert(a == b);
    }
}

/// The order is transitive.
pub proof fn lemma_le_transitive(a: Seq<char>, b: Seq<char>, c: Seq<char>)
    requires
        le(a, b),
        le(b, c),
    ensures
        le(a, c),
    decreases a.len(),
{
    if a.len() > 0 && b.len() > 0 && c.len() > 0 && a[0] == b[0] && b[0] == c[0] {
        lemma_le_transitive(a.drop_first(), b.drop_first(), c.drop_first());
    }
}

/// The order of texts is a total order.
pub proof fn lemma_le_total_ordering()
    ensures
        total_ordering(le_fn()),
{
    let r = le_fn();
    assert forall|a: Seq<char>| #[trigger] r(a, a) by {
        lemma_le_refl(a);
    }
    assert forall|a: Seq<char>, b: Seq<char>| #[trigger] r(a, b) && #[trigger] r(b, a) implies a
        == b by {
        lemma_le_antisymmetric(a, b);
    }
    assert forall|a: Seq<char>, b: Seq<char>, c: Seq<char>| #[trigger]
        r(a, b) && #[trigger] r(b, c) implies r(a, c) by {
        lemma_le_transitive(a, b, c);
    }
    assert forall|a: Seq<char>, b: Seq<char>| #[trigger] r(a, b) || #[trigger] r(b, a) by {
        lemma_le_total(a, b);
    }
}

/// Exec form of [`le`] on characters.
fn chars_le(a: &[char], b: &[char]) -> (r: bool)
    ensures
        r == le(a@, b@),
{
    let mut i: usize = 0;
    proof {
        assert(a@.skip(0) == a@);
        assert(b@.skip(0) == b@);
    }
    while i < a.len() && i < b.len()
        invariant
            i <= a@.len(),
            i <= b@.len(),
            le(a@, b@) == le(a@.skip(i as int), b@.skip(i as int)),
        decreases a@.len() - i,
    {
        let x: u32 = code_point(a[i]);
        let y: u32 = code_point(b[i]);
        proof {
            assert(a@.skip(i as int)[0] == a@[i as int]);
            assert(b@.skip(i as int)[0] == b@[i as int]);
            assert(a@.skip(i as int).drop_first() == a@.skip(i + 1));
            assert(b@.skip(i as int).drop_first() == b@.skip(i + 1));
        }
        if x != y {
            return x < y;
        }
        i = i + 1;
    }
    i == a.len()
}

/// Whether `a` comes no later than `b`.
pub fn text_le(a: &str, b: &str) -> (r: bool)
    ensures
        r == le(a@, b@),
{
    let x = chars_of(a);
    let y = chars_of(b);
    chars_le(x.as_slice(), y.as_slice())
}

/// Whether `a` comes before `b`.
pub fn text_lt(a: &str, b: &str) -> (r: bool)
    ensures
        r == lt(a@, b@),
{
    !text_le(b, a)
}

/// `parts` in ascending order.
pub open spec fn sorted(parts: Seq<Seq<char>>) -> Seq<Seq<char>> {
    parts.sort_by(le_fn())
}

/// A sorted rearrangement is the sorted sequence.
pub proof fn lemma_sorted_is(parts: Seq<Seq<char>>, result: Seq<Seq<char>>)
    requires
        sorted_by(result, le_fn()),
        result.to_multiset() == parts.to_multiset(),
    ensures
        result == sorted(parts),
{
    lemma_le_total_ordering();
    parts.lemma_sort_by_ensures(le_fn());
    vstd::seq_lib::lemma_sorted_unique(result, sorted(parts), le_fn());
}

/// Sorts `parts` in place.
pub fn sort_strings(parts: Vec<String>) -> (result: Vec<String>)
    ensures
        views(result@) == sorted(views(parts@)),
{
    let mut result: Vec<String> = Vec::new();
    let total: usize = parts.len();
    let mut i: usize = 0;
    proof {
        assert(views(result@) == views(parts@).take(0));
    }
    while i < total
        invariant
            i <= total == parts@.len(),
            views(result@).to_multiset() == views(parts@).take(i as int).to_multiset(),
            sorted_by(views(result@), le_fn()),
            result@.len() == i,
        decreases total - i,
    {
        let item: String = parts[i].clone();
        let mut at: usize = 0;
        while at < result.len() && text_le(result[at].as_str(), item.as_str())
            invariant
                at <= result@.len(),
                forall|k: int| 0 <= k < at ==> le(#[trigger] result@[k]@, item@),
            decreases result@.len() - at,
        {
            at = at + 1;
        }
        let ghost before = views(result@);
        let ghost added = item@;
        proof {
            lemma_insert_sorted(before, at as int, added);
        }
        result.insert(at, item);
        proof {
            assert(views(result@) == before.insert(at as int, added));
            vstd::seq_lib::to_multiset_insert(before, at as int, added);
            assert(views(parts@).take(i + 1) == views(parts@).take(i as int).push(added));
            vstd::seq_lib::to_multiset_build(views(parts@).take(i as int), added);
        }
        i = i + 1;
    }
    proof {
        assert(views(parts@).take(total as int) == views(parts@));
        lemma_sorted_is(views(parts@), views(result@));
    }
    result
}

/// Inserting after the last text that is not later keeps the order.
proof fn lemma_insert_sorted(s: Seq<Seq<char>>, at: int, x: Seq<char>)
    requires
        sorted_by(s, le_fn()),
        0 <= at <= s.len(),
        forall|k: int| 0 <= k < at ==> le(#[trigger] s[k], x),
        at < s.len() ==> !le(s[at], x),
    ensures
        sorted_by(s.insert(at, x), le_fn()),
{
    let t = s.insert(at, x);
    let r = le_fn();
    assert forall|i: int, j: int| 0 <= i < j < t.len() implies #[trigger] r(t[i], t[j]) by {
        if j < at {
            assert(r(s[i], s[j]));
        } else if j == at {
            assert(le(s[i], x));
        } else if i == at {
            lemma_le_total(x, s[at]);
            if j - 1 > at {
                assert(r(s[at], s[j - 1]));
                lemma_le_transitive(x, s[at], s[j - 1]);
            }
        } else if i < at {
            assert(r(s[i], s[j - 1]));
        } else {
            assert(r(s[i - 1], s[j - 1]));
        }
    }
}

/// The parts without those that repeat the one before them.
pub open spec fn squeezed(parts: Seq<Seq<char>>) -> Seq<Seq<char>>
    decreases parts.len(),
{
    if parts.len() == 0 {
        seq![]
    } else {
        let front = squeezed(parts.drop_last());
        if parts.len() > 1 && parts[parts.len() - 2] == parts.last() {
            front
        } else {
            front.push(parts.last())
        }
    }
}

/// The distinct parts, in ascending order.
pub open spec fn distinct(parts: Seq<Seq<char>>) -> Seq<Seq<char>> {
    squeezed(sorted(parts))
}

/// The distinct texts of `parts`, in ascending order.
pub fn sort_distinct(parts: Vec<String>) -> (result: Vec<String>)
    ensures
        views(result@) == distinct(views(parts@)),
{
    let ordered = sort_strings(parts);
    let ghost all = views(ordered@);
    let mut result: Vec<String> = Vec::new();
    proof {
        assert(views(result@) == squeezed(all.take(0)));
    }
    for i in 0..ordered.len()
        invariant
            all == views(ordered@),
            views(result@) == squeezed(all.take(i as int)),
    {
        proof {
            assert(all.take(i + 1).drop_last() == all.take(i as int));
            assert(all.take(i + 1).last() == ordered@[i as int]@);
            assert(i > 0 ==> all.take(i + 1)[i - 1] == ordered@[i - 1]@);
        }
        if i == 0 || !same(ordered[i - 1].as_str(), ordered[i].as_str()) {
            let ghost before = views(result@);
            result.push(ordered[i].clone());
            proof {
                assert(views(result@) == before.push(ordered@[i as int]@));
            }
        }
    }
    proof {
        assert(all.take(ordered@.len() as int) == all);
    }
    result
}

/// What is kept of sorted parts is strictly ascending, and holds what they hold.
proof fn lemma_squeezed(parts: Seq<Seq<char>>)
    requires
        sorted_by(parts, le_fn()),
    ensures
        forall|i: int, j: int|
            0 <= i < j < squeezed(parts).len() ==> lt(
                #[trigger] squeezed(parts)[i],
                #[trigger] squeezed(parts)[j],
            ),
        forall|p: Seq<char>| squeezed(parts).contains(p) <==> #[trigger] parts.contains(p),
        parts.len() > 0 ==> squeezed(parts).len() > 0 && squeezed(parts).last() == parts.last(),
    decreases parts.len(),
{
    if parts.len() > 0 {
        let front = parts.drop_last();
        let r = le_fn();
        assert forall|i: int, j: int| 0 <= i < j < front.len() implies #[trigger] r(
            front[i],
            front[j],
        ) by {
            assert(r(parts[i], parts[j]));
        }
        lemma_squeezed(front);
        let kept = squeezed(front);
        let all = squeezed(parts);
        let last = parts.last();
        assert(parts[parts.len() - 1] == last);
        if parts.len() > 1 {
            assert(front.last() == parts[parts.len() - 2]);
            assert(r(parts[parts.len() - 2], parts[parts.len() - 1]));
        }
        assert forall|i: int, j: int| 0 <= i < j < all.len() implies lt(
            #[trigger] all[i],
            #[trigger] all[j],
        ) by {
            if j < kept.len() {
                assert(all[i] == kept[i] && all[j] == kept[j]);
            } else {
                assert(all[j] == last && all[i] == kept[i]);
                let top = kept.last();
                if le(last, kept[i]) {
                    if i < kept.len() - 1 {
                        assert(lt(kept[i], kept[kept.len() - 1]));
                        lemma_le_total(kept[i], top);
                        lemma_le_transitive(top, last, kept[i]);
                    }
                    lemma_le_antisymmetric(top, last);
                }
            }
        }
        assert forall|p: Seq<char>| all.contains(p) <==> #[trigger] parts.contains(p) by {
            if parts.contains(p) {
                let k = choose|k: int| 0 <= k < parts.len() && parts[k] == p;
                if k < front.len() {
                    assert(front[k] == p);
                    assert(front.contains(p));
                    let m = choose|m: int| 0 <= m < kept.len() && kept[m] == p;
                    assert(all[m] == p);
                } else {
                    assert(all[all.len() - 1] == p);
                }
            }
            if all.contains(p) {
                let m = choose|m: int| 0 <= m < all.len() && all[m] == p;
                if m < kept.len() {
                    assert(kept[m] == p);
                    assert(kept.contains(p));
                    assert(front.contains(p));
                    let k = choose|k: int| 0 <= k < front.len() && front[k] == p;
                    assert(parts[k] == p);
                }
            }
        }
    }
}

/// The distinct parts are strictly ascending, and are those of the parts.
pub proof fn lemma_distinct(parts: Seq<Seq<char>>)
    ensures
        forall|i: int, j: int|
            0 <= i < j < distinct(parts).len() ==> lt(
                #[trigger] distinct(parts)[i],
                #[trigger] distinct(parts)[j],
            ),
        forall|p: Seq<char>| distinct(parts).contains(p) <==> #[trigger] parts.contains(p),
{
    lemma_le_total_ordering();
    parts.lemma_sort_by_ensures(le_fn());
    let all = sorted(parts);
    lemma_squeezed(all);
    parts.to_multiset_ensures();
    all.to_multiset_ensures();
    assert forall|p: Seq<char>| distinct(parts).contains(p) <==> #[trigger] parts.contains(p) by {
        assert(all.contains(p) <==> all.to_multiset().count(p) > 0);
        assert(parts.contains(p) <==> parts.to_multiset().count(p) > 0);
    }
}

/// Texts are ordered by the first character in which they differ, and a text
/// comes before what it is the beginning of.
pub proof fn law_the_first_difference_decides(
    common: Seq<char>,
    a: Seq<char>,
    b: Seq<char>,
)
    ensures
        le(common, common + a),
        a.len() > 0 ==> lt(common, common + a),
        a.len() > 0 && b.len() > 0 && (a[0] as int) < (b[0] as int) ==> lt(common + a, common + b),
    decreases common.len(),
{
    if common.len() == 0 {
        assert(common + a =~= a);
        assert(common + b =~= b);
    } else {
        let rest = common.drop_first();
        law_the_first_difference_decides(rest, a, b);
        assert((common + a).drop_first() =~= rest + a);
        assert((common + b).drop_first() =~= rest + b);
    }
}

/// Texts are put into ascending order: none is lost, none added, and none stands
/// before a lesser one.
pub proof fn law_sorting_puts_the_least_first(parts: Seq<Seq<char>>)
    ensures
        sorted(parts).to_multiset() == parts.to_multiset(),
        sorted(parts).len() == parts.len(),
        forall|i: int, j: int|
            0 <= i < j < sorted(parts).len() ==> le(
                #[trigger] sorted(parts)[i],
                #[trigger] sorted(parts)[j],
            ),
{
    lemma_le_total_ordering();
    parts.lemma_sort_by_ensures(le_fn());
    parts.to_multiset_ensures();
    sorted(parts).to_multiset_ensures();
    let r = le_fn();
    let all = sorted(parts);
    assert forall|i: int, j: int| 0 <= i < j < all.len() implies le(
        #[trigger] all[i],
        #[trigger] all[j],
    ) by {
        assert(r(all[i], all[j]));
    }
}

} // verus!
