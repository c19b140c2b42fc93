//! Searching: what is asked of the index, and how hits are shown.

use crate::error::Error;
use crate::text::split::{
    contains_text, find_text, join, join_strings, occurs_at, split_words, views, words,
};
use crate::text::trim::{copy_range, law_trimming_drops_only_white_space, trim, trimmed};
use crate::text::{chars_of, owned, string_of, white_space};
use crate::types::{Chunk, ParentChunk};
use vstd::prelude::*;

pub mod keyword;

verus! {

/// Whether a query has nothing to search for.
pub open spec fn empty_query(query: Seq<char>) -> bool {
    trim(query).len() == 0
}

/// A term with its quotes doubled.
pub open spec fn doubled(term: Seq<char>) -> Seq<char>
    decreases term.len(),
{
    if term.len() == 0 {
        seq![]
    } else {
        let front = doubled(term.drop_last());
        if term.last() == '"' {
            front.push('"').push('"')
        } else {
            front.push(term.last())
        }
    }
}

/// A term as a quoted string of the full-text query language.
pub open spec fn quoted(term: Seq<char>) -> Seq<char> {
    "\""@ + doubled(term) + "\""@
}

/// Every term of a query, quoted.
pub open spec fn quoted_terms(query: Seq<char>) -> Seq<Seq<char>> {
    words(query).map_values(|term: Seq<char>| quoted(term))
}

/// Exec form of [`quoted`].
fn quote(term: &[char]) -> (text: String)
    ensures
        text@ == quoted(term@),
{
    let mut text = owned("\"");
    let ghost open = text@;
    for i in 0..term.len()
        invariant
            text@ == open + doubled(term@.take(i as int)),
    {
        proof {
            assert(term@.take(i + 1).drop_last() =~= term@.take(i as int));
        }
        let ghost before = doubled(term@.take(i as int));
        if term[i] == '"' {
            text.push('"');
            text.push('"');
            proof {
                assert((open + before).push('"').push('"') =~= open + before.push('"').push('"'));
            }
        } else {
            text.push(term[i]);
            proof {
                assert((open + before).push(term@[i as int]) =~= open + before.push(
                    term@[i as int],
                ));
            }
        }
    }
    proof {
        assert(term@.take(term@.len() as int) =~= term@);
    }
    text.append("\"");
    text
}

/// The full-text query in which every term of `query` is literal text.
pub fn literal_fts_query(query: &str) -> (text: String)
    ensures
        text@ == join(quoted_terms(query@), " "@),
{
    let chars = chars_of(query);
    let parts = split_words(chars.as_slice());
    let ghost expected = quoted_terms(query@);
    let mut list: Vec<String> = Vec::new();
    for i in 0..parts.len()
        invariant
            parts@.map_values(|p: Vec<char>| p@) == words(query@),
            expected == quoted_terms(query@),
            views(list@) == expected.take(i as int),
    {
        let term = quote(parts[i].as_slice());
        let ghost before = views(list@);
        list.push(term);
        proof {
            assert(words(query@)[i as int] == parts@[i as int]@);
            assert(views(list@) =~= before.push(term@));
            assert(expected.take(i + 1) =~= before.push(expected[i as int]));
        }
    }
    proof {
        assert(expected.take(parts@.len() as int) =~= expected);
    }
    join_strings(list.as_slice(), " ")
}

/// The full-text query of a search, refused where it has no term.
pub fn fts_query(query: &str) -> (r: Result<String, Error>)
    ensures
        match r {
            Ok(text) => !empty_query(query@) && text@ == join(quoted_terms(query@), " "@),
            Err(error) => empty_query(query@) && error is EmptyQuery,
        },
{
    let chars = chars_of(query);
    let bare = trimmed(chars.as_slice());
    if bare.len() == 0 {
        return Err(Error::EmptyQuery);
    }
    Ok(literal_fts_query(query))
}

/// How often a quote stands in `s`.
pub open spec fn quote_count(s: Seq<char>) -> nat
    decreases s.len(),
{
    if s.len() == 0 {
        0
    } else {
        quote_count(s.drop_last()) + if s.last() == '"' {
            1nat
        } else {
            0
        }
    }
}

/// A term's doubled quotes are even in number, so a quoted term is closed by
/// its last character and by no other: no term can leave its string and act as
/// an operator.
pub proof fn law_doubled_quotes_are_even(term: Seq<char>)
    ensures
        quote_count(doubled(term)) == 2 * quote_count(term),
    decreases term.len(),
{
    if term.len() > 0 {
        let rest = term.drop_last();
        law_doubled_quotes_are_even(rest);
        let front = doubled(rest);
        reveal_with_fuel(quote_count, 3);
        if term.last() == '"' {
            assert(front.push('"').push('"').drop_last() =~= front.push('"'));
            assert(front.push('"').drop_last() =~= front);
        } else {
            assert(front.push(term.last()).drop_last() =~= front);
        }
    }
}

/// Undoing the doubling of quotes gives the term back: no two terms are quoted alike.
pub proof fn law_quoting_is_injective(a: Seq<char>, b: Seq<char>)
    ensures
        doubled(a) == doubled(b) ==> a == b,
    decreases a.len(),
{
    if doubled(a) == doubled(b) {
        if a.len() == 0 {
            if b.len() > 0 {
                assert(doubled(b).len() > 0);
            }
            assert(a =~= b);
        } else if b.len() == 0 {
            assert(doubled(a).len() > 0);
        } else {
            let x = doubled(a.drop_last());
            let y = doubled(b.drop_last());
            let s = doubled(a);
            assert(a =~= a.drop_last().push(a.last()));
            assert(b =~= b.drop_last().push(b.last()));
            if a.last() == '"' {
                assert(s.last() == '"');
                assert(b.last() == '"');
                assert(s.drop_last().drop_last() =~= x);
                assert(doubled(b).drop_last().drop_last() =~= y);
            } else {
                assert(s.last() == a.last());
                assert(b.last() != '"');
                assert(s.drop_last() =~= x);
                assert(doubled(b).drop_last() =~= y);
            }
            law_quoting_is_injective(a.drop_last(), b.drop_last());
        }
    }
}

// ---------------------------------------------------------------------------
// Hits
// ---------------------------------------------------------------------------

/// Characters that are shown before a match.
pub const SNIPPET_LEAD: usize = 20;

/// Where the excerpt of a text starts: up to twenty characters before the first
/// occurrence of the query, or at the start where there is none.
pub open spec fn is_excerpt_start(s: Seq<char>, query: Seq<char>, start: int) -> bool {
    if contains_text(s, query) {
        exists|at: int|
            #![trigger occurs_at(s, query, at)]
            occurs_at(s, query, at) && (forall|j: int| j < at ==> !occurs_at(s, query, j))
                && start == if at >= SNIPPET_LEAD {
                at - SNIPPET_LEAD
            } else {
                0
            }
    } else {
        start == 0
    }
}

/// At most `max` characters of `s` from `start` on.
pub open spec fn window(s: Seq<char>, start: int, max: int) -> Seq<char> {
    if start >= s.len() {
        seq![]
    } else if s.len() - start <= max {
        s.skip(start)
    } else {
        s.subrange(start, start + max)
    }
}

/// Whether `shown` is the excerpt of `text` for `query`.
pub open spec fn is_snippet(
    shown: Seq<char>,
    text: Seq<char>,
    query: Seq<char>,
    max: int,
) -> bool {
    let s = trim(text);
    if s.len() <= max {
        shown == s
    } else {
        exists|start: int| #[trigger]
            is_excerpt_start(s, query, start) && shown == window(s, start, max)
    }
}

/// An excerpt of `text` of at most `max_chars` characters that shows the query.
pub fn snippet(text: &str, query: &str, max_chars: usize) -> (shown: String)
    ensures
        is_snippet(shown@, text@, query@, max_chars as int),
{
    let chars = chars_of(text);
    let s = trimmed(chars.as_slice());
    if s.len() <= max_chars {
        return string_of(s.as_slice());
    }
    let pattern = chars_of(query);
    let start: usize = match find_text(s.as_slice(), pattern.as_slice()) {
        Some(at) => {
            proof {
                assert(occurs_at(s@, query@, at as int));
            }
            if at >= SNIPPET_LEAD {
                at - SNIPPET_LEAD
            } else {
                0
            }
        },
        None => 0,
    };
    proof {
        assert(is_excerpt_start(s@, query@, start as int));
    }
    let end: usize = if s.len() - start <= max_chars {
        s.len()
    } else {
        start + max_chars
    };
    let piece = copy_range(s.as_slice(), start, end);
    proof {
        assert(piece@ =~= window(s@, start as int, max_chars as int));
    }
    string_of(piece.as_slice())
}

/// A snippet is never longer than asked for, and never empty where there is
/// text to show and room for it.
pub proof fn law_snippet_is_never_empty(
    shown: Seq<char>,
    text: Seq<char>,
    query: Seq<char>,
    max: int,
)
    requires
        is_snippet(shown, text, query, max),
        max > 0,
        trim(text).len() > 0,
        query.len() > 0,
    ensures
        0 < shown.len() <= max,
{
    let s = trim(text);
    if s.len() > max {
        let start = choose|start: int| #[trigger]
            is_excerpt_start(s, query, start) && shown == window(s, start, max);
    }
}

/// Where the room is enough for what is shown before the first match, and for the
/// match, the snippet shows the match.
pub proof fn law_snippet_shows_the_match(
    shown: Seq<char>,
    text: Seq<char>,
    query: Seq<char>,
    max: int,
    at: int,
)
    requires
        is_snippet(shown, text, query, max),
        occurs_at(trim(text), query, at),
        forall|j: int| j < at ==> !occurs_at(trim(text), query, j),
        max >= query.len() + if at <= SNIPPET_LEAD {
            at
        } else {
            SNIPPET_LEAD as int
        },
    ensures
        contains_text(shown, query),
{
    let s = trim(text);
    if s.len() > max {
        let start = choose|start: int| #[trigger]
            is_excerpt_start(s, query, start) && shown == window(s, start, max);
        let first = choose|first: int|
            #![trigger occurs_at(s, query, first)]
            occurs_at(s, query, first) && (forall|j: int| j < first ==> !occurs_at(s, query, j))
                && start == if first >= SNIPPET_LEAD {
                first - SNIPPET_LEAD
            } else {
                0
            };
        assert(first == at);
        let i = at - start;
        assert(shown.subrange(i, i + query.len()) =~= s.subrange(at, at + query.len()));
        assert(occurs_at(shown, query, i));
    }
}

/// What is shown of a hit, but for its score.
#[derive(Debug, Clone)]
pub struct SearchHit {
    pub ranker: &'static str,
    pub unit: &'static str,
    /// Place in the list, from one.
    pub rank: usize,
    pub chunk_id: String,
    pub chat_id: String,
    pub chat_name: String,
    pub sender_nickname: String,
    pub started_at: String,
    pub ended_at: String,
    pub snippet: String,
    pub parent_chunk_ids: Vec<String>,
    pub child_chunk_ids: Vec<String>,
}

/// Whether `hit` shows the chunk `c` at place `idx`.
pub open spec fn shows_chunk(
    hit: SearchHit,
    c: Chunk,
    idx: int,
    ranker: Seq<char>,
    query: Seq<char>,
    snippet_length: int,
) -> bool {
    &&& hit.ranker@ == ranker
    &&& hit.unit@ == "micro_chunk"@
    &&& hit.rank == idx + 1
    &&& hit.chunk_id == c.chunk_id
    &&& hit.chat_id == c.chat_id
    &&& hit.chat_name == c.chat_name
    &&& hit.sender_nickname == c.sender_nickname
    &&& hit.started_at == c.started_at
    &&& hit.ended_at == c.ended_at
    &&& is_snippet(hit.snippet@, c.text@, query, snippet_length)
    &&& hit.parent_chunk_ids == c.parent_chunk_ids
    &&& hit.child_chunk_ids@.len() == 0
}

/// Whether `hit` shows the window `p` at place `idx`.
pub open spec fn shows_window(
    hit: SearchHit,
    p: ParentChunk,
    idx: int,
    ranker: Seq<char>,
    query: Seq<char>,
    snippet_length: int,
) -> bool {
    &&& hit.ranker@ == ranker
    &&& hit.unit@ == "parent_window"@
    &&& hit.rank == idx + 1
    &&& hit.chunk_id == p.parent_id
    &&& hit.chat_id == p.chat_id
    &&& hit.chat_name == p.chat_name
    &&& hit.sender_nickname@ == "multiple"@
    &&& hit.started_at == p.started_at
    &&& hit.ended_at == p.ended_at
    &&& is_snippet(hit.snippet@, p.text@, query, snippet_length)
    &&& hit.parent_chunk_ids@.len() == 0
    &&& hit.child_chunk_ids == p.child_chunk_ids
}

/// Whether nothing is missing.
pub open spec fn all_found<T>(found: Seq<(String, Option<T>)>) -> bool {
    forall|i: int| 0 <= i < found.len() ==> (#[trigger] found[i]).1 is Some
}

/// Whether `error` names the first id of which nothing was found.
pub open spec fn names_first_missing<T>(error: Error, found: Seq<(String, Option<T>)>) -> bool {
    exists|k: int|
        0 <= k < found.len() && (#[trigger] found[k]).1 is None && (forall|j: int|
            0 <= j < k ==> (#[trigger] found[j]).1 is Some) && error is MissingChunk
            && error->MissingChunk_0 == found[k].0
}

/// The hits for ranked chunks: each id with the chunk that is stored under it.
/// An id without a chunk is an error.
pub fn hydrate_hits(
    found: Vec<(String, Option<Chunk>)>,
    ranker: &'static str,
    query: &str,
    snippet_length: usize,
) -> (r: Result<Vec<SearchHit>, Error>)
    ensures
        match r {
            Ok(hits) => all_found(found@) && hits@.len() == found@.len() && (forall|i: int|
                0 <= i < hits@.len() ==> shows_chunk(
                    #[trigger] hits@[i],
                    found@[i].1->0,
                    i,
                    ranker@,
                    query@,
                    snippet_length as int,
                )),
            Err(error) => names_first_missing(error, found@),
        },
{
    let mut hits: Vec<SearchHit> = Vec::new();
    let ghost all = found@;
    let total: usize = found.len();
    for pair in iter: found
        invariant
            iter.seq() == all,
            all.len() == total,
            hits@.len() == iter.index(),
            forall|i: int| 0 <= i < iter.index() ==> (#[trigger] all[i]).1 is Some,
            forall|i: int|
                0 <= i < hits@.len() ==> shows_chunk(
                    #[trigger] hits@[i],
                    all[i].1->0,
                    i,
                    ranker@,
                    query@,
                    snippet_length as int,
                ),
    {
        let idx: usize = hits.len();
        proof {
            assert(pair == all[iter.index() as int]);
        }
        let (id, chunk) = pair;
        match chunk {
            None => {
                return Err(Error::MissingChunk(id));
            },
            Some(chunk) => {
                let excerpt = snippet(chunk.text.as_str(), query, snippet_length);
                hits.push(
                    SearchHit {
                        ranker,
                        unit: "micro_chunk",
                        rank: idx + 1,
                        chunk_id: chunk.chunk_id,
                        chat_id: chunk.chat_id,
                        chat_name: chunk.chat_name,
                        sender_nickname: chunk.sender_nickname,
                        started_at: chunk.started_at,
                        ended_at: chunk.ended_at,
                        snippet: excerpt,
                        parent_chunk_ids: chunk.parent_chunk_ids,
                        child_chunk_ids: Vec::new(),
                    },
                );
            },
        }
    }
    Ok(hits)
}

/// The hits for ranked windows, in the same way.
pub fn hydrate_parent_hits(
    found: Vec<(String, Option<ParentChunk>)>,
    ranker: &'static str,
    query: &str,
    snippet_length: usize,
) -> (r: Result<Vec<SearchHit>, Error>)
    ensures
        match r {
            Ok(hits) => all_found(found@) && hits@.len() == found@.len() && (forall|i: int|
                0 <= i < hits@.len() ==> shows_window(
                    #[trigger] hits@[i],
                    found@[i].1->0,
                    i,
                    ranker@,
                    query@,
                    snippet_length as int,
                )),
            Err(error) => names_first_missing(error, found@),
        },
{
    let mut hits: Vec<SearchHit> = Vec::new();
    let ghost all = found@;
    let total: usize = found.len();
    for pair in iter: found
        invariant
            iter.seq() == all,
            all.len() == total,
            hits@.len() == iter.index(),
            forall|i: int| 0 <= i < iter.index() ==> (#[trigger] all[i]).1 is Some,
            forall|i: int|
                0 <= i < hits@.len() ==> shows_window(
                    #[trigger] hits@[i],
                    all[i].1->0,
                    i,
                    ranker@,
                    query@,
                    snippet_length as int,
                ),
    {
        let idx: usize = hits.len();
        proof {
            assert(pair == all[iter.index() as int]);
        }
        let (id, window) = pair;
        match window {
            None => {
                return Err(Error::MissingChunk(id));
            },
            Some(window) => {
                let excerpt = snippet(window.text.as_str(), query, snippet_length);
                hits.push(
                    SearchHit {
                        ranker,
                        unit: "parent_window",
                        rank: idx + 1,
                        chunk_id: window.parent_id,
                        chat_id: window.chat_id,
                        chat_name: window.chat_name,
                        sender_nickname: owned("multiple"),
                        started_at: window.started_at,
                        ended_at: window.ended_at,
                        snippet: excerpt,
                        parent_chunk_ids: Vec::new(),
                        child_chunk_ids: window.child_chunk_ids,
                    },
                );
            },
        }
    }
    Ok(hits)
}

// ---------------------------------------------------------------------------
// Laws
// ---------------------------------------------------------------------------

/// A query is empty where nothing in it can be seen, and only there.
pub proof fn law_only_white_space_is_no_query(query: Seq<char>)
    ensures
        empty_query(query) <==> forall|i: int|
            0 <= i < query.len() ==> white_space(#[trigger] query[i]),
{
    law_trimming_drops_only_white_space(query);
    let (from, to) = choose|from: int, to: int|
        0 <= from <= to <= query.len() && trim(query) == #[trigger] query.subrange(from, to) && (
        forall|i: int| 0 <= i < from || to <= i < query.len() ==> white_space(#[trigger] query[i]));
    if trim(query).len() > 0 {
        assert(trim(query)[0] == query[from]);
        assert(!white_space(query[from]));
    }
}

/// Quoting goes character by character: a quote becomes two, anything else
/// stays as it is.
pub proof fn law_quoting_goes_by_character(a: Seq<char>, b: Seq<char>)
    ensures
        doubled(a + b) == doubled(a) + doubled(b),
        !a.contains('"') ==> doubled(a) == a,
        doubled(seq!['"']) == seq!['"', '"'],
        quoted(a) == seq!['"'] + doubled(a) + seq!['"'],
    decreases b.len(), a.len(),
{
    reveal_strlit("\"");
    assert("\""@ =~= seq!['"']);
    reveal_with_fuel(doubled, 2);
    assert(seq!['"'].drop_last() =~= Seq::<char>::empty());
    assert(doubled(seq!['"']) =~= seq!['"', '"']);
    if a.len() > 0 && !a.contains('"') {
        let front = a.drop_last();
        assert(!front.contains('"')) by {
            if front.contains('"') {
                let i = choose|i: int| 0 <= i < front.len() && front[i] == '"';
                assert(a[i] == '"');
            }
        }
        lemma_plain_term(front);
        assert(a.contains(a.last()));
        assert(front.push(a.last()) =~= a);
    }
    if b.len() == 0 {
        assert(a + b =~= a);
    } else {
        law_quoting_goes_by_character(a, b.drop_last());
        assert((a + b).drop_last() =~= a + b.drop_last());
        assert((a + b).last() == b.last());
        assert(doubled(a + b) =~= doubled(a) + doubled(b));
    }
}

proof fn lemma_plain_term(a: Seq<char>)
    requires
        !a.contains('"'),
    ensures
        doubled(a) == a,
    decreases a.len(),
{
    if a.len() > 0 {
        let front = a.drop_last();
        assert(!front.contains('"')) by {
            if front.contains('"') {
                let i = choose|i: int| 0 <= i < front.len() && front[i] == '"';
                assert(a[i] == '"');
            }
        }
        lemma_plain_term(front);
        assert(a.contains(a.last()));
        assert(front.push(a.last()) =~= a);
    } else {
        assert(doubled(a) =~= a);
    }
}

/// Every word of a query is asked for, as one quoted term, in order.
pub proof fn law_every_word_is_asked_for(query: Seq<char>)
    ensures
        quoted_terms(query).len() == words(query).len(),
        forall|i: int|
            0 <= i < words(query).len() ==> #[trigger] quoted_terms(query)[i] == seq!['"'] + doubled(
                words(query)[i],
            ) + seq!['"'],
        words(query).len() == 1 ==> join(quoted_terms(query), " "@) == seq!['"'] + doubled(
            words(query)[0],
        ) + seq!['"'],
{
    reveal_strlit("\"");
    assert("\""@ =~= seq!['"']);
}

/// An excerpt is a piece of the text: a short text but for white space at its
/// ends, else as many characters as asked for or up to its end, from the start
/// where the query does not occur.
pub proof fn law_a_snippet_is_a_piece_of_the_text(
    shown: Seq<char>,
    text: Seq<char>,
    query: Seq<char>,
    max: int,
)
    requires
        is_snippet(shown, text, query, max),
        max >= 0,
    ensures
        shown.len() <= max,
        exists|at: int|
            0 <= at && at + shown.len() <= text.len() && shown == #[trigger] text.subrange(
                at,
                at + shown.len(),
            ),
        text.len() <= max && (text.len() > 0 ==> !white_space(text[0]) && !white_space(
            text[text.len() - 1],
        )) ==> shown == text,
        text.len() > max && !white_space(text[0]) && !white_space(text[text.len() - 1])
            && !contains_text(text, query) ==> shown == text.take(max),
{
    let s = trim(text);
    law_trimming_drops_only_white_space(text);
    let (from, to) = choose|from: int, to: int|
        0 <= from <= to <= text.len() && s == #[trigger] text.subrange(from, to) && (forall|i: int|
            0 <= i < from || to <= i < text.len() ==> white_space(#[trigger] text[i]));
    if s.len() <= max {
        assert(shown =~= text.subrange(from, from + shown.len()));
        if text.len() == 0 {
            assert(s =~= text);
        }
    } else {
        let start = choose|start: int| #[trigger]
            is_excerpt_start(s, query, start) && shown == window(s, start, max);
        if contains_text(s, query) {
            let first = choose|first: int|
                #![trigger occurs_at(s, query, first)]
                occurs_at(s, query, first) && (forall|j: int| j < first ==> !occurs_at(s, query, j))
                    && start == if first >= SNIPPET_LEAD {
                    first - SNIPPET_LEAD
                } else {
                    0
                };
            assert(0 <= start <= s.len());
        }
        if start >= s.len() {
            assert(shown =~= text.subrange(0, 0));
        } else {
            assert(shown =~= text.subrange(from + start, from + start + shown.len()));
        }
        if !white_space(text[0]) && !white_space(text[text.len() - 1]) && !contains_text(
            text,
            query,
        ) {
            assert(shown =~= text.take(max));
        }
    }
}

/// A hit shows the chunk that it stands for, and its place in the list.
pub proof fn law_a_hit_shows_its_chunk(
    hit: SearchHit,
    c: Chunk,
    idx: int,
    ranker: Seq<char>,
    query: Seq<char>,
    max: int,
)
    requires
        shows_chunk(hit, c, idx, ranker, query, max),
    ensures
        hit.rank == idx + 1,
        hit.ranker@ == ranker,
        hit.chunk_id@ == c.chunk_id@,
        hit.chat_id@ == c.chat_id@,
        hit.chat_name@ == c.chat_name@,
        hit.sender_nickname@ == c.sender_nickname@,
        hit.started_at@ == c.started_at@,
        hit.ended_at@ == c.ended_at@,
        hit.parent_chunk_ids@ == c.parent_chunk_ids@,
        c.text@.len() <= max && c.text@.len() > 0 && !white_space(c.text@[0]) && !white_space(
            c.text@[c.text@.len() - 1],
        ) ==> hit.snippet@ == c.text@,
        is_snippet(hit.snippet@, c.text@, query, max),
        hit.unit@ == "micro_chunk"@,
        max >= 0 ==> hit.snippet@.len() <= max,
{
    if max >= 0 {
        law_a_snippet_is_a_piece_of_the_text(hit.snippet@, c.text@, query, max);
    }
}

/// A hit shows the window that it stands for, and its place in the list.
pub proof fn law_a_hit_shows_its_window(
    hit: SearchHit,
    p: ParentChunk,
    idx: int,
    ranker: Seq<char>,
    query: Seq<char>,
    max: int,
)
    requires
        shows_window(hit, p, idx, ranker, query, max),
    ensures
        hit.rank == idx + 1,
        hit.ranker@ == ranker,
        hit.chunk_id@ == p.parent_id@,
        hit.chat_id@ == p.chat_id@,
        hit.chat_name@ == p.chat_name@,
        hit.started_at@ == p.started_at@,
        hit.ended_at@ == p.ended_at@,
        hit.child_chunk_ids@ == p.child_chunk_ids@,
        p.text@.len() <= max && p.text@.len() > 0 && !white_space(p.text@[0]) && !white_space(
            p.text@[p.text@.len() - 1],
        ) ==> hit.snippet@ == p.text@,
        is_snippet(hit.snippet@, p.text@, query, max),
        hit.unit@ == "parent_window"@,
        max >= 0 ==> hit.snippet@.len() <= max,
{
    if max >= 0 {
        law_a_snippet_is_a_piece_of_the_text(hit.snippet@, p.text@, query, max);
    }
}

/// Of the ids of which nothing was found the first is named; and nothing is named
/// where all were found.
pub proof fn law_the_first_missing_is_named<T>(error: Error, found: Seq<(String, Option<T>)>, k: int)
    ensures
        names_first_missing(error, found) ==> !all_found(found) && error is MissingChunk,
        names_first_missing(error, found) && 0 <= k < found.len() && found[k].1 is None && (forall|
            j: int,
        |
            0 <= j < k ==> (#[trigger] found[j]).1 is Some) ==> error->MissingChunk_0 == found[k].0,
        all_found(found) && 0 <= k < found.len() ==> found[k].1 is Some,
{
    if names_first_missing(error, found) {
        let m = choose|m: int|
            0 <= m < found.len() && (#[trigger] found[m]).1 is None && (forall|j: int|
                0 <= j < m ==> (#[trigger] found[j]).1 is Some) && error is MissingChunk
                && error->MissingChunk_0 == found[m].0;
        if 0 <= k < found.len() && found[k].1 is None {
            assert(m <= k) by {
                if k < m {
                    assert(found[k].1 is Some);
                }
            }
            if m < k && (forall|j: int| 0 <= j < k ==> (#[trigger] found[j]).1 is Some) {
                assert(found[m].1 is Some);
            }
        }
    }
}

/// An excerpt of a long text starts twenty characters before the first place where
/// the query is, or at the start of the text where there are not as many; and runs
/// for as long as was asked for.
pub proof fn law_an_excerpt_leads_up_to_the_match(
    shown: Seq<char>,
    text: Seq<char>,
    query: Seq<char>,
    max: int,
    at: int,
)
    requires
        is_snippet(shown, text, query, max),
        trim(text).len() > max,
        max > 0,
        occurs_at(trim(text), query, at),
        forall|j: int| j < at ==> !occurs_at(trim(text), query, j),
    ensures
        at >= 20 && at - 20 + max <= trim(text).len() ==> shown == trim(text).subrange(
            at - 20,
            at - 20 + max,
        ),
        at < 20 ==> shown == trim(text).take(max),
{
    let s = trim(text);
    assert(contains_text(s, query));
    let start = choose|start: int| #[trigger]
        is_excerpt_start(s, query, start) && shown == window(s, start, max);
    let first = choose|first: int|
        #![trigger occurs_at(s, query, first)]
        occurs_at(s, query, first) && (forall|j: int| j < first ==> !occurs_at(s, query, j))
            && start == if first >= SNIPPET_LEAD {
            first - SNIPPET_LEAD
        } else {
            0
        };
    assert(first == at);
    if at >= 20 && at - 20 + max <= s.len() {
        assert(shown =~= s.subrange(at - 20, at - 20 + max));
    }
    if at < 20 {
        assert(shown =~= s.take(max));
    }
}

} // verus!
