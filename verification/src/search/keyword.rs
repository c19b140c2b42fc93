//! Keyword search: the chunks that hold a text as it stands.

use crate::error::Error;
use crate::search::{empty_query, hydrate_hits, is_snippet, shows_chunk, SearchHit};
use crate::text::order::{
    le, lemma_le_antisymmetric, lemma_le_total, lemma_le_transitive, lt, text_le, text_lt,
};
use crate::text::split::{
    contains_text, law_every_character_has_to_match, occurs_at, text_contains,
};
use crate::text::trim::{trim, trimmed};
use crate::text::{chars_of, string_of};
use crate::types::Chunk;
use vstd::prelude::*;

verus! {

/// What a keyword search looks for: the query without white space at its ends.
pub fn keyword_term(query: &str) -> (r: Result<String, Error>)
    ensures
        match r {
            Ok(term) => !empty_query(query@) && term@ == trim(query@),
            Err(error) => empty_query(query@) && error is EmptyQuery,
        },
{
    let chars = chars_of(query);
    let bare = trimmed(chars.as_slice());
    if bare.len() == 0 {
        return Err(Error::EmptyQuery);
    }
    Ok(string_of(bare.as_slice()))
}

/// Whether `a` is listed no later than `b`: by start, then by id.
pub open spec fn listed_before(a: Chunk, b: Chunk) -> bool {
    lt(a.started_at@, b.started_at@) || (a.started_at@ == b.started_at@ && le(
        a.chunk_id@,
        b.chunk_id@,
    ))
}

/// Whether the chunks are in the order in which they are listed.
pub open spec fn listed(chunks: Seq<Chunk>) -> bool {
    forall|i: int, j: int|
        0 <= i < j < chunks.len() ==> listed_before(#[trigger] chunks[i], #[trigger] chunks[j])
}

/// The chunks that hold the term.
pub open spec fn holding(chunks: Seq<Chunk>, term: Seq<char>) -> Seq<Chunk>
    decreases chunks.len(),
{
    if chunks.len() == 0 {
        seq![]
    } else {
        let front = holding(chunks.drop_last(), term);
        if contains_text(chunks.last().text@, term) {
            front.push(chunks.last())
        } else {
            front
        }
    }
}

/// Whether `ranked` are the chunks that hold the term, in order.
pub open spec fn is_listing(ranked: Seq<Chunk>, chunks: Seq<Chunk>, term: Seq<char>) -> bool {
    listed(ranked) && ranked.to_multiset() == holding(chunks, term).to_multiset()
}

/// Whether `hits` show the first `limit` of the chunks that hold the query.
pub open spec fn finds(
    hits: Seq<SearchHit>,
    chunks: Seq<Chunk>,
    query: Seq<char>,
    limit: int,
    snippet_length: int,
) -> bool {
    exists|ranked: Seq<Chunk>| #[trigger]
        is_listing(ranked, chunks, trim(query)) && hits.len() == if ranked.len() <= limit {
            ranked.len() as int
        } else {
            limit
        } && forall|i: int|
            0 <= i < hits.len() ==> shows_chunk(
                #[trigger] hits[i],
                ranked[i],
                i,
                "keyword"@,
                query,
                snippet_length,
            )
}

/// Exec form of [`listed_before`].
fn is_listed_before(a: &Chunk, b: &Chunk) -> (r: bool)
    ensures
        r == listed_before(*a, *b),
{
    let (x, y) = (a.started_at.as_str(), b.started_at.as_str());
    proof {
        if le(x@, y@) && le(y@, x@) {
            lemma_le_antisymmetric(x@, y@);
        }
        lemma_le_total(x@, y@);
    }
    text_lt(x, y) || (text_le(x, y) && text_le(a.chunk_id.as_str(), b.chunk_id.as_str()))
}

/// One of two chunks is listed before the other.
proof fn lemma_listed_total(a: Chunk, b: Chunk)
    ensures
        listed_before(a, b) || listed_before(b, a),
{
    lemma_le_total(a.started_at@, b.started_at@);
    lemma_le_total(a.chunk_id@, b.chunk_id@);
    if le(a.started_at@, b.started_at@) && le(b.started_at@, a.started_at@) {
        lemma_le_antisymmetric(a.started_at@, b.started_at@);
    }
}

/// The order of the list is transitive.
proof fn lemma_listed_transitive(a: Chunk, b: Chunk, c: Chunk)
    requires
        listed_before(a, b),
        listed_before(b, c),
    ensures
        listed_before(a, c),
{
    let (x, y, z) = (a.started_at@, b.started_at@, c.started_at@);
    lemma_le_total(x, y);
    lemma_le_total(y, z);
    if le(z, x) {
        lemma_le_transitive(y, z, x);
        lemma_le_transitive(z, x, y);
        if x == y && y == z {
            lemma_le_transitive(a.chunk_id@, b.chunk_id@, c.chunk_id@);
        }
    }
}

/// Inserting behind the last chunk that is listed no later keeps the order.
proof fn lemma_insert_listed(s: Seq<Chunk>, at: int, x: Chunk)
    requires
        listed(s),
        0 <= at <= s.len(),
        forall|k: int| 0 <= k < at ==> listed_before(#[trigger] s[k], x),
        at < s.len() ==> !listed_before(s[at], x),
    ensures
        listed(s.insert(at, x)),
{
    let t = s.insert(at, x);
    assert forall|i: int, j: int| 0 <= i < j < t.len() implies listed_before(
        #[trigger] t[i],
        #[trigger] t[j],
    ) by {
        if j < at {
            assert(listed_before(s[i], s[j]));
        } else if j == at {
            assert(listed_before(s[i], x));
        } else if i == at {
            lemma_listed_total(x, s[at]);
            if j - 1 > at {
                assert(listed_before(s[at], s[j - 1]));
                lemma_listed_transitive(x, s[at], s[j - 1]);
            }
        } else if i < at {
            assert(listed_before(s[i], s[j - 1]));
        } else {
            assert(listed_before(s[i - 1], s[j - 1]));
        }
    }
}

/// The hits of a keyword search: the chunks that hold the query as it stands,
/// by start and then by id, the first `limit` of them.
pub fn keyword_search_with_snippet(
    chunks: Vec<Chunk>,
    query: &str,
    limit: usize,
    snippet_length: usize,
) -> (r: Result<Vec<SearchHit>, Error>)
    ensures
        match r {
            Ok(hits) => !empty_query(query@) && finds(
                hits@,
                chunks@,
                query@,
                limit as int,
                snippet_length as int,
            ),
            Err(error) => empty_query(query@) && error is EmptyQuery,
        },
{
    let term = match keyword_term(query) {
        Ok(term) => term,
        Err(error) => return Err(error),
    };
    let ghost all = chunks@;
    let mut ranked: Vec<Chunk> = Vec::new();
    assert(ranked@ =~= holding(all.take(0), term@));
    for chunk in iter: chunks
        invariant
            iter.seq() == all,
            listed(ranked@),
            ranked@.to_multiset() == holding(all.take(iter.index() as int), term@).to_multiset(),
    {
        proof {
            let i = iter.index() as int;
            assert(all.take(i + 1).drop_last() =~= all.take(i));
            assert(all.take(i + 1).last() == chunk);
        }
        if text_contains(chunk.text.as_str(), term.as_str()) {
            let mut at: usize = 0;
            while at < ranked.len() && is_listed_before(&ranked[at], &chunk)
                invariant
                    at <= ranked@.len(),
                    forall|k: int| 0 <= k < at ==> listed_before(#[trigger] ranked@[k], chunk),
                decreases ranked@.len() - at,
            {
                at = at + 1;
            }
            let ghost before = ranked@;
            proof {
                lemma_insert_listed(before, at as int, chunk);
                vstd::seq_lib::to_multiset_insert(before, at as int, chunk);
                vstd::seq_lib::to_multiset_build(
                    holding(all.take(iter.index() as int), term@),
                    chunk,
                );
            }
            ranked.insert(at, chunk);
        }
    }
    assert(all.take(all.len() as int) =~= all);
    let ghost listing = ranked@;
    assert(is_listing(listing, all, trim(query@)));
    let mut found: Vec<(String, Option<Chunk>)> = Vec::new();
    for chunk in iter: ranked
        invariant
            iter.seq() == listing,
            found@.len() == if iter.index() <= limit {
                iter.index() as int
            } else {
                limit as int
            },
            forall|i: int|
                0 <= i < found@.len() ==> (#[trigger] found@[i]).1 == Some(listing[i]),
    {
        if found.len() < limit {
            found.push((chunk.chunk_id.clone(), Some(chunk)));
        }
    }
    let hits = hydrate_hits(found, "keyword", query, snippet_length);
    assert(hits is Ok);
    hits
}

/// A chunk that holds the term is among the chunks that are ranked, and no other is.
pub proof fn law_listing_is_exact(
    ranked: Seq<Chunk>,
    chunks: Seq<Chunk>,
    term: Seq<char>,
    chunk: Chunk,
)
    requires
        is_listing(ranked, chunks, term),
    ensures
        ranked.contains(chunk) <==> chunks.contains(chunk) && contains_text(chunk.text@, term),
{
    ranked.to_multiset_ensures();
    holding(chunks, term).to_multiset_ensures();
    lemma_holding(chunks, term, chunk);
    assert(ranked.to_multiset().count(chunk) > 0 <==> ranked.contains(chunk));
    assert(holding(chunks, term).to_multiset().count(chunk) > 0 <==> holding(
        chunks,
        term,
    ).contains(chunk));
}

/// Which chunks hold the term.
proof fn lemma_holding(chunks: Seq<Chunk>, term: Seq<char>, chunk: Chunk)
    ensures
        holding(chunks, term).contains(chunk) <==> chunks.contains(chunk) && contains_text(
            chunk.text@,
            term,
        ),
    decreases chunks.len(),
{
    if chunks.len() > 0 {
        let front = chunks.drop_last();
        lemma_holding(front, term, chunk);
        let held = holding(front, term);
        assert(chunks =~= front.push(chunks.last()));
        assert(chunks.contains(chunk) <==> front.contains(chunk) || chunk == chunks.last()) by {
            if front.contains(chunk) {
                let k = choose|k: int| 0 <= k < front.len() && front[k] == chunk;
                assert(chunks[k] == chunk);
            }
            if chunk == chunks.last() {
                assert(chunks[chunks.len() - 1] == chunk);
            }
            if chunks.contains(chunk) && chunk != chunks.last() {
                let k = choose|k: int| 0 <= k < chunks.len() && chunks[k] == chunk;
                assert(front[k] == chunk);
            }
        }
        if contains_text(chunks.last().text@, term) {
            let next = held.push(chunks.last());
            if held.contains(chunk) {
                let k = choose|k: int| 0 <= k < held.len() && held[k] == chunk;
                assert(next[k] == chunk);
            }
            if next.contains(chunk) && chunk != chunks.last() {
                let k = choose|k: int| 0 <= k < next.len() && next[k] == chunk;
                assert(held[k] == chunk);
            }
            assert(next[next.len() - 1] == chunks.last());
        }
    }
}

/// Whether the text of a chunk has the term at `at`, letter for letter.
pub open spec fn reads_at(chunk: Chunk, term: Seq<char>, at: int) -> bool {
    &&& 0 <= at
    &&& at + term.len() <= chunk.text@.len()
    &&& forall|k: int| 0 <= k < term.len() ==> #[trigger] chunk.text@[at + k] == term[k]
}

/// What a keyword search finds: every hit is one of the chunks, its text holds
/// the query letter for letter but for white space at the query's ends, and the
/// hits are in the order of time. Where there was room for more, every chunk
/// that holds it is among them.
pub proof fn law_hits_hold_the_query(
    hits: Seq<SearchHit>,
    chunks: Seq<Chunk>,
    query: Seq<char>,
    limit: int,
    snippet_length: int,
)
    requires
        finds(hits, chunks, query, limit, snippet_length),
        limit >= 0,
    ensures
        hits.len() <= limit,
        forall|i: int|
            0 <= i < hits.len() ==> (#[trigger] hits[i]).rank == i + 1 && exists|k: int, at: int|
                0 <= k < chunks.len() && hits[i].chunk_id@ == chunks[k].chunk_id@
                    && hits[i].chat_id@ == chunks[k].chat_id@ && #[trigger] reads_at(
                    chunks[k],
                    trim(query),
                    at,
                ),
        forall|i: int, j: int|
            0 <= i < j < hits.len() ==> !lt(
                (#[trigger] hits[j]).started_at@,
                (#[trigger] hits[i]).started_at@,
            ),
        hits.len() < limit ==> forall|k: int, at: int|
            0 <= k < chunks.len() && #[trigger] reads_at(chunks[k], trim(query), at) ==> exists|
                i: int,
            |
                0 <= i < hits.len() && (#[trigger] hits[i]).chunk_id@ == chunks[k].chunk_id@,
{
    let term = trim(query);
    let ranked = choose|ranked: Seq<Chunk>| #[trigger]
        is_listing(ranked, chunks, trim(query)) && hits.len() == if ranked.len() <= limit {
            ranked.len() as int
        } else {
            limit
        } && forall|i: int|
            0 <= i < hits.len() ==> shows_chunk(
                #[trigger] hits[i],
                ranked[i],
                i,
                "keyword"@,
                query,
                snippet_length,
            );
    assert forall|i: int| 0 <= i < hits.len() implies (#[trigger] hits[i]).rank == i + 1 && exists|
        k: int,
        at: int,
    |
        0 <= k < chunks.len() && hits[i].chunk_id@ == chunks[k].chunk_id@ && hits[i].chat_id@
            == chunks[k].chat_id@ && #[trigger] reads_at(chunks[k], trim(query), at) by {
        let c = ranked[i];
        assert(shows_chunk(hits[i], c, i, "keyword"@, query, snippet_length));
        law_listing_is_exact(ranked, chunks, term, c);
        assert(ranked.contains(c));
        let k = choose|k: int| 0 <= k < chunks.len() && chunks[k] == c;
        let at = choose|at: int| occurs_at(c.text@, term, at);
        law_every_character_has_to_match(c.text@, term, at);
        assert(reads_at(chunks[k], term, at));
    }
    assert forall|i: int, j: int| 0 <= i < j < hits.len() implies !lt(
        (#[trigger] hits[j]).started_at@,
        (#[trigger] hits[i]).started_at@,
    ) by {
        assert(shows_chunk(hits[i], ranked[i], i, "keyword"@, query, snippet_length));
        assert(shows_chunk(hits[j], ranked[j], j, "keyword"@, query, snippet_length));
        assert(listed_before(ranked[i], ranked[j]));
        lemma_le_total(ranked[i].started_at@, ranked[j].started_at@);
    }
    if hits.len() < limit {
        assert forall|k: int, at: int|
            0 <= k < chunks.len() && #[trigger] reads_at(
                chunks[k],
                trim(query),
                at,
            ) implies exists|i: int|
            0 <= i < hits.len() && (#[trigger] hits[i]).chunk_id@ == chunks[k].chunk_id@ by {
            law_every_character_has_to_match(chunks[k].text@, term, at);
            law_listing_is_exact(ranked, chunks, term, chunks[k]);
            assert(chunks.contains(chunks[k]));
            let i = choose|i: int| 0 <= i < ranked.len() && ranked[i] == chunks[k];
            assert(shows_chunk(hits[i], ranked[i], i, "keyword"@, query, snippet_length));
        }
    }
}

/// No chunk is found twice, and none is lost for being there twice: as many are
/// listed as hold the term.
pub proof fn law_as_many_are_listed_as_hold_the_term(
    ranked: Seq<Chunk>,
    a: Seq<Chunk>,
    chunk: Chunk,
    term: Seq<char>,
)
    requires
        is_listing(ranked, a, term),
    ensures
        ranked.len() == holding(a, term).len(),
        holding(a.push(chunk), term).len() == holding(a, term).len() + if contains_text(
            chunk.text@,
            term,
        ) {
            1int
        } else {
            0
        },
        holding(seq![], term).len() == 0,
{
    assert(a.push(chunk).drop_last() =~= a);
    ranked.to_multiset_ensures();
    holding(a, term).to_multiset_ensures();
}

/// Where there is no room for all, the earliest are shown: a chunk that holds the
/// query is among the hits, or starts no earlier than any of them, and where it
/// starts with one of them it has no lesser id. Every hit is an excerpt of the text
/// of its own chunk.
pub proof fn law_the_earliest_are_shown(
    hits: Seq<SearchHit>,
    chunks: Seq<Chunk>,
    query: Seq<char>,
    limit: int,
    snippet_length: int,
    k: int,
    at: int,
    i: int,
) -> (shown: int)
    requires
        finds(hits, chunks, query, limit, snippet_length),
        limit >= 0,
        0 <= k < chunks.len(),
        reads_at(chunks[k], trim(query), at),
        0 <= i < hits.len(),
    ensures
        (exists|j: int| 0 <= j < hits.len() && (#[trigger] hits[j]).chunk_id@ == chunks[k].chunk_id@)
            || lt(hits[i].started_at@, chunks[k].started_at@) || (hits[i].started_at@
            == chunks[k].started_at@ && le(hits[i].chunk_id@, chunks[k].chunk_id@)),
        0 <= shown < chunks.len(),
        hits[i].chunk_id@ == chunks[shown].chunk_id@,
        is_snippet(hits[i].snippet@, chunks[shown].text@, query, snippet_length),
        contains_text(chunks[shown].text@, trim(query)),
{
    let term = trim(query);
    let ranked = choose|ranked: Seq<Chunk>| #[trigger]
        is_listing(ranked, chunks, trim(query)) && hits.len() == if ranked.len() <= limit {
            ranked.len() as int
        } else {
            limit
        } && forall|i: int|
            0 <= i < hits.len() ==> shows_chunk(
                #[trigger] hits[i],
                ranked[i],
                i,
                "keyword"@,
                query,
                snippet_length,
            );
    assert(shows_chunk(hits[i], ranked[i], i, "keyword"@, query, snippet_length));
    law_every_character_has_to_match(chunks[k].text@, term, at);
    law_listing_is_exact(ranked, chunks, term, chunks[k]);
    assert(chunks.contains(chunks[k]));
    let place = choose|p: int| 0 <= p < ranked.len() && ranked[p] == chunks[k];
    if place < hits.len() {
        assert(shows_chunk(hits[place], ranked[place], place, "keyword"@, query, snippet_length));
        assert(hits[place].chunk_id@ == chunks[k].chunk_id@);
    } else {
        assert(i < place);
        assert(listed_before(ranked[i], ranked[place]));
    }
    law_listing_is_exact(ranked, chunks, term, ranked[i]);
    assert(ranked.contains(ranked[i]));
    let shown = choose|s: int| 0 <= s < chunks.len() && chunks[s] == ranked[i];
    shown
}

} // verus!
