//! The documents of the index, and the search that counts terms in them.

use crate::error::Error;
use crate::kakao::media_resolver::joined;
use crate::semantic::{document_path, semantic_source_dir};
use crate::text::order::{le, text_le};
use crate::text::split::{
    contains_text, join, join_strings, law_a_text_holds_its_middle, law_join_holds_every_part,
    occurs_at, part_start, split_words, text_contains, views, words,
};
use crate::text::{chars_of, owned, string_of};
use crate::types::Chunk;
use vstd::prelude::*;

verus! {

/// A document of the index.
#[derive(Debug, Clone)]
pub struct SemanticDocument {
    pub chunk_id: String,
    pub path: String,
}

/// The documents of the given chunks, under `root`.
pub fn planned_semantic_documents(chunk_ids: &[String], root: &str) -> (documents: Vec<
    SemanticDocument,
>)
    ensures
        documents@.len() == chunk_ids@.len(),
        forall|i: int|
            0 <= i < documents@.len() ==> (#[trigger] documents@[i]).chunk_id@ == chunk_ids@[i]@
                && documents@[i].path@ == joined(
                joined(joined(root@, "source"@), "chunks"@),
                chunk_ids@[i]@ + ".md"@,
            ),
{
    let dir = semantic_source_dir(root);
    let mut documents: Vec<SemanticDocument> = Vec::new();
    for i in 0..chunk_ids.len()
        invariant
            dir@ == joined(joined(root@, "source"@), "chunks"@),
            documents@.len() == i,
            forall|k: int|
                0 <= k < i ==> (#[trigger] documents@[k]).chunk_id@ == chunk_ids@[k]@
                    && documents@[k].path@ == joined(
                    joined(joined(root@, "source"@), "chunks"@),
                    chunk_ids@[k]@ + ".md"@,
                ),
    {
        documents.push(
            SemanticDocument {
                chunk_id: chunk_ids[i].clone(),
                path: document_path(dir.as_str(), chunk_ids[i].as_str()),
            },
        );
    }
    documents
}

/// The content of a document: its metadata, a rule, and the text.
pub open spec fn document_content(c: Chunk) -> Seq<char> {
    "chunk_id: "@ + c.chunk_id@ + "\nchat_id: "@ + c.chat_id@ + "\nsender_nickname: "@
        + c.sender_nickname@ + "\ntime_range: "@ + c.started_at@ + ".."@ + c.ended_at@
        + "\nparent_chunk_ids: "@ + join(views(c.parent_chunk_ids@), ","@) + "\n---\n"@ + c.text@
        + "\n"@
}

/// The content of a document.
pub fn document_text(chunk: &Chunk) -> (text: String)
    ensures
        text@ == document_content(*chunk),
{
    let parents = join_strings(chunk.parent_chunk_ids.as_slice(), ",");
    let mut text = owned("chunk_id: ");
    text.append(chunk.chunk_id.as_str());
    text.append("\nchat_id: ");
    text.append(chunk.chat_id.as_str());
    text.append("\nsender_nickname: ");
    text.append(chunk.sender_nickname.as_str());
    text.append("\ntime_range: ");
    text.append(chunk.started_at.as_str());
    text.append("..");
    text.append(chunk.ended_at.as_str());
    text.append("\nparent_chunk_ids: ");
    text.append(parents.as_str());
    text.append("\n---\n");
    text.append(chunk.text.as_str());
    text.append("\n");
    text
}

/// How many of the terms stand in the content.
pub open spec fn score_of(terms: Seq<Seq<char>>, content: Seq<char>) -> nat
    decreases terms.len(),
{
    if terms.len() == 0 {
        0
    } else {
        score_of(terms.drop_last(), content) + if contains_text(content, terms.last()) {
            1nat
        } else {
            0
        }
    }
}

proof fn lemma_score_bound(terms: Seq<Seq<char>>, content: Seq<char>)
    ensures
        score_of(terms, content) <= terms.len(),
    decreases terms.len(),
{
    if terms.len() > 0 {
        lemma_score_bound(terms.drop_last(), content);
    }
}

/// How many terms of the query stand in the content of a document.
pub fn document_score(query: &str, content: &str) -> (score: usize)
    ensures
        score == score_of(words(query@), content@),
{
    let chars = chars_of(query);
    let parts = split_words(chars.as_slice());
    let ghost terms = words(query@);
    let total: usize = parts.len();
    let mut score: usize = 0;
    for i in 0..total
        invariant
            total == parts@.len(),
            parts@.map_values(|p: Vec<char>| p@) == terms,
            score == score_of(terms.take(i as int), content@),
    {
        proof {
            assert(terms[i as int] == parts@[i as int]@);
            assert(terms.take(i + 1).drop_last() =~= terms.take(i as int));
            lemma_score_bound(terms.take(i as int), content@);
        }
        let term = string_of(parts[i].as_slice());
        if text_contains(content, term.as_str()) {
            score = score + 1;
        }
    }
    proof {
        assert(terms.take(total as int) =~= terms);
    }
    score
}

/// A document with its score.
#[derive(Debug)]
pub struct ScoredDocument {
    pub score: usize,
    pub chunk_id: String,
}

/// Whether `a` ranks no lower than `b`: by score, then by id.
pub open spec fn ranks(a: ScoredDocument, b: ScoredDocument) -> bool {
    a.score > b.score || (a.score == b.score && le(a.chunk_id@, b.chunk_id@))
}

/// Exec form of [`ranks`].
fn ranks_before(a: &ScoredDocument, b: &ScoredDocument) -> (r: bool)
    ensures
        r == ranks(*a, *b),
{
    a.score > b.score || (a.score == b.score && text_le(a.chunk_id.as_str(), b.chunk_id.as_str()))
}

proof fn lemma_ranks_total(a: ScoredDocument, b: ScoredDocument)
    ensures
        ranks(a, b) || ranks(b, a),
{
    crate::text::order::lemma_le_total(a.chunk_id@, b.chunk_id@);
}

proof fn lemma_ranks_transitive(a: ScoredDocument, b: ScoredDocument, c: ScoredDocument)
    requires
        ranks(a, b),
        ranks(b, c),
    ensures
        ranks(a, c),
{
    if a.score == b.score && b.score == c.score {
        crate::text::order::lemma_le_transitive(a.chunk_id@, b.chunk_id@, c.chunk_id@);
    }
}

/// Whether `s` is in the order of ranks.
pub open spec fn ranked(s: Seq<ScoredDocument>) -> bool {
    forall|i: int, j: int| 0 <= i < j < s.len() ==> ranks(#[trigger] s[i], #[trigger] s[j])
}

/// The documents with a score, best first.
pub fn rank_documents(scored: Vec<ScoredDocument>) -> (result: Vec<ScoredDocument>)
    ensures
        ranked(result@),
        result@.to_multiset() == scored@.filter(|d: ScoredDocument| d.score > 0).to_multiset(),
{
    let ghost all = scored@;
    let ghost hit = |d: ScoredDocument| d.score > 0;
    let mut result: Vec<ScoredDocument> = Vec::new();
    proof {
        reveal(Seq::filter);
        assert(all.take(0).filter(hit) =~= Seq::<ScoredDocument>::empty());
        assert(result@ =~= Seq::<ScoredDocument>::empty());
    }
    for document in iter: scored
        invariant
            iter.seq() == all,
            hit == (|d: ScoredDocument| d.score > 0),
            ranked(result@),
            result@.to_multiset() == all.take(iter.index() as int).filter(hit).to_multiset(),
    {
        let ghost seen = all.take(iter.index() as int);
        let ghost now = all.take(iter.index() as int + 1);
        proof {
            assert(now.drop_last() =~= seen);
            assert(now.last() == document);
            reveal(Seq::filter);
        }
        if document.score > 0 {
            let mut at: usize = 0;
            while at < result.len() && ranks_before(&result[at], &document)
                invariant
                    at <= result@.len(),
                    forall|k: int| 0 <= k < at ==> ranks(#[trigger] result@[k], document),
                decreases result@.len() - at,
            {
                at = at + 1;
            }
            let ghost before = result@;
            result.insert(at, document);
            proof {
                assert(result@ =~= before.insert(at as int, document));
                vstd::seq_lib::to_multiset_insert(before, at as int, document);
                vstd::seq_lib::to_multiset_build(seen.filter(hit), document);
                assert forall|i: int, j: int| 0 <= i < j < result@.len() implies ranks(
                    #[trigger] result@[i],
                    #[trigger] result@[j],
                ) by {
                    if j < at {
                        assert(result@[i] == before[i] && result@[j] == before[j]);
                    } else if j == at {
                        assert(result@[i] == before[i]);
                    } else if i == at {
                        assert(result@[j] == before[j - 1]);
                        lemma_ranks_total(document, before[at as int]);
                        if j - 1 > at {
                            assert(ranks(before[at as int], before[j - 1]));
                            lemma_ranks_transitive(document, before[at as int], before[j - 1]);
                        }
                    } else if i < at {
                        assert(result@[i] == before[i] && result@[j] == before[j - 1]);
                    } else {
                        assert(result@[i] == before[i - 1] && result@[j] == before[j - 1]);
                    }
                }
            }
        }
    }
    proof {
        assert(all.take(all.len() as int) =~= all);
    }
    result
}

/// The ids of the best `limit` documents.
pub fn top_ids(ranked_documents: &[ScoredDocument], limit: usize) -> (ids: Vec<String>)
    ensures
        ids@.len() == if ranked_documents@.len() <= limit {
            ranked_documents@.len()
        } else {
            limit as nat
        },
        forall|i: int|
            0 <= i < ids@.len() ==> (#[trigger] ids@[i])@ == ranked_documents@[i].chunk_id@,
{
    let n: usize = if ranked_documents.len() <= limit {
        ranked_documents.len()
    } else {
        limit
    };
    let mut ids: Vec<String> = Vec::new();
    for i in 0..n
        invariant
            n <= ranked_documents@.len(),
            ids@.len() == i,
            forall|k: int|
                0 <= k < i ==> (#[trigger] ids@[k])@ == ranked_documents@[k].chunk_id@,
    {
        ids.push(ranked_documents[i].chunk_id.clone());
    }
    ids
}

/// A chunk, and the digest that the vector store has of its text.
#[derive(Debug, Clone)]
pub struct HashedChunk {
    pub chunk_id: String,
    pub content_hash: String,
}

/// The text whose digest stands for a list of chunks: each id and the digest
/// of each text, all ended by a zero character.
pub open spec fn seen_material(chunks: Seq<HashedChunk>) -> Seq<char>
    decreases chunks.len(),
{
    if chunks.len() == 0 {
        seq![]
    } else {
        let c = chunks.last();
        seen_material(chunks.drop_last()) + c.chunk_id@ + seq!['\0'] + c.content_hash@ + seq!['\0']
    }
}

/// The text whose digest, as the vector store makes it, marks the documents
/// that a run has seen.
pub fn semantic_seen_material(chunks: &[HashedChunk]) -> (material: String)
    ensures
        material@ == seen_material(chunks@),
{
    let mut material: String = String::new();
    for i in 0..chunks.len()
        invariant
            material@ == seen_material(chunks@.take(i as int)),
    {
        proof {
            assert(chunks@.take(i + 1).drop_last() =~= chunks@.take(i as int));
        }
        let ghost before = material@;
        material.append(chunks[i].chunk_id.as_str());
        material.push('\0');
        material.append(chunks[i].content_hash.as_str());
        material.push('\0');
        proof {
            assert(material@ =~= before + chunks@[i as int].chunk_id@ + seq!['\0']
                + chunks@[i as int].content_hash@ + seq!['\0']);
        }
    }
    proof {
        assert(chunks@.take(chunks@.len() as int) =~= chunks@);
    }
    material
}

/// The error that a failure of the embedding server is: `message` is what the
/// server's client says, `shown` the whole sentence.
pub fn embedding_failure(message: &str, shown: String) -> (error: Error)
    ensures
        if contains_text(message@, "Connection refused"@) || contains_text(
            message@,
            "error sending request"@,
        ) {
            error is EmbedderUnavailable
        } else {
            error is MinSync && error->MinSync_0 == shown
        },
{
    if text_contains(message, "Connection refused") || text_contains(
        message,
        "error sending request",
    ) {
        Error::EmbedderUnavailable
    } else {
        Error::MinSync(shown)
    }
}

// ---------------------------------------------------------------------------
// Laws
// ---------------------------------------------------------------------------

/// A document ends with the text of its chunk, behind a rule and before a line
/// break, and starts with the chunk's id.
pub proof fn law_a_document_holds_its_text(c: Chunk)
    ensures
        ({
            let content = document_content(c);
            let n = c.text@.len();
            &&& content.len() > n
            &&& content[content.len() - 1] == '\n'
            &&& content.subrange(content.len() - 1 - n, content.len() - 1) == c.text@
            &&& content.len() >= n + 6 && content.subrange(
                content.len() - 6 - n,
                content.len() - 1 - n,
            ) == seq!['\n', '-', '-', '-', '\n']
            &&& content.subrange(10, 10int + c.chunk_id@.len()) == c.chunk_id@
            &&& contains_text(content, c.sender_nickname@)
            &&& contains_text(content, c.started_at@)
            &&& contains_text(content, c.ended_at@)
            &&& contains_text(content, c.chat_id@)
        }),
{
    reveal_strlit("chunk_id: ");
    reveal_strlit("\n---\n");
    reveal_strlit("\n");
    let content = document_content(c);
    let n = c.text@.len();
    let m = content.len() as int;
    assert(content.subrange(m - 1 - n, m - 1) =~= c.text@);
    assert(content.subrange(m - 6 - n, m - 1 - n) =~= "\n---\n"@);
    assert("\n---\n"@ =~= seq!['\n', '-', '-', '-', '\n']);
    assert(content.subrange(10, 10int + c.chunk_id@.len()) =~= c.chunk_id@);
    let parents = join(views(c.parent_chunk_ids@), ","@);
    let tail = "\nparent_chunk_ids: "@ + parents + "\n---\n"@ + c.text@ + "\n"@;
    let a = "chunk_id: "@ + c.chunk_id@ + "\nchat_id: "@;
    let b = a + c.chat_id@ + "\nsender_nickname: "@;
    let d = b + c.sender_nickname@ + "\ntime_range: "@;
    let e = d + c.started_at@ + ".."@;
    assert(content =~= e + c.ended_at@ + tail);
    law_a_text_holds_its_middle(e, c.ended_at@, tail);
    let rest = ".."@ + c.ended_at@ + tail;
    assert(content =~= d + c.started_at@ + rest);
    law_a_text_holds_its_middle(d, c.started_at@, rest);
    let rest = "\ntime_range: "@ + c.started_at@ + rest;
    assert(content =~= b + c.sender_nickname@ + rest);
    law_a_text_holds_its_middle(b, c.sender_nickname@, rest);
    let rest = "\nsender_nickname: "@ + c.sender_nickname@ + rest;
    assert(content =~= a + c.chat_id@ + rest);
    law_a_text_holds_its_middle(a, c.chat_id@, rest);
}

/// A score counts the terms that stand in a document, each for one.
pub proof fn law_every_term_counts_once(terms: Seq<Seq<char>>, term: Seq<char>, content: Seq<char>)
    ensures
        score_of(terms.push(term), content) == score_of(terms, content) + if contains_text(
            content,
            term,
        ) {
            1int
        } else {
            0
        },
        score_of(seq![], content) == 0,
        score_of(terms, content) <= terms.len(),
{
    assert(terms.push(term).drop_last() =~= terms);
    lemma_score_bound(terms, content);
}

/// What has more of the terms comes first, and of two that have as many the one
/// with the earlier id.
pub proof fn law_the_best_come_first(s: Seq<ScoredDocument>, i: int, j: int)
    requires
        ranked(s),
        0 <= i < j < s.len(),
    ensures
        s[i].score >= s[j].score,
        s[i].score == s[j].score ==> le(s[i].chunk_id@, s[j].chunk_id@),
{
    assert(ranks(s[i], s[j]));
}

/// What marks the documents that were seen is made document by document: the id
/// of each and the digest of its text, in order.
pub proof fn law_the_mark_covers_every_document(a: Seq<HashedChunk>, c: HashedChunk)
    ensures
        seen_material(a.push(c)) == seen_material(a) + (c.chunk_id@ + seq!['\0'] + c.content_hash@
            + seq!['\0']),
        seen_material(seq![]).len() == 0,
{
    assert(a.push(c).drop_last() =~= a);
    assert(seen_material(a.push(c)) =~= seen_material(a) + (c.chunk_id@ + seq!['\0']
        + c.content_hash@ + seq!['\0']));
}

/// A document names every chunk that its own answers.
pub proof fn law_a_document_names_what_it_answers(c: Chunk, i: int)
    requires
        0 <= i < c.parent_chunk_ids@.len(),
    ensures
        contains_text(document_content(c), c.parent_chunk_ids@[i]@),
{
    let content = document_content(c);
    let parts = views(c.parent_chunk_ids@);
    let inner = join(parts, ","@);
    law_join_holds_every_part(parts, ","@);
    let at = part_start(parts, ","@.len(), i);
    let part = c.parent_chunk_ids@[i]@;
    assert(parts[i] == part);
    let head = "chunk_id: "@ + c.chunk_id@ + "\nchat_id: "@ + c.chat_id@ + "\nsender_nickname: "@
        + c.sender_nickname@ + "\ntime_range: "@ + c.started_at@ + ".."@ + c.ended_at@
        + "\nparent_chunk_ids: "@;
    let from = head.len() + at;
    assert(content.subrange(from, from + part.len()) =~= inner.subrange(at, at + part.len()));
    assert(occurs_at(content, part, from));
}

} // verus!
