//! Building a generation of the semantic index and searching it.
//!
//! A generation is built beside the current one and published when it is
//! complete. Vectors of the current generation are taken over for windows whose
//! text did not change.

use crate::error::Error;
use crate::search::{
    all_found, hydrate_parent_hits, shows_window, SearchHit,
};
use crate::semantic::{self, content_digest, content_hash, CHUNK_SCHEMA_ID, SOURCE_ID};
use crate::text::number::{decimal, decimal_i64, decimal_int, decimal_u64, decimal_usize};
use crate::text::order::{
    le, lemma_le_antisymmetric, lemma_le_refl, lemma_le_total, lemma_le_transitive, text_le,
};
use crate::text::split::{contains_text, law_a_text_holds_its_middle};
use crate::text::trim::{copy_range, trim, trimmed};
use crate::text::{chars_of, owned, same, string_of};
use crate::types::ParentChunk;
use vstd::prelude::*;
use vstd::relations::{sorted_by, total_ordering};

verus! {

/// The directory of the vectors in a generation.
pub const STORE_DIR: &'static str = "store";

/// What a generation was built from.
#[derive(Debug, Clone)]
pub struct SemanticCursor {
    pub source_id: String,
    pub completed_at: String,
    pub archive_revision: String,
    pub chunk_schema_id: String,
    pub embedder_id: String,
    pub vectorstore: String,
    pub semantic_units: String,
    pub embedded_texts: usize,
}

/// What an indexing run did.
#[derive(Debug, Clone)]
pub struct SemanticIndexReport {
    pub written_documents: usize,
    pub embedding_calls: usize,
    pub embedded_texts: usize,
    pub embedder: String,
    pub vectorstore: &'static str,
    pub semantic_units: &'static str,
    pub archive_revision: String,
    pub reused_vectors: usize,
    pub self_healed: bool,
    pub cleanup_warnings: Vec<String>,
}

/// A window whose text has to be embedded.
#[derive(Debug, Clone)]
pub struct PendingChunk {
    pub chunk_id: String,
    pub content_hash: String,
    pub seen_token: String,
    pub heading_path: String,
    pub text: String,
}

/// A window whose vector is taken over.
#[derive(Debug, Clone)]
pub struct ReusedChunk {
    pub chunk_id: String,
    pub content_hash: String,
    pub seen_token: String,
    pub heading_path: String,
}

// ---------------------------------------------------------------------------
// Validity
// ---------------------------------------------------------------------------

/// The sentence about a field that is not as expected.
pub open spec fn field_text(field: Seq<char>, actual: Seq<char>, expected: Seq<char>) -> Seq<char> {
    field + " is "@ + actual + ", expected "@ + expected
}

/// What is wrong with a cursor, where anything is.
pub open spec fn cursor_problem(cursor: SemanticCursor, embedder_id: Seq<char>) -> Option<
    Seq<char>,
> {
    if cursor.source_id@ != SOURCE_ID@ {
        Some(field_text("source"@, cursor.source_id@, SOURCE_ID@))
    } else if cursor.chunk_schema_id@ != CHUNK_SCHEMA_ID@ {
        Some(field_text("schema"@, cursor.chunk_schema_id@, CHUNK_SCHEMA_ID@))
    } else if cursor.vectorstore@ != "local"@ {
        Some(field_text("vectorstore"@, cursor.vectorstore@, "local"@))
    } else if cursor.embedder_id@ != embedder_id {
        Some(field_text("embedder"@, cursor.embedder_id@, embedder_id))
    } else {
        None
    }
}

/// Exec form of [`field_text`].
fn field_message(field: &str, actual: &str, expected: &str) -> (text: String)
    ensures
        text@ == field_text(field@, actual@, expected@),
{
    let mut text = owned(field);
    text.append(" is ");
    text.append(actual);
    text.append(", expected ");
    text.append(expected);
    text
}

/// Refuses the cursor of an index that was built from another source, schema,
/// store or embedder.
pub fn validate_cursor(cursor: &SemanticCursor, embedder_id: &str) -> (r: Result<(), Error>)
    ensures
        match r {
            Ok(_) => cursor_problem(*cursor, embedder_id@) is None,
            Err(error) => error is SemanticIndexStale && cursor_problem(*cursor, embedder_id@)
                == Some(error->SemanticIndexStale_0@),
        },
{
    if !same(cursor.source_id.as_str(), SOURCE_ID) {
        return Err(
            Error::SemanticIndexStale(
                field_message("source", cursor.source_id.as_str(), SOURCE_ID),
            ),
        );
    }
    if !same(cursor.chunk_schema_id.as_str(), CHUNK_SCHEMA_ID) {
        return Err(
            Error::SemanticIndexStale(
                field_message("schema", cursor.chunk_schema_id.as_str(), CHUNK_SCHEMA_ID),
            ),
        );
    }
    if !same(cursor.vectorstore.as_str(), "local") {
        return Err(
            Error::SemanticIndexStale(
                field_message("vectorstore", cursor.vectorstore.as_str(), "local"),
            ),
        );
    }
    if !same(cursor.embedder_id.as_str(), embedder_id) {
        return Err(
            Error::SemanticIndexStale(
                field_message("embedder", cursor.embedder_id.as_str(), embedder_id),
            ),
        );
    }
    Ok(())
}

/// The id of a stored vector and the digest of the text it stands for.
#[derive(Debug)]
pub struct ContentPair {
    pub chunk_id: String,
    pub content_hash: String,
}

/// The views of pairs.
pub open spec fn pair_views(pairs: Seq<ContentPair>) -> Seq<(Seq<char>, Seq<char>)> {
    pairs.map_values(|p: ContentPair| (p.chunk_id@, p.content_hash@))
}

/// The order of pairs: by id, then by digest.
pub open spec fn pair_le(a: (Seq<char>, Seq<char>), b: (Seq<char>, Seq<char>)) -> bool {
    if a.0 == b.0 {
        le(a.1, b.1)
    } else {
        le(a.0, b.0)
    }
}

/// [`pair_le`] as a function value.
pub open spec fn pair_le_fn() -> spec_fn((Seq<char>, Seq<char>), (Seq<char>, Seq<char>)) -> bool {
    |a: (Seq<char>, Seq<char>), b: (Seq<char>, Seq<char>)| pair_le(a, b)
}

proof fn lemma_pair_le_transitive(
    a: (Seq<char>, Seq<char>),
    b: (Seq<char>, Seq<char>),
    c: (Seq<char>, Seq<char>),
)
    requires
        pair_le(a, b),
        pair_le(b, c),
    ensures
        pair_le(a, c),
{
    if a.0 == b.0 && b.0 == c.0 {
        lemma_le_transitive(a.1, b.1, c.1);
    } else if a.0 != b.0 && b.0 != c.0 {
        lemma_le_transitive(a.0, b.0, c.0);
        if a.0 == c.0 {
            lemma_le_antisymmetric(a.0, b.0);
        }
    }
}

proof fn lemma_pair_le_total(a: (Seq<char>, Seq<char>), b: (Seq<char>, Seq<char>))
    ensures
        pair_le(a, b) || pair_le(b, a),
{
    lemma_le_total(a.0, b.0);
    lemma_le_total(a.1, b.1);
}

proof fn lemma_pair_total_ordering()
    ensures
        total_ordering(pair_le_fn()),
{
    let r = pair_le_fn();
    assert forall|a: (Seq<char>, Seq<char>)| #[trigger] r(a, a) by {
        lemma_le_refl(a.1);
    }
    assert forall|a: (Seq<char>, Seq<char>), b: (Seq<char>, Seq<char>)| #[trigger]
        r(a, b) && #[trigger] r(b, a) implies a == b by {
        if a.0 == b.0 {
            lemma_le_antisymmetric(a.1, b.1);
        } else {
            lemma_le_antisymmetric(a.0, b.0);
        }
    }
    assert forall|
        a: (Seq<char>, Seq<char>),
        b: (Seq<char>, Seq<char>),
        c: (Seq<char>, Seq<char>),
    | #[trigger]
        r(a, b) && #[trigger] r(b, c) implies r(a, c) by {
        lemma_pair_le_transitive(a, b, c);
    }
    assert forall|a: (Seq<char>, Seq<char>), b: (Seq<char>, Seq<char>)| #[trigger]
        r(a, b) || #[trigger] r(b, a) by {
        lemma_pair_le_total(a, b);
    }
}

/// Exec form of [`pair_le`].
fn pair_is_le(a: &ContentPair, b: &ContentPair) -> (r: bool)
    ensures
        r == pair_le((a.chunk_id@, a.content_hash@), (b.chunk_id@, b.content_hash@)),
{
    if same(a.chunk_id.as_str(), b.chunk_id.as_str()) {
        text_le(a.content_hash.as_str(), b.content_hash.as_str())
    } else {
        text_le(a.chunk_id.as_str(), b.chunk_id.as_str())
    }
}

/// The id and digest of each window.
pub open spec fn window_pairs(windows: Seq<ParentChunk>) -> Seq<(Seq<char>, Seq<char>)> {
    windows.map_values(|w: ParentChunk| (w.parent_id@, content_digest(w.text@)))
}

/// The pairs that a complete index of the windows holds, in order.
pub open spec fn expected_pairs(windows: Seq<ParentChunk>) -> Seq<(Seq<char>, Seq<char>)> {
    window_pairs(windows).sort_by(pair_le_fn())
}

proof fn lemma_insert_pair_sorted(
    s: Seq<(Seq<char>, Seq<char>)>,
    at: int,
    x: (Seq<char>, Seq<char>),
)
    requires
        sorted_by(s, pair_le_fn()),
        0 <= at <= s.len(),
        forall|k: int| 0 <= k < at ==> pair_le(#[trigger] s[k], x),
        at < s.len() ==> !pair_le(s[at], x),
    ensures
        sorted_by(s.insert(at, x), pair_le_fn()),
{
    let t = s.insert(at, x);
    let r = pair_le_fn();
    assert forall|i: int, j: int| 0 <= i < j < t.len() implies #[trigger] r(t[i], t[j]) by {
        if j < at {
            assert(r(s[i], s[j]));
        } else if j == at {
            assert(pair_le(s[i], x));
        } else if i == at {
            lemma_pair_le_total(x, s[at]);
            if j - 1 > at {
                assert(r(s[at], s[j - 1]));
                lemma_pair_le_transitive(x, s[at], s[j - 1]);
            }
        } else if i < at {
            assert(r(s[i], s[j - 1]));
        } else {
            assert(r(s[i - 1], s[j - 1]));
        }
    }
}

/// Exec form of [`expected_pairs`].
pub fn sorted_window_pairs(windows: &[ParentChunk]) -> (pairs: Vec<ContentPair>)
    ensures
        pair_views(pairs@) == expected_pairs(windows@),
{
    let ghost all = window_pairs(windows@);
    let mut pairs: Vec<ContentPair> = Vec::new();
    proof {
        assert(pair_views(pairs@) =~= all.take(0));
    }
    for i in 0..windows.len()
        invariant
            all == window_pairs(windows@),
            pair_views(pairs@).to_multiset() == all.take(i as int).to_multiset(),
            sorted_by(pair_views(pairs@), pair_le_fn()),
    {
        let pair = ContentPair {
            chunk_id: windows[i].parent_id.clone(),
            content_hash: content_hash(windows[i].text.as_str()),
        };
        let mut at: usize = 0;
        while at < pairs.len() && pair_is_le(&pairs[at], &pair)
            invariant
                at <= pairs@.len(),
                forall|k: int|
                    0 <= k < at ==> pair_le(
                        (#[trigger] pair_views(pairs@)[k]),
                        (pair.chunk_id@, pair.content_hash@),
                    ),
            decreases pairs@.len() - at,
        {
            at = at + 1;
        }
        let ghost before = pair_views(pairs@);
        let ghost added = (pair.chunk_id@, pair.content_hash@);
        proof {
            lemma_insert_pair_sorted(before, at as int, added);
        }
        pairs.insert(at, pair);
        proof {
            assert(pair_views(pairs@) =~= before.insert(at as int, added));
            vstd::seq_lib::to_multiset_insert(before, at as int, added);
            assert(all.take(i + 1) =~= all.take(i as int).push(added));
            vstd::seq_lib::to_multiset_build(all.take(i as int), added);
        }
    }
    proof {
        assert(all.take(windows@.len() as int) =~= all);
        lemma_pair_total_ordering();
        all.lemma_sort_by_ensures(pair_le_fn());
        vstd::seq_lib::lemma_sorted_unique(
            pair_views(pairs@),
            expected_pairs(windows@),
            pair_le_fn(),
        );
    }
    pairs
}

/// Whether two lists hold the same pairs in the same order.
fn same_pairs(a: &[ContentPair], b: &[ContentPair]) -> (r: bool)
    ensures
        r == (pair_views(a@) == pair_views(b@)),
{
    if a.len() != b.len() {
        proof {
            assert(pair_views(a@).len() != pair_views(b@).len());
        }
        return false;
    }
    for i in 0..a.len()
        invariant
            a@.len() == b@.len(),
            forall|k: int| 0 <= k < i ==> pair_views(a@)[k] == pair_views(b@)[k],
    {
        if !same(a[i].chunk_id.as_str(), b[i].chunk_id.as_str()) || !same(
            a[i].content_hash.as_str(),
            b[i].content_hash.as_str(),
        ) {
            proof {
                assert(pair_views(a@)[i as int] != pair_views(b@)[i as int]);
            }
            return false;
        }
    }
    proof {
        assert(pair_views(a@) =~= pair_views(b@));
    }
    true
}

/// What is wrong with a generation, where anything is: its cursor, then the
/// revision of the archive, then the vectors in it.
pub open spec fn generation_problem(
    cursor: SemanticCursor,
    embedder_id: Seq<char>,
    revision: Seq<char>,
    windows: Seq<ParentChunk>,
    stored: Seq<(Seq<char>, Seq<char>)>,
) -> Option<Seq<char>> {
    if cursor_problem(cursor, embedder_id) is Some {
        cursor_problem(cursor, embedder_id)
    } else if cursor.archive_revision@ != revision {
        Some(
            "archive revision is "@ + revision + ", index revision is "@
                + cursor.archive_revision@,
        )
    } else if stored != expected_pairs(windows) {
        Some("vector ids or content hashes do not match the archive"@)
    } else {
        None
    }
}

/// Refuses a generation that does not describe the archive: `revision` and
/// `windows` are the archive's, `stored` are the pairs of the vectors, in order.
pub fn validate_generation(
    cursor: &SemanticCursor,
    embedder_id: &str,
    revision: &str,
    windows: &[ParentChunk],
    stored: &[ContentPair],
) -> (r: Result<(), Error>)
    ensures
        match r {
            Ok(_) => generation_problem(
                *cursor,
                embedder_id@,
                revision@,
                windows@,
                pair_views(stored@),
            ) is None,
            Err(error) => error is SemanticIndexStale && generation_problem(
                *cursor,
                embedder_id@,
                revision@,
                windows@,
                pair_views(stored@),
            ) == Some(error->SemanticIndexStale_0@),
        },
{
    match validate_cursor(cursor, embedder_id) {
        Ok(_) => {},
        Err(error) => return Err(error),
    }
    if !same(cursor.archive_revision.as_str(), revision) {
        let mut text = owned("archive revision is ");
        text.append(revision);
        text.append(", index revision is ");
        text.append(cursor.archive_revision.as_str());
        return Err(Error::SemanticIndexStale(text));
    }
    let expected = sorted_window_pairs(windows);
    if !same_pairs(stored, expected.as_slice()) {
        return Err(
            Error::SemanticIndexStale(
                owned("vector ids or content hashes do not match the archive"),
            ),
        );
    }
    Ok(())
}

// ---------------------------------------------------------------------------
// What is taken over
// ---------------------------------------------------------------------------

/// What is known of the current generation.
#[derive(Debug)]
pub enum PriorGeneration {
    /// There is none, or nothing says which it is.
    Absent,
    /// Its cursor or its store cannot be read.
    Unreadable,
    /// It can be read.
    Readable { cursor: SemanticCursor, stored: Vec<ContentPair> },
}

/// What is done with the current generation.
#[derive(Debug, Clone, Copy, PartialEq, Eq, Structural)]
pub enum PriorUse {
    /// Every text is embedded anew.
    Ignore,
    /// Every text is embedded anew, because the generation is damaged.
    Heal,
    /// Vectors of unchanged texts are taken over.
    Reuse,
}

/// What is done with the current generation: nothing where everything is to be
/// built anew or there is none. One that says that it describes the archive, and
/// does not, is damaged; one that was built from an earlier archive is taken
/// over as far as texts did not change.
pub open spec fn use_of(
    full: bool,
    prior: PriorGeneration,
    embedder_id: Seq<char>,
    revision: Seq<char>,
    windows: Seq<ParentChunk>,
) -> PriorUse {
    if full {
        PriorUse::Ignore
    } else {
        match prior {
            PriorGeneration::Absent => PriorUse::Ignore,
            PriorGeneration::Unreadable => PriorUse::Heal,
            PriorGeneration::Readable { cursor, stored } => if cursor_problem(
                cursor,
                embedder_id,
            ) is Some {
                PriorUse::Heal
            } else if cursor.archive_revision@ == revision && pair_views(stored@)
                != expected_pairs(windows) {
                PriorUse::Heal
            } else {
                PriorUse::Reuse
            },
        }
    }
}

/// Exec form of [`use_of`].
pub fn prior_use(
    full: bool,
    prior: &PriorGeneration,
    embedder_id: &str,
    revision: &str,
    windows: &[ParentChunk],
) -> (r: PriorUse)
    ensures
        r == use_of(full, *prior, embedder_id@, revision@, windows@),
{
    if full {
        return PriorUse::Ignore;
    }
    match prior {
        PriorGeneration::Absent => PriorUse::Ignore,
        PriorGeneration::Unreadable => PriorUse::Heal,
        PriorGeneration::Readable { cursor, stored } => {
            if validate_cursor(cursor, embedder_id).is_err() {
                return PriorUse::Heal;
            }
            if same(cursor.archive_revision.as_str(), revision) {
                let expected = sorted_window_pairs(windows);
                if !same_pairs(stored.as_slice(), expected.as_slice()) {
                    return PriorUse::Heal;
                }
            }
            PriorUse::Reuse
        },
    }
}

/// A full run never takes vectors over.
pub proof fn law_full_run_reuses_nothing(
    prior: PriorGeneration,
    embedder_id: Seq<char>,
    revision: Seq<char>,
    windows: Seq<ParentChunk>,
)
    ensures
        use_of(true, prior, embedder_id, revision, windows) == PriorUse::Ignore,
{
}

/// A generation that describes the archive is taken over.
pub proof fn law_valid_generation_is_reused(
    cursor: SemanticCursor,
    stored: Vec<ContentPair>,
    embedder_id: Seq<char>,
    revision: Seq<char>,
    windows: Seq<ParentChunk>,
)
    ensures
        generation_problem(cursor, embedder_id, revision, windows, pair_views(stored@)) is None
            ==> use_of(
            false,
            PriorGeneration::Readable { cursor, stored },
            embedder_id,
            revision,
            windows,
        ) == PriorUse::Reuse,
{
}

/// The heading of a window.
pub open spec fn heading(window: ParentChunk) -> Seq<char> {
    window.chat_name@ + " / parent window"@
}

/// Whether the vector that is stored for a window stands for its text.
pub open spec fn reusable(window: ParentChunk, prior_hash: Option<String>) -> bool {
    prior_hash matches Some(hash) && hash@ == content_digest(window.text@)
}

/// The places of the windows whose vector is taken over, or of those whose is not.
pub open spec fn places(
    windows: Seq<ParentChunk>,
    prior: Seq<Option<String>>,
    reused: bool,
) -> Seq<int>
    decreases windows.len(),
{
    if windows.len() == 0 {
        seq![]
    } else {
        let front = places(windows.drop_last(), prior.drop_last(), reused);
        if reusable(windows.last(), prior.last()) == reused {
            front.push(windows.len() - 1)
        } else {
            front
        }
    }
}

/// Whether `chunk` is the window `w` to be embedded for `revision`.
pub open spec fn is_pending(chunk: PendingChunk, w: ParentChunk, revision: Seq<char>) -> bool {
    &&& chunk.chunk_id@ == w.parent_id@
    &&& chunk.content_hash@ == content_digest(w.text@)
    &&& chunk.seen_token@ == revision
    &&& chunk.heading_path@ == heading(w)
    &&& chunk.text@ == w.text@
}

/// Whether `chunk` is the window `w` to be taken over for `revision`.
pub open spec fn is_reused(chunk: ReusedChunk, w: ParentChunk, revision: Seq<char>) -> bool {
    &&& chunk.chunk_id@ == w.parent_id@
    &&& chunk.content_hash@ == content_digest(w.text@)
    &&& chunk.seen_token@ == revision
    &&& chunk.heading_path@ == heading(w)
}

/// What is done for each window.
#[derive(Debug)]
pub struct VectorPlan {
    pub reused: Vec<ReusedChunk>,
    pub pending: Vec<PendingChunk>,
}

/// Whether `plan` takes over and embeds the right windows, in order.
pub open spec fn plans(
    plan: VectorPlan,
    windows: Seq<ParentChunk>,
    prior: Seq<Option<String>>,
    n: int,
    revision: Seq<char>,
) -> bool {
    let reused = places(windows.take(n), prior.take(n), true);
    let pending = places(windows.take(n), prior.take(n), false);
    &&& plan.reused@.len() == reused.len()
    &&& plan.pending@.len() == pending.len()
    &&& forall|k: int|
        0 <= k < reused.len() ==> is_reused(#[trigger] plan.reused@[k], windows[reused[k]], revision)
    &&& forall|k: int|
        0 <= k < pending.len() ==> is_pending(
            #[trigger] plan.pending@[k],
            windows[pending[k]],
            revision,
        )
}

/// Splits the windows into those whose vector is taken over and those whose
/// text is embedded; `prior` holds, for each window, the digest that the current
/// generation has stored under its id.
pub fn plan_vectors(windows: &[ParentChunk], prior: &[Option<String>], revision: &str) -> (plan:
    VectorPlan)
    requires
        prior@.len() == windows@.len(),
    ensures
        plans(plan, windows@, prior@, windows@.len() as int, revision@),
        plan.reused@.len() + plan.pending@.len() == windows@.len(),
        forall|k: int|
            0 <= k < plan.pending@.len() ==> embeds_a_window(
                #[trigger] plan.pending@[k],
                windows@,
                revision@,
            ),
{
    let mut plan = VectorPlan { reused: Vec::new(), pending: Vec::new() };
    for i in 0..windows.len()
        invariant
            prior@.len() == windows@.len(),
            plans(plan, windows@, prior@, i as int, revision@),
    {
        let window: &ParentChunk = &windows[i];
        proof {
            assert(windows@.take(i + 1).drop_last() =~= windows@.take(i as int));
            assert(prior@.take(i + 1).drop_last() =~= prior@.take(i as int));
        }
        let hash = content_hash(window.text.as_str());
        let heading_path = window.chat_name.clone().concat(" / parent window");
        let kept = match &prior[i] {
            Some(stored) => same(stored.as_str(), hash.as_str()),
            None => false,
        };
        if kept {
            plan.reused.push(
                ReusedChunk {
                    chunk_id: window.parent_id.clone(),
                    content_hash: hash,
                    seen_token: owned(revision),
                    heading_path,
                },
            );
        } else {
            plan.pending.push(
                PendingChunk {
                    chunk_id: window.parent_id.clone(),
                    content_hash: hash,
                    seen_token: owned(revision),
                    heading_path,
                    text: window.text.clone(),
                },
            );
        }
    }
    proof {
        assert(windows@.take(windows@.len() as int) =~= windows@);
        assert(prior@.take(windows@.len() as int) =~= prior@);
        law_every_window_gets_a_vector(windows@, prior@);
        assert forall|k: int| 0 <= k < plan.pending@.len() implies embeds_a_window(
            #[trigger] plan.pending@[k],
            windows@,
            revision@,
        ) by {
            law_the_windows_own_text_is_embedded(plan, windows@, prior@, revision@, k);
        }
    }
    plan
}

/// Every window is either taken over or embedded, and taken over only where the
/// stored digest is that of its text.
pub proof fn law_every_window_gets_a_vector(windows: Seq<ParentChunk>, prior: Seq<Option<String>>)
    requires
        prior.len() == windows.len(),
    ensures
        places(windows, prior, true).len() + places(windows, prior, false).len() == windows.len(),
        forall|k: int, reused: bool|
            0 <= k < places(windows, prior, reused).len() ==> 0 <= (#[trigger] places(
                windows,
                prior,
                reused,
            )[k]) < windows.len() && reusable(
                windows[places(windows, prior, reused)[k]],
                prior[places(windows, prior, reused)[k]],
            ) == reused,
    decreases windows.len(),
{
    if windows.len() > 0 {
        let ws = windows.drop_last();
        let ps = prior.drop_last();
        law_every_window_gets_a_vector(ws, ps);
        assert forall|k: int, reused: bool| 0 <= k < places(windows, prior, reused).len() implies 0
            <= (#[trigger] places(windows, prior, reused)[k]) < windows.len() && reusable(
            windows[places(windows, prior, reused)[k]],
            prior[places(windows, prior, reused)[k]],
        ) == reused by {
            let front = places(ws, ps, reused);
            if k < front.len() {
                assert(places(windows, prior, reused)[k] == front[k]);
                assert(ws[front[k]] == windows[front[k]]);
                assert(ps[front[k]] == prior[front[k]]);
            }
        }
    }
}

/// Whether `earlier` has a window with the id and the text of `window`.
pub open spec fn was_there(earlier: Seq<ParentChunk>, window: ParentChunk) -> bool {
    exists|j: int|
        0 <= j < earlier.len() && (#[trigger] earlier[j]).parent_id@ == window.parent_id@
            && earlier[j].text@ == window.text@
}

/// The places of the windows that were there earlier, or of those that are new
/// or have another text.
pub open spec fn unchanged_places(
    earlier: Seq<ParentChunk>,
    windows: Seq<ParentChunk>,
    unchanged: bool,
) -> Seq<int>
    decreases windows.len(),
{
    if windows.len() == 0 {
        seq![]
    } else {
        let front = unchanged_places(earlier, windows.drop_last(), unchanged);
        if was_there(earlier, windows.last()) == unchanged {
            front.push(windows.len() - 1)
        } else {
            front
        }
    }
}

/// Whether no two windows have the same id.
pub open spec fn window_ids_differ(windows: Seq<ParentChunk>) -> bool {
    forall|i: int, j: int|
        0 <= i < windows.len() && 0 <= j < windows.len() && (#[trigger] windows[i]).parent_id@ == (
        #[trigger] windows[j]).parent_id@ ==> i == j
}

/// Whether no text of the one list has the digest of another text of the other.
pub open spec fn digests_tell_apart(a: Seq<ParentChunk>, b: Seq<ParentChunk>) -> bool {
    forall|i: int, j: int|
        0 <= i < a.len() && 0 <= j < b.len() && content_digest((#[trigger] a[i]).text@)
            == content_digest((#[trigger] b[j]).text@) ==> a[i].text@ == b[j].text@
}

/// Whether `prior` holds, for each window, the digest that is stored under its id.
pub open spec fn looks_up(
    prior: Seq<Option<String>>,
    windows: Seq<ParentChunk>,
    stored: Seq<(Seq<char>, Seq<char>)>,
) -> bool {
    &&& prior.len() == windows.len()
    &&& forall|i: int|
        0 <= i < windows.len() ==> match #[trigger] prior[i] {
            Some(hash) => stored.contains((windows[i].parent_id@, hash@)),
            None => forall|hash: Seq<char>| !stored.contains((windows[i].parent_id@, hash)),
        }
}

/// What a complete index of windows holds: the pair of each, and no other.
proof fn lemma_expected_pair(windows: Seq<ParentChunk>, pair: (Seq<char>, Seq<char>))
    ensures
        expected_pairs(windows).contains(pair) <==> exists|j: int|
            0 <= j < windows.len() && (#[trigger] windows[j]).parent_id@ == pair.0
                && content_digest(windows[j].text@) == pair.1,
{
    let all = window_pairs(windows);
    lemma_pair_total_ordering();
    all.lemma_sort_by_ensures(pair_le_fn());
    vstd::seq_lib::to_multiset_contains(all, pair);
    vstd::seq_lib::to_multiset_contains(expected_pairs(windows), pair);
    assert(expected_pairs(windows).contains(pair) <==> all.contains(pair));
    if all.contains(pair) {
        let j = choose|j: int| 0 <= j < all.len() && all[j] == pair;
        assert(windows[j].parent_id@ == pair.0);
    }
    if exists|j: int|
        0 <= j < windows.len() && (#[trigger] windows[j]).parent_id@ == pair.0 && content_digest(
            windows[j].text@,
        ) == pair.1 {
        let j = choose|j: int|
            0 <= j < windows.len() && (#[trigger] windows[j]).parent_id@ == pair.0
                && content_digest(windows[j].text@) == pair.1;
        assert(all[j] == pair);
    }
}

/// The vector of a window is taken over where the window was there.
proof fn lemma_unchanged(
    earlier: Seq<ParentChunk>,
    windows: Seq<ParentChunk>,
    prior: Seq<Option<String>>,
    i: int,
)
    requires
        window_ids_differ(earlier),
        digests_tell_apart(earlier, windows),
        looks_up(prior, windows, expected_pairs(earlier)),
        0 <= i < windows.len(),
    ensures
        reusable(windows[i], prior[i]) == was_there(earlier, windows[i]),
{
    let id = windows[i].parent_id@;
    if let Some(hash) = prior[i] {
        lemma_expected_pair(earlier, (id, hash@));
        let j = choose|j: int|
            0 <= j < earlier.len() && (#[trigger] earlier[j]).parent_id@ == id && content_digest(
                earlier[j].text@,
            ) == hash@;
        assert(earlier[j].parent_id@ == id);
        if was_there(earlier, windows[i]) {
            let k = choose|k: int|
                0 <= k < earlier.len() && (#[trigger] earlier[k]).parent_id@ == id
                    && earlier[k].text@ == windows[i].text@;
            assert(k == j);
        }
    } else if was_there(earlier, windows[i]) {
        let k = choose|k: int|
            0 <= k < earlier.len() && (#[trigger] earlier[k]).parent_id@ == id && earlier[k].text@
                == windows[i].text@;
        lemma_expected_pair(earlier, (id, content_digest(earlier[k].text@)));
    }
}

/// The places of the windows whose vector is taken over are those of the windows
/// that were there.
proof fn lemma_unchanged_places(
    earlier: Seq<ParentChunk>,
    windows: Seq<ParentChunk>,
    prior: Seq<Option<String>>,
    reused: bool,
)
    requires
        window_ids_differ(earlier),
        digests_tell_apart(earlier, windows),
        looks_up(prior, windows, expected_pairs(earlier)),
    ensures
        places(windows, prior, reused) == unchanged_places(earlier, windows, reused),
    decreases windows.len(),
{
    if windows.len() > 0 {
        let ws = windows.drop_last();
        let ps = prior.drop_last();
        assert(digests_tell_apart(earlier, ws)) by {
            assert forall|i: int, j: int|
                0 <= i < earlier.len() && 0 <= j < ws.len() && content_digest(
                    (#[trigger] earlier[i]).text@,
                ) == content_digest((#[trigger] ws[j]).text@) implies earlier[i].text@
                == ws[j].text@ by {
                assert(ws[j] == windows[j]);
            }
        }
        assert forall|i: int| 0 <= i < ws.len() implies match #[trigger] ps[i] {
            Some(hash) => expected_pairs(earlier).contains((ws[i].parent_id@, hash@)),
            None => forall|hash: Seq<char>|
                !expected_pairs(earlier).contains((ws[i].parent_id@, hash)),
        } by {
            assert(ps[i] == prior[i]);
        }
        lemma_unchanged_places(earlier, ws, ps, reused);
        lemma_unchanged(earlier, windows, prior, windows.len() - 1);
    }
}

/// After the archive changed, only windows that are new or have another text are
/// embedded. Where an intact generation describes the windows that were there
/// earlier, it is taken over: the vectors of the windows that did not change are
/// reused, one for each, and all others are embedded.
///
/// No two windows had the same id, and the digests tell the texts apart.
pub proof fn law_only_new_or_changed_windows_are_embedded(
    earlier: Seq<ParentChunk>,
    windows: Seq<ParentChunk>,
    cursor: SemanticCursor,
    stored: Vec<ContentPair>,
    embedder_id: Seq<char>,
    prior: Seq<Option<String>>,
    plan: VectorPlan,
)
    requires
        window_ids_differ(earlier),
    ensures
        generation_problem(
            cursor,
            embedder_id,
            semantic::revision(earlier),
            earlier,
            pair_views(stored@),
        ) is None && digests_tell_apart(earlier, windows) && looks_up(
            prior,
            windows,
            pair_views(stored@),
        ) && plans(plan, windows, prior, windows.len() as int, semantic::revision(windows)) ==> {
            let unchanged = unchanged_places(earlier, windows, true);
            let others = unchanged_places(earlier, windows, false);
            &&& semantic::revision(windows) != semantic::revision(earlier) ==> use_of(
                false,
                PriorGeneration::Readable { cursor, stored },
                embedder_id,
                semantic::revision(windows),
                windows,
            ) == PriorUse::Reuse
            &&& plan.reused@.len() == unchanged.len()
            &&& plan.pending@.len() == others.len()
            &&& plan.reused@.len() + plan.pending@.len() == windows.len()
            &&& forall|k: int|
                0 <= k < unchanged.len() ==> 0 <= #[trigger] unchanged[k] < windows.len()
                    && was_there(earlier, windows[unchanged[k]])
            &&& forall|k: int|
                0 <= k < others.len() ==> 0 <= #[trigger] others[k] < windows.len() && !was_there(
                    earlier,
                    windows[others[k]],
                )
            &&& forall|k: int|
                0 <= k < unchanged.len() ==> is_reused(
                    #[trigger] plan.reused@[k],
                    windows[unchanged[k]],
                    semantic::revision(windows),
                )
            &&& forall|k: int|
                0 <= k < others.len() ==> is_pending(
                    #[trigger] plan.pending@[k],
                    windows[others[k]],
                    semantic::revision(windows),
                )
        },
{
    if generation_problem(
        cursor,
        embedder_id,
        semantic::revision(earlier),
        earlier,
        pair_views(stored@),
    ) is None && digests_tell_apart(earlier, windows) && looks_up(
        prior,
        windows,
        pair_views(stored@),
    ) && plans(plan, windows, prior, windows.len() as int, semantic::revision(windows)) {
        let unchanged = unchanged_places(earlier, windows, true);
        let others = unchanged_places(earlier, windows, false);
        assert(windows.take(windows.len() as int) =~= windows);
        assert(prior.take(windows.len() as int) =~= prior);
        lemma_unchanged_places(earlier, windows, prior, true);
        lemma_unchanged_places(earlier, windows, prior, false);
        law_every_window_gets_a_vector(windows, prior);
        assert forall|k: int| 0 <= k < unchanged.len() implies 0 <= #[trigger] unchanged[k]
            < windows.len() && was_there(earlier, windows[unchanged[k]]) by {
            let at = places(windows, prior, true)[k];
            lemma_unchanged(earlier, windows, prior, at);
        }
        assert forall|k: int| 0 <= k < others.len() implies 0 <= #[trigger] others[k]
            < windows.len() && !was_there(earlier, windows[others[k]]) by {
            let at = places(windows, prior, false)[k];
            lemma_unchanged(earlier, windows, prior, at);
        }
    }
}

/// Where the archive only grew, as many vectors are taken over as there were
/// windows, and as many texts are embedded as were added.
pub proof fn law_growth_embeds_what_was_added(
    earlier: Seq<ParentChunk>,
    added: Seq<ParentChunk>,
)
    requires
        forall|i: int, j: int|
            0 <= i < earlier.len() && 0 <= j < added.len() ==> (
            #[trigger] earlier[i]).parent_id@ != (#[trigger] added[j]).parent_id@,
    ensures
        unchanged_places(earlier, earlier + added, true).len() == earlier.len(),
        unchanged_places(earlier, earlier + added, false).len() == added.len(),
    decreases added.len(),
{
    let windows = earlier + added;
    if added.len() > 0 {
        let front = added.drop_last();
        assert forall|i: int, j: int| 0 <= i < earlier.len() && 0 <= j < front.len() implies (
        #[trigger] earlier[i]).parent_id@ != (#[trigger] front[j]).parent_id@ by {
            assert(front[j] == added[j]);
        }
        law_growth_embeds_what_was_added(earlier, front);
        assert(windows.drop_last() =~= earlier + front);
        assert(windows.last() == added[added.len() - 1]);
        assert(!was_there(earlier, windows.last()));
    } else {
        assert(windows =~= earlier);
        assert(earlier.take(earlier.len() as int) =~= earlier);
        lemma_all_were_there(earlier, earlier.len() as int);
    }
}

/// Every window of a list was there in it.
proof fn lemma_all_were_there(earlier: Seq<ParentChunk>, n: int)
    requires
        0 <= n <= earlier.len(),
    ensures
        unchanged_places(earlier, earlier.take(n), true).len() == n,
        unchanged_places(earlier, earlier.take(n), false).len() == 0,
    decreases n,
{
    if n > 0 {
        lemma_all_were_there(earlier, n - 1);
        assert(earlier.take(n).drop_last() =~= earlier.take(n - 1));
        assert(earlier.take(n).last() == earlier[n - 1]);
        assert(was_there(earlier, earlier[n - 1]));
    }
}

// ---------------------------------------------------------------------------
// Batches
// ---------------------------------------------------------------------------

/// How many batches of at most `size` it takes for `n` texts.
pub open spec fn batch_count(n: int, size: int) -> int {
    if n == 0 {
        0
    } else {
        (n - 1) / size + 1
    }
}

/// The batches of `n` texts: where each starts and ends.
pub fn batches(n: usize, batch_size: usize) -> (ranges: Vec<(usize, usize)>)
    ensures
        ({
            let size = if batch_size == 0 {
                1int
            } else {
                batch_size as int
            };
            &&& ranges@.len() == batch_count(n as int, size)
            &&& forall|k: int|
                0 <= k < ranges@.len() ==> (#[trigger] ranges@[k]).0 == k * size && ranges@[k].1
                    == if (k + 1) * size <= n {
                    (k + 1) * size
                } else {
                    n as int
                } && ranges@[k].0 < ranges@[k].1
        }),
{
    let size: usize = if batch_size == 0 {
        1
    } else {
        batch_size
    };
    let mut ranges: Vec<(usize, usize)> = Vec::new();
    let mut from: usize = 0;
    proof {
        assert(0 * (size as int) == 0);
    }
    while from < n
        invariant
            size >= 1,
            from <= n,
            from == if ranges@.len() * size <= n {
                ranges@.len() * size
            } else {
                n as int
            },
            ranges@.len() > 0 ==> (ranges@.len() - 1) * size < n,
            forall|k: int|
                0 <= k < ranges@.len() ==> (#[trigger] ranges@[k]).0 == k * size && ranges@[k].1
                    == if (k + 1) * size <= n {
                    (k + 1) * size
                } else {
                    n as int
                } && ranges@[k].0 < ranges@[k].1,
        decreases n - from,
    {
        let to: usize = if n - from <= size {
            n
        } else {
            from + size
        };
        proof {
            let k = ranges@.len() as int;
            let s = size as int;
            assert((k + 1) * s == k * s + s) by (nonlinear_arith);
        }
        ranges.push((from, to));
        from = to;
    }
    proof {
        let k = ranges@.len() as int;
        let s = size as int;
        if k > 0 {
            let m = n - 1;
            assert(m / s == k - 1) by (nonlinear_arith)
                requires
                    s >= 1,
                    (k - 1) * s <= m,
                    m < k * s,
            ;
        }
    }
    ranges
}

/// Refuses a batch for which not as many vectors came back as texts were sent.
pub fn check_batch(expected: usize, got: usize) -> (r: Result<(), Error>)
    ensures
        match r {
            Ok(_) => got == expected,
            Err(error) => got != expected && error is Embedding && error->Embedding_0@
                == "expected "@ + decimal(expected as nat) + " embeddings, got "@ + decimal(
                got as nat,
            ),
        },
{
    if got == expected {
        return Ok(());
    }
    let wanted = decimal_usize(expected);
    let came = decimal_usize(got);
    let mut reason = owned("expected ");
    reason.append(wanted.as_str());
    reason.append(" embeddings, got ");
    reason.append(came.as_str());
    Err(Error::Embedding(reason))
}

// ---------------------------------------------------------------------------
// Generations
// ---------------------------------------------------------------------------

/// The name of a new generation, from the revision that it is built for, the
/// process that builds it and the time.
pub fn generation_id(revision: &str, process: u32, nanos: i64) -> (name: String)
    requires
        revision@.len() >= 16,
    ensures
        name@ == "gen-"@ + revision@.take(16) + "-"@ + decimal(process as nat) + "-"@ + decimal_int(
            nanos as int,
        ),
{
    let chars = chars_of(revision);
    let head = copy_range(chars.as_slice(), 0, 16);
    proof {
        assert(head@ =~= revision@.take(16));
    }
    let prefix = string_of(head.as_slice());
    let pid = decimal_u64(process as u64);
    let time = decimal_i64(nanos);
    let mut name = owned("gen-");
    name.append(prefix.as_str());
    name.append("-");
    name.append(pid.as_str());
    name.append("-");
    name.append(time.as_str());
    name
}

/// The cursor of a new generation.
pub fn new_cursor(
    revision: &str,
    embedder_id: &str,
    embedded_texts: usize,
    completed_at: String,
) -> (cursor: SemanticCursor)
    ensures
        cursor.source_id@ == SOURCE_ID@,
        cursor.chunk_schema_id@ == CHUNK_SCHEMA_ID@,
        cursor.archive_revision@ == revision@,
        cursor.embedder_id@ == embedder_id@,
        cursor.vectorstore@ == "local"@,
        cursor.semantic_units@ == "parent_windows"@,
        cursor.embedded_texts == embedded_texts,
        cursor.completed_at == completed_at,
        cursor_problem(cursor, embedder_id@) is None,
{
    SemanticCursor {
        source_id: owned(SOURCE_ID),
        completed_at,
        archive_revision: owned(revision),
        chunk_schema_id: owned(CHUNK_SCHEMA_ID),
        embedder_id: owned(embedder_id),
        vectorstore: owned("local"),
        semantic_units: owned("parent_windows"),
        embedded_texts,
    }
}

/// The report of an indexing run.
pub fn index_report(
    written_documents: usize,
    plan: &VectorPlan,
    batch_size: usize,
    embedder: String,
    revision: String,
    usage: PriorUse,
    cleanup_warnings: Vec<String>,
) -> (report: SemanticIndexReport)
    ensures
        report.written_documents == written_documents,
        report.embedded_texts == plan.pending@.len(),
        report.embedding_calls == batch_count(
            plan.pending@.len() as int,
            if batch_size == 0 {
                1int
            } else {
                batch_size as int
            },
        ),
        report.embedder == embedder,
        report.vectorstore@ == "local"@,
        report.semantic_units@ == "parent_windows"@,
        report.archive_revision == revision,
        report.reused_vectors == plan.reused@.len(),
        report.self_healed == (usage == PriorUse::Heal),
        report.cleanup_warnings == cleanup_warnings,
{
    let ranges = batches(plan.pending.len(), batch_size);
    SemanticIndexReport {
        written_documents,
        embedding_calls: ranges.len(),
        embedded_texts: plan.pending.len(),
        embedder,
        vectorstore: "local",
        semantic_units: "parent_windows",
        archive_revision: revision,
        reused_vectors: plan.reused.len(),
        self_healed: usage == PriorUse::Heal,
        cleanup_warnings,
    }
}

/// Which entries of the directory of generations are removed after `current` is published.
pub fn is_old_generation(entry: &str, current: &str) -> (r: bool)
    ensures
        r == (entry@ != current@),
{
    !same(entry, current)
}

// ---------------------------------------------------------------------------
// Searching
// ---------------------------------------------------------------------------

/// Refuses a query without a term.
pub fn check_query(query: &str) -> (r: Result<(), Error>)
    ensures
        match r {
            Ok(_) => trim(query@).len() > 0,
            Err(error) => trim(query@).len() == 0 && error is EmptyQuery,
        },
{
    let chars = chars_of(query);
    let bare = trimmed(chars.as_slice());
    if bare.len() == 0 {
        Err(Error::EmptyQuery)
    } else {
        Ok(())
    }
}

/// The hits of a search: `indexed` is the revision that the index describes,
/// `revision` that of the archive after the search. An archive that changed
/// meanwhile, or an id that it does not have, makes the index stale.
pub fn semantic_hits(
    indexed: &str,
    revision: &str,
    found: Vec<(String, Option<ParentChunk>)>,
    query: &str,
    snippet_length: usize,
) -> (r: Result<Vec<SearchHit>, Error>)
    ensures
        match r {
            Ok(hits) => indexed@ == revision@ && all_found(found@) && hits@.len() == found@.len()
                && (forall|i: int|
                0 <= i < hits@.len() ==> shows_window(
                    #[trigger] hits@[i],
                    found@[i].1->0,
                    i,
                    "semantic"@,
                    query@,
                    snippet_length as int,
                )),
            Err(error) => error is SemanticIndexStale && if indexed@ != revision@ {
                error->SemanticIndexStale_0@
                    == "archive changed while semantic search was starting"@
            } else {
                exists|k: int|
                    0 <= k < found@.len() && (#[trigger] found@[k]).1 is None && (forall|j: int|
                        0 <= j < k ==> (#[trigger] found@[j]).1 is Some)
                        && error->SemanticIndexStale_0@
                        == "vector references missing archive window "@ + found@[k].0@
            },
        },
{
    if !same(indexed, revision) {
        return Err(
            Error::SemanticIndexStale(
                owned("archive changed while semantic search was starting"),
            ),
        );
    }
    let ghost all = found@;
    match hydrate_parent_hits(found, "semantic", query, snippet_length) {
        Ok(hits) => Ok(hits),
        Err(error) => match error {
            Error::MissingChunk(id) => {
                proof {
                    let k = choose|k: int|
                        0 <= k < all.len() && (#[trigger] all[k]).1 is None && (forall|j: int|
                            0 <= j < k ==> (#[trigger] all[j]).1 is Some) && id == all[k].0;
                    assert(all[k].1 is None);
                }
                Err(
                    Error::SemanticIndexStale(
                        owned("vector references missing archive window ").concat(id.as_str()),
                    ),
                )
            },
            other => Err(other),
        },
    }
}

/// Whether `chunk` has the text, the id and the chat of window `i`, with the digest
/// of the text that it has.
pub open spec fn embeds_window(
    chunk: PendingChunk,
    windows: Seq<ParentChunk>,
    revision: Seq<char>,
    i: int,
) -> bool {
    &&& 0 <= i < windows.len()
    &&& chunk.text@ == windows[i].text@
    &&& chunk.chunk_id@ == windows[i].parent_id@
    &&& chunk.content_hash@ == content_digest(chunk.text@)
    &&& chunk.heading_path@ == windows[i].chat_name@ + " / parent window"@
    &&& chunk.seen_token@ == revision
}

/// Whether `chunk` has the id and the chat of window `i`, whose text is the one
/// that its stored vector was made from.
pub open spec fn takes_over_window(
    chunk: ReusedChunk,
    windows: Seq<ParentChunk>,
    prior: Seq<Option<String>>,
    revision: Seq<char>,
    i: int,
) -> bool {
    &&& 0 <= i < windows.len()
    &&& chunk.chunk_id@ == windows[i].parent_id@
    &&& chunk.content_hash@ == content_digest(windows[i].text@)
    &&& chunk.heading_path@ == windows[i].chat_name@ + " / parent window"@
    &&& chunk.seen_token@ == revision
    &&& prior[i] matches Some(hash) && hash@ == content_digest(windows[i].text@)
}

/// Whether `chunk` is one of the windows, to be embedded.
pub open spec fn embeds_a_window(
    chunk: PendingChunk,
    windows: Seq<ParentChunk>,
    revision: Seq<char>,
) -> bool {
    exists|i: int| #[trigger] embeds_window(chunk, windows, revision, i)
}

/// Whether `chunk` is one of the windows, to be taken over.
pub open spec fn takes_over_a_window(
    chunk: ReusedChunk,
    windows: Seq<ParentChunk>,
    prior: Seq<Option<String>>,
    revision: Seq<char>,
) -> bool {
    exists|i: int| #[trigger] takes_over_window(chunk, windows, prior, revision, i)
}

/// What is embedded is the conversation: every window is taken over or embedded
/// under its own id, an embedded one with its own text, the one whose digest is
/// recorded with it. Nothing else is embedded.
pub proof fn law_the_windows_own_text_is_embedded(
    plan: VectorPlan,
    windows: Seq<ParentChunk>,
    prior: Seq<Option<String>>,
    revision: Seq<char>,
    k: int,
)
    requires
        prior.len() == windows.len(),
    ensures
        plans(plan, windows, prior, windows.len() as int, revision) ==> {
            &&& 0 <= k < plan.pending@.len() ==> embeds_a_window(
                plan.pending@[k],
                windows,
                revision,
            )
            &&& 0 <= k < plan.reused@.len() ==> takes_over_a_window(
                plan.reused@[k],
                windows,
                prior,
                revision,
            )
            &&& plan.pending@.len() + plan.reused@.len() == windows.len()
        },
{
    if plans(plan, windows, prior, windows.len() as int, revision) {
        assert(windows.take(windows.len() as int) =~= windows);
        assert(prior.take(windows.len() as int) =~= prior);
        law_every_window_gets_a_vector(windows, prior);
        let reused = places(windows, prior, true);
        let pending = places(windows, prior, false);
        if 0 <= k < plan.pending@.len() {
            let i = pending[k];
            assert(is_pending(plan.pending@[k], windows[i], revision));
            assert(embeds_window(plan.pending@[k], windows, revision, i));
        }
        if 0 <= k < plan.reused@.len() {
            let i = reused[k];
            assert(is_reused(plan.reused@[k], windows[i], revision));
            assert(reusable(windows[i], prior[i]));
            assert(takes_over_window(plan.reused@[k], windows, prior, revision, i));
        }
    }
}

/// Two windows that are embedded get the same text only where theirs is the same,
/// whatever room they are of and however many messages they hold; the heading
/// tells the room.
pub proof fn law_embedded_texts_tell_windows_apart(
    a: PendingChunk,
    w: ParentChunk,
    b: PendingChunk,
    w2: ParentChunk,
    revision: Seq<char>,
)
    ensures
        is_pending(a, w, revision) && is_pending(b, w2, revision) ==> {
            &&& a.text@ == b.text@ <==> w.text@ == w2.text@
            &&& a.chunk_id@ == b.chunk_id@ <==> w.parent_id@ == w2.parent_id@
            &&& a.heading_path@ == b.heading_path@ <==> w.chat_name@ == w2.chat_name@
            &&& a.heading_path@.take(w.chat_name@.len() as int) == w.chat_name@
        },
{
    if is_pending(a, w, revision) && is_pending(b, w2, revision) {
        let tail = " / parent window"@;
        let (x, y) = (w.chat_name@, w2.chat_name@);
        assert((x + tail).take(x.len() as int) =~= x);
        assert((y + tail).take(y.len() as int) =~= y);
        if x + tail == y + tail {
            assert(x.len() == y.len());
        }
    }
}

/// The batches hold every text once and in order: each starts where the one
/// before it ends, the first at the start and the last at the end, and only the
/// last may be short.
pub proof fn law_batches_hold_every_text_once(
    ranges: Seq<(usize, usize)>,
    n: int,
    size: int,
)
    requires
        n >= 0,
        size >= 1,
        ranges.len() == batch_count(n, size),
        forall|k: int|
            0 <= k < ranges.len() ==> (#[trigger] ranges[k]).0 == k * size && ranges[k].1 == if (k
                + 1) * size <= n {
                (k + 1) * size
            } else {
                n
            } && ranges[k].0 < ranges[k].1,
    ensures
        n > 0 ==> ranges.len() > 0 && ranges[0].0 == 0 && ranges[ranges.len() - 1].1 == n,
        n == 0 ==> ranges.len() == 0,
        forall|k: int| 0 < k < ranges.len() ==> (#[trigger] ranges[k]).0 == ranges[k - 1].1,
        forall|k: int| 0 <= k < ranges.len() ==> (#[trigger] ranges[k]).1 - ranges[k].0 <= size,
        forall|k: int| 0 <= k < ranges.len() - 1 ==> (#[trigger] ranges[k]).1 - ranges[k].0 == size,
{
    let m = ranges.len() as int;
    if n > 0 {
        let q = (n - 1) / size;
        assert(q >= 0 && q * size <= n - 1 < (q + 1) * size) by (nonlinear_arith)
            requires
                n > 0,
                size >= 1,
                q == (n - 1) / size,
        ;
        assert(m == q + 1);
        assert(ranges[m - 1].1 == n);
        assert(0 * size == 0);
        assert(ranges[0].0 == 0);
        assert forall|k: int| 0 <= k < ranges.len() - 1 implies (#[trigger] ranges[k]).1
            - ranges[k].0 == size by {
            assert((k + 1) * size <= q * size) by (nonlinear_arith)
                requires
                    k + 1 <= q,
                    size >= 1,
            ;
            assert((k + 1) * size == k * size + size) by (nonlinear_arith);
        }
        assert forall|k: int| 0 < k < ranges.len() implies (#[trigger] ranges[k]).0 == ranges[k
            - 1].1 by {
            assert(ranges[k - 1].1 - ranges[k - 1].0 == size);
            assert(k * size == (k - 1) * size + size) by (nonlinear_arith);
        }
        assert forall|k: int| 0 <= k < ranges.len() implies (#[trigger] ranges[k]).1 - ranges[k].0
            <= size by {
            assert((k + 1) * size == k * size + size) by (nonlinear_arith);
        }
    }
}

/// A cursor is sound exactly where it is of this source, of this schema, of this
/// store and of this embedder; what is wrong with it names what it says.
pub proof fn law_a_cursor_is_held_to_every_field(cursor: SemanticCursor, embedder_id: Seq<char>)
    ensures
        cursor_problem(cursor, embedder_id) is None <==> cursor.source_id@ == SOURCE_ID@
            && cursor.chunk_schema_id@ == CHUNK_SCHEMA_ID@ && cursor.vectorstore@ == "local"@
            && cursor.embedder_id@ == embedder_id,
        cursor.source_id@ == SOURCE_ID@ && cursor.chunk_schema_id@ == CHUNK_SCHEMA_ID@
            && cursor.vectorstore@ == "local"@ && cursor.embedder_id@ != embedder_id ==> (
        cursor_problem(cursor, embedder_id) matches Some(text) && contains_text(
            text,
            cursor.embedder_id@,
        ) && contains_text(text, embedder_id)),
{
    let none = Seq::<char>::empty();
    let text = field_text("embedder"@, cursor.embedder_id@, embedder_id);
    law_a_text_holds_its_middle(
        "embedder"@ + " is "@,
        cursor.embedder_id@,
        ", expected "@ + embedder_id,
    );
    assert("embedder"@ + " is "@ + cursor.embedder_id@ + (", expected "@ + embedder_id) =~= text);
    law_a_text_holds_its_middle(
        "embedder"@ + " is "@ + cursor.embedder_id@ + ", expected "@,
        embedder_id,
        none,
    );
    assert("embedder"@ + " is "@ + cursor.embedder_id@ + ", expected "@ + embedder_id + none
        =~= text);
}

/// A generation is sound exactly where its cursor is, it is of this revision, and
/// it holds what the windows call for: one pair for each window, of its id and of
/// the digest of its text, and no other.
pub proof fn law_a_sound_generation_holds_every_window(
    cursor: SemanticCursor,
    embedder_id: Seq<char>,
    revision: Seq<char>,
    windows: Seq<ParentChunk>,
    stored: Seq<(Seq<char>, Seq<char>)>,
    i: int,
)
    ensures
        generation_problem(cursor, embedder_id, revision, windows, stored) is None ==> {
            &&& cursor.embedder_id@ == embedder_id
            &&& cursor.archive_revision@ == revision
            &&& stored.len() == windows.len()
            &&& 0 <= i < windows.len() ==> stored.contains(
                (windows[i].parent_id@, content_digest(windows[i].text@)),
            )
        },
        cursor_problem(cursor, embedder_id) is None && cursor.archive_revision@ == revision
            && stored == expected_pairs(windows) ==> generation_problem(
            cursor,
            embedder_id,
            revision,
            windows,
            stored,
        ) is None,
        cursor.archive_revision@ != revision ==> generation_problem(
            cursor,
            embedder_id,
            revision,
            windows,
            stored,
        ) is Some,
{
    lemma_pair_total_ordering();
    let all = window_pairs(windows);
    let held = expected_pairs(windows);
    all.lemma_sort_by_ensures(pair_le_fn());
    all.to_multiset_ensures();
    held.to_multiset_ensures();
    if 0 <= i < windows.len() {
        let pair = (windows[i].parent_id@, content_digest(windows[i].text@));
        assert(all[i] == pair);
        assert(all.contains(pair));
        assert(all.to_multiset().count(pair) > 0);
        assert(held.contains(pair));
    }
    law_a_cursor_is_held_to_every_field(cursor, embedder_id);
}

/// A stored pair is seen as its id and its digest, in that order.
pub proof fn law_pairs_are_seen_as_they_are(pairs: Seq<ContentPair>, i: int)
    requires
        0 <= i < pairs.len(),
    ensures
        pair_views(pairs).len() == pairs.len(),
        pair_views(pairs)[i].0 == pairs[i].chunk_id@,
        pair_views(pairs)[i].1 == pairs[i].content_hash@,
{
}

} // verus!
