//! Whether what is searched is up to date, and what to run where it is not.

use crate::error::{error_text, Error};
use crate::semantic::live::SemanticCursor;
use crate::text::split::{contains_text, law_a_text_holds_its_middle, occurs_at};
use crate::text::{owned, same};
use vstd::prelude::*;

verus! {

/// The last sync that completed.
#[derive(Debug, Clone)]
pub struct SyncFreshness {
    /// RFC 3339.
    pub completed_at: String,
    pub source: String,
    pub total_messages: usize,
    pub chunks: usize,
}

/// The semantic index that is committed.
#[derive(Debug, Clone)]
pub struct IndexFreshness {
    /// RFC 3339.
    pub completed_at: String,
    pub embedder: String,
    pub vectorstore: String,
    pub semantic_units: String,
    pub embedded_texts: usize,
    pub archive_revision: String,
}

/// What to run before a search.
#[derive(Debug, Clone)]
pub struct FreshnessRecommendation {
    pub sync_before_search: bool,
    pub index_before_semantic_search: bool,
    pub reason: String,
}

/// What is known of the state of the archive and the index.
#[derive(Debug, Clone)]
pub struct FreshnessStatus {
    pub last_sync: Option<SyncFreshness>,
    pub last_index: Option<IndexFreshness>,
    pub recommendation: FreshnessRecommendation,
}

/// The archive, as far as the recommendation reads it.
#[derive(Debug)]
pub enum ArchiveState {
    /// There is no archive.
    Missing,
    /// The archive has this revision.
    Revision(String),
    /// The revision could not be read, with the reason.
    Unreadable(String),
}

/// A recommendation as a view.
pub struct RecommendationView {
    pub sync: bool,
    pub index: bool,
    pub reason: Seq<char>,
}

impl View for FreshnessRecommendation {
    type V = RecommendationView;

    open spec fn view(&self) -> RecommendationView {
        RecommendationView {
            sync: self.sync_before_search,
            index: self.index_before_semantic_search,
            reason: self.reason@,
        }
    }
}

/// The recommendation where nothing was ever run.
pub open spec fn recommended_at_first() -> RecommendationView {
    RecommendationView {
        sync: true,
        index: true,
        reason:
            "run katok sync --source macos --json, then katok index --json before search"@,
    }
}

impl Default for FreshnessRecommendation {
    fn default() -> (r: Self)
        ensures
            r@ == recommended_at_first(),
    {
        FreshnessRecommendation {
            sync_before_search: true,
            index_before_semantic_search: true,
            reason: owned(
                "run katok sync --source macos --json, then katok index --json before search",
            ),
        }
    }
}

impl Default for FreshnessStatus {
    fn default() -> (status: Self)
        ensures
            status.last_sync is None,
            status.last_index is None,
            status.recommendation@ == recommended_at_first(),
    {
        FreshnessStatus {
            last_sync: None,
            last_index: None,
            recommendation: FreshnessRecommendation::default(),
        }
    }
}

/// The recommendation from what was recorded alone.
pub open spec fn recommended_by_records(synced: bool, indexed: bool) -> RecommendationView {
    RecommendationView {
        sync: !synced,
        index: !indexed,
        reason: if !synced {
            "no sync has completed; run katok sync --source macos --json before search"@
        } else if !indexed {
            "no semantic index has completed; run katok index --json before semantic search"@
        } else {
            "archive and semantic index have completed at least once; re-run sync/index when freshness matters"@
        },
    }
}

/// The recommendation from what was recorded alone.
pub fn recommendation_from_records(status: &FreshnessStatus) -> (r: FreshnessRecommendation)
    ensures
        r@ == recommended_by_records(status.last_sync is Some, status.last_index is Some),
{
    let synced: bool = status.last_sync.is_some();
    let indexed: bool = status.last_index.is_some();
    let reason: &str = if !synced {
        "no sync has completed; run katok sync --source macos --json before search"
    } else if !indexed {
        "no semantic index has completed; run katok index --json before semantic search"
    } else {
        "archive and semantic index have completed at least once; re-run sync/index when freshness matters"
    };
    FreshnessRecommendation {
        sync_before_search: !synced,
        index_before_semantic_search: !indexed,
        reason: owned(reason),
    }
}

/// The recommendation, with the committed index and the archive looked at:
/// `indexed` is the revision that the committed index was built from.
pub open spec fn recommended(
    synced: bool,
    indexed: Option<Seq<char>>,
    committed_error: Option<Seq<char>>,
    archive: ArchiveState,
) -> RecommendationView {
    let base = recommended_by_records(synced, indexed is Some);
    if !synced {
        base
    } else if committed_error is Some {
        RecommendationView {
            sync: false,
            index: true,
            reason: "semantic index is corrupt ("@ + committed_error->0
                + "); run katok index --json before semantic search"@,
        }
    } else {
        match indexed {
            None => base,
            Some(committed) => match archive {
                ArchiveState::Missing => RecommendationView {
                    sync: true,
                    index: true,
                    reason:
                        "archive is missing; run katok sync --source macos --json, then katok index --json before search"@,
                },
                ArchiveState::Revision(current) => if current@ == committed {
                    base
                } else {
                    RecommendationView {
                        sync: false,
                        index: true,
                        reason:
                            "archive revision is newer than the committed semantic index; run katok index --json before semantic search"@,
                    }
                },
                ArchiveState::Unreadable(reason) => RecommendationView {
                    sync: false,
                    index: true,
                    reason: "archive revision could not be read ("@ + reason@
                        + "); repair the archive before semantic search"@,
                },
            },
        }
    }
}

/// What to run before a search.
pub fn recommendation(
    status: &FreshnessStatus,
    committed_error: Option<&str>,
    archive: &ArchiveState,
) -> (r: FreshnessRecommendation)
    ensures
        r@ == recommended(
            status.last_sync is Some,
            match status.last_index {
                Some(index) => Some(index.archive_revision@),
                None => None,
            },
            match committed_error {
                Some(error) => Some(error@),
                None => None,
            },
            *archive,
        ),
{
    let base = recommendation_from_records(status);
    if base.sync_before_search {
        return base;
    }
    if let Some(error) = committed_error {
        let mut reason: String = owned("semantic index is corrupt (");
        reason.append(error);
        reason.append("); run katok index --json before semantic search");
        return FreshnessRecommendation {
            sync_before_search: false,
            index_before_semantic_search: true,
            reason,
        };
    }
    match &status.last_index {
        None => base,
        Some(index) => match archive {
            ArchiveState::Missing => FreshnessRecommendation {
                sync_before_search: true,
                index_before_semantic_search: true,
                reason: owned(
                    "archive is missing; run katok sync --source macos --json, then katok index --json before search",
                ),
            },
            ArchiveState::Revision(current) => if same(
                current.as_str(),
                index.archive_revision.as_str(),
            ) {
                base
            } else {
                FreshnessRecommendation {
                    sync_before_search: false,
                    index_before_semantic_search: true,
                    reason: owned(
                        "archive revision is newer than the committed semantic index; run katok index --json before semantic search",
                    ),
                }
            },
            ArchiveState::Unreadable(error) => {
                let mut reason: String = owned("archive revision could not be read (");
                reason.append(error.as_str());
                reason.append("); repair the archive before semantic search");
                FreshnessRecommendation {
                    sync_before_search: false,
                    index_before_semantic_search: true,
                    reason,
                }
            },
        },
    }
}

/// What is told of the committed index.
pub fn index_freshness(cursor: SemanticCursor) -> (r: IndexFreshness)
    ensures
        r.completed_at == cursor.completed_at,
        r.embedder == cursor.embedder_id,
        r.vectorstore == cursor.vectorstore,
        r.semantic_units == cursor.semantic_units,
        r.embedded_texts == cursor.embedded_texts,
        r.archive_revision == cursor.archive_revision,
{
    IndexFreshness {
        completed_at: cursor.completed_at,
        embedder: cursor.embedder_id,
        vectorstore: cursor.vectorstore,
        semantic_units: cursor.semantic_units,
        embedded_texts: cursor.embedded_texts,
        archive_revision: cursor.archive_revision,
    }
}

/// What is wrong with the committed index: nothing where there is none.
pub open spec fn committed_problem(committed: Result<SemanticCursor, Error>) -> Option<Seq<char>> {
    match committed {
        Ok(_) => None,
        Err(Error::SemanticIndexMissing) => None,
        Err(error) => Some(error_text(error)),
    }
}

/// The status from what was recorded, the committed index and the archive. The
/// committed index counts, whatever was recorded of it.
pub fn current_status(
    recorded: FreshnessStatus,
    committed: Result<SemanticCursor, Error>,
    archive: &ArchiveState,
) -> (status: FreshnessStatus)
    ensures
        status.last_sync == recorded.last_sync,
        status.last_index is Some <==> committed is Ok,
        committed matches Ok(cursor) ==> status.last_index matches Some(index)
            && index.completed_at == cursor.completed_at && index.embedder == cursor.embedder_id
            && index.vectorstore == cursor.vectorstore && index.semantic_units
            == cursor.semantic_units && index.embedded_texts == cursor.embedded_texts
            && index.archive_revision == cursor.archive_revision,
        status.recommendation@ == recommended(
            recorded.last_sync is Some,
            match committed {
                Ok(cursor) => Some(cursor.archive_revision@),
                Err(_) => None,
            },
            committed_problem(committed),
            *archive,
        ),
{
    let problem: Option<String> = match &committed {
        Ok(_) => None,
        Err(Error::SemanticIndexMissing) => None,
        Err(error) => Some(error.message()),
    };
    let last_index: Option<IndexFreshness> = match committed {
        Ok(cursor) => Some(index_freshness(cursor)),
        Err(_) => None,
    };
    let raw = FreshnessStatus {
        last_sync: recorded.last_sync,
        last_index,
        recommendation: recorded.recommendation,
    };
    let told = match &problem {
        Some(text) => recommendation(&raw, Some(text.as_str()), archive),
        None => recommendation(&raw, None, archive),
    };
    FreshnessStatus {
        last_sync: raw.last_sync,
        last_index: raw.last_index,
        recommendation: told,
    }
}

/// The status after a sync completed.
pub fn record_sync(
    recorded: FreshnessStatus,
    completed_at: String,
    source: &str,
    total_messages: usize,
    chunks: usize,
) -> (status: FreshnessStatus)
    ensures
        status.last_sync matches Some(sync) && sync.completed_at == completed_at && sync.source@
            == source@ && sync.total_messages == total_messages && sync.chunks == chunks,
        status.last_index == recorded.last_index,
        status.recommendation@ == recommended_by_records(true, recorded.last_index is Some),
{
    let raw = FreshnessStatus {
        last_sync: Some(
            SyncFreshness { completed_at, source: owned(source), total_messages, chunks },
        ),
        last_index: recorded.last_index,
        recommendation: recorded.recommendation,
    };
    let told = recommendation_from_records(&raw);
    FreshnessStatus {
        last_sync: raw.last_sync,
        last_index: raw.last_index,
        recommendation: told,
    }
}

/// An index that was not built from the archive as it stands is never called fresh.
pub proof fn law_stale_index_is_never_fresh(
    synced: bool,
    indexed: Option<Seq<char>>,
    committed_error: Option<Seq<char>>,
    archive: ArchiveState,
)
    ensures
        !recommended(synced, indexed, committed_error, archive).sync && !recommended(
            synced,
            indexed,
            committed_error,
            archive,
        ).index ==> synced && committed_error is None && indexed is Some && (
        archive matches ArchiveState::Revision(current) && current@ == indexed->0),
        synced && committed_error is None && indexed is Some && (archive matches ArchiveState::Revision(
            current,
        ) && current@ == indexed->0) ==> !recommended(
            synced,
            indexed,
            committed_error,
            archive,
        ).index,
{
}

/// A sync is called for where none has completed, or where an index is there and
/// its archive is not; an index is called for with it, and where there is none,
/// where it is damaged, or where it was not built from the archive as it stands.
pub proof fn law_what_is_called_for(
    synced: bool,
    indexed: Option<Seq<char>>,
    committed_error: Option<Seq<char>>,
    archive: ArchiveState,
)
    ensures
        ({
            let r = recommended(synced, indexed, committed_error, archive);
            &&& !synced ==> r.sync
            &&& r.sync <==> !synced || (committed_error is None && indexed is Some && archive is Missing)
            &&& indexed is None ==> r.index
            &&& synced && committed_error is Some ==> r.index
            &&& synced && indexed is Some && !(archive matches ArchiveState::Revision(current)
                && current@ == indexed->0) ==> r.index
        }),
        recommended_at_first().sync && recommended_at_first().index,
{
}

/// A sentence that calls for a sync names the command for it, and so does one
/// that calls for an index alone.
pub proof fn law_the_sentence_names_the_command(synced: bool, indexed: bool)
    ensures
        !synced ==> contains_text(recommended_by_records(synced, indexed).reason, "katok sync"@),
        synced && !indexed ==> contains_text(
            recommended_by_records(synced, indexed).reason,
            "katok index"@,
        ),
        contains_text(recommended_at_first().reason, "katok sync"@),
{
    reveal_strlit("katok sync");
    reveal_strlit("katok index");
    reveal_strlit("no sync has completed; run katok sync --source macos --json before search");
    reveal_strlit("no semantic index has completed; run katok index --json before semantic search");
    reveal_strlit("run katok sync --source macos --json, then katok index --json before search");
    let a = "no sync has completed; run katok sync --source macos --json before search"@;
    let b = "no semantic index has completed; run katok index --json before semantic search"@;
    let c = "run katok sync --source macos --json, then katok index --json before search"@;
    assert(a.subrange(27, 37) =~= "katok sync"@);
    assert(occurs_at(a, "katok sync"@, 27));
    assert(b.subrange(37, 48) =~= "katok index"@);
    assert(occurs_at(b, "katok index"@, 37));
    assert(c.subrange(4, 14) =~= "katok sync"@);
    assert(occurs_at(c, "katok sync"@, 4));
}

/// A committed index is damaged where reading it failed, but not where there is
/// none.
pub proof fn law_a_missing_index_is_not_damaged(committed: Result<SemanticCursor, Error>)
    ensures
        committed is Ok ==> committed_problem(committed) is None,
        committed matches Err(error) ==> (error is SemanticIndexMissing <==> committed_problem(
            committed,
        ) is None),
{
}

/// Nothing is called for where a sync has completed and the index was built, without
/// damage, from the archive as it stands; and what went wrong with an index or an
/// archive is told in its own words.
pub proof fn law_a_current_index_needs_nothing(
    indexed: Seq<char>,
    archive: ArchiveState,
    error: Seq<char>,
    reason: String,
    any: Option<Seq<char>>,
)
    ensures
        (archive matches ArchiveState::Revision(current) && current@ == indexed) ==> {
            let r = recommended(true, Some(indexed), None, archive);
            !r.sync && !r.index
        },
        contains_text(recommended(true, any, Some(error), archive).reason, error),
        contains_text(
            recommended(true, Some(indexed), None, ArchiveState::Unreadable(reason)).reason,
            reason@,
        ),
{
    law_a_text_holds_its_middle(
        "semantic index is corrupt ("@,
        error,
        "); run katok index --json before semantic search"@,
    );
    law_a_text_holds_its_middle(
        "archive revision could not be read ("@,
        reason@,
        "); repair the archive before semantic search"@,
    );
}

} // verus!
