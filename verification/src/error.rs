//! What can go wrong in the library.

use crate::text::number::{decimal, decimal_usize};
use crate::text::owned;
use vstd::prelude::*;

verus! {

/// A failure of the library's logic.
#[derive(Debug)]
pub enum Error {
    /// KakaoTalk data that cannot be used, with the reason.
    Kakao(String),
    /// A timestamp that is not RFC 3339.
    Time,
    /// A chunk without messages.
    EmptyChunk,
    /// A search query without a term.
    EmptyQuery,
    /// A chunk id that nothing stored has.
    MissingChunk(String),
    /// No semantic index has been built.
    SemanticIndexMissing,
    /// The semantic index does not describe the archive, with the reason.
    SemanticIndexStale(String),
    /// A source adapter that does not exist.
    UnsupportedSource(String),
    /// Embedding failed, with the reason.
    Embedding(String),
    /// An embedding endpoint that is not on this machine.
    RemoteEmbeddingEndpoint,
    /// A setting that cannot be used, with the reason.
    Config(String),
    /// No embedding server answers.
    EmbedderUnavailable,
    /// The vector store failed, with the reason.
    MinSync(String),
    /// Reading or writing failed, with the reason.
    Io(String),
    /// A file of the index that stands for no chunk.
    InvalidSemanticPath(String),
    /// The archive's database failed, with the reason.
    Sql(String),
    /// A line of a fixture that is no message, with the reason.
    Fixture { line: usize, source: String },
    /// Another run holds the lock at this path.
    SemanticIndexBusy(String),
    /// There is no home directory.
    HomeDirUnavailable,
}

/// The sentence that reports an error.
pub open spec fn error_text(error: Error) -> Seq<char> {
    match error {
        Error::Kakao(reason) => reason@,
        Error::Time => "timestamp parse error"@,
        Error::EmptyChunk => "empty chunk cannot be stored"@,
        Error::EmptyQuery => "empty query"@,
        Error::MissingChunk(id) => "chunk not found: "@ + id@,
        Error::SemanticIndexMissing => "semantic index has never been synced"@,
        Error::SemanticIndexStale(reason) => "semantic index is stale: "@ + reason@,
        Error::UnsupportedSource(name) => "unsupported source adapter: "@ + name@,
        Error::Embedding(reason) => "embedding error: "@ + reason@,
        Error::RemoteEmbeddingEndpoint =>
            "remote embedding endpoints are disabled by default; use a loopback Jina/TEI endpoint or set allow_remote_embeddings = true"@,
        Error::Config(reason) => "config parse error: "@ + reason@,
        Error::EmbedderUnavailable =>
            "local embedding server unavailable; start TEI on http://localhost:8080 or set HYPE_EMBEDDER=mock for synthetic QA"@,
        Error::MinSync(reason) => "MinSync error: "@ + reason@,
        Error::Io(reason) => "I/O error: "@ + reason@,
        Error::InvalidSemanticPath(path) => "invalid semantic path: "@ + path@,
        Error::Sql(reason) => "SQLite error: "@ + reason@,
        Error::Fixture { line, source } => "fixture parse error on line "@ + decimal(line as nat)
            + ": "@ + source@,
        Error::SemanticIndexBusy(path) => "semantic indexing is already running: "@ + path@,
        Error::HomeDirUnavailable => "home directory is unavailable"@,
    }
}

/// The word by which a program tells errors apart.
pub open spec fn error_word(error: Error) -> Seq<char> {
    match error {
        Error::SemanticIndexMissing => "semantic_index_missing"@,
        Error::SemanticIndexStale(_) => "semantic_index_stale"@,
        Error::SemanticIndexBusy(_) => "semantic_index_busy"@,
        Error::EmptyQuery => "empty_query"@,
        Error::Sql(_) => "sqlite_error"@,
        _ => "command_failed"@,
    }
}

impl Error {
    /// The sentence that reports this error.
    pub fn message(&self) -> (text: String)
        ensures
            text@ == error_text(*self),
    {
        match self {
            Error::Kakao(reason) => reason.clone(),
            Error::Time => owned("timestamp parse error"),
            Error::EmptyChunk => owned("empty chunk cannot be stored"),
            Error::EmptyQuery => owned("empty query"),
            Error::MissingChunk(id) => owned("chunk not found: ").concat(id.as_str()),
            Error::SemanticIndexMissing => owned("semantic index has never been synced"),
            Error::SemanticIndexStale(reason) => owned("semantic index is stale: ").concat(
                reason.as_str(),
            ),
            Error::UnsupportedSource(name) => owned("unsupported source adapter: ").concat(
                name.as_str(),
            ),
            Error::Embedding(reason) => owned("embedding error: ").concat(reason.as_str()),
            Error::RemoteEmbeddingEndpoint => owned(
                "remote embedding endpoints are disabled by default; use a loopback Jina/TEI endpoint or set allow_remote_embeddings = true",
            ),
            Error::Config(reason) => owned("config parse error: ").concat(reason.as_str()),
            Error::EmbedderUnavailable => owned(
                "local embedding server unavailable; start TEI on http://localhost:8080 or set HYPE_EMBEDDER=mock for synthetic QA",
            ),
            Error::MinSync(reason) => owned("MinSync error: ").concat(reason.as_str()),
            Error::Io(reason) => owned("I/O error: ").concat(reason.as_str()),
            Error::InvalidSemanticPath(path) => owned("invalid semantic path: ").concat(
                path.as_str(),
            ),
            Error::Sql(reason) => owned("SQLite error: ").concat(reason.as_str()),
            Error::Fixture { line, source } => {
                let mut text: String = owned("fixture parse error on line ");
                text.append(decimal_usize(*line).as_str());
                text.append(": ");
                text.append(source.as_str());
                text
            },
            Error::SemanticIndexBusy(path) => owned("semantic indexing is already running: ").concat(
                path.as_str(),
            ),
            Error::HomeDirUnavailable => owned("home directory is unavailable"),
        }
    }
}

/// The word by which a program tells errors apart: that of the error, where
/// the failure was one of the library.
pub fn error_code(error: Option<&Error>) -> (word: &'static str)
    ensures
        word@ == match error {
            Some(error) => error_word(*error),
            None => "command_failed"@,
        },
{
    match error {
        Some(Error::SemanticIndexMissing) => "semantic_index_missing",
        Some(Error::SemanticIndexStale(_)) => "semantic_index_stale",
        Some(Error::SemanticIndexBusy(_)) => "semantic_index_busy",
        Some(Error::EmptyQuery) => "empty_query",
        Some(Error::Sql(_)) => "sqlite_error",
        _ => "command_failed",
    }
}

/// An error tells its reason: what it carries stands at the end of its sentence,
/// whole.
pub proof fn law_an_error_tells_its_reason(error: Error)
    ensures
        ({
            let text = error_text(error);
            match error {
                Error::Kakao(reason) => text == reason@,
                Error::MissingChunk(reason) | Error::SemanticIndexStale(reason)
                | Error::UnsupportedSource(reason) | Error::Embedding(reason)
                | Error::Config(reason) | Error::MinSync(reason) | Error::Io(reason)
                | Error::InvalidSemanticPath(reason) | Error::Sql(reason)
                | Error::SemanticIndexBusy(reason) => text.len() >= reason@.len() && text.skip(
                    text.len() - reason@.len(),
                ) == reason@,
                Error::Fixture { line, source } => text.len() >= source@.len() && text.skip(
                    text.len() - source@.len(),
                ) == source@,
                _ => true,
            }
        }),
{
    let text = error_text(error);
    match error {
        Error::MissingChunk(reason) | Error::SemanticIndexStale(reason)
        | Error::UnsupportedSource(reason) | Error::Embedding(reason) | Error::Config(reason)
        | Error::MinSync(reason) | Error::Io(reason) | Error::InvalidSemanticPath(reason)
        | Error::Sql(reason) | Error::SemanticIndexBusy(reason) => {
            assert(text.skip(text.len() - reason@.len()) =~= reason@);
        },
        Error::Fixture { line, source } => {
            assert(text.skip(text.len() - source@.len()) =~= source@);
        },
        _ => {},
    }
}

/// The words tell the errors apart that a program acts on: no two of them are the
/// same, and no other error goes by one of them.
pub proof fn law_the_words_tell_errors_apart(a: Error, b: Error)
    ensures
        error_word(a) == error_word(b) ==> {
            &&& a is SemanticIndexMissing <==> b is SemanticIndexMissing
            &&& a is SemanticIndexStale <==> b is SemanticIndexStale
            &&& a is SemanticIndexBusy <==> b is SemanticIndexBusy
            &&& a is EmptyQuery <==> b is EmptyQuery
            &&& a is Sql <==> b is Sql
        },
{
    reveal_strlit("semantic_index_missing");
    reveal_strlit("semantic_index_stale");
    reveal_strlit("semantic_index_busy");
    reveal_strlit("empty_query");
    reveal_strlit("sqlite_error");
    reveal_strlit("command_failed");
    assert("semantic_index_missing"@.len() == 22);
    assert("semantic_index_stale"@.len() == 20);
    assert("semantic_index_busy"@.len() == 19);
    assert("empty_query"@.len() == 11);
    assert("sqlite_error"@.len() == 12);
    assert("command_failed"@.len() == 14);
}

} // verus!
