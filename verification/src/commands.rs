//! What the commands decide, apart from reading and printing.

use crate::text::{owned, same};
use crate::types::Chunk;
use vstd::prelude::*;

pub mod freshness;
pub mod media;
pub mod send;
pub mod sync;

verus! {

/// What a chunk shows: its text unless it is redacted, and the ids of its
/// messages where they are asked for.
pub fn chunk_output(chunk: Chunk, redact: bool, include_message_ids: bool) -> (shown: Chunk)
    ensures
        redact ==> shown.text@ == "[redacted]"@,
        !redact ==> shown.text == chunk.text,
        include_message_ids ==> shown.message_ids == chunk.message_ids,
        !include_message_ids ==> shown.message_ids@.len() == 0,
        shown.chunk_id == chunk.chunk_id,
        shown.chat_id == chunk.chat_id,
        shown.chat_name == chunk.chat_name,
        shown.sender_nickname == chunk.sender_nickname,
        shown.started_at == chunk.started_at,
        shown.ended_at == chunk.ended_at,
        shown.message_count == chunk.message_count,
        shown.parent_chunk_ids == chunk.parent_chunk_ids,
        shown.window_parent_ids == chunk.window_parent_ids,
{
    let text: String = if redact {
        owned("[redacted]")
    } else {
        chunk.text
    };
    let message_ids: Vec<String> = if include_message_ids {
        chunk.message_ids
    } else {
        Vec::new()
    };
    Chunk {
        chunk_id: chunk.chunk_id,
        chat_id: chunk.chat_id,
        chat_name: chunk.chat_name,
        sender_nickname: chunk.sender_nickname,
        started_at: chunk.started_at,
        ended_at: chunk.ended_at,
        text,
        message_count: chunk.message_count,
        message_ids,
        parent_chunk_ids: chunk.parent_chunk_ids,
        window_parent_ids: chunk.window_parent_ids,
    }
}

/// Why a command does nothing.
#[derive(Debug, Clone, Copy, PartialEq, Eq, Structural)]
pub enum Refusal {
    /// Wiping the semantic index was not confirmed.
    WipeNotConfirmed,
    /// There is no archive to index.
    NoArchive,
    /// Documents are written without vectors for the mock embedder only.
    NoMockEmbedder,
}

/// The sentence that reports a refusal.
pub open spec fn refusal_text(refusal: Refusal) -> Seq<char> {
    match refusal {
        Refusal::WipeNotConfirmed => "refusing to wipe semantic index without --yes"@,
        Refusal::NoArchive => "archive is missing; run katok sync before katok index"@,
        Refusal::NoMockEmbedder =>
            "local embedding server unavailable; start Jina v4 locally or set HYPE_EMBEDDER=mock for fixture QA"@,
    }
}

impl Refusal {
    /// The sentence that reports this refusal.
    pub fn text(self) -> (text: &'static str)
        ensures
            text@ == refusal_text(self),
    {
        match self {
            Refusal::WipeNotConfirmed => "refusing to wipe semantic index without --yes",
            Refusal::NoArchive => "archive is missing; run katok sync before katok index",
            Refusal::NoMockEmbedder =>
                "local embedding server unavailable; start Jina v4 locally or set HYPE_EMBEDDER=mock for fixture QA",
        }
    }
}

/// Whether the semantic index is wiped: only where that was confirmed.
pub fn check_wipe(yes: bool) -> (r: Result<(), Refusal>)
    ensures
        r is Ok <==> yes,
        r matches Err(e) ==> e == Refusal::WipeNotConfirmed,
{
    if yes {
        Ok(())
    } else {
        Err(Refusal::WipeNotConfirmed)
    }
}

/// Whether there is an archive to index.
pub fn check_archive(is_file: bool) -> (r: Result<(), Refusal>)
    ensures
        r is Ok <==> is_file,
        r matches Err(e) ==> e == Refusal::NoArchive,
{
    if is_file {
        Ok(())
    } else {
        Err(Refusal::NoArchive)
    }
}

/// Whether documents may be written without vectors.
pub fn require_fixture_embedder(mode: &str) -> (r: Result<(), Refusal>)
    ensures
        r is Ok <==> mode@ == "mock"@,
        r matches Err(e) ==> e == Refusal::NoMockEmbedder,
{
    if same(mode, "mock") {
        Ok(())
    } else {
        Err(Refusal::NoMockEmbedder)
    }
}

} // verus!
