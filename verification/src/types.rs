//! What is read from the source, kept in the archive and reported.

use crate::time::Moment;
use vstd::prelude::*;

verus! {

/// A message as the source gives it.
#[derive(Debug, Clone)]
pub struct RawMessage {
    pub account_hash: String,
    pub chat_id: String,
    pub chat_name: String,
    pub chat_type: String,
    pub message_id: String,
    pub sender_id: String,
    pub sender_nickname: String,
    pub timestamp: Moment,
    pub text: String,
    pub message_type: String,
    pub reply_to_message_id: Option<String>,
    /// Whether the account that is archived wrote it.
    pub is_self: bool,
    /// Whether the source says that it mentions the account owner.
    pub mentions_self: bool,
}

/// A message as the archive keeps it.
#[derive(Debug, Clone)]
pub struct StoredMessage {
    pub account_hash: String,
    pub chat_id: String,
    pub chat_name: String,
    pub chat_type: String,
    pub message_id: String,
    pub sender_nickname: String,
    /// RFC 3339.
    pub timestamp: String,
    pub text: String,
    pub message_type: String,
}

/// A run of messages of one sender, to be stored.
#[derive(Debug, Clone, PartialEq, Eq)]
pub struct ChunkDraft {
    pub chunk_id: String,
    pub account_hash: String,
    pub chat_id: String,
    pub chat_name: String,
    pub sender_nickname: String,
    pub started_at: String,
    pub ended_at: String,
    pub text: String,
    pub message_ids: Vec<String>,
}

/// What a sync changed.
#[derive(Debug, Clone)]
pub struct SyncReport {
    pub inserted_messages: usize,
    pub updated_messages: usize,
    pub total_messages: usize,
    pub chunks: usize,
    /// How many chats had their chunks computed anew.
    pub rebuilt_chats: usize,
    pub timings_ms: SyncTimings,
    /// The chats that changed, in the order of their first change.
    pub touched_chats: Vec<TouchedChat>,
    /// Whether the report shows the chats that changed.
    pub include_touched: bool,
}

/// A chat that changed, with the key of the earliest message that did.
#[derive(Debug, Clone, PartialEq, Eq)]
pub struct TouchedChat {
    pub chat_id: String,
    /// RFC 3339.
    pub earliest_changed_timestamp: String,
    pub earliest_changed_message_id: String,
}

/// Milliseconds that each stage of a sync took.
#[derive(Debug, Clone, Copy, PartialEq, Eq, Structural)]
pub struct SyncTimings {
    pub read_source: u128,
    pub upsert_messages: u128,
    pub rebuild_chunks: u128,
}

impl Default for SyncTimings {
    fn default() -> (timings: SyncTimings)
        ensures
            timings == (SyncTimings { read_source: 0, upsert_messages: 0, rebuild_chunks: 0 }),
    {
        SyncTimings { read_source: 0, upsert_messages: 0, rebuild_chunks: 0 }
    }
}

/// A chunk in a listing.
#[derive(Debug, Clone)]
pub struct ChunkListItem {
    pub chunk_id: String,
    pub chat_id: String,
    pub chat_name: String,
    pub sender_nickname: String,
    pub started_at: String,
    pub ended_at: String,
    pub message_count: usize,
    pub parent_chunk_ids: Vec<String>,
    pub window_parent_ids: Vec<String>,
}

/// A stored chunk.
#[derive(Debug, Clone)]
pub struct Chunk {
    pub chunk_id: String,
    pub chat_id: String,
    pub chat_name: String,
    pub sender_nickname: String,
    pub started_at: String,
    pub ended_at: String,
    pub text: String,
    pub message_count: usize,
    pub message_ids: Vec<String>,
    pub parent_chunk_ids: Vec<String>,
    pub window_parent_ids: Vec<String>,
}

/// A window of neighbouring chunks.
#[derive(Debug, Clone)]
pub struct ParentChunk {
    pub parent_id: String,
    pub chat_id: String,
    pub chat_name: String,
    pub started_at: String,
    pub ended_at: String,
    pub text: String,
    pub message_count: usize,
    pub child_chunk_ids: Vec<String>,
}

/// A chunk with what surrounds it.
#[derive(Debug, Clone)]
pub struct ChunkContext {
    pub chunk: Chunk,
    pub previous: Option<ChunkSummary>,
    pub next: Option<ChunkSummary>,
    pub parent_windows: Vec<ParentChunk>,
}

/// A neighbour of a chunk.
#[derive(Debug, Clone)]
pub struct ChunkSummary {
    pub chunk_id: String,
    pub chat_id: String,
    pub chat_name: String,
    pub sender_nickname: String,
    pub started_at: String,
    pub ended_at: String,
    pub message_count: usize,
    pub parent_chunk_ids: Vec<String>,
    pub window_parent_ids: Vec<String>,
}

/// Where a mention stands.
#[derive(Debug, Clone, Copy, PartialEq, Eq, Structural)]
pub enum MentionStatus {
    /// The account owner wrote nothing later in the room.
    Pending,
    /// The account owner wrote something later, but no direct reply.
    Review,
    /// The account owner replied directly.
    Answered,
}

/// A mention of the account owner.
#[derive(Debug, Clone)]
pub struct MentionInboxItem {
    pub status: MentionStatus,
    pub chat_id: String,
    pub chat_name: String,
    pub message_id: String,
    pub sender_nickname: String,
    pub timestamp: String,
    pub snippet: String,
    /// The chunk that holds the mention.
    pub chunk_id: Option<String>,
    pub response_message_id: Option<String>,
    pub response_timestamp: Option<String>,
    pub response_snippet: Option<String>,
    pub response_chunk_id: Option<String>,
}

/// How many mentions stand where.
#[derive(Debug, Clone, Copy, PartialEq, Eq, Structural)]
pub struct MentionInboxCounts {
    pub pending: usize,
    pub review: usize,
    pub answered: usize,
}

impl Default for MentionInboxCounts {
    fn default() -> (counts: MentionInboxCounts)
        ensures
            counts == (MentionInboxCounts { pending: 0, review: 0, answered: 0 }),
    {
        MentionInboxCounts { pending: 0, review: 0, answered: 0 }
    }
}

/// The mentions of the account owner since some time.
#[derive(Debug, Clone)]
pub struct MentionInboxReport {
    pub since: String,
    pub chat_id: Option<String>,
    pub counts: MentionInboxCounts,
    pub returned: usize,
    pub items: Vec<MentionInboxItem>,
}

} // verus!
