//! Cutting only what a sync changed leaves the archive that cutting everything would.

use std::collections::BTreeMap;

use katok::archive::reconcile::{reconcile_deletions, DeletedMessage, SourceMessage, StoredKey};
use katok::archive::replies::{parent_refs, reply_edges, PlacedMessage, ReplyMessage};
use katok::archive::row::{compare_row, message_row, MessageRow};
use katok::archive::sync::{sync_outcome, sync_report, MessageChange, SyncOutcome};
use katok::chunking::tail::{replace_chunk_tail, tail_rebuild_start, ChunkSpan};
use katok::chunking::{build_chunks, ChunkSettings};
use katok::commands::sync::report_deleted;
use katok::error::Error;
use katok::search::keyword::keyword_search_with_snippet;
use katok::time::Moment;
use katok::types::{Chunk, ChunkDraft, RawMessage, StoredMessage, TouchedChat};

/// 2026-01-01T00:00:00Z.
const BASE: i64 = 1_767_225_600;

fn raw(
    chat_id: &str,
    message_id: &str,
    sender_nickname: &str,
    offset: i64,
    text: &str,
    reply_to_message_id: Option<&str>,
) -> RawMessage {
    RawMessage {
        account_hash: "acct".to_string(),
        chat_id: chat_id.to_string(),
        chat_name: format!("방-{chat_id}"),
        chat_type: "group".to_string(),
        message_id: message_id.to_string(),
        sender_id: format!("u-{sender_nickname}"),
        sender_nickname: sender_nickname.to_string(),
        timestamp: Moment {
            seconds: BASE + offset,
            nanos: 0,
        },
        text: text.to_string(),
        message_type: "text".to_string(),
        reply_to_message_id: reply_to_message_id.map(str::to_string),
        is_self: false,
        mentions_self: false,
    }
}

fn rfc3339(message: &RawMessage) -> String {
    message_row(message).expect("row").timestamp
}

/// An archive in memory: rows by chat and message, chunks by chat.
#[derive(Default)]
struct Archive {
    rows: BTreeMap<(String, String), MessageRow>,
    chunks: BTreeMap<String, Vec<ChunkDraft>>,
}

impl Archive {
    fn sync_messages(&mut self, messages: &[RawMessage]) -> SyncOutcome {
        let changes: Vec<MessageChange> = messages
            .iter()
            .map(|message| {
                let row = message_row(message).expect("row");
                let key = (message.chat_id.clone(), message.message_id.clone());
                let change = compare_row(self.rows.get(&key), &row);
                self.rows.insert(key, row);
                change
            })
            .collect();
        sync_outcome(messages, &changes).expect("sync")
    }

    fn messages(&self, chat: &str, floor: Option<&str>) -> Vec<StoredMessage> {
        let mut messages: Vec<StoredMessage> = self
            .rows
            .iter()
            .filter(|((id, _), row)| id == chat && row.timestamp.as_str() >= floor.unwrap_or(""))
            .map(|((chat_id, message_id), row)| StoredMessage {
                account_hash: "acct".to_string(),
                chat_id: chat_id.clone(),
                chat_name: row.chat_name.clone(),
                chat_type: row.chat_type.clone(),
                message_id: message_id.clone(),
                sender_nickname: row.sender_nickname.clone(),
                timestamp: row.timestamp.clone(),
                text: row.text.clone(),
                message_type: row.message_type.clone(),
            })
            .collect();
        messages.sort_by(|a, b| {
            (&a.timestamp, &a.message_id).cmp(&(&b.timestamp, &b.message_id))
        });
        messages
    }

    fn rebuild_chunks(&mut self) {
        let chats: Vec<String> = self.rows.keys().map(|key| key.0.clone()).collect();
        for chat in chats {
            let chunks = build_chunks(&self.messages(&chat, None), ChunkSettings::default())
                .expect("chunks");
            self.chunks.insert(chat, chunks);
        }
    }

    fn tail_rebuild_start(&self, chat: &str, changed: &str) -> Option<String> {
        let spans: Vec<ChunkSpan> = self
            .chunks
            .get(chat)
            .into_iter()
            .flatten()
            .map(|chunk| ChunkSpan {
                started_at: chunk.started_at.clone(),
                ended_at: chunk.ended_at.clone(),
            })
            .collect();
        tail_rebuild_start(&spans, changed).expect("resolve cut")
    }

    fn rebuild_chunks_for_chats(&mut self, touched: &[TouchedChat]) {
        for chat in touched {
            let floor = self.tail_rebuild_start(&chat.chat_id, &chat.earliest_changed_timestamp);
            let messages = self.messages(&chat.chat_id, floor.as_deref());
            let drafts = build_chunks(&messages, ChunkSettings::default()).expect("chunks");
            let stored = self.chunks.remove(&chat.chat_id).unwrap_or_default();
            let replaced = replace_chunk_tail(stored, floor.as_deref(), drafts);
            self.chunks.insert(chat.chat_id.clone(), replaced);
        }
    }

    /// Removes what the source reaches and does not report.
    fn prune(&mut self, source: &[RawMessage]) -> Vec<DeletedMessage> {
        let reported: Vec<SourceMessage> = source
            .iter()
            .map(|message| SourceMessage {
                chat_id: message.chat_id.clone(),
                message_id: message.message_id.clone(),
                timestamp: rfc3339(message),
            })
            .collect();
        let stored: Vec<StoredKey> = self
            .rows
            .iter()
            .map(|((chat_id, message_id), row)| StoredKey {
                chat_id: chat_id.clone(),
                message_id: message_id.clone(),
                timestamp: row.timestamp.clone(),
            })
            .collect();
        let deleted = reconcile_deletions(&reported, &stored);
        for message in &deleted {
            self.rows.remove(&(message.chat_id.clone(), message.message_id.clone()));
        }
        deleted
    }

    /// The ids of the chunks that a keyword search finds.
    fn keyword(&self, query: &str) -> Vec<String> {
        let chunks = self
            .chunks
            .values()
            .flatten()
            .map(|draft| Chunk {
                chunk_id: draft.chunk_id.clone(),
                chat_id: draft.chat_id.clone(),
                chat_name: draft.chat_name.clone(),
                sender_nickname: draft.sender_nickname.clone(),
                started_at: draft.started_at.clone(),
                ended_at: draft.ended_at.clone(),
                text: draft.text.clone(),
                message_count: draft.message_ids.len(),
                message_ids: draft.message_ids.clone(),
                parent_chunk_ids: Vec::new(),
                window_parent_ids: Vec::new(),
            })
            .collect();
        keyword_search_with_snippet(chunks, query, 10, 80)
            .expect("hits")
            .into_iter()
            .map(|hit| hit.chunk_id)
            .collect()
    }

    fn replies(&self) -> (Vec<ReplyMessage>, Vec<PlacedMessage>) {
        let messages = self
            .rows
            .iter()
            .map(|((chat_id, message_id), row)| ReplyMessage {
                chat_id: chat_id.clone(),
                message_id: message_id.clone(),
                reply_to_message_id: row.reply_to_message_id.clone(),
            })
            .collect();
        let placed = self
            .chunks
            .values()
            .flatten()
            .flat_map(|chunk| {
                chunk.message_ids.iter().map(|message_id| PlacedMessage {
                    chunk_id: chunk.chunk_id.clone(),
                    message_id: message_id.clone(),
                })
            })
            .collect();
        (messages, placed)
    }

    fn parent_refs(&self) -> usize {
        let (messages, placed) = self.replies();
        parent_refs(&messages, &placed, None).len()
    }

    /// Every chunk, edge and reference, as comparable text.
    fn snapshot(&self) -> Vec<String> {
        let (messages, placed) = self.replies();
        let mut rows: Vec<String> =
            self.chunks.values().flatten().map(|chunk| format!("{chunk:?}")).collect();
        for edge in reply_edges(&messages, &placed, None) {
            rows.push(format!("{edge:?}"));
        }
        for reference in parent_refs(&messages, &placed, None) {
            rows.push(format!("{reference:?}"));
        }
        rows.sort();
        rows
    }

    /// Every message stands in exactly one chunk.
    fn assert_covered(&self, expected_messages: usize) {
        assert_eq!(self.rows.len(), expected_messages);
        let mut ids: Vec<&String> =
            self.chunks.values().flatten().flat_map(|chunk| &chunk.message_ids).collect();
        assert_eq!(ids.len(), expected_messages);
        ids.sort();
        ids.dedup();
        assert_eq!(ids.len(), expected_messages);
    }
}

fn built(messages: &[RawMessage]) -> Archive {
    let mut archive = Archive::default();
    archive.sync_messages(messages);
    archive.rebuild_chunks();
    archive
}

/// One chat of one sender, a minute apart, and a second chat that starts later
/// in the list.
fn synthetic_conversation() -> Vec<RawMessage> {
    let mut messages = Vec::new();
    for idx in 0..12 {
        messages.push(RawMessage {
            chat_name: "그룹방".to_string(),
            sender_id: "u1".to_string(),
            ..raw("A", &format!("a{idx:03}"), "보글이", 60 * idx, &format!("메시지 {idx}"), None)
        });
    }
    for idx in 0..4 {
        messages.push(RawMessage {
            chat_name: "1:1".to_string(),
            chat_type: "direct".to_string(),
            sender_id: "u2".to_string(),
            ..raw("B", &format!("b{idx:03}"), "부리", 30 * idx, &format!("직접 {idx}"), None)
        });
    }
    messages
}

/// Three bursts in one chat with long pauses between them; the senders take turns.
fn bursty_conversation() -> (Vec<RawMessage>, usize) {
    let senders = ["보글이", "부리"];
    let starts = [0i64, 520, 1040];
    let mut messages = Vec::new();
    let mut idx = 0usize;
    for (burst, start) in starts.iter().enumerate() {
        for within in 0..3usize {
            messages.push(RawMessage {
                chat_name: "버스트방".to_string(),
                sender_id: format!("u{}", idx % 2),
                ..raw(
                    "G",
                    &format!("g{burst}{within}"),
                    senders[idx % 2],
                    start + 60 * within as i64,
                    &format!("메시지 {idx}"),
                    None,
                )
            });
            idx += 1;
        }
    }
    (messages, 6)
}

/// A change without a time: the whole chat is cut anew.
fn whole_chat(chat_id: &str) -> TouchedChat {
    TouchedChat {
        chat_id: chat_id.to_string(),
        earliest_changed_timestamp: String::new(),
        earliest_changed_message_id: String::new(),
    }
}

#[test]
fn per_chat_rebuild_matches_a_full_rebuild_of_the_same_archive() {
    let mut messages = synthetic_conversation();
    messages.extend(bursty_conversation().0);
    messages[15].reply_to_message_id = Some("b000".to_string());
    messages[24].reply_to_message_id = Some("g00".to_string());
    let full = built(&messages);
    let mut scoped = built(&messages);
    let touched: Vec<TouchedChat> = ["A", "B", "G"].into_iter().map(whole_chat).collect();
    scoped.rebuild_chunks_for_chats(&touched);
    assert_eq!(full.snapshot(), scoped.snapshot());
    assert!(full.parent_refs() > 0);
}

#[test]
fn edges_and_references_of_the_touched_chats_are_enough() {
    let (mut messages, _) = bursty_conversation();
    for message in bursty_conversation().0 {
        messages.push(RawMessage {
            chat_id: "H".to_string(),
            message_id: message.message_id.replace('g', "h"),
            reply_to_message_id: Some(message.message_id.clone()),
            ..message
        });
    }
    messages.push(raw("U", "u0", "부리", 10, "밖에서", Some("g20")));
    messages.push(raw("U", "u1", "보글이", 400, "안에서", Some("u0")));
    let mut archive = built(&messages);
    let (replies, placed) = archive.replies();
    let mut edges = reply_edges(&replies, &placed, None);
    let mut references = parent_refs(&replies, &placed, None);
    assert!(!references.is_empty());

    // One chat gets a message, one answers another message; the third is left alone.
    let mut edited = messages[17].clone();
    assert_eq!(edited.message_id, "h22");
    edited.reply_to_message_id = Some("g23".to_string());
    let wave = [raw("G", "g23", "보글이", 1230, "이어서", Some("h20")), edited];
    let report = archive.sync_messages(&wave);
    assert_eq!(report.touched.len(), 2);
    let mut gone: Vec<String> = Vec::new();
    for chat in &report.touched {
        let floor = archive.tail_rebuild_start(&chat.chat_id, &chat.earliest_changed_timestamp);
        gone.extend(
            archive.chunks[&chat.chat_id]
                .iter()
                .filter(|chunk| floor.as_deref().map_or(true, |f| chunk.started_at.as_str() >= f))
                .map(|chunk| chunk.chunk_id.clone()),
        );
    }
    archive.rebuild_chunks_for_chats(&report.touched);
    references.retain(|r| !gone.contains(&r.child_chunk_id) && !gone.contains(&r.parent_chunk_id));
    let (replies, placed) = archive.replies();
    for chat in &report.touched {
        edges.retain(|edge| {
            !replies
                .iter()
                .any(|m| m.chat_id == chat.chat_id && m.message_id == edge.child_message_id)
        });
        edges.extend(reply_edges(&replies, &placed, Some(&chat.chat_id)));
        references.extend(parent_refs(&replies, &placed, Some(&chat.chat_id)));
    }

    let lines = |rows: Vec<String>| {
        let mut rows = rows;
        rows.sort();
        rows.dedup();
        rows
    };
    // A reply from the chat that was left alone keeps the chunk that it led to.
    let inside = |child: &str| child != "u0";
    let all_edges = reply_edges(&replies, &placed, None);
    assert_eq!(
        lines(
            edges
                .iter()
                .filter(|e| inside(&e.child_message_id))
                .map(|e| format!("{e:?}"))
                .collect()
        ),
        lines(
            all_edges
                .iter()
                .filter(|e| inside(&e.child_message_id))
                .map(|e| format!("{e:?}"))
                .collect()
        )
    );
    assert_eq!(
        lines(references.iter().map(|r| format!("{r:?}")).collect()),
        lines(
            parent_refs(&replies, &placed, None)
                .iter()
                .map(|r| format!("{r:?}"))
                .collect()
        )
    );
}

#[test]
fn cli_prune_deleted_rebuilds_before_the_later_edit_floor() {
    let row = |id: &str, offset: i64, text: &str| RawMessage {
        account_hash: "acct-x".to_string(),
        chat_name: "Synthetic".to_string(),
        sender_id: "u1".to_string(),
        ..raw("chat-prune", id, "tester", offset, text, None)
    };
    let initial = [
        row("m0", 0, "앞 문장"),
        row("m1", 10, "지워질 검색어"),
        row("m2", 600, "뒤 문장"),
        row("m3", 610, "수정 전"),
    ];
    let mut archive = Archive::default();
    let seed = archive.sync_messages(&initial);
    archive.rebuild_chunks_for_chats(&seed.touched);
    assert_eq!(archive.keyword("지워질 검색어").len(), 1);

    let updated = [
        row("m0", 0, "앞 문장"),
        row("m2", 600, "뒤 문장"),
        row("m3", 610, "수정 후"),
    ];
    let outcome = archive.sync_messages(&updated);
    let mut report = sync_report(outcome, archive.rows.len(), 0);
    let deleted = archive.prune(&updated);
    report_deleted(&mut report, &deleted);
    archive.rebuild_chunks_for_chats(&report.touched_chats);

    assert_eq!(report.total_messages, 3);
    assert_eq!(archive.keyword("지워질 검색어").len(), 0);
    assert_eq!(archive.keyword("수정 후").len(), 1);
    assert_eq!(archive.snapshot(), built(&updated).snapshot());
}

#[test]
fn an_incremental_wave_after_a_gap_rebuilds_only_the_tail_and_matches_a_full_rebuild() {
    let (messages, split) = bursty_conversation();
    let full = built(&messages);

    let mut staged = Archive::default();
    let seed = staged.sync_messages(&messages[..split]);
    staged.rebuild_chunks_for_chats(&seed.touched);

    let wave = staged.sync_messages(&messages[split..]);
    let cut = staged.tail_rebuild_start("G", &wave.touched[0].earliest_changed_timestamp);
    assert_eq!(cut, Some(rfc3339(&messages[3])));
    staged.rebuild_chunks_for_chats(&wave.touched);

    assert_eq!(full.snapshot(), staged.snapshot());
}

#[test]
fn arriving_messages_extend_chunks_the_same_way_a_full_rebuild_would() {
    let messages = synthetic_conversation();
    let split = 8;
    let full = built(&messages);

    let mut staged = Archive::default();
    for wave in [&messages[..split], &messages[split..]] {
        let report = staged.sync_messages(wave);
        staged.rebuild_chunks_for_chats(&report.touched);
    }

    assert_eq!(full.snapshot(), staged.snapshot());
}

#[test]
fn an_in_place_nickname_change_widens_the_cut_and_matches_a_full_rebuild() {
    let (mut messages, _split) = bursty_conversation();
    let mut full = built(&messages);
    let mut staged = built(&messages);

    messages[1].sender_nickname = "하울".to_string();
    let change = [messages[1].clone()];
    full.sync_messages(&change);
    full.rebuild_chunks();

    let staged_report = staged.sync_messages(&change);
    assert_eq!(staged_report.updated, 1);
    let cut = staged.tail_rebuild_start("G", &staged_report.touched[0].earliest_changed_timestamp);
    assert_eq!(cut, None);
    staged.rebuild_chunks_for_chats(&staged_report.touched);
    assert_eq!(full.snapshot(), staged.snapshot());

    messages[4].sender_nickname = "새미".to_string();
    let mid = [messages[4].clone()];
    full.sync_messages(&mid);
    full.rebuild_chunks();
    let staged_mid = staged.sync_messages(&mid);
    let mid_cut = staged.tail_rebuild_start("G", &staged_mid.touched[0].earliest_changed_timestamp);
    assert_eq!(mid_cut, Some(rfc3339(&messages[3])));
    staged.rebuild_chunks_for_chats(&staged_mid.touched);
    assert_eq!(full.snapshot(), staged.snapshot());
    staged.assert_covered(messages.len());
}

#[test]
fn a_backfill_between_bursts_with_a_cross_chunk_reply_matches_a_full_rebuild() {
    let (mut messages, _split) = bursty_conversation();
    let last = messages.len() - 1;
    messages[last].reply_to_message_id = Some(messages[0].message_id.clone());
    let backfill = raw(
        "G",
        "g-backfill",
        "보글이",
        300,
        "뒤늦은 메시지",
        Some(&messages[1].message_id),
    );
    let full_set: Vec<RawMessage> = {
        let mut all = messages.clone();
        all.push(backfill.clone());
        all.sort_by(|a, b| {
            (a.timestamp.seconds, a.message_id.as_str())
                .cmp(&(b.timestamp.seconds, b.message_id.as_str()))
        });
        all
    };
    let full = built(&full_set);
    assert!(full.parent_refs() > 0);

    let mut staged = Archive::default();
    let seed = staged.sync_messages(&messages);
    staged.rebuild_chunks_for_chats(&seed.touched);
    let wave = staged.sync_messages(&[backfill]);
    assert_eq!(wave.inserted, 1);
    let cut = staged.tail_rebuild_start("G", &wave.touched[0].earliest_changed_timestamp);
    assert_eq!(cut, None);
    staged.rebuild_chunks_for_chats(&wave.touched);

    assert_eq!(full.snapshot(), staged.snapshot());
    staged.assert_covered(full_set.len());
}

#[test]
fn messages_sharing_a_timestamp_at_a_boundary_lose_neither_coverage_nor_equivalence() {
    let senders = ["보글이", "부리", "하울"];
    let mut messages = Vec::new();
    for (idx, nick) in senders.iter().enumerate() {
        messages.push(raw(
            "T",
            &format!("t0{idx}"),
            nick,
            60 * idx as i64,
            &format!("앞 {idx}"),
            None,
        ));
    }
    let shared = 3 * 60 + 700;
    for (idx, nick) in senders.iter().enumerate() {
        messages.push(raw(
            "T",
            &format!("t1{idx}"),
            nick,
            shared,
            &format!("동시 {idx}"),
            None,
        ));
    }
    messages.push(raw("T", "t-tail", "새미", shared + 60, "꼬리", None));
    let full = built(&messages);

    let mut staged = Archive::default();
    let seed = staged.sync_messages(&messages[..messages.len() - 1]);
    staged.rebuild_chunks_for_chats(&seed.touched);
    let wave = staged.sync_messages(&messages[messages.len() - 1..]);
    let cut = staged.tail_rebuild_start("T", &wave.touched[0].earliest_changed_timestamp);
    assert_eq!(cut, Some(rfc3339(&messages[3])));
    staged.rebuild_chunks_for_chats(&wave.touched);

    assert_eq!(full.snapshot(), staged.snapshot());
    staged.assert_covered(messages.len());
}

#[test]
fn an_append_to_a_large_room_keeps_what_stands_before_its_last_burst() {
    let senders = ["보글이", "부리"];
    let (bursts, burst) = (50usize, 20usize);
    let messages: Vec<RawMessage> = (0..bursts * burst)
        .map(|idx| {
            let offset = (idx / burst) as i64 * (700 + 60 * burst as i64) + 60 * (idx % burst) as i64;
            raw("L", &format!("l{idx:06}"), senders[idx % 2], offset, &format!("m{idx}"), None)
        })
        .collect();
    let last_burst = (bursts - 1) * burst;

    let mut staged = built(&messages[..messages.len() - 1]);
    let before = staged.chunks["L"].clone();
    let wave = staged.sync_messages(&messages[messages.len() - 1..]);
    let cut = staged.tail_rebuild_start("L", &wave.touched[0].earliest_changed_timestamp);
    assert_eq!(cut, Some(rfc3339(&messages[last_burst])));
    staged.rebuild_chunks_for_chats(&wave.touched);
    assert_eq!(staged.chunks["L"][..last_burst], before[..last_burst]);
    assert_eq!(staged.snapshot(), built(&messages).snapshot());
}

fn span(started_at: &str, ended_at: &str) -> ChunkSpan {
    ChunkSpan {
        started_at: started_at.to_string(),
        ended_at: ended_at.to_string(),
    }
}

#[test]
fn the_cut_is_at_the_last_pause_before_the_change() {
    let spans = [
        span("2026-01-01T00:00:00Z", "2026-01-01T00:01:00Z"),
        span("2026-01-01T00:06:01Z", "2026-01-01T00:06:30Z"),
        span("2026-01-01T00:11:30Z", "2026-01-01T00:12:00Z"),
    ];
    let cut = |changed| tail_rebuild_start(&spans, changed).expect("cut");
    // The second chunk starts 301 seconds after the first, the third 300 after the second.
    assert_eq!(cut("2026-01-01T00:20:00Z").as_deref(), Some("2026-01-01T00:06:01Z"));
    assert_eq!(cut("2026-01-01T00:06:02Z").as_deref(), Some("2026-01-01T00:06:01Z"));
    assert_eq!(cut("2026-01-01T00:06:01Z"), None);
    assert_eq!(cut(""), None);
    assert_eq!(tail_rebuild_start(&[], "2026").expect("cut"), None);
}

#[test]
fn an_unreadable_time_is_an_error_only_where_it_matters() {
    let spans = [span("a", "b"), span("c", "d")];
    assert!(matches!(tail_rebuild_start(&spans, "z"), Err(Error::Time)));
    assert_eq!(tail_rebuild_start(&spans, "b").expect("cut"), None);
}
