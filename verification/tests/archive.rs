use katok::adapters::{adapter_for_source, chats, FixtureAdapter, SourceChoice, SourceError};
use katok::archive::inbox::{
    first_self_response, mention_inbox, mention_of, mention_status, snippet, Mention, MentionRow,
    RoomMessage, SelfResponse,
};
use katok::archive::parent::{
    attach_parent_children, neighbor_chunk, ChildRow, ChunkKey, Neighbor,
};
use katok::archive::reconcile::{
    is_doomed, reconcile_deletions, source_spans, SourceMessage, StoredKey,
};
use katok::archive::row::{compare_row, message_row};
use katok::archive::sync::{chats_to_write, sync_outcome, sync_report, MessageChange};
use katok::chunking::{
    build_chunks, chunk_from_messages, exceeds_gap, should_start_new_chunk, stable_chunk_id,
    ChunkSettings,
};
use katok::error::Error;
use katok::time::Moment;
use katok::types::{MentionStatus, ParentChunk, RawMessage, StoredMessage};

// ---------------------------------------------------------------------------
// Inbox
// ---------------------------------------------------------------------------

#[test]
fn snippet_is_unicode_safe_and_collapses_whitespace() {
    assert_eq!(snippet("검토\n  부탁드립니다", 8), "검토 부탁드립…");
    assert_eq!(snippet("짧음", 10), "짧음");
    assert_eq!(snippet("내용", 0), "");
}

fn response(id: &str) -> SelfResponse {
    SelfResponse {
        message_id: id.to_string(),
        timestamp: "2026-01-01T00:05:00+00:00".to_string(),
        text: format!("reply  {id}"),
        chunk_id: None,
    }
}

fn mention(id: &str, direct: Option<&str>, later: Option<&str>) -> Mention {
    Mention {
        row: MentionRow {
            account_hash: "acct".to_string(),
            chat_id: "c".to_string(),
            chat_name: "room".to_string(),
            message_id: id.to_string(),
            sender_nickname: "나윤".to_string(),
            timestamp: "2026-01-01T00:00:00+00:00".to_string(),
            text: "확인 부탁해요".to_string(),
            chunk_id: Some("chunk_1".to_string()),
        },
        direct: direct.map(response),
        later: later.map(response),
    }
}

#[test]
fn a_direct_reply_answers_and_a_later_message_is_up_for_review() {
    assert_eq!(mention_status(&mention("a", Some("r"), None)), MentionStatus::Answered);
    assert_eq!(mention_status(&mention("a", Some("r"), Some("s"))), MentionStatus::Answered);
    assert_eq!(mention_status(&mention("a", None, Some("s"))), MentionStatus::Review);
    assert_eq!(mention_status(&mention("a", None, None)), MentionStatus::Pending);
}

fn room_message(id: &str, minute: u32, is_self: bool, answers: Option<&str>) -> RoomMessage {
    RoomMessage {
        account_hash: "acct".to_string(),
        chat_id: "c".to_string(),
        is_self,
        reply_to_message_id: answers.map(str::to_string),
        response: SelfResponse {
            message_id: id.to_string(),
            timestamp: format!("2026-01-01T00:{minute:02}:00+00:00"),
            text: format!("text {id}"),
            chunk_id: Some(format!("chunk {id}")),
        },
    }
}

#[test]
fn the_first_response_in_the_room_is_found() {
    let row = mention("m5", None, None).row;
    let elsewhere = RoomMessage {
        chat_id: "d".to_string(),
        ..room_message("x1", 1, true, Some("m5"))
    };
    let other_account = RoomMessage {
        account_hash: "other".to_string(),
        ..room_message("x2", 1, true, Some("m5"))
    };
    let messages = [
        room_message("m9", 9, true, Some("m5")),
        elsewhere,
        other_account,
        room_message("m6", 6, false, Some("m5")),
        room_message("m7", 7, true, Some("m5")),
        room_message("m4", 0, true, None),
        room_message("m8", 0, true, Some("m4")),
        room_message("m6b", 6, true, None),
    ];
    assert_eq!(first_self_response(&row, &messages, true), Some(4));
    assert_eq!(first_self_response(&row, &messages, false), Some(6));
    assert_eq!(first_self_response(&row, &messages[1..4], true), None);

    let found = mention_of(row, &messages);
    assert_eq!(mention_status(&found), MentionStatus::Answered);
    assert_eq!(found.direct.expect("direct").message_id, "m7");
    assert!(found.later.is_none());

    let reviewed = mention_of(mention("m5", None, None).row, &messages[5..]);
    assert_eq!(mention_status(&reviewed), MentionStatus::Review);
    let later = reviewed.later.expect("later");
    assert_eq!(later.message_id, "m8");
    assert_eq!(later.chunk_id.as_deref(), Some("chunk m8"));

    let waiting = mention_of(mention("m5", None, None).row, &messages[1..4]);
    assert_eq!(mention_status(&waiting), MentionStatus::Pending);
}

#[test]
fn every_mention_is_counted_and_the_first_are_listed() {
    let mentions = || {
        vec![
            mention("m4", None, None),
            mention("m3", Some("r3"), None),
            mention("m2", None, Some("r2")),
            mention("m1", None, None),
        ]
    };
    let report = mention_inbox("since".to_string(), None, mentions(), false, 2, 20);
    assert_eq!(report.counts.pending, 2);
    assert_eq!(report.counts.review, 1);
    assert_eq!(report.counts.answered, 1);
    assert_eq!(report.returned, 2);
    assert_eq!(
        report
            .items
            .iter()
            .map(|i| i.message_id.as_str())
            .collect::<Vec<_>>(),
        ["m4", "m2"]
    );
    assert_eq!(report.items[1].response_message_id.as_deref(), Some("r2"));
    assert_eq!(report.items[1].response_snippet.as_deref(), Some("reply r2"));
    assert_eq!(report.items[0].response_message_id, None);

    let all = mention_inbox("since".to_string(), None, mentions(), true, 10, 20);
    assert_eq!(all.returned, 4);
    assert_eq!(all.items[1].status, MentionStatus::Answered);
}

// ---------------------------------------------------------------------------
// Parent windows
// ---------------------------------------------------------------------------

fn parent(parent_id: &str) -> ParentChunk {
    ParentChunk {
        parent_id: parent_id.to_string(),
        chat_id: "chat-fixture".to_string(),
        chat_name: "Synthetic room".to_string(),
        started_at: "2026-01-01T00:00:00Z".to_string(),
        ended_at: "2026-01-01T00:01:00Z".to_string(),
        text: "synthetic text".to_string(),
        message_count: 1,
        child_chunk_ids: Vec::new(),
    }
}

fn child(parent_id: &str, chunk_id: &str) -> ChildRow {
    ChildRow {
        parent_id: parent_id.to_string(),
        chunk_id: chunk_id.to_string(),
    }
}

#[test]
fn bulk_parent_assembly_preserves_parent_and_child_order() {
    let mut parents = vec![parent("parent-early"), parent("parent-late")];
    let children = vec![
        child("parent-early", "child-a"),
        child("parent-early", "child-b"),
        child("parent-late", "child-c"),
    ];

    attach_parent_children(&mut parents, &children).expect("attach children");

    assert_eq!(parents[0].child_chunk_ids, ["child-a", "child-b"]);
    assert_eq!(parents[1].child_chunk_ids, ["child-c"]);
}

#[test]
fn a_child_of_an_unknown_parent_is_refused() {
    let mut parents = vec![parent("p")];
    let error = attach_parent_children(&mut parents, &[child("q", "c")]).expect_err("unknown");
    assert!(matches!(error, Error::MissingChunk(id) if id == "q"));
}

#[test]
fn neighbours_are_the_nearest_of_the_same_chat() {
    let key = |chat: &str, at: &str, id: &str| ChunkKey {
        chat_id: chat.to_string(),
        started_at: at.to_string(),
        chunk_id: id.to_string(),
    };
    let chunks = vec![
        key("a", "1", "x"),
        key("b", "2", "y"),
        key("a", "3", "m"),
        key("a", "3", "z"),
        key("a", "9", "w"),
    ];
    assert_eq!(neighbor_chunk(&chunks[2], &chunks, Neighbor::Previous), Some(0));
    assert_eq!(neighbor_chunk(&chunks[2], &chunks, Neighbor::Next), Some(3));
    assert_eq!(neighbor_chunk(&chunks[3], &chunks, Neighbor::Previous), Some(2));
    assert_eq!(neighbor_chunk(&chunks[0], &chunks, Neighbor::Previous), None);
    assert_eq!(neighbor_chunk(&chunks[1], &chunks, Neighbor::Next), None);
}

// ---------------------------------------------------------------------------
// Sync
// ---------------------------------------------------------------------------

const BASE: i64 = 1_767_225_600;

fn raw(chat_id: &str, message_id: &str, seconds: i64) -> RawMessage {
    RawMessage {
        account_hash: "acct".to_string(),
        chat_id: chat_id.to_string(),
        chat_name: format!("방-{chat_id}"),
        chat_type: "group".to_string(),
        message_id: message_id.to_string(),
        sender_id: "u1".to_string(),
        sender_nickname: "보글이".to_string(),
        timestamp: Moment {
            seconds: BASE + seconds,
            nanos: 0,
        },
        text: format!("메시지 {message_id}"),
        message_type: "text".to_string(),
        reply_to_message_id: None,
        is_self: false,
        mentions_self: false,
    }
}

#[test]
fn a_row_is_new_changed_or_as_it_was() {
    let message = raw("c", "m1", 0);
    let row = message_row(&message).expect("row");
    assert_eq!(row.timestamp, "2026-01-01T00:00:00+00:00");
    assert_eq!(compare_row(None, &row), MessageChange::Inserted);
    assert_eq!(compare_row(Some(&row.clone()), &row), MessageChange::Unchanged);
    let changed = |edit: fn(&mut RawMessage)| {
        let mut other = raw("c", "m1", 0);
        edit(&mut other);
        compare_row(Some(&row), &message_row(&other).expect("row"))
    };
    for edit in [
        (|m: &mut RawMessage| m.chat_name.push('x')) as fn(&mut RawMessage),
        |m| m.chat_type.push('x'),
        |m| m.sender_id.push('x'),
        |m| m.sender_nickname.push('x'),
        |m| m.timestamp.nanos += 1,
        |m| m.text.push('x'),
        |m| m.message_type.push('x'),
        |m| m.reply_to_message_id = Some("m0".to_string()),
        |m| m.is_self = !m.is_self,
        |m| m.mentions_self = !m.mentions_self,
    ] {
        assert_eq!(changed(edit), MessageChange::Updated);
    }
    let mut undated = raw("c", "m1", 0);
    undated.timestamp.seconds = i64::MAX;
    assert!(matches!(message_row(&undated), Err(Error::Time)));
}

#[test]
fn a_quiet_sync_touches_nothing() {
    let messages = [raw("a", "m1", 0), raw("b", "m2", 1)];
    let outcome =
        sync_outcome(&messages, &[MessageChange::Unchanged, MessageChange::Unchanged])
            .expect("outcome");
    assert!(outcome.touched.is_empty());
    assert_eq!((outcome.inserted, outcome.updated), (0, 0));
    assert_eq!(outcome.cursors.len(), 1);
}

#[test]
fn touched_chats_carry_their_earliest_change() {
    let messages = vec![
        raw("A", "m2", 60),
        raw("B", "n1", 10),
        raw("A", "m1", 0),
        raw("A", "m0", 0),
        raw("C", "k1", 5),
    ];
    let changes = [
        MessageChange::Inserted,
        MessageChange::Updated,
        MessageChange::Inserted,
        MessageChange::Inserted,
        MessageChange::Unchanged,
    ];
    let outcome = sync_outcome(&messages, &changes).expect("dated");
    assert_eq!(outcome.inserted, 3);
    assert_eq!(outcome.updated, 1);
    let touched: Vec<_> = outcome
        .touched
        .iter()
        .map(|t| {
            (
                t.chat_id.as_str(),
                t.earliest_changed_timestamp.as_str(),
                t.earliest_changed_message_id.as_str(),
            )
        })
        .collect();
    assert_eq!(
        touched,
        [
            ("A", "2026-01-01T00:00:00+00:00", "m0"),
            ("B", "2026-01-01T00:00:10+00:00", "n1"),
        ]
    );
    assert_eq!(outcome.cursors.len(), 1);
    assert_eq!(outcome.cursors[0].source_id, "acct");
    assert_eq!(outcome.cursors[0].newest.seconds, BASE + 60);

    let report = sync_report(outcome, 9, 4);
    assert_eq!(
        (report.inserted_messages, report.updated_messages, report.total_messages),
        (3, 1, 9)
    );
    assert_eq!((report.chunks, report.rebuilt_chats), (4, 2));
    assert!(!report.include_touched);
}

#[test]
fn a_moment_without_a_date_is_an_error() {
    let mut message = raw("A", "m", 0);
    message.timestamp.seconds = i64::MAX;
    assert!(matches!(
        sync_outcome(&[message], &[MessageChange::Inserted]),
        Err(Error::Time)
    ));
}

#[test]
fn each_chat_is_written_for_its_first_message() {
    let messages = vec![raw("A", "1", 0), raw("B", "2", 0), raw("A", "3", 0)];
    assert_eq!(chats_to_write(&messages), vec![0, 1]);
}

// ---------------------------------------------------------------------------
// Deletions
// ---------------------------------------------------------------------------

fn source(chat: &str, id: &str, at: &str) -> SourceMessage {
    SourceMessage {
        chat_id: chat.to_string(),
        message_id: id.to_string(),
        timestamp: at.to_string(),
    }
}

fn stored_key(chat: &str, id: &str, at: &str) -> StoredKey {
    StoredKey {
        chat_id: chat.to_string(),
        message_id: id.to_string(),
        timestamp: at.to_string(),
    }
}

#[test]
fn only_what_the_source_reaches_and_does_not_report_is_deleted() {
    let now = vec![source("A", "m2", "t2"), source("A", "m4", "t4"), source("B", "n1", "t1")];
    let held = vec![
        stored_key("A", "m1", "t1"),
        stored_key("A", "m2", "t2"),
        stored_key("A", "m3", "t3"),
        stored_key("A", "m5", "t5"),
        stored_key("C", "k", "t3"),
        stored_key("B", "n0", "t1"),
    ];
    let deleted = reconcile_deletions(&now, &held);
    assert_eq!(
        deleted
            .iter()
            .map(|d| (d.chat_id.as_str(), d.message_id.as_str()))
            .collect::<Vec<_>>(),
        [("A", "m3"), ("B", "n0")]
    );
    assert!(!is_doomed(&now, &held[0]), "older than the source reaches");
    assert!(!is_doomed(&now, &held[3]), "newer than the source reaches");
    assert!(!is_doomed(&now, &held[4]), "of a chat that the source does not mention");
    assert!(!is_doomed(&now, &held[1]), "reported");

    let spans = source_spans(&now);
    assert_eq!(spans.len(), 2);
    assert_eq!((spans[0].oldest.as_str(), spans[0].newest.as_str()), ("t2", "t4"));
}

#[test]
fn an_empty_source_deletes_nothing() {
    assert!(reconcile_deletions(&[], &[stored_key("A", "m", "t")]).is_empty());
}

// ---------------------------------------------------------------------------
// Chunks
// ---------------------------------------------------------------------------

fn stored(chat: &str, kind: &str, id: &str, sender: &str, minute: u32, second: u32) -> StoredMessage {
    StoredMessage {
        account_hash: "acct".to_string(),
        chat_id: chat.to_string(),
        chat_name: "방".to_string(),
        chat_type: kind.to_string(),
        message_id: id.to_string(),
        sender_nickname: sender.to_string(),
        timestamp: format!("2026-01-01T00:{minute:02}:{second:02}+00:00"),
        text: format!("글 {id}"),
        message_type: "text".to_string(),
    }
}

fn synthetic_conversation() -> Vec<StoredMessage> {
    let mut messages = Vec::new();
    for idx in 0..12 {
        messages.push(stored("A", "group", &format!("a{idx:03}"), "보글이", idx, 0));
    }
    for idx in 0..4 {
        messages.push(stored(
            "B",
            "direct",
            &format!("b{idx:03}"),
            "부리",
            idx / 2,
            30 * (idx % 2),
        ));
    }
    messages
}

#[test]
fn different_gap_settings_produce_different_chunks() {
    let messages = synthetic_conversation();
    let wide = build_chunks(&messages, ChunkSettings::default()).expect("wide rebuild");
    let narrow = build_chunks(
        &messages,
        ChunkSettings {
            group_gap_seconds: 30,
            direct_gap_seconds: 30,
        },
    )
    .expect("narrow rebuild");
    let ids = |chunks: &[katok::types::ChunkDraft]| {
        chunks
            .iter()
            .map(|c| c.chunk_id.clone())
            .collect::<Vec<_>>()
    };
    assert_ne!(ids(&wide), ids(&narrow));
    assert_eq!(wide.len(), 2);
    assert_eq!(narrow.len(), 13);
}

#[test]
fn chunks_hold_every_message_once_and_in_order() {
    let messages = synthetic_conversation();
    let chunks = build_chunks(&messages, ChunkSettings::default()).expect("chunks");
    let ids: Vec<String> = chunks.iter().flat_map(|c| c.message_ids.clone()).collect();
    assert_eq!(ids, messages.iter().map(|m| m.message_id.clone()).collect::<Vec<_>>());
    assert_eq!(chunks[0].started_at, "2026-01-01T00:00:00+00:00");
    assert_eq!(chunks[0].ended_at, "2026-01-01T00:11:00+00:00");
    assert!(chunks[0].text.starts_with("글 a000\n글 a001\n"));
    assert_eq!(chunks[1].sender_nickname, "부리");
}

#[test]
fn the_tail_after_a_boundary_is_cut_as_in_a_full_rebuild() {
    let mut messages = synthetic_conversation();
    messages.truncate(12);
    messages.push(stored("A", "group", "a900", "나윤", 12, 0));
    messages.push(stored("A", "group", "a901", "나윤", 13, 0));
    let whole = build_chunks(&messages, ChunkSettings::default()).expect("whole");
    let head = build_chunks(&messages[..12], ChunkSettings::default()).expect("head");
    let tail = build_chunks(&messages[12..], ChunkSettings::default()).expect("tail");
    let ids: Vec<_> = whole.iter().map(|c| c.chunk_id.as_str()).collect();
    let parts: Vec<_> = head
        .iter()
        .chain(tail.iter())
        .map(|c| c.chunk_id.as_str())
        .collect();
    assert_eq!(ids, parts);
}

#[test]
fn a_chunk_ends_with_its_sender_its_chat_and_its_pause() {
    let settings = ChunkSettings::default();
    let first = stored("A", "group", "1", "x", 0, 0);
    let start = |next: &StoredMessage| {
        should_start_new_chunk(Some(&first), next, settings).expect("dated")
    };
    assert!(!should_start_new_chunk(None, &first, settings).expect("first"));
    assert!(!start(&stored("A", "group", "2", "x", 10, 0)));
    assert!(start(&stored("A", "group", "2", "x", 10, 1)));
    assert!(start(&stored("A", "group", "2", "y", 0, 1)));
    assert!(start(&stored("B", "group", "2", "x", 0, 1)));
    assert!(!start(&stored("A", "direct", "2", "x", 30, 0)));
    assert!(start(&stored("A", "direct", "2", "x", 30, 1)));
    assert!(exceeds_gap(601, &first, settings));
    assert!(!exceeds_gap(600, &first, settings));
}

#[test]
fn a_pause_that_cannot_be_known_is_an_error() {
    let mut bad = stored("A", "group", "2", "x", 0, 1);
    bad.timestamp = "yesterday".to_string();
    let first = stored("A", "group", "1", "x", 0, 0);
    assert!(matches!(
        build_chunks(&[first, bad], ChunkSettings::default()),
        Err(Error::Time)
    ));
}

#[test]
fn a_chunk_id_is_made_of_its_ends() {
    assert_eq!(stable_chunk_id("acct", "A", "m1", "m2"), "chunk_34ee43ccfb11b5a6");
    assert_ne!(stable_chunk_id("acct", "A", "m1", "m3"), "chunk_34ee43ccfb11b5a6");
}

#[test]
fn a_chunk_without_messages_is_an_error() {
    assert!(matches!(
        chunk_from_messages(&synthetic_conversation(), 1, 1),
        Err(Error::EmptyChunk)
    ));
}

// ---------------------------------------------------------------------------
// Sources
// ---------------------------------------------------------------------------

#[test]
fn chats_are_listed_by_id_as_their_first_message_names_them() {
    let mut messages = vec![raw("b", "1", 0), raw("a", "2", 0), raw("b", "3", 0)];
    messages[2].chat_name = "renamed".to_string();
    let list = chats(&messages);
    assert_eq!(list.len(), 2);
    assert_eq!((list[0].chat_id.as_str(), list[0].chat_name.as_str()), ("a", "방-a"));
    assert_eq!((list[1].chat_id.as_str(), list[1].chat_name.as_str()), ("b", "방-b"));
    assert_eq!(list[1].chat_type, "group");
    assert!(chats(&[]).is_empty());
}

#[test]
fn sources_are_chosen_by_name() {
    let path = || Some("m.jsonl".to_string());
    assert!(matches!(
        adapter_for_source("fixture", path()),
        Ok(SourceChoice::Fixture(adapter)) if adapter.path == FixtureAdapter::new("m.jsonl").path
    ));
    assert!(matches!(adapter_for_source("fixture", None), Err(SourceError::MissingPath)));
    assert!(matches!(adapter_for_source("kakaocli", None), Ok(SourceChoice::Kakaocli(_))));
    assert!(matches!(adapter_for_source("macos", None), Ok(SourceChoice::Macos)));
    assert!(matches!(adapter_for_source("kakao", path()), Ok(SourceChoice::Macos)));
    assert_eq!(
        adapter_for_source("smoke", None).expect_err("unknown").message(),
        "unsupported source adapter: smoke"
    );
    assert_eq!(
        SourceError::MissingPath.message(),
        "fixture source requires a JSONL path"
    );
}
