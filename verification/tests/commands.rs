use katok::archive::reconcile::DeletedMessage;
use katok::chunking::{ChunkSettings, CHUNKER_VERSION};
use katok::commands::freshness::{
    current_status, recommendation, record_sync, ArchiveState, FreshnessRecommendation,
    FreshnessStatus,
};
use katok::commands::media::{add_room, kind_names, no_totals, parse_kinds, saved_bytes};
use katok::commands::send::{
    message_body, plan_send, reads_stdin, RoomChoice, SendRefusal, SendRequest, SendTask,
};
use katok::commands::sync::{deleted_key, needs_full_rebuild, report_deleted, touch_deleted};
use katok::commands::{
    check_archive, check_wipe, chunk_output, require_fixture_embedder, Refusal,
};
use katok::error::Error;
use katok::kakao::ax_send::deliver::Goal;
use katok::kakao::ax_send::FocusPolicy;
use katok::kakao::media::{MediaKind, MediaRecord, MediaReport, MediaTier, TierCounts};
use katok::semantic::generation_named;
use katok::semantic::live::new_cursor;
use katok::types::{Chunk, SyncReport, SyncTimings, TouchedChat};

// ---------------------------------------------------------------------------
// Send
// ---------------------------------------------------------------------------

fn request() -> SendRequest {
    SendRequest {
        room: Some("Synthetic QA Room".to_string()),
        chat: None,
        text: None,
        image: None,
        list_windows: false,
        list_rooms: false,
        limit: 40,
        dry_run: false,
        draft: false,
        no_open: false,
        take_focus_now: false,
        focus_wait: 15,
        accept_use_policy: true,
    }
}

#[test]
fn cli_send_requires_use_policy_acceptance_before_ui_access() {
    let refused = plan_send(
        SendRequest {
            accept_use_policy: false,
            ..request()
        },
        "",
    )
    .expect_err("refused");
    assert!(refused
        .text()
        .contains("refusing to continue without --accept-use-policy"));
    assert!(!refused.text().contains("Accessibility"));
    assert!(!refused.text().contains("KakaoTalk is not running"));
}

#[test]
fn cli_acceptance_preserves_empty_message_refusal() {
    let refused = plan_send(request(), "").expect_err("refused");
    assert!(refused.text().contains("refusing to send an empty message"));
    assert!(!refused.text().contains("Accessibility"));
    assert!(!refused.text().contains("KakaoTalk is not running"));
}

#[test]
fn a_message_loses_the_line_breaks_at_its_end() {
    assert_eq!(message_body("안녕\n\n").expect("body"), "안녕");
    assert_eq!(message_body("a\nb \n").expect("body"), "a\nb ");
    assert_eq!(message_body("\n\n"), Err(SendRefusal::EmptyMessage));
}

#[test]
fn a_request_is_planned() {
    let Ok(SendTask::Deliver {
        goal,
        room,
        allow_open,
        policy,
    }) = plan_send(request(), "본문\n")
    else {
        panic!("a text from the standard input")
    };
    assert!(matches!(goal, Goal::Text(text) if text == "본문"));
    assert!(matches!(room, RoomChoice::Title(title) if title == "Synthetic QA Room"));
    assert!(allow_open);
    assert_eq!((policy.idle_gap_ms, policy.max_wait_secs), (700, 15));

    let task = plan_send(
        SendRequest {
            text: Some("초안".to_string()),
            draft: true,
            chat: Some("c7".to_string()),
            no_open: true,
            take_focus_now: true,
            ..request()
        },
        "",
    );
    assert!(matches!(
        task,
        Ok(SendTask::Deliver {
            goal: Goal::Draft(text),
            room: RoomChoice::Chat(chat),
            allow_open: false,
            policy: FocusPolicy { idle_gap_ms: 0, max_wait_secs: 0 },
        }) if text == "초안" && chat == "c7"
    ));

    let image = plan_send(
        SendRequest {
            image: Some("/p/그림.png".to_string()),
            ..request()
        },
        "",
    );
    assert!(matches!(
        image,
        Ok(SendTask::Deliver { goal: Goal::Image(path), .. }) if path == "/p/그림.png"
    ));
}

#[test]
fn a_dry_run_needs_no_acceptance_and_no_text() {
    let dry = SendRequest {
        dry_run: true,
        accept_use_policy: false,
        ..request()
    };
    assert!(!reads_stdin(&dry));
    assert!(matches!(
        plan_send(dry, ""),
        Ok(SendTask::Deliver { goal: Goal::Resolve, .. })
    ));
    assert!(reads_stdin(&request()));
    let nobody = SendRequest {
        room: None,
        dry_run: true,
        ..request()
    };
    assert_eq!(plan_send(nobody, "").expect_err("refused").text(), "pass --room or --chat");
}

#[test]
fn listing_comes_first() {
    let listing = SendRequest {
        list_rooms: true,
        accept_use_policy: false,
        limit: 7,
        ..request()
    };
    assert!(!reads_stdin(&listing));
    assert!(matches!(plan_send(listing, ""), Ok(SendTask::ListRooms { limit: 7 })));
    let windows = SendRequest {
        list_windows: true,
        list_rooms: true,
        ..request()
    };
    assert!(matches!(plan_send(windows, ""), Ok(SendTask::ListWindows)));
}

// ---------------------------------------------------------------------------
// Sync
// ---------------------------------------------------------------------------

#[test]
fn drift_of_the_settings_rebuilds_everything() {
    let settings = ChunkSettings::default();
    let same = Some((600, 1800, CHUNKER_VERSION));
    assert!(!needs_full_rebuild(5, same, settings));
    assert!(needs_full_rebuild(0, same, settings));
    assert!(needs_full_rebuild(5, None, settings));
    assert!(needs_full_rebuild(5, Some((600, 1801, CHUNKER_VERSION)), settings));
    assert!(needs_full_rebuild(5, Some((601, 1800, CHUNKER_VERSION)), settings));
    assert!(needs_full_rebuild(5, Some((600, 1800, CHUNKER_VERSION + 1)), settings));
}

fn touched(chat: &str, at: &str, id: &str) -> TouchedChat {
    TouchedChat {
        chat_id: chat.to_string(),
        earliest_changed_timestamp: at.to_string(),
        earliest_changed_message_id: id.to_string(),
    }
}

fn deleted(chat: &str, id: &str) -> DeletedMessage {
    DeletedMessage {
        chat_id: chat.to_string(),
        message_id: id.to_string(),
    }
}

#[test]
fn a_deletion_drops_the_floor_of_its_chat() {
    let mut list = vec![touched("p", "t9", "m9"), touched("q", "t1", "m1")];
    touch_deleted(
        &mut list,
        &[deleted("z", "1"), deleted("p", "2"), deleted("b", "3"), deleted("p", "4")],
    );
    assert_eq!(
        list,
        [
            touched("p", "", ""),
            touched("q", "t1", "m1"),
            touched("b", "", ""),
            touched("z", "", ""),
        ]
    );
}

#[test]
fn deleted_messages_no_longer_count() {
    let mut report = SyncReport {
        inserted_messages: 0,
        updated_messages: 1,
        total_messages: 4,
        chunks: 2,
        rebuilt_chats: 1,
        timings_ms: SyncTimings::default(),
        touched_chats: vec![touched("chat-prune", "t3", "m3")],
        include_touched: false,
    };
    report_deleted(&mut report, &[deleted("chat-prune", "m1")]);
    assert_eq!(report.total_messages, 3);
    assert_eq!(report.touched_chats, [touched("chat-prune", "", "")]);
    assert_eq!(report.updated_messages, 1);
    assert_eq!(deleted_key(true), "pruned_messages");
    assert_eq!(deleted_key(false), "prunable_messages");
}

// ---------------------------------------------------------------------------
// Freshness
// ---------------------------------------------------------------------------

fn synced() -> FreshnessStatus {
    record_sync(FreshnessStatus::default(), "now".to_string(), "fixture", 3, 2)
}

#[test]
fn nothing_recorded_asks_for_a_sync() {
    let first = FreshnessRecommendation::default();
    assert!(first.sync_before_search && first.index_before_semantic_search);
    let told = recommendation(&FreshnessStatus::default(), Some("x"), &ArchiveState::Missing);
    assert!(told.sync_before_search);
    assert!(told.reason.starts_with("no sync has completed"));

    let status = synced();
    assert!(!status.recommendation.sync_before_search);
    assert!(status.recommendation.index_before_semantic_search);
    assert_eq!(status.last_sync.expect("recorded").total_messages, 3);
}

#[test]
fn the_committed_index_is_held_against_the_archive() {
    let cursor = || Ok(new_cursor("r1", "e", 4, "then".to_string()));
    let revision = |r: &str| ArchiveState::Revision(r.to_string());
    let fresh = current_status(synced(), cursor(), &revision("r1"));
    assert!(!fresh.recommendation.index_before_semantic_search);
    assert_eq!(fresh.last_index.expect("index").archive_revision, "r1");
    let stale = current_status(synced(), cursor(), &revision("r2"));
    assert!(stale.recommendation.index_before_semantic_search);
    assert!(stale.recommendation.reason.contains("newer than the committed"));
    let gone = current_status(synced(), cursor(), &ArchiveState::Missing);
    assert!(gone.recommendation.sync_before_search);
    let broken = current_status(synced(), cursor(), &ArchiveState::Unreadable("io".to_string()));
    assert!(broken.recommendation.reason.contains("could not be read (io)"));
    let none = current_status(synced(), Err(Error::SemanticIndexMissing), &revision("r1"));
    assert!(none.last_index.is_none());
    assert!(none.recommendation.reason.starts_with("no semantic index"));
    let corrupt = current_status(
        synced(),
        Err(Error::SemanticIndexStale("bad pointer".to_string())),
        &revision("r1"),
    );
    assert_eq!(
        corrupt.recommendation.reason,
        "semantic index is corrupt (semantic index is stale: bad pointer); run katok index --json before semantic search"
    );
}

#[test]
fn doctor_reports_a_corrupt_generation_pointer_instead_of_hiding_it_as_missing() {
    let error = generation_named("../outside\n").expect_err("corrupt CURRENT");
    let status = current_status(
        synced(),
        Err(error),
        &ArchiveState::Revision("r1".to_string()),
    );
    assert!(status.recommendation.index_before_semantic_search);
    let reason = status.recommendation.reason;
    assert!(reason.contains("CURRENT") && reason.contains("corrupt"));
}

// ---------------------------------------------------------------------------
// Media
// ---------------------------------------------------------------------------

#[test]
fn kinds_are_asked_for_by_name() {
    let words = |list: &[&str]| list.iter().map(|w| w.to_string()).collect::<Vec<_>>();
    assert_eq!(parse_kinds(&[], &[MediaKind::File]), Ok(vec![MediaKind::File]));
    assert_eq!(
        parse_kinds(&words(&["video", " Image", "video"]), &[]),
        Ok(vec![MediaKind::Video, MediaKind::Photo])
    );
    assert_eq!(
        parse_kinds(&words(&["file", "x", "y"]), &[]),
        Err("unknown media kind 'x'; use photo, video, or file".to_string())
    );
    assert_eq!(kind_names(&MediaKind::all()), ["photo", "video", "file"]);
}

fn media_record(tier: MediaTier, size: Option<i64>) -> MediaRecord {
    MediaRecord {
        log_id: 1,
        idx: 0,
        kind: MediaKind::File,
        name: None,
        width: None,
        height: None,
        checksum_sha1: None,
        size_bytes: size,
        tier,
        tier_reason: String::new(),
        path: None,
        sha1: None,
        sender: None,
        sent_at: None,
    }
}

#[test]
fn fetched_and_planned_bytes_are_added_up() {
    let records = vec![
        media_record(MediaTier::Cdn, Some(5)),
        media_record(MediaTier::Planned, Some(7)),
        media_record(MediaTier::Full, Some(100)),
        media_record(MediaTier::Cdn, None),
    ];
    assert_eq!(saved_bytes(&records), 12);
    let report = MediaReport {
        records,
        errors: Vec::new(),
        tier_counts: TierCounts {
            cdn: 2,
            planned: 1,
            full: 1,
            ..TierCounts::zero()
        },
    };
    let once = add_room(no_totals(), &report).expect("counted");
    let twice = add_room(once, &report).expect("counted");
    assert_eq!(twice.bytes, 24);
    assert_eq!(twice.tiers.get("cdn"), Some(4));
    assert_eq!(twice.tiers.get("thumb"), None);

    let mut full = once;
    full.bytes = i64::MAX;
    assert_eq!(add_room(full, &report), None);
    let mut many = once;
    many.tiers.cdn = usize::MAX;
    assert_eq!(add_room(many, &report), None);
}

// ---------------------------------------------------------------------------
// Chunks and guards
// ---------------------------------------------------------------------------

fn chunk() -> Chunk {
    Chunk {
        chunk_id: "c".to_string(),
        chat_id: "a".to_string(),
        chat_name: "n".to_string(),
        sender_nickname: "s".to_string(),
        started_at: "1".to_string(),
        ended_at: "2".to_string(),
        text: "비밀".to_string(),
        message_count: 1,
        message_ids: vec!["m".to_string()],
        parent_chunk_ids: Vec::new(),
        window_parent_ids: Vec::new(),
    }
}

#[test]
fn a_chunk_shows_what_is_asked_for() {
    let plain = chunk_output(chunk(), false, true);
    assert_eq!((plain.text.as_str(), plain.message_ids.len()), ("비밀", 1));
    let shy = chunk_output(chunk(), true, false);
    assert_eq!((shy.text.as_str(), shy.message_ids.len()), ("[redacted]", 0));
    assert_eq!(shy.chunk_id, "c");
}

#[test]
fn guards_refuse_with_a_reason() {
    assert!(check_wipe(true).is_ok());
    assert_eq!(check_wipe(false), Err(Refusal::WipeNotConfirmed));
    assert_eq!(
        Refusal::WipeNotConfirmed.text(),
        "refusing to wipe semantic index without --yes"
    );
    assert!(check_archive(true).is_ok());
    assert_eq!(check_archive(false), Err(Refusal::NoArchive));
    assert!(require_fixture_embedder("mock").is_ok());
    assert!(require_fixture_embedder("local").expect_err("refused").text().contains("mock"));
}
