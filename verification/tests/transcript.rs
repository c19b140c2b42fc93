use katok::transcript::{
    export_transcript, is_feed, render_transcript, sanitize, strip_chat_prefix, TranscriptMessage,
};

fn message(id: &str, seconds: u32, text: &str) -> TranscriptMessage {
    message_of_type(id, seconds, text, "text")
}

fn message_of_type(id: &str, seconds: u32, text: &str, message_type: &str) -> TranscriptMessage {
    TranscriptMessage {
        chat_name: "테스트방".to_string(),
        message_id: id.to_string(),
        sender_nickname: "보글이".to_string(),
        timestamp: format!("2026-01-01T00:{:02}:{:02}+00:00", seconds / 60, seconds % 60),
        text: text.to_string(),
        message_type: message_type.to_string(),
    }
}

#[test]
fn membership_json_is_a_feed_but_ordinary_text_is_not() {
    assert!(is_feed(
        "type_0",
        r#"{"feedType":4,"member":{"nickName":"synthetic"}}"#
    ));
    assert!(is_feed("type_0", r#"  {"leaver":{"userId":1}}"#));
    assert!(!is_feed("text", r#"{"member":"ordinary JSON"}"#));
    assert!(!is_feed("text", "오늘 회의 몇 시야?"));
    assert!(!is_feed("type_0", ""));
    assert!(!is_feed("type_0", r#"{"note":"이건 그냥 내가 보낸 JSON"}"#));
    assert!(!is_feed("type_0", "{feedType"));
}

#[test]
fn exporting_the_same_range_twice_writes_identical_bytes() {
    let messages = vec![
        message("m001", 0, "첫 메시지"),
        message("m002", 60, "둘째 메시지"),
    ];
    let (first, first_file) = export_transcript("A", &messages, "/out");
    let (second, second_file) = export_transcript("A", &messages, "/out");
    let first_file = first_file.expect("a file for a non-empty range");
    let second_file = second_file.expect("a file again");
    assert_eq!(first.path, second.path, "same range, same file");
    assert_eq!(first_file.path, second_file.path);
    assert_eq!(first_file.body, second_file.body, "re-export changed the file");
    assert_eq!(second.messages, 2);
}

#[test]
fn a_range_with_no_messages_writes_nothing_and_leaves_earlier_exports_alone() {
    let (empty, file) = export_transcript("A", &[], "/out");
    assert!(empty.path.is_none(), "an empty range must write no file");
    assert!(file.is_none());
    assert_eq!(empty.messages, 0);
}

#[test]
fn a_later_range_lands_in_its_own_file() {
    let messages = vec![
        message("m001", 0, "첫 메시지"),
        message("m002", 600, "나중 메시지"),
    ];
    let (all, _) = export_transcript("A", &messages, "/out");
    let (tail, _) = export_transcript("A", &messages[1..], "/out");

    assert_ne!(
        all.path, tail.path,
        "a different range must not reuse the same file name"
    );
    assert_eq!(all.messages, 2);
    assert_eq!(tail.messages, 1);
}

#[test]
fn system_feed_messages_are_left_out_of_the_transcript_but_stay_in_the_archive() {
    let messages = vec![
        message("m001", 0, "사람이 쓴 말"),
        message_of_type(
            "m002",
            30,
            r#"{"feedType":4,"member":{"nickName":"부리"}}"#,
            "type_0",
        ),
        message("m003", 60, "또 사람이 쓴 말"),
    ];
    let (report, file) = export_transcript("A", &messages, "/out");
    assert_eq!(report.messages, 2);
    assert_eq!(report.feed_skipped, 1);

    let body = file.expect("a file").body;
    assert!(body.contains("사람이 쓴 말"));
    assert!(
        !body.contains("feedType"),
        "system feed leaked into the transcript"
    );
    assert_eq!(messages.len(), 3);
}

#[test]
fn user_authored_json_with_membership_keys_stays_in_the_transcript() {
    let messages = vec![
        message("m001", 0, r#"{"member":"ordinary user-authored JSON"}"#),
        message_of_type(
            "m002",
            30,
            r#"{"feedType":4,"member":{"nickName":"synthetic"}}"#,
            "type_0",
        ),
    ];
    let (report, file) = export_transcript("A", &messages, "/out");

    assert_eq!(report.messages, 1);
    assert_eq!(report.feed_skipped, 1);
    assert!(
        file.expect("a file").body.contains("ordinary user-authored JSON"),
        "a text message must not be classified as a system feed from its body alone"
    );
}

#[test]
fn a_transcript_is_written_down_line_by_line() {
    let messages = vec![
        message("A-1", 0, "하나"),
        message("A-2", 5, "{}"),
        message("A-3", 9, "셋"),
    ];
    let (report, file) = render_transcript("A", &messages, &[false, true, false], "/out");
    let file = file.expect("a file");
    assert_eq!(file.path, "/out/A-1-3.md");
    assert_eq!(
        file.body,
        "# 테스트방 (chat A)\n\n- messages: 2\n- range: A-1 .. A-3\n\
         - system feed messages skipped: 1\n\n\
         **[2026-01-01T00:00:00+00:00] 보글이**: 하나\n\n\
         **[2026-01-01T00:00:09+00:00] 보글이**: 셋\n"
    );
    assert_eq!(report.first_message_id.as_deref(), Some("A-1"));
    assert_eq!(report.last_message_id.as_deref(), Some("A-3"));
}

#[test]
fn a_file_name_holds_plain_characters_only() {
    assert_eq!(sanitize("방/../a b-c_1"), "_____a_b-c_1");
    assert_eq!(sanitize(""), "unnamed");
    assert_eq!(strip_chat_prefix("A-7", "A"), "7");
    assert_eq!(strip_chat_prefix("B-7", "A"), "B-7");
    assert_eq!(strip_chat_prefix("A7", "A"), "A7");
}
