use katok::archive::replies::{
    parent_refs, reply_edges, ParentRef, PlacedMessage, ReplyEdge, ReplyMessage,
};
use katok::chunking::{build_chunks, ChunkSettings};
use katok::types::StoredMessage;

fn raw(
    chat_id: &str,
    message_id: &str,
    sender_nickname: &str,
    seconds: u32,
    text: &str,
    reply_to_message_id: Option<&str>,
) -> (StoredMessage, ReplyMessage) {
    let stored = StoredMessage {
        account_hash: "acct".to_string(),
        chat_id: chat_id.to_string(),
        chat_name: format!("방-{chat_id}"),
        chat_type: "group".to_string(),
        message_id: message_id.to_string(),
        sender_nickname: sender_nickname.to_string(),
        timestamp: format!("2026-01-01T00:{:02}:{:02}+00:00", seconds / 60, seconds % 60),
        text: text.to_string(),
        message_type: "text".to_string(),
    };
    let reply = ReplyMessage {
        chat_id: chat_id.to_string(),
        message_id: message_id.to_string(),
        reply_to_message_id: reply_to_message_id.map(str::to_string),
    };
    (stored, reply)
}

fn placed_in_chunks(messages: &[(StoredMessage, ReplyMessage)]) -> Vec<PlacedMessage> {
    let stored: Vec<StoredMessage> = messages.iter().map(|m| m.0.clone()).collect();
    build_chunks(&stored, ChunkSettings::default())
        .expect("chunks")
        .into_iter()
        .flat_map(|chunk| {
            let id = chunk.chunk_id;
            chunk.message_ids.into_iter().map(move |message_id| PlacedMessage {
                chunk_id: id.clone(),
                message_id,
            })
        })
        .collect()
}

fn edge_rows(edges: &[ReplyEdge]) -> Vec<String> {
    let mut rows: Vec<String> = edges
        .iter()
        .map(|e| {
            format!(
                "{}|{}|{:?}|{:?}|{:?}",
                e.child_message_id,
                e.parent_message_id,
                e.child_chunk_id,
                e.parent_chunk_id,
                e.unresolved_reason()
            )
        })
        .collect();
    rows.sort();
    rows
}

fn ref_rows(refs: &[ParentRef]) -> Vec<String> {
    let mut rows: Vec<String> = refs
        .iter()
        .map(|r| format!("{}|{}", r.child_chunk_id, r.parent_chunk_id))
        .collect();
    rows.sort();
    rows
}

#[test]
fn a_per_chat_ref_rebuild_matches_a_full_ref_rebuild_and_edges_stay_intra_chat() {
    let mut messages = Vec::new();
    for (chat, nick_a, nick_b) in [("roomA", "보글이", "부리"), ("roomB", "하울", "새미")] {
        for i in 0..4 {
            let nick = if i % 2 == 0 { nick_a } else { nick_b };
            let log = i + 1;
            let reply = if i == 3 {
                Some(format!("{chat}-1"))
            } else {
                None
            };
            messages.push(raw(
                chat,
                &format!("{chat}-{log}"),
                nick,
                i * 700,
                &format!("{chat} msg {log}"),
                reply.as_deref(),
            ));
        }
    }
    messages.push(raw("roomC", "roomC-1", "민지", 0, "조용한 방", None));
    messages.push(raw("roomC", "roomC-2", "준호", 60, "답", Some("roomC-1")));

    let replies: Vec<ReplyMessage> = messages.iter().map(|m| m.1.clone()).collect();
    let placed = placed_in_chunks(&messages);
    let edges = reply_edges(&replies, &placed, None);
    let refs = parent_refs(&replies, &placed, None);
    assert!(edges.len() >= 3);
    assert!(refs.len() >= 2);

    for edge in &edges {
        let child_chat = edge.child_message_id.split('-').next().expect("child");
        let parent_chat = edge.parent_message_id.split('-').next().expect("parent");
        assert_eq!(child_chat, parent_chat);
        assert!(edge.child_chunk_id.is_some() && edge.parent_chunk_id.is_some());
        assert_eq!(edge.unresolved_reason(), None);
    }

    let mut scoped_edges = Vec::new();
    let mut scoped_refs = Vec::new();
    for chat in ["roomA", "roomB", "roomC"] {
        scoped_edges.extend(reply_edges(&replies, &placed, Some(chat)));
        scoped_refs.extend(parent_refs(&replies, &placed, Some(chat)));
    }
    assert_eq!(edge_rows(&edges), edge_rows(&scoped_edges));
    assert_eq!(ref_rows(&refs), ref_rows(&scoped_refs));

    // One chat is made anew after a message arrived in it.
    messages.insert(4, raw("roomA", "roomA-5", "보글이", 4 * 700, "꼬리", Some("roomA-1")));
    let replies: Vec<ReplyMessage> = messages.iter().map(|m| m.1.clone()).collect();
    let placed = placed_in_chunks(&messages);
    let mut kept: Vec<ReplyEdge> = edges
        .into_iter()
        .filter(|e| !e.child_message_id.starts_with("roomA-"))
        .collect();
    kept.extend(reply_edges(&replies, &placed, Some("roomA")));
    assert_eq!(edge_rows(&reply_edges(&replies, &placed, None)), edge_rows(&kept));
}

fn reply(chat: &str, id: &str, answers: Option<&str>) -> ReplyMessage {
    ReplyMessage {
        chat_id: chat.to_string(),
        message_id: id.to_string(),
        reply_to_message_id: answers.map(str::to_string),
    }
}

fn place(chunk: &str, id: &str) -> PlacedMessage {
    PlacedMessage {
        chunk_id: chunk.to_string(),
        message_id: id.to_string(),
    }
}

#[test]
fn an_edge_to_a_message_that_is_not_stored_says_so() {
    let messages = [reply("a", "1", None), reply("a", "2", Some("0")), reply("a", "2", Some("0"))];
    let edges = reply_edges(&messages, &[place("c1", "1"), place("c2", "2")], None);
    assert_eq!(edges.len(), 1);
    assert_eq!(edges[0].child_chunk_id.as_deref(), Some("c2"));
    assert_eq!(edges[0].parent_chunk_id, None);
    assert_eq!(edges[0].unresolved_reason(), Some("parent_not_in_archive"));
    assert!(parent_refs(&messages, &[place("c1", "1"), place("c2", "2")], None).is_empty());
}

#[test]
fn a_reply_within_a_chunk_makes_no_reference() {
    let messages = [reply("a", "1", None), reply("a", "2", Some("1"))];
    assert!(parent_refs(&messages, &[place("c", "1"), place("c", "2")], None).is_empty());
    let refs = parent_refs(&messages, &[place("c", "1"), place("d", "2")], None);
    assert_eq!(ref_rows(&refs), ["d|c"]);
}

#[test]
fn a_reply_into_a_chat_from_another_belongs_to_both() {
    let messages = [reply("a", "1", None), reply("b", "2", Some("1"))];
    let placed = [place("ca", "1"), place("cb", "2")];
    assert_eq!(ref_rows(&parent_refs(&messages, &placed, Some("a"))), ["cb|ca"]);
    assert_eq!(ref_rows(&parent_refs(&messages, &placed, Some("b"))), ["cb|ca"]);
    assert!(parent_refs(&messages, &placed, Some("c")).is_empty());
    assert!(reply_edges(&messages, &placed, Some("a")).is_empty());
    assert_eq!(reply_edges(&messages, &placed, Some("b")).len(), 1);
}
