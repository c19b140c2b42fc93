use katok::config::{HypeConfig, KatokConfig};
use katok::error::{error_code, Error};
use katok::search::keyword::{keyword_search_with_snippet, keyword_term};
use katok::search::{fts_query, hydrate_hits, hydrate_parent_hits, literal_fts_query, snippet};
use katok::semantic::documents::{
    document_score, document_text, embedding_failure, planned_semantic_documents, rank_documents,
    semantic_seen_material, top_ids, HashedChunk, ScoredDocument,
};
use katok::semantic::embedder::{
    bucket_of_digest, check_status, choose_embedder, local_passages, local_query,
    parse_loopback_endpoint, response_body_start, term_counts, EmbedderChoice, LoopbackHttpEmbedder,
};
use katok::semantic::endpoint::{
    is_loopback_url, url_host, validate_embedding_endpoint, EmbeddingServer,
};
use katok::semantic::live::{
    batches, check_batch, check_query, generation_id, index_report, is_old_generation, new_cursor,
    plan_vectors, prior_use, semantic_hits, sorted_window_pairs, validate_cursor,
    validate_generation, PriorGeneration, PriorUse,
};
use katok::semantic::run::{advance_index, begin_index, IndexEvent, IndexStage, IndexStep};
use katok::semantic::{
    archive_revision_for_parents, chunk_id_from_minsync_path, chunk_id_from_path, content_hash,
    document_path, generation_dir, generation_named, minsync_chunk_path, semantic_source_dir,
};
use katok::types::{Chunk, ParentChunk};

// ---------------------------------------------------------------------------
// Snippets and queries
// ---------------------------------------------------------------------------

#[test]
fn korean_hit_late_in_a_long_chunk_is_still_shown() {
    let text = format!("{}찾는말{}", "가".repeat(300), "나".repeat(302));
    let out = snippet(&text, "찾는말", 120);

    assert!(!out.is_empty(), "snippet must not be empty");
    assert!(
        out.contains("찾는말"),
        "snippet must contain the match: {out}"
    );
    assert_eq!(out.chars().count(), 120);
}

#[test]
fn ascii_behaviour_is_unchanged() {
    let text = format!("{}needle{}", "a".repeat(300), "b".repeat(300));
    let out = snippet(&text, "needle", 120);
    assert!(out.contains("needle"));
    assert!(out.starts_with(&"a".repeat(20)));
}

#[test]
fn an_early_match_is_shown_in_little_room() {
    assert_eq!(snippet("ab찾는말 그리고 더", "찾는말", 5), "ab찾는말");
}

#[test]
fn short_text_is_returned_whole() {
    assert_eq!(snippet("  짧은 글  ", "글", 120), "짧은 글");
}

#[test]
fn query_terms_are_literal_text() {
    assert_eq!(literal_fts_query("a  b\"c OR*"), "\"a\" \"b\"\"c\" \"OR*\"");
    assert_eq!(fts_query("보고서").expect("a term"), "\"보고서\"");
    assert!(matches!(fts_query(" \n"), Err(Error::EmptyQuery)));
    assert_eq!(keyword_term("  보고서 ").expect("a term"), "보고서");
    assert!(matches!(keyword_term("\t"), Err(Error::EmptyQuery)));
}

#[test]
fn a_keyword_is_found_letter_for_letter_in_the_order_of_the_chunks() {
    let at = |id: &str, started_at: &str, text: &str| Chunk {
        started_at: started_at.to_string(),
        ..chunk(id, text)
    };
    let chunks = || {
        vec![
            at("d", "2", "할인 50% 끝"),
            at("b", "1", "50%"),
            at("c", "2", "50%"),
            at("a", "3", "500 원"),
            at("e", "0", "a_b"),
            at("f", "0", "axb"),
            at("g", "0", "A_B"),
        ]
    };
    let ids = |query: &str, limit: usize| {
        keyword_search_with_snippet(chunks(), query, limit, 80)
            .expect("hits")
            .into_iter()
            .map(|hit| (hit.rank, hit.chunk_id))
            .collect::<Vec<_>>()
    };
    let hit = |rank: usize, id: &str| (rank, id.to_string());
    assert_eq!(ids(" 50% ", 9), [hit(1, "b"), hit(2, "c"), hit(3, "d")]);
    assert_eq!(ids("50%", 2), [hit(1, "b"), hit(2, "c")]);
    assert_eq!(ids("a_b", 9), [hit(1, "e")]);
    assert_eq!(ids("없음", 9), []);
    assert!(matches!(
        keyword_search_with_snippet(chunks(), " ", 9, 80),
        Err(Error::EmptyQuery)
    ));
    let hits = keyword_search_with_snippet(chunks(), "할인", 1, 4).expect("hits");
    assert_eq!((hits[0].ranker, hits[0].snippet.as_str()), ("keyword", "할인 5"));
}

fn chunk(id: &str, text: &str) -> Chunk {
    Chunk {
        chunk_id: id.to_string(),
        chat_id: "c".to_string(),
        chat_name: "room".to_string(),
        sender_nickname: "나윤".to_string(),
        started_at: "s".to_string(),
        ended_at: "e".to_string(),
        text: text.to_string(),
        message_count: 1,
        message_ids: vec!["m".to_string()],
        parent_chunk_ids: vec!["p".to_string(), "q".to_string()],
        window_parent_ids: Vec::new(),
    }
}

fn window(id: &str, text: &str) -> ParentChunk {
    ParentChunk {
        parent_id: id.to_string(),
        chat_id: "c".to_string(),
        chat_name: "room".to_string(),
        started_at: "s".to_string(),
        ended_at: "e".to_string(),
        text: text.to_string(),
        message_count: 2,
        child_chunk_ids: vec!["k1".to_string(), "k2".to_string()],
    }
}

#[test]
fn hits_are_ranked_in_the_order_found() {
    let found = vec![
        ("x".to_string(), Some(chunk("x", "보고서 초안"))),
        ("y".to_string(), Some(chunk("y", "다른 글"))),
    ];
    let hits = hydrate_hits(found, "bm25", "보고서", 80).expect("hits");
    assert_eq!((hits[0].rank, hits[1].rank), (1, 2));
    assert_eq!(hits[0].ranker, "bm25");
    assert_eq!(hits[0].snippet, "보고서 초안");
    assert_eq!(hits[1].chunk_id, "y");

    let missing = hydrate_hits(vec![("z".to_string(), None)], "keyword", "q", 80);
    assert!(matches!(missing, Err(Error::MissingChunk(id)) if id == "z"));
    let windows =
        hydrate_parent_hits(vec![("w".to_string(), Some(window("w", "글")))], "semantic", "글", 80)
            .expect("hits");
    assert_eq!(windows[0].child_chunk_ids, ["k1", "k2"]);
}

// ---------------------------------------------------------------------------
// Endpoints
// ---------------------------------------------------------------------------

fn loopback_ip(host: &str) -> bool {
    host == "127.0.0.1" || host == "::1"
}

#[test]
fn accepts_loopback_urls_when_path_is_present() {
    assert!(is_loopback_url("http://127.0.0.1:8080/v1", loopback_ip));
    assert!(is_loopback_url("https://localhost/embed", loopback_ip));
    assert!(is_loopback_url("http://[::1]:8080", loopback_ip));
}

#[test]
fn rejects_lookalike_loopback_hosts() {
    assert!(!is_loopback_url("https://localhost.example.com", loopback_ip));
    assert!(!is_loopback_url("http://127.evil.com", loopback_ip));
    assert!(!is_loopback_url("http://example.com@remote.test", loopback_ip));
    assert!(!is_loopback_url("ftp://127.0.0.1", loopback_ip));
}

#[test]
fn a_remote_server_needs_to_be_allowed() {
    let server = |url: &str, allow_remote: bool| EmbeddingServer {
        base_url: url.to_string(),
        allow_remote,
    };
    assert!(validate_embedding_endpoint(&server("http://localhost:1", false), loopback_ip).is_ok());
    assert!(validate_embedding_endpoint(&server("http://far.test", true), loopback_ip).is_ok());
    assert!(matches!(
        validate_embedding_endpoint(&server("http://far.test", false), loopback_ip),
        Err(Error::RemoteEmbeddingEndpoint)
    ));
    assert_eq!(url_host("http://[::1]:8080/x").as_deref(), Some("::1"));
}

fn loopback_config(endpoint: Option<&str>) -> KatokConfig {
    KatokConfig {
        embedding_provider: "loopback-http".to_string(),
        embedding_endpoint: endpoint.map(str::to_string),
        vector_dimension: 3,
        ..KatokConfig::default()
    }
}

#[test]
fn settings_keep_text_on_this_machine() {
    assert!(KatokConfig::default().validate().is_ok());
    assert!(loopback_config(Some("http://127.0.0.1:9/embed")).validate().is_ok());
    let message = |config: KatokConfig| config.validate().expect_err("refused").message();
    assert!(message(loopback_config(None)).contains("requires embedding_endpoint"));
    assert!(message(loopback_config(Some("http://far.test:80/"))).contains("must be loopback"));
    let unknown = KatokConfig {
        embedding_provider: "cloud".to_string(),
        ..KatokConfig::default()
    };
    assert!(message(unknown).contains("unsupported embedding provider: cloud"));
    assert_eq!(HypeConfig::default().vector_dimension, 2048);
}

#[test]
fn a_loopback_address_is_read() {
    let endpoint = parse_loopback_endpoint("http://[::1]:8080/v1/embed").expect("address");
    assert_eq!(
        (endpoint.host.as_str(), endpoint.port, endpoint.path.as_str()),
        ("::1", 8080, "/v1/embed")
    );
    let bare = parse_loopback_endpoint("http://localhost:80").expect("address");
    assert_eq!(bare.path, "/embed");
    let reason = |raw: &str| parse_loopback_endpoint(raw).expect_err("refused").message();
    assert!(reason("https://localhost:80").contains("must use http://"));
    assert!(reason("http://localhost").contains("requires a port"));
    assert!(reason("http://localhost:x").contains("invalid loopback port: invalid digit"));
    assert!(reason("http://far.test:80").contains("must be loopback, got far.test"));
}

#[test]
fn loopback_http_provider_rejects_non_loopback_endpoints() {
    let config = KatokConfig {
        embedding_provider: "loopback-http".to_string(),
        embedding_endpoint: Some("https://example.com/embed".to_string()),
        ..KatokConfig::default()
    };
    let error = config.validate().expect_err("refused");
    assert!(error.message().contains("embedding endpoint must be loopback"));
}

#[test]
fn an_embedder_is_chosen_by_the_settings() {
    let local = KatokConfig::default();
    assert_eq!(choose_embedder(&local, None).expect("local"), EmbedderChoice::Local);
    assert_eq!(
        choose_embedder(&local, Some("local-test")).expect("test"),
        EmbedderChoice::Deterministic
    );
    let http = loopback_config(Some("http://localhost:1"));
    assert_eq!(choose_embedder(&http, None).expect("http"), EmbedderChoice::LoopbackHttp);
    let other = KatokConfig {
        embedder_model: "other".to_string(),
        ..KatokConfig::default()
    };
    assert!(choose_embedder(&other, None).is_err());
}

#[test]
fn a_request_carries_prefixed_text_and_its_length() {
    let embedder =
        LoopbackHttpEmbedder::new(&loopback_config(Some("http://127.0.0.1:9/embed"))).expect("new");
    assert_eq!(embedder.passages(&["본문".to_string()]), ["passage: 본문"]);
    assert_eq!(embedder.query_input(" 질의 "), "query: 질의");
    assert_eq!(
        embedder.request_head(12),
        "POST /embed HTTP/1.1\r\nHost: 127.0.0.1\r\nContent-Type: application/json\r\n\
         Content-Length: 12\r\nConnection: close\r\n\r\n"
    );
    assert!(embedder.check_vectors(&[3, 3], 2).is_ok());
    assert!(embedder.check_vectors(&[3], 2).is_err());
    assert!(embedder.check_vectors(&[3, 4], 2).is_err());
    assert!(LoopbackHttpEmbedder::new(&loopback_config(None)).is_err());
}

#[test]
fn a_reply_is_cut_at_its_headers() {
    let reply = b"HTTP/1.1 200 OK\r\nA: b\r\n\r\n{}";
    assert_eq!(response_body_start(reply).expect("body"), reply.len() - 2);
    let message = |reply: &[u8]| response_body_start(reply).expect_err("refused").message();
    assert!(message(b"HTTP/1.1 200 OK\r\n").contains("has no headers"));
    assert!(message(b"HTTP/1.1 500 No\r\n\r\n").contains("returned HTTP/1.1 500 No"));
    assert!(message(b"\xff\r\n\r\n").contains("invalid embedding headers: invalid utf-8"));
    assert!(check_status("HTTP/1.0 200 OK").is_ok());
    assert!(check_status("HTTP/1.1 2000").is_err());
}

#[test]
fn terms_are_counted_by_their_digest() {
    assert_eq!(
        term_counts("가 나\n가 a", 8).expect("counts"),
        vec![1, 0, 1, 0, 2, 0, 0, 0]
    );
    assert!(term_counts("가", 0).is_err());
    assert_eq!(bucket_of_digest(&[1, 1, 0, 0, 0, 0, 0, 0], 256), 1);
    assert_eq!(bucket_of_digest(&[1, 1, 0, 0, 0, 0, 0, 0], 1000), 257);
}

// ---------------------------------------------------------------------------
// The index
// ---------------------------------------------------------------------------

#[test]
fn a_revision_is_the_digest_of_its_windows() {
    assert_eq!(
        content_hash(""),
        "e3b0c44298fc1c149afbf4c8996fb92427ae41e4649b934ca495991b7852b855"
    );
    let windows = [window("p1", "one"), window("p2", "two")];
    assert_eq!(
        archive_revision_for_parents(&windows),
        "bd3e04133a0c99ccc265ec94f6b644073a54f3210b89af12516475775fe00777"
    );
    assert_ne!(
        archive_revision_for_parents(&windows[..1]),
        archive_revision_for_parents(&windows)
    );
}

#[test]
fn a_pointer_names_a_generation_inside_the_index() {
    assert_eq!(generation_named(" gen-1 \n").expect("name"), "gen-1");
    for bad in ["", " ", "..", ".", "a/b", "a\\b"] {
        assert!(
            matches!(generation_named(bad), Err(Error::SemanticIndexStale(_))),
            "{bad:?}"
        );
    }
    assert_eq!(generation_dir("/i", "gen-1"), "/i/generations/gen-1");
    assert_eq!(semantic_source_dir("/i"), "/i/source/chunks");
    assert_eq!(minsync_chunk_path("c"), "chunks/c.md");
}

fn revision() -> String {
    "0123456789abcdef0123456789abcdef".to_string()
}

#[test]
fn a_cursor_of_another_embedder_is_stale() {
    let cursor = new_cursor(&revision(), "e1", 3, "now".to_string());
    assert!(validate_cursor(&cursor, "e1").is_ok());
    assert_eq!(
        validate_cursor(&cursor, "e2").expect_err("stale").message(),
        "semantic index is stale: embedder is e1, expected e2"
    );
    assert_eq!(cursor.embedded_texts, 3);
}

#[test]
fn a_generation_is_reused_healed_or_ignored() {
    let windows = [window("b", "two"), window("a", "one")];
    let revision = archive_revision_for_parents(&windows);
    let stored = || sorted_window_pairs(&windows);
    assert_eq!(stored()[0].chunk_id, "a");
    let readable = |revision: &str, cut: usize| PriorGeneration::Readable {
        cursor: new_cursor(revision, "e", 2, "now".to_string()),
        stored: stored().into_iter().skip(cut).collect(),
    };
    let used = |full: bool, prior: PriorGeneration| prior_use(full, &prior, "e", &revision, &windows);
    assert_eq!(used(false, readable(&revision, 0)), PriorUse::Reuse);
    assert_eq!(used(false, readable("older", 1)), PriorUse::Reuse);
    assert_eq!(used(false, readable(&revision, 1)), PriorUse::Heal);
    assert_eq!(used(false, PriorGeneration::Unreadable), PriorUse::Heal);
    assert_eq!(used(false, PriorGeneration::Absent), PriorUse::Ignore);
    assert_eq!(used(true, readable(&revision, 0)), PriorUse::Ignore);

    let cursor = new_cursor(&revision, "e", 2, "now".to_string());
    assert!(validate_generation(&cursor, "e", &revision, &windows, &stored()).is_ok());
    assert!(validate_generation(&cursor, "e", "other", &windows, &stored()).is_err());
    assert!(validate_generation(&cursor, "e", &revision, &windows, &stored()[1..]).is_err());
}

#[test]
fn only_changed_texts_are_embedded() {
    let windows = [window("a", "one"), window("b", "two"), window("c", "three")];
    let prior = [Some(content_hash("one")), Some(content_hash("old")), None];
    let plan = plan_vectors(&windows, &prior, &revision());
    assert_eq!(plan.reused.len(), 1);
    assert_eq!(plan.reused[0].chunk_id, "a");
    assert_eq!(
        plan.pending.iter().map(|p| p.chunk_id.as_str()).collect::<Vec<_>>(),
        ["b", "c"]
    );
    assert_eq!(batches(5, 2), vec![(0, 2), (2, 4), (4, 5)]);
    assert!(batches(0, 2).is_empty());
    assert!(check_batch(2, 2).is_ok());
    assert!(check_batch(2, 1).is_err());
    let report = index_report(3, &plan, 2, "e".to_string(), revision(), PriorUse::Heal, Vec::new());
    assert_eq!((report.embedding_calls, report.embedded_texts), (1, 2));
    assert_eq!(report.reused_vectors, 1);
    assert!(report.self_healed);
}

#[test]
fn stale_but_structurally_valid_generation_reuses_unchanged_vectors() {
    let mut windows = vec![window("a", "회의 보고서"), window("b", "점심 약속")];
    let first_revision = archive_revision_for_parents(&windows);
    let first = plan_vectors(&windows, &[None, None], &first_revision);
    let report = index_report(
        windows.len(),
        &first,
        8,
        "e".to_string(),
        first_revision.clone(),
        PriorUse::Ignore,
        Vec::new(),
    );
    assert!(report.embedded_texts > 0);
    let prior = PriorGeneration::Readable {
        cursor: new_cursor(&first_revision, "e", report.embedded_texts, "then".to_string()),
        stored: sorted_window_pairs(&windows),
    };

    windows.push(window("new", "brand new semantic material"));
    let revision = archive_revision_for_parents(&windows);
    assert_ne!(revision, first_revision);
    let usage = prior_use(false, &prior, "e", &revision, &windows);
    assert_eq!(usage, PriorUse::Reuse);
    let PriorGeneration::Readable { stored, .. } = &prior else {
        panic!("readable")
    };
    let known: Vec<Option<String>> = windows
        .iter()
        .map(|w| {
            stored
                .iter()
                .find(|pair| pair.chunk_id == w.parent_id)
                .map(|pair| pair.content_hash.clone())
        })
        .collect();
    let plan = plan_vectors(&windows, &known, &revision);
    let second = index_report(
        windows.len(),
        &plan,
        8,
        "e".to_string(),
        revision,
        usage,
        Vec::new(),
    );
    assert!(second.reused_vectors > 0);
    assert!(second.embedded_texts > 0);
    assert!(second.embedded_texts < second.written_documents);
}

#[test]
fn an_archive_that_grew_embeds_only_new_and_changed_windows() {
    let earlier = [window("a", "one"), window("b", "two"), window("c", "three")];
    let stored = sorted_window_pairs(&earlier);
    let windows = [
        window("c", "three"),
        window("d", "four"),
        window("a", "one"),
        window("b", "another two"),
    ];
    let then = archive_revision_for_parents(&earlier);
    let now = archive_revision_for_parents(&windows);
    let known: Vec<Option<String>> = windows
        .iter()
        .map(|w| {
            stored
                .iter()
                .find(|pair| pair.chunk_id == w.parent_id)
                .map(|pair| pair.content_hash.clone())
        })
        .collect();
    let prior = PriorGeneration::Readable {
        cursor: new_cursor(&then, "e", 3, "then".to_string()),
        stored,
    };
    let usage = prior_use(false, &prior, "e", &now, &windows);
    assert_eq!(usage, PriorUse::Reuse);
    let plan = plan_vectors(&windows, &known, &now);
    assert_eq!(
        plan.reused.iter().map(|p| p.chunk_id.as_str()).collect::<Vec<_>>(),
        ["c", "a"]
    );
    assert_eq!(
        plan.pending.iter().map(|p| p.text.as_str()).collect::<Vec<_>>(),
        ["four", "another two"]
    );
    let report = index_report(4, &plan, 8, "e".to_string(), now, usage, Vec::new());
    assert_eq!((report.reused_vectors, report.embedded_texts), (2, 2));
    assert!(!report.self_healed);
}

#[test]
fn a_generation_is_named_by_its_revision() {
    assert_eq!(generation_id(&revision(), 7, -3), "gen-0123456789abcdef-7--3");
    assert!(is_old_generation("gen-1", "gen-2"));
    assert!(!is_old_generation("gen-2", "gen-2"));
}

#[test]
fn an_index_of_another_revision_is_not_searched() {
    assert!(matches!(check_query(" "), Err(Error::EmptyQuery)));
    assert!(check_query("q").is_ok());
    let found = || vec![("w".to_string(), Some(window("w", "글")))];
    assert_eq!(
        semantic_hits("r", "r", found(), "글", 80).expect("hits")[0].unit,
        "parent_window"
    );
    assert!(matches!(
        semantic_hits("r", "s", found(), "글", 80),
        Err(Error::SemanticIndexStale(_))
    ));
}

#[test]
fn documents_are_planned_scored_and_ranked() {
    let planned = planned_semantic_documents(&["c1".to_string()], "/i");
    assert_eq!(planned[0].path, "/i/source/chunks/c1.md");
    assert_eq!(
        document_text(&chunk("c1", "본문")),
        "chunk_id: c1\nchat_id: c\nsender_nickname: 나윤\ntime_range: s..e\n\
         parent_chunk_ids: p,q\n---\n본문\n"
    );
    assert_eq!(document_score("회의 보고서 없음", "회의 보고서"), 2);
    let scored = |score: usize, id: &str| ScoredDocument {
        score,
        chunk_id: id.to_string(),
    };
    let ranked = rank_documents(vec![scored(1, "b"), scored(2, "z"), scored(1, "a")]);
    assert_eq!(top_ids(&ranked, 2), ["z", "a"]);
    let hashed = |id: &str, hash: &str| HashedChunk {
        chunk_id: id.to_string(),
        content_hash: hash.to_string(),
    };
    assert_eq!(
        semantic_seen_material(&[hashed("c1", "x"), hashed("c2", "y")]),
        "c1\0x\0c2\0y\0"
    );
}

#[test]
fn failures_are_told_apart() {
    assert!(matches!(
        embedding_failure("Connection refused (os error 61)", "shown".to_string()),
        Error::EmbedderUnavailable
    ));
    assert_eq!(
        embedding_failure("boom", "embed: boom".to_string()).message(),
        "MinSync error: embed: boom"
    );
    for (error, word) in [
        (Error::SemanticIndexMissing, "semantic_index_missing"),
        (Error::SemanticIndexStale("x".to_string()), "semantic_index_stale"),
        (Error::SemanticIndexBusy("x".to_string()), "semantic_index_busy"),
        (Error::EmptyQuery, "empty_query"),
        (Error::Sql("x".to_string()), "sqlite_error"),
        (Error::Io("x".to_string()), "command_failed"),
        (Error::HomeDirUnavailable, "command_failed"),
    ] {
        assert_eq!(error_code(Some(&error)), word);
    }
    assert_eq!(error_code(None), "command_failed");
    assert!(Error::SemanticIndexBusy("/l".to_string())
        .message()
        .contains("already running"));
    assert_eq!(
        Error::Fixture {
            line: 3,
            source: "eof".to_string()
        }
        .message(),
        "fixture parse error on line 3: eof"
    );
    assert_eq!(Error::Kakao("not a Pkv2 file".to_string()).message(), "not a Pkv2 file");
    assert_eq!(Error::Io("gone".to_string()).message(), "I/O error: gone");
    assert_eq!(Error::Config("bad".to_string()).message(), "config parse error: bad");
    assert_eq!(
        Error::UnsupportedSource("x".to_string()).message(),
        "unsupported source adapter: x"
    );
}

#[test]
fn a_chunk_is_found_again_by_its_path() {
    for id in ["chunk_1", "a.b", ".hidden"] {
        assert_eq!(
            chunk_id_from_minsync_path(&minsync_chunk_path(id)).as_deref(),
            Some(id)
        );
        assert_eq!(
            chunk_id_from_path(&document_path("/root/x", id)).expect("id"),
            id
        );
    }
    assert_eq!(chunk_id_from_minsync_path("chunks/.md").as_deref(), Some(".md"));
    assert_eq!(chunk_id_from_minsync_path(".."), None);
    assert_eq!(
        chunk_id_from_path("/").expect_err("no name").message(),
        "invalid semantic path: /"
    );
}

#[test]
fn the_local_model_is_given_marked_texts() {
    assert_eq!(local_passages(&["a".to_string(), " b".to_string()]), ["passage: a", "passage:  b"]);
    assert_eq!(local_query("  회의 \n"), "query: 회의");
}

fn run_index(events: Vec<IndexEvent>) -> (Vec<IndexStage>, IndexStep) {
    let mut asked = Vec::new();
    let mut step = IndexStep::Ask(begin_index());
    for event in events {
        if let IndexStep::Ask(run) = step {
            asked.push(run.stage);
            step = advance_index(run, event);
        }
    }
    (asked, step)
}

fn done() -> IndexEvent {
    IndexEvent::Done(Ok(()))
}

fn broken() -> IndexEvent {
    IndexEvent::Done(Err(Error::Io("full".to_string())))
}

#[test]
fn a_run_publishes_what_it_checked() {
    let (asked, step) = run_index(vec![
        done(),
        done(),
        IndexEvent::Planned(Ok(2)),
        done(),
        done(),
        done(),
        done(),
        done(),
        done(),
        done(),
    ]);
    assert_eq!(
        asked,
        [
            IndexStage::Lock,
            IndexStage::Stage,
            IndexStage::Plan,
            IndexStage::Embed { done: 0, total: 2 },
            IndexStage::Embed { done: 1, total: 2 },
            IndexStage::Save,
            IndexStage::Check,
            IndexStage::Commit,
            IndexStage::Publish,
            IndexStage::Clean
        ]
    );
    assert!(matches!(step, IndexStep::Finished(Ok(()))));
}

#[test]
fn a_failed_run_is_undone() {
    let (_, busy) = run_index(vec![IndexEvent::Done(Err(Error::SemanticIndexBusy(
        "lock".to_string(),
    )))]);
    assert!(matches!(
        busy,
        IndexStep::Finished(Err(Error::SemanticIndexBusy(_)))
    ));
    let (asked, step) = run_index(vec![
        done(),
        done(),
        IndexEvent::Planned(Ok(0)),
        done(),
        broken(),
        broken(),
    ]);
    assert_eq!(asked[4..], [IndexStage::Check, IndexStage::DropStaging]);
    assert!(matches!(step, IndexStep::Finished(Err(Error::Io(reason))) if reason == "full"));
    let (asked, step) = run_index(vec![
        done(),
        done(),
        IndexEvent::Planned(Ok(0)),
        done(),
        done(),
        done(),
        broken(),
        done(),
    ]);
    assert_eq!(asked[6..], [IndexStage::Publish, IndexStage::DropGeneration]);
    assert!(matches!(step, IndexStep::Finished(Err(_))));
    let (asked, _) = run_index(vec![
        done(),
        done(),
        IndexEvent::Planned(Err(Error::EmptyQuery)),
        done(),
    ]);
    assert_eq!(asked[3], IndexStage::DropStaging);
}
