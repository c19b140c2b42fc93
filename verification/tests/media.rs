use std::cell::{Cell, RefCell};
use std::collections::BTreeMap;

use aes::Aes256;
use cbc::cipher::{block_padding::Pkcs7, BlockEncryptMut, KeyIvInit};
use katok::digest::sha1_hex_of;
use katok::kakao::filename::{sanitize_filename, sanitize_normalized};
use katok::kakao::media::{
    album_full_stem, album_thumb_stem, photo_full_stem, photo_thumb_stem, video_full_stem,
    CacheStem, MediaFrameInput, MediaKind, MediaRecord, MediaReport, MediaTier,
};
use katok::kakao::media_crypto::{
    decrypt_pkv2_image, mactalk_aes_decrypt, media_key_string, unwrap_plaintext,
};
use katok::kakao::media_reader::{
    frame_inputs, sorted_chat_ids, type_list, unique_frames, MediaQuery, MediaRow,
};
use katok::kakao::media_resolver::ladder::{
    advance, begin, resolve_media_frames_with_fetcher, CachedFile, Event, Request, Step,
};
use katok::kakao::media_resolver::{
    check_fingerprint, epoch_seconds, image_ext, output_candidates, redact_url, url_expires,
    verify_cdn_checksum, MediaResolveOptions,
};
use sha2::{Digest, Sha256};

const LOG_ID: i64 = 1_234_567_890_123;
const VECTOR_LOG_ID: i64 = 1_234_567_890_123;
const VECTOR_IMAGE_HEX: &str = "ffd8ffe04b41544f4b2d504b56322d54455354ffd9";
const VECTOR_IMAGE_SHA1: &str = "91ed9414d7eb34fe648db42be27a0b7847dc8c8e";
const PYTHON_REFERENCE_PKV2_HEX: &str =
    "506b7632000102030405060708090a0b0c0d0e0f554b63056928134b57397f6a2e06f1f04\
     faf2ce5a3905914af3afabf90b8605bc39e6f7ffe132a0bd65963bc6fdbc111d283724581\
     b869f60e1c85fedaf14265380a50c41ab3efa9a46bade5e1bce7dc175f8fc5d06a29cc\
     14bb8afbe382eb5bba3e676fd35b0c002fdf5621adedc2d344db8c97873ae4c62769b\
     38524501062322c5258f86688e325f549a11696b3e68ed354979c4df585732c1d42b\
     49afe3ac97b46997e39c43e9818cdd9870b7032d8da56cfe0663201a1daa321ad7\
     a1ee6bbdb584d7b76ca562e05d26eeb3dd7b777c01c18e091bb177fef85bb1013c\
     6b632c75112780f8f1b423dc5587e17ca1aacc3c8a585373fe2142cd299303fd1\
     ec64340e58e9dabd4c6f1b2d5298eab53a925efb785f0eac9961d736046ba914fd";
const IV_LEN: usize = 16;
const DEFAULT_CDN_TIMEOUT_SECS: u64 = 20;

fn bytes_from_hex(input: &str) -> Vec<u8> {
    assert_eq!(input.len() % 2, 0);
    input
        .as_bytes()
        .chunks_exact(2)
        .map(|pair| {
            let text = std::str::from_utf8(pair).expect("hex is utf8");
            u8::from_str_radix(text, 16).expect("valid hex")
        })
        .collect()
}

// ---------------------------------------------------------------------------
// Decryption
// ---------------------------------------------------------------------------

#[test]
fn media_key_string_matches_reference_format() {
    assert_eq!(media_key_string(VECTOR_LOG_ID), "%3210987654321#");
}

#[test]
fn decrypts_python_reference_pkv2_vector() {
    let file_bytes = bytes_from_hex(PYTHON_REFERENCE_PKV2_HEX);
    let image = decrypt_pkv2_image(&file_bytes, VECTOR_LOG_ID).expect("decrypt vector");

    assert_eq!(image, bytes_from_hex(VECTOR_IMAGE_HEX));
    assert_eq!(sha1_hex_of(&image), VECTOR_IMAGE_SHA1);
    assert_eq!(&image[..3], b"\xff\xd8\xff");
}

#[test]
fn same_log_id_key_path_is_media_kind_agnostic() {
    let file_bytes = bytes_from_hex(PYTHON_REFERENCE_PKV2_HEX);

    let img = decrypt_pkv2_image(&file_bytes, VECTOR_LOG_ID).expect(".img decrypt");
    let thm = decrypt_pkv2_image(&file_bytes, VECTOR_LOG_ID).expect(".thm decrypt");

    assert_eq!(img, thm);
}

#[test]
fn rejects_non_pkv2_files() {
    let err = decrypt_pkv2_image(b"nope", VECTOR_LOG_ID).expect_err("invalid magic");
    assert!(err.message().contains("not a Pkv2 file"));
}

#[test]
fn rejects_unaligned_ciphertext() {
    let err = mactalk_aes_decrypt(&[0; IV_LEN + 1], &media_key_string(VECTOR_LOG_ID))
        .expect_err("unaligned ciphertext");
    assert!(err.message().contains("block-aligned"));
}

#[test]
fn a_wrong_key_does_not_decrypt() {
    let file_bytes = bytes_from_hex(PYTHON_REFERENCE_PKV2_HEX);
    let other = decrypt_pkv2_image(&file_bytes, VECTOR_LOG_ID + 1);
    assert!(other.is_err() || other.expect("bytes") != bytes_from_hex(VECTOR_IMAGE_HEX));
}

#[test]
fn the_prefix_of_the_plaintext_is_dropped() {
    let mut plaintext = vec![b'K'; 256];
    plaintext.extend_from_slice(b"body");
    assert_eq!(unwrap_plaintext(plaintext).expect("body"), b"body");
    assert!(unwrap_plaintext(vec![b'K'; 255]).is_err());
}

#[test]
fn negative_ids_reverse_with_their_sign() {
    assert_eq!(media_key_string(-12), "%21-#");
    assert_eq!(media_key_string(0), "%0#");
}

// ---------------------------------------------------------------------------
// Reading rows
// ---------------------------------------------------------------------------

const PHOTO_MESSAGE_TYPE: i64 = 2;
const VIDEO_MESSAGE_TYPE: i64 = 3;
const FILE_MESSAGE_TYPE: i64 = 18;
const ALBUM_MESSAGE_TYPE: i64 = 27;

#[test]
fn normalizes_single_photo_attachment() {
    let row = MediaRow {
        log_id: 123,
        author_id: 456,
        msg_type: PHOTO_MESSAGE_TYPE,
        sent_at: 1_700_000_000,
        attachment: Some(
            r#"{"w":640,"h":"480","cs":"abc","url":"https://cdn.example/p"}"#.to_string(),
        ),
    };

    let frames = frame_inputs(&row);

    assert_eq!(frames.len(), 1);
    assert_eq!(frames[0].idx, 0);
    assert_eq!(frames[0].width, Some(640));
    assert_eq!(frames[0].height, Some(480));
    assert_eq!(frames[0].checksum_sha1.as_deref(), Some("abc"));
    assert_eq!(frames[0].cdn_url.as_deref(), Some("https://cdn.example/p"));
    assert_eq!(frames[0].full_stem, photo_full_stem(123));
    assert_eq!(frames[0].sender.as_deref(), Some("456"));
}

#[test]
fn normalizes_album_frames_from_parallel_arrays() {
    let row = MediaRow {
        log_id: 900,
        author_id: 111,
        msg_type: ALBUM_MESSAGE_TYPE,
        sent_at: 1_700_000_010,
        attachment: Some(
            r#"{"wl":[100,200],"hl":[300],"csl":["a","b"],"imageUrls":["u0","u1"]}"#.to_string(),
        ),
    };

    let frames = frame_inputs(&row);

    assert_eq!(frames.len(), 2);
    assert_eq!(frames[0].full_stem, album_full_stem(900, 0));
    assert_eq!(frames[1].full_stem, album_full_stem(900, 1));
    assert_eq!(frames[0].height, Some(300));
    assert_eq!(frames[1].height, None);
    assert_eq!(frames[1].checksum_sha1.as_deref(), Some("b"));
    assert_eq!(frames[1].cdn_url.as_deref(), Some("u1"));
    assert_eq!(frames[1].output_stem, "900_1");
}

#[test]
fn normalizes_video_attachment_to_vid_cache_stem() {
    let row = MediaRow {
        log_id: 3_893_550_766_304_628_736,
        author_id: 456,
        msg_type: VIDEO_MESSAGE_TYPE,
        sent_at: 1_785_084_620,
        attachment: Some(
            r#"{"w":956,"h":534,"d":61,"s":8298343,"cs":"DE9DC05F42","url":"https://cdn.example/talkv_high.mp4?expires=1"}"#
                .to_string(),
        ),
    };

    let frames = frame_inputs(&row);

    assert_eq!(frames.len(), 1);
    assert_eq!(
        frames[0].full_stem,
        video_full_stem(3_893_550_766_304_628_736)
    );
    assert_eq!(frames[0].full_ext, ".vid");
    assert_ne!(
        frames[0].full_stem,
        photo_full_stem(3_893_550_766_304_628_736)
    );
    assert_eq!(frames[0].width, Some(956));
    assert_eq!(frames[0].checksum_sha1.as_deref(), Some("DE9DC05F42"));
    assert!(frames[0].cdn_url.is_some());
}

#[test]
fn photo_rows_keep_the_image_cache_extension() {
    let row = MediaRow {
        log_id: 5,
        author_id: 1,
        msg_type: 2,
        sent_at: 1,
        attachment: Some(r#"{"w":1,"h":1}"#.to_string()),
    };

    assert_eq!(frame_inputs(&row)[0].full_ext, ".img");
}

#[test]
fn a_row_without_an_attachment_still_has_a_frame() {
    for attachment in [None, Some("not json".to_string()), Some("[1]".to_string())] {
        let row = MediaRow {
            log_id: 7,
            author_id: 9,
            msg_type: PHOTO_MESSAGE_TYPE,
            sent_at: 11,
            attachment,
        };
        let frames = frame_inputs(&row);
        assert_eq!(frames.len(), 1);
        assert_eq!(frames[0].width, None);
        assert_eq!(frames[0].cdn_url, None);
        assert_eq!(frames[0].output_stem, "7");
        assert_eq!(frames[0].sent_at, Some(11));
    }
}

#[test]
fn numbers_are_read_from_numbers_and_texts() {
    let row = MediaRow {
        log_id: 1,
        author_id: 1,
        msg_type: PHOTO_MESSAGE_TYPE,
        sent_at: 1,
        attachment: Some(r#"{"w":12.9,"h":" 34 ","cs":77,"url":""}"#.to_string()),
    };
    let frames = frame_inputs(&row);
    assert_eq!(frames[0].width, Some(12));
    assert_eq!(frames[0].height, Some(34));
    assert_eq!(frames[0].checksum_sha1.as_deref(), Some("77"));
    assert_eq!(frames[0].cdn_url, None);
}

#[test]
fn a_query_asks_for_the_types_of_its_kinds() {
    let mut query = MediaQuery::new(1, None, 10);
    assert_eq!(type_list(&query.message_types()), "2, 3, 18, 27");
    query.kinds = vec![MediaKind::File];
    assert_eq!(type_list(&query.message_types()), "18");
    query.kinds = vec![MediaKind::Video, MediaKind::Photo];
    assert_eq!(type_list(&query.message_types()), "2, 3, 27");
}

#[test]
fn a_frame_that_two_databases_hold_is_taken_once() {
    let row = MediaRow {
        log_id: 900,
        author_id: 1,
        msg_type: ALBUM_MESSAGE_TYPE,
        sent_at: 1,
        attachment: Some(r#"{"csl":["a","b"]}"#.to_string()),
    };
    let mut frames = frame_inputs(&row);
    frames.extend(frame_inputs(&row));
    let kept = unique_frames(frames);
    assert_eq!(
        kept.iter().map(|f| (f.log_id, f.idx)).collect::<Vec<_>>(),
        vec![(900, 0), (900, 1)]
    );
}

#[test]
fn chat_ids_are_sorted_and_distinct() {
    assert_eq!(sorted_chat_ids(&[3, -1, 3, 2, -1]), vec![-1, 2, 3]);
}

// ---------------------------------------------------------------------------
// The ladder, over files in memory
// ---------------------------------------------------------------------------

struct Disk {
    cache: Vec<(CacheStem, String, Vec<u8>)>,
    written: RefCell<BTreeMap<String, Vec<u8>>>,
}

impl Disk {
    fn new() -> Self {
        Disk {
            cache: Vec::new(),
            written: RefCell::new(BTreeMap::new()),
        }
    }

    fn cached(mut self, stem: CacheStem, ext: &str, bytes: &[u8]) -> Self {
        self.cache.push((stem, ext.to_string(), bytes.to_vec()));
        self
    }

    fn resolve(
        &self,
        frames: &[MediaFrameInput],
        options: &MediaResolveOptions,
        mut fetch: impl FnMut(&str, u64, u64) -> Result<Vec<u8>, String>,
    ) -> MediaReport {
        let mut find = |paths: &Vec<String>| {
            paths
                .iter()
                .find(|path| self.written.borrow().contains_key(*path))
                .cloned()
        };
        let mut read = |stem: CacheStem, ext: &str| {
            self.cache
                .iter()
                .find(|(held, held_ext, _)| *held == stem && held_ext == ext)
                .map(|(_, ext, bytes)| CachedFile {
                    path: format!("/cache/{stem:?}{ext}"),
                    content: Ok(bytes.clone()),
                })
        };
        let mut save = |path: &str, bytes: &Vec<u8>| {
            self.written
                .borrow_mut()
                .insert(path.to_string(), bytes.clone());
            Ok(())
        };
        resolve_media_frames_with_fetcher(
            frames, options, &mut find, &mut read, &mut fetch, &mut save,
        )
        .expect("resolve")
    }

    fn body(&self, path: &str) -> Vec<u8> {
        self.written.borrow().get(path).expect("written").clone()
    }
}

fn options() -> MediaResolveOptions {
    MediaResolveOptions::at("/out".to_string(), 1_700_000_000)
}

fn frame() -> MediaFrameInput {
    MediaFrameInput {
        kind: MediaKind::Photo,
        log_id: LOG_ID,
        idx: 0,
        width: Some(640),
        height: Some(480),
        checksum_sha1: Some(VECTOR_IMAGE_SHA1.to_string()),
        size_bytes: None,
        filename: None,
        full_stem: photo_full_stem(LOG_ID),
        full_ext: ".img",
        thumb_stem: photo_thumb_stem(LOG_ID),
        output_stem: LOG_ID.to_string(),
        sender: Some("tester".to_string()),
        sent_at: Some(1_700_000_001),
        cdn_url: None,
    }
}

#[test]
fn resolves_local_full_img_first() {
    let input = frame();
    let disk = Disk::new().cached(
        input.full_stem,
        ".img",
        &bytes_from_hex(PYTHON_REFERENCE_PKV2_HEX),
    );

    let report = disk.resolve(&[input], &options(), |_, _, _| {
        panic!("cdn should not be called when full cache exists")
    });

    assert!(report.errors.is_empty());
    assert_eq!(report.tier_counts.get("full"), Some(1));
    let record = &report.records[0];
    assert_eq!(record.tier, MediaTier::Full);
    assert_eq!(record.tier_reason, "decrypted");
    assert_eq!(record.sha1.as_deref(), Some(VECTOR_IMAGE_SHA1));
    assert_eq!(
        disk.body(record.path.as_ref().expect("path")),
        bytes_from_hex(VECTOR_IMAGE_HEX)
    );
}

#[test]
fn resolves_cdn_after_full_cache_miss_and_verifies_sha1() {
    let mut input = frame();
    input.cdn_url = Some("https://cdn.example/image?expires=1900000000".to_string());
    let body = bytes_from_hex(VECTOR_IMAGE_HEX);

    let report = Disk::new().resolve(&[input], &options(), |url, timeout, _| {
        assert_eq!(url, "https://cdn.example/image?expires=1900000000");
        assert_eq!(timeout, DEFAULT_CDN_TIMEOUT_SECS);
        Ok(body.clone())
    });

    assert!(report.errors.is_empty());
    assert_eq!(report.records[0].tier, MediaTier::Cdn);
    assert_eq!(report.records[0].tier_reason, "full-not-cached+cdn-fetched");
    assert_eq!(report.records[0].sha1.as_deref(), Some(VECTOR_IMAGE_SHA1));
}

#[test]
fn cdn_without_cs_fingerprint_is_refused_not_stored() {
    let mut input = frame();
    input.checksum_sha1 = None;
    input.cdn_url = Some("https://cdn.example/image?expires=1900000000".to_string());

    let report = Disk::new().resolve(&[input], &options(), |_, _, _| {
        panic!("cdn must not be fetched when the body could not be verified")
    });

    let record = &report.records[0];
    assert_eq!(record.tier, MediaTier::Stub);
    assert!(
        record.tier_reason.contains("cdn-unverifiable"),
        "tier_reason must say why the cdn tier was skipped, got {}",
        record.tier_reason
    );
    assert!(record.path.is_none(), "nothing may be written to disk");
    assert_eq!(report.errors.len(), 1);
    assert_eq!(report.errors[0].stage, "cdn");
    assert!(report.errors[0].error.contains("no cs fingerprint"));
}

#[test]
fn cdn_with_empty_cs_fingerprint_is_refused_not_stored() {
    let mut input = frame();
    input.checksum_sha1 = Some(String::new());
    input.cdn_url = Some("https://cdn.example/image?expires=1900000000".to_string());

    let report = Disk::new().resolve(&[input], &options(), |_, _, _| {
        panic!("cdn must not be fetched when the body could not be verified")
    });

    assert_eq!(report.records[0].tier, MediaTier::Stub);
    assert!(report.records[0].path.is_none());
    assert_eq!(report.errors.len(), 1);
}

#[test]
fn cdn_sha1_mismatch_records_error_then_uses_thumbnail() {
    let mut input = frame();
    input.checksum_sha1 = Some("0000000000000000000000000000000000000000".to_string());
    input.cdn_url = Some("https://cdn.example/image?expires=1900000000&secret=x".to_string());
    let disk = Disk::new().cached(
        input.thumb_stem,
        ".thm",
        &bytes_from_hex(PYTHON_REFERENCE_PKV2_HEX),
    );
    let mut options = options();
    options.cdn_timeout_secs = 3;

    let report = disk.resolve(&[input], &options, |_, timeout, _| {
        assert_eq!(timeout, 3);
        Ok(bytes_from_hex(VECTOR_IMAGE_HEX))
    });

    assert_eq!(report.records[0].tier, MediaTier::Thumb);
    assert_eq!(report.records[0].tier_reason, "full-not-cached+cdn-failed");
    assert_eq!(report.errors.len(), 1);
    assert_eq!(report.errors[0].stage, "cdn");
    assert_eq!(report.errors[0].path, "https://cdn.example/image");
    assert!(report.errors[0].error.contains("cdn body sha1 != cs"));
}

#[test]
fn no_cdn_mode_never_calls_network_and_emits_stub() {
    let mut options = MediaResolveOptions::no_cdn("/out".to_string());
    options.now_epoch = 1_700_000_000;
    let mut input = frame();
    input.cdn_url = Some("https://cdn.example/image?expires=1900000000".to_string());
    let calls = Cell::new(0);

    let report = Disk::new().resolve(&[input], &options, |_, _, _| {
        calls.set(calls.get() + 1);
        Ok(Vec::new())
    });

    assert_eq!(calls.get(), 0);
    assert!(report.errors.is_empty());
    assert_eq!(report.records[0].tier, MediaTier::Stub);
    assert_eq!(report.records[0].tier_reason, "not-cached");
    assert_eq!(report.records[0].path, None);
    assert_eq!(report.records[0].sha1, None);
}

#[test]
fn full_decrypt_failure_records_error_and_returns_decrypt_failed_stub() {
    let input = frame();
    let disk = Disk::new().cached(input.full_stem, ".img", b"not-pkv2");

    let report = disk.resolve(&[input], &options(), |_, _, _| {
        panic!("cdn should not be called without url")
    });

    assert_eq!(report.records[0].tier, MediaTier::Stub);
    assert_eq!(report.records[0].tier_reason, "decrypt-failed");
    assert_eq!(report.errors.len(), 1);
    assert_eq!(report.errors[0].stage, "full");
    assert!(report.errors[0].error.contains("not a Pkv2 file"));
}

#[test]
fn expired_cdn_url_falls_through_without_fetching() {
    let mut input = frame();
    input.cdn_url = Some("https://cdn.example/image?expires=1000".to_string());
    let calls = Cell::new(0);

    let report = Disk::new().resolve(&[input], &options(), |_, _, _| {
        calls.set(calls.get() + 1);
        Ok(Vec::new())
    });

    assert_eq!(calls.get(), 0);
    assert_eq!(report.records[0].tier, MediaTier::Stub);
    assert_eq!(report.records[0].tier_reason, "not-cached+cdn-expired");
}

#[test]
fn a_failed_download_and_a_broken_thumbnail_are_both_reported() {
    let mut input = frame();
    input.cdn_url = Some("https://cdn.example/image".to_string());
    let disk = Disk::new().cached(input.thumb_stem, ".thm", b"not-pkv2");

    let report = disk.resolve(&[input], &options(), |_, _, _| Err("offline".to_string()));

    assert_eq!(report.records[0].tier, MediaTier::Stub);
    assert_eq!(
        report.records[0].tier_reason,
        "decrypt-failed+cdn-failed+thumb-decrypt-failed"
    );
    assert_eq!(report.errors.len(), 2);
    assert_eq!(report.errors[0].error, "offline");
    assert_eq!(report.errors[1].stage, "thumb");
}

#[test]
fn an_output_that_cannot_be_written_ends_the_work() {
    let body = b"\xff\xd8\xffbody".to_vec();
    let mut input = frame();
    input.cdn_url = Some("https://cdn.example/image".to_string());
    input.checksum_sha1 = Some(sha1_hex_of(&body));
    let mut second = frame();
    second.log_id = LOG_ID + 1;
    let asked = Cell::new(0);
    let saved = Cell::new(0);

    let result = resolve_media_frames_with_fetcher(
        &[input, second],
        &options(),
        &mut |_: &Vec<String>| None,
        &mut |_: CacheStem, _: &str| {
            asked.set(asked.get() + 1);
            None
        },
        &mut |_: &str, _: u64, _: u64| Ok(body.clone()),
        &mut |_: &str, bytes: &Vec<u8>| {
            assert_eq!(bytes, &body);
            saved.set(saved.get() + 1);
            Err("disk full".to_string())
        },
    );

    assert!(matches!(result, Err(reason) if reason == "disk full"));
    assert_eq!((asked.get(), saved.get()), (1, 1));
}

#[test]
fn a_second_run_finds_what_the_first_fetched() {
    let body = b"\x89PNG\r\n\x1a\nbody".to_vec();
    let mut input = frame();
    input.cdn_url = Some("https://cdn.example/image".to_string());
    input.checksum_sha1 = Some(sha1_hex_of(&body));
    let disk = Disk::new();
    let skipping = MediaResolveOptions {
        skip_existing: true,
        ..options()
    };
    let calls = Cell::new(0);
    let fetch = |_: &str, secs: u64, max: u64| {
        assert_eq!((secs, max), (skipping.cdn_timeout_secs, skipping.max_fetch_bytes));
        calls.set(calls.get() + 1);
        Ok(body.clone())
    };

    let first = disk.resolve(&[input.clone()], &skipping, fetch);
    assert_eq!(first.records[0].tier, MediaTier::Cdn);
    let second = disk.resolve(&[input], &skipping, fetch);
    assert_eq!(second.records[0].tier, MediaTier::Existing);
    assert_eq!(second.records[0].path, first.records[0].path);
    assert_eq!(calls.get(), 1);
}

#[test]
fn the_machine_asks_for_the_cache_and_then_for_the_address() {
    let mut input = frame();
    input.cdn_url = Some("https://cdn.example/image".to_string());
    let options = options();
    let Step::Ask { progress, request } = begin(&input, &options) else {
        panic!("the cache comes first")
    };
    assert!(matches!(
        request,
        Request::ReadCache { stem, ext: ".img" } if stem == photo_full_stem(LOG_ID)
    ));
    let Step::Ask { progress, request } = advance(&input, &options, progress, Event::Cache(None))
    else {
        panic!("then the address")
    };
    assert!(matches!(
        &request,
        Request::Fetch { url, timeout_secs: 20, max_bytes }
            if url == "https://cdn.example/image" && *max_bytes == 512 * 1024 * 1024
    ));
    let body = bytes_from_hex(VECTOR_IMAGE_HEX);
    let Step::Done(done) = advance(&input, &options, progress, Event::Fetched(Ok(body.clone())))
    else {
        panic!("a body that matches ends the frame")
    };
    assert_eq!(done.record.tier, MediaTier::Cdn);
    assert_eq!(done.record.path.as_deref(), Some("/out/1234567890123.jpg"));
    assert_eq!(done.output, Some(body));
}

#[test]
fn a_dry_run_decrypts_without_writing() {
    let input = frame();
    let disk = Disk::new().cached(
        input.full_stem,
        ".img",
        &bytes_from_hex(PYTHON_REFERENCE_PKV2_HEX),
    );
    let mut options = options();
    options.dry_run = true;
    let report = disk.resolve(&[input], &options, |_, _, _| panic!("nothing to fetch"));
    assert_eq!(report.records[0].tier, MediaTier::Full);
    assert_eq!(report.records[0].path, None);
    assert!(disk.written.borrow().is_empty());
}

// ---------------------------------------------------------------------------
// Rows and ladder together
// ---------------------------------------------------------------------------

const AUTHOR_ID: i64 = 500;

const LOG_FULL: i64 = 10_001;
const LOG_CDN: i64 = 10_002;
const LOG_THUMB_AFTER_CDN_MISMATCH: i64 = 10_003;
const LOG_STUB: i64 = 10_004;
const LOG_ALBUM: i64 = 10_005;
const LOG_FILE: i64 = 10_006;
const LOG_FILE_EXPIRED: i64 = 10_007;
const LOG_FILE_HUGE: i64 = 10_008;

const CDN_URL: &str = "https://cdn.example/full.jpg?expires=1900000000";
const MISMATCH_URL: &str = "https://cdn.example/mismatch.jpg?expires=1900000000&secret=redacted";
const FILE_URL: &str = "https://cdn.example/f_abc.zip?expires=1900000000";
const FILE_EXPIRED_URL: &str = "https://cdn.example/f_old.zip?expires=1000";
const FILE_HUGE_URL: &str = "https://cdn.example/f_huge.zip?expires=1900000000";

const FILE_BODY: &[u8] = b"PK\x03\x04KATOK-ZIP-BODY";
const FILE_NAME: &str = "분기 보고서.zip";

const FULL_IMAGE: &[u8] = b"\xff\xd8\xff\xe0KATOK-FULL\xff\xd9";
const CDN_IMAGE: &[u8] = b"\xff\xd8\xff\xe0KATOK-CDN\xff\xd9";
const THUMB_IMAGE: &[u8] = b"\xff\xd8\xff\xe0KATOK-THUMB\xff\xd9";
const ALBUM_FULL_IMAGE: &[u8] = b"\xff\xd8\xff\xe0KATOK-ALBUM-FULL\xff\xd9";
const ALBUM_THUMB_IMAGE: &[u8] = b"\xff\xd8\xff\xe0KATOK-ALBUM-THUMB\xff\xd9";
const WRONG_CDN_IMAGE: &[u8] = b"\xff\xd8\xff\xe0KATOK-WRONG-CDN\xff\xd9";

type Aes256CbcEncryptor = cbc::Encryptor<Aes256>;

fn pkv2_image(image: &[u8], log_id: i64, iv_seed: u8) -> Vec<u8> {
    let mut plaintext = vec![b'K'; 256];
    plaintext.extend_from_slice(image);
    let key_string: String = format!("#{log_id}%").chars().rev().collect();
    let aes_key = Sha256::digest(key_string.as_bytes());
    let iv = [iv_seed; 16];
    let mut buf = vec![0_u8; plaintext.len() + 16];
    buf[..plaintext.len()].copy_from_slice(&plaintext);
    let ciphertext = Aes256CbcEncryptor::new_from_slices(&aes_key, &iv)
        .expect("aes init")
        .encrypt_padded_mut::<Pkcs7>(&mut buf, plaintext.len())
        .expect("pkcs7 encrypt")
        .to_vec();
    let mut out = b"Pkv2".to_vec();
    out.extend_from_slice(&iv);
    out.extend_from_slice(&ciphertext);
    out
}

fn quoted(url: Option<&str>) -> String {
    match url {
        Some(url) => format!("\"{url}\""),
        None => "null".to_string(),
    }
}

fn photo_row(log_id: i64, sent_at: i64, image: &[u8], url: Option<&str>) -> MediaRow {
    MediaRow {
        log_id,
        author_id: AUTHOR_ID,
        msg_type: PHOTO_MESSAGE_TYPE,
        sent_at,
        attachment: Some(format!(
            "{{\"w\":640,\"h\":480,\"cs\":\"{}\",\"url\":{}}}",
            sha1_hex_of(image),
            quoted(url)
        )),
    }
}

fn file_row(log_id: i64, sent_at: i64, name: &str, size: i64, url: Option<&str>) -> MediaRow {
    MediaRow {
        log_id,
        author_id: AUTHOR_ID,
        msg_type: FILE_MESSAGE_TYPE,
        sent_at,
        attachment: Some(format!(
            "{{\"name\":\"{name}\",\"size\":{size},\"s\":{size},\"cs\":\"{}\",\"url\":{}}}",
            sha1_hex_of(FILE_BODY).to_uppercase(),
            quoted(url)
        )),
    }
}

fn rows() -> Vec<MediaRow> {
    vec![
        photo_row(
            LOG_FULL,
            1_700_000_001,
            FULL_IMAGE,
            Some("https://cdn.example/unused.jpg?expires=1900000000"),
        ),
        photo_row(LOG_CDN, 1_700_000_002, CDN_IMAGE, Some(CDN_URL)),
        photo_row(
            LOG_THUMB_AFTER_CDN_MISMATCH,
            1_700_000_003,
            THUMB_IMAGE,
            Some(MISMATCH_URL),
        ),
        photo_row(LOG_STUB, 1_700_000_004, FULL_IMAGE, None),
        MediaRow {
            log_id: LOG_ALBUM,
            author_id: AUTHOR_ID,
            msg_type: ALBUM_MESSAGE_TYPE,
            sent_at: 1_700_000_005,
            attachment: Some(format!(
                "{{\"wl\":[320,640],\"hl\":[240,480],\"csl\":[\"{}\",\"{}\"],\"imageUrls\":[null,null]}}",
                sha1_hex_of(ALBUM_FULL_IMAGE),
                sha1_hex_of(ALBUM_THUMB_IMAGE)
            )),
        },
        file_row(
            LOG_FILE,
            1_700_000_006,
            FILE_NAME,
            FILE_BODY.len() as i64,
            Some(FILE_URL),
        ),
        file_row(
            LOG_FILE_EXPIRED,
            1_700_000_007,
            "지난달 자료.pdf",
            4096,
            Some(FILE_EXPIRED_URL),
        ),
        file_row(
            LOG_FILE_HUGE,
            1_700_000_008,
            "영상 원본.zip",
            4_000_000_000,
            Some(FILE_HUGE_URL),
        ),
    ]
}

fn read_frames(query: &MediaQuery) -> Vec<MediaFrameInput> {
    let types = query.message_types();
    unique_frames(
        rows()
            .iter()
            .filter(|row| types.contains(&row.msg_type))
            .filter(|row| query.log_id.is_none() || query.log_id == Some(row.log_id))
            .flat_map(frame_inputs)
            .collect(),
    )
}

fn query_of(log_id: Option<i64>, kinds: &[MediaKind]) -> MediaQuery {
    MediaQuery {
        kinds: kinds.to_vec(),
        ..MediaQuery::new(1, log_id, 100)
    }
}

fn fixture_disk() -> Disk {
    Disk::new()
        .cached(
            photo_full_stem(LOG_FULL),
            ".img",
            &pkv2_image(FULL_IMAGE, LOG_FULL, 1),
        )
        .cached(
            photo_thumb_stem(LOG_THUMB_AFTER_CDN_MISMATCH),
            ".thm",
            &pkv2_image(THUMB_IMAGE, LOG_THUMB_AFTER_CDN_MISMATCH, 2),
        )
        .cached(
            album_full_stem(LOG_ALBUM, 0),
            ".img",
            &pkv2_image(ALBUM_FULL_IMAGE, LOG_ALBUM, 3),
        )
        .cached(
            album_thumb_stem(LOG_ALBUM, 1),
            ".thm",
            &pkv2_image(ALBUM_THUMB_IMAGE, LOG_ALBUM, 4),
        )
}

fn record(report: &MediaReport, log_id: i64, idx: usize) -> &MediaRecord {
    report
        .records
        .iter()
        .find(|record| record.log_id == log_id && record.idx == idx)
        .expect("a record for the frame")
}

fn file_name(path: &str) -> &str {
    path.rsplit('/').next().expect("a name")
}

#[test]
fn synthetic_db_media_pipeline_resolves_full_cdn_thumb_stub_and_album_frames() {
    let disk = fixture_disk();
    let frames = read_frames(&query_of(None, &[MediaKind::Photo]));

    assert_eq!(frames.len(), 6);
    assert!(frames
        .iter()
        .any(|frame| frame.log_id == LOG_ALBUM && frame.idx == 1 && frame.width == Some(640)));

    let fetch_calls = Cell::new(0);
    let report = disk.resolve(&frames, &options(), |url, timeout, _| {
        fetch_calls.set(fetch_calls.get() + 1);
        assert_eq!(timeout, 20);
        match url {
            CDN_URL => Ok(CDN_IMAGE.to_vec()),
            MISMATCH_URL => Ok(WRONG_CDN_IMAGE.to_vec()),
            other => panic!("unexpected CDN url {other}"),
        }
    });

    assert_eq!(fetch_calls.get(), 2);
    assert_eq!(report.tier_counts.get("full"), Some(2));
    assert_eq!(report.tier_counts.get("cdn"), Some(1));
    assert_eq!(report.tier_counts.get("thumb"), Some(2));
    assert_eq!(report.tier_counts.get("stub"), Some(1));

    let full = record(&report, LOG_FULL, 0);
    assert_eq!(full.tier, MediaTier::Full);
    assert_eq!(full.tier_reason, "decrypted");
    assert_eq!(full.sha1.as_deref(), Some(sha1_hex_of(FULL_IMAGE).as_str()));
    assert_eq!(disk.body(full.path.as_ref().expect("full path")), FULL_IMAGE);

    let cdn = record(&report, LOG_CDN, 0);
    assert_eq!(cdn.tier, MediaTier::Cdn);
    assert_eq!(cdn.tier_reason, "full-not-cached+cdn-fetched");
    assert_eq!(cdn.sha1.as_deref(), Some(sha1_hex_of(CDN_IMAGE).as_str()));
    assert_eq!(disk.body(cdn.path.as_ref().expect("cdn path")), CDN_IMAGE);

    let thumb = record(&report, LOG_THUMB_AFTER_CDN_MISMATCH, 0);
    assert_eq!(thumb.tier, MediaTier::Thumb);
    assert_eq!(thumb.tier_reason, "full-not-cached+cdn-failed");
    assert_eq!(thumb.sha1.as_deref(), Some(sha1_hex_of(THUMB_IMAGE).as_str()));
    assert_eq!(disk.body(thumb.path.as_ref().expect("thumb path")), THUMB_IMAGE);

    let stub = record(&report, LOG_STUB, 0);
    assert_eq!(stub.tier, MediaTier::Stub);
    assert_eq!(stub.tier_reason, "not-cached");
    assert_eq!(stub.path, None);
    assert_eq!(stub.sha1, None);

    let album_full = record(&report, LOG_ALBUM, 0);
    assert_eq!(album_full.tier, MediaTier::Full);
    assert_eq!(
        album_full.sha1.as_deref(),
        Some(sha1_hex_of(ALBUM_FULL_IMAGE).as_str())
    );
    assert_eq!(
        file_name(album_full.path.as_ref().expect("path")),
        "10005_0.jpg"
    );

    let album_thumb = record(&report, LOG_ALBUM, 1);
    assert_eq!(album_thumb.tier, MediaTier::Thumb);
    assert_eq!(album_thumb.tier_reason, "full-not-cached");
    assert_eq!(
        file_name(album_thumb.path.as_ref().expect("path")),
        "10005_1_thumb.jpg"
    );
    assert_eq!(
        album_thumb.sha1.as_deref(),
        Some(sha1_hex_of(ALBUM_THUMB_IMAGE).as_str())
    );

    assert_eq!(report.errors.len(), 1);
    assert_eq!(report.errors[0].stage, "cdn");
    assert_eq!(report.errors[0].log_id, LOG_THUMB_AFTER_CDN_MISMATCH);
    assert_eq!(report.errors[0].path, "https://cdn.example/mismatch.jpg");
    assert!(report.errors[0].error.contains("cdn body sha1 != cs"));
}

#[test]
fn synthetic_db_no_cdn_mode_is_pure_local_and_degrades_to_stub() {
    let frames = read_frames(&MediaQuery::new(1, Some(LOG_CDN), 100));
    assert_eq!(frames.len(), 1);

    let mut options = MediaResolveOptions::no_cdn("/out".to_string());
    options.now_epoch = 1_700_000_000;
    let fetch_calls = Cell::new(0);
    let report = fixture_disk().resolve(&frames, &options, |_, _, _| {
        fetch_calls.set(fetch_calls.get() + 1);
        Ok(Vec::new())
    });

    assert_eq!(fetch_calls.get(), 0);
    assert!(report.errors.is_empty());
    assert_eq!(report.tier_counts.get("stub"), Some(1));
    let cdn_disabled = record(&report, LOG_CDN, 0);
    assert_eq!(cdn_disabled.tier, MediaTier::Stub);
    assert_eq!(cdn_disabled.tier_reason, "not-cached");
    assert_eq!(cdn_disabled.path, None);
}

#[test]
fn default_query_reads_every_kind_including_files() {
    let frames = read_frames(&MediaQuery::new(1, None, 100));

    assert_eq!(frames.len(), 9);
    assert_eq!(
        frames
            .iter()
            .filter(|frame| frame.kind == MediaKind::File)
            .count(),
        3
    );
}

#[test]
fn file_attachment_downloads_from_cdn_under_its_original_name() {
    let disk = fixture_disk();
    let frames = read_frames(&query_of(Some(LOG_FILE), &[MediaKind::File]));
    assert_eq!(frames.len(), 1);
    assert_eq!(frames[0].kind, MediaKind::File);
    assert_eq!(frames[0].filename.as_deref(), Some(FILE_NAME));
    assert_eq!(frames[0].size_bytes, Some(FILE_BODY.len() as i64));

    let report = disk.resolve(&frames, &options(), |url, _, max_bytes| {
        assert_eq!(url, FILE_URL);
        assert_eq!(max_bytes, 512 * 1024 * 1024);
        Ok(FILE_BODY.to_vec())
    });

    let file = record(&report, LOG_FILE, 0);
    assert_eq!(file.tier, MediaTier::Cdn);
    assert_eq!(file.tier_reason, "cdn-fetched");
    assert_eq!(file.kind, MediaKind::File);
    assert_eq!(file.name.as_deref(), Some(FILE_NAME));
    assert_eq!(file.sha1.as_deref(), Some(sha1_hex_of(FILE_BODY).as_str()));

    let path = file.path.as_ref().expect("file path");
    assert_eq!(file_name(path), format!("{LOG_FILE}_{FILE_NAME}"));
    assert_eq!(disk.body(path), FILE_BODY);
}

#[test]
fn expired_file_link_is_reported_as_unavailable_without_fetching() {
    let frames = read_frames(&query_of(Some(LOG_FILE_EXPIRED), &[MediaKind::File]));

    let report = fixture_disk().resolve(&frames, &options(), |_, _, _| {
        panic!("an expired signature must not be fetched")
    });

    let expired = record(&report, LOG_FILE_EXPIRED, 0);
    assert_eq!(expired.tier, MediaTier::Stub);
    assert_eq!(expired.tier_reason, "unavailable+cdn-expired");
    assert_eq!(expired.path, None);
}

#[test]
fn oversized_attachment_is_refused_before_any_request() {
    let frames = read_frames(&query_of(Some(LOG_FILE_HUGE), &[MediaKind::File]));

    let report = fixture_disk().resolve(&frames, &options(), |_, _, _| {
        panic!("an oversized attachment must not be fetched")
    });

    let huge = record(&report, LOG_FILE_HUGE, 0);
    assert_eq!(huge.tier, MediaTier::Stub);
    assert_eq!(huge.tier_reason, "unavailable+cdn-too-large");
    assert_eq!(report.errors.len(), 1);
    assert!(report.errors[0].error.contains("above the"));
    assert_eq!(report.errors[0].path, "https://cdn.example/f_huge.zip");
}

#[test]
fn rerun_skips_an_already_saved_file_without_touching_the_network() {
    let disk = fixture_disk();
    let frames = read_frames(&query_of(Some(LOG_FILE), &[MediaKind::File]));
    let options = MediaResolveOptions {
        skip_existing: true,
        ..options()
    };

    let first = disk.resolve(&frames, &options, |_, _, _| Ok(FILE_BODY.to_vec()));
    assert_eq!(record(&first, LOG_FILE, 0).tier, MediaTier::Cdn);

    let second = disk.resolve(&frames, &options, |_, _, _| {
        panic!("a saved attachment must not be fetched again")
    });

    let skipped = record(&second, LOG_FILE, 0);
    assert_eq!(skipped.tier, MediaTier::Existing);
    assert_eq!(skipped.tier_reason, "already-present");
    assert_eq!(
        disk.body(skipped.path.as_ref().expect("kept path")),
        FILE_BODY
    );
}

#[test]
fn dry_run_previews_the_fetch_without_writing_or_requesting() {
    let disk = fixture_disk();
    let frames = read_frames(&query_of(None, &[MediaKind::File]));
    let options = MediaResolveOptions {
        skip_existing: true,
        dry_run: true,
        ..options()
    };

    let report = disk.resolve(&frames, &options, |_, _, _| {
        panic!("a dry run must not fetch")
    });

    assert_eq!(record(&report, LOG_FILE, 0).tier, MediaTier::Planned);
    assert_eq!(record(&report, LOG_FILE, 0).tier_reason, "cdn-would-fetch");
    assert_eq!(record(&report, LOG_FILE_EXPIRED, 0).tier, MediaTier::Stub);
    assert_eq!(record(&report, LOG_FILE_HUGE, 0).tier, MediaTier::Stub);
    assert!(disk.written.borrow().is_empty(), "a dry run writes nothing");
}

#[test]
fn a_cached_photo_is_found_again_under_its_sniffed_name() {
    let disk = fixture_disk();
    let frames = read_frames(&query_of(Some(LOG_FULL), &[MediaKind::Photo]));
    let options = MediaResolveOptions {
        skip_existing: true,
        ..options()
    };
    let first = disk.resolve(&frames, &options, |_, _, _| panic!("cached"));
    assert_eq!(record(&first, LOG_FULL, 0).tier, MediaTier::Full);
    let second = disk.resolve(&frames, &options, |_, _, _| panic!("saved"));
    assert_eq!(record(&second, LOG_FULL, 0).tier, MediaTier::Existing);
    assert_eq!(
        record(&second, LOG_FULL, 0).path,
        record(&first, LOG_FULL, 0).path
    );
    assert!(output_candidates(&frames[0], "/out")
        .contains(record(&first, LOG_FULL, 0).path.as_ref().expect("path")));
}

// ---------------------------------------------------------------------------
// File names and bodies
// ---------------------------------------------------------------------------

#[test]
fn sanitized_filename_cannot_escape_the_output_directory() {
    assert_eq!(sanitize_filename("a/b.zip"), "a_b.zip");
    assert_eq!(sanitize_filename("C:\\win\\x.pdf"), "C__win_x.pdf");
    for hostile in ["../../etc/passwd", "../x.zip", "/abs/path.pdf", ".hidden"] {
        let out = sanitize_filename(hostile);
        assert!(
            !out.contains('/') && !out.contains('\\') && !out.starts_with('.'),
            "{hostile} sanitized to {out}"
        );
    }
}

#[test]
fn sanitized_filename_strips_bidi_override_that_disguises_an_extension() {
    let disguised = "invoice\u{202e}gpj.exe";
    let out = sanitize_filename(disguised);
    assert!(!out.contains('\u{202e}'), "bidi override survived: {out:?}");
    assert!(
        out.ends_with(".exe"),
        "real extension must stay visible: {out}"
    );
}

#[test]
fn sanitized_filename_strips_invisible_characters() {
    for hidden in ['\u{200B}', '\u{200D}', '\u{FEFF}', '\u{2060}', '\u{00AD}'] {
        let out = sanitize_filename(&format!("re{hidden}port.pdf"));
        assert_eq!(out, "report.pdf", "{hidden:?} survived");
    }
}

#[test]
fn sanitized_filename_is_normalized_to_nfc() {
    let decomposed = "\u{1112}\u{1161}\u{11ab}\u{1100}\u{1173}\u{11af}.pdf";
    let out = sanitize_filename(decomposed);
    assert_eq!(out, "한글.pdf");
    assert_eq!(out, sanitize_filename("한글.pdf"));
}

#[test]
fn a_kept_name_is_normalized_without_what_cannot_be_seen() {
    assert_eq!(sanitize_filename("e\u{200B}\u{301}.pdf"), "\u{E9}.pdf");
    assert_eq!(sanitize_filename("e\u{301}.pdf"), "\u{E9}.pdf");
}

#[test]
fn a_kept_name_never_starts_with_a_dot() {
    assert_eq!(sanitize_filename(". .."), "attachment");
    assert_eq!(sanitize_filename(" . . .x.zip "), "x.zip");
    assert_eq!(sanitize_normalized(".\u{3000}..a"), "a");
}

#[test]
fn sanitized_filename_collapses_exotic_spaces() {
    assert_eq!(sanitize_filename("a\u{00A0}b\u{3000}c.pdf"), "a b c.pdf");
}

#[test]
fn sanitized_filename_keeps_the_extension_and_unicode() {
    assert_eq!(sanitize_filename("분기 보고서.zip"), "분기 보고서.zip");
    assert_eq!(sanitize_filename("report.tar.gz"), "report.tar.gz");
    assert_eq!(sanitize_filename("bad\nname.pdf"), "bad_name.pdf");
}

#[test]
fn sanitized_filename_degrades_loudly_rather_than_producing_an_empty_name() {
    assert_eq!(sanitize_filename(""), "attachment");
    assert_eq!(sanitize_filename("   "), "attachment");
    assert_eq!(sanitize_filename("..."), "attachment");
}

#[test]
fn sanitized_filename_truncates_a_long_stem_but_keeps_the_extension() {
    let long = format!("{}.zip", "가".repeat(200));
    let out = sanitize_filename(&long);
    assert!(out.ends_with(".zip"));
    assert!(out.len() <= 120 + ".zip".len());
}

#[test]
fn a_long_stem_is_cut_at_a_character() {
    let long = format!("{}.zip", "가".repeat(200));
    assert_eq!(sanitize_filename(&long), format!("{}.zip", "가".repeat(40)));
    assert_eq!(sanitize_normalized("a\u{0301}.txt"), "a\u{0301}.txt");
    assert_eq!(sanitize_filename("a\u{0301}.txt"), "\u{e1}.txt");
}

#[test]
fn sniffs_mp4_and_webm_bodies() {
    let mp4 = b"\x00\x00\x00\x20ftypisom\x00\x00\x02\x00";
    assert_eq!(image_ext(mp4), ".mp4");
    assert_eq!(image_ext(&[0x1a, 0x45, 0xdf, 0xa3, 0, 0, 0, 0]), ".webm");
    assert_eq!(image_ext(b"\xff\xd8\xffrest"), ".jpg");
    assert_eq!(image_ext(b"nonsense-body"), ".bin");
}

#[test]
fn an_address_tells_when_it_expires_and_is_shown_without_its_query() {
    assert_eq!(url_expires("https://h/p?a=1&expires=42&expires=43"), Some(42));
    assert_eq!(url_expires("https://h/p"), None);
    assert_eq!(url_expires("https://h/p?expires=soon"), None);
    assert_eq!(redact_url("https://h/p?token=1?x"), "https://h/p");
    assert_eq!(redact_url("https://h/p"), "https://h/p");
}

#[test]
fn a_fingerprint_is_compared_without_regard_to_case() {
    assert!(verify_cdn_checksum(b"abc", "A9993E364706816ABA3E25717850C26C9CD0D89D").is_ok());
    assert!(verify_cdn_checksum(b"abd", "a9993e364706816aba3e25717850c26c9cd0d89d").is_err());
    assert!(check_fingerprint("aa", "AA").is_ok());
    assert!(check_fingerprint("aa", "ab")
        .expect_err("they differ")
        .contains("cdn body sha1 != cs"));
}

#[test]
fn kinds_are_named_and_parsed() {
    for kind in MediaKind::all() {
        assert_eq!(MediaKind::parse(kind.as_str()), Ok(kind));
    }
    assert_eq!(MediaKind::parse(" IMAGE "), Ok(MediaKind::Photo));
    assert_eq!(
        MediaKind::parse("Sound"),
        Err("unknown media kind 'sound'; use photo, video, or file".to_string())
    );
    assert!(MediaKind::Photo.has_local_cache());
    assert!(!MediaKind::File.has_local_cache());
    assert_eq!(MediaTier::Existing.as_str(), "existing");
}

#[test]
fn the_clock_is_read_once_for_a_run() {
    let options = MediaResolveOptions::new("/out".to_string());
    assert!(options.now_epoch > 1_600_000_000);
    assert_eq!(epoch_seconds(Some(1_700_000_000)), 1_700_000_000);
    assert_eq!(epoch_seconds(None), 0);
    assert!(options.cdn_enabled);
    assert_eq!(options.cdn_timeout_secs, 20);
    assert_eq!(options.max_fetch_bytes, 512 * 1024 * 1024);
    assert!(!options.skip_existing && !options.dry_run);
}
