use katok::text::path::staging_name;
use katok::digest::{sha1_hex_of, sha256_hex_of};
use katok::text::number::{decimal_i64, parse_i64, upper_hex_u32};
use katok::text::order::{sort_distinct, sort_strings, text_le, text_lt};
use katok::text::path::{extension_of, file_name_of};
use katok::text::split::{after_prefix, join_strings, split_chars, text_contains};
use katok::text::{ascii_lowercase, chars_of, is_control, is_white_space, utf8_width_of};

#[test]
fn character_classes_are_those_of_unicode() {
    for u in 0..=0x10ffff_u32 {
        if let Some(c) = char::from_u32(u) {
            assert_eq!(is_white_space(c), c.is_whitespace(), "{u:x}");
            assert_eq!(is_control(c), c.is_control(), "{u:x}");
            assert_eq!(utf8_width_of(c), c.len_utf8(), "{u:x}");
        }
    }
}

#[test]
fn numbers_are_written_and_read_as_the_standard_library_does() {
    for n in [0, 7, 10, -1, 4096, i64::MAX, i64::MIN] {
        assert_eq!(decimal_i64(n), n.to_string());
        assert_eq!(parse_i64(&n.to_string()), Some(n));
    }
    for text in ["", "-", "+", "+5", "-0", "05", " 5", "5 ", "9223372036854775808", "1a"] {
        assert_eq!(parse_i64(text), text.parse::<i64>().ok(), "{text:?}");
    }
    for (n, width) in [(0, 4), (0xab, 4), (0x10ffff, 4), (0xabcd, 0), (5, 0)] {
        assert_eq!(
            upper_hex_u32(n, width),
            format!("{n:0width$X}", width = width as usize)
        );
    }
}

#[test]
fn texts_are_ordered_as_their_bytes_are() {
    let texts = ["", "a", "ab", "b", "\u{7f}", "\u{80}", "가", "\u{ffff}", "\u{10000}"];
    for a in texts {
        for b in texts {
            assert_eq!(text_le(a, b), a <= b, "{a:?} {b:?}");
            assert_eq!(text_lt(a, b), a < b, "{a:?} {b:?}");
        }
    }
    let words = || ["나", "b", "가", "b"].map(String::from).to_vec();
    assert_eq!(sort_strings(words()), vec!["b", "b", "가", "나"]);
    assert_eq!(sort_distinct(words()), vec!["b", "가", "나"]);
}

#[test]
fn texts_are_split_joined_and_searched() {
    let parts = split_chars(&chars_of(",a,,b"), ',');
    let parts: Vec<String> = parts.iter().map(|p| p.iter().collect()).collect();
    assert_eq!(parts, ",a,,b".split(',').collect::<Vec<_>>());
    assert_eq!(join_strings(&parts, "-"), parts.join("-"));
    assert!(text_contains("보고서", "고서"));
    assert!(text_contains("보고서", ""));
    assert!(!text_contains("보고서", "서보"));
    assert_eq!(after_prefix("chat:7", "chat:"), Some("7".to_string()));
    assert_eq!(after_prefix("chat:7", "room:"), None);
    assert_eq!(ascii_lowercase("ÄBc"), "Äbc");
}

#[test]
fn names_in_paths_are_those_of_the_standard_library() {
    for path in [
        "", "/", ".", "..", "a", "a/b.png", "a/b.png/", "a/./", "a/..", "/x/.hidden", "x.tar.gz",
        "dir/name.", "./.", "//a//b//", "a/b/.", ".a.b", "사진/그림.JPG",
    ] {
        let std_path = std::path::Path::new(path);
        assert_eq!(
            file_name_of(path).as_deref(),
            std_path.file_name().and_then(|n| n.to_str()),
            "{path:?}"
        );
        assert_eq!(
            extension_of(path).as_deref(),
            std_path.extension().and_then(|n| n.to_str()),
            "{path:?}"
        );
    }
}

#[test]
fn digests_are_written_in_hexadecimal() {
    assert_eq!(
        sha256_hex_of(b"abc"),
        "ba7816bf8f01cfea414140de5dae2223b00361a396177a9cb410ff61f20015ad"
    );
    assert_eq!(
        sha1_hex_of(b"abc"),
        "a9993e364706816aba3e25717850c26c9cd0d89d"
    );
}

#[test]
fn a_file_is_staged_under_a_name_of_its_own() {
    assert_eq!(
        staging_name("/out/사진.jpg", "media", 7, u128::MAX),
        ".사진.jpg.tmp-7-340282366920938463463374607431768211455"
    );
    assert_eq!(staging_name("..", "transcript", 0, 0), ".transcript.tmp-0-0");
    assert_ne!(staging_name("a", "f", 1, 2), staging_name("a", "f", 1, 3));
}
