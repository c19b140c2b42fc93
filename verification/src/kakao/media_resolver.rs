//! Resolving a frame through its tiers: an output that is there already, the
//! full copy in the cache, the CDN, the thumbnail, and at last a stub.
//!
//! This module holds the options, the names of output files, what an address
//! says, and the check of a fetched body; [`ladder`] decides between the tiers.

use crate::digest::{sha1_hex, sha1_hex_of};
use crate::kakao::filename::{sanitize_filename, sanitized};
use crate::kakao::media::MediaFrameInput;
use crate::text::number::{parse_i64, parsed_int};
use crate::text::split::{
    after_prefix, contains_text, first_at, first_index, law_a_text_holds_its_middle,
    law_splitting_adds_up, split_chars, split_on, starts_with, views,
};
use crate::text::trim::copy_range;
use crate::text::{
    ascii_lower_seq, ascii_lowercase, chars_of, law_lowering_changes_only_capitals, owned, same,
    string_of,
};
use std::time::{Duration, SystemTime, UNIX_EPOCH};
use vstd::prelude::*;

pub mod ladder;

verus! {

/// Seconds that a CDN request may take.
pub const DEFAULT_CDN_TIMEOUT_SECS: u64 = 20;

/// Bytes that a CDN body may have.
pub const DEFAULT_MAX_FETCH_BYTES: u64 = 536870912;

/// How frames are resolved.
#[derive(Debug, Clone)]
pub struct MediaResolveOptions {
    /// The directory that outputs go to.
    pub output_dir: String,
    pub cdn_enabled: bool,
    pub cdn_timeout_secs: u64,
    /// The time, in seconds since the Unix epoch, that signatures are held against.
    pub now_epoch: i64,
    /// A body that declares more bytes than this is not fetched.
    pub max_fetch_bytes: u64,
    /// A frame whose output is there already is left alone.
    pub skip_existing: bool,
    /// Nothing is requested and nothing is written.
    pub dry_run: bool,
}

/// A moment on the clock of the system; nothing is seen inside it.
#[verifier::external_type_specification]
#[verifier::external_body]
pub struct ExSystemTime(std::time::SystemTime);

/// `std::time::SystemTime::now`: the moment depends on the clock, so nothing is promised of it.
#[verifier::external_body]
fn system_now() -> (now: SystemTime) {
    SystemTime::now()
}

/// `std::time::SystemTime::duration_since` of the Unix epoch; nothing where it
/// fails, as it does for a moment before the epoch. What a moment is cannot be
/// stated, so nothing is promised of how long it is.
#[verifier::external_body]
fn since_epoch(now: SystemTime) -> (since: Option<Duration>) {
    now.duration_since(UNIX_EPOCH).ok()
}

/// `std::time::Duration::as_secs`: the whole seconds of a span of time. What a
/// span is cannot be stated, so nothing is promised of them.
#[verifier::external_body]
fn whole_seconds(since: Duration) -> (seconds: u64) {
    since.as_secs()
}

/// The time that signatures are held against, from the seconds since the Unix
/// epoch; zero where the clock stands before it.
pub fn epoch_seconds(since: Option<u64>) -> (seconds: i64)
    ensures
        seconds == match since {
            Some(whole) => whole as i64,
            None => 0i64,
        },
{
    match since {
        Some(whole) => whole as i64,
        None => 0,
    }
}

/// The current time, in seconds since the Unix epoch.
fn unix_now_epoch() -> (seconds: i64) {
    let since: Option<u64> = match since_epoch(system_now()) {
        Some(span) => Some(whole_seconds(span)),
        None => None,
    };
    epoch_seconds(since)
}

/// Whether `options` are the usual ones but for the time and the CDN switch.
pub open spec fn usual_options(
    options: MediaResolveOptions,
    output_dir: String,
    cdn_enabled: bool,
) -> bool {
    &&& options.output_dir == output_dir
    &&& options.cdn_enabled == cdn_enabled
    &&& options.cdn_timeout_secs == DEFAULT_CDN_TIMEOUT_SECS
    &&& options.max_fetch_bytes == DEFAULT_MAX_FETCH_BYTES
    &&& !options.skip_existing
    &&& !options.dry_run
}

impl MediaResolveOptions {
    /// The usual options, with signatures held against the current time.
    pub fn new(output_dir: String) -> (options: MediaResolveOptions)
        ensures
            usual_options(options, output_dir, true),
    {
        MediaResolveOptions::at(output_dir, unix_now_epoch())
    }

    /// The usual options, with signatures held against `now_epoch`.
    pub fn at(output_dir: String, now_epoch: i64) -> (options: MediaResolveOptions)
        ensures
            usual_options(options, output_dir, true),
            options.now_epoch == now_epoch,
    {
        MediaResolveOptions {
            output_dir,
            cdn_enabled: true,
            cdn_timeout_secs: DEFAULT_CDN_TIMEOUT_SECS,
            now_epoch,
            max_fetch_bytes: DEFAULT_MAX_FETCH_BYTES,
            skip_existing: false,
            dry_run: false,
        }
    }

    /// The usual options without the CDN.
    pub fn no_cdn(output_dir: String) -> (options: MediaResolveOptions)
        ensures
            usual_options(options, output_dir, false),
    {
        let mut options = MediaResolveOptions::new(output_dir);
        options.cdn_enabled = false;
        options
    }
}

// ---------------------------------------------------------------------------
// Names and addresses
// ---------------------------------------------------------------------------

/// Whether `body` holds `bytes` at `at`.
pub open spec fn bytes_at(body: Seq<u8>, at: int, bytes: Seq<u8>) -> bool {
    at + bytes.len() <= body.len() && body.subrange(at, at + bytes.len()) == bytes
}

/// Exec form of [`bytes_at`].
fn has_bytes_at(body: &[u8], at: usize, bytes: &[u8]) -> (r: bool)
    ensures
        r == bytes_at(body@, at as int, bytes@),
{
    let total: usize = body.len();
    if at > total || total - at < bytes.len() {
        return false;
    }
    for i in 0..bytes.len()
        invariant
            at + bytes@.len() <= total == body@.len(),
            forall|k: int| 0 <= k < i ==> body@[at + k] == bytes@[k],
    {
        if body[at + i] != bytes[i] {
            proof {
                assert(body@.subrange(at as int, at + bytes@.len())[i as int] != bytes@[i as int]);
            }
            return false;
        }
    }
    proof {
        assert(body@.subrange(at as int, at + bytes@.len()) =~= bytes@);
    }
    true
}

/// The extension that a body's first bytes call for.
pub open spec fn sniffed_ext(body: Seq<u8>) -> Seq<char> {
    if bytes_at(body, 0, seq![0xffu8, 0xd8, 0xff]) {
        ".jpg"@
    } else if bytes_at(body, 0, seq![0x89u8, 0x50, 0x4e, 0x47, 0x0d, 0x0a, 0x1a, 0x0a]) {
        ".png"@
    } else if bytes_at(body, 0, seq![0x47u8, 0x49, 0x46, 0x38, 0x37, 0x61]) || bytes_at(
        body,
        0,
        seq![0x47u8, 0x49, 0x46, 0x38, 0x39, 0x61],
    ) {
        ".gif"@
    } else if bytes_at(body, 0, seq![0x52u8, 0x49, 0x46, 0x46]) && bytes_at(
        body,
        8,
        seq![0x57u8, 0x45, 0x42, 0x50],
    ) {
        ".webp"@
    } else if body.len() >= 12 && bytes_at(body, 4, seq![0x66u8, 0x74, 0x79, 0x70]) {
        ".mp4"@
    } else if bytes_at(body, 0, seq![0x1au8, 0x45, 0xdf, 0xa3]) {
        ".webm"@
    } else {
        ".bin"@
    }
}

/// Sniffs the extension of a decoded body.
pub fn image_ext(body: &[u8]) -> (ext: &'static str)
    ensures
        ext@ == sniffed_ext(body@),
{
    let jpg: [u8; 3] = [0xff, 0xd8, 0xff];
    let png: [u8; 8] = [0x89, 0x50, 0x4e, 0x47, 0x0d, 0x0a, 0x1a, 0x0a];
    let gif87: [u8; 6] = [0x47, 0x49, 0x46, 0x38, 0x37, 0x61];
    let gif89: [u8; 6] = [0x47, 0x49, 0x46, 0x38, 0x39, 0x61];
    let riff: [u8; 4] = [0x52, 0x49, 0x46, 0x46];
    let webp: [u8; 4] = [0x57, 0x45, 0x42, 0x50];
    let ftyp: [u8; 4] = [0x66, 0x74, 0x79, 0x70];
    let ebml: [u8; 4] = [0x1a, 0x45, 0xdf, 0xa3];
    proof {
        assert(jpg@ =~= seq![0xffu8, 0xd8, 0xff]);
        assert(png@ =~= seq![0x89u8, 0x50, 0x4e, 0x47, 0x0d, 0x0a, 0x1a, 0x0a]);
        assert(gif87@ =~= seq![0x47u8, 0x49, 0x46, 0x38, 0x37, 0x61]);
        assert(gif89@ =~= seq![0x47u8, 0x49, 0x46, 0x38, 0x39, 0x61]);
        assert(riff@ =~= seq![0x52u8, 0x49, 0x46, 0x46]);
        assert(webp@ =~= seq![0x57u8, 0x45, 0x42, 0x50]);
        assert(ftyp@ =~= seq![0x66u8, 0x74, 0x79, 0x70]);
        assert(ebml@ =~= seq![0x1au8, 0x45, 0xdf, 0xa3]);
    }
    if has_bytes_at(body, 0, &jpg) {
        ".jpg"
    } else if has_bytes_at(body, 0, &png) {
        ".png"
    } else if has_bytes_at(body, 0, &gif87) || has_bytes_at(body, 0, &gif89) {
        ".gif"
    } else if has_bytes_at(body, 0, &riff) && has_bytes_at(body, 8, &webp) {
        ".webp"
    } else if body.len() >= 12 && has_bytes_at(body, 4, &ftyp) {
        ".mp4"
    } else if has_bytes_at(body, 0, &ebml) {
        ".webm"
    } else {
        ".bin"
    }
}

/// The path of `name` in the directory `dir`, as `std::path::Path::join` forms it on Unix.
pub open spec fn joined(dir: Seq<char>, name: Seq<char>) -> Seq<char> {
    if name.len() > 0 && name[0] == '/' {
        name
    } else if dir.len() == 0 || dir.last() == '/' {
        dir + name
    } else {
        dir.push('/') + name
    }
}

/// The path of `name` in the directory `dir`.
pub fn join_path(dir: &str, name: &str) -> (path: String)
    ensures
        path@ == joined(dir@, name@),
{
    let d = chars_of(dir);
    let n = chars_of(name);
    if n.len() > 0 && n[0] == '/' {
        return owned(name);
    }
    let mut path = owned(dir);
    if d.len() > 0 && d[d.len() - 1] != '/' {
        path.push('/');
    }
    path.append(name);
    path
}

/// The output name of a frame that has a file name of its own.
pub open spec fn known_name(frame: MediaFrameInput) -> Option<Seq<char>> {
    match frame.filename {
        Some(name) => Some(frame.output_stem@ + "_"@ + sanitized(name@)),
        None => None,
    }
}

/// The output name of a frame that has a file name of its own.
pub fn known_output_name(frame: &MediaFrameInput) -> (r: Option<String>)
    ensures
        match r {
            Some(name) => known_name(*frame) == Some(name@),
            None => known_name(*frame) is None,
        },
{
    match &frame.filename {
        Some(name) => {
            let safe = sanitize_filename(name.as_str());
            let mut out = frame.output_stem.clone();
            out.append("_");
            out.append(safe.as_str());
            Some(out)
        },
        None => None,
    }
}

/// The extensions that a sniffed body can get.
pub open spec fn sniffed_exts() -> Seq<Seq<char>> {
    seq![".jpg"@, ".png"@, ".gif"@, ".webp"@, ".mp4"@, ".webm"@, ".bin"@]
}

/// The output files that a frame can have, most likely first.
pub open spec fn candidate_paths(frame: MediaFrameInput, output_dir: Seq<char>) -> Seq<Seq<char>> {
    match known_name(frame) {
        Some(name) => seq![joined(output_dir, name)],
        None => sniffed_exts().map_values(
            |ext: Seq<char>| joined(output_dir, frame.output_stem@ + ext),
        ),
    }
}

/// One of the extensions that a sniffed body can get.
fn push_candidate(paths: &mut Vec<String>, frame: &MediaFrameInput, output_dir: &str, ext: &str)
    ensures
        views(final(paths)@) == views(old(paths)@).push(
            joined(output_dir@, frame.output_stem@ + ext@),
        ),
{
    let name = frame.output_stem.clone().concat(ext);
    let path = join_path(output_dir, name.as_str());
    paths.push(path);
}

/// Exec form of [`candidate_paths`].
pub fn output_candidates(frame: &MediaFrameInput, output_dir: &str) -> (paths: Vec<String>)
    ensures
        views(paths@) == candidate_paths(*frame, output_dir@),
{
    let mut paths: Vec<String> = Vec::new();
    match known_output_name(frame) {
        Some(name) => {
            paths.push(join_path(output_dir, name.as_str()));
            proof {
                assert(views(paths@) =~= seq![joined(output_dir@, name@)]);
            }
        },
        None => {
            push_candidate(&mut paths, frame, output_dir, ".jpg");
            push_candidate(&mut paths, frame, output_dir, ".png");
            push_candidate(&mut paths, frame, output_dir, ".gif");
            push_candidate(&mut paths, frame, output_dir, ".webp");
            push_candidate(&mut paths, frame, output_dir, ".mp4");
            push_candidate(&mut paths, frame, output_dir, ".webm");
            push_candidate(&mut paths, frame, output_dir, ".bin");
            proof {
                assert(views(paths@) =~= candidate_paths(*frame, output_dir@));
            }
        },
    }
    paths
}

/// Whatever a body is, its sniffed output is among the candidates of its frame.
pub proof fn law_sniffed_output_is_a_candidate(
    frame: MediaFrameInput,
    output_dir: Seq<char>,
    body: Seq<u8>,
)
    ensures
        known_name(frame) is None ==> candidate_paths(frame, output_dir).contains(
            joined(output_dir, frame.output_stem@ + sniffed_ext(body)),
        ),
{
    if known_name(frame) is None {
        let exts = sniffed_exts();
        assert(exts.contains(sniffed_ext(body))) by {
            assert(exts[0] == ".jpg"@ && exts[1] == ".png"@ && exts[2] == ".gif"@ && exts[3]
                == ".webp"@ && exts[4] == ".mp4"@ && exts[5] == ".webm"@ && exts[6] == ".bin"@);
        }
        let i = choose|i: int| 0 <= i < exts.len() && exts[i] == sniffed_ext(body);
        assert(candidate_paths(frame, output_dir)[i] == joined(
            output_dir,
            frame.output_stem@ + sniffed_ext(body),
        ));
    }
}

/// `c` with `&` written as `?`, so that both separate the parts of an address.
pub open spec fn query_mark(c: char) -> char {
    if c == '&' {
        '?'
    } else {
        c
    }
}

/// The parts of an address between `?` and `&`.
pub open spec fn url_parts(url: Seq<char>) -> Seq<Seq<char>> {
    split_on(url.map_values(|c: char| query_mark(c)), '?')
}

/// The number behind `expires=`.
pub open spec fn expires_part(part: Seq<char>) -> Option<int> {
    if starts_with(part, "expires="@) {
        parsed_int(part.skip("expires="@.len() as int), true, i64::MIN as int, i64::MAX as int)
    } else {
        None
    }
}

/// The first number behind `expires=` among the parts.
pub open spec fn first_expires(parts: Seq<Seq<char>>) -> Option<int>
    decreases parts.len(),
{
    if parts.len() == 0 {
        None
    } else if expires_part(parts[0]) is Some {
        expires_part(parts[0])
    } else {
        first_expires(parts.drop_first())
    }
}

/// When the signature of an address expires, in seconds since the Unix epoch.
pub fn url_expires(url: &str) -> (r: Option<i64>)
    ensures
        match r {
            Some(seconds) => first_expires(url_parts(url@)) == Some(seconds as int),
            None => first_expires(url_parts(url@)) is None,
        },
{
    let chars = chars_of(url);
    let ghost mapped = url@.map_values(|c: char| query_mark(c));
    let mut marked: Vec<char> = Vec::new();
    for i in 0..chars.len()
        invariant
            chars@ == url@,
            mapped == url@.map_values(|c: char| query_mark(c)),
            marked@ == mapped.take(i as int),
    {
        let c: char = chars[i];
        if c == '&' {
            marked.push('?');
        } else {
            marked.push(c);
        }
    }
    proof {
        assert(marked@ =~= mapped);
    }
    let parts = split_chars(marked.as_slice(), '?');
    let ghost all = url_parts(url@);
    let mut i: usize = 0;
    proof {
        assert(all.skip(0) == all);
    }
    while i < parts.len()
        invariant
            i <= parts@.len(),
            all == url_parts(url@),
            parts@.map_values(|p: Vec<char>| p@) == all,
            first_expires(all) == first_expires(all.skip(i as int)),
        decreases parts@.len() - i,
    {
        let part = string_of(parts[i].as_slice());
        proof {
            assert(all[i as int] == part@);
            assert(all.skip(i as int)[0] == part@);
            assert(all.skip(i as int).drop_first() == all.skip(i + 1));
        }
        if let Some(rest) = after_prefix(part.as_str(), "expires=") {
            if let Some(seconds) = parse_i64(rest.as_str()) {
                return Some(seconds);
            }
        }
        i = i + 1;
    }
    None
}

/// An address without its query.
pub open spec fn redacted(url: Seq<char>) -> Seq<char> {
    url.take(first_at(url, '?', 0))
}

/// An address without its query, which carries the signature.
pub fn redact_url(url: &str) -> (r: String)
    ensures
        r@ == redacted(url@),
{
    let chars = chars_of(url);
    let end: usize = first_index(chars.as_slice(), '?', 0);
    let kept = copy_range(chars.as_slice(), 0, end);
    proof {
        assert(kept@ =~= redacted(url@));
    }
    string_of(kept.as_slice())
}

/// A reported address holds no query, so no signature.
pub proof fn law_redacted_has_no_query(url: Seq<char>)
    ensures
        !redacted(url).contains('?'),
{
    crate::text::split::lemma_first_at(url, '?', 0);
}

// ---------------------------------------------------------------------------
// Fingerprints
// ---------------------------------------------------------------------------

/// Whether a digest is the declared one, in any ASCII case.
pub open spec fn fingerprint_matches(actual: Seq<char>, expected: Seq<char>) -> bool {
    ascii_lower_seq(actual) == ascii_lower_seq(expected)
}

/// The sentence that refuses a body.
pub open spec fn mismatch_text(actual: Seq<char>, expected: Seq<char>) -> Seq<char> {
    "cdn body sha1 != cs (expected "@ + ascii_lower_seq(expected) + ", actual "@ + actual + ")"@
}

/// Holds the digest of a body against the declared one.
pub fn check_fingerprint(actual: &str, expected: &str) -> (r: Result<(), String>)
    ensures
        match r {
            Ok(_) => fingerprint_matches(actual@, expected@),
            Err(reason) => !fingerprint_matches(actual@, expected@) && reason@ == mismatch_text(
                actual@,
                expected@,
            ),
        },
{
    let a = ascii_lowercase(actual);
    let b = ascii_lowercase(expected);
    if same(a.as_str(), b.as_str()) {
        Ok(())
    } else {
        let mut reason = owned("cdn body sha1 != cs (expected ");
        reason.append(b.as_str());
        reason.append(", actual ");
        reason.append(actual);
        reason.append(")");
        Err(reason)
    }
}

/// Holds a fetched body against the declared fingerprint.
pub fn verify_cdn_checksum(body: &[u8], expected: &str) -> (r: Result<(), String>)
    ensures
        match r {
            Ok(_) => fingerprint_matches(sha1_hex(body@), expected@),
            Err(reason) => !fingerprint_matches(sha1_hex(body@), expected@) && reason@
                == mismatch_text(sha1_hex(body@), expected@),
        },
{
    let actual = sha1_hex_of(body);
    check_fingerprint(actual.as_str(), expected)
}

// ---------------------------------------------------------------------------
// Laws
// ---------------------------------------------------------------------------

/// Each kind of file that is known by its first bytes gets its own extension: a
/// JPEG, a PNG, a GIF of either version, a WebP, an MP4 and a WebM; and a body
/// gets one of these only where it has those bytes.
pub proof fn law_every_signature_has_its_extension(body: Seq<u8>)
    ensures
        body.len() >= 3 && body[0] == 0xff && body[1] == 0xd8 && body[2] == 0xff <==> sniffed_ext(
            body,
        ) == ".jpg"@,
        body.len() >= 8 && body[0] == 0x89 && body[1] == 0x50 && body[2] == 0x4e && body[3] == 0x47
            && body[4] == 0x0d && body[5] == 0x0a && body[6] == 0x1a && body[7] == 0x0a
            <==> sniffed_ext(body) == ".png"@,
        body.len() >= 6 && body[0] == 0x47 && body[1] == 0x49 && body[2] == 0x46 && body[3] == 0x38
            && (body[4] == 0x37 || body[4] == 0x39) && body[5] == 0x61 <==> sniffed_ext(body)
            == ".gif"@,
        body.len() >= 12 && body[0] == 0x52 && body[1] == 0x49 && body[2] == 0x46 && body[3] == 0x46
            && body[8] == 0x57 && body[9] == 0x45 && body[10] == 0x42 && body[11] == 0x50
            ==> sniffed_ext(body) == ".webp"@,
        sniffed_ext(body) == ".webp"@ ==> body.len() >= 12 && body[0] == 0x52 && body[8] == 0x57,
        body.len() >= 12 && body[4] == 0x66 && body[5] == 0x74 && body[6] == 0x79 && body[7] == 0x70
            && (body[0] as int) < 0x1a ==> sniffed_ext(body) == ".mp4"@,
        sniffed_ext(body) == ".mp4"@ ==> body.len() >= 12 && body[4] == 0x66 && body[5] == 0x74
            && body[6] == 0x79 && body[7] == 0x70,
        body.len() >= 4 && body[0] == 0x1a && body[1] == 0x45 && body[2] == 0xdf && body[3] == 0xa3
            && !(body.len() >= 8 && body[4] == 0x66) ==> sniffed_ext(body) == ".webm"@,
        sniffed_ext(body) == ".webm"@ ==> body.len() >= 4 && body[0] == 0x1a && body[1] == 0x45
            && body[2] == 0xdf && body[3] == 0xa3,
{
    lemma_extensions_differ();
    lemma_bytes_at(body, 0, seq![0xffu8, 0xd8, 0xff]);
    lemma_bytes_at(body, 0, seq![0x89u8, 0x50, 0x4e, 0x47, 0x0d, 0x0a, 0x1a, 0x0a]);
    lemma_bytes_at(body, 0, seq![0x47u8, 0x49, 0x46, 0x38, 0x37, 0x61]);
    lemma_bytes_at(body, 0, seq![0x47u8, 0x49, 0x46, 0x38, 0x39, 0x61]);
    lemma_bytes_at(body, 0, seq![0x52u8, 0x49, 0x46, 0x46]);
    lemma_bytes_at(body, 8, seq![0x57u8, 0x45, 0x42, 0x50]);
    lemma_bytes_at(body, 4, seq![0x66u8, 0x74, 0x79, 0x70]);
    lemma_bytes_at(body, 0, seq![0x1au8, 0x45, 0xdf, 0xa3]);
}

/// A signature stands in a body where each of its bytes does.
proof fn lemma_bytes_at(body: Seq<u8>, at: int, bytes: Seq<u8>)
    requires
        0 <= at,
    ensures
        bytes_at(body, at, bytes) <==> at + bytes.len() <= body.len() && forall|k: int|
            0 <= k < bytes.len() ==> #[trigger] body[at + k] == bytes[k],
{
    if at + bytes.len() <= body.len() {
        let piece = body.subrange(at, at + bytes.len());
        if bytes_at(body, at, bytes) {
            assert forall|k: int| 0 <= k < bytes.len() implies #[trigger] body[at + k]
                == bytes[k] by {
                assert(piece[k] == body[at + k]);
            }
        }
        if forall|k: int| 0 <= k < bytes.len() ==> #[trigger] body[at + k] == bytes[k] {
            assert forall|k: int| 0 <= k < bytes.len() implies piece[k] == bytes[k] by {
                assert(body[at + k] == bytes[k]);
            }
            assert(piece =~= bytes);
        }
    }
}

/// No two of the extensions are the same.
proof fn lemma_extensions_differ()
    ensures
        forall|i: int, j: int|
            0 <= i < j < sniffed_exts().len() ==> #[trigger] sniffed_exts()[i]
                != #[trigger] sniffed_exts()[j],
        ".jpg"@ != ".png"@ && ".jpg"@ != ".gif"@ && ".jpg"@ != ".webp"@ && ".jpg"@ != ".mp4"@
            && ".jpg"@ != ".webm"@ && ".jpg"@ != ".bin"@,
        ".png"@ != ".gif"@ && ".png"@ != ".webp"@ && ".png"@ != ".mp4"@ && ".png"@ != ".webm"@
            && ".png"@ != ".bin"@,
        ".gif"@ != ".webp"@ && ".gif"@ != ".mp4"@ && ".gif"@ != ".webm"@ && ".gif"@ != ".bin"@,
        ".webp"@ != ".mp4"@ && ".webp"@ != ".webm"@ && ".webp"@ != ".bin"@,
        ".mp4"@ != ".webm"@ && ".mp4"@ != ".bin"@ && ".webm"@ != ".bin"@,
{
    reveal_strlit(".jpg");
    reveal_strlit(".png");
    reveal_strlit(".gif");
    reveal_strlit(".webp");
    reveal_strlit(".mp4");
    reveal_strlit(".webm");
    reveal_strlit(".bin");
    assert(".jpg"@[1] == 'j');
    assert(".png"@[1] == 'p');
    assert(".gif"@[1] == 'g');
    assert(".webp"@[4] == 'p' && ".webp"@[1] == 'w');
    assert(".mp4"@[1] == 'm');
    assert(".webm"@[4] == 'm' && ".webm"@[1] == 'w');
    assert(".bin"@[1] == 'b');
}

/// A path in a directory starts with the directory and ends with the name, with
/// one slash between them at least; a name from the root stands for itself.
pub proof fn law_joined_path_has_both(dir: Seq<char>, name: Seq<char>)
    ensures
        name.len() > 0 && name[0] == '/' ==> joined(dir, name) == name,
        !(name.len() > 0 && name[0] == '/') ==> {
            let path = joined(dir, name);
            &&& path.len() >= dir.len() + name.len()
            &&& path.take(dir.len() as int) == dir
            &&& path.skip(path.len() - name.len()) == name
            &&& dir.len() > 0 ==> path[path.len() - name.len() - 1] == '/'
            &&& path.len() <= dir.len() + name.len() + 1
            &&& dir.len() == 0 ==> path == name
        },
{
    let path = joined(dir, name);
    if !(name.len() > 0 && name[0] == '/') {
        assert(path.take(dir.len() as int) =~= dir);
        assert(path.skip(path.len() - name.len()) =~= name);
        if dir.len() == 0 {
            assert(path =~= name);
        }
    }
}

/// An output keeps its frame's stem: a file with a name of its own goes under
/// the stem, a bar and that name made safe; anything else under the stem and an
/// extension.
pub proof fn law_outputs_are_named_by_their_stem(frame: MediaFrameInput, output_dir: Seq<char>)
    ensures
        match frame.filename {
            Some(name) => candidate_paths(frame, output_dir).len() == 1 && candidate_paths(
                frame,
                output_dir,
            )[0] == joined(output_dir, frame.output_stem@ + seq!['_'] + sanitized(name@)),
            None => candidate_paths(frame, output_dir).len() == 7 && forall|i: int|
                0 <= i < 7 ==> #[trigger] candidate_paths(frame, output_dir)[i] == joined(
                    output_dir,
                    frame.output_stem@ + seq![".jpg"@, ".png"@, ".gif"@, ".webp"@, ".mp4"@, ".webm"@, ".bin"@][i],
                ),
        },
{
    reveal_strlit("_");
    assert("_"@ =~= seq!['_']);
}

/// An address is reported up to its query: one without a query as it is.
pub proof fn law_redacted_is_the_address(url: Seq<char>)
    ensures
        redacted(url).len() <= url.len(),
        redacted(url) == url.take(redacted(url).len() as int),
        !url.contains('?') ==> redacted(url) == url,
        redacted(url).len() < url.len() ==> url[redacted(url).len() as int] == '?',
{
    crate::text::split::lemma_first_at(url, '?', 0);
    let n = first_at(url, '?', 0);
    if n < url.len() {
        assert(url.contains('?')) by {
            assert(url[n] == '?');
        }
    } else {
        assert(url.take(n) =~= url);
    }
}

/// A digest is accepted where it is the declared one, but for the case of
/// letters; two that are written in small letters only where they are the same.
pub proof fn law_only_the_declared_digest_is_accepted(actual: Seq<char>, expected: Seq<char>)
    ensures
        actual == expected ==> fingerprint_matches(actual, expected),
        fingerprint_matches(actual, expected) ==> actual.len() == expected.len(),
        (forall|i: int|
            0 <= i < actual.len() ==> !(0x41 <= (#[trigger] actual[i]) as int <= 0x5a)) && (forall|
            i: int,
        |
            0 <= i < expected.len() ==> !(0x41 <= (#[trigger] expected[i]) as int <= 0x5a))
            && fingerprint_matches(actual, expected) ==> actual == expected,
{
    law_lowering_changes_only_capitals(actual);
    law_lowering_changes_only_capitals(expected);
    if (forall|i: int| 0 <= i < actual.len() ==> !(0x41 <= (#[trigger] actual[i]) as int <= 0x5a))
        && (forall|i: int|
        0 <= i < expected.len() ==> !(0x41 <= (#[trigger] expected[i]) as int <= 0x5a))
        && fingerprint_matches(actual, expected) {
        assert(actual.len() == expected.len());
        assert forall|i: int| 0 <= i < actual.len() implies actual[i] == expected[i] by {
            assert(ascii_lower_seq(actual)[i] == actual[i]);
            assert(ascii_lower_seq(expected)[i] == expected[i]);
        }
        assert(actual =~= expected);
    }
}

/// The first part that says when a signature expires counts; a part says so by
/// the word, an equals sign and a number, and nothing else does.
pub proof fn law_the_first_expiry_counts(a: Seq<Seq<char>>, b: Seq<Seq<char>>, digits: Seq<char>)
    ensures
        first_expires(a + b) == if first_expires(a) is Some {
            first_expires(a)
        } else {
            first_expires(b)
        },
        first_expires(seq!["expires="@ + digits]) == parsed_int(
            digits,
            true,
            i64::MIN as int,
            i64::MAX as int,
        ),
        forall|part: Seq<char>| #[trigger]
            expires_part(part) is Some ==> part.len() >= 8 && part.take(8) == "expires="@,
        forall|part: Seq<char>| first_expires(seq![part]) == #[trigger] expires_part(part),
    decreases a.len(),
{
    reveal_strlit("expires=");
    let word = "expires="@;
    let part = word + digits;
    assert(part.subrange(0, 8) =~= word);
    assert(part.skip(8) =~= digits);
    assert(seq![part].drop_first() =~= Seq::<Seq<char>>::empty());
    assert(seq![part][0] == part);
    assert(first_expires(Seq::<Seq<char>>::empty()) is None);
    assert forall|part: Seq<char>| #[trigger] expires_part(part) is Some implies part.len() >= 8
        && part.take(8) == "expires="@ by {
        assert(part.subrange(0, 8) =~= part.take(8));
    }
    assert forall|part: Seq<char>| first_expires(seq![part]) == #[trigger] expires_part(part) by {
        assert(seq![part].drop_first() =~= Seq::<Seq<char>>::empty());
        assert(seq![part][0] == part);
    }
    if a.len() == 0 {
        assert(a + b =~= b);
    } else {
        law_the_first_expiry_counts(a.drop_first(), b, digits);
        assert((a + b).drop_first() =~= a.drop_first() + b);
        assert((a + b)[0] == a[0]);
    }
}

/// An address is taken apart at every question mark and every ampersand.
pub proof fn law_addresses_come_apart(a: Seq<char>, b: Seq<char>, mark: char)
    requires
        mark == '?' || mark == '&',
    ensures
        url_parts(a.push(mark) + b) == url_parts(a) + url_parts(b),
        !a.contains('?') && !a.contains('&') ==> url_parts(a) == seq![a],
{
    let f = |c: char| query_mark(c);
    let (x, y) = (a.map_values(f), b.map_values(f));
    assert((a.push(mark) + b).map_values(f) =~= x.push('?') + y);
    law_splitting_adds_up(x, y, '?');
    if !a.contains('?') && !a.contains('&') {
        assert forall|i: int| 0 <= i < a.len() implies #[trigger] x[i] == a[i] && a[i] != '?' by {
            assert(a.contains(a[i]));
        }
        assert(x =~= a);
        crate::text::split::lemma_first_at(x, '?', 0);
        let n = first_at(x, '?', 0);
        if n < x.len() {
            assert(x[n] == '?');
        }
    }
}

/// The sentence that refuses a body names both digests, the declared one in small
/// letters.
pub proof fn law_a_mismatch_names_both_digests(actual: Seq<char>, expected: Seq<char>)
    ensures
        contains_text(mismatch_text(actual, expected), actual),
        contains_text(mismatch_text(actual, expected), ascii_lower_seq(expected)),
{
    let want = ascii_lower_seq(expected);
    let text = mismatch_text(actual, expected);
    law_a_text_holds_its_middle(
        "cdn body sha1 != cs (expected "@,
        want,
        ", actual "@ + actual + ")"@,
    );
    assert("cdn body sha1 != cs (expected "@ + want + (", actual "@ + actual + ")"@) =~= text);
    law_a_text_holds_its_middle(
        "cdn body sha1 != cs (expected "@ + want + ", actual "@,
        actual,
        ")"@,
    );
}

} // verus!
