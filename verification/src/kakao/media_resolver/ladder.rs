//! The ladder of tiers, as a state machine.
//!
//! [`begin`] and [`advance`] decide. Whoever runs the machine looks for output
//! files, reads the cache and asks the CDN, and hands back what came of it.
//! [`resolve_media_frames_with_fetcher`] runs it over many frames.

use crate::digest::{sha1_hex, sha1_hex_of};
use crate::kakao::media::{
    cached_kind, count_of, counts_records, lemma_tier_count_bound, tier_count, CacheStem,
    MediaFrameInput, MediaRecord, MediaReport, MediaResolveError, MediaTier, TierCounts,
};
use crate::kakao::media_crypto::{decrypt_pkv2_image, pkv2_image};
use crate::kakao::media_resolver::{
    candidate_paths, fingerprint_matches, first_expires, image_ext, join_path, joined, known_name,
    known_output_name, mismatch_text, output_candidates, redact_url, redacted, sniffed_ext,
    url_expires, url_parts, verify_cdn_checksum, MediaResolveOptions,
};
use crate::text::number::{decimal, decimal_i64, decimal_int, decimal_u64};
use crate::text::owned;
use crate::text::split::{
    contains_text, join, join_strings, law_a_text_holds_its_middle, law_join_holds_every_part,
    occurs_at, part_start, views,
};
use vstd::prelude::*;

verus! {

/// Why a tier gave nothing.
#[derive(Debug, Clone, Copy, PartialEq, Eq, Structural)]
pub enum Reason {
    FullDecryptFailed,
    FullNotCached,
    CdnExpired,
    CdnTooLarge,
    CdnFailed,
    CdnUnverifiable,
}

/// The word for a reason.
pub open spec fn reason_text(reason: Reason) -> Seq<char> {
    match reason {
        Reason::FullDecryptFailed => "full-decrypt-failed"@,
        Reason::FullNotCached => "full-not-cached"@,
        Reason::CdnExpired => "cdn-expired"@,
        Reason::CdnTooLarge => "cdn-too-large"@,
        Reason::CdnFailed => "cdn-failed"@,
        Reason::CdnUnverifiable => "cdn-unverifiable"@,
    }
}

impl Reason {
    /// The word for this reason.
    pub fn text(self) -> (word: &'static str)
        ensures
            word@ == reason_text(self),
    {
        match self {
            Reason::FullDecryptFailed => "full-decrypt-failed",
            Reason::FullNotCached => "full-not-cached",
            Reason::CdnExpired => "cdn-expired",
            Reason::CdnTooLarge => "cdn-too-large",
            Reason::CdnFailed => "cdn-failed",
            Reason::CdnUnverifiable => "cdn-unverifiable",
        }
    }
}

/// What the machine waits for.
#[derive(Debug, Clone, Copy, PartialEq, Eq, Structural)]
pub enum Awaiting {
    /// Whether an output file is there.
    Output,
    /// The full copy in the cache.
    Full,
    /// The body from the CDN.
    Cdn,
    /// The thumbnail in the cache.
    Thumb,
}

/// Where the machine stands with a frame.
#[derive(Debug)]
pub struct Progress {
    pub awaiting: Awaiting,
    /// Why the tiers so far gave nothing.
    pub why: Vec<Reason>,
    pub errors: Vec<MediaResolveError>,
}

/// A file of the cache, and what reading it gave.
#[derive(Debug)]
pub struct CachedFile {
    pub path: String,
    pub content: Result<Vec<u8>, String>,
}

/// What the machine asks for.
#[derive(Debug)]
pub enum Request {
    /// The first of these paths that is a file.
    FindOutput { paths: Vec<String> },
    /// A file of the cache.
    ReadCache { stem: CacheStem, ext: &'static str },
    /// The body at an address.
    Fetch { url: String, timeout_secs: u64, max_bytes: u64 },
}

/// What came of a request.
#[derive(Debug)]
pub enum Event {
    Output(Option<String>),
    Cache(Option<CachedFile>),
    Fetched(Result<Vec<u8>, String>),
}

/// The end of a frame: its record, the bytes to write to the record's path
/// where there are any, and the failures on the way.
#[derive(Debug)]
pub struct Finished {
    pub record: MediaRecord,
    pub output: Option<Vec<u8>>,
    pub errors: Vec<MediaResolveError>,
}

/// One step of the machine.
#[derive(Debug)]
pub enum Step {
    Ask { progress: Progress, request: Request },
    Done(Finished),
}

// ---------------------------------------------------------------------------
// The model
// ---------------------------------------------------------------------------

/// A failure, without the frame it belongs to.
pub struct ErrorView {
    pub stage: Seq<char>,
    pub path: Seq<char>,
    pub error: Seq<char>,
}

/// A file of the cache.
pub struct FileView {
    pub path: Seq<char>,
    pub content: Result<Seq<u8>, Seq<char>>,
}

/// What came of a request.
pub enum EventView {
    Output(Option<Seq<char>>),
    Cache(Option<FileView>),
    Fetched(Result<Seq<u8>, Seq<char>>),
}

/// One step of the machine.
pub enum StepView {
    Ask { awaiting: Awaiting, why: Seq<Reason>, errors: Seq<ErrorView> },
    Done {
        tier: MediaTier,
        reason: Seq<char>,
        path: Option<Seq<char>>,
        /// The bytes that were found.
        body: Seq<u8>,
        /// Whether they are to be written to the path.
        written: bool,
        errors: Seq<ErrorView>,
    },
}

/// What is done about the CDN.
#[derive(Debug)]
pub enum CdnPlan {
    /// There is no address, or the CDN is switched off.
    Off,
    Expired,
    TooLarge,
    /// A dry run would have fetched.
    WouldFetch,
    Fetch,
    /// There is no fingerprint to hold a body against.
    Unverifiable,
}

/// Whether the attachment declares a fingerprint.
pub open spec fn has_fingerprint(frame: MediaFrameInput) -> bool {
    frame.checksum_sha1 matches Some(cs) && cs@.len() > 0
}

/// Whether the signature of `url` expired before `now`.
pub open spec fn expired(url: Seq<char>, now: int) -> bool {
    first_expires(url_parts(url)) matches Some(seconds) && seconds < now
}

/// Whether the attachment declares more bytes than may be fetched.
pub open spec fn oversized(frame: MediaFrameInput, max: int) -> bool {
    frame.size_bytes matches Some(size) && size > 0 && size > max
}

/// What is done about the CDN for a frame.
pub open spec fn cdn_plan(frame: MediaFrameInput, options: MediaResolveOptions) -> CdnPlan {
    match frame.cdn_url {
        None => CdnPlan::Off,
        Some(url) => if !options.cdn_enabled {
            CdnPlan::Off
        } else if expired(url@, options.now_epoch as int) {
            CdnPlan::Expired
        } else if oversized(frame, options.max_fetch_bytes as int) {
            CdnPlan::TooLarge
        } else if !has_fingerprint(frame) {
            CdnPlan::Unverifiable
        } else if options.dry_run {
            CdnPlan::WouldFetch
        } else {
            CdnPlan::Fetch
        },
    }
}

/// The words for the reasons, in order.
pub open spec fn reason_texts(why: Seq<Reason>) -> Seq<Seq<char>> {
    why.map_values(|r: Reason| reason_text(r))
}

/// The address of the frame, or nothing.
pub open spec fn url_of(frame: MediaFrameInput) -> Seq<char> {
    match frame.cdn_url {
        Some(url) => url@,
        None => seq![],
    }
}

/// The reasons that concern the CDN.
pub open spec fn cdn_reasons(why: Seq<Reason>) -> Seq<Reason>
    decreases why.len(),
{
    if why.len() == 0 {
        seq![]
    } else {
        let front = cdn_reasons(why.drop_last());
        match why.last() {
            Reason::FullDecryptFailed => front,
            Reason::FullNotCached => front,
            r => front.push(r),
        }
    }
}

/// The word that a stub's reason starts with.
pub open spec fn stub_head(
    frame: MediaFrameInput,
    why: Seq<Reason>,
    thumb_failed: bool,
) -> Seq<char> {
    if thumb_failed || why.contains(Reason::FullDecryptFailed) {
        "decrypt-failed"@
    } else if cached_kind(frame.kind) {
        "not-cached"@
    } else {
        "unavailable"@
    }
}

/// The words of a stub's reason.
pub open spec fn stub_words(
    frame: MediaFrameInput,
    why: Seq<Reason>,
    thumb_failed: bool,
) -> Seq<Seq<char>> {
    let words = seq![stub_head(frame, why, thumb_failed)] + reason_texts(cdn_reasons(why));
    if thumb_failed {
        words.push("thumb-decrypt-failed"@)
    } else {
        words
    }
}

/// A frame of which nothing was found.
pub open spec fn stub(
    frame: MediaFrameInput,
    why: Seq<Reason>,
    errors: Seq<ErrorView>,
    thumb_failed: bool,
) -> StepView {
    StepView::Done {
        tier: MediaTier::Stub,
        reason: join(stub_words(frame, why, thumb_failed), "+"@),
        path: None,
        body: seq![],
        written: false,
        errors,
    }
}

/// A frame whose bytes were found: they are written, unless this is a dry run.
pub open spec fn found(
    options: MediaResolveOptions,
    tier: MediaTier,
    reason: Seq<char>,
    name: Seq<char>,
    body: Seq<u8>,
    errors: Seq<ErrorView>,
) -> StepView {
    StepView::Done {
        tier,
        reason,
        path: if options.dry_run {
            None
        } else {
            Some(joined(options.output_dir@, name))
        },
        body,
        written: !options.dry_run,
        errors,
    }
}

/// The first step.
pub open spec fn begun(frame: MediaFrameInput, options: MediaResolveOptions) -> StepView {
    if options.skip_existing {
        StepView::Ask { awaiting: Awaiting::Output, why: seq![], errors: seq![] }
    } else {
        at_full(frame, options)
    }
}

/// The cache is asked first, where the kind is ever cached.
pub open spec fn at_full(frame: MediaFrameInput, options: MediaResolveOptions) -> StepView {
    if cached_kind(frame.kind) {
        StepView::Ask { awaiting: Awaiting::Full, why: seq![], errors: seq![] }
    } else {
        at_cdn(frame, options, seq![], seq![])
    }
}

/// Then the CDN, as planned.
pub open spec fn at_cdn(
    frame: MediaFrameInput,
    options: MediaResolveOptions,
    why: Seq<Reason>,
    errors: Seq<ErrorView>,
) -> StepView {
    match cdn_plan(frame, options) {
        CdnPlan::Off => at_thumb(frame, why, errors),
        CdnPlan::Expired => at_thumb(frame, why.push(Reason::CdnExpired), errors),
        CdnPlan::TooLarge => at_thumb(
            frame,
            why.push(Reason::CdnTooLarge),
            errors.push(
                ErrorView {
                    stage: "cdn"@,
                    path: redacted(url_of(frame)),
                    error: too_large_text(frame, options),
                },
            ),
        ),
        CdnPlan::WouldFetch => StepView::Done {
            tier: MediaTier::Planned,
            reason: join(reason_texts(why).push("cdn-would-fetch"@), "+"@),
            path: None,
            body: seq![],
            written: false,
            errors,
        },
        CdnPlan::Fetch => StepView::Ask { awaiting: Awaiting::Cdn, why, errors },
        CdnPlan::Unverifiable => at_thumb(
            frame,
            why.push(Reason::CdnUnverifiable),
            errors.push(
                ErrorView {
                    stage: "cdn"@,
                    path: redacted(url_of(frame)),
                    error:
                        "attachment carries no cs fingerprint; refusing to store an unverifiable cdn body"@,
                },
            ),
        ),
    }
}

/// The sentence that refuses an attachment by its declared size.
pub open spec fn too_large_text(frame: MediaFrameInput, options: MediaResolveOptions) -> Seq<char> {
    let size = match frame.size_bytes {
        Some(size) => size as int,
        None => 0,
    };
    "attachment declares "@ + decimal_int(size) + " bytes, above the "@ + decimal(
        options.max_fetch_bytes as nat,
    ) + " byte fetch limit"@
}

/// Then the thumbnail, where the kind is ever cached.
pub open spec fn at_thumb(
    frame: MediaFrameInput,
    why: Seq<Reason>,
    errors: Seq<ErrorView>,
) -> StepView {
    if cached_kind(frame.kind) {
        StepView::Ask { awaiting: Awaiting::Thumb, why, errors }
    } else {
        stub(frame, why, errors, false)
    }
}

/// What decrypting a file of the cache gives.
pub open spec fn decrypted(frame: MediaFrameInput, file: FileView) -> Result<Seq<u8>, Seq<char>> {
    match file.content {
        Ok(bytes) => pkv2_image(bytes, frame.log_id as int),
        Err(reason) => Err(reason),
    }
}

/// The step after the search for an output file.
pub open spec fn after_output(
    frame: MediaFrameInput,
    options: MediaResolveOptions,
    path: Option<Seq<char>>,
) -> StepView {
    match path {
        Some(path) => StepView::Done {
            tier: MediaTier::Existing,
            reason: "already-present"@,
            path: Some(path),
            body: seq![],
            written: false,
            errors: seq![],
        },
        None => at_full(frame, options),
    }
}

/// The step after the full copy was looked up.
pub open spec fn after_full(
    frame: MediaFrameInput,
    options: MediaResolveOptions,
    why: Seq<Reason>,
    errors: Seq<ErrorView>,
    file: Option<FileView>,
) -> StepView {
    match file {
        None => at_cdn(frame, options, why.push(Reason::FullNotCached), errors),
        Some(file) => match decrypted(frame, file) {
            Ok(body) => found(
                options,
                MediaTier::Full,
                "decrypted"@,
                frame.output_stem@ + sniffed_ext(body),
                body,
                errors,
            ),
            Err(reason) => at_cdn(
                frame,
                options,
                why.push(Reason::FullDecryptFailed),
                errors.push(ErrorView { stage: "full"@, path: file.path, error: reason }),
            ),
        },
    }
}

/// The output name of a fetched body.
pub open spec fn fetched_name(frame: MediaFrameInput, body: Seq<u8>) -> Seq<char> {
    match known_name(frame) {
        Some(name) => name,
        None => frame.output_stem@ + sniffed_ext(body),
    }
}

/// The fingerprint that the attachment declares, or nothing.
pub open spec fn fingerprint_of(frame: MediaFrameInput) -> Seq<char> {
    match frame.checksum_sha1 {
        Some(cs) => cs@,
        None => seq![],
    }
}

/// The step after the CDN answered.
pub open spec fn after_fetch(
    frame: MediaFrameInput,
    options: MediaResolveOptions,
    why: Seq<Reason>,
    errors: Seq<ErrorView>,
    reply: Result<Seq<u8>, Seq<char>>,
) -> StepView {
    match reply {
        Ok(body) => if fingerprint_matches(sha1_hex(body), fingerprint_of(frame)) {
            found(
                options,
                MediaTier::Cdn,
                join(reason_texts(why).push("cdn-fetched"@), "+"@),
                fetched_name(frame, body),
                body,
                errors,
            )
        } else {
            at_thumb(
                frame,
                why.push(Reason::CdnFailed),
                errors.push(
                    ErrorView {
                        stage: "cdn"@,
                        path: redacted(url_of(frame)),
                        error: mismatch_text(sha1_hex(body), fingerprint_of(frame)),
                    },
                ),
            )
        },
        Err(reason) => at_thumb(
            frame,
            why.push(Reason::CdnFailed),
            errors.push(
                ErrorView { stage: "cdn"@, path: redacted(url_of(frame)), error: reason },
            ),
        ),
    }
}

/// The step after the thumbnail was looked up.
pub open spec fn after_thumb(
    frame: MediaFrameInput,
    options: MediaResolveOptions,
    why: Seq<Reason>,
    errors: Seq<ErrorView>,
    file: Option<FileView>,
) -> StepView {
    match file {
        None => stub(frame, why, errors, false),
        Some(file) => match decrypted(frame, file) {
            Ok(body) => found(
                options,
                MediaTier::Thumb,
                join(reason_texts(why), "+"@),
                frame.output_stem@ + "_thumb"@ + sniffed_ext(body),
                body,
                errors,
            ),
            Err(reason) => stub(
                frame,
                why,
                errors.push(ErrorView { stage: "thumb"@, path: file.path, error: reason }),
                true,
            ),
        },
    }
}

/// Whether an event answers what the machine waits for.
pub open spec fn fits(awaiting: Awaiting, event: EventView) -> bool {
    match awaiting {
        Awaiting::Output => event is Output,
        Awaiting::Full => event is Cache,
        Awaiting::Cdn => event is Fetched,
        Awaiting::Thumb => event is Cache,
    }
}

/// Whether the machine can be waiting for this with the frame.
pub open spec fn ready(
    awaiting: Awaiting,
    frame: MediaFrameInput,
    options: MediaResolveOptions,
) -> bool {
    match awaiting {
        Awaiting::Output => options.skip_existing,
        Awaiting::Full => cached_kind(frame.kind),
        Awaiting::Cdn => cdn_plan(frame, options) is Fetch,
        Awaiting::Thumb => cached_kind(frame.kind),
    }
}

/// The step that an event leads to.
pub open spec fn advanced(
    frame: MediaFrameInput,
    options: MediaResolveOptions,
    awaiting: Awaiting,
    why: Seq<Reason>,
    errors: Seq<ErrorView>,
    event: EventView,
) -> StepView {
    match (awaiting, event) {
        (Awaiting::Output, EventView::Output(path)) => after_output(frame, options, path),
        (Awaiting::Full, EventView::Cache(file)) => after_full(frame, options, why, errors, file),
        (Awaiting::Cdn, EventView::Fetched(reply)) => after_fetch(
            frame,
            options,
            why,
            errors,
            reply,
        ),
        (Awaiting::Thumb, EventView::Cache(file)) => after_thumb(
            frame,
            options,
            why,
            errors,
            file,
        ),
        _ => StepView::Ask { awaiting, why, errors },
    }
}

// ---------------------------------------------------------------------------
// How values stand for the model
// ---------------------------------------------------------------------------

/// The view of a reply.
pub open spec fn reply_view(reply: Result<Vec<u8>, String>) -> Result<Seq<u8>, Seq<char>> {
    match reply {
        Ok(bytes) => Ok(bytes@),
        Err(reason) => Err(reason@),
    }
}

/// The view of an optional text.
pub open spec fn text_view(text: Option<String>) -> Option<Seq<char>> {
    match text {
        Some(text) => Some(text@),
        None => None,
    }
}

/// The view of an optional file.
pub open spec fn file_view(file: Option<CachedFile>) -> Option<FileView> {
    match file {
        Some(file) => Some(FileView { path: file.path@, content: reply_view(file.content) }),
        None => None,
    }
}

/// The view of an event.
pub open spec fn event_view(event: Event) -> EventView {
    match event {
        Event::Output(path) => EventView::Output(text_view(path)),
        Event::Cache(file) => EventView::Cache(file_view(file)),
        Event::Fetched(reply) => EventView::Fetched(reply_view(reply)),
    }
}

/// Whether `error` is the failure `view` of `frame`.
pub open spec fn error_is(error: MediaResolveError, frame: MediaFrameInput, view: ErrorView) -> bool {
    &&& error.log_id == frame.log_id
    &&& error.idx == frame.idx
    &&& error.stage@ == view.stage
    &&& error.path@ == view.path
    &&& error.error@ == view.error
}

/// Whether `errors` are the failures `views` of `frame`, in order.
pub open spec fn errors_are(
    errors: Seq<MediaResolveError>,
    frame: MediaFrameInput,
    views: Seq<ErrorView>,
) -> bool {
    &&& errors.len() == views.len()
    &&& forall|i: int|
        0 <= i < errors.len() ==> error_is(#[trigger] errors[i], frame, views[i])
}

/// Whether `record` says of `frame` what a finished step says.
pub open spec fn record_is(
    record: MediaRecord,
    frame: MediaFrameInput,
    tier: MediaTier,
    reason: Seq<char>,
    path: Option<Seq<char>>,
    body: Seq<u8>,
) -> bool {
    &&& record.log_id == frame.log_id
    &&& record.idx == frame.idx
    &&& record.kind == frame.kind
    &&& record.name == frame.filename
    &&& record.width == frame.width
    &&& record.height == frame.height
    &&& record.checksum_sha1 == frame.checksum_sha1
    &&& record.size_bytes == frame.size_bytes
    &&& record.tier == tier
    &&& record.tier_reason@ == reason
    &&& text_view(record.path) == path
    &&& text_view(record.sha1) == if body.len() == 0 {
        None
    } else {
        Some(sha1_hex(body))
    }
    &&& record.sender == frame.sender
    &&& record.sent_at == frame.sent_at
}

/// Whether `request` asks for what the machine waits for.
pub open spec fn request_is(
    request: Request,
    frame: MediaFrameInput,
    options: MediaResolveOptions,
    awaiting: Awaiting,
) -> bool {
    match awaiting {
        Awaiting::Output => request matches Request::FindOutput { paths } && views(paths@)
            == candidate_paths(frame, options.output_dir@),
        Awaiting::Full => request == (Request::ReadCache {
            stem: frame.full_stem,
            ext: frame.full_ext,
        }),
        Awaiting::Cdn => request matches Request::Fetch { url, timeout_secs, max_bytes } && url@
            == url_of(frame) && timeout_secs == options.cdn_timeout_secs && max_bytes
            == options.max_fetch_bytes,
        Awaiting::Thumb => request matches Request::ReadCache { stem, ext } && stem
            == frame.thumb_stem && ext@ == ".thm"@,
    }
}

/// Whether `step` is the step `view`.
pub open spec fn step_is(
    step: Step,
    frame: MediaFrameInput,
    options: MediaResolveOptions,
    view: StepView,
) -> bool {
    match (step, view) {
        (Step::Ask { progress, request }, StepView::Ask { awaiting, why, errors }) => {
            &&& progress.awaiting == awaiting
            &&& progress.why@ == why
            &&& errors_are(progress.errors@, frame, errors)
            &&& request_is(request, frame, options, awaiting)
            &&& ready(awaiting, frame, options)
        },
        (
            Step::Done(finished),
            StepView::Done { tier, reason, path, body, written, errors },
        ) => {
            &&& record_is(finished.record, frame, tier, reason, path, body)
            &&& errors_are(finished.errors@, frame, errors)
            &&& match finished.output {
                Some(bytes) => written && bytes@ == body && path is Some,
                None => !written,
            }
        },
        _ => false,
    }
}

// ---------------------------------------------------------------------------
// The machine
// ---------------------------------------------------------------------------

/// A copy of an optional text.
fn copy_text(text: &Option<String>) -> (copy: Option<String>)
    ensures
        copy == *text,
{
    match text {
        Some(text) => Some(text.clone()),
        None => None,
    }
}

/// The record of a frame.
fn record(
    frame: &MediaFrameInput,
    tier: MediaTier,
    reason: String,
    path: Option<String>,
    body: &[u8],
) -> (r: MediaRecord)
    ensures
        record_is(r, *frame, tier, reason@, text_view(path), body@),
{
    MediaRecord {
        log_id: frame.log_id,
        idx: frame.idx,
        kind: frame.kind,
        name: copy_text(&frame.filename),
        width: frame.width,
        height: frame.height,
        checksum_sha1: copy_text(&frame.checksum_sha1),
        size_bytes: frame.size_bytes,
        tier,
        tier_reason: reason,
        path,
        sha1: if body.len() == 0 {
            None
        } else {
            Some(sha1_hex_of(body))
        },
        sender: copy_text(&frame.sender),
        sent_at: frame.sent_at,
    }
}

/// Appends a failure of the frame.
fn push_error(
    errors: &mut Vec<MediaResolveError>,
    frame: &MediaFrameInput,
    stage: &str,
    path: String,
    error: String,
)
    ensures
        forall|views: Seq<ErrorView>| #[trigger]
            errors_are(old(errors)@, *frame, views) ==> errors_are(
                final(errors)@,
                *frame,
                views.push(ErrorView { stage: stage@, path: path@, error: error@ }),
            ),
{
    errors.push(
        MediaResolveError {
            log_id: frame.log_id,
            idx: frame.idx,
            stage: owned(stage),
            path,
            error,
        },
    );
}

/// The words for the reasons, in order.
fn words_of(why: &[Reason]) -> (words: Vec<String>)
    ensures
        views(words@) == reason_texts(why@),
{
    let mut words: Vec<String> = Vec::new();
    for i in 0..why.len()
        invariant
            views(words@) == reason_texts(why@).take(i as int),
    {
        let word = owned(why[i].text());
        let ghost before = views(words@);
        words.push(word);
        proof {
            assert(views(words@) =~= before.push(word@));
            assert(reason_texts(why@).take(i + 1) =~= before.push(reason_text(why@[i as int])));
        }
    }
    proof {
        assert(reason_texts(why@).take(why@.len() as int) =~= reason_texts(why@));
    }
    words
}

/// The reasons and one word more, joined.
fn reasons_and(why: &[Reason], word: &str) -> (text: String)
    ensures
        text@ == join(reason_texts(why@).push(word@), "+"@),
{
    let mut words = words_of(why);
    words.push(owned(word));
    proof {
        assert(views(words@) =~= reason_texts(why@).push(word@));
    }
    join_strings(words.as_slice(), "+")
}

/// A frame of which nothing was found.
fn finish_stub(
    frame: &MediaFrameInput,
    options: &MediaResolveOptions,
    why: Vec<Reason>,
    errors: Vec<MediaResolveError>,
    thumb_failed: bool,
) -> (step: Step)
    ensures
        forall|views: Seq<ErrorView>| #[trigger]
            errors_are(errors@, *frame, views) ==> step_is(
                step,
                *frame,
                *options,
                stub(*frame, why@, views, thumb_failed),
            ),
{
    let mut decrypt_failed = thumb_failed;
    let mut detail: Vec<String> = Vec::new();
    for i in 0..why.len()
        invariant
            decrypt_failed == (thumb_failed || why@.take(i as int).contains(
                Reason::FullDecryptFailed,
            )),
            views(detail@) == reason_texts(cdn_reasons(why@.take(i as int))),
    {
        let reason: Reason = why[i];
        let ghost front = why@.take(i as int);
        proof {
            let after = why@.take(i + 1);
            assert(after =~= front.push(reason));
            assert(after.drop_last() =~= front);
            let failed = Reason::FullDecryptFailed;
            if reason == failed {
                assert(after[i as int] == reason);
            } else if after.contains(failed) {
                let k = choose|k: int| 0 <= k < after.len() && after[k] == failed;
                assert(front[k] == failed);
            } else if front.contains(failed) {
                let k = choose|k: int| 0 <= k < front.len() && front[k] == failed;
                assert(after[k] == failed);
            }
        }
        match reason {
            Reason::FullDecryptFailed => {
                decrypt_failed = true;
            },
            Reason::FullNotCached => {},
            _ => {
                let word = owned(reason.text());
                let ghost before = views(detail@);
                detail.push(word);
                proof {
                    assert(views(detail@) =~= before.push(word@));
                    assert(reason_texts(cdn_reasons(front).push(reason)) =~= before.push(
                        reason_text(reason),
                    ));
                }
            },
        }
    }
    proof {
        assert(why@.take(why@.len() as int) =~= why@);
    }
    let head: &str = if decrypt_failed {
        "decrypt-failed"
    } else if frame.kind.has_local_cache() {
        "not-cached"
    } else {
        "unavailable"
    };
    let mut words: Vec<String> = Vec::new();
    words.push(owned(head));
    words.append(&mut detail);
    if thumb_failed {
        words.push(owned("thumb-decrypt-failed"));
    }
    proof {
        assert(views(words@) =~= stub_words(*frame, why@, thumb_failed));
    }
    let reason = join_strings(words.as_slice(), "+");
    let empty: Vec<u8> = Vec::new();
    Step::Done(
        Finished {
            record: record(frame, MediaTier::Stub, reason, None, empty.as_slice()),
            output: None,
            errors,
        },
    )
}

/// A frame whose bytes were found.
fn finish_found(
    frame: &MediaFrameInput,
    options: &MediaResolveOptions,
    tier: MediaTier,
    reason: String,
    name: String,
    body: Vec<u8>,
    errors: Vec<MediaResolveError>,
) -> (step: Step)
    ensures
        forall|views: Seq<ErrorView>| #[trigger]
            errors_are(errors@, *frame, views) ==> step_is(
                step,
                *frame,
                *options,
                found(*options, tier, reason@, name@, body@, views),
            ),
{
    if options.dry_run {
        Step::Done(
            Finished {
                record: record(frame, tier, reason, None, body.as_slice()),
                output: None,
                errors,
            },
        )
    } else {
        let path = join_path(options.output_dir.as_str(), name.as_str());
        Step::Done(
            Finished {
                record: record(frame, tier, reason, Some(path), body.as_slice()),
                output: Some(body),
                errors,
            },
        )
    }
}

/// Asks for the thumbnail, or gives up.
fn to_thumb(
    frame: &MediaFrameInput,
    options: &MediaResolveOptions,
    why: Vec<Reason>,
    errors: Vec<MediaResolveError>,
) -> (step: Step)
    ensures
        forall|views: Seq<ErrorView>| #[trigger]
            errors_are(errors@, *frame, views) ==> step_is(
                step,
                *frame,
                *options,
                at_thumb(*frame, why@, views),
            ),
{
    if frame.kind.has_local_cache() {
        Step::Ask {
            progress: Progress { awaiting: Awaiting::Thumb, why, errors },
            request: Request::ReadCache { stem: frame.thumb_stem, ext: ".thm" },
        }
    } else {
        finish_stub(frame, options, why, errors, false)
    }
}

/// Follows the plan for the CDN.
fn to_cdn(
    frame: &MediaFrameInput,
    options: &MediaResolveOptions,
    why: Vec<Reason>,
    errors: Vec<MediaResolveError>,
) -> (step: Step)
    ensures
        forall|views: Seq<ErrorView>| #[trigger]
            errors_are(errors@, *frame, views) ==> step_is(
                step,
                *frame,
                *options,
                at_cdn(*frame, *options, why@, views),
            ),
{
    let mut why = why;
    let mut errors = errors;
    let url: &String = match &frame.cdn_url {
        None => return to_thumb(frame, options, why, errors),
        Some(url) => url,
    };
    if !options.cdn_enabled {
        return to_thumb(frame, options, why, errors);
    }
    let is_expired = match url_expires(url.as_str()) {
        Some(seconds) => seconds < options.now_epoch,
        None => false,
    };
    if is_expired {
        why.push(Reason::CdnExpired);
        return to_thumb(frame, options, why, errors);
    }
    if let Some(size) = frame.size_bytes {
        if size > 0 && size as u64 > options.max_fetch_bytes {
            why.push(Reason::CdnTooLarge);
            let mut text = owned("attachment declares ");
            let declared = decimal_i64(size);
            text.append(declared.as_str());
            text.append(" bytes, above the ");
            let limit = decimal_u64(options.max_fetch_bytes);
            text.append(limit.as_str());
            text.append(" byte fetch limit");
            push_error(&mut errors, frame, "cdn", redact_url(url.as_str()), text);
            return to_thumb(frame, options, why, errors);
        }
    }
    let fingerprinted = match &frame.checksum_sha1 {
        Some(cs) => !cs.as_str().is_empty(),
        None => false,
    };
    if !fingerprinted {
        why.push(Reason::CdnUnverifiable);
        push_error(
            &mut errors,
            frame,
            "cdn",
            redact_url(url.as_str()),
            owned(
                "attachment carries no cs fingerprint; refusing to store an unverifiable cdn body",
            ),
        );
        return to_thumb(frame, options, why, errors);
    }
    if options.dry_run {
        let reason = reasons_and(why.as_slice(), "cdn-would-fetch");
        let empty: Vec<u8> = Vec::new();
        return Step::Done(
            Finished {
                record: record(frame, MediaTier::Planned, reason, None, empty.as_slice()),
                output: None,
                errors,
            },
        );
    }
    Step::Ask {
        progress: Progress { awaiting: Awaiting::Cdn, why, errors },
        request: Request::Fetch {
            url: url.clone(),
            timeout_secs: options.cdn_timeout_secs,
            max_bytes: options.max_fetch_bytes,
        },
    }
}

/// Asks for the full copy, or goes on to the CDN.
fn to_full(frame: &MediaFrameInput, options: &MediaResolveOptions) -> (step: Step)
    ensures
        step_is(step, *frame, *options, at_full(*frame, *options)),
{
    let why: Vec<Reason> = Vec::new();
    let errors: Vec<MediaResolveError> = Vec::new();
    proof {
        assert(errors_are(errors@, *frame, Seq::<ErrorView>::empty()));
    }
    if frame.kind.has_local_cache() {
        Step::Ask {
            progress: Progress { awaiting: Awaiting::Full, why, errors },
            request: Request::ReadCache { stem: frame.full_stem, ext: frame.full_ext },
        }
    } else {
        to_cdn(frame, options, why, errors)
    }
}

/// Starts on a frame.
pub fn begin(frame: &MediaFrameInput, options: &MediaResolveOptions) -> (step: Step)
    ensures
        step_is(step, *frame, *options, begun(*frame, *options)),
{
    if options.skip_existing {
        Step::Ask {
            progress: Progress {
                awaiting: Awaiting::Output,
                why: Vec::new(),
                errors: Vec::new(),
            },
            request: Request::FindOutput {
                paths: output_candidates(frame, options.output_dir.as_str()),
            },
        }
    } else {
        to_full(frame, options)
    }
}

/// The media bytes of a file of the cache, or why there are none.
fn open_cached(frame: &MediaFrameInput, content: Result<Vec<u8>, String>) -> (r: Result<
    Vec<u8>,
    String,
>)
    ensures
        reply_view(r) == match reply_view(content) {
            Ok(bytes) => pkv2_image(bytes, frame.log_id as int),
            Err(reason) => Err(reason),
        },
{
    match content {
        Err(reason) => Err(reason),
        Ok(bytes) => match decrypt_pkv2_image(bytes.as_slice(), frame.log_id) {
            Ok(body) => Ok(body),
            Err(error) => Err(error.message()),
        },
    }
}

/// Goes on with a frame after an event.
pub fn advance(
    frame: &MediaFrameInput,
    options: &MediaResolveOptions,
    progress: Progress,
    event: Event,
) -> (step: Step)
    requires
        ready(progress.awaiting, *frame, *options),
        fits(progress.awaiting, event_view(event)),
    ensures
        forall|views: Seq<ErrorView>| #[trigger]
            errors_are(progress.errors@, *frame, views) ==> step_is(
                step,
                *frame,
                *options,
                advanced(
                    *frame,
                    *options,
                    progress.awaiting,
                    progress.why@,
                    views,
                    event_view(event),
                ),
            ),
{
    let awaiting = progress.awaiting;
    let mut why = progress.why;
    let mut errors = progress.errors;
    match event {
        Event::Output(path) => match path {
            Some(path) => {
                let empty: Vec<u8> = Vec::new();
                let none: Vec<MediaResolveError> = Vec::new();
                Step::Done(
                    Finished {
                        record: record(
                            frame,
                            MediaTier::Existing,
                            owned("already-present"),
                            Some(path),
                            empty.as_slice(),
                        ),
                        output: None,
                        errors: none,
                    },
                )
            },
            None => to_full(frame, options),
        },
        Event::Fetched(reply) => match reply {
            Ok(body) => {
                let cs: &String = match &frame.checksum_sha1 {
                    Some(cs) => cs,
                    None => {
                        return to_thumb(frame, options, why, errors);
                    },
                };
                match verify_cdn_checksum(body.as_slice(), cs.as_str()) {
                    Ok(_) => {
                        let name = match known_output_name(frame) {
                            Some(name) => name,
                            None => frame.output_stem.clone().concat(image_ext(body.as_slice())),
                        };
                        let reason = reasons_and(why.as_slice(), "cdn-fetched");
                        finish_found(frame, options, MediaTier::Cdn, reason, name, body, errors)
                    },
                    Err(reason) => fetch_failed(frame, options, why, errors, reason),
                }
            },
            Err(reason) => fetch_failed(frame, options, why, errors, reason),
        },
        Event::Cache(file) => match awaiting {
            Awaiting::Full => match file {
                None => {
                    why.push(Reason::FullNotCached);
                    to_cdn(frame, options, why, errors)
                },
                Some(file) => match open_cached(frame, file.content) {
                    Ok(body) => {
                        let name = frame.output_stem.clone().concat(image_ext(body.as_slice()));
                        finish_found(
                            frame,
                            options,
                            MediaTier::Full,
                            owned("decrypted"),
                            name,
                            body,
                            errors,
                        )
                    },
                    Err(reason) => {
                        why.push(Reason::FullDecryptFailed);
                        push_error(&mut errors, frame, "full", file.path, reason);
                        to_cdn(frame, options, why, errors)
                    },
                },
            },
            _ => match file {
                None => finish_stub(frame, options, why, errors, false),
                Some(file) => match open_cached(frame, file.content) {
                    Ok(body) => {
                        let name = frame.output_stem.clone().concat("_thumb").concat(
                            image_ext(body.as_slice()),
                        );
                        let words = words_of(why.as_slice());
                        let reason = join_strings(words.as_slice(), "+");
                        finish_found(frame, options, MediaTier::Thumb, reason, name, body, errors)
                    },
                    Err(reason) => {
                        push_error(&mut errors, frame, "thumb", file.path, reason);
                        finish_stub(frame, options, why, errors, true)
                    },
                },
            },
        },
    }
}

/// Records that the CDN gave nothing usable, and goes on to the thumbnail.
fn fetch_failed(
    frame: &MediaFrameInput,
    options: &MediaResolveOptions,
    why: Vec<Reason>,
    errors: Vec<MediaResolveError>,
    reason: String,
) -> (step: Step)
    ensures
        forall|views: Seq<ErrorView>| #[trigger]
            errors_are(errors@, *frame, views) ==> step_is(
                step,
                *frame,
                *options,
                at_thumb(
                    *frame,
                    why@.push(Reason::CdnFailed),
                    views.push(
                        ErrorView {
                            stage: "cdn"@,
                            path: redacted(url_of(*frame)),
                            error: reason@,
                        },
                    ),
                ),
            ),
{
    let mut why = why;
    let mut errors = errors;
    why.push(Reason::CdnFailed);
    let path = match &frame.cdn_url {
        Some(url) => redact_url(url.as_str()),
        None => redact_url(""),
    };
    proof {
        reveal_strlit("");
        assert(""@ =~= Seq::<char>::empty());
    }
    push_error(&mut errors, frame, "cdn", path, reason);
    to_thumb(frame, options, why, errors)
}

// ---------------------------------------------------------------------------
// Laws
// ---------------------------------------------------------------------------

/// The CDN is asked only where it is switched on, the address is signed for now,
/// the declared size is within the limit, there is a fingerprint to hold the
/// body against, and this is no dry run.
pub proof fn law_cdn_is_asked_only_when_planned(
    frame: MediaFrameInput,
    options: MediaResolveOptions,
    awaiting: Awaiting,
    why: Seq<Reason>,
    errors: Seq<ErrorView>,
    event: EventView,
)
    requires
        ready(awaiting, frame, options),
        fits(awaiting, event),
    ensures
        begun(frame, options) matches StepView::Ask { awaiting: Awaiting::Cdn, .. } ==> may_ask_cdn(
            frame,
            options,
        ),
        advanced(frame, options, awaiting, why, errors, event) matches StepView::Ask {
            awaiting: Awaiting::Cdn,
            ..
        } ==> may_ask_cdn(frame, options),
{
}

/// What has to hold of a frame before the CDN is asked for it.
pub open spec fn may_ask_cdn(frame: MediaFrameInput, options: MediaResolveOptions) -> bool {
    &&& options.cdn_enabled
    &&& !options.dry_run
    &&& frame.cdn_url is Some
    &&& !expired(url_of(frame), options.now_epoch as int)
    &&& !oversized(frame, options.max_fetch_bytes as int)
    &&& has_fingerprint(frame)
}

/// Bytes from the CDN are kept only where their SHA-1 is the one that the
/// attachment declares.
pub proof fn law_kept_cdn_bytes_are_verified(
    frame: MediaFrameInput,
    options: MediaResolveOptions,
    awaiting: Awaiting,
    why: Seq<Reason>,
    errors: Seq<ErrorView>,
    event: EventView,
)
    requires
        ready(awaiting, frame, options),
        fits(awaiting, event),
    ensures
        advanced(frame, options, awaiting, why, errors, event) matches StepView::Done {
            tier: MediaTier::Cdn,
            body,
            ..
        } ==> has_fingerprint(frame) && fingerprint_matches(sha1_hex(body), fingerprint_of(frame))
            && event == EventView::Fetched(Ok(body)),
{
}

/// Bytes from the cache are kept only as its decrypted files give them.
pub proof fn law_kept_cache_bytes_are_decrypted(
    frame: MediaFrameInput,
    options: MediaResolveOptions,
    awaiting: Awaiting,
    why: Seq<Reason>,
    errors: Seq<ErrorView>,
    event: EventView,
)
    requires
        ready(awaiting, frame, options),
        fits(awaiting, event),
    ensures
        advanced(frame, options, awaiting, why, errors, event) matches StepView::Done {
            tier,
            body,
            ..
        } ==> (tier == MediaTier::Full || tier == MediaTier::Thumb) ==> (event matches
            EventView::Cache(Some(file)) && decrypted(frame, file) == Ok::<_, Seq<char>>(body)),
{
}

/// A dry run writes nothing and asks the CDN for nothing.
pub proof fn law_dry_run_changes_nothing(
    frame: MediaFrameInput,
    options: MediaResolveOptions,
    awaiting: Awaiting,
    why: Seq<Reason>,
    errors: Seq<ErrorView>,
    event: EventView,
)
    requires
        options.dry_run,
        ready(awaiting, frame, options),
        fits(awaiting, event),
    ensures
        harmless(begun(frame, options)),
        harmless(advanced(frame, options, awaiting, why, errors, event)),
{
}

/// Whether a step neither writes nor asks the CDN.
pub open spec fn harmless(step: StepView) -> bool {
    match step {
        StepView::Ask { awaiting, .. } => awaiting != Awaiting::Cdn,
        StepView::Done { written, .. } => !written,
    }
}

/// Where existing outputs are skipped and one is there, the frame is done with
/// it: nothing is written, read or asked for.
pub proof fn law_existing_output_ends_the_frame(
    frame: MediaFrameInput,
    options: MediaResolveOptions,
    why: Seq<Reason>,
    errors: Seq<ErrorView>,
    path: Seq<char>,
)
    requires
        options.skip_existing,
    ensures
        begun(frame, options) matches StepView::Ask { awaiting: Awaiting::Output, .. },
        advanced(
            frame,
            options,
            Awaiting::Output,
            why,
            errors,
            EventView::Output(Some(path)),
        ) matches StepView::Done { tier: MediaTier::Existing, path: p, written: false, .. } && p
            == Some(path),
{
}

/// What is written is found again: the path that an undisturbed run writes to is
/// among those that a later run looks for, so a second run skips the frame.
pub proof fn law_written_output_is_found_again(
    frame: MediaFrameInput,
    options: MediaResolveOptions,
    awaiting: Awaiting,
    why: Seq<Reason>,
    errors: Seq<ErrorView>,
    event: EventView,
)
    requires
        ready(awaiting, frame, options),
        fits(awaiting, event),
        frame.filename is None || frame.kind is File,
    ensures
        advanced(frame, options, awaiting, why, errors, event) matches StepView::Done {
            tier,
            path: Some(path),
            written: true,
            ..
        } ==> tier != MediaTier::Thumb ==> candidate_paths(frame, options.output_dir@).contains(
            path,
        ),
{
    let step = advanced(frame, options, awaiting, why, errors, event);
    if let StepView::Done { tier, path: Some(path), written: true, body, .. } = step {
        if tier != MediaTier::Thumb {
            crate::kakao::media_resolver::law_sniffed_output_is_a_candidate(
                frame,
                options.output_dir@,
                body,
            );
            if let Some(name) = known_name(frame) {
                assert(candidate_paths(frame, options.output_dir@)[0] == joined(
                    options.output_dir@,
                    name,
                ));
            }
        }
    }
}

/// A generic file is never looked for in the cache.
pub proof fn law_files_have_no_cache_tier(
    frame: MediaFrameInput,
    options: MediaResolveOptions,
    awaiting: Awaiting,
    why: Seq<Reason>,
    errors: Seq<ErrorView>,
    event: EventView,
)
    requires
        frame.kind is File,
        ready(awaiting, frame, options),
        fits(awaiting, event),
    ensures
        begun(frame, options) matches StepView::Ask { awaiting: next, .. } ==> next
            == Awaiting::Output || next == Awaiting::Cdn,
        advanced(frame, options, awaiting, why, errors, event) matches StepView::Ask {
            awaiting: next,
            ..
        } ==> next == Awaiting::Cdn,
{
}

/// How many events can still come.
pub open spec fn rank(awaiting: Awaiting) -> nat {
    match awaiting {
        Awaiting::Output => 4,
        Awaiting::Full => 3,
        Awaiting::Cdn => 2,
        Awaiting::Thumb => 1,
    }
}

/// Each event leads further down the ladder, so a frame is done after four of
/// them at most.
pub proof fn law_ladder_descends(
    frame: MediaFrameInput,
    options: MediaResolveOptions,
    awaiting: Awaiting,
    why: Seq<Reason>,
    errors: Seq<ErrorView>,
    event: EventView,
)
    requires
        ready(awaiting, frame, options),
        fits(awaiting, event),
    ensures
        advanced(frame, options, awaiting, why, errors, event) matches StepView::Ask {
            awaiting: next,
            ..
        } ==> rank(next) < rank(awaiting) && ready(next, frame, options),
{
}

// ---------------------------------------------------------------------------
// Running the machine
// ---------------------------------------------------------------------------

/// The step that a run has reached after `events`.
pub open spec fn reached(
    frame: MediaFrameInput,
    options: MediaResolveOptions,
    events: Seq<EventView>,
) -> StepView
    decreases events.len(),
{
    if events.len() == 0 {
        begun(frame, options)
    } else {
        match reached(frame, options, events.drop_last()) {
            StepView::Ask { awaiting, why, errors } => advanced(
                frame,
                options,
                awaiting,
                why,
                errors,
                events.last(),
            ),
            done => done,
        }
    }
}

/// What a run waits for, it can be waiting for.
proof fn lemma_reached_ready(
    frame: MediaFrameInput,
    options: MediaResolveOptions,
    events: Seq<EventView>,
)
    ensures
        reached(frame, options, events) matches StepView::Ask { awaiting, .. } ==> ready(
            awaiting,
            frame,
            options,
        ),
    decreases events.len(),
{
    if events.len() > 0 {
        lemma_reached_ready(frame, options, events.drop_last());
    }
}

/// Whether each event answers what the run waited for when it came.
pub open spec fn fitting_run(
    frame: MediaFrameInput,
    options: MediaResolveOptions,
    events: Seq<EventView>,
) -> bool
    decreases events.len(),
{
    events.len() > 0 ==> {
        &&& fitting_run(frame, options, events.drop_last())
        &&& reached(frame, options, events.drop_last()) matches StepView::Ask { awaiting, .. }
            && fits(awaiting, events.last())
    }
}

/// No question is asked twice in a run: whatever it waits for after some of its
/// events, it did not wait for before any of them. So the CDN is asked once at most.
pub proof fn law_each_question_is_asked_once(
    frame: MediaFrameInput,
    options: MediaResolveOptions,
    events: Seq<EventView>,
    earlier: int,
)
    requires
        fitting_run(frame, options, events),
        0 <= earlier < events.len(),
    ensures
        reached(frame, options, events.take(earlier)) matches StepView::Ask { awaiting: first, .. }
            && (reached(frame, options, events) matches StepView::Ask { awaiting: next, .. }
            ==> rank(next) < rank(first)),
    decreases events.len(),
{
    let front = events.drop_last();
    lemma_reached_ready(frame, options, front);
    if let StepView::Ask { awaiting, why, errors } = reached(frame, options, front) {
        law_ladder_descends(frame, options, awaiting, why, errors, events.last());
    }
    if earlier < front.len() {
        law_each_question_is_asked_once(frame, options, front, earlier);
        assert(front.take(earlier) =~= events.take(earlier));
    } else {
        assert(events.take(earlier) =~= front);
    }
}

/// However a dry run goes, it neither asks the CDN nor writes.
pub proof fn law_dry_run_is_harmless(
    frame: MediaFrameInput,
    options: MediaResolveOptions,
    events: Seq<EventView>,
)
    requires
        options.dry_run,
    ensures
        !may_ask_cdn(frame, options),
        harmless(reached(frame, options, events)),
    decreases events.len(),
{
    if events.len() > 0 {
        lemma_reached_ready(frame, options, events.drop_last());
        law_dry_run_is_harmless(frame, options, events.drop_last());
    }
}

/// With the CDN switched off, however a run goes, it is not asked, and nothing
/// is said to come from it.
pub proof fn law_without_cdn_nothing_is_asked(
    frame: MediaFrameInput,
    options: MediaResolveOptions,
    events: Seq<EventView>,
)
    requires
        !options.cdn_enabled,
    ensures
        !may_ask_cdn(frame, options),
        match reached(frame, options, events) {
            StepView::Ask { awaiting, .. } => awaiting != Awaiting::Cdn,
            StepView::Done { tier, .. } => tier != MediaTier::Cdn && tier != MediaTier::Planned,
        },
    decreases events.len(),
{
    if events.len() > 0 {
        lemma_reached_ready(frame, options, events.drop_last());
        law_without_cdn_nothing_is_asked(frame, options, events.drop_last());
    }
}

// ---------------------------------------------------------------------------
// Two runs over one directory
// ---------------------------------------------------------------------------

/// The first of the paths that is a file.
pub open spec fn first_file(paths: Seq<Seq<char>>, files: Set<Seq<char>>) -> Option<Seq<char>>
    decreases paths.len(),
{
    if paths.len() == 0 {
        None
    } else {
        match first_file(paths.drop_last(), files) {
            Some(path) => Some(path),
            None => if files.contains(paths.last()) {
                Some(paths.last())
            } else {
                None
            },
        }
    }
}

/// Whether a run finishes the frame, and was told of its outputs what holds of `files`.
pub open spec fn finishes(
    frame: MediaFrameInput,
    options: MediaResolveOptions,
    files: Set<Seq<char>>,
    events: Seq<EventView>,
) -> bool {
    &&& fitting_run(frame, options, events)
    &&& reached(frame, options, events) is Done
    &&& options.skip_existing ==> events.len() > 0 && events[0] == EventView::Output(
        first_file(candidate_paths(frame, options.output_dir@), files),
    )
}

/// The path that a run writes to.
pub open spec fn output_of(
    frame: MediaFrameInput,
    options: MediaResolveOptions,
    events: Seq<EventView>,
) -> Option<Seq<char>> {
    match reached(frame, options, events) {
        StepView::Done { path, written: true, .. } => path,
        _ => None,
    }
}

/// The files after the frames were resolved, each with its run.
pub open spec fn files_after(
    frames: Seq<MediaFrameInput>,
    options: MediaResolveOptions,
    files: Set<Seq<char>>,
    runs: Seq<Seq<EventView>>,
) -> Set<Seq<char>>
    decreases frames.len(),
{
    if frames.len() == 0 {
        files
    } else {
        let before = files_after(frames.drop_last(), options, files, runs.drop_last());
        match output_of(frames.last(), options, runs.last()) {
            Some(path) => before.insert(path),
            None => before,
        }
    }
}

/// Whether the runs finish the frames in order, each on the files that those
/// before it left.
pub open spec fn all_finish(
    frames: Seq<MediaFrameInput>,
    options: MediaResolveOptions,
    files: Set<Seq<char>>,
    runs: Seq<Seq<EventView>>,
) -> bool {
    &&& runs.len() == frames.len()
    &&& forall|i: int|
        0 <= i < frames.len() ==> finishes(
            #[trigger] frames[i],
            options,
            files_after(frames.take(i), options, files, runs.take(i)),
            runs[i],
        )
}

/// Whether the name is one that is written for the frame.
pub open spec fn is_output_name(frame: MediaFrameInput, name: Seq<char>) -> bool {
    ||| known_name(frame) == Some(name)
    ||| exists|body: Seq<u8>| name == frame.output_stem@ + #[trigger] sniffed_ext(body)
    ||| exists|body: Seq<u8>| name == frame.output_stem@ + "_thumb"@ + #[trigger] sniffed_ext(body)
}

/// Whether nothing that is written for `other` is looked for as an output of `frame`.
pub open spec fn apart(
    frame: MediaFrameInput,
    other: MediaFrameInput,
    output_dir: Seq<char>,
) -> bool {
    forall|name: Seq<char>| #[trigger]
        is_output_name(other, name) ==> !candidate_paths(frame, output_dir).contains(
            joined(output_dir, name),
        )
}

/// Whether only a generic file has a name of its own: what is written for the
/// frame is then looked for.
pub open spec fn named_as_a_file(frame: MediaFrameInput) -> bool {
    frame.filename is None || frame.kind is File
}

/// The first file is one of the paths, and is found where one of them is a file.
proof fn lemma_first_file(paths: Seq<Seq<char>>, files: Set<Seq<char>>)
    ensures
        match first_file(paths, files) {
            Some(path) => paths.contains(path) && files.contains(path),
            None => forall|path: Seq<char>| #[trigger]
                paths.contains(path) ==> !files.contains(path),
        },
    decreases paths.len(),
{
    if paths.len() > 0 {
        let front = paths.drop_last();
        lemma_first_file(front, files);
        assert(paths =~= front.push(paths.last()));
        match first_file(front, files) {
            Some(path) => {
                let k = choose|k: int| 0 <= k < front.len() && front[k] == path;
                assert(paths[k] == path);
            },
            None => {
                assert(paths[paths.len() - 1] == paths.last());
                assert forall|path: Seq<char>| #[trigger]
                    paths.contains(path) && path != paths.last() implies !files.contains(path) by {
                    let k = choose|k: int| 0 <= k < paths.len() && paths[k] == path;
                    assert(front[k] == path);
                    assert(front.contains(path));
                }
            },
        }
    }
}

/// What a run writes has a name of the frame, and is among its candidates but
/// for a thumbnail.
proof fn lemma_output(
    frame: MediaFrameInput,
    options: MediaResolveOptions,
    events: Seq<EventView>,
)
    requires
        fitting_run(frame, options, events),
    ensures
        reached(frame, options, events) matches StepView::Done {
            tier,
            path,
            written: true,
            ..
        } ==> {
            &&& path is Some
            &&& exists|name: Seq<char>| #[trigger]
                is_output_name(frame, name) && path->0 == joined(options.output_dir@, name)
            &&& tier != MediaTier::Thumb && named_as_a_file(frame) ==> candidate_paths(
                frame,
                options.output_dir@,
            ).contains(path->0)
        },
{
    let step = reached(frame, options, events);
    if let StepView::Done { tier, path, body, written: true, .. } = step {
        assert(events.len() > 0);
        let front = events.drop_last();
        lemma_reached_ready(frame, options, front);
        if let StepView::Ask { awaiting, why, errors } = reached(frame, options, front) {
            if named_as_a_file(frame) {
                law_written_output_is_found_again(
                    frame,
                    options,
                    awaiting,
                    why,
                    errors,
                    events.last(),
                );
            }
            let dir = options.output_dir@;
            let stem = frame.output_stem@;
            let ext = sniffed_ext(body);
            if path->0 == joined(dir, stem + ext) {
                assert(is_output_name(frame, stem + ext));
            } else if path->0 == joined(dir, stem + "_thumb"@ + ext) {
                assert(is_output_name(frame, stem + "_thumb"@ + ext));
            } else {
                assert(is_output_name(frame, known_name(frame)->0));
            }
        }
    }
}

/// The files that are looked for as outputs of `frame` change only with what is
/// written for it.
proof fn lemma_files_apart(
    frame: MediaFrameInput,
    frames: Seq<MediaFrameInput>,
    options: MediaResolveOptions,
    files: Set<Seq<char>>,
    runs: Seq<Seq<EventView>>,
    path: Seq<char>,
)
    requires
        runs.len() == frames.len(),
        forall|i: int| 0 <= i < frames.len() ==> fitting_run(#[trigger] frames[i], options, runs[i]),
        forall|i: int|
            0 <= i < frames.len() ==> apart(frame, #[trigger] frames[i], options.output_dir@),
        candidate_paths(frame, options.output_dir@).contains(path),
    ensures
        files_after(frames, options, files, runs).contains(path) == files.contains(path),
    decreases frames.len(),
{
    if frames.len() > 0 {
        let last = frames.len() - 1;
        let front = frames.drop_last();
        assert forall|i: int| 0 <= i < front.len() implies fitting_run(
            #[trigger] front[i],
            options,
            runs.drop_last()[i],
        ) by {
            assert(front[i] == frames[i]);
        }
        assert forall|i: int| 0 <= i < front.len() implies apart(
            frame,
            #[trigger] front[i],
            options.output_dir@,
        ) by {
            assert(front[i] == frames[i]);
        }
        lemma_files_apart(frame, front, options, files, runs.drop_last(), path);
        assert(fitting_run(frames[last], options, runs[last]));
        assert(apart(frame, frames[last], options.output_dir@));
        lemma_output(frames[last], options, runs[last]);
    }
}

/// The frames before a place, the one at it and those after it.
proof fn lemma_files_parts(
    frames: Seq<MediaFrameInput>,
    options: MediaResolveOptions,
    files: Set<Seq<char>>,
    runs: Seq<Seq<EventView>>,
    k: int,
)
    requires
        runs.len() == frames.len(),
        0 <= k <= frames.len(),
    ensures
        files_after(frames, options, files, runs) == files_after(
            frames.skip(k),
            options,
            files_after(frames.take(k), options, files, runs.take(k)),
            runs.skip(k),
        ),
    decreases frames.len(),
{
    if k == frames.len() {
        assert(frames.take(k) =~= frames);
        assert(runs.take(k) =~= runs);
        assert(frames.skip(k).len() == 0);
    } else {
        lemma_files_parts(frames.drop_last(), options, files, runs.drop_last(), k);
        assert(frames.drop_last().take(k) =~= frames.take(k));
        assert(runs.drop_last().take(k) =~= runs.take(k));
        assert(frames.drop_last().skip(k) =~= frames.skip(k).drop_last());
        assert(runs.drop_last().skip(k) =~= runs.skip(k).drop_last());
        assert(frames.skip(k).last() == frames.last());
        assert(runs.skip(k).last() == runs.last());
    }
}

/// Of what is looked for as outputs of a frame, nothing but its output is there
/// before its second run, where nothing was before its first.
proof fn lemma_only_the_output(
    frames: Seq<MediaFrameInput>,
    first: MediaResolveOptions,
    second: MediaResolveOptions,
    files: Set<Seq<char>>,
    runs: Seq<Seq<EventView>>,
    again: Seq<Seq<EventView>>,
    k: int,
    path: Seq<char>,
    p: Seq<char>,
)
    requires
        first.output_dir@ == second.output_dir@,
        runs.len() == frames.len(),
        again.len() == frames.len(),
        forall|i: int| 0 <= i < frames.len() ==> fitting_run(#[trigger] frames[i], first, runs[i]),
        forall|i: int| 0 <= i < frames.len() ==> fitting_run(#[trigger] frames[i], second, again[i]),
        0 <= k < frames.len(),
        forall|j: int|
            0 <= j < frames.len() && j != k ==> apart(
                frames[k],
                #[trigger] frames[j],
                first.output_dir@,
            ),
        output_of(frames[k], first, runs[k]) == Some(path),
        candidate_paths(frames[k], first.output_dir@).contains(p),
        !files_after(frames.take(k), first, files, runs.take(k)).contains(p),
    ensures
        files_after(
            frames.take(k),
            second,
            files_after(frames, first, files, runs),
            again.take(k),
        ).contains(p) == (p == path),
{
    let frame = frames[k];
    let dir = first.output_dir@;
    let start = files_after(frames.take(k), first, files, runs.take(k));
    let end = files_after(frames, first, files, runs);
    lemma_files_parts(frames, first, files, runs, k + 1);
    assert(frames.take(k + 1).drop_last() =~= frames.take(k));
    assert(runs.take(k + 1).drop_last() =~= runs.take(k));
    assert(frames.take(k + 1).last() == frame);
    assert(runs.take(k + 1).last() == runs[k]);
    assert(files_after(frames.take(k + 1), first, files, runs.take(k + 1)) == start.insert(path));
    let (tail, tail_runs) = (frames.skip(k + 1), runs.skip(k + 1));
    assert forall|i: int| 0 <= i < tail.len() implies fitting_run(
        #[trigger] tail[i],
        first,
        tail_runs[i],
    ) by {
        assert(tail[i] == frames[i + k + 1]);
    }
    assert forall|i: int| 0 <= i < tail.len() implies apart(frame, #[trigger] tail[i], dir) by {
        assert(tail[i] == frames[i + k + 1]);
    }
    lemma_files_apart(frame, tail, first, start.insert(path), tail_runs, p);
    let (head, head_runs) = (frames.take(k), again.take(k));
    assert forall|i: int| 0 <= i < head.len() implies fitting_run(
        #[trigger] head[i],
        second,
        head_runs[i],
    ) by {
        assert(head[i] == frames[i]);
    }
    assert forall|i: int| 0 <= i < head.len() implies apart(frame, #[trigger] head[i], dir) by {
        assert(head[i] == frames[i]);
    }
    lemma_files_apart(frame, head, second, end, head_runs, p);
}

/// A second run over the same directory skips what the first one fetched or
/// decrypted: where existing outputs are skipped, a frame whose first run wrote
/// a full copy or a body of the CDN is existing in the second, at the same path,
/// after the one look for its outputs: nothing is read, asked for or written.
/// No other frame writes what is looked for as its output.
pub proof fn law_second_run_skips_what_the_first_wrote(
    frames: Seq<MediaFrameInput>,
    first: MediaResolveOptions,
    second: MediaResolveOptions,
    files: Set<Seq<char>>,
    runs: Seq<Seq<EventView>>,
    again: Seq<Seq<EventView>>,
    k: int,
)
    requires
        first.skip_existing && second.skip_existing,
        first.output_dir@ == second.output_dir@,
        all_finish(frames, first, files, runs),
        all_finish(frames, second, files_after(frames, first, files, runs), again),
        0 <= k < frames.len(),
        named_as_a_file(frames[k]),
        forall|j: int|
            0 <= j < frames.len() && j != k ==> apart(
                frames[k],
                #[trigger] frames[j],
                first.output_dir@,
            ),
    ensures
        reached(frames[k], first, runs[k]) matches StepView::Done { tier, path, written: true, .. }
            ==> tier == MediaTier::Full || tier == MediaTier::Cdn ==> {
            &&& again[k].len() == 1
            &&& reached(frames[k], second, again[k]) matches StepView::Done {
                tier: MediaTier::Existing,
                path: found,
                written: false,
                ..
            } && found == path
        },
{
    let frame = frames[k];
    let start = files_after(frames.take(k), first, files, runs.take(k));
    let end = files_after(frames, first, files, runs);
    let now = files_after(frames.take(k), second, end, again.take(k));
    assert(finishes(frame, first, start, runs[k]));
    assert(finishes(frame, second, now, again[k]));
    if let Some(path) = output_of(frame, first, runs[k]) {
        lemma_all_fit(frames, first, files, runs);
        lemma_all_fit(frames, second, end, again);
        assert forall|p: Seq<char>| #[trigger]
            candidate_paths(frame, first.output_dir@).contains(p) && !start.contains(
                p,
            ) implies now.contains(p) == (p == path) by {
            lemma_only_the_output(frames, first, second, files, runs, again, k, path, p);
        }
        lemma_found_again(frame, first, second, start, now, runs[k], again[k], path);
    }
}

/// Runs that finish fit.
proof fn lemma_all_fit(
    frames: Seq<MediaFrameInput>,
    options: MediaResolveOptions,
    files: Set<Seq<char>>,
    runs: Seq<Seq<EventView>>,
)
    requires
        all_finish(frames, options, files, runs),
    ensures
        forall|i: int| 0 <= i < frames.len() ==> fitting_run(#[trigger] frames[i], options, runs[i]),
{
    assert forall|i: int| 0 <= i < frames.len() implies fitting_run(
        #[trigger] frames[i],
        options,
        runs[i],
    ) by {
        assert(finishes(
            frames[i],
            options,
            files_after(frames.take(i), options, files, runs.take(i)),
            runs[i],
        ));
    }
}

/// What a run wrote is found again, where no other output of the frame came up since.
proof fn lemma_found_again(
    frame: MediaFrameInput,
    first: MediaResolveOptions,
    second: MediaResolveOptions,
    start: Set<Seq<char>>,
    now: Set<Seq<char>>,
    run: Seq<EventView>,
    rerun: Seq<EventView>,
    path: Seq<char>,
)
    requires
        first.skip_existing && second.skip_existing,
        first.output_dir@ == second.output_dir@,
        finishes(frame, first, start, run),
        finishes(frame, second, now, rerun),
        named_as_a_file(frame),
        output_of(frame, first, run) == Some(path),
        forall|p: Seq<char>| #[trigger]
            candidate_paths(frame, first.output_dir@).contains(p) && !start.contains(p)
                ==> now.contains(p) == (p == path),
    ensures
        reached(frame, first, run) matches StepView::Done { tier, .. } ==> tier == MediaTier::Full
            || tier == MediaTier::Cdn ==> {
            &&& rerun.len() == 1
            &&& reached(frame, second, rerun) matches StepView::Done {
                tier: MediaTier::Existing,
                path: found,
                written: false,
                ..
            } && found == Some(path)
        },
{
    let paths = candidate_paths(frame, first.output_dir@);
    lemma_output(frame, first, run);
    lemma_first_event(frame, first, run);
    lemma_first_file(paths, start);
    lemma_first_file(paths, now);
    lemma_first_event(frame, second, rerun);
}

/// A run that looks for outputs first goes on only where there is none.
proof fn lemma_first_event(
    frame: MediaFrameInput,
    options: MediaResolveOptions,
    events: Seq<EventView>,
)
    requires
        options.skip_existing,
        fitting_run(frame, options, events),
        events.len() > 0,
    ensures
        events[0] is Output,
        events[0] matches EventView::Output(Some(path)) ==> events.len() == 1 && (reached(
            frame,
            options,
            events,
        ) matches StepView::Done {
            tier: MediaTier::Existing,
            reason,
            path: found,
            written: false,
            ..
        } && found == Some(path) && reason == "already-present"@),
    decreases events.len(),
{
    let front = events.drop_last();
    if front.len() > 0 {
        lemma_first_event(frame, options, front);
        assert(front[0] == events[0]);
    } else {
        assert(events.last() == events[0]);
    }
}

/// The callbacks that are asked. To the contracts a callback is a relation
/// between what it is handed and what it gives: it is the same after a call.
pub struct Callbacks<N, R, F> {
    pub find: N,
    pub read: R,
    pub fetcher: F,
}

/// The callbacks that are asked.
pub open spec fn callbacks<N, R, F>(find: N, read: R, fetcher: F) -> Callbacks<N, R, F> {
    Callbacks { find, read, fetcher }
}

/// Whether `event` answers what the machine waits for: one of the callbacks was
/// handed the request and gave it.
pub open spec fn answers<N, R, F>(
    by: Callbacks<N, R, F>,
    frame: MediaFrameInput,
    options: MediaResolveOptions,
    awaiting: Awaiting,
    event: EventView,
) -> bool where
    N: FnMut(&Vec<String>) -> Option<String>,
    R: FnMut(CacheStem, &str) -> Option<CachedFile>,
    F: FnMut(&str, u64, u64) -> Result<Vec<u8>, String>,
 {
    match awaiting {
        Awaiting::Output => exists|paths: &Vec<String>, out: Option<String>| #[trigger]
            call_ensures(by.find, (paths,), out) && views(paths@) == candidate_paths(
                frame,
                options.output_dir@,
            ) && event == EventView::Output(text_view(out)),
        Awaiting::Full => exists|ext: &str, out: Option<CachedFile>| #[trigger]
            call_ensures(by.read, (frame.full_stem, ext), out) && ext@ == frame.full_ext@ && event
                == EventView::Cache(file_view(out)),
        Awaiting::Cdn => exists|url: &str, out: Result<Vec<u8>, String>| #[trigger]
            call_ensures(by.fetcher, (url, options.cdn_timeout_secs, options.max_fetch_bytes), out)
                && url@ == url_of(frame) && event == EventView::Fetched(reply_view(out)),
        Awaiting::Thumb => exists|ext: &str, out: Option<CachedFile>| #[trigger]
            call_ensures(by.read, (frame.thumb_stem, ext), out) && ext@ == ".thm"@ && event
                == EventView::Cache(file_view(out)),
    }
}

/// Whether each of `events` is a callback's answer to what the run waited for
/// when it came.
pub open spec fn answered<N, R, F>(
    by: Callbacks<N, R, F>,
    frame: MediaFrameInput,
    options: MediaResolveOptions,
    events: Seq<EventView>,
) -> bool where
    N: FnMut(&Vec<String>) -> Option<String>,
    R: FnMut(CacheStem, &str) -> Option<CachedFile>,
    F: FnMut(&str, u64, u64) -> Result<Vec<u8>, String>,

    decreases events.len(),
{
    events.len() > 0 ==> {
        &&& answered(by, frame, options, events.drop_last())
        &&& reached(frame, options, events.drop_last()) matches StepView::Ask { awaiting, .. }
            && answers(by, frame, options, awaiting, events.last())
    }
}

/// Whether the callbacks' answers can have brought a run to wait for this.
pub open spec fn waits_for<N, R, F>(
    by: Callbacks<N, R, F>,
    frame: MediaFrameInput,
    options: MediaResolveOptions,
    awaiting: Awaiting,
) -> bool where
    N: FnMut(&Vec<String>) -> Option<String>,
    R: FnMut(CacheStem, &str) -> Option<CachedFile>,
    F: FnMut(&str, u64, u64) -> Result<Vec<u8>, String>,
 {
    exists|events: Seq<EventView>| #[trigger]
        answered(by, frame, options, events) && (reached(
            frame,
            options,
            events,
        ) matches StepView::Ask { awaiting: next, .. } && next == awaiting)
}

/// What is looked for: the candidates of the frame, where existing outputs are skipped.
pub open spec fn may_find(
    frame: MediaFrameInput,
    options: MediaResolveOptions,
    paths: Seq<Seq<char>>,
) -> bool {
    options.skip_existing && paths == candidate_paths(frame, options.output_dir@)
}

/// What is read from the cache: the full copy or the thumbnail of a frame of a
/// kind that is ever cached, when it is its turn.
pub open spec fn may_read<N, R, F>(
    by: Callbacks<N, R, F>,
    frame: MediaFrameInput,
    options: MediaResolveOptions,
    stem: CacheStem,
    ext: Seq<char>,
) -> bool where
    N: FnMut(&Vec<String>) -> Option<String>,
    R: FnMut(CacheStem, &str) -> Option<CachedFile>,
    F: FnMut(&str, u64, u64) -> Result<Vec<u8>, String>,
 {
    cached_kind(frame.kind) && {
        ||| stem == frame.full_stem && ext == frame.full_ext@ && waits_for(
            by,
            frame,
            options,
            Awaiting::Full,
        )
        ||| stem == frame.thumb_stem && ext == ".thm"@ && waits_for(
            by,
            frame,
            options,
            Awaiting::Thumb,
        )
    }
}

/// What the CDN is asked for: the address of a frame for which it may be asked,
/// within the limits, and only when nothing before it gave the frame.
pub open spec fn may_fetch<N, R, F>(
    by: Callbacks<N, R, F>,
    frame: MediaFrameInput,
    options: MediaResolveOptions,
    url: Seq<char>,
    timeout_secs: u64,
    max_bytes: u64,
) -> bool where
    N: FnMut(&Vec<String>) -> Option<String>,
    R: FnMut(CacheStem, &str) -> Option<CachedFile>,
    F: FnMut(&str, u64, u64) -> Result<Vec<u8>, String>,
 {
    &&& may_ask_cdn(frame, options)
    &&& url == url_of(frame)
    &&& timeout_secs == options.cdn_timeout_secs
    &&& max_bytes == options.max_fetch_bytes
    &&& waits_for(by, frame, options, Awaiting::Cdn)
}

/// What is written: never anything in a dry run, and else what a run ends with.
pub open spec fn may_save<N, R, F>(
    by: Callbacks<N, R, F>,
    frame: MediaFrameInput,
    options: MediaResolveOptions,
    path: Seq<char>,
    body: Seq<u8>,
) -> bool where
    N: FnMut(&Vec<String>) -> Option<String>,
    R: FnMut(CacheStem, &str) -> Option<CachedFile>,
    F: FnMut(&str, u64, u64) -> Result<Vec<u8>, String>,
 {
    !options.dry_run && exists|events: Seq<EventView>| #[trigger]
        answered(by, frame, options, events) && (reached(
            frame,
            options,
            events,
        ) matches StepView::Done { path: to, body: bytes, written: true, .. } && to == Some(path)
            && bytes == body)
}

/// Whether `save` was handed `body` for `path` and gave `result`.
pub open spec fn saved<S>(
    save: S,
    path: Seq<char>,
    body: Seq<u8>,
    result: Result<(), String>,
) -> bool where
    S: FnMut(&str, &Vec<u8>) -> Result<(), String>,
 {
    exists|to: &str, bytes: &Vec<u8>| #[trigger]
        call_ensures(save, (to, bytes), result) && to@ == path && bytes@ == body
}

/// Whether a run of the machine on the callbacks' answers ends with `record` and
/// `errors`, and what it was to write was written.
pub open spec fn resolves_to<N, R, F, S>(
    by: Callbacks<N, R, F>,
    save: S,
    frame: MediaFrameInput,
    options: MediaResolveOptions,
    record: MediaRecord,
    errors: Seq<MediaResolveError>,
) -> bool where
    N: FnMut(&Vec<String>) -> Option<String>,
    R: FnMut(CacheStem, &str) -> Option<CachedFile>,
    F: FnMut(&str, u64, u64) -> Result<Vec<u8>, String>,
    S: FnMut(&str, &Vec<u8>) -> Result<(), String>,
 {
    exists|events: Seq<EventView>| #[trigger]
        answered(by, frame, options, events) && (reached(
            frame,
            options,
            events,
        ) matches StepView::Done { tier, reason, path, body, written, errors: views } && {
            &&& record_is(record, frame, tier, reason, path, body)
            &&& errors_are(errors, frame, views)
            &&& written ==> path is Some && saved(save, path->0, body, Ok(()))
        })
}

/// Whether a run of the machine on the callbacks' answers ends with an output
/// that could not be written, for `reason`.
pub open spec fn fails_with<N, R, F, S>(
    by: Callbacks<N, R, F>,
    save: S,
    frame: MediaFrameInput,
    options: MediaResolveOptions,
    reason: String,
) -> bool where
    N: FnMut(&Vec<String>) -> Option<String>,
    R: FnMut(CacheStem, &str) -> Option<CachedFile>,
    F: FnMut(&str, u64, u64) -> Result<Vec<u8>, String>,
    S: FnMut(&str, &Vec<u8>) -> Result<(), String>,
 {
    exists|events: Seq<EventView>| #[trigger]
        answered(by, frame, options, events) && (reached(
            frame,
            options,
            events,
        ) matches StepView::Done { path, body, written, .. } && written && path is Some
            && saved(save, path->0, body, Err(reason)))
}

/// Whether the callbacks can be called for what a run on the frame asks of them.
/// Nothing else is asked.
pub open spec fn callable<N, R, F, S>(
    by: Callbacks<N, R, F>,
    save: S,
    frame: MediaFrameInput,
    options: MediaResolveOptions,
) -> bool where
    N: FnMut(&Vec<String>) -> Option<String>,
    R: FnMut(CacheStem, &str) -> Option<CachedFile>,
    F: FnMut(&str, u64, u64) -> Result<Vec<u8>, String>,
    S: FnMut(&str, &Vec<u8>) -> Result<(), String>,
 {
    &&& forall|paths: &Vec<String>|
        may_find(frame, options, views(paths@)) ==> #[trigger] call_requires(by.find, (paths,))
    &&& forall|stem: CacheStem, ext: &str|
        may_read(by, frame, options, stem, ext@) ==> #[trigger] call_requires(by.read, (stem, ext))
    &&& forall|url: &str, secs: u64, max: u64|
        may_fetch(by, frame, options, url@, secs, max) ==> #[trigger] call_requires(
            by.fetcher,
            (url, secs, max),
        )
    &&& forall|path: &str, body: &Vec<u8>|
        may_save(by, frame, options, path@, body@) ==> #[trigger] call_requires(save, (path, body))
}

/// Resolves one frame: `find` tells the first of some paths that is a file,
/// `read` reads a file of the cache, `fetcher` asks the CDN and `save` writes
/// the output. Each is called only for what the machine waits for. The result is
/// that of a run of the machine; it is an error only where `save` fails.
pub fn resolve_one<N, R, F, S>(
    frame: &MediaFrameInput,
    options: &MediaResolveOptions,
    find: &mut N,
    read: &mut R,
    fetcher: &mut F,
    save: &mut S,
) -> (r: Result<(MediaRecord, Vec<MediaResolveError>), String>) where
    N: FnMut(&Vec<String>) -> Option<String>,
    R: FnMut(CacheStem, &str) -> Option<CachedFile>,
    F: FnMut(&str, u64, u64) -> Result<Vec<u8>, String>,
    S: FnMut(&str, &Vec<u8>) -> Result<(), String>,

    requires
        callable(callbacks(*old(find), *old(read), *old(fetcher)), *old(save), *frame, *options),
    ensures
        match r {
            Ok((record, errors)) => resolves_to(
                callbacks(*old(find), *old(read), *old(fetcher)),
                *old(save),
                *frame,
                *options,
                record,
                errors@,
            ),
            Err(reason) => fails_with(
                callbacks(*old(find), *old(read), *old(fetcher)),
                *old(save),
                *frame,
                *options,
                reason,
            ),
        },
        options.dry_run ==> r is Ok,
        *final(find) == *old(find),
        *final(read) == *old(read),
        *final(fetcher) == *old(fetcher),
        *final(save) == *old(save),
{
    let ghost by = callbacks(*find, *read, *fetcher);
    let ghost saver = *save;
    let mut step = begin(frame, options);
    let ghost mut events: Seq<EventView> = seq![];
    let ghost mut left: nat = 5;
    loop
        invariant
            step_is(step, *frame, *options, reached(*frame, *options, events)),
            reached(*frame, *options, events) matches StepView::Ask { awaiting, .. } ==> rank(
                awaiting,
            ) < left,
            options.dry_run ==> harmless(reached(*frame, *options, events)),
            answered(by, *frame, *options, events),
            callable(by, saver, *frame, *options),
            by == callbacks(*find, *read, *fetcher),
            saver == *save,
            by == callbacks(*old(find), *old(read), *old(fetcher)),
            saver == *old(save),
        decreases left,
    {
        match step {
            Step::Done(finished) => {
                let ghost last = reached(*frame, *options, events);
                assert(last is Done);
                if let Some(bytes) = finished.output {
                    if let Some(path) = &finished.record.path {
                        let to = path.as_str();
                        assert(may_save(by, *frame, *options, to@, bytes@));
                        assert(call_requires(saver, (to, &bytes)));
                        let result = save(to, &bytes);
                        assert(call_ensures(saver, (to, &bytes), result));
                        match result {
                            Ok(done) => {
                                assert(done == ());
                            },
                            Err(reason) => return Err(reason),
                        }
                    }
                }
                return Ok((finished.record, finished.errors));
            },
            Step::Ask { progress, request } => {
                let ghost at = reached(*frame, *options, events);
                let ghost awaiting = progress.awaiting;
                assert(waits_for(by, *frame, *options, awaiting));
                let event = match request {
                    Request::FindOutput { paths } => {
                        assert(call_requires(by.find, (&paths,)));
                        let out = find(&paths);
                        assert(call_ensures(by.find, (&paths,), out));
                        Event::Output(out)
                    },
                    Request::ReadCache { stem, ext } => {
                        assert(may_read(by, *frame, *options, stem, ext@));
                        assert(call_requires(by.read, (stem, ext)));
                        let out = read(stem, ext);
                        assert(call_ensures(by.read, (stem, ext), out));
                        Event::Cache(out)
                    },
                    Request::Fetch { url, timeout_secs, max_bytes } => {
                        let address = url.as_str();
                        assert(may_fetch(
                            by,
                            *frame,
                            *options,
                            address@,
                            timeout_secs,
                            max_bytes,
                        ));
                        assert(call_requires(by.fetcher, (address, timeout_secs, max_bytes)));
                        let out = fetcher(address, timeout_secs, max_bytes);
                        assert(call_ensures(by.fetcher, (address, timeout_secs, max_bytes), out));
                        Event::Fetched(out)
                    },
                };
                let ghost seen = event_view(event);
                assert(answers(by, *frame, *options, awaiting, seen));
                let ghost why = progress.why@;
                let ghost failures = at->Ask_errors;
                step = advance(frame, options, progress, event);
                proof {
                    assert(events.push(seen).drop_last() =~= events);
                    law_ladder_descends(*frame, *options, awaiting, why, failures, seen);
                    if options.dry_run {
                        law_dry_run_changes_nothing(
                            *frame,
                            *options,
                            awaiting,
                            why,
                            failures,
                            seen,
                        );
                    }
                    left = rank(awaiting);
                    events = events.push(seen);
                }
            },
        }
    }
}

/// Whether `frames` end with `records`, one each and in order, and `errors` are
/// the failures of the first frame, then those of the second, and so on.
pub open spec fn all_resolved<N, R, F, S>(
    by: Callbacks<N, R, F>,
    save: S,
    frames: Seq<MediaFrameInput>,
    options: MediaResolveOptions,
    records: Seq<MediaRecord>,
    errors: Seq<MediaResolveError>,
) -> bool where
    N: FnMut(&Vec<String>) -> Option<String>,
    R: FnMut(CacheStem, &str) -> Option<CachedFile>,
    F: FnMut(&str, u64, u64) -> Result<Vec<u8>, String>,
    S: FnMut(&str, &Vec<u8>) -> Result<(), String>,

    decreases frames.len(),
{
    if frames.len() == 0 {
        records.len() == 0 && errors.len() == 0
    } else {
        &&& records.len() == frames.len()
        &&& exists|cut: int|
            0 <= cut <= errors.len() && all_resolved(
                by,
                save,
                frames.drop_last(),
                options,
                records.drop_last(),
                #[trigger] errors.take(cut),
            ) && resolves_to(
                by,
                save,
                frames.last(),
                options,
                records.last(),
                errors.skip(cut),
            )
    }
}

/// Resolves every frame, in order, and counts the tiers. The first output that
/// cannot be written ends the work.
pub fn resolve_media_frames_with_fetcher<N, R, F, S>(
    frames: &[MediaFrameInput],
    options: &MediaResolveOptions,
    find: &mut N,
    read: &mut R,
    fetcher: &mut F,
    save: &mut S,
) -> (r: Result<MediaReport, String>) where
    N: FnMut(&Vec<String>) -> Option<String>,
    R: FnMut(CacheStem, &str) -> Option<CachedFile>,
    F: FnMut(&str, u64, u64) -> Result<Vec<u8>, String>,
    S: FnMut(&str, &Vec<u8>) -> Result<(), String>,

    requires
        forall|i: int|
            0 <= i < frames@.len() ==> callable(
                callbacks(*old(find), *old(read), *old(fetcher)),
                *old(save),
                #[trigger] frames@[i],
                *options,
            ),
    ensures
        match r {
            Ok(report) => {
                &&& all_resolved(
                    callbacks(*old(find), *old(read), *old(fetcher)),
                    *old(save),
                    frames@,
                    *options,
                    report.records@,
                    report.errors@,
                )
                &&& counts_records(report.tier_counts, report.records@)
            },
            Err(reason) => exists|i: int|
                0 <= i < frames@.len() && fails_with(
                    callbacks(*old(find), *old(read), *old(fetcher)),
                    *old(save),
                    #[trigger] frames@[i],
                    *options,
                    reason,
                ),
        },
        options.dry_run || frames@.len() == 0 ==> r is Ok,
        *final(find) == *old(find),
        *final(read) == *old(read),
        *final(fetcher) == *old(fetcher),
        *final(save) == *old(save),
{
    let ghost by = callbacks(*find, *read, *fetcher);
    let ghost saver = *save;
    let mut records: Vec<MediaRecord> = Vec::new();
    let mut errors: Vec<MediaResolveError> = Vec::new();
    let mut tier_counts = TierCounts::zero();
    for i in 0..frames.len()
        invariant
            records@.len() == i,
            counts_records(tier_counts, records@),
            all_resolved(by, saver, frames@.take(i as int), *options, records@, errors@),
            forall|k: int|
                0 <= k < frames@.len() ==> callable(by, saver, #[trigger] frames@[k], *options),
            by == callbacks(*find, *read, *fetcher),
            saver == *save,
            by == callbacks(*old(find), *old(read), *old(fetcher)),
            saver == *old(save),
    {
        match resolve_one(&frames[i], options, find, read, fetcher, save) {
            Err(reason) => return Err(reason),
            Ok((record, mut found)) => {
                let ghost old_errors = errors@;
                let ghost own = found@;
                let ghost old_records = records@;
                count_record(&mut tier_counts, &records, &record);
                records.push(record);
                errors.append(&mut found);
                proof {
                    let cut = old_errors.len() as int;
                    assert(errors@ =~= old_errors + own);
                    assert(errors@.take(cut) =~= old_errors);
                    assert(errors@.skip(cut) =~= own);
                    assert(records@.drop_last() =~= old_records);
                    assert(frames@.take(i + 1).drop_last() =~= frames@.take(i as int));
                }
            },
        }
    }
    assert(frames@.take(frames@.len() as int) =~= frames@);
    Ok(MediaReport { records, errors, tier_counts })
}

// ---------------------------------------------------------------------------
// Two calls over one directory
// ---------------------------------------------------------------------------

/// Whether `find` answers from the files.
pub open spec fn finds_among<N>(find: N, files: Set<Seq<char>>) -> bool where
    N: FnMut(&Vec<String>) -> Option<String>,
 {
    forall|paths: &Vec<String>, out: Option<String>| #[trigger]
        call_ensures(find, (paths,), out) ==> text_view(out) == first_file(views(paths@), files)
}

/// Whether the record says that a file was written, and to which path.
pub open spec fn tells_output(record: MediaRecord, path: Seq<char>) -> bool {
    &&& record.tier == MediaTier::Full || record.tier == MediaTier::Cdn || record.tier
        == MediaTier::Thumb
    &&& text_view(record.path) == Some(path)
}

/// The files that a call wrote.
pub open spec fn outputs_of(records: Seq<MediaRecord>) -> Set<Seq<char>> {
    Set::new(
        |path: Seq<char>|
            exists|i: int| 0 <= i < records.len() && tells_output(#[trigger] records[i], path),
    )
}

/// Answers fit what was waited for.
proof fn lemma_answered_fits<N, R, F>(
    by: Callbacks<N, R, F>,
    frame: MediaFrameInput,
    options: MediaResolveOptions,
    events: Seq<EventView>,
) where
    N: FnMut(&Vec<String>) -> Option<String>,
    R: FnMut(CacheStem, &str) -> Option<CachedFile>,
    F: FnMut(&str, u64, u64) -> Result<Vec<u8>, String>,

    requires
        answered(by, frame, options, events),
    ensures
        fitting_run(frame, options, events),
    decreases events.len(),
{
    if events.len() > 0 {
        lemma_answered_fits(by, frame, options, events.drop_last());
    }
}

/// Each frame was resolved.
proof fn lemma_resolved_at<N, R, F, S>(
    by: Callbacks<N, R, F>,
    save: S,
    frames: Seq<MediaFrameInput>,
    options: MediaResolveOptions,
    records: Seq<MediaRecord>,
    errors: Seq<MediaResolveError>,
    k: int,
) where
    N: FnMut(&Vec<String>) -> Option<String>,
    R: FnMut(CacheStem, &str) -> Option<CachedFile>,
    F: FnMut(&str, u64, u64) -> Result<Vec<u8>, String>,
    S: FnMut(&str, &Vec<u8>) -> Result<(), String>,

    requires
        all_resolved(by, save, frames, options, records, errors),
        0 <= k < frames.len(),
    ensures
        records.len() == frames.len(),
        exists|own: Seq<MediaResolveError>| #[trigger]
            resolves_to(by, save, frames[k], options, records[k], own),
    decreases frames.len(),
{
    let cut = choose|cut: int|
        0 <= cut <= errors.len() && all_resolved(
            by,
            save,
            frames.drop_last(),
            options,
            records.drop_last(),
            #[trigger] errors.take(cut),
        ) && resolves_to(by, save, frames.last(), options, records.last(), errors.skip(cut));
    if k == frames.len() - 1 {
        assert(resolves_to(by, save, frames[k], options, records[k], errors.skip(cut)));
    } else {
        lemma_resolved_at(
            by,
            save,
            frames.drop_last(),
            options,
            records.drop_last(),
            errors.take(cut),
            k,
        );
        assert(frames.drop_last()[k] == frames[k]);
        assert(records.drop_last()[k] == records[k]);
    }
}

/// What is found is written, but in a dry run.
proof fn lemma_found_is_written(
    frame: MediaFrameInput,
    options: MediaResolveOptions,
    events: Seq<EventView>,
)
    requires
        !options.dry_run,
    ensures
        reached(frame, options, events) matches StepView::Done { tier, written, .. } ==> (tier
            == MediaTier::Full || tier == MediaTier::Cdn || tier == MediaTier::Thumb) ==> written,
    decreases events.len(),
{
    if events.len() > 0 {
        lemma_found_is_written(frame, options, events.drop_last());
    }
}

/// What a record tells to be written has a name of its frame, and is looked for
/// as an output of it but for a thumbnail.
proof fn lemma_told_output<N, R, F, S>(
    by: Callbacks<N, R, F>,
    save: S,
    frame: MediaFrameInput,
    options: MediaResolveOptions,
    record: MediaRecord,
    own: Seq<MediaResolveError>,
    path: Seq<char>,
) where
    N: FnMut(&Vec<String>) -> Option<String>,
    R: FnMut(CacheStem, &str) -> Option<CachedFile>,
    F: FnMut(&str, u64, u64) -> Result<Vec<u8>, String>,
    S: FnMut(&str, &Vec<u8>) -> Result<(), String>,

    requires
        resolves_to(by, save, frame, options, record, own),
        !options.dry_run,
        tells_output(record, path),
    ensures
        exists|name: Seq<char>| #[trigger]
            is_output_name(frame, name) && path == joined(options.output_dir@, name),
        record.tier != MediaTier::Thumb && named_as_a_file(frame) ==> candidate_paths(
            frame,
            options.output_dir@,
        ).contains(path),
{
    let events = choose|events: Seq<EventView>| #[trigger]
        answered(by, frame, options, events) && (reached(
            frame,
            options,
            events,
        ) matches StepView::Done { tier, reason, path, body, written, errors: views } && {
            &&& record_is(record, frame, tier, reason, path, body)
            &&& errors_are(own, frame, views)
            &&& written ==> path is Some && saved(save, path->0, body, Ok(()))
        });
    lemma_answered_fits(by, frame, options, events);
    lemma_found_is_written(frame, options, events);
    lemma_output(frame, options, events);
}

/// Where `find` finds an output of the frame, a run asks nothing more.
proof fn lemma_found_run<N, R, F>(
    by: Callbacks<N, R, F>,
    frame: MediaFrameInput,
    options: MediaResolveOptions,
    files: Set<Seq<char>>,
    path: Seq<char>,
    events: Seq<EventView>,
) where
    N: FnMut(&Vec<String>) -> Option<String>,
    R: FnMut(CacheStem, &str) -> Option<CachedFile>,
    F: FnMut(&str, u64, u64) -> Result<Vec<u8>, String>,

    requires
        options.skip_existing,
        finds_among(by.find, files),
        first_file(candidate_paths(frame, options.output_dir@), files) == Some(path),
        answered(by, frame, options, events),
    ensures
        match reached(frame, options, events) {
            StepView::Ask { awaiting, .. } => awaiting == Awaiting::Output,
            StepView::Done { tier, reason, path: found, written, .. } => tier
                == MediaTier::Existing && reason == "already-present"@ && found == Some(path)
                && !written,
        },
    decreases events.len(),
{
    if events.len() > 0 {
        let front = events.drop_last();
        lemma_found_run(by, frame, options, files, path, front);
        assert(answers(by, frame, options, Awaiting::Output, events.last()));
    }
}

/// A second call over the same directory skips what the first one saved: where
/// existing outputs are skipped and the files of the frame are those that the
/// first call wrote, a frame of the first call that is a full copy or a body of
/// the CDN is existing in the second, at the same path. For it the second call
/// reads nothing from the cache, asks the CDN for nothing and writes nothing,
/// and what it writes for other frames goes elsewhere.
/// No other frame writes what is looked for as an output of the frame.
pub proof fn law_second_call_skips_what_the_first_saved<N, R, F, S, N2, R2, F2, S2>(
    frames: Seq<MediaFrameInput>,
    options: (MediaResolveOptions, MediaResolveOptions),
    by: Callbacks<N, R, F>,
    save: S,
    report: (Seq<MediaRecord>, Seq<MediaResolveError>),
    again_by: Callbacks<N2, R2, F2>,
    again_save: S2,
    again: (Seq<MediaRecord>, Seq<MediaResolveError>),
    files: Set<Seq<char>>,
    k: int,
) where
    N: FnMut(&Vec<String>) -> Option<String>,
    R: FnMut(CacheStem, &str) -> Option<CachedFile>,
    F: FnMut(&str, u64, u64) -> Result<Vec<u8>, String>,
    S: FnMut(&str, &Vec<u8>) -> Result<(), String>,
    N2: FnMut(&Vec<String>) -> Option<String>,
    R2: FnMut(CacheStem, &str) -> Option<CachedFile>,
    F2: FnMut(&str, u64, u64) -> Result<Vec<u8>, String>,
    S2: FnMut(&str, &Vec<u8>) -> Result<(), String>,

    requires
        !options.0.dry_run && options.1.skip_existing,
        options.0.output_dir@ == options.1.output_dir@,
        all_resolved(by, save, frames, options.0, report.0, report.1),
        all_resolved(again_by, again_save, frames, options.1, again.0, again.1),
        finds_among(again_by.find, files),
        0 <= k < frames.len(),
        named_as_a_file(frames[k]),
        forall|j: int|
            0 <= j < frames.len() && j != k ==> apart(
                frames[k],
                #[trigger] frames[j],
                options.0.output_dir@,
            ),
        forall|path: Seq<char>| #[trigger]
            candidate_paths(frames[k], options.0.output_dir@).contains(path) ==> (files.contains(
                path,
            ) <==> outputs_of(report.0).contains(path)),
    ensures
        report.0[k].tier == MediaTier::Full || report.0[k].tier == MediaTier::Cdn ==> {
            &&& again.0[k].tier == MediaTier::Existing
            &&& again.0[k].tier_reason@ == "already-present"@
            &&& report.0[k].path is Some
            &&& text_view(again.0[k].path) == text_view(report.0[k].path)
            &&& forall|awaiting: Awaiting|
                awaiting != Awaiting::Output ==> !#[trigger] waits_for(
                    again_by,
                    frames[k],
                    options.1,
                    awaiting,
                )
            &&& forall|path: Seq<char>, body: Seq<u8>|
                !#[trigger] may_save(again_by, frames[k], options.1, path, body)
            &&& forall|j: int, path: Seq<char>, body: Seq<u8>|
                0 <= j < frames.len() && #[trigger] may_save(
                    again_by,
                    frames[j],
                    options.1,
                    path,
                    body,
                ) ==> Some(path) != text_view(report.0[k].path)
        },
{
    let frame = frames[k];
    let dir = options.0.output_dir@;
    let record = report.0[k];
    lemma_resolved_at(by, save, frames, options.0, report.0, report.1, k);
    lemma_resolved_at(again_by, again_save, frames, options.1, again.0, again.1, k);
    if record.tier == MediaTier::Full || record.tier == MediaTier::Cdn {
        let own = choose|own: Seq<MediaResolveError>| #[trigger]
            resolves_to(by, save, frame, options.0, record, own);
        lemma_path_is_told(by, save, frame, options.0, record, own);
        let path = text_view(record.path)->0;
        assert(tells_output(record, path));
        lemma_told_output(by, save, frame, options.0, record, own, path);
        let paths = candidate_paths(frame, dir);
        assert forall|p: Seq<char>| #[trigger] paths.contains(p) implies files.contains(p) == (p
            == path) by {
            if files.contains(p) && p != path {
                let j = choose|j: int|
                    0 <= j < report.0.len() && tells_output(#[trigger] report.0[j], p);
                assert(j != k);
                lemma_resolved_at(by, save, frames, options.0, report.0, report.1, j);
                let other = choose|own: Seq<MediaResolveError>| #[trigger]
                    resolves_to(by, save, frames[j], options.0, report.0[j], own);
                lemma_told_output(by, save, frames[j], options.0, report.0[j], other, p);
                assert(apart(frame, frames[j], dir));
            }
            if p == path {
                assert(tells_output(report.0[k], path));
                assert(outputs_of(report.0).contains(path));
            }
        }
        lemma_first_file(paths, files);
        assert(first_file(paths, files) == Some(path));
        lemma_second_look(again_by, again_save, frame, options.1, again.0[k], files, path);
        assert forall|j: int, p: Seq<char>, body: Seq<u8>|
            0 <= j < frames.len() && #[trigger] may_save(
                again_by,
                frames[j],
                options.1,
                p,
                body,
            ) implies Some(p) != text_view(record.path) by {
            if j != k {
                let events = choose|events: Seq<EventView>| #[trigger]
                    answered(again_by, frames[j], options.1, events) && (reached(
                        frames[j],
                        options.1,
                        events,
                    ) matches StepView::Done { path: to, body: bytes, written: true, .. } && to
                        == Some(p) && bytes == body);
                lemma_answered_fits(again_by, frames[j], options.1, events);
                lemma_output(frames[j], options.1, events);
                assert(apart(frame, frames[j], dir));
            }
        }
    }
}

/// A record of what was found has a path, but in a dry run.
proof fn lemma_path_is_told<N, R, F, S>(
    by: Callbacks<N, R, F>,
    save: S,
    frame: MediaFrameInput,
    options: MediaResolveOptions,
    record: MediaRecord,
    own: Seq<MediaResolveError>,
) where
    N: FnMut(&Vec<String>) -> Option<String>,
    R: FnMut(CacheStem, &str) -> Option<CachedFile>,
    F: FnMut(&str, u64, u64) -> Result<Vec<u8>, String>,
    S: FnMut(&str, &Vec<u8>) -> Result<(), String>,

    requires
        resolves_to(by, save, frame, options, record, own),
        !options.dry_run,
        record.tier == MediaTier::Full || record.tier == MediaTier::Cdn,
    ensures
        record.path is Some,
{
    let events = choose|events: Seq<EventView>| #[trigger]
        answered(by, frame, options, events) && (reached(
            frame,
            options,
            events,
        ) matches StepView::Done { tier, reason, path, body, written, errors: views } && {
            &&& record_is(record, frame, tier, reason, path, body)
            &&& errors_are(own, frame, views)
            &&& written ==> path is Some && saved(save, path->0, body, Ok(()))
        });
    lemma_found_is_written(frame, options, events);
}

/// Where `find` finds an output of the frame, the frame is done with it.
proof fn lemma_second_look<N, R, F, S>(
    by: Callbacks<N, R, F>,
    save: S,
    frame: MediaFrameInput,
    options: MediaResolveOptions,
    record: MediaRecord,
    files: Set<Seq<char>>,
    path: Seq<char>,
) where
    N: FnMut(&Vec<String>) -> Option<String>,
    R: FnMut(CacheStem, &str) -> Option<CachedFile>,
    F: FnMut(&str, u64, u64) -> Result<Vec<u8>, String>,
    S: FnMut(&str, &Vec<u8>) -> Result<(), String>,

    requires
        options.skip_existing,
        finds_among(by.find, files),
        first_file(candidate_paths(frame, options.output_dir@), files) == Some(path),
        exists|own: Seq<MediaResolveError>| #[trigger]
            resolves_to(by, save, frame, options, record, own),
    ensures
        record.tier == MediaTier::Existing,
        record.tier_reason@ == "already-present"@,
        text_view(record.path) == Some(path),
        forall|awaiting: Awaiting|
            awaiting != Awaiting::Output ==> !#[trigger] waits_for(by, frame, options, awaiting),
        forall|to: Seq<char>, body: Seq<u8>| !#[trigger] may_save(by, frame, options, to, body),
{
    let own = choose|own: Seq<MediaResolveError>| #[trigger]
        resolves_to(by, save, frame, options, record, own);
    let events = choose|events: Seq<EventView>| #[trigger]
        answered(by, frame, options, events) && (reached(
            frame,
            options,
            events,
        ) matches StepView::Done { tier, reason, path, body, written, errors: views } && {
            &&& record_is(record, frame, tier, reason, path, body)
            &&& errors_are(own, frame, views)
            &&& written ==> path is Some && saved(save, path->0, body, Ok(()))
        });
    lemma_found_run(by, frame, options, files, path, events);
    assert forall|awaiting: Awaiting| awaiting != Awaiting::Output implies !#[trigger] waits_for(
        by,
        frame,
        options,
        awaiting,
    ) by {
        if waits_for(by, frame, options, awaiting) {
            let events = choose|events: Seq<EventView>| #[trigger]
                answered(by, frame, options, events) && (reached(
                    frame,
                    options,
                    events,
                ) matches StepView::Ask { awaiting: next, .. } && next == awaiting);
            lemma_found_run(by, frame, options, files, path, events);
        }
    }
    assert forall|to: Seq<char>, body: Seq<u8>| !#[trigger] may_save(
        by,
        frame,
        options,
        to,
        body,
    ) by {
        if may_save(by, frame, options, to, body) {
            let events = choose|events: Seq<EventView>| #[trigger]
                answered(by, frame, options, events) && (reached(
                    frame,
                    options,
                    events,
                ) matches StepView::Done { path: p, body: bytes, written: true, .. } && p == Some(
                    to,
                ) && bytes == body);
            lemma_found_run(by, frame, options, files, path, events);
        }
    }
}

/// Counts one more record.
fn count_record(counts: &mut TierCounts, records: &Vec<MediaRecord>, record: &MediaRecord)
    requires
        counts_records(*old(counts), records@),
        records@.len() < usize::MAX,
    ensures
        counts_records(*final(counts), records@.push(*record)),
{
    proof {
        lemma_tier_count_bound(records@, record.tier);
        assert(records@.push(*record).drop_last() =~= records@);
        assert(count_of(*counts, record.tier) == tier_count(records@, record.tier));
        assert(count_of(*counts, MediaTier::Full) == tier_count(records@, MediaTier::Full));
        assert(count_of(*counts, MediaTier::Cdn) == tier_count(records@, MediaTier::Cdn));
        assert(count_of(*counts, MediaTier::Thumb) == tier_count(records@, MediaTier::Thumb));
        assert(count_of(*counts, MediaTier::Stub) == tier_count(records@, MediaTier::Stub));
        assert(count_of(*counts, MediaTier::Existing) == tier_count(records@, MediaTier::Existing));
        assert(count_of(*counts, MediaTier::Planned) == tier_count(records@, MediaTier::Planned));
    }
    match record.tier {
        MediaTier::Full => {
            counts.full = counts.full + 1;
        },
        MediaTier::Cdn => {
            counts.cdn = counts.cdn + 1;
        },
        MediaTier::Thumb => {
            counts.thumb = counts.thumb + 1;
        },
        MediaTier::Stub => {
            counts.stub = counts.stub + 1;
        },
        MediaTier::Existing => {
            counts.existing = counts.existing + 1;
        },
        MediaTier::Planned => {
            counts.planned = counts.planned + 1;
        },
    }
}

/// A frame's record is of that frame and says all that is known of it; where bytes
/// are to be written they are the ones that were found, the record gives their
/// path, and their own digest.
pub proof fn law_a_record_shows_its_frame(
    finished: Finished,
    frame: MediaFrameInput,
    options: MediaResolveOptions,
    view: StepView,
)
    ensures
        step_is(Step::Done(finished), frame, options, view) ==> {
            let r = finished.record;
            &&& r.log_id == frame.log_id && r.idx == frame.idx && r.kind == frame.kind
            &&& r.name == frame.filename && r.width == frame.width && r.height == frame.height
            &&& r.checksum_sha1 == frame.checksum_sha1 && r.size_bytes == frame.size_bytes
            &&& r.sender == frame.sender && r.sent_at == frame.sent_at
            &&& finished.output matches Some(bytes) ==> {
                &&& view matches StepView::Done { body, .. } && body == bytes@
                &&& r.path is Some
                &&& bytes@.len() > 0 ==> (r.sha1 matches Some(digest) && digest@ == sha1_hex(
                    bytes@,
                ))
            }
            &&& forall|i: int|
                0 <= i < finished.errors@.len() ==> (#[trigger] finished.errors@[i]).log_id
                    == frame.log_id && finished.errors@[i].idx == frame.idx
        },
{
    if step_is(Step::Done(finished), frame, options, view) {
        if let StepView::Done { tier, reason, path, body, written, errors } = view {
            assert forall|i: int| 0 <= i < finished.errors@.len() implies (
            #[trigger] finished.errors@[i]).log_id == frame.log_id && finished.errors@[i].idx
                == frame.idx by {
                assert(error_is(finished.errors@[i], frame, errors[i]));
            }
        }
    }
}

/// The machine asks for what is the frame's own: its copy in the cache, its
/// thumbnail, its address within the limits that were set.
pub proof fn law_requests_are_for_the_frame(
    request: Request,
    frame: MediaFrameInput,
    options: MediaResolveOptions,
    awaiting: Awaiting,
)
    requires
        ready(awaiting, frame, options),
    ensures
        request_is(request, frame, options, awaiting) ==> match request {
            Request::FindOutput { paths } => awaiting == Awaiting::Output,
            Request::ReadCache { stem, ext } => (stem == frame.full_stem && ext == frame.full_ext)
                || (stem == frame.thumb_stem && ext@ == ".thm"@),
            Request::Fetch { url, timeout_secs, max_bytes } => (frame.cdn_url matches Some(own)
                && own@ == url@) && timeout_secs == options.cdn_timeout_secs && max_bytes
                == options.max_fetch_bytes,
        },
{
}

/// What is found is kept, whole, in the output directory under the frame's name,
/// unless this is a dry run: the full copy before anything else, a fetched body
/// that has the declared digest, and the thumbnail as one.
pub proof fn law_what_is_found_is_kept(
    frame: MediaFrameInput,
    options: MediaResolveOptions,
    why: Seq<Reason>,
    errors: Seq<ErrorView>,
    path: Seq<char>,
    file: Seq<u8>,
    body: Seq<u8>,
)
    requires
        !options.dry_run,
    ensures
        ({
            let cached = EventView::Cache(Some(FileView { path, content: Ok(file) }));
            let fetched = EventView::Fetched(Ok(body));
            let dir = options.output_dir@;
            &&& pkv2_image(file, frame.log_id as int) == Ok::<Seq<u8>, Seq<char>>(body) ==> {
                &&& advanced(frame, options, Awaiting::Full, why, errors, cached) matches
                    StepView::Done { tier, path, body: kept, written, errors: told, .. } && tier
                    == MediaTier::Full && path == Some(
                    joined(dir, frame.output_stem@ + sniffed_ext(body)),
                ) && kept == body && written && told == errors
                &&& advanced(frame, options, Awaiting::Thumb, why, errors, cached) matches
                    StepView::Done { tier, path, body: kept, written, errors: told, .. } && tier
                    == MediaTier::Thumb && path == Some(
                    joined(dir, frame.output_stem@ + "_thumb"@ + sniffed_ext(body)),
                ) && kept == body && written && told == errors
            }
            &&& (frame.checksum_sha1 matches Some(cs) && cs@ == sha1_hex(body)) ==> (advanced(
                frame,
                options,
                Awaiting::Cdn,
                why,
                errors,
                fetched,
            ) matches StepView::Done { tier, path, body: kept, written, errors: told, .. } && tier
                == MediaTier::Cdn && kept == body && written && told == errors && (
            frame.filename is None ==> path == Some(
                joined(dir, frame.output_stem@ + sniffed_ext(body)),
            )))
        }),
{
}

/// What is not found leads on: a copy that is missing or cannot be opened to the
/// CDN or the thumbnail, a body that cannot be had to the thumbnail; and a failure
/// on the way is told once, with its stage, its file and its reason.
pub proof fn law_what_fails_leads_on(
    frame: MediaFrameInput,
    options: MediaResolveOptions,
    why: Seq<Reason>,
    errors: Seq<ErrorView>,
    path: Seq<char>,
    reason: Seq<char>,
)
    requires
        cached_kind(frame.kind),
    ensures
        ({
            let broken = EventView::Cache(Some(FileView { path, content: Err(reason) }));
            let told = errors.push(ErrorView { stage: "full"@, path, error: reason });
            &&& may_ask_cdn(frame, options) ==> advanced(
                frame,
                options,
                Awaiting::Full,
                why,
                errors,
                EventView::Cache(None),
            ) == (StepView::Ask {
                awaiting: Awaiting::Cdn,
                why: why.push(Reason::FullNotCached),
                errors,
            })
            &&& may_ask_cdn(frame, options) ==> advanced(
                frame,
                options,
                Awaiting::Full,
                why,
                errors,
                broken,
            ) == (StepView::Ask {
                awaiting: Awaiting::Cdn,
                why: why.push(Reason::FullDecryptFailed),
                errors: told,
            })
            &&& !options.cdn_enabled ==> advanced(
                frame,
                options,
                Awaiting::Full,
                why,
                errors,
                EventView::Cache(None),
            ) == (StepView::Ask {
                awaiting: Awaiting::Thumb,
                why: why.push(Reason::FullNotCached),
                errors,
            })
            &&& frame.cdn_url matches Some(url) ==> advanced(
                frame,
                options,
                Awaiting::Cdn,
                why,
                errors,
                EventView::Fetched(Err(reason)),
            ) == (StepView::Ask {
                awaiting: Awaiting::Thumb,
                why: why.push(Reason::CdnFailed),
                errors: errors.push(
                    ErrorView { stage: "cdn"@, path: redacted(url@), error: reason },
                ),
            })
        }),
{
}

/// The CDN is asked wherever it may be; where it may not, the first thing that
/// stands against it is the reason.
pub proof fn law_the_plan_names_what_stands_against_it(
    frame: MediaFrameInput,
    options: MediaResolveOptions,
)
    ensures
        cdn_plan(frame, options) is Fetch <==> may_ask_cdn(frame, options),
        cdn_plan(frame, options) is Off <==> frame.cdn_url is None || !options.cdn_enabled,
        cdn_plan(frame, options) is Expired ==> expired(url_of(frame), options.now_epoch as int),
        cdn_plan(frame, options) is TooLarge ==> (frame.size_bytes matches Some(size) && size
            > options.max_fetch_bytes) && !expired(url_of(frame), options.now_epoch as int),
        cdn_plan(frame, options) is Unverifiable ==> frame.checksum_sha1 is None
            || frame.checksum_sha1->0@.len() == 0,
        cdn_plan(frame, options) is WouldFetch ==> options.dry_run,
{
}

/// A signature is good up to its last second, and never again after; a declared
/// size is refused only above the limit.
pub proof fn law_limits_are_inclusive(
    url: Seq<char>,
    seconds: int,
    now: int,
    frame: MediaFrameInput,
    size: i64,
    max: int,
)
    ensures
        first_expires(url_parts(url)) is None ==> !expired(url, now),
        (first_expires(url_parts(url)) matches Some(s) && s == seconds) ==> (expired(url, now)
            <==> now > seconds),
        frame.size_bytes == Some(size) && size > 0 && max >= 0 ==> (oversized(frame, max) <==> size
            > max),
        frame.size_bytes is None ==> !oversized(frame, max),
{
}

/// The reasons that concern the CDN are those that are not about the full copy, in
/// order.
pub proof fn law_cdn_reasons_are_picked_out(why: Seq<Reason>, r: Reason)
    ensures
        cdn_reasons(why).contains(r) <==> why.contains(r) && r != Reason::FullDecryptFailed && r
            != Reason::FullNotCached,
        r != Reason::FullDecryptFailed && r != Reason::FullNotCached ==> cdn_reasons(why.push(r))
            == cdn_reasons(why).push(r),
    decreases why.len(),
{
    assert(why.push(r).drop_last() =~= why);
    if why.len() > 0 {
        let front = why.drop_last();
        let all = cdn_reasons(why);
        let held = cdn_reasons(front);
        law_cdn_reasons_are_picked_out(front, r);
        assert(why[why.len() - 1] == why.last());
        if why.contains(r) && r != Reason::FullDecryptFailed && r != Reason::FullNotCached {
            let i = choose|i: int| 0 <= i < why.len() && why[i] == r;
            if i < front.len() {
                assert(front[i] == r);
                let k = choose|k: int| 0 <= k < held.len() && held[k] == r;
                assert(all[k] == r);
            } else {
                assert(all[held.len() as int] == r);
            }
        }
        if all.contains(r) {
            let k = choose|k: int| 0 <= k < all.len() && all[k] == r;
            if k < held.len() {
                assert(held[k] == r);
                let i = choose|i: int| 0 <= i < front.len() && front[i] == r;
                assert(why[i] == r);
            }
        }
    }
}

/// A frame of which nothing was found says why: its reason starts with how the
/// cache failed and holds the word for everything that stood against the CDN.
pub proof fn law_a_stub_says_why(
    frame: MediaFrameInput,
    why: Seq<Reason>,
    errors: Seq<ErrorView>,
    thumb_failed: bool,
    i: int,
)
    ensures
        stub(frame, why, errors, thumb_failed) matches StepView::Done {
            tier,
            reason,
            path,
            body,
            written,
            errors: told,
        } && {
            &&& tier == MediaTier::Stub
            &&& path is None
            &&& !written
            &&& told == errors
            &&& 0 <= i < cdn_reasons(why).len() ==> contains_text(
                reason,
                reason_text(cdn_reasons(why)[i]),
            )
            &&& thumb_failed || why.contains(Reason::FullDecryptFailed) ==> occurs_at(
                reason,
                "decrypt-failed"@,
                0,
            )
            &&& !thumb_failed && !why.contains(Reason::FullDecryptFailed) && frame.kind is File
                ==> occurs_at(reason, "unavailable"@, 0)
            &&& !thumb_failed && !why.contains(Reason::FullDecryptFailed) && !(frame.kind is File)
                ==> occurs_at(reason, "not-cached"@, 0)
        },
{
    let words = stub_words(frame, why, thumb_failed);
    let reason = join(words, "+"@);
    law_join_holds_every_part(words, "+"@);
    assert(words[0] == stub_head(frame, why, thumb_failed));
    assert(part_start(words, "+"@.len(), 0) == 0);
    assert(reason.subrange(0, words[0].len() as int) == words[0]);
    assert(occurs_at(reason, words[0], 0));
    if 0 <= i < cdn_reasons(why).len() {
        let word = reason_text(cdn_reasons(why)[i]);
        assert(words[i + 1] == word);
        let at = part_start(words, "+"@.len(), i + 1);
        assert(occurs_at(reason, word, at));
    }
}

/// The sentence that refuses a size names that size and the limit.
pub proof fn law_the_refusal_names_size_and_limit(
    frame: MediaFrameInput,
    options: MediaResolveOptions,
)
    ensures
        frame.size_bytes matches Some(size) ==> contains_text(
            too_large_text(frame, options),
            decimal_int(size as int),
        ),
        contains_text(too_large_text(frame, options), decimal(options.max_fetch_bytes as nat)),
{
    if let Some(size) = frame.size_bytes {
        let limit = decimal(options.max_fetch_bytes as nat);
        let text = too_large_text(frame, options);
        let number = decimal_int(size as int);
        law_a_text_holds_its_middle(
            "attachment declares "@,
            number,
            " bytes, above the "@ + limit + " byte fetch limit"@,
        );
        assert("attachment declares "@ + number + (" bytes, above the "@ + limit
            + " byte fetch limit"@) =~= text);
    }
    let size = match frame.size_bytes {
        Some(size) => size as int,
        None => 0,
    };
    law_a_text_holds_its_middle(
        "attachment declares "@ + decimal_int(size) + " bytes, above the "@,
        decimal(options.max_fetch_bytes as nat),
        " byte fetch limit"@,
    );
}

/// A dry run finds what a run would have found, and leaves it where it is.
pub proof fn law_a_dry_run_finds_the_same(
    frame: MediaFrameInput,
    options: MediaResolveOptions,
    why: Seq<Reason>,
    errors: Seq<ErrorView>,
    path: Seq<char>,
    file: Seq<u8>,
    body: Seq<u8>,
)
    requires
        options.dry_run,
    ensures
        pkv2_image(file, frame.log_id as int) == Ok::<Seq<u8>, Seq<char>>(body) ==> {
            let cached = EventView::Cache(Some(FileView { path, content: Ok(file) }));
            &&& advanced(frame, options, Awaiting::Full, why, errors, cached) matches
                StepView::Done { tier, path, body: seen, written, errors: told, .. } && tier
                == MediaTier::Full && path is None && seen == body && !written && told == errors
            &&& advanced(frame, options, Awaiting::Thumb, why, errors, cached) matches
                StepView::Done { tier, path, body: seen, written, errors: told, .. } && tier
                == MediaTier::Thumb && path is None && seen == body && !written && told == errors
        },
        may_ask_cdn(frame, MediaResolveOptions { dry_run: false, ..options }) ==> (advanced(
            frame,
            options,
            Awaiting::Full,
            why,
            errors,
            EventView::Cache(None),
        ) matches StepView::Done { tier, path, written, errors: told, .. } && tier
            == MediaTier::Planned && path is None && !written && told == errors),
{
}

/// What was found on a lower rung says why: the reason names everything that stood
/// against the rungs above.
pub proof fn law_a_lower_rung_says_why(
    frame: MediaFrameInput,
    options: MediaResolveOptions,
    why: Seq<Reason>,
    errors: Seq<ErrorView>,
    awaiting: Awaiting,
    event: EventView,
    i: int,
)
    requires
        0 <= i < why.len(),
        awaiting == Awaiting::Cdn || awaiting == Awaiting::Thumb,
    ensures
        advanced(frame, options, awaiting, why, errors, event) matches StepView::Done {
            tier,
            reason,
            ..
        } ==> (tier == MediaTier::Cdn || tier == MediaTier::Thumb) ==> contains_text(
            reason,
            reason_text(why[i]),
        ),
{
    let words = reason_texts(why);
    let more = words.push("cdn-fetched"@);
    law_join_holds_every_part(words, "+"@);
    law_join_holds_every_part(more, "+"@);
    assert(words[i] == reason_text(why[i]));
    assert(more[i] == words[i]);
    assert(occurs_at(join(words, "+"@), words[i], part_start(words, "+"@.len(), i)));
    assert(occurs_at(join(more, "+"@), more[i], part_start(more, "+"@.len(), i)));
}

/// What stands against the CDN is told: an address that expired and an attachment
/// that is too large, or that nothing can be held against, lead on to the
/// thumbnail with the reason; so does a body of another digest.
pub proof fn law_what_stands_against_the_cdn_is_told(
    frame: MediaFrameInput,
    options: MediaResolveOptions,
    why: Seq<Reason>,
    errors: Seq<ErrorView>,
    body: Seq<u8>,
    url: String,
)
    requires
        cached_kind(frame.kind),
        frame.cdn_url == Some(url),
    ensures
        ({
            let missing = why.push(Reason::FullNotCached);
            let step = advanced(
                frame,
                options,
                Awaiting::Full,
                why,
                errors,
                EventView::Cache(None),
            );
            &&& cdn_plan(frame, options) is Expired ==> step == (StepView::Ask {
                awaiting: Awaiting::Thumb,
                why: missing.push(Reason::CdnExpired),
                errors,
            })
            &&& cdn_plan(frame, options) is TooLarge ==> (step matches StepView::Ask {
                awaiting: Awaiting::Thumb,
                why: now,
                errors: told,
            } && now == missing.push(Reason::CdnTooLarge) && told.len() == errors.len() + 1
                && told.last().stage == "cdn"@ && told.last().path == redacted(url@))
            &&& cdn_plan(frame, options) is Unverifiable ==> (step matches StepView::Ask {
                awaiting: Awaiting::Thumb,
                why: now,
                errors: told,
            } && now == missing.push(Reason::CdnUnverifiable) && told.len() == errors.len() + 1
                && told.last().stage == "cdn"@ && told.last().path == redacted(url@))
            &&& !fingerprint_matches(sha1_hex(body), fingerprint_of(frame)) ==> (advanced(
                frame,
                options,
                Awaiting::Cdn,
                why,
                errors,
                EventView::Fetched(Ok(body)),
            ) matches StepView::Ask { awaiting: Awaiting::Thumb, why: now, errors: told } && now
                == why.push(Reason::CdnFailed) && told.len() == errors.len() + 1
                && told.last().path == redacted(url@) && contains_text(
                told.last().error,
                sha1_hex(body),
            ))
        }),
{
    crate::kakao::media_resolver::law_a_mismatch_names_both_digests(
        sha1_hex(body),
        fingerprint_of(frame),
    );
}

/// A thumbnail that cannot be opened is told, and leaves a stub.
pub proof fn law_a_broken_thumbnail_leaves_a_stub(
    frame: MediaFrameInput,
    options: MediaResolveOptions,
    why: Seq<Reason>,
    errors: Seq<ErrorView>,
    path: Seq<char>,
    reason: Seq<char>,
)
    ensures
        advanced(
            frame,
            options,
            Awaiting::Thumb,
            why,
            errors,
            EventView::Cache(Some(FileView { path, content: Err(reason) })),
        ) == stub(
            frame,
            why,
            errors.push(ErrorView { stage: "thumb"@, path, error: reason }),
            true,
        ),
        advanced(frame, options, Awaiting::Thumb, why, errors, EventView::Cache(None)) == stub(
            frame,
            why,
            errors,
            false,
        ),
{
}

} // verus!
