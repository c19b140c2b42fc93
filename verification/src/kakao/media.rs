//! Media frames: what a message attaches, before and after it is resolved.

use crate::text::trim::{trim, trimmed};
use crate::text::{ascii_lower_seq, ascii_lowercase, chars_of, owned, same, string_of};
use vstd::prelude::*;

verus! {

/// What a frame is. Photos and videos have an encrypted copy in the local cache
/// and a thumbnail; a generic file has neither, so the CDN is all it has.
#[derive(Debug, Clone, Copy, PartialEq, Eq, PartialOrd, Ord, Structural)]
pub enum MediaKind {
    Photo,
    Video,
    File,
}

/// The name of a kind.
pub open spec fn kind_name(kind: MediaKind) -> Seq<char> {
    match kind {
        MediaKind::Photo => "photo"@,
        MediaKind::Video => "video"@,
        MediaKind::File => "file"@,
    }
}

/// The kind that a name stands for: the trimmed name in any ASCII case, with
/// `image` as another word for a photo.
pub open spec fn kind_named(name: Seq<char>) -> Option<MediaKind> {
    let n = ascii_lower_seq(trim(name));
    if n == "photo"@ || n == "image"@ {
        Some(MediaKind::Photo)
    } else if n == "video"@ {
        Some(MediaKind::Video)
    } else if n == "file"@ {
        Some(MediaKind::File)
    } else {
        None
    }
}

impl MediaKind {
    /// Every kind, in order.
    pub fn all() -> (kinds: Vec<MediaKind>)
        ensures
            kinds@ == seq![MediaKind::Photo, MediaKind::Video, MediaKind::File],
    {
        vec![MediaKind::Photo, MediaKind::Video, MediaKind::File]
    }

    /// The name of this kind.
    pub fn as_str(self) -> (name: &'static str)
        ensures
            name@ == kind_name(self),
    {
        match self {
            MediaKind::Photo => "photo",
            MediaKind::Video => "video",
            MediaKind::File => "file",
        }
    }

    /// The kind that `value` names, or the sentence that refuses it.
    pub fn parse(value: &str) -> (r: Result<MediaKind, String>)
        ensures
            match r {
                Ok(kind) => kind_named(value@) == Some(kind),
                Err(reason) => kind_named(value@) is None && reason@ == "unknown media kind '"@
                    + ascii_lower_seq(trim(value@)) + "'; use photo, video, or file"@,
            },
    {
        let chars = chars_of(value);
        let bare = trimmed(chars.as_slice());
        let text = string_of(bare.as_slice());
        let name = ascii_lowercase(text.as_str());
        if same(name.as_str(), "photo") || same(name.as_str(), "image") {
            Ok(MediaKind::Photo)
        } else if same(name.as_str(), "video") {
            Ok(MediaKind::Video)
        } else if same(name.as_str(), "file") {
            Ok(MediaKind::File)
        } else {
            let mut reason = owned("unknown media kind '");
            reason.append(name.as_str());
            reason.append("'; use photo, video, or file");
            Err(reason)
        }
    }

    /// Whether this kind is ever in the local media cache.
    pub fn has_local_cache(self) -> (r: bool)
        ensures
            r == cached_kind(self),
    {
        match self {
            MediaKind::File => false,
            _ => true,
        }
    }
}

/// Whether a kind is ever in the local media cache.
pub open spec fn cached_kind(kind: MediaKind) -> bool {
    !(kind is File)
}

/// A kind is read back from its own name.
pub proof fn law_kind_name_round_trip(kind: MediaKind)
    ensures
        kind_named(kind_name(kind)) == Some(kind),
{
    reveal_strlit("photo");
    reveal_strlit("image");
    reveal_strlit("video");
    reveal_strlit("file");
    let n = kind_name(kind);
    assert(trim(n) == n);
    assert(ascii_lower_seq(n) =~= n);
    assert("video"@[0] == 'v');
    assert("file"@.len() == 4);
}

/// Where the bytes of a frame came from.
#[derive(Debug, Clone, Copy, PartialEq, Eq, Structural)]
pub enum MediaTier {
    /// The full copy in the local cache.
    Full,
    /// The CDN.
    Cdn,
    /// The thumbnail in the local cache.
    Thumb,
    /// Nowhere: only the metadata is known.
    Stub,
    /// An output file that was there already.
    Existing,
    /// A dry run found that the CDN would be asked.
    Planned,
}

/// The name of a tier.
pub open spec fn tier_name(tier: MediaTier) -> Seq<char> {
    match tier {
        MediaTier::Full => "full"@,
        MediaTier::Cdn => "cdn"@,
        MediaTier::Thumb => "thumb"@,
        MediaTier::Stub => "stub"@,
        MediaTier::Existing => "existing"@,
        MediaTier::Planned => "planned"@,
    }
}

impl MediaTier {
    /// The name of this tier.
    pub fn as_str(self) -> (name: &'static str)
        ensures
            name@ == tier_name(self),
    {
        match self {
            MediaTier::Full => "full",
            MediaTier::Cdn => "cdn",
            MediaTier::Thumb => "thumb",
            MediaTier::Stub => "stub",
            MediaTier::Existing => "existing",
            MediaTier::Planned => "planned",
        }
    }
}

/// Which file of the local cache a frame's bytes would be in. The cache names
/// its files by a digest of the message id; a stem says which digest.
#[derive(Debug, Clone, Copy, PartialEq, Eq, Structural)]
pub enum CacheStem {
    /// No file.
    Nothing,
    /// The full photo of a message.
    Photo { log_id: i64 },
    /// The thumbnail of a message.
    PhotoThumb { log_id: i64 },
    /// One full photo of an album.
    Album { log_id: i64, idx: usize },
    /// The thumbnail of one photo of an album.
    AlbumThumb { log_id: i64, idx: usize },
    /// The video of a message.
    Video { log_id: i64 },
}

/// The stem of a message's full photo.
pub fn photo_full_stem(log_id: i64) -> (stem: CacheStem)
    ensures
        stem == (CacheStem::Photo { log_id }),
{
    CacheStem::Photo { log_id }
}

/// The stem of a message's thumbnail.
pub fn photo_thumb_stem(log_id: i64) -> (stem: CacheStem)
    ensures
        stem == (CacheStem::PhotoThumb { log_id }),
{
    CacheStem::PhotoThumb { log_id }
}

/// The stem of one full photo of an album.
pub fn album_full_stem(log_id: i64, idx: usize) -> (stem: CacheStem)
    ensures
        stem == (CacheStem::Album { log_id, idx }),
{
    CacheStem::Album { log_id, idx }
}

/// The stem of the thumbnail of one photo of an album.
pub fn album_thumb_stem(log_id: i64, idx: usize) -> (stem: CacheStem)
    ensures
        stem == (CacheStem::AlbumThumb { log_id, idx }),
{
    CacheStem::AlbumThumb { log_id, idx }
}

/// The stem of a message's video.
pub fn video_full_stem(log_id: i64) -> (stem: CacheStem)
    ensures
        stem == (CacheStem::Video { log_id }),
{
    CacheStem::Video { log_id }
}

/// One thing a message attaches.
#[derive(Debug, Clone)]
pub struct MediaFrameInput {
    pub kind: MediaKind,
    pub log_id: i64,
    pub idx: usize,
    pub width: Option<i64>,
    pub height: Option<i64>,
    /// The SHA-1 that the attachment declares, in hexadecimal.
    pub checksum_sha1: Option<String>,
    /// The size that the attachment declares.
    pub size_bytes: Option<i64>,
    /// The name of a generic file.
    pub filename: Option<String>,
    pub full_stem: CacheStem,
    /// Extension of the full copy in the cache: `.img` or `.vid`.
    pub full_ext: &'static str,
    pub thumb_stem: CacheStem,
    /// What the name of the output file starts with.
    pub output_stem: String,
    pub sender: Option<String>,
    pub sent_at: Option<i64>,
    pub cdn_url: Option<String>,
}

/// What became of a frame.
#[derive(Debug, Clone, PartialEq, Eq)]
pub struct MediaRecord {
    pub log_id: i64,
    pub idx: usize,
    pub kind: MediaKind,
    pub name: Option<String>,
    pub width: Option<i64>,
    pub height: Option<i64>,
    pub checksum_sha1: Option<String>,
    pub size_bytes: Option<i64>,
    pub tier: MediaTier,
    pub tier_reason: String,
    /// The output file.
    pub path: Option<String>,
    /// SHA-1 of the bytes that were found, in hexadecimal.
    pub sha1: Option<String>,
    pub sender: Option<String>,
    pub sent_at: Option<i64>,
}

/// A failure on the way to a frame's bytes.
#[derive(Debug, Clone, PartialEq, Eq)]
pub struct MediaResolveError {
    pub log_id: i64,
    pub idx: usize,
    /// `full`, `cdn` or `thumb`.
    pub stage: String,
    /// The file, or the address without its query.
    pub path: String,
    pub error: String,
}

/// How many frames ended in each tier.
#[derive(Debug, Clone, Copy, PartialEq, Eq, Structural)]
pub struct TierCounts {
    pub full: usize,
    pub cdn: usize,
    pub thumb: usize,
    pub stub: usize,
    pub existing: usize,
    pub planned: usize,
}

/// The number that `counts` holds for a tier.
pub open spec fn count_of(counts: TierCounts, tier: MediaTier) -> usize {
    match tier {
        MediaTier::Full => counts.full,
        MediaTier::Cdn => counts.cdn,
        MediaTier::Thumb => counts.thumb,
        MediaTier::Stub => counts.stub,
        MediaTier::Existing => counts.existing,
        MediaTier::Planned => counts.planned,
    }
}

/// How many of `records` are of a tier.
pub open spec fn tier_count(records: Seq<MediaRecord>, tier: MediaTier) -> nat
    decreases records.len(),
{
    if records.len() == 0 {
        0
    } else {
        tier_count(records.drop_last(), tier) + if records.last().tier == tier {
            1nat
        } else {
            0
        }
    }
}

/// A tier holds no more records than there are.
pub proof fn lemma_tier_count_bound(records: Seq<MediaRecord>, tier: MediaTier)
    ensures
        tier_count(records, tier) <= records.len(),
    decreases records.len(),
{
    if records.len() > 0 {
        lemma_tier_count_bound(records.drop_last(), tier);
    }
}

/// Whether `counts` counts `records`.
pub open spec fn counts_records(counts: TierCounts, records: Seq<MediaRecord>) -> bool {
    forall|tier: MediaTier| #[trigger] count_of(counts, tier) == tier_count(records, tier)
}

/// Every record is counted in exactly one tier.
pub proof fn law_tier_counts_add_up(records: Seq<MediaRecord>)
    ensures
        tier_count(records, MediaTier::Full) + tier_count(records, MediaTier::Cdn) + tier_count(
            records,
            MediaTier::Thumb,
        ) + tier_count(records, MediaTier::Stub) + tier_count(records, MediaTier::Existing)
            + tier_count(records, MediaTier::Planned) == records.len(),
    decreases records.len(),
{
    if records.len() > 0 {
        law_tier_counts_add_up(records.drop_last());
    }
}

impl TierCounts {
    /// No frames.
    pub fn zero() -> (counts: TierCounts)
        ensures
            counts_records(counts, seq![]),
    {
        TierCounts { full: 0, cdn: 0, thumb: 0, stub: 0, existing: 0, planned: 0 }
    }

    /// The number of frames in the tier of the given name, where there is any.
    pub fn get(&self, name: &str) -> (r: Option<usize>)
        ensures
            match r {
                Some(n) => n > 0 && exists|tier: MediaTier|
                    #![trigger tier_name(tier)]
                    tier_name(tier) == name@ && count_of(*self, tier) == n,
                None => forall|tier: MediaTier|
                    #![trigger tier_name(tier)]
                    tier_name(tier) == name@ ==> count_of(*self, tier) == 0,
            },
    {
        proof {
            lemma_tier_names_distinct();
        }
        let (tier, n): (MediaTier, usize) = if same(name, "full") {
            (MediaTier::Full, self.full)
        } else if same(name, "cdn") {
            (MediaTier::Cdn, self.cdn)
        } else if same(name, "thumb") {
            (MediaTier::Thumb, self.thumb)
        } else if same(name, "stub") {
            (MediaTier::Stub, self.stub)
        } else if same(name, "existing") {
            (MediaTier::Existing, self.existing)
        } else if same(name, "planned") {
            (MediaTier::Planned, self.planned)
        } else {
            return None;
        };
        assert(tier_name(tier) == name@);
        if n > 0 {
            Some(n)
        } else {
            None
        }
    }
}

/// No two tiers have the same name.
pub proof fn lemma_tier_names_distinct()
    ensures
        forall|a: MediaTier, b: MediaTier| #[trigger] tier_name(a) == #[trigger] tier_name(b) ==> a
            == b,
{
    reveal_strlit("full");
    reveal_strlit("cdn");
    reveal_strlit("thumb");
    reveal_strlit("stub");
    reveal_strlit("existing");
    reveal_strlit("planned");
    assert("full"@[0] != "stub"@[0]);
    assert forall|a: MediaTier, b: MediaTier| #[trigger] tier_name(a) == #[trigger] tier_name(
        b,
    ) implies a == b by {
        assert(tier_name(a).len() == tier_name(b).len());
        assert(tier_name(a)[0] == tier_name(b)[0]);
    }
}

/// The records and failures of a run, with the number of frames in each tier.
#[derive(Debug, Clone, PartialEq, Eq)]
pub struct MediaReport {
    pub records: Vec<MediaRecord>,
    pub errors: Vec<MediaResolveError>,
    pub tier_counts: TierCounts,
}

/// A kind goes by its own name or, where it is a photo, by `image`: no other word
/// names one, and neither case nor white space around a word matters.
pub proof fn law_only_known_words_name_a_kind(name: Seq<char>, other: Seq<char>)
    ensures
        kind_named(name) matches Some(kind) ==> ascii_lower_seq(trim(name)) == kind_name(kind) || (
        kind is Photo && ascii_lower_seq(trim(name)) == "image"@),
        ascii_lower_seq(trim(name)) == "image"@ ==> kind_named(name) == Some(MediaKind::Photo),
        forall|kind: MediaKind|
            ascii_lower_seq(trim(name)) == #[trigger] kind_name(kind) ==> kind_named(name) == Some(
                kind,
            ),
        ascii_lower_seq(trim(name)) == ascii_lower_seq(trim(other)) ==> kind_named(name)
            == kind_named(other),
{
    reveal_strlit("photo");
    reveal_strlit("image");
    reveal_strlit("video");
    reveal_strlit("file");
    assert("photo"@[0] == 'p' && "image"@[0] == 'i' && "video"@[0] == 'v' && "file"@[0] == 'f');
}

/// The records of a tier are counted under that tier, each once.
pub proof fn law_a_tier_counts_its_own_records(records: Seq<MediaRecord>, tier: MediaTier)
    ensures
        tier_count(records, tier) == records.filter(|r: MediaRecord| r.tier == tier).len(),
    decreases records.len(),
{
    reveal(Seq::filter);
    if records.len() > 0 {
        law_a_tier_counts_its_own_records(records.drop_last(), tier);
    }
}

/// Two tiers, and two kinds, never go by the same name.
pub proof fn law_names_tell_tiers_and_kinds_apart(
    a: MediaTier,
    b: MediaTier,
    k: MediaKind,
    l: MediaKind,
)
    ensures
        tier_name(a) == tier_name(b) ==> a == b,
        kind_name(k) == kind_name(l) ==> k == l,
{
    lemma_tier_names_distinct();
    law_kind_name_round_trip(k);
    law_kind_name_round_trip(l);
}

/// Counts that count records have, for each tier, as many as there are records of
/// that tier, under that tier's own field.
pub proof fn law_counts_have_their_fields(counts: TierCounts, records: Seq<MediaRecord>)
    requires
        counts_records(counts, records),
    ensures
        counts.full == records.filter(|r: MediaRecord| r.tier == MediaTier::Full).len(),
        counts.cdn == records.filter(|r: MediaRecord| r.tier == MediaTier::Cdn).len(),
        counts.thumb == records.filter(|r: MediaRecord| r.tier == MediaTier::Thumb).len(),
        counts.stub == records.filter(|r: MediaRecord| r.tier == MediaTier::Stub).len(),
        counts.existing == records.filter(|r: MediaRecord| r.tier == MediaTier::Existing).len(),
        counts.planned == records.filter(|r: MediaRecord| r.tier == MediaTier::Planned).len(),
{
    lemma_field(counts, records, MediaTier::Full);
    lemma_field(counts, records, MediaTier::Cdn);
    lemma_field(counts, records, MediaTier::Thumb);
    lemma_field(counts, records, MediaTier::Stub);
    lemma_field(counts, records, MediaTier::Existing);
    lemma_field(counts, records, MediaTier::Planned);
}

proof fn lemma_field(counts: TierCounts, records: Seq<MediaRecord>, tier: MediaTier)
    requires
        counts_records(counts, records),
    ensures
        count_of(counts, tier) == records.filter(|r: MediaRecord| r.tier == tier).len(),
{
    law_a_tier_counts_its_own_records(records, tier);
    assert(count_of(counts, tier) == tier_count(records, tier));
}

} // verus!
