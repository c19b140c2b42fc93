//! From rows of the message table to media frames.

use crate::json::{
    array_i64, array_string, find_member, int_at, int_view, item_int, item_text, json_members,
    law_members_are_read_by_their_key, lemma_member_at, member_at, member_index, member_views,
    object_i64, object_string, parse_members, scalar_text, str_view, text_at, JsonMember,
    MemberView,
};
use crate::kakao::media::{
    album_full_stem, album_thumb_stem, photo_full_stem, photo_thumb_stem, video_full_stem,
    CacheStem, MediaFrameInput, MediaKind,
};
use crate::text::number::{decimal, decimal_i64, decimal_int, decimal_usize};
use crate::text::split::{
    contains_text, join, join_strings, law_join_holds_every_part, occurs_at, part_start, views,
};
use vstd::prelude::*;

verus! {

/// The message type of a photo.
pub const PHOTO_MESSAGE_TYPE: i64 = 2;

/// The message type of an album of photos.
pub const ALBUM_MESSAGE_TYPE: i64 = 27;

/// The message type of a video.
pub const VIDEO_MESSAGE_TYPE: i64 = 3;

/// The message type of a generic file, whatever its extension.
pub const FILE_MESSAGE_TYPE: i64 = 18;

/// Which media rows are wanted.
#[derive(Debug, Clone, PartialEq, Eq)]
pub struct MediaQuery {
    pub chat_id: i64,
    pub log_id: Option<i64>,
    pub limit: usize,
    /// The kinds that are wanted; none means all.
    pub kinds: Vec<MediaKind>,
}

/// Whether a query for `kinds` wants `kind`.
pub open spec fn wants(kinds: Seq<MediaKind>, kind: MediaKind) -> bool {
    kinds.len() == 0 || kinds.contains(kind)
}

/// The message types that a kind is stored under.
pub open spec fn types_of_kind(kind: MediaKind) -> Set<i64> {
    match kind {
        MediaKind::Photo => set![PHOTO_MESSAGE_TYPE, ALBUM_MESSAGE_TYPE],
        MediaKind::Video => set![VIDEO_MESSAGE_TYPE],
        MediaKind::File => set![FILE_MESSAGE_TYPE],
    }
}

/// Whether a query for `kinds` wants rows of message type `t`.
pub open spec fn wants_type(kinds: Seq<MediaKind>, t: i64) -> bool {
    exists|kind: MediaKind| #[trigger] wants(kinds, kind) && types_of_kind(kind).contains(t)
}

/// Whether `s` ascends strictly.
pub open spec fn ascending(s: Seq<i64>) -> bool {
    forall|i: int, j: int| 0 <= i < j < s.len() ==> s[i] < s[j]
}

impl MediaQuery {
    /// A query for every kind.
    pub fn new(chat_id: i64, log_id: Option<i64>, limit: usize) -> (query: MediaQuery)
        ensures
            query.chat_id == chat_id,
            query.log_id == log_id,
            query.limit == limit,
            query.kinds@.len() == 0,
    {
        MediaQuery { chat_id, log_id, limit, kinds: Vec::new() }
    }

    /// Whether this query wants `kind`.
    fn wants_kind(&self, kind: MediaKind) -> (r: bool)
        ensures
            r == wants(self.kinds@, kind),
    {
        if self.kinds.len() == 0 {
            return true;
        }
        for i in 0..self.kinds.len()
            invariant
                self.kinds@.len() > 0,
                forall|k: int| 0 <= k < i ==> self.kinds@[k] != kind,
        {
            if self.kinds[i] == kind {
                return true;
            }
        }
        false
    }

    /// The message types that this query wants, ascending, each once.
    pub fn message_types(&self) -> (types: Vec<i64>)
        ensures
            ascending(types@),
            forall|t: i64| #[trigger] types@.contains(t) <==> wants_type(self.kinds@, t),
    {
        let photo = self.wants_kind(MediaKind::Photo);
        let video = self.wants_kind(MediaKind::Video);
        let file = self.wants_kind(MediaKind::File);
        let mut types: Vec<i64> = Vec::new();
        if photo {
            types.push(PHOTO_MESSAGE_TYPE);
        }
        if video {
            types.push(VIDEO_MESSAGE_TYPE);
        }
        if file {
            types.push(FILE_MESSAGE_TYPE);
        }
        if photo {
            types.push(ALBUM_MESSAGE_TYPE);
        }
        proof {
            let kinds = self.kinds@;
            let n = types@.len() as int;
            if photo {
                assert(types@[0] == PHOTO_MESSAGE_TYPE && types@[n - 1] == ALBUM_MESSAGE_TYPE);
            }
            if video {
                assert(types@[if photo {
                    1int
                } else {
                    0
                }] == VIDEO_MESSAGE_TYPE);
            }
            if file {
                assert(types@[(if photo {
                    1int
                } else {
                    0
                }) + (if video {
                    1int
                } else {
                    0
                })] == FILE_MESSAGE_TYPE);
            }
            assert forall|t: i64| #[trigger] types@.contains(t) <==> wants_type(kinds, t) by {
                if types@.contains(t) {
                    if t == PHOTO_MESSAGE_TYPE || t == ALBUM_MESSAGE_TYPE {
                        assert(wants(kinds, MediaKind::Photo));
                    } else if t == VIDEO_MESSAGE_TYPE {
                        assert(wants(kinds, MediaKind::Video));
                    } else {
                        assert(t == FILE_MESSAGE_TYPE);
                        assert(wants(kinds, MediaKind::File));
                    }
                }
                if wants_type(kinds, t) {
                    let kind = choose|kind: MediaKind| #[trigger]
                        wants(kinds, kind) && types_of_kind(kind).contains(t);
                    assert(wants(kinds, kind));
                }
            }
        }
        types
    }
}

/// The numbers in decimal, with `, ` between them.
pub open spec fn listed(types: Seq<i64>) -> Seq<char> {
    join(types.map_values(|t: i64| decimal_int(t as int)), ", "@)
}

/// The message types as the members of an SQL `IN` list.
pub fn type_list(types: &[i64]) -> (text: String)
    ensures
        text@ == listed(types@),
{
    let ghost words_view = types@.map_values(|t: i64| decimal_int(t as int));
    let mut words: Vec<String> = Vec::new();
    for i in 0..types.len()
        invariant
            words_view == types@.map_values(|t: i64| decimal_int(t as int)),
            views(words@) == words_view.take(i as int),
    {
        let word = decimal_i64(types[i]);
        let ghost before = views(words@);
        words.push(word);
        proof {
            assert(views(words@) =~= before.push(word@));
            assert(words_view.take(i + 1) =~= before.push(decimal_int(types@[i as int] as int)));
        }
    }
    proof {
        assert(words_view.take(types@.len() as int) =~= words_view);
    }
    join_strings(words.as_slice(), ", ")
}

/// A row of the message table that holds media.
#[derive(Debug, Clone)]
pub struct MediaRow {
    pub log_id: i64,
    pub author_id: i64,
    pub msg_type: i64,
    pub sent_at: i64,
    /// The attachment, as JSON.
    pub attachment: Option<String>,
}

/// The model of a [`MediaFrameInput`].
pub struct FrameView {
    pub kind: MediaKind,
    pub log_id: i64,
    pub idx: int,
    pub width: Option<int>,
    pub height: Option<int>,
    pub checksum_sha1: Option<Seq<char>>,
    pub size_bytes: Option<int>,
    pub filename: Option<Seq<char>>,
    pub full_stem: CacheStem,
    pub full_ext: Seq<char>,
    pub thumb_stem: CacheStem,
    pub output_stem: Seq<char>,
    pub sender: Option<Seq<char>>,
    pub sent_at: Option<int>,
    pub cdn_url: Option<Seq<char>>,
}

/// The view of a frame.
pub open spec fn frame_view(frame: MediaFrameInput) -> FrameView {
    FrameView {
        kind: frame.kind,
        log_id: frame.log_id,
        idx: frame.idx as int,
        width: int_view(frame.width),
        height: int_view(frame.height),
        checksum_sha1: str_view(frame.checksum_sha1),
        size_bytes: int_view(frame.size_bytes),
        filename: str_view(frame.filename),
        full_stem: frame.full_stem,
        full_ext: frame.full_ext@,
        thumb_stem: frame.thumb_stem,
        output_stem: frame.output_stem@,
        sender: str_view(frame.sender),
        sent_at: int_view(frame.sent_at),
        cdn_url: str_view(frame.cdn_url),
    }
}

/// The first value where there is one, else the second.
pub open spec fn or_else(a: Option<int>, b: Option<int>) -> Option<int> {
    if a is Some {
        a
    } else {
        b
    }
}

/// The `idx`-th photo of an album, from the parallel arrays of its attachment.
pub open spec fn album_frame(row: MediaRow, members: Seq<MemberView>, idx: int) -> FrameView {
    FrameView {
        kind: MediaKind::Photo,
        log_id: row.log_id,
        idx,
        width: item_int(members, "wl"@, idx),
        height: item_int(members, "hl"@, idx),
        checksum_sha1: item_text(members, "csl"@, idx),
        size_bytes: item_int(members, "sl"@, idx),
        filename: None,
        full_stem: CacheStem::Album { log_id: row.log_id, idx: idx as usize },
        full_ext: ".img"@,
        thumb_stem: CacheStem::AlbumThumb { log_id: row.log_id, idx: idx as usize },
        output_stem: decimal_int(row.log_id as int) + "_"@ + decimal(idx as nat),
        sender: Some(decimal_int(row.author_id as int)),
        sent_at: Some(row.sent_at as int),
        cdn_url: item_text(members, "imageUrls"@, idx),
    }
}

/// The one frame of a generic file. It is in no cache, and keeps its own name.
pub open spec fn file_frame(row: MediaRow, members: Seq<MemberView>) -> FrameView {
    FrameView {
        kind: MediaKind::File,
        log_id: row.log_id,
        idx: 0,
        width: None,
        height: None,
        checksum_sha1: text_at(members, "cs"@),
        size_bytes: or_else(int_at(members, "size"@), int_at(members, "s"@)),
        filename: text_at(members, "name"@),
        full_stem: CacheStem::Nothing,
        full_ext: ""@,
        thumb_stem: CacheStem::Nothing,
        output_stem: decimal_int(row.log_id as int),
        sender: Some(decimal_int(row.author_id as int)),
        sent_at: Some(row.sent_at as int),
        cdn_url: text_at(members, "url"@),
    }
}

/// The one frame of a photo or a video.
pub open spec fn single_frame(row: MediaRow, members: Seq<MemberView>) -> FrameView {
    let video = row.msg_type == VIDEO_MESSAGE_TYPE;
    FrameView {
        kind: if video {
            MediaKind::Video
        } else {
            MediaKind::Photo
        },
        log_id: row.log_id,
        idx: 0,
        width: int_at(members, "w"@),
        height: int_at(members, "h"@),
        checksum_sha1: text_at(members, "cs"@),
        size_bytes: or_else(int_at(members, "s"@), int_at(members, "size"@)),
        filename: None,
        full_stem: if video {
            CacheStem::Video { log_id: row.log_id }
        } else {
            CacheStem::Photo { log_id: row.log_id }
        },
        full_ext: if video {
            ".vid"@
        } else {
            ".img"@
        },
        thumb_stem: CacheStem::PhotoThumb { log_id: row.log_id },
        output_stem: decimal_int(row.log_id as int),
        sender: Some(decimal_int(row.author_id as int)),
        sent_at: Some(row.sent_at as int),
        cdn_url: text_at(members, "url"@),
    }
}

/// How many photos an album lists: the length of its array of fingerprints.
pub open spec fn album_len(row: MediaRow, members: Seq<MemberView>) -> Option<nat> {
    if row.msg_type == ALBUM_MESSAGE_TYPE {
        match member_at(members, "csl"@) {
            Some(m) => match m.items {
                Some(items) => Some(items.len()),
                None => None,
            },
            None => None,
        }
    } else {
        None
    }
}

/// The frames of a row whose attachment has the given members.
pub open spec fn row_frames(row: MediaRow, members: Seq<MemberView>) -> Seq<FrameView> {
    match album_len(row, members) {
        Some(n) => Seq::new(n, |idx: int| album_frame(row, members, idx)),
        None => if row.msg_type == FILE_MESSAGE_TYPE {
            seq![file_frame(row, members)]
        } else {
            seq![single_frame(row, members)]
        },
    }
}

/// The members of a row's attachment; none where it is missing or no JSON object.
pub open spec fn attachment_members(row: MediaRow) -> Seq<MemberView> {
    match row.attachment {
        Some(raw) => match json_members(raw@) {
            Some(members) => members,
            None => seq![],
        },
        None => seq![],
    }
}

/// The view of a list of frames.
pub open spec fn frame_views(frames: Seq<MediaFrameInput>) -> Seq<FrameView> {
    frames.map_values(|f: MediaFrameInput| frame_view(f))
}

/// The frames of a row.
pub fn frame_inputs(row: &MediaRow) -> (frames: Vec<MediaFrameInput>)
    ensures
        frame_views(frames@) == row_frames(*row, attachment_members(*row)),
{
    let members: Vec<JsonMember> = match &row.attachment {
        Some(raw) => match parse_members(raw.as_str()) {
            Some(members) => members,
            None => Vec::new(),
        },
        None => Vec::new(),
    };
    proof {
        assert(member_views(members@) =~= attachment_members(*row));
    }
    frames_of(row, members.as_slice())
}

/// The frames of a row whose attachment has the given members.
pub fn frames_of(row: &MediaRow, members: &[JsonMember]) -> (frames: Vec<MediaFrameInput>)
    ensures
        frame_views(frames@) == row_frames(*row, member_views(members@)),
{
    let mut frames: Vec<MediaFrameInput> = Vec::new();
    if row.msg_type == ALBUM_MESSAGE_TYPE {
        if let Some(csl) = find_member(members, "csl") {
            if let Some(items) = &csl.items {
                let ghost expected = row_frames(*row, member_views(members@));
                for idx in 0..items.len()
                    invariant
                        expected == row_frames(*row, member_views(members@)),
                        album_len(*row, member_views(members@)) == Some(items@.len()),
                        frame_views(frames@) == expected.take(idx as int),
                {
                    let frame = album_frame_of(row, members, idx);
                    let ghost before = frame_views(frames@);
                    frames.push(frame);
                    proof {
                        assert(frame_views(frames@) =~= before.push(frame_view(frame)));
                        assert(expected[idx as int] == album_frame(
                            *row,
                            member_views(members@),
                            idx as int,
                        ));
                        assert(expected.take(idx + 1) =~= before.push(expected[idx as int]));
                    }
                }
                proof {
                    assert(expected.take(items@.len() as int) =~= expected);
                }
                return frames;
            }
        }
    }
    let frame = if row.msg_type == FILE_MESSAGE_TYPE {
        file_frame_of(row, members)
    } else {
        single_frame_of(row, members)
    };
    frames.push(frame);
    proof {
        assert(frame_views(frames@) =~= seq![frame_view(frame)]);
    }
    frames
}

/// One photo of an album.
fn album_frame_of(row: &MediaRow, members: &[JsonMember], idx: usize) -> (frame: MediaFrameInput)
    ensures
        frame_view(frame) == album_frame(*row, member_views(members@), idx as int),
{
    let number = decimal_usize(idx);
    MediaFrameInput {
        kind: MediaKind::Photo,
        log_id: row.log_id,
        idx,
        width: array_i64(members, "wl", idx),
        height: array_i64(members, "hl", idx),
        checksum_sha1: array_string(members, "csl", idx),
        size_bytes: array_i64(members, "sl", idx),
        filename: None,
        full_stem: album_full_stem(row.log_id, idx),
        full_ext: ".img",
        thumb_stem: album_thumb_stem(row.log_id, idx),
        output_stem: decimal_i64(row.log_id).concat("_").concat(number.as_str()),
        sender: Some(decimal_i64(row.author_id)),
        sent_at: Some(row.sent_at),
        cdn_url: array_string(members, "imageUrls", idx),
    }
}

/// The first value where there is one, else the second.
fn or_value(a: Option<i64>, b: Option<i64>) -> (r: Option<i64>)
    ensures
        int_view(r) == or_else(int_view(a), int_view(b)),
{
    if a.is_some() {
        a
    } else {
        b
    }
}

/// The frame of a generic file.
fn file_frame_of(row: &MediaRow, members: &[JsonMember]) -> (frame: MediaFrameInput)
    ensures
        frame_view(frame) == file_frame(*row, member_views(members@)),
{
    MediaFrameInput {
        kind: MediaKind::File,
        log_id: row.log_id,
        idx: 0,
        width: None,
        height: None,
        checksum_sha1: object_string(members, "cs"),
        size_bytes: or_value(object_i64(members, "size"), object_i64(members, "s")),
        filename: object_string(members, "name"),
        full_stem: CacheStem::Nothing,
        full_ext: "",
        thumb_stem: CacheStem::Nothing,
        output_stem: decimal_i64(row.log_id),
        sender: Some(decimal_i64(row.author_id)),
        sent_at: Some(row.sent_at),
        cdn_url: object_string(members, "url"),
    }
}

/// The frame of a photo or a video.
fn single_frame_of(row: &MediaRow, members: &[JsonMember]) -> (frame: MediaFrameInput)
    ensures
        frame_view(frame) == single_frame(*row, member_views(members@)),
{
    let video = row.msg_type == VIDEO_MESSAGE_TYPE;
    MediaFrameInput {
        kind: if video {
            MediaKind::Video
        } else {
            MediaKind::Photo
        },
        log_id: row.log_id,
        idx: 0,
        width: object_i64(members, "w"),
        height: object_i64(members, "h"),
        checksum_sha1: object_string(members, "cs"),
        size_bytes: or_value(object_i64(members, "s"), object_i64(members, "size")),
        filename: None,
        full_stem: if video {
            video_full_stem(row.log_id)
        } else {
            photo_full_stem(row.log_id)
        },
        full_ext: if video {
            ".vid"
        } else {
            ".img"
        },
        thumb_stem: photo_thumb_stem(row.log_id),
        output_stem: decimal_i64(row.log_id),
        sender: Some(decimal_i64(row.author_id)),
        sent_at: Some(row.sent_at),
        cdn_url: object_string(members, "url"),
    }
}

/// A row that is not an album has exactly one frame, and the frames of an album
/// are numbered from zero; so no two frames of a row have the same index.
pub proof fn law_row_frames_are_numbered(row: MediaRow, members: Seq<MemberView>)
    ensures
        row.msg_type != ALBUM_MESSAGE_TYPE ==> row_frames(row, members).len() == 1,
        forall|i: int|
            0 <= i < row_frames(row, members).len() ==> (#[trigger] row_frames(
                row,
                members,
            )[i]).idx == i && row_frames(row, members)[i].log_id == row.log_id,
{
}

// ---------------------------------------------------------------------------
// Several databases
// ---------------------------------------------------------------------------

/// Whether two frames are the same one, read from two databases.
pub open spec fn same_frame(a: MediaFrameInput, b: MediaFrameInput) -> bool {
    a.log_id == b.log_id && a.idx == b.idx
}

/// Whether `frames` holds a frame that is the same as `frame`.
pub open spec fn holds_frame(frames: Seq<MediaFrameInput>, frame: MediaFrameInput) -> bool {
    exists|i: int| 0 <= i < frames.len() && same_frame(#[trigger] frames[i], frame)
}

/// The frames, each where it occurs first.
pub open spec fn first_frames(frames: Seq<MediaFrameInput>) -> Seq<MediaFrameInput>
    decreases frames.len(),
{
    if frames.len() == 0 {
        seq![]
    } else {
        let front = first_frames(frames.drop_last());
        if holds_frame(front, frames.last()) {
            front
        } else {
            front.push(frames.last())
        }
    }
}

/// The frames of several databases, each once, in the order of first occurrence.
pub fn unique_frames(frames: Vec<MediaFrameInput>) -> (unique: Vec<MediaFrameInput>)
    ensures
        unique@ == first_frames(frames@),
{
    let mut unique: Vec<MediaFrameInput> = Vec::new();
    let ghost all = frames@;
    for frame in iter: frames
        invariant
            iter.seq() == all,
            unique@ == first_frames(all.take(iter.index() as int)),
    {
        proof {
            assert(all.take(iter.index() as int + 1).drop_last() =~= all.take(iter.index() as int));
            assert(frame == all[iter.index() as int]);
        }
        let mut held = false;
        for i in 0..unique.len()
            invariant
                held == exists|k: int| 0 <= k < i && same_frame(#[trigger] unique@[k], frame),
        {
            if unique[i].log_id == frame.log_id && unique[i].idx == frame.idx {
                held = true;
                assert(same_frame(unique@[i as int], frame));
            }
        }
        if !held {
            unique.push(frame);
        }
    }
    proof {
        assert(all.take(all.len() as int) =~= all);
    }
    unique
}

/// No frame comes twice out of [`unique_frames`], and none is lost.
pub proof fn law_first_frames_are_unique(frames: Seq<MediaFrameInput>)
    ensures
        forall|i: int, j: int|
            0 <= i < j < first_frames(frames).len() ==> !same_frame(
                #[trigger] first_frames(frames)[i],
                #[trigger] first_frames(frames)[j],
            ),
        forall|i: int|
            0 <= i < frames.len() ==> holds_frame(first_frames(frames), #[trigger] frames[i]),
    decreases frames.len(),
{
    if frames.len() > 0 {
        let rest = frames.drop_last();
        let front = first_frames(rest);
        let all = first_frames(frames);
        law_first_frames_are_unique(rest);
        assert forall|i: int, j: int| 0 <= i < j < all.len() implies !same_frame(
            #[trigger] all[i],
            #[trigger] all[j],
        ) by {
            assert(all[i] == front[i]);
            if j < front.len() {
                assert(all[j] == front[j]);
            }
        }
        assert forall|i: int| 0 <= i < frames.len() implies holds_frame(
            all,
            #[trigger] frames[i],
        ) by {
            if i < rest.len() {
                assert(rest[i] == frames[i]);
                let k = choose|k: int|
                    0 <= k < front.len() && same_frame(#[trigger] front[k], frames[i]);
                assert(all[k] == front[k]);
            } else if holds_frame(front, frames.last()) {
            } else {
                assert(same_frame(all[front.len() as int], frames[i]));
            }
        }
    }
}

/// Only a generic file has a name of its own.
pub proof fn law_only_files_are_named(row: MediaRow, members: Seq<MemberView>, k: int)
    requires
        0 <= k < row_frames(row, members).len(),
    ensures
        row_frames(row, members)[k].filename is Some ==> row_frames(row, members)[k].kind is File,
{
}

/// The ids of the rooms that hold media, ascending, each once.
pub fn sorted_chat_ids(ids: &[i64]) -> (sorted: Vec<i64>)
    ensures
        ascending(sorted@),
        forall|id: i64| #[trigger] sorted@.contains(id) <==> ids@.contains(id),
{
    let mut sorted: Vec<i64> = Vec::new();
    for i in 0..ids.len()
        invariant
            ascending(sorted@),
            forall|id: i64| #[trigger] sorted@.contains(id) <==> ids@.take(i as int).contains(id),
    {
        let id: i64 = ids[i];
        let mut at: usize = 0;
        while at < sorted.len() && sorted[at] < id
            invariant
                at <= sorted@.len(),
                forall|k: int| 0 <= k < at ==> sorted@[k] < id,
            decreases sorted@.len() - at,
        {
            at = at + 1;
        }
        let ghost before = sorted@;
        if at == sorted.len() || sorted[at] != id {
            sorted.insert(at, id);
            proof {
                assert(sorted@[at as int] == id);
                assert forall|x: i64| #[trigger] sorted@.contains(x) <==> before.contains(x) || x
                    == id by {
                    if before.contains(x) {
                        let k = choose|k: int| 0 <= k < before.len() && before[k] == x;
                        if k < at {
                            assert(sorted@[k] == x);
                        } else {
                            assert(sorted@[k + 1] == x);
                        }
                    }
                    if sorted@.contains(x) {
                        let k = choose|k: int| 0 <= k < sorted@.len() && sorted@[k] == x;
                        if k < at {
                            assert(before[k] == x);
                        } else if k > at {
                            assert(before[k - 1] == x);
                        }
                    }
                }
            }
        } else {
            assert(before[at as int] == id);
        }
        proof {
            let prior = ids@.take(i as int);
            let now = ids@.take(i + 1);
            assert(now =~= prior.push(id));
            assert forall|x: i64| #[trigger] now.contains(x) <==> prior.contains(x) || x == id by {
                if prior.contains(x) {
                    let k = choose|k: int| 0 <= k < prior.len() && prior[k] == x;
                    assert(now[k] == x);
                }
                if x == id {
                    assert(now[i as int] == x);
                }
                if now.contains(x) {
                    let k = choose|k: int| 0 <= k < now.len() && now[k] == x;
                    if k < i {
                        assert(prior[k] == x);
                    }
                }
            }
        }
    }
    proof {
        assert(ids@.take(ids@.len() as int) =~= ids@);
    }
    sorted
}

/// A frame shows what its message says: the message, its sender and its time, and
/// of the attachment the size, the fingerprint and the address that it declares.
/// Videos are videos, files are files, and anything else is a photo.
pub proof fn law_a_frame_shows_its_message(
    row: MediaRow,
    members: Seq<MemberView>,
    frames: Seq<MediaFrameInput>,
    k: int,
)
    requires
        frame_views(frames) == row_frames(row, members),
        0 <= k < frames.len(),
    ensures
        frames[k].log_id == row.log_id,
        frames[k].idx == k,
        frames[k].sent_at == Some(row.sent_at),
        str_view(frames[k].sender) == Some(decimal_int(row.author_id as int)),
        frames[k].kind is Video <==> row.msg_type == 3,
        frames[k].kind is File <==> row.msg_type == 18,
        frames[k].filename is Some ==> str_view(frames[k].filename) == text_at(members, "name"@),
        row.msg_type == 18 ==> {
            &&& str_view(frames[k].filename) == text_at(members, "name"@)
            &&& int_at(members, "size"@) is Some ==> int_view(frames[k].size_bytes) == int_at(
                members,
                "size"@,
            )
            &&& int_at(members, "size"@) is None ==> int_view(frames[k].size_bytes) == int_at(
                members,
                "s"@,
            )
        },
        row.msg_type == 2 || row.msg_type == 3 ==> {
            &&& int_view(frames[k].width) == int_at(members, "w"@)
            &&& int_view(frames[k].height) == int_at(members, "h"@)
            &&& int_at(members, "s"@) is Some ==> int_view(frames[k].size_bytes) == int_at(
                members,
                "s"@,
            )
            &&& int_at(members, "s"@) is None ==> int_view(frames[k].size_bytes) == int_at(
                members,
                "size"@,
            )
        },
        row.msg_type == 2 || row.msg_type == 3 || row.msg_type == 18 ==> {
            &&& str_view(frames[k].checksum_sha1) == text_at(members, "cs"@)
            &&& str_view(frames[k].cdn_url) == text_at(members, "url"@)
        },
{
    assert(frame_views(frames).len() == frames.len());
    assert(frame_views(frames)[k] == frame_view(frames[k]));
}

/// An album has one frame for each fingerprint, and each frame shows the entries
/// at its own place in the album's lists.
pub proof fn law_an_album_shows_every_photo(
    row: MediaRow,
    members: Seq<MemberView>,
    frames: Seq<MediaFrameInput>,
    at: int,
    k: int,
)
    requires
        row.msg_type == 27,
        frame_views(frames) == row_frames(row, members),
        0 <= at < members.len(),
        members[at].key == "csl"@,
        forall|j: int| 0 <= j < at ==> (#[trigger] members[j]).key != "csl"@,
        members[at].items is Some,
    ensures
        frames.len() == members[at].items->0.len(),
        0 <= k < frames.len() ==> {
            let f = frames[k];
            &&& f.kind is Photo
            &&& str_view(f.checksum_sha1) == scalar_text(members[at].items->0[k])
            &&& str_view(f.cdn_url) == item_text(members, "imageUrls"@, k)
            &&& int_view(f.width) == item_int(members, "wl"@, k)
            &&& int_view(f.height) == item_int(members, "hl"@, k)
            &&& int_view(f.size_bytes) == item_int(members, "sl"@, k)
            &&& f.output_stem@ == decimal_int(row.log_id as int) + "_"@ + decimal(k as nat)
        },
{
    law_members_are_read_by_their_key(members, "csl"@, at, k);
    lemma_member_at(members, "csl"@);
    let n = member_index(members, "csl"@);
    if at < n {
        assert(members[at].key != "csl"@);
    }
    if n < at {
        assert(member_at(members, "csl"@) == Some(members[n]));
        assert(members[n].key != "csl"@);
    }
    assert(frame_views(frames).len() == frames.len());
    if 0 <= k < frames.len() {
        assert(frame_views(frames)[k] == frame_view(frames[k]));
    }
}

/// A frame is looked for in the cache under its own message and place: a file
/// nowhere, a video as a video, a photo as a photo.
pub proof fn law_a_frame_is_cached_under_its_message(
    row: MediaRow,
    members: Seq<MemberView>,
    frames: Seq<MediaFrameInput>,
    k: int,
)
    requires
        frame_views(frames) == row_frames(row, members),
        0 <= k < frames.len(),
    ensures
        ({
            let f = frames[k];
            let id = row.log_id;
            &&& match f.full_stem {
                CacheStem::Nothing => f.kind is File && f.thumb_stem == CacheStem::Nothing,
                CacheStem::Photo { log_id } => log_id == id && f.kind is Photo && f.full_ext@
                    == ".img"@ && f.thumb_stem == (CacheStem::PhotoThumb { log_id: id }),
                CacheStem::Video { log_id } => log_id == id && f.kind is Video && f.full_ext@
                    == ".vid"@ && f.thumb_stem == (CacheStem::PhotoThumb { log_id: id }),
                CacheStem::Album { log_id, idx } => log_id == id && idx == k && f.kind is Photo
                    && f.full_ext@ == ".img"@ && f.thumb_stem == (CacheStem::AlbumThumb {
                    log_id: id,
                    idx: f.idx,
                }),
                _ => false,
            }
            &&& f.full_stem is Album || f.output_stem@ == decimal_int(id as int)
        }),
{
    assert(frame_views(frames).len() == frames.len());
    assert(frame_views(frames)[k] == frame_view(frames[k]));
}

/// A query for some kinds asks for the rows whose frames are of these kinds, and
/// for no others.
pub proof fn law_only_wanted_kinds_are_asked_for(
    kinds: Seq<MediaKind>,
    row: MediaRow,
    members: Seq<MemberView>,
    k: int,
)
    requires
        0 <= k < row_frames(row, members).len(),
    ensures
        wants_type(kinds, row.msg_type) ==> kinds.len() == 0 || kinds.contains(
            row_frames(row, members)[k].kind,
        ),
        row.msg_type == 2 || row.msg_type == 3 || row.msg_type == 18 || row.msg_type == 27 ==> (
        kinds.len() == 0 || kinds.contains(row_frames(row, members)[k].kind) ==> wants_type(
            kinds,
            row.msg_type,
        )),
        wants_type(kinds, row.msg_type) ==> row.msg_type == 2 || row.msg_type == 3 || row.msg_type
            == 18 || row.msg_type == 27,
{
    let kind = row_frames(row, members)[k].kind;
    if wants_type(kinds, row.msg_type) {
        let w = choose|w: MediaKind| #[trigger]
            wants(kinds, w) && types_of_kind(w).contains(row.msg_type);
        assert(w == kind);
    }
    if kinds.len() == 0 || kinds.contains(kind) {
        assert(wants(kinds, kind));
    }
}

/// The first frame of a message and place is kept as it was read, and no frame
/// that was not read comes out.
pub proof fn law_the_first_of_a_frame_counts(frames: Seq<MediaFrameInput>, i: int)
    ensures
        0 <= i < frames.len() && (forall|j: int|
            0 <= j < i ==> !same_frame(#[trigger] frames[j], frames[i])) ==> first_frames(
            frames,
        ).contains(frames[i]),
        forall|k: int|
            0 <= k < first_frames(frames).len() ==> frames.contains(
                #[trigger] first_frames(frames)[k],
            ),
    decreases frames.len(),
{
    if frames.len() > 0 {
        let rest = frames.drop_last();
        let front = first_frames(rest);
        let all = first_frames(frames);
        law_the_first_of_a_frame_counts(rest, i);
        assert forall|k: int| 0 <= k < all.len() implies frames.contains(#[trigger] all[k]) by {
            if k < front.len() {
                assert(all[k] == front[k]);
                assert(rest.contains(front[k]));
                let j = choose|j: int| 0 <= j < rest.len() && rest[j] == front[k];
                assert(frames[j] == all[k]);
            } else {
                assert(frames[frames.len() - 1] == all[k]);
            }
        }
        if 0 <= i < frames.len() && (forall|j: int|
            0 <= j < i ==> !same_frame(#[trigger] frames[j], frames[i])) {
            if i < rest.len() {
                assert forall|j: int| 0 <= j < i implies !same_frame(
                    #[trigger] rest[j],
                    rest[i],
                ) by {
                    assert(rest[j] == frames[j]);
                }
                assert(front.contains(frames[i]));
                let k = choose|k: int| 0 <= k < front.len() && front[k] == frames[i];
                assert(all[k] == frames[i]);
            } else {
                assert(!holds_frame(front, frames.last())) by {
                    if holds_frame(front, frames.last()) {
                        let k = choose|k: int|
                            0 <= k < front.len() && same_frame(
                                #[trigger] front[k],
                                frames.last(),
                            );
                        assert(rest.contains(front[k]));
                        let j = choose|j: int| 0 <= j < rest.len() && rest[j] == front[k];
                        assert(same_frame(frames[j], frames[i]));
                    }
                }
                assert(all[front.len() as int] == frames[i]);
            }
        }
    }
}

/// The list holds every message type, in order, with a comma and a space between
/// neighbours.
pub proof fn law_the_list_holds_every_type(types: Seq<i64>, i: int)
    requires
        0 <= i < types.len(),
    ensures
        contains_text(listed(types), decimal_int(types[i] as int)),
        types.len() == 1 ==> listed(types) == decimal_int(types[0] as int),
        types.len() == 2 ==> listed(types) == decimal_int(types[0] as int) + seq![',', ' ']
            + decimal_int(types[1] as int),
{
    reveal_strlit(", ");
    let parts = types.map_values(|t: i64| decimal_int(t as int));
    law_join_holds_every_part(parts, ", "@);
    let at = part_start(parts, 2, i);
    assert(parts[i] == decimal_int(types[i] as int));
    assert(occurs_at(listed(types), parts[i], at));
    if types.len() == 2 {
        assert(parts.drop_last() =~= seq![parts[0]]);
        reveal_with_fuel(join, 2);
        assert(", "@ =~= seq![',', ' ']);
    }
}

} // verus!
