//! Cutting only the tail of a chat anew.
//!
//! A change to a chat leaves the chunks alone that end well before it. Walking
//! back from the change, the first chunk that follows a long pause is where the
//! cutting starts again: what stands before it is kept, what starts there or
//! later is replaced.

use crate::chunking::{
    boundary, chunk_of, chunk_view, chunk_views, chunks, concatenated, groups,
    law_chunks_partition_the_messages, law_consecutive_chunks_break,
    law_cutting_at_a_boundary_splits_the_work, starts_new, ChunkSettings, ChunkView, MessageView,
};
use crate::error::Error;
use crate::text::order::{le, lemma_le_antisymmetric, lemma_le_transitive, lt, text_lt};
use crate::time::{gap_between, gap_seconds};
use crate::types::ChunkDraft;
use vstd::prelude::*;

verus! {

/// The pause that starts a new window of chunks.
pub const DEFAULT_PARENT_WINDOW_SECONDS: i64 = 300;

/// When a stored chunk starts and ends.
#[derive(Debug, Clone)]
pub struct ChunkSpan {
    /// RFC 3339.
    pub started_at: String,
    /// RFC 3339.
    pub ended_at: String,
}

// ---------------------------------------------------------------------------
// The model
// ---------------------------------------------------------------------------

/// The model of a [`ChunkSpan`].
pub struct SpanView {
    pub started_at: Seq<char>,
    pub ended_at: Seq<char>,
}

/// The view of a span.
pub open spec fn span_view(span: ChunkSpan) -> SpanView {
    SpanView { started_at: span.started_at@, ended_at: span.ended_at@ }
}

/// The view of a list of spans.
pub open spec fn span_views(spans: Seq<ChunkSpan>) -> Seq<SpanView> {
    spans.map_values(|span: ChunkSpan| span_view(span))
}

/// The spans of chunks.
pub open spec fn spans_of(chunks: Seq<ChunkView>) -> Seq<SpanView> {
    chunks.map_values(
        |c: ChunkView| SpanView { started_at: c.started_at, ended_at: c.ended_at },
    )
}

/// Whether `next` follows `prev` after a pause that starts a new window. Nothing
/// where one of the times is unreadable.
pub open spec fn paused(prev: SpanView, next: SpanView) -> Option<bool> {
    match gap_seconds(prev.ended_at, next.started_at) {
        Some(gap) => Some(gap > DEFAULT_PARENT_WINDOW_SECONDS && prev.ended_at != next.started_at),
        None => None,
    }
}

/// Where the cutting starts again.
pub enum Cut {
    /// A pause has to be known and is not.
    Unreadable,
    /// At the start of the chat.
    Whole,
    /// At the chunk of this place.
    At(int),
}

/// The last chunk that starts before `changed` and follows a pause.
pub open spec fn cut(spans: Seq<SpanView>, changed: Seq<char>) -> Cut
    decreases spans.len(),
{
    if spans.len() < 2 {
        Cut::Whole
    } else if !lt(spans.last().started_at, changed) {
        cut(spans.drop_last(), changed)
    } else {
        match paused(spans[spans.len() - 2], spans.last()) {
            None => Cut::Unreadable,
            Some(true) => Cut::At(spans.len() - 1),
            Some(false) => cut(spans.drop_last(), changed),
        }
    }
}

/// The time from which everything is cut anew; nothing where that is the whole chat.
pub open spec fn floor_of(spans: Seq<SpanView>, changed: Seq<char>) -> Option<Seq<char>> {
    match cut(spans, changed) {
        Cut::At(k) => Some(spans[k].started_at),
        _ => None,
    }
}

/// The stored chunks that stay: those that start before the floor.
pub open spec fn kept(chunks: Seq<ChunkView>, floor: Option<Seq<char>>) -> Seq<ChunkView>
    decreases chunks.len(),
{
    if chunks.len() == 0 {
        seq![]
    } else {
        let front = kept(chunks.drop_last(), floor);
        if floor matches Some(floor) && lt(chunks.last().started_at, floor) {
            front.push(chunks.last())
        } else {
            front
        }
    }
}

/// The messages that are cut anew: those at the floor or later.
pub open spec fn since(messages: Seq<MessageView>, floor: Option<Seq<char>>) -> Seq<MessageView>
    decreases messages.len(),
{
    if messages.len() == 0 {
        seq![]
    } else {
        let front = since(messages.drop_last(), floor);
        if floor matches Some(floor) && lt(messages.last().timestamp, floor) {
            front
        } else {
            front.push(messages.last())
        }
    }
}

/// The chunks of a chat after its tail was cut anew: `stored` are its chunks,
/// `messages` its messages, of which none before `changed` changed.
pub open spec fn rebuilt(
    stored: Seq<ChunkView>,
    messages: Seq<MessageView>,
    settings: ChunkSettings,
    changed: Seq<char>,
) -> Option<Seq<ChunkView>> {
    let floor = floor_of(spans_of(stored), changed);
    match chunks(since(messages, floor), settings) {
        Some(tail) => Some(kept(stored, floor) + tail),
        None => None,
    }
}

// ---------------------------------------------------------------------------
// The functions
// ---------------------------------------------------------------------------

/// The time from which the chunks of a chat are cut anew after a change at
/// `changed`; nothing where that is the whole chat. `spans` are the spans of the
/// chat's chunks, in order.
pub fn tail_rebuild_start(spans: &[ChunkSpan], changed: &str) -> (r: Result<Option<String>, Error>)
    ensures
        match r {
            Ok(floor) => {
                &&& cut(span_views(spans@), changed@) !is Unreadable
                &&& floor_of(span_views(spans@), changed@) == match floor {
                    Some(floor) => Some(floor@),
                    None => None,
                }
            },
            Err(error) => error is Time && cut(span_views(spans@), changed@) is Unreadable,
        },
{
    let ghost all = span_views(spans@);
    let mut n: usize = spans.len();
    proof {
        assert(all.take(n as int) =~= all);
    }
    while n > 1
        invariant
            all == span_views(spans@),
            n <= spans@.len(),
            cut(all.take(n as int), changed@) == cut(all, changed@),
        decreases n,
    {
        let next = &spans[n - 1];
        let prev = &spans[n - 2];
        proof {
            let front = all.take(n as int);
            assert(front.drop_last() =~= all.take(n - 1));
            assert(front.last() == span_view(*next));
            assert(front[n - 2] == span_view(*prev));
        }
        if text_lt(next.started_at.as_str(), changed) {
            match gap_between(prev.ended_at.as_str(), next.started_at.as_str()) {
                None => return Err(Error::Time),
                Some(gap) => {
                    if gap > DEFAULT_PARENT_WINDOW_SECONDS {
                        return Ok(Some(next.started_at.clone()));
                    }
                },
            }
        }
        n = n - 1;
    }
    Ok(None)
}

/// Replaces the chunks of a chat from `floor` on by `drafts`; all of them where
/// there is no floor.
pub fn replace_chunk_tail(
    stored: Vec<ChunkDraft>,
    floor: Option<&str>,
    drafts: Vec<ChunkDraft>,
) -> (result: Vec<ChunkDraft>)
    ensures
        chunk_views(result@) == kept(
            chunk_views(stored@),
            match floor {
                Some(floor) => Some(floor@),
                None => None,
            },
        ) + chunk_views(drafts@),
{
    let ghost all = chunk_views(stored@);
    let ghost bound: Option<Seq<char>> = match floor {
        Some(floor) => Some(floor@),
        None => None,
    };
    let mut result: Vec<ChunkDraft> = Vec::new();
    assert(chunk_views(result@) =~= kept(all.take(0), bound));
    for chunk in iter: stored
        invariant
            iter.seq() == stored@,
            all == chunk_views(stored@),
            bound == match floor {
                Some(floor) => Some(floor@),
                None => None,
            },
            chunk_views(result@) == kept(all.take(iter.index() as int), bound),
    {
        let ghost before = chunk_views(result@);
        let stays = match floor {
            Some(floor) => text_lt(chunk.started_at.as_str(), floor),
            None => false,
        };
        proof {
            let i = iter.index() as int;
            assert(all.take(i + 1).drop_last() =~= all.take(i));
            assert(all.take(i + 1).last() == chunk_view(chunk));
        }
        if stays {
            let ghost view = chunk_view(chunk);
            result.push(chunk);
            assert(chunk_views(result@) =~= before.push(view));
        }
    }
    assert(all.take(all.len() as int) =~= all);
    let ghost head = result@;
    let mut drafts = drafts;
    let ghost tail = drafts@;
    result.append(&mut drafts);
    assert(chunk_views(result@) =~= chunk_views(head) + chunk_views(tail));
    result
}

// ---------------------------------------------------------------------------
// Laws
// ---------------------------------------------------------------------------

/// Whether no message comes before an earlier one.
pub open spec fn in_time_order(messages: Seq<MessageView>) -> bool {
    forall|i: int, j: int|
        0 <= i <= j < messages.len() ==> le(
            (#[trigger] messages[i]).timestamp,
            (#[trigger] messages[j]).timestamp,
        )
}

/// A cut is at a chunk that starts before the change and follows a pause.
proof fn lemma_cut(spans: Seq<SpanView>, changed: Seq<char>)
    ensures
        cut(spans, changed) matches Cut::At(k) ==> {
            &&& 0 < k < spans.len()
            &&& lt(spans[k].started_at, changed)
            &&& paused(spans[k - 1], spans[k]) == Some(true)
        },
    decreases spans.len(),
{
    if spans.len() >= 2 {
        lemma_cut(spans.drop_last(), changed);
    }
}

/// The cut is at the last chunk that starts before the change and follows a
/// pause; where there is no such chunk, the whole chat is cut anew.
pub proof fn law_cut_is_the_last_pause(spans: Seq<SpanView>, changed: Seq<char>, j: int)
    requires
        0 < j < spans.len(),
        lt(spans[j].started_at, changed),
    ensures
        paused(spans[j - 1], spans[j]) == Some(true) ==> match cut(spans, changed) {
            Cut::At(k) => j <= k && lt(spans[k].started_at, changed) && paused(
                spans[k - 1],
                spans[k],
            ) == Some(true),
            Cut::Whole => false,
            Cut::Unreadable => true,
        },
    decreases spans.len(),
{
    lemma_cut(spans, changed);
    if j < spans.len() - 1 {
        law_cut_is_the_last_pause(spans.drop_last(), changed, j);
    }
}

/// A change without a time has the whole chat cut anew.
pub proof fn law_untimed_change_rebuilds_the_chat(spans: Seq<SpanView>)
    ensures
        cut(spans, seq![]) is Whole,
    decreases spans.len(),
{
    if spans.len() >= 2 {
        law_untimed_change_rebuilds_the_chat(spans.drop_last());
    }
}

/// The first runs and the others make up all runs.
proof fn lemma_concatenated_parts(runs: Seq<Seq<MessageView>>, k: int)
    requires
        0 <= k <= runs.len(),
    ensures
        concatenated(runs) == concatenated(runs.take(k)) + concatenated(runs.skip(k)),
    decreases runs.len(),
{
    if k == runs.len() {
        assert(runs.take(k) =~= runs);
        assert(runs.skip(k) =~= Seq::<Seq<MessageView>>::empty());
        assert(concatenated(runs) =~= concatenated(runs) + concatenated(runs.skip(k)));
    } else {
        lemma_concatenated_parts(runs.drop_last(), k);
        assert(runs.drop_last().take(k) =~= runs.take(k));
        assert(runs.drop_last().skip(k) =~= runs.skip(k).drop_last());
        assert(runs.skip(k).last() == runs.last());
        assert(concatenated(runs) =~= concatenated(runs.take(k)) + concatenated(runs.skip(k)));
    }
}

/// The messages of the runs start with the first run.
proof fn lemma_concatenated_first(runs: Seq<Seq<MessageView>>)
    requires
        runs.len() > 0,
        runs[0].len() > 0,
    ensures
        concatenated(runs).len() > 0,
        concatenated(runs)[0] == runs[0][0],
    decreases runs.len(),
{
    if runs.len() > 1 {
        lemma_concatenated_first(runs.drop_last());
    } else {
        assert(concatenated(runs.drop_last()) =~= Seq::<MessageView>::empty());
        assert(concatenated(runs) =~= runs[0]);
    }
}

/// More runs hold more messages.
proof fn lemma_longer(runs: Seq<Seq<MessageView>>, i: int, j: int)
    requires
        0 <= i < j <= runs.len(),
        forall|r: int| 0 <= r < runs.len() ==> (#[trigger] runs[r]).len() > 0,
    ensures
        concatenated(runs.take(i)).len() < concatenated(runs.take(j)).len(),
    decreases j,
{
    assert(runs.take(j).drop_last() =~= runs.take(j - 1));
    assert(runs.take(j).last() == runs[j - 1]);
    if i < j - 1 {
        lemma_longer(runs, i, j - 1);
    }
}

/// Where a run starts among all messages.
proof fn lemma_run_start(runs: Seq<Seq<MessageView>>, i: int)
    requires
        0 <= i < runs.len(),
        forall|r: int| 0 <= r < runs.len() ==> (#[trigger] runs[r]).len() > 0,
    ensures
        concatenated(runs.take(i)).len() < concatenated(runs).len(),
        concatenated(runs)[concatenated(runs.take(i)).len() as int] == runs[i][0],
{
    lemma_concatenated_parts(runs, i);
    assert(runs.skip(i)[0] == runs[i]);
    lemma_concatenated_first(runs.skip(i));
}

/// All chunks that start before the floor stay, and those after them go.
proof fn lemma_kept(chunks: Seq<ChunkView>, floor: Seq<char>, k: int)
    requires
        0 <= k <= chunks.len(),
        forall|i: int| 0 <= i < k ==> lt((#[trigger] chunks[i]).started_at, floor),
        forall|i: int| k <= i < chunks.len() ==> !lt((#[trigger] chunks[i]).started_at, floor),
    ensures
        kept(chunks, Some(floor)) == chunks.take(k),
    decreases chunks.len(),
{
    if chunks.len() > 0 {
        let front = chunks.drop_last();
        if k == chunks.len() {
            lemma_kept(front, floor, k - 1);
            assert(front.take(k - 1).push(chunks.last()) =~= chunks.take(k));
        } else {
            lemma_kept(front, floor, k);
            assert(front.take(k) =~= chunks.take(k));
        }
    } else {
        assert(kept(chunks, Some(floor)) =~= chunks.take(k));
    }
}

/// The messages before the floor are left out, and those after them are cut.
proof fn lemma_since(messages: Seq<MessageView>, floor: Seq<char>, h: int)
    requires
        0 <= h <= messages.len(),
        forall|i: int| 0 <= i < h ==> lt((#[trigger] messages[i]).timestamp, floor),
        forall|i: int| h <= i < messages.len() ==> !lt((#[trigger] messages[i]).timestamp, floor),
    ensures
        since(messages, Some(floor)) == messages.skip(h),
    decreases messages.len(),
{
    if messages.len() > 0 {
        let front = messages.drop_last();
        if h == messages.len() {
            lemma_since(front, floor, h - 1);
            assert(front.skip(h - 1) =~= messages.skip(h));
        } else {
            lemma_since(front, floor, h);
            assert(front.skip(h).push(messages.last()) =~= messages.skip(h));
        }
    } else {
        assert(since(messages, Some(floor)) =~= messages.skip(h));
    }
}

/// Without a floor nothing stays and everything is cut.
proof fn lemma_no_floor(chunks: Seq<ChunkView>, messages: Seq<MessageView>)
    ensures
        kept(chunks, None) == Seq::<ChunkView>::empty(),
        since(messages, None) == messages,
    decreases chunks.len() + messages.len(),
{
    if chunks.len() > 0 {
        lemma_no_floor(chunks.drop_last(), messages);
    } else if messages.len() > 0 {
        lemma_no_floor(chunks, messages.drop_last());
        assert(messages.drop_last().push(messages.last()) =~= messages);
    } else {
        assert(since(messages, None) =~= messages);
    }
}

/// In time order, the messages before one that is later than the message just
/// before it are all earlier than it, and those after it are not.
proof fn lemma_parted(messages: Seq<MessageView>, h: int)
    requires
        in_time_order(messages),
        0 < h < messages.len(),
        messages[h - 1].timestamp != messages[h].timestamp,
    ensures
        forall|i: int|
            0 <= i < h ==> lt((#[trigger] messages[i]).timestamp, messages[h].timestamp),
        forall|i: int|
            h <= i < messages.len() ==> !lt(
                (#[trigger] messages[i]).timestamp,
                messages[h].timestamp,
            ),
{
    let floor = messages[h].timestamp;
    let last = messages[h - 1].timestamp;
    assert forall|i: int| 0 <= i < h implies lt((#[trigger] messages[i]).timestamp, floor) by {
        let t = messages[i].timestamp;
        assert(le(t, last) && le(last, floor));
        if le(floor, t) {
            lemma_le_transitive(floor, t, last);
            lemma_le_antisymmetric(floor, last);
        }
    }
    assert forall|i: int| h <= i < messages.len() implies !lt(
        (#[trigger] messages[i]).timestamp,
        floor,
    ) by {
        assert(le(messages[h].timestamp, messages[i].timestamp));
    }
}

/// Where a chat is cut, what stays is the chunks of the first messages, all of
/// them before the change. How many these are.
pub proof fn lemma_cut_head(
    common: Seq<MessageView>,
    old_rest: Seq<MessageView>,
    settings: ChunkSettings,
    changed: Seq<char>,
) -> (h: int)
    requires
        in_time_order(common + old_rest),
        forall|i: int|
            0 <= i < old_rest.len() ==> !lt((#[trigger] old_rest[i]).timestamp, changed),
    ensures
        chunks(common + old_rest, settings) matches Some(stored) ==> (floor_of(
            spans_of(stored),
            changed,
        ) matches Some(floor) ==> {
            &&& 0 < h < common.len()
            &&& common[h].timestamp == floor
            &&& common[h - 1].timestamp != floor
            &&& starts_new(common[h - 1], common[h], settings) == Some(true)
            &&& chunks(common.take(h), settings) == Some(kept(stored, Some(floor)))
        }),
{
    let all = common + old_rest;
    let h = match chunks(all, settings) {
        Some(stored) => match cut(spans_of(stored), changed) {
            Cut::At(k) => concatenated((groups(all, settings)->0).take(k)).len() as int,
            _ => 0,
        },
        None => 0,
    };
    if let Some(stored) = chunks(all, settings) {
        let spans = spans_of(stored);
        lemma_cut(spans, changed);
        if let Cut::At(k) = cut(spans, changed) {
            let runs = groups(all, settings)->0;
            let floor = spans[k].started_at;
            law_chunks_partition_the_messages(all, settings);
            lemma_concatenated_parts(runs, k);
            let head = concatenated(runs.take(k));
            let tail = concatenated(runs.skip(k));
            // The two sides of the cut.
            assert(stored[k] == chunk_of(runs[k]));
            assert(stored[k - 1] == chunk_of(runs[k - 1]));
            assert(runs.take(k).last() == runs[k - 1]);
            assert(runs.skip(k)[0] == runs[k]);
            assert(runs[k - 1].len() > 0 && runs[k].len() > 0);
            lemma_concatenated_first(runs.skip(k));
            assert(head.last() == runs[k - 1].last());
            assert(all[h - 1] == head.last());
            assert(all[h] == tail[0]);
            assert(all[h].timestamp == floor);
            assert(all[h - 1].timestamp == stored[k - 1].ended_at);
            law_consecutive_chunks_break(all, settings, k);
            // The cut lies in what did not change.
            if h >= common.len() {
                assert(all[h] == old_rest[h - common.len()]);
                assert(false);
            }
            assert(all[h] == common[h] && all[h - 1] == common[h - 1]);
            assert(head =~= all.take(h));
            assert(head =~= common.take(h));
            assert(boundary(head, tail, settings));
            law_cutting_at_a_boundary_splits_the_work(head, tail, settings);
            // What stays.
            lemma_parted(all, h);
            let as_chunk = |run: Seq<MessageView>| chunk_of(run);
            let a = groups(head, settings)->0;
            let b = groups(tail, settings)->0;
            assert(runs == a + b);
            assert(a =~= runs.take(a.len() as int));
            law_chunks_partition_the_messages(head, settings);
            if a.len() < k {
                lemma_longer(runs, a.len() as int, k);
            } else if a.len() > k {
                lemma_longer(runs, k, a.len() as int);
            }
            assert forall|i: int| 0 <= i < stored.len() implies lt(
                (#[trigger] stored[i]).started_at,
                floor,
            ) == (i < k) by {
                assert(stored[i] == chunk_of(runs[i]));
                lemma_run_start(runs, i);
                if i < k {
                    lemma_longer(runs, i, k);
                } else if i > k {
                    lemma_longer(runs, k, i);
                }
            }
            lemma_kept(stored, floor, k);
            assert(stored.take(k) =~= a.map_values(as_chunk));
        }
    }
    h
}

/// Cutting the tail anew gives what cutting the whole chat anew gives. The
/// messages are in time order, and where the chat changed, before (`old_rest`)
/// and after (`new_rest`), nothing is earlier than `changed`.
pub proof fn law_scoped_rebuild_equals_full_rebuild(
    common: Seq<MessageView>,
    old_rest: Seq<MessageView>,
    new_rest: Seq<MessageView>,
    settings: ChunkSettings,
    changed: Seq<char>,
)
    requires
        in_time_order(common + old_rest),
        in_time_order(common + new_rest),
        forall|i: int|
            0 <= i < old_rest.len() ==> !lt((#[trigger] old_rest[i]).timestamp, changed),
        forall|i: int|
            0 <= i < new_rest.len() ==> !lt((#[trigger] new_rest[i]).timestamp, changed),
    ensures
        chunks(common + old_rest, settings) matches Some(stored) ==> rebuilt(
            stored,
            common + new_rest,
            settings,
            changed,
        ) == chunks(common + new_rest, settings),
{
    let new_all = common + new_rest;
    let h = lemma_cut_head(common, old_rest, settings, changed);
    if let Some(stored) = chunks(common + old_rest, settings) {
        match floor_of(spans_of(stored), changed) {
            Some(floor) => {
                let head = common.take(h);
                let tail = new_all.skip(h);
                assert(new_all[h] == common[h] && new_all[h - 1] == common[h - 1]);
                assert(new_all =~= head + tail);
                assert(boundary(head, tail, settings));
                law_cutting_at_a_boundary_splits_the_work(head, tail, settings);
                lemma_parted(new_all, h);
                lemma_since(new_all, floor, h);
                let as_chunk = |run: Seq<MessageView>| chunk_of(run);
                let a = groups(head, settings)->0;
                if let Some(c) = groups(tail, settings) {
                    assert((a + c).map_values(as_chunk) =~= a.map_values(as_chunk) + c.map_values(
                        as_chunk,
                    ));
                }
            },
            None => {
                lemma_no_floor(stored, new_all);
                if let Some(fresh) = chunks(new_all, settings) {
                    assert(Seq::<ChunkView>::empty() + fresh =~= fresh);
                }
            },
        }
    }
}

/// A span is seen as it was read, and a chunk spans from its start to its end.
pub proof fn law_spans_run_from_start_to_end(
    spans: Seq<ChunkSpan>,
    chunks: Seq<ChunkView>,
    i: int,
)
    ensures
        span_views(spans).len() == spans.len(),
        0 <= i < spans.len() ==> span_views(spans)[i].started_at == spans[i].started_at@
            && span_views(spans)[i].ended_at == spans[i].ended_at@,
        spans_of(chunks).len() == chunks.len(),
        0 <= i < chunks.len() ==> spans_of(chunks)[i].started_at == chunks[i].started_at
            && spans_of(chunks)[i].ended_at == chunks[i].ended_at,
{
}

/// Every message at the floor or later is cut anew, in order, and no earlier one;
/// without a floor all of them are.
pub proof fn law_everything_since_the_floor_is_cut_anew(
    messages: Seq<MessageView>,
    floor: Option<Seq<char>>,
    m: MessageView,
)
    ensures
        since(messages, floor).contains(m) <==> messages.contains(m) && (floor matches Some(start)
            ==> !lt(m.timestamp, start)),
        (floor matches Some(start) ==> !lt(m.timestamp, start)) ==> since(messages.push(m), floor)
            == since(messages, floor).push(m),
        floor is None ==> since(messages, floor) == messages,
    decreases messages.len(),
{
    assert(messages.push(m).drop_last() =~= messages);
    if messages.len() > 0 {
        let front = messages.drop_last();
        let all = since(messages, floor);
        let held = since(front, floor);
        law_everything_since_the_floor_is_cut_anew(front, floor, m);
        assert(messages[messages.len() - 1] == messages.last());
        assert(front.push(messages.last()) =~= messages);
        if messages.contains(m) && (floor matches Some(start) ==> !lt(m.timestamp, start)) {
            let i = choose|i: int| 0 <= i < messages.len() && messages[i] == m;
            if i < front.len() {
                assert(front[i] == m);
                let k = choose|k: int| 0 <= k < held.len() && held[k] == m;
                assert(all[k] == m);
            } else {
                assert(all[held.len() as int] == m);
            }
        }
        if all.contains(m) {
            let k = choose|k: int| 0 <= k < all.len() && all[k] == m;
            if k < held.len() {
                assert(held[k] == m);
                let i = choose|i: int| 0 <= i < front.len() && front[i] == m;
                assert(messages[i] == m);
            }
        }
    } else {
        assert(since(messages, floor) =~= messages);
    }
}

} // verus!
