//! What a scoped rebuild leaves behind.
//!
//! After a sync only the tails of the chats that changed are cut anew, and only
//! their edges and references are made anew. The archive is then the one that
//! cutting and linking everything would leave.

use crate::archive::replies::{
    answers_into, chunk_of, ids_keep_their_chat, is_edge, is_edge_in, is_message_in, is_message_of,
    is_ref, is_ref_in, known, law_edges_of_the_chats_are_enough,
    law_references_of_the_chats_are_enough, same_elsewhere, was_message_in, EdgeView, PlacedView,
    RefView, ReplyView,
};
use crate::chunking::tail::{
    floor_of, in_time_order, kept, law_scoped_rebuild_equals_full_rebuild, lemma_cut_head, rebuilt,
    spans_of,
};
use crate::chunking::{
    chunks, concatenated, groups, law_chunks_partition_the_messages, ChunkSettings, ChunkView,
    MessageView,
};
use crate::text::order::lt;
use vstd::prelude::*;

verus! {

// ---------------------------------------------------------------------------
// The model
// ---------------------------------------------------------------------------

/// The messages of a chunk, each with the chunk.
pub open spec fn placed_of(chunk: ChunkView) -> Seq<PlacedView> {
    chunk.message_ids.map_values(|id: Seq<char>| PlacedView { chunk: chunk.chunk_id, id })
}

/// The messages of the chunks, each with its chunk.
pub open spec fn placed_in(list: Seq<ChunkView>) -> Seq<PlacedView>
    decreases list.len(),
{
    if list.len() == 0 {
        seq![]
    } else {
        placed_in(list.drop_last()) + placed_of(list.last())
    }
}

/// Whether no two chunks have the same id.
pub open spec fn ids_are_unique(list: Seq<ChunkView>) -> bool {
    forall|i: int, j: int|
        0 <= i < j < list.len() ==> (#[trigger] list[i]).chunk_id != (#[trigger] list[j]).chunk_id
}

/// Whether a chunk goes: it does not start before the floor.
pub open spec fn goes(chunk: ChunkView, floor: Option<Seq<char>>) -> bool {
    floor matches Some(floor) ==> !lt(chunk.started_at, floor)
}

/// The ids of the chunks that go.
pub open spec fn dropped(stored: Seq<ChunkView>, floor: Option<Seq<char>>) -> Set<Seq<char>> {
    Set::new(
        |id: Seq<char>|
            exists|i: int|
                0 <= i < stored.len() && (#[trigger] stored[i]).chunk_id == id && goes(
                    stored[i],
                    floor,
                ),
    )
}

/// Whether every message is known as one of the chat.
pub open spec fn all_known(
    messages: Seq<MessageView>,
    replies: Seq<ReplyView>,
    chat: Seq<char>,
) -> bool {
    forall|i: int|
        0 <= i < messages.len() ==> is_message_of(
            replies,
            chat,
            (#[trigger] messages[i]).message_id,
        )
}

/// Whether `id` is the id of one of the messages.
pub open spec fn has_id(messages: Seq<MessageView>, id: Seq<char>) -> bool {
    exists|i: int| 0 <= i < messages.len() && (#[trigger] messages[i]).message_id == id
}

/// A chat that changed: the messages that stayed as they were, those after them
/// as they were and as they are, and the time of the earliest change.
pub struct ChatChange {
    pub chat: Seq<char>,
    pub common: Seq<MessageView>,
    pub old_rest: Seq<MessageView>,
    pub new_rest: Seq<MessageView>,
    pub changed: Seq<char>,
}

impl ChatChange {
    /// The messages before the change.
    pub open spec fn was(self) -> Seq<MessageView> {
        self.common + self.old_rest
    }

    /// The messages now.
    pub open spec fn now(self) -> Seq<MessageView> {
        self.common + self.new_rest
    }

    /// Whether the messages are in time order, and nothing that changed is
    /// earlier than the earliest change.
    pub open spec fn in_order(self) -> bool {
        &&& in_time_order(self.was())
        &&& in_time_order(self.now())
        &&& forall|i: int|
            0 <= i < self.old_rest.len() ==> !lt(
                (#[trigger] self.old_rest[i]).timestamp,
                self.changed,
            )
        &&& forall|i: int|
            0 <= i < self.new_rest.len() ==> !lt(
                (#[trigger] self.new_rest[i]).timestamp,
                self.changed,
            )
    }

    /// Whether the messages can be cut, as they were and as they are.
    pub open spec fn cuttable(self, settings: ChunkSettings) -> bool {
        chunks(self.was(), settings) is Some && chunks(self.now(), settings) is Some
    }

    /// The chunks that were stored.
    pub open spec fn stored(self, settings: ChunkSettings) -> Seq<ChunkView> {
        chunks(self.was(), settings)->0
    }

    /// The chunks that cutting the whole chat anew gives.
    pub open spec fn fresh(self, settings: ChunkSettings) -> Seq<ChunkView> {
        chunks(self.now(), settings)->0
    }

    /// The chunks after the tail was cut anew.
    pub open spec fn scoped(self, settings: ChunkSettings) -> Seq<ChunkView> {
        rebuilt(self.stored(settings), self.now(), settings, self.changed)->0
    }

    /// The ids of the chunks that went with the tail.
    pub open spec fn gone(self, settings: ChunkSettings) -> Set<Seq<char>> {
        dropped(
            self.stored(settings),
            floor_of(spans_of(self.stored(settings)), self.changed),
        )
    }
}

/// The ids of the chats.
pub open spec fn chat_ids(touched: Seq<ChatChange>) -> Set<Seq<char>> {
    Set::new(
        |chat: Seq<char>|
            exists|i: int| 0 <= i < touched.len() && (#[trigger] touched[i]).chat == chat,
    )
}

/// The chunks that were stored for the chats, one chat after the other.
pub open spec fn all_stored(touched: Seq<ChatChange>, settings: ChunkSettings) -> Seq<ChunkView>
    decreases touched.len(),
{
    if touched.len() == 0 {
        seq![]
    } else {
        all_stored(touched.drop_last(), settings) + touched.last().stored(settings)
    }
}

/// The chunks that cutting the chats anew gives.
pub open spec fn all_fresh(touched: Seq<ChatChange>, settings: ChunkSettings) -> Seq<ChunkView>
    decreases touched.len(),
{
    if touched.len() == 0 {
        seq![]
    } else {
        all_fresh(touched.drop_last(), settings) + touched.last().fresh(settings)
    }
}

/// The chunks after the tails of the chats were cut anew, one chat after the other.
pub open spec fn all_scoped(touched: Seq<ChatChange>, settings: ChunkSettings) -> Seq<ChunkView>
    decreases touched.len(),
{
    if touched.len() == 0 {
        seq![]
    } else {
        all_scoped(touched.drop_last(), settings) + touched.last().scoped(settings)
    }
}

/// The ids of the chunks that went.
pub open spec fn all_gone(touched: Seq<ChatChange>, settings: ChunkSettings) -> Set<Seq<char>> {
    Set::new(
        |id: Seq<char>|
            exists|i: int|
                0 <= i < touched.len() && (#[trigger] touched[i]).gone(settings).contains(id),
    )
}

/// How the replies of an archive changed with the messages of some chats: those
/// of other chats are the same, and so are those of the messages that did not
/// change; an id belongs to one chat.
pub open spec fn replies_follow(
    before: Seq<ReplyView>,
    after: Seq<ReplyView>,
    touched: Seq<ChatChange>,
) -> bool {
    &&& same_elsewhere(before, after, chat_ids(touched))
    &&& ids_keep_their_chat(before, after)
    &&& forall|i: int|
        0 <= i < touched.len() ==> all_known(
            (#[trigger] touched[i]).was(),
            before,
            touched[i].chat,
        ) && all_known(touched[i].now(), after, touched[i].chat)
    &&& forall|i: int, m: ReplyView|
        0 <= i < touched.len() && #[trigger] before.contains(m) && m.chat == (
        #[trigger] touched[i]).chat && has_id(touched[i].common, m.id) ==> after.contains(m)
}

// ---------------------------------------------------------------------------
// Facts
// ---------------------------------------------------------------------------

/// The messages of two lists of chunks are those of the one and then of the other.
proof fn lemma_placed_parts(a: Seq<ChunkView>, b: Seq<ChunkView>)
    ensures
        placed_in(a + b) == placed_in(a) + placed_in(b),
    decreases b.len(),
{
    if b.len() == 0 {
        assert(a + b =~= a);
        assert(placed_in(a) + placed_in(b) =~= placed_in(a));
    } else {
        lemma_placed_parts(a, b.drop_last());
        assert((a + b).drop_last() =~= a + b.drop_last());
        assert((a + b).last() == b.last());
        assert(placed_in(a + b) =~= placed_in(a) + placed_in(b));
    }
}

/// Whether the chunk of `p` is in the list and holds its message.
pub open spec fn holds(list: Seq<ChunkView>, p: PlacedView) -> bool {
    exists|i: int|
        0 <= i < list.len() && (#[trigger] list[i]).chunk_id == p.chunk
            && list[i].message_ids.contains(p.id)
}

/// What is placed is in a chunk of the list.
proof fn lemma_placed(list: Seq<ChunkView>, p: PlacedView)
    ensures
        placed_in(list).contains(p) <==> holds(list, p),
    decreases list.len(),
{
    if list.len() > 0 {
        let front = list.drop_last();
        let last = list.last();
        lemma_placed(front, p);
        let (x, y) = (placed_in(front), placed_of(last));
        if placed_in(list).contains(p) {
            let k = choose|k: int| 0 <= k < placed_in(list).len() && placed_in(list)[k] == p;
            if k < x.len() {
                assert(x[k] == p);
                let i = choose|i: int|
                    0 <= i < front.len() && (#[trigger] front[i]).chunk_id == p.chunk
                        && front[i].message_ids.contains(p.id);
                assert(list[i] == front[i]);
            } else {
                assert(y[k - x.len()] == p);
                assert(last.message_ids[k - x.len()] == p.id);
                assert(list[list.len() - 1].chunk_id == p.chunk);
            }
        }
        if holds(list, p) {
            let i = choose|i: int|
                0 <= i < list.len() && (#[trigger] list[i]).chunk_id == p.chunk
                    && list[i].message_ids.contains(p.id);
            if i < front.len() {
                assert(front[i] == list[i]);
                let k = choose|k: int| 0 <= k < x.len() && x[k] == p;
                assert(placed_in(list)[k] == p);
            } else {
                let k = choose|k: int|
                    0 <= k < last.message_ids.len() && last.message_ids[k] == p.id;
                assert(y[k] == p);
                assert(placed_in(list)[x.len() + k] == p);
            }
        }
    }
}

/// A message is looked up in the first part, and then in the second.
proof fn lemma_lookup(a: Seq<PlacedView>, b: Seq<PlacedView>, id: Seq<char>)
    requires
        forall|p: PlacedView| #[trigger] b.contains(p) ==> p.id != id,
    ensures
        chunk_of(a + b, id) == chunk_of(a, id),
    decreases b.len(),
{
    if b.len() == 0 {
        assert(a + b =~= a);
    } else {
        let front = b.drop_last();
        assert forall|p: PlacedView| #[trigger] front.contains(p) implies p.id != id by {
            let k = choose|k: int| 0 <= k < front.len() && front[k] == p;
            assert(b[k] == p);
            assert(b.contains(p));
        }
        lemma_lookup(a, front, id);
        assert((a + b).drop_last() =~= a + front);
        assert(b[b.len() - 1] == b.last());
        assert(b.contains(b.last()));
    }
}

/// A message of a run is a message.
proof fn lemma_in_runs(runs: Seq<Seq<MessageView>>, i: int, j: int)
    requires
        0 <= i < runs.len(),
        0 <= j < runs[i].len(),
    ensures
        has_id(concatenated(runs), runs[i][j].message_id),
    decreases runs.len(),
{
    let front = concatenated(runs.drop_last());
    if i == runs.len() - 1 {
        assert(concatenated(runs)[front.len() + j] == runs[i][j]);
    } else {
        lemma_in_runs(runs.drop_last(), i, j);
        let k = choose|k: int|
            0 <= k < front.len() && (#[trigger] front[k]).message_id == runs[i][j].message_id;
        assert(concatenated(runs)[k] == front[k]);
    }
}

/// What is in the chunks of messages is one of them.
proof fn lemma_in_chunks(messages: Seq<MessageView>, settings: ChunkSettings, p: PlacedView)
    ensures
        chunks(messages, settings) matches Some(list) ==> (placed_in(list).contains(p) ==> has_id(
            messages,
            p.id,
        )),
{
    if let Some(list) = chunks(messages, settings) {
        lemma_placed(list, p);
        if placed_in(list).contains(p) {
            law_chunks_partition_the_messages(messages, settings);
            let runs = groups(messages, settings)->0;
            let i = choose|i: int|
                0 <= i < list.len() && (#[trigger] list[i]).chunk_id == p.chunk
                    && list[i].message_ids.contains(p.id);
            assert(list[i] == crate::chunking::chunk_of(runs[i]));
            let j = choose|j: int|
                0 <= j < list[i].message_ids.len() && list[i].message_ids[j] == p.id;
            assert(runs[i][j].message_id == p.id);
            lemma_in_runs(runs, i, j);
        }
    }
}

/// The chunks that stay are those that do not go.
proof fn lemma_stays(list: Seq<ChunkView>, floor: Option<Seq<char>>)
    ensures
        forall|i: int|
            0 <= i < list.len() && !goes(#[trigger] list[i], floor) ==> kept(list, floor).contains(
                list[i],
            ),
        forall|c: ChunkView| #[trigger]
            kept(list, floor).contains(c) ==> list.contains(c) && !goes(c, floor),
    decreases list.len(),
{
    if list.len() > 0 {
        let front = list.drop_last();
        let rest = kept(front, floor);
        let all = kept(list, floor);
        lemma_stays(front, floor);
        assert forall|c: ChunkView| #[trigger] all.contains(c) implies list.contains(c) && !goes(
            c,
            floor,
        ) by {
            let k = choose|k: int| 0 <= k < all.len() && all[k] == c;
            if k < rest.len() {
                assert(rest[k] == c);
                assert(rest.contains(c));
                let j = choose|j: int| 0 <= j < front.len() && front[j] == c;
                assert(list[j] == c);
            } else {
                assert(list[list.len() - 1] == c);
            }
        }
        assert forall|i: int| 0 <= i < list.len() && !goes(
            #[trigger] list[i],
            floor,
        ) implies all.contains(list[i]) by {
            if i < front.len() {
                assert(front[i] == list[i]);
                let k = choose|k: int| 0 <= k < rest.len() && rest[k] == list[i];
                assert(all[k] == list[i]);
            } else {
                assert(all[all.len() - 1] == list[i]);
            }
        }
    }
}

/// Where a placed message is: in a chunk of the one list, or in one of the other.
proof fn lemma_either(a: Seq<ChunkView>, b: Seq<ChunkView>, p: PlacedView)
    ensures
        holds(a + b, p) <==> holds(a, p) || holds(b, p),
{
    let all = a + b;
    if holds(all, p) {
        let i = choose|i: int|
            0 <= i < all.len() && (#[trigger] all[i]).chunk_id == p.chunk
                && all[i].message_ids.contains(p.id);
        if i < a.len() {
            assert(a[i] == all[i]);
        } else {
            assert(b[i - a.len()] == all[i]);
        }
    }
    if holds(a, p) {
        let i = choose|i: int|
            0 <= i < a.len() && (#[trigger] a[i]).chunk_id == p.chunk && a[i].message_ids.contains(
                p.id,
            );
        assert(all[i] == a[i]);
    }
    if holds(b, p) {
        let i = choose|i: int|
            0 <= i < b.len() && (#[trigger] b[i]).chunk_id == p.chunk && b[i].message_ids.contains(
                p.id,
            );
        assert(all[a.len() + i] == b[i]);
    }
}

/// A placed message of the chats is one of one of them, before and after.
proof fn lemma_of_one_chat(touched: Seq<ChatChange>, settings: ChunkSettings, p: PlacedView)
    ensures
        holds(all_stored(touched, settings), p) <==> exists|i: int|
            0 <= i < touched.len() && holds((#[trigger] touched[i]).stored(settings), p),
        holds(all_fresh(touched, settings), p) <==> exists|i: int|
            0 <= i < touched.len() && holds((#[trigger] touched[i]).fresh(settings), p),
    decreases touched.len(),
{
    if touched.len() > 0 {
        let front = touched.drop_last();
        let last = touched.last();
        lemma_of_one_chat(front, settings, p);
        lemma_either(all_stored(front, settings), last.stored(settings), p);
        lemma_either(all_fresh(front, settings), last.fresh(settings), p);
        assert forall|i: int| 0 <= i < front.len() implies touched[i] == #[trigger] front[i] by {}
        assert(touched[touched.len() - 1] == last);
        if exists|i: int| 0 <= i < touched.len() && holds((#[trigger] touched[i]).stored(settings), p) {
            let i = choose|i: int|
                0 <= i < touched.len() && holds((#[trigger] touched[i]).stored(settings), p);
            if i < front.len() {
                assert(front[i] == touched[i]);
            }
        }
        if exists|i: int| 0 <= i < touched.len() && holds((#[trigger] touched[i]).fresh(settings), p) {
            let i = choose|i: int|
                0 <= i < touched.len() && holds((#[trigger] touched[i]).fresh(settings), p);
            if i < front.len() {
                assert(front[i] == touched[i]);
            }
        }
    }
}

/// What is in the chunks of messages of a chat is a message of the chats.
proof fn lemma_known(
    messages: Seq<MessageView>,
    settings: ChunkSettings,
    replies: Seq<ReplyView>,
    chat: Seq<char>,
    chats: Set<Seq<char>>,
    p: PlacedView,
)
    requires
        all_known(messages, replies, chat),
        chats.contains(chat),
        chunks(messages, settings) is Some,
        holds(chunks(messages, settings)->0, p),
    ensures
        is_message_of(replies, chat, p.id),
        is_message_in(replies, chats, p.id),
{
    lemma_placed(chunks(messages, settings)->0, p);
    lemma_in_chunks(messages, settings, p);
    let k = choose|k: int| 0 <= k < messages.len() && (#[trigger] messages[k]).message_id == p.id;
    assert(is_message_of(replies, chat, messages[k].message_id));
    let i = choose|i: int|
        0 <= i < replies.len() && (#[trigger] replies[i]).chat == chat && replies[i].id == p.id;
    assert(chats.contains(replies[i].chat));
}

/// What is placed in the chunks of the chats is a message of them.
proof fn lemma_all_known(
    before: Seq<ReplyView>,
    after: Seq<ReplyView>,
    touched: Seq<ChatChange>,
    settings: ChunkSettings,
    p: PlacedView,
)
    requires
        replies_follow(before, after, touched),
        forall|i: int| 0 <= i < touched.len() ==> (#[trigger] touched[i]).cuttable(settings),
    ensures
        holds(all_stored(touched, settings), p) ==> is_message_in(before, chat_ids(touched), p.id),
        holds(all_fresh(touched, settings), p) ==> is_message_in(after, chat_ids(touched), p.id),
{
    lemma_of_one_chat(touched, settings, p);
    let chats = chat_ids(touched);
    if holds(all_stored(touched, settings), p) {
        let i = choose|i: int|
            0 <= i < touched.len() && holds((#[trigger] touched[i]).stored(settings), p);
        assert(chats.contains(touched[i].chat));
        assert(touched[i].cuttable(settings));
        lemma_known(touched[i].was(), settings, before, touched[i].chat, chats, p);
    }
    if holds(all_fresh(touched, settings), p) {
        let i = choose|i: int|
            0 <= i < touched.len() && holds((#[trigger] touched[i]).fresh(settings), p);
        assert(chats.contains(touched[i].chat));
        assert(touched[i].cuttable(settings));
        lemma_known(touched[i].now(), settings, after, touched[i].chat, chats, p);
    }
}

/// What another chat has or answers is looked up among the other chunks.
proof fn lemma_other_lookup(
    others: Seq<ChunkView>,
    list: Seq<ChunkView>,
    replies: Seq<ReplyView>,
    chats: Set<Seq<char>>,
    id: Seq<char>,
)
    requires
        forall|p: PlacedView| #[trigger] holds(list, p) ==> is_message_in(replies, chats, p.id),
        !is_message_in(replies, chats, id),
    ensures
        chunk_of(placed_in(others + list), id) == chunk_of(placed_in(others), id),
{
    lemma_placed_parts(others, list);
    assert forall|p: PlacedView| #[trigger] placed_in(list).contains(p) implies p.id != id by {
        lemma_placed(list, p);
        assert(holds(list, p));
    }
    lemma_lookup(placed_in(others), placed_in(list), id);
}

/// What is in a chunk that stays is there after the rebuild, and did not change.
proof fn lemma_kept_messages(
    stored: Seq<ChunkView>,
    common: Seq<MessageView>,
    settings: ChunkSettings,
    floor: Option<Seq<char>>,
    h: int,
    fresh: Seq<ChunkView>,
    p: PlacedView,
)
    requires
        holds(stored, p),
        !dropped(stored, floor).contains(p.chunk),
        floor is Some ==> 0 <= h <= common.len() && chunks(common.take(h), settings) == Some(
            kept(stored, floor),
        ),
        kept(stored, floor).len() <= fresh.len(),
        kept(stored, floor) == fresh.take(kept(stored, floor).len() as int),
    ensures
        holds(fresh, p),
        has_id(common, p.id),
{
    let i = choose|i: int|
        0 <= i < stored.len() && (#[trigger] stored[i]).chunk_id == p.chunk
            && stored[i].message_ids.contains(p.id);
    assert(!goes(stored[i], floor));
    let rest = kept(stored, floor);
    lemma_stays(stored, floor);
    assert(rest.contains(stored[i]));
    let k = choose|k: int| 0 <= k < rest.len() && rest[k] == stored[i];
    assert(fresh[k] == stored[i]);
    assert(holds(rest, p)) by {
        assert(rest[k].chunk_id == p.chunk);
    }
    let head = common.take(h);
    lemma_placed(rest, p);
    lemma_in_chunks(head, settings, p);
    let j = choose|j: int| 0 <= j < head.len() && (#[trigger] head[j]).message_id == p.id;
    assert(common[j] == head[j]);
}

/// What one chat keeps of its chunks, the whole chat cut anew has too.
proof fn lemma_one_chat(change: ChatChange, settings: ChunkSettings, p: PlacedView)
    requires
        change.in_order(),
        change.cuttable(settings),
    ensures
        change.scoped(settings) == change.fresh(settings),
        holds(change.stored(settings), p) && !change.gone(settings).contains(p.chunk) ==> holds(
            change.fresh(settings),
            p,
        ) && has_id(change.common, p.id),
{
    law_scoped_rebuild_equals_full_rebuild(
        change.common,
        change.old_rest,
        change.new_rest,
        settings,
        change.changed,
    );
    let h = lemma_cut_head(change.common, change.old_rest, settings, change.changed);
    let stored = change.stored(settings);
    let fresh = change.fresh(settings);
    let floor = floor_of(spans_of(stored), change.changed);
    let rest = kept(stored, floor);
    assert(rest =~= fresh.take(rest.len() as int));
    if holds(stored, p) && !change.gone(settings).contains(p.chunk) {
        lemma_kept_messages(stored, change.common, settings, floor, h, fresh, p);
    }
}

/// A chunk of another chat shares its id with none that goes.
proof fn lemma_stays_apart(
    others: Seq<ChunkView>,
    touched: Seq<ChatChange>,
    settings: ChunkSettings,
    i: int,
    t: int,
)
    requires
        ids_are_unique(others + all_stored(touched, settings)),
        0 <= i < others.len(),
        0 <= t < touched.len(),
    ensures
        !touched[t].gone(settings).contains(others[i].chunk_id),
{
    let all = others + all_stored(touched, settings);
    let stored = touched[t].stored(settings);
    if touched[t].gone(settings).contains(others[i].chunk_id) {
        let j = choose|j: int|
            0 <= j < stored.len() && (#[trigger] stored[j]).chunk_id == others[i].chunk_id && goes(
                stored[j],
                floor_of(spans_of(stored), touched[t].changed),
            );
        lemma_stored_at(touched, settings, t, j);
        let k = choose|k: int|
            0 <= k < all_stored(touched, settings).len() && #[trigger] all_stored(
                touched,
                settings,
            )[k] == stored[j];
        assert(all[i] == others[i]);
        assert(all[others.len() + k] == stored[j]);
    }
}

/// A chunk of one of the chats is among those of all.
proof fn lemma_stored_at(touched: Seq<ChatChange>, settings: ChunkSettings, t: int, j: int)
    requires
        0 <= t < touched.len(),
        0 <= j < touched[t].stored(settings).len(),
    ensures
        exists|k: int|
            0 <= k < all_stored(touched, settings).len() && #[trigger] all_stored(
                touched,
                settings,
            )[k] == touched[t].stored(settings)[j],
    decreases touched.len(),
{
    let front = all_stored(touched.drop_last(), settings);
    let all = all_stored(touched, settings);
    if t == touched.len() - 1 {
        assert(all[front.len() + j] == touched[t].stored(settings)[j]);
    } else {
        lemma_stored_at(touched.drop_last(), settings, t, j);
        let k = choose|k: int|
            0 <= k < front.len() && #[trigger] front[k] == touched[t].stored(settings)[j];
        assert(all[k] == front[k]);
    }
}

/// The chunks that the chats have after the tails were cut anew.
proof fn lemma_all_scoped(touched: Seq<ChatChange>, settings: ChunkSettings)
    requires
        forall|i: int|
            0 <= i < touched.len() ==> (#[trigger] touched[i]).in_order()
                && touched[i].cuttable(settings),
    ensures
        all_scoped(touched, settings) == all_fresh(touched, settings),
    decreases touched.len(),
{
    if touched.len() > 0 {
        let front = touched.drop_last();
        assert forall|i: int| 0 <= i < front.len() implies (#[trigger] front[i]).in_order()
            && front[i].cuttable(settings) by {
            assert(front[i] == touched[i]);
        }
        lemma_all_scoped(front, settings);
        let last = touched.len() - 1;
        assert(touched[last].in_order() && touched[last].cuttable(settings));
        lemma_one_chat(touched[last], settings, PlacedView { chunk: seq![], id: seq![] });
    }
}

// ---------------------------------------------------------------------------
// The law
// ---------------------------------------------------------------------------

/// A scoped rebuild leaves the archive of a full rebuild. The tails of the chats
/// that changed are cut anew, one chat after the other; the edges of the
/// messages that they had or have are dropped and made anew, and so are the
/// references of the chunks that went. Then the chunks, the edges and the
/// references are those of the whole archive, made from the messages that are
/// stored now, whatever was added, changed or removed. The chunks of other chats
/// are left as they are, and where no chat changed nothing does.
///
/// The messages of a chat are in time order, a chunk id belongs to one chunk and
/// a message id to one chat. Only the edge of a reply from another chat into one
/// of the chats is not made anew: it keeps the chunks that it had.
pub proof fn law_scoped_rebuild_restores_the_archive(
    others: Seq<ChunkView>,
    touched: Seq<ChatChange>,
    settings: ChunkSettings,
    before: Seq<ReplyView>,
    after: Seq<ReplyView>,
)
    requires
        forall|i: int| 0 <= i < touched.len() ==> (#[trigger] touched[i]).in_order(),
        replies_follow(before, after, touched),
        forall|p: PlacedView| #[trigger]
            holds(others, p) ==> !was_message_in(before, after, chat_ids(touched), p.id),
    ensures
        (forall|i: int| 0 <= i < touched.len() ==> (#[trigger] touched[i]).cuttable(settings))
            && ids_are_unique(others + all_stored(touched, settings)) ==> {
            let chats = chat_ids(touched);
            let gone = all_gone(touched, settings);
            let was = placed_in(others + all_stored(touched, settings));
            let now = placed_in(others + all_scoped(touched, settings));
            let full = placed_in(others + all_fresh(touched, settings));
            &&& all_scoped(touched, settings) == all_fresh(touched, settings)
            &&& touched.len() == 0 ==> now == was && (forall|edge: EdgeView|
                is_edge(after, full, None, edge) <==> is_edge(before, was, None, edge)) && (forall|
                r: RefView,
            | is_ref(after, full, None, r) <==> is_ref(before, was, None, r))
            &&& forall|edge: EdgeView|
                !answers_into(before, after, chats, edge) ==> (is_edge(after, full, None, edge)
                    <==> (is_edge(before, was, None, edge) && !was_message_in(
                    before,
                    after,
                    chats,
                    edge.child,
                )) || is_edge_in(after, now, chats, edge))
            &&& forall|r: RefView|
                is_ref(after, full, None, r) <==> (is_ref(before, was, None, r) && !gone.contains(
                    r.child,
                ) && !gone.contains(r.parent)) || is_ref_in(after, now, chats, r)
        },
{
    if (forall|i: int| 0 <= i < touched.len() ==> (#[trigger] touched[i]).cuttable(settings))
        && ids_are_unique(others + all_stored(touched, settings)) {
        lemma_all_scoped(touched, settings);
        lemma_edges(others, touched, settings, before, after);
        lemma_references(others, touched, settings, before, after);
        if touched.len() == 0 {
            let chats = chat_ids(touched);
            assert forall|edge: EdgeView| !#[trigger] answers_into(before, after, chats, edge) by {
                assert(!was_message_in(before, after, chats, edge.parent));
            }
            assert forall|edge: EdgeView| #[trigger]
                is_edge(after, placed_in(others + all_fresh(touched, settings)), None, edge)
                    <==> is_edge(
                    before,
                    placed_in(others + all_stored(touched, settings)),
                    None,
                    edge,
                ) by {
                assert(!answers_into(before, after, chats, edge));
                assert(!was_message_in(before, after, chats, edge.child));
            }
        }
    }
}

/// The edges after a scoped rebuild.
proof fn lemma_edges(
    others: Seq<ChunkView>,
    touched: Seq<ChatChange>,
    settings: ChunkSettings,
    before: Seq<ReplyView>,
    after: Seq<ReplyView>,
)
    requires
        replies_follow(before, after, touched),
        forall|i: int| 0 <= i < touched.len() ==> (#[trigger] touched[i]).cuttable(settings),
    ensures
        forall|edge: EdgeView|
            !answers_into(before, after, chat_ids(touched), edge) ==> (is_edge(
                after,
                placed_in(others + all_fresh(touched, settings)),
                None,
                edge,
            ) <==> (is_edge(
                before,
                placed_in(others + all_stored(touched, settings)),
                None,
                edge,
            ) && !was_message_in(before, after, chat_ids(touched), edge.child)) || is_edge_in(
                after,
                placed_in(others + all_fresh(touched, settings)),
                chat_ids(touched),
                edge,
            )),
{
    let chats = chat_ids(touched);
    let stored = all_stored(touched, settings);
    let fresh = all_fresh(touched, settings);
    let was = placed_in(others + stored);
    let full = placed_in(others + fresh);
    assert forall|p: PlacedView| #[trigger] holds(stored, p) implies is_message_in(
        before,
        chats,
        p.id,
    ) by {
        lemma_all_known(before, after, touched, settings, p);
    }
    assert forall|p: PlacedView| #[trigger] holds(fresh, p) implies is_message_in(
        after,
        chats,
        p.id,
    ) by {
        lemma_all_known(before, after, touched, settings, p);
    }
    assert forall|id: Seq<char>| !was_message_in(before, after, chats, id) implies
        #[trigger] chunk_of(was, id) == chunk_of(full, id) by {
        lemma_other_lookup(others, stored, before, chats, id);
        lemma_other_lookup(others, fresh, after, chats, id);
    }
    law_edges_of_the_chats_are_enough(before, was, after, full, chats);
}

/// The references after a scoped rebuild.
proof fn lemma_references(
    others: Seq<ChunkView>,
    touched: Seq<ChatChange>,
    settings: ChunkSettings,
    before: Seq<ReplyView>,
    after: Seq<ReplyView>,
)
    requires
        forall|i: int| 0 <= i < touched.len() ==> (#[trigger] touched[i]).in_order(),
        forall|i: int| 0 <= i < touched.len() ==> (#[trigger] touched[i]).cuttable(settings),
        replies_follow(before, after, touched),
        forall|p: PlacedView| #[trigger]
            holds(others, p) ==> !was_message_in(before, after, chat_ids(touched), p.id),
        ids_are_unique(others + all_stored(touched, settings)),
    ensures
        forall|r: RefView|
            is_ref(after, placed_in(others + all_fresh(touched, settings)), None, r) <==> (is_ref(
                before,
                placed_in(others + all_stored(touched, settings)),
                None,
                r,
            ) && !all_gone(touched, settings).contains(r.child) && !all_gone(
                touched,
                settings,
            ).contains(r.parent)) || is_ref_in(
                after,
                placed_in(others + all_fresh(touched, settings)),
                chat_ids(touched),
                r,
            ),
{
    let chats = chat_ids(touched);
    let stored = all_stored(touched, settings);
    let fresh = all_fresh(touched, settings);
    let was = placed_in(others + stored);
    let full = placed_in(others + fresh);
    let gone = all_gone(touched, settings);
    assert forall|p: PlacedView| #[trigger]
        was.contains(p) && !gone.contains(p.chunk) implies full.contains(p) by {
        lemma_placed(others + stored, p);
        lemma_placed(others + fresh, p);
        lemma_either(others, stored, p);
        lemma_either(others, fresh, p);
        if holds(stored, p) {
            lemma_stays_somewhere(before, after, touched, settings, p);
        }
    }
    assert forall|m: ReplyView, p: PlacedView| #[trigger]
        before.contains(m) && chats.contains(m.chat) && #[trigger] was.contains(p)
            && !gone.contains(p.chunk) && p.id == m.id implies after.contains(m) by {
        lemma_placed(others + stored, p);
        lemma_either(others, stored, p);
        let k = choose|k: int| 0 <= k < before.len() && before[k] == m;
        assert(chats.contains(before[k].chat));
        assert(is_message_in(before, chats, m.id));
        if !holds(others, p) {
            lemma_stays_somewhere(before, after, touched, settings, p);
            let t = choose|t: int|
                0 <= t < touched.len() && has_id((#[trigger] touched[t]).common, p.id)
                    && is_message_of(before, touched[t].chat, p.id);
            let chat = touched[t].chat;
            let n = choose|n: int|
                0 <= n < before.len() && (#[trigger] before[n]).chat == chat && before[n].id
                    == p.id;
            assert(known(before, after, before[n]));
            assert(known(before, after, m));
            assert(m.chat == touched[t].chat);
        }
    }
    assert forall|p: PlacedView| #[trigger]
        full.contains(p) && !(was.contains(p) && !gone.contains(p.chunk)) implies is_message_in(
        after,
        chats,
        p.id,
    ) by {
        lemma_placed(others + stored, p);
        lemma_placed(others + fresh, p);
        lemma_either(others, stored, p);
        lemma_either(others, fresh, p);
        if holds(others, p) {
            let i = choose|i: int|
                0 <= i < others.len() && (#[trigger] others[i]).chunk_id == p.chunk
                    && others[i].message_ids.contains(p.id);
            assert forall|t: int| 0 <= t < touched.len() implies !(
            #[trigger] touched[t]).gone(settings).contains(p.chunk) by {
                lemma_stays_apart(others, touched, settings, i, t);
            }
        } else {
            lemma_all_known(before, after, touched, settings, p);
        }
    }
    law_references_of_the_chats_are_enough(before, was, after, full, chats, gone);
}

/// What stays of the chunks of the chats is in the fresh ones, and is a message
/// that did not change.
proof fn lemma_stays_somewhere(
    before: Seq<ReplyView>,
    after: Seq<ReplyView>,
    touched: Seq<ChatChange>,
    settings: ChunkSettings,
    p: PlacedView,
)
    requires
        forall|i: int| 0 <= i < touched.len() ==> (#[trigger] touched[i]).in_order(),
        forall|i: int| 0 <= i < touched.len() ==> (#[trigger] touched[i]).cuttable(settings),
        replies_follow(before, after, touched),
        holds(all_stored(touched, settings), p),
        !all_gone(touched, settings).contains(p.chunk),
    ensures
        holds(all_fresh(touched, settings), p),
        exists|t: int|
            0 <= t < touched.len() && has_id((#[trigger] touched[t]).common, p.id)
                && is_message_of(before, touched[t].chat, p.id),
{
    lemma_of_one_chat(touched, settings, p);
    let t = choose|t: int|
        0 <= t < touched.len() && holds((#[trigger] touched[t]).stored(settings), p);
    assert(touched[t].in_order() && touched[t].cuttable(settings));
    assert(!touched[t].gone(settings).contains(p.chunk));
    lemma_one_chat(touched[t], settings, p);
    assert(all_known(touched[t].was(), before, touched[t].chat));
    assert(chat_ids(touched).contains(touched[t].chat));
    lemma_known(
        touched[t].was(),
        settings,
        before,
        touched[t].chat,
        chat_ids(touched),
        p,
    );
}

} // verus!
