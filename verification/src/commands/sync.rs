//! What a sync recomputes.

use crate::archive::reconcile::DeletedMessage;
use crate::archive::sync::{chat_index, find_chat, touched_view, touched_views, TouchedView};
use crate::chunking::{ChunkSettings, CHUNKER_VERSION};
use crate::text::order::{distinct, lemma_distinct, sort_distinct};
use crate::text::owned;
use crate::text::split::views;
use crate::types::{SyncReport, TouchedChat};
use vstd::prelude::*;

verus! {

/// Whether every chunk is computed anew: there is none yet, or those that
/// there are were cut with other settings or by another version of the rules.
pub fn needs_full_rebuild(
    chunk_count: usize,
    stored: Option<(i64, i64, i64)>,
    settings: ChunkSettings,
) -> (r: bool)
    ensures
        r == (chunk_count == 0 || stored != Some(
            (settings.group_gap_seconds, settings.direct_gap_seconds, CHUNKER_VERSION),
        )),
{
    if chunk_count == 0 {
        return true;
    }
    match stored {
        Some((group, direct, version)) => group != settings.group_gap_seconds || direct
            != settings.direct_gap_seconds || version != CHUNKER_VERSION,
        None => true,
    }
}

/// A chat that is computed anew from its start: without a key there is no floor.
pub open spec fn whole(chat: Seq<char>) -> TouchedView {
    TouchedView { chat_id: chat, timestamp: seq![], message_id: seq![] }
}

/// The list with one chat computed anew from its start.
pub open spec fn with_whole(list: Seq<TouchedView>, chat: Seq<char>) -> Seq<TouchedView> {
    let i = chat_index(list, chat);
    if 0 <= i < list.len() {
        list.update(i, whole(chat))
    } else {
        list.push(whole(chat))
    }
}

/// The list with each of the chats computed anew from its start.
pub open spec fn with_wholes(list: Seq<TouchedView>, chats: Seq<Seq<char>>) -> Seq<TouchedView>
    decreases chats.len(),
{
    if chats.len() == 0 {
        list
    } else {
        with_whole(with_wholes(list, chats.drop_last()), chats.last())
    }
}

/// The chats of the deleted messages.
pub open spec fn deleted_chats(deleted: Seq<DeletedMessage>) -> Seq<Seq<char>> {
    deleted.map_values(|d: DeletedMessage| d.chat_id@)
}

/// Has the chats of deleted messages computed anew from their start, in
/// ascending order of their ids. A deletion may lie before every other change
/// of its chat, so a key that the chat has is dropped.
pub fn touch_deleted(touched: &mut Vec<TouchedChat>, deleted: &[DeletedMessage])
    ensures
        touched_views(final(touched)@) == with_wholes(
            touched_views(old(touched)@),
            distinct(deleted_chats(deleted@)),
        ),
{
    let mut ids: Vec<String> = Vec::new();
    for i in 0..deleted.len()
        invariant
            views(ids@) == deleted_chats(deleted@).take(i as int),
    {
        let ghost before = views(ids@);
        ids.push(owned(deleted[i].chat_id.as_str()));
        proof {
            assert(views(ids@) == before.push(deleted@[i as int].chat_id@));
        }
    }
    proof {
        assert(deleted_chats(deleted@).take(deleted@.len() as int) == deleted_chats(deleted@));
    }
    let ghost start = touched_views(touched@);
    let chats = sort_distinct(ids);
    let ghost all = views(chats@);
    proof {
        assert(all.take(0) == Seq::<Seq<char>>::empty());
    }
    for i in 0..chats.len()
        invariant
            all == views(chats@),
            touched_views(touched@) == with_wholes(start, all.take(i as int)),
    {
        let chat = chats[i].as_str();
        proof {
            assert(all.take(i + 1).drop_last() == all.take(i as int));
            assert(all.take(i + 1).last() == chat@);
        }
        let ghost before = touched_views(touched@);
        let at: usize = find_chat(touched, chat);
        let fresh = TouchedChat {
            chat_id: owned(chat),
            earliest_changed_timestamp: String::new(),
            earliest_changed_message_id: String::new(),
        };
        proof {
            assert(touched_view(fresh) == whole(chat@));
        }
        if at < touched.len() {
            touched.set(at, fresh);
            proof {
                assert(touched_views(touched@) == before.update(at as int, whole(chat@)));
            }
        } else {
            touched.push(fresh);
            proof {
                assert(touched_views(touched@) == before.push(whole(chat@)));
            }
        }
    }
    proof {
        assert(all.take(chats@.len() as int) == all);
    }
}

/// The report after messages were deleted: they no longer count.
pub fn report_deleted(report: &mut SyncReport, deleted: &[DeletedMessage])
    ensures
        final(report).total_messages == if deleted@.len() <= old(report).total_messages {
            old(report).total_messages - deleted@.len()
        } else {
            0
        },
        touched_views(final(report).touched_chats@) == with_wholes(
            touched_views(old(report).touched_chats@),
            distinct(deleted_chats(deleted@)),
        ),
        final(report).inserted_messages == old(report).inserted_messages,
        final(report).updated_messages == old(report).updated_messages,
        final(report).chunks == old(report).chunks,
        final(report).rebuilt_chats == old(report).rebuilt_chats,
        final(report).timings_ms == old(report).timings_ms,
        final(report).include_touched == old(report).include_touched,
{
    let gone: usize = deleted.len();
    report.total_messages = if gone <= report.total_messages {
        report.total_messages - gone
    } else {
        0
    };
    touch_deleted(&mut report.touched_chats, deleted);
}

/// The name under which a report lists the messages that the source no longer has.
pub fn deleted_key(applied: bool) -> (key: &'static str)
    ensures
        key@ == if applied {
            "pruned_messages"@
        } else {
            "prunable_messages"@
        },
{
    if applied {
        "pruned_messages"
    } else {
        "prunable_messages"
    }
}

// ---------------------------------------------------------------------------
// Laws
// ---------------------------------------------------------------------------

/// Whether a list has a chat computed anew from its start.
pub open spec fn rebuilds_whole(list: Seq<TouchedView>, chat: Seq<char>) -> bool {
    exists|i: int| 0 <= i < list.len() && #[trigger] list[i] == whole(chat)
}

/// Where a chat stands in a list.
proof fn lemma_chat_index(list: Seq<TouchedView>, chat: Seq<char>)
    ensures
        0 <= chat_index(list, chat) <= list.len(),
        chat_index(list, chat) < list.len() ==> list[chat_index(list, chat)].chat_id == chat,
    decreases list.len(),
{
    if list.len() > 0 && list[0].chat_id != chat {
        lemma_chat_index(list.drop_first(), chat);
    }
}

/// A chat with a deletion is computed anew from its start, whatever else
/// changed in it, and a chat without one keeps its place and its key.
pub proof fn law_deletions_drop_the_floor(list: Seq<TouchedView>, chats: Seq<Seq<char>>)
    ensures
        forall|k: int| 0 <= k < chats.len() ==> rebuilds_whole(
            with_wholes(list, chats),
            #[trigger] chats[k],
        ),
        with_wholes(list, chats).len() >= list.len(),
        forall|i: int|
            0 <= i < list.len() && !chats.contains((#[trigger] list[i]).chat_id) ==> with_wholes(
                list,
                chats,
            )[i] == list[i],
    decreases chats.len(),
{
    if chats.len() > 0 {
        let front = chats.drop_last();
        let chat = chats.last();
        law_deletions_drop_the_floor(list, front);
        let before = with_wholes(list, front);
        let after = with_wholes(list, chats);
        lemma_chat_index(before, chat);
        let at = chat_index(before, chat);
        assert(after == with_whole(before, chat));
        assert(at < before.len() ==> after[at] == whole(chat));
        assert(at >= before.len() ==> after[before.len() as int] == whole(chat));
        assert forall|k: int| 0 <= k < chats.len() implies rebuilds_whole(
            after,
            #[trigger] chats[k],
        ) by {
            if k < front.len() {
                assert(front[k] == chats[k]);
                let i = choose|i: int|
                    0 <= i < before.len() && #[trigger] before[i] == whole(chats[k]);
                assert(after[i] == whole(chats[k]));
            }
        }
        assert forall|i: int|
            0 <= i < list.len() && !chats.contains((#[trigger] list[i]).chat_id) implies after[i]
            == list[i] by {
            if front.contains(list[i].chat_id) {
                let k = choose|k: int| 0 <= k < front.len() && front[k] == list[i].chat_id;
                assert(chats[k] == list[i].chat_id);
            }
            assert(before[i] == list[i]);
            assert(chats[chats.len() - 1] == chat);
            assert(chats.contains(chat));
        }
    }
}

/// Every chat with a deletion is computed anew from its start.
pub proof fn law_deleted_text_leaves_its_chunks(
    list: Seq<TouchedView>,
    deleted: Seq<DeletedMessage>,
)
    ensures
        forall|k: int|
            0 <= k < deleted.len() ==> rebuilds_whole(
                with_wholes(list, distinct(deleted_chats(deleted))),
                (#[trigger] deleted[k]).chat_id@,
            ),
{
    let ids = deleted_chats(deleted);
    let chats = distinct(ids);
    lemma_distinct(ids);
    law_deletions_drop_the_floor(list, chats);
    assert forall|k: int| 0 <= k < deleted.len() implies rebuilds_whole(
        with_wholes(list, chats),
        (#[trigger] deleted[k]).chat_id@,
    ) by {
        assert(ids[k] == deleted[k].chat_id@);
        assert(ids.contains(deleted[k].chat_id@));
        assert(chats.contains(deleted[k].chat_id@));
        let m = choose|m: int| 0 <= m < chats.len() && chats[m] == deleted[k].chat_id@;
        assert(rebuilds_whole(with_wholes(list, chats), chats[m]));
    }
}

/// Only the chats of deleted messages are added, or have their key dropped; such a
/// chat has no key, so that nothing of it is kept.
pub proof fn law_only_chats_with_deletions_are_rebuilt_whole(
    list: Seq<TouchedView>,
    chats: Seq<Seq<char>>,
)
    ensures
        forall|i: int|
            0 <= i < with_wholes(list, chats).len() ==> {
                let t = #[trigger] with_wholes(list, chats)[i];
                ||| i < list.len() && t == list[i]
                ||| chats.contains(t.chat_id) && t.timestamp.len() == 0 && t.message_id.len() == 0
            },
        with_wholes(list, chats).len() >= list.len(),
    decreases chats.len(),
{
    if chats.len() > 0 {
        let front = chats.drop_last();
        let chat = chats.last();
        law_only_chats_with_deletions_are_rebuilt_whole(list, front);
        let before = with_wholes(list, front);
        let after = with_wholes(list, chats);
        lemma_chat_index(before, chat);
        assert(chats[chats.len() - 1] == chat);
        assert forall|i: int| 0 <= i < after.len() implies {
            let t = #[trigger] after[i];
            ||| i < list.len() && t == list[i]
            ||| chats.contains(t.chat_id) && t.timestamp.len() == 0 && t.message_id.len() == 0
        } by {
            let t = after[i];
            if i < before.len() && t == before[i] {
                let was = before[i];
                if front.contains(was.chat_id) {
                    let k = choose|k: int| 0 <= k < front.len() && front[k] == was.chat_id;
                    assert(chats[k] == was.chat_id);
                }
            } else {
                assert(t.chat_id == chat);
            }
        }
    }
}

} // verus!
