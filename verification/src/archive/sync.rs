//! Bookkeeping of a sync: which chats changed and from where on, how far each
//! account has been read, and how many messages are new.

use crate::error::Error;
use crate::text::order::{
    le, lemma_le_refl, lemma_le_total, lemma_le_transitive, lt, text_lt,
};
use crate::text::same;
use crate::time::{is_later, later, rfc3339, rfc3339_of, Moment};
use crate::types::{RawMessage, SyncReport, SyncTimings, TouchedChat};
use vstd::prelude::*;

verus! {

/// What writing a message did.
#[derive(Debug, Clone, Copy, PartialEq, Eq, Structural)]
pub enum MessageChange {
    Inserted,
    Updated,
    Unchanged,
}

/// A touched chat, with the key of its earliest change.
pub struct TouchedView {
    pub chat_id: Seq<char>,
    pub timestamp: Seq<char>,
    pub message_id: Seq<char>,
}

/// The view of a touched chat.
pub open spec fn touched_view(t: TouchedChat) -> TouchedView {
    TouchedView {
        chat_id: t.chat_id@,
        timestamp: t.earliest_changed_timestamp@,
        message_id: t.earliest_changed_message_id@,
    }
}

/// The view of a list of touched chats.
pub open spec fn touched_views(list: Seq<TouchedChat>) -> Seq<TouchedView> {
    list.map_values(|t: TouchedChat| touched_view(t))
}

/// Whether the key of `a` comes before that of `b`, in the order in which messages are sent.
pub open spec fn sent_before(a: TouchedView, b: TouchedView) -> bool {
    lt(a.timestamp, b.timestamp) || (a.timestamp == b.timestamp && lt(a.message_id, b.message_id))
}

/// Whether the message has a date.
pub open spec fn dated(m: RawMessage) -> bool {
    rfc3339(m.timestamp.seconds as int, m.timestamp.nanos as int) is Some
}

/// The date of a message, as text.
pub open spec fn date_of(m: RawMessage) -> Seq<char> {
    rfc3339(m.timestamp.seconds as int, m.timestamp.nanos as int)->0
}

/// The touch that a changed message is.
pub open spec fn touch_of(m: RawMessage) -> TouchedView {
    TouchedView { chat_id: m.chat_id@, timestamp: date_of(m), message_id: m.message_id@ }
}

/// Where `chat` stands in the list, or the length.
pub open spec fn chat_index(list: Seq<TouchedView>, chat: Seq<char>) -> int
    decreases list.len(),
{
    if list.len() == 0 {
        0
    } else if list[0].chat_id == chat {
        0
    } else {
        1 + chat_index(list.drop_first(), chat)
    }
}

/// The list after one more touch: the chat is added at the end, or its key is
/// replaced by an earlier one.
pub open spec fn touch(list: Seq<TouchedView>, t: TouchedView) -> Seq<TouchedView> {
    let i = chat_index(list, t.chat_id);
    if i < list.len() {
        if sent_before(t, list[i]) {
            list.update(i, t)
        } else {
            list
        }
    } else {
        list.push(t)
    }
}

/// The chats that changed, in the order of their first change.
pub open spec fn touched(messages: Seq<RawMessage>, changes: Seq<MessageChange>) -> Seq<TouchedView>
    decreases messages.len(),
{
    if messages.len() == 0 || changes.len() != messages.len() {
        seq![]
    } else {
        let front = touched(messages.drop_last(), changes.drop_last());
        if changes.last() == MessageChange::Unchanged {
            front
        } else {
            touch(front, touch_of(messages.last()))
        }
    }
}

/// How many changes are `kind`.
pub open spec fn change_count(changes: Seq<MessageChange>, kind: MessageChange) -> nat
    decreases changes.len(),
{
    if changes.len() == 0 {
        0
    } else {
        change_count(changes.drop_last(), kind) + if changes.last() == kind {
            1nat
        } else {
            0
        }
    }
}

/// No more changes are of a kind than there are.
pub proof fn lemma_change_count_bound(changes: Seq<MessageChange>, kind: MessageChange)
    ensures
        change_count(changes, kind) <= changes.len(),
    decreases changes.len(),
{
    if changes.len() > 0 {
        lemma_change_count_bound(changes.drop_last(), kind);
    }
}

/// How far an account has been read.
#[derive(Debug, Clone)]
pub struct SourceCursor {
    pub source_id: String,
    pub newest: Moment,
}

/// The model of a [`SourceCursor`].
pub struct CursorView {
    pub source_id: Seq<char>,
    pub newest: Moment,
}

/// The view of a list of cursors.
pub open spec fn cursor_views(list: Seq<SourceCursor>) -> Seq<CursorView> {
    list.map_values(
        |c: SourceCursor| CursorView { source_id: c.source_id@, newest: c.newest },
    )
}

/// Where `source` stands in the list, or the length.
pub open spec fn source_index(list: Seq<CursorView>, source: Seq<char>) -> int
    decreases list.len(),
{
    if list.len() == 0 {
        0
    } else if list[0].source_id == source {
        0
    } else {
        1 + source_index(list.drop_first(), source)
    }
}

/// The list after one more message of an account.
pub open spec fn read_to(list: Seq<CursorView>, c: CursorView) -> Seq<CursorView> {
    let i = source_index(list, c.source_id);
    if i < list.len() {
        if later(c.newest, list[i].newest) {
            list.update(i, c)
        } else {
            list
        }
    } else {
        list.push(c)
    }
}

/// How far each account has been read, in the order of first mention.
pub open spec fn cursors_of(messages: Seq<RawMessage>) -> Seq<CursorView>
    decreases messages.len(),
{
    if messages.len() == 0 {
        seq![]
    } else {
        let m = messages.last();
        read_to(
            cursors_of(messages.drop_last()),
            CursorView { source_id: m.account_hash@, newest: m.timestamp },
        )
    }
}

/// What a sync did, before the totals of the archive are known.
#[derive(Debug)]
pub struct SyncOutcome {
    pub inserted: usize,
    pub updated: usize,
    pub touched: Vec<TouchedChat>,
    pub cursors: Vec<SourceCursor>,
}

/// Where `chat` stands in the list, or the length.
pub fn find_chat(list: &Vec<TouchedChat>, chat: &str) -> (i: usize)
    ensures
        i == chat_index(touched_views(list@), chat@),
        i <= list@.len(),
{
    let ghost all = touched_views(list@);
    let mut i: usize = 0;
    proof {
        assert(all.skip(0) =~= all);
    }
    while i < list.len()
        invariant
            i <= list@.len(),
            all == touched_views(list@),
            chat_index(all, chat@) == i + chat_index(all.skip(i as int), chat@),
        decreases list@.len() - i,
    {
        proof {
            assert(all.skip(i as int)[0] == touched_view(list@[i as int]));
            assert(all.skip(i as int).drop_first() =~= all.skip(i + 1));
        }
        if same(list[i].chat_id.as_str(), chat) {
            return i;
        }
        i = i + 1;
    }
    i
}

/// Exec form of [`source_index`].
fn find_source(list: &Vec<SourceCursor>, source: &str) -> (i: usize)
    ensures
        i == source_index(cursor_views(list@), source@),
        i <= list@.len(),
{
    let ghost all = cursor_views(list@);
    let mut i: usize = 0;
    proof {
        assert(all.skip(0) =~= all);
    }
    while i < list.len()
        invariant
            i <= list@.len(),
            all == cursor_views(list@),
            source_index(all, source@) == i + source_index(all.skip(i as int), source@),
        decreases list@.len() - i,
    {
        proof {
            assert(all.skip(i as int)[0].source_id == list@[i as int].source_id@);
            assert(all.skip(i as int).drop_first() =~= all.skip(i + 1));
        }
        if same(list[i].source_id.as_str(), source) {
            return i;
        }
        i = i + 1;
    }
    i
}

/// Exec form of [`touch`].
fn add_touch(list: &mut Vec<TouchedChat>, chat_id: &str, date: &str, message_id: &str)
    ensures
        touched_views(final(list)@) == touch(
            touched_views(old(list)@),
            TouchedView { chat_id: chat_id@, timestamp: date@, message_id: message_id@ },
        ),
{
    let i: usize = find_chat(list, chat_id);
    let fresh = TouchedChat {
        chat_id: chat_id.to_owned(),
        earliest_changed_timestamp: date.to_owned(),
        earliest_changed_message_id: message_id.to_owned(),
    };
    let ghost before = touched_views(list@);
    if i < list.len() {
        let held: &TouchedChat = &list[i];
        let earlier = text_lt(date, held.earliest_changed_timestamp.as_str()) || (same(
            date,
            held.earliest_changed_timestamp.as_str(),
        ) && text_lt(message_id, held.earliest_changed_message_id.as_str()));
        if earlier {
            list.set(i, fresh);
            proof {
                assert(touched_views(list@) =~= before.update(i as int, touched_view(fresh)));
            }
        }
    } else {
        list.push(fresh);
        proof {
            assert(touched_views(list@) =~= before.push(touched_view(fresh)));
        }
    }
}

/// Exec form of [`read_to`].
fn advance_cursor(list: &mut Vec<SourceCursor>, source_id: &str, newest: Moment)
    ensures
        cursor_views(final(list)@) == read_to(
            cursor_views(old(list)@),
            CursorView { source_id: source_id@, newest },
        ),
{
    let i: usize = find_source(list, source_id);
    let fresh = SourceCursor { source_id: source_id.to_owned(), newest };
    let ghost before = cursor_views(list@);
    let ghost fresh_view = CursorView { source_id: source_id@, newest };
    if i < list.len() {
        if is_later(newest, list[i].newest) {
            list.set(i, fresh);
            proof {
                assert(cursor_views(list@) =~= before.update(i as int, fresh_view));
            }
        }
    } else {
        list.push(fresh);
        proof {
            assert(cursor_views(list@) =~= before.push(fresh_view));
        }
    }
}

/// Whether every message that changed has a date.
pub open spec fn changes_dated(messages: Seq<RawMessage>, changes: Seq<MessageChange>) -> bool {
    forall|i: int|
        0 <= i < messages.len() ==> changes[i] == MessageChange::Unchanged || dated(
            #[trigger] messages[i],
        )
}

/// What a sync of `messages` did, where writing them did `changes`. It fails
/// only where a message that changed has no date.
pub fn sync_outcome(messages: &[RawMessage], changes: &[MessageChange]) -> (r: Result<
    SyncOutcome,
    Error,
>)
    requires
        changes@.len() == messages@.len(),
    ensures
        match r {
            Ok(outcome) => {
                &&& changes_dated(messages@, changes@)
                &&& outcome.inserted == change_count(changes@, MessageChange::Inserted)
                &&& outcome.updated == change_count(changes@, MessageChange::Updated)
                &&& touched_views(outcome.touched@) == touched(messages@, changes@)
                &&& cursor_views(outcome.cursors@) == cursors_of(messages@)
            },
            Err(error) => error is Time && !changes_dated(messages@, changes@),
        },
{
    let mut inserted: usize = 0;
    let mut updated: usize = 0;
    let mut touched_chats: Vec<TouchedChat> = Vec::new();
    let mut cursors: Vec<SourceCursor> = Vec::new();
    proof {
        assert(touched_views(touched_chats@) =~= Seq::<TouchedView>::empty());
        assert(cursor_views(cursors@) =~= Seq::<CursorView>::empty());
    }
    for i in 0..messages.len()
        invariant
            changes@.len() == messages@.len(),
            inserted == change_count(changes@.take(i as int), MessageChange::Inserted),
            updated == change_count(changes@.take(i as int), MessageChange::Updated),
            touched_views(touched_chats@) == touched(
                messages@.take(i as int),
                changes@.take(i as int),
            ),
            cursor_views(cursors@) == cursors_of(messages@.take(i as int)),
            forall|k: int|
                0 <= k < i ==> changes@[k] == MessageChange::Unchanged || dated(
                    #[trigger] messages@[k],
                ),
    {
        let message: &RawMessage = &messages[i];
        let change: MessageChange = changes[i];
        proof {
            assert(messages@.take(i + 1).drop_last() =~= messages@.take(i as int));
            assert(changes@.take(i + 1).drop_last() =~= changes@.take(i as int));
            lemma_change_count_bound(changes@.take(i as int), MessageChange::Inserted);
            lemma_change_count_bound(changes@.take(i as int), MessageChange::Updated);
        }
        match change {
            MessageChange::Unchanged => {},
            _ => match rfc3339_of(message.timestamp) {
                Some(date) => {
                    add_touch(
                        &mut touched_chats,
                        message.chat_id.as_str(),
                        date.as_str(),
                        message.message_id.as_str(),
                    );
                },
                None => {
                    proof {
                        assert(!dated(messages@[i as int]));
                    }
                    return Err(Error::Time);
                },
            },
        }
        match change {
            MessageChange::Inserted => {
                inserted = inserted + 1;
            },
            MessageChange::Updated => {
                updated = updated + 1;
            },
            MessageChange::Unchanged => {},
        }
        advance_cursor(&mut cursors, message.account_hash.as_str(), message.timestamp);
    }
    proof {
        assert(messages@.take(messages@.len() as int) =~= messages@);
        assert(changes@.take(changes@.len() as int) =~= changes@);
    }
    Ok(SyncOutcome { inserted, updated, touched: touched_chats, cursors })
}

/// The report of a sync, with the totals of the archive after it.
pub fn sync_report(outcome: SyncOutcome, total_messages: usize, chunks: usize) -> (report:
    SyncReport)
    ensures
        report.inserted_messages == outcome.inserted,
        report.updated_messages == outcome.updated,
        report.total_messages == total_messages,
        report.chunks == chunks,
        report.rebuilt_chats == outcome.touched@.len(),
        report.touched_chats == outcome.touched,
        report.timings_ms == (SyncTimings { read_source: 0, upsert_messages: 0, rebuild_chunks: 0 }),
        !report.include_touched,
{
    SyncReport {
        inserted_messages: outcome.inserted,
        updated_messages: outcome.updated,
        total_messages,
        chunks,
        rebuilt_chats: outcome.touched.len(),
        timings_ms: SyncTimings { read_source: 0, upsert_messages: 0, rebuild_chunks: 0 },
        touched_chats: outcome.touched,
        include_touched: false,
    }
}

/// Whether no earlier message is of the same chat.
pub open spec fn first_of_chat(messages: Seq<RawMessage>, i: int) -> bool {
    forall|j: int| 0 <= j < i ==> (#[trigger] messages[j]).chat_id@ != messages[i].chat_id@
}

/// The places where a chat is mentioned first, ascending: the messages whose
/// chat has to be written.
pub fn chats_to_write(messages: &[RawMessage]) -> (places: Vec<usize>)
    ensures
        forall|a: int, b: int| 0 <= a < b < places@.len() ==> places@[a] < places@[b],
        forall|k: int|
            0 <= k < places@.len() ==> (#[trigger] places@[k]) < messages@.len() && first_of_chat(
                messages@,
                places@[k] as int,
            ),
        forall|i: int|
            0 <= i < messages@.len() && #[trigger] first_of_chat(messages@, i) ==> places@.contains(
                i as usize,
            ),
{
    let mut places: Vec<usize> = Vec::new();
    for i in 0..messages.len()
        invariant
            forall|a: int, b: int| 0 <= a < b < places@.len() ==> places@[a] < places@[b],
            forall|k: int|
                0 <= k < places@.len() ==> (#[trigger] places@[k]) < i && first_of_chat(
                    messages@,
                    places@[k] as int,
                ),
            forall|j: int|
                0 <= j < i && #[trigger] first_of_chat(messages@, j) ==> places@.contains(
                    j as usize,
                ),
    {
        let mut first = true;
        for j in 0..i
            invariant
                i < messages@.len(),
                first == forall|k: int|
                    0 <= k < j ==> (#[trigger] messages@[k]).chat_id@
                        != messages@[i as int].chat_id@,
        {
            if same(messages[j].chat_id.as_str(), messages[i].chat_id.as_str()) {
                first = false;
            }
        }
        let ghost before = places@;
        if first {
            places.push(i);
            proof {
                assert(places@[before.len() as int] == i);
            }
        }
        proof {
            assert forall|j: int| 0 <= j < i + 1 && #[trigger] first_of_chat(
                messages@,
                j,
            ) implies places@.contains(j as usize) by {
                if j < i {
                    let k = choose|k: int| 0 <= k < before.len() && before[k] == j as usize;
                    assert(places@[k] == j as usize);
                }
            }
        }
    }
    places
}

// ---------------------------------------------------------------------------
// Laws
// ---------------------------------------------------------------------------

/// Where a chat stands in a list.
proof fn lemma_chat_index(list: Seq<TouchedView>, chat: Seq<char>)
    ensures
        0 <= chat_index(list, chat) <= list.len(),
        chat_index(list, chat) < list.len() ==> list[chat_index(list, chat)].chat_id == chat,
        forall|k: int| 0 <= k < chat_index(list, chat) ==> (#[trigger] list[k]).chat_id != chat,
    decreases list.len(),
{
    if list.len() > 0 && list[0].chat_id != chat {
        let rest = list.drop_first();
        lemma_chat_index(rest, chat);
        assert forall|k: int| 0 <= k < chat_index(list, chat) implies (#[trigger] list[k]).chat_id
            != chat by {
            if k > 0 {
                assert(list[k] == rest[k - 1]);
            }
        }
    }
}

/// Whether message `i` changed and is of the chat of `t`.
pub open spec fn changes_chat(
    messages: Seq<RawMessage>,
    changes: Seq<MessageChange>,
    i: int,
    chat: Seq<char>,
) -> bool {
    0 <= i < messages.len() && changes[i] != MessageChange::Unchanged && messages[i].chat_id@
        == chat
}

/// Whether `t` is the touch of a message that changed.
pub open spec fn is_change(
    messages: Seq<RawMessage>,
    changes: Seq<MessageChange>,
    t: TouchedView,
) -> bool {
    exists|i: int| #[trigger]
        changes_chat(messages, changes, i, t.chat_id) && touch_of(messages[i]) == t
}

/// Whether `list` says, of exactly the chats that changed, which change came first.
pub open spec fn earliest_changes(
    list: Seq<TouchedView>,
    messages: Seq<RawMessage>,
    changes: Seq<MessageChange>,
) -> bool {
    // No chat stands twice.
    &&& forall|a: int, b: int|
        0 <= a < b < list.len() ==> (#[trigger] list[a]).chat_id != (#[trigger] list[b]).chat_id
    // What is listed is a change.
    &&& forall|a: int| 0 <= a < list.len() ==> is_change(messages, changes, #[trigger] list[a])
    // Every change is listed, or one of the same chat that came no later.
    &&& forall|i: int, chat: Seq<char>| #[trigger]
        changes_chat(messages, changes, i, chat) ==> exists|a: int|
            0 <= a < list.len() && (#[trigger] list[a]).chat_id == chat && !sent_before(
                touch_of(messages[i]),
                list[a],
            )
}

/// The order in which messages are sent is transitive where it denies.
proof fn lemma_not_sent_before(a: TouchedView, b: TouchedView, c: TouchedView)
    requires
        !sent_before(a, b),
        sent_before(c, b),
    ensures
        !sent_before(a, c),
{
    lemma_le_total(a.timestamp, b.timestamp);
    lemma_le_total(a.timestamp, c.timestamp);
    lemma_le_total(b.timestamp, c.timestamp);
    lemma_le_total(a.message_id, c.message_id);
    lemma_le_total(b.message_id, c.message_id);
    lemma_le_total(b.message_id, a.message_id);
    if sent_before(a, c) {
        if lt(a.timestamp, c.timestamp) {
            // a < c <= b in time, so a would come before b
            if le(b.timestamp, a.timestamp) {
                lemma_le_transitive(c.timestamp, b.timestamp, a.timestamp);
            }
        } else {
            if lt(c.timestamp, b.timestamp) {
            } else {
                if le(b.message_id, a.message_id) {
                    lemma_le_transitive(c.message_id, b.message_id, a.message_id);
                }
            }
        }
    }
}

/// A sync reports exactly the chats in which something changed, each once, and
/// with the key of the change that was sent first; so nothing before that key
/// moved, and a chat that is not reported did not change at all.
pub proof fn law_touched_chats_are_the_earliest_changes(
    messages: Seq<RawMessage>,
    changes: Seq<MessageChange>,
)
    requires
        changes.len() == messages.len(),
    ensures
        earliest_changes(touched(messages, changes), messages, changes),
    decreases messages.len(),
{
    if messages.len() > 0 {
        let ms = messages.drop_last();
        let cs = changes.drop_last();
        law_touched_chats_are_the_earliest_changes(ms, cs);
        let front = touched(ms, cs);
        let list = touched(messages, changes);
        let last = messages.len() - 1;
        let t = touch_of(messages.last());
        let at = chat_index(front, t.chat_id);
        lemma_chat_index(front, t.chat_id);
        let fresh = changes.last() != MessageChange::Unchanged;
        assert forall|i: int, chat: Seq<char>| i < last implies #[trigger] changes_chat(
            messages,
            changes,
            i,
            chat,
        ) == changes_chat(ms, cs, i, chat) by {
            if 0 <= i < last {
                assert(ms[i] == messages[i]);
                assert(cs[i] == changes[i]);
            }
        }
        assert forall|a: int, b: int| 0 <= a < b < list.len() implies (#[trigger] list[a]).chat_id
            != (#[trigger] list[b]).chat_id by {
            if fresh && at >= front.len() {
                if b < front.len() {
                    assert(list[a] == front[a] && list[b] == front[b]);
                } else {
                    assert(list[a] == front[a]);
                }
            } else {
                assert(list[a].chat_id == front[a].chat_id);
                assert(list[b].chat_id == front[b].chat_id);
            }
        }
        assert forall|a: int| 0 <= a < list.len() implies is_change(
            messages,
            changes,
            #[trigger] list[a],
        ) by {
            if fresh && list[a] == t {
                assert(changes_chat(messages, changes, last, t.chat_id));
            } else {
                assert(list[a] == front[a]);
                let i = choose|i: int| #[trigger]
                    changes_chat(ms, cs, i, front[a].chat_id) && touch_of(ms[i]) == front[a];
                assert(changes_chat(messages, changes, i, list[a].chat_id));
                assert(touch_of(messages[i]) == list[a]);
            }
        }
        assert forall|i: int, chat: Seq<char>| #[trigger]
            changes_chat(messages, changes, i, chat) implies exists|a: int|
            0 <= a < list.len() && (#[trigger] list[a]).chat_id == chat && !sent_before(
                touch_of(messages[i]),
                list[a],
            ) by {
            lemma_le_refl(t.timestamp);
            lemma_le_refl(t.message_id);
            if i == last {
                if at < front.len() {
                    assert(list[at].chat_id == chat);
                } else {
                    assert(list[front.len() as int] == t);
                }
            } else {
                assert(changes_chat(ms, cs, i, chat));
                let a = choose|a: int|
                    0 <= a < front.len() && (#[trigger] front[a]).chat_id == chat && !sent_before(
                        touch_of(ms[i]),
                        front[a],
                    );
                if fresh && a == at && at < front.len() && sent_before(t, front[at]) {
                    lemma_not_sent_before(touch_of(ms[i]), front[at], t);
                    assert(list[at] == t);
                } else {
                    assert(list[a] == front[a]);
                }
            }
        }
    }
}

/// Where an account stands in a list.
proof fn lemma_source_index(list: Seq<CursorView>, source: Seq<char>)
    ensures
        0 <= source_index(list, source) <= list.len(),
        source_index(list, source) < list.len() ==> list[source_index(list, source)].source_id
            == source,
    decreases list.len(),
{
    if list.len() > 0 && list[0].source_id != source {
        lemma_source_index(list.drop_first(), source);
    }
}

/// Whether `c` is the time of a message of its account.
pub open spec fn is_message_time(messages: Seq<RawMessage>, c: CursorView) -> bool {
    exists|i: int|
        0 <= i < messages.len() && (#[trigger] messages[i]).account_hash@ == c.source_id
            && messages[i].timestamp == c.newest
}

/// Whether a cursor of the account of `m` is no earlier than `m`.
pub open spec fn covers(list: Seq<CursorView>, m: RawMessage) -> bool {
    exists|a: int|
        0 <= a < list.len() && (#[trigger] list[a]).source_id == m.account_hash@ && !later(
            m.timestamp,
            list[a].newest,
        )
}

/// The cursor of an account is the time of its newest message, whatever order
/// the messages come in.
pub proof fn law_cursors_are_the_newest(messages: Seq<RawMessage>)
    ensures
        forall|a: int|
            0 <= a < cursors_of(messages).len() ==> is_message_time(
                messages,
                #[trigger] cursors_of(messages)[a],
            ),
        forall|i: int|
            0 <= i < messages.len() ==> covers(cursors_of(messages), #[trigger] messages[i]),
    decreases messages.len(),
{
    if messages.len() > 0 {
        let ms = messages.drop_last();
        law_cursors_are_the_newest(ms);
        let front = cursors_of(ms);
        let list = cursors_of(messages);
        let m = messages.last();
        let c = CursorView { source_id: m.account_hash@, newest: m.timestamp };
        lemma_source_index(front, c.source_id);
        let at = source_index(front, c.source_id);
        assert forall|a: int| 0 <= a < list.len() implies is_message_time(
            messages,
            #[trigger] list[a],
        ) by {
            if list[a] == c {
                assert(messages[messages.len() - 1] == m);
            } else {
                assert(list[a] == front[a]);
                let i = choose|i: int|
                    0 <= i < ms.len() && (#[trigger] ms[i]).account_hash@ == front[a].source_id
                        && ms[i].timestamp == front[a].newest;
                assert(messages[i] == ms[i]);
            }
        }
        assert forall|i: int| 0 <= i < messages.len() implies covers(
            list,
            #[trigger] messages[i],
        ) by {
            if i < ms.len() {
                assert(messages[i] == ms[i]);
                let a = choose|a: int|
                    0 <= a < front.len() && (#[trigger] front[a]).source_id
                        == ms[i].account_hash@ && !later(ms[i].timestamp, front[a].newest);
                assert(list[a].source_id == ms[i].account_hash@);
            } else if at < front.len() {
                assert(list[at].source_id == m.account_hash@);
            } else {
                assert(list[front.len() as int] == c);
            }
        }
    }
}

/// A sync that changed no message touches no chat and counts nothing.
pub proof fn law_quiet_sync_touches_nothing(
    messages: Seq<RawMessage>,
    changes: Seq<MessageChange>,
)
    requires
        changes.len() == messages.len(),
        forall|i: int| 0 <= i < changes.len() ==> #[trigger] changes[i] == MessageChange::Unchanged,
    ensures
        touched(messages, changes).len() == 0,
        change_count(changes, MessageChange::Inserted) == 0,
        change_count(changes, MessageChange::Updated) == 0,
    decreases messages.len(),
{
    if messages.len() > 0 {
        law_quiet_sync_touches_nothing(messages.drop_last(), changes.drop_last());
    }
}

/// A chat is touched under its own id, at the time and the id of the message that
/// changed.
pub proof fn law_a_touch_is_the_message(m: RawMessage, t: TouchedChat)
    ensures
        touched_view(t) == touch_of(m) ==> t.chat_id@ == m.chat_id@
            && t.earliest_changed_message_id@ == m.message_id@ && (rfc3339(
            m.timestamp.seconds as int,
            m.timestamp.nanos as int,
        ) matches Some(date) ==> t.earliest_changed_timestamp@ == date),
{
}

/// What has the earlier time was sent before, and of two at one time the one with
/// the earlier id; nothing was sent before itself.
pub proof fn law_time_decides_what_was_first(a: TouchedView, b: TouchedView)
    ensures
        lt(a.timestamp, b.timestamp) ==> sent_before(a, b) && !sent_before(b, a),
        a.timestamp == b.timestamp ==> (sent_before(a, b) <==> lt(a.message_id, b.message_id)),
        !sent_before(a, a),
{
    lemma_le_refl(a.timestamp);
    lemma_le_refl(a.message_id);
    lemma_le_total(a.timestamp, b.timestamp);
}

/// Every change is counted once, under its own kind.
pub proof fn law_every_change_is_counted(changes: Seq<MessageChange>)
    ensures
        change_count(changes, MessageChange::Inserted) + change_count(
            changes,
            MessageChange::Updated,
        ) + change_count(changes, MessageChange::Unchanged) == changes.len(),
        forall|change: MessageChange| #[trigger]
            change_count(changes.push(change), change) == change_count(changes, change) + 1,
    decreases changes.len(),
{
    if changes.len() > 0 {
        law_every_change_is_counted(changes.drop_last());
    }
    assert forall|change: MessageChange| #[trigger] change_count(
        changes.push(change),
        change,
    ) == change_count(changes, change) + 1 by {
        assert(changes.push(change).drop_last() =~= changes);
    }
}

/// A cursor is seen as it is, and a chat is found where it first stands in a list,
/// or past the end where it does not.
pub proof fn law_lists_are_searched_from_the_front(
    cursors: Seq<SourceCursor>,
    list: Seq<TouchedView>,
    chat: Seq<char>,
    i: int,
)
    requires
        0 <= i <= list.len(),
        i < list.len() ==> list[i].chat_id == chat,
        forall|j: int| 0 <= j < i ==> (#[trigger] list[j]).chat_id != chat,
    ensures
        chat_index(list, chat) == i,
        cursor_views(cursors).len() == cursors.len(),
        forall|k: int|
            0 <= k < cursors.len() ==> (#[trigger] cursor_views(cursors)[k]).source_id
                == cursors[k].source_id@ && cursor_views(cursors)[k].newest == cursors[k].newest,
    decreases list.len(),
{
    if i > 0 {
        assert(list[0].chat_id != chat);
        let rest = list.drop_first();
        assert forall|j: int| 0 <= j < i - 1 implies (#[trigger] rest[j]).chat_id != chat by {
            assert(rest[j] == list[j + 1]);
        }
        law_lists_are_searched_from_the_front(cursors, rest, chat, i - 1);
    }
}

} // verus!
