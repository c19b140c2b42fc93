//! Which stored messages the source no longer has.
//!
//! The source forgets old messages; outliving that is what the archive is for.
//! So a stored message is removed only where the source still reports messages
//! of its chat on both sides of it, or at its very time, and not the message
//! itself. A chat that the source does not mention is left alone.

use crate::text::order::{le, lemma_le_refl, lemma_le_total, lemma_le_transitive, text_le};
use crate::text::same;
use vstd::prelude::*;

verus! {

/// A message that the source reports.
#[derive(Debug, Clone)]
pub struct SourceMessage {
    pub chat_id: String,
    pub message_id: String,
    /// RFC 3339.
    pub timestamp: String,
}

/// A stored message.
#[derive(Debug, Clone)]
pub struct StoredKey {
    pub chat_id: String,
    pub message_id: String,
    /// RFC 3339.
    pub timestamp: String,
}

/// A message to be removed.
#[derive(Debug, Clone, PartialEq, Eq)]
pub struct DeletedMessage {
    pub chat_id: String,
    pub message_id: String,
}

/// The time over which the source reports messages of a chat.
#[derive(Debug, Clone)]
pub struct ChatSpan {
    pub chat_id: String,
    pub oldest: String,
    pub newest: String,
}

/// Whether the source reports a message of `chat` no later than `time`.
pub open spec fn reaches_back(source: Seq<SourceMessage>, chat: Seq<char>, time: Seq<char>) -> bool {
    exists|i: int|
        0 <= i < source.len() && (#[trigger] source[i]).chat_id@ == chat && le(
            source[i].timestamp@,
            time,
        )
}

/// Whether the source reports a message of `chat` no earlier than `time`.
pub open spec fn reaches_on(source: Seq<SourceMessage>, chat: Seq<char>, time: Seq<char>) -> bool {
    exists|i: int|
        0 <= i < source.len() && (#[trigger] source[i]).chat_id@ == chat && le(
            time,
            source[i].timestamp@,
        )
}

/// Whether the source reports the message.
pub open spec fn reports(source: Seq<SourceMessage>, chat: Seq<char>, id: Seq<char>) -> bool {
    exists|i: int|
        0 <= i < source.len() && (#[trigger] source[i]).chat_id@ == chat && source[i].message_id@
            == id
}

/// Whether a stored message is to be removed: the source covers its time and
/// does not report it.
pub open spec fn doomed(source: Seq<SourceMessage>, stored: StoredKey) -> bool {
    &&& reaches_back(source, stored.chat_id@, stored.timestamp@)
    &&& reaches_on(source, stored.chat_id@, stored.timestamp@)
    &&& !reports(source, stored.chat_id@, stored.message_id@)
}

/// The places of the stored messages that are to be removed, in order.
pub open spec fn doomed_places(source: Seq<SourceMessage>, stored: Seq<StoredKey>) -> Seq<int>
    decreases stored.len(),
{
    if stored.len() == 0 {
        seq![]
    } else {
        let front = doomed_places(source, stored.drop_last());
        if doomed(source, stored.last()) {
            front.push(stored.len() - 1)
        } else {
            front
        }
    }
}

/// Whether `span` is the time over which the source reports messages of its chat.
pub open spec fn spans(span: ChatSpan, source: Seq<SourceMessage>) -> bool {
    &&& exists|i: int|
        0 <= i < source.len() && (#[trigger] source[i]).chat_id@ == span.chat_id@
            && source[i].timestamp@ == span.oldest@
    &&& exists|i: int|
        0 <= i < source.len() && (#[trigger] source[i]).chat_id@ == span.chat_id@
            && source[i].timestamp@ == span.newest@
    &&& forall|i: int|
        0 <= i < source.len() && (#[trigger] source[i]).chat_id@ == span.chat_id@ ==> le(
            span.oldest@,
            source[i].timestamp@,
        ) && le(source[i].timestamp@, span.newest@)
}

/// A span covers exactly the times that the source reaches on both sides.
pub proof fn law_span_is_the_reach_of_the_source(
    span: ChatSpan,
    source: Seq<SourceMessage>,
    time: Seq<char>,
)
    requires
        spans(span, source),
    ensures
        (le(span.oldest@, time) && le(time, span.newest@)) == (reaches_back(
            source,
            span.chat_id@,
            time,
        ) && reaches_on(source, span.chat_id@, time)),
{
    if le(span.oldest@, time) && le(time, span.newest@) {
    }
    if reaches_back(source, span.chat_id@, time) && reaches_on(source, span.chat_id@, time) {
        let i = choose|i: int|
            0 <= i < source.len() && (#[trigger] source[i]).chat_id@ == span.chat_id@ && le(
                source[i].timestamp@,
                time,
            );
        let j = choose|j: int|
            0 <= j < source.len() && (#[trigger] source[j]).chat_id@ == span.chat_id@ && le(
                time,
                source[j].timestamp@,
            );
        lemma_le_transitive(span.oldest@, source[i].timestamp@, time);
        lemma_le_transitive(time, source[j].timestamp@, span.newest@);
    }
}

/// The span of each chat that the source mentions, in the order of first mention.
pub fn source_spans(source: &[SourceMessage]) -> (list: Vec<ChatSpan>)
    ensures
        forall|a: int| 0 <= a < list@.len() ==> spans(#[trigger] list@[a], source@),
        forall|i: int| 0 <= i < source@.len() ==> has_span(list@, (#[trigger] source@[i]).chat_id@),
        forall|a: int, b: int|
            0 <= a < b < list@.len() ==> (#[trigger] list@[a]).chat_id@ != (
            #[trigger] list@[b]).chat_id@,
{
    let mut list: Vec<ChatSpan> = Vec::new();
    for i in 0..source.len()
        invariant
            forall|a: int|
                0 <= a < list@.len() ==> spans(#[trigger] list@[a], source@.take(i as int)),
            forall|k: int|
                0 <= k < i ==> has_span(list@, (#[trigger] source@[k]).chat_id@),
            forall|a: int, b: int|
                0 <= a < b < list@.len() ==> (#[trigger] list@[a]).chat_id@ != (
                #[trigger] list@[b]).chat_id@,
    {
        let message: &SourceMessage = &source[i];
        let mut at: usize = 0;
        while at < list.len() && !same(list[at].chat_id.as_str(), message.chat_id.as_str())
            invariant
                at <= list@.len(),
                forall|k: int|
                    0 <= k < at ==> (#[trigger] list@[k]).chat_id@ != message.chat_id@,
            decreases list@.len() - at,
        {
            at = at + 1;
        }
        let ghost before = list@;
        let ghost prior = source@.take(i as int);
        let ghost now = source@.take(i + 1);
        proof {
            assert(now =~= prior.push(*message));
            lemma_le_refl(message.timestamp@);
        }
        if at < list.len() {
            let held: &ChatSpan = &list[at];
            let starts_earlier = !text_le(held.oldest.as_str(), message.timestamp.as_str());
            let ends_later = !text_le(message.timestamp.as_str(), held.newest.as_str());
            let oldest = if starts_earlier {
                message.timestamp.clone()
            } else {
                held.oldest.clone()
            };
            let newest = if ends_later {
                message.timestamp.clone()
            } else {
                held.newest.clone()
            };
            let span = ChatSpan { chat_id: held.chat_id.clone(), oldest, newest };
            proof {
                lemma_extend_span(before[at as int], *message, span, prior);
            }
            list.set(at, span);
        } else {
            let span = ChatSpan {
                chat_id: message.chat_id.clone(),
                oldest: message.timestamp.clone(),
                newest: message.timestamp.clone(),
            };
            proof {
                assert(now[i as int] == *message);
                assert forall|k: int| 0 <= k < now.len() && (#[trigger] now[k]).chat_id@
                    == span.chat_id@ implies k == i by {
                    if k < i {
                        assert(now[k] == source@[k]);
                        assert(has_span(before, source@[k].chat_id@));
                        let a = choose|a: int|
                            0 <= a < before.len() && (#[trigger] before[a]).chat_id@
                                == source@[k].chat_id@;
                        assert(before[a].chat_id@ == message.chat_id@);
                    }
                }
                assert(spans(span, now));
            }
            list.push(span);
            proof {
                assert(list@[before.len() as int] == span);
            }
        }
        proof {
            assert forall|a: int| 0 <= a < list@.len() implies spans(
                #[trigger] list@[a],
                now,
            ) by {
                if a != at {
                    assert(list@[a] == before[a]);
                    lemma_keep_span(before[a], *message, prior);
                }
            }
            assert forall|k: int| 0 <= k < i + 1 implies has_span(
                list@,
                (#[trigger] source@[k]).chat_id@,
            ) by {
                if k < i {
                    assert(has_span(before, source@[k].chat_id@));
                    let a = choose|a: int|
                        0 <= a < before.len() && (#[trigger] before[a]).chat_id@
                            == source@[k].chat_id@;
                    assert(list@[a].chat_id@ == source@[k].chat_id@);
                } else {
                    assert(list@[at as int].chat_id@ == source@[k].chat_id@);
                }
            }
        }
    }
    proof {
        assert(source@.take(source@.len() as int) =~= source@);
    }
    list
}

/// Whether the list holds a span of the chat.
pub open spec fn has_span(list: Seq<ChatSpan>, chat: Seq<char>) -> bool {
    exists|a: int| 0 <= a < list.len() && (#[trigger] list[a]).chat_id@ == chat
}

proof fn lemma_keep_span(span: ChatSpan, message: SourceMessage, prior: Seq<SourceMessage>)
    requires
        spans(span, prior),
        message.chat_id@ != span.chat_id@,
    ensures
        spans(span, prior.push(message)),
{
    let now = prior.push(message);
    let i = choose|i: int|
        0 <= i < prior.len() && (#[trigger] prior[i]).chat_id@ == span.chat_id@
            && prior[i].timestamp@ == span.oldest@;
    let j = choose|j: int|
        0 <= j < prior.len() && (#[trigger] prior[j]).chat_id@ == span.chat_id@
            && prior[j].timestamp@ == span.newest@;
    assert(now[i] == prior[i] && now[j] == prior[j]);
    assert forall|k: int| 0 <= k < now.len() && (#[trigger] now[k]).chat_id@
        == span.chat_id@ implies le(span.oldest@, now[k].timestamp@) && le(
        now[k].timestamp@,
        span.newest@,
    ) by {
        if k < prior.len() {
            assert(now[k] == prior[k]);
        }
    }
}

proof fn lemma_extend_span(
    held: ChatSpan,
    message: SourceMessage,
    span: ChatSpan,
    prior: Seq<SourceMessage>,
)
    requires
        spans(held, prior),
        message.chat_id@ == held.chat_id@,
        span.chat_id@ == held.chat_id@,
        span.oldest@ == if le(held.oldest@, message.timestamp@) {
            held.oldest@
        } else {
            message.timestamp@
        },
        span.newest@ == if le(message.timestamp@, held.newest@) {
            held.newest@
        } else {
            message.timestamp@
        },
    ensures
        spans(span, prior.push(message)),
{
    let now = prior.push(message);
    let last = prior.len() as int;
    assert(now[last] == message);
    lemma_le_refl(message.timestamp@);
    lemma_le_total(held.oldest@, message.timestamp@);
    lemma_le_total(held.newest@, message.timestamp@);
    let i = choose|i: int|
        0 <= i < prior.len() && (#[trigger] prior[i]).chat_id@ == held.chat_id@
            && prior[i].timestamp@ == held.oldest@;
    let j = choose|j: int|
        0 <= j < prior.len() && (#[trigger] prior[j]).chat_id@ == held.chat_id@
            && prior[j].timestamp@ == held.newest@;
    assert(now[i] == prior[i] && now[j] == prior[j]);
    assert forall|k: int| 0 <= k < now.len() && (#[trigger] now[k]).chat_id@
        == span.chat_id@ implies le(span.oldest@, now[k].timestamp@) && le(
        now[k].timestamp@,
        span.newest@,
    ) by {
        if k < last {
            assert(now[k] == prior[k]);
            let t = prior[k].timestamp@;
            if !le(held.oldest@, message.timestamp@) {
                lemma_le_transitive(message.timestamp@, held.oldest@, t);
            }
            if !le(message.timestamp@, held.newest@) {
                lemma_le_transitive(t, held.newest@, message.timestamp@);
            }
        }
    }
}

/// Whether a stored message is to be removed.
pub fn is_doomed(source: &[SourceMessage], stored: &StoredKey) -> (r: bool)
    ensures
        r == doomed(source@, *stored),
{
    let mut back = false;
    let mut on = false;
    for i in 0..source.len()
        invariant
            back == exists|k: int|
                0 <= k < i && (#[trigger] source@[k]).chat_id@ == stored.chat_id@ && le(
                    source@[k].timestamp@,
                    stored.timestamp@,
                ),
            on == exists|k: int|
                0 <= k < i && (#[trigger] source@[k]).chat_id@ == stored.chat_id@ && le(
                    stored.timestamp@,
                    source@[k].timestamp@,
                ),
            forall|k: int|
                0 <= k < i ==> (#[trigger] source@[k]).chat_id@ != stored.chat_id@
                    || source@[k].message_id@ != stored.message_id@,
    {
        let message: &SourceMessage = &source[i];
        assert(source@[i as int] == *message);
        if same(message.chat_id.as_str(), stored.chat_id.as_str()) {
            if same(message.message_id.as_str(), stored.message_id.as_str()) {
                assert(reports(source@, stored.chat_id@, stored.message_id@));
                return false;
            }
            if text_le(message.timestamp.as_str(), stored.timestamp.as_str()) {
                back = true;
            }
            if text_le(stored.timestamp.as_str(), message.timestamp.as_str()) {
                on = true;
            }
        }
    }
    back && on
}

/// Whether `deleted` names the stored messages at `places`, in order.
pub open spec fn names(
    deleted: Seq<DeletedMessage>,
    stored: Seq<StoredKey>,
    places: Seq<int>,
) -> bool {
    &&& deleted.len() == places.len()
    &&& forall|k: int|
        0 <= k < deleted.len() ==> (#[trigger] deleted[k]).chat_id@ == stored[places[k]].chat_id@
            && deleted[k].message_id@ == stored[places[k]].message_id@
}

/// The stored messages that the source no longer has, within what it covers.
pub fn reconcile_deletions(source: &[SourceMessage], stored: &[StoredKey]) -> (deleted: Vec<
    DeletedMessage,
>)
    ensures
        names(deleted@, stored@, doomed_places(source@, stored@)),
{
    let mut deleted: Vec<DeletedMessage> = Vec::new();
    for i in 0..stored.len()
        invariant
            names(deleted@, stored@, doomed_places(source@, stored@.take(i as int))),
    {
        proof {
            assert(stored@.take(i + 1).drop_last() =~= stored@.take(i as int));
        }
        if is_doomed(source, &stored[i]) {
            deleted.push(
                DeletedMessage {
                    chat_id: stored[i].chat_id.clone(),
                    message_id: stored[i].message_id.clone(),
                },
            );
        }
    }
    proof {
        assert(stored@.take(stored@.len() as int) =~= stored@);
    }
    deleted
}

/// The places of the messages to be removed are exactly those of the doomed, ascending.
pub proof fn law_doomed_places_are_exact(source: Seq<SourceMessage>, stored: Seq<StoredKey>)
    ensures
        forall|k: int|
            0 <= k < doomed_places(source, stored).len() ==> 0 <= (#[trigger] doomed_places(
                source,
                stored,
            )[k]) < stored.len() && doomed(source, stored[doomed_places(source, stored)[k]]),
        forall|i: int|
            0 <= i < stored.len() && doomed(source, #[trigger] stored[i]) ==> doomed_places(
                source,
                stored,
            ).contains(i),
    decreases stored.len(),
{
    if stored.len() > 0 {
        let rest = stored.drop_last();
        law_doomed_places_are_exact(source, rest);
        let front = doomed_places(source, rest);
        let all = doomed_places(source, stored);
        assert forall|k: int| 0 <= k < all.len() implies 0 <= (#[trigger] all[k]) < stored.len()
            && doomed(source, stored[all[k]]) by {
            if k < front.len() {
                assert(all[k] == front[k]);
                assert(rest[front[k]] == stored[front[k]]);
            }
        }
        assert forall|i: int| 0 <= i < stored.len() && doomed(
            source,
            #[trigger] stored[i],
        ) implies all.contains(i) by {
            if i < rest.len() {
                assert(rest[i] == stored[i]);
                assert(front.contains(i));
                let k = choose|k: int| 0 <= k < front.len() && front[k] == i;
                assert(all[k] == i);
            } else {
                assert(all[front.len() as int] == i);
            }
        }
    }
}

/// A chat that the source does not mention loses nothing, so an empty or
/// partial read is no mass deletion.
pub proof fn law_unmentioned_chats_are_kept(source: Seq<SourceMessage>, stored: StoredKey)
    requires
        forall|i: int|
            0 <= i < source.len() ==> (#[trigger] source[i]).chat_id@ != stored.chat_id@,
    ensures
        !doomed(source, stored),
{
}

/// A message older than everything that the source still reports of its chat is kept.
pub proof fn law_forgotten_history_is_kept(source: Seq<SourceMessage>, stored: StoredKey)
    requires
        forall|i: int|
            0 <= i < source.len() && (#[trigger] source[i]).chat_id@ == stored.chat_id@ ==> !le(
                source[i].timestamp@,
                stored.timestamp@,
            ),
    ensures
        !doomed(source, stored),
{
}

/// A message that the source still reports is kept.
pub proof fn law_reported_messages_are_kept(source: Seq<SourceMessage>, stored: StoredKey, i: int)
    requires
        0 <= i < source.len(),
        source[i].chat_id@ == stored.chat_id@,
        source[i].message_id@ == stored.message_id@,
    ensures
        !doomed(source, stored),
{
    assert(reports(source, stored.chat_id@, stored.message_id@));
}

/// A message that was taken back is removed: where the source has messages of its
/// chat on both sides of it, and not the message itself.
pub proof fn law_taken_back_messages_are_removed(
    source: Seq<SourceMessage>,
    stored: StoredKey,
    before: int,
    behind: int,
)
    requires
        0 <= before < source.len(),
        0 <= behind < source.len(),
        source[before].chat_id@ == stored.chat_id@,
        source[behind].chat_id@ == stored.chat_id@,
        le(source[before].timestamp@, stored.timestamp@),
        le(stored.timestamp@, source[behind].timestamp@),
        forall|i: int|
            0 <= i < source.len() && (#[trigger] source[i]).chat_id@ == stored.chat_id@
                ==> source[i].message_id@ != stored.message_id@,
    ensures
        doomed(source, stored),
{
    assert(reaches_back(source, stored.chat_id@, stored.timestamp@));
    assert(reaches_on(source, stored.chat_id@, stored.timestamp@));
}

/// A message newer than everything that the source reports of its chat is kept.
pub proof fn law_newer_messages_are_kept(source: Seq<SourceMessage>, stored: StoredKey)
    requires
        forall|i: int|
            0 <= i < source.len() && (#[trigger] source[i]).chat_id@ == stored.chat_id@ ==> !le(
                stored.timestamp@,
                source[i].timestamp@,
            ),
    ensures
        !doomed(source, stored),
{
}

/// What is removed is a stored message that the source does not report, and every
/// such message within its reach is.
pub proof fn law_removals_name_the_messages(
    deleted: Seq<DeletedMessage>,
    source: Seq<SourceMessage>,
    stored: Seq<StoredKey>,
)
    requires
        names(deleted, stored, doomed_places(source, stored)),
    ensures
        forall|k: int|
            0 <= k < deleted.len() ==> (exists|i: int|
                0 <= i < stored.len() && (#[trigger] stored[i]).chat_id@ == (
                #[trigger] deleted[k]).chat_id@ && stored[i].message_id@ == deleted[k].message_id@)
                && !(exists|j: int|
                0 <= j < source.len() && (#[trigger] source[j]).chat_id@ == deleted[k].chat_id@
                    && source[j].message_id@ == deleted[k].message_id@),
        forall|i: int|
            0 <= i < stored.len() && doomed(source, #[trigger] stored[i]) ==> exists|k: int|
                0 <= k < deleted.len() && (#[trigger] deleted[k]).chat_id@ == stored[i].chat_id@
                    && deleted[k].message_id@ == stored[i].message_id@,
{
    law_doomed_places_are_exact(source, stored);
    let places = doomed_places(source, stored);
    assert forall|k: int| 0 <= k < deleted.len() implies (exists|i: int|
        0 <= i < stored.len() && (#[trigger] stored[i]).chat_id@ == (
        #[trigger] deleted[k]).chat_id@ && stored[i].message_id@ == deleted[k].message_id@) && !(
    exists|j: int|
        0 <= j < source.len() && (#[trigger] source[j]).chat_id@ == deleted[k].chat_id@
            && source[j].message_id@ == deleted[k].message_id@) by {
        let i = places[k];
        assert(doomed(source, stored[i]));
        assert(!reports(source, stored[i].chat_id@, stored[i].message_id@));
    }
    assert forall|i: int| 0 <= i < stored.len() && doomed(
        source,
        #[trigger] stored[i],
    ) implies exists|k: int|
        0 <= k < deleted.len() && (#[trigger] deleted[k]).chat_id@ == stored[i].chat_id@
            && deleted[k].message_id@ == stored[i].message_id@ by {
        assert(places.contains(i));
        let k = choose|k: int| 0 <= k < places.len() && places[k] == i;
        assert(deleted[k].chat_id@ == stored[i].chat_id@);
    }
}

} // verus!
