//! The queue of mentions that wait for a reply.
//!
//! A direct reply of the account owner answers a mention. Anything else that
//! they wrote later in the room may be about something else, so the mention is
//! shown for review.

use crate::json::str_view;
use crate::text::order::{
    le, lemma_le_antisymmetric, lemma_le_refl, lemma_le_total, lemma_le_transitive, lt, text_lt,
};
use crate::text::split::{
    join, join_strings, law_joined_words_show_the_same, law_plain_lines_stay_as_they_are,
    law_words_lose_nothing, plain_line, split_words, views, words,
};
use crate::text::trim::copy_range;
use crate::text::{chars_of, same, string_of, white_space};
use crate::types::{MentionInboxCounts, MentionInboxItem, MentionInboxReport, MentionStatus};
use vstd::prelude::*;

verus! {

/// A message that mentions the account owner.
#[derive(Debug)]
pub struct MentionRow {
    pub account_hash: String,
    pub chat_id: String,
    pub chat_name: String,
    pub message_id: String,
    pub sender_nickname: String,
    pub timestamp: String,
    pub text: String,
    pub chunk_id: Option<String>,
}

/// A message of the account owner after a mention.
#[derive(Debug)]
pub struct SelfResponse {
    pub message_id: String,
    pub timestamp: String,
    pub text: String,
    pub chunk_id: Option<String>,
}

/// A mention, the first direct reply to it and the first other message after it.
#[derive(Debug)]
pub struct Mention {
    pub row: MentionRow,
    pub direct: Option<SelfResponse>,
    pub later: Option<SelfResponse>,
}

// ---------------------------------------------------------------------------
// Responses
// ---------------------------------------------------------------------------

/// A message of a room, as far as it may respond to a mention.
#[derive(Debug)]
pub struct RoomMessage {
    pub account_hash: String,
    pub chat_id: String,
    pub is_self: bool,
    pub reply_to_message_id: Option<String>,
    pub response: SelfResponse,
}

/// Whether the first was sent before the second: by time, then by id.
pub open spec fn sent_before(
    time: Seq<char>,
    id: Seq<char>,
    other_time: Seq<char>,
    other_id: Seq<char>,
) -> bool {
    lt(time, other_time) || (time == other_time && lt(id, other_id))
}

/// Whether a message of the account owner follows a mention in its room, as a
/// direct reply to it or as anything else.
pub open spec fn responds(mention: MentionRow, message: RoomMessage, direct: bool) -> bool {
    &&& message.account_hash@ == mention.account_hash@
    &&& message.chat_id@ == mention.chat_id@
    &&& message.is_self
    &&& sent_before(
        mention.timestamp@,
        mention.message_id@,
        message.response.timestamp@,
        message.response.message_id@,
    )
    &&& direct == (str_view(message.reply_to_message_id) == Some(mention.message_id@))
}

/// Whether one message was sent before another.
pub open spec fn earlier(a: RoomMessage, b: RoomMessage) -> bool {
    sent_before(
        a.response.timestamp@,
        a.response.message_id@,
        b.response.timestamp@,
        b.response.message_id@,
    )
}

/// Whether the message at `i` responds, and none that responds is earlier.
pub open spec fn is_first_response(
    mention: MentionRow,
    messages: Seq<RoomMessage>,
    direct: bool,
    i: int,
) -> bool {
    &&& 0 <= i < messages.len()
    &&& responds(mention, messages[i], direct)
    &&& forall|k: int|
        0 <= k < messages.len() && responds(mention, #[trigger] messages[k], direct) ==> !earlier(
            messages[k],
            messages[i],
        )
}

/// Whether no message responds.
pub open spec fn no_response(mention: MentionRow, messages: Seq<RoomMessage>, direct: bool) -> bool {
    forall|k: int| 0 <= k < messages.len() ==> !responds(mention, #[trigger] messages[k], direct)
}

/// Exec form of [`sent_before`].
fn is_sent_before(time: &str, id: &str, other_time: &str, other_id: &str) -> (r: bool)
    ensures
        r == sent_before(time@, id@, other_time@, other_id@),
{
    text_lt(time, other_time) || (same(time, other_time) && text_lt(id, other_id))
}

/// What is not later than something earlier is earlier.
proof fn lemma_earlier(a: RoomMessage, b: RoomMessage, c: RoomMessage)
    requires
        earlier(a, b),
        !earlier(c, b),
    ensures
        !earlier(c, a),
{
    let (ta, tb, tc) = (a.response.timestamp@, b.response.timestamp@, c.response.timestamp@);
    let (ia, ib, ic) = (a.response.message_id@, b.response.message_id@, c.response.message_id@);
    if earlier(c, a) {
        lemma_le_total(ta, tb);
        lemma_le_total(tc, ta);
        lemma_le_total(tc, tb);
        lemma_le_total(ia, ib);
        lemma_le_total(ic, ia);
        lemma_le_total(ic, ib);
        lemma_le_refl(tc);
        if le(tb, tc) && le(tc, ta) {
            lemma_le_transitive(tb, tc, ta);
            if le(ta, tb) {
                lemma_le_antisymmetric(ta, tb);
                lemma_le_antisymmetric(ta, tc);
            }
        }
        if le(ib, ic) && le(ic, ia) {
            lemma_le_transitive(ib, ic, ia);
        }
    }
}

/// The place of the first response to a mention among the messages of its
/// room: of the direct replies, or of everything else.
pub fn first_self_response(mention: &MentionRow, messages: &[RoomMessage], direct_only: bool) -> (r:
    Option<usize>)
    ensures
        match r {
            Some(i) => is_first_response(*mention, messages@, direct_only, i as int),
            None => no_response(*mention, messages@, direct_only),
        },
{
    let mut best: Option<usize> = None;
    for i in 0..messages.len()
        invariant
            match best {
                Some(b) => b < i && is_first_response(
                    *mention,
                    messages@.take(i as int),
                    direct_only,
                    b as int,
                ),
                None => no_response(*mention, messages@.take(i as int), direct_only),
            },
    {
        let ghost seen = messages@.take(i as int);
        let ghost now = messages@.take(i + 1);
        proof {
            assert(now.drop_last() == seen);
            assert(now.last() == messages@[i as int]);
        }
        let message: &RoomMessage = &messages[i];
        let is_direct = match &message.reply_to_message_id {
            Some(id) => same(id.as_str(), mention.message_id.as_str()),
            None => false,
        };
        let fits = message.is_self && is_direct == direct_only && same(
            message.account_hash.as_str(),
            mention.account_hash.as_str(),
        ) && same(message.chat_id.as_str(), mention.chat_id.as_str()) && is_sent_before(
            mention.timestamp.as_str(),
            mention.message_id.as_str(),
            message.response.timestamp.as_str(),
            message.response.message_id.as_str(),
        );
        assert(fits == responds(*mention, *message, direct_only));
        proof {
            lemma_le_refl(message.response.timestamp@);
            lemma_le_refl(message.response.message_id@);
            assert forall|k: int| 0 <= k < i implies now[k] == #[trigger] seen[k] by {}
        }
        let better = fits && match best {
            Some(b) => is_sent_before(
                message.response.timestamp.as_str(),
                message.response.message_id.as_str(),
                messages[b].response.timestamp.as_str(),
                messages[b].response.message_id.as_str(),
            ),
            None => true,
        };
        if better {
            proof {
                if let Some(b) = best {
                    assert forall|k: int|
                        0 <= k < now.len() && responds(
                            *mention,
                            #[trigger] now[k],
                            direct_only,
                        ) implies !earlier(now[k], *message) by {
                        if k < i {
                            assert(now[k] == seen[k]);
                            lemma_earlier(*message, seen[b as int], seen[k]);
                        }
                    }
                } else {
                    assert forall|k: int|
                        0 <= k < now.len() && responds(
                            *mention,
                            #[trigger] now[k],
                            direct_only,
                        ) implies !earlier(now[k], *message) by {
                        if k < i {
                            assert(now[k] == seen[k]);
                        }
                    }
                }
            }
            best = Some(i);
        } else {
            proof {
                if let Some(b) = best {
                    assert(now[b as int] == seen[b as int]);
                    assert forall|k: int|
                        0 <= k < now.len() && responds(
                            *mention,
                            #[trigger] now[k],
                            direct_only,
                        ) implies !earlier(now[k], now[b as int]) by {
                        if k < i {
                            assert(now[k] == seen[k]);
                        }
                    }
                } else {
                    assert forall|k: int| 0 <= k < now.len() implies !responds(
                        *mention,
                        #[trigger] now[k],
                        direct_only,
                    ) by {
                        if k < i {
                            assert(now[k] == seen[k]);
                        }
                    }
                }
            }
        }
    }
    proof {
        assert(messages@.take(messages@.len() as int) == messages@);
    }
    best
}

/// Whether two responses are the same.
pub open spec fn same_response(a: SelfResponse, b: SelfResponse) -> bool {
    &&& a.message_id@ == b.message_id@
    &&& a.timestamp@ == b.timestamp@
    &&& a.text@ == b.text@
    &&& str_view(a.chunk_id) == str_view(b.chunk_id)
}

/// A copy of a response.
fn copy_response(response: &SelfResponse) -> (copy: SelfResponse)
    ensures
        same_response(copy, *response),
{
    SelfResponse {
        message_id: response.message_id.clone(),
        timestamp: response.timestamp.clone(),
        text: response.text.clone(),
        chunk_id: match &response.chunk_id {
            Some(id) => Some(id.clone()),
            None => None,
        },
    }
}

/// Whether `found` is a first response, where there is one.
pub open spec fn is_response_found(
    mention: MentionRow,
    messages: Seq<RoomMessage>,
    direct: bool,
    found: Option<SelfResponse>,
) -> bool {
    match found {
        Some(response) => exists|i: int|
            is_first_response(mention, messages, direct, i) && same_response(
                response,
                (#[trigger] messages[i]).response,
            ),
        None => no_response(mention, messages, direct),
    }
}

/// A mention with what responds to it: the first direct reply, or else the
/// first other message of the account owner.
pub fn mention_of(row: MentionRow, messages: &[RoomMessage]) -> (mention: Mention)
    ensures
        mention.row == row,
        is_response_found(row, messages@, true, mention.direct),
        mention.direct is Some ==> mention.later is None,
        mention.direct is None ==> is_response_found(row, messages@, false, mention.later),
{
    if let Some(i) = first_self_response(&row, messages, true) {
        let direct = copy_response(&messages[i].response);
        return Mention { row, direct: Some(direct), later: None };
    }
    let later = match first_self_response(&row, messages, false) {
        Some(i) => Some(copy_response(&messages[i].response)),
        None => None,
    };
    Mention { row, direct: None, later }
}

// ---------------------------------------------------------------------------
// Snippets
// ---------------------------------------------------------------------------

/// The text with every run of white space as one space, and none at the ends.
pub open spec fn collapsed(text: Seq<char>) -> Seq<char> {
    join(words(text), " "@)
}

/// The collapsed text, cut to `max` characters with an ellipsis as the last.
pub open spec fn shortened(text: Seq<char>, max: nat) -> Seq<char> {
    let s = collapsed(text);
    if s.len() <= max {
        s
    } else if max == 0 {
        seq![]
    } else {
        s.take(max - 1).push('\u{2026}')
    }
}

/// Exec form of [`collapsed`], as characters.
fn collapse(text: &str) -> (chars: Vec<char>)
    ensures
        chars@ == collapsed(text@),
{
    let raw = chars_of(text);
    let parts = split_words(raw.as_slice());
    let ghost expected = words(text@);
    let mut list: Vec<String> = Vec::new();
    for i in 0..parts.len()
        invariant
            parts@.map_values(|p: Vec<char>| p@) == expected,
            views(list@) == expected.take(i as int),
    {
        let word = string_of(parts[i].as_slice());
        let ghost before = views(list@);
        list.push(word);
        proof {
            assert(views(list@) =~= before.push(word@));
            assert(expected[i as int] == parts@[i as int]@);
            assert(expected.take(i + 1) =~= before.push(expected[i as int]));
        }
    }
    proof {
        assert(expected.take(parts@.len() as int) =~= expected);
    }
    let joined = join_strings(list.as_slice(), " ");
    chars_of(joined.as_str())
}

/// A one-line excerpt of at most `max_chars` characters.
pub fn snippet(text: &str, max_chars: usize) -> (r: String)
    ensures
        r@ == shortened(text@, max_chars as nat),
{
    let chars = collapse(text);
    if chars.len() <= max_chars {
        return string_of(chars.as_slice());
    }
    if max_chars == 0 {
        return String::new();
    }
    let head = copy_range(chars.as_slice(), 0, max_chars - 1);
    proof {
        assert(head@ =~= chars@.take(max_chars - 1));
    }
    let mut r = string_of(head.as_slice());
    r.push('\u{2026}');
    r
}

/// A snippet is never longer than asked for.
pub proof fn law_snippet_fits(text: Seq<char>, max: nat)
    ensures
        shortened(text, max).len() <= max,
{
}

// ---------------------------------------------------------------------------
// The queue
// ---------------------------------------------------------------------------

/// Where a mention stands.
pub open spec fn status_of(m: Mention) -> MentionStatus {
    if m.direct is Some {
        MentionStatus::Answered
    } else if m.later is Some {
        MentionStatus::Review
    } else {
        MentionStatus::Pending
    }
}

/// The response that decided it.
pub open spec fn response_of(m: Mention) -> Option<SelfResponse> {
    if m.direct is Some {
        m.direct
    } else {
        m.later
    }
}

/// Whether `item` shows the mention `m`.
pub open spec fn shows(item: MentionInboxItem, m: Mention, snippet_chars: nat) -> bool {
    &&& item.status == status_of(m)
    &&& item.chat_id == m.row.chat_id
    &&& item.chat_name == m.row.chat_name
    &&& item.message_id == m.row.message_id
    &&& item.sender_nickname == m.row.sender_nickname
    &&& item.timestamp == m.row.timestamp
    &&& item.snippet@ == shortened(m.row.text@, snippet_chars)
    &&& item.chunk_id == m.row.chunk_id
    &&& match response_of(m) {
        Some(response) => {
            &&& item.response_message_id == Some(response.message_id)
            &&& item.response_timestamp == Some(response.timestamp)
            &&& str_view(item.response_snippet) == Some(
                shortened(response.text@, snippet_chars),
            )
            &&& item.response_chunk_id == response.chunk_id
        },
        None => {
            &&& item.response_message_id is None
            &&& item.response_timestamp is None
            &&& item.response_snippet is None
            &&& item.response_chunk_id is None
        },
    }
}

/// Whether a mention is listed at all.
pub open spec fn listed(m: Mention, include_answered: bool) -> bool {
    include_answered || !(status_of(m) is Answered)
}

/// How many mentions stand at `status`.
pub open spec fn status_count(mentions: Seq<Mention>, status: MentionStatus) -> nat
    decreases mentions.len(),
{
    if mentions.len() == 0 {
        0
    } else {
        status_count(mentions.drop_last(), status) + if status_of(mentions.last()) == status {
            1nat
        } else {
            0
        }
    }
}

/// The listed mentions, in order.
pub open spec fn listing(mentions: Seq<Mention>, include_answered: bool) -> Seq<Mention>
    decreases mentions.len(),
{
    if mentions.len() == 0 {
        seq![]
    } else {
        let front = listing(mentions.drop_last(), include_answered);
        if listed(mentions.last(), include_answered) {
            front.push(mentions.last())
        } else {
            front
        }
    }
}

/// The shorter of two lengths.
pub open spec fn at_most(n: nat, limit: nat) -> nat {
    if n <= limit {
        n
    } else {
        limit
    }
}

/// Whether `items` show the first mentions of the list, `limit` of them at most.
pub open spec fn show_list(
    items: Seq<MentionInboxItem>,
    list: Seq<Mention>,
    limit: nat,
    snippet_chars: nat,
) -> bool {
    &&& items.len() == at_most(list.len(), limit)
    &&& forall|i: int| 0 <= i < items.len() ==> shows(#[trigger] items[i], list[i], snippet_chars)
}

proof fn lemma_status_count_bound(mentions: Seq<Mention>, status: MentionStatus)
    ensures
        status_count(mentions, status) <= mentions.len(),
    decreases mentions.len(),
{
    if mentions.len() > 0 {
        lemma_status_count_bound(mentions.drop_last(), status);
    }
}

/// The item that shows a mention.
fn item_for(mention: Mention, snippet_chars: usize) -> (item: MentionInboxItem)
    ensures
        shows(item, mention, snippet_chars as nat),
{
    let status = mention_status(&mention);
    let response = match mention.direct {
        Some(response) => Some(response),
        None => mention.later,
    };
    let text_snippet = snippet(mention.row.text.as_str(), snippet_chars);
    let (id, timestamp, excerpt, chunk) = match response {
        Some(response) => (
            Some(response.message_id),
            Some(response.timestamp),
            Some(snippet(response.text.as_str(), snippet_chars)),
            response.chunk_id,
        ),
        None => (None, None, None, None),
    };
    MentionInboxItem {
        status,
        chat_id: mention.row.chat_id,
        chat_name: mention.row.chat_name,
        message_id: mention.row.message_id,
        sender_nickname: mention.row.sender_nickname,
        timestamp: mention.row.timestamp,
        snippet: text_snippet,
        chunk_id: mention.row.chunk_id,
        response_message_id: id,
        response_timestamp: timestamp,
        response_snippet: excerpt,
        response_chunk_id: chunk,
    }
}

/// Where a mention stands.
pub fn mention_status(mention: &Mention) -> (status: MentionStatus)
    ensures
        status == status_of(*mention),
{
    if mention.direct.is_some() {
        MentionStatus::Answered
    } else if mention.later.is_some() {
        MentionStatus::Review
    } else {
        MentionStatus::Pending
    }
}

/// The report on `mentions`: every one is counted, and the first `limit` that
/// are to be listed are shown.
pub fn mention_inbox(
    since: String,
    chat_id: Option<String>,
    mentions: Vec<Mention>,
    include_answered: bool,
    limit: usize,
    snippet_chars: usize,
) -> (report: MentionInboxReport)
    ensures
        report.since == since,
        report.chat_id == chat_id,
        report.counts.pending == status_count(mentions@, MentionStatus::Pending),
        report.counts.review == status_count(mentions@, MentionStatus::Review),
        report.counts.answered == status_count(mentions@, MentionStatus::Answered),
        report.returned == report.items@.len(),
        show_list(
            report.items@,
            listing(mentions@, include_answered),
            limit as nat,
            snippet_chars as nat,
        ),
{
    let ghost all = mentions@;
    let total: usize = mentions.len();
    let mut pending: usize = 0;
    let mut review: usize = 0;
    let mut answered: usize = 0;
    let mut items: Vec<MentionInboxItem> = Vec::new();
    for mention in iter: mentions
        invariant
            iter.seq() == all,
            all.len() == total,
            pending == status_count(all.take(iter.index() as int), MentionStatus::Pending),
            review == status_count(all.take(iter.index() as int), MentionStatus::Review),
            answered == status_count(all.take(iter.index() as int), MentionStatus::Answered),
            show_list(
                items@,
                listing(all.take(iter.index() as int), include_answered),
                limit as nat,
                snippet_chars as nat,
            ),
    {
        let ghost seen = all.take(iter.index() as int);
        let ghost now = all.take(iter.index() as int + 1);
        proof {
            assert(now.drop_last() =~= seen);
            assert(now.last() == mention);
            lemma_status_count_bound(seen, MentionStatus::Pending);
            lemma_status_count_bound(seen, MentionStatus::Review);
            lemma_status_count_bound(seen, MentionStatus::Answered);
        }
        let status = mention_status(&mention);
        match status {
            MentionStatus::Pending => {
                pending = pending + 1;
            },
            MentionStatus::Review => {
                review = review + 1;
            },
            MentionStatus::Answered => {
                answered = answered + 1;
            },
        }
        let hidden = status == MentionStatus::Answered && !include_answered;
        if !hidden && items.len() < limit {
            items.push(item_for(mention, snippet_chars));
        }
    }
    proof {
        assert(all.take(total as int) =~= all);
    }
    MentionInboxReport {
        since,
        chat_id,
        counts: MentionInboxCounts { pending, review, answered },
        returned: items.len(),
        items,
    }
}

/// Every mention is counted once, whatever is listed.
pub proof fn law_every_mention_is_counted(mentions: Seq<Mention>)
    ensures
        status_count(mentions, MentionStatus::Pending) + status_count(
            mentions,
            MentionStatus::Review,
        ) + status_count(mentions, MentionStatus::Answered) == mentions.len(),
    decreases mentions.len(),
{
    if mentions.len() > 0 {
        law_every_mention_is_counted(mentions.drop_last());
    }
}

/// Without the answered ones, as many mentions are listed as are pending or up for review.
pub proof fn law_unanswered_are_listed(mentions: Seq<Mention>)
    ensures
        listing(mentions, true) == mentions,
        listing(mentions, false).len() == status_count(mentions, MentionStatus::Pending)
            + status_count(mentions, MentionStatus::Review),
        forall|i: int|
            0 <= i < listing(mentions, false).len() ==> !(status_of(
                #[trigger] listing(mentions, false)[i],
            ) is Answered),
    decreases mentions.len(),
{
    if mentions.len() > 0 {
        let rest = mentions.drop_last();
        law_unanswered_are_listed(rest);
        assert(rest.push(mentions.last()) =~= mentions);
        let front = listing(rest, false);
        let all = listing(mentions, false);
        assert forall|i: int| 0 <= i < all.len() implies !(status_of(
            #[trigger] all[i],
        ) is Answered) by {
            if i < front.len() {
                assert(all[i] == front[i]);
            }
        }
    }
}

/// A direct reply answers a mention, whatever else was written; without one,
/// any later message of the account owner calls for review; and a mention
/// waits only where the account owner wrote nothing after it.
pub proof fn law_a_direct_reply_is_definitive(mention: Mention, messages: Seq<RoomMessage>)
    requires
        is_response_found(mention.row, messages, true, mention.direct),
        mention.direct is Some ==> mention.later is None,
        mention.direct is None ==> is_response_found(mention.row, messages, false, mention.later),
    ensures
        status_of(mention) == MentionStatus::Answered <==> !no_response(
            mention.row,
            messages,
            true,
        ),
        status_of(mention) == MentionStatus::Pending <==> no_response(mention.row, messages, true)
            && no_response(mention.row, messages, false),
{
}

/// An excerpt shows the text: one that is a line already, and fits, is shown as
/// it is; a longer one is shown up to the last place, where the ellipsis stands.
pub proof fn law_a_line_is_shown_as_it_is(text: Seq<char>, max: nat)
    requires
        plain_line(text),
    ensures
        text.len() <= max ==> shortened(text, max) == text,
        0 < max < text.len() ==> shortened(text, max).len() == max && shortened(text, max).take(
            max - 1,
        ) == text.take(max - 1) && shortened(text, max)[max - 1] == '\u{2026}',
{
    law_plain_lines_stay_as_they_are(text);
    reveal_strlit(" ");
    assert(" "@ =~= seq![' ']);
    if 0 < max < text.len() {
        assert(shortened(text, max).take(max - 1) =~= text.take(max - 1));
    }
}

/// Every character of a text that can be seen is in its excerpt, in order, where
/// there is room; none is added.
pub proof fn law_an_excerpt_loses_nothing(text: Seq<char>, max: nat)
    ensures
        collapsed(text).filter(|c: char| !white_space(c)) == text.filter(
            |c: char| !white_space(c),
        ),
        collapsed(text).len() <= max ==> shortened(text, max) == collapsed(text),
{
    law_words_lose_nothing(text);
    law_joined_words_show_the_same(words(text));
    reveal_strlit(" ");
    assert(" "@ =~= seq![' ']);
}

/// What an item says of a mention depends on the mention's own message alone:
/// items of two mentions of the same message agree, whatever was answered, and
/// a text that is one line and fits is shown as it is.
pub proof fn law_an_item_shows_the_mention(
    item: MentionInboxItem,
    m: Mention,
    other: MentionInboxItem,
    m2: Mention,
    snippet_chars: nat,
)
    requires
        shows(item, m, snippet_chars),
        shows(other, m2, snippet_chars),
    ensures
        m.row.text@ == m2.row.text@ ==> item.snippet@ == other.snippet@,
        plain_line(m.row.text@) && m.row.text@.len() <= snippet_chars ==> item.snippet@
            == m.row.text@,
        item.message_id@ == m.row.message_id@,
        item.chat_id@ == m.row.chat_id@,
        item.chat_name@ == m.row.chat_name@,
        item.sender_nickname@ == m.row.sender_nickname@,
        item.timestamp@ == m.row.timestamp@,
        item.chunk_id == m.row.chunk_id,
{
    if plain_line(m.row.text@) {
        law_a_line_is_shown_as_it_is(m.row.text@, snippet_chars);
    }
}

/// An item shows the response that counts: the direct reply where there is one,
/// else the later message, and nothing where there is neither.
pub proof fn law_an_item_shows_the_response(item: MentionInboxItem, m: Mention, snippet_chars: nat)
    requires
        shows(item, m, snippet_chars),
    ensures
        m.direct matches Some(reply) ==> item.status == MentionStatus::Answered
            && item.response_message_id == Some(reply.message_id) && item.response_timestamp == Some(
            reply.timestamp,
        ) && item.response_chunk_id == reply.chunk_id && (plain_line(reply.text@)
            && reply.text@.len() <= snippet_chars ==> (item.response_snippet matches Some(
            excerpt,
        ) && excerpt@ == reply.text@)),
        m.direct is None ==> (m.later matches Some(later) ==> item.status == MentionStatus::Review
            && item.response_message_id == Some(later.message_id) && item.response_timestamp == Some(
            later.timestamp,
        ) && item.response_chunk_id == later.chunk_id && (plain_line(later.text@)
            && later.text@.len() <= snippet_chars ==> (item.response_snippet matches Some(
            excerpt,
        ) && excerpt@ == later.text@))),
        m.direct is None && m.later is None ==> item.status == MentionStatus::Pending
            && item.response_message_id is None && item.response_timestamp is None
            && item.response_snippet is None && item.response_chunk_id is None,
{
    if let Some(response) = response_of(m) {
        if plain_line(response.text@) {
            law_a_line_is_shown_as_it_is(response.text@, snippet_chars);
        }
    }
}

/// The list is made mention by mention, in order: one that has a direct reply is
/// in it only where answered ones are asked for, and every other is.
pub proof fn law_the_list_is_made_in_order(a: Seq<Mention>, b: Seq<Mention>, include_answered: bool)
    ensures
        listing(a + b, include_answered) == listing(a, include_answered) + listing(
            b,
            include_answered,
        ),
        forall|m: Mention|
            #![trigger listing(seq![m], include_answered)]
            listing(seq![m], include_answered) == if include_answered || m.direct is None {
                seq![m]
            } else {
                seq![]
            },
    decreases b.len(),
{
    assert forall|m: Mention|
        #![trigger listing(seq![m], include_answered)]
        listing(seq![m], include_answered) == if include_answered || m.direct is None {
            seq![m]
        } else {
            seq![]
        } by {
        assert(seq![m].drop_last() =~= Seq::<Mention>::empty());
        assert(listing(seq![m].drop_last(), include_answered) =~= Seq::<Mention>::empty());
        assert(seq![m].last() == m);
        assert(Seq::<Mention>::empty().push(m) =~= seq![m]);
    }
    if b.len() == 0 {
        assert(a + b =~= a);
    } else {
        law_the_list_is_made_in_order(a, b.drop_last(), include_answered);
        assert((a + b).drop_last() =~= a + b.drop_last());
        assert((a + b).last() == b.last());
        assert(listing(a + b, include_answered) =~= listing(a, include_answered) + listing(
            b,
            include_answered,
        ));
    }
}

/// As many mentions are shown as were asked for, or all of them; the first ones,
/// in order.
pub proof fn law_the_first_mentions_are_shown(
    items: Seq<MentionInboxItem>,
    list: Seq<Mention>,
    limit: nat,
    snippet_chars: nat,
)
    requires
        show_list(items, list, limit, snippet_chars),
    ensures
        items.len() <= limit,
        items.len() <= list.len(),
        items.len() == limit || items.len() == list.len(),
        forall|i: int|
            0 <= i < items.len() ==> (#[trigger] items[i]).message_id == list[i].row.message_id,
{
}

/// Only what the account owner wrote in the same room after a mention responds
/// to it, and all of that does: as a direct reply where it answers the mention's
/// message, else as something later.
pub proof fn law_only_own_later_messages_respond(
    mention: MentionRow,
    message: RoomMessage,
    direct: bool,
)
    ensures
        responds(mention, message, direct) ==> message.is_self && message.chat_id@
            == mention.chat_id@ && message.account_hash@ == mention.account_hash@ && !lt(
            message.response.timestamp@,
            mention.timestamp@,
        ) && (direct <==> (message.reply_to_message_id matches Some(id) && id@
            == mention.message_id@)),
        message.is_self && message.chat_id@ == mention.chat_id@ && message.account_hash@
            == mention.account_hash@ && lt(mention.timestamp@, message.response.timestamp@)
            ==> responds(mention, message, true) != responds(mention, message, false),
        message.response.message_id@ == mention.message_id@ && message.response.timestamp@
            == mention.timestamp@ ==> !responds(mention, message, direct),
{
    let (a, b) = (mention.timestamp@, message.response.timestamp@);
    lemma_le_refl(a);
    lemma_le_refl(mention.message_id@);
    lemma_le_total(a, b);
    if le(a, b) && le(b, a) {
        lemma_le_antisymmetric(a, b);
    }
}

/// Of the messages that respond, the one that is found was sent first.
pub proof fn law_the_first_response_is_found(
    mention: MentionRow,
    messages: Seq<RoomMessage>,
    direct: bool,
    i: int,
    k: int,
)
    requires
        is_first_response(mention, messages, direct, i),
        0 <= k < messages.len(),
        responds(mention, messages[k], direct),
    ensures
        responds(mention, messages[i], direct),
        !lt(messages[k].response.timestamp@, messages[i].response.timestamp@),
        messages[k].response.timestamp@ == messages[i].response.timestamp@ ==> !lt(
            messages[k].response.message_id@,
            messages[i].response.message_id@,
        ),
{
}

/// An excerpt that does not fit is the start of the collapsed text with an ellipsis
/// in its last place; an item shortens the mention's own text, and the response's
/// own.
pub proof fn law_long_texts_are_cut_at_the_end(
    item: MentionInboxItem,
    m: Mention,
    snippet_chars: nat,
    text: Seq<char>,
    max: nat,
)
    requires
        shows(item, m, snippet_chars),
    ensures
        0 < max < collapsed(text).len() ==> shortened(text, max).len() == max && shortened(
            text,
            max,
        ).take(max - 1) == collapsed(text).take(max - 1) && shortened(text, max)[max - 1]
            == '\u{2026}',
        max == 0 ==> shortened(text, max).len() == 0,
        item.snippet@ == shortened(m.row.text@, snippet_chars),
        m.direct matches Some(reply) ==> (item.response_snippet matches Some(excerpt) && excerpt@
            == shortened(reply.text@, snippet_chars)),
        m.direct is None ==> (m.later matches Some(later) ==> (
        item.response_snippet matches Some(excerpt) && excerpt@ == shortened(
            later.text@,
            snippet_chars,
        ))),
{
    if 0 < max < collapsed(text).len() {
        assert(shortened(text, max).take(max - 1) =~= collapsed(text).take(max - 1));
    }
}

} // verus!
