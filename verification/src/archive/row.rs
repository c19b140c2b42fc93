//! The rows of messages: what is stored of one, and when writing it is a change.

use crate::archive::sync::{date_of, dated, MessageChange};
use crate::error::Error;
use crate::json::str_view;
use crate::text::same;
use crate::time::{rfc3339, rfc3339_of};
use crate::types::RawMessage;
use vstd::prelude::*;

verus! {

/// What is stored of a message beside its key.
#[derive(Debug, Clone)]
pub struct MessageRow {
    pub chat_name: String,
    pub chat_type: String,
    pub sender_id: String,
    pub sender_nickname: String,
    /// RFC 3339.
    pub timestamp: String,
    pub text: String,
    pub message_type: String,
    pub reply_to_message_id: Option<String>,
    pub is_self: bool,
    pub mentions_self: bool,
}

/// The model of a [`MessageRow`].
#[verifier::ext_equal]
pub struct RowView {
    pub chat_name: Seq<char>,
    pub chat_type: Seq<char>,
    pub sender_id: Seq<char>,
    pub sender_nickname: Seq<char>,
    pub timestamp: Seq<char>,
    pub text: Seq<char>,
    pub message_type: Seq<char>,
    pub answers: Option<Seq<char>>,
    pub is_self: bool,
    pub mentions_self: bool,
}

/// What a message is stored under.
pub struct RowKey {
    pub account: Seq<char>,
    pub chat: Seq<char>,
    pub id: Seq<char>,
}

/// The view of a row.
pub open spec fn row_view(row: MessageRow) -> RowView {
    RowView {
        chat_name: row.chat_name@,
        chat_type: row.chat_type@,
        sender_id: row.sender_id@,
        sender_nickname: row.sender_nickname@,
        timestamp: row.timestamp@,
        text: row.text@,
        message_type: row.message_type@,
        answers: str_view(row.reply_to_message_id),
        is_self: row.is_self,
        mentions_self: row.mentions_self,
    }
}

/// The key of a message.
pub open spec fn key_of(m: RawMessage) -> RowKey {
    RowKey { account: m.account_hash@, chat: m.chat_id@, id: m.message_id@ }
}

/// The row of a message with a date.
pub open spec fn row_of(m: RawMessage) -> RowView {
    RowView {
        chat_name: m.chat_name@,
        chat_type: m.chat_type@,
        sender_id: m.sender_id@,
        sender_nickname: m.sender_nickname@,
        timestamp: date_of(m),
        text: m.text@,
        message_type: m.message_type@,
        answers: str_view(m.reply_to_message_id),
        is_self: m.is_self,
        mentions_self: m.mentions_self,
    }
}

/// The row of a message. A message without a date has none.
pub fn message_row(message: &RawMessage) -> (r: Result<MessageRow, Error>)
    ensures
        match r {
            Ok(row) => dated(*message) && row_view(row) == row_of(*message),
            Err(error) => error is Time && !dated(*message),
        },
{
    match rfc3339_of(message.timestamp) {
        None => Err(Error::Time),
        Some(timestamp) => Ok(
            MessageRow {
                chat_name: message.chat_name.clone(),
                chat_type: message.chat_type.clone(),
                sender_id: message.sender_id.clone(),
                sender_nickname: message.sender_nickname.clone(),
                timestamp,
                text: message.text.clone(),
                message_type: message.message_type.clone(),
                reply_to_message_id: match &message.reply_to_message_id {
                    Some(id) => Some(id.clone()),
                    None => None,
                },
                is_self: message.is_self,
                mentions_self: message.mentions_self,
            },
        ),
    }
}

/// What writing a row is, where `stored` is the row of its key before.
pub open spec fn write_change(stored: Option<RowView>, row: RowView) -> MessageChange {
    match stored {
        None => MessageChange::Inserted,
        Some(stored) => if stored == row {
            MessageChange::Unchanged
        } else {
            MessageChange::Updated
        },
    }
}

/// Whether two optional texts are the same.
fn same_option(a: &Option<String>, b: &Option<String>) -> (r: bool)
    ensures
        r == (str_view(*a) == str_view(*b)),
{
    match (a, b) {
        (Some(a), Some(b)) => same(a.as_str(), b.as_str()),
        (None, None) => true,
        _ => false,
    }
}

/// Whether two rows are the same.
fn same_row(a: &MessageRow, b: &MessageRow) -> (r: bool)
    ensures
        r == (row_view(*a) == row_view(*b)),
{
    same(a.chat_name.as_str(), b.chat_name.as_str()) && same(
        a.chat_type.as_str(),
        b.chat_type.as_str(),
    ) && same(a.sender_id.as_str(), b.sender_id.as_str()) && same(
        a.sender_nickname.as_str(),
        b.sender_nickname.as_str(),
    ) && same(a.timestamp.as_str(), b.timestamp.as_str()) && same(a.text.as_str(), b.text.as_str())
        && same(a.message_type.as_str(), b.message_type.as_str()) && same_option(
        &a.reply_to_message_id,
        &b.reply_to_message_id,
    ) && a.is_self == b.is_self && a.mentions_self == b.mentions_self
}

/// What writing a row is: it is new, it differs from what is stored, or it
/// need not be written.
pub fn compare_row(stored: Option<&MessageRow>, row: &MessageRow) -> (change: MessageChange)
    ensures
        change == write_change(
            match stored {
                Some(stored) => Some(row_view(*stored)),
                None => None,
            },
            row_view(*row),
        ),
{
    match stored {
        None => MessageChange::Inserted,
        Some(stored) => if same_row(stored, row) {
            MessageChange::Unchanged
        } else {
            MessageChange::Updated
        },
    }
}

// ---------------------------------------------------------------------------
// Laws
// ---------------------------------------------------------------------------

/// The rows of an archive after messages were written to it, one after the other.
pub open spec fn rows_after(rows: Map<RowKey, RowView>, messages: Seq<RawMessage>) -> Map<
    RowKey,
    RowView,
>
    decreases messages.len(),
{
    if messages.len() == 0 {
        rows
    } else {
        rows_after(rows, messages.drop_last()).insert(
            key_of(messages.last()),
            row_of(messages.last()),
        )
    }
}

/// What writing the message at `i` is, after those before it.
pub open spec fn change_at(
    rows: Map<RowKey, RowView>,
    messages: Seq<RawMessage>,
    i: int,
) -> MessageChange {
    let before = rows_after(rows, messages.take(i));
    let key = key_of(messages[i]);
    write_change(
        if before.dom().contains(key) {
            Some(before[key])
        } else {
            None
        },
        row_of(messages[i]),
    )
}

/// Whether messages under one key are the same.
pub open spec fn keys_agree(messages: Seq<RawMessage>) -> bool {
    forall|i: int, j: int|
        0 <= i < messages.len() && 0 <= j < messages.len() && key_of(#[trigger] messages[i])
            == key_of(#[trigger] messages[j]) ==> row_of(messages[i]) == row_of(messages[j])
}

/// A message that was written is stored, and what is not mentioned stays.
pub proof fn law_synced_messages_are_stored(
    rows: Map<RowKey, RowView>,
    messages: Seq<RawMessage>,
)
    ensures
        keys_agree(messages) ==> forall|i: int|
            0 <= i < messages.len() ==> rows_after(rows, messages).dom().contains(
                key_of(#[trigger] messages[i]),
            ) && rows_after(rows, messages)[key_of(messages[i])] == row_of(messages[i]),
        forall|key: RowKey|
            (forall|i: int| 0 <= i < messages.len() ==> key_of(#[trigger] messages[i]) != key) ==> (
            #[trigger] rows_after(rows, messages).dom().contains(key) <==> rows.dom().contains(key))
                && rows_after(rows, messages)[key] == rows[key],
    decreases messages.len(),
{
    if messages.len() > 0 {
        let front = messages.drop_last();
        law_synced_messages_are_stored(rows, front);
        if keys_agree(messages) {
            assert(keys_agree(front)) by {
                assert forall|i: int, j: int|
                    0 <= i < front.len() && 0 <= j < front.len() && key_of(#[trigger] front[i])
                        == key_of(#[trigger] front[j]) implies row_of(front[i])
                    == row_of(front[j]) by {
                    assert(messages[i] == front[i] && messages[j] == front[j]);
                }
            }
            assert forall|i: int| 0 <= i < messages.len() implies rows_after(
                rows,
                messages,
            ).dom().contains(key_of(#[trigger] messages[i])) && rows_after(
                rows,
                messages,
            )[key_of(messages[i])] == row_of(messages[i]) by {
                let last = messages.len() - 1;
                if key_of(messages[i]) == key_of(messages[last]) {
                } else {
                    assert(front[i] == messages[i]);
                }
            }
        }
        assert forall|key: RowKey|
            (forall|i: int| 0 <= i < messages.len() ==> key_of(#[trigger] messages[i])
                != key) implies (#[trigger] rows_after(rows, messages).dom().contains(key)
            <==> rows.dom().contains(key)) && rows_after(rows, messages)[key] == rows[key] by {
            assert(key_of(messages[messages.len() - 1]) != key);
            assert forall|i: int| 0 <= i < front.len() implies key_of(#[trigger] front[i])
                != key by {
                assert(messages[i] == front[i]);
            }
            assert(rows_after(rows, front).dom().contains(key) <==> rows.dom().contains(key));
        }
    }
}

/// A sync of messages that were synced before changes nothing: every message
/// is unchanged, and the rows are the same.
pub proof fn law_resync_is_quiet(rows: Map<RowKey, RowView>, messages: Seq<RawMessage>)
    requires
        keys_agree(messages),
    ensures
        forall|i: int|
            0 <= i < messages.len() ==> #[trigger] change_at(
                rows_after(rows, messages),
                messages,
                i,
            ) == MessageChange::Unchanged,
        rows_after(rows_after(rows, messages), messages) == rows_after(rows, messages),
{
    let synced = rows_after(rows, messages);
    law_synced_messages_are_stored(rows, messages);
    lemma_rewriting_keeps(synced, messages, messages.len() as int);
    assert(messages.take(messages.len() as int) == messages);
    assert forall|i: int| 0 <= i < messages.len() implies #[trigger] change_at(synced, messages, i)
        == MessageChange::Unchanged by {
        lemma_rewriting_keeps(synced, messages, i);
    }
}

/// Writing what is stored keeps the rows.
proof fn lemma_rewriting_keeps(rows: Map<RowKey, RowView>, messages: Seq<RawMessage>, n: int)
    requires
        0 <= n <= messages.len(),
        forall|i: int|
            0 <= i < messages.len() ==> rows.dom().contains(key_of(#[trigger] messages[i]))
                && rows[key_of(messages[i])] == row_of(messages[i]),
    ensures
        rows_after(rows, messages.take(n)) == rows,
    decreases n,
{
    if n > 0 {
        lemma_rewriting_keeps(rows, messages, n - 1);
        assert(messages.take(n).drop_last() == messages.take(n - 1));
        assert(messages.take(n).last() == messages[n - 1]);
        assert(rows.insert(key_of(messages[n - 1]), row_of(messages[n - 1])) =~= rows);
    }
}

/// A row keeps all of a message: what was said, by whom, when and where, what it
/// answers and whom it mentions; nothing of it is shortened or left out.
pub proof fn law_a_row_keeps_the_message(m: RawMessage, row: MessageRow)
    ensures
        row_view(row) == row_of(m) ==> {
            &&& row.text@ == m.text@
            &&& row.sender_id@ == m.sender_id@
            &&& row.sender_nickname@ == m.sender_nickname@
            &&& row.chat_name@ == m.chat_name@
            &&& row.chat_type@ == m.chat_type@
            &&& row.message_type@ == m.message_type@
            &&& row.is_self == m.is_self
            &&& row.mentions_self == m.mentions_self
            &&& m.reply_to_message_id is None <==> row.reply_to_message_id is None
            &&& m.reply_to_message_id matches Some(id) ==> (
            row.reply_to_message_id matches Some(stored) && stored@ == id@)
            &&& rfc3339(m.timestamp.seconds as int, m.timestamp.nanos as int) matches Some(date)
                ==> row.timestamp@ == date
        },
{
}

/// Two messages are stored in one place only where account, chat and id are the
/// same.
pub proof fn law_a_key_tells_messages_apart(a: RawMessage, b: RawMessage)
    ensures
        key_of(a) == key_of(b) <==> a.account_hash@ == b.account_hash@ && a.chat_id@ == b.chat_id@
            && a.message_id@ == b.message_id@,
{
}

/// Writing a row is a change exactly where something about it is not stored yet:
/// any difference counts, and what is the same is left alone.
pub proof fn law_any_difference_is_a_change(stored: MessageRow, row: MessageRow)
    ensures
        write_change(None, row_view(row)) == MessageChange::Inserted,
        stored.text@ != row.text@ || stored.sender_id@ != row.sender_id@ || stored.sender_nickname@
            != row.sender_nickname@ || stored.chat_name@ != row.chat_name@ || stored.chat_type@
            != row.chat_type@ || stored.timestamp@ != row.timestamp@ || stored.message_type@
            != row.message_type@ || stored.is_self != row.is_self || stored.mentions_self
            != row.mentions_self || str_view(stored.reply_to_message_id) != str_view(
            row.reply_to_message_id,
        ) <==> write_change(Some(row_view(stored)), row_view(row)) == MessageChange::Updated,
        write_change(Some(row_view(stored)), row_view(row)) != MessageChange::Inserted,
{
}

} // verus!
