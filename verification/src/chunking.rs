//! Cutting the messages of a chat into chunks.
//!
//! A chunk is a run of messages of one sender without a long pause. Whether a
//! message starts a new chunk is decided by the message before it alone, so the
//! chunks after a boundary do not depend on anything before it; and a chunk's id
//! is made of what it holds, not of where it stands. So the tail of a chat can
//! be cut anew without touching the rest.

use crate::digest::{sha256_hex, sha256_hex_of};
use crate::error::Error;
use crate::text::split::{join, join_strings, law_join_holds_every_part, part_start, views};
use crate::text::{chars_of, owned, same, string_of};
use crate::text::trim::copy_range;
use crate::time::{gap_between, gap_seconds};
use crate::types::{ChunkDraft, StoredMessage};
use vstd::prelude::*;
use vstd::string::StringSliceAdditionalSpecFns;

pub mod tail;

verus! {

/// The pauses that end a chunk.
#[derive(Debug, Clone, Copy, PartialEq, Eq, Structural)]
pub struct ChunkSettings {
    pub group_gap_seconds: i64,
    pub direct_gap_seconds: i64,
}

impl Default for ChunkSettings {
    fn default() -> (settings: ChunkSettings)
        ensures
            settings == (ChunkSettings { group_gap_seconds: 600, direct_gap_seconds: 1800 }),
    {
        ChunkSettings { group_gap_seconds: 600, direct_gap_seconds: 1800 }
    }
}

/// The version of the rules below. It is recorded with the chunks, so that
/// chunks cut by other rules are cut anew.
pub const CHUNKER_VERSION: i64 = 1;

/// The model of a [`StoredMessage`].
pub struct MessageView {
    pub account_hash: Seq<char>,
    pub chat_id: Seq<char>,
    pub chat_name: Seq<char>,
    pub chat_type: Seq<char>,
    pub message_id: Seq<char>,
    pub sender_nickname: Seq<char>,
    pub timestamp: Seq<char>,
    pub text: Seq<char>,
    pub message_type: Seq<char>,
}

/// The view of a message.
pub open spec fn message_view(m: StoredMessage) -> MessageView {
    MessageView {
        account_hash: m.account_hash@,
        chat_id: m.chat_id@,
        chat_name: m.chat_name@,
        chat_type: m.chat_type@,
        message_id: m.message_id@,
        sender_nickname: m.sender_nickname@,
        timestamp: m.timestamp@,
        text: m.text@,
        message_type: m.message_type@,
    }
}

/// The view of a list of messages.
pub open spec fn message_views(messages: Seq<StoredMessage>) -> Seq<MessageView> {
    messages.map_values(|m: StoredMessage| message_view(m))
}

/// The model of a [`ChunkDraft`].
pub struct ChunkView {
    pub chunk_id: Seq<char>,
    pub account_hash: Seq<char>,
    pub chat_id: Seq<char>,
    pub chat_name: Seq<char>,
    pub sender_nickname: Seq<char>,
    pub started_at: Seq<char>,
    pub ended_at: Seq<char>,
    pub text: Seq<char>,
    pub message_ids: Seq<Seq<char>>,
}

/// The view of a chunk.
pub open spec fn chunk_view(c: ChunkDraft) -> ChunkView {
    ChunkView {
        chunk_id: c.chunk_id@,
        account_hash: c.account_hash@,
        chat_id: c.chat_id@,
        chat_name: c.chat_name@,
        sender_nickname: c.sender_nickname@,
        started_at: c.started_at@,
        ended_at: c.ended_at@,
        text: c.text@,
        message_ids: views(c.message_ids@),
    }
}

/// The view of a list of chunks.
pub open spec fn chunk_views(chunks: Seq<ChunkDraft>) -> Seq<ChunkView> {
    chunks.map_values(|c: ChunkDraft| chunk_view(c))
}

/// The pause that ends a chunk before `next`.
pub open spec fn threshold(next: MessageView, settings: ChunkSettings) -> int {
    if next.chat_type == "group"@ {
        settings.group_gap_seconds as int
    } else {
        settings.direct_gap_seconds as int
    }
}

/// Whether `next` starts a new chunk after `prev`: another chat, another
/// sender, anything but text on either side, or a pause that is too long.
/// Nothing where the pause has to be known and one of the times is unreadable.
pub open spec fn starts_new(
    prev: MessageView,
    next: MessageView,
    settings: ChunkSettings,
) -> Option<bool> {
    if prev.chat_id != next.chat_id || prev.sender_nickname != next.sender_nickname {
        Some(true)
    } else if prev.message_type != "text"@ || next.message_type != "text"@ {
        Some(true)
    } else {
        match gap_seconds(prev.timestamp, next.timestamp) {
            Some(gap) => Some(gap > threshold(next, settings)),
            None => None,
        }
    }
}

/// The messages in runs: each run ends where the next message starts a new chunk.
pub open spec fn groups(messages: Seq<MessageView>, settings: ChunkSettings) -> Option<
    Seq<Seq<MessageView>>,
>
    decreases messages.len(),
{
    if messages.len() == 0 {
        Some(seq![])
    } else if messages.len() == 1 {
        Some(seq![messages])
    } else {
        match (
            groups(messages.drop_last(), settings),
            starts_new(messages[messages.len() - 2], messages.last(), settings),
        ) {
            (Some(runs), Some(true)) => Some(runs.push(seq![messages.last()])),
            (Some(runs), Some(false)) => Some(
                runs.drop_last().push(runs.last().push(messages.last())),
            ),
            _ => None,
        }
    }
}

/// The text whose digest makes a chunk's id.
pub open spec fn id_material(
    account_hash: Seq<char>,
    chat_id: Seq<char>,
    first_id: Seq<char>,
    last_id: Seq<char>,
) -> Seq<char> {
    account_hash + "|"@ + chat_id + "|"@ + first_id + "|"@ + last_id + "|v1"@
}

/// The id of the chunk of an account's chat that reaches from one message to another.
pub open spec fn chunk_id(
    account_hash: Seq<char>,
    chat_id: Seq<char>,
    first_id: Seq<char>,
    last_id: Seq<char>,
) -> Seq<char> {
    id_of_digest(
        sha256_hex(
            vstd::utf8::encode_utf8(id_material(account_hash, chat_id, first_id, last_id)),
        ),
    )
}

/// The chunk id of a digest in hexadecimal: its first sixteen digits.
pub open spec fn id_of_digest(digest_hex: Seq<char>) -> Seq<char> {
    "chunk_"@ + digest_hex.take(16)
}

/// The chunk that a run of messages makes.
pub open spec fn chunk_of(run: Seq<MessageView>) -> ChunkView {
    ChunkView {
        chunk_id: chunk_id(
            run[0].account_hash,
            run[0].chat_id,
            run[0].message_id,
            run.last().message_id,
        ),
        account_hash: run[0].account_hash,
        chat_id: run[0].chat_id,
        chat_name: run[0].chat_name,
        sender_nickname: run[0].sender_nickname,
        started_at: run[0].timestamp,
        ended_at: run.last().timestamp,
        text: join(run.map_values(|m: MessageView| m.text), "\n"@),
        message_ids: run.map_values(|m: MessageView| m.message_id),
    }
}

/// The chunks of the messages; nothing where a pause has to be known and is not.
pub open spec fn chunks(messages: Seq<MessageView>, settings: ChunkSettings) -> Option<
    Seq<ChunkView>,
> {
    match groups(messages, settings) {
        Some(runs) => Some(runs.map_values(|run: Seq<MessageView>| chunk_of(run))),
        None => None,
    }
}

/// Exec form of [`starts_new`], on a first message too.
pub fn should_start_new_chunk(
    previous: Option<&StoredMessage>,
    next: &StoredMessage,
    settings: ChunkSettings,
) -> (r: Result<bool, Error>)
    ensures
        match previous {
            None => r == Ok::<bool, Error>(false),
            Some(previous) => match starts_new(
                message_view(*previous),
                message_view(*next),
                settings,
            ) {
                Some(b) => r == Ok::<bool, Error>(b),
                None => r matches Err(Error::Time),
            },
        },
{
    let previous = match previous {
        Some(previous) => previous,
        None => return Ok(false),
    };
    if !same(previous.chat_id.as_str(), next.chat_id.as_str()) || !same(
        previous.sender_nickname.as_str(),
        next.sender_nickname.as_str(),
    ) {
        return Ok(true);
    }
    if !same(previous.message_type.as_str(), "text") || !same(next.message_type.as_str(), "text") {
        return Ok(true);
    }
    let gap: i64 = match gap_between(previous.timestamp.as_str(), next.timestamp.as_str()) {
        Some(gap) => gap,
        None => return Err(Error::Time),
    };
    Ok(exceeds_gap(gap, next, settings))
}

/// Whether a pause of `gap` seconds before `next` ends a chunk.
pub fn exceeds_gap(gap: i64, next: &StoredMessage, settings: ChunkSettings) -> (r: bool)
    ensures
        r == (gap > threshold(message_view(*next), settings)),
{
    let limit: i64 = if same(next.chat_type.as_str(), "group") {
        settings.group_gap_seconds
    } else {
        settings.direct_gap_seconds
    };
    gap > limit
}

/// The chunk id of a digest in hexadecimal.
pub fn chunk_id_of_digest(digest_hex: &str) -> (id: String)
    requires
        digest_hex@.len() >= 16,
    ensures
        id@ == id_of_digest(digest_hex@),
{
    let chars = chars_of(digest_hex);
    let head = copy_range(chars.as_slice(), 0, 16);
    proof {
        assert(head@ =~= digest_hex@.take(16));
    }
    let digits = string_of(head.as_slice());
    owned("chunk_").concat(digits.as_str())
}

/// The id of the chunk of an account's chat that reaches from one message to another.
pub fn stable_chunk_id(account_hash: &str, chat_id: &str, first_id: &str, last_id: &str) -> (id:
    String)
    ensures
        id@ == chunk_id(account_hash@, chat_id@, first_id@, last_id@),
{
    let mut material = owned(account_hash);
    material.append("|");
    material.append(chat_id);
    material.append("|");
    material.append(first_id);
    material.append("|");
    material.append(last_id);
    material.append("|v1");
    let digest = sha256_hex_of(material.as_str().as_bytes());
    chunk_id_of_digest(digest.as_str())
}

/// The chunk of `messages[from..to]`.
pub fn chunk_from_messages(messages: &[StoredMessage], from: usize, to: usize) -> (r: Result<
    ChunkDraft,
    Error,
>)
    requires
        from <= to <= messages@.len(),
    ensures
        match r {
            Ok(draft) => from < to && chunk_view(draft) == chunk_of(
                message_views(messages@).subrange(from as int, to as int),
            ),
            Err(error) => from == to && error is EmptyChunk,
        },
{
    if from == to {
        return Err(Error::EmptyChunk);
    }
    let ghost run = message_views(messages@).subrange(from as int, to as int);
    let ghost texts = run.map_values(|m: MessageView| m.text);
    let ghost ids = run.map_values(|m: MessageView| m.message_id);
    let mut lines: Vec<String> = Vec::new();
    let mut message_ids: Vec<String> = Vec::new();
    for i in from..to
        invariant
            from <= i <= to <= messages@.len(),
            run == message_views(messages@).subrange(from as int, to as int),
            texts == run.map_values(|m: MessageView| m.text),
            ids == run.map_values(|m: MessageView| m.message_id),
            views(lines@) == texts.take(i - from),
            views(message_ids@) == ids.take(i - from),
    {
        let ghost line_views = views(lines@);
        let ghost id_views = views(message_ids@);
        let line = messages[i].text.clone();
        let id = messages[i].message_id.clone();
        lines.push(line);
        message_ids.push(id);
        proof {
            assert(run[i - from] == message_view(messages@[i as int]));
            assert(views(lines@) =~= line_views.push(line@));
            assert(views(message_ids@) =~= id_views.push(id@));
            assert(texts.take(i - from + 1) =~= line_views.push(texts[i - from]));
            assert(ids.take(i - from + 1) =~= id_views.push(ids[i - from]));
        }
    }
    proof {
        assert(texts.take(to - from) =~= texts);
        assert(ids.take(to - from) =~= ids);
    }
    let first: &StoredMessage = &messages[from];
    let last: &StoredMessage = &messages[to - 1];
    proof {
        assert(run[0] == message_view(*first));
        assert(run.last() == message_view(*last));
    }
    Ok(
        ChunkDraft {
            chunk_id: stable_chunk_id(
                first.account_hash.as_str(),
                first.chat_id.as_str(),
                first.message_id.as_str(),
                last.message_id.as_str(),
            ),
            account_hash: first.account_hash.clone(),
            chat_id: first.chat_id.clone(),
            chat_name: first.chat_name.clone(),
            sender_nickname: first.sender_nickname.clone(),
            started_at: first.timestamp.clone(),
            ended_at: last.timestamp.clone(),
            text: join_strings(lines.as_slice(), "\n"),
            message_ids,
        },
    )
}

/// Runs exist only for messages whose every beginning has them.
proof fn lemma_groups_prefix(messages: Seq<MessageView>, settings: ChunkSettings, n: int)
    requires
        0 <= n <= messages.len(),
        groups(messages.take(n), settings) is None,
    ensures
        groups(messages, settings) is None,
    decreases messages.len(),
{
    if n < messages.len() {
        let front = messages.drop_last();
        assert(front.take(n) =~= messages.take(n));
        lemma_groups_prefix(front, settings, n);
    } else {
        assert(messages.take(n) =~= messages);
    }
}

/// Cuts the messages into chunks.
pub fn build_chunks(messages: &[StoredMessage], settings: ChunkSettings) -> (r: Result<
    Vec<ChunkDraft>,
    Error,
>)
    ensures
        match r {
            Ok(drafts) => chunks(message_views(messages@), settings) == Some(chunk_views(drafts@)),
            Err(error) => error is Time && chunks(message_views(messages@), settings) is None,
        },
{
    let ghost all = message_views(messages@);
    let ghost as_chunk = |run: Seq<MessageView>| chunk_of(run);
    let mut drafts: Vec<ChunkDraft> = Vec::new();
    let mut from: usize = 0;
    let mut i: usize = 0;
    while i < messages.len()
        invariant
            from <= i <= messages@.len(),
            all == message_views(messages@),
            as_chunk == (|run: Seq<MessageView>| chunk_of(run)),
            i == 0 ==> from == 0 && drafts@.len() == 0,
            i > 0 ==> from < i,
            i > 0 ==> (groups(all.take(i as int), settings) matches Some(runs) && runs.len() > 0
                && runs.last() == all.subrange(from as int, i as int) && chunk_views(drafts@)
                == runs.drop_last().map_values(as_chunk)),
        decreases messages@.len() - i,
    {
        let ghost upto = all.take(i + 1);
        proof {
            assert(upto.drop_last() =~= all.take(i as int));
            assert(upto.last() == all[i as int]);
            if i > 0 {
                assert(upto[upto.len() - 2] == all[i - 1]);
            }
        }
        let previous: Option<&StoredMessage> = if i > 0 {
            Some(&messages[i - 1])
        } else {
            None
        };
        let fresh: bool = match should_start_new_chunk(previous, &messages[i], settings) {
            Ok(fresh) => fresh,
            Err(error) => {
                proof {
                    lemma_groups_prefix(all, settings, i + 1);
                }
                return Err(error);
            },
        };
        if i > 0 && fresh {
            let draft = match chunk_from_messages(messages, from, i) {
                Ok(draft) => draft,
                Err(_) => return Err(Error::Time),
            };
            let ghost runs = groups(all.take(i as int), settings)->0;
            let ghost before = chunk_views(drafts@);
            drafts.push(draft);
            proof {
                assert(chunk_views(drafts@) =~= before.push(chunk_view(draft)));
                let next = runs.push(seq![all[i as int]]);
                assert(next.drop_last() =~= runs);
                assert(runs.map_values(as_chunk) =~= runs.drop_last().map_values(as_chunk).push(
                    chunk_of(runs.last()),
                ));
                assert(all.subrange(i as int, i + 1) =~= seq![all[i as int]]);
            }
            from = i;
        } else {
            proof {
                if i > 0 {
                    let runs = groups(all.take(i as int), settings)->0;
                    let next = runs.drop_last().push(runs.last().push(all[i as int]));
                    assert(next.drop_last() =~= runs.drop_last());
                    assert(runs.last().push(all[i as int]) =~= all.subrange(from as int, i + 1));
                } else {
                    assert(upto =~= all.subrange(0, 1));
                    let runs = seq![upto];
                    assert(runs.drop_last().map_values(as_chunk) =~= Seq::<ChunkView>::empty());
                    assert(chunk_views(drafts@) =~= Seq::<ChunkView>::empty());
                }
            }
        }
        i = i + 1;
    }
    proof {
        assert(all.take(all.len() as int) =~= all);
    }
    if messages.len() == 0 {
        proof {
            assert(chunk_views(drafts@) =~= Seq::<ChunkView>::empty());
            assert(Seq::<Seq<MessageView>>::empty().map_values(as_chunk)
                =~= Seq::<ChunkView>::empty());
        }
        return Ok(drafts);
    }
    let draft = match chunk_from_messages(messages, from, messages.len()) {
        Ok(draft) => draft,
        Err(_) => return Err(Error::Time),
    };
    let ghost runs = groups(all, settings)->0;
    let ghost before = chunk_views(drafts@);
    drafts.push(draft);
    proof {
        assert(chunk_views(drafts@) =~= before.push(chunk_view(draft)));
        assert(runs.map_values(as_chunk) =~= runs.drop_last().map_values(as_chunk).push(
            chunk_of(runs.last()),
        ));
    }
    Ok(drafts)
}

// ---------------------------------------------------------------------------
// Laws
// ---------------------------------------------------------------------------

/// The messages of all runs, in order.
pub open spec fn concatenated(runs: Seq<Seq<MessageView>>) -> Seq<MessageView>
    decreases runs.len(),
{
    if runs.len() == 0 {
        seq![]
    } else {
        concatenated(runs.drop_last()) + runs.last()
    }
}

/// Cutting loses no message, repeats none and keeps their order; and no chunk is empty.
pub proof fn law_chunks_partition_the_messages(
    messages: Seq<MessageView>,
    settings: ChunkSettings,
)
    ensures
        groups(messages, settings) matches Some(runs) ==> concatenated(runs) == messages && (
        forall|i: int| 0 <= i < runs.len() ==> (#[trigger] runs[i]).len() > 0) && (messages.len()
            > 0 ==> runs.len() > 0),
    decreases messages.len(),
{
    if messages.len() == 1 {
        let runs = seq![messages];
        assert(runs.drop_last() =~= Seq::<Seq<MessageView>>::empty());
        assert(concatenated(runs.drop_last()) =~= Seq::<MessageView>::empty());
        assert(concatenated(runs) =~= messages);
    } else if messages.len() > 1 {
        let front = messages.drop_last();
        law_chunks_partition_the_messages(front, settings);
        if let Some(runs) = groups(messages, settings) {
            let old = groups(front, settings)->0;
            assert(messages =~= front.push(messages.last()));
            if starts_new(messages[messages.len() - 2], messages.last(), settings) == Some(true) {
                assert(runs.drop_last() =~= old);
                assert(concatenated(runs) =~= messages);
            } else {
                assert(runs.drop_last() =~= old.drop_last());
                assert(concatenated(runs) =~= messages);
            }
        }
    }
}

/// Whether a run holds together: no message in it starts a new chunk.
pub open spec fn unbroken(run: Seq<MessageView>, settings: ChunkSettings) -> bool {
    forall|k: int|
        0 <= k < run.len() - 1 ==> starts_new(#[trigger] run[k], run[k + 1], settings) == Some(
            false,
        )
}

/// No message inside a chunk starts a new one.
pub proof fn law_chunks_are_unbroken(messages: Seq<MessageView>, settings: ChunkSettings)
    ensures
        groups(messages, settings) matches Some(runs) ==> forall|i: int|
            0 <= i < runs.len() ==> unbroken(#[trigger] runs[i], settings),
    decreases messages.len(),
{
    if messages.len() > 1 {
        let front = messages.drop_last();
        law_chunks_are_unbroken(front, settings);
        law_chunks_partition_the_messages(front, settings);
        if let Some(runs) = groups(messages, settings) {
            let old = groups(front, settings)->0;
            lemma_concatenated_last(old);
            assert forall|i: int| 0 <= i < runs.len() implies unbroken(
                #[trigger] runs[i],
                settings,
            ) by {
                if i < runs.len() - 1 {
                    assert(runs[i] == old[i]);
                } else if starts_new(messages[messages.len() - 2], messages.last(), settings)
                    == Some(false) {
                    let run = runs[i];
                    let before = old.last();
                    assert(unbroken(before, settings));
                    assert(before.last() == messages[messages.len() - 2]);
                    assert forall|k: int| 0 <= k < run.len() - 1 implies starts_new(
                        #[trigger] run[k],
                        run[k + 1],
                        settings,
                    ) == Some(false) by {
                        assert(run[k] == before[k]);
                        if k < before.len() - 1 {
                            assert(run[k + 1] == before[k + 1]);
                        }
                    }
                }
            }
        }
    }
}

/// The last message of all runs is the last of the last run.
proof fn lemma_concatenated_last(runs: Seq<Seq<MessageView>>)
    ensures
        runs.len() > 0 && runs.last().len() > 0 ==> concatenated(runs).len() > 0 && concatenated(
            runs,
        ).last() == runs.last().last(),
{
}

/// Chunks are as long as they can be: the first message of each but the first
/// starts a new chunk after the last message of the one before it.
pub proof fn law_consecutive_chunks_break(messages: Seq<MessageView>, settings: ChunkSettings, k: int)
    ensures
        groups(messages, settings) matches Some(runs) ==> (0 < k < runs.len() ==> starts_new(
            runs[k - 1].last(),
            runs[k][0],
            settings,
        ) == Some(true)),
    decreases messages.len(),
{
    if messages.len() > 1 {
        let front = messages.drop_last();
        law_consecutive_chunks_break(front, settings, k);
        law_chunks_partition_the_messages(front, settings);
        if let (Some(old), Some(runs)) = (groups(front, settings), groups(messages, settings)) {
            assert(concatenated(old).last() == old.last().last());
            if 0 < k < runs.len() {
                if k < old.len() - 1 {
                    assert(runs[k] == old[k] && runs[k - 1] == old[k - 1]);
                }
            }
        }
    }
}

/// Whether the messages are of one chat and one sender, and all text where they are several.
pub open spec fn uniform(run: Seq<MessageView>) -> bool {
    forall|i: int|
        0 <= i < run.len() ==> (#[trigger] run[i]).chat_id == run[0].chat_id
            && run[i].sender_nickname == run[0].sender_nickname && (run.len() > 1
            ==> run[i].message_type == "text"@)
}

/// An unbroken run is uniform.
proof fn lemma_unbroken_is_uniform(run: Seq<MessageView>, settings: ChunkSettings, i: int)
    requires
        unbroken(run, settings),
        0 <= i < run.len(),
    ensures
        run[i].chat_id == run[0].chat_id,
        run[i].sender_nickname == run[0].sender_nickname,
        run.len() > 1 ==> run[i].message_type == "text"@,
    decreases i,
{
    if i > 0 {
        lemma_unbroken_is_uniform(run, settings, i - 1);
        assert(starts_new(run[i - 1], run[i - 1 + 1], settings) == Some(false));
    } else if run.len() > 1 {
        assert(starts_new(run[i], run[i + 1], settings) == Some(false));
    }
}

/// A chunk holds messages of one chat and one sender, and only text where it
/// holds more than one.
pub proof fn law_chunks_never_mix(messages: Seq<MessageView>, settings: ChunkSettings)
    ensures
        groups(messages, settings) matches Some(runs) ==> forall|i: int|
            0 <= i < runs.len() ==> uniform(#[trigger] runs[i]),
{
    law_chunks_are_unbroken(messages, settings);
    if let Some(runs) = groups(messages, settings) {
        assert forall|i: int| 0 <= i < runs.len() implies uniform(#[trigger] runs[i]) by {
            let run = runs[i];
            assert forall|k: int| 0 <= k < run.len() implies (#[trigger] run[k]).chat_id
                == run[0].chat_id && run[k].sender_nickname == run[0].sender_nickname && (run.len()
                > 1 ==> run[k].message_type == "text"@) by {
                lemma_unbroken_is_uniform(run, settings, k);
            }
        }
    }
}

/// Where the first message of `tail` starts a new chunk, cutting the whole is
/// cutting the two parts: nothing before a boundary decides what comes after it.
pub proof fn law_cutting_at_a_boundary_splits_the_work(
    head: Seq<MessageView>,
    tail: Seq<MessageView>,
    settings: ChunkSettings,
)
    ensures
        boundary(head, tail, settings) ==> groups(head + tail, settings) == joined_groups(
            groups(head, settings),
            groups(tail, settings),
        ),
    decreases tail.len(),
{
    if boundary(head, tail, settings) {
        let whole = head + tail;
        if tail.len() == 1 {
            assert(whole.drop_last() =~= head);
            assert(whole[whole.len() - 2] == head.last());
            assert(tail =~= seq![whole.last()]);
            if let Some(runs) = groups(head, settings) {
                assert(runs + seq![tail] =~= runs.push(tail));
            }
        } else {
            let front = tail.drop_last();
            assert(boundary(head, front, settings));
            law_cutting_at_a_boundary_splits_the_work(head, front, settings);
            assert(whole.drop_last() =~= head + front);
            assert(whole[whole.len() - 2] == tail[tail.len() - 2]);
            assert(whole.last() == tail.last());
            law_chunks_partition_the_messages(front, settings);
            if let (Some(a), Some(b)) = (groups(head, settings), groups(front, settings)) {
                assert(b.len() > 0);
                let last = tail.last();
                assert((a + b).push(seq![last]) =~= a + b.push(seq![last]));
                assert((a + b).last() == b.last());
                assert((a + b).drop_last().push(b.last().push(last)) =~= a + b.drop_last().push(
                    b.last().push(last),
                ));
            }
        }
    }
}

/// Whether `tail` starts with a message that starts a new chunk after `head`.
pub open spec fn boundary(
    head: Seq<MessageView>,
    tail: Seq<MessageView>,
    settings: ChunkSettings,
) -> bool {
    &&& head.len() > 0
    &&& tail.len() > 0
    &&& starts_new(head.last(), tail[0], settings) == Some(true)
}

/// The runs of both parts.
pub open spec fn joined_groups(
    a: Option<Seq<Seq<MessageView>>>,
    b: Option<Seq<Seq<MessageView>>>,
) -> Option<Seq<Seq<MessageView>>> {
    match (a, b) {
        (Some(a), Some(b)) => Some(a + b),
        _ => None,
    }
}

/// Replacing the stored chunks past a boundary by the chunks of the new tail
/// gives what cutting everything anew would give.
pub proof fn law_tail_rebuild_equals_full_rebuild(
    head: Seq<MessageView>,
    old_tail: Seq<MessageView>,
    new_tail: Seq<MessageView>,
    settings: ChunkSettings,
)
    ensures
        boundary(head, old_tail, settings) && boundary(head, new_tail, settings) && chunks(
            head + old_tail,
            settings,
        ) is Some && chunks(new_tail, settings) is Some ==> chunks(head + new_tail, settings)
            == Some(
            (chunks(head + old_tail, settings)->0).take(
                (chunks(head, settings)->0).len() as int,
            ) + chunks(new_tail, settings)->0,
        ),
{
    if boundary(head, old_tail, settings) && boundary(head, new_tail, settings) && chunks(
        head + old_tail,
        settings,
    ) is Some && chunks(new_tail, settings) is Some {
        law_cutting_at_a_boundary_splits_the_work(head, old_tail, settings);
        law_cutting_at_a_boundary_splits_the_work(head, new_tail, settings);
        let as_chunk = |run: Seq<MessageView>| chunk_of(run);
        let a = groups(head, settings)->0;
        let b = groups(old_tail, settings)->0;
        let c = groups(new_tail, settings)->0;
        assert((a + b).map_values(as_chunk).take(a.len() as int) =~= a.map_values(as_chunk));
        assert((a + c).map_values(as_chunk) =~= a.map_values(as_chunk) + c.map_values(as_chunk));
    }
}

/// Chats are cut independently: where one chat's messages follow another's,
/// each gets the chunks that it would get alone.
pub proof fn law_chats_are_cut_independently(
    one: Seq<MessageView>,
    other: Seq<MessageView>,
    settings: ChunkSettings,
)
    requires
        one.len() > 0,
        other.len() > 0,
        one.last().chat_id != other[0].chat_id,
    ensures
        groups(one + other, settings) == joined_groups(
            groups(one, settings),
            groups(other, settings),
        ),
{
    law_cutting_at_a_boundary_splits_the_work(one, other, settings);
}

/// Where a message's text starts in the text of its chunk: behind the texts
/// before it and a line break after each of them.
pub open spec fn line_start(run: Seq<MessageView>, i: int) -> int
    decreases i,
{
    if i <= 0 {
        0
    } else {
        line_start(run, i - 1) + run[i - 1].text.len() + 1
    }
}

proof fn lemma_line_start(run: Seq<MessageView>, i: int)
    requires
        0 <= i <= run.len(),
    ensures
        line_start(run, i) == part_start(run.map_values(|m: MessageView| m.text), 1, i),
    decreases i,
{
    if i > 0 {
        lemma_line_start(run, i - 1);
    }
}

/// A chunk lists its messages in order and its text is theirs, whole, with one
/// line break between neighbours and nothing else; it starts with the first of
/// them and ends with the last.
pub proof fn law_chunk_is_made_of_its_messages(run: Seq<MessageView>)
    requires
        run.len() > 0,
    ensures
        chunk_of(run).message_ids.len() == run.len(),
        chunk_of(run).text.len() + 1 == line_start(run, run.len() as int),
        forall|i: int|
            0 <= i < run.len() ==> {
                let at = #[trigger] line_start(run, i);
                &&& 0 <= at
                &&& at + run[i].text.len() <= chunk_of(run).text.len()
                &&& chunk_of(run).text.subrange(at, at + run[i].text.len()) == run[i].text
                &&& i > 0 ==> at > 0 && chunk_of(run).text[at - 1] == '\n'
            },
        forall|i: int|
            0 <= i < run.len() ==> #[trigger] chunk_of(run).message_ids[i] == run[i].message_id,
        chunk_of(run).started_at == run[0].timestamp,
        chunk_of(run).ended_at == run[run.len() - 1].timestamp,
        chunk_of(run).account_hash == run[0].account_hash,
        chunk_of(run).chat_id == run[0].chat_id,
        chunk_of(run).chat_name == run[0].chat_name,
        chunk_of(run).sender_nickname == run[0].sender_nickname,
{
    let texts = run.map_values(|m: MessageView| m.text);
    reveal_strlit("\n");
    law_join_holds_every_part(texts, "\n"@);
    lemma_line_start(run, run.len() as int);
    let text = chunk_of(run).text;
    assert forall|i: int| 0 <= i < run.len() implies {
        let at = #[trigger] line_start(run, i);
        &&& 0 <= at
        &&& at + run[i].text.len() <= text.len()
        &&& text.subrange(at, at + run[i].text.len()) == run[i].text
        &&& i > 0 ==> at > 0 && text[at - 1] == '\n'
    } by {
        lemma_line_start(run, i);
        let at = part_start(texts, 1, i);
        assert(texts[i] == run[i].text);
        if i > 0 {
            assert(text.subrange(at - 1, at)[0] == text[at - 1]);
        }
    }
}

/// The ids that the chunks list, one chunk after the other.
pub open spec fn listed_ids(list: Seq<ChunkView>) -> Seq<Seq<char>>
    decreases list.len(),
{
    if list.len() == 0 {
        seq![]
    } else {
        listed_ids(list.drop_last()) + list.last().message_ids
    }
}

proof fn lemma_listed_ids(runs: Seq<Seq<MessageView>>)
    requires
        forall|i: int| 0 <= i < runs.len() ==> (#[trigger] runs[i]).len() > 0,
    ensures
        listed_ids(runs.map_values(|run: Seq<MessageView>| chunk_of(run))) == concatenated(
            runs,
        ).map_values(|m: MessageView| m.message_id),
    decreases runs.len(),
{
    let as_chunk = |run: Seq<MessageView>| chunk_of(run);
    let as_id = |m: MessageView| m.message_id;
    let list = runs.map_values(as_chunk);
    if runs.len() > 0 {
        let front = runs.drop_last();
        assert forall|i: int| 0 <= i < front.len() implies (#[trigger] front[i]).len() > 0 by {
            assert(front[i] == runs[i]);
        }
        lemma_listed_ids(front);
        assert(list.drop_last() =~= front.map_values(as_chunk));
        assert(runs[runs.len() - 1].len() > 0);
        law_chunk_is_made_of_its_messages(runs.last());
        assert(list.last().message_ids =~= runs.last().map_values(as_id));
        assert(concatenated(runs).map_values(as_id) =~= concatenated(front).map_values(as_id)
            + runs.last().map_values(as_id));
    } else {
        assert(list =~= Seq::<ChunkView>::empty());
        assert(concatenated(runs).map_values(as_id) =~= Seq::<Seq<char>>::empty());
    }
}

/// Every message is listed by exactly one chunk, in the order of the messages.
pub proof fn law_every_message_is_listed_once(messages: Seq<MessageView>, settings: ChunkSettings)
    ensures
        chunks(messages, settings) matches Some(list) ==> listed_ids(list).len() == messages.len()
            && forall|i: int|
            0 <= i < messages.len() ==> #[trigger] listed_ids(list)[i] == messages[i].message_id,
{
    law_chunks_partition_the_messages(messages, settings);
    if let Some(runs) = groups(messages, settings) {
        lemma_listed_ids(runs);
    }
}

/// The place of a message of all runs: its run, and where it stands there.
proof fn lemma_place(runs: Seq<Seq<MessageView>>, i: int) -> (at: (int, int))
    requires
        0 <= i < concatenated(runs).len(),
    ensures
        0 <= at.0 < runs.len(),
        0 <= at.1 < runs[at.0].len(),
        runs[at.0][at.1] == concatenated(runs)[i],
    decreases runs.len(),
{
    let before = concatenated(runs.drop_last());
    if i < before.len() {
        let at = lemma_place(runs.drop_last(), i);
        assert(runs.drop_last()[at.0] == runs[at.0]);
        at
    } else {
        (runs.len() - 1, i - before.len())
    }
}

/// What anybody wrote can be found: every message is in a chunk of its own chat
/// and sender that lists it and whose text holds its text.
pub proof fn law_every_text_is_in_a_chunk(
    messages: Seq<MessageView>,
    settings: ChunkSettings,
    i: int,
)
    requires
        0 <= i < messages.len(),
    ensures
        chunks(messages, settings) matches Some(list) ==> exists|c: int, j: int, at: int|
            #![trigger list[c].message_ids[j], list[c].text.subrange(at, at + messages[i].text.len())]
            {
                &&& 0 <= c < list.len()
                &&& 0 <= j < list[c].message_ids.len()
                &&& list[c].message_ids[j] == messages[i].message_id
                &&& 0 <= at
                &&& at + messages[i].text.len() <= list[c].text.len()
                &&& list[c].text.subrange(at, at + messages[i].text.len()) == messages[i].text
                &&& list[c].chat_id == messages[i].chat_id
                &&& list[c].sender_nickname == messages[i].sender_nickname
            },
{
    law_chunks_partition_the_messages(messages, settings);
    law_chunks_never_mix(messages, settings);
    if let Some(runs) = groups(messages, settings) {
        let list = chunks(messages, settings)->0;
        let (c, j) = lemma_place(runs, i);
        let run = runs[c];
        assert(uniform(run));
        law_chunk_is_made_of_its_messages(run);
        let at = line_start(run, j);
        assert(list[c] == chunk_of(run));
        assert(run[j] == messages[i]);
        assert(list[c].message_ids[j] == messages[i].message_id);
        assert(list[c].text.subrange(at, at + messages[i].text.len()) == messages[i].text);
        assert(0 <= at && at + messages[i].text.len() <= list[c].text.len());
    }
}

/// Whether two texts of one person stay together is decided by the pause between
/// them: in a group by the pause for groups, elsewhere by that for direct chats;
/// a pause as long as that does not part them yet. Whatever parts them, the
/// other pause does not matter.
pub proof fn law_pause_parts_a_conversation(
    prev: MessageView,
    next: MessageView,
    settings: ChunkSettings,
    other: ChunkSettings,
)
    ensures
        prev.chat_id != next.chat_id ==> starts_new(prev, next, settings) == Some(true),
        prev.sender_nickname != next.sender_nickname ==> starts_new(prev, next, settings) == Some(
            true,
        ),
        prev.message_type != "text"@ || next.message_type != "text"@ ==> starts_new(
            prev,
            next,
            settings,
        ) == Some(true),
        prev.chat_id == next.chat_id && prev.sender_nickname == next.sender_nickname
            && prev.message_type == "text"@ && next.message_type == "text"@ ==> match gap_seconds(
            prev.timestamp,
            next.timestamp,
        ) {
            Some(gap) => {
                &&& next.chat_type == "group"@ ==> starts_new(prev, next, settings) == Some(
                    gap > settings.group_gap_seconds as int,
                )
                &&& next.chat_type != "group"@ ==> starts_new(prev, next, settings) == Some(
                    gap > settings.direct_gap_seconds as int,
                )
            },
            None => starts_new(prev, next, settings) is None,
        },
        next.chat_type == "group"@ && settings.group_gap_seconds == other.group_gap_seconds
            ==> starts_new(prev, next, settings) == starts_new(prev, next, other),
        next.chat_type != "group"@ && settings.direct_gap_seconds == other.direct_gap_seconds
            ==> starts_new(prev, next, settings) == starts_new(prev, next, other),
{
}

/// Texts without a bar are told apart by the place of the first bar.
proof fn lemma_bar(a: Seq<char>, b: Seq<char>, x: Seq<char>, y: Seq<char>)
    requires
        !a.contains('|'),
        !b.contains('|'),
        a + seq!['|'] + x == b + seq!['|'] + y,
    ensures
        a == b,
        x == y,
{
    let s = a + seq!['|'] + x;
    let t = b + seq!['|'] + y;
    assert(s[a.len() as int] == '|');
    assert(t[b.len() as int] == '|');
    if a.len() < b.len() {
        assert(t[a.len() as int] == b[a.len() as int]);
        assert(b.contains('|'));
    }
    if b.len() < a.len() {
        assert(s[b.len() as int] == a[b.len() as int]);
        assert(a.contains('|'));
    }
    assert forall|i: int| 0 <= i < a.len() implies a[i] == b[i] by {
        assert(s[i] == a[i] && t[i] == b[i]);
    }
    assert(a =~= b);
    assert(s.len() == t.len());
    assert(x.len() == y.len());
    assert forall|i: int| 0 <= i < x.len() implies x[i] == y[i] by {
        assert(s[a.len() + 1 + i] == x[i]);
        assert(t[b.len() + 1 + i] == y[i]);
    }
    assert(x =~= y);
}

/// What a chunk's id is made of tells chunks apart: by the account, the chat,
/// the first message and the last, as far as none of them has a bar in it.
pub proof fn law_id_material_tells_chunks_apart(
    account: Seq<char>,
    chat: Seq<char>,
    first: Seq<char>,
    last: Seq<char>,
    account2: Seq<char>,
    chat2: Seq<char>,
    first2: Seq<char>,
    last2: Seq<char>,
)
    requires
        !account.contains('|') && !chat.contains('|') && !first.contains('|'),
        !account2.contains('|') && !chat2.contains('|') && !first2.contains('|'),
        id_material(account, chat, first, last) == id_material(account2, chat2, first2, last2),
    ensures
        account == account2,
        chat == chat2,
        first == first2,
        last == last2,
{
    reveal_strlit("|");
    reveal_strlit("|v1");
    let bar = seq!['|'];
    assert("|"@ =~= bar);
    let v = "|v1"@;
    let (a, b) = (last + v, last2 + v);
    assert(id_material(account, chat, first, last) =~= account + bar + (chat + bar + (first + bar
        + a)));
    assert(id_material(account2, chat2, first2, last2) =~= account2 + bar + (chat2 + bar + (first2
        + bar + b)));
    lemma_bar(account, account2, chat + bar + (first + bar + a), chat2 + bar + (first2 + bar + b));
    lemma_bar(chat, chat2, first + bar + a, first2 + bar + b);
    lemma_bar(first, first2, a, b);
    assert(last.len() == last2.len());
    assert forall|i: int| 0 <= i < last.len() implies last[i] == last2[i] by {
        assert(a[i] == last[i] && b[i] == last2[i]);
    }
    assert(last =~= last2);
}

/// A chunk's id is the word for chunks and sixteen digits of the digest.
pub proof fn law_chunk_id_shows_its_digest(digest_hex: Seq<char>)
    requires
        digest_hex.len() >= 16,
    ensures
        id_of_digest(digest_hex).len() == 22,
        id_of_digest(digest_hex).take(6) == seq!['c', 'h', 'u', 'n', 'k', '_'],
        forall|i: int| 0 <= i < 16 ==> #[trigger] id_of_digest(digest_hex)[6 + i] == digest_hex[i],
{
    reveal_strlit("chunk_");
    assert(id_of_digest(digest_hex).take(6) =~= seq!['c', 'h', 'u', 'n', 'k', '_']);
}

/// What is read of a message and written of a chunk is all that they hold, word
/// for word.
pub proof fn law_nothing_is_read_or_written_otherwise(m: StoredMessage, c: ChunkDraft)
    ensures
        message_view(m).text == m.text@,
        message_view(m).message_id == m.message_id@,
        message_view(m).chat_id == m.chat_id@,
        message_view(m).chat_name == m.chat_name@,
        message_view(m).chat_type == m.chat_type@,
        message_view(m).account_hash == m.account_hash@,
        message_view(m).sender_nickname == m.sender_nickname@,
        message_view(m).timestamp == m.timestamp@,
        message_view(m).message_type == m.message_type@,
        chunk_view(c).text == c.text@,
        chunk_view(c).chunk_id == c.chunk_id@,
        chunk_view(c).chat_id == c.chat_id@,
        chunk_view(c).chat_name == c.chat_name@,
        chunk_view(c).account_hash == c.account_hash@,
        chunk_view(c).sender_nickname == c.sender_nickname@,
        chunk_view(c).started_at == c.started_at@,
        chunk_view(c).ended_at == c.ended_at@,
        chunk_view(c).message_ids.len() == c.message_ids@.len(),
        forall|i: int|
            0 <= i < c.message_ids@.len() ==> #[trigger] chunk_view(c).message_ids[i]
                == c.message_ids@[i]@,
{
}

} // verus!
