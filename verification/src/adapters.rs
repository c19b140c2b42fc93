//! Where messages come from.

use crate::text::order::{distinct, lemma_distinct, lt, sort_distinct};
use crate::text::split::{contains_text, law_a_text_holds_its_middle, views};
use crate::text::{owned, same};
use crate::types::RawMessage;
use vstd::prelude::*;

verus! {

/// A chat of a source.
#[derive(Debug, Clone, PartialEq, Eq)]
pub struct ChatSummary {
    pub chat_id: String,
    pub chat_name: String,
    pub chat_type: String,
}

/// A source that is a file with one message in each line.
#[derive(Debug, Clone)]
pub struct FixtureAdapter {
    pub path: String,
}

impl FixtureAdapter {
    /// The source at a path.
    pub fn new(path: &str) -> (adapter: Self)
        ensures
            adapter.path@ == path@,
    {
        FixtureAdapter { path: owned(path) }
    }
}

/// The source that the `kakaocli` program is.
#[derive(Debug, Clone, Copy)]
pub struct KakaocliAdapter;

/// Where messages are read from.
#[derive(Debug)]
pub enum SourceChoice {
    Fixture(FixtureAdapter),
    Kakaocli(KakaocliAdapter),
    /// The desktop client's own files.
    Macos,
}

/// Why there is no such source.
#[derive(Debug)]
pub enum SourceError {
    MissingPath,
    Unsupported(String),
}

/// The sentence that reports a source that is not there.
pub open spec fn source_error_text(error: SourceError) -> Seq<char> {
    match error {
        SourceError::MissingPath => "fixture source requires a JSONL path"@,
        SourceError::Unsupported(source) => "unsupported source adapter: "@ + source@,
    }
}

impl SourceError {
    /// The sentence that reports this.
    pub fn message(&self) -> (text: String)
        ensures
            text@ == source_error_text(*self),
    {
        match self {
            SourceError::MissingPath => owned("fixture source requires a JSONL path"),
            SourceError::Unsupported(source) => owned("unsupported source adapter: ").concat(
                source.as_str(),
            ),
        }
    }
}

/// Whether a name is that of the desktop client.
pub open spec fn names_client(source: Seq<char>) -> bool {
    source == "macos"@ || source == "kakao"@
}

/// The source of that name. A path is needed for a file, and only there.
pub fn adapter_for_source(source: &str, path: Option<String>) -> (r: Result<
    SourceChoice,
    SourceError,
>)
    ensures
        match r {
            Ok(SourceChoice::Fixture(adapter)) => source@ == "fixture"@ && (path matches Some(path)
                && adapter.path@ == path@),
            Ok(SourceChoice::Kakaocli(_)) => source@ == "kakaocli"@ && source@ != "fixture"@,
            Ok(SourceChoice::Macos) => names_client(source@) && source@ != "fixture"@ && source@
                != "kakaocli"@,
            Err(SourceError::MissingPath) => source@ == "fixture"@ && path is None,
            Err(SourceError::Unsupported(name)) => name@ == source@ && source@ != "fixture"@
                && source@ != "kakaocli"@ && !names_client(source@),
        },
{
    if same(source, "fixture") {
        match path {
            Some(path) => Ok(SourceChoice::Fixture(FixtureAdapter::new(path.as_str()))),
            None => Err(SourceError::MissingPath),
        }
    } else if same(source, "kakaocli") {
        Ok(SourceChoice::Kakaocli(KakaocliAdapter))
    } else if same(source, "macos") || same(source, "kakao") {
        Ok(SourceChoice::Macos)
    } else {
        Err(SourceError::Unsupported(owned(source)))
    }
}

// ---------------------------------------------------------------------------
// Chats
// ---------------------------------------------------------------------------

/// The chat of each message.
pub open spec fn chat_ids(messages: Seq<RawMessage>) -> Seq<Seq<char>> {
    messages.map_values(|m: RawMessage| m.chat_id@)
}

/// The index of the first message of a chat, or the length.
pub open spec fn first_in_chat(messages: Seq<RawMessage>, chat: Seq<char>, from: int) -> int
    decreases messages.len() - from,
{
    if from >= messages.len() {
        messages.len() as int
    } else if messages[from].chat_id@ == chat {
        from
    } else {
        first_in_chat(messages, chat, from + 1)
    }
}

/// Whether a summary is that of a chat, as its first message names it.
pub open spec fn summarizes(
    summary: ChatSummary,
    messages: Seq<RawMessage>,
    chat: Seq<char>,
) -> bool {
    let first = first_in_chat(messages, chat, 0);
    &&& 0 <= first < messages.len()
    &&& summary.chat_id@ == chat
    &&& summary.chat_name@ == messages[first].chat_name@
    &&& summary.chat_type@ == messages[first].chat_type@
}

/// A chat that occurs has a first message.
proof fn lemma_first_in_chat(messages: Seq<RawMessage>, chat: Seq<char>, from: int, at: int)
    requires
        0 <= from <= at < messages.len(),
        messages[at].chat_id@ == chat,
    ensures
        from <= first_in_chat(messages, chat, from) <= at,
        messages[first_in_chat(messages, chat, from)].chat_id@ == chat,
    decreases messages.len() - from,
{
    if messages[from].chat_id@ != chat {
        lemma_first_in_chat(messages, chat, from + 1, at);
    }
}

/// The chats of the messages, by ascending id, each as its first message names it.
pub fn chats(messages: &[RawMessage]) -> (list: Vec<ChatSummary>)
    ensures
        list@.len() == distinct(chat_ids(messages@)).len(),
        forall|i: int|
            0 <= i < list@.len() ==> summarizes(
                #[trigger] list@[i],
                messages@,
                distinct(chat_ids(messages@))[i],
            ),
{
    let mut ids: Vec<String> = Vec::new();
    for i in 0..messages.len()
        invariant
            views(ids@) == chat_ids(messages@).take(i as int),
    {
        let ghost before = views(ids@);
        ids.push(owned(messages[i].chat_id.as_str()));
        proof {
            assert(views(ids@) == before.push(messages@[i as int].chat_id@));
        }
    }
    proof {
        assert(chat_ids(messages@).take(messages@.len() as int) == chat_ids(messages@));
    }
    let ghost all = chat_ids(messages@);
    let ordered = sort_distinct(ids);
    proof {
        lemma_distinct(all);
    }
    let mut list: Vec<ChatSummary> = Vec::new();
    for i in 0..ordered.len()
        invariant
            all == chat_ids(messages@),
            views(ordered@) == distinct(all),
            forall|p: Seq<char>| distinct(all).contains(p) <==> #[trigger] all.contains(p),
            list@.len() == i,
            forall|k: int|
                0 <= k < i ==> summarizes(#[trigger] list@[k], messages@, distinct(all)[k]),
    {
        let chat = ordered[i].as_str();
        let mut at: usize = 0;
        proof {
            assert(distinct(all)[i as int] == chat@);
            assert(distinct(all).contains(chat@));
            assert(all.contains(chat@));
            let k = choose|k: int| 0 <= k < all.len() && all[k] == chat@;
            lemma_first_in_chat(messages@, chat@, 0, k);
        }
        while !same(messages[at].chat_id.as_str(), chat)
            invariant
                at < messages@.len(),
                first_in_chat(messages@, chat@, 0) == first_in_chat(messages@, chat@, at as int),
                first_in_chat(messages@, chat@, 0) < messages@.len(),
            decreases messages@.len() - at,
        {
            proof {
                assert(first_in_chat(messages@, chat@, at as int) == first_in_chat(
                    messages@,
                    chat@,
                    at + 1,
                ));
            }
            at = at + 1;
        }
        let m = &messages[at];
        list.push(
            ChatSummary {
                chat_id: owned(m.chat_id.as_str()),
                chat_name: owned(m.chat_name.as_str()),
                chat_type: owned(m.chat_type.as_str()),
            },
        );
    }
    list
}

/// Every chat of the messages is listed, once, and nothing else is; the list
/// is in ascending order.
pub proof fn law_each_chat_is_listed_once(messages: Seq<RawMessage>)
    ensures
        forall|i: int, j: int|
            0 <= i < j < distinct(chat_ids(messages)).len() ==> lt(
                #[trigger] distinct(chat_ids(messages))[i],
                #[trigger] distinct(chat_ids(messages))[j],
            ),
        forall|chat: Seq<char>|
            distinct(chat_ids(messages)).contains(chat) <==> #[trigger] chat_ids(messages).contains(
                chat,
            ),
{
    lemma_distinct(chat_ids(messages));
}

/// A chat goes under the name and the type that the first of its messages gives
/// it.
pub proof fn law_a_chat_is_named_by_its_first_message(
    summary: ChatSummary,
    messages: Seq<RawMessage>,
    chat: Seq<char>,
    i: int,
)
    requires
        summarizes(summary, messages, chat),
        0 <= i < messages.len(),
        messages[i].chat_id@ == chat,
        forall|j: int| 0 <= j < i ==> (#[trigger] messages[j]).chat_id@ != chat,
    ensures
        summary.chat_id@ == chat,
        summary.chat_name@ == messages[i].chat_name@,
        summary.chat_type@ == messages[i].chat_type@,
{
    lemma_first_in_chat(messages, chat, 0, i);
    let first = first_in_chat(messages, chat, 0);
    if first < i {
        assert(messages[first].chat_id@ != chat);
    }
}

/// The client goes by two names, neither of which is that of another source; and
/// a source that is not there is named in the refusal.
pub proof fn law_the_client_goes_by_its_names(source: Seq<char>, name: String)
    ensures
        names_client(source) <==> source == "macos"@ || source == "kakao"@,
        names_client(source) ==> source != "fixture"@ && source != "kakaocli"@,
        contains_text(source_error_text(SourceError::Unsupported(name)), name@),
{
    reveal_strlit("macos");
    reveal_strlit("kakao");
    reveal_strlit("fixture");
    reveal_strlit("kakaocli");
    assert("macos"@.len() == 5 && "kakao"@.len() == 5 && "fixture"@.len() == 7 && "kakaocli"@.len()
        == 8);
    let none = Seq::<char>::empty();
    law_a_text_holds_its_middle("unsupported source adapter: "@, name@, none);
    assert("unsupported source adapter: "@ + name@ + none =~= source_error_text(
        SourceError::Unsupported(name),
    ));
}

} // verus!
