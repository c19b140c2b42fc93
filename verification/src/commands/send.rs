//! What a send is asked for.

use crate::kakao::ax_send::deliver::Goal;
use crate::kakao::ax_send::FocusPolicy;
use crate::text::trim::copy_range;
use crate::text::{chars_of, string_of};
use vstd::prelude::*;

verus! {

/// A send as it was asked for.
#[derive(Debug)]
pub struct SendRequest {
    /// The title of the room.
    pub room: Option<String>,
    /// The id of the chat, which goes before a title.
    pub chat: Option<String>,
    pub text: Option<String>,
    /// The path of an image.
    pub image: Option<String>,
    pub list_windows: bool,
    pub list_rooms: bool,
    pub limit: usize,
    pub dry_run: bool,
    pub draft: bool,
    pub no_open: bool,
    pub take_focus_now: bool,
    /// Seconds.
    pub focus_wait: u64,
    pub accept_use_policy: bool,
}

/// Which room is meant.
#[derive(Debug)]
pub enum RoomChoice {
    Chat(String),
    Title(String),
}

/// What is to be done.
#[derive(Debug)]
pub enum SendTask {
    ListWindows,
    ListRooms { limit: usize },
    Deliver { goal: Goal, room: RoomChoice, allow_open: bool, policy: FocusPolicy },
}

/// Why nothing is done.
#[derive(Debug, Clone, Copy, PartialEq, Eq, Structural)]
pub enum SendRefusal {
    PolicyNotAccepted,
    EmptyMessage,
    NoRoom,
}

/// The sentence that reports a refusal.
pub open spec fn send_refusal_text(refusal: SendRefusal) -> Seq<char> {
    match refusal {
        SendRefusal::PolicyNotAccepted =>
            "refusing to continue without --accept-use-policy; read ACCEPTABLE_USE_POLICY.md and DISCLAIMER.md first"@,
        SendRefusal::EmptyMessage => "refusing to send an empty message"@,
        SendRefusal::NoRoom => "pass --room or --chat"@,
    }
}

impl SendRefusal {
    /// The sentence that reports this refusal.
    pub fn text(self) -> (text: &'static str)
        ensures
            text@ == send_refusal_text(self),
    {
        match self {
            SendRefusal::PolicyNotAccepted =>
                "refusing to continue without --accept-use-policy; read ACCEPTABLE_USE_POLICY.md and DISCLAIMER.md first",
            SendRefusal::EmptyMessage => "refusing to send an empty message",
            SendRefusal::NoRoom => "pass --room or --chat",
        }
    }
}

/// A text without the line breaks at its end.
pub open spec fn without_line_ends(s: Seq<char>) -> Seq<char>
    decreases s.len(),
{
    if s.len() > 0 && s.last() == '\n' {
        without_line_ends(s.drop_last())
    } else {
        s
    }
}

/// The message to send: the text without the line breaks at its end, unless nothing is left.
pub fn message_body(text: &str) -> (r: Result<String, SendRefusal>)
    ensures
        match r {
            Ok(body) => body@ == without_line_ends(text@) && body@.len() > 0,
            Err(refusal) => refusal == SendRefusal::EmptyMessage && without_line_ends(text@).len()
                == 0,
        },
        match r {
            Ok(body) => body@.len() <= text@.len() && body@ == text@.take(body@.len() as int)
                && body@[body@.len() - 1] != '\n' && (forall|i: int|
                body@.len() <= i < text@.len() ==> #[trigger] text@[i] == '\n'),
            Err(_) => forall|i: int| 0 <= i < text@.len() ==> #[trigger] text@[i] == '\n',
        },
{
    proof {
        law_only_line_breaks_are_dropped(text@);
    }
    let chars = chars_of(text);
    let mut to: usize = chars.len();
    proof {
        assert(chars@.take(to as int) == text@);
    }
    while to > 0 && chars[to - 1] == '\n'
        invariant
            to <= chars@.len(),
            chars@ == text@,
            without_line_ends(text@) == without_line_ends(chars@.take(to as int)),
        decreases to,
    {
        proof {
            assert(chars@.take(to as int).drop_last() == chars@.take(to - 1));
        }
        to = to - 1;
    }
    let kept = copy_range(chars.as_slice(), 0, to);
    proof {
        assert(kept@ == chars@.take(to as int));
    }
    if kept.len() == 0 {
        Err(SendRefusal::EmptyMessage)
    } else {
        Ok(string_of(kept.as_slice()))
    }
}

/// Whether a request lists instead of sending.
pub open spec fn lists(request: SendRequest) -> bool {
    request.list_windows || request.list_rooms
}

/// Whether a request carries a message that is a text.
pub open spec fn carries_text(request: SendRequest) -> bool {
    !request.dry_run && request.image is None
}

/// Whether the message is read from the standard input: it is a text, none was
/// given, and nothing refuses the request before.
pub fn reads_stdin(request: &SendRequest) -> (r: bool)
    ensures
        r == (!lists(*request) && request.accept_use_policy && carries_text(*request)
            && request.text is None),
{
    !request.list_windows && !request.list_rooms && request.accept_use_policy && !request.dry_run
        && request.image.is_none() && request.text.is_none()
}

/// The text that a request carries, `stdin` where none was given.
pub open spec fn text_of(request: SendRequest, stdin: Seq<char>) -> Seq<char> {
    match request.text {
        Some(text) => text@,
        None => stdin,
    }
}

/// Why a request is refused: acting without the use policy accepted, then an
/// empty message, then no room. Listing is never refused, and a dry run, which
/// sends nothing, needs no acceptance.
pub open spec fn refusal_of(request: SendRequest, stdin: Seq<char>) -> Option<SendRefusal> {
    if lists(request) {
        None
    } else if !request.dry_run && !request.accept_use_policy {
        Some(SendRefusal::PolicyNotAccepted)
    } else if carries_text(request) && without_line_ends(text_of(request, stdin)).len() == 0 {
        Some(SendRefusal::EmptyMessage)
    } else if request.chat is None && request.room is None {
        Some(SendRefusal::NoRoom)
    } else {
        None
    }
}

/// Whether a goal is the one asked for.
pub open spec fn is_goal(goal: Goal, request: SendRequest, stdin: Seq<char>) -> bool {
    if request.dry_run {
        goal is Resolve
    } else {
        match request.image {
            Some(path) => goal == Goal::Image(path),
            None => {
                let body = without_line_ends(text_of(request, stdin));
                if request.draft {
                    goal matches Goal::Draft(text) && text@ == body
                } else {
                    goal matches Goal::Text(text) && text@ == body
                }
            },
        }
    }
}

/// Whether a room is the one asked for: a chat's id goes before a title.
pub open spec fn is_room(room: RoomChoice, request: SendRequest) -> bool {
    match request.chat {
        Some(chat) => room == RoomChoice::Chat(chat),
        None => request.room matches Some(title) && room == RoomChoice::Title(title),
    }
}

/// What a request asks for, or why it is refused. `stdin` is what was read
/// where [`reads_stdin`] says so.
pub fn plan_send(request: SendRequest, stdin: &str) -> (r: Result<SendTask, SendRefusal>)
    ensures
        match r {
            Err(refusal) => refusal_of(request, stdin@) == Some(refusal),
            Ok(SendTask::ListWindows) => request.list_windows,
            Ok(SendTask::ListRooms { limit }) => request.list_rooms && !request.list_windows
                && limit == request.limit,
            Ok(SendTask::Deliver { goal, room, allow_open, policy }) => !lists(request)
                && refusal_of(request, stdin@) is None && is_goal(goal, request, stdin@) && is_room(
                room,
                request,
            ) && allow_open == !request.no_open && policy == if request.take_focus_now {
                FocusPolicy { idle_gap_ms: 0, max_wait_secs: 0 }
            } else {
                FocusPolicy { idle_gap_ms: 700, max_wait_secs: request.focus_wait }
            },
        },
{
    if request.list_windows {
        return Ok(SendTask::ListWindows);
    }
    if request.list_rooms {
        return Ok(SendTask::ListRooms { limit: request.limit });
    }
    if !request.dry_run && !request.accept_use_policy {
        return Err(SendRefusal::PolicyNotAccepted);
    }
    let policy: FocusPolicy = if request.take_focus_now {
        FocusPolicy::immediate()
    } else {
        FocusPolicy { max_wait_secs: request.focus_wait, ..FocusPolicy::default() }
    };
    let goal: Goal = if request.dry_run {
        Goal::Resolve
    } else {
        match request.image {
            Some(path) => Goal::Image(path),
            None => {
                let body = match &request.text {
                    Some(text) => message_body(text.as_str()),
                    None => message_body(stdin),
                };
                match body {
                    Err(refusal) => {
                        return Err(refusal);
                    },
                    Ok(body) => if request.draft {
                        Goal::Draft(body)
                    } else {
                        Goal::Text(body)
                    },
                }
            },
        }
    };
    let room: RoomChoice = match request.chat {
        Some(chat) => RoomChoice::Chat(chat),
        None => match request.room {
            Some(title) => RoomChoice::Title(title),
            None => {
                return Err(SendRefusal::NoRoom);
            },
        },
    };
    Ok(SendTask::Deliver { goal, room, allow_open: !request.no_open, policy })
}

/// Nothing is sent, drafted or pasted without the use policy accepted.
pub proof fn law_acting_needs_the_policy(request: SendRequest, stdin: Seq<char>)
    ensures
        !lists(request) && !request.dry_run && !request.accept_use_policy ==> refusal_of(
            request,
            stdin,
        ) == Some(SendRefusal::PolicyNotAccepted),
        request.dry_run ==> refusal_of(request, stdin) != Some(SendRefusal::PolicyNotAccepted),
{
}

/// An empty message is refused, where it is read from the standard input too.
pub proof fn law_empty_messages_are_refused(request: SendRequest, stdin: Seq<char>)
    requires
        !lists(request),
        request.accept_use_policy,
        carries_text(request),
        without_line_ends(text_of(request, stdin)).len() == 0,
    ensures
        refusal_of(request, stdin) == Some(SendRefusal::EmptyMessage),
{
}

/// What is kept of a text is the text up to some place: every character behind
/// it is a line break, and the one before it is none.
pub proof fn law_only_line_breaks_are_dropped(text: Seq<char>)
    ensures
        ({
            let body = without_line_ends(text);
            &&& body.len() <= text.len()
            &&& forall|i: int| 0 <= i < body.len() ==> #[trigger] body[i] == text[i]
            &&& forall|i: int| body.len() <= i < text.len() ==> #[trigger] text[i] == '\n'
            &&& body.len() > 0 ==> body[body.len() - 1] != '\n'
        }),
        text.len() > 0 && text[text.len() - 1] != '\n' ==> without_line_ends(text) == text,
    decreases text.len(),
{
    if text.len() > 0 && text.last() == '\n' {
        let front = text.drop_last();
        law_only_line_breaks_are_dropped(front);
        let body = without_line_ends(text);
        assert forall|i: int| body.len() <= i < text.len() implies #[trigger] text[i] == '\n' by {
            if i < front.len() {
                assert(text[i] == front[i]);
            }
        }
        assert forall|i: int| 0 <= i < body.len() implies #[trigger] body[i] == text[i] by {
            assert(front[i] == text[i]);
        }
    }
}

/// What goes into the room is what was given: the text, from the request or
/// else from the standard input, but for line breaks at its end; or the image,
/// by its path. A draft is only drafted, and a dry run only resolves the room.
pub proof fn law_what_is_given_is_sent(goal: Goal, request: SendRequest, stdin: Seq<char>)
    requires
        is_goal(goal, request, stdin),
    ensures
        request.dry_run <==> goal is Resolve,
        !request.dry_run ==> match request.image {
            Some(path) => goal == Goal::Image(path),
            None => {
                let given = match request.text {
                    Some(text) => text@,
                    None => stdin,
                };
                let sent = match goal {
                    Goal::Draft(text) => text@,
                    Goal::Text(text) => text@,
                    _ => seq![],
                };
                &&& request.draft ==> goal is Draft
                &&& !request.draft ==> goal is Text
                &&& sent.len() <= given.len()
                &&& forall|i: int| 0 <= i < sent.len() ==> #[trigger] sent[i] == given[i]
                &&& forall|i: int| sent.len() <= i < given.len() ==> #[trigger] given[i] == '\n'
                &&& given.len() > 0 && given[given.len() - 1] != '\n' ==> sent == given
            },
        },
{
    let given = match request.text {
        Some(text) => text@,
        None => stdin,
    };
    law_only_line_breaks_are_dropped(given);
}

/// A message is refused as empty only where there is nothing in it but line
/// breaks, and always then; a room is missed only where none was named.
pub proof fn law_refusals_have_their_reason(request: SendRequest, stdin: Seq<char>)
    ensures
        refusal_of(request, stdin) == Some(SendRefusal::EmptyMessage) ==> !request.dry_run
            && request.image is None && (match request.text {
            Some(text) => forall|i: int| 0 <= i < text@.len() ==> #[trigger] text@[i] == '\n',
            None => forall|i: int| 0 <= i < stdin.len() ==> #[trigger] stdin[i] == '\n',
        }),
        request.text matches Some(text) && !request.list_windows && !request.list_rooms
            && !request.dry_run && request.accept_use_policy && request.image is None && (forall|
            i: int,
        |
            0 <= i < text@.len() ==> #[trigger] text@[i] == '\n') ==> refusal_of(request, stdin)
            == Some(SendRefusal::EmptyMessage),
        refusal_of(request, stdin) == Some(SendRefusal::NoRoom) ==> request.room is None
            && request.chat is None,
        refusal_of(request, stdin) is None && !request.list_windows && !request.list_rooms
            ==> request.room is Some || request.chat is Some,
        request.list_windows || request.list_rooms ==> refusal_of(request, stdin) is None,
{
    law_only_line_breaks_are_dropped(stdin);
    if let Some(text) = request.text {
        law_only_line_breaks_are_dropped(text@);
        let body = without_line_ends(text@);
        if body.len() > 0 && (forall|i: int| 0 <= i < text@.len() ==> #[trigger] text@[i] == '\n') {
            assert(text@[body.len() - 1] == '\n');
            assert(body[body.len() - 1] == text@[body.len() - 1]);
        }
    }
}

/// The room of a send is the one that was named: by the id of its chat where one
/// was given, else by its title.
pub proof fn law_the_named_room_is_meant(room: RoomChoice, request: SendRequest)
    requires
        is_room(room, request),
    ensures
        room matches RoomChoice::Chat(chat) ==> request.chat == Some(chat),
        room matches RoomChoice::Title(title) ==> request.chat is None && request.room == Some(
            title,
        ),
{
}

} // verus!
