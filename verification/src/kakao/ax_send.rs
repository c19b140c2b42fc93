//! Sending through the window of the desktop client.
//!
//! The client has no interface for sending, so its window is driven. What is
//! decided on the way is here: which room a title names ([`room`]), what the
//! window shows ([`window`]), when the screen may be taken ([`screen`]), how a
//! room is opened ([`open`]) and how a message is delivered ([`deliver`]).
//! Reading the window, writing to it, waiting and posting keys is left to
//! whoever runs these machines.

use crate::kakao::send_curtain::CurtainControl;
use crate::text::number::{decimal, decimal_i64, decimal_int, decimal_u64, decimal_usize};
use crate::text::owned;
use crate::text::split::{contains_text, law_a_text_holds_its_middle};
pub use crate::kakao::ax_send::room::validate_room_name;
use vstd::prelude::*;

pub mod clipboard;
pub mod deliver;
pub mod open;
pub mod room;
pub mod screen;
pub mod window;

verus! {

/// How much a send may disturb whoever uses the machine.
#[derive(Debug, Clone, Copy, PartialEq, Eq, Structural)]
pub struct FocusPolicy {
    /// Milliseconds without input before the client may come forward.
    pub idle_gap_ms: u64,
    /// Seconds to wait for that gap.
    pub max_wait_secs: u64,
}

impl Default for FocusPolicy {
    fn default() -> (policy: Self)
        ensures
            policy.idle_gap_ms == 700,
            policy.max_wait_secs == 15,
    {
        FocusPolicy { idle_gap_ms: 700, max_wait_secs: 15 }
    }
}

impl FocusPolicy {
    /// Takes the screen at once.
    pub fn immediate() -> (policy: Self)
        ensures
            policy.idle_gap_ms == 0,
            policy.max_wait_secs == 0,
    {
        FocusPolicy { idle_gap_ms: 0, max_wait_secs: 0 }
    }
}

/// What a send knows of how it may disturb whoever uses the machine.
#[derive(Debug)]
pub struct SendContext {
    pub policy: FocusPolicy,
    /// The curtain that covers the screen while the client is forward, where there is one.
    pub curtain: Option<CurtainControl>,
}

impl SendContext {
    /// A context without a curtain.
    pub fn new(policy: FocusPolicy) -> (context: Self)
        ensures
            context.policy == policy,
            context.curtain is None,
    {
        SendContext { policy, curtain: None }
    }

    /// Whether the send was asked to stop: there is a curtain and it was cancelled.
    pub fn cancelled(&self) -> (r: bool)
        ensures
            r == (self.curtain matches Some(curtain) && curtain.cancel.cancelled),
    {
        match &self.curtain {
            Some(curtain) => curtain.is_cancelled(),
            None => false,
        }
    }
}

/// A room to act on.
#[derive(Debug, Clone)]
pub struct RoomTarget {
    pub name: String,
    /// How many rooms of this name were active more recently: its place among
    /// the rows of that name in a list with the most recent first.
    pub rank: Option<usize>,
}

impl RoomTarget {
    /// The room of that name.
    pub fn named(name: &str) -> (target: Self)
        ensures
            target.name@ == name@,
            target.rank is None,
    {
        RoomTarget { name: owned(name), rank: None }
    }
}

/// Why a send did not happen, or is not known to have happened.
#[derive(Debug)]
pub enum SendError {
    AccessibilityDenied,
    NotRunning,
    WindowNotOpen { room: String, open: String },
    ComposeBoxNotFound(String),
    SetValueFailed(i32),
    KeyEventFailed,
    NotSent,
    ChatListUnavailable,
    RoomNotInChatList { room: String, scanned: usize },
    RoomOpenFailed(String),
    SearchUnavailable,
    AmbiguousRoom { room: String, count: usize },
    RoomNameNotTypable { room: String, offenders: String },
    ValueMismatch { what: String, wrote: String, found: String },
    RoomNotFound(String),
    ImageMissing(String),
    ImageUnreadable { path: String, source: String },
    ImageTypeUnsupported(String),
    ClipboardFailed(i32),
    ImageNotSent,
    /// Whoever uses the machine did not pause for this many seconds.
    UserBusy { waited: u64 },
    FocusLost,
    ChatListMoved { room: String },
    DraftNotStaged { room: String },
    Cancelled,
    CancelledAfterPaste,
}

/// A [`SendError`] with its texts as sequences of characters.
pub enum SendErrorView {
    AccessibilityDenied,
    NotRunning,
    WindowNotOpen { room: Seq<char>, open: Seq<char> },
    ComposeBoxNotFound(Seq<char>),
    SetValueFailed(i32),
    KeyEventFailed,
    NotSent,
    ChatListUnavailable,
    RoomNotInChatList { room: Seq<char>, scanned: usize },
    RoomOpenFailed(Seq<char>),
    SearchUnavailable,
    AmbiguousRoom { room: Seq<char>, count: usize },
    RoomNameNotTypable { room: Seq<char>, offenders: Seq<char> },
    ValueMismatch { what: Seq<char>, wrote: Seq<char>, found: Seq<char> },
    RoomNotFound(Seq<char>),
    ImageMissing(Seq<char>),
    ImageUnreadable { path: Seq<char>, source: Seq<char> },
    ImageTypeUnsupported(Seq<char>),
    ClipboardFailed(i32),
    ImageNotSent,
    UserBusy { waited: u64 },
    FocusLost,
    ChatListMoved { room: Seq<char> },
    DraftNotStaged { room: Seq<char> },
    Cancelled,
    CancelledAfterPaste,
}

impl View for SendError {
    type V = SendErrorView;

    open spec fn view(&self) -> SendErrorView {
        match *self {
            SendError::AccessibilityDenied => SendErrorView::AccessibilityDenied,
            SendError::NotRunning => SendErrorView::NotRunning,
            SendError::WindowNotOpen { room, open } => SendErrorView::WindowNotOpen {
                room: room@,
                open: open@,
            },
            SendError::ComposeBoxNotFound(room) => SendErrorView::ComposeBoxNotFound(room@),
            SendError::SetValueFailed(code) => SendErrorView::SetValueFailed(code),
            SendError::KeyEventFailed => SendErrorView::KeyEventFailed,
            SendError::NotSent => SendErrorView::NotSent,
            SendError::ChatListUnavailable => SendErrorView::ChatListUnavailable,
            SendError::RoomNotInChatList { room, scanned } => SendErrorView::RoomNotInChatList {
                room: room@,
                scanned,
            },
            SendError::RoomOpenFailed(room) => SendErrorView::RoomOpenFailed(room@),
            SendError::SearchUnavailable => SendErrorView::SearchUnavailable,
            SendError::AmbiguousRoom { room, count } => SendErrorView::AmbiguousRoom {
                room: room@,
                count,
            },
            SendError::RoomNameNotTypable { room, offenders } => SendErrorView::RoomNameNotTypable {
                room: room@,
                offenders: offenders@,
            },
            SendError::ValueMismatch { what, wrote, found } => SendErrorView::ValueMismatch {
                what: what@,
                wrote: wrote@,
                found: found@,
            },
            SendError::RoomNotFound(room) => SendErrorView::RoomNotFound(room@),
            SendError::ImageMissing(path) => SendErrorView::ImageMissing(path@),
            SendError::ImageUnreadable { path, source } => SendErrorView::ImageUnreadable {
                path: path@,
                source: source@,
            },
            SendError::ImageTypeUnsupported(ext) => SendErrorView::ImageTypeUnsupported(ext@),
            SendError::ClipboardFailed(status) => SendErrorView::ClipboardFailed(status),
            SendError::ImageNotSent => SendErrorView::ImageNotSent,
            SendError::UserBusy { waited } => SendErrorView::UserBusy { waited },
            SendError::FocusLost => SendErrorView::FocusLost,
            SendError::ChatListMoved { room } => SendErrorView::ChatListMoved { room: room@ },
            SendError::DraftNotStaged { room } => SendErrorView::DraftNotStaged { room: room@ },
            SendError::Cancelled => SendErrorView::Cancelled,
            SendError::CancelledAfterPaste => SendErrorView::CancelledAfterPaste,
        }
    }
}

/// A result with its error as a view.
pub open spec fn outcome<T>(r: Result<T, SendError>) -> Result<T, SendErrorView> {
    match r {
        Ok(value) => Ok(value),
        Err(error) => Err(error@),
    }
}

/// The sentence that reports an error.
pub open spec fn send_error_text(error: SendErrorView) -> Seq<char> {
    match error {
        SendErrorView::AccessibilityDenied =>
            "accessibility permission is not granted; grant it to this terminal in System Settings > Privacy & Security > Accessibility"@,
        SendErrorView::NotRunning => "KakaoTalk is not running"@,
        SendErrorView::WindowNotOpen { room, open } => "chat window '"@ + room
            + "' is not open. This command only sends into an already open window; open the room in KakaoTalk first. Open windows: "@
            + open,
        SendErrorView::ComposeBoxNotFound(room) =>
            "could not find the message input box in window '"@ + room + "'"@,
        SendErrorView::SetValueFailed(code) =>
            "failed to write the message into the input box (AXError "@ + decimal_int(code as int)
            + ")"@,
        SendErrorView::KeyEventFailed => "could not create the Enter key event"@,
        SendErrorView::NotSent =>
            "message stayed in the input box; KakaoTalk did not accept Enter"@,
        SendErrorView::ChatListUnavailable =>
            "could not find KakaoTalk's chat list; is the main window open?"@,
        SendErrorView::RoomNotInChatList { room, scanned } => "'"@ + room
            + "' is not in the chat list ("@ + decimal(scanned as nat)
            + " rooms checked). Check the exact name with --list-rooms"@,
        SendErrorView::RoomOpenFailed(room) => "selected '"@ + room
            + "' in the chat list but its window did not open"@,
        SendErrorView::SearchUnavailable => "could not reach KakaoTalk's chat search box"@,
        SendErrorView::AmbiguousRoom { room, count } => decimal(count as nat)
            + " chats are named '"@ + room
            + "', and nothing on screen tells them apart. Nothing was opened: sending to the wrong one cannot be undone. Pass --chat <chat-id> so the last message can be used to pick, or rename one of them."@,
        SendErrorView::RoomNameNotTypable { room, offenders } =>
            "--room contains characters a chat name cannot: "@ + offenders
            + ". This is almost always a quoting accident in whatever built the argument, not a missing room.\n  room: "@
            + room,
        SendErrorView::ValueMismatch { what, wrote, found } => what
            + " did not hold what was written to it, so the next step would have acted on the wrong value.\n  wrote: "@
            + wrote + "\n  found: "@ + found,
        SendErrorView::RoomNotFound(room) => "no chat named '"@ + room
            + "' found in the list or by search. Check the exact name with --list-rooms"@,
        SendErrorView::ImageMissing(path) => "image file not found: "@ + path,
        SendErrorView::ImageUnreadable { path, source } => "failed to read image file "@ + path
            + ": "@ + source,
        SendErrorView::ImageTypeUnsupported(ext) => "unsupported image type '"@ + ext
            + "'; use png, jpg, jpeg, gif, tiff, bmp, heic, or webp"@,
        SendErrorView::ClipboardFailed(status) =>
            "failed to put the image on the clipboard (OSStatus "@ + decimal_int(status as int)
            + ")"@,
        SendErrorView::ImageNotSent =>
            "pasted the image but KakaoTalk never showed the send confirmation, and the paste did not clear"@,
        SendErrorView::UserBusy { waited } => "you kept using the keyboard or mouse for "@
            + decimal(waited as nat)
            + "s, and this send needs to bring KakaoTalk forward. Nothing was sent and nothing was typed anywhere. Retry when idle, or pass --take-focus-now to interrupt yourself."@,
        SendErrorView::FocusLost =>
            "KakaoTalk was not frontmost at the moment the keystroke would have been sent, so it was not sent at all — posting it would have typed into whatever app you switched to. Nothing was sent; retry."@,
        SendErrorView::ChatListMoved { room } => "the chat list reordered while '"@ + room
            + "' was being opened, so the click was not sent — it would have landed on whichever room took that position. Nothing was opened; retry."@,
        SendErrorView::DraftNotStaged { room } => "the draft is not sitting in "@ + room
            + "'s compose box. It was either not pasted or already sent — check the chat rather than assuming it is waiting."@,
        SendErrorView::Cancelled => "cancelled before anything was sent"@,
        SendErrorView::CancelledAfterPaste =>
            "cancelled after the image was already pasted into KakaoTalk, so it may or may not have been delivered. Check the chat before resending."@,
    }
}

/// Three texts, one after the other.
fn around(before: &str, text: &str, after: &str) -> (r: String)
    ensures
        r@ == before@ + text@ + after@,
{
    let mut r: String = owned(before);
    r.append(text);
    r.append(after);
    r
}

impl SendError {
    /// The sentence that reports this error.
    pub fn message(&self) -> (text: String)
        ensures
            text@ == send_error_text(self@),
    {
        match self {
            SendError::AccessibilityDenied => owned(
                "accessibility permission is not granted; grant it to this terminal in System Settings > Privacy & Security > Accessibility",
            ),
            SendError::NotRunning => owned("KakaoTalk is not running"),
            SendError::WindowNotOpen { room, open } => {
                let mut text = around(
                    "chat window '",
                    room.as_str(),
                    "' is not open. This command only sends into an already open window; open the room in KakaoTalk first. Open windows: ",
                );
                text.append(open.as_str());
                text
            },
            SendError::ComposeBoxNotFound(room) => around(
                "could not find the message input box in window '",
                room.as_str(),
                "'",
            ),
            SendError::SetValueFailed(code) => around(
                "failed to write the message into the input box (AXError ",
                decimal_i64(*code as i64).as_str(),
                ")",
            ),
            SendError::KeyEventFailed => owned("could not create the Enter key event"),
            SendError::NotSent => owned(
                "message stayed in the input box; KakaoTalk did not accept Enter",
            ),
            SendError::ChatListUnavailable => owned(
                "could not find KakaoTalk's chat list; is the main window open?",
            ),
            SendError::RoomNotInChatList { room, scanned } => {
                let mut text = around("'", room.as_str(), "' is not in the chat list (");
                text.append(decimal_usize(*scanned).as_str());
                text.append(" rooms checked). Check the exact name with --list-rooms");
                text
            },
            SendError::RoomOpenFailed(room) => around(
                "selected '",
                room.as_str(),
                "' in the chat list but its window did not open",
            ),
            SendError::SearchUnavailable => owned("could not reach KakaoTalk's chat search box"),
            SendError::AmbiguousRoom { room, count } => {
                let mut text = around(
                    decimal_usize(*count).as_str(),
                    " chats are named '",
                    room.as_str(),
                );
                text.append(
                    "', and nothing on screen tells them apart. Nothing was opened: sending to the wrong one cannot be undone. Pass --chat <chat-id> so the last message can be used to pick, or rename one of them.",
                );
                text
            },
            SendError::RoomNameNotTypable { room, offenders } => {
                let mut text = around(
                    "--room contains characters a chat name cannot: ",
                    offenders.as_str(),
                    ". This is almost always a quoting accident in whatever built the argument, not a missing room.\n  room: ",
                );
                text.append(room.as_str());
                text
            },
            SendError::ValueMismatch { what, wrote, found } => {
                let mut text = around(
                    what.as_str(),
                    " did not hold what was written to it, so the next step would have acted on the wrong value.\n  wrote: ",
                    wrote.as_str(),
                );
                text.append("\n  found: ");
                text.append(found.as_str());
                text
            },
            SendError::RoomNotFound(room) => around(
                "no chat named '",
                room.as_str(),
                "' found in the list or by search. Check the exact name with --list-rooms",
            ),
            SendError::ImageMissing(path) => owned("image file not found: ").concat(path.as_str()),
            SendError::ImageUnreadable { path, source } => {
                let mut text = around("failed to read image file ", path.as_str(), ": ");
                text.append(source.as_str());
                text
            },
            SendError::ImageTypeUnsupported(ext) => around(
                "unsupported image type '",
                ext.as_str(),
                "'; use png, jpg, jpeg, gif, tiff, bmp, heic, or webp",
            ),
            SendError::ClipboardFailed(status) => around(
                "failed to put the image on the clipboard (OSStatus ",
                decimal_i64(*status as i64).as_str(),
                ")",
            ),
            SendError::ImageNotSent => owned(
                "pasted the image but KakaoTalk never showed the send confirmation, and the paste did not clear",
            ),
            SendError::UserBusy { waited } => around(
                "you kept using the keyboard or mouse for ",
                decimal_u64(*waited).as_str(),
                "s, and this send needs to bring KakaoTalk forward. Nothing was sent and nothing was typed anywhere. Retry when idle, or pass --take-focus-now to interrupt yourself.",
            ),
            SendError::FocusLost => owned(
                "KakaoTalk was not frontmost at the moment the keystroke would have been sent, so it was not sent at all — posting it would have typed into whatever app you switched to. Nothing was sent; retry.",
            ),
            SendError::ChatListMoved { room } => around(
                "the chat list reordered while '",
                room.as_str(),
                "' was being opened, so the click was not sent — it would have landed on whichever room took that position. Nothing was opened; retry.",
            ),
            SendError::DraftNotStaged { room } => around(
                "the draft is not sitting in ",
                room.as_str(),
                "'s compose box. It was either not pasted or already sent — check the chat rather than assuming it is waiting.",
            ),
            SendError::Cancelled => owned("cancelled before anything was sent"),
            SendError::CancelledAfterPaste => owned(
                "cancelled after the image was already pasted into KakaoTalk, so it may or may not have been delivered. Check the chat before resending.",
            ),
        }
    }
}

/// A sentence names what it is about: the room, the file, the reason, what was
/// written and what was found instead.
pub proof fn law_a_sentence_names_what_it_is_about(error: SendErrorView)
    ensures
        ({
            let text = send_error_text(error);
            match error {
                SendErrorView::WindowNotOpen { room, open } => contains_text(text, room)
                    && contains_text(text, open),
                SendErrorView::ComposeBoxNotFound(room) | SendErrorView::RoomOpenFailed(room)
                | SendErrorView::RoomNotFound(room) => contains_text(text, room),
                SendErrorView::ChatListMoved { room } | SendErrorView::DraftNotStaged { room } =>
                    contains_text(text, room),
                SendErrorView::SetValueFailed(code) | SendErrorView::ClipboardFailed(code) =>
                    contains_text(text, decimal_int(code as int)),
                SendErrorView::RoomNotInChatList { room, scanned } => contains_text(text, room)
                    && contains_text(text, decimal(scanned as nat)),
                SendErrorView::AmbiguousRoom { room, count } => contains_text(text, room)
                    && contains_text(text, decimal(count as nat)),
                SendErrorView::RoomNameNotTypable { room, offenders } => contains_text(text, room)
                    && contains_text(text, offenders),
                SendErrorView::ValueMismatch { what, wrote, found } => contains_text(text, what)
                    && contains_text(text, wrote) && contains_text(text, found),
                SendErrorView::ImageMissing(path) => contains_text(text, path),
                SendErrorView::ImageUnreadable { path, source } => contains_text(text, path)
                    && contains_text(text, source),
                SendErrorView::ImageTypeUnsupported(ext) => contains_text(text, ext),
                SendErrorView::UserBusy { waited } => contains_text(text, decimal(waited as nat)),
                _ => true,
            }
        }),
{
    let none = Seq::<char>::empty();
    let text = send_error_text(error);
    match error {
        SendErrorView::WindowNotOpen { room, open } => {
            let a = "chat window '"@;
            let b =
                "' is not open. This command only sends into an already open window; open the room in KakaoTalk first. Open windows: "@;
            lemma_names_two(none, none, a, room, b, open, none);
            assert(none + none + a + room + b + open + none =~= text);
        },
        SendErrorView::ComposeBoxNotFound(room) => law_a_text_holds_its_middle(
            "could not find the message input box in window '"@,
            room,
            "'"@,
        ),
        SendErrorView::RoomOpenFailed(room) => law_a_text_holds_its_middle(
            "selected '"@,
            room,
            "' in the chat list but its window did not open"@,
        ),
        SendErrorView::RoomNotFound(room) => law_a_text_holds_its_middle(
            "no chat named '"@,
            room,
            "' found in the list or by search. Check the exact name with --list-rooms"@,
        ),
        SendErrorView::ChatListMoved { room } => law_a_text_holds_its_middle(
            "the chat list reordered while '"@,
            room,
            "' was being opened, so the click was not sent — it would have landed on whichever room took that position. Nothing was opened; retry."@,
        ),
        SendErrorView::DraftNotStaged { room } => law_a_text_holds_its_middle(
            "the draft is not sitting in "@,
            room,
            "'s compose box. It was either not pasted or already sent — check the chat rather than assuming it is waiting."@,
        ),
        SendErrorView::SetValueFailed(code) => law_a_text_holds_its_middle(
            "failed to write the message into the input box (AXError "@,
            decimal_int(code as int),
            ")"@,
        ),
        SendErrorView::ClipboardFailed(code) => law_a_text_holds_its_middle(
            "failed to put the image on the clipboard (OSStatus "@,
            decimal_int(code as int),
            ")"@,
        ),
        SendErrorView::RoomNotInChatList { room, scanned } => {
            let a = "'"@;
            let b = "' is not in the chat list ("@;
            let c = " rooms checked). Check the exact name with --list-rooms"@;
            let n = decimal(scanned as nat);
            lemma_names_two(none, none, a, room, b, n, c);
            assert(none + none + a + room + b + n + c =~= text);
        },
        SendErrorView::AmbiguousRoom { room, count } => {
            let n = decimal(count as nat);
            let b = " chats are named '"@;
            let c =
                "', and nothing on screen tells them apart. Nothing was opened: sending to the wrong one cannot be undone. Pass --chat <chat-id> so the last message can be used to pick, or rename one of them."@;
            lemma_names_two(none, none, none, n, b, room, c);
            assert(none + none + none + n + b + room + c =~= text);
        },
        SendErrorView::RoomNameNotTypable { room, offenders } => {
            let a = "--room contains characters a chat name cannot: "@;
            let b =
                ". This is almost always a quoting accident in whatever built the argument, not a missing room.\n  room: "@;
            lemma_names_two(none, none, a, offenders, b, room, none);
            assert(none + none + a + offenders + b + room + none =~= text);
        },
        SendErrorView::ValueMismatch { what, wrote, found } => {
            let a =
                " did not hold what was written to it, so the next step would have acted on the wrong value.\n  wrote: "@;
            let b = "\n  found: "@;
            lemma_names_two(none, what, a, wrote, b, found, none);
            assert(none + what + a + wrote + b + found + none =~= text);
        },
        SendErrorView::ImageMissing(path) => {
            law_a_text_holds_its_middle("image file not found: "@, path, none);
            assert("image file not found: "@ + path + none =~= text);
        },
        SendErrorView::ImageUnreadable { path, source } => {
            let a = "failed to read image file "@;
            let b = ": "@;
            lemma_names_two(none, none, a, path, b, source, none);
            assert(none + none + a + path + b + source + none =~= text);
        },
        SendErrorView::ImageTypeUnsupported(ext) => law_a_text_holds_its_middle(
            "unsupported image type '"@,
            ext,
            "'; use png, jpg, jpeg, gif, tiff, bmp, heic, or webp"@,
        ),
        SendErrorView::UserBusy { waited } => law_a_text_holds_its_middle(
            "you kept using the keyboard or mouse for "@,
            decimal(waited as nat),
            "s, and this send needs to bring KakaoTalk forward. Nothing was sent and nothing was typed anywhere. Retry when idle, or pass --take-focus-now to interrupt yourself."@,
        ),
        _ => {},
    }
}

proof fn lemma_names_two(
    a: Seq<char>,
    x: Seq<char>,
    b: Seq<char>,
    y: Seq<char>,
    c: Seq<char>,
    z: Seq<char>,
    d: Seq<char>,
)
    ensures
        contains_text(a + x + b + y + c + z + d, x),
        contains_text(a + x + b + y + c + z + d, y),
        contains_text(a + x + b + y + c + z + d, z),
{
    let s = a + x + b + y + c + z + d;
    law_a_text_holds_its_middle(a, x, b + y + c + z + d);
    assert(a + x + (b + y + c + z + d) =~= s);
    law_a_text_holds_its_middle(a + x + b, y, c + z + d);
    assert(a + x + b + y + (c + z + d) =~= s);
    law_a_text_holds_its_middle(a + x + b + y + c, z, d);
}

/// An error is told apart by its view, which keeps its texts, its numbers and its
/// status; and a result is a success in its view exactly where it is one.
pub proof fn law_a_view_keeps_the_error<T>(error: SendError, r: Result<T, SendError>)
    ensures
        match error {
            SendError::AccessibilityDenied => error@ is AccessibilityDenied,
            SendError::NotRunning => error@ is NotRunning,
            SendError::WindowNotOpen { room, open } => error@ == (SendErrorView::WindowNotOpen {
                room: room@,
                open: open@,
            }),
            SendError::ComposeBoxNotFound(room) => error@ == SendErrorView::ComposeBoxNotFound(
                room@,
            ),
            SendError::SetValueFailed(code) => error@ == SendErrorView::SetValueFailed(code),
            SendError::KeyEventFailed => error@ is KeyEventFailed,
            SendError::NotSent => error@ is NotSent,
            SendError::ChatListUnavailable => error@ is ChatListUnavailable,
            SendError::RoomOpenFailed(room) => error@ == SendErrorView::RoomOpenFailed(room@),
            SendError::SearchUnavailable => error@ is SearchUnavailable,
            SendError::RoomNotFound(room) => error@ == SendErrorView::RoomNotFound(room@),
            SendError::ImageMissing(path) => error@ == SendErrorView::ImageMissing(path@),
            SendError::ImageTypeUnsupported(ext) => error@ == SendErrorView::ImageTypeUnsupported(
                ext@,
            ),
            SendError::ClipboardFailed(status) => error@ == SendErrorView::ClipboardFailed(status),
            SendError::ImageNotSent => error@ is ImageNotSent,
            SendError::UserBusy { waited } => error@ == (SendErrorView::UserBusy { waited }),
            SendError::FocusLost => error@ is FocusLost,
            SendError::Cancelled => error@ is Cancelled,
            SendError::CancelledAfterPaste => error@ is CancelledAfterPaste,
            _ => true,
        },
        outcome(r) is Ok <==> r is Ok,
        r matches Ok(value) ==> outcome(r) == Ok::<T, SendErrorView>(value),
        r matches Err(e) ==> outcome(r) == Err::<T, SendErrorView>(e@),
{
}

} // verus!
