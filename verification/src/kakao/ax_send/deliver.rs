//! Delivering a message into a room.
//!
//! One machine resolves a room, sends a text, leaves a draft or sends an
//! image. It claims success only for what it saw: a box that emptied, a draft
//! that stands in the box, a transcript that grew.

use crate::kakao::ax_send::room::{code_point_texts, described, offenders, validate_room_name};
use crate::kakao::ax_send::window::opt_view;
use crate::kakao::ax_send::{outcome, RoomTarget, SendError, SendErrorView};
use crate::kakao::send_curtain::{attachment_label, attachment_text};
use crate::text::path::{extension, extension_of};
use crate::text::split::{contains_text, join, law_a_text_holds_its_middle, text_contains};
use crate::text::{ascii_lower_seq, ascii_lowercase, owned, same};
use vstd::prelude::*;

verus! {

/// Looks at whether the box emptied after a key to the client, and after one with it in front.
pub const DRAIN_LOOKS: u8 = 20;

pub const FRONT_DRAIN_LOOKS: u8 = 30;

/// Looks at whether the draft stands in the box.
pub const DRAFT_LOOKS: u8 = 30;

/// Milliseconds before each look at the box.
pub const BOX_POLL_MS: u64 = 50;

/// Looks at whether the image was sent, and the milliseconds before each.
pub const IMAGE_LOOKS: u8 = 40;

pub const IMAGE_POLL_MS: u64 = 100;

/// What is to be done in the room.
#[derive(Debug)]
pub enum Goal {
    /// To find its window, or open it.
    Resolve,
    /// To send a text.
    Text(String),
    /// To leave a text in the box.
    Draft(String),
    /// To send the image at a path.
    Image(String),
}

// ---------------------------------------------------------------------------
// Images
// ---------------------------------------------------------------------------

/// The type identifier for an extension in small letters.
pub open spec fn uti_of_ext(ext: Seq<char>) -> Option<Seq<char>> {
    if ext == "png"@ {
        Some("public.png"@)
    } else if ext == "jpg"@ || ext == "jpeg"@ {
        Some("public.jpeg"@)
    } else if ext == "gif"@ {
        Some("com.compuserve.gif"@)
    } else if ext == "tif"@ || ext == "tiff"@ {
        Some("public.tiff"@)
    } else if ext == "bmp"@ {
        Some("com.microsoft.bmp"@)
    } else if ext == "heic"@ {
        Some("public.heic"@)
    } else if ext == "webp"@ {
        Some("org.webmproject.webp"@)
    } else {
        None
    }
}

/// The type identifier of the image at a path, by its extension.
pub open spec fn uti(path: Seq<char>) -> Option<Seq<char>> {
    match extension(path) {
        Some(ext) => uti_of_ext(ascii_lower_seq(ext)),
        None => None,
    }
}

/// The type identifier under which the image at `path` is put on the clipboard.
pub fn image_uti(path: &str) -> (r: Option<&'static str>)
    ensures
        match r {
            Some(text) => uti(path@) == Some(text@),
            None => uti(path@) is None,
        },
{
    let ext = match extension_of(path) {
        Some(ext) => ascii_lowercase(ext.as_str()),
        None => {
            return None;
        },
    };
    let e = ext.as_str();
    if same(e, "png") {
        Some("public.png")
    } else if same(e, "jpg") || same(e, "jpeg") {
        Some("public.jpeg")
    } else if same(e, "gif") {
        Some("com.compuserve.gif")
    } else if same(e, "tif") || same(e, "tiff") {
        Some("public.tiff")
    } else if same(e, "bmp") {
        Some("com.microsoft.bmp")
    } else if same(e, "heic") {
        Some("public.heic")
    } else if same(e, "webp") {
        Some("org.webmproject.webp")
    } else {
        None
    }
}

/// What an image of no known type is refused with.
pub open spec fn unsupported(path: Seq<char>) -> SendErrorView {
    SendErrorView::ImageTypeUnsupported(
        match extension(path) {
            Some(ext) => ext,
            None => "(none)"@,
        },
    )
}

/// The type identifier of the image at `path`, or why there is none.
pub fn check_image_type(path: &str) -> (r: Result<&'static str, SendError>)
    ensures
        match r {
            Ok(text) => uti(path@) == Some(text@),
            Err(error) => uti(path@) is None && error@ == unsupported(path@),
        },
{
    match image_uti(path) {
        Some(text) => Ok(text),
        None => Err(
            SendError::ImageTypeUnsupported(
                match extension_of(path) {
                    Some(ext) => ext,
                    None => owned("(none)"),
                },
            ),
        ),
    }
}

/// What the curtain says while the screen is held for a goal.
pub open spec fn subtitle(goal: Goal, name: Seq<char>) -> Seq<char> {
    match goal {
        Goal::Resolve => name + " 채팅방 여는 중"@,
        Goal::Text(_) => name + " 로 전송 중"@,
        Goal::Draft(_) => name + " 초안 작성 중"@,
        Goal::Image(path) => name + " · "@ + attachment_text(path@),
    }
}

/// What the curtain says while the screen is held for a goal; for
/// [`Goal::Resolve`], while the room is opened.
pub fn subtitle_of(goal: &Goal, name: &str) -> (text: String)
    ensures
        text@ == subtitle(*goal, name@),
{
    let mut text: String = owned(name);
    match goal {
        Goal::Resolve => text.append(" 채팅방 여는 중"),
        Goal::Text(_) => text.append(" 로 전송 중"),
        Goal::Draft(_) => text.append(" 초안 작성 중"),
        Goal::Image(path) => {
            text.append(" · ");
            let label = attachment_label(path.as_str());
            text.append(label.as_str());
        },
    }
    text
}

// ---------------------------------------------------------------------------
// The machine
// ---------------------------------------------------------------------------

/// How far a delivery has come, and what is asked for.
#[derive(Debug, Clone, Copy, PartialEq, Eq, Structural)]
pub enum Deliver {
    /// Whether the accessibility permission is granted.
    Trust,
    /// Whether the image is a file.
    File,
    /// Whether the client is running.
    Process,
    /// To find the room's window, or open it.
    Window,
    /// Whether the window has a box to compose in.
    ComposeBox,
    /// To focus the box and write the text into it. The client takes a written
    /// text as sent, so a draft is never written.
    Write,
    /// To press Enter: posted to the client, or with its window raised and in front.
    Enter { front: bool },
    /// Whether the box is empty.
    Drain { front: bool, looks: u8 },
    /// To save the clipboard. It is put back at the end.
    Save,
    /// To put the draft or the image on the clipboard.
    Put,
    /// How many rows the transcript has.
    Count,
    /// To take the screen. `before` are the rows counted for an image.
    Screen { before: Option<usize> },
    /// To focus the box, where there is one, and to tell whether the send was cancelled.
    Recheck { before: Option<usize> },
    /// To focus the box of a draft, and to paste with the client in front.
    Paste { before: Option<usize> },
    /// What the box holds.
    Staged { looks: u8 },
    /// Whether the send was cancelled since the paste.
    Watch { before: Option<usize>, looks: u8 },
    /// Whether a sheet asks for confirmation. If so, it is confirmed.
    Sheet { before: Option<usize>, looks: u8 },
    /// How many rows the transcript has by now.
    Recount { before: Option<usize>, looks: u8 },
    /// Whether the box is empty, for a transcript that cannot be counted.
    Consumed { before: Option<usize>, looks: u8 },
}

/// What came of what was asked for.
#[derive(Debug)]
pub enum DeliverEvent {
    Trusted(bool),
    IsFile(bool),
    Running(bool),
    Resolved(Result<(), SendError>),
    HasBox(bool),
    /// The status of writing: zero is success.
    Written(i32),
    Pressed(Result<(), SendError>),
    Empty(bool),
    Saved(Result<(), SendError>),
    Put(Result<(), SendError>),
    Rows(Option<usize>),
    Taken(Result<(), SendError>),
    Cancelled(bool),
    Value(Option<String>),
    Sheet(bool),
}

/// A [`DeliverEvent`] as a view.
pub enum DeliverEventView {
    Trusted(bool),
    IsFile(bool),
    Running(bool),
    Resolved(Result<(), SendErrorView>),
    HasBox(bool),
    Written(i32),
    Pressed(Result<(), SendErrorView>),
    Empty(bool),
    Saved(Result<(), SendErrorView>),
    Put(Result<(), SendErrorView>),
    Rows(Option<usize>),
    Taken(Result<(), SendErrorView>),
    Cancelled(bool),
    Value(Option<Seq<char>>),
    Sheet(bool),
}

impl View for DeliverEvent {
    type V = DeliverEventView;

    open spec fn view(&self) -> DeliverEventView {
        match *self {
            DeliverEvent::Trusted(b) => DeliverEventView::Trusted(b),
            DeliverEvent::IsFile(b) => DeliverEventView::IsFile(b),
            DeliverEvent::Running(b) => DeliverEventView::Running(b),
            DeliverEvent::Resolved(r) => DeliverEventView::Resolved(outcome(r)),
            DeliverEvent::HasBox(b) => DeliverEventView::HasBox(b),
            DeliverEvent::Written(code) => DeliverEventView::Written(code),
            DeliverEvent::Pressed(r) => DeliverEventView::Pressed(outcome(r)),
            DeliverEvent::Empty(b) => DeliverEventView::Empty(b),
            DeliverEvent::Saved(r) => DeliverEventView::Saved(outcome(r)),
            DeliverEvent::Put(r) => DeliverEventView::Put(outcome(r)),
            DeliverEvent::Rows(n) => DeliverEventView::Rows(n),
            DeliverEvent::Taken(r) => DeliverEventView::Taken(outcome(r)),
            DeliverEvent::Cancelled(b) => DeliverEventView::Cancelled(b),
            DeliverEvent::Value(value) => DeliverEventView::Value(opt_view(value)),
            DeliverEvent::Sheet(b) => DeliverEventView::Sheet(b),
        }
    }
}

/// One step of a delivery.
#[derive(Debug)]
pub enum DeliverStep {
    Ask(Deliver),
    Done(Result<(), SendError>),
}

/// A [`DeliverStep`] as a view.
pub enum DeliverStepView {
    Ask(Deliver),
    Done(Result<(), SendErrorView>),
}

impl View for DeliverStep {
    type V = DeliverStepView;

    open spec fn view(&self) -> DeliverStepView {
        match *self {
            DeliverStep::Ask(state) => DeliverStepView::Ask(state),
            DeliverStep::Done(r) => DeliverStepView::Done(outcome(r)),
        }
    }
}

/// A delivery that failed.
pub open spec fn failed(error: SendErrorView) -> DeliverStepView {
    DeliverStepView::Done(Err(error))
}

/// The next state where a step succeeded, its error where it failed.
pub open spec fn on_ok(r: Result<(), SendErrorView>, next: DeliverStepView) -> DeliverStepView {
    match r {
        Ok(_) => next,
        Err(error) => failed(error),
    }
}

/// The first step: a name that cannot be typed is refused before anything is touched.
pub open spec fn deliver_begun(name: Seq<char>) -> DeliverStepView {
    if offenders(name).len() > 0 {
        failed(
            SendErrorView::RoomNameNotTypable {
                room: described(name),
                offenders: join(code_point_texts(offenders(name)), ", "@),
            },
        )
    } else {
        DeliverStepView::Ask(Deliver::Trust)
    }
}

/// The step after the room's window was found.
pub open spec fn with_window(goal: Goal) -> DeliverStepView {
    match goal {
        Goal::Resolve => DeliverStepView::Done(Ok(())),
        Goal::Text(_) => DeliverStepView::Ask(Deliver::ComposeBox),
        Goal::Draft(_) => DeliverStepView::Ask(Deliver::ComposeBox),
        Goal::Image(_) => DeliverStepView::Ask(Deliver::Save),
    }
}

/// The next look at whether an image was sent.
pub open spec fn watch_again(before: Option<usize>, looks: u8) -> DeliverStepView {
    if looks + 1 < IMAGE_LOOKS {
        DeliverStepView::Ask(Deliver::Watch { before, looks: (looks + 1) as u8 })
    } else {
        failed(SendErrorView::ImageNotSent)
    }
}

/// Whether a draft stands in what the box holds.
pub open spec fn staged(goal: Goal, value: Option<Seq<char>>) -> bool {
    match goal {
        Goal::Draft(text) => contains_text(
            match value {
                Some(value) => value,
                None => ""@,
            },
            text@,
        ),
        _ => false,
    }
}

/// The step after an event. An event that was not asked for changes nothing.
pub open spec fn deliver_next(
    goal: Goal,
    name: Seq<char>,
    state: Deliver,
    event: DeliverEventView,
) -> DeliverStepView {
    match (state, event) {
        (Deliver::Trust, DeliverEventView::Trusted(b)) => if !b {
            failed(SendErrorView::AccessibilityDenied)
        } else if goal is Image {
            DeliverStepView::Ask(Deliver::File)
        } else {
            DeliverStepView::Ask(Deliver::Process)
        },
        (Deliver::File, DeliverEventView::IsFile(b)) => match goal {
            Goal::Image(path) => if !b {
                failed(SendErrorView::ImageMissing(path@))
            } else if uti(path@) is None {
                failed(unsupported(path@))
            } else {
                DeliverStepView::Ask(Deliver::Process)
            },
            _ => DeliverStepView::Ask(Deliver::Process),
        },
        (Deliver::Process, DeliverEventView::Running(b)) => if b {
            DeliverStepView::Ask(Deliver::Window)
        } else {
            failed(SendErrorView::NotRunning)
        },
        (Deliver::Window, DeliverEventView::Resolved(r)) => on_ok(r, with_window(goal)),
        (Deliver::ComposeBox, DeliverEventView::HasBox(b)) => if !b {
            failed(SendErrorView::ComposeBoxNotFound(name))
        } else if goal is Text {
            DeliverStepView::Ask(Deliver::Write)
        } else {
            DeliverStepView::Ask(Deliver::Save)
        },
        (Deliver::Write, DeliverEventView::Written(code)) => if code != 0 {
            failed(SendErrorView::SetValueFailed(code))
        } else {
            DeliverStepView::Ask(Deliver::Enter { front: false })
        },
        (Deliver::Enter { front }, DeliverEventView::Pressed(r)) => on_ok(
            r,
            DeliverStepView::Ask(Deliver::Drain { front, looks: 0 }),
        ),
        (Deliver::Drain { front, looks }, DeliverEventView::Empty(b)) => if b {
            DeliverStepView::Done(Ok(()))
        } else if looks + 1 < if front {
            FRONT_DRAIN_LOOKS
        } else {
            DRAIN_LOOKS
        } {
            DeliverStepView::Ask(Deliver::Drain { front, looks: (looks + 1) as u8 })
        } else if front {
            failed(SendErrorView::NotSent)
        } else {
            DeliverStepView::Ask(Deliver::Screen { before: None })
        },
        (Deliver::Save, DeliverEventView::Saved(r)) => on_ok(
            r,
            DeliverStepView::Ask(Deliver::Put),
        ),
        (Deliver::Put, DeliverEventView::Put(r)) => on_ok(
            r,
            if goal is Image {
                DeliverStepView::Ask(Deliver::Count)
            } else {
                DeliverStepView::Ask(Deliver::Screen { before: None })
            },
        ),
        (Deliver::Count, DeliverEventView::Rows(before)) => DeliverStepView::Ask(
            Deliver::Screen { before },
        ),
        (Deliver::Screen { before }, DeliverEventView::Taken(r)) => on_ok(
            r,
            match goal {
                Goal::Text(_) => DeliverStepView::Ask(Deliver::Enter { front: true }),
                Goal::Image(_) => DeliverStepView::Ask(Deliver::Recheck { before }),
                _ => DeliverStepView::Ask(Deliver::Paste { before }),
            },
        ),
        (Deliver::Recheck { before }, DeliverEventView::Cancelled(b)) => if b {
            failed(SendErrorView::Cancelled)
        } else {
            DeliverStepView::Ask(Deliver::Paste { before })
        },
        (Deliver::Paste { before }, DeliverEventView::Pressed(r)) => on_ok(
            r,
            if goal is Image {
                DeliverStepView::Ask(Deliver::Watch { before, looks: 0 })
            } else {
                DeliverStepView::Ask(Deliver::Staged { looks: 0 })
            },
        ),
        (Deliver::Staged { looks }, DeliverEventView::Value(value)) => if staged(goal, value) {
            DeliverStepView::Done(Ok(()))
        } else if looks + 1 < DRAFT_LOOKS {
            DeliverStepView::Ask(Deliver::Staged { looks: (looks + 1) as u8 })
        } else {
            failed(SendErrorView::DraftNotStaged { room: name })
        },
        (Deliver::Watch { before, looks }, DeliverEventView::Cancelled(b)) => if b {
            failed(SendErrorView::CancelledAfterPaste)
        } else {
            DeliverStepView::Ask(Deliver::Sheet { before, looks })
        },
        (Deliver::Sheet { before, looks }, DeliverEventView::Sheet(b)) => if b {
            watch_again(before, looks)
        } else {
            DeliverStepView::Ask(Deliver::Recount { before, looks })
        },
        (Deliver::Recount { before, looks }, DeliverEventView::Rows(now)) => match (before, now) {
            (Some(b), Some(n)) => if n > b {
                DeliverStepView::Done(Ok(()))
            } else {
                watch_again(before, looks)
            },
            _ => DeliverStepView::Ask(Deliver::Consumed { before, looks }),
        },
        (Deliver::Consumed { before, looks }, DeliverEventView::Empty(b)) => if b {
            DeliverStepView::Done(Ok(()))
        } else {
            watch_again(before, looks)
        },
        _ => DeliverStepView::Ask(state),
    }
}

/// Exec form of [`on_ok`], for a next state.
fn ask_if_ok(r: Result<(), SendError>, next: Deliver) -> (step: DeliverStep)
    ensures
        step@ == on_ok(outcome(r), DeliverStepView::Ask(next)),
{
    match r {
        Ok(_) => DeliverStep::Ask(next),
        Err(error) => DeliverStep::Done(Err(error)),
    }
}

/// Exec form of [`watch_again`].
fn look_again(before: Option<usize>, looks: u8) -> (step: DeliverStep)
    ensures
        step@ == watch_again(before, looks),
{
    if looks < IMAGE_LOOKS - 1 {
        DeliverStep::Ask(Deliver::Watch { before, looks: looks + 1 })
    } else {
        DeliverStep::Done(Err(SendError::ImageNotSent))
    }
}

/// The first step of a delivery.
pub fn begin_delivery(target: &RoomTarget) -> (step: DeliverStep)
    ensures
        step@ == deliver_begun(target.name@),
{
    match validate_room_name(target.name.as_str()) {
        Ok(_) => DeliverStep::Ask(Deliver::Trust),
        Err(error) => DeliverStep::Done(Err(error)),
    }
}

/// The step after an event.
pub fn advance_delivery(
    goal: &Goal,
    target: &RoomTarget,
    state: Deliver,
    event: DeliverEvent,
) -> (step: DeliverStep)
    ensures
        step@ == deliver_next(*goal, target.name@, state, event@),
{
    let is_text: bool = match goal {
        Goal::Text(_) => true,
        _ => false,
    };
    let is_image: bool = match goal {
        Goal::Image(_) => true,
        _ => false,
    };
    match (state, event) {
        (Deliver::Trust, DeliverEvent::Trusted(b)) => if !b {
            DeliverStep::Done(Err(SendError::AccessibilityDenied))
        } else if is_image {
            DeliverStep::Ask(Deliver::File)
        } else {
            DeliverStep::Ask(Deliver::Process)
        },
        (Deliver::File, DeliverEvent::IsFile(b)) => match goal {
            Goal::Image(path) => if !b {
                DeliverStep::Done(Err(SendError::ImageMissing(owned(path.as_str()))))
            } else {
                match check_image_type(path.as_str()) {
                    Ok(_) => DeliverStep::Ask(Deliver::Process),
                    Err(error) => DeliverStep::Done(Err(error)),
                }
            },
            _ => DeliverStep::Ask(Deliver::Process),
        },
        (Deliver::Process, DeliverEvent::Running(b)) => if b {
            DeliverStep::Ask(Deliver::Window)
        } else {
            DeliverStep::Done(Err(SendError::NotRunning))
        },
        (Deliver::Window, DeliverEvent::Resolved(r)) => match r {
            Err(error) => DeliverStep::Done(Err(error)),
            Ok(_) => match goal {
                Goal::Resolve => DeliverStep::Done(Ok(())),
                Goal::Text(_) => DeliverStep::Ask(Deliver::ComposeBox),
                Goal::Draft(_) => DeliverStep::Ask(Deliver::ComposeBox),
                Goal::Image(_) => DeliverStep::Ask(Deliver::Save),
            },
        },
        (Deliver::ComposeBox, DeliverEvent::HasBox(b)) => if !b {
            DeliverStep::Done(Err(SendError::ComposeBoxNotFound(owned(target.name.as_str()))))
        } else if is_text {
            DeliverStep::Ask(Deliver::Write)
        } else {
            DeliverStep::Ask(Deliver::Save)
        },
        (Deliver::Write, DeliverEvent::Written(code)) => if code != 0 {
            DeliverStep::Done(Err(SendError::SetValueFailed(code)))
        } else {
            DeliverStep::Ask(Deliver::Enter { front: false })
        },
        (Deliver::Enter { front }, DeliverEvent::Pressed(r)) => ask_if_ok(
            r,
            Deliver::Drain { front, looks: 0 },
        ),
        (Deliver::Drain { front, looks }, DeliverEvent::Empty(b)) => {
            let limit: u8 = if front {
                FRONT_DRAIN_LOOKS
            } else {
                DRAIN_LOOKS
            };
            if b {
                DeliverStep::Done(Ok(()))
            } else if looks < limit - 1 {
                DeliverStep::Ask(Deliver::Drain { front, looks: looks + 1 })
            } else if front {
                DeliverStep::Done(Err(SendError::NotSent))
            } else {
                DeliverStep::Ask(Deliver::Screen { before: None })
            }
        },
        (Deliver::Save, DeliverEvent::Saved(r)) => ask_if_ok(r, Deliver::Put),
        (Deliver::Put, DeliverEvent::Put(r)) => if is_image {
            ask_if_ok(r, Deliver::Count)
        } else {
            ask_if_ok(r, Deliver::Screen { before: None })
        },
        (Deliver::Count, DeliverEvent::Rows(before)) => DeliverStep::Ask(
            Deliver::Screen { before },
        ),
        (Deliver::Screen { before }, DeliverEvent::Taken(r)) => if is_text {
            ask_if_ok(r, Deliver::Enter { front: true })
        } else if is_image {
            ask_if_ok(r, Deliver::Recheck { before })
        } else {
            ask_if_ok(r, Deliver::Paste { before })
        },
        (Deliver::Recheck { before }, DeliverEvent::Cancelled(b)) => if b {
            DeliverStep::Done(Err(SendError::Cancelled))
        } else {
            DeliverStep::Ask(Deliver::Paste { before })
        },
        (Deliver::Paste { before }, DeliverEvent::Pressed(r)) => if is_image {
            ask_if_ok(r, Deliver::Watch { before, looks: 0 })
        } else {
            ask_if_ok(r, Deliver::Staged { looks: 0 })
        },
        (Deliver::Staged { looks }, DeliverEvent::Value(value)) => {
            let stands: bool = match goal {
                Goal::Draft(text) => match &value {
                    Some(value) => text_contains(value.as_str(), text.as_str()),
                    None => text_contains("", text.as_str()),
                },
                _ => false,
            };
            if stands {
                DeliverStep::Done(Ok(()))
            } else if looks < DRAFT_LOOKS - 1 {
                DeliverStep::Ask(Deliver::Staged { looks: looks + 1 })
            } else {
                DeliverStep::Done(
                    Err(SendError::DraftNotStaged { room: owned(target.name.as_str()) }),
                )
            }
        },
        (Deliver::Watch { before, looks }, DeliverEvent::Cancelled(b)) => if b {
            DeliverStep::Done(Err(SendError::CancelledAfterPaste))
        } else {
            DeliverStep::Ask(Deliver::Sheet { before, looks })
        },
        (Deliver::Sheet { before, looks }, DeliverEvent::Sheet(b)) => if b {
            look_again(before, looks)
        } else {
            DeliverStep::Ask(Deliver::Recount { before, looks })
        },
        (Deliver::Recount { before, looks }, DeliverEvent::Rows(now)) => match (before, now) {
            (Some(b), Some(n)) => if n > b {
                DeliverStep::Done(Ok(()))
            } else {
                look_again(before, looks)
            },
            _ => DeliverStep::Ask(Deliver::Consumed { before, looks }),
        },
        (Deliver::Consumed { before, looks }, DeliverEvent::Empty(b)) => if b {
            DeliverStep::Done(Ok(()))
        } else {
            look_again(before, looks)
        },
        _ => DeliverStep::Ask(state),
    }
}

// ---------------------------------------------------------------------------
// Laws
// ---------------------------------------------------------------------------

/// Where a delivery stands after a sequence of events.
pub open spec fn deliver_run(
    goal: Goal,
    name: Seq<char>,
    events: Seq<DeliverEventView>,
) -> DeliverStepView
    decreases events.len(),
{
    if events.len() == 0 {
        deliver_begun(name)
    } else {
        match deliver_run(goal, name, events.drop_last()) {
            DeliverStepView::Ask(state) => deliver_next(goal, name, state, events.last()),
            done => done,
        }
    }
}

/// The room's window was found, with the permission granted and the client running.
pub open spec fn ready(events: Seq<DeliverEventView>) -> bool {
    &&& events.contains(DeliverEventView::Trusted(true))
    &&& events.contains(DeliverEventView::Running(true))
    &&& events.contains(DeliverEventView::Resolved(Ok(())))
}

/// The text was written into the box.
pub open spec fn was_written(events: Seq<DeliverEventView>) -> bool {
    ready(events) && events.contains(DeliverEventView::Written(0))
}

/// The clipboard was saved before it was written.
pub open spec fn was_put(events: Seq<DeliverEventView>) -> bool {
    ready(events) && events.contains(DeliverEventView::Saved(Ok(()))) && events.contains(
        DeliverEventView::Put(Ok(())),
    )
}

/// The screen was taken.
pub open spec fn was_taken(events: Seq<DeliverEventView>) -> bool {
    events.contains(DeliverEventView::Taken(Ok(())))
}

/// A key was pressed.
pub open spec fn was_pressed(events: Seq<DeliverEventView>) -> bool {
    events.contains(DeliverEventView::Pressed(Ok(())))
}

/// The rows that were counted, where there were any to count.
pub open spec fn was_counted(events: Seq<DeliverEventView>, before: Option<usize>) -> bool {
    before is Some ==> events.contains(DeliverEventView::Rows(before))
}

/// The transcript was seen to grow, or the box to be empty.
pub open spec fn image_landed(events: Seq<DeliverEventView>) -> bool {
    ||| events.contains(DeliverEventView::Empty(true))
    ||| exists|b: usize, n: usize|
        n > b && #[trigger] events.contains(DeliverEventView::Rows(Some(b)))
            && #[trigger] events.contains(DeliverEventView::Rows(Some(n)))
}

/// The draft was seen in the box.
pub open spec fn draft_landed(goal: Goal, events: Seq<DeliverEventView>) -> bool {
    exists|value: Option<Seq<char>>|
        staged(goal, value) && #[trigger] events.contains(DeliverEventView::Value(value))
}

/// What is known in each state of a delivery.
pub open spec fn known(goal: Goal, state: Deliver, events: Seq<DeliverEventView>) -> bool {
    match state {
        Deliver::Trust => true,
        Deliver::File => events.contains(DeliverEventView::Trusted(true)),
        Deliver::Process => events.contains(DeliverEventView::Trusted(true)),
        Deliver::Window => events.contains(DeliverEventView::Trusted(true)) && events.contains(
            DeliverEventView::Running(true),
        ),
        Deliver::ComposeBox => ready(events) && (goal is Text || goal is Draft),
        Deliver::Write => ready(events) && goal is Text,
        Deliver::Enter { front } => was_written(events) && goal is Text && (front ==> was_taken(
            events,
        )),
        Deliver::Drain { front, looks } => was_written(events) && goal is Text && was_pressed(
            events,
        ),
        Deliver::Save => ready(events) && (goal is Draft || goal is Image),
        Deliver::Put => ready(events) && (goal is Draft || goal is Image) && events.contains(
            DeliverEventView::Saved(Ok(())),
        ),
        Deliver::Count => was_put(events) && goal is Image,
        Deliver::Screen { before } => ready(events) && was_counted(events, before) && (goal is Text
            || goal is Draft || goal is Image) && (goal is Text ==> was_written(events)) && (
        !(goal is Text) ==> was_put(events)),
        Deliver::Recheck { before } => was_put(events) && goal is Image && was_taken(events)
            && was_counted(events, before),
        Deliver::Paste { before } => was_put(events) && (goal is Draft || goal is Image)
            && was_taken(events) && was_counted(events, before) && (goal is Image
            ==> events.contains(DeliverEventView::Cancelled(false))),
        Deliver::Staged { looks } => was_put(events) && goal is Draft && was_taken(events)
            && was_pressed(events),
        Deliver::Watch { before, looks } => image_pasted(goal, events, before),
        Deliver::Sheet { before, looks } => image_pasted(goal, events, before),
        Deliver::Recount { before, looks } => image_pasted(goal, events, before),
        Deliver::Consumed { before, looks } => image_pasted(goal, events, before),
    }
}

/// The image was pasted, after the send was found not to be cancelled.
pub open spec fn image_pasted(
    goal: Goal,
    events: Seq<DeliverEventView>,
    before: Option<usize>,
) -> bool {
    &&& goal is Image
    &&& was_put(events)
    &&& was_taken(events)
    &&& was_pressed(events)
    &&& was_counted(events, before)
    &&& events.contains(DeliverEventView::Cancelled(false))
}

/// What success means.
pub open spec fn delivered(goal: Goal, events: Seq<DeliverEventView>) -> bool {
    match goal {
        Goal::Resolve => ready(events),
        Goal::Text(_) => was_written(events) && was_pressed(events) && events.contains(
            DeliverEventView::Empty(true),
        ),
        Goal::Draft(_) => was_put(events) && was_taken(events) && was_pressed(events)
            && draft_landed(goal, events),
        Goal::Image(_) => was_put(events) && was_taken(events) && was_pressed(events)
            && events.contains(DeliverEventView::Cancelled(false)) && image_landed(events),
    }
}

/// What was known stays known.
proof fn lemma_known_stays(
    goal: Goal,
    state: Deliver,
    events: Seq<DeliverEventView>,
    event: DeliverEventView,
)
    requires
        known(goal, state, events),
    ensures
        known(goal, state, events.push(event)),
        forall|e: DeliverEventView| events.contains(e) ==> #[trigger] events.push(event).contains(e),
        events.push(event).contains(event),
{
    let more = events.push(event);
    assert forall|e: DeliverEventView| events.contains(e) implies #[trigger] more.contains(e) by {
        let i = choose|i: int| 0 <= i < events.len() && events[i] == e;
        assert(more[i] == e);
    }
    assert(more[events.len() as int] == event);
}

/// There is one success without a value.
proof fn lemma_ok(r: Result<(), SendErrorView>)
    ensures
        r is Ok ==> r == Ok::<(), SendErrorView>(()),
{
    if let Ok(unit) = r {
        assert(unit == ());
    }
}

/// Every state is reached with what is known in it, and success with what it means.
proof fn lemma_deliver_run(goal: Goal, name: Seq<char>, events: Seq<DeliverEventView>)
    ensures
        match deliver_run(goal, name, events) {
            DeliverStepView::Ask(state) => known(goal, state, events),
            DeliverStepView::Done(r) => r is Ok ==> delivered(goal, events),
        },
    decreases events.len(),
{
    if events.len() > 0 {
        let front = events.drop_last();
        let event = events.last();
        lemma_deliver_run(goal, name, front);
        assert(front.push(event) == events);
        match deliver_run(goal, name, front) {
            DeliverStepView::Ask(state) => {
                lemma_known_stays(goal, state, front, event);
                if let DeliverEventView::Value(value) = event {
                    if staged(goal, value) {
                        assert(events.contains(DeliverEventView::Value(value)));
                    }
                }
                match event {
                    DeliverEventView::Resolved(r) => lemma_ok(r),
                    DeliverEventView::Pressed(r) => lemma_ok(r),
                    DeliverEventView::Saved(r) => lemma_ok(r),
                    DeliverEventView::Put(r) => lemma_ok(r),
                    DeliverEventView::Taken(r) => lemma_ok(r),
                    _ => {},
                }
                match (state, event) {
                    (Deliver::Recount { before, looks }, DeliverEventView::Rows(now)) => {
                        if let (Some(b), Some(n)) = (before, now) {
                            assert(events.contains(DeliverEventView::Rows(Some(b))));
                            assert(events.contains(DeliverEventView::Rows(Some(n))));
                        }
                    },
                    _ => {},
                }
            },
            DeliverStepView::Done(r) => {
                if r is Ok {
                    assert forall|e: DeliverEventView| front.contains(e) implies #[trigger]
                        events.contains(e) by {
                        let i = choose|i: int| 0 <= i < front.len() && front[i] == e;
                        assert(events[i] == e);
                    }
                    if goal is Draft {
                        let value = choose|value: Option<Seq<char>>|
                            staged(goal, value) && #[trigger] front.contains(
                                DeliverEventView::Value(value),
                            );
                        assert(events.contains(DeliverEventView::Value(value)));
                    }
                    if goal is Image && !front.contains(DeliverEventView::Empty(true)) {
                        let (b, n) = choose|b: usize, n: usize|
                            n > b && #[trigger] front.contains(DeliverEventView::Rows(Some(b)))
                                && #[trigger] front.contains(DeliverEventView::Rows(Some(n)));
                        assert(events.contains(DeliverEventView::Rows(Some(b))));
                        assert(events.contains(DeliverEventView::Rows(Some(n))));
                    }
                }
            },
        }
    }
}

/// Success is claimed only for what was seen: a text whose box emptied after
/// it was written, a draft that stands in the box, an image after which the
/// transcript grew or, where it could not be counted, the box was empty.
pub proof fn law_success_was_seen(goal: Goal, name: Seq<char>, events: Seq<DeliverEventView>)
    ensures
        deliver_run(goal, name, events) == DeliverStepView::Done(Ok::<(), SendErrorView>(()))
            ==> delivered(goal, events),
{
    lemma_deliver_run(goal, name, events);
}

/// A draft is never written into the box and no Enter is pressed for it:
/// writing is sending.
pub proof fn law_draft_is_not_sent(goal: Goal, name: Seq<char>, events: Seq<DeliverEventView>)
    requires
        goal is Draft,
    ensures
        deliver_run(goal, name, events) != DeliverStepView::Ask(Deliver::Write),
        !(deliver_run(goal, name, events) matches DeliverStepView::Ask(Deliver::Enter { front })),
{
    lemma_deliver_run(goal, name, events);
}

/// Resolving a room asks for nothing that changes the client: no text is
/// written, no key pressed, no clipboard touched.
pub proof fn law_resolving_touches_nothing(name: Seq<char>, events: Seq<DeliverEventView>)
    ensures
        deliver_run(Goal::Resolve, name, events) matches DeliverStepView::Ask(state) ==> (state
            == Deliver::Trust || state == Deliver::File || state == Deliver::Process || state
            == Deliver::Window),
{
    lemma_deliver_run(Goal::Resolve, name, events);
}

/// A key that goes to whatever is in front is asked for only with the screen
/// taken, and the clipboard is written only once it was saved.
pub proof fn law_front_keys_need_the_screen(
    goal: Goal,
    name: Seq<char>,
    events: Seq<DeliverEventView>,
)
    ensures
        deliver_run(goal, name, events) == DeliverStepView::Ask(Deliver::Enter { front: true })
            ==> was_taken(events),
        deliver_run(goal, name, events) matches DeliverStepView::Ask(Deliver::Paste { before })
            ==> was_taken(events),
        deliver_run(goal, name, events) == DeliverStepView::Ask(Deliver::Put) ==> events.contains(
            DeliverEventView::Saved(Ok(())),
        ),
{
    lemma_deliver_run(goal, name, events);
}

/// An image that was not pasted is reported as cancelled; one that was pasted
/// is not reported as if nothing had been sent.
pub proof fn law_cancelling_is_told_apart(
    goal: Goal,
    name: Seq<char>,
    before: Option<usize>,
    looks: u8,
)
    ensures
        deliver_next(goal, name, Deliver::Recheck { before }, DeliverEventView::Cancelled(true))
            == failed(SendErrorView::Cancelled),
        deliver_next(
            goal,
            name,
            Deliver::Watch { before, looks },
            DeliverEventView::Cancelled(true),
        ) == failed(SendErrorView::CancelledAfterPaste),
{
}

/// A name that cannot be typed is refused before anything is asked for.
pub proof fn law_untypable_names_touch_nothing(
    goal: Goal,
    name: Seq<char>,
    events: Seq<DeliverEventView>,
)
    requires
        offenders(name).len() > 0,
    ensures
        deliver_run(goal, name, events) == deliver_begun(name),
        deliver_begun(name) matches DeliverStepView::Done(Err(error)) && error is RoomNameNotTypable,
    decreases events.len(),
{
    if events.len() > 0 {
        law_untypable_names_touch_nothing(goal, name, events.drop_last());
    }
}

proof fn lemma_one_more(
    goal: Goal,
    name: Seq<char>,
    events: Seq<DeliverEventView>,
    event: DeliverEventView,
)
    ensures
        deliver_run(goal, name, events.push(event)) == match deliver_run(goal, name, events) {
            DeliverStepView::Ask(state) => deliver_next(goal, name, state, event),
            done => done,
        },
{
    assert(events.push(event).drop_last() =~= events);
}

/// What a room answers when all goes well, up to its window.
pub open spec fn at_the_window() -> Seq<DeliverEventView> {
    seq![
        DeliverEventView::Trusted(true),
        DeliverEventView::Running(true),
        DeliverEventView::Resolved(Ok(())),
    ]
}

proof fn lemma_at_the_window(goal: Goal, name: Seq<char>)
    requires
        offenders(name).len() == 0,
        !(goal is Image),
    ensures
        deliver_run(goal, name, at_the_window()) == with_window(goal),
{
    let e0 = Seq::<DeliverEventView>::empty();
    let e1 = e0.push(DeliverEventView::Trusted(true));
    let e2 = e1.push(DeliverEventView::Running(true));
    assert(deliver_run(goal, name, e0) == DeliverStepView::Ask(Deliver::Trust));
    lemma_one_more(goal, name, e0, DeliverEventView::Trusted(true));
    lemma_one_more(goal, name, e1, DeliverEventView::Running(true));
    lemma_one_more(goal, name, e2, DeliverEventView::Resolved(Ok(())));
    assert(e2.push(DeliverEventView::Resolved(Ok(()))) =~= at_the_window());
}

/// A room that can be typed and whose window is found is resolved.
pub proof fn law_a_room_is_resolved(name: Seq<char>)
    requires
        offenders(name).len() == 0,
    ensures
        deliver_run(Goal::Resolve, name, at_the_window()) == DeliverStepView::Done(
            Ok::<(), SendErrorView>(()),
        ),
{
    lemma_at_the_window(Goal::Resolve, name);
}

/// A text is delivered where the window has a box, the text is written into it,
/// Enter is pressed and the box is seen empty; and it is asked for just that.
pub proof fn law_a_text_is_delivered(text: String, name: Seq<char>)
    requires
        offenders(name).len() == 0,
    ensures
        ({
            let goal = Goal::Text(text);
            let boxed = at_the_window().push(DeliverEventView::HasBox(true));
            let written = boxed.push(DeliverEventView::Written(0));
            let pressed = written.push(DeliverEventView::Pressed(Ok(())));
            &&& deliver_run(goal, name, at_the_window()) == DeliverStepView::Ask(
                Deliver::ComposeBox,
            )
            &&& deliver_run(goal, name, boxed) == DeliverStepView::Ask(Deliver::Write)
            &&& deliver_run(goal, name, written) == DeliverStepView::Ask(
                Deliver::Enter { front: false },
            )
            &&& deliver_run(goal, name, pressed) == DeliverStepView::Ask(
                Deliver::Drain { front: false, looks: 0 },
            )
            &&& deliver_run(goal, name, pressed.push(DeliverEventView::Empty(true)))
                == DeliverStepView::Done(Ok::<(), SendErrorView>(()))
        }),
{
    let goal = Goal::Text(text);
    let boxed = at_the_window().push(DeliverEventView::HasBox(true));
    let written = boxed.push(DeliverEventView::Written(0));
    let pressed = written.push(DeliverEventView::Pressed(Ok(())));
    lemma_at_the_window(goal, name);
    lemma_one_more(goal, name, at_the_window(), DeliverEventView::HasBox(true));
    lemma_one_more(goal, name, boxed, DeliverEventView::Written(0));
    lemma_one_more(goal, name, written, DeliverEventView::Pressed(Ok(())));
    lemma_one_more(goal, name, pressed, DeliverEventView::Empty(true));
}

/// A draft is left where the clipboard is saved and takes it, the screen is taken,
/// the draft is pasted and the box is seen to hold it, whatever else it holds.
pub proof fn law_a_draft_is_left(
    text: String,
    name: Seq<char>,
    before: Seq<char>,
    behind: Seq<char>,
)
    requires
        offenders(name).len() == 0,
    ensures
        ({
            let goal = Goal::Draft(text);
            let boxed = at_the_window().push(DeliverEventView::HasBox(true));
            let put = boxed.push(DeliverEventView::Saved(Ok(()))).push(
                DeliverEventView::Put(Ok(())),
            );
            let pasted = put.push(DeliverEventView::Taken(Ok(()))).push(
                DeliverEventView::Pressed(Ok(())),
            );
            &&& deliver_run(goal, name, boxed) == DeliverStepView::Ask(Deliver::Save)
            &&& deliver_run(goal, name, put) == DeliverStepView::Ask(
                Deliver::Screen { before: None },
            )
            &&& deliver_run(goal, name, pasted) == DeliverStepView::Ask(
                Deliver::Staged { looks: 0 },
            )
            &&& deliver_run(
                goal,
                name,
                pasted.push(DeliverEventView::Value(Some(before + text@ + behind))),
            ) == DeliverStepView::Done(Ok::<(), SendErrorView>(()))
        }),
{
    let goal = Goal::Draft(text);
    let boxed = at_the_window().push(DeliverEventView::HasBox(true));
    let saved = boxed.push(DeliverEventView::Saved(Ok(())));
    let put = saved.push(DeliverEventView::Put(Ok(())));
    let taken = put.push(DeliverEventView::Taken(Ok(())));
    let pasted = taken.push(DeliverEventView::Pressed(Ok(())));
    lemma_at_the_window(goal, name);
    lemma_one_more(goal, name, at_the_window(), DeliverEventView::HasBox(true));
    lemma_one_more(goal, name, boxed, DeliverEventView::Saved(Ok(())));
    lemma_one_more(goal, name, saved, DeliverEventView::Put(Ok(())));
    lemma_one_more(goal, name, put, DeliverEventView::Taken(Ok(())));
    lemma_one_more(goal, name, taken, DeliverEventView::Pressed(Ok(())));
    lemma_one_more(
        goal,
        name,
        pasted,
        DeliverEventView::Value(Some(before + text@ + behind)),
    );
    law_a_text_holds_its_middle(before, text@, behind);
}

/// A pasted image is delivered where the transcript has more rows than before the
/// paste, or, where rows cannot be counted, where the box is empty; a sheet is only
/// looked at again.
pub proof fn law_a_pasted_image_is_delivered(
    path: String,
    name: Seq<char>,
    before: Option<usize>,
    now: Option<usize>,
    looks: u8,
)
    ensures
        ({
            let goal = Goal::Image(path);
            let counted = deliver_next(
                goal,
                name,
                Deliver::Recount { before, looks },
                DeliverEventView::Rows(now),
            );
            &&& counted == DeliverStepView::Done(Ok::<(), SendErrorView>(())) <==> (
            before matches Some(b) && now matches Some(n) && n > b)
            &&& counted == DeliverStepView::Ask(Deliver::Consumed { before, looks }) <==> before
                is None || now is None
            &&& deliver_next(
                goal,
                name,
                Deliver::Consumed { before, looks },
                DeliverEventView::Empty(true),
            ) == DeliverStepView::Done(Ok::<(), SendErrorView>(()))
            &&& deliver_next(
                goal,
                name,
                Deliver::Watch { before, looks },
                DeliverEventView::Cancelled(false),
            ) == DeliverStepView::Ask(Deliver::Sheet { before, looks })
            &&& deliver_next(
                goal,
                name,
                Deliver::Sheet { before, looks },
                DeliverEventView::Sheet(false),
            ) == DeliverStepView::Ask(Deliver::Recount { before, looks })
            &&& looks < 39 ==> deliver_next(
                goal,
                name,
                Deliver::Sheet { before, looks },
                DeliverEventView::Sheet(true),
            ) == DeliverStepView::Ask(Deliver::Watch { before, looks: (looks + 1) as u8 })
            &&& deliver_next(goal, name, Deliver::Count, DeliverEventView::Rows(now))
                == DeliverStepView::Ask(Deliver::Screen { before: now })
        }),
{
}

/// Each refusal is reported as what it is: the permission, the client, the file,
/// its type, the box, the status of writing; and what a step failed with is handed
/// on unchanged.
pub proof fn law_refusals_are_reported(
    goal: Goal,
    name: Seq<char>,
    code: i32,
    error: SendErrorView,
    front: bool,
    before: Option<usize>,
)
    ensures
        deliver_next(goal, name, Deliver::Trust, DeliverEventView::Trusted(false)) == failed(
            SendErrorView::AccessibilityDenied,
        ),
        deliver_next(goal, name, Deliver::Process, DeliverEventView::Running(false)) == failed(
            SendErrorView::NotRunning,
        ),
        goal matches Goal::Image(path) ==> deliver_next(
            goal,
            name,
            Deliver::File,
            DeliverEventView::IsFile(false),
        ) == failed(SendErrorView::ImageMissing(path@)),
        goal matches Goal::Image(path) ==> (deliver_next(
            goal,
            name,
            Deliver::File,
            DeliverEventView::IsFile(true),
        ) == DeliverStepView::Ask(Deliver::Process) <==> uti(path@) is Some),
        deliver_next(goal, name, Deliver::ComposeBox, DeliverEventView::HasBox(false)) == failed(
            SendErrorView::ComposeBoxNotFound(name),
        ),
        code != 0 ==> deliver_next(goal, name, Deliver::Write, DeliverEventView::Written(code))
            == failed(SendErrorView::SetValueFailed(code)),
        deliver_next(goal, name, Deliver::Window, DeliverEventView::Resolved(Err(error)))
            == failed(error),
        deliver_next(goal, name, Deliver::Enter { front }, DeliverEventView::Pressed(Err(error)))
            == failed(error),
        deliver_next(goal, name, Deliver::Save, DeliverEventView::Saved(Err(error))) == failed(
            error,
        ),
        deliver_next(goal, name, Deliver::Put, DeliverEventView::Put(Err(error))) == failed(error),
        deliver_next(goal, name, Deliver::Screen { before }, DeliverEventView::Taken(Err(error)))
            == failed(error),
        deliver_next(goal, name, Deliver::Paste { before }, DeliverEventView::Pressed(Err(error)))
            == failed(error),
{
}

/// Every look that does not see the message gone, or the draft there, is counted;
/// after the last one a text is pressed again with the client in front, and only
/// then given up.
pub proof fn law_looks_are_counted(goal: Goal, name: Seq<char>, front: bool, looks: u8)
    ensures
        deliver_next(
            goal,
            name,
            Deliver::Drain { front, looks },
            DeliverEventView::Empty(true),
        ) == DeliverStepView::Done(Ok::<(), SendErrorView>(())),
        looks < 19 || (front && looks < 29) ==> deliver_next(
            goal,
            name,
            Deliver::Drain { front, looks },
            DeliverEventView::Empty(false),
        ) == DeliverStepView::Ask(Deliver::Drain { front, looks: (looks + 1) as u8 }),
        looks >= 19 ==> deliver_next(
            goal,
            name,
            Deliver::Drain { front: false, looks },
            DeliverEventView::Empty(false),
        ) == DeliverStepView::Ask(Deliver::Screen { before: None }),
        looks >= 29 ==> deliver_next(
            goal,
            name,
            Deliver::Drain { front: true, looks },
            DeliverEventView::Empty(false),
        ) == failed(SendErrorView::NotSent),
        goal is Text ==> deliver_next(
            goal,
            name,
            Deliver::Screen { before: None },
            DeliverEventView::Taken(Ok(())),
        ) == DeliverStepView::Ask(Deliver::Enter { front: true }),
{
}

/// A draft stands in a box only where all of it does.
pub proof fn law_a_draft_stands_whole(text: String, value: Seq<char>)
    ensures
        value.len() < text@.len() ==> !staged(Goal::Draft(text), Some(value)),
        text@.len() > 0 ==> !staged(Goal::Draft(text), None),
        staged(Goal::Draft(text), Some(text@)),
{
    reveal_strlit("");
    law_a_text_holds_its_middle(value, text@, Seq::empty());
    law_a_text_holds_its_middle(""@, text@, Seq::empty());
    law_a_text_holds_its_middle(Seq::empty(), text@, Seq::empty());
    assert(Seq::<char>::empty() + text@ + Seq::<char>::empty() =~= text@);
}

/// An image is of the type that its extension names, in any case: the identifier
/// ends in the extension, or in the long form of a short one. Nothing else about
/// the path matters.
pub proof fn law_the_extension_names_the_type(path: Seq<char>, other: Seq<char>)
    ensures
        extension(path) == extension(other) ==> uti(path) == uti(other),
        extension(path) is None ==> uti(path) is None,
        uti(path) matches Some(id) ==> (extension(path) matches Some(ext) && ({
            let e = ascii_lower_seq(ext);
            let long = if e == "jpg"@ {
                "jpeg"@
            } else if e == "tif"@ {
                "tiff"@
            } else {
                e
            };
            id.len() > long.len() && id.skip(id.len() - long.len()) == long && id[id.len()
                - long.len() - 1] == '.'
        })),
{
    reveal_strlit("png");
    reveal_strlit("public.png");
    reveal_strlit("jpg");
    reveal_strlit("jpeg");
    reveal_strlit("public.jpeg");
    reveal_strlit("gif");
    reveal_strlit("com.compuserve.gif");
    reveal_strlit("tif");
    reveal_strlit("tiff");
    reveal_strlit("public.tiff");
    reveal_strlit("bmp");
    reveal_strlit("com.microsoft.bmp");
    reveal_strlit("heic");
    reveal_strlit("public.heic");
    reveal_strlit("webp");
    reveal_strlit("org.webmproject.webp");
    assert("png"@[0] == 'p' && "jpg"@[0] == 'j' && "jpeg"@.len() == 4 && "gif"@[0] == 'g'
        && "tif"@[0] == 't' && "tiff"@.len() == 4 && "bmp"@[0] == 'b' && "heic"@.len() == 4
        && "webp"@.len() == 4);
    assert("public.png"@.skip(7) =~= "png"@);
    assert("public.jpeg"@.skip(7) =~= "jpeg"@);
    assert("com.compuserve.gif"@.skip(15) =~= "gif"@);
    assert("public.tiff"@.skip(7) =~= "tiff"@);
    assert("com.microsoft.bmp"@.skip(14) =~= "bmp"@);
    assert("public.heic"@.skip(7) =~= "heic"@);
    assert("org.webmproject.webp"@.skip(16) =~= "webp"@);
}

/// The curtain names the room, and of an image the file.
pub proof fn law_the_curtain_names_the_room(goal: Goal, name: Seq<char>)
    ensures
        subtitle(goal, name).len() > name.len(),
        subtitle(goal, name).take(name.len() as int) == name,
        goal matches Goal::Image(path) ==> subtitle(goal, name).skip(
            subtitle(goal, name).len() - attachment_text(path@).len(),
        ) == attachment_text(path@),
{
    reveal_strlit(" 채팅방 여는 중");
    reveal_strlit(" 로 전송 중");
    reveal_strlit(" 초안 작성 중");
    reveal_strlit(" · ");
    assert(subtitle(goal, name).take(name.len() as int) =~= name);
    if let Goal::Image(path) = goal {
        assert(subtitle(goal, name).skip(
            subtitle(goal, name).len() - attachment_text(path@).len(),
        ) =~= attachment_text(path@));
    }
}

} // verus!
