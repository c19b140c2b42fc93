//! The curtain that covers the screen while a send drives the client.
//!
//! While the curtain is up, input is taken away from whoever uses the machine,
//! visibly, so that no key of theirs lands in a window that they did not mean.
//! What a key or a click does then, and when the curtain goes up and down, is
//! decided here. Drawing it, and tapping the input, is left to the caller.

use crate::text::owned;
use crate::text::path::{
    file_name, file_name_of, law_the_last_component_is_the_name, lemma_file_name_is_plain,
};
use vstd::prelude::*;

verus! {

/// The mark on every input event that this process makes itself.
pub const SYNTHETIC_EVENT_TAG: i64 = 0x4B41_544F_4B01;

/// The key that cancels.
pub const ESC_KEYCODE: i64 = 53;

/// Frames of the spinner.
pub const SPINNER_FRAMES: u64 = 8;

/// Whether whoever uses the machine asked to stop. There is one flag to a send:
/// it is lent, never copied, so that whoever looks at it sees it raised.
#[derive(Debug, PartialEq, Eq, Structural)]
pub struct CancelFlag {
    pub cancelled: bool,
}

impl Default for CancelFlag {
    fn default() -> (flag: Self)
        ensures
            !flag.cancelled,
    {
        CancelFlag { cancelled: false }
    }
}

impl CancelFlag {
    /// A flag that is not raised.
    pub fn new() -> (flag: Self)
        ensures
            !flag.cancelled,
    {
        CancelFlag { cancelled: false }
    }

    /// Whether the flag is raised.
    pub fn is_cancelled(&self) -> (r: bool)
        ensures
            r == self.cancelled,
    {
        self.cancelled
    }

    /// Raises the flag. Nothing takes it back.
    pub fn cancel(&mut self)
        ensures
            final(self).cancelled,
    {
        self.cancelled = true;
    }
}

/// What the curtain is asked to do.
#[derive(Debug)]
pub struct CurtainControl {
    pub shown: bool,
    pub subtitle: String,
    /// Counts the times that the curtain was asked to go up, modulo its width.
    pub revision: u64,
    pub cancel: CancelFlag,
}

impl CurtainControl {
    /// A curtain that is down.
    pub fn new() -> (control: Self)
        ensures
            !control.shown,
            control.subtitle@.len() == 0,
            control.revision == 0,
            !control.cancel.cancelled,
    {
        CurtainControl {
            shown: false,
            subtitle: String::new(),
            revision: 0,
            cancel: CancelFlag::new(),
        }
    }

    /// Asks for the curtain with a subtitle.
    pub fn show(&mut self, subtitle: &str)
        ensures
            final(self).shown,
            final(self).subtitle@ == subtitle@,
            final(self).revision == (old(self).revision + 1) % 0x1_0000_0000_0000_0000,
            final(self).cancel == old(self).cancel,
    {
        self.subtitle = owned(subtitle);
        self.revision = self.revision.wrapping_add(1);
        self.shown = true;
    }

    /// Asks for the curtain to go down.
    pub fn lower(&mut self)
        ensures
            !final(self).shown,
            final(self).subtitle == old(self).subtitle,
            final(self).revision == old(self).revision,
            final(self).cancel == old(self).cancel,
    {
        self.shown = false;
    }

    /// The flag of the send.
    pub fn cancel_flag(&self) -> (flag: &CancelFlag)
        ensures
            *flag == self.cancel,
    {
        &self.cancel
    }

    /// Whether the send was asked to stop.
    pub fn is_cancelled(&self) -> (r: bool)
        ensures
            r == self.cancel.cancelled,
    {
        self.cancel.is_cancelled()
    }
}

/// An input event, as far as the tap tells it apart.
#[derive(Debug, Clone, Copy, PartialEq, Eq, Structural)]
pub enum Input {
    KeyDown { code: i64 },
    /// A press of the left button, inside the cancel button or not.
    LeftDown { inside_cancel: bool },
    Other,
}

/// What happens to an input event.
#[derive(Debug, Clone, Copy, PartialEq, Eq, Structural)]
pub enum Verdict {
    /// It reaches the client or whatever else is in front.
    Keep,
    /// It is swallowed.
    Drop,
    /// It is swallowed, and the send is asked to stop.
    DropAndCancel,
}

/// What happens to an input event: an event of this process, or one while the
/// curtain is down, passes; any other is swallowed, and the escape key and the
/// cancel button ask the send to stop.
pub open spec fn verdict(tag: i64, armed: bool, input: Input) -> Verdict {
    if tag == SYNTHETIC_EVENT_TAG || !armed {
        Verdict::Keep
    } else if input == (Input::KeyDown { code: ESC_KEYCODE }) || input == (Input::LeftDown {
        inside_cancel: true,
    }) {
        Verdict::DropAndCancel
    } else {
        Verdict::Drop
    }
}

/// What happens to an input event with the mark `tag`, while the curtain is up (`armed`) or down.
pub fn judge_input(tag: i64, armed: bool, input: Input) -> (r: Verdict)
    ensures
        r == verdict(tag, armed, input),
{
    if tag == SYNTHETIC_EVENT_TAG || !armed {
        return Verdict::Keep;
    }
    match input {
        Input::KeyDown { code } => if code == ESC_KEYCODE {
            Verdict::DropAndCancel
        } else {
            Verdict::Drop
        },
        Input::LeftDown { inside_cancel } => if inside_cancel {
            Verdict::DropAndCancel
        } else {
            Verdict::Drop
        },
        Input::Other => Verdict::Drop,
    }
}

/// What the pump of the curtain has drawn so far.
#[derive(Debug, Clone, Copy, PartialEq, Eq, Structural)]
pub struct Drawn {
    pub visible: bool,
    pub revision: u64,
}

/// What the pump does with one frame.
#[derive(Debug, Clone, Copy, PartialEq, Eq, Structural)]
pub enum Pump {
    /// Draws the curtain with its subtitle, and arms the tap.
    Show,
    /// Takes the curtain down, and disarms the tap.
    Hide,
    /// Moves the spinner.
    Tick,
    Nothing,
}

/// What one frame does, and what is drawn after it.
pub open spec fn pumped(shown: bool, revision: u64, drawn: Drawn) -> (Pump, Drawn) {
    if shown && (!drawn.visible || revision != drawn.revision) {
        (Pump::Show, Drawn { visible: true, revision })
    } else if !shown && drawn.visible {
        (Pump::Hide, Drawn { visible: false, revision: drawn.revision })
    } else if drawn.visible {
        (Pump::Tick, drawn)
    } else {
        (Pump::Nothing, drawn)
    }
}

/// What one frame of the pump does, and what is drawn after it.
pub fn pump_frame(control: &CurtainControl, drawn: Drawn) -> (r: (Pump, Drawn))
    ensures
        r == pumped(control.shown, control.revision, drawn),
{
    if control.shown && (!drawn.visible || control.revision != drawn.revision) {
        (Pump::Show, Drawn { visible: true, revision: control.revision })
    } else if !control.shown && drawn.visible {
        (Pump::Hide, Drawn { visible: false, revision: drawn.revision })
    } else if drawn.visible {
        (Pump::Tick, drawn)
    } else {
        (Pump::Nothing, drawn)
    }
}

/// The frame of the spinner after so many milliseconds: a new one every 90.
pub fn spinner_frame(elapsed_ms: u64) -> (frame: usize)
    ensures
        frame == (elapsed_ms / 90) % SPINNER_FRAMES,
        frame < SPINNER_FRAMES,
{
    ((elapsed_ms / 90) % SPINNER_FRAMES) as usize
}

// ---------------------------------------------------------------------------
// Attachments
// ---------------------------------------------------------------------------

/// What the curtain says of an attachment: the name of the file, and never its directory.
pub open spec fn attachment_text(path: Seq<char>) -> Seq<char> {
    match file_name(path) {
        Some(name) => name,
        None => "첨부 파일"@,
    }
}

/// What the curtain says of the attachment at `path`.
pub fn attachment_label(path: &str) -> (label: String)
    ensures
        label@ == attachment_text(path@),
{
    match file_name_of(path) {
        Some(name) => name,
        None => owned("첨부 파일"),
    }
}

// ---------------------------------------------------------------------------
// Laws
// ---------------------------------------------------------------------------

/// While the curtain is down no input is swallowed, and what this process makes
/// itself always passes; while it is up, everything else is swallowed.
pub proof fn law_input_is_blocked_only_behind_the_curtain(tag: i64, armed: bool, input: Input)
    ensures
        verdict(tag, armed, input) == Verdict::Keep <==> (tag == SYNTHETIC_EVENT_TAG || !armed),
{
}

/// After every frame the curtain is visible exactly where it was asked for,
/// and a frame without a new request draws nothing again.
pub proof fn law_pump_follows_the_request(shown: bool, revision: u64, drawn: Drawn)
    ensures
        pumped(shown, revision, drawn).1.visible == shown,
        pumped(shown, revision, pumped(shown, revision, drawn).1).0 != Pump::Show,
        pumped(shown, revision, pumped(shown, revision, drawn).1).0 != Pump::Hide,
{
}

/// What is said of an attachment holds no slash: it shows no directory.
pub proof fn law_attachment_label_shows_no_directory(path: Seq<char>)
    ensures
        file_name(path) matches Some(name) ==> !name.contains('/'),
{
    lemma_file_name_is_plain(path);
}

/// Whoever uses the machine can always stop a send: the escape key and the cancel
/// button do so while the curtain is up, and nothing else does.
pub proof fn law_only_escape_and_the_button_cancel(tag: i64, armed: bool, input: Input)
    ensures
        verdict(tag, armed, input) == Verdict::DropAndCancel <==> armed && tag
            != SYNTHETIC_EVENT_TAG && (match input {
            Input::KeyDown { code } => code == ESC_KEYCODE,
            Input::LeftDown { inside_cancel } => inside_cancel,
            Input::Other => false,
        }),
{
}

/// The curtain is drawn exactly where it is not on the screen as it was last asked
/// for, and taken down exactly where it is there unasked; the spinner moves only
/// on a curtain that stays.
pub proof fn law_a_frame_does_what_is_asked(shown: bool, revision: u64, drawn: Drawn)
    ensures
        ({
            let (pump, after) = pumped(shown, revision, drawn);
            &&& pump == Pump::Show <==> shown && drawn != (Drawn { visible: true, revision })
            &&& pump == Pump::Show ==> after.revision == revision
            &&& pump == Pump::Hide <==> drawn.visible && !shown
            &&& pump == Pump::Tick <==> shown && drawn == (Drawn { visible: true, revision })
            &&& pump != Pump::Show ==> after.revision == drawn.revision
        }),
{
}

/// The label of an attachment is its file name, and nothing of its directory.
pub proof fn law_the_label_is_the_file_name(dir: Seq<char>, name: Seq<char>)
    requires
        name.len() > 0,
        !name.contains('/'),
        name != seq!['.'],
        name != seq!['.', '.'],
    ensures
        attachment_text(dir + seq!['/'] + name) == name,
        attachment_text(name) == name,
{
    law_the_last_component_is_the_name(dir, name);
}

} // verus!
