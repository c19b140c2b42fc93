//! Taking the screen.
//!
//! Some steps need the client in front. It comes forward only in a pause of
//! whoever uses the machine, never once the send was cancelled, and a key or a
//! click is posted only right after the client was seen in front.

use crate::kakao::ax_send::{FocusPolicy, SendError, SendErrorView};
use crate::text::number::{
    decimal_int, law_only_digits_are_a_number, law_written_numbers_read_back, parse_i64, parsed_int,
};
use crate::text::split::{first_at, first_index, lemma_first_at};
use crate::text::trim::{copy_range, law_trimming_drops_only_white_space, trim, trimmed};
use crate::text::{chars_of, string_of, white_space};
use vstd::prelude::*;

verus! {

/// Milliseconds between two looks at the input.
pub const IDLE_POLL_MS: u64 = 80;

/// Looks at whether the client came forward.
pub const RAISE_LOOKS: u8 = 25;

/// Milliseconds between two of those looks.
pub const RAISE_POLL_MS: u64 = 40;

/// Tries to have the client in front for one action.
pub const FRONT_TRIES: u8 = 3;

/// Milliseconds that the client is given to come forward for one action.
pub const FRONT_SETTLE_MS: u64 = 60;

/// How far taking the screen has come.
#[derive(Debug, Clone, Copy, PartialEq, Eq, Structural)]
pub enum Screen {
    /// Waiting for a pause; whether the input was looked at before.
    Pause { looked: bool },
    /// About to ask whether the send was cancelled.
    Check,
    /// About to raise the curtain.
    Cover,
    /// Bringing the client forward; so many looks did not see it in front.
    Raise { looks: u8 },
}

/// What is asked for.
#[derive(Debug, Clone, Copy, PartialEq, Eq, Structural)]
pub enum ScreenAsk {
    /// To wait, then to tell how long ago the last input was, and how long the
    /// pause has been waited for.
    Measure { after_ms: u64 },
    /// Whether the send was cancelled.
    Cancelled,
    /// To raise the curtain, where there is one, and to remember which
    /// application is in front. Both are undone when the screen is given back.
    Cover,
    /// To bring the client forward where that is asked, to wait, then to tell
    /// whether it is in front.
    Front { activate: bool, after_ms: u64 },
}

/// What came of it.
#[derive(Debug, Clone, Copy, PartialEq, Eq, Structural)]
pub enum ScreenEvent {
    Measured { idle_ms: u64, waited_secs: u64 },
    Cancelled(bool),
    Covered,
    Front(bool),
}

/// Why the screen was not taken.
#[derive(Debug, Clone, Copy, PartialEq, Eq, Structural)]
pub enum Halt {
    UserBusy { waited: u64 },
    Cancelled,
    FocusLost,
}

/// One step of taking the screen.
#[derive(Debug, Clone, Copy, PartialEq, Eq, Structural)]
pub enum ScreenStep {
    Ask(Screen),
    /// The client is in front.
    Held,
    /// The screen is given back.
    Stop(Halt),
}

/// A reason not to take the screen, as an error.
pub open spec fn halt_error(halt: Halt) -> SendErrorView {
    match halt {
        Halt::UserBusy { waited } => SendErrorView::UserBusy { waited },
        Halt::Cancelled => SendErrorView::Cancelled,
        Halt::FocusLost => SendErrorView::FocusLost,
    }
}

impl Halt {
    /// This reason as an error.
    pub fn error(self) -> (error: SendError)
        ensures
            error@ == halt_error(self),
    {
        match self {
            Halt::UserBusy { waited } => SendError::UserBusy { waited },
            Halt::Cancelled => SendError::Cancelled,
            Halt::FocusLost => SendError::FocusLost,
        }
    }
}

/// What a state asks for.
pub open spec fn screen_ask(state: Screen) -> ScreenAsk {
    match state {
        Screen::Pause { looked } => ScreenAsk::Measure {
            after_ms: if looked {
                IDLE_POLL_MS
            } else {
                0
            },
        },
        Screen::Check => ScreenAsk::Cancelled,
        Screen::Cover => ScreenAsk::Cover,
        Screen::Raise { looks } => ScreenAsk::Front {
            activate: looks == 0,
            after_ms: if looks == 0 {
                0
            } else {
                RAISE_POLL_MS
            },
        },
    }
}

impl Screen {
    /// What this state asks for.
    pub fn ask(self) -> (ask: ScreenAsk)
        ensures
            ask == screen_ask(self),
    {
        match self {
            Screen::Pause { looked } => {
                let after_ms: u64 = if looked {
                    IDLE_POLL_MS
                } else {
                    0
                };
                ScreenAsk::Measure { after_ms }
            },
            Screen::Check => ScreenAsk::Cancelled,
            Screen::Cover => ScreenAsk::Cover,
            Screen::Raise { looks } => {
                let after_ms: u64 = if looks == 0 {
                    0
                } else {
                    RAISE_POLL_MS
                };
                ScreenAsk::Front { activate: looks == 0, after_ms }
            },
        }
    }
}

/// The first step: without a gap to wait for, the input is not looked at.
pub open spec fn screen_begun(policy: FocusPolicy) -> ScreenStep {
    if policy.idle_gap_ms == 0 {
        ScreenStep::Ask(Screen::Check)
    } else {
        ScreenStep::Ask(Screen::Pause { looked: false })
    }
}

/// The step after an event. An event that was not asked for changes nothing.
pub open spec fn screen_next(policy: FocusPolicy, state: Screen, event: ScreenEvent) -> ScreenStep {
    match (state, event) {
        (Screen::Pause { looked }, ScreenEvent::Measured { idle_ms, waited_secs }) => if idle_ms
            >= policy.idle_gap_ms {
            ScreenStep::Ask(Screen::Check)
        } else if waited_secs >= policy.max_wait_secs {
            ScreenStep::Stop(Halt::UserBusy { waited: policy.max_wait_secs })
        } else {
            ScreenStep::Ask(Screen::Pause { looked: true })
        },
        (Screen::Check, ScreenEvent::Cancelled(cancelled)) => if cancelled {
            ScreenStep::Stop(Halt::Cancelled)
        } else {
            ScreenStep::Ask(Screen::Cover)
        },
        (Screen::Cover, ScreenEvent::Covered) => ScreenStep::Ask(Screen::Raise { looks: 0 }),
        (Screen::Raise { looks }, ScreenEvent::Front(front)) => if front {
            ScreenStep::Held
        } else if looks + 1 < RAISE_LOOKS {
            ScreenStep::Ask(Screen::Raise { looks: (looks + 1) as u8 })
        } else {
            ScreenStep::Stop(Halt::FocusLost)
        },
        _ => ScreenStep::Ask(state),
    }
}

/// The first step of taking the screen.
pub fn begin_screen(policy: FocusPolicy) -> (step: ScreenStep)
    ensures
        step == screen_begun(policy),
{
    if policy.idle_gap_ms == 0 {
        ScreenStep::Ask(Screen::Check)
    } else {
        ScreenStep::Ask(Screen::Pause { looked: false })
    }
}

/// The step after an event.
pub fn advance_screen(policy: FocusPolicy, state: Screen, event: ScreenEvent) -> (step: ScreenStep)
    ensures
        step == screen_next(policy, state, event),
{
    match (state, event) {
        (Screen::Pause { .. }, ScreenEvent::Measured { idle_ms, waited_secs }) => if idle_ms
            >= policy.idle_gap_ms {
            ScreenStep::Ask(Screen::Check)
        } else if waited_secs >= policy.max_wait_secs {
            ScreenStep::Stop(Halt::UserBusy { waited: policy.max_wait_secs })
        } else {
            ScreenStep::Ask(Screen::Pause { looked: true })
        },
        (Screen::Check, ScreenEvent::Cancelled(cancelled)) => if cancelled {
            ScreenStep::Stop(Halt::Cancelled)
        } else {
            ScreenStep::Ask(Screen::Cover)
        },
        (Screen::Cover, ScreenEvent::Covered) => ScreenStep::Ask(Screen::Raise { looks: 0 }),
        (Screen::Raise { looks }, ScreenEvent::Front(front)) => if front {
            ScreenStep::Held
        } else if looks < RAISE_LOOKS - 1 {
            ScreenStep::Ask(Screen::Raise { looks: looks + 1 })
        } else {
            ScreenStep::Stop(Halt::FocusLost)
        },
        _ => ScreenStep::Ask(state),
    }
}

/// What is done for an action that needs the client in front.
#[derive(Debug, Clone, Copy, PartialEq, Eq, Structural)]
pub enum FrontStep {
    /// Bring the client forward, wait [`FRONT_SETTLE_MS`] and look whether it is in front.
    Look { tries: u8 },
    /// Act, at once.
    Act,
    /// Do not act.
    Lost,
}

/// The step after a look that is the one after `tries` others.
pub open spec fn front_next(tries: u8, front: bool) -> FrontStep {
    if front {
        FrontStep::Act
    } else if tries + 1 < FRONT_TRIES {
        FrontStep::Look { tries: (tries + 1) as u8 }
    } else {
        FrontStep::Lost
    }
}

/// The first step towards an action that needs the client in front.
pub fn begin_front() -> (step: FrontStep)
    ensures
        step == (FrontStep::Look { tries: 0 }),
{
    FrontStep::Look { tries: 0 }
}

/// The step after a look that is the one after `tries` others.
pub fn advance_front(tries: u8, front: bool) -> (step: FrontStep)
    ensures
        step == front_next(tries, front),
{
    if front {
        FrontStep::Act
    } else if tries < FRONT_TRIES - 1 {
        FrontStep::Look { tries: tries + 1 }
    } else {
        FrontStep::Lost
    }
}

// ---------------------------------------------------------------------------
// Which application is in front
// ---------------------------------------------------------------------------

/// A window on the screen, as far as it was read.
#[derive(Debug, Clone, Copy, PartialEq, Eq, Structural)]
pub struct ScreenWindow {
    /// The layer: ordinary windows are at zero.
    pub layer: Option<i64>,
    /// The process that owns the window.
    pub owner: Option<i64>,
}

/// Whether a window tells which application is in front.
pub open spec fn tells_owner(w: ScreenWindow) -> bool {
    w.layer == Some(0i64) && w.owner is Some
}

/// The first window, from `from` on, that tells which application is in front, or the length.
pub open spec fn first_telling(windows: Seq<ScreenWindow>, from: int) -> int
    decreases windows.len() - from,
{
    if from >= windows.len() {
        windows.len() as int
    } else if tells_owner(windows[from]) {
        from
    } else {
        first_telling(windows, from + 1)
    }
}

/// The process of the application in front, from the windows front to back.
pub open spec fn front_owner(windows: Seq<ScreenWindow>) -> Option<int> {
    let at = first_telling(windows, 0);
    if at < windows.len() && i32::MIN <= windows[at].owner->0 <= i32::MAX {
        Some(windows[at].owner->0 as int)
    } else {
        None
    }
}

/// The process of the application in front, from the windows front to back.
pub fn frontmost_pid(windows: &[ScreenWindow]) -> (r: Option<i32>)
    ensures
        match r {
            Some(pid) => front_owner(windows@) == Some(pid as int),
            None => front_owner(windows@) is None,
        },
{
    for i in 0..windows.len()
        invariant
            first_telling(windows@, 0) == first_telling(windows@, i as int),
    {
        if let Some(layer) = windows[i].layer {
            if layer == 0 {
                if let Some(owner) = windows[i].owner {
                    if owner < i32::MIN as i64 || owner > i32::MAX as i64 {
                        return None;
                    }
                    return Some(owner as i32);
                }
            }
        }
    }
    None
}

/// The process to give the screen back to: the one in front, unless it is the client itself.
pub fn restore_to(front: Option<i32>, client: i32) -> (r: Option<i32>)
    ensures
        r == if front == Some(client) {
            None::<i32>
        } else {
            front
        },
{
    match front {
        Some(pid) => if pid == client {
            None
        } else {
            Some(pid)
        },
        None => None,
    }
}

/// The process number in the first line of a listing.
pub open spec fn listed_pid(listing: Seq<char>) -> Option<int> {
    parsed_int(
        trim(listing.take(first_at(listing, '\n', 0))),
        true,
        i32::MIN as int,
        i32::MAX as int,
    )
}

/// The client's process, from the first line of a listing of processes by name.
pub fn client_pid(listing: &str) -> (r: Option<i32>)
    ensures
        match r {
            Some(pid) => listed_pid(listing@) == Some(pid as int),
            None => listed_pid(listing@) is None,
        },
{
    let chars = chars_of(listing);
    let end: usize = first_index(chars.as_slice(), '\n', 0);
    let line = copy_range(chars.as_slice(), 0, end);
    proof {
        assert(line@ == listing@.take(end as int));
    }
    let bare = trimmed(line.as_slice());
    let text = string_of(bare.as_slice());
    match parse_i64(text.as_str()) {
        Some(pid) => if pid < i32::MIN as i64 || pid > i32::MAX as i64 {
            None
        } else {
            Some(pid as i32)
        },
        None => None,
    }
}

// ---------------------------------------------------------------------------
// Laws
// ---------------------------------------------------------------------------

/// Where taking the screen stands after a sequence of events.
pub open spec fn screen_run(policy: FocusPolicy, events: Seq<ScreenEvent>) -> ScreenStep
    decreases events.len(),
{
    if events.len() == 0 {
        screen_begun(policy)
    } else {
        match screen_run(policy, events.drop_last()) {
            ScreenStep::Ask(state) => screen_next(policy, state, events.last()),
            done => done,
        }
    }
}

/// Whether there was a pause of the wanted length, or none was wanted.
pub open spec fn paused(policy: FocusPolicy, events: Seq<ScreenEvent>) -> bool {
    policy.idle_gap_ms == 0 || exists|i: int|
        0 <= i < events.len() && (#[trigger] events[i] matches ScreenEvent::Measured {
            idle_ms,
            waited_secs,
        } && idle_ms >= policy.idle_gap_ms)
}

/// The screen is taken only after a pause, after the send was found not to be
/// cancelled, after the curtain went up, and once the client was seen in front.
pub proof fn law_screen_is_taken_only_when_it_is_free(
    policy: FocusPolicy,
    events: Seq<ScreenEvent>,
)
    ensures
        screen_run(policy, events) == ScreenStep::Held ==> paused(policy, events)
            && events.contains(ScreenEvent::Cancelled(false)) && events.contains(
            ScreenEvent::Covered,
        ) && events.contains(ScreenEvent::Front(true)),
{
    lemma_screen_run(policy, events);
}

/// A send that was cancelled before the curtain went up never takes the screen.
pub proof fn law_cancelled_send_leaves_the_screen(policy: FocusPolicy, events: Seq<ScreenEvent>)
    requires
        screen_run(policy, events) == ScreenStep::Ask(Screen::Check),
    ensures
        screen_run(policy, events.push(ScreenEvent::Cancelled(true))) == ScreenStep::Stop(
            Halt::Cancelled,
        ),
{
    let more = events.push(ScreenEvent::Cancelled(true));
    assert(more.drop_last() == events);
}

/// What is known in each state.
proof fn lemma_screen_run(policy: FocusPolicy, events: Seq<ScreenEvent>)
    ensures
        match screen_run(policy, events) {
            ScreenStep::Ask(Screen::Pause { looked }) => true,
            ScreenStep::Ask(Screen::Check) => paused(policy, events),
            ScreenStep::Ask(Screen::Cover) => paused(policy, events) && events.contains(
                ScreenEvent::Cancelled(false),
            ),
            ScreenStep::Ask(Screen::Raise { looks }) => paused(policy, events) && events.contains(
                ScreenEvent::Cancelled(false),
            ) && events.contains(ScreenEvent::Covered),
            ScreenStep::Held => paused(policy, events) && events.contains(
                ScreenEvent::Cancelled(false),
            ) && events.contains(ScreenEvent::Covered) && events.contains(
                ScreenEvent::Front(true),
            ),
            ScreenStep::Stop(halt) => true,
        },
    decreases events.len(),
{
    if events.len() > 0 {
        let front = events.drop_last();
        lemma_screen_run(policy, front);
        assert(events[events.len() - 1] == events.last());
        assert forall|i: int| 0 <= i < front.len() implies front[i] == events[i] by {}
        assert forall|e: ScreenEvent| front.contains(e) implies events.contains(e) by {
            let i = choose|i: int| 0 <= i < front.len() && front[i] == e;
            assert(events[i] == e);
        }
        if policy.idle_gap_ms != 0 && paused(policy, front) {
            let i = choose|i: int|
                0 <= i < front.len() && (#[trigger] front[i] matches ScreenEvent::Measured {
                    idle_ms,
                    waited_secs,
                } && idle_ms >= policy.idle_gap_ms);
            assert(events[i] == front[i]);
        }
    }
}

/// The step after a sequence of looks.
pub open spec fn front_run(looks: Seq<bool>) -> FrontStep
    decreases looks.len(),
{
    if looks.len() == 0 {
        FrontStep::Look { tries: 0 }
    } else {
        match front_run(looks.drop_last()) {
            FrontStep::Look { tries } => front_next(tries, looks.last()),
            done => done,
        }
    }
}

/// An action is performed only where one of the first looks saw the client in
/// front; and it is performed right after that look.
pub proof fn law_action_follows_a_look(looks: Seq<bool>)
    ensures
        front_run(looks) == FrontStep::Act ==> looks.contains(true),
        looks.len() > 0 && front_run(looks) == FrontStep::Act && front_run(looks.drop_last())
            != FrontStep::Act ==> looks.last() && looks.len() <= FRONT_TRIES,
        front_run(looks) matches FrontStep::Look { tries } ==> looks.len() == tries && tries
            < FRONT_TRIES,
    decreases looks.len(),
{
    if looks.len() > 0 {
        let front = looks.drop_last();
        law_action_follows_a_look(front);
        assert(looks[looks.len() - 1] == looks.last());
        if front.contains(true) {
            let i = choose|i: int| 0 <= i < front.len() && front[i];
            assert(looks[i]);
        }
    }
}

/// The screen is taken where nothing stands against it: after a pause of the wanted
/// length, or at once where none is wanted, a send that is not cancelled covers the
/// screen, brings the client forward and holds it.
pub proof fn law_a_free_screen_is_taken(policy: FocusPolicy, idle_ms: u64, waited_secs: u64)
    ensures
        policy.idle_gap_ms == 0 ==> screen_run(
            policy,
            seq![ScreenEvent::Cancelled(false), ScreenEvent::Covered, ScreenEvent::Front(true)],
        ) == ScreenStep::Held,
        policy.idle_gap_ms > 0 && idle_ms >= policy.idle_gap_ms ==> screen_run(
            policy,
            seq![
                ScreenEvent::Measured { idle_ms, waited_secs },
                ScreenEvent::Cancelled(false),
                ScreenEvent::Covered,
                ScreenEvent::Front(true),
            ],
        ) == ScreenStep::Held,
        policy.idle_gap_ms > 0 && idle_ms < policy.idle_gap_ms && waited_secs
            >= policy.max_wait_secs ==> screen_run(
            policy,
            seq![ScreenEvent::Measured { idle_ms, waited_secs }],
        ) == ScreenStep::Stop(Halt::UserBusy { waited: policy.max_wait_secs }),
        policy.idle_gap_ms > 0 && idle_ms < policy.idle_gap_ms && waited_secs
            < policy.max_wait_secs ==> screen_run(
            policy,
            seq![ScreenEvent::Measured { idle_ms, waited_secs }],
        ) == ScreenStep::Ask(Screen::Pause { looked: true }),
{
    reveal_with_fuel(screen_run, 5);
    let m = ScreenEvent::Measured { idle_ms, waited_secs };
    let c = ScreenEvent::Cancelled(false);
    let d = ScreenEvent::Covered;
    let f = ScreenEvent::Front(true);
    assert(seq![c, d, f].drop_last() =~= seq![c, d]);
    assert(seq![c, d].drop_last() =~= seq![c]);
    assert(seq![c].drop_last() =~= Seq::<ScreenEvent>::empty());
    assert(seq![m, c, d, f].drop_last() =~= seq![m, c, d]);
    assert(seq![m, c, d].drop_last() =~= seq![m, c]);
    assert(seq![m, c].drop_last() =~= seq![m]);
    assert(seq![m].drop_last() =~= Seq::<ScreenEvent>::empty());
}

/// Only an answer to what was asked moves a send on; and each look that does not
/// see the client in front is counted, up to the last.
pub proof fn law_only_answers_move_on(policy: FocusPolicy, state: Screen, event: ScreenEvent)
    ensures
        screen_next(policy, state, event) != ScreenStep::Ask(state) ==> match screen_ask(state) {
            ScreenAsk::Measure { after_ms } => event is Measured,
            ScreenAsk::Cancelled => event is Cancelled,
            ScreenAsk::Cover => event is Covered,
            ScreenAsk::Front { activate, after_ms } => event is Front,
        },
        state matches Screen::Raise { looks } ==> {
            &&& screen_next(policy, state, ScreenEvent::Front(true)) == ScreenStep::Held
            &&& looks < 24 ==> screen_next(policy, state, ScreenEvent::Front(false))
                == ScreenStep::Ask(Screen::Raise { looks: (looks + 1) as u8 })
            &&& looks >= 24 ==> screen_next(policy, state, ScreenEvent::Front(false))
                == ScreenStep::Stop(Halt::FocusLost)
            &&& screen_ask(state) matches ScreenAsk::Front { activate, after_ms } && activate == (
            looks == 0)
        },
        screen_next(policy, state, event) == ScreenStep::Stop(Halt::Cancelled) ==> event
            == ScreenEvent::Cancelled(true),
        screen_next(policy, state, event) matches ScreenStep::Stop(Halt::UserBusy { waited })
            ==> waited == policy.max_wait_secs && (event matches ScreenEvent::Measured {
            idle_ms,
            waited_secs,
        } && idle_ms < policy.idle_gap_ms && waited_secs >= policy.max_wait_secs),
{
}

/// An action is performed as soon as the client is seen in front, and given up
/// only after three looks that did not see it.
pub proof fn law_a_look_decides(looks: Seq<bool>)
    ensures
        front_run(looks) is Look ==> front_run(looks.push(true)) == FrontStep::Act,
        front_run(looks) == FrontStep::Lost ==> looks.len() >= 3 && !looks[0] && !looks[1]
            && !looks[2],
        looks.len() == 3 && !looks[0] && !looks[1] && !looks[2] ==> front_run(looks)
            == FrontStep::Lost,
        front_run(looks) is Look ==> looks.len() < 3 && !looks.contains(true),
    decreases looks.len(),
{
    assert(looks.push(true).drop_last() =~= looks);
    if looks.len() > 0 {
        let front = looks.drop_last();
        law_a_look_decides(front);
        law_action_follows_a_look(looks);
        law_action_follows_a_look(front);
        reveal_with_fuel(front_run, 4);
        assert(looks =~= front.push(looks.last()));
        if front_run(looks) is Look {
            assert forall|i: int| 0 <= i < looks.len() implies !looks[i] by {
                if i < front.len() {
                    assert(front[i] == looks[i]);
                    assert(!front[i]);
                }
            }
        }
        if front_run(looks) == FrontStep::Lost && front_run(front) is Look {
            assert forall|i: int| 0 <= i < looks.len() implies !looks[i] by {
                if i < front.len() {
                    assert(front[i] == looks[i]);
                    assert(!front[i]);
                }
            }
        }
    }
}

/// The application in front is the one that owns the first ordinary window whose
/// owner is known.
pub proof fn law_the_first_ordinary_window_is_in_front(windows: Seq<ScreenWindow>, i: int, pid: i32)
    requires
        0 <= i < windows.len(),
        windows[i].layer == Some(0i64),
        windows[i].owner == Some(pid as i64),
        forall|j: int|
            0 <= j < i ==> (#[trigger] windows[j]).layer != Some(0i64) || windows[j].owner is None,
    ensures
        front_owner(windows) == Some(pid as int),
{
    lemma_first_telling(windows, 0, i);
}

proof fn lemma_first_telling(windows: Seq<ScreenWindow>, from: int, i: int)
    requires
        0 <= from <= i < windows.len(),
        tells_owner(windows[i]),
        forall|j: int| from <= j < i ==> !tells_owner(#[trigger] windows[j]),
    ensures
        first_telling(windows, from) == i,
    decreases i - from,
{
    if from < i {
        assert(!tells_owner(windows[from]));
        lemma_first_telling(windows, from + 1, i);
    }
}

/// The process number in the first line is read, whatever follows that line.
pub proof fn law_the_first_line_names_the_process(pid: i32, rest: Seq<char>)
    ensures
        listed_pid(decimal_int(pid as int)) == Some(pid as int),
        listed_pid(decimal_int(pid as int).push('\n') + rest) == Some(pid as int),
{
    let n = pid as int;
    let line = decimal_int(n);
    law_written_numbers_read_back(n, i32::MIN as int, i32::MAX as int);
    law_only_digits_are_a_number(line, ' ', true, i32::MIN as int, i32::MAX as int);
    assert(line.len() > 0);
    assert forall|i: int| 0 <= i < line.len() implies line[i] != '\n' && !white_space(
        line[i],
    ) by {
        let c = line[i];
        lemma_number_char(c);
    }
    law_trimming_drops_only_white_space(line);
    lemma_first_at(line, '\n', 0);
    assert(line.take(line.len() as int) =~= line);
    let listing = line.push('\n') + rest;
    lemma_first_at(listing, '\n', 0);
    let at = first_at(listing, '\n', 0);
    if at < line.len() {
        assert(listing[at] == line[at]);
    }
    assert(listing[line.len() as int] == '\n');
    assert(listing.take(at) =~= line);
}

proof fn lemma_number_char(c: char)
    ensures
        48 <= c as int <= 57 || c == '-' || c == '+' ==> c != '\n' && !white_space(c),
{
}

/// A send that stops says why: a pause that did not come with how long it was
/// waited for, a cancellation as one, a client that did not come forward as lost
/// focus.
pub proof fn law_a_halt_says_why(halt: Halt)
    ensures
        halt matches Halt::UserBusy { waited } ==> halt_error(halt) == (SendErrorView::UserBusy {
            waited,
        }),
        halt == Halt::Cancelled <==> halt_error(halt) is Cancelled,
        halt == Halt::FocusLost <==> halt_error(halt) is FocusLost,
{
}

} // verus!
