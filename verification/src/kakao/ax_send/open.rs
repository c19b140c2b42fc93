//! Opening a room.
//!
//! A window that is open is used. A room without one is looked for by search
//! and in the chat list, in turns, and each try is checked by the name that
//! the client shows. Where two rooms share a name nothing is opened.

use crate::kakao::ax_send::room::{
    describe_value, described, room_matches, rooms_match, search_query, search_query_for,
};
use crate::kakao::ax_send::window::{
    choose_row, chosen_row, law_chosen_row_has_the_name, lemma_matching, matching, matching_places,
    open_titles, opt_view, opt_views, steps, titles_line,
};
use crate::kakao::ax_send::{outcome, RoomTarget, SendError, SendErrorView};
use crate::text::{owned, same};
use vstd::prelude::*;

verus! {

/// Tries to open a room.
pub const OPEN_ATTEMPTS: u8 = 6;

/// Looks for the window of a room that was opened, and the milliseconds before each.
pub const WINDOW_LOOKS: u8 = 20;

pub const WINDOW_POLL_MS: u64 = 100;

/// Rows of the chat list that count as recent.
pub const RECENT_ROWS: usize = 60;

/// Looks at whether the search field holds what was typed, and the milliseconds before each.
pub const LANDING_LOOKS: u8 = 20;

pub const LANDING_POLL_MS: u64 = 50;

/// Looks at whether the list was filtered, and the milliseconds before each.
pub const FILTER_LOOKS: u8 = 25;

pub const FILTER_POLL_MS: u64 = 100;

/// Looks for the search field after its button was pressed, and the milliseconds before each.
pub const REVEAL_LOOKS: u8 = 10;

pub const REVEAL_POLL_MS: u64 = 60;

/// Tries to clear the search field, and the milliseconds after each.
pub const CLEAR_WRITES: u8 = 3;

pub const CLEAR_POLL_MS: u64 = 150;

/// Milliseconds that the list is given to settle before a row is clicked.
pub const CLICK_SETTLE_MS: u64 = 300;

// ---------------------------------------------------------------------------
// Windows that are open
// ---------------------------------------------------------------------------

/// What is done about a room with these windows open: the one window that has
/// its name is used; nothing means that the room is to be opened.
pub open spec fn window_choice(
    titles: Seq<Option<Seq<char>>>,
    name: Seq<char>,
    allow_open: bool,
) -> Result<Option<int>, SendErrorView> {
    let hits = matching(titles, name);
    if hits.len() > 1 {
        Err(SendErrorView::AmbiguousRoom { room: name, count: hits.len() as usize })
    } else if hits.len() == 1 {
        Ok(Some(hits[0]))
    } else if !allow_open {
        Err(SendErrorView::WindowNotOpen { room: name, open: titles_line(titles) })
    } else {
        Ok(None)
    }
}

/// An index as an integer.
pub open spec fn opt_index(i: Option<usize>) -> Option<int> {
    match i {
        Some(i) => Some(i as int),
        None => None,
    }
}

/// The window to use, nothing where the room is to be opened, or why neither can be.
pub fn choose_window(
    titles: &[Option<String>],
    target: &RoomTarget,
    allow_open: bool,
) -> (r: Result<Option<usize>, SendError>)
    ensures
        match r {
            Ok(i) => window_choice(opt_views(titles@), target.name@, allow_open) == Ok::<
                Option<int>,
                SendErrorView,
            >(opt_index(i)),
            Err(error) => window_choice(opt_views(titles@), target.name@, allow_open) == Err::<
                Option<int>,
                SendErrorView,
            >(error@),
        },
{
    let hits = matching_places(titles, target.name.as_str());
    let count: usize = hits.len();
    proof {
        assert(steps(hits@).len() == hits@.len());
        assert(hits@.len() > 0 ==> steps(hits@)[0] == hits@[0]);
    }
    if count > 1 {
        return Err(SendError::AmbiguousRoom { room: owned(target.name.as_str()), count });
    }
    if count == 1 {
        return Ok(Some(hits[0]));
    }
    if !allow_open {
        return Err(
            SendError::WindowNotOpen {
                room: owned(target.name.as_str()),
                open: open_titles(titles),
            },
        );
    }
    Ok(None)
}

// ---------------------------------------------------------------------------
// Tries to open a room
// ---------------------------------------------------------------------------

/// How a room is opened.
#[derive(Debug, Clone, Copy, PartialEq, Eq, Structural)]
pub enum Strategy {
    /// Through the search field: what is left of the list cannot reorder.
    Search,
    /// From the recent rows of the list.
    Recent,
    /// From all rows that the client has rendered.
    All,
}

/// The way of a try: the ways take turns, and search comes first.
pub open spec fn strategy_of(attempt: int) -> Strategy {
    if attempt % 3 == 0 {
        Strategy::Search
    } else if attempt % 3 == 1 {
        Strategy::Recent
    } else {
        Strategy::All
    }
}

/// What the tries wait for.
#[derive(Debug, Clone, Copy, PartialEq, Eq, Structural)]
pub enum OpenPhase {
    /// Whether the send was cancelled.
    Check,
    /// A try.
    Open,
    /// The window; so many looks did not find it.
    Look { looks: u8 },
    /// The search field being cleared before the next try.
    ClearNext,
    /// The search field being cleared, with the window found.
    ClearFound { window: usize },
    /// The search field being cleared after the last try.
    ClearEnd,
}

/// How far the tries have come.
#[derive(Debug)]
pub struct Opening {
    /// Tries before this one.
    pub attempt: u8,
    pub phase: OpenPhase,
    /// What went wrong with the try before.
    pub last: Option<SendError>,
}

/// An [`Opening`] with its error as a view.
pub struct OpeningView {
    pub attempt: u8,
    pub phase: OpenPhase,
    pub last: Option<SendErrorView>,
}

impl View for Opening {
    type V = OpeningView;

    open spec fn view(&self) -> OpeningView {
        OpeningView {
            attempt: self.attempt,
            phase: self.phase,
            last: match self.last {
                Some(error) => Some(error@),
                None => None,
            },
        }
    }
}

/// What is asked for.
#[derive(Debug, Clone, Copy, PartialEq, Eq, Structural)]
pub enum OpenAsk {
    /// Whether the send was cancelled.
    Cancelled,
    /// A try.
    Open(Strategy),
    /// To wait [`WINDOW_POLL_MS`], then the titles of the open windows.
    Windows,
    /// To clear the search field.
    ClearSearch,
}

/// What came of it.
#[derive(Debug)]
pub enum OpenEvent {
    Cancelled(bool),
    Opened(Result<(), SendError>),
    Windows(Vec<Option<String>>),
    Cleared,
}

/// An [`OpenEvent`] as a view.
pub enum OpenEventView {
    Cancelled(bool),
    Opened(Result<(), SendErrorView>),
    Windows(Seq<Option<Seq<char>>>),
    Cleared,
}

impl View for OpenEvent {
    type V = OpenEventView;

    open spec fn view(&self) -> OpenEventView {
        match *self {
            OpenEvent::Cancelled(cancelled) => OpenEventView::Cancelled(cancelled),
            OpenEvent::Opened(r) => OpenEventView::Opened(outcome(r)),
            OpenEvent::Windows(titles) => OpenEventView::Windows(opt_views(titles@)),
            OpenEvent::Cleared => OpenEventView::Cleared,
        }
    }
}

/// One step of the tries.
#[derive(Debug)]
pub enum OpenStep {
    Ask(Opening),
    /// The place of the room's window among those that were looked at last, or
    /// why there is none. The screen is given back.
    Done(Result<usize, SendError>),
}

/// An [`OpenStep`] as a view.
pub enum OpenStepView {
    Ask(OpeningView),
    Done(Result<usize, SendErrorView>),
}

impl View for OpenStep {
    type V = OpenStepView;

    open spec fn view(&self) -> OpenStepView {
        match *self {
            OpenStep::Ask(state) => OpenStepView::Ask(state@),
            OpenStep::Done(r) => OpenStepView::Done(outcome(r)),
        }
    }
}

/// What a state asks for.
pub open spec fn open_ask(state: OpeningView) -> OpenAsk {
    match state.phase {
        OpenPhase::Check => OpenAsk::Cancelled,
        OpenPhase::Open => OpenAsk::Open(strategy_of(state.attempt as int)),
        OpenPhase::Look { looks } => OpenAsk::Windows,
        OpenPhase::ClearNext => OpenAsk::ClearSearch,
        OpenPhase::ClearFound { window } => OpenAsk::ClearSearch,
        OpenPhase::ClearEnd => OpenAsk::ClearSearch,
    }
}

/// The state before the first try.
pub open spec fn opening_begun() -> OpeningView {
    OpeningView { attempt: 0, phase: OpenPhase::Check, last: None }
}

/// The state after a try that did not open the room.
pub open spec fn after_attempt(attempt: u8, last: Option<SendErrorView>) -> OpeningView {
    if attempt + 1 < OPEN_ATTEMPTS {
        OpeningView { attempt: (attempt + 1) as u8, phase: OpenPhase::Check, last }
    } else {
        OpeningView { attempt, phase: OpenPhase::ClearEnd, last }
    }
}

/// A try did not open the room: what search has left is cleared first.
pub open spec fn attempt_failed(attempt: u8, error: SendErrorView) -> OpenStepView {
    if attempt % 3 == 0 {
        OpenStepView::Ask(
            OpeningView { attempt, phase: OpenPhase::ClearNext, last: Some(error) },
        )
    } else {
        OpenStepView::Ask(after_attempt(attempt, Some(error)))
    }
}

/// The step after an event. An event that was not asked for changes nothing.
pub open spec fn open_next(
    name: Seq<char>,
    state: OpeningView,
    event: OpenEventView,
) -> OpenStepView {
    match (state.phase, event) {
        (OpenPhase::Check, OpenEventView::Cancelled(cancelled)) => if cancelled {
            OpenStepView::Done(Err(SendErrorView::Cancelled))
        } else {
            OpenStepView::Ask(OpeningView { phase: OpenPhase::Open, ..state })
        },
        (OpenPhase::Open, OpenEventView::Opened(r)) => match r {
            Ok(_) => OpenStepView::Ask(OpeningView { phase: OpenPhase::Look { looks: 0 }, ..state }),
            Err(error) => if error is AmbiguousRoom {
                OpenStepView::Done(Err(error))
            } else {
                attempt_failed(state.attempt, error)
            },
        },
        (OpenPhase::Look { looks }, OpenEventView::Windows(titles)) => {
            let hits = matching(titles, name);
            if hits.len() == 1 {
                OpenStepView::Ask(
                    OpeningView {
                        phase: OpenPhase::ClearFound { window: hits[0] as usize },
                        ..state
                    },
                )
            } else if looks + 1 < WINDOW_LOOKS {
                OpenStepView::Ask(
                    OpeningView { phase: OpenPhase::Look { looks: (looks + 1) as u8 }, ..state },
                )
            } else {
                attempt_failed(state.attempt, SendErrorView::RoomOpenFailed(name))
            }
        },
        (OpenPhase::ClearNext, OpenEventView::Cleared) => OpenStepView::Ask(
            after_attempt(state.attempt, state.last),
        ),
        (OpenPhase::ClearFound { window }, OpenEventView::Cleared) => OpenStepView::Done(Ok(window)),
        (OpenPhase::ClearEnd, OpenEventView::Cleared) => OpenStepView::Done(
            Err(
                match state.last {
                    Some(error) => error,
                    None => SendErrorView::RoomOpenFailed(name),
                },
            ),
        ),
        _ => OpenStepView::Ask(state),
    }
}

impl Opening {
    /// The state before the first try.
    pub fn begin() -> (state: Self)
        ensures
            state@ == opening_begun(),
    {
        Opening { attempt: 0, phase: OpenPhase::Check, last: None }
    }

    /// What this state asks for.
    pub fn ask(&self) -> (ask: OpenAsk)
        ensures
            ask == open_ask(self@),
    {
        match self.phase {
            OpenPhase::Check => OpenAsk::Cancelled,
            OpenPhase::Open => if self.attempt % 3 == 0 {
                OpenAsk::Open(Strategy::Search)
            } else if self.attempt % 3 == 1 {
                OpenAsk::Open(Strategy::Recent)
            } else {
                OpenAsk::Open(Strategy::All)
            },
            OpenPhase::Look { .. } => OpenAsk::Windows,
            OpenPhase::ClearNext => OpenAsk::ClearSearch,
            OpenPhase::ClearFound { .. } => OpenAsk::ClearSearch,
            OpenPhase::ClearEnd => OpenAsk::ClearSearch,
        }
    }
}

/// Exec form of [`after_attempt`].
fn next_attempt(attempt: u8, last: Option<SendError>) -> (state: Opening)
    ensures
        state@ == after_attempt(
            attempt,
            match last {
                Some(error) => Some(error@),
                None => None,
            },
        ),
{
    if attempt < OPEN_ATTEMPTS - 1 {
        Opening { attempt: attempt + 1, phase: OpenPhase::Check, last }
    } else {
        Opening { attempt, phase: OpenPhase::ClearEnd, last }
    }
}

/// Exec form of [`attempt_failed`].
fn fail_attempt(attempt: u8, error: SendError) -> (step: OpenStep)
    ensures
        step@ == attempt_failed(attempt, error@),
{
    if attempt % 3 == 0 {
        OpenStep::Ask(Opening { attempt, phase: OpenPhase::ClearNext, last: Some(error) })
    } else {
        OpenStep::Ask(next_attempt(attempt, Some(error)))
    }
}

/// The step after an event.
pub fn advance_opening(target: &RoomTarget, state: Opening, event: OpenEvent) -> (step: OpenStep)
    ensures
        step@ == open_next(target.name@, state@, event@),
{
    let attempt: u8 = state.attempt;
    match (state.phase, event) {
        (OpenPhase::Check, OpenEvent::Cancelled(cancelled)) => if cancelled {
            OpenStep::Done(Err(SendError::Cancelled))
        } else {
            OpenStep::Ask(Opening { attempt, phase: OpenPhase::Open, last: state.last })
        },
        (OpenPhase::Open, OpenEvent::Opened(r)) => match r {
            Ok(_) => OpenStep::Ask(
                Opening { attempt, phase: OpenPhase::Look { looks: 0 }, last: state.last },
            ),
            Err(error) => {
                let ambiguous: bool = match &error {
                    SendError::AmbiguousRoom { .. } => true,
                    _ => false,
                };
                if ambiguous {
                    OpenStep::Done(Err(error))
                } else {
                    fail_attempt(attempt, error)
                }
            },
        },
        (OpenPhase::Look { looks }, OpenEvent::Windows(titles)) => {
            let hits = matching_places(titles.as_slice(), target.name.as_str());
            proof {
                assert(steps(hits@).len() == hits@.len());
                assert(hits@.len() > 0 ==> steps(hits@)[0] == hits@[0]);
            }
            if hits.len() == 1 {
                OpenStep::Ask(
                    Opening {
                        attempt,
                        phase: OpenPhase::ClearFound { window: hits[0] },
                        last: state.last,
                    },
                )
            } else if looks < WINDOW_LOOKS - 1 {
                OpenStep::Ask(
                    Opening { attempt, phase: OpenPhase::Look { looks: looks + 1 }, last: state.last },
                )
            } else {
                fail_attempt(attempt, SendError::RoomOpenFailed(owned(target.name.as_str())))
            }
        },
        (OpenPhase::ClearNext, OpenEvent::Cleared) => OpenStep::Ask(
            next_attempt(attempt, state.last),
        ),
        (OpenPhase::ClearFound { window }, OpenEvent::Cleared) => OpenStep::Done(Ok(window)),
        (OpenPhase::ClearEnd, OpenEvent::Cleared) => match state.last {
            Some(error) => OpenStep::Done(Err(error)),
            None => OpenStep::Done(
                Err(SendError::RoomOpenFailed(owned(target.name.as_str()))),
            ),
        },
        _ => OpenStep::Ask(state),
    }
}

// ---------------------------------------------------------------------------
// From the list
// ---------------------------------------------------------------------------

/// Which row of the list is opened. Nothing stands for a list that cannot be found.
pub open spec fn listed_row(
    names: Option<Seq<Option<Seq<char>>>>,
    strategy: Strategy,
    name: Seq<char>,
    rank: Option<usize>,
) -> Result<int, SendErrorView> {
    match names {
        None => Err(SendErrorView::ChatListUnavailable),
        Some(names) => if names.len() == 0 {
            Err(SendErrorView::ChatListUnavailable)
        } else {
            let scanned = if strategy != Strategy::All && RECENT_ROWS < names.len() {
                RECENT_ROWS as int
            } else {
                names.len() as int
            };
            chosen_row(names.take(scanned), name, rank)
        },
    }
}

/// Which row of the list is opened, all its rows or the recent ones considered.
pub fn choose_listed_row(
    names: Option<Vec<Option<String>>>,
    strategy: Strategy,
    target: &RoomTarget,
) -> (r: Result<usize, SendError>)
    ensures
        match r {
            Ok(i) => listed_row(
                match names {
                    Some(names) => Some(opt_views(names@)),
                    None => None,
                },
                strategy,
                target.name@,
                target.rank,
            ) == Ok::<int, SendErrorView>(i as int),
            Err(error) => listed_row(
                match names {
                    Some(names) => Some(opt_views(names@)),
                    None => None,
                },
                strategy,
                target.name@,
                target.rank,
            ) == Err::<int, SendErrorView>(error@),
        },
{
    match names {
        None => Err(SendError::ChatListUnavailable),
        Some(names) => {
            let total: usize = names.len();
            if total == 0 {
                return Err(SendError::ChatListUnavailable);
            }
            let scanned: usize = if strategy != Strategy::All && RECENT_ROWS < total {
                RECENT_ROWS
            } else {
                total
            };
            let rows = vstd::slice::slice_subrange(names.as_slice(), 0, scanned);
            proof {
                assert(opt_views(rows@) == opt_views(names@).take(scanned as int));
            }
            choose_row(rows, target)
        },
    }
}

// ---------------------------------------------------------------------------
// By search
// ---------------------------------------------------------------------------

/// How far a search has come.
#[derive(Debug, Clone, Copy, PartialEq, Eq, Structural)]
pub enum Search {
    /// Looking for the window with the chat list.
    Main,
    /// Looking for the search field.
    Field,
    /// Typing.
    Type,
    /// Looking at what the field holds; so many looks did not find the query.
    Land { looks: u8 },
    /// Reading what the field holds in its place.
    Misread,
    /// Counting the rows of the list.
    Count,
    /// Waiting for a list that is filtered; so many looks did not find the room.
    Filter { full: usize, looks: u8 },
    /// Reading the names of the filtered list.
    Names { full: usize, looks: u8 },
    /// Clicking a row.
    Click { row: usize },
}

/// What came of what a search asked for.
#[derive(Debug)]
pub enum SearchEvent {
    /// Whether what was looked for is there.
    Present(bool),
    /// The field was focused and emptied, and the query typed with the client in front.
    Typed(Result<(), SendError>),
    /// What the field holds.
    Value(Option<String>),
    /// How many rows the list has, where there is one.
    Rows(Option<usize>),
    /// The names of the rows.
    Names(Vec<Option<String>>),
    /// The row was clicked, or why not.
    Clicked(Result<(), SendError>),
}

/// A [`SearchEvent`] as a view.
pub enum SearchEventView {
    Present(bool),
    Typed(Result<(), SendErrorView>),
    Value(Option<Seq<char>>),
    Rows(Option<usize>),
    Names(Seq<Option<Seq<char>>>),
    Clicked(Result<(), SendErrorView>),
}

impl View for SearchEvent {
    type V = SearchEventView;

    open spec fn view(&self) -> SearchEventView {
        match *self {
            SearchEvent::Present(there) => SearchEventView::Present(there),
            SearchEvent::Typed(r) => SearchEventView::Typed(outcome(r)),
            SearchEvent::Value(value) => SearchEventView::Value(opt_view(value)),
            SearchEvent::Rows(count) => SearchEventView::Rows(count),
            SearchEvent::Names(names) => SearchEventView::Names(opt_views(names@)),
            SearchEvent::Clicked(r) => SearchEventView::Clicked(outcome(r)),
        }
    }
}

/// One step of a search.
#[derive(Debug)]
pub enum SearchStep {
    Ask(Search),
    Done(Result<(), SendError>),
}

/// A [`SearchStep`] as a view.
pub enum SearchStepView {
    Ask(Search),
    Done(Result<(), SendErrorView>),
}

impl View for SearchStep {
    type V = SearchStepView;

    open spec fn view(&self) -> SearchStepView {
        match *self {
            SearchStep::Ask(state) => SearchStepView::Ask(state),
            SearchStep::Done(r) => SearchStepView::Done(outcome(r)),
        }
    }
}

/// The room was not in what the list shows by now.
pub open spec fn not_yet_filtered(name: Seq<char>, full: usize, looks: u8) -> SearchStepView {
    if looks + 1 < FILTER_LOOKS {
        SearchStepView::Ask(Search::Filter { full, looks: (looks + 1) as u8 })
    } else {
        SearchStepView::Done(Err(SendErrorView::RoomNotFound(name)))
    }
}

/// The step after an event. An event that was not asked for changes nothing.
pub open spec fn search_next(
    name: Seq<char>,
    rank: Option<usize>,
    state: Search,
    event: SearchEventView,
) -> SearchStepView {
    match (state, event) {
        (Search::Main, SearchEventView::Present(there)) => if there {
            SearchStepView::Ask(Search::Field)
        } else {
            SearchStepView::Done(Err(SendErrorView::ChatListUnavailable))
        },
        (Search::Field, SearchEventView::Present(there)) => if there {
            SearchStepView::Ask(Search::Type)
        } else {
            SearchStepView::Done(Err(SendErrorView::SearchUnavailable))
        },
        (Search::Type, SearchEventView::Typed(r)) => match r {
            Ok(_) => SearchStepView::Ask(Search::Land { looks: 0 }),
            Err(error) => SearchStepView::Done(Err(error)),
        },
        (Search::Land { looks }, SearchEventView::Value(value)) => if value == Some(
            search_query(name),
        ) {
            SearchStepView::Ask(Search::Count)
        } else if looks + 1 < LANDING_LOOKS {
            SearchStepView::Ask(Search::Land { looks: (looks + 1) as u8 })
        } else {
            SearchStepView::Ask(Search::Misread)
        },
        (Search::Misread, SearchEventView::Value(value)) => SearchStepView::Done(
            Err(
                SendErrorView::ValueMismatch {
                    what: "the chat search box"@,
                    wrote: described(search_query(name)),
                    found: described(
                        match value {
                            Some(value) => value,
                            None => ""@,
                        },
                    ),
                },
            ),
        ),
        (Search::Count, SearchEventView::Rows(count)) => match count {
            Some(full) => SearchStepView::Ask(Search::Filter { full, looks: 0 }),
            None => SearchStepView::Done(Err(SendErrorView::ChatListUnavailable)),
        },
        (Search::Filter { full, looks }, SearchEventView::Rows(count)) => match count {
            Some(rows) => if rows == 0 || rows == full {
                not_yet_filtered(name, full, looks)
            } else {
                SearchStepView::Ask(Search::Names { full, looks })
            },
            None => not_yet_filtered(name, full, looks),
        },
        (Search::Names { full, looks }, SearchEventView::Names(names)) => match chosen_row(
            names,
            name,
            rank,
        ) {
            Ok(row) => SearchStepView::Ask(Search::Click { row: row as usize }),
            Err(error) => if error is AmbiguousRoom {
                SearchStepView::Done(Err(error))
            } else {
                not_yet_filtered(name, full, looks)
            },
        },
        (Search::Click { row }, SearchEventView::Clicked(r)) => SearchStepView::Done(r),
        _ => SearchStepView::Ask(state),
    }
}

/// Exec form of [`not_yet_filtered`].
fn wait_for_filter(target: &RoomTarget, full: usize, looks: u8) -> (step: SearchStep)
    ensures
        step@ == not_yet_filtered(target.name@, full, looks),
{
    if looks < FILTER_LOOKS - 1 {
        SearchStep::Ask(Search::Filter { full, looks: looks + 1 })
    } else {
        SearchStep::Done(Err(SendError::RoomNotFound(owned(target.name.as_str()))))
    }
}

/// The step after an event.
pub fn advance_search(target: &RoomTarget, state: Search, event: SearchEvent) -> (step: SearchStep)
    ensures
        step@ == search_next(target.name@, target.rank, state, event@),
{
    match (state, event) {
        (Search::Main, SearchEvent::Present(there)) => if there {
            SearchStep::Ask(Search::Field)
        } else {
            SearchStep::Done(Err(SendError::ChatListUnavailable))
        },
        (Search::Field, SearchEvent::Present(there)) => if there {
            SearchStep::Ask(Search::Type)
        } else {
            SearchStep::Done(Err(SendError::SearchUnavailable))
        },
        (Search::Type, SearchEvent::Typed(r)) => match r {
            Ok(_) => SearchStep::Ask(Search::Land { looks: 0 }),
            Err(error) => SearchStep::Done(Err(error)),
        },
        (Search::Land { looks }, SearchEvent::Value(value)) => {
            let query = search_query_for(target.name.as_str());
            let landed: bool = match &value {
                Some(value) => same(value.as_str(), query.as_str()),
                None => false,
            };
            if landed {
                SearchStep::Ask(Search::Count)
            } else if looks < LANDING_LOOKS - 1 {
                SearchStep::Ask(Search::Land { looks: looks + 1 })
            } else {
                SearchStep::Ask(Search::Misread)
            }
        },
        (Search::Misread, SearchEvent::Value(value)) => {
            let query = search_query_for(target.name.as_str());
            let found: String = match value {
                Some(value) => value,
                None => owned(""),
            };
            SearchStep::Done(
                Err(
                    SendError::ValueMismatch {
                        what: owned("the chat search box"),
                        wrote: describe_value(query.as_str()),
                        found: describe_value(found.as_str()),
                    },
                ),
            )
        },
        (Search::Count, SearchEvent::Rows(count)) => match count {
            Some(full) => SearchStep::Ask(Search::Filter { full, looks: 0 }),
            None => SearchStep::Done(Err(SendError::ChatListUnavailable)),
        },
        (Search::Filter { full, looks }, SearchEvent::Rows(count)) => match count {
            Some(rows) => if rows == 0 || rows == full {
                wait_for_filter(target, full, looks)
            } else {
                SearchStep::Ask(Search::Names { full, looks })
            },
            None => wait_for_filter(target, full, looks),
        },
        (Search::Names { full, looks }, SearchEvent::Names(names)) => match choose_row(
            names.as_slice(),
            target,
        ) {
            Ok(row) => SearchStep::Ask(Search::Click { row }),
            Err(error) => {
                let ambiguous: bool = match &error {
                    SendError::AmbiguousRoom { .. } => true,
                    _ => false,
                };
                if ambiguous {
                    SearchStep::Done(Err(error))
                } else {
                    wait_for_filter(target, full, looks)
                }
            },
        },
        (Search::Click { .. }, SearchEvent::Clicked(r)) => SearchStep::Done(r),
        _ => SearchStep::Ask(state),
    }
}

/// What is done about the search field.
#[derive(Debug, Clone, Copy, PartialEq, Eq, Structural)]
pub enum Reveal {
    /// It shows.
    Found,
    /// Press its button.
    Press,
    /// Wait [`REVEAL_POLL_MS`] and look for it again.
    Look { looks: u8 },
    /// It cannot be reached.
    Missing,
}

/// What is done after the first look for the search field and for its button.
pub fn begin_reveal(field: bool, button: bool) -> (r: Reveal)
    ensures
        r == if field {
            Reveal::Found
        } else if button {
            Reveal::Press
        } else {
            Reveal::Missing
        },
{
    if field {
        Reveal::Found
    } else if button {
        Reveal::Press
    } else {
        Reveal::Missing
    }
}

/// What is done after the button was pressed and the look after `looks` others.
pub fn advance_reveal(looks: u8, field: bool) -> (r: Reveal)
    ensures
        r == if field {
            Reveal::Found
        } else if looks + 1 < REVEAL_LOOKS {
            Reveal::Look { looks: (looks + 1) as u8 }
        } else {
            Reveal::Missing
        },
{
    if field {
        Reveal::Found
    } else if looks < REVEAL_LOOKS - 1 {
        Reveal::Look { looks: looks + 1 }
    } else {
        Reveal::Missing
    }
}

/// Whether the search field, after `writes` tries to empty it, is written
/// empty once more: never where it is empty, which would be a change of its own.
pub fn clears_again(writes: u8, empty: bool) -> (r: bool)
    ensures
        r == (!empty && writes < CLEAR_WRITES),
{
    !empty && writes < CLEAR_WRITES
}

// ---------------------------------------------------------------------------
// Clicking a row
// ---------------------------------------------------------------------------

/// How far a click has come.
#[derive(Debug, Clone, Copy, PartialEq, Eq, Structural)]
pub enum Click {
    /// Raising the list, waiting [`CLICK_SETTLE_MS`], then reading the row's name again.
    Name,
    /// Reading where the row is.
    Frame,
    /// Clicking it twice with the client in front, and putting the pointer back.
    Act,
}

/// What came of what a click asked for.
#[derive(Debug)]
pub enum ClickEvent {
    Name(Option<String>),
    Frame(bool),
    Acted(Result<(), SendError>),
}

/// A [`ClickEvent`] as a view.
pub enum ClickEventView {
    Name(Option<Seq<char>>),
    Frame(bool),
    Acted(Result<(), SendErrorView>),
}

impl View for ClickEvent {
    type V = ClickEventView;

    open spec fn view(&self) -> ClickEventView {
        match *self {
            ClickEvent::Name(name) => ClickEventView::Name(opt_view(name)),
            ClickEvent::Frame(there) => ClickEventView::Frame(there),
            ClickEvent::Acted(r) => ClickEventView::Acted(outcome(r)),
        }
    }
}

/// One step of a click.
#[derive(Debug)]
pub enum ClickStep {
    Ask(Click),
    Done(Result<(), SendError>),
}

/// A [`ClickStep`] as a view.
pub enum ClickStepView {
    Ask(Click),
    Done(Result<(), SendErrorView>),
}

impl View for ClickStep {
    type V = ClickStepView;

    open spec fn view(&self) -> ClickStepView {
        match *self {
            ClickStep::Ask(state) => ClickStepView::Ask(state),
            ClickStep::Done(r) => ClickStepView::Done(outcome(r)),
        }
    }
}

/// The step after an event. The list may have reordered since the row was
/// chosen, so the row is clicked only where it still has the room's name.
pub open spec fn click_next(name: Seq<char>, state: Click, event: ClickEventView) -> ClickStepView {
    match (state, event) {
        (Click::Name, ClickEventView::Name(shown)) => if shown matches Some(shown) && rooms_match(
            shown,
            name,
        ) {
            ClickStepView::Ask(Click::Frame)
        } else {
            ClickStepView::Done(Err(SendErrorView::ChatListMoved { room: name }))
        },
        (Click::Frame, ClickEventView::Frame(there)) => if there {
            ClickStepView::Ask(Click::Act)
        } else {
            ClickStepView::Done(Err(SendErrorView::RoomOpenFailed(name)))
        },
        (Click::Act, ClickEventView::Acted(r)) => ClickStepView::Done(r),
        _ => ClickStepView::Ask(state),
    }
}

/// The step after an event.
pub fn advance_click(target: &RoomTarget, state: Click, event: ClickEvent) -> (step: ClickStep)
    ensures
        step@ == click_next(target.name@, state, event@),
{
    match (state, event) {
        (Click::Name, ClickEvent::Name(shown)) => {
            let still: bool = match &shown {
                Some(shown) => room_matches(shown.as_str(), target.name.as_str()),
                None => false,
            };
            if still {
                ClickStep::Ask(Click::Frame)
            } else {
                ClickStep::Done(
                    Err(SendError::ChatListMoved { room: owned(target.name.as_str()) }),
                )
            }
        },
        (Click::Frame, ClickEvent::Frame(there)) => if there {
            ClickStep::Ask(Click::Act)
        } else {
            ClickStep::Done(Err(SendError::RoomOpenFailed(owned(target.name.as_str()))))
        },
        (Click::Act, ClickEvent::Acted(r)) => ClickStep::Done(r),
        _ => ClickStep::Ask(state),
    }
}

// ---------------------------------------------------------------------------
// Laws
// ---------------------------------------------------------------------------

/// Where the tries stand after a sequence of events.
pub open spec fn opening_run(name: Seq<char>, events: Seq<OpenEventView>) -> OpenStepView
    decreases events.len(),
{
    if events.len() == 0 {
        OpenStepView::Ask(opening_begun())
    } else {
        match opening_run(name, events.drop_last()) {
            OpenStepView::Ask(state) => open_next(name, state, events.last()),
            done => done,
        }
    }
}

/// Whether the windows were once seen with exactly one of the room's name, at place `i`.
pub open spec fn seen_alone(name: Seq<char>, events: Seq<OpenEventView>, i: int) -> bool {
    exists|k: int|
        0 <= k < events.len() && (#[trigger] events[k] matches OpenEventView::Windows(titles)
            && matching(titles, name) == seq![i])
}

/// Whether the windows of each event can be counted by the machine.
pub open spec fn countable(events: Seq<OpenEventView>) -> bool {
    forall|k: int|
        0 <= k < events.len() ==> (#[trigger] events[k] matches OpenEventView::Windows(titles)
            ==> titles.len() <= usize::MAX)
}

/// What is known in each state of the tries.
proof fn lemma_opening_run(name: Seq<char>, events: Seq<OpenEventView>)
    requires
        countable(events),
    ensures
        match opening_run(name, events) {
            OpenStepView::Ask(state) => state.attempt < OPEN_ATTEMPTS && (
            state.phase matches OpenPhase::ClearFound { window } ==> seen_alone(
                name,
                events,
                window as int,
            )),
            OpenStepView::Done(r) => r matches Ok(window) ==> seen_alone(
                name,
                events,
                window as int,
            ),
        },
    decreases events.len(),
{
    if events.len() > 0 {
        let front = events.drop_last();
        let n = events.len() - 1;
        assert forall|k: int| 0 <= k < front.len() implies (
        #[trigger] front[k] matches OpenEventView::Windows(titles) ==> titles.len()
            <= usize::MAX) by {
            assert(front[k] == events[k]);
        }
        lemma_opening_run(name, front);
        assert(events[n] == events.last());
        assert forall|i: int| seen_alone(name, front, i) implies seen_alone(name, events, i) by {
            let k = choose|k: int|
                0 <= k < front.len() && (#[trigger] front[k] matches OpenEventView::Windows(titles)
                    && matching(titles, name) == seq![i]);
            assert(events[k] == front[k]);
        }
        if let OpenEventView::Windows(titles) = events.last() {
            let hits = matching(titles, name);
            lemma_matching(titles, name);
            if hits.len() == 1 {
                assert(0 <= hits[0] < titles.len());
                assert(hits == seq![hits[0]]);
            }
        }
    }
}

/// A window is used only where it was the one open window with the room's name.
pub proof fn law_opened_window_was_the_only_one(name: Seq<char>, events: Seq<OpenEventView>)
    requires
        countable(events),
    ensures
        opening_run(name, events) matches OpenStepView::Done(Ok(window)) ==> seen_alone(
            name,
            events,
            window as int,
        ),
{
    lemma_opening_run(name, events);
}

/// The number of tries is bounded, and each one goes its way: search, the
/// recent rows, all rows, in turns.
pub proof fn law_tries_are_bounded(name: Seq<char>, events: Seq<OpenEventView>)
    requires
        countable(events),
    ensures
        opening_run(name, events) matches OpenStepView::Ask(state) ==> state.attempt
            < OPEN_ATTEMPTS,
{
    lemma_opening_run(name, events);
}

/// Two rooms of one name end the tries at once, with that error.
pub proof fn law_ambiguity_is_not_retried(
    name: Seq<char>,
    state: OpeningView,
    error: SendErrorView,
)
    requires
        state.phase == OpenPhase::Open,
        error is AmbiguousRoom,
    ensures
        open_next(name, state, OpenEventView::Opened(Err(error))) == OpenStepView::Done(
            Err::<usize, SendErrorView>(error),
        ),
{
}

/// After the last try, the error is that of the last try.
pub proof fn law_last_error_is_reported(
    name: Seq<char>,
    state: OpeningView,
    error: SendErrorView,
)
    requires
        state.phase == OpenPhase::Open,
        state.attempt == OPEN_ATTEMPTS - 1,
        !(error is AmbiguousRoom),
    ensures
        ({
            let failed = open_next(name, state, OpenEventView::Opened(Err(error)));
            failed matches OpenStepView::Ask(end) && open_next(name, end, OpenEventView::Cleared)
                == OpenStepView::Done(Err::<usize, SendErrorView>(error))
        }),
{
}

/// Where a search stands after a sequence of events.
pub open spec fn search_run(
    name: Seq<char>,
    rank: Option<usize>,
    events: Seq<SearchEventView>,
) -> SearchStepView
    decreases events.len(),
{
    if events.len() == 0 {
        SearchStepView::Ask(Search::Main)
    } else {
        match search_run(name, rank, events.drop_last()) {
            SearchStepView::Ask(state) => search_next(name, rank, state, events.last()),
            done => done,
        }
    }
}

/// A row is clicked only where the field was read to hold the query, and where
/// the names that were read choose that row.
pub proof fn law_search_clicks_only_what_it_read(
    name: Seq<char>,
    rank: Option<usize>,
    events: Seq<SearchEventView>,
)
    ensures
        match search_run(name, rank, events) {
            SearchStepView::Ask(Search::Click { row }) => events.contains(
                SearchEventView::Value(Some(search_query(name))),
            ) && exists|k: int|
                0 <= k < events.len() && (#[trigger] events[k] matches SearchEventView::Names(names)
                    && (chosen_row(names, name, rank) matches Ok(i) && row == i as usize)),
            SearchStepView::Ask(Search::Count) => events.contains(
                SearchEventView::Value(Some(search_query(name))),
            ),
            SearchStepView::Ask(Search::Filter { full, looks }) => events.contains(
                SearchEventView::Value(Some(search_query(name))),
            ),
            SearchStepView::Ask(Search::Names { full, looks }) => events.contains(
                SearchEventView::Value(Some(search_query(name))),
            ),
            _ => true,
        },
    decreases events.len(),
{
    if events.len() > 0 {
        let front = events.drop_last();
        let n = events.len() - 1;
        law_search_clicks_only_what_it_read(name, rank, front);
        assert(events[n] == events.last());
        let landed = SearchEventView::Value(Some(search_query(name)));
        if front.contains(landed) {
            let k = choose|k: int| 0 <= k < front.len() && front[k] == landed;
            assert(events[k] == landed);
        }
        if let SearchStepView::Ask(Search::Click { row }) = search_run(name, rank, front) {
            let k = choose|k: int|
                0 <= k < front.len() && (#[trigger] front[k] matches SearchEventView::Names(names)
                    && (chosen_row(names, name, rank) matches Ok(i) && row == i as usize));
            assert(events[k] == front[k]);
        }
    }
}

/// A row is clicked only right after it was read to have the room's name.
pub proof fn law_click_follows_the_name(name: Seq<char>, state: Click, event: ClickEventView)
    ensures
        click_next(name, state, event) == ClickStepView::Ask(Click::Act) && state != Click::Act
            ==> state == Click::Frame,
        click_next(name, state, event) == ClickStepView::Ask(Click::Frame) && state != Click::Frame
            ==> (event matches ClickEventView::Name(Some(shown)) && rooms_match(shown, name)),
{
}

/// The one open window of the room's name is used and nothing is opened; several
/// are never chosen among; where there is none, the room is opened only if that is
/// allowed.
pub proof fn law_the_open_window_is_used(
    titles: Seq<Option<Seq<char>>>,
    name: Seq<char>,
    allow_open: bool,
)
    requires
        titles.len() <= usize::MAX,
    ensures
        match window_choice(titles, name, allow_open) {
            Ok(Some(i)) => 0 <= i < titles.len() && (titles[i] matches Some(title) && rooms_match(
                title,
                name,
            )) && forall|j: int|
                0 <= j < titles.len() && j != i ==> !(#[trigger] titles[j] matches Some(title)
                    && rooms_match(title, name)),
            Ok(None) => allow_open && forall|j: int|
                0 <= j < titles.len() ==> !(#[trigger] titles[j] matches Some(title)
                    && rooms_match(title, name)),
            Err(SendErrorView::AmbiguousRoom { room, count }) => room == name && count > 1 && count
                == matching(titles, name).len(),
            Err(SendErrorView::WindowNotOpen { room, open }) => room == name && open == titles_line(
                titles,
            ) && !allow_open && forall|j: int|
                0 <= j < titles.len() ==> !(#[trigger] titles[j] matches Some(title)
                    && rooms_match(title, name)),
            _ => false,
        },
{
    lemma_matching(titles, name);
    let hits = matching(titles, name);
    assert forall|j: int|
        0 <= j < titles.len() && (#[trigger] titles[j] matches Some(title) && rooms_match(
            title,
            name,
        )) implies hits.len() > 0 && (hits.len() == 1 ==> j == hits[0]) by {
        assert(hits.contains(j));
    }
}

/// The tries take turns: each way is followed by another one, and comes again only
/// after the two others.
pub proof fn law_ways_take_turns(attempt: int)
    requires
        attempt >= 0,
    ensures
        strategy_of(attempt) != strategy_of(attempt + 1),
        strategy_of(attempt) != strategy_of(attempt + 2),
        strategy_of(attempt) == strategy_of(attempt + 3),
        strategy_of(0) == Strategy::Search,
        strategy_of(1) == Strategy::Recent,
{
}

/// A room that opens is used: a send that was not cancelled tries, and where the
/// try succeeds and one window has the room's name, that window is the outcome
/// once the search field is cleared.
pub proof fn law_a_room_that_opens_is_used(
    name: Seq<char>,
    state: OpeningView,
    titles: Seq<Option<Seq<char>>>,
    i: int,
)
    requires
        state.phase == OpenPhase::Check,
        titles.len() <= usize::MAX,
        0 <= i < titles.len(),
        titles[i] is Some,
        rooms_match(titles[i]->0, name),
        forall|j: int|
            0 <= j < titles.len() && j != i ==> !(#[trigger] titles[j] matches Some(title)
                && rooms_match(title, name)),
    ensures
        ({
            let trying = OpeningView { phase: OpenPhase::Open, ..state };
            let looking = OpeningView { phase: OpenPhase::Look { looks: 0 }, ..state };
            let found = OpeningView { phase: OpenPhase::ClearFound { window: i as usize }, ..state
            };
            &&& open_next(name, state, OpenEventView::Cancelled(false)) == OpenStepView::Ask(trying)
            &&& open_next(name, state, OpenEventView::Cancelled(true)) == OpenStepView::Done(
                Err::<usize, SendErrorView>(SendErrorView::Cancelled),
            )
            &&& open_next(name, trying, OpenEventView::Opened(Ok(()))) == OpenStepView::Ask(looking)
            &&& open_next(name, looking, OpenEventView::Windows(titles)) == OpenStepView::Ask(found)
            &&& open_next(name, found, OpenEventView::Cleared) == OpenStepView::Done(
                Ok::<usize, SendErrorView>(i as usize),
            )
        }),
{
    law_the_open_window_is_used(titles, name, true);
    lemma_matching(titles, name);
    let hits = matching(titles, name);
    assert(hits.contains(i));
    lemma_matching_once(titles, name);
    assert forall|k: int| 0 <= k < hits.len() implies hits[k] == i by {
        assert(titles[hits[k]] is Some);
    }
    if hits.len() > 1 {
        assert(hits[0] != hits[1]);
    }
}

proof fn lemma_matching_once(names: Seq<Option<Seq<char>>>, wanted: Seq<char>)
    ensures
        forall|j: int, k: int|
            0 <= j < k < matching(names, wanted).len() ==> #[trigger] matching(names, wanted)[j]
                < #[trigger] matching(names, wanted)[k],
    decreases names.len(),
{
    if names.len() > 0 {
        let front = names.drop_last();
        lemma_matching_once(front, wanted);
        lemma_matching(front, wanted);
        let hits = matching(names, wanted);
        let held = matching(front, wanted);
        assert forall|j: int, k: int| 0 <= j < k < hits.len() implies #[trigger] hits[j]
            < #[trigger] hits[k] by {
            assert(hits[j] == held[j]);
            if k < held.len() {
                assert(hits[k] == held[k]);
            }
        }
    }
}

/// A try that fails is followed by the next, and the error is kept; after search
/// the field is cleared first. A window that does not show is looked for twenty
/// times.
pub proof fn law_a_failed_try_is_followed_by_the_next(
    name: Seq<char>,
    state: OpeningView,
    error: SendErrorView,
    titles: Seq<Option<Seq<char>>>,
    looks: u8,
)
    requires
        state.attempt < 5,
        !(error is AmbiguousRoom),
    ensures
        ({
            let trying = OpeningView { phase: OpenPhase::Open, ..state };
            let next = OpeningView {
                attempt: (state.attempt + 1) as u8,
                phase: OpenPhase::Check,
                last: Some(error),
            };
            match open_next(name, trying, OpenEventView::Opened(Err(error))) {
                OpenStepView::Ask(after) => if strategy_of(state.attempt as int)
                    == Strategy::Search {
                    open_ask(after) == OpenAsk::ClearSearch && open_next(
                        name,
                        after,
                        OpenEventView::Cleared,
                    ) == OpenStepView::Ask(next)
                } else {
                    after == next
                },
                _ => false,
            }
        }),
        matching(titles, name).len() != 1 && looks < 19 ==> open_next(
            name,
            OpeningView { phase: OpenPhase::Look { looks }, ..state },
            OpenEventView::Windows(titles),
        ) == OpenStepView::Ask(
            OpeningView { phase: OpenPhase::Look { looks: (looks + 1) as u8 }, ..state },
        ),
{
}

/// A row of the list is opened as it is chosen among the names; only a look at all
/// rows goes beyond the first sixty.
pub proof fn law_rows_are_chosen_from_the_list(
    names: Seq<Option<Seq<char>>>,
    strategy: Strategy,
    name: Seq<char>,
    rank: Option<usize>,
)
    ensures
        listed_row(None, strategy, name, rank) == Err::<int, SendErrorView>(
            SendErrorView::ChatListUnavailable,
        ),
        0 < names.len() <= 60 || (names.len() > 0 && strategy == Strategy::All) ==> listed_row(
            Some(names),
            strategy,
            name,
            rank,
        ) == chosen_row(names, name, rank),
        listed_row(Some(names), strategy, name, rank) matches Ok(i) ==> 0 <= i < names.len() && (
        strategy != Strategy::All ==> i < 60) && (names[i] matches Some(found) && rooms_match(
            found,
            name,
        )),
{
    assert(names.take(names.len() as int) =~= names);
    let scanned = if strategy != Strategy::All && 60 < names.len() {
        60int
    } else {
        names.len() as int
    };
    let rows = names.take(scanned);
    law_chosen_row_has_the_name(rows, name, rank);
    if let Ok(i) = listed_row(Some(names), strategy, name, rank) {
        assert(rows[i] == names[i]);
    }
}

/// A search that finds the room clicks its row: the list and the field are there,
/// the query is typed and read back, the list is filtered and its names choose the
/// row.
pub proof fn law_a_search_that_finds_clicks(
    name: Seq<char>,
    rank: Option<usize>,
    full: usize,
    rows: usize,
    names: Seq<Option<Seq<char>>>,
    row: usize,
    r: Result<(), SendErrorView>,
    looks: u8,
)
    requires
        0 < rows < full,
        chosen_row(names, name, rank) == Ok::<int, SendErrorView>(row as int),
    ensures
        search_next(name, rank, Search::Main, SearchEventView::Present(true))
            == SearchStepView::Ask(Search::Field),
        search_next(name, rank, Search::Field, SearchEventView::Present(true))
            == SearchStepView::Ask(Search::Type),
        search_next(name, rank, Search::Type, SearchEventView::Typed(Ok(())))
            == SearchStepView::Ask(Search::Land { looks: 0 }),
        search_next(
            name,
            rank,
            Search::Land { looks },
            SearchEventView::Value(Some(search_query(name))),
        ) == SearchStepView::Ask(Search::Count),
        search_next(name, rank, Search::Count, SearchEventView::Rows(Some(full)))
            == SearchStepView::Ask(Search::Filter { full, looks: 0 }),
        search_next(
            name,
            rank,
            Search::Filter { full, looks },
            SearchEventView::Rows(Some(rows)),
        ) == SearchStepView::Ask(Search::Names { full, looks }),
        search_next(name, rank, Search::Names { full, looks }, SearchEventView::Names(names))
            == SearchStepView::Ask(Search::Click { row }),
        search_next(name, rank, Search::Click { row }, SearchEventView::Clicked(r))
            == SearchStepView::Done(r),
{
}

/// A search that does not find the room says so: no list, no field, a field that
/// never held the query, a list that was never filtered to the room. An empty list
/// and one with as many rows as before are not filtered yet.
pub proof fn law_a_search_that_fails_says_why(
    name: Seq<char>,
    rank: Option<usize>,
    value: Option<Seq<char>>,
    full: usize,
    looks: u8,
    error: SendErrorView,
)
    ensures
        search_next(name, rank, Search::Main, SearchEventView::Present(false))
            == SearchStepView::Done(
            Err::<(), SendErrorView>(SendErrorView::ChatListUnavailable),
        ),
        search_next(name, rank, Search::Field, SearchEventView::Present(false))
            == SearchStepView::Done(Err::<(), SendErrorView>(SendErrorView::SearchUnavailable)),
        search_next(name, rank, Search::Type, SearchEventView::Typed(Err(error)))
            == SearchStepView::Done(Err::<(), SendErrorView>(error)),
        value != Some(search_query(name)) && looks < 19 ==> search_next(
            name,
            rank,
            Search::Land { looks },
            SearchEventView::Value(value),
        ) == SearchStepView::Ask(Search::Land { looks: (looks + 1) as u8 }),
        value != Some(search_query(name)) && looks >= 19 ==> search_next(
            name,
            rank,
            Search::Land { looks },
            SearchEventView::Value(value),
        ) == SearchStepView::Ask(Search::Misread),
        search_next(name, rank, Search::Misread, SearchEventView::Value(value)) matches
            SearchStepView::Done(Err(SendErrorView::ValueMismatch { what, wrote, found })) && wrote
            == described(search_query(name)) && (value matches Some(held) ==> found == described(
            held,
        )),
        search_next(name, rank, Search::Count, SearchEventView::Rows(None))
            == SearchStepView::Done(
            Err::<(), SendErrorView>(SendErrorView::ChatListUnavailable),
        ),
        looks < 24 ==> search_next(
            name,
            rank,
            Search::Filter { full, looks },
            SearchEventView::Rows(Some(full)),
        ) == SearchStepView::Ask(Search::Filter { full, looks: (looks + 1) as u8 }),
        looks < 24 ==> search_next(
            name,
            rank,
            Search::Filter { full, looks },
            SearchEventView::Rows(Some(0)),
        ) == SearchStepView::Ask(Search::Filter { full, looks: (looks + 1) as u8 }),
        looks >= 24 ==> search_next(
            name,
            rank,
            Search::Filter { full, looks },
            SearchEventView::Rows(Some(full)),
        ) == SearchStepView::Done(
            Err::<(), SendErrorView>(SendErrorView::RoomNotFound(name)),
        ),
{
}

/// A row that still has the room's name and is on the screen is clicked; one that
/// has not is reported as moved, one that is not there as not opened.
pub proof fn law_a_row_that_stayed_is_clicked(
    name: Seq<char>,
    shown: Option<Seq<char>>,
    r: Result<(), SendErrorView>,
)
    ensures
        click_next(name, Click::Name, ClickEventView::Name(shown)) == ClickStepView::Ask(
            Click::Frame,
        ) <==> (shown matches Some(text) && rooms_match(text, name)),
        !(shown matches Some(text) && rooms_match(text, name)) ==> click_next(
            name,
            Click::Name,
            ClickEventView::Name(shown),
        ) == ClickStepView::Done(
            Err::<(), SendErrorView>(SendErrorView::ChatListMoved { room: name }),
        ),
        click_next(name, Click::Frame, ClickEventView::Frame(true)) == ClickStepView::Ask(
            Click::Act,
        ),
        click_next(name, Click::Frame, ClickEventView::Frame(false)) == ClickStepView::Done(
            Err::<(), SendErrorView>(SendErrorView::RoomOpenFailed(name)),
        ),
        click_next(name, Click::Act, ClickEventView::Acted(r)) == ClickStepView::Done(r),
{
}

} // verus!
