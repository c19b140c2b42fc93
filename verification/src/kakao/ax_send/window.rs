//! What the client's windows show.
//!
//! An [`Element`] is what was read of an element of the accessibility tree.
//! A place in the tree is the path to it: an index into the children at each
//! level.

use crate::kakao::ax_send::room::{room_matches, rooms_match};
use crate::kakao::ax_send::{RoomTarget, SendError, SendErrorView};
use crate::text::number::{all_digits, decimal, is_digit, law_written_numbers_read_back};
use crate::text::split::{
    contains_text, join, join_strings, law_a_text_holds_its_middle,
    law_every_character_has_to_match, law_join_holds_every_part, occurs_at, part_start,
    text_contains, views,
};
use crate::text::trim::{law_trimming_drops_only_white_space, trim, trimmed};
use crate::text::{chars_of, owned, same, string_of, white_space};
use vstd::prelude::*;

verus! {

/// An element of a window, as it was read.
#[derive(Debug)]
pub struct Element {
    pub role: String,
    pub title: Option<String>,
    pub value: Option<String>,
    pub description: Option<String>,
    pub children: Vec<Element>,
    /// The rows, where the element is a table.
    pub rows: Vec<Element>,
}

/// Rows that are looked at to tell whether a table is the chat list.
pub const MAIN_WINDOW_SAMPLE: usize = 10;

/// How deep the button is that confirms a sheet.
pub const CONFIRM_DEPTH: u32 = 6;

/// An optional text as a sequence of characters.
pub open spec fn opt_view(text: Option<String>) -> Option<Seq<char>> {
    match text {
        Some(text) => Some(text@),
        None => None,
    }
}

/// Optional texts as sequences of characters.
pub open spec fn opt_views(texts: Seq<Option<String>>) -> Seq<Option<Seq<char>>> {
    texts.map_values(|text: Option<String>| opt_view(text))
}

/// A copy of an optional text.
fn opt_copy(text: &Option<String>) -> (copy: Option<String>)
    ensures
        opt_view(copy) == opt_view(*text),
{
    match text {
        Some(text) => Some(owned(text.as_str())),
        None => None,
    }
}

// ---------------------------------------------------------------------------
// Finding elements
// ---------------------------------------------------------------------------

/// The index of the first element of a role at or after `from`, or the length.
pub open spec fn first_of_role(els: Seq<Element>, role: Seq<char>, from: int) -> int
    decreases els.len() - from,
{
    if from >= els.len() {
        els.len() as int
    } else if els[from].role@ == role {
        from
    } else {
        first_of_role(els, role, from + 1)
    }
}

/// The index of the first element of a role.
pub fn find_role(els: &[Element], role: &str) -> (r: Option<usize>)
    ensures
        match r {
            Some(i) => i < els@.len() && first_of_role(els@, role@, 0) == i,
            None => first_of_role(els@, role@, 0) == els@.len(),
        },
{
    for i in 0..els.len()
        invariant
            first_of_role(els@, role@, 0) == first_of_role(els@, role@, i as int),
    {
        if same(els[i].role.as_str(), role) {
            return Some(i);
        }
    }
    None
}

/// The first child of the role `outer`, at or after `from`, that has a child
/// of the role `inner`; and the first such child of it.
pub open spec fn first_inner(
    els: Seq<Element>,
    outer: Seq<char>,
    inner: Seq<char>,
    from: int,
) -> Option<(int, int)>
    decreases els.len() - from,
{
    if from >= els.len() {
        None
    } else {
        let children = els[from].children@;
        let at = first_of_role(children, inner, 0);
        if els[from].role@ == outer && at < children.len() {
            Some((from, at))
        } else {
            first_inner(els, outer, inner, from + 1)
        }
    }
}

/// Exec form of [`first_inner`], from the first child on.
fn find_inner(window: &Element, outer: &str, inner: &str) -> (r: Option<(usize, usize)>)
    ensures
        match r {
            Some((i, j)) => i < window.children@.len() && j < window.children@[i as int].children@.len()
                && first_inner(window.children@, outer@, inner@, 0) == Some((i as int, j as int)),
            None => first_inner(window.children@, outer@, inner@, 0) is None,
        },
{
    for i in 0..window.children.len()
        invariant
            first_inner(window.children@, outer@, inner@, 0) == first_inner(
                window.children@,
                outer@,
                inner@,
                i as int,
            ),
    {
        if same(window.children[i].role.as_str(), outer) {
            if let Some(j) = find_role(window.children[i].children.as_slice(), inner) {
                return Some((i, j));
            }
        }
    }
    None
}

/// The place of the box in which a message is composed.
pub open spec fn compose_place(window: Element) -> Option<(int, int)> {
    first_inner(window.children@, "AXScrollArea"@, "AXTextArea"@, 0)
}

/// The place of the table of a window: of its chat list or its transcript.
pub open spec fn table_place(window: Element) -> Option<(int, int)> {
    first_inner(window.children@, "AXScrollArea"@, "AXTable"@, 0)
}

/// The place of the box in which a message is composed: the text area in a scroll area.
pub fn compose_box(window: &Element) -> (r: Option<(usize, usize)>)
    ensures
        match r {
            Some((i, j)) => compose_place(*window) == Some((i as int, j as int)),
            None => compose_place(*window) is None,
        },
{
    find_inner(window, "AXScrollArea", "AXTextArea")
}

/// The place of the table of a window: the table in a scroll area.
pub fn chat_list_table_in(window: &Element) -> (r: Option<(usize, usize)>)
    ensures
        match r {
            Some((i, j)) => i < window.children@.len() && j < window.children@[i as int].children@.len()
                && table_place(*window) == Some((i as int, j as int)),
            None => table_place(*window) is None,
        },
{
    find_inner(window, "AXScrollArea", "AXTable")
}

/// The rows of the table of a window, where it has one.
pub open spec fn table_rows(window: Element) -> Option<Seq<Element>> {
    match table_place(window) {
        Some((i, j)) => Some(window.children@[i].children@[j].rows@),
        None => None,
    }
}

/// How many rows the transcript of a window has, where it has one.
pub fn transcript_row_count(window: &Element) -> (r: Option<usize>)
    ensures
        match r {
            Some(n) => table_rows(*window) matches Some(rows) && rows.len() == n,
            None => table_rows(*window) is None,
        },
{
    match chat_list_table_in(window) {
        Some((i, j)) => Some(window.children[i].children[j].rows.len()),
        None => None,
    }
}

/// The index of the field in which rooms are searched for, where it shows.
pub fn search_field(window: &Element) -> (r: Option<usize>)
    ensures
        match r {
            Some(i) => i < window.children@.len() && first_of_role(
                window.children@,
                "AXTextField"@,
                0,
            ) == i,
            None => first_of_role(window.children@, "AXTextField"@, 0) == window.children@.len(),
        },
{
    find_role(window.children.as_slice(), "AXTextField")
}

/// Whether an element is the button that reveals the search field.
pub open spec fn is_search_button(el: Element) -> bool {
    el.role@ == "AXButton"@ && (el.description matches Some(text) && (text@ == "검색"@ || text@
        == "Search"@))
}

/// The index of the first child that is the button which reveals the search field.
pub fn search_button(window: &Element) -> (r: Option<usize>)
    ensures
        match r {
            Some(i) => i < window.children@.len() && is_search_button(window.children@[i as int])
                && forall|j: int| 0 <= j < i ==> !is_search_button(#[trigger] window.children@[j]),
            None => forall|j: int|
                0 <= j < window.children@.len() ==> !is_search_button(#[trigger] window.children@[j]),
        },
{
    for i in 0..window.children.len()
        invariant
            forall|j: int| 0 <= j < i ==> !is_search_button(#[trigger] window.children@[j]),
    {
        let el = &window.children[i];
        if same(el.role.as_str(), "AXButton") {
            if let Some(text) = &el.description {
                if same(text.as_str(), "검색") || same(text.as_str(), "Search") {
                    return Some(i);
                }
            }
        }
    }
    None
}

/// What is looked for below an element.
#[derive(Debug, Clone, Copy, PartialEq, Eq, Structural)]
pub enum Sought {
    /// A sheet.
    Sheet,
    /// A button that confirms.
    Confirm,
}

/// Whether a title is that of a button that confirms.
pub open spec fn confirms(title: Seq<char>) -> bool {
    let t = trim(title);
    t == "전송"@ || t == "Send"@ || t == "확인"@ || t == "OK"@
}

/// Whether an element is what is looked for.
pub open spec fn fits(el: Element, sought: Sought) -> bool {
    match sought {
        Sought::Sheet => el.role@ == "AXSheet"@,
        Sought::Confirm => el.role@ == "AXButton"@ && confirms(
            match el.title {
                Some(title) => title@,
                None => seq![],
            },
        ),
    }
}

/// Exec form of [`fits`].
fn fits_element(el: &Element, sought: Sought) -> (r: bool)
    ensures
        r == fits(*el, sought),
{
    match sought {
        Sought::Sheet => same(el.role.as_str(), "AXSheet"),
        Sought::Confirm => {
            if !same(el.role.as_str(), "AXButton") {
                return false;
            }
            let title: Vec<char> = match &el.title {
                Some(title) => chars_of(title.as_str()),
                None => Vec::new(),
            };
            proof {
                assert(el.title is None ==> title@ == Seq::<char>::empty());
            }
            let text = string_of(trimmed(title.as_slice()).as_slice());
            same(text.as_str(), "전송") || same(text.as_str(), "Send") || same(
                text.as_str(),
                "확인",
            ) || same(text.as_str(), "OK")
        },
    }
}

/// The path to the first element below `el`, down to `depth` levels, that is
/// looked for: an element before what is below it, and that before the next
/// element of its level.
pub open spec fn found_below(el: Element, sought: Sought, depth: nat) -> Option<Seq<int>>
    decreases depth, el.children@.len() + 1,
{
    if depth == 0 {
        None
    } else {
        found_among(el.children@, sought, depth, 0)
    }
}

/// [`found_below`] among the elements of one level, from `from` on.
pub open spec fn found_among(els: Seq<Element>, sought: Sought, depth: nat, from: int) -> Option<
    Seq<int>,
>
    decreases depth, els.len() - from,
{
    if from >= els.len() || depth == 0 {
        None
    } else if fits(els[from], sought) {
        Some(seq![from])
    } else {
        match found_below(els[from], sought, (depth - 1) as nat) {
            Some(path) => Some(seq![from] + path),
            None => found_among(els, sought, depth, from + 1),
        }
    }
}

/// A path as integers.
pub open spec fn steps(path: Seq<usize>) -> Seq<int> {
    path.map_values(|i: usize| i as int)
}

/// The path to the first element below `el`, down to `depth` levels, that is looked for.
pub fn find_descendant(el: &Element, sought: Sought, depth: u32) -> (r: Option<Vec<usize>>)
    ensures
        match r {
            Some(path) => found_below(*el, sought, depth as nat) == Some(steps(path@)),
            None => found_below(*el, sought, depth as nat) is None,
        },
    decreases depth,
{
    if depth == 0 {
        return None;
    }
    for i in 0..el.children.len()
        invariant
            depth > 0,
            found_below(*el, sought, depth as nat) == found_among(
                el.children@,
                sought,
                depth as nat,
                i as int,
            ),
    {
        if fits_element(&el.children[i], sought) {
            let mut path: Vec<usize> = Vec::new();
            path.push(i);
            proof {
                assert(steps(path@) == seq![i as int]);
            }
            return Some(path);
        }
        if let Some(rest) = find_descendant(&el.children[i], sought, depth - 1) {
            let mut path: Vec<usize> = Vec::new();
            path.push(i);
            let mut rest: Vec<usize> = rest;
            let ghost below = steps(rest@);
            path.append(&mut rest);
            proof {
                assert(steps(path@) == seq![i as int] + below);
            }
            return Some(path);
        }
    }
    None
}

/// The path to the button that confirms a sheet.
pub fn find_confirm_button(sheet: &Element) -> (r: Option<Vec<usize>>)
    ensures
        match r {
            Some(path) => found_below(*sheet, Sought::Confirm, CONFIRM_DEPTH as nat) == Some(
                steps(path@),
            ),
            None => found_below(*sheet, Sought::Confirm, CONFIRM_DEPTH as nat) is None,
        },
{
    find_descendant(sheet, Sought::Confirm, CONFIRM_DEPTH)
}

// ---------------------------------------------------------------------------
// Rows of the chat list
// ---------------------------------------------------------------------------

/// Whether a character may stand in a date written with digits.
pub open spec fn date_char(c: char) -> bool {
    is_digit(c) || c == '.' || c == '/' || c == '-' || c == ':' || c == ' '
}

/// Whether a text of a row is never the name of a room: it is blank, a count,
/// a time of day, a relative day, or a date.
pub open spec fn row_metadata(value: Seq<char>) -> bool {
    let v = trim(value);
    ||| v.len() == 0
    ||| all_digits(v)
    ||| contains_text(v, "오전"@)
    ||| contains_text(v, "오후"@)
    ||| contains_text(v, "AM"@)
    ||| contains_text(v, "PM"@)
    ||| v == "어제"@
    ||| v == "오늘"@
    ||| v == "Yesterday"@
    ||| v == "Today"@
    ||| forall|i: int| 0 <= i < v.len() ==> date_char(#[trigger] v[i])
}

/// Whether all characters may stand in a date, and whether all are digits.
fn digits_and_dates(chars: &[char]) -> (r: (bool, bool))
    ensures
        r.0 == all_digits(chars@),
        r.1 == (forall|i: int| 0 <= i < chars@.len() ==> date_char(#[trigger] chars@[i])),
{
    let mut count: bool = true;
    let mut date: bool = true;
    for i in 0..chars.len()
        invariant
            count == (forall|j: int| 0 <= j < i ==> is_digit(#[trigger] chars@[j])),
            date == (forall|j: int| 0 <= j < i ==> date_char(#[trigger] chars@[j])),
    {
        let c: char = chars[i];
        let is_count: bool = '0' <= c && c <= '9';
        count = count && is_count;
        date = date && (is_count || c == '.' || c == '/' || c == '-' || c == ':' || c == ' ');
    }
    (count, date)
}

/// Whether a text of a row is never the name of a room.
pub fn is_row_metadata(value: &str) -> (r: bool)
    ensures
        r == row_metadata(value@),
{
    let chars = chars_of(value);
    let kept = trimmed(chars.as_slice());
    let v = string_of(kept.as_slice());
    let (count, date) = digits_and_dates(kept.as_slice());
    kept.len() == 0 || count || text_contains(v.as_str(), "오전") || text_contains(
        v.as_str(),
        "오후",
    ) || text_contains(v.as_str(), "AM") || text_contains(v.as_str(), "PM") || same(
        v.as_str(),
        "어제",
    ) || same(v.as_str(), "오늘") || same(v.as_str(), "Yesterday") || same(v.as_str(), "Today")
        || date
}

/// Whether an element of a row's cell shows the name of the room.
pub open spec fn shows_name(el: Element) -> bool {
    el.role@ == "AXStaticText"@ && (el.value matches Some(value) && !row_metadata(value@))
}

/// The first value, from `from` on, that is the name of the room.
pub open spec fn first_name(els: Seq<Element>, from: int) -> Option<Seq<char>>
    decreases els.len() - from,
{
    if from >= els.len() {
        None
    } else if shows_name(els[from]) {
        opt_view(els[from].value)
    } else {
        first_name(els, from + 1)
    }
}

/// The name of the room of a row: the first static text of its first cell that can be one.
pub open spec fn row_name(row: Element) -> Option<Seq<char>> {
    let cell = first_of_role(row.children@, "AXCell"@, 0);
    if cell < row.children@.len() {
        first_name(row.children@[cell].children@, 0)
    } else {
        None
    }
}

/// The name of the room of a row.
pub fn row_room_name(row: &Element) -> (name: Option<String>)
    ensures
        opt_view(name) == row_name(*row),
{
    match find_role(row.children.as_slice(), "AXCell") {
        None => None,
        Some(cell) => {
            let texts = row.children[cell].children.as_slice();
            for i in 0..texts.len()
                invariant
                    row_name(*row) == first_name(texts@, i as int),
            {
                if same(texts[i].role.as_str(), "AXStaticText") {
                    if let Some(value) = &texts[i].value {
                        if !is_row_metadata(value.as_str()) {
                            return opt_copy(&texts[i].value);
                        }
                    }
                }
            }
            None
        },
    }
}

/// The names of the rooms of rows.
pub open spec fn row_names(rows: Seq<Element>) -> Seq<Option<Seq<char>>> {
    rows.map_values(|row: Element| row_name(row))
}

/// The names of the rooms of the first `limit` rows.
pub fn names_of_rows(rows: &[Element], limit: usize) -> (names: Vec<Option<String>>)
    ensures
        opt_views(names@) == row_names(rows@).take(
            if limit < rows@.len() {
                limit as int
            } else {
                rows@.len() as int
            },
        ),
{
    let total: usize = rows.len();
    let count: usize = if limit < total {
        limit
    } else {
        total
    };
    let mut names: Vec<Option<String>> = Vec::new();
    for i in 0..count
        invariant
            count <= total == rows@.len(),
            opt_views(names@) == row_names(rows@).take(i as int),
    {
        let ghost before = opt_views(names@);
        names.push(row_room_name(&rows[i]));
        proof {
            assert(opt_views(names@) == before.push(row_name(rows@[i as int])));
        }
    }
    names
}

/// How many of the names are there.
pub open spec fn named_count(names: Seq<Option<Seq<char>>>) -> nat
    decreases names.len(),
{
    if names.len() == 0 {
        0
    } else {
        named_count(names.drop_last()) + if names.last() is Some {
            1nat
        } else {
            0nat
        }
    }
}

/// How much a window looks like the one with the chat list: the rows with a
/// name among the first of its table.
pub open spec fn list_score(window: Element) -> nat {
    match table_rows(window) {
        Some(rows) => named_count(
            row_names(rows).take(
                if MAIN_WINDOW_SAMPLE < rows.len() {
                    MAIN_WINDOW_SAMPLE as int
                } else {
                    rows.len() as int
                },
            ),
        ),
        None => 0,
    }
}

/// Exec form of [`list_score`].
fn list_score_of(window: &Element) -> (n: usize)
    ensures
        n == list_score(*window),
{
    match chat_list_table_in(window) {
        None => 0,
        Some((i, j)) => {
            let rows = window.children[i].children[j].rows.as_slice();
            let names = names_of_rows(rows, MAIN_WINDOW_SAMPLE);
            let mut n: usize = 0;
            let ghost seen = opt_views(names@);
            for k in 0..names.len()
                invariant
                    seen == opt_views(names@),
                    n == named_count(seen.take(k as int)),
                    n <= k,
            {
                proof {
                    assert(seen.take(k + 1).drop_last() == seen.take(k as int));
                }
                if names[k].is_some() {
                    n = n + 1;
                }
            }
            proof {
                assert(seen.take(names@.len() as int) == seen);
            }
            n
        },
    }
}

/// Whether window `i` is the one with the chat list: it has named rows, none
/// has more, and no later one has as many.
pub open spec fn is_main_window(windows: Seq<Element>, i: int) -> bool {
    &&& 0 <= i < windows.len()
    &&& list_score(windows[i]) > 0
    &&& forall|j: int| 0 <= j < windows.len() ==> #[trigger] list_score(windows[j]) <= list_score(
        windows[i],
    )
    &&& forall|j: int| i < j < windows.len() ==> #[trigger] list_score(windows[j]) < list_score(
        windows[i],
    )
}

/// The window with the chat list.
pub fn main_window(windows: &[Element]) -> (r: Option<usize>)
    ensures
        match r {
            Some(i) => is_main_window(windows@, i as int),
            None => forall|i: int|
                0 <= i < windows@.len() ==> #[trigger] list_score(windows@[i]) == 0,
        },
{
    let mut best: Option<usize> = None;
    let mut best_score: usize = 0;
    for i in 0..windows.len()
        invariant
            match best {
                Some(b) => b < i && best_score == list_score(windows@[b as int]) && best_score > 0
                    && (forall|j: int|
                    0 <= j < i ==> #[trigger] list_score(windows@[j]) <= best_score) && (forall|j: int|
                    b < j < i ==> #[trigger] list_score(windows@[j]) < best_score),
                None => best_score == 0 && forall|j: int|
                    0 <= j < i ==> #[trigger] list_score(windows@[j]) == 0,
            },
    {
        let score: usize = list_score_of(&windows[i]);
        if score > 0 && score >= best_score {
            best = Some(i);
            best_score = score;
        }
    }
    best
}

/// The names that are there, in order.
pub open spec fn given(names: Seq<Option<Seq<char>>>) -> Seq<Seq<char>>
    decreases names.len(),
{
    if names.len() == 0 {
        seq![]
    } else {
        match names.last() {
            Some(name) => given(names.drop_last()).push(name),
            None => given(names.drop_last()),
        }
    }
}

/// The names of the first `limit` rooms of the chat list.
pub fn chat_list_rooms(windows: &[Element], limit: usize) -> (r: Result<Vec<String>, SendError>)
    ensures
        match r {
            Ok(rooms) => exists|i: int| #[trigger]
                is_main_window(windows@, i) && (table_rows(windows@[i]) matches Some(rows)
                    && views(rooms@) == given(
                    row_names(rows).take(
                        if limit < rows.len() {
                            limit as int
                        } else {
                            rows.len() as int
                        },
                    ),
                )),
            Err(error) => error is ChatListUnavailable && forall|i: int|
                0 <= i < windows@.len() ==> #[trigger] list_score(windows@[i]) == 0,
        },
{
    let at: usize = match main_window(windows) {
        Some(at) => at,
        None => {
            return Err(SendError::ChatListUnavailable);
        },
    };
    match chat_list_table_in(&windows[at]) {
        None => {
            proof {
                assert(list_score(windows@[at as int]) == 0);
            }
            Err(SendError::ChatListUnavailable)
        },
        Some((i, j)) => {
            let names = names_of_rows(windows[at].children[i].children[j].rows.as_slice(), limit);
            let ghost seen = opt_views(names@);
            let mut rooms: Vec<String> = Vec::new();
            proof {
                assert(views(rooms@) == given(seen.take(0)));
            }
            for k in 0..names.len()
                invariant
                    seen == opt_views(names@),
                    views(rooms@) == given(seen.take(k as int)),
            {
                proof {
                    assert(seen.take(k + 1).drop_last() == seen.take(k as int));
                    assert(seen.take(k + 1).last() == opt_view(names@[k as int]));
                }
                if let Some(name) = &names[k] {
                    let ghost before = views(rooms@);
                    rooms.push(owned(name.as_str()));
                    proof {
                        assert(views(rooms@) == before.push(name@));
                    }
                }
            }
            proof {
                assert(seen.take(names@.len() as int) == seen);
                assert(is_main_window(windows@, at as int));
            }
            Ok(rooms)
        },
    }
}

// ---------------------------------------------------------------------------
// Choosing among names
// ---------------------------------------------------------------------------

/// The places of the names that are those of a room, in order.
pub open spec fn matching(names: Seq<Option<Seq<char>>>, wanted: Seq<char>) -> Seq<int>
    decreases names.len(),
{
    if names.len() == 0 {
        seq![]
    } else {
        let front = matching(names.drop_last(), wanted);
        if names.last() matches Some(name) && rooms_match(name, wanted) {
            front.push(names.len() - 1)
        } else {
            front
        }
    }
}

/// The places of the names that are those of a room, in order.
pub fn matching_places(names: &[Option<String>], wanted: &str) -> (places: Vec<usize>)
    ensures
        steps(places@) == matching(opt_views(names@), wanted@),
        places@.len() <= names@.len(),
        forall|k: int| 0 <= k < places@.len() ==> #[trigger] places@[k] < names@.len(),
{
    let mut places: Vec<usize> = Vec::new();
    let ghost seen = opt_views(names@);
    proof {
        assert(steps(places@) == matching(seen.take(0), wanted@));
    }
    for i in 0..names.len()
        invariant
            seen == opt_views(names@),
            steps(places@) == matching(seen.take(i as int), wanted@),
            places@.len() <= i,
            forall|k: int| 0 <= k < places@.len() ==> #[trigger] places@[k] < i,
    {
        proof {
            assert(seen.take(i + 1).drop_last() == seen.take(i as int));
            assert(seen.take(i + 1).last() == opt_view(names@[i as int]));
        }
        let hit: bool = match &names[i] {
            Some(name) => room_matches(name.as_str(), wanted),
            None => false,
        };
        if hit {
            let ghost before = steps(places@);
            places.push(i);
            proof {
                assert(steps(places@) == before.push(i as int));
            }
        }
    }
    proof {
        assert(seen.take(names@.len() as int) == seen);
    }
    places
}

/// Which row is the target: the one that has its name; of several, the one of
/// its rank. Nothing is guessed.
pub open spec fn chosen_row(
    names: Seq<Option<Seq<char>>>,
    name: Seq<char>,
    rank: Option<usize>,
) -> Result<int, SendErrorView> {
    let hits = matching(names, name);
    if hits.len() == 0 {
        Err(SendErrorView::RoomNotInChatList { room: name, scanned: names.len() as usize })
    } else if hits.len() == 1 {
        Ok(hits[0])
    } else if rank matches Some(rank) && rank < hits.len() {
        Ok(hits[rank->0 as int])
    } else {
        Err(SendErrorView::AmbiguousRoom { room: name, count: hits.len() as usize })
    }
}

/// Which row is the target, or why that cannot be decided.
pub fn choose_row(names: &[Option<String>], target: &RoomTarget) -> (r: Result<usize, SendError>)
    ensures
        match r {
            Ok(i) => i < names@.len() && chosen_row(
                opt_views(names@),
                target.name@,
                target.rank,
            ) == Ok::<int, SendErrorView>(i as int),
            Err(error) => chosen_row(opt_views(names@), target.name@, target.rank) == Err::<
                int,
                SendErrorView,
            >(error@),
        },
{
    let hits = matching_places(names, target.name.as_str());
    let scanned: usize = names.len();
    let count: usize = hits.len();
    proof {
        assert(steps(hits@).len() == hits@.len());
        assert forall|k: int| 0 <= k < hits@.len() implies #[trigger] steps(hits@)[k]
            == hits@[k] by {}
    }
    if count == 0 {
        return Err(SendError::RoomNotInChatList { room: owned(target.name.as_str()), scanned });
    }
    if count == 1 {
        return Ok(hits[0]);
    }
    if let Some(rank) = target.rank {
        if rank < count {
            return Ok(hits[rank]);
        }
    }
    Err(SendError::AmbiguousRoom { room: owned(target.name.as_str()), count })
}

/// The titles that are there and not empty.
pub open spec fn shown_titles(titles: Seq<Option<Seq<char>>>) -> Seq<Seq<char>>
    decreases titles.len(),
{
    if titles.len() == 0 {
        seq![]
    } else {
        let front = shown_titles(titles.drop_last());
        match titles.last() {
            Some(title) => if title.len() > 0 {
                front.push(title)
            } else {
                front
            },
            None => front,
        }
    }
}

/// The titles of the open windows, those without one left out.
pub fn open_window_titles(titles: &[Option<String>]) -> (r: Vec<String>)
    ensures
        views(r@) == shown_titles(opt_views(titles@)),
{
    let mut r: Vec<String> = Vec::new();
    let ghost seen = opt_views(titles@);
    proof {
        assert(views(r@) == shown_titles(seen.take(0)));
    }
    for i in 0..titles.len()
        invariant
            seen == opt_views(titles@),
            views(r@) == shown_titles(seen.take(i as int)),
    {
        proof {
            assert(seen.take(i + 1).drop_last() == seen.take(i as int));
            assert(seen.take(i + 1).last() == opt_view(titles@[i as int]));
        }
        if let Some(title) = &titles[i] {
            if chars_of(title.as_str()).len() > 0 {
                let ghost before = views(r@);
                r.push(owned(title.as_str()));
                proof {
                    assert(views(r@) == before.push(title@));
                }
            }
        }
    }
    proof {
        assert(seen.take(titles@.len() as int) == seen);
    }
    r
}

/// The titles of the open windows in one line.
pub open spec fn titles_line(titles: Seq<Option<Seq<char>>>) -> Seq<char> {
    let shown = join(shown_titles(titles), ", "@);
    if shown.len() == 0 {
        "(none)"@
    } else {
        shown
    }
}

/// The titles of the open windows in one line.
pub fn open_titles(titles: &[Option<String>]) -> (line: String)
    ensures
        line@ == titles_line(opt_views(titles@)),
{
    let shown = open_window_titles(titles);
    let line = join_strings(shown.as_slice(), ", ");
    if chars_of(line.as_str()).len() == 0 {
        owned("(none)")
    } else {
        line
    }
}

// ---------------------------------------------------------------------------
// Laws
// ---------------------------------------------------------------------------

/// Whether a path leads somewhere below an element.
pub open spec fn leads(el: Element, path: Seq<int>) -> bool
    decreases path.len(),
{
    path.len() > 0 && 0 <= path[0] < el.children@.len() && (path.len() == 1 || leads(
        el.children@[path[0]],
        path.drop_first(),
    ))
}

/// Where a path leads.
pub open spec fn end_of(el: Element, path: Seq<int>) -> Element
    decreases path.len(),
{
    if path.len() == 0 {
        el
    } else {
        end_of(el.children@[path[0]], path.drop_first())
    }
}

/// What is found is what was looked for, no deeper than allowed; and where
/// nothing is found, there is nothing that deep.
pub proof fn law_search_below_is_exact(el: Element, sought: Sought, depth: nat)
    ensures
        found_below(el, sought, depth) matches Some(path) ==> leads(el, path) && path.len() <= depth
            && fits(end_of(el, path), sought),
        found_below(el, sought, depth) is None ==> forall|path: Seq<int>| #[trigger]
            leads(el, path) && path.len() <= depth ==> !fits(end_of(el, path), sought),
    decreases depth, el.children@.len() + 1,
{
    if depth > 0 {
        lemma_search_among(el, sought, depth, 0);
    }
}

/// [`law_search_below_is_exact`] for the elements of one level, from `from` on.
proof fn lemma_search_among(el: Element, sought: Sought, depth: nat, from: int)
    requires
        depth > 0,
        0 <= from <= el.children@.len(),
    ensures
        found_among(el.children@, sought, depth, from) matches Some(path) ==> leads(el, path)
            && path.len() <= depth && fits(end_of(el, path), sought),
        found_among(el.children@, sought, depth, from) is None ==> forall|path: Seq<int>|
            #[trigger] leads(el, path) && path.len() <= depth && path[0] >= from ==> !fits(
                end_of(el, path),
                sought,
            ),
    decreases depth, el.children@.len() - from,
{
    let els = el.children@;
    if from < els.len() {
        let here = els[from];
        law_search_below_is_exact(here, sought, (depth - 1) as nat);
        if fits(here, sought) {
            let path = seq![from];
            assert(path.drop_first().len() == 0);
            assert(end_of(el, path) == end_of(here, path.drop_first()));
        } else {
            match found_below(here, sought, (depth - 1) as nat) {
                Some(rest) => {
                    let path = seq![from] + rest;
                    assert(path.drop_first() == rest);
                },
                None => {
                    lemma_search_among(el, sought, depth, from + 1);
                    if found_among(els, sought, depth, from) is None {
                        assert forall|path: Seq<int>| #[trigger]
                            leads(el, path) && path.len() <= depth && path[0] >= from implies !fits(
                            end_of(el, path),
                            sought,
                        ) by {
                            if path[0] == from {
                                let rest = path.drop_first();
                                if path.len() == 1 {
                                    assert(end_of(here, rest) == here);
                                } else {
                                    assert(leads(here, rest));
                                }
                            }
                        }
                    }
                },
            }
        }
    }
}

/// A row that is chosen has the target's name. Without a rank, it is the only one that has.
pub proof fn law_chosen_row_has_the_name(
    names: Seq<Option<Seq<char>>>,
    name: Seq<char>,
    rank: Option<usize>,
)
    ensures
        chosen_row(names, name, rank) matches Ok(i) ==> 0 <= i < names.len() && (names[i] matches Some(
            found,
        ) && rooms_match(found, name)),
        rank is None ==> (chosen_row(names, name, rank) matches Ok(i) ==> forall|j: int|
            0 <= j < names.len() && j != i ==> !(#[trigger] names[j] matches Some(other)
                && rooms_match(other, name))),
{
    lemma_matching(names, name);
    let hits = matching(names, name);
    if rank is None {
        if let Ok(i) = chosen_row(names, name, rank) {
            assert forall|j: int| 0 <= j < names.len() && j != i implies !(#[trigger] names[j] matches Some(
                other,
            ) && rooms_match(other, name)) by {
                if hits.contains(j) {
                    let k = choose|k: int| 0 <= k < hits.len() && hits[k] == j;
                    assert(k == 0);
                }
            }
        }
    }
}

/// The matching places are exactly those whose name is the room's.
pub proof fn lemma_matching(names: Seq<Option<Seq<char>>>, wanted: Seq<char>)
    ensures
        matching(names, wanted).len() <= names.len(),
        forall|k: int|
            0 <= k < matching(names, wanted).len() ==> 0 <= #[trigger] matching(names, wanted)[k]
                < names.len() && (names[matching(names, wanted)[k]] matches Some(found)
                && rooms_match(found, wanted)),
        forall|j: int|
            0 <= j < names.len() && (#[trigger] names[j] matches Some(found) && rooms_match(
                found,
                wanted,
            )) ==> matching(names, wanted).contains(j),
    decreases names.len(),
{
    if names.len() > 0 {
        let front = names.drop_last();
        lemma_matching(front, wanted);
        let hits = matching(names, wanted);
        let before = matching(front, wanted);
        assert forall|k: int| 0 <= k < hits.len() implies 0 <= #[trigger] hits[k] < names.len() && (
        names[hits[k]] matches Some(found) && rooms_match(found, wanted)) by {
            if k < before.len() {
                assert(hits[k] == before[k]);
                assert(names[hits[k]] == front[before[k]]);
            }
        }
        assert forall|j: int|
            0 <= j < names.len() && (#[trigger] names[j] matches Some(found) && rooms_match(
                found,
                wanted,
            )) implies hits.contains(j) by {
            if j < front.len() {
                assert(front[j] == names[j]);
                assert(before.contains(j));
                let k = choose|k: int| 0 <= k < before.len() && before[k] == j;
                assert(hits[k] == j);
            } else {
                assert(hits[hits.len() - 1] == j);
            }
        }
    }
}

/// There is at most one window with the chat list.
pub proof fn law_main_window_is_unique(windows: Seq<Element>, i: int, j: int)
    requires
        is_main_window(windows, i),
        is_main_window(windows, j),
    ensures
        i == j,
{
    assert(list_score(windows[i]) <= list_score(windows[j]));
    assert(list_score(windows[j]) <= list_score(windows[i]));
}

proof fn lemma_first_of_role(els: Seq<Element>, role: Seq<char>, from: int)
    requires
        0 <= from <= els.len(),
    ensures
        from <= first_of_role(els, role, from) <= els.len(),
        first_of_role(els, role, from) < els.len() ==> els[first_of_role(els, role, from)].role@
            == role,
        forall|i: int|
            from <= i < first_of_role(els, role, from) ==> (#[trigger] els[i]).role@ != role,
    decreases els.len() - from,
{
    if from < els.len() && els[from].role@ != role {
        lemma_first_of_role(els, role, from + 1);
    }
}

/// Whether an element has a child of a role.
pub open spec fn has_child(el: Element, role: Seq<char>) -> bool {
    exists|j: int| 0 <= j < el.children@.len() && (#[trigger] el.children@[j]).role@ == role
}

proof fn lemma_first_inner(els: Seq<Element>, outer: Seq<char>, inner: Seq<char>, from: int)
    requires
        0 <= from <= els.len(),
    ensures
        match first_inner(els, outer, inner, from) {
            Some((i, j)) => from <= i < els.len() && els[i].role@ == outer && 0 <= j
                < els[i].children@.len() && els[i].children@[j].role@ == inner && (forall|k: int|
                from <= k < i ==> (#[trigger] els[k]).role@ != outer || !has_child(
                    els[k],
                    inner,
                )) && (forall|k: int|
                0 <= k < j ==> (#[trigger] els[i].children@[k]).role@ != inner),
            None => forall|k: int|
                from <= k < els.len() ==> (#[trigger] els[k]).role@ != outer || !has_child(
                    els[k],
                    inner,
                ),
        },
    decreases els.len() - from,
{
    if from < els.len() {
        let children = els[from].children@;
        lemma_first_of_role(children, inner, 0);
        let at = first_of_role(children, inner, 0);
        if at == children.len() {
            assert(!has_child(els[from], inner));
        }
        if !(els[from].role@ == outer && at < children.len()) {
            lemma_first_inner(els, outer, inner, from + 1);
        }
    }
}

/// A message is composed in the first text area of the first scroll area that has
/// one, and the rows of a window are those of the first table of the first scroll
/// area that has one.
pub proof fn law_boxes_are_found_by_their_roles(window: Element)
    ensures
        match compose_place(window) {
            Some((i, j)) => 0 <= i < window.children@.len() && 0 <= j
                < window.children@[i].children@.len() && window.children@[i].role@
                == "AXScrollArea"@ && window.children@[i].children@[j].role@ == "AXTextArea"@ && (
            forall|k: int|
                0 <= k < i ==> (#[trigger] window.children@[k]).role@ != "AXScrollArea"@
                    || !has_child(window.children@[k], "AXTextArea"@)),
            None => forall|k: int|
                0 <= k < window.children@.len() ==> (#[trigger] window.children@[k]).role@
                    != "AXScrollArea"@ || !has_child(window.children@[k], "AXTextArea"@),
        },
        match table_rows(window) {
            Some(rows) => exists|i: int, j: int|
                0 <= i < window.children@.len() && 0 <= j < window.children@[i].children@.len()
                    && window.children@[i].role@ == "AXScrollArea"@ && (
                #[trigger] window.children@[i].children@[j]).role@ == "AXTable"@ && rows
                    == window.children@[i].children@[j].rows@,
            None => forall|k: int|
                0 <= k < window.children@.len() ==> (#[trigger] window.children@[k]).role@
                    != "AXScrollArea"@ || !has_child(window.children@[k], "AXTable"@),
        },
{
    lemma_first_inner(window.children@, "AXScrollArea"@, "AXTextArea"@, 0);
    lemma_first_inner(window.children@, "AXScrollArea"@, "AXTable"@, 0);
    if let Some((i, j)) = table_place(window) {
        assert(window.children@[i].children@[j].role@ == "AXTable"@);
    }
}

/// Of what can be found, what comes first is: a child that fits where nothing
/// before it, nor below that, does.
pub proof fn law_what_comes_first_is_found(el: Element, sought: Sought, depth: nat, k: int)
    requires
        depth > 0,
        0 <= k < el.children@.len(),
        fits(el.children@[k], sought),
        forall|j: int|
            0 <= j < k ==> !fits(#[trigger] el.children@[j], sought) && found_below(
                el.children@[j],
                sought,
                (depth - 1) as nat,
            ) is None,
    ensures
        found_below(el, sought, depth) == Some(seq![k]),
{
    lemma_first_found(el, sought, depth, 0, k);
}

proof fn lemma_first_found(el: Element, sought: Sought, depth: nat, from: int, k: int)
    requires
        depth > 0,
        0 <= from <= k < el.children@.len(),
        fits(el.children@[k], sought),
        forall|j: int|
            from <= j < k ==> !fits(#[trigger] el.children@[j], sought) && found_below(
                el.children@[j],
                sought,
                (depth - 1) as nat,
            ) is None,
    ensures
        found_among(el.children@, sought, depth, from) == Some(seq![k]),
    decreases k - from,
{
    if from < k {
        assert(!fits(el.children@[from], sought));
        lemma_first_found(el, sought, depth, from + 1, k);
    }
}

/// A count is never the name of a room, nor is what holds a time of day; what has
/// none of the characters that dates, times and relative days start with is one.
pub proof fn law_plain_names_are_names(
    name: Seq<char>,
    before: Seq<char>,
    behind: Seq<char>,
    n: nat,
)
    ensures
        row_metadata(decimal(n)),
        name.len() > 0 && (forall|i: int| 0 <= i < name.len() ==> plain_letter(#[trigger] name[i]))
            ==> !row_metadata(name),
        row_metadata(name) == row_metadata(trim(name)),
        trim(before + "오전"@ + behind) == before + "오전"@ + behind ==> row_metadata(
            before + "오전"@ + behind,
        ),
        trim(before + "오후"@ + behind) == before + "오후"@ + behind ==> row_metadata(
            before + "오후"@ + behind,
        ),
        trim(before + "AM"@ + behind) == before + "AM"@ + behind ==> row_metadata(
            before + "AM"@ + behind,
        ),
        trim(before + "PM"@ + behind) == before + "PM"@ + behind ==> row_metadata(
            before + "PM"@ + behind,
        ),
{
    lemma_times(before, "오전"@, behind);
    lemma_times(before, "오후"@, behind);
    lemma_times(before, "AM"@, behind);
    lemma_times(before, "PM"@, behind);
    lemma_count(n);
    lemma_trimmed(name);
    if name.len() > 0 && (forall|i: int|
        0 <= i < name.len() ==> plain_letter(#[trigger] name[i])) {
        assert(plain_letter(name[0]) && plain_letter(name[name.len() - 1]));
        assert(trim(name) == name) by {
            law_trimming_drops_only_white_space(name);
        }
        lemma_plain_name(name);
    }
}

proof fn lemma_times(before: Seq<char>, word: Seq<char>, behind: Seq<char>)
    ensures
        trim(before + word + behind) == before + word + behind ==> contains_text(
            trim(before + word + behind),
            word,
        ),
{
    law_a_text_holds_its_middle(before, word, behind);
}

proof fn lemma_count(n: nat)
    ensures
        all_digits(trim(decimal(n))),
{
    law_written_numbers_read_back(n as int, 0, n as int);
    let d = decimal(n);
    assert forall|i: int| 0 <= i < d.len() implies is_digit(#[trigger] d[i]) && !white_space(
        d[i],
    ) by {
        lemma_digit(d[i]);
    }
    law_trimming_drops_only_white_space(d);
}

proof fn lemma_trimmed(name: Seq<char>)
    ensures
        trim(trim(name)) == trim(name),
{
    let t = trim(name);
    law_trimming_drops_only_white_space(name);
    if t.len() == 0 {
        assert(t =~= Seq::<char>::empty());
    } else {
        law_trimming_drops_only_white_space(t);
    }
}

/// Whether a character is neither white space nor one that a date, a time of day
/// or a relative day starts with.
pub open spec fn plain_letter(c: char) -> bool {
    !date_char(c) && !white_space(c) && c != '오' && c != '어' && c != 'A' && c != 'P' && c != 'Y'
        && c != 'T'
}

proof fn lemma_digit(c: char)
    ensures
        48 <= c as int <= 57 ==> is_digit(c) && !white_space(c),
{
}

proof fn lemma_plain_name(v: Seq<char>)
    requires
        v.len() > 0,
        trim(v) == v,
        forall|i: int| 0 <= i < v.len() ==> plain_letter(#[trigger] v[i]),
    ensures
        !row_metadata(v),
{
    reveal_strlit("오전");
    reveal_strlit("오후");
    reveal_strlit("AM");
    reveal_strlit("PM");
    reveal_strlit("어제");
    reveal_strlit("오늘");
    reveal_strlit("Yesterday");
    reveal_strlit("Today");
    assert(plain_letter(v[0]));
    assert(!all_digits(v)) by {
        assert(!is_digit(v[0]));
    }
    lemma_not_held(v, "오전"@);
    lemma_not_held(v, "오후"@);
    lemma_not_held(v, "AM"@);
    lemma_not_held(v, "PM"@);
    assert("어제"@[0] == '어' && "오늘"@[0] == '오' && "Yesterday"@[0] == 'Y' && "Today"@[0] == 'T');
}

proof fn lemma_not_held(v: Seq<char>, word: Seq<char>)
    requires
        word.len() > 0,
        !plain_letter(word[0]),
        forall|i: int| 0 <= i < v.len() ==> plain_letter(#[trigger] v[i]),
    ensures
        !contains_text(v, word),
{
    if contains_text(v, word) {
        let i = choose|i: int| occurs_at(v, word, i);
        law_every_character_has_to_match(v, word, i);
        assert(v[i + 0] == word[0]);
        assert(plain_letter(v[i]));
    }
}

/// A row is named by the first text of its first cell that can be a name.
pub proof fn law_a_row_is_named_by_its_first_name(row: Element, cell: int, i: int, name: String)
    requires
        0 <= cell < row.children@.len(),
        row.children@[cell].role@ == "AXCell"@,
        forall|k: int| 0 <= k < cell ==> (#[trigger] row.children@[k]).role@ != "AXCell"@,
        0 <= i < row.children@[cell].children@.len(),
        row.children@[cell].children@[i].role@ == "AXStaticText"@,
        row.children@[cell].children@[i].value == Some(name),
        !row_metadata(name@),
        forall|k: int|
            0 <= k < i ==> (#[trigger] row.children@[cell].children@[k]).role@ != "AXStaticText"@
                || (row.children@[cell].children@[k].value matches Some(text) ==> row_metadata(
                text@,
            )),
    ensures
        row_name(row) == Some(name@),
{
    lemma_first_of_role(row.children@, "AXCell"@, 0);
    let at = first_of_role(row.children@, "AXCell"@, 0);
    if at < cell {
        assert(row.children@[at].role@ != "AXCell"@);
    }
    lemma_first_name(row.children@[cell].children@, 0, i);
}

proof fn lemma_first_name(els: Seq<Element>, from: int, i: int)
    requires
        0 <= from <= i < els.len(),
        shows_name(els[i]),
        forall|k: int| from <= k < i ==> !shows_name(#[trigger] els[k]),
    ensures
        first_name(els, from) == opt_view(els[i].value),
    decreases i - from,
{
    if from < i {
        assert(!shows_name(els[from]));
        lemma_first_name(els, from + 1, i);
    }
}

/// Every name that is there is given, in order, and nothing else: none is lost
/// where all are there, and as many are counted as are given.
pub proof fn law_every_name_is_given(names: Seq<Option<Seq<char>>>, name: Seq<char>)
    ensures
        given(names).len() == named_count(names),
        given(names).contains(name) <==> names.contains(Some(name)),
        given(names.push(Some(name))) == given(names).push(name),
        given(names.push(None)) == given(names),
        (forall|i: int| 0 <= i < names.len() ==> (#[trigger] names[i]) is Some) ==> given(
            names,
        ).len() == names.len() && forall|i: int|
            0 <= i < names.len() ==> Some(#[trigger] given(names)[i]) == names[i],
    decreases names.len(),
{
    assert(names.push(Some(name)).drop_last() =~= names);
    assert(names.push(None).drop_last() =~= names);
    if names.len() > 0 {
        let front = names.drop_last();
        law_every_name_is_given(front, name);
        let all = given(names);
        let held = given(front);
        assert(names[names.len() - 1] == names.last());
        if names.contains(Some(name)) {
            let i = choose|i: int| 0 <= i < names.len() && names[i] == Some(name);
            if i < front.len() {
                assert(front[i] == Some(name));
                let k = choose|k: int| 0 <= k < held.len() && held[k] == name;
                assert(all[k] == name);
            } else {
                assert(all[held.len() as int] == name);
            }
        }
        if all.contains(name) {
            let k = choose|k: int| 0 <= k < all.len() && all[k] == name;
            if k < held.len() {
                assert(held[k] == name);
                let i = choose|i: int| 0 <= i < front.len() && front[i] == Some(name);
                assert(names[i] == Some(name));
            }
        }
        if forall|i: int| 0 <= i < names.len() ==> (#[trigger] names[i]) is Some {
            assert forall|i: int| 0 <= i < front.len() implies (#[trigger] front[i]) is Some by {
                assert(front[i] == names[i]);
            }
            assert forall|i: int| 0 <= i < names.len() implies Some(#[trigger] all[i])
                == names[i] by {
                if i < front.len() {
                    assert(all[i] == held[i]);
                    assert(front[i] == names[i]);
                }
            }
        }
    }
}

proof fn lemma_matching_ascends(names: Seq<Option<Seq<char>>>, wanted: Seq<char>, k: int)
    requires
        0 <= k < matching(names, wanted).len(),
    ensures
        0 <= matching(names, wanted)[k] < names.len(),
        matching(names.take(matching(names, wanted)[k]), wanted).len() == k,
    decreases names.len(),
{
    let front = names.drop_last();
    let before = matching(front, wanted);
    if k < before.len() {
        lemma_matching_ascends(front, wanted, k);
        assert(front.take(before[k]) =~= names.take(before[k]));
    } else {
        assert(names.take(names.len() - 1) =~= front);
    }
}

/// The one row of the target's name is chosen whatever the rank; of several, the
/// one that has as many before it as the rank says; none where there is none, or
/// where the rank does not tell.
pub proof fn law_the_rank_tells_rows_apart(
    names: Seq<Option<Seq<char>>>,
    name: Seq<char>,
    rank: Option<usize>,
)
    requires
        names.len() <= usize::MAX,
    ensures
        ({
            let hits = matching(names, name).len();
            match chosen_row(names, name, rank) {
                Ok(i) => {
                    &&& 0 <= i < names.len()
                    &&& hits == 1 || (rank matches Some(r) && matching(names.take(i), name).len()
                        == r)
                },
                Err(SendErrorView::RoomNotInChatList { room, scanned }) => room == name && scanned
                    == names.len() && forall|j: int|
                    0 <= j < names.len() ==> !(#[trigger] names[j] matches Some(other)
                        && rooms_match(other, name)),
                Err(SendErrorView::AmbiguousRoom { room, count }) => room == name && count == hits
                    && hits > 1 && (rank matches Some(r) ==> r >= hits),
                _ => false,
            }
        }),
{
    lemma_matching(names, name);
    let hits = matching(names, name);
    if let Ok(i) = chosen_row(names, name, rank) {
        if hits.len() > 1 {
            lemma_matching_ascends(names, name, rank->0 as int);
        } else {
            lemma_matching_ascends(names, name, 0);
        }
    }
    if hits.len() == 0 {
        assert forall|j: int| 0 <= j < names.len() implies !(#[trigger] names[j] matches Some(other)
            && rooms_match(other, name)) by {
            if names[j] matches Some(other) && rooms_match(other, name) {
                assert(hits.contains(j));
            }
        }
    }
}

/// The line of open windows names each title that is not empty.
pub proof fn law_every_title_is_shown(titles: Seq<Option<Seq<char>>>, title: Seq<char>)
    ensures
        shown_titles(titles).contains(title) <==> title.len() > 0 && titles.contains(Some(title)),
        title.len() > 0 && titles.contains(Some(title)) ==> contains_text(
            titles_line(titles),
            title,
        ),
        titles.len() == 0 ==> titles_line(titles) == "(none)"@,
{
    lemma_shown(titles, title);
    if title.len() > 0 && titles.contains(Some(title)) {
        let shown = shown_titles(titles);
        let i = choose|i: int| 0 <= i < shown.len() && shown[i] == title;
        law_join_holds_every_part(shown, ", "@);
        let at = part_start(shown, ", "@.len(), i);
        assert(join(shown, ", "@).subrange(at, at + shown[i].len()) == title);
        assert(occurs_at(titles_line(titles), title, at));
    }
}

proof fn lemma_shown(titles: Seq<Option<Seq<char>>>, title: Seq<char>)
    ensures
        shown_titles(titles).contains(title) <==> title.len() > 0 && titles.contains(Some(title)),
    decreases titles.len(),
{
    if titles.len() > 0 {
        let front = titles.drop_last();
        let all = shown_titles(titles);
        let held = shown_titles(front);
        lemma_shown(front, title);
        assert(titles[titles.len() - 1] == titles.last());
        if title.len() > 0 && titles.contains(Some(title)) {
            let i = choose|i: int| 0 <= i < titles.len() && titles[i] == Some(title);
            if i < front.len() {
                assert(front[i] == Some(title));
                let k = choose|k: int| 0 <= k < held.len() && held[k] == title;
                assert(all[k] == title);
            } else {
                assert(all[held.len() as int] == title);
            }
        }
        if all.contains(title) {
            let k = choose|k: int| 0 <= k < all.len() && all[k] == title;
            if k < held.len() {
                assert(held[k] == title);
                let i = choose|i: int| 0 <= i < front.len() && front[i] == Some(title);
                assert(titles[i] == Some(title));
            }
        }
    }
}

/// A sheet is confirmed by a button of one of four titles, whatever white space is
/// around it; rooms are searched for through a button that is described so.
pub proof fn law_only_these_words_are_acted_on(title: Seq<char>, el: Element)
    ensures
        confirms(title) <==> trim(title) == "전송"@ || trim(title) == "Send"@ || trim(title)
            == "확인"@ || trim(title) == "OK"@,
        fits(el, Sought::Confirm) ==> el.role@ == "AXButton"@ && (el.title matches Some(text)
            && confirms(text@)),
        fits(el, Sought::Sheet) <==> el.role@ == "AXSheet"@,
        is_search_button(el) ==> el.role@ == "AXButton"@ && (el.description matches Some(text) && (
        text@ == "검색"@ || text@ == "Search"@)),
{
    reveal_strlit("전송");
    reveal_strlit("Send");
    reveal_strlit("확인");
    reveal_strlit("OK");
    let none = Seq::<char>::empty();
    assert(trim(none) =~= none);
    assert("전송"@.len() == 2 && "Send"@.len() == 4 && "확인"@.len() == 2 && "OK"@.len() == 2);
}

/// A window looks like the one with the chat list by the rows with a name among
/// its first ten, and by those only.
pub proof fn law_named_rows_make_the_chat_list(window: Element, i: int)
    ensures
        list_score(window) <= 10,
        table_rows(window) is None ==> list_score(window) == 0,
        table_rows(window) matches Some(rows) ==> (0 <= i < rows.len() && i < 10 && row_name(
            rows[i],
        ) is Some ==> list_score(window) > 0),
        table_rows(window) matches Some(rows) ==> ((forall|k: int|
            0 <= k < rows.len() && k < 10 ==> row_name(#[trigger] rows[k]) is None) ==> list_score(
            window,
        ) == 0),
{
    if let Some(rows) = table_rows(window) {
        let n = if 10 < rows.len() {
            10int
        } else {
            rows.len() as int
        };
        let names = row_names(rows).take(n);
        lemma_named_count(names);
        if 0 <= i < rows.len() && i < 10 && row_name(rows[i]) is Some {
            assert(names[i] is Some);
        }
        if forall|k: int| 0 <= k < rows.len() && k < 10 ==> row_name(#[trigger] rows[k]) is None {
            assert forall|k: int| 0 <= k < names.len() implies (#[trigger] names[k]) is None by {
                assert(row_name(rows[k]) is None);
            }
        }
    }
}

proof fn lemma_named_count(names: Seq<Option<Seq<char>>>)
    ensures
        named_count(names) <= names.len(),
        named_count(names) == 0 <==> forall|i: int|
            0 <= i < names.len() ==> (#[trigger] names[i]) is None,
    decreases names.len(),
{
    if names.len() > 0 {
        let front = names.drop_last();
        lemma_named_count(front);
        assert(names[names.len() - 1] == names.last());
        if named_count(names) == 0 {
            assert forall|i: int| 0 <= i < names.len() implies (#[trigger] names[i]) is None by {
                if i < front.len() {
                    assert(front[i] == names[i]);
                }
            }
        }
        if forall|i: int| 0 <= i < names.len() ==> (#[trigger] names[i]) is None {
            assert forall|i: int| 0 <= i < front.len() implies (#[trigger] front[i]) is None by {
                assert(front[i] == names[i]);
            }
        }
    }
}

} // verus!
