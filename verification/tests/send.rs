use katok::kakao::ax_send::clipboard::{save_items, Flavor};
use katok::kakao::ax_send::deliver::{
    advance_delivery, begin_delivery, check_image_type, image_uti, subtitle_of, Deliver,
    DeliverEvent, DeliverStep, Goal,
};
use katok::kakao::ax_send::open::{
    advance_click, advance_opening, advance_reveal, advance_search, begin_reveal,
    choose_listed_row, choose_window, clears_again, Click, ClickEvent, ClickStep, OpenAsk,
    OpenEvent, OpenStep, Opening, Reveal, Search, SearchEvent, SearchStep, Strategy,
};
use katok::kakao::ax_send::screen::{
    advance_front, advance_screen, begin_front, begin_screen, client_pid, frontmost_pid,
    restore_to, FrontStep, Halt, Screen, ScreenAsk, ScreenEvent, ScreenStep, ScreenWindow,
};
use katok::kakao::ax_send::window::{
    chat_list_rooms, choose_row, compose_box, find_confirm_button, find_descendant,
    is_row_metadata, main_window, open_titles, row_room_name, search_button, search_field,
    transcript_row_count, Element, Sought,
};
use katok::kakao::ax_send::{FocusPolicy, RoomTarget, SendContext, SendError};
use katok::kakao::send_curtain::{
    attachment_label, judge_input, pump_frame, spinner_frame, CancelFlag, CurtainControl, Drawn,
    Input, Pump, Verdict, ESC_KEYCODE, SYNTHETIC_EVENT_TAG,
};

fn names(list: &[&str]) -> Vec<Option<String>> {
    list.iter().map(|n| Some(n.to_string())).collect()
}

// ---------------------------------------------------------------------------
// Windows
// ---------------------------------------------------------------------------

fn element(role: &str, children: Vec<Element>) -> Element {
    Element {
        role: role.to_string(),
        title: None,
        value: None,
        description: None,
        children,
        rows: Vec::new(),
    }
}

fn static_text(value: &str) -> Element {
    Element {
        value: Some(value.to_string()),
        ..element("AXStaticText", Vec::new())
    }
}

fn row(texts: &[&str]) -> Element {
    element(
        "AXRow",
        vec![element("AXCell", texts.iter().map(|t| static_text(t)).collect())],
    )
}

fn window_with(rows: Vec<Element>, with_box: bool) -> Element {
    let table = Element {
        rows,
        ..element("AXTable", Vec::new())
    };
    let mut children = vec![element("AXScrollArea", vec![table])];
    if with_box {
        children.push(element(
            "AXScrollArea",
            vec![element("AXTextArea", Vec::new())],
        ));
    }
    element("AXWindow", children)
}

fn button(title: &str, description: Option<&str>) -> Element {
    Element {
        title: Some(title.to_string()),
        description: description.map(str::to_string),
        ..element("AXButton", Vec::new())
    }
}

#[test]
fn counts_times_and_dates_are_no_room_names() {
    for value in [
        "", "  ", "3", "오전 9:12", "오후 1:00", "9:12 AM", "어제", "Today", "2026. 7. 23.",
        "7/23/26", "12:30", "2026-01-01",
    ] {
        assert!(is_row_metadata(value), "{value:?}");
    }
    for value in ["나윤", "주말 등산 모임", "1반", "어제의 모임"] {
        assert!(!is_row_metadata(value), "{value:?}");
    }
}

#[test]
fn a_row_is_named_by_its_first_text_that_can_be_a_name() {
    assert_eq!(
        row_room_name(&row(&["12", "오전 9:12", "나윤", "도현"])).as_deref(),
        Some("나윤")
    );
    assert_eq!(row_room_name(&row(&["12"])), None);
    assert_eq!(row_room_name(&element("AXRow", Vec::new())), None);
}

#[test]
fn the_main_window_is_the_one_whose_rows_have_names() {
    let chat = window_with(vec![row(&["오전 9:12"]), row(&["3"])], true);
    let list = window_with(vec![row(&["나윤"]), row(&["4", "도현"])], false);
    let windows = vec![chat, list];
    assert_eq!(main_window(&windows), Some(1));
    assert_eq!(main_window(&windows[..1]), None);
    assert_eq!(chat_list_rooms(&windows, 1).expect("rooms"), ["나윤"]);
    assert_eq!(chat_list_rooms(&windows, 9).expect("rooms"), ["나윤", "도현"]);
    assert!(matches!(
        chat_list_rooms(&windows[..1], 9),
        Err(SendError::ChatListUnavailable)
    ));
}

#[test]
fn the_parts_of_a_window_are_found() {
    let chat = window_with(vec![row(&["a"]), row(&["b"])], true);
    assert_eq!(compose_box(&chat), Some((1, 0)));
    assert_eq!(transcript_row_count(&chat), Some(2));
    let bare = element("AXWindow", vec![button("x", None), button("y", Some("검색"))]);
    assert_eq!(compose_box(&bare), None);
    assert_eq!(transcript_row_count(&bare), None);
    assert_eq!(search_button(&bare), Some(1));
    assert_eq!(search_field(&bare), None);
    let with_field = element("AXWindow", vec![bare, element("AXTextField", Vec::new())]);
    assert_eq!(search_field(&with_field), Some(1));
}

#[test]
fn a_sheet_is_confirmed_by_its_button() {
    let sheet = element(
        "AXSheet",
        vec![
            element("AXGroup", vec![button("취소", None), button(" 전송 ", None)]),
            button("OK", None),
        ],
    );
    assert_eq!(find_confirm_button(&sheet), Some(vec![0, 1]));
    let window = element("AXWindow", vec![element("AXGroup", vec![sheet])]);
    assert_eq!(find_descendant(&window, Sought::Sheet, 4), Some(vec![0, 0]));
    assert_eq!(find_descendant(&window, Sought::Sheet, 1), None);
    assert_eq!(find_descendant(&window, Sought::Sheet, 0), None);
}

#[test]
fn a_row_is_chosen_by_name_and_rank() {
    let list = names(&["나윤", "도현, 나윤", "나윤, 도현", "지우"]);
    let target = |name: &str, rank: Option<usize>| RoomTarget {
        name: name.to_string(),
        rank,
    };
    assert_eq!(choose_row(&list, &target("지우", None)).expect("row"), 3);
    assert_eq!(choose_row(&list, &target("나윤,도현", Some(1))).expect("row"), 2);
    assert!(matches!(
        choose_row(&list, &target("나윤,도현", None)),
        Err(SendError::AmbiguousRoom { room, count: 2 }) if room == "나윤,도현"
    ));
    assert!(choose_row(&list, &target("나윤,도현", Some(2))).is_err());
    assert!(matches!(
        choose_row(&list, &RoomTarget::named("없음")),
        Err(SendError::RoomNotInChatList { scanned: 4, .. })
    ));
}

#[test]
fn the_titles_of_the_windows_are_listed() {
    assert_eq!(open_titles(&[None, Some(String::new())]), "(none)");
    assert_eq!(open_titles(&names(&["a", "", "b"])), "a, b");
}

// ---------------------------------------------------------------------------
// The screen
// ---------------------------------------------------------------------------

fn run_screen(policy: FocusPolicy, events: &[ScreenEvent]) -> ScreenStep {
    let mut step = begin_screen(policy);
    for event in events {
        if let ScreenStep::Ask(state) = step {
            step = advance_screen(policy, state, *event);
        }
    }
    step
}

#[test]
fn the_screen_is_taken_in_a_pause() {
    let policy = FocusPolicy::default();
    let busy = ScreenEvent::Measured {
        idle_ms: 699,
        waited_secs: 14,
    };
    let idle = ScreenEvent::Measured {
        idle_ms: 700,
        waited_secs: 15,
    };
    let taken = [
        busy,
        idle,
        ScreenEvent::Cancelled(false),
        ScreenEvent::Covered,
        ScreenEvent::Front(false),
        ScreenEvent::Front(true),
    ];
    assert_eq!(run_screen(policy, &taken), ScreenStep::Held);
    assert_eq!(
        run_screen(policy, &[idle, ScreenEvent::Cancelled(true)]),
        ScreenStep::Stop(Halt::Cancelled)
    );
    let late = ScreenEvent::Measured {
        idle_ms: 0,
        waited_secs: 15,
    };
    assert_eq!(
        run_screen(policy, &[busy, late]),
        ScreenStep::Stop(Halt::UserBusy { waited: 15 })
    );
    assert!(Halt::UserBusy { waited: 15 }.error().message().contains("for 15s, and"));
}

#[test]
fn the_input_is_not_looked_at_without_a_gap() {
    assert_eq!(
        begin_screen(FocusPolicy::immediate()),
        ScreenStep::Ask(Screen::Check)
    );
    assert_eq!(
        Screen::Pause { looked: false }.ask(),
        ScreenAsk::Measure { after_ms: 0 }
    );
    assert_eq!(
        Screen::Pause { looked: true }.ask(),
        ScreenAsk::Measure { after_ms: 80 }
    );
    assert_eq!(
        Screen::Raise { looks: 3 }.ask(),
        ScreenAsk::Front {
            activate: false,
            after_ms: 40
        }
    );
    assert!(matches!(Halt::Cancelled.error(), SendError::Cancelled));
}

#[test]
fn a_client_that_never_comes_forward_loses_the_screen() {
    let mut events = vec![ScreenEvent::Cancelled(false), ScreenEvent::Covered];
    events.extend([ScreenEvent::Front(false); 24]);
    assert_eq!(
        run_screen(FocusPolicy::immediate(), &events),
        ScreenStep::Ask(Screen::Raise { looks: 24 })
    );
    events.push(ScreenEvent::Front(false));
    assert_eq!(
        run_screen(FocusPolicy::immediate(), &events),
        ScreenStep::Stop(Halt::FocusLost)
    );
    assert!(matches!(Halt::FocusLost.error(), SendError::FocusLost));
}

#[test]
fn an_action_follows_a_look_that_saw_the_client() {
    assert_eq!(begin_front(), FrontStep::Look { tries: 0 });
    assert_eq!(advance_front(0, true), FrontStep::Act);
    assert_eq!(advance_front(1, false), FrontStep::Look { tries: 2 });
    assert_eq!(advance_front(2, false), FrontStep::Lost);
}

#[test]
fn the_application_in_front_owns_the_first_ordinary_window() {
    let w = |layer: Option<i64>, owner: Option<i64>| ScreenWindow { layer, owner };
    assert_eq!(
        frontmost_pid(&[w(Some(25), Some(1)), w(Some(0), None), w(Some(0), Some(7))]),
        Some(7)
    );
    assert_eq!(frontmost_pid(&[w(Some(0), Some(1 << 40)), w(Some(0), Some(7))]), None);
    assert_eq!(frontmost_pid(&[w(None, Some(1))]), None);
    assert_eq!(restore_to(Some(7), 7), None);
    assert_eq!(restore_to(Some(8), 7), Some(8));
    assert_eq!(client_pid(" 812 \n900\n"), Some(812));
    assert_eq!(client_pid(""), None);
    assert_eq!(client_pid("x\n1"), None);
}

// ---------------------------------------------------------------------------
// Opening a room
// ---------------------------------------------------------------------------

fn target() -> RoomTarget {
    RoomTarget::named("방")
}

#[test]
fn an_open_window_is_used_where_it_is_the_only_one() {
    let choose = |titles: &[&str], allow: bool| choose_window(&names(titles), &target(), allow);
    assert_eq!(choose(&["x", "방"], false).expect("window"), Some(1));
    assert_eq!(choose(&["x"], true).expect("to be opened"), None);
    assert!(matches!(
        choose(&["방", "방"], true),
        Err(SendError::AmbiguousRoom { count: 2, .. })
    ));
    let error = choose(&["x"], false).expect_err("closed");
    assert!(error.message().ends_with("Open windows: x"));
}

#[test]
fn the_tries_take_turns_and_report_the_last_error() {
    let mut state = Opening::begin();
    let mut strategies = Vec::new();
    let error = loop {
        let event = match state.ask() {
            OpenAsk::Cancelled => OpenEvent::Cancelled(false),
            OpenAsk::Open(strategy) => {
                strategies.push(strategy);
                OpenEvent::Opened(Err(SendError::SetValueFailed(strategies.len() as i32)))
            }
            OpenAsk::ClearSearch => OpenEvent::Cleared,
            OpenAsk::Windows => panic!("nothing was opened"),
        };
        match advance_opening(&target(), state, event) {
            OpenStep::Ask(next) => state = next,
            OpenStep::Done(r) => break r.expect_err("no try succeeds"),
        }
    };
    assert_eq!(
        strategies,
        [
            Strategy::Search,
            Strategy::Recent,
            Strategy::All,
            Strategy::Search,
            Strategy::Recent,
            Strategy::All
        ]
    );
    assert!(matches!(error, SendError::SetValueFailed(6)));
}

#[test]
fn the_window_of_an_opened_room_is_waited_for() {
    let mut state = Opening::begin();
    let mut looks = 0;
    let window = loop {
        let event = match state.ask() {
            OpenAsk::Cancelled => OpenEvent::Cancelled(false),
            OpenAsk::Open(_) => OpenEvent::Opened(Ok(())),
            OpenAsk::Windows => {
                looks += 1;
                OpenEvent::Windows(if looks < 22 {
                    names(&["x"])
                } else {
                    names(&["x", "방"])
                })
            }
            OpenAsk::ClearSearch => OpenEvent::Cleared,
        };
        match advance_opening(&target(), state, event) {
            OpenStep::Ask(next) => state = next,
            OpenStep::Done(r) => break r.expect("found on the second try"),
        }
    };
    assert_eq!((window, looks), (1, 22));
}

#[test]
fn cancelling_and_ambiguity_end_the_tries() {
    let first = Opening::begin();
    assert!(matches!(
        advance_opening(&target(), first, OpenEvent::Cancelled(true)),
        OpenStep::Done(Err(SendError::Cancelled))
    ));
    let OpenStep::Ask(open) =
        advance_opening(&target(), Opening::begin(), OpenEvent::Cancelled(false))
    else {
        panic!("a try follows")
    };
    let ambiguous = SendError::AmbiguousRoom {
        room: "방".to_string(),
        count: 2,
    };
    assert!(matches!(
        advance_opening(&target(), open, OpenEvent::Opened(Err(ambiguous))),
        OpenStep::Done(Err(SendError::AmbiguousRoom { count: 2, .. }))
    ));
}

#[test]
fn a_listed_row_is_looked_for_among_the_recent_ones() {
    let mut list = names(&["x"; 60]);
    list.push(Some("방".to_string()));
    assert_eq!(
        choose_listed_row(Some(list.clone()), Strategy::All, &target()).expect("row"),
        60
    );
    assert!(matches!(
        choose_listed_row(Some(list), Strategy::Recent, &target()),
        Err(SendError::RoomNotInChatList { scanned: 60, .. })
    ));
    for missing in [None, Some(Vec::new())] {
        assert!(matches!(
            choose_listed_row(missing, Strategy::Recent, &target()),
            Err(SendError::ChatListUnavailable)
        ));
    }
}

fn run_search(events: Vec<SearchEvent>) -> SearchStep {
    let mut step = SearchStep::Ask(Search::Main);
    for event in events {
        if let SearchStep::Ask(state) = step {
            step = advance_search(&target(), state, event);
        }
    }
    step
}

fn value(text: &str) -> SearchEvent {
    SearchEvent::Value(Some(text.to_string()))
}

#[test]
fn a_search_clicks_the_row_that_it_read() {
    let step = run_search(vec![
        SearchEvent::Present(true),
        SearchEvent::Present(true),
        SearchEvent::Typed(Ok(())),
        value(""),
        value("방"),
        SearchEvent::Rows(Some(300)),
        SearchEvent::Rows(Some(300)),
        SearchEvent::Rows(None),
        SearchEvent::Rows(Some(2)),
        SearchEvent::Names(vec![None, None]),
        SearchEvent::Rows(Some(2)),
        SearchEvent::Names(names(&["다른 방", "방"])),
    ]);
    assert!(matches!(step, SearchStep::Ask(Search::Click { row: 1 })));
    assert!(matches!(
        advance_search(&target(), Search::Click { row: 1 }, SearchEvent::Clicked(Ok(()))),
        SearchStep::Done(Ok(()))
    ));
}

#[test]
fn a_search_that_is_not_heard_says_what_the_field_holds() {
    let mut events = vec![
        SearchEvent::Present(true),
        SearchEvent::Present(true),
        SearchEvent::Typed(Ok(())),
    ];
    events.extend((0..20).map(|_| value("x")));
    events.push(value("y"));
    let SearchStep::Done(Err(SendError::ValueMismatch { what, wrote, found })) = run_search(events)
    else {
        panic!("the field never holds the query")
    };
    assert_eq!(what, "the chat search box");
    assert_eq!(wrote, "\"방\" [U+BC29]");
    assert_eq!(found, "\"y\" [U+0079]");
}

#[test]
fn a_search_reports_what_is_missing() {
    assert!(matches!(
        run_search(vec![SearchEvent::Present(false)]),
        SearchStep::Done(Err(SendError::ChatListUnavailable))
    ));
    assert!(matches!(
        run_search(vec![SearchEvent::Present(true), SearchEvent::Present(false)]),
        SearchStep::Done(Err(SendError::SearchUnavailable))
    ));
    let mut events = vec![
        SearchEvent::Present(true),
        SearchEvent::Present(true),
        SearchEvent::Typed(Ok(())),
        value("방"),
        SearchEvent::Rows(Some(3)),
    ];
    events.extend((0..25).map(|_| SearchEvent::Rows(Some(0))));
    assert!(matches!(
        run_search(events),
        SearchStep::Done(Err(SendError::RoomNotFound(room))) if room == "방"
    ));
    assert_eq!(begin_reveal(false, true), Reveal::Press);
    assert_eq!(begin_reveal(false, false), Reveal::Missing);
    assert_eq!(advance_reveal(0, false), Reveal::Look { looks: 1 });
    assert_eq!(advance_reveal(9, false), Reveal::Missing);
    assert_eq!(advance_reveal(9, true), Reveal::Found);
    assert!(clears_again(2, false) && !clears_again(3, false) && !clears_again(0, true));
}

#[test]
fn a_row_that_moved_is_not_clicked() {
    let moved = advance_click(&target(), Click::Name, ClickEvent::Name(Some("남".to_string())));
    assert!(matches!(moved, ClickStep::Done(Err(SendError::ChatListMoved { .. }))));
    let still = advance_click(&target(), Click::Name, ClickEvent::Name(Some("방".to_string())));
    assert!(matches!(still, ClickStep::Ask(Click::Frame)));
    assert!(matches!(
        advance_click(&target(), Click::Frame, ClickEvent::Frame(false)),
        ClickStep::Done(Err(SendError::RoomOpenFailed(_)))
    ));
    assert!(matches!(
        advance_click(&target(), Click::Frame, ClickEvent::Frame(true)),
        ClickStep::Ask(Click::Act)
    ));
    assert!(matches!(
        advance_click(&target(), Click::Act, ClickEvent::Acted(Err(SendError::FocusLost))),
        ClickStep::Done(Err(SendError::FocusLost))
    ));
}

// ---------------------------------------------------------------------------
// Delivering
// ---------------------------------------------------------------------------

fn deliver(goal: &Goal, events: Vec<DeliverEvent>) -> DeliverStep {
    let mut step = begin_delivery(&target());
    for event in events {
        if let DeliverStep::Ask(state) = step {
            step = advance_delivery(goal, &target(), state, event);
        }
    }
    step
}

fn ready() -> Vec<DeliverEvent> {
    vec![
        DeliverEvent::Trusted(true),
        DeliverEvent::Running(true),
        DeliverEvent::Resolved(Ok(())),
    ]
}

fn with(mut events: Vec<DeliverEvent>, more: Vec<DeliverEvent>) -> Vec<DeliverEvent> {
    events.extend(more);
    events
}

#[test]
fn a_text_is_sent_in_the_background() {
    let text = Goal::Text("안녕".to_string());
    let sent = deliver(
        &text,
        with(
            ready(),
            vec![
                DeliverEvent::HasBox(true),
                DeliverEvent::Written(0),
                DeliverEvent::Pressed(Ok(())),
                DeliverEvent::Empty(false),
                DeliverEvent::Empty(true),
            ],
        ),
    );
    assert!(matches!(sent, DeliverStep::Done(Ok(()))));
}

#[test]
fn a_text_that_stays_in_the_box_takes_the_screen() {
    let text = Goal::Text("안녕".to_string());
    let mut events = with(
        ready(),
        vec![
            DeliverEvent::HasBox(true),
            DeliverEvent::Written(0),
            DeliverEvent::Pressed(Ok(())),
        ],
    );
    events.extend((0..20).map(|_| DeliverEvent::Empty(false)));
    events.push(DeliverEvent::Taken(Ok(())));
    events.push(DeliverEvent::Pressed(Ok(())));
    events.extend((0..30).map(|_| DeliverEvent::Empty(false)));
    assert!(matches!(
        deliver(&text, events),
        DeliverStep::Done(Err(SendError::NotSent))
    ));
    assert_eq!(subtitle_of(&text, "방"), "방 로 전송 중");
}

#[test]
fn a_draft_is_pasted_and_never_written() {
    let draft = Goal::Draft("초안".to_string());
    let mut events = with(
        ready(),
        vec![
            DeliverEvent::HasBox(true),
            DeliverEvent::Saved(Ok(())),
            DeliverEvent::Put(Ok(())),
            DeliverEvent::Taken(Ok(())),
            DeliverEvent::Pressed(Ok(())),
        ],
    );
    events.push(DeliverEvent::Value(None));
    events.push(DeliverEvent::Value(Some("앞 초안 뒤".to_string())));
    assert!(matches!(deliver(&draft, events), DeliverStep::Done(Ok(()))));

    let boxed = deliver(&draft, with(ready(), vec![DeliverEvent::HasBox(true)]));
    assert!(matches!(boxed, DeliverStep::Ask(Deliver::Save)));

    let mut events = with(
        ready(),
        vec![
            DeliverEvent::HasBox(true),
            DeliverEvent::Saved(Ok(())),
            DeliverEvent::Put(Ok(())),
            DeliverEvent::Taken(Ok(())),
            DeliverEvent::Pressed(Ok(())),
        ],
    );
    events.extend((0..30).map(|_| DeliverEvent::Value(None)));
    assert!(matches!(
        deliver(&draft, events),
        DeliverStep::Done(Err(SendError::DraftNotStaged { .. }))
    ));
    assert_eq!(subtitle_of(&draft, "방"), "방 초안 작성 중");
}

fn image() -> Goal {
    Goal::Image("/p/그림.PNG".to_string())
}

fn image_ready() -> Vec<DeliverEvent> {
    vec![
        DeliverEvent::Trusted(true),
        DeliverEvent::IsFile(true),
        DeliverEvent::Running(true),
        DeliverEvent::Resolved(Ok(())),
        DeliverEvent::Saved(Ok(())),
        DeliverEvent::Put(Ok(())),
    ]
}

fn pasted(before: Option<usize>) -> Vec<DeliverEvent> {
    with(
        image_ready(),
        vec![
            DeliverEvent::Rows(before),
            DeliverEvent::Taken(Ok(())),
            DeliverEvent::Cancelled(false),
            DeliverEvent::Pressed(Ok(())),
        ],
    )
}

#[test]
fn an_image_is_sent_once_the_transcript_grew() {
    let sent = deliver(
        &image(),
        with(
            pasted(Some(4)),
            vec![
                DeliverEvent::Cancelled(false),
                DeliverEvent::Sheet(true),
                DeliverEvent::Cancelled(false),
                DeliverEvent::Sheet(false),
                DeliverEvent::Rows(Some(4)),
                DeliverEvent::Cancelled(false),
                DeliverEvent::Sheet(false),
                DeliverEvent::Rows(Some(5)),
            ],
        ),
    );
    assert!(matches!(sent, DeliverStep::Done(Ok(()))));
    assert_eq!(subtitle_of(&image(), "방"), "방 · 그림.PNG");
}

#[test]
fn an_image_without_a_count_is_sent_once_the_box_is_empty() {
    let sent = deliver(
        &image(),
        with(
            pasted(None),
            vec![
                DeliverEvent::Cancelled(false),
                DeliverEvent::Sheet(false),
                DeliverEvent::Rows(Some(9)),
                DeliverEvent::Empty(true),
            ],
        ),
    );
    assert!(matches!(sent, DeliverStep::Done(Ok(()))));
}

#[test]
fn cancelling_an_image_tells_whether_it_was_pasted() {
    let before = deliver(
        &image(),
        with(
            image_ready(),
            vec![
                DeliverEvent::Rows(None),
                DeliverEvent::Taken(Ok(())),
                DeliverEvent::Cancelled(true),
            ],
        ),
    );
    assert!(matches!(before, DeliverStep::Done(Err(SendError::Cancelled))));
    let after = deliver(&image(), with(pasted(None), vec![DeliverEvent::Cancelled(true)]));
    assert!(matches!(
        after,
        DeliverStep::Done(Err(SendError::CancelledAfterPaste))
    ));
    let mut events = pasted(Some(1));
    for _ in 0..40 {
        events.push(DeliverEvent::Cancelled(false));
        events.push(DeliverEvent::Sheet(true));
    }
    assert!(matches!(
        deliver(&image(), events),
        DeliverStep::Done(Err(SendError::ImageNotSent))
    ));
}

#[test]
fn a_delivery_reports_what_stops_it() {
    let text = Goal::Text("x".to_string());
    let stopped = |goal: &Goal, events: Vec<DeliverEvent>| match deliver(goal, events) {
        DeliverStep::Done(Err(error)) => error.message(),
        other => panic!("not stopped: {other:?}"),
    };
    assert!(stopped(&text, vec![DeliverEvent::Trusted(false)]).contains("accessibility"));
    assert_eq!(
        stopped(&text, vec![DeliverEvent::Trusted(true), DeliverEvent::Running(false)]),
        "KakaoTalk is not running"
    );
    assert_eq!(
        stopped(&text, with(ready(), vec![DeliverEvent::HasBox(false)])),
        "could not find the message input box in window '방'"
    );
    assert_eq!(
        stopped(
            &text,
            with(ready(), vec![DeliverEvent::HasBox(true), DeliverEvent::Written(-25204)])
        ),
        "failed to write the message into the input box (AXError -25204)"
    );
    assert_eq!(
        stopped(
            &image(),
            vec![DeliverEvent::Trusted(true), DeliverEvent::IsFile(false)]
        ),
        "image file not found: /p/그림.PNG"
    );
    let page = Goal::Image("/p/page.html".to_string());
    assert!(
        stopped(&page, vec![DeliverEvent::Trusted(true), DeliverEvent::IsFile(true)])
            .starts_with("unsupported image type 'html'")
    );
    assert!(matches!(
        begin_delivery(&RoomTarget::named("a\u{200b}")),
        DeliverStep::Done(Err(SendError::RoomNameNotTypable { .. }))
    ));
    assert!(matches!(
        deliver(&Goal::Resolve, ready()),
        DeliverStep::Done(Ok(()))
    ));
    assert_eq!(subtitle_of(&Goal::Resolve, "방"), "방 채팅방 여는 중");
}

#[test]
fn images_are_told_by_their_extension() {
    assert_eq!(image_uti("a/b.JPeG"), Some("public.jpeg"));
    assert_eq!(image_uti("x.tif"), Some("public.tiff"));
    assert_eq!(image_uti("x.webp"), Some("org.webmproject.webp"));
    assert_eq!(image_uti("x.heic"), Some("public.heic"));
    assert_eq!(image_uti("x.bmp"), Some("com.microsoft.bmp"));
    assert_eq!(image_uti("x.gif"), Some("com.compuserve.gif"));
    assert_eq!(image_uti("x.svg"), None);
    assert!(matches!(
        check_image_type("noext"),
        Err(SendError::ImageTypeUnsupported(ext)) if ext == "(none)"
    ));
}

#[test]
fn errors_are_reported_in_sentences() {
    let room = || "방".to_string();
    for (error, part) in [
        (SendError::KeyEventFailed, "Enter key event"),
        (SendError::ChatListUnavailable, "is the main window open?"),
        (SendError::RoomNotInChatList { room: room(), scanned: 3 }, "(3 rooms checked)"),
        (SendError::RoomOpenFailed(room()), "selected '방'"),
        (SendError::SearchUnavailable, "search box"),
        (SendError::AmbiguousRoom { room: room(), count: 2 }, "2 chats are named '방'"),
        (SendError::RoomNotFound(room()), "no chat named '방'"),
        (SendError::ClipboardFailed(-4960), "(OSStatus -4960)"),
        (
            SendError::ImageUnreadable { path: "p".to_string(), source: "denied".to_string() },
            "failed to read image file p: denied",
        ),
        (SendError::FocusLost, "not frontmost"),
        (SendError::ChatListMoved { room: room() }, "reordered while '방'"),
        (SendError::DraftNotStaged { room: room() }, "not sitting in 방's compose box"),
        (SendError::Cancelled, "cancelled before anything was sent"),
        (SendError::CancelledAfterPaste, "already pasted"),
        (SendError::NotSent, "stayed in the input box"),
        (SendError::ImageNotSent, "never showed the send confirmation"),
    ] {
        assert!(error.message().contains(part), "{error:?}");
    }
}

// ---------------------------------------------------------------------------
// Clipboard and curtain
// ---------------------------------------------------------------------------

#[test]
fn what_was_read_of_the_clipboard_is_put_back() {
    let saved = save_items(&[
        Some(vec![Flavor::Read(4), Flavor::Unreadable, Flavor::Read(5)]),
        None,
        Some(vec![Flavor::Nameless]),
        Some(vec![Flavor::Read(6)]),
    ]);
    assert_eq!(saved.items, vec![vec![4, 5], vec![6]]);
    assert_eq!(saved.unreadable, Some(2));
    assert_eq!(save_items(&[]).unreadable, Some(0));
}

#[test]
fn input_is_blocked_only_behind_the_curtain() {
    let esc = Input::KeyDown { code: ESC_KEYCODE };
    assert_eq!(judge_input(0, false, esc), Verdict::Keep);
    assert_eq!(judge_input(SYNTHETIC_EVENT_TAG, true, esc), Verdict::Keep);
    assert_eq!(judge_input(0, true, esc), Verdict::DropAndCancel);
    assert_eq!(judge_input(0, true, Input::KeyDown { code: 1 }), Verdict::Drop);
    assert_eq!(
        judge_input(0, true, Input::LeftDown { inside_cancel: true }),
        Verdict::DropAndCancel
    );
    assert_eq!(
        judge_input(0, true, Input::LeftDown { inside_cancel: false }),
        Verdict::Drop
    );
    assert_eq!(judge_input(0, true, Input::Other), Verdict::Drop);
}

#[test]
fn the_curtain_follows_what_is_asked_of_it() {
    let mut control = CurtainControl::new();
    let mut drawn = Drawn {
        visible: false,
        revision: 0,
    };
    let mut frame = |control: &CurtainControl| {
        let (pump, next) = pump_frame(control, drawn);
        drawn = next;
        pump
    };
    assert_eq!(frame(&control), Pump::Nothing);
    control.show("one");
    assert_eq!(frame(&control), Pump::Show);
    assert_eq!(frame(&control), Pump::Tick);
    control.show("two");
    assert_eq!(control.subtitle, "two");
    assert_eq!(frame(&control), Pump::Show);
    control.lower();
    assert_eq!(frame(&control), Pump::Hide);
    assert_eq!(frame(&control), Pump::Nothing);
    assert_eq!((spinner_frame(89), spinner_frame(90), spinner_frame(720)), (0, 1, 0));
}

#[test]
fn a_send_is_cancelled_through_its_curtain() {
    let mut context = SendContext::new(FocusPolicy::default());
    assert!(!context.cancelled());
    let mut control = CurtainControl::new();
    assert!(!control.is_cancelled());
    control.cancel.cancel();
    assert!(control.cancel_flag().is_cancelled());
    context.curtain = Some(control);
    assert!(context.cancelled());
    assert!(!CancelFlag::new().is_cancelled());
}

#[test]
fn an_attachment_is_shown_without_its_directory() {
    assert_eq!(attachment_label("/Users/me/private/사진.jpg"), "사진.jpg");
    assert_eq!(attachment_label("/"), "첨부 파일");
}
