use katok::kakao::ax_send::room::{
    describe_as, describe_value, room_matches, room_member_key, search_query_for,
    validate_room_name,
};
use katok::kakao::ax_send::SendError;

#[test]
fn member_order_does_not_decide_identity() {
    assert!(room_matches("나윤, 도현", "도현, 나윤"));
    assert!(room_matches("도현, 나윤", "도현, 나윤"));
}

#[test]
fn different_members_are_still_different_rooms() {
    assert!(!room_matches("나윤, 지우", "도현, 나윤"));
    assert!(!room_matches("나윤", "도현, 나윤"));
}

#[test]
fn a_named_room_compares_as_itself() {
    assert!(room_matches("주말 등산 모임", "주말 등산 모임"));
    assert!(!room_matches("주말 등산 모임", "주말 등산"));
    let name = "양자BlockQ(교육,보안,컴퓨팅)";
    assert!(room_matches(name, name));
    assert!(!room_matches("양자BlockQ(교육,보안)", name));
}

#[test]
fn whitespace_around_members_is_ignored() {
    assert_eq!(
        room_member_key("  나윤 ,도현  "),
        vec!["나윤".to_string(), "도현".to_string()]
    );
    assert!(room_matches("나윤 , 도현", "도현,나윤"));
}

#[test]
fn the_search_query_is_one_distinctive_member() {
    assert_eq!(search_query_for("나윤, 도현"), "나윤");
    assert_eq!(search_query_for("주말 등산 모임"), "주말 등산 모임");
}

#[test]
fn members_count_as_often_as_they_are_listed() {
    assert!(!room_matches("a, a, b", "a, b"));
    assert!(room_matches("a, b, a", "b, a, a"));
    assert!(room_matches(",a,,b,", "b,a"));
}

#[test]
fn naming_a_room_is_an_equivalence() {
    let titles = ["c, a, b", "b,a,c", " a ,b, c"];
    for a in titles {
        assert!(room_matches(a, a));
        for b in titles {
            assert_eq!(room_matches(a, b), room_matches(b, a));
            assert!(room_matches(a, b));
            assert_eq!(search_query_for(a), search_query_for(b));
        }
    }
}

#[test]
fn the_longest_member_is_searched_for() {
    assert_eq!(search_query_for("b, ccc, aa"), "ccc");
    assert_eq!(search_query_for("bb, cc, a"), "bb");
    assert_eq!(search_query_for(" , "), " , ");
    assert_eq!(search_query_for(""), "");
}

#[test]
fn a_typable_name_is_accepted() {
    assert!(validate_room_name("주말 등산 모임 (2팀)").is_ok());
    assert!(validate_room_name("").is_ok());
}

#[test]
fn invisible_and_control_characters_are_named() {
    let Err(SendError::RoomNameNotTypable { room, offenders }) =
        validate_room_name("a\u{200b}b\n\u{feff}")
    else {
        panic!("the name holds characters that no room name holds")
    };
    assert_eq!(offenders, "U+200B, U+000A, U+FEFF");
    assert_eq!(
        room,
        "\"a\\u{200b}b\\n\\u{feff}\" [U+0061 U+200B U+0062 U+000A U+FEFF]"
    );
}

#[test]
fn every_invisible_range_is_refused() {
    for c in [
        '\u{0}', '\u{1f}', '\u{7f}', '\u{9f}', '\u{ad}', '\u{200b}', '\u{200f}', '\u{202a}',
        '\u{202e}', '\u{2060}', '\u{2064}', '\u{2066}', '\u{2069}', '\u{feff}',
    ] {
        assert!(validate_room_name(&format!("x{c}")).is_err(), "{c:?}");
    }
    for c in [' ', '\u{a0}', '\u{200a}', '\u{2010}', '\u{2065}', '\u{180e}'] {
        assert!(validate_room_name(&format!("x{c}")).is_ok(), "{c:?}");
    }
}

#[test]
fn a_value_is_described_with_its_code_points() {
    assert_eq!(describe_as("가a", "form"), "form [U+AC00 U+0061]");
    assert_eq!(describe_value("\u{1F600}"), "\"\u{1F600}\" [U+1F600]");
    assert_eq!(describe_value(""), "\"\" []");
    assert_eq!(describe_value("a\"b"), "\"a\\\"b\" [U+0061 U+0022 U+0062]");
}
