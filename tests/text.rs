use chat_rooms::command::{parse_command, Command};
use chat_rooms::message::{millis_from_elapsed, fallback_text, render_fallback, split_millis, ChatMessage};
use chat_rooms::text::{join_from, push_decimal, split_words, text_precedes};

#[test]
fn split_words_drops_runs_of_space() {
    assert_eq!(split_words("  a\tbc  d \n"), vec!["a", "bc", "d"]);
    assert!(split_words("   ").is_empty());
}

#[test]
fn join_from_skips_first() {
    let w = split_words("/join  my   room");
    assert_eq!(join_from(&w, 1), "my room");
    assert_eq!(join_from(&w, 3), "");
}

#[test]
fn names_compare_by_characters() {
    assert!(text_precedes("a", "b"));
    assert!(text_precedes("a", "ab"));
    assert!(!text_precedes("ab", "a"));
    assert!(!text_precedes("a", "a"));
    assert!(text_precedes("B", "a"));
}

#[test]
fn decimal_digits() {
    let mut out = String::from("n=");
    push_decimal(&mut out, 0);
    assert_eq!(out, "n=0");
    let mut out = String::new();
    push_decimal(&mut out, 1207);
    assert_eq!(out, "1207");
}

#[test]
fn parse_commands() {
    assert!(matches!(parse_command("/join   my   room "), Command::Join(r) if r == "my room"));
    assert!(matches!(parse_command("/name Fred"), Command::Name(r) if r == "Fred"));
    assert!(matches!(parse_command("/renameroom"), Command::RenameRoom(r) if r.is_empty()));
    assert!(matches!(parse_command("/allusers"), Command::AllUsers));
    assert!(matches!(parse_command("/users"), Command::Users));
    assert!(matches!(parse_command("/rooms"), Command::ListRooms));
    assert!(matches!(parse_command("/help"), Command::Help));
    assert!(matches!(parse_command("/quit now"), Command::Quit));
    assert!(matches!(parse_command("/joinfoo bar"), Command::Say));
    assert!(matches!(parse_command("hello"), Command::Say));
    assert!(matches!(parse_command("   "), Command::Say));
    assert!(matches!(parse_command(""), Command::Nothing));
}

#[test]
fn millis_split_rounds_down() {
    assert_eq!(split_millis(1234567890123), (1234567890, 123));
    assert_eq!(split_millis(-1), (-1, 999));
    assert_eq!(split_millis(-1000), (-1, 0));
}

#[test]
fn fallback_pads_millis() {
    assert_eq!(render_fallback("2020-01-02 03:04:05", 7, "hi"), "[2020-01-02 03:04:05.007 UTC] hi");
    assert_eq!(render_fallback("d", 45, "x"), "[d.045 UTC] x");
    assert_eq!(render_fallback("d", 999, ""), "[d.999 UTC] ");
}

#[test]
fn fallback_text_in_utc() {
    let m = ChatMessage { message: "N1: hello".to_string(), timestamp: 1234567890123 };
    assert_eq!(fallback_text(&m).unwrap(), "[2009-02-13 23:31:30.123 UTC] N1: hello");
    let m = ChatMessage { message: "x".to_string(), timestamp: 0 };
    assert_eq!(fallback_text(&m).unwrap(), "[1970-01-01 00:00:00.000 UTC] x");
    let m = ChatMessage { message: "x".to_string(), timestamp: -1 };
    assert_eq!(fallback_text(&m).unwrap(), "[1969-12-31 23:59:59.999 UTC] x");
    let m = ChatMessage { message: "x".to_string(), timestamp: i64::MAX };
    assert!(fallback_text(&m).is_none());
}

#[test]
fn new_message_is_stamped_now() {
    let m = ChatMessage::new("hi".to_string());
    assert_eq!(m.message, "hi");
    assert!(m.timestamp > 1_600_000_000_000);
}

#[test]
fn elapsed_millis_as_timestamp() {
    assert_eq!(millis_from_elapsed(None), 0);
    assert_eq!(millis_from_elapsed(Some(1234)), 1234);
    assert_eq!(millis_from_elapsed(Some(u128::MAX)), i64::MAX);
}
