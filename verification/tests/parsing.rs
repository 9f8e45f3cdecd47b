use scrim_matchmaker::{parse_control_id, parse_rank, parse_rank_range, Error, RankRange, SessionAction};
use scrim_matchmaker::{control_id, ButtonStyle};

fn range(s: &str) -> RankRange {
    parse_rank_range(s).expect("range should parse")
}

#[test]
fn single_rank_with_suffix() {
    assert_eq!(parse_rank("4k").unwrap(), 4000);
    assert_eq!(parse_rank("4.3k").unwrap(), 4300);
    assert_eq!(parse_rank("4.35k").unwrap(), 4350);
    assert_eq!(parse_rank("4.357k").unwrap(), 4357);
    assert_eq!(parse_rank(" 4.5k ").unwrap(), 4500);
    assert_eq!(parse_rank("4").unwrap(), 4000);
    assert_eq!(parse_rank("4.").unwrap(), 4000);
    assert_eq!(parse_rank(".5k").unwrap(), 500);
}

#[test]
fn fraction_beyond_point_resolution_is_dropped() {
    assert_eq!(parse_rank("4.3001k").unwrap(), 4300);
    assert_eq!(parse_rank("4.9999k").unwrap(), 4999);
}

#[test]
fn single_rank_collapses_to_point_range() {
    let r = range("4k");
    assert_eq!(r.start, 4000);
    assert_eq!(r.end, 4000);
}

#[test]
fn hyphenated_range() {
    let r = range("4k-4.5k");
    assert_eq!(r.start, 4000);
    assert_eq!(r.end, 4500);
    let r = range(" 4k - 4.5k ");
    assert_eq!(r.start, 4000);
    assert_eq!(r.end, 4500);
}

#[test]
fn nonsense_rank_is_a_user_input_error() {
    let e = parse_rank_range("abc").unwrap_err();
    assert!(e.is_user_input());
    assert_eq!(
        e.message(),
        "Invalid rank range. Must be formatted like `4.3k` or `4k-4.5k`. You entered: `abc`"
    );
}

#[test]
fn malformed_ranks_are_rejected() {
    assert!(parse_rank("").is_err());
    assert!(parse_rank(".").is_err());
    assert!(parse_rank("4.3.5k").is_err());
    assert!(parse_rank("4x").is_err());
    assert!(parse_rank_range("4k--5k").is_err());
    assert!(parse_rank_range("-4k").is_err());
}

#[test]
fn backwards_range_is_rejected() {
    assert!(parse_rank_range("5k-4k").is_err());
}

#[test]
fn oversized_rank_is_rejected() {
    assert!(parse_rank("99999999999k").is_err());
}

#[test]
fn rank_range_displays_like_the_input() {
    assert_eq!(range("4.3k").to_display_string(), "4.3k");
    assert_eq!(range("4k").to_display_string(), "4k");
    assert_eq!(range("4k-4.5k").to_display_string(), "4k-4.5k");
    assert_eq!(RankRange { start: 4050, end: 4050 }.to_display_string(), "4.05k");
    assert_eq!(RankRange { start: 4005, end: 4005 }.to_display_string(), "4.005k");
    assert_eq!(RankRange { start: 500, end: 500 }.to_display_string(), "0.5k");
}

#[test]
fn control_ids_round_trip() {
    let id = control_id(42, 3, &SessionAction::Refresh);
    assert_eq!(id, "42,refresh,3");
    assert!(matches!(parse_control_id(&id), Some((42, 3, SessionAction::Refresh))));

    let id = control_id(7, 0, &SessionAction::Accept(2));
    assert_eq!(id, "7,accept,0,2");
    assert!(matches!(parse_control_id(&id), Some((7, 0, SessionAction::Accept(2)))));

    let id = control_id(1, 9, &SessionAction::RemoveMsgs);
    assert_eq!(id, "1,remove_msgs,9");
    assert!(matches!(parse_control_id(&id), Some((1, 9, SessionAction::RemoveMsgs))));
}

#[test]
fn malformed_control_ids_do_not_parse() {
    assert!(parse_control_id("").is_none());
    assert!(parse_control_id("42").is_none());
    assert!(parse_control_id("42,refresh").is_none());
    assert!(parse_control_id("42,launch,3").is_none());
    assert!(parse_control_id("42,refresh,x").is_none());
    assert!(parse_control_id("42,accept,3").is_none());
    assert!(parse_control_id("42,refresh,3,4").is_none());
}

#[test]
fn error_messages_match_the_bot_replies() {
    assert_eq!(
        Error::MissingTimezone.message(),
        "You haven't set your timezone yet. Use `/timezone zone:<timezone>` to set it"
    );
    assert_eq!(Error::InvalidTimezone.message(), "Invalid timezone");
    assert_eq!(Error::NoTimeSpecified.message(), "No time specified. Please try again");
    assert_eq!(Error::InvalidTime.message(), "Invalid time");
    let _ = ButtonStyle::Primary;
}
