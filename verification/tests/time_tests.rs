use scrim_matchmaker::{
    complete_zone, prepare_looking_for_scrim, resolve_scrim_time, timezone, Error, Platform,
    Region, UserStore,
};

// 1970-01-11 00:00:00 UTC.
const NOW: i64 = 864_000;

#[test]
fn missing_timezone_blocks_find_scrim() {
    let users = UserStore::new();
    let r = prepare_looking_for_scrim(
        &users,
        7,
        Region::EU,
        Platform::PC,
        "4k-4.5k",
        "tomorrow 8pm",
        None,
        NOW,
    );
    let e = r.unwrap_err();
    assert!(matches!(e, Error::MissingTimezone));
    assert!(e.is_user_input());
    assert_eq!(
        e.message(),
        "You haven't set your timezone yet. Use `/timezone zone:<timezone>` to set it"
    );
}

#[test]
fn find_scrim_resolves_time_in_the_user_zone() {
    let mut users = UserStore::new();
    users.set_timezone(7, String::from("UTC"));
    let r = prepare_looking_for_scrim(
        &users,
        7,
        Region::NA,
        Platform::Console,
        "4k-4.5k",
        "tomorrow 8pm",
        Some(String::from("Blue")),
        NOW,
    )
    .unwrap();
    assert_eq!(r.creator_id, 7);
    assert_eq!(r.range.start, 4000);
    assert_eq!(r.range.end, 4500);
    // Tomorrow (1970-01-12) at 20:00 UTC.
    assert_eq!(r.time, 864_000 + 86_400 + 20 * 3600);
    assert_eq!(r.match_id, None);
    assert!(!r.cancelled);
    assert_eq!(r.team_name.as_deref(), Some("Blue"));
}

#[test]
fn unresolvable_time_asks_the_user_to_retry() {
    assert!(matches!(
        resolve_scrim_time("UTC", "banana", NOW),
        Err(Error::NoTimeSpecified)
    ));
}

#[test]
fn aborting_date_shapes_are_rejected_up_front() {
    // Shapes the date recognizer cannot be trusted with: an impossible
    // slash date or month-name day, and the month-shifting phrases.
    assert!(matches!(resolve_scrim_time("UTC", "13/1 8pm", NOW), Err(Error::InvalidTime)));
    assert!(matches!(resolve_scrim_time("UTC", "2/30 8pm", NOW), Err(Error::InvalidTime)));
    assert!(matches!(resolve_scrim_time("UTC", "june 99 evening", NOW), Err(Error::InvalidTime)));
    assert!(matches!(resolve_scrim_time("UTC", "next month 8pm", NOW), Err(Error::InvalidTime)));
    assert!(matches!(resolve_scrim_time("UTC", "in 9 months 8pm", NOW), Err(Error::InvalidTime)));
}

#[test]
fn non_ascii_text_is_rejected_up_front() {
    // The recognizers' regexes match Unicode digits but parse captures as
    // ASCII; such text is turned away before either recognizer runs.
    assert!(matches!(resolve_scrim_time("UTC", "\u{663}", NOW), Err(Error::InvalidTime)));
    assert!(matches!(
        resolve_scrim_time("UTC", "\u{661}/\u{662} 8pm", NOW),
        Err(Error::InvalidTime)
    ));
}

#[test]
fn missing_time_is_reported_before_a_rejected_date_shape() {
    // Even when the text holds a shape the date guard rejects, the absent
    // time of day is what the user is told about.
    assert!(matches!(resolve_scrim_time("UTC", "next month", NOW), Err(Error::NoTimeSpecified)));
}

#[test]
fn this_month_resolves_to_the_base_date() {
    // A zero-month shift is harmless and keeps today's date.
    let ts = resolve_scrim_time("UTC", "this month 8pm", NOW).unwrap();
    assert_eq!(ts, NOW + 20 * 3_600);
}

#[test]
fn well_formed_slash_dates_resolve() {
    // July 4 of the base year (1970), 8pm UTC.
    let ts = resolve_scrim_time("UTC", "7/4 8pm", NOW).unwrap();
    assert_eq!(ts, 184 * 86_400 + 20 * 3_600);
}

#[test]
fn unknown_zone_fails_time_resolution() {
    assert!(matches!(
        resolve_scrim_time("Atlantis/Nowhere", "tomorrow 8pm", NOW),
        Err(Error::InvalidTimezone)
    ));
}

#[test]
fn setting_a_timezone_stores_it_and_replies_with_local_time() {
    let mut users = UserStore::new();
    let reply = timezone(&mut users, 3, Some(String::from("UTC")), NOW).unwrap();
    assert_eq!(reply, "Timezone set to `UTC`. Current time: `11/01/1970 00:00`");
    assert_eq!(users.get_timezone(3).unwrap(), "UTC");
}

#[test]
fn showing_the_timezone_reads_the_stored_one() {
    let mut users = UserStore::new();
    users.set_timezone(3, String::from("UTC"));
    let reply = timezone(&mut users, 3, None, NOW).unwrap();
    assert_eq!(reply, "Your Timezone is `UTC`. Current time: `11/01/1970 00:00`");
}

#[test]
fn setting_an_unknown_timezone_is_rejected() {
    let mut users = UserStore::new();
    let e = timezone(&mut users, 3, Some(String::from("Atlantis/Nowhere")), NOW).unwrap_err();
    assert!(matches!(e, Error::InvalidTimezone));
    assert!(matches!(users.get_timezone(3), Err(Error::MissingTimezone)));
}

#[test]
fn showing_without_a_stored_timezone_fails() {
    let mut users = UserStore::new();
    let e = timezone(&mut users, 3, None, NOW).unwrap_err();
    assert!(matches!(e, Error::MissingTimezone));
}

fn all_zone_names() -> Vec<String> {
    chrono_tz::TZ_VARIANTS.iter().map(|z| z.name().to_string()).collect()
}

#[test]
fn zone_completion_ranks_the_best_match_first() {
    let zones = all_zone_names();
    let completed = complete_zone(&zones, "Europe/Lon");
    assert!(!completed.is_empty());
    assert!(completed.iter().any(|z| z == "Europe/London"));
    // Everything offered fuzzy-matches, so a full exact name comes first.
    let completed = complete_zone(&zones, "Europe/London");
    assert_eq!(completed[0], "Europe/London");
}

#[test]
fn zone_completion_of_nonsense_is_empty() {
    let zones = all_zone_names();
    let completed = complete_zone(&zones, "zzzzqqqq");
    assert!(completed.is_empty());
}
