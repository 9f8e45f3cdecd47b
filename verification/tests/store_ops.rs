use scrim_matchmaker::{Error, LookingForScrim, Platform, RankRange, Region, ScrimStore, UserStore};

fn request(creator: i64, time: i64) -> LookingForScrim {
    LookingForScrim {
        id: 0,
        creator_id: creator,
        team_name: None,
        region: Region::EU,
        platform: Platform::PC,
        range: RankRange { start: 4000, end: 4500 },
        time,
        match_id: None,
        cancelled: false,
    }
}

#[test]
fn create_assigns_fresh_ids() {
    let mut store = ScrimStore::new();
    let a = store.create_scrim(request(1, 100));
    let b = store.create_scrim(request(2, 200));
    assert_ne!(a, b);
    assert_eq!(store.get_scrim(a).unwrap().creator_id, 1);
    assert_eq!(store.get_scrim(b).unwrap().creator_id, 2);
}

#[test]
fn get_missing_is_not_found() {
    let store = ScrimStore::new();
    assert!(matches!(store.get_scrim(7), Err(Error::NotFound)));
}

#[test]
fn propose_sets_only_the_proposer() {
    let mut store = ScrimStore::new();
    let a = store.create_scrim(request(1, 100));
    let b = store.create_scrim(request(2, 100));
    store.match_scrims(a, b);
    assert_eq!(store.get_scrim(a).unwrap().match_id, Some(b));
    assert_eq!(store.get_scrim(b).unwrap().match_id, None);
}

#[test]
fn revoke_clears_the_edge() {
    let mut store = ScrimStore::new();
    let a = store.create_scrim(request(1, 100));
    let b = store.create_scrim(request(2, 100));
    store.match_scrims(a, b);
    store.revoke_scrim(a);
    assert_eq!(store.get_scrim(a).unwrap().match_id, None);
    assert_eq!(store.get_scrim(b).unwrap().match_id, None);
}

#[test]
fn cancel_then_restore_round_trips() {
    let mut store = ScrimStore::new();
    let a = store.create_scrim(request(1, 1000));
    store.cancel_scrim(a);
    assert!(store.get_scrim(a).unwrap().cancelled);
    assert!(store.get_future_scrims(1, 500).is_empty());
    store.restore_scrim(a);
    let rec = store.get_scrim(a).unwrap();
    assert!(!rec.cancelled);
    assert_eq!(rec.creator_id, 1);
    assert_eq!(rec.time, 1000);
    let listed = store.get_future_scrims(1, 500);
    assert_eq!(listed.len(), 1);
    assert_eq!(listed[0].id, a);
    assert!(!listed[0].cancelled);
}

#[test]
fn listing_excludes_past_cancelled_and_others() {
    let mut store = ScrimStore::new();
    let mine = store.create_scrim(request(1, 1000));
    let _past = store.create_scrim(request(1, 10));
    let theirs = store.create_scrim(request(2, 1000));
    let gone = store.create_scrim(request(1, 2000));
    store.cancel_scrim(gone);
    let listed = store.get_future_scrims(1, 500);
    assert_eq!(listed.len(), 1);
    assert_eq!(listed[0].id, mine);
    let other = store.get_future_scrims(2, 500);
    assert_eq!(other.len(), 1);
    assert_eq!(other[0].id, theirs);
}

#[test]
fn timezone_store_upserts() {
    let mut users = UserStore::new();
    assert!(matches!(users.get_timezone(9), Err(Error::MissingTimezone)));
    users.set_timezone(9, String::from("Europe/London"));
    assert_eq!(users.get_timezone(9).unwrap(), "Europe/London");
    users.set_timezone(9, String::from("America/New_York"));
    assert_eq!(users.get_timezone(9).unwrap(), "America/New_York");
    assert!(matches!(users.get_timezone(10), Err(Error::MissingTimezone)));
}
