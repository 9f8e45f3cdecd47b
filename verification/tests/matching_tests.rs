use scrim_matchmaker::matching::score;
use scrim_matchmaker::{find_matches, LookingForScrim, Platform, RankRange, Region, ScrimStore};

fn request(creator: i64, time: i64) -> LookingForScrim {
    LookingForScrim {
        id: 0,
        creator_id: creator,
        team_name: None,
        region: Region::EU,
        platform: Platform::PC,
        range: RankRange { start: 4000, end: 4500 },
        time,
        match_id: None,
        cancelled: false,
    }
}

#[test]
fn identical_requests_score_zero() {
    let a = request(1, 1000);
    let b = request(2, 1000);
    assert_eq!(score(&b, &a), 0);
}

#[test]
fn score_weighs_rank_time_region_and_platform() {
    let reference = request(1, 1000);
    // One rank point of midpoint distance counts 3600 (1 per point, scaled
    // by 3600); one second counts 500 (500 per hour of 3600 seconds).
    let mut c = request(2, 1000);
    c.range = RankRange { start: 4100, end: 4500 };
    assert_eq!(score(&c, &reference), 50 * 3600);
    let mut c = request(2, 4600);
    assert_eq!(score(&c, &reference), 3600 * 500);
    c.time = 1000;
    c.region = Region::NA;
    assert_eq!(score(&c, &reference), 500 * 3600);
    c.region = Region::EU;
    c.platform = Platform::Console;
    assert_eq!(score(&c, &reference), 200 * 3600);
}

#[test]
fn reciprocal_candidate_scores_below_everything() {
    let mut reference = request(1, 1000);
    reference.id = 42;
    // A terrible but reciprocal candidate.
    let mut reciprocal = request(2, 1000 + 9_000_000);
    reciprocal.region = Region::NA;
    reciprocal.platform = Platform::Console;
    reciprocal.range = RankRange { start: 900_000, end: 900_000 };
    reciprocal.match_id = Some(42);
    // A perfect fresh candidate.
    let perfect = request(3, 1000);
    assert!(score(&reciprocal, &reference) < score(&perfect, &reference));
}

#[test]
fn finder_excludes_ineligible_candidates() {
    let mut store = ScrimStore::new();
    let me = store.create_scrim(request(1, 1000));
    let reference = store.get_scrim(me).unwrap();

    let _mine_too = store.create_scrim(request(1, 1000));
    let past = store.create_scrim(request(2, 10));
    let _ = past;
    let cancelled = store.create_scrim(request(3, 1000));
    store.cancel_scrim(cancelled);
    let taken = store.create_scrim(request(4, 1000));
    store.match_scrims(taken, 999);
    let ok = store.create_scrim(request(5, 1000));

    let found = find_matches(&store, &reference, 500);
    assert_eq!(found.len(), 1);
    assert_eq!(found[0].1.id, ok);
}

#[test]
fn finder_keeps_candidates_matched_to_the_reference() {
    let mut store = ScrimStore::new();
    let me = store.create_scrim(request(1, 1000));
    let reference = store.get_scrim(me).unwrap();
    let reciprocal = store.create_scrim(request(2, 1000));
    store.match_scrims(reciprocal, me);
    let found = find_matches(&store, &reference, 500);
    assert_eq!(found.len(), 1);
    assert_eq!(found[0].1.id, reciprocal);
    assert_eq!(found[0].1.match_id, Some(me));
}

#[test]
fn finder_sorts_by_score_and_caps_at_five() {
    let mut store = ScrimStore::new();
    let me = store.create_scrim(request(1, 1000));
    let reference = store.get_scrim(me).unwrap();
    // Seven candidates at increasing time distance.
    for k in 0..7i64 {
        store.create_scrim(request(10 + k, 1000 + k * 3600));
    }
    let found = find_matches(&store, &reference, 500);
    assert_eq!(found.len(), 5);
    for w in found.windows(2) {
        assert!(w[0].0 <= w[1].0);
    }
    // The five closest times survive.
    let times: Vec<i64> = found.iter().map(|p| p.1.time).collect();
    assert_eq!(times, vec![1000, 4600, 8200, 11800, 15400]);
}

#[test]
fn reciprocal_candidate_sorts_first_in_the_listing() {
    let mut store = ScrimStore::new();
    let me = store.create_scrim(request(1, 1000));
    let reference = store.get_scrim(me).unwrap();
    let mut far = request(2, 1000 + 500_000);
    far.region = Region::NA;
    far.platform = Platform::Console;
    far.range = RankRange { start: 100_000, end: 100_000 };
    let far_id = store.create_scrim(far);
    store.match_scrims(far_id, me);
    let _near = store.create_scrim(request(3, 1000));
    let found = find_matches(&store, &reference, 500);
    assert_eq!(found.len(), 2);
    assert_eq!(found[0].1.id, far_id);
    assert!(found[0].0 < 0);
}
