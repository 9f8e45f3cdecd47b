use scrim_matchmaker::{
    cancel_step, render_scrim_msg, session_step, start_session, CancelEvent, CancelOutcome,
    LookingForScrim, Platform, RankRange, Region, ScrimMsg, ScrimState, ScrimStore, SessionAction,
    SessionEffect,
};

fn request(creator: i64, time: i64) -> LookingForScrim {
    LookingForScrim {
        id: 0,
        creator_id: creator,
        team_name: None,
        region: Region::EU,
        platform: Platform::PC,
        range: RankRange { start: 4000, end: 4000 },
        time,
        match_id: None,
        cancelled: false,
    }
}

#[test]
fn mutual_proposals_show_matched_without_revocation() {
    let mut store = ScrimStore::new();
    let a = store.create_scrim(request(1, 1000));
    let b = store.create_scrim(request(2, 1000));
    store.match_scrims(a, b);
    store.match_scrims(b, a);

    let rec_a = store.get_scrim(a).unwrap();
    let msg_a = ScrimMsg::new(&mut store, rec_a, 0, 500).unwrap();
    assert!(matches!(&msg_a.state, ScrimState::Matched(p) if p.id == b));

    let rec_b = store.get_scrim(b).unwrap();
    let msg_b = ScrimMsg::new(&mut store, rec_b, 0, 500).unwrap();
    assert!(matches!(&msg_b.state, ScrimState::Matched(p) if p.id == a));

    // No stale-revoke side effect: both edges still stand.
    assert_eq!(store.get_scrim(a).unwrap().match_id, Some(b));
    assert_eq!(store.get_scrim(b).unwrap().match_id, Some(a));
}

#[test]
fn pending_proposal_still_shows_matched() {
    let mut store = ScrimStore::new();
    let a = store.create_scrim(request(1, 1000));
    let b = store.create_scrim(request(2, 1000));
    store.match_scrims(a, b);
    let rec_a = store.get_scrim(a).unwrap();
    let msg_a = ScrimMsg::new(&mut store, rec_a, 0, 500).unwrap();
    assert!(matches!(&msg_a.state, ScrimState::Matched(p) if p.id == b));
    assert_eq!(store.get_scrim(a).unwrap().match_id, Some(b));
}

#[test]
fn stale_proposal_is_auto_revoked() {
    let mut store = ScrimStore::new();
    let a = store.create_scrim(request(1, 1000));
    let b = store.create_scrim(request(2, 1000));
    let c = store.create_scrim(request(3, 1000));
    store.match_scrims(a, b);
    store.match_scrims(b, c);

    let rec_a = store.get_scrim(a).unwrap();
    let msg_a = ScrimMsg::new(&mut store, rec_a, 0, 500).unwrap();
    match &msg_a.state {
        ScrimState::Looking { previous_revoked, .. } => assert!(*previous_revoked),
        _ => panic!("expected a looking state after the stale proposal"),
    }
    assert_eq!(store.get_scrim(a).unwrap().match_id, None);
}

#[test]
fn accepting_a_candidate_proposes_and_shows_matched() {
    let mut store = ScrimStore::new();
    let a = store.create_scrim(request(1, 1000));
    let b = store.create_scrim(request(2, 1000));
    let rec_a = store.get_scrim(a).unwrap();
    let msg = ScrimMsg::new(&mut store, rec_a, 0, 500).unwrap();
    let mut msgs = vec![msg];
    let e = session_step(&mut msgs, &mut store, 0, &SessionAction::Accept(0), 500);
    assert!(matches!(e, SessionEffect::Updated));
    assert!(matches!(&msgs[0].state, ScrimState::Matched(p) if p.id == b));
    assert_eq!(store.get_scrim(a).unwrap().match_id, Some(b));
    assert_eq!(store.get_scrim(b).unwrap().match_id, None);
}

#[test]
fn cancel_and_restore_through_the_session() {
    let mut store = ScrimStore::new();
    let a = store.create_scrim(request(1, 1000));
    let rec_a = store.get_scrim(a).unwrap();
    let msg = ScrimMsg::new(&mut store, rec_a, 0, 500).unwrap();
    let mut msgs = vec![msg];

    let e = session_step(&mut msgs, &mut store, 0, &SessionAction::Cancel, 500);
    assert!(matches!(e, SessionEffect::Updated));
    assert!(matches!(msgs[0].state, ScrimState::Cancelled));
    assert!(store.get_scrim(a).unwrap().cancelled);

    let e = session_step(&mut msgs, &mut store, 0, &SessionAction::Restore, 500);
    assert!(matches!(e, SessionEffect::Updated));
    assert!(matches!(msgs[0].state, ScrimState::Looking { previous_revoked: false, .. }));
    assert!(!store.get_scrim(a).unwrap().cancelled);
}

#[test]
fn revoke_returns_to_looking() {
    let mut store = ScrimStore::new();
    let a = store.create_scrim(request(1, 1000));
    let b = store.create_scrim(request(2, 1000));
    store.match_scrims(a, b);
    let rec_a = store.get_scrim(a).unwrap();
    let msg = ScrimMsg::new(&mut store, rec_a, 0, 500).unwrap();
    let mut msgs = vec![msg];
    let e = session_step(&mut msgs, &mut store, 0, &SessionAction::Revoke, 500);
    assert!(matches!(e, SessionEffect::Updated));
    assert!(matches!(msgs[0].state, ScrimState::Looking { previous_revoked: false, .. }));
    assert_eq!(store.get_scrim(a).unwrap().match_id, None);
}

#[test]
fn out_of_range_controls_are_ignored() {
    let mut store = ScrimStore::new();
    let a = store.create_scrim(request(1, 1000));
    let rec_a = store.get_scrim(a).unwrap();
    let msg = ScrimMsg::new(&mut store, rec_a, 0, 500).unwrap();
    let mut msgs = vec![msg];
    assert!(matches!(
        session_step(&mut msgs, &mut store, 5, &SessionAction::Refresh, 500),
        SessionEffect::Ignored
    ));
    assert!(matches!(
        session_step(&mut msgs, &mut store, 0, &SessionAction::Accept(99), 500),
        SessionEffect::Ignored
    ));
    assert!(matches!(
        session_step(&mut msgs, &mut store, 0, &SessionAction::RemoveMsgs, 500),
        SessionEffect::Removed
    ));
}

#[test]
fn session_lists_soonest_first() {
    let mut store = ScrimStore::new();
    let late = store.create_scrim(request(1, 3000));
    let early = store.create_scrim(request(1, 1000));
    let _other = store.create_scrim(request(2, 2000));
    let msgs = start_session(&mut store, 1, 500).unwrap();
    assert_eq!(msgs.len(), 2);
    assert_eq!(msgs[0].scrim.id, early);
    assert_eq!(msgs[1].scrim.id, late);
    assert_eq!(msgs[0].index, 0);
    assert_eq!(msgs[1].index, 1);
}

#[test]
fn cancel_flow_cancels_the_selection() {
    let mut store = ScrimStore::new();
    let a = store.create_scrim(request(1, 1000));
    let b = store.create_scrim(request(1, 2000));
    let c = store.create_scrim(request(1, 3000));
    let listed = store.get_future_scrims(1, 500);
    let mut to_cancel: Vec<String> = Vec::new();

    let r = cancel_step(
        &mut store,
        &listed,
        &mut to_cancel,
        CancelEvent::Select(vec![String::from("0"), String::from("2"), String::from("junk")]),
    );
    assert!(matches!(r, CancelOutcome::Continue));
    let r = cancel_step(&mut store, &listed, &mut to_cancel, CancelEvent::Confirm);
    assert!(matches!(r, CancelOutcome::Done));
    assert!(store.get_scrim(a).unwrap().cancelled);
    assert!(!store.get_scrim(b).unwrap().cancelled);
    assert!(store.get_scrim(c).unwrap().cancelled);
}

#[test]
fn cancel_flow_aborts_on_empty_confirm() {
    let mut store = ScrimStore::new();
    let a = store.create_scrim(request(1, 1000));
    let listed = store.get_future_scrims(1, 500);
    let mut to_cancel: Vec<String> = Vec::new();
    let r = cancel_step(&mut store, &listed, &mut to_cancel, CancelEvent::Confirm);
    assert!(matches!(r, CancelOutcome::Aborted));
    assert!(!store.get_scrim(a).unwrap().cancelled);
}

#[test]
fn cancelled_message_renders_with_a_restore_control() {
    let mut scrim = request(1, 999_000_000);
    scrim.id = 4;
    scrim.team_name = Some(String::from("Blue"));
    let msg = ScrimMsg { index: 1, scrim, state: ScrimState::Cancelled };
    let (content, buttons) = render_scrim_msg(&msg, 77, 998_999_000);
    assert_eq!(
        content,
        "## Blue: EU/PC 4k on <t:999000000:F> (<t:999000000:R>)\nScrim cancelled and removed from matchmaker"
    );
    assert_eq!(buttons.len(), 1);
    assert_eq!(buttons[0].custom_id, "77,restore,1");
    assert_eq!(buttons[0].label, "Restore");
}

#[test]
fn looking_message_lists_candidates_with_accept_controls() {
    let mut scrim = request(1, 1000);
    scrim.id = 4;
    let mut partner = request(2, 1000);
    partner.id = 9;
    partner.team_name = Some(String::from("Red"));
    let msg = ScrimMsg {
        index: 0,
        scrim,
        state: ScrimState::Looking { previous_revoked: true, matches: vec![(0, partner)] },
    };
    let (content, buttons) = render_scrim_msg(&msg, 5, 500);
    assert_eq!(
        content,
        "## EU/PC 4k on <t:1000:F> (<t:1000:R>)\nYour previous partner picked someone else.\n### Potential matches:\n1. <@2> (**Red**) EU/PC 4k\n"
    );
    assert_eq!(buttons.len(), 3);
    assert_eq!(buttons[0].custom_id, "5,accept,0,0");
    assert_eq!(buttons[0].label, "Accept match 1");
    assert_eq!(buttons[1].custom_id, "5,refresh,0");
    assert_eq!(buttons[2].custom_id, "5,cancel,0");
}

#[test]
fn empty_candidate_list_renders_the_try_again_notice() {
    let mut scrim = request(1, 1000);
    scrim.id = 4;
    let msg = ScrimMsg {
        index: 0,
        scrim,
        state: ScrimState::Looking { previous_revoked: false, matches: vec![] },
    };
    let (content, _) = render_scrim_msg(&msg, 5, 500);
    assert!(content.contains("No matches found. Try again later\n"));
}
