use vstd::prelude::*;

use crate::error::Error;
use crate::matching::{find_matches, mapped, match_list_ok};
use crate::scrim::{LookingForScrim, ScrimView};
use crate::store::{
    active_for, get_by_id, has_id, index_of_id, lemma_index_of_id, unique_ids, updates_record,
    with_cancelled, with_match, ScrimStore,
};
use crate::strutil::{
    lemma_digits_canonical, lemma_udec_wf, parse_u64, spec_is_digit, spec_udec, str_eq,
    u64_to_string,
};

verus! {

broadcast use
    vstd::seq_lib::group_to_multiset_ensures,
    vstd::multiset::group_multiset_axioms,
;

/// The state of one sub-flow of an interactive session, covering one of the
/// user's requests.
pub enum ScrimState {
    /// Still looking: shows the current candidate list. `previous_revoked`
    /// is set when a stale proposal was just auto-revoked, so the user is
    /// told their previous partner picked someone else.
    Looking { previous_revoked: bool, matches: Vec<(i128, LookingForScrim)> },
    /// A proposal stands: shows the partner request.
    Matched(LookingForScrim),
    /// Soft-deleted: offers only restoration.
    Cancelled,
}

/// The plain value of a sub-flow state.
pub enum ScrimStateView {
    Looking { previous_revoked: bool, matches: Seq<(int, ScrimView)> },
    Matched(ScrimView),
    Cancelled,
}

impl View for ScrimState {
    type V = ScrimStateView;

    open spec fn view(&self) -> ScrimStateView {
        match self {
            ScrimState::Looking { previous_revoked, matches } => ScrimStateView::Looking {
                previous_revoked: *previous_revoked,
                matches: mapped(matches@),
            },
            ScrimState::Matched(p) => ScrimStateView::Matched(p@),
            ScrimState::Cancelled => ScrimStateView::Cancelled,
        }
    }
}

/// One sub-flow of a session: a request of the invoking user together with
/// its displayed state. `index` is the position of the sub-flow within the
/// session, used to address it from interactive controls.
pub struct ScrimMsg {
    pub index: usize,
    pub scrim: LookingForScrim,
    pub state: ScrimState,
}

/// The state is `Looking` with the given revocation notice and a candidate
/// list that satisfies the match finder's promise against the table.
pub open spec fn looking_state_ok(
    st: ScrimStateView,
    table: Seq<ScrimView>,
    rv: ScrimView,
    now: int,
    revoked: bool,
) -> bool {
    match st {
        ScrimStateView::Looking { previous_revoked, matches } => previous_revoked == revoked
            && match_list_ok(matches, table, rv, now),
        _ => false,
    }
}

/// The partner of a standing proposal still agrees with it: its own edge
/// either points back or is not set at all (a pending proposal).
pub open spec fn partner_agrees(table: Seq<ScrimView>, partner_id: int, self_id: int) -> bool {
    get_by_id(table, partner_id).match_id is None || get_by_id(table, partner_id).match_id
        == Some(self_id)
}

impl ScrimMsg {
    /// Computes the initial state of a sub-flow for one request.
    ///
    /// If the request has proposed to a partner whose own edge has since
    /// been pointed elsewhere, the proposal is stale: it is auto-revoked in
    /// the store and the sub-flow starts `Looking` with a notice. A partner
    /// that points back — or has not answered yet — leaves the sub-flow
    /// `Matched`. A request with no proposal starts `Looking`.
    pub fn new(store: &mut ScrimStore, scrim: LookingForScrim, index: usize, now: i64) -> (r:
        Result<ScrimMsg, Error>)
        requires
            old(store).wf(),
        ensures
            final(store).wf(),
            r matches Ok(msg) ==> msg.index == index && msg.scrim@ == scrim@,
            scrim@.match_id is None ==> final(store)@ == old(store)@ && (r matches Ok(msg)
                && looking_state_ok(msg.state@, old(store)@, scrim@, now as int, false)),
            scrim@.match_id matches Some(m) ==> (!has_id(old(store)@, m) ==> final(store)@
                == old(store)@ && (r matches Err(e) && e is NotFound)),
            scrim@.match_id matches Some(m) ==> ((has_id(old(store)@, m) && partner_agrees(
                old(store)@,
                m,
                scrim@.id,
            )) ==> final(store)@ == old(store)@ && (r matches Ok(msg)
                && msg.state@ matches ScrimStateView::Matched(p) && p == get_by_id(old(store)@, m))),
            scrim@.match_id matches Some(m) ==> ((has_id(old(store)@, m) && !partner_agrees(
                old(store)@,
                m,
                scrim@.id,
            )) ==> updates_record(
                old(store)@,
                final(store)@,
                scrim@.id,
                |v: ScrimView| with_match(v, None),
            ) && (r matches Ok(msg) && looking_state_ok(
                msg.state@,
                final(store)@,
                scrim@,
                now as int,
                true,
            ))),
    {
        if let Some(match_id) = scrim.match_id {
            let other = match store.get_scrim(match_id) {
                Ok(o) => o,
                Err(e) => {
                    return Err(e);
                },
            };
            let points_elsewhere = match other.match_id {
                Some(other_match_id) => other_match_id != scrim.id,
                None => false,
            };
            if points_elsewhere {
                store.revoke_scrim(scrim.id);
                let matches = find_matches(store, &scrim, now);
                Ok(ScrimMsg {
                    state: ScrimState::Looking { previous_revoked: true, matches },
                    scrim,
                    index,
                })
            } else {
                Ok(ScrimMsg { state: ScrimState::Matched(other), scrim, index })
            }
        } else {
            let matches = find_matches(store, &scrim, now);
            Ok(ScrimMsg { state: ScrimState::Looking { previous_revoked: false, matches }, scrim, index })
        }
    }
}

/// An action a displayed control can request on a session, scoped to one
/// sub-flow.
pub enum SessionAction {
    /// Re-run the match finder.
    Refresh,
    /// Soft-delete the request.
    Cancel,
    /// Undo the soft-delete.
    Restore,
    /// Clear the standing proposal.
    Revoke,
    /// Propose to the numbered candidate of the current list.
    Accept(usize),
    /// Tear the whole session down.
    RemoveMsgs,
}

/// What the session loop should do after a step: redraw the sub-flow, end
/// the session, or nothing (the action was malformed or did not apply).
pub enum SessionEffect {
    Updated,
    Removed,
    Ignored,
}

/// Applies one user action to the addressed sub-flow, with its store side
/// effect. A malformed address, an accept outside the candidate list, or an
/// accept while not looking are ignored, as unrecognized controls are.
pub fn session_step(
    msgs: &mut Vec<ScrimMsg>,
    store: &mut ScrimStore,
    index: usize,
    action: &SessionAction,
    now: i64,
) -> (e: SessionEffect)
    requires
        old(store).wf(),
    ensures
        final(store).wf(),
        final(msgs)@.len() == old(msgs)@.len(),
        forall|j: int|
            0 <= j < old(msgs)@.len() && j != index ==> final(msgs)@[j] == old(msgs)@[j],
        index < old(msgs)@.len() ==> {
            let msg = old(msgs)@[index as int];
            let new_msg = final(msgs)@[index as int];
            match action {
                SessionAction::Refresh => final(store)@ == old(store)@ && e is Updated
                    && new_msg.index == msg.index && new_msg.scrim@ == msg.scrim@
                    && looking_state_ok(new_msg.state@, old(store)@, msg.scrim@, now as int, false),
                SessionAction::Cancel => updates_record(
                    old(store)@,
                    final(store)@,
                    msg.scrim@.id,
                    |v: ScrimView| with_cancelled(v, true),
                ) && e is Updated && new_msg.index == msg.index && new_msg.scrim@ == msg.scrim@
                    && new_msg.state@ is Cancelled,
                SessionAction::Restore => updates_record(
                    old(store)@,
                    final(store)@,
                    msg.scrim@.id,
                    |v: ScrimView| with_cancelled(v, false),
                ) && e is Updated && new_msg.index == msg.index && new_msg.scrim@ == msg.scrim@
                    && looking_state_ok(
                    new_msg.state@,
                    final(store)@,
                    msg.scrim@,
                    now as int,
                    false,
                ),
                SessionAction::Revoke => updates_record(
                    old(store)@,
                    final(store)@,
                    msg.scrim@.id,
                    |v: ScrimView| with_match(v, None),
                ) && e is Updated && new_msg.index == msg.index && new_msg.scrim@ == msg.scrim@
                    && looking_state_ok(
                    new_msg.state@,
                    final(store)@,
                    msg.scrim@,
                    now as int,
                    false,
                ),
                SessionAction::Accept(n) => {
                    match msg.state@ {
                        ScrimStateView::Looking { matches, .. } => {
                            if (n as int) < matches.len() {
                                let partner = matches[n as int].1;
                                updates_record(
                                    old(store)@,
                                    final(store)@,
                                    msg.scrim@.id,
                                    |v: ScrimView| with_match(v, Some(partner.id)),
                                ) && e is Updated && new_msg.index == msg.index && new_msg.scrim@
                                    == msg.scrim@ && new_msg.state@ == ScrimStateView::Matched(
                                    partner,
                                )
                            } else {
                                final(store)@ == old(store)@ && final(msgs)@ == old(msgs)@
                                    && e is Ignored
                            }
                        },
                        _ => final(store)@ == old(store)@ && final(msgs)@ == old(msgs)@
                            && e is Ignored,
                    }
                },
                SessionAction::RemoveMsgs => final(store)@ == old(store)@ && final(msgs)@ == old(
                    msgs,
                )@ && e is Removed,
            }
        },
        index >= old(msgs)@.len() ==> final(store)@ == old(store)@ && final(msgs)@ == old(msgs)@
            && e is Ignored,
{
    if index >= msgs.len() {
        return SessionEffect::Ignored;
    }
    match action {
        SessionAction::Refresh => {
            let scrim = msgs[index].scrim.clone();
            let idx = msgs[index].index;
            let matches = find_matches(store, &scrim, now);
            msgs.set(
                index,
                ScrimMsg {
                    index: idx,
                    scrim,
                    state: ScrimState::Looking { previous_revoked: false, matches },
                },
            );
            SessionEffect::Updated
        },
        SessionAction::Cancel => {
            let scrim = msgs[index].scrim.clone();
            let idx = msgs[index].index;
            store.cancel_scrim(scrim.id);
            msgs.set(index, ScrimMsg { index: idx, scrim, state: ScrimState::Cancelled });
            SessionEffect::Updated
        },
        SessionAction::Restore => {
            let scrim = msgs[index].scrim.clone();
            let idx = msgs[index].index;
            store.restore_scrim(scrim.id);
            let matches = find_matches(store, &scrim, now);
            msgs.set(
                index,
                ScrimMsg {
                    index: idx,
                    scrim,
                    state: ScrimState::Looking { previous_revoked: false, matches },
                },
            );
            SessionEffect::Updated
        },
        SessionAction::Revoke => {
            let scrim = msgs[index].scrim.clone();
            let idx = msgs[index].index;
            store.revoke_scrim(scrim.id);
            let matches = find_matches(store, &scrim, now);
            msgs.set(
                index,
                ScrimMsg {
                    index: idx,
                    scrim,
                    state: ScrimState::Looking { previous_revoked: false, matches },
                },
            );
            SessionEffect::Updated
        },
        SessionAction::Accept(n) => {
            let n = *n;
            let partner: LookingForScrim = match &msgs[index].state {
                ScrimState::Looking { matches, .. } => {
                    if n < matches.len() {
                        matches[n].1.clone()
                    } else {
                        return SessionEffect::Ignored;
                    }
                },
                _ => {
                    return SessionEffect::Ignored;
                },
            };
            let scrim = msgs[index].scrim.clone();
            let idx = msgs[index].index;
            store.match_scrims(scrim.id, partner.id);
            msgs.set(index, ScrimMsg { index: idx, scrim, state: ScrimState::Matched(partner) });
            SessionEffect::Updated
        },
        SessionAction::RemoveMsgs => SessionEffect::Removed,
    }
}

/// Sorts requests by ascending scheduled time; the result is a permutation
/// of the input.
fn sort_by_time(v: Vec<LookingForScrim>) -> (s: Vec<LookingForScrim>)
    ensures
        s@.len() == v@.len(),
        s@.map_values(|x: LookingForScrim| x@).to_multiset() =~= v@.map_values(
            |x: LookingForScrim| x@,
        ).to_multiset(),
        forall|a: int, b: int|
            0 <= a < b < s@.len() ==> (#[trigger] s@[a])@.time <= (#[trigger] s@[b])@.time,
{
    let ghost init = v@.map_values(|x: LookingForScrim| x@);
    let mut rest = v;
    let mut out: Vec<LookingForScrim> = Vec::new();
    proof {
        assert(out@.map_values(|x: LookingForScrim| x@) =~= Seq::<ScrimView>::empty());
        assert(out@.map_values(|x: LookingForScrim| x@).to_multiset().add(
            rest@.map_values(|x: LookingForScrim| x@).to_multiset(),
        ) =~= init.to_multiset());
    }
    while rest.len() > 0
        invariant
            out@.len() + rest@.len() == init.len(),
            out@.map_values(|x: LookingForScrim| x@).to_multiset().add(
                rest@.map_values(|x: LookingForScrim| x@).to_multiset(),
            ) =~= init.to_multiset(),
            forall|a: int, b: int|
                0 <= a < b < out@.len() ==> (#[trigger] out@[a])@.time <= (#[trigger] out@[b])@.time,
            forall|a: int, b: int|
                0 <= a < out@.len() && 0 <= b < rest@.len() ==> (#[trigger] out@[a])@.time <= (
                #[trigger] rest@[b])@.time,
        decreases rest@.len(),
    {
        let mut m: usize = 0;
        let mut i: usize = 1;
        while i < rest.len()
            invariant
                rest@.len() > 0,
                m < i,
                i <= rest@.len(),
                forall|k: int| 0 <= k < i ==> rest@[m as int]@.time <= (#[trigger] rest@[k])@.time,
            decreases rest@.len() - i,
        {
            if rest[i].time < rest[m].time {
                m = i;
            }
            i = i + 1;
        }
        let ghost rest_before = rest@;
        let ghost out_before = out@;
        let x = rest.remove(m);
        out.push(x);
        proof {
            let xm = x@;
            assert(rest_before.map_values(|q: LookingForScrim| q@)[m as int] == xm);
            assert(rest@.map_values(|q: LookingForScrim| q@) =~= rest_before.map_values(
                |q: LookingForScrim| q@,
            ).remove(m as int));
            assert(out@.map_values(|q: LookingForScrim| q@) =~= out_before.map_values(
                |q: LookingForScrim| q@,
            ).push(xm));
            assert(rest@.map_values(|q: LookingForScrim| q@).to_multiset()
                =~= rest_before.map_values(|q: LookingForScrim| q@).to_multiset().remove(xm));
            assert(out@.map_values(|q: LookingForScrim| q@).to_multiset() =~= out_before.map_values(
                |q: LookingForScrim| q@,
            ).to_multiset().insert(xm));
            assert(out@.map_values(|q: LookingForScrim| q@).to_multiset().add(
                rest@.map_values(|q: LookingForScrim| q@).to_multiset(),
            ) =~= init.to_multiset());
            assert forall|a: int, b: int|
                0 <= a < out@.len() && 0 <= b < rest@.len() implies (#[trigger] out@[a])@.time <= (
            #[trigger] rest@[b])@.time by {
                if a < out_before.len() {
                    assert(out@[a] == out_before[a]);
                } else {
                    assert(out@[a]@ == xm);
                }
                if b < m {
                    assert(rest@[b] == rest_before[b]);
                } else {
                    assert(rest@[b] == rest_before[b + 1]);
                }
            }
        }
    }
    proof {
        assert(rest@.map_values(|x: LookingForScrim| x@) =~= Seq::<ScrimView>::empty());
        assert(out@.map_values(|x: LookingForScrim| x@).to_multiset() =~= init.to_multiset());
    }
    out
}

/// A standing proposal that has gone stale in this table: the partner
/// exists and its own edge points at someone else.
pub open spec fn stale_in(table: Seq<ScrimView>, v: ScrimView) -> bool {
    v.match_id matches Some(m) && has_id(table, m) && !partner_agrees(table, m, v.id)
}

/// An element of a filtered table comes from the table and satisfies the
/// filter.
proof fn lemma_filter_origin(s: Seq<ScrimView>, pred: spec_fn(ScrimView) -> bool, x: ScrimView)
    requires
        s.filter(pred).contains(x),
    ensures
        s.contains(x),
        pred(x),
    decreases s.len(),
{
    reveal(Seq::filter);
    if s.len() > 0 {
        let head = s.drop_last();
        if pred(s.last()) && x == s.last() {
            assert(s[s.len() - 1] == x);
        } else {
            if pred(s.last()) {
                assert(s.filter(pred) == head.filter(pred).push(s.last()));
                let i = choose|i: int|
                    0 <= i < s.filter(pred).len() && s.filter(pred)[i] == x;
                assert(i < head.filter(pred).len());
                assert(head.filter(pred)[i] == x);
            }
            lemma_filter_origin(head, pred, x);
            let j = choose|j: int| 0 <= j < head.len() && head[j] == x;
            assert(s[j] == x);
        }
    }
}

/// Opens a session for a user: their active requests, soonest first, each
/// with its initial sub-flow state. The only store changes are the
/// auto-revokes of the user's own stale proposals; the session fails only
/// when some listed proposal references a missing record, and always opens
/// when none does.
pub fn start_session(store: &mut ScrimStore, creator: i64, now: i64) -> (r: Result<
    Vec<ScrimMsg>,
    Error,
>)
    requires
        old(store).wf(),
    ensures
        final(store).wf(),
        final(store)@.len() == old(store)@.len(),
        forall|k: int|
            0 <= k < old(store)@.len() ==> #[trigger] final(store)@[k] == old(store)@[k] || (
            final(store)@[k] == with_match(old(store)@[k], None) && active_for(
                old(store)@[k],
                creator as int,
                now as int,
            ) && stale_in(old(store)@, old(store)@[k])),
        (forall|k: int|
            0 <= k < old(store)@.len() && active_for(
                #[trigger] old(store)@[k],
                creator as int,
                now as int,
            ) ==> (old(store)@[k].match_id matches Some(m) ==> has_id(old(store)@, m))) ==> r
            is Ok,
        r matches Err(e) ==> e is NotFound && (exists|k: int|
            0 <= k < old(store)@.len() && active_for(
                #[trigger] old(store)@[k],
                creator as int,
                now as int,
            ) && (old(store)@[k].match_id matches Some(m) && !has_id(old(store)@, m))),
        r matches Ok(msgs) ==> {
            &&& msgs@.len() == old(store)@.filter(
                |v: ScrimView| active_for(v, creator as int, now as int),
            ).len()
            &&& forall|i: int| 0 <= i < msgs@.len() ==> (#[trigger] msgs@[i]).index == i
            &&& forall|i: int, j: int|
                0 <= i < j < msgs@.len() ==> (#[trigger] msgs@[i]).scrim@.time <= (
                #[trigger] msgs@[j]).scrim@.time
            &&& msgs@.map_values(|m: ScrimMsg| m.scrim@).to_multiset() =~= old(store)@.filter(
                |v: ScrimView| active_for(v, creator as int, now as int),
            ).to_multiset()
        },
{
    let ghost pred = |v: ScrimView| active_for(v, creator as int, now as int);
    let scrims = store.get_future_scrims(creator, now);
    let ghost active = old(store)@.filter(pred);
    let sorted = sort_by_time(scrims);
    let n = sorted.len();
    let mut msgs: Vec<ScrimMsg> = Vec::new();
    let mut i: usize = 0;
    while i < n
        invariant
            store.wf(),
            old(store).wf(),
            n == sorted@.len(),
            i <= n,
            pred == (|v: ScrimView| active_for(v, creator as int, now as int)),
            active == old(store)@.filter(pred),
            sorted@.map_values(|x: LookingForScrim| x@).to_multiset() =~= active.to_multiset(),
            msgs@.len() == i,
            forall|k: int| 0 <= k < i ==> (#[trigger] msgs@[k]).index == k,
            forall|k: int| 0 <= k < i ==> (#[trigger] msgs@[k]).scrim@ == sorted@[k]@,
            forall|a: int, b: int|
                0 <= a < b < n ==> (#[trigger] sorted@[a])@.time <= (#[trigger] sorted@[b])@.time,
            store@.len() == old(store)@.len(),
            forall|k: int|
                0 <= k < old(store)@.len() ==> (#[trigger] store@[k]).id == old(store)@[k].id,
            forall|k: int|
                0 <= k < old(store)@.len() ==> #[trigger] store@[k] == old(store)@[k] || (store@[k]
                    == with_match(old(store)@[k], None) && active_for(
                    old(store)@[k],
                    creator as int,
                    now as int,
                ) && stale_in(old(store)@, old(store)@[k])),
        decreases n - i,
    {
        let scrim = sorted[i].clone();
        let ghost sv = scrim@;
        let ghost pre = store@;
        proof {
            // The listed request is one of the creator's active records.
            broadcast use vstd::seq_lib::group_to_multiset_ensures;
            let views = sorted@.map_values(|x: LookingForScrim| x@);
            assert(views[i as int] == sv);
            assert(views.contains(sv));
            assert(views.to_multiset().count(sv) > 0);
            assert(active.to_multiset().count(sv) > 0);
            assert(active.contains(sv));
            lemma_filter_origin(old(store)@, pred, sv);
            assert(active_for(sv, creator as int, now as int));
        }
        let ghost k0 = choose|k: int| 0 <= k < old(store)@.len() && old(store)@[k] == sv;
        match ScrimMsg::new(store, scrim, i, now) {
            Ok(m) => {
                proof {
                    match sv.match_id {
                        Some(pid) => {
                            if has_id(pre, pid) && !partner_agrees(pre, pid, sv.id) {
                                // A stale proposal was revoked: relate the
                                // change to the table as it stood at the
                                // start.
                                old(store).lemma_wf_unique();
                                assert(unique_ids(old(store)@));
                                assert(unique_ids(pre)) by {
                                    assert(forall|a: int, b: int|
                                        0 <= a < pre.len() && 0 <= b < pre.len() && a != b ==> (
                                        #[trigger] pre[a]).id != (#[trigger] pre[b]).id);
                                }
                                lemma_index_of_id(pre, pid);
                                let jp = index_of_id(pre, pid);
                                assert(pre[jp] == old(store)@[jp] || pre[jp] == with_match(
                                    old(store)@[jp],
                                    None,
                                ));
                                assert(get_by_id(pre, pid).match_id is Some);
                                assert(pre[jp] == old(store)@[jp]);
                                assert(has_id(old(store)@, pid)) by {
                                    assert(old(store)@[jp].id == pid);
                                }
                                assert(!partner_agrees(old(store)@, pid, sv.id)) by {
                                    lemma_index_of_id(old(store)@, pid);
                                    assert(index_of_id(old(store)@, pid) == jp);
                                }
                                assert(stale_in(old(store)@, sv));
                                assert forall|k: int|
                                    0 <= k < old(store)@.len() implies #[trigger] store@[k] == old(
                                    store,
                                )@[k] || (store@[k] == with_match(old(store)@[k], None)
                                    && active_for(old(store)@[k], creator as int, now as int)
                                    && stale_in(old(store)@, old(store)@[k])) by {
                                    if pre[k].id == sv.id {
                                        assert(store@[k] == with_match(pre[k], None));
                                        assert(old(store)@[k].id == sv.id);
                                        assert(old(store)@[k0] == sv);
                                        assert(old(store)@[k0].id == sv.id);
                                        assert(k == k0);
                                        assert(old(store)@[k] == sv);
                                    } else {
                                        assert(store@[k] == pre[k]);
                                    }
                                }
                            } else {
                                assert(store@ == pre);
                            }
                        },
                        None => {
                            assert(store@ == pre);
                        },
                    }
                }
                msgs.push(m);
            },
            Err(e) => {
                proof {
                    // Only a missing partner fails: carry the witness back
                    // to the table as it stood at the start.
                    let pid = sv.match_id.unwrap();
                    assert(!has_id(pre, pid));
                    assert(!has_id(old(store)@, pid)) by {
                        if has_id(old(store)@, pid) {
                            let j = choose|j: int|
                                0 <= j < old(store)@.len() && old(store)@[j].id == pid;
                            assert(store@[j].id == pid);
                        }
                    }
                    assert(old(store)@[k0] == sv);
                }
                return Err(e);
            },
        }
        i = i + 1;
    }
    proof {
        assert(msgs@.map_values(|m: ScrimMsg| m.scrim@) =~= sorted@.map_values(
            |x: LookingForScrim| x@,
        ));
    }
    Ok(msgs)
}

/// The tag that names an action in a control id.
pub open spec fn action_tag(a: SessionAction) -> Seq<char> {
    match a {
        SessionAction::Refresh => "refresh"@,
        SessionAction::Cancel => "cancel"@,
        SessionAction::Restore => "restore"@,
        SessionAction::Revoke => "revoke"@,
        SessionAction::Accept(_) => "accept"@,
        SessionAction::RemoveMsgs => "remove_msgs"@,
    }
}

/// The id a displayed control carries: the session id, the action tag and
/// the sub-flow index, comma-separated; an accept also names the candidate.
pub open spec fn control_id_seq(sid: int, index: int, a: SessionAction) -> Seq<char> {
    let base = spec_udec(sid) + ","@ + action_tag(a) + ","@ + spec_udec(index);
    match a {
        SessionAction::Accept(k) => base + ","@ + spec_udec(k as int),
        _ => base,
    }
}

/// Writes the control id for an action on a sub-flow of a session.
pub fn control_id(sid: u64, index: usize, action: &SessionAction) -> (r: String)
    ensures
        r@ == control_id_seq(sid as int, index as int, *action),
{
    let mut s = u64_to_string(sid);
    s.append(",");
    let tag = match action {
        SessionAction::Refresh => "refresh",
        SessionAction::Cancel => "cancel",
        SessionAction::Restore => "restore",
        SessionAction::Revoke => "revoke",
        SessionAction::Accept(_) => "accept",
        SessionAction::RemoveMsgs => "remove_msgs",
    };
    s.append(tag);
    s.append(",");
    s.append(u64_to_string(index as u64).as_str());
    if let SessionAction::Accept(k) = action {
        s.append(",");
        s.append(u64_to_string(*k as u64).as_str());
    }
    proof {
        assert(s@ =~= control_id_seq(sid as int, index as int, *action));
    }
    s
}

/// The length of the session-id field of a control id.
pub open spec fn ctl_l1(sid: int) -> int {
    spec_udec(sid).len() as int
}

/// The position of the second comma of a control id.
pub open spec fn ctl_l2(sid: int, a: SessionAction) -> int {
    ctl_l1(sid) + 1 + action_tag(a).len()
}

/// The end of the index field of a control id.
pub open spec fn ctl_l3(sid: int, idx: int, a: SessionAction) -> int {
    ctl_l2(sid, a) + 1 + spec_udec(idx).len()
}

/// Action tags are non-empty and hold no comma.
proof fn lemma_tag_facts(a: SessionAction)
    ensures
        action_tag(a).len() >= 1,
        forall|j: int| 0 <= j < action_tag(a).len() ==> action_tag(a)[j] != ',',
{
    reveal_strlit("refresh");
    reveal_strlit("cancel");
    reveal_strlit("restore");
    reveal_strlit("revoke");
    reveal_strlit("accept");
    reveal_strlit("remove_msgs");
}

/// An action is recovered from its tag: no two actions share one.
proof fn lemma_tag_injective(a: SessionAction)
    ensures
        action_tag(a) == "refresh"@ ==> a is Refresh,
        action_tag(a) == "cancel"@ ==> a is Cancel,
        action_tag(a) == "restore"@ ==> a is Restore,
        action_tag(a) == "revoke"@ ==> a is Revoke,
        action_tag(a) == "accept"@ ==> a is Accept,
        action_tag(a) == "remove_msgs"@ ==> a is RemoveMsgs,
{
    reveal_strlit("refresh");
    reveal_strlit("cancel");
    reveal_strlit("restore");
    reveal_strlit("revoke");
    reveal_strlit("accept");
    reveal_strlit("remove_msgs");
    assert("refresh"@.len() == 7);
    assert("cancel"@.len() == 6);
    assert("restore"@.len() == 7);
    assert("revoke"@.len() == 6);
    assert("accept"@.len() == 6);
    assert("remove_msgs"@.len() == 11);
    assert("refresh"@ != "restore"@) by {
        assert("refresh"@[2] == 'f');
        assert("restore"@[2] == 's');
    }
    assert("cancel"@ != "revoke"@) by {
        assert("cancel"@[0] == 'c');
        assert("revoke"@[0] == 'r');
    }
    assert("cancel"@ != "accept"@) by {
        assert("cancel"@[0] == 'c');
        assert("accept"@[0] == 'a');
    }
    assert("revoke"@ != "accept"@) by {
        assert("revoke"@[0] == 'r');
        assert("accept"@[0] == 'a');
    }
    match a {
        SessionAction::Refresh => {},
        SessionAction::Cancel => {},
        SessionAction::Restore => {},
        SessionAction::Revoke => {},
        SessionAction::Accept(_) => {},
        SessionAction::RemoveMsgs => {},
    }
}

/// The anatomy of a written control id: the digit fields, the commas that
/// separate them, and nothing else.
#[verifier::rlimit(100)]
proof fn lemma_control_id_anatomy(sid: int, idx: int, a: SessionAction)
    requires
        sid >= 0,
        idx >= 0,
    ensures
        ({
            let t = control_id_seq(sid, idx, a);
            let l1 = ctl_l1(sid);
            let l2 = ctl_l2(sid, a);
            let l3 = ctl_l3(sid, idx, a);
            &&& 1 <= l1 < l2 < l3 <= t.len()
            &&& t.len() == (match a {
                SessionAction::Accept(k) => l3 + 1 + spec_udec(k as int).len(),
                _ => l3,
            })
            &&& t.subrange(0, l1) == spec_udec(sid)
            &&& t[l1] == ','
            &&& (forall|j: int| 0 <= j < l1 ==> t[j] != ',')
            &&& t.subrange(l1 + 1, l2) == action_tag(a)
            &&& t[l2] == ','
            &&& (forall|j: int| l1 < j < l2 ==> t[j] != ',')
            &&& t.subrange(l2 + 1, l3) == spec_udec(idx)
            &&& (forall|j: int| l2 < j < l3 ==> t[j] != ',')
            &&& (a matches SessionAction::Accept(k) ==> t[l3] == ',' && t.subrange(
                l3 + 1,
                t.len() as int,
            ) == spec_udec(k as int) && (forall|j: int| l3 < j < t.len() ==> t[j] != ','))
            &&& (!(a is Accept) ==> t.len() == l3)
        }),
{
    reveal_strlit(",");
    assert(","@ =~= seq![',']);
    lemma_udec_wf(sid);
    lemma_udec_wf(idx);
    lemma_tag_facts(a);
    let t = control_id_seq(sid, idx, a);
    let l1 = ctl_l1(sid);
    let l2 = ctl_l2(sid, a);
    let l3 = ctl_l3(sid, idx, a);
    assert(t.subrange(0, l1) =~= spec_udec(sid));
    assert(t.subrange(l1 + 1, l2) =~= action_tag(a));
    assert(t.subrange(l2 + 1, l3) =~= spec_udec(idx));
    assert forall|j: int| 0 <= j < l1 implies t[j] != ',' by {
        assert(t[j] == spec_udec(sid)[j]);
        assert(spec_is_digit(spec_udec(sid)[j]));
    }
    assert forall|j: int| l1 < j < l2 implies t[j] != ',' by {
        assert(t[j] == action_tag(a)[j - l1 - 1]);
    }
    assert forall|j: int| l2 < j < l3 implies t[j] != ',' by {
        assert(t[j] == spec_udec(idx)[j - l2 - 1]);
        assert(spec_is_digit(spec_udec(idx)[j - l2 - 1]));
    }
    match a {
        SessionAction::Accept(k) => {
            lemma_udec_wf(k as int);
            assert(t.subrange(l3 + 1, t.len() as int) =~= spec_udec(k as int));
            assert forall|j: int| l3 < j < t.len() implies t[j] != ',' by {
                assert(t[j] == spec_udec(k as int)[j - l3 - 1]);
                assert(spec_is_digit(spec_udec(k as int)[j - l3 - 1]));
            }
        },
        _ => {},
    }
}

/// Pins the first comma a scanner finds in a written control id to the end
/// of the session-id field.
proof fn lemma_pin_c1(s: Seq<char>, c1: int, sid: u64, idx: usize, a: SessionAction)
    requires
        s == control_id_seq(sid as int, idx as int, a),
        0 <= c1 <= s.len(),
        forall|j: int| 0 <= j < c1 ==> s[j] != ',',
        c1 < s.len() ==> s[c1] == ',',
    ensures
        c1 == ctl_l1(sid as int),
        1 <= c1 < s.len(),
        s.subrange(0, c1) == spec_udec(sid as int),
{
    lemma_control_id_anatomy(sid as int, idx as int, a);
    let l1 = ctl_l1(sid as int);
    if c1 > l1 {
        assert(s[l1] != ',');
    }
    if c1 < l1 {
        assert(s[c1] != ',');
    }
}

/// Pins the second comma likewise, to the end of the tag field.
proof fn lemma_pin_c2(s: Seq<char>, c2: int, sid: u64, idx: usize, a: SessionAction)
    requires
        s == control_id_seq(sid as int, idx as int, a),
        ctl_l1(sid as int) < c2 <= s.len(),
        forall|j: int| ctl_l1(sid as int) < j < c2 ==> s[j] != ',',
        c2 < s.len() ==> s[c2] == ',',
    ensures
        c2 == ctl_l2(sid as int, a),
        c2 < s.len(),
        s.subrange(ctl_l1(sid as int) + 1, c2) == action_tag(a),
{
    lemma_control_id_anatomy(sid as int, idx as int, a);
    let l2 = ctl_l2(sid as int, a);
    if c2 > l2 {
        assert(s[l2] != ',');
    }
    if c2 < l2 {
        assert(s[c2] != ',');
    }
}

/// Pins the third scan: it ends at the index field's end — the end of the
/// id for every action but an accept, whose candidate field follows.
proof fn lemma_pin_c3(s: Seq<char>, c3: int, sid: u64, idx: usize, a: SessionAction)
    requires
        s == control_id_seq(sid as int, idx as int, a),
        ctl_l2(sid as int, a) < c3 <= s.len(),
        forall|j: int| ctl_l2(sid as int, a) < j < c3 ==> s[j] != ',',
        c3 < s.len() ==> s[c3] == ',',
    ensures
        c3 == ctl_l3(sid as int, idx as int, a),
        s.subrange(ctl_l2(sid as int, a) + 1, c3) == spec_udec(idx as int),
        a is Accept ==> c3 < s.len() && s.subrange(c3 + 1, s.len() as int) == (match a {
            SessionAction::Accept(k) => spec_udec(k as int),
            _ => Seq::empty(),
        }),
        !(a is Accept) ==> c3 == s.len(),
{
    lemma_control_id_anatomy(sid as int, idx as int, a);
    let l3 = ctl_l3(sid as int, idx as int, a);
    if c3 < l3 {
        assert(s[c3] != ',');
    }
    if c3 > l3 {
        match a {
            SessionAction::Accept(k) => {
                assert(s[l3] != ',');
            },
            _ => {
                assert(l3 == s.len());
            },
        }
    }
}

/// Reads a control id back: the one inverse of `control_id`. Exactly the
/// written shapes parse — whatever `control_id` writes is recovered, and
/// anything else is a malformed control, treated as no action at all.
#[verifier::rlimit(100)]
pub fn parse_control_id(s: &str) -> (r: Option<(u64, usize, SessionAction)>)
    ensures
        r matches Some(p) ==> s@ == control_id_seq(p.0 as int, p.1 as int, p.2),
        forall|sid: u64, idx: usize, a: SessionAction|
            s@ == control_id_seq(sid as int, idx as int, a) ==> r == Some((sid, idx, a)),
{
    let n = s.unicode_len();
    // Find the first two commas.
    let mut c1: usize = 0;
    while c1 < n && s.get_char(c1) != ','
        invariant
            n == s@.len(),
            c1 <= n,
            forall|j: int| 0 <= j < c1 ==> s@[j] != ',',
        decreases n - c1,
    {
        c1 = c1 + 1;
    }
    if c1 == n || c1 == 0 {
        proof {
            assert forall|sid: u64, idx: usize, a: SessionAction|
                s@ != control_id_seq(sid as int, idx as int, a) by {
                if s@ == control_id_seq(sid as int, idx as int, a) {
                    lemma_pin_c1(s@, c1 as int, sid, idx, a);
                }
            }
        }
        return None;
    }
    let mut c2: usize = c1 + 1;
    while c2 < n && s.get_char(c2) != ','
        invariant
            n == s@.len(),
            c1 < c2 <= n,
            forall|j: int| c1 < j < c2 ==> s@[j] != ',',
        decreases n - c2,
    {
        c2 = c2 + 1;
    }
    if c2 == n {
        proof {
            assert forall|sid: u64, idx: usize, a: SessionAction|
                s@ != control_id_seq(sid as int, idx as int, a) by {
                if s@ == control_id_seq(sid as int, idx as int, a) {
                    lemma_pin_c1(s@, c1 as int, sid, idx, a);
                    lemma_pin_c2(s@, c2 as int, sid, idx, a);
                }
            }
        }
        return None;
    }
    let sid_part = s.substring_char(0, c1);
    let tag_part = s.substring_char(c1 + 1, c2);
    // The index runs to the next comma or the end.
    let mut c3: usize = c2 + 1;
    while c3 < n && s.get_char(c3) != ','
        invariant
            n == s@.len(),
            c2 < c3 <= n,
            forall|j: int| c2 < j < c3 ==> s@[j] != ',',
        decreases n - c3,
    {
        c3 = c3 + 1;
    }
    let idx_part = s.substring_char(c2 + 1, c3);
    let sid = match parse_canonical_u64(sid_part) {
        Some(v) => v,
        None => {
            proof {
                assert forall|sid: u64, idx: usize, a: SessionAction|
                    s@ != control_id_seq(sid as int, idx as int, a) by {
                    if s@ == control_id_seq(sid as int, idx as int, a) {
                        lemma_pin_c1(s@, c1 as int, sid, idx, a);
                        assert(sid_part@ == spec_udec(sid as int));
                    }
                }
            }
            return None;
        },
    };
    let idx64 = match parse_canonical_u64(idx_part) {
        Some(v) => v,
        None => {
            proof {
                assert forall|sid2: u64, idx: usize, a: SessionAction|
                    s@ != control_id_seq(sid2 as int, idx as int, a) by {
                    if s@ == control_id_seq(sid2 as int, idx as int, a) {
                        lemma_pin_c1(s@, c1 as int, sid2, idx, a);
                        lemma_pin_c2(s@, c2 as int, sid2, idx, a);
                        lemma_pin_c3(s@, c3 as int, sid2, idx, a);
                        assert(idx_part@ == spec_udec(idx as int));
                    }
                }
            }
            return None;
        },
    };
    if idx64 > usize::MAX as u64 {
        proof {
            assert forall|sid2: u64, idx: usize, a: SessionAction|
                s@ != control_id_seq(sid2 as int, idx as int, a) by {
                if s@ == control_id_seq(sid2 as int, idx as int, a) {
                    lemma_pin_c1(s@, c1 as int, sid2, idx, a);
                    lemma_pin_c2(s@, c2 as int, sid2, idx, a);
                    lemma_pin_c3(s@, c3 as int, sid2, idx, a);
                    assert(idx_part@ == spec_udec(idx as int));
                    assert(idx64 == idx as u64);
                }
            }
        }
        return None;
    }
    let idx = idx64 as usize;
    let action: SessionAction = if str_eq(tag_part, "accept") {
        if c3 == n {
            proof {
                assert forall|sid2: u64, idx2: usize, a: SessionAction|
                    s@ != control_id_seq(sid2 as int, idx2 as int, a) by {
                    if s@ == control_id_seq(sid2 as int, idx2 as int, a) {
                        lemma_pin_c1(s@, c1 as int, sid2, idx2, a);
                        lemma_pin_c2(s@, c2 as int, sid2, idx2, a);
                        lemma_tag_injective(a);
                        assert(a is Accept);
                        lemma_pin_c3(s@, c3 as int, sid2, idx2, a);
                    }
                }
            }
            return None;
        }
        let k_part = s.substring_char(c3 + 1, n);
        let k64 = match parse_canonical_u64(k_part) {
            Some(v) => v,
            None => {
                proof {
                    assert forall|sid2: u64, idx2: usize, a: SessionAction|
                        s@ != control_id_seq(sid2 as int, idx2 as int, a) by {
                        if s@ == control_id_seq(sid2 as int, idx2 as int, a) {
                            lemma_pin_c1(s@, c1 as int, sid2, idx2, a);
                            lemma_pin_c2(s@, c2 as int, sid2, idx2, a);
                            lemma_tag_injective(a);
                            lemma_pin_c3(s@, c3 as int, sid2, idx2, a);
                            match a {
                                SessionAction::Accept(k) => {
                                    assert(k_part@ == spec_udec(k as int));
                                },
                                _ => {},
                            }
                        }
                    }
                }
                return None;
            },
        };
        if k64 > usize::MAX as u64 {
            proof {
                assert forall|sid2: u64, idx2: usize, a: SessionAction|
                    s@ != control_id_seq(sid2 as int, idx2 as int, a) by {
                    if s@ == control_id_seq(sid2 as int, idx2 as int, a) {
                        lemma_pin_c1(s@, c1 as int, sid2, idx2, a);
                        lemma_pin_c2(s@, c2 as int, sid2, idx2, a);
                        lemma_tag_injective(a);
                        lemma_pin_c3(s@, c3 as int, sid2, idx2, a);
                        match a {
                            SessionAction::Accept(k) => {
                                assert(k_part@ == spec_udec(k as int));
                                assert(k64 == k as u64);
                            },
                            _ => {},
                        }
                    }
                }
            }
            return None;
        }
        proof {
            reveal_strlit(",");
            assert(","@ =~= seq![',']);
            assert(s@ =~= s@.subrange(0, c1 as int) + seq![','] + s@.subrange(c1 + 1, c2 as int)
                + seq![','] + s@.subrange(c2 + 1, c3 as int) + seq![','] + s@.subrange(
                c3 + 1,
                n as int,
            ));
            assert(s@ =~= spec_udec(sid as int) + ","@ + "accept"@ + ","@ + spec_udec(
                idx as int,
            ) + ","@ + spec_udec(k64 as int));
        }
        SessionAction::Accept(k64 as usize)
    } else {
        if c3 != n {
            proof {
                assert forall|sid2: u64, idx2: usize, a: SessionAction|
                    s@ != control_id_seq(sid2 as int, idx2 as int, a) by {
                    if s@ == control_id_seq(sid2 as int, idx2 as int, a) {
                        lemma_pin_c1(s@, c1 as int, sid2, idx2, a);
                        lemma_pin_c2(s@, c2 as int, sid2, idx2, a);
                        if a is Accept {
                            assert(tag_part@ == "accept"@);
                        } else {
                            lemma_pin_c3(s@, c3 as int, sid2, idx2, a);
                        }
                    }
                }
            }
            return None;
        }
        proof {
            reveal_strlit(",");
            assert(","@ =~= seq![',']);
            assert(s@ =~= s@.subrange(0, c1 as int) + seq![','] + s@.subrange(c1 + 1, c2 as int)
                + seq![','] + s@.subrange(c2 + 1, c3 as int));
            assert(s@ =~= spec_udec(sid as int) + ","@ + tag_part@ + ","@ + spec_udec(idx as int));
        }
        if str_eq(tag_part, "refresh") {
            SessionAction::Refresh
        } else if str_eq(tag_part, "cancel") {
            SessionAction::Cancel
        } else if str_eq(tag_part, "restore") {
            SessionAction::Restore
        } else if str_eq(tag_part, "revoke") {
            SessionAction::Revoke
        } else if str_eq(tag_part, "remove_msgs") {
            SessionAction::RemoveMsgs
        } else {
            proof {
                assert forall|sid2: u64, idx2: usize, a: SessionAction|
                    s@ != control_id_seq(sid2 as int, idx2 as int, a) by {
                    if s@ == control_id_seq(sid2 as int, idx2 as int, a) {
                        lemma_pin_c1(s@, c1 as int, sid2, idx2, a);
                        lemma_pin_c2(s@, c2 as int, sid2, idx2, a);
                        assert(tag_part@ == action_tag(a));
                    }
                }
            }
            return None;
        }
    };
    proof {
        assert forall|sid2: u64, idx2: usize, a: SessionAction|
            s@ == control_id_seq(sid2 as int, idx2 as int, a) implies Some((sid, idx, action))
            == Some((sid2, idx2, a)) by {
            lemma_pin_c1(s@, c1 as int, sid2, idx2, a);
            lemma_pin_c2(s@, c2 as int, sid2, idx2, a);
            lemma_pin_c3(s@, c3 as int, sid2, idx2, a);
            lemma_tag_injective(a);
            lemma_udec_wf(sid as int);
            lemma_udec_wf(sid2 as int);
            lemma_udec_wf(idx as int);
            lemma_udec_wf(idx2 as int);
            assert(spec_udec(sid as int) == spec_udec(sid2 as int));
            assert(sid == sid2);
            assert(spec_udec(idx as int) == spec_udec(idx2 as int));
            assert(idx == idx2);
            assert(tag_part@ == action_tag(a));
            match action {
                SessionAction::Accept(k) => {
                    assert(a is Accept);
                    match a {
                        SessionAction::Accept(k2) => {
                            assert(s@.subrange(c3 + 1, s@.len() as int) == spec_udec(k2 as int));
                            assert(spec_udec(k as int) == spec_udec(k2 as int));
                            lemma_udec_wf(k as int);
                            lemma_udec_wf(k2 as int);
                            assert(k == k2);
                        },
                        _ => {},
                    }
                },
                _ => {},
            }
        }
    }
    Some((sid, idx, action))
}

/// Reads a number in its one canonical decimal form — digits only, no
/// leading zero — and reads every such form.
fn parse_canonical_u64(s: &str) -> (r: Option<u64>)
    ensures
        r matches Some(v) ==> s@ == spec_udec(v as int),
        forall|v: u64| s@ == spec_udec(v as int) ==> r == Some(v),
{
    let n = s.unicode_len();
    if n == 0 {
        proof {
            assert forall|v: u64| s@ != spec_udec(v as int) by {
                lemma_udec_wf(v as int);
            }
        }
        return None;
    }
    if n > 1 && s.get_char(0) == '0' {
        proof {
            assert forall|v: u64| s@ != spec_udec(v as int) by {
                lemma_udec_wf(v as int);
            }
        }
        return None;
    }
    match parse_u64(s) {
        Some(v) => {
            proof {
                lemma_digits_canonical(s@);
                assert forall|w: u64| s@ == spec_udec(w as int) implies v == w by {
                    lemma_udec_wf(w as int);
                }
            }
            Some(v)
        },
        None => {
            proof {
                assert forall|v: u64| s@ != spec_udec(v as int) by {
                    lemma_udec_wf(v as int);
                }
            }
            None
        },
    }
}

} // verus!
