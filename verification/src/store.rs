use vstd::prelude::*;

use crate::error::Error;
use crate::scrim::{LookingForScrim, ScrimView};

verus! {

// ---------------------------------------------------------------------------
// Spec-level vocabulary for tables of scrim records.
// ---------------------------------------------------------------------------

/// No two records share an id.
pub open spec fn unique_ids(s: Seq<ScrimView>) -> bool {
    forall|i: int, j: int|
        0 <= i < s.len() && 0 <= j < s.len() && i != j ==> s[i].id != s[j].id
}

/// Some record carries this id.
pub open spec fn has_id(s: Seq<ScrimView>, id: int) -> bool {
    exists|i: int| 0 <= i < s.len() && s[i].id == id
}

/// The position of the record with this id (meaningful under `has_id`).
pub open spec fn index_of_id(s: Seq<ScrimView>, id: int) -> int {
    choose|i: int| 0 <= i < s.len() && s[i].id == id
}

/// The record with this id (meaningful under `has_id`).
pub open spec fn get_by_id(s: Seq<ScrimView>, id: int) -> ScrimView {
    s[index_of_id(s, id)]
}

/// The record, with its soft-delete flag replaced.
pub open spec fn with_cancelled(v: ScrimView, cancelled: bool) -> ScrimView {
    ScrimView { cancelled, ..v }
}

/// The record, with its proposal edge replaced.
pub open spec fn with_match(v: ScrimView, match_id: Option<int>) -> ScrimView {
    ScrimView { match_id, ..v }
}

/// The record, with its id replaced.
pub open spec fn with_id(v: ScrimView, id: int) -> ScrimView {
    ScrimView { id, ..v }
}

/// `post` is `pre` with the record carrying `id` (if any) rewritten by `f`,
/// and every other record untouched.
pub open spec fn updates_record(
    pre: Seq<ScrimView>,
    post: Seq<ScrimView>,
    id: int,
    f: spec_fn(ScrimView) -> ScrimView,
) -> bool {
    &&& post.len() == pre.len()
    &&& forall|j: int| 0 <= j < pre.len() && pre[j].id != id ==> post[j] == pre[j]
    &&& forall|j: int| 0 <= j < pre.len() && pre[j].id == id ==> post[j] == f(pre[j])
}

/// A record a listing for this creator shows: the creator's own, not yet
/// past, and not soft-deleted.
pub open spec fn active_for(v: ScrimView, creator: int, now: int) -> bool {
    v.creator_id == creator && v.time >= now && !v.cancelled
}

/// Under unique ids, `index_of_id` is the one position of the id.
pub proof fn lemma_index_of_id(s: Seq<ScrimView>, id: int)
    requires
        unique_ids(s),
        has_id(s, id),
    ensures
        0 <= index_of_id(s, id) < s.len(),
        s[index_of_id(s, id)].id == id,
        forall|j: int| 0 <= j < s.len() && s[j].id == id ==> j == index_of_id(s, id),
{
    let i = index_of_id(s, id);
    assert(0 <= i < s.len() && s[i].id == id);
}

// ---------------------------------------------------------------------------
// The scrim store.
// ---------------------------------------------------------------------------

/// The one-field rewrite a store update performs.
#[derive(Clone, Copy)]
enum UpdateAction {
    SetCancelled(bool),
    SetMatch(Option<i32>),
}

/// The spec-level meaning of an update action.
spec fn spec_apply_update(a: UpdateAction, v: ScrimView) -> ScrimView {
    match a {
        UpdateAction::SetCancelled(c) => with_cancelled(v, c),
        UpdateAction::SetMatch(m) => with_match(
            v,
            match m {
                Some(x) => Some(x as int),
                None => None,
            },
        ),
    }
}

/// The table of scrim requests. Records are soft-deleted only: cancelling
/// flips a flag, nothing is ever removed, and ids are never reused.
pub struct ScrimStore {
    scrims: Vec<LookingForScrim>,
    next_id: i32,
}

impl View for ScrimStore {
    type V = Seq<ScrimView>;

    closed spec fn view(&self) -> Seq<ScrimView> {
        self.scrims@.map_values(|s: LookingForScrim| s@)
    }
}

impl ScrimStore {
    /// The id the next created record will get.
    pub closed spec fn spec_next_id(&self) -> int {
        self.next_id as int
    }

    /// Well-formedness: ids are unique, positive, and below the next free id.
    pub closed spec fn wf(&self) -> bool {
        &&& unique_ids(self@)
        &&& forall|i: int| 0 <= i < self@.len() ==> 1 <= #[trigger] self@[i].id < self.next_id
        &&& 1 <= self.next_id
    }

    pub fn new() -> (r: ScrimStore)
        ensures
            r.wf(),
            r@ =~= Seq::<ScrimView>::empty(),
            r.spec_next_id() == 1,
    {
        ScrimStore { scrims: Vec::new(), next_id: 1 }
    }

    /// Creates a record from the given request, assigning it the next free
    /// id; whatever id the argument carried is ignored.
    pub fn create_scrim(&mut self, lfs: LookingForScrim) -> (r: i32)
        requires
            old(self).wf(),
            old(self).spec_next_id() < i32::MAX,
        ensures
            final(self).wf(),
            r == old(self).spec_next_id(),
            final(self).spec_next_id() == old(self).spec_next_id() + 1,
            final(self)@ =~= old(self)@.push(with_id(lfs@, r as int)),
    {
        let id = self.next_id;
        let mut rec = lfs;
        rec.id = id;
        self.scrims.push(rec);
        self.next_id = id + 1;
        proof {
            assert(self@ =~= old(self)@.push(with_id(lfs@, id as int)));
        }
        id
    }

    /// Flips the soft-delete flag on: the record disappears from matching
    /// and listing. A missing id leaves the store unchanged.
    pub fn cancel_scrim(&mut self, id: i32)
        requires
            old(self).wf(),
        ensures
            final(self).wf(),
            final(self).spec_next_id() == old(self).spec_next_id(),
            updates_record(old(self)@, final(self)@, id as int, |v: ScrimView| with_cancelled(v, true)),
    {
        self.update_record(id, UpdateAction::SetCancelled(true));
    }

    /// Flips the soft-delete flag off: the record is active again.
    pub fn restore_scrim(&mut self, id: i32)
        requires
            old(self).wf(),
        ensures
            final(self).wf(),
            final(self).spec_next_id() == old(self).spec_next_id(),
            updates_record(old(self)@, final(self)@, id as int, |v: ScrimView| with_cancelled(v, false)),
    {
        self.update_record(id, UpdateAction::SetCancelled(false));
    }

    /// Clears the proposal edge of the record.
    pub fn revoke_scrim(&mut self, id: i32)
        requires
            old(self).wf(),
        ensures
            final(self).wf(),
            final(self).spec_next_id() == old(self).spec_next_id(),
            updates_record(old(self)@, final(self)@, id as int, |v: ScrimView| with_match(v, None)),
    {
        self.update_record(id, UpdateAction::SetMatch(None));
    }

    /// Points the proposal edge of `id` at `to`. Only `id` is touched: the
    /// relation is directed, the record at `to` is left as it stands.
    pub fn match_scrims(&mut self, id: i32, to: i32)
        requires
            old(self).wf(),
        ensures
            final(self).wf(),
            final(self).spec_next_id() == old(self).spec_next_id(),
            updates_record(
                old(self)@,
                final(self)@,
                id as int,
                |v: ScrimView| with_match(v, Some(to as int)),
            ),
    {
        self.update_record(id, UpdateAction::SetMatch(Some(to)));
    }

    /// Rewrites one field of the record carrying `id`, leaving every other
    /// record untouched.
    fn update_record(&mut self, id: i32, action: UpdateAction)
        requires
            old(self).wf(),
        ensures
            final(self).wf(),
            final(self).spec_next_id() == old(self).spec_next_id(),
            updates_record(
                old(self)@,
                final(self)@,
                id as int,
                |v: ScrimView| spec_apply_update(action, v),
            ),
    {
        let n = self.scrims.len();
        let mut j: usize = 0;
        while j < n
            invariant
                n == self.scrims.len(),
                n == old(self)@.len(),
                j <= n,
                self.next_id == old(self).next_id,
                old(self).wf(),
                forall|k: int| 0 <= k < n && old(self)@[k].id != id ==> self@[k] == old(self)@[k],
                forall|k: int|
                    0 <= k < j && old(self)@[k].id == id ==> self@[k] == spec_apply_update(
                        action,
                        old(self)@[k],
                    ),
                forall|k: int| j <= k < n ==> self@[k] == old(self)@[k],
            decreases n - j,
        {
            let ghost before = self@;
            proof {
                assert(before[j as int] == old(self)@[j as int]);
                assert(before[j as int] == self.scrims@[j as int]@);
            }
            if self.scrims[j].id == id {
                let mut rec = self.scrims[j].clone();
                match action {
                    UpdateAction::SetCancelled(c) => {
                        rec.cancelled = c;
                    },
                    UpdateAction::SetMatch(m) => {
                        rec.match_id = m;
                    },
                }
                proof {
                    assert(rec@ == spec_apply_update(action, old(self)@[j as int]));
                }
                self.scrims.set(j, rec);
                proof {
                    assert(self@[j as int] == spec_apply_update(action, old(self)@[j as int]));
                    assert(forall|k: int| 0 <= k < n && k != j ==> self@[k] == before[k]);
                }
            } else {
                proof {
                    assert(self@[j as int].id != id as int);
                }
            }
            j = j + 1;
        }
        proof {
            assert(forall|k: int|
                0 <= k < n && old(self)@[k].id == id ==> self@[k] == spec_apply_update(
                    action,
                    old(self)@[k],
                ));
            assert forall|k: int| 0 <= k < n implies #[trigger] self@[k].id == old(self)@[k].id
                && 1 <= self@[k].id < self.next_id by {
                if old(self)@[k].id == id {
                    assert(self@[k] == spec_apply_update(action, old(self)@[k]));
                } else {
                    assert(self@[k] == old(self)@[k]);
                }
            }
            assert forall|i: int, k: int|
                0 <= i < self@.len() && 0 <= k < self@.len() && i != k implies self@[i].id
                != self@[k].id by {
                assert(self@[i].id == old(self)@[i].id);
                assert(self@[k].id == old(self)@[k].id);
            }
        }
    }


    /// A well-formed store has unique record ids.
    pub proof fn lemma_wf_unique(&self)
        requires
            self.wf(),
        ensures
            unique_ids(self@),
    {
    }

    /// The id the next created record will get.
    pub fn next_id(&self) -> (r: i32)
        ensures
            r == self.spec_next_id(),
    {
        self.next_id
    }

    /// The number of records, cancelled ones included.
    pub fn len(&self) -> (n: usize)
        ensures
            n == self@.len(),
    {
        self.scrims.len()
    }

    /// The record at a position, in store order.
    pub fn record_at(&self, i: usize) -> (r: &LookingForScrim)
        requires
            i < self@.len(),
        ensures
            r@ == self@[i as int],
    {
        &self.scrims[i]
    }

    /// Looks a record up by id.
    pub fn get_scrim(&self, id: i32) -> (r: Result<LookingForScrim, Error>)
        requires
            self.wf(),
        ensures
            r is Ok <==> has_id(self@, id as int),
            r matches Ok(rec) ==> rec@ == get_by_id(self@, id as int),
            r matches Err(e) ==> e is NotFound,
    {
        let n = self.scrims.len();
        let mut j: usize = 0;
        while j < n
            invariant
                n == self.scrims.len(),
                j <= n,
                self.wf(),
                forall|k: int| 0 <= k < j ==> self@[k].id != id,
            decreases n - j,
        {
            if self.scrims[j].id == id {
                let rec = self.scrims[j].clone();
                proof {
                    assert(self.scrims@[j as int].id == id);
                    assert(self@[j as int] == self.scrims@[j as int]@);
                    assert(self@[j as int].id == id as int);
                    assert(has_id(self@, id as int));
                    lemma_index_of_id(self@, id as int);
                }
                return Ok(rec);
            }
            j = j + 1;
        }
        assert(!has_id(self@, id as int));
        Err(Error::NotFound)
    }

    /// The creator's active (future, not cancelled) requests, in store order.
    pub fn get_future_scrims(&self, creator: i64, now: i64) -> (r: Vec<LookingForScrim>)
        requires
            self.wf(),
        ensures
            r@.map_values(|s: LookingForScrim| s@) =~= self@.filter(
                |v: ScrimView| active_for(v, creator as int, now as int),
            ),
    {
        let pred = Ghost(|v: ScrimView| active_for(v, creator as int, now as int));
        let n = self.scrims.len();
        let mut r: Vec<LookingForScrim> = Vec::new();
        let mut j: usize = 0;
        proof {
            assert(self@.take(0).filter(pred@) =~= Seq::<ScrimView>::empty()) by {
                reveal_with_fuel(Seq::filter, 2);
            }
        }
        while j < n
            invariant
                n == self.scrims.len(),
                j <= n,
                self.wf(),
                pred@ == (|v: ScrimView| active_for(v, creator as int, now as int)),
                r@.map_values(|s: LookingForScrim| s@) =~= self@.take(j as int).filter(pred@),
            decreases n - j,
        {
            let ghost prefix = self@.take(j as int);
            proof {
                assert(self@.take(j + 1).drop_last() =~= prefix);
                assert(self@.take(j + 1).last() == self@[j as int]);
                reveal(Seq::filter);
            }
            let rec = &self.scrims[j];
            if rec.creator_id == creator && rec.time >= now && !rec.cancelled {
                r.push(rec.clone());
            }
            j = j + 1;
        }
        proof {
            assert(self@.take(n as int) =~= self@);
        }
        r
    }
}

// ---------------------------------------------------------------------------
// Laws relating the store operations.
// ---------------------------------------------------------------------------

/// Proposing a match from `a` to `b` sets `a`'s proposal edge to `b` and
/// leaves `b`'s record — in particular `b`'s own proposal edge — unchanged.
pub proof fn lemma_propose_then_get(
    pre: Seq<ScrimView>,
    post: Seq<ScrimView>,
    a: int,
    b: int,
)
    requires
        unique_ids(pre),
        updates_record(pre, post, a, |v: ScrimView| with_match(v, Some(b))),
        has_id(pre, a),
        has_id(pre, b),
        a != b,
    ensures
        has_id(post, a),
        has_id(post, b),
        get_by_id(post, a) == with_match(get_by_id(pre, a), Some(b)),
        get_by_id(post, a).match_id == Some(b),
        get_by_id(post, b) == get_by_id(pre, b),
{
    assert(forall|j: int| 0 <= j < pre.len() ==> post[j].id == pre[j].id);
    lemma_index_of_id(pre, a);
    lemma_index_of_id(pre, b);
    let ia = index_of_id(pre, a);
    let ib = index_of_id(pre, b);
    assert(post[ia].id == a);
    assert(post[ib].id == b);
    assert(unique_ids(post));
    lemma_index_of_id(post, a);
    lemma_index_of_id(post, b);
    assert(index_of_id(post, a) == ia);
    assert(index_of_id(post, b) == ib);
}

/// Revoking a match on `a` clears `a`'s proposal edge and touches nothing
/// else.
pub proof fn lemma_revoke_then_get(pre: Seq<ScrimView>, post: Seq<ScrimView>, a: int)
    requires
        unique_ids(pre),
        updates_record(pre, post, a, |v: ScrimView| with_match(v, None)),
        has_id(pre, a),
    ensures
        has_id(post, a),
        get_by_id(post, a) == with_match(get_by_id(pre, a), None),
        get_by_id(post, a).match_id is None,
        forall|other: int|
            has_id(pre, other) && other != a ==> has_id(post, other) && get_by_id(post, other)
                == get_by_id(pre, other),
{
    assert(forall|j: int| 0 <= j < pre.len() ==> post[j].id == pre[j].id);
    lemma_index_of_id(pre, a);
    assert(unique_ids(post));
    lemma_index_of_id(post, a);
    assert(index_of_id(post, a) == index_of_id(pre, a));
    assert forall|other: int| has_id(pre, other) && other != a implies has_id(post, other)
        && get_by_id(post, other) == get_by_id(pre, other) by {
        lemma_index_of_id(pre, other);
        lemma_index_of_id(post, other);
        assert(index_of_id(post, other) == index_of_id(pre, other));
    }
}

/// Cancelling a request and then restoring it is a round trip: the record
/// comes back identical with `cancelled` false, so it shows in the active
/// listing again whenever it is the creator's and its time has not passed.
pub proof fn lemma_cancel_restore_round_trip(
    pre: Seq<ScrimView>,
    mid: Seq<ScrimView>,
    post: Seq<ScrimView>,
    id: int,
    creator: int,
    now: int,
)
    requires
        unique_ids(pre),
        updates_record(pre, mid, id, |v: ScrimView| with_cancelled(v, true)),
        updates_record(mid, post, id, |v: ScrimView| with_cancelled(v, false)),
        has_id(pre, id),
    ensures
        has_id(post, id),
        get_by_id(post, id) == with_cancelled(get_by_id(pre, id), false),
        !get_by_id(post, id).cancelled,
        get_by_id(pre, id).creator_id == creator && get_by_id(pre, id).time >= now ==> post.filter(
            |v: ScrimView| active_for(v, creator, now),
        ).contains(get_by_id(post, id)),
{
    assert(forall|j: int| 0 <= j < pre.len() ==> mid[j].id == pre[j].id);
    assert(forall|j: int| 0 <= j < mid.len() ==> post[j].id == mid[j].id);
    lemma_index_of_id(pre, id);
    let i = index_of_id(pre, id);
    assert(unique_ids(post));
    lemma_index_of_id(post, id);
    assert(index_of_id(post, id) == i);
    assert(mid[i] == with_cancelled(pre[i], true));
    assert(post[i] == with_cancelled(mid[i], false));
    assert(post[i] == with_cancelled(pre[i], false));
    if get_by_id(pre, id).creator_id == creator && get_by_id(pre, id).time >= now {
        let pred = |v: ScrimView| active_for(v, creator, now);
        assert(pred(post[i]));
        post.lemma_filter_contains(pred, i);
    }
}

// ---------------------------------------------------------------------------
// The user preference store.
// ---------------------------------------------------------------------------

/// Whether some entry carries this user id.
pub open spec fn has_user(s: Seq<(int, Seq<char>)>, user: int) -> bool {
    exists|i: int| 0 <= i < s.len() && s[i].0 == user
}

/// One row per user: the user's timezone name. Written idempotently
/// (an upsert), read whenever a time is displayed or parsed for the user.
pub struct UserStore {
    users: Vec<(i64, String)>,
}

impl View for UserStore {
    type V = Seq<(int, Seq<char>)>;

    closed spec fn view(&self) -> Seq<(int, Seq<char>)> {
        self.users@.map_values(|p: (i64, String)| (p.0 as int, p.1@))
    }
}

impl UserStore {
    /// Well-formedness: one entry per user.
    pub closed spec fn wf(&self) -> bool {
        forall|i: int, j: int|
            0 <= i < self@.len() && 0 <= j < self@.len() && i != j ==> self@[i].0 != self@[j].0
    }

    pub fn new() -> (r: UserStore)
        ensures
            r.wf(),
            r@ =~= Seq::<(int, Seq<char>)>::empty(),
    {
        UserStore { users: Vec::new() }
    }

    /// Stores the user's timezone, overwriting any earlier choice.
    pub fn set_timezone(&mut self, user: i64, zone: String)
        requires
            old(self).wf(),
        ensures
            final(self).wf(),
            has_user(final(self)@, user as int),
            forall|j: int|
                0 <= j < final(self)@.len() && final(self)@[j].0 == user ==> final(self)@[j].1
                    == zone@,
            forall|j: int|
                0 <= j < old(self)@.len() && old(self)@[j].0 != user ==> final(self)@[j] == old(
                    self,
                )@[j],
            has_user(old(self)@, user as int) ==> final(self)@.len() == old(self)@.len(),
            !has_user(old(self)@, user as int) ==> final(self)@ =~= old(self)@.push(
                (user as int, zone@),
            ),
    {
        let n = self.users.len();
        let mut j: usize = 0;
        while j < n
            invariant
                n == self.users.len(),
                j <= n,
                self.wf(),
                self == old(self),
                forall|k: int| 0 <= k < j ==> self@[k].0 != user,
            decreases n - j,
        {
            if self.users[j].0 == user {
                let ghost before = self@;
                proof {
                    assert(before[j as int] == (self.users@[j as int].0 as int, self.users@[j as int].1@));
                }
                self.users.set(j, (user, zone));
                proof {
                    assert(self@[j as int] == (user as int, zone@));
                    assert(forall|k: int| 0 <= k < before.len() && k != j ==> self@[k] == before[k]);
                    assert(has_user(self@, user as int));
                    assert forall|k: int|
                        0 <= k < self@.len() && self@[k].0 == user as int implies self@[k].1
                        == zone@ by {
                        if k != j {
                            assert(self@[k] == before[k]);
                            assert(before[k].0 != before[j as int].0);
                        }
                    }
                    assert forall|a: int, b: int|
                        0 <= a < self@.len() && 0 <= b < self@.len() && a != b implies self@[a].0
                        != self@[b].0 by {
                        if a != j {
                            assert(self@[a] == before[a]);
                        }
                        if b != j {
                            assert(self@[b] == before[b]);
                        }
                        assert(before[j as int].0 == user as int);
                    }
                }
                return ;
            }
            j = j + 1;
        }
        assert(!has_user(self@, user as int));
        let ghost before = self@;
        self.users.push((user, zone));
        proof {
            assert(self@ =~= before.push((user as int, zone@)));
            assert(self@[self@.len() - 1] == (user as int, zone@));
            assert(has_user(self@, user as int));
            assert forall|a: int, b: int|
                0 <= a < self@.len() && 0 <= b < self@.len() && a != b implies self@[a].0
                != self@[b].0 by {
                if a < before.len() && b < before.len() {
                    assert(self@[a] == before[a]);
                    assert(self@[b] == before[b]);
                }
            }
        }
    }

    /// The user's stored timezone name; a missing-timezone error when the
    /// user never set one.
    pub fn get_timezone(&self, user: i64) -> (r: Result<String, Error>)
        requires
            self.wf(),
        ensures
            r is Ok <==> has_user(self@, user as int),
            r matches Ok(z) ==> forall|j: int|
                0 <= j < self@.len() && self@[j].0 == user ==> z@ == self@[j].1,
            r matches Err(e) ==> e is MissingTimezone,
    {
        let n = self.users.len();
        let mut j: usize = 0;
        while j < n
            invariant
                n == self.users.len(),
                j <= n,
                self.wf(),
                forall|k: int| 0 <= k < j ==> self@[k].0 != user,
            decreases n - j,
        {
            if self.users[j].0 == user {
                proof {
                    assert(self@[j as int] == (self.users@[j as int].0 as int, self.users@[j as int].1@));
                    assert(has_user(self@, user as int));
                }
                let z = self.users[j].1.clone();
                proof {
                    assert forall|k: int|
                        0 <= k < self@.len() && self@[k].0 == user as int implies z@
                        == self@[k].1 by {
                        if k != j {
                            assert(self@[k].0 != self@[j as int].0);
                        }
                    }
                }
                return Ok(z);
            }
            j = j + 1;
        }
        assert(!has_user(self@, user as int));
        Err(Error::MissingTimezone)
    }
}

} // verus!
