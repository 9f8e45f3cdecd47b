use vstd::prelude::*;

use crate::scrim::{LookingForScrim, ScrimView};
use crate::store::ScrimStore;

verus! {

broadcast use
    vstd::seq_lib::group_to_multiset_ensures,
    vstd::multiset::group_multiset_axioms,
;

// The score weighs one rank point of midpoint distance at 1, an hour of
// time distance at 500, a region mismatch at 500 and a platform mismatch
// at 200, and subtracts a bonus of 10,000,000 for a candidate that has
// already proposed to the reference request. To keep the per-second time
// weight (500/3600) integral, every weight is expressed here in units of
// 1/3600: the ordering of scores is unchanged under that positive scaling.

/// Score per rank point of midpoint distance.
pub const RANK_WEIGHT: i128 = 3600;

/// Score per second of time distance.
pub const TIME_WEIGHT: i128 = 500;

/// Score for a region mismatch.
pub const REGION_WEIGHT: i128 = 1800000;

/// Score for a platform mismatch.
pub const PLATFORM_WEIGHT: i128 = 720000;

/// Subtracted when the candidate has already proposed to the reference
/// request, so that reciprocal interest surfaces before fresh candidates.
pub const RECIPROCAL_BONUS: i128 = 36000000000;

/// Absolute value.
pub open spec fn spec_abs(x: int) -> int {
    if x < 0 {
        -x
    } else {
        x
    }
}

/// A candidate the match finder may return for `r`: someone else's request,
/// not yet past, not soft-deleted, and either unmatched or already proposed
/// to `r` itself.
pub open spec fn eligible(c: ScrimView, r: ScrimView, now: int) -> bool {
    &&& c.creator_id != r.creator_id
    &&& c.time >= now
    &&& !c.cancelled
    &&& (c.match_id is None || c.match_id == Some(r.id))
}

/// The weighted difference score of a candidate against the reference
/// request: lower is a better match.
pub open spec fn difference(c: ScrimView, r: ScrimView) -> int {
    spec_abs(c.midpoint() - r.midpoint()) * RANK_WEIGHT + spec_abs(c.time - r.time) * TIME_WEIGHT
        + (if c.region != r.region {
        REGION_WEIGHT as int
    } else {
        0
    }) + (if c.platform != r.platform {
        PLATFORM_WEIGHT as int
    } else {
        0
    }) - (if c.match_id == Some(r.id) {
        RECIPROCAL_BONUS as int
    } else {
        0
    })
}

/// Computes the difference score of a candidate against a reference request.
pub fn score(c: &LookingForScrim, reference: &LookingForScrim) -> (s: i128)
    ensures
        s == difference(c@, reference@),
{
    let cm = c.range.midpoint() as i128;
    let rm = reference.range.midpoint() as i128;
    let rank_gap = if cm >= rm {
        cm - rm
    } else {
        rm - cm
    };
    let ct = c.time as i128;
    let rt = reference.time as i128;
    let time_gap = if ct >= rt {
        ct - rt
    } else {
        rt - ct
    };
    let mut s: i128 = rank_gap * RANK_WEIGHT + time_gap * TIME_WEIGHT;
    if c.region != reference.region {
        s = s + REGION_WEIGHT;
    }
    if c.platform != reference.platform {
        s = s + PLATFORM_WEIGHT;
    }
    let reciprocal = match c.match_id {
        Some(m) => m == reference.id,
        None => false,
    };
    if reciprocal {
        s = s - RECIPROCAL_BONUS;
    }
    s
}

/// Two active requests by different creators with the same region, platform,
/// rank midpoint and time — and no standing proposal between them — differ
/// by a score of exactly zero.
pub proof fn lemma_identical_attributes_score_zero(c: ScrimView, r: ScrimView)
    requires
        c.midpoint() == r.midpoint(),
        c.time == r.time,
        c.region == r.region,
        c.platform == r.platform,
        c.match_id is None,
    ensures
        difference(c, r) == 0,
{
}

/// A non-reciprocal candidate never scores below zero.
pub proof fn lemma_fresh_candidate_nonnegative(c: ScrimView, r: ScrimView)
    requires
        c.match_id != Some(r.id),
    ensures
        difference(c, r) >= 0,
{
}

/// How far apart rank midpoints may lie while the reciprocal bonus still
/// dominates the score.
pub const RECIPROCAL_RANK_MARGIN: i128 = 1000000;

/// How many seconds apart times may lie while the reciprocal bonus still
/// dominates the score.
pub const RECIPROCAL_TIME_MARGIN: i128 = 10000000;

/// A candidate whose proposal edge already points at the reference request
/// sorts before any unmatched candidate, whatever the rank, time, region and
/// platform differences: the reciprocal bonus dominates every other term,
/// as long as the reciprocal candidate's rank and time gaps stay within the
/// stated (generous) margins.
pub proof fn lemma_reciprocal_sorts_first(c1: ScrimView, c2: ScrimView, r: ScrimView)
    requires
        c1.match_id == Some(r.id),
        c2.match_id != Some(r.id),
        spec_abs(c1.midpoint() - r.midpoint()) <= RECIPROCAL_RANK_MARGIN,
        spec_abs(c1.time - r.time) <= RECIPROCAL_TIME_MARGIN,
    ensures
        difference(c1, r) < difference(c2, r),
{
    lemma_fresh_candidate_nonnegative(c2, r);
    assert(spec_abs(c1.midpoint() - r.midpoint()) * RANK_WEIGHT <= RECIPROCAL_RANK_MARGIN
        * RANK_WEIGHT) by (nonlinear_arith)
        requires
            spec_abs(c1.midpoint() - r.midpoint()) <= RECIPROCAL_RANK_MARGIN,
            spec_abs(c1.midpoint() - r.midpoint()) >= 0,
    ;
    assert(spec_abs(c1.time - r.time) * TIME_WEIGHT <= RECIPROCAL_TIME_MARGIN * TIME_WEIGHT)
        by (nonlinear_arith)
        requires
            spec_abs(c1.time - r.time) <= RECIPROCAL_TIME_MARGIN,
            spec_abs(c1.time - r.time) >= 0,
    ;
}

/// The plain value of a scored list: each pair as its score and record view.
pub open spec fn mapped(s: Seq<(i128, LookingForScrim)>) -> Seq<(int, ScrimView)> {
    s.map_values(|p: (i128, LookingForScrim)| (p.0 as int, p.1@))
}

/// The eligible candidates of a table for `r`, in table order, each paired
/// with its score.
pub open spec fn eligible_pairs(table: Seq<ScrimView>, r: ScrimView, now: int) -> Seq<
    (int, ScrimView),
> {
    table.filter(|c: ScrimView| eligible(c, r, now)).map_values(
        |c: ScrimView| (difference(c, r), c),
    )
}

/// What the match finder promises of its result `ms` against the table:
/// at most five pairs, all eligible and correctly scored, drawn from the
/// eligible candidates, in ascending score order, and no candidate is left
/// out unless five better-or-equal ones were returned.
pub open spec fn match_list_ok(
    ms: Seq<(int, ScrimView)>,
    table: Seq<ScrimView>,
    r: ScrimView,
    now: int,
) -> bool {
    let pairs = eligible_pairs(table, r, now);
    &&& ms.len() == (if pairs.len() < 5 {
        pairs.len()
    } else {
        5
    })
    &&& forall|i: int|
        0 <= i < ms.len() ==> eligible((#[trigger] ms[i]).1, r, now) && ms[i].0 == difference(
            ms[i].1,
            r,
        )
    &&& forall|i: int, j: int| 0 <= i < j < ms.len() ==> ms[i].0 <= ms[j].0
    &&& ms.to_multiset().subset_of(pairs.to_multiset())
    &&& forall|p: (int, ScrimView)|
        pairs.to_multiset().count(p) > ms.to_multiset().count(p) ==> ms.len() == 5 && p.0 >= ms[4].0
}

/// The match finder never returns a request whose proposal edge is set to
/// anything but the reference request's id.
pub proof fn lemma_no_foreign_proposals(
    ms: Seq<(int, ScrimView)>,
    table: Seq<ScrimView>,
    r: ScrimView,
    now: int,
)
    requires
        match_list_ok(ms, table, r, now),
    ensures
        forall|i: int|
            0 <= i < ms.len() ==> ((#[trigger] ms[i]).1.match_id is None || ms[i].1.match_id
                == Some(r.id)),
{
}

/// The match finder never returns a cancelled or past-dated request, nor a
/// request from the reference's own creator.
pub proof fn lemma_only_active_strangers(
    ms: Seq<(int, ScrimView)>,
    table: Seq<ScrimView>,
    r: ScrimView,
    now: int,
)
    requires
        match_list_ok(ms, table, r, now),
    ensures
        forall|i: int|
            0 <= i < ms.len() ==> (!(#[trigger] ms[i]).1.cancelled && ms[i].1.time >= now
                && ms[i].1.creator_id != r.creator_id),
{
}

/// In a returned candidate list, a request that has already proposed to the
/// reference sorts strictly before any unmatched candidate, whatever their
/// rank, time, region and platform differences within the stated margins:
/// the reciprocal bonus dominates every other score term.
pub proof fn lemma_reciprocal_listed_first(
    ms: Seq<(int, ScrimView)>,
    table: Seq<ScrimView>,
    r: ScrimView,
    now: int,
    i: int,
    j: int,
)
    requires
        match_list_ok(ms, table, r, now),
        0 <= i < ms.len(),
        0 <= j < ms.len(),
        ms[i].1.match_id == Some(r.id),
        ms[j].1.match_id is None,
        spec_abs(ms[i].1.midpoint() - r.midpoint()) <= RECIPROCAL_RANK_MARGIN,
        spec_abs(ms[i].1.time - r.time) <= RECIPROCAL_TIME_MARGIN,
    ensures
        i < j,
{
    lemma_reciprocal_sorts_first(ms[i].1, ms[j].1, r);
    assert(ms[i].0 < ms[j].0);
    if i > j {
        assert(ms[j].0 <= ms[i].0);
    }
}

/// Collects every eligible candidate with its score, in table order.
fn collect_scored(store: &ScrimStore, reference: &LookingForScrim, now: i64) -> (r: Vec<
    (i128, LookingForScrim),
>)
    ensures
        mapped(r@) =~= eligible_pairs(store@, reference@, now as int),
{
    let ghost pred = |c: ScrimView| eligible(c, reference@, now as int);
    let n = store.len();
    let mut scored: Vec<(i128, LookingForScrim)> = Vec::new();
    let mut j: usize = 0;
    proof {
        assert(store@.take(0).filter(pred) =~= Seq::<ScrimView>::empty()) by {
            reveal_with_fuel(Seq::filter, 2);
        }
    }
    while j < n
        invariant
            n == store@.len(),
            j <= n,
            pred == (|c: ScrimView| eligible(c, reference@, now as int)),
            scored@.map_values(|p: (i128, LookingForScrim)| p.1@) =~= store@.take(j as int).filter(
                pred,
            ),
            forall|i: int|
                0 <= i < scored@.len() ==> (#[trigger] scored@[i]).0 == difference(
                    scored@[i].1@,
                    reference@,
                ),
        decreases n - j,
    {
        let ghost prefix = store@.take(j as int);
        proof {
            assert(store@.take(j + 1).drop_last() =~= prefix);
            assert(store@.take(j + 1).last() == store@[j as int]);
            reveal(Seq::filter);
        }
        let rec = store.record_at(j);
        let ok = rec.creator_id != reference.creator_id && rec.time >= now && !rec.cancelled
            && (match rec.match_id {
            None => true,
            Some(m) => m == reference.id,
        });
        if ok {
            let sc = score(rec, reference);
            let ghost before = scored@;
            scored.push((sc, rec.clone()));
            proof {
                assert(scored@.map_values(|p: (i128, LookingForScrim)| p.1@) =~= before.map_values(
                    |p: (i128, LookingForScrim)| p.1@,
                ).push(rec@));
            }
        }
        j = j + 1;
    }
    proof {
        assert(store@.take(n as int) =~= store@);
        let fl = store@.filter(pred);
        let views = scored@.map_values(|p: (i128, LookingForScrim)| p.1@);
        assert forall|i: int| 0 <= i < scored@.len() implies mapped(scored@)[i] == eligible_pairs(
            store@,
            reference@,
            now as int,
        )[i] by {
            assert(views[i] == fl[i]);
            assert(mapped(scored@)[i].1 == scored@[i].1@);
            store@.lemma_filter_pred(pred, i);
        }
        assert(mapped(scored@).len() == eligible_pairs(store@, reference@, now as int).len());
        assert(mapped(scored@) =~= eligible_pairs(store@, reference@, now as int));
    }
    scored
}

/// Sorts a scored list by ascending score; the result is a permutation of
/// the input.
fn sort_by_score(v: Vec<(i128, LookingForScrim)>) -> (s: Vec<(i128, LookingForScrim)>)
    ensures
        s@.len() == v@.len(),
        mapped(s@).to_multiset() =~= mapped(v@).to_multiset(),
        forall|a: int, b: int| 0 <= a < b < s@.len() ==> mapped(s@)[a].0 <= mapped(s@)[b].0,
{
    let ghost init = mapped(v@);
    let mut rest = v;
    let mut out: Vec<(i128, LookingForScrim)> = Vec::new();
    proof {
        assert(mapped(out@) =~= Seq::<(int, ScrimView)>::empty());
        assert(mapped(out@).to_multiset().add(mapped(rest@).to_multiset()) =~= init.to_multiset());
    }
    while rest.len() > 0
        invariant
            out@.len() + rest@.len() == init.len(),
            mapped(out@).to_multiset().add(mapped(rest@).to_multiset()) =~= init.to_multiset(),
            forall|a: int, b: int| 0 <= a < b < out@.len() ==> mapped(out@)[a].0 <= mapped(
                out@,
            )[b].0,
            forall|a: int, b: int|
                0 <= a < out@.len() && 0 <= b < rest@.len() ==> mapped(out@)[a].0 <= mapped(
                    rest@,
                )[b].0,
        decreases rest@.len(),
    {
        let mut m: usize = 0;
        let mut i: usize = 1;
        while i < rest.len()
            invariant
                rest@.len() > 0,
                m < i,
                i <= rest@.len(),
                forall|k: int| 0 <= k < i ==> rest@[m as int].0 <= (#[trigger] rest@[k]).0,
            decreases rest@.len() - i,
        {
            if rest[i].0 < rest[m].0 {
                m = i;
            }
            i = i + 1;
        }
        let ghost rest_before = rest@;
        let ghost out_before = out@;
        let x = rest.remove(m);
        out.push(x);
        proof {
            let xm = (x.0 as int, x.1@);
            assert(mapped(rest_before)[m as int] == xm);
            assert(mapped(rest@) =~= mapped(rest_before).remove(m as int));
            assert(mapped(out@) =~= mapped(out_before).push(xm));
            assert(mapped(rest@).to_multiset() =~= mapped(rest_before).to_multiset().remove(xm));
            assert(mapped(out@).to_multiset() =~= mapped(out_before).to_multiset().insert(xm));
            assert(mapped(out@).to_multiset().add(mapped(rest@).to_multiset())
                =~= init.to_multiset());
            assert forall|a: int, b: int|
                0 <= a < out@.len() && 0 <= b < rest@.len() implies mapped(out@)[a].0 <= mapped(
                rest@,
            )[b].0 by {
                if a < out_before.len() {
                    assert(mapped(out@)[a] == mapped(out_before)[a]);
                } else {
                    assert(mapped(out@)[a] == xm);
                }
                if b < m {
                    assert(mapped(rest@)[b] == mapped(rest_before)[b]);
                } else {
                    assert(mapped(rest@)[b] == mapped(rest_before)[b + 1]);
                }
            }
        }
    }
    proof {
        assert(mapped(rest@) =~= Seq::<(int, ScrimView)>::empty());
        assert(mapped(out@).to_multiset().add(mapped(rest@).to_multiset()) =~= init.to_multiset());
        assert(mapped(out@).to_multiset() =~= init.to_multiset());
    }
    out
}

/// Ranks the best up to five eligible counterpart requests for a reference
/// request, by ascending difference score: reciprocal candidates first
/// (through the bonus), then the closest in rank, time, region and platform.
pub fn find_matches(store: &ScrimStore, reference: &LookingForScrim, now: i64) -> (r: Vec<
    (i128, LookingForScrim),
>)
    ensures
        match_list_ok(mapped(r@), store@, reference@, now as int),
{
    let ghost pairs = eligible_pairs(store@, reference@, now as int);
    let scored = collect_scored(store, reference, now);
    let mut sorted = sort_by_score(scored);
    let ghost full = mapped(sorted@);
    proof {
        assert(full.to_multiset() =~= pairs.to_multiset());
        assert(full.len() == pairs.len());
        lemma_pointwise_from_multiset(full, pairs, reference@, now as int);
    }
    if sorted.len() > 5 {
        sorted.truncate(5);
    }
    proof {
        let ms = mapped(sorted@);
        let k = ms.len() as int;
        assert(ms =~= full.take(k));
        assert(full =~= full.take(k) + full.skip(k));
        vstd::seq_lib::lemma_multiset_commutative(full.take(k), full.skip(k));
        assert forall|p: (int, ScrimView)|
            pairs.to_multiset().count(p) > ms.to_multiset().count(p) implies ms.len() == 5 && p.0
            >= ms[4].0 by {
            assert(full.to_multiset().count(p) == ms.to_multiset().count(p) + full.skip(
                k,
            ).to_multiset().count(p));
            assert(full.skip(k).to_multiset().count(p) > 0);
            assert(full.skip(k).contains(p));
            let i = choose|i: int| 0 <= i < full.skip(k).len() && full.skip(k)[i] == p;
            assert(full[k + i] == p);
            assert(k == 5);
            assert(full[k - 1].0 <= full[k + i].0);
            assert(ms[4] == full[4]);
        }
    }
    sorted
}

/// Transfers the pointwise facts of the eligible pairs to any permutation
/// of them.
proof fn lemma_pointwise_from_multiset(
    ms: Seq<(int, ScrimView)>,
    pairs: Seq<(int, ScrimView)>,
    r: ScrimView,
    now: int,
)
    requires
        ms.to_multiset() == pairs.to_multiset(),
        forall|i: int|
            0 <= i < pairs.len() ==> eligible((#[trigger] pairs[i]).1, r, now) && pairs[i].0
                == difference(pairs[i].1, r),
    ensures
        forall|i: int|
            0 <= i < ms.len() ==> eligible((#[trigger] ms[i]).1, r, now) && ms[i].0 == difference(
                ms[i].1,
                r,
            ),
{
    assert forall|i: int|
        0 <= i < ms.len() implies eligible((#[trigger] ms[i]).1, r, now) && ms[i].0 == difference(
        ms[i].1,
        r,
    ) by {
        assert(ms.contains(ms[i]));
        assert(ms.to_multiset().count(ms[i]) > 0);
        assert(pairs.to_multiset().count(ms[i]) > 0);
        assert(pairs.contains(ms[i]));
        let j = choose|j: int| 0 <= j < pairs.len() && pairs[j] == ms[i];
        assert(eligible(pairs[j].1, r, now));
    }
}

} // verus!
