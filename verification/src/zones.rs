use vstd::prelude::*;

use crate::strutil::{spec_trim, trimmed_bounds};
use crate::timeapi::{fuzzy_score, skim_score_of};

verus! {

broadcast use
    vstd::seq_lib::group_to_multiset_ensures,
    vstd::multiset::group_multiset_axioms,
;

/// The fuzzy score of a zone against the trimmed pattern, with non-matches
/// sunk to the bottom.
pub open spec fn zone_rank(z: Seq<char>, p: Seq<char>) -> int {
    match skim_score_of(z, p) {
        Some(v) => v as int,
        None => i64::MIN as int,
    }
}

/// The names of `zones` that fuzzy-match the trimmed pattern at all.
pub open spec fn matching_zones(zones: Seq<Seq<char>>, p: Seq<char>) -> Seq<Seq<char>> {
    zones.filter(|z: Seq<char>| skim_score_of(z, p) is Some)
}

/// Offers completions for a partial timezone name: every zone the skim
/// matcher scores against the trimmed input, best score first.
pub fn complete_zone(zones: &Vec<String>, partial: &str) -> (r: Vec<String>)
    ensures
        ({
            let p = spec_trim(partial@);
            let matched = matching_zones(zones@.map_values(|z: String| z@), p);
            &&& r@.len() == matched.len()
            &&& forall|i: int|
                0 <= i < r@.len() ==> skim_score_of((#[trigger] r@[i])@, p) is Some
                    && matched.contains(r@[i]@)
            &&& forall|z: Seq<char>| matched.contains(z) ==> exists|i: int|
                0 <= i < r@.len() && (#[trigger] r@[i])@ == z
            &&& forall|i: int, j: int|
                0 <= i < j < r@.len() ==> zone_rank(r@[i]@, p) >= zone_rank(r@[j]@, p)
        }),
{
    let (a, b) = trimmed_bounds(partial);
    let p = partial.substring_char(a, b);
    proof {
        assert(p@ == spec_trim(partial@));
    }
    let ghost pv = p@;
    let ghost pred = |z: Seq<char>| skim_score_of(z, pv) is Some;
    let n = zones.len();
    let mut picked: Vec<(i64, String)> = Vec::new();
    let mut j: usize = 0;
    proof {
        assert(zones@.map_values(|z: String| z@).take(0).filter(pred) =~= Seq::<Seq<char>>::empty())
            by {
            reveal_with_fuel(Seq::filter, 2);
        }
    }
    while j < n
        invariant
            n == zones@.len(),
            j <= n,
            pv == spec_trim(partial@),
            p@ == pv,
            pred == (|z: Seq<char>| skim_score_of(z, pv) is Some),
            picked@.map_values(|q: (i64, String)| q.1@) =~= zones@.map_values(
                |z: String| z@,
            ).take(j as int).filter(pred),
            forall|i: int|
                0 <= i < picked@.len() ==> skim_score_of((#[trigger] picked@[i]).1@, pv) == Some(
                    picked@[i].0,
                ),
        decreases n - j,
    {
        let ghost all = zones@.map_values(|z: String| z@);
        proof {
            assert(all.take(j + 1).drop_last() =~= all.take(j as int));
            assert(all.take(j + 1).last() == all[j as int]);
            reveal(Seq::filter);
        }
        let z = &zones[j];
        match fuzzy_score(z.as_str(), p) {
            Some(sc) => {
                let ghost before = picked@;
                picked.push((sc, z.clone()));
                proof {
                    assert(picked@.map_values(|q: (i64, String)| q.1@) =~= before.map_values(
                        |q: (i64, String)| q.1@,
                    ).push(z@));
                }
            },
            None => {},
        }
        j = j + 1;
    }
    proof {
        assert(zones@.map_values(|z: String| z@).take(n as int) =~= zones@.map_values(
            |z: String| z@,
        ));
    }
    // Extract the best remaining score repeatedly.
    let ghost matched = matching_zones(zones@.map_values(|z: String| z@), pv);
    let mut rest = picked;
    let mut out: Vec<String> = Vec::new();
    let ghost init = rest@.map_values(|q: (i64, String)| q.1@);
    proof {
        assert(out@.map_values(|z: String| z@) =~= Seq::<Seq<char>>::empty());
        assert(out@.map_values(|z: String| z@).to_multiset().add(
            rest@.map_values(|q: (i64, String)| q.1@).to_multiset(),
        ) =~= init.to_multiset());
    }
    while rest.len() > 0
        invariant
            pv == spec_trim(partial@),
            init == matched,
            out@.len() + rest@.len() == init.len(),
            out@.map_values(|z: String| z@).to_multiset().add(
                rest@.map_values(|q: (i64, String)| q.1@).to_multiset(),
            ) =~= init.to_multiset(),
            forall|i: int|
                0 <= i < rest@.len() ==> skim_score_of((#[trigger] rest@[i]).1@, pv) == Some(
                    rest@[i].0,
                ),
            forall|i: int|
                0 <= i < out@.len() ==> skim_score_of((#[trigger] out@[i])@, pv) is Some,
            forall|i: int, j2: int|
                0 <= i < j2 < out@.len() ==> zone_rank((#[trigger] out@[i])@, pv) >= zone_rank(
                    (#[trigger] out@[j2])@,
                    pv,
                ),
            forall|i: int, j2: int|
                0 <= i < out@.len() && 0 <= j2 < rest@.len() ==> zone_rank(
                    (#[trigger] out@[i])@,
                    pv,
                ) >= zone_rank((#[trigger] rest@[j2]).1@, pv),
        decreases rest@.len(),
    {
        let mut m: usize = 0;
        let mut i: usize = 1;
        while i < rest.len()
            invariant
                rest@.len() > 0,
                m < i,
                i <= rest@.len(),
                forall|k: int| 0 <= k < i ==> rest@[m as int].0 >= (#[trigger] rest@[k]).0,
            decreases rest@.len() - i,
        {
            if rest[i].0 > rest[m].0 {
                m = i;
            }
            i = i + 1;
        }
        let ghost rest_before = rest@;
        let ghost out_before = out@;
        let x = rest.remove(m);
        out.push(x.1);
        proof {
            let xm = x.1@;
            assert(rest_before.map_values(|q: (i64, String)| q.1@)[m as int] == xm);
            assert(rest@.map_values(|q: (i64, String)| q.1@) =~= rest_before.map_values(
                |q: (i64, String)| q.1@,
            ).remove(m as int));
            assert(out@.map_values(|z: String| z@) =~= out_before.map_values(
                |z: String| z@,
            ).push(xm));
            assert(rest@.map_values(|q: (i64, String)| q.1@).to_multiset()
                =~= rest_before.map_values(|q: (i64, String)| q.1@).to_multiset().remove(xm));
            assert(out@.map_values(|z: String| z@).to_multiset() =~= out_before.map_values(
                |z: String| z@,
            ).to_multiset().insert(xm));
            assert(out@.map_values(|z: String| z@).to_multiset().add(
                rest@.map_values(|q: (i64, String)| q.1@).to_multiset(),
            ) =~= init.to_multiset());
            assert(skim_score_of(xm, pv) == Some(x.0));
            assert forall|i2: int, j2: int|
                0 <= i2 < out@.len() && 0 <= j2 < rest@.len() implies zone_rank(
                (#[trigger] out@[i2])@,
                pv,
            ) >= zone_rank((#[trigger] rest@[j2]).1@, pv) by {
                if i2 < out_before.len() {
                    assert(out@[i2] == out_before[i2]);
                } else {
                    assert(out@[i2]@ == xm);
                }
                if j2 < m {
                    assert(rest@[j2] == rest_before[j2]);
                } else {
                    assert(rest@[j2] == rest_before[j2 + 1]);
                }
            }
        }
    }
    proof {
        assert(rest@.map_values(|q: (i64, String)| q.1@) =~= Seq::<Seq<char>>::empty());
        let outv = out@.map_values(|z: String| z@);
        assert(outv.to_multiset() =~= matched.to_multiset());
        assert forall|i: int| 0 <= i < out@.len() implies matched.contains(out@[i]@) by {
            assert(outv[i] == out@[i]@);
            assert(outv.contains(outv[i]));
            assert(outv.to_multiset().count(outv[i]) > 0);
            assert(matched.to_multiset().count(outv[i]) > 0);
        }
        assert forall|z: Seq<char>| matched.contains(z) implies exists|i: int|
            0 <= i < out@.len() && (#[trigger] out@[i])@ == z by {
            assert(matched.to_multiset().count(z) > 0);
            assert(outv.to_multiset().count(z) > 0);
            assert(outv.contains(z));
            let i = choose|i: int| 0 <= i < outv.len() && outv[i] == z;
            assert(out@[i]@ == z);
        }
    }
    out
}

} // verus!
