use vstd::prelude::*;

use crate::error::Error;
use crate::scrim::RankRange;
use crate::strutil::{digit_val, digits_val, lemma_digits_val_extend, lemma_digits_val_nonneg,
    spec_is_digit, spec_trim, trim_leading, trim_trailing, trimmed_bounds};

verus! {

// ---------------------------------------------------------------------------
// The rank grammar. A rank is written in thousands of points with an
// optional fraction and an optional `k` suffix: `4.3k` is 4300 points. A
// range is two ranks joined by `-`. Anything else is rejected with a
// descriptive user-input error.
// ---------------------------------------------------------------------------

/// The input without its trailing scale suffix (every trailing `k`).
pub open spec fn strip_ks(s: Seq<char>) -> Seq<char>
    decreases s.len(),
{
    if s.len() > 0 && s.last() == 'k' {
        strip_ks(s.drop_last())
    } else {
        s
    }
}

/// Every character is a decimal digit.
pub open spec fn all_digits(s: Seq<char>) -> bool {
    forall|i: int| 0 <= i < s.len() ==> spec_is_digit(#[trigger] s[i])
}

/// The stripped input is digits with one decimal point at `i` (and at least
/// one digit somewhere).
pub open spec fn valid_with_dot_at(t: Seq<char>, i: int) -> bool {
    &&& 0 <= i < t.len()
    &&& t[i] == '.'
    &&& t.len() > 1
    &&& forall|j: int| 0 <= j < t.len() && j != i ==> spec_is_digit(#[trigger] t[j])
}

/// The digit of the fraction at a position, zero once the fraction ends.
pub open spec fn fraction_digit(f: Seq<char>, i: int) -> int {
    if i < f.len() {
        digit_val(f[i])
    } else {
        0
    }
}

/// The value of the fraction in points: the first three fractional digits,
/// zero-padded; further digits are beyond point resolution and are dropped.
pub open spec fn fraction_points(f: Seq<char>) -> int {
    100 * fraction_digit(f, 0) + 10 * fraction_digit(f, 1) + fraction_digit(f, 2)
}

/// The value in points of a rank written like `4.3k`, if it is well formed.
pub open spec fn spec_parse_rank(s: Seq<char>) -> Option<int> {
    let t = strip_ks(spec_trim(s));
    if t.len() > 0 && all_digits(t) {
        Some(digits_val(t) * 1000)
    } else if exists|i: int| valid_with_dot_at(t, i) {
        let i = choose|i: int| valid_with_dot_at(t, i);
        Some(digits_val(t.take(i)) * 1000 + fraction_points(t.skip(i + 1)))
    } else {
        None
    }
}

/// `i` is the first `-` of the input.
pub open spec fn first_dash_at(t: Seq<char>, i: int) -> bool {
    &&& 0 <= i < t.len()
    &&& t[i] == '-'
    &&& forall|j: int| 0 <= j < i ==> t[j] != '-'
}

/// The values in points of a rank range written like `4k-4.5k` or `4.3k`,
/// if it is well formed. A single rank collapses to a point range.
pub open spec fn spec_parse_rank_range(s: Seq<char>) -> Option<(int, int)> {
    let t = spec_trim(s);
    if exists|i: int| first_dash_at(t, i) {
        let i = choose|i: int| first_dash_at(t, i);
        match (spec_parse_rank(t.take(i)), spec_parse_rank(t.skip(i + 1))) {
            (Some(a), Some(b)) => Some((a, b)),
            _ => None,
        }
    } else {
        match spec_parse_rank(t) {
            Some(a) => Some((a, a)),
            None => None,
        }
    }
}

/// Parses a single rank like `4.3k` into points. Rejects anything that is
/// not digits with an optional fraction and `k` suffix, and any value that
/// does not fit the rank domain.
#[verifier::rlimit(60)]
pub fn parse_rank(s: &str) -> (r: Result<u32, Error>)
    ensures
        r matches Ok(v) ==> spec_parse_rank(s@) == Some(v as int),
        r is Ok <==> (spec_parse_rank(s@) matches Some(v) && v <= u32::MAX),
        r matches Err(e) ==> e matches Error::InvalidRankRange(orig) && orig@ == s@,
{
    let n = s.unicode_len();
    let (start, end) = trimmed_bounds(s);
    proof {
        let w = s@.subrange(start as int, end as int);
        assert(spec_trim(s@) == w);
    }
    let mut ke: usize = end;
    while ke > start && s.get_char(ke - 1) == 'k'
        invariant
            n == s@.len(),
            start <= ke <= end <= n,
            spec_trim(s@) == s@.subrange(start as int, end as int),
            strip_ks(s@.subrange(start as int, end as int)) == strip_ks(
                s@.subrange(start as int, ke as int),
            ),
        decreases ke,
    {
        proof {
            let w = s@.subrange(start as int, ke as int);
            assert(w.last() == s@[ke - 1]);
            assert(w.drop_last() =~= s@.subrange(start as int, ke - 1));
        }
        ke = ke - 1;
    }
    let ghost t = s@.subrange(start as int, ke as int);
    proof {
        assert(strip_ks(spec_trim(s@)) == t);
    }
    let tlen = ke - start;
    if tlen == 0 {
        proof {
            assert(forall|i: int| !valid_with_dot_at(t, i));
        }
        return Err(Error::InvalidRankRange(String::from_str(s)));
    }
    // Locate the decimal point and check every other character is a digit.
    let mut dot: Option<usize> = None;
    let mut i: usize = 0;
    while i < tlen
        invariant
            n == s@.len(),
            start + tlen == ke,
            ke <= n,
            t == s@.subrange(start as int, ke as int),
            t == strip_ks(spec_trim(s@)),
            i <= tlen,
            tlen == t.len(),
            match dot {
                Some(d) => d < i && t[d as int] == '.' && forall|j: int|
                    0 <= j < i && j != d ==> spec_is_digit(#[trigger] t[j]),
                None => forall|j: int| 0 <= j < i ==> spec_is_digit(#[trigger] t[j]),
            },
        decreases tlen - i,
    {
        let c = s.get_char(start + i);
        proof {
            assert(t[i as int] == s@[start + i]);
        }
        if c == '.' {
            if dot.is_some() {
                // A second decimal point: not a number under any reading.
                proof {
                    let d = dot.unwrap() as int;
                    assert(!all_digits(t));
                    assert forall|k: int| !valid_with_dot_at(t, k) by {
                        if valid_with_dot_at(t, k) {
                            assert(t[d] == '.' && t[i as int] == '.');
                        }
                    }
                }
                return Err(Error::InvalidRankRange(String::from_str(s)));
            }
            dot = Some(i);
        } else if !(c >= '0' && c <= '9') {
            proof {
                assert(!spec_is_digit(t[i as int]));
                assert(!all_digits(t));
                assert forall|k: int| !valid_with_dot_at(t, k) by {
                    if valid_with_dot_at(t, k) {
                        assert(k == i);
                        assert(t[k] == '.');
                    }
                }
            }
            return Err(Error::InvalidRankRange(String::from_str(s)));
        }
        i = i + 1;
    }
    // The window is digits with at most one point; read the whole value.
    let int_len: usize = match dot {
        Some(d) => d,
        None => tlen,
    };
    if dot.is_some() && tlen == 1 {
        // Just a point, no digit at all.
        proof {
            assert(!all_digits(t));
            assert(forall|k: int| !valid_with_dot_at(t, k));
        }
        return Err(Error::InvalidRankRange(String::from_str(s)));
    }
    let ghost int_part = t.take(int_len as int);
    proof {
        assert(forall|j: int| 0 <= j < int_part.len() ==> spec_is_digit(#[trigger] int_part[j]));
    }
    let mut acc: u64 = 0;
    let mut j: usize = 0;
    while j < int_len
        invariant
            n == s@.len(),
            start + tlen == ke,
            ke <= n,
            t == s@.subrange(start as int, ke as int),
            t == strip_ks(spec_trim(s@)),
            int_len <= tlen,
            tlen == t.len(),
            int_part == t.take(int_len as int),
            forall|k: int| 0 <= k < int_part.len() ==> spec_is_digit(#[trigger] int_part[k]),
            j <= int_len,
            acc == digits_val(int_part.take(j as int)),
            acc <= u32::MAX,
            dot matches Some(d) ==> int_len == d && valid_with_dot_at(t, d as int),
            dot is None ==> int_len == tlen && all_digits(t) && tlen > 0,
        decreases int_len - j,
    {
        let c = s.get_char(start + j);
        proof {
            assert(int_part[j as int] == t[j as int]);
            assert(t[j as int] == s@[start + j]);
            assert(spec_is_digit(c));
            assert(int_part.take(j + 1).drop_last() =~= int_part.take(j as int));
        }
        let d = (c as u32 - '0' as u32) as u64;
        let next = acc * 10 + d;
        if next > u32::MAX as u64 {
            // The rank is too large for the domain whatever follows.
            proof {
                lemma_digits_val_extend(int_part, j + 1);
                assert(digits_val(int_part) >= digits_val(int_part.take(j + 1)));
                assert(digits_val(int_part) > u32::MAX);
                lemma_digits_val_nonneg(int_part);
                match spec_parse_rank(s@) {
                    Some(v) => {
                        assert(v > u32::MAX) by {
                            if t.len() > 0 && all_digits(t) {
                                assert(int_part =~= t);
                                assert(v == digits_val(t) * 1000);
                            } else {
                                let k = choose|k: int| valid_with_dot_at(t, k);
                                let dd = dot.unwrap() as int;
                                assert(valid_with_dot_at(t, dd));
                                assert forall|x: int| valid_with_dot_at(t, x) implies x == dd by {
                                    if x != dd {
                                        assert(spec_is_digit(t[x]));
                                    }
                                }
                                assert(k == dd);
                                assert(v == digits_val(t.take(dd)) * 1000 + fraction_points(
                                    t.skip(dd + 1),
                                ));
                                assert(int_part == t.take(dd));
                                assert(fraction_points(t.skip(dd + 1)) >= 0);
                            }
                        }
                    },
                    None => {},
                }
            }
            return Err(Error::InvalidRankRange(String::from_str(s)));
        }
        acc = next;
        j = j + 1;
    }
    proof {
        assert(int_part.take(int_len as int) =~= int_part);
        assert(acc == digits_val(int_part));
    }
    // Read up to three digits of the fraction, zero-padded to points.
    let fr: u64 = match dot {
        Some(d) => {
            let f0: u64 = if tlen - d > 1 {
                (s.get_char(start + d + 1) as u32 - '0' as u32) as u64
            } else {
                0
            };
            let f1: u64 = if tlen - d > 2 {
                (s.get_char(start + d + 2) as u32 - '0' as u32) as u64
            } else {
                0
            };
            let f2: u64 = if tlen - d > 3 {
                (s.get_char(start + d + 3) as u32 - '0' as u32) as u64
            } else {
                0
            };
            proof {
                let f = t.skip(d + 1);
                assert(forall|x: int| 0 <= x < f.len() ==> f[x] == t[d + 1 + x]);
            }
            100 * f0 + 10 * f1 + f2
        },
        None => 0,
    };
    let ghost expected = spec_parse_rank(s@);
    proof {
        match dot {
            Some(d) => {
                let dd = d as int;
                assert(!all_digits(t)) by {
                    assert(t[dd] == '.');
                }
                assert(valid_with_dot_at(t, dd));
                assert forall|x: int| valid_with_dot_at(t, x) implies x == dd by {
                    if x != dd {
                        assert(spec_is_digit(t[x]));
                    }
                }
                assert(valid_with_dot_at(t, choose|x: int| valid_with_dot_at(t, x)));
                assert((choose|x: int| valid_with_dot_at(t, x)) == dd);
                assert(expected == Some(digits_val(t.take(dd)) * 1000 + fraction_points(
                    t.skip(dd + 1),
                )));
                assert(fr == fraction_points(t.skip(dd + 1)));
            },
            None => {
                assert(int_part =~= t);
                assert(expected == Some(digits_val(t) * 1000));
            },
        }
    }
    let value = acc * 1000 + fr;
    if value > u32::MAX as u64 {
        proof {
            lemma_digits_val_nonneg(int_part);
        }
        return Err(Error::InvalidRankRange(String::from_str(s)));
    }
    proof {
        lemma_digits_val_nonneg(int_part);
    }
    Ok(value as u32)
}

/// A rank input that parses and fits the rank domain.
pub open spec fn rank_ok(s: Seq<char>) -> bool {
    spec_parse_rank(s) matches Some(v) && v <= u32::MAX
}

/// The input a rejected rank range names in its error: the side that failed
/// to parse, or the whole input when the range merely runs backwards.
pub open spec fn rank_range_err_payload(s: Seq<char>) -> Seq<char> {
    let t = spec_trim(s);
    if exists|i: int| first_dash_at(t, i) {
        let i = choose|i: int| first_dash_at(t, i);
        if !rank_ok(t.take(i)) {
            t.take(i)
        } else if !rank_ok(t.skip(i + 1)) {
            t.skip(i + 1)
        } else {
            s
        }
    } else {
        t
    }
}

/// Parses a rank range like `4k-4.5k` (or a single rank, which collapses to
/// a point range) into an inclusive interval. A backwards range is rejected
/// like any other malformed input; the error names the offending input.
pub fn parse_rank_range(s: &str) -> (r: Result<RankRange, Error>)
    ensures
        r matches Ok(rr) ==> spec_parse_rank_range(s@) == Some((rr.start as int, rr.end as int))
            && rr.start <= rr.end,
        r is Ok <==> (spec_parse_rank_range(s@) matches Some(p) && p.0 <= p.1 && p.1 <= u32::MAX),
        r matches Err(e) ==> (e matches Error::InvalidRankRange(orig) && orig@
            == rank_range_err_payload(s@)),
{
    let n = s.unicode_len();
    let (start, end) = trimmed_bounds(s);
    let ghost t = spec_trim(s@);
    proof {
        assert(t == s@.subrange(start as int, end as int));
    }
    // Find the first dash of the trimmed input, if any.
    let tlen = end - start;
    let mut dash: Option<usize> = None;
    let mut i: usize = 0;
    while i < tlen
        invariant
            n == s@.len(),
            start + tlen == end,
            end <= n,
            t == s@.subrange(start as int, end as int),
            tlen == t.len(),
            i <= tlen,
            match dash {
                Some(d) => first_dash_at(t, d as int),
                None => forall|j: int| 0 <= j < i ==> t[j] != '-',
            },
        decreases tlen - i,
    {
        if dash.is_none() {
            let c = s.get_char(start + i);
            proof {
                assert(t[i as int] == s@[start + i]);
            }
            if c == '-' {
                dash = Some(i);
            }
        }
        i = i + 1;
    }
    match dash {
        Some(d) => {
            proof {
                assert(first_dash_at(t, d as int));
                assert forall|x: int| first_dash_at(t, x) implies x == d as int by {
                    if x < d as int {
                        assert(t[x] != '-');
                    } else if x > d as int {
                        assert(t[d as int] != '-');
                    }
                }
            }
            let from_part = s.substring_char(start, start + d);
            let to_part = s.substring_char(start + d + 1, end);
            proof {
                assert(from_part@ =~= t.take(d as int));
                assert(to_part@ =~= t.skip(d + 1));
            }
            let from = match parse_rank(from_part) {
                Ok(v) => v,
                Err(e) => {
                    proof {
                        assert(rank_range_err_payload(s@) == t.take(d as int));
                    }
                    return Err(e);
                },
            };
            let to = match parse_rank(to_part) {
                Ok(v) => v,
                Err(e) => {
                    proof {
                        assert(rank_range_err_payload(s@) == t.skip(d + 1));
                    }
                    return Err(e);
                },
            };
            if from > to {
                proof {
                    assert(rank_range_err_payload(s@) == s@);
                }
                return Err(Error::InvalidRankRange(String::from_str(s)));
            }
            Ok(RankRange { start: from, end: to })
        },
        None => {
            proof {
                assert(forall|x: int| !first_dash_at(t, x));
            }
            let whole = s.substring_char(start, end);
            proof {
                assert(whole@ =~= t);
                crate::strutil::lemma_trim_idempotent(s@);
            }
            match parse_rank(whole) {
                Ok(v) => Ok(RankRange { start: v, end: v }),
                Err(e) => {
                    proof {
                        assert(rank_range_err_payload(s@) == t);
                    }
                    Err(e)
                },
            }
        },
    }
}

} // verus!
