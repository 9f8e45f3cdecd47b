use vstd::prelude::*;

use crate::strutil::{digit_val, spec_is_digit};

verus! {

// ---------------------------------------------------------------------------
// The date recognizer behind `parse_date_relative` aborts on a handful of
// ASCII text shapes: a digit/digit slash pair naming a month over twelve
// or an impossible day, an English month name followed by an out-of-range
// day, and the month-shifting phrases (`next/last month`, `in N months`,
// which build month numbers outside one to twelve). This guard rejects
// those shapes, erring on the side of rejection: every ASCII text it
// accepts takes only non-aborting paths through the recognizer (non-ASCII
// text is excluded separately, since the recognizer parses its captures as
// ASCII). Whitespace and word boundaries are over-approximated (any
// non-ASCII character may count as either), which only rejects more.
// ---------------------------------------------------------------------------

/// A character the recognizer's whitespace class may match.
pub open spec fn maybe_space(c: char) -> bool {
    c == ' ' || c == '\t' || c == '\n' || c == '\r' || c as u32 == 11 || c as u32 == 12 || c
        as u32 >= 128
}

/// A character that may sit inside a month-name suffix.
pub open spec fn skippable(c: char) -> bool {
    ('a' <= c && c <= 'z') || ('A' <= c && c <= 'Z') || c as u32 >= 128
}

/// The lower-case form of an ASCII letter.
pub open spec fn lower_char(c: char) -> char {
    if 'A' <= c && c <= 'Z' {
        (((c as u8) + 32) as char)
    } else {
        c
    }
}

/// The most days any year has in the month — February capped at twenty-
/// eight, so a leap day is (conservatively) treated as out of range.
pub open spec fn safe_days(month: int) -> int {
    if month == 2 {
        28
    } else if month == 4 || month == 6 || month == 9 || month == 11 {
        30
    } else {
        31
    }
}

/// The day number read at `q`: one digit, or two when two follow.
pub open spec fn day_value_at(s: Seq<char>, q: int) -> int {
    if q + 1 < s.len() && spec_is_digit(s[q + 1]) {
        10 * digit_val(s[q]) + digit_val(s[q + 1])
    } else {
        digit_val(s[q])
    }
}

/// A digit/digit slash pair at `p` whose month or day the calendar
/// rejects: the recognizer reads the (up to two) digits around the slash
/// and aborts on an impossible pair.
pub open spec fn slash_danger_at(s: Seq<char>, p: int) -> bool {
    &&& 1 <= p
    &&& p + 1 < s.len()
    &&& s[p] == '/'
    &&& spec_is_digit(s[p - 1])
    &&& spec_is_digit(s[p + 1])
    &&& {
        let month = if p >= 2 && spec_is_digit(s[p - 2]) {
            10 * digit_val(s[p - 2]) + digit_val(s[p - 1])
        } else {
            digit_val(s[p - 1])
        };
        let day = day_value_at(s, p + 1);
        month < 1 || month > 12 || day < 1 || day > safe_days(month)
    }
}

/// The month that a three-letter prefix at `p` names, if any.
pub open spec fn month_prefix_at(s: Seq<char>, p: int) -> Option<int> {
    if p + 3 > s.len() {
        None
    } else {
        let a = lower_char(s[p]);
        let b = lower_char(s[p + 1]);
        let c = lower_char(s[p + 2]);
        if a == 'j' && b == 'a' && c == 'n' {
            Some(1)
        } else if a == 'f' && b == 'e' && c == 'b' {
            Some(2)
        } else if a == 'm' && b == 'a' && c == 'r' {
            Some(3)
        } else if a == 'a' && b == 'p' && c == 'r' {
            Some(4)
        } else if a == 'm' && b == 'a' && c == 'y' {
            Some(5)
        } else if a == 'j' && b == 'u' && c == 'n' {
            Some(6)
        } else if a == 'j' && b == 'u' && c == 'l' {
            Some(7)
        } else if a == 'a' && b == 'u' && c == 'g' {
            Some(8)
        } else if a == 's' && b == 'e' && c == 'p' {
            Some(9)
        } else if a == 'o' && b == 'c' && c == 't' {
            Some(10)
        } else if a == 'n' && b == 'o' && c == 'v' {
            Some(11)
        } else if a == 'd' && b == 'e' && c == 'c' {
            Some(12)
        } else {
            None
        }
    }
}

/// Scans past a month name's suffix letters for a whitespace followed by a
/// day the month cannot have.
pub open spec fn month_scan(s: Seq<char>, q: int, month: int) -> bool
    decreases s.len() - q,
{
    if q < 0 || q >= s.len() {
        false
    } else if maybe_space(s[q]) && q + 1 < s.len() && spec_is_digit(s[q + 1]) && {
        let day = day_value_at(s, q + 1);
        day < 1 || day > safe_days(month)
    } {
        true
    } else if skippable(s[q]) {
        month_scan(s, q + 1, month)
    } else {
        false
    }
}

/// The (case-insensitive) word `month` at `p`.
pub open spec fn month_word_at(s: Seq<char>, p: int) -> bool {
    p + 5 <= s.len() && lower_char(s[p]) == 'm' && lower_char(s[p + 1]) == 'o' && lower_char(
        s[p + 2],
    ) == 'n' && lower_char(s[p + 3]) == 't' && lower_char(s[p + 4]) == 'h'
}

/// One of the (case-insensitive) words `next`, `last` at `p`. A `this
/// month` phrase shifts the base month by zero, which the calendar always
/// accepts, so it is not a danger.
pub open spec fn rel_word_at(s: Seq<char>, p: int) -> bool {
    p + 4 <= s.len() && {
        let a = lower_char(s[p]);
        let b = lower_char(s[p + 1]);
        let c = lower_char(s[p + 2]);
        let d = lower_char(s[p + 3]);
        (a == 'n' && b == 'e' && c == 'x' && d == 't') || (a == 'l' && b == 'a' && c == 's' && d
            == 't')
    }
}

/// A run of exactly `d` digits starting at `q`.
pub open spec fn digit_run(s: Seq<char>, q: int, d: int) -> bool {
    q + d <= s.len() && forall|i: int| q <= i < q + d ==> spec_is_digit(#[trigger] s[i])
}

/// An `in N months` phrase at `p`: the recognizer shifts the base month by
/// N and aborts when the sum leaves one to twelve.
pub open spec fn in_months_at(s: Seq<char>, p: int) -> bool {
    &&& p + 2 < s.len()
    &&& s[p] == 'i'
    &&& s[p + 1] == 'n'
    &&& maybe_space(s[p + 2])
    &&& exists|d: int|
        1 <= d <= 3 && #[trigger] digit_run(s, p + 3, d) && p + 3 + d < s.len() && maybe_space(
            s[p + 3 + d],
        ) && month_word_at(s, p + 4 + d)
}

/// A `next/last month` or `in N months` phrase at `p`.
pub open spec fn month_phrase_danger_at(s: Seq<char>, p: int) -> bool {
    (rel_word_at(s, p) && p + 4 < s.len() && maybe_space(s[p + 4]) && month_word_at(s, p + 5))
        || in_months_at(s, p)
}

/// Any aborting shape anchored at `p`.
pub open spec fn date_danger_at(s: Seq<char>, p: int) -> bool {
    ||| slash_danger_at(s, p)
    ||| (month_prefix_at(s, p) matches Some(m) && month_scan(s, p + 3, m))
    ||| month_phrase_danger_at(s, p)
}

/// The text takes only non-aborting paths through the date recognizer.
pub open spec fn date_input_safe(s: Seq<char>) -> bool {
    forall|p: int| 0 <= p < s.len() ==> !date_danger_at(s, p)
}

fn lower(c: char) -> (r: char)
    ensures
        r == lower_char(c),
{
    if c >= 'A' && c <= 'Z' {
        ((c as u8) + 32) as char
    } else {
        c
    }
}

fn is_maybe_space(c: char) -> (r: bool)
    ensures
        r == maybe_space(c),
{
    c == ' ' || c == '\t' || c == '\n' || c == '\r' || c as u32 == 11 || c as u32 == 12 || c
        as u32 >= 128
}

fn is_skippable(c: char) -> (r: bool)
    ensures
        r == skippable(c),
{
    (c >= 'a' && c <= 'z') || (c >= 'A' && c <= 'Z') || c as u32 >= 128
}

fn is_digit(c: char) -> (r: bool)
    ensures
        r == spec_is_digit(c),
{
    c >= '0' && c <= '9'
}

fn safe_days_of(month: u32) -> (r: u32)
    ensures
        r == safe_days(month as int),
{
    if month == 2 {
        28
    } else if month == 4 || month == 6 || month == 9 || month == 11 {
        30
    } else {
        31
    }
}

/// Reads the one- or two-digit day at `q`.
fn day_value(s: &str, q: usize) -> (r: u32)
    requires
        q < s@.len(),
        spec_is_digit(s@[q as int]),
    ensures
        r == day_value_at(s@, q as int),
{
    let n = s.unicode_len();
    let c0 = s.get_char(q);
    let d0 = c0 as u32 - '0' as u32;
    if q + 1 < n {
        let c1 = s.get_char(q + 1);
        if is_digit(c1) {
            return 10 * d0 + (c1 as u32 - '0' as u32);
        }
    }
    d0
}

fn check_slash(s: &str, p: usize) -> (r: bool)
    requires
        p < s@.len(),
    ensures
        r == slash_danger_at(s@, p as int),
{
    let n = s.unicode_len();
    if p < 1 || p + 1 >= n {
        return false;
    }
    if s.get_char(p) != '/' {
        return false;
    }
    let before = s.get_char(p - 1);
    let after = s.get_char(p + 1);
    if !is_digit(before) || !is_digit(after) {
        return false;
    }
    let month: u32 = if p >= 2 && is_digit(s.get_char(p - 2)) {
        10 * (s.get_char(p - 2) as u32 - '0' as u32) + (before as u32 - '0' as u32)
    } else {
        before as u32 - '0' as u32
    };
    let day = day_value(s, p + 1);
    month < 1 || month > 12 || day < 1 || day > safe_days_of(month)
}

fn month_prefix(s: &str, p: usize) -> (r: Option<u32>)
    requires
        p < s@.len(),
    ensures
        match r {
            Some(m) => month_prefix_at(s@, p as int) == Some(m as int),
            None => month_prefix_at(s@, p as int) is None,
        },
{
    let n = s.unicode_len();
    if n - p < 3 {
        return None;
    }
    let a = lower(s.get_char(p));
    let b = lower(s.get_char(p + 1));
    let c = lower(s.get_char(p + 2));
    if a == 'j' && b == 'a' && c == 'n' {
        Some(1)
    } else if a == 'f' && b == 'e' && c == 'b' {
        Some(2)
    } else if a == 'm' && b == 'a' && c == 'r' {
        Some(3)
    } else if a == 'a' && b == 'p' && c == 'r' {
        Some(4)
    } else if a == 'm' && b == 'a' && c == 'y' {
        Some(5)
    } else if a == 'j' && b == 'u' && c == 'n' {
        Some(6)
    } else if a == 'j' && b == 'u' && c == 'l' {
        Some(7)
    } else if a == 'a' && b == 'u' && c == 'g' {
        Some(8)
    } else if a == 's' && b == 'e' && c == 'p' {
        Some(9)
    } else if a == 'o' && b == 'c' && c == 't' {
        Some(10)
    } else if a == 'n' && b == 'o' && c == 'v' {
        Some(11)
    } else if a == 'd' && b == 'e' && c == 'c' {
        Some(12)
    } else {
        None
    }
}

fn month_scan_from(s: &str, q0: usize, month: u32) -> (r: bool)
    requires
        q0 <= s@.len(),
    ensures
        r == month_scan(s@, q0 as int, month as int),
{
    let n = s.unicode_len();
    let mut q = q0;
    while q < n
        invariant
            q0 <= q <= n,
            n == s@.len(),
            month_scan(s@, q0 as int, month as int) == month_scan(s@, q as int, month as int),
        decreases n - q,
    {
        let c = s.get_char(q);
        if is_maybe_space(c) && q + 1 < n {
            let c1 = s.get_char(q + 1);
            if is_digit(c1) {
                let day = day_value(s, q + 1);
                if day < 1 || day > safe_days_of(month) {
                    return true;
                }
            }
        }
        if !is_skippable(c) {
            return false;
        }
        q = q + 1;
    }
    false
}

fn check_month_word(s: &str, p: usize) -> (r: bool)
    ensures
        r == month_word_at(s@, p as int),
{
    let n = s.unicode_len();
    if n < 5 || p > n - 5 {
        return false;
    }
    lower(s.get_char(p)) == 'm' && lower(s.get_char(p + 1)) == 'o' && lower(s.get_char(p + 2))
        == 'n' && lower(s.get_char(p + 3)) == 't' && lower(s.get_char(p + 4)) == 'h'
}

fn check_rel_word(s: &str, p: usize) -> (r: bool)
    ensures
        r == rel_word_at(s@, p as int),
{
    let n = s.unicode_len();
    if n < 4 || p > n - 4 {
        return false;
    }
    let a = lower(s.get_char(p));
    let b = lower(s.get_char(p + 1));
    let c = lower(s.get_char(p + 2));
    let d = lower(s.get_char(p + 3));
    (a == 'n' && b == 'e' && c == 'x' && d == 't') || (a == 'l' && b == 'a' && c == 's' && d
        == 't')
}

fn check_in_months(s: &str, p: usize) -> (r: bool)
    requires
        p < s@.len(),
    ensures
        r == in_months_at(s@, p as int),
{
    let n = s.unicode_len();
    if n - p <= 2 {
        return false;
    }
    if s.get_char(p) != 'i' || s.get_char(p + 1) != 'n' || !is_maybe_space(s.get_char(p + 2)) {
        return false;
    }
    if n - p > 4 {
        if is_digit(s.get_char(p + 3)) && is_maybe_space(s.get_char(p + 4)) && check_month_word(
            s,
            p + 5,
        ) {
            proof {
                assert(digit_run(s@, p + 3, 1)) by {
                    assert forall|i: int| p + 3 <= i < p + 4 implies spec_is_digit(
                        #[trigger] s@[i],
                    ) by {
                        assert(i == p + 3);
                    }
                }
            }
            return true;
        }
    }
    if n - p > 5 {
        if is_digit(s.get_char(p + 3)) && is_digit(s.get_char(p + 4)) && is_maybe_space(
            s.get_char(p + 5),
        ) && check_month_word(s, p + 6) {
            proof {
                assert(digit_run(s@, p + 3, 2)) by {
                    assert forall|i: int| p + 3 <= i < p + 5 implies spec_is_digit(
                        #[trigger] s@[i],
                    ) by {
                        assert(i == p + 3 || i == p + 4);
                    }
                }
            }
            return true;
        }
    }
    if n - p > 6 {
        if is_digit(s.get_char(p + 3)) && is_digit(s.get_char(p + 4)) && is_digit(
            s.get_char(p + 5),
        ) && is_maybe_space(s.get_char(p + 6)) && check_month_word(s, p + 7) {
            proof {
                assert(digit_run(s@, p + 3, 3)) by {
                    assert forall|i: int| p + 3 <= i < p + 6 implies spec_is_digit(
                        #[trigger] s@[i],
                    ) by {
                        assert(i == p + 3 || i == p + 4 || i == p + 5);
                    }
                }
            }
            return true;
        }
    }
    proof {
        assert forall|d: int|
            1 <= d <= 3 implies !(#[trigger] digit_run(s@, p + 3, d) && p + 3 + d < s@.len()
                && maybe_space(s@[p + 3 + d]) && month_word_at(s@, p + 4 + d)) by {
            if digit_run(s@, p + 3, d) && p + 3 + d < s@.len() && maybe_space(s@[p + 3 + d])
                && month_word_at(s@, p + 4 + d) {
                assert(spec_is_digit(s@[p + 3]));
                if d >= 2 {
                    assert(spec_is_digit(s@[p + 4]));
                }
                if d >= 3 {
                    assert(spec_is_digit(s@[p + 5]));
                }
            }
        }
    }
    false
}

fn check_danger_at(s: &str, p: usize) -> (r: bool)
    requires
        p < s@.len(),
    ensures
        r == date_danger_at(s@, p as int),
{
    let n = s.unicode_len();
    if check_slash(s, p) {
        return true;
    }
    match month_prefix(s, p) {
        Some(m) => {
            proof {
                assert(p + 3 <= n);
            }
            if month_scan_from(s, p + 3, m) {
                return true;
            }
        },
        None => {},
    }
    if check_rel_word(s, p) {
        if n - p > 4 {
            if is_maybe_space(s.get_char(p + 4)) && check_month_word(s, p + 5) {
                return true;
            }
        }
    }
    check_in_months(s, p)
}

/// Whether the text is safe to hand to the date recognizer: every shape on
/// which the recognizer aborts is absent.
pub fn date_input_ok(s: &str) -> (r: bool)
    ensures
        r == date_input_safe(s@),
{
    let n = s.unicode_len();
    let mut p: usize = 0;
    while p < n
        invariant
            p <= n,
            n == s@.len(),
            forall|j: int| 0 <= j < p ==> !date_danger_at(s@, j),
        decreases n - p,
    {
        if check_danger_at(s, p) {
            return false;
        }
        p = p + 1;
    }
    true
}

} // verus!
