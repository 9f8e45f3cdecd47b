use vstd::prelude::*;

verus! {

/// Character-wise string equality, proved against the string views.
pub fn str_eq(a: &str, b: &str) -> (r: bool)
    ensures
        r == (a@ == b@),
{
    let la = a.unicode_len();
    let lb = b.unicode_len();
    if la != lb {
        return false;
    }
    let mut i: usize = 0;
    while i < la
        invariant
            la == a@.len(),
            la == b@.len(),
            i <= la,
            forall|j: int| 0 <= j < i ==> a@[j] == b@[j],
        decreases la - i,
    {
        if a.get_char(i) != b.get_char(i) {
            return false;
        }
        i = i + 1;
    }
    proof {
        assert(a@ =~= b@);
    }
    true
}

/// The input without leading spaces.
pub open spec fn trim_leading(s: Seq<char>) -> Seq<char>
    decreases s.len(),
{
    if s.len() > 0 && s[0] == ' ' {
        trim_leading(s.drop_first())
    } else {
        s
    }
}

/// The input without trailing spaces.
pub open spec fn trim_trailing(s: Seq<char>) -> Seq<char>
    decreases s.len(),
{
    if s.len() > 0 && s.last() == ' ' {
        trim_trailing(s.drop_last())
    } else {
        s
    }
}

/// The input without surrounding spaces.
pub open spec fn spec_trim(s: Seq<char>) -> Seq<char> {
    trim_trailing(trim_leading(s))
}

/// Trailing trimming keeps a prefix of the input and leaves no trailing
/// space.
pub proof fn lemma_trim_trailing_prefix(s: Seq<char>)
    ensures
        trim_trailing(s).len() <= s.len(),
        trim_trailing(s) =~= s.take(trim_trailing(s).len() as int),
        trim_trailing(s).len() > 0 ==> trim_trailing(s).last() != ' ',
    decreases s.len(),
{
    if s.len() > 0 && s.last() == ' ' {
        lemma_trim_trailing_prefix(s.drop_last());
        let t = trim_trailing(s.drop_last());
        assert(s.drop_last().take(t.len() as int) =~= s.take(t.len() as int));
    }
}

/// Leading trimming leaves no leading space.
pub proof fn lemma_trim_leading_no_lead(s: Seq<char>)
    ensures
        trim_leading(s).len() > 0 ==> trim_leading(s)[0] != ' ',
    decreases s.len(),
{
    if s.len() > 0 && s[0] == ' ' {
        lemma_trim_leading_no_lead(s.drop_first());
    }
}

/// Trimming an already trimmed input changes nothing.
pub proof fn lemma_trim_idempotent(s: Seq<char>)
    ensures
        spec_trim(spec_trim(s)) == spec_trim(s),
{
    let l = trim_leading(s);
    let t = spec_trim(s);
    lemma_trim_leading_no_lead(s);
    lemma_trim_trailing_prefix(l);
    if t.len() > 0 {
        assert(t[0] == l[0]);
        assert(t[0] != ' ');
        assert(trim_leading(t) == t);
        assert(t.last() != ' ');
        assert(trim_trailing(t) == t);
    } else {
        assert(trim_leading(t) == t);
        assert(trim_trailing(t) == t);
    }
}

/// The window of the input that remains after trimming surrounding spaces.
pub fn trimmed_bounds(s: &str) -> (r: (usize, usize))
    ensures
        ({
            let (a, b) = r;
            &&& a <= b <= s@.len()
            &&& spec_trim(s@) == s@.subrange(a as int, b as int)
        }),
{
    let n = s.unicode_len();
    proof {
        assert(s@.subrange(0, n as int) =~= s@);
    }
    let mut start: usize = 0;
    while start < n && s.get_char(start) == ' '
        invariant
            n == s@.len(),
            start <= n,
            trim_leading(s@) == trim_leading(s@.subrange(start as int, n as int)),
        decreases n - start,
    {
        proof {
            let w = s@.subrange(start as int, n as int);
            assert(w.drop_first() =~= s@.subrange(start + 1, n as int));
        }
        start = start + 1;
    }
    proof {
        let w = s@.subrange(start as int, n as int);
        assert(trim_leading(s@) == w);
    }
    let mut end: usize = n;
    while end > start && s.get_char(end - 1) == ' '
        invariant
            n == s@.len(),
            start <= end <= n,
            trim_leading(s@) == s@.subrange(start as int, n as int),
            trim_trailing(s@.subrange(start as int, n as int)) == trim_trailing(
                s@.subrange(start as int, end as int),
            ),
        decreases end,
    {
        proof {
            let w = s@.subrange(start as int, end as int);
            assert(w.last() == s@[end - 1]);
            assert(w.drop_last() =~= s@.subrange(start as int, end - 1));
        }
        end = end - 1;
    }
    proof {
        let w = s@.subrange(start as int, end as int);
        assert(spec_trim(s@) == w);
    }
    (start, end)
}

/// A decimal digit.
pub open spec fn spec_is_digit(c: char) -> bool {
    '0' <= c && c <= '9'
}

/// The value of a decimal digit.
pub open spec fn digit_val(c: char) -> int {
    c as int - '0' as int
}

/// The digit character for a value below ten.
pub open spec fn digit_char(d: int) -> char {
    ((48 + d) as u8) as char
}

/// The value of a string of decimal digits, most significant first.
pub open spec fn digits_val(s: Seq<char>) -> int
    decreases s.len(),
{
    if s.len() == 0 {
        0
    } else {
        digits_val(s.drop_last()) * 10 + digit_val(s.last())
    }
}

/// Digit strings have non-negative values.
pub proof fn lemma_digits_val_nonneg(s: Seq<char>)
    requires
        forall|i: int| 0 <= i < s.len() ==> spec_is_digit(#[trigger] s[i]),
    ensures
        digits_val(s) >= 0,
    decreases s.len(),
{
    if s.len() > 0 {
        lemma_digits_val_nonneg(s.drop_last());
    }
}

/// Extending a digit string never shrinks its value.
pub proof fn lemma_digits_val_extend(s: Seq<char>, i: int)
    requires
        forall|k: int| 0 <= k < s.len() ==> spec_is_digit(#[trigger] s[k]),
        0 <= i <= s.len(),
    ensures
        digits_val(s) >= digits_val(s.take(i)),
    decreases s.len() - i,
{
    if i < s.len() {
        lemma_digits_val_extend(s, i + 1);
        assert(s.take(i + 1).drop_last() =~= s.take(i));
        assert(forall|k: int| 0 <= k < s.take(i).len() ==> spec_is_digit(#[trigger] s.take(i)[k]));
        lemma_digits_val_nonneg(s.take(i));
        assert(digits_val(s.take(i + 1)) == digits_val(s.take(i)) * 10 + digit_val(s[i]));
    } else {
        assert(s.take(i) =~= s);
    }
}

/// The decimal notation of a non-negative number.
pub open spec fn spec_udec(n: int) -> Seq<char>
    decreases n,
{
    if n < 10 {
        seq![digit_char(if n >= 0 { n } else { 0 })]
    } else {
        spec_udec(n / 10).push(digit_char(n % 10))
    }
}

/// The decimal notation of a non-negative number is non-empty, all digits,
/// has no leading zero, and reads back to the number.
pub proof fn lemma_udec_wf(v: int)
    requires
        v >= 0,
    ensures
        spec_udec(v).len() >= 1,
        forall|j: int| 0 <= j < spec_udec(v).len() ==> spec_is_digit(#[trigger] spec_udec(v)[j]),
        spec_udec(v).len() > 1 ==> spec_udec(v)[0] != '0',
        digits_val(spec_udec(v)) == v,
    decreases v,
{
    reveal_with_fuel(digits_val, 3);
    if v < 10 {
        assert(spec_udec(v) =~= seq![digit_char(v)]);
        assert(spec_is_digit(digit_char(v)));
        assert(digit_val(digit_char(v)) == v);
    } else {
        lemma_udec_wf(v / 10);
        let head = spec_udec(v / 10);
        assert(spec_udec(v) == head.push(digit_char(v % 10)));
        assert(spec_is_digit(digit_char(v % 10)));
        assert(digit_val(digit_char(v % 10)) == v % 10);
        assert forall|j: int| 0 <= j < spec_udec(v).len() implies spec_is_digit(
            #[trigger] spec_udec(v)[j],
        ) by {
            if j < head.len() {
                assert(spec_udec(v)[j] == head[j]);
            }
        }
        assert(spec_udec(v)[0] == head[0]);
        assert(head[0] != '0') by {
            if head.len() == 1 {
                assert(head =~= seq![digit_char(v / 10)]);
                assert(v / 10 >= 1);
            }
        }
        assert(spec_udec(v).drop_last() =~= head);
        assert(digits_val(spec_udec(v)) == digits_val(head) * 10 + digit_val(
            digit_char(v % 10),
        ));
    }
}

/// A digit string with no leading zero has a positive value.
pub proof fn lemma_digits_val_positive(s: Seq<char>)
    requires
        s.len() > 0,
        forall|i: int| 0 <= i < s.len() ==> spec_is_digit(#[trigger] s[i]),
        s[0] != '0',
    ensures
        digits_val(s) >= 1,
    decreases s.len(),
{
    reveal_with_fuel(digits_val, 3);
    if s.len() == 1 {
    } else {
        lemma_digits_val_positive(s.drop_last());
        assert(spec_is_digit(s[s.len() - 1]));
        assert(0 <= digit_val(s.last()) < 10);
    }
}

/// A digit string with no leading zero is the canonical decimal notation
/// of its value.
pub proof fn lemma_digits_canonical(s: Seq<char>)
    requires
        s.len() > 0,
        forall|i: int| 0 <= i < s.len() ==> spec_is_digit(#[trigger] s[i]),
        s.len() > 1 ==> s[0] != '0',
    ensures
        s == spec_udec(digits_val(s)),
    decreases s.len(),
{
    let v = digits_val(s);
    reveal_with_fuel(digits_val, 3);
    reveal_with_fuel(spec_udec, 3);
    if s.len() == 1 {
        assert(v == digit_val(s[0]));
        assert(0 <= v < 10);
        assert(spec_udec(v) =~= seq![digit_char(v)]);
        assert(digit_char(digit_val(s[0])) == s[0]);
        assert(s =~= spec_udec(v));
    } else {
        let head = s.drop_last();
        lemma_digits_val_positive(head);
        lemma_digits_val_nonneg(head);
        assert(spec_is_digit(s[s.len() - 1]));
        assert(0 <= digit_val(s.last()) < 10);
        assert(v == digits_val(head) * 10 + digit_val(s.last()));
        assert(v >= 10);
        assert(v / 10 == digits_val(head));
        assert(v % 10 == digit_val(s.last()));
        lemma_digits_canonical(head);
        assert(digit_char(digit_val(s.last())) == s.last());
        assert(s =~= head.push(s.last()));
        assert(spec_udec(v) == spec_udec(v / 10).push(digit_char(v % 10)));
    }
}

/// The decimal notation of a number, with a leading minus when negative.
pub open spec fn spec_idec(n: int) -> Seq<char> {
    if n < 0 {
        seq!['-'] + spec_udec(-n)
    } else {
        spec_udec(n)
    }
}

/// Reads a number written in decimal digits, most significant first.
pub fn parse_u64(s: &str) -> (r: Option<u64>)
    ensures
        r matches Some(v) ==> s@.len() > 0 && (forall|i: int|
            0 <= i < s@.len() ==> spec_is_digit(#[trigger] s@[i])) && v == digits_val(s@),
        (s@.len() > 0 && (forall|i: int| 0 <= i < s@.len() ==> spec_is_digit(#[trigger] s@[i]))
            && digits_val(s@) <= u64::MAX) ==> r is Some,
{
    let n = s.unicode_len();
    if n == 0 {
        return None;
    }
    let mut acc: u64 = 0;
    let mut i: usize = 0;
    while i < n
        invariant
            n == s@.len(),
            i <= n,
            forall|j: int| 0 <= j < i ==> spec_is_digit(#[trigger] s@[j]),
            acc == digits_val(s@.take(i as int)),
        decreases n - i,
    {
        let c = s.get_char(i);
        proof {
            assert(s@.take(i + 1).drop_last() =~= s@.take(i as int));
        }
        if !(c >= '0' && c <= '9') {
            return None;
        }
        let d = (c as u32 - '0' as u32) as u64;
        if acc > (u64::MAX - d) / 10 {
            // The value cannot fit whatever follows.
            proof {
                assert(s@.take(i + 1).last() == s@[i as int]);
                assert(digits_val(s@.take(i + 1)) == acc * 10 + d);
                if forall|j: int| 0 <= j < s@.len() ==> spec_is_digit(#[trigger] s@[j]) {
                    lemma_digits_val_extend(s@, i + 1);
                    assert(s@.take(n as int) =~= s@);
                    assert(digits_val(s@) > u64::MAX);
                }
            }
            return None;
        }
        acc = acc * 10 + d;
        i = i + 1;
    }
    proof {
        assert(s@.take(n as int) =~= s@);
    }
    Some(acc)
}

/// The string holding one digit.
fn digit_str(d: u64) -> (r: &'static str)
    requires
        d < 10,
    ensures
        r@ =~= seq![digit_char(d as int)],
{
    proof {
        reveal_strlit("0");
        reveal_strlit("1");
        reveal_strlit("2");
        reveal_strlit("3");
        reveal_strlit("4");
        reveal_strlit("5");
        reveal_strlit("6");
        reveal_strlit("7");
        reveal_strlit("8");
        reveal_strlit("9");
    }
    match d {
        0 => "0",
        1 => "1",
        2 => "2",
        3 => "3",
        4 => "4",
        5 => "5",
        6 => "6",
        7 => "7",
        8 => "8",
        _ => "9",
    }
}

/// Writes a number in decimal.
pub fn u64_to_string(n: u64) -> (r: String)
    ensures
        r@ =~= spec_udec(n as int),
    decreases n,
{
    if n < 10 {
        String::from_str(digit_str(n))
    } else {
        let mut s = u64_to_string(n / 10);
        s.append(digit_str(n % 10));
        s
    }
}

/// Writes a signed number in decimal.
pub fn i64_to_string(n: i64) -> (r: String)
    ensures
        r@ =~= spec_idec(n as int),
{
    if n < 0 {
        let mag = (-(n as i128)) as u64;
        let mut s = String::from_str("-");
        proof {
            reveal_strlit("-");
        }
        s.append(u64_to_string(mag).as_str());
        s
    } else {
        u64_to_string(n as u64)
    }
}

} // verus!
