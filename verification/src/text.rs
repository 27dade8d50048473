//! Plain-text building blocks: decimal rendering and parsing of integers,
//! substring search, and delimiter-based splitting and joining.
//!
//! Every flat encoding in this crate (query text, cache chunk keys, the
//! line-oriented dataset serialization, and the mana-token encoding) is
//! built from these operations, so their contracts pin the produced and
//! consumed character sequences exactly.

use vstd::prelude::*;

verus! {

/// Appends one character to a string.
///
/// Relies on `String::push` from std: it appends exactly the given
/// character to the end of the string.
#[verifier::external_body]
pub fn push_char(s: &mut String, c: char)
    ensures
        final(s)@ == old(s)@ + seq![c],
{
    s.push(c);
}

// ---------------------------------------------------------------------------
// Decimal rendering and parsing
// ---------------------------------------------------------------------------
/// The character for a single decimal digit value.
pub open spec fn spec_digit_char(d: int) -> char {
    if d == 0 {
        '0'
    } else if d == 1 {
        '1'
    } else if d == 2 {
        '2'
    } else if d == 3 {
        '3'
    } else if d == 4 {
        '4'
    } else if d == 5 {
        '5'
    } else if d == 6 {
        '6'
    } else if d == 7 {
        '7'
    } else if d == 8 {
        '8'
    } else {
        '9'
    }
}

/// The numeric value of a decimal digit character, or -1 for any other
/// character.
pub open spec fn spec_digit_value(c: char) -> int {
    if c == '0' {
        0
    } else if c == '1' {
        1
    } else if c == '2' {
        2
    } else if c == '3' {
        3
    } else if c == '4' {
        4
    } else if c == '5' {
        5
    } else if c == '6' {
        6
    } else if c == '7' {
        7
    } else if c == '8' {
        8
    } else if c == '9' {
        9
    } else {
        -1
    }
}

/// The usual decimal rendering of a natural number: no sign, no leading
/// zeros (except for the single digit of 0 itself).
pub open spec fn spec_dec_nat(n: nat) -> Seq<char>
    decreases n,
{
    if n < 10 {
        seq![spec_digit_char(n as int)]
    } else {
        spec_dec_nat(n / 10) + seq![spec_digit_char((n % 10) as int)]
    }
}

/// The decimal rendering of an integer: a leading '-' for negative values.
pub open spec fn spec_dec_int(n: int) -> Seq<char> {
    if n >= 0 {
        spec_dec_nat(n as nat)
    } else {
        seq!['-'] + spec_dec_nat((-n) as nat)
    }
}

fn digit_char(d: u64) -> (c: char)
    requires
        d < 10,
    ensures
        c == spec_digit_char(d as int),
{
    match d {
        0 => '0',
        1 => '1',
        2 => '2',
        3 => '3',
        4 => '4',
        5 => '5',
        6 => '6',
        7 => '7',
        8 => '8',
        _ => '9',
    }
}

/// Renders an unsigned value in decimal.
pub fn format_u64(n: u64) -> (r: String)
    ensures
        r@ == spec_dec_nat(n as nat),
    decreases n,
{
    if n < 10 {
        let mut s = String::new();
        push_char(&mut s, digit_char(n));
        s
    } else {
        let mut s = format_u64(n / 10);
        push_char(&mut s, digit_char(n % 10));
        s
    }
}

/// Renders a signed value in decimal.
pub fn format_i64(n: i64) -> (r: String)
    ensures
        r@ == spec_dec_int(n as int),
{
    if n >= 0 {
        format_u64(n as u64)
    } else {
        let magnitude: u64 = ((-(n + 1)) as u64) + 1;
        assert(magnitude == -(n as int));
        let mut s = String::new();
        push_char(&mut s, '-');
        let digits = format_u64(magnitude);
        s.append(digits.as_str());
        s
    }
}

/// Whether every character of `s` is a decimal digit.
pub open spec fn spec_all_digits(s: Seq<char>) -> bool {
    forall|i: int| 0 <= i < s.len() ==> spec_digit_value(s[i]) >= 0
}

/// The value of a digit string read as a base-10 numeral (0 for the empty
/// string); meaningful only when `spec_all_digits` holds.
pub open spec fn spec_dec_value(s: Seq<char>) -> int
    decreases s.len(),
{
    if s.len() == 0 {
        0
    } else {
        spec_dec_value(s.drop_last()) * 10 + spec_digit_value(s.last())
    }
}

/// What parsing a decimal string as a `u64` yields: the numeral's value if
/// the string is a nonempty run of digits whose value fits, nothing
/// otherwise.
pub open spec fn spec_parse_u64(s: Seq<char>) -> Option<u64> {
    if s.len() > 0 && spec_all_digits(s) && spec_dec_value(s) <= u64::MAX {
        Some(spec_dec_value(s) as u64)
    } else {
        None
    }
}

/// What parsing a decimal string as an `i64` yields: an optional leading
/// '-' followed by a nonempty run of digits, with the signed value in
/// range.
pub open spec fn spec_parse_i64(s: Seq<char>) -> Option<i64> {
    if s.len() > 0 && s[0] == '-' {
        let m = s.skip(1);
        if m.len() > 0 && spec_all_digits(m) && -spec_dec_value(m) >= i64::MIN {
            Some((-spec_dec_value(m)) as i64)
        } else {
            None
        }
    } else {
        if s.len() > 0 && spec_all_digits(s) && spec_dec_value(s) <= i64::MAX {
            Some(spec_dec_value(s) as i64)
        } else {
            None
        }
    }
}

/// The numeral value of a proper prefix never exceeds the whole numeral's
/// value.
proof fn lemma_dec_value_prefix_le(s: Seq<char>, i: int)
    requires
        spec_all_digits(s),
        0 <= i <= s.len(),
    ensures
        spec_dec_value(s.take(i)) <= spec_dec_value(s),
    decreases s.len() - i,
{
    if i < s.len() {
        lemma_dec_value_prefix_le(s, i + 1);
        assert(s.take(i + 1).drop_last() =~= s.take(i));
        assert(s.take(i + 1).last() == s[i]);
        let v = spec_dec_value(s.take(i));
        assert(spec_dec_value(s.take(i + 1)) == v * 10 + spec_digit_value(s[i]));
        assert(spec_dec_value(s.take(i)) >= 0) by {
            lemma_dec_value_nonneg(s.take(i));
        }
        assert(v <= v * 10) by (nonlinear_arith)
            requires
                v >= 0,
        ;
    } else {
        assert(s.take(i) =~= s);
    }
}

/// A digit string's numeral value is nonnegative.
proof fn lemma_dec_value_nonneg(s: Seq<char>)
    requires
        spec_all_digits(s),
    ensures
        spec_dec_value(s) >= 0,
    decreases s.len(),
{
    if s.len() > 0 {
        assert(spec_all_digits(s.drop_last()));
        lemma_dec_value_nonneg(s.drop_last());
        let v = spec_dec_value(s.drop_last());
        assert(v * 10 >= 0) by (nonlinear_arith)
            requires
                v >= 0,
        ;
    }
}

/// Parses a nonempty run of decimal digits as a `u64`.
pub fn parse_u64(s: &str) -> (r: Option<u64>)
    ensures
        r == spec_parse_u64(s@),
{
    let n = s.unicode_len();
    if n == 0 {
        return None;
    }
    let mut acc: u64 = 0;
    let mut i: usize = 0;
    while i < n
        invariant
            0 <= i <= n,
            n == s@.len(),
            spec_all_digits(s@.take(i as int)),
            acc == spec_dec_value(s@.take(i as int)),
        decreases n - i,
    {
        let c = s.get_char(i);
        let d: u64 = match c {
            '0' => 0,
            '1' => 1,
            '2' => 2,
            '3' => 3,
            '4' => 4,
            '5' => 5,
            '6' => 6,
            '7' => 7,
            '8' => 8,
            '9' => 9,
            _ => 10,
        };
        if d == 10 {
            assert(spec_digit_value(s@[i as int]) < 0);
            assert(!spec_all_digits(s@));
            return None;
        }
        assert(d == spec_digit_value(s@[i as int]));
        if acc > (u64::MAX - d) / 10 {
            proof {
                let t = s@.take(i + 1);
                assert(t.drop_last() =~= s@.take(i as int));
                assert(t.last() == s@[i as int]);
                assert(spec_dec_value(t) == acc * 10 + d);
                assert(acc * 10 + d > u64::MAX) by (nonlinear_arith)
                    requires
                        acc > (u64::MAX - d) / 10,
                        0 <= d < 10,
                ;
                if spec_all_digits(s@) {
                    lemma_dec_value_prefix_le(s@, i + 1);
                }
            }
            return None;
        }
        proof {
            assert(acc * 10 + d <= u64::MAX) by (nonlinear_arith)
                requires
                    acc <= (u64::MAX - d) / 10,
                    0 <= d < 10,
            ;
            let t = s@.take(i + 1);
            assert(t.drop_last() =~= s@.take(i as int));
            assert(t.last() == s@[i as int]);
        }
        acc = acc * 10 + d;
        i = i + 1;
    }
    proof {
        assert(s@.take(n as int) =~= s@);
    }
    Some(acc)
}

/// Parses an optionally '-'-signed run of decimal digits as an `i64`.
pub fn parse_i64(s: &str) -> (r: Option<i64>)
    ensures
        r == spec_parse_i64(s@),
{
    let n = s.unicode_len();
    proof {
        if spec_all_digits(s@) {
            lemma_dec_value_nonneg(s@);
        }
        if spec_all_digits(s@.skip(1)) {
            lemma_dec_value_nonneg(s@.skip(1));
        }
    }
    if n > 0 && s.get_char(0) == '-' {
        let rest = s.substring_char(1, n);
        assert(rest@ =~= s@.skip(1));
        match parse_u64(rest) {
            Some(m) => {
                if m <= i64::MAX as u64 {
                    proof {
                        lemma_dec_value_nonneg(rest@);
                    }
                    Some(-(m as i64))
                } else if m == (i64::MAX as u64) + 1 {
                    Some(i64::MIN)
                } else {
                    None
                }
            },
            None => {
                proof {
                    if rest@.len() > 0 && spec_all_digits(rest@) {
                        lemma_dec_value_nonneg(rest@);
                    }
                }
                None
            },
        }
    } else {
        match parse_u64(s) {
            Some(m) => {
                if m <= i64::MAX as u64 {
                    Some(m as i64)
                } else {
                    None
                }
            },
            None => None,
        }
    }
}

/// Rendering a value in decimal and parsing it back yields the value
/// again: the decimal codec is lossless.
pub proof fn lemma_dec_roundtrip(n: int)
    requires
        i64::MIN <= n <= i64::MAX,
    ensures
        spec_parse_i64(spec_dec_int(n)) == Some(n as i64),
{
    if n >= 0 {
        lemma_dec_nat_digits(n as nat);
        lemma_dec_value_of_dec_nat(n as nat);
        assert(spec_dec_int(n)[0] != '-') by {
            lemma_dec_nat_first_char(n as nat);
        }
    } else {
        let m = (-n) as nat;
        lemma_dec_nat_digits(m);
        lemma_dec_value_of_dec_nat(m);
        let s = spec_dec_int(n);
        assert(s[0] == '-');
        assert(s.skip(1) =~= spec_dec_nat(m));
    }
}

/// The decimal rendering of a natural number consists of digits only.
pub proof fn lemma_dec_nat_digits(n: nat)
    ensures
        spec_dec_nat(n).len() > 0,
        spec_all_digits(spec_dec_nat(n)),
    decreases n,
{
    if n >= 10 {
        lemma_dec_nat_digits(n / 10);
        let p = spec_dec_nat(n / 10);
        let s = spec_dec_nat(n);
        assert(s =~= p + seq![spec_digit_char((n % 10) as int)]);
        assert forall|i: int| 0 <= i < s.len() implies spec_digit_value(s[i]) >= 0 by {
            if i < p.len() {
                assert(s[i] == p[i]);
            }
        }
    }
}

/// The first character of a decimal rendering is a digit, never '-'.
proof fn lemma_dec_nat_first_char(n: nat)
    ensures
        spec_dec_nat(n).len() > 0,
        spec_dec_nat(n)[0] != '-',
    decreases n,
{
    if n >= 10 {
        lemma_dec_nat_first_char(n / 10);
    }
}

/// Reading the decimal rendering of `n` back as a numeral yields `n`.
proof fn lemma_dec_value_of_dec_nat(n: nat)
    ensures
        spec_dec_value(spec_dec_nat(n)) == n,
    decreases n,
{
    assert(spec_dec_value(Seq::<char>::empty()) == 0);
    if n < 10 {
        let s = spec_dec_nat(n);
        assert(s.drop_last() =~= Seq::<char>::empty());
        assert(s.last() == spec_digit_char(n as int));
        assert(spec_digit_value(spec_digit_char(n as int)) == n);
        assert(spec_dec_value(s) == spec_dec_value(s.drop_last()) * 10 + spec_digit_value(s.last()));
    } else {
        lemma_dec_value_of_dec_nat(n / 10);
        let p = spec_dec_nat(n / 10);
        let s = spec_dec_nat(n);
        assert(s.drop_last() =~= p);
        assert(s.last() == spec_digit_char((n % 10) as int));
        assert(spec_digit_value(spec_digit_char((n % 10) as int)) == n % 10);
        vstd::arithmetic::div_mod::lemma_fundamental_div_mod(n as int, 10);
    }
}

// ---------------------------------------------------------------------------
// Substring search
// ---------------------------------------------------------------------------
/// Whether the pattern `d` occurs in `s` starting at position `i`.
pub open spec fn spec_match_at(s: Seq<char>, d: Seq<char>, i: int) -> bool {
    0 <= i && i + d.len() <= s.len() && s.subrange(i, i + d.len() as int) == d
}

/// Whether the pattern `d` occurs anywhere in `s`.
pub open spec fn spec_contains(s: Seq<char>, d: Seq<char>) -> bool {
    exists|i: int| spec_match_at(s, d, i)
}

fn check_match(s: &str, d: &str, i: usize) -> (b: bool)
    requires
        i + d@.len() <= s@.len(),
    ensures
        b == spec_match_at(s@, d@, i as int),
{
    let n = s.unicode_len();
    let m = d.unicode_len();
    let mut j: usize = 0;
    while j < m
        invariant
            0 <= j <= m,
            m == d@.len(),
            n == s@.len(),
            i + m <= n,
            forall|k: int| 0 <= k < j ==> s@[i + k] == d@[k],
        decreases m - j,
    {
        if s.get_char(i + j) != d.get_char(j) {
            assert(s@.subrange(i as int, i + m) != d@) by {
                assert(s@.subrange(i as int, i + m)[j as int] == s@[i + j]);
            }
            return false;
        }
        j = j + 1;
    }
    assert(s@.subrange(i as int, i + m) =~= d@);
    true
}

/// Finds the leftmost occurrence of `d` in `s`, if any.
pub fn find_first(s: &str, d: &str) -> (r: Option<usize>)
    requires
        d@.len() >= 1,
    ensures
        match r {
            Some(i) => spec_match_at(s@, d@, i as int) && (forall|j: int|
                0 <= j < i ==> !spec_match_at(s@, d@, j)),
            None => !spec_contains(s@, d@),
        },
{
    let n = s.unicode_len();
    let m = d.unicode_len();
    if n < m {
        return None;
    }
    let bound = n - m;
    let mut i: usize = 0;
    while i <= bound
        invariant
            0 <= i <= bound + 1,
            bound == n - m,
            m <= n,
            n == s@.len(),
            m == d@.len(),
            m >= 1,
            forall|j: int| 0 <= j < i ==> !spec_match_at(s@, d@, j),
        decreases n - i,
    {
        if check_match(s, d, i) {
            return Some(i);
        }
        i = i + 1;
    }
    assert forall|j: int| 0 <= j implies !spec_match_at(s@, d@, j) by {
        if j < i {
        } else {
            assert(j + m > n);
        }
    }
    None
}

// ---------------------------------------------------------------------------
// Splitting and joining
// ---------------------------------------------------------------------------
/// Splits `s` on non-overlapping occurrences of `d`, scanning left to
/// right; yields at least one segment, and `seq![s]` when `d` does not
/// occur. Mirrors `str::split` for a non-empty pattern.
pub open spec fn spec_split(s: Seq<char>, d: Seq<char>) -> Seq<Seq<char>>
    decreases s.len(),
{
    if d.len() == 0 || s.len() < d.len() {
        seq![s]
    } else if s.take(d.len() as int) == d {
        seq![Seq::<char>::empty()] + spec_split(s.skip(d.len() as int), d)
    } else {
        let rest = spec_split(s.skip(1), d);
        seq![seq![s[0]] + rest[0]] + rest.skip(1)
    }
}

/// Joins the segments of `ts` with the delimiter `d` between consecutive
/// segments.
pub open spec fn spec_join(ts: Seq<Seq<char>>, d: Seq<char>) -> Seq<char>
    decreases ts.len(),
{
    if ts.len() == 0 {
        Seq::empty()
    } else if ts.len() == 1 {
        ts[0]
    } else {
        ts[0] + d + spec_join(ts.skip(1), d)
    }
}

/// A split yields at least one segment.
pub proof fn lemma_split_nonempty(s: Seq<char>, d: Seq<char>)
    ensures
        spec_split(s, d).len() >= 1,
    decreases s.len(),
{
    if !(d.len() == 0 || s.len() < d.len()) {
        if s.take(d.len() as int) == d {
            lemma_split_nonempty(s.skip(d.len() as int), d);
        } else {
            lemma_split_nonempty(s.skip(1), d);
        }
    }
}

/// Splitting at the leftmost occurrence of the delimiter: the first
/// segment is everything before it, and the remaining segments are the
/// split of everything after it.
pub proof fn lemma_split_at_first_match(s: Seq<char>, d: Seq<char>, i: int)
    requires
        d.len() >= 1,
        spec_match_at(s, d, i),
        forall|j: int| 0 <= j < i ==> !spec_match_at(s, d, j),
    ensures
        spec_split(s, d) == seq![s.take(i)] + spec_split(s.skip(i + d.len() as int), d),
    decreases i,
{
    lemma_split_nonempty(s.skip(1), d);
    if i == 0 {
        assert(s.take(d.len() as int) =~= d);
        assert(s.take(0) =~= Seq::<char>::empty());
        assert(spec_split(s, d) == seq![Seq::<char>::empty()] + spec_split(
            s.skip(d.len() as int),
            d,
        ));
    } else {
        assert(!spec_match_at(s, d, 0));
        assert(s.len() >= d.len());
        assert(s.take(d.len() as int) != d) by {
            if s.take(d.len() as int) == d {
                assert(s.subrange(0, d.len() as int) =~= s.take(d.len() as int));
            }
        }
        let t = s.skip(1);
        assert(spec_match_at(t, d, i - 1)) by {
            assert(t.subrange(i - 1, i - 1 + d.len()) =~= s.subrange(i, i + d.len() as int));
        }
        assert forall|j: int| 0 <= j < i - 1 implies !spec_match_at(t, d, j) by {
            if spec_match_at(t, d, j) {
                assert(s.subrange(j + 1, j + 1 + d.len()) =~= t.subrange(j, j + d.len() as int));
                assert(spec_match_at(s, d, j + 1));
            }
        }
        lemma_split_at_first_match(t, d, i - 1);
        let rest = spec_split(t, d);
        assert(rest[0] == t.take(i - 1));
        assert(seq![s[0]] + rest[0] =~= s.take(i));
        assert(rest.skip(1) == spec_split(t.skip(i - 1 + d.len()), d));
        assert(t.skip(i - 1 + d.len()) =~= s.skip(i + d.len() as int));
        assert(spec_split(s, d) =~= seq![s.take(i)] + spec_split(s.skip(i + d.len() as int), d));
    }
}

/// When the delimiter does not occur in `s`, the split is the single
/// segment `s`.
pub proof fn lemma_split_no_match(s: Seq<char>, d: Seq<char>)
    requires
        d.len() >= 1,
        !spec_contains(s, d),
    ensures
        spec_split(s, d) == seq![s],
    decreases s.len(),
{
    if s.len() >= d.len() {
        assert(s.take(d.len() as int) != d) by {
            if s.take(d.len() as int) == d {
                assert(s.subrange(0, d.len() as int) =~= s.take(d.len() as int));
                assert(spec_match_at(s, d, 0));
            }
        }
        let t = s.skip(1);
        assert(!spec_contains(t, d)) by {
            if spec_contains(t, d) {
                let j = choose|j: int| spec_match_at(t, d, j);
                assert(s.subrange(j + 1, j + 1 + d.len()) =~= t.subrange(j, j + d.len() as int));
                assert(spec_match_at(s, d, j + 1));
            }
        }
        lemma_split_no_match(t, d);
        let rest = spec_split(t, d);
        assert(rest[0] == t);
        assert(seq![s[0]] + t =~= s);
        assert(spec_split(s, d) =~= seq![s]);
    }
}

/// Splits a string on every occurrence of a non-empty delimiter.
pub fn split_str(s: &str, d: &str) -> (r: Vec<String>)
    requires
        d@.len() >= 1,
    ensures
        r.deep_view() == spec_split(s@, d@),
    decreases s@.len(),
{
    match find_first(s, d) {
        None => {
            proof {
                lemma_split_no_match(s@, d@);
            }
            let mut out: Vec<String> = Vec::new();
            out.push(s.to_owned());
            assert(out.deep_view() =~= spec_split(s@, d@));
            out
        },
        Some(i) => {
            let n = s.unicode_len();
            let m = d.unicode_len();
            let head = s.substring_char(0, i).to_owned();
            let tail = s.substring_char(i + m, n);
            proof {
                lemma_split_at_first_match(s@, d@, i as int);
                assert(tail@ =~= s@.skip(i + m));
            }
            let mut out = split_str(tail, d);
            out.insert(0, head);
            proof {
                assert(head@ =~= s@.take(i as int));
                assert(out.deep_view() =~= spec_split(s@, d@));
            }
            out
        },
    }
}

/// Joins the given strings with a delimiter between consecutive elements.
pub fn join_strs(ts: &Vec<String>, d: &str) -> (r: String)
    ensures
        r@ == spec_join(ts.deep_view(), d@),
{
    let n = ts.len();
    let mut out = String::new();
    if n == 0 {
        assert(out@ =~= spec_join(ts.deep_view(), d@));
        return out;
    }
    let mut i: usize = 0;
    while i < n
        invariant
            0 < n == ts.len(),
            0 <= i <= n,
            ts.deep_view().len() == n,
            i == 0 ==> out@ == Seq::<char>::empty(),
            i > 0 ==> out@ == spec_join(ts.deep_view().take(i as int), d@),
        decreases n - i,
    {
        if i > 0 {
            out.append(d);
        }
        out.append(ts[i].as_str());
        proof {
            assert(ts.deep_view()[i as int] == ts[i as int]@);
            if i == 0 {
                assert(ts.deep_view().take(1)[0] == ts.deep_view()[0]);
                assert(out@ == spec_join(ts.deep_view().take(1), d@));
            } else {
                lemma_join_step(ts.deep_view(), d@, i as int);
            }
        }
        i = i + 1;
    }
    proof {
        assert(ts.deep_view().take(n as int) =~= ts.deep_view());
    }
    out
}

/// Splitting a joined string recovers the original segments, for a
/// delimiter of one character, or of two distinct characters (so that no
/// occurrence can straddle a segment boundary), provided the delimiter
/// occurs in no segment. The empty segment list does not round-trip: it
/// joins to the empty string, which splits into one empty segment.
pub proof fn lemma_join_split_roundtrip(ts: Seq<Seq<char>>, d: Seq<char>)
    requires
        ts.len() >= 1,
        d.len() == 1 || (d.len() == 2 && d[0] != d[1]),
        forall|k: int| 0 <= k < ts.len() ==> !spec_contains(#[trigger] ts[k], d),
    ensures
        spec_split(spec_join(ts, d), d) == ts,
    decreases ts.len(),
{
    if ts.len() == 1 {
        lemma_split_no_match(ts[0], d);
        assert(spec_split(spec_join(ts, d), d) =~= ts);
    } else {
        let s = spec_join(ts, d);
        let t0 = ts[0];
        let rest = spec_join(ts.skip(1), d);
        assert(s == t0 + d + rest);
        let n0 = t0.len() as int;
        assert(spec_match_at(s, d, n0)) by {
            assert(s.subrange(n0, n0 + d.len() as int) =~= d);
        }
        assert forall|j: int| 0 <= j < n0 implies !spec_match_at(s, d, j) by {
            if spec_match_at(s, d, j) {
                if j + d.len() <= n0 {
                    assert(t0.subrange(j, j + d.len() as int) =~= s.subrange(
                        j,
                        j + d.len() as int,
                    ));
                    assert(spec_match_at(t0, d, j));
                } else {
                    // d has two distinct characters and the match straddles
                    // the boundary: its second character would be d[0].
                    assert(d.len() == 2 && j == n0 - 1);
                    assert(s.subrange(j, j + 2)[1] == s[n0]);
                    assert(s[n0] == d[0]);
                    assert(d[1] == d[0]);
                }
            }
        }
        lemma_split_at_first_match(s, d, n0);
        assert(s.take(n0) =~= t0);
        assert(s.skip(n0 + d.len() as int) =~= rest);
        lemma_join_split_roundtrip(ts.skip(1), d);
        assert(spec_split(s, d) =~= ts);
    }
}

/// Extending a join by one more segment appends one delimiter and that
/// segment.
proof fn lemma_join_step(ts: Seq<Seq<char>>, d: Seq<char>, i: int)
    requires
        1 <= i < ts.len(),
    ensures
        spec_join(ts.take(i + 1), d) == spec_join(ts.take(i), d) + d + ts[i],
    decreases i,
{
    if i == 1 {
        let t2 = ts.take(2);
        assert(t2.skip(1) =~= seq![ts[1]]);
        assert(spec_join(t2, d) == t2[0] + d + spec_join(t2.skip(1), d));
        assert(ts.take(1) =~= seq![ts[0]]);
    } else {
        let a = ts.take(i + 1);
        let b = ts.take(i);
        assert(a.len() >= 2);
        assert(spec_join(a, d) == a[0] + d + spec_join(a.skip(1), d));
        assert(spec_join(b, d) == b[0] + d + spec_join(b.skip(1), d));
        assert(a.skip(1) =~= ts.skip(1).take(i));
        assert(b.skip(1) =~= ts.skip(1).take(i - 1));
        lemma_join_step(ts.skip(1), d, i - 1);
        assert(ts.skip(1)[i - 1] == ts[i]);
        assert(spec_join(ts.skip(1).take(i), d) == spec_join(ts.skip(1).take(i - 1), d) + d
            + ts[i]);
        assert(spec_join(a, d) =~= spec_join(b, d) + d + ts[i]);
    }
}

} // verus!
