//! Ranking tasks by the task store's score.
//!
//! A score is a number of a document: whole, or written with a
//! fraction or an exponent. To put scores in order, each gets a rank,
//! a whole number that grows with the score. The rank is made of the
//! place of the score's first digit and of its first twenty digits,
//! which is all that the task store's numbers have.

use vstd::prelude::*;
use crate::document::{Numeral, NumeralView};
use crate::text::{all_digits, decimal_value, digit_value, is_digit, lemma_decimal_value_prefix};

verus! {

/// Ten to the power of `n`.
pub open spec fn pow10(n: nat) -> nat
    decreases n,
{
    if n == 0 {
        1
    } else {
        10 * pow10((n - 1) as nat)
    }
}

/// The number of decimal digits of `m`; zero has none.
pub open spec fn digits_count(m: nat) -> nat
    decreases m,
{
    if m == 0 {
        0
    } else {
        1 + digits_count(m / 10)
    }
}

/// How far the place of the first digit may lie from the decimal
/// point, either way.
pub open spec fn lead_limit() -> int {
    1000
}

/// The place of the first digit of `m` times ten to the power of `e`,
/// counted from the decimal point.
pub open spec fn lead(m: nat, e: int) -> int {
    e + digits_count(m)
}

/// The digits of `m`, padded with zeros to twenty.
pub open spec fn padded(m: nat) -> nat {
    m * pow10((20 - digits_count(m)) as nat)
}

/// The rank of the number `m` times ten to the power of `e`, negated
/// where `negative` says so, for `m` below ten to the twentieth and a
/// first digit within `lead_limit` places of the point. Zero has the
/// rank zero; any other number is ranked by the place of its first
/// digit and then by its digits, padded to twenty.
pub open spec fn key(negative: bool, m: nat, e: int) -> Option<int> {
    if m == 0 {
        Some(0)
    } else if m < pow10(20) && -lead_limit() < lead(m, e) < lead_limit() {
        let magnitude = (lead(m, e) + lead_limit()) * pow10(20) + padded(m);
        Some(
            if negative {
                -magnitude
            } else {
                magnitude
            },
        )
    } else {
        None
    }
}

/// The number `m` times ten to the power of `e`, negated where
/// `negative` says so, in units of ten to the power of `unit`, which is
/// no larger than `e`.
pub open spec fn in_units(negative: bool, m: nat, e: int, unit: int) -> int {
    let magnitude = m * pow10((e - unit) as nat);
    if negative {
        -magnitude
    } else {
        magnitude as int
    }
}

/// Whether the first of two numbers is the smaller: both are taken in
/// units of the smaller of their powers of ten, where they are whole.
pub open spec fn number_less(n1: bool, m1: nat, e1: int, n2: bool, m2: nat, e2: int) -> bool {
    let unit = if e1 <= e2 {
        e1
    } else {
        e2
    };
    in_units(n1, m1, e1, unit) < in_units(n2, m2, e2, unit)
}

/// Where the run of digits that begins at `from` ends.
pub open spec fn digit_run(s: Seq<char>, from: int) -> int
    decreases s.len() - from,
{
    if 0 <= from < s.len() && is_digit(s[from]) {
        digit_run(s, from + 1)
    } else {
        from
    }
}

/// The places at which the parts of a decimal text begin and end.
pub struct Layout {
    /// Where the digits before the point begin: after the sign.
    pub start: int,
    /// Where they end.
    pub int_end: int,
    /// Where the digits after the point begin.
    pub frac_start: int,
    /// Where they end.
    pub frac_end: int,
    /// Whether an exponent follows.
    pub has_exp: bool,
    /// Whether the exponent is negative.
    pub exp_negative: bool,
    /// Where the digits of the exponent begin.
    pub exp_start: int,
    /// Where they end.
    pub exp_end: int,
}

/// The layout of `s`, read from the left: a minus sign or none, digits,
/// a point and digits or neither, an `e` with a sign or none and
/// digits, or none of that.
pub open spec fn layout(s: Seq<char>) -> Layout {
    let start: int = if s.len() > 0 && s[0] == '-' {
        1
    } else {
        0
    };
    let int_end = digit_run(s, start);
    let frac_start = if int_end < s.len() && s[int_end] == '.' {
        int_end + 1
    } else {
        int_end
    };
    let frac_end = digit_run(s, frac_start);
    let has_exp = frac_end < s.len() && (s[frac_end] == 'e' || s[frac_end] == 'E');
    let signed = has_exp && frac_end + 1 < s.len() && (s[frac_end + 1] == '-' || s[frac_end + 1]
        == '+');
    let exp_start = if !has_exp {
        frac_end
    } else if signed {
        frac_end + 2
    } else {
        frac_end + 1
    };
    Layout {
        start,
        int_end,
        frac_start,
        frac_end,
        has_exp,
        exp_negative: signed && s[frac_end + 1] == '-',
        exp_start,
        exp_end: digit_run(s, exp_start),
    }
}

/// Whether `s` is a decimal text that can be ranked: at most 64
/// characters, digits before the point, digits after a point if there
/// is one, one to four digits in an exponent if there is one, and
/// nothing after that.
pub open spec fn well_laid(s: Seq<char>) -> bool {
    let l = layout(s);
    &&& s.len() <= 64
    &&& l.int_end > l.start
    &&& (l.frac_start > l.int_end ==> l.frac_end > l.frac_start)
    &&& (l.has_exp ==> 1 <= l.exp_end - l.exp_start <= 4)
    &&& l.exp_end == s.len()
}

/// The digits of a decimal text, those before and after the point in
/// one row.
pub open spec fn mantissa_digits(s: Seq<char>) -> Seq<char> {
    let l = layout(s);
    s.subrange(l.start, l.int_end) + s.subrange(l.frac_start, l.frac_end)
}

/// The power of ten by which the row of digits is to be multiplied.
pub open spec fn exponent(s: Seq<char>) -> int {
    let l = layout(s);
    let written = decimal_value(s.subrange(l.exp_start, l.exp_end)) as int;
    (if l.exp_negative {
        -written
    } else {
        written
    }) - (l.frac_end - l.frac_start)
}

/// The rank of a score. A whole number is ranked as it is, a decimal
/// text by its digits and its exponent. A text that is no decimal text,
/// or has more digits or a larger exponent than fits, has no rank.
pub open spec fn rank_of(n: NumeralView) -> Option<int> {
    match n {
        NumeralView::Unsigned(u) => key(false, u as nat, 0),
        NumeralView::Negative(i) => key(i < 0, (if i < 0 {
            -i
        } else {
            i as int
        }) as nat, 0),
        NumeralView::Real(s) => if well_laid(s) {
            key(layout(s).start == 1, decimal_value(mantissa_digits(s)), exponent(s))
        } else {
            None
        },
    }
}

/// The rank that goes for a score without one: below every rank.
pub open spec fn unranked() -> int {
    -3000 * pow10(20)
}

/// The place of a score in the order: its rank, or the place below all
/// ranks where it has none.
pub open spec fn score(n: NumeralView) -> int {
    match rank_of(n) {
        Some(k) => k,
        None => unranked(),
    }
}

/// Ten to the twentieth.
pub proof fn lemma_pow10_20()
    ensures
        pow10(20) == 100_000_000_000_000_000_000,
{
    reveal_with_fuel(pow10, 21);
}

/// Powers of ten multiply.
pub proof fn lemma_pow10_add(a: nat, b: nat)
    ensures
        pow10(a + b) == pow10(a) * pow10(b),
    decreases a,
{
    if a == 0 {
        assert(pow10(a) == 1);
        assert(a + b == b);
        assert(1 * pow10(b) == pow10(b));
    } else {
        lemma_pow10_add((a - 1) as nat, b);
        let x = pow10((a - 1) as nat);
        let y = pow10(b);
        assert(((a - 1) as nat) + b == (a + b - 1) as nat);
        assert(pow10(a + b) == 10 * pow10((a + b - 1) as nat));
        assert(pow10(a) == 10 * x);
        assert(10 * (x * y) == (10 * x) * y) by (nonlinear_arith);
    }
}

/// A number lies between the powers of ten that its count of digits
/// says.
pub proof fn lemma_digits_count(m: nat)
    requires
        m > 0,
    ensures
        digits_count(m) >= 1,
        pow10((digits_count(m) - 1) as nat) <= m < pow10(digits_count(m)),
    decreases m,
{
    if m < 10 {
        assert(digits_count(m / 10) == 0);
        reveal_with_fuel(pow10, 2);
    } else {
        lemma_digits_count(m / 10);
        let d = digits_count(m / 10);
        assert(digits_count(m) == d + 1);
        assert(pow10(d) == 10 * pow10((d - 1) as nat));
        assert(pow10(d + 1) == 10 * pow10(d));
    }
}

/// A number below a power of ten has no more digits than that power
/// says.
pub proof fn lemma_digits_count_bound(m: nat, n: nat)
    requires
        m < pow10(n),
    ensures
        digits_count(m) <= n,
    decreases n,
{
    if m == 0 {
    } else if n == 0 {
    } else {
        assert(pow10(n) == 10 * pow10((n - 1) as nat));
        lemma_digits_count_bound(m / 10, (n - 1) as nat);
    }
}

/// Every rank lies above the place that goes for a missing one.
pub proof fn lemma_rank_above_unranked(n: NumeralView)
    ensures
        rank_of(n) matches Some(k) ==> unranked() < k < -unranked(),
{
    lemma_pow10_20();
    match rank_of(n) {
        Some(k) => {
            let (negative, m, e): (bool, nat, int) = match n {
                NumeralView::Unsigned(u) => (false, u as nat, 0int),
                NumeralView::Negative(i) => (i < 0, (if i < 0 {
                    -i
                } else {
                    i as int
                }) as nat, 0int),
                NumeralView::Real(s) => (
                    layout(s).start == 1,
                    decimal_value(mantissa_digits(s)),
                    exponent(s),
                ),
            };
            assert(key(negative, m, e) == Some(k));
            if m > 0 {
                lemma_scaled_bound(m);
                let len = digits_count(m);
                let lead = e + len;
                let p = pow10(20);
                assert(0 < (lead + lead_limit()) < 2000);
                assert((lead + lead_limit()) * p <= 1999 * p) by (nonlinear_arith)
                    requires
                        (lead + lead_limit()) <= 1999,
                        p >= 0,
                ;
                assert((lead + lead_limit()) * p >= 0) by (nonlinear_arith)
                    requires
                        (lead + lead_limit()) >= 0,
                        p >= 0,
                ;
            }
        },
        None => {},
    }
}

/// The digits of a number below ten to the twentieth, padded to
/// twenty, are a number below ten to the twentieth and no less than
/// ten to the nineteenth.
pub proof fn lemma_scaled_bound(m: nat)
    requires
        0 < m < pow10(20),
    ensures
        digits_count(m) <= 20,
        pow10(19) <= padded(m) < pow10(20),
{
    lemma_digits_count(m);
    lemma_digits_count_bound(m, 20);
    let len = digits_count(m);
    let rest = (20 - len) as nat;
    lemma_pow10_add(len, rest);
    lemma_pow10_add((len - 1) as nat, rest);
    let q = pow10(rest);
    lemma_pow10_positive(rest);
    assert(m * q < pow10(len) * q) by (nonlinear_arith)
        requires
            m < pow10(len),
            q > 0,
    ;
    assert(pow10((len - 1) as nat) * q <= m * q) by (nonlinear_arith)
        requires
            pow10((len - 1) as nat) <= m,
            q > 0,
    ;
}

/// A power of ten is positive.
pub proof fn lemma_pow10_positive(n: nat)
    ensures
        pow10(n) > 0,
    decreases n,
{
    if n > 0 {
        lemma_pow10_positive((n - 1) as nat);
    }
}

/// Powers of ten grow with the exponent.
pub proof fn lemma_pow10_monotone(a: nat, b: nat)
    requires
        a <= b,
    ensures
        pow10(a) <= pow10(b),
{
    lemma_pow10_add(a, (b - a) as nat);
    lemma_pow10_positive((b - a) as nat);
    lemma_pow10_positive(a);
    let x = pow10(a);
    let y = pow10((b - a) as nat);
    assert(x <= x * y) by (nonlinear_arith)
        requires
            x > 0,
            y >= 1,
    ;
}

/// A number between two neighbouring powers of ten has as many digits
/// as the larger one says.
pub proof fn lemma_digits_count_unique(m: nat, len: nat)
    requires
        len >= 1,
        pow10((len - 1) as nat) <= m < pow10(len),
    ensures
        digits_count(m) == len,
{
    lemma_pow10_positive((len - 1) as nat);
    lemma_digits_count(m);
    let d = digits_count(m);
    if d < len {
        lemma_pow10_monotone(d, (len - 1) as nat);
    } else if d > len {
        lemma_pow10_monotone(len, (d - 1) as nat);
    }
}

/// The rank of the number `m` times ten to the power of `e`.
#[verifier::rlimit(40)]
fn make_key(negative: bool, m: u128, e: i64) -> (r: Option<i128>)
    requires
        -100_000 < e < 100_000,
    ensures
        key(negative, m as nat, e as int) == match r {
            Some(k) => Some(k as int),
            None => None,
        },
{
    proof {
        lemma_pow10_20();
    }
    if m == 0 {
        return Some(0);
    }
    if m >= 100_000_000_000_000_000_000 {
        return None;
    }
    let mut len: i64 = 0;
    let mut p: u128 = 1;
    while p <= m
        invariant
            0 <= len <= 20,
            p == pow10(len as nat),
            len > 0 ==> pow10((len - 1) as nat) <= m,
            0 < m < 100_000_000_000_000_000_000,
            pow10(20) == 100_000_000_000_000_000_000,
        decreases 21 - len,
    {
        proof {
            if len >= 20 {
                lemma_pow10_monotone(20, len as nat);
            }
        }
        p = p * 10;
        len = len + 1;
    }
    proof {
        lemma_digits_count_unique(m as nat, len as nat);
        lemma_scaled_bound(m as nat);
    }
    let lead = e + len;
    if lead <= -1000 || lead >= 1000 {
        return None;
    }
    let mut q: u128 = 1;
    let mut j: i64 = len;
    while j < 20
        invariant
            0 <= len <= j <= 20,
            q == pow10((j - len) as nat),
            q <= pow10(20),
            pow10(20) == 100_000_000_000_000_000_000,
        decreases 20 - j,
    {
        proof {
            lemma_pow10_monotone((j + 1 - len) as nat, 20);
        }
        q = q * 10;
        j = j + 1;
    }
    let scaled = m * q;
    let high: i128 = (lead + 1000) as i128;
    assert(0 < high < 2000);
    assert(high * 100_000_000_000_000_000_000 <= 1999 * 100_000_000_000_000_000_000)
        by (nonlinear_arith)
        requires
            0 < high <= 1999,
    ;
    assert(high * 100_000_000_000_000_000_000 >= 0) by (nonlinear_arith)
        requires
            0 < high,
    ;
    let magnitude: i128 = high * 100_000_000_000_000_000_000 + scaled as i128;
    Some(
        if negative {
            -magnitude
        } else {
            magnitude
        },
    )
}

/// Finds where the run of digits that begins at `from` ends.
fn scan(s: &str, n: usize, from: usize) -> (end: usize)
    requires
        n == s@.len(),
        from <= n,
    ensures
        end == digit_run(s@, from as int),
        from <= end <= n,
        end == n || !is_digit(s@[end as int]),
        forall|i: int| from <= i < end ==> is_digit(#[trigger] s@[i]),
{
    let mut end = from;
    while end < n
        invariant
            from <= end <= n,
            n == s@.len(),
            digit_run(s@, from as int) == digit_run(s@, end as int),
            forall|i: int| from <= i < end ==> is_digit(#[trigger] s@[i]),
        decreases n - end,
    {
        match digit_value(s.get_char(end)) {
            Some(_) => {
                end += 1;
            },
            None => {
                return end;
            },
        }
    }
    end
}

/// Reads on in a row of digits: the number that the digits read so
/// far write is `acc`, and those of `s` from `from` to `to` follow.
/// `None` says that the number reaches ten to the twentieth.
fn accumulate(s: &str, from: usize, to: usize, acc: u128, Ghost(before): Ghost<Seq<char>>) -> (r:
    Option<u128>)
    requires
        from <= to <= s@.len(),
        forall|i: int| from <= i < to ==> is_digit(#[trigger] s@[i]),
        all_digits(before),
        acc == decimal_value(before),
        acc < 100_000_000_000_000_000_000,
    ensures
        all_digits(before + s@.subrange(from as int, to as int)),
        match r {
            Some(v) => v == decimal_value(before + s@.subrange(from as int, to as int)) && v
                < 100_000_000_000_000_000_000,
            None => decimal_value(before + s@.subrange(from as int, to as int))
                >= 100_000_000_000_000_000_000,
        },
{
    let ghost all = before + s@.subrange(from as int, to as int);
    let ghost base = before.len() as int;
    assert forall|i: int| 0 <= i < all.len() implies is_digit(#[trigger] all[i]) by {
        if i >= base {
            assert(all[i] == s@[from + (i - base)]);
        } else {
            assert(all[i] == before[i]);
        }
    }
    let mut acc = acc;
    let mut i = from;
    assert(all.take(base) =~= before);
    while i < to
        invariant
            from <= i <= to <= s@.len(),
            all == before + s@.subrange(from as int, to as int),
            base == before.len(),
            all_digits(all),
            acc == decimal_value(all.take(base + (i - from))),
            acc < 100_000_000_000_000_000_000,
        decreases to - i,
    {
        let c = s.get_char(i);
        let ghost k = base + (i - from);
        proof {
            assert(all[k] == c);
            assert(all.take(k + 1).drop_last() =~= all.take(k));
            assert(all.take(k + 1).last() == c);
            assert(is_digit(all[k]));
        }
        let d = match digit_value(c) {
            Some(d) => d,
            None => {
                return None;
            },
        };
        let next: u128 = acc * 10 + d as u128;
        if next >= 100_000_000_000_000_000_000 {
            proof {
                lemma_decimal_value_prefix(all, k + 1);
            }
            return None;
        }
        acc = next;
        i += 1;
    }
    assert(all.take(base + (to - from)) =~= all);
    Some(acc)
}

impl Numeral {
    /// The rank of this score, if it has one.
    pub fn rank(&self) -> (r: Option<i128>)
        ensures
            rank_of(self@) == match r {
                Some(k) => Some(k as int),
                None => None,
            },
    {
        match self {
            Numeral::Unsigned(u) => make_key(false, *u as u128, 0),
            Numeral::Negative(i) => {
                if *i < 0 {
                    make_key(true, (-(*i as i128)) as u128, 0)
                } else {
                    make_key(false, *i as u128, 0)
                }
            },
            Numeral::Real(text) => rank_text(text.as_str()),
        }
    }

    /// The place of this score in the order: its rank, or the place
    /// below all ranks.
    pub fn score(&self) -> (r: i128)
        ensures
            r == score(self@),
    {
        proof {
            lemma_pow10_20();
        }
        match self.rank() {
            Some(k) => k,
            None => -300_000_000_000_000_000_000_000,
        }
    }
}

/// The places at which the parts of a decimal text begin and end, as
/// they were found.
struct Places {
    negative: bool,
    start: usize,
    int_end: usize,
    frac_start: usize,
    frac_end: usize,
    has_exp: bool,
    exp_negative: bool,
    exp_start: usize,
    exp_end: usize,
}

/// Finds the parts of a decimal text.
#[verifier::rlimit(40)]
fn places(s: &str, n: usize) -> (p: Places)
    requires
        n == s@.len(),
        n <= 64,
    ensures
        p.negative == (layout(s@).start == 1),
        p.start == layout(s@).start,
        p.int_end == layout(s@).int_end,
        p.frac_start == layout(s@).frac_start,
        p.frac_end == layout(s@).frac_end,
        p.has_exp == layout(s@).has_exp,
        p.exp_negative == layout(s@).exp_negative,
        p.exp_start == layout(s@).exp_start,
        p.exp_end == layout(s@).exp_end,
        p.start <= p.int_end <= p.frac_start <= p.frac_end <= p.exp_start <= p.exp_end <= n,
        !p.has_exp ==> p.exp_end == p.exp_start,
        forall|i: int| p.start <= i < p.int_end ==> is_digit(#[trigger] s@[i]),
        forall|i: int| p.frac_start <= i < p.frac_end ==> is_digit(#[trigger] s@[i]),
        forall|i: int| p.exp_start <= i < p.exp_end ==> is_digit(#[trigger] s@[i]),
{
    let negative = n > 0 && s.get_char(0) == '-';
    let start: usize = if negative {
        1
    } else {
        0
    };
    let int_end = scan(s, n, start);
    let frac_start = if int_end < n && s.get_char(int_end) == '.' {
        int_end + 1
    } else {
        int_end
    };
    let frac_end = scan(s, n, frac_start);
    let has_exp = frac_end < n && (s.get_char(frac_end) == 'e' || s.get_char(frac_end) == 'E');
    let signed = has_exp && frac_end + 1 < n && (s.get_char(frac_end + 1) == '-' || s.get_char(
        frac_end + 1,
    ) == '+');
    let exp_negative = signed && s.get_char(frac_end + 1) == '-';
    let exp_start = if !has_exp {
        frac_end
    } else if signed {
        frac_end + 2
    } else {
        frac_end + 1
    };
    let exp_end = scan(s, n, exp_start);
    Places {
        negative,
        start,
        int_end,
        frac_start,
        frac_end,
        has_exp,
        exp_negative,
        exp_start,
        exp_end,
    }
}

/// Reads the row of digits of a decimal text, those before and after
/// the point. `None` says that they write a number that reaches ten to
/// the twentieth.
fn mantissa(s: &str, p: &Places) -> (r: Option<u128>)
    requires
        p.start == layout(s@).start,
        p.int_end == layout(s@).int_end,
        p.frac_start == layout(s@).frac_start,
        p.frac_end == layout(s@).frac_end,
        p.start <= p.int_end <= p.frac_start <= p.frac_end <= s@.len(),
        forall|i: int| p.start <= i < p.int_end ==> is_digit(#[trigger] s@[i]),
        forall|i: int| p.frac_start <= i < p.frac_end ==> is_digit(#[trigger] s@[i]),
    ensures
        match r {
            Some(v) => v == decimal_value(mantissa_digits(s@)) && v < 100_000_000_000_000_000_000,
            None => decimal_value(mantissa_digits(s@)) >= 100_000_000_000_000_000_000,
        },
{
    let ghost none = Seq::<char>::empty();
    let ghost int_digits = s@.subrange(p.start as int, p.int_end as int);
    assert(none + int_digits =~= int_digits);
    let whole = match accumulate(s, p.start, p.int_end, 0, Ghost(none)) {
        Some(v) => v,
        None => {
            proof {
                let all = mantissa_digits(s@);
                assert(all_digits(all)) by {
                    assert forall|i: int| 0 <= i < all.len() implies is_digit(#[trigger] all[i]) by {
                        if i < int_digits.len() {
                            assert(all[i] == s@[p.start + i]);
                        } else {
                            assert(all[i] == s@[p.frac_start + (i - int_digits.len())]);
                        }
                    }
                }
                lemma_decimal_value_prefix(all, int_digits.len() as int);
                assert(all.take(int_digits.len() as int) =~= int_digits);
            }
            return None;
        },
    };
    accumulate(s, p.frac_start, p.frac_end, whole, Ghost(int_digits))
}

/// Reads the exponent that a decimal text writes, without the shift
/// for the digits after the point.
fn written_exponent(s: &str, p: &Places) -> (r: i64)
    requires
        p.exp_start == layout(s@).exp_start,
        p.exp_end == layout(s@).exp_end,
        p.exp_negative == layout(s@).exp_negative,
        p.exp_start <= p.exp_end <= s@.len(),
        p.exp_end - p.exp_start <= 4,
        forall|i: int| p.exp_start <= i < p.exp_end ==> is_digit(#[trigger] s@[i]),
    ensures
        -10000 < r < 10000,
        r == if layout(s@).exp_negative {
            -(decimal_value(s@.subrange(p.exp_start as int, p.exp_end as int)) as int)
        } else {
            decimal_value(s@.subrange(p.exp_start as int, p.exp_end as int)) as int
        },
{
    let ghost none = Seq::<char>::empty();
    let ghost digits = s@.subrange(p.exp_start as int, p.exp_end as int);
    proof {
        assert(none + digits =~= digits);
    }
    let written = accumulate(s, p.exp_start, p.exp_end, 0, Ghost(none));
    proof {
        lemma_short_value(digits);
    }
    match written {
        Some(v) => {
            if p.exp_negative {
                -(v as i64)
            } else {
                v as i64
            }
        },
        None => 0,
    }
}

/// The rank of a decimal text, if it has one.
#[verifier::rlimit(40)]
fn rank_text(s: &str) -> (r: Option<i128>)
    ensures
        rank_of(NumeralView::Real(s@)) == match r {
            Some(k) => Some(k as int),
            None => None,
        },
{
    let n = s.unicode_len();
    if n > 64 {
        return None;
    }
    let p = places(s, n);
    if p.int_end == p.start || (p.frac_start > p.int_end && p.frac_end == p.frac_start) || (
    p.has_exp && (p.exp_end == p.exp_start || p.exp_end - p.exp_start > 4)) || p.exp_end != n {
        return None;
    }
    assert(well_laid(s@));
    assert(p.exp_end - p.exp_start <= 4);
    let m = match mantissa(s, &p) {
        Some(v) => v,
        None => {
            proof {
                lemma_key_none(p.negative, decimal_value(mantissa_digits(s@)), exponent(s@));
            }
            return None;
        },
    };
    let written = written_exponent(s, &p);
    let e: i64 = written - (p.frac_end - p.frac_start) as i64;
    assert(e == exponent(s@));
    make_key(p.negative, m, e)
}

/// A number that reaches ten to the twentieth has no rank.
pub proof fn lemma_key_none(negative: bool, m: nat, e: int)
    requires
        m >= 100_000_000_000_000_000_000,
    ensures
        key(negative, m, e) is None,
{
    lemma_pow10_20();
}

/// At most four digits write a number below ten thousand.
pub proof fn lemma_short_value(digits: Seq<char>)
    requires
        all_digits(digits),
        digits.len() <= 4,
    ensures
        decimal_value(digits) < 10000,
    decreases digits.len(),
{
    if digits.len() > 0 {
        let front = digits.drop_last();
        assert forall|i: int| 0 <= i < front.len() implies is_digit(#[trigger] front[i]) by {
            assert(front[i] == digits[i]);
        }
        lemma_short_value_by_length(digits);
    }
    lemma_pow10_monotone(digits.len(), 4);
    reveal_with_fuel(pow10, 5);
}

/// So many digits write a number below ten to that power.
pub proof fn lemma_short_value_by_length(digits: Seq<char>)
    requires
        all_digits(digits),
    ensures
        decimal_value(digits) < pow10(digits.len()),
    decreases digits.len(),
{
    if digits.len() > 0 {
        let front = digits.drop_last();
        assert forall|i: int| 0 <= i < front.len() implies is_digit(#[trigger] front[i]) by {
            assert(front[i] == digits[i]);
        }
        lemma_short_value_by_length(front);
        assert(is_digit(digits[digits.len() - 1]));
    }
}

/// A number in units of a power of ten, times ten to the twentieth,
/// is its padded digits times the power of ten that the place of its
/// first digit stands above the unit.
pub proof fn lemma_units_by_lead(m: nat, e: int, unit: int)
    requires
        0 < m < pow10(20),
        unit <= e,
    ensures
        lead(m, e) - unit >= 1,
        m * pow10((e - unit) as nat) * pow10(20) == padded(m) * pow10((lead(m, e) - unit) as nat),
{
    lemma_scaled_bound(m);
    lemma_digits_count(m);
    let len = digits_count(m);
    let up = (e - unit) as nat;
    let rest = (20 - len) as nat;
    lemma_pow10_add(up, 20);
    lemma_pow10_add(rest, up + len);
    assert(rest + (up + len) == up + 20);
    let x = pow10(up);
    let y = pow10(20);
    let a = pow10(rest);
    let b = pow10(up + len);
    assert(x * y == a * b);
    assert(m * x * y == (m * a) * b) by (nonlinear_arith)
        requires
            x * y == a * b,
    ;
    assert((lead(m, e) - unit) as nat == up + len);
}

/// Of two numbers above zero, the one whose first digit stands lower
/// is the smaller, and has the smaller rank.
#[verifier::rlimit(40)]
pub proof fn lemma_lower_lead(m1: nat, e1: int, m2: nat, e2: int, unit: int)
    requires
        0 < m1 < pow10(20),
        0 < m2 < pow10(20),
        unit <= e1,
        unit <= e2,
        lead(m1, e1) < lead(m2, e2),
    ensures
        m1 * pow10((e1 - unit) as nat) < m2 * pow10((e2 - unit) as nat),
        (lead(m1, e1) + lead_limit()) * pow10(20) + padded(m1) < (lead(m2, e2) + lead_limit())
            * pow10(20) + padded(m2),
{
    lemma_units_by_lead(m1, e1, unit);
    lemma_units_by_lead(m2, e2, unit);
    lemma_scaled_bound(m1);
    lemma_scaled_bound(m2);
    let d1 = (lead(m1, e1) - unit) as nat;
    let d2 = (lead(m2, e2) - unit) as nat;
    let p = pow10(20);
    let s1 = padded(m1);
    let s2 = padded(m2);
    let v1 = m1 * pow10((e1 - unit) as nat);
    let v2 = m2 * pow10((e2 - unit) as nat);
    lemma_pow10_positive(d1);
    lemma_pow10_positive(20);
    lemma_pow10_monotone(d1 + 1, d2);
    lemma_pow10_add(19, d1 + 1);
    lemma_pow10_add(20, d1);
    let q1 = pow10(d1);
    let q2 = pow10(d2);
    let r = pow10(d1 + 1);
    let n = pow10(19);
    assert(s1 * q1 < p * q1) by (nonlinear_arith)
        requires
            s1 < p,
            q1 > 0,
    ;
    assert(p * q1 == n * r);
    assert(n * r <= n * q2) by (nonlinear_arith)
        requires
            r <= q2,
            n >= 0,
    ;
    assert(n * q2 <= s2 * q2) by (nonlinear_arith)
        requires
            n <= s2,
            q2 >= 0,
    ;
    assert(v1 * p < v2 * p);
    assert(v1 < v2) by (nonlinear_arith)
        requires
            v1 * p < v2 * p,
            p > 0,
    ;
    let l1 = lead(m1, e1) + lead_limit();
    let l2 = lead(m2, e2) + lead_limit();
    assert((l1 + 1) * p <= l2 * p) by (nonlinear_arith)
        requires
            l1 + 1 <= l2,
            p > 0,
    ;
    assert((l1 + 1) * p == l1 * p + p) by (nonlinear_arith);
}

/// Of two numbers above zero whose first digits stand in one place,
/// the one with the smaller digits is the smaller, and has the smaller
/// rank.
pub proof fn lemma_same_lead(m1: nat, e1: int, m2: nat, e2: int, unit: int)
    requires
        0 < m1 < pow10(20),
        0 < m2 < pow10(20),
        unit <= e1,
        unit <= e2,
        lead(m1, e1) == lead(m2, e2),
    ensures
        m1 * pow10((e1 - unit) as nat) < m2 * pow10((e2 - unit) as nat) <==> padded(m1) < padded(
            m2,
        ),
        m1 * pow10((e1 - unit) as nat) == m2 * pow10((e2 - unit) as nat) <==> padded(m1)
            == padded(m2),
{
    lemma_units_by_lead(m1, e1, unit);
    lemma_units_by_lead(m2, e2, unit);
    let d = (lead(m1, e1) - unit) as nat;
    let p = pow10(20);
    let q = pow10(d);
    let s1 = padded(m1);
    let s2 = padded(m2);
    let v1 = m1 * pow10((e1 - unit) as nat);
    let v2 = m2 * pow10((e2 - unit) as nat);
    lemma_pow10_positive(d);
    lemma_pow10_positive(20);
    assert(v1 * p == s1 * q);
    assert(v2 * p == s2 * q);
    assert((v1 < v2) <==> (s1 < s2)) by (nonlinear_arith)
        requires
            v1 * p == s1 * q,
            v2 * p == s2 * q,
            p > 0,
            q > 0,
    ;
    assert((v1 == v2) <==> (s1 == s2)) by (nonlinear_arith)
        requires
            v1 * p == s1 * q,
            v2 * p == s2 * q,
            p > 0,
            q > 0,
    ;
}

/// Ranks order numbers as the numbers are ordered: of two numbers that
/// have a rank, the smaller has the smaller rank, and equal numbers
/// have one rank.
#[verifier::rlimit(40)]
pub proof fn lemma_key_order(n1: bool, m1: nat, e1: int, n2: bool, m2: nat, e2: int)
    requires
        key(n1, m1, e1) is Some,
        key(n2, m2, e2) is Some,
    ensures
        key(n1, m1, e1)->0 < key(n2, m2, e2)->0 <==> number_less(n1, m1, e1, n2, m2, e2),
        key(n1, m1, e1)->0 == key(n2, m2, e2)->0 <==> !number_less(n1, m1, e1, n2, m2, e2)
            && !number_less(n2, m2, e2, n1, m1, e1),
{
    let unit = if e1 <= e2 {
        e1
    } else {
        e2
    };
    let p = pow10(20);
    lemma_pow10_positive(20);
    lemma_pow10_positive((e1 - unit) as nat);
    lemma_pow10_positive((e2 - unit) as nat);
    let v1 = m1 * pow10((e1 - unit) as nat);
    let v2 = m2 * pow10((e2 - unit) as nat);
    let x1 = pow10((e1 - unit) as nat);
    let x2 = pow10((e2 - unit) as nat);
    assert(m1 > 0 ==> v1 > 0) by (nonlinear_arith)
        requires
            v1 == m1 * x1,
            x1 > 0,
    ;
    assert(m2 > 0 ==> v2 > 0) by (nonlinear_arith)
        requires
            v2 == m2 * x2,
            x2 > 0,
    ;
    assert(m1 == 0 ==> v1 == 0);
    assert(m2 == 0 ==> v2 == 0);
    if m1 > 0 {
        lemma_magnitude_positive(m1, e1);
    }
    if m2 > 0 {
        lemma_magnitude_positive(m2, e2);
    }
    if m1 > 0 && m2 > 0 {
        if lead(m1, e1) < lead(m2, e2) {
            lemma_lower_lead(m1, e1, m2, e2, unit);
        } else if lead(m2, e2) < lead(m1, e1) {
            lemma_lower_lead(m2, e2, m1, e1, unit);
        } else {
            lemma_same_lead(m1, e1, m2, e2, unit);
        }
    }
}

/// The rank of a number above zero is above zero.
pub proof fn lemma_magnitude_positive(m: nat, e: int)
    requires
        0 < m < pow10(20),
        -lead_limit() < lead(m, e) < lead_limit(),
    ensures
        (lead(m, e) + lead_limit()) * pow10(20) + padded(m) > 0,
{
    lemma_scaled_bound(m);
    lemma_pow10_positive(19);
    let l = lead(m, e) + lead_limit();
    let p = pow10(20);
    assert(l * p >= 0) by (nonlinear_arith)
        requires
            l > 0,
            p >= 0,
    ;
}

/// Whole numbers are ranked as they count.
pub proof fn lemma_rank_of_whole_numbers(a: u64, b: u64)
    ensures
        rank_of(NumeralView::Unsigned(a)) is Some,
        rank_of(NumeralView::Unsigned(b)) is Some,
        a < b <==> score(NumeralView::Unsigned(a)) < score(NumeralView::Unsigned(b)),
{
    lemma_pow10_20();
    if a > 0 {
        lemma_digits_count_bound(a as nat, 20);
    }
    if b > 0 {
        lemma_digits_count_bound(b as nat, 20);
    }
    lemma_key_order(false, a as nat, 0, false, b as nat, 0);
    reveal_with_fuel(pow10, 1);
    assert(pow10(0) == 1);
}

} // verus!
