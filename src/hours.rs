//! Decimal hours as text, held as whole minutes.
//!
//! A duration is written as an optional minus sign, the whole hours, and where
//! the minutes are not whole hours a point and two digits: 510 minutes read
//! `8.50`, 500 minutes `8.33`. Reading takes at most six digits after the point
//! and rounds to the nearest minute, so what is written reads back the same.
use vstd::prelude::*;

verus! {

/// The largest magnitude, in minutes, of a duration the file can hold:
/// nine digits of whole hours.
pub const MAX_MINUTES: i64 = 59_999_999_999;

pub open spec fn is_digit(c: char) -> bool {
    '0' <= c && c <= '9'
}

pub open spec fn digit_value(c: char) -> nat {
    (c as int - '0' as int) as nat
}

pub open spec fn digit_char(d: int) -> char {
    if d == 0 { '0' }
    else if d == 1 { '1' }
    else if d == 2 { '2' }
    else if d == 3 { '3' }
    else if d == 4 { '4' }
    else if d == 5 { '5' }
    else if d == 6 { '6' }
    else if d == 7 { '7' }
    else if d == 8 { '8' }
    else { '9' }
}

pub open spec fn all_digits(s: Seq<char>) -> bool {
    forall|i: int| 0 <= i < s.len() ==> is_digit(#[trigger] s[i])
}

/// The value of a string of decimal digits.
pub open spec fn digits_value(s: Seq<char>) -> nat
    decreases s.len(),
{
    if s.len() == 0 {
        0
    } else {
        digits_value(s.drop_last()) * 10 + digit_value(s.last())
    }
}

/// The number of decimal digits at the start of `s`.
pub open spec fn leading_digits(s: Seq<char>) -> nat
    decreases s.len(),
{
    if s.len() > 0 && is_digit(s[0]) {
        1 + leading_digits(s.skip(1))
    } else {
        0
    }
}

pub open spec fn pow10(k: nat) -> nat
    decreases k,
{
    if k == 0 {
        1
    } else {
        10 * pow10((k - 1) as nat)
    }
}

/// The digits that count after the point: at most six.
pub open spec fn first_six(f: Seq<char>) -> Seq<char> {
    if f.len() > 6 {
        f.take(6)
    } else {
        f
    }
}

/// The minutes, to the nearest one, in the fraction of an hour written by the
/// digits `f` after the point.
pub open spec fn fraction_minutes(f: Seq<char>) -> int {
    ((60 * digits_value(f) + pow10(f.len()) / 2) / pow10(f.len())) as int
}

/// What a text of decimal hours reads as, in minutes: `None` where it is not
/// an optional minus sign, one to nine digits, and optionally a point followed
/// by at least one digit, or where it stands for more than `MAX_MINUTES`
/// minutes. Digits past the sixth after the point are ignored.
pub open spec fn hours_minutes_of(s: Seq<char>) -> Option<int> {
    let neg = s.len() > 0 && s[0] == '-';
    let body = if neg { s.skip(1) } else { s };
    let k = leading_digits(body);
    let rest = body.skip(k as int);
    if 1 <= k <= 9 && (rest.len() == 0 || (rest[0] == '.' && rest.len() >= 2 && all_digits(rest.skip(1)))) {
        let frac = if rest.len() == 0 { rest } else { first_six(rest.skip(1)) };
        let m = digits_value(body.take(k as int)) * 60 + fraction_minutes(frac);
        if m <= MAX_MINUTES {
            Some(if neg { -m } else { m })
        } else {
            None
        }
    } else {
        None
    }
}

/// The decimal digits of `n`, without leading zeros.
pub open spec fn nat_text(n: nat) -> Seq<char>
    decreases n,
{
    if n < 10 {
        seq![digit_char(n as int)]
    } else {
        nat_text(n / 10).push(digit_char((n % 10) as int))
    }
}

/// The text written for a duration of `m` minutes.
pub open spec fn hours_text(m: int) -> Seq<char> {
    let a: nat = if m < 0 { (-m) as nat } else { m as nat };
    let sign = if m < 0 { seq!['-'] } else { Seq::<char>::empty() };
    let r: int = (a % 60) as int;
    let f: int = (r * 100 + 30) / 60;
    let tail = if r == 0 {
        Seq::<char>::empty()
    } else {
        seq!['.', digit_char(f / 10), digit_char(f % 10)]
    };
    sign + nat_text(a / 60) + tail
}

pub open spec fn is_hours(m: int) -> bool {
    -MAX_MINUTES <= m <= MAX_MINUTES
}

proof fn lemma_digit_char(d: int)
    requires
        0 <= d < 10,
    ensures
        is_digit(digit_char(d)),
        digit_value(digit_char(d)) == d,
{
}

proof fn lemma_nat_text(n: nat)
    ensures
        all_digits(nat_text(n)),
        digits_value(nat_text(n)) == n,
        nat_text(n).len() >= 1,
        n < pow10(nat_text(n).len()),
        n >= 10 ==> n >= pow10((nat_text(n).len() - 1) as nat),
    decreases n,
{
    if n < 10 {
        lemma_digit_char(n as int);
        assert(seq![digit_char(n as int)].drop_last() =~= Seq::<char>::empty());
        assert(digits_value(Seq::<char>::empty()) == 0);
        assert(digits_value(nat_text(n)) == 0 * 10 + digit_value(digit_char(n as int)));
        reveal_with_fuel(pow10, 2);
    } else {
        lemma_nat_text(n / 10);
        lemma_digit_char((n % 10) as int);
        let t = nat_text(n);
        assert(t.drop_last() =~= nat_text(n / 10));
        assert(digits_value(t) == (n / 10) * 10 + n % 10);
        let k = nat_text(n / 10).len();
        assert(pow10((k + 1) as nat) == 10 * pow10(k));
        if n / 10 >= 10 {
            assert(pow10(k) == 10 * pow10((k - 1) as nat));
        } else {
            assert(k == 1);
            reveal_with_fuel(pow10, 2);
        }
    }
}

proof fn lemma_pow10_monotone(a: nat, b: nat)
    requires
        a <= b,
    ensures
        pow10(a) <= pow10(b),
        pow10(a) >= 1,
    decreases b,
{
    if a < b {
        lemma_pow10_monotone(a, (b - 1) as nat);
    } else if a > 0 {
        lemma_pow10_monotone((a - 1) as nat, (a - 1) as nat);
    }
}

proof fn lemma_leading_digits(s: Seq<char>, k: int)
    requires
        0 <= k <= s.len(),
        all_digits(s.take(k)),
        k == s.len() || !is_digit(s[k]),
    ensures
        leading_digits(s) == k,
    decreases k,
{
    if k > 0 {
        assert(is_digit(s.take(k)[0]));
        let t = s.skip(1);
        assert forall|i: int| 0 <= i < k - 1 implies is_digit(#[trigger] t.take(k - 1)[i]) by {
            assert(is_digit(s.take(k)[i + 1]));
        }
        if k < s.len() {
            assert(t[k - 1] == s[k]);
        }
        lemma_leading_digits(t, k - 1);
    }
}

proof fn lemma_leading_digits_at_least(s: Seq<char>, k: int)
    requires
        0 <= k <= s.len(),
        all_digits(s.take(k)),
    ensures
        leading_digits(s) >= k,
    decreases k,
{
    if k > 0 {
        assert(is_digit(s.take(k)[0]));
        let t = s.skip(1);
        assert forall|i: int| 0 <= i < k - 1 implies is_digit(#[trigger] t.take(k - 1)[i]) by {
            assert(is_digit(s.take(k)[i + 1]));
        }
        lemma_leading_digits_at_least(t, k - 1);
    }
}

/// The text of a duration holds digits, a minus sign and a point only.
pub proof fn lemma_hours_text_chars(m: int)
    ensures
        forall|i: int|
            0 <= i < hours_text(m).len() ==> {
                let c = #[trigger] hours_text(m)[i];
                is_digit(c) || c == '-' || c == '.'
            },
{
    let a: nat = if m < 0 { (-m) as nat } else { m as nat };
    let r: int = (a % 60) as int;
    let f: int = (r * 100 + 30) / 60;
    lemma_nat_text(a / 60);
    if r != 0 {
        assert(0 <= f < 100) by (nonlinear_arith)
            requires f == (r * 100 + 30) / 60, 0 <= r < 60;
        lemma_digit_char(f / 10);
        lemma_digit_char(f % 10);
    }
}

/// Writing a duration and reading the text back gives the same number of
/// minutes.
pub proof fn lemma_hours_round_trip(m: int)
    requires
        is_hours(m),
    ensures
        hours_minutes_of(hours_text(m)) == Some(m),
{
    let a: nat = if m < 0 { (-m) as nat } else { m as nat };
    let h: nat = a / 60;
    let r: int = (a % 60) as int;
    let f: int = (r * 100 + 30) / 60;
    let digits = nat_text(h);
    let tail = if r == 0 {
        Seq::<char>::empty()
    } else {
        seq!['.', digit_char(f / 10), digit_char(f % 10)]
    };
    let s = hours_text(m);
    lemma_nat_text(h);
    let body = digits + tail;
    if m < 0 {
        assert(s =~= seq!['-'] + body);
        assert(s.skip(1) =~= body);
    } else {
        assert(s =~= body);
        assert(is_digit(digits[0]));
    }
    // the whole hours take one to nine digits
    assert(h < 1_000_000_000);
    assert(digits.len() <= 9) by {
        if digits.len() > 9 {
            lemma_pow10_monotone(9, (digits.len() - 1) as nat);
            reveal_with_fuel(pow10, 10);
        }
    }
    assert(body.take(digits.len() as int) =~= digits);
    if r != 0 {
        assert(f < 100) by (nonlinear_arith)
            requires f == (r * 100 + 30) / 60, r < 60;
        lemma_digit_char(f / 10);
        lemma_digit_char(f % 10);
        assert(body[digits.len() as int] == '.');
    }
    lemma_leading_digits(body, digits.len() as int);
    let rest = body.skip(digits.len() as int);
    assert(rest =~= tail);
    if r == 0 {
        assert(fraction_minutes(rest) == 0);
    } else {
        let frac = rest.skip(1);
        assert(frac =~= seq![digit_char(f / 10), digit_char(f % 10)]);
        assert(frac.drop_last() =~= seq![digit_char(f / 10)]);
        assert(frac.drop_last().drop_last() =~= Seq::<char>::empty());
        assert(digits_value(frac.drop_last().drop_last()) == 0);
        assert(digits_value(frac.drop_last()) == f / 10);
        assert(digits_value(frac) == (f / 10) * 10 + f % 10);
        assert(all_digits(rest.skip(1)));
        reveal_with_fuel(pow10, 3);
        assert(fraction_minutes(frac) == (60 * f + 50) / 100);
        assert((60 * f + 50) / 100 == r) by (nonlinear_arith)
            requires f == (r * 100 + 30) / 60, 0 <= r < 60;
    }
    assert(a == h * 60 + r);
}

fn digit_of(c: char) -> (r: Option<u64>)
    ensures
        r is Some <==> is_digit(c),
        r matches Some(d) ==> d == digit_value(c) && d < 10,
{
    if '0' <= c && c <= '9' {
        Some(c as u64 - '0' as u64)
    } else {
        None
    }
}

proof fn lemma_digits_push(s: Seq<char>, k: int)
    requires
        0 <= k < s.len(),
    ensures
        digits_value(s.take(k + 1)) == digits_value(s.take(k)) * 10 + digit_value(s[k]),
{
    assert(s.take(k + 1).drop_last() =~= s.take(k));
}

proof fn lemma_digits_bound(s: Seq<char>)
    requires
        all_digits(s),
    ensures
        digits_value(s) < pow10(s.len()),
    decreases s.len(),
{
    if s.len() > 0 {
        let t = s.drop_last();
        assert(all_digits(t)) by {
            assert forall|i: int| 0 <= i < t.len() implies is_digit(#[trigger] t[i]) by {
                assert(is_digit(s[i]));
            }
        }
        lemma_digits_bound(t);
        assert(is_digit(s[s.len() - 1]));
        assert(pow10(s.len()) == 10 * pow10(t.len()));
    }
}

/// Reads the digits of `s` from `from` on, as the fraction of an hour after
/// the point: the value of the first six of them and the power of ten that
/// scales it, or `None` where one of them is no digit.
fn read_fraction(s: &str, from: usize) -> (r: Option<(u64, u64)>)
    requires
        from <= s@.len(),
    ensures
        r is Some <==> all_digits(s@.skip(from as int)),
        r matches Some((v, scale)) ==> {
            let f = first_six(s@.skip(from as int));
            &&& v == digits_value(f)
            &&& scale == pow10(f.len())
            &&& v < scale <= 1_000_000
        },
{
    let n: usize = s.unicode_len();
    let ghost after = s@.skip(from as int);
    let mut j: usize = from;
    let mut frac: u64 = 0;
    let mut count: usize = 0;
    let mut scale: u64 = 1;
    while j < n
        invariant
            from <= j <= n,
            n == s@.len(),
            after == s@.skip(from as int),
            all_digits(after.take(j - from)),
            count == if j - from > 6 { 6 } else { j - from },
            frac == digits_value(after.take(count as int)),
            scale == pow10(count as nat),
            frac < scale <= 1_000_000,
        decreases n - j,
    {
        let ghost p: int = j - from;
        assert(after[p] == s@[j as int]);
        let d = match digit_of(s.get_char(j)) {
            Some(d) => d,
            None => {
                return None;
            },
        };
        assert(all_digits(after.take(p + 1))) by {
            assert forall|q: int| 0 <= q < p + 1 implies is_digit(#[trigger] after.take(p + 1)[q]) by {
                if q < p {
                    assert(after.take(p)[q] == after.take(p + 1)[q]);
                }
            }
        }
        if count < 6 {
            proof {
                lemma_digits_push(after, p);
                lemma_pow10_monotone(count as nat, 5);
                reveal_with_fuel(pow10, 7);
            }
            frac = frac * 10 + d;
            scale = scale * 10;
            count = count + 1;
        }
        j = j + 1;
    }
    assert(after.take(j - from) =~= after);
    assert(after.len() <= 6 ==> after.take(count as int) =~= after);
    Some((frac, scale))
}

/// Reads the digits of `s` from `start` on, up to ten of them: where they
/// end and their value.
fn read_whole(s: &str, start: usize) -> (r: (usize, u64))
    requires
        start <= s@.len(),
    ensures
        ({
            let body = s@.skip(start as int);
            let (end, v) = r;
            &&& start <= end <= s@.len()
            &&& end - start <= 10
            &&& all_digits(body.take(end - start))
            &&& end - start <= 9 ==> v == digits_value(body.take(end - start)) && v < pow10((end - start) as nat)
            &&& end - start <= 9 ==> leading_digits(body) == end - start
            &&& end - start == 10 ==> leading_digits(body) >= 10
        }),
{
    let n: usize = s.unicode_len();
    let ghost body = s@.skip(start as int);
    let mut i: usize = start;
    let mut whole: u64 = 0;
    while i < n && i - start < 10
        invariant_except_break
            start <= i <= n,
            n == s@.len(),
            body == s@.skip(start as int),
            i - start <= 10,
            all_digits(body.take(i - start)),
            i - start <= 9 ==> whole == digits_value(body.take(i - start)) && whole < pow10((i - start) as nat),
        ensures
            start <= i <= n,
            i - start <= 10,
            all_digits(body.take(i - start)),
            i - start <= 9 ==> whole == digits_value(body.take(i - start)) && whole < pow10((i - start) as nat),
            i == n || i - start == 10 || !is_digit(body[i - start]),
        decreases n - i,
    {
        let ghost k: int = i - start;
        assert(body[k] == s@[i as int]);
        let d = match digit_of(s.get_char(i)) {
            Some(d) => d,
            None => break,
        };
        proof {
            lemma_digits_push(body, k);
            assert(all_digits(body.take(k + 1))) by {
                assert forall|j: int| 0 <= j < k + 1 implies is_digit(#[trigger] body.take(k + 1)[j]) by {
                    if j < k {
                        assert(body.take(k)[j] == body.take(k + 1)[j]);
                    }
                }
            }
        }
        if i - start < 9 {
            proof {
                lemma_digits_bound(body.take(k + 1));
                lemma_pow10_monotone((k + 1) as nat, 9);
                reveal_with_fuel(pow10, 10);
            }
            whole = whole * 10 + d;
        }
        i = i + 1;
    }
    proof {
        if i - start <= 9 {
            lemma_leading_digits(body, i - start);
        } else {
            lemma_leading_digits_at_least(body, 10);
        }
    }
    (i, whole)
}

/// Reads a text of decimal hours as whole minutes.
pub fn parse_hours(s: &str) -> (r: Option<i64>)
    ensures
        match r {
            Some(m) => hours_minutes_of(s@) == Some(m as int),
            None => hours_minutes_of(s@) is None,
        },
        r matches Some(m) ==> is_hours(m as int),
{
    let n: usize = s.unicode_len();
    let neg: bool = n > 0 && s.get_char(0) == '-';
    let start: usize = if neg { 1 } else { 0 };
    let ghost body = if neg { s@.skip(1) } else { s@ };
    assert(body =~= s@.skip(start as int));
    let (i, whole) = read_whole(s, start);
    if i == start || i - start > 9 {
        return None;
    }
    let ghost k: int = i - start;
    proof {
        lemma_pow10_monotone(k as nat, 9);
        reveal_with_fuel(pow10, 10);
    }
    let ghost rest = body.skip(k);
    assert(rest =~= s@.skip(i as int));
    let (frac, scale) = if i == n {
        assert(rest.len() == 0);
        (0u64, 1u64)
    } else {
        assert(rest[0] == s@[i as int]);
        if s.get_char(i) != '.' || i + 1 == n {
            return None;
        }
        assert(rest.skip(1) =~= s@.skip(i + 1));
        match read_fraction(s, i + 1) {
            Some(p) => p,
            None => return None,
        }
    };
    let fraction: u64 = (60 * frac + scale / 2) / scale;
    assert(fraction <= 60) by (nonlinear_arith)
        requires
            fraction as int == (60 * (frac as int) + (scale as int) / 2) / (scale as int),
            frac < scale,
            scale >= 1,
    ;
    let total: u64 = whole * 60 + fraction;
    if total > MAX_MINUTES as u64 {
        return None;
    }
    let m: i64 = total as i64;
    Some(if neg { -m } else { m })
}

/// The digit `d` as a one-character string.
pub(crate) fn digit_str(d: u64) -> (r: &'static str)
    requires
        d < 10,
    ensures
        r@ == seq![digit_char(d as int)],
{
    proof {
        reveal_strlit("0");
        reveal_strlit("1");
        reveal_strlit("2");
        reveal_strlit("3");
        reveal_strlit("4");
        reveal_strlit("5");
        reveal_strlit("6");
        reveal_strlit("7");
        reveal_strlit("8");
        reveal_strlit("9");
    }
    if d == 0 { "0" }
    else if d == 1 { "1" }
    else if d == 2 { "2" }
    else if d == 3 { "3" }
    else if d == 4 { "4" }
    else if d == 5 { "5" }
    else if d == 6 { "6" }
    else if d == 7 { "7" }
    else if d == 8 { "8" }
    else { "9" }
}

fn push_nat(out: &mut String, n: u64)
    ensures
        final(out)@ == old(out)@ + nat_text(n as nat),
    decreases n,
{
    if n >= 10 {
        push_nat(out, n / 10);
    }
    out.append(digit_str(n % 10));
    assert(n >= 10 ==> nat_text(n as nat) == nat_text((n / 10) as nat).push(digit_char((n % 10) as int)));
}

/// Writes a duration of `m` minutes as decimal hours.
pub fn format_hours(m: i64) -> (r: String)
    requires
        is_hours(m as int),
    ensures
        r@ == hours_text(m as int),
{
    let mut out = String::new();
    let a: u64 = if m < 0 {
        proof { reveal_strlit("-"); }
        out.append("-");
        (-m) as u64
    } else {
        m as u64
    };
    push_nat(&mut out, a / 60);
    let r: u64 = a % 60;
    if r != 0 {
        let f: u64 = (r * 100 + 30) / 60;
        proof { reveal_strlit("."); }
        out.append(".");
        out.append(digit_str(f / 10));
        out.append(digit_str(f % 10));
    }
    let ghost sign = if m < 0 { seq!['-'] } else { Seq::<char>::empty() };
    assert(out@ =~= hours_text(m as int));
    out
}

} // verus!
