//! Calendar dates of Unix timestamps, written `YYYY-MM-DD`.

use vstd::prelude::*;

verus! {

/// Leap years of the proleptic Gregorian calendar.
pub open spec fn leap_year(y: int) -> bool {
    (y % 4 == 0 && y % 100 != 0) || y % 400 == 0
}

/// Whether `y` is a leap year.
pub fn is_leap(y: i64) -> (r: bool)
    ensures
        r == leap_year(y as int),
{
    (y % 4 == 0 && y % 100 != 0) || y % 400 == 0
}

pub open spec fn year_len(y: int) -> int {
    if leap_year(y) {
        366
    } else {
        365
    }
}

/// The length of month `m` (counted from 0) of year `y`.
pub open spec fn month_len(y: int, m: int) -> int {
    if m == 1 {
        if leap_year(y) {
            29
        } else {
            28
        }
    } else if m == 3 || m == 5 || m == 8 || m == 10 {
        30
    } else {
        31
    }
}

/// Rust's `/` on integers: the quotient rounded towards zero.
pub open spec fn div_toward_zero(a: int, b: int) -> int
    recommends
        b > 0,
{
    if a >= 0 {
        a / b
    } else {
        -((-a) / b)
    }
}

/// Counting whole years from year `y` on: the year that day `rem` of year
/// `y` falls in, and the day within it. A negative `rem` stays in year `y`.
pub open spec fn year_and_day(y: int, rem: int) -> (int, int)
    decreases rem,
{
    if rem < year_len(y) {
        (y, rem)
    } else {
        year_and_day(y + 1, rem - year_len(y))
    }
}

/// Counting whole months of year `y` from month `m` on: the month that day
/// `rem` falls in and the day within it; `(0, rem)` after the last month.
pub open spec fn month_and_day(y: int, rem: int, m: int) -> (int, int)
    decreases 12 - m,
{
    if m >= 12 {
        (0, rem)
    } else if rem < month_len(y, m) {
        (m, rem)
    } else {
        month_and_day(y, rem - month_len(y, m), m + 1)
    }
}

/// The year, month (from 1) and day (from 1) that `unix_seconds` gives,
/// counting days from 1970-01-01 with the division rounded towards zero.
pub open spec fn date_of(unix_seconds: int) -> (int, int, int) {
    let days = div_toward_zero(unix_seconds, 86400);
    let (y, rem) = year_and_day(1970, days);
    let (m, d) = month_and_day(y, rem, 0);
    (y, m + 1, d + 1)
}

/// The decimal digits of `n`, without leading zeros; `"0"` for zero.
pub open spec fn decimal(n: nat) -> Seq<char>
    decreases n,
{
    if n < 10 {
        seq![digit_char(n)]
    } else {
        decimal(n / 10) + seq![digit_char(n % 10)]
    }
}

pub open spec fn digit_char(d: nat) -> char {
    if d == 0 {
        '0'
    } else if d == 1 {
        '1'
    } else if d == 2 {
        '2'
    } else if d == 3 {
        '3'
    } else if d == 4 {
        '4'
    } else if d == 5 {
        '5'
    } else if d == 6 {
        '6'
    } else if d == 7 {
        '7'
    } else if d == 8 {
        '8'
    } else {
        '9'
    }
}

pub open spec fn zeros(k: int) -> Seq<char> {
    Seq::new(if k > 0 { k as nat } else { 0 }, |i: int| '0')
}

/// `v` in decimal, zero-padded after its sign to `width` characters, as
/// `format!("{:0width$}", v)` writes it.
pub open spec fn zero_padded(v: int, width: int) -> Seq<char> {
    if v >= 0 {
        zeros(width - decimal(v as nat).len()) + decimal(v as nat)
    } else {
        seq!['-'] + zeros(width - 1 - decimal((-v) as nat).len()) + decimal((-v) as nat)
    }
}

/// The text `chrono_lite_format` writes for a year, month and day.
pub open spec fn date_text(y: int, m: int, d: int) -> Seq<char> {
    zero_padded(y, 4) + seq!['-'] + zero_padded(m, 2) + seq!['-'] + zero_padded(d, 2)
}

fn digit_str(d: u64) -> (r: &'static str)
    requires
        d < 10,
    ensures
        r@ == seq![digit_char(d as nat)],
{
    proof {
        reveal_strlit("0");
        reveal_strlit("1");
        reveal_strlit("2");
        reveal_strlit("3");
        reveal_strlit("4");
        reveal_strlit("5");
        reveal_strlit("6");
        reveal_strlit("7");
        reveal_strlit("8");
        reveal_strlit("9");
    }
    if d == 0 {
        "0"
    } else if d == 1 {
        "1"
    } else if d == 2 {
        "2"
    } else if d == 3 {
        "3"
    } else if d == 4 {
        "4"
    } else if d == 5 {
        "5"
    } else if d == 6 {
        "6"
    } else if d == 7 {
        "7"
    } else if d == 8 {
        "8"
    } else {
        "9"
    }
}

proof fn lemma_decimal_small(n: nat)
    ensures
        n < 10 ==> decimal(n).len() == 1,
        10 <= n < 100 ==> decimal(n).len() == 2,
        100 <= n < 1000 ==> decimal(n).len() == 3,
        n >= 1000 ==> decimal(n).len() >= 4,
    decreases n,
{
    if n >= 10 {
        lemma_decimal_small(n / 10);
    }
}

/// Append the decimal digits of `n` to `s`.
fn push_decimal(s: &mut String, n: u64)
    ensures
        final(s)@ == old(s)@ + decimal(n as nat),
    decreases n,
{
    if n < 10 {
        s.append(digit_str(n));
    } else {
        push_decimal(s, n / 10);
        s.append(digit_str(n % 10));
        assert(decimal(n as nat) == decimal((n / 10) as nat) + seq![digit_char((n % 10) as nat)]);
    }
}

fn push_zeros(s: &mut String, k: usize)
    ensures
        final(s)@ == old(s)@ + zeros(k as int),
{
    let mut i: usize = 0;
    while i < k
        invariant
            i <= k,
            s@ == old(s)@ + zeros(i as int),
        decreases k - i,
    {
        proof {
            reveal_strlit("0");
        }
        s.append("0");
        assert(zeros(i as int) + seq!['0'] =~= zeros(i + 1));
        i += 1;
    }
}

/// The length of `decimal(n)`, or 4 when it is longer.
fn decimal_len_upto_4(n: u64) -> (r: usize)
    ensures
        r == if decimal(n as nat).len() >= 4 { 4 } else { decimal(n as nat).len() },
{
    proof {
        lemma_decimal_small(n as nat);
    }
    if n < 10 {
        1
    } else if n < 100 {
        2
    } else if n < 1000 {
        3
    } else {
        4
    }
}

/// Append `v` zero-padded to `width` characters.
fn push_padded(s: &mut String, v: i64, width: usize)
    requires
        width <= 4,
    ensures
        final(s)@ == old(s)@ + zero_padded(v as int, width as int),
{
    if v >= 0 {
        let n = v as u64;
        let len = decimal_len_upto_4(n);
        if len < width {
            push_zeros(s, width - len);
        } else {
            push_zeros(s, 0);
        }
        push_decimal(s, n);
        assert(s@ =~= old(s)@ + zero_padded(v as int, width as int));
    } else {
        let n: u64 = if v == i64::MIN {
            9_223_372_036_854_775_808u64
        } else {
            (-v) as u64
        };
        assert(n == -(v as int));
        proof {
            reveal_strlit("-");
        }
        s.append("-");
        let len = decimal_len_upto_4(n);
        if len + 1 < width {
            push_zeros(s, width - 1 - len);
        } else {
            push_zeros(s, 0);
        }
        push_decimal(s, n);
        assert(s@ =~= old(s)@ + zero_padded(v as int, width as int));
    }
}

/// Format a Unix timestamp as the `YYYY-MM-DD` date of its day, without
/// time zones or leap seconds.
pub fn chrono_lite_format(unix_seconds: i64) -> (r: String)
    ensures
        r@ == ({
            let (y, m, d) = date_of(unix_seconds as int);
            date_text(y, m, d)
        }),
{
    let days = unix_seconds / 86400;
    assert(days == div_toward_zero(unix_seconds as int, 86400));
    assert(-200_000_000_000_000 < days < 200_000_000_000_000);
    let mut y: i64 = 1970;
    let mut remaining_days = days;
    loop
        invariant
            1970 <= y,
            (y - 1970) * 365 <= days - remaining_days,
            remaining_days <= days,
            -200_000_000_000_000 < days,
            -200_000_000_000_000 < remaining_days,
            days < 200_000_000_000_000,
            remaining_days >= 0 || y == 1970,
            year_and_day(1970, days as int) == year_and_day(y as int, remaining_days as int),
        ensures
            year_and_day(1970, days as int) == (y as int, remaining_days as int),
        decreases remaining_days,
    {
        let year_days: i64 = if is_leap(y) { 366 } else { 365 };
        if remaining_days < year_days {
            assert(year_and_day(y as int, remaining_days as int) == (
                y as int,
                remaining_days as int,
            ));
            break;
        }
        remaining_days -= year_days;
        y += 1;
    }
    let month_days: [i64; 12] = if is_leap(y) {
        [31, 29, 31, 30, 31, 30, 31, 31, 30, 31, 30, 31]
    } else {
        [31, 28, 31, 30, 31, 30, 31, 31, 30, 31, 30, 31]
    };
    assert(forall|i: int| 0 <= i < 12 ==> month_days@[i] == month_len(y as int, i));
    let mut m: usize = 0;
    let mut i: usize = 0;
    let ghost start = remaining_days;
    let ghost yd = year_and_day(1970, days as int);
    assert(yd == (y as int, start as int));
    while i < 12
        invariant_except_break
            m == 0,
        invariant
            i <= 12,
            remaining_days <= start,
            start < 200_000_000_000_000,
            start > -200_000_000_000_000,
            remaining_days >= start - 31 * i,
            forall|k: int| 0 <= k < 12 ==> month_days@[k] == month_len(y as int, k),
            month_and_day(y as int, start as int, 0) == month_and_day(
                y as int,
                remaining_days as int,
                i as int,
            ),
        ensures
            month_and_day(y as int, start as int, 0) == (m as int, remaining_days as int),
            remaining_days >= start - 372,
            m < 12,
        decreases 12 - i,
    {
        let md = month_days[i];
        if remaining_days < md {
            m = i;
            break;
        }
        remaining_days -= md;
        i += 1;
    }
    let d = remaining_days + 1;
    let mut out = String::new();
    push_padded(&mut out, y, 4);
    proof {
        reveal_strlit("-");
    }
    out.append("-");
    push_padded(&mut out, (m + 1) as i64, 2);
    out.append("-");
    push_padded(&mut out, d, 2);
    out
}


/// The days of years `from` up to, not including, `to`.
pub open spec fn days_in_years(from: int, to: int) -> int
    decreases to - from,
{
    if to <= from {
        0
    } else {
        year_len(from) + days_in_years(from + 1, to)
    }
}

/// The days of months `i` up to, not including, `j` of year `y`.
pub open spec fn days_in_months(y: int, i: int, j: int) -> int
    decreases j - i,
{
    if j <= i {
        0
    } else {
        month_len(y, i) + days_in_months(y, i + 1, j)
    }
}

proof fn lemma_year_and_day(y: int, rem: int)
    requires
        rem >= 0,
    ensures
        year_and_day(y, rem).0 >= y,
        0 <= year_and_day(y, rem).1 < year_len(year_and_day(y, rem).0),
        rem == days_in_years(y, year_and_day(y, rem).0) + year_and_day(y, rem).1,
    decreases rem,
{
    if rem >= year_len(y) {
        lemma_year_and_day(y + 1, rem - year_len(y));
    }
}

proof fn lemma_month_and_day(y: int, rem: int, i: int)
    requires
        0 <= i <= 12,
        0 <= rem < days_in_months(y, i, 12),
    ensures
        i <= month_and_day(y, rem, i).0 < 12,
        0 <= month_and_day(y, rem, i).1 < month_len(y, month_and_day(y, rem, i).0),
        rem == days_in_months(y, i, month_and_day(y, rem, i).0) + month_and_day(y, rem, i).1,
    decreases 12 - i,
{
    if i < 12 && rem >= month_len(y, i) {
        lemma_month_and_day(y, rem - month_len(y, i), i + 1);
    }
}

/// A year's months add up to the year.
proof fn lemma_months_make_year(y: int)
    ensures
        days_in_months(y, 0, 12) == year_len(y),
{
    reveal_with_fuel(days_in_months, 13);
}

/// For a timestamp at or after the epoch, the date written is a calendar
/// date (month 1 to 12, day within the month) and it is the day the
/// timestamp falls in: the days of the years and months before it plus its
/// day of the month, less one, are the whole days since 1970-01-01.
pub proof fn date_of_is_the_calendar_day(unix_seconds: int)
    requires
        unix_seconds >= 0,
    ensures
        ({
            let (y, m, d) = date_of(unix_seconds);
            &&& y >= 1970
            &&& 1 <= m <= 12
            &&& 1 <= d <= month_len(y, m - 1)
            &&& days_in_years(1970, y) + days_in_months(y, 0, m - 1) + (d - 1) == unix_seconds
                / 86400
        }),
{
    let days = unix_seconds / 86400;
    lemma_year_and_day(1970, days);
    let (y, rem) = year_and_day(1970, days);
    lemma_months_make_year(y);
    lemma_month_and_day(y, rem, 0);
}

} // verus!
