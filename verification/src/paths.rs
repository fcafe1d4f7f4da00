//! Names of automatically placed screenshot files.

use vstd::prelude::*;

use crate::chars::{dec, push_dec, push_str, string_of};

verus! {

pub open spec fn is_leap(y: int) -> bool {
    y % 4 == 0 && (y % 100 != 0 || y % 400 == 0)
}

pub open spec fn days_in_year(y: int) -> int {
    if is_leap(y) {
        366
    } else {
        365
    }
}

/// The year that day `remaining` (counted from January 1st of `y`, from 0)
/// falls in, and the day's index within that year.
pub open spec fn year_and_day(y: int, remaining: int) -> (int, int)
    decreases remaining,
    when remaining >= 0
{
    if remaining < days_in_year(y) {
        (y, remaining)
    } else {
        year_and_day(y + 1, remaining - days_in_year(y))
    }
}

pub open spec fn days_in_month(leap: bool, m: int) -> int {
    if m == 1 {
        if leap {
            29
        } else {
            28
        }
    } else if m == 3 || m == 5 || m == 8 || m == 10 {
        30
    } else {
        31
    }
}

/// The month (from 0) that day `remaining` of the year falls in, counting
/// from month `m`, and the day's index within it.
pub open spec fn month_and_day(leap: bool, m: int, remaining: int) -> (int, int)
    decreases 12 - m,
{
    if m < 12 && remaining >= days_in_month(leap, m) {
        month_and_day(leap, m + 1, remaining - days_in_month(leap, m))
    } else {
        (m, remaining)
    }
}

/// The UTC calendar date (year, month, day) of day `days` since
/// 1970-01-01.
pub open spec fn civil_date(days: nat) -> (int, int, int) {
    let (y, r) = year_and_day(1970, days as int);
    let (m, d) = month_and_day(is_leap(y), 0, r);
    (y, m + 1, d + 1)
}

/// `n` in decimal, padded with zeros on the left to `w` digits.
pub open spec fn padded(n: nat, w: nat) -> Seq<char> {
    let d = dec(n);
    if d.len() < w {
        Seq::new((w - d.len()) as nat, |i: int| '0') + d
    } else {
        d
    }
}

/// The name of a screenshot of `session` taken `secs` seconds and `millis`
/// milliseconds after the Unix epoch:
/// `tu-screenshot-{session}-{YYYYMMDD}T{HHMMSS}.{tenths}.png` (UTC), which
/// sorts by time.
pub open spec fn screenshot_name(session: Seq<char>, secs: nat, millis: nat) -> Seq<char> {
    let (y, m, d) = civil_date(secs / 86400);
    let t = secs % 86400;
    "tu-screenshot-"@ + session + "-"@ + padded(y as nat, 4) + padded(m as nat, 2) + padded(d as nat, 2) + "T"@
        + padded(t / 3600, 2) + padded((t % 3600) / 60, 2) + padded(t % 60, 2) + "."@ + dec(millis / 100)
        + ".png"@
}

fn push_padded(out: &mut Vec<char>, n: u64, w: usize)
    ensures
        final(out)@ == old(out)@ + padded(n as nat, w as nat),
{
    let mut digits: Vec<char> = Vec::new();
    push_dec(&mut digits, n);
    assert(digits@ =~= dec(n as nat));
    if digits.len() < w {
        let mut k: usize = 0;
        while k < w - digits.len()
            invariant
                digits@ == dec(n as nat),
                digits@.len() < w,
                k <= w - digits@.len(),
                out@ == old(out)@ + Seq::new(k as nat, |i: int| '0'),
            decreases w - digits@.len() - k,
        {
            out.push('0');
            k = k + 1;
            assert(out@ =~= old(out)@ + Seq::new(k as nat, |i: int| '0'));
        }
    }
    let mut d = digits;
    out.append(&mut d);
    assert(final(out)@ =~= old(out)@ + padded(n as nat, w as nat));
}

fn leap(y: u64) -> (r: bool)
    ensures
        r == is_leap(y as int),
{
    y % 4 == 0 && (y % 100 != 0 || y % 400 == 0)
}

/// The calendar date of day `days` since 1970-01-01; see `civil_date`.
pub fn date_of_day(days: u64) -> (r: (u64, u64, u64))
    ensures
        (r.0 as int, r.1 as int, r.2 as int) == civil_date(days as nat),
{
    let mut y: u64 = 1970;
    let mut remaining: u64 = days;
    while remaining >= year_length(y)
        invariant
            1970 <= y <= 1970 + days,
            remaining <= days,
            (y - 1970) * 365 <= days - remaining,
            year_and_day(1970, days as int) == year_and_day(y as int, remaining as int),
        decreases remaining,
    {
        remaining = remaining - year_length(y);
        y = y + 1;
    }
    let is_leap_year = leap(y);
    assert(year_and_day(y as int, remaining as int) == (y as int, remaining as int));
    let ghost r0 = remaining as int;
    let mut m: u64 = 0;
    while m < 12 && remaining >= month_length(is_leap_year, m)
        invariant
            m <= 12,
            remaining <= r0,
            is_leap_year == is_leap(y as int),
            month_and_day(is_leap_year, 0, r0) == month_and_day(is_leap_year, m as int, remaining as int),
        decreases 12 - m,
    {
        remaining = remaining - month_length(is_leap_year, m);
        m = m + 1;
    }
    assert(month_and_day(is_leap_year, m as int, remaining as int) == (m as int, remaining as int));
    (y, m + 1, remaining + 1)
}

fn year_length(y: u64) -> (r: u64)
    ensures
        r == days_in_year(y as int),
{
    if leap(y) {
        366
    } else {
        365
    }
}

fn month_length(leap: bool, m: u64) -> (r: u64)
    ensures
        r == days_in_month(leap, m as int),
{
    if m == 1 {
        if leap {
            29
        } else {
            28
        }
    } else if m == 3 || m == 5 || m == 8 || m == 10 {
        30
    } else {
        31
    }
}

/// The file name for a screenshot of `session` taken `secs` seconds and
/// `millis` milliseconds (below one second) after the Unix epoch; see
/// `screenshot_name`.
pub fn screenshot_file_name(session: &str, secs: u64, millis: u32) -> (r: String)
    ensures
        r@ == screenshot_name(session@, secs as nat, millis as nat),
{
    let days = secs / 86400;
    let time_of_day = secs % 86400;
    let (year, month, day) = date_of_day(days);
    let mut out: Vec<char> = Vec::new();
    push_str(&mut out, "tu-screenshot-");
    push_str(&mut out, session);
    push_str(&mut out, "-");
    push_padded(&mut out, year, 4);
    push_padded(&mut out, month, 2);
    push_padded(&mut out, day, 2);
    push_str(&mut out, "T");
    push_padded(&mut out, time_of_day / 3600, 2);
    push_padded(&mut out, (time_of_day % 3600) / 60, 2);
    push_padded(&mut out, time_of_day % 60, 2);
    push_str(&mut out, ".");
    push_dec(&mut out, (millis / 100) as u64);
    push_str(&mut out, ".png");
    assert(out@ =~= screenshot_name(session@, secs as nat, millis as nat));
    string_of(&out)
}

/// Days from month `m` (from 0) to the end of the year.
pub open spec fn days_from_month(leap: bool, m: int) -> int
    decreases 12 - m,
{
    if m >= 12 {
        0
    } else {
        days_in_month(leap, m) + days_from_month(leap, m + 1)
    }
}

proof fn lemma_month_in_range(leap: bool, m: int, r: int)
    requires
        0 <= m <= 12,
        0 <= r < days_from_month(leap, m),
    ensures
        0 <= month_and_day(leap, m, r).0 < 12,
        0 <= month_and_day(leap, m, r).1 < days_in_month(leap, month_and_day(leap, m, r).0),
    decreases 12 - m,
{
    if m < 12 && r >= days_in_month(leap, m) {
        lemma_month_in_range(leap, m + 1, r - days_in_month(leap, m));
    }
}

proof fn lemma_year_and_day_in_range(y: int, r: int)
    requires
        r >= 0,
    ensures
        0 <= year_and_day(y, r).1 < days_in_year(year_and_day(y, r).0),
    decreases r,
{
    if r >= days_in_year(y) {
        lemma_year_and_day_in_range(y + 1, r - days_in_year(y));
    }
}

/// Every day since the epoch falls on a real calendar date: a month from 1
/// to 12 and a day within that month's length.
pub proof fn law_civil_date_is_a_date(days: nat)
    ensures
        1 <= civil_date(days).1 <= 12,
        1 <= civil_date(days).2 <= days_in_month(is_leap(civil_date(days).0), civil_date(days).1 - 1),
{
    let (y, r) = year_and_day(1970, days as int);
    lemma_year_and_day_in_range(1970, days as int);
    reveal_with_fuel(days_from_month, 13);
    assert(days_from_month(is_leap(y), 0) == days_in_year(y));
    lemma_month_in_range(is_leap(y), 0, r);
}

} // verus!
