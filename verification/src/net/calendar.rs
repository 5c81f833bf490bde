//! Civil dates of moments since the Unix epoch, in UTC.
use vstd::prelude::*;

verus! {

pub open spec fn leap(y: int) -> bool {
    y % 4 == 0 && (y % 100 != 0 || y % 400 == 0)
}

/// Days in a month.
pub open spec fn month_len(y: int, m: int) -> int {
    if m == 2 {
        if leap(y) {
            29
        } else {
            28
        }
    } else if m == 4 || m == 6 || m == 9 || m == 11 {
        30
    } else {
        31
    }
}

/// Leap years up to a year.
pub open spec fn leaps(y: int) -> int {
    y / 4 - y / 100 + y / 400
}

/// Days from the first of January 1970 to that of a year.
pub open spec fn days_before_year(y: int) -> int {
    365 * (y - 1970) + leaps(y - 1) - leaps(1969)
}

/// Days of a year before a month.
pub open spec fn days_before_month(y: int, m: int) -> int
    decreases m,
{
    if m <= 1 {
        0
    } else {
        days_before_month(y, m - 1) + month_len(y, m - 1)
    }
}

/// Days from the first of January 1970 to a date.
pub open spec fn day_number(y: int, m: int, d: int) -> int {
    days_before_year(y) + days_before_month(y, m) + d - 1
}

/// Whether there is such a date.
pub open spec fn is_date(y: int, m: int, d: int) -> bool {
    1 <= m <= 12 && 1 <= d <= month_len(y, m)
}

/// The days before each month of a year, for those who cannot count.
proof fn lemma_months(y: int)
    ensures
        ({
            let f = if leap(y) {
                29int
            } else {
                28
            };
            &&& days_before_month(y, 1) == 0
            &&& days_before_month(y, 2) == 31
            &&& days_before_month(y, 3) == 31 + f
            &&& days_before_month(y, 4) == 62 + f
            &&& days_before_month(y, 5) == 92 + f
            &&& days_before_month(y, 6) == 123 + f
            &&& days_before_month(y, 7) == 153 + f
            &&& days_before_month(y, 8) == 184 + f
            &&& days_before_month(y, 9) == 215 + f
            &&& days_before_month(y, 10) == 245 + f
            &&& days_before_month(y, 11) == 276 + f
            &&& days_before_month(y, 12) == 306 + f
        }),
{
    reveal_with_fuel(days_before_month, 13);
}

/// Leap years are counted one by one.
proof fn lemma_leaps(y: int)
    ensures
        leaps(y) == leaps(y - 1) + if leap(y) {
            1int
        } else {
            0
        },
{
    lemma_quotient(y, 4);
    lemma_quotient(y, 100);
    lemma_quotient(y, 400);
    assert(y % 400 == 0 ==> y % 100 == 0);
    assert(y % 100 == 0 ==> y % 4 == 0);
}

proof fn lemma_quotient(y: int, k: int)
    requires
        k == 4 || k == 100 || k == 400,
    ensures
        y / k == (y - 1) / k + if y % k == 0 {
            1int
        } else {
            0
        },
{
}

/// A day of a 400-year cycle that begins in March, taken apart: `c` centuries,
/// `q` spans of four years, and `s` days.
pub open spec fn cycle_day(doe: int, c: int, q: int, s: int) -> bool {
    &&& doe == 36524 * c + 1461 * q + s
    &&& 0 <= c <= 3
    &&& 0 <= q <= 24
    &&& 0 <= s <= 1460
    &&& s == 1460 && q == 24 ==> c == 3
}

proof fn lemma_cycle_day(doe: int) -> (r: (int, int, int))
    requires
        0 <= doe <= 146096,
    ensures
        cycle_day(doe, r.0, r.1, r.2),
{
    let c = if doe == 146096 {
        3
    } else {
        doe / 36524
    };
    let r = doe - 36524 * c;
    let q = if r == 36524 {
        24
    } else {
        r / 1461
    };
    (c, q, r - 1461 * q)
}

/// The whole years that have passed on the `s`-th day of four.
pub open spec fn years_of_four(s: int) -> int {
    if s == 1460 {
        3
    } else {
        s / 365
    }
}

/// The year of a cycle that a day falls in, by the quotients that take out the
/// leap days.
proof fn lemma_year_of_cycle(doe: int, c: int, q: int, s: int)
    requires
        cycle_day(doe, c, q, s),
    ensures
        (doe - doe / 1460 + doe / 36524 - doe / 146096) / 365 == 100 * c + 4 * q + years_of_four(s),
        0 <= years_of_four(s) <= 3,
{
    let e = 24 * c + q + s;
    assert(doe == 1460 * (25 * c + q) + e);
    assert(doe / 1460 == 25 * c + q + if e >= 1460 {
        1int
    } else {
        0
    });
    if doe == 146096 {
        assert(c == 3 && q == 24 && s == 1460);
    } else {
        assert(doe / 36524 == c);
        assert(doe / 146096 == 0);
    }
}

/// The day of the year, counted from March.
proof fn lemma_day_of_year(doe: int, c: int, q: int, s: int)
    requires
        cycle_day(doe, c, q, s),
    ensures
        ({
            let yoe = 100 * c + 4 * q + years_of_four(s);
            &&& 0 <= yoe <= 399
            &&& yoe / 4 == 25 * c + q
            &&& yoe / 100 == c
            &&& doe - (365 * yoe + yoe / 4 - yoe / 100) == s - 365 * years_of_four(s)
            &&& 0 <= s - 365 * years_of_four(s) <= 365
            &&& s - 365 * years_of_four(s) == 365 ==> leap(yoe + 1)
        }),
{
    let t = years_of_four(s);
    let yoe = 100 * c + 4 * q + t;
    assert(yoe == 4 * (25 * c + q) + t);
    assert(yoe == 100 * c + (4 * q + t));
    if s - 365 * t == 365 {
        assert(s == 1460 && t == 3);
        assert(yoe + 1 == 4 * (25 * c + q + 1));
        if q == 24 {
            assert(yoe + 1 == 400);
        } else {
            assert(yoe + 1 == 100 * c + 4 * (q + 1));
            assert((yoe + 1) % 100 == 4 * (q + 1));
        }
    }
}

/// The day number of the first of March.
proof fn lemma_march(era: int, yoe: int)
    requires
        0 <= yoe <= 399,
    ensures
        ({
            let y = 400 * era + yoe;
            let march = era * 146097 + 365 * yoe + yoe / 4 - yoe / 100 - 719468;
            &&& day_number(y, 3, 1) == march
            &&& days_before_year(y + 1) == march + 306
            &&& leap(y + 1) == leap(yoe + 1)
        }),
{
    let y = 400 * era + yoe;
    lemma_leaps(y);
    lemma_months(y);
    lemma_cycles(era, yoe, 4, 100);
    lemma_cycles(era, yoe, 100, 4);
    lemma_cycles(era, yoe, 400, 1);
    lemma_cycles(era, yoe + 1, 4, 100);
    lemma_cycles(era, yoe + 1, 100, 4);
    lemma_cycles(era, yoe + 1, 400, 1);
    assert(yoe / 400 == 0);
    assert(leaps(1969) == 477);
}

/// Whole cycles add whole quotients, and do not change what is left.
proof fn lemma_cycles(era: int, x: int, k: int, n: int)
    requires
        k > 0,
        k * n == 400,
    ensures
        (400 * era + x) / k == n * era + x / k,
        (400 * era + x) % k == x % k,
{
    assert(400 * era == k * (n * era)) by (nonlinear_arith)
        requires
            k * n == 400,
    ;
    vstd::arithmetic::div_mod::lemma_hoist_over_denominator(x, n * era, k as nat);
    vstd::arithmetic::div_mod::lemma_mod_multiples_vanish(n * era, x, k);
    assert((n * era) * k == k * (n * era)) by (nonlinear_arith);
}

/// The month and the day of a day of the year, counted from March.
proof fn lemma_month(y: int, doy: int)
    requires
        0 <= doy <= 365,
        doy == 365 ==> leap(y + 1),
    ensures
        ({
            let mp = (5 * doy + 2) / 153;
            let d = doy - (153 * mp + 2) / 5 + 1;
            let m = if mp < 10 {
                mp + 3
            } else {
                mp - 9
            };
            &&& 0 <= mp <= 11
            &&& 1 <= d <= 31
            &&& m > 2 ==> is_date(y, m, d) && days_before_month(y, m) + d - 1
                == days_before_month(y, 3) + doy
            &&& m <= 2 ==> is_date(y + 1, m, d) && days_before_month(y + 1, m) + d - 1 == doy - 306
        }),
{
    let mp = (5 * doy + 2) / 153;
    lemma_months(y);
    lemma_months(y + 1);
    assert(0 <= mp <= 11);
    assert(153 * mp <= 5 * doy + 2 < 153 * mp + 153);
    if mp == 0 {
    } else if mp == 1 {
    } else if mp == 2 {
    } else if mp == 3 {
    } else if mp == 4 {
    } else if mp == 5 {
    } else if mp == 6 {
    } else if mp == 7 {
    } else if mp == 8 {
    } else if mp == 9 {
    } else if mp == 10 {
    } else {
        assert(mp == 11);
    }
}

/// Every day since the epoch has a date.
pub proof fn lemma_date(days: int) -> (r: (int, int, int))
    requires
        days >= 0,
    ensures
        is_date(r.0, r.1, r.2),
        day_number(r.0, r.1, r.2) == days,
{
    let z = days + 719468;
    let era = z / 146097;
    let doe = z % 146097;
    let yoe = (doe - doe / 1460 + doe / 36524 - doe / 146096) / 365;
    let (c, q, s) = lemma_cycle_day(doe);
    lemma_year_of_cycle(doe, c, q, s);
    lemma_day_of_year(doe, c, q, s);
    lemma_march(era, yoe);
    let y = yoe + era * 400;
    let doy = doe - (365 * yoe + yoe / 4 - yoe / 100);
    lemma_month(y, doy);
    let mp = (5 * doy + 2) / 153;
    let d = doy - (153 * mp + 2) / 5 + 1;
    let m = if mp < 10 {
        mp + 3
    } else {
        mp - 9
    };
    if m <= 2 {
        (y + 1, m, d)
    } else {
        (y, m, d)
    }
}

/// A day since the epoch falls in 1970 or later.
pub proof fn lemma_since_1970(y: int, m: int, d: int)
    requires
        is_date(y, m, d),
        day_number(y, m, d) >= 0,
    ensures
        y >= 1970,
{
    if y < 1970 {
        lemma_within(y, m, d);
        lemma_years(y + 1, 1970);
    }
}

/// The date of a day, counted from the epoch.
pub fn civil_from_days(days: u64) -> (r: (u64, u32, u32))
    requires
        days <= 0x1_0000_0000_0000,
    ensures
        is_date(r.0 as int, r.1 as int, r.2 as int),
        day_number(r.0 as int, r.1 as int, r.2 as int) == days,
{
    let z: u64 = days + 719468;
    let era: u64 = z / 146097;
    let doe: u64 = z - era * 146097;
    let yoe: u64 = (doe - doe / 1460 + doe / 36524 - doe / 146096) / 365;
    proof {
        let (c, q, s) = lemma_cycle_day(doe as int);
        lemma_year_of_cycle(doe as int, c, q, s);
        lemma_day_of_year(doe as int, c, q, s);
        lemma_march(era as int, yoe as int);
    }
    let y: u64 = yoe + era * 400;
    let doy: u64 = doe - (365 * yoe + yoe / 4 - yoe / 100);
    proof {
        lemma_month(y as int, doy as int);
    }
    let mp: u64 = (5 * doy + 2) / 153;
    let d: u32 = (doy - (153 * mp + 2) / 5 + 1) as u32;
    let m: u32 = (if mp < 10 {
        mp + 3
    } else {
        mp - 9
    }) as u32;
    if m <= 2 {
        (y + 1, m, d)
    } else {
        (y, m, d)
    }
}

// ---- laws ----

/// A year is as long as it should be.
pub proof fn law_years_have_their_length(y: int)
    ensures
        days_before_year(y + 1) - days_before_year(y) == if leap(y) {
            366int
        } else {
            365
        },
        days_before_month(y, 12) + 31 == days_before_year(y + 1) - days_before_year(y),
{
    lemma_leaps(y);
    lemma_months(y);
}

/// Whether a date comes before another.
pub open spec fn earlier(a: (int, int, int), b: (int, int, int)) -> bool {
    a.0 < b.0 || a.0 == b.0 && (a.1 < b.1 || a.1 == b.1 && a.2 < b.2)
}

/// Dates come in the order of their days: an earlier date has a smaller number.
pub proof fn law_dates_are_in_order(a: (int, int, int), b: (int, int, int))
    requires
        is_date(a.0, a.1, a.2),
        is_date(b.0, b.1, b.2),
        earlier(a, b),
    ensures
        day_number(a.0, a.1, a.2) < day_number(b.0, b.1, b.2),
{
    lemma_months(a.0);
    lemma_months(b.0);
    if a.0 < b.0 {
        law_years_have_their_length(a.0);
        lemma_years(a.0 + 1, b.0);
        lemma_within(a.0, a.1, a.2);
        lemma_within(b.0, b.1, b.2);
    } else if a.1 < b.1 {
        lemma_month_steps(a.0, a.1, b.1);
    }
}

/// A date lies within its year.
proof fn lemma_within(y: int, m: int, d: int)
    requires
        is_date(y, m, d),
    ensures
        days_before_year(y) <= day_number(y, m, d) < days_before_year(y + 1),
{
    law_years_have_their_length(y);
    lemma_months(y);
}

proof fn lemma_years(y: int, z: int)
    requires
        y <= z,
    ensures
        days_before_year(y) <= days_before_year(z),
    decreases z - y,
{
    if y < z {
        law_years_have_their_length(y);
        lemma_years(y + 1, z);
    }
}

proof fn lemma_month_steps(y: int, m: int, n: int)
    requires
        1 <= m < n <= 12,
    ensures
        days_before_month(y, m) + month_len(y, m) <= days_before_month(y, n),
    decreases n - m,
{
    if m + 1 < n {
        lemma_month_steps(y, m + 1, n);
    }
}

/// A day has one date: two dates with the same number are the same.
pub proof fn law_a_day_has_one_date(a: (int, int, int), b: (int, int, int))
    requires
        is_date(a.0, a.1, a.2),
        is_date(b.0, b.1, b.2),
        day_number(a.0, a.1, a.2) == day_number(b.0, b.1, b.2),
    ensures
        a == b,
{
    if earlier(a, b) {
        law_dates_are_in_order(a, b);
    }
    if earlier(b, a) {
        law_dates_are_in_order(b, a);
    }
}

/// Days are counted from the first of January 1970, and each is the day after the
/// one before it: the next of its month, or the first of the next month, or the
/// first of January after the last of December. February has 29 days in every
/// fourth year, but not in a hundredth unless that is a four hundredth.
pub proof fn law_a_day_follows_another(y: int, m: int, d: int)
    requires
        1 <= m <= 12,
        1 <= d,
    ensures
        ({
            let leap_year = y % 400 == 0 || (y % 4 == 0 && y % 100 != 0);
            let last = if m == 2 && leap_year {
                29int
            } else if m == 2 {
                28
            } else if m == 4 || m == 6 || m == 9 || m == 11 {
                30
            } else {
                31
            };
            &&& is_date(y, m, d) <==> d <= last
            &&& d < last ==> day_number(y, m, d + 1) == day_number(y, m, d) + 1
            &&& d == last && m < 12 ==> day_number(y, m + 1, 1) == day_number(y, m, d) + 1
            &&& d == last && m == 12 ==> day_number(y + 1, 1, 1) == day_number(y, m, d) + 1
            &&& day_number(1970, 1, 1) == 0
        }),
{
    law_years_have_their_length(y);
    lemma_months(y);
    lemma_months(y + 1);
    lemma_months(1970);
}

} // verus!
