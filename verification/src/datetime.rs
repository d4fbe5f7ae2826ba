//! Calendar arithmetic over plain values. An instant is a count of seconds
//! since 1970-01-01T00:00:00 UTC; a day number counts whole days since that
//! epoch. The proleptic Gregorian leap rule gives every year its length, and
//! every instant its year, without any external date library.

use vstd::prelude::*;

verus! {

/// Seconds in one calendar day.
pub const SECS_PER_DAY: u64 = 86400;

/// The earliest year the engine models (the epoch's year).
pub const MIN_YEAR: i32 = 1970;

/// The latest year the engine models.
pub const MAX_YEAR: i32 = 9999;

/// First instant outside the modelled range: 10000-01-01T00:00:00 UTC
/// in seconds since the epoch.
pub const MAX_TIME_SECS: u64 = 253_402_300_800;

/// Day number of 10000-01-01, i.e. how many days the modelled range holds.
pub const MAX_DAY_NUMBER: u64 = 2_932_897;

/// The Gregorian leap rule.
pub open spec fn is_leap_year(y: int) -> bool {
    y % 4 == 0 && (y % 100 != 0 || y % 400 == 0)
}

/// How many calendar days year `y` has.
pub open spec fn days_of_year(y: int) -> int {
    if is_leap_year(y) {
        366
    } else {
        365
    }
}

/// Days from the epoch to the first day of year `y` (0 for 1970 and
/// anything earlier).
pub open spec fn days_before_year(y: int) -> int
    decreases y - 1970,
{
    if y <= 1970 {
        0
    } else {
        days_before_year(y - 1) + days_of_year(y - 1)
    }
}

/// The day number an instant falls on.
pub open spec fn day_of(t: u64) -> int {
    t as int / 86400
}

/// An instant the engine models: anything before year 10000.
pub open spec fn valid_time(t: u64) -> bool {
    t < MAX_TIME_SECS
}

/// The year that holds day number `d`, found by walking years upward from
/// `y`; clamped to `MAX_YEAR`.
pub open spec fn year_of_from(y: int, d: int) -> int
    decreases 10000 - y,
{
    if y >= 9999 {
        9999
    } else if d < days_before_year(y + 1) {
        y
    } else {
        year_of_from(y + 1, d)
    }
}

/// The calendar year an instant falls in.
pub open spec fn spec_year_of_time(t: u64) -> int {
    year_of_from(1970, day_of(t))
}

/// `days_before_year` grows with the year.
pub proof fn lemma_days_before_year_mono(y1: int, y2: int)
    requires
        y1 <= y2,
    ensures
        days_before_year(y1) <= days_before_year(y2),
    decreases y2 - y1,
{
    if y1 < y2 {
        lemma_days_before_year_mono(y1, y2 - 1);
    }
}

/// Leap years strictly before year `y`, counted from year 1.
pub open spec fn leaps_before(y: int) -> int {
    (y - 1) / 4 - (y - 1) / 100 + (y - 1) / 400
}

/// Stepping a numerator by one moves a quotient up exactly when the new
/// numerator is a multiple of the divisor.
proof fn lemma_div_step(n: int, k: int)
    requires
        1 <= n,
        1 <= k,
    ensures
        n % k == 0 ==> n / k == (n - 1) / k + 1,
        n % k != 0 ==> n / k == (n - 1) / k,
{
    let q = (n - 1) / k;
    let r = (n - 1) % k;
    vstd::arithmetic::div_mod::lemma_fundamental_div_mod(n - 1, k);
    vstd::arithmetic::div_mod::lemma_mod_bound(n - 1, k);
    if r + 1 == k {
        assert((q + 1) * k + 0 == q * k + k) by (nonlinear_arith);
        assert(k * q == q * k) by (nonlinear_arith);
        vstd::arithmetic::div_mod::lemma_fundamental_div_mod_converse(n, k, q + 1, 0);
    } else {
        vstd::arithmetic::div_mod::lemma_fundamental_div_mod_converse(n, k, q, r + 1);
    }
}

/// A multiple of 400 is a multiple of 100 and of 4; a multiple of 100 is a
/// multiple of 4.
proof fn lemma_leap_divisors(y: int)
    requires
        0 <= y,
    ensures
        y % 400 == 0 ==> y % 100 == 0 && y % 4 == 0,
        y % 100 == 0 ==> y % 4 == 0,
{
    vstd::arithmetic::div_mod::lemma_mod_mod(y, 100, 4);
    vstd::arithmetic::div_mod::lemma_mod_mod(y, 4, 100);
    vstd::arithmetic::div_mod::lemma_mod_mod(y, 4, 25);
}

/// `leaps_before` counts exactly one more leap year each time a leap year
/// is passed.
proof fn lemma_leaps_before_step(y: int)
    requires
        1 <= y,
    ensures
        leaps_before(y + 1) == leaps_before(y) + if is_leap_year(y) {
            1int
        } else {
            0int
        },
{
    lemma_div_step(y, 4);
    lemma_div_step(y, 100);
    lemma_div_step(y, 400);
    lemma_leap_divisors(y);
}

/// Closed form for `days_before_year` over the modelled range.
pub proof fn lemma_days_before_year_closed(y: int)
    requires
        1970 <= y <= 10000,
    ensures
        days_before_year(y) == 365 * (y - 1970) + leaps_before(y) - leaps_before(1970),
    decreases y,
{
    if y > 1970 {
        lemma_days_before_year_closed(y - 1);
        lemma_leaps_before_step(y - 1);
    }
}

/// The modelled range ends exactly at day `MAX_DAY_NUMBER`.
pub proof fn lemma_days_before_year_end()
    ensures
        days_before_year(10000) == MAX_DAY_NUMBER,
{
    lemma_days_before_year_closed(10000);
}

/// Whether year `y` is a leap year.
pub fn leap_year(year: i32) -> (r: bool)
    requires
        0 <= year,
    ensures
        r == is_leap_year(year as int),
{
    year % 4 == 0 && (year % 100 != 0 || year % 400 == 0)
}

/// The number of calendar days in year `year`.
pub fn days_in_year(year: i32) -> (r: usize)
    requires
        0 <= year,
    ensures
        r == days_of_year(year as int),
{
    if leap_year(year) {
        366
    } else {
        365
    }
}

/// The day number of the first day of year `year`.
pub fn first_day_number(year: i32) -> (d: u64)
    requires
        MIN_YEAR <= year <= MAX_YEAR,
    ensures
        d == days_before_year(year as int),
        d < MAX_DAY_NUMBER,
{
    let mut y: i32 = MIN_YEAR;
    let mut d: u64 = 0;
    while y < year
        invariant
            MIN_YEAR <= y <= year <= MAX_YEAR,
            d == days_before_year(y as int),
        decreases year - y,
    {
        proof {
            lemma_days_before_year_mono(y as int + 1, 10000);
            lemma_days_before_year_end();
        }
        d = d + days_in_year(y) as u64;
        y = y + 1;
    }
    proof {
        lemma_days_before_year_mono(year as int + 1, 10000);
        lemma_days_before_year_end();
    }
    d
}

/// The first instant of year `year` (midnight, January 1st), in seconds
/// since the epoch.
pub fn first_day_in_year(year: i32) -> (t: u64)
    requires
        MIN_YEAR <= year <= MAX_YEAR,
    ensures
        t == 86400 * days_before_year(year as int),
        valid_time(t),
{
    let d = first_day_number(year);
    d * SECS_PER_DAY
}

/// The first instant (midnight) of the day that `time_in_day` falls on.
pub fn first_time_in_day(time_in_day: u64) -> (t: u64)
    ensures
        t == 86400 * day_of(time_in_day),
        t <= time_in_day,
{
    proof {
        vstd::arithmetic::div_mod::lemma_fundamental_div_mod(time_in_day as int, 86400);
    }
    (time_in_day / SECS_PER_DAY) * SECS_PER_DAY
}

/// The first instant of the day after the one that `time_in_day` falls on.
pub fn end_of_day(time_in_day: u64) -> (t: u64)
    requires
        valid_time(time_in_day),
    ensures
        t == 86400 * (day_of(time_in_day) + 1),
        time_in_day < t <= MAX_TIME_SECS,
{
    proof {
        vstd::arithmetic::div_mod::lemma_fundamental_div_mod(time_in_day as int, 86400);
        assert(day_of(time_in_day) + 1 <= MAX_DAY_NUMBER);
    }
    (time_in_day / SECS_PER_DAY + 1) * SECS_PER_DAY
}

/// The year that day number `day` falls in.
pub fn year_of_day(day: u64) -> (y: i32)
    requires
        day < MAX_DAY_NUMBER,
    ensures
        MIN_YEAR <= y <= MAX_YEAR,
        y == year_of_from(1970, day as int),
        days_before_year(y as int) <= day < days_before_year(y as int + 1),
{
    let mut y: i32 = MIN_YEAR;
    let mut acc: u64 = 0;
    loop
        invariant
            MIN_YEAR <= y <= MAX_YEAR,
            acc == days_before_year(y as int),
            acc <= day < MAX_DAY_NUMBER,
            year_of_from(1970, day as int) == year_of_from(y as int, day as int),
        decreases MAX_YEAR - y,
    {
        proof {
            lemma_days_before_year_mono(y as int + 1, 10000);
            lemma_days_before_year_end();
        }
        if y == MAX_YEAR {
            return y;
        }
        let next = acc + days_in_year(y) as u64;
        if day < next {
            return y;
        }
        acc = next;
        y = y + 1;
    }
}

/// The calendar year an instant falls in.
pub fn year_of_time(t: u64) -> (y: i32)
    requires
        valid_time(t),
    ensures
        MIN_YEAR <= y <= MAX_YEAR,
        y == spec_year_of_time(t),
        days_before_year(y as int) <= day_of(t) < days_before_year(y as int + 1),
{
    proof {
        vstd::arithmetic::div_mod::lemma_fundamental_div_mod(t as int, 86400);
    }
    year_of_day(t / SECS_PER_DAY)
}

/// Calendar days of the current year that have begun by instant `now`:
/// January 1st through the day of `now`, inclusive.
pub fn days_in_current_year(now: u64) -> (r: usize)
    requires
        valid_time(now),
    ensures
        r == day_of(now) - days_before_year(spec_year_of_time(now)) + 1,
        1 <= r <= 366,
{
    let y = year_of_time(now);
    let start = first_day_number(y);
    proof {
        vstd::arithmetic::div_mod::lemma_fundamental_div_mod(now as int, 86400);
        assert(days_before_year(y as int + 1) == days_before_year(y as int) + days_of_year(
            y as int,
        ));
    }
    let today = now / SECS_PER_DAY;
    (today - start + 1) as usize
}

} // verus!
