//! The proleptic Gregorian calendar, counted in days from 1970-01-01.
use vstd::prelude::*;

verus! {

/// Whether `y` is a leap year of the proleptic Gregorian calendar.
pub open spec fn is_leap_year(y: int) -> bool {
    y % 4 == 0 && (y % 100 != 0 || y % 400 == 0)
}

/// The number of days in month `m` (1 = January) of year `y`.
pub open spec fn days_in_month(y: int, m: int) -> int {
    if m == 2 {
        if is_leap_year(y) {
            29
        } else {
            28
        }
    } else if m == 4 || m == 6 || m == 9 || m == 11 {
        30
    } else {
        31
    }
}

/// The number of days in year `y`.
pub open spec fn days_in_year(y: int) -> int {
    if is_leap_year(y) {
        366
    } else {
        365
    }
}

/// Whether year `y`, month `m` and day `d` name a day of the calendar.
pub open spec fn is_valid_date(y: int, m: int, d: int) -> bool {
    1 <= m <= 12 && 1 <= d <= days_in_month(y, m)
}

/// The number of days from 0000-01-01 to the first day of year `y`: 365 per year
/// plus one for each leap year among them (for years before 0, the same count
/// taken negatively).
pub open spec fn days_before_year(y: int) -> int {
    365 * y + (y + 3) / 4 - (y + 99) / 100 + (y + 399) / 400
}

/// The number of days in year `y` before the first day of month `m`.
pub open spec fn days_before_month(y: int, m: int) -> int
    decreases m,
{
    if m <= 1 {
        0
    } else {
        days_before_month(y, m - 1) + days_in_month(y, m - 1)
    }
}

/// The number of days from 1970-01-01 to year `y`, month `m`, day `d`
/// (negative before 1970).
pub open spec fn days_from_civil(y: int, m: int, d: int) -> int {
    days_before_year(y) - days_before_year(1970) + days_before_month(y, m) + d - 1
}

/// The date that lies `days` days after 1970-01-01 (before it, where `days` is
/// negative).
pub open spec fn civil_date(days: int) -> (int, int, int) {
    choose|date: (int, int, int)|
        is_valid_date(date.0, date.1, date.2) && days_from_civil(date.0, date.1, date.2) == days
}

proof fn lemma_div_step(a: int, k: int)
    requires
        k > 0,
    ensures
        (a + 1) / k == a / k + (if (a + 1) % k == 0 {
            1int
        } else {
            0int
        }),
{
    assert((a + 1) / k == a / k + (if (a + 1) % k == 0 {
        1int
    } else {
        0int
    })) by (nonlinear_arith)
        requires
            k > 0,
    {
        let q = a / k;
        let r = a % k;
        assert(a == k * q + r && 0 <= r < k);
        if r + 1 == k {
            assert(a + 1 == k * (q + 1));
        } else {
            assert(a + 1 == k * q + (r + 1));
        }
    }
}

/// Each year is as long as the calendar says: the days before year `y + 1`
/// are those before `y` and the days of `y`.
pub proof fn lemma_year_length(y: int)
    ensures
        days_before_year(y + 1) == days_before_year(y) + days_in_year(y),
{
    lemma_div_step(y + 3, 4);
    lemma_div_step(y + 99, 100);
    lemma_div_step(y + 399, 400);
    assert((y + 4) % 4 == y % 4) by (nonlinear_arith);
    assert((y + 100) % 100 == y % 100) by (nonlinear_arith);
    assert((y + 400) % 400 == y % 400) by (nonlinear_arith);
    if y % 100 == 0 {
        assert(y % 4 == 0) by (nonlinear_arith)
            requires
                y % 100 == 0,
        ;
    }
    if y % 400 == 0 {
        assert(y % 100 == 0) by (nonlinear_arith)
            requires
                y % 400 == 0,
        ;
    }
}

proof fn lemma_days_before_year_monotone(a: int, b: int)
    requires
        a <= b,
    ensures
        days_before_year(a) <= days_before_year(b),
    decreases b - a,
{
    if a < b {
        lemma_year_length(b - 1);
        lemma_days_before_year_monotone(a, b - 1);
    }
}

proof fn lemma_days_before_month_table(y: int)
    ensures
        days_before_month(y, 1) == 0,
        days_before_month(y, 2) == 31,
        days_before_month(y, 3) == 59 + (if is_leap_year(y) {
            1int
        } else {
            0int
        }),
        days_before_month(y, 4) == days_before_month(y, 3) + 31,
        days_before_month(y, 5) == days_before_month(y, 3) + 61,
        days_before_month(y, 6) == days_before_month(y, 3) + 92,
        days_before_month(y, 7) == days_before_month(y, 3) + 122,
        days_before_month(y, 8) == days_before_month(y, 3) + 153,
        days_before_month(y, 9) == days_before_month(y, 3) + 184,
        days_before_month(y, 10) == days_before_month(y, 3) + 214,
        days_before_month(y, 11) == days_before_month(y, 3) + 245,
        days_before_month(y, 12) == days_before_month(y, 3) + 275,
        days_before_month(y, 13) == days_before_month(y, 3) + 306,
        days_before_month(y, 13) == days_in_year(y),
{
    reveal_with_fuel(days_before_month, 13);
}

proof fn lemma_days_before_month_monotone(y: int, a: int, b: int)
    requires
        a <= b,
    ensures
        days_before_month(y, a) <= days_before_month(y, b),
    decreases b - a,
{
    if a < b {
        lemma_days_before_month_monotone(y, a, b - 1);
    }
}

/// A valid date lies inside its year and, within the year, inside its month.
proof fn lemma_date_in_year(y: int, m: int, d: int)
    requires
        is_valid_date(y, m, d),
    ensures
        0 <= days_before_month(y, m),
        days_before_month(y, m) + d - 1 < days_before_month(y, m + 1),
        days_before_month(y, m + 1) <= days_in_year(y),
{
    lemma_days_before_month_table(y);
    lemma_days_before_month_monotone(y, 1, m);
    lemma_days_before_month_monotone(y, m + 1, 13);
}

/// Two valid dates that lie the same number of days from 1970-01-01 are the
/// same date.
pub proof fn lemma_days_from_civil_injective(y1: int, m1: int, d1: int, y2: int, m2: int, d2: int)
    requires
        is_valid_date(y1, m1, d1),
        is_valid_date(y2, m2, d2),
        days_from_civil(y1, m1, d1) == days_from_civil(y2, m2, d2),
    ensures
        y1 == y2 && m1 == m2 && d1 == d2,
{
    lemma_date_in_year(y1, m1, d1);
    lemma_date_in_year(y2, m2, d2);
    lemma_year_length(y1);
    lemma_year_length(y2);
    if y1 < y2 {
        lemma_days_before_year_monotone(y1 + 1, y2);
        assert(false);
    }
    if y2 < y1 {
        lemma_days_before_year_monotone(y2 + 1, y1);
        assert(false);
    }
    if m1 < m2 {
        lemma_days_before_month_monotone(y1, m1 + 1, m2);
        assert(false);
    }
    if m2 < m1 {
        lemma_days_before_month_monotone(y1, m2 + 1, m1);
        assert(false);
    }
}

/// The days before year-of-era `yoe` when years begin on March 1 and the era
/// on 0000-03-01.
spec fn days_before_march_year(yoe: int) -> int {
    365 * yoe + yoe / 4 - yoe / 100 + yoe / 400
}

/// The first day of month `mp` of a year that begins in March (0 = March).
spec fn march_month_start(mp: int) -> int {
    (153 * mp + 2) / 5
}

/// The year of era that holds day of era `doe`.
spec fn year_of_era(doe: int) -> int {
    (doe - doe / 1460 + doe / 36524 - doe / 146096) / 365
}

proof fn lemma_year_of_era(doe: int)
    requires
        0 <= doe <= 146096,
    ensures
        0 <= year_of_era(doe) <= 399,
        days_before_march_year(year_of_era(doe)) <= doe,
        doe - days_before_march_year(year_of_era(doe)) < 365 + (if is_leap_year(
            year_of_era(doe) + 1,
        ) {
            1int
        } else {
            0int
        }),
{
    if doe == 146096 {
        assert(year_of_era(doe) == 399);
        assert(days_before_march_year(399) == 145731);
        assert(is_leap_year(400));
    } else {
        let c = doe / 36524;
        let r1 = doe % 36524;
        assert(0 <= c <= 3);
        let q = r1 / 1461;
        let t = r1 % 1461;
        assert(0 <= q <= 24);
        assert(q == 24 ==> t <= 1459);
        let b: int = if t == 1460 {
            3
        } else {
            t / 365
        };
        let u = t - 365 * b;
        assert(0 <= b <= 3);
        assert(0 <= u <= 365);
        assert(u == 365 ==> t == 1460);
        assert(doe == 36524 * c + 1461 * q + t);
        assert(doe / 146096 == 0);
        assert(doe / 36524 == c);
        let delta: int = if t >= 1460 - q - 24 * c {
            1
        } else {
            0
        };
        assert(doe == 1460 * (25 * c + q) + (24 * c + q + t));
        assert(0 <= 24 * c + q + t < 2 * 1460);
        assert(doe / 1460 == 25 * c + q + delta);
        let yoe = 100 * c + 4 * q + b;
        assert(doe - doe / 1460 + doe / 36524 - doe / 146096 == 365 * yoe + u - delta);
        assert(delta == 1 ==> u >= 1);
        assert(0 <= u - delta <= 364);
        assert(year_of_era(doe) == yoe);
        assert(yoe / 4 == 25 * c + q);
        assert(yoe / 100 == c);
        assert(yoe / 400 == 0);
        assert(days_before_march_year(yoe) == 36524 * c + 1461 * q + 365 * b);
        assert(doe - days_before_march_year(yoe) == u);
        if u == 365 {
            assert((yoe + 1) % 4 == 0);
            assert((yoe + 1) % 100 != 0);
        }
    }
}

proof fn lemma_march_month(doy: int, leap: bool)
    requires
        0 <= doy < 365 + (if leap {
            1int
        } else {
            0int
        }),
    ensures
        0 <= (5 * doy + 2) / 153 <= 11,
        ({
            let mp = (5 * doy + 2) / 153;
            let d = doy - march_month_start(mp) + 1;
            &&& 1 <= d
            &&& mp == 11 ==> d <= 28 + (if leap {
                1int
            } else {
                0int
            })
            &&& (mp == 1 || mp == 3 || mp == 6 || mp == 8) ==> d <= 30
            &&& d <= 31
        }),
        march_month_start(0) == 0,
        march_month_start(1) == 31,
        march_month_start(2) == 61,
        march_month_start(3) == 92,
        march_month_start(4) == 122,
        march_month_start(5) == 153,
        march_month_start(6) == 184,
        march_month_start(7) == 214,
        march_month_start(8) == 245,
        march_month_start(9) == 275,
        march_month_start(10) == 306,
        march_month_start(11) == 337,
{
    let mp = (5 * doy + 2) / 153;
    assert(153 * mp <= 5 * doy + 2 < 153 * mp + 153);
}

/// The date `z` days after 0000-03-01, computed era by era (400 years each)
/// with years that begin on March 1.
spec fn date_from_march_epoch(z: int) -> (int, int, int) {
    let era = z / 146097;
    let doe = z - era * 146097;
    let yoe = year_of_era(doe);
    let doy = doe - (365 * yoe + yoe / 4 - yoe / 100);
    let mp = (5 * doy + 2) / 153;
    let d = doy - march_month_start(mp) + 1;
    let m = if mp < 10 {
        mp + 3
    } else {
        mp - 9
    };
    let y = yoe + era * 400 + (if m <= 2 {
        1int
    } else {
        0int
    });
    (y, m, d)
}

proof fn lemma_days_before_year_era(e: int, k: int)
    ensures
        days_before_year(400 * e + k) == 146097 * e + days_before_year(k),
{
    assert((400 * e + k + 3) / 4 == 100 * e + (k + 3) / 4);
    assert((400 * e + k + 99) / 100 == 4 * e + (k + 99) / 100);
    assert((400 * e + k + 399) / 400 == e + (k + 399) / 400);
}

proof fn lemma_march_year_start(yoe: int)
    requires
        0 <= yoe <= 399,
    ensures
        days_before_year(yoe) + (if is_leap_year(yoe) {
            1int
        } else {
            0int
        }) == days_before_march_year(yoe) + 1,
        days_before_year(yoe + 1) == days_before_march_year(yoe) + 366,
{
    assert((yoe + 3) / 4 == yoe / 4 + (if yoe % 4 != 0 {
        1int
    } else {
        0int
    }));
    assert((yoe + 99) / 100 == yoe / 100 + (if yoe % 100 != 0 {
        1int
    } else {
        0int
    }));
    assert((yoe + 399) / 400 == (if yoe >= 1 {
        1int
    } else {
        0int
    }));
    if yoe % 100 == 0 {
        assert(yoe % 4 == 0);
    }
    assert(yoe % 400 == 0 <==> yoe == 0);
    assert((yoe + 4) / 4 == yoe / 4 + 1);
    assert((yoe + 100) / 100 == yoe / 100 + 1);
    assert((yoe + 400) / 400 == 1);
}

proof fn lemma_leap_year_era(e: int, k: int)
    ensures
        is_leap_year(400 * e + k) == is_leap_year(k),
{
    assert((400 * e + k) % 4 == k % 4);
    assert((400 * e + k) % 100 == k % 100);
    assert((400 * e + k) % 400 == k % 400);
}

proof fn lemma_date_from_march_epoch(z: int)
    ensures
        ({
            let date = date_from_march_epoch(z);
            is_valid_date(date.0, date.1, date.2) && days_before_year(date.0) + days_before_month(
                date.0,
                date.1,
            ) + date.2 - 1 == z + 60
        }),
{
    let era = z / 146097;
    let doe = z - era * 146097;
    assert(0 <= doe < 146097);
    lemma_year_of_era(doe);
    let yoe = year_of_era(doe);
    assert(yoe / 400 == 0);
    lemma_march_year_start(yoe);
    let doy = doe - (365 * yoe + yoe / 4 - yoe / 100);
    assert(doy == doe - days_before_march_year(yoe));
    let leap = is_leap_year(yoe + 1);
    lemma_march_month(doy, leap);
    let mp = (5 * doy + 2) / 153;
    let date = date_from_march_epoch(z);
    if mp < 10 {
        let y = yoe + era * 400;
        assert(date.0 == y && date.1 == mp + 3);
        lemma_days_before_year_era(era, yoe);
        lemma_leap_year_era(era, yoe);
        lemma_days_before_month_table(y);
    } else {
        let y = yoe + 1 + era * 400;
        assert(date.0 == y && date.1 == mp - 9);
        lemma_days_before_year_era(era, yoe + 1);
        lemma_leap_year_era(era, yoe + 1);
        lemma_days_before_month_table(y);
    }
}

proof fn lemma_era(z: int)
    ensures
        (if z >= 0 {
            z / 146097
        } else {
            -((-(z - 146096)) / 146097)
        }) == z / 146097,
{
    if z < 0 {
        let n = -z;
        assert(-((n + 146096) / 146097) == (-n) / 146097) by (nonlinear_arith)
            requires
                n > 0,
        {
            let q = (n + 146096) / 146097;
            let r = (n + 146096) % 146097;
            assert(n + 146096 == 146097 * q + r);
            assert(-n == 146097 * (-q) + (146096 - r));
        }
    }
}

/// The date that lies `days_since_unix_epoch` days after 1970-01-01, as year,
/// month (1 = January) and day of month. The year is narrowed to `i32` as a
/// cast does.
#[verifier::rlimit(40)]
pub fn civil_from_days(days_since_unix_epoch: i64) -> (date: (i32, u32, u32))
    requires
        i64::MIN + 146_096 - 719_468 <= days_since_unix_epoch <= i64::MAX - 719_468,
    ensures
        date.0 == civil_date(days_since_unix_epoch as int).0 as i32,
        date.1 == civil_date(days_since_unix_epoch as int).1,
        date.2 == civil_date(days_since_unix_epoch as int).2,
        is_valid_date(
            civil_date(days_since_unix_epoch as int).0,
            civil_date(days_since_unix_epoch as int).1,
            civil_date(days_since_unix_epoch as int).2,
        ),
{
    let z = days_since_unix_epoch + 719_468;
    proof {
        lemma_era(z as int);
    }
    let era = if z >= 0 {
        z
    } else {
        z - 146_096
    } / 146_097;
    assert(era == z / 146097);
    assert(-63_132_837_180_000 <= era <= 63_132_837_180_000);
    let day_of_era = z - era * 146_097;
    assert(0 <= day_of_era < 146097);
    let year_of_era = (day_of_era - day_of_era / 1_460 + day_of_era / 36_524 - day_of_era
        / 146_096) / 365;
    proof {
        lemma_year_of_era(day_of_era as int);
    }
    assert(year_of_era == self::year_of_era(day_of_era as int));
    let day_of_year = day_of_era - (365 * year_of_era + year_of_era / 4 - year_of_era / 100);
    proof {
        lemma_march_month(day_of_year as int, is_leap_year(year_of_era + 1));
    }
    let month_prime = (5 * day_of_year + 2) / 153;
    let day = day_of_year - (153 * month_prime + 2) / 5 + 1;
    let month = month_prime + if month_prime < 10 {
        3
    } else {
        -9
    };
    let year = year_of_era + era * 400 + if month <= 2 {
        1
    } else {
        0
    };
    proof {
        let ghost_z = z as int;
        lemma_date_from_march_epoch(ghost_z);
        let date = date_from_march_epoch(ghost_z);
        assert(date == (year as int, month as int, day as int));
        assert(days_from_civil(date.0, date.1, date.2) == days_since_unix_epoch) by {
            assert(days_before_year(1970) == 719528);
        }
        let chosen = civil_date(days_since_unix_epoch as int);
        assert(is_valid_date(chosen.0, chosen.1, chosen.2) && days_from_civil(
            chosen.0,
            chosen.1,
            chosen.2,
        ) == days_since_unix_epoch);
        lemma_days_from_civil_injective(chosen.0, chosen.1, chosen.2, date.0, date.1, date.2);
    }
    (year as i32, month as u32, day as u32)
}

/// Every date is the date of its own day count: the date that lies
/// `days_from_civil(y, m, d)` days after 1970-01-01 is `y-m-d`.
pub proof fn lemma_civil_date_round_trip(y: int, m: int, d: int)
    requires
        is_valid_date(y, m, d),
    ensures
        civil_date(days_from_civil(y, m, d)) == (y, m, d),
{
    let days = days_from_civil(y, m, d);
    assert(is_valid_date((y, m, d).0, (y, m, d).1, (y, m, d).2) && days_from_civil(
        (y, m, d).0,
        (y, m, d).1,
        (y, m, d).2,
    ) == days);
    let chosen = civil_date(days);
    lemma_days_from_civil_injective(chosen.0, chosen.1, chosen.2, y, m, d);
}

/// Every day count has its date: `civil_date(days)` is a valid date, and it
/// lies `days` days after 1970-01-01.
pub proof fn lemma_civil_date(days: int)
    ensures
        is_valid_date(civil_date(days).0, civil_date(days).1, civil_date(days).2),
        days_from_civil(civil_date(days).0, civil_date(days).1, civil_date(days).2) == days,
{
    let z = days + 719_468;
    lemma_date_from_march_epoch(z);
    let date = date_from_march_epoch(z);
    assert(days_before_year(1970) == 719528);
    assert(is_valid_date(date.0, date.1, date.2) && days_from_civil(date.0, date.1, date.2)
        == days);
}

/// The day after date `(y, m, d)`.
pub open spec fn next_date(y: int, m: int, d: int) -> (int, int, int) {
    if d < days_in_month(y, m) {
        (y, m, d + 1)
    } else if m < 12 {
        (y, m + 1, 1)
    } else {
        (y + 1, 1, 1)
    }
}

/// The date of the next day count is the day after the date of this one.
pub proof fn lemma_civil_date_next(days: int)
    ensures
        civil_date(days + 1) == next_date(civil_date(days).0, civil_date(days).1, civil_date(days).2),
{
    lemma_civil_date(days);
    lemma_civil_date(days + 1);
    let (y, m, d) = civil_date(days);
    let n = next_date(y, m, d);
    lemma_days_before_month_table(y);
    if d < days_in_month(y, m) {
    } else if m < 12 {
        assert(days_before_month(y, m + 1) == days_before_month(y, m) + days_in_month(y, m));
    } else {
        lemma_year_length(y);
        lemma_days_before_month_table(y + 1);
    }
    assert(is_valid_date(n.0, n.1, n.2));
    assert(days_from_civil(n.0, n.1, n.2) == days + 1);
    let c = civil_date(days + 1);
    lemma_days_from_civil_injective(c.0, c.1, c.2, n.0, n.1, n.2);
}

/// The date and time of day of a UTC timestamp of `seconds` since 1970-01-01:
/// the date of day `seconds / 86400` and the hour, minute and second of
/// `seconds % 86400` add up to `seconds` again, each in its range; before
/// year 10000 the year lies in 1970..=9999.
pub proof fn lemma_timestamp_parts(seconds: int)
    requires
        seconds >= 0,
    ensures
        ({
            let date = civil_date(seconds / 86_400);
            let second_of_day = seconds % 86_400;
            &&& is_valid_date(date.0, date.1, date.2)
            &&& days_from_civil(date.0, date.1, date.2) * 86_400 + (second_of_day / 3_600) * 3_600
                + ((second_of_day % 3_600) / 60) * 60 + second_of_day % 60 == seconds
            &&& second_of_day / 3_600 < 24
            &&& (second_of_day % 3_600) / 60 < 60
            &&& second_of_day % 60 < 60
            &&& 1970 <= date.0
            &&& seconds < 253_402_300_800 ==> date.0 <= 9999
        }),
{
    let days = seconds / 86_400;
    lemma_civil_date(days);
    let (y, m, d) = civil_date(days);
    lemma_date_in_year(y, m, d);
    lemma_year_length(y);
    assert(days_before_year(1970) == 719528);
    if y < 1970 {
        lemma_days_before_year_monotone(y + 1, 1970);
        assert(false);
    }
    if y >= 10000 && seconds < 253_402_300_800 {
        lemma_days_before_year_monotone(10000, y);
        assert(days_before_year(10000) == 3652425);
        assert(days >= 2932897);
        assert(false);
    }
}
} // verus!
