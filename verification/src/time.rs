use vstd::prelude::*;

verus! {

/// A point in time as seconds and nanoseconds since the Unix epoch; before the
/// epoch `seconds` is negative and `nanos` counts forward from it.
#[derive(Debug, Clone, Copy, PartialEq, Eq, Structural)]
pub struct UnixTime {
    pub seconds: i64,
    pub nanos: u32,
}

// ---------------------------------------------------------------------------
// Offsets from the epoch
// ---------------------------------------------------------------------------

/// The instant, in nanoseconds since the epoch, of an offset of `secs`
/// seconds and `nanos` nanoseconds after (or before) the epoch.
pub open spec fn offset_nanos(before_epoch: bool, secs: int, nanos: int) -> int {
    if before_epoch {
        -(secs * 1_000_000_000 + nanos)
    } else {
        secs * 1_000_000_000 + nanos
    }
}

/// The instant of a `UnixTime`, in nanoseconds since the epoch.
pub open spec fn instant_nanos(t: UnixTime) -> int {
    t.seconds * 1_000_000_000 + t.nanos
}

impl UnixTime {
    /// The time `secs` seconds and `nanos` nanoseconds after the epoch, or
    /// before it when `before_epoch`; seconds beyond `i64::MAX` are clamped.
    pub fn from_epoch_offset(before_epoch: bool, secs: u64, nanos: u32) -> (r: UnixTime)
        requires
            nanos < 1_000_000_000,
        ensures
            r.nanos < 1_000_000_000,
            secs <= i64::MAX ==> instant_nanos(r) == offset_nanos(before_epoch, secs as int, nanos as int),
            !before_epoch ==> r.seconds == (if secs > i64::MAX { i64::MAX as int } else { secs as int }) && r.nanos == nanos,
    {
        let clamped: i64 = if secs > i64::MAX as u64 {
            i64::MAX
        } else {
            secs as i64
        };
        if !before_epoch {
            UnixTime { seconds: clamped, nanos }
        } else if nanos == 0 {
            UnixTime { seconds: -clamped, nanos: 0 }
        } else {
            assert(clamped < i64::MAX ==> -(clamped + 1) >= i64::MIN);
            let seconds: i64 = if clamped == i64::MAX {
                i64::MIN
            } else {
                -(clamped + 1)
            };
            proof {
                if secs <= i64::MAX {
                    assert(seconds == -(secs + 1));
                    assert(instant_nanos(UnixTime { seconds, nanos: (1_000_000_000 - nanos) as u32 })
                        == offset_nanos(before_epoch, secs as int, nanos as int)) by (nonlinear_arith)
                        requires
                            seconds == -(secs + 1),
                            before_epoch,
                            nanos < 1_000_000_000,
                    ;
                }
            }
            UnixTime { seconds, nanos: 1_000_000_000 - nanos }
        }
    }

    /// The offset from the epoch of this time: whether it lies before it, the
    /// whole seconds and the nanoseconds. After the epoch, whole seconds in
    /// `nanos` are carried into the seconds.
    pub fn to_epoch_offset(self) -> (r: (bool, u64, u32))
        requires
            self.seconds < 0 ==> self.nanos < 1_000_000_000,
        ensures
            r.2 < 1_000_000_000,
            offset_nanos(r.0, r.1 as int, r.2 as int) == instant_nanos(self),
            r.0 <==> self.seconds < 0,
    {
        if self.seconds >= 0 {
            let carry: u64 = (self.nanos / 1_000_000_000) as u64;
            let rest: u32 = self.nanos % 1_000_000_000;
            proof {
                assert(self.nanos == carry * 1_000_000_000 + rest) by (nonlinear_arith)
                    requires
                        carry == self.nanos / 1_000_000_000,
                        rest == self.nanos % 1_000_000_000,
                ;
                assert(carry <= 4);
                assert((self.seconds + carry) * 1_000_000_000 + rest == self.seconds * 1_000_000_000 + self.nanos)
                    by (nonlinear_arith)
                    requires
                        self.nanos == carry * 1_000_000_000 + rest,
                ;
            }
            (false, self.seconds as u64 + carry, rest)
        } else if self.nanos == 0 {
            let secs: u64 = (0 - (self.seconds as i128)) as u64;
            (true, secs, 0)
        } else {
            let secs: u64 = (0 - (self.seconds as i128) - 1) as u64;
            proof {
                assert(offset_nanos(true, secs as int, (1_000_000_000 - self.nanos) as int) == instant_nanos(self))
                    by (nonlinear_arith)
                    requires
                        secs == -self.seconds - 1,
                ;
            }
            (true, secs, 1_000_000_000 - self.nanos)
        }
    }
}

/// A time is determined by its instant: two normalized times at the same
/// instant are equal, so taking a time apart into its epoch offset and
/// building it again gives the same time.
pub proof fn law_instant_determines_time(a: UnixTime, b: UnixTime)
    requires
        a.nanos < 1_000_000_000,
        b.nanos < 1_000_000_000,
        instant_nanos(a) == instant_nanos(b),
    ensures
        a == b,
{
    assert(a.seconds == b.seconds) by (nonlinear_arith)
        requires
            a.nanos < 1_000_000_000,
            b.nanos < 1_000_000_000,
            a.seconds * 1_000_000_000 + a.nanos == b.seconds * 1_000_000_000 + b.nanos,
    ;
}

// ---------------------------------------------------------------------------
// Civil dates
// ---------------------------------------------------------------------------

/// The proleptic Gregorian date `(year, month, day)` of a count of days since
/// 1970-01-01, by the era-based method: eras of 400 years (146097 days) that
/// start on March 1st.
pub open spec fn civil_of_days(days: int) -> (int, int, int) {
    let z = days + 719_468;
    let era = z / 146_097;
    let doe = z - era * 146_097;
    let yoe = (doe - doe / 1_460 + doe / 36_524 - doe / 146_096) / 365;
    let y = yoe + era * 400;
    let doy = doe - (365 * yoe + yoe / 4 - yoe / 100);
    let mp = (5 * doy + 2) / 153;
    let d = doy - (153 * mp + 2) / 5 + 1;
    let m = if mp < 10 { mp + 3 } else { mp - 9 };
    (if m <= 2 { y + 1 } else { y }, m, d)
}

/// The count of days since 1970-01-01 of a proleptic Gregorian date, by the
/// same era-based method.
pub open spec fn days_of_civil(year: int, month: int, day: int) -> int {
    let y = if month <= 2 { year - 1 } else { year };
    let era = y / 400;
    let yoe = y - era * 400;
    let mp = if month > 2 { month - 3 } else { month + 9 };
    let doy = (153 * mp + 2) / 5 + day - 1;
    let doe = yoe * 365 + yoe / 4 - yoe / 100 + doy;
    era * 146_097 + doe - 719_468
}

/// Floor division by a positive divisor, computed on non-negative operands.
fn floor_div(n: i64, d: i64) -> (q: i64)
    requires
        0 < d <= 1_000_000,
        n >= i64::MIN + d,
    ensures
        q == n / d,
        q * d <= n < q * d + d,
{
    if n >= 0 {
        let q = n / d;
        proof {
            lemma_div_bounds(n as int, d as int);
        }
        q
    } else {
        let m: i64 = -n + (d - 1);
        let q = -(m / d);
        proof {
            lemma_neg_floor_div(n as int, d as int, m as int);
        }
        q
    }
}

pub(crate) proof fn lemma_div_bounds(n: int, d: int)
    requires
        d > 0,
    ensures
        (n / d) * d <= n < (n / d) * d + d,
{
    assert((n / d) * d <= n < (n / d) * d + d) by (nonlinear_arith)
        requires
            d > 0,
    ;
}

pub(crate) proof fn lemma_neg_floor_div(n: int, d: int, m: int)
    requires
        d > 0,
        n < 0,
        m == -n + (d - 1),
    ensures
        -(m / d) == n / d,
        (n / d) * d <= n < (n / d) * d + d,
{
    lemma_div_bounds(n, d);
    lemma_div_bounds(m, d);
    let q = n / d;
    let p = m / d;
    assert(-p == q) by (nonlinear_arith)
        requires
            d > 0,
            m == -n + (d - 1),
            q * d <= n < q * d + d,
            p * d <= m < p * d + d,
    ;
}

/// The date of a count of days since 1970-01-01; `None` when the year does
/// not fit an `i32` or the count is too large to shift into eras.
pub fn civil_from_days(days_since_epoch: i64) -> (r: Option<(i32, u32, u32)>)
    ensures
        ({
            let (y, m, d) = civil_of_days(days_since_epoch as int);
            &&& r is Some <==> days_since_epoch + 719_468 <= i64::MAX && i32::MIN <= y <= i32::MAX
            &&& r matches Some(t) ==> t.0 == y && t.1 == m as u32 && t.2 == d as u32
        }),
{
    let z = match days_since_epoch.checked_add(719_468) {
        Some(z) => z,
        None => {
            return None;
        },
    };
    let era = floor_div(z, 146_097);
    let doe = z - era * 146_097;
    let yoe = (doe - doe / 1_460 + doe / 36_524 - doe / 146_096) / 365;
    proof {
        assert(0 <= doe < 146_097);
        assert(0 <= yoe <= 400);
        assert(-63_200_000_000_000 <= era <= 63_200_000_000_000) by (nonlinear_arith)
            requires
                era * 146_097 <= z < era * 146_097 + 146_097,
                i64::MIN <= z <= i64::MAX,
        ;
    }
    let y = yoe + era * 400;
    let doy = doe - (365 * yoe + yoe / 4 - yoe / 100);
    proof {
        let t = doe - doe / 1_460 + doe / 36_524 - doe / 146_096;
        assert(yoe * 365 <= t) by (nonlinear_arith)
            requires
                yoe == t / 365,
                t >= 0,
        ;
        assert(-1_000 <= doy <= 147_000);
    }
    let mp = floor_div(5 * doy + 2, 153);
    proof {
        assert(-100 <= mp <= 5_000) by (nonlinear_arith)
            requires
                mp * 153 <= 5 * doy + 2 < mp * 153 + 153,
                -1_000 <= doy <= 147_000,
        ;
    }
    let day = doy - floor_div(153 * mp + 2, 5) + 1;
    let month = if mp < 10 {
        mp + 3
    } else {
        mp - 9
    };
    let year = if month <= 2 {
        y + 1
    } else {
        y
    };
    if year < i32::MIN as i64 || year > i32::MAX as i64 {
        return None;
    }
    Some((year as i32, month as u32, day as u32))
}

/// The count of days since 1970-01-01 of a date; `None` for a month outside
/// 1..=12 or a day outside 1..=31 (the day is not checked against the month).
pub fn days_from_civil(year: i32, month: u32, day: u32) -> (r: Option<i64>)
    ensures
        r is Some <==> 1 <= month <= 12 && 1 <= day <= 31,
        r matches Some(n) ==> n == days_of_civil(year as int, month as int, day as int),
{
    if month < 1 || month > 12 || day < 1 || day > 31 {
        return None;
    }
    let y: i64 = year as i64 - if month <= 2 {
        1
    } else {
        0
    };
    let era = floor_div(y, 400);
    let yoe = y - era * 400;
    let m = month as i64;
    let d = day as i64;
    let mp = if m > 2 {
        m - 3
    } else {
        m + 9
    };
    let doy = (153 * mp + 2) / 5 + d - 1;
    let doe = yoe * 365 + yoe / 4 - yoe / 100 + doy;
    proof {
        assert(era * 146_097 >= -1_000_000_000_000_000) by (nonlinear_arith)
            requires
                era * 400 <= y < era * 400 + 400,
                -3_000_000_000 <= y <= 3_000_000_000,
        ;
        assert(era * 146_097 <= 1_000_000_000_000_000) by (nonlinear_arith)
            requires
                era * 400 <= y < era * 400 + 400,
                -3_000_000_000 <= y <= 3_000_000_000,
        ;
    }
    Some(era * 146_097 + doe - 719_468)
}

/// Within an era, the year of era and the day of the March-based year
/// computed from the day of era stay in range: the year of era is below 400
/// and the day of year at most 365.
proof fn lemma_era_day_split(doe: int)
    requires
        0 <= doe < 146_097,
    ensures
        ({
            let yoe = (doe - doe / 1_460 + doe / 36_524 - doe / 146_096) / 365;
            let doy = doe - (365 * yoe + yoe / 4 - yoe / 100);
            &&& 0 <= yoe < 400
            &&& 0 <= doy <= 365
            &&& doe == yoe * 365 + yoe / 4 - yoe / 100 + doy
        }),
{
    let yoe = (doe - doe / 1_460 + doe / 36_524 - doe / 146_096) / 365;
    let doy = doe - (365 * yoe + yoe / 4 - yoe / 100);
    if doe == 146_096 {
        assert(yoe == 399);
        assert(doy == 365);
    } else {
        let b = doe / 36_524;
        let rest = doe - 36_524 * b;
        let q = rest / 1_461;
        let r = rest - 1_461 * q;
        assert(0 <= b <= 3);
        assert(0 <= q <= 24);
        assert(0 <= r <= 1_460);
        let big_f = (24 * b + q + r) / 1_460;
        assert(0 <= big_f <= 1);
        assert(doe / 1_460 == 25 * b + q + big_f) by {
            assert(doe == 1_460 * (25 * b + q) + (24 * b + q + r));
        }
        assert(doe / 146_096 == 0);
        let t = doe - doe / 1_460 + doe / 36_524 - doe / 146_096;
        assert(t == 365 * (100 * b + 4 * q) + (r - big_f));
        assert(0 <= r - big_f <= 1_459);
        let yy = (r - big_f) / 365;
        assert(0 <= yy <= 3);
        assert(yoe == 100 * b + 4 * q + yy) by {
            assert(t == 365 * (100 * b + 4 * q + yy) + (r - big_f - 365 * yy));
        }
        assert(yoe / 4 == 25 * b + q);
        assert(yoe / 100 == b);
        assert(doy == r - 365 * yy);
    }
}

/// Converting a day count to a date and the date back to a day count gives
/// the day count again.
pub proof fn law_days_civil_roundtrip(days: int)
    ensures
        ({
            let (y, m, d) = civil_of_days(days);
            days_of_civil(y, m, d) == days
        }),
{
    let z = days + 719_468;
    let era = z / 146_097;
    let doe = z - era * 146_097;
    lemma_div_bounds(z, 146_097);
    lemma_era_day_split(doe);
    let yoe = (doe - doe / 1_460 + doe / 36_524 - doe / 146_096) / 365;
    let doy = doe - (365 * yoe + yoe / 4 - yoe / 100);
    let y = yoe + era * 400;
    let mp = (5 * doy + 2) / 153;
    assert(0 <= mp <= 11);
    let m = if mp < 10 { mp + 3 } else { mp - 9 };
    let back_y = if m <= 2 { (if m <= 2 { y + 1 } else { y }) - 1 } else { y };
    assert(back_y == y);
    assert(y / 400 == era) by {
        assert(y == era * 400 + yoe);
        lemma_div_bounds(y, 400);
    }
}

/// The month and day of a day count are in range.
pub(crate) proof fn lemma_civil_ranges(days: int)
    ensures
        ({
            let (y, m, d) = civil_of_days(days);
            1 <= m <= 12 && 1 <= d <= 31
        }),
{
    let z = days + 719_468;
    let era = z / 146_097;
    let doe = z - era * 146_097;
    lemma_div_bounds(z, 146_097);
    lemma_era_day_split(doe);
    let yoe = (doe - doe / 1_460 + doe / 36_524 - doe / 146_096) / 365;
    let doy = doe - (365 * yoe + yoe / 4 - yoe / 100);
    let mp = (5 * doy + 2) / 153;
    assert(0 <= mp <= 11);
    assert(153 * mp <= 5 * doy + 2 < 153 * mp + 153);
    let d = doy - (153 * mp + 2) / 5 + 1;
    assert(1 <= d <= 31);
}

// ---------------------------------------------------------------------------
// Dates back to dates
// ---------------------------------------------------------------------------

/// A Gregorian leap year.
pub open spec fn is_leap_year(year: int) -> bool {
    year % 4 == 0 && (year % 100 != 0 || year % 400 == 0)
}

/// The days of a month of the proleptic Gregorian calendar.
pub open spec fn civil_days_in_month(year: int, month: int) -> int {
    if month == 2 {
        if is_leap_year(year) {
            29
        } else {
            28
        }
    } else if month == 4 || month == 6 || month == 9 || month == 11 {
        30
    } else {
        31
    }
}

/// A date that exists in the proleptic Gregorian calendar.
pub open spec fn valid_civil_date(year: int, month: int, day: int) -> bool {
    1 <= month <= 12 && 1 <= day <= civil_days_in_month(year, month)
}

/// The days of the March-based year `yoe` of an era: one more when the
/// February that ends it has a leap day.
pub open spec fn era_year_days(yoe: int) -> int {
    if (yoe + 1) % 4 == 0 && ((yoe + 1) % 100 != 0 || yoe == 399) {
        366
    } else {
        365
    }
}

/// A day of a March-based year of an era, counted from the era's start,
/// gives back that year.
proof fn lemma_year_of_era_back(yoe: int, doy: int)
    requires
        0 <= yoe < 400,
        0 <= doy < era_year_days(yoe),
    ensures
        ({
            let doe = yoe * 365 + yoe / 4 - yoe / 100 + doy;
            &&& 0 <= doe < 146_097
            &&& (doe - doe / 1_460 + doe / 36_524 - doe / 146_096) / 365 == yoe
        }),
{
    let b = yoe / 100;
    let q = (yoe - 100 * b) / 4;
    let yy = yoe - 100 * b - 4 * q;
    vstd::arithmetic::div_mod::lemma_fundamental_div_mod_converse(yoe, 100, b, yoe - 100 * b);
    assert(0 <= b <= 3);
    assert(0 <= q <= 24 && 0 <= yy <= 3);
    vstd::arithmetic::div_mod::lemma_fundamental_div_mod_converse(yoe, 4, 25 * b + q, yy);
    assert(yoe / 4 == 25 * b + q);
    let doe = yoe * 365 + yoe / 4 - yoe / 100 + doy;
    assert(doe == 36_524 * b + 1_461 * q + 365 * yy + doy);
    if doe == 146_096 {
        assert(yoe == 399);
    } else {
        let r = 365 * yy + doy;
        assert((yoe + 1) % 100 == 0 <==> q == 24 && yy == 3) by {
            if q == 24 && yy == 3 {
                vstd::arithmetic::div_mod::lemma_fundamental_div_mod_converse(yoe + 1, 100, b + 1, 0);
            } else {
                vstd::arithmetic::div_mod::lemma_fundamental_div_mod_converse(yoe + 1, 100, b, 4 * q + yy + 1);
            }
        }
        assert((yoe + 1) % 4 == 0 <==> yy == 3) by {
            if yy == 3 {
                vstd::arithmetic::div_mod::lemma_fundamental_div_mod_converse(yoe + 1, 4, 25 * b + q + 1, 0);
            } else {
                vstd::arithmetic::div_mod::lemma_fundamental_div_mod_converse(yoe + 1, 4, 25 * b + q, yy + 1);
            }
        }
        assert(1_461 * q + r < 36_524);
        assert(r < 1_461);
        vstd::arithmetic::div_mod::lemma_fundamental_div_mod_converse(doe, 36_524, b, 1_461 * q + r);
        let big_f = (24 * b + q + r) / 1_460;
        assert(0 <= big_f <= 1);
        vstd::arithmetic::div_mod::lemma_fundamental_div_mod_converse(
            doe,
            1_460,
            25 * b + q + big_f,
            24 * b + q + r - 1_460 * big_f,
        );
        vstd::arithmetic::div_mod::lemma_fundamental_div_mod_converse(doe, 146_096, 0, doe);
        let t = doe - doe / 1_460 + doe / 36_524 - doe / 146_096;
        assert(t == 365 * (100 * b + 4 * q + yy) + (doy - big_f));
        assert(0 <= doy - big_f < 365);
        vstd::arithmetic::div_mod::lemma_fundamental_div_mod_converse(t, 365, yoe, doy - big_f);
    }
}

/// The first day of the `mp`-th month of a March-based year.
pub open spec fn march_month_start(mp: int) -> int {
    (153 * mp + 2) / 5
}

/// A day of a month of a March-based year gives back the month and day.
proof fn lemma_month_back(mp: int, d: int)
    requires
        0 <= mp <= 11,
        1 <= d,
        mp < 11 ==> march_month_start(mp) + d - 1 < march_month_start(mp + 1),
        mp == 11 ==> d <= 29,
    ensures
        ({
            let doy = march_month_start(mp) + d - 1;
            &&& (5 * doy + 2) / 153 == mp
            &&& doy - (153 * mp + 2) / 5 + 1 == d
        }),
{
    let doy = march_month_start(mp) + d - 1;
    let s = march_month_start(mp);
    lemma_div_bounds(153 * mp + 2, 5);
    assert(5 * s <= 153 * mp + 2 < 5 * s + 5);
    if mp < 11 {
        lemma_div_bounds(153 * (mp + 1) + 2, 5);
    }
    assert(153 * mp <= 5 * doy + 2 < 153 * mp + 153);
    vstd::arithmetic::div_mod::lemma_fundamental_div_mod_converse(5 * doy + 2, 153, mp, 5 * doy + 2 - 153 * mp);
}

/// The March-based month lengths of the calendar: each month but February
/// ends where the next begins.
proof fn lemma_month_lengths(year: int, month: int, day: int)
    requires
        valid_civil_date(year, month, day),
    ensures
        ({
            let mp = if month > 2 { month - 3 } else { month + 9 };
            &&& 0 <= mp <= 11
            &&& mp < 11 ==> march_month_start(mp) + day - 1 < march_month_start(mp + 1)
            &&& mp == 11 ==> day <= 29 && march_month_start(mp) == 337
        }),
{
    let mp = if month > 2 { month - 3 } else { month + 9 };
    assert(march_month_start(0) == 0);
    assert(march_month_start(1) == 31);
    assert(march_month_start(2) == 61);
    assert(march_month_start(3) == 92);
    assert(march_month_start(4) == 122);
    assert(march_month_start(5) == 153);
    assert(march_month_start(6) == 184);
    assert(march_month_start(7) == 214);
    assert(march_month_start(8) == 245);
    assert(march_month_start(9) == 275);
    assert(march_month_start(10) == 306);
    assert(march_month_start(11) == 337);
}

/// Converting a valid date to a day count and the day count back to a date
/// gives the date again.
pub proof fn law_civil_days_roundtrip(year: int, month: int, day: int)
    requires
        valid_civil_date(year, month, day),
    ensures
        civil_of_days(days_of_civil(year, month, day)) == (year, month, day),
{
    let y = if month <= 2 { year - 1 } else { year };
    let era = y / 400;
    let yoe = y - era * 400;
    lemma_div_bounds(y, 400);
    let mp = if month > 2 { month - 3 } else { month + 9 };
    lemma_month_lengths(year, month, day);
    let doy = (153 * mp + 2) / 5 + day - 1;
    assert(doy == march_month_start(mp) + day - 1);
    lemma_month_back(mp, day);
    assert(doy < era_year_days(yoe)) by {
        if mp == 11 {
            assert(year == era * 400 + yoe + 1);
            vstd::arithmetic::div_mod::lemma_mod_multiples_vanish(100 * era, yoe + 1, 4);
            vstd::arithmetic::div_mod::lemma_mod_multiples_vanish(4 * era, yoe + 1, 100);
            vstd::arithmetic::div_mod::lemma_mod_multiples_vanish(era, yoe + 1, 400);
            assert(year % 4 == (yoe + 1) % 4);
            assert(year % 100 == (yoe + 1) % 100);
            assert(year % 400 == (yoe + 1) % 400);
            assert((yoe + 1) % 400 == 0 <==> yoe == 399) by {
                if yoe == 399 {
                    vstd::arithmetic::div_mod::lemma_fundamental_div_mod_converse(yoe + 1, 400, 1, 0);
                } else {
                    vstd::arithmetic::div_mod::lemma_fundamental_div_mod_converse(yoe + 1, 400, 0, yoe + 1);
                }
            }
        }
    }
    lemma_year_of_era_back(yoe, doy);
    let doe = yoe * 365 + yoe / 4 - yoe / 100 + doy;
    let days = era * 146_097 + doe - 719_468;
    assert(days == days_of_civil(year, month, day));
    let z = days + 719_468;
    vstd::arithmetic::div_mod::lemma_fundamental_div_mod_converse(z, 146_097, era, doe);
    assert(z / 146_097 == era);
    assert(z - (z / 146_097) * 146_097 == doe);
}

} // verus!
