//! Calendar dates and ISO 8601 timestamps.

use crate::ascii::{COLON, DOT, MINUS, PLUS, UPPER_T, UPPER_Z};
use crate::text::push_padded;
use vstd::arithmetic::power::pow;
use vstd::prelude::*;

verus! {

// ---- The proleptic Gregorian calendar ---------------------------------------

pub open spec fn is_leap(year: int) -> bool {
    year % 4 == 0 && (year % 100 != 0 || year % 400 == 0)
}

pub open spec fn year_len(year: int) -> int {
    if is_leap(year) {
        366
    } else {
        365
    }
}

pub open spec fn month_len(year: int, month: int) -> int {
    if month == 2 {
        if is_leap(year) {
            29
        } else {
            28
        }
    } else if month == 4 || month == 6 || month == 9 || month == 11 {
        30
    } else {
        31
    }
}

/// A day of the calendar.
pub struct Date {
    pub year: int,
    pub month: int,
    pub day: int,
}

impl Date {
    /// Whether the calendar has the day.
    pub open spec fn valid(self) -> bool {
        1 <= self.month <= 12 && 1 <= self.day <= month_len(self.year, self.month)
    }
}

/// The days from 1970-01-01 to the first day of `year`.
pub open spec fn year_start(year: int) -> int {
    365 * year + (year + 3) / 4 - (year + 99) / 100 + (year + 399) / 400 - 719_528
}

/// The days of `year` before the first day of `month`.
pub open spec fn month_start(year: int, month: int) -> int
    decreases month,
{
    if month <= 1 {
        0
    } else {
        month_start(year, month - 1) + month_len(year, month - 1)
    }
}

/// The days from 1970-01-01 to `date`.
pub open spec fn day_number(date: Date) -> int {
    year_start(date.year) + month_start(date.year, date.month) + date.day - 1
}

/// Years follow each other: each starts where the one before it ends, and 1970
/// starts the count.
pub proof fn years_follow(year: int)
    ensures
        year_start(year + 1) == year_start(year) + year_len(year),
        year_start(1970) == 0,
        month_start(year, 13) == year_len(year),
{
    quotient_steps(year, 4);
    quotient_steps(year, 100);
    quotient_steps(year, 400);
    shifted_quotient(year, 4, 1);
    shifted_quotient(year, 100, 1);
    shifted_quotient(year, 400, 1);
    multiples(year);
    months_fill_year(year);
}

/// The twelve months of a year make it up.
proof fn months_fill_year(year: int)
    ensures
        month_start(year, 13) == year_len(year),
{
    reveal_with_fuel(month_start, 13);
}

/// Adding `k` times the divisor adds `k` to the quotient and leaves the remainder.
proof fn shifted_quotient(n: int, d: int, k: int)
    requires
        d > 0,
    ensures
        (d * k + n) / d == k + n / d,
        (d * k + n) % d == n % d,
{
    let q = n / d;
    vstd::arithmetic::div_mod::lemma_fundamental_div_mod(n, d);
    assert((k + q) * d == d * k + d * q) by (nonlinear_arith);
    vstd::arithmetic::div_mod::lemma_fundamental_div_mod_converse(d * k + n, d, k + q, n % d);
}

/// How a quotient grows: rounded up it is one more, unless nothing remains, and
/// it grows by one at each multiple.
proof fn quotient_steps(y: int, d: int)
    requires
        d > 1,
    ensures
        (y + d - 1) / d == y / d + if y % d == 0 {
            0int
        } else {
            1int
        },
        (y + 1) / d == y / d + if (y + 1) % d == 0 {
            1int
        } else {
            0int
        },
{
    let q = y / d;
    let r = y % d;
    vstd::arithmetic::div_mod::lemma_fundamental_div_mod(y, d);
    assert(q * d == d * q) by (nonlinear_arith);
    assert((q + 1) * d == d * q + d) by (nonlinear_arith);
    if r == 0 {
        vstd::arithmetic::div_mod::lemma_fundamental_div_mod_converse(y + d - 1, d, q, d - 1);
    } else {
        vstd::arithmetic::div_mod::lemma_fundamental_div_mod_converse(y + d - 1, d, q + 1, r - 1);
    }
    if r == d - 1 {
        vstd::arithmetic::div_mod::lemma_fundamental_div_mod_converse(y + 1, d, q + 1, 0);
    } else {
        vstd::arithmetic::div_mod::lemma_fundamental_div_mod_converse(y + 1, d, q, r + 1);
    }
}

/// A multiple of 400 is one of 100, and a multiple of 100 is one of 4.
proof fn multiples(n: int)
    ensures
        n % 400 == 0 ==> n % 100 == 0,
        n % 100 == 0 ==> n % 4 == 0,
{
    if n % 400 == 0 {
        assert(n == 100 * (4 * (n / 400)));
    }
    if n % 100 == 0 {
        assert(n == 4 * (25 * (n / 100)));
    }
}

/// A later year starts later.
proof fn years_ordered(a: int, b: int)
    requires
        a < b,
    ensures
        year_start(a) + year_len(a) <= year_start(b),
    decreases b - a,
{
    years_follow(a);
    if a + 1 < b {
        years_ordered(a + 1, b);
    }
}

/// A day lies within its year.
proof fn day_in_year(date: Date)
    requires
        date.valid(),
    ensures
        year_start(date.year) <= day_number(date) < year_start(date.year) + year_len(date.year),
{
    reveal_with_fuel(month_start, 13);
}

/// No two days have the same number.
pub proof fn day_number_unique(a: Date, b: Date)
    requires
        a.valid(),
        b.valid(),
        day_number(a) == day_number(b),
    ensures
        a == b,
{
    day_in_year(a);
    day_in_year(b);
    if a.year < b.year {
        years_ordered(a.year, b.year);
    }
    if b.year < a.year {
        years_ordered(b.year, a.year);
    }
    reveal_with_fuel(month_start, 13);
}

/// The day whose number is `days`.
pub open spec fn civil(days: int) -> Date {
    choose|date: Date| #[trigger] date.valid() && day_number(date) == days
}

/// The year of an era (from March on) that holds the day `doe` of it.
proof fn year_of_era(doe: u32)
    by (bit_vector)
    requires
        doe <= 146_096u32,
    ensures
        ({
            let yoe = (doe - doe / 1460u32 + doe / 36_524u32 - doe / 146_096u32) / 365;
            &&& 0 <= yoe <= 399
            &&& 365 * yoe + yoe / 4 - yoe / 100 <= doe
            &&& doe < 365 * (yoe + 1) + (yoe + 1) / 4 - (yoe + 1) / 100 + (yoe + 1) / 400
        }),
{
}

/// Days from 0000-03-01 (proleptic Gregorian) to 1970-01-01 (Unix epoch).
pub const DAYS_FROM_CIVIL_EPOCH_TO_UNIX: i64 = 719_468;

/// The day `doy` of a year that starts in March, as a month and a day.
proof fn month_of_year(year: int, doy: int)
    requires
        0 <= doy <= 365,
        doy == 365 ==> is_leap(year + 1),
    ensures
        ({
            let mp = (5 * doy + 2) / 153;
            let day = doy - (153 * mp + 2) / 5 + 1;
            let month = if mp < 10 {
                mp + 3
            } else {
                mp - 9
            };
            let adjusted = if month <= 2 {
                year + 1
            } else {
                year
            };
            let date = (Date { year: adjusted, month, day });
            &&& 0 <= mp <= 11
            &&& date.valid()
            &&& day_number(date) == year_start(year) + month_start(year, 3) + doy
        }),
{
    reveal_with_fuel(month_start, 13);
    years_follow(year);
    let mp = (5 * doy + 2) / 153;
    assert(mp == 0 || mp == 1 || mp == 2 || mp == 3 || mp == 4 || mp == 5 || mp == 6 || mp == 7
        || mp == 8 || mp == 9 || mp == 10 || mp == 11);
}

/// The leap days of an era before and in its year `yoe`.
proof fn leap_days_of_era(yoe: int)
    requires
        0 <= yoe <= 399,
    ensures
        (yoe + 3) / 4 - (yoe + 99) / 100 + (yoe + 399) / 400 + year_len(yoe) == yoe / 4 - yoe / 100
            + 366,
        (yoe + 1) / 4 - (yoe + 1) / 100 + (yoe + 1) / 400 - (yoe / 4 - yoe / 100) == year_len(
            yoe + 1,
        ) - 365,
{
    quotient_steps(yoe, 4);
    quotient_steps(yoe, 100);
    quotient_steps(yoe, 400);
    multiples(yoe);
    multiples(yoe + 1);
}

/// The calendar repeats every 400 years.
proof fn calendar_repeats(era: int, year: int)
    ensures
        year_start(400 * era + year) == 146_097 * era + year_start(year),
        is_leap(400 * era + year) == is_leap(year),
{
    shifted_quotient(year + 3, 4, 100 * era);
    shifted_quotient(year + 99, 100, 4 * era);
    shifted_quotient(year + 399, 400, era);
    shifted_quotient(year, 4, 100 * era);
    shifted_quotient(year, 100, 4 * era);
    shifted_quotient(year, 400, era);
}

/// A day of an era, as the day of a year that starts in March.
proof fn year_of_days(era: int, doe: int, yoe: u32)
    requires
        0 <= yoe <= 399,
        365 * yoe + yoe / 4 - yoe / 100 <= doe,
        doe < 365 * (yoe + 1) + (yoe + 1) / 4 - (yoe + 1) / 100 + (yoe + 1) / 400,
    ensures
        ({
            let year = 400 * era + yoe;
            let doy = doe - (365 * yoe + yoe / 4 - yoe / 100);
            &&& 0 <= doy <= 365
            &&& doy == 365 ==> is_leap(year + 1)
            &&& year_start(year) + month_start(year, 3) + doy == 146_097 * era + doe
                - DAYS_FROM_CIVIL_EPOCH_TO_UNIX
        }),
{
    let year = 400 * era + yoe;
    leap_days_of_era(yoe as int);
    calendar_repeats(era, yoe as int);
    calendar_repeats(era, yoe + 1);
    assert(400 * era + (yoe + 1) == year + 1);
    assert(month_start(year, 3) == if is_leap(year) {
        60int
    } else {
        59int
    }) by {
        reveal_with_fuel(month_start, 4);
    }
}

/// Convert days since the Unix epoch to proleptic Gregorian `(year, month, day)`.
///
/// Howard Hinnant's civil-from-days algorithm.
/// <https://howardhinnant.github.io/date_algorithms.html>
pub fn civil_from_days(days_since_epoch: i64) -> (r: (i32, u32, u32))
    requires
        days_since_epoch + DAYS_FROM_CIVIL_EPOCH_TO_UNIX <= i64::MAX,
    ensures
        ({
            let date = civil(days_since_epoch as int);
            &&& date.valid()
            &&& day_number(date) == days_since_epoch
            &&& i64::MIN <= date.year <= i64::MAX
            &&& r.0 == (date.year as i64) as i32
            &&& r.1 == date.month
            &&& r.2 == date.day
        }),
{
    // Shift to days since 0000-03-01 (civil epoch).
    let z: i64 = days_since_epoch + DAYS_FROM_CIVIL_EPOCH_TO_UNIX;
    // 400-year Gregorian cycle = 146097 days.
    let era: i64 = if z >= 0 {
        z / 146_097
    } else {
        (z - 146_096) / 146_097
    };
    assert(era == (z as int) / 146_097);
    let doe: u32 = (z - era * 146_097) as u32;  // day of era [0, 146096]
    proof {
        year_of_era(doe);
    }
    // Year of era [0, 399].
    let yoe: u32 = (doe - doe / 1_460 + doe / 36_524 - doe / 146_096) / 365;
    let y: i64 = yoe as i64 + era * 400;
    proof {
        year_of_days(era as int, doe as int, yoe);
    }
    // Day of year [0, 365].
    let doy: u32 = doe - (365 * yoe + yoe / 4 - yoe / 100);
    proof {
        month_of_year(y as int, doy as int);
    }
    // Month position [0, 11] where 0 = March.
    let mp: u32 = (5 * doy + 2) / 153;
    let d: u32 = doy - (153 * mp + 2) / 5 + 1;  // [1, 31]
    let m: u32 = if mp < 10 {
        mp + 3
    } else {
        mp - 9
    };  // [1, 12]
    // January and February belong to the previous calendar year in the
    // March-based civil calendar.
    let y_adj: i64 = if m <= 2 {
        y + 1
    } else {
        y
    };
    proof {
        let date = Date { year: y_adj as int, month: m as int, day: d as int };
        assert(date.valid());
        assert(day_number(date) == days_since_epoch);
        day_number_unique(date, civil(days_since_epoch as int));
    }
    (y_adj as i32, m, d)
}

/// Split nanoseconds since midnight into `(hours, minutes, seconds, nanos)`.
pub fn time_from_ns(ns_since_midnight: u64) -> (r: (u32, u32, u32, u32))
    ensures
        ({
            let secs = (ns_since_midnight / 1_000_000_000) % 0x1_0000_0000;
            &&& r.0 == secs / 3600
            &&& r.1 == secs / 60 % 60
            &&& r.2 == secs % 60
            &&& r.3 == ns_since_midnight % 1_000_000_000
        }),
{
    let whole: u64 = ns_since_midnight / 1_000_000_000;
    assert((whole as u32) as u64 == whole % 0x1_0000_0000) by (bit_vector);
    let secs: u32 = whole as u32;
    let nanos: u32 = (ns_since_midnight % 1_000_000_000) as u32;
    let hours: u32 = secs / 3600;
    let mins: u32 = (secs % 3600) / 60;
    (hours, mins, secs % 60, nanos)
}

// ---- ISO 8601 ---------------------------------------------------------------

pub const NANOS_PER_SEC: i64 = 1_000_000_000;

/// Nanoseconds per day.
pub const NANOS_PER_DAY: i64 = 86_400_000_000_000;

/// The local time in nanoseconds since the epoch, in 64 bits: from
/// `0x8000_0000_0000_0000` on it counts as a time before the epoch.
pub open spec fn local_ns(ns: u64, timezone_offset_secs: i32) -> int {
    let t = ns + timezone_offset_secs * NANOS_PER_SEC;
    if t >= 0x8000_0000_0000_0000 {
        t - 0x1_0000_0000_0000_0000
    } else {
        t
    }
}

/// The timezone suffix: `Z` for UTC, otherwise `+HH:MM` or `-HH:MM`.
pub open spec fn timezone_text(timezone_offset_secs: i32) -> Seq<u8> {
    if timezone_offset_secs == 0 {
        seq![UPPER_Z]
    } else {
        let abs: nat = if timezone_offset_secs < 0 {
            -timezone_offset_secs as nat
        } else {
            timezone_offset_secs as nat
        };
        seq![
            if timezone_offset_secs < 0 {
                MINUS
            } else {
                PLUS
            },
        ] + crate::text::padded_decimal(abs / 3600, 2) + seq![COLON] + crate::text::padded_decimal(
            abs / 60 % 60,
            2,
        )
    }
}

/// `YYYY-MM-DD`.
pub open spec fn date_text(year: nat, month: nat, day: nat) -> Seq<u8> {
    crate::text::padded_decimal(year, 4) + seq![MINUS] + crate::text::padded_decimal(month, 2)
        + seq![MINUS] + crate::text::padded_decimal(day, 2)
}

/// `HH:MM:SS.sssssssss`.
pub open spec fn time_text(hour: nat, min: nat, sec: nat, nanos: nat) -> Seq<u8> {
    crate::text::padded_decimal(hour, 2) + seq![COLON] + crate::text::padded_decimal(min, 2)
        + seq![COLON] + crate::text::padded_decimal(sec, 2) + seq![DOT]
        + crate::text::padded_decimal(nanos, 9)
}

/// `YYYY-MM-DDTHH:MM:SS.sssssssss` and the timezone suffix.
pub open spec fn iso8601(ns: u64, timezone_offset_secs: i32) -> Seq<u8> {
    let local = local_ns(ns, timezone_offset_secs);
    let date = civil(local / (NANOS_PER_DAY as int));
    let time = (local % (NANOS_PER_DAY as int)) as nat;
    let secs = time / 1_000_000_000;
    date_text(date.year as nat, date.month as nat, date.day as nat) + seq![UPPER_T] + time_text(
        secs / 3600,
        secs / 60 % 60,
        secs % 60,
        time % 1_000_000_000,
    ) + timezone_text(timezone_offset_secs)
}

/// The years that 64 bits of nanoseconds reach have four digits.
pub proof fn four_digit_years(ns: u64, timezone_offset_secs: i32)
    ensures
        ({
            let days = local_ns(ns, timezone_offset_secs) / (NANOS_PER_DAY as int);
            forall|date: Date|
                #[trigger] date.valid() && day_number(date) == days ==> 1677 <= date.year <= 2262
        }),
{
    let days = local_ns(ns, timezone_offset_secs) / (NANOS_PER_DAY as int);
    assert(-106_752 <= days <= 106_751);
    assert forall|date: Date| #[trigger] date.valid() && day_number(date) == days implies 1677
        <= date.year <= 2262 by {
        day_in_year(date);
        if date.year < 1677 {
            years_ordered(date.year, 1677);
        }
        if date.year > 2262 {
            years_ordered(2262, date.year);
        }
    }
}

/// Format a Unix-epoch nanosecond timestamp as an ISO 8601 string with
/// nanosecond precision, appending to `buf`.
///
/// `timezone_offset_secs` is added to the timestamp before formatting. Zero
/// offset renders as trailing `Z`; non-zero renders as `+HH:MM` or `-HH:MM`.
pub fn format_iso8601(ns_since_epoch: u64, timezone_offset_secs: i32, buf: &mut Vec<u8>)
    requires
        timezone_offset_secs != i32::MIN,
    ensures
        final(buf)@ == old(buf)@ + iso8601(ns_since_epoch, timezone_offset_secs),
{
    // Shift by timezone offset, then split into days and time-of-day.
    let ghost start = buf@;
    let local: i64 = shifted(ns_since_epoch, timezone_offset_secs);
    let (days, time) = split_days(local);
    let (year, month, day) = civil_from_days(days);
    let (hour, min, sec, nanos) = time_from_ns(time);
    proof {
        year_fits(ns_since_epoch, timezone_offset_secs, days as int);
    }
    push_date(year as u32, month, day, buf);
    buf.push(UPPER_T);
    push_time(hour, min, sec, nanos, buf);
    push_timezone(timezone_offset_secs, buf);
    proof {
        let date = date_text(year as nat, month as nat, day as nat);
        let clock = time_text(hour as nat, min as nat, sec as nat, nanos as nat);
        let zone = timezone_text(timezone_offset_secs);
        parts_make_up(ns_since_epoch, timezone_offset_secs, time);
        joined(start, date, clock, zone);
    }
}

/// The parts of a timestamp behind other text.
proof fn joined(start: Seq<u8>, date: Seq<u8>, clock: Seq<u8>, zone: Seq<u8>)
    ensures
        (start + date).push(UPPER_T) + clock + zone == start + (date + seq![UPPER_T] + clock
            + zone),
{
    assert((start + date).push(UPPER_T) + clock + zone =~= start + (date + seq![UPPER_T] + clock
        + zone));
}

/// The parts of a timestamp, where `time` is the time of the day.
proof fn parts_make_up(ns: u64, timezone_offset_secs: i32, time: u64)
    requires
        time == local_ns(ns, timezone_offset_secs) % (NANOS_PER_DAY as int),
    ensures
        ({
            let date = civil(local_ns(ns, timezone_offset_secs) / (NANOS_PER_DAY as int));
            let secs = (time / 1_000_000_000) % 0x1_0000_0000;
            iso8601(ns, timezone_offset_secs) == date_text(
                date.year as nat,
                date.month as nat,
                date.day as nat,
            ) + seq![UPPER_T] + time_text(
                (secs / 3600) as nat,
                (secs / 60 % 60) as nat,
                (secs % 60) as nat,
                (time % 1_000_000_000) as nat,
            ) + timezone_text(timezone_offset_secs)
        }),
{
    assert(time < 86_400_000_000_000);
    assert(time / 1_000_000_000 < 0x1_0000_0000);
    assert((time / 1_000_000_000) % 0x1_0000_0000 == time / 1_000_000_000);
}

/// The local time in nanoseconds since the epoch.
fn shifted(ns_since_epoch: u64, timezone_offset_secs: i32) -> (local: i64)
    ensures
        local == local_ns(ns_since_epoch, timezone_offset_secs),
{
    let offset_ns: i64 = (timezone_offset_secs as i64) * NANOS_PER_SEC;
    proof {
        let v = ns_since_epoch;
        assert(v < 0x8000_0000_0000_0000 ==> (v as i64) == v) by (bit_vector);
        assert(v >= 0x8000_0000_0000_0000 ==> (v as i64) == v - 0x1_0000_0000_0000_0000)
            by (bit_vector);
    }
    (ns_since_epoch as i64).wrapping_add(offset_ns)
}

/// The year of a local time fits the type that the calendar gives it in.
proof fn year_fits(ns: u64, timezone_offset_secs: i32, days: int)
    requires
        days == local_ns(ns, timezone_offset_secs) / (NANOS_PER_DAY as int),
        civil(days).valid(),
        day_number(civil(days)) == days,
    ensures
        1677 <= civil(days).year <= 2262,
        (civil(days).year as i64) as i32 == civil(days).year,
{
    four_digit_years(ns, timezone_offset_secs);
    let y = civil(days).year as i64;
    assert(1677 <= y <= 2262 ==> (y as i32) == y) by (bit_vector);
}

/// Appends `YYYY-MM-DD`.
fn push_date(year: u32, month: u32, day: u32, buf: &mut Vec<u8>)
    ensures
        final(buf)@ == old(buf)@ + date_text(year as nat, month as nat, day as nat),
{
    push_padded(buf, year, 4);
    buf.push(MINUS);
    push_padded(buf, month, 2);
    buf.push(MINUS);
    push_padded(buf, day, 2);
    assert(buf@ =~= old(buf)@ + date_text(year as nat, month as nat, day as nat));
}

/// Appends `HH:MM:SS.sssssssss`.
fn push_time(hour: u32, min: u32, sec: u32, nanos: u32, buf: &mut Vec<u8>)
    ensures
        final(buf)@ == old(buf)@ + time_text(hour as nat, min as nat, sec as nat, nanos as nat),
{
    push_padded(buf, hour, 2);
    buf.push(COLON);
    push_padded(buf, min, 2);
    buf.push(COLON);
    push_padded(buf, sec, 2);
    buf.push(DOT);
    push_padded(buf, nanos, 9);
    assert(buf@ =~= old(buf)@ + time_text(hour as nat, min as nat, sec as nat, nanos as nat));
}

/// Splits a time into whole days and the nanoseconds since midnight.
fn split_days(local: i64) -> (r: (i64, u64))
    ensures
        r.0 == (local as int) / (NANOS_PER_DAY as int),
        r.1 == (local as int) % (NANOS_PER_DAY as int),
{
    let days: i64 = if local >= 0 {
        local / NANOS_PER_DAY
    } else {
        (local + 1) / NANOS_PER_DAY - 1
    };
    let rem: i64 = local % NANOS_PER_DAY;
    let time: i64 = if rem < 0 {
        rem + NANOS_PER_DAY
    } else {
        rem
    };
    (days, time as u64)
}

/// Appends the timezone suffix.
fn push_timezone(timezone_offset_secs: i32, buf: &mut Vec<u8>)
    requires
        timezone_offset_secs != i32::MIN,
    ensures
        final(buf)@ == old(buf)@ + timezone_text(timezone_offset_secs),
{
    if timezone_offset_secs == 0 {
        buf.push(UPPER_Z);
        assert(buf@ =~= old(buf)@ + timezone_text(timezone_offset_secs));
        return ;
    }
    let (sign, abs_offset): (u8, u32) = if timezone_offset_secs < 0 {
        (MINUS, (-timezone_offset_secs) as u32)
    } else {
        (PLUS, timezone_offset_secs as u32)
    };
    let off_hours: u32 = abs_offset / 3600;
    let off_mins: u32 = (abs_offset % 3600) / 60;
    buf.push(sign);
    push_padded(buf, off_hours, 2);
    buf.push(COLON);
    push_padded(buf, off_mins, 2);
    proof {
        let hours = crate::text::padded_decimal(off_hours as nat, 2);
        let mins = crate::text::padded_decimal(off_mins as nat, 2);
        assert(off_mins == abs_offset / 60 % 60);
        assert(timezone_text(timezone_offset_secs) == seq![sign] + hours + seq![COLON] + mins);
        assert(buf@ =~= old(buf)@ + (seq![sign] + hours + seq![COLON] + mins));
    }
}

// ---- Counter frequency ------------------------------------------------------

/// Frequency substituted when the platform reports a counter frequency of 0. A
/// plausible 1 GHz keeps timestamps finite and monotonic, if mis-scaled.
pub const FALLBACK_COUNTER_HZ: u64 = 1_000_000_000;

/// The counter frequency that timestamps are scaled by: [`FALLBACK_COUNTER_HZ`]
/// in place of zero.
pub fn effective_hz(freq: u64) -> (hz: u64)
    ensures
        hz == (if freq == 0 {
            FALLBACK_COUNTER_HZ
        } else {
            freq
        }),
        hz > 0,
{
    if freq == 0 {
        FALLBACK_COUNTER_HZ
    } else {
        freq
    }
}

/// Derive the TSC frequency in Hz from CPUID leaf 0x15 sub-leaf 0 registers.
///
/// Leaf 0x15 reports the TSC as a ratio over the core-crystal clock:
/// `TSC_Hz = crystal_hz * numerator / denominator`, where `EAX = denominator`,
/// `EBX = numerator`, and `ECX = crystal_hz`. Any of the three being zero means
/// the CPU did not enumerate that value, so the frequency cannot be derived.
pub fn tsc_freq_from_cpuid_0x15(eax: u32, ebx: u32, ecx: u32) -> (r: Option<u64>)
    ensures
        r is None <==> eax == 0 || ebx == 0 || ecx == 0,
        r matches Some(hz) ==> hz == (ecx * ebx) / (eax as int),
{
    if eax == 0 || ebx == 0 || ecx == 0 {
        return None;
    }
    assert(0 <= ecx * ebx <= 0xFFFF_FFFF * 0xFFFF_FFFF) by (nonlinear_arith)
        requires
            0 <= ecx <= 0xFFFF_FFFF,
            0 <= ebx <= 0xFFFF_FFFF,
    ;
    Some((ecx as u64) * (ebx as u64) / (eax as u64))
}

/// The ticks from counter value `from` to counter value `to`. The counter wraps
/// at 2^64.
pub open spec fn ticks_between(from: u64, to: u64) -> u64 {
    ((to - from) % 0x1_0000_0000_0000_0000) as u64
}

/// The ticks from counter value `from` to counter value `to`, past a wrap of the
/// counter too.
pub fn elapsed_ticks(from: u64, to: u64) -> (delta: u64)
    ensures
        delta == ticks_between(from, to),
{
    to.wrapping_sub(from)
}

/// A reading of the hardware counter and of the wall clock, taken together.
#[derive(Debug, Clone, Copy, PartialEq, Eq, Structural)]
pub struct Calibration {
    /// Hardware counter value sampled at calibration time.
    pub counter_base: u64,
    /// Wall-clock nanoseconds since the Unix epoch, sampled at calibration time.
    pub wall_base_ns: u64,
}

/// Convert a raw hardware counter value to nanoseconds since the Unix epoch:
/// the ticks since the calibration, scaled to nanoseconds by `scale`, on top of
/// the wall clock's reading at the calibration.
pub fn ticks_to_ns<S: Fn(u64) -> u64>(tick: u64, calib: &Calibration, scale: &S) -> (ns: u64)
    requires
        call_requires(*scale, (ticks_between(calib.counter_base, tick),)),
    ensures
        exists|scaled: u64| #[trigger]
            call_ensures(*scale, (ticks_between(calib.counter_base, tick),), scaled) && ns == (scaled
                + calib.wall_base_ns) % 0x1_0000_0000_0000_0000,
{
    let scaled: u64 = scale(elapsed_ticks(calib.counter_base, tick));
    scaled.wrapping_add(calib.wall_base_ns)
}

/// The counter frequency in Hz from two readings of the counter and of the wall
/// clock: `ratio` of the ticks and the nanoseconds that passed, or
/// [`FALLBACK_COUNTER_HZ`] where the wall clock did not move forward.
pub fn measured_hz<R: Fn(u64, u64) -> u64>(
    ticks: (u64, u64),
    wall_ns: (u64, u64),
    ratio: &R,
) -> (hz: u64)
    requires
        wall_ns.0 < wall_ns.1 ==> call_requires(
            *ratio,
            (ticks_between(ticks.0, ticks.1), (wall_ns.1 - wall_ns.0) as u64),
        ),
    ensures
        wall_ns.1 <= wall_ns.0 ==> hz == FALLBACK_COUNTER_HZ,
        wall_ns.0 < wall_ns.1 ==> call_ensures(
            *ratio,
            (ticks_between(ticks.0, ticks.1), (wall_ns.1 - wall_ns.0) as u64),
            hz,
        ),
{
    if wall_ns.1 <= wall_ns.0 {
        return FALLBACK_COUNTER_HZ;
    }
    ratio(elapsed_ticks(ticks.0, ticks.1), wall_ns.1 - wall_ns.0)
}

/// A counter that runs on for `delta` ticks shows `delta` ticks passed, wherever
/// it wraps.
pub proof fn ticks_survive_wrap(from: u64, delta: u64)
    ensures
        ticks_between(from, ((from + delta) % 0x1_0000_0000_0000_0000) as u64) == delta,
{
}

// ---- The order of timestamps ------------------------------------------------

/// Every number is that of a day.
pub proof fn civil_exists(days: int)
    ensures
        civil(days).valid(),
        day_number(civil(days)) == days,
{
    let z = days + DAYS_FROM_CIVIL_EPOCH_TO_UNIX;
    let era = z / 146_097;
    let doe = (z % 146_097) as u32;
    year_of_era(doe);
    let yoe = ((doe - doe / 1_460u32 + doe / 36_524u32 - doe / 146_096u32) / 365) as u32;
    year_of_days(era, doe as int, yoe);
    let doy = doe - (365 * yoe + yoe / 4 - yoe / 100);
    let year = 400 * era + yoe;
    month_of_year(year, doy);
    let mp = (5 * doy + 2) / 153;
    let month = if mp < 10 {
        mp + 3
    } else {
        mp - 9
    };
    let date = Date {
        year: if month <= 2 {
            year + 1
        } else {
            year
        },
        month,
        day: doy - (153 * mp + 2) / 5 + 1,
    };
    assert(date.valid() && day_number(date) == days);
}

/// A later month starts after an earlier one has ended.
proof fn months_ordered(year: int, a: int, b: int)
    requires
        1 <= a < b,
    ensures
        month_start(year, a) + month_len(year, a) <= month_start(year, b),
    decreases b - a,
{
    if a + 1 < b {
        months_ordered(year, a, b - 1);
    }
}

/// Days are numbered in the order of their dates.
pub proof fn dates_ordered(a: Date, b: Date)
    requires
        a.valid(),
        b.valid(),
        day_number(a) < day_number(b),
    ensures
        a.year < b.year || (a.year == b.year && (a.month < b.month || (a.month == b.month && a.day
            < b.day))),
{
    day_in_year(a);
    day_in_year(b);
    if b.year < a.year {
        years_ordered(b.year, a.year);
    }
    if a.year == b.year && b.month < a.month {
        months_ordered(a.year, b.month, a.month);
    }
}

/// Whether `a` comes before `b` in the byte order of texts of one length.
pub open spec fn sorts_before(a: Seq<u8>, b: Seq<u8>) -> bool {
    a.len() == b.len() && exists|k: int|
        0 <= k < a.len() && #[trigger] a[k] < b[k] && a.take(k) == b.take(k)
}

/// Texts with the same front sort as what follows it.
proof fn sorts_behind(front: Seq<u8>, a: Seq<u8>, b: Seq<u8>)
    requires
        sorts_before(a, b),
    ensures
        sorts_before(front + a, front + b),
{
    let k = choose|k: int| 0 <= k < a.len() && #[trigger] a[k] < b[k] && a.take(k) == b.take(k);
    let n = front.len();
    assert((front + a)[n + k] < (front + b)[n + k]);
    assert((front + a).take(n + k) =~= front + a.take(k));
    assert((front + b).take(n + k) =~= front + b.take(k));
}

/// Texts sort as their fronts do.
proof fn sorts_in_front(a: Seq<u8>, b: Seq<u8>, s: Seq<u8>, t: Seq<u8>)
    requires
        sorts_before(a, b),
        s.len() == t.len(),
    ensures
        sorts_before(a + s, b + t),
{
    let k = choose|k: int| 0 <= k < a.len() && #[trigger] a[k] < b[k] && a.take(k) == b.take(k);
    assert((a + s)[k] < (b + t)[k]);
    assert((a + s).take(k) =~= a.take(k));
    assert((b + t).take(k) =~= b.take(k));
}

/// The length of a padded number.
proof fn padded_len(n: nat, width: nat)
    ensures
        crate::text::padded_decimal(n, width).len() == width,
    decreases width,
{
    if width > 0 {
        padded_len(n / 10, (width - 1) as nat);
    }
}

/// Padded numbers sort as the numbers do.
proof fn padded_sorts(x: nat, y: nat, width: nat)
    requires
        x < y < pow(10, width),
    ensures
        sorts_before(
            crate::text::padded_decimal(x, width),
            crate::text::padded_decimal(y, width),
        ),
    decreases width,
{
    reveal(pow);
    if width > 0 {
        let w = (width - 1) as nat;
        let a = crate::text::padded_decimal(x / 10, w);
        let b = crate::text::padded_decimal(y / 10, w);
        let p = crate::text::padded_decimal(x, width);
        let q = crate::text::padded_decimal(y, width);
        assert(pow(10, width) == 10 * pow(10, w));
        padded_len(x / 10, w);
        padded_len(y / 10, w);
        if x / 10 < y / 10 {
            padded_sorts(x / 10, y / 10, w);
            sorts_in_front(a, b, seq![p.last()], seq![q.last()]);
            assert(a + seq![p.last()] =~= p);
            assert(b + seq![q.last()] =~= q);
        } else {
            assert(x / 10 == y / 10);
            assert(p[w as int] < q[w as int]);
            assert(p.take(w as int) =~= a);
            assert(q.take(w as int) =~= b);
        }
    }
}

/// One field of a timestamp and what follows it: the earlier text has the
/// smaller number here, or the same and what follows sorts.
proof fn field_sorts(x: nat, y: nat, width: nat, s: Seq<u8>, t: Seq<u8>)
    requires
        x <= y < pow(10, width),
        s.len() == t.len(),
        x == y ==> sorts_before(s, t),
    ensures
        sorts_before(
            crate::text::padded_decimal(x, width) + s,
            crate::text::padded_decimal(y, width) + t,
        ),
{
    if x < y {
        padded_sorts(x, y, width);
        sorts_in_front(
            crate::text::padded_decimal(x, width),
            crate::text::padded_decimal(y, width),
            s,
            t,
        );
    } else {
        sorts_behind(crate::text::padded_decimal(x, width), s, t);
    }
}

/// The fields of a timestamp.
struct Stamp {
    year: nat,
    month: nat,
    day: nat,
    hour: nat,
    min: nat,
    sec: nat,
    nanos: nat,
}

impl Stamp {
    /// Whether the fields have as many digits as they should have.
    spec fn fits(self) -> bool {
        &&& self.year < 10_000
        &&& self.month < 100
        &&& self.day < 100
        &&& self.hour < 100
        &&& self.min < 100
        &&& self.sec < 100
        &&& self.nanos < 1_000_000_000
    }

    /// What follows the date.
    spec fn after_date(self, zone: Seq<u8>) -> Seq<u8> {
        seq![UPPER_T] + (crate::text::padded_decimal(self.hour, 2) + (seq![COLON] + (
        crate::text::padded_decimal(self.min, 2) + (seq![COLON] + (crate::text::padded_decimal(
            self.sec,
            2,
        ) + (seq![DOT] + (crate::text::padded_decimal(self.nanos, 9) + zone)))))))
    }

    /// The text of a timestamp.
    spec fn text(self, zone: Seq<u8>) -> Seq<u8> {
        crate::text::padded_decimal(self.year, 4) + (seq![MINUS] + (crate::text::padded_decimal(
            self.month,
            2,
        ) + (seq![MINUS] + (crate::text::padded_decimal(self.day, 2) + self.after_date(zone)))))
    }

    /// The time of day in nanoseconds.
    spec fn time(self) -> nat {
        ((self.hour * 60 + self.min) * 60 + self.sec) * 1_000_000_000 + self.nanos
    }
}

/// The length of what follows the date.
proof fn after_date_len(a: Stamp, zone: Seq<u8>)
    ensures
        a.after_date(zone).len() == 19 + zone.len(),
{
    padded_len(a.hour, 2);
    padded_len(a.min, 2);
    padded_len(a.sec, 2);
    padded_len(a.nanos, 9);
}

proof fn powers_of_ten()
    ensures
        pow(10, 2) == 100,
        pow(10, 4) == 10_000,
        pow(10, 9) == 1_000_000_000,
{
    reveal_with_fuel(pow, 11);
    assert(pow(10, 2) == 100);
    assert(pow(10, 4) == 10_000);
    assert(pow(10, 9) == 1_000_000_000);
}

/// What follows the date sorts as the times of day do.
proof fn times_sort(a: Stamp, b: Stamp, zone: Seq<u8>)
    requires
        a.fits(),
        b.fits(),
        a.min < 60 && a.sec < 60,
        b.min < 60 && b.sec < 60,
        a.time() < b.time(),
    ensures
        sorts_before(a.after_date(zone), b.after_date(zone)),
{
    powers_of_ten();
    padded_len(a.min, 2);
    padded_len(a.sec, 2);
    padded_len(a.nanos, 9);
    padded_len(b.min, 2);
    padded_len(b.sec, 2);
    padded_len(b.nanos, 9);
    let a4 = crate::text::padded_decimal(a.nanos, 9) + zone;
    let b4 = crate::text::padded_decimal(b.nanos, 9) + zone;
    let a3 = seq![DOT] + a4;
    let b3 = seq![DOT] + b4;
    let a2 = seq![COLON] + (crate::text::padded_decimal(a.sec, 2) + a3);
    let b2 = seq![COLON] + (crate::text::padded_decimal(b.sec, 2) + b3);
    let a1 = seq![COLON] + (crate::text::padded_decimal(a.min, 2) + a2);
    let b1 = seq![COLON] + (crate::text::padded_decimal(b.min, 2) + b2);
    if a.hour == b.hour && a.min == b.min && a.sec == b.sec {
        padded_sorts(a.nanos, b.nanos, 9);
        sorts_in_front(
            crate::text::padded_decimal(a.nanos, 9),
            crate::text::padded_decimal(b.nanos, 9),
            zone,
            zone,
        );
        sorts_behind(seq![DOT], a4, b4);
    }
    if a.hour == b.hour && a.min == b.min {
        field_sorts(a.sec, b.sec, 2, a3, b3);
        sorts_behind(
            seq![COLON],
            crate::text::padded_decimal(a.sec, 2) + a3,
            crate::text::padded_decimal(b.sec, 2) + b3,
        );
    }
    if a.hour == b.hour {
        field_sorts(a.min, b.min, 2, a2, b2);
        sorts_behind(
            seq![COLON],
            crate::text::padded_decimal(a.min, 2) + a2,
            crate::text::padded_decimal(b.min, 2) + b2,
        );
    }
    field_sorts(a.hour, b.hour, 2, a1, b1);
    sorts_behind(
        seq![UPPER_T],
        crate::text::padded_decimal(a.hour, 2) + a1,
        crate::text::padded_decimal(b.hour, 2) + b1,
    );
}

/// Texts sort as their dates do, and as what follows where the dates are the
/// same.
proof fn stamps_sort(a: Stamp, b: Stamp, zone: Seq<u8>)
    requires
        a.fits(),
        b.fits(),
        a.year <= b.year,
        a.year == b.year ==> a.month <= b.month,
        a.year == b.year && a.month == b.month ==> a.day <= b.day,
        a.year == b.year && a.month == b.month && a.day == b.day ==> sorts_before(
            a.after_date(zone),
            b.after_date(zone),
        ),
    ensures
        sorts_before(a.text(zone), b.text(zone)),
{
    powers_of_ten();
    after_date_len(a, zone);
    after_date_len(b, zone);
    padded_len(a.month, 2);
    padded_len(a.day, 2);
    padded_len(b.month, 2);
    padded_len(b.day, 2);
    let a2 = seq![MINUS] + (crate::text::padded_decimal(a.day, 2) + a.after_date(zone));
    let b2 = seq![MINUS] + (crate::text::padded_decimal(b.day, 2) + b.after_date(zone));
    let a1 = seq![MINUS] + (crate::text::padded_decimal(a.month, 2) + a2);
    let b1 = seq![MINUS] + (crate::text::padded_decimal(b.month, 2) + b2);
    if a.year == b.year && a.month == b.month {
        field_sorts(a.day, b.day, 2, a.after_date(zone), b.after_date(zone));
        sorts_behind(
            seq![MINUS],
            crate::text::padded_decimal(a.day, 2) + a.after_date(zone),
            crate::text::padded_decimal(b.day, 2) + b.after_date(zone),
        );
    }
    if a.year == b.year {
        field_sorts(a.month, b.month, 2, a2, b2);
        sorts_behind(
            seq![MINUS],
            crate::text::padded_decimal(a.month, 2) + a2,
            crate::text::padded_decimal(b.month, 2) + b2,
        );
    }
    field_sorts(a.year, b.year, 4, a1, b1);
}

/// The fields of the timestamp of a local time.
spec fn stamp_of(local: int) -> Stamp {
    let date = civil(local / (NANOS_PER_DAY as int));
    let time = (local % (NANOS_PER_DAY as int)) as nat;
    let secs = time / 1_000_000_000;
    Stamp {
        year: date.year as nat,
        month: date.month as nat,
        day: date.day as nat,
        hour: secs / 3600,
        min: secs / 60 % 60,
        sec: secs % 60,
        nanos: time % 1_000_000_000,
    }
}

/// The text of a timestamp is that of its fields.
proof fn stamp_text(ns: u64, timezone_offset_secs: i32)
    ensures
        iso8601(ns, timezone_offset_secs) == stamp_of(local_ns(ns, timezone_offset_secs)).text(
            timezone_text(timezone_offset_secs),
        ),
        stamp_of(local_ns(ns, timezone_offset_secs)).fits(),
        stamp_of(local_ns(ns, timezone_offset_secs)).min < 60,
        stamp_of(local_ns(ns, timezone_offset_secs)).sec < 60,
        stamp_of(local_ns(ns, timezone_offset_secs)).time() == local_ns(ns, timezone_offset_secs)
            % (NANOS_PER_DAY as int),
{
    let local = local_ns(ns, timezone_offset_secs);
    let a = stamp_of(local);
    let zone = timezone_text(timezone_offset_secs);
    civil_exists(local / (NANOS_PER_DAY as int));
    four_digit_years(ns, timezone_offset_secs);
    padded_len(a.year, 4);
    padded_len(a.month, 2);
    padded_len(a.day, 2);
    padded_len(a.hour, 2);
    padded_len(a.min, 2);
    padded_len(a.sec, 2);
    padded_len(a.nanos, 9);
    assert(iso8601(ns, timezone_offset_secs) =~= a.text(zone));
}

/// For one offset, timestamps sort as texts in the order of their times, as far
/// as 64 bits of local time reach.
pub proof fn timestamps_sort(a: u64, b: u64, timezone_offset_secs: i32)
    requires
        a < b,
        b + timezone_offset_secs * NANOS_PER_SEC < 0x8000_0000_0000_0000,
    ensures
        iso8601(a, timezone_offset_secs).len() == iso8601(b, timezone_offset_secs).len(),
        sorts_before(iso8601(a, timezone_offset_secs), iso8601(b, timezone_offset_secs)),
{
    let x = local_ns(a, timezone_offset_secs);
    let y = local_ns(b, timezone_offset_secs);
    let day = NANOS_PER_DAY as int;
    let zone = timezone_text(timezone_offset_secs);
    stamp_text(a, timezone_offset_secs);
    stamp_text(b, timezone_offset_secs);
    civil_exists(x / day);
    civil_exists(y / day);
    four_digit_years(a, timezone_offset_secs);
    four_digit_years(b, timezone_offset_secs);
    assert(x < y);
    assert(x / day <= y / day);
    if x / day < y / day {
        dates_ordered(civil(x / day), civil(y / day));
    } else {
        assert(x % day < y % day);
        times_sort(stamp_of(x), stamp_of(y), zone);
    }
    stamps_sort(stamp_of(x), stamp_of(y), zone);
}

// ---- Valid text -------------------------------------------------------------

/// A timestamp is ASCII.
pub proof fn timestamp_is_ascii(ns: u64, timezone_offset_secs: i32)
    ensures
        crate::text::is_ascii(iso8601(ns, timezone_offset_secs)),
{
    let local = local_ns(ns, timezone_offset_secs);
    let date = civil(local / (NANOS_PER_DAY as int));
    let time = (local % (NANOS_PER_DAY as int)) as nat;
    let secs = time / 1_000_000_000;
    crate::text::padded_is_ascii(date.year as nat, 4);
    crate::text::padded_is_ascii(date.month as nat, 2);
    crate::text::padded_is_ascii(date.day as nat, 2);
    crate::text::padded_is_ascii(secs / 3600, 2);
    crate::text::padded_is_ascii(secs / 60 % 60, 2);
    crate::text::padded_is_ascii(secs % 60, 2);
    crate::text::padded_is_ascii(time % 1_000_000_000, 9);
    let abs: nat = if timezone_offset_secs < 0 {
        -timezone_offset_secs as nat
    } else {
        timezone_offset_secs as nat
    };
    crate::text::padded_is_ascii(abs / 3600, 2);
    crate::text::padded_is_ascii(abs / 60 % 60, 2);
}

} // verus!
