//! Timestamps and the calendar.

use crate::timestamp::Date;
use vstd::arithmetic::power::pow;
use vstd::prelude::*;

verus! {

/// A month has 31 days, or 30 in April, June, September and November. February has 29 in
/// every fourth year, but for full centuries that 400 does not divide, and 28 otherwise.
pub proof fn months_have_days(year: int, month: int)
    ensures
        crate::timestamp::month_len(year, month) == (if month == 4 || month == 6 || month == 9
            || month == 11 {
            30int
        } else if month != 2 {
            31
        } else if year % 4 == 0 && (year % 100 != 0 || year % 400 == 0) {
            29
        } else {
            28
        }),
{
}

/// Days are counted from 1970-01-01 on, one after the other: within a month, from
/// the last day of a month to the first of the next, and from the last day of a
/// year to the first of the next.
pub proof fn days_follow(year: int, month: int, day: int)
    requires
        1 <= month <= 12,
        1 <= day <= crate::timestamp::month_len(year, month),
    ensures
        (Date { year, month, day }).valid(),
        crate::timestamp::day_number(Date { year: 1970, month: 1, day: 1 }) == 0,
        day < crate::timestamp::month_len(year, month) ==> crate::timestamp::day_number(
            Date { year, month, day: day + 1 },
        ) == crate::timestamp::day_number(Date { year, month, day }) + 1,
        day == crate::timestamp::month_len(year, month) && month < 12 ==> crate::timestamp::day_number(
            Date { year, month: month + 1, day: 1 },
        ) == crate::timestamp::day_number(Date { year, month, day }) + 1,
        day == crate::timestamp::month_len(year, month) && month == 12 ==> crate::timestamp::day_number(
            Date { year: year + 1, month: 1, day: 1 },
        ) == crate::timestamp::day_number(Date { year, month, day }) + 1,
{
    crate::timestamp::years_follow(year);
    crate::timestamp::years_follow(1970);
    reveal_with_fuel(crate::timestamp::month_start, 14);
}

/// No other days are in the calendar.
pub proof fn no_other_days(date: Date)
    ensures
        date.valid() <==> 1 <= date.month <= 12 && 1 <= date.day <= crate::timestamp::month_len(date.year, date.month),
{
}

proof fn powers()
    ensures
        pow(10, 2) == 100,
        pow(10, 4) == 10_000,
        pow(10, 9) == 1_000_000_000,
{
    reveal_with_fuel(pow, 11);
    assert(pow(10, 2) == 100);
    assert(pow(10, 4) == 10_000);
    assert(pow(10, 9) == 1_000_000_000);
}

/// A number with zeros in front reads back where it fits.
proof fn reads(n: nat, width: nat)
    requires
        n < pow(10, width),
    ensures
        crate::text::padded_decimal(n, width).len() == width,
        crate::text::radix_value(crate::text::padded_decimal(n, width), 10) == Some(n),
        forall|i: int|
            0 <= i < width ==> 48 <= #[trigger] crate::text::padded_decimal(n, width)[i] <= 57,
{
    super::numbers::padded_reads_back(n, width);
    vstd::arithmetic::div_mod::lemma_small_mod(n, pow(10, width) as nat);
}

/// The timezone suffix reads back: it is `Z` exactly where the offset is zero.
/// Otherwise it is a sign, which is `-` exactly where the offset is negative, two
/// digits, a colon and two digits, and the hours and minutes make up the absolute
/// offset in whole minutes.
pub proof fn timezones_read_back(timezone_offset_secs: i32)
    requires
        -360_000 < timezone_offset_secs < 360_000,
    ensures
        ({
            let zone = crate::timestamp::timezone_text(timezone_offset_secs);
            let abs: int = if timezone_offset_secs < 0 {
                -timezone_offset_secs
            } else {
                timezone_offset_secs as int
            };
            &&& zone == seq![0x5Au8] <==> timezone_offset_secs == 0
            &&& timezone_offset_secs != 0 ==> {
                &&& zone.len() == 6
                &&& timezone_offset_secs < 0 ==> zone[0] == 0x2D
                &&& timezone_offset_secs > 0 ==> zone[0] == 0x2B
                &&& zone[3] == 0x3A
                &&& crate::text::radix_value(zone.subrange(1, 3), 10) == Some((abs / 3600) as nat)
                &&& crate::text::radix_value(zone.subrange(4, 6), 10) == Some(
                    (abs / 60 - 60 * (abs / 3600)) as nat,
                )
            }
        }),
{
    let zone = crate::timestamp::timezone_text(timezone_offset_secs);
    let abs: nat = if timezone_offset_secs < 0 {
        (-timezone_offset_secs) as nat
    } else {
        timezone_offset_secs as nat
    };
    powers();
    reads(abs / 3600, 2);
    reads(abs / 60 % 60, 2);
    if timezone_offset_secs != 0 {
        let hours = crate::text::padded_decimal(abs / 3600, 2);
        let minutes = crate::text::padded_decimal(abs / 60 % 60, 2);
        assert(zone.subrange(1, 3) =~= hours);
        assert(zone.subrange(4, 6) =~= minutes);
        assert(abs / 60 % 60 == abs / 60 - 60 * (abs / 3600));
        assert(zone.len() == 6);
    }
}

/// A timestamp reads back. It is `YYYY-MM-DDTHH:MM:SS.sssssssss` and the timezone
/// suffix, all of it digits but for the separators. The date is one of the
/// calendar, the time is one of the day, and together they are the instant in local
/// time: the nanoseconds since 1970-01-01 plus the offset, in 64 bits with a sign.
pub proof fn timestamps_read_back(ns: u64, timezone_offset_secs: i32)
    ensures
        ({
            let text = crate::timestamp::iso8601(ns, timezone_offset_secs);
            let local = ns + timezone_offset_secs * 1_000_000_000;
            let date = Date {
                year: crate::text::radix_value(text.subrange(0, 4), 10)->Some_0 as int,
                month: crate::text::radix_value(text.subrange(5, 7), 10)->Some_0 as int,
                day: crate::text::radix_value(text.subrange(8, 10), 10)->Some_0 as int,
            };
            let hour = crate::text::radix_value(text.subrange(11, 13), 10)->Some_0;
            let minute = crate::text::radix_value(text.subrange(14, 16), 10)->Some_0;
            let second = crate::text::radix_value(text.subrange(17, 19), 10)->Some_0;
            let nanos = crate::text::radix_value(text.subrange(20, 29), 10)->Some_0;
            &&& text.len() >= 29
            &&& text[4] == 0x2D && text[7] == 0x2D && text[10] == 0x54
            &&& text[13] == 0x3A && text[16] == 0x3A && text[19] == 0x2E
            &&& forall|i: int|
                0 <= i < 29 && i != 4 && i != 7 && i != 10 && i != 13 && i != 16 && i != 19 ==> 48
                    <= #[trigger] text[i] <= 57
            &&& text.skip(29) == crate::timestamp::timezone_text(timezone_offset_secs)
            &&& date.valid()
            &&& hour < 24 && minute < 60 && second < 60 && nanos < 1_000_000_000
            &&& ((((crate::timestamp::day_number(date) * 24 + hour) * 60 + minute) * 60 + second)
                * 1_000_000_000 + nanos) == if local >= 0x8000_0000_0000_0000 {
                local - 0x1_0000_0000_0000_0000
            } else {
                local
            }
        }),
{
    let text = crate::timestamp::iso8601(ns, timezone_offset_secs);
    let local = crate::timestamp::local_ns(ns, timezone_offset_secs);
    let days = local / 86_400_000_000_000;
    let date = crate::timestamp::civil(days);
    let time = (local % 86_400_000_000_000) as nat;
    let secs = time / 1_000_000_000;
    crate::timestamp::civil_exists(days);
    crate::timestamp::four_digit_years(ns, timezone_offset_secs);
    powers();
    let y = crate::text::padded_decimal(date.year as nat, 4);
    let mo = crate::text::padded_decimal(date.month as nat, 2);
    let d = crate::text::padded_decimal(date.day as nat, 2);
    let h = crate::text::padded_decimal(secs / 3600, 2);
    let mi = crate::text::padded_decimal(secs / 60 % 60, 2);
    let s = crate::text::padded_decimal(secs % 60, 2);
    let n = crate::text::padded_decimal(time % 1_000_000_000, 9);
    reads(date.year as nat, 4);
    reads(date.month as nat, 2);
    reads(date.day as nat, 2);
    reads(secs / 3600, 2);
    reads(secs / 60 % 60, 2);
    reads(secs % 60, 2);
    reads(time % 1_000_000_000, 9);
    let zone = crate::timestamp::timezone_text(timezone_offset_secs);
    assert(text =~= y + seq![0x2Du8] + mo + seq![0x2Du8] + d + seq![0x54u8] + h + seq![0x3Au8] + mi
        + seq![0x3Au8] + s + seq![0x2Eu8] + n + zone);
    assert(text.subrange(0, 4) =~= y);
    assert(text.subrange(5, 7) =~= mo);
    assert(text.subrange(8, 10) =~= d);
    assert(text.subrange(11, 13) =~= h);
    assert(text.subrange(14, 16) =~= mi);
    assert(text.subrange(17, 19) =~= s);
    assert(text.subrange(20, 29) =~= n);
    assert(text.skip(29) =~= zone);
    assert forall|i: int|
        0 <= i < 29 && i != 4 && i != 7 && i != 10 && i != 13 && i != 16 && i != 19 implies 48
        <= #[trigger] text[i] <= 57 by {
        if i < 4 {
            assert(text[i] == y[i]);
        } else if i < 7 {
            assert(text[i] == mo[i - 5]);
        } else if i < 10 {
            assert(text[i] == d[i - 8]);
        } else if i < 13 {
            assert(text[i] == h[i - 11]);
        } else if i < 16 {
            assert(text[i] == mi[i - 14]);
        } else if i < 19 {
            assert(text[i] == s[i - 17]);
        } else {
            assert(text[i] == n[i - 20]);
        }
    }
}

/// A counter that runs on shows the ticks that passed, also where it wraps.
pub proof fn ticks_are_counted(from: u64, to: u64)
    ensures
        from <= to ==> crate::timestamp::ticks_between(from, to) == to - from,
        to < from ==> crate::timestamp::ticks_between(from, to) == 0x1_0000_0000_0000_0000 - from
            + to,
{
}

} // verus!
