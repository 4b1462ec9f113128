//! Timestamps of feed messages: RFC3339 in UTC, to milliseconds since the Unix
//! epoch.

use crate::decimal::{all_digits, digits_value, lemma_pow10_positive, pow10};
use crate::text::{chars_of, digit_char, padded_text};
use vstd::prelude::*;

verus! {

/// Whether `year` is a leap year of the (proleptic) Gregorian calendar.
pub open spec fn is_leap(year: int) -> bool {
    year % 4 == 0 && (year % 100 != 0 || year % 400 == 0)
}

/// The days of the years `0` to `year - 1`: 365 each, and one more for every
/// leap year among them.
pub open spec fn days_before_year(year: int) -> int {
    365 * year + (year + 3) / 4 - (year + 99) / 100 + (year + 399) / 400
}

/// The days of the year before the month `month`, `1` to `12`.
pub open spec fn days_before_month(year: int, month: int) -> int {
    let leap_day = if is_leap(year) {
        1int
    } else {
        0int
    };
    if month == 1 {
        0
    } else if month == 2 {
        31
    } else if month == 3 {
        59 + leap_day
    } else if month == 4 {
        90 + leap_day
    } else if month == 5 {
        120 + leap_day
    } else if month == 6 {
        151 + leap_day
    } else if month == 7 {
        181 + leap_day
    } else if month == 8 {
        212 + leap_day
    } else if month == 9 {
        243 + leap_day
    } else if month == 10 {
        273 + leap_day
    } else if month == 11 {
        304 + leap_day
    } else {
        334 + leap_day
    }
}

/// The days from 1970-01-01 to the given date.
#[verifier::opaque]
pub open spec fn civil_days(year: int, month: int, day: int) -> int {
    days_before_year(year) + days_before_month(year, month) + day - 1 - days_before_year(1970)
}

/// 400 years are 146097 days.
proof fn lemma_days_before_year_in_era(era: int, k: int)
    requires
        0 <= k <= 400,
    ensures
        days_before_year(400 * era + k) == 146097 * era + days_before_year(k),
        is_leap(400 * era + k) == is_leap(k),
{
    let year = 400 * era + k;
    assert((year + 3) / 4 == 100 * era + (k + 3) / 4);
    assert((year + 99) / 100 == 4 * era + (k + 99) / 100);
    assert((year + 399) / 400 == era + (k + 399) / 400);
    assert(year % 4 == k % 4);
    assert(year % 100 == k % 100);
    assert(year % 400 == k % 400);
}

/// The leap days before the year `k` of an era, and the one in it, counted from
/// the year's end.
proof fn lemma_days_before_year_of_era(k: int)
    requires
        0 <= k < 400,
    ensures
        days_before_year(k) + (if is_leap(k) {
            1int
        } else {
            0int
        }) == 365 * k + k / 4 - k / 100 + 1,
        days_before_year(k + 1) == 365 * (k + 1) + k / 4 - k / 100 + 1,
{
    assert((k + 3) / 4 == if k % 4 == 0 {
        k / 4
    } else {
        k / 4 + 1
    });
    assert((k + 99) / 100 == if k % 100 == 0 {
        k / 100
    } else {
        k / 100 + 1
    });
    assert((k + 399) / 400 == if k % 400 == 0 {
        0int
    } else {
        1int
    });
    assert((k + 1 + 3) / 4 == k / 4 + 1);
    assert((k + 1 + 99) / 100 == k / 100 + 1);
    assert((k + 1 + 399) / 400 == 1);
    assert(k % 400 == 0 ==> k % 100 == 0);
    assert(k % 100 == 0 ==> k % 4 == 0);
}

/// The days from 1 March to the first of a month, as a formula.
proof fn lemma_days_before_month(year: int, month: int)
    requires
        1 <= month <= 12,
    ensures
        month > 2 ==> days_before_month(year, month) == 59 + (if is_leap(year) {
            1int
        } else {
            0int
        }) + (153 * (month - 3) + 2) / 5,
        month <= 2 ==> days_before_month(year, month) == (153 * (month + 9) + 2) / 5 - 306,
{
}

/// The days to a date, by the era and the year of the era, where years start in
/// March.
proof fn lemma_days_in_era(year: int, month: int, day: int, era: int, yoe: int)
    requires
        1 <= month <= 12,
        0 <= yoe < 400,
        400 * era + yoe == if month <= 2 {
            year - 1
        } else {
            year
        },
    ensures
        civil_days(year, month, day) == era * 146097 + (yoe * 365 + yoe / 4 - yoe / 100 + ((153 * (
        if month > 2 {
            month - 3
        } else {
            month + 9
        }) + 2) / 5 + day - 1)) - 719468,
{
    reveal(civil_days);
    lemma_days_before_month(year, month);
    lemma_days_before_year_of_era(yoe);
    lemma_days_before_year_in_era(era, year - 400 * era);
    assert(days_before_year(1970) == 719528);
}

/// Days since the Unix epoch (1970-01-01) for a proleptic-Gregorian date.
/// Howard Hinnant's `days_from_civil` algorithm.
pub fn days_from_civil(y: i64, m: i64, d: i64) -> (days: i64)
    requires
        1 <= m <= 12,
        1 <= d <= 31,
        i64::MIN <= civil_days(y as int, m as int, d as int) <= i64::MAX,
    ensures
        days == civil_days(y as int, m as int, d as int),
{
    let ghost year: int = y as int;
    let y: i128 = if m <= 2 {
        y as i128 - 1
    } else {
        y as i128
    };
    let era: i128 = if y >= 0 {
        y / 400
    } else {
        -((399 - y) / 400)
    };
    let yoe: i128 = y - era * 400;  // [0, 399]
    let doy: i64 = (153 * (if m > 2 {
        m - 3
    } else {
        m + 9
    }) + 2) / 5 + d - 1;  // [0, 365]
    let doe: i128 = yoe * 365 + yoe / 4 - yoe / 100 + doy as i128;  // [0, 146096]
    proof {
        lemma_days_in_era(year, m as int, d as int, era as int, yoe as int);
    }
    (era * 146097 + doe - 719468) as i64
}

/// The calendar has no holes: each month starts on the day after the last of the
/// month before it, and each year on the day after 31 December.
pub proof fn law_days_are_consecutive(year: int, month: int)
    requires
        1 <= month < 12,
    ensures
        civil_days(year, month + 1, 1) == civil_days(year, month, 1) + month_length(year, month),
        civil_days(year + 1, 1, 1) == civil_days(year, 12, 31) + 1,
{
    reveal(civil_days);
    let era = year / 400;
    let k = year % 400;
    lemma_days_before_year_in_era(era, k);
    lemma_days_before_year_in_era(era, k + 1);
    lemma_days_before_year_of_era(k);
}

/// The days of a month.
pub open spec fn month_length(year: int, month: int) -> int {
    if month == 2 {
        if is_leap(year) {
            29
        } else {
            28
        }
    } else if month == 4 || month == 6 || month == 9 || month == 11 {
        30
    } else {
        31
    }
}

/// The milliseconds that a fraction of a second makes: its first three digits,
/// filled up with zeros.
pub open spec fn millis_of(fraction: Seq<char>) -> nat {
    if fraction.len() == 0 {
        0
    } else if fraction.len() == 1 {
        digits_value(fraction) * 100
    } else if fraction.len() == 2 {
        digits_value(fraction) * 10
    } else {
        digits_value(fraction.take(3))
    }
}

/// Milliseconds from the epoch to a date and a time of day.
pub open spec fn epoch_millis(
    year: int,
    month: int,
    day: int,
    hour: int,
    minute: int,
    second: int,
    millis: int,
) -> int {
    (civil_days(year, month, day) * 86_400 + hour * 3_600 + minute * 60 + second) * 1_000 + millis
}

/// What stands between the point behind the seconds and the `Z`; nothing, where
/// there is no point.
pub open spec fn fraction_of(text: Seq<char>) -> Seq<char> {
    if text.len() > 20 {
        text.subrange(20, text.len() - 1)
    } else {
        Seq::empty()
    }
}

/// The text has the form `YYYY-MM-DDTHH:MM:SS[.fff...]Z`: four digits for the
/// year, two for each other field, and any number of them for the fraction.
pub open spec fn has_form(text: Seq<char>) -> bool {
    &&& text.len() >= 20
    &&& all_digits(text.subrange(0, 4))
    &&& text[4] == '-'
    &&& all_digits(text.subrange(5, 7))
    &&& text[7] == '-'
    &&& all_digits(text.subrange(8, 10))
    &&& text[10] == 'T'
    &&& all_digits(text.subrange(11, 13))
    &&& text[13] == ':'
    &&& all_digits(text.subrange(14, 16))
    &&& text[16] == ':'
    &&& all_digits(text.subrange(17, 19))
    &&& text.len() > 20 ==> text[19] == '.'
    &&& all_digits(fraction_of(text))
    &&& text.last() == 'Z'
}

/// The number at a place of a text.
pub open spec fn field(text: Seq<char>, from: int, to: int) -> int {
    digits_value(text.subrange(from, to)) as int
}

/// The date is one of the calendar, and the time is one of the day. A second 60
/// is a leap second.
pub open spec fn in_range(
    year: int,
    month: int,
    day: int,
    hour: int,
    minute: int,
    second: int,
) -> bool {
    &&& 1 <= month <= 12
    &&& 1 <= day <= month_length(year, month)
    &&& 0 <= hour <= 23
    &&& 0 <= minute <= 59
    &&& 0 <= second <= 60
}

/// The instant that a text of the form `YYYY-MM-DDTHH:MM:SS[.fff...]Z` names.
/// `None` for a text that is not of that form, or whose month, day or time of
/// day is out of range.
pub open spec fn instant_of(text: Seq<char>) -> Option<int> {
    let year = field(text, 0, 4);
    let month = field(text, 5, 7);
    let day = field(text, 8, 10);
    let hour = field(text, 11, 13);
    let minute = field(text, 14, 16);
    let second = field(text, 17, 19);
    if has_form(text) && in_range(year, month, day, hour, minute, second) {
        Some(
            epoch_millis(
                year,
                month,
                day,
                hour,
                minute,
                second,
                millis_of(fraction_of(text)) as int,
            ),
        )
    } else {
        None
    }
}

/// The instant that a text names, as milliseconds since the epoch, where it does
/// not lie before it.
pub open spec fn epoch_ms_of(text: Seq<char>) -> Option<u64> {
    match instant_of(text) {
        Some(ms) if 0 <= ms => Some(ms as u64),
        _ => None,
    }
}

/// The number that the digits `chars[from..to]`, four at most, spell; `None` if
/// one of them is no digit.
fn read_field(chars: &Vec<char>, from: usize, to: usize) -> (r: Option<i64>)
    requires
        from <= to <= chars@.len(),
        to - from <= 4,
    ensures
        ({
            let part = chars@.subrange(from as int, to as int);
            match r {
                Some(v) => all_digits(part) && v == digits_value(part) && 0 <= v <= 9_999,
                None => !all_digits(part),
            }
        }),
{
    let ghost part = chars@.subrange(from as int, to as int);
    let mut value: i64 = 0;
    let mut i: usize = from;
    assert(part.take(0) =~= Seq::<char>::empty());
    while i < to
        invariant
            from <= i <= to <= chars@.len(),
            to - from <= 4,
            part == chars@.subrange(from as int, to as int),
            forall|k: int| 0 <= k < i - from ==> '0' <= #[trigger] part[k] <= '9',
            value == digits_value(part.take(i - from)),
            i - from == 0 ==> value == 0,
            i - from == 1 ==> value <= 9,
            i - from == 2 ==> value <= 99,
            i - from == 3 ==> value <= 999,
            0 <= value <= 9_999,
        decreases to - i,
    {
        let c: char = chars[i];
        assert(part[i - from] == c);
        if c < '0' || c > '9' {
            return None;
        }
        proof {
            assert(part.take(i + 1 - from).drop_last() =~= part.take(i - from));
            assert(part.take(i + 1 - from).last() == c);
        }
        value = value * 10 + (c as i64 - 48);
        i = i + 1;
    }
    assert(part.take(to - from) =~= part);
    Some(value)
}

/// The milliseconds of the fraction `chars[from..to]`.
fn read_millis(chars: &Vec<char>, from: usize, to: usize) -> (r: Option<i64>)
    requires
        from <= to <= chars@.len(),
    ensures
        ({
            let part = chars@.subrange(from as int, to as int);
            match r {
                Some(v) => all_digits(part) && v == millis_of(part) && 0 <= v <= 999,
                None => !all_digits(part),
            }
        }),
{
    let ghost part = chars@.subrange(from as int, to as int);
    let mut i: usize = from;
    while i < to
        invariant
            from <= i <= to <= chars@.len(),
            part == chars@.subrange(from as int, to as int),
            forall|k: int| 0 <= k < i - from ==> '0' <= #[trigger] part[k] <= '9',
        decreases to - i,
    {
        assert(part[i - from] == chars@[i as int]);
        if chars[i] < '0' || chars[i] > '9' {
            return None;
        }
        i = i + 1;
    }
    reveal_with_fuel(digits_value, 4);
    let n: usize = to - from;
    if n == 0 {
        return Some(0);
    }
    assert(part[0] == chars@[from as int]);
    let a: i64 = chars[from] as i64 - 48;
    if n == 1 {
        assert(part.drop_last() =~= Seq::<char>::empty());
        return Some(a * 100);
    }
    assert(part[1] == chars@[from + 1]);
    let b: i64 = chars[from + 1] as i64 - 48;
    if n == 2 {
        assert(part.drop_last() =~= seq![part[0]]);
        assert(seq![part[0]].drop_last() =~= Seq::<char>::empty());
        return Some((a * 10 + b) * 10);
    }
    assert(part[2] == chars@[from + 2]);
    let c: i64 = chars[from + 2] as i64 - 48;
    assert(part.take(3).drop_last() =~= seq![part[0], part[1]]);
    assert(seq![part[0], part[1]].drop_last() =~= seq![part[0]]);
    assert(seq![part[0]].drop_last() =~= Seq::<char>::empty());
    Some((a * 10 + b) * 10 + c)
}

/// The last day of a month.
fn last_day(year: i64, month: i64) -> (day: i64)
    requires
        0 <= year,
    ensures
        day == month_length(year as int, month as int),
{
    if month == 2 {
        if year % 4 == 0 && (year % 100 != 0 || year % 400 == 0) {
            29
        } else {
            28
        }
    } else if month == 4 || month == 6 || month == 9 || month == 11 {
        30
    } else {
        31
    }
}

/// The days of a year with four digits are few.
proof fn lemma_four_digit_year(year: int, month: int, day: int)
    requires
        0 <= year <= 9_999,
        1 <= month <= 12,
        1 <= day <= 31,
    ensures
        -1_000_000 <= civil_days(year, month, day) <= 3_000_000,
{
    reveal(civil_days);
    assert(days_before_year(1970) == 719_528);
}

/// Parse an RFC3339 UTC timestamp (`YYYY-MM-DDTHH:MM:SS[.fff...]Z`) into
/// milliseconds since the Unix epoch. Fractional seconds beyond milliseconds
/// are truncated; malformed input, and an instant before the epoch, yields
/// `None`.
pub fn rfc3339_to_epoch_ms(s: &str) -> (r: Option<u64>)
    ensures
        r == epoch_ms_of(s@),
{
    let chars: Vec<char> = chars_of(s);
    let len: usize = chars.len();
    if len < 20 || chars[len - 1] != 'Z' || (len > 20 && chars[19] != '.') {
        return None;
    }
    if chars[4] != '-' || chars[7] != '-' || chars[10] != 'T' || chars[13] != ':' || chars[16]
        != ':' {
        return None;
    }
    let (year, month, day) = match (
        read_field(&chars, 0, 4),
        read_field(&chars, 5, 7),
        read_field(&chars, 8, 10),
    ) {
        (Some(year), Some(month), Some(day)) => (year, month, day),
        _ => return None,
    };
    let (hour, minute, second) = match (
        read_field(&chars, 11, 13),
        read_field(&chars, 14, 16),
        read_field(&chars, 17, 19),
    ) {
        (Some(hour), Some(minute), Some(second)) => (hour, minute, second),
        _ => return None,
    };
    let fraction: usize = if len > 20 {
        20
    } else {
        len - 1
    };
    assert(chars@.subrange(fraction as int, len - 1) =~= fraction_of(s@));
    let millis: i64 = match read_millis(&chars, fraction, len - 1) {
        Some(millis) => millis,
        None => return None,
    };
    if month < 1 || month > 12 || day < 1 || day > last_day(year, month) || hour > 23 || minute
        > 59 || second > 60 {
        return None;
    }
    proof {
        lemma_four_digit_year(year as int, month as int, day as int);
    }
    let days: i64 = days_from_civil(year, month, day);
    let total: i64 = (days * 86_400 + hour * 3_600 + minute * 60 + second) * 1_000 + millis;
    if total >= 0 {
        Some(total as u64)
    } else {
        None
    }
}

/// Padded digits are digits, and read back as the number.
proof fn lemma_padded_text(n: nat, width: nat)
    requires
        width <= 4,
        width == 4 ==> n < 10_000,
        width == 3 ==> n < 1_000,
        width == 2 ==> n < 100,
        width == 1 ==> n < 10,
        width == 0 ==> n == 0,
    ensures
        padded_text(n, width).len() == width,
        all_digits(padded_text(n, width)),
        digits_value(padded_text(n, width)) == n,
    decreases width,
{
    if width > 0 {
        let rest = padded_text(n / 10, (width - 1) as nat);
        lemma_padded_text(n / 10, (width - 1) as nat);
        let text = padded_text(n, width);
        assert(text.drop_last() =~= rest);
        assert(text.last() == digit_char(n % 10));
        assert forall|i: int| 0 <= i < text.len() implies '0' <= #[trigger] text[i] <= '9' by {
            if i < rest.len() {
                assert(text[i] == rest[i]);
            }
        }
    }
}

/// A timestamp in full: four digits for the year, two each for month, day, hour,
/// minute and second, and three for the milliseconds.
pub open spec fn timestamp_text(
    year: nat,
    month: nat,
    day: nat,
    hour: nat,
    minute: nat,
    second: nat,
    millis: nat,
) -> Seq<char> {
    let date = padded_text(year, 4) + seq!['-'] + padded_text(month, 2) + seq!['-'] + padded_text(
        day,
        2,
    );
    let clock = padded_text(hour, 2) + seq![':'] + padded_text(minute, 2) + seq![':']
        + padded_text(second, 2);
    date + seq!['T'] + (clock + seq!['.'] + padded_text(millis, 3)) + seq!['Z']
}

/// Every instant of the years 0 to 9999, written out in full, is read back.
pub proof fn law_timestamps_are_read_back(
    year: nat,
    month: nat,
    day: nat,
    hour: nat,
    minute: nat,
    second: nat,
    millis: nat,
)
    requires
        year <= 9999,
        in_range(
            year as int,
            month as int,
            day as int,
            hour as int,
            minute as int,
            second as int,
        ),
        millis <= 999,
    ensures
        instant_of(timestamp_text(year, month, day, hour, minute, second, millis)) == Some(
            epoch_millis(
                year as int,
                month as int,
                day as int,
                hour as int,
                minute as int,
                second as int,
                millis as int,
            ),
        ),
{
    lemma_padded_text(year, 4);
    lemma_padded_text(month, 2);
    lemma_padded_text(day, 2);
    lemma_padded_text(hour, 2);
    lemma_padded_text(minute, 2);
    lemma_padded_text(second, 2);
    lemma_padded_text(millis, 3);
    let text = timestamp_text(year, month, day, hour, minute, second, millis);
    assert(text.subrange(0, 4) =~= padded_text(year, 4));
    assert(text.subrange(5, 7) =~= padded_text(month, 2));
    assert(text.subrange(8, 10) =~= padded_text(day, 2));
    assert(text.subrange(11, 13) =~= padded_text(hour, 2));
    assert(text.subrange(14, 16) =~= padded_text(minute, 2));
    assert(text.subrange(17, 19) =~= padded_text(second, 2));
    assert(fraction_of(text) =~= padded_text(millis, 3));
    assert(fraction_of(text).take(3) =~= fraction_of(text));
}

/// Digits beyond the milliseconds are dropped: a digit more at the end of a
/// fraction of three or more makes no difference.
pub proof fn law_digits_beyond_millis_are_dropped(text: Seq<char>, digit: char)
    requires
        text.len() >= 23,
        '0' <= digit <= '9',
    ensures
        instant_of(text.push(digit).push('Z')) == instant_of(text.push('Z')),
{
    let short = text.push('Z');
    let long = text.push(digit).push('Z');
    let f = fraction_of(short);
    let g = fraction_of(long);
    assert(g =~= f.push(digit));
    assert(g.take(3) =~= f.take(3));
    assert(f.len() == 3 ==> f.take(3) =~= f);
    assert(long.subrange(0, 4) =~= short.subrange(0, 4));
    assert(long.subrange(5, 7) =~= short.subrange(5, 7));
    assert(long.subrange(8, 10) =~= short.subrange(8, 10));
    assert(long.subrange(11, 13) =~= short.subrange(11, 13));
    assert(long.subrange(14, 16) =~= short.subrange(14, 16));
    assert(long.subrange(17, 19) =~= short.subrange(17, 19));
    assert(all_digits(g) <==> all_digits(f)) by {
        if all_digits(g) {
            assert forall|i: int| 0 <= i < f.len() implies '0' <= #[trigger] f[i] <= '9' by {
                assert(f[i] == g[i]);
            }
        }
        if all_digits(f) {
            assert forall|i: int| 0 <= i < g.len() implies '0' <= #[trigger] g[i] <= '9' by {
                if i < f.len() {
                    assert(f[i] == g[i]);
                }
            }
        }
    }
}

proof fn lemma_digits_value_joined(a: Seq<char>, b: Seq<char>)
    requires
        all_digits(b),
    ensures
        digits_value(a + b) == digits_value(a) * pow10(b.len()) + digits_value(b),
        digits_value(b) < pow10(b.len()),
    decreases b.len(),
{
    if b.len() == 0 {
        vstd::arithmetic::power::lemma_pow0(10);
        assert(a + b =~= a);
        let v = digits_value(a);
        let p = pow10(0);
        assert(v * p == v) by (nonlinear_arith)
            requires
                p == 1,
        ;
    } else {
        let front = b.drop_last();
        assert forall|i: int| 0 <= i < front.len() implies '0' <= #[trigger] front[i] <= '9' by {
            assert(front[i] == b[i]);
        }
        lemma_digits_value_joined(a, front);
        assert('0' <= b[b.len() - 1] <= '9');
        assert((a + b).drop_last() =~= a + front);
        assert((a + b).last() == b.last());
        vstd::arithmetic::power::lemma_pow_adds(10, 1, front.len());
        vstd::arithmetic::power::lemma_pow1(10);
        lemma_pow10_positive(front.len());
        let v = digits_value(a) as int;
        let p = pow10(front.len()) as int;
        let r = digits_value(front) as int;
        let d = b.last() as int - '0' as int;
        assert(pow10(b.len()) == 10 * p);
        assert((v * p + r) * 10 + d == v * (10 * p) + (r * 10 + d)) by (nonlinear_arith);
    }
}

/// A fraction of any number of digits is cut to whole milliseconds: with `k`
/// digits that read as `v`, it is the largest number of them that does not
/// exceed `v * 1000 / 10^k`.
pub proof fn law_fraction_is_cut_to_millis(fraction: Seq<char>)
    requires
        all_digits(fraction),
    ensures
        ({
            let v = digits_value(fraction);
            let one = pow10(fraction.len());
            &&& millis_of(fraction) * one <= v * 1000
            &&& v * 1000 < (millis_of(fraction) + 1) * one
        }),
        millis_of(fraction) <= 999,
{
    let k = fraction.len();
    let v = digits_value(fraction);
    let one = pow10(k);
    lemma_digits_value_joined(Seq::empty(), fraction);
    vstd::arithmetic::power::lemma_pow0(10);
    vstd::arithmetic::power::lemma_pow1(10);
    vstd::arithmetic::power::lemma_pow_adds(10, 1, 1);
    vstd::arithmetic::power::lemma_pow_adds(10, 1, 2);
    assert(pow10(1) == 10 && pow10(2) == 100 && pow10(3) == 1000);
    if k >= 3 {
        let a = fraction.take(3);
        let b = fraction.skip(3);
        assert(a + b =~= fraction);
        assert forall|i: int| 0 <= i < a.len() implies '0' <= #[trigger] a[i] <= '9' by {
            assert(a[i] == fraction[i]);
        }
        assert forall|i: int| 0 <= i < b.len() implies '0' <= #[trigger] b[i] <= '9' by {
            assert(b[i] == fraction[i + 3]);
        }
        lemma_digits_value_joined(a, b);
        lemma_digits_value_joined(Seq::empty(), a);
        vstd::arithmetic::power::lemma_pow_adds(10, 3, b.len());
        let m = digits_value(a);
        let p = pow10(b.len());
        let rest = digits_value(b);
        lemma_pow10_positive(b.len());
        assert(one == 1000 * p);
        assert(m * (1000 * p) <= (m * p + rest) * 1000) by (nonlinear_arith)
            requires
                rest >= 0,
        ;
        assert((m * p + rest) * 1000 < (m + 1) * (1000 * p)) by (nonlinear_arith)
            requires
                rest < p,
        ;
    } else if k == 0 {
        assert(one == 1);
        assert(v == 0);
    } else if k == 1 {
        assert(one == 10);
    } else {
        assert(one == 100);
    }
}

/// The clock: the epoch is zero, and a millisecond, a second, a minute, an hour
/// and a day later is as many milliseconds more.
pub proof fn law_clock_counts_milliseconds(
    year: int,
    month: int,
    day: int,
    hour: int,
    minute: int,
    second: int,
    millis: int,
)
    ensures
        epoch_millis(1970, 1, 1, 0, 0, 0, 0) == 0,
        ({
            let then = epoch_millis(year, month, day, hour, minute, second, millis);
            &&& epoch_millis(year, month, day, hour, minute, second, millis + 1) == then + 1
            &&& epoch_millis(year, month, day, hour, minute, second + 1, millis) == then + 1_000
            &&& epoch_millis(year, month, day, hour, minute + 1, second, millis) == then + 60_000
            &&& epoch_millis(year, month, day, hour + 1, minute, second, millis) == then + 3_600_000
            &&& epoch_millis(year, month, day + 1, hour, minute, second, millis) == then
                + 86_400_000
        }),
{
    reveal(civil_days);
    assert(days_before_year(1970) == 719_528);
}

/// The calendar: the first of each month lies as many days behind the first of
/// the month before it as that month has, and the years have 365 days, or 366
/// if they are divisible by four but not by a hundred, or by four hundred.
pub proof fn law_months_have_their_days(year: int)
    ensures
        ({
            let leap = year % 4 == 0 && year % 100 != 0 || year % 400 == 0;
            let february = if leap {
                29int
            } else {
                28int
            };
            &&& civil_days(year, 2, 1) - civil_days(year, 1, 1) == 31
            &&& civil_days(year, 3, 1) - civil_days(year, 2, 1) == february
            &&& civil_days(year, 4, 1) - civil_days(year, 3, 1) == 31
            &&& civil_days(year, 5, 1) - civil_days(year, 4, 1) == 30
            &&& civil_days(year, 6, 1) - civil_days(year, 5, 1) == 31
            &&& civil_days(year, 7, 1) - civil_days(year, 6, 1) == 30
            &&& civil_days(year, 8, 1) - civil_days(year, 7, 1) == 31
            &&& civil_days(year, 9, 1) - civil_days(year, 8, 1) == 31
            &&& civil_days(year, 10, 1) - civil_days(year, 9, 1) == 30
            &&& civil_days(year, 11, 1) - civil_days(year, 10, 1) == 31
            &&& civil_days(year, 12, 1) - civil_days(year, 11, 1) == 30
            &&& civil_days(year + 1, 1, 1) - civil_days(year, 12, 1) == 31
            &&& month_length(year, 2) == february
            &&& forall|month: int|
                month == 1 || month == 3 || month == 5 || month == 7 || month == 8 || month == 10
                    || month == 12 ==> #[trigger] month_length(year, month) == 31
            &&& forall|month: int|
                month == 4 || month == 6 || month == 9 || month == 11 ==> #[trigger] month_length(
                    year,
                    month,
                ) == 30
        }),
{
    law_days_are_consecutive(year, 1);
    reveal(civil_days);
    assert(year % 400 == 0 ==> year % 4 == 0);
}

/// Every text of the documented form that names a date of the calendar and a time
/// of day is read, with a fraction of any number of digits or with none: the
/// instant is that of its fields, and the fraction is cut to milliseconds.
pub proof fn law_stamps_of_any_length_are_read(
    y: Seq<char>,
    mo: Seq<char>,
    d: Seq<char>,
    h: Seq<char>,
    mi: Seq<char>,
    s: Seq<char>,
    fraction: Seq<char>,
)
    requires
        all_digits(y) && y.len() == 4,
        all_digits(mo) && mo.len() == 2,
        all_digits(d) && d.len() == 2,
        all_digits(h) && h.len() == 2,
        all_digits(mi) && mi.len() == 2,
        all_digits(s) && s.len() == 2,
        all_digits(fraction),
        1 <= digits_value(mo) <= 12,
        1 <= digits_value(d) <= month_length(digits_value(y) as int, digits_value(mo) as int),
        digits_value(h) <= 23,
        digits_value(mi) <= 59,
        digits_value(s) <= 60,
    ensures
        ({
            let fields = y + seq!['-'] + mo + seq!['-'] + d + seq!['T'] + h + seq![':'] + mi
                + seq![':'] + s;
            let seconds = epoch_millis(
                digits_value(y) as int,
                digits_value(mo) as int,
                digits_value(d) as int,
                digits_value(h) as int,
                digits_value(mi) as int,
                digits_value(s) as int,
                0,
            );
            &&& instant_of(fields + seq!['Z']) == Some(seconds)
            &&& instant_of(fields + seq!['.'] + fraction + seq!['Z']) == Some(
                seconds + millis_of(fraction),
            )
        }),
{
    let fields = y + seq!['-'] + mo + seq!['-'] + d + seq!['T'] + h + seq![':'] + mi + seq![':']
        + s;
    let short = fields + seq!['Z'];
    let long = fields + seq!['.'] + fraction + seq!['Z'];
    assert(short.subrange(0, 4) =~= y && long.subrange(0, 4) =~= y);
    assert(short.subrange(5, 7) =~= mo && long.subrange(5, 7) =~= mo);
    assert(short.subrange(8, 10) =~= d && long.subrange(8, 10) =~= d);
    assert(short.subrange(11, 13) =~= h && long.subrange(11, 13) =~= h);
    assert(short.subrange(14, 16) =~= mi && long.subrange(14, 16) =~= mi);
    assert(short.subrange(17, 19) =~= s && long.subrange(17, 19) =~= s);
    assert(fraction_of(long) =~= fraction);
}

/// Nothing else is read: a text that names an instant has digits and marks in
/// their places, and ends in `Z`.
pub proof fn law_other_texts_are_refused(text: Seq<char>)
    requires
        instant_of(text) is Some,
    ensures
        text.len() >= 20,
        text[4] == '-' && text[7] == '-' && text[10] == 'T' && text[13] == ':' && text[16] == ':',
        text[text.len() - 1] == 'Z',
        text.len() > 20 ==> text[19] == '.',
        forall|i: int|
            0 <= i < text.len() - 1 && i != 4 && i != 7 && i != 10 && i != 13 && i != 16 && i != 19
                ==> '0' <= #[trigger] text[i] <= '9',
{
    assert forall|i: int|
        0 <= i < text.len() - 1 && i != 4 && i != 7 && i != 10 && i != 13 && i != 16 && i
            != 19 implies '0' <= #[trigger] text[i] <= '9' by {
        if i < 4 {
            assert(text.subrange(0, 4)[i] == text[i]);
        } else if i < 7 {
            assert(text.subrange(5, 7)[i - 5] == text[i]);
        } else if i < 10 {
            assert(text.subrange(8, 10)[i - 8] == text[i]);
        } else if i < 13 {
            assert(text.subrange(11, 13)[i - 11] == text[i]);
        } else if i < 16 {
            assert(text.subrange(14, 16)[i - 14] == text[i]);
        } else if i < 19 {
            assert(text.subrange(17, 19)[i - 17] == text[i]);
        } else {
            assert(fraction_of(text)[i - 20] == text[i]);
        }
    }
}

/// The milliseconds of a time stamp are its instant, and `None` if that lies
/// before the epoch or the text names none.
pub proof fn law_milliseconds_are_the_instant(text: Seq<char>)
    ensures
        epoch_ms_of(text) matches Some(ms) ==> instant_of(text) == Some(ms as int),
        instant_of(text) matches Some(ms) ==> (epoch_ms_of(text) is Some <==> ms >= 0),
        instant_of(text) is None ==> epoch_ms_of(text) is None,
{
    if instant_of(text) is Some {
        let year = field(text, 0, 4);
        let month = field(text, 5, 7);
        let day = field(text, 8, 10);
        lemma_digits_value_joined(Seq::empty(), text.subrange(0, 4));
        vstd::arithmetic::power::lemma_pow1(10);
        vstd::arithmetic::power::lemma_pow_adds(10, 1, 1);
        vstd::arithmetic::power::lemma_pow_adds(10, 1, 2);
        vstd::arithmetic::power::lemma_pow_adds(10, 1, 3);
        assert(pow10(4) == 10_000);
        lemma_four_digit_year(year, month, day);
        law_fraction_is_cut_to_millis(fraction_of(text));
    }
}

/// A time stamp is read to the instant that it names, and to none if it names none
/// or one before the epoch.
pub proof fn law_stamp_is_read_to_its_instant(text: &str, r: Option<u64>)
    requires
        call_ensures(rfc3339_to_epoch_ms, (text,), r),
    ensures
        match instant_of(text@) {
            Some(instant) => if instant >= 0 {
                r matches Some(ms) && ms == instant
            } else {
                r is None
            },
            None => r is None,
        },
{
    law_milliseconds_are_the_instant(text@);
}

} // verus!
