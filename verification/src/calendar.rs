//! Timestamps: seconds since the epoch as a calendar date and a time of day.

use vstd::prelude::*;

use crate::text;

verus! {

/// A day of the Gregorian calendar.
pub struct Date {
    pub year: int,
    pub month: int,
    pub day: int,
}

/// Every fourth year is a leap year, but of the centuries only every fourth.
pub open spec fn is_leap_year(year: int) -> bool {
    year % 4 == 0 && (year % 100 != 0 || year % 400 == 0)
}

/// The length of a month.
pub open spec fn days_in_month(year: int, month: int) -> int {
    if month == 2 {
        if is_leap_year(year) {
            29
        } else {
            28
        }
    } else if month == 4 || month == 6 || month == 9 || month == 11 {
        30
    } else {
        31
    }
}

/// A date that the calendar has.
pub open spec fn is_date(date: Date) -> bool {
    1 <= date.month <= 12 && 1 <= date.day <= days_in_month(date.year, date.month)
}

/// The day after `date`.
pub open spec fn next_day(date: Date) -> Date {
    if date.day < days_in_month(date.year, date.month) {
        Date { day: date.day + 1, ..date }
    } else if date.month < 12 {
        Date { year: date.year, month: date.month + 1, day: 1 }
    } else {
        Date { year: date.year + 1, month: 1, day: 1 }
    }
}

/// The date `days` days after the first of January 1970.
pub open spec fn date_after(days: nat) -> Date
    decreases days,
{
    if days == 0 {
        Date { year: 1970, month: 1, day: 1 }
    } else {
        next_day(date_after((days - 1) as nat))
    }
}

/// Year, month, day, hour, minute and second of a moment, given in seconds since
/// the epoch, in the form `1970-01-01 00:00:00`.
pub open spec fn timestamp(secs: nat) -> Seq<char> {
    let date = date_after(secs / 86400);
    let time = secs % 86400;
    date_text(date) + seq![' '] + time_text(time)
}

/// A date as `1970-01-01`.
pub open spec fn date_text(date: Date) -> Seq<char> {
    text::padded(date.year as nat, 4) + seq!['-'] + text::padded(date.month as nat, 2)
        + seq!['-'] + text::padded(date.day as nat, 2)
}

/// A time of day, in seconds since midnight, as `00:00:00`.
pub open spec fn time_text(time: nat) -> Seq<char> {
    text::padded(time / 3600, 2) + seq![':'] + text::padded(time % 3600 / 60, 2)
        + seq![':'] + text::padded(time % 60, 2)
}

/// The year that a date counts to when a year starts in March.
spec fn march_year(date: Date) -> int {
    if date.month <= 2 {
        date.year - 1
    } else {
        date.year
    }
}

/// The month of such a year, March being 0.
spec fn march_month(date: Date) -> int {
    if date.month <= 2 {
        date.month + 9
    } else {
        date.month - 3
    }
}

/// The day of such a year, the first of March being 0.
spec fn march_day(date: Date) -> int {
    (153 * march_month(date) + 2) / 5 + date.day - 1
}

/// The days from the first of March of the year 0 to `date`.
spec fn day_number(date: Date) -> int {
    let y = march_year(date);
    365 * y + y / 4 - y / 100 + y / 400 + march_day(date)
}

/// One day later is one more day.
#[verifier::spinoff_prover]
#[verifier::rlimit(60)]
proof fn lemma_next_day(date: Date)
    requires
        is_date(date),
    ensures
        is_date(next_day(date)),
        day_number(next_day(date)) == day_number(date) + 1,
{
    let y = date.year;
    // Only the last day of February sees the leap year.
    if date.month == 2 && date.day == days_in_month(y, 2) {
        let p = y - 1;
        assert(y / 4 - p / 4 == (if y % 4 == 0 {
            1int
        } else {
            0
        }));
        assert(y / 100 - p / 100 == (if y % 100 == 0 {
            1int
        } else {
            0
        }));
        assert(y / 400 - p / 400 == (if y % 400 == 0 {
            1int
        } else {
            0
        }));
    }
}

/// `date_after` counts days.
proof fn lemma_date_after(days: nat)
    ensures
        is_date(date_after(days)),
        date_after(days).year >= 1970,
        day_number(date_after(days)) == days + 719468,
    decreases days,
{
    if days > 0 {
        lemma_date_after((days - 1) as nat);
        lemma_next_day(date_after((days - 1) as nat));
    }
}

/// A day of a March year lies within it, and its last day exists in leap years only.
proof fn lemma_march_day(date: Date)
    requires
        is_date(date),
    ensures
        0 <= march_month(date) < 12,
        0 <= march_day(date) <= 365,
        march_day(date) == 365 ==> is_leap_year(march_year(date) + 1),
        (5 * march_day(date) + 2) / 153 == march_month(date),
{
}

/// The year within its era of 400 years can be read off the day of the era.
proof fn lemma_year_of_era(r: int, doy: int, doe: int)
    requires
        0 <= r < 400,
        0 <= doy <= 365,
        doy == 365 ==> is_leap_year(r + 1),
        doe == 365 * r + r / 4 - r / 100 + doy,
    ensures
        0 <= doe < 146097,
        0 <= doe - doe / 1460 + doe / 36524 - doe / 146096,
        (doe - doe / 1460 + doe / 36524 - doe / 146096) / 365 == r,
{
    let c = r / 100;
    let q = r % 100 / 4;
    let s = r % 4;
    assert(r == 100 * c + 4 * q + s);
    assert(r / 4 == 25 * c + q);
    assert(doe == 36524 * c + 1461 * q + 365 * s + doy);
    assert(doy == 365 ==> s == 3 && (q != 24 || c == 3));
    assert(doe / 36524 - doe / 146096 == c);
    let t = 24 * c + q + 365 * s + doy;
    assert(doe == 1460 * (25 * c + q) + t);
    assert(doe / 1460 == 25 * c + q + t / 1460);
}

/// The UTC timestamp of a moment, given in seconds since the epoch.
pub fn chrono_utc_now(secs: u64) -> (stamp: String)
    ensures
        stamp@ == timestamp(secs as nat),
{
    let days: u64 = secs / 86400;
    let time: u64 = secs % 86400;
    let (year, month, day) = civil_from_days(days);

    let mut stamp = String::new();
    text::push_padded(&mut stamp, year, 4);
    stamp.push('-');
    text::push_padded(&mut stamp, month as u64, 2);
    stamp.push('-');
    text::push_padded(&mut stamp, day as u64, 2);
    assert(stamp@ =~= date_text(date_after(days as nat)));
    stamp.push(' ');
    text::push_padded(&mut stamp, time / 3600, 2);
    stamp.push(':');
    text::push_padded(&mut stamp, time % 3600 / 60, 2);
    stamp.push(':');
    text::push_padded(&mut stamp, time % 60, 2);
    assert(stamp@ =~= timestamp(secs as nat));
    stamp
}

/// Year, month and day of the date `days` days after the first of January 1970.
pub fn civil_from_days(days: u64) -> (date: (u64, u32, u32))
    requires
        days <= u64::MAX / 86400,
    ensures
        date_after(days as nat) == (Date {
            year: date.0 as int,
            month: date.1 as int,
            day: date.2 as int,
        }),
{
    let z: i64 = days as i64 + 719468;
    let era: i64 = z / 146097;
    let doe: u32 = (z - era * 146097) as u32;
    proof {
        let date = date_after(days as nat);
        lemma_date_after(days as nat);
        lemma_march_day(date);
        let y = march_year(date);
        let e = y / 400;
        let r = y % 400;
        assert(y == 400 * e + r);
        assert(y / 4 == 100 * e + r / 4);
        assert(y / 100 == 4 * e + r / 100);
        assert((r + 1) % 4 == (y + 1) % 4 && (r + 1) % 100 == (y + 1) % 100 && (r + 1) % 400 == (y
            + 1) % 400);
        lemma_year_of_era(r, march_day(date), 365 * r + r / 4 - r / 100 + march_day(date));
        assert(z == 146097 * e + (365 * r + r / 4 - r / 100 + march_day(date)));
        assert(era == e);
    }
    let yoe: u32 = (doe - doe / 1460 + doe / 36524 - doe / 146096) / 365;
    let y: i64 = yoe as i64 + era * 400;
    let doy: u32 = doe - (365 * yoe + yoe / 4 - yoe / 100);
    let mp: u32 = (5 * doy + 2) / 153;
    let d: u32 = doy - (153 * mp + 2) / 5 + 1;
    let m: u32 = if mp < 10 {
        mp + 3
    } else {
        mp - 9
    };
    let y: i64 = if m <= 2 {
        y + 1
    } else {
        y
    };
    (y as u64, m, d)
}

// ---------------------------------------------------------------------------
// Laws
// ---------------------------------------------------------------------------

/// `a` is an earlier day than `b`.
pub open spec fn is_earlier(a: Date, b: Date) -> bool {
    a.year < b.year || (a.year == b.year && (a.month < b.month || (a.month == b.month && a.day
        < b.day)))
}

/// Days later are later days.
proof fn lemma_days_grow(a: nat, b: nat)
    requires
        a < b,
    ensures
        is_earlier(date_after(a), date_after(b)),
    decreases b,
{
    lemma_date_after((b - 1) as nat);
    if a < b - 1 {
        lemma_days_grow(a, (b - 1) as nat);
    }
}

/// The year 10000 begins 2932897 days after the epoch.
proof fn lemma_four_digit_year(days: nat)
    requires
        days < 2932897,
    ensures
        1970 <= date_after(days).year < 10000,
{
    lemma_date_after(days);
    let date = date_after(days);
    if date.year >= 10000 {
        let y = march_year(date);
        assert(y >= 9999);
        if y == 9999 {
            assert(march_day(date) >= 306);
        } else {
            assert(y / 4 - y / 100 + y / 400 >= 2424);
        }
    }
}

/// A two-digit number, padded.
proof fn lemma_two_digits(n: nat)
    requires
        n < 100,
    ensures
        text::padded(n, 2) == text::last_digits(n, 2),
        text::padded(n, 2).len() == 2,
        text::ten_to(2) == 100,
{
    reveal_with_fuel(text::ten_to, 3);
    text::lemma_digit_count(n, 2);
    text::lemma_last_digits_len(n, 2);
}

/// A four-digit number, padded.
proof fn lemma_four_digits(n: nat)
    requires
        n < 10000,
    ensures
        text::padded(n, 4) == text::last_digits(n, 4),
        text::padded(n, 4).len() == 4,
        text::ten_to(4) == 10000,
{
    reveal_with_fuel(text::ten_to, 5);
    text::lemma_digit_count(n, 4);
    text::lemma_last_digits_len(n, 4);
}

/// Three fields with a separator between each two: the first that differs decides.
proof fn lemma_fields(
    a: (Seq<char>, Seq<char>, Seq<char>),
    b: (Seq<char>, Seq<char>, Seq<char>),
    sep: Seq<char>,
)
    requires
        a.0.len() == b.0.len(),
        a.1.len() == b.1.len(),
        text::precedes(a.0, b.0) || (a.0 == b.0 && (text::precedes(a.1, b.1) || (a.1 == b.1
            && text::precedes(a.2, b.2)))),
    ensures
        text::precedes(a.0 + sep + a.1 + sep + a.2, b.0 + sep + b.1 + sep + b.2),
{
    if text::precedes(a.0, b.0) {
        text::lemma_precedes_head(a.0, b.0, sep, sep);
        text::lemma_precedes_head(a.0 + sep, b.0 + sep, a.1, b.1);
        text::lemma_precedes_head(a.0 + sep + a.1, b.0 + sep + b.1, sep, sep);
        text::lemma_precedes_head(a.0 + sep + a.1 + sep, b.0 + sep + b.1 + sep, a.2, b.2);
    } else if text::precedes(a.1, b.1) {
        text::lemma_precedes_tail(a.0 + sep, a.1, b.1);
        text::lemma_precedes_head(a.0 + sep + a.1, b.0 + sep + b.1, sep, sep);
        text::lemma_precedes_head(a.0 + sep + a.1 + sep, b.0 + sep + b.1 + sep, a.2, b.2);
    } else {
        text::lemma_precedes_tail(a.0 + sep + a.1 + sep, a.2, b.2);
    }
}

/// Dates are in the order of their texts.
proof fn lemma_date_texts(a: Date, b: Date)
    requires
        is_date(a),
        is_date(b),
        0 <= a.year < 10000,
        0 <= b.year < 10000,
    ensures
        date_text(a).len() == 10,
        is_earlier(a, b) ==> text::precedes(date_text(a), date_text(b)),
{
    lemma_four_digits(a.year as nat);
    lemma_four_digits(b.year as nat);
    lemma_two_digits(a.month as nat);
    lemma_two_digits(b.month as nat);
    lemma_two_digits(a.day as nat);
    lemma_two_digits(b.day as nat);
    if is_earlier(a, b) {
        if a.year < b.year {
            text::lemma_last_digits_order(a.year as nat, b.year as nat, 4);
        } else if a.month < b.month {
            text::lemma_last_digits_order(a.month as nat, b.month as nat, 2);
        } else {
            text::lemma_last_digits_order(a.day as nat, b.day as nat, 2);
        }
        lemma_fields(
            (
                text::padded(a.year as nat, 4),
                text::padded(a.month as nat, 2),
                text::padded(a.day as nat, 2),
            ),
            (
                text::padded(b.year as nat, 4),
                text::padded(b.month as nat, 2),
                text::padded(b.day as nat, 2),
            ),
            seq!['-'],
        );
    }
}

/// Times of day are in the order of their texts.
proof fn lemma_time_texts(a: nat, b: nat)
    requires
        a < 86400,
        b < 86400,
    ensures
        time_text(a).len() == 8,
        a < b ==> text::precedes(time_text(a), time_text(b)),
{
    lemma_two_digits(a / 3600);
    lemma_two_digits(b / 3600);
    lemma_two_digits(a % 3600 / 60);
    lemma_two_digits(b % 3600 / 60);
    lemma_two_digits(a % 60);
    lemma_two_digits(b % 60);
    if a < b {
        if a / 3600 < b / 3600 {
            text::lemma_last_digits_order(a / 3600, b / 3600, 2);
        } else if a % 3600 / 60 < b % 3600 / 60 {
            text::lemma_last_digits_order(a % 3600 / 60, b % 3600 / 60, 2);
        } else {
            assert(a / 3600 == b / 3600 && a % 3600 / 60 == b % 3600 / 60);
            assert(a % 60 < b % 60);
            text::lemma_last_digits_order(a % 60, b % 60, 2);
        }
        lemma_fields(
            (
                text::padded(a / 3600, 2),
                text::padded(a % 3600 / 60, 2),
                text::padded(a % 60, 2),
            ),
            (
                text::padded(b / 3600, 2),
                text::padded(b % 3600 / 60, 2),
                text::padded(b % 60, 2),
            ),
            seq![':'],
        );
    }
}

/// Timestamps grow with the clock: before the year 10000 they have 19 characters, a
/// later moment has a later timestamp in the order of strings, and only the same moment
/// has the same.
pub proof fn law_timestamps_grow(s1: nat, s2: nat)
    requires
        s1 <= s2 < 253402300800,
    ensures
        timestamp(s1).len() == 19,
        timestamp(s2).len() == 19,
        s1 < s2 ==> text::precedes(timestamp(s1), timestamp(s2)),
        (timestamp(s1) == timestamp(s2)) == (s1 == s2),
{
    let (d1, d2) = (s1 / 86400, s2 / 86400);
    let (t1, t2) = (s1 % 86400, s2 % 86400);
    lemma_four_digit_year(d1);
    lemma_four_digit_year(d2);
    lemma_date_after(d1);
    lemma_date_after(d2);
    lemma_date_texts(date_after(d1), date_after(d2));
    lemma_date_texts(date_after(d2), date_after(d1));
    lemma_time_texts(t1, t2);
    lemma_time_texts(t2, t1);
    let (a, b) = (date_text(date_after(d1)), date_text(date_after(d2)));
    let sep = seq![' '];
    if d1 < d2 {
        lemma_days_grow(d1, d2);
        text::lemma_precedes_head(a, b, sep, sep);
        text::lemma_precedes_head(a + sep, b + sep, time_text(t1), time_text(t2));
    } else if t1 < t2 {
        text::lemma_precedes_tail(a + sep, time_text(t1), time_text(t2));
    }
    text::lemma_precedes_irreflexive(timestamp(s1));
}

/// The calendar goes by the Gregorian rules: it begins on the first of January 1970, and a
/// day is followed by the next of its month, or where the month is over by the first of the
/// next, or after December by the first of January of the next year. Four months have 30
/// days, seven have 31, and February has 29 in a year that four divides, unless a hundred
/// does and four hundred does not, and 28 in the others.
pub proof fn law_gregorian(days: nat)
    ensures
        date_after(0) == (Date { year: 1970, month: 1, day: 1 }),
        ({
            let (a, b) = (date_after(days), date_after(days + 1));
            let leap = a.year % 4 == 0 && !(a.year % 100 == 0 && a.year % 400 != 0);
            let is_last = if a.month == 4 || a.month == 6 || a.month == 9 || a.month == 11 {
                a.day == 30
            } else if a.month == 2 {
                if leap {
                    a.day == 29
                } else {
                    a.day == 28
                }
            } else {
                a.day == 31
            };
            &&& 1 <= a.month <= 12
            &&& 1 <= a.day <= 31
            &&& !is_last ==> b.year == a.year && b.month == a.month && b.day == a.day + 1
            &&& is_last && a.month != 12 ==> b.year == a.year && b.month == a.month + 1 && b.day
                == 1
            &&& is_last && a.month == 12 ==> b.year == a.year + 1 && b.month == 1 && b.day == 1
        }),
{
    lemma_date_after(days);
}

/// Two digits that stand for a number below a hundred.
proof fn lemma_two_digit_text(n: nat)
    requires
        n < 100,
    ensures
        text::padded(n, 2) == seq![(48 + n / 10) as char, (48 + n % 10) as char],
{
    lemma_two_digits(n);
    reveal_with_fuel(text::last_digits, 3);
    assert(text::last_digits(n, 2) =~= seq![(48 + n / 10) as char, (48 + n % 10) as char]);
}

/// A timestamp is the date of the day and the time within it, each field but the year in
/// two digits.
pub proof fn law_timestamp_fields(days: nat, hour: nat, minute: nat, second: nat)
    requires
        hour < 24,
        minute < 60,
        second < 60,
    ensures
        ({
            let date = date_after(days);
            let month = date.month as nat;
            let day = date.day as nat;
            timestamp(86400 * days + 3600 * hour + 60 * minute + second) == text::padded(
                date.year as nat,
                4,
            ) + seq![
                '-',
                (48 + month / 10) as char,
                (48 + month % 10) as char,
                '-',
                (48 + day / 10) as char,
                (48 + day % 10) as char,
                ' ',
                (48 + hour / 10) as char,
                (48 + hour % 10) as char,
                ':',
                (48 + minute / 10) as char,
                (48 + minute % 10) as char,
                ':',
                (48 + second / 10) as char,
                (48 + second % 10) as char,
            ]
        }),
{
    let secs = 86400 * days + 3600 * hour + 60 * minute + second;
    let date = date_after(days);
    lemma_date_after(days);
    let month = date.month as nat;
    let day = date.day as nat;
    let time = 3600 * hour + 60 * minute + second;
    assert(secs / 86400 == days && secs % 86400 == time);
    assert(time / 3600 == hour);
    assert(time % 3600 / 60 == minute);
    assert(time % 60 == second);
    lemma_two_digit_text(month);
    lemma_two_digit_text(day);
    lemma_two_digit_text(hour);
    lemma_two_digit_text(minute);
    lemma_two_digit_text(second);
    assert(timestamp(secs) =~= text::padded(date.year as nat, 4) + seq![
        '-',
        (48 + month / 10) as char,
        (48 + month % 10) as char,
        '-',
        (48 + day / 10) as char,
        (48 + day % 10) as char,
        ' ',
        (48 + hour / 10) as char,
        (48 + hour % 10) as char,
        ':',
        (48 + minute / 10) as char,
        (48 + minute % 10) as char,
        ':',
        (48 + second / 10) as char,
        (48 + second % 10) as char,
    ]);
}

} // verus!
