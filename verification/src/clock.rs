//! Instants, and how they are written.

use chrono::{Datelike, Timelike};
use vstd::arithmetic::div_mod::{
    lemma_fundamental_div_mod, lemma_fundamental_div_mod_converse, lemma_mod_bound,
};
use vstd::prelude::*;
use vstd::string::*;

use crate::text::{decimal, opt_text, pad_zeros, padded_decimal};

verus! {

/// An instant in UTC: whole seconds since 1970-01-01 and the nanoseconds into
/// the second, which reach 1,000,000,000 and more only inside a leap second.
#[derive(Clone, Copy, Debug, PartialEq, Eq, Structural)]
pub struct Timestamp {
    pub secs: i64,
    pub nanos: u32,
}

/// Nanoseconds in a second.
pub const NANOS: u64 = 1_000_000_000;

/// Seconds in a day.
pub const DAY: i64 = 86_400;

/// The nanoseconds from `then` to `now`. A leap second that lies between their
/// times of day is counted.
pub open spec fn elapsed(now: Timestamp, then: Timestamp) -> int {
    let leap: int = if now.secs as int % 86_400 > then.secs as int % 86_400 && then.nanos >= NANOS {
        1
    } else if (now.secs as int % 86_400) < then.secs as int % 86_400 && now.nanos >= NANOS {
        -1
    } else {
        0
    };
    (now.secs - then.secs + leap) * 1_000_000_000 + now.nanos - then.nanos
}

/// The nanoseconds from `then` to `now`, negative where `then` is the later.
pub fn elapsed_nanos(now: Timestamp, then: Timestamp) -> (r: i128)
    ensures
        r == elapsed(now, then),
{
    let a: i64 = match now.secs.checked_rem_euclid(DAY) {
        Some(x) => x,
        None => 0,
    };
    let b: i64 = match then.secs.checked_rem_euclid(DAY) {
        Some(x) => x,
        None => 0,
    };
    let leap: i128 = if a > b && then.nanos as u64 >= NANOS {
        1
    } else if a < b && now.nanos as u64 >= NANOS {
        -1
    } else {
        0
    };
    (now.secs as i128 - then.secs as i128 + leap) * 1_000_000_000 + now.nanos as i128
        - then.nanos as i128
}

/// The current instant: `std::time::SystemTime::now`, turned into calendar time by
/// chrono's `From<SystemTime> for DateTime<Utc>`. Nothing is said of what the
/// clock shows, only that a clock reading lies in no leap second.
#[verifier::external_body]
pub fn now_utc() -> (r: Timestamp)
    ensures
        r.nanos < NANOS,
{
    let t: chrono::DateTime<chrono::Utc> = std::time::SystemTime::now().into();
    Timestamp { secs: t.timestamp(), nanos: t.timestamp_subsec_nanos() }
}

// ---------------------------------------------------------------------------
// The calendar
// ---------------------------------------------------------------------------

/// A day in the Gregorian calendar, which is also counted back before its
/// introduction.
pub ghost struct CivilDate {
    /// The year, where 0 is the year before the year 1.
    pub year: int,
    /// The month, from 1 on.
    pub month: int,
    /// The day of the month, from 1 on.
    pub day: int,
}

/// The year has a 29 February.
pub open spec fn leap_year(y: int) -> bool {
    y % 4 == 0 && (y % 100 != 0 || y % 400 == 0)
}

/// The days of a month.
pub open spec fn month_days(y: int, m: int) -> int {
    if m == 2 {
        if leap_year(y) {
            29
        } else {
            28
        }
    } else if m == 4 || m == 6 || m == 9 || m == 11 {
        30
    } else {
        31
    }
}

/// The days of a year before a month.
pub open spec fn days_before(y: int, m: int) -> int
    decreases m,
{
    if m <= 1 {
        0
    } else {
        days_before(y, m - 1) + month_days(y, m - 1)
    }
}

/// The days from 1 January of the year 1 to 1 January of a year.
pub open spec fn year_start(y: int) -> int {
    365 * (y - 1) + (y - 1) / 4 - (y - 1) / 100 + (y - 1) / 400
}

/// The calendar has the day.
pub open spec fn is_date(d: CivilDate) -> bool {
    1 <= d.month <= 12 && 1 <= d.day <= month_days(d.year, d.month)
}

/// The days from 1970-01-01 to a day.
pub open spec fn day_number(d: CivilDate) -> int {
    year_start(d.year) + days_before(d.year, d.month) + d.day - 1 - 719_162
}

/// The day that lies a number of days after 1970-01-01.
pub open spec fn date_on(days: int) -> CivilDate {
    choose|d: CivilDate| is_date(d) && #[trigger] day_number(d) == days
}

/// A quotient grows where the divisor divides.
proof fn lemma_quotient_step(y: int, n: int)
    requires
        n > 1,
    ensures
        y / n == (y - 1) / n + if y % n == 0 {
            1int
        } else {
            0
        },
{
    lemma_fundamental_div_mod(y, n);
    lemma_mod_bound(y, n);
    let q = y / n;
    let r = y % n;
    if r == 0 {
        assert((q - 1) * n == n * q - n) by (nonlinear_arith);
        lemma_fundamental_div_mod_converse(y - 1, n, q - 1, n - 1);
    } else {
        assert(q * n == n * q) by (nonlinear_arith);
        lemma_fundamental_div_mod_converse(y - 1, n, q, r - 1);
    }
}

/// A year is as long as its leap day makes it.
proof fn lemma_year_length(y: int)
    ensures
        year_start(y + 1) == year_start(y) + if leap_year(y) {
            366int
        } else {
            365
        },
{
    lemma_quotient_step(y, 4);
    lemma_quotient_step(y, 100);
    lemma_quotient_step(y, 400);
    assert(y % 100 == 0 ==> y % 4 == 0);
    assert(y % 400 == 0 ==> y % 100 == 0);
}

/// A later year starts when the earlier one is over.
proof fn lemma_years_in_order(a: int, b: int)
    requires
        a < b,
    ensures
        year_start(a + 1) <= year_start(b),
    decreases b - a,
{
    if a + 1 < b {
        lemma_years_in_order(a, b - 1);
        lemma_year_length(b - 1);
    }
}

/// A later month starts when the earlier one is over.
proof fn lemma_months_in_order(y: int, a: int, b: int)
    requires
        1 <= a < b,
    ensures
        days_before(y, a) + month_days(y, a) <= days_before(y, b),
    decreases b - a,
{
    if a + 1 < b {
        lemma_months_in_order(y, a, b - 1);
    }
}

/// A day lies in its year.
proof fn lemma_day_in_year(d: CivilDate)
    requires
        is_date(d),
    ensures
        year_start(d.year) <= day_number(d) + 719_162 < year_start(d.year + 1),
{
    lemma_year_length(d.year);
    reveal_with_fuel(days_before, 14);
    assert(days_before(d.year, 13) == if leap_year(d.year) {
        366int
    } else {
        365
    });
    lemma_months_in_order(d.year, d.month, 13);
    if d.month > 1 {
        lemma_months_in_order(d.year, 1, d.month);
    }
}

/// Different days have different numbers.
pub proof fn lemma_day_number_tells_days_apart(a: CivilDate, b: CivilDate)
    requires
        is_date(a),
        is_date(b),
        day_number(a) == day_number(b),
    ensures
        a == b,
{
    lemma_day_in_year(a);
    lemma_day_in_year(b);
    if a.year < b.year {
        lemma_years_in_order(a.year, b.year);
    } else if b.year < a.year {
        lemma_years_in_order(b.year, a.year);
    } else if a.month < b.month {
        lemma_months_in_order(a.year, a.month, b.month);
    } else if b.month < a.month {
        lemma_months_in_order(a.year, b.month, a.month);
    }
}

/// The instants that chrono's `DateTime<Utc>` can hold: those of the years from
/// -262143 to 262142; and only the last second of a minute can be a leap second.
pub open spec fn reached(secs: i64, nanos: u32) -> bool {
    &&& -96_465_292 <= secs as int / 86_400 <= 95_026_236
    &&& nanos < 1_000_000_000 || (nanos < 2_000_000_000 && secs as int % 60 == 59)
}

/// Year, month, day, hour and minute of an instant: chrono's
/// `DateTime::from_timestamp` and the fields of its result. There are such fields
/// exactly where chrono can hold the instant; the day is the one with its number in
/// the Gregorian calendar, and the time of day is that of the seconds since
/// midnight.
#[verifier::external_body]
fn civil_fields(secs: i64, nanos: u32) -> (r: Option<(i32, u32, u32, u32, u32)>)
    ensures
        r is Some <==> reached(secs, nanos),
        r matches Some(f) ==> {
            let d = CivilDate { year: f.0 as int, month: f.1 as int, day: f.2 as int };
            &&& is_date(d)
            &&& day_number(d) == secs as int / 86_400
            &&& f.3 == (secs as int % 86_400) / 3_600
            &&& f.4 == (secs as int % 3_600) / 60
        },
{
    chrono::DateTime::<chrono::Utc>::from_timestamp(secs, nanos).map(
        |t| (t.year(), t.month(), t.day(), t.hour(), t.minute()),
    )
}

// ---------------------------------------------------------------------------
// Writing
// ---------------------------------------------------------------------------

/// `n` as a numeral of at least two digits.
pub open spec fn two_digits(n: int) -> Seq<char> {
    pad_zeros(decimal(n as nat), 2)
}

/// `n` as a numeral of at least four characters, a minus sign among them.
pub open spec fn year_text(n: int) -> Seq<char> {
    if n < 0 {
        seq!['-'] + pad_zeros(decimal((-n) as nat), 3)
    } else {
        pad_zeros(decimal(n as nat), 4)
    }
}

/// `YYYY-MM-DD HH:MM`.
pub open spec fn minute_text(d: CivilDate, hour: int, minute: int) -> Seq<char> {
    year_text(d.year) + "-"@ + two_digits(d.month) + "-"@ + two_digits(d.day) + " "@ + two_digits(
        hour,
    ) + ":"@ + two_digits(minute)
}

/// `YYYY-MM-DD HH:MM` (no seconds, no time zone).
pub fn format_minute(year: i32, month: u32, day: u32, hour: u32, minute: u32) -> (r: String)
    ensures
        r@ == minute_text(
            CivilDate { year: year as int, month: month as int, day: day as int },
            hour as int,
            minute as int,
        ),
{
    let mut out = if year < 0 {
        let mut s = String::new();
        s.push('-');
        assert(s@ =~= seq!['-']);
        let digits = padded_decimal((-(year as i64)) as u64, 3);
        s.append(digits.as_str());
        s
    } else {
        padded_decimal(year as u64, 4)
    };
    out.append("-");
    out.append(padded_decimal(month as u64, 2).as_str());
    out.append("-");
    out.append(padded_decimal(day as u64, 2).as_str());
    out.append(" ");
    out.append(padded_decimal(hour as u64, 2).as_str());
    out.append(":");
    out.append(padded_decimal(minute as u64, 2).as_str());
    out
}

/// How an instant is written to the minute, where chrono can hold it.
pub open spec fn started_text(t: Timestamp) -> Option<Seq<char>> {
    if reached(t.secs, t.nanos) {
        Some(
            minute_text(
                date_on(t.secs as int / 86_400),
                (t.secs as int % 86_400) / 3_600,
                (t.secs as int % 3_600) / 60,
            ),
        )
    } else {
        None
    }
}

/// The instant as `YYYY-MM-DD HH:MM`; nothing where chrono cannot hold it.
pub fn fmt_timestamp(t: Timestamp) -> (r: Option<String>)
    ensures
        opt_text(r) == started_text(t),
{
    match civil_fields(t.secs, t.nanos) {
        Some(f) => {
            proof {
                let d = CivilDate { year: f.0 as int, month: f.1 as int, day: f.2 as int };
                let days = t.secs as int / 86_400;
                assert(is_date(d) && day_number(d) == days);
                lemma_day_number_tells_days_apart(date_on(days), d);
            }
            Some(format_minute(f.0, f.1, f.2, f.3, f.4))
        },
        None => None,
    }
}

/// How RFC 3339 writes a year: with four digits, and with a sign where it needs
/// more or lies before the year 0.
pub open spec fn rfc3339_year(y: int) -> Seq<char> {
    if y < 0 {
        seq!['-'] + pad_zeros(decimal((-y) as nat), 4)
    } else if y > 9_999 {
        seq!['+'] + decimal(y as nat)
    } else {
        pad_zeros(decimal(y as nat), 4)
    }
}

/// How an instant is written in RFC 3339 with milliseconds and a `Z`, where chrono
/// can hold it. A leap second is the second after the 59th.
pub open spec fn rfc3339_millis(t: Timestamp) -> Option<Seq<char>> {
    if reached(t.secs, t.nanos) {
        let d = date_on(t.secs as int / 86_400);
        let leap: int = t.nanos as int / 1_000_000_000;
        Some(
            rfc3339_year(d.year) + "-"@ + two_digits(d.month) + "-"@ + two_digits(d.day) + "T"@
                + two_digits((t.secs as int % 86_400) / 3_600) + ":"@ + two_digits(
                (t.secs as int % 3_600) / 60,
            ) + ":"@ + two_digits(t.secs as int % 60 + leap) + "."@ + pad_zeros(
                decimal((t.nanos as nat % 1_000_000_000) / 1_000_000),
                3,
            ) + "Z"@,
        )
    } else {
        None
    }
}

/// An instant in RFC 3339 with milliseconds and a `Z`: chrono's
/// `DateTime::to_rfc3339_opts` of the instant that `DateTime::from_timestamp`
/// gives, where it gives one.
#[verifier::external_body]
pub(crate) fn rfc3339_text(t: Timestamp) -> (r: Option<String>)
    ensures
        opt_text(r) == rfc3339_millis(t),
{
    chrono::DateTime::<chrono::Utc>::from_timestamp(t.secs, t.nanos).map(
        |d| d.to_rfc3339_opts(chrono::SecondsFormat::Millis, true),
    )
}

// ---------------------------------------------------------------------------
// Laws
// ---------------------------------------------------------------------------

/// Time is counted in nanoseconds, later less earlier: outside of leap seconds it is the
/// difference of the readings, and turning the two round turns the sign round, always.
pub proof fn law_elapsed_time_is_the_difference(now: Timestamp, then: Timestamp)
    ensures
        now.nanos < 1_000_000_000 && then.nanos < 1_000_000_000 ==> elapsed(now, then) == (now.secs
            * 1_000_000_000 + now.nanos) - (then.secs * 1_000_000_000 + then.nanos),
        elapsed(now, then) == -elapsed(then, now),
        elapsed(now, now) == 0,
{
}

/// The days of the calendar follow each other one by one: within a month, from the last
/// of a month to the first of the next, and from the last of December to the first of
/// January; 1 January 1970 is the day 0.
pub proof fn law_days_follow_each_other(year: int, month: int, day: int)
    requires
        is_date(CivilDate { year, month, day }),
    ensures
        ({
            let n = day_number(CivilDate { year, month, day });
            let last = if month == 2 {
                if year % 400 == 0 || year % 4 == 0 && year % 100 != 0 {
                    29int
                } else {
                    28
                }
            } else if month == 4 || month == 6 || month == 9 || month == 11 {
                30
            } else {
                31
            };
            &&& day < last ==> is_date(CivilDate { year, month, day: day + 1 }) && day_number(
                CivilDate { year, month, day: day + 1 },
            ) == n + 1
            &&& day == last && month < 12 ==> day_number(
                CivilDate { year, month: month + 1, day: 1 },
            ) == n + 1
            &&& day == last && month == 12 ==> day_number(
                CivilDate { year: year + 1, month: 1, day: 1 },
            ) == n + 1
            &&& day <= last
        }),
        day_number(CivilDate { year: 1970, month: 1, day: 1 }) == 0,
{
    reveal_with_fuel(days_before, 13);
    if month == 12 {
        lemma_year_is_its_days(year);
    }
    assert(days_before(year, month + 1) == days_before(year, month) + month_days(year, month));
    assert(1969int / 4 == 492 && 1969int / 100 == 19 && 1969int / 400 == 4);
}

/// A year has 365 days, and one more where it has a 29 February.
proof fn lemma_year_is_its_days(y: int)
    ensures
        year_start(y + 1) == year_start(y) + days_before(y, 12) + 31,
{
    reveal_with_fuel(days_before, 13);
    assert(y / 4 - (y - 1) / 4 == if y % 4 == 0 {
        1int
    } else {
        0
    });
    assert(y / 100 - (y - 1) / 100 == if y % 100 == 0 {
        1int
    } else {
        0
    });
    assert(y / 400 - (y - 1) / 400 == if y % 400 == 0 {
        1int
    } else {
        0
    });
}

/// An instant is written as the day that it lies in and the hour and minute of that day:
/// year, month, day, hour and minute, each padded with zeros. What chrono can hold is
/// written, and nothing else.
pub proof fn law_instants_are_written_to_the_minute(
    t: Timestamp,
    d: CivilDate,
    hour: int,
    minute: int,
    second: int,
)
    requires
        is_date(d),
        0 <= hour < 24,
        0 <= minute < 60,
        0 <= second < 60,
        t.secs == day_number(d) * 86_400 + hour * 3_600 + minute * 60 + second,
    ensures
        started_text(t) is Some <==> reached(t.secs, t.nanos),
        started_text(t) is Some && 0 <= d.year ==> started_text(t) == Some(
            pad_zeros(decimal(d.year as nat), 4) + "-"@ + pad_zeros(decimal(d.month as nat), 2)
                + "-"@ + pad_zeros(decimal(d.day as nat), 2) + " "@ + pad_zeros(
                decimal(hour as nat),
                2,
            ) + ":"@ + pad_zeros(decimal(minute as nat), 2),
        ),
        started_text(t) is Some && d.year < 0 ==> started_text(t) == Some(
            seq!['-'] + pad_zeros(decimal((-d.year) as nat), 3) + "-"@ + pad_zeros(
                decimal(d.month as nat),
                2,
            ) + "-"@ + pad_zeros(decimal(d.day as nat), 2) + " "@ + pad_zeros(
                decimal(hour as nat),
                2,
            ) + ":"@ + pad_zeros(decimal(minute as nat), 2),
        ),
{
    let n = day_number(d);
    let rest = hour * 3_600 + minute * 60 + second;
    let secs = t.secs as int;
    assert(secs / 86_400 == n && secs % 86_400 == rest) by (nonlinear_arith)
        requires
            secs == n * 86_400 + rest,
            0 <= rest < 86_400,
    ;
    assert(rest / 3_600 == hour) by (nonlinear_arith)
        requires
            rest == hour * 3_600 + (minute * 60 + second),
            0 <= minute * 60 + second < 3_600,
    ;
    assert(secs % 3_600 == minute * 60 + second) by (nonlinear_arith)
        requires
            secs == n * 86_400 + hour * 3_600 + (minute * 60 + second),
            0 <= minute * 60 + second < 3_600,
    ;
    assert((minute * 60 + second) / 60 == minute);
    assert(is_date(d) && day_number(d) == n);
    lemma_day_number_tells_days_apart(date_on(n), d);
}

/// The instants that can be held are those from the first day of the year -262143 to the
/// last of the year 262142; a leap second stands only at the end of a minute.
pub proof fn law_reached_instants_have_their_years(secs: i64, nanos: u32)
    ensures
        nanos < 1_000_000_000 ==> (reached(secs, nanos) <==> day_number(
            CivilDate { year: -262_143, month: 1, day: 1 },
        ) <= secs as int / 86_400 <= day_number(CivilDate { year: 262_142, month: 12, day: 31 })),
        nanos >= 1_000_000_000 ==> (reached(secs, nanos) <==> nanos < 2_000_000_000 && secs as int
            % 60 == 59 && reached(secs, 0)),
{
    reveal_with_fuel(days_before, 13);
    assert(-262_144int / 4 == -65_536 && -262_144int / 100 == -2_622 && -262_144int / 400 == -656);
    assert(262_141int / 4 == 65_535 && 262_141int / 100 == 2_621 && 262_141int / 400 == 655);
    assert(day_number(CivilDate { year: -262_143, month: 1, day: 1 }) == -96_465_292);
    assert(262_142int % 4 == 2);
    assert(days_before(262_142, 12) == 334);
    assert(day_number(CivilDate { year: 262_142, month: 12, day: 31 }) == 95_026_236);
}

/// An instant is written with its day, its time of day and its milliseconds, each padded
/// to its width; a year of more or fewer than four digits has a sign.
pub proof fn law_instants_are_written_to_the_millisecond(
    t: Timestamp,
    d: CivilDate,
    hour: int,
    minute: int,
    second: int,
)
    requires
        is_date(d),
        0 <= hour < 24,
        0 <= minute < 60,
        0 <= second < 60,
        t.secs == day_number(d) * 86_400 + hour * 3_600 + minute * 60 + second,
        t.nanos < 1_000_000_000,
    ensures
        rfc3339_millis(t) is Some <==> reached(t.secs, t.nanos),
        rfc3339_millis(t) is Some && 0 <= d.year <= 9_999 ==> rfc3339_millis(t) == Some(
            pad_zeros(decimal(d.year as nat), 4) + "-"@ + pad_zeros(decimal(d.month as nat), 2)
                + "-"@ + pad_zeros(decimal(d.day as nat), 2) + "T"@ + pad_zeros(
                decimal(hour as nat),
                2,
            ) + ":"@ + pad_zeros(decimal(minute as nat), 2) + ":"@ + pad_zeros(
                decimal(second as nat),
                2,
            ) + "."@ + pad_zeros(decimal((t.nanos / 1_000_000) as nat), 3) + "Z"@,
        ),
        d.year > 9_999 ==> rfc3339_year(d.year) == seq!['+'] + decimal(d.year as nat),
        d.year < 0 ==> rfc3339_year(d.year) == seq!['-'] + pad_zeros(decimal((-d.year) as nat), 4),
{
    let n = day_number(d);
    let rest = hour * 3_600 + minute * 60 + second;
    let secs = t.secs as int;
    assert(secs / 86_400 == n && secs % 86_400 == rest) by (nonlinear_arith)
        requires
            secs == n * 86_400 + rest,
            0 <= rest < 86_400,
    ;
    assert(rest / 3_600 == hour) by (nonlinear_arith)
        requires
            rest == hour * 3_600 + minute * 60 + second,
            0 <= minute < 60,
            0 <= second < 60,
    ;
    assert(secs % 3_600 == minute * 60 + second) by (nonlinear_arith)
        requires
            secs == n * 86_400 + (hour * 3_600 + minute * 60 + second),
            0 <= minute < 60,
            0 <= second < 60,
    ;
    assert(secs % 60 == second) by (nonlinear_arith)
        requires
            secs == n * 86_400 + (hour * 3_600 + minute * 60 + second),
            0 <= second < 60,
    ;
    assert((minute * 60 + second) / 60 == minute) by (nonlinear_arith)
        requires
            0 <= second < 60,
    ;
    assert(is_date(d) && day_number(d) == n);
    let on = date_on(n);
    assert(is_date(on) && day_number(on) == n);
    lemma_day_number_tells_days_apart(on, d);
    assert(t.nanos as int / 1_000_000_000 == 0);
    assert(t.nanos as nat % 1_000_000_000 == t.nanos);
}

} // verus!
