//! Timestamps for the history of an image.
use vstd::arithmetic::div_mod::lemma_fundamental_div_mod_converse;
use vstd::prelude::*;
use crate::number::{decimal, pad_left, padded_left, parse_signed, read_signed, write_decimal};
use crate::text::{concat2, concat3, concat4};

verus! {

/// Has the year a 29th of February, in the Gregorian calendar?
pub open spec fn is_leap(y: int) -> bool {
    y % 4 == 0 && (y % 100 != 0 || y % 400 == 0)
}

/// How many days the month has.
pub open spec fn days_in_month(y: int, m: int) -> int {
    if m == 2 {
        if is_leap(y) {
            29
        } else {
            28
        }
    } else if m == 4 || m == 6 || m == 9 || m == 11 {
        30
    } else {
        31
    }
}

/// How many days of the year precede the month.
pub open spec fn days_before_month(y: int, m: int) -> int
    decreases m,
{
    if m <= 1 {
        0
    } else {
        days_before_month(y, m - 1) + days_in_month(y, m - 1)
    }
}

/// How many days lie between the start of the year 0 and that of the year `y`.
pub open spec fn days_before_year(y: int) -> int {
    365 * y + (y - 1) / 4 - (y - 1) / 100 + (y - 1) / 400 + 1
}

/// A day of the Gregorian calendar.
pub struct Date {
    /// The year.
    pub year: int,
    /// The month, from 1.
    pub month: int,
    /// The day of the month, from 1.
    pub day: int,
}

impl Date {
    /// Is there such a day?
    pub open spec fn valid(self) -> bool {
        1 <= self.month <= 12 && 1 <= self.day <= days_in_month(self.year, self.month)
    }

    /// How many days after the first of January 1970 it is.
    pub open spec fn day_number(self) -> int {
        days_before_year(self.year) + days_before_month(self.year, self.month) + self.day - 1
            - 719_528
    }
}

/// The day that is `days` days after the first of January 1970.
pub open spec fn date_of(days: int) -> Date {
    choose|d: Date| #[trigger] d.valid() && d.day_number() == days
}

/// Years follow one another at the distance of their lengths.
pub proof fn lemma_year_length(y: int)
    ensures
        days_before_year(y + 1) - days_before_year(y) == days_before_month(y, 13),
        days_before_month(y, 13) == (if is_leap(y) {
            366int
        } else {
            365int
        }),
{
    lemma_months(y);
    lemma_floor_step(y, 4);
    lemma_floor_step(y, 100);
    lemma_floor_step(y, 400);
}

proof fn lemma_floor_step(y: int, n: int)
    requires
        n == 4 || n == 100 || n == 400,
    ensures
        y / n == (y - 1) / n + (if y % n == 0 {
            1int
        } else {
            0int
        }),
{
    if n == 4 {
        assert(y / 4 == (y - 1) / 4 + (if y % 4 == 0 {
            1int
        } else {
            0int
        }));
    } else if n == 100 {
        assert(y / 100 == (y - 1) / 100 + (if y % 100 == 0 {
            1int
        } else {
            0int
        }));
    } else {
        assert(y / 400 == (y - 1) / 400 + (if y % 400 == 0 {
            1int
        } else {
            0int
        }));
    }
}

proof fn lemma_months(y: int)
    ensures
        ({
            let f = days_in_month(y, 2);
            &&& days_before_month(y, 1) == 0
            &&& days_before_month(y, 2) == 31
            &&& days_before_month(y, 3) == 31 + f
            &&& days_before_month(y, 4) == 62 + f
            &&& days_before_month(y, 5) == 92 + f
            &&& days_before_month(y, 6) == 123 + f
            &&& days_before_month(y, 7) == 153 + f
            &&& days_before_month(y, 8) == 184 + f
            &&& days_before_month(y, 9) == 215 + f
            &&& days_before_month(y, 10) == 245 + f
            &&& days_before_month(y, 11) == 276 + f
            &&& days_before_month(y, 12) == 306 + f
            &&& days_before_month(y, 13) == 337 + f
        }),
{
    reveal_with_fuel(days_before_month, 14);
}

proof fn lemma_in_year(d: Date)
    requires
        d.valid(),
    ensures
        days_before_year(d.year) <= d.day_number() + 719_528 < days_before_year(d.year + 1),
{
    lemma_months(d.year);
    lemma_year_length(d.year);
}

proof fn lemma_years_apart(y: int, z: int)
    requires
        y < z,
    ensures
        days_before_year(y + 1) <= days_before_year(z),
    decreases z - y,
{
    if y + 1 < z {
        lemma_years_apart(y, z - 1);
        lemma_year_length(z - 1);
    }
}

proof fn lemma_months_apart(y: int, m: int, n: int)
    requires
        1 <= m < n <= 13,
    ensures
        days_before_month(y, m) + days_in_month(y, m) <= days_before_month(y, n),
    decreases n - m,
{
    if m + 1 < n {
        lemma_months_apart(y, m, n - 1);
    }
}

/// No two days have the same number.
pub proof fn lemma_date_unique(a: Date, b: Date)
    requires
        a.valid(),
        b.valid(),
        a.day_number() == b.day_number(),
    ensures
        a == b,
{
    lemma_in_year(a);
    lemma_in_year(b);
    if a.year < b.year {
        lemma_years_apart(a.year, b.year);
    } else if b.year < a.year {
        lemma_years_apart(b.year, a.year);
    }
    if a.month < b.month {
        lemma_months_apart(a.year, a.month, b.month);
    } else if b.month < a.month {
        lemma_months_apart(a.year, b.month, a.month);
    }
}

/// The fourths, hundredths and four-hundredths of a year that is the `k`th of
/// four, in the `q`th four of a century, in the `c`th century of an era.
proof fn lemma_year_parts(e: int, c: int, q: int, k: int)
    requires
        0 <= c <= 3,
        0 <= q <= 24,
        0 <= k <= 3,
    ensures
        ({
            let y = 400 * e + 100 * c + 4 * q + k;
            &&& y / 4 == 100 * e + 25 * c + q
            &&& y / 100 == 4 * e + c
            &&& y / 400 == e
            &&& is_leap(y + 1) == (k == 3 && (q != 24 || c == 3))
        }),
{
    let y = 400 * e + 100 * c + 4 * q + k;
    lemma_fundamental_div_mod_converse(y, 4, 100 * e + 25 * c + q, k);
    lemma_fundamental_div_mod_converse(y, 100, 4 * e + c, 4 * q + k);
    lemma_fundamental_div_mod_converse(y, 400, e, 100 * c + 4 * q + k);
    if k == 3 {
        lemma_fundamental_div_mod_converse(y + 1, 4, 100 * e + 25 * c + q + 1, 0);
    } else {
        lemma_fundamental_div_mod_converse(y + 1, 4, 100 * e + 25 * c + q, k + 1);
    }
    if k == 3 && q == 24 {
        lemma_fundamental_div_mod_converse(y + 1, 100, 4 * e + c + 1, 0);
        if c == 3 {
            lemma_fundamental_div_mod_converse(y + 1, 400, e + 1, 0);
        } else {
            lemma_fundamental_div_mod_converse(y + 1, 400, e, 100 * c + 100);
        }
    } else {
        lemma_fundamental_div_mod_converse(y + 1, 100, 4 * e + c, 4 * q + k + 1);
        lemma_fundamental_div_mod_converse(y + 1, 400, e, 100 * c + 4 * q + k + 1);
    }
}

/// How many days of a year that starts in March precede its `mp`th month.
#[verifier::opaque]
spec fn days_before_march_month(mp: int) -> int {
    (153 * mp + 2) / 5
}

proof fn lemma_march_month(doy: int, mp: int)
    requires
        0 <= doy <= 365,
        mp == (5 * doy + 2) / 153,
    ensures
        0 <= mp <= 11,
        days_before_march_month(mp) <= doy,
        mp < 11 ==> doy < days_before_march_month(mp + 1),
        mp == 11 ==> days_before_march_month(mp) == 337,
{
    reveal(days_before_march_month);
    assert(153 * mp <= 5 * doy + 2 < 153 * mp + 153);
}

/// The `mp`th month of a year `y` that starts in March, as a month `m` of the
/// calendar year `yr`.
proof fn lemma_march_place(y: int, mp: int, m: int, yr: int)
    requires
        0 <= mp <= 11,
        m == (if mp < 10 {
            mp + 3
        } else {
            mp - 9
        }),
        yr == (if mp < 10 {
            y
        } else {
            y + 1
        }),
    ensures
        mp < 10 ==> days_before_month(yr, m) == days_before_month(y, 3) + days_before_march_month(
            mp,
        ),
        mp >= 10 ==> days_before_month(yr, m) == days_before_march_month(mp) - 306,
        mp < 11 ==> days_in_month(yr, m) == days_before_march_month(mp + 1)
            - days_before_march_month(mp),
        mp == 11 ==> days_in_month(yr, m) == (if is_leap(y + 1) {
            29int
        } else {
            28int
        }),
{
    reveal(days_before_march_month);
    lemma_months(y);
    lemma_months(y + 1);
    if mp < 3 {
        assert(mp == 0 || mp == 1 || mp == 2);
    } else if mp < 6 {
        assert(mp == 3 || mp == 4 || mp == 5);
    } else if mp < 9 {
        assert(mp == 6 || mp == 7 || mp == 8);
    } else {
        assert(mp == 9 || mp == 10 || mp == 11);
    }
}

/// Where a year that starts in March lies.
proof fn lemma_march_start(y: int)
    ensures
        days_before_year(y + 1) == 365 * y + y / 4 - y / 100 + y / 400 + 366,
        days_before_year(y) + days_before_month(y, 3) == 365 * y + y / 4 - y / 100 + y / 400 + 60,
{
    lemma_months(y);
    lemma_floor_step(y, 4);
    lemma_floor_step(y, 100);
    lemma_floor_step(y, 400);
}

/// The day of a year `y` that starts in March: the day `doy` after its start.
proof fn lemma_march_day(y: int, doy: int, mp: int, d: Date)
    requires
        0 <= doy <= 365,
        doy == 365 ==> is_leap(y + 1),
        mp == (5 * doy + 2) / 153,
        d.day == doy - days_before_march_month(mp) + 1,
        d.month == (if mp < 10 {
            mp + 3
        } else {
            mp - 9
        }),
        d.year == (if mp < 10 {
            y
        } else {
            y + 1
        }),
    ensures
        d.valid(),
        d.day_number() == 365 * y + y / 4 - y / 100 + y / 400 + doy - 719_468,
{
    lemma_march_month(doy, mp);
    lemma_march_place(y, mp, d.month, d.year);
    lemma_march_start(y);
}

/// The day that is `days` days after the first of January 1970: year, month
/// and day.
fn civil_from_days(days: i64) -> (r: (i64, u32, u32))
    requires
        -200_000_000_000_000 <= days <= 200_000_000_000_000,
    ensures
        date_of(days as int) == (Date { year: r.0 as int, month: r.1 as int, day: r.2 as int }),
        date_of(days as int).valid(),
        date_of(days as int).day_number() == days,
{
    // Years are counted from March, so that the 29th of February ends one.
    let z: i64 = days + 719_468;
    let era: i64 = if z >= 0 {
        z / 146_097
    } else {
        -((146_096 - z) / 146_097)
    };
    let doe: i64 = z - era * 146_097;
    assert(0 <= doe < 146_097);
    let c: i64 = if doe / 36_524 > 3 {
        3
    } else {
        doe / 36_524
    };
    let doc: i64 = doe - c * 36_524;
    let q: i64 = doc / 1461;
    let doq: i64 = doc - q * 1461;
    let k: i64 = if doq / 365 > 3 {
        3
    } else {
        doq / 365
    };
    let doy: i64 = doq - k * 365;
    let march_year: i64 = era * 400 + c * 100 + q * 4 + k;
    let mp: i64 = (5 * doy + 2) / 153;
    let day: i64 = doy - (153 * mp + 2) / 5 + 1;
    let month: i64 = if mp < 10 {
        mp + 3
    } else {
        mp - 9
    };
    let year: i64 = if mp < 10 {
        march_year
    } else {
        march_year + 1
    };
    proof {
        let d = Date { year: year as int, month: month as int, day: day as int };
        reveal(days_before_march_month);
        lemma_year_parts(era as int, c as int, q as int, k as int);
        lemma_march_day(march_year as int, doy as int, mp as int, d);
        assert(d.valid() && d.day_number() == days);
        lemma_date_unique(d, date_of(days as int));
    }
    (year, month as u32, day as u32)
}

/// The moment `epoch_secs` seconds after the start of 1970: year, month, day,
/// hour, minute and second. The year is cut to 32 bits.
pub fn civil_from_epoch(epoch_secs: i64) -> (r: (i32, u32, u32, u32, u32, u32))
    ensures
        ({
            let days = epoch_secs as int / 86_400;
            let secs = epoch_secs as int % 86_400;
            let date = date_of(days);
            &&& date.valid() && date.day_number() == days
            &&& r.0 == date.year as i32
            &&& r.1 == date.month
            &&& r.2 == date.day
            &&& r.3 == secs / 3600
            &&& r.4 == secs % 3600 / 60
            &&& r.5 == secs % 60
        }),
{
    let secs: i128 = epoch_secs as i128;
    let days: i128 = if secs >= 0 {
        secs / 86_400
    } else {
        -((86_399 - secs) / 86_400)
    };
    let day_secs: i128 = secs - days * 86_400;
    assert(0 <= day_secs < 86_400);
    assert(days == epoch_secs as int / 86_400);
    let (year, month, day) = civil_from_days(days as i64);
    (
        #[verifier::truncate]
        (year as i32),
        month,
        day,
        (day_secs / 3600) as u32,
        (day_secs % 3600 / 60) as u32,
        (day_secs % 60) as u32,
    )
}

/// A year with at least four characters, a minus sign counting as one.
pub open spec fn year_text(y: int) -> Seq<char> {
    if y < 0 {
        "-"@ + pad_left(decimal((-y) as nat), 3, '0')
    } else {
        pad_left(decimal(y as nat), 4, '0')
    }
}

/// A number with at least two digits.
pub open spec fn two_digits(n: int) -> Seq<char> {
    pad_left(decimal(n as nat), 2, '0')
}

/// The moment `epoch_secs` seconds after the start of 1970, as RFC 3339 has it.
pub open spec fn timestamp(epoch_secs: int) -> Seq<char> {
    let date = date_of(epoch_secs / 86_400);
    let secs = epoch_secs % 86_400;
    year_text((date.year as i32) as int) + "-"@ + two_digits(date.month) + "-"@ + two_digits(date.day)
        + ("T"@ + two_digits(secs / 3600) + ":"@ + two_digits(secs % 3600 / 60)) + (":"@
        + two_digits(secs % 60) + "Z"@)
}

/// The seconds that a timestamp is made from: those that the variable
/// `SOURCE_DATE_EPOCH` gives where it is a number, else those of the clock,
/// else zero.
pub open spec fn chosen_epoch(source_date_epoch: Option<Seq<char>>, clock: Option<i64>) -> int {
    match source_date_epoch {
        Some(s) => match parse_signed(s, i64::MIN as int, i64::MAX as int) {
            Some(n) => n,
            None => match clock {
                Some(n) => n as int,
                None => 0,
            },
        },
        None => match clock {
            Some(n) => n as int,
            None => 0,
        },
    }
}

fn write_two_digits(n: u32) -> (r: String)
    ensures
        r@ == two_digits(n as int),
{
    let digits = write_decimal(n as u128);
    padded_left(digits.as_str(), 2, '0')
}

fn write_year(y: i32) -> (r: String)
    ensures
        r@ == year_text(y as int),
{
    if y < 0 {
        let digits = write_decimal((-(y as i128)) as u128);
        concat2("-", padded_left(digits.as_str(), 3, '0').as_str())
    } else {
        let digits = write_decimal(y as u128);
        padded_left(digits.as_str(), 4, '0')
    }
}

/// The timestamp of a history entry, from the value of `SOURCE_DATE_EPOCH` and
/// the seconds of the clock.
pub fn now_rfc3339(source_date_epoch: Option<&str>, clock: Option<i64>) -> (r: String)
    ensures
        r@ == timestamp(
            chosen_epoch(
                match source_date_epoch {
                    Some(s) => Some(s@),
                    None => None,
                },
                clock,
            ),
        ),
{
    let pinned: Option<i64> = match source_date_epoch {
        Some(s) => read_signed(s, i64::MIN, i64::MAX),
        None => None,
    };
    let epoch: i64 = match pinned {
        Some(n) => n,
        None => match clock {
            Some(n) => n,
            None => 0,
        },
    };
    let (year, month, day, hh, mm, ss) = civil_from_epoch(epoch);
    let date = concat4(
        write_year(year).as_str(),
        "-",
        write_two_digits(month).as_str(),
        "-",
    );
    let date = concat2(date.as_str(), write_two_digits(day).as_str());
    let time = concat4(
        "T",
        write_two_digits(hh).as_str(),
        ":",
        write_two_digits(mm).as_str(),
    );
    let seconds = concat3(":", write_two_digits(ss).as_str(), "Z");
    concat3(date.as_str(), time.as_str(), seconds.as_str())
}

} // verus!
