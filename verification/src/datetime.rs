//! Calendar timestamps: `YYYY-MM-DD HH:MM:SS` values as plain fields,
//! with parsing, formatting, ordering and day arithmetic.
//!
//! Years run from 1 to 9999 in the proleptic Gregorian calendar.  A
//! timestamp's key is its distance in seconds from the calendar's
//! origin, which makes the ordering a plain integer comparison.

use vstd::prelude::*;
use crate::numeric::{all_digits, digit_char, digit_char_exec, digits_val, is_digit};
use crate::text::str_to_chars;

verus! {

#[derive(PartialEq, Eq, Structural, Clone, Copy, Debug)]
pub struct DateTime {
    pub year: u32,
    pub month: u32,
    pub day: u32,
    pub hour: u32,
    pub minute: u32,
    pub second: u32,
}

pub open spec fn is_leap(y: int) -> bool {
    (y % 4 == 0 && y % 100 != 0) || y % 400 == 0
}

pub open spec fn days_in_month(y: int, m: int) -> int {
    if m == 1 {
        31
    } else if m == 2 {
        if is_leap(y) {
            29
        } else {
            28
        }
    } else if m == 3 {
        31
    } else if m == 4 {
        30
    } else if m == 5 {
        31
    } else if m == 6 {
        30
    } else if m == 7 {
        31
    } else if m == 8 {
        31
    } else if m == 9 {
        30
    } else if m == 10 {
        31
    } else if m == 11 {
        30
    } else {
        31
    }
}

/// Days in the months of year `y` strictly before month `m`.
pub open spec fn days_before_month(y: int, m: int) -> int {
    let feb: int = if is_leap(y) {
        60
    } else {
        59
    };
    if m <= 1 {
        0
    } else if m == 2 {
        31
    } else if m == 3 {
        feb
    } else if m == 4 {
        feb + 31
    } else if m == 5 {
        feb + 61
    } else if m == 6 {
        feb + 92
    } else if m == 7 {
        feb + 122
    } else if m == 8 {
        feb + 153
    } else if m == 9 {
        feb + 184
    } else if m == 10 {
        feb + 214
    } else if m == 11 {
        feb + 245
    } else {
        feb + 275
    }
}

/// Days in the years strictly before year `y` (year 1 is the first).
pub open spec fn days_before_year(y: int) -> int {
    365 * (y - 1) + (y - 1) / 4 - (y - 1) / 100 + (y - 1) / 400
}

/// Days from the calendar origin to this date (origin date is 0).
pub open spec fn day_number(y: int, m: int, d: int) -> int {
    days_before_year(y) + days_before_month(y, m) + d - 1
}

pub open spec fn valid(dt: DateTime) -> bool {
    &&& 1 <= dt.year <= 9999
    &&& 1 <= dt.month <= 12
    &&& 1 <= dt.day <= days_in_month(dt.year as int, dt.month as int)
    &&& dt.hour <= 23
    &&& dt.minute <= 59
    &&& dt.second <= 59
}

/// Seconds from the calendar origin; the timestamp ordering.
pub open spec fn dt_key(dt: DateTime) -> int {
    ((day_number(dt.year as int, dt.month as int, dt.day as int) * 24 + dt.hour) * 60 + dt.minute)
        * 60 + dt.second
}

pub open spec fn dt_lt(a: DateTime, b: DateTime) -> bool {
    dt_key(a) < dt_key(b)
}

pub open spec fn dt_le(a: DateTime, b: DateTime) -> bool {
    dt_key(a) <= dt_key(b)
}

/// The weekday of a date, 0 = Sunday … 6 = Saturday.
pub open spec fn weekday_of(y: int, m: int, d: int) -> int {
    (day_number(y, m, d) + 1) % 7
}

// ── Executable calendar arithmetic ────────────────────────────────────

pub fn days_in_month_exec(y: u32, m: u32) -> (r: u32)
    requires
        1 <= m <= 12,
    ensures
        r == days_in_month(y as int, m as int),
        28 <= r <= 31,
{
    let leap = (y % 4 == 0 && y % 100 != 0) || y % 400 == 0;
    if m == 2 {
        if leap {
            29
        } else {
            28
        }
    } else if m == 4 || m == 6 || m == 9 || m == 11 {
        30
    } else {
        31
    }
}

fn days_before_month_exec(y: u32, m: u32) -> (r: u32)
    requires
        1 <= m <= 12,
    ensures
        r == days_before_month(y as int, m as int),
{
    let leap = (y % 4 == 0 && y % 100 != 0) || y % 400 == 0;
    let feb: u32 = if leap {
        60
    } else {
        59
    };
    if m == 1 {
        0
    } else if m == 2 {
        31
    } else if m == 3 {
        feb
    } else if m == 4 {
        feb + 31
    } else if m == 5 {
        feb + 61
    } else if m == 6 {
        feb + 92
    } else if m == 7 {
        feb + 122
    } else if m == 8 {
        feb + 153
    } else if m == 9 {
        feb + 184
    } else if m == 10 {
        feb + 214
    } else if m == 11 {
        feb + 245
    } else {
        feb + 275
    }
}

/// The date's day number (executable).
pub fn day_number_exec(y: u32, m: u32, d: u32) -> (r: u64)
    requires
        1 <= y <= 10000,
        1 <= m <= 12,
        1 <= d <= 31,
    ensures
        r == day_number(y as int, m as int, d as int),
        r < 4000000,
{
    let yy: u64 = (y - 1) as u64;
    let before_year: u64 = 365 * yy + yy / 4 - yy / 100 + yy / 400;
    proof {
        assert(yy / 100 <= yy / 4) by (nonlinear_arith)
            requires
                yy >= 0,
        ;
        assert(before_year == days_before_year(y as int)) by {
            assert(yy == y - 1);
        }
        assert(before_year <= 365 * 9999 + 9999);
    }
    before_year + (days_before_month_exec(y, m) as u64) + ((d - 1) as u64)
}

/// The weekday, 0 = Sunday … 6 = Saturday (executable).
pub fn weekday_exec(y: u32, m: u32, d: u32) -> (r: u32)
    requires
        1 <= y <= 10000,
        1 <= m <= 12,
        1 <= d <= 31,
    ensures
        r == weekday_of(y as int, m as int, d as int),
        r <= 6,
{
    let dn = day_number_exec(y, m, d);
    ((dn + 1) % 7) as u32
}

/// The timestamp's key in seconds (executable).
pub fn dt_key_exec(dt: &DateTime) -> (r: u64)
    requires
        valid(*dt),
    ensures
        r == dt_key(*dt),
        r < 350000000000,
{
    let dn = day_number_exec(dt.year, dt.month, dt.day);
    ((dn * 24 + (dt.hour as u64)) * 60 + (dt.minute as u64)) * 60 + (dt.second as u64)
}

/// Strict ordering of two timestamps (executable).
pub fn dt_lt_exec(a: &DateTime, b: &DateTime) -> (r: bool)
    requires
        valid(*a),
        valid(*b),
    ensures
        r == dt_lt(*a, *b),
{
    dt_key_exec(a) < dt_key_exec(b)
}

pub fn dt_le_exec(a: &DateTime, b: &DateTime) -> (r: bool)
    requires
        valid(*a),
        valid(*b),
    ensures
        r == dt_le(*a, *b),
{
    dt_key_exec(a) <= dt_key_exec(b)
}

// ── Stepping ──────────────────────────────────────────────────────────

/// One month's days sit between its start and the next month's start.
pub proof fn lemma_month_step(y: int, m: int)
    requires
        1 <= m <= 12,
    ensures
        m < 12 ==> days_before_month(y, m + 1) == days_before_month(y, m) + days_in_month(y, m),
        days_before_month(y, 12) + days_in_month(y, 12) == if is_leap(y) {
            366int
        } else {
            365int
        },
{
}

/// One year's days sit between its start and the next year's start.
pub proof fn lemma_year_step(y: int)
    requires
        y >= 1,
    ensures
        days_before_year(y + 1) == days_before_year(y) + (
        if is_leap(y) {
            366int
        } else {
            365int
        }),
{
    let p = y - 1;
    assert(y / 4 == if y % 4 == 0 {
        p / 4 + 1
    } else {
        p / 4
    }) by (nonlinear_arith)
        requires
            y >= 1,
            p == y - 1,
    ;
    assert(y / 100 == if y % 100 == 0 {
        p / 100 + 1
    } else {
        p / 100
    }) by (nonlinear_arith)
        requires
            y >= 1,
            p == y - 1,
    ;
    assert(y / 400 == if y % 400 == 0 {
        p / 400 + 1
    } else {
        p / 400
    }) by (nonlinear_arith)
        requires
            y >= 1,
            p == y - 1,
    ;
    assert(y % 400 == 0 ==> y % 100 == 0 && y % 4 == 0) by (nonlinear_arith);
    assert(y % 100 == 0 ==> y % 4 == 0) by (nonlinear_arith);
}

/// The day after: the same date with the day advanced, rolling months
/// and years; `None` past the last representable day.
pub fn next_day(dt: &DateTime) -> (r: Option<DateTime>)
    requires
        valid(*dt),
    ensures
        match r {
            Some(d2) => {
                &&& valid(d2)
                &&& day_number(d2.year as int, d2.month as int, d2.day as int) == day_number(
                    dt.year as int,
                    dt.month as int,
                    dt.day as int,
                ) + 1
                &&& d2.hour == dt.hour && d2.minute == dt.minute && d2.second == dt.second
            },
            None => dt.year == 9999 && dt.month == 12 && dt.day == 31,
        },
{
    let dim = days_in_month_exec(dt.year, dt.month);
    if dt.day < dim {
        Some(DateTime { day: dt.day + 1, ..*dt })
    } else if dt.month < 12 {
        proof {
            lemma_month_step(dt.year as int, dt.month as int);
        }
        Some(DateTime { month: dt.month + 1, day: 1, ..*dt })
    } else if dt.year < 9999 {
        proof {
            lemma_month_step(dt.year as int, 12);
            lemma_year_step(dt.year as int);
        }
        Some(DateTime { year: dt.year + 1, month: 1, day: 1, ..*dt })
    } else {
        None
    }
}

/// One minute later, with seconds preserved; `None` on overflow past
/// the last representable time.
pub fn next_minute(dt: &DateTime) -> (r: Option<DateTime>)
    requires
        valid(*dt),
    ensures
        match r {
            Some(d2) => {
                &&& valid(d2)
                &&& dt_key(d2) == dt_key(*dt) + 60
                &&& d2.minute as int == (if dt.minute < 59 { dt.minute + 1 } else { 0int })
                &&& day_number(d2.year as int, d2.month as int, d2.day as int) <= day_number(
                    dt.year as int,
                    dt.month as int,
                    dt.day as int,
                ) + 1
            },
            None => dt.year == 9999 && dt.month == 12 && dt.day == 31 && dt.hour == 23 && dt.minute
                == 59,
        },
{
    if dt.minute < 59 {
        Some(DateTime { minute: dt.minute + 1, ..*dt })
    } else if dt.hour < 23 {
        Some(DateTime { hour: dt.hour + 1, minute: 0, ..*dt })
    } else {
        let rolled = DateTime { hour: 0, minute: 0, ..*dt };
        match next_day(&rolled) {
            Some(d2) => Some(d2),
            None => None,
        }
    }
}

/// The last representable day.
pub open spec fn max_day_number() -> int {
    day_number(9999, 12, 31)
}

pub proof fn lemma_day_number_nonneg(dt: DateTime)
    requires
        valid(dt),
    ensures
        day_number(dt.year as int, dt.month as int, dt.day as int) >= 0,
{
    let y = dt.year as int;
    assert(days_before_year(y) >= 0) by (nonlinear_arith)
        requires
            y >= 1,
    ;
}

/// Adds whole minutes, keeping the seconds; `None` when the calendar
/// runs out, which needs the target to lie past its last day.
pub fn add_minutes(dt: &DateTime, total: u64) -> (r: Option<DateTime>)
    requires
        valid(*dt),
    ensures
        r matches Some(d2) ==> valid(d2) && dt_key(d2) == dt_key(*dt) + 60 * total,
        r is None ==> day_number(dt.year as int, dt.month as int, dt.day as int) + total / 1440
            + 1 > max_day_number(),
{
    let days: u64 = total / 1440;
    let mins: u64 = total % 1440;
    if days > 3700000 {
        proof {
            lemma_day_number_nonneg(*dt);
            assert(max_day_number() < 3660000);
        }
        return None;
    }
    let mut cur: DateTime = *dt;
    let ghost dn0 = day_number(dt.year as int, dt.month as int, dt.day as int);
    let mut i: u64 = 0;
    while i < days
        invariant
            valid(*dt),
            valid(cur),
            i <= days,
            days == total / 1440,
            dn0 == day_number(dt.year as int, dt.month as int, dt.day as int),
            cur.hour == dt.hour && cur.minute == dt.minute && cur.second == dt.second,
            day_number(cur.year as int, cur.month as int, cur.day as int) == dn0 + i,
            dt_key(cur) == dt_key(*dt) + 86400 * i,
        decreases days - i,
    {
        cur = match next_day(&cur) {
            Some(d2) => d2,
            None => {
                proof {
                    assert(day_number(cur.year as int, cur.month as int, cur.day as int)
                        == max_day_number());
                }
                return None;
            },
        };
        i = i + 1;
    }
    let mut k: u64 = 0;
    while k < mins
        invariant
            valid(*dt),
            valid(cur),
            k <= mins < 1440,
            days == total / 1440,
            mins == total % 1440,
            dn0 == day_number(dt.year as int, dt.month as int, dt.day as int),
            dt_key(cur) == dt_key(*dt) + 86400 * days + 60 * k,
        decreases mins - k,
    {
        cur = match next_minute(&cur) {
            Some(d2) => d2,
            None => {
                proof {
                    assert(day_number(cur.year as int, cur.month as int, cur.day as int)
                        == max_day_number());
                    assert(dt_key(cur) >= max_day_number() * 86400 + 86340);
                    assert(dt_key(*dt) <= dn0 * 86400 + 86399);
                    assert(dn0 + days + 1 > max_day_number());
                }
                return None;
            },
        };
        k = k + 1;
    }
    proof {
        assert(86400 * days + 60 * mins == 60 * total) by (nonlinear_arith)
            requires
                days == total / 1440,
                mins == total % 1440,
        ;
    }
    Some(cur)
}

// ── Parsing and formatting ────────────────────────────────────────────

/// The shape of a `YYYY-MM-DD HH:MM:SS` string.
pub open spec fn ts_shape(s: Seq<char>) -> bool {
    &&& s.len() == 19
    &&& all_digits(s.subrange(0, 4))
    &&& s[4] == '-'
    &&& all_digits(s.subrange(5, 7))
    &&& s[7] == '-'
    &&& all_digits(s.subrange(8, 10))
    &&& s[10] == ' '
    &&& all_digits(s.subrange(11, 13))
    &&& s[13] == ':'
    &&& all_digits(s.subrange(14, 16))
    &&& s[16] == ':'
    &&& all_digits(s.subrange(17, 19))
}

/// The fields a well-shaped timestamp denotes.
pub open spec fn ts_fields(s: Seq<char>) -> DateTime {
    DateTime {
        year: digits_val(s.subrange(0, 4)) as u32,
        month: digits_val(s.subrange(5, 7)) as u32,
        day: digits_val(s.subrange(8, 10)) as u32,
        hour: digits_val(s.subrange(11, 13)) as u32,
        minute: digits_val(s.subrange(14, 16)) as u32,
        second: digits_val(s.subrange(17, 19)) as u32,
    }
}

/// What parsing a timestamp string yields: its fields when the shape
/// and the calendar both agree, nothing otherwise.
pub open spec fn spec_parse_datetime(s: Seq<char>) -> Option<DateTime> {
    if ts_shape(s) && valid(ts_fields(s)) {
        Some(ts_fields(s))
    } else {
        None
    }
}

/// Parses a `YYYY-MM-DD HH:MM:SS` timestamp.
pub fn parse_datetime(s: &str) -> (r: Option<DateTime>)
    ensures
        r == spec_parse_datetime(s@),
{
    let v = str_to_chars(s);
    parse_datetime_chars(&v)
}

fn parse_digit_field(v: &Vec<char>, from: usize, to: usize) -> (r: Option<u32>)
    requires
        from < to <= v@.len(),
        to - from <= 4,
    ensures
        match r {
            Some(x) => all_digits(v@.subrange(from as int, to as int)) && x == digits_val(
                v@.subrange(from as int, to as int),
            ),
            None => !all_digits(v@.subrange(from as int, to as int)),
        },
{
    let mut k: usize = from;
    while k < to
        invariant
            from <= k <= to <= v@.len(),
            forall|i: int| from <= i < k ==> is_digit(#[trigger] v@[i]),
        decreases to - k,
    {
        let c = v[k];
        if !('0' <= c && c <= '9') {
            proof {
                assert(v@.subrange(from as int, to as int)[k - from] == v@[k as int]);
            }
            return None;
        }
        k = k + 1;
    }
    proof {
        assert(forall|i: int|
            0 <= i < to - from ==> v@.subrange(from as int, to as int)[i] == v@[from + i]);
    }
    let x = crate::numeric::parse_digits_u64(v, from, to);
    proof {
        crate::numeric::lemma_digits_val_bounds(v@.subrange(from as int, to as int));
        crate::numeric::lemma_pow10_le((to - from) as nat, 4);
        assert(crate::numeric::pow10(4) == 10000) by {
            reveal_with_fuel(crate::numeric::pow10, 5);
        }
    }
    Some(x as u32)
}

fn parse_datetime_chars(v: &Vec<char>) -> (r: Option<DateTime>)
    ensures
        r == spec_parse_datetime(v@),
{
    if v.len() != 19 {
        return None;
    }
    if !(v[4] == '-' && v[7] == '-' && v[10] == ' ' && v[13] == ':' && v[16] == ':') {
        return None;
    }
    let year = match parse_digit_field(v, 0, 4) {
        Some(x) => x,
        None => {
            return None;
        },
    };
    let month = match parse_digit_field(v, 5, 7) {
        Some(x) => x,
        None => {
            return None;
        },
    };
    let day = match parse_digit_field(v, 8, 10) {
        Some(x) => x,
        None => {
            return None;
        },
    };
    let hour = match parse_digit_field(v, 11, 13) {
        Some(x) => x,
        None => {
            return None;
        },
    };
    let minute = match parse_digit_field(v, 14, 16) {
        Some(x) => x,
        None => {
            return None;
        },
    };
    let second = match parse_digit_field(v, 17, 19) {
        Some(x) => x,
        None => {
            return None;
        },
    };
    let dt = DateTime { year, month, day, hour, minute, second };
    let ok = 1 <= year && year <= 9999 && 1 <= month && month <= 12 && 1 <= day && day
        <= days_in_month_exec(year, if 1 <= month && month <= 12 {
        month
    } else {
        1
    }) && hour <= 23 && minute <= 59 && second <= 59;
    if ok {
        proof {
            assert(dt == ts_fields(v@));
        }
        Some(dt)
    } else {
        None
    }
}

/// The zero-padded renderings of the fields.
pub open spec fn pad2(n: int) -> Seq<char> {
    seq![digit_char(n / 10), digit_char(n % 10)]
}

pub open spec fn pad4(n: int) -> Seq<char> {
    seq![
        digit_char(n / 1000),
        digit_char((n / 100) % 10),
        digit_char((n / 10) % 10),
        digit_char(n % 10),
    ]
}

/// The canonical `YYYY-MM-DD HH:MM:SS` rendering.
pub open spec fn spec_format_datetime(dt: DateTime) -> Seq<char> {
    pad4(dt.year as int) + seq!['-'] + pad2(dt.month as int) + seq!['-'] + pad2(dt.day as int)
        + seq![' '] + pad2(dt.hour as int) + seq![':'] + pad2(dt.minute as int) + seq![':'] + pad2(
        dt.second as int,
    )
}

fn push_pad2(out: &mut Vec<char>, n: u32)
    requires
        n <= 99,
    ensures
        final(out)@ == old(out)@ + pad2(n as int),
{
    out.push(digit_char_exec((n / 10) as u64));
    out.push(digit_char_exec((n % 10) as u64));
    proof {
        assert(out@ =~= old(out)@ + pad2(n as int));
    }
}

/// Formats a timestamp as `YYYY-MM-DD HH:MM:SS`.
pub fn format_datetime(dt: &DateTime) -> (r: String)
    requires
        valid(*dt),
    ensures
        r@ == spec_format_datetime(*dt),
{
    let mut out: Vec<char> = Vec::new();
    out.push(digit_char_exec((dt.year / 1000) as u64));
    out.push(digit_char_exec(((dt.year / 100) % 10) as u64));
    out.push(digit_char_exec(((dt.year / 10) % 10) as u64));
    out.push(digit_char_exec((dt.year % 10) as u64));
    out.push('-');
    push_pad2(&mut out, dt.month);
    out.push('-');
    push_pad2(&mut out, dt.day);
    out.push(' ');
    push_pad2(&mut out, dt.hour);
    out.push(':');
    push_pad2(&mut out, dt.minute);
    out.push(':');
    push_pad2(&mut out, dt.second);
    proof {
        assert(out@ =~= spec_format_datetime(*dt));
    }
    crate::text::chars_to_string(&out)
}

} // verus!
