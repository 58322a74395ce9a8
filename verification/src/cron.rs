//! The cron dialect: `minute hour day-of-month month day-of-week`,
//! where each field is `*`, a bare number, or `*/N` (minute and hour
//! only).  Day-of-month and month are accepted but ignored;
//! day-of-week uses 0 = Sunday … 6 = Saturday.
//!
//! `next_run_after` dispatches on the shape: hourly when the hour is
//! `*` and the minute fixed; every N minutes; every N hours; daily or
//! weekly when both hour and minute are fixed.  Unsupported shapes and
//! calendar overflow yield `None`.

use vstd::prelude::*;
use crate::datetime::{
    dt_key, dt_le, dt_lt, dt_lt_exec, next_day, valid, weekday_exec, weekday_of, DateTime,
};
use crate::numeric::{all_digits, digits_val, first_pos, parse_digits_u64};
use crate::text::{copy_range, str_to_chars};

verus! {

#[derive(PartialEq, Eq, Structural, Clone, Copy, Debug)]
pub enum CronField {
    Star,
    Num(u32),
    Step(u32),
}

#[derive(PartialEq, Eq, Structural, Clone, Copy, Debug)]
pub struct CronExpr {
    pub minute: CronField,
    pub hour: CronField,
    pub dom: CronField,
    pub month: CronField,
    pub dow: CronField,
}

/// Step divisors are positive.
pub open spec fn wf_cron(e: CronExpr) -> bool {
    &&& (e.minute matches CronField::Step(n) ==> n >= 1)
    &&& (e.hour matches CronField::Step(n) ==> n >= 1)
}

/// The times at which an expression fires, per its dispatch mode: the
/// minute matches in hourly mode, the minute is a multiple in
/// every-N-minutes mode, the hour is a multiple (at the fixed or zero
/// minute) in every-N-hours mode, and hour, minute and weekday all
/// match in daily/weekly mode.  Firings are on whole minutes.
pub open spec fn fires(e: CronExpr, dt: DateTime) -> bool {
    &&& dt.second == 0
    &&& match (e.hour, e.minute) {
        (CronField::Star, CronField::Num(m)) => dt.minute == m,
        (CronField::Star, CronField::Step(n)) => dt.minute % n == 0,
        (CronField::Step(n), mf) => dt.hour % n == 0 && dt.minute == (match mf {
            CronField::Num(m) => m,
            _ => 0u32,
        }),
        (CronField::Num(h), CronField::Num(m)) => dt.hour == h && dt.minute == m && (e.dow
            matches CronField::Num(w) ==> weekday_of(
            dt.year as int,
            dt.month as int,
            dt.day as int,
        ) == w),
        _ => false,
    }
}

// ── Parsing ───────────────────────────────────────────────────────────

/// What one field string denotes: `*`, a number of at most four
/// digits, or `*/N` with positive N.
pub open spec fn spec_parse_field(f: Seq<char>) -> Option<CronField> {
    if f.len() == 1 && f[0] == '*' {
        Some(CronField::Star)
    } else if 1 <= f.len() <= 4 && all_digits(f) {
        Some(CronField::Num(digits_val(f) as u32))
    } else if 3 <= f.len() <= 6 && f[0] == '*' && f[1] == '/' && all_digits(f.skip(2))
        && digits_val(f.skip(2)) >= 1 {
        Some(CronField::Step(digits_val(f.skip(2)) as u32))
    } else {
        None
    }
}

fn parse_field(v: &Vec<char>) -> (r: Option<CronField>)
    ensures
        r == spec_parse_field(v@),
        r matches Some(CronField::Step(n)) ==> n >= 1,
{
    let n: usize = v.len();
    if n == 1 && v[0] == '*' {
        return Some(CronField::Star);
    }
    if 3 <= n && n <= 6 && v[0] == '*' && v[1] == '/' {
        let ok = crate::numeric::all_digits_exec(v, 2, n);
        proof {
            assert(v@.subrange(2, n as int) =~= v@.skip(2));
        }
        if ok {
            let x = parse_digits_u64(v, 2, n);
            proof {
                crate::numeric::lemma_digits_val_bounds(v@.subrange(2, n as int));
                crate::numeric::lemma_pow10_le((n - 2) as nat, 4);
                assert(crate::numeric::pow10(4) == 10000) by {
                    reveal_with_fuel(crate::numeric::pow10, 5);
                }
            }
            if x >= 1 {
                return Some(CronField::Step(x as u32));
            }
        }
        return None;
    }
    if 1 <= n && n <= 4 {
        let ok = crate::numeric::all_digits_exec(v, 0, n);
        proof {
            assert(v@.subrange(0, n as int) =~= v@);
        }
        if ok {
            let x = parse_digits_u64(v, 0, n);
            proof {
                assert(v@.subrange(0, n as int) =~= v@);
                crate::numeric::lemma_digits_val_bounds(v@);
                crate::numeric::lemma_pow10_le(n as nat, 4);
                assert(crate::numeric::pow10(4) == 10000) by {
                    reveal_with_fuel(crate::numeric::pow10, 5);
                }
            }
            return Some(CronField::Num(x as u32));
        }
        return None;
    }
    None
}

/// What a five-field expression denotes; `*/N` is refused outside the
/// minute and hour fields.
pub open spec fn spec_parse_cron(s: Seq<char>) -> Option<CronExpr> {
    let a = first_pos(s, ' ');
    if a < 0 {
        None
    } else {
        let r1 = s.skip(a + 1);
        let b = first_pos(r1, ' ');
        if b < 0 {
            None
        } else {
            let r2 = r1.skip(b + 1);
            let c = first_pos(r2, ' ');
            if c < 0 {
                None
            } else {
                let r3 = r2.skip(c + 1);
                let d = first_pos(r3, ' ');
                if d < 0 {
                    None
                } else {
                    let r4 = r3.skip(d + 1);
                    if first_pos(r4, ' ') >= 0 {
                        None
                    } else {
                        let fm = spec_parse_field(s.take(a));
                        let fh = spec_parse_field(r1.take(b));
                        let fdom = spec_parse_field(r2.take(c));
                        let fmon = spec_parse_field(r3.take(d));
                        let fdow = spec_parse_field(r4);
                        if fm is Some && fh is Some && fdom is Some && fmon is Some && fdow
                            is Some && !(fdom->0 is Step) && !(fmon->0 is Step) && !(fdow->0
                            is Step) {
                            Some(
                                CronExpr {
                                    minute: fm->0,
                                    hour: fh->0,
                                    dom: fdom->0,
                                    month: fmon->0,
                                    dow: fdow->0,
                                },
                            )
                        } else {
                            None
                        }
                    }
                }
            }
        }
    }
}

/// Parses a five-field cron expression.
#[verifier::rlimit(80)]
pub fn parse_cron(s: &str) -> (r: Option<CronExpr>)
    ensures
        r == spec_parse_cron(s@),
        r matches Some(e) ==> wf_cron(e),
{
    let v = str_to_chars(s);
    proof {
        crate::numeric::lemma_first_pos(v@, ' ');
        assert(v@.skip(0) =~= v@);
    }
    let a = match crate::numeric::find_first_pos(&v, 0, ' ') {
        Some(x) => x,
        None => {
            return None;
        },
    };
    let vn: usize = v.len();
    let f1 = copy_range(&v, 0, a);
    let r1 = copy_range(&v, a + 1, vn);
    proof {
        assert(f1@ =~= v@.take(a as int));
        assert(r1@ =~= v@.skip(a + 1));
        crate::numeric::lemma_first_pos(r1@, ' ');
        assert(r1@.skip(0) =~= r1@);
    }
    let b = match crate::numeric::find_first_pos(&r1, 0, ' ') {
        Some(x) => x,
        None => {
            return None;
        },
    };
    let r1n: usize = r1.len();
    let f2 = copy_range(&r1, 0, b);
    let r2 = copy_range(&r1, b + 1, r1n);
    proof {
        assert(f2@ =~= r1@.take(b as int));
        assert(r2@ =~= r1@.skip(b + 1));
        crate::numeric::lemma_first_pos(r2@, ' ');
        assert(r2@.skip(0) =~= r2@);
    }
    let c = match crate::numeric::find_first_pos(&r2, 0, ' ') {
        Some(x) => x,
        None => {
            return None;
        },
    };
    let r2n: usize = r2.len();
    let f3 = copy_range(&r2, 0, c);
    let r3 = copy_range(&r2, c + 1, r2n);
    proof {
        assert(f3@ =~= r2@.take(c as int));
        assert(r3@ =~= r2@.skip(c + 1));
        crate::numeric::lemma_first_pos(r3@, ' ');
        assert(r3@.skip(0) =~= r3@);
    }
    let d = match crate::numeric::find_first_pos(&r3, 0, ' ') {
        Some(x) => x,
        None => {
            return None;
        },
    };
    let r3n: usize = r3.len();
    let f4 = copy_range(&r3, 0, d);
    let r4 = copy_range(&r3, d + 1, r3n);
    proof {
        assert(f4@ =~= r3@.take(d as int));
        assert(r4@ =~= r3@.skip(d + 1));
        crate::numeric::lemma_first_pos(r4@, ' ');
        assert(r4@.skip(0) =~= r4@);
    }
    if let Some(_) = crate::numeric::find_first_pos(&r4, 0, ' ') {
        return None;
    }
    let fm = parse_field(&f1);
    let fh = parse_field(&f2);
    let fdom = parse_field(&f3);
    let fmon = parse_field(&f4);
    let fdow = parse_field(&r4);
    match (fm, fh, fdom, fmon, fdow) {
        (Some(minute), Some(hour), Some(dom), Some(month), Some(dow)) => {
            let dom_step = matches!(dom, CronField::Step(_));
            let mon_step = matches!(month, CronField::Step(_));
            let dow_step = matches!(dow, CronField::Step(_));
            if dom_step || mon_step || dow_step {
                None
            } else {
                Some(CronExpr { minute, hour, dom, month, dow })
            }
        },
        _ => None,
    }
}

// ── The next firing ───────────────────────────────────────────────────

/// Computes the next time the expression fires, strictly after `t`.
///
/// The result always has second 0, matches the minute and hour fields
/// as the mode prescribes, and respects the day-of-week filter in
/// daily/weekly mode.  `None` comes only from an unsupported shape, a
/// field value out of range, or the calendar running out.
pub fn next_run_after(expr: &CronExpr, t: &DateTime) -> (r: Option<DateTime>)
    requires
        valid(*t),
        wf_cron(*expr),
    ensures
        r matches Some(dt) ==> valid(dt) && dt_lt(*t, dt) && fires(*expr, dt),
        r matches Some(dt) ==> (forall|d2: DateTime|
            valid(d2) && fires(*expr, d2) && #[trigger] dt_lt(*t, d2) ==> dt_le(dt, d2)),
        expr.minute matches CronField::Num(m) ==> (expr.hour is Star ==> (r is None ==> m > 59
            || (t.year == 9999 && t.month == 12 && t.day == 31))),
        (expr.minute is Step && expr.hour is Star) ==> (r is None ==> (t.year == 9999 && t.month
            == 12 && t.day == 31)),
        expr.hour is Step ==> (r is None ==> (match expr.minute {
            CronField::Num(m) => m > 59,
            _ => false,
        } || (t.year == 9999 && t.month == 12 && t.day == 31))),
        expr.hour matches CronField::Num(h) ==> (expr.minute matches CronField::Num(m) ==> (r
            is None ==> h > 23 || m > 59 || (match expr.dow {
            CronField::Num(w) => w > 6,
            _ => false,
        }) || t.year > 9997)),
{
    match (expr.hour, expr.minute) {
        (CronField::Star, CronField::Num(m)) => {
            let r = next_hourly(t, m);
            proof {
                match r {
                    None => {},
                    Some(dt) => {
                    assert forall|d2: DateTime|
                        valid(d2) && fires(*expr, d2) && #[trigger] dt_lt(*t, d2) implies dt_le(
                        dt,
                        d2,
                    ) by {
                        assert(d2.second == 0 && d2.minute == m);
                    }
                    },
                }
            }
            r
        },
        (CronField::Star, CronField::Step(n)) => {
            let r = next_every_minutes(t, n);
            proof {
                match r {
                    None => {},
                    Some(dt) => {
                    assert forall|d2: DateTime|
                        valid(d2) && fires(*expr, d2) && #[trigger] dt_lt(*t, d2) implies dt_le(
                        dt,
                        d2,
                    ) by {
                        assert(d2.second == 0 && d2.minute % n == 0);
                    }
                    },
                }
            }
            r
        },
        (CronField::Step(n), mf) => {
            let m: u32 = match mf {
                CronField::Num(m) => m,
                _ => 0,
            };
            let ghost sn: u32 = match mf {
                CronField::Step(x) => x,
                _ => 1u32,
            };
            proof {
                assert(0int % (sn as int) == 0) by (nonlinear_arith)
                    requires
                        sn >= 1,
                ;
            }
            let r = next_every_hours(t, n, m);
            proof {
                match r {
                    None => {},
                    Some(dt) => {
                    assert forall|d2: DateTime|
                        valid(d2) && fires(*expr, d2) && #[trigger] dt_lt(*t, d2) implies dt_le(
                        dt,
                        d2,
                    ) by {
                        assert(d2.second == 0 && d2.minute == m && d2.hour % n == 0);
                    }
                    },
                }
            }
            r
        },
        (CronField::Num(h), CronField::Num(m)) => {
            let r = next_daily(t, h, m, expr.dow);
            proof {
                match r {
                    None => {},
                    Some(dt) => {
                    assert forall|d2: DateTime|
                        valid(d2) && fires(*expr, d2) && #[trigger] dt_lt(*t, d2) implies dt_le(
                        dt,
                        d2,
                    ) by {
                        assert(d2.second == 0 && d2.minute == m && d2.hour == h);
                    }
                    },
                }
            }
            r
        },
        _ => None,
    }
}

/// A whole timestamp's key split into hour blocks, minutes and
/// seconds.
proof fn lemma_key_split(dt: DateTime)
    ensures
        dt_key(dt) == (crate::datetime::day_number(dt.year as int, dt.month as int, dt.day as int)
            * 24 + dt.hour) * 3600 + 60 * dt.minute + dt.second,
{
}

/// A result at most one hour-block past `t` is the earliest time with
/// its minute: any two such times differ by whole hour blocks.
proof fn lemma_hourly_min(t: DateTime, m: u32, res: DateTime)
    requires
        valid(t),
        valid(res),
        m <= 59,
        res.minute == m,
        res.second == 0,
        dt_key(res) <= dt_key(t) + 3600,
    ensures
        forall|d2: DateTime|
            valid(d2) && d2.second == 0 && d2.minute == m && #[trigger] dt_lt(t, d2) ==> dt_le(
                res,
                d2,
            ),
{
    assert forall|d2: DateTime|
        valid(d2) && d2.second == 0 && d2.minute == m && #[trigger] dt_lt(t, d2) implies dt_le(
        res,
        d2,
    ) by {
        lemma_key_split(d2);
        lemma_key_split(res);
        let a2 = crate::datetime::day_number(d2.year as int, d2.month as int, d2.day as int) * 24
            + d2.hour;
        let ar = crate::datetime::day_number(res.year as int, res.month as int, res.day as int)
            * 24 + res.hour;
        if dt_key(d2) < dt_key(res) {
            assert(a2 < ar);
            assert(dt_key(d2) <= dt_key(res) - 3600);
        }
    }
}

/// Hourly: the next time whose minute is `m`.
fn next_hourly(t: &DateTime, m: u32) -> (r: Option<DateTime>)
    requires
        valid(*t),
    ensures
        r matches Some(dt) ==> valid(dt) && dt_lt(*t, dt) && dt.second == 0 && dt.minute == m,
        r matches Some(dt) ==> (forall|d2: DateTime|
            valid(d2) && d2.second == 0 && d2.minute == m && #[trigger] dt_lt(*t, d2) ==> dt_le(
                dt,
                d2,
            )),
        r is None ==> m > 59 || (t.year == 9999 && t.month == 12 && t.day == 31),
{
    if m > 59 {
        return None;
    }
    let cand = DateTime { minute: m, second: 0, ..*t };
    if dt_lt_exec(t, &cand) {
        proof {
            lemma_key_split(*t);
            lemma_key_split(cand);
            lemma_hourly_min(*t, m, cand);
        }
        return Some(cand);
    }
    if t.hour < 23 {
        let res = DateTime { hour: t.hour + 1, minute: m, second: 0, ..*t };
        proof {
            lemma_key_split(*t);
            lemma_key_split(cand);
            lemma_key_split(res);
            lemma_hourly_min(*t, m, res);
        }
        return Some(res);
    }
    match next_day(&DateTime { hour: 0, minute: m, second: 0, ..*t }) {
        Some(d2) => {
            proof {
                lemma_key_split(*t);
                lemma_key_split(cand);
                lemma_key_split(d2);
                lemma_hourly_min(*t, m, d2);
            }
            Some(d2)
        },
        None => None,
    }
}

/// Every N minutes: the next time whose minute is a multiple of `n`.
fn next_every_minutes(t: &DateTime, n: u32) -> (r: Option<DateTime>)
    requires
        valid(*t),
        n >= 1,
    ensures
        r matches Some(dt) ==> valid(dt) && dt_lt(*t, dt) && dt.second == 0 && dt.minute % n
            == 0,
        r matches Some(dt) ==> (forall|d2: DateTime|
            valid(d2) && d2.second == 0 && d2.minute % n == 0 && #[trigger] dt_lt(*t, d2)
                ==> dt_le(dt, d2)),
        r is None ==> (t.year == 9999 && t.month == 12 && t.day == 31),
{
    let ghost at = crate::datetime::day_number(t.year as int, t.month as int, t.day as int) * 24
        + t.hour;
    let mut mm: u32 = t.minute + 1;
    while mm <= 59
        invariant
            valid(*t),
            n >= 1,
            t.minute < mm <= 60,
            at == crate::datetime::day_number(t.year as int, t.month as int, t.day as int) * 24
                + t.hour,
            forall|x: int| t.minute < x < mm ==> #[trigger] (x % (n as int)) != 0,
        decreases 60 - mm,
    {
        if mm % n == 0 {
            let cand = DateTime { minute: mm, second: 0, ..*t };
            proof {
                lemma_key_split(*t);
                lemma_key_split(cand);
                assert(dt_key(cand) > dt_key(*t));
                assert forall|d2: DateTime|
                    valid(d2) && d2.second == 0 && d2.minute % n == 0 && #[trigger] dt_lt(
                        *t,
                        d2,
                    ) implies dt_le(cand, d2) by {
                    lemma_key_split(d2);
                    let a2 = crate::datetime::day_number(
                        d2.year as int,
                        d2.month as int,
                        d2.day as int,
                    ) * 24 + d2.hour;
                    if dt_key(d2) < dt_key(cand) {
                        if a2 == at {
                            assert(d2.minute < mm);
                            assert(60 * d2.minute > 60 * t.minute + t.second);
                            assert(t.minute < d2.minute);
                            assert((d2.minute as int) % (n as int) != 0);
                            assert(false);
                        } else if a2 < at {
                            assert(dt_key(d2) <= (at - 1) * 3600 + 60 * 59);
                            assert(false);
                        } else {
                            assert(dt_key(d2) >= (at + 1) * 3600);
                            assert(false);
                        }
                    }
                }
            }
            return Some(cand);
        }
        mm = mm + 1;
    }
    proof {
        assert(0int % (n as int) == 0) by (nonlinear_arith)
            requires
                n >= 1,
        ;
    }
    if t.hour < 23 {
        let res = DateTime { hour: t.hour + 1, minute: 0, second: 0, ..*t };
        proof {
            lemma_every_minutes_min(*t, n, res, at);
        }
        return Some(res);
    }
    match next_day(&DateTime { hour: 0, minute: 0, second: 0, ..*t }) {
        Some(d2) => {
            proof {
                lemma_key_split(*t);
                lemma_key_split(d2);
                lemma_every_minutes_min(*t, n, d2, at);
            }
            Some(d2)
        },
        None => None,
    }
}

/// After the current hour holds no further multiple, the next hour's
/// minute zero is the earliest firing.
proof fn lemma_every_minutes_min(t: DateTime, n: u32, res: DateTime, at: int)
    requires
        valid(t),
        valid(res),
        n >= 1,
        res.minute == 0,
        res.second == 0,
        at == crate::datetime::day_number(t.year as int, t.month as int, t.day as int) * 24
            + t.hour,
        crate::datetime::day_number(res.year as int, res.month as int, res.day as int) * 24
            + res.hour == at + 1,
        forall|x: int| t.minute < x < 60 ==> #[trigger] (x % (n as int)) != 0,
    ensures
        forall|d2: DateTime|
            valid(d2) && d2.second == 0 && d2.minute % n == 0 && #[trigger] dt_lt(t, d2)
                ==> dt_le(res, d2),
{
    lemma_key_split(t);
    lemma_key_split(res);
    assert forall|d2: DateTime|
        valid(d2) && d2.second == 0 && d2.minute % n == 0 && #[trigger] dt_lt(t, d2) implies
        dt_le(res, d2) by {
        lemma_key_split(d2);
        let a2 = crate::datetime::day_number(d2.year as int, d2.month as int, d2.day as int) * 24
            + d2.hour;
        if dt_key(d2) < dt_key(res) {
            if a2 == at {
                assert(60 * d2.minute > 60 * t.minute + t.second);
                assert(t.minute < d2.minute);
                assert(d2.minute <= 59);
                assert((d2.minute as int) % (n as int) != 0);
                assert(false);
            } else if a2 < at {
                assert(dt_key(d2) <= (at - 1) * 3600 + 60 * 59);
                assert(false);
            } else {
                assert(dt_key(d2) >= (at + 1) * 3600);
                assert(dt_key(res) == (at + 1) * 3600);
                assert(false);
            }
        }
    }
}

/// Every N hours: the next time whose hour is a multiple of `n`, at
/// minute `m`.
fn next_every_hours(t: &DateTime, n: u32, m: u32) -> (r: Option<DateTime>)
    requires
        valid(*t),
        n >= 1,
    ensures
        r matches Some(dt) ==> valid(dt) && dt_lt(*t, dt) && dt.second == 0 && dt.minute == m
            && dt.hour % n == 0,
        r matches Some(dt) ==> (forall|d2: DateTime|
            valid(d2) && d2.second == 0 && d2.minute == m && d2.hour % n == 0 && #[trigger]
            dt_lt(*t, d2) ==> dt_le(dt, d2)),
        r is None ==> m > 59 || (t.year == 9999 && t.month == 12 && t.day == 31),
{
    if m > 59 {
        return None;
    }
    let ghost dnt = crate::datetime::day_number(t.year as int, t.month as int, t.day as int);
    let mut h: u32 = t.hour;
    while h <= 23
        invariant
            valid(*t),
            n >= 1,
            m <= 59,
            t.hour <= h <= 24,
            dnt == crate::datetime::day_number(t.year as int, t.month as int, t.day as int),
            forall|h2: int|
                t.hour <= h2 < h && #[trigger] (h2 % (n as int)) == 0 ==> (dnt * 24 + h2) * 3600
                    + 60 * m <= dt_key(*t),
        decreases 24 - h,
    {
        if h % n == 0 {
            let cand = DateTime { hour: h, minute: m, second: 0, ..*t };
            if dt_lt_exec(t, &cand) {
                proof {
                    lemma_key_split(*t);
                    lemma_key_split(cand);
                    assert forall|d2: DateTime|
                        valid(d2) && d2.second == 0 && d2.minute == m && d2.hour % n == 0
                            && #[trigger] dt_lt(*t, d2) implies dt_le(cand, d2) by {
                        lemma_key_split(d2);
                        let dn2 = crate::datetime::day_number(
                            d2.year as int,
                            d2.month as int,
                            d2.day as int,
                        );
                        if dt_key(d2) < dt_key(cand) {
                            if dn2 < dnt {
                                assert(dt_key(d2) <= ((dnt - 1) * 24 + 23) * 3600 + 60 * 59);
                                assert(dt_key(*t) >= (dnt * 24) * 3600);
                                assert(false);
                            } else if dn2 == dnt {
                                assert(d2.hour < h);
                                assert(60 * m <= 3540);
                                assert(d2.hour >= t.hour) by {
                                    if d2.hour < t.hour {
                                        assert(dt_key(d2) <= (dnt * 24 + t.hour - 1) * 3600 + 60
                                            * 59);
                                        assert(dt_key(*t) >= (dnt * 24 + t.hour) * 3600);
                                    }
                                }
                                assert((d2.hour as int) % (n as int) == 0);
                                assert((dnt * 24 + d2.hour) * 3600 + 60 * m <= dt_key(*t));
                                assert(false);
                            } else {
                                assert(dt_key(d2) >= ((dnt + 1) * 24) * 3600);
                                assert(dt_key(cand) <= (dnt * 24 + 23) * 3600 + 60 * 59);
                                assert(false);
                            }
                        }
                    }
                }
                return Some(cand);
            }
        }
        proof {
            if (h as int) % (n as int) == 0 {
                lemma_key_split(*t);
                let cand2 = DateTime { hour: h, minute: m, second: 0, ..*t };
                lemma_key_split(cand2);
            }
        }
        h = h + 1;
    }
    match next_day(&DateTime { hour: 0, minute: m, second: 0, ..*t }) {
        Some(d2) => {
            proof {
                lemma_key_split(*t);
                lemma_key_split(d2);
                assert(dt_key(d2) > dt_key(*t));
                assert(0int % (n as int) == 0) by (nonlinear_arith)
                    requires
                        n >= 1,
                ;
                assert forall|d3: DateTime|
                    valid(d3) && d3.second == 0 && d3.minute == m && d3.hour % n == 0
                        && #[trigger] dt_lt(*t, d3) implies dt_le(d2, d3) by {
                    lemma_key_split(d3);
                    let dn3 = crate::datetime::day_number(
                        d3.year as int,
                        d3.month as int,
                        d3.day as int,
                    );
                    if dt_key(d3) < dt_key(d2) {
                        assert(dt_key(d2) == ((dnt + 1) * 24) * 3600 + 60 * m);
                        if dn3 < dnt {
                            assert(dt_key(d3) <= ((dnt - 1) * 24 + 23) * 3600 + 60 * 59);
                            assert(dt_key(*t) >= (dnt * 24) * 3600);
                            assert(false);
                        } else if dn3 == dnt {
                            assert(d3.hour >= t.hour) by {
                                if d3.hour < t.hour {
                                    assert(dt_key(d3) <= (dnt * 24 + t.hour - 1) * 3600 + 60
                                        * 59);
                                    assert(dt_key(*t) >= (dnt * 24 + t.hour) * 3600);
                                }
                            }
                            assert(d3.hour <= 23);
                            assert((d3.hour as int) % (n as int) == 0);
                            assert((dnt * 24 + d3.hour) * 3600 + 60 * m <= dt_key(*t));
                            assert(false);
                        } else {
                            assert(dt_key(d3) >= ((dnt + 1) * 24) * 3600 + 60 * m);
                            assert(false);
                        }
                    }
                }
            }
            Some(d2)
        },
        None => None,
    }
}

/// Day numbers never decrease along years.
proof fn lemma_dby_monotone(y1: int, y2: int)
    requires
        1 <= y1 <= y2,
    ensures
        crate::datetime::days_before_year(y1) <= crate::datetime::days_before_year(y2),
    decreases y2 - y1,
{
    if y1 < y2 {
        crate::datetime::lemma_year_step(y2 - 1);
        lemma_dby_monotone(y1, y2 - 1);
    }
}

/// A date's day number sits below the start of the next year.
proof fn lemma_day_number_below_next_year(dt: DateTime)
    requires
        valid(dt),
    ensures
        crate::datetime::day_number(dt.year as int, dt.month as int, dt.day as int)
            < crate::datetime::days_before_year(dt.year as int + 1),
{
    crate::datetime::lemma_year_step(dt.year as int);
}

/// Daily or weekly: today's or a later day's fixed time, skipping days
/// whose weekday disagrees with the filter.
fn next_daily(t: &DateTime, h: u32, m: u32, dow: CronField) -> (r: Option<DateTime>)
    requires
        valid(*t),
    ensures
        r matches Some(dt) ==> valid(dt) && dt_lt(*t, dt) && dt.second == 0 && dt.minute == m
            && dt.hour == h && (dow matches CronField::Num(w) ==> weekday_of(
            dt.year as int,
            dt.month as int,
            dt.day as int,
        ) == w),
        r matches Some(dt) ==> (forall|d2: DateTime|
            valid(d2) && d2.second == 0 && d2.minute == m && d2.hour == h && (dow matches
                CronField::Num(w2) ==> weekday_of(
                d2.year as int,
                d2.month as int,
                d2.day as int,
            ) == w2) && #[trigger] dt_lt(*t, d2) ==> dt_le(dt, d2)),
        r is None ==> h > 23 || m > 59 || (match dow {
            CronField::Num(w) => w > 6,
            _ => false,
        }) || t.year > 9997,
{
    if h > 23 || m > 59 {
        return None;
    }
    let w: u32 = match dow {
        CronField::Num(w) => {
            if w > 6 {
                return None;
            }
            w
        },
        _ => 7,  // no filter
    };
    let mut cand = DateTime { hour: h, minute: m, second: 0, ..*t };
    let ghost t0 = *t;
    let ghost dnt = crate::datetime::day_number(t.year as int, t.month as int, t.day as int);
    let ghost off = (h as int) * 3600 + 60 * (m as int);
    let ghost mut rolled: bool = false;
    proof {
        lemma_key_split(t0);
        lemma_key_split(cand);
    }
    if !dt_lt_exec(t, &cand) {
        cand = match next_day(&cand) {
            Some(d2) => d2,
            None => {
                proof {
                    lemma_day_number_below_next_year(t0);
                }
                return None;
            },
        };
        proof {
            rolled = true;
        }
    }
    proof {
        lemma_key_split(cand);
        assert(rolled ==> dnt * 86400 + off <= dt_key(t0));
        assert(crate::datetime::day_number(cand.year as int, cand.month as int, cand.day as int)
            == dnt + (if rolled { 1int } else { 0int }));
    }
    if w == 7 {
        proof {
            assert forall|d2: DateTime|
                valid(d2) && d2.second == 0 && d2.minute == m && d2.hour == h && (dow matches
                    CronField::Num(w2) ==> weekday_of(
                    d2.year as int,
                    d2.month as int,
                    d2.day as int,
                ) == w2) && #[trigger] dt_lt(*t, d2) implies dt_le(cand, d2) by {
                lemma_key_split(d2);
                let dn2 = crate::datetime::day_number(
                    d2.year as int,
                    d2.month as int,
                    d2.day as int,
                );
                let dncand = crate::datetime::day_number(
                    cand.year as int,
                    cand.month as int,
                    cand.day as int,
                );
                if dt_key(d2) < dt_key(cand) {
                    assert(dn2 < dncand);
                    if dn2 < dnt {
                        assert(dt_key(d2) <= (dnt - 1) * 86400 + 23 * 3600 + 60 * 59);
                        assert(dt_key(t0) >= dnt * 86400);
                        assert(false);
                    } else {
                        assert(rolled && dn2 == dnt);
                        assert(dt_key(d2) == dnt * 86400 + off);
                        assert(false);
                    }
                }
            }
        }
        return Some(cand);
    }
    // Walk forward until the weekday agrees; the weekdays cycle with
    // period 7, so at most six more days are needed.
    let w0 = weekday_exec(cand.year, cand.month, cand.day);
    let ghost dnc = crate::datetime::day_number(cand.year as int, cand.month as int, cand.day as int);
    proof {
        lemma_day_number_below_next_year(t0);
    }
    let mut k: u32 = 0;
    loop
        invariant
            t0 == *t,
            dow == CronField::Num(w),
            valid(cand),
            valid(t0),
            t0.year <= 9999,
            h <= 23 && m <= 59,
            dnt == crate::datetime::day_number(t0.year as int, t0.month as int, t0.day as int),
            off == (h as int) * 3600 + 60 * (m as int),
            rolled ==> (dnc == dnt + 1 && dnt * 86400 + off <= dt_key(t0)),
            !rolled ==> dnc == dnt,
            dt_lt(t0, cand),
            cand.hour == h && cand.minute == m && cand.second == 0,
            w <= 6,
            w0 <= 6,
            k <= 7,
            dnc == crate::datetime::day_number(
                cand.year as int,
                cand.month as int,
                cand.day as int,
            ) - k,
            w0 as int == (dnc + 1) % 7,
            forall|j: int| 0 <= j < k ==> #[trigger] ((w0 + j) % 7) != w,
            dnc < crate::datetime::days_before_year(t0.year as int + 1) + 1,
        decreases 7 - k,
    {
        let wd = weekday_exec(cand.year, cand.month, cand.day);
        proof {
            assert(wd as int == (dnc + k + 1) % 7);
            assert((dnc + k + 1) % 7 == ((dnc + 1) % 7 + k) % 7) by (nonlinear_arith);
            assert(wd as int == (w0 + k) % 7);
        }
        if wd == w {
            proof {
                lemma_key_split(t0);
                lemma_key_split(cand);
                assert forall|d2: DateTime|
                    valid(d2) && d2.second == 0 && d2.minute == m && d2.hour == h && (dow
                        matches CronField::Num(w2) ==> weekday_of(
                        d2.year as int,
                        d2.month as int,
                        d2.day as int,
                    ) == w2) && #[trigger] dt_lt(*t, d2) implies dt_le(cand, d2) by {
                    lemma_key_split(d2);
                    let dn2 = crate::datetime::day_number(
                        d2.year as int,
                        d2.month as int,
                        d2.day as int,
                    );
                    if dt_key(d2) < dt_key(cand) {
                        assert(dn2 < dnc + k);
                        if dn2 < dnt {
                            assert(dt_key(d2) <= (dnt - 1) * 86400 + 23 * 3600 + 60 * 59);
                            assert(dt_key(t0) >= dnt * 86400);
                            assert(false);
                        } else if dn2 < dnc {
                            assert(rolled && dn2 == dnt);
                            assert(dt_key(d2) == dnt * 86400 + off);
                            assert(false);
                        } else {
                            // A walked day: its weekday was rejected.
                            let jj = dn2 - dnc;
                            assert(0 <= jj < k);
                            assert(weekday_of(d2.year as int, d2.month as int, d2.day as int)
                                == (dn2 + 1) % 7);
                            assert((dn2 + 1) % 7 == ((dnc + 1) % 7 + jj) % 7) by (nonlinear_arith)
                                requires
                                    jj == dn2 - dnc,
                            ;
                            assert(((w0 + jj) % 7) != w);
                            assert(false);
                        }
                    }
                }
            }
            return Some(cand);
        }
        proof {
            // Some step below 7 hits the target weekday, so the loop
            // cannot have exhausted all seven residues.
            let jstar: int = if w >= w0 {
                w - w0
            } else {
                w + 7 - w0
            };
            assert(((w0 + jstar) % 7) == w) by (nonlinear_arith)
                requires
                    w <= 6,
                    w0 <= 6,
                    jstar == if w >= w0 {
                        w - w0
                    } else {
                        w + 7 - w0
                    },
            ;
            assert(jstar < 7);
            if k == 7 {
                assert((w0 + jstar) % 7 != w);
            }
            assert(k < 7);
        }
        if t.year > 9997 {
            // Within two years of the calendar end the walk may fall
            // off; give up rather than overflow.
            return None;
        }
        cand = match next_day(&cand) {
            Some(d2) => d2,
            None => {
                proof {
                    lemma_dby_monotone(t0.year as int + 1, 9998);
                    crate::datetime::lemma_year_step(9998);
                    assert(false);
                }
                return None;
            },
        };
        k = k + 1;
        proof {
            lemma_day_number_below_next_year(t0);
        }
    }
}

} // verus!
