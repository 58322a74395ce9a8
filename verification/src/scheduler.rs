//! Scheduled organization tasks: which schedules are due, and when a
//! schedule runs next.
//!
//! The scheduler keeps its entries keyed by id; a schedule is due when
//! it is enabled and its `next_run_at` is absent or not after the
//! clock.  `calculate_next_run` turns a cron expression into the next
//! firing formatted as `YYYY-MM-DD HH:MM:SS`.

use vstd::prelude::*;
use crate::cron::{next_run_after, parse_cron, spec_parse_cron, CronField};
use crate::datetime::{
    add_minutes, dt_key, dt_le, dt_le_exec, dt_lt, format_datetime, parse_datetime,
    spec_format_datetime, spec_parse_datetime, valid, DateTime,
};
use crate::numeric::{all_digits, digits_val};
use crate::text::{str_eq, str_to_chars};
use vstd::pervasive::VecAdditionalExecFns;

verus! {

/// A scheduled task entry.
pub struct ScheduleEntry {
    pub id: String,
    pub profile_id: String,
    pub folder_id: String,
    pub folder_path: String,
    pub cron_expr: String,
    pub is_enabled: bool,
    pub last_run_at: Option<String>,
    pub next_run_at: Option<String>,
}

impl Clone for ScheduleEntry {
    fn clone(&self) -> (r: Self)
        ensures
            r == *self,
    {
        ScheduleEntry {
            id: self.id.clone(),
            profile_id: self.profile_id.clone(),
            folder_id: self.folder_id.clone(),
            folder_path: self.folder_path.clone(),
            cron_expr: self.cron_expr.clone(),
            is_enabled: self.is_enabled,
            last_run_at: match &self.last_run_at {
                Some(s) => Some(s.clone()),
                None => None,
            },
            next_run_at: match &self.next_run_at {
                Some(s) => Some(s.clone()),
                None => None,
            },
        }
    }
}

/// Represents a schedule that is due for execution.
pub struct DueSchedule {
    pub schedule_id: String,
    pub profile_id: String,
    pub folder_path: String,
}

/// A schedule is due: enabled, and never run or past its next run
/// time; an unreadable `next_run_at` keeps it dormant.  Treating a
/// missing `next_run_at` as due is this in-memory scheduler's own
/// convention; the persisted schedules are created with a precomputed
/// `next_run_at` and stay dormant while it is missing.
pub open spec fn is_due(e: ScheduleEntry, now: DateTime) -> bool {
    e.is_enabled && match e.next_run_at {
        Some(s) => match spec_parse_datetime(s@) {
            Some(nr) => dt_le(nr, now),
            None => false,
        },
        None => true,
    }
}

/// How many of the entries are due.
pub open spec fn due_count(entries: Seq<ScheduleEntry>, now: DateTime) -> int
    decreases entries.len(),
{
    if entries.len() == 0 {
        0
    } else {
        due_count(entries.drop_last(), now) + (
        if is_due(entries.last(), now) {
            1int
        } else {
            0int
        })
    }
}

pub proof fn lemma_due_count_mono(entries: Seq<ScheduleEntry>, j1: int, j2: int, now: DateTime)
    requires
        0 <= j1 <= j2 <= entries.len(),
    ensures
        due_count(entries.take(j1), now) <= due_count(entries.take(j2), now),
    decreases j2 - j1,
{
    if j1 < j2 {
        lemma_due_count_step(entries, j2 - 1, now);
        lemma_due_count_mono(entries, j1, j2 - 1, now);
    }
}

pub proof fn lemma_due_count_step(entries: Seq<ScheduleEntry>, k: int, now: DateTime)
    requires
        0 <= k < entries.len(),
    ensures
        due_count(entries.take(k + 1), now) == due_count(entries.take(k), now) + (
        if is_due(entries[k], now) {
            1int
        } else {
            0int
        }),
        due_count(entries.take(k), now) >= 0,
    decreases k,
{
    assert(entries.take(k + 1).drop_last() =~= entries.take(k));
    assert(entries.take(k + 1).last() == entries[k]);
    if k > 0 {
        lemma_due_count_step(entries, k - 1, now);
    } else {
        assert(entries.take(0) =~= Seq::<ScheduleEntry>::empty());
    }
}

/// Manages scheduled organization tasks.
pub struct Scheduler {
    pub schedules: Vec<ScheduleEntry>,
}

/// An entry with this id is present.
pub open spec fn has_id(entries: Seq<ScheduleEntry>, id: Seq<char>) -> bool {
    exists|i: int| 0 <= i < entries.len() && entries[i].id@ == id
}

/// The entries whose id differs from `id`, in order.
pub open spec fn keep_others(entries: Seq<ScheduleEntry>, id: Seq<char>) -> Seq<ScheduleEntry>
    decreases entries.len(),
{
    if entries.len() == 0 {
        Seq::<ScheduleEntry>::empty()
    } else if entries.last().id@ == id {
        keep_others(entries.drop_last(), id)
    } else {
        keep_others(entries.drop_last(), id).push(entries.last())
    }
}

impl Scheduler {
    /// Creates a new empty scheduler.
    pub fn new() -> (r: Self)
        ensures
            r.schedules@.len() == 0,
    {
        Scheduler { schedules: Vec::new() }
    }

    /// Adds or updates a schedule entry: an entry with the same id is
    /// replaced, anything else is kept.
    pub fn add_schedule(&mut self, entry: ScheduleEntry)
        ensures
            final(self).schedules@ == keep_others(old(self).schedules@, entry.id@).push(entry),
    {
        self.remove_schedule_by(&entry.id.clone());
        self.schedules.push(entry);
    }

    /// Removes a schedule entry by id.
    pub fn remove_schedule(&mut self, id: &str)
        ensures
            final(self).schedules@ == keep_others(old(self).schedules@, id@),
    {
        let owned = id.to_owned();
        self.remove_schedule_by(&owned);
    }

    fn remove_schedule_by(&mut self, id: &String)
        ensures
            final(self).schedules@ == keep_others(old(self).schedules@, id@),
    {
        let n: usize = self.schedules.len();
        let mut kept: Vec<ScheduleEntry> = Vec::new();
        let mut i: usize = 0;
        while i < n
            invariant
                n == self.schedules@.len(),
                i <= n,
                kept@ == keep_others(self.schedules@.take(i as int), id@),
            decreases n - i,
        {
            proof {
                assert(self.schedules@.take(i + 1).drop_last() =~= self.schedules@.take(i as int));
                assert(self.schedules@.take(i + 1).last() == self.schedules@[i as int]);
            }
            if !str_eq(self.schedules[i].id.as_str(), id.as_str()) {
                let item = self.schedules[i].clone();
                kept.push(item);
            }
            i = i + 1;
        }
        proof {
            assert(self.schedules@.take(n as int) =~= self.schedules@);
        }
        self.schedules = kept;
    }

    /// Returns the number of schedules.
    pub fn count(&self) -> (r: usize)
        ensures
            r == self.schedules@.len(),
    {
        self.schedules.len()
    }

    /// Checks which schedules are due at the given clock reading.
    pub fn check_due(&self, now: &DateTime) -> (r: Vec<DueSchedule>)
        requires
            valid(*now),
        ensures
            r@.len() == due_count(self.schedules@, *now),
            forall|i: int|
                0 <= i < self.schedules@.len() && is_due(#[trigger] self.schedules@[i], *now)
                    ==> {
                    let j = due_count(self.schedules@.take(i), *now);
                    &&& r@[j].schedule_id@ == self.schedules@[i].id@
                    &&& r@[j].profile_id@ == self.schedules@[i].profile_id@
                    &&& r@[j].folder_path@ == self.schedules@[i].folder_path@
                },
    {
        let n: usize = self.schedules.len();
        let mut due: Vec<DueSchedule> = Vec::new();
        proof {
            assert(self.schedules@.take(0) =~= Seq::<ScheduleEntry>::empty());
        }
        let mut i: usize = 0;
        while i < n
            invariant
                valid(*now),
                n == self.schedules@.len(),
                i <= n,
                due@.len() == due_count(self.schedules@.take(i as int), *now),
                forall|i2: int|
                    0 <= i2 < i && is_due(#[trigger] self.schedules@[i2], *now) ==> {
                        let j = due_count(self.schedules@.take(i2), *now);
                        &&& due@[j].schedule_id@ == self.schedules@[i2].id@
                        &&& due@[j].profile_id@ == self.schedules@[i2].profile_id@
                        &&& due@[j].folder_path@ == self.schedules@[i2].folder_path@
                    },
            decreases n - i,
        {
            let entry = &self.schedules[i];
            proof {
                lemma_due_count_step(self.schedules@, i as int, *now);
            }
            let mut entry_due = false;
            if entry.is_enabled {
                match &entry.next_run_at {
                    Some(next_run_str) => {
                        match parse_datetime(next_run_str.as_str()) {
                            Some(next_run) => {
                                entry_due = dt_le_exec(&next_run, now);
                            },
                            None => {
                                // An unreadable next_run_at keeps the
                                // schedule dormant.
                            },
                        }
                    },
                    None => {
                        // Never run: due now.
                        entry_due = true;
                    },
                }
            }
            if entry_due {
                let ghost before = due@;
                due.push(
                    DueSchedule {
                        schedule_id: entry.id.clone(),
                        profile_id: entry.profile_id.clone(),
                        folder_path: entry.folder_path.clone(),
                    },
                );
                proof {
                    assert forall|i2: int|
                        0 <= i2 < i + 1 && is_due(#[trigger] self.schedules@[i2], *now) implies {
                        let j = due_count(self.schedules@.take(i2), *now);
                        &&& due@[j].schedule_id@ == self.schedules@[i2].id@
                        &&& due@[j].profile_id@ == self.schedules@[i2].profile_id@
                        &&& due@[j].folder_path@ == self.schedules@[i2].folder_path@
                    } by {
                        lemma_due_count_step(self.schedules@, i2, *now);
                        let j = due_count(self.schedules@.take(i2), *now);
                        if i2 < i as int {
                            lemma_due_count_mono(self.schedules@, i2 + 1, i as int, *now);
                            assert(due@[j] == before[j]);
                        } else {
                            assert(j == before.len());
                        }
                    }
                }
            }
            i = i + 1;
        }
        proof {
            assert(self.schedules@.take(n as int) =~= self.schedules@);
        }
        due
    }
}

/// The interval, in minutes, a simplified cron expression stands for:
/// `@hourly`, `@daily`, `@weekly`, `@monthly`, a bare number of
/// minutes, or a day by default.
pub open spec fn spec_interval_minutes(expr: Seq<char>) -> int {
    if expr == "@hourly"@ {
        60
    } else if expr == "@daily"@ {
        1440
    } else if expr == "@weekly"@ {
        10080
    } else if expr == "@monthly"@ {
        43200
    } else if 1 <= expr.len() <= 19 && all_digits(expr) {
        digits_val(expr)
    } else {
        1440
    }
}

/// The interval in minutes (executable).
pub fn interval_minutes(expr: &str) -> (r: u64)
    ensures
        r == spec_interval_minutes(expr@),
{
    let v = str_to_chars(expr);
    if str_eq(expr, "@hourly") {
        60
    } else if str_eq(expr, "@daily") {
        1440
    } else if str_eq(expr, "@weekly") {
        10080
    } else if str_eq(expr, "@monthly") {
        43200
    } else if v.len() >= 1 && v.len() <= 19 && crate::numeric::all_digits_exec(&v, 0, v.len()) {
        proof {
            assert(v@.subrange(0, v@.len() as int) =~= v@);
        }
        parse_digits_u64_whole(&v)
    } else {
        1440
    }
}

fn parse_digits_u64_whole(v: &Vec<char>) -> (r: u64)
    requires
        1 <= v@.len() <= 19,
        all_digits(v@),
    ensures
        r == digits_val(v@),
{
    proof {
        assert(v@.subrange(0, v@.len() as int) =~= v@);
    }
    let r = crate::numeric::parse_digits_u64(v, 0, v.len());
    r
}

impl Scheduler {
    /// Updates `last_run_at` and computes the next `next_run_at` for a
    /// schedule from its simplified cron expression; an interval past
    /// the calendar's end clears `next_run_at`.
    pub fn mark_run(&mut self, schedule_id: &str, now: &DateTime)
        requires
            valid(*now),
        ensures
            final(self).schedules@.len() == old(self).schedules@.len(),
            forall|j: int|
                0 <= j < old(self).schedules@.len() && (#[trigger] old(
                    self,
                ).schedules@[j]).id@ != schedule_id@ ==> final(self).schedules@[j] == old(
                    self,
                ).schedules@[j],
            forall|j: int|
                0 <= j < old(self).schedules@.len() && (#[trigger] old(
                    self,
                ).schedules@[j]).id@ == schedule_id@ ==> {
                    let e = final(self).schedules@[j];
                    let o = old(self).schedules@[j];
                    &&& e.id == o.id && e.profile_id == o.profile_id && e.folder_id
                        == o.folder_id && e.folder_path == o.folder_path && e.cron_expr
                        == o.cron_expr && e.is_enabled == o.is_enabled
                    &&& e.last_run_at matches Some(s) && s@ == spec_format_datetime(*now)
                    &&& (e.next_run_at matches Some(s) ==> exists|d2: DateTime|
                        valid(d2) && dt_key(d2) == dt_key(*now) + 60 * spec_interval_minutes(
                            o.cron_expr@,
                        ) && s@ == spec_format_datetime(d2))
                    &&& (e.next_run_at is None ==> crate::datetime::day_number(
                        now.year as int,
                        now.month as int,
                        now.day as int,
                    ) + spec_interval_minutes(o.cron_expr@) / 1440 + 1
                        > crate::datetime::max_day_number())
                },
    {
        let n: usize = self.schedules.len();
        let mut i: usize = 0;
        while i < n
            invariant
                valid(*now),
                n == self.schedules@.len() == old(self).schedules@.len(),
                i <= n,
                forall|j: int|
                    i <= j < n ==> #[trigger] self.schedules@[j] == old(self).schedules@[j],
                forall|j: int|
                    0 <= j < i && (#[trigger] old(self).schedules@[j]).id@ != schedule_id@
                        ==> self.schedules@[j] == old(self).schedules@[j],
                forall|j: int|
                    0 <= j < i && (#[trigger] old(self).schedules@[j]).id@ == schedule_id@ ==> {
                        let e = self.schedules@[j];
                        let o = old(self).schedules@[j];
                        &&& e.id == o.id && e.profile_id == o.profile_id && e.folder_id
                            == o.folder_id && e.folder_path == o.folder_path && e.cron_expr
                            == o.cron_expr && e.is_enabled == o.is_enabled
                        &&& e.last_run_at matches Some(s) && s@ == spec_format_datetime(*now)
                        &&& (e.next_run_at matches Some(s) ==> exists|d2: DateTime|
                            valid(d2) && dt_key(d2) == dt_key(*now) + 60 * spec_interval_minutes(
                                o.cron_expr@,
                            ) && s@ == spec_format_datetime(d2))
                        &&& (e.next_run_at is None ==> crate::datetime::day_number(
                            now.year as int,
                            now.month as int,
                            now.day as int,
                        ) + spec_interval_minutes(o.cron_expr@) / 1440 + 1
                            > crate::datetime::max_day_number())
                    },
            decreases n - i,
        {
            if str_eq(self.schedules[i].id.as_str(), schedule_id) {
                let minutes = interval_minutes(self.schedules[i].cron_expr.as_str());
                let next: Option<String> = match add_minutes(now, minutes) {
                    Some(d2) => Some(format_datetime(&d2)),
                    None => None,
                };
                let updated = ScheduleEntry {
                    last_run_at: Some(format_datetime(now)),
                    next_run_at: next,
                    ..self.schedules[i].clone()
                };
                self.schedules.set(i, updated);
            }
            i = i + 1;
        }
    }
}

/// The next firing of a five-field cron expression, formatted for
/// storage; `None` only when the expression does not parse, has an
/// unsupported shape, has a field value out of range, or the calendar
/// gives out.
pub fn calculate_next_run(cron_expr: &str, now: &DateTime) -> (r: Option<String>)
    requires
        valid(*now),
    ensures
        r matches Some(s) ==> (spec_parse_cron(cron_expr@) matches Some(e) && exists|d2: DateTime|
            valid(d2) && dt_lt(*now, d2) && crate::cron::fires(e, d2) && (forall|d3: DateTime|
                valid(d3) && crate::cron::fires(e, d3) && #[trigger] dt_lt(*now, d3) ==> dt_le(
                    d2,
                    d3,
                )) && s@ == spec_format_datetime(d2)),
        spec_parse_cron(cron_expr@) is None ==> r is None,
        spec_parse_cron(cron_expr@) matches Some(e) ==> (r is None ==> {
            let last_day = now.year == 9999 && now.month == 12 && now.day == 31;
            match (e.hour, e.minute) {
                (CronField::Star, CronField::Num(m)) => m > 59 || last_day,
                (CronField::Star, CronField::Step(_)) => last_day,
                (CronField::Step(_), mf) => (mf matches CronField::Num(m) && m > 59) || last_day,
                (CronField::Num(h), CronField::Num(m)) => h > 23 || m > 59 || (e.dow matches
                    CronField::Num(w) && w > 6) || now.year > 9997,
                _ => true,
            }
        }),
{
    match parse_cron(cron_expr) {
        Some(expr) => match next_run_after(&expr, now) {
            Some(d2) => {
                let s = format_datetime(&d2);
                proof {
                    assert(valid(d2) && dt_lt(*now, d2) && crate::cron::fires(expr, d2) && (
                    forall|d3: DateTime|
                        valid(d3) && crate::cron::fires(expr, d3) && #[trigger] dt_lt(*now, d3)
                            ==> dt_le(d2, d3)) && s@ == spec_format_datetime(d2));
                }
                Some(s)
            },
            None => None,
        },
        None => None,
    }
}

} // verus!
