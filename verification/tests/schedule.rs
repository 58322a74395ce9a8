use deskcraft::cron::{next_run_after, parse_cron};
use deskcraft::datetime::{format_datetime, parse_datetime};
use deskcraft::scheduler::{calculate_next_run, ScheduleEntry, Scheduler};

fn dt(s: &str) -> deskcraft::datetime::DateTime {
    parse_datetime(s).expect("well-formed timestamp")
}

#[test]
fn test_cron_daily_next_morning() {
    let expr = parse_cron("30 8 * * *").expect("parses");
    let next = next_run_after(&expr, &dt("2026-02-14 09:00:00")).expect("fires");
    assert_eq!(format_datetime(&next), "2026-02-15 08:30:00");
}

#[test]
fn test_cron_weekly_monday() {
    let expr = parse_cron("0 10 * * 1").expect("parses");
    // 2026-02-14 is a Saturday; the next Monday is the 16th.
    let next = next_run_after(&expr, &dt("2026-02-14 09:00:00")).expect("fires");
    assert_eq!(format_datetime(&next), "2026-02-16 10:00:00");
}

#[test]
fn test_cron_hourly() {
    let expr = parse_cron("0 * * * *").expect("parses");
    let next = next_run_after(&expr, &dt("2026-02-14 09:30:00")).expect("fires");
    assert_eq!(format_datetime(&next), "2026-02-14 10:00:00");
}

#[test]
fn test_cron_every_n_minutes() {
    let expr = parse_cron("*/15 * * * *").expect("parses");
    let next = next_run_after(&expr, &dt("2026-02-14 09:31:00")).expect("fires");
    assert_eq!(format_datetime(&next), "2026-02-14 09:45:00");
}

#[test]
fn test_cron_every_n_hours() {
    let expr = parse_cron("0 */6 * * *").expect("parses");
    let next = next_run_after(&expr, &dt("2026-02-14 09:31:00")).expect("fires");
    assert_eq!(format_datetime(&next), "2026-02-14 12:00:00");
}

#[test]
fn test_cron_result_strictly_later() {
    let t = dt("2026-02-14 09:00:00");
    for spec in ["30 8 * * *", "0 10 * * 1", "0 * * * *", "*/5 * * * *", "30 */2 * * *"] {
        let expr = parse_cron(spec).expect("parses");
        let next = next_run_after(&expr, &t).expect("fires");
        assert!(format_datetime(&next) > format_datetime(&t));
    }
}

#[test]
fn test_cron_rejects_malformed() {
    assert!(parse_cron("").is_none());
    assert!(parse_cron("* * * *").is_none());
    assert!(parse_cron("* * * * * *").is_none());
    assert!(parse_cron("a * * * *").is_none());
    assert!(parse_cron("*/0 * * * *").is_none());
    assert!(parse_cron("* * */2 * *").is_none());
}

#[test]
fn test_cron_unsupported_shape() {
    // Both fields wildcards is not a supported dispatch shape.
    let expr = parse_cron("* * * * *").expect("parses");
    assert!(next_run_after(&expr, &dt("2026-02-14 09:00:00")).is_none());
}

#[test]
fn test_calculate_next_run_formats() {
    let s = calculate_next_run("30 8 * * *", &dt("2026-02-14 09:00:00")).expect("fires");
    assert_eq!(s, "2026-02-15 08:30:00");
    assert!(calculate_next_run("nonsense", &dt("2026-02-14 09:00:00")).is_none());
}

#[test]
fn test_datetime_parse_format_roundtrip() {
    for s in ["2026-02-14 09:00:00", "2024-02-29 23:59:59", "0001-01-01 00:00:00"] {
        assert_eq!(format_datetime(&dt(s)), s);
    }
    assert!(parse_datetime("2025-02-29 00:00:00").is_none());
    assert!(parse_datetime("2025-13-01 00:00:00").is_none());
    assert!(parse_datetime("not a date").is_none());
}

fn entry(id: &str, enabled: bool, next_run_at: Option<String>) -> ScheduleEntry {
    ScheduleEntry {
        id: id.to_string(),
        profile_id: "p1".to_string(),
        folder_id: "f1".to_string(),
        folder_path: "/downloads".to_string(),
        cron_expr: "@daily".to_string(),
        is_enabled: enabled,
        last_run_at: None,
        next_run_at,
    }
}

#[test]
fn test_add_and_check_due() {
    let mut scheduler = Scheduler::new();
    scheduler.add_schedule(entry("s1", true, None)); // Never run = due

    let due = scheduler.check_due(&dt("2026-02-14 09:00:00"));
    assert_eq!(due.len(), 1);
    assert_eq!(due[0].schedule_id, "s1");
}

#[test]
fn test_disabled_schedule_not_due() {
    let mut scheduler = Scheduler::new();
    scheduler.add_schedule(entry("s1", false, None));

    let due = scheduler.check_due(&dt("2026-02-14 09:00:00"));
    assert_eq!(due.len(), 0);
}

#[test]
fn test_mark_run_updates_next() {
    let mut scheduler = Scheduler::new();
    let mut e = entry("s1", true, None);
    e.cron_expr = "@hourly".to_string();
    scheduler.add_schedule(e);

    scheduler.mark_run("s1", &dt("2026-02-14 09:00:00"));

    let stored = scheduler
        .schedules
        .iter()
        .find(|s| s.id == "s1")
        .expect("kept");
    assert_eq!(stored.last_run_at.as_deref(), Some("2026-02-14 09:00:00"));
    assert_eq!(stored.next_run_at.as_deref(), Some("2026-02-14 10:00:00"));
}

#[test]
fn test_add_schedule_replaces_same_id() {
    let mut scheduler = Scheduler::new();
    scheduler.add_schedule(entry("s1", true, None));
    scheduler.add_schedule(entry("s1", false, None));
    scheduler.add_schedule(entry("s2", true, None));
    assert_eq!(scheduler.count(), 2);
    scheduler.remove_schedule("s1");
    assert_eq!(scheduler.count(), 1);
}

#[test]
fn test_due_by_next_run_at() {
    let mut scheduler = Scheduler::new();
    scheduler.add_schedule(entry("past", true, Some("2026-02-14 08:00:00".to_string())));
    scheduler.add_schedule(entry("future", true, Some("2026-02-14 10:00:00".to_string())));
    scheduler.add_schedule(entry("garbled", true, Some("???".to_string())));
    let due = scheduler.check_due(&dt("2026-02-14 09:00:00"));
    assert_eq!(due.len(), 1);
    assert_eq!(due[0].schedule_id, "past");
}
