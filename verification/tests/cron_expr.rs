use chrono::TimeZone;
use chrono::Utc;
use reading_steiner::cron_expr::{
    format_local, next_due, search_step, time_ok, to_7field, validate, CronError, SearchStep,
};

#[test]
fn converts_5field_to_7field() {
    assert_eq!(to_7field("0 9 * * 1-5").unwrap(), "0 0 9 * * 2,3,4,5,6 *");
    assert_eq!(to_7field("*/15 * * * *").unwrap(), "0 */15 * * * * *");
    assert_eq!(to_7field("30 8,20 * * 0,6").unwrap(), "0 30 8,20 * * 1,7 *");
    assert_eq!(to_7field("0 9 * * 7").unwrap(), "0 0 9 * * 1 *");
}

#[test]
fn converts_cross_week_ranges() {
    assert_eq!(to_7field("0 9 * * 5-7").unwrap(), "0 0 9 * * 6,7,1 *");
    assert_eq!(to_7field("0 9 * * 6-1").unwrap(), "0 0 9 * * 7,1,2 *");
    assert_eq!(
        to_7field("0 9 * * 0-6").unwrap(),
        "0 0 9 * * 1,2,3,4,5,6,7 *"
    );
}

#[test]
fn converts_steps() {
    assert_eq!(to_7field("0 9 * * 1/2").unwrap(), "0 0 9 * * 2,4,6 *");
    assert_eq!(to_7field("0 9 * * 1-5/2").unwrap(), "0 0 9 * * 2,4,6 *");
    assert_eq!(to_7field("0 9 * * 5-1/2").unwrap(), "0 0 9 * * 6,1 *");
}

#[test]
fn rejects_bad_arity() {
    assert!(to_7field("0 9 * *").is_err());
    assert!(to_7field("0 9 * * 1 2 3").is_err());
    assert!(to_7field("").is_err());
}

#[test]
fn next_due_daily() {
    let after = Utc.with_ymd_and_hms(2026, 1, 1, 0, 0, 0).unwrap();
    assert_eq!(
        next_due("30 9 * * *", "UTC", after.timestamp()).unwrap(),
        Utc.with_ymd_and_hms(2026, 1, 1, 9, 30, 0).unwrap().timestamp()
    );
}

#[test]
fn next_due_rolls_to_next_day() {
    let after = Utc.with_ymd_and_hms(2026, 1, 1, 12, 0, 0).unwrap();
    assert_eq!(
        next_due("30 9 * * *", "UTC", after.timestamp()).unwrap(),
        Utc.with_ymd_and_hms(2026, 1, 2, 9, 30, 0).unwrap().timestamp()
    );
}

#[test]
fn next_due_weekdays_only() {
    let thu = Utc.with_ymd_and_hms(2026, 1, 1, 8, 0, 0).unwrap();
    assert_eq!(
        next_due("0 9 * * 1-5", "UTC", thu.timestamp()).unwrap(),
        Utc.with_ymd_and_hms(2026, 1, 1, 9, 0, 0).unwrap().timestamp()
    );
    let fri = Utc.with_ymd_and_hms(2026, 1, 2, 10, 0, 0).unwrap();
    assert_eq!(
        next_due("0 9 * * 1-5", "UTC", fri.timestamp()).unwrap(),
        Utc.with_ymd_and_hms(2026, 1, 5, 9, 0, 0).unwrap().timestamp()
    );
}

#[test]
fn next_due_every_15_min() {
    let after = Utc.with_ymd_and_hms(2026, 1, 1, 10, 7, 0).unwrap();
    assert_eq!(
        next_due("*/15 * * * *", "UTC", after.timestamp()).unwrap(),
        Utc.with_ymd_and_hms(2026, 1, 1, 10, 15, 0).unwrap().timestamp()
    );
}

#[test]
fn next_due_invalid_expr() {
    let now = Utc::now().timestamp();
    assert!(next_due("61 * * * *", "UTC", now).is_err());
    assert!(next_due("bad", "UTC", now).is_err());
}

#[test]
fn arity_error_reports_field_count() {
    assert_eq!(to_7field("0 9 * *"), Err(CronError::Arity { found: 4 }));
    assert_eq!(to_7field(""), Err(CronError::Arity { found: 0 }));
}

#[test]
fn weekday_errors_are_classified() {
    assert_eq!(to_7field("0 9 * * 1/x"), Err(CronError::InvalidStep));
    assert_eq!(to_7field("0 9 * * 1/0"), Err(CronError::NonPositiveStep));
    assert_eq!(to_7field("0 9 * * 1-x"), Err(CronError::InvalidWeekday));
    assert_eq!(to_7field("0 9 * * x1"), Err(CronError::InvalidWeekday));
}

#[test]
fn weekday_names_and_star_steps_pass_through() {
    assert_eq!(to_7field("0 9 * * MON").unwrap(), "0 0 9 * * MON *");
    assert_eq!(to_7field("0 9 * * */2").unwrap(), "0 0 9 * * */2 *");
    assert_eq!(to_7field("0 9 * * 3-3").unwrap(), "0 0 9 * * 4 *");
}

#[test]
fn validate_accepts_and_rejects() {
    assert!(validate("*/10 * * * *").is_ok());
    assert_eq!(validate("61 * * * *"), Err(CronError::Rejected));
    assert_eq!(validate("* * *"), Err(CronError::Arity { found: 3 }));
}

#[test]
fn format_local_named_and_unknown_zone() {
    let t = Utc.with_ymd_and_hms(2026, 1, 1, 0, 0, 0).unwrap().timestamp();
    assert_eq!(format_local(t, "Asia/Shanghai"), "2026-01-01 08:00:00");
    assert_eq!(format_local(t, "Not/AZone"), "2026-01-01 00:00:00 UTC");
}

#[test]
fn weekday_range_zero_to_seven_is_the_whole_week() {
    assert_eq!(to_7field("0 9 * * 0-7").unwrap(), "0 0 9 * * 1,2,3,4,5,6,7 *");
    assert_eq!(to_7field("0 9 * * 0-7/2").unwrap(), "0 0 9 * * 1,3,5,7 *");
}

#[test]
fn next_due_is_strictly_later_across_fall_back() {
    // 2024-11-03 01:30 EST (06:30 UTC), the second pass through 01:xx in New York.
    let after = Utc.with_ymd_and_hms(2024, 11, 3, 6, 30, 0).unwrap().timestamp();
    let t = next_due("45 1 * * *", "America/New_York", after).unwrap();
    assert!(t > after);
}

#[test]
fn search_step_decides_each_answer() {
    assert_eq!(search_step(None, 100), SearchStep::Stop);
    assert_eq!(search_step(Some(160), 100), SearchStep::Found(160));
    assert_eq!(search_step(Some(40), 100), SearchStep::Retry(40));
    assert_eq!(search_step(Some(100), 100), SearchStep::Retry(100));
    assert_eq!(search_step(Some(i64::MIN), 100), SearchStep::Stop);
    assert!(time_ok(0));
    assert!(!time_ok(i64::MAX));
}
