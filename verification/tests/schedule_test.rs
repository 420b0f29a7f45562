//! Tests of schedule management: the interval mapping and the
//! idempotent job-list planning.

use ferrofeed::schedule::{
    minutes_to_crontab_schedule, plan_crontab_lines, plan_schedule_update, ScheduleError,
};

#[test]
fn test_interval_mapping_concrete_values() {
    let (expr, human) = minutes_to_crontab_schedule(30).expect("30 is valid");
    assert_eq!(expr, "*/30 * * * *");
    assert_eq!(human, "every 30 minutes");

    let (expr, human) = minutes_to_crontab_schedule(60).expect("60 is valid");
    assert_eq!(expr, "0 * * * *");
    assert_eq!(human, "every hour");

    let (expr, human) = minutes_to_crontab_schedule(120).expect("120 is valid");
    assert_eq!(expr, "0 */2 * * *");
    assert_eq!(human, "every 2 hours");

    assert!(matches!(
        minutes_to_crontab_schedule(0),
        Err(ScheduleError::IntervalOutOfRange)
    ));
    assert!(matches!(
        minutes_to_crontab_schedule(1441),
        Err(ScheduleError::IntervalOutOfRange)
    ));
}

#[test]
fn test_interval_mapping_boundaries_and_combined() {
    let (expr, human) = minutes_to_crontab_schedule(1).expect("1 is valid");
    assert_eq!(expr, "*/1 * * * *");
    assert_eq!(human, "every 1 minutes");

    let (expr, human) = minutes_to_crontab_schedule(1440).expect("1440 is valid");
    assert_eq!(expr, "0 */24 * * *");
    assert_eq!(human, "every 24 hours");

    // A non-multiple of an hour runs at a fixed minute of stepped hours.
    let (expr, human) = minutes_to_crontab_schedule(90).expect("90 is valid");
    assert_eq!(expr, "30 */1 * * *");
    assert_eq!(human, "every 1 hours and 30 minutes");
}

#[test]
fn test_plan_replaces_own_entries_and_keeps_others() {
    let existing = vec![
        "0 1 * * * /usr/bin/backup".to_string(),
        "*/5 * * * * /usr/local/bin/ferrofeed sync".to_string(),
        "# a comment line".to_string(),
    ];
    let planned = plan_crontab_lines(&existing, "0 * * * *", "/usr/local/bin/ferrofeed sync");
    assert_eq!(
        planned,
        vec![
            "0 1 * * * /usr/bin/backup".to_string(),
            "# a comment line".to_string(),
            "0 * * * * /usr/local/bin/ferrofeed sync".to_string(),
        ]
    );
}

#[test]
fn test_plan_is_idempotent() {
    let existing = vec!["0 1 * * * /usr/bin/backup".to_string()];
    let once = plan_crontab_lines(&existing, "0 * * * *", "/usr/local/bin/ferrofeed sync");
    let twice = plan_crontab_lines(&once, "0 * * * *", "/usr/local/bin/ferrofeed sync");
    assert_eq!(once, twice);
}

#[test]
fn test_plan_schedule_update_validates_and_plans() {
    let existing: Vec<String> = Vec::new();
    let (human, lines) =
        plan_schedule_update(30, &existing, "/usr/local/bin/ferrofeed sync").expect("30 is valid");
    assert_eq!(human, "every 30 minutes");
    assert_eq!(
        lines,
        vec!["*/30 * * * * /usr/local/bin/ferrofeed sync".to_string()]
    );

    let rejected = plan_schedule_update(2000, &existing, "/usr/local/bin/ferrofeed sync");
    assert!(matches!(rejected, Err(ScheduleError::IntervalOutOfRange)));
}
