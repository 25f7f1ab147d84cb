use hyprtrace::daemon::goals::{
    break_reminder_due, fmt_ms, goal_key, milestone_to_notify, Goal, Milestone, NotifiedMilestones,
};

fn goal(name: &str) -> Goal {
    Goal {
        id: Some(1),
        name: name.to_string(),
        target_type: "all".to_string(),
        target_key: None,
        daily_target_ms: 3_600_000,
        enabled: true,
    }
}

/// Active time that is `pct` percent of the one-hour target above.
fn at_pct(pct_tenths: i64) -> i64 {
    3_600_000 * pct_tenths / 1000
}

#[test]
fn first_halfway_crossing_notifies_once() {
    let mut notified = NotifiedMilestones::new();
    assert_eq!(
        milestone_to_notify(&mut notified, "2026-09-05", &goal("code"), at_pct(550)),
        Some(Milestone::Half)
    );
    assert_eq!(
        milestone_to_notify(&mut notified, "2026-09-05", &goal("code"), at_pct(600)),
        None
    );
}

#[test]
fn done_fires_after_half_on_same_day() {
    let mut notified = NotifiedMilestones::new();
    assert_eq!(
        milestone_to_notify(&mut notified, "2026-09-05", &goal("code"), at_pct(500)),
        Some(Milestone::Half)
    );
    assert_eq!(
        milestone_to_notify(&mut notified, "2026-09-05", &goal("code"), at_pct(1000)),
        Some(Milestone::Done)
    );
    assert_eq!(
        milestone_to_notify(&mut notified, "2026-09-05", &goal("code"), at_pct(1300)),
        None
    );
}

#[test]
fn jump_to_done_then_half_fires_late() {
    let mut notified = NotifiedMilestones::new();
    assert_eq!(
        milestone_to_notify(&mut notified, "2026-09-05", &goal("code"), at_pct(1000)),
        Some(Milestone::Done)
    );
    assert_eq!(
        milestone_to_notify(&mut notified, "2026-09-05", &goal("code"), at_pct(1000)),
        Some(Milestone::Half)
    );
    assert_eq!(
        milestone_to_notify(&mut notified, "2026-09-05", &goal("code"), at_pct(1000)),
        None
    );
}

#[test]
fn below_half_never_notifies() {
    let mut notified = NotifiedMilestones::new();
    assert_eq!(
        milestone_to_notify(&mut notified, "2026-09-05", &goal("code"), at_pct(499)),
        None
    );
}

#[test]
fn new_day_rearms_notifications() {
    let mut notified = NotifiedMilestones::new();
    assert_eq!(
        milestone_to_notify(&mut notified, "2026-09-05", &goal("code"), at_pct(500)),
        Some(Milestone::Half)
    );
    assert_eq!(
        milestone_to_notify(&mut notified, "2026-09-05", &goal("code"), at_pct(1000)),
        Some(Milestone::Done)
    );
    assert_eq!(
        milestone_to_notify(&mut notified, "2026-09-06", &goal("code"), at_pct(500)),
        Some(Milestone::Half)
    );
    assert_eq!(
        milestone_to_notify(&mut notified, "2026-09-06", &goal("code"), at_pct(1000)),
        Some(Milestone::Done)
    );
}

#[test]
fn new_day_still_over_100_percent_notifies_again() {
    let mut notified = NotifiedMilestones::new();
    assert_eq!(
        milestone_to_notify(&mut notified, "2026-09-05", &goal("code"), at_pct(1200)),
        Some(Milestone::Done)
    );
    assert_eq!(
        milestone_to_notify(&mut notified, "2026-09-06", &goal("code"), at_pct(1200)),
        Some(Milestone::Done)
    );
}

#[test]
fn different_goals_do_not_dedup_each_other() {
    let mut notified = NotifiedMilestones::new();
    assert_eq!(
        milestone_to_notify(&mut notified, "2026-09-05", &goal("code"), at_pct(500)),
        Some(Milestone::Half)
    );
    assert_eq!(
        milestone_to_notify(&mut notified, "2026-09-05", &goal("read"), at_pct(500)),
        Some(Milestone::Half)
    );
}

#[test]
fn retain_drops_other_days_keys() {
    let mut notified = NotifiedMilestones::new();
    notified.insert("2026-09-04".into(), "code:all:".into(), Milestone::Done);
    notified.insert("2026-09-05".into(), "code:all:".into(), Milestone::Half);
    let today = "2026-09-05".to_string();
    notified.retain_day(&today);
    assert_eq!(notified.len(), 1);
    assert!(notified.contains("2026-09-05", "code:all:", Milestone::Half));
}

#[test]
fn zero_target_never_notifies() {
    let mut notified = NotifiedMilestones::new();
    let mut g = goal("code");
    g.daily_target_ms = 0;
    assert_eq!(milestone_to_notify(&mut notified, "2026-09-05", &g, 10_000_000), None);
}

#[test]
fn goal_key_joins_name_type_and_key() {
    assert_eq!(goal_key(&goal("code")), "code:all:");
    let mut g = goal("ff");
    g.target_type = "class".to_string();
    g.target_key = Some("firefox".to_string());
    assert_eq!(goal_key(&g), "ff:class:firefox");
}

#[test]
fn fmt_ms_hours_and_minutes() {
    assert_eq!(fmt_ms(0), "0m");
    assert_eq!(fmt_ms(59_999), "0m");
    assert_eq!(fmt_ms(90 * 60_000), "1h 30m");
    assert_eq!(fmt_ms(3_600_000), "1h 0m");
    assert_eq!(fmt_ms(-120_000), "-2m");
}

#[test]
fn insert_reports_new_entries_only() {
    let mut notified = NotifiedMilestones::new();
    assert!(notified.insert("d".into(), "k".into(), Milestone::Half));
    assert!(!notified.insert("d".into(), "k".into(), Milestone::Half));
    assert_eq!(notified.len(), 1);
}

#[test]
fn break_reminder_once_per_day() {
    assert!(break_reminder_due(90 * 60_000, 90, &None, "2026-09-05"));
    assert!(!break_reminder_due(89 * 60_000, 90, &None, "2026-09-05"));
    assert!(!break_reminder_due(90 * 60_000, 0, &None, "2026-09-05"));
    assert!(!break_reminder_due(90 * 60_000, 90, &Some("2026-09-05".to_string()), "2026-09-05"));
    assert!(break_reminder_due(90 * 60_000, 90, &Some("2026-09-04".to_string()), "2026-09-05"));
}
