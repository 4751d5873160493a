use time_tracker::clock::{day_sort_key, stamp_sort_key, UNDATED};
use time_tracker::order::sort_indices;
use time_tracker::project::Project;
use time_tracker::tracker::TimeTracking;

fn key(y: i128, mo: i128, d: i128, h: i128, mi: i128, s: i128) -> i128 {
    ((((y * 12 + (mo - 1)) * 31 + (d - 1)) * 24 + h) * 60 + mi) * 60 + s
}

#[test]
fn stamp_keys_read_the_date_and_time() {
    assert_eq!(stamp_sort_key("10/18/26 09:05:07"), key(2026, 10, 18, 9, 5, 7));
    assert_eq!(stamp_sort_key("12/31/99 23:59:59"), key(1999, 12, 31, 23, 59, 59));
    assert_eq!(stamp_sort_key("not a date"), UNDATED);
}

#[test]
fn day_keys_read_the_date() {
    assert_eq!(day_sort_key("01/02/01"), key(2001, 1, 2, 0, 0, 0));
    assert_eq!(day_sort_key("13/01/20"), UNDATED);
    assert!(day_sort_key("12/31/25") < day_sort_key("01/01/26"));
}

#[test]
fn sort_indices_is_stable() {
    let keys: Vec<i128> = vec![5, 1, 5, 0, 1];
    assert_eq!(sort_indices(&keys), vec![3, 1, 4, 0, 2]);
    assert!(sort_indices(&Vec::new()).is_empty());
}

#[test]
fn projects_sort_by_start_date() {
    let ps = vec![
        Project::new("late", "01/01/26 08:00:00"),
        Project::new("undated", "soon"),
        Project::new("early", "12/31/25 23:59:59"),
        Project::new("middle", "01/01/26 07:59:59"),
    ];
    let tt = TimeTracking::with_today("01/01/26".to_string(), ps);
    let names: Vec<&str> = tt
        .sort_projects()
        .into_iter()
        .map(|k| tt.projects[k].name.as_str())
        .collect();
    assert_eq!(names, vec!["early", "middle", "late", "undated"]);
}

#[test]
fn ledger_orders_by_calendar_day() {
    let mut p = Project::new("a", "01/01/25 00:00:00");
    for d in ["02/01/25", "01/15/26", "12/30/24", "01/20/25"] {
        p.hours_per_day.push((d.to_string(), "00:00:01".to_string()));
    }
    let days: Vec<&str> = p
        .order_hours_per_day()
        .into_iter()
        .map(|k| p.hours_per_day[k].0.as_str())
        .collect();
    assert_eq!(days, vec!["12/30/24", "01/20/25", "02/01/25", "01/15/26"]);
}
