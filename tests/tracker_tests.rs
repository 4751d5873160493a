use time_tracker::project::{Project, Session};
use time_tracker::tracker::{Notice, TimeTracking};

fn engine() -> TimeTracking {
    TimeTracking::with_today("10/18/26".to_string(), Vec::new())
}

fn day_of(p: &Project, day: &str) -> Option<String> {
    p.hours_per_day.iter().find(|e| e.0 == day).map(|e| e.1.clone())
}

#[test]
fn new_project_starts_at_zero() {
    let p = Project::new("writing", "10/18/26 09:00:00");
    assert_eq!(p.name, "writing");
    assert_eq!(p.start_date, "10/18/26 09:00:00");
    assert_eq!(p.total_time, "00:00:00");
    assert!(p.hours_per_day.is_empty());
}

#[test]
fn new_session_is_running_at_zero() {
    let s = Session::new();
    assert_eq!(s.elapsed, 0);
    assert!(!s.paused);
    assert_eq!(s.format_elapsed(), "00:00:00");
    let d = Session::default();
    assert_eq!(d.elapsed, 0);
}

#[test]
fn start_three_ticks_stop() {
    let mut tt = engine();
    assert_eq!(tt.start_project_at("writing", "10/18/26 09:00:00"), Notice::Started);
    tt.tick();
    tt.tick();
    tt.tick();
    assert!(tt.stop_project());
    assert!(tt.current.is_none());
    let p = tt.get_project(&"writing".to_string()).unwrap();
    assert_eq!(p.total_time, "00:00:03");
    assert_eq!(day_of(p, "10/18/26"), Some("00:00:03".to_string()));
    assert_eq!(p.start_date, "10/18/26 09:00:00");
}

#[test]
fn repeated_sessions_accumulate() {
    let mut tt = engine();
    tt.start_project_at("writing", "10/18/26 09:00:00");
    for _ in 0..50 {
        tt.tick();
    }
    tt.stop_project();
    tt.start_project_at("writing", "10/18/26 11:00:00");
    for _ in 0..20 {
        tt.tick();
    }
    tt.stop_project();
    assert_eq!(tt.projects.len(), 1);
    let p = &tt.projects[0];
    assert_eq!(p.total_time, "00:01:10");
    assert_eq!(day_of(p, "10/18/26"), Some("00:01:10".to_string()));
    assert_eq!(p.start_date, "10/18/26 09:00:00");
}

#[test]
fn stop_adds_to_a_new_day_and_the_total() {
    let mut p = Project::new("reading", "10/17/26 08:00:00");
    p.hours_per_day.push(("10/17/26".to_string(), "01:00:00".to_string()));
    p.total_time = "01:00:00".to_string();
    let mut tt = TimeTracking::with_today("10/18/26".to_string(), vec![p]);
    tt.start_project_at("reading", "unused");
    assert_eq!(day_of(&tt.projects[0], "10/18/26"), Some("00:00:00".to_string()));
    for _ in 0..61 {
        tt.tick();
    }
    tt.stop_project();
    let p = &tt.projects[0];
    assert_eq!(p.total_time, "01:01:01");
    assert_eq!(day_of(p, "10/17/26"), Some("01:00:00".to_string()));
    assert_eq!(day_of(p, "10/18/26"), Some("00:01:01".to_string()));
}

#[test]
fn stop_when_idle_does_nothing() {
    let mut tt = engine();
    assert!(!tt.stop_project());
    assert!(tt.projects.is_empty());
}

#[test]
fn pause_twice_keeps_state() {
    let mut tt = engine();
    tt.start_project_at("writing", "10/18/26 09:00:00");
    tt.tick();
    assert_eq!(tt.pause(), Notice::Paused);
    assert_eq!(tt.pause(), Notice::AlreadyPaused);
    let s = &tt.current.as_ref().unwrap().session;
    assert_eq!(s.elapsed, 1);
    assert!(s.paused);
}

#[test]
fn ticks_while_paused_do_not_count() {
    let mut tt = engine();
    tt.start_project_at("writing", "10/18/26 09:00:00");
    tt.tick();
    tt.pause();
    tt.tick();
    tt.tick();
    assert_eq!(tt.current.as_ref().unwrap().session.elapsed, 1);
    assert_eq!(tt.resume(), Notice::Resumed);
    tt.tick();
    assert_eq!(tt.current.as_ref().unwrap().session.elapsed, 2);
}

#[test]
fn resume_when_running_warns() {
    let mut tt = engine();
    assert_eq!(tt.resume(), Notice::NotTracking);
    assert_eq!(tt.pause(), Notice::NotTracking);
    tt.start_project_at("writing", "10/18/26 09:00:00");
    assert_eq!(tt.resume(), Notice::AlreadyRunning);
}

#[test]
fn switch_folds_the_old_project_first() {
    let mut tt = engine();
    tt.start_project_at("a", "10/18/26 09:00:00");
    tt.tick();
    tt.tick();
    assert!(tt.switch_project("b"));
    let a = tt.get_project(&"a".to_string()).unwrap();
    assert_eq!(a.total_time, "00:00:02");
    let cur = tt.current.as_ref().unwrap();
    assert_eq!(cur.project, "b");
    assert_eq!(cur.session.elapsed, 0);
    assert!(!cur.session.paused);
    assert_eq!(tt.projects.len(), 2);
}

#[test]
fn day_info_missing_day() {
    let mut tt = engine();
    assert!(tt.day_info(&"10/18/26".to_string()).is_none());
    tt.start_project_at("a", "10/18/26 09:00:00");
    tt.stop_project();
    assert!(tt.day_info(&"01/01/20".to_string()).is_none());
}

#[test]
fn day_info_sums_with_carry() {
    let mut tt = engine();
    tt.start_project_at("a", "10/18/26 09:00:00");
    for _ in 0..45 {
        tt.tick();
    }
    tt.stop_project();
    tt.start_project_at("b", "10/18/26 10:00:00");
    for _ in 0..30 {
        tt.tick();
    }
    tt.stop_project();
    let other = Project::new("c", "10/17/26 10:00:00");
    tt.projects.push(other);
    let (entries, total) = tt.day_info(&"10/18/26".to_string()).unwrap();
    assert_eq!(
        entries,
        vec![
            ("a".to_string(), "00:00:45".to_string()),
            ("b".to_string(), "00:00:30".to_string())
        ]
    );
    assert_eq!(total, "00:01:15");
}

#[test]
fn get_project_missing() {
    let tt = engine();
    assert!(tt.get_project(&"none".to_string()).is_none());
}

#[test]
fn engine_for_today_starts_idle() {
    let tt = TimeTracking::new(Vec::new());
    assert!(tt.current.is_none());
    assert_eq!(tt.today.chars().count(), 8);
}

#[test]
fn start_project_dates_new_projects_now() {
    let mut tt = engine();
    assert_eq!(tt.start_project("fresh"), Notice::Started);
    assert_eq!(tt.projects[0].start_date.chars().count(), 17);
    assert_eq!(day_of(&tt.projects[0], "10/18/26"), Some("00:00:00".to_string()));
}
