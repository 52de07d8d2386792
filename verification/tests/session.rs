use study_time::clock::Span;
use study_time::progress::{Progress, ProgressFile, Stats};
use study_time::session::{App, Effect};

fn at(secs: u64) -> Span {
    Span { secs, nanos: 0 }
}

#[test]
fn starts_without_a_session() {
    let app = App::new(Progress::default());
    assert!(!app.studying);
    assert_eq!(app.session_start, None);
    assert_eq!(app.session_seconds, 0);
    assert_eq!(app.current_session_duration(at(100)), at(0));
}

#[test]
fn starting_blocks() {
    let mut app = App::new(Progress::default());
    assert_eq!(app.toggle_study_mode_on(at(10), "d"), [Effect::Block]);
    assert!(app.studying);
    assert_eq!(app.session_start, Some(at(10)));
    assert_eq!(app.current_session_duration(at(75)), at(65));
}

#[test]
fn stopping_adds_the_time_and_saves_before_it_unblocks() {
    let mut app = App::new(Progress::default());
    app.toggle_study_mode_on(at(10), "d");
    assert_eq!(
        app.toggle_study_mode_on(at(75), "d"),
        [Effect::SaveProgress, Effect::Unblock]
    );
    assert!(!app.studying);
    assert_eq!(app.session_start, None);
    assert_eq!(app.progress.seconds_on("d"), 65);
    assert_eq!(app.progress.stats.total_seconds, 65);
    assert_eq!(app.progress.stats.last_date, Some("d".to_string()));
    assert_eq!(app.current_session_duration(at(80)), at(0));
}

#[test]
fn sessions_of_a_day_add_up() {
    let mut app = App::new(Progress::default());
    for k in 0..3u64 {
        app.toggle_study_mode_on(at(100 * k), "d");
        app.toggle_study_mode_on(at(100 * k + 30), "d");
    }
    assert_eq!(app.progress.seconds_on("d"), 90);
}

#[test]
fn shown_time_does_not_jump() {
    let mut app = App::new(Progress::default());
    app.progress.add_time_on("d", 1000);
    app.toggle_study_mode_on(at(0), "d");
    let shown = app.today_duration_on(at(50), "d");
    assert_eq!(shown, at(1050));
    app.toggle_study_mode_on(at(50), "d");
    assert_eq!(app.today_duration_on(at(60), "d"), shown);
}

#[test]
fn leaving_while_studying_adds_the_time_once() {
    let mut app = App::new(Progress::default());
    app.toggle_study_mode_on(at(0), "d");
    let effects = app.save_and_exit_on(at(20), "d");
    assert_eq!(effects, [Effect::SaveProgress, Effect::FlushAll]);
    assert_eq!(app.progress.seconds_on("d"), 20);
    assert!(app.studying);
    assert_eq!(app.session_start, None);
    app.save_and_exit_on(at(90), "d");
    assert_eq!(app.progress.seconds_on("d"), 20);
    assert_eq!(app.toggle_study_mode_on(at(95), "d"), [Effect::Unblock]);
    assert_eq!(app.progress.seconds_on("d"), 20);
}

#[test]
fn leaving_without_a_session_adds_nothing() {
    let mut app = App::new(Progress::default());
    assert_eq!(
        app.save_and_exit(at(20)),
        Some(vec![Effect::SaveProgress, Effect::FlushAll])
    );
    assert_eq!(app.progress.stats.total_seconds, 0);
    assert!(app.progress.daily.is_empty());
}

#[test]
fn a_session_is_added_today() {
    let mut app = App::new(Progress::default());
    assert_eq!(app.toggle_study_mode(at(3)), Some(vec![Effect::Block]));
    assert_eq!(app.today_duration(at(7)), Some(at(4)));
    assert_eq!(
        app.toggle_study_mode(at(9)),
        Some(vec![Effect::SaveProgress, Effect::Unblock])
    );
    assert_eq!(app.progress.stats.total_seconds, 6);
    let day = chrono::Local::now().format("%Y-%m-%d").to_string();
    if app.progress.stats.last_date == Some(day) {
        assert_eq!(app.today_duration(at(50)), Some(at(6)));
    }
}

#[test]
fn full_counters_stop_nothing_and_change_nothing() {
    let stats = Stats { total_seconds: u64::MAX, last_date: None };
    let progress = Progress::load(ProgressFile::Parsed { stats: Some(stats), daily: None });
    let mut app = App::new(progress);
    assert!(app.toggle_study_mode(at(0)).is_some());
    assert!(!app.room_on(at(5), "d"));
    assert_eq!(app.toggle_study_mode(at(5)), None);
    assert!(app.studying);
    assert_eq!(app.session_start, Some(at(0)));
    assert_eq!(app.save_and_exit(at(5)), None);
    assert_eq!(app.progress.stats.total_seconds, u64::MAX);
}

#[test]
fn a_day_that_no_counter_holds_is_not_shown() {
    let day = chrono::Local::now().format("%Y-%m-%d").to_string();
    let daily = vec![(day.clone(), u64::MAX)];
    let progress = Progress::load(ProgressFile::Parsed { stats: None, daily: Some(daily) });
    let mut app = App::new(progress);
    app.toggle_study_mode(at(0)).unwrap();
    let shown = app.today_duration(at(5));
    if day == chrono::Local::now().format("%Y-%m-%d").to_string() {
        assert_eq!(shown, None);
    }
}

fn holding(studying: bool, session_seconds: u64) -> App {
    App { studying, session_start: None, session_seconds, progress: Progress::default() }
}

#[test]
fn seconds_before_the_start_count_for_the_session() {
    assert_eq!(holding(false, 90).current_session_duration(at(7)), at(90));
    let mut app = holding(true, 90);
    app.session_start = Some(at(10));
    assert_eq!(app.current_session_duration(at(15)), at(95));
    assert_eq!(app.toggle_study_mode_on(at(15), "d"), [Effect::SaveProgress, Effect::Unblock]);
    assert_eq!(app.progress.seconds_on("d"), 95);
    assert_eq!(app.session_seconds, 0);
}

#[test]
fn seconds_without_a_start_are_shown_while_studying() {
    assert_eq!(holding(false, 500).today_duration(at(7)), Some(at(0)));
    assert_eq!(holding(true, 500).today_duration(at(7)), Some(at(500)));
}

#[test]
fn seconds_without_a_start_are_kept_and_not_added() {
    let mut app = holding(true, 500);
    assert_eq!(app.toggle_study_mode(at(7)), Some(vec![Effect::Unblock]));
    assert!(!app.studying);
    assert_eq!(app.session_seconds, 500);
    assert_eq!(app.progress.stats.total_seconds, 0);
    assert_eq!(app.toggle_study_mode(at(8)), Some(vec![Effect::Block]));
    assert_eq!(app.session_seconds, 0);
    let mut app = holding(true, 500);
    assert!(app.save_and_exit(at(7)).is_some());
    assert_eq!(app.session_seconds, 500);
    assert_eq!(app.progress.stats.total_seconds, 0);
}

#[test]
fn a_start_without_a_session_is_not_added_on_exit() {
    let mut app = holding(false, 0);
    app.session_start = Some(at(1));
    assert_eq!(app.save_and_exit(at(9)), Some(vec![Effect::SaveProgress, Effect::FlushAll]));
    assert_eq!(app.session_start, Some(at(1)));
    assert_eq!(app.progress.stats.total_seconds, 0);
    assert_eq!(app.toggle_study_mode(at(20)), Some(vec![Effect::Block]));
    assert_eq!(app.session_start, Some(at(20)));
}

#[test]
fn a_session_that_no_counter_holds_is_not_added() {
    let mut app = holding(true, u64::MAX);
    app.session_start = Some(at(1));
    assert!(app.session_fits(at(1)));
    assert!(!app.session_fits(at(2)));
    assert_eq!(app.toggle_study_mode(at(2)), None);
    assert_eq!(app.today_duration(at(2)), None);
    assert_eq!(app.save_and_exit(at(2)), None);
    assert!(app.studying);
}
