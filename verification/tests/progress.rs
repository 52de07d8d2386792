use study_time::progress::{Progress, ProgressFile, Stats};

fn today() -> String {
    chrono::Local::now().format("%Y-%m-%d").to_string()
}

#[test]
fn no_file_is_no_time() {
    for file in [ProgressFile::Missing, ProgressFile::Malformed] {
        let p = Progress::load(file);
        assert_eq!(p.stats.total_seconds, 0);
        assert_eq!(p.stats.last_date, None);
        assert!(p.daily.is_empty());
    }
}

#[test]
fn file_may_leave_parts_out() {
    let p = Progress::load(ProgressFile::Parsed { stats: None, daily: None });
    assert_eq!(p.stats.total_seconds, 0);
    assert!(p.daily.is_empty());
    let stats = Stats { total_seconds: 7, last_date: Some("2025-01-02".to_string()) };
    let p = Progress::load(ProgressFile::Parsed { stats: Some(stats), daily: None });
    assert_eq!(p.stats.total_seconds, 7);
    assert_eq!(p.stats.last_date, Some("2025-01-02".to_string()));
}

#[test]
fn days_are_read_back() {
    let daily = vec![("2025-01-01".to_string(), 5), ("2025-01-02".to_string(), 6)];
    let p = Progress::load(ProgressFile::Parsed { stats: None, daily: Some(daily) });
    assert_eq!(p.seconds_on("2025-01-01"), 5);
    assert_eq!(p.seconds_on("2025-01-02"), 6);
    assert_eq!(p.seconds_on("2025-01-03"), 0);
}

#[test]
fn of_two_entries_for_a_day_the_later_counts() {
    let daily = vec![("d".to_string(), 5), ("e".to_string(), 1), ("d".to_string(), 8)];
    let p = Progress::load(ProgressFile::Parsed { stats: None, daily: Some(daily) });
    assert_eq!(p.seconds_on("d"), 8);
    assert_eq!(p.daily.len(), 2);
}

#[test]
fn added_time_counts_for_its_day_and_in_total() {
    let mut p = Progress::default();
    p.add_time_on("2025-01-01", 100);
    p.add_time_on("2025-01-02", 20);
    p.add_time_on("2025-01-01", 3);
    assert_eq!(p.seconds_on("2025-01-01"), 103);
    assert_eq!(p.seconds_on("2025-01-02"), 20);
    assert_eq!(p.stats.total_seconds, 123);
    assert_eq!(p.stats.last_date, Some("2025-01-01".to_string()));
    assert_eq!(p.daily.iter().map(|e| e.1).sum::<u64>(), p.stats.total_seconds);
}

#[test]
fn two_additions_are_one() {
    let mut a = Progress::default();
    a.add_time_on("d", 30);
    a.add_time_on("d", 12);
    let mut b = Progress::default();
    b.add_time_on("d", 42);
    assert_eq!(a.daily, b.daily);
    assert_eq!(a.stats.total_seconds, b.stats.total_seconds);
}

#[test]
fn time_is_added_today() {
    let mut p = Progress::default();
    let before = today();
    assert!(p.add_time(42));
    let after = today();
    let day = p.stats.last_date.clone().unwrap();
    assert!(day == before || day == after);
    assert_eq!(p.seconds_on(&day), 42);
    assert_eq!(p.stats.total_seconds, 42);
}

#[test]
fn time_of_today_is_read() {
    let day = today();
    let daily = vec![(day.clone(), 9)];
    let p = Progress::load(ProgressFile::Parsed { stats: None, daily: Some(daily) });
    let seconds = p.today_seconds();
    if day == today() {
        assert_eq!(seconds, 9);
    }
    assert_eq!(Progress::default().today_seconds(), 0);
}

#[test]
fn full_counters_take_nothing() {
    let stats = Stats { total_seconds: u64::MAX - 5, last_date: None };
    let mut p = Progress::load(ProgressFile::Parsed { stats: Some(stats), daily: None });
    assert!(p.room_on("d", 5));
    assert!(!p.room_on("d", 6));
    assert!(!p.add_time(6));
    assert_eq!(p.stats.total_seconds, u64::MAX - 5);
    assert_eq!(p.stats.last_date, None);
    assert!(p.daily.is_empty());
    let daily = vec![("d".to_string(), u64::MAX)];
    let p = Progress::load(ProgressFile::Parsed { stats: None, daily: Some(daily) });
    assert!(!p.room_on("d", 1));
    assert!(p.room_on("e", 1));
}

#[test]
fn saved_time_loads_as_it_was() {
    let mut p = Progress::default();
    p.add_time_on("2025-01-02", 7);
    p.add_time_on("2025-01-01", 5);
    let q = Progress::load(p.save());
    assert_eq!(q.stats.total_seconds, 12);
    assert_eq!(q.stats.last_date, Some("2025-01-01".to_string()));
    assert_eq!(q.daily, p.daily);
    let none = Progress::load(Progress::default().save());
    assert_eq!(none.stats.total_seconds, 0);
    assert_eq!(none.stats.last_date, None);
    assert!(none.daily.is_empty());
}

#[test]
fn days_in_another_order_load_the_same() {
    let mut p = Progress::default();
    p.add_time_on("a", 7);
    p.add_time_on("b", 5);
    if let ProgressFile::Parsed { stats, daily } = p.save() {
        let mut daily = daily.unwrap();
        daily.reverse();
        let q = Progress::load(ProgressFile::Parsed { stats, daily: Some(daily) });
        assert_eq!((q.seconds_on("a"), q.seconds_on("b")), (7, 5));
        assert_eq!(q.stats.total_seconds, 12);
    } else {
        panic!("nothing to save");
    }
}
