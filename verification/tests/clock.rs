use study_time::clock::{format_duration, poll_timeout, tick_is_over, Span, TICK_NANOS};

#[test]
fn shows_hours_minutes_and_seconds() {
    assert_eq!(format_duration(Span::from_secs(0)), "00:00:00");
    assert_eq!(format_duration(Span::from_secs(59)), "00:00:59");
    assert_eq!(format_duration(Span::from_secs(60)), "00:01:00");
    assert_eq!(format_duration(Span::from_secs(3661)), "01:01:01");
    assert_eq!(format_duration(Span::from_secs(86_399)), "23:59:59");
}

#[test]
fn parts_of_a_second_are_not_shown() {
    assert_eq!(format_duration(Span { secs: 1, nanos: 999_999_999 }), "00:00:01");
}

#[test]
fn hours_grow_beyond_two_digits() {
    assert_eq!(format_duration(Span::from_secs(360_000)), "100:00:00");
    assert_eq!(format_duration(Span::from_secs(u64::MAX)), "5124095576030431:00:15");
}

#[test]
fn every_duration_reads_back() {
    for total in 0..100_000u64 {
        let shown = format_duration(Span::from_secs(total));
        let parts: Vec<u64> = shown.split(':').map(|p| p.parse().unwrap()).collect();
        assert_eq!(parts.len(), 3);
        assert!(parts[1] < 60 && parts[2] < 60);
        assert_eq!(parts[0] * 3600 + parts[1] * 60 + parts[2], total);
    }
}

#[test]
fn elapsed_counts_whole_seconds() {
    let start = Span { secs: 10, nanos: 500_000_000 };
    assert_eq!(start.elapsed_secs(Span { secs: 10, nanos: 500_000_000 }), 0);
    assert_eq!(start.elapsed_secs(Span { secs: 11, nanos: 499_999_999 }), 0);
    assert_eq!(start.elapsed_secs(Span { secs: 11, nanos: 500_000_000 }), 1);
    assert_eq!(start.elapsed_secs(Span { secs: 70, nanos: 0 }), 59);
}

#[test]
fn elapsed_is_nothing_before_the_start() {
    let start = Span { secs: 10, nanos: 5 };
    assert_eq!(start.elapsed_secs(Span { secs: 10, nanos: 4 }), 0);
    assert_eq!(start.elapsed_secs(Span { secs: 9, nanos: 999_999_999 }), 0);
}

#[test]
fn waits_for_the_rest_of_a_tick() {
    assert_eq!(poll_timeout(Span { secs: 0, nanos: 0 }), TICK_NANOS);
    assert_eq!(poll_timeout(Span { secs: 0, nanos: 100_000_000 }), 150_000_000);
    assert_eq!(poll_timeout(Span { secs: 0, nanos: 250_000_000 }), 0);
    assert_eq!(poll_timeout(Span { secs: 3, nanos: 0 }), 0);
}

#[test]
fn a_tick_is_over_after_a_quarter_second() {
    assert!(!tick_is_over(Span { secs: 0, nanos: 249_999_999 }));
    assert!(tick_is_over(Span { secs: 0, nanos: 250_000_000 }));
    assert!(tick_is_over(Span { secs: 1, nanos: 0 }));
}
