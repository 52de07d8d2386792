use study_time::clock::Span;
use study_time::progress::{Progress, ProgressFile};
use study_time::screen::{
    centered_constraints, centered_rect, compose, panel, panel_of, row_list, ui, Color, Constraint,
    Panel, Rect,
};
use study_time::session::App;

fn rows(p: &Panel) -> [Rect; 6] {
    [p.status, p.emoticon, p.session, p.today, p.gap, p.controls]
}

fn share(n: u32, percent: u32) -> u32 {
    (n * percent + 50) / 100
}

#[test]
fn middle_of_a_usual_terminal() {
    let area = Rect { x: 0, y: 0, width: 80, height: 24 };
    assert_eq!(centered_rect(50, 60, area), Rect { x: 20, y: 5, width: 40, height: 14 });
}

#[test]
fn middle_constraints() {
    assert_eq!(
        centered_constraints(60),
        [Constraint::Percentage(20), Constraint::Percentage(60), Constraint::Percentage(20)]
    );
    assert_eq!(
        centered_constraints(51),
        [Constraint::Percentage(24), Constraint::Percentage(51), Constraint::Percentage(24)]
    );
}

#[test]
fn middle_of_any_height() {
    for percent in (0..=100u16).step_by(3) {
        for height in [0u16, 1, 2, 3, 7, 10, 24, 25, 50, 99, 100, 101, 255, 333] {
            let area = Rect { x: 3, y: 5, width: 40, height };
            let r = centered_rect(100, percent, area);
            let side = (100 - percent as u32) / 2;
            let from = share(height as u32, side);
            let to = share(height as u32, side + percent as u32);
            assert_eq!((r.x, r.width), (3, 40));
            assert_eq!((r.y as u32, r.height as u32), (5 + from, to - from));
        }
    }
}

#[test]
fn middle_of_any_width() {
    for percent in (0..=100u16).step_by(3) {
        for width in [0u16, 1, 2, 3, 7, 10, 40, 80, 81, 99, 100, 119, 1000, 65_000] {
            let area = Rect { x: 11, y: 0, width, height: 10 };
            let r = centered_rect(percent, 100, area);
            let side = (100 - percent as u32) / 2;
            let from = share(width as u32, side);
            let to = share(width as u32, side + percent as u32);
            assert_eq!((r.y, r.height), (0, 10));
            assert_eq!((r.x as u32, r.width as u32), (11 + from, to - from));
        }
    }
}

#[test]
fn middle_lies_within_and_is_centered() {
    for width in (0..200u16).step_by(7) {
        for height in (0..30u16).step_by(4) {
            let area = Rect { x: 7, y: 9, width, height };
            let r = centered_rect(50, 60, area);
            assert!(r.x >= 7 && r.x + r.width <= 7 + width);
            assert!(r.y >= 9 && r.y + r.height <= 9 + height);
            let left = r.x - 7;
            let right = width - left - r.width;
            assert!(left == right || left == right + 1);
        }
    }
}

#[test]
fn border_takes_one_cell_on_each_side() {
    let p = panel(Rect { x: 0, y: 0, width: 80, height: 24 });
    assert_eq!(p.main, Rect { x: 20, y: 5, width: 40, height: 14 });
    assert_eq!(p.inner, Rect { x: 21, y: 6, width: 38, height: 12 });
    let small = panel(Rect { x: 0, y: 0, width: 2, height: 2 });
    assert_eq!(small.main, Rect { x: 1, y: 0, width: 1, height: 2 });
    assert_eq!(small.inner, Rect { x: 2, y: 1, width: 0, height: 0 });
    let none = panel(Rect { x: 0, y: 0, width: 0, height: 0 });
    assert_eq!(none.inner, Rect { x: 0, y: 0, width: 0, height: 0 });
}

#[test]
fn rows_fill_a_box_with_room() {
    for height in 23..200u16 {
        let p = panel(Rect { x: 0, y: 2, width: 80, height });
        if p.inner.height >= 12 {
            let spans: Vec<(u16, u16)> =
                rows(&p).iter().map(|r| (r.y - p.inner.y, r.height)).collect();
            let n = p.inner.height;
            assert_eq!(spans, [(0, 2), (2, 3), (5, 2), (7, 2), (9, n - 11), (n - 2, 2)]);
        }
        assert!(rows(&p).iter().all(|r| r.x == p.inner.x && r.width == p.inner.width));
    }
}

#[test]
fn rows_stay_in_a_small_box() {
    for height in 0..23u16 {
        let p = panel(Rect { x: 4, y: 2, width: 30, height });
        for r in &rows(&p) {
            assert!(r.y >= p.inner.y && r.y + r.height <= p.inner.y + p.inner.height);
        }
    }
}

#[test]
fn screen_while_studying() {
    let s = compose(true, Span::from_secs(65), Span::from_secs(3725));
    assert_eq!(s.border, Color::Green);
    assert_eq!(s.title, " 📚 STUDY TIME 📚 ");
    assert_eq!(s.status.text, "🔒 STUDY MODE ACTIVE");
    assert_eq!(s.status.color, Some(Color::Green));
    assert!(s.status.bold);
    assert_eq!(s.emoticon.text, "📖");
    assert_eq!(s.emoticon.color, None);
    assert!(s.emoticon.bold);
    assert_eq!(s.session.text, "Session: 00:01:05");
    assert_eq!(s.session.color, Some(Color::White));
    assert_eq!(s.today.text, "Today:   01:02:05");
    assert_eq!(s.today.color, Some(Color::Magenta));
    assert!(!s.session.bold && !s.today.bold);
}

#[test]
fn screen_while_relaxing() {
    let s = compose(false, Span::from_secs(0), Span::from_secs(0));
    assert_eq!(s.border, Color::Cyan);
    assert_eq!(s.status.text, "😴 Relaxing...");
    assert_eq!(s.status.color, Some(Color::Yellow));
    assert_eq!(s.emoticon.text, "🎮");
    assert_eq!(s.session.text, "Session: 00:00:00");
}

#[test]
fn controls_are_listed() {
    let s = compose(false, Span::from_secs(0), Span::from_secs(0));
    let controls: Vec<(&str, Option<Color>, bool)> =
        s.controls.iter().map(|c| (c.text.as_str(), c.color, c.bold)).collect();
    assert_eq!(
        controls,
        [
            ("[Space]", Some(Color::Cyan), true),
            (" Toggle  ", None, false),
            ("[Q]", Some(Color::Red), true),
            (" Quit", None, false),
        ]
    );
}

#[test]
fn screen_of_a_timer() {
    let area = Rect { x: 0, y: 0, width: 80, height: 24 };
    let mut app = App::new(Progress::default());
    let drawing = ui(area, &app, Span { secs: 5, nanos: 0 }).unwrap();
    assert_eq!(drawing.panel, panel(area));
    let s = drawing.screen;
    assert_eq!(s.status.text, "😴 Relaxing...");
    assert_eq!(s.today.text, "Today:   00:00:00");
    app.toggle_study_mode(Span { secs: 5, nanos: 0 }).unwrap();
    let s = ui(area, &app, Span { secs: 15, nanos: 0 }).unwrap().screen;
    assert_eq!(s.status.text, "🔒 STUDY MODE ACTIVE");
    assert_eq!(s.session.text, "Session: 00:00:10");
    assert_eq!(s.today.text, "Today:   00:00:10");
}

#[test]
fn a_day_that_no_counter_holds_is_not_drawn() {
    let day = chrono::Local::now().format("%Y-%m-%d").to_string();
    let daily = vec![(day.clone(), u64::MAX)];
    let mut app =
        App::new(Progress::load(ProgressFile::Parsed { stats: None, daily: Some(daily) }));
    app.toggle_study_mode(Span::from_secs(0)).unwrap();
    let area = Rect { x: 0, y: 0, width: 80, height: 24 };
    let drawn = ui(area, &app, Span::from_secs(5)).is_some();
    if day == chrono::Local::now().format("%Y-%m-%d").to_string() {
        assert!(!drawn);
    }
}

#[test]
fn middle_at_the_edge_of_the_coordinates() {
    let area = Rect { x: 0, y: 0, width: u16::MAX, height: u16::MAX };
    let r = centered_rect(50, 60, area);
    assert_eq!(r, Rect { x: 16384, y: 13107, width: 32767, height: 39321 });
    let corner = Rect { x: 65_500, y: 65_525, width: 35, height: 10 };
    let r = centered_rect(50, 60, corner);
    assert_eq!(r, Rect { x: 65_509, y: 65_527, width: 17, height: 6 });
}

#[test]
fn screen_of_a_timer_that_holds_seconds() {
    let area = Rect { x: 0, y: 0, width: 100, height: 100 };
    let now = Span::from_secs(7);
    let mut app = App {
        studying: false,
        session_start: None,
        session_seconds: 3661,
        progress: Progress::default(),
    };
    let s = ui(area, &app, now).unwrap().screen;
    assert_eq!(s.border, Color::Cyan);
    assert_eq!(s.status.text, "😴 Relaxing...");
    assert_eq!(s.session.text, "Session: 01:01:01");
    assert_eq!(s.today.text, "Today:   00:00:00");
    app.studying = true;
    app.session_seconds = 59;
    let s = ui(area, &app, now).unwrap().screen;
    assert_eq!(s.border, Color::Green);
    assert_eq!(s.session.text, "Session: 00:00:59");
    assert_eq!(s.today.text, "Today:   00:00:59");
    app.session_seconds = u64::MAX;
    app.session_start = Some(Span::from_secs(0));
    app.studying = false;
    assert!(ui(area, &app, now).is_none());
}

#[test]
fn heights_of_the_rows() {
    assert_eq!(
        row_list(),
        [
            Constraint::Length(2),
            Constraint::Length(3),
            Constraint::Length(2),
            Constraint::Length(2),
            Constraint::Min(1),
            Constraint::Length(2),
        ]
    );
}

#[test]
fn each_row_goes_to_its_part() {
    let at = |y: u16| Rect { x: 1, y, width: 7, height: y + 1 };
    let list: Vec<Rect> = (0..6).map(at).collect();
    let p = panel_of(at(10), at(20), &list);
    assert_eq!((p.main, p.inner), (at(10), at(20)));
    assert_eq!((p.status, p.emoticon, p.session), (at(0), at(1), at(2)));
    assert_eq!((p.today, p.gap, p.controls), (at(3), at(4), at(5)));
}
