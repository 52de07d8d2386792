//! What the screen shows and where.

use vstd::prelude::*;
use crate::clock::{duration_text, format_duration, Span};
use crate::day::{is_clock_day, is_day_text, lemma_some_day};
use crate::session::App;

verus! {

/// A rectangle of character cells.
#[derive(Clone, Copy, Debug, PartialEq, Eq, Structural)]
pub struct Rect {
    pub x: u16,
    pub y: u16,
    pub width: u16,
    pub height: u16,
}

/// How much room a part of an area is to take.
#[derive(Clone, Copy, Debug, PartialEq, Eq, Structural)]
pub enum Constraint {
    /// So many cells.
    Length(u16),
    /// So many cells or more.
    Min(u16),
    /// So many hundredths of the area.
    Percentage(u16),
}

/// The colours of the screen.
#[derive(Clone, Copy, Debug, PartialEq, Eq, Structural)]
pub enum Color {
    Green,
    Cyan,
    Yellow,
    White,
    Magenta,
    Red,
}

/// A piece of text and how it looks.
#[derive(Debug)]
pub struct Styled {
    pub text: String,
    pub color: Option<Color>,
    pub bold: bool,
}

/// What a [`Styled`] says.
pub struct StyledView {
    pub text: Seq<char>,
    pub color: Option<Color>,
    pub bold: bool,
}

impl View for Styled {
    type V = StyledView;

    open spec fn view(&self) -> StyledView {
        StyledView { text: self.text@, color: self.color, bold: self.bold }
    }
}

/// Everything on the screen: a box with a title, and five centered lines in it.
#[derive(Debug)]
pub struct Screen {
    pub border: Color,
    pub title: String,
    pub status: Styled,
    pub emoticon: Styled,
    pub session: Styled,
    pub today: Styled,
    pub controls: Vec<Styled>,
}

/// What a [`Screen`] says.
pub struct ScreenView {
    pub border: Color,
    pub title: Seq<char>,
    pub status: StyledView,
    pub emoticon: StyledView,
    pub session: StyledView,
    pub today: StyledView,
    pub controls: Seq<StyledView>,
}

impl View for Screen {
    type V = ScreenView;

    open spec fn view(&self) -> ScreenView {
        ScreenView {
            border: self.border,
            title: self.title@,
            status: self.status@,
            emoticon: self.emoticon@,
            session: self.session@,
            today: self.today@,
            controls: self.controls@.map_values(|s: Styled| s@),
        }
    }
}

/// The parts of the screen: the box, what its border leaves, and the rows in there from top to
/// bottom.
#[derive(Clone, Copy, Debug, PartialEq, Eq, Structural)]
pub struct Panel {
    pub main: Rect,
    pub inner: Rect,
    pub status: Rect,
    pub emoticon: Rect,
    pub session: Rect,
    pub today: Rect,
    pub gap: Rect,
    pub controls: Rect,
}

impl Panel {
    /// The rows from top to bottom.
    pub open spec fn rows(self) -> Seq<Rect> {
        seq![self.status, self.emoticon, self.session, self.today, self.gap, self.controls]
    }

    /// Whether these are the parts of a screen of the given area: the box is its middle, and the
    /// rows are split off from what the border leaves.
    pub open spec fn is_laid_out(self, area: Rect) -> bool {
        &&& self.main == centered(50, 60, area)
        &&& self.main.within(area)
        &&& self.inner == without_border(self.main)
        &&& is_split(
            row_constraints(),
            self.inner.y as int,
            self.inner.height as int,
            row_spans(self.rows()),
        )
        &&& forall|i: int|
            0 <= i < 6 ==> (#[trigger] self.rows()[i]).x == self.inner.x && self.rows()[i].width
                == self.inner.width
    }
}

/// Everything that is to be drawn: what the screen says, and where each part of it goes.
#[derive(Debug)]
pub struct Drawing {
    pub screen: Screen,
    pub panel: Panel,
}

impl Rect {
    /// The far edges have coordinates too.
    pub open spec fn fits(self) -> bool {
        &&& self.x + self.width <= u16::MAX
        &&& self.y + self.height <= u16::MAX
    }

    /// Whether no cell of this rectangle stands outside the other.
    pub open spec fn within(self, outer: Rect) -> bool {
        &&& outer.x <= self.x
        &&& self.x + self.width <= outer.x + outer.width
        &&& outer.y <= self.y
        &&& self.y + self.height <= outer.y + outer.height
    }
}

/// The hundredths that the first `i` parts take.
pub open spec fn percent_before(cs: Seq<Constraint>, i: int) -> int
    decreases i,
{
    if i <= 0 {
        0
    } else {
        percent_before(cs, i - 1) + (match cs[i - 1] {
            Constraint::Percentage(p) => p as int,
            _ => 0,
        })
    }
}

/// Whether all parts take hundredths, and not more than there are.
pub open spec fn is_percent_list(cs: Seq<Constraint>) -> bool {
    &&& forall|i: int| 0 <= i < cs.len() ==> #[trigger] cs[i] is Percentage
    &&& percent_before(cs, cs.len() as int) <= 100
}

/// So many hundredths of `n` cells, in whole cells; half a cell counts as one.
pub open spec fn share(n: int, percent: int) -> int {
    (n * percent + 50) / 100
}

/// The cells that the first `i` parts take where each has a fixed size, but for those that grow.
pub open spec fn length_before(cs: Seq<Constraint>, i: int) -> int
    decreases i,
{
    if i <= 0 {
        0
    } else {
        length_before(cs, i - 1) + (match cs[i - 1] {
            Constraint::Length(n) => n as int,
            _ => 0,
        })
    }
}

/// Whether all parts have a fixed size but the one at `grows`, and all fit in `n` cells.
pub open spec fn is_stack(cs: Seq<Constraint>, grows: int, n: int) -> bool {
    &&& 0 <= grows < cs.len()
    &&& cs[grows] matches Constraint::Min(least) && length_before(cs, cs.len() as int) + least <= n
    &&& forall|i: int| 0 <= i < cs.len() && i != grows ==> #[trigger] cs[i] is Length
}

/// Whether `parts`, given by where they start and how many cells they have, are what the
/// constraints make of `n` cells from `start` on. Every part lies in there. Hundredths are exact,
/// and so are fixed sizes beside one part that grows, which takes what is left.
pub open spec fn is_split(
    cs: Seq<Constraint>,
    start: int,
    n: int,
    parts: Seq<(int, int)>,
) -> bool {
    &&& parts.len() == cs.len()
    &&& forall|i: int|
        0 <= i < parts.len() ==> start <= (#[trigger] parts[i]).0 && 0 <= parts[i].1 && parts[i].0
            + parts[i].1 <= start + n
    &&& is_percent_list(cs) ==> forall|i: int|
        0 <= i < parts.len() ==> #[trigger] parts[i] == (
            start + share(n, percent_before(cs, i)),
            share(n, percent_before(cs, i + 1)) - share(n, percent_before(cs, i)),
        )
    &&& forall|grows: int|
        #![trigger is_stack(cs, grows, n)]
        is_stack(cs, grows, n) ==> forall|i: int|
            0 <= i < parts.len() ==> #[trigger] parts[i] == stacked(cs, start, grows, n, i)
}

/// Where part `i` of a stack starts and how many cells it has.
pub open spec fn stacked(
    cs: Seq<Constraint>,
    start: int,
    grows: int,
    n: int,
    i: int,
) -> (int, int) {
    let rest = n - length_before(cs, cs.len() as int);
    (
        start + length_before(cs, i) + (if i > grows {
            rest
        } else {
            0
        }),
        if i == grows {
            rest
        } else {
            length_before(cs, i + 1) - length_before(cs, i)
        },
    )
}

/// The rows of rectangles, as positions and heights.
pub open spec fn row_spans(rects: Seq<Rect>) -> Seq<(int, int)> {
    rects.map_values(|r: Rect| (r.y as int, r.height as int))
}

/// The columns of rectangles, as positions and widths.
pub open spec fn column_spans(rects: Seq<Rect>) -> Seq<(int, int)> {
    rects.map_values(|r: Rect| (r.x as int, r.width as int))
}

/// `ratatui::layout::Layout::vertical` with the constraints, split by
/// `ratatui::layout::Layout::split`, gives one rectangle for each constraint, as wide as the area
/// and within it. A constraint in hundredths gets these hundredths of the height, the edges
/// rounded to whole cells, where all are such and come to a hundred at most. Fixed sizes are kept,
/// and the one part with a least size takes what is left, where all fit. Of other lists the solver
/// behind the call leaves open which constraint yields, and nothing is said of it here. Lists of more
/// than six constraints, for which the solver takes long, are left out.
#[verifier::external_body]
fn split_rows(constraints: &Vec<Constraint>, area: Rect) -> (r: Vec<Rect>)
    requires
        area.fits(),
        constraints@.len() <= 6,
    ensures
        is_split(constraints@, area.y as int, area.height as int, row_spans(r@)),
        forall|i: int|
            0 <= i < r@.len() ==> (#[trigger] r@[i]).x == area.x && r@[i].width == area.width,
{
    let list = constraints.iter().map(|c| match c {
        Constraint::Length(n) => ratatui::layout::Constraint::Length(*n),
        Constraint::Min(n) => ratatui::layout::Constraint::Min(*n),
        Constraint::Percentage(n) => ratatui::layout::Constraint::Percentage(*n),
    });
    let whole = ratatui::layout::Rect::new(area.x, area.y, area.width, area.height);
    let parts = ratatui::layout::Layout::vertical(list).split(whole);
    parts.iter().map(|q| Rect { x: q.x, y: q.y, width: q.width, height: q.height }).collect()
}

/// Whether the rectangles are a result of [`split_rows`] for the constraints and the area. That they
/// lie in the area does not make them one.
pub closed spec fn is_solved(cs: Seq<Constraint>, area: Rect, rects: Seq<Rect>) -> bool {
    exists|list: Vec<Constraint>, r: Vec<Rect>| #[trigger]
        call_ensures(split_rows, (&list, area), r) && list@ == cs && r@ == rects
}

/// Calls a function that splits an area, and keeps that its result is one of this function.
fn split_by<F: Fn(&Vec<Constraint>, Rect) -> Vec<Rect>>(
    f: F,
    constraints: &Vec<Constraint>,
    area: Rect,
) -> (r: Vec<Rect>)
    requires
        call_requires(f, (constraints, area)),
    ensures
        call_ensures(f, (constraints, area), r),
{
    f(constraints, area)
}

/// Splits an area into rows.
fn solved_rows(constraints: &Vec<Constraint>, area: Rect) -> (r: Vec<Rect>)
    requires
        area.fits(),
        constraints@.len() <= 6,
    ensures
        is_solved(constraints@, area, r@),
        is_split(constraints@, area.y as int, area.height as int, row_spans(r@)),
        forall|i: int|
            0 <= i < r@.len() ==> (#[trigger] r@[i]).x == area.x && r@[i].width == area.width,
{
    split_by(split_rows, constraints, area)
}

/// Rows that count as solved were returned by the call that splits an area into rows.
proof fn law_solved_rows_come_from_the_solver(cs: Seq<Constraint>, area: Rect, rects: Seq<Rect>)
    requires
        is_solved(cs, area, rects),
    ensures
        exists|list: Vec<Constraint>, r: Vec<Rect>| #[trigger]
            call_ensures(split_rows, (&list, area), r) && list@ == cs && r@ == rects,
{
}

/// `ratatui::layout::Layout::horizontal` with the constraints, split by
/// `ratatui::layout::Layout::split`, gives one rectangle for each constraint, as high as the area
/// and within it, by the rules that [`split_rows`] has for heights.
#[verifier::external_body]
fn split_columns(constraints: &Vec<Constraint>, area: Rect) -> (r: Vec<Rect>)
    requires
        area.fits(),
        constraints@.len() <= 6,
    ensures
        is_split(constraints@, area.x as int, area.width as int, column_spans(r@)),
        forall|i: int|
            0 <= i < r@.len() ==> (#[trigger] r@[i]).y == area.y && r@[i].height == area.height,
{
    let list = constraints.iter().map(|c| match c {
        Constraint::Length(n) => ratatui::layout::Constraint::Length(*n),
        Constraint::Min(n) => ratatui::layout::Constraint::Min(*n),
        Constraint::Percentage(n) => ratatui::layout::Constraint::Percentage(*n),
    });
    let whole = ratatui::layout::Rect::new(area.x, area.y, area.width, area.height);
    let parts = ratatui::layout::Layout::horizontal(list).split(whole);
    parts.iter().map(|q| Rect { x: q.x, y: q.y, width: q.width, height: q.height }).collect()
}

/// What a border of one cell on each side leaves of an area.
pub open spec fn without_border(area: Rect) -> Rect {
    Rect {
        x: if area.width > 0 {
            (area.x + 1) as u16
        } else {
            area.x
        },
        y: if area.height > 0 {
            (area.y + 1) as u16
        } else {
            area.y
        },
        width: if area.width > 2 {
            (area.width - 2) as u16
        } else {
            0
        },
        height: if area.height > 2 {
            (area.height - 2) as u16
        } else {
            0
        },
    }
}

/// `ratatui::widgets::Block::inner` of a block with all borders leaves out one cell on each side,
/// as far as there are cells. A title on a border does not change that.
#[verifier::external_body]
fn inner_area(area: Rect) -> (r: Rect)
    requires
        area.fits(),
    ensures
        r == without_border(area),
{
    let whole = ratatui::layout::Rect::new(area.x, area.y, area.width, area.height);
    let block = ratatui::widgets::Block::default().borders(ratatui::widgets::Borders::ALL);
    let q = block.inner(whole);
    Rect { x: q.x, y: q.y, width: q.width, height: q.height }
}

/// The hundredths for a middle part and an equal margin on both sides of it.
pub open spec fn margin(percent: int) -> int {
    (100 - percent) / 2
}

/// The constraints for a middle part of so many hundredths.
pub fn centered_constraints(percent: u16) -> (r: Vec<Constraint>)
    requires
        percent <= 100,
    ensures
        r@ == seq![
            Constraint::Percentage(margin(percent as int) as u16),
            Constraint::Percentage(percent),
            Constraint::Percentage(margin(percent as int) as u16),
        ],
{
    let side: u16 = (100 - percent) / 2;
    let r: Vec<Constraint> = vec![
        Constraint::Percentage(side),
        Constraint::Percentage(percent),
        Constraint::Percentage(side),
    ];
    proof {
        assert(r@ =~= seq![
            Constraint::Percentage(margin(percent as int) as u16),
            Constraint::Percentage(percent),
            Constraint::Percentage(margin(percent as int) as u16),
        ]);
    }
    r
}

/// Where the middle part of so many hundredths of `n` cells starts.
pub open spec fn middle_start(n: int, percent: int) -> int {
    share(n, margin(percent))
}

/// How many cells the middle part has.
pub open spec fn middle_size(n: int, percent: int) -> int {
    share(n, margin(percent) + percent) - share(n, margin(percent))
}

/// The middle of an area, in hundredths of its width and of its height.
pub open spec fn centered(percent_x: int, percent_y: int, area: Rect) -> Rect {
    Rect {
        x: (area.x + middle_start(area.width as int, percent_x)) as u16,
        y: (area.y + middle_start(area.height as int, percent_y)) as u16,
        width: middle_size(area.width as int, percent_x) as u16,
        height: middle_size(area.height as int, percent_y) as u16,
    }
}

/// The hundredths of the three constraints for a middle part.
proof fn lemma_centered(percent: u16, cs: Seq<Constraint>)
    requires
        percent <= 100,
        cs == seq![
            Constraint::Percentage(margin(percent as int) as u16),
            Constraint::Percentage(percent),
            Constraint::Percentage(margin(percent as int) as u16),
        ],
    ensures
        is_percent_list(cs),
        percent_before(cs, 1) == margin(percent as int),
        percent_before(cs, 2) == margin(percent as int) + percent,
{
    reveal_with_fuel(percent_before, 4);
}

/// The middle of an area, in hundredths of its width and of its height.
pub fn centered_rect(percent_x: u16, percent_y: u16, area: Rect) -> (r: Rect)
    requires
        percent_x <= 100,
        percent_y <= 100,
        area.fits(),
    ensures
        r == centered(percent_x as int, percent_y as int, area),
        r.within(area),
        r.fits(),
{
    let vertical = centered_constraints(percent_y);
    let rows = split_rows(&vertical, area);
    proof {
        lemma_centered(percent_y, vertical@);
        let spans = row_spans(rows@);
        assert(spans[1] == (rows@[1].y as int, rows@[1].height as int));
    }
    let middle = rows[1];
    let horizontal = centered_constraints(percent_x);
    let columns = split_columns(&horizontal, middle);
    proof {
        lemma_centered(percent_x, horizontal@);
        let spans = column_spans(columns@);
        assert(spans[1] == (columns@[1].x as int, columns@[1].width as int));
    }
    columns[1]
}

/// The margins on both sides of a middle part differ by one cell at most, where an even number of
/// hundredths is left for them.
pub proof fn law_middle_is_centered(n: nat, percent: nat)
    requires
        percent <= 100,
        percent % 2 == 0,
    ensures
        ({
            let before = middle_start(n as int, percent as int);
            let after = n - before - middle_size(n as int, percent as int);
            0 <= before - after <= 1
        }),
{
    let side = margin(percent as int);
    assert(side + percent == 100 - side);
    assert(n * (100 - side) == 100 * n - n * side) by (nonlinear_arith);
}

/// The heights of the rows in the box: status, emoticon, session time, time of the day, a gap that
/// grows, and controls.
pub open spec fn row_constraints() -> Seq<Constraint> {
    seq![
        Constraint::Length(2),
        Constraint::Length(3),
        Constraint::Length(2),
        Constraint::Length(2),
        Constraint::Min(1),
        Constraint::Length(2),
    ]
}

/// The heights of the rows in the box.
pub fn row_list() -> (r: Vec<Constraint>)
    ensures
        r@ == row_constraints(),
{
    let r: Vec<Constraint> = vec![
        Constraint::Length(2),
        Constraint::Length(3),
        Constraint::Length(2),
        Constraint::Length(2),
        Constraint::Min(1),
        Constraint::Length(2),
    ];
    proof {
        assert(r@ =~= row_constraints());
    }
    r
}

/// The parts of a screen from the box, its inside and the rows in there from top to bottom.
pub fn panel_of(main: Rect, inner: Rect, rows: &Vec<Rect>) -> (r: Panel)
    requires
        rows@.len() == 6,
    ensures
        r.main == main,
        r.inner == inner,
        r.status == rows@[0],
        r.emoticon == rows@[1],
        r.session == rows@[2],
        r.today == rows@[3],
        r.gap == rows@[4],
        r.controls == rows@[5],
        r.rows() == rows@,
{
    let r = Panel {
        main,
        inner,
        status: rows[0],
        emoticon: rows[1],
        session: rows[2],
        today: rows[3],
        gap: rows[4],
        controls: rows[5],
    };
    proof {
        assert(r.rows() =~= rows@);
    }
    r
}

/// Where the box, its inside and its rows stand on a screen of the given area. The rows are what
/// the solver makes of the inside for [`row_list`], in the order of [`panel_of`]. In an inside with
/// fewer cells than they are to have, which of them yields is left open.
pub fn panel(area: Rect) -> (r: Panel)
    requires
        area.fits(),
    ensures
        r.is_laid_out(area),
        is_solved(row_constraints(), r.inner, r.rows()),
{
    let main = centered_rect(50, 60, area);
    let inner = inner_area(main);
    let list = row_list();
    let rows = solved_rows(&list, inner);
    proof {
        assert(row_spans(rows@).len() == rows@.len());
    }
    panel_of(main, inner, &rows)
}

/// In a box with room for it, the rows stand one below the other from its top, each as high as it
/// is to be, and the last one at its bottom.
pub proof fn law_rows_fill_the_box(start: int, n: int, parts: Seq<(int, int)>)
    requires
        n >= 12,
        is_split(row_constraints(), start, n, parts),
    ensures
        parts == seq![
            (start, 2int),
            (start + 2, 3int),
            (start + 5, 2int),
            (start + 7, 2int),
            (start + 9, n - 11),
            (start + n - 2, 2int),
        ],
{
    let cs = row_constraints();
    reveal_with_fuel(length_before, 7);
    assert(is_stack(cs, 4, n));
    assert(parts[0] == stacked(cs, start, 4, n, 0));
    assert(parts[1] == stacked(cs, start, 4, n, 1));
    assert(parts[2] == stacked(cs, start, 4, n, 2));
    assert(parts[3] == stacked(cs, start, 4, n, 3));
    assert(parts[4] == stacked(cs, start, 4, n, 4));
    assert(parts[5] == stacked(cs, start, 4, n, 5));
    assert(parts =~= seq![
        (start, 2int),
        (start + 2, 3int),
        (start + 5, 2int),
        (start + 7, 2int),
        (start + 9, n - 11),
        (start + n - 2, 2int),
    ]);
}

/// A line in the given colour.
pub open spec fn plain(text: Seq<char>, color: Option<Color>) -> StyledView {
    StyledView { text, color, bold: false }
}

/// A bold line in the given colour.
pub open spec fn bold(text: Seq<char>, color: Option<Color>) -> StyledView {
    StyledView { text, color, bold: true }
}

/// The screen while a session runs or not, with the seconds of the session and of the day.
pub open spec fn screen_view(studying: bool, session: nat, today: nat) -> ScreenView {
    ScreenView {
        border: if studying {
            Color::Green
        } else {
            Color::Cyan
        },
        title: " 📚 STUDY TIME 📚 "@,
        status: if studying {
            bold("🔒 STUDY MODE ACTIVE"@, Some(Color::Green))
        } else {
            bold("😴 Relaxing..."@, Some(Color::Yellow))
        },
        emoticon: bold(
            if studying {
                "📖"@
            } else {
                "🎮"@
            },
            None,
        ),
        session: plain("Session: "@ + duration_text(session), Some(Color::White)),
        today: plain("Today:   "@ + duration_text(today), Some(Color::Magenta)),
        controls: seq![
            bold("[Space]"@, Some(Color::Cyan)),
            plain(" Toggle  "@, None),
            bold("[Q]"@, Some(Color::Red)),
            plain(" Quit"@, None),
        ],
    }
}

/// A piece of text.
fn styled(text: &str, color: Option<Color>, bold: bool) -> (r: Styled)
    ensures
        r@ == (StyledView { text: text@, color, bold }),
{
    Styled { text: text.to_string(), color, bold }
}

/// A label with a duration behind it.
fn labelled(label: &str, duration: Span) -> (r: String)
    ensures
        r@ == label@ + duration_text(duration.secs as nat),
{
    let mut out: String = label.to_string();
    out.append(format_duration(duration).as_str());
    out
}

/// The screen while a session runs or not, with the time of the session and of the day.
pub fn compose(studying: bool, session: Span, today: Span) -> (r: Screen)
    ensures
        r@ == screen_view(studying, session.secs as nat, today.secs as nat),
        r.session.text@ == "Session: "@ + duration_text(session.secs as nat),
        r.today.text@ == "Today:   "@ + duration_text(today.secs as nat),
        r.border == (if studying {
            Color::Green
        } else {
            Color::Cyan
        }),
        r.status.text@ == (if studying {
            "🔒 STUDY MODE ACTIVE"@
        } else {
            "😴 Relaxing..."@
        }),
{
    let controls: Vec<Styled> = vec![
        styled("[Space]", Some(Color::Cyan), true),
        styled(" Toggle  ", None, false),
        styled("[Q]", Some(Color::Red), true),
        styled(" Quit", None, false),
    ];
    let r = Screen {
        border: if studying {
            Color::Green
        } else {
            Color::Cyan
        },
        title: " 📚 STUDY TIME 📚 ".to_string(),
        status: if studying {
            styled("🔒 STUDY MODE ACTIVE", Some(Color::Green), true)
        } else {
            styled("😴 Relaxing...", Some(Color::Yellow), true)
        },
        emoticon: styled(
            if studying {
                "📖"
            } else {
                "🎮"
            },
            None,
            true,
        ),
        session: styled(labelled("Session: ", session).as_str(), Some(Color::White), false),
        today: styled(labelled("Today:   ", today).as_str(), Some(Color::Magenta), false),
        controls,
    };
    proof {
        assert(r@.controls =~= screen_view(
            studying,
            session.secs as nat,
            today.secs as nat,
        ).controls);
    }
    r
}

/// What to draw of a timer on a screen of the given area, for the day that it is now. There is
/// nothing to draw where a counter could not hold the seconds of the session or of the day.
pub fn ui(area: Rect, app: &App, now: Span) -> (r: Option<Drawing>)
    requires
        area.fits(),
        app.wf(),
        now.wf(),
    ensures
        r matches Some(drawing) ==> drawing.panel.is_laid_out(area) && is_solved(
            row_constraints(),
            drawing.panel.inner,
            drawing.panel.rows(),
        ),
        exists|day: Seq<char>| #[trigger]
            is_day_text(day) && (match r {
                Some(drawing) => app@.session_secs(now) <= u64::MAX && app@.day_secs(now, day)
                    <= u64::MAX && drawing.screen@ == screen_view(
                    app.studying,
                    app@.session_secs(now) as nat,
                    app@.day_secs(now, day) as nat,
                ),
                None => app@.session_secs(now) > u64::MAX || app@.day_secs(now, day) > u64::MAX,
            }),
        app@.session_secs(now) > u64::MAX ==> r is None,
        app@.session_secs(now) <= u64::MAX ==> exists|day: Seq<char>| #[trigger]
            is_day_text(day) && is_clock_day(day) && (match r {
                Some(drawing) => app@.day_secs(now, day) <= u64::MAX && drawing.screen@
                    == screen_view(
                    app.studying,
                    app@.session_secs(now) as nat,
                    app@.day_secs(now, day) as nat,
                ),
                None => app@.day_secs(now, day) > u64::MAX,
            }),
{
    if !app.session_fits(now) {
        proof {
            lemma_some_day();
        }
        return None;
    }
    let session = app.current_session_duration(now);
    match app.today_duration(now) {
        Some(today) => Some(
            Drawing { screen: compose(app.studying, session, today), panel: panel(area) },
        ),
        None => None,
    }
}

} // verus!
