//! What the screen says of a timer, and how its parts share the room.

use vstd::prelude::*;
use crate::clock::duration_text;
use crate::clock_laws::{clock_secs, is_clock_text, law_shown_duration_reads_back};
use crate::screen::{
    centered, law_rows_fill_the_box, margin, middle_size, middle_start, row_spans, screen_view,
    share, Color, Panel, Rect,
};

verus! {

/// Whether a line is a label with a time behind it that reads as so many seconds.
pub open spec fn tells(line: Seq<char>, label: Seq<char>, secs: int) -> bool {
    let n = label.len() as int;
    &&& n <= line.len()
    &&& line.take(n) == label
    &&& is_clock_text(line.skip(n))
    &&& clock_secs(line.skip(n)) == secs
}

/// A label with a duration behind it tells the seconds of the duration.
proof fn lemma_tells(label: Seq<char>, secs: nat)
    ensures
        tells(label + duration_text(secs), label, secs as int),
{
    law_shown_duration_reads_back(secs);
    let line = label + duration_text(secs);
    let n = label.len() as int;
    assert(line.take(n) =~= label);
    assert(line.skip(n) =~= duration_text(secs));
}

/// Whether a session runs or not, the screen tells the very seconds of the session and of the day,
/// hours included, each on its own line.
pub proof fn law_screen_tells_the_seconds(studying: bool, session: nat, today: nat)
    ensures
        tells(screen_view(studying, session, today).session.text, "Session: "@, session as int),
        tells(screen_view(studying, session, today).today.text, "Today:   "@, today as int),
{
    lemma_tells("Session: "@, session);
    lemma_tells("Today:   "@, today);
}

/// Different times of a session are shown differently, and so are different times of the day. Each
/// line depends on its own time alone, and the rest of the screen on whether a session runs alone.
pub proof fn law_each_line_has_its_own_time(
    studying: bool,
    other: bool,
    session: nat,
    today: nat,
    session_then: nat,
    today_then: nat,
)
    ensures
        ({
            let a = screen_view(studying, session, today);
            let b = screen_view(other, session_then, today_then);
            &&& a.session == b.session <==> session == session_then
            &&& a.session.text == b.session.text <==> session == session_then
            &&& a.today == b.today <==> today == today_then
            &&& a.today.text == b.today.text <==> today == today_then
            &&& a.title == b.title
            &&& a.controls == b.controls
            &&& a.border == b.border <==> studying == other
            &&& a.status == b.status <==> studying == other
            &&& a.emoticon == b.emoticon <==> studying == other
        }),
{
    law_screen_tells_the_seconds(studying, session, today);
    law_screen_tells_the_seconds(other, session_then, today_then);
    reveal_strlit("🔒 STUDY MODE ACTIVE");
    reveal_strlit("😴 Relaxing...");
    reveal_strlit("📖");
    reveal_strlit("🎮");
    assert("📖"@[0] != "🎮"@[0]);
}

/// What the screen says besides the two times: that study mode is active, in green, or that it is
/// not, and which keys do what.
pub proof fn law_screen_tells_the_mode(session: nat, today: nat)
    ensures
        ({
            let on = screen_view(true, session, today);
            let off = screen_view(false, session, today);
            &&& on.status.text == "🔒 STUDY MODE ACTIVE"@ && on.status.color == Some(Color::Green)
            &&& off.status.text == "😴 Relaxing..."@ && off.status.color == Some(Color::Yellow)
            &&& on.status.bold && off.status.bold
            &&& on.emoticon.text == "📖"@ && off.emoticon.text == "🎮"@
            &&& on.border == Color::Green && off.border == Color::Cyan
            &&& on.title == " 📚 STUDY TIME 📚 "@
            &&& on.session.color == Some(Color::White) && !on.session.bold
            &&& on.today.color == Some(Color::Magenta) && !on.today.bold
            &&& on.controls.len() == 4
            &&& on.controls[0].text == "[Space]"@ && on.controls[1].text == " Toggle  "@
            &&& on.controls[2].text == "[Q]"@ && on.controls[3].text == " Quit"@
            &&& on.controls[0].bold && on.controls[0].color == Some(Color::Cyan)
            &&& on.controls[2].bold && on.controls[2].color == Some(Color::Red)
            &&& !on.controls[1].bold && on.controls[1].color is None
            &&& !on.controls[3].bold && on.controls[3].color is None
            &&& on.emoticon.bold && on.emoticon.color is None
            &&& off.emoticon.bold && off.emoticon.color is None
        }),
{
}

/// Both margins beside a middle part are equal, and all hundredths are given out, but for one where
/// their number is odd.
pub proof fn law_margins_are_equal(percent: int)
    requires
        0 <= percent <= 100,
    ensures
        0 <= margin(percent),
        0 <= 100 - percent - 2 * margin(percent) <= 1,
{
}

/// Both edges of a middle part stand where the hundredths put them, to the nearest cell.
pub proof fn law_middle_edges(n: nat, percent: int)
    requires
        0 <= percent <= 100,
    ensures
        ({
            let side = margin(percent);
            let from = middle_start(n as int, percent);
            let to = from + middle_size(n as int, percent);
            &&& n * side - 50 < 100 * from <= n * side + 50
            &&& n * (side + percent) - 50 < 100 * to <= n * (side + percent) + 50
            &&& 0 <= from <= to <= n
        }),
{
    let side = margin(percent);
    assert(0 <= n * side <= n * (side + percent) <= n * 100) by (nonlinear_arith)
        requires
            0 <= n,
            0 <= side,
            0 <= percent,
            side + percent <= 100,
    ;
}

/// The box takes half of the width and three fifths of the height, in the middle of the screen, and
/// its inside is what a border of one cell leaves, where there are so many cells. With room for them,
/// the rows stand in there one below the other: status, emoticon, session, day, a gap, and the
/// controls at the bottom, each as wide as the inside.
pub proof fn law_parts_of_the_screen(panel: Panel, area: Rect)
    requires
        area.fits(),
        panel.is_laid_out(area),
    ensures
        ({
            let left = panel.main.x - area.x;
            let right = left + panel.main.width;
            let top = panel.main.y - area.y;
            let bottom = top + panel.main.height;
            &&& 25 * area.width - 50 < 100 * left <= 25 * area.width + 50
            &&& 75 * area.width - 50 < 100 * right <= 75 * area.width + 50
            &&& 20 * area.height - 50 < 100 * top <= 20 * area.height + 50
            &&& 80 * area.height - 50 < 100 * bottom <= 80 * area.height + 50
        }),
        panel.main.width >= 2 ==> panel.inner.x == panel.main.x + 1 && panel.inner.width
            == panel.main.width - 2,
        panel.main.height >= 2 ==> panel.inner.y == panel.main.y + 1 && panel.inner.height
            == panel.main.height - 2,
        panel.inner.height >= 12 ==> {
            let y = panel.inner.y;
            let end = panel.inner.y + panel.inner.height;
            &&& panel.status.y == y && panel.status.height == 2
            &&& panel.emoticon.y == y + 2 && panel.emoticon.height == 3
            &&& panel.session.y == y + 5 && panel.session.height == 2
            &&& panel.today.y == y + 7 && panel.today.height == 2
            &&& panel.gap.y == y + 9 && panel.gap.height == panel.inner.height - 11
            &&& panel.controls.y == end - 2 && panel.controls.height == 2
        },
        forall|i: int|
            0 <= i < 6 ==> (#[trigger] panel.rows()[i]).x == panel.inner.x && panel.rows()[i].width
                == panel.inner.width && panel.inner.y <= panel.rows()[i].y && panel.rows()[i].y
                + panel.rows()[i].height <= panel.inner.y + panel.inner.height,
{
    law_middle_of_an_area(50, 60, area);
    law_middle_edges(area.width as nat, 50);
    law_middle_edges(area.height as nat, 60);
    let w = area.width as nat;
    let h = area.height as nat;
    assert(margin(50) == 25 && margin(60) == 20);
    assert(w * margin(50) == 25 * w && w * (margin(50) + 50) == 75 * w) by (nonlinear_arith)
        requires
            margin(50) == 25,
    ;
    assert(h * margin(60) == 20 * h && h * (margin(60) + 60) == 80 * h) by (nonlinear_arith)
        requires
            margin(60) == 20,
    ;
    let spans = row_spans(panel.rows());
    assert forall|i: int| 0 <= i < 6 implies #[trigger] spans[i] == (
        panel.rows()[i].y as int,
        panel.rows()[i].height as int,
    ) by {}
    assert forall|i: int|
        0 <= i < 6 implies (#[trigger] panel.rows()[i]).x == panel.inner.x && panel.rows()[i].width
        == panel.inner.width && panel.inner.y <= panel.rows()[i].y && panel.rows()[i].y
        + panel.rows()[i].height <= panel.inner.y + panel.inner.height by {
        assert(spans[i] == (panel.rows()[i].y as int, panel.rows()[i].height as int));
    }
    if panel.inner.height >= 12 {
        law_rows_fill_the_box(panel.inner.y as int, panel.inner.height as int, spans);
        assert(spans[0] == (panel.status.y as int, panel.status.height as int));
        assert(spans[1] == (panel.emoticon.y as int, panel.emoticon.height as int));
        assert(spans[2] == (panel.session.y as int, panel.session.height as int));
        assert(spans[3] == (panel.today.y as int, panel.today.height as int));
        assert(spans[4] == (panel.gap.y as int, panel.gap.height as int));
        assert(spans[5] == (panel.controls.y as int, panel.controls.height as int));
    }
}

/// The middle of an area has its edges where the hundredths of the width and of the height put them.
pub proof fn law_middle_of_an_area(percent_x: int, percent_y: int, area: Rect)
    requires
        0 <= percent_x <= 100,
        0 <= percent_y <= 100,
        area.fits(),
    ensures
        ({
            let r = centered(percent_x, percent_y, area);
            &&& r.x == area.x + middle_start(area.width as int, percent_x)
            &&& r.width == middle_size(area.width as int, percent_x)
            &&& r.y == area.y + middle_start(area.height as int, percent_y)
            &&& r.height == middle_size(area.height as int, percent_y)
            &&& r.within(area)
        }),
{
    law_middle_edges(area.width as nat, percent_x);
    law_middle_edges(area.height as nat, percent_y);
}

} // verus!
