//! What holds of a session from its start to its end, and of the time that is shown.

use vstd::prelude::*;
use crate::clock::{duration_text, Span};
use crate::clock_laws::law_whole_seconds_between;
use crate::day::is_clock_day;
use crate::progress::ProgressView;
use crate::session::{AppView, Effect};
use crate::text::two_digits;
use crate::text_laws::{lemma_two_digits, lemma_two_digits_injective};

verus! {

/// Stopping a session adds the whole seconds that it ran to the day and to the total, and leaves
/// a timer without a session.
pub proof fn law_session_is_credited(app: AppView, start: Span, stop: Span, day: Seq<char>)
    requires
        app.wf(),
        !app.studying,
        start.wf(),
        stop.wf(),
        app.toggled(start, day).has_room(stop, day),
    ensures
        ({
            let after = app.toggled(start, day).toggled(stop, day);
            &&& after.wf()
            &&& !after.studying
            &&& after.session_start is None
            &&& after.session_secs(stop) == 0
            &&& after.progress.seconds_on(day) == app.progress.seconds_on(day) + start.secs_until(
                stop,
            )
            &&& after.progress.total == app.progress.total + start.secs_until(stop)
        }),
{
}

/// Starting and stopping alternate, and the domains are blocked exactly while a session runs:
/// a start blocks them, a stop unblocks them.
pub proof fn law_blocked_while_studying(app: AppView, now: Span, day: Seq<char>)
    requires
        app.wf(),
        now.wf(),
    ensures
        app.toggled(now, day).wf(),
        app.toggled(now, day).studying == !app.studying,
        app.toggled(now, day).studying <==> app.toggle_effects().contains(Effect::Block),
        !app.toggled(now, day).studying <==> app.toggle_effects().contains(Effect::Unblock),
{
    let effects = app.toggle_effects();
    if !app.studying {
        assert(effects[0] == Effect::Block);
    } else if app.session_start is Some {
        assert(effects[1] == Effect::Unblock);
    } else {
        assert(effects[0] == Effect::Unblock);
    }
}

/// In every state that starting, stopping and leaving lead to, a session has a start only while it
/// runs, and no seconds before it.
pub proof fn law_steps_keep_steady(app: AppView, now: Span, day: Seq<char>)
    requires
        app.wf(),
        now.wf(),
        app.steady(),
    ensures
        app.toggled(now, day).steady(),
        app.exited(now, day).steady(),
{
}

/// The time shown for a day does not jump when a session stops: what was shown with the session
/// running is what is then on record. The law leaves out a session without a start that has
/// seconds nonetheless, which no step leads to: they are shown and not added.
pub proof fn law_shown_time_is_kept(app: AppView, now: Span, day: Seq<char>)
    requires
        app.wf(),
        now.wf(),
        app.studying,
        app.has_room(now, day),
        app.session_start is None ==> app.session_seconds == 0,
    ensures
        app.toggled(now, day).day_secs(now, day) == app.day_secs(now, day),
{
}

/// The time shown for a day does not jump when the program ends. The law leaves out a session with
/// seconds from before its start, which no step leads to: they would still be shown once added.
pub proof fn law_shown_time_outlasts_exit(app: AppView, now: Span, day: Seq<char>)
    requires
        app.wf(),
        now.wf(),
        app.has_room(now, day),
        app.timed() ==> app.session_seconds == 0,
    ensures
        app.exited(now, day).day_secs(now, day) == app.day_secs(now, day),
{
}

/// No time is lost or counted twice at the end of the program: leaving a second time, or stopping
/// the session after leaving, adds nothing more.
pub proof fn law_session_is_counted_once(app: AppView, now: Span, later: Span, day: Seq<char>)
    requires
        app.wf(),
        now.wf(),
        later.wf(),
        app.has_room(now, day),
    ensures
        ({
            let left = app.exited(now, day);
            &&& left.wf()
            &&& left.has_room(later, day)
            &&& left.exited(later, day).progress == left.progress
            &&& left.studying ==> left.toggled(later, day).progress == left.progress
        }),
{
}

/// A session grows with time.
pub proof fn law_session_grows(app: AppView, now: Span, later: Span)
    requires
        app.wf(),
        now.wf(),
        later.wf(),
        now.total_nanos() <= later.total_nanos(),
    ensures
        app.session_secs(now) <= app.session_secs(later),
{
}

/// The hours, minutes and seconds that are shown come to the seconds they were made from, with
/// less than sixty minutes and less than sixty seconds.
pub proof fn law_duration_parts(total_secs: nat)
    ensures
        total_secs == total_secs / 3600 * 3600 + total_secs % 3600 / 60 * 60 + total_secs % 60,
        total_secs % 3600 / 60 < 60,
        total_secs % 60 < 60,
{
    assert(total_secs % 3600 % 60 == total_secs % 60);
}

/// Different durations are shown differently.
pub proof fn law_duration_text_tells_apart(a: nat, b: nat)
    requires
        duration_text(a) == duration_text(b),
    ensures
        a == b,
{
    law_duration_parts(a);
    law_duration_parts(b);
    lemma_two_digits(a % 3600 / 60);
    lemma_two_digits(a % 60);
    lemma_two_digits(b % 3600 / 60);
    lemma_two_digits(b % 60);
    let s = duration_text(a);
    let n = two_digits(a / 3600).len() as int;
    assert(s.len() == n + 6);
    assert(s.take(n) =~= two_digits(a / 3600));
    assert(s.take(n) =~= two_digits(b / 3600));
    assert(s.subrange(n + 1, n + 3) =~= two_digits(a % 3600 / 60));
    assert(s.subrange(n + 1, n + 3) =~= two_digits(b % 3600 / 60));
    assert(s.subrange(n + 4, n + 6) =~= two_digits(a % 60));
    assert(s.subrange(n + 4, n + 6) =~= two_digits(b % 60));
    lemma_two_digits_injective(a / 3600, b / 3600);
    lemma_two_digits_injective(a % 3600 / 60, b % 3600 / 60);
    lemma_two_digits_injective(a % 60, b % 60);
}

/// The seconds that are on record for a day.
pub open spec fn on_record(progress: ProgressView, day: Seq<char>) -> int {
    if progress.daily.contains_key(day) {
        progress.daily[day] as int
    } else {
        0
    }
}

/// The time of a session is the whole seconds since its start, as many as fit, and the seconds from
/// before; without a start it is these alone.
pub proof fn law_session_time_is_the_time_passed(app: AppView, now: Span)
    ensures
        app.session_start is None ==> app.session_secs(now) == app.session_seconds,
        app.session_start matches Some(start) ==> {
            let from = start.secs * 1_000_000_000 + start.nanos;
            let to = now.secs * 1_000_000_000 + now.nanos;
            let counted = app.session_secs(now) - app.session_seconds;
            &&& from <= to ==> counted * 1_000_000_000 <= to - from < (counted + 1) * 1_000_000_000
            &&& from > to ==> counted == 0
        },
{
    if app.session_start is Some {
        law_whole_seconds_between(app.session_start->0, now);
    }
}

/// A session finds room exactly where its seconds, together with those that the total and the day
/// have, can be counted, however long it ran. Without time to add there is room.
pub proof fn law_room_is_what_counters_hold(app: AppView, now: Span, day: Seq<char>)
    ensures
        !(app.studying && app.session_start is Some) ==> app.has_room(now, day),
        app.studying && app.session_start is Some ==> (app.has_room(now, day) <==> {
            &&& app.session_secs(now) + app.progress.total <= u64::MAX
            &&& app.session_secs(now) + on_record(app.progress, day) <= u64::MAX
        }),
{
    if app.session_start is Some {
        law_whole_seconds_between(app.session_start->0, now);
    }
}

/// From a start to a stop, as many whole seconds as fit between them are added to the total and to
/// the day of the stop, which becomes the last day; no other day changes. The time is saved, then
/// the domains are unblocked, and the timer stands as before the start.
pub proof fn law_a_session_adds_the_time_it_took(
    app: AppView,
    start: Span,
    stop: Span,
    day: Seq<char>,
    secs: int,
)
    requires
        !app.studying,
        app.wf(),
        start.wf(),
        stop.wf(),
        secs >= 0,
        secs * 1_000_000_000 <= (stop.secs * 1_000_000_000 + stop.nanos) - (start.secs
            * 1_000_000_000 + start.nanos) < (secs + 1) * 1_000_000_000,
        app.progress.total + secs <= u64::MAX,
        on_record(app.progress, day) + secs <= u64::MAX,
    ensures
        ({
            let running = app.toggled_untimed(start);
            let after = running.toggled(stop, day);
            &&& forall|any: Seq<char>| #[trigger] app.toggled(start, any) == running
            &&& app.toggle_effects() == seq![Effect::Block]
            &&& running.studying
            &&& running.progress == app.progress
            &&& running.session_start == Some(start)
            &&& running.session_seconds == 0
            &&& running.session_secs(start) == 0
            &&& running.session_secs(stop) == secs
            &&& running.has_room(stop, day)
            &&& running.toggle_effects() == seq![Effect::SaveProgress, Effect::Unblock]
            &&& !after.studying
            &&& after.session_start is None
            &&& after.session_seconds == 0
            &&& after.progress.total == app.progress.total + secs
            &&& after.progress.last_date == Some(day)
            &&& after.progress.daily.contains_key(day)
            &&& after.progress.daily[day] == on_record(app.progress, day) + secs
            &&& forall|other: Seq<char>| #[trigger]
                after.progress.daily.contains_key(other) <==> app.progress.daily.contains_key(other)
                    || other == day
            &&& forall|other: Seq<char>|
                other != day && app.progress.daily.contains_key(other)
                    ==> #[trigger] after.progress.daily[other] == app.progress.daily[other]
        }),
{
    let running = app.toggled_untimed(start);
    law_whole_seconds_between(start, stop);
    law_whole_seconds_between(start, start);
    law_room_is_what_counters_hold(running, stop, day);
    assert(app.toggle_effects() =~= seq![Effect::Block]);
    assert(running.toggle_effects() =~= seq![Effect::SaveProgress, Effect::Unblock]);
}

/// Leaving adds what stopping adds, and a timer without time to add is left as it is. The time is
/// saved in any case, and then every trace of blocking removed.
pub proof fn law_leaving_adds_what_stopping_adds(app: AppView, now: Span, day: Seq<char>)
    ensures
        app.studying ==> app.exited(now, day).progress == app.toggled(now, day).progress,
        app.exited(now, day).studying == app.studying,
        app.exited(now, day).session_seconds == app.session_seconds,
        !(app.studying && app.session_start is Some) ==> app.exited(now, day) == app,
        app.studying ==> app.exited(now, day).session_start is None,
        AppView::exit_effects() == seq![Effect::SaveProgress, Effect::FlushAll],
{
}

/// Study time that changes is saved: a step that leaves another study time behind than it found asks
/// first for it to be written. A session that is stopped without time to add only unblocks.
pub proof fn law_changed_time_is_saved(app: AppView, now: Span, day: Seq<char>)
    requires
        app.has_room(now, day),
    ensures
        app.toggled(now, day).progress != app.progress ==> app.toggle_effects()[0]
            == Effect::SaveProgress,
        app.exited(now, day).progress != app.progress ==> AppView::exit_effects()[0]
            == Effect::SaveProgress,
        app.studying && app.session_start is None ==> {
            &&& app.toggle_effects() == seq![Effect::Unblock]
            &&& app.toggled(now, day).progress == app.progress
            &&& !app.toggled(now, day).studying
            &&& app.toggled(now, day).session_start is None
            &&& app.toggled(now, day).session_seconds == app.session_seconds
        },
{
}

/// The time shown for a day is what is on record for it, and what a session that runs would add to
/// it if it were stopped now.
pub proof fn law_shown_day_is_record_and_session(app: AppView, now: Span, day: Seq<char>)
    ensures
        !app.studying ==> app.day_secs(now, day) == on_record(app.progress, day),
        app.studying ==> app.day_secs(now, day) - app.session_secs(now) == on_record(
            app.progress,
            day,
        ),
{
}

/// The day that a stop is credited to is the day that is then shown. Where the clock gives one and
/// the same day when the session stops and when the time of the day is read, that day has the time of
/// the session on record, is the last day, and shows what it showed while the session ran.
pub proof fn law_stop_is_credited_to_the_day_of_the_clock(
    app: AppView,
    now: Span,
    credited: Seq<char>,
    read: Seq<char>,
)
    requires
        app.wf(),
        now.wf(),
        app.studying,
        app.session_start is Some,
        is_clock_day(credited),
        is_clock_day(read),
        credited == read,
        app.has_room(now, credited),
    ensures
        ({
            let after = app.toggled(now, credited);
            &&& after.progress.last_date == Some(read)
            &&& on_record(after.progress, read) == on_record(app.progress, read) + app.session_secs(
                now,
            )
            &&& after.day_secs(now, read) == app.day_secs(now, read)
            &&& after.day_secs(now, read) == on_record(after.progress, read)
        }),
{
}

} // verus!
