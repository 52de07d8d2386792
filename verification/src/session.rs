//! A study session: when it runs, and what its start and its end bring about.

use vstd::prelude::*;
use crate::clock::Span;
use crate::day::clock_day;
use crate::day::{is_clock_day, is_day_text};
use crate::progress::{Progress, ProgressView};

verus! {

/// What is to be done outside after a step of the session, in order.
#[derive(Clone, Copy, Debug, PartialEq, Eq, Structural)]
pub enum Effect {
    /// Write the study time to its file.
    SaveProgress,
    /// Block the domains.
    Block,
    /// Stop blocking them.
    Unblock,
    /// Remove every trace of blocking.
    FlushAll,
}

/// The state of the timer. Moments are spans since the program started.
#[derive(Debug)]
pub struct App {
    pub studying: bool,
    pub session_start: Option<Span>,
    pub session_seconds: u64,
    pub progress: Progress,
}

/// What an [`App`] holds.
#[verifier::ext_equal]
pub struct AppView {
    /// Whether a session runs.
    pub studying: bool,
    /// When the session started whose time is not added yet.
    pub session_start: Option<Span>,
    /// Seconds of the session before that moment.
    pub session_seconds: u64,
    /// The study time so far.
    pub progress: ProgressView,
}

impl AppView {
    /// A session is timed from a proper moment on.
    pub open spec fn wf(self) -> bool {
        self.session_start matches Some(start) ==> start.wf()
    }

    /// Whether a session runs whose time is to be added when it ends.
    pub open spec fn timed(self) -> bool {
        self.studying && self.session_start is Some
    }

    /// Whether a session has a start only while it runs, and nothing before it.
    pub open spec fn steady(self) -> bool {
        &&& self.session_start is Some ==> self.studying
        &&& self.session_seconds == 0
    }

    /// The seconds since the start of the session, if it has one, and those before it.
    pub open spec fn session_secs(self, now: Span) -> int {
        match self.session_start {
            Some(start) => start.secs_until(now) + self.session_seconds,
            None => self.session_seconds as int,
        }
    }

    /// The seconds of a day, with those of the session that runs.
    pub open spec fn day_secs(self, now: Span, day: Seq<char>) -> int {
        self.progress.seconds_on(day) + (if self.studying {
            self.session_secs(now)
        } else {
            0
        })
    }

    /// Whether the counters can take the session that is timed, if one is.
    pub open spec fn has_room(self, now: Span, day: Seq<char>) -> bool {
        self.timed() ==> {
            &&& self.session_secs(now) <= u64::MAX
            &&& self.progress.has_room(day, self.session_secs(now) as u64)
        }
    }

    /// The study time with the session that is timed added on that day, if one is.
    pub open spec fn progress_with_session(self, now: Span, day: Seq<char>) -> ProgressView {
        if self.timed() {
            self.progress.credited(day, self.session_secs(now) as u64)
        } else {
            self.progress
        }
    }

    /// The timer after its session was started, or stopped with no time to add.
    pub open spec fn toggled_untimed(self, now: Span) -> AppView {
        if self.studying {
            AppView { studying: false, session_start: None, ..self }
        } else {
            AppView { studying: true, session_start: Some(now), session_seconds: 0, ..self }
        }
    }

    /// The timer after its session was started or stopped.
    pub open spec fn toggled(self, now: Span, day: Seq<char>) -> AppView {
        if self.timed() {
            AppView {
                studying: false,
                session_start: None,
                session_seconds: 0,
                progress: self.progress_with_session(now, day),
            }
        } else {
            self.toggled_untimed(now)
        }
    }

    /// What is to be done when the session is started or stopped.
    pub open spec fn toggle_effects(self) -> Seq<Effect> {
        if !self.studying {
            seq![Effect::Block]
        } else if self.session_start is Some {
            seq![Effect::SaveProgress, Effect::Unblock]
        } else {
            seq![Effect::Unblock]
        }
    }

    /// The timer when the program ends.
    pub open spec fn exited(self, now: Span, day: Seq<char>) -> AppView {
        if self.timed() {
            AppView {
                session_start: None,
                progress: self.progress_with_session(now, day),
                ..self
            }
        } else {
            self
        }
    }

    /// What is to be done when the program ends.
    pub open spec fn exit_effects() -> Seq<Effect> {
        seq![Effect::SaveProgress, Effect::FlushAll]
    }
}

impl View for App {
    type V = AppView;

    open spec fn view(&self) -> AppView {
        AppView {
            studying: self.studying,
            session_start: self.session_start,
            session_seconds: self.session_seconds,
            progress: self.progress@,
        }
    }
}

impl App {
    /// The timer and its study time are well formed.
    pub open spec fn wf(&self) -> bool {
        self@.wf() && self.progress.wf()
    }

    /// A timer without a session, over the study time so far.
    pub fn new(progress: Progress) -> (r: App)
        requires
            progress.wf(),
        ensures
            r.wf(),
            r@.steady(),
            r@ == (AppView {
                studying: false,
                session_start: None,
                session_seconds: 0,
                progress: progress@,
            }),
    {
        App { studying: false, session_start: None, session_seconds: 0, progress }
    }

    /// Starts a session, or stops the one that runs and adds its time on the given day.
    pub fn toggle_study_mode_on(&mut self, now: Span, day: &str) -> (r: Vec<Effect>)
        requires
            old(self).wf(),
            now.wf(),
            old(self)@.has_room(now, day@),
        ensures
            final(self).wf(),
            final(self)@ == old(self)@.toggled(now, day@),
            r@ == old(self)@.toggle_effects(),
            final(self).studying == !old(self).studying,
            final(self).session_start == (if old(self).studying {
                None
            } else {
                Some(now)
            }),
            !(old(self).studying && old(self).session_start is Some) ==> final(self).progress
                == old(self).progress,
    {
        let mut effects: Vec<Effect> = Vec::new();
        if self.studying {
            if self.session_start.is_some() {
                let elapsed: u64 = self.current_session_duration(now).secs;
                self.session_start = None;
                self.progress.add_time_on(day, elapsed);
                effects.push(Effect::SaveProgress);
                self.session_seconds = 0;
            }
            effects.push(Effect::Unblock);
            self.studying = false;
        } else {
            self.session_start = Some(now);
            self.session_seconds = 0;
            effects.push(Effect::Block);
            self.studying = true;
        }
        proof {
            assert(effects@ =~= old(self)@.toggle_effects());
        }
        effects
    }

    /// Starts a session, or stops the one that runs and adds its time on the day that it is now.
    /// Where a counter could not take that time, nothing changes and there is no result. What day
    /// it is matters only where there is time to add.
    pub fn toggle_study_mode(&mut self, now: Span) -> (r: Option<Vec<Effect>>)
        requires
            old(self).wf(),
            now.wf(),
        ensures
            final(self).wf(),
            !old(self)@.timed() ==> {
                &&& r matches Some(effects) && effects@ == old(self)@.toggle_effects()
                &&& final(self)@ == old(self)@.toggled_untimed(now)
            },
            old(self)@.timed() ==> exists|day: Seq<char>| #[trigger]
                is_day_text(day) && is_clock_day(day) && (match r {
                    Some(effects) => old(self)@.has_room(now, day) && effects@
                        == old(self)@.toggle_effects() && final(self)@ == old(self)@.toggled(
                        now,
                        day,
                    ),
                    None => !old(self)@.has_room(now, day) && final(self)@ == old(self)@,
                }),
    {
        if !(self.studying && self.session_start.is_some()) {
            return Some(self.toggle_study_mode_on(now, ""));
        }
        let day = clock_day();
        assert(is_day_text(day@));
        if self.room_on(now, day.as_str()) {
            Some(self.toggle_study_mode_on(now, day.as_str()))
        } else {
            None
        }
    }

    /// Whether the counters can take the session that is timed, if one is, on the given day.
    pub fn room_on(&self, now: Span, day: &str) -> (r: bool)
        requires
            self.wf(),
            now.wf(),
        ensures
            r == self@.has_room(now, day@),
    {
        if self.studying && self.session_start.is_some() {
            match self.checked_session_secs(now) {
                Some(secs) => self.progress.room_on(day, secs),
                None => false,
            }
        } else {
            true
        }
    }

    /// The seconds of the session, where a counter can hold them.
    fn checked_session_secs(&self, now: Span) -> (r: Option<u64>)
        requires
            self.wf(),
            now.wf(),
        ensures
            match r {
                Some(secs) => secs == self@.session_secs(now),
                None => self@.session_secs(now) > u64::MAX,
            },
    {
        match self.session_start {
            Some(start) => start.elapsed_secs(now).checked_add(self.session_seconds),
            None => Some(self.session_seconds),
        }
    }

    /// Whether a counter can hold the seconds of the session.
    pub fn session_fits(&self, now: Span) -> (r: bool)
        requires
            self.wf(),
            now.wf(),
        ensures
            r == (self@.session_secs(now) <= u64::MAX),
    {
        self.checked_session_secs(now).is_some()
    }

    /// The whole seconds of the session: those since its start, if it has one, and those before.
    pub fn current_session_duration(&self, now: Span) -> (r: Span)
        requires
            self.wf(),
            now.wf(),
            self@.session_secs(now) <= u64::MAX,
        ensures
            r.secs == self@.session_secs(now),
            r.nanos == 0,
            self.session_start is None ==> r.secs == self.session_seconds,
            self.session_start matches Some(start) ==> {
                let from = start.secs * 1_000_000_000 + start.nanos;
                let to = now.secs * 1_000_000_000 + now.nanos;
                let counted = r.secs - self.session_seconds;
                &&& from <= to ==> counted * 1_000_000_000 <= to - from < (counted + 1)
                    * 1_000_000_000
                &&& from > to ==> counted == 0
            },
    {
        match self.session_start {
            Some(start) => Span::from_secs(start.elapsed_secs(now) + self.session_seconds),
            None => Span::from_secs(self.session_seconds),
        }
    }

    /// The seconds of the given day, with those of the session that runs.
    pub fn today_duration_on(&self, now: Span, day: &str) -> (r: Span)
        requires
            self.wf(),
            now.wf(),
            self@.day_secs(now, day@) <= u64::MAX,
        ensures
            r.secs == self@.day_secs(now, day@),
            r.nanos == 0,
    {
        let base: u64 = self.progress.seconds_on(day);
        let current: u64 = if self.studying {
            self.current_session_duration(now).secs
        } else {
            0
        };
        Span::from_secs(base + current)
    }

    /// The seconds of the day that it is now, with those of the session that runs. There is no
    /// result where a counter could not hold them.
    pub fn today_duration(&self, now: Span) -> (r: Option<Span>)
        requires
            self.wf(),
            now.wf(),
        ensures
            exists|day: Seq<char>| #[trigger]
                is_day_text(day) && is_clock_day(day) && (match r {
                    Some(shown) => shown.secs == self@.day_secs(now, day) && shown.nanos == 0,
                    None => self@.day_secs(now, day) > u64::MAX,
                }),
    {
        let day = clock_day();
        assert(is_day_text(day@));
        let base: u64 = self.progress.seconds_on(day.as_str());
        let fits = if self.studying {
            match self.checked_session_secs(now) {
                Some(secs) => secs <= u64::MAX - base,
                None => false,
            }
        } else {
            true
        };
        if fits {
            Some(self.today_duration_on(now, day.as_str()))
        } else {
            None
        }
    }

    /// Adds the time of the session that is timed, if one is, on the given day.
    pub fn save_and_exit_on(&mut self, now: Span, day: &str) -> (r: Vec<Effect>)
        requires
            old(self).wf(),
            now.wf(),
            old(self)@.has_room(now, day@),
        ensures
            final(self).wf(),
            final(self)@ == old(self)@.exited(now, day@),
            r@ == AppView::exit_effects(),
    {
        if self.studying {
            if self.session_start.is_some() {
                let elapsed: u64 = self.current_session_duration(now).secs;
                self.session_start = None;
                self.progress.add_time_on(day, elapsed);
            }
        }
        let mut effects: Vec<Effect> = Vec::new();
        effects.push(Effect::SaveProgress);
        effects.push(Effect::FlushAll);
        proof {
            assert(effects@ =~= AppView::exit_effects());
        }
        effects
    }

    /// Adds the time of the session that is timed, if one is, on the day that it is now. Where a
    /// counter could not take that time, nothing changes and there is no result. What day it is
    /// matters only where there is time to add.
    pub fn save_and_exit(&mut self, now: Span) -> (r: Option<Vec<Effect>>)
        requires
            old(self).wf(),
            now.wf(),
        ensures
            final(self).wf(),
            !old(self)@.timed() ==> {
                &&& r matches Some(effects) && effects@ == AppView::exit_effects()
                &&& final(self)@ == old(self)@
            },
            old(self)@.timed() ==> exists|day: Seq<char>| #[trigger]
                is_day_text(day) && is_clock_day(day) && (match r {
                    Some(effects) => old(self)@.has_room(now, day) && effects@
                        == AppView::exit_effects() && final(self)@ == old(self)@.exited(now, day),
                    None => !old(self)@.has_room(now, day) && final(self)@ == old(self)@,
                }),
    {
        if !(self.studying && self.session_start.is_some()) {
            return Some(self.save_and_exit_on(now, ""));
        }
        let day = clock_day();
        assert(is_day_text(day@));
        if self.room_on(now, day.as_str()) {
            Some(self.save_and_exit_on(now, day.as_str()))
        } else {
            None
        }
    }
}

} // verus!
