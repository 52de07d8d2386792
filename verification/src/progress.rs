//! Study time, in total and by day.

use vstd::prelude::*;
use crate::day::clock_day;
use crate::day::{is_clock_day, is_day_text};
use crate::paths::Location;

verus! {

/// The total and the day on which it last grew.
#[derive(Debug)]
pub struct Stats {
    pub total_seconds: u64,
    pub last_date: Option<String>,
}

/// The study time so far.
#[derive(Debug)]
pub struct Progress {
    pub stats: Stats,
    pub daily: Vec<(String, u64)>,
}

/// What a [`Progress`] holds.
#[verifier::ext_equal]
pub struct ProgressView {
    /// The seconds of all days.
    pub total: u64,
    /// The day on which time was last added.
    pub last_date: Option<Seq<char>>,
    /// The seconds of each day.
    pub daily: Map<Seq<char>, u64>,
}

/// The map that a list of entries spells out; of two entries for one day the later counts.
pub open spec fn day_map(entries: Seq<(String, u64)>) -> Map<Seq<char>, u64>
    decreases entries.len(),
{
    if entries.len() == 0 {
        Map::empty()
    } else {
        day_map(entries.drop_last()).insert(entries.last().0@, entries.last().1)
    }
}

/// Whether no day occurs twice.
pub open spec fn days_distinct(entries: Seq<(String, u64)>) -> bool {
    forall|i: int, j: int|
        0 <= i < j < entries.len() ==> (#[trigger] entries[i]).0@ != (#[trigger] entries[j]).0@
}

/// Whether an entry gives the day these seconds.
pub open spec fn has_entry(entries: Seq<(String, u64)>, day: Seq<char>, seconds: u64) -> bool {
    exists|i: int|
        0 <= i < entries.len() && (#[trigger] entries[i]).0@ == day && entries[i].1 == seconds
}

/// What an optional text says.
pub open spec fn opt_text(t: Option<String>) -> Option<Seq<char>> {
    match t {
        Some(s) => Some(s@),
        None => None,
    }
}

impl ProgressView {
    /// No study time.
    pub open spec fn empty() -> ProgressView {
        ProgressView { total: 0, last_date: None, daily: Map::empty() }
    }

    /// The seconds of a day, none where it has no entry.
    pub open spec fn seconds_on(self, day: Seq<char>) -> u64 {
        if self.daily.contains_key(day) {
            self.daily[day]
        } else {
            0
        }
    }

    /// Whether the counters can take the seconds on that day.
    pub open spec fn has_room(self, day: Seq<char>, seconds: u64) -> bool {
        &&& self.total + seconds <= u64::MAX
        &&& self.seconds_on(day) + seconds <= u64::MAX
    }

    /// The study time with the seconds added on that day.
    pub open spec fn credited(self, day: Seq<char>, seconds: u64) -> ProgressView {
        ProgressView {
            total: (self.total + seconds) as u64,
            last_date: Some(day),
            daily: self.daily.insert(day, (self.seconds_on(day) + seconds) as u64),
        }
    }
}

impl View for Progress {
    type V = ProgressView;

    open spec fn view(&self) -> ProgressView {
        ProgressView {
            total: self.stats.total_seconds,
            last_date: opt_text(self.stats.last_date),
            daily: day_map(self.daily@),
        }
    }
}

/// What the file with the study time holds.
pub enum ProgressFile {
    /// There is no file.
    Missing,
    /// The file says nothing that can be read as study time.
    Malformed,
    /// The parts that the file has.
    Parsed { stats: Option<Stats>, daily: Option<Vec<(String, u64)>> },
}

/// The study time that a file holds.
pub open spec fn stored_progress(file: ProgressFile) -> ProgressView {
    match file {
        ProgressFile::Parsed { stats, daily } => ProgressView {
            total: match stats {
                Some(s) => s.total_seconds,
                None => 0,
            },
            last_date: match stats {
                Some(s) => opt_text(s.last_date),
                None => None,
            },
            daily: match daily {
                Some(entries) => day_map(entries@),
                None => Map::empty(),
            },
        },
        _ => ProgressView::empty(),
    }
}

/// The days of the map are those of the entries.
pub proof fn lemma_day_map_keys(entries: Seq<(String, u64)>, day: Seq<char>)
    ensures
        day_map(entries).contains_key(day) <==> exists|i: int|
            0 <= i < entries.len() && (#[trigger] entries[i]).0@ == day,
    decreases entries.len(),
{
    if entries.len() > 0 {
        let front = entries.drop_last();
        lemma_day_map_keys(front, day);
        if day_map(entries).contains_key(day) {
            if entries.last().0@ == day {
                assert(entries[entries.len() - 1].0@ == day);
            } else {
                let i = choose|i: int| 0 <= i < front.len() && (#[trigger] front[i]).0@ == day;
                assert(entries[i].0@ == day);
            }
        }
        if exists|i: int| 0 <= i < entries.len() && (#[trigger] entries[i]).0@ == day {
            let i = choose|i: int| 0 <= i < entries.len() && (#[trigger] entries[i]).0@ == day;
            if i < front.len() {
                assert(front[i].0@ == day);
            }
        }
    }
}

/// An entry whose day occurs once gives the seconds of that day.
pub proof fn lemma_day_map_value(entries: Seq<(String, u64)>, i: int)
    requires
        days_distinct(entries),
        0 <= i < entries.len(),
    ensures
        day_map(entries).contains_key(entries[i].0@),
        day_map(entries)[entries[i].0@] == entries[i].1,
    decreases entries.len(),
{
    let front = entries.drop_last();
    if i < entries.len() - 1 {
        assert(days_distinct(front)) by {
            assert forall|a: int, b: int| 0 <= a < b < front.len() implies (
            #[trigger] front[a]).0@ != (#[trigger] front[b]).0@ by {
                assert(entries[a].0@ != entries[b].0@);
            }
        }
        lemma_day_map_value(front, i);
        assert(front[i] == entries[i]);
        assert(entries[i].0@ != entries[entries.len() - 1].0@);
    }
}

/// Changing the seconds of an entry whose day occurs once changes those of that day alone.
proof fn lemma_day_map_update(entries: Seq<(String, u64)>, i: int, entry: (String, u64))
    requires
        days_distinct(entries),
        0 <= i < entries.len(),
        entry.0@ == entries[i].0@,
    ensures
        days_distinct(entries.update(i, entry)),
        day_map(entries.update(i, entry)) == day_map(entries).insert(entry.0@, entry.1),
    decreases entries.len(),
{
    let changed = entries.update(i, entry);
    let front = entries.drop_last();
    assert forall|a: int, b: int| 0 <= a < b < changed.len() implies (#[trigger] changed[a]).0@ != (
    #[trigger] changed[b]).0@ by {
        assert(entries[a].0@ != entries[b].0@);
    }
    if i < entries.len() - 1 {
        assert(days_distinct(front)) by {
            assert forall|a: int, b: int| 0 <= a < b < front.len() implies (
            #[trigger] front[a]).0@ != (#[trigger] front[b]).0@ by {
                assert(entries[a].0@ != entries[b].0@);
            }
        }
        lemma_day_map_update(front, i, entry);
        assert(changed.drop_last() =~= front.update(i, entry));
        assert(entries[i].0@ != entries[entries.len() - 1].0@);
        assert(day_map(changed) =~= day_map(entries).insert(entry.0@, entry.1));
    } else {
        assert(changed.drop_last() =~= front);
        assert(day_map(changed) =~= day_map(entries).insert(entry.0@, entry.1));
    }
}

/// Sets the seconds of a day among the entries.
fn set_seconds(entries: &mut Vec<(String, u64)>, day: &str, seconds: u64)
    requires
        days_distinct(old(entries)@),
    ensures
        days_distinct(final(entries)@),
        day_map(final(entries)@) == day_map(old(entries)@).insert(day@, seconds),
{
    match find_day(entries, day) {
        Some(i) => {
            proof {
                lemma_day_map_update(entries@, i as int, (entries@[i as int].0, seconds));
            }
            let name = entries[i].0.clone();
            entries.set(i, (name, seconds));
        },
        None => {
            let ghost was = entries@;
            entries.push((day.to_string(), seconds));
            proof {
                assert(entries@.drop_last() =~= was);
                assert forall|a: int, b: int| 0 <= a < b < entries@.len() implies (
                #[trigger] entries@[a]).0@ != (#[trigger] entries@[b]).0@ by {
                    if b < was.len() {
                        assert(was[a].0@ != was[b].0@);
                    } else {
                        assert(was[a].0@ != day@);
                    }
                }
            }
        },
    }
}

/// Where the entry of a day stands.
fn find_day(entries: &Vec<(String, u64)>, day: &str) -> (r: Option<usize>)
    ensures
        r matches Some(i) ==> i < entries@.len() && entries@[i as int].0@ == day@,
        r is None ==> forall|i: int|
            0 <= i < entries@.len() ==> (#[trigger] entries@[i]).0@ != day@,
{
    let name: String = day.to_string();
    let mut i: usize = 0;
    while i < entries.len()
        invariant
            name@ == day@,
            i <= entries@.len(),
            forall|j: int| 0 <= j < i ==> (#[trigger] entries@[j]).0@ != day@,
        decreases entries@.len() - i,
    {
        if entries[i].0 == name {
            return Some(i);
        }
        i = i + 1;
    }
    None
}

impl Default for Progress {
    /// No study time.
    fn default() -> (r: Progress)
        ensures
            r.wf(),
            r@ == ProgressView::empty(),
    {
        Progress { stats: Stats { total_seconds: 0, last_date: None }, daily: Vec::new() }
    }
}

impl Progress {
    /// No day has two entries.
    pub open spec fn wf(&self) -> bool {
        days_distinct(self.daily@)
    }

    /// Where the file with the study time stands, in the directory for configuration files. The
    /// directory that holds it is made first.
    pub fn config_path<P>(config_dir: Location<P>) -> (r: (Location<P>, &'static str))
        ensures
            r.0@ == config_dir@.join("study-time"@),
            r.1@ == "progress.toml"@,
    {
        (config_dir.join("study-time"), "progress.toml")
    }

    /// The study time that a file holds; none where there is no such file or nothing can be made
    /// of it.
    pub fn load(file: ProgressFile) -> (r: Progress)
        ensures
            r.wf(),
            r@ == stored_progress(file),
    {
        let mut r = Progress::default();
        match file {
            ProgressFile::Parsed { stats, daily } => {
                match stats {
                    Some(s) => {
                        r.stats = s;
                    },
                    None => {},
                }
                match daily {
                    Some(entries) => {
                        let mut i: usize = 0;
                        proof {
                            assert(entries@.take(0) =~= Seq::<(String, u64)>::empty());
                        }
                        while i < entries.len()
                            invariant
                                r.wf(),
                                i <= entries@.len(),
                                day_map(r.daily@) == day_map(entries@.take(i as int)),
                                r.stats.total_seconds == (match stats {
                                    Some(s) => s.total_seconds,
                                    None => 0,
                                }),
                                opt_text(r.stats.last_date) == (match stats {
                                    Some(s) => opt_text(s.last_date),
                                    None => None,
                                }),
                            decreases entries@.len() - i,
                        {
                            proof {
                                assert(entries@.take(i + 1).drop_last() =~= entries@.take(
                                    i as int,
                                ));
                            }
                            set_seconds(&mut r.daily, entries[i].0.as_str(), entries[i].1);
                            i = i + 1;
                        }
                        proof {
                            assert(entries@.take(entries@.len() as int) =~= entries@);
                        }
                    },
                    None => {},
                }
            },
            _ => {},
        }
        r
    }

    /// What the file with the study time is to hold.
    pub fn save(&self) -> (r: ProgressFile)
        ensures
            r matches ProgressFile::Parsed { stats: Some(stats), daily: Some(daily) }
                && stats.total_seconds == self.stats.total_seconds && opt_text(stats.last_date)
                == opt_text(self.stats.last_date) && daily@ == self.daily@,
            stored_progress(r) == self@,
    {
        let mut daily: Vec<(String, u64)> = Vec::new();
        let mut i: usize = 0;
        while i < self.daily.len()
            invariant
                i <= self.daily@.len(),
                daily@ == self.daily@.take(i as int),
            decreases self.daily@.len() - i,
        {
            daily.push((self.daily[i].0.clone(), self.daily[i].1));
            proof {
                assert(daily@ =~= self.daily@.take(i + 1));
            }
            i = i + 1;
        }
        proof {
            assert(self.daily@.take(self.daily@.len() as int) =~= self.daily@);
        }
        let last_date = match &self.stats.last_date {
            Some(day) => Some(day.clone()),
            None => None,
        };
        let stats = Stats { total_seconds: self.stats.total_seconds, last_date };
        ProgressFile::Parsed { stats: Some(stats), daily: Some(daily) }
    }

    /// Adds seconds to the total and to a day, which becomes the last one.
    pub fn add_time_on(&mut self, day: &str, seconds: u64)
        requires
            old(self).wf(),
            old(self)@.has_room(day@, seconds),
        ensures
            final(self).wf(),
            final(self)@ == old(self)@.credited(day@, seconds),
            final(self).stats.total_seconds == old(self).stats.total_seconds + seconds,
            opt_text(final(self).stats.last_date) == Some(day@),
    {
        let before: u64 = self.seconds_on(day);
        self.stats.last_date = Some(day.to_string());
        self.stats.total_seconds = self.stats.total_seconds + seconds;
        set_seconds(&mut self.daily, day, before + seconds);
    }

    /// Adds seconds to the total and to the day that it is now. Where a counter could not take
    /// them, nothing changes and the result is false.
    pub fn add_time(&mut self, seconds: u64) -> (r: bool)
        requires
            old(self).wf(),
        ensures
            final(self).wf(),
            exists|day: Seq<char>| #[trigger]
                is_day_text(day) && is_clock_day(day) && r == old(self)@.has_room(day, seconds)
                    && final(self)@ == (if r {
                    old(self)@.credited(day, seconds)
                } else {
                    old(self)@
                }),
    {
        let day = clock_day();
        if self.room_on(day.as_str(), seconds) {
            self.add_time_on(day.as_str(), seconds);
            assert(is_day_text(day@));
            true
        } else {
            assert(is_day_text(day@));
            false
        }
    }

    /// Whether the counters can take the seconds on that day.
    pub fn room_on(&self, day: &str, seconds: u64) -> (r: bool)
        requires
            self.wf(),
        ensures
            r == self@.has_room(day@, seconds),
    {
        seconds <= u64::MAX - self.stats.total_seconds && seconds <= u64::MAX - self.seconds_on(day)
    }

    /// The seconds of a day, none where it has no entry.
    pub fn seconds_on(&self, day: &str) -> (r: u64)
        requires
            self.wf(),
        ensures
            r == self@.seconds_on(day@),
    {
        proof {
            lemma_day_map_keys(self.daily@, day@);
        }
        match find_day(&self.daily, day) {
            Some(i) => {
                proof {
                    lemma_day_map_value(self.daily@, i as int);
                }
                self.daily[i].1
            },
            None => 0,
        }
    }

    /// The seconds of the day that it is now.
    pub fn today_seconds(&self) -> (r: u64)
        requires
            self.wf(),
        ensures
            exists|day: Seq<char>| #[trigger]
                is_day_text(day) && is_clock_day(day) && r == self@.seconds_on(day),
    {
        let day = clock_day();
        let r: u64 = self.seconds_on(day.as_str());
        assert(is_day_text(day@));
        r
    }
}

} // verus!
