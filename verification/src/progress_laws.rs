//! What holds of study time over several additions.

use vstd::prelude::*;
use crate::day::{day_text, is_date, year_text, Date};
use crate::progress::{
    day_map, days_distinct, has_entry, lemma_day_map_keys, lemma_day_map_value, opt_text,
    stored_progress, Progress, ProgressFile, ProgressView, Stats,
};
use crate::text::{digit, numeral, two_digits};
use crate::text_laws::{
    lemma_digit, lemma_numeral_injective, lemma_two_digits, lemma_two_digits_injective,
};

verus! {

/// Four digits for a year below ten thousand.
proof fn lemma_short_year(y: nat)
    requires
        y < 10000,
    ensures
        year_text(y) == seq![
            digit(y / 1000),
            digit(y / 100 % 10),
            digit(y / 10 % 10),
            digit(y % 10),
        ],
{
    reveal_with_fuel(numeral, 5);
    assert(y / 10 / 10 == y / 100);
    assert(y / 10 / 10 / 10 == y / 1000);
    assert(year_text(y) =~= seq![
        digit(y / 1000),
        digit(y / 100 % 10),
        digit(y / 10 % 10),
        digit(y % 10),
    ]);
}

/// A number below ten thousand is made up of its four digits.
proof fn lemma_four_digits(y: nat)
    requires
        y < 10000,
    ensures
        y / 1000 < 10,
        y == y / 1000 * 1000 + y / 100 % 10 * 100 + y / 10 % 10 * 10 + y % 10,
{
    assert(y / 10 / 10 == y / 100);
    assert(y / 100 / 10 == y / 1000);
}

/// Different years of four digits are written differently.
#[verifier::spinoff_prover]
proof fn lemma_short_year_injective(a: nat, b: nat)
    requires
        a < 10000,
        b < 10000,
        year_text(a) == year_text(b),
    ensures
        a == b,
{
    let s = year_text(a);
    assert(s[0] == digit(a / 1000) && s[1] == digit(a / 100 % 10) && s[2] == digit(a / 10 % 10)
        && s[3] == digit(a % 10)) by {
        lemma_short_year(a);
    }
    assert(s[0] == digit(b / 1000) && s[1] == digit(b / 100 % 10) && s[2] == digit(b / 10 % 10)
        && s[3] == digit(b % 10)) by {
        lemma_short_year(b);
    }
    lemma_four_digits(a);
    lemma_four_digits(b);
    lemma_digit(a / 1000, b / 1000);
    lemma_digit(a / 100 % 10, b / 100 % 10);
    lemma_digit(a / 10 % 10, b / 10 % 10);
    lemma_digit(a % 10, b % 10);
}

/// A year of four digits starts with a digit, a longer one with a plus sign.
proof fn lemma_year_first(y: nat)
    ensures
        year_text(y).len() > 0,
        y < 10000 <==> year_text(y)[0] != '+',
{
    if y < 10000 {
        lemma_short_year(y);
        assert(year_text(y)[0] == digit(y / 1000));
    }
}

/// Different years are written differently.
proof fn lemma_year_injective(a: nat, b: nat)
    requires
        year_text(a) == year_text(b),
    ensures
        a == b,
{
    lemma_year_first(a);
    lemma_year_first(b);
    if a < 10000 {
        lemma_short_year_injective(a, b);
    } else {
        assert(year_text(a).skip(1) =~= numeral(a));
        assert(year_text(b).skip(1) =~= numeral(b));
        lemma_numeral_injective(a, b);
    }
}

/// Every day has a text of its own, so that the time of two days is never counted together.
pub proof fn law_days_have_their_own_text(a: Date, b: Date)
    requires
        is_date(a),
        is_date(b),
        day_text(a) == day_text(b),
    ensures
        a == b,
{
    lemma_two_digits(a.month);
    lemma_two_digits(b.month);
    lemma_two_digits(a.day);
    lemma_two_digits(b.day);
    let s = day_text(a);
    let n = year_text(a.year).len() as int;
    assert(s.len() == n + 6);
    assert(s.take(n) =~= year_text(a.year));
    assert(s.take(n) =~= year_text(b.year));
    lemma_year_injective(a.year, b.year);
    assert(s.subrange(n + 1, n + 3) =~= two_digits(a.month));
    assert(s.subrange(n + 1, n + 3) =~= two_digits(b.month));
    assert(s.subrange(n + 4, n + 6) =~= two_digits(a.day));
    assert(s.subrange(n + 4, n + 6) =~= two_digits(b.day));
    lemma_two_digits_injective(a.month, b.month);
    lemma_two_digits_injective(a.day, b.day);
}

/// What is added on a day is read back on that day, and no other day changes. The total grows by
/// as much.
pub proof fn law_added_time_is_read_back(p: ProgressView, day: Seq<char>, seconds: u64)
    requires
        p.has_room(day, seconds),
    ensures
        p.credited(day, seconds).seconds_on(day) == p.seconds_on(day) + seconds,
        forall|other: Seq<char>|
            other != day ==> #[trigger] p.credited(day, seconds).seconds_on(other) == p.seconds_on(
                other,
            ),
        p.credited(day, seconds).total == p.total + seconds,
{
}

/// Time added on one date does not show on another.
pub proof fn law_dates_are_kept_apart(p: ProgressView, date: Date, other: Date, seconds: u64)
    requires
        is_date(date),
        is_date(other),
        date != other,
        p.has_room(day_text(date), seconds),
    ensures
        p.credited(day_text(date), seconds).seconds_on(day_text(other)) == p.seconds_on(
            day_text(other),
        ),
{
    if day_text(date) == day_text(other) {
        law_days_have_their_own_text(date, other);
    }
}

/// Two additions on one day come to one addition of both.
pub proof fn law_additions_on_a_day_add_up(p: ProgressView, day: Seq<char>, a: u64, b: u64)
    requires
        a + b <= u64::MAX,
        p.has_room(day, (a + b) as u64),
    ensures
        p.has_room(day, a),
        p.credited(day, a).has_room(day, b),
        p.credited(day, a).credited(day, b) == p.credited(day, (a + b) as u64),
{
    assert(p.credited(day, a).credited(day, b).daily =~= p.credited(day, (a + b) as u64).daily);
}

/// The sum of all days.
pub open spec fn sum_of_days(daily: Map<Seq<char>, u64>) -> int
    decreases daily.dom().len(),
    when daily.dom().finite()
{
    if daily.dom().len() == 0 {
        0
    } else {
        let day = daily.dom().choose();
        daily[day] + sum_of_days(daily.remove(day))
    }
}

/// Any day may be taken out first.
proof fn lemma_sum_remove(daily: Map<Seq<char>, u64>, day: Seq<char>)
    requires
        daily.dom().finite(),
        daily.contains_key(day),
    ensures
        sum_of_days(daily) == daily[day] + sum_of_days(daily.remove(day)),
    decreases daily.dom().len(),
{
    let first = daily.dom().choose();
    assert(daily.dom().contains(day));
    if first != day {
        let rest = daily.remove(first);
        assert(rest.dom() =~= daily.dom().remove(first));
        lemma_sum_remove(rest, day);
        let other = daily.remove(day);
        assert(other.dom() =~= daily.dom().remove(day));
        lemma_sum_remove(other, first);
        assert(rest.remove(day) =~= other.remove(first));
    }
}

/// Where the total is the sum of all days, it still is after an addition.
pub proof fn law_total_is_the_sum_of_days(p: ProgressView, day: Seq<char>, seconds: u64)
    requires
        p.daily.dom().finite(),
        p.total == sum_of_days(p.daily),
        p.has_room(day, seconds),
    ensures
        p.credited(day, seconds).daily.dom().finite(),
        p.credited(day, seconds).total == sum_of_days(p.credited(day, seconds).daily),
{
    let after = p.credited(day, seconds).daily;
    assert(after.dom() =~= p.daily.dom().insert(day));
    lemma_sum_remove(after, day);
    assert(after.remove(day) =~= p.daily.remove(day));
    if p.daily.contains_key(day) {
        lemma_sum_remove(p.daily, day);
    } else {
        assert(p.daily.remove(day) =~= p.daily);
    }
}

/// The study time of a program has finitely many days.
pub proof fn law_days_are_finite(entries: Seq<(String, u64)>)
    ensures
        day_map(entries).dom().finite(),
    decreases entries.len(),
{
    if entries.len() > 0 {
        law_days_are_finite(entries.drop_last());
        assert(day_map(entries).dom() =~= day_map(entries.drop_last()).dom().insert(
            entries.last().0@,
        ));
    }
}

/// The study time after a list of additions, each on a day, to no study time.
pub open spec fn after_additions(additions: Seq<(Seq<char>, u64)>) -> ProgressView
    decreases additions.len(),
{
    if additions.len() == 0 {
        ProgressView::empty()
    } else {
        after_additions(additions.drop_last()).credited(additions.last().0, additions.last().1)
    }
}

/// The seconds of a list of additions.
pub open spec fn added_secs(additions: Seq<(Seq<char>, u64)>) -> int
    decreases additions.len(),
{
    if additions.len() == 0 {
        0
    } else {
        added_secs(additions.drop_last()) + additions.last().1
    }
}

/// No day has more seconds than the sum of all.
proof fn lemma_day_within_sum(daily: Map<Seq<char>, u64>, day: Seq<char>)
    requires
        daily.dom().finite(),
        daily.contains_key(day),
    ensures
        daily[day] <= sum_of_days(daily),
    decreases daily.dom().len(),
{
    lemma_sum_remove(daily, day);
    assert(daily.remove(day).dom() =~= daily.dom().remove(day));
    lemma_sum_not_negative(daily.remove(day));
}

/// The sum of all days is not negative.
proof fn lemma_sum_not_negative(daily: Map<Seq<char>, u64>)
    requires
        daily.dom().finite(),
    ensures
        sum_of_days(daily) >= 0,
    decreases daily.dom().len(),
{
    if daily.dom().len() > 0 {
        let day = daily.dom().choose();
        assert(daily.remove(day).dom() =~= daily.dom().remove(day));
        lemma_sum_not_negative(daily.remove(day));
    }
}

/// However study time came together from nothing, the total is the sum of all days and the sum of
/// what was added, and there was room for it all, as long as a counter can hold that sum.
pub proof fn law_every_second_is_counted_once(additions: Seq<(Seq<char>, u64)>)
    requires
        added_secs(additions) <= u64::MAX,
    ensures
        after_additions(additions).daily.dom().finite(),
        after_additions(additions).total == added_secs(additions),
        after_additions(additions).total == sum_of_days(after_additions(additions).daily),
        additions.len() > 0 ==> after_additions(additions.drop_last()).has_room(
            additions.last().0,
            additions.last().1,
        ),
    decreases additions.len(),
{
    if additions.len() == 0 {
        assert(ProgressView::empty().daily.dom() =~= Set::<Seq<char>>::empty());
    } else {
        let before = after_additions(additions.drop_last());
        let (day, seconds) = additions.last();
        law_every_second_is_counted_once(additions.drop_last());
        if before.daily.contains_key(day) {
            lemma_day_within_sum(before.daily, day);
        }
        law_total_is_the_sum_of_days(before, day, seconds);
    }
}

/// The entries of a list without repeated days are those of its map.
proof fn lemma_entries_are_map(entries: Seq<(String, u64)>, day: Seq<char>, seconds: u64)
    requires
        days_distinct(entries),
    ensures
        has_entry(entries, day, seconds) <==> day_map(entries).contains_key(day) && day_map(
            entries,
        )[day] == seconds,
{
    lemma_day_map_keys(entries, day);
    if has_entry(entries, day, seconds) {
        let i = choose|i: int|
            0 <= i < entries.len() && (#[trigger] entries[i]).0@ == day && entries[i].1 == seconds;
        lemma_day_map_value(entries, i);
    }
    if day_map(entries).contains_key(day) {
        let i = choose|i: int| 0 <= i < entries.len() && (#[trigger] entries[i]).0@ == day;
        lemma_day_map_value(entries, i);
    }
}

/// Study time that is saved and read back loads as it was: the total, the last day or that there is
/// none, and every day. A file may list the days in another order, as long as it lists each once
/// with its seconds.
pub proof fn law_saved_progress_loads_as_it_was(
    p: Progress,
    stats: Stats,
    daily: Vec<(String, u64)>,
)
    requires
        p.wf(),
        stats.total_seconds == p.stats.total_seconds,
        opt_text(stats.last_date) == opt_text(p.stats.last_date),
        days_distinct(daily@),
        forall|day: Seq<char>, seconds: u64| #[trigger]
            has_entry(daily@, day, seconds) <==> has_entry(p.daily@, day, seconds),
    ensures
        stored_progress(ProgressFile::Parsed { stats: Some(stats), daily: Some(daily) }) == p@,
{
    let read = day_map(daily@);
    let held = day_map(p.daily@);
    assert forall|day: Seq<char>| #[trigger] read.contains_key(day) <==> held.contains_key(day) by {
        if read.contains_key(day) {
            lemma_entries_are_map(daily@, day, read[day]);
            lemma_entries_are_map(p.daily@, day, read[day]);
            assert(has_entry(daily@, day, read[day]));
        }
        if held.contains_key(day) {
            lemma_entries_are_map(daily@, day, held[day]);
            lemma_entries_are_map(p.daily@, day, held[day]);
            assert(has_entry(daily@, day, held[day]));
        }
    }
    assert forall|day: Seq<char>| read.contains_key(day) implies #[trigger] read[day]
        == held[day] by {
        lemma_entries_are_map(daily@, day, read[day]);
        lemma_entries_are_map(p.daily@, day, read[day]);
        assert(has_entry(daily@, day, read[day]));
    }
    assert(read =~= held);
}

/// What study time holds is what its parts say: the total, the last day, and for each entry its
/// seconds; a day without an entry has none.
pub proof fn law_every_entry_counts(p: Progress, day: Seq<char>)
    requires
        p.wf(),
    ensures
        p@.total == p.stats.total_seconds,
        p.stats.last_date is None ==> p@.last_date is None,
        p.stats.last_date matches Some(last) ==> p@.last_date == Some(last@),
        forall|i: int|
            0 <= i < p.daily@.len() && (#[trigger] p.daily@[i]).0@ == day ==> p@.seconds_on(day)
                == p.daily@[i].1,
        (forall|i: int| 0 <= i < p.daily@.len() ==> (#[trigger] p.daily@[i]).0@ != day)
            ==> p@.seconds_on(day) == 0,
{
    lemma_day_map_keys(p.daily@, day);
    assert forall|i: int| 0 <= i < p.daily@.len() && (#[trigger] p.daily@[i]).0@ == day implies p@
        .seconds_on(day) == p.daily@[i].1 by {
        lemma_day_map_value(p.daily@, i);
    }
}

/// An addition finds room exactly where the total and the day can take it, makes the day the last
/// one, and gives no other day an entry.
pub proof fn law_addition_is_all_that_changes(p: ProgressView, day: Seq<char>, seconds: u64)
    ensures
        p.has_room(day, seconds) <==> p.total + seconds <= u64::MAX && p.seconds_on(day) + seconds
            <= u64::MAX,
        p.credited(day, seconds).last_date == Some(day),
        p.has_room(day, seconds) ==> p.credited(day, seconds).daily.contains_key(day) && p.credited(
            day,
            seconds,
        ).daily[day] == p.seconds_on(day) + seconds,
        forall|other: Seq<char>|
            other != day ==> (#[trigger] p.credited(day, seconds).daily.contains_key(other)
                <==> p.daily.contains_key(other)),
        forall|other: Seq<char>|
            other != day && p.daily.contains_key(other) ==> #[trigger] p.credited(
                day,
                seconds,
            ).daily[other] == p.daily[other],
{
}

/// Each part that a file has loads by itself, whatever the other is, and a part that it lacks is
/// empty; so is everything where there is no file or nothing can be made of it.
pub proof fn law_parts_of_a_file_load_by_themselves(
    stats: Option<Stats>,
    daily: Option<Vec<(String, u64)>>,
    day: Seq<char>,
)
    requires
        daily is Some ==> days_distinct(daily->0@),
    ensures
        ({
            let p = stored_progress(ProgressFile::Parsed { stats, daily });
            &&& stats is None ==> p.total == 0 && p.last_date is None
            &&& stats matches Some(s) ==> p.total == s.total_seconds && (p.last_date is Some
                <==> s.last_date is Some) && (s.last_date matches Some(last) ==> p.last_date
                == Some(last@))
            &&& daily is None ==> p.seconds_on(day) == 0
            &&& daily matches Some(entries) ==> {
                &&& forall|i: int|
                    0 <= i < entries@.len() && (#[trigger] entries@[i]).0@ == day ==> p.seconds_on(
                        day,
                    ) == entries@[i].1
                &&& (forall|i: int| 0 <= i < entries@.len() ==> (#[trigger] entries@[i]).0@ != day)
                    ==> p.seconds_on(day) == 0
            }
        }),
        stored_progress(ProgressFile::Missing).total == 0,
        stored_progress(ProgressFile::Missing).last_date is None,
        stored_progress(ProgressFile::Missing).seconds_on(day) == 0,
        stored_progress(ProgressFile::Malformed) == stored_progress(ProgressFile::Missing),
{
    if daily is Some {
        let entries = daily->0@;
        lemma_day_map_keys(entries, day);
        assert forall|i: int| 0 <= i < entries.len() && (
        #[trigger] entries[i]).0@ == day implies stored_progress(
            ProgressFile::Parsed { stats, daily },
        ).seconds_on(day) == entries[i].1 by {
            lemma_day_map_value(entries, i);
        }
    }
}

} // verus!
