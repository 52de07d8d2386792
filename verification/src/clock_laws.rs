//! What spans of time come to, and how the time that is shown reads.

use vstd::prelude::*;
use crate::clock::{duration_text, Span};
use crate::text::two_digits;
use crate::text_laws::{all_digits, law_padded_numeral_stands_for_its_number, value_of};

verus! {

/// The whole seconds between two moments are as many as fit between them: that many seconds have
/// passed, and one more has not. Nothing has passed where the second moment is not the later one.
pub proof fn law_whole_seconds_between(start: Span, later: Span)
    ensures
        start.secs * 1_000_000_000 + start.nanos <= later.secs * 1_000_000_000 + later.nanos ==> {
            let passed = (later.secs * 1_000_000_000 + later.nanos) - (start.secs * 1_000_000_000
                + start.nanos);
            start.secs_until(later) * 1_000_000_000 <= passed < (start.secs_until(later) + 1)
                * 1_000_000_000
        },
        start.secs * 1_000_000_000 + start.nanos > later.secs * 1_000_000_000 + later.nanos
            ==> start.secs_until(later) == 0,
{
}

/// Seconds that are counted to a moment between and from there on come to those of the whole way,
/// but for one that neither part fills.
pub proof fn law_seconds_add_up(start: Span, between: Span, later: Span)
    requires
        start.total_nanos() <= between.total_nanos(),
        between.total_nanos() <= later.total_nanos(),
    ensures
        0 <= start.secs_until(later) - start.secs_until(between) - between.secs_until(later) <= 1,
{
}

/// Moments that are both put off by the same whole seconds are as far apart as before, and each
/// second by which the later one alone is put off counts.
pub proof fn law_every_second_counts(start: Span, later: Span, more: u64)
    requires
        later.secs + more <= u64::MAX,
        start.secs + more <= u64::MAX,
        start.total_nanos() <= later.total_nanos(),
    ensures
        start.secs_until(Span { secs: (later.secs + more) as u64, nanos: later.nanos })
            == start.secs_until(later) + more,
        (Span { secs: (start.secs + more) as u64, nanos: start.nanos }).secs_until(
            Span { secs: (later.secs + more) as u64, nanos: later.nanos },
        ) == start.secs_until(later),
{
    let moved = Span { secs: (later.secs + more) as u64, nanos: later.nanos };
    let ahead = Span { secs: (start.secs + more) as u64, nanos: start.nanos };
    assert(moved.total_nanos() == later.total_nanos() + more * 1_000_000_000);
    assert(ahead.total_nanos() == start.total_nanos() + more * 1_000_000_000);
}

/// Whether a text has the form of hours, minutes and seconds with colons between them: the hours in
/// two digits or as many as they need, the minutes and seconds in two and below sixty.
pub open spec fn is_clock_text(t: Seq<char>) -> bool {
    let n = t.len() as int;
    &&& n >= 8
    &&& t[n - 3] == ':'
    &&& t[n - 6] == ':'
    &&& all_digits(t.take(n - 6))
    &&& all_digits(t.subrange(n - 5, n - 3))
    &&& all_digits(t.skip(n - 2))
    &&& n > 8 ==> t[0] != '0'
    &&& value_of(t.subrange(n - 5, n - 3)) < 60
    &&& value_of(t.skip(n - 2)) < 60
}

/// The seconds that hours, minutes and seconds come to.
pub open spec fn clock_secs(t: Seq<char>) -> int {
    let n = t.len() as int;
    value_of(t.take(n - 6)) * 3600 + value_of(t.subrange(n - 5, n - 3)) * 60 + value_of(t.skip(n - 2))
}

/// A duration is shown as hours, minutes and seconds that come to it: what is shown can be read back.
pub proof fn law_shown_duration_reads_back(total_secs: nat)
    ensures
        is_clock_text(duration_text(total_secs)),
        clock_secs(duration_text(total_secs)) == total_secs,
{
    let h = total_secs / 3600;
    let m = total_secs % 3600 / 60;
    let s = total_secs % 60;
    law_padded_numeral_stands_for_its_number(h);
    law_padded_numeral_stands_for_its_number(m);
    law_padded_numeral_stands_for_its_number(s);
    let t = duration_text(total_secs);
    let n = t.len() as int;
    assert(t.take(n - 6) =~= two_digits(h));
    assert(t.subrange(n - 5, n - 3) =~= two_digits(m));
    assert(t.skip(n - 2) =~= two_digits(s));
    assert(n > 8 ==> t[0] == two_digits(h)[0]);
    assert(total_secs % 3600 % 60 == s);
}

} // verus!
