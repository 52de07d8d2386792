//! Spans of time and how they are shown.

use vstd::prelude::*;
use crate::text::padded;
use crate::text::two_digits;

verus! {

/// The nanoseconds of a second.
pub const NANOS_PER_SEC: u32 = 1_000_000_000;

/// The nanoseconds between two looks at the keyboard.
pub const TICK_NANOS: u32 = 250_000_000;

/// A span of time: whole seconds, and the nanoseconds of the second that has begun.
#[derive(Clone, Copy, Debug, PartialEq, Eq, Structural)]
pub struct Span {
    pub secs: u64,
    pub nanos: u32,
}

impl Span {
    /// The nanoseconds do not make a second.
    pub open spec fn wf(self) -> bool {
        self.nanos < NANOS_PER_SEC
    }

    /// The whole span in nanoseconds.
    pub open spec fn total_nanos(self) -> int {
        self.secs * 1_000_000_000 + self.nanos
    }

    /// The whole seconds from one moment to a later one, both given as spans since a common start;
    /// none where the other is not later.
    pub open spec fn secs_until(self, later: Span) -> int {
        if self.total_nanos() <= later.total_nanos() {
            (later.total_nanos() - self.total_nanos()) / 1_000_000_000
        } else {
            0
        }
    }

    /// So many seconds.
    pub fn from_secs(secs: u64) -> (r: Span)
        ensures
            r == (Span { secs, nanos: 0 }),
            r.wf(),
    {
        Span { secs, nanos: 0 }
    }

    /// The whole seconds from this moment to a later one.
    pub fn elapsed_secs(self, later: Span) -> (r: u64)
        requires
            self.wf(),
            later.wf(),
        ensures
            r == self.secs_until(later),
            self.secs * 1_000_000_000 + self.nanos <= later.secs * 1_000_000_000 + later.nanos ==> r
                * 1_000_000_000 <= (later.secs * 1_000_000_000 + later.nanos) - (self.secs
                * 1_000_000_000 + self.nanos) < (r + 1) * 1_000_000_000,
            self.secs * 1_000_000_000 + self.nanos > later.secs * 1_000_000_000 + later.nanos ==> r
                == 0,
    {
        if later.secs < self.secs {
            0
        } else if later.nanos >= self.nanos {
            later.secs - self.secs
        } else if later.secs > self.secs {
            later.secs - self.secs - 1
        } else {
            0
        }
    }
}

/// How long to wait for a key, in nanoseconds, when the given span has passed since the last tick:
/// what is left of the tick, or nothing.
pub fn poll_timeout(since_tick: Span) -> (r: u32)
    requires
        since_tick.wf(),
    ensures
        r == (if since_tick.total_nanos() < TICK_NANOS {
            TICK_NANOS - since_tick.total_nanos()
        } else {
            0
        }),
        since_tick.secs > 0 || since_tick.nanos >= 250_000_000 ==> r == 0,
        since_tick.secs == 0 && since_tick.nanos < 250_000_000 ==> since_tick.nanos + r
            == 250_000_000,
{
    if since_tick.secs == 0 && since_tick.nanos < TICK_NANOS {
        TICK_NANOS - since_tick.nanos
    } else {
        0
    }
}

/// Whether a tick is over when the given span has passed since it began.
pub fn tick_is_over(since_tick: Span) -> (r: bool)
    requires
        since_tick.wf(),
    ensures
        r == (since_tick.total_nanos() >= TICK_NANOS),
        r <==> since_tick.secs > 0 || since_tick.nanos >= 250_000_000,
{
    since_tick.secs > 0 || since_tick.nanos >= TICK_NANOS
}

/// Hours, minutes and seconds, each at least two digits wide, with colons between them.
pub open spec fn duration_text(total_secs: nat) -> Seq<char> {
    two_digits(total_secs / 3600).push(':') + two_digits(total_secs % 3600 / 60).push(':')
        + two_digits(total_secs % 60)
}

/// A span as hours, minutes and seconds; what is left of a second is not shown.
pub fn format_duration(duration: Span) -> (r: String)
    ensures
        r@ == duration_text(duration.secs as nat),
{
    let total_secs: u64 = duration.secs;
    let hours: u64 = total_secs / 3600;
    let mins: u64 = (total_secs % 3600) / 60;
    let secs: u64 = total_secs % 60;
    let mut out: String = padded(hours);
    out.push(':');
    out.append(padded(mins).as_str());
    out.push(':');
    out.append(padded(secs).as_str());
    proof {
        assert(out@ =~= duration_text(total_secs as nat));
    }
    out
}

} // verus!
