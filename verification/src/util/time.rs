//! Instants and durations with nanosecond resolution.

use vstd::prelude::*;

use crate::outside;
#[allow(unused_imports)]
use crate::util::text::dec;
use crate::util::text::{cat2, dec_u64};

verus! {

pub const NANOS: u128 = 1_000_000_000;

/// A length of time, in nanoseconds.
#[derive(Clone, Copy, Debug, PartialEq, Eq, Structural)]
pub struct Duration {
    pub ns: u128,
}

impl Duration {
    pub fn from_secs(secs: u64) -> (r: Duration)
        ensures
            r.ns == secs * 1_000_000_000,
    {
        Duration { ns: secs as u128 * 1_000_000_000 }
    }

    pub fn zero() -> (r: Duration)
        ensures
            r.ns == 0,
    {
        Duration { ns: 0 }
    }

    /// The whole seconds of this duration, as far as 64 bits hold them.
    pub fn as_secs(&self) -> (r: u64)
        ensures
            r == if self.ns / 1_000_000_000 <= u64::MAX {
                (self.ns / 1_000_000_000) as int
            } else {
                u64::MAX as int
            },
    {
        let s: u128 = self.ns / 1_000_000_000;
        if s <= u64::MAX as u128 {
            s as u64
        } else {
            u64::MAX
        }
    }
}

/// An instant, in nanoseconds since 1970-01-01T00:00:00Z.
#[derive(Clone, Copy, Debug, PartialEq, Eq, Structural)]
pub struct Timestamp {
    pub ns: i128,
}

/// The whole seconds of `ns` nanoseconds, rounded towards zero.
pub open spec fn whole_seconds(ns: int) -> int {
    if ns >= 0 {
        ns / 1_000_000_000
    } else {
        -((-ns) / 1_000_000_000)
    }
}

/// The earliest and the latest instant that a calendar date with a four-digit year can have in
/// some time zone, in nanoseconds.
pub const MIN_NS: i128 = -377_705_023_201_000_000_000;

pub const MAX_NS: i128 = 253_402_207_200_999_999_999;

/// Whether an instant is one that calendars can name.
pub open spec fn in_calendar(ns: int) -> bool {
    MIN_NS <= ns <= MAX_NS
}

impl Timestamp {
    /// The earliest instant.
    pub fn min() -> (r: Timestamp)
        ensures
            r.ns == MIN_NS,
    {
        Timestamp { ns: MIN_NS }
    }

    /// The instant `ns` nanoseconds after the epoch, if calendars can name it.
    pub fn from_nanosecond(ns: i128) -> (r: Option<Timestamp>)
        ensures
            match r {
                Some(t) => t.ns == ns && in_calendar(ns as int),
                None => !in_calendar(ns as int),
            },
    {
        if MIN_NS <= ns && ns <= MAX_NS {
            Some(Timestamp { ns })
        } else {
            None
        }
    }

    /// The seconds since the epoch, rounded towards zero.
    pub fn as_second(&self) -> (r: i128)
        ensures
            r == whole_seconds(self.ns as int),
    {
        if self.ns >= 0 {
            self.ns / 1_000_000_000
        } else if self.ns == i128::MIN {
            let above: i128 = self.ns + 1_000_000_000;
            -((-above) / 1_000_000_000) - 1
        } else {
            -((-self.ns) / 1_000_000_000)
        }
    }
}

/// An age of that many seconds in its largest unit.
pub open spec fn age_text(secs: nat) -> Seq<char> {
    if secs < 60 {
        dec(secs) + "s"@
    } else if secs < 3600 {
        dec(secs / 60) + "m"@
    } else if secs < 86_400 {
        dec(secs / 3600) + "h"@
    } else {
        dec(secs / 86_400) + "d"@
    }
}

/// The whole seconds of a number of nanoseconds, at most as many as 64 bits can count.
pub open spec fn counted_seconds(ns: int) -> nat {
    if ns / 1_000_000_000 <= u64::MAX {
        (ns / 1_000_000_000) as nat
    } else {
        u64::MAX as nat
    }
}

/// An age in its largest unit, like `3d` or `12m`.
pub fn fmt_age(d: Duration) -> (r: String)
    ensures
        r@ == age_text(counted_seconds(d.ns as int)),
{
    let s: u64 = d.as_secs();
    if s < 60 {
        cat2(dec_u64(s).as_str(), "s")
    } else if s < 3600 {
        cat2(dec_u64(s / 60).as_str(), "m")
    } else if s < 86_400 {
        cat2(dec_u64(s / 3600).as_str(), "h")
    } else {
        cat2(dec_u64(s / 86_400).as_str(), "d")
    }
}

/// How long `t` lies before `now`: nothing where it does not.
pub open spec fn elapsed(now: Timestamp, t: Timestamp) -> int {
    if now.ns >= t.ns {
        now.ns - t.ns
    } else {
        0
    }
}

/// How long `t` lies before `now`: zero where it does not.
pub fn age(now: Timestamp, t: Timestamp) -> (r: Duration)
    ensures
        r.ns == elapsed(now, t),
{
    if now.ns <= t.ns {
        Duration { ns: 0 }
    } else if t.ns >= 0 || now.ns < 0 {
        Duration { ns: (now.ns - t.ns) as u128 }
    } else {
        Duration { ns: now.ns as u128 + (-(t.ns + 1)) as u128 + 1 }
    }
}

/// An instant in a time zone, to the minute.
pub open spec fn local_time(t: Timestamp, tz: jiff::tz::TimeZone) -> Seq<char> {
    outside::local_formatted(t.ns as int, tz, "%Y-%m-%d %H:%M"@)
}

/// An instant in a time zone, to the minute.
pub fn fmt_local(t: Timestamp, tz: &jiff::tz::TimeZone) -> (r: String)
    ensures
        r@ == local_time(t, *tz),
{
    outside::local_text(t, tz, "%Y-%m-%d %H:%M")
}

/// How long `t` lies before `now`, in its largest unit.
pub open spec fn ago(now: Timestamp, t: Timestamp) -> Seq<char> {
    age_text(counted_seconds(elapsed(now, t)))
}

/// The instant `d` after `t`, at most the latest one of the calendar.
pub fn add(t: Timestamp, d: Duration) -> (r: Timestamp)
    requires
        in_calendar(t.ns as int),
    ensures
        r.ns == if t.ns + d.ns <= MAX_NS {
            t.ns + d.ns
        } else {
            MAX_NS as int
        },
{
    let room: u128 = (MAX_NS - t.ns) as u128;
    if d.ns <= room {
        Timestamp { ns: t.ns + d.ns as i128 }
    } else {
        Timestamp { ns: MAX_NS }
    }
}

/// The instant `d` before `t`, at least the earliest one of the calendar.
pub fn sub(t: Timestamp, d: Duration) -> (r: Timestamp)
    requires
        in_calendar(t.ns as int),
    ensures
        r.ns == if t.ns - d.ns >= MIN_NS {
            t.ns - d.ns
        } else {
            MIN_NS as int
        },
{
    let room: u128 = (t.ns - MIN_NS) as u128;
    if d.ns <= room {
        Timestamp { ns: t.ns - d.ns as i128 }
    } else {
        Timestamp { ns: MIN_NS }
    }
}

/// What lies in the past has an age that leads back to it; what lies ahead has none.
pub proof fn law_ages_lead_back(now: Timestamp, t: Timestamp)
    ensures
        t.ns <= now.ns ==> t.ns + elapsed(now, t) == now.ns,
        now.ns <= t.ns ==> elapsed(now, t) == 0,
{
}

/// Whole seconds leave less than a second out, on either side of the epoch.
pub proof fn law_whole_seconds_leave_less_than_a_second_out(ns: int)
    ensures
        -1_000_000_000 < ns - 1_000_000_000 * whole_seconds(ns) < 1_000_000_000,
        ns >= 0 ==> 1_000_000_000 * whole_seconds(ns) <= ns,
        ns <= 0 ==> ns <= 1_000_000_000 * whole_seconds(ns),
{
}

/// An age is given in whole days, or where it is less than one in whole hours, minutes or seconds.
pub proof fn law_ages_are_given_in_their_largest_unit(n: nat, rest: nat)
    ensures
        n < 60 ==> age_text(n) == dec(n) + "s"@,
        0 < n < 60 && rest < 60 ==> age_text(n * 60 + rest) == dec(n) + "m"@,
        0 < n < 24 && rest < 60 * 60 ==> age_text(n * 3_600 + rest) == dec(n) + "h"@,
        0 < n && rest < 24 * 60 * 60 ==> age_text(n * 86_400 + rest) == dec(n) + "d"@,
{
    if rest < 60 {
        assert((n * 60 + rest) / 60 == n);
    }
    if rest < 3_600 {
        assert((n * 3_600 + rest) / 3_600 == n);
    }
    if rest < 86_400 {
        assert((n * 86_400 + rest) / 86_400 == n);
    }
}

} // verus!
