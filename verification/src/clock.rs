//! A clock that stands still until it is told to go on.

use vstd::prelude::*;

use crate::outside;
use crate::util::time::{Duration, Timestamp};
#[allow(unused_imports)]
use crate::util::time::{in_calendar, MAX_NS};

verus! {

pub struct FakeClock {
    pub now: Timestamp,
}

impl FakeClock {
    /// A clock that shows the instant of a text like `2026-09-14T10:00:00Z`; none where the text
    /// names none.
    pub fn at(rfc3339: &str) -> (r: Option<FakeClock>)
        ensures
            match r {
                Some(c) => outside::instant_read(rfc3339@) == Some(c.now.ns as int),
                None => outside::instant_read(rfc3339@) is None,
            },
    {
        match outside::parse_instant(rfc3339) {
            Some(now) => Some(FakeClock { now }),
            None => None,
        }
    }

    /// What the clock shows.
    pub fn now(&self) -> (r: Timestamp)
        ensures
            r == self.now,
    {
        self.now
    }

    /// Time goes on.
    pub fn advance(&mut self, d: Duration)
        requires
            in_calendar(old(self).now.ns as int),
            old(self).now.ns + d.ns <= MAX_NS,
        ensures
            final(self).now.ns == old(self).now.ns + d.ns,
    {
        self.now = crate::util::time::add(self.now, d);
    }

    /// The clock is set.
    pub fn set(&mut self, ts: Timestamp)
        ensures
            final(self).now == ts,
    {
        self.now = ts;
    }
}

} // verus!
