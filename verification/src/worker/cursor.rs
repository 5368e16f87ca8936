//! The blinking of the cursor.

use vstd::prelude::*;

verus! {

/// Milliseconds between two toggles of the cursor.
pub const UPDATE_INTERVAL: i64 = 250;

/// When the cursor was last toggled.
pub struct Cursor {
    last_tick: i64,
}

impl Cursor {
    /// The time of the last toggle in milliseconds.
    pub closed spec fn last(&self) -> int {
        self.last_tick as int
    }

    /// A cursor that is due at time 0.
    pub fn new() -> (r: Cursor)
        ensures
            r.last() == -UPDATE_INTERVAL,
    {
        Cursor { last_tick: -250 }
    }

    /// Whether the cursor is to be toggled at this time. It is when the interval
    /// has passed since the last toggle.
    pub fn tick(&mut self, now: i64) -> (r: bool)
        requires
            old(self).last() + UPDATE_INTERVAL <= i64::MAX,
        ensures
            r == (now >= old(self).last() + UPDATE_INTERVAL),
            final(self).last() == if r {
                now as int
            } else {
                old(self).last()
            },
    {
        if now < self.last_tick + UPDATE_INTERVAL {
            return false;
        }
        self.last_tick = now;
        true
    }
}

} // verus!
