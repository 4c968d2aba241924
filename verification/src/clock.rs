//! The scalar logical clock: a counter that only ever moves forward.

use vstd::prelude::*;

verus! {

/// The value a clock holds after merging a received timestamp into a prior
/// local value: one more than the larger of the two, hence strictly greater
/// than both.
pub open spec fn merged_value(local: nat, received: nat) -> nat {
    if local >= received {
        local + 1
    } else {
        received + 1
    }
}

/// A logical clock: a single non-negative counter, owned by one process,
/// that never decreases or resets.
pub struct LogicalClock {
    count: u32,
}

impl LogicalClock {
    /// The counter as a mathematical integer.
    pub closed spec fn value(&self) -> nat {
        self.count as nat
    }

    /// A fresh clock starts at zero.
    pub fn new() -> (c: LogicalClock)
        ensures
            c.value() == 0,
    {
        LogicalClock { count: 0 }
    }

    /// The current counter.
    pub fn read(&self) -> (v: u32)
        ensures
            v as nat == self.value(),
    {
        self.count
    }

    /// Advance the counter by exactly one for a local event; the new value
    /// is returned and serves as the timestamp of an outgoing message.
    pub fn tick(&mut self) -> (v: u32)
        requires
            old(self).value() < u32::MAX as nat,
        ensures
            final(self).value() == old(self).value() + 1,
            v as nat == final(self).value(),
    {
        self.count = self.count + 1;
        self.count
    }

    /// Fold a received timestamp into the clock: the counter becomes
    /// `max(local, received) + 1`, strictly greater than both the prior
    /// local value and the received timestamp.
    pub fn merge(&mut self, received: u32) -> (v: u32)
        requires
            old(self).value() < u32::MAX as nat,
            received < u32::MAX,
        ensures
            final(self).value() == merged_value(old(self).value(), received as nat),
            v as nat == final(self).value(),
            old(self).value() < final(self).value(),
            (received as nat) < final(self).value(),
    {
        let base = if self.count >= received {
            self.count
        } else {
            received
        };
        self.count = base + 1;
        self.count
    }
}

} // verus!
