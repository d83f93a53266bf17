//! Stage timers of the decode loop.

use vstd::prelude::*;
use vstd::string::*;

use crate::text::{decimal, push_decimal};

verus! {

/// Time spent in each stage, in nanoseconds.
#[derive(Debug, Clone, Copy, PartialEq, Eq, Structural)]
pub struct Prof {
    /// Waiting for the device at the router readback.
    pub sync: u64,
    /// Resolving experts.
    pub resolve: u64,
    /// Of that, uploading to the device.
    pub h2d: u64,
    /// Reading logits.
    pub tail: u64,
    pub calls: u64,
}

/// The times of a report as text, in seconds.
pub struct Times<'a> {
    pub sync: &'a str,
    pub resolve: &'a str,
    pub h2d: &'a str,
    /// Resolving, less uploading.
    pub disk: &'a str,
    pub tail: &'a str,
}

impl Prof {
    /// All timers at zero.
    pub fn new() -> (p: Prof)
        ensures
            p == (Prof { sync: 0, resolve: 0, h2d: 0, tail: 0, calls: 0 }),
    {
        Prof { sync: 0, resolve: 0, h2d: 0, tail: 0, calls: 0 }
    }

    /// Time that resolving took besides uploading: disk and host.
    pub fn disk(&self) -> (n: u64)
        ensures
            n == (if self.resolve >= self.h2d {
                self.resolve - self.h2d
            } else {
                0
            }),
    {
        if self.resolve >= self.h2d {
            self.resolve - self.h2d
        } else {
            0
        }
    }

    /// One line on where the time went.
    pub fn report(&self, t: &Times) -> (s: String)
        ensures
            s@ == "gpu-wait "@ + t.sync@ + "s, resolve "@ + t.resolve@ + "s (h2d "@ + t.h2d@
                + "s, disk/host "@ + t.disk@ + "s), logits-tail "@ + t.tail@ + "s over "@
                + decimal(self.calls as nat) + " layer steps"@,
    {
        let mut s: String = String::from_str("gpu-wait ");
        s.append(t.sync);
        s.append("s, resolve ");
        s.append(t.resolve);
        s.append("s (h2d ");
        s.append(t.h2d);
        s.append("s, disk/host ");
        s.append(t.disk);
        s.append("s), logits-tail ");
        s.append(t.tail);
        s.append("s over ");
        push_decimal(&mut s, self.calls);
        s.append(" layer steps");
        s
    }
}

} // verus!
