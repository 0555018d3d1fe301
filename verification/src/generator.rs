//! The request generator: a monotonic index allocator with an optional
//! total-count limit.
//!
//! The generator is the single owner of index allocation: indices start at
//! zero and strictly increase, which is what lets the statistics engine
//! keep its in-flight set sorted. Pacing — sleeping for a fixed interval or
//! blocking on an adaptive pulse — is the caller's concern; the generator
//! only decides whether another request is due and what its index is.

use vstd::prelude::*;

use crate::probe::{ProbeEvent, ProbeKind};

verus! {

/// Allocates request indices in order, up to an optional total count.
pub struct Generator {
    next_index: u64,
    ping_number: Option<u64>,
}

impl Generator {
    /// The index the next request will carry.
    pub closed spec fn next(&self) -> u64 {
        self.next_index
    }

    /// The optional limit on how many requests are issued in total.
    pub closed spec fn limit(&self) -> Option<u64> {
        self.ping_number
    }

    /// A generator that starts at index zero and stops after `ping_number`
    /// requests, or never stops when no count is given.
    pub fn new(ping_number: Option<u64>) -> (r: Generator)
        ensures
            r.next() == 0,
            r.limit() == ping_number,
    {
        Generator { next_index: 0, ping_number }
    }

    /// The index the next request will carry.
    pub fn next_index(&self) -> (r: u64)
        ensures
            r == self.next(),
    {
        self.next_index
    }

    /// Whether the generator has issued its whole budget: true exactly
    /// when a limit is set and the next index has reached it.
    pub fn finished(&self) -> (r: bool)
        ensures
            r == match self.limit() {
                Some(n) => self.next() >= n,
                None => false,
            },
    {
        match self.ping_number {
            Some(n) => self.next_index >= n,
            None => false,
        }
    }

    /// Issue the next request event at the given timestamp. The caller
    /// checks `finished` first and never exhausts the index space.
    pub fn next_request(&mut self, timestamp: u64) -> (r: ProbeEvent)
        requires
            old(self).next() < u64::MAX,
            match old(self).limit() {
                Some(n) => old(self).next() < n,
                None => true,
            },
        ensures
            r == (ProbeEvent { index: old(self).next(), timestamp, kind: ProbeKind::Request }),
            final(self).next() == old(self).next() + 1,
            final(self).limit() == old(self).limit(),
    {
        let index = self.next_index;
        self.next_index = self.next_index + 1;
        ProbeEvent { index, timestamp, kind: ProbeKind::Request }
    }
}
} // verus!
