//! Counters of completed work. Numbers are given out once and never again: a unit
//! that failed may still count.
use vstd::prelude::*;

use crate::mmio;
use crate::mmio::{Bus, Timed};
use crate::soc::map::HOST1X_SYNC;

verus! {

/// The first number that is given out, and the one after the last.
pub const FIRST: u32 = 32;

pub const COUNT: u32 = 192;

/// The numbers that are left.
pub struct Syncpoints {
    next: u32,
}

/// A counter.
#[derive(Debug, PartialEq, Eq)]
pub struct Host1xSyncpoint {
    id: u32,
}

impl Syncpoints {
    /// The number that is given out next.
    pub closed spec fn next(self) -> u32 {
        self.next
    }

    pub open spec fn wf(self) -> bool {
        FIRST <= self.next() <= COUNT
    }

    pub fn new() -> (r: Self)
        ensures
            r.next() == FIRST,
            r.wf(),
    {
        Syncpoints { next: FIRST }
    }

    /// Gives a number out.
    pub fn allocate(&mut self) -> (r: Result<Host1xSyncpoint, &'static str>)
        requires
            old(self).wf(),
        ensures
            final(self).wf(),
            match r {
                Ok(point) => old(self).next() < COUNT && point.number() == old(self).next()
                    && final(self).next() == old(self).next() + 1,
                Err(e) => old(self).next() == COUNT && e == "host1x syncpoints exhausted" && final(self).next() == old(self).next(),
            },
    {
        if self.next >= COUNT {
            return Err("host1x syncpoints exhausted");
        }
        let id: u32 = self.next;
        self.next = id + 1;
        Ok(Host1xSyncpoint { id })
    }
}

impl Host1xSyncpoint {
    pub closed spec fn number(self) -> u32 {
        self.id
    }

    pub fn id(&self) -> (r: u32)
        ensures
            r == self.number(),
    {
        self.id
    }

    /// What it has counted.
    pub fn value<R: Timed>(&self, bus: &mut Bus<'_, R>) -> (r: u32)
        requires
            self.number() < COUNT,
        ensures
            final(bus).port() == old(bus).port(),
            mmio::extends(old(bus).log(), final(bus).log()),
            final(bus).log() == old(bus).log().push(
                mmio::Access::Read((HOST1X_SYNC + 0x80 + 4 * self.number()) as usize, r),
            ),
    {
        bus.read(HOST1X_SYNC + 0x80 + 4 * self.id as usize)
    }
}

/// The first 32 counters are not given out, and there are 192.
pub proof fn counters_are_given_in_range(s: Syncpoints)
    ensures
        s.wf() <==> 32 <= s.next() <= 192,
{
}

} // verus!
