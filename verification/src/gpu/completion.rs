//! Completion notifications. They only wake whoever waits: that work is retired
//! is shown elsewhere.
use vstd::prelude::*;

use crate::mmio;
use crate::mmio::{Bus, Registers};

verus! {

pub const MC_INTR_EN_1: usize = 0x144;

pub const MC_INTR_MASK_1: usize = 0x644;

pub const FIFO_INTR: usize = 0x2100;

pub const FIFO_INTR_ROUTE: usize = 0x2528;

pub const GR_INTR_NONSTALL: usize = 0x40_0120;

pub const CHANNEL_INTR: u32 = 0x8000_0000;

pub const GR_TRAP: u32 = 2;

/// Channels and graphics; nothing else is routed here.
pub const ROUTED: u32 = 0x1100;

#[derive(Clone, Copy, Debug, PartialEq, Eq, Structural)]
pub enum Claim {
    NotMine,
    Handled,
}

/// What turns notifications on, and off again where the registers did not take it.
pub open spec fn routing(taken: bool) -> Seq<(usize, u32)> {
    if taken {
        seq![(MC_INTR_MASK_1, ROUTED), (MC_INTR_EN_1, 1u32)]
    } else {
        seq![(MC_INTR_MASK_1, ROUTED), (MC_INTR_EN_1, 1u32), (MC_INTR_EN_1, 0u32)]
    }
}

/// Whether notifications are on, and how many there were.
#[derive(Clone, Copy, Debug, PartialEq, Eq, Structural)]
pub struct Completion {
    pub enabled: bool,
    pub events: u64,
}

/// What an interrupt is, by the two status registers.
#[derive(Clone, Copy, Debug, PartialEq, Eq, Structural)]
pub enum Cause {
    /// Neither register has a notification.
    Foreign,
    /// The registers cannot be read.
    Dead,
    Notified { channel: bool, trap: bool },
}

pub open spec fn cause_spec(status: u32, gr: u32) -> Cause {
    if status & CHANNEL_INTR == 0 && gr & GR_TRAP == 0 {
        Cause::Foreign
    } else if status == u32::MAX || gr == u32::MAX {
        Cause::Dead
    } else {
        Cause::Notified { channel: status & CHANNEL_INTR != 0, trap: gr & GR_TRAP != 0 }
    }
}

pub fn cause(status: u32, gr: u32) -> (r: Cause)
    ensures
        r == cause_spec(status, gr),
{
    if status & CHANNEL_INTR == 0 && gr & GR_TRAP == 0 {
        Cause::Foreign
    } else if status == u32::MAX || gr == u32::MAX {
        Cause::Dead
    } else {
        Cause::Notified { channel: status & CHANNEL_INTR != 0, trap: gr & GR_TRAP != 0 }
    }
}

/// What is acknowledged: the notifications that are there, and no fault. A source
/// that cannot be read is turned off, or it would interrupt for ever.
pub open spec fn acknowledgements(cause: Cause) -> Seq<(usize, u32)> {
    match cause {
        Cause::Foreign => seq![],
        Cause::Dead => seq![(MC_INTR_EN_1, 0u32)],
        Cause::Notified { channel, trap } => (if channel {
            seq![(FIFO_INTR, CHANNEL_INTR)]
        } else {
            seq![]
        }) + (if trap {
            seq![(GR_INTR_NONSTALL, GR_TRAP)]
        } else {
            seq![]
        }),
    }
}

impl Completion {
    pub fn new() -> (r: Self)
        ensures
            r == (Completion { enabled: false, events: 0 }),
    {
        Completion { enabled: false, events: 0 }
    }

    pub fn events(&self) -> (r: u64)
        ensures
            r == self.events,
    {
        self.events
    }

    /// The state after an interrupt of some cause.
    pub open spec fn after(self, cause: Cause) -> Self {
        match cause {
            Cause::Foreign => self,
            Cause::Dead => Completion { enabled: false, events: self.events.wrapping_add(1) },
            Cause::Notified { .. } => Completion {
                events: self.events.wrapping_add(1),
                ..self
            },
        }
    }

    /// Takes an interrupt. While notifications are off no register is touched.
    pub fn claim_interrupt<R: Registers>(&mut self, bus: &mut Bus<'_, R>) -> (r: Claim)
        ensures
            final(bus).port() == old(bus).port(),
            mmio::extends(old(bus).log(), final(bus).log()),
            !old(self).enabled ==> r == Claim::Handled && *final(self) == *old(self) && final(bus).log() == old(bus).log(),
            old(self).enabled ==> {
                let cause = cause_spec(
                    mmio::reads(final(bus).log(), FIFO_INTR).last(),
                    mmio::reads(final(bus).log(), GR_INTR_NONSTALL).last(),
                );
                &&& *final(self) == old(self).after(cause)
                &&& r == if cause is Foreign {
                    Claim::NotMine
                } else {
                    Claim::Handled
                }
                &&& mmio::writes(final(bus).log()) == mmio::writes(old(bus).log())
                    + acknowledgements(cause)
            },
    {
        if !self.enabled {
            return Claim::Handled;
        }
        let status: u32 = bus.read(FIFO_INTR);
        let gr: u32 = bus.read(GR_INTR_NONSTALL);
        let ghost start = mmio::writes(bus.log());
        match cause(status, gr) {
            Cause::Foreign => {
                assert(start =~= start + acknowledgements(Cause::Foreign));
                return Claim::NotMine;
            },
            Cause::Dead => {
                bus.write(MC_INTR_EN_1, 0);
                self.enabled = false;
                assert(mmio::writes(bus.log()) =~= start + acknowledgements(Cause::Dead));
            },
            Cause::Notified { channel, trap } => {
                if channel {
                    bus.write(FIFO_INTR, CHANNEL_INTR);
                }
                if trap {
                    bus.write(GR_INTR_NONSTALL, GR_TRAP);
                }
                assert(mmio::writes(bus.log()) =~= start + acknowledgements(
                    Cause::Notified { channel, trap },
                ));
            },
        }
        self.events = self.events.wrapping_add(1);
        Claim::Handled
    }

    /// Turns notifications off, before power goes. Once off, no register is touched
    /// again.
    pub fn disable<R: Registers>(&mut self, bus: &mut Bus<'_, R>)
        ensures
            final(bus).port() == old(bus).port(),
            mmio::extends(old(bus).log(), final(bus).log()),
            !final(self).enabled,
            final(self).events == old(self).events,
            mmio::writes(final(bus).log()) == if old(self).enabled {
                mmio::writes(old(bus).log()).push((MC_INTR_EN_1, 0u32))
            } else {
                mmio::writes(old(bus).log())
            },
            final(bus).log() == if old(self).enabled {
                old(bus).log().push(mmio::Access::Write(MC_INTR_EN_1, 0))
            } else {
                old(bus).log()
            },
    {
        if self.enabled {
            bus.write(MC_INTR_EN_1, 0);
            self.enabled = false;
        }
    }

    pub fn mask_source<R: Registers>(&mut self, bus: &mut Bus<'_, R>)
        ensures
            final(bus).port() == old(bus).port(),
            mmio::extends(old(bus).log(), final(bus).log()),
            !final(self).enabled,
            final(self).events == old(self).events,
            mmio::writes(final(bus).log()) == mmio::writes(old(bus).log()).push(
                (MC_INTR_EN_1, 0u32),
            ),
    {
        bus.write(MC_INTR_EN_1, 0);
        self.enabled = false;
    }

    pub fn clear_pending_source<R: Registers>(&self, bus: &mut Bus<'_, R>)
        ensures
            final(bus).port() == old(bus).port(),
            mmio::extends(old(bus).log(), final(bus).log()),
            mmio::writes(final(bus).log()) == mmio::writes(old(bus).log()).push(
                (FIFO_INTR, CHANNEL_INTR),
            ).push((GR_INTR_NONSTALL, GR_TRAP)),
    {
        bus.write(FIFO_INTR, CHANNEL_INTR);
        bus.write(GR_INTR_NONSTALL, GR_TRAP);
    }

    /// Turns notifications on, if the registers take it.
    pub fn unmask_source<R: Registers>(&mut self, bus: &mut Bus<'_, R>) -> (r: bool)
        ensures
            final(bus).port() == old(bus).port(),
            mmio::extends(old(bus).log(), final(bus).log()),
            final(self).enabled == r,
            final(self).events == old(self).events,
            r ==> {
                &&& mmio::reads(final(bus).log(), MC_INTR_EN_1).last() == 1
                &&& mmio::reads(final(bus).log(), MC_INTR_MASK_1).last() == ROUTED
                &&& mmio::reads(final(bus).log(), FIFO_INTR_ROUTE).last() == CHANNEL_INTR
            },
            mmio::writes(final(bus).log()) == mmio::writes(old(bus).log()) + routing(r),
    {
        let ghost start = mmio::writes(bus.log());
        bus.write(MC_INTR_MASK_1, ROUTED);
        self.enabled = true;
        bus.write(MC_INTR_EN_1, 1);
        let mut taken: bool = bus.read(MC_INTR_EN_1) == 1;
        if taken {
            taken = bus.read(MC_INTR_MASK_1) == ROUTED;
        }
        if taken {
            taken = bus.read(FIFO_INTR_ROUTE) == CHANNEL_INTR;
        }
        assert(mmio::writes(bus.log()) =~= start + seq![
            (MC_INTR_MASK_1, ROUTED),
            (MC_INTR_EN_1, 1u32),
        ]);
        if !taken {
            bus.write(MC_INTR_EN_1, 0);
            self.enabled = false;
            assert(mmio::writes(bus.log()) =~= start + seq![
                (MC_INTR_MASK_1, ROUTED),
                (MC_INTR_EN_1, 1u32),
                (MC_INTR_EN_1, 0u32),
            ]);
            return false;
        }
        true
    }
}

/// Faults are never acknowledged here: only the two notification bits are.
pub proof fn faults_are_preserved(status: u32, gr: u32, i: int)
    requires
        0 <= i < acknowledgements(cause_spec(status, gr)).len(),
    ensures
        ({
            let w = acknowledgements(cause_spec(status, gr))[i];
            ||| w == (FIFO_INTR, CHANNEL_INTR)
            ||| w == (GR_INTR_NONSTALL, GR_TRAP)
            ||| w == (MC_INTR_EN_1, 0u32)
        }),
{
}

/// A notification is acknowledged where it came from, and nowhere else; if the registers
/// cannot be read the line is switched off.
pub proof fn notifications_are_acknowledged(status: u32, gr: u32)
    ensures
        ({
            let cause = cause_spec(status, gr);
            let w = acknowledgements(cause);
            let channel = status & 0x8000_0000 != 0;
            let trap = gr & 2 != 0;
            &&& !channel && !trap ==> w.len() == 0
            &&& (channel || trap) && (status == 0xffff_ffff || gr == 0xffff_ffff) ==> w == seq![
                (0x144usize, 0u32),
            ]
            &&& status != 0xffff_ffff && gr != 0xffff_ffff ==> {
                &&& w.contains((0x2100usize, 0x8000_0000u32)) <==> channel
                &&& w.contains((0x40_0120usize, 2u32)) <==> trap
                &&& w.len() == (if channel {
                    1int
                } else {
                    0
                }) + (if trap {
                    1int
                } else {
                    0
                })
            }
        }),
{
    let cause = cause_spec(status, gr);
    let w = acknowledgements(cause);
    let channel = status & 0x8000_0000 != 0;
    let trap = gr & 2 != 0;
    if status != 0xffff_ffff && gr != 0xffff_ffff && (channel || trap) {
        if channel {
            assert(w[0] == (0x2100usize, 0x8000_0000u32));
        }
        if trap {
            assert(w[w.len() - 1] == (0x40_0120usize, 2u32));
        }
    }
}

/// Channels and graphics are routed before the line is on, and the line is off again where
/// the registers did not take it.
pub proof fn notifications_are_routed_first(taken: bool)
    ensures
        ({
            let w = routing(taken);
            &&& w[0] == (0x644usize, 0x1100u32)
            &&& w[1] == (0x144usize, 1u32)
            &&& taken ==> w.len() == 2
            &&& !taken ==> w.len() == 3 && w[2] == (0x144usize, 0u32)
        }),
{
}

} // verus!
