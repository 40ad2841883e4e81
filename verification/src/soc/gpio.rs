//! Digital pins, the functions of pins, and the switch in front of the interrupt
//! controller.
use vstd::prelude::*;

use crate::mmio;
use crate::mmio::{Bus, Step, Timed};
use crate::soc::map::{GPIO, PADS, PMC};

verus! {

/// Pins that exist.
pub const PINS: u32 = 246;

/// Where a pin's port is, and the pin's bit in it.
pub open spec fn pin_spec(pin: u32) -> Option<(usize, u32)> {
    if pin >= PINS {
        None
    } else {
        let port = pin / 8;
        Some(((port / 4 * 0x100 + port % 4 * 4) as usize, bit_spec(pin % 8)))
    }
}

pub open spec fn bit_spec(index: u32) -> u32 {
    if index == 0 {
        1
    } else if index == 1 {
        2
    } else if index == 2 {
        4
    } else if index == 3 {
        8
    } else if index == 4 {
        0x10
    } else if index == 5 {
        0x20
    } else if index == 6 {
        0x40
    } else {
        0x80
    }
}

fn bit(index: u32) -> (r: u32)
    ensures
        r == bit_spec(index),
        r <= 0x80,
{
    if index == 0 {
        1
    } else if index == 1 {
        2
    } else if index == 2 {
        4
    } else if index == 3 {
        8
    } else if index == 4 {
        0x10
    } else if index == 5 {
        0x20
    } else if index == 6 {
        0x40
    } else {
        0x80
    }
}

/// Digital pins of a chip.
#[derive(Clone, Copy, Debug)]
pub struct TegraGpio {
    pub phandle: u32,
}

/// A write to a masked register: which pin, and its value.
pub open spec fn masked_write(pin: u32, register: int, value: bool) -> (usize, u32) {
    let (port, mask) = pin_spec(pin)->0;
    ((GPIO + port + register) as usize, (mask * 0x100 + if value {
        mask as int
    } else {
        0
    }) as u32)
}

/// What an operation on a pin does: some masked writes, or an error for a pin that is
/// not there.
pub open spec fn pin_writes(
    before: Seq<mmio::Access>,
    after: Seq<mmio::Access>,
    pin: u32,
    steps: Seq<(int, bool)>,
    r: Result<(), &'static str>,
) -> bool {
    &&& mmio::extends(before, after)
    &&& {
        if pin >= PINS {
            r == Err::<(), &'static str>("invalid Tegra GPIO pin") && after == before
        } else {
            r == Ok::<(), &'static str>(()) && mmio::memory_kept(before, after) && mmio::writes(after)
                == mmio::writes(before) + Seq::new(
                steps.len(),
                |i: int| masked_write(pin, steps[i].0, steps[i].1),
            ) && elsewhere(before, after)
        }
    }
}

/// What one change of a pin does: the change, and a reading of what it changed.
pub open spec fn masked_steps(pin: u32, register: int, value: bool) -> Seq<Step> {
    let (at, word) = masked_write(pin, register, value);
    seq![Step::Write(at, word), Step::Read((at - 0x80) as usize)]
}

/// How a pin is made an output.
pub open spec fn output_steps(pin: u32, value: bool) -> Seq<Step> {
    masked_steps(pin, 0xa0, value) + masked_steps(pin, 0x90, true) + masked_steps(pin, 0x80, true)
}

/// Nothing but the settings of pins was read.
pub open spec fn elsewhere(before: Seq<mmio::Access>, after: Seq<mmio::Access>) -> bool {
    &&& mmio::extends(before, after)
    &&& {
        forall|o: usize|
            #![trigger mmio::reads(after, o)]
            !(GPIO <= o < GPIO + 0x1000 && (o - GPIO) % 0x100 < 0x30) ==> mmio::reads(after, o)
                == mmio::reads(before, o)
    }
}

impl TegraGpio {
    fn pin(pin: u32) -> (r: Result<(usize, u32), &'static str>)
        ensures
            match pin_spec(pin) {
                None => r == Err::<(usize, u32), &'static str>("invalid Tegra GPIO pin"),
                Some(place) => r == Ok::<(usize, u32), &'static str>(place),
            },
            r matches Ok(place) ==> place.0 <= 0x80c && 0 < place.1 <= 0x80,
    {
        if pin >= PINS {
            return Err("invalid Tegra GPIO pin");
        }
        let port: usize = (pin / 8) as usize;
        Ok((port / 4 * 0x100 + port % 4 * 4, bit(pin % 8)))
    }

    fn masked<R: Timed>(bus: &mut Bus<'_, R>, pin: u32, register: usize, value: bool) -> (r: Result<
        (),
        &'static str,
    >)
        requires
            0x80 <= register <= 0xa0,
        ensures
            final(bus).port() == old(bus).port(),
            mmio::extends(old(bus).log(), final(bus).log()),
            if pin >= PINS {
                r == Err::<(), &'static str>("invalid Tegra GPIO pin") && final(bus).log() == old(bus).log()
            } else {
                r == Ok::<(), &'static str>(()) && mmio::writes(final(bus).log()) == mmio::writes(
                    old(bus).log(),
                ).push(masked_write(pin, register as int, value)) && mmio::memory_kept(
                    old(bus).log(),
                    final(bus).log(),
                ) && mmio::did(
                    old(bus).log(),
                    final(bus).log(),
                    masked_steps(pin, register as int, value),
                ) && elsewhere(old(bus).log(), final(bus).log())
            },
    {
        let (port, mask): (usize, u32) = Self::pin(pin)?;
        let chosen: u32 = if value {
            mask
        } else {
            0
        };
        bus.write(GPIO + port + register, mask * 0x100 + chosen);
        let _ = bus.read(GPIO + port + register - 0x80);
        Ok(())
    }

    /// Makes a pin an input.
    pub fn input<R: Timed>(&self, bus: &mut Bus<'_, R>, pin: u32) -> (r: Result<(), &'static str>)
        ensures
            final(bus).port() == old(bus).port(),
            mmio::extends(old(bus).log(), final(bus).log()),
            pin_writes(
                old(bus).log(),
                final(bus).log(),
                pin,
                seq![(0x90, false), (0x80, true)],
                r,
            ),
            r is Ok ==> mmio::did(
                old(bus).log(),
                final(bus).log(),
                masked_steps(pin, 0x90, false) + masked_steps(pin, 0x80, true),
            ),
    {
        Self::masked(bus, pin, 0x90, false)?;
        let ghost a = bus.log();
        let r = Self::masked(bus, pin, 0x80, true);
        proof {
            mmio::lemma_did(
                old(bus).log(),
                a,
                bus.log(),
                masked_steps(pin, 0x90, false),
                masked_steps(pin, 0x80, true),
            );
        }
        assert(mmio::writes(bus.log()) =~= mmio::writes(old(bus).log()) + Seq::new(
            2,
            |i: int|
                masked_write(
                    pin,
                    seq![(0x90int, false), (0x80, true)][i].0,
                    seq![(0x90int, false), (0x80, true)][i].1,
                ),
        ));
        r
    }

    /// Makes a pin an output. Its value is set before it is driven.
    pub fn output<R: Timed>(&self, bus: &mut Bus<'_, R>, pin: u32, value: bool) -> (r: Result<
        (),
        &'static str,
    >)
        ensures
            final(bus).port() == old(bus).port(),
            mmio::extends(old(bus).log(), final(bus).log()),
            pin_writes(
                old(bus).log(),
                final(bus).log(),
                pin,
                seq![(0xa0, value), (0x90, true), (0x80, true)],
                r,
            ),
            r is Ok ==> mmio::did(old(bus).log(), final(bus).log(), output_steps(pin, value)),
    {
        Self::masked(bus, pin, 0xa0, value)?;
        let ghost a = bus.log();
        Self::masked(bus, pin, 0x90, true)?;
        let ghost b = bus.log();
        let r = Self::masked(bus, pin, 0x80, true);
        proof {
            let o = old(bus).log();
            let first = masked_steps(pin, 0xa0, value);
            let second = masked_steps(pin, 0x90, true);
            mmio::lemma_did(o, a, b, first, second);
            mmio::lemma_did(o, b, bus.log(), first + second, masked_steps(pin, 0x80, true));
            let steps = seq![(0xa0int, value), (0x90, true), (0x80, true)];
            assert(mmio::writes(bus.log()) =~= mmio::writes(old(bus).log()) + Seq::new(
                steps.len(),
                |i: int| masked_write(pin, steps[i].0, steps[i].1),
            ));
        }
        r
    }

    /// Sets an output.
    pub fn set<R: Timed>(&self, bus: &mut Bus<'_, R>, pin: u32, value: bool) -> (r: Result<
        (),
        &'static str,
    >)
        ensures
            final(bus).port() == old(bus).port(),
            mmio::extends(old(bus).log(), final(bus).log()),
            pin_writes(old(bus).log(), final(bus).log(), pin, seq![(0xa0, value)], r),
    {
        let r = Self::masked(bus, pin, 0xa0, value);
        proof {
            let steps = seq![(0xa0int, value)];
            if pin < PINS {
                assert(mmio::writes(bus.log()) =~= mmio::writes(old(bus).log()) + Seq::new(
                    steps.len(),
                    |i: int| masked_write(pin, steps[i].0, steps[i].1),
                ));
            }
        }
        r
    }

    /// Gives a pin to its peripheral.
    pub fn peripheral<R: Timed>(&self, bus: &mut Bus<'_, R>, pin: u32) -> (r: Result<
        (),
        &'static str,
    >)
        ensures
            final(bus).port() == old(bus).port(),
            mmio::extends(old(bus).log(), final(bus).log()),
            pin_writes(old(bus).log(), final(bus).log(), pin, seq![(0x80, false)], r),
            r is Ok ==> mmio::did(
                old(bus).log(),
                final(bus).log(),
                masked_steps(pin, 0x80, false),
            ),
    {
        let r = Self::masked(bus, pin, 0x80, false);
        proof {
            let steps = seq![(0x80int, false)];
            if pin < PINS {
                assert(mmio::writes(bus.log()) =~= mmio::writes(old(bus).log()) + Seq::new(
                    steps.len(),
                    |i: int| masked_write(pin, steps[i].0, steps[i].1),
                ));
            }
        }
        r
    }

    /// Reads a pin.
    pub fn get<R: Timed>(&self, bus: &mut Bus<'_, R>, pin: u32) -> (r: Result<bool, &'static str>)
        ensures
            final(bus).port() == old(bus).port(),
            mmio::quiet(old(bus).log(), final(bus).log()),
            forall|o: usize|
                #![trigger mmio::reads(final(bus).log(), o)]
                (pin_spec(pin) matches Some((port, _)) ==> o != GPIO + port + 0x30) ==> mmio::reads(
                    final(bus).log(),
                    o,
                ) == mmio::reads(old(bus).log(), o),
            match pin_spec(pin) {
                None => r == Err::<bool, &'static str>("invalid Tegra GPIO pin"),
                Some((port, mask)) => r == Ok::<bool, &'static str>(
                    mmio::last(final(bus).log(), (GPIO + port + 0x30) as usize) & mask != 0,
                ) && final(bus).log() == old(bus).log().push(
                    mmio::Access::Read(
                        (GPIO + port + 0x30) as usize,
                        mmio::last(final(bus).log(), (GPIO + port + 0x30) as usize),
                    ),
                ),
            },
    {
        let (port, mask): (usize, u32) = Self::pin(pin)?;
        let value: u32 = bus.read(GPIO + port + 0x30);
        Ok(value & mask != 0)
    }
}

/// No two pins share a bit.
pub proof fn pins_are_apart(a: u32, b: u32)
    requires
        a < PINS,
        b < PINS,
        pin_spec(a) == pin_spec(b),
    ensures
        a == b,
{
}

/// A provider is used only by who names it.
pub fn check_provider(found: u32, asked: u32, complaint: &'static str) -> (r: Result<
    (),
    &'static str,
>)
    ensures
        r == if found == asked {
            Ok::<(), &'static str>(())
        } else {
            Err(complaint)
        },
{
    if found != asked {
        return Err(complaint);
    }
    Ok(())
}

/// The pins, for who names their provider.
pub fn gpio_for(gpio: TegraGpio, provider: u32) -> (r: Result<TegraGpio, &'static str>)
    ensures
        r == if gpio.phandle == provider {
            Ok::<TegraGpio, &'static str>(gpio)
        } else {
            Err("unexpected Tegra GPIO provider")
        },
{
    if gpio.phandle != provider {
        return Err("unexpected Tegra GPIO provider");
    }
    Ok(gpio)
}

/// Where the clock registers are, for who names their provider.
pub fn cpu_clock_registers(phandle: u32, base: usize, provider: u32) -> (r: Result<
    usize,
    &'static str,
>)
    ensures
        r == if phandle == provider {
            Ok::<usize, &'static str>(base)
        } else {
            Err("unexpected CPU clock provider")
        },
{
    if phandle != provider {
        return Err("unexpected CPU clock provider");
    }
    Ok(base)
}

/// Chooses the function of a pin.
pub fn pad<R: Timed>(bus: &mut Bus<'_, R>, offset: usize, value: u32) -> (r: Result<
    (),
    &'static str,
>)
    ensures
        final(bus).port() == old(bus).port(),
        mmio::memory_kept(old(bus).log(), final(bus).log()),
        if offset % 4 != 0 || offset >= 0x294 {
            r == Err::<(), &'static str>("invalid Tegra pinmux offset") && final(bus).log() == old(bus).log()
        } else {
            r == Ok::<(), &'static str>(()) && mmio::writes(final(bus).log()) == mmio::writes(
                old(bus).log(),
            ).push(((PADS + offset) as usize, value)) && final(bus).log() == old(bus).log().push(
                mmio::Access::Write((PADS + offset) as usize, value),
            )
        },
        forall|o: usize|
            #![trigger mmio::reads(final(bus).log(), o)]
            mmio::reads(final(bus).log(), o) == mmio::reads(old(bus).log(), o),
{
    if offset % 4 != 0 || offset >= 0x294 {
        return Err("invalid Tegra pinmux offset");
    }
    bus.write(PADS + offset, value);
    Ok(())
}

/// What changing some bits of a register does, by what was read of it.
pub open spec fn modify_steps(offset: usize, clear: u32, set: u32, value: u32) -> Seq<Step> {
    seq![
        Step::Read(offset),
        Step::Write(offset, (value & !clear) | set),
        Step::Read(offset),
    ]
}

/// Changes some bits of a register, and reads it back.
pub fn modify<R: Timed>(bus: &mut Bus<'_, R>, offset: usize, clear: u32, set: u32)
    ensures
        final(bus).port() == old(bus).port(),
        mmio::memory_kept(old(bus).log(), final(bus).log()),
        ({
            let seen = mmio::reads(final(bus).log(), offset);
            &&& seen.len() == mmio::reads(old(bus).log(), offset).len() + 2
            &&& mmio::did(
                old(bus).log(),
                final(bus).log(),
                modify_steps(
                    offset,
                    clear,
                    set,
                    mmio::value_at(final(bus).log(), old(bus).log().len() as int),
                ),
            )
            &&& mmio::writes(final(bus).log()) == mmio::writes(old(bus).log()).push(
                (offset, (seen[seen.len() - 2] & !clear) | set),
            )
        }),
        forall|o: usize|
            #![trigger mmio::reads(final(bus).log(), o)]
            o != offset ==> mmio::reads(final(bus).log(), o) == mmio::reads(old(bus).log(), o),
{
    let value: u32 = bus.read(offset);
    bus.write(offset, (value & !clear) | set);
    let _ = bus.read(offset);
}

/// The value that was changed at last.
pub open spec fn changed(log: Seq<mmio::Access>, offset: usize) -> u32 {
    let seen = mmio::reads(log, offset);
    seen[seen.len() - 2]
}

/// What switches the shared supply of the rails and the fan on.
pub open spec fn supply_writes(log: Seq<mmio::Access>) -> Seq<(usize, u32)> {
    seq![
        ((PADS + 0x4c) as usize, 1u32),
        masked_write(5, 0xa0, true),
        masked_write(5, 0x90, true),
        masked_write(5, 0x80, true),
        ((PADS + 0x1a8) as usize, 0x101),
        masked_write(228, 0xa0, false),
        masked_write(228, 0x90, true),
        masked_write(228, 0x80, true),
        ((PMC + 0x44) as usize, (changed(log, (PMC + 0x44) as usize) & !0x20_0000u32) | 0),
        ((PMC + 0xe4) as usize, (changed(log, (PMC + 0xe4) as usize) & !0x20_0000u32) | 0),
    ]
}

/// Switches the shared supply of the rails and the fan on. It is never switched off
/// for one of them.
pub fn enable_rail_supply<R: Timed>(bus: &mut Bus<'_, R>, gpio: &TegraGpio) -> (r: Result<
    (),
    &'static str,
>)
    ensures
        final(bus).port() == old(bus).port(),
        r == Ok::<(), &'static str>(()),
        mmio::memory_kept(old(bus).log(), final(bus).log()),
        mmio::writes(final(bus).log()) == mmio::writes(old(bus).log()) + supply_writes(
            final(bus).log(),
        ),
{
    pad(bus, 0x4c, 1)?;
    gpio.output(bus, 5, true)?;
    pad(bus, 0x1a8, 0x101)?;
    gpio.output(bus, 228, false)?;
    modify(bus, PMC + 0x44, 0x20_0000, 0);
    modify(bus, PMC + 0xe4, 0x20_0000, 0);
    assert(mmio::writes(bus.log()) =~= mmio::writes(old(bus).log()) + supply_writes(bus.log()));
    Ok(())
}

/// The bank and the bit of an interrupt that passes the switch.
pub open spec fn line_spec(hwirq: u32) -> Option<(u32, u32)> {
    if hwirq < 32 || hwirq >= 224 {
        None
    } else {
        Some((((hwirq - 32) / 32) as u32, (hwirq % 32) as u32))
    }
}

/// The bank and the bit of an interrupt; nothing for one that has no switch.
pub fn line(hwirq: u32) -> (r: Option<(u32, u32)>)
    ensures
        r == line_spec(hwirq),
{
    if hwirq < 32 || hwirq >= 224 {
        return None;
    }
    Some(((hwirq - 32) / 32, hwirq % 32))
}

/// A masked write changes its own pin and no other of its port: the upper byte names the
/// pin, the lower one is the pin's bit, or nothing.
pub proof fn masked_writes_change_one_pin(pin: u32, register: int, value: bool)
    requires
        pin < PINS,
        0 <= register <= 0xf0,
    ensures
        ({
            let (at, word) = masked_write(pin, register, value);
            let bit = seq![1int, 2, 4, 8, 16, 32, 64, 128][pin as int % 8];
            &&& at == GPIO + 0x100 * (pin as int / 32) + 4 * (pin as int / 8 % 4) + register
            &&& word as int / 256 == bit
            &&& word as int % 256 == if value {
                bit
            } else {
                0
            }
        }),
{
}

/// An output has its level before it drives, and drives before the pin is given to it.
pub proof fn outputs_have_their_level_first(pin: u32, value: bool)
    requires
        pin < PINS,
    ensures
        ({
            let s = output_steps(pin, value);
            let (level, drive, give) = (
                masked_write(pin, 0xa0, value),
                masked_write(pin, 0x90, true),
                masked_write(pin, 0x80, true),
            );
            &&& s.len() == 6
            &&& s[0] == Step::Write(level.0, level.1)
            &&& s[2] == Step::Write(drive.0, drive.1)
            &&& s[4] == Step::Write(give.0, give.1)
            &&& s[1] is Read && s[3] is Read && s[5] is Read
        }),
{
}

/// Interrupts have their bank and bit by their number, from the thirty-second on.
pub proof fn interrupts_have_their_line(hwirq: u32)
    ensures
        line_spec(hwirq) is Some <==> 32 <= hwirq < 224,
        line_spec(hwirq) matches Some((bank, bit)) ==> 32 * bank + bit + 32 == hwirq && bit < 32,
{
}

/// The rails' supply is switched on by the fifth pin, and the 228th is low; the pads of both
/// keep their voltage.
pub proof fn the_supply_is_switched_on(log: Seq<mmio::Access>)
    ensures
        ({
            let w = supply_writes(log);
            &&& w.len() == 10
            &&& w[0] == (0x7000_304cusize, 1u32)
            &&& w[1] == masked_write(5, 0xa0, true) && w[2] == masked_write(5, 0x90, true) && w[3]
                == masked_write(5, 0x80, true)
            &&& w[4] == (0x7000_31a8usize, 0x101u32)
            &&& w[5] == masked_write(228, 0xa0, false) && w[6] == masked_write(228, 0x90, true)
                && w[7] == masked_write(228, 0x80, true)
            &&& w[8] == (0x7000_e444usize, (changed(log, 0x7000_e444) & !0x20_0000u32) | 0)
            &&& w[9] == (0x7000_e4e4usize, (changed(log, 0x7000_e4e4) & !0x20_0000u32) | 0)
        }),
{
}

} // verus!
