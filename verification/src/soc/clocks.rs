//! Clocks and resets of peripherals. The clock that all of them share is never
//! retuned: it is only checked.
use vstd::prelude::*;

use crate::mmio;
use crate::mmio::{Access, Bus, Step, Timed};
use crate::soc::gpio;
use crate::soc::gpio::{enable_rail_supply, modify, pad, TegraGpio};
use crate::soc::map::{CAR, PADS, PWM};

verus! {

/// Where a clock register is.
pub open spec fn car(offset: int) -> usize {
    (CAR + offset) as usize
}

/// The reference clock, from the register of the oscillator.
pub open spec fn reference_spec(osc: u32) -> Option<int> {
    let divider = if osc / 0x0400_0000 % 4 == 0 {
        1int
    } else if osc / 0x0400_0000 % 4 == 1 {
        2
    } else if osc / 0x0400_0000 % 4 == 2 {
        4
    } else {
        8
    };
    if osc / 0x1000_0000 == 5 {
        Some(38_400_000int / divider)
    } else if osc / 0x1000_0000 == 8 {
        Some(12_000_000int / divider)
    } else {
        None
    }
}

pub fn reference_hz(osc: u32) -> (r: Option<u64>)
    ensures
        match reference_spec(osc) {
            None => r is None,
            Some(hz) => r matches Some(v) && v == hz && v <= 38_400_000,
        },
{
    let step: u32 = osc / 0x0400_0000 % 4;
    let divider: u64 = if step == 0 {
        1
    } else if step == 1 {
        2
    } else if step == 2 {
        4
    } else {
        8
    };
    if osc / 0x1000_0000 == 5 {
        Some(38_400_000 / divider)
    } else if osc / 0x1000_0000 == 8 {
        Some(12_000_000 / divider)
    } else {
        None
    }
}

/// Whether the shared clock runs, not bypassed, at 408 MHz.
pub open spec fn shared_ok(reference: int, pll: u32) -> bool {
    let m = pll % 256;
    let n = pll / 1024 % 256;
    pll / 0x4000_0000 == 1 && m != 0 && reference * n / m as int == 408_000_000
}

pub fn is_shared(reference: u64, pll: u32) -> (r: bool)
    requires
        reference <= 38_400_000,
    ensures
        r == shared_ok(reference as int, pll),
{
    let m: u64 = (pll % 256) as u64;
    let n: u64 = (pll / 1024 % 256) as u64;
    if m == 0 {
        return false;
    }
    assert(reference * n <= 38_400_000 * 255) by (nonlinear_arith)
        requires
            reference <= 38_400_000,
            n <= 255,
    ;
    pll / 0x4000_0000 == 1 && reference * n / m == 408_000_000
}

/// What the two registers of the shared clock say.
pub open spec fn parent_spec(
    osc: u32,
    pll: u32,
    unsupported: &'static str,
    wrong: &'static str,
) -> Result<int, &'static str> {
    match reference_spec(osc) {
        None => Err(unsupported),
        Some(hz) => if shared_ok(hz, pll) {
            Ok(hz)
        } else {
            Err(wrong)
        },
    }
}

/// Checks the shared clock, and tells the reference clock.
pub fn parent<R: Timed>(
    bus: &mut Bus<'_, R>,
    unsupported: &'static str,
    wrong: &'static str,
) -> (r: Result<u64, &'static str>)
    ensures
        final(bus).port() == old(bus).port(),
        mmio::quiet(old(bus).log(), final(bus).log()),
        mmio::tried(old(bus).log(), final(bus).log(), car(0x50)),
        ({
            let osc = mmio::last(final(bus).log(), car(0x50));
            match r {
                Ok(hz) => hz <= 38_400_000 && parent_spec(
                    osc,
                    mmio::last(final(bus).log(), car(0xa0)),
                    unsupported,
                    wrong,
                ) == Ok::<int, &'static str>(hz as int),
                Err(e) => (reference_spec(osc) is None && e == unsupported) || parent_spec(
                    osc,
                    mmio::last(final(bus).log(), car(0xa0)),
                    unsupported,
                    wrong,
                ) == Err::<int, &'static str>(e),
            }
        }),
        forall|o: usize|
            #![trigger mmio::reads(final(bus).log(), o)]
            o != car(0x50) && o != car(0xa0) ==> mmio::reads(final(bus).log(), o) == mmio::reads(
                old(bus).log(),
                o,
            ),
{
    let osc: u32 = bus.read(CAR + 0x50);
    let hz: u64 = match reference_hz(osc) {
        None => {
            return Err(unsupported);
        },
        Some(hz) => hz,
    };
    let pll: u32 = bus.read(CAR + 0xa0);
    if !is_shared(hz, pll) {
        return Err(wrong);
    }
    Ok(hz)
}

/// Where the reset and the switch of a clock are set.
pub open spec fn banks(id: u32) -> (int, int) {
    if id < 32 {
        (0x300, 0x320)
    } else if id < 64 {
        (0x308, 0x328)
    } else {
        (0x310, 0x330)
    }
}

/// What starting a clock writes: held in reset and stopped, then given its source,
/// started, and released.
pub open spec fn enable_writes(id: u32, source: usize, value: u32) -> Seq<(usize, u32)> {
    let (reset, gate) = banks(id);
    let bit = 1u32 << (id % 32);
    seq![
        (car(reset), bit),
        (car(gate + 4), bit),
        (car(source as int), value),
        (car(gate), bit),
        (car(reset + 4), bit),
    ]
}

/// Starts a clock.
pub fn enable<R: Timed>(bus: &mut Bus<'_, R>, id: u32, source: usize, value: u32)
    requires
        id < 96,
        source < 0x1000,
    ensures
        final(bus).port() == old(bus).port(),
        mmio::memory_kept(old(bus).log(), final(bus).log()),
        mmio::writes(final(bus).log()) == mmio::writes(old(bus).log()) + enable_writes(
            id,
            source,
            value,
        ),
{
    let (reset, gate): (usize, usize) = if id < 32 {
        (0x300, 0x320)
    } else if id < 64 {
        (0x308, 0x328)
    } else {
        (0x310, 0x330)
    };
    let bit: u32 = 1u32 << (id % 32);
    bus.write(CAR + reset, bit);
    bus.write(CAR + gate + 4, bit);
    bus.write(CAR + source, value);
    bus.write(CAR + gate, bit);
    bus.delay_us(2);
    bus.write(CAR + reset + 4, bit);
    let _ = bus.read(CAR + source);
    assert(mmio::writes(bus.log()) =~= mmio::writes(old(bus).log()) + enable_writes(
        id,
        source,
        value,
    ));
}

/// The divider for a rate of the rails.
pub open spec fn divider_spec(baud: u32) -> Option<u32> {
    if baud == 1_000_000 {
        Some(49)
    } else if baud == 3_000_000 {
        Some(15)
    } else {
        None
    }
}

/// What gives a rail its rate, by what was read of its clock.
pub open spec fn rate_steps(source: int, divider: u32, value: u32) -> Seq<Step> {
    gpio::modify_steps(
        car(source),
        0xe100_ffff,
        (0x0100_0000 + divider) as u32,
        value,
    ).push(Step::Delay(2))
}

/// A rail was given its rate.
pub open spec fn rate_given(before: Seq<Access>, after: Seq<Access>, source: int, divider: u32) -> bool {
    mmio::did(
        before,
        after,
        rate_steps(source, divider, mmio::value_at(after, before.len() as int)),
    )
}

/// Gives a rail its rate.
pub fn uart_baud<R: Timed>(bus: &mut Bus<'_, R>, source: usize, baud: u32) -> (r: Result<
    (),
    &'static str,
>)
    requires
        source < 0x1000,
    ensures
        final(bus).port() == old(bus).port(),
        mmio::memory_kept(old(bus).log(), final(bus).log()),
        match divider_spec(baud) {
            None => r == Err::<(), &'static str>("unsupported rail UART baud") && final(bus).log()
                == old(bus).log(),
            Some(divider) => r == Ok::<(), &'static str>(()) && mmio::writes(final(bus).log())
                == mmio::writes(old(bus).log()).push(
                (
                    car(source as int),
                    (gpio::changed(final(bus).log(), car(source as int)) & !0xe100_ffffu32) | (
                    0x0100_0000 + divider) as u32,
                ),
            ) && rate_given(old(bus).log(), final(bus).log(), source as int, divider),
        },
{
    let divider: u32 = if baud == 1_000_000 {
        49
    } else if baud == 3_000_000 {
        15
    } else {
        return Err("unsupported rail UART baud");
    };
    modify(bus, CAR + source, 0xe100_ffff, 0x0100_0000 + divider);
    bus.delay_us(2);
    Ok(())
}

/// The source of the sensors' clock, from the divider that the firmware left.
pub open spec fn tsensor_spec(divider: u32) -> Option<u32> {
    let steps = divider / 4 % 4 + 1;
    if 96int % steps != 0 {
        None
    } else {
        Some((0x8000_0000 + (96int / steps - 1) * 2) as u32)
    }
}

/// What starts the clocks of the die's sensors: everything is prepared in reset.
pub open spec fn soctherm_writes(source: u32) -> Seq<(usize, u32)> {
    seq![
        (car(0x310), 0x4000),
        (car(0x644), 0x4000_000e),
        (car(0x3b8), source),
        (car(0x330), 0x4000),
        (car(0x440), 0x10),
        (car(0x314), 0x4000),
    ]
}

/// Whether the clocks of the die's sensors run.
pub open spec fn soctherm_ok(log: Seq<Access>, source: u32) -> bool {
    &&& mmio::last(log, car(0x18)) & 0x4000 != 0
    &&& mmio::last(log, car(0x360)) & 0x10 != 0
    &&& mmio::last(log, car(0x0c)) & 0x4000 == 0
    &&& mmio::last(log, car(0x644)) & 0xe000_00ff == 0x4000_000e
    &&& mmio::last(log, car(0x3b8)) & 0xc000_00ff == source
}

/// Starts the clocks of the die's sensors.
pub fn enable_soctherm_clocks<R: Timed>(bus: &mut Bus<'_, R>) -> (r: Result<(), &'static str>)
    ensures
        final(bus).port() == old(bus).port(),
        mmio::memory_kept(old(bus).log(), final(bus).log()),
        match tsensor_spec(mmio::last(final(bus).log(), car(0x55c))) {
            None => r == Err::<(), &'static str>("unsupported Tegra CLK_M divisor for TSENSOR")
                && mmio::writes(final(bus).log()) == mmio::writes(old(bus).log()),
            Some(source) => {
                &&& mmio::writes(final(bus).log()) == mmio::writes(old(bus).log())
                    + soctherm_writes(source)
                &&& r == if soctherm_ok(final(bus).log(), source) {
                    Ok::<(), &'static str>(())
                } else {
                    Err("SOCTHERM clock/reset readback failed")
                }
            },
        },
{
    let firmware: u32 = bus.read(CAR + 0x55c);
    let steps: u32 = firmware / 4 % 4 + 1;
    if 96 % steps != 0 {
        return Err("unsupported Tegra CLK_M divisor for TSENSOR");
    }
    let source: u32 = 0x8000_0000 + (96 / steps - 1) * 2;
    bus.write(CAR + 0x310, 0x4000);
    bus.write(CAR + 0x644, 0x4000_000e);
    bus.write(CAR + 0x3b8, source);
    bus.write(CAR + 0x330, 0x4000);
    bus.write(CAR + 0x440, 0x10);
    bus.delay_us(2);
    bus.write(CAR + 0x314, 0x4000);
    assert(mmio::writes(bus.log()) =~= mmio::writes(old(bus).log()) + soctherm_writes(source));
    if bus.read(CAR + 0x18) & 0x4000 == 0 || bus.read(CAR + 0x360) & 0x10 == 0 || bus.read(
        CAR + 0x0c,
    ) & 0x4000 != 0 || bus.read(CAR + 0x644) & 0xe000_00ff != 0x4000_000e || bus.read(CAR + 0x3b8)
        & 0xc000_00ff != source {
        return Err("SOCTHERM clock/reset readback failed");
    }
    Ok(())
}

/// How the fan's speed is written: the pulse is inverted, and a stopped fan is a
/// pulse of full length.
pub open spec fn fan_spec(duty: u8) -> u32 {
    (0x8000_0000 + (256 - duty) * 0x1_0000) as u32
}

pub fn fan_pwm_value(duty: u8) -> (r: u32)
    ensures
        r == fan_spec(duty),
{
    0x8000_0000 + (256 - duty as u32) * 0x1_0000
}

/// A faster fan has a shorter pulse, and a stopped one no other value.
pub proof fn fan_values_are_ordered(a: u8, b: u8)
    requires
        a < b,
    ensures
        fan_spec(a) > fan_spec(b),
        fan_spec(0) == 0x8100_0000,
{
}

/// Sets the fan's speed.
pub fn set_cooling_fan_duty<R: Timed>(bus: &mut Bus<'_, R>, duty: u8) -> (r: Result<
    (),
    &'static str,
>)
    ensures
        final(bus).port() == old(bus).port(),
        mmio::memory_kept(old(bus).log(), final(bus).log()),
        mmio::writes(final(bus).log()) == mmio::writes(old(bus).log()).push(
            ((PWM + 0x10) as usize, fan_spec(duty)),
        ),
        r == if mmio::last(final(bus).log(), (PWM + 0x10) as usize) == fan_spec(duty) {
            Ok::<(), &'static str>(())
        } else {
            Err("Tegra PWM1 fan duty did not read back")
        },
{
    let value: u32 = fan_pwm_value(duty);
    bus.write(PWM + 0x10, value);
    let back: u32 = bus.read(PWM + 0x10);
    if back != value {
        return Err("Tegra PWM1 fan duty did not read back");
    }
    Ok(())
}

/// What starts the fan, stopped.
pub open spec fn fan_writes(log: Seq<Access>) -> Seq<(usize, u32)> {
    seq![
        ((PWM + 0x10) as usize, 0x8100_0000),
        ((PADS + 0x20c) as usize, 1),
        gpio::masked_write(172, 0x80, false),
    ] + gpio::supply_writes(log)
}

/// Starts the fan, stopped. The clock that it shares with the backlight is never
/// reset; where the speed does not read back, what was there is put back.
pub fn enable_cooling_fan<R: Timed>(bus: &mut Bus<'_, R>, gpio: &TegraGpio) -> (r: Result<
    (),
    &'static str,
>)
    ensures
        final(bus).port() == old(bus).port(),
        mmio::memory_kept(old(bus).log(), final(bus).log()),
        ({
            let seen = mmio::reads(final(bus).log(), (PWM + 0x10) as usize);
            let n = mmio::reads(old(bus).log(), (PWM + 0x10) as usize).len() as int;
            match r {
                Ok(_) => seen[n + 1] == 0x8100_0000 && mmio::writes(final(bus).log())
                    == mmio::writes(old(bus).log()) + fan_writes(final(bus).log()),
                Err(e) => {
                    ||| e == "shared Tegra PWM clock is not running" && mmio::writes(
                        final(bus).log(),
                    ) == mmio::writes(old(bus).log())
                    ||| e == "Tegra PWM1 fan duty did not read back" && seen[n + 1] != 0x8100_0000
                        && mmio::writes(final(bus).log()) == mmio::writes(old(bus).log()) + seq![
                        ((PWM + 0x10) as usize, 0x8100_0000u32),
                        ((PWM + 0x10) as usize, seen[n]),
                    ]
                },
            }
        }),
{
    if bus.read(CAR + 0x10) & 0x2_0000 == 0 || bus.read(CAR + 0x04) & 0x2_0000 != 0 {
        return Err("shared Tegra PWM clock is not running");
    }
    let previous: u32 = bus.read(PWM + 0x10);
    let value: u32 = fan_pwm_value(0);
    bus.write(PWM + 0x10, value);
    let back: u32 = bus.read(PWM + 0x10);
    let ghost checked = bus.log();
    if back != value {
        bus.write(PWM + 0x10, previous);
        assert(mmio::writes(bus.log()) =~= mmio::writes(old(bus).log()) + seq![
            ((PWM + 0x10) as usize, 0x8100_0000u32),
            ((PWM + 0x10) as usize, previous),
        ]);
        return Err("Tegra PWM1 fan duty did not read back");
    }
    pad(bus, 0x20c, 1)?;
    gpio.peripheral(bus, 172)?;
    enable_rail_supply(bus, gpio)?;
    proof {
        let n = mmio::reads(old(bus).log(), (PWM + 0x10) as usize).len() as int;
        mmio::readings_stay(checked, bus.log(), (PWM + 0x10) as usize, n + 1);
        assert(mmio::writes(bus.log()) =~= mmio::writes(old(bus).log()) + fan_writes(bus.log()));
    }
    Ok(())
}

/// The fan is there, and its zone is watched.
pub fn cooling_fan_ready(fan: bool, zone: bool) -> (r: bool)
    ensures
        r == (fan && zone),
{
    fan && zone
}

/// The reference is the oscillator's frequency over the power of two that the same register
/// names.
pub proof fn references_are_divided_oscillators(osc: u32)
    ensures
        reference_spec(osc) is Some <==> osc / 0x1000_0000 == 5 || osc / 0x1000_0000 == 8,
        reference_spec(osc) matches Some(hz) ==> {
            let whole = if osc / 0x1000_0000 == 5 {
                38_400_000int
            } else {
                12_000_000
            };
            let shift = osc / 0x400_0000 % 4;
            &&& shift == 0 ==> hz == whole
            &&& shift == 1 ==> 2 * hz == whole
            &&& shift == 2 ==> 4 * hz == whole
            &&& shift == 3 ==> 8 * hz == whole
        },
{
}

/// The clock of a rail is sixteen times its rate, from 408 MHz in half steps.
pub proof fn rails_get_sixteen_times_their_rate(baud: u32)
    ensures
        divider_spec(baud) is Some <==> baud == 1_000_000 || baud == 3_000_000,
        divider_spec(baud) matches Some(d) ==> 16 * baud * (d + 2) <= 2 * 408_000_000 < 16 * baud * (
        d + 3),
{
}

/// The sensors' clock is that of the crystal over what the firmware left, brought to 400
/// kilohertz: its divider in half steps undoes theirs.
pub proof fn sensors_have_their_clock(divider: u32)
    ensures
        tsensor_spec(divider) matches Some(source) ==> {
            let steps = divider as int / 4 % 4 + 1;
            &&& source >= 0x8000_0000
            &&& (source - 0x8000_0000 + 2) * steps == 2 * 96
        },
{
}

/// A clock has one bit in one of three banks, and stands there with its number.
pub proof fn clocks_have_their_banks(id: u32)
    requires
        id < 96,
    ensures
        banks(id).0 == 0x300 + 8 * (id as int / 32),
        banks(id).1 == 0x320 + 8 * (id as int / 32),
{
}

/// A clock starts in reset, stopped, with its source set before it runs and its reset
/// released behind that.
pub proof fn clocks_start_in_reset(id: u32, source: usize, value: u32)
    requires
        id < 96,
    ensures
        ({
            let w = enable_writes(id, source, value);
            let bank = 8 * (id as int / 32);
            let bit = 1u32 << (id % 32);
            &&& w.len() == 5
            &&& w[0] == (car(0x300 + bank), bit)
            &&& w[1] == (car(0x324 + bank), bit)
            &&& w[2] == (car(source as int), value)
            &&& w[3] == (car(0x320 + bank), bit)
            &&& w[4] == (car(0x304 + bank), bit)
        }),
{
}

/// The fan's pulse is as long as its speed is low: a stopped fan has a pulse of full length,
/// and each step shortens it by one of 256.
pub proof fn the_fan_runs_in_the_pause(duty: u8)
    ensures
        fan_spec(duty) as int / 0x1_0000 % 0x8000 + duty == 256,
        fan_spec(duty) >= 0x8000_0000,
        fan_spec(duty) as int % 0x1_0000 == 0,
{
}

/// A rail's clock is sixteen times its rate, in halves above one, from the shared PLL; its
/// divider is enabled and the rest of its register kept.
pub proof fn rates_are_divided_from_the_shared_clock(source: int, divider: u32, value: u32)
    requires
        0 <= source < 0x1000,
        divider < 256,
    ensures
        rate_steps(source, divider, value) == gpio::modify_steps(
            (0x6000_6000 + source) as usize,
            0xe100_ffff,
            (0x0100_0000 + divider) as u32,
            value,
        ).push(Step::Delay(2)),
        divider_spec(1_000_000) == Some(49u32) && divider_spec(3_000_000) == Some(15u32),
{
}

} // verus!
