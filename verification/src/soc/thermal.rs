//! What the board measures and cools: a sensor chip, the fan, and the clock of the
//! graphics processor.
use vstd::prelude::*;

use crate::cpu::policy;
use crate::devicetree;
use crate::devicetree::{find_referred, read_node, read_nodes, region_covers, Node, NodeView};
use crate::i2c;
use crate::i2c::{Chips, Exchange, Wire};
use crate::mmio;
use crate::mmio::{Bus, Timed};
use crate::rounding;
use crate::rounding::divide;
use crate::soc::clocks;
use crate::soc::clocks::set_cooling_fan_duty;

verus! {

pub const ADDRESS: u8 = 0x4c;

/// The sensor chip counts from sixty-four degrees below zero in its wide range.
pub open spec fn offset_spec(config: u8) -> int {
    if config & 4 != 0 {
        64
    } else {
        0
    }
}

/// A limit as the chip has it.
pub open spec fn limit_spec(limit: u32, config: u8) -> Option<u8> {
    if limit + offset_spec(config) <= 255 {
        Some((limit + offset_spec(config)) as u8)
    } else {
        None
    }
}

/// What is wrong with the settings, the first thing first.
pub open spec fn settings_error(config: u8, local: u32, remote: u32, rate: u32) -> Option<
    &'static str,
> {
    if limit_spec(local, config) is None {
        Some("invalid local shutdown limit")
    } else if limit_spec(remote, config) is None {
        Some("invalid remote shutdown limit")
    } else if rate > 255 {
        Some("invalid TMP451 conversion rate")
    } else if rate > 9 {
        Some("TMP451 conversion rate exceeds datasheet limit")
    } else {
        None
    }
}

/// The exchanges of setting the chip up.
pub open spec fn configure_log(config: u8, local: u8, remote: u8, rate: u8, end: u8) -> Seq<
    Exchange,
> {
    seq![
        Exchange::Read(ADDRESS, 0xfe, Some(0x55u8)),
        Exchange::Read(ADDRESS, 0x03, Some(config)),
        Exchange::Write(ADDRESS, 0x19, remote, true),
        Exchange::Write(ADDRESS, 0x20, local, true),
        Exchange::Read(ADDRESS, 0x19, Some(remote)),
        Exchange::Read(ADDRESS, 0x20, Some(local)),
        Exchange::Write(ADDRESS, 0x0a, rate, true),
        Exchange::Read(ADDRESS, 0x04, Some(rate)),
    ] + if config & 0x40 != 0 {
        // A chip that was stopped goes on, with everything else as it was.
        seq![
            Exchange::Write(ADDRESS, 0x09, config & !0x40u8, true),
            Exchange::Read(ADDRESS, 0x03, Some(config & !0x40u8)),
            Exchange::Read(ADDRESS, 0x03, Some(end)),
        ]
    } else {
        seq![Exchange::Read(ADDRESS, 0x03, Some(end))]
    }
}

/// The chip was set up.
pub open spec fn was_configured(
    before: Seq<Exchange>,
    after: Seq<Exchange>,
    local: u32,
    remote: u32,
    rate: u32,
) -> bool {
    exists|config: u8, end: u8|
        settings_error(config, local, remote, rate) is None && after == before
            + #[trigger] configure_log(
            config,
            limit_spec(local, config)->0,
            limit_spec(remote, config)->0,
            rate as u8,
            end,
        )
}

/// The bus to the chip broke.
pub open spec fn lost(before: Seq<Exchange>, after: Seq<Exchange>, e: &'static str) -> bool {
    i2c::broken_as(before, after, e, "TMP451 I2C read failed", "TMP451 I2C write failed")
}

/// What a setting is called that does not read back.
pub open spec fn mismatch(register: u8) -> &'static str {
    if register == 0x03 {
        "TMP451 continuous-conversion readback failed"
    } else if register == 0x04 {
        "TMP451 conversion rate readback failed"
    } else {
        "TMP451 shutdown limit readback failed"
    }
}

/// What the chip answered at last is not what it should be.
pub open spec fn was_refused(
    before: Seq<Exchange>,
    after: Seq<Exchange>,
    local: u32,
    remote: u32,
    rate: u32,
    e: &'static str,
) -> bool {
    let n = before.len() as int;
    after.len() > n && match after.last() {
        Exchange::Read(_, register, Some(value)) => if after.len() == n + 1 {
            register == 0xfe && value != 0x55 && e == "TMP451 manufacturer ID mismatch"
        } else if after.len() == n + 2 {
            register == 0x03 && settings_error(value, local, remote, rate) == Some(e)
        } else {
            after[n + 1] matches Exchange::Read(_, _, Some(config)) && e == mismatch(register) && {
                ||| register == 0x19 && limit_spec(remote, config) != Some(value)
                ||| register == 0x20 && limit_spec(local, config) != Some(value)
                ||| register == 0x04 && value != rate
                ||| register == 0x03 && value != config & !0x40u8
            }
        },
        _ => false,
    }
}

/// A temperature in thousandths of a degree, from two registers.
pub open spec fn reading_spec(config: u8, high: u8, low: u8) -> int {
    rounding::truncated(((high - offset_spec(config)) * 16 + low / 16) * 1000, 16)
}

fn offset_of(config: u8) -> (r: u32)
    ensures
        r == offset_spec(config),
{
    if config & 4 != 0 {
        64
    } else {
        0
    }
}

fn limit_of(limit: u32, config: u8) -> (r: Option<u8>)
    ensures
        r == limit_spec(limit, config),
{
    match limit.checked_add(offset_of(config)) {
        None => None,
        Some(sum) => {
            if sum <= 255 {
                Some(sum as u8)
            } else {
                None
            }
        },
    }
}

/// A temperature in thousandths of a degree, from two registers.
pub fn reading(config: u8, high: u8, low: u8) -> (r: i32)
    ensures
        r == reading_spec(config, high, low),
        -64_000 <= r <= 256_000,
{
    let sixteenths: i64 = (high as i64 - offset_of(config) as i64) * 16 + (low / 16) as i64;
    divide(sixteenths * 1000, 16) as i32
}

/// The exchanges of measuring.
pub open spec fn temperature_log(local: bool, status: u8, config: u8, high: u8, low: u8) -> Seq<
    Exchange,
> {
    seq![
        Exchange::Read(ADDRESS, 0x02, Some(status)),
        Exchange::Read(ADDRESS, 0x03, Some(config)),
        // The high half first: it holds the low half still.
        Exchange::Read(
            ADDRESS,
            if local {
                0x00u8
            } else {
                0x01
            },
            Some(high),
        ),
        Exchange::Read(
            ADDRESS,
            if local {
                0x15u8
            } else {
                0x10
            },
            Some(low),
        ),
    ]
}

/// A temperature was measured by a chip that runs.
pub open spec fn was_measured(before: Seq<Exchange>, after: Seq<Exchange>, local: bool, t: int) -> bool {
    exists|status: u8, config: u8, high: u8, low: u8|
        status & 4 == 0 && config & 0x40 == 0 && t == reading_spec(config, high, low) && after
            == before + #[trigger] temperature_log(local, status, config, high, low)
}

/// The chip has nothing to measure with, or is stopped.
pub open spec fn cannot_measure(
    before: Seq<Exchange>,
    after: Seq<Exchange>,
    e: &'static str,
) -> bool {
    after.len() > before.len() && match after.last() {
        Exchange::Read(_, register, Some(value)) => {
            ||| register == 0x02 && value & 4 != 0 && e == "TMP451 remote diode open"
            ||| register == 0x03 && value & 0x40 != 0 && e == "TMP451 conversions stopped"
        },
        _ => false,
    }
}

/// The sensor chip.
#[derive(Clone, Copy, Debug, PartialEq, Eq, Structural)]
pub struct Tmp451 {}

impl Tmp451 {
    fn byte<C: Chips>(&self, wire: &mut Wire<'_, C>, register: u8) -> (r: Result<u8, &'static str>)
        ensures
            final(wire).port() == old(wire).port(),
            i2c::writes(final(wire).log()) == i2c::writes(old(wire).log()),
            match r {
                Ok(value) => final(wire).log() == old(wire).log().push(
                    Exchange::Read(ADDRESS, register, Some(value)),
                ),
                Err(e) => e == "TMP451 I2C read failed" && final(wire).log() == old(wire).log().push(Exchange::Read(ADDRESS, register, None)),
            },
    {
        match wire.read(ADDRESS, register) {
            None => Err("TMP451 I2C read failed"),
            Some(value) => Ok(value),
        }
    }

    fn write<C: Chips>(&self, wire: &mut Wire<'_, C>, register: u8, value: u8) -> (r: Result<
        (),
        &'static str,
    >)
        ensures
            final(wire).port() == old(wire).port(),
            final(wire).log() == old(wire).log().push(
                Exchange::Write(ADDRESS, register, value, r is Ok),
            ),
            r matches Err(e) ==> e == "TMP451 I2C write failed",
    {
        if wire.write(ADDRESS, register, value) {
            Ok(())
        } else {
            Err("TMP451 I2C write failed")
        }
    }

    /// Writes the settings, which were checked, and reads them back.
    fn set_up<C: Chips>(
        &self,
        wire: &mut Wire<'_, C>,
        config: u8,
        local: u8,
        remote: u8,
        rate: u8,
    ) -> (r: Result<u8, &'static str>)
        ensures
            final(wire).port() == old(wire).port(),
            match r {
                Ok(end) => final(wire).log() == old(wire).log() + configure_log(
                    config,
                    local,
                    remote,
                    rate,
                    end,
                ).skip(2),
                Err(e) => lost(old(wire).log(), final(wire).log(), e) || (final(wire).log().len() > old(wire).log().len() && (match final(wire).log().last() {
                    Exchange::Read(_, register, Some(value)) => e == mismatch(register) && {
                        ||| register == 0x19 && value != remote
                        ||| register == 0x20 && value != local
                        ||| register == 0x04 && value != rate
                        ||| register == 0x03 && value != config & !0x40u8
                    },
                    _ => false,
                })),
            },
            forall|i: int|
                0 <= i < old(wire).log().len() ==> final(wire).log()[i] == old(wire).log()[i],
    {
        self.write(wire, 0x19, remote)?;
        self.write(wire, 0x20, local)?;
        let a: u8 = self.byte(wire, 0x19)?;
        if a != remote {
            return Err("TMP451 shutdown limit readback failed");
        }
        let b: u8 = self.byte(wire, 0x20)?;
        if b != local {
            return Err("TMP451 shutdown limit readback failed");
        }
        self.write(wire, 0x0a, rate)?;
        let c: u8 = self.byte(wire, 0x04)?;
        if c != rate {
            return Err("TMP451 conversion rate readback failed");
        }
        if config & 0x40 != 0 {
            self.write(wire, 0x09, config & !0x40)?;
            let d: u8 = self.byte(wire, 0x03)?;
            if d != config & !0x40 {
                return Err("TMP451 continuous-conversion readback failed");
            }
        }
        let end: u8 = self.byte(wire, 0x03)?;
        assert(wire.log() =~= old(wire).log() + configure_log(
            config,
            local,
            remote,
            rate,
            end,
        ).skip(2));
        Ok(end)
    }

    /// Sets the chip up: it stops the machine above two limits by itself, and measures
    /// at some rate. Nothing is written where the settings do not fit.
    pub fn configure<C: Chips>(
        &self,
        wire: &mut Wire<'_, C>,
        local_limit: u32,
        remote_limit: u32,
        conversion_rate: u32,
    ) -> (r: Result<(), &'static str>)
        ensures
            final(wire).port() == old(wire).port(),
            r is Ok ==> was_configured(
                old(wire).log(),
                final(wire).log(),
                local_limit,
                remote_limit,
                conversion_rate,
            ),
            // Settings that do not fit are refused, and nothing is written.
            settings_error(0, local_limit, remote_limit, conversion_rate) is Some ==> r is Err
                && i2c::writes(final(wire).log()) == i2c::writes(old(wire).log()),
            r matches Err(e) ==> lost(old(wire).log(), final(wire).log(), e) || was_refused(
                old(wire).log(),
                final(wire).log(),
                local_limit,
                remote_limit,
                conversion_rate,
                e,
            ),
    {
        assert(0u8 & 4 == 0) by (bit_vector);
        let id: u8 = self.byte(wire, 0xfe)?;
        if id != 0x55 {
            return Err("TMP451 manufacturer ID mismatch");
        }
        let config: u8 = self.byte(wire, 0x03)?;
        let local: u8 = match limit_of(local_limit, config) {
            None => {
                return Err("invalid local shutdown limit");
            },
            Some(local) => local,
        };
        let remote: u8 = match limit_of(remote_limit, config) {
            None => {
                return Err("invalid remote shutdown limit");
            },
            Some(remote) => remote,
        };
        if conversion_rate > 255 {
            return Err("invalid TMP451 conversion rate");
        }
        let rate: u8 = conversion_rate as u8;
        if rate > 9 {
            return Err("TMP451 conversion rate exceeds datasheet limit");
        }
        let end: u8 = self.set_up(wire, config, local, remote, rate)?;
        assert(wire.log() =~= old(wire).log() + configure_log(config, local, remote, rate, end));
        Ok(())
    }

    /// Measures the temperature of the chip itself, or that of the processor.
    pub fn temperature<C: Chips>(&self, wire: &mut Wire<'_, C>, local: bool) -> (r: Result<
        i32,
        &'static str,
    >)
        ensures
            final(wire).port() == old(wire).port(),
            i2c::writes(final(wire).log()) == i2c::writes(old(wire).log()),
            match r {
                Ok(t) => -64_000 <= t <= 256_000 && was_measured(
                    old(wire).log(),
                    final(wire).log(),
                    local,
                    t as int,
                ),
                Err(e) => lost(old(wire).log(), final(wire).log(), e) || cannot_measure(
                    old(wire).log(),
                    final(wire).log(),
                    e,
                ),
            },
    {
        let status: u8 = self.byte(wire, 0x02)?;
        if status & 4 != 0 {
            return Err("TMP451 remote diode open");
        }
        let config: u8 = self.byte(wire, 0x03)?;
        if config & 0x40 != 0 {
            return Err("TMP451 conversions stopped");
        }
        let high: u8 = self.byte(
            wire,
            if local {
                0x00
            } else {
                0x01
            },
        )?;
        let low: u8 = self.byte(
            wire,
            if local {
                0x15
            } else {
                0x10
            },
        )?;
        assert(wire.log() =~= old(wire).log() + temperature_log(local, status, config, high, low));
        Ok(reading(config, high, low))
    }
}

/// How warm the case is where one place is some temperature.
pub open spec fn estimate_spec(temperature: int, scale: int, offset: int) -> int {
    rounding::truncated(temperature * scale + offset * 1000, 10_000) + 500
}

/// How warm the case is: as warm as either place says.
pub open spec fn skin_spec(soc: int, board: int) -> int {
    let a = estimate_spec(soc, 6182, 112_480);
    let b = estimate_spec(board, 6396, 119_440);
    if a >= b {
        a
    } else {
        b
    }
}

/// How warm the case is, from the temperatures of the processor and the board.
pub fn skin(soc: i32, board: i32) -> (r: i32)
    ensures
        r == skin_spec(soc as int, board as int),
{
    let a: i64 = divide(soc as i64 * 6182 + 112_480 * 1000, 10_000) + 500;
    let b: i64 = divide(board as i64 * 6396 + 119_440 * 1000, 10_000) + 500;
    if a >= b {
        a as i32
    } else {
        b as i32
    }
}

/// Both temperatures were measured, the processor's first.
pub open spec fn was_felt(before: Seq<Exchange>, after: Seq<Exchange>, r: int) -> bool {
    exists|middle: Seq<Exchange>, soc: int, board: int| #[trigger]
        was_measured(before, middle, false, soc) && #[trigger] was_measured(
            middle,
            after,
            true,
            board,
        ) && r == skin_spec(soc, board)
}

/// Measures how warm the case is.
pub fn measure_skin<C: Chips>(sensor: &Tmp451, wire: &mut Wire<'_, C>) -> (r: Result<
    i32,
    &'static str,
>)
    ensures
        final(wire).port() == old(wire).port(),
        i2c::writes(final(wire).log()) == i2c::writes(old(wire).log()),
        match r {
            Ok(t) => was_felt(old(wire).log(), final(wire).log(), t as int),
            Err(e) => {
                ||| lost(old(wire).log(), final(wire).log(), e)
                ||| cannot_measure(old(wire).log(), final(wire).log(), e)
                ||| exists|middle: Seq<Exchange>, soc: int| #[trigger]
                    was_measured(old(wire).log(), middle, false, soc) && (lost(
                        middle,
                        final(wire).log(),
                        e,
                    ) || cannot_measure(middle, final(wire).log(), e))
            },
        },
{
    let soc: i32 = sensor.temperature(wire, false)?;
    let ghost middle = wire.log();
    assert(was_measured(old(wire).log(), middle, false, soc as int));
    let board: i32 = sensor.temperature(wire, true)?;
    assert(was_measured(old(wire).log(), middle, false, soc as int));
    assert(was_measured(middle, wire.log(), true, board as int));
    Ok(skin(soc, board))
}

/// A hotter place never makes the case colder.
pub proof fn warmer_places_warm_the_case(soc: int, soc2: int, board: int, board2: int)
    requires
        soc <= soc2,
        board <= board2,
    ensures
        skin_spec(soc, board) <= skin_spec(soc2, board2),
{
}

/// A higher reading is never a lower temperature.
pub proof fn higher_readings_are_warmer(config: u8, high: u8, low: u8, high2: u8, low2: u8)
    requires
        high < high2 || (high == high2 && low <= low2),
    ensures
        reading_spec(config, high, low) <= reading_spec(config, high2, low2),
{
}

/// The greatest clock of the graphics processor while it is cooled.
pub open spec fn cap_spec(state: u32) -> Option<u64> {
    if state == 0 {
        Some(307_200)
    } else if state == 1 {
        Some(153_600)
    } else if state == 2 {
        Some(76_800)
    } else {
        None
    }
}

/// The greatest clock of the graphics processor, in kilohertz, while it is cooled.
pub fn gpu_cap(state: u32) -> (r: Result<u64, &'static str>)
    ensures
        match cap_spec(state) {
            Some(khz) => r == Ok::<u64, &'static str>(khz),
            None => r == Err::<u64, &'static str>("invalid GM20B thermal cooling state"),
        },
{
    match state {
        0 => Ok(307_200),
        1 => Ok(153_600),
        2 => Ok(76_800),
        _ => Err("invalid GM20B thermal cooling state"),
    }
}

/// Each state of cooling halves the clock.
pub proof fn cooling_slows_down(state: u32)
    requires
        state < 2,
    ensures
        cap_spec(state)->0 == 2 * cap_spec((state + 1) as u32)->0,
{
}

/// Sets the speed of the fan to a state of cooling.
pub fn set_fan_state<R: Timed>(bus: &mut Bus<'_, R>, state: u32) -> (r: Result<(), &'static str>)
    ensures
        final(bus).port() == old(bus).port(),
        mmio::extends(old(bus).log(), final(bus).log()),
        if state > 255 {
            &&& r == Err::<(), &'static str>("invalid Switch fan state")
            &&& final(bus).log() == old(bus).log()
        } else {
            &&& mmio::writes(final(bus).log()) == mmio::writes(old(bus).log()).push(
                ((crate::soc::map::PWM + 0x10) as usize, clocks::fan_spec(state as u8)),
            )
            &&& r is Ok <==> mmio::last(
                final(bus).log(),
                (crate::soc::map::PWM + 0x10) as usize,
            ) == clocks::fan_spec(state as u8)
        },
{
    if state > 255 {
        return Err("invalid Switch fan state");
    }
    set_cooling_fan_duty(bus, state as u8)
}

/// The provider of pulses is the one that is known, and drives the fan.
pub open spec fn pwm_ok(device: NodeView, pwm: NodeView, provider: u32) -> bool {
    &&& pwm.is_compatible("nvidia,tegra20-pwm"@)
    &&& devicetree::covers(pwm.region, 0x7000_a000, 0x100)
    &&& pwm.cell("clocks"@, 1) == Some(17u32)
    &&& pwm.cell("resets"@, 0) == Some(provider)
    &&& pwm.cell("resets"@, 1) == Some(17u32)
    &&& device.cell("pwms"@, 0) == pwm.phandle()
    &&& device.cell("pwms"@, 1) == Some(1u32)
    &&& device.cell("pwms"@, 2) == Some(0x8235u32)
}

/// The supply of the fan and the way of its pulses are those that are known.
pub open spec fn supply_ok(supply: NodeView, gpio: NodeView, data: NodeView, provider: u32) -> bool {
    &&& supply.text("regulator-name"@) == Some("v_vdd50_a"@)
    &&& supply.cell("gpio"@, 1) == Some(5u32)
    &&& supply.cell("gpio"@, 2) == Some(0u32)
    &&& gpio.phandle() == Some(provider)
    &&& data.cell("pwm_id"@, 0) == Some(1u32)
    &&& data.cell("pwm_period"@, 0) == Some(0x8235u32)
    &&& data.cell("pwm_polarity"@, 0) == Some(1u32)
    &&& data.cell("pwm_gpio"@, 0) == Some(provider)
    &&& data.cell("pwm_gpio"@, 1) == Some(172u32)
    &&& data.cell("pwm_gpio"@, 2) == Some(1u32)
}

/// A node that is there and enabled.
pub open spec fn present(node: Option<NodeView>) -> bool {
    node is Some && node->0.enabled()
}

/// Who gives the fan its clock and its pins; or what is wrong, the first thing first.
pub open spec fn fan_spec(
    device: NodeView,
    pwm: Option<NodeView>,
    gpio: Option<NodeView>,
    nodes: Seq<NodeView>,
) -> Result<(u32, u32), &'static str> {
    let supply = devicetree::referred(nodes, device.cell("vdd-fan-supply"@, 0));
    let data = devicetree::referred(nodes, device.cell("shared_data"@, 0));
    if !present(pwm) {
        Err("missing Tegra PWM provider")
    } else if pwm->0.region is None {
        Err("missing Tegra PWM registers")
    } else if pwm->0.cell("clocks"@, 0) is None {
        Err("missing PWM clock provider")
    } else if !pwm_ok(device, pwm->0, pwm->0.cell("clocks"@, 0)->0) {
        Err("unsupported ODIN fan PWM wiring")
    } else if supply is None {
        Err("missing ODIN fan 5-V supply")
    } else if supply->0.cell("gpio"@, 0) is None {
        Err("missing fan supply GPIO")
    } else if !present(gpio) {
        Err("missing Tegra fan GPIO provider")
    } else if data is None {
        Err("missing ODIN fan PWM routing")
    } else if !supply_ok(supply->0, gpio->0, data->0, supply->0.cell("gpio"@, 0)->0) {
        Err("unsupported ODIN fan supply wiring")
    } else {
        Ok((pwm->0.cell("clocks"@, 0)->0, supply->0.cell("gpio"@, 0)->0))
    }
}

fn check_pwm(device: &Node, pwm: &Node, region: (u64, Option<usize>), provider: u32) -> (r: bool)
    requires
        pwm.region == Some(region),
    ensures
        r == pwm_ok(device@, pwm@, provider),
{
    let a: Option<u32> = pwm.cell("clocks", 1);
    let b: Option<u32> = pwm.cell("resets", 0);
    let c: Option<u32> = pwm.cell("resets", 1);
    let d: Option<u32> = device.cell("pwms", 0);
    let e: Option<u32> = pwm.phandle();
    let f: Option<u32> = device.cell("pwms", 1);
    let g: Option<u32> = device.cell("pwms", 2);
    pwm.is_compatible("nvidia,tegra20-pwm") && region_covers(region, 0x7000_a000, 0x100) && a
        == Some(17u32) && b == Some(provider) && c == Some(17u32) && d == e && f == Some(1u32) && g
        == Some(0x8235u32)
}

fn check_supply(supply: &Node, gpio: &Node, data: &Node, provider: u32) -> (r: bool)
    ensures
        r == supply_ok(supply@, gpio@, data@, provider),
{
    let a: Option<u32> = supply.cell("gpio", 1);
    let b: Option<u32> = supply.cell("gpio", 2);
    let c: Option<u32> = gpio.phandle();
    let d: Option<u32> = data.cell("pwm_id", 0);
    let e: Option<u32> = data.cell("pwm_period", 0);
    let f: Option<u32> = data.cell("pwm_polarity", 0);
    let g: Option<u32> = data.cell("pwm_gpio", 0);
    let h: Option<u32> = data.cell("pwm_gpio", 1);
    let i: Option<u32> = data.cell("pwm_gpio", 2);
    supply.text_is("regulator-name", "v_vdd50_a") && a == Some(5u32) && b == Some(0u32) && c
        == Some(provider) && d == Some(1u32) && e == Some(0x8235u32) && f == Some(1u32) && g
        == Some(provider) && h == Some(172u32) && i == Some(1u32)
}

/// Checks how the fan is connected, from nodes that were read.
pub fn fan_wiring_of(
    device: &Node,
    pwm: &Option<Node>,
    gpio: &Option<Node>,
    nodes: &Vec<Node>,
) -> (r: Result<(u32, u32), &'static str>)
    ensures
        r == fan_spec(
            device@,
            policy::view_of(*pwm),
            policy::view_of(*gpio),
            devicetree::views(nodes@),
        ),
{
    let pwm = match pwm {
        None => {
            return Err("missing Tegra PWM provider");
        },
        Some(node) => node,
    };
    if !pwm.enabled() {
        return Err("missing Tegra PWM provider");
    }
    let region: (u64, Option<usize>) = match pwm.region {
        None => {
            return Err("missing Tegra PWM registers");
        },
        Some(region) => region,
    };
    let clock: u32 = match pwm.cell("clocks", 0) {
        None => {
            return Err("missing PWM clock provider");
        },
        Some(clock) => clock,
    };
    if !check_pwm(device, pwm, region, clock) {
        return Err("unsupported ODIN fan PWM wiring");
    }
    let supply = match find_referred(nodes, device.cell("vdd-fan-supply", 0)) {
        None => {
            return Err("missing ODIN fan 5-V supply");
        },
        Some(node) => node,
    };
    let pins: u32 = match supply.cell("gpio", 0) {
        None => {
            return Err("missing fan supply GPIO");
        },
        Some(pins) => pins,
    };
    let gpio = match gpio {
        None => {
            return Err("missing Tegra fan GPIO provider");
        },
        Some(node) => node,
    };
    if !gpio.enabled() {
        return Err("missing Tegra fan GPIO provider");
    }
    let data = match find_referred(nodes, device.cell("shared_data", 0)) {
        None => {
            return Err("missing ODIN fan PWM routing");
        },
        Some(node) => node,
    };
    if !check_supply(supply, gpio, data, pins) {
        return Err("unsupported ODIN fan supply wiring");
    }
    Ok((clock, pins))
}

/// Checks how the board describes the fan.
pub fn fan_wiring(blob: &[u8], device: &Node) -> (r: Result<(u32, u32), &'static str>)
    requires
        devicetree::well_formed(blob@),
    ensures
        r == fan_spec(
            device@,
            devicetree::tree_node(blob@, "/pwm@7000a000"@),
            devicetree::tree_node(blob@, "/gpio@6000d000"@),
            devicetree::tree_nodes(blob@),
        ),
{
    proof {
        reveal_strlit("/pwm@7000a000");
        reveal_strlit("/gpio@6000d000");
    }
    let pwm = read_node(blob, "/pwm@7000a000");
    let gpio = read_node(blob, "/gpio@6000d000");
    let nodes = read_nodes(blob);
    fan_wiring_of(device, &pwm, &gpio, &nodes)
}

/// What is wrong with the description of the sensor chip.
pub open spec fn sensor_error(device: NodeView, nodes: Seq<NodeView>) -> Option<&'static str> {
    let supply = devicetree::referred(nodes, device.cell("vdd-supply"@, 0));
    if device.cell("reg"@, 0) != Some(0x4cu32) || device.cell("extended-rage"@, 0) != Some(1u32)
        || device.cell("vdd-supply"@, 0) is None {
        Some("unsupported ODIN TMP451 wiring")
    } else if supply is None {
        Some("missing TMP451 supply")
    } else if supply->0.text("regulator-name"@) != Some("vdd-1v8"@) || supply->0.property(
        "regulator-always-on"@,
    ) is None {
        Some("unsupported TMP451 supply wiring")
    } else {
        None
    }
}

/// The settings of the sensor chip: both limits, and the rate.
pub open spec fn sensor_settings(device: NodeView) -> Result<(u32, u32, u32), &'static str> {
    if device.cell("loc-shutdown-limit"@, 0) is None {
        Err("missing local TMP451 limit")
    } else if device.cell("ext-shutdown-limit"@, 0) is None {
        Err("missing remote TMP451 limit")
    } else if device.cell("conv-rate"@, 0) is None {
        Err("missing TMP451 conversion rate")
    } else {
        Ok(
            (
                device.cell("loc-shutdown-limit"@, 0)->0,
                device.cell("ext-shutdown-limit"@, 0)->0,
                device.cell("conv-rate"@, 0)->0,
            ),
        )
    }
}

/// Checks the description of the sensor chip, from nodes that were read.
pub fn check_sensor_of(device: &Node, nodes: &Vec<Node>) -> (r: Result<(), &'static str>)
    ensures
        match r {
            Ok(_) => sensor_error(device@, devicetree::views(nodes@)) is None,
            Err(e) => sensor_error(device@, devicetree::views(nodes@)) == Some(e),
        },
{
    let address: Option<u32> = device.cell("reg", 0);
    let range: Option<u32> = device.cell("extended-rage", 0);
    let supply: Option<u32> = device.cell("vdd-supply", 0);
    if address != Some(0x4cu32) || range != Some(1u32) || supply.is_none() {
        return Err("unsupported ODIN TMP451 wiring");
    }
    match find_referred(nodes, supply) {
        None => Err("missing TMP451 supply"),
        Some(node) => {
            if !node.text_is("regulator-name", "vdd-1v8") || node.property(
                "regulator-always-on",
            ).is_none() {
                Err("unsupported TMP451 supply wiring")
            } else {
                Ok(())
            }
        },
    }
}

/// Checks how the board describes the sensor chip.
pub fn check_sensor(blob: &[u8], device: &Node) -> (r: Result<(), &'static str>)
    requires
        devicetree::well_formed(blob@),
    ensures
        match r {
            Ok(_) => sensor_error(device@, devicetree::tree_nodes(blob@)) is None,
            Err(e) => sensor_error(device@, devicetree::tree_nodes(blob@)) == Some(e),
        },
{
    let nodes = read_nodes(blob);
    check_sensor_of(device, &nodes)
}

/// Checks the bus of the sensor chip.
pub fn check_transport(number: u32, speed_hz: u32) -> (r: Result<(), &'static str>)
    ensures
        r == if number == 1 && speed_hz == 100_000 {
            Ok::<(), &'static str>(())
        } else {
            Err("unsupported TMP451 I2C transport")
        },
{
    if number != 1 || speed_hz != 100_000 {
        return Err("unsupported TMP451 I2C transport");
    }
    Ok(())
}

/// Reads the settings of the sensor chip.
pub fn settings(device: &Node) -> (r: Result<(u32, u32, u32), &'static str>)
    ensures
        r == sensor_settings(device@),
{
    let local: u32 = match device.cell("loc-shutdown-limit", 0) {
        None => {
            return Err("missing local TMP451 limit");
        },
        Some(limit) => limit,
    };
    let remote: u32 = match device.cell("ext-shutdown-limit", 0) {
        None => {
            return Err("missing remote TMP451 limit");
        },
        Some(limit) => limit,
    };
    match device.cell("conv-rate", 0) {
        None => Err("missing TMP451 conversion rate"),
        Some(rate) => Ok((local, remote, rate)),
    }
}

/// A reading is a temperature at sixteen steps to the degree, from 64 degrees below zero in
/// the wide range and from zero otherwise, in thousandths rounded towards zero.
pub proof fn readings_are_temperatures(config: u8, high: u8, low: u8, t: int)
    requires
        t == reading_spec(config, high, low),
    ensures
        ({
            let degrees = if config & 4 != 0 {
                high - 64
            } else {
                high as int
            };
            let steps = 16 * degrees + low as int / 16;
            if steps >= 0 {
                16 * t <= 1000 * steps < 16 * (t + 1)
            } else {
                16 * (t - 1) < 1000 * steps <= 16 * t
            }
        }),
{
}

/// A limit that the chip has means the degrees that were asked for.
pub proof fn limits_are_what_was_asked_for(limit: u32, config: u8)
    ensures
        limit_spec(limit, config) matches Some(v) ==> reading_spec(config, v, 0) == 1000 * limit,
        limit_spec(limit, config) is None ==> limit + (if config & 4 != 0 {
            64int
        } else {
            0
        }) > 255,
{
}

/// The case is half a degree warmer than each place says: 0.6182 of the processor's
/// temperature and 11.248 degrees, or 0.6396 of the board's and 11.944 degrees, whichever is
/// more.
pub proof fn the_case_is_as_warm_as_either_place(soc: int, board: int)
    requires
        0 <= soc,
        0 <= board,
    ensures
        ({
            let r = skin_spec(soc, board) - 500;
            let a = 6182 * soc + 112_480_000;
            let b = 6396 * board + 119_440_000;
            let most = if a >= b {
                a
            } else {
                b
            };
            10_000 * r <= most < 10_000 * (r + 1)
        }),
{
}

/// Cooling begins from 307.2 MHz, and has three states.
pub proof fn cooling_has_three_states(state: u32)
    ensures
        cap_spec(0) == Some(307_200u64),
        cap_spec(state) is Some <==> state < 3,
{
}

/// The chip is asked who it is before it is told anything, its limits are seen as they were
/// written, and a stopped chip is let go last.
pub proof fn chips_are_configured_with_care(config: u8, local: u8, remote: u8, rate: u8, end: u8)
    ensures
        ({
            let l = configure_log(config, local, remote, rate, end);
            &&& l[0] == Exchange::Read(0x4c, 0xfe, Some(0x55u8))
            &&& l[1] == Exchange::Read(0x4c, 0x03, Some(config))
            &&& l[2] == Exchange::Write(0x4c, 0x19, remote, true) && l[4] == Exchange::Read(
                0x4c,
                0x19,
                Some(remote),
            )
            &&& l[3] == Exchange::Write(0x4c, 0x20, local, true) && l[5] == Exchange::Read(
                0x4c,
                0x20,
                Some(local),
            )
            &&& l[6] == Exchange::Write(0x4c, 0x0a, rate, true) && l[7] == Exchange::Read(
                0x4c,
                0x04,
                Some(rate),
            )
            &&& config & 0x40 != 0 ==> l.len() == 11 && l[8] == Exchange::Write(
                0x4c,
                0x09,
                config & !0x40u8,
                true,
            )
            &&& config & 0x40 == 0 ==> l.len() == 9
        }),
{
}

/// Each place has its own two registers, of which the higher is read first; a setting is
/// taken if its limits have room and its rate is at most nine.
pub proof fn places_have_their_registers(
    local: bool,
    status: u8,
    config: u8,
    high: u8,
    low: u8,
    rate: u32,
)
    ensures
        ({
            let l = temperature_log(local, status, config, high, low);
            &&& l.len() == 4
            &&& l[0] == Exchange::Read(0x4c, 0x02, Some(status))
            &&& local ==> l[2] == Exchange::Read(0x4c, 0x00, Some(high)) && l[3] == Exchange::Read(
                0x4c,
                0x15,
                Some(low),
            )
            &&& !local ==> l[2] == Exchange::Read(0x4c, 0x01, Some(high)) && l[3] == Exchange::Read(
                0x4c,
                0x10,
                Some(low),
            )
        }),
        settings_error(config, 0, 0, rate) is None <==> rate <= 9,
{
}

/// The fan is the second output of its controller, with its period, and has five volts by the
/// fifth pin; its own pin is the 172nd.
pub proof fn known_fans_are_taken(
    device: NodeView,
    pwm: NodeView,
    supply: NodeView,
    gpio: NodeView,
    data: NodeView,
    provider: u32,
)
    ensures
        pwm_ok(device, pwm, provider) ==> {
            &&& pwm.is_compatible("nvidia,tegra20-pwm"@)
            &&& pwm.region matches Some((start, Some(size))) && start == 0x7000_a000 && size >= 0x100
            &&& pwm.cell("clocks"@, 1) == Some(17u32) && pwm.cell("resets"@, 1) == Some(17u32)
            &&& pwm.cell("resets"@, 0) == Some(provider)
            &&& device.cell("pwms"@, 0) == pwm.phandle() && device.cell("pwms"@, 1) == Some(1u32)
                && device.cell("pwms"@, 2) == Some(33_333u32)
        },
        supply_ok(supply, gpio, data, provider) ==> {
            &&& supply.text("regulator-name"@) == Some("v_vdd50_a"@)
            &&& supply.cell("gpio"@, 1) == Some(5u32) && supply.cell("gpio"@, 2) == Some(0u32)
            &&& gpio.phandle() == Some(provider) && data.cell("pwm_gpio"@, 0) == Some(provider)
            &&& data.cell("pwm_id"@, 0) == Some(1u32) && data.cell("pwm_period"@, 0) == Some(
                33_333u32,
            )
            &&& data.cell("pwm_polarity"@, 0) == Some(1u32) && data.cell("pwm_gpio"@, 1) == Some(
                172u32,
            ) && data.cell("pwm_gpio"@, 2) == Some(1u32)
        },
{
}

/// The sensor is at 0x4c with its extended range and a supply that is always on; its limits
/// and its rate are each in their own cell.
pub proof fn known_sensors_are_taken(device: NodeView, nodes: Seq<NodeView>)
    ensures
        sensor_error(device, nodes) is None ==> device.cell("reg"@, 0) == Some(0x4cu32)
            && device.cell("extended-rage"@, 0) == Some(1u32) && device.cell("vdd-supply"@, 0) is Some,
        sensor_settings(device) matches Ok((local, remote, rate)) ==> device.cell(
            "loc-shutdown-limit"@,
            0,
        ) == Some(local) && device.cell("ext-shutdown-limit"@, 0) == Some(remote) && device.cell(
            "conv-rate"@,
            0,
        ) == Some(rate),
{
}

} // verus!
