//! Which controllers of buses and rails there are, how they are brought up, and the
//! gates that interrupts pass.
use vstd::prelude::*;

use crate::devicetree::{Node, NodeView};
use crate::mmio;
use crate::mmio::{Access, Bus, Registers, Timed};
use crate::soc::clocks;
use crate::soc::clocks::enable;
use crate::soc::gpio;
use crate::soc::gpio::{line, pad, TegraGpio};
use crate::soc::map::PADS;
use crate::soc::packet;

verus! {

/// The description names the clock and the reset that a controller has.
pub open spec fn clock_ok(device: NodeView, provider: u32, reset: u32, clock: u32) -> bool {
    &&& device.cell("clocks"@, 0) == Some(provider)
    &&& device.cell("clocks"@, 1) == Some(clock)
    &&& device.cell("resets"@, 0) == Some(provider)
    &&& device.cell("resets"@, 1) == Some(reset)
}

/// Checks that the description names the clock and the reset that a controller has.
pub fn validate(device: &Node, provider: u32, reset: u32, clock: u32) -> (r: Result<
    (),
    &'static str,
>)
    ensures
        r == if clock_ok(device@, provider, reset, clock) {
            Ok::<(), &'static str>(())
        } else {
            Err("unsupported Tegra clock/reset wiring")
        },
{
    let a: Option<u32> = device.cell("clocks", 0);
    let b: Option<u32> = device.cell("clocks", 1);
    let c: Option<u32> = device.cell("resets", 0);
    let d: Option<u32> = device.cell("resets", 1);
    if a != Some(provider) || b != Some(clock) || c != Some(provider) || d != Some(reset) {
        return Err("unsupported Tegra clock/reset wiring");
    }
    Ok(())
}

/// The number by which others refer to a controller.
pub fn phandle(device: &Node) -> (r: Result<u32, &'static str>)
    ensures
        match device@.phandle() {
            Some(id) => r == Ok::<u32, &'static str>(id),
            None => r == Err::<u32, &'static str>("peripheral has no phandle"),
        },
{
    match device.phandle() {
        Some(id) => Ok(id),
        None => Err("peripheral has no phandle"),
    }
}

/// The size of the opening that begins somewhere.
pub open spec fn opening_spec(openings: Seq<(u64, u64)>, start: u64) -> Option<u64>
    decreases openings.len(),
{
    if openings.len() == 0 {
        None
    } else if openings[0].0 == start {
        Some(openings[0].1)
    } else {
        opening_spec(openings.skip(1), start)
    }
}

/// Finds the opening that begins somewhere, and checks that it is large enough.
pub fn resource(openings: &Vec<(u64, u64)>, start: u64, least: u64) -> (r: Result<
    u64,
    &'static str,
>)
    ensures
        match opening_spec(openings@, start) {
            None => r == Err::<u64, &'static str>("unexpected Tegra peripheral address"),
            Some(size) => if size < least {
                r == Err::<u64, &'static str>("truncated Tegra peripheral resource")
            } else {
                r == Ok::<u64, &'static str>(size)
            },
        },
{
    let mut i: usize = 0;
    assert(openings@.skip(0) =~= openings@);
    while i < openings.len()
        invariant
            i <= openings@.len(),
            opening_spec(openings@.skip(i as int), start) == opening_spec(openings@, start),
        decreases openings@.len() - i,
    {
        assert(openings@.skip(i as int)[0] == openings@[i as int]);
        assert(openings@.skip(i as int).skip(1) =~= openings@.skip(i + 1));
        if openings[i].0 == start {
            if openings[i].1 < least {
                return Err("truncated Tegra peripheral resource");
            }
            return Ok(openings[i].1);
        }
        i = i + 1;
    }
    Err("unexpected Tegra peripheral address")
}

/// A controller of a bus.
#[derive(Clone, Copy, Debug, PartialEq, Eq, Structural)]
pub struct I2cInstance {
    pub number: u32,
    pub reset: u32,
    pub source: usize,
    pub speed_hz: u32,
    pub divider: u32,
}

pub open spec fn i2c_spec(address: u64) -> Option<I2cInstance> {
    if address == 0x7000_c000 {
        Some(
            I2cInstance { number: 1, reset: 12, source: 0x124, speed_hz: 100_000, divider: 3 },
        )
    } else if address == 0x7000_c500 {
        Some(
            I2cInstance { number: 3, reset: 67, source: 0x1b8, speed_hz: 400_000, divider: 0 },
        )
    } else if address == 0x7000_d000 {
        Some(
            I2cInstance { number: 5, reset: 47, source: 0x128, speed_hz: 400_000, divider: 0 },
        )
    } else {
        None
    }
}

/// What is wrong with the description of a bus, the first thing first.
pub open spec fn i2c_error(device: NodeView, address: Option<u64>) -> Option<&'static str> {
    match address {
        None => Some("I2C has no MMIO"),
        Some(address) => match i2c_spec(address) {
            None => Some("Tegra I2C instance not supported yet"),
            Some(instance) => if device.cell("clock-frequency"@, 0) != Some(instance.speed_hz) {
                Some("unsupported Tegra I2C bus frequency")
            } else {
                None
            },
        },
    }
}

/// Finds which bus a description means.
pub fn i2c_instance(device: &Node, address: Option<u64>) -> (r: Result<
    I2cInstance,
    &'static str,
>)
    ensures
        match r {
            Ok(instance) => i2c_error(device@, address) is None && i2c_spec(address->0) == Some(
                instance,
            ),
            Err(e) => i2c_error(device@, address) == Some(e),
        },
{
    let instance = match address {
        None => {
            return Err("I2C has no MMIO");
        },
        Some(0x7000_c000) => I2cInstance {
            number: 1,
            reset: 12,
            source: 0x124,
            speed_hz: 100_000,
            divider: 3,
        },
        Some(0x7000_c500) => I2cInstance {
            number: 3,
            reset: 67,
            source: 0x1b8,
            speed_hz: 400_000,
            divider: 0,
        },
        Some(0x7000_d000) => I2cInstance {
            number: 5,
            reset: 47,
            source: 0x128,
            speed_hz: 400_000,
            divider: 0,
        },
        _ => {
            return Err("Tegra I2C instance not supported yet");
        },
    };
    let speed: Option<u32> = device.cell("clock-frequency", 0);
    if speed != Some(instance.speed_hz) {
        return Err("unsupported Tegra I2C bus frequency");
    }
    Ok(instance)
}

/// The pins of a bus.
pub open spec fn i2c_pins(number: u32) -> (u32, u32) {
    if number == 1 {
        (72, 73)
    } else if number == 3 {
        (40, 41)
    } else {
        (195, 196)
    }
}

/// What connects a bus to its pins.
pub open spec fn i2c_pads(number: u32) -> Seq<(usize, u32)> {
    seq![
        ((PADS + 0xbc + (number - 1) * 8) as usize, 0x40u32),
        ((PADS + 0xc0 + (number - 1) * 8) as usize, 0x40u32),
        gpio::masked_write(i2c_pins(number).0, 0x80, false),
        gpio::masked_write(i2c_pins(number).1, 0x80, false),
    ] + if number == 3 {
        seq![((PADS + 0xd4) as usize, 0x41u32), ((PADS + 0xd8) as usize, 0x41u32)]
    } else {
        seq![]
    }
}

/// Connects a bus to its pins, and starts its clock.
pub fn prepare_i2c<R: Timed>(bus: &mut Bus<'_, R>, gpio: &TegraGpio, instance: I2cInstance) -> (r:
    Result<(), &'static str>)
    requires
        exists|address: u64| #[trigger] i2c_spec(address) == Some(instance),
    ensures
        final(bus).port() == old(bus).port(),
        r == Ok::<(), &'static str>(()),
        mmio::memory_kept(old(bus).log(), final(bus).log()),
        mmio::writes(final(bus).log()) == mmio::writes(old(bus).log()) + (i2c_pads(instance.number)
            + clocks::enable_writes(
            instance.reset,
            instance.source,
            (0xc000_0000 + instance.divider) as u32,
        )),
{
    let pin: usize = 0xbc + (instance.number as usize - 1) * 8;
    pad(bus, pin, 0x40)?;
    pad(bus, pin + 4, 0x40)?;
    let (data, clock): (u32, u32) = match instance.number {
        1 => (72, 73),
        3 => (40, 41),
        _ => (195, 196),
    };
    gpio.peripheral(bus, data)?;
    gpio.peripheral(bus, clock)?;
    if instance.number == 3 {
        pad(bus, 0xd4, 0x41)?;
        pad(bus, 0xd8, 0x41)?;
    }
    assert(mmio::writes(bus.log()) =~= mmio::writes(old(bus).log()) + i2c_pads(instance.number));
    enable(bus, instance.reset, instance.source, 0xc000_0000 + instance.divider);
    assert(mmio::writes(bus.log()) =~= mmio::writes(old(bus).log()) + (i2c_pads(instance.number)
        + clocks::enable_writes(
        instance.reset,
        instance.source,
        (0xc000_0000 + instance.divider) as u32,
    )));
    Ok(())
}

/// The controller of a bus was tried once: its divider was set, and packet mode was
/// entered and, unless that failed, left.
pub open spec fn was_started(log: Seq<Access>, a: Seq<Access>, b: Seq<Access>, ok: bool) -> bool {
    &&& log == seq![Access::Write(0x6c, 0x5_0001)] + a + b
    &&& exists|r: Result<(), packet::Error>| #[trigger] packet::begin_outcome(a, r) && r is Ok == ok
    &&& if ok {
        packet::finish_outcome(b)
    } else {
        b.len() == 0
    }
}

/// Starts the controller of a bus, on a fresh record of accesses.
pub fn start_i2c<R: Registers>(bus: &mut Bus<'_, R>) -> (r: Result<(), &'static str>)
    requires
        old(bus).log() == Seq::<Access>::empty(),
    ensures
        final(bus).port() == old(bus).port(),
        mmio::extends(old(bus).log(), final(bus).log()),
        exists|a: Seq<Access>, b: Seq<Access>| #[trigger]
            was_started(final(bus).log(), a, b, r is Ok),
        r matches Err(e) ==> e == "Tegra I2C configuration timeout",
{
    bus.write(0x6c, 0x5_0001);
    let mut first = bus.apart();
    let result = packet::begin_on(&mut first);
    let ghost a = first.log();
    let ghost none = Seq::<Access>::empty();
    assert(packet::begin_outcome(a, result));
    bus.join(first);
    match result {
        Err(_) => {
            assert(bus.log() =~= seq![Access::Write(0x6c, 0x5_0001)] + a + none);
            assert(was_started(bus.log(), a, none, false));
            return Err("Tegra I2C configuration timeout");
        },
        Ok(_) => {},
    }
    let mut second = bus.apart();
    packet::finish_on(&mut second);
    let ghost b = second.log();
    bus.join(second);
    assert(bus.log() =~= seq![Access::Write(0x6c, 0x5_0001)] + a + b);
    assert(was_started(bus.log(), a, b, true));
    Ok(())
}

/// A bus has one speed.
pub fn set_bus_speed(speed_hz: u32, hz: u32) -> (r: Result<(), packet::Error>)
    ensures
        r == if hz == speed_hz {
            Ok::<(), packet::Error>(())
        } else {
            Err(packet::Error::Invalid)
        },
{
    if hz == speed_hz {
        Ok(())
    } else {
        Err(packet::Error::Invalid)
    }
}

/// A controller of a rail.
#[derive(Clone, Copy, Debug, PartialEq, Eq, Structural)]
pub struct UartInstance {
    pub index: u32,
    pub reset: u32,
    pub clock: u32,
    pub source: usize,
}

pub open spec fn uart_spec(address: u64) -> Option<UartInstance> {
    if address == 0x7000_6040 {
        Some(UartInstance { index: 1, reset: 7, clock: 224, source: 0x17c })
    } else if address == 0x7000_6200 {
        Some(UartInstance { index: 2, reset: 55, clock: 55, source: 0x1a0 })
    } else {
        None
    }
}

/// Finds which rail an address means.
pub fn uart_instance(address: Option<u64>) -> (r: Result<UartInstance, &'static str>)
    ensures
        match address {
            None => r == Err::<UartInstance, &'static str>("UART has no MMIO"),
            Some(address) => match uart_spec(address) {
                None => r == Err::<UartInstance, &'static str>(
                    "Tegra UART instance not supported yet",
                ),
                Some(instance) => r == Ok::<UartInstance, &'static str>(instance),
            },
        },
{
    match address {
        None => Err("UART has no MMIO"),
        Some(0x7000_6040) => Ok(UartInstance { index: 1, reset: 7, clock: 224, source: 0x17c }),
        Some(0x7000_6200) => Ok(UartInstance { index: 2, reset: 55, clock: 55, source: 0x1a0 }),
        _ => Err("Tegra UART instance not supported yet"),
    }
}

/// Checks that the rail inverts what it sends, as the controllers at its end want it.
pub fn check_inversion(device: &Node) -> (r: Result<(), &'static str>)
    ensures
        r == if device@.property("nvidia,invert-txd"@) is Some && device@.property(
            "nvidia,invert-rts"@,
        ) is Some {
            Ok::<(), &'static str>(())
        } else {
            Err("rail UART requires TX/RTS inversion")
        },
{
    if device.property("nvidia,invert-txd").is_none() || device.property(
        "nvidia,invert-rts",
    ).is_none() {
        return Err("rail UART requires TX/RTS inversion");
    }
    Ok(())
}

/// The first pin of a rail.
pub open spec fn uart_pin(index: u32) -> u32 {
    if index == 1 {
        48
    } else {
        25
    }
}

/// What connects a rail to its pins: outputs and inputs in turn.
pub open spec fn uart_pads(index: u32) -> Seq<(usize, u32)> {
    let first = PADS + 0xe4 + index * 0x10;
    seq![
        (first as usize, 0u32),
        ((first + 4) as usize, 0x50u32),
        ((first + 8) as usize, 0u32),
        ((first + 12) as usize, 0x50u32),
        gpio::masked_write(uart_pin(index), 0x80, false),
        gpio::masked_write((uart_pin(index) + 1) as u32, 0x80, false),
        gpio::masked_write((uart_pin(index) + 2) as u32, 0x80, false),
        gpio::masked_write((uart_pin(index) + 3) as u32, 0x80, false),
    ]
}

/// Connects a rail to its pins, and starts its clock.
pub fn prepare_uart<R: Timed>(
    bus: &mut Bus<'_, R>,
    gpio: &TegraGpio,
    instance: UartInstance,
) -> (r: Result<(), &'static str>)
    requires
        exists|address: u64| #[trigger] uart_spec(address) == Some(instance),
    ensures
        final(bus).port() == old(bus).port(),
        r == Ok::<(), &'static str>(()),
        mmio::memory_kept(old(bus).log(), final(bus).log()),
        mmio::writes(final(bus).log()) == mmio::writes(old(bus).log()) + (uart_pads(instance.index)
            + clocks::enable_writes(instance.reset, instance.source, 2)),
{
    let first: usize = 0xe4 + instance.index as usize * 0x10;
    pad(bus, first, 0)?;
    pad(bus, first + 4, 0x50)?;
    pad(bus, first + 8, 0)?;
    pad(bus, first + 12, 0x50)?;
    let pin: u32 = if instance.index == 1 {
        48
    } else {
        25
    };
    gpio.peripheral(bus, pin)?;
    gpio.peripheral(bus, pin + 1)?;
    gpio.peripheral(bus, pin + 2)?;
    gpio.peripheral(bus, pin + 3)?;
    assert(mmio::writes(bus.log()) =~= mmio::writes(old(bus).log()) + uart_pads(instance.index));
    enable(bus, instance.reset, instance.source, 2);
    assert(mmio::writes(bus.log()) =~= mmio::writes(old(bus).log()) + (uart_pads(instance.index)
        + clocks::enable_writes(instance.reset, instance.source, 2)));
    Ok(())
}

/// Why an interrupt was not gated.
#[derive(Clone, Copy, Debug, PartialEq, Eq, Structural)]
pub enum GateError {
    InvalidInterruptId,
    HardwareError,
}

/// Where a register of a bank of gates is.
pub open spec fn gate(bank: u32, register: int) -> usize {
    (0x6000_4000 + bank * 0x100 + register) as usize
}

/// One write to the switch of an interrupt, for one that has a switch.
pub open spec fn gated(before: Seq<Access>, after: Seq<Access>, hwirq: u32, register: int) -> bool {
    &&& mmio::extends(before, after)
    &&& {
        match gpio::line_spec(hwirq) {
            None => after == before,
            Some((bank, bit)) => mmio::memory_kept(before, after) && mmio::writes(after)
                == mmio::writes(before).push((gate(bank, register), 1u32 << bit)),
        }
    }
}

/// Whether the switch of an interrupt was open at last.
pub open spec fn is_open(log: Seq<Access>, hwirq: u32) -> bool {
    let (bank, bit) = gpio::line_spec(hwirq)->0;
    mmio::last(log, gate(bank, 0x20)) & (1u32 << bit) != 0
}

/// Closes the switch of an interrupt.
pub fn mask<R: Registers>(bus: &mut Bus<'_, R>, hwirq: u32) -> (r: Result<(), GateError>)
    ensures
        final(bus).port() == old(bus).port(),
        mmio::extends(old(bus).log(), final(bus).log()),
        gated(old(bus).log(), final(bus).log(), hwirq, 0x28),
        r == if gpio::line_spec(hwirq) is None {
            Err::<(), GateError>(GateError::InvalidInterruptId)
        } else if is_open(final(bus).log(), hwirq) {
            Err(GateError::HardwareError)
        } else {
            Ok(())
        },
{
    match line(hwirq) {
        None => Err(GateError::InvalidInterruptId),
        Some((bank, bit)) => {
            let base: usize = 0x6000_4000 + bank as usize * 0x100;
            bus.write(base + 0x28, 1u32 << bit);
            let state: u32 = bus.read(base + 0x20);
            if state & (1u32 << bit) != 0 {
                return Err(GateError::HardwareError);
            }
            Ok(())
        },
    }
}

/// Opens the switch of an interrupt.
pub fn unmask<R: Registers>(bus: &mut Bus<'_, R>, hwirq: u32) -> (r: Result<(), GateError>)
    ensures
        final(bus).port() == old(bus).port(),
        mmio::extends(old(bus).log(), final(bus).log()),
        gated(old(bus).log(), final(bus).log(), hwirq, 0x24),
        r == if gpio::line_spec(hwirq) is None {
            Err::<(), GateError>(GateError::InvalidInterruptId)
        } else if is_open(final(bus).log(), hwirq) {
            Ok(())
        } else {
            Err(GateError::HardwareError)
        },
{
    match line(hwirq) {
        None => Err(GateError::InvalidInterruptId),
        Some((bank, bit)) => {
            let base: usize = 0x6000_4000 + bank as usize * 0x100;
            bus.write(base + 0x24, 1u32 << bit);
            let state: u32 = bus.read(base + 0x20);
            if state & (1u32 << bit) == 0 {
                return Err(GateError::HardwareError);
            }
            Ok(())
        },
    }
}

/// Ends an interrupt.
pub fn eoi<R: Registers>(bus: &mut Bus<'_, R>, hwirq: u32) -> (r: Result<(), GateError>)
    ensures
        final(bus).port() == old(bus).port(),
        mmio::extends(old(bus).log(), final(bus).log()),
        gated(old(bus).log(), final(bus).log(), hwirq, 0x1c),
        r == if gpio::line_spec(hwirq) is None {
            Err::<(), GateError>(GateError::InvalidInterruptId)
        } else {
            Ok(())
        },
{
    match line(hwirq) {
        None => Err(GateError::InvalidInterruptId),
        Some((bank, bit)) => {
            let base: usize = 0x6000_4000 + bank as usize * 0x100;
            bus.write(base + 0x1c, 1u32 << bit);
            Ok(())
        },
    }
}

/// No two interrupts share a switch.
pub proof fn gates_are_apart(a: u32, b: u32)
    requires
        gpio::line_spec(a) is Some,
        gpio::line_spec(a) == gpio::line_spec(b),
    ensures
        a == b,
{
}

/// What closes the first banks of gates.
pub open spec fn closing(count: int) -> Seq<(usize, u32)>
    decreases count,
{
    if count <= 0 {
        seq![]
    } else {
        closing(count - 1) + seq![
            (gate((count - 1) as u32, 0x28), u32::MAX),
            (gate((count - 1) as u32, 0x2c), 0u32),
        ]
    }
}

/// Closes all gates, and has them pass ordinary interrupts.
pub fn start_gates<R: Registers>(bus: &mut Bus<'_, R>)
    ensures
        final(bus).port() == old(bus).port(),
        mmio::memory_kept(old(bus).log(), final(bus).log()),
        mmio::writes(final(bus).log()) == mmio::writes(old(bus).log()) + closing(6),
{
    let mut bank: usize = 0;
    assert(mmio::writes(bus.log()) =~= mmio::writes(old(bus).log()) + closing(0));
    while bank < 6
        invariant
            bus.port() == old(bus).port(),
            bank <= 6,
            mmio::memory_kept(old(bus).log(), bus.log()),
            mmio::writes(bus.log()) == mmio::writes(old(bus).log()) + closing(bank as int),
        decreases 6 - bank,
    {
        let base: usize = 0x6000_4000 + bank * 0x100;
        bus.write(base + 0x28, u32::MAX);
        bus.write(base + 0x2c, 0);
        assert(mmio::writes(bus.log()) =~= mmio::writes(old(bus).log()) + closing(bank + 1));
        bank = bank + 1;
    }
}

/// Checks the description of the gates.
pub fn check_gates(device: &Node) -> (r: Result<(), &'static str>)
    ensures
        r == if device@.property("interrupt-controller"@) is Some && device@.cell(
            "#interrupt-cells"@,
            0,
        ) == Some(3u32) && device@.cell("interrupt-parent"@, 0) is Some {
            Ok::<(), &'static str>(())
        } else {
            Err("invalid Tegra210 LIC interrupt hierarchy")
        },
{
    let cells: Option<u32> = device.cell("#interrupt-cells", 0);
    let parent: Option<u32> = device.cell("interrupt-parent", 0);
    if device.property("interrupt-controller").is_none() || cells != Some(3u32) || parent.is_none() {
        return Err("invalid Tegra210 LIC interrupt hierarchy");
    }
    Ok(())
}

/// A controller is told by its address: each has its number, its reset line, its clock
/// source and its speed.
pub proof fn controllers_are_told_by_their_address(address: u64)
    ensures
        i2c_spec(address) matches Some(i) ==> {
            &&& i.number == 1 || i.number == 3 || i.number == 5
            &&& i.number == 1 <==> address == 0x7000_c000
            &&& i.number == 3 <==> address == 0x7000_c500
            &&& i.number == 5 <==> address == 0x7000_d000
            &&& i.number == 1 ==> i.reset == 12 && i.source == 0x124 && i.speed_hz == 100_000
                && i.divider == 3
            &&& i.number == 3 ==> i.reset == 67 && i.source == 0x1b8 && i.speed_hz == 400_000
                && i.divider == 0
            &&& i.number == 5 ==> i.reset == 47 && i.source == 0x128 && i.speed_hz == 400_000
                && i.divider == 0
        },
        i2c_spec(address) is Some <==> address == 0x7000_c000 || address == 0x7000_c500 || address
            == 0x7000_d000,
        uart_spec(address) matches Some(u) ==> {
            &&& u.index == 1 || u.index == 2
            &&& u.index == 1 <==> address == 0x7000_6040
            &&& u.index == 1 ==> u.reset == 7 && u.clock == 224 && u.source == 0x17c
            &&& u.index == 2 ==> u.reset == 55 && u.clock == 55 && u.source == 0x1a0
        },
        uart_spec(address) is Some <==> address == 0x7000_6040 || address == 0x7000_6200,
{
}

/// A controller's two pads are open drains, and its two pins are taken from the outputs; the
/// pads of the third are driven in their own way as well.
pub proof fn controllers_get_their_pins(number: u32)
    requires
        number == 1 || number == 3 || number == 5,
    ensures
        ({
            let w = i2c_pads(number);
            let first = if number == 1 {
                72u32
            } else if number == 3 {
                40
            } else {
                195
            };
            &&& w.len() == if number == 3 {
                6int
            } else {
                4
            }
            &&& w[0].0 == 0x7000_30bc + 8 * (number - 1) && w[0].1 == 0x40
            &&& w[1].0 == w[0].0 + 4 && w[1].1 == 0x40
            &&& w[2] == gpio::masked_write(first, 0x80, false)
            &&& w[3] == gpio::masked_write((first + 1) as u32, 0x80, false)
            &&& number == 3 ==> w[4] == (0x7000_30d4usize, 0x41u32) && w[5] == (
                0x7000_30d8usize,
                0x41u32,
            )
        }),
{
}

/// A line's four pads are in the order of its four pins: what is sent and asked is driven,
/// what is received and answered is read.
pub proof fn lines_get_their_pins(index: u32, i: int)
    requires
        index == 1 || index == 2,
        0 <= i < 4,
    ensures
        ({
            let w = uart_pads(index);
            let first = if index == 1 {
                48int
            } else {
                25
            };
            &&& w.len() == 8
            &&& w[i].0 == 0x7000_30e4 + 16 * index + 4 * i
            &&& w[i].1 == if i % 2 == 0 {
                0int
            } else {
                0x50
            }
            &&& w[4 + i] == gpio::masked_write((first + i) as u32, 0x80, false)
        }),
{
}

/// The switch of an interrupt is closed and opened by its own bit of its own bank.
pub proof fn switches_have_their_registers(bank: u32, register: int)
    requires
        bank < 6,
        0 <= register < 0x100,
    ensures
        gate(bank, register) == 0x6000_4000 + 0x100 * bank + register,
{
}

} // verus!
