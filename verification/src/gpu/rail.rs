//! The supply of the graphics processor, and the order in which it is switched on and
//! off: never under a processor that runs, and never before its memory accesses have
//! ended.
use vstd::prelude::*;

use crate::gpu::firmware;
use crate::gpu::firmware::put_words;
use crate::i2c;
use crate::i2c::{Chips, Exchange, Wire};
use crate::mmio;
use crate::mmio::{Access, Bus, Timed};
use crate::soc::map::MC;
use crate::soc::power;
use crate::soc::power::{GpuPlatform, GpuPlatformState};

verus! {

pub const GPU_ADDRESS: u8 = 0x1c;

pub const PMIC_ADDRESS: u8 = 0x3c;

pub const GPIO6: u8 = 0x3c;

pub const GPIO_ALT: u8 = 0x40;

/// The regulator on, at one volt.
pub const ONE_VOLT: u8 = 0xbf;

/// What the supply was.
#[derive(Clone, Copy, Debug, PartialEq, Eq, Structural)]
pub struct RailState {
    pub vout: u8,
    pub dvs: u8,
    pub gpio: u8,
    pub alternate: u8,
}

/// The exchanges of taking the state.
pub open spec fn snapshot_log(vout: u8, dvs: u8, gpio: u8, alternate: u8) -> Seq<Exchange> {
    seq![
        Exchange::Read(GPU_ADDRESS, 0, Some(vout)),
        Exchange::Read(GPU_ADDRESS, 1, Some(dvs)),
        Exchange::Read(PMIC_ADDRESS, GPIO6, Some(gpio)),
        Exchange::Read(PMIC_ADDRESS, GPIO_ALT, Some(alternate)),
    ]
}

fn read<C: Chips>(wire: &mut Wire<'_, C>, address: u8, register: u8) -> (r: Result<
    u8,
    &'static str,
>)
    ensures
        final(wire).port() == old(wire).port(),
        match r {
            Ok(value) => final(wire).log() == old(wire).log().push(
                Exchange::Read(address, register, Some(value)),
            ),
            Err(e) => e == "GPU regulator I2C read failed" && final(wire).log() == old(wire).log().push(Exchange::Read(address, register, None)),
        },
{
    match wire.read(address, register) {
        Some(value) => Ok(value),
        None => Err("GPU regulator I2C read failed"),
    }
}

fn write<C: Chips>(wire: &mut Wire<'_, C>, address: u8, register: u8, value: u8) -> (r: Result<
    (),
    &'static str,
>)
    ensures
        final(wire).port() == old(wire).port(),
        final(wire).log() == old(wire).log().push(
            Exchange::Write(address, register, value, r is Ok),
        ),
        r matches Err(e) ==> e == "GPU regulator I2C write failed",
{
    if wire.write(address, register, value) {
        Ok(())
    } else {
        Err("GPU regulator I2C write failed")
    }
}

/// The wires to the supply broke.
pub open spec fn lost(before: Seq<Exchange>, after: Seq<Exchange>, e: &'static str) -> bool {
    i2c::broken_as(
        before,
        after,
        e,
        "GPU regulator I2C read failed",
        "GPU regulator I2C write failed",
    )
}

/// Takes the state of the supply. Nothing is changed.
pub fn snapshot<C: Chips>(wire: &mut Wire<'_, C>) -> (r: Result<RailState, &'static str>)
    ensures
        final(wire).port() == old(wire).port(),
        i2c::writes(final(wire).log()) == i2c::writes(old(wire).log()),
        match r {
            Ok(state) => exists|alternate: u8| #[trigger]
                enable_bit(alternate) == state.alternate && final(wire).log() == old(wire).log()
                    + snapshot_log(state.vout, state.dvs, state.gpio, alternate),
            Err(e) => e == "GPU regulator I2C read failed" && i2c::broken(
                old(wire).log(),
                final(wire).log(),
            ),
        },
{
    let vout: u8 = match wire.read(GPU_ADDRESS, 0) {
        None => {
            return Err("GPU regulator I2C read failed");
        },
        Some(value) => value,
    };
    let dvs: u8 = match wire.read(GPU_ADDRESS, 1) {
        None => {
            return Err("GPU regulator I2C read failed");
        },
        Some(value) => value,
    };
    let gpio: u8 = match wire.read(PMIC_ADDRESS, GPIO6) {
        None => {
            return Err("GPU regulator I2C read failed");
        },
        Some(value) => value,
    };
    let alternate: u8 = match wire.read(PMIC_ADDRESS, GPIO_ALT) {
        None => {
            return Err("GPU regulator I2C read failed");
        },
        Some(value) => value,
    };
    let state = RailState { vout, dvs, gpio, alternate: alternate & 0x40 };
    assert(wire.log() =~= old(wire).log() + snapshot_log(vout, dvs, gpio, alternate));
    assert(enable_bit(alternate) == state.alternate);
    Ok(state)
}

/// The bit of the graphics processor among the functions of pins.
pub open spec fn enable_bit(alternate: u8) -> u8 {
    alternate & 0x40
}

/// The pin drives high, and keeps everything else.
pub open spec fn driven(gpio: u8) -> u8 {
    (gpio & !2u8) | 1 | 8
}

/// The exchanges of switching the supply on: both banks have the voltage, and are read
/// back, before the pin goes high.
pub open spec fn enable_log(alternate: u8, gpio: u8, gpio_back: u8, alternate_back: u8) -> Seq<
    Exchange,
> {
    seq![
        Exchange::Write(GPU_ADDRESS, 0, ONE_VOLT, true),
        Exchange::Read(GPU_ADDRESS, 0, Some(ONE_VOLT)),
        Exchange::Write(GPU_ADDRESS, 1, ONE_VOLT, true),
        Exchange::Read(GPU_ADDRESS, 1, Some(ONE_VOLT)),
        Exchange::Delay(1000),
        Exchange::Read(PMIC_ADDRESS, GPIO_ALT, Some(alternate)),
        Exchange::Write(PMIC_ADDRESS, GPIO_ALT, alternate & !0x40u8, true),
        Exchange::Read(PMIC_ADDRESS, GPIO6, Some(gpio)),
        Exchange::Write(PMIC_ADDRESS, GPIO6, driven(gpio), true),
        Exchange::Delay(1000),
        Exchange::Read(PMIC_ADDRESS, GPIO6, Some(gpio_back)),
        Exchange::Read(PMIC_ADDRESS, GPIO_ALT, Some(alternate_back)),
    ]
}

/// The pin is a driven, high output.
pub open spec fn enabled_spec(gpio: u8, alternate: u8) -> bool {
    gpio & 0x0b == 9 && alternate & 0x40 == 0
}

/// Every step of switching the supply on was done.
pub open spec fn was_enabled(before: Seq<Exchange>, after: Seq<Exchange>, gb: u8, ab: u8) -> bool {
    exists|a: u8, g: u8| after == before + #[trigger] enable_log(a, g, gb, ab)
}

/// A bank of the regulator does not have its voltage.
pub open spec fn no_voltage(before: Seq<Exchange>, after: Seq<Exchange>, e: &'static str) -> bool {
    e == "GPU MAX77621 voltage readback mismatch" && after.len() > before.len() && (after.last() matches Exchange::Read(GPU_ADDRESS, _, Some(value))
        && value != ONE_VOLT)
}

/// The steps of switching the supply on; the two registers of the pin come back.
fn enable_steps<C: Chips>(wire: &mut Wire<'_, C>) -> (r: Result<(u8, u8), &'static str>)
    ensures
        final(wire).port() == old(wire).port(),
        match r {
            Ok(back) => was_enabled(old(wire).log(), final(wire).log(), back.0, back.1),
            Err(e) => {
                &&& lost(old(wire).log(), final(wire).log(), e) || no_voltage(
                    old(wire).log(),
                    final(wire).log(),
                    e,
                )
                &&& final(wire).log().len() < old(wire).log().len() + 12 || i2c::broke(
                    final(wire).log().last(),
                )
            },
        },
{
    write(wire, GPU_ADDRESS, 0, ONE_VOLT)?;
    let first: u8 = read(wire, GPU_ADDRESS, 0)?;
    if first != ONE_VOLT {
        return Err("GPU MAX77621 voltage readback mismatch");
    }
    write(wire, GPU_ADDRESS, 1, ONE_VOLT)?;
    let second: u8 = read(wire, GPU_ADDRESS, 1)?;
    if second != ONE_VOLT {
        return Err("GPU MAX77621 voltage readback mismatch");
    }
    wire.delay_us(1000);
    let alternate: u8 = read(wire, PMIC_ADDRESS, GPIO_ALT)?;
    write(wire, PMIC_ADDRESS, GPIO_ALT, alternate & !0x40)?;
    let gpio: u8 = read(wire, PMIC_ADDRESS, GPIO6)?;
    write(wire, PMIC_ADDRESS, GPIO6, (gpio & !2) | 1 | 8)?;
    wire.delay_us(1000);
    let gpio_back: u8 = read(wire, PMIC_ADDRESS, GPIO6)?;
    let alternate_back: u8 = read(wire, PMIC_ADDRESS, GPIO_ALT)?;
    let back: (u8, u8) = (gpio_back, alternate_back);
    assert(wire.log() =~= old(wire).log() + enable_log(alternate, gpio, back.0, back.1));
    Ok(back)
}

/// The log of switching on tells what was read at its end.
proof fn lemma_enable_log(before: Seq<Exchange>, a: u8, g: u8, gb: u8, ab: u8)
    ensures
        ({
            let after = before + enable_log(a, g, gb, ab);
            let n = before.len() as int;
            &&& after.len() == n + 12
            &&& after[n + 10] == Exchange::Read(PMIC_ADDRESS, GPIO6, Some(gb))
            &&& after[n + 11] == Exchange::Read(PMIC_ADDRESS, GPIO_ALT, Some(ab))
            &&& after.last() == after[n + 11]
        }),
{
}

/// Switches the supply on, at one volt. It is on exactly if every exchange went well,
/// in order, and the pin reads back as a driven, high output.
pub fn enable<C: Chips>(wire: &mut Wire<'_, C>) -> (r: Result<(), &'static str>)
    ensures
        final(wire).port() == old(wire).port(),
        r is Ok <==> exists|a: u8, g: u8, gb: u8, ab: u8|
            enabled_spec(gb, ab) && final(wire).log() == old(wire).log() + #[trigger] enable_log(
                a,
                g,
                gb,
                ab,
            ),
        r matches Err(e) ==> supply_failed(old(wire).log(), final(wire).log(), e),
{
    let ghost before = wire.log();
    let result = enable_steps(wire);
    assert forall|a: u8, g: u8, gb: u8, ab: u8|
        wire.log() == before + #[trigger] enable_log(a, g, gb, ab) implies result == Ok::<
        (u8, u8),
        &'static str,
    >((gb, ab)) by {
        lemma_enable_log(before, a, g, gb, ab);
        if result is Ok {
            let back = result->Ok_0;
            let (x, y) = choose|x: u8, y: u8|
                wire.log() == before + #[trigger] enable_log(x, y, back.0, back.1);
            lemma_enable_log(before, x, y, back.0, back.1);
        }
    }
    let (gpio, alternate): (u8, u8) = result?;
    if gpio & 0x0b != 9 || alternate & 0x40 != 0 {
        return Err("GPU enable GPIO readback mismatch");
    }
    Ok(())
}

/// The exchanges of putting the supply back: the pin first.
pub open spec fn restore_log(
    previous: RailState,
    alternate: u8,
    gpio_back: u8,
    alternate_back: u8,
) -> Seq<Exchange> {
    seq![
        Exchange::Write(PMIC_ADDRESS, GPIO6, previous.gpio, true),
        Exchange::Delay(1000),
        Exchange::Read(PMIC_ADDRESS, GPIO_ALT, Some(alternate)),
        Exchange::Write(
            PMIC_ADDRESS,
            GPIO_ALT,
            (alternate & !0x40u8) | previous.alternate,
            true,
        ),
        Exchange::Write(GPU_ADDRESS, 0, previous.vout, true),
        Exchange::Write(GPU_ADDRESS, 1, previous.dvs, true),
        Exchange::Delay(1000),
        Exchange::Read(PMIC_ADDRESS, GPIO6, Some(gpio_back)),
        Exchange::Read(PMIC_ADDRESS, GPIO_ALT, Some(alternate_back)),
        Exchange::Read(GPU_ADDRESS, 0, Some(previous.vout)),
        Exchange::Read(GPU_ADDRESS, 1, Some(previous.dvs)),
    ]
}

/// The pin is as it was, but for its input.
pub open spec fn restored_spec(previous: RailState, gpio: u8, alternate: u8) -> bool {
    gpio & 0xfb == previous.gpio & 0xfb && alternate & 0x40 == previous.alternate
}

/// Every step of putting the supply back was done.
pub open spec fn was_restored(
    before: Seq<Exchange>,
    after: Seq<Exchange>,
    previous: RailState,
    gb: u8,
    ab: u8,
) -> bool {
    exists|a: u8| after == before + #[trigger] restore_log(previous, a, gb, ab)
}

/// The steps of putting the supply back; what was read at the end comes back.
fn restore_steps<C: Chips>(wire: &mut Wire<'_, C>, previous: RailState) -> (r: Result<
    (u8, u8),
    &'static str,
>)
    ensures
        final(wire).port() == old(wire).port(),
        final(wire).log().len() > old(wire).log().len(),
        final(wire).log()[old(wire).log().len() as int] matches Exchange::Write(
            address,
            register,
            value,
            _,
        ) && address == PMIC_ADDRESS && register == GPIO6 && value == previous.gpio,
        match r {
            Ok(back) => restored_spec(previous, back.0, back.1) && was_restored(
                old(wire).log(),
                final(wire).log(),
                previous,
                back.0,
                back.1,
            ),
            Err(e) => {
                &&& not_put_back(old(wire).log(), final(wire).log(), previous, e)
                &&& final(wire).log().len() < old(wire).log().len() + 11
                    || final(wire).log().last() != Exchange::Read(
                    GPU_ADDRESS,
                    1,
                    Some(previous.dvs),
                )
            },
        },
{
    let ghost before = wire.log();
    write(wire, PMIC_ADDRESS, GPIO6, previous.gpio)?;
    wire.delay_us(1000);
    let alternate: u8 = read(wire, PMIC_ADDRESS, GPIO_ALT)?;
    write(wire, PMIC_ADDRESS, GPIO_ALT, (alternate & !0x40) | previous.alternate)?;
    write(wire, GPU_ADDRESS, 0, previous.vout)?;
    write(wire, GPU_ADDRESS, 1, previous.dvs)?;
    wire.delay_us(1000);
    let gpio_back: u8 = read(wire, PMIC_ADDRESS, GPIO6)?;
    assert(wire.log() =~= before + restore_log(previous, alternate, gpio_back, 0).take(8));
    if gpio_back & 0xfb != previous.gpio & 0xfb {
        assert(differs(before, wire.log(), previous, alternate, gpio_back, 0, 7));
        return Err("GPU regulator rollback readback mismatch");
    }
    let alternate_back: u8 = read(wire, PMIC_ADDRESS, GPIO_ALT)?;
    let ghost whole = restore_log(previous, alternate, gpio_back, alternate_back);
    assert(wire.log() =~= before + whole.take(9));
    if alternate_back & 0x40 != previous.alternate {
        assert(differs(before, wire.log(), previous, alternate, gpio_back, alternate_back, 8));
        return Err("GPU regulator rollback readback mismatch");
    }
    let vout: u8 = read(wire, GPU_ADDRESS, 0)?;
    assert(wire.log() =~= (before + whole.take(9)).push(Exchange::Read(GPU_ADDRESS, 0, Some(vout))));
    if vout != previous.vout {
        assert(differs(before, wire.log(), previous, alternate, gpio_back, alternate_back, 9));
        return Err("GPU regulator rollback readback mismatch");
    }
    let dvs: u8 = read(wire, GPU_ADDRESS, 1)?;
    assert(wire.log() =~= (before + whole.take(10)).push(Exchange::Read(GPU_ADDRESS, 1, Some(dvs))));
    if dvs != previous.dvs {
        assert(differs(before, wire.log(), previous, alternate, gpio_back, alternate_back, 10));
        return Err("GPU regulator rollback readback mismatch");
    }
    let back: (u8, u8) = (gpio_back, alternate_back);
    assert(wire.log() =~= before + restore_log(previous, alternate, back.0, back.1));
    Ok(back)
}

/// The log of putting the supply back tells what was read at its end.
proof fn lemma_restore_log(before: Seq<Exchange>, previous: RailState, a: u8, gb: u8, ab: u8)
    ensures
        ({
            let after = before + restore_log(previous, a, gb, ab);
            let n = before.len() as int;
            &&& after.len() == n + 11
            &&& after[n + 7] == Exchange::Read(PMIC_ADDRESS, GPIO6, Some(gb))
            &&& after[n + 8] == Exchange::Read(PMIC_ADDRESS, GPIO_ALT, Some(ab))
            &&& after[n + 9] == Exchange::Read(GPU_ADDRESS, 0, Some(previous.vout))
            &&& after.last() == Exchange::Read(GPU_ADDRESS, 1, Some(previous.dvs))
        }),
{
}

/// All was written, and the first register that reads back otherwise was the last that
/// was read.
pub open spec fn differs(
    before: Seq<Exchange>,
    after: Seq<Exchange>,
    previous: RailState,
    alternate: u8,
    gpio_back: u8,
    alternate_back: u8,
    n: int,
) -> bool {
    let whole = restore_log(previous, alternate, gpio_back, alternate_back);
    let same = gpio_back & 0xfb == previous.gpio & 0xfb;
    ||| n == 7 && !same && after == before + whole.take(8)
    ||| n == 8 && same && alternate_back & 0x40 != previous.alternate && after == before
        + whole.take(9)
    ||| (n == 9 || n == 10) && restored_spec(previous, gpio_back, alternate_back) && exists|v: u8|
        v != (if n == 9 {
            previous.vout
        } else {
            previous.dvs
        }) && after == #[trigger] (before + whole.take(n)).push(
            Exchange::Read(GPU_ADDRESS, (n - 9) as u8, Some(v)),
        )
}

/// The supply was not put back: the wires broke, or what was read at the end differs.
pub open spec fn not_put_back(
    before: Seq<Exchange>,
    after: Seq<Exchange>,
    previous: RailState,
    e: &'static str,
) -> bool {
    ||| lost(before, after, e)
    ||| e == "GPU regulator rollback readback mismatch" && exists|
        alternate: u8,
        gpio_back: u8,
        alternate_back: u8,
        n: int,
    | #[trigger]
        differs(before, after, previous, alternate, gpio_back, alternate_back, n)
}

/// Puts the supply back. It is back exactly if every exchange went well, in order, and
/// everything reads back as it was.
pub fn restore<C: Chips>(wire: &mut Wire<'_, C>, previous: RailState) -> (r: Result<
    (),
    &'static str,
>)
    ensures
        final(wire).port() == old(wire).port(),
        r is Ok <==> exists|a: u8, gb: u8, ab: u8|
            restored_spec(previous, gb, ab) && final(wire).log() == old(wire).log()
                + #[trigger] restore_log(previous, a, gb, ab),
        // Nothing is given up before the end unless the bus breaks.
        r matches Err(e) ==> not_put_back(old(wire).log(), final(wire).log(), previous, e),
        final(wire).log().len() > old(wire).log().len(),
        final(wire).log()[old(wire).log().len() as int] matches Exchange::Write(
            address,
            register,
            value,
            _,
        ) && address == PMIC_ADDRESS && register == GPIO6 && value == previous.gpio,
{
    let ghost before = wire.log();
    let result = restore_steps(wire, previous);
    assert forall|a: u8, gb: u8, ab: u8|
        wire.log() == before + #[trigger] restore_log(previous, a, gb, ab) implies result == Ok::<
        (u8, u8),
        &'static str,
    >((gb, ab)) by {
        lemma_restore_log(before, previous, a, gb, ab);
        if result is Ok {
            let back = result->Ok_0;
            let x = choose|x: u8|
                wire.log() == before + #[trigger] restore_log(previous, x, back.0, back.1);
            lemma_restore_log(before, previous, x, back.0, back.1);
        }
    }
    match result {
        Ok(_) => Ok(()),
        Err(e) => Err(e),
    }
}

pub const MC_GPU: u32 = 4;

pub open spec fn mc(offset: int) -> usize {
    (MC + offset) as usize
}

/// Six readings in a row were the same, and say that nothing is left.
pub open spec fn was_flushed(log: Seq<Access>) -> bool {
    let seen = mmio::reads(log, mc(0x974));
    let n = seen.len();
    &&& n >= 6
    &&& forall|k: int| n - 6 <= k < n ==> #[trigger] seen[k] == seen[n - 1]
    &&& seen[n - 1] & MC_GPU != 0
}

/// The acknowledgement was read so often.
pub open spec fn ack_log(values: Seq<u32>) -> Seq<Access> {
    Seq::new(values.len(), |i: int| Access::Read(mc(0x974), values[i]))
}

/// The acknowledgement was read until it changed, six times at most; it is good where all
/// six are the same and say that nothing is left.
pub open spec fn was_read(before: Seq<Access>, after: Seq<Access>, good: bool) -> bool {
    exists|values: Seq<u32>|
        {
            &&& after == before + #[trigger] ack_log(values)
            &&& 0 < values.len() <= 6
            &&& forall|k: int| 0 <= k < values.len() - 1 ==> #[trigger] values[k] == values[0]
            &&& values.len() < 6 ==> values.last() != values[0]
            &&& good == (values.len() == 6 && values.last() == values[0] && values[0] & MC_GPU != 0)
        }
}

/// Reads the acknowledgement six times, and tells whether it was stable and set.
fn acknowledged<R: Timed>(bus: &mut Bus<'_, R>) -> (r: bool)
    ensures
        final(bus).port() == old(bus).port(),
        mmio::quiet(old(bus).log(), final(bus).log()),
        r ==> was_flushed(final(bus).log()),
        was_read(old(bus).log(), final(bus).log(), r),
        final(bus).log().len() > old(bus).log().len(),
        forall|o: usize|
            #![trigger mmio::reads(final(bus).log(), o)]
            o != mc(0x974) ==> mmio::reads(final(bus).log(), o) == mmio::reads(old(bus).log(), o),
{
    let status: u32 = bus.read(MC + 0x974);
    let ghost mut values = seq![status];
    let mut i: u32 = 0;
    while i < 5
        invariant
            bus.port() == old(bus).port(),
            i <= 5,
            values.len() == i + 1,
            forall|k: int| 0 <= k < values.len() ==> #[trigger] values[k] == status,
            bus.log() =~= old(bus).log() + ack_log(values),
            bus.log().len() > old(bus).log().len(),
            mmio::reads(bus.log(), mc(0x974)).len() == mmio::reads(
                old(bus).log(),
                mc(0x974),
            ).len() + 1 + i,
            mmio::quiet(old(bus).log(), bus.log()),
            forall|o: usize|
                #![trigger mmio::reads(bus.log(), o)]
                o != mc(0x974) ==> mmio::reads(bus.log(), o) == mmio::reads(old(bus).log(), o),
            mmio::reads(bus.log(), mc(0x974)).len() >= i + 1,
            forall|k: int|
                mmio::reads(bus.log(), mc(0x974)).len() - 1 - i <= k < mmio::reads(
                    bus.log(),
                    mc(0x974),
                ).len() ==> #[trigger] mmio::reads(bus.log(), mc(0x974))[k] == status,
        decreases 5 - i,
    {
        let again: u32 = bus.read(MC + 0x974);
        proof {
            values = values.push(again);
            assert(bus.log() =~= old(bus).log() + ack_log(values));
        }
        if again != status {
            assert(was_read(old(bus).log(), bus.log(), false));
            return false;
        }
        i = i + 1;
    }
    assert(bus.log() == old(bus).log() + ack_log(values));
    status & MC_GPU != 0
}

/// What the memory controller is asked: to hold the processor's accesses, and to let
/// them pass again.
pub open spec fn flush_writes(before: Seq<Access>, after: Seq<Access>) -> Seq<(usize, u32)> {
    seq![
        (mc(0x970), mmio::fresh(before, after, mc(0x970), 1) | MC_GPU),
        (mc(0x970), mmio::fresh(before, after, mc(0x970), 3) & !MC_GPU),
    ]
}

/// What was read of the control when accesses were held.
pub struct Hold {
    pub control: u32,
    pub again: u32,
    pub back: u32,
}

/// The memory controller holds the processor's accesses.
pub open spec fn held(before: Seq<Access>, h: Hold) -> Seq<Access> {
    before.push(Access::Read(mc(0x970), h.control)).push(Access::Read(mc(0x970), h.again)).push(
        Access::Write(mc(0x970), h.again | MC_GPU),
    ).push(Access::Read(mc(0x970), h.back))
}

/// The memory controller lets the processor's accesses pass again, as it reads back.
pub open spec fn passing(before: Seq<Access>, value: u32, back: u32) -> Seq<Access> {
    before.push(Access::Read(mc(0x970), value)).push(
        Access::Write(mc(0x970), value & !MC_GPU),
    ).push(Access::Read(mc(0x970), back))
}

/// Accesses were held, and behind that a reading says that nothing is left.
pub open spec fn was_drained(before: Seq<Access>, h: Hold, seen: Seq<Access>, after: Seq<Access>) -> bool {
    &&& h.control & MC_GPU == 0
    &&& mmio::quiet(held(before, h), seen)
    &&& was_read(seen, after, true)
}

/// The processor's accesses have ended, and can pass again.
pub open spec fn was_emptied(before: Seq<Access>, after: Seq<Access>) -> bool {
    exists|h: Hold, seen: Seq<Access>, drained: Seq<Access>, value: u32, back: u32|
        {
            &&& #[trigger] was_drained(before, h, seen, drained)
            &&& after == (#[trigger] passing(drained.push(Access::Delay(10)), value, back)).push(
                Access::Delay(10),
            )
            &&& back & MC_GPU == 0
        }
}

/// The last reading of the acknowledgement says that something is left.
pub open spec fn was_left(before: Seq<Access>, after: Seq<Access>) -> bool {
    exists|from: Seq<Access>, to: Seq<Access>|
        mmio::extends(before, from) && #[trigger] was_read(from, to, false) && mmio::extends(
            to,
            after,
        )
}

/// Accesses were held, did not end in time, and can pass again.
pub open spec fn was_late(
    before: Seq<Access>,
    h: Hold,
    seen: Seq<Access>,
    value: u32,
    back: u32,
    after: Seq<Access>,
) -> bool {
    &&& h.control & MC_GPU == 0
    &&& mmio::quiet(held(before, h), seen)
    &&& was_left(held(before, h), seen)
    &&& mmio::ran_out(held(before, h), seen, 1_000_000, power::POLLS as int)
    &&& after == passing(seen, value, back)
}

/// The processor's accesses did not end: they were held already, did not end in time, or
/// cannot pass again.
pub open spec fn flush_failed(before: Seq<Access>, after: Seq<Access>, e: &'static str) -> bool {
    &&& mmio::extends(before, after)
    &&& {
        ||| {
            &&& e == "GPU MC client was already in hot reset"
            &&& mmio::last(after, mc(0x970)) & MC_GPU != 0
            &&& after == before.push(Access::Read(mc(0x970), mmio::last(after, mc(0x970))))
        }
        ||| e == "GPU MC flush timeout" && exists|h: Hold, seen: Seq<Access>, value: u32, back: u32|
            #[trigger] was_late(before, h, seen, value, back, after)
        ||| e == "GPU MC flush control release mismatch" && exists|
            h: Hold,
            seen: Seq<Access>,
            drained: Seq<Access>,
            value: u32,
            back: u32,
        |
            {
                &&& #[trigger] was_drained(before, h, seen, drained)
                &&& after == #[trigger] passing(drained.push(Access::Delay(10)), value, back)
                &&& back & MC_GPU != 0
            }
    }
}

/// Has the memory controller finish what the graphics processor started.
#[verifier::rlimit(60)]
pub fn flush_mc<R: Timed>(bus: &mut Bus<'_, R>) -> (r: Result<(), &'static str>)
    ensures
        final(bus).port() == old(bus).port(),
        mmio::memory_kept(old(bus).log(), final(bus).log()),
        match r {
            Ok(_) => was_emptied(old(bus).log(), final(bus).log()) && was_flushed(
                final(bus).log(),
            ) && mmio::writes(final(bus).log())
                == mmio::writes(old(bus).log()) + flush_writes(old(bus).log(), final(bus).log())
                && mmio::last(final(bus).log(), mc(0x970)) & MC_GPU == 0,
            Err(e) => flush_failed(old(bus).log(), final(bus).log(), e),
        },
{
    let control: u32 = bus.read(MC + 0x970);
    if control & MC_GPU != 0 {
        return Err("GPU MC client was already in hot reset");
    }
    let again: u32 = bus.read(MC + 0x970);
    bus.write(MC + 0x970, again | MC_GPU);
    let back: u32 = bus.read(MC + 0x970);
    let ghost h = Hold { control, again, back };
    let ghost held = bus.log();
    let ghost mut from = held;
    assert(held == self::held(old(bus).log(), h));
    assert(mmio::writes(held) =~= mmio::writes(old(bus).log()).push(
        (mc(0x970), mmio::fresh(old(bus).log(), held, mc(0x970), 1) | MC_GPU),
    ));
    let start: u64 = bus.now_ns();
    let deadline: u64 = start.saturating_add(1_000_000);
    let mut left: u64 = power::POLLS;
    let mut done: bool = false;
    let mut late: bool = false;
    while left > 0 && !done && !late
        invariant
            bus.port() == old(bus).port(),
            left <= power::POLLS,
            deadline == mmio::until(start, 1_000_000),
            bus.log().len() >= held.len() + 1 + (power::POLLS - left),
            bus.log()[held.len() as int] == Access::Time(start),
            late ==> mmio::ran_out(held, bus.log(), 1_000_000, power::POLLS as int),
            mmio::quiet(held, bus.log()),
            mmio::memory_kept(old(bus).log(), bus.log()),
            done ==> was_flushed(bus.log()),
            done ==> mmio::quiet(held, from) && was_read(from, bus.log(), true),
            !done && left < power::POLLS ==> was_left(held, bus.log()),
            left == power::POLLS ==> !late,
            forall|o: usize|
                #![trigger mmio::reads(bus.log(), o)]
                o != mc(0x974) ==> mmio::reads(bus.log(), o) == mmio::reads(held, o),
        decreases left,
    {
        proof {
            from = bus.log();
        }
        done = acknowledged(bus);
        let ghost to = bus.log();
        if !done {
            let now: u64 = bus.now_ns();
            assert(was_read(from, to, false));
            if now >= deadline {
                late = true;
            } else {
                bus.delay_us(2);
            }
            assert(was_left(held, bus.log())) by {
                assert(mmio::extends(to, bus.log()));
            }
        }
        left = left - 1;
    }
    if !done {
        let ghost seen = bus.log();
        assert(mmio::ran_out(held, seen, 1_000_000, power::POLLS as int));
        assert(mmio::quiet(held, seen));
        let value: u32 = bus.read(MC + 0x970);
        bus.write(MC + 0x970, value & !MC_GPU);
        let free: u32 = bus.read(MC + 0x970);
        assert(was_late(old(bus).log(), h, seen, value, free, bus.log()));
        assert(mmio::writes(bus.log()) =~= mmio::writes(old(bus).log()) + flush_writes(
            old(bus).log(),
            bus.log(),
        ));
        return Err("GPU MC flush timeout");
    }
    let ghost drained = bus.log();
    assert(was_drained(old(bus).log(), h, from, drained));
    bus.delay_us(10);
    let value: u32 = bus.read(MC + 0x970);
    bus.write(MC + 0x970, value & !MC_GPU);
    let after: u32 = bus.read(MC + 0x970);
    assert(bus.log() == passing(drained.push(Access::Delay(10)), value, after));
    assert(mmio::writes(bus.log()) =~= mmio::writes(old(bus).log()) + flush_writes(
        old(bus).log(),
        bus.log(),
    ));
    if after & MC_GPU != 0 {
        return Err("GPU MC flush control release mismatch");
    }
    bus.delay_us(10);
    Ok(())
}

/// The supply was not switched on: the wires broke, its voltage is another, or the pins do
/// not read back.
pub open spec fn supply_failed(
    before: Seq<i2c::Exchange>,
    after: Seq<i2c::Exchange>,
    e: &'static str,
) -> bool {
    ||| lost(before, after, e)
    ||| no_voltage(before, after, e)
    ||| e == "GPU enable GPIO readback mismatch" && exists|gb: u8, ab: u8| #[trigger]
        was_enabled(before, after, gb, ab) && !enabled_spec(gb, ab)
}

/// The supply was switched on.
pub open spec fn was_supplied(before: Seq<i2c::Exchange>, after: Seq<i2c::Exchange>) -> bool {
    exists|x: u8, g: u8, gb: u8, ab: u8|
        enabled_spec(gb, ab) && after == before + #[trigger] enable_log(x, g, gb, ab)
}

/// Switches the graphics processor on. A processor that could not be stopped keeps its
/// voltage.
pub fn power_on<R: Timed, C: Chips>(
    platform: &GpuPlatform,
    bus: &mut Bus<'_, R>,
    wire: &mut Wire<'_, C>,
) -> (r: Result<(), &'static str>)
    ensures
        final(wire).port() == old(wire).port(),
        final(bus).port() == old(bus).port(),
        mmio::memory_kept(old(bus).log(), final(bus).log()),
        match r {
            Ok(_) => was_supplied(old(wire).log(), final(wire).log()) && exists|a: Seq<Access>|
                #[trigger] power::gpu_stopped(old(bus).log(), a, true) && power::gpu_started(
                    a,
                    final(bus).log(),
                    true,
                ),
            Err(e) => {
                ||| {
                    &&& e == "GPU isolation readback mismatch"
                    &&& power::gpu_stopped(old(bus).log(), final(bus).log(), false)
                    &&& final(wire).log() == old(wire).log()
                }
                ||| {
                    &&& power::gpu_stopped(old(bus).log(), final(bus).log(), true)
                    &&& supply_failed(old(wire).log(), final(wire).log(), e)
                }
                ||| {
                    &&& e == "GPU clock/clamp/reset readback mismatch"
                    &&& was_supplied(old(wire).log(), final(wire).log())
                    &&& exists|a: Seq<Access>| #[trigger]
                        power::gpu_stopped(old(bus).log(), a, true) && power::gpu_started(
                            a,
                            final(bus).log(),
                            false,
                        )
                }
            },
        },
{
    platform.isolate(bus)?;
    let ghost a = bus.log();
    assert(power::gpu_stopped(old(bus).log(), a, true));
    enable(wire)?;
    platform.activate(bus)
}

/// How a rollback ended.
#[derive(Clone, Copy, Debug, PartialEq, Eq)]
pub enum Rollback {
    /// The processor may still reach its memory: it is kept for ever.
    Retained(&'static str),
    /// Its memory was released, but its supply is not as it was.
    Isolated(&'static str),
    /// Its supply is as it was, but not its clocks.
    Partial(&'static str),
    Complete,
}

/// The processor was not stopped, or what it started did not end.
pub open spec fn retain_cause(
    before: Seq<Access>,
    after: Seq<Access>,
    shared: bool,
    e: &'static str,
) -> bool {
    ||| e == "GPU isolation readback mismatch" && power::gpu_stopped(before, after, false)
    ||| exists|a: Seq<Access>|
        shared && #[trigger] power::gpu_stopped(before, a, true) && flush_failed(a, after, e)
}

/// The processor was stopped, and what it started has ended where it shares memory.
pub open spec fn was_parted(
    before: Seq<Access>,
    stopped: Seq<Access>,
    after: Seq<Access>,
    shared: bool,
) -> bool {
    &&& power::gpu_stopped(before, stopped, true)
    &&& if shared {
        was_emptied(stopped, after)
    } else {
        after == stopped
    }
}

/// Switches the graphics processor off and puts everything back. Its memory may be
/// released unless the result says that it is retained.
#[verifier::rlimit(60)]
pub fn roll_back<R: Timed, C: Chips>(
    platform: &GpuPlatform,
    bus: &mut Bus<'_, R>,
    wire: &mut Wire<'_, C>,
    shared: bool,
    platform_before: GpuPlatformState,
    rail_before: RailState,
) -> (r: Rollback)
    ensures
        final(wire).port() == old(wire).port(),
        final(bus).port() == old(bus).port(),
        mmio::memory_kept(old(bus).log(), final(bus).log()),
        // Memory is released, and the supply touched, only behind a processor that is
        // stopped and whose accesses have ended.
        !(r is Retained) ==> exists|a: Seq<Access>, b: Seq<Access>|
            {
                &&& #[trigger] was_parted(old(bus).log(), a, b, shared)
                &&& match r {
                    Rollback::Complete => power::gpu_restored(
                        b,
                        final(bus).log(),
                        platform_before,
                        true,
                    ),
                    Rollback::Partial(_) => power::gpu_restored(
                        b,
                        final(bus).log(),
                        platform_before,
                        false,
                    ),
                    _ => final(bus).log() == b,
                }
            },
        r is Retained ==> final(wire).log() == old(wire).log(),
        r matches Rollback::Retained(e) ==> retain_cause(
            old(bus).log(),
            final(bus).log(),
            shared,
            e,
        ),
        // A supply that is not as it was: the wires broke, or what was read at the end
        // differs.
        r matches Rollback::Isolated(e) ==> not_put_back(
            old(wire).log(),
            final(wire).log(),
            rail_before,
            e,
        ),
        r is Isolated ==> !exists|x: u8, gb: u8, ab: u8|
            restored_spec(rail_before, gb, ab) && final(wire).log() == old(wire).log()
                + #[trigger] restore_log(rail_before, x, gb, ab),
        r matches Rollback::Partial(e) ==> e == "GPU platform rollback readback mismatch"
            && power::gpu_state(final(bus).log()) != platform_before,
        r is Complete || r is Partial ==> exists|x: u8, gb: u8, ab: u8|
            restored_spec(rail_before, gb, ab) && final(wire).log() == old(wire).log()
                + #[trigger] restore_log(rail_before, x, gb, ab),
        r is Complete ==> power::gpu_state(final(bus).log()) == platform_before,
{
    match platform.isolate(bus) {
        Err(e) => {
            return Rollback::Retained(e);
        },
        Ok(_) => {},
    }
    let ghost a = bus.log();
    assert(power::gpu_stopped(old(bus).log(), a, true));
    if shared {
        match flush_mc(bus) {
            Err(e) => {
                return Rollback::Retained(e);
            },
            Ok(_) => {},
        }
    }
    let ghost b = bus.log();
    assert(was_parted(old(bus).log(), a, b, shared));
    match restore(wire, rail_before) {
        Err(e) => {
            return Rollback::Isolated(e);
        },
        Ok(_) => {},
    }
    match platform.restore(bus, platform_before) {
        Err(e) => Rollback::Partial(e),
        Ok(_) => Rollback::Complete,
    }
}

/// The processor is the one that this library knows.
pub open spec fn is_gm20b(boot0: u32) -> bool {
    boot0 / 0x10_0000 % 512 == 0x12b
}

/// The processor was identified, its interrupts were read, and both outputs were masked.
pub open spec fn masked(before: Seq<Access>, boot0: u32, stall: u32, other: u32) -> Seq<Access> {
    before.push(Access::Read(0, boot0)).push(Access::Read(0x100, stall)).push(
        Access::Read(0x104, other),
    ).push(Access::Write(0x140, 0)).push(Access::Write(0x144, 0))
}

/// The processor is another, or an output did not stay masked.
pub open spec fn identity_failed(before: Seq<Access>, after: Seq<Access>, e: &'static str) -> bool {
    let first = mmio::last(after, 0x140);
    let second = mmio::last(after, 0x144);
    ||| {
        &&& e == "GPU identity is not GM20B"
        &&& !is_gm20b(mmio::last(after, 0))
        &&& after == before.push(Access::Read(0, mmio::last(after, 0)))
    }
    ||| e == "GPU MC CPU interrupt outputs did not remain masked" && exists|
        boot0: u32,
        stall: u32,
        other: u32,
    |
        {
            &&& is_gm20b(boot0)
            &&& {
                ||| first != 0 && after == (#[trigger] masked(before, boot0, stall, other)).push(
                    Access::Read(0x140, first),
                )
                ||| second != 0 && after == masked(before, boot0, stall, other).push(
                    Access::Read(0x140, 0),
                ).push(Access::Read(0x144, second))
            }
        }
}

/// Identifies the processor, and masks its interrupts towards the host.
pub fn identify<R: Timed>(bus: &mut Bus<'_, R>) -> (r: Result<(u32, u32, u32), &'static str>)
    ensures
        final(bus).port() == old(bus).port(),
        mmio::memory_kept(old(bus).log(), final(bus).log()),
        match r {
            Ok((boot0, stall, other)) => is_gm20b(boot0) && final(bus).log() == masked(
                old(bus).log(),
                boot0,
                stall,
                other,
            ).push(Access::Read(0x140, 0)).push(Access::Read(0x144, 0)),
            Err(e) => identity_failed(old(bus).log(), final(bus).log(), e),
        },
{
    let boot0: u32 = bus.read(0);
    if boot0 / 0x10_0000 % 512 != 0x12b {
        return Err("GPU identity is not GM20B");
    }
    let stall: u32 = bus.read(0x100);
    let other: u32 = bus.read(0x104);
    bus.write(0x140, 0);
    bus.write(0x144, 0);
    assert(bus.log() == masked(old(bus).log(), boot0, stall, other));
    if bus.read(0x140) != 0 || bus.read(0x144) != 0 {
        return Err("GPU MC CPU interrupt outputs did not remain masked");
    }
    Ok((boot0, stall, other))
}

/// What is told of the processor to programs: a version, then sixteen numbers.
pub open spec fn report_spec(
    boot0: u32,
    enable: u32,
    stall: u32,
    other: u32,
    before: GpuPlatformState,
    reference_hz: u32,
    context: u32,
    zcull: u32,
    checksum: u32,
) -> Seq<u32> {
    seq![
        6u32,
        boot0,
        enable,
        stall,
        other,
        before.reset,
        before.clamp,
        before.gates,
        before.power_clock,
        reference_hz,
        204_000_000,
        1,
        1,
        context,
        zcull,
        checksum,
    ]
}

pub fn report(
    boot0: u32,
    enable: u32,
    stall: u32,
    other: u32,
    before: GpuPlatformState,
    reference_hz: u32,
    context: u32,
    zcull: u32,
    checksum: u32,
) -> (r: [u8; 64])
    ensures
        r@ == firmware::packed(
            report_spec(
                boot0,
                enable,
                stall,
                other,
                before,
                reference_hz,
                context,
                zcull,
                checksum,
            ),
        ),
{
    let numbers: [u32; 16] = [
        6,
        boot0,
        enable,
        stall,
        other,
        before.reset,
        before.clamp,
        before.gates,
        before.power_clock,
        reference_hz,
        204_000_000,
        1,
        1,
        context,
        zcull,
        checksum,
    ];
    let ghost told = report_spec(
        boot0,
        enable,
        stall,
        other,
        before,
        reference_hz,
        context,
        zcull,
        checksum,
    );
    assert(numbers@ =~= told);
    let mut bytes: [u8; 64] = [0; 64];
    put_words(&mut bytes, 0, &numbers);
    assert(bytes@ =~= firmware::packed(told));
    bytes
}

proof fn lemma_pin(gpio: u8, alternate: u8, before: u8)
    by (bit_vector)
    ensures
        ((gpio & !2u8) | 1 | 8) & 0x0b == 9,
        ((gpio & !2u8) | 1 | 8) & 0xf4 == gpio & 0xf4,
        (alternate & !0x40u8) & 0x40 == 0,
        (alternate & !0x40u8) & 0xbf == alternate & 0xbf,
        before == 0 || before == 0x40 ==> ((alternate & !0x40u8) | before) & 0x40 == before,
        before == 0 || before == 0x40 ==> ((alternate & !0x40u8) | before) & 0xbf == alternate & 0xbf,
{
}

/// The regulator is set to one volt in both registers, and seen at it, before the pin that
/// enables it is taken as a pin and driven high; no other bit of the pin's registers changes,
/// and what was written is what counts as enabled.
pub proof fn rails_have_their_voltage_first(
    alternate: u8,
    gpio: u8,
    gpio_back: u8,
    alternate_back: u8,
)
    ensures
        ({
            let l = enable_log(alternate, gpio, gpio_back, alternate_back);
            &&& l.len() == 12
            &&& l[0] == Exchange::Write(0x1c, 0, 0xbf, true) && l[1] == Exchange::Read(
                0x1c,
                0,
                Some(0xbfu8),
            )
            &&& l[2] == Exchange::Write(0x1c, 1, 0xbf, true) && l[3] == Exchange::Read(
                0x1c,
                1,
                Some(0xbfu8),
            )
            &&& l[4] == Exchange::Delay(1000) && l[9] == Exchange::Delay(1000)
            &&& l[6] matches Exchange::Write(a, r, v, ok) && a == 0x3c && r == 0x40 && v & 0x40 == 0
                && v & 0xbf == alternate & 0xbf
            &&& l[8] matches Exchange::Write(a, r, v, ok) && a == 0x3c && r == 0x3c && v & 0x0b == 9
                && v & 0xf4 == gpio & 0xf4
            &&& enabled_spec(l[8]->Write_2, l[6]->Write_2)
        }),
{
    lemma_pin(gpio, alternate, 0);
}

/// A rail is given back in the reverse order: its pin first, then both registers, each with
/// what it had.
pub proof fn rails_are_given_back(previous: RailState, alternate: u8, g: u8, a: u8)
    requires
        previous.alternate == 0 || previous.alternate == 0x40,
    ensures
        ({
            let l = restore_log(previous, alternate, g, a);
            &&& l.len() == 11
            &&& l[0] == Exchange::Write(0x3c, 0x3c, previous.gpio, true)
            &&& l[1] == Exchange::Delay(1000) && l[6] == Exchange::Delay(1000)
            &&& l[3] matches Exchange::Write(d, r, v, ok) && d == 0x3c && r == 0x40 && v & 0x40
                == previous.alternate && v & 0xbf == alternate & 0xbf
            &&& l[4] == Exchange::Write(0x1c, 0, previous.vout, true)
            &&& l[5] == Exchange::Write(0x1c, 1, previous.dvs, true)
            &&& l[9] == Exchange::Read(0x1c, 0, Some(previous.vout))
            &&& l[10] == Exchange::Read(0x1c, 1, Some(previous.dvs))
            &&& restored_spec(previous, previous.gpio, l[3]->Write_2)
        }),
{
    lemma_pin(0, alternate, previous.alternate);
}

proof fn lemma_kept_bits(a: u8, b: u8)
    by (bit_vector)
    ensures
        a & 0xfb == b & 0xfb <==> a == b || a == b ^ 4,
{
}

/// A rail was given back if its pin's register is what it was, but for the level that is read
/// there, and the pin is used as it was.
pub proof fn given_back_rails_are_as_before(previous: RailState, gpio: u8, alternate: u8)
    ensures
        restored_spec(previous, gpio, alternate) <==> (gpio == previous.gpio || gpio == previous.gpio
            ^ 4) && alternate & 0x40 == previous.alternate,
{
    lemma_kept_bits(gpio, previous.gpio);
}

} // verus!
