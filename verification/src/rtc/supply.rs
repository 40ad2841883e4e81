//! Supplies of the power chip: that of the memory card's lines, and that of the touch
//! panel.
use vstd::prelude::*;

use crate::devicetree::Node;
use crate::i2c;
use crate::i2c::{Chips, Exchange, Wire};

verus! {

pub const ADDRESS: u8 = 0x3c;

fn read<C: Chips>(wire: &mut Wire<'_, C>, register: u8) -> (r: Result<u8, &'static str>)
    ensures
        final(wire).port() == old(wire).port(),
        match r {
            Ok(value) => final(wire).log() == old(wire).log().push(
                Exchange::Read(ADDRESS, register, Some(value)),
            ),
            Err(e) => e == "MAX77620 I2C read failed" && final(wire).log() == old(wire).log().push(
                Exchange::Read(ADDRESS, register, None),
            ),
        },
{
    match wire.read(ADDRESS, register) {
        None => Err("MAX77620 I2C read failed"),
        Some(value) => Ok(value),
    }
}

fn write<C: Chips>(wire: &mut Wire<'_, C>, register: u8, value: u8) -> (r: Result<
    (),
    &'static str,
>)
    ensures
        final(wire).port() == old(wire).port(),
        final(wire).log() == old(wire).log().push(
            Exchange::Write(ADDRESS, register, value, r is Ok),
        ),
        r matches Err(e) ==> e == "MAX77620 I2C write failed",
{
    if wire.write(ADDRESS, register, value) {
        Ok(())
    } else {
        Err("MAX77620 I2C write failed")
    }
}

/// The lines of the card at 3.3 volts, or off with their voltage kept.
pub open spec fn card_value(enabled: bool, previous: u8) -> u8 {
    if enabled {
        0xf2
    } else {
        previous & 0x3f
    }
}

/// The exchanges of switching the card's lines: the supply is taken from the
/// sequencer, then set, then read back; one that is on must say that it is good.
pub open spec fn card_log(enabled: bool, fps: u8, previous: u8, good: u8) -> Seq<Exchange> {
    seq![
        Exchange::Read(ADDRESS, 0x48, Some(fps)),
        Exchange::Write(ADDRESS, 0x48, fps | 0xc0, true),
        Exchange::Read(ADDRESS, 0x27, Some(previous)),
        Exchange::Write(ADDRESS, 0x27, card_value(enabled, previous), true),
        Exchange::Delay(
            if enabled {
                1_000
            } else {
                7_000
            },
        ),
        Exchange::Read(ADDRESS, 0x27, Some(card_value(enabled, previous))),
    ] + if enabled {
        seq![Exchange::Read(ADDRESS, 0x28, Some(good))]
    } else {
        seq![]
    }
}

/// The supply of the card's lines was switched.
pub open spec fn card_switched(before: Seq<Exchange>, after: Seq<Exchange>, enabled: bool) -> bool {
    exists|fps: u8, previous: u8, good: u8|
        (enabled ==> good & 8 != 0) && after == before + #[trigger] card_log(
            enabled,
            fps,
            previous,
            good,
        )
}

/// An exchange with the chip failed in the place of the one that was wanted.
pub open spec fn lost_instead(exchange: Exchange, wanted: Exchange, e: &'static str) -> bool {
    match (exchange, wanted) {
        (Exchange::Read(a, r, None), Exchange::Read(b, s, _)) => a == b && r == s && e
            == "MAX77620 I2C read failed",
        (Exchange::Write(a, r, v, false), Exchange::Write(b, s, w, _)) => a == b && r == s && v == w
            && e == "MAX77620 I2C write failed",
        _ => false,
    }
}

/// The supply of the card's lines was not switched: which exchange was the last, and
/// what was wrong with it.
pub open spec fn card_failed(
    before: Seq<Exchange>,
    after: Seq<Exchange>,
    enabled: bool,
    e: &'static str,
) -> bool {
    exists|fps: u8, previous: u8, good: u8|
        {
            let whole = #[trigger] card_log(enabled, fps, previous, good);
            let n = after.len() - 1 - before.len();
            &&& 0 <= n < whole.len()
            &&& after == (before + whole.take(n)).push(after.last())
            &&& {
                ||| lost_instead(after.last(), whole[n], e)
                ||| n == 5 && e == "SD LDO2 readback mismatch" && (
                after.last() matches Exchange::Read(a, r, Some(v)) && a == ADDRESS && r == 0x27 && v
                    != card_value(enabled, previous))
                ||| n == 6 && e == "SD LDO2 power-good not asserted" && (
                after.last() matches Exchange::Read(a, r, Some(v)) && a == ADDRESS && r == 0x28 && v
                    & 8 == 0)
            }
        }
}

/// The supply of the touch panel was not switched on: which exchange was the last, and
/// what was wrong with it.
pub open spec fn touch_failed(before: Seq<Exchange>, after: Seq<Exchange>, e: &'static str) -> bool {
    exists|fps: u8, previous: u8, good: u8|
        {
            let whole = #[trigger] touch_log(fps, previous, good);
            let n = after.len() - 1 - before.len();
            &&& 0 <= n < whole.len()
            &&& after == (before + whole.take(n)).push(after.last())
            &&& {
                ||| lost_instead(after.last(), whole[n], e)
                ||| n == whole.len() - 2 && e == "touch LDO6 readback mismatch" && (
                after.last() matches Exchange::Read(a, r, Some(v)) && a == ADDRESS && r == 0x2f && v
                    != 0xea)
                ||| n == whole.len() - 1 && e == "touch LDO6 power-good not asserted" && (
                after.last() matches Exchange::Read(a, r, Some(v)) && a == ADDRESS && r == 0x30 && v
                    & 8 == 0)
            }
        }
}

/// Switches the supply of the card's lines.
pub fn set_sd_io_supply<C: Chips>(wire: &mut Wire<'_, C>, enabled: bool) -> (r: Result<
    (),
    &'static str,
>)
    ensures
        final(wire).port() == old(wire).port(),
        r is Ok ==> card_switched(old(wire).log(), final(wire).log(), enabled),
        r matches Err(e) ==> card_failed(old(wire).log(), final(wire).log(), enabled, e),
{
    let ghost start = wire.log();
    assert(wire.log() =~= start + card_log(enabled, 0, 0, 8).take(0));
    let fps: u8 = read(wire, 0x48)?;
    assert(wire.log() =~= start + card_log(enabled, fps, 0, 8).take(1));
    write(wire, 0x48, fps | 0xc0)?;
    assert(wire.log() =~= start + card_log(enabled, fps, 0, 8).take(2));
    let previous: u8 = read(wire, 0x27)?;
    assert(wire.log() =~= start + card_log(enabled, fps, previous, 8).take(3));
    let value: u8 = if enabled {
        0xf2
    } else {
        previous & 0x3f
    };
    write(wire, 0x27, value)?;
    wire.delay_us(
        if enabled {
            1_000
        } else {
            7_000
        },
    );
    assert(wire.log() =~= start + card_log(enabled, fps, previous, 8).take(5));
    let back: u8 = read(wire, 0x27)?;
    if back != value {
        return Err("SD LDO2 readback mismatch");
    }
    let mut good: u8 = 8;
    if enabled {
        assert(wire.log() =~= start + card_log(enabled, fps, previous, 8).take(6));
        good = read(wire, 0x28)?;
        if good & 8 == 0 {
            return Err("SD LDO2 power-good not asserted");
        }
    }
    assert(wire.log() =~= old(wire).log() + card_log(enabled, fps, previous, good));
    Ok(())
}

/// The touch panel's voltage, with the mode that the supply had.
pub open spec fn touch_voltage(previous: u8) -> u8 {
    (previous & !0x3fu8) | 0x2a
}

/// The exchanges of switching the touch panel on: what is already right is not written.
pub open spec fn touch_log(fps: u8, previous: u8, good: u8) -> Seq<Exchange> {
    seq![Exchange::Read(ADDRESS, 0x4c, Some(fps))] + (if fps & 0xc0 != 0xc0 {
        seq![Exchange::Write(ADDRESS, 0x4c, fps | 0xc0, true)]
    } else {
        seq![]
    }) + seq![Exchange::Read(ADDRESS, 0x2f, Some(previous))] + (if previous != touch_voltage(
        previous,
    ) {
        seq![
            Exchange::Write(ADDRESS, 0x2f, touch_voltage(previous), true),
            Exchange::Delay(1000),
        ]
    } else {
        seq![]
    }) + (if touch_voltage(previous) != 0xea {
        seq![Exchange::Write(ADDRESS, 0x2f, 0xea, true), Exchange::Delay(1000)]
    } else {
        seq![]
    }) + seq![
        Exchange::Read(ADDRESS, 0x2f, Some(0xeau8)),
        Exchange::Read(ADDRESS, 0x30, Some(good)),
    ]
}

/// The supply of the touch panel is on and good.
pub open spec fn touch_switched(before: Seq<Exchange>, after: Seq<Exchange>) -> bool {
    exists|fps: u8, previous: u8, good: u8|
        good & 8 != 0 && after == before + #[trigger] touch_log(fps, previous, good)
}

/// Switches the supply of the touch panel on: its voltage first, then its mode.
#[verifier::rlimit(80)]
pub fn enable_touch_supply<C: Chips>(wire: &mut Wire<'_, C>) -> (r: Result<(), &'static str>)
    ensures
        final(wire).port() == old(wire).port(),
        r is Ok ==> touch_switched(old(wire).log(), final(wire).log()),
        r matches Err(e) ==> touch_failed(old(wire).log(), final(wire).log(), e),
{
    let ghost start = wire.log();
    assert(wire.log() =~= start + touch_log(0, 0, 8).take(0));
    let fps: u8 = read(wire, 0x4c)?;
    let ghost mut done: int = 1;
    assert(wire.log() =~= start + touch_log(fps, 0, 8).take(done));
    if fps & 0xc0 != 0xc0 {
        write(wire, 0x4c, fps | 0xc0)?;
        proof {
            done = done + 1;
        }
    }
    assert(wire.log() =~= start + touch_log(fps, 0, 8).take(done));
    let previous: u8 = read(wire, 0x2f)?;
    proof {
        done = done + 1;
    }
    assert(wire.log() =~= start + touch_log(fps, previous, 8).take(done));
    let voltage: u8 = (previous & !0x3f) | 0x2a;
    if previous != voltage {
        write(wire, 0x2f, voltage)?;
        wire.delay_us(1000);
        proof {
            done = done + 2;
        }
    }
    assert(wire.log() =~= start + touch_log(fps, previous, 8).take(done));
    if voltage != 0xea {
        write(wire, 0x2f, 0xea)?;
        wire.delay_us(1000);
        proof {
            done = done + 2;
        }
    }
    assert(wire.log() =~= start + touch_log(fps, previous, 8).take(done));
    assert(done == touch_log(fps, previous, 8).len() - 2);
    let back: u8 = read(wire, 0x2f)?;
    if back != 0xea {
        return Err("touch LDO6 readback mismatch");
    }
    assert(wire.log() =~= start + touch_log(fps, previous, 8).take(done + 1));
    let good: u8 = read(wire, 0x30)?;
    if good & 8 == 0 {
        return Err("touch LDO6 power-good not asserted");
    }
    assert(wire.log() =~= old(wire).log() + touch_log(fps, previous, good));
    Ok(())
}

/// The moment of the clock chip in nanoseconds.
pub fn epoch_ns(seconds: u64) -> (r: Result<u64, &'static str>)
    ensures
        r == if seconds * 1_000_000_000 <= u64::MAX {
            Ok::<u64, &'static str>((seconds * 1_000_000_000) as u64)
        } else {
            Err("RTC epoch overflow")
        },
{
    match seconds.checked_mul(1_000_000_000) {
        None => Err("RTC epoch overflow"),
        Some(ns) => Ok(ns),
    }
}

/// Attempts to set the time before anything else runs.
pub const EARLY_ATTEMPTS: u32 = 3;

/// Attempts of the worker behind them.
pub const LATE_ATTEMPTS: u32 = 8;

/// An attempt to set the time, counted from one: an early one, or one of the worker.
#[derive(Clone, Copy, Debug, PartialEq, Eq, Structural)]
pub enum Attempt {
    Early(u32),
    Late(u32),
}

/// The attempt that follows one that failed. The worker takes over behind the last early
/// one, and nothing follows its own last.
pub open spec fn attempt_behind(a: Attempt) -> Option<Attempt> {
    match a {
        Attempt::Early(n) => Some(
            if n < EARLY_ATTEMPTS {
                Attempt::Early((n + 1) as u32)
            } else {
                Attempt::Late(1)
            },
        ),
        Attempt::Late(n) => if n < LATE_ATTEMPTS {
            Some(Attempt::Late((n + 1) as u32))
        } else {
            None
        },
    }
}

/// The time that has to pass before an attempt, in microseconds.
pub open spec fn pause_spec(a: Attempt) -> u64 {
    match a {
        Attempt::Early(n) => if n <= 1 {
            0
        } else {
            10_000
        },
        Attempt::Late(_) => 1_000_000,
    }
}

/// What follows an attempt. Once the time is set, nothing does.
pub fn next_attempt(a: Attempt, seeded: bool) -> (r: Option<Attempt>)
    ensures
        r == if seeded {
            None
        } else {
            attempt_behind(a)
        },
{
    if seeded {
        return None;
    }
    match a {
        Attempt::Early(n) => if n < EARLY_ATTEMPTS {
            Some(Attempt::Early(n + 1))
        } else {
            Some(Attempt::Late(1))
        },
        Attempt::Late(n) => if n < LATE_ATTEMPTS {
            Some(Attempt::Late(n + 1))
        } else {
            None
        },
    }
}

/// The time that has to pass before an attempt, in microseconds.
pub fn pause_us(a: Attempt) -> (r: u64)
    ensures
        r == pause_spec(a),
{
    match a {
        Attempt::Early(n) => if n <= 1 {
            0
        } else {
            10_000
        },
        Attempt::Late(_) => 1_000_000,
    }
}

/// The attempt that is reached from the first one over so many failures.
pub open spec fn attempt_after(failures: nat) -> Option<Attempt>
    decreases failures,
{
    if failures == 0 {
        Some(Attempt::Early(1))
    } else {
        match attempt_after((failures - 1) as nat) {
            None => None,
            Some(a) => attempt_behind(a),
        }
    }
}

/// A clock that is never read is asked three times at once and eight times later on, and
/// then no more.
pub proof fn eleven_attempts_are_made(failures: nat)
    ensures
        attempt_after(failures) == if failures < EARLY_ATTEMPTS {
            Some(Attempt::Early((failures + 1) as u32))
        } else if failures < EARLY_ATTEMPTS + LATE_ATTEMPTS {
            Some(Attempt::Late((failures - EARLY_ATTEMPTS + 1) as u32))
        } else {
            None
        },
    decreases failures,
{
    if failures > 0 {
        eleven_attempts_are_made((failures - 1) as nat);
    }
}

/// Checks the description of the power chip.
pub fn check_address(device: &Node) -> (r: Result<(), &'static str>)
    ensures
        r == if device@.cell("reg"@, 0) == Some(0x3cu32) {
            Ok::<(), &'static str>(())
        } else {
            Err("unexpected MAX77620 address")
        },
{
    let address: Option<u32> = device.cell("reg", 0);
    if address != Some(0x3cu32) {
        return Err("unexpected MAX77620 address");
    }
    Ok(())
}

/// Checks the bus of the power chip.
pub fn check_bus(number: u32) -> (r: Result<(), &'static str>)
    ensures
        r == if number == 5 {
            Ok::<(), &'static str>(())
        } else {
            Err("unsupported MAX77620 wiring")
        },
{
    if number != 5 {
        return Err("unsupported MAX77620 wiring");
    }
    Ok(())
}

proof fn lemma_card(previous: u8, fps: u8)
    by (bit_vector)
    ensures
        (previous & 0x3f) / 0x40 == 0,
        (previous & 0x3f) == previous % 0x40,
        (fps | 0xc0) / 0x40 == 3,
        (fps | 0xc0) % 0x40 == fps % 0x40,
        ((previous & !0x3fu8) | 0x2a) % 0x40 == 0x2a,
        ((previous & !0x3fu8) | 0x2a) / 0x40 == previous / 0x40,
{
}

/// The card's supply is taken off its sequencer and then set: on it has 3.3 volts and is seen
/// to be good, off it keeps its voltage and has no mode; it has time to settle or to fall.
pub proof fn cards_get_their_supply(enabled: bool, fps: u8, previous: u8, good: u8)
    ensures
        ({
            let l = card_log(enabled, fps, previous, good);
            &&& l[1] matches Exchange::Write(a, r, v, done) && a == 0x3c && r == 0x48 && v / 0x40
                == 3 && v % 0x40 == fps % 0x40
            &&& l[3] matches Exchange::Write(a, r, v, done) && a == 0x3c && r == 0x27 && (enabled
                ==> v / 0x40 == 3 && 800 + 50 * (v % 0x40) == 3_300) && (!enabled ==> v / 0x40 == 0
                && v % 0x40 == previous % 0x40)
            &&& enabled ==> l.len() == 7 && l[4] == Exchange::Delay(1_000) && l[6] == Exchange::Read(
                0x3c,
                0x28,
                Some(good),
            )
            &&& !enabled ==> l.len() == 6 && l[4] == Exchange::Delay(7_000)
            &&& l[5] == Exchange::Read(0x3c, 0x27, Some(l[3]->Write_2))
        }),
{
    lemma_card(previous, fps);
}

/// The touch panel's supply has 2.9 volts before it is switched on.
pub proof fn panels_have_their_voltage_first(previous: u8)
    ensures
        touch_voltage(previous) / 0x40 == previous / 0x40,
        800 + 50 * (touch_voltage(previous) % 0x40) == 2_900,
        touch_voltage(previous) == 0xea <==> previous / 0x40 == 3,
{
    lemma_card(previous, 0);
}

/// Attempts follow each other at once, then after ten milliseconds, and from the fourth on
/// after a second.
pub proof fn attempts_are_spaced(n: u32)
    requires
        1 <= n,
    ensures
        pause_spec(Attempt::Early(1)) == 0,
        n > 1 ==> pause_spec(Attempt::Early(n)) == 10_000,
        pause_spec(Attempt::Late(n)) == 1_000_000,
        n < 3 ==> attempt_behind(Attempt::Early(n)) == Some(Attempt::Early((n + 1) as u32)),
        n == 3 ==> attempt_behind(Attempt::Early(n)) == Some(Attempt::Late(1)),
        n < 8 ==> attempt_behind(Attempt::Late(n)) == Some(Attempt::Late((n + 1) as u32)),
        n == 8 ==> attempt_behind(Attempt::Late(n)) is None,
{
}

} // verus!
