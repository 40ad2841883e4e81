//! Read-only telemetry of the fuel gauge and the charger.
use vstd::prelude::*;

use crate::rounding;
use crate::rounding::divide;

verus! {

pub const GAUGE_ADDRESS: u8 = 0x36;

pub const CHARGER_ADDRESS: u8 = 0x6b;

/// The bus of both chips.
pub trait Registers {
    /// Sets the register pointer and reads. No register is written.
    fn read(&self, address: u8, register: u8, bytes: &mut [u8]) -> Result<(), &'static str>;
}

#[derive(Clone, Copy, Debug, PartialEq, Eq, Structural)]
pub enum ChargeState {
    Charging,
    Discharging,
    NotCharging,
    Full,
}

/// What is known of a supply.
#[derive(Clone, Copy, Debug, PartialEq)]
pub struct PowerSupplyState {
    pub present: Option<bool>,
    pub online: Option<bool>,
    pub capacity_permille: Option<u32>,
    pub voltage_uv: Option<u32>,
    pub current_ua: Option<i32>,
    pub temperature_mc: Option<i32>,
    pub charge_state: Option<ChargeState>,
    pub input_current_limit_ua: Option<u32>,
}

pub open spec fn unknown() -> PowerSupplyState {
    PowerSupplyState {
        present: None,
        online: None,
        capacity_permille: None,
        voltage_uv: None,
        current_ua: None,
        temperature_mc: None,
        charge_state: None,
        input_current_limit_ua: None,
    }
}

impl Default for PowerSupplyState {
    fn default() -> (r: Self)
        ensures
            r == unknown(),
    {
        PowerSupplyState {
            present: None,
            online: None,
            capacity_permille: None,
            voltage_uv: None,
            current_ua: None,
            temperature_mc: None,
            charge_state: None,
            input_current_limit_ua: None,
        }
    }
}

/// One read of a chip: its address, the register, and the bytes or the error that came
/// back.
pub struct Exchange {
    pub address: u8,
    pub register: u8,
    pub reply: Result<Seq<u8>, &'static str>,
}

impl Exchange {
    pub open spec fn asks(self, address: u8, register: u8) -> bool {
        self.address == address && self.register == register
    }

    /// A register of the gauge, low byte first.
    pub open spec fn word(self) -> u16 {
        (self.reply->Ok_0[0] + 256 * self.reply->Ok_0[1]) as u16
    }

    pub open spec fn byte(self) -> u8 {
        self.reply->Ok_0[0]
    }
}

/// Reads a register of the gauge into two bytes.
pub fn fetch_word<R: Registers>(io: &R, register: u8) -> (r: Result<[u8; 2], &'static str>)
    ensures
        exists|place: &mut [u8], q: Result<(), &'static str>| #[trigger]
            call_ensures(R::read, (io, GAUGE_ADDRESS, register, place), q) && place@.len() == 2
                && match r {
                Ok(bytes) => q is Ok && final(place)@ == bytes@,
                Err(e) => q == Err::<(), &'static str>(e),
            },
{
    let mut bytes: [u8; 2] = [0; 2];
    match io.read(GAUGE_ADDRESS, register, &mut bytes) {
        Ok(()) => Ok(bytes),
        Err(e) => Err(e),
    }
}

/// Reads a register of the charger into one byte.
pub fn fetch_byte<R: Registers>(io: &R, register: u8) -> (r: Result<[u8; 1], &'static str>)
    ensures
        exists|place: &mut [u8], q: Result<(), &'static str>| #[trigger]
            call_ensures(R::read, (io, CHARGER_ADDRESS, register, place), q) && place@.len() == 1
                && match r {
                Ok(bytes) => q is Ok && final(place)@ == bytes@,
                Err(e) => q == Err::<(), &'static str>(e),
            },
{
    let mut bytes: [u8; 1] = [0];
    match io.read(CHARGER_ADDRESS, register, &mut bytes) {
        Ok(()) => Ok(bytes),
        Err(e) => Err(e),
    }
}

/// The reply is the one that the bus gave to a reading of the gauge.
pub open spec fn gave_word<R: Registers>(
    io: &R,
    register: u8,
    reply: Result<Seq<u8>, &'static str>,
) -> bool {
    exists|r: Result<[u8; 2], &'static str>| #[trigger]
        call_ensures(fetch_word::<R>, (io, register), r) && match r {
            Ok(bytes) => reply == Ok::<Seq<u8>, &'static str>(bytes@),
            Err(e) => reply == Err::<Seq<u8>, &'static str>(e),
        }
}

/// The reply is the one that the bus gave to a reading of the charger.
pub open spec fn gave_byte<R: Registers>(
    io: &R,
    register: u8,
    reply: Result<Seq<u8>, &'static str>,
) -> bool {
    exists|r: Result<[u8; 1], &'static str>| #[trigger]
        call_ensures(fetch_byte::<R>, (io, register), r) && match r {
            Ok(bytes) => reply == Ok::<Seq<u8>, &'static str>(bytes@),
            Err(e) => reply == Err::<Seq<u8>, &'static str>(e),
        }
}

/// The bus was asked for that register of that chip, and gave that reply.
pub open spec fn happened<R: Registers>(io: &R, x: Exchange) -> bool {
    if x.address == GAUGE_ADDRESS {
        gave_word(io, x.register, x.reply)
    } else {
        x.address == CHARGER_ADDRESS && gave_byte(io, x.register, x.reply)
    }
}

/// What a record shows is what the bus put into the buffer that it was given, or the
/// error that it gave.
pub proof fn a_reply_is_what_the_bus_gave<R: Registers>(io: &R, x: Exchange)
    requires
        happened(io, x),
    ensures
        exists|place: &mut [u8], q: Result<(), &'static str>| #[trigger]
            call_ensures(R::read, (io, x.address, x.register, place), q) && match x.reply {
                Ok(bytes) => q is Ok && final(place)@ == bytes && place@.len() == (if x.address
                    == GAUGE_ADDRESS {
                    2int
                } else {
                    1
                }),
                Err(e) => q == Err::<(), &'static str>(e),
            },
{
}

/// All of a record is what the bus answered.
pub open spec fn answered<R: Registers>(io: &R, log: Seq<Exchange>) -> bool {
    forall|i: int| 0 <= i < log.len() ==> happened(io, #[trigger] log[i])
}

/// The bus of both chips, with all that was asked.
pub struct Reader<'a, R: Registers> {
    io: &'a R,
    log: Ghost<Seq<Exchange>>,
}

impl<'a, R: Registers> Reader<'a, R> {
    pub closed spec fn log(&self) -> Seq<Exchange> {
        self.log@
    }

    /// Whose bus it is.
    pub closed spec fn port(self) -> &'a R {
        self.io
    }

    /// The record holds what the bus answered, and nothing else.
    #[verifier::type_invariant]
    pub open spec fn genuine(self) -> bool {
        answered(self.port(), self.log())
    }

    pub fn new(io: &'a R) -> (reader: Self)
        ensures
            reader.log() == Seq::<Exchange>::empty(),
            reader.port() == io,
    {
        Reader { io, log: Ghost(Seq::empty()) }
    }

    /// Reads a register of the gauge. A failed read stays failed.
    pub fn word(&mut self, register: u8) -> (r: Result<u16, &'static str>)
        ensures
            final(self).port() == old(self).port(),
            ({
                let x = final(self).log().last();
                &&& final(self).log() == old(self).log().push(x)
                &&& x.asks(GAUGE_ADDRESS, register)
                &&& match r {
                    Ok(value) => x.reply is Ok && value == x.word(),
                    Err(e) => x.reply == Err::<Seq<u8>, &'static str>(e),
                }
            }),
            r is Ok ==> exists|place: &mut [u8], q: Result<(), &'static str>| #[trigger]
                call_ensures(R::read, (old(self).port(), GAUGE_ADDRESS, register, place), q)
                    && q is Ok && final(place)@ == final(self).log().last().reply->Ok_0,
    {
        let outcome = fetch_word(self.io, register);
        let ghost reply = match outcome {
            Ok(bytes) => Ok(bytes@),
            Err(e) => Err(e),
        };
        proof {
            use_type_invariant(&*self);
            let before = self.log@;
            let x = Exchange { address: GAUGE_ADDRESS, register, reply };
            assert(call_ensures(fetch_word::<R>, (self.io, register), outcome));
            assert(happened(self.io, x));
            self.log@ = before.push(x);
        }
        let bytes: [u8; 2] = outcome?;
        Ok(join(bytes))
    }

    /// Reads a register of the charger.
    pub fn byte(&mut self, register: u8) -> (r: Result<u8, &'static str>)
        ensures
            final(self).port() == old(self).port(),
            ({
                let x = final(self).log().last();
                &&& final(self).log() == old(self).log().push(x)
                &&& x.asks(CHARGER_ADDRESS, register)
                &&& match r {
                    Ok(value) => x.reply is Ok && value == x.byte(),
                    Err(e) => x.reply == Err::<Seq<u8>, &'static str>(e),
                }
            }),
            r is Ok ==> exists|place: &mut [u8], q: Result<(), &'static str>| #[trigger]
                call_ensures(R::read, (old(self).port(), CHARGER_ADDRESS, register, place), q)
                    && q is Ok && final(place)@ == final(self).log().last().reply->Ok_0,
    {
        let outcome = fetch_byte(self.io, register);
        let ghost reply = match outcome {
            Ok(bytes) => Ok(bytes@),
            Err(e) => Err(e),
        };
        proof {
            use_type_invariant(&*self);
            let before = self.log@;
            let x = Exchange { address: CHARGER_ADDRESS, register, reply };
            assert(call_ensures(fetch_byte::<R>, (self.io, register), outcome));
            assert(happened(self.io, x));
            self.log@ = before.push(x);
        }
        let bytes: [u8; 1] = outcome?;
        Ok(bytes[0])
    }
}

/// Reads a register of the gauge, low byte first. A failed read stays failed.
pub fn word<R: Registers>(io: &R, register: u8) -> (r: Result<u16, &'static str>)
    ensures
        exists|x: Exchange| #[trigger]
            x.asks(GAUGE_ADDRESS, register) && happened(io, x) && match r {
                Ok(value) => x.reply is Ok && value == x.word(),
                Err(e) => x.reply == Err::<Seq<u8>, &'static str>(e),
            },
{
    let mut reader = Reader::new(io);
    let r = reader.word(register);
    proof {
        use_type_invariant(&reader);
        assert(reader.log().last().asks(GAUGE_ADDRESS, register));
    }
    r
}

/// The number in two bytes, low byte first.
pub fn join(bytes: [u8; 2]) -> (r: u16)
    ensures
        r == bytes@[0] + 256 * bytes@[1],
{
    bytes[0] as u16 + 256 * (bytes[1] as u16)
}

/// Reads a register of the charger. A failed read stays failed.
pub fn byte<R: Registers>(io: &R, register: u8) -> (r: Result<u8, &'static str>)
    ensures
        exists|x: Exchange| #[trigger]
            x.asks(CHARGER_ADDRESS, register) && happened(io, x) && match r {
                Ok(value) => x.reply is Ok && value == x.byte(),
                Err(e) => x.reply == Err::<Seq<u8>, &'static str>(e),
            },
{
    let mut reader = Reader::new(io);
    let r = reader.byte(register);
    proof {
        use_type_invariant(&reader);
        assert(reader.log().last().asks(CHARGER_ADDRESS, register));
    }
    r
}

/// Power good, and not exporting power. Power good counts even while the kind of
/// input is still being found out; exported power never counts as input.
pub open spec fn online_spec(status: u8) -> bool {
    (status as int / 4) % 2 == 1 && status as int / 64 != 3
}

pub fn external_online(status: u8) -> (r: bool)
    ensures
        r == online_spec(status),
{
    (status / 4) % 2 == 1 && status / 64 != 3
}

/// A battery that gives current is discharging even with an adapter connected.
pub open spec fn charge_spec(status: u8, current_ua: i32) -> ChargeState {
    let phase = (status as int / 16) % 4;
    if !online_spec(status) || current_ua < 0 {
        ChargeState::Discharging
    } else if phase == 1 || phase == 2 {
        ChargeState::Charging
    } else if phase == 3 {
        ChargeState::Full
    } else {
        ChargeState::NotCharging
    }
}

pub fn charge_state(status: u8, current_ua: i32) -> (r: ChargeState)
    ensures
        r == charge_spec(status, current_ua),
{
    if !external_online(status) || current_ua < 0 {
        return ChargeState::Discharging;
    }
    match (status / 16) % 4 {
        1 | 2 => ChargeState::Charging,
        3 => ChargeState::Full,
        _ => ChargeState::NotCharging,
    }
}

/// The signed number in a register.
pub open spec fn signed(raw: u16) -> int {
    if raw < 0x8000 {
        raw as int
    } else {
        raw - 0x1_0000
    }
}

fn to_signed(raw: u16) -> (r: i64)
    ensures
        r == signed(raw),
        -0x8000 <= r < 0x8000,
{
    if raw < 0x8000 {
        raw as i64
    } else {
        raw as i64 - 0x1_0000
    }
}

/// The battery is missing.
pub open spec fn absent(status: u16) -> bool {
    (status as int / 8) % 2 == 1
}

/// The gauge was reset, and its learned model of the battery is gone.
pub open spec fn forgotten(status: u16) -> bool {
    (status as int / 2) % 2 == 1
}

pub open spec fn capacity_spec(soc: u16) -> u32 {
    let permille = soc * 10 / 256;
    if permille <= 1000 {
        permille as u32
    } else {
        1000
    }
}

/// Tenths of a percent of a full battery.
pub fn capacity(soc: u16) -> (r: u32)
    ensures
        r == capacity_spec(soc),
{
    let permille: u32 = soc as u32 * 10 / 256;
    if permille < 1000 {
        permille
    } else {
        1000
    }
}

/// Steps of 625 microvolts above three low bits without meaning.
pub fn voltage(raw: u16) -> (r: u32)
    ensures
        r == (raw as int / 8) * 625,
{
    (raw / 8) as u32 * 625
}

/// Thousandths of a degree from signed steps of 1/256 degree.
pub fn temperature(raw: u16) -> (r: i32)
    ensures
        r == rounding::truncated(signed(raw) * 1000, 256),
{
    let n: i64 = to_signed(raw) * 1000;
    divide(n, 256) as i32
}

/// Microamperes from signed steps of 1.5625 microvolts over the sense resistor.
pub open spec fn current_spec(raw: u16, rsense_uohm: u32) -> int {
    rounding::truncated(signed(raw) * 1_562_500, rsense_uohm as int)
}

pub fn current(raw: u16, rsense_uohm: u32) -> (r: Result<i32, &'static str>)
    requires
        0 < rsense_uohm,
    ensures
        if i32::MIN <= current_spec(raw, rsense_uohm) <= i32::MAX {
            r matches Ok(c) && c == current_spec(raw, rsense_uohm)
        } else {
            r == Err::<i32, &'static str>("gauge current overflow")
        },
{
    let microamperes: i64 = divide(to_signed(raw) * 1_562_500, rsense_uohm as i64);
    if microamperes < -0x8000_0000 || microamperes > 0x7fff_ffff {
        return Err("gauge current overflow");
    }
    Ok(microamperes as i32)
}

/// Readings of one round: registers of the gauge, and the charger status where
/// the board has a charger that answered. The capacity is read only where the
/// gauge knows the battery.
#[derive(Clone, Copy, Debug)]
pub struct Readings {
    pub status: u16,
    pub soc: u16,
    pub cell: u16,
    pub temperature: u16,
    pub current: u16,
    pub charger: Option<u8>,
}

/// What the readings say of the battery.
pub open spec fn battery_spec(r: Readings, rsense_uohm: u32) -> Result<
    PowerSupplyState,
    &'static str,
> {
    let c = current_spec(r.current, rsense_uohm);
    if absent(r.status) {
        Ok(PowerSupplyState { present: Some(false), ..unknown() })
    } else if !(i32::MIN <= c <= i32::MAX) {
        Err("gauge current overflow")
    } else {
        Ok(
            PowerSupplyState {
                present: Some(true),
                capacity_permille: if forgotten(r.status) {
                    None
                } else {
                    Some(capacity_spec(r.soc))
                },
                voltage_uv: Some(((r.cell as int / 8) * 625) as u32),
                temperature_mc: Some(rounding::truncated(signed(r.temperature) * 1000, 256) as i32),
                current_ua: Some(c as i32),
                charge_state: match r.charger {
                    None => None,
                    Some(status) => Some(charge_spec(status, c as i32)),
                },
                ..unknown()
            },
        )
    }
}

/// Turns readings into the state of the battery. What cannot be trusted stays
/// unknown: it never becomes zero.
pub fn battery(r: &Readings, rsense_uohm: u32) -> (state: Result<PowerSupplyState, &'static str>)
    requires
        0 < rsense_uohm,
    ensures
        state == battery_spec(*r, rsense_uohm),
{
    let mut state = PowerSupplyState::default();
    if (r.status / 8) % 2 == 1 {
        state.present = Some(false);
        return Ok(state);
    }
    state.present = Some(true);
    if (r.status / 2) % 2 == 0 {
        state.capacity_permille = Some(capacity(r.soc));
    }
    state.voltage_uv = Some(voltage(r.cell));
    state.temperature_mc = Some(temperature(r.temperature));
    let c: i32 = current(r.current, rsense_uohm)?;
    state.current_ua = Some(c);
    if let Some(status) = r.charger {
        state.charge_state = Some(charge_state(status, c));
    }
    Ok(state)
}

/// Sense resistors that boards have, in microohms.
pub open spec fn rsense_ok(rsense_uohm: u32) -> bool {
    100 <= rsense_uohm <= 1_000_000
}

/// The registers that are asked behind the status: all that a present battery has, but
/// its charge where the gauge has forgotten it.
pub open spec fn gauge_registers(status: u16) -> Seq<u8> {
    if absent(status) {
        seq![]
    } else if forgotten(status) {
        seq![9u8, 8, 0xb]
    } else {
        seq![6u8, 9, 8, 0xb]
    }
}

/// What the answers say, where none failed.
pub open spec fn readings_of(log: Seq<Exchange>, charger: bool) -> Readings {
    let status = log[0].word();
    let n = gauge_registers(status).len() as int;
    if absent(status) {
        Readings { status, soc: 0, cell: 0, temperature: 0, current: 0, charger: None }
    } else {
        Readings {
            status,
            soc: if forgotten(status) {
                0
            } else {
                log[1].word()
            },
            cell: log[n - 2].word(),
            temperature: log[n - 1].word(),
            current: log[n].word(),
            charger: if charger && log[n + 1].reply is Ok {
                Some(log[n + 1].byte())
            } else {
                None
            },
        }
    }
}

/// What is asked, in order, and the answer that follows. The first failed read ends
/// it; the charger is asked last, once the current is known to be sane, and its
/// failure leaves only its own part unknown.
pub open spec fn gauged(
    log: Seq<Exchange>,
    rsense_uohm: u32,
    charger: bool,
    r: Result<PowerSupplyState, &'static str>,
) -> bool {
    let n = log.len() as int;
    let status = log[0].word();
    let registers = gauge_registers(status);
    let asked = 1 + registers.len();
    if !rsense_ok(rsense_uohm) {
        n == 0 && r == Err::<PowerSupplyState, &'static str>("invalid gauge sense resistor")
    } else {
        &&& 1 <= n
        &&& log[0].asks(GAUGE_ADDRESS, 0)
        &&& if log[0].reply is Err {
            n == 1 && r == Err::<PowerSupplyState, &'static str>(log[0].reply->Err_0)
        } else {
            &&& forall|i: int|
                1 <= i < n && i < asked ==> (#[trigger] log[i]).asks(
                    GAUGE_ADDRESS,
                    registers[i - 1],
                )
            &&& forall|i: int| 0 <= i < n - 1 && i < asked ==> (#[trigger] log[i]).reply is Ok
            &&& if n <= asked && log[n - 1].reply is Err {
                r == Err::<PowerSupplyState, &'static str>(log[n - 1].reply->Err_0)
            } else {
                let sane = absent(status) || (i32::MIN <= current_spec(
                    log[registers.len() as int].word(),
                    rsense_uohm,
                ) <= i32::MAX);
                let last = charger && !absent(status) && sane;
                &&& n == asked + (if last {
                    1int
                } else {
                    0
                })
                &&& last ==> log[n - 1].asks(CHARGER_ADDRESS, 8)
                &&& r == battery_spec(readings_of(log, last), rsense_uohm)
            }
        }
    }
}

/// Reads the state of the battery.
pub fn gauge_on<R: Registers>(
    reader: &mut Reader<'_, R>,
    rsense_uohm: u32,
    charger: bool,
) -> (r: Result<PowerSupplyState, &'static str>)
    requires
        old(reader).log() == Seq::<Exchange>::empty(),
    ensures
        gauged(final(reader).log(), rsense_uohm, charger, r),
        final(reader).port() == old(reader).port(),
{
    if rsense_uohm < 100 || rsense_uohm > 1_000_000 {
        return Err("invalid gauge sense resistor");
    }
    let status: u16 = reader.word(0x00)?;
    let mut readings = Readings {
        status,
        soc: 0,
        cell: 0,
        temperature: 0,
        current: 0,
        charger: None,
    };
    if (status / 8) % 2 == 0 {
        if (status / 2) % 2 == 0 {
            readings.soc = reader.word(0x06)?;
        }
        readings.cell = reader.word(0x09)?;
        readings.temperature = reader.word(0x08)?;
        readings.current = reader.word(0x0b)?;
        // The charger is asked only once the current is known to be sane.
        current(readings.current, rsense_uohm)?;
        if charger {
            readings.charger = match reader.byte(0x08) {
                Ok(value) => Some(value),
                Err(_) => None,
            };
        }
    }
    battery(&readings, rsense_uohm)
}

/// Reads the gauge, and the charger where there is one. A failed read of the
/// gauge fails as it did; of the charger it leaves the charge state unknown.
pub fn gauge<R: Registers>(io: &R, rsense_uohm: u32, charger: bool) -> (r: Result<
    PowerSupplyState,
    &'static str,
>)
    ensures
        exists|log: Seq<Exchange>|
            answered(io, log) && #[trigger] gauged(log, rsense_uohm, charger, r),
{
    let mut reader = Reader::new(io);
    let r = gauge_on(&mut reader, rsense_uohm, charger);
    proof {
        use_type_invariant(&reader);
    }
    assert(gauged(reader.log(), rsense_uohm, charger, r));
    r
}

/// Microamperes that the charger draws at most, by its limit code.
pub open spec fn limit_spec(code: u8) -> u32 {
    match code {
        0 => 100_000,
        1 => 150_000,
        2 => 500_000,
        3 => 900_000,
        4 => 1_200_000,
        5 => 1_500_000,
        6 => 2_000_000,
        _ => 3_000_000,
    }
}

/// What the charger registers say of the input.
pub open spec fn input_spec(status: u8, limit: u8) -> PowerSupplyState {
    PowerSupplyState {
        online: Some(online_spec(status)),
        input_current_limit_ua: Some(limit_spec(limit % 8)),
        ..unknown()
    }
}

pub fn input_state(status: u8, limit: u8) -> (r: PowerSupplyState)
    ensures
        r == input_spec(status, limit),
{
    let microamperes: u32 = match limit % 8 {
        0 => 100_000,
        1 => 150_000,
        2 => 500_000,
        3 => 900_000,
        4 => 1_200_000,
        5 => 1_500_000,
        6 => 2_000_000,
        _ => 3_000_000,
    };
    let mut state = PowerSupplyState::default();
    state.online = Some(external_online(status));
    state.input_current_limit_ua = Some(microamperes);
    state
}

/// What is asked of the charger, and the answer that follows.
pub open spec fn input_read(log: Seq<Exchange>, r: Result<PowerSupplyState, &'static str>) -> bool {
    &&& 1 <= log.len()
    &&& log[0].asks(CHARGER_ADDRESS, 8)
    &&& if log[0].reply is Err {
        log.len() == 1 && r == Err::<PowerSupplyState, &'static str>(log[0].reply->Err_0)
    } else {
        &&& log.len() == 2
        &&& log[1].asks(CHARGER_ADDRESS, 0)
        &&& r == if log[1].reply is Err {
            Err::<PowerSupplyState, &'static str>(log[1].reply->Err_0)
        } else {
            Ok(input_spec(log[0].byte(), log[1].byte()))
        }
    }
}

/// Reads the state of the external input.
pub fn input_on<R: Registers>(reader: &mut Reader<'_, R>) -> (r: Result<
    PowerSupplyState,
    &'static str,
>)
    requires
        old(reader).log() == Seq::<Exchange>::empty(),
    ensures
        input_read(final(reader).log(), r),
        final(reader).port() == old(reader).port(),
{
    let status: u8 = reader.byte(0x08)?;
    let limit: u8 = reader.byte(0x00)?;
    Ok(input_state(status, limit))
}

/// Reads the input of the charger. A failed read fails as it did.
pub fn input<R: Registers>(io: &R) -> (r: Result<PowerSupplyState, &'static str>)
    ensures
        exists|log: Seq<Exchange>| answered(io, log) && #[trigger] input_read(log, r),
{
    let mut reader = Reader::new(io);
    let r = input_on(&mut reader);
    proof {
        use_type_invariant(&reader);
    }
    assert(input_read(reader.log(), r));
    r
}

/// Without a trustworthy model the capacity is unknown, and a missing battery has
/// no readings at all: neither shows as an empty battery.
pub proof fn unknown_is_never_zero(r: Readings, rsense_uohm: u32)
    requires
        battery_spec(r, rsense_uohm) is Ok,
    ensures
        absent(r.status) ==> battery_spec(r, rsense_uohm)->Ok_0 == (PowerSupplyState {
            present: Some(false),
            ..unknown()
        }),
        forgotten(r.status) ==> battery_spec(r, rsense_uohm)->Ok_0.capacity_permille is None,
        !absent(r.status) && !forgotten(r.status) ==> battery_spec(
            r,
            rsense_uohm,
        )->Ok_0.capacity_permille == Some(capacity_spec(r.soc)),
{
}

/// A charger that exports power is never an input, and never charges.
pub proof fn exported_power_is_no_input(status: u8, limit: u8, current_ua: i32)
    requires
        status as int / 64 == 3,
    ensures
        input_spec(status, limit).online == Some(false),
        charge_spec(status, current_ua) == ChargeState::Discharging,
{
}

/// A battery that is there is told in physical units: its charge in thousandths of a full
/// one, at 256 steps to the percent; its voltage in steps of 625 microvolts, at 78.125 to
/// the register's; its temperature at 256 steps to the degree; and its current as the
/// voltage over the sense resistor, at 1.5625 microvolts to the step. All are rounded
/// towards zero, and negative numbers are in two's complement.
pub proof fn readings_have_their_units(r: Readings, rsense_uohm: u32, state: PowerSupplyState)
    requires
        rsense_ok(rsense_uohm),
        battery_spec(r, rsense_uohm) == Ok::<PowerSupplyState, &'static str>(state),
        r.status as int / 8 % 2 == 0,
    ensures
        state.present == Some(true),
        r.status as int / 2 % 2 == 0 ==> (state.capacity_permille matches Some(c) && c <= 1000 && (c
            < 1000 ==> 256 * c <= 10 * r.soc < 256 * (c + 1)) && (c == 1000 ==> 256_000 <= 10
            * r.soc)),
        r.status as int / 2 % 2 == 1 ==> state.capacity_permille is None,
        state.voltage_uv matches Some(v) && v % 625 == 0 && 8 * v <= 625 * r.cell < 8 * v + 5000,
        state.temperature_mc matches Some(t) && {
            let raw = if r.temperature < 32768 {
                r.temperature as int
            } else {
                r.temperature - 65536
            };
            if raw >= 0 {
                256 * t <= 1000 * raw < 256 * (t + 1)
            } else {
                256 * (t - 1) < 1000 * raw <= 256 * t
            }
        },
        state.current_ua matches Some(c) && {
            let raw = if r.current < 32768 {
                r.current as int
            } else {
                r.current - 65536
            };
            if raw >= 0 {
                rsense_uohm * c <= 1_562_500 * raw < rsense_uohm * (c + 1)
            } else {
                rsense_uohm * (c - 1) < 1_562_500 * raw <= rsense_uohm * c
            }
        },
        state.online is None && state.input_current_limit_ua is None,
        state.charge_state is Some <==> r.charger is Some,
{
    let raw = signed(r.current) * 1_562_500;
    let d = rsense_uohm as int;
    if raw >= 0 {
        vstd::arithmetic::div_mod::lemma_fundamental_div_mod(raw, d);
        vstd::arithmetic::div_mod::lemma_mod_bound(raw, d);
        let q = raw / d;
        assert(d * (q + 1) == d * q + d) by (nonlinear_arith);
    } else {
        vstd::arithmetic::div_mod::lemma_fundamental_div_mod(-raw, d);
        vstd::arithmetic::div_mod::lemma_mod_bound(-raw, d);
        let q = (-raw) / d;
        assert(d * (-q - 1) == -(d * q) - d) by (nonlinear_arith);
        assert(d * (-q) == -(d * q)) by (nonlinear_arith);
    }
}

/// A battery that is not there has nothing to tell.
pub proof fn absent_batteries_tell_nothing(r: Readings, rsense_uohm: u32)
    requires
        r.status as int / 8 % 2 == 1,
    ensures
        battery_spec(r, rsense_uohm) matches Ok(s) && s.present == Some(false)
            && s.capacity_permille is None && s.voltage_uv is None && s.current_ua is None
            && s.temperature_mc is None && s.charge_state is None,
{
}

/// A battery charges where power comes in, none is exported, none flows out of it, and the
/// charger is in its first or second phase; behind its third phase it is full.
pub proof fn charging_takes_power_and_a_phase(status: u8, current_ua: i32)
    ensures
        ({
            let good = status as int / 4 % 2 == 1 && !(status >= 192);
            let phase = status as int / 16 % 4;
            let taken = good && current_ua >= 0;
            &&& online_spec(status) == good
            &&& charge_spec(status, current_ua) == ChargeState::Discharging <==> !taken
            &&& charge_spec(status, current_ua) == ChargeState::Charging <==> taken && (phase == 1
                || phase == 2)
            &&& charge_spec(status, current_ua) == ChargeState::Full <==> taken && phase == 3
            &&& charge_spec(status, current_ua) == ChargeState::NotCharging <==> taken && phase == 0
        }),
{
}

/// The input's limit is the one of the lower three bits of its register, in amperes a tenth,
/// 0.15, a half, 0.9, 1.2, 1.5, two and three.
pub proof fn input_limits_are_known(status: u8, limit: u8)
    ensures
        input_spec(status, limit).input_current_limit_ua == Some(
            (1000 * seq![100int, 150, 500, 900, 1200, 1500, 2000, 3000][limit as int % 8]) as u32,
        ),
        input_spec(status, limit).online == Some(status as int / 4 % 2 == 1 && status < 192),
        input_spec(status, limit).present is None,
{
}

/// Each quantity comes from its own register of the gauge: the charge from the sixth, the
/// voltage from the ninth, the temperature from the eighth, the current from the eleventh.
pub proof fn quantities_have_their_registers(
    log: Seq<Exchange>,
    rsense_uohm: u32,
    charger: bool,
    state: PowerSupplyState,
)
    requires
        gauged(log, rsense_uohm, charger, Ok(state)),
        state.present == Some(true),
    ensures
        exists|i: int|
            0 <= i < log.len() && (#[trigger] log[i]).address == 0x36 && log[i].register == 9
                && state.voltage_uv == Some((log[i].word() as int / 8 * 625) as u32),
        exists|i: int|
            0 <= i < log.len() && (#[trigger] log[i]).address == 0x36 && log[i].register == 8
                && state.temperature_mc == Some(
                rounding::truncated(signed(log[i].word()) * 1000, 256) as i32,
            ),
        exists|i: int|
            0 <= i < log.len() && (#[trigger] log[i]).address == 0x36 && log[i].register == 0xb
                && state.current_ua == Some(current_spec(log[i].word(), rsense_uohm) as i32),
        state.capacity_permille is Some ==> exists|i: int|
            0 <= i < log.len() && (#[trigger] log[i]).address == 0x36 && log[i].register == 6
                && state.capacity_permille == Some(capacity_spec(log[i].word())),
{
    let status = log[0].word();
    let registers = gauge_registers(status);
    let n = registers.len() as int;
    assert(!absent(status));
    assert(log[n - 2].asks(GAUGE_ADDRESS, registers[n - 3]));
    assert(log[n - 1].asks(GAUGE_ADDRESS, registers[n - 2]));
    assert(log[n].asks(GAUGE_ADDRESS, registers[n - 1]));
    assert(log[1].asks(GAUGE_ADDRESS, registers[0]));
}

} // verus!
