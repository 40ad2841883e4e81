//! Whether the board has the gauge that is known, and the charger beside it.
use vstd::prelude::*;

use crate::devicetree::{Node, NodeView};
use crate::power::telemetry;
use crate::power::telemetry::{Exchange, Reader, Registers, CHARGER_ADDRESS, GAUGE_ADDRESS};

verus! {

/// What is wrong with the description of the gauge.
pub open spec fn gauge_error(device: NodeView, bus: u32) -> Option<&'static str> {
    if device.cell("reg"@, 0) != Some(0x36u32) {
        Some("unexpected Switch fuel gauge address")
    } else if bus != 1 {
        Some("unsupported Switch power bus")
    } else {
        match device.cell("maxim,rsns-microohm"@, 0) {
            None => Some("missing gauge sense resistor"),
            Some(resistor) => if !(100 <= resistor <= 1_000_000) {
                Some("invalid gauge sense resistor")
            } else {
                None
            },
        }
    }
}

/// Checks the description of the gauge; its resistor comes back, in microohms.
pub fn check_gauge(device: &Node, bus: u32) -> (r: Result<u32, &'static str>)
    ensures
        match r {
            Ok(resistor) => gauge_error(device@, bus) is None && device@.cell(
                "maxim,rsns-microohm"@,
                0,
            ) == Some(resistor) && 100 <= resistor <= 1_000_000,
            Err(e) => gauge_error(device@, bus) == Some(e),
        },
{
    let address: Option<u32> = device.cell("reg", 0);
    if address != Some(0x36u32) {
        return Err("unexpected Switch fuel gauge address");
    }
    if bus != 1 {
        return Err("unsupported Switch power bus");
    }
    match device.cell("maxim,rsns-microohm", 0) {
        None => Err("missing gauge sense resistor"),
        Some(resistor) => {
            if resistor < 100 || resistor > 1_000_000 {
                Err("invalid gauge sense resistor")
            } else {
                Ok(resistor)
            }
        },
    }
}

/// What the numbers of both chips say: whether the charger is there, if the gauge is the
/// known one.
pub open spec fn identity_spec(gauge: u16, charger: Option<u8>) -> Result<bool, &'static str> {
    if gauge != 0x00ac {
        Err("unsupported MAX17050 device ID")
    } else {
        Ok(charger == Some(0x2fu8))
    }
}

pub fn identity(gauge: u16, charger: Option<u8>) -> (r: Result<bool, &'static str>)
    ensures
        r == identity_spec(gauge, charger),
{
    if gauge != 0x00ac {
        return Err("unsupported MAX17050 device ID");
    }
    match charger {
        Some(id) => Ok(id == 0x2f),
        None => Ok(false),
    }
}

/// What is asked of both chips, and the answer that follows. The charger is asked only
/// beside the known gauge, and need not answer.
pub open spec fn identified(log: Seq<Exchange>, r: Result<bool, &'static str>) -> bool {
    &&& 1 <= log.len()
    &&& log[0].asks(GAUGE_ADDRESS, 0x21)
    &&& if log[0].reply is Err {
        log.len() == 1 && r == Err::<bool, &'static str>(log[0].reply->Err_0)
    } else if log[0].word() != 0x00ac {
        log.len() == 1 && r == identity_spec(log[0].word(), None)
    } else {
        &&& log.len() == 2
        &&& log[1].asks(CHARGER_ADDRESS, 0x0a)
        &&& r == identity_spec(
            0x00ac,
            if log[1].reply is Ok {
                Some(log[1].byte())
            } else {
                None
            },
        )
    }
}

pub fn identify_on<R: Registers>(reader: &mut Reader<'_, R>) -> (r: Result<bool, &'static str>)
    requires
        old(reader).log() == Seq::<Exchange>::empty(),
    ensures
        identified(final(reader).log(), r),
        final(reader).port() == old(reader).port(),
{
    let gauge: u16 = reader.word(0x21)?;
    if gauge != 0x00ac {
        return identity(gauge, None);
    }
    let charger: Option<u8> = match reader.byte(0x0a) {
        Ok(id) => Some(id),
        Err(_) => None,
    };
    identity(gauge, charger)
}

/// Reads the numbers of both chips. A charger that does not answer is not there.
pub fn identify<R: Registers>(io: &R) -> (r: Result<bool, &'static str>)
    ensures
        exists|log: Seq<Exchange>| telemetry::answered(io, log) && #[trigger] identified(log, r),
{
    let mut reader = Reader::new(io);
    let r = identify_on(&mut reader);
    proof {
        use_type_invariant(&reader);
    }
    assert(identified(reader.log(), r));
    r
}

/// A gauge is at 0x36 on the first bus and has a sense resistor of a tenth of a milliohm to an
/// ohm; it is known by its number, and so is the charger beside it.
pub proof fn known_gauges_are_taken(device: NodeView, bus: u32, gauge: u16, charger: Option<u8>)
    ensures
        gauge_error(device, bus) is None <==> {
            &&& device.cell("reg"@, 0) == Some(0x36u32)
            &&& bus == 1
            &&& device.cell("maxim,rsns-microohm"@, 0) matches Some(r) && 100 <= r && r <= 1_000_000
        },
        identity_spec(gauge, charger) is Ok <==> gauge == 0xac,
        identity_spec(gauge, charger) matches Ok(there) ==> (there <==> charger == Some(0x2fu8)),
{
}

/// The gauge is asked for its number first, and only a known gauge's charger is asked for its
/// own.
pub proof fn chips_are_asked_for_their_numbers(log: Seq<Exchange>, r: Result<bool, &'static str>)
    requires
        identified(log, r),
        r is Ok,
    ensures
        log.len() == 2,
        log[0].asks(0x36, 0x21) && log[0].word() == 0xac,
        log[1].asks(0x6b, 0x0a),
        r == Ok::<bool, &'static str>(true) <==> log[1].reply is Ok && log[1].byte() == 0x2f,
{
}

} // verus!
