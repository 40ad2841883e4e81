//! Whether the board's source of randomness can be used as it is.
use vstd::prelude::*;

use crate::devicetree::{Node, NodeView};
use crate::mmio;
use crate::mmio::{Access, Bus, Registers};
use crate::soc::map::MC;

verus! {

/// What is wrong with the description, the first thing first.
pub open spec fn source_error(device: NodeView, size: Option<u64>) -> Option<&'static str> {
    if size is None {
        Some("unexpected SE resource")
    } else if size->0 < 0x808 {
        Some("truncated SE resource")
    } else if device.cell("clocks"@, 0) is None {
        Some("SE clock provider missing")
    } else if (device.cell("clocks"@, 1) != Some(127u32) && device.cell("clocks"@, 1) != Some(
        405u32,
    )) || device.cell("clocks"@, 2) != device.cell("clocks"@, 0) || device.cell("clocks"@, 3)
        != Some(149u32) {
        Some("unexpected SE/entropy clocks")
    } else {
        None
    }
}

/// Checks the description; who gives the clocks comes back.
pub fn check_source(device: &Node, size: Option<u64>) -> (r: Result<u32, &'static str>)
    ensures
        match r {
            Ok(provider) => source_error(device@, size) is None && device@.cell("clocks"@, 0)
                == Some(provider),
            Err(e) => source_error(device@, size) == Some(e),
        },
{
    match size {
        None => {
            return Err("unexpected SE resource");
        },
        Some(bytes) => {
            if bytes < 0x808 {
                return Err("truncated SE resource");
            }
        },
    }
    let provider: u32 = match device.cell("clocks", 0) {
        None => {
            return Err("SE clock provider missing");
        },
        Some(provider) => provider,
    };
    let clock: Option<u32> = device.cell("clocks", 1);
    let second: Option<u32> = device.cell("clocks", 2);
    let entropy: Option<u32> = device.cell("clocks", 3);
    if (clock != Some(127u32) && clock != Some(405u32)) || second != Some(provider) || entropy
        != Some(149u32) {
        return Err("unexpected SE/entropy clocks");
    }
    Ok(provider)
}

/// The addresses of the source are translated by tables that someone else left behind,
/// or nobody can tell.
pub open spec fn is_translated(log: Seq<Access>) -> bool {
    let control = mmio::last(log, (MC + 0x10) as usize);
    control == u32::MAX || (control & 1 != 0 && (mmio::last(log, (MC + 0xabc) as usize)
        | mmio::last(log, (MC + 0xac8) as usize)) & 0x8000_0000 != 0)
}

/// Checks that the source reaches memory by its physical addresses. Nothing is changed.
pub fn check_translation<R: Registers>(bus: &mut Bus<'_, R>) -> (r: Result<(), &'static str>)
    ensures
        final(bus).port() == old(bus).port(),
        mmio::quiet(old(bus).log(), final(bus).log()),
        r == if is_translated(final(bus).log()) {
            Err::<(), &'static str>("SE inherited SMMU translation is unsupported")
        } else {
            Ok(())
        },
{
    let control: u32 = bus.read(MC + 0x10);
    if control == u32::MAX {
        return Err("SE inherited SMMU translation is unsupported");
    }
    if control & 1 != 0 {
        let first: u32 = bus.read(MC + 0xabc);
        let second: u32 = bus.read(MC + 0xac8);
        if (first | second) & 0x8000_0000 != 0 {
            return Err("SE inherited SMMU translation is unsupported");
        }
    }
    Ok(())
}

/// Checks that the page of the source is where the source reaches.
pub fn check_page(physical: u64) -> (r: Result<u32, &'static str>)
    ensures
        r == if physical % 4096 == 0 && physical + 4096 <= 0x1_0000_0000 {
            Ok::<u32, &'static str>(physical as u32)
        } else {
            Err("SE DMA page is outside the 32-bit aperture")
        },
{
    if physical % 4096 != 0 || physical > 0xffff_f000 {
        return Err("SE DMA page is outside the 32-bit aperture");
    }
    Ok(physical as u32)
}

/// A source has its registers and two clocks of one provider, its own and the entropy's.
pub proof fn known_sources_are_taken(device: NodeView, size: Option<u64>)
    ensures
        source_error(device, size) is None <==> {
            &&& size matches Some(n) && n >= 0x808
            &&& device.cell("clocks"@, 0) is Some && device.cell("clocks"@, 2) == device.cell(
                "clocks"@,
                0,
            )
            &&& device.cell("clocks"@, 1) == Some(127u32) || device.cell("clocks"@, 1) == Some(405u32)
            &&& device.cell("clocks"@, 3) == Some(149u32)
        },
{
}

} // verus!
