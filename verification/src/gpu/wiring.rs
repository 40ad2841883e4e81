//! How the board connects the graphics processor: only the one arrangement that is
//! known is accepted.
use vstd::prelude::*;

use crate::devicetree;
use crate::devicetree::{cell_of, find_referred, read_children, read_node, read_nodes, region_covers,
    Node, NodeView};
use crate::gpu::firmware;

verus! {

/// Who gives the processor its clocks, and the bus of its regulator.
#[derive(Clone, Copy, Debug, PartialEq, Eq, Structural)]
pub struct GpuWiring {
    pub provider: u32,
    pub bus: Option<u32>,
}

pub open spec fn at_most(value: Option<u32>, limit: u32) -> bool {
    value matches Some(v) && v <= limit
}

pub open spec fn at_least(value: Option<u32>, limit: u32) -> bool {
    value matches Some(v) && v >= limit
}

pub open spec fn length_is(node: NodeView, name: Seq<char>, length: nat) -> bool {
    node.property(name) matches Some(p) && p.value.len() == length
}

pub open spec fn regulator_ok(node: NodeView) -> bool {
    &&& node.cell("reg"@, 0) == Some(0x1cu32)
    &&& node.is_compatible("maxim,max77621"@)
    &&& at_most(node.cell("regulator-min-microvolt"@, 0), 1_000_000)
    &&& at_least(node.cell("regulator-max-microvolt"@, 0), 1_000_000)
}

pub open spec fn is_pmic(n: NodeView) -> bool {
    n.enabled() && n.cell("reg"@, 0) == Some(0x3cu32) && n.is_compatible("maxim,max77620"@)
}

/// The chip that switches the regulator.
pub open spec fn pmic_of(children: Seq<NodeView>) -> Option<NodeView> {
    devicetree::first_of(children, |n: NodeView| is_pmic(n))
}

/// What is wrong with the pin that switches the regulator.
pub open spec fn pin_error(regulator: NodeView, pmic: NodeView) -> Option<&'static str> {
    match regulator.property("maxim,enable-gpio"@) {
        None => Some("missing GPU enable GPIO"),
        Some(gpio) => if gpio.value.len() != 12 {
            Some("GPU enable must use active-high MAX77620 GPIO6")
        } else if pmic.phandle() is None {
            Some("missing MAX77620 phandle")
        } else if devicetree::be32(gpio.value, 0) != pmic.phandle()->0 || devicetree::be32(
            gpio.value,
            4,
        ) != 6 || devicetree::be32(gpio.value, 8) != 0 {
            Some("GPU enable must use active-high MAX77620 GPIO6")
        } else {
            None
        },
    }
}

/// Three clocks and one reset, all of one provider.
pub open spec fn clocks_ok(device: NodeView, provider: u32) -> bool {
    &&& device.cell("resets"@, 1) == Some(184u32)
    &&& length_is(device, "resets"@, 8)
    &&& length_is(device, "clocks"@, 24)
    &&& device.cell("clocks"@, 0) == Some(provider)
    &&& device.cell("clocks"@, 1) == Some(184u32)
    &&& device.cell("clocks"@, 2) == Some(provider)
    &&& device.cell("clocks"@, 3) == Some(299u32)
    &&& device.cell("clocks"@, 4) == Some(provider)
    &&& device.cell("clocks"@, 5) == Some(189u32)
}

pub open spec fn memory_ok(device: NodeView, controller: NodeView) -> bool {
    &&& length_is(device, "iommus"@, 8)
    &&& device.cell("iommus"@, 1) == Some(31u32)
    &&& controller.is_compatible("nvidia,tegra210-mc"@) || controller.is_compatible(
        "nvidia,tegra210-smmu"@,
    )
}

/// What is wrong with an opening into the processor.
pub open spec fn aperture_error(
    size: Option<u64>,
    missing: &'static str,
    truncated: &'static str,
) -> Option<&'static str> {
    match size {
        None => Some(missing),
        Some(bytes) => if bytes < 0x0100_0000 {
            Some(truncated)
        } else {
            None
        },
    }
}

pub fn check_aperture(
    size: Option<u64>,
    missing: &'static str,
    truncated: &'static str,
) -> (r: Result<(), &'static str>)
    ensures
        match r {
            Ok(_) => aperture_error(size, missing, truncated) is None,
            Err(e) => aperture_error(size, missing, truncated) == Some(e),
        },
{
    match size {
        None => Err(missing),
        Some(bytes) => {
            if bytes < 0x0100_0000 {
                Err(truncated)
            } else {
                Ok(())
            }
        },
    }
}

/// What is wrong with the arrangement, the first thing first.
pub open spec fn supply_error(
    device: NodeView,
    i2c: Option<NodeView>,
    children: Seq<NodeView>,
) -> Option<&'static str> {
    if device.cell("vdd-supply"@, 0) is None {
        Some("missing GPU vdd-supply")
    } else if i2c is None || !i2c->0.enabled() {
        Some("missing GPU I2C5")
    } else {
        match devicetree::referred(children, device.cell("vdd-supply"@, 0)) {
            None => Some("GPU regulator is not on I2C5"),
            Some(regulator) => if !regulator_ok(regulator) {
                Some("unsupported GPU regulator wiring/voltage")
            } else {
                match pmic_of(children) {
                    None => Some("missing GPU-enable MAX77620"),
                    Some(pmic) => pin_error(regulator, pmic),
                }
            },
        }
    }
}

pub open spec fn device_error(device: NodeView, bar0: Option<u64>, nodes: Seq<NodeView>) -> Option<
    &'static str,
> {
    match device.cell("resets"@, 0) {
        None => Some("missing GPU reset provider"),
        Some(provider) => if !clocks_ok(device, provider) {
            Some("unsupported GM20B clock/reset wiring")
        } else {
            firmware::first(
                aperture_error(bar0, "missing GM20B BAR0", "truncated GM20B aperture"),
                match devicetree::referred(nodes, device.cell("iommus"@, 0)) {
                    None => Some("missing GPU MC resource"),
                    Some(controller) => if !memory_ok(device, controller) {
                        Some("unsupported GM20B MC client")
                    } else if controller.region is None {
                        Some("missing MC registers")
                    } else if !devicetree::covers(controller.region, 0x7001_9000, 0x1000) {
                        Some("unsupported GPU MC aperture")
                    } else {
                        None
                    },
                },
            )
        },
    }
}

fn find_pmic(children: &Vec<Node>) -> (r: Option<&Node>)
    ensures
        r is None <==> pmic_of(devicetree::views(children@)) is None,
        r matches Some(node) ==> pmic_of(devicetree::views(children@)) == Some(node@),
{
    let ghost all = devicetree::views(children@);
    let ghost rule = |n: NodeView| is_pmic(n);
    let mut i: usize = 0;
    proof {
        devicetree::lemma_search(all, 0, rule);
    }
    while i < children.len()
        invariant
            i <= children@.len(),
            all == devicetree::views(children@),
            rule == (|n: NodeView| is_pmic(n)),
            devicetree::first_of(all.skip(i as int), rule) == devicetree::first_of(all, rule),
        decreases children@.len() - i,
    {
        proof {
            devicetree::lemma_search(all, i as int, rule);
        }
        let address: Option<u32> = children[i].cell("reg", 0);
        if children[i].enabled() && address == Some(0x3cu32) && children[i].is_compatible(
            "maxim,max77620",
        ) {
            return Some(&children[i]);
        }
        i = i + 1;
    }
    proof {
        devicetree::lemma_search(all, i as int, rule);
    }
    None
}

fn has_length(node: &Node, name: &str, length: usize) -> (r: bool)
    ensures
        r == length_is(node@, name@, length as nat),
{
    match node.property(name) {
        None => false,
        Some(p) => p.value.len() == length,
    }
}

fn check_pin(regulator: &Node, pmic: &Node) -> (r: Result<(), &'static str>)
    ensures
        match r {
            Ok(_) => pin_error(regulator@, pmic@) is None,
            Err(e) => pin_error(regulator@, pmic@) == Some(e),
        },
{
    match regulator.property("maxim,enable-gpio") {
        None => Err("missing GPU enable GPIO"),
        Some(gpio) => {
            if gpio.value.len() != 12 {
                return Err("GPU enable must use active-high MAX77620 GPIO6");
            }
            let phandle: u32 = match pmic.phandle() {
                None => {
                    return Err("missing MAX77620 phandle");
                },
                Some(phandle) => phandle,
            };
            let first: Option<u32> = cell_of(&gpio.value, 0);
            let second: Option<u32> = cell_of(&gpio.value, 1);
            let third: Option<u32> = cell_of(&gpio.value, 2);
            if first != Some(phandle) || second != Some(6u32) || third != Some(0u32) {
                return Err("GPU enable must use active-high MAX77620 GPIO6");
            }
            Ok(())
        },
    }
}

fn check_supply(device: &Node, i2c: &Option<Node>, children: &Vec<Node>) -> (r: Result<
    (),
    &'static str,
>)
    ensures
        match r {
            Ok(_) => supply_error(
                device@,
                crate::cpu::policy::view_of(*i2c),
                devicetree::views(children@),
            ) is None,
            Err(e) => supply_error(
                device@,
                crate::cpu::policy::view_of(*i2c),
                devicetree::views(children@),
            ) == Some(e),
        },
{
    let supply: Option<u32> = device.cell("vdd-supply", 0);
    if supply.is_none() {
        return Err("missing GPU vdd-supply");
    }
    match i2c {
        None => {
            return Err("missing GPU I2C5");
        },
        Some(node) => {
            if !node.enabled() {
                return Err("missing GPU I2C5");
            }
        },
    }
    let regulator = match find_referred(children, supply) {
        None => {
            return Err("GPU regulator is not on I2C5");
        },
        Some(node) => node,
    };
    let address: Option<u32> = regulator.cell("reg", 0);
    let low: bool = match regulator.cell("regulator-min-microvolt", 0) {
        None => false,
        Some(uv) => uv <= 1_000_000,
    };
    let high: bool = match regulator.cell("regulator-max-microvolt", 0) {
        None => false,
        Some(uv) => uv >= 1_000_000,
    };
    if address != Some(0x1cu32) || !regulator.is_compatible("maxim,max77621") || !low || !high {
        return Err("unsupported GPU regulator wiring/voltage");
    }
    match find_pmic(children) {
        None => Err("missing GPU-enable MAX77620"),
        Some(pmic) => check_pin(regulator, pmic),
    }
}

fn check_clocks(device: &Node, provider: u32) -> (r: bool)
    ensures
        r == clocks_ok(device@, provider),
{
    let reset: Option<u32> = device.cell("resets", 1);
    let a: Option<u32> = device.cell("clocks", 0);
    let b: Option<u32> = device.cell("clocks", 1);
    let c: Option<u32> = device.cell("clocks", 2);
    let d: Option<u32> = device.cell("clocks", 3);
    let e: Option<u32> = device.cell("clocks", 4);
    let f: Option<u32> = device.cell("clocks", 5);
    reset == Some(184u32) && has_length(device, "resets", 8) && has_length(device, "clocks", 24)
        && a == Some(provider) && b == Some(184u32) && c == Some(provider) && d == Some(299u32) && e
        == Some(provider) && f == Some(189u32)
}

fn check_device(device: &Node, bar0: Option<u64>, nodes: &Vec<Node>) -> (r: Result<
    (),
    &'static str,
>)
    ensures
        match r {
            Ok(_) => device_error(device@, bar0, devicetree::views(nodes@)) is None,
            Err(e) => device_error(device@, bar0, devicetree::views(nodes@)) == Some(e),
        },
{
    let provider: u32 = match device.cell("resets", 0) {
        None => {
            return Err("missing GPU reset provider");
        },
        Some(provider) => provider,
    };
    if !check_clocks(device, provider) {
        return Err("unsupported GM20B clock/reset wiring");
    }
    check_aperture(bar0, "missing GM20B BAR0", "truncated GM20B aperture")?;
    let controller = match find_referred(nodes, device.cell("iommus", 0)) {
        None => {
            return Err("missing GPU MC resource");
        },
        Some(node) => node,
    };
    let client: Option<u32> = device.cell("iommus", 1);
    let known: bool = controller.is_compatible("nvidia,tegra210-mc") || controller.is_compatible(
        "nvidia,tegra210-smmu",
    );
    if !has_length(device, "iommus", 8) || client != Some(31u32) || !known {
        return Err("unsupported GM20B MC client");
    }
    match controller.region {
        None => Err("missing MC registers"),
        Some(region) => {
            if !region_covers(region, 0x7001_9000, 0x1000) {
                Err("unsupported GPU MC aperture")
            } else {
                Ok(())
            }
        },
    }
}

/// Checks the arrangement, from nodes that were read.
pub fn wiring_of(
    device: &Node,
    bar0: Option<u64>,
    i2c: &Option<Node>,
    children: &Vec<Node>,
    nodes: &Vec<Node>,
) -> (r: Result<GpuWiring, &'static str>)
    ensures
        match r {
            Ok(wiring) => {
                &&& supply_error(
                    device@,
                    crate::cpu::policy::view_of(*i2c),
                    devicetree::views(children@),
                ) is None
                &&& device_error(device@, bar0, devicetree::views(nodes@)) is None
                &&& device@.cell("resets"@, 0) == Some(wiring.provider)
                &&& i2c matches Some(node) && wiring.bus == node@.phandle()
            },
            Err(e) => firmware::first(
                supply_error(
                    device@,
                    crate::cpu::policy::view_of(*i2c),
                    devicetree::views(children@),
                ),
                device_error(device@, bar0, devicetree::views(nodes@)),
            ) == Some(e),
        },
{
    check_supply(device, i2c, children)?;
    check_device(device, bar0, nodes)?;
    let bus: Option<u32> = match i2c {
        None => None,
        Some(node) => node.phandle(),
    };
    match device.cell("resets", 0) {
        None => Err("missing GPU reset provider"),
        Some(provider) => Ok(GpuWiring { provider, bus }),
    }
}

/// Checks the arrangement that the board describes.
pub fn wiring(blob: &[u8], device: &Node, bar0: Option<u64>) -> (r: Result<
    GpuWiring,
    &'static str,
>)
    requires
        devicetree::well_formed(blob@),
    ensures
        ({
            let i2c = devicetree::tree_node(blob@, "/i2c@7000d000"@);
            let error = firmware::first(
                supply_error(
                    device@,
                    i2c,
                    devicetree::tree_children(blob@, "/i2c@7000d000"@),
                ),
                device_error(device@, bar0, devicetree::tree_nodes(blob@)),
            );
            match r {
                Ok(wiring) => error is None && device@.cell("resets"@, 0) == Some(wiring.provider)
                    && wiring.bus == i2c->0.phandle(),
                Err(e) => error == Some(e),
            }
        }),
{
    proof {
        reveal_strlit("/i2c@7000d000");
    }
    let i2c = read_node(blob, "/i2c@7000d000");
    let children = read_children(blob, "/i2c@7000d000");
    let nodes = read_nodes(blob);
    wiring_of(device, bar0, &i2c, &children, &nodes)
}

/// The processor's regulator is at 0x1c, is of its kind and gives one volt; the chip whose
/// pin enables it is at 0x3c and used.
pub proof fn known_regulators_are_taken(node: NodeView)
    ensures
        regulator_ok(node) <==> {
            &&& node.cell("reg"@, 0) == Some(0x1cu32)
            &&& node.is_compatible("maxim,max77621"@)
            &&& node.cell("regulator-min-microvolt"@, 0) matches Some(uv) && uv <= 1_000_000
            &&& node.cell("regulator-max-microvolt"@, 0) matches Some(uv) && 1_000_000 <= uv
        },
        is_pmic(node) <==> node.enabled() && node.cell("reg"@, 0) == Some(0x3cu32)
            && node.is_compatible("maxim,max77620"@),
{
}

/// The pin that enables the regulator is the sixth of that chip, active high: three cells,
/// the highest byte first.
pub proof fn the_sixth_pin_enables(regulator: NodeView, pmic: NodeView)
    requires
        pin_error(regulator, pmic) is None,
    ensures
        regulator.property("maxim,enable-gpio"@) matches Some(p) && p.value.len() == 12 && p.value[4]
            == 0 && p.value[5] == 0 && p.value[6] == 0 && p.value[7] == 6 && p.value[8] == 0
            && p.value[9] == 0 && p.value[10] == 0 && p.value[11] == 0 && pmic.phandle() == Some(
            (0x100_0000 * p.value[0] + 0x1_0000 * p.value[1] + 0x100 * p.value[2] + p.value[3]) as u32,
        ),
{
}

/// The processor has one reset and three clocks, all of one provider, by their numbers.
pub proof fn processors_have_their_clocks(device: NodeView, provider: u32)
    requires
        clocks_ok(device, provider),
    ensures
        device.cell("resets"@, 1) == Some(184u32),
        device.property("resets"@) matches Some(p) && p.value.len() == 8,
        device.property("clocks"@) matches Some(p) && p.value.len() == 24,
        device.cell("clocks"@, 0) == Some(provider) && device.cell("clocks"@, 1) == Some(184u32),
        device.cell("clocks"@, 2) == Some(provider) && device.cell("clocks"@, 3) == Some(299u32),
        device.cell("clocks"@, 4) == Some(provider) && device.cell("clocks"@, 5) == Some(189u32),
{
}

/// The processor is client 31 of the memory controller, and its apertures have sixteen
/// mebibytes.
pub proof fn processors_reach_their_memory(
    device: NodeView,
    controller: NodeView,
    size: Option<u64>,
    missing: &'static str,
    truncated: &'static str,
)
    ensures
        memory_ok(device, controller) ==> device.cell("iommus"@, 1) == Some(31u32) && (
        controller.is_compatible("nvidia,tegra210-mc"@) || controller.is_compatible(
            "nvidia,tegra210-smmu"@,
        )),
        aperture_error(size, missing, truncated) is None <==> (size matches Some(n) && n
            >= 0x100_0000),
        size is None ==> aperture_error(size, missing, truncated) == Some(missing),
{
}

/// The memory controller of the processor has its registers where they are known to be.
pub proof fn memory_controllers_are_where_they_are(
    device: NodeView,
    bar0: Option<u64>,
    nodes: Seq<NodeView>,
)
    requires
        device_error(device, bar0, nodes) is None,
    ensures
        bar0 matches Some(n) && n >= 0x100_0000,
        device.cell("resets"@, 0) matches Some(p) && clocks_ok(device, p),
        devicetree::referred(nodes, device.cell("iommus"@, 0)) matches Some(c) && memory_ok(device, c)
            && (c.region matches Some((start, Some(size))) && start == 0x7001_9000 && size >= 0x1000),
{
}

} // verus!
