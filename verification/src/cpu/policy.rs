//! Which operating points the board allows, from its description.
use vstd::prelude::*;

use crate::cpu::clock;
use crate::cpu::clock::pll_rate;
use crate::cpu::voltage;
use crate::cpu::voltage::{required_voltage, OperatingPoint, MAX_KHZ, ODN_MAX_UV, VOLTAGE_BASE_UV};
use crate::devicetree;
use crate::devicetree::{
    cell_of, check_fuses, find_matching, find_referred, is, read_children, read_node, read_nodes,
    Node, NodeView,
};

verus! {

/// The provider of the cluster's clocks.
pub open spec fn provider_spec(cpu: Option<NodeView>) -> Result<u32, &'static str> {
    match cpu {
        None => Err("missing CPU clock wiring"),
        Some(node) => match node.cell("clocks"@, 0) {
            None => Err("missing CPU clock provider"),
            Some(provider) => Ok(provider),
        },
    }
}

pub open spec fn view_of(node: Option<Node>) -> Option<NodeView> {
    match node {
        None => None,
        Some(node) => Some(node@),
    }
}

pub fn provider_of(cpu: &Option<Node>) -> (r: Result<u32, &'static str>)
    ensures
        r == provider_spec(view_of(*cpu)),
{
    match cpu {
        None => Err("missing CPU clock wiring"),
        Some(node) => match node.cell("clocks", 0) {
            None => Err("missing CPU clock provider"),
            Some(provider) => Ok(provider),
        },
    }
}

pub fn clock_provider(blob: &[u8]) -> (r: Result<u32, &'static str>)
    requires
        devicetree::well_formed(blob@),
    ensures
        r == provider_spec(devicetree::tree_node(blob@, "/cpus/cpu@0"@)),
{
    proof {
        reveal_strlit("/cpus/cpu@0");
    }
    let node = read_node(blob, "/cpus/cpu@0");
    provider_of(&node)
}

/// The regulator of the cluster: its bus, and its limits.
#[derive(Clone, Copy, Debug, PartialEq, Eq, Structural)]
pub struct Regulator {
    pub bus: u32,
    pub min_uv: u32,
    pub max_uv: u32,
}

pub open spec fn or_else(value: Option<u32>, default: u32) -> u32 {
    match value {
        None => default,
        Some(value) => value,
    }
}

pub open spec fn regulator_spec(
    i2c: Option<NodeView>,
    children: Seq<NodeView>,
    nodes: Seq<NodeView>,
) -> Result<Regulator, &'static str> {
    if i2c is None || !i2c->0.enabled() {
        Err("missing CPU regulator I2C5")
    } else {
        match devicetree::matching(nodes, "nvidia,tegra210-dfll"@, true) {
            None => Err("missing CPU regulator supply binding"),
            Some(dfll) => match dfll.cell("vdd-cpu-supply"@, 0) {
                None => Err("missing CPU supply phandle"),
                Some(supply) => match devicetree::referred(children, Some(supply)) {
                    None => Err("CPU supply does not use I2C5"),
                    Some(pmic) => if pmic.cell("reg"@, 0) != Some(0x1bu32) || !pmic.is_compatible(
                        "maxim,max77621"@,
                    ) {
                        Err("unsupported CPU regulator")
                    } else {
                        match i2c->0.phandle() {
                            None => Err("missing I2C5 phandle"),
                            Some(bus) => Ok(
                                Regulator {
                                    bus,
                                    min_uv: or_else(
                                        pmic.cell("regulator-min-microvolt"@, 0),
                                        VOLTAGE_BASE_UV,
                                    ),
                                    max_uv: or_else(
                                        pmic.cell("regulator-max-microvolt"@, 0),
                                        ODN_MAX_UV,
                                    ),
                                },
                            ),
                        }
                    },
                },
            },
        }
    }
}

fn cell_or(node: &Node, name: &str, default: u32) -> (r: u32)
    ensures
        r == or_else(node@.cell(name@, 0), default),
{
    match node.cell(name, 0) {
        None => default,
        Some(value) => value,
    }
}

pub fn regulator_of(i2c: &Option<Node>, children: &Vec<Node>, nodes: &Vec<Node>) -> (r: Result<
    Regulator,
    &'static str,
>)
    ensures
        r == regulator_spec(
            view_of(*i2c),
            devicetree::views(children@),
            devicetree::views(nodes@),
        ),
{
    let i2c = match i2c {
        None => {
            return Err("missing CPU regulator I2C5");
        },
        Some(node) => node,
    };
    if !i2c.enabled() {
        return Err("missing CPU regulator I2C5");
    }
    let dfll = match find_matching(nodes, "nvidia,tegra210-dfll", true) {
        None => {
            return Err("missing CPU regulator supply binding");
        },
        Some(node) => node,
    };
    let supply: u32 = match dfll.cell("vdd-cpu-supply", 0) {
        None => {
            return Err("missing CPU supply phandle");
        },
        Some(supply) => supply,
    };
    let pmic = match find_referred(children, Some(supply)) {
        None => {
            return Err("CPU supply does not use I2C5");
        },
        Some(node) => node,
    };
    let address: Option<u32> = pmic.cell("reg", 0);
    if address != Some(0x1bu32) || !pmic.is_compatible("maxim,max77621") {
        return Err("unsupported CPU regulator");
    }
    match i2c.phandle() {
        None => Err("missing I2C5 phandle"),
        Some(bus) => Ok(
            Regulator {
                bus,
                min_uv: cell_or(pmic, "regulator-min-microvolt", VOLTAGE_BASE_UV),
                max_uv: cell_or(pmic, "regulator-max-microvolt", ODN_MAX_UV),
            },
        ),
    }
}

pub fn regulator(blob: &[u8]) -> (r: Result<Regulator, &'static str>)
    requires
        devicetree::well_formed(blob@),
    ensures
        r == regulator_spec(
            devicetree::tree_node(blob@, "/i2c@7000d000"@),
            devicetree::tree_children(blob@, "/i2c@7000d000"@),
            devicetree::tree_nodes(blob@),
        ),
{
    proof {
        reveal_strlit("/i2c@7000d000");
    }
    let i2c = read_node(blob, "/i2c@7000d000");
    let children = read_children(blob, "/i2c@7000d000");
    let nodes = read_nodes(blob);
    regulator_of(&i2c, &children, &nodes)
}

/// Whether the fuses are where they must be.
pub fn fuses(blob: &[u8]) -> (r: Result<(), &'static str>)
    requires
        devicetree::well_formed(blob@),
    ensures
        match r {
            Ok(_) => devicetree::fuse_error(
                devicetree::tree_nodes(blob@),
                true,
                "missing Erista fuse resource",
                "missing fuse registers",
                "unsupported fuse resource",
            ) is None,
            Err(e) => devicetree::fuse_error(
                devicetree::tree_nodes(blob@),
                true,
                "missing Erista fuse resource",
                "missing fuse registers",
                "unsupported fuse resource",
            ) == Some(e),
        },
{
    let nodes = read_nodes(blob);
    check_fuses(
        &nodes,
        true,
        "missing Erista fuse resource",
        "missing fuse registers",
        "unsupported fuse resource",
    )
}

/// The rates that the board asks for, and the fastest that it allows.
#[derive(Debug)]
pub struct Ladder {
    pub table: Vec<u8>,
    pub max_khz: u64,
}

pub open spec fn scaling_node(children: Seq<NodeView>) -> Option<NodeView> {
    devicetree::first_of(
        children,
        |n: NodeView| n.name == "cpu-scaling-data"@ && n.enabled(),
    )
}

pub open spec fn ladder_shape(
    policy: Option<NodeView>,
    children: Seq<NodeView>,
    domain: u32,
) -> Option<&'static str> {
    if policy is None {
        Some("missing CPU frequency table")
    } else if policy->0.phandle() != Some(domain) {
        Some("unexpected CPU policy node")
    } else {
        match scaling_node(children) {
            None => Some("missing CPU scaling data"),
            Some(scaling) => match scaling.property("freq-table"@) {
                None => Some("missing CPU frequency ladder"),
                Some(table) => if table.value.len() % 4 != 0 {
                    Some("truncated CPU frequency ladder")
                } else {
                    None
                },
            },
        }
    }
}

pub open spec fn allowed_khz(scaling: NodeView) -> u64 {
    let asked = or_else(scaling.cell("max-frequency"@, 0), MAX_KHZ as u32);
    if asked < MAX_KHZ {
        asked as u64
    } else {
        MAX_KHZ
    }
}

fn find_scaling(children: &Vec<Node>) -> (r: Option<&Node>)
    ensures
        r is None <==> scaling_node(devicetree::views(children@)) is None,
        r matches Some(node) ==> scaling_node(devicetree::views(children@)) == Some(node@),
{
    let ghost all = devicetree::views(children@);
    let ghost rule = |n: NodeView| n.name == "cpu-scaling-data"@ && n.enabled();
    let mut i: usize = 0;
    proof {
        devicetree::lemma_search(all, 0, rule);
    }
    while i < children.len()
        invariant
            i <= children@.len(),
            all == devicetree::views(children@),
            rule == (|n: NodeView| n.name == "cpu-scaling-data"@ && n.enabled()),
            devicetree::first_of(all.skip(i as int), rule) == devicetree::first_of(all, rule),
        decreases children@.len() - i,
    {
        proof {
            devicetree::lemma_search(all, i as int, rule);
        }
        if is(&children[i].name, "cpu-scaling-data") && children[i].enabled() {
            return Some(&children[i]);
        }
        i = i + 1;
    }
    proof {
        devicetree::lemma_search(all, i as int, rule);
    }
    None
}

fn duplicate(bytes: &Vec<u8>) -> (r: Vec<u8>)
    ensures
        r@ == bytes@,
{
    let mut r: Vec<u8> = Vec::new();
    let mut i: usize = 0;
    while i < bytes.len()
        invariant
            i <= bytes@.len(),
            r@ =~= bytes@.take(i as int),
        decreases bytes@.len() - i,
    {
        r.push(bytes[i]);
        i = i + 1;
    }
    r
}

pub fn ladder_of(policy: &Option<Node>, children: &Vec<Node>, domain: u32) -> (r: Result<
    Ladder,
    &'static str,
>)
    ensures
        match r {
            Err(e) => ladder_shape(view_of(*policy), devicetree::views(children@), domain) == Some(
                e,
            ),
            Ok(ladder) => {
                let scaling = scaling_node(devicetree::views(children@))->0;
                &&& ladder_shape(view_of(*policy), devicetree::views(children@), domain) is None
                &&& ladder.table@ == scaling.property("freq-table"@)->0.value
                &&& ladder.max_khz == allowed_khz(scaling)
            },
        },
{
    match policy {
        None => {
            return Err("missing CPU frequency table");
        },
        Some(node) => {
            let own: Option<u32> = node.phandle();
            if own != Some(domain) {
                return Err("unexpected CPU policy node");
            }
        },
    }
    let scaling = match find_scaling(children) {
        None => {
            return Err("missing CPU scaling data");
        },
        Some(node) => node,
    };
    let table = match scaling.property("freq-table") {
        None => {
            return Err("missing CPU frequency ladder");
        },
        Some(property) => property,
    };
    if table.value.len() % 4 != 0 {
        return Err("truncated CPU frequency ladder");
    }
    let asked: u32 = cell_or(scaling, "max-frequency", MAX_KHZ as u32);
    let max_khz: u64 = if (asked as u64) < MAX_KHZ {
        asked as u64
    } else {
        MAX_KHZ
    };
    Ok(Ladder { table: duplicate(&table.value), max_khz })
}

pub fn ladder(blob: &[u8], domain: u32) -> (r: Result<Ladder, &'static str>)
    requires
        devicetree::well_formed(blob@),
    ensures
        match r {
            Err(e) => ladder_shape(
                devicetree::tree_node(blob@, "/cpufreq"@),
                devicetree::tree_children(blob@, "/cpufreq"@),
                domain,
            ) == Some(e),
            Ok(ladder) => {
                let scaling = scaling_node(devicetree::tree_children(blob@, "/cpufreq"@))->0;
                &&& ladder_shape(
                    devicetree::tree_node(blob@, "/cpufreq"@),
                    devicetree::tree_children(blob@, "/cpufreq"@),
                    domain,
                ) is None
                &&& ladder.table@ == scaling.property("freq-table"@)->0.value
                &&& ladder.max_khz == allowed_khz(scaling)
            },
        },
{
    proof {
        reveal_strlit("/cpufreq");
    }
    let policy = read_node(blob, "/cpufreq");
    let children = read_children(blob, "/cpufreq");
    ladder_of(&policy, &children, domain)
}

/// The rate that an entry asks for.
pub open spec fn asked_khz(table: Seq<u8>, k: int) -> u64 {
    devicetree::be32(table, 4 * k) as u64
}

/// What operating points are made from.
#[derive(Clone, Copy, Debug)]
pub struct Limits {
    pub max_khz: u64,
    pub reference_hz: u64,
    pub speedo: u32,
    pub min_uv: u32,
    pub max_uv: u32,
}

/// Entries beyond the limit, and rates that the PLL cannot make, are left out.
pub open spec fn usable(table: Seq<u8>, limits: Limits, k: int) -> bool {
    &&& 0 < asked_khz(table, k) <= limits.max_khz
    &&& clock::pll_spec(limits.reference_hz, asked_khz(table, k)) is Some
}

pub open spec fn entry_error(table: Seq<u8>, limits: Limits, k: int) -> Option<&'static str> {
    if !usable(table, limits, k) {
        None
    } else {
        match voltage::required_spec(asked_khz(table, k), limits.speedo) {
            Err(e) => Some(e),
            Ok(uv) => if uv < limits.min_uv || uv > limits.max_uv {
                Some("CPU CVB voltage outside regulator limits")
            } else {
                None
            },
        }
    }
}

/// The first entry that is wrong.
pub open spec fn table_error(table: Seq<u8>, limits: Limits, k: int) -> Option<&'static str>
    decreases table.len() - k,
{
    if 4 * k + 4 > table.len() || k < 0 {
        None
    } else if entry_error(table, limits, k) is Some {
        entry_error(table, limits, k)
    } else {
        table_error(table, limits, k + 1)
    }
}

pub open spec fn point(table: Seq<u8>, limits: Limits, k: int) -> OperatingPoint {
    OperatingPoint {
        clock: clock::pll_spec(limits.reference_hz, asked_khz(table, k))->0,
        voltage_uv: voltage::required_spec(asked_khz(table, k), limits.speedo)->Ok_0,
    }
}

/// The rates of the first entries.
pub open spec fn rates(table: Seq<u8>, limits: Limits, count: int) -> Set<u64>
    decreases count,
{
    if count <= 0 {
        Set::empty()
    } else if usable(table, limits, count - 1) {
        rates(table, limits, count - 1).insert(point(table, limits, count - 1).clock.freq_khz)
    } else {
        rates(table, limits, count - 1)
    }
}

pub open spec fn freqs(points: Seq<OperatingPoint>) -> Seq<u64> {
    Seq::new(points.len(), |i: int| points[i].clock.freq_khz)
}

/// In order, each rate once.
pub open spec fn ascending(points: Seq<OperatingPoint>) -> bool {
    forall|i: int, j: int|
        0 <= i < j < points.len() ==> points[i].clock.freq_khz < points[j].clock.freq_khz
}

/// A point that comes from one of the first entries.
pub open spec fn from_entry(table: Seq<u8>, limits: Limits, p: OperatingPoint, count: int) -> bool {
    exists|k: int|
        0 <= k < count && usable(table, limits, k) && p == #[trigger] point(table, limits, k)
}

pub open spec fn drawn(
    table: Seq<u8>,
    limits: Limits,
    points: Seq<OperatingPoint>,
    count: int,
) -> bool {
    forall|j: int|
        0 <= j < points.len() ==> from_entry(table, limits, #[trigger] points[j], count)
}

proof fn lemma_distinct(points: Seq<OperatingPoint>)
    requires
        ascending(points),
    ensures
        freqs(points).to_set().len() == points.len(),
{
    assert(freqs(points).no_duplicates());
    freqs(points).unique_seq_to_set();
}

/// Puts a point where it belongs, unless its rate is there already.
fn insert_point(points: &mut Vec<OperatingPoint>, new: OperatingPoint)
    requires
        ascending(old(points)@),
    ensures
        ascending(final(points)@),
        freqs(final(points)@).to_set() == freqs(old(points)@).to_set().insert(new.clock.freq_khz),
        forall|j: int|
            0 <= j < final(points)@.len() ==> #[trigger] final(points)@[j] == new || exists|i: int|
                0 <= i < old(points)@.len() && #[trigger] old(points)@[i] == final(points)@[j],
{
    let mut at: usize = 0;
    while at < points.len() && points[at].clock.freq_khz < new.clock.freq_khz
        invariant
            at <= points@.len(),
            points@ == old(points)@,
            forall|i: int| 0 <= i < at ==> #[trigger] points@[i].clock.freq_khz
                < new.clock.freq_khz,
        decreases points@.len() - at,
    {
        at = at + 1;
    }
    let ghost before = points@;
    if at < points.len() && points[at].clock.freq_khz == new.clock.freq_khz {
        proof {
            assert(freqs(before)[at as int] == new.clock.freq_khz);
            assert(freqs(before).to_set().contains(new.clock.freq_khz));
            assert(freqs(before).to_set() =~= freqs(before).to_set().insert(new.clock.freq_khz));
        }
        return ;
    }
    points.insert(at, new);
    proof {
        let after = points@;
        assert(after =~= before.insert(at as int, new));
        assert forall|i: int, j: int| 0 <= i < j < after.len() implies after[i].clock.freq_khz
            < after[j].clock.freq_khz by {
            if at < before.len() {
                assert(new.clock.freq_khz < before[at as int].clock.freq_khz);
            }
        }
        let all = freqs(after).to_set();
        let wanted = freqs(before).to_set().insert(new.clock.freq_khz);
        assert forall|f: u64| all.contains(f) <==> wanted.contains(f) by {
            if all.contains(f) {
                let i = choose|i: int| 0 <= i < freqs(after).len() && freqs(after)[i] == f;
                if i < at {
                    assert(freqs(before)[i] == f);
                } else if i > at {
                    assert(freqs(before)[i - 1] == f);
                }
            }
            if wanted.contains(f) {
                if f == new.clock.freq_khz {
                    assert(freqs(after)[at as int] == f);
                } else {
                    let i = choose|i: int| 0 <= i < freqs(before).len() && freqs(before)[i] == f;
                    if i < at {
                        assert(freqs(after)[i] == f);
                    } else {
                        assert(freqs(after)[i + 1] == f);
                    }
                }
            }
        }
        assert(all =~= wanted);
        assert forall|j: int| 0 <= j < after.len() implies #[trigger] after[j] == new || exists|
            i: int,
        |
            0 <= i < before.len() && #[trigger] before[i] == after[j] by {
            if j < at {
                assert(before[j] == after[j]);
            } else if j > at {
                assert(before[j - 1] == after[j]);
            }
        }
    }
}

/// The operating points of a board, the slowest first.
pub fn operating_points(table: &Vec<u8>, limits: &Limits, most: usize) -> (r: Result<
    Vec<OperatingPoint>,
    &'static str,
>)
    requires
        limits.speedo <= 4000,
        table@.len() % 4 == 0,
        table@.len() <= u32::MAX,
    ensures
        match r {
            Ok(points) => {
                let all = rates(table@, *limits, table@.len() as int / 4);
                &&& table_error(table@, *limits, 0) is None
                &&& ascending(points@)
                &&& freqs(points@).to_set() == all
                &&& drawn(table@, *limits, points@, table@.len() as int / 4)
                &&& points@.len() == all.len()
                &&& 0 < all.len() <= most
            },
            Err(e) => {
                let all = rates(table@, *limits, table@.len() as int / 4);
                ||| table_error(table@, *limits, 0) == Some(e)
                ||| table_error(table@, *limits, 0) is None && e
                    == "invalid CPU operating points" && !(0 < all.len() <= most)
            },
        },
{
    let count: usize = table.len() / 4;
    let mut points: Vec<OperatingPoint> = Vec::new();
    let mut k: usize = 0;
    assert(freqs(points@).to_set() =~= Set::<u64>::empty());
    while k < count
        invariant
            k <= count,
            count == table@.len() / 4,
            table@.len() <= u32::MAX,
            limits.speedo <= 4000,
            table_error(table@, *limits, 0) == table_error(table@, *limits, k as int),
            ascending(points@),
            freqs(points@).to_set() == rates(table@, *limits, k as int),
            drawn(table@, *limits, points@, k as int),
        decreases count - k,
    {
        let asked: u64 = match cell_of(table, k) {
            None => 0,
            Some(value) => value as u64,
        };
        let ghost before = points@;
        if asked != 0 && asked <= limits.max_khz {
            if let Some(rate) = pll_rate(limits.reference_hz, asked) {
                let uv: u32 = required_voltage(asked, limits.speedo)?;
                if uv < limits.min_uv || uv > limits.max_uv {
                    return Err("CPU CVB voltage outside regulator limits");
                }
                let new = OperatingPoint { clock: rate, voltage_uv: uv };
                assert(new == point(table@, *limits, k as int));
                insert_point(&mut points, new);
            }
        }
        proof {
            assert forall|j: int| 0 <= j < points@.len() implies from_entry(
                table@,
                *limits,
                #[trigger] points@[j],
                k + 1,
            ) by {
                if usable(table@, *limits, k as int) && points@[j] == point(
                    table@,
                    *limits,
                    k as int,
                ) {
                } else {
                    assert(exists|i: int| 0 <= i < before.len() && before[i] == points@[j]) by {
                        assert(points@ == before ==> before[j] == points@[j]);
                    }
                    let i = choose|i: int| 0 <= i < before.len() && before[i] == points@[j];
                    assert(from_entry(table@, *limits, before[i], k as int));
                }
            }
        }
        k = k + 1;
    }
    proof {
        lemma_distinct(points@);
    }
    if points.len() == 0 || points.len() > most {
        return Err("invalid CPU operating points");
    }
    Ok(points)
}

/// A policy is only for processors that are assigned to it.
pub fn check_assigned(domains: &Vec<Option<u32>>, domain: u32) -> (r: Result<(), &'static str>)
    ensures
        r == if domains@.contains(Some(domain)) {
            Ok::<(), &'static str>(())
        } else {
            Err::<(), &'static str>("no CPUs assigned to Tegra frequency policy")
        },
{
    let mut i: usize = 0;
    while i < domains.len()
        invariant
            i <= domains@.len(),
            forall|j: int| 0 <= j < i ==> domains@[j] != Some(domain),
        decreases domains@.len() - i,
    {
        if domains[i] == Some(domain) {
            assert(domains@[i as int] == Some(domain));
            return Ok(());
        }
        i = i + 1;
    }
    Err("no CPUs assigned to Tegra frequency policy")
}

/// What is reported of the cluster.
#[derive(Clone, Copy, Debug, PartialEq, Eq)]
pub struct Snapshot {
    pub current_pstate: Option<u32>,
    pub target_pstate: u32,
    pub current_freq_khz: Option<u64>,
    pub target_freq_khz: u64,
    pub max_freq_khz: u64,
}

/// The state of a rate, if it is one of the points.
pub open spec fn pstate_of(points: Seq<OperatingPoint>, khz: Option<u64>) -> Option<u32> {
    if exists|i: int| 0 <= i < points.len() && Some(#[trigger] points[i].clock.freq_khz) == khz {
        Some(
            (choose|i: int|
                0 <= i < points.len() && Some(#[trigger] points[i].clock.freq_khz) == khz) as u32,
        )
    } else {
        None
    }
}

pub fn snapshot(points: &Vec<OperatingPoint>, target: usize, current: Option<u64>) -> (r: Option<
    Snapshot,
>)
    requires
        ascending(points@),
        points@.len() <= u32::MAX,
    ensures
        r == if target < points@.len() {
            Some(
                Snapshot {
                    current_pstate: pstate_of(points@, current),
                    target_pstate: target as u32,
                    current_freq_khz: current,
                    target_freq_khz: points@[target as int].clock.freq_khz,
                    max_freq_khz: points@.last().clock.freq_khz,
                },
            )
        } else {
            None
        },
{
    if target >= points.len() {
        return None;
    }
    let mut current_pstate: Option<u32> = None;
    let mut i: usize = 0;
    while i < points.len() && current_pstate.is_none()
        invariant
            i <= points@.len(),
            points@.len() <= u32::MAX,
            ascending(points@),
            current_pstate is None ==> forall|j: int|
                0 <= j < i ==> Some(#[trigger] points@[j].clock.freq_khz) != current,
            current_pstate is Some ==> current_pstate == pstate_of(points@, current),
        decreases points@.len() - i,
    {
        if current == Some(points[i].clock.freq_khz) {
            current_pstate = Some(i as u32);
            proof {
                let j = choose|j: int|
                    0 <= j < points@.len() && Some(#[trigger] points@[j].clock.freq_khz) == current;
                assert(Some(points@[i as int].clock.freq_khz) == current);
                assert(j == i);
            }
        }
        i = i + 1;
    }
    Some(
        Snapshot {
            current_pstate,
            target_pstate: target as u32,
            current_freq_khz: current,
            target_freq_khz: points[target].clock.freq_khz,
            max_freq_khz: points[points.len() - 1].clock.freq_khz,
        },
    )
}

/// No operating point is faster than the board allows.
pub proof fn points_respect_the_limit(
    table: Seq<u8>,
    limits: Limits,
    points: Seq<OperatingPoint>,
    count: int,
    j: int,
)
    requires
        drawn(table, limits, points, count),
        table_error(table, limits, 0) is None,
        0 <= count,
        4 * count <= table.len(),
        0 <= j < points.len(),
    ensures
        points[j].clock.freq_khz <= limits.max_khz,
        limits.min_uv <= points[j].voltage_uv <= limits.max_uv,
{
    assert(from_entry(table, limits, points[j], count));
    let k = choose|k: int|
        0 <= k < count && usable(table, limits, k) && points[j] == #[trigger] point(
            table,
            limits,
            k,
        );
    clock::rates_are_never_exceeded(limits.reference_hz, asked_khz(table, k));
    lemma_no_error(table, limits, 0, k);
}

proof fn lemma_no_error(table: Seq<u8>, limits: Limits, from: int, k: int)
    requires
        table_error(table, limits, from) is None,
        0 <= from <= k,
        4 * k + 4 <= table.len(),
    ensures
        entry_error(table, limits, k) is None,
    decreases k - from,
{
    if from < k {
        lemma_no_error(table, limits, from + 1, k);
    }
}

/// A rate is asked for in four bytes, the highest first; it is used if it is not above the
/// limit and the clock can be set for it. The limit is 1020 MHz or less.
pub proof fn rates_are_asked_for_in_bytes(table: Seq<u8>, limits: Limits, scaling: NodeView, k: int)
    ensures
        asked_khz(table, k) == 0x100_0000 * table[4 * k] + 0x1_0000 * table[4 * k + 1] + 0x100
            * table[4 * k + 2] + table[4 * k + 3],
        usable(table, limits, k) ==> 1 <= asked_khz(table, k) <= limits.max_khz,
        allowed_khz(scaling) <= 1_020_000,
        scaling.cell("max-frequency"@, 0) is None ==> allowed_khz(scaling) == 1_020_000,
        scaling.cell("max-frequency"@, 0) matches Some(asked) ==> (asked <= 1_020_000
            ==> allowed_khz(scaling) == asked),
{
}

/// A point has the voltage of its rate, inside what the regulator gives.
pub proof fn points_have_their_voltage(table: Seq<u8>, limits: Limits, k: int)
    requires
        usable(table, limits, k),
        entry_error(table, limits, k) is None,
    ensures
        voltage::required_spec(asked_khz(table, k), limits.speedo) == Ok::<u32, &'static str>(
            point(table, limits, k).voltage_uv,
        ),
        limits.min_uv <= point(table, limits, k).voltage_uv <= limits.max_uv,
        Some(point(table, limits, k).clock) == clock::pll_spec(
            limits.reference_hz,
            asked_khz(table, k),
        ),
{
}

/// The processor's regulator is at 0x1b on the fifth bus, and its limits are those of its
/// description, or else 606.25 millivolts and 1.257 volts.
pub proof fn regulators_have_limits(
    i2c: Option<NodeView>,
    children: Seq<NodeView>,
    nodes: Seq<NodeView>,
    regulator: Regulator,
)
    requires
        regulator_spec(i2c, children, nodes) == Ok::<Regulator, &'static str>(regulator),
    ensures
        i2c matches Some(bus) && bus.enabled() && bus.phandle() == Some(regulator.bus),
        exists|pmic: NodeView|
            {
                &&& #[trigger] pmic.cell("reg"@, 0) == Some(0x1bu32)
                &&& pmic.is_compatible("maxim,max77621"@)
                &&& regulator.min_uv == match pmic.cell("regulator-min-microvolt"@, 0) {
                    Some(uv) => uv,
                    None => 606_250,
                }
                &&& regulator.max_uv == match pmic.cell("regulator-max-microvolt"@, 0) {
                    Some(uv) => uv,
                    None => 1_257_000,
                }
            },
{
    let dfll = devicetree::matching(nodes, "nvidia,tegra210-dfll"@, true)->0;
    let pmic = devicetree::referred(children, dfll.cell("vdd-cpu-supply"@, 0))->0;
    assert(pmic.cell("reg"@, 0) == Some(0x1bu32));
}

} // verus!
