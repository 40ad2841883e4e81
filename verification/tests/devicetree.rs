use switch_drivers::cpu::policy;
use switch_drivers::devicetree::{
    cell_of, check, check_fuses, find_matching, find_referred, region_covers, Node, Property,
};
use switch_drivers::gpu::{clock, wiring};
use switch_drivers::soc::{soctherm, thermal};

/// A property of a node to be written: its name and its bytes.
type Field = (&'static str, Vec<u8>);

struct Branch {
    name: &'static str,
    fields: Vec<Field>,
    children: Vec<Branch>,
}

fn cells(values: &[u32]) -> Vec<u8> {
    let mut bytes = Vec::new();
    for value in values {
        bytes.extend_from_slice(&value.to_be_bytes());
    }
    bytes
}

fn text(value: &str) -> Vec<u8> {
    let mut bytes = value.as_bytes().to_vec();
    bytes.push(0);
    bytes
}

fn branch(name: &'static str, fields: Vec<Field>, children: Vec<Branch>) -> Branch {
    Branch { name, fields, children }
}

fn pad(bytes: &mut Vec<u8>) {
    while bytes.len() % 4 != 0 {
        bytes.push(0);
    }
}

fn write_branch(b: &Branch, body: &mut Vec<u8>, names: &mut Vec<u8>) {
    body.extend_from_slice(&1u32.to_be_bytes());
    body.extend_from_slice(&text(b.name));
    pad(body);
    for (name, value) in &b.fields {
        body.extend_from_slice(&3u32.to_be_bytes());
        body.extend_from_slice(&(value.len() as u32).to_be_bytes());
        body.extend_from_slice(&(names.len() as u32).to_be_bytes());
        names.extend_from_slice(&text(name));
        body.extend_from_slice(value);
        pad(body);
    }
    for child in &b.children {
        write_branch(child, body, names);
    }
    body.extend_from_slice(&2u32.to_be_bytes());
}

fn blob(root: &Branch) -> Vec<u8> {
    let mut body = Vec::new();
    let mut names = Vec::new();
    write_branch(root, &mut body, &mut names);
    body.extend_from_slice(&9u32.to_be_bytes());
    let total = 56 + body.len() + names.len();
    let mut bytes = cells(&[
        0xd00d_feed,
        total as u32,
        56,
        56 + body.len() as u32,
        40,
        17,
        16,
        0,
        names.len() as u32,
        body.len() as u32,
    ]);
    bytes.extend_from_slice(&[0; 16]);
    bytes.extend_from_slice(&body);
    bytes.extend_from_slice(&names);
    bytes
}

/// The board, with an efuse at some size.
fn board(fuse_size: u32) -> Vec<u8> {
    let regulators = vec![
        branch(
            "cpu-regulator@1b",
            vec![
                ("reg", cells(&[0x1b])),
                ("compatible", text("maxim,max77621")),
                ("phandle", cells(&[0x61])),
                ("regulator-min-microvolt", cells(&[900_000])),
                ("regulator-max-microvolt", cells(&[1_200_000])),
            ],
            vec![],
        ),
        branch(
            "gpu-regulator@1c",
            vec![
                ("reg", cells(&[0x1c])),
                ("compatible", text("maxim,max77621")),
                ("phandle", cells(&[0x62])),
                ("regulator-min-microvolt", cells(&[606_250])),
                ("regulator-max-microvolt", cells(&[1_320_000])),
                ("maxim,enable-gpio", cells(&[0x63, 6, 0])),
            ],
            vec![],
        ),
        branch(
            "pmic@3c",
            vec![
                ("reg", cells(&[0x3c])),
                ("compatible", text("maxim,max77620")),
                ("phandle", cells(&[0x63])),
            ],
            vec![],
        ),
    ];
    let mut bus = vec![
        ("#address-cells", cells(&[1])),
        ("#size-cells", cells(&[0])),
        ("reg", cells(&[0, 0x7000_d000, 0, 0x100])),
        ("phandle", cells(&[0x60])),
    ];
    bus.push(("status", text("okay")));
    blob(&branch(
        "",
        vec![("#address-cells", cells(&[2])), ("#size-cells", cells(&[2]))],
        vec![
            branch(
                "cpus",
                vec![("#address-cells", cells(&[1])), ("#size-cells", cells(&[0]))],
                vec![branch(
                    "cpu@0",
                    vec![("reg", cells(&[0])), ("clocks", cells(&[0x21, 13]))],
                    vec![],
                )],
            ),
            branch("i2c@7000d000", bus, regulators),
            branch(
                "clock@70110000",
                vec![
                    ("compatible", text("nvidia,tegra210-dfll")),
                    ("reg", cells(&[0, 0x7011_0000, 0, 0x100])),
                    ("vdd-cpu-supply", cells(&[0x61])),
                ],
                vec![],
            ),
            branch(
                "efuse@7000f800",
                vec![
                    ("compatible", text("nvidia,tegra210-efuse")),
                    ("reg", cells(&[0, 0x7000_f800, 0, fuse_size])),
                ],
                vec![],
            ),
            branch(
                "memory-controller@70019000",
                vec![
                    ("compatible", text("nvidia,tegra210-mc")),
                    ("reg", cells(&[0, 0x7001_9000, 0, 0x1000])),
                    ("phandle", cells(&[0x30])),
                ],
                vec![],
            ),
            branch(
                "pwm@7000a000",
                vec![
                    ("compatible", text("nvidia,tegra20-pwm")),
                    ("reg", cells(&[0, 0x7000_a000, 0, 0x100])),
                    ("clocks", cells(&[0x21, 17])),
                    ("resets", cells(&[0x21, 17])),
                    ("phandle", cells(&[0x70])),
                ],
                vec![],
            ),
            branch(
                "gpio@6000d000",
                vec![
                    ("reg", cells(&[0, 0x6000_d000, 0, 0x1000])),
                    ("phandle", cells(&[0x71])),
                ],
                vec![],
            ),
            branch(
                "fan-supply",
                vec![
                    ("regulator-name", text("v_vdd50_a")),
                    ("gpio", cells(&[0x71, 5, 0])),
                    ("phandle", cells(&[0x72])),
                ],
                vec![],
            ),
            branch(
                "fan-data",
                vec![
                    ("pwm_id", cells(&[1])),
                    ("pwm_period", cells(&[0x8235])),
                    ("pwm_polarity", cells(&[1])),
                    ("pwm_gpio", cells(&[0x71, 172, 1])),
                    ("phandle", cells(&[0x73])),
                ],
                vec![],
            ),
            branch(
                "sensor-supply",
                vec![
                    ("regulator-name", text("vdd-1v8")),
                    ("regulator-always-on", vec![]),
                    ("phandle", cells(&[0x74])),
                ],
                vec![],
            ),
            branch(
                "cpufreq",
                vec![("phandle", cells(&[0x80]))],
                vec![branch(
                    "cpu-scaling-data",
                    vec![
                        ("freq-table", cells(&[204_000, 612_000, 1_020_000, 1_224_000])),
                        ("max-frequency", cells(&[1_785_000])),
                    ],
                    vec![],
                )],
            ),
        ],
    ))
}

fn node(fields: Vec<Field>) -> Node {
    let mut properties = Vec::new();
    for (name, value) in fields {
        let spelled = match value.split_last() {
            Some((0, rest)) => String::from_utf8(rest.to_vec()).ok(),
            _ => None,
        };
        properties.push(Property { name: name.into(), value, text: spelled });
    }
    Node { name: "device".into(), compatible: None, region: None, properties }
}

fn with_text(mut n: Node, compatible: &str) -> Node {
    n.compatible = Some(vec![compatible.into()]);
    n
}

fn gpu() -> Node {
    node(vec![
        ("vdd-supply", cells(&[0x62])),
        ("resets", cells(&[0x21, 184])),
        ("clocks", cells(&[0x21, 184, 0x21, 299, 0x21, 189])),
        ("iommus", cells(&[0x30, 31])),
    ])
}

#[test]
fn only_whole_trees_are_well_formed() {
    let whole = board(0x400);
    assert!(check(&whole));
    assert!(!check(&whole[..39]));
    let mut other = whole.clone();
    other[0] = 0;
    assert!(!check(&other));
    let mut cut = whole.clone();
    cut[39] -= 4;
    assert!(!check(&cut));
    let mut nameless = whole.clone();
    nameless[35] = 1;
    nameless[34] = 0;
    assert!(!check(&nameless));
}

#[test]
fn cells_are_read_in_order() {
    let value = cells(&[1, 0x8235]);
    assert_eq!(cell_of(&value, 0), Some(1));
    assert_eq!(cell_of(&value, 1), Some(0x8235));
    assert_eq!(cell_of(&value, 2), None);
    assert_eq!(cell_of(&value[..7].to_vec(), 1), None);
}

#[test]
fn nodes_are_asked_by_name() {
    let n = with_text(
        node(vec![
            ("status", text("okay")),
            ("phandle", cells(&[7])),
            ("regulator-name", text("vdd-1v8")),
        ]),
        "maxim,max77620",
    );
    assert!(n.enabled());
    assert_eq!(n.phandle(), Some(7));
    assert!(n.text_is("regulator-name", "vdd-1v8"));
    assert!(!n.text_is("regulator-name", "vdd"));
    assert!(n.is_compatible("maxim,max77620"));
    assert!(!n.is_compatible("maxim,max77621"));
    assert!(n.property("reg").is_none());
    let off = node(vec![("status", text("disabled"))]);
    assert!(!off.enabled());
    assert!(node(vec![]).enabled());
}

#[test]
fn nodes_are_found_by_handle_and_kind() {
    let nodes = vec![
        with_text(node(vec![("phandle", cells(&[1])), ("status", text("disabled"))]), "a"),
        with_text(node(vec![("phandle", cells(&[2]))]), "a"),
    ];
    assert_eq!(find_referred(&nodes, Some(2)).unwrap().phandle(), Some(2));
    assert!(find_referred(&nodes, Some(3)).is_none());
    assert_eq!(find_matching(&nodes, "a", true).unwrap().phandle(), Some(2));
    assert_eq!(find_matching(&nodes, "a", false).unwrap().phandle(), Some(1));
    assert!(find_matching(&nodes, "b", false).is_none());
}

#[test]
fn regions_cover_what_they_hold() {
    assert!(region_covers((0x1000, Some(0x100)), 0x1000, 0x100));
    assert!(!region_covers((0x1000, Some(0xff)), 0x1000, 0x100));
    assert!(!region_covers((0x1000, None), 0x1000, 0x100));
}

#[test]
fn the_clock_provider_comes_from_the_first_processor() {
    assert_eq!(policy::clock_provider(&board(0x400)), Ok(0x21));
    let empty = blob(&branch("", vec![], vec![]));
    assert_eq!(policy::clock_provider(&empty), Err("missing CPU clock wiring"));
    assert_eq!(
        policy::provider_of(&Some(node(vec![]))),
        Err("missing CPU clock provider")
    );
}

#[test]
fn the_regulator_comes_from_its_bus() {
    let found = policy::regulator(&board(0x400)).unwrap();
    assert_eq!(found.bus, 0x60);
    assert_eq!(found.min_uv, 900_000);
    assert_eq!(found.max_uv, 1_200_000);
    let empty = blob(&branch("", vec![], vec![]));
    assert_eq!(policy::regulator(&empty).err(), Some("missing CPU regulator I2C5"));
}

#[test]
fn the_ladder_comes_from_its_policy() {
    let found = policy::ladder(&board(0x400), 0x80).unwrap();
    assert_eq!(found.max_khz, 1_020_000);
    assert_eq!(found.table, cells(&[204_000, 612_000, 1_020_000, 1_224_000]));
    assert_eq!(policy::ladder(&board(0x400), 0x81).err(), Some("unexpected CPU policy node"));
}

#[test]
fn fuses_have_to_be_where_they_are() {
    assert_eq!(policy::fuses(&board(0x400)), Ok(()));
    assert_eq!(clock::fuses(&board(0x400)), Ok(()));
    assert_eq!(clock::fuses(&board(0x100)), Err("unsupported GPU speedo fuse resource"));
    let empty = blob(&branch("", vec![], vec![]));
    assert_eq!(clock::fuses(&empty), Err("missing GPU speedo fuse resource"));
    let bare = with_text(node(vec![]), "nvidia,tegra210-efuse");
    assert_eq!(
        check_fuses(&vec![bare], true, "missing", "no registers", "unsupported"),
        Err("no registers")
    );
}

#[test]
fn the_graphics_processor_is_wired_as_known() {
    let found = wiring::wiring(&board(0x400), &gpu(), Some(0x0100_0000)).unwrap();
    assert_eq!(found.provider, 0x21);
    assert_eq!(found.bus, Some(0x60));
    assert_eq!(
        wiring::wiring(&board(0x400), &gpu(), Some(0xff_ffff)).err(),
        Some("truncated GM20B aperture")
    );
    assert_eq!(
        wiring::wiring(&board(0x400), &node(vec![]), Some(0x0100_0000)).err(),
        Some("missing GPU vdd-supply")
    );
    let mut other = gpu();
    other.properties[0].value = cells(&[0x61]);
    assert_eq!(
        wiring::wiring(&board(0x400), &other, Some(0x0100_0000)).err(),
        Some("unsupported GPU regulator wiring/voltage")
    );
    assert_eq!(wiring::check_aperture(None, "missing", "short"), Err("missing"));
    assert_eq!(wiring::check_aperture(Some(1), "missing", "short"), Err("short"));
}

#[test]
fn the_fan_is_wired_as_known() {
    let device = node(vec![
        ("pwms", cells(&[0x70, 1, 0x8235])),
        ("vdd-fan-supply", cells(&[0x72])),
        ("shared_data", cells(&[0x73])),
    ]);
    assert_eq!(thermal::fan_wiring(&board(0x400), &device), Ok((0x21, 0x71)));
    let mut loose = node(vec![]);
    assert_eq!(
        thermal::fan_wiring(&board(0x400), &loose),
        Err("unsupported ODIN fan PWM wiring")
    );
    loose = node(vec![("pwms", cells(&[0x70, 1, 0x8235])), ("vdd-fan-supply", cells(&[0x99]))]);
    assert_eq!(
        thermal::fan_wiring(&board(0x400), &loose),
        Err("missing ODIN fan 5-V supply")
    );
    // Without a reference the first node without a handle is meant: the root.
    loose = node(vec![("pwms", cells(&[0x70, 1, 0x8235]))]);
    assert_eq!(thermal::fan_wiring(&board(0x400), &loose), Err("missing fan supply GPIO"));
    let empty = blob(&branch("", vec![], vec![]));
    assert_eq!(thermal::fan_wiring(&empty, &device), Err("missing Tegra PWM provider"));
}

#[test]
fn the_sensor_chip_is_wired_as_known() {
    let device = node(vec![
        ("reg", cells(&[0x4c])),
        ("extended-rage", cells(&[1])),
        ("vdd-supply", cells(&[0x74])),
    ]);
    assert_eq!(thermal::check_sensor(&board(0x400), &device), Ok(()));
    let empty = blob(&branch("", vec![], vec![]));
    assert_eq!(thermal::check_sensor(&empty, &device), Err("missing TMP451 supply"));
    let settings = node(vec![
        ("loc-shutdown-limit", cells(&[110])),
        ("ext-shutdown-limit", cells(&[105])),
        ("conv-rate", cells(&[6])),
    ]);
    assert_eq!(thermal::settings(&settings), Ok((110, 105, 6)));
    assert_eq!(thermal::settings(&node(vec![])), Err("missing local TMP451 limit"));
    assert_eq!(thermal::check_transport(1, 100_000).is_ok(), true);
}

#[test]
fn the_sensors_are_wired_as_known() {
    let device = node(vec![
        ("clocks", cells(&[0x21, 100, 0x21, 78])),
        ("resets", cells(&[0x21, 78])),
    ]);
    assert_eq!(soctherm::check_wiring(&board(0x400), &device, Some(0x1000)), Ok(0x21));
    assert_eq!(
        soctherm::check_wiring(&board(0x100), &device, Some(0x1000)),
        Err("unsupported SOCTHERM fuse resource")
    );
    assert_eq!(
        soctherm::check_wiring(&board(0x400), &device, Some(0x5ff)),
        Err("SOCTHERM MMIO resource truncated")
    );
    let empty = blob(&branch("", vec![], vec![]));
    assert_eq!(
        soctherm::check_wiring(&empty, &device, Some(0x1000)),
        Err("SOCTHERM fuse resource missing")
    );
}

fn nested(depth: usize) -> Branch {
    let mut inner = branch("leaf", vec![("compatible", text("nvidia,tegra210-efuse"))], vec![]);
    for _ in 2..depth {
        inner = branch("level", vec![], vec![inner]);
    }
    branch("", vec![], vec![inner])
}

#[test]
fn trees_may_be_as_deep_as_they_can_be_read() {
    let whole = blob(&nested(63));
    assert!(check(&whole));
    assert_eq!(clock::fuses(&whole), clock::fuses(&blob(&nested(2))));
    assert_ne!(clock::fuses(&whole), Err("missing GPU speedo fuse resource"));
    assert!(!check(&blob(&nested(64))));
}

#[test]
fn names_are_any_text() {
    let whole = blob(&branch(
        "",
        vec![("#sound", vec![1]), ("gr\u{f6}\u{df}e", cells(&[7]))],
        vec![branch("a/b", vec![("compatible", text("nvidia,tegra210-efuse"))], vec![])],
    ));
    assert!(check(&whole));
    assert_ne!(clock::fuses(&whole), Err("missing GPU speedo fuse resource"));
    assert_eq!(policy::clock_provider(&whole), Err("missing CPU clock wiring"));
    for name in ["#address-cells", "#size-cells"] {
        assert!(!check(&blob(&branch("", vec![(name, vec![1])], vec![]))));
        assert!(check(&blob(&branch("", vec![(name, cells(&[1]))], vec![]))));
    }
    assert!(!check(&blob(&branch("", vec![("/x", text("/x"))], vec![]))));
    let mut broken = blob(&branch("caf\u{e9}", vec![], vec![]));
    assert!(check(&broken));
    broken[56 + 4 + 4] = b'x';
    assert!(!check(&broken));
}

#[test]
fn fillers_stand_before_the_end_of_a_node() {
    let plain = blob(&branch("", vec![("compatible", text("nvidia,tegra210-efuse"))], vec![]));
    let end = plain.iter().rposition(|b| *b == 9).unwrap() - 7;
    let mut filled = plain[..end].to_vec();
    filled.extend_from_slice(&4u32.to_be_bytes());
    filled.extend_from_slice(&plain[end..]);
    for at in [4, 12, 36] {
        let value = u32::from_be_bytes([filled[at], filled[at + 1], filled[at + 2], filled[at + 3]]);
        filled[at..at + 4].copy_from_slice(&(value + 4).to_be_bytes());
    }
    assert!(check(&filled));
    assert_ne!(clock::fuses(&filled), Err("missing GPU speedo fuse resource"));
    assert_eq!(clock::fuses(&filled), clock::fuses(&plain));
}
