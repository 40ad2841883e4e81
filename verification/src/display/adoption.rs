//! Taking the display over from the firmware: only the one mode that the firmware is
//! known to leave is taken over.
use vstd::prelude::*;

use crate::display::scanout;
use crate::display::scanout::{registers, Original, ACT_CONTROL, EVENTS, HEADER, INT_ENABLE,
    INT_MASK, KIND, PRIORITY, PRIORITY_TIMER, REQUEST, STATE_ACCESS, STATE_CONTROL, UNDERFLOW_A,
    UNDERFLOW_B, WINDOW_A, WINDOW_B, WIN_ENABLE};
use crate::mmio;
use crate::mmio::{Access, Bus, Timed};

verus! {

pub const DISPLAY_COMMAND: usize = 0x32;

pub const ACTIVE_SIZE: usize = 0x409;

/// Where the firmware's frame is.
pub const BOOT_FRAME: u32 = 0xf5a0_0000;

/// What is wrong with the surroundings of the controller: its clock, its reset, and
/// the two domains of its memory accesses.
pub open spec fn surroundings_error(clocks: u32, resets: u32, domain: u32, domain1: u32) -> Option<
    &'static str,
> {
    if clocks / 0x0800_0000 % 2 == 0 || resets / 0x0800_0000 % 2 == 1 {
        Some("inherited Tegra DC clock/reset is not active")
    } else if domain == u32::MAX || domain1 == u32::MAX {
        Some("DC SMMU domain registers are unreadable")
    } else if domain >= 0x8000_0000 || domain1 >= 0x8000_0000 {
        Some("DC0 is attached to an inherited SMMU domain")
    } else {
        None
    }
}

pub fn check_surroundings(clocks: u32, resets: u32, domain: u32, domain1: u32) -> (r: Result<
    (),
    &'static str,
>)
    ensures
        match r {
            Ok(_) => surroundings_error(clocks, resets, domain, domain1) is None,
            Err(e) => surroundings_error(clocks, resets, domain, domain1) == Some(e),
        },
{
    if clocks / 0x0800_0000 % 2 == 0 || resets / 0x0800_0000 % 2 == 1 {
        return Err("inherited Tegra DC clock/reset is not active");
    }
    if domain == u32::MAX || domain1 == u32::MAX {
        return Err("DC SMMU domain registers are unreadable");
    }
    if domain >= 0x8000_0000 || domain1 >= 0x8000_0000 {
        return Err("DC0 is attached to an inherited SMMU domain");
    }
    Ok(())
}

/// What is wrong with the node of the controller.
pub open spec fn node_error(start: Option<u64>, size: u64, boot: Option<u32>) -> Option<
    &'static str,
> {
    if start != Some(0x5420_0000u64) {
        Some("only the inherited DC0 DSI scanout is supported")
    } else if size < 0x4_0000 || boot != Some(1u32) {
        Some("missing Tegra DC firmware scanout contract")
    } else {
        None
    }
}

pub fn check_node(start: Option<u64>, size: u64, boot: Option<u32>) -> (r: Result<
    (),
    &'static str,
>)
    ensures
        match r {
            Ok(_) => node_error(start, size, boot) is None,
            Err(e) => node_error(start, size, boot) == Some(e),
        },
{
    match start {
        Some(address) => {
            if address != 0x5420_0000 {
                return Err("only the inherited DC0 DSI scanout is supported");
            }
        },
        None => {
            return Err("only the inherited DC0 DSI scanout is supported");
        },
    }
    match boot {
        Some(value) => {
            if size < 0x4_0000 || value != 1 {
                return Err("missing Tegra DC firmware scanout contract");
            }
        },
        None => {
            return Err("missing Tegra DC firmware scanout contract");
        },
    }
    Ok(())
}

/// What is wrong with the mode that was found.
pub open spec fn mode_error(original: Original, command: u32, active: u32) -> Option<&'static str> {
    let window = original.window@;
    if original.console_window@[0] & WIN_ENABLE != 0 {
        Some("boot console handoff requires an unused Tegra DC window B")
    } else if window[0] != WIN_ENABLE || window[2] != 12 || window[9] % 0x1_0000 != 2880
        || window[10] != BOOT_FRAME || window[11] != 0 || original.kind != 0 || command / 32 % 4
        != 1 || active != 0x0500_02d0 {
        Some("inherited Tegra DC scanout differs from the inspected Hekate mode")
    } else {
        None
    }
}

pub fn check_mode(original: &Original, command: u32, active: u32) -> (r: Result<(), &'static str>)
    ensures
        match r {
            Ok(_) => mode_error(*original, command, active) is None,
            Err(e) => mode_error(*original, command, active) == Some(e),
        },
{
    if original.console_window[0] & WIN_ENABLE != 0 {
        return Err("boot console handoff requires an unused Tegra DC window B");
    }
    if original.window[0] != WIN_ENABLE || original.window[2] != 12 || original.window[9] % 0x1_0000
        != 2880 || original.window[10] != BOOT_FRAME || original.window[11] != 0 || original.kind
        != 0 || command / 32 % 4 != 1 || active != 0x0500_02d0 {
        return Err("inherited Tegra DC scanout differs from the inspected Hekate mode");
    }
    Ok(())
}

/// Reads a window's registers, and its kind.
fn read_window<R: Timed>(bus: &mut Bus<'_, R>) -> (r: ([u32; 24], u32))
    ensures
        final(bus).port() == old(bus).port(),
        mmio::quiet(old(bus).log(), final(bus).log()),
        final(bus).log() == old(bus).log() + scanout::agreement(
            scanout::window_values(r.0@, r.1),
        ),
{
    let names: [usize; 24] = registers();
    let mut values: [u32; 24] = [0; 24];
    let mut i: usize = 0;
    while i < 24
        invariant
            bus.port() == old(bus).port(),
            i <= 24,
            names@ == scanout::registers_spec(),
            mmio::quiet(old(bus).log(), bus.log()),
            bus.log() =~= old(bus).log() + Seq::new(
                i as nat,
                |j: int| Access::Read(scanout::registers_spec()[j], values@[j]),
            ),
        decreases 24 - i,
    {
        let value: u32 = bus.read(names[i]);
        values[i] = value;
        i = i + 1;
    }
    let kind: u32 = bus.read(KIND);
    assert(bus.log() =~= old(bus).log() + scanout::agreement(
        scanout::window_values(values@, kind),
    ));
    (values, kind)
}

/// The values that are read while the firmware's state is taken.
#[derive(Clone, Copy)]
pub struct Found {
    pub access: u32,
    pub header: u32,
    pub control: u32,
    pub window: [u32; 24],
    pub kind: u32,
    pub priority: u32,
    pub timer: u32,
    pub activation: u32,
    pub underflow_a: u32,
    pub underflow_b: u32,
    pub console_window: [u32; 24],
    pub console_kind: u32,
    pub command: u32,
    pub active: u32,
}

/// All accesses of taking the firmware's state: the windows are read in the active
/// state, and what was borrowed is given back.
pub open spec fn inspection(f: Found) -> Seq<Access> {
    seq![
        Access::Read(STATE_ACCESS, f.access),
        Access::Read(HEADER, f.header),
        Access::Read(STATE_CONTROL, f.control),
        Access::Write(STATE_ACCESS, 1),
        Access::Write(HEADER, WINDOW_A),
    ] + scanout::agreement(scanout::window_values(f.window@, f.kind)) + seq![
        Access::Read(PRIORITY, f.priority),
        Access::Read(PRIORITY_TIMER, f.timer),
        Access::Read(ACT_CONTROL, f.activation),
        Access::Read(UNDERFLOW_A, f.underflow_a),
        Access::Read(UNDERFLOW_B, f.underflow_b),
        Access::Write(HEADER, WINDOW_B),
    ] + scanout::agreement(scanout::window_values(f.console_window@, f.console_kind)) + seq![
        Access::Write(HEADER, WINDOW_A),
        Access::Read(DISPLAY_COMMAND, f.command),
        Access::Read(ACTIVE_SIZE, f.active),
        Access::Write(HEADER, f.header),
        Access::Write(STATE_ACCESS, f.access),
    ]
}

/// Takes the firmware's state.
pub fn inspect<R: Timed>(bus: &mut Bus<'_, R>) -> (r: Result<Found, &'static str>)
    ensures
        final(bus).port() == old(bus).port(),
        mmio::memory_kept(old(bus).log(), final(bus).log()),
        match r {
            Ok(found) => found.control & REQUEST == 0 && final(bus).log() == old(bus).log()
                + inspection(found),
            Err(e) => e == "inherited Tegra DC has a pending update" && mmio::last(
                final(bus).log(),
                STATE_CONTROL,
            ) & REQUEST != 0 && mmio::writes(final(bus).log()) == mmio::writes(old(bus).log()),
        },
{
    let access: u32 = bus.read(STATE_ACCESS);
    let header: u32 = bus.read(HEADER);
    let control: u32 = bus.read(STATE_CONTROL);
    if control & REQUEST != 0 {
        return Err("inherited Tegra DC has a pending update");
    }
    bus.write(STATE_ACCESS, 1);
    bus.write(HEADER, WINDOW_A);
    let (window, kind) = read_window(bus);
    let priority: u32 = bus.read(PRIORITY);
    let timer: u32 = bus.read(PRIORITY_TIMER);
    let activation: u32 = bus.read(ACT_CONTROL);
    let underflow_a: u32 = bus.read(UNDERFLOW_A);
    let underflow_b: u32 = bus.read(UNDERFLOW_B);
    bus.write(HEADER, WINDOW_B);
    let (console_window, console_kind) = read_window(bus);
    bus.write(HEADER, WINDOW_A);
    let command: u32 = bus.read(DISPLAY_COMMAND);
    let active: u32 = bus.read(ACTIVE_SIZE);
    bus.write(HEADER, header);
    bus.write(STATE_ACCESS, access);
    let found = Found {
        access,
        header,
        control,
        window,
        kind,
        priority,
        timer,
        activation,
        underflow_a,
        underflow_b,
        console_window,
        console_kind,
        command,
        active,
    };
    assert(bus.log() =~= old(bus).log() + inspection(found));
    Ok(found)
}

/// What is kept of the firmware's state.
pub open spec fn original_spec(f: Found, enable: u32, mask: u32) -> Original {
    Original {
        window: f.window,
        kind: f.kind,
        console_window: f.console_window,
        console_kind: f.console_kind,
        priority: f.priority,
        timer: f.timer,
        activation: f.activation,
        event_enable: enable & EVENTS,
        event_mask: mask & EVENTS,
    }
}

/// What is judged of the firmware's state: everything but its events.
pub open spec fn draft_spec(f: Found) -> Original {
    Original {
        window: f.window,
        kind: f.kind,
        console_window: f.console_window,
        console_kind: f.console_kind,
        priority: f.priority,
        timer: f.timer,
        activation: f.activation,
        event_enable: 0,
        event_mask: 0,
    }
}

/// Takes the firmware's state, where it is the known one.
pub fn adopt<R: Timed>(bus: &mut Bus<'_, R>) -> (r: Result<Original, &'static str>)
    ensures
        final(bus).port() == old(bus).port(),
        mmio::memory_kept(old(bus).log(), final(bus).log()),
        r matches Ok(original) ==> exists|f: Found, enable: u32, mask: u32|
            {
                &&& original == #[trigger] original_spec(f, enable, mask)
                &&& mode_error(original, f.command, f.active) is None
                &&& final(bus).log() == old(bus).log() + inspection(f) + seq![
                    Access::Read(INT_ENABLE, enable),
                    Access::Read(INT_MASK, mask),
                ]
            },
        r matches Err(e) ==> {
            ||| e == "inherited Tegra DC has a pending update" && mmio::last(
                final(bus).log(),
                STATE_CONTROL,
            ) & REQUEST != 0 && mmio::writes(final(bus).log()) == mmio::writes(old(bus).log())
            ||| exists|f: Found|
                mode_error(draft_spec(f), f.command, f.active) == Some(e) && final(bus).log()
                    == old(bus).log() + #[trigger] inspection(f)
        },
{
    let found = inspect(bus)?;
    let ghost after = bus.log();
    let draft = Original {
        window: found.window,
        kind: found.kind,
        console_window: found.console_window,
        console_kind: found.console_kind,
        priority: found.priority,
        timer: found.timer,
        activation: found.activation,
        event_enable: 0,
        event_mask: 0,
    };
    match check_mode(&draft, found.command, found.active) {
        Ok(_) => {},
        Err(e) => {
            assert(mode_error(draft, found.command, found.active) == Some(e));
            assert(bus.log() == old(bus).log() + inspection(found));
            return Err(e);
        },
    }
    let enable: u32 = bus.read(INT_ENABLE);
    let mask: u32 = bus.read(INT_MASK);
    let original = Original {
        event_enable: enable & EVENTS,
        event_mask: mask & EVENTS,
        window: draft.window,
        kind: draft.kind,
        console_window: draft.console_window,
        console_kind: draft.console_kind,
        priority: draft.priority,
        timer: draft.timer,
        activation: draft.activation,
    };
    assert(original == original_spec(found, enable, mask));
    assert(bus.log() =~= old(bus).log() + inspection(found) + seq![
        Access::Read(INT_ENABLE, enable),
        Access::Read(INT_MASK, mask),
    ]);
    Ok(original)
}

/// A display is taken over if it shows what is known: one window with 720 by 1280 pixels of
/// four bytes, from the frame of the boot, in rows, and nothing in the other; its clock runs
/// out of reset, and its memory is not translated.
pub proof fn known_modes_are_adopted(original: Original, command: u32, active: u32)
    ensures
        mode_error(original, command, active) is None <==> {
            let w = original.window@;
            &&& original.console_window@[0] & 0x4000_0000 == 0
            &&& w[0] == 0x4000_0000 && w[2] == 12 && w[9] % 0x1_0000 == 720 * 4
            &&& w[10] == 0xf5a0_0000 && w[11] == 0 && original.kind == 0
            &&& command / 32 % 4 == 1
            &&& active % 0x1_0000 == 720 && active / 0x1_0000 == 1280
        },
{
}

/// The display runs, and its memory is reached directly.
pub proof fn running_displays_are_adopted(clocks: u32, resets: u32, domain: u32, domain1: u32)
    ensures
        surroundings_error(clocks, resets, domain, domain1) is None <==> clocks / 0x0800_0000 % 2
            == 1 && resets / 0x0800_0000 % 2 == 0 && domain < 0x8000_0000 && domain1 < 0x8000_0000,
{
}

/// What a display had is kept: both windows, and of its events those that are used.
pub proof fn originals_are_kept(f: Found, enable: u32, mask: u32)
    ensures
        ({
            let o = original_spec(f, enable, mask);
            &&& o.window == f.window && o.console_window == f.console_window
            &&& o.kind == f.kind && o.console_kind == f.console_kind
            &&& o.priority == f.priority && o.timer == f.timer && o.activation == f.activation
            &&& o.event_enable == enable & 0xc306 && o.event_mask == mask & 0xc306
        }),
{
}

/// The display is the first controller, with all its registers, and the boot left it on.
pub proof fn the_first_display_is_adopted(start: Option<u64>, size: u64, boot: Option<u32>)
    ensures
        node_error(start, size, boot) is None <==> start == Some(0x5420_0000u64) && size >= 0x4_0000
            && boot == Some(1u32),
{
}

/// What the firmware left is read where it is, each window while it is chosen, and the choice
/// is given back.
pub proof fn inheritances_are_read_where_they_are(f: Found, i: int)
    requires
        f.window@.len() == 24,
        f.console_window@.len() == 24,
        0 <= i < 24,
    ensures
        ({
            let l = inspection(f);
            &&& l.len() == 66
            &&& l[0] == Access::Read(0x40, f.access) && l[1] == Access::Read(0x42, f.header) && l[2]
                == Access::Read(0x41, f.control)
            &&& l[3] == Access::Write(0x40, 1) && l[4] == Access::Write(0x42, 0x10)
            &&& l[5 + i] == Access::Read(scanout::registers_spec()[i], f.window@[i])
            &&& l[29] == Access::Read(0x80b, f.kind)
            &&& l[30] == Access::Read(0x403, f.priority) && l[31] == Access::Read(0x404, f.timer)
            &&& l[32] == Access::Read(0x43, f.activation)
            &&& l[33] == Access::Read(0xbca, f.underflow_a) && l[34] == Access::Read(
                0xdca,
                f.underflow_b,
            )
            &&& l[35] == Access::Write(0x42, 0x20)
            &&& l[36 + i] == Access::Read(scanout::registers_spec()[i], f.console_window@[i])
            &&& l[60] == Access::Read(0x80b, f.console_kind)
            &&& l[61] == Access::Write(0x42, 0x10)
            &&& l[62] == Access::Read(0x32, f.command) && l[63] == Access::Read(0x409, f.active)
            &&& l[64] == Access::Write(0x42, f.header) && l[65] == Access::Write(0x40, f.access)
        }),
{
    let a = scanout::window_values(f.window@, f.kind);
    let b = scanout::window_values(f.console_window@, f.console_kind);
    assert(a.len() == 25 && b.len() == 25);
    assert(a[i] == (scanout::registers_spec()[i], f.window@[i]));
    assert(b[i] == (scanout::registers_spec()[i], f.console_window@[i]));
    assert(scanout::agreement(a).len() == 25 && scanout::agreement(b).len() == 25);
}

} // verus!
