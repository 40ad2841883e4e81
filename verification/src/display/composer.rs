//! The image compositor: it turns an upright image onto the panel, by itself.
use vstd::prelude::*;

use crate::display::scanout::PixelFormat;
use crate::mmio;
use crate::mmio::{Access, Bus, Dma, Timed};
use crate::soc::clocks;
use crate::soc::map::VIC;
use crate::soc::power;
use crate::soc::power::{poll, VicPlatform};

verus! {

pub const WIDTH: u32 = 1280;

pub const HEIGHT: u32 = 720;

/// The description of a composition, in double words.
pub const CONFIG_WORDS: usize = 194;

pub const FCE_CONTROL: usize = 0x11000;

pub const FCE_UCODE_ADDR: usize = 0x11200;

pub const FCE_UCODE_INST: usize = 0x11300;

pub const PARAMETER_BASE: usize = 0x14000;

pub const PARAMETER_SIZE: usize = 0x14100;

pub const SLOT_MAP: usize = 0x10c00;

pub const INPUT_BASE: usize = 0x14300;

pub const OUTPUT_BASE: usize = 0x22000;

pub const BLEND_CONFIG: usize = 0x22800;

pub const COMPOSE: usize = 0x10000;

/// The end of the memory that the compositor reaches.
pub const REACH: u64 = 0x4_0000_0000;

/// What the compositor calls a format.
pub open spec fn format_spec(format: PixelFormat) -> Option<int> {
    match format {
        PixelFormat::BGRA8888 | PixelFormat::XRGB8888 => Some(36),
        PixelFormat::RGBA8888 | PixelFormat::XBGR8888 => Some(35),
        PixelFormat::Other => None,
    }
}

/// A double word of the description: the output is turned a quarter, one slot is
/// enabled, and its whole surface is taken.
pub open spec fn config_word(i: int, pitch: int, format: int) -> int {
    if i == 2 {
        0x5_0000_0000_0000
    } else if i == 3 {
        1279int * 0x1_0000 + 719 * 0x1_0000_0000_0000
    } else if i == 4 {
        36int + 1279 * 0x1_0000_0000 + 719 * 0x4000_0000_0000
    } else if i == 5 {
        1279int + 719 * 0x4000
    } else if i == 18 {
        1
    } else if i == 20 {
        0x3ffint * 0x400 + 0x3ff * 0x1_0000_0000 + 0x400_0000_0000
    } else if i == 22 {
        1279int * 0x1_0000_0000_0000
    } else if i == 23 {
        719int * 0x1_0000_0000_0000
    } else if i == 24 {
        1279int * 0x1_0000 + 719 * 0x1_0000_0000_0000
    } else if i == 26 {
        format + 0x10_0000 + pitch * 0x1_0000_0000 + 719 * 0x4000_0000_0000
    } else if i == 27 {
        pitch + 719 * 0x4000
    } else {
        0
    }
}

/// What is wrong with an image.
pub open spec fn image_error(stride: u32, format: PixelFormat) -> Option<&'static str> {
    if stride < 5120 || stride % 64 != 0 || stride / 4 > 0x4000 {
        Some("unsupported VIC input pitch")
    } else if format_spec(format) is None {
        Some("VIC requires a packed 32-bit RGB image")
    } else {
        None
    }
}

/// The description for an image of some stride and format.
pub open spec fn configuration_spec(stride: u32, format: PixelFormat) -> Seq<u64> {
    Seq::new(
        194,
        |i: int| config_word(i, stride as int / 4 - 1, format_spec(format)->0) as u64,
    )
}

/// Describes a composition.
pub fn configuration(stride: u32, format: PixelFormat) -> (r: Result<
    [u64; CONFIG_WORDS],
    &'static str,
>)
    ensures
        match r {
            Ok(words) => image_error(stride, format) is None && words@ == configuration_spec(
                stride,
                format,
            ),
            Err(e) => image_error(stride, format) == Some(e),
        },
{
    if stride < 5120 || stride % 64 != 0 || stride / 4 > 0x4000 {
        return Err("unsupported VIC input pitch");
    }
    let input: u64 = match format {
        PixelFormat::BGRA8888 | PixelFormat::XRGB8888 => 36,
        PixelFormat::RGBA8888 | PixelFormat::XBGR8888 => 35,
        PixelFormat::Other => {
            return Err("VIC requires a packed 32-bit RGB image");
        },
    };
    let pitch: u64 = (stride / 4 - 1) as u64;
    let mut words: [u64; CONFIG_WORDS] = [0; CONFIG_WORDS];
    words[2] = 0x5_0000_0000_0000;
    words[3] = 1279 * 0x1_0000 + 719 * 0x1_0000_0000_0000;
    words[4] = 36 + 1279 * 0x1_0000_0000 + 719 * 0x4000_0000_0000;
    words[5] = 1279 + 719 * 0x4000;
    words[18] = 1;
    words[20] = 0x3ff * 0x400 + 0x3ff * 0x1_0000_0000 + 0x400_0000_0000;
    words[22] = 1279 * 0x1_0000_0000_0000;
    words[23] = 719 * 0x1_0000_0000_0000;
    words[24] = 1279 * 0x1_0000 + 719 * 0x1_0000_0000_0000;
    words[26] = input + 0x10_0000 + pitch * 0x1_0000_0000 + 719 * 0x4000_0000_0000;
    words[27] = pitch + 719 * 0x4000;
    assert(words@ =~= configuration_spec(stride, format));
    Ok(words)
}

/// Where a register of the compositor is.
pub open spec fn vic(offset: int) -> usize {
    (VIC + offset) as usize
}

/// What a write to a private register takes: the selector is left at zero.
pub open spec fn private_writes(address: usize, value: u32) -> Seq<(usize, u32)> {
    let selector = (address as int % 256 / 4) as u32;
    seq![(vic(0x10ac), selector), (vic(0x1000 + address as int / 64), value)] + if selector != 0 {
        seq![(vic(0x10ac), 0u32)]
    } else {
        seq![]
    }
}

fn write_private<R: Timed>(bus: &mut Bus<'_, R>, address: usize, value: u32)
    requires
        address < 0x4_0000,
    ensures
        final(bus).port() == old(bus).port(),
        mmio::memory_kept(old(bus).log(), final(bus).log()),
        mmio::writes(final(bus).log()) == mmio::writes(old(bus).log()) + private_writes(
            address,
            value,
        ),
{
    let selector: u32 = (address % 256 / 4) as u32;
    bus.write(VIC + 0x10ac, selector);
    bus.write(VIC + 0x1000 + address / 64, value);
    if selector != 0 {
        bus.write(VIC + 0x10ac, 0);
    }
    assert(mmio::writes(bus.log()) =~= mmio::writes(old(bus).log()) + private_writes(
        address,
        value,
    ));
}

/// The compositor has nothing to do.
pub open spec fn is_idle(log: Seq<Access>) -> bool {
    mmio::last(log, vic(0x104c)) == 0
}

/// The compositor was read to have nothing to do, behind nothing but looks.
pub open spec fn came_idle(before: Seq<Access>, after: Seq<Access>) -> bool {
    power::polled(before, after, vic(0x104c), u32::MAX, 0)
}

/// Whether the compositor has something to do is unknown, or it still has in the end.
pub open spec fn idle_failed(before: Seq<Access>, after: Seq<Access>, e: &'static str) -> bool {
    &&& mmio::extends(before, after)
    &&& {
        power::poll_failed(
            before,
            after,
            vic(0x104c),
            u32::MAX,
            0,
            150_000_000,
            power::Complaints {
                unreadable: "VIC idle state is unreadable",
                late: "VIC composition/parameter timeout",
            },
            e,
        )
    }
}

/// Waits until the compositor has nothing to do.
pub fn wait_idle<R: Timed>(bus: &mut Bus<'_, R>) -> (r: Result<(), &'static str>)
    ensures
        final(bus).port() == old(bus).port(),
        mmio::quiet(old(bus).log(), final(bus).log()),
        match r {
            Ok(_) => is_idle(final(bus).log()) && came_idle(old(bus).log(), final(bus).log()),
            Err(e) => idle_failed(old(bus).log(), final(bus).log(), e),
        },
{
    let r = poll(
        bus,
        VIC + 0x104c,
        u32::MAX,
        0,
        150_000_000,
        "VIC idle state is unreadable",
        "VIC composition/parameter timeout",
    );
    proof {
        let idle = mmio::last(bus.log(), vic(0x104c));
        assert(idle & 0xffff_ffff == 0 ==> idle == 0) by (bit_vector);
    }
    r
}

/// A word of some bytes, least byte first.
pub open spec fn word_at(code: Seq<u8>, i: int) -> u32 {
    (code[4 * i] + code[4 * i + 1] * 0x100 + code[4 * i + 2] * 0x1_0000 + code[4 * i + 3]
        * 0x100_0000) as u32
}

/// What loads the first words of the program.
pub open spec fn load_writes(code: Seq<u8>, count: int) -> Seq<(usize, u32)>
    decreases count,
{
    if count <= 0 {
        seq![]
    } else {
        load_writes(code, count - 1) + private_writes(FCE_UCODE_ADDR, (4 * (count - 1)) as u32)
            + private_writes(FCE_UCODE_INST, word_at(code, count - 1))
    }
}

/// Loads the program of the compositor, whole words only.
fn load_program<R: Timed>(bus: &mut Bus<'_, R>, code: &[u8])
    requires
        code@.len() <= u32::MAX,
    ensures
        final(bus).port() == old(bus).port(),
        mmio::memory_kept(old(bus).log(), final(bus).log()),
        mmio::writes(final(bus).log()) == mmio::writes(old(bus).log()) + load_writes(
            code@,
            code@.len() as int / 4,
        ),
{
    let mut i: usize = 0;
    assert(mmio::writes(bus.log()) =~= mmio::writes(old(bus).log()) + load_writes(code@, 0));
    while i < code.len() / 4
        invariant
            bus.port() == old(bus).port(),
            i <= code@.len() / 4,
            code@.len() <= u32::MAX,
            mmio::memory_kept(old(bus).log(), bus.log()),
            mmio::writes(bus.log()) == mmio::writes(old(bus).log()) + load_writes(code@, i as int),
        decreases code@.len() / 4 - i,
    {
        let word: u32 = code[4 * i] as u32 + code[4 * i + 1] as u32 * 0x100 + code[4 * i
            + 2] as u32 * 0x1_0000 + code[4 * i + 3] as u32 * 0x100_0000;
        write_private(bus, FCE_UCODE_ADDR, (4 * i) as u32);
        write_private(bus, FCE_UCODE_INST, word);
        assert(mmio::writes(bus.log()) =~= mmio::writes(old(bus).log()) + load_writes(
            code@,
            i + 1,
        ));
        i = i + 1;
    }
}

/// The compositor, while this library has it.
pub struct Vic {
    pub platform: VicPlatform,
    /// Where its parameters are, and the area by which they are written.
    pub parameters: u64,
    pub area: usize,
    pub claimed: bool,
    pub isolated: bool,
}

/// The compositor was started and has its program.
pub open spec fn was_started(
    before: Seq<Access>,
    after: Seq<Access>,
    platform: VicPlatform,
    code: Seq<u8>,
) -> bool {
    &&& mmio::extends(before, after)
    &&& exists|a: Seq<Access>, c: Seq<Access>|
        {
            &&& found_idle(before, a, platform)
            &&& #[trigger] was_loaded(a, c, platform, code)
            &&& came_idle(c, after)
        }
}

/// A compositor that was found in use has nothing to do; another is not asked.
pub open spec fn found_idle(before: Seq<Access>, after: Seq<Access>, platform: VicPlatform) -> bool {
    if platform.inherited_live {
        came_idle(before, after)
    } else {
        after == before
    }
}

/// Two ranges of an image in memory that the compositor reaches.
pub open spec fn reachable(address: u64, length: int) -> bool {
    address % 256 == 0 && address + length <= REACH
}

/// Why nothing is composed.
pub open spec fn compose_error(
    vic: Vic,
    source: u64,
    destination: u64,
    stride: u32,
    format: PixelFormat,
) -> Option<&'static str> {
    if !vic.claimed || vic.isolated {
        Some("VIC is inactive")
    } else if image_error(stride, format) is Some {
        image_error(stride, format)
    } else if !reachable(source, stride * 720) || !reachable(destination, 3_686_400) {
        Some("VIC image exceeds physical DMA alignment/range")
    } else {
        None
    }
}

/// The parameters, as the compositor's memory gets them: least half first.
pub open spec fn parameter_stores(area: usize, words: Seq<u64>, count: int) -> Seq<
    (usize, usize, u32),
>
    decreases count,
{
    if count <= 0 {
        seq![]
    } else {
        parameter_stores(area, words, count - 1) + seq![
            (area, (2 * (count - 1)) as usize, (words[count - 1] as int % 0x1_0000_0000) as u32),
            (
                area,
                (2 * (count - 1) + 1) as usize,
                (words[count - 1] as int / 0x1_0000_0000) as u32,
            ),
        ]
    }
}

fn store_parameters<R: Dma>(bus: &mut Bus<'_, R>, area: usize, words: &[u64; CONFIG_WORDS])
    ensures
        final(bus).port() == old(bus).port(),
        mmio::extends(old(bus).log(), final(bus).log()),
        mmio::writes(final(bus).log()) == mmio::writes(old(bus).log()),
        mmio::stores(final(bus).log()) == mmio::stores(old(bus).log()) + parameter_stores(
            area,
            words@,
            194,
        ),
{
    let mut i: usize = 0;
    assert(mmio::stores(bus.log()) =~= mmio::stores(old(bus).log()) + parameter_stores(
        area,
        words@,
        0,
    ));
    while i < CONFIG_WORDS
        invariant
            bus.port() == old(bus).port(),
            i <= 194,
            mmio::extends(old(bus).log(), bus.log()),
            mmio::writes(bus.log()) == mmio::writes(old(bus).log()),
            mmio::stores(bus.log()) == mmio::stores(old(bus).log()) + parameter_stores(
                area,
                words@,
                i as int,
            ),
        decreases 194 - i,
    {
        let word: u64 = words[i];
        bus.store(area, 2 * i, (word % 0x1_0000_0000) as u32);
        bus.store(area, 2 * i + 1, (word / 0x1_0000_0000) as u32);
        assert(mmio::stores(bus.log()) =~= mmio::stores(old(bus).log()) + parameter_stores(
            area,
            words@,
            i + 1,
        ));
        i = i + 1;
    }
}

/// What has the parameters read.
pub open spec fn describe_writes(parameters: u64) -> Seq<(usize, u32)> {
    private_writes(PARAMETER_BASE, (parameters / 256) as u32) + private_writes(
        PARAMETER_SIZE,
        0x18,
    )
}

/// What names both images.
pub open spec fn surface_writes(source: u64, destination: u64) -> Seq<(usize, u32)> {
    private_writes(SLOT_MAP, 0xffff_fff0) + private_writes(INPUT_BASE, (source / 256) as u32)
        + private_writes(OUTPUT_BASE, (destination / 256) as u32) + private_writes(
        BLEND_CONFIG,
        0x1f05,
    )
}

/// The places of a composition: at rest, the parameters written, read, the images named,
/// taken, and the work told.
pub struct Composing {
    pub rested: Seq<Access>,
    pub described: Seq<Access>,
    pub read: Seq<Access>,
    pub named: Seq<Access>,
    pub taken: Seq<Access>,
    pub told: Seq<Access>,
}

/// The parameters were stored, and the compositor was told to read them.
pub open spec fn was_described(
    before: Seq<Access>,
    after: Seq<Access>,
    vic: Vic,
    words: Seq<u64>,
) -> bool {
    exists|stored: Seq<Access>|
        {
            &&& mmio::extends(before, stored)
            &&& mmio::writes(stored) == mmio::writes(before)
            &&& mmio::stores(stored) == mmio::stores(before) + parameter_stores(
                vic.area,
                words,
                194,
            )
            &&& #[trigger] mmio::only_wrote(stored, after, describe_writes(vic.parameters))
        }
}

/// So many steps of a composition were over.
pub open spec fn composing(
    started: Seq<Access>,
    s: Composing,
    vic: Vic,
    source: u64,
    destination: u64,
    words: Seq<u64>,
    n: int,
) -> bool {
    &&& n > 0 ==> came_idle(started, s.rested) && was_described(s.rested, s.described, vic, words)
    &&& n > 1 ==> came_idle(s.described, s.read) && mmio::only_wrote(
        s.read,
        s.named,
        surface_writes(source, destination),
    )
    &&& n > 2 ==> came_idle(s.named, s.taken) && mmio::only_wrote(
        s.taken,
        s.told,
        private_writes(COMPOSE, 1),
    )
}

/// An image was composed: each step waits until the one before it is over. It began and
/// ended at these times.
pub open spec fn was_composed(
    before: Seq<Access>,
    after: Seq<Access>,
    vic: Vic,
    source: u64,
    destination: u64,
    words: Seq<u64>,
    begun: u64,
    ended: u64,
) -> bool {
    exists|s: Composing, done: Seq<Access>|
        {
            &&& #[trigger] composing(
                before.push(Access::Time(begun)),
                s,
                vic,
                source,
                destination,
                words,
                3,
            )
            &&& #[trigger] came_idle(s.told, done)
            &&& after == done.push(Access::Time(ended))
        }
}

/// An image was not composed: before which step the compositor did not rest, and why.
pub open spec fn compose_failed(
    before: Seq<Access>,
    after: Seq<Access>,
    vic: Vic,
    source: u64,
    destination: u64,
    words: Seq<u64>,
    e: &'static str,
) -> bool {
    &&& mmio::extends(before, after)
    &&& exists|begun: u64, s: Composing, n: int|
        {
            let started = before.push(Access::Time(begun));
            &&& #[trigger] composing(
                before.push(Access::Time(begun)),
                s,
                vic,
                source,
                destination,
                words,
                n,
            )
            &&& {
                ||| n == 0 && idle_failed(started, after, e)
                ||| n == 1 && idle_failed(s.described, after, e)
                ||| n == 2 && idle_failed(s.named, after, e)
                ||| n == 3 && idle_failed(s.told, after, e)
            }
        }
}

/// How long something took, by the clock before it and the clock behind it.
pub open spec fn took(begun: u64, ended: u64) -> u64 {
    if ended >= begun {
        (ended - begun) as u64
    } else {
        0
    }
}

/// The program was loaded, after the compositor was started.
pub open spec fn was_loaded(
    before: Seq<Access>,
    after: Seq<Access>,
    platform: VicPlatform,
    code: Seq<u8>,
) -> bool {
    exists|b: Seq<Access>|
        {
            &&& #[trigger] power::vic_started(before, b, platform, true)
            &&& power::vic_running(b)
            &&& mmio::only_wrote(
                b,
                after,
                load_writes(code, code.len() as int / 4) + private_writes(FCE_CONTROL, 1),
            )
        }
}

/// The compositor was not started, or its program does not come to rest.
pub open spec fn begin_failed(
    before: Seq<Access>,
    after: Seq<Access>,
    platform: VicPlatform,
    code: Seq<u8>,
    e: &'static str,
) -> bool {
    &&& mmio::extends(before, after)
    &&& {
        ||| power::vic_start_failed(before, after, platform, e)
        ||| exists|a: Seq<Access>|
            #[trigger] was_loaded(before, a, platform, code) && idle_failed(a, after, e)
    }
}

/// A compositor in use does not rest, and is left alone; or its start failed, and it was
/// told to stop.
pub open spec fn refused(
    before: Seq<Access>,
    after: Seq<Access>,
    platform: VicPlatform,
    code: Seq<u8>,
    e: &'static str,
    kept: bool,
) -> bool {
    &&& mmio::extends(before, after)
    &&& {
        ||| platform.inherited_live && !kept && idle_failed(before, after, e)
        ||| exists|a: Seq<Access>, b: Seq<Access>, shut: Result<(), &'static str>|
            {
                &&& #[trigger] found_idle(before, a, platform)
                &&& #[trigger] begin_failed(a, b, platform, code, e)
                &&& #[trigger] was_shut(platform, b, after, shut)
                &&& kept == shut is Err
            }
    }
}

/// A compositor that ran was stopped, and got its clock source and power back, or did not.
pub open spec fn was_shut(
    platform: VicPlatform,
    before: Seq<Access>,
    after: Seq<Access>,
    r: Result<(), &'static str>,
) -> bool {
    ||| power::vic_stopped(before, after, false) && r == Err::<(), &'static str>(
        "VIC DMA isolation readback mismatch",
    )
    ||| exists|a: Seq<Access>|
        #[trigger] power::vic_stopped(before, a, true) && given_back(platform, a, after, r)
}

/// The compositor, once stopped, got its clock source and power back, or did not.
pub open spec fn given_back(
    platform: VicPlatform,
    before: Seq<Access>,
    after: Seq<Access>,
    r: Result<(), &'static str>,
) -> bool {
    if platform.original_power {
        r is Ok && power::vic_sourced(before, after, platform.original_source)
    } else {
        exists|a: Seq<Access>|
            {
                &&& #[trigger] power::vic_sourced(before, a, platform.original_source)
                &&& match r {
                    Ok(_) => power::was_switched(a, after, 23, power::VIC_POWER, false),
                    Err(e) => power::switch_failed(a, after, 23, power::VIC_POWER, false, e),
                }
            }
    }
}

impl Vic {
    /// Loads the program, after the compositor was started.
    fn begin<R: Dma>(&self, bus: &mut Bus<'_, R>, code: &[u8]) -> (r: Result<(), &'static str>)
        requires
            code@.len() <= u32::MAX,
        ensures
            final(bus).port() == old(bus).port(),
            mmio::memory_kept(old(bus).log(), final(bus).log()),
            r matches Err(e) ==> begin_failed(
                old(bus).log(),
                final(bus).log(),
                self.platform,
                code@,
                e,
            ),
            r is Ok ==> exists|c: Seq<Access>| #[trigger]
                was_loaded(old(bus).log(), c, self.platform, code@) && came_idle(
                    c,
                    final(bus).log(),
                ),
    {
        self.platform.activate(bus)?;
        let ghost b = bus.log();
        load_program(bus, code);
        write_private(bus, FCE_CONTROL, 1);
        assert(mmio::writes(bus.log()) =~= mmio::writes(b) + (load_writes(
            code@,
            code@.len() as int / 4,
        ) + private_writes(FCE_CONTROL, 1)));
        assert(power::vic_started(old(bus).log(), b, self.platform, true));
        assert(was_loaded(old(bus).log(), bus.log(), self.platform, code@));
        wait_idle(bus)
    }

    /// Takes the compositor. Where that fails after it was touched it is shut down
    /// again; the second part of the error says whether its parameters must be kept.
    pub fn new<R: Dma>(
        bus: &mut Bus<'_, R>,
        platform: VicPlatform,
        parameters: u64,
        area: usize,
        code: &[u8],
    ) -> (r: Result<Self, (&'static str, bool)>)
        requires
            code@.len() <= u32::MAX,
        ensures
            final(bus).port() == old(bus).port(),
            mmio::memory_kept(old(bus).log(), final(bus).log()),
            match r {
                Ok(vic) => {
                    &&& vic.claimed && !vic.isolated
                    &&& vic.platform == platform && vic.parameters == parameters && vic.area == area
                    &&& parameters + 4096 <= REACH
                    &&& was_started(old(bus).log(), final(bus).log(), platform, code@)
                },
                Err(e) => if parameters + 4096 > REACH {
                    e.0 == "VIC parameters exceed physical DMA range" && !e.1 && final(bus).log()
                        == old(bus).log()
                } else {
                    refused(old(bus).log(), final(bus).log(), platform, code@, e.0, e.1)
                },
            },
    {
        if parameters > REACH - 4096 {
            return Err(("VIC parameters exceed physical DMA range", false));
        }
        let mut vic = Vic { platform, parameters, area, claimed: false, isolated: false };
        if platform.inherited_live {
            match wait_idle(bus) {
                Err(e) => {
                    return Err((e, false));
                },
                Ok(_) => {},
            }
        }
        let ghost a = bus.log();
        assert(found_idle(old(bus).log(), a, platform));
        vic.claimed = true;
        match vic.begin(bus, code) {
            Err(e) => {
                let ghost b = bus.log();
                assert(begin_failed(a, b, platform, code@, e));
                let shut = vic.shutdown(bus);
                let kept: bool = shut.is_err();
                assert(was_shut(platform, b, bus.log(), shut));
                assert(refused(old(bus).log(), bus.log(), platform, code@, e, kept));
                Err((e, kept))
            },
            Ok(_) => Ok(vic),
        }
    }

    /// Composes one image onto the panel's, and tells how long that took.
    #[verifier::rlimit(100)]
    pub fn compose<R: Dma>(
        &self,
        bus: &mut Bus<'_, R>,
        source: u64,
        destination: u64,
        stride: u32,
        format: PixelFormat,
    ) -> (r: Result<u64, &'static str>)
        requires
            self.parameters <= REACH,
        ensures
            final(bus).port() == old(bus).port(),
            mmio::extends(old(bus).log(), final(bus).log()),
            match compose_error(*self, source, destination, stride, format) {
                Some(e) => r == Err::<u64, &'static str>(e) && final(bus).log() == old(bus).log(),
                None => match r {
                    Ok(ns) => exists|begun: u64, ended: u64| #[trigger]
                        was_composed(
                            old(bus).log(),
                            final(bus).log(),
                            *self,
                            source,
                            destination,
                            configuration_spec(stride, format),
                            begun,
                            ended,
                        ) && ns == took(begun, ended),
                    Err(e) => compose_failed(
                        old(bus).log(),
                        final(bus).log(),
                        *self,
                        source,
                        destination,
                        configuration_spec(stride, format),
                        e,
                    ),
                },
            },
    {
        if !self.claimed || self.isolated {
            return Err("VIC is inactive");
        }
        let words = configuration(stride, format)?;
        let length: u64 = stride as u64 * 720;
        if source % 256 != 0 || source > REACH - length || destination % 256 != 0 || destination
            > REACH - 3_686_400 {
            return Err("VIC image exceeds physical DMA alignment/range");
        }
        let ghost before = bus.log();
        let started: u64 = bus.now_ns();
        let ghost first = bus.log();
        let ghost vic = *self;
        let ghost mut s = Composing {
            rested: first,
            described: first,
            read: first,
            named: first,
            taken: first,
            told: first,
        };
        assert(first == before.push(Access::Time(started)));
        assert(composing(first, s, vic, source, destination, words@, 0));
        wait_idle(bus)?;
        proof {
            s = Composing { rested: bus.log(), ..s };
        }
        store_parameters(bus, self.area, &words);
        let ghost stored = bus.log();
        write_private(bus, PARAMETER_BASE, (self.parameters / 256) as u32);
        write_private(bus, PARAMETER_SIZE, 0x18);
        proof {
            s = Composing { described: bus.log(), ..s };
            assert(mmio::writes(bus.log()) =~= mmio::writes(stored) + describe_writes(
                vic.parameters,
            ));
            assert(mmio::only_wrote(stored, s.described, describe_writes(vic.parameters)));
            assert(was_described(s.rested, s.described, vic, words@));
            assert(composing(first, s, vic, source, destination, words@, 1));
        }
        wait_idle(bus)?;
        proof {
            s = Composing { read: bus.log(), ..s };
        }
        write_private(bus, SLOT_MAP, 0xffff_fff0);
        write_private(bus, INPUT_BASE, (source / 256) as u32);
        write_private(bus, OUTPUT_BASE, (destination / 256) as u32);
        write_private(bus, BLEND_CONFIG, 0x1f05);
        proof {
            s = Composing { named: bus.log(), ..s };
            assert(mmio::writes(s.named) =~= mmio::writes(s.read) + surface_writes(
                source,
                destination,
            ));
            assert(composing(first, s, vic, source, destination, words@, 2));
        }
        wait_idle(bus)?;
        proof {
            s = Composing { taken: bus.log(), ..s };
        }
        write_private(bus, COMPOSE, 1);
        proof {
            s = Composing { told: bus.log(), ..s };
            assert(composing(first, s, vic, source, destination, words@, 3));
        }
        wait_idle(bus)?;
        let ghost done = bus.log();
        assert(came_idle(s.told, done));
        let now: u64 = bus.now_ns();
        assert(was_composed(
            before,
            bus.log(),
            vic,
            source,
            destination,
            words@,
            started,
            now,
        ));
        Ok(now.saturating_sub(started))
    }

    /// Gives the compositor back. It is stopped before anything else changes, and once
    /// stopped it is not stopped again.
    pub fn shutdown<R: Dma>(&mut self, bus: &mut Bus<'_, R>) -> (r: Result<(), &'static str>)
        ensures
            final(bus).port() == old(bus).port(),
            mmio::memory_kept(old(bus).log(), final(bus).log()),
            mmio::begins(mmio::writes(final(bus).log()), mmio::writes(old(bus).log())),
            final(self).platform == old(self).platform,
            final(self).parameters == old(self).parameters,
            final(self).area == old(self).area,
            !old(self).claimed ==> r is Ok && final(bus).log() == old(bus).log() && *final(self)
                == *old(self),
            // A compositor that is given back, or whose memory may be released, was
            // stopped.
            old(self).claimed && r is Ok ==> !final(self).claimed && final(self).isolated,
            r is Err ==> final(self).claimed,
            old(self).claimed && old(self).isolated ==> given_back(
                old(self).platform,
                old(bus).log(),
                final(bus).log(),
                r,
            ),
            old(self).claimed && !old(self).isolated ==> {
                ||| power::vic_stopped(old(bus).log(), final(bus).log(), false) && r == Err::<
                    (),
                    &'static str,
                >("VIC DMA isolation readback mismatch") && !final(self).isolated
                ||| final(self).isolated && exists|a: Seq<Access>|
                    #[trigger] power::vic_stopped(old(bus).log(), a, true) && given_back(
                        old(self).platform,
                        a,
                        final(bus).log(),
                        r,
                    )
            },
            old(self).isolated ==> final(self).isolated,
    {
        if !self.claimed {
            return Ok(());
        }
        if !self.isolated {
            self.platform.isolate(bus)?;
            assert(power::vic_stopped(old(bus).log(), bus.log(), true));
            self.isolated = true;
        }
        self.platform.restore_power(bus)?;
        self.claimed = false;
        Ok(())
    }
}

/// What is described has the size of the panel, whatever the image is.
pub proof fn compositions_fill_the_panel(stride: u32, format: PixelFormat)
    requires
        image_error(stride, format) is None,
    ensures
        ({
            let words = configuration_spec(stride, format);
            &&& words[3] as int / 0x1_0000 % 0x1_0000 == WIDTH - 1
            &&& words[3] as int / 0x1_0000_0000_0000 == HEIGHT - 1
            &&& words[24] == words[3]
            // A surface is as wide as its stride.
            &&& (words[26] as int / 0x1_0000_0000 % 0x4000 + 1) * 4 == stride
            &&& words[26] as int / 0x4000_0000_0000 == HEIGHT - 1
            &&& words[26] as int % 0x100 == format_spec(format)->0
        }),
{
}

/// A format that keeps blue in its lowest byte has one code and one that keeps red there the
/// other; no other format has a code.
pub proof fn formats_are_told_by_their_lowest_byte(format: PixelFormat)
    ensures
        format_spec(format) == Some(36int) <==> format == PixelFormat::BGRA8888 || format
            == PixelFormat::XRGB8888,
        format_spec(format) == Some(35int) <==> format == PixelFormat::RGBA8888 || format
            == PixelFormat::XBGR8888,
        format_spec(format) is None <==> format == PixelFormat::Other,
{
}

/// The description of an image tells its format and rows, takes all 1280 columns and 720 rows
/// of it, and puts them onto as many, a quarter turned, as blue, green, red and alpha; one
/// slot is enabled, and it is opaque.
pub proof fn descriptions_tell_their_image(stride: u32, format: PixelFormat, i: int)
    requires
        image_error(stride, format) is None,
        0 <= i < 194,
    ensures
        ({
            let c = configuration_spec(stride, format);
            let code = format_spec(format)->0;
            &&& c.len() == 194
            &&& c[26] as int % 0x400 == code
            &&& 4 * (c[26] as int / 0x1_0000_0000 % 0x4000 + 1) == stride
            &&& c[26] as int / 0x4000_0000_0000 + 1 == 720
            &&& 4 * (c[27] as int % 0x4000 + 1) == stride
            &&& c[27] as int / 0x4000 + 1 == 720
            &&& c[4] as int % 0x400 == 36
            &&& c[4] as int / 0x1_0000_0000 % 0x4000 + 1 == 1280
            &&& c[4] as int / 0x4000_0000_0000 + 1 == 720
            &&& c[5] as int % 0x4000 + 1 == 1280 && c[5] as int / 0x4000 + 1 == 720
            &&& c[3] as int / 0x1_0000 % 0x1_0000 + 1 == 1280 && c[3] as int / 0x1_0000_0000_0000
                + 1 == 720
            &&& c[24] == c[3]
            &&& c[22] as int / 0x1_0000_0000_0000 + 1 == 1280
            &&& c[23] as int / 0x1_0000_0000_0000 + 1 == 720
            &&& c[2] as int / 0x1_0000_0000_0000 == 5
            &&& c[18] == 1
            &&& c[20] as int / 0x400 % 0x400 == 0x3ff && c[20] as int / 0x1_0000_0000 % 0x400
                == 0x3ff
            &&& i < 2 || 6 <= i < 18 || i == 19 || i == 21 || i == 25 || i >= 28 ==> c[i] == 0
        }),
{
}

/// A private register is reached through a window, with its word chosen before and the
/// choice taken back afterwards.
pub proof fn private_registers_are_chosen_first(address: usize, value: u32)
    requires
        address < 0x100_0000,
    ensures
        ({
            let w = private_writes(address, value);
            &&& w[0].0 == 0x5434_10ac && 4 * w[0].1 <= address as int % 256 < 4 * w[0].1 + 4
            &&& w[1].0 == 0x5434_1000 + address as int / 64 && w[1].1 == value
            &&& address as int % 256 < 4 ==> w.len() == 2
            &&& address as int % 256 >= 4 ==> w.len() == 3 && w[2] == (0x5434_10acusize, 0u32)
        }),
{
}

/// Both images are named in units of 256 bytes; one slot of the map is used.
pub proof fn both_images_are_named(source: u64, destination: u64)
    requires
        reachable(source, 0),
        reachable(destination, 0),
    ensures
        ({
            let w = surface_writes(source, destination);
            &&& w.len() == 8
            &&& w[1] == (0x5434_1430usize, 0xffff_fff0u32)
            &&& w[3].0 == 0x5434_150c && 256 * w[3].1 == source
            &&& w[5].0 == 0x5434_1880 && 256 * w[5].1 == destination
            &&& w[7] == (0x5434_18a0usize, 0x1f05u32)
        }),
{
    let w = surface_writes(source, destination);
    assert(private_writes(SLOT_MAP, 0xffff_fff0).len() == 2);
    assert(private_writes(INPUT_BASE, (source / 256) as u32).len() == 2);
    assert(private_writes(OUTPUT_BASE, (destination / 256) as u32).len() == 2);
    assert(private_writes(BLEND_CONFIG, 0x1f05).len() == 2);
}

/// The description goes to memory in words, the lower half of each first.
pub proof fn descriptions_are_stored_in_order(area: usize, words: Seq<u64>, count: int, i: int)
    requires
        0 <= i < count <= 0x1000,
    ensures
        parameter_stores(area, words, count).len() == 2 * count,
        parameter_stores(area, words, count)[2 * i].0 == area,
        parameter_stores(area, words, count)[2 * i].1 == 2 * i,
        parameter_stores(area, words, count)[2 * i + 1].0 == area,
        parameter_stores(area, words, count)[2 * i + 1].1 == 2 * i + 1,
        parameter_stores(area, words, count)[2 * i].2 + 0x1_0000_0000 * parameter_stores(
            area,
            words,
            count,
        )[2 * i + 1].2 == words[i],
    decreases count,
{
    if i < count - 1 {
        descriptions_are_stored_in_order(area, words, count - 1, i);
    } else if count > 1 {
        descriptions_are_stored_in_order(area, words, count - 1, 0);
    } else {
        assert(parameter_stores(area, words, 0).len() == 0);
    }
}

} // verus!
