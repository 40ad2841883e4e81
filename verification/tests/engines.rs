use std::cell::{Cell, RefCell};
use std::collections::HashMap;

use switch_drivers::audio::codec::{Codec, CodecPort};
use switch_drivers::audio::playback::{configure, release, service, start, stop};
use switch_drivers::audio::ring::{Progress, Ring, StreamParams};
use switch_drivers::gpu::execution;
use switch_drivers::gpu::execution::{
    fifo_places, graphics_places, hand_over, place, place_all, prepare, Place, CONTEXT, PATCHES,
    TILE,
};
use switch_drivers::gpu::allocation::{allocate, release as release_object};
use switch_drivers::gpu::demonstration::verify;
use switch_drivers::gpu::fifo::Fifo;
use switch_drivers::gpu::gmmu::{PageTable, TABLE};
use switch_drivers::gpu::graphics::{is_drawable, Methods, Sequencer, SubmitError, Viewport};
use switch_drivers::gpu::images::{Color, Matrix, Range, SharedDescriptor, SharedPlane, Siting};
use switch_drivers::gpu::import::{conclude_import, import_image, Visible};
use switch_drivers::gpu::objects::Objects;
use switch_drivers::gpu::probe::ProbeSet;
use switch_drivers::gpu::memory::Kind;
use switch_drivers::input::gamepad;
use switch_drivers::input::gamepad::{GpioRef, Rail};
use switch_drivers::input::joycon::{Pair, Stage};
use switch_drivers::input::worker::{turn, Port};
use switch_drivers::mmio::{Bus, Dma, Registers, Timed};
use switch_drivers::soc::gpio::TegraGpio;
use switch_drivers::soc::uart::UartRxInterrupt;

/// Memory and registers that keep what they get, and answer zero where nothing was set.
struct Engine {
    answers: RefCell<HashMap<usize, u32>>,
    writes: RefCell<Vec<(usize, u32)>>,
    memory: RefCell<HashMap<(usize, usize), u32>>,
    stores: RefCell<Vec<(usize, usize, u32)>>,
    cleaned: RefCell<Vec<usize>>,
    time: Cell<u64>,
}

impl Engine {
    fn new() -> Self {
        Engine {
            answers: RefCell::new(HashMap::new()),
            writes: RefCell::new(Vec::new()),
            memory: RefCell::new(HashMap::new()),
            stores: RefCell::new(Vec::new()),
            cleaned: RefCell::new(Vec::new()),
            time: Cell::new(0),
        }
    }
}

impl Registers for Engine {
    fn read(&self, offset: usize) -> u32 {
        *self.answers.borrow().get(&offset).unwrap_or(&0)
    }

    fn write(&self, offset: usize, value: u32) {
        self.writes.borrow_mut().push((offset, value));
    }

    fn now_ns(&self) -> u64 {
        self.time.set(self.time.get() + 1000);
        self.time.get()
    }

    fn delay_us(&self, us: u64) {
        self.time.set(self.time.get() + us * 1000);
    }

    fn load(&self, area: usize, word: usize) -> u32 {
        *self.memory.borrow().get(&(area, word)).unwrap_or(&0)
    }

    fn store(&self, area: usize, word: usize, value: u32) {
        self.memory.borrow_mut().insert((area, word), value);
        self.stores.borrow_mut().push((area, word, value));
    }

    fn clean(&self, area: usize) {
        self.cleaned.borrow_mut().push(area);
    }

    fn refresh(&self, _area: usize) {}

    fn rest_ns(&self, ns: u64) {
        self.time.set(self.time.get() + ns);
    }
}

impl Timed for Engine {}

impl Dma for Engine {}

#[test]
fn places_are_published_as_they_are_mapped() {
    let engine = Engine::new();
    let mut bus = Bus::new(&engine);
    let mut table = PageTable::new();
    let p = Place { va: 0x1_0000, paddr: 0x8000_0000, pages: 2, cacheable: true, kind: 0 };
    assert_eq!(place(&mut bus, &mut table, p), Ok(()));
    let stores = engine.stores.borrow().clone();
    assert_eq!(stores.len(), 4);
    for (i, stored) in stores.iter().enumerate() {
        assert_eq!((stored.0, stored.1), (TABLE, 0x20 + i));
        assert_eq!(stored.2, table.word(0x20 + i));
    }
    let over = Place { va: 0xf000, paddr: 0x9000_0000, pages: 3, cacheable: true, kind: 0 };
    assert_eq!(
        place(&mut bus, &mut table, over),
        Err("private GPU mapping would replace a valid PTE")
    );
    // The page in front of the one in the way was mapped.
    assert_eq!(engine.stores.borrow().len(), 6);
    assert_eq!(engine.stores.borrow()[4].1, 0x1e);
    let low = Place { va: 0x2000, paddr: 0, pages: 1, cacheable: true, kind: 0 };
    assert_eq!(
        place(&mut bus, &mut table, low),
        Err("private GPU mapping outside retained address space")
    );
    let huge = Place { va: 0x1_0000, paddr: 0, pages: usize::MAX, cacheable: true, kind: 0 };
    assert_eq!(place(&mut bus, &mut table, huge), Err("private GPU mapping size overflow"));
    assert_eq!(engine.stores.borrow().len(), 6);
}

#[test]
fn engines_see_their_memory_where_it_belongs() {
    let places = fifo_places([1 << 12, 2 << 12, 3 << 12, 4 << 12, 5 << 12, 6 << 12]);
    let vas: Vec<usize> = places.iter().map(|p| p.va).collect();
    assert_eq!(vas, vec![0x3000, 0x4000, 0x5000, 0x6000, 0x7000, 0x8000]);
    assert!(places.iter().all(|p| p.pages == 1 && !p.cacheable && p.kind == 0));
    let paddrs: [u64; 10] = std::array::from_fn(|i| (0x100 + 0x200 * i as u64) << 12);
    let pages: [usize; 10] = [7, 1, 1, 256, 1, 256, 1, 1, 1, 2];
    let places = graphics_places(paddrs, pages);
    assert_eq!(places[3].va, 0x2a_0000);
    assert_eq!(places[5].va, 0x40_0000);
    assert_eq!((places[9].va, places[9].kind), (0x50_0000, 0xfe));
    assert!(places[..9].iter().all(|p| p.cacheable && p.kind == 0));
    let engine = Engine::new();
    let mut bus = Bus::new(&engine);
    let mut table = PageTable::new();
    assert_eq!(place_all(&mut bus, &mut table, &places), Ok(()));
    assert_eq!(engine.stores.borrow().len(), 2 * pages.iter().sum::<usize>());
    assert_eq!(
        place_all(&mut bus, &mut table, &places),
        Err("private GPU mapping would replace a valid PTE")
    );
    assert_eq!(engine.stores.borrow().len(), 2 * pages.iter().sum::<usize>());
}

#[test]
fn engines_are_bound_to_the_address_space() {
    let engine = Engine::new();
    engine.answers.borrow_mut().insert(0x10_0c80, 0x8000);
    let mut bus = Bus::new(&engine);
    let mut table = PageTable::new();
    let p = Place { va: 0x1_0000, paddr: 0x8000_0000, pages: 1, cacheable: true, kind: 0 };
    let r = execution::lay_out(&mut bus, &mut table, &vec![p], &vec![16, 17], 0x8010_0000);
    // The engines have no room for the invalidation.
    assert_eq!(r, Err("GMMU hardware completion timeout"));
    assert_eq!(engine.stores.borrow().len(), 2 + 8);
    assert_eq!(engine.stores.borrow()[2].0, 16);
    assert_eq!(engine.stores.borrow()[2].1, 128);
    assert_eq!(engine.stores.borrow()[9].0, 17);
    let mut again = PageTable::new();
    engine.answers.borrow_mut().insert(0x10_0c80, 0x00ff_8000);
    let r = execution::lay_out(&mut bus, &mut again, &vec![p], &vec![16, 17], 0x8010_0000);
    assert_eq!(r, Ok(()));
    let writes = engine.writes.borrow();
    assert_eq!(writes[writes.len() - 1], (0x10_0cbc, 0x8000_0001));
    assert_eq!(writes[writes.len() - 2], (0x10_0cb8, 0x0080_1000));
}

#[test]
fn graphics_gets_a_context_of_its_own() {
    let engine = Engine::new();
    let mut bus = Bus::new(&engine);
    assert_eq!(prepare(&mut bus, 0, 4096), Err("graphics context size invalid"));
    assert_eq!(prepare(&mut bus, 8192, 4096), Err("graphics context size invalid"));
    assert!(engine.stores.borrow().is_empty());
    assert_eq!(prepare(&mut bus, 4096, 4096), Ok(()));
    assert_eq!(engine.stores.borrow().len(), 1024 + 28 + 9);
    let word = |area: usize, word: usize| *engine.memory.borrow().get(&(area, word)).unwrap();
    assert_eq!((word(PATCHES, 0), word(PATCHES, 1)), (0x41_8810, 0x8000_0200));
    assert_eq!((word(PATCHES, 26), word(PATCHES, 27)), (0x40_64c8, 0x00c0_01c0));
    assert_eq!((word(CONTEXT, 4), word(CONTEXT, 5), word(CONTEXT, 7)), (14, 0x3a_0000, 1));
    engine.cleaned.borrow_mut().clear();
    hand_over(&mut bus);
    assert_eq!(engine.cleaned.borrow().len(), 10);
    assert_eq!(engine.cleaned.borrow()[9], TILE);
}

fn video(buffer_count: usize) -> SharedDescriptor {
    SharedDescriptor {
        nv12: true,
        modifier: 0,
        width: 256,
        height: 32,
        buffer_count,
        buffer_sizes: [8192, 4096, 0, 0],
        luma: SharedPlane { buffer_index: 0, offset: 0, size: 8192, row_pitch: 256 },
        chroma: SharedPlane { buffer_index: 1, offset: 0, size: 4096, row_pitch: 256 },
    }
}

fn color() -> Color {
    Color {
        matrix: Matrix::Bt709,
        range: Range::Limited,
        chroma_x: Siting::Cosited,
        chroma_y: Siting::Midpoint,
        primaries: 1,
        transfer: 1,
        reserved_clear: true,
    }
}

#[test]
fn imported_pieces_fill_their_place() {
    let mut channel = Objects::new();
    let visible = Visible { width: 250, height: 30, uniforms: [0; 20] };
    let unknown = Color { matrix: Matrix::Other, ..color() };
    assert!(matches!(
        import_image(&mut channel, &video(2), &unknown, true, &visible),
        Err("GM20B shared image format/modifier/conversion unsupported")
    ));
    assert!(matches!(
        import_image(&mut channel, &video(2), &color(), false, &visible),
        Err("GM20B imported image layout invalid")
    ));
    // An image of no bytes has no place, whoever vouches for it.
    let empty = SharedDescriptor { buffer_sizes: [0; 4], ..video(2) };
    assert!(matches!(
        import_image(&mut channel, &empty, &color(), true, &visible),
        Err("GM20B imported image layout invalid")
    ));
    assert_eq!(channel.objects.len(), 0);
    let imported = match import_image(&mut channel, &video(2), &color(), true, &visible) {
        Ok(imported) => imported,
        Err(e) => panic!("{}", e),
    };
    assert_eq!(imported.pieces.len(), 2);
    assert_eq!(imported.pieces[0].1, 8192);
    assert_eq!(imported.pieces[1], (imported.pieces[0].0 + 8192, 4096));
    assert_eq!(imported.page_kind, 0);
    let id = imported.object.id;
    assert_eq!(conclude_import(&mut channel, imported.object, Ok(())), Ok(id));
    assert_eq!(channel.objects.len(), 1);
    let second = match import_image(&mut channel, &video(2), &color(), true, &visible) {
        Ok(imported) => imported,
        Err(e) => panic!("{}", e),
    };
    // What could not be mapped loses the device.
    assert_eq!(conclude_import(&mut channel, second.object, Err("no page")), Err("no page"));
    assert!(channel.lost);
    assert!(matches!(
        import_image(&mut channel, &video(2), &color(), true, &visible),
        Err("GM20B device lost")
    ));
}

struct Speaker {
    registers: RefCell<HashMap<u8, u16>>,
}

impl CodecPort for Speaker {
    fn read(&self, register: u8) -> Result<u16, &'static str> {
        Ok(*self.registers.borrow().get(&register).unwrap_or(&0))
    }

    fn write(&self, register: u8, value: u16) -> Result<(), &'static str> {
        self.registers.borrow_mut().insert(register, value);
        Ok(())
    }

    fn delay_us(&self, _us: u64) {}
}

#[test]
fn a_stream_plays_until_it_stalls() {
    let engine = Engine::new();
    let speaker = Speaker { registers: RefCell::new([(1u8, 0x8888u16)].into_iter().collect()) };
    let mut codec = Codec::new(&speaker);
    let mut bus = Bus::new(&engine);
    let mut ring = Ring::new();
    assert_eq!(
        start(&mut bus, &mut codec, &mut ring, 0x8000_0000),
        Err("audio is not configured")
    );
    let params = StreamParams {
        s16le: true,
        rate: 48_000,
        channels: 2,
        period_frames: 240,
        buffer_bytes: Some(9600),
    };
    let other = StreamParams { rate: 44_100, ..params };
    assert_eq!(
        configure(&mut bus, &mut codec, &mut ring, &other, 9600),
        Err("audio supports 48000 Hz S16_LE stereo only")
    );
    assert!(engine.writes.borrow().is_empty());
    assert_eq!(configure(&mut bus, &mut codec, &mut ring, &params, 9600), Ok(()));
    assert_eq!((ring.source, ring.period_bytes), (Some(9600), 960));
    assert_eq!(service(&mut bus, &mut ring), Progress::Idle);
    assert_eq!(start(&mut bus, &mut codec, &mut ring, 0x8000_0000), Ok(()));
    assert!(ring.active);
    assert_eq!(speaker.read(1), Ok(0x0808));
    let begun = engine.writes.borrow().len();
    assert_eq!(start(&mut bus, &mut codec, &mut ring, 0x8000_0000), Ok(()));
    assert_eq!(engine.writes.borrow().len(), begun);
    engine.time.set(10_000_000_000);
    assert_eq!(service(&mut bus, &mut ring), Progress::Stalled);
    assert_eq!(engine.writes.borrow().len(), begun + 3);
    assert!(ring.failed && !ring.active);
    assert_eq!(stop(&mut bus, &mut codec, &mut ring), Ok(()));
    assert_eq!(speaker.read(1).unwrap() & 0x8080, 0x8080);
    assert_eq!(release(&mut bus, &mut codec, &mut ring), Ok(()));
    assert_eq!(ring.source, None);
    assert_eq!(
        start(&mut bus, &mut codec, &mut ring, 0x8000_0000),
        Err("audio is not configured")
    );
}

/// Method numbers that are all different.
fn methods() -> Methods {
    Methods {
        cond_mode: 0x100,
        cond_mode_always: 0x104,
        watchdog_timer: 0x108,
        zeta_comp_enable: 0x10c,
        rt_control: 0x110,
        csaa_enable: 0x114,
        multisample_enable: 0x118,
        multisample_mode: 0x11c,
        multisample_ctrl: 0x120,
        blend_separate_alpha: 0x124,
        blend_enable_common: 0x128,
        shade_model: 0x12c,
        shade_model_smooth: 0x130,
        tex_cb_index: 0x134,
        call_limit_log: 0x138,
        cache_split: 0x13c,
        cache_split_48k_shared_16k_l1: 0x140,
        screen_y_control: 0x144,
        zcull_region: 0x148,
        clip_rects_en: 0x14c,
        clipid_enable: 0x150,
        clear_flags: 0x154,
        viewport_transform_en: 0x158,
        view_volume_clip_ctrl: 0x15c,
        view_volume_clip_ctrl_unk1_unk1: 0x160,
        rasterize_enable: 0x164,
        rt_separate_frag_data: 0x168,
        layer: 0x16c,
        point_coord_replace: 0x170,
        edgeflag: 0x174,
        zeta_enable: 0x178,
        depth_test_enable: 0x17c,
        depth_write_enable: 0x180,
        alpha_test_enable: 0x184,
        stencil_enable: 0x188,
        logic_op_enable: 0x18c,
        color_mask: 0x190,
        polygon_mode_front: 0x194,
        polygon_mode_back: 0x198,
        local_base: 0x19c,
        invalidate_shader_caches: 0x1a0,
        invalidate_shader_cache_reads: 0x1a4,
        rt_comp_enable: 0x1a8,
        window_offset_x: 0x1ac,
        vertex_id_gen_mode: 0x1b0,
        code_address_high: 0x1b4,
        vertex_runout_address_high: 0x1b8,
        tic_address_high: 0x1bc,
        tsc_address_high: 0x1c0,
        sp_select: 0x1c4,
        sp_gpr_alloc: 0x1c8,
        cb_size: 0x1cc,
        cb_bind: 0x1d0,
        cb_pos: 0x1d4,
        rt_address_high: 0x1d8,
        rt_tile_mode_linear: 0x1dc,
        screen_scissor_horiz: 0x1e0,
        scissor_enable: 0x1e4,
        clear_color: 0x1e8,
        clear_buffers: 0x1ec,
        serialize: 0x1f0,
        viewport_translate_x: 0x1f4,
        viewport_scale_x: 0x1f8,
        viewport_horiz: 0x1fc,
        viewport_swizzle: 0x200,
        depth_range_near: 0x204,
        cull_face_enable: 0x208,
        cull_face: 0x20c,
        front_face: 0x210,
        blend_enable: 0x214,
        blend_equation_rgb: 0x218,
        blend_func_dst_alpha: 0x21c,
        vertex_array_fetch: 0x220,
        vertex_array_fetch_enable: 0x224,
        vertex_array_limit_high: 0x228,
        vertex_array_per_instance: 0x22c,
        vertex_attrib_format: 0x230,
        vertex_attrib_format_type_float: 0x234,
        vertex_attrib_format_size_32_32: 0x238,
        vertex_attrib_format_size_32_32_32: 0x23c,
        vertex_attrib_format_size_32_32_32_32: 0x240,
        vertex_attrib_format_const: 0x244,
        tic_flush: 0x248,
        tsc_flush: 0x24c,
        tex_cache_ctl: 0x250,
        vb_element_base: 0x254,
        index_array_start_high: 0x258,
        vertex_begin_gl: 0x25c,
        vertex_buffer_first: 0x260,
        index_batch_first: 0x264,
        vertex_end_gl: 0x268,
        query_address_high: 0x26c,
        query_get_fence: 0x270,
        query_get_short: 0x274,
    }
}

#[test]
fn draws_have_to_stay_in_range() {
    let mut w = [0; 64];
    w[0] = 2;
    assert!(!is_drawable(&w));
    w[28] = 48;
    assert!(is_drawable(&w));
    w[26] = 1;
    assert!(!is_drawable(&w));
    w[25] = 3;
    assert!(is_drawable(&w));
    w[24] = u32::MAX;
    assert!(!is_drawable(&w));
    w[24] = 0;
    w[29] = 16;
    assert!(!is_drawable(&w));
    w[30] = 16;
    assert!(is_drawable(&w));
    w[17] = u32::MAX;
    w[19] = 1;
    assert!(!is_drawable(&w));
}

#[test]
fn refused_submissions_publish_nothing() {
    let engine = Engine::new();
    let mut bus = Bus::new(&engine);
    let mut queue = Fifo::new(0x8000_0000, 0x8000_1000, 0x8000_2000);
    let mut sequencer = Sequencer::new();
    let first = sequencer.sequence;
    let mut w = [0; 64];
    w[0] = 9;
    let view = Viewport { half_width: 0x4100_0000, half_height: 0x4100_0000 };
    let r = execution::execute(
        &mut bus,
        &mut queue,
        &mut sequencer,
        &methods(),
        &[],
        &vec![w],
        &vec![view],
    );
    assert!(matches!(r, Err(SubmitError::Rejected("unsupported canonical operation"))));
    assert!(engine.stores.borrow().is_empty() && engine.writes.borrow().is_empty());
    assert_eq!(sequencer.sequence, first);
    // A push that nothing retires loses the device.
    w[0] = 1;
    w[10] = 16;
    w[11] = 16;
    w[12] = 256;
    let r = execution::execute(
        &mut bus,
        &mut queue,
        &mut sequencer,
        &methods(),
        &[],
        &vec![w],
        &vec![view],
    );
    assert!(matches!(r, Err(SubmitError::DeviceLost(_))));
    assert_eq!(sequencer.sequence, first + 1);
    assert_eq!(engine.stores.borrow()[0].0, execution::PUSH);
    assert_eq!(engine.cleaned.borrow()[0], execution::PUSH);
}

#[test]
fn demonstrations_stop_where_nothing_can_be_drawn() {
    let engine = Engine::new();
    let mut bus = Bus::new(&engine);
    let mut queue = Fifo::new(0x8000_0000, 0x8000_1000, 0x8000_2000);
    let mut sequencer = Sequencer::new();
    let set = ProbeSet { pipelines: Vec::new(), solid: 1, texture: 2 };
    let r = verify(&mut bus, &mut queue, &mut sequencer, &methods(), &[], &set);
    assert_eq!(r, Err("invalid pipeline variant"));
    let stores = engine.stores.borrow();
    assert_eq!(stores.len(), 1024 + 13 + 5);
    assert!(stores[..1024].iter().all(|s| s.0 == execution::TEXTURE && s.2 == 0xff00_00ff));
    // The short indices share words.
    assert_eq!(engine.load(execution::VERTEX, 0x200), 0xffff_ffff);
    assert_eq!(engine.load(execution::VERTEX, 0x201), 0x0001_0000);
    assert_eq!(engine.load(execution::VERTEX, 0x202), 2);
}

#[test]
fn objects_are_made_and_retired() {
    let engine = Engine::new();
    engine.answers.borrow_mut().insert(0x10_0c80, 0x00ff_8000);
    let mut bus = Bus::new(&engine);
    let mut table = PageTable::new();
    let mut channel = Objects::new();
    let directory = 0x8010_0000;
    let mut make = |channel: &mut Objects, table: &mut PageTable, size: u64, memory| {
        allocate(&mut bus, table, channel, size, Kind::Buffer, memory, directory)
    };
    assert_eq!(
        make(&mut channel, &mut table, 0, Ok(0x9000_0000)),
        Err("GPU object size exceeds address-space budget")
    );
    assert_eq!(make(&mut channel, &mut table, 8192, Err("no pages")), Err("no pages"));
    assert_eq!(channel.allocation_failures, 2);
    assert!(engine.stores.borrow().is_empty());
    assert_eq!(make(&mut channel, &mut table, 8192, Ok(0x9000_0000)), Ok(1));
    assert_eq!(channel.objects[0].memory.va, 0x50_2000);
    assert_eq!(engine.stores.borrow().len(), 4);
    assert_eq!(make(&mut channel, &mut table, 4096, Ok(0x9100_0000)), Ok(2));
    assert_eq!(channel.objects[1].memory.va, 0x50_4000);
    assert_eq!(release_object(&mut bus, &mut table, &mut channel, 0x50_2000, 8192, directory), Ok(()));
    assert_eq!(channel.objects.len(), 1);
    for word in 0..4 {
        assert_eq!(table.word(2 * 0x502 + word), 0);
        assert_eq!(engine.load(TABLE, 2 * 0x502 + word), 0);
    }
    // Memory that the engine cannot reach loses the device, and so it keeps its pages.
    let r = allocate(
        &mut bus,
        &mut table,
        &mut channel,
        4096,
        Kind::Buffer,
        Ok(0x4_0000_0000),
        directory,
    );
    assert_eq!(r, Err("private GPU mapping outside retained address space"));
    assert!(channel.lost);
    let stores = engine.stores.borrow().len();
    assert_eq!(release_object(&mut bus, &mut table, &mut channel, 0x50_4000, 4096, directory), Ok(()));
    assert_eq!(engine.stores.borrow().len(), stores);
    assert_eq!(channel.objects.len(), 1);
}

#[test]
fn invalid_ranges_lose_the_device() {
    let engine = Engine::new();
    let mut bus = Bus::new(&engine);
    let mut table = PageTable::new();
    let mut channel = Objects::new();
    assert_eq!(
        release_object(&mut bus, &mut table, &mut channel, 0x4000, 4096, 0x8010_0000),
        Err("public GPU unmap range invalid")
    );
    assert!(channel.lost);
    let mut channel = Objects::new();
    assert_eq!(
        release_object(&mut bus, &mut table, &mut channel, 0x50_0000, 4096, 0x8010_0000),
        Err("GMMU hardware completion timeout")
    );
    assert!(channel.lost);
}

#[test]
fn rails_take_their_turns() {
    let detect = GpioRef { provider: Some(7), pin: Some(38), flags: Some(1) };
    let enable = GpioRef { provider: Some(7), pin: Some(25), flags: Some(0) };
    let (wiring, provider) = gamepad::probe(&detect, &enable).unwrap();
    let port = Port {
        gpio: TegraGpio { phandle: provider },
        wiring,
        detect: 38,
        enable: 25,
        source: 0x1a0,
    };
    let board = Engine::new();
    let line = Engine::new();
    let mut queue = UartRxInterrupt::new();
    let mut rail = Rail::new(wiring.side);
    let mut pair = Pair::default();
    // Nothing is attached to a rail that nobody looks at.
    let quiet = turn(
        &mut Bus::new(&board),
        &mut Bus::new(&line),
        &port,
        &mut queue,
        &mut rail,
        &mut pair,
        false,
        false,
        1000,
    );
    assert!(!quiet.changed && quiet.snapshots.is_empty() && !rail.detected);
    assert!(board.writes.borrow().is_empty() && line.writes.borrow().is_empty());
    // A line that takes no byte sends the link to rest.
    let found = turn(
        &mut Bus::new(&board),
        &mut Bus::new(&line),
        &port,
        &mut queue,
        &mut rail,
        &mut pair,
        true,
        false,
        1000,
    );
    assert!(found.changed && found.snapshots.is_empty() && rail.detected);
    assert_eq!(rail.link.stage, Stage::Backoff);
    assert!(!board.writes.borrow().is_empty() && !line.writes.borrow().is_empty());
}
