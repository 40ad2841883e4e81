use std::cell::{Cell, RefCell};
use std::collections::{BTreeMap, HashMap};

use switch_drivers::gpu::address_space::{find_fit, insert_mapping, Mapping};
use switch_drivers::gpu::clock::{
    current_rate_khz, initialize, required_voltage, set_rate_khz, RateChangeError, COEFF, MNP,
    REFERENCE_HZ,
};
use switch_drivers::gpu::completion::{cause, Cause, Claim, Completion, FIFO_INTR, MC_INTR_EN_1};
use switch_drivers::gpu::context::{is_idle, units_of};
use switch_drivers::gpu::device;
use switch_drivers::gpu::device::Storage;
use switch_drivers::gpu::fifo::{
    bind_reason, host_commands, reset_enable, BindReason, Fifo, CHANNEL_INST,
};
use switch_drivers::gpu::firmware::{align, range, word, Container};
use switch_drivers::gpu::gmmu::{check_pages, directory_entry, PageTable};
use switch_drivers::gpu::gr::{
    dmem_write, judge, limits_of, message_at, packet, rewinds, wpr_bounds, Queue, Reply,
};
use switch_drivers::gpu::graphics::SubmitError;
use switch_drivers::gpu::hardware;
use switch_drivers::gpu::images::{
    load_rectangle, plan_image, store_rectangle, Bytes, ImagePlan,
};
use switch_drivers::gpu::memory::{
    Format, Image, ImageCreate, ImageLayout, Kind, Memory, Modifier, PlaneLayout, Usage,
};
use switch_drivers::gpu::objects::{Attachments, Objects, COOKIE};
use switch_drivers::gpu::push::{Program, Push, BUDGET_ERROR};
use switch_drivers::gpu::snapshot::{merge_spans, prepare, Span};
use switch_drivers::gpu::submit::{rectangle, Access, Resource};
use switch_drivers::gpu::utilization::UtilizationMonitor;
use switch_drivers::gpu::work::{Refusal, WorkQueue};
use switch_drivers::mmio::{Bus, Dma, Registers, Timed};
use switch_drivers::soc::map::{CAR, PMC};
use switch_drivers::soc::power::{GpuPlatform, GPU_BIT};

/// The processor's registers. The counter follows the post-divider unless it is stuck.
struct Chip {
    registers: RefCell<HashMap<usize, u32>>,
    memory: RefCell<HashMap<(usize, usize), u32>>,
    writes: RefCell<Vec<(usize, u32)>>,
    reads: RefCell<Vec<usize>>,
    stuck: Cell<Option<u32>>,
    time: Cell<u64>,
}

const CFG: usize = 0x13_7000;
const COUNTER: usize = 0x13_4128;

impl Chip {
    fn new(values: &[(usize, u32)]) -> Self {
        Chip {
            registers: RefCell::new(values.iter().cloned().collect()),
            memory: RefCell::new(HashMap::new()),
            writes: RefCell::new(Vec::new()),
            reads: RefCell::new(Vec::new()),
            stuck: Cell::new(None),
            time: Cell::new(0),
        }
    }
}

impl Registers for Chip {
    fn read(&self, offset: usize) -> u32 {
        self.reads.borrow_mut().push(offset);
        let raw = |o: usize| *self.registers.borrow().get(&o).unwrap_or(&0);
        if offset == CFG {
            let value = raw(CFG);
            return if value & 1 != 0 { value | 0x2_0000 } else { value };
        }
        if offset == COUNTER {
            let divider = (raw(COEFF) >> 16) & 0x3f;
            return match self.stuck.get() {
                Some(count) => count,
                None => 19_200u32.checked_div(divider).unwrap_or(0),
            };
        }
        raw(offset)
    }

    fn write(&self, offset: usize, value: u32) {
        self.writes.borrow_mut().push((offset, value));
        self.registers.borrow_mut().insert(offset, value);
    }

    fn now_ns(&self) -> u64 {
        self.time.set(self.time.get() + 1_000);
        self.time.get()
    }

    fn delay_us(&self, us: u64) {
        self.time.set(self.time.get() + us * 1_000);
    }

    fn load(&self, area: usize, word: usize) -> u32 {
        *self.memory.borrow().get(&(area, word)).unwrap_or(&0)
    }

    fn store(&self, area: usize, word: usize, value: u32) {
        self.memory.borrow_mut().insert((area, word), value);
    }

    fn clean(&self, _area: usize) {}

    fn refresh(&self, _area: usize) {}

    fn rest_ns(&self, ns: u64) {
        self.time.set(self.time.get() + ns);
    }
}

impl Timed for Chip {}

impl Dma for Chip {}

fn started() -> Chip {
    let chip = Chip::new(&[(CFG, 2)]);
    assert_eq!(initialize(&mut Bus::new(&chip), REFERENCE_HZ, 1_000_000, Ok(950_000)), Ok(()));
    chip
}

#[test]
fn chips_need_their_voltage() {
    assert_eq!(required_voltage(0x83, 2000, 3), Ok(950_000));
    assert_eq!(required_voltage(0x83, 1, 3), Ok(1_981_250));
    assert_eq!(required_voltage(0x83, 4001, 3), Err("invalid GPU speedo fuse"));
    assert_eq!(
        required_voltage(0x84, 2000, 3),
        Err("fixed GPU PLL currently requires Erista ODN SKU 0x83")
    );
}

#[test]
fn the_pll_starts_at_its_fastest_rate() {
    let chip = started();
    assert_eq!(chip.read(COEFF), MNP);
    assert_eq!(current_rate_khz(&mut Bus::new(&chip), REFERENCE_HZ), Ok(307_200));
    assert_eq!(
        initialize(&mut Bus::new(&chip), 12_000_000, 1_000_000, Ok(950_000)),
        Err("fixed GPU PLL reference or voltage outside validated limits")
    );
    let slow = Chip::new(&[(CFG, 2)]);
    slow.stuck.set(Some(1600));
    assert_eq!(
        initialize(&mut Bus::new(&slow), REFERENCE_HZ, 1_000_000, Ok(950_000)),
        Err("GPU PLL frequency/readback mismatch")
    );
    assert_eq!(slow.read(CFG) & 1, 0);
    let adaptive = Chip::new(&[(0x13_7014, 0x1000_0000)]);
    assert_eq!(
        initialize(&mut Bus::new(&adaptive), REFERENCE_HZ, 1_000_000, Ok(950_000)),
        Err("inherited GPU noise-adaptive PLL is unsupported")
    );
}

#[test]
fn only_the_post_divider_changes() {
    let chip = started();
    let mut bus = Bus::new(&chip);
    assert_eq!(set_rate_khz(&mut bus, REFERENCE_HZ, 153_600), Ok(()));
    assert_eq!(chip.read(COEFF), 0x6_3001);
    assert_eq!(current_rate_khz(&mut bus, REFERENCE_HZ), Ok(153_600));
    assert_eq!(
        set_rate_khz(&mut bus, REFERENCE_HZ, 100_000),
        Err(RateChangeError::Reverted("unsupported GPU OPP"))
    );
    let count = chip.writes.borrow().len();
    assert_eq!(set_rate_khz(&mut bus, REFERENCE_HZ, 153_600), Ok(()));
    assert_eq!(chip.writes.borrow().len(), count);
}

#[test]
fn rates_that_cannot_be_shown_are_taken_back() {
    let chip = started();
    chip.stuck.set(Some(6400));
    let mut bus = Bus::new(&chip);
    assert_eq!(
        set_rate_khz(&mut bus, REFERENCE_HZ, 76_800),
        Err(RateChangeError::Reverted("GPU PLL transition failed; previous rate restored"))
    );
    assert_eq!(chip.read(COEFF), MNP);
    chip.stuck.set(Some(1));
    assert_eq!(
        set_rate_khz(&mut bus, REFERENCE_HZ, 76_800),
        Err(RateChangeError::Unsafe("GPU PLL transition and rollback failed"))
    );
}

#[test]
fn a_clock_out_of_control_loses_the_device() {
    let chip = started();
    let board = Chip::new(&[(CAR + 0x28c, GPU_BIT)]);
    let mut gpu = Bus::new(&chip);
    let mut far = Bus::new(&board);
    let platform = GpuPlatform { reference_hz: REFERENCE_HZ };
    let mut notices = Completion { enabled: true, events: 3 };
    let mut objects = Objects::new();
    let queue = Fifo::new(0x8000_0000, 0x8000_1000, 0x8000_2000);
    let mut set = |objects: &mut Objects, notices: &mut Completion, graphics: bool, khz: u64| {
        device::set_frequency_khz(
            &mut gpu, &mut far, &platform, notices, objects, &queue, graphics, khz,
        )
    };
    assert_eq!(set(&mut objects, &mut notices, false, 76_800), Err("GR missing"));
    assert_eq!(set(&mut objects, &mut notices, true, 76_800), Ok(()));
    assert!(notices.enabled && !objects.lost && board.writes.borrow().is_empty());
    let mut other = Bus::new(&chip);
    assert_eq!(device::current_frequency_khz(&mut other, &objects, REFERENCE_HZ), Ok(76_800));
    chip.stuck.set(Some(1));
    assert_eq!(
        set(&mut objects, &mut notices, true, 307_200),
        Err("GPU PLL transition and rollback failed")
    );
    assert!(objects.lost);
    assert_eq!(notices, Completion { enabled: false, events: 3 });
    assert_eq!(chip.writes.borrow().last(), Some(&(MC_INTR_EN_1, 0)));
    let isolation = vec![(PMC + 0x2d4, 1), (CAR + 0x290, GPU_BIT)];
    assert_eq!(*board.writes.borrow(), isolation);
    assert_eq!(set(&mut objects, &mut notices, true, 307_200), Err("GM20B device lost"));
    assert_eq!(*board.writes.borrow(), isolation);
    assert_eq!(
        device::current_frequency_khz(&mut other, &objects, REFERENCE_HZ),
        Err("GM20B device lost")
    );
    let busy = started();
    busy.write(CHANNEL_INST, 1);
    assert_eq!(
        device::set_frequency_khz(
            &mut Bus::new(&busy),
            &mut Bus::new(&board),
            &platform,
            &mut notices,
            &mut Objects::new(),
            &queue,
            true,
            76_800
        ),
        Err("FIFO channel is not idle")
    );
}

#[test]
fn a_lost_device_is_silenced_and_isolated() {
    let chip = Chip::new(&[]);
    let deaf = Chip::new(&[]);
    let platform = GpuPlatform { reference_hz: REFERENCE_HZ };
    let mut notices = Completion { enabled: true, events: 0 };
    let mut objects = Objects::new();
    let mut gpu = Bus::new(&chip);
    let board = Chip::new(&[(CAR + 0x28c, GPU_BIT)]);
    let mut far = Bus::new(&board);
    assert_eq!(device::fault(&mut gpu, &mut far, &platform, &mut notices, &mut objects), Ok(()));
    assert!(objects.lost && !notices.enabled);
    assert_eq!(*chip.writes.borrow(), vec![(MC_INTR_EN_1, 0)]);
    // Once off, notifications are not turned off again.
    assert_eq!(
        device::fault(&mut gpu, &mut Bus::new(&deaf), &platform, &mut notices, &mut objects),
        Err("GPU isolation readback mismatch")
    );
    assert_eq!(chip.writes.borrow().len(), 1);
    assert_eq!(deaf.writes.borrow().len(), 2);
}

#[test]
fn the_first_register_that_disagrees_ends_the_proof_of_the_rate() {
    let slow = Chip::new(&[(CFG, 2)]);
    slow.stuck.set(Some(1600));
    let failed = Err("GPU PLL frequency/readback mismatch");
    assert_eq!(initialize(&mut Bus::new(&slow), REFERENCE_HZ, 1_000_000, Ok(950_000)), failed);
    let shown = |chip: &Chip| {
        let reads = chip.reads.borrow();
        let at = reads.iter().position(|o| *o == COEFF).unwrap();
        reads[at + 1]
    };
    // The counter disagrees, so the registers are all asked.
    assert_eq!(shown(&slow), CFG);
    let wrong = Wrong(Chip::new(&[(CFG, 2)]));
    assert_eq!(initialize(&mut Bus::new(&wrong), REFERENCE_HZ, 1_000_000, Ok(950_000)), failed);
    assert_ne!(shown(&wrong.0), CFG);
}

/// A chip that loses its coefficients.
struct Wrong(Chip);

impl Registers for Wrong {
    fn read(&self, offset: usize) -> u32 {
        let value = self.0.read(offset);
        if offset == COEFF {
            0
        } else {
            value
        }
    }

    fn write(&self, offset: usize, value: u32) {
        self.0.write(offset, value);
    }

    fn now_ns(&self) -> u64 {
        self.0.now_ns()
    }

    fn delay_us(&self, us: u64) {
        self.0.delay_us(us);
    }
}

impl Timed for Wrong {}

#[test]
fn clocks_are_counted_over_the_reference() {
    let chip = Chip::new(&[]);
    chip.stuck.set(Some(6400));
    assert_eq!(
        hardware::measure_clock(&mut Bus::new(&chip), REFERENCE_HZ),
        Some(307_200_000)
    );
    chip.stuck.set(Some(0));
    assert_eq!(hardware::measure_clock(&mut Bus::new(&chip), REFERENCE_HZ), None);
}

#[test]
fn memory_needs_partitions() {
    let none = Chip::new(&[]);
    assert_eq!(
        hardware::initialize_memory(&mut Bus::new(&none)),
        Err("GPU PRIV ring enumerated no readable LTC")
    );
    assert_eq!(none.writes.borrow().len(), 13);
    let two = Chip::new(&[(0x12_006c, 2), (0x14_0518, 0x40), (0x2_1434, 1)]);
    assert_eq!(hardware::initialize_memory(&mut Bus::new(&two)), Ok(()));
    assert_eq!(two.writes.borrow()[13..].to_vec(), vec![
        (0x17_e27c, 2),
        (0x17_e000, 2),
        (0x10_0800, 2),
        (0x17_e318, 0x8040),
    ]);
    let open = Chip::new(&[(0x12_006c, 1)]);
    assert_eq!(hardware::initialize_memory(&mut Bus::new(&open)), Ok(()));
    assert_eq!(*open.writes.borrow().last().unwrap(), (0x10_0ce4, u32::MAX));
}

#[test]
fn the_ring_has_to_answer() {
    let silent = Chip::new(&[(0x13_7100, u32::MAX)]);
    assert_eq!(
        hardware::initialize(&mut Bus::new(&silent)),
        Err("GPU clock register returned all ones")
    );
    assert!(silent.writes.borrow().is_empty());
    let chip = Chip::new(&[]);
    assert_eq!(hardware::initialize(&mut Bus::new(&chip)), Ok(()));
    assert_eq!(chip.writes.borrow().len(), 14);
}

#[test]
fn the_queue_resets_with_its_runlist() {
    let chip = Chip::new(&[]);
    assert_eq!(
        reset_enable(&mut Bus::new(&chip), REFERENCE_HZ),
        Err("FIFO PBDMA0 does not service runlist zero")
    );
    let dead = Chip::new(&[(0x200, u32::MAX)]);
    assert_eq!(
        reset_enable(&mut Bus::new(&dead), REFERENCE_HZ),
        Err("FIFO enable register returned all ones")
    );
}

#[test]
fn the_queue_knows_when_it_rests() {
    let queue = Fifo::new(0x8000_0000, 0x8000_1000, 0x8000_2000);
    assert_eq!(queue.judge_idle(0, 3, 3, 0, 0), Ok(()));
    assert_eq!(queue.judge_idle(0, 2, 3, 0, 0), Err("FIFO channel is not idle"));
    assert_eq!(queue.judge_idle(1, 3, 3, 0, 0), Err("FIFO channel is not idle"));
    assert_eq!(host_commands(7), [0x2004_0004, 0, 0x6000, 7, 0x0110_0002, 0x2001_0014, 7]);
    assert_eq!(bind_reason(0), BindReason::Nothing);
    assert_eq!(is_idle(0, 0x1000, 0x8000, 0), Some(false));
    assert_eq!(is_idle(0, 0x1000, 0, 0), Some(true));
    assert_eq!(is_idle(u32::MAX, 0, 0, 0), None);
    assert_eq!(units_of(9, 9, 9), None);
}

#[test]
fn the_first_free_place_is_taken() {
    let mut retained = Vec::new();
    assert_eq!(find_fit(&retained, 0x1000, 4096), 0x50_2000);
    insert_mapping(&mut retained, Mapping { va: 0x50_2000, size: 0x1000 });
    insert_mapping(&mut retained, Mapping { va: 0x50_5000, size: 0x1000 });
    assert_eq!(find_fit(&retained, 0x2000, 4096), 0x50_3000);
    assert_eq!(find_fit(&retained, 0x3000, 4096), 0x50_6000);
    assert_eq!(find_fit(&retained, 0x1000, 8192), 0x50_4000);
}

#[test]
fn pages_are_mapped_and_unmapped() {
    let mut table = PageTable::new();
    assert_eq!(table.map_private(0x60_0000, 0x8000_0000, 2, false, 0xfe), Ok(()));
    assert_eq!(table.word(2 * 0x600), 0x80_0001);
    assert_eq!(table.word(2 * 0x600 + 1), 0xfe8);
    assert_eq!(table.word(2 * 0x601), 0x80_0011);
    assert_eq!(
        table.map_private(0x60_1000, 0x9000_0000, 1, false, 0),
        Err("private GPU mapping would replace a valid PTE")
    );
    assert_eq!(table.unmap(0x60_0000, 2), Ok(()));
    assert_eq!(table.word(2 * 0x600), 0);
    assert_eq!(table.word(2 * 0x601 + 1), 0);
    assert_eq!(table.unmap(0x1000, 1), Err("public GPU unmap range invalid"));
    assert_eq!(
        check_pages(0x4_0000_0000, 1, true),
        Err("GMMU aligned allocation overlaps Tegra IOMMU selector")
    );
    assert_eq!(check_pages(0x8000_0000, 1, false), Ok(()));
    assert_eq!(directory_entry(0x8000_0000, 1), 0x80_0205);
}

#[test]
fn objects_live_until_they_are_retired() {
    let mut channel = Objects::new();
    let place = channel.place(0x1800, &Kind::Buffer).unwrap();
    assert_eq!((place.va, place.pages, place.alignment, place.page_kind), (0x50_2000, 2, 4096, 0));
    let object = channel.reserve(place.va, 0x1800, Kind::Buffer).unwrap();
    assert_eq!(object.id, 1);
    channel.publish(object);
    let mut attached = Attachments::new();
    assert_eq!(attached.attach(&mut channel, 1, COOKIE), Ok(1));
    assert_eq!(attached.attach(&mut channel, 1, 0), Err("foreign GM20B resource"));
    assert_eq!(attached.attach(&mut channel, 2, COOKIE), Err("GM20B resource expired"));
    assert_eq!(attached.image(1, COOKIE).unwrap().va, 0x50_2000);
    assert_eq!(attached.detach(1, COOKIE), Ok(()));
    assert_eq!(attached.image(1, COOKIE).err(), Some("GM20B image not attached"));
    assert_eq!(channel.release(0x50_2000, 0x1800), Ok(Some((0x50_2000, 2))));
    channel.retire(0x50_2000);
    assert!(channel.retained.is_empty() && channel.objects.is_empty());
    assert_eq!(
        channel.place(0, &Kind::Buffer).err(),
        Some("GPU object size exceeds address-space budget")
    );
    channel.fault();
    assert_eq!(channel.place(1, &Kind::Buffer).err(), Some("GM20B device lost"));
    assert_eq!(channel.release(0x50_2000, 1), Ok(None));
}

fn usage(presentable: bool) -> Usage {
    Usage {
        sampled: false,
        render_target: true,
        transfer_src: false,
        transfer_dst: false,
        depth_stencil: false,
        presentable,
        depth_compatible: false,
        other: false,
    }
}

fn create(width: u32, height: u32) -> ImageCreate {
    ImageCreate {
        format: Format::Bgra8Unorm,
        usage: usage(true),
        width,
        height,
        mip_levels: 1,
        array_layers: 1,
        cube: false,
    }
}

#[test]
fn images_get_their_storage() {
    assert_eq!(plan_image(&create(100, 50)), Ok(ImagePlan::Linear(512)));
    let layout = match plan_image(&create(1280, 720)) {
        Ok(ImagePlan::Blocks(layout)) => layout,
        other => panic!("{:?}", other),
    };
    assert_eq!(layout.luma.row_pitch, 5120);
    assert_eq!(layout.total_size, 5120 * 768);
    assert_eq!(layout.modifier, Modifier::BlockLinear);
    assert_eq!(
        plan_image(&create(0, 1)),
        Err("GM20B requires single-level BGRA8 or ZF32 2D images")
    );
    let storage = Storage { layout, contiguous: true, allocation_size: layout.total_size };
    assert_eq!(device::check_storage(Ok(layout), &storage), Ok(()));
    let short = Storage { allocation_size: layout.total_size - 1, ..storage };
    assert_eq!(
        device::check_storage(Ok(layout), &short),
        Err("GM20B image backing/layout mismatch")
    );
    let split = Storage { contiguous: false, ..storage };
    assert!(device::check_storage(Ok(layout), &split).is_err());
    assert_eq!(device::check_storage(Err("no plan"), &storage), Err("no plan"));
}

#[test]
fn only_presentable_images_are_shown() {
    let layout = ImageLayout {
        modifier: Modifier::BlockLinear,
        total_size: 5120 * 768,
        alignment: 4096,
        plane_count: 1,
        luma: PlaneLayout { row_pitch: 5120, ..PlaneLayout::empty() },
        chroma: PlaneLayout::empty(),
    };
    let image = Image { create: create(1280, 720), layout };
    let shown = device::display_resource(&Memory { va: 0, size: 0, kind: Kind::Image(image) });
    let shown = shown.unwrap();
    assert_eq!((shown.width, shown.height, shown.stride, shown.blocks), (1280, 720, 5120, true));
    let hidden = Image { create: ImageCreate { usage: usage(false), ..image.create }, layout };
    assert!(device::display_resource(&Memory { va: 0, size: 0, kind: Kind::Image(hidden) }).is_none());
    assert!(device::display_resource(&Memory { va: 0, size: 0, kind: Kind::Buffer }).is_none());
}

#[test]
fn contexts_speak_one_language() {
    let mut objects = Objects::new();
    let token = device::query_dialect(0).unwrap();
    assert_eq!(device::query_dialect(1), Err("unknown GM20B dialect"));
    assert_eq!(device::check_context(&objects, 0, token), Ok(()));
    assert_eq!(
        device::check_context(&objects, 0, token + 1),
        Err("invalid GM20B dialect token")
    );
    objects.fault();
    assert_eq!(device::check_context(&objects, 0, token), Err("GM20B device lost"));
}

#[test]
fn a_lost_device_stays_lost() {
    let mut objects = Objects::new();
    assert!(matches!(device::is_due(&objects, 0), Ok(false)));
    assert!(matches!(device::is_due(&objects, 3), Ok(true)));
    assert!(device::conclude(&mut objects, Err(SubmitError::Rejected("bad"))).is_err());
    assert!(!objects.lost);
    assert!(device::conclude(&mut objects, Err(SubmitError::DeviceLost("gone"))).is_err());
    assert!(objects.lost);
    assert!(device::conclude(&mut objects, Ok(())).is_ok());
    assert!(objects.lost);
    assert!(matches!(
        device::is_due(&objects, 0),
        Err(SubmitError::DeviceLost("GM20B device lost"))
    ));
}

#[test]
fn stored_rectangles_are_loaded_again() {
    let (pitch, rows) = (64usize, 128usize);
    let linear: Vec<u8> = (0..pitch * rows).map(|i| (i % 251) as u8).collect();
    let mut blocks = vec![0u8; pitch * rows];
    let part = Bytes { left: 4, right: 40, top: 3, bottom: 100 };
    store_rectangle(&linear, &mut blocks, part, pitch, rows);
    let mut back = vec![0u8; pitch * rows];
    load_rectangle(&mut back, &blocks, part, pitch, rows);
    for y in 0..rows {
        for x in 0..pitch {
            let inside = (4..40).contains(&x) && (3..100).contains(&y);
            let expected = if inside { linear[y * pitch + x] } else { 0 };
            assert_eq!(back[y * pitch + x], expected);
        }
    }
}

#[test]
fn spans_are_merged_where_they_meet() {
    let span = |va: u64, start: u64, end: u64| Span { va, start, end };
    let merged = merge_spans(&vec![span(2, 0, 4), span(1, 8, 12), span(1, 0, 8), span(1, 20, 24)]);
    let shown: Vec<(u64, u64, u64)> = merged.iter().map(|s| (s.va, s.start, s.end)).collect();
    assert_eq!(shown, vec![(1, 0, 12), (1, 20, 24), (2, 0, 4)]);
}

#[test]
fn snapshots_hold_what_was_declared() {
    let mut attached = BTreeMap::new();
    attached.insert(1u64, Memory { va: 0x50_2000, size: 64, kind: Kind::Buffer });
    let access = Access { read: true, write: true };
    let resource = |token: u64, offset: u64, size: u64| Resource {
        attachment_token: token,
        range_offset: offset,
        range_size: size,
        access,
    };
    let prepared = prepare(&vec![resource(1, 0, 32), resource(1, 16, 32)], &attached).unwrap();
    assert_eq!(prepared.buffers.len(), 1);
    assert_eq!(prepared.buffers[0].end, 48);
    assert_eq!(prepared.writes.len(), 2);
    let error = |r: Resource| prepare(&vec![r], &attached).err();
    assert_eq!(error(resource(2, 0, 1)), Some("unauthorized attachment"));
    assert_eq!(error(resource(1, u64::MAX, 1)), Some("resource range overflow"));
    assert_eq!(error(resource(1, 60, 8)), Some("resource range exceeds attachment"));
}

#[test]
fn work_leaves_in_the_order_it_came() {
    let mut queue: WorkQueue<u32, &'static str> = WorkQueue::new();
    for item in 0..8 {
        assert!(queue.admission().is_ok());
        queue.accept(item);
    }
    assert!(matches!(queue.admission(), Err(Refusal::Busy)));
    assert_eq!(queue.next(), Some((0, None)));
    assert_eq!(queue.drained(), Ok(false));
    queue.settle(None);
    assert!(queue.admission().is_ok());
    assert_eq!(queue.reserve(), Ok(true));
    assert_eq!(queue.reserve(), Ok(false));
    assert!(matches!(queue.admission(), Err(Refusal::Busy)));
    queue.release();
    assert_eq!(queue.next(), Some((1, None)));
    queue.settle(Some("gone"));
    assert!(matches!(queue.admission(), Err(Refusal::Failed("gone"))));
    assert_eq!(queue.next(), Some((2, Some("gone"))));
    assert_eq!(queue.drained(), Err("GM20B device lost"));
}

#[test]
fn samples_are_fractions_of_the_time() {
    let mut monitor = UtilizationMonitor { busy: 0x7fff_fff0, total: 0 };
    let sample = monitor.observe(0x10, 0x100).unwrap();
    assert_eq!((sample.busy, sample.total), (0x20, 0x100));
    let sample = monitor.observe(0x10 + 0x300, 0x300).unwrap();
    assert_eq!((sample.busy, sample.total), (0x200, 0x200));
    assert_eq!(monitor.observe(0x310, 0x300).err(), Some("GM20B PMU activity sample invalid"));
    assert_eq!(
        monitor.observe(u32::MAX, 0).err(),
        Some("GM20B PMU activity counter read failed")
    );
    let chip = Chip::new(&[(0x10_a51c, u32::MAX)]);
    assert_eq!(
        UtilizationMonitor::new(&mut Bus::new(&chip)).err(),
        Some("GM20B PMU activity counters inaccessible")
    );
}

#[test]
fn commands_are_packed_with_their_header() {
    let mut push = Push::new();
    assert_eq!(push.one(0x1000, 7), Ok(()));
    assert_eq!(push.address(0x2000, 0x1_0000_0002), Ok(()));
    assert_eq!(push.words, vec![0x2001_0400, 7, 0x2002_0800, 1, 2]);
    assert_eq!(push.one(0x1001, 7), Err(BUDGET_ERROR));
    assert_eq!(push.words.len(), 5);
    let mut program = Program::new();
    program.one(0x1000, 7);
    program.address(0x2000, 0x1_0000_0002);
    let mut again = Push::new();
    assert_eq!(again.emit(&program), Ok(()));
    assert_eq!(again.words, push.words);
    assert_eq!(rectangle(0, 0, 4, 4, 4, 4), Ok(()));
    assert!(rectangle(1, 0, 4, 4, 4, 4).is_err());
}

#[test]
fn notifications_are_acknowledged_alone() {
    assert_eq!(cause(0, 0), Cause::Foreign);
    assert_eq!(cause(u32::MAX, 0), Cause::Dead);
    let chip = Chip::new(&[(FIFO_INTR, 0x8000_0000)]);
    let mut bus = Bus::new(&chip);
    let mut completion = Completion::new();
    assert!(matches!(completion.claim_interrupt(&mut bus), Claim::Handled));
    assert_eq!(completion.events(), 0);
    completion.enabled = true;
    assert!(matches!(completion.claim_interrupt(&mut bus), Claim::Handled));
    assert_eq!(completion.events(), 1);
    assert_eq!(*chip.writes.borrow(), vec![(FIFO_INTR, 0x8000_0000)]);
}

#[test]
fn containers_hold_a_range_of_themselves() {
    let mut bytes = Vec::new();
    for value in [0x3b1d_14f0u32, 1, 0, 24, 24, 4, 0x1234_5678] {
        bytes.extend_from_slice(&value.to_le_bytes());
    }
    let container = Container::parse(&bytes).unwrap();
    assert_eq!(container.header, 24);
    assert_eq!(container.data, &[0x78, 0x56, 0x34, 0x12]);
    assert_eq!(word(&bytes, 24), Ok(0x1234_5678));
    assert!(word(&bytes, 25).is_err());
    assert!(range(&bytes, 26, 4).is_err());
    assert_eq!(align(257, 256), 512);
    bytes[0] = 0;
    assert_eq!(Container::parse(&bytes).err(), Some("unsupported NVIDIA firmware container"));
    bytes[0] = 0xf0;
    bytes[8] = 1;
    assert_eq!(Container::parse(&bytes).err(), Some("NVIDIA firmware container length invalid"));
}

#[test]
fn answers_belong_to_their_command() {
    assert_eq!(packet(0, 5, 0x0102_0304)[8..12], [4, 3, 2, 1]);
    let mut reply = vec![0x0a, 12, 0, 5, 1, 0, 0, 0, 4, 3, 2, 1];
    assert_eq!(judge(&reply, 1, 5, 0x0102_0304), Reply::Done);
    assert_eq!(judge(&reply, 1, 6, 0x0102_0304), Reply::Other);
    assert_eq!(judge(&reply, 1, 5, 0), Reply::Failed("PMU ACR command failed"));
    assert_eq!(judge(&reply, 0, 5, 0), Reply::Failed("PMU ACR response format invalid"));
    reply.push(0);
    assert_eq!(
        judge(&reply, 1, 5, 0x0102_0304),
        Reply::Failed("PMU ACR response format invalid")
    );
}

#[test]
fn commands_stay_in_their_queue() {
    let queue = Queue { offset: 0x100, size: 0x40, head: 0, tail: 4 };
    assert_eq!(message_at(&queue, 0x120, 0x110), Ok((0x110, 0x10)));
    assert_eq!(message_at(&queue, 0x108, 0x130), Ok((0x100, 8)));
    assert_eq!(message_at(&queue, 0x112, 0x110), Err("PMU response header truncated"));
    assert_eq!(
        message_at(&queue, 0x141, 0x110),
        Err("PMU message queue pointer outside DMEM queue")
    );
    assert_eq!(rewinds(&queue, 0x130, 0x110), Ok(true));
    assert_eq!(rewinds(&queue, 0x110, 0x110), Ok(false));
    assert_eq!(rewinds(&queue, 0x13e, 0x110), Err("PMU queue cannot hold rewind header"));
    assert_eq!(wpr_bounds(0x8000, 0x8100), Ok((0x80_0000, 0x83_0000)));
    assert_eq!(
        wpr_bounds(0, 0x8100),
        Err("GR needs a valid firmware-owned Tegra WPR reservation")
    );
    assert_eq!(limits_of(0x0404), Ok((0x400, 0x200)));
    assert_eq!(limits_of(u32::MAX), Err("Falcon SRAM geometry unreadable"));
}

#[test]
fn data_stays_in_the_small_memory() {
    let chip = Chip::new(&[]);
    let mut bus = Bus::new(&chip);
    assert_eq!(dmem_write(&mut bus, 0x1000, 8, &[1, 2, 3, 4, 5], 0x100), Ok(()));
    assert_eq!(
        *chip.writes.borrow(),
        vec![(0x11c0, 0x0100_0008), (0x11c4, 0x0403_0201), (0x11c4, 5)]
    );
    assert_eq!(
        dmem_write(&mut bus, 0x1000, 0xfc, &[1, 2, 3, 4, 5], 0x100),
        Err("Falcon DMEM write outside SRAM")
    );
}
