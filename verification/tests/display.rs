use std::cell::{Cell, RefCell};
use std::collections::HashMap;

use switch_drivers::display::adoption::{check_node, check_surroundings, inspect};
use switch_drivers::display::block_linear::{pixel_offset, upload, SIZE};
use switch_drivers::display::composer::{configuration, Vic};
use switch_drivers::display::presentation::{
    check_storage, gpu_scanout, rotate, validate_config, validate_region, Backing, DisplayRegion,
    FramebufferConfig, State,
};
use switch_drivers::display::scanout::{color_depth, flip, Flip, Original, PixelFormat};
use switch_drivers::mmio::{Bus, Dma, Registers, Timed};
use switch_drivers::soc::power::VicPlatform;

struct Panel {
    registers: RefCell<HashMap<usize, u32>>,
    writes: RefCell<Vec<(usize, u32)>>,
    time: Cell<u64>,
}

impl Panel {
    fn new(values: &[(usize, u32)]) -> Self {
        Panel {
            registers: RefCell::new(values.iter().cloned().collect()),
            writes: RefCell::new(Vec::new()),
            time: Cell::new(0),
        }
    }
}

impl Registers for Panel {
    fn read(&self, offset: usize) -> u32 {
        *self.registers.borrow().get(&offset).unwrap_or(&0)
    }

    fn write(&self, offset: usize, value: u32) {
        self.writes.borrow_mut().push((offset, value));
        self.registers.borrow_mut().insert(offset, value);
    }

    fn now_ns(&self) -> u64 {
        self.time.set(self.time.get() + 1_000_000);
        self.time.get()
    }

    fn delay_us(&self, us: u64) {
        self.time.set(self.time.get() + us * 1_000);
    }

    fn load(&self, _area: usize, _word: usize) -> u32 {
        0
    }

    fn store(&self, _area: usize, _word: usize, _value: u32) {}

    fn clean(&self, _area: usize) {}

    fn refresh(&self, _area: usize) {}

    fn rest_ns(&self, _ns: u64) {}
}

impl Timed for Panel {}

impl Dma for Panel {}

#[test]
fn compositions_fill_the_panel() {
    let words = configuration(5120, PixelFormat::BGRA8888).unwrap();
    assert_eq!(words[3], 1279 << 16 | 719 << 48);
    assert_eq!(words[27], 1279 | 719 << 14);
    assert_eq!(words[26] & 0x7f, 36);
    assert_eq!(configuration(5120, PixelFormat::RGBA8888).unwrap()[26] & 0x7f, 35);
    assert_eq!(configuration(5056, PixelFormat::BGRA8888).err(), Some("unsupported VIC input pitch"));
    assert_eq!(
        configuration(5120, PixelFormat::Other).err(),
        Some("VIC requires a packed 32-bit RGB image")
    );
    let platform = VicPlatform { original_source: 0, original_power: true, inherited_live: false };
    let idle = Vic { platform, parameters: 0, area: 0, claimed: false, isolated: false };
    let panel = Panel::new(&[]);
    let mut bus = Bus::new(&panel);
    assert_eq!(
        idle.compose(&mut bus, 0, 0, 5120, PixelFormat::BGRA8888).err(),
        Some("VIC is inactive")
    );
    let live = Vic { claimed: true, ..idle };
    assert_eq!(
        live.compose(&mut bus, 1, 0, 5120, PixelFormat::BGRA8888).err(),
        Some("VIC image exceeds physical DMA alignment/range")
    );
    assert!(panel.writes.borrow().is_empty());
    assert!(live.compose(&mut bus, 0x100, 0x200, 5120, PixelFormat::BGRA8888).is_ok());
}

#[test]
fn bytes_arrive_at_their_offsets() {
    let stride = 5120usize;
    let input: Vec<u8> = (0..stride * 720).map(|i| (i % 253) as u8).collect();
    let mut output = vec![0u8; SIZE];
    assert_eq!(upload(&input, stride, &mut output), Ok(()));
    for (x, y) in [(0usize, 0usize), (1279, 719), (17, 130), (640, 9)] {
        let from = y * stride + 4 * x;
        let to = pixel_offset(x, y);
        assert_eq!(output[to..to + 4], input[from..from + 4]);
    }
    assert_eq!(check_storage(&input, stride, &output), Ok(()));
    output[pixel_offset(0, 0)] ^= 1;
    assert_eq!(
        check_storage(&input, stride, &output),
        Err("Tegra DC block-linear storage differs from ready source")
    );
    assert!(upload(&input[1..], stride, &mut output).is_err());
}

#[test]
fn rotation_loses_no_pixel() {
    let boot: Vec<u32> = (0..921_600).collect();
    let mut image = vec![0u32; 921_600];
    rotate(&boot, &mut image);
    assert_eq!(image[0], 1279 * 720);
    assert_eq!(image[1279], 0);
    assert_eq!(image[719 * 1280], 1279 * 720 + 719);
    image.sort_unstable();
    assert_eq!(image, boot);
}

#[test]
fn buffers_take_turns() {
    let mut state = State::new();
    assert_eq!(state.back(), 1);
    let config =
        FramebufferConfig { width: 1280, height: 720, stride: 5120, format: PixelFormat::BGRA8888 };
    let region = DisplayRegion { x: 0, y: 0, width: 1280, height: 720 };
    assert_eq!(state.choose_framebuffer(&config, region, 0x2000, &[0x1000, 0x2000]), Ok(1));
    assert_eq!(
        state.choose_framebuffer(&config, region, 0x1000, &[0x1000, 0x2000]),
        Err("Tegra DC backing is not the current back buffer")
    );
    assert_eq!(state.begin_buffer(1), Ok(0));
    assert_eq!(state.begin_buffer(2), Err("invalid Tegra DC scanout buffer"));
    state.finish_buffer(1, true);
    assert_eq!((state.back(), state.front_scanout_buffer()), (0, Some(1)));
    assert_eq!(
        state.choose_buffer(1, &vec![region]),
        Err("Tegra DC buffer is the current presentation source")
    );
    assert_eq!(state.begin_gpu(9), Ok(1));
    state.finish_gpu(true, true);
    assert_eq!(state.gpu_front, Some(9));
    assert_eq!(state.front_scanout_buffer(), None);
    state.finish_buffer(0, false);
    assert_eq!(state.begin_buffer(0), Err("Tegra DC display is lost"));
    assert_eq!(state.begin_gpu(3), Err("Tegra DC display is lost"));
}

#[test]
fn layouts_have_to_fit() {
    let config =
        FramebufferConfig { width: 1280, height: 721, stride: 5120, format: PixelFormat::BGRA8888 };
    assert_eq!(validate_config(&config), Err("Tegra DC framebuffer layout mismatch"));
    let region = DisplayRegion { x: 1, y: 0, width: 1280, height: 1 };
    assert_eq!(validate_region(region), Err("Tegra DC damage region exceeds image"));
    assert_eq!(color_depth(PixelFormat::XRGB8888), Some(12));
    assert_eq!(color_depth(PixelFormat::Other), None);
    let linear = Backing::Linear {
        segments: 1,
        stride: 5120,
        size: 5120 * 720,
        address: 0x1000,
        format: PixelFormat::BGRA8888,
    };
    assert!(!gpu_scanout(linear, 1280, 720).unwrap().direct);
    assert_eq!(
        gpu_scanout(linear, 1280, 719).err(),
        Some("unsupported Tegra DC GPU scanout layout")
    );
    assert_eq!(
        gpu_scanout(Backing::Absent, 1280, 720).err(),
        Some("Tegra DC requires GPU backing")
    );
    assert!(check_surroundings(0, 0, 0, 0).is_err());
    assert!(check_node(None, 0, None).is_err());
}

#[test]
fn a_pending_update_is_not_taken_over() {
    let panel = Panel::new(&[(0x41, 1)]);
    assert_eq!(
        inspect(&mut Bus::new(&panel)).err(),
        Some("inherited Tegra DC has a pending update")
    );
    assert!(panel.writes.borrow().is_empty());
    let panel = Panel::new(&[(0x40, 3), (0x42, 5)]);
    assert!(inspect(&mut Bus::new(&panel)).is_ok());
    assert_eq!(panel.read(0x40), 3);
    assert_eq!(panel.read(0x42), 5);
}

#[test]
fn a_flip_that_never_retires_is_told() {
    let original = Original {
        window: [0; 24],
        kind: 0,
        console_window: [0; 24],
        console_kind: 0,
        priority: 0,
        timer: 0,
        activation: 0,
        event_enable: 0,
        event_mask: 0,
    };
    let panel = Panel::new(&[(0x40, 3), (0x42, 5)]);
    let mut state = Flip { pending: false, complete: false };
    let mut bus = Bus::new(&panel);
    assert_eq!(
        flip(&mut bus, &mut state, &original, 0x1000, PixelFormat::BGRA8888, false),
        Err("Tegra DC activation/vblank timeout")
    );
    assert_eq!(panel.read(0x40), 3);
    assert_eq!(panel.read(0x42), 5);
    assert_eq!(
        flip(&mut bus, &mut state, &original, 0x1000, PixelFormat::Other, false),
        Err("Tegra DC requires a 32-bit RGB image")
    );
}
