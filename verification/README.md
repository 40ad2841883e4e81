# switch_drivers

Drivers for a Tegra X1 handheld, written in Verus: audio, processor frequency, display,
graphics, controllers, touch screen, memory card, power, random numbers, clock and the
chip's own buses.

- `src/` is the verified library. Hardware is reached through small traits
  (`mmio::Registers`, `Timed` and `Dma`, `i2c::Chips` and the like); a `Bus` records every
  access, and contracts speak of that record: which registers are written, in which order,
  and how the answer depends on what was read. What a record shows is what the trait's
  methods did and answered when they were called; type invariants and contracts say so.
  Public proof functions state what holds of several functions together.
- `tests/` runs the library against simulated devices.
- `app/` is ordinary Rust: the traits over volatile memory and the services of an operating
  system, and the order in which the parts run.

The device tree is read with the `fdt` crate, behind three functions in
`src/devicetree.rs` whose contracts are taken on trust.
