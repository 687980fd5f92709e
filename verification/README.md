# control

Firmware core of the TAHMO water-level monitor (GNSS interferometric
reflectometry on a Raspberry Pi Pico 2), as a verified Verus library.

- `src/` is the library, verified with Verus: the flash and uplink record
  formats with their round-trip laws (`types/`, `comms.rs`), the sector
  bookkeeping and the decisions of the control task (`control.rs`), the real
  clock and calendar arithmetic (`realtime.rs`, `utils.rs`), the charger
  monitor (`monitor.rs`), the flash layout (`storage.rs`) and the USB terminal
  (`interface.rs`). Device readings (the clock, pins) are passed in as plain
  values; real-valued settings are held as `f32` bit patterns.
  `hvec.rs` and `text.rs` state what the library relies on of `heapless`.
- `tests/` exercises the library on concrete values.
- `app/` is the firmware glue on `embassy`: peripherals, tasks, USB I/O and the
  floating-point conversions.
