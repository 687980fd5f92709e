//! Record types of the firmware and their byte layouts.
pub mod event;
pub mod config;
pub mod sector;
pub mod measurement;

use vstd::prelude::*;

verus! {

/// Seconds in a day; times of day run from 0 to this bound, excluded.
pub const SECONDS_PER_DAY: u32 = 86400;

/// Most sectors that the sector list holds.
pub const MAX_SECTORS: usize = 96;

/// Flash size in bytes.
pub const FLASH_SIZE: usize = 4 * 1024 * 1024;
/// Size of an erasable flash block.
pub const BLOCK_SIZE: usize = 4096;
/// Number of storage containers.
pub const NUM_CONTAINERS: usize = 51;
/// Blocks per container.
pub const NUM_CONTAINER_BLOCKS: usize = 15;
/// Bytes per container.
pub const CONTAINER_SIZE: usize = NUM_CONTAINER_BLOCKS * BLOCK_SIZE;
/// Bytes of flash given to the containers.
pub const USABLE_SIZE: usize = NUM_CONTAINERS * CONTAINER_SIZE;
/// Flash-relative address of the first container.
pub const START_ADDRESS: u32 = 0x100000 - CONTAINER_SIZE as u32;

/// Number of bin containers.
pub const NUM_BINS: usize = 50;
/// First bin container.
pub const BINS_CONTAINER_START: usize = 0;
/// Number of measurement slots.
pub const NUM_MEASUREMENTS: usize = NUM_CONTAINER_BLOCKS;
/// Container of the measurements.
pub const MEASUREMENTS_CONTAINER_START: usize = 50;
/// Container of the sector list.
pub const SECTOR_CONTAINER_START: usize = 51;
/// Block of the sector list in its container.
pub const SECTOR_BLOCK_START: usize = 0;
/// Container of the configuration.
pub const CONFIG_CONTAINER_START: usize = 51;
/// Block of the configuration in its container.
pub const CONFIG_BLOCK_START: usize = 1;
/// Container of the event log.
pub const EVENTLOG_CONTAINER_START: usize = 51;
/// Block of the event log in its container.
pub const EVENTLOG_BLOCK_START: usize = 2;

/// Samples per burst.
pub const BURST_SIZE: usize = 64;
/// Bursts per bin.
pub const BIN_BURST_SIZE: usize = 240;
/// Bytes reserved for one stored measurement.
pub const MEASUREMENT_STORAGE_SIZE: usize = BLOCK_SIZE;
/// Seconds of GNSS warm-up.
pub const WARMUP_TIME: u32 = 30;
/// Most sector mid times in a configuration.
pub const MAX_MIDPOINTS: usize = 128;

/// Header of the event log: magic and count.
pub const EVENTS_HEADER_SIZE: usize = 4 + 4;
/// Most events the log keeps.
pub const MAX_EVENTS: usize = 32;
/// Bytes of one encoded event.
pub const EVENT_SIZE: usize = 9;
/// Bytes of the encoded event log.
pub const EVENTLOG_SIZE: usize = EVENTS_HEADER_SIZE + (MAX_EVENTS * EVENT_SIZE);

} // verus!
