//! Verified core of the TAHMO water-level monitor firmware: the record formats
//! that go to flash and over the air, the sector bookkeeping that drives the
//! measurement cycle, calendar and clock arithmetic, and the decision logic of
//! the control, comms, monitor and terminal tasks.
pub mod bytes;
pub mod hvec;
pub mod text;
pub mod types;
pub mod utils;
pub mod realtime;
pub mod control;
pub mod comms;
pub mod monitor;
pub mod storage;
pub mod messages;
pub mod interface;
