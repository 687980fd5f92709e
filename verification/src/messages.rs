//! Messages between the terminal, control and compute tasks.
use vstd::prelude::*;
use crate::comms::CommsError;
use crate::types::config::Config;

verus! {

/// What the compute task reports of a sector.
#[derive(Clone, Copy, Debug, PartialEq, Eq, Structural)]
pub enum ComputeResMsg {
    Success { sector_uid: u32 },
    ComputeFail { sector_uid: u32 },
}

/// Answers that the control task gives the terminal.
pub enum IntReqMsg {
    BatVoltSuccess { voltage: u32 },
    BatVoltFail,
    /// Chip temperature, as the bit pattern of its `f32` value in °C.
    TempSuccess { temp_bits: u32 },
    TempFail,
    ConstellationState { signal_bars_max: u8, signal_level_max: i8, constellation_visible: bool },
    ConstellationStateFail { error: CommsError },
    GiveConfig { config: Config },
    GiveState { str: heapless::String<2048> },
}

/// Requests that the terminal sends the control task.
pub enum IntResMsg {
    GetBatVolt,
    GetTemp,
    GetConstellationState,
    GetConfig,
    SetConfig { config: Config },
    GetState,
}

} // verus!
