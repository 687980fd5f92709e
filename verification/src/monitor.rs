//! Battery charge state: how the charger's status pins read, and how long the
//! charger spent in each state since the last reset.
use vstd::prelude::*;

verus! {

/// State of the battery charger.
#[derive(Clone, Copy, Debug, PartialEq, Eq, Structural)]
pub enum ChargeState {
    Unknown,
    /// Status pin blinking: charging is blocked.
    Fault,
    /// Power-good pin high: no input power.
    NoInput,
    /// Power-good low, status low: charging.
    Charging,
    /// Power-good low, status high: powered, not charging.
    Standby,
}

/// The charger state that the pins show: two or more status edges in the
/// observation window mean a fault, whatever the levels; otherwise the
/// power-good and status levels decide.
pub fn charge_state_from_pins(edge_count: u32, powergood_high: bool, status_high: bool) -> (r: ChargeState)
    ensures
        r == (if edge_count >= 2 {
            ChargeState::Fault
        } else if powergood_high {
            ChargeState::NoInput
        } else if !status_high {
            ChargeState::Charging
        } else {
            ChargeState::Standby
        }),
{
    match (edge_count >= 2, powergood_high, status_high) {
        (true, _, _) => ChargeState::Fault,
        (false, true, _) => ChargeState::NoInput,
        (false, false, false) => ChargeState::Charging,
        (false, false, true) => ChargeState::Standby,
    }
}

/// Seconds the charger spent in each state, counted from clock readings in
/// milliseconds (`Instant::as_millis`).
pub struct ChargeStateMonitor {
    pub time_fault: u64,
    pub time_noinput: u64,
    pub time_charging: u64,
    pub time_standby: u64,
    pub last_time_ms: u64,
    pub current_state: ChargeState,
}

/// Time in a state after a stay of `passed` seconds: at least one second, so
/// that even a short stay shows.
pub open spec fn added_time(t: u64, passed: u64) -> u64 {
    if t + passed >= 1 { (t + passed) as u64 } else { 1 }
}

/// Time in a state only grows: a stay of `passed` seconds adds exactly that
/// much, and the total is at least one second.
pub proof fn lemma_added_time(t: u64, passed: u64)
    requires
        t + passed <= u64::MAX,
    ensures
        added_time(t, passed) >= t + passed,
        added_time(t, passed) >= 1,
        t + passed >= 1 ==> added_time(t, passed) == t + passed,
        t + passed == 0 ==> added_time(t, passed) == 1,
{
}

/// Two stays in one state add up: the counter after both is at least the old
/// value plus the seconds of each, and exactly that sum once anything was
/// counted.
pub proof fn lemma_added_time_twice(t: u64, p1: u64, p2: u64)
    requires
        t + p1 + p2 <= u64::MAX,
    ensures
        added_time(t, p1) + p2 <= u64::MAX ==> added_time(added_time(t, p1), p2) >= t + p1 + p2,
        t + p1 >= 1 ==> added_time(added_time(t, p1), p2) == t + p1 + p2,
{
}

impl ChargeStateMonitor {
    /// No time counted, state unknown, counting from `now_ms`.
    pub fn new(now_ms: u64) -> (r: Self)
        ensures
            r.time_fault == 0 && r.time_noinput == 0 && r.time_charging == 0 && r.time_standby == 0,
            r.last_time_ms == now_ms,
            r.current_state == ChargeState::Unknown,
    {
        Self {
            time_fault: 0,
            time_noinput: 0,
            time_charging: 0,
            time_standby: 0,
            last_time_ms: now_ms,
            current_state: ChargeState::Unknown,
        }
    }

    /// Forgets all counted time; the state is unknown again from `now_ms`.
    pub fn reset(&mut self, now_ms: u64)
        ensures
            final(self).time_fault == 0 && final(self).time_noinput == 0,
            final(self).time_charging == 0 && final(self).time_standby == 0,
            final(self).last_time_ms == now_ms,
            final(self).current_state == ChargeState::Unknown,
    {
        self.time_fault = 0;
        self.time_noinput = 0;
        self.time_charging = 0;
        self.time_standby = 0;
        self.last_time_ms = now_ms;
        self.current_state = ChargeState::Unknown;
    }

    /// Counts the whole seconds since the last reading to the state the charger
    /// was in (none for an unknown state), then records the new state.
    pub fn set_state(&mut self, charge_state: ChargeState, now_ms: u64)
        requires
            now_ms >= old(self).last_time_ms,
            old(self).time_fault + (now_ms - old(self).last_time_ms) / 1000 <= u64::MAX,
            old(self).time_noinput + (now_ms - old(self).last_time_ms) / 1000 <= u64::MAX,
            old(self).time_charging + (now_ms - old(self).last_time_ms) / 1000 <= u64::MAX,
            old(self).time_standby + (now_ms - old(self).last_time_ms) / 1000 <= u64::MAX,
        ensures
            ({
                let passed = ((now_ms - old(self).last_time_ms) / 1000) as u64;
                let st = old(self).current_state;
                &&& final(self).time_fault == (if st == ChargeState::Fault { added_time(old(self).time_fault, passed) } else { old(self).time_fault })
                &&& final(self).time_noinput == (if st == ChargeState::NoInput { added_time(old(self).time_noinput, passed) } else { old(self).time_noinput })
                &&& final(self).time_charging == (if st == ChargeState::Charging { added_time(old(self).time_charging, passed) } else { old(self).time_charging })
                &&& final(self).time_standby == (if st == ChargeState::Standby { added_time(old(self).time_standby, passed) } else { old(self).time_standby })
            }),
            final(self).current_state == charge_state,
            final(self).last_time_ms == now_ms,
            ({
                let passed = (now_ms - old(self).last_time_ms) / 1000;
                let st = old(self).current_state;
                &&& st == ChargeState::Fault ==> final(self).time_fault >= old(self).time_fault + passed && final(self).time_fault >= 1
                &&& st == ChargeState::NoInput ==> final(self).time_noinput >= old(self).time_noinput + passed && final(self).time_noinput >= 1
                &&& st == ChargeState::Charging ==> final(self).time_charging >= old(self).time_charging + passed && final(self).time_charging >= 1
                &&& st == ChargeState::Standby ==> final(self).time_standby >= old(self).time_standby + passed && final(self).time_standby >= 1
                &&& st == ChargeState::Fault && old(self).time_fault + passed >= 1 ==> final(self).time_fault == old(self).time_fault + passed
                &&& st == ChargeState::NoInput && old(self).time_noinput + passed >= 1 ==> final(self).time_noinput == old(self).time_noinput + passed
                &&& st == ChargeState::Charging && old(self).time_charging + passed >= 1 ==> final(self).time_charging == old(self).time_charging + passed
                &&& st == ChargeState::Standby && old(self).time_standby + passed >= 1 ==> final(self).time_standby == old(self).time_standby + passed
            }),
    {
        let passed_time = (now_ms - self.last_time_ms) / 1000;
        match self.current_state {
            ChargeState::Unknown => {},
            ChargeState::Fault => self.time_fault = max1(self.time_fault + passed_time),
            ChargeState::NoInput => self.time_noinput = max1(self.time_noinput + passed_time),
            ChargeState::Charging => self.time_charging = max1(self.time_charging + passed_time),
            ChargeState::Standby => self.time_standby = max1(self.time_standby + passed_time),
        }
        self.current_state = charge_state;
        self.last_time_ms = now_ms;
    }

    pub fn get_state(&self) -> (r: ChargeState)
        ensures
            r == self.current_state,
    {
        self.current_state
    }
}

/// `t.max(1)`.
fn max1(t: u64) -> (r: u64)
    ensures
        r == (if t >= 1 { t } else { 1 }),
{
    if t >= 1 { t } else { 1 }
}

/// The four charge-state fractions, in order: fault, no input, charging, standby.
pub fn unpack_fractions(bytes: [u8; 4]) -> (r: (u8, u8, u8, u8))
    ensures
        r == (bytes@[0], bytes@[1], bytes@[2], bytes@[3]),
{
    let a = bytes[0];
    let b = bytes[1];
    let c = bytes[2];
    let d = bytes[3];
    (a, b, c, d)
}

/// Requests to the monitor task.
#[derive(Clone, Copy, Debug, PartialEq, Eq, Structural)]
pub enum MonReqMsg {
    GetBatVolt,
    GetTemp,
    ResetChargeStateMonitor,
}

/// Responses of the monitor task; the temperature is the bit pattern of its
/// `f32` value in °C.
#[derive(Clone, Copy, Debug, PartialEq, Eq, Structural)]
pub enum MonResMsg {
    BatVoltSuccess { voltage: u32 },
    BatVoltFail,
    TempSuccess { temp_c_bits: u32 },
    TempFail,
    ChargeStateFraction { fraction: u8 },
}

} // verus!
