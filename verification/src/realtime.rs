//! Wall-clock time kept from a reference: the real time and date that were
//! last learnt from GNSS, and the device clock reading at that moment.
//!
//! The device clock is read by the caller (`embassy_time::Instant::now()` in
//! milliseconds since boot) and handed in, so that every function here is a
//! function of its arguments.
use vstd::prelude::*;
use crate::types::SECONDS_PER_DAY;

verus! {

/// Factor by which device time is sped up (1 in service).
pub const SPEEDUP_FACTOR: u64 = 1;

/// The device clock, in seconds and sped up, for a reading in milliseconds.
pub open spec fn pico_secs(now_ms: u64) -> u64 {
    ((now_ms / 1000) * SPEEDUP_FACTOR) as u64
}

/// Reference from which the real time and date are derived.
pub struct RealTime {
    ref_real_date: u32,
    ref_real_time: u32,
    ref_pico_secs: u64,
}

/// A real time of day taken from GNSS, with the device clock reading (ms) at
/// which it was taken.
pub struct Deviation {
    pub time: u32,
    pub measured_at_ms: u64,
}

impl Deviation {
    pub fn new(time: u32, measured_at_ms: u64) -> (r: Self)
        ensures
            r.time == time,
            r.measured_at_ms == measured_at_ms,
    {
        Self { time, measured_at_ms }
    }
}

/// Index of the smallest value above `x`, the first of equal ones; 0 when none is above.
pub open spec fn spec_next_or_first(v: Seq<u32>, x: u32) -> int {
    if exists|i: int| 0 <= i < v.len() && v[i] > x {
        choose|i: int| is_next_index(v, x, i)
    } else {
        0
    }
}

/// `v[i]` is the smallest value above `x`, and no earlier value equals it.
pub open spec fn is_next_index(v: Seq<u32>, x: u32, i: int) -> bool {
    &&& 0 <= i < v.len()
    &&& v[i] > x
    &&& forall|j: int| 0 <= j < v.len() && v[j] > x ==> v[i] <= v[j]
    &&& forall|j: int| 0 <= j < i && v[j] > x ==> v[i] < v[j]
}

/// Seconds to sleep from `now_time` on `now_date` to reach `sleep_time` (on
/// `sleep_date`): to the next occurrence of the time, a full day more when it is
/// the time now and the date is later.
pub open spec fn spec_sleep_secs(now_time: u32, now_date: u32, sleep_time: u32, sleep_date: u32) -> int {
    let base = if sleep_time >= now_time {
        sleep_time - now_time
    } else {
        SECONDS_PER_DAY - (now_time - sleep_time)
    };
    if sleep_time == now_time && sleep_date > now_date {
        base + SECONDS_PER_DAY
    } else {
        base
    }
}

impl RealTime {
    pub closed spec fn ref_date(&self) -> u32 {
        self.ref_real_date
    }

    pub closed spec fn ref_time(&self) -> u32 {
        self.ref_real_time
    }

    pub closed spec fn ref_pico(&self) -> u64 {
        self.ref_pico_secs
    }

    /// Seconds since the reference, as the device clock at `now_ms` counts them.
    pub open spec fn since_update(&self, now_ms: u64) -> u32 {
        (pico_secs(now_ms) - self.ref_pico()) as u32
    }

    /// The reference can be advanced to `now_ms` without overflow.
    pub open spec fn reading_ok(&self, now_ms: u64) -> bool {
        &&& pico_secs(now_ms) >= self.ref_pico()
        &&& self.ref_time() + self.since_update(now_ms) <= u32::MAX
    }

    /// A reference of date 0, time 0, taken at device clock `now_ms`.
    pub fn new(now_ms: u64) -> (r: Self)
        ensures
            r.ref_date() == 0,
            r.ref_time() == 0,
            r.ref_pico() == pico_secs(now_ms),
    {
        Self { ref_real_date: 0, ref_real_time: 0, ref_pico_secs: (now_ms / 1000) * SPEEDUP_FACTOR }
    }

    /// Seconds since the reference (wrapped to 32 bits).
    pub fn get_time_since_update(&self, now_ms: u64) -> (r: u32)
        requires
            pico_secs(now_ms) >= self.ref_pico(),
        ensures
            r == self.since_update(now_ms),
    {
        let now = (now_ms / 1000) * SPEEDUP_FACTOR;
        (now - self.ref_pico_secs) as u32
    }

    /// Whether the clock can be read at `now_ms`: the reading is not before the
    /// reference, and the real time and date derived from it do not overflow.
    pub fn clock_readable(&self, now_ms: u64) -> (r: bool)
        ensures
            r == (self.reading_ok(now_ms)
                && self.ref_date() + (self.ref_time() + self.since_update(now_ms)) / (SECONDS_PER_DAY as int) <= u32::MAX),
    {
        let now = (now_ms / 1000) * SPEEDUP_FACTOR;
        if now < self.ref_pico_secs {
            return false;
        }
        let since = self.get_time_since_update(now_ms);
        let total = self.ref_real_time as u64 + since as u64;
        if total > u32::MAX as u64 {
            return false;
        }
        (self.ref_real_date as u64) + total / (SECONDS_PER_DAY as u64) <= u32::MAX as u64
    }

    /// The real time of day.
    pub fn get_real_time(&self, now_ms: u64) -> (r: u32)
        requires
            self.reading_ok(now_ms),
        ensures
            r == (self.ref_time() + self.since_update(now_ms)) % (SECONDS_PER_DAY as int),
            r < SECONDS_PER_DAY,
    {
        let time = self.ref_real_time + self.get_time_since_update(now_ms);
        time % 86400
    }

    /// The real date, days since 1970-01-01.
    pub fn get_real_date(&self, now_ms: u64) -> (r: u32)
        requires
            self.reading_ok(now_ms),
            self.ref_date() + (self.ref_time() + self.since_update(now_ms)) / (SECONDS_PER_DAY as int) <= u32::MAX,
        ensures
            r == self.ref_date() + (self.ref_time() + self.since_update(now_ms)) / (SECONDS_PER_DAY as int),
    {
        let extra_days = (self.ref_real_time + self.get_time_since_update(now_ms)) / SECONDS_PER_DAY;
        self.ref_real_date + extra_days
    }

    /// The real time and date at which the device booted, as (time, date).
    pub fn get_boot_real_time(&self, now_ms: u64) -> (r: (u32, u32))
        requires
            self.reading_ok(now_ms),
        ensures
            ({
                let current = self.ref_date() * 86400 + (self.ref_time() + self.since_update(now_ms)) % 86400;
                let startup = if current >= pico_secs(now_ms) { current - pico_secs(now_ms) } else { 0 };
                r.0 == startup % 86400 && r.1 == (startup / 86400) as u32
            }),
    {
        let total_pico_seconds = (now_ms / 1000) * SPEEDUP_FACTOR;
        assert(self.ref_real_date as u64 * 86400 <= 0xffff_ffffu64 * 86400) by (nonlinear_arith)
            requires
                self.ref_real_date <= 0xffff_ffffu32,
        ;
        let current_total_seconds = (self.ref_real_date as u64 * SECONDS_PER_DAY as u64)
            + self.get_real_time(now_ms) as u64;
        let startup_total_seconds = current_total_seconds.saturating_sub(total_pico_seconds);
        let startup_date = #[verifier::truncate] ((startup_total_seconds / SECONDS_PER_DAY as u64) as u32);
        let startup_time = (startup_total_seconds % SECONDS_PER_DAY as u64) as u32;
        (startup_time, startup_date)
    }

    /// Sets the reference date.
    pub fn update_date(&mut self, date: u32)
        ensures
            final(self).ref_date() == date,
            final(self).ref_time() == old(self).ref_time(),
            final(self).ref_pico() == old(self).ref_pico(),
    {
        self.ref_real_date = date;
    }

    /// Sets the reference time from a GNSS reading, corrected by the whole
    /// seconds that passed between the reading and `now_ms`.
    pub fn update_time(&mut self, deviation: Deviation, now_ms: u64)
        requires
            now_ms >= deviation.measured_at_ms,
            deviation.time + (now_ms - deviation.measured_at_ms) / 1000 <= u32::MAX,
        ensures
            final(self).ref_time() == deviation.time + (now_ms - deviation.measured_at_ms) / 1000,
            final(self).ref_pico() == pico_secs(now_ms),
            final(self).ref_date() == old(self).ref_date(),
    {
        let deviation_ms = now_ms - deviation.measured_at_ms;
        self.ref_real_time = deviation.time + (deviation_ms / 1000) as u32;
        self.ref_pico_secs = (now_ms / 1000) * SPEEDUP_FACTOR;
    }

    /// Index of the smallest value above `x` (the first of equal ones), or 0.
    pub fn next_or_first(vec: &[u32], x: u32) -> (r: usize)
        ensures
            r == spec_next_or_first(vec@, x),
    {
        let n = vec.len();
        let mut best: Option<usize> = None;
        let mut i: usize = 0;
        while i < n
            invariant
                n == vec@.len(),
                i <= n,
                match best {
                    None => forall|j: int| 0 <= j < i ==> vec@[j] <= x,
                    Some(b) => b < i && vec@[b as int] > x
                        && (forall|j: int| 0 <= j < i && vec@[j] > x ==> vec@[b as int] <= vec@[j])
                        && (forall|j: int| 0 <= j < b && vec@[j] > x ==> vec@[b as int] < vec@[j]),
                },
            decreases n - i,
        {
            let v = vec[i];
            if v > x {
                match best {
                    None => {
                        best = Some(i);
                    },
                    Some(b) => {
                        if v < vec[b] {
                            best = Some(i);
                        }
                    },
                }
            }
            i = i + 1;
        }
        match best {
            None => 0,
            Some(b) => {
                proof {
                    assert(is_next_index(vec@, x, b as int));
                    let c = spec_next_or_first(vec@, x);
                    assert(is_next_index(vec@, x, c));
                    if c < b {
                        assert(vec@[b as int] < vec@[c]);
                    } else if c > b {
                        assert(vec@[c] < vec@[b as int]);
                    }
                }
                b
            },
        }
    }

    /// Time of day `t2` seconds before `t1`, where `t2 <= t1`.
    pub fn subtract_wrapping(t1: u32, t2: u32) -> (r: u32)
        requires
            t2 <= t1,
            t1 - t2 + SECONDS_PER_DAY <= u32::MAX,
        ensures
            r == (t1 - t2 + SECONDS_PER_DAY) % (SECONDS_PER_DAY as int),
    {
        (t1 - t2 + SECONDS_PER_DAY) % SECONDS_PER_DAY
    }

    /// Time of day `t2` seconds after `t1`.
    pub fn add_wrapping(t1: u32, t2: u32) -> (r: u32)
        requires
            t1 + t2 <= u32::MAX,
        ensures
            r == (t1 + t2) % (SECONDS_PER_DAY as int),
    {
        (t1 + t2) % SECONDS_PER_DAY
    }

    /// Distance between two times of day, the shorter way round the clock.
    pub fn diff_wrapping(t1: u32, t2: u32) -> (r: u32)
        requires
            t1 - t2 <= SECONDS_PER_DAY,
            t2 - t1 <= SECONDS_PER_DAY,
        ensures
            r == spec_diff_wrapping(t1, t2),
    {
        let diff = if t1 >= t2 { t1 - t2 } else { t2 - t1 };
        let wrapped_diff = SECONDS_PER_DAY - diff;
        if diff < wrapped_diff { diff } else { wrapped_diff }
    }

    /// Seconds to sleep until `sleep_time` on `sleep_date`, seen from `now_ms`.
    pub fn get_sleep_secs(&self, sleep_time: u32, sleep_date: u32, now_ms: u64) -> (r: u32)
        requires
            self.reading_ok(now_ms),
            self.ref_date() + (self.ref_time() + self.since_update(now_ms)) / (SECONDS_PER_DAY as int) <= u32::MAX,
        ensures
            r == spec_sleep_secs(
                ((self.ref_time() + self.since_update(now_ms)) % (SECONDS_PER_DAY as int)) as u32,
                (self.ref_date() + (self.ref_time() + self.since_update(now_ms)) / (SECONDS_PER_DAY as int)) as u32,
                sleep_time,
                sleep_date,
            ),
    {
        let now_time = self.get_real_time(now_ms);
        let now_date = self.get_real_date(now_ms);
        let mut total_sleep_secs = 0u32;
        if sleep_time >= now_time {
            total_sleep_secs += sleep_time - now_time;
        } else {
            total_sleep_secs += SECONDS_PER_DAY - (now_time - sleep_time);
        }
        if sleep_time == now_time && sleep_date > now_date {
            total_sleep_secs += SECONDS_PER_DAY;
        }
        total_sleep_secs
    }
}

/// `embassy_time::Timer`, a future that completes at a device clock instant.
#[verifier::external_type_specification]
#[verifier::external_body]
pub struct ExTimer(embassy_time::Timer);

/// `embassy_time::Timer::after_millis`: a timer that expires `millis` ms after the
/// device clock reading taken inside the call. Nothing is claimed of the timer;
/// the call panics when that reading plus the duration overflows the 64-bit tick
/// counter, which no argument bound can exclude.
#[verifier::external_body]
fn timer_after_millis(millis: u64) -> embassy_time::Timer
    requires
        millis <= 0xffff_ffff_u64 * 1000,
{
    embassy_time::Timer::after_millis(millis)
}

impl RealTime {
    /// Milliseconds of device time to sleep until the real clock reaches
    /// `sleep_time` on `sleep_date`, seen from `now_ms`.
    pub fn sleep_millis(&self, sleep_time: u32, sleep_date: u32, now_ms: u64) -> (r: u64)
        requires
            self.reading_ok(now_ms),
            self.ref_date() + (self.ref_time() + self.since_update(now_ms)) / (SECONDS_PER_DAY as int) <= u32::MAX,
        ensures
            r == spec_sleep_secs(
                ((self.ref_time() + self.since_update(now_ms)) % (SECONDS_PER_DAY as int)) as u32,
                (self.ref_date() + (self.ref_time() + self.since_update(now_ms)) / (SECONDS_PER_DAY as int)) as u32,
                sleep_time,
                sleep_date,
            ) * 1000 / (SPEEDUP_FACTOR as int),
            r <= 0xffff_ffff_u64 * 1000,
    {
        let total_sleep_secs = self.get_sleep_secs(sleep_time, sleep_date, now_ms);
        total_sleep_secs as u64 * 1000 / SPEEDUP_FACTOR
    }

    /// A timer that expires when the real clock reaches `sleep_time` on
    /// `sleep_date`: it is set to `sleep_millis` milliseconds after the device
    /// clock reading taken when it is made.
    pub fn get_timer(&self, sleep_time: u32, sleep_date: u32, now_ms: u64) -> embassy_time::Timer
        requires
            self.reading_ok(now_ms),
            self.ref_date() + (self.ref_time() + self.since_update(now_ms)) / (SECONDS_PER_DAY as int) <= u32::MAX,
    {
        let millis = self.sleep_millis(sleep_time, sleep_date, now_ms);
        timer_after_millis(millis)
    }
}

/// Distance between two times of day, the shorter way round the clock.
pub open spec fn spec_diff_wrapping(t1: u32, t2: u32) -> u32 {
    let diff = if t1 >= t2 { t1 - t2 } else { t2 - t1 };
    let wrapped = SECONDS_PER_DAY - diff;
    (if diff < wrapped { diff } else { wrapped }) as u32
}


/// The real time and date advance together: `date` days and `time` seconds
/// from the reference add up to the reference plus the seconds since it.
pub proof fn lemma_real_clock(rt: RealTime, now_ms: u64)
    requires
        rt.reading_ok(now_ms),
    ensures
        ({
            let total = rt.ref_time() + rt.since_update(now_ms);
            let time = total % (SECONDS_PER_DAY as int);
            let date = rt.ref_date() + total / (SECONDS_PER_DAY as int);
            date * SECONDS_PER_DAY + time == rt.ref_date() * SECONDS_PER_DAY + total && 0 <= time < SECONDS_PER_DAY
        }),
{
    let total = rt.ref_time() + rt.since_update(now_ms);
    assert(total == (total / 86400) * 86400 + total % 86400) by (nonlinear_arith)
        requires
            total >= 0,
    ;
    assert((rt.ref_date() + total / 86400) * 86400 == rt.ref_date() * 86400 + (total / 86400) * 86400) by (nonlinear_arith);
}

/// Sleeping the seconds that `get_sleep_secs` computes lands on the requested
/// time of day: less than a day ahead, or exactly a day when the time is now
/// and the date later.
pub proof fn lemma_sleep_lands(now_time: u32, now_date: u32, sleep_time: u32, sleep_date: u32)
    requires
        now_time < SECONDS_PER_DAY,
        sleep_time < SECONDS_PER_DAY,
    ensures
        (now_time + spec_sleep_secs(now_time, now_date, sleep_time, sleep_date)) % (SECONDS_PER_DAY as int) == sleep_time,
        spec_sleep_secs(now_time, now_date, sleep_time, sleep_date) < SECONDS_PER_DAY
            || (sleep_time == now_time && sleep_date > now_date
                && spec_sleep_secs(now_time, now_date, sleep_time, sleep_date) == SECONDS_PER_DAY),
{
}

/// `add_wrapping` undoes `subtract_wrapping` on times of day.
pub proof fn lemma_wrapping_inverse(t1: u32, t2: u32)
    requires
        t2 <= t1 < SECONDS_PER_DAY,
    ensures
        ((t1 - t2 + SECONDS_PER_DAY) % (SECONDS_PER_DAY as int) + t2) % (SECONDS_PER_DAY as int) == t1,
{
}

/// The wrapped distance between two times of day is symmetric and at most
/// half a day.
pub proof fn lemma_diff_wrapping(t1: u32, t2: u32)
    requires
        t1 < SECONDS_PER_DAY,
        t2 < SECONDS_PER_DAY,
    ensures
        spec_diff_wrapping(t1, t2) == spec_diff_wrapping(t2, t1),
        spec_diff_wrapping(t1, t2) <= SECONDS_PER_DAY / 2,
        (spec_diff_wrapping(t1, t2) == 0) == (t1 == t2),
{
}

} // verus!
