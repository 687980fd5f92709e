//! Sectors: the windows of the day in which the device measures, and the list
//! that tracks each of them from scheduling to transmission.
use vstd::prelude::*;
use vstd::std_specs::iter::IteratorSpec;
use vstd::std_specs::slice::into_iter_elts;
use crate::bytes::{get_u32_le, lemma_u32_le_roundtrip, put_u32_le, u32_at, u32_le};
use crate::hvec::{
    index_items, indices_new, indices_push, sector_items, sectors_as_slice, sectors_clear, sectors_len,
    sectors_mut, sectors_new, sectors_push, sectors_ref, sectors_remove, words128_items, words128_new,
    words128_push,
};
use crate::realtime::{spec_diff_wrapping, RealTime};
use crate::types::{MAX_SECTORS, NUM_BINS, SECONDS_PER_DAY};

verus! {

/// Where a sector is in its life: scheduled, measured, computed, sent.
#[derive(Clone, Copy, Debug, PartialEq, Eq, Structural)]
#[allow(non_camel_case_types)]
pub enum SectorState {
    AWAITING,
    TO_MEASURE,
    MEASURING,
    TO_COMPUTE,
    COMPUTING,
    TO_COMMUNICATE,
    COMMUNICATING,
    DONE,
}

/// Stored code of a state.
pub open spec fn state_code(s: SectorState) -> u8 {
    match s {
        SectorState::AWAITING => 0,
        SectorState::TO_MEASURE => 1,
        SectorState::MEASURING => 2,
        SectorState::TO_COMPUTE => 3,
        SectorState::COMPUTING => 4,
        SectorState::TO_COMMUNICATE => 5,
        SectorState::COMMUNICATING => 6,
        SectorState::DONE => 7,
    }
}

/// State of a stored code; unknown codes read as `AWAITING`.
pub open spec fn state_of_code(c: u8) -> SectorState {
    if c == 1 {
        SectorState::TO_MEASURE
    } else if c == 2 {
        SectorState::MEASURING
    } else if c == 3 {
        SectorState::TO_COMPUTE
    } else if c == 4 {
        SectorState::COMPUTING
    } else if c == 5 {
        SectorState::TO_COMMUNICATE
    } else if c == 6 {
        SectorState::COMMUNICATING
    } else if c == 7 {
        SectorState::DONE
    } else {
        SectorState::AWAITING
    }
}

/// Bytes of an encoded sector.
pub const SECTOR_SIZE: usize = 41;

/// One measurement window: which mid time and bins it covers, when it starts,
/// where its result is stored, and its state. The position is held as the
/// IEEE-754 bit patterns of the `f32` latitude and longitude.
#[derive(Clone, Copy, Debug)]
pub struct Sector {
    uid: u32,
    midpoint_index: u32,
    measurement_index: u32,
    start_bin_index: u32,
    start_time: u32,
    start_day: u32,
    n_bins: u32,
    seconds_per_bin: u32,
    pub state: SectorState,
    lat: u32,
    lon: u32,
}

/// The values a sector holds.
pub struct SectorModel {
    pub uid: u32,
    pub midpoint_index: u32,
    pub measurement_index: u32,
    pub start_bin_index: u32,
    pub start_time: u32,
    pub start_day: u32,
    pub n_bins: u32,
    pub seconds_per_bin: u32,
    pub state: SectorState,
    pub lat: u32,
    pub lon: u32,
}

impl SectorModel {
    /// The same sector in state `st`.
    pub open spec fn with_state(self, st: SectorState) -> SectorModel {
        SectorModel { state: st, ..self }
    }

    /// Encoding: eight words, the state code, latitude and longitude.
    pub open spec fn bytes(self) -> Seq<u8> {
        u32_le(self.uid) + u32_le(self.midpoint_index) + u32_le(self.measurement_index)
            + u32_le(self.start_bin_index) + u32_le(self.start_time) + u32_le(self.start_day)
            + u32_le(self.n_bins) + u32_le(self.seconds_per_bin) + seq![state_code(self.state)]
            + u32_le(self.lat) + u32_le(self.lon)
    }

    /// End of the sector's window as a time of day.
    pub open spec fn end_time(self) -> int {
        (self.start_time + self.n_bins * self.seconds_per_bin) % (SECONDS_PER_DAY as int)
    }
}

/// The end of a window is a time of day: the start plus the window's length,
/// wrapped round midnight.
pub proof fn lemma_end_time_of_day(s: SectorModel)
    ensures
        0 <= s.end_time() < SECONDS_PER_DAY,
        s.end_time() == (s.start_time + s.n_bins * s.seconds_per_bin) % (SECONDS_PER_DAY as int),
        s.start_time + s.n_bins * s.seconds_per_bin < SECONDS_PER_DAY
            ==> s.end_time() == s.start_time + s.n_bins * s.seconds_per_bin,
{
    assert(0 <= s.n_bins * s.seconds_per_bin) by (nonlinear_arith);
}

/// The sector that the 41 bytes at `off` in `b` encode.
pub open spec fn sector_decode(b: Seq<u8>, off: int) -> SectorModel {
    SectorModel {
        uid: u32_at(b, off),
        midpoint_index: u32_at(b, off + 4),
        measurement_index: u32_at(b, off + 8),
        start_bin_index: u32_at(b, off + 12),
        start_time: u32_at(b, off + 16),
        start_day: u32_at(b, off + 20),
        n_bins: u32_at(b, off + 24),
        seconds_per_bin: u32_at(b, off + 28),
        state: state_of_code(b[off + 32]),
        lat: u32_at(b, off + 33),
        lon: u32_at(b, off + 37),
    }
}

impl View for Sector {
    type V = SectorModel;

    closed spec fn view(&self) -> SectorModel {
        SectorModel {
            uid: self.uid,
            midpoint_index: self.midpoint_index,
            measurement_index: self.measurement_index,
            start_bin_index: self.start_bin_index,
            start_time: self.start_time,
            start_day: self.start_day,
            n_bins: self.n_bins,
            seconds_per_bin: self.seconds_per_bin,
            state: self.state,
            lat: self.lat,
            lon: self.lon,
        }
    }
}

/// The parts of a sector's encoding, each at its place.
#[verifier::rlimit(40)]
proof fn lemma_sector_bytes_parts(m: SectorModel)
    ensures
        m.bytes().len() == 41,
        m.bytes().subrange(0, 4) == u32_le(m.uid),
        m.bytes().subrange(4, 8) == u32_le(m.midpoint_index),
        m.bytes().subrange(8, 12) == u32_le(m.measurement_index),
        m.bytes().subrange(12, 16) == u32_le(m.start_bin_index),
        m.bytes().subrange(16, 20) == u32_le(m.start_time),
        m.bytes().subrange(20, 24) == u32_le(m.start_day),
        m.bytes().subrange(24, 28) == u32_le(m.n_bins),
        m.bytes().subrange(28, 32) == u32_le(m.seconds_per_bin),
        m.bytes()[32] == state_code(m.state),
        m.bytes().subrange(33, 37) == u32_le(m.lat),
        m.bytes().subrange(37, 41) == u32_le(m.lon),
{
    let e = m.bytes();
    assert(e.subrange(0, 4) =~= u32_le(m.uid));
    assert(e.subrange(4, 8) =~= u32_le(m.midpoint_index));
    assert(e.subrange(8, 12) =~= u32_le(m.measurement_index));
    assert(e.subrange(12, 16) =~= u32_le(m.start_bin_index));
    assert(e.subrange(16, 20) =~= u32_le(m.start_time));
    assert(e.subrange(20, 24) =~= u32_le(m.start_day));
    assert(e.subrange(24, 28) =~= u32_le(m.n_bins));
    assert(e.subrange(28, 32) =~= u32_le(m.seconds_per_bin));
    assert(e.subrange(33, 37) =~= u32_le(m.lat));
    assert(e.subrange(37, 41) =~= u32_le(m.lon));
}

/// The word encoded at `k` in a record placed at `off` of `b`.
proof fn lemma_word_in_record(b: Seq<u8>, off: int, e: Seq<u8>, k: int, v: u32)
    requires
        0 <= off,
        0 <= k,
        k + 4 <= e.len(),
        off + e.len() <= b.len(),
        b.subrange(off, off + e.len()) == e,
        e.subrange(k, k + 4) == u32_le(v),
    ensures
        u32_at(b, off + k) == v,
{
    assert(b.subrange(off + k, off + k + 4) =~= e.subrange(k, k + 4));
    lemma_u32_le_roundtrip(v, b, off + k);
}

/// Decoding an encoded sector gives it back.
pub proof fn lemma_sector_roundtrip(m: SectorModel, b: Seq<u8>, off: int)
    requires
        0 <= off,
        off + 41 <= b.len(),
        b.subrange(off, off + 41) == m.bytes(),
    ensures
        sector_decode(b, off) == m,
{
    lemma_sector_bytes_parts(m);
    let e = m.bytes();
    lemma_word_in_record(b, off, e, 0, m.uid);
    lemma_word_in_record(b, off, e, 4, m.midpoint_index);
    lemma_word_in_record(b, off, e, 8, m.measurement_index);
    lemma_word_in_record(b, off, e, 12, m.start_bin_index);
    lemma_word_in_record(b, off, e, 16, m.start_time);
    lemma_word_in_record(b, off, e, 20, m.start_day);
    lemma_word_in_record(b, off, e, 24, m.n_bins);
    lemma_word_in_record(b, off, e, 28, m.seconds_per_bin);
    lemma_word_in_record(b, off, e, 33, m.lat);
    lemma_word_in_record(b, off, e, 37, m.lon);
    assert(b[off + 32] == b.subrange(off, off + 41)[32]);
    assert(state_of_code(state_code(m.state)) == m.state);
}

/// Decoding a copy of a record decodes the record.
proof fn lemma_decode_copy(chunk: Seq<u8>, b: Seq<u8>, off: int)
    requires
        0 <= off,
        off + 41 <= b.len(),
        chunk == b.subrange(off, off + 41),
    ensures
        sector_decode(chunk, 0) == sector_decode(b, off),
{
    assert(chunk[32] == b[off + 32]);
    assert forall|k: int| 0 <= k <= 37 implies u32_at(chunk, k) == u32_at(b, off + k) by {
        assert(chunk[k] == b[off + k]);
        assert(chunk[k + 1] == b[off + k + 1]);
        assert(chunk[k + 2] == b[off + k + 2]);
        assert(chunk[k + 3] == b[off + k + 3]);
    }
    assert(u32_at(chunk, 0) == u32_at(b, off + 0));
    assert(u32_at(chunk, 4) == u32_at(b, off + 4));
    assert(u32_at(chunk, 8) == u32_at(b, off + 8));
    assert(u32_at(chunk, 12) == u32_at(b, off + 12));
    assert(u32_at(chunk, 16) == u32_at(b, off + 16));
    assert(u32_at(chunk, 20) == u32_at(b, off + 20));
    assert(u32_at(chunk, 24) == u32_at(b, off + 24));
    assert(u32_at(chunk, 28) == u32_at(b, off + 28));
    assert(u32_at(chunk, 33) == u32_at(b, off + 33));
    assert(u32_at(chunk, 37) == u32_at(b, off + 37));
}

impl Sector {
    pub fn new(
        uid: u32,
        midpoint_index: u32,
        measurement_index: u32,
        start_bin_index: u32,
        start_time: u32,
        start_day: u32,
        n_bins: u32,
        seconds_per_bin: u32,
        state: SectorState,
    ) -> (r: Self)
        ensures
            r@ == (SectorModel {
                uid,
                midpoint_index,
                measurement_index,
                start_bin_index,
                start_time,
                start_day,
                n_bins,
                seconds_per_bin,
                state,
                lat: 0,
                lon: 0,
            }),
    {
        Self {
            uid,
            midpoint_index,
            measurement_index,
            start_bin_index,
            start_time,
            start_day,
            n_bins,
            seconds_per_bin,
            state,
            lat: 0,
            lon: 0,
        }
    }

    pub fn to_bytes(&self) -> (r: [u8; SECTOR_SIZE])
        ensures
            r@ == self@.bytes(),
    {
        let mut data = [0u8; SECTOR_SIZE];
        put_u32_le(&mut data, 0, self.uid);
        put_u32_le(&mut data, 4, self.midpoint_index);
        put_u32_le(&mut data, 8, self.measurement_index);
        put_u32_le(&mut data, 12, self.start_bin_index);
        put_u32_le(&mut data, 16, self.start_time);
        put_u32_le(&mut data, 20, self.start_day);
        put_u32_le(&mut data, 24, self.n_bins);
        put_u32_le(&mut data, 28, self.seconds_per_bin);
        data[32] = match self.state {
            SectorState::AWAITING => 0,
            SectorState::TO_MEASURE => 1,
            SectorState::MEASURING => 2,
            SectorState::TO_COMPUTE => 3,
            SectorState::COMPUTING => 4,
            SectorState::TO_COMMUNICATE => 5,
            SectorState::COMMUNICATING => 6,
            SectorState::DONE => 7,
        };
        let ghost before_tail = data@;
        put_u32_le(&mut data, 33, self.lat);
        put_u32_le(&mut data, 37, self.lon);
        assert(data@ =~= self@.bytes()) by {
            let e = self@.bytes();
            assert forall|i: int| 0 <= i < 41 implies data@[i] == e[i] by {
                if i < 4 {
                    assert(data@[i] == data@.subrange(0, 4)[i]);
                } else if i < 8 {
                    assert(data@[i] == data@.subrange(4, 8)[i - 4]);
                } else if i < 12 {
                    assert(data@[i] == data@.subrange(8, 12)[i - 8]);
                } else if i < 16 {
                    assert(data@[i] == data@.subrange(12, 16)[i - 12]);
                } else if i < 20 {
                    assert(data@[i] == data@.subrange(16, 20)[i - 16]);
                } else if i < 24 {
                    assert(data@[i] == data@.subrange(20, 24)[i - 20]);
                } else if i < 28 {
                    assert(data@[i] == data@.subrange(24, 28)[i - 24]);
                } else if i < 32 {
                    assert(data@[i] == data@.subrange(28, 32)[i - 28]);
                } else if i == 32 {
                } else if i < 37 {
                    assert(data@[i] == data@.subrange(33, 37)[i - 33]);
                } else {
                    assert(data@[i] == data@.subrange(37, 41)[i - 37]);
                }
            }
        }
        data
    }

    pub fn from_bytes(data: &[u8]) -> (r: Self)
        requires
            data@.len() >= SECTOR_SIZE,
        ensures
            r@ == sector_decode(data@, 0),
    {
        let code = data[32];
        let state = match code {
            0 => SectorState::AWAITING,
            1 => SectorState::TO_MEASURE,
            2 => SectorState::MEASURING,
            3 => SectorState::TO_COMPUTE,
            4 => SectorState::COMPUTING,
            5 => SectorState::TO_COMMUNICATE,
            6 => SectorState::COMMUNICATING,
            7 => SectorState::DONE,
            _ => SectorState::AWAITING,
        };
        Self {
            uid: get_u32_le(data, 0),
            midpoint_index: get_u32_le(data, 4),
            measurement_index: get_u32_le(data, 8),
            start_bin_index: get_u32_le(data, 12),
            start_time: get_u32_le(data, 16),
            start_day: get_u32_le(data, 20),
            n_bins: get_u32_le(data, 24),
            seconds_per_bin: get_u32_le(data, 28),
            state,
            lat: get_u32_le(data, 33),
            lon: get_u32_le(data, 37),
        }
    }

    /// Records the position (bit patterns of the `f32` latitude and longitude).
    pub fn update_coords(&mut self, lat: u32, lon: u32)
        ensures
            final(self)@ == (SectorModel { lat, lon, ..old(self)@ }),
    {
        self.lat = lat;
        self.lon = lon;
    }

    /// Moves the sector to state `state`.
    pub fn set_state(&mut self, state: SectorState)
        ensures
            final(self)@ == old(self)@.with_state(state),
    {
        self.state = state;
    }

    pub fn get_uid(&self) -> (r: u32)
        ensures
            r == self@.uid,
    {
        self.uid
    }

    pub fn get_midpoint_index(&self) -> (r: u32)
        ensures
            r == self@.midpoint_index,
    {
        self.midpoint_index
    }

    pub fn get_measurement_index(&self) -> (r: u32)
        ensures
            r == self@.measurement_index,
    {
        self.measurement_index
    }

    pub fn get_start_bin_index(&self) -> (r: u32)
        ensures
            r == self@.start_bin_index,
    {
        self.start_bin_index
    }

    pub fn get_start_time(&self) -> (r: u32)
        ensures
            r == self@.start_time,
    {
        self.start_time
    }

    pub fn get_start_day(&self) -> (r: u32)
        ensures
            r == self@.start_day,
    {
        self.start_day
    }

    /// The state of the sector.
    pub fn get_state(&self) -> (r: SectorState)
        ensures
            r == self@.state,
    {
        self.state
    }

    /// Whether the end of the window can be computed without overflow.
    pub fn end_time_defined(&self) -> (r: bool)
        ensures
            r == (self@.start_time + self@.n_bins * self@.seconds_per_bin <= u32::MAX),
    {
        assert((self.n_bins as u64) * (self.seconds_per_bin as u64) <= 0xffff_ffffu64 * 0xffff_ffffu64) by (nonlinear_arith)
            requires
                self.n_bins <= 0xffff_ffffu32,
                self.seconds_per_bin <= 0xffff_ffffu32,
        ;
        (self.start_time as u64) + (self.n_bins as u64) * (self.seconds_per_bin as u64) <= u32::MAX as u64
    }

    /// End of the window as a time of day.
    pub fn get_end_time(&self) -> (r: u32)
        requires
            self@.start_time + self@.n_bins * self@.seconds_per_bin <= u32::MAX,
        ensures
            r == self@.end_time(),
            r < SECONDS_PER_DAY,
            r == (self@.start_time + self@.n_bins * self@.seconds_per_bin) % (SECONDS_PER_DAY as int),
    {
        (self.start_time + self.n_bins * self.seconds_per_bin) % SECONDS_PER_DAY
    }

    /// Latitude, as the bit pattern of its `f32` value.
    pub fn get_lat(&self) -> (r: u32)
        ensures
            r == self@.lat,
    {
        self.lat
    }

    /// Longitude, as the bit pattern of its `f32` value.
    pub fn get_lon(&self) -> (r: u32)
        ensures
            r == self@.lon,
    {
        self.lon
    }

    /// The bins the window covers, in order, wrapping round the bin ring.
    pub fn get_bins(&self) -> (r: heapless::Vec<u32, 128>)
        requires
            self@.n_bins <= 128,
            self@.start_bin_index + self@.n_bins <= u32::MAX + 1,
        ensures
            words128_items(r) == Seq::new(
                self@.n_bins as nat,
                |i: int| ((self@.start_bin_index + i) % (NUM_BINS as int)) as u32,
            ),
    {
        let mut bins = words128_new();
        let mut i: u32 = 0;
        while i < self.n_bins
            invariant
                self.n_bins <= 128,
                self.start_bin_index + self.n_bins <= u32::MAX + 1,
                i <= self.n_bins,
                words128_items(bins) =~= Seq::new(
                    i as nat,
                    |k: int| ((self.start_bin_index + k) % (NUM_BINS as int)) as u32,
                ),
            decreases self.n_bins - i,
        {
            let r = words128_push(&mut bins, (self.start_bin_index + i) % NUM_BINS as u32);
            assert(r is Ok);
            i = i + 1;
        }
        bins
    }

    /// The bin in which time of day `time` falls, counting on from the start bin.
    pub fn get_bin_for_time(&self, time: u32) -> (r: u32)
        requires
            self@.seconds_per_bin > 0,
            time < self@.start_time ==> SECONDS_PER_DAY + time - self@.start_time >= 0,
            time < self@.start_time ==> SECONDS_PER_DAY + time <= u32::MAX,
            self@.start_bin_index + (if time >= self@.start_time { time - self@.start_time } else {
                SECONDS_PER_DAY + time - self@.start_time
            }) / (self@.seconds_per_bin as int) <= u32::MAX,
        ensures
            r == (self@.start_bin_index + (if time >= self@.start_time { time - self@.start_time } else {
                SECONDS_PER_DAY + time - self@.start_time
            }) / (self@.seconds_per_bin as int)) % (NUM_BINS as int),
    {
        let dt = if time >= self.start_time {
            time - self.start_time
        } else {
            SECONDS_PER_DAY + time - self.start_time
        };
        let bin_id = self.start_bin_index + dt / self.seconds_per_bin;
        bin_id % NUM_BINS as u32
    }

    /// The window has not begun at `time` on `date`.
    pub fn is_before_sector(&self, time: u32, date: u32) -> (r: bool)
        ensures
            r == (time < self@.start_time && date <= self@.start_day),
    {
        time < self.get_start_time() && date <= self.start_day
    }

    /// The window ends on the day after it starts.
    pub fn ends_next_day(&self) -> (r: bool)
        requires
            self@.start_time + self@.n_bins * self@.seconds_per_bin <= u32::MAX,
        ensures
            r == (self@.end_time() < self@.start_time),
    {
        let end_time = self.get_end_time();
        end_time < self.start_time
    }

    /// The window is over at `time` on `date`.
    pub fn is_after_sector(&self, time: u32, date: u32) -> (r: bool)
        requires
            self@.start_time + self@.n_bins * self@.seconds_per_bin <= u32::MAX,
            self@.start_day < u32::MAX,
        ensures
            r == (time >= self@.end_time() && date >= (if self@.end_time() < self@.start_time {
                self@.start_day + 1
            } else {
                self@.start_day as int
            })),
    {
        let end_day = if self.ends_next_day() { self.start_day + 1 } else { self.start_day };
        time >= self.get_end_time() && date >= end_day
    }

    /// This window starts within 30 s of where `previous` ends, round the clock.
    pub fn is_succeeding(&self, previous: &Sector) -> (r: bool)
        requires
            previous@.start_time + previous@.n_bins * previous@.seconds_per_bin <= u32::MAX,
            self@.start_time - previous@.end_time() <= SECONDS_PER_DAY,
            previous@.end_time() - self@.start_time <= SECONDS_PER_DAY,
        ensures
            r == (spec_diff_wrapping(self@.start_time, previous@.end_time() as u32) < 30),
    {
        RealTime::diff_wrapping(self.start_time, previous.get_end_time()) < 30
    }
}

/// Bytes of the sector-list header: magic and count.
pub const SECTOR_LIST_HEADER_SIZE: usize = 4 + 4;
/// Bytes of an encoded sector list.
pub const SECTOR_LIST_SIZE: usize = SECTOR_LIST_HEADER_SIZE + MAX_SECTORS * SECTOR_SIZE;

/// The ASCII magic "SECT" that opens an encoded sector list.
pub open spec fn sector_list_magic() -> Seq<u8> {
    seq![83u8, 69u8, 67u8, 84u8]
}

/// `b` encodes a list of `sectors`: magic, count, the sectors, zeros.
pub open spec fn sector_list_layout(sectors: Seq<SectorModel>, b: Seq<u8>) -> bool {
    &&& b.len() == SECTOR_LIST_SIZE
    &&& b.subrange(0, 4) == sector_list_magic()
    &&& b.subrange(4, 8) == u32_le(sectors.len() as u32)
    &&& forall|k: int|
        0 <= k < sectors.len() ==> #[trigger] b.subrange(8 + 41 * k, 49 + 41 * k) == sectors[k].bytes()
    &&& forall|j: int| 8 + 41 * sectors.len() <= j < SECTOR_LIST_SIZE ==> b[j] == 0
}

/// How a sector found in flash at boot is resumed: work that was waiting or
/// in flight on the receiver, or done, is dropped; a computation or a
/// transmission that was running is queued again; the rest stays as it was.
pub open spec fn resumed(s: SectorModel) -> Option<SectorModel> {
    match s.state {
        SectorState::AWAITING | SectorState::TO_MEASURE | SectorState::MEASURING | SectorState::DONE => None,
        SectorState::COMPUTING => Some(s.with_state(SectorState::TO_COMPUTE)),
        SectorState::COMMUNICATING => Some(s.with_state(SectorState::TO_COMMUNICATE)),
        _ => Some(s),
    }
}

/// The sector `t` holds the same values as `s` apart from its state.
pub open spec fn same_but_state(t: SectorModel, s: SectorModel) -> bool {
    &&& t.uid == s.uid
    &&& t.midpoint_index == s.midpoint_index
    &&& t.measurement_index == s.measurement_index
    &&& t.start_bin_index == s.start_bin_index
    &&& t.start_time == s.start_time
    &&& t.start_day == s.start_day
    &&& t.n_bins == s.n_bins
    &&& t.seconds_per_bin == s.seconds_per_bin
    &&& t.lat == s.lat
    &&& t.lon == s.lon
}

/// Resuming after a reboot changes only the state: work being computed or sent
/// is queued again, work waiting to be computed or sent is kept as it is, and
/// everything else is dropped.
pub proof fn lemma_resumed_changes_only_state(s: SectorModel)
    ensures
        resumed(s) matches Some(t) ==> same_but_state(t, s),
        s.state == SectorState::COMPUTING ==> (resumed(s) matches Some(t) && t.state == SectorState::TO_COMPUTE),
        s.state == SectorState::COMMUNICATING ==> (resumed(s) matches Some(t) && t.state == SectorState::TO_COMMUNICATE),
        s.state == SectorState::TO_COMPUTE ==> resumed(s) == Some(s),
        s.state == SectorState::TO_COMMUNICATE ==> resumed(s) == Some(s),
        (s.state == SectorState::AWAITING || s.state == SectorState::TO_MEASURE || s.state == SectorState::MEASURING
            || s.state == SectorState::DONE) ==> resumed(s) is None,
{
}

/// The sector stored in slot `j` of an encoded list.
pub open spec fn stored_sector(b: Seq<u8>, j: int) -> SectorModel {
    sector_decode(b, 8 + 41 * j)
}

/// Every sector of `v` is one of the sectors stored in `b`, with at most its
/// state changed.
pub open spec fn from_stored(v: Seq<SectorModel>, b: Seq<u8>) -> bool {
    forall|i: int| 0 <= i < v.len() ==> exists|j: int|
        0 <= j < stored_sector_count(b) && same_but_state(#[trigger] v[i], #[trigger] stored_sector(b, j))
}

/// Every sector of a loaded list is one of the stored sectors, with at most
/// its state changed (by resuming after a reboot).
pub proof fn lemma_loaded_keeps_fields(b: Seq<u8>, n: nat, update: bool)
    ensures
        forall|i: int| 0 <= i < loaded_sectors(b, n, update).len() ==> exists|j: int| 0 <= j < n
            && same_but_state(#[trigger] loaded_sectors(b, n, update)[i], #[trigger] stored_sector(b, j)),
        n <= stored_sector_count(b) ==> from_stored(loaded_sectors(b, n, update), b),
    decreases n,
{
    if n > 0 {
        lemma_loaded_keeps_fields(b, (n - 1) as nat, update);
        let prev = loaded_sectors(b, (n - 1) as nat, update);
        let sd = sector_decode(b, 8 + 41 * (n - 1));
        lemma_resumed_changes_only_state(sd);
        assert forall|i: int| 0 <= i < loaded_sectors(b, n, update).len() implies exists|j: int| 0 <= j < n
            && same_but_state(#[trigger] loaded_sectors(b, n, update)[i], #[trigger] stored_sector(b, j)) by {
            if i < prev.len() {
                assert(loaded_sectors(b, n, update)[i] == prev[i]);
                let j = choose|j: int| 0 <= j < n - 1 && same_but_state(prev[i], #[trigger] stored_sector(b, j));
                assert(0 <= j < n && same_but_state(loaded_sectors(b, n, update)[i], stored_sector(b, j)));
            } else {
                assert(same_but_state(loaded_sectors(b, n, update)[i], stored_sector(b, n - 1)));
            }
        }
    }
}

/// The sectors loaded from the first `n` slots of `b`, resumed when `update`.
pub open spec fn loaded_sectors(b: Seq<u8>, n: nat, update: bool) -> Seq<SectorModel>
    decreases n,
{
    if n == 0 {
        Seq::empty()
    } else {
        let prev = loaded_sectors(b, (n - 1) as nat, update);
        let s = sector_decode(b, 8 + 41 * (n - 1));
        if update {
            match resumed(s) {
                Some(t) => prev.push(t),
                None => prev,
            }
        } else {
            prev.push(s)
        }
    }
}

/// The count field of an encoded sector list.
pub open spec fn stored_sector_count(b: Seq<u8>) -> nat {
    u32_at(b, 4) as nat
}

/// `SectorList::from_bytes` runs on `b` without a panic: the magic is readable,
/// and when it matches, every counted sector lies in `b` and at most
/// `MAX_SECTORS` of them are kept.
pub open spec fn sector_list_loadable(b: Seq<u8>, update: bool) -> bool {
    &&& b.len() >= 4
    &&& b.subrange(0, 4) == sector_list_magic() ==> {
        &&& b.len() >= 8
        &&& 8 + 41 * stored_sector_count(b) <= b.len()
        &&& loaded_sectors(b, stored_sector_count(b), update).len() <= MAX_SECTORS
    }
}

/// The indices of the first `n` sectors that are in state `st`, in order.
pub open spec fn indices_in_state(s: Seq<SectorModel>, st: SectorState, n: nat) -> Seq<usize>
    decreases n,
{
    if n == 0 {
        Seq::empty()
    } else {
        let prev = indices_in_state(s, st, (n - 1) as nat);
        if s[n - 1].state == st {
            prev.push((n - 1) as usize)
        } else {
            prev
        }
    }
}

/// Index of the first sector with `uid`, when there is one.
pub open spec fn first_with_uid(s: Seq<SectorModel>, uid: u32) -> Option<int> {
    if exists|i: int| 0 <= i < s.len() && s[i].uid == uid {
        Some(choose|i: int| 0 <= i < s.len() && s[i].uid == uid && forall|j: int| 0 <= j < i ==> s[j].uid != uid)
    } else {
        None
    }
}

/// Index of the first sector in state `st`, when there is one.
pub open spec fn first_in_state(s: Seq<SectorModel>, st: SectorState) -> Option<int> {
    if exists|i: int| 0 <= i < s.len() && s[i].state == st {
        Some(choose|i: int| 0 <= i < s.len() && s[i].state == st && forall|j: int| 0 <= j < i ==> s[j].state != st)
    } else {
        None
    }
}

proof fn lemma_min_index(s: Seq<SectorModel>, st: SectorState, k: int) -> (m: int)
    requires
        0 <= k < s.len(),
        s[k].state == st,
    ensures
        0 <= m <= k,
        s[m].state == st,
        forall|j: int| 0 <= j < m ==> s[j].state != st,
    decreases k,
{
    if exists|j: int| 0 <= j < k && s[j].state == st {
        let j = choose|j: int| 0 <= j < k && s[j].state == st;
        lemma_min_index(s, st, j)
    } else {
        k
    }
}

/// `first_in_state` finds the first sector in the state, when one is in it.
pub proof fn lemma_first_in_state(s: Seq<SectorModel>, st: SectorState)
    ensures
        first_in_state(s, st) matches Some(i) ==> 0 <= i < s.len() && s[i].state == st
            && forall|j: int| 0 <= j < i ==> s[j].state != st,
        first_in_state(s, st) is None ==> forall|j: int| 0 <= j < s.len() ==> s[j].state != st,
{
    if exists|i: int| 0 <= i < s.len() && s[i].state == st {
        let k = choose|i: int| 0 <= i < s.len() && s[i].state == st;
        let _m = lemma_min_index(s, st, k);
    }
}

/// The sectors in flight, at most `MAX_SECTORS`, in the order they were added,
/// and whether they changed since they were last saved.
pub struct SectorList {
    sectors: heapless::Vec<Sector, MAX_SECTORS>,
    changed: bool,
}

impl View for SectorList {
    type V = Seq<SectorModel>;

    closed spec fn view(&self) -> Seq<SectorModel> {
        models(sector_items(self.sectors))
    }
}

impl SectorList {
    pub closed spec fn changed_flag(&self) -> bool {
        self.changed
    }

    proof fn lemma_view_len(&self)
        ensures
            self@.len() == sector_items(self.sectors).len(),
            forall|i: int| 0 <= i < self@.len() ==> #[trigger] self@[i] == sector_items(self.sectors)[i]@,
    {
    }

    pub fn new() -> (r: Self)
        ensures
            r@ == Seq::<SectorModel>::empty(),
            !r.changed_flag(),
    {
        let r = Self { sectors: sectors_new(), changed: false };
        assert(r@ =~= Seq::<SectorModel>::empty());
        r
    }

    pub fn set_changed(&mut self, changed: bool)
        ensures
            final(self)@ == old(self)@,
            final(self).changed_flag() == changed,
    {
        self.changed = changed;
    }

    pub fn has_changed(&self) -> (r: bool)
        ensures
            r == self.changed_flag(),
    {
        self.changed
    }

    pub fn len(&self) -> (r: usize)
        ensures
            r == self@.len(),
            r <= MAX_SECTORS,
    {
        proof {
            self.lemma_view_len();
        }
        sectors_len(&self.sectors)
    }

    /// The sectors, in order.
    pub fn as_slice(&self) -> (r: &[Sector])
        ensures
            r@.len() == self@.len(),
            forall|i: int| 0 <= i < r@.len() ==> #[trigger] r@[i]@ == self@[i],
    {
        proof {
            self.lemma_view_len();
        }
        sectors_as_slice(&self.sectors)
    }

    /// An iterator over the sectors, in order.
    pub fn iter(&self) -> (r: core::slice::Iter<'_, Sector>)
        ensures
            into_iter_elts(r).len() == self@.len(),
            forall|i: int| 0 <= i < self@.len() ==> #[trigger] into_iter_elts(r)[i]@ == self@[i],
    {
        broadcast use vstd::std_specs::slice::axiom_spec_slice_iter;

        proof {
            self.lemma_view_len();
        }
        let s = sectors_as_slice(&self.sectors);
        let it = s.iter();
        proof {
            assert(into_iter_elts(it) == IteratorSpec::remaining(&it).unref());
            assert(IteratorSpec::remaining(&it) == s@.as_ref());
            assert(s@.as_ref().unref() =~= s@);
        }
        it
    }

    /// Removes every sector (the changed flag is left as it is).
    pub fn clear(&mut self)
        ensures
            final(self)@ == Seq::<SectorModel>::empty(),
            final(self).changed_flag() == old(self).changed_flag(),
    {
        sectors_clear(&mut self.sectors);
        assert(self@ =~= Seq::<SectorModel>::empty());
    }

    pub fn from_bytes(data: &[u8], update: bool) -> (r: Option<Self>)
        requires
            sector_list_loadable(data@, update),
        ensures
            r is Some <==> data@.subrange(0, 4) == sector_list_magic(),
            r matches Some(l) ==> l@ == loaded_sectors(data@, stored_sector_count(data@), update)
                && !l.changed_flag(),
            r matches Some(l) ==> from_stored(l@, data@),
    {
        if data[0] != 83 || data[1] != 69 || data[2] != 67 || data[3] != 84 {
            assert(data@.subrange(0, 4) != sector_list_magic()) by {
                if data@.subrange(0, 4) == sector_list_magic() {
                    assert(data@[0] == data@.subrange(0, 4)[0]);
                    assert(data@[1] == data@.subrange(0, 4)[1]);
                    assert(data@[2] == data@.subrange(0, 4)[2]);
                    assert(data@[3] == data@.subrange(0, 4)[3]);
                }
            }
            return None;
        }
        assert(data@.subrange(0, 4) =~= sector_list_magic());
        let mut sectors = sectors_new();
        let num_sectors = get_u32_le(data, 4);
        let ghost total = loaded_sectors(data@, num_sectors as nat, update);
        proof {
            lemma_loaded_len_mono(data@, num_sectors as nat, update);
        }
        let len = data.len();
        let mut i: u32 = 0;
        while i < num_sectors
            invariant
                len == data@.len(),
                8 + 41 * (num_sectors as int) <= data@.len(),
                total == loaded_sectors(data@, num_sectors as nat, update),
                total.len() <= MAX_SECTORS,
                forall|k: nat| k <= num_sectors ==> #[trigger] loaded_sectors(data@, k, update).len() <= total.len(),
                i <= num_sectors,
                models(sector_items(sectors)) == loaded_sectors(data@, i as nat, update),
            decreases num_sectors - i,
        {
            let start = SECTOR_LIST_HEADER_SIZE + i as usize * SECTOR_SIZE;
            let end = start + SECTOR_SIZE;
            let mut chunk = [0u8; SECTOR_SIZE];
            crate::types::event::copy_chunk(data, start, &mut chunk);
            let mut sector = Sector::from_bytes(&chunk);
            proof {
                lemma_decode_copy(chunk@, data@, start as int);
            }
            let ghost before = models(sector_items(sectors));
            let mut keep = true;
            if update {
                match sector.state {
                    SectorState::AWAITING | SectorState::TO_MEASURE | SectorState::MEASURING => {
                        keep = false;
                    },
                    SectorState::COMPUTING => {
                        sector.set_state(SectorState::TO_COMPUTE);
                    },
                    SectorState::COMMUNICATING => {
                        sector.set_state(SectorState::TO_COMMUNICATE);
                    },
                    SectorState::DONE => {
                        keep = false;
                    },
                    _ => {},
                }
            }
            if keep {
                assert(loaded_sectors(data@, (i + 1) as nat, update).len() <= total.len());
                let r = sectors_push(&mut sectors, sector);
                assert(r is Ok);
                assert(models(sector_items(sectors)) =~= before.push(sector@));
            }
            i = i + 1;
        }
        let l = Self { sectors, changed: false };
        proof {
            let ld = loaded_sectors(data@, num_sectors as nat, update);
            lemma_loaded_keeps_fields(data@, num_sectors as nat, update);
            assert(l@ == ld);
            assert(stored_sector_count(data@) == num_sectors as nat);
            assert(from_stored(ld, data@));
        }
        assert(from_stored(l@, data@));
        Some(l)
    }

    pub fn to_bytes(&self) -> (r: [u8; SECTOR_LIST_SIZE])
        ensures
            sector_list_layout(self@, r@),
    {
        proof {
            self.lemma_view_len();
        }
        let mut data = [0u8; SECTOR_LIST_SIZE];
        let n = sectors_len(&self.sectors);
        data[0] = 83;
        data[1] = 69;
        data[2] = 67;
        data[3] = 84;
        put_u32_le(&mut data, 4, n as u32);
        let ghost items = self@;
        let mut i: usize = 0;
        while i < n
            invariant
                n == items.len(),
                n == sector_items(self.sectors).len(),
                n <= MAX_SECTORS,
                items == self@,
                forall|k: int| 0 <= k < items.len() ==> #[trigger] items[k] == sector_items(self.sectors)[k]@,
                i <= n,
                data@.len() == SECTOR_LIST_SIZE,
                data@.subrange(0, 4) == sector_list_magic(),
                data@.subrange(4, 8) == u32_le(n as u32),
                forall|k: int|
                    0 <= k < i ==> #[trigger] data@.subrange(8 + 41 * k, 49 + 41 * k) == items[k].bytes(),
                forall|j: int| 8 + 41 * i <= j < SECTOR_LIST_SIZE ==> data@[j] == 0,
            decreases n - i,
        {
            let start = SECTOR_LIST_HEADER_SIZE + i * SECTOR_SIZE;
            let sb = sectors_ref(&self.sectors, i).to_bytes();
            let ghost before = data@;
            crate::types::event::put_bytes(&mut data, start, &sb);
            assert forall|k: int| 0 <= k < i + 1 implies #[trigger] data@.subrange(8 + 41 * k, 49 + 41 * k)
                == items[k].bytes() by {
                if k < i {
                    assert(data@.subrange(8 + 41 * k, 49 + 41 * k) =~= before.subrange(8 + 41 * k, 49 + 41 * k));
                }
            }
            assert(data@.subrange(0, 4) =~= before.subrange(0, 4));
            assert(data@.subrange(4, 8) =~= before.subrange(4, 8));
            i = i + 1;
        }
        data
    }

    /// Appends a sector (the changed flag is left as it is).
    pub fn push(&mut self, sector: Sector)
        requires
            old(self)@.len() < MAX_SECTORS,
        ensures
            final(self)@ == old(self)@.push(sector@),
            final(self).changed_flag() == old(self).changed_flag(),
    {
        proof {
            self.lemma_view_len();
        }
        let r = sectors_push(&mut self.sectors, sector);
        assert(r is Ok);
        assert(self@ =~= old(self)@.push(sector@));
    }

    /// Index of the first sector with `uid`, when there is one.
    pub fn position_uid(&self, uid: u32) -> (r: Option<usize>)
        ensures
            r matches Some(i) ==> first_with_uid(self@, uid) == Some(i as int) && i < self@.len(),
            r is None ==> first_with_uid(self@, uid) is None,
    {
        proof {
            self.lemma_view_len();
        }
        let n = sectors_len(&self.sectors);
        let mut i: usize = 0;
        while i < n
            invariant
                n == self@.len(),
                n == sector_items(self.sectors).len(),
                forall|k: int| 0 <= k < n ==> #[trigger] self@[k] == sector_items(self.sectors)[k]@,
                i <= n,
                forall|k: int| 0 <= k < i ==> self@[k].uid != uid,
            decreases n - i,
        {
            if sectors_ref(&self.sectors, i).get_uid() == uid {
                proof {
                    let c = choose|j: int| 0 <= j < self@.len() && self@[j].uid == uid && forall|m: int| 0 <= m < j ==> self@[m].uid != uid;
                    assert(0 <= i < self@.len() && self@[i as int].uid == uid && forall|m: int| 0 <= m < i ==> self@[m].uid != uid);
                    if c < i {
                    } else if c > i {
                    }
                }
                return Some(i);
            }
            i = i + 1;
        }
        None
    }

    /// Removes the first sector with `uid`; the list is unchanged when there is none.
    pub fn delete_uid(&mut self, uid: u32)
        ensures
            first_with_uid(old(self)@, uid) matches Some(i) ==> final(self)@ == old(self)@.remove(i),
            first_with_uid(old(self)@, uid) is None ==> final(self)@ == old(self)@,
            final(self).changed_flag() == old(self).changed_flag(),
    {
        proof {
            self.lemma_view_len();
        }
        let index = self.position_uid(uid);
        if let Some(i) = index {
            sectors_remove(&mut self.sectors, i);
            assert(self@ =~= old(self)@.remove(i as int));
        }
    }

    /// The place of the sector at `index`.
    pub fn get_mut(&mut self, index: usize) -> (r: &mut Sector)
        requires
            index < old(self)@.len(),
        ensures
            r@ == old(self)@[index as int],
            final(self)@ == old(self)@.update(index as int, final(r)@),
            final(self).changed_flag() == old(self).changed_flag(),
    {
        proof {
            self.lemma_view_len();
        }
        let ghost pre = sector_items(self.sectors);
        proof {
            lemma_map_update(pre);
        }
        sectors_mut(&mut self.sectors, index)
    }

    /// The sector at `index`.
    pub fn get(&self, index: usize) -> (r: &Sector)
        requires
            index < self@.len(),
        ensures
            r@ == self@[index as int],
    {
        proof {
            self.lemma_view_len();
        }
        sectors_ref(&self.sectors, index)
    }

    /// The place of the first sector with `uid`, when there is one.
    pub fn get_mut_uid(&mut self, uid: u32) -> (r: Option<&mut Sector>)
        ensures
            first_with_uid(old(self)@, uid) is None ==> r is None && final(self)@ == old(self)@,
            first_with_uid(old(self)@, uid) matches Some(i) ==> r matches Some(s) && s@ == old(self)@[i]
                && final(self)@ == old(self)@.update(i, final(s)@),
            final(self).changed_flag() == old(self).changed_flag(),
    {
        match self.position_uid(uid) {
            Some(i) => Some(self.get_mut(i)),
            None => None,
        }
    }

    /// Index of the first sector in state `state`, when there is one.
    pub fn get_idx_for_state(&self, state: SectorState) -> (r: Option<usize>)
        ensures
            r matches Some(i) ==> first_in_state(self@, state) == Some(i as int) && i < self@.len(),
            r is None ==> first_in_state(self@, state) is None,
    {
        proof {
            self.lemma_view_len();
        }
        let n = sectors_len(&self.sectors);
        let mut i: usize = 0;
        while i < n
            invariant
                n == self@.len(),
                n == sector_items(self.sectors).len(),
                forall|k: int| 0 <= k < n ==> #[trigger] self@[k] == sector_items(self.sectors)[k]@,
                i <= n,
                forall|k: int| 0 <= k < i ==> self@[k].state != state,
            decreases n - i,
        {
            if sectors_ref(&self.sectors, i).get_state() == state {
                proof {
                    let c = choose|j: int| 0 <= j < self@.len() && self@[j].state == state && forall|m: int| 0 <= m < j ==> self@[m].state != state;
                    assert(0 <= i < self@.len() && self@[i as int].state == state && forall|m: int| 0 <= m < i ==> self@[m].state != state);
                    if c < i {
                    } else if c > i {
                    }
                }
                return Some(i);
            }
            i = i + 1;
        }
        None
    }

    /// Indices of all sectors in state `state`, in order.
    pub fn get_idxs_for_state(&self, state: SectorState) -> (r: heapless::Vec<usize, MAX_SECTORS>)
        ensures
            index_items(r) == indices_in_state(self@, state, self@.len()),
    {
        proof {
            self.lemma_view_len();
        }
        let n = sectors_len(&self.sectors);
        let mut indices = indices_new();
        let mut i: usize = 0;
        while i < n
            invariant
                n == self@.len(),
                n == sector_items(self.sectors).len(),
                n <= MAX_SECTORS,
                forall|k: int| 0 <= k < n ==> #[trigger] self@[k] == sector_items(self.sectors)[k]@,
                i <= n,
                index_items(indices) == indices_in_state(self@, state, i as nat),
                index_items(indices).len() <= i,
            decreases n - i,
        {
            if sectors_ref(&self.sectors, i).get_state() == state {
                let r = indices_push(&mut indices, i);
                assert(r is Ok);
            }
            i = i + 1;
        }
        indices
    }
}

/// The values of a sequence of sectors.
pub open spec fn models(s: Seq<Sector>) -> Seq<SectorModel> {
    s.map_values(|t: Sector| t@)
}

proof fn lemma_map_update(s: Seq<Sector>)
    ensures
        forall|i: int, x: Sector| 0 <= i < s.len() ==> #[trigger] models(s.update(i, x))
            == models(s).update(i, x@),
{
    assert forall|i: int, x: Sector| 0 <= i < s.len() implies #[trigger] models(s.update(i, x))
        == models(s).update(i, x@) by {
        assert(models(s.update(i, x)) =~= models(s).update(i, x@));
    }
}

/// Whether `SectorList::from_bytes` can load `data` (see `sector_list_loadable`):
/// a short buffer or a list of too many sectors to keep is refused here rather
/// than by a panic.
pub fn sector_list_loadable_bytes(data: &[u8], update: bool) -> (r: bool)
    ensures
        r == sector_list_loadable(data@, update),
{
    let len = data.len();
    if len < 4 {
        return false;
    }
    if data[0] != 83 || data[1] != 69 || data[2] != 67 || data[3] != 84 {
        assert(data@.subrange(0, 4) != sector_list_magic()) by {
            if data@.subrange(0, 4) == sector_list_magic() {
                assert(data@[0] == data@.subrange(0, 4)[0]);
                assert(data@[1] == data@.subrange(0, 4)[1]);
                assert(data@[2] == data@.subrange(0, 4)[2]);
                assert(data@[3] == data@.subrange(0, 4)[3]);
            }
        }
        return true;
    }
    assert(data@.subrange(0, 4) =~= sector_list_magic());
    if len < 8 {
        return false;
    }
    let count = get_u32_le(data, 4);
    if 8 + 41 * (count as u64) > len as u64 {
        return false;
    }
    let mut kept: usize = 0;
    let mut i: u32 = 0;
    while i < count
        invariant
            len == data@.len(),
            8 + 41 * (count as int) <= len,
            count as nat == stored_sector_count(data@),
            data@.subrange(0, 4) == sector_list_magic(),
            i <= count,
            kept == loaded_sectors(data@, i as nat, update).len(),
            kept <= MAX_SECTORS,
        decreases count - i,
    {
        let code = data[8 + 41 * (i as usize) + 32];
        assert(code == data@[8 + 41 * (i as int) + 32]);
        let keep = !update || code == 3 || code == 4 || code == 5 || code == 6;
        assert(keep == (!update || resumed(sector_decode(data@, 8 + 41 * (i as int))) is Some));
        if keep {
            if kept == MAX_SECTORS {
                proof {
                    lemma_loaded_len_mono(data@, count as nat, update);
                    assert(loaded_sectors(data@, (i + 1) as nat, update).len() > MAX_SECTORS);
                    assert(loaded_sectors(data@, (i + 1) as nat, update).len()
                        <= loaded_sectors(data@, count as nat, update).len());
                    assert(stored_sector_count(data@) == count as nat);
                }
                return false;
            }
            kept = kept + 1;
        }
        i = i + 1;
    }
    true
}

proof fn lemma_loaded_len_mono(b: Seq<u8>, n: nat, update: bool)
    ensures
        forall|k: nat| k <= n ==> #[trigger] loaded_sectors(b, k, update).len() <= loaded_sectors(b, n, update).len(),
    decreases n,
{
    if n > 0 {
        lemma_loaded_len_mono(b, (n - 1) as nat, update);
    }
}

/// A list reloaded at boot holds only work to redo: every sector in it is
/// waiting to be computed or to be sent.
pub proof fn lemma_resumed_states(b: Seq<u8>, n: nat)
    ensures
        forall|i: int| 0 <= i < loaded_sectors(b, n, true).len() ==> {
            let st = #[trigger] loaded_sectors(b, n, true)[i].state;
            st == SectorState::TO_COMPUTE || st == SectorState::TO_COMMUNICATE
        },
    decreases n,
{
    if n > 0 {
        lemma_resumed_states(b, (n - 1) as nat);
    }
}

/// What is written to flash is what is read back: loading an encoded sector
/// list without resuming gives its sectors.
pub proof fn lemma_sector_list_roundtrip(sectors: Seq<SectorModel>, b: Seq<u8>)
    requires
        sectors.len() <= MAX_SECTORS,
        sector_list_layout(sectors, b),
    ensures
        sector_list_loadable(b, false),
        b.subrange(0, 4) == sector_list_magic(),
        stored_sector_count(b) == sectors.len(),
        loaded_sectors(b, sectors.len(), false) == sectors,
{
    lemma_u32_le_roundtrip(sectors.len() as u32, b, 4);
    lemma_loaded_prefix(sectors, b, sectors.len());
    assert(sectors.take(sectors.len() as int) =~= sectors);
}

proof fn lemma_loaded_prefix(sectors: Seq<SectorModel>, b: Seq<u8>, n: nat)
    requires
        sectors.len() <= MAX_SECTORS,
        n <= sectors.len(),
        sector_list_layout(sectors, b),
    ensures
        loaded_sectors(b, n, false) == sectors.take(n as int),
    decreases n,
{
    if n > 0 {
        lemma_loaded_prefix(sectors, b, (n - 1) as nat);
        let k = n - 1;
        assert(b.subrange(8 + 41 * k, 49 + 41 * k) == sectors[k].bytes());
        lemma_sector_roundtrip(sectors[k], b, 8 + 41 * k);
        assert(sectors.take(n as int) =~= sectors.take(k).push(sectors[k]));
    }
}

} // verus!
