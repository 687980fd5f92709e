//! Where records live in flash: containers of 15 blocks after `START_ADDRESS`,
//! and the checks made before each flash access. The flash itself is driven
//! by the caller.
use vstd::prelude::*;
use crate::bytes::{get_u32_le, u32_at};
use crate::types::{
    BINS_CONTAINER_START, BLOCK_SIZE, CONFIG_BLOCK_START, CONFIG_CONTAINER_START, CONTAINER_SIZE,
    EVENTLOG_BLOCK_START, EVENTLOG_CONTAINER_START, MEASUREMENTS_CONTAINER_START, MEASUREMENT_STORAGE_SIZE,
    SECTOR_BLOCK_START, SECTOR_CONTAINER_START, START_ADDRESS,
};

verus! {

/// Flash address of container `container_id` (its index taken as a `u32`).
pub open spec fn spec_container_address(container_id: usize) -> int {
    START_ADDRESS + (container_id as u32) * (CONTAINER_SIZE as int)
}

/// Flash address of the start of a container.
pub fn container_address(container_id: usize) -> (r: u32)
    requires
        spec_container_address(container_id) <= u32::MAX,
    ensures
        r == spec_container_address(container_id),
{
    let id = #[verifier::truncate] (container_id as u32);
    START_ADDRESS + id * CONTAINER_SIZE as u32
}

/// A read or write of `len` bytes at `offset` stays within one container; the
/// flash is not touched when it does not.
pub fn fits_in_container(offset: u32, len: usize) -> (r: bool)
    requires
        offset + len <= usize::MAX,
    ensures
        r == (offset + len <= CONTAINER_SIZE),
{
    !(offset as usize + len > CONTAINER_SIZE)
}

/// Flash address range of an erase of `[start_offset, end_offset)` in a container.
pub fn erase_range(container_id: usize, start_offset: u32, end_offset: u32) -> (r: (u32, u32))
    requires
        spec_container_address(container_id) + start_offset <= u32::MAX,
        spec_container_address(container_id) + end_offset <= u32::MAX,
    ensures
        r.0 == spec_container_address(container_id) + start_offset,
        r.1 == spec_container_address(container_id) + end_offset,
{
    let start = container_address(container_id) + start_offset;
    let end = container_address(container_id) + end_offset;
    (start, end)
}

/// The bins: one container each, from `BINS_CONTAINER_START`.
pub struct BinStorage {}

impl BinStorage {
    pub fn new() -> Self {
        Self {}
    }

    /// Container of bin `bin_id`.
    pub fn get_container_id(&self, bin_id: u32) -> (r: usize)
        requires
            BINS_CONTAINER_START + bin_id <= usize::MAX,
        ensures
            r == BINS_CONTAINER_START + bin_id,
    {
        BINS_CONTAINER_START + bin_id as usize
    }
}

/// The measurements: one block-sized slot each in their container.
pub struct MeasurementStorage {}

impl MeasurementStorage {
    pub fn new() -> Self {
        Self {}
    }

    /// The container of the measurements.
    pub fn get_container_id(&self) -> (r: usize)
        ensures
            r == MEASUREMENTS_CONTAINER_START,
    {
        MEASUREMENTS_CONTAINER_START
    }

    /// Offsets `[start, end)` of slot `location` for a store, or `Err` when
    /// its end lies beyond `CONTAINER_SIZE * BLOCK_SIZE`.
    pub fn store_range(&self, location: u32) -> (r: Result<(u32, u32), ()>)
        requires
            location * MEASUREMENT_STORAGE_SIZE + MEASUREMENT_STORAGE_SIZE <= u32::MAX,
        ensures
            ({
                let start = location * MEASUREMENT_STORAGE_SIZE;
                let end = start + MEASUREMENT_STORAGE_SIZE;
                &&& end > CONTAINER_SIZE * BLOCK_SIZE ==> r is Err
                &&& end <= CONTAINER_SIZE * BLOCK_SIZE ==> r == Ok::<(u32, u32), ()>((start as u32, end as u32))
            }),
    {
        let start_offset = location * MEASUREMENT_STORAGE_SIZE as u32;
        let end_offset = start_offset + MEASUREMENT_STORAGE_SIZE as u32;
        if end_offset as usize > CONTAINER_SIZE * BLOCK_SIZE {
            return Err(());
        }
        Ok((start_offset, end_offset))
    }

    /// Offset of slot `location` for a read, or `None` when the slot's end lies
    /// beyond `CONTAINER_SIZE * BLOCK_SIZE`.
    pub fn read_offset(&self, location: u32) -> (r: Option<u32>)
        requires
            location * MEASUREMENT_STORAGE_SIZE + MEASUREMENT_STORAGE_SIZE <= u32::MAX,
        ensures
            ({
                let offset = location * MEASUREMENT_STORAGE_SIZE;
                &&& offset + MEASUREMENT_STORAGE_SIZE > CONTAINER_SIZE * BLOCK_SIZE ==> r is None
                &&& offset + MEASUREMENT_STORAGE_SIZE <= CONTAINER_SIZE * BLOCK_SIZE ==> r == Some(offset as u32)
            }),
    {
        let offset = location * MEASUREMENT_STORAGE_SIZE as u32;
        if (offset + MEASUREMENT_STORAGE_SIZE as u32) as usize > CONTAINER_SIZE * BLOCK_SIZE {
            return None;
        }
        Some(offset)
    }
}

/// The sector list: one block of the shared container.
pub struct SectorStorage {}

impl SectorStorage {
    pub fn new() -> Self {
        Self {}
    }

    /// Container and block offsets `[start, end)` of the sector list.
    pub fn location(&self) -> (r: (usize, u32, u32))
        ensures
            r == (SECTOR_CONTAINER_START, (SECTOR_BLOCK_START * BLOCK_SIZE) as u32, ((SECTOR_BLOCK_START + 1) * BLOCK_SIZE) as u32),
    {
        (SECTOR_CONTAINER_START, (SECTOR_BLOCK_START * BLOCK_SIZE) as u32, ((SECTOR_BLOCK_START + 1) * BLOCK_SIZE) as u32)
    }
}

/// The configuration: one block of the shared container.
pub struct ConfigStorage {}

impl ConfigStorage {
    pub fn new() -> Self {
        Self {}
    }

    /// Container and block offsets `[start, end)` of the configuration.
    pub fn location(&self) -> (r: (usize, u32, u32))
        ensures
            r == (CONFIG_CONTAINER_START, (CONFIG_BLOCK_START * BLOCK_SIZE) as u32, ((CONFIG_BLOCK_START + 1) * BLOCK_SIZE) as u32),
    {
        (CONFIG_CONTAINER_START, (CONFIG_BLOCK_START * BLOCK_SIZE) as u32, ((CONFIG_BLOCK_START + 1) * BLOCK_SIZE) as u32)
    }
}

/// The event log: one block of the shared container.
pub struct EventLogStorage {}

impl EventLogStorage {
    pub fn new() -> Self {
        Self {}
    }

    /// Container and block offsets `[start, end)` of the event log.
    pub fn location(&self) -> (r: (usize, u32, u32))
        ensures
            r == (EVENTLOG_CONTAINER_START, (EVENTLOG_BLOCK_START * BLOCK_SIZE) as u32, ((EVENTLOG_BLOCK_START + 1) * BLOCK_SIZE) as u32),
    {
        (EVENTLOG_CONTAINER_START, (EVENTLOG_BLOCK_START * BLOCK_SIZE) as u32, ((EVENTLOG_BLOCK_START + 1) * BLOCK_SIZE) as u32)
    }
}


/// The little-endian words of `b`, a trailing part word left out.
pub open spec fn le_words(b: Seq<u8>) -> Seq<u32> {
    Seq::new((b.len() / 4) as nat, |k: int| u32_at(b, 4 * k))
}

/// Time (seconds into the bin) that a bin header gives its samples.
pub open spec fn header_time(h: u32) -> u16 {
    (h >> 8u32) as u16
}

/// Number of samples that a bin header announces.
pub open spec fn header_count(h: u32) -> u8 {
    (h & 0xffu32) as u8
}

/// The samples of a bin container from word `i` on, each with the time of its
/// header. A header announces up to 255 samples in the words after it; a
/// header with no samples or with the time `u16::MAX` (erased flash) is
/// skipped; the samples stop where the words do.
pub open spec fn samples_from(w: Seq<u32>, i: int) -> Seq<(u16, u32)>
    decreases w.len() - i,
{
    if i < 0 || i >= w.len() {
        Seq::empty()
    } else {
        let t = header_time(w[i]);
        let n = header_count(w[i]) as int;
        if t == u16::MAX || n == 0 {
            samples_from(w, i + 1)
        } else {
            let k = if n < w.len() - 1 - i { n } else { w.len() - 1 - i };
            Seq::new(k as nat, |j: int| (t, w[i + 1 + j])) + samples_from(w, i + 1 + k)
        }
    }
}

/// The samples stored in a bin container, in order, each with its time.
pub fn bin_samples(buf: &[u8]) -> (r: Vec<(u16, u32)>)
    ensures
        r@ == samples_from(le_words(buf@), 0),
{
    let ghost w = le_words(buf@);
    let nw = buf.len() / 4;
    let mut out: Vec<(u16, u32)> = Vec::new();
    let mut i: usize = 0;
    while i < nw
        invariant
            nw == w.len(),
            w == le_words(buf@),
            4 * nw <= buf.len(),
            i <= nw,
            out@ + samples_from(w, i as int) == samples_from(w, 0),
        decreases nw - i,
    {
        let header = get_u32_le(buf, 4 * i);
        assert(header == w[i as int]);
        let time = #[verifier::truncate] ((header >> 8) as u16);
        let num = #[verifier::truncate] ((header & 0xff) as u8);
        if time == u16::MAX || num == 0 {
            i = i + 1;
        } else {
            let avail = nw - 1 - i;
            let k: usize = if (num as usize) < avail { num as usize } else { avail };
            let ghost before = out@;
            let ghost chunk = Seq::new(k as nat, |j: int| (time, w[i + 1 + j]));
            assert(samples_from(w, i as int) == chunk + samples_from(w, i + 1 + k));
            let mut j: usize = 0;
            while j < k
                invariant
                    nw == w.len(),
                    w == le_words(buf@),
                    4 * nw <= buf.len(),
                    i + 1 + k <= nw,
                    j <= k,
                    chunk == Seq::new(k as nat, |m: int| (time, w[i + 1 + m])),
                    out@ == before + chunk.take(j as int),
                decreases k - j,
            {
                let sample = get_u32_le(buf, 4 * (i + 1 + j));
                assert(sample == w[i + 1 + j]);
                out.push((time, sample));
                assert(chunk.take(j + 1) =~= chunk.take(j as int).push((time, sample)));
                j = j + 1;
            }
            assert(chunk.take(k as int) =~= chunk);
            assert(before + chunk + samples_from(w, i + 1 + k) =~= before + (chunk + samples_from(w, i + 1 + k)));
            i = i + 1 + k;
        }
    }
    assert(samples_from(w, i as int) =~= Seq::<(u16, u32)>::empty());
    assert(out@ + Seq::<(u16, u32)>::empty() =~= out@);
    out
}

} // verus!
