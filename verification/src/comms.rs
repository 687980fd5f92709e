//! The uplink packet sent over Iridium, and the decisions of the comms task:
//! which measurements go into a packet and what a constellation check reports.
use vstd::prelude::*;
use crate::bytes::{put_u16_le, u16_le};
use crate::hvec::{
    byte64_items, bytes64_extend, bytes64_new, record_items, records_at, records_len, records_new, records_push,
    sector_items, sectors_len, sectors_ref, uid_items, uids_new, uids_push,
};
use crate::types::sector::Sector;
use crate::types::{MAX_SECTORS, NUM_MEASUREMENTS};

verus! {

/// Bytes of one measurement record.
pub const MEASUREMENT_PACKET_SIZE: usize = 6;
/// Bytes of the packet header reserved in the buffer size.
pub const PACKET_HEADER_SIZE: usize = 4;
/// Most measurement records in a packet.
pub const MAX_MEASUREMENT_PACKETS: usize = 10;
/// Capacity of the packet buffer.
pub const PACKET_SIZE: usize = PACKET_HEADER_SIZE + (MAX_MEASUREMENT_PACKETS * MEASUREMENT_PACKET_SIZE);
/// Lowest battery voltage (mV) of the scaled range.
pub const MIN_BATTERY_MV: u32 = 2000;
/// Highest battery voltage (mV) of the scaled range.
pub const MAX_BATTERY_MV: u32 = 5000;

/// One measurement as sent: low byte of the uid, scaled mean and spread of the
/// relative height, observations used and seen.
#[derive(Clone, Copy, Debug, PartialEq, Eq, Structural)]
pub struct MeasurementPacket {
    uid: u8,
    relative_height_mean: u16,
    relative_height_std: u8,
    num_observations_used: u8,
    num_observations_seen: u8,
}

impl MeasurementPacket {
    /// Encoding: uid, mean little-endian, spread, used, seen.
    pub closed spec fn bytes(self) -> Seq<u8> {
        seq![self.uid] + u16_le(self.relative_height_mean) + seq![
            self.relative_height_std,
            self.num_observations_used,
            self.num_observations_seen,
        ]
    }

    pub fn new(
        uid: u8,
        relative_height_mean: u16,
        relative_height_std: u8,
        num_observations_used: u8,
        num_observations_seen: u8,
    ) -> (r: Self)
        ensures
            r.bytes() == seq![uid] + u16_le(relative_height_mean) + seq![
                relative_height_std,
                num_observations_used,
                num_observations_seen,
            ],
    {
        Self { uid, relative_height_mean, relative_height_std, num_observations_used, num_observations_seen }
    }

    pub fn to_bytes(&self) -> (r: [u8; MEASUREMENT_PACKET_SIZE])
        ensures
            r@ == self.bytes(),
    {
        let mut data = [0u8; MEASUREMENT_PACKET_SIZE];
        data[0] = self.uid;
        put_u16_le(&mut data, 1, self.relative_height_mean);
        data[3] = self.relative_height_std;
        data[4] = self.num_observations_used;
        data[5] = self.num_observations_seen;
        assert(data@ =~= self.bytes()) by {
            assert(data@[1] == data@.subrange(1, 3)[0]);
            assert(data@[2] == data@.subrange(1, 3)[1]);
        }
        data
    }
}

/// An uplink packet: scaled battery voltage and temperature, position bytes,
/// charge-state fraction, and up to `MAX_MEASUREMENT_PACKETS` measurements.
pub struct Packet {
    battery: u8,
    temp: u8,
    lat: u8,
    lon: u8,
    charge_state_fraction: u8,
    measurements: heapless::Vec<MeasurementPacket, MAX_MEASUREMENT_PACKETS>,
}

/// The records that fit in the packet buffer after the five header bytes,
/// each appended whole while it fits: the first nine.
pub open spec fn records_that_fit(records: Seq<MeasurementPacket>, n: nat) -> Seq<u8>
    decreases n,
{
    if n == 0 {
        Seq::empty()
    } else {
        let prev = records_that_fit(records, (n - 1) as nat);
        if 5 + prev.len() + 6 <= PACKET_SIZE {
            prev + records[n - 1].bytes()
        } else {
            prev
        }
    }
}

impl Packet {
    pub closed spec fn header(&self) -> Seq<u8> {
        seq![self.battery, self.temp, self.lat, self.lon, self.charge_state_fraction]
    }

    pub closed spec fn records(&self) -> Seq<MeasurementPacket> {
        record_items(self.measurements)
    }

    pub fn new(battery: u8, temp: u8, charge_state_fraction: u8) -> (r: Self)
        ensures
            r.header() == seq![battery, temp, 0u8, 0u8, charge_state_fraction],
            r.records() == Seq::<MeasurementPacket>::empty(),
    {
        Self { battery, temp, lat: 0, lon: 0, charge_state_fraction, measurements: records_new() }
    }

    pub fn set_location(&mut self, lat: u8, lon: u8)
        ensures
            final(self).header() == old(self).header().update(2, lat).update(3, lon),
            final(self).records() == old(self).records(),
    {
        self.lat = lat;
        self.lon = lon;
        assert(self.header() =~= old(self).header().update(2, lat).update(3, lon));
    }

    /// Adds a measurement; `Err` when the packet already holds the most it can.
    pub fn push(&mut self, measurement: MeasurementPacket) -> (r: Result<(), ()>)
        ensures
            r is Ok <==> old(self).records().len() < MAX_MEASUREMENT_PACKETS,
            r is Ok ==> final(self).records() == old(self).records().push(measurement),
            r is Err ==> final(self).records() == old(self).records(),
            final(self).header() == old(self).header(),
    {
        match records_push(&mut self.measurements, measurement) {
            Ok(()) => Ok(()),
            Err(_) => Err(()),
        }
    }

    /// Number of measurements in the packet.
    pub fn len(&self) -> (r: usize)
        ensures
            r == self.records().len(),
            r <= MAX_MEASUREMENT_PACKETS,
    {
        records_len(&self.measurements)
    }

    /// The header bytes, then every measurement record that still fits the
    /// buffer (the first nine; a tenth would overflow it and is left out).
    pub fn to_bytes(&self) -> (r: heapless::Vec<u8, PACKET_SIZE>)
        ensures
            byte64_items(r) == self.header() + records_that_fit(self.records(), self.records().len()),
    {
        let mut data = bytes64_new();
        let h = [self.battery, self.temp, self.lat, self.lon, self.charge_state_fraction];
        let r = bytes64_extend(&mut data, &h);
        assert(r is Ok);
        assert(h@ =~= self.header());
        let n = records_len(&self.measurements);
        let mut i: usize = 0;
        while i < n
            invariant
                n == self.records().len(),
                i <= n,
                byte64_items(data) == self.header() + records_that_fit(self.records(), i as nat),
                self.header().len() == 5,
            decreases n - i,
        {
            let rec = records_at(&self.measurements, i);
            let b = rec.to_bytes();
            let ghost before = byte64_items(data);
            let _ = bytes64_extend(&mut data, &b);
            proof {
                let prev = records_that_fit(self.records(), i as nat);
                if 5 + prev.len() + 6 <= PACKET_SIZE {
                    assert(byte64_items(data) =~= self.header() + (prev + rec.bytes()));
                }
            }
            i = i + 1;
        }
        data
    }
}

/// What the comms task reports of a transmission or a check.
#[derive(Debug, Clone, Copy, PartialEq, Eq, Structural)]
pub enum CommsError {
    StorageAccess,
    RockBlockNoPower,
    RockBlockNotReady,
    RockBlockSendFail,
}

/// The uids of the sectors, in order (at most `MAX_SECTORS` of them).
pub fn sector_uids(sectors: &heapless::Vec<Sector, MAX_SECTORS>) -> (r: heapless::Vec<u32, MAX_SECTORS>)
    ensures
        uid_items(r) == sector_items(*sectors).map_values(|s: Sector| s@.uid),
{
    let n = sectors_len(sectors);
    let mut uids = uids_new();
    let mut i: usize = 0;
    while i < n
        invariant
            n == sector_items(*sectors).len(),
            n <= MAX_SECTORS,
            i <= n,
            uid_items(uids) =~= sector_items(*sectors).take(i as int).map_values(|s: Sector| s@.uid),
        decreases n - i,
    {
        let r = uids_push(&mut uids, sectors_ref(sectors, i).get_uid());
        assert(r is Ok);
        i = i + 1;
    }
    assert(sector_items(*sectors).take(n as int) =~= sector_items(*sectors));
    uids
}

/// Packet assembly of a transmission: the records added so far and the newest
/// sector (highest uid) whose measurement was read, with its measurement slot
/// and position (bit patterns of the `f32` latitude and longitude).
pub struct PacketBuilder {
    pub packet: Packet,
    pub highest_uid: u32,
    pub highest_index: u32,
    pub lat: u32,
    pub lon: u32,
}

impl PacketBuilder {
    /// An empty packet with the scaled battery voltage and temperature and the
    /// charge-state fraction; no sector seen yet.
    pub fn new(battery: u8, temp: u8, charge_state_fraction: u8) -> (r: Self)
        ensures
            r.packet.header() == seq![battery, temp, 0u8, 0u8, charge_state_fraction],
            r.packet.records() == Seq::<MeasurementPacket>::empty(),
            r.highest_uid == 0 && r.highest_index == 0 && r.lat == 0 && r.lon == 0,
    {
        PacketBuilder { packet: Packet::new(battery, temp, charge_state_fraction), highest_uid: 0, highest_index: 0, lat: 0, lon: 0 }
    }

    /// Takes the measurement read for a sector being sent (`None` when it could
    /// not be read): a sector with a higher uid than any before becomes the
    /// newest, and its record is added. Returns `false` when the packet was
    /// full, which ends the assembly.
    pub fn add_sector(&mut self, sector: &Sector, measurement: Option<MeasurementPacket>) -> (r: bool)
        ensures
            measurement is None ==> r && final(self).packet.records() == old(self).packet.records()
                && final(self).highest_uid == old(self).highest_uid
                && final(self).highest_index == old(self).highest_index
                && final(self).lat == old(self).lat && final(self).lon == old(self).lon,
            measurement matches Some(m) ==> {
                let newer = sector@.uid > old(self).highest_uid;
                &&& final(self).highest_uid == (if newer { sector@.uid } else { old(self).highest_uid })
                &&& final(self).highest_index == (if newer { sector@.measurement_index } else { old(self).highest_index })
                &&& final(self).lat == (if newer { sector@.lat } else { old(self).lat })
                &&& final(self).lon == (if newer { sector@.lon } else { old(self).lon })
                &&& r == (old(self).packet.records().len() < MAX_MEASUREMENT_PACKETS)
                &&& r ==> final(self).packet.records() == old(self).packet.records().push(m)
                &&& !r ==> final(self).packet.records() == old(self).packet.records()
            },
            final(self).packet.header() == old(self).packet.header(),
    {
        if let Some(m) = measurement {
            if sector.get_uid() > self.highest_uid {
                self.highest_uid = sector.get_uid();
                self.highest_index = sector.get_measurement_index();
                self.lat = sector.get_lat();
                self.lon = sector.get_lon();
            }
            if self.packet.push(m).is_err() {
                return false;
            }
        }
        true
    }

    /// Takes an older measurement added to fill the packet (`None` when it could
    /// not be read). Returns `false` when the packet was full.
    pub fn add_older(&mut self, measurement: Option<MeasurementPacket>) -> (r: bool)
        ensures
            measurement is None ==> r && final(self).packet.records() == old(self).packet.records(),
            measurement matches Some(m) ==> {
                &&& r == (old(self).packet.records().len() < MAX_MEASUREMENT_PACKETS)
                &&& r ==> final(self).packet.records() == old(self).packet.records().push(m)
                &&& !r ==> final(self).packet.records() == old(self).packet.records()
            },
            final(self).packet.header() == old(self).packet.header(),
            final(self).highest_uid == old(self).highest_uid,
            final(self).highest_index == old(self).highest_index,
            final(self).lat == old(self).lat && final(self).lon == old(self).lon,
    {
        if let Some(m) = measurement {
            if self.packet.push(m).is_err() {
                return false;
            }
        }
        true
    }
}

/// The measurement slots of the older measurements that fill a packet: the
/// `num_measurements - num_sectors` slots before the newest one, going back
/// round the ring of `NUM_MEASUREMENTS` slots.
pub open spec fn older_slots(highest_index: u32, count: nat) -> Seq<u32> {
    Seq::new(count, |i: int| ((highest_index - (i + 1)) % (NUM_MEASUREMENTS as int)) as u32)
}

/// Slots of the older measurements to add after the sectors' own, nearest
/// first.
pub fn older_measurement_slots(highest_index: u32, num_measurements: u32, num_sectors: u32) -> (r: Vec<u32>)
    requires
        num_sectors <= num_measurements,
        num_measurements - num_sectors + 1 <= u32::MAX,
        num_measurements - num_sectors <= highest_index,
    ensures
        r@ == older_slots(highest_index, (num_measurements - num_sectors) as nat),
{
    let mut out: Vec<u32> = Vec::new();
    let end = num_measurements - num_sectors + 1;
    let mut i: u32 = 1;
    while i < end
        invariant
            1 <= i,
            end == num_measurements - num_sectors + 1,
            i <= end,
            num_measurements - num_sectors <= highest_index,
            out@ =~= older_slots(highest_index, (i - 1) as nat),
        decreases end - i,
    {
        out.push((highest_index - i) % NUM_MEASUREMENTS as u32);
        i = i + 1;
    }
    out
}

/// The older slots that a packet can be filled from: the `num_measurements -
/// num_sectors` slots before the newest, but none below slot `0` counted back
/// from `highest_index`. The flag tells that more were asked for than that, so
/// that reading on while the packet still had room would go below slot `0`.
pub fn older_slot_plan(highest_index: u32, num_measurements: u32, num_sectors: u32) -> (r: (Vec<u32>, bool))
    requires
        num_sectors <= num_measurements,
        num_measurements - num_sectors + 1 <= u32::MAX,
    ensures
        ({
            let count = num_measurements - num_sectors;
            let usable = if count <= highest_index { count } else { highest_index as int };
            &&& r.0@ == older_slots(highest_index, usable as nat)
            &&& r.1 == (count > highest_index)
        }),
{
    let count = num_measurements - num_sectors;
    let usable = if count <= highest_index { count } else { highest_index };
    let slots = older_measurement_slots(highest_index, num_sectors + usable, num_sectors);
    (slots, count > highest_index)
}

/// Best signal seen over the polls of a constellation check, and whether a
/// poll failed.
pub struct ConstellationSummary {
    pub signal_bars_max: u8,
    pub signal_level_max: i8,
    pub constellation_visible: bool,
    pub is_error: bool,
}

impl ConstellationSummary {
    /// Nothing seen yet: lowest bars and level, nothing visible, no failure.
    pub fn new() -> (r: Self)
        ensures
            r.signal_bars_max == 0 && r.signal_level_max == i8::MIN && !r.constellation_visible && !r.is_error,
    {
        ConstellationSummary { signal_bars_max: 0, signal_level_max: i8::MIN, constellation_visible: false, is_error: false }
    }

    /// Folds in one poll: its bars, level (the lowest when unknown) and
    /// visibility, or a failure when the poll gave nothing.
    pub fn add_poll(&mut self, poll: Option<(u8, Option<i8>, bool)>)
        ensures
            poll is None ==> final(self).is_error && final(self).signal_bars_max == old(self).signal_bars_max
                && final(self).signal_level_max == old(self).signal_level_max
                && final(self).constellation_visible == old(self).constellation_visible,
            poll matches Some((bars, level, visible)) ==> {
                let lv = match level { Some(l) => l, None => i8::MIN };
                &&& final(self).signal_bars_max == (if bars > old(self).signal_bars_max { bars } else { old(self).signal_bars_max })
                &&& final(self).signal_level_max == (if lv > old(self).signal_level_max { lv } else { old(self).signal_level_max })
                &&& final(self).constellation_visible == (old(self).constellation_visible || visible)
                &&& final(self).is_error == old(self).is_error
            },
    {
        match poll {
            Some((bars, level, visible)) => {
                if bars > self.signal_bars_max {
                    self.signal_bars_max = bars;
                }
                let lv = match level {
                    Some(l) => l,
                    None => i8::MIN,
                };
                if lv > self.signal_level_max {
                    self.signal_level_max = lv;
                }
                self.constellation_visible = self.constellation_visible || visible;
            },
            None => {
                self.is_error = true;
            },
        }
    }

    /// The outcome: the best values, or `RockBlockSendFail` when a poll failed.
    pub fn result(&self) -> (r: Result<(u8, i8, bool), CommsError>)
        ensures
            self.is_error ==> r == Err::<(u8, i8, bool), CommsError>(CommsError::RockBlockSendFail),
            !self.is_error ==> r == Ok::<(u8, i8, bool), CommsError>((self.signal_bars_max, self.signal_level_max, self.constellation_visible)),
    {
        if self.is_error {
            Err(CommsError::RockBlockSendFail)
        } else {
            Ok((self.signal_bars_max, self.signal_level_max, self.constellation_visible))
        }
    }
}

} // verus!
