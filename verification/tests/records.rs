use control::types::config::{Config, CONFIG_SIZE};
use control::types::event::{BootEvent, Event, EventCoder, EventLog, EventType};
use control::types::measurement::{Measurement, Observation, MEASUREMENT_SIZE, OBSERVATION_SIZE};
use control::types::sector::{Sector, SectorList, SectorState, SECTOR_SIZE};
use control::types::{EVENTLOG_SIZE, EVENT_SIZE, MAX_EVENTS};

fn sample_sector(uid: u32, state: SectorState) -> Sector {
    Sector::new(uid, 2, 3, 4, 3600, 19723, 3, 1200, state)
}

#[test]
fn boot_event_bytes_roundtrip() {
    let e = BootEvent::new(3661, 19723);
    let b = e.to_bytes();
    assert_eq!(b[0], 1);
    assert_eq!(&b[1..5], &3661u32.to_le_bytes());
    assert_eq!(&b[5..9], &19723u32.to_le_bytes());
    assert_eq!(BootEvent::from_bytes(&b), Some(e));
}

#[test]
fn event_decoding_rejects_empty_slot() {
    let empty = [0u8; EVENT_SIZE];
    assert_eq!(Event::from_bytes(&empty), None);
    assert_eq!(BootEvent::from_bytes(&empty), None);
    let mut other = [0u8; EVENT_SIZE];
    other[0] = 2;
    assert_eq!(Event::from_bytes(&other), None);
}

#[test]
fn event_type_from_tag() {
    assert_eq!(EventType::from(1u8), EventType::Boot);
    assert_eq!(EventType::from(0u8), EventType::Empty);
    assert_eq!(EventType::from(7u8), EventType::Empty);
}

#[test]
fn event_roundtrip_and_name() {
    let e: Event = BootEvent::new(10, 20).into();
    assert_eq!(e.type_str(), "BOOT");
    let b = e.to_bytes();
    assert_eq!(Event::from_bytes(&b), Some(e));
}

#[test]
fn eventlog_push_evicts_oldest_when_full() {
    let mut log = EventLog::new();
    assert_eq!(log.len(), 0);
    assert!(!log.has_changed());
    for i in 0..(MAX_EVENTS as u32 + 3) {
        log.push(BootEvent::new(i, 100 + i));
    }
    assert_eq!(log.len(), MAX_EVENTS);
    assert!(log.has_changed());
    assert_eq!(log.events[0], Event::Boot(BootEvent::new(3, 103)));
    assert_eq!(log.events[MAX_EVENTS - 1], Event::Boot(BootEvent::new(34, 134)));
    log.set_changed(false);
    assert!(!log.has_changed());
    log.clear();
    assert_eq!(log.len(), 0);
    assert!(log.has_changed());
}

#[test]
fn eventlog_bytes_roundtrip() {
    let mut log = EventLog::new();
    log.push_event(Event::Boot(BootEvent::new(1, 2)));
    log.push(BootEvent::new(3, 4));
    let b = log.to_bytes();
    assert_eq!(b.len(), EVENTLOG_SIZE);
    assert_eq!(&b[0..4], b"ELOG");
    assert_eq!(&b[4..8], &2u32.to_le_bytes());
    let back = EventLog::from_bytes(&b).expect("log should decode");
    assert_eq!(back.len(), 2);
    assert_eq!(back.events[0], Event::Boot(BootEvent::new(1, 2)));
    assert_eq!(back.events[1], Event::Boot(BootEvent::new(3, 4)));
    assert!(!back.has_changed());
}

#[test]
fn eventlog_from_bytes_rejects_bad_magic() {
    let b = [0u8; EVENTLOG_SIZE];
    assert!(EventLog::from_bytes(&b).is_none());
}

#[test]
fn config_default_values() {
    let c = Config::default();
    assert_eq!((c.pre_min_elevation, c.pre_max_elevation), (5, 30));
    assert_eq!((c.pre_min_azimuth, c.pre_max_azimuth), (120, 240));
    assert_eq!((c.post_min_elevation, c.post_max_elevation), (5, 30));
    assert_eq!((c.post_min_azimuth, c.post_max_azimuth), (120, 240));
    assert_eq!(c.min_relative_height_bits, 0.5f32.to_bits());
    assert_eq!(c.max_relative_height_bits, 15.0f32.to_bits());
    assert_eq!(c.relative_height_step_size_bits, 0.03f32.to_bits());
    assert_eq!(c.qc_min_elevation_range, 8);
    assert_eq!(c.qc_iqr_size_bits, 1.5f32.to_bits());
    assert_eq!(c.qc_min_peak_to_peak_bits, 2.0f32.to_bits());
    assert_eq!(c.bins_per_sector, 3);
    assert_eq!(c.seconds_per_bin, 1200);
    assert_eq!(c.measure_timeout, 60);
    assert_eq!(c.sector_mid_times.as_slice(), &[0, 21600, 43200, 64800]);
    assert_eq!(c.get_measure_duration(), 3600);
}

#[test]
fn config_mid_times_text() {
    let c = Config::default();
    assert_eq!(c.get_mid_times_as_str().as_str(), "00:00:00, 06:00:00, 12:00:00, 18:00:00");
    let mut one = Config::default();
    one.sector_mid_times.clear();
    one.sector_mid_times.push(3661).unwrap();
    assert_eq!(one.get_mid_times_as_str().as_str(), "01:01:01");
    one.sector_mid_times.clear();
    assert_eq!(one.get_mid_times_as_str().as_str(), "");
}

#[test]
fn config_bytes_roundtrip() {
    let mut c = Config::default();
    c.pre_min_elevation = 7;
    c.max_relative_height_bits = 12.5f32.to_bits();
    c.sector_mid_times.push(70000).unwrap();
    let b = c.to_bytes();
    assert_eq!(b.len(), CONFIG_SIZE);
    assert_eq!(&b[0..4], b"CONF");
    assert_eq!(&b[4..8], &7u32.to_le_bytes());
    assert_eq!(&b[72..76], &5u32.to_le_bytes());
    let back = Config::from_bytes(&b).expect("config should decode");
    assert_eq!(back.pre_min_elevation, 7);
    assert_eq!(back.max_relative_height_bits, 12.5f32.to_bits());
    assert_eq!(back.sector_mid_times.as_slice(), &[0, 21600, 43200, 64800, 70000]);
    assert_eq!(back.bins_per_sector, c.bins_per_sector);
}

#[test]
fn config_from_bytes_rejections() {
    let c = Config::default();
    let mut b = c.to_bytes();
    b[0] = b'X';
    assert!(Config::from_bytes(&b).is_none());
    let b = c.to_bytes();
    assert!(Config::from_bytes(&b[..CONFIG_SIZE - 1]).is_none());
    let mut b = c.to_bytes();
    b[72..76].copy_from_slice(&129u32.to_le_bytes());
    assert!(Config::from_bytes(&b).is_none());
}

#[test]
fn config_clone_keeps_values() {
    let mut c = Config::default();
    c.seconds_per_bin = 600;
    let d = c.clone();
    assert_eq!(d.seconds_per_bin, 600);
    assert_eq!(d.sector_mid_times, c.sector_mid_times);
}

#[test]
fn sector_bytes_roundtrip() {
    let mut s = sample_sector(42, SectorState::TO_COMPUTE);
    s.update_coords(52.5f32.to_bits(), 4.25f32.to_bits());
    let b = s.to_bytes();
    assert_eq!(b.len(), SECTOR_SIZE);
    assert_eq!(&b[0..4], &42u32.to_le_bytes());
    let back = Sector::from_bytes(&b);
    assert_eq!(back.get_uid(), 42);
    assert_eq!(back.get_midpoint_index(), 2);
    assert_eq!(back.get_measurement_index(), 3);
    assert_eq!(back.get_start_bin_index(), 4);
    assert_eq!(back.get_start_time(), 3600);
    assert_eq!(back.get_start_day(), 19723);
    assert_eq!(back.get_state(), SectorState::TO_COMPUTE);
    assert_eq!(f32::from_bits(back.get_lat()), 52.5);
    assert_eq!(f32::from_bits(back.get_lon()), 4.25);
}

#[test]
fn sector_times_and_bins() {
    let s = sample_sector(1, SectorState::AWAITING);
    assert_eq!(s.get_end_time(), 3600 + 3 * 1200);
    assert_eq!(s.get_bins().as_slice(), &[4, 5, 6]);
    assert_eq!(s.get_bin_for_time(3600), 4);
    assert_eq!(s.get_bin_for_time(3600 + 1200), 5);
    assert_eq!(s.get_bin_for_time(3600 + 2 * 1200 + 5), 6);
    assert!(s.is_before_sector(100, 19723));
    assert!(!s.is_before_sector(3600, 19723));
    assert!(s.is_after_sector(7200, 19723));
    assert!(!s.is_after_sector(7199, 19723));
    assert!(!s.ends_next_day());
}

#[test]
fn sector_succession() {
    let first = Sector::new(1, 0, 0, 0, 3600, 19723, 3, 1200, SectorState::AWAITING);
    let next = Sector::new(2, 1, 1, 3, 7200, 19723, 3, 1200, SectorState::AWAITING);
    let later = Sector::new(3, 2, 2, 6, 20000, 19723, 3, 1200, SectorState::AWAITING);
    assert!(next.is_succeeding(&first));
    assert!(!later.is_succeeding(&first));
}

#[test]
fn sector_list_bytes_roundtrip() {
    let mut list = SectorList::new();
    list.push(sample_sector(1, SectorState::AWAITING));
    list.push(sample_sector(2, SectorState::TO_COMPUTE));
    list.push(sample_sector(3, SectorState::DONE));
    assert_eq!(list.len(), 3);
    let b = list.to_bytes();
    assert_eq!(&b[0..4], b"SECT");
    let back = SectorList::from_bytes(&b, false).expect("list should decode");
    assert_eq!(back.len(), 3);
    assert_eq!(back.get(0).get_uid(), 1);
    assert_eq!(back.get(1).get_state(), SectorState::TO_COMPUTE);
    assert_eq!(back.get(2).get_state(), SectorState::DONE);
    assert!(!back.has_changed());
}

#[test]
fn sector_list_resumes_after_restart() {
    let mut list = SectorList::new();
    list.push(sample_sector(1, SectorState::AWAITING));
    list.push(sample_sector(2, SectorState::TO_MEASURE));
    list.push(sample_sector(3, SectorState::MEASURING));
    list.push(sample_sector(4, SectorState::TO_COMPUTE));
    list.push(sample_sector(5, SectorState::COMPUTING));
    list.push(sample_sector(6, SectorState::TO_COMMUNICATE));
    list.push(sample_sector(7, SectorState::COMMUNICATING));
    list.push(sample_sector(8, SectorState::DONE));
    let b = list.to_bytes();
    let back = SectorList::from_bytes(&b, true).expect("list should decode");
    let kept: Vec<(u32, SectorState)> = back.iter().map(|s| (s.get_uid(), s.get_state())).collect();
    assert_eq!(
        kept,
        vec![
            (4, SectorState::TO_COMPUTE),
            (5, SectorState::TO_COMPUTE),
            (6, SectorState::TO_COMMUNICATE),
            (7, SectorState::TO_COMMUNICATE),
        ]
    );
}

#[test]
fn sector_list_rejects_bad_magic() {
    let list = SectorList::new();
    let mut b = list.to_bytes();
    b[0] = 0;
    assert!(SectorList::from_bytes(&b, false).is_none());
}

#[test]
fn sector_list_lookup_and_delete() {
    let mut list = SectorList::new();
    list.push(sample_sector(10, SectorState::AWAITING));
    list.push(sample_sector(11, SectorState::TO_MEASURE));
    list.push(sample_sector(12, SectorState::TO_MEASURE));
    assert_eq!(list.position_uid(11), Some(1));
    assert_eq!(list.position_uid(99), None);
    assert_eq!(list.get_idx_for_state(SectorState::TO_MEASURE), Some(1));
    assert_eq!(list.get_idx_for_state(SectorState::DONE), None);
    assert_eq!(list.get_idxs_for_state(SectorState::TO_MEASURE).as_slice(), &[1, 2]);
    list.get_mut_uid(12).unwrap().set_state(SectorState::DONE);
    assert_eq!(list.get(2).get_state(), SectorState::DONE);
    assert!(list.get_mut_uid(99).is_none());
    list.delete_uid(11);
    assert_eq!(list.len(), 2);
    assert_eq!(list.get(1).get_uid(), 12);
    list.delete_uid(99);
    assert_eq!(list.len(), 2);
    list.get_mut(0).set_state(SectorState::TO_COMPUTE);
    assert_eq!(list.as_slice()[0].get_state(), SectorState::TO_COMPUTE);
    list.clear();
    assert_eq!(list.len(), 0);
}

fn sample_observation(sat_id: u16, used: bool) -> Observation {
    Observation {
        sat_id,
        start_time: 10,
        end_time: 20,
        max_amp_bits: 3.5f32.to_bits(),
        max_rh_bits: 4.5f32.to_bits(),
        max_amp_2_bits: 1.0f32.to_bits(),
        max_rh_2_bits: 2.0f32.to_bits(),
        mean_amp_bits: 0.5f32.to_bits(),
        num_recs: 77,
        used,
    }
}

#[test]
fn observation_bytes_roundtrip() {
    let o = sample_observation(5, true);
    let b = o.to_bytes();
    assert_eq!(b.len(), OBSERVATION_SIZE);
    assert_eq!(&b[0..2], &5u16.to_le_bytes());
    assert_eq!(b[22], 1);
    let back = Observation::from_bytes(&b);
    assert_eq!(back.sat_id, 5);
    assert_eq!(back.num_recs, 77);
    assert!(back.used);
    assert_eq!(f32::from_bits(back.max_rh_bits), 4.5);
    assert_eq!(f32::from_bits(back.max_rh_2_bits), 2.0);
}

#[test]
fn measurement_bytes_roundtrip_keeps_used_observations() {
    let mut m = Measurement::new(7.0f32.to_bits(), 9, 100, 200, 3.25f32.to_bits(), 0.5f32.to_bits(), 1.0f32.to_bits(), 2.0f32.to_bits());
    m.push(sample_observation(1, true));
    m.push(sample_observation(2, false));
    m.push(sample_observation(3, true));
    let b = m.to_bytes();
    assert_eq!(b.len(), MEASUREMENT_SIZE);
    assert_eq!(&b[0..4], &100u32.to_le_bytes());
    assert_eq!(&b[20..24], &7.0f32.to_bits().to_le_bytes());
    let back = Measurement::from_bytes(&b).expect("measurement should decode");
    assert_eq!(back.start_time, 100);
    assert_eq!(back.end_time, 200);
    assert_eq!(back.num_seen, 9);
    assert_eq!(f32::from_bits(back.uid_bits) as u32, 7);
    assert_eq!(f32::from_bits(back.mean_bits), 3.25);
    let ids: Vec<u16> = back.observations.iter().map(|o| o.sat_id).collect();
    assert_eq!(ids, vec![1, 3]);
}
