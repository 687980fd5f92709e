use control::comms::{
    older_measurement_slots, older_slot_plan, sector_uids, CommsError, ConstellationSummary, MeasurementPacket, Packet, PacketBuilder,
};
use control::messages::ComputeResMsg;
use control::monitor::{charge_state_from_pins, unpack_fractions, ChargeState, ChargeStateMonitor, MonReqMsg};
use control::storage::{
    bin_samples, container_address, erase_range, fits_in_container, BinStorage, ConfigStorage, EventLogStorage,
    MeasurementStorage, SectorStorage,
};
use control::types::sector::{Sector, SectorState};
use control::types::{BLOCK_SIZE, CONTAINER_SIZE, START_ADDRESS};

#[test]
fn measurement_packet_bytes() {
    let p = MeasurementPacket::new(7, 0x1234, 9, 3, 12);
    assert_eq!(p.to_bytes(), [7, 0x34, 0x12, 9, 3, 12]);
}

#[test]
fn packet_header_and_records() {
    let mut p = Packet::new(200, 100, 50);
    assert_eq!(p.to_bytes().as_slice(), &[200, 100, 0, 0, 50]);
    p.set_location(11, 22);
    assert_eq!(p.push(MeasurementPacket::new(1, 2, 3, 4, 5)), Ok(()));
    assert_eq!(p.len(), 1);
    assert_eq!(p.to_bytes().as_slice(), &[200, 100, 11, 22, 50, 1, 2, 0, 3, 4, 5]);
}

#[test]
fn packet_keeps_only_records_that_fit() {
    let mut p = Packet::new(1, 2, 3);
    let mut pushed = 0;
    while p.push(MeasurementPacket::new(pushed as u8, 0, 0, 0, 0)).is_ok() {
        pushed += 1;
    }
    assert_eq!(p.len(), pushed);
    let bytes = p.to_bytes();
    assert_eq!(bytes.len(), 5 + 6 * 9);
    assert_eq!(bytes[5 + 6 * 8], 8);
}

#[test]
fn packet_builder_tracks_newest_sector() {
    let mut s1 = Sector::new(5, 0, 4, 0, 0, 0, 3, 1200, SectorState::COMMUNICATING);
    s1.update_coords(1.5f32.to_bits(), 2.5f32.to_bits());
    let s2 = Sector::new(3, 0, 9, 0, 0, 0, 3, 1200, SectorState::COMMUNICATING);
    let mut b = PacketBuilder::new(10, 20, 30);
    assert!(b.add_sector(&s1, Some(MeasurementPacket::new(5, 0, 0, 1, 1))));
    assert!(b.add_sector(&s2, Some(MeasurementPacket::new(3, 0, 0, 1, 1))));
    assert!(b.add_sector(&s2, None));
    assert_eq!((b.highest_uid, b.highest_index), (5, 4));
    assert_eq!(f32::from_bits(b.lat), 1.5);
    assert_eq!(b.packet.len(), 2);
    assert!(b.add_older(Some(MeasurementPacket::new(1, 0, 0, 0, 0))));
    assert!(b.add_older(None));
    assert_eq!(b.packet.len(), 3);
}

#[test]
fn older_slots_go_back_round_the_ring() {
    assert_eq!(older_measurement_slots(16, 3, 1), vec![0, 14]);
    assert_eq!(older_measurement_slots(20, 5, 5), Vec::<u32>::new());
    assert_eq!(older_measurement_slots(4, 4, 1), vec![3, 2, 1]);
}

#[test]
fn uids_of_sectors() {
    let mut v: heapless::Vec<Sector, 96> = heapless::Vec::new();
    v.push(Sector::new(8, 0, 0, 0, 0, 0, 1, 1, SectorState::DONE)).unwrap();
    v.push(Sector::new(2, 0, 0, 0, 0, 0, 1, 1, SectorState::DONE)).unwrap();
    assert_eq!(sector_uids(&v).as_slice(), &[8, 2]);
}

#[test]
fn constellation_summary() {
    let mut s = ConstellationSummary::new();
    s.add_poll(Some((2, None, false)));
    s.add_poll(Some((4, Some(-70), true)));
    s.add_poll(Some((3, Some(-90), false)));
    assert_eq!(s.result(), Ok((4, -70, true)));
    s.add_poll(None);
    assert_eq!(s.result(), Err(CommsError::RockBlockSendFail));
    let empty = ConstellationSummary::new();
    assert_eq!(empty.result(), Ok((0, i8::MIN, false)));
}

#[test]
fn charge_state_from_pin_levels() {
    assert_eq!(charge_state_from_pins(2, false, false), ChargeState::Fault);
    assert_eq!(charge_state_from_pins(5, true, true), ChargeState::Fault);
    assert_eq!(charge_state_from_pins(1, true, false), ChargeState::NoInput);
    assert_eq!(charge_state_from_pins(0, false, false), ChargeState::Charging);
    assert_eq!(charge_state_from_pins(0, false, true), ChargeState::Standby);
}

#[test]
fn charge_state_times_are_counted() {
    let mut m = ChargeStateMonitor::new(1_000);
    assert_eq!(m.get_state(), ChargeState::Unknown);
    m.set_state(ChargeState::Charging, 5_000);
    assert_eq!(m.time_charging, 0);
    m.set_state(ChargeState::Standby, 65_500);
    assert_eq!(m.time_charging, 60);
    m.set_state(ChargeState::Standby, 65_900);
    assert_eq!(m.time_standby, 1);
    assert_eq!(m.get_state(), ChargeState::Standby);
    m.reset(70_000);
    assert_eq!((m.time_fault, m.time_noinput, m.time_charging, m.time_standby), (0, 0, 0, 0));
    assert_eq!(m.get_state(), ChargeState::Unknown);
    assert_eq!(m.last_time_ms, 70_000);
}

#[test]
fn fraction_bytes_unpack_in_order() {
    assert_eq!(unpack_fractions([1, 2, 3, 4]), (1, 2, 3, 4));
}

#[test]
fn message_values() {
    assert_eq!(MonReqMsg::GetTemp, MonReqMsg::GetTemp);
    assert_ne!(ComputeResMsg::Success { sector_uid: 1 }, ComputeResMsg::ComputeFail { sector_uid: 1 });
}

#[test]
fn container_addresses() {
    assert_eq!(START_ADDRESS, 0x100000 - CONTAINER_SIZE as u32);
    assert_eq!(container_address(0), START_ADDRESS);
    assert_eq!(container_address(2), START_ADDRESS + 2 * CONTAINER_SIZE as u32);
    assert!(fits_in_container(0, CONTAINER_SIZE));
    assert!(!fits_in_container(1, CONTAINER_SIZE));
    assert_eq!(erase_range(1, 0, 4096), (START_ADDRESS + CONTAINER_SIZE as u32, START_ADDRESS + CONTAINER_SIZE as u32 + 4096));
    assert_eq!(BinStorage::new().get_container_id(7), 7);
    assert_eq!(MeasurementStorage::new().get_container_id(), 50);
    assert_eq!(SectorStorage::new().location(), (51, 0, BLOCK_SIZE as u32));
    assert_eq!(ConfigStorage::new().location(), (51, BLOCK_SIZE as u32, 2 * BLOCK_SIZE as u32));
    assert_eq!(EventLogStorage::new().location(), (51, 2 * BLOCK_SIZE as u32, 3 * BLOCK_SIZE as u32));
}

#[test]
fn measurement_slots() {
    let ms = MeasurementStorage::new();
    assert_eq!(ms.store_range(3), Ok((3 * 4096, 4 * 4096)));
    assert_eq!(ms.read_offset(3), Some(3 * 4096));
    assert_eq!(ms.read_offset(61_439), Some(61_439 * 4096));
    assert_eq!(ms.read_offset(61_440), None);
    assert_eq!(ms.store_range(61_440), Err(()));
}

fn word(v: u32) -> [u8; 4] {
    v.to_le_bytes()
}

#[test]
fn bin_container_samples() {
    let mut buf: Vec<u8> = Vec::new();
    buf.extend_from_slice(&word((5 << 8) | 2));
    buf.extend_from_slice(&word(0xAAAA_0001));
    buf.extend_from_slice(&word(0xAAAA_0002));
    buf.extend_from_slice(&word(0xFFFF_FFFF));
    buf.extend_from_slice(&word(7 << 8));
    buf.extend_from_slice(&word((9 << 8) | 3));
    buf.extend_from_slice(&word(0xBBBB_0001));
    buf.extend_from_slice(&[1, 2]);
    assert_eq!(bin_samples(&buf), vec![(5, 0xAAAA_0001), (5, 0xAAAA_0002), (9, 0xBBBB_0001)]);
    let erased = vec![0xFFu8; 64];
    assert!(bin_samples(&erased).is_empty());
    let with_top_bits = word(0x7F00_0401);
    let mut b2 = with_top_bits.to_vec();
    b2.extend_from_slice(&word(42));
    assert_eq!(bin_samples(&b2), vec![(4, 42)]);
}

#[test]
fn older_slot_plan_stops_at_slot_zero() {
    assert_eq!(older_slot_plan(16, 3, 1), (vec![0, 14], false));
    assert_eq!(older_slot_plan(2, 6, 1), (vec![1, 0], true));
    assert_eq!(older_slot_plan(5, 3, 3), (Vec::<u32>::new(), false));
}
