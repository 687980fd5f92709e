use control::control::{Control, InterfaceAnswer, RealtimeStatus};
use control::messages::{IntReqMsg, IntResMsg};
use control::monitor::MonResMsg;
use control::realtime::Deviation;
use control::types::config::Config;
use control::types::sector::{sector_list_loadable_bytes, Sector, SectorList, SectorState};

fn sector(uid: u32, start_time: u32, state: SectorState) -> Sector {
    Sector::new(uid, 0, uid % 15, 0, start_time, 19723, 3, 1200, state)
}

fn list_of(sectors: &[Sector]) -> SectorList {
    let mut list = SectorList::new();
    for s in sectors {
        list.push(*s);
    }
    list
}

fn states(c: &Control) -> Vec<(u32, SectorState)> {
    c.sectors.iter().map(|s| (s.get_uid(), s.get_state())).collect()
}

#[test]
fn starts_without_time_and_asks_for_it() {
    let mut c = Control::new(SectorList::new(), 1_000);
    assert_eq!(c.realtime_status, RealtimeStatus::NotAvailable);
    assert_eq!(c.config.bins_per_sector, 3);
    let r = c.next_requests();
    assert!(r.ref_time);
    assert!(r.measure.is_none());
    assert_eq!(c.realtime_status, RealtimeStatus::Requested);
    let r = c.next_requests();
    assert!(!r.ref_time);
    assert_eq!(c.realtime_status, RealtimeStatus::Requested);
}

#[test]
fn no_measurement_before_the_time_is_known() {
    let mut c = Control::new(list_of(&[sector(1, 3600, SectorState::TO_MEASURE)]), 0);
    let r = c.next_requests();
    assert!(r.measure.is_none());
    assert_eq!(states(&c), vec![(1, SectorState::TO_MEASURE)]);
}

#[test]
fn dispatch_moves_every_queue_on() {
    let list = list_of(&[
        sector(1, 3600, SectorState::TO_MEASURE),
        sector(2, 10000, SectorState::TO_MEASURE),
        sector(3, 20000, SectorState::TO_COMPUTE),
        sector(4, 30000, SectorState::TO_COMMUNICATE),
        sector(5, 40000, SectorState::TO_COMPUTE),
        sector(6, 50000, SectorState::DONE),
    ]);
    let mut c = Control::new(list, 0);
    c.on_ref_time(Deviation::new(100, 0), 19723, 0);
    assert_eq!(c.realtime_status, RealtimeStatus::Available);
    assert!(c.sectors_to_save() == false);
    let r = c.next_requests();
    assert!(!r.ref_time);
    let (m, sleep_gnss) = r.measure.expect("first sector to measure goes out");
    assert_eq!(m.get_uid(), 1);
    assert_eq!(m.get_state(), SectorState::MEASURING);
    assert!(sleep_gnss);
    let compute: Vec<u32> = r.compute.iter().map(|s| s.get_uid()).collect();
    assert_eq!(compute, vec![3, 5]);
    assert!(r.compute.iter().all(|s| s.get_state() == SectorState::COMPUTING));
    let communicate: Vec<u32> = r.communicate.iter().map(|s| s.get_uid()).collect();
    assert_eq!(communicate, vec![4]);
    assert_eq!(
        states(&c),
        vec![
            (1, SectorState::MEASURING),
            (2, SectorState::TO_MEASURE),
            (3, SectorState::COMPUTING),
            (4, SectorState::COMMUNICATING),
            (5, SectorState::COMPUTING),
            (6, SectorState::DONE),
        ]
    );
    assert!(c.sectors_to_save());
    assert!(!c.sectors_to_save());
}

#[test]
fn receiver_stays_awake_for_a_succeeding_sector() {
    let list = list_of(&[sector(1, 3600, SectorState::TO_MEASURE), sector(2, 7210, SectorState::MEASURING)]);
    let mut c = Control::new(list, 0);
    c.on_ref_time(Deviation::new(0, 0), 19723, 0);
    let r = c.next_requests();
    let (m, sleep_gnss) = r.measure.unwrap();
    assert_eq!(m.get_uid(), 1);
    assert!(!sleep_gnss);
}

#[test]
fn sector_lifecycle_through_responses() {
    let mut c = Control::new(list_of(&[sector(1, 3600, SectorState::MEASURING), sector(2, 9000, SectorState::MEASURING)]), 0);
    c.on_measure_success(1, Deviation::new(500, 1_000), 19724, 7u32, 9u32, 3_000);
    assert_eq!(c.sectors.get(0).get_state(), SectorState::TO_COMPUTE);
    assert_eq!((c.sectors.get(0).get_lat(), c.sectors.get(0).get_lon()), (7, 9));
    assert_eq!(c.realtime.get_real_time(3_000), 502);
    assert_eq!(c.realtime.get_real_date(3_000), 19724);
    c.on_measure_fail(2);
    assert_eq!(states(&c), vec![(1, SectorState::TO_COMPUTE)]);
    c.on_compute_fail(1);
    assert_eq!(states(&c), vec![(1, SectorState::TO_COMPUTE)]);
    c.on_compute_success(1);
    assert_eq!(states(&c), vec![(1, SectorState::TO_COMMUNICATE)]);
    c.on_comm_fail(&[1]);
    assert_eq!(states(&c), vec![(1, SectorState::TO_COMMUNICATE)]);
    assert!(!c.reset_charge_state_monitor);
    c.on_comm_success(&[1, 42]);
    assert_eq!(c.sectors.len(), 0);
    assert!(c.reset_charge_state_monitor);
    let r = c.next_requests();
    assert!(r.reset_monitor);
    assert!(!c.reset_charge_state_monitor);
}

#[test]
fn next_sector_and_sleep_target() {
    let mut c = Control::new(list_of(&[sector(1, 3600, SectorState::DONE), sector(2, 7200, SectorState::AWAITING)]), 0);
    assert_eq!(c.sleep_target(), None);
    assert_eq!(c.begin_next_sector(), Some(1));
    assert_eq!(c.sectors.get(1).get_state(), SectorState::TO_MEASURE);
    assert_eq!(c.begin_next_sector(), None);
    c.schedule_sector(sector(3, 10800, SectorState::AWAITING), 10800, 19724);
    assert_eq!(c.sleep_target(), Some((10800, 19724)));
    assert_eq!(c.sectors.len(), 3);
    assert!(c.sectors.has_changed());
}

#[test]
fn monitor_readings_are_kept() {
    let mut c = Control::new(SectorList::new(), 0);
    c.on_monitor_response(MonResMsg::BatVoltSuccess { voltage: 3900 });
    c.on_monitor_response(MonResMsg::TempSuccess { temp_c_bits: 21.5f32.to_bits() });
    c.on_monitor_response(MonResMsg::ChargeStateFraction { fraction: 200 });
    assert_eq!(c.battery_mv, Some(3900));
    assert_eq!(c.chip_c_bits, Some(21.5f32.to_bits()));
    assert_eq!(c.charge_state_fraction, 200);
    c.on_monitor_response(MonResMsg::BatVoltFail);
    c.on_monitor_response(MonResMsg::TempFail);
    assert_eq!(c.battery_mv, None);
    assert_eq!(c.chip_c_bits, None);
    assert_eq!(c.charge_state_fraction, 200);
}

#[test]
fn config_change_only_while_all_sectors_wait() {
    let mut busy = Control::new(list_of(&[sector(1, 3600, SectorState::AWAITING), sector(2, 7200, SectorState::TO_COMPUTE)]), 0);
    let mut cfg = Config::default();
    cfg.bins_per_sector = 6;
    assert!(!busy.set_config(cfg));
    assert_eq!(busy.config.bins_per_sector, 3);
    assert_eq!(busy.sectors.len(), 2);

    let mut idle = Control::new(list_of(&[sector(1, 3600, SectorState::AWAITING)]), 0);
    idle.on_ref_time(Deviation::new(0, 0), 1, 0);
    idle.schedule_sector(sector(2, 7200, SectorState::AWAITING), 7200, 1);
    let mut cfg = Config::default();
    cfg.bins_per_sector = 6;
    assert!(idle.set_config(cfg));
    assert_eq!(idle.config.bins_per_sector, 6);
    assert_eq!(idle.sectors.len(), 0);
    assert!(idle.sectors.has_changed());
    assert_eq!(idle.realtime_status, RealtimeStatus::NotAvailable);
    assert_eq!(idle.sleep_target(), None);
}

#[test]
fn terminal_requests_are_answered() {
    let mut c = Control::new(SectorList::new(), 0);
    match c.on_interface_message(IntResMsg::GetBatVolt) {
        InterfaceAnswer::Reply(IntReqMsg::BatVoltFail) => {}
        _ => panic!("no voltage known yet"),
    }
    c.on_monitor_response(MonResMsg::BatVoltSuccess { voltage: 4000 });
    match c.on_interface_message(IntResMsg::GetBatVolt) {
        InterfaceAnswer::Reply(IntReqMsg::BatVoltSuccess { voltage }) => assert_eq!(voltage, 4000),
        _ => panic!("voltage expected"),
    }
    match c.on_interface_message(IntResMsg::GetTemp) {
        InterfaceAnswer::Reply(IntReqMsg::TempFail) => {}
        _ => panic!("no temperature known yet"),
    }
    match c.on_interface_message(IntResMsg::GetConfig) {
        InterfaceAnswer::Reply(IntReqMsg::GiveConfig { config }) => assert_eq!(config.seconds_per_bin, 1200),
        _ => panic!("configuration expected"),
    }
    assert!(matches!(c.on_interface_message(IntResMsg::GetConstellationState), InterfaceAnswer::AskConstellation));
    assert!(matches!(c.on_interface_message(IntResMsg::GetState), InterfaceAnswer::ReportState));
    let mut cfg = Config::default();
    cfg.measure_timeout = 90;
    assert!(matches!(c.on_interface_message(IntResMsg::SetConfig { config: cfg }), InterfaceAnswer::Nothing));
    assert_eq!(c.config.measure_timeout, 90);
}

#[test]
fn dispatch_safety_check() {
    let mut c = Control::new(list_of(&[sector(1, 3600, SectorState::TO_MEASURE)]), 0);
    assert!(c.dispatch_safe());
    c.on_ref_time(Deviation::new(0, 0), 1, 0);
    assert!(c.dispatch_safe());
    let huge = Sector::new(2, 0, 0, 0, u32::MAX - 10, 0, 1, 100, SectorState::TO_MEASURE);
    let mut d = Control::new(list_of(&[huge]), 0);
    d.on_ref_time(Deviation::new(0, 0), 1, 0);
    assert!(!huge.end_time_defined());
    assert!(!d.dispatch_safe());
    let far = Sector::new(3, 0, 0, 0, 200_000, 0, 1, 100, SectorState::MEASURING);
    let mut e = Control::new(list_of(&[sector(1, 3600, SectorState::TO_MEASURE), far]), 0);
    e.on_ref_time(Deviation::new(0, 0), 1, 0);
    assert!(!e.dispatch_safe());
}

#[test]
fn sector_list_loadability() {
    let list = list_of(&[sector(1, 0, SectorState::TO_COMPUTE)]);
    let b = list.to_bytes();
    assert!(sector_list_loadable_bytes(&b, true));
    assert!(sector_list_loadable_bytes(&b[..8 + 41], false));
    assert!(!sector_list_loadable_bytes(&b[..8 + 40], false));
    assert!(!sector_list_loadable_bytes(&b[..3], false));
    let mut junk = b;
    junk[0] = b'X';
    assert!(sector_list_loadable_bytes(&junk[..4], true));
}

#[test]
fn successful_transmission_removes_exactly_the_sent_sectors() {
    let mut c = Control::new(
        list_of(&[
            sector(1, 0, SectorState::COMMUNICATING),
            sector(2, 0, SectorState::COMMUNICATING),
            sector(3, 0, SectorState::TO_COMPUTE),
            sector(4, 0, SectorState::COMMUNICATING),
        ]),
        0,
    );
    c.on_comm_success(&[4, 2]);
    assert_eq!(states(&c), vec![(1, SectorState::COMMUNICATING), (3, SectorState::TO_COMPUTE)]);
}

#[test]
fn new_configuration_restarts_the_cycle() {
    let mut c = Control::new(list_of(&[sector(1, 3600, SectorState::AWAITING)]), 0);
    c.on_ref_time(Deviation::new(0, 0), 1, 0);
    assert!(c.set_config(Config::default()));
    assert!(c.dispatch_safe());
    let r = c.next_requests();
    assert!(r.ref_time);
    assert!(r.measure.is_none() && r.compute.is_empty() && r.communicate.is_empty());
}
