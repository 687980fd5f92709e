use control::comms::CommsError;
use control::interface::{
    command_is_readable, parse_command, parse_in_range_i32, parse_in_range_u32, parse_in_range_usize, plan_measurements, run_command, split_words,
    word_is, Arg, ArgCheck, Command, ConfigChange, InterfaceState, LineAction, Notice, PlanError, Report, SetCommand,
};
use control::messages::{IntReqMsg, IntResMsg};
use control::types::config::Config;

fn words(line: &str) -> Vec<&str> {
    split_words(line)
}

fn command(line: &str) -> Command {
    parse_command(&split_words(line))
}

fn idle_line(line: &str) -> (InterfaceState, Vec<Notice>, LineAction) {
    let (st, out) = InterfaceState::Idle.on_line(&split_words(line));
    (st, out.notices, out.action)
}

#[test]
fn lines_split_into_words() {
    assert_eq!(words("  setconfig  elevation\t5 30 \r\n"), vec!["setconfig", "elevation", "5", "30"]);
    assert_eq!(words("help"), vec!["help"]);
    assert!(words(" \t\r\n").is_empty());
    assert!(words("").is_empty());
    assert_eq!(words("a\u{a0}b"), vec!["a", "b"]);
    assert!(word_is("gettemp", "gettemp"));
    assert!(!word_is("gettemp", "gettem"));
}

#[test]
fn commands_are_recognised() {
    assert_eq!(command("help"), Command::Help);
    assert_eq!(command("?"), Command::Help);
    assert_eq!(command("status"), Command::Status);
    assert_eq!(command("batvolt"), Command::BatVolt);
    assert_eq!(command("gettemp"), Command::GetTemp);
    assert_eq!(command("getconst"), Command::GetConst);
    assert_eq!(command("getconfig extra"), Command::GetConfig);
    assert_eq!(command("download"), Command::Download);
    assert_eq!(command("reboot"), Command::Unknown);
    assert_eq!(command("HELP"), Command::Unknown);
    assert_eq!(command("setconfig"), Command::SetConfig(SetCommand::Unknown));
    assert_eq!(command("setconfig ?"), Command::SetConfig(SetCommand::Help));
    assert_eq!(command("setconfig height 0.5 15"), Command::SetConfig(SetCommand::Height));
}

#[test]
fn setconfig_arguments_are_checked() {
    assert_eq!(
        command("setconfig elevation 5 30"),
        Command::SetConfig(SetCommand::Elevation { min: ArgCheck::Valid(5), max: ArgCheck::Valid(30) })
    );
    assert_eq!(
        command("setconfig elevation 91 x"),
        Command::SetConfig(SetCommand::Elevation { min: ArgCheck::OutOfRange, max: ArgCheck::Missing })
    );
    assert_eq!(
        command("setconfig azimuth 0 360"),
        Command::SetConfig(SetCommand::Azimuth { min: ArgCheck::Valid(0), max: ArgCheck::Valid(360) })
    );
    assert_eq!(
        command("setconfig measurements 00:00:00 4 60"),
        Command::SetConfig(SetCommand::Measurements {
            timepoint: Some(0),
            n_per_day: ArgCheck::Valid(4),
            duration: ArgCheck::Valid(60)
        })
    );
    assert_eq!(
        command("setconfig measurements 24:00:00 0 241"),
        Command::SetConfig(SetCommand::Measurements {
            timepoint: None,
            n_per_day: ArgCheck::OutOfRange,
            duration: ArgCheck::OutOfRange
        })
    );
    assert_eq!(
        command("setconfig measurements"),
        Command::SetConfig(SetCommand::Measurements { timepoint: None, n_per_day: ArgCheck::Missing, duration: ArgCheck::Missing })
    );
}

#[test]
fn range_checks() {
    assert_eq!(parse_in_range_u32(Some("90"), 0, 90), ArgCheck::Valid(90));
    assert_eq!(parse_in_range_u32(Some("91"), 0, 90), ArgCheck::OutOfRange);
    assert_eq!(parse_in_range_u32(Some("-1"), 0, 90), ArgCheck::Missing);
    assert_eq!(parse_in_range_u32(None, 0, 90), ArgCheck::Missing);
    assert_eq!(parse_in_range_usize(Some("128"), 1, 128), ArgCheck::Valid(128));
    assert_eq!(parse_in_range_usize(Some("0"), 1, 128), ArgCheck::OutOfRange);
    assert_eq!(parse_in_range_i32(Some("-5"), 20, 240), ArgCheck::OutOfRange);
    assert_eq!(parse_in_range_i32(Some("20"), 20, 240), ArgCheck::Valid(20));
}

#[test]
fn measurement_plans() {
    let (mids, bins) = plan_measurements(0, 4, 60).unwrap();
    assert_eq!(mids.as_slice(), &[0, 21600, 43200, 64800]);
    assert_eq!(bins, 3);
    let (mids, bins) = plan_measurements(50_000, 3, 20).unwrap();
    assert_eq!(mids.as_slice(), &[21_200, 50_000, 78_800]);
    assert_eq!(bins, 1);
    assert_eq!(plan_measurements(0, 128, 20).unwrap_err(), PlanError::InvalidConfiguration);
    assert_eq!(plan_measurements(0, 4, 50).unwrap_err(), PlanError::NotMultipleOf20);
    assert_eq!(plan_measurements(0, 6, 240).unwrap_err(), PlanError::InvalidConfiguration);
    let (mids, _) = plan_measurements(86_399, 7, 20).unwrap();
    assert_eq!(mids.as_slice(), &[5, 12_347, 24_689, 37_031, 49_373, 61_715, 74_057]);
    let (mids, _) = plan_measurements(86_300, 7, 20).unwrap();
    assert!(mids.windows(2).all(|w| w[0] < w[1]));
}

#[test]
fn dtr_connects_and_disconnects() {
    let (st, welcome) = InterfaceState::new().on_control_changed(true);
    assert!(welcome);
    assert!(matches!(st, InterfaceState::Idle));
    let (st, welcome) = st.on_control_changed(true);
    assert!(!welcome);
    assert!(matches!(st, InterfaceState::Idle));
    let (st, _) = st.on_control_changed(false);
    assert!(matches!(st, InterfaceState::Disconnected));
    let (st, welcome) = InterfaceState::Batvolt.on_control_changed(false);
    assert!(!welcome && matches!(st, InterfaceState::Disconnected));
    let (st, _) = InterfaceState::GetTemp.on_control_changed(false);
    assert!(matches!(st, InterfaceState::Disconnected));
    let (st, _) = InterfaceState::GetConfig.on_control_changed(false);
    assert!(matches!(st, InterfaceState::GetConfig));
    let (st, welcome) = InterfaceState::Disconnected.on_control_changed(false);
    assert!(!welcome && matches!(st, InterfaceState::Disconnected));
}

#[test]
fn simple_commands_send_requests() {
    let (st, notices, action) = idle_line("status");
    assert!(matches!(st, InterfaceState::GetState) && notices.is_empty());
    assert!(matches!(action, LineAction::Send(IntResMsg::GetState)));
    let (st, _, action) = idle_line("batvolt");
    assert!(matches!(st, InterfaceState::Batvolt) && matches!(action, LineAction::Send(IntResMsg::GetBatVolt)));
    let (st, _, action) = idle_line("gettemp");
    assert!(matches!(st, InterfaceState::GetTemp) && matches!(action, LineAction::Send(IntResMsg::GetTemp)));
    let (st, notices, action) = idle_line("getconst");
    assert!(matches!(st, InterfaceState::GetConst));
    assert_eq!(notices, vec![Notice::PleaseWait]);
    assert!(matches!(action, LineAction::Send(IntResMsg::GetConstellationState)));
    let (st, _, action) = idle_line("getconfig");
    assert!(matches!(st, InterfaceState::GetConfig) && matches!(action, LineAction::Send(IntResMsg::GetConfig)));
    let (st, notices, action) = idle_line("help");
    assert!(matches!(st, InterfaceState::Idle) && matches!(action, LineAction::Nothing));
    assert_eq!(notices, vec![Notice::Help]);
    let (_, notices, _) = idle_line("frobnicate");
    assert_eq!(notices, vec![Notice::UnknownCommand]);
    let (st, notices, action) = idle_line("download");
    assert!(matches!(st, InterfaceState::Idle) && matches!(action, LineAction::Download) && notices.is_empty());
    let (st, notices, action) = idle_line("   ");
    assert!(matches!(st, InterfaceState::Idle) && matches!(action, LineAction::Nothing) && notices.is_empty());
}

#[test]
fn setconfig_lines() {
    let (st, notices, action) = idle_line("setconfig elevation 5 30");
    assert!(matches!(st, InterfaceState::SetElevation { min: 5, max: 30 }));
    assert!(notices.is_empty() && matches!(action, LineAction::Send(IntResMsg::GetConfig)));
    let (st, notices, _) = idle_line("setconfig elevation 30 5");
    assert!(matches!(st, InterfaceState::Idle));
    assert_eq!(notices, vec![Notice::MinNotBelowMax]);
    let (st, notices, _) = idle_line("setconfig elevation 100");
    assert!(matches!(st, InterfaceState::Idle));
    assert_eq!(notices, vec![Notice::OutOfRange(Arg::MinElevation), Notice::Missing(Arg::MaxElevation)]);
    let (st, notices, _) = idle_line("setconfig azimuth 240 120");
    assert!(matches!(st, InterfaceState::SetAzimuth { min: 240, max: 120 }) && notices.is_empty());
    let (_, notices, _) = idle_line("setconfig azimuth 400 x");
    assert_eq!(notices, vec![Notice::OutOfRange(Arg::MinAzimuth), Notice::Missing(Arg::MaxAzimuth)]);
    let (st, notices, action) = idle_line("setconfig height 0.5 15");
    assert!(matches!(st, InterfaceState::Idle) && notices.is_empty() && matches!(action, LineAction::ReadHeight));
    let (_, notices, _) = idle_line("setconfig help");
    assert_eq!(notices, vec![Notice::SetHelp]);
    let (_, notices, _) = idle_line("setconfig colour");
    assert_eq!(notices, vec![Notice::UnknownSetting]);
}

#[test]
fn setconfig_measurements_lines() {
    let (st, notices, action) = idle_line("setconfig measurements 03:00:00 2 60");
    match st {
        InterfaceState::SetMeasurements { mid_times, bins_per_sector } => {
            assert_eq!(mid_times.as_slice(), &[10_800, 54_000]);
            assert_eq!(bins_per_sector, 3);
        }
        _ => panic!("measurement change expected"),
    }
    assert!(notices.is_empty() && matches!(action, LineAction::Send(IntResMsg::GetConfig)));
    let (st, notices, _) = idle_line("setconfig measurements bad 0 10");
    assert!(matches!(st, InterfaceState::Idle));
    assert_eq!(
        notices,
        vec![Notice::BadTimepoint, Notice::OutOfRange(Arg::MeasurementsPerDay), Notice::OutOfRange(Arg::MeasurementDuration)]
    );
    let (_, notices, _) = idle_line("setconfig measurements 00:00:00 100 20");
    assert_eq!(notices, vec![Notice::InvalidMeasurements]);
    let (_, notices, _) = idle_line("setconfig measurements 00:00:00 4 30");
    assert_eq!(notices, vec![Notice::DurationNotMultiple]);
}

#[test]
fn input_while_waiting() {
    let (st, out) = InterfaceState::GetConst.on_line(&words("anything"));
    assert!(matches!(st, InterfaceState::Idle) && out.notices.is_empty());
    let (st, out) = InterfaceState::Batvolt.on_line(&words("x"));
    assert!(matches!(st, InterfaceState::Idle));
    assert_eq!(out.notices, vec![Notice::Aborted]);
    let (st, out) = InterfaceState::SetAzimuth { min: 1, max: 2 }.on_line(&words("x"));
    assert!(matches!(st, InterfaceState::Idle));
    assert_eq!(out.notices, vec![Notice::Aborted]);
    let (st, out) = InterfaceState::GetConfig.on_line(&words(""));
    assert!(matches!(st, InterfaceState::GetConfig) && out.notices.is_empty());
}

#[test]
fn run_command_direct() {
    let (st, out) = run_command(Command::GetTemp);
    assert!(matches!(st, InterfaceState::GetTemp));
    assert!(matches!(out.action, LineAction::Send(IntResMsg::GetTemp)));
}

#[test]
fn answers_are_reported() {
    let (st, out) = InterfaceState::Batvolt.on_request(IntReqMsg::BatVoltSuccess { voltage: 3700 });
    assert!(matches!(st, InterfaceState::Idle) && matches!(out.report, Report::BatteryMillivolts(3700)) && out.send.is_none());
    let (st, out) = InterfaceState::Batvolt.on_request(IntReqMsg::BatVoltFail);
    assert!(matches!(st, InterfaceState::Idle) && matches!(out.report, Report::BatteryFailed));
    let (st, out) = InterfaceState::Batvolt.on_request(IntReqMsg::TempFail);
    assert!(matches!(st, InterfaceState::Batvolt) && matches!(out.report, Report::Nothing));
    let (st, out) = InterfaceState::GetTemp.on_request(IntReqMsg::TempSuccess { temp_bits: 25.0f32.to_bits() });
    assert!(matches!(st, InterfaceState::Idle));
    match out.report {
        Report::ChipTemperature(bits) => assert_eq!(f32::from_bits(bits), 25.0),
        _ => panic!("temperature expected"),
    }
    let (_, out) = InterfaceState::GetTemp.on_request(IntReqMsg::TempFail);
    assert!(matches!(out.report, Report::TemperatureFailed));
    let (st, out) = InterfaceState::GetConst.on_request(IntReqMsg::ConstellationState {
        signal_bars_max: 4,
        signal_level_max: -60,
        constellation_visible: true,
    });
    assert!(matches!(st, InterfaceState::Idle));
    assert!(matches!(
        out.report,
        Report::Constellation { signal_bars_max: 4, signal_level_max: -60, constellation_visible: true }
    ));
    let (_, out) = InterfaceState::GetConst.on_request(IntReqMsg::ConstellationStateFail { error: CommsError::RockBlockSendFail });
    assert!(matches!(out.report, Report::ConstellationFailed));
    let (st, out) = InterfaceState::GetConfig.on_request(IntReqMsg::GiveConfig { config: Config::default() });
    assert!(matches!(st, InterfaceState::Idle));
    match out.report {
        Report::Config(c) => assert_eq!(c.bins_per_sector, 3),
        _ => panic!("configuration expected"),
    }
    let (st, _) = InterfaceState::Idle.on_request(IntReqMsg::BatVoltFail);
    assert!(matches!(st, InterfaceState::Idle));
    let (st, _) = InterfaceState::Disconnected.on_request(IntReqMsg::BatVoltFail);
    assert!(matches!(st, InterfaceState::Disconnected));
}

#[test]
fn state_report_keeps_waiting() {
    let mut text: heapless::String<2048> = heapless::String::new();
    text.push_str("line one\nline two").unwrap();
    let (st, out) = InterfaceState::GetState.on_request(IntReqMsg::GiveState { str: text });
    assert!(matches!(st, InterfaceState::GetState));
    match out.report {
        Report::State(s) => assert_eq!(s.lines().count(), 2),
        _ => panic!("report expected"),
    }
}

fn sent_config(out_send: Option<IntResMsg>) -> Config {
    match out_send {
        Some(IntResMsg::SetConfig { config }) => config,
        _ => panic!("a new configuration should be sent"),
    }
}

#[test]
fn config_changes_are_applied() {
    let (st, out) = InterfaceState::SetElevation { min: 10, max: 40 }.on_request(IntReqMsg::GiveConfig { config: Config::default() });
    assert!(matches!(st, InterfaceState::Idle));
    assert!(matches!(out.report, Report::ConfigChanged(ConfigChange::Elevation)));
    let c = sent_config(out.send);
    assert_eq!((c.pre_min_elevation, c.pre_max_elevation, c.post_min_elevation, c.post_max_elevation), (10, 40, 10, 40));
    assert_eq!((c.pre_min_azimuth, c.post_max_azimuth), (120, 240));

    let (_, out) = InterfaceState::SetAzimuth { min: 90, max: 270 }.on_request(IntReqMsg::GiveConfig { config: Config::default() });
    assert!(matches!(out.report, Report::ConfigChanged(ConfigChange::Azimuth)));
    let c = sent_config(out.send);
    assert_eq!((c.pre_min_azimuth, c.pre_max_azimuth, c.post_min_azimuth, c.post_max_azimuth), (90, 270, 90, 270));
    assert_eq!(c.pre_min_elevation, 5);

    let (st, msg) = InterfaceState::Idle.begin_set_height(1.0f32.to_bits(), 20.0f32.to_bits());
    assert!(matches!(msg, IntResMsg::GetConfig));
    let (_, out) = st.on_request(IntReqMsg::GiveConfig { config: Config::default() });
    assert!(matches!(out.report, Report::ConfigChanged(ConfigChange::Height)));
    let c = sent_config(out.send);
    assert_eq!(f32::from_bits(c.min_relative_height_bits), 1.0);
    assert_eq!(f32::from_bits(c.max_relative_height_bits), 20.0);

    let (st, _, _) = idle_line("setconfig measurements 01:00:00 2 40");
    let (_, out) = st.on_request(IntReqMsg::GiveConfig { config: Config::default() });
    assert!(matches!(out.report, Report::ConfigChanged(ConfigChange::Measurements)));
    let c = sent_config(out.send);
    assert_eq!(c.sector_mid_times.as_slice(), &[3_600, 46_800]);
    assert_eq!(c.bins_per_sector, 2);
    assert_eq!(c.get_mid_times_as_str().as_str(), "01:00:00, 13:00:00");
}

#[test]
fn readable_commands() {
    assert!(command_is_readable(&words("setconfig measurements 00:00:00 4 60")));
    assert!(command_is_readable(&words("setconfig measurements")));
    assert!(command_is_readable(&words("setconfig elevation 1:2:3:4")));
    assert!(!command_is_readable(&words("setconfig measurements 1:2:3:4 4 60")));
    assert!(!command_is_readable(&words("setconfig measurements 4294967295:0:0 4 60")));
    assert!(command_is_readable(&words("status")));
}

#[test]
fn planned_day_contains_timepoint() {
    for (tp, n) in [(0u32, 1usize), (12_345, 4), (86_000, 3), (50_000, 7), (86_393, 7)] {
        let (mids, _) = plan_measurements(tp, n, 20).unwrap();
        assert!(mids.contains(&tp));
        assert!(mids.iter().all(|&m| m < 86_400));
        assert!(mids.windows(2).all(|w| w[1] - w[0] == 86_400 / n as u32));
    }
}
