use control::realtime::{Deviation, RealTime};
use control::utils::{
    date_from_days, date_to_str, days_from_civil, find_byte, parse_i32, parse_u32, parse_usize, seconds_to_time_str,
    time_str_readable, time_str_to_seconds, uid_to_str,
};

#[test]
fn time_text_formats() {
    assert_eq!(seconds_to_time_str(0).as_str(), "00:00:00");
    assert_eq!(seconds_to_time_str(3661).as_str(), "01:01:01");
    assert_eq!(seconds_to_time_str(86399).as_str(), "23:59:59");
    assert_eq!(seconds_to_time_str(100000).as_str(), "27:46:40");
}

#[test]
fn time_text_parses() {
    assert_eq!(time_str_to_seconds("01:02:03"), Some(3723));
    assert_eq!(time_str_to_seconds("00:00:00"), Some(0));
    assert_eq!(time_str_to_seconds("23:59:59"), Some(86399));
    assert_eq!(time_str_to_seconds("+1:+2:+3"), Some(3723));
    assert_eq!(time_str_to_seconds("25:61:61"), Some(25 * 3600 + 61 * 60 + 61));
    assert_eq!(time_str_to_seconds("1:2"), None);
    assert_eq!(time_str_to_seconds("12"), None);
    assert_eq!(time_str_to_seconds("aa:00:00"), None);
    assert_eq!(time_str_to_seconds("01::03"), None);
    assert_eq!(time_str_to_seconds("-1:00:00"), None);
}

#[test]
fn time_text_roundtrip() {
    for t in [0u32, 59, 3600, 45296, 86399] {
        let s = seconds_to_time_str(t);
        assert_eq!(time_str_to_seconds(s.as_str()), Some(t));
    }
}

#[test]
fn uid_text_is_sixteen_hex_digits() {
    assert_eq!(uid_to_str(0).as_str(), "0000000000000000");
    assert_eq!(uid_to_str(0x1234_ABCD).as_str(), "000000001234ABCD");
    assert_eq!(uid_to_str(u64::MAX).as_str(), "FFFFFFFFFFFFFFFF");
}

#[test]
fn date_text_formats() {
    assert_eq!(date_to_str(0).as_str(), "01-01-1970");
    assert_eq!(date_to_str(19723).as_str(), "01-01-2024");
    assert_eq!(date_to_str(19782).as_str(), "29-02-2024");
    assert_eq!(date_to_str(19783).as_str(), "01-03-2024");
}

#[test]
fn civil_day_numbers() {
    assert_eq!(days_from_civil(1970, 1, 1), 0);
    assert_eq!(days_from_civil(2000, 3, 1), 11017);
    assert_eq!(days_from_civil(2024, 1, 1), 19723);
    assert_eq!(days_from_civil(2024, 3, 1), 19783);
    assert_eq!(days_from_civil(1969, 12, 31), -1);
    assert_eq!(days_from_civil(1600, 2, 29), -135081);
}

#[test]
fn date_from_day_numbers() {
    assert_eq!(date_from_days(0), (1970, 1, 1));
    assert_eq!(date_from_days(-1), (1969, 12, 31));
    assert_eq!(date_from_days(19782), (2024, 2, 29));
    assert_eq!(date_from_days(11016), (2000, 2, 29));
    assert_eq!(date_from_days(-719468), (0, 3, 1));
}

#[test]
fn date_roundtrip_both_ways() {
    for (y, m, d) in [(1970, 1, 1), (2000, 2, 29), (2100, 2, 28), (1900, 3, 1), (-4, 12, 31), (2024, 12, 31)] {
        assert_eq!(date_from_days(days_from_civil(y, m, d)), (y, m, d));
    }
    for days in [-800000i64, -1, 0, 59, 60, 11016, 19782, 2932896] {
        let (y, m, d) = date_from_days(days);
        assert_eq!(days_from_civil(y, m, d), days);
    }
}

#[test]
fn number_parsing() {
    assert_eq!(parse_u32("42"), Some(42));
    assert_eq!(parse_u32("+42"), Some(42));
    assert_eq!(parse_u32("4294967295"), Some(u32::MAX));
    assert_eq!(parse_u32("4294967296"), None);
    assert_eq!(parse_u32(""), None);
    assert_eq!(parse_u32("-1"), None);
    assert_eq!(parse_u32("1x"), None);
    assert_eq!(parse_i32("-20"), Some(-20));
    assert_eq!(parse_i32("-2147483648"), Some(i32::MIN));
    assert_eq!(parse_i32("2147483648"), None);
    assert_eq!(parse_i32("-"), None);
    assert_eq!(parse_usize("128"), Some(128));
    assert_eq!(parse_usize("abc"), None);
}

#[test]
fn byte_search() {
    assert_eq!(find_byte(b"12:34:56", b':', 0), 2);
    assert_eq!(find_byte(b"12:34:56", b':', 3), 5);
    assert_eq!(find_byte(b"12:34:56", b':', 6), 8);
}

#[test]
fn real_clock_follows_reference() {
    let mut rt = RealTime::new(5_000);
    assert_eq!(rt.get_time_since_update(5_000), 0);
    assert_eq!(rt.get_real_time(5_000), 0);
    assert_eq!(rt.get_real_date(5_000), 0);
    rt.update_date(19723);
    rt.update_time(Deviation::new(86_000, 10_000), 12_500);
    assert_eq!(rt.get_time_since_update(12_500), 0);
    assert_eq!(rt.get_real_time(12_500), 86_002);
    assert_eq!(rt.get_real_time(12_500 + 400_000), (86_002 + 400) % 86_400);
    assert_eq!(rt.get_real_date(12_500 + 400_000), 19724);
    let total = rt.get_real_date(412_500) as u64 * 86_400 + rt.get_real_time(412_500) as u64;
    assert_eq!(total, 19723 * 86_400 + 86_002 + 400);
}

#[test]
fn boot_time_is_now_minus_uptime() {
    let mut rt = RealTime::new(0);
    rt.update_date(10);
    rt.update_time(Deviation::new(3_600, 100_000), 100_000);
    let (time, date) = rt.get_boot_real_time(100_000);
    assert_eq!((time, date), (3_500, 10));
    let mut early = RealTime::new(0);
    early.update_time(Deviation::new(10, 50_000), 50_000);
    assert_eq!(early.get_boot_real_time(50_000), (0, 0));
}

#[test]
fn next_or_first_picks_next_mid_time() {
    let mids = [0u32, 21600, 43200, 64800];
    assert_eq!(RealTime::next_or_first(&mids, 100), 1);
    assert_eq!(RealTime::next_or_first(&mids, 43200), 3);
    assert_eq!(RealTime::next_or_first(&mids, 70000), 0);
    assert_eq!(RealTime::next_or_first(&[30u32, 10, 10, 20], 5), 1);
    assert_eq!(RealTime::next_or_first(&[], 5), 0);
}

#[test]
fn wrapping_arithmetic() {
    assert_eq!(RealTime::subtract_wrapping(100, 30), 70);
    assert_eq!(RealTime::subtract_wrapping(86_399, 0), 86_399);
    assert_eq!(RealTime::add_wrapping(86_000, 500), 100);
    assert_eq!(RealTime::add_wrapping(RealTime::subtract_wrapping(500, 200), 200), 500);
    assert_eq!(RealTime::diff_wrapping(100, 86_300), 200);
    assert_eq!(RealTime::diff_wrapping(86_300, 100), 200);
    assert_eq!(RealTime::diff_wrapping(0, 43_200), 43_200);
    assert_eq!(RealTime::diff_wrapping(7, 7), 0);
}

#[test]
fn sleep_reaches_requested_time() {
    let mut rt = RealTime::new(0);
    rt.update_date(100);
    rt.update_time(Deviation::new(3_600, 0), 0);
    assert_eq!(rt.get_sleep_secs(7_200, 100, 0), 3_600);
    assert_eq!(rt.get_sleep_secs(1_800, 101, 0), 86_400 - 1_800);
    assert_eq!(rt.get_sleep_secs(3_600, 100, 0), 0);
    assert_eq!(rt.get_sleep_secs(3_600, 101, 0), 86_400);
    for target in [0u32, 3_599, 3_601, 86_399] {
        let secs = rt.get_sleep_secs(target, 100, 0);
        assert_eq!((3_600 + secs) % 86_400, target);
    }
    let _timer = rt.get_timer(7_200, 100, 0);
}

#[test]
fn readable_time_texts() {
    assert!(time_str_readable("12:00:00"));
    assert!(time_str_readable("nonsense"));
    assert!(time_str_readable("1:2"));
    assert!(!time_str_readable("1:2:3:4"));
    assert!(!time_str_readable("1193047:0:0"));
    assert!(time_str_readable("1193046:0:0"));
}

#[test]
fn clock_readability() {
    let mut rt = RealTime::new(10_000);
    assert!(rt.clock_readable(10_000));
    assert!(!rt.clock_readable(9_000));
    rt.update_date(u32::MAX);
    rt.update_time(Deviation::new(86_000, 10_000), 10_000);
    assert!(rt.clock_readable(10_000));
    assert!(!rt.clock_readable(10_000 + 400_000));
}

#[test]
fn sleep_in_milliseconds() {
    let mut rt = RealTime::new(0);
    rt.update_date(100);
    rt.update_time(Deviation::new(3_600, 0), 0);
    assert_eq!(rt.sleep_millis(7_200, 100, 0), 3_600_000);
    assert_eq!(rt.sleep_millis(3_600, 101, 0), 86_400_000);
    assert_eq!(rt.sleep_millis(3_600, 100, 0), 0);
    assert_eq!(rt.sleep_millis(1_800, 100, 500), (86_400 - 1_800) * 1000);
}
