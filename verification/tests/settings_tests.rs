use backtune::settings::{
    can_set_setting, format_wait_time, init_settings, parse_wait_time, set_setting,
    SettingChange,
};

#[test]
fn fresh_settings_wait_one_to_four_minutes() {
    let s = init_settings();
    assert_eq!(s.min_wait_time, 60_000);
    assert_eq!(s.max_wait_time, 240_000);
}

#[test]
fn parse_whole_and_fractional_seconds() {
    assert_eq!(parse_wait_time("60"), Some(60_000));
    assert_eq!(parse_wait_time("1.5"), Some(1_500));
    assert_eq!(parse_wait_time(".25"), Some(250));
    assert_eq!(parse_wait_time("5."), Some(5_000));
    assert_eq!(parse_wait_time("007"), Some(7_000));
    assert_eq!(parse_wait_time("0"), Some(0));
}

#[test]
fn parse_drops_below_a_millisecond() {
    assert_eq!(parse_wait_time("1.2345"), Some(1_234));
    assert_eq!(parse_wait_time("0.0009"), Some(0));
}

#[test]
fn parse_refuses_what_is_no_numeral() {
    assert_eq!(parse_wait_time(""), None);
    assert_eq!(parse_wait_time("."), None);
    assert_eq!(parse_wait_time("1.2.3"), None);
    assert_eq!(parse_wait_time("-4"), None);
    assert_eq!(parse_wait_time("12a"), None);
}

#[test]
fn parse_reads_signs_and_exponents() {
    assert_eq!(parse_wait_time("+5"), Some(5_000));
    assert_eq!(parse_wait_time("1e3"), Some(1_000_000));
    assert_eq!(parse_wait_time("2E1"), Some(20_000));
    assert_eq!(parse_wait_time("1.5e-3"), Some(1));
    assert_eq!(parse_wait_time("1e-4"), Some(0));
    assert_eq!(parse_wait_time("25e-1"), Some(2_500));
    assert_eq!(parse_wait_time("+.5E+1"), Some(5_000));
    assert_eq!(parse_wait_time("5.e0"), Some(5_000));
    assert_eq!(parse_wait_time("123456789e-12"), Some(0));
    assert_eq!(parse_wait_time("0e999999999999999999999999"), Some(0));
    assert_eq!(parse_wait_time("1e999999999999999999999999"), Some(u64::MAX));
    assert_eq!(parse_wait_time("7e-999999999999999999999999"), Some(0));
}

#[test]
fn parse_refuses_broken_exponents_and_other_forms() {
    assert_eq!(parse_wait_time("1e"), None);
    assert_eq!(parse_wait_time("1e+"), None);
    assert_eq!(parse_wait_time("e5"), None);
    assert_eq!(parse_wait_time("1e5e5"), None);
    assert_eq!(parse_wait_time("+"), None);
    assert_eq!(parse_wait_time("++5"), None);
    assert_eq!(parse_wait_time("-5"), None);
    assert_eq!(parse_wait_time("inf"), None);
    assert_eq!(parse_wait_time("NaN"), None);
    assert_eq!(parse_wait_time("1.5.e2"), None);
}

#[test]
fn parse_caps_huge_values() {
    assert_eq!(parse_wait_time("99999999999999999999999999"), Some(u64::MAX));
    assert_eq!(parse_wait_time("18446744073709551"), Some(18_446_744_073_709_551_000));
    assert_eq!(parse_wait_time("18446744073709552"), Some(u64::MAX));
}

#[test]
fn format_shows_shortest_fraction() {
    assert_eq!(format_wait_time(60_000), "60");
    assert_eq!(format_wait_time(240_000), "240");
    assert_eq!(format_wait_time(12_500), "12.5");
    assert_eq!(format_wait_time(250), "0.25");
    assert_eq!(format_wait_time(1), "0.001");
    assert_eq!(format_wait_time(1_010), "1.01");
    assert_eq!(format_wait_time(0), "0");
    assert_eq!(format_wait_time(u64::MAX), "18446744073709551.615");
}

#[test]
fn format_then_parse_round_trip() {
    for ms in [0u64, 1, 9, 10, 99, 100, 999, 1000, 1001, 12_340, 60_000, 987_654_321, u64::MAX] {
        assert_eq!(parse_wait_time(&format_wait_time(ms)), Some(ms));
    }
}

#[test]
fn set_setting_updates_minimum_and_maximum() {
    let mut s = init_settings();
    assert_eq!(set_setting(&mut s, 0, &"2.5".to_string()), SettingChange::Updated);
    assert_eq!(s.min_wait_time, 2_500);
    assert_eq!(s.max_wait_time, 240_000);
    assert_eq!(set_setting(&mut s, 1, &"30".to_string()), SettingChange::Updated);
    assert_eq!(s.min_wait_time, 2_500);
    assert_eq!(s.max_wait_time, 30_000);
}

#[test]
fn set_setting_ignores_empty_text() {
    let mut s = init_settings();
    assert_eq!(set_setting(&mut s, 0, &String::new()), SettingChange::Ignored);
    assert_eq!(s.min_wait_time, 60_000);
    assert_eq!(s.max_wait_time, 240_000);
}

#[test]
fn set_setting_reports_unknown_index() {
    let mut s = init_settings();
    assert_eq!(set_setting(&mut s, 2, &"5".to_string()), SettingChange::InvalidIndex);
    assert_eq!(set_setting(&mut s, -1, &"5".to_string()), SettingChange::InvalidIndex);
    assert_eq!(s.min_wait_time, 60_000);
    assert_eq!(s.max_wait_time, 240_000);
}

#[test]
fn can_set_setting_flags_a_lone_point() {
    assert!(!can_set_setting(0, &".".to_string()));
    assert!(!can_set_setting(1, &"x".to_string()));
    assert!(can_set_setting(0, &"".to_string()));
    assert!(can_set_setting(5, &".".to_string()));
    assert!(can_set_setting(1, &"3.".to_string()));
}
