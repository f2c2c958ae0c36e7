use speedtracker::date::Date;
use speedtracker::setup::{
    config_to_setup_for_mode_1, config_to_setup_for_mode_2, is_blank, join_path,
    speed_test_report, Config, SetupError,
};

#[test]
fn defaults_are_the_documented_ones() {
    let c = Config::default();
    assert_eq!(c.data_dir, "./");
    assert_eq!(c.output_file, "./index.html");
    assert_eq!(c.output_xdays, 14);
    assert_eq!(c.log_file, "./speedtracker.log");
    assert_eq!(c.log_file_max_length_in_kb, 8096);
    assert_eq!(c.latency_chart.default_value, 30);
    assert!(c.latency_chart.expected_value.is_none());
    let exp = c.download_chart.expected_value.unwrap();
    // 250000000.0 bits/s, in milli-units
    assert_eq!(exp.value, 250_000_000_000);
    assert_eq!(exp.border_color, "lime");
    let exp = c.upload_chart.expected_value.unwrap();
    assert_eq!(exp.value, 25_000_000_000);
}

#[test]
fn mode_one_builds_the_rolling_window() {
    let config = Config::default();
    let today = Date { year: 2022, month: 3, day: 10 };
    let s = config_to_setup_for_mode_1("/opt/app", config, &today);
    assert_eq!(s.last_filter_file_name, "2022-03-DATA.json");
    // fourteen days back: 2022-02-24
    assert_eq!(s.first_filter_file_name, "2022-02-DATA.json");
    assert_eq!((s.from_date.year, s.from_date.month, s.from_date.day), (2022, 2, 24));
    assert_eq!(s.to_date, today);
    assert_eq!(s.new_data_file.as_deref(), Some("./2022-03-DATA.json"));
    assert_eq!(s.working_dir, "/opt/app");
}

#[test]
fn mode_two_accepts_a_proper_window() {
    let config = Config::default();
    let s = config_to_setup_for_mode_2("/opt/app", config, "2022-01-01", "2022-02-15", "./out.html")
        .unwrap();
    assert_eq!(s.first_filter_file_name, "2022-01-DATA.json");
    assert_eq!(s.last_filter_file_name, "2022-02-DATA.json");
    assert!(s.new_data_file.is_none());
    assert_eq!(s.output_file, "./out.html");
}

#[test]
fn mode_two_rejects_bad_windows() {
    let r = config_to_setup_for_mode_2("/", Config::default(), "2022-1-1", "2022-02-15", "o");
    assert_eq!(r.err(), Some(SetupError::BadFromDate));
    let r = config_to_setup_for_mode_2("/", Config::default(), "2022-01-01", "soon", "o");
    assert_eq!(r.err(), Some(SetupError::BadToDate));
    let r = config_to_setup_for_mode_2("/", Config::default(), "2022-02-15", "2022-01-01", "o");
    assert_eq!(r.err(), Some(SetupError::ReversedRange));
}

#[test]
fn join_path_inserts_one_separator() {
    assert_eq!(join_path("./data", "x.json"), "./data/x.json");
    assert_eq!(join_path("./data/", "x.json"), "./data/x.json");
    assert_eq!(join_path("", "x.json"), "x.json");
}

#[test]
fn blank_recognises_whitespace_only() {
    assert!(is_blank(""));
    assert!(is_blank(" \t\r\n"));
    assert!(!is_blank(" x "));
}

#[test]
fn speed_test_report_lines() {
    let (is_err, line) = speed_test_report("10:00", "10:01", &None);
    assert!(!is_err);
    assert_eq!(line, "run_speed_test OK from 10:00 to 10:01");
    let (is_err, line) = speed_test_report("10:00", "10:01", &Some("no server".to_string()));
    assert!(is_err);
    assert_eq!(
        line,
        "run_speed_test ERROR from 10:00 to 10:01 message = 'no server'"
    );
}
