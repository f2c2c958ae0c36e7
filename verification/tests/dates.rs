use speedtracker::date::{
    format_date, format_timestamp, get_data_file_name, parse_date, parse_timestamp, sub_days, Date,
};

#[test]
fn parses_a_plain_date() {
    let d = parse_date("2022-01-15").unwrap();
    assert_eq!((d.year, d.month, d.day), (2022, 1, 15));
}

#[test]
fn rejects_malformed_dates() {
    for s in [
        "2022-13-15",
        "2022-00-15",
        "2022-01-32",
        "2022-02-29",
        "2022-1-15",
        "20220115",
        "2022-01-15 ",
        "abcd-01-15",
        "",
    ] {
        assert!(parse_date(s).is_none(), "{:?} should be rejected", s);
    }
}

#[test]
fn leap_years_are_honoured() {
    assert!(parse_date("2020-02-29").is_some());
    assert!(parse_date("2100-02-29").is_none());
    assert!(parse_date("2000-02-29").is_some());
}

#[test]
fn parses_a_timestamp() {
    let t = parse_timestamp("2022-01-15 23:59:59").unwrap();
    assert_eq!(t.date.day, 15);
    assert_eq!((t.hour, t.minute, t.second), (23, 59, 59));
}

#[test]
fn rejects_malformed_timestamps() {
    for s in [
        "2022-01-15T10:30:00",
        "2022-01-15 24:00:00",
        "2022-01-15 10:60:00",
        "2022-01-15 10:30:60",
        "2022-01-15 10:30",
    ] {
        assert!(parse_timestamp(s).is_none(), "{:?} should be rejected", s);
    }
}

#[test]
fn subtracting_days_crosses_months_and_years() {
    let d = Date { year: 2022, month: 3, day: 1 };
    let back = sub_days(&d, 1);
    assert_eq!((back.year, back.month, back.day), (2022, 2, 28));
    let leap = Date { year: 2020, month: 3, day: 1 };
    let back = sub_days(&leap, 1);
    assert_eq!((back.year, back.month, back.day), (2020, 2, 29));
    let d = Date { year: 2022, month: 1, day: 1 };
    let back = sub_days(&d, 1);
    assert_eq!((back.year, back.month, back.day), (2021, 12, 31));
    let d = Date { year: 2022, month: 1, day: 15 };
    let back = sub_days(&d, 14);
    assert_eq!((back.year, back.month, back.day), (2022, 1, 1));
}

#[test]
fn formatting_zero_pads() {
    let d = Date { year: 33, month: 2, day: 3 };
    assert_eq!(format_date(&d), "0033-02-03");
}

#[test]
fn data_file_names_follow_the_monthly_scheme() {
    let d = Date { year: 2022, month: 1, day: 15 };
    assert_eq!(get_data_file_name(&d), "2022-01-DATA.json");
    let d = Date { year: 2022, month: 12, day: 1 };
    assert_eq!(get_data_file_name(&d), "2022-12-DATA.json");
}

#[test]
fn timestamps_format_back_to_the_wire_form() {
    let t = parse_timestamp("2022-01-15 09:05:00").unwrap();
    assert_eq!(format_timestamp(&t), "2022-01-15 09:05:00");
}
