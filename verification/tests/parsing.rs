use speedtracker::date::Date;
use speedtracker::record::{JsonParser, ParseError, ParsedEntry};

fn full_line() -> String {
    let mut line = String::new();
    line.push_str("{\"timestamp\":\"2022-01-15 10:30:00\",");
    line.push_str("\"client\":{\"wlan\":\"home\",\"ip\":\"1.2.3.4\",\"lat\":\"52.1\",");
    line.push_str("\"lon\":\"13.4\",\"isp\":\"ExampleNet\"},");
    line.push_str("\"server\":{\"name\":\"srv\",\"sponsor\":\"spn\",\"distance\":\"12 km\",");
    line.push_str("\"host\":\"srv.example\"},");
    line.push_str("\"performance\":{\"latency\":23,\"jitter\":4,");
    line.push_str("\"downloadConfig\":\"8 streams\",\"uploadConfig\":\"4 streams\",");
    line.push_str("\"download\":92133307.392,\"upload\":31337000.5}}");
    line
}

#[test]
fn parses_a_full_record() {
    let e = JsonParser::parse(&full_line()).unwrap();
    assert_eq!(e.timestamp.date.year, 2022);
    assert_eq!(e.timestamp.date.month, 1);
    assert_eq!(e.timestamp.date.day, 15);
    assert_eq!(e.timestamp.hour, 10);
    assert_eq!(e.timestamp.minute, 30);
    assert_eq!(e.timestamp.second, 0);
    let c = e.client.unwrap();
    assert_eq!(c.wlan.as_deref(), Some("home"));
    assert_eq!(c.ip, "1.2.3.4");
    assert_eq!(c.isp, "ExampleNet");
    let s = e.server.unwrap();
    assert_eq!(s.name, "srv");
    assert_eq!(s.host, "srv.example");
    let p = e.performance.unwrap();
    assert_eq!(p.latency, 23);
    assert_eq!(p.jitter, Some(4));
    assert_eq!(p.download_config.as_deref(), Some("8 streams"));
    // 92133307.392 bits/s in milli-units, fraction truncated at the
    // third decimal.
    assert_eq!(p.download, Some(92_133_307_392));
    assert_eq!(p.upload, Some(31_337_000_500));
}

#[test]
fn optional_sections_are_independently_absent() {
    let e = JsonParser::parse("{\"timestamp\":\"2022-01-15 10:30:00\"}").unwrap();
    assert!(e.client.is_none());
    assert!(e.server.is_none());
    assert!(e.performance.is_none());
}

#[test]
fn null_sections_read_as_absent() {
    let e = JsonParser::parse(
        "{\"timestamp\":\"2022-01-15 10:30:00\",\"client\":null,\"performance\":null}",
    )
    .unwrap();
    assert!(e.client.is_none());
    assert!(e.performance.is_none());
}

#[test]
fn unknown_members_are_skipped() {
    let e = JsonParser::parse(
        "{\"extra\":[1,{\"a\":false},\"x\"],\"timestamp\":\"2022-01-15 10:30:00\",\"other\":null}",
    )
    .unwrap();
    assert_eq!(e.timestamp.date.year, 2022);
}

#[test]
fn whitespace_between_tokens_is_accepted() {
    let e = JsonParser::parse(
        "  { \"timestamp\" :\t\"2022-01-15 10:30:00\" ,\r\n \"performance\" : { \"latency\" : 7 } }  ",
    )
    .unwrap();
    assert_eq!(e.performance.unwrap().latency, 7);
}

#[test]
fn bad_timestamp_is_its_own_error() {
    match JsonParser::parse("{\"timestamp\":\"2022-13-15 10:30:00\"}") {
        Err(ParseError::BadTimestamp) => {}
        other => panic!("expected BadTimestamp, got {:?}", other),
    }
    match JsonParser::parse("{\"timestamp\":\"yesterday\"}") {
        Err(ParseError::BadTimestamp) => {}
        other => panic!("expected BadTimestamp, got {:?}", other),
    }
}

#[test]
fn structural_faults_are_malformed() {
    for line in [
        "not json",
        "",
        "[1,2]",
        "{\"timestamp\":\"2022-01-15 10:30:00\"",
        "{}",
        "{\"client\":{\"ip\":\"1.2.3.4\",\"lat\":\"0\",\"lon\":\"0\",\"isp\":\"x\"}}",
        "{\"timestamp\":\"2022-01-15 10:30:00\",\"performance\":{\"jitter\":4}}",
        "{\"timestamp\":\"2022-01-15 10:30:00\",\"performance\":{\"latency\":\"23\"}}",
        "{\"timestamp\":\"2022-01-15 10:30:00\",\"performance\":{\"latency\":2.5}}",
        "{\"timestamp\":\"2022-01-15 10:30:00\",\"timestamp\":\"2022-01-15 10:30:00\"}",
        "{\"timestamp\":\"2022-01-15 10:30:00\"} trailing",
        "{\"timestamp\":12}",
    ] {
        match JsonParser::parse(line) {
            Err(ParseError::Malformed(_)) => {}
            other => panic!("expected Malformed for {:?}, got {:?}", line, other),
        }
    }
}

#[test]
fn string_escapes_are_decoded() {
    let e = JsonParser::parse(
        "{\"timestamp\":\"2022-01-15 10:30:00\",\"server\":{\"name\":\"a\\\"b\\\\c\\n\",\"sponsor\":\"s\",\"distance\":\"d\",\"host\":\"h\"}}",
    )
    .unwrap();
    assert_eq!(e.server.unwrap().name, "a\"b\\c\n");
}

#[test]
fn unicode_escapes_are_decoded() {
    let e = JsonParser::parse(
        "{\"timestamp\":\"2022-01-15 10:30:00\",\"client\":{\"wlan\":\"caf\\u00e9\",\"ip\":\"i\",\"lat\":\"a\",\"lon\":\"o\",\"isp\":\"\\u0041\\u20AC \\uD83D\\uDE00\"}}",
    )
    .unwrap();
    let c = e.client.unwrap();
    assert_eq!(c.wlan.as_deref(), Some("café"));
    assert_eq!(c.isp, "A€ 😀");
}

#[test]
fn lone_surrogates_are_malformed() {
    for line in [
        "{\"timestamp\":\"2022-01-15 10:30:00\",\"client\":{\"wlan\":\"\\uD800\",\"ip\":\"i\",\"lat\":\"a\",\"lon\":\"o\",\"isp\":\"x\"}}",
        "{\"timestamp\":\"2022-01-15 10:30:00\",\"client\":{\"wlan\":\"\\uDC00x\",\"ip\":\"i\",\"lat\":\"a\",\"lon\":\"o\",\"isp\":\"x\"}}",
        "{\"timestamp\":\"2022-01-15 10:30:00\",\"client\":{\"wlan\":\"\\uZZZZ\",\"ip\":\"i\",\"lat\":\"a\",\"lon\":\"o\",\"isp\":\"x\"}}",
    ] {
        match JsonParser::parse(line) {
            Err(ParseError::Malformed(_)) => {}
            other => panic!("expected Malformed for {:?}, got {:?}", line, other),
        }
    }
}

#[test]
fn record_filter_is_inclusive_on_both_ends() {
    let from = Date { year: 2022, month: 1, day: 10 };
    let to = Date { year: 2022, month: 1, day: 20 };
    let at = |text: &str| -> ParsedEntry {
        JsonParser::parse(&format!("{{\"timestamp\":\"{}\"}}", text)).unwrap()
    };
    // exactly at the boundaries: included
    assert!(speedtracker::record::record_in_range(
        &at("2022-01-10 00:00:00"),
        &from,
        &to
    ));
    assert!(speedtracker::record::record_in_range(
        &at("2022-01-20 23:59:59"),
        &from,
        &to
    ));
    // one second outside either boundary: a different date, excluded
    assert!(!speedtracker::record::record_in_range(
        &at("2022-01-09 23:59:59"),
        &from,
        &to
    ));
    assert!(!speedtracker::record::record_in_range(
        &at("2022-01-21 00:00:00"),
        &from,
        &to
    ));
    // filtering twice changes nothing: the test above is a pure
    // predicate of the record, so a second application agrees
    let e = at("2022-01-10 00:00:00");
    let first = speedtracker::record::record_in_range(&e, &from, &to);
    let second = speedtracker::record::record_in_range(&e, &from, &to);
    assert_eq!(first, second);
}

#[test]
fn loader_skips_malformed_lines_and_keeps_order() {
    let lines: Vec<String> = vec![
        "{\"timestamp\":\"2022-01-15 10:30:00\"}".to_string(),
        "not json".to_string(),
        "{\"timestamp\":\"2022-01-16 11:00:00\"}".to_string(),
    ];
    let from = Date { year: 2022, month: 1, day: 1 };
    let to = Date { year: 2022, month: 1, day: 31 };
    let records = speedtracker::record::parse_and_filter_lines(&lines, &from, &to);
    assert_eq!(records.len(), 2);
    assert_eq!(records[0].timestamp.date.day, 15);
    assert_eq!(records[1].timestamp.date.day, 16);
}

#[test]
fn loader_filters_by_date() {
    let lines: Vec<String> = vec![
        "{\"timestamp\":\"2022-01-15 10:30:00\"}".to_string(),
        "{\"timestamp\":\"2022-02-15 10:30:00\"}".to_string(),
    ];
    let from = Date { year: 2022, month: 1, day: 1 };
    let to = Date { year: 2022, month: 1, day: 31 };
    let records = speedtracker::record::parse_and_filter_lines(&lines, &from, &to);
    assert_eq!(records.len(), 1);
    assert_eq!(records[0].timestamp.date.month, 1);
}

#[test]
fn empty_input_yields_an_empty_list() {
    let lines: Vec<String> = vec![];
    let from = Date { year: 2022, month: 1, day: 1 };
    let to = Date { year: 2022, month: 1, day: 31 };
    let records = speedtracker::record::parse_and_filter_lines(&lines, &from, &to);
    assert!(records.is_empty());
}

#[test]
fn rate_out_of_range_is_malformed() {
    // beyond the supported fixed-point range
    match JsonParser::parse(
        "{\"timestamp\":\"2022-01-15 10:30:00\",\"performance\":{\"latency\":1,\"download\":999999999999999999}}",
    ) {
        Err(ParseError::Malformed(_)) => {}
        other => panic!("expected Malformed, got {:?}", other),
    }
}
