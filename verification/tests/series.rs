use speedtracker::chart::{
    create_dataset, create_dataset_expected, create_datasets, create_download_chart,
    create_latency_chart, ChartConfig, ExpectedConfig, Point,
};
use speedtracker::date::{Date, Timestamp};
use speedtracker::record::{ParsedEntry, Performance};

fn u32_config(expected: Option<ExpectedConfig<u32>>) -> ChartConfig<u32> {
    ChartConfig {
        id: "latency".to_string(),
        label: "latency".to_string(),
        fill: false,
        border_color: "green".to_string(),
        default_value: 30,
        expected_value: expected,
    }
}

fn entry(day: u8, perf: Option<Performance>) -> ParsedEntry {
    ParsedEntry {
        timestamp: Timestamp {
            date: Date { year: 2022, month: 1, day },
            hour: 12,
            minute: 0,
            second: 0,
        },
        client: None,
        server: None,
        performance: perf,
    }
}

fn perf(latency: u32, download: Option<u64>) -> Performance {
    Performance {
        latency,
        jitter: None,
        download_config: None,
        upload_config: None,
        download,
        upload: None,
    }
}

#[test]
fn expected_series_over_no_records_has_two_empty_x_points() {
    // A Series built from an empty record list with a configured
    // expected value yields exactly two points, both with empty-string
    // x and the configured target y.
    let exp = ExpectedConfig {
        label: "expected".to_string(),
        fill: false,
        border_color: "lime".to_string(),
        value: 250u32,
    };
    let points: Vec<Point<u32>> = Vec::new();
    let ds = create_dataset_expected(&exp, &points);
    assert_eq!(ds.data.len(), 2);
    assert_eq!(ds.data[0].x, "");
    assert_eq!(ds.data[1].x, "");
    assert_eq!(ds.data[0].y, 250);
    assert_eq!(ds.data[1].y, 250);
}

#[test]
fn expected_series_spans_first_and_last_point() {
    let exp = ExpectedConfig {
        label: "expected".to_string(),
        fill: false,
        border_color: "lime".to_string(),
        value: 250u32,
    };
    let points = vec![
        Point { x: "a".to_string(), y: 1u32 },
        Point { x: "b".to_string(), y: 2u32 },
        Point { x: "c".to_string(), y: 3u32 },
    ];
    let ds = create_dataset_expected(&exp, &points);
    assert_eq!(ds.data[0].x, "a");
    assert_eq!(ds.data[1].x, "c");
}

#[test]
fn dataset_carries_config_and_points() {
    let cfg = u32_config(None);
    let points = vec![Point { x: "t".to_string(), y: 5u32 }];
    let ds = create_dataset(&cfg, points);
    assert_eq!(ds.label, "latency");
    assert!(!ds.fill);
    assert_eq!(ds.border_color, "green");
    assert_eq!(ds.data.len(), 1);
    assert_eq!(ds.data[0].y, 5);
}

#[test]
fn datasets_add_the_reference_line_only_when_configured() {
    let plain = create_datasets(&u32_config(None), Vec::new());
    assert_eq!(plain.len(), 1);
    let exp = ExpectedConfig {
        label: "expected".to_string(),
        fill: false,
        border_color: "lime".to_string(),
        value: 9u32,
    };
    let both = create_datasets(&u32_config(Some(exp)), Vec::new());
    assert_eq!(both.len(), 2);
    assert_eq!(both[1].label, "expected");
}

#[test]
fn latency_chart_substitutes_default_only_for_missing_section() {
    let cfg = u32_config(None);
    let data = vec![entry(1, Some(perf(23, None))), entry(2, None)];
    let chart = create_latency_chart(&data, &cfg);
    assert_eq!(chart.datasets.len(), 1);
    let points = &chart.datasets[0].data;
    assert_eq!(points.len(), 2);
    assert_eq!(points[0].x, "2022-01-01 12:00:00");
    assert_eq!(points[0].y, 23);
    // absent section: the default, in the plot only
    assert_eq!(points[1].y, 30);
    // the statistics cover only the single measured value
    let st = chart.stats.unwrap();
    assert_eq!(st.median, 23_000);
    assert_eq!(st.average, 23_000);
    assert_eq!(st.standard_deviation, 0);
}

#[test]
fn chart_without_measured_values_has_no_statistics() {
    let cfg = u32_config(None);
    let data = vec![entry(1, None)];
    let chart = create_latency_chart(&data, &cfg);
    assert!(chart.stats.is_none());
}

#[test]
fn download_chart_reports_megabits() {
    let cfg = ChartConfig {
        id: "download".to_string(),
        label: "download".to_string(),
        fill: false,
        border_color: "green".to_string(),
        default_value: 0u64,
        expected_value: None,
    };
    // one sample at 250000000.0 bits/s
    let data = vec![entry(1, Some(perf(10, Some(250_000_000_000))))];
    let chart = create_download_chart(&data, &cfg);
    let st = chart.stats.unwrap();
    // divided by the megabit factor: 250.0, still in milli-units
    assert_eq!(st.median, 250_000);
    assert_eq!(st.average, 250_000);
    assert_eq!(st.standard_deviation, 0);
    // the plotted point keeps the raw unit
    assert_eq!(chart.datasets[0].data[0].y, 250_000_000_000);
}
