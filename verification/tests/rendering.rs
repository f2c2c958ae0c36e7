use speedtracker::chart::{Chart, ChartConfig, Dataset, Point};
use speedtracker::date::{Date, Timestamp};
use speedtracker::record::{ParsedEntry, Server};
use speedtracker::render::{
    create_statistic_table, create_statistics_table, datasets_to_json_milli, datasets_to_json_u32,
    raw_data_table, substitute_line, HtmlGenerator,
};
use speedtracker::stats::MetricStatistics;

fn u32_config() -> ChartConfig<u32> {
    ChartConfig {
        id: "latency".to_string(),
        label: "latency".to_string(),
        fill: false,
        border_color: "green".to_string(),
        default_value: 30,
        expected_value: None,
    }
}

#[test]
fn statistic_table_shows_formatted_values() {
    let chart: Chart<u32> = Chart {
        datasets: Vec::new(),
        stats: Some(MetricStatistics { median: 23_000, average: 23_500, standard_deviation: 0 }),
    };
    let table = create_statistic_table("latency", &u32_config(), &chart);
    assert!(table.contains("<table id=\"statistic_latency\">"));
    assert!(table.contains("<th colspan=\"3\">latency</th>"));
    assert!(table.contains("<td>23</td>"));
    assert!(table.contains("<td>23.5</td>"));
    assert!(table.contains("<td>0</td>"));
}

#[test]
fn statistic_table_marks_missing_data() {
    let chart: Chart<u32> = Chart { datasets: Vec::new(), stats: None };
    let table = create_statistic_table("latency", &u32_config(), &chart);
    assert_eq!(table.matches("no data").count(), 3);
}

#[test]
fn statistics_table_embeds_all_four() {
    let t = create_statistics_table(
        "LAT".to_string(),
        "JIT".to_string(),
        "DWN".to_string(),
        "UPL".to_string(),
    );
    assert!(t.contains("<table id=\"statistic\">"));
    assert!(t.contains("<th>LAT</th>"));
    assert!(t.contains("<th>JIT</th>"));
    assert!(t.contains("<td>DWN</td>"));
    assert!(t.contains("<td>UPL</td>"));
}

#[test]
fn datasets_serialize_like_float_charts_expect() {
    let ds = Dataset {
        label: "download".to_string(),
        data: vec![Point { x: "2022-01-01 12:00:00".to_string(), y: 250_000_000_000u64 }],
        fill: false,
        border_color: "green".to_string(),
    };
    let json = datasets_to_json_milli(&vec![ds], &Vec::new());
    assert_eq!(
        json,
        "[{\"label\":\"download\",\"data\":[{\"x\":\"2022-01-01 12:00:00\",\"y\":250000000.0}],\"fill\":false,\"borderColor\":\"green\"}]"
    );
}

#[test]
fn integer_datasets_serialize_plain_numbers() {
    let a = Dataset {
        label: "lat\"1".to_string(),
        data: vec![Point { x: "t1".to_string(), y: 23u32 }],
        fill: true,
        border_color: "green".to_string(),
    };
    let b = Dataset {
        label: "jit".to_string(),
        data: Vec::new(),
        fill: false,
        border_color: "red".to_string(),
    };
    let json = datasets_to_json_u32(&vec![a], &vec![b]);
    assert_eq!(
        json,
        "[{\"label\":\"lat\\\"1\",\"data\":[{\"x\":\"t1\",\"y\":23}],\"fill\":true,\"borderColor\":\"green\"},{\"label\":\"jit\",\"data\":[],\"fill\":false,\"borderColor\":\"red\"}]"
    );
}

#[test]
fn substitution_replaces_known_placeholders() {
    let out = substitute_line("<div>${STATISTICS}</div>", "S", "R", "T", "W");
    assert_eq!(out, "<div>S</div>");
    let out = substitute_line("x ${RESPONSE_TIMES} y", "S", "R", "T", "W");
    assert_eq!(out, "x R y");
    let out = substitute_line("${THROUGHPUT}", "S", "R", "T", "W");
    assert_eq!(out, "T");
}

#[test]
fn raw_data_placeholder_takes_the_whole_line() {
    let out = substitute_line("prefix ${RAW_DATA} suffix", "S", "R", "T", "WHOLE");
    assert_eq!(out, "WHOLE");
}

#[test]
fn unknown_or_missing_placeholders_pass_through() {
    assert_eq!(
        substitute_line("plain text", "S", "R", "T", "W"),
        "plain text"
    );
    assert_eq!(
        substitute_line("keep ${OTHER} here", "S", "R", "T", "W"),
        "keep ${OTHER} here"
    );
    assert_eq!(substitute_line("open ${BAD", "S", "R", "T", "W"), "open ${BAD");
    // the leftmost well-formed placeholder wins
    assert_eq!(
        substitute_line("$${STATISTICS}", "S", "R", "T", "W"),
        "$S"
    );
}

#[test]
fn raw_table_lists_records_in_order() {
    let e = ParsedEntry {
        timestamp: Timestamp {
            date: Date { year: 2022, month: 1, day: 15 },
            hour: 10,
            minute: 30,
            second: 0,
        },
        client: None,
        server: Some(Server {
            name: "srv".to_string(),
            sponsor: "spn".to_string(),
            distance: "12 km".to_string(),
            host: "h".to_string(),
        }),
        performance: None,
    };
    let table = raw_data_table(&vec![e]);
    assert!(table.starts_with("<table id=\"rawdata\">"));
    assert!(table.contains("<td class=\"ts\">2022-01-15 10:30:00</td>"));
    assert!(table.contains("<td colspan=\"5\" class=\"client\"></td>"));
    assert!(table.contains("<td class=\"server\">srv</td>"));
    assert!(table.contains("<td colspan=\"6\" class=\"performance\"></td>"));
    assert!(table.ends_with("</table>\n"));
}

#[test]
fn prepare_builds_every_fragment() {
    let data: Vec<ParsedEntry> = Vec::new();
    let lat = u32_config();
    let jit = ChartConfig { id: "jitter".to_string(), label: "jitter".to_string(), ..u32_config() };
    let dwn: ChartConfig<u64> = ChartConfig {
        id: "download".to_string(),
        label: "download".to_string(),
        fill: false,
        border_color: "green".to_string(),
        default_value: 0,
        expected_value: None,
    };
    let upl: ChartConfig<u64> =
        ChartConfig { id: "upload".to_string(), label: "upload".to_string(), ..dwn.clone() };
    let parts = HtmlGenerator::prepare(&data, &lat, &jit, &dwn, &upl);
    assert!(parts.statistics_table.contains("statistic_latency"));
    assert!(parts.statistics_table.contains("no data"));
    assert!(parts.response_times.starts_with("["));
    assert!(parts.throughput.ends_with("]"));
    assert!(parts.raw_data.contains("rawdata"));
    assert!(parts.latency.stats.is_none());
}
