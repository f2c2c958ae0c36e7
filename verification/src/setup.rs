//! Run configuration: the on-disk configuration values, their defaults,
//! and the two ways a run is set up — a rolling window ending today
//! (collecting a new sample first), or an explicit date window given on
//! the command line.

use vstd::prelude::*;

use crate::chart::{ChartConfig, ExpectedConfig};
use crate::date::{
    parse_date, spec_data_file_name, spec_parse_date, spec_sub_days, sub_days, Date,
};
use vstd::string::StringSliceAdditionalSpecFns;

verus! {

/// The run configuration. Rates (the download and upload chart values)
/// are held in milli-bits per second.
#[derive(Debug, Clone)]
pub struct Config {
    /// directory where data is collected
    pub data_dir: String,
    /// should be on a path served by a webserver
    pub output_file: String,
    /// number of days in the past (from today) the data should cover
    pub output_xdays: u32,
    /// log file path and name
    pub log_file: String,
    /// maximal size of the log file in kb before it is rotated
    pub log_file_max_length_in_kb: u64,
    pub latency_chart: ChartConfig<u32>,
    pub jitter_chart: ChartConfig<u32>,
    pub download_chart: ChartConfig<u64>,
    pub upload_chart: ChartConfig<u64>,
}

impl Default for Config {
    /// The documented defaults: a fortnight's window, charts in the
    /// standard colors, and reference lines at 250 and 25 megabits per
    /// second for download and upload.
    fn default() -> (r: Self)
        ensures
            r.data_dir@ == "./"@,
            r.output_file@ == "./index.html"@,
            r.output_xdays == 14,
            r.log_file@ == "./speedtracker.log"@,
            r.log_file_max_length_in_kb == 8096,
            r.latency_chart.id@ == "latency"@ && r.latency_chart.label@ == "latency"@
                && !r.latency_chart.fill && r.latency_chart.border_color@ == "green"@
                && r.latency_chart.default_value == 30 && r.latency_chart.expected_value is None,
            r.jitter_chart.id@ == "jitter"@ && r.jitter_chart.label@ == "jitter"@
                && !r.jitter_chart.fill && r.jitter_chart.border_color@ == "red"@
                && r.jitter_chart.default_value == 30 && r.jitter_chart.expected_value is None,
            r.download_chart.id@ == "download"@ && r.download_chart.label@ == "download"@
                && !r.download_chart.fill && r.download_chart.border_color@ == "green"@
                && r.download_chart.default_value == 0,
            r.download_chart.expected_value matches Some(e) && e.label@ == "expected download"@
                && !e.fill && e.border_color@ == "lime"@ && e.value == 250000000000u64,
            r.upload_chart.id@ == "upload"@ && r.upload_chart.label@ == "upload"@
                && !r.upload_chart.fill && r.upload_chart.border_color@ == "red"@
                && r.upload_chart.default_value == 0,
            r.upload_chart.expected_value matches Some(e) && e.label@ == "expected upload"@
                && !e.fill && e.border_color@ == "orange"@ && e.value == 25000000000u64,
    {
        Config {
            data_dir: String::from_str("./"),
            output_file: String::from_str("./index.html"),
            output_xdays: 14,
            log_file: String::from_str("./speedtracker.log"),
            log_file_max_length_in_kb: 8096,
            latency_chart: ChartConfig {
                id: String::from_str("latency"),
                label: String::from_str("latency"),
                fill: false,
                border_color: String::from_str("green"),
                default_value: 30,
                expected_value: None,
            },
            jitter_chart: ChartConfig {
                id: String::from_str("jitter"),
                label: String::from_str("jitter"),
                fill: false,
                border_color: String::from_str("red"),
                default_value: 30,
                expected_value: None,
            },
            download_chart: ChartConfig {
                id: String::from_str("download"),
                label: String::from_str("download"),
                fill: false,
                border_color: String::from_str("green"),
                default_value: 0,
                expected_value: Some(
                    ExpectedConfig {
                        label: String::from_str("expected download"),
                        fill: false,
                        border_color: String::from_str("lime"),
                        value: 250000000000,
                    },
                ),
            },
            upload_chart: ChartConfig {
                id: String::from_str("upload"),
                label: String::from_str("upload"),
                fill: false,
                border_color: String::from_str("red"),
                default_value: 0,
                expected_value: Some(
                    ExpectedConfig {
                        label: String::from_str("expected upload"),
                        fill: false,
                        border_color: String::from_str("orange"),
                        value: 25000000000,
                    },
                ),
            },
        }
    }
}

/// One prepared run: which files to read, the date window, and where
/// the output goes.
#[derive(Debug, Clone)]
pub struct Setup {
    /// directory where data is collected
    pub data_dir: String,
    /// new results are appended to this file (collecting mode only)
    pub new_data_file: Option<String>,
    /// first file name with relevant data, e.g. `2022-01-DATA.json`
    pub first_filter_file_name: String,
    /// last file name with relevant data, e.g. `2022-02-DATA.json`
    pub last_filter_file_name: String,
    /// first day of the visualized window
    pub from_date: Date,
    /// last day of the visualized window
    pub to_date: Date,
    /// the report file
    pub output_file: String,
    /// the directory the program itself lives in (config and template)
    pub working_dir: String,
    pub latency_chart: ChartConfig<u32>,
    pub jitter_chart: ChartConfig<u32>,
    pub download_chart: ChartConfig<u64>,
    pub upload_chart: ChartConfig<u64>,
}

/// Why an explicit date window was rejected. Any of these aborts the
/// run before data work begins.
#[derive(Clone, Copy, PartialEq, Eq, Structural, Debug)]
pub enum SetupError {
    BadFromDate,
    BadToDate,
    ReversedRange,
}

/// A directory and a file name joined with a single separator.
pub open spec fn spec_join_path(d: Seq<char>, n: Seq<char>) -> Seq<char> {
    if d.len() == 0 {
        n
    } else if d.last() == '/' {
        d + n
    } else {
        d + "/"@ + n
    }
}

/// Joins a directory and a file name.
pub fn join_path(dir: &str, name: &str) -> (r: String)
    ensures
        r@ == spec_join_path(dir@, name@),
{
    let mut out = String::from_str(dir);
    let n = dir.unicode_len();
    if n > 0 && dir.get_char(n - 1) != '/' {
        out.append("/");
    }
    out.append(name);
    proof {
        assert(out@ =~= spec_join_path(dir@, name@));
    }
    out
}

/// Prepares the collecting run: a rolling window of `output_xdays` days
/// ending today, with a new sample appended to this month's data file.
/// The caller performs the filesystem permission checks and aborts on
/// failure before using the setup.
pub fn config_to_setup_for_mode_1(working_dir: &str, config: Config, today: &Date) -> (r: Setup)
    requires
        today.valid(),
    ensures
        r.to_date == *today,
        r.from_date == spec_sub_days(*today, config.output_xdays as nat),
        r.last_filter_file_name@ == spec_data_file_name(*today),
        r.first_filter_file_name@ == spec_data_file_name(
            spec_sub_days(*today, config.output_xdays as nat),
        ),
        r.new_data_file matches Some(f) && f@ == spec_join_path(
            config.data_dir@,
            spec_data_file_name(*today),
        ),
        r.data_dir@ == config.data_dir@,
        r.output_file@ == config.output_file@,
        r.working_dir@ == working_dir@,
        r.latency_chart == config.latency_chart,
        r.jitter_chart == config.jitter_chart,
        r.download_chart == config.download_chart,
        r.upload_chart == config.upload_chart,
{
    let last_filter_file_name = crate::date::get_data_file_name(today);
    let new_data_file = join_path(config.data_dir.as_str(), last_filter_file_name.as_str());
    let pastday = sub_days(today, config.output_xdays);
    let first_filter_file_name = crate::date::get_data_file_name(&pastday);
    Setup {
        data_dir: config.data_dir,
        new_data_file: Some(new_data_file),
        first_filter_file_name,
        last_filter_file_name,
        from_date: pastday,
        to_date: *today,
        output_file: config.output_file,
        working_dir: String::from_str(working_dir),
        latency_chart: config.latency_chart,
        jitter_chart: config.jitter_chart,
        download_chart: config.download_chart,
        upload_chart: config.upload_chart,
    }
}

/// Prepares a render-only run for an explicit window.
///
/// Returns `Err(BadFromDate)` exactly when `from_date` is not a valid
/// `YYYY-MM-DD` date; `Err(BadToDate)` exactly when `from_date` is
/// valid but `to_date` is not; `Err(ReversedRange)` exactly when both
/// are valid but `from_date > to_date`; and otherwise the setup, with
/// no collecting file.
pub fn config_to_setup_for_mode_2(
    working_dir: &str,
    config: Config,
    from_date: &str,
    to_date: &str,
    output_file: &str,
) -> (r: Result<Setup, SetupError>)
    ensures
        ({
            let fd = spec_parse_date(from_date.spec_bytes());
            let td = spec_parse_date(to_date.spec_bytes());
            &&& (r == Err::<Setup, SetupError>(SetupError::BadFromDate) <==> fd is None)
            &&& (r == Err::<Setup, SetupError>(SetupError::BadToDate) <==> fd is Some
                && td is None)
            &&& (r == Err::<Setup, SetupError>(SetupError::ReversedRange) <==> fd is Some
                && td is Some && !fd->0.spec_le(td->0))
            &&& (r is Ok <==> fd is Some && td is Some && fd->0.spec_le(td->0))
            &&& (r matches Ok(s) ==> {
                &&& s.from_date == fd->0
                &&& s.to_date == td->0
                &&& s.first_filter_file_name@ == spec_data_file_name(fd->0)
                &&& s.last_filter_file_name@ == spec_data_file_name(td->0)
                &&& s.new_data_file is None
                &&& s.data_dir@ == config.data_dir@
                &&& s.output_file@ == output_file@
                &&& s.working_dir@ == working_dir@
                &&& s.latency_chart == config.latency_chart
                &&& s.jitter_chart == config.jitter_chart
                &&& s.download_chart == config.download_chart
                &&& s.upload_chart == config.upload_chart
            })
        }),
{
    let fd = match parse_date(from_date) {
        None => {
            return Err(SetupError::BadFromDate);
        },
        Some(d) => d,
    };
    let td = match parse_date(to_date) {
        None => {
            return Err(SetupError::BadToDate);
        },
        Some(d) => d,
    };
    if !fd.le(&td) {
        return Err(SetupError::ReversedRange);
    }
    let first_filter_file_name = crate::date::get_data_file_name(&fd);
    let last_filter_file_name = crate::date::get_data_file_name(&td);
    Ok(
        Setup {
            data_dir: config.data_dir,
            new_data_file: None,
            first_filter_file_name,
            last_filter_file_name,
            from_date: fd,
            to_date: td,
            output_file: String::from_str(output_file),
            working_dir: String::from_str(working_dir),
            latency_chart: config.latency_chart,
            jitter_chart: config.jitter_chart,
            download_chart: config.download_chart,
            upload_chart: config.upload_chart,
        },
    )
}

/// Whether a text is blank: empty or whitespace only. A completed
/// speed-test run with blank diagnostic output is a clean run.
pub fn is_blank(s: &str) -> (r: bool)
    ensures
        r == (forall|i: int|
            0 <= i < s@.len() ==> (s@[i] == ' ' || s@[i] == '\t' || s@[i] == '\n' || s@[i]
                == '\r')),
{
    let n = s.unicode_len();
    let mut i: usize = 0;
    while i < n
        invariant
            i <= n == s@.len(),
            forall|t: int|
                0 <= t < i ==> (s@[t] == ' ' || s@[t] == '\t' || s@[t] == '\n' || s@[t] == '\r'),
        decreases n - i,
    {
        let c = s.get_char(i);
        if !(c == ' ' || c == '\t' || c == '\n' || c == '\r') {
            return false;
        }
        i = i + 1;
    }
    true
}

/// The log line of one speed-test run: an OK line naming the start and
/// stop times, or an error line that also carries the diagnostic
/// message.
pub open spec fn spec_speed_test_report(
    start: Seq<char>,
    stop: Seq<char>,
    message: Option<Seq<char>>,
) -> Seq<char> {
    match message {
        None => "run_speed_test OK from "@ + start + " to "@ + stop,
        Some(m) => "run_speed_test ERROR from "@ + start + " to "@ + stop + " message = '"@ + m
            + "'"@,
    }
}

/// Builds the log line of one speed-test run; `message` carries the
/// diagnostic of a failed or noisy run, and its presence makes the line
/// an error line (the flag).
pub fn speed_test_report(start: &str, stop: &str, message: &Option<String>) -> (r: (bool, String))
    ensures
        r.0 == (message is Some),
        r.1@ == spec_speed_test_report(
            start@,
            stop@,
            match *message {
                Some(m) => Some(m@),
                None => None,
            },
        ),
{
    match message {
        None => {
            let mut out = String::from_str("run_speed_test OK from ");
            out.append(start);
            out.append(" to ");
            out.append(stop);
            proof {
                assert(out@ =~= spec_speed_test_report(start@, stop@, None));
            }
            (false, out)
        },
        Some(m) => {
            let mut out = String::from_str("run_speed_test ERROR from ");
            out.append(start);
            out.append(" to ");
            out.append(stop);
            out.append(" message = '");
            out.append(m.as_str());
            out.append("'");
            proof {
                assert(out@ =~= spec_speed_test_report(start@, stop@, Some(m@)));
            }
            (true, out)
        },
    }
}

} // verus!
