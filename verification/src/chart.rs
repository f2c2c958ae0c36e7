//! The series builder: turns a filtered record list into chart datasets
//! (one point per record, with a per-metric default where a value is
//! missing) and a raw value list for the statistics engine (present
//! values only — defaults never reach the statistics).

use vstd::prelude::*;

use crate::numeric::{MAX_MILLI, MAX_SAMPLES};
use crate::record::ParsedEntry;
use crate::stats::{compute_statistics, stats_ok, MetricStatistics};

verus! {

/// One metric's chart configuration. `default_value` substitutes for a
/// missing value in the plotted series; `expected_value`, when set, adds
/// a flat two-point reference line.
#[derive(Debug, Clone)]
pub struct ChartConfig<T> {
    pub id: String,
    pub label: String,
    pub fill: bool,
    pub border_color: String,
    pub default_value: T,
    pub expected_value: Option<ExpectedConfig<T>>,
}

/// The reference-line configuration of a chart.
#[derive(Debug, Clone)]
pub struct ExpectedConfig<T> {
    pub label: String,
    pub fill: bool,
    pub border_color: String,
    pub value: T,
}

/// One plotted sample: a formatted-timestamp label and a value.
#[derive(Debug, Clone)]
pub struct Point<T> {
    pub x: String,
    pub y: T,
}

/// One plotted line: its label, points and styling.
#[derive(Debug, Clone)]
pub struct Dataset<T> {
    pub label: String,
    pub data: Vec<Point<T>>,
    pub fill: bool,
    pub border_color: String,
}

/// One metric's chart: its datasets and its statistics. `stats` is
/// `None` exactly when no measured value was present — the designed
/// no-data state.
#[derive(Debug, Clone)]
pub struct Chart<T> {
    pub datasets: Vec<Dataset<T>>,
    pub stats: Option<MetricStatistics>,
}

/// The divisor that renders bits per second as megabits per second.
pub const MEGABIT_DIVISOR: u64 = 1000000;

/// The dataset holding the measured points of a chart.
pub fn create_dataset<T: Copy>(config: &ChartConfig<T>, points: Vec<Point<T>>) -> (r: Dataset<
    T,
>)
    ensures
        r.label@ == config.label@,
        r.data@ == points@,
        r.fill == config.fill,
        r.border_color@ == config.border_color@,
{
    Dataset {
        label: config.label.clone(),
        data: points,
        fill: config.fill,
        border_color: config.border_color.clone(),
    }
}

/// The flat two-point reference dataset of a chart: the configured
/// target value at the first and last x of the measured points, or at
/// the empty-string x twice when there are no points.
pub fn create_dataset_expected<T: Copy>(config: &ExpectedConfig<T>, points: &Vec<Point<T>>) -> (r:
    Dataset<T>)
    ensures
        r.label@ == config.label@,
        r.fill == config.fill,
        r.border_color@ == config.border_color@,
        r.data@.len() == 2,
        r.data@[0].y == config.value,
        r.data@[1].y == config.value,
        points@.len() == 0 ==> r.data@[0].x@ == Seq::<char>::empty() && r.data@[1].x@
            == Seq::<char>::empty(),
        points@.len() > 0 ==> r.data@[0].x@ == points@[0].x@ && r.data@[1].x@
            == points@.last().x@,
{
    let first_x: String = if points.len() > 0 {
        points[0].x.clone()
    } else {
        String::new()
    };
    let last_x: String = if points.len() > 0 {
        points[points.len() - 1].x.clone()
    } else {
        String::new()
    };
    let mut data: Vec<Point<T>> = Vec::new();
    data.push(Point { x: first_x, y: config.value });
    data.push(Point { x: last_x, y: config.value });
    Dataset {
        label: config.label.clone(),
        data,
        fill: config.fill,
        border_color: config.border_color.clone(),
    }
}

/// All datasets of a chart: the measured dataset first, then the
/// reference dataset when one is configured.
pub fn create_datasets<T: Copy>(config: &ChartConfig<T>, points: Vec<Point<T>>) -> (r: Vec<
    Dataset<T>,
>)
    ensures
        r@.len() == if config.expected_value is Some {
            2int
        } else {
            1int
        },
        r@[0].label@ == config.label@,
        r@[0].data@ == points@,
        r@[0].fill == config.fill,
        r@[0].border_color@ == config.border_color@,
        config.expected_value matches Some(exp) ==> {
            &&& r@[1].label@ == exp.label@
            &&& r@[1].fill == exp.fill
            &&& r@[1].border_color@ == exp.border_color@
            &&& r@[1].data@.len() == 2
            &&& r@[1].data@[0].y == exp.value
            &&& r@[1].data@[1].y == exp.value
            &&& (points@.len() == 0 ==> r@[1].data@[0].x@ == Seq::<char>::empty()
                && r@[1].data@[1].x@ == Seq::<char>::empty())
            &&& (points@.len() > 0 ==> r@[1].data@[0].x@ == points@[0].x@ && r@[1].data@[1].x@
                == points@.last().x@)
        },
{
    let expected_ds: Option<Dataset<T>> = match &config.expected_value {
        Some(c) => Some(create_dataset_expected(c, &points)),
        None => None,
    };
    let ds = create_dataset(config, points);
    let mut r: Vec<Dataset<T>> = Vec::new();
    r.push(ds);
    match expected_ds {
        Some(e) => {
            r.push(e);
        },
        None => {},
    }
    r
}

/// Builds a chart from its datasets and the raw value list of present
/// measurements: the statistics are computed over exactly those values
/// (never over substituted defaults), under the metric's unit divisor,
/// and are absent exactly when no value was present.
pub fn create_chart<T: Copy>(dss: Vec<Dataset<T>>, values: &Vec<u64>, divisor: u64) -> (r: Chart<
    T,
>)
    requires
        values@.len() <= MAX_SAMPLES,
        forall|i: int| 0 <= i < values@.len() ==> values@[i] <= MAX_MILLI,
        divisor >= 1,
    ensures
        r.datasets@ == dss@,
        r.stats is None <==> values@.len() == 0,
        r.stats matches Some(st) ==> stats_ok(values@, divisor as int, st),
{
    let stats: Option<MetricStatistics> = match compute_statistics(values, divisor) {
        Ok(st) => Some(st),
        Err(_) => None,
    };
    Chart { datasets: dss, stats }
}

/// The plotted latency of a record: the measured latency, or the
/// default when the performance section is absent (latency itself is
/// never absent within a present section).
pub open spec fn latency_point_y(e: ParsedEntry, d: u32) -> u32 {
    match e.performance {
        Some(p) => p.latency,
        None => d,
    }
}

/// The plotted jitter of a record: the measured jitter, or the default
/// when the field or the whole performance section is absent.
pub open spec fn jitter_point_y(e: ParsedEntry, d: u32) -> u32 {
    match e.performance {
        Some(p) => match p.jitter {
            Some(j) => j,
            None => d,
        },
        None => d,
    }
}

/// The plotted download rate of a record (milli-bits per second).
pub open spec fn download_point_y(e: ParsedEntry, d: u64) -> u64 {
    match e.performance {
        Some(p) => match p.download {
            Some(x) => x,
            None => d,
        },
        None => d,
    }
}

/// The plotted upload rate of a record (milli-bits per second).
pub open spec fn upload_point_y(e: ParsedEntry, d: u64) -> u64 {
    match e.performance {
        Some(p) => match p.upload {
            Some(x) => x,
            None => d,
        },
        None => d,
    }
}

/// The measured latencies, in milli-milliseconds, of the records whose
/// performance section is present.
pub open spec fn latency_values(data: Seq<ParsedEntry>) -> Seq<u64> {
    data.filter_map(
        |e: ParsedEntry|
            match e.performance {
                Some(p) => Some(((p.latency as u64) * 1000) as u64),
                None => None,
            },
    )
}

/// The measured jitters, in milli-milliseconds, of the records where
/// the field is present.
pub open spec fn jitter_values(data: Seq<ParsedEntry>) -> Seq<u64> {
    data.filter_map(
        |e: ParsedEntry|
            match e.performance {
                Some(p) => match p.jitter {
                    Some(j) => Some(((j as u64) * 1000) as u64),
                    None => None,
                },
                None => None,
            },
    )
}

/// The measured download rates (milli-bits per second) where present.
pub open spec fn download_values(data: Seq<ParsedEntry>) -> Seq<u64> {
    data.filter_map(
        |e: ParsedEntry|
            match e.performance {
                Some(p) => p.download,
                None => None,
            },
    )
}

/// The measured upload rates (milli-bits per second) where present.
pub open spec fn upload_values(data: Seq<ParsedEntry>) -> Seq<u64> {
    data.filter_map(
        |e: ParsedEntry|
            match e.performance {
                Some(p) => p.upload,
                None => None,
            },
    )
}

/// What every chart builder promises about the measured dataset's
/// points: one point per record, in order, with the record's formatted
/// timestamp as x.
pub open spec fn points_match<T>(points: Seq<Point<T>>, data: Seq<ParsedEntry>) -> bool {
    &&& points.len() == data.len()
    &&& forall|i: int|
        0 <= i < data.len() ==> (#[trigger] points[i].x)@ == crate::date::spec_format_timestamp(
            data[i].timestamp,
        )
}

/// Rates parsed from records stay within the fixed-point range; chart
/// building asks the same of records built by hand.
pub open spec fn entry_rates_bounded(e: ParsedEntry) -> bool {
    match e.performance {
        Some(p) => {
            &&& (match p.download {
                Some(x) => x <= MAX_MILLI,
                None => true,
            })
            &&& (match p.upload {
                Some(x) => x <= MAX_MILLI,
                None => true,
            })
        },
        None => true,
    }
}

/// Everything a metric's chart promises: the measured dataset carries
/// one point per record (formatted timestamp, value-or-default `y_of`),
/// the optional reference dataset spans the series at the configured
/// value, and the statistics hold of exactly the present measurements
/// `values` under `divisor` — absent exactly when no value was present.
pub open spec fn chart_ok<T>(
    r: Chart<T>,
    config: ChartConfig<T>,
    data: Seq<ParsedEntry>,
    y_of: spec_fn(ParsedEntry, T) -> T,
    values: Seq<u64>,
    divisor: int,
) -> bool {
    &&& r.datasets@.len() == if config.expected_value is Some {
        2int
    } else {
        1int
    }
    &&& r.datasets@[0].label@ == config.label@
    &&& r.datasets@[0].fill == config.fill
    &&& r.datasets@[0].border_color@ == config.border_color@
    &&& points_match(r.datasets@[0].data@, data)
    &&& forall|i: int|
        0 <= i < data.len() ==> (#[trigger] r.datasets@[0].data@[i]).y == y_of(
            data[i],
            config.default_value,
        )
    &&& (config.expected_value matches Some(exp) ==> {
        &&& r.datasets@[1].label@ == exp.label@
        &&& r.datasets@[1].fill == exp.fill
        &&& r.datasets@[1].border_color@ == exp.border_color@
        &&& r.datasets@[1].data@.len() == 2
        &&& r.datasets@[1].data@[0].y == exp.value
        &&& r.datasets@[1].data@[1].y == exp.value
        &&& (data.len() == 0 ==> r.datasets@[1].data@[0].x@ == Seq::<char>::empty()
            && r.datasets@[1].data@[1].x@ == Seq::<char>::empty())
        &&& (data.len() > 0 ==> r.datasets@[1].data@[0].x@
            == crate::date::spec_format_timestamp(data[0].timestamp)
            && r.datasets@[1].data@[1].x@ == crate::date::spec_format_timestamp(
            data[data.len() - 1].timestamp,
        ))
    })
    &&& (r.stats is None <==> values.len() == 0)
    &&& (r.stats matches Some(st) ==> stats_ok(values, divisor, st))
}

/// Prepares the latency chart: every record contributes a point (the
/// default substitutes only when the whole performance section is
/// missing), and the statistics cover exactly the measured latencies,
/// in milliseconds (divisor 1).
pub fn create_latency_chart(data: &Vec<ParsedEntry>, config: &ChartConfig<u32>) -> (r: Chart<
    u32,
>)
    requires
        data@.len() <= MAX_SAMPLES,
    ensures
        chart_ok(
            r,
            *config,
            data@,
            (|e: ParsedEntry, d: u32| latency_point_y(e, d)),
            latency_values(data@),
            1,
        ),
{
    let ghost f = |e: ParsedEntry|
        match e.performance {
            Some(p) => Some(((p.latency as u64) * 1000) as u64),
            None => None,
        };
    let mut points: Vec<Point<u32>> = Vec::new();
    let mut values: Vec<u64> = Vec::new();
    let mut i: usize = 0;
    while i < data.len()
        invariant
            i <= data@.len() <= MAX_SAMPLES,
            f == (|e: ParsedEntry|
            match e.performance {
                Some(p) => Some(((p.latency as u64) * 1000) as u64),
                None => None,
            }),
            points@.len() == i,
            forall|k: int|
                0 <= k < i ==> (#[trigger] points@[k]).x@ == crate::date::spec_format_timestamp(
                    data@[k].timestamp,
                ),
            forall|k: int|
                0 <= k < i ==> (#[trigger] points@[k]).y == latency_point_y(
                    data@[k],
                    config.default_value,
                ),
            values@ == data@.take(i as int).filter_map(f),
            values@.len() <= i,
            forall|k: int| 0 <= k < values@.len() ==> #[trigger] values@[k] <= MAX_MILLI,
        decreases data@.len() - i,
    {
        let e = &data[i];
        let x = crate::date::format_timestamp(&e.timestamp);
        let y: u32 = match &e.performance {
            Some(p) => p.latency,
            None => config.default_value,
        };
        points.push(Point { x, y });
        match &e.performance {
            Some(p) => {
                values.push((p.latency as u64) * 1000);
            },
            None => {},
        }
        proof {
            data@.lemma_filter_map_take_succ(f, i as int);
        }
        i = i + 1;
    }
    proof {
        assert(data@.take(data@.len() as int) =~= data@);
    }
    let dss = create_datasets(config, points);
    create_chart(dss, &values, 1)
}

/// Prepares the jitter chart: the default substitutes whenever the
/// jitter field or the whole performance section is missing; the
/// statistics cover exactly the measured jitters, in milliseconds.
pub fn create_jitter_chart(data: &Vec<ParsedEntry>, config: &ChartConfig<u32>) -> (r: Chart<u32>)
    requires
        data@.len() <= MAX_SAMPLES,
    ensures
        chart_ok(
            r,
            *config,
            data@,
            (|e: ParsedEntry, d: u32| jitter_point_y(e, d)),
            jitter_values(data@),
            1,
        ),
{
    let ghost f = |e: ParsedEntry|
        match e.performance {
            Some(p) => match p.jitter {
                Some(j) => Some(((j as u64) * 1000) as u64),
                None => None,
            },
            None => None,
        };
    let mut points: Vec<Point<u32>> = Vec::new();
    let mut values: Vec<u64> = Vec::new();
    let mut i: usize = 0;
    while i < data.len()
        invariant
            i <= data@.len() <= MAX_SAMPLES,
            f == (|e: ParsedEntry|
            match e.performance {
                Some(p) => match p.jitter {
                    Some(j) => Some(((j as u64) * 1000) as u64),
                    None => None,
                },
                None => None,
            }),
            points@.len() == i,
            forall|k: int|
                0 <= k < i ==> (#[trigger] points@[k]).x@ == crate::date::spec_format_timestamp(
                    data@[k].timestamp,
                ),
            forall|k: int|
                0 <= k < i ==> (#[trigger] points@[k]).y == jitter_point_y(
                    data@[k],
                    config.default_value,
                ),
            values@ == data@.take(i as int).filter_map(f),
            values@.len() <= i,
            forall|k: int| 0 <= k < values@.len() ==> #[trigger] values@[k] <= MAX_MILLI,
        decreases data@.len() - i,
    {
        let e = &data[i];
        let x = crate::date::format_timestamp(&e.timestamp);
        let y: u32 = match &e.performance {
            Some(p) => match p.jitter {
                Some(j) => j,
                None => config.default_value,
            },
            None => config.default_value,
        };
        points.push(Point { x, y });
        match &e.performance {
            Some(p) => match p.jitter {
                Some(j) => {
                    values.push((j as u64) * 1000);
                },
                None => {},
            },
            None => {},
        }
        proof {
            data@.lemma_filter_map_take_succ(f, i as int);
        }
        i = i + 1;
    }
    proof {
        assert(data@.take(data@.len() as int) =~= data@);
    }
    let dss = create_datasets(config, points);
    create_chart(dss, &values, 1)
}

/// Prepares the download chart: rates are milli-bits per second; the
/// statistics cover exactly the measured rates, divided down to
/// megabits per second.
pub fn create_download_chart(data: &Vec<ParsedEntry>, config: &ChartConfig<u64>) -> (r: Chart<
    u64,
>)
    requires
        data@.len() <= MAX_SAMPLES,
        forall|i: int| 0 <= i < data@.len() ==> entry_rates_bounded(#[trigger] data@[i]),
    ensures
        chart_ok(
            r,
            *config,
            data@,
            (|e: ParsedEntry, d: u64| download_point_y(e, d)),
            download_values(data@),
            MEGABIT_DIVISOR as int,
        ),
{
    let ghost f = |e: ParsedEntry|
        match e.performance {
            Some(p) => p.download,
            None => None,
        };
    let mut points: Vec<Point<u64>> = Vec::new();
    let mut values: Vec<u64> = Vec::new();
    let mut i: usize = 0;
    while i < data.len()
        invariant
            i <= data@.len() <= MAX_SAMPLES,
            forall|k: int| 0 <= k < data@.len() ==> entry_rates_bounded(#[trigger] data@[k]),
            f == (|e: ParsedEntry|
            match e.performance {
                Some(p) => p.download,
                None => None,
            }),
            points@.len() == i,
            forall|k: int|
                0 <= k < i ==> (#[trigger] points@[k]).x@ == crate::date::spec_format_timestamp(
                    data@[k].timestamp,
                ),
            forall|k: int|
                0 <= k < i ==> (#[trigger] points@[k]).y == download_point_y(
                    data@[k],
                    config.default_value,
                ),
            values@ == data@.take(i as int).filter_map(f),
            values@.len() <= i,
            forall|k: int| 0 <= k < values@.len() ==> #[trigger] values@[k] <= MAX_MILLI,
        decreases data@.len() - i,
    {
        let e = &data[i];
        let x = crate::date::format_timestamp(&e.timestamp);
        let y: u64 = match &e.performance {
            Some(p) => match p.download {
                Some(v) => v,
                None => config.default_value,
            },
            None => config.default_value,
        };
        points.push(Point { x, y });
        match &e.performance {
            Some(p) => match p.download {
                Some(v) => {
                    values.push(v);
                },
                None => {},
            },
            None => {},
        }
        proof {
            data@.lemma_filter_map_take_succ(f, i as int);
        }
        i = i + 1;
    }
    proof {
        assert(data@.take(data@.len() as int) =~= data@);
    }
    let dss = create_datasets(config, points);
    create_chart(dss, &values, MEGABIT_DIVISOR)
}

/// Prepares the upload chart, the way the download chart is prepared.
pub fn create_upload_chart(data: &Vec<ParsedEntry>, config: &ChartConfig<u64>) -> (r: Chart<u64>)
    requires
        data@.len() <= MAX_SAMPLES,
        forall|i: int| 0 <= i < data@.len() ==> entry_rates_bounded(#[trigger] data@[i]),
    ensures
        chart_ok(
            r,
            *config,
            data@,
            (|e: ParsedEntry, d: u64| upload_point_y(e, d)),
            upload_values(data@),
            MEGABIT_DIVISOR as int,
        ),
{
    let ghost f = |e: ParsedEntry|
        match e.performance {
            Some(p) => p.upload,
            None => None,
        };
    let mut points: Vec<Point<u64>> = Vec::new();
    let mut values: Vec<u64> = Vec::new();
    let mut i: usize = 0;
    while i < data.len()
        invariant
            i <= data@.len() <= MAX_SAMPLES,
            forall|k: int| 0 <= k < data@.len() ==> entry_rates_bounded(#[trigger] data@[k]),
            f == (|e: ParsedEntry|
            match e.performance {
                Some(p) => p.upload,
                None => None,
            }),
            points@.len() == i,
            forall|k: int|
                0 <= k < i ==> (#[trigger] points@[k]).x@ == crate::date::spec_format_timestamp(
                    data@[k].timestamp,
                ),
            forall|k: int|
                0 <= k < i ==> (#[trigger] points@[k]).y == upload_point_y(
                    data@[k],
                    config.default_value,
                ),
            values@ == data@.take(i as int).filter_map(f),
            values@.len() <= i,
            forall|k: int| 0 <= k < values@.len() ==> #[trigger] values@[k] <= MAX_MILLI,
        decreases data@.len() - i,
    {
        let e = &data[i];
        let x = crate::date::format_timestamp(&e.timestamp);
        let y: u64 = match &e.performance {
            Some(p) => match p.upload {
                Some(v) => v,
                None => config.default_value,
            },
            None => config.default_value,
        };
        points.push(Point { x, y });
        match &e.performance {
            Some(p) => match p.upload {
                Some(v) => {
                    values.push(v);
                },
                None => {},
            },
            None => {},
        }
        proof {
            data@.lemma_filter_map_take_succ(f, i as int);
        }
        i = i + 1;
    }
    proof {
        assert(data@.take(data@.len() as int) =~= data@);
    }
    let dss = create_datasets(config, points);
    create_chart(dss, &values, MEGABIT_DIVISOR)
}

} // verus!
