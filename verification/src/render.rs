//! Report fragments: the chart datasets as JSON text, the statistics
//! tables, the raw-data table, and the per-line placeholder substitution
//! that fills an HTML template. Every produced string is pinned by a
//! spec-level construction.

use vstd::prelude::*;

use crate::chart::{Chart, ChartConfig, Dataset, Point};
use crate::date::spec_format_timestamp;
use crate::numeric::{format_milli, format_milli_json, spec_format_milli, spec_format_milli_json};
use crate::record::{Client, ParsedEntry, Performance, Server};
use crate::stats::MetricStatistics;
use crate::text::{dec_digits, digit_char, push_u64};

verus! {

/// The lower-case hexadecimal digit of a value below 16.
pub open spec fn hex_char(d: int) -> char {
    if d < 10 {
        digit_char(d)
    } else if d == 10 {
        'a'
    } else if d == 11 {
        'b'
    } else if d == 12 {
        'c'
    } else if d == 13 {
        'd'
    } else if d == 14 {
        'e'
    } else {
        'f'
    }
}

/// The JSON escape of one character: quotes and backslashes escaped,
/// the short escapes for the usual control characters, `\u00XX` for the
/// other control characters, and everything else verbatim.
pub open spec fn esc_char(c: char) -> Seq<char> {
    if c == '"' {
        seq!['\\', '"']
    } else if c == '\\' {
        seq!['\\', '\\']
    } else if c == '\u{8}' {
        seq!['\\', 'b']
    } else if c == '\u{c}' {
        seq!['\\', 'f']
    } else if c == '\n' {
        seq!['\\', 'n']
    } else if c == '\r' {
        seq!['\\', 'r']
    } else if c == '\t' {
        seq!['\\', 't']
    } else if (c as u32) < 32 {
        seq!['\\', 'u', '0', '0', hex_char(c as u32 as int / 16), hex_char(c as u32 as int % 16)]
    } else {
        seq![c]
    }
}

/// A character sequence with every character JSON-escaped.
pub open spec fn json_escaped(s: Seq<char>) -> Seq<char>
    decreases s.len(),
{
    if s.len() == 0 {
        Seq::empty()
    } else {
        json_escaped(s.drop_last()) + esc_char(s.last())
    }
}

/// Appends the JSON escape of `s` to `out`.
pub fn push_json_escaped(out: &mut String, s: &String)
    ensures
        final(out)@ == old(out)@ + json_escaped(s@),
{
    let n = s.as_str().unicode_len();
    let mut i: usize = 0;
    proof {
        assert(s@.take(0) =~= Seq::<char>::empty());
        assert(json_escaped(s@.take(0)) =~= Seq::<char>::empty());
        assert(old(out)@ + Seq::<char>::empty() =~= old(out)@);
    }
    while i < n
        invariant
            i <= n == s@.len(),
            out@ == old(out)@ + json_escaped(s@.take(i as int)),
        decreases n - i,
    {
        let c = s.as_str().get_char(i);
        if c == '"' {
            out.append("\\\"");
        } else if c == '\\' {
            out.append("\\\\");
        } else if c == '\u{8}' {
            out.append("\\b");
        } else if c == '\u{c}' {
            out.append("\\f");
        } else if c == '\n' {
            out.append("\\n");
        } else if c == '\r' {
            out.append("\\r");
        } else if c == '\t' {
            out.append("\\t");
        } else if (c as u32) < 32 {
            out.append("\\u00");
            let hi: u32 = (c as u32) / 16;
            let lo: u32 = (c as u32) % 16;
            push_hex(out, hi);
            push_hex(out, lo);
        } else {
            push_char(out, c);
        }
        proof {
            reveal_strlit("\\\"");
            reveal_strlit("\\\\");
            reveal_strlit("\\b");
            reveal_strlit("\\f");
            reveal_strlit("\\n");
            reveal_strlit("\\r");
            reveal_strlit("\\t");
            reveal_strlit("\\u00");
            assert(s@.take(i as int + 1).drop_last() =~= s@.take(i as int));
            assert(s@.take(i as int + 1).last() == s@[i as int]);
            assert(out@ =~= old(out)@ + json_escaped(s@.take(i as int + 1)));
        }
        i = i + 1;
    }
    proof {
        assert(s@.take(n as int) =~= s@);
    }
}

/// Appends one lower-case hexadecimal digit.
fn push_hex(out: &mut String, d: u32)
    requires
        d < 16,
    ensures
        final(out)@ == old(out)@ + seq![hex_char(d as int)],
{
    proof {
        reveal_strlit("a");
        reveal_strlit("b");
        reveal_strlit("c");
        reveal_strlit("d");
        reveal_strlit("e");
        reveal_strlit("f");
    }
    if d < 10 {
        crate::text::push_digit(out, d as u64);
    } else if d == 10 {
        out.append("a");
    } else if d == 11 {
        out.append("b");
    } else if d == 12 {
        out.append("c");
    } else if d == 13 {
        out.append("d");
    } else if d == 14 {
        out.append("e");
    } else {
        out.append("f");
    }
    proof {
        assert(final(out)@ =~= old(out)@ + seq![hex_char(d as int)]);
    }
}

/// Relies on `String::push`: it appends exactly the one character.
#[verifier::external_body]
fn push_char(out: &mut String, c: char)
    ensures
        final(out)@ == old(out)@ + seq![c],
{
    out.push(c);
}

/// `true` or `false`.
pub open spec fn bool_chars(b: bool) -> Seq<char> {
    if b {
        "true"@
    } else {
        "false"@
    }
}

fn push_bool(out: &mut String, b: bool)
    ensures
        final(out)@ == old(out)@ + bool_chars(b),
{
    if b {
        out.append("true");
    } else {
        out.append("false");
    }
}

// ---------------------------------------------------------------------
// datasets as JSON

/// One point as JSON, with an integer y value.
pub open spec fn point_json_u32(p: Point<u32>) -> Seq<char> {
    "{\"x\":\""@ + json_escaped(p.x@) + "\",\"y\":"@ + dec_digits(p.y as int) + "}"@
}

/// One point as JSON, with a milli-unit y value written as a decimal
/// number.
pub open spec fn point_json_milli(p: Point<u64>) -> Seq<char> {
    "{\"x\":\""@ + json_escaped(p.x@) + "\",\"y\":"@ + spec_format_milli_json(p.y as int) + "}"@
}

/// The remaining points, each preceded by a comma.
pub open spec fn comma_points_u32(ps: Seq<Point<u32>>, i: int) -> Seq<char>
    decreases ps.len() - i,
{
    if i < 0 || i >= ps.len() {
        Seq::empty()
    } else {
        ","@ + point_json_u32(ps[i]) + comma_points_u32(ps, i + 1)
    }
}

pub open spec fn comma_points_milli(ps: Seq<Point<u64>>, i: int) -> Seq<char>
    decreases ps.len() - i,
{
    if i < 0 || i >= ps.len() {
        Seq::empty()
    } else {
        ","@ + point_json_milli(ps[i]) + comma_points_milli(ps, i + 1)
    }
}

/// A point list as a JSON array body.
pub open spec fn points_json_u32(ps: Seq<Point<u32>>) -> Seq<char> {
    if ps.len() == 0 {
        Seq::empty()
    } else {
        point_json_u32(ps[0]) + comma_points_u32(ps, 1)
    }
}

pub open spec fn points_json_milli(ps: Seq<Point<u64>>) -> Seq<char> {
    if ps.len() == 0 {
        Seq::empty()
    } else {
        point_json_milli(ps[0]) + comma_points_milli(ps, 1)
    }
}

/// One dataset as a JSON object, fields in the fixed order the renderer
/// expects: label, data, fill, borderColor.
pub open spec fn dataset_json_u32(ds: Dataset<u32>) -> Seq<char> {
    "{\"label\":\""@ + json_escaped(ds.label@) + "\",\"data\":["@ + points_json_u32(ds.data@)
        + "],\"fill\":"@ + bool_chars(ds.fill) + ",\"borderColor\":\""@ + json_escaped(
        ds.border_color@,
    ) + "\"}"@
}

pub open spec fn dataset_json_milli(ds: Dataset<u64>) -> Seq<char> {
    "{\"label\":\""@ + json_escaped(ds.label@) + "\",\"data\":["@ + points_json_milli(ds.data@)
        + "],\"fill\":"@ + bool_chars(ds.fill) + ",\"borderColor\":\""@ + json_escaped(
        ds.border_color@,
    ) + "\"}"@
}

/// The remaining datasets, each preceded by a comma.
pub open spec fn comma_datasets_u32(dss: Seq<Dataset<u32>>, i: int) -> Seq<char>
    decreases dss.len() - i,
{
    if i < 0 || i >= dss.len() {
        Seq::empty()
    } else {
        ","@ + dataset_json_u32(dss[i]) + comma_datasets_u32(dss, i + 1)
    }
}

pub open spec fn comma_datasets_milli(dss: Seq<Dataset<u64>>, i: int) -> Seq<char>
    decreases dss.len() - i,
{
    if i < 0 || i >= dss.len() {
        Seq::empty()
    } else {
        ","@ + dataset_json_milli(dss[i]) + comma_datasets_milli(dss, i + 1)
    }
}

/// Two dataset lists as one JSON array (the way a response-times chart
/// joins its latency and jitter lines).
pub open spec fn datasets_json_u32(dss: Seq<Dataset<u32>>) -> Seq<char> {
    if dss.len() == 0 {
        "[]"@
    } else {
        "["@ + dataset_json_u32(dss[0]) + comma_datasets_u32(dss, 1) + "]"@
    }
}

pub open spec fn datasets_json_milli(dss: Seq<Dataset<u64>>) -> Seq<char> {
    if dss.len() == 0 {
        "[]"@
    } else {
        "["@ + dataset_json_milli(dss[0]) + comma_datasets_milli(dss, 1) + "]"@
    }
}

/// Appends one dataset with integer y values as JSON.
#[verifier::rlimit(60)]
fn push_dataset_u32(out: &mut String, ds: &Dataset<u32>)
    ensures
        final(out)@ == old(out)@ + dataset_json_u32(*ds),
{
    out.append("{\"label\":\"");
    push_json_escaped(out, &ds.label);
    out.append("\",\"data\":[");
    let ghost mid = old(out)@ + "{\"label\":\""@ + json_escaped(ds.label@) + "\",\"data\":["@;
    proof {
        assert(out@ =~= mid);
    }
    let n = ds.data.len();
    let mut i: usize = 0;
    while i < n
        invariant
            i <= n == ds.data@.len(),
            i == 0 ==> out@ == mid,
            i >= 1 ==> out@ + comma_points_u32(ds.data@, i as int) == mid + points_json_u32(
                ds.data@,
            ),
        decreases n - i,
    {
        let ghost pre = out@;
        if i > 0 {
            out.append(",");
        }
        out.append("{\"x\":\"");
        push_json_escaped(out, &ds.data[i].x);
        out.append("\",\"y\":");
        push_u64(out, ds.data[i].y as u64);
        out.append("}");
        proof {
            if i == 0 {
                assert(out@ =~= mid + point_json_u32(ds.data@[0]));
                if n == 1 {
                    assert(comma_points_u32(ds.data@, 1) =~= Seq::<char>::empty());
                }
                assert(out@ + comma_points_u32(ds.data@, 1) =~= mid + points_json_u32(ds.data@));
            } else {
                assert(out@ =~= pre + ","@ + point_json_u32(ds.data@[i as int]));
                assert(out@ + comma_points_u32(ds.data@, i as int + 1) =~= mid + points_json_u32(
                    ds.data@,
                ));
            }
        }
        i = i + 1;
    }
    proof {
        if n == 0 {
            assert(out@ =~= mid + points_json_u32(ds.data@));
        } else {
            assert(comma_points_u32(ds.data@, n as int) =~= Seq::<char>::empty());
            assert(out@ =~= mid + points_json_u32(ds.data@));
        }
    }
    out.append("],\"fill\":");
    push_bool(out, ds.fill);
    out.append(",\"borderColor\":\"");
    push_json_escaped(out, &ds.border_color);
    out.append("\"}");
    proof {
        assert(final(out)@ =~= old(out)@ + dataset_json_u32(*ds));
    }
}

/// Appends one dataset with milli-unit y values as JSON.
#[verifier::rlimit(60)]
fn push_dataset_milli(out: &mut String, ds: &Dataset<u64>)
    ensures
        final(out)@ == old(out)@ + dataset_json_milli(*ds),
{
    out.append("{\"label\":\"");
    push_json_escaped(out, &ds.label);
    out.append("\",\"data\":[");
    let ghost mid = old(out)@ + "{\"label\":\""@ + json_escaped(ds.label@) + "\",\"data\":["@;
    proof {
        assert(out@ =~= mid);
    }
    let n = ds.data.len();
    let mut i: usize = 0;
    while i < n
        invariant
            i <= n == ds.data@.len(),
            i == 0 ==> out@ == mid,
            i >= 1 ==> out@ + comma_points_milli(ds.data@, i as int) == mid + points_json_milli(
                ds.data@,
            ),
        decreases n - i,
    {
        let ghost pre = out@;
        if i > 0 {
            out.append(",");
        }
        out.append("{\"x\":\"");
        push_json_escaped(out, &ds.data[i].x);
        out.append("\",\"y\":");
        let y = format_milli_json(ds.data[i].y);
        out.append(y.as_str());
        out.append("}");
        proof {
            if i == 0 {
                assert(out@ =~= mid + point_json_milli(ds.data@[0]));
                if n == 1 {
                    assert(comma_points_milli(ds.data@, 1) =~= Seq::<char>::empty());
                }
                assert(out@ + comma_points_milli(ds.data@, 1) =~= mid + points_json_milli(
                    ds.data@,
                ));
            } else {
                assert(out@ =~= pre + ","@ + point_json_milli(ds.data@[i as int]));
                assert(out@ + comma_points_milli(ds.data@, i as int + 1) =~= mid
                    + points_json_milli(ds.data@));
            }
        }
        i = i + 1;
    }
    proof {
        if n == 0 {
            assert(out@ =~= mid + points_json_milli(ds.data@));
        } else {
            assert(comma_points_milli(ds.data@, n as int) =~= Seq::<char>::empty());
            assert(out@ =~= mid + points_json_milli(ds.data@));
        }
    }
    out.append("],\"fill\":");
    push_bool(out, ds.fill);
    out.append(",\"borderColor\":\"");
    push_json_escaped(out, &ds.border_color);
    out.append("\"}");
    proof {
        assert(final(out)@ =~= old(out)@ + dataset_json_milli(*ds));
    }
}

/// Serializes two joined dataset lists (integer y) as one JSON array.
pub fn datasets_to_json_u32(a: &Vec<Dataset<u32>>, b: &Vec<Dataset<u32>>) -> (r: String)
    requires
        a@.len() + b@.len() <= usize::MAX,
    ensures
        r@ == datasets_json_u32(a@ + b@),
{
    let ghost dss = a@ + b@;
    let mut out = String::new();
    out.append("[");
    let n = a.len() + b.len();
    proof {
        assert(dss.len() == n);
    }
    let mut i: usize = 0;
    while i < n
        invariant
            i <= n == dss.len(),
            dss == a@ + b@,
            n == a@.len() + b@.len(),
            i == 0 ==> out@ == "["@,
            i >= 1 ==> out@ + comma_datasets_u32(dss, i as int) == "["@ + dataset_json_u32(dss[0])
                + comma_datasets_u32(dss, 1),
        decreases n - i,
    {
        let ghost pre = out@;
        if i > 0 {
            out.append(",");
        }
        let ds: &Dataset<u32> = if i < a.len() {
            &a[i]
        } else {
            &b[i - a.len()]
        };
        proof {
            assert(dss[i as int] == *ds);
        }
        push_dataset_u32(&mut out, ds);
        proof {
            if i == 0 {
                assert(out@ =~= "["@ + dataset_json_u32(dss[0]));
            } else {
                assert(out@ =~= pre + ","@ + dataset_json_u32(dss[i as int]));
                assert(out@ + comma_datasets_u32(dss, i as int + 1) =~= "["@ + dataset_json_u32(
                    dss[0],
                ) + comma_datasets_u32(dss, 1));
            }
        }
        i = i + 1;
    }
    out.append("]");
    proof {
        reveal_strlit("[");
        reveal_strlit("]");
        reveal_strlit("[]");
        if n == 0 {
            assert(out@ =~= datasets_json_u32(dss));
        } else {
            assert(comma_datasets_u32(dss, n as int) =~= Seq::<char>::empty());
            assert(out@ =~= datasets_json_u32(dss));
        }
    }
    out
}

/// Serializes two joined dataset lists (milli-unit y) as one JSON
/// array.
pub fn datasets_to_json_milli(a: &Vec<Dataset<u64>>, b: &Vec<Dataset<u64>>) -> (r: String)
    requires
        a@.len() + b@.len() <= usize::MAX,
    ensures
        r@ == datasets_json_milli(a@ + b@),
{
    let ghost dss = a@ + b@;
    let mut out = String::new();
    out.append("[");
    let n = a.len() + b.len();
    proof {
        assert(dss.len() == n);
    }
    let mut i: usize = 0;
    while i < n
        invariant
            i <= n == dss.len(),
            dss == a@ + b@,
            n == a@.len() + b@.len(),
            i == 0 ==> out@ == "["@,
            i >= 1 ==> out@ + comma_datasets_milli(dss, i as int) == "["@ + dataset_json_milli(
                dss[0],
            ) + comma_datasets_milli(dss, 1),
        decreases n - i,
    {
        let ghost pre = out@;
        if i > 0 {
            out.append(",");
        }
        let ds: &Dataset<u64> = if i < a.len() {
            &a[i]
        } else {
            &b[i - a.len()]
        };
        proof {
            assert(dss[i as int] == *ds);
        }
        push_dataset_milli(&mut out, ds);
        proof {
            if i == 0 {
                assert(out@ =~= "["@ + dataset_json_milli(dss[0]));
            } else {
                assert(out@ =~= pre + ","@ + dataset_json_milli(dss[i as int]));
                assert(out@ + comma_datasets_milli(dss, i as int + 1) =~= "["@
                    + dataset_json_milli(dss[0]) + comma_datasets_milli(dss, 1));
            }
        }
        i = i + 1;
    }
    out.append("]");
    proof {
        reveal_strlit("[");
        reveal_strlit("]");
        reveal_strlit("[]");
        if n == 0 {
            assert(out@ =~= datasets_json_milli(dss));
        } else {
            assert(comma_datasets_milli(dss, n as int) =~= Seq::<char>::empty());
            assert(out@ =~= datasets_json_milli(dss));
        }
    }
    out
}

// ---------------------------------------------------------------------
// statistics tables

/// A statistic cell: the formatted milli-unit value, or a no-data
/// marker when the metric had no measured values.
pub open spec fn stat_chars(v: Option<int>) -> Seq<char> {
    match v {
        Some(x) => spec_format_milli(x),
        None => "no data"@,
    }
}

/// One metric's statistics table.
pub open spec fn spec_statistic_table(
    id: Seq<char>,
    label: Seq<char>,
    stats: Option<MetricStatistics>,
) -> Seq<char> {
    let med = stat_chars(match stats {
        Some(st) => Some(st.median as int),
        None => None,
    });
    let avg = stat_chars(match stats {
        Some(st) => Some(st.average as int),
        None => None,
    });
    let std = stat_chars(match stats {
        Some(st) => Some(st.standard_deviation as int),
        None => None,
    });
    "<table id=\"statistic_"@ + id + "\">\n<tr>\n<th colspan=\"3\">"@ + label
        + "</th>\n</tr>\n<tr>\n<th>median</th>\n<th>average</th>\n<th>standard-deviation</th>\n</tr>\n<tr>\n<td>"@
        + med + "</td>\n<td>"@ + avg + "</td>\n<td>"@ + std + "</td>\n</tr>\n</table>\n"@
}

fn push_stat(out: &mut String, stats: &Option<MetricStatistics>, which: u8)
    requires
        which < 3,
    ensures
        final(out)@ == old(out)@ + stat_chars(
            match *stats {
                Some(st) => Some(
                    if which == 0 {
                        st.median as int
                    } else if which == 1 {
                        st.average as int
                    } else {
                        st.standard_deviation as int
                    },
                ),
                None => None,
            },
        ),
{
    match stats {
        Some(st) => {
            let v: u64 = if which == 0 {
                st.median
            } else if which == 1 {
                st.average
            } else {
                st.standard_deviation
            };
            let f = format_milli(v);
            out.append(f.as_str());
        },
        None => {
            out.append("no data");
        },
    }
}

/// Renders one metric's statistics table: its id, its label, then
/// median, average and standard deviation — or no-data cells.
pub fn create_statistic_table<T>(id: &str, chart_config: &ChartConfig<T>, chart: &Chart<T>) -> (r:
    String)
    ensures
        r@ == spec_statistic_table(id@, chart_config.label@, chart.stats),
{
    let mut out = String::new();
    out.append("<table id=\"statistic_");
    out.append(id);
    out.append("\">\n<tr>\n<th colspan=\"3\">");
    out.append(chart_config.label.as_str());
    out.append(
        "</th>\n</tr>\n<tr>\n<th>median</th>\n<th>average</th>\n<th>standard-deviation</th>\n</tr>\n<tr>\n<td>",
    );
    push_stat(&mut out, &chart.stats, 0);
    out.append("</td>\n<td>");
    push_stat(&mut out, &chart.stats, 1);
    out.append("</td>\n<td>");
    push_stat(&mut out, &chart.stats, 2);
    out.append("</td>\n</tr>\n</table>\n");
    proof {
        assert(out@ =~= spec_statistic_table(id@, chart_config.label@, chart.stats));
    }
    out
}

/// The combined statistics table that the report embeds: the four
/// per-metric tables in a two-by-two arrangement.
pub open spec fn spec_statistics_table(
    lat: Seq<char>,
    jit: Seq<char>,
    dwn: Seq<char>,
    upl: Seq<char>,
) -> Seq<char> {
    "<table id=\"statistic\">\n<tr>\n<th>"@ + lat + "</th>\n<th>"@ + jit
        + "</th>\n</tr>\n<tr>\n<td>"@ + dwn + "</td>\n<td>"@ + upl + "</td>\n</tr>\n</table>\n"@
}

/// Joins the four per-metric statistics tables into the one table the
/// report embeds.
pub fn create_statistics_table(
    stat_lat: String,
    stat_jit: String,
    stat_dwn: String,
    stat_upl: String,
) -> (r: String)
    ensures
        r@ == spec_statistics_table(stat_lat@, stat_jit@, stat_dwn@, stat_upl@),
{
    let mut out = String::new();
    out.append("<table id=\"statistic\">\n<tr>\n<th>");
    out.append(stat_lat.as_str());
    out.append("</th>\n<th>");
    out.append(stat_jit.as_str());
    out.append("</th>\n</tr>\n<tr>\n<td>");
    out.append(stat_dwn.as_str());
    out.append("</td>\n<td>");
    out.append(stat_upl.as_str());
    out.append("</td>\n</tr>\n</table>\n");
    proof {
        assert(out@ =~= spec_statistics_table(stat_lat@, stat_jit@, stat_dwn@, stat_upl@));
    }
    out
}

// ---------------------------------------------------------------------
// raw-data table

pub open spec fn opt_str_chars(o: Option<String>) -> Seq<char> {
    match o {
        Some(s) => s@,
        None => Seq::empty(),
    }
}

pub open spec fn opt_u32_chars(o: Option<u32>) -> Seq<char> {
    match o {
        Some(v) => dec_digits(v as int),
        None => Seq::empty(),
    }
}

pub open spec fn opt_milli_chars(o: Option<u64>) -> Seq<char> {
    match o {
        Some(v) => spec_format_milli(v as int),
        None => Seq::empty(),
    }
}

/// The client cells of a raw-data row; an absent section spans its
/// columns with one empty cell.
pub open spec fn client_cells(c: Option<Client>) -> Seq<char> {
    match c {
        Some(cl) => "<td class=\"client\">"@ + opt_str_chars(cl.wlan) + "</td><td class=\"client\">"@
            + cl.ip@ + "</td><td class=\"client\">"@ + cl.lat@ + "</td><td class=\"client\">"@
            + cl.lon@ + "</td><td class=\"client\">"@ + cl.isp@ + "</td>"@,
        None => "<td colspan=\"5\" class=\"client\"></td>"@,
    }
}

pub open spec fn server_cells(s: Option<Server>) -> Seq<char> {
    match s {
        Some(sv) => "<td class=\"server\">"@ + sv.name@ + "</td><td class=\"server\">"@
            + sv.sponsor@ + "</td><td class=\"server\">"@ + sv.distance@
            + "</td><td class=\"server\">"@ + sv.host@ + "</td>"@,
        None => "<td colspan=\"4\" class=\"server\"></td>"@,
    }
}

pub open spec fn performance_cells(p: Option<Performance>) -> Seq<char> {
    match p {
        Some(pf) => "<td class=\"performance\">"@ + dec_digits(pf.latency as int)
            + "</td><td class=\"performance\">"@ + opt_u32_chars(pf.jitter)
            + "</td><td class=\"performance\">"@ + opt_str_chars(pf.download_config)
            + "</td><td class=\"performance\">"@ + opt_str_chars(pf.upload_config)
            + "</td><td class=\"performance\">"@ + opt_milli_chars(pf.download)
            + "</td><td class=\"performance\">"@ + opt_milli_chars(pf.upload) + "</td>"@,
        None => "<td colspan=\"6\" class=\"performance\"></td>"@,
    }
}

/// One raw-data row: the timestamp, then the three sections' cells.
pub open spec fn raw_row(e: ParsedEntry) -> Seq<char> {
    "<tr><td class=\"ts\">"@ + spec_format_timestamp(e.timestamp) + "</td>"@ + client_cells(
        e.client,
    ) + server_cells(e.server) + performance_cells(e.performance) + "</tr>\n"@
}

pub open spec fn raw_rows(data: Seq<ParsedEntry>, i: int) -> Seq<char>
    decreases data.len() - i,
{
    if i < 0 || i >= data.len() {
        Seq::empty()
    } else {
        raw_row(data[i]) + raw_rows(data, i + 1)
    }
}

/// The raw-data table: the header row, then one row per record, in
/// order. Cell text is the plain field value (blank for an absent
/// optional field).
pub open spec fn spec_raw_table(data: Seq<ParsedEntry>) -> Seq<char> {
    "<table id=\"rawdata\">\n<tr>\n<th class=\"ts\">timestamp</th>\n<th class=\"client\">client-wlan</th>\n<th class=\"client\">client-ip</th>\n<th class=\"client\">client-lat</th>\n<th class=\"client\">client-lon</th>\n<th class=\"client\">client-isp</th>\n<th class=\"server\">server-name</th>\n<th class=\"server\">server-sponsor</th>\n<th class=\"server\">server-distance</th>\n<th class=\"server\">server-host</th>\n<th class=\"performance\">latency</th>\n<th class=\"performance\">jitter</th>\n<th class=\"performance\">download_config</th>\n<th class=\"performance\">upload_config</th>\n<th class=\"performance\">download</th>\n<th class=\"performance\">upload</th>\n</tr>\n"@
        + raw_rows(data, 0) + "</table>\n"@
}

fn push_opt_str(out: &mut String, o: &Option<String>)
    ensures
        final(out)@ == old(out)@ + opt_str_chars(*o),
{
    match o {
        Some(s) => {
            out.append(s.as_str());
        },
        None => {},
    }
    proof {
        assert(final(out)@ =~= old(out)@ + opt_str_chars(*o));
    }
}

/// Appends the client cells of a row.
#[verifier::rlimit(80)]
fn push_client_cells(out: &mut String, c: &Option<Client>)
    ensures
        final(out)@ == old(out)@ + client_cells(*c),
{
    match c {
        Some(cl) => {
            out.append("<td class=\"client\">");
            push_opt_str(out, &cl.wlan);
            out.append("</td><td class=\"client\">");
            out.append(cl.ip.as_str());
            out.append("</td><td class=\"client\">");
            out.append(cl.lat.as_str());
            out.append("</td><td class=\"client\">");
            out.append(cl.lon.as_str());
            out.append("</td><td class=\"client\">");
            out.append(cl.isp.as_str());
            out.append("</td>");
        },
        None => {
            out.append("<td colspan=\"5\" class=\"client\"></td>");
        },
    }
    proof {
        assert(final(out)@ =~= old(out)@ + client_cells(*c));
    }
}

/// Appends the server cells of a row.
#[verifier::rlimit(80)]
fn push_server_cells(out: &mut String, s: &Option<Server>)
    ensures
        final(out)@ == old(out)@ + server_cells(*s),
{
    match s {
        Some(sv) => {
            out.append("<td class=\"server\">");
            out.append(sv.name.as_str());
            out.append("</td><td class=\"server\">");
            out.append(sv.sponsor.as_str());
            out.append("</td><td class=\"server\">");
            out.append(sv.distance.as_str());
            out.append("</td><td class=\"server\">");
            out.append(sv.host.as_str());
            out.append("</td>");
        },
        None => {
            out.append("<td colspan=\"4\" class=\"server\"></td>");
        },
    }
    proof {
        assert(final(out)@ =~= old(out)@ + server_cells(*s));
    }
}

/// Appends the performance cells of a row.
#[verifier::rlimit(80)]
fn push_performance_cells(out: &mut String, p: &Option<Performance>)
    ensures
        final(out)@ == old(out)@ + performance_cells(*p),
{
    match p {
        Some(pf) => {
            out.append("<td class=\"performance\">");
            push_u64(out, pf.latency as u64);
            out.append("</td><td class=\"performance\">");
            match pf.jitter {
                Some(j) => {
                    push_u64(out, j as u64);
                },
                None => {},
            }
            out.append("</td><td class=\"performance\">");
            push_opt_str(out, &pf.download_config);
            out.append("</td><td class=\"performance\">");
            push_opt_str(out, &pf.upload_config);
            out.append("</td><td class=\"performance\">");
            match pf.download {
                Some(v) => {
                    let f = format_milli(v);
                    out.append(f.as_str());
                },
                None => {},
            }
            out.append("</td><td class=\"performance\">");
            match pf.upload {
                Some(v) => {
                    let f = format_milli(v);
                    out.append(f.as_str());
                },
                None => {},
            }
            out.append("</td>");
        },
        None => {
            out.append("<td colspan=\"6\" class=\"performance\"></td>");
        },
    }
    proof {
        assert(final(out)@ =~= old(out)@ + performance_cells(*p));
    }
}

/// Appends one raw-data row for a record.
fn push_raw_row(out: &mut String, e: &ParsedEntry)
    ensures
        final(out)@ == old(out)@ + raw_row(*e),
{
    out.append("<tr><td class=\"ts\">");
    let ts = crate::date::format_timestamp(&e.timestamp);
    out.append(ts.as_str());
    out.append("</td>");
    push_client_cells(out, &e.client);
    push_server_cells(out, &e.server);
    push_performance_cells(out, &e.performance);
    out.append("</tr>\n");
    proof {
        assert(final(out)@ =~= old(out)@ + raw_row(*e));
    }
}

/// Renders the raw-data table over all records, in order.
pub fn raw_data_table(data: &Vec<ParsedEntry>) -> (r: String)
    ensures
        r@ == spec_raw_table(data@),
{
    let mut out = String::new();
    out.append(
        "<table id=\"rawdata\">\n<tr>\n<th class=\"ts\">timestamp</th>\n<th class=\"client\">client-wlan</th>\n<th class=\"client\">client-ip</th>\n<th class=\"client\">client-lat</th>\n<th class=\"client\">client-lon</th>\n<th class=\"client\">client-isp</th>\n<th class=\"server\">server-name</th>\n<th class=\"server\">server-sponsor</th>\n<th class=\"server\">server-distance</th>\n<th class=\"server\">server-host</th>\n<th class=\"performance\">latency</th>\n<th class=\"performance\">jitter</th>\n<th class=\"performance\">download_config</th>\n<th class=\"performance\">upload_config</th>\n<th class=\"performance\">download</th>\n<th class=\"performance\">upload</th>\n</tr>\n",
    );
    let ghost header = out@;
    let mut i: usize = 0;
    while i < data.len()
        invariant
            i <= data@.len(),
            out@ + raw_rows(data@, i as int) == header + raw_rows(data@, 0),
        decreases data@.len() - i,
    {
        push_raw_row(&mut out, &data[i]);
        proof {
            assert(out@ + raw_rows(data@, i as int + 1) =~= header + raw_rows(data@, 0));
        }
        i = i + 1;
    }
    proof {
        assert(raw_rows(data@, data@.len() as int) =~= Seq::<char>::empty());
        assert(out@ =~= header + raw_rows(data@, 0));
    }
    out.append("</table>\n");
    proof {
        assert(out@ =~= spec_raw_table(data@));
    }
    out
}

// ---------------------------------------------------------------------
// template substitution

/// The characters a placeholder name may hold.
pub open spec fn is_placeholder_char(c: char) -> bool {
    ('A' <= c && c <= 'Z') || ('a' <= c && c <= 'z') || c == '_'
}

/// The first index at or after `i` that does not hold a placeholder
/// character.
pub open spec fn spec_name_end(s: Seq<char>, i: int) -> int
    decreases s.len() - i,
{
    if 0 <= i && i < s.len() && is_placeholder_char(s[i]) {
        spec_name_end(s, i + 1)
    } else {
        i
    }
}

/// Whether a `${NAME}` placeholder starts at `i`; if so, the index of
/// its closing brace.
pub open spec fn spec_match_at(s: Seq<char>, i: int) -> Option<int> {
    if 0 <= i && i + 1 < s.len() && s[i] == '$' && s[i + 1] == '{' {
        let k = spec_name_end(s, i + 2);
        if 0 <= k && k < s.len() && s[k] == '}' {
            Some(k)
        } else {
            None
        }
    } else {
        None
    }
}

/// The leftmost placeholder at or after `i`: its start and the index of
/// its closing brace.
pub open spec fn spec_find_placeholder(s: Seq<char>, i: int) -> Option<(int, int)>
    decreases s.len() - i,
{
    if i < 0 || i >= s.len() {
        None
    } else {
        match spec_match_at(s, i) {
            Some(k) => Some((i, k)),
            None => spec_find_placeholder(s, i + 1),
        }
    }
}

/// One template line with its first placeholder substituted: the known
/// placeholder names are replaced (the raw-data table replaces its
/// whole line); a line with an unknown or no placeholder passes through
/// unchanged.
pub open spec fn spec_substitute(
    line: Seq<char>,
    stats: Seq<char>,
    resp: Seq<char>,
    thr: Seq<char>,
    raw: Seq<char>,
) -> Seq<char> {
    match spec_find_placeholder(line, 0) {
        None => line,
        Some(ak) => {
            let inner = line.subrange(ak.0 + 2, ak.1);
            if inner == "STATISTICS"@ {
                line.subrange(0, ak.0) + stats + line.subrange(ak.1 + 1, line.len() as int)
            } else if inner == "RESPONSE_TIMES"@ {
                line.subrange(0, ak.0) + resp + line.subrange(ak.1 + 1, line.len() as int)
            } else if inner == "THROUGHPUT"@ {
                line.subrange(0, ak.0) + thr + line.subrange(ak.1 + 1, line.len() as int)
            } else if inner == "RAW_DATA"@ {
                raw
            } else {
                line
            }
        },
    }
}

/// Whether the character at `j` may stand in a placeholder name.
fn name_char_at(s: &str, j: usize) -> (r: bool)
    requires
        j < s@.len(),
    ensures
        r == is_placeholder_char(s@[j as int]),
{
    let c = s.get_char(j);
    ('A' <= c && c <= 'Z') || ('a' <= c && c <= 'z') || c == '_'
}

/// Advances past placeholder-name characters.
fn name_end(s: &str, i: usize) -> (r: usize)
    requires
        i <= s@.len(),
    ensures
        r == spec_name_end(s@, i as int),
        i <= r <= s@.len(),
{
    let n = s.unicode_len();
    let mut j = i;
    while j < n && name_char_at(s, j)
        invariant
            i <= j <= n == s@.len(),
            spec_name_end(s@, i as int) == spec_name_end(s@, j as int),
        decreases n - j,
    {
        j = j + 1;
    }
    j
}

/// Finds the leftmost placeholder of a line.
fn find_placeholder(line: &str) -> (r: Option<(usize, usize)>)
    ensures
        r is Some <==> spec_find_placeholder(line@, 0) is Some,
        r is Some ==> {
            &&& (r->0).0 == (spec_find_placeholder(line@, 0)->0).0
            &&& (r->0).1 == (spec_find_placeholder(line@, 0)->0).1
            &&& (r->0).0 + 2 <= (r->0).1 < line@.len()
        },
{
    let n = line.unicode_len();
    let mut i: usize = 0;
    while i < n
        invariant
            i <= n == line@.len(),
            spec_find_placeholder(line@, 0) == spec_find_placeholder(line@, i as int),
        decreases n - i,
    {
        if i + 1 < n && line.get_char(i) == '$' && line.get_char(i + 1) == '{' {
            let k = name_end(line, i + 2);
            if k < n && line.get_char(k) == '}' {
                proof {
                    assert(spec_match_at(line@, i as int) == Some(k as int));
                }
                return Some((i, k));
            }
        }
        proof {
            assert(spec_match_at(line@, i as int) is None);
        }
        i = i + 1;
    }
    None
}

/// Compares two string slices by characters.
fn str_eq(a: &str, b: &str) -> (r: bool)
    ensures
        r == (a@ == b@),
{
    let an = a.unicode_len();
    let bn = b.unicode_len();
    if an != bn {
        return false;
    }
    let mut i: usize = 0;
    while i < an
        invariant
            i <= an == a@.len() == b@.len(),
            forall|t: int| 0 <= t < i ==> a@[t] == b@[t],
        decreases an - i,
    {
        if a.get_char(i) != b.get_char(i) {
            return false;
        }
        i = i + 1;
    }
    proof {
        assert(a@ =~= b@);
    }
    true
}

/// Substitutes the first placeholder of one template line: the
/// statistics table, the response-times JSON, the throughput JSON, or
/// the whole raw-data table; a line with no (or an unknown) placeholder
/// passes through unchanged.
pub fn substitute_line(
    line: &str,
    statistics: &str,
    response_times: &str,
    throughput: &str,
    raw_data: &str,
) -> (r: String)
    ensures
        r@ == spec_substitute(line@, statistics@, response_times@, throughput@, raw_data@),
{
    let (a, k) = match find_placeholder(line) {
        None => {
            return String::from_str(line);
        },
        Some(p) => p,
    };
    let inner = line.substring_char(a + 2, k);
    let n = line.unicode_len();
    let replacement: &str = if str_eq(inner, "STATISTICS") {
        statistics
    } else if str_eq(inner, "RESPONSE_TIMES") {
        response_times
    } else if str_eq(inner, "THROUGHPUT") {
        throughput
    } else if str_eq(inner, "RAW_DATA") {
        return String::from_str(raw_data);
    } else {
        return String::from_str(line);
    };
    let mut out = String::from_str(line.substring_char(0, a));
    out.append(replacement);
    out.append(line.substring_char(k + 1, n));
    proof {
        assert(out@ =~= spec_substitute(
            line@,
            statistics@,
            response_times@,
            throughput@,
            raw_data@,
        ));
    }
    out
}

// ---------------------------------------------------------------------
// the report generator

/// Everything the report renderer consumes, computed from the record
/// list: the four charts and the four text fragments that replace the
/// template's placeholders.
pub struct ReportParts {
    pub latency: Chart<u32>,
    pub jitter: Chart<u32>,
    pub download: Chart<u64>,
    pub upload: Chart<u64>,
    pub statistics_table: String,
    pub response_times: String,
    pub throughput: String,
    pub raw_data: String,
}

/// Builds the report fragments; writing them into the template file is
/// the caller's affair.
pub struct HtmlGenerator {}

impl HtmlGenerator {
    /// Computes every fragment of the report from the filtered records:
    /// the four charts (each with its statistics over exactly the
    /// measured values), the combined statistics table, the two dataset
    /// JSON arrays, and the raw-data table.
    pub fn prepare(
        data: &Vec<ParsedEntry>,
        latency_chart: &ChartConfig<u32>,
        jitter_chart: &ChartConfig<u32>,
        download_chart: &ChartConfig<u64>,
        upload_chart: &ChartConfig<u64>,
    ) -> (r: ReportParts)
        requires
            data@.len() <= crate::numeric::MAX_SAMPLES,
            forall|i: int|
                0 <= i < data@.len() ==> crate::chart::entry_rates_bounded(#[trigger] data@[i]),
        ensures
            crate::chart::chart_ok(
                r.latency,
                *latency_chart,
                data@,
                (|e: ParsedEntry, d: u32| crate::chart::latency_point_y(e, d)),
                crate::chart::latency_values(data@),
                1,
            ),
            crate::chart::chart_ok(
                r.jitter,
                *jitter_chart,
                data@,
                (|e: ParsedEntry, d: u32| crate::chart::jitter_point_y(e, d)),
                crate::chart::jitter_values(data@),
                1,
            ),
            crate::chart::chart_ok(
                r.download,
                *download_chart,
                data@,
                (|e: ParsedEntry, d: u64| crate::chart::download_point_y(e, d)),
                crate::chart::download_values(data@),
                crate::chart::MEGABIT_DIVISOR as int,
            ),
            crate::chart::chart_ok(
                r.upload,
                *upload_chart,
                data@,
                (|e: ParsedEntry, d: u64| crate::chart::upload_point_y(e, d)),
                crate::chart::upload_values(data@),
                crate::chart::MEGABIT_DIVISOR as int,
            ),
            r.statistics_table@ == spec_statistics_table(
                spec_statistic_table("latency"@, latency_chart.label@, r.latency.stats),
                spec_statistic_table("jitter"@, jitter_chart.label@, r.jitter.stats),
                spec_statistic_table("download"@, download_chart.label@, r.download.stats),
                spec_statistic_table("upload"@, upload_chart.label@, r.upload.stats),
            ),
            r.response_times@ == datasets_json_u32(r.latency.datasets@ + r.jitter.datasets@),
            r.throughput@ == datasets_json_milli(r.download.datasets@ + r.upload.datasets@),
            r.raw_data@ == spec_raw_table(data@),
    {
        let lat = crate::chart::create_latency_chart(data, latency_chart);
        let jit = crate::chart::create_jitter_chart(data, jitter_chart);
        let dwn = crate::chart::create_download_chart(data, download_chart);
        let upl = crate::chart::create_upload_chart(data, upload_chart);
        let stat_lat = create_statistic_table("latency", latency_chart, &lat);
        let stat_jit = create_statistic_table("jitter", jitter_chart, &jit);
        let stat_dwn = create_statistic_table("download", download_chart, &dwn);
        let stat_upl = create_statistic_table("upload", upload_chart, &upl);
        let statistics_table = create_statistics_table(stat_lat, stat_jit, stat_dwn, stat_upl);
        let response_times = datasets_to_json_u32(&lat.datasets, &jit.datasets);
        let throughput = datasets_to_json_milli(&dwn.datasets, &upl.datasets);
        let raw_data = raw_data_table(data);
        ReportParts {
            latency: lat,
            jitter: jit,
            download: dwn,
            upload: upl,
            statistics_table,
            response_times,
            throughput,
            raw_data,
        }
    }
}

} // verus!
