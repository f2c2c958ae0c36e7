//! The measurement-record format: one line of text holding one JSON
//! object with a required `timestamp` (format `YYYY-MM-DD HH:MM:SS`) and
//! optional `client`, `server` and `performance` sections. Field names
//! are matched exactly; unknown members are skipped; a duplicated known
//! member, a wrong type, or a structural fault is malformed; an
//! ill-formed timestamp value is its own error. Rates are held in
//! milli-bits per second (fixed point), latency and jitter in whole
//! milliseconds.

use vstd::prelude::*;

use crate::date::{parse_timestamp_bytes, spec_parse_timestamp, Date, Timestamp};
use crate::json::{
    is_null, milli_from_shape, number_shape, parse_string, skip_value, skip_ws, spec_is_null,
    spec_milli_of, spec_number_shape, spec_parse_string, spec_skip_value, spec_skip_ws,
    spec_u32_of, u32_from_shape,
};
use vstd::string::StringSliceAdditionalSpecFns;
use vstd::utf8::{decode_utf8, valid_utf8};

verus! {

/// The client section of a record, as parsed values.
pub ghost struct ClientModel {
    pub wlan: Option<Seq<char>>,
    pub ip: Seq<char>,
    pub lat: Seq<char>,
    pub lon: Seq<char>,
    pub isp: Seq<char>,
}

/// The server section of a record, as parsed values.
pub ghost struct ServerModel {
    pub name: Seq<char>,
    pub sponsor: Seq<char>,
    pub distance: Seq<char>,
    pub host: Seq<char>,
}

/// The performance section of a record, as parsed values.
pub ghost struct PerformanceModel {
    pub latency: u32,
    pub jitter: Option<u32>,
    pub download_config: Option<Seq<char>>,
    pub upload_config: Option<Seq<char>>,
    pub download: Option<u64>,
    pub upload: Option<u64>,
}

/// A whole record, as parsed values.
pub ghost struct EntryModel {
    pub timestamp: Timestamp,
    pub client: Option<ClientModel>,
    pub server: Option<ServerModel>,
    pub performance: Option<PerformanceModel>,
}

/// What one line of input denotes: a record, a record whose timestamp
/// text is not a valid timestamp, or malformed input.
pub ghost enum ParseOutcome {
    Entry(EntryModel),
    BadTimestamp,
    Malformed,
}

/// A string member value: the decoded characters, provided the unescaped
/// bytes are well-formed UTF-8 (anything else is malformed).
pub open spec fn str_field(raw: Seq<u8>) -> Option<Seq<char>> {
    if valid_utf8(raw) {
        Some(decode_utf8(raw))
    } else {
        None
    }
}

// ---------------------------------------------------------------------
// client section

/// Fields of the client section gathered so far; the outer `Option`
/// means "member seen", for duplicate detection.
pub ghost struct ClientAcc {
    pub wlan: Option<Option<Seq<char>>>,
    pub ip: Option<Seq<char>>,
    pub lat: Option<Seq<char>>,
    pub lon: Option<Seq<char>>,
    pub isp: Option<Seq<char>>,
}

pub open spec fn client_acc_empty() -> ClientAcc {
    ClientAcc { wlan: None, ip: None, lat: None, lon: None, isp: None }
}

/// One parsed member value applied to the accumulator: `None` on a
/// duplicate, a wrong type, or bad content.
pub open spec fn spec_client_apply(
    s: Seq<u8>,
    acc: ClientAcc,
    key: Seq<u8>,
    v: int,
) -> Option<(ClientAcc, int)> {
    if key == "wlan".spec_bytes() {
        if acc.wlan is Some {
            None
        } else if spec_is_null(s, v) {
            Some((ClientAcc { wlan: Some(None), ..acc }, v + 4))
        } else {
            match spec_parse_string(s, v) {
                Some(p) => match str_field(p.0) {
                    Some(cs) => Some((ClientAcc { wlan: Some(Some(cs)), ..acc }, p.1)),
                    None => None,
                },
                None => None,
            }
        }
    } else if key == "ip".spec_bytes() {
        if acc.ip is Some {
            None
        } else {
            match spec_parse_string(s, v) {
                Some(p) => match str_field(p.0) {
                    Some(cs) => Some((ClientAcc { ip: Some(cs), ..acc }, p.1)),
                    None => None,
                },
                None => None,
            }
        }
    } else if key == "lat".spec_bytes() {
        if acc.lat is Some {
            None
        } else {
            match spec_parse_string(s, v) {
                Some(p) => match str_field(p.0) {
                    Some(cs) => Some((ClientAcc { lat: Some(cs), ..acc }, p.1)),
                    None => None,
                },
                None => None,
            }
        }
    } else if key == "lon".spec_bytes() {
        if acc.lon is Some {
            None
        } else {
            match spec_parse_string(s, v) {
                Some(p) => match str_field(p.0) {
                    Some(cs) => Some((ClientAcc { lon: Some(cs), ..acc }, p.1)),
                    None => None,
                },
                None => None,
            }
        }
    } else if key == "isp".spec_bytes() {
        if acc.isp is Some {
            None
        } else {
            match spec_parse_string(s, v) {
                Some(p) => match str_field(p.0) {
                    Some(cs) => Some((ClientAcc { isp: Some(cs), ..acc }, p.1)),
                    None => None,
                },
                None => None,
            }
        }
    } else {
        match spec_skip_value(s, v) {
            Some(e) => Some((acc, e)),
            None => None,
        }
    }
}

/// The members of a client object from just after `{` or a comma.
pub open spec fn spec_client_members(s: Seq<u8>, i: int, acc: ClientAcc) -> Option<
    (ClientAcc, int),
>
    decreases s.len() - i, 1int,
{
    if i < 0 || i > s.len() {
        None
    } else {
        let j = spec_skip_ws(s, i);
        match spec_parse_string(s, j) {
            None => None,
            Some(k) => {
                let c = spec_skip_ws(s, k.1);
                if !(i <= j && j < c && c < s.len() && s[c] == 58) {
                    None
                } else {
                    let v = spec_skip_ws(s, c + 1);
                    if !(c < v && v <= s.len()) {
                        None
                    } else {
                        match spec_client_apply(s, acc, k.0, v) {
                            None => None,
                            Some(ae) => {
                                let t = spec_skip_ws(s, ae.1);
                                if !(v <= ae.1 && ae.1 <= t && t < s.len()) {
                                    None
                                } else if s[t] == 125 {
                                    Some((ae.0, t + 1))
                                } else if s[t] == 44 {
                                    if t + 1 > i {
                                        spec_client_members(s, t + 1, ae.0)
                                    } else {
                                        None
                                    }
                                } else {
                                    None
                                }
                            },
                        }
                    }
                }
            },
        }
    }
}

/// A client object at `i` (at the `{`): the section and the index after
/// the closing `}`. Required members: `ip`, `lat`, `lon`, `isp`.
pub open spec fn spec_parse_client(s: Seq<u8>, i: int) -> Option<(ClientModel, int)>
    decreases s.len() - i, 2int,
{
    if !(0 <= i < s.len() && s[i] == 123) {
        None
    } else {
        let j = spec_skip_ws(s, i + 1);
        if j < s.len() && s[j] == 125 {
            None  // empty section: required members missing
        } else {
            match spec_client_members(s, i + 1, client_acc_empty()) {
                None => None,
                Some(ae) => {
                    let acc = ae.0;
                    if acc.ip is Some && acc.lat is Some && acc.lon is Some && acc.isp is Some {
                        Some(
                            (
                                ClientModel {
                                    wlan: match acc.wlan {
                                        Some(w) => w,
                                        None => None,
                                    },
                                    ip: acc.ip->0,
                                    lat: acc.lat->0,
                                    lon: acc.lon->0,
                                    isp: acc.isp->0,
                                },
                                ae.1,
                            ),
                        )
                    } else {
                        None
                    }
                },
            }
        }
    }
}

// ---------------------------------------------------------------------
// server section

pub ghost struct ServerAcc {
    pub name: Option<Seq<char>>,
    pub sponsor: Option<Seq<char>>,
    pub distance: Option<Seq<char>>,
    pub host: Option<Seq<char>>,
}

pub open spec fn server_acc_empty() -> ServerAcc {
    ServerAcc { name: None, sponsor: None, distance: None, host: None }
}

pub open spec fn spec_server_apply(
    s: Seq<u8>,
    acc: ServerAcc,
    key: Seq<u8>,
    v: int,
) -> Option<(ServerAcc, int)> {
    if key == "name".spec_bytes() {
        if acc.name is Some {
            None
        } else {
            match spec_parse_string(s, v) {
                Some(p) => match str_field(p.0) {
                    Some(cs) => Some((ServerAcc { name: Some(cs), ..acc }, p.1)),
                    None => None,
                },
                None => None,
            }
        }
    } else if key == "sponsor".spec_bytes() {
        if acc.sponsor is Some {
            None
        } else {
            match spec_parse_string(s, v) {
                Some(p) => match str_field(p.0) {
                    Some(cs) => Some((ServerAcc { sponsor: Some(cs), ..acc }, p.1)),
                    None => None,
                },
                None => None,
            }
        }
    } else if key == "distance".spec_bytes() {
        if acc.distance is Some {
            None
        } else {
            match spec_parse_string(s, v) {
                Some(p) => match str_field(p.0) {
                    Some(cs) => Some((ServerAcc { distance: Some(cs), ..acc }, p.1)),
                    None => None,
                },
                None => None,
            }
        }
    } else if key == "host".spec_bytes() {
        if acc.host is Some {
            None
        } else {
            match spec_parse_string(s, v) {
                Some(p) => match str_field(p.0) {
                    Some(cs) => Some((ServerAcc { host: Some(cs), ..acc }, p.1)),
                    None => None,
                },
                None => None,
            }
        }
    } else {
        match spec_skip_value(s, v) {
            Some(e) => Some((acc, e)),
            None => None,
        }
    }
}

pub open spec fn spec_server_members(s: Seq<u8>, i: int, acc: ServerAcc) -> Option<
    (ServerAcc, int),
>
    decreases s.len() - i, 1int,
{
    if i < 0 || i > s.len() {
        None
    } else {
        let j = spec_skip_ws(s, i);
        match spec_parse_string(s, j) {
            None => None,
            Some(k) => {
                let c = spec_skip_ws(s, k.1);
                if !(i <= j && j < c && c < s.len() && s[c] == 58) {
                    None
                } else {
                    let v = spec_skip_ws(s, c + 1);
                    if !(c < v && v <= s.len()) {
                        None
                    } else {
                        match spec_server_apply(s, acc, k.0, v) {
                            None => None,
                            Some(ae) => {
                                let t = spec_skip_ws(s, ae.1);
                                if !(v <= ae.1 && ae.1 <= t && t < s.len()) {
                                    None
                                } else if s[t] == 125 {
                                    Some((ae.0, t + 1))
                                } else if s[t] == 44 {
                                    if t + 1 > i {
                                        spec_server_members(s, t + 1, ae.0)
                                    } else {
                                        None
                                    }
                                } else {
                                    None
                                }
                            },
                        }
                    }
                }
            },
        }
    }
}

/// A server object at `i`: all four members are required.
pub open spec fn spec_parse_server(s: Seq<u8>, i: int) -> Option<(ServerModel, int)>
    decreases s.len() - i, 2int,
{
    if !(0 <= i < s.len() && s[i] == 123) {
        None
    } else {
        let j = spec_skip_ws(s, i + 1);
        if j < s.len() && s[j] == 125 {
            None
        } else {
            match spec_server_members(s, i + 1, server_acc_empty()) {
                None => None,
                Some(ae) => {
                    let acc = ae.0;
                    if acc.name is Some && acc.sponsor is Some && acc.distance is Some
                        && acc.host is Some {
                        Some(
                            (
                                ServerModel {
                                    name: acc.name->0,
                                    sponsor: acc.sponsor->0,
                                    distance: acc.distance->0,
                                    host: acc.host->0,
                                },
                                ae.1,
                            ),
                        )
                    } else {
                        None
                    }
                },
            }
        }
    }
}

// ---------------------------------------------------------------------
// performance section

pub ghost struct PerformanceAcc {
    pub latency: Option<u32>,
    pub jitter: Option<Option<u32>>,
    pub download_config: Option<Option<Seq<char>>>,
    pub upload_config: Option<Option<Seq<char>>>,
    pub download: Option<Option<u64>>,
    pub upload: Option<Option<u64>>,
}

pub open spec fn performance_acc_empty() -> PerformanceAcc {
    PerformanceAcc {
        latency: None,
        jitter: None,
        download_config: None,
        upload_config: None,
        download: None,
        upload: None,
    }
}

/// A `u32` member value (for `latency` and `jitter`): a plain unsigned
/// integer number token in range.
pub open spec fn spec_value_u32(s: Seq<u8>, v: int) -> Option<(u32, int)> {
    match spec_number_shape(s, v) {
        Some(sh) => match spec_u32_of(s, sh) {
            Some(x) => Some((x, sh.end as int)),
            None => None,
        },
        None => None,
    }
}

/// A rate member value (for `download` and `upload`): a non-negative
/// decimal number token, read as milli-units.
pub open spec fn spec_value_milli(s: Seq<u8>, v: int) -> Option<(u64, int)> {
    match spec_number_shape(s, v) {
        Some(sh) => match spec_milli_of(s, sh) {
            Some(x) => Some((x, sh.end as int)),
            None => None,
        },
        None => None,
    }
}

pub open spec fn spec_performance_apply(
    s: Seq<u8>,
    acc: PerformanceAcc,
    key: Seq<u8>,
    v: int,
) -> Option<(PerformanceAcc, int)> {
    if key == "latency".spec_bytes() {
        if acc.latency is Some {
            None
        } else {
            match spec_value_u32(s, v) {
                Some(p) => Some((PerformanceAcc { latency: Some(p.0), ..acc }, p.1)),
                None => None,
            }
        }
    } else if key == "jitter".spec_bytes() {
        if acc.jitter is Some {
            None
        } else if spec_is_null(s, v) {
            Some((PerformanceAcc { jitter: Some(None), ..acc }, v + 4))
        } else {
            match spec_value_u32(s, v) {
                Some(p) => Some((PerformanceAcc { jitter: Some(Some(p.0)), ..acc }, p.1)),
                None => None,
            }
        }
    } else if key == "downloadConfig".spec_bytes() {
        if acc.download_config is Some {
            None
        } else if spec_is_null(s, v) {
            Some((PerformanceAcc { download_config: Some(None), ..acc }, v + 4))
        } else {
            match spec_parse_string(s, v) {
                Some(p) => match str_field(p.0) {
                    Some(cs) => Some(
                        (PerformanceAcc { download_config: Some(Some(cs)), ..acc }, p.1),
                    ),
                    None => None,
                },
                None => None,
            }
        }
    } else if key == "uploadConfig".spec_bytes() {
        if acc.upload_config is Some {
            None
        } else if spec_is_null(s, v) {
            Some((PerformanceAcc { upload_config: Some(None), ..acc }, v + 4))
        } else {
            match spec_parse_string(s, v) {
                Some(p) => match str_field(p.0) {
                    Some(cs) => Some(
                        (PerformanceAcc { upload_config: Some(Some(cs)), ..acc }, p.1),
                    ),
                    None => None,
                },
                None => None,
            }
        }
    } else if key == "download".spec_bytes() {
        if acc.download is Some {
            None
        } else if spec_is_null(s, v) {
            Some((PerformanceAcc { download: Some(None), ..acc }, v + 4))
        } else {
            match spec_value_milli(s, v) {
                Some(p) => Some((PerformanceAcc { download: Some(Some(p.0)), ..acc }, p.1)),
                None => None,
            }
        }
    } else if key == "upload".spec_bytes() {
        if acc.upload is Some {
            None
        } else if spec_is_null(s, v) {
            Some((PerformanceAcc { upload: Some(None), ..acc }, v + 4))
        } else {
            match spec_value_milli(s, v) {
                Some(p) => Some((PerformanceAcc { upload: Some(Some(p.0)), ..acc }, p.1)),
                None => None,
            }
        }
    } else {
        match spec_skip_value(s, v) {
            Some(e) => Some((acc, e)),
            None => None,
        }
    }
}

pub open spec fn spec_performance_members(s: Seq<u8>, i: int, acc: PerformanceAcc) -> Option<
    (PerformanceAcc, int),
>
    decreases s.len() - i, 1int,
{
    if i < 0 || i > s.len() {
        None
    } else {
        let j = spec_skip_ws(s, i);
        match spec_parse_string(s, j) {
            None => None,
            Some(k) => {
                let c = spec_skip_ws(s, k.1);
                if !(i <= j && j < c && c < s.len() && s[c] == 58) {
                    None
                } else {
                    let v = spec_skip_ws(s, c + 1);
                    if !(c < v && v <= s.len()) {
                        None
                    } else {
                        match spec_performance_apply(s, acc, k.0, v) {
                            None => None,
                            Some(ae) => {
                                let t = spec_skip_ws(s, ae.1);
                                if !(v <= ae.1 && ae.1 <= t && t < s.len()) {
                                    None
                                } else if s[t] == 125 {
                                    Some((ae.0, t + 1))
                                } else if s[t] == 44 {
                                    if t + 1 > i {
                                        spec_performance_members(s, t + 1, ae.0)
                                    } else {
                                        None
                                    }
                                } else {
                                    None
                                }
                            },
                        }
                    }
                }
            },
        }
    }
}

/// A performance object at `i`: `latency` is required, the rest are
/// optional.
pub open spec fn spec_parse_performance(s: Seq<u8>, i: int) -> Option<(PerformanceModel, int)>
    decreases s.len() - i, 2int,
{
    if !(0 <= i < s.len() && s[i] == 123) {
        None
    } else {
        let j = spec_skip_ws(s, i + 1);
        if j < s.len() && s[j] == 125 {
            None
        } else {
            match spec_performance_members(s, i + 1, performance_acc_empty()) {
                None => None,
                Some(ae) => {
                    let acc = ae.0;
                    if acc.latency is Some {
                        Some(
                            (
                                PerformanceModel {
                                    latency: acc.latency->0,
                                    jitter: match acc.jitter {
                                        Some(x) => x,
                                        None => None,
                                    },
                                    download_config: match acc.download_config {
                                        Some(x) => x,
                                        None => None,
                                    },
                                    upload_config: match acc.upload_config {
                                        Some(x) => x,
                                        None => None,
                                    },
                                    download: match acc.download {
                                        Some(x) => x,
                                        None => None,
                                    },
                                    upload: match acc.upload {
                                        Some(x) => x,
                                        None => None,
                                    },
                                },
                                ae.1,
                            ),
                        )
                    } else {
                        None
                    }
                },
            }
        }
    }
}

// ---------------------------------------------------------------------
// whole record

pub ghost struct EntryAcc {
    pub timestamp: Option<Timestamp>,
    pub client: Option<Option<ClientModel>>,
    pub server: Option<Option<ServerModel>>,
    pub performance: Option<Option<PerformanceModel>>,
}

pub open spec fn entry_acc_empty() -> EntryAcc {
    EntryAcc { timestamp: None, client: None, server: None, performance: None }
}

/// The result of reading one top-level member.
pub ghost enum EntryStep {
    Fine(EntryAcc, int),
    BadTs,
    Bad,
}

/// One top-level member value applied to the accumulator. A `timestamp`
/// whose text is not a valid timestamp is the distinguished
/// bad-timestamp case; everything else wrong is malformed.
pub open spec fn spec_entry_apply(s: Seq<u8>, acc: EntryAcc, key: Seq<u8>, v: int) -> EntryStep
    decreases s.len() - v, 3int,
{
    if key == "timestamp".spec_bytes() {
        if acc.timestamp is Some {
            EntryStep::Bad
        } else {
            match spec_parse_string(s, v) {
                Some(p) => match spec_parse_timestamp(p.0) {
                    Some(ts) => EntryStep::Fine(EntryAcc { timestamp: Some(ts), ..acc }, p.1),
                    None => EntryStep::BadTs,
                },
                None => EntryStep::Bad,
            }
        }
    } else if key == "client".spec_bytes() {
        if acc.client is Some {
            EntryStep::Bad
        } else if spec_is_null(s, v) {
            EntryStep::Fine(EntryAcc { client: Some(None), ..acc }, v + 4)
        } else {
            match spec_parse_client(s, v) {
                Some(p) => EntryStep::Fine(EntryAcc { client: Some(Some(p.0)), ..acc }, p.1),
                None => EntryStep::Bad,
            }
        }
    } else if key == "server".spec_bytes() {
        if acc.server is Some {
            EntryStep::Bad
        } else if spec_is_null(s, v) {
            EntryStep::Fine(EntryAcc { server: Some(None), ..acc }, v + 4)
        } else {
            match spec_parse_server(s, v) {
                Some(p) => EntryStep::Fine(EntryAcc { server: Some(Some(p.0)), ..acc }, p.1),
                None => EntryStep::Bad,
            }
        }
    } else if key == "performance".spec_bytes() {
        if acc.performance is Some {
            EntryStep::Bad
        } else if spec_is_null(s, v) {
            EntryStep::Fine(EntryAcc { performance: Some(None), ..acc }, v + 4)
        } else {
            match spec_parse_performance(s, v) {
                Some(p) => EntryStep::Fine(
                    EntryAcc { performance: Some(Some(p.0)), ..acc },
                    p.1,
                ),
                None => EntryStep::Bad,
            }
        }
    } else {
        match spec_skip_value(s, v) {
            Some(e) => EntryStep::Fine(acc, e),
            None => EntryStep::Bad,
        }
    }
}

/// The top-level members of a record object.
pub open spec fn spec_entry_members(s: Seq<u8>, i: int, acc: EntryAcc) -> EntryStep
    decreases s.len() - i, 4int,
{
    if i < 0 || i > s.len() {
        EntryStep::Bad
    } else {
        let j = spec_skip_ws(s, i);
        match spec_parse_string(s, j) {
            None => EntryStep::Bad,
            Some(k) => {
                let c = spec_skip_ws(s, k.1);
                if !(i <= j && j < c && c < s.len() && s[c] == 58) {
                    EntryStep::Bad
                } else {
                    let v = spec_skip_ws(s, c + 1);
                    if !(c < v && v <= s.len()) {
                        EntryStep::Bad
                    } else {
                        match spec_entry_apply(s, acc, k.0, v) {
                            EntryStep::Bad => EntryStep::Bad,
                            EntryStep::BadTs => EntryStep::BadTs,
                            EntryStep::Fine(acc2, e) => {
                                let t = spec_skip_ws(s, e);
                                if !(v <= e && e <= t && t < s.len()) {
                                    EntryStep::Bad
                                } else if s[t] == 125 {
                                    EntryStep::Fine(acc2, t + 1)
                                } else if s[t] == 44 {
                                    if t + 1 > i {
                                        spec_entry_members(s, t + 1, acc2)
                                    } else {
                                        EntryStep::Bad
                                    }
                                } else {
                                    EntryStep::Bad
                                }
                            },
                        }
                    }
                }
            },
        }
    }
}

/// What one line of input denotes: the whole-line record grammar. The
/// line must hold exactly one object (with `timestamp` present) and
/// nothing but whitespace around it.
pub open spec fn spec_parse_record(s: Seq<u8>) -> ParseOutcome {
    let j = spec_skip_ws(s, 0);
    if !(0 <= j < s.len() && s[j] == 123) {
        ParseOutcome::Malformed
    } else {
        let j2 = spec_skip_ws(s, j + 1);
        if j2 < s.len() && s[j2] == 125 {
            // an empty object has no timestamp
            ParseOutcome::Malformed
        } else {
            match spec_entry_members(s, j + 1, entry_acc_empty()) {
                EntryStep::Bad => ParseOutcome::Malformed,
                EntryStep::BadTs => ParseOutcome::BadTimestamp,
                EntryStep::Fine(acc, e) => {
                    if !(0 <= e <= s.len() && spec_skip_ws(s, e) == s.len()) {
                        ParseOutcome::Malformed
                    } else if acc.timestamp is Some {
                        ParseOutcome::Entry(
                            EntryModel {
                                timestamp: acc.timestamp->0,
                                client: match acc.client {
                                    Some(x) => x,
                                    None => None,
                                },
                                server: match acc.server {
                                    Some(x) => x,
                                    None => None,
                                },
                                performance: match acc.performance {
                                    Some(x) => x,
                                    None => None,
                                },
                            },
                        )
                    } else {
                        ParseOutcome::Malformed
                    }
                },
            }
        }
    }
}

// ---------------------------------------------------------------------
// executable record types and their views

/// The client section of a parsed record.
#[derive(Debug, Clone)]
pub struct Client {
    pub wlan: Option<String>,
    pub ip: String,
    pub lat: String,
    pub lon: String,
    pub isp: String,
}

/// The server section of a parsed record.
#[derive(Debug, Clone)]
pub struct Server {
    pub name: String,
    pub sponsor: String,
    pub distance: String,
    pub host: String,
}

/// The performance section of a parsed record. `latency` is always
/// present when the section is; rates are milli-bits per second.
#[derive(Debug, Clone)]
pub struct Performance {
    pub latency: u32,
    pub jitter: Option<u32>,
    pub download_config: Option<String>,
    pub upload_config: Option<String>,
    pub download: Option<u64>,
    pub upload: Option<u64>,
}

/// One parsed measurement record. The sections are independently
/// present or absent.
#[derive(Debug, Clone)]
pub struct ParsedEntry {
    pub timestamp: Timestamp,
    pub client: Option<Client>,
    pub server: Option<Server>,
    pub performance: Option<Performance>,
}

/// Why a line was rejected: a structurally broken record, or a record
/// whose timestamp text is not a valid timestamp.
#[derive(Debug, Clone)]
pub enum ParseError {
    BadTimestamp,
    Malformed(String),
}

pub open spec fn opt_str_view(x: Option<String>) -> Option<Seq<char>> {
    match x {
        Some(a) => Some(a@),
        None => None,
    }
}

impl Client {
    pub open spec fn view(self) -> ClientModel {
        ClientModel {
            wlan: opt_str_view(self.wlan),
            ip: self.ip@,
            lat: self.lat@,
            lon: self.lon@,
            isp: self.isp@,
        }
    }
}

impl Server {
    pub open spec fn view(self) -> ServerModel {
        ServerModel {
            name: self.name@,
            sponsor: self.sponsor@,
            distance: self.distance@,
            host: self.host@,
        }
    }
}

impl Performance {
    pub open spec fn view(self) -> PerformanceModel {
        PerformanceModel {
            latency: self.latency,
            jitter: self.jitter,
            download_config: opt_str_view(self.download_config),
            upload_config: opt_str_view(self.upload_config),
            download: self.download,
            upload: self.upload,
        }
    }
}

impl ParsedEntry {
    pub open spec fn view(self) -> EntryModel {
        EntryModel {
            timestamp: self.timestamp,
            client: match self.client {
                Some(c) => Some(c.view()),
                None => None,
            },
            server: match self.server {
                Some(c) => Some(c.view()),
                None => None,
            },
            performance: match self.performance {
                Some(c) => Some(c.view()),
                None => None,
            },
        }
    }
}

// ---------------------------------------------------------------------
// executable parsing

/// Relies on `String::from_utf8`: it succeeds exactly on well-formed
/// UTF-8 and returns the string that decodes those bytes.
#[verifier::external_body]
fn bytes_to_string(v: Vec<u8>) -> (r: Option<String>)
    ensures
        r is Some <==> valid_utf8(v@),
        r is Some ==> r->0@ == decode_utf8(v@),
{
    String::from_utf8(v).ok()
}

/// Compares member-name bytes against an expected name.
fn key_is(key: &Vec<u8>, name: &str) -> (r: bool)
    ensures
        r == (key@ == name.spec_bytes()),
{
    let nb = name.as_bytes();
    if key.len() != nb.len() {
        return false;
    }
    let mut i: usize = 0;
    while i < key.len()
        invariant
            i <= key@.len() == nb@.len(),
            nb@ == name.spec_bytes(),
            forall|t: int| 0 <= t < i ==> key@[t] == nb@[t],
        decreases key@.len() - i,
    {
        if key[i] != nb[i] {
            return false;
        }
        i = i + 1;
    }
    proof {
        assert(key@ =~= nb@);
    }
    true
}

/// Parses a string member value into a `String`.
fn value_string(s: &Vec<u8>, v: usize) -> (r: Option<(String, usize)>)
    requires
        v <= s@.len(),
    ensures
        r is Some <==> (spec_parse_string(s@, v as int) is Some && str_field(
            (spec_parse_string(s@, v as int)->0).0,
        ) is Some),
        r is Some ==> {
            &&& (r->0).0@ == str_field((spec_parse_string(s@, v as int)->0).0)->0
            &&& (r->0).1 == (spec_parse_string(s@, v as int)->0).1
            &&& v < (r->0).1 <= s@.len()
        },
{
    match parse_string(s, v) {
        None => None,
        Some((raw, e)) => match bytes_to_string(raw) {
            None => None,
            Some(st) => Some((st, e)),
        },
    }
}

struct ClientAccX {
    wlan: Option<Option<String>>,
    ip: Option<String>,
    lat: Option<String>,
    lon: Option<String>,
    isp: Option<String>,
}

spec fn client_acc_view(a: ClientAccX) -> ClientAcc {
    ClientAcc {
        wlan: match a.wlan {
            Some(x) => Some(opt_str_view(x)),
            None => None,
        },
        ip: match a.ip {
            Some(x) => Some(x@),
            None => None,
        },
        lat: match a.lat {
            Some(x) => Some(x@),
            None => None,
        },
        lon: match a.lon {
            Some(x) => Some(x@),
            None => None,
        },
        isp: match a.isp {
            Some(x) => Some(x@),
            None => None,
        },
    }
}

/// Applies one client member to the accumulator.
fn client_apply(s: &Vec<u8>, acc: ClientAccX, key: &Vec<u8>, v: usize) -> (r: Option<
    (ClientAccX, usize),
>)
    requires
        v <= s@.len(),
    ensures
        r is Some <==> spec_client_apply(s@, client_acc_view(acc), key@, v as int) is Some,
        r is Some ==> {
            &&& client_acc_view((r->0).0) == (spec_client_apply(
                s@,
                client_acc_view(acc),
                key@,
                v as int,
            )->0).0
            &&& (r->0).1 == (spec_client_apply(s@, client_acc_view(acc), key@, v as int)->0).1
            &&& v < (r->0).1 <= s@.len()
        },
{
    if key_is(key, "wlan") {
        if acc.wlan.is_some() {
            None
        } else if is_null(s, v) {
            Some((ClientAccX { wlan: Some(None), ..acc }, v + 4))
        } else {
            match value_string(s, v) {
                Some((st, e)) => Some((ClientAccX { wlan: Some(Some(st)), ..acc }, e)),
                None => None,
            }
        }
    } else if key_is(key, "ip") {
        if acc.ip.is_some() {
            None
        } else {
            match value_string(s, v) {
                Some((st, e)) => Some((ClientAccX { ip: Some(st), ..acc }, e)),
                None => None,
            }
        }
    } else if key_is(key, "lat") {
        if acc.lat.is_some() {
            None
        } else {
            match value_string(s, v) {
                Some((st, e)) => Some((ClientAccX { lat: Some(st), ..acc }, e)),
                None => None,
            }
        }
    } else if key_is(key, "lon") {
        if acc.lon.is_some() {
            None
        } else {
            match value_string(s, v) {
                Some((st, e)) => Some((ClientAccX { lon: Some(st), ..acc }, e)),
                None => None,
            }
        }
    } else if key_is(key, "isp") {
        if acc.isp.is_some() {
            None
        } else {
            match value_string(s, v) {
                Some((st, e)) => Some((ClientAccX { isp: Some(st), ..acc }, e)),
                None => None,
            }
        }
    } else {
        match skip_value(s, v) {
            Some(e) => Some((acc, e)),
            None => None,
        }
    }
}

/// Reads client members from just after `{` or a comma.
fn client_members(s: &Vec<u8>, i: usize, acc: ClientAccX) -> (r: Option<(ClientAccX, usize)>)
    requires
        i <= s@.len(),
    ensures
        r is Some <==> spec_client_members(s@, i as int, client_acc_view(acc)) is Some,
        r is Some ==> {
            &&& client_acc_view((r->0).0) == (spec_client_members(
                s@,
                i as int,
                client_acc_view(acc),
            )->0).0
            &&& (r->0).1 == (spec_client_members(s@, i as int, client_acc_view(acc))->0).1
            &&& i < (r->0).1 <= s@.len()
        },
    decreases s@.len() - i, 1int,
{
    let j = skip_ws(s, i);
    let (keyb, k) = match parse_string(s, j) {
        None => {
            return None;
        },
        Some(p) => p,
    };
    let c = skip_ws(s, k);
    if !(j < c && c < s.len() && s[c] == 58) {
        return None;
    }
    let v = skip_ws(s, c + 1);
    let (acc2, e) = match client_apply(s, acc, &keyb, v) {
        None => {
            return None;
        },
        Some(p) => p,
    };
    let t = skip_ws(s, e);
    if !(t < s.len()) {
        return None;
    }
    if s[t] == 125 {
        Some((acc2, t + 1))
    } else if s[t] == 44 {
        client_members(s, t + 1, acc2)
    } else {
        None
    }
}

/// Parses a client object at `i` (at the `{`).
fn parse_client(s: &Vec<u8>, i: usize) -> (r: Option<(Client, usize)>)
    requires
        i <= s@.len(),
    ensures
        r is Some <==> spec_parse_client(s@, i as int) is Some,
        r is Some ==> {
            &&& (r->0).0.view() == (spec_parse_client(s@, i as int)->0).0
            &&& (r->0).1 == (spec_parse_client(s@, i as int)->0).1
            &&& i < (r->0).1 <= s@.len()
        },
{
    if !(i < s.len() && s[i] == 123) {
        return None;
    }
    let j = skip_ws(s, i + 1);
    if j < s.len() && s[j] == 125 {
        return None;
    }
    let acc0 = ClientAccX { wlan: None, ip: None, lat: None, lon: None, isp: None };
    let (acc, e) = match client_members(s, i + 1, acc0) {
        None => {
            return None;
        },
        Some(p) => p,
    };
    match (acc.ip, acc.lat, acc.lon, acc.isp) {
        (Some(ip), Some(lat), Some(lon), Some(isp)) => {
            let wlan: Option<String> = match acc.wlan {
                Some(w) => w,
                None => None,
            };
            Some((Client { wlan, ip, lat, lon, isp }, e))
        },
        _ => None,
    }
}

struct ServerAccX {
    name: Option<String>,
    sponsor: Option<String>,
    distance: Option<String>,
    host: Option<String>,
}

spec fn server_acc_view(a: ServerAccX) -> ServerAcc {
    ServerAcc {
        name: match a.name {
            Some(x) => Some(x@),
            None => None,
        },
        sponsor: match a.sponsor {
            Some(x) => Some(x@),
            None => None,
        },
        distance: match a.distance {
            Some(x) => Some(x@),
            None => None,
        },
        host: match a.host {
            Some(x) => Some(x@),
            None => None,
        },
    }
}

/// Applies one server member to the accumulator.
fn server_apply(s: &Vec<u8>, acc: ServerAccX, key: &Vec<u8>, v: usize) -> (r: Option<
    (ServerAccX, usize),
>)
    requires
        v <= s@.len(),
    ensures
        r is Some <==> spec_server_apply(s@, server_acc_view(acc), key@, v as int) is Some,
        r is Some ==> {
            &&& server_acc_view((r->0).0) == (spec_server_apply(
                s@,
                server_acc_view(acc),
                key@,
                v as int,
            )->0).0
            &&& (r->0).1 == (spec_server_apply(s@, server_acc_view(acc), key@, v as int)->0).1
            &&& v < (r->0).1 <= s@.len()
        },
{
    if key_is(key, "name") {
        if acc.name.is_some() {
            None
        } else {
            match value_string(s, v) {
                Some((st, e)) => Some((ServerAccX { name: Some(st), ..acc }, e)),
                None => None,
            }
        }
    } else if key_is(key, "sponsor") {
        if acc.sponsor.is_some() {
            None
        } else {
            match value_string(s, v) {
                Some((st, e)) => Some((ServerAccX { sponsor: Some(st), ..acc }, e)),
                None => None,
            }
        }
    } else if key_is(key, "distance") {
        if acc.distance.is_some() {
            None
        } else {
            match value_string(s, v) {
                Some((st, e)) => Some((ServerAccX { distance: Some(st), ..acc }, e)),
                None => None,
            }
        }
    } else if key_is(key, "host") {
        if acc.host.is_some() {
            None
        } else {
            match value_string(s, v) {
                Some((st, e)) => Some((ServerAccX { host: Some(st), ..acc }, e)),
                None => None,
            }
        }
    } else {
        match skip_value(s, v) {
            Some(e) => Some((acc, e)),
            None => None,
        }
    }
}

/// Reads server members from just after `{` or a comma.
fn server_members(s: &Vec<u8>, i: usize, acc: ServerAccX) -> (r: Option<(ServerAccX, usize)>)
    requires
        i <= s@.len(),
    ensures
        r is Some <==> spec_server_members(s@, i as int, server_acc_view(acc)) is Some,
        r is Some ==> {
            &&& server_acc_view((r->0).0) == (spec_server_members(
                s@,
                i as int,
                server_acc_view(acc),
            )->0).0
            &&& (r->0).1 == (spec_server_members(s@, i as int, server_acc_view(acc))->0).1
            &&& i < (r->0).1 <= s@.len()
        },
    decreases s@.len() - i, 1int,
{
    let j = skip_ws(s, i);
    let (keyb, k) = match parse_string(s, j) {
        None => {
            return None;
        },
        Some(p) => p,
    };
    let c = skip_ws(s, k);
    if !(j < c && c < s.len() && s[c] == 58) {
        return None;
    }
    let v = skip_ws(s, c + 1);
    let (acc2, e) = match server_apply(s, acc, &keyb, v) {
        None => {
            return None;
        },
        Some(p) => p,
    };
    let t = skip_ws(s, e);
    if !(t < s.len()) {
        return None;
    }
    if s[t] == 125 {
        Some((acc2, t + 1))
    } else if s[t] == 44 {
        server_members(s, t + 1, acc2)
    } else {
        None
    }
}

/// Parses a server object at `i` (at the `{`).
fn parse_server(s: &Vec<u8>, i: usize) -> (r: Option<(Server, usize)>)
    requires
        i <= s@.len(),
    ensures
        r is Some <==> spec_parse_server(s@, i as int) is Some,
        r is Some ==> {
            &&& (r->0).0.view() == (spec_parse_server(s@, i as int)->0).0
            &&& (r->0).1 == (spec_parse_server(s@, i as int)->0).1
            &&& i < (r->0).1 <= s@.len()
        },
{
    if !(i < s.len() && s[i] == 123) {
        return None;
    }
    let j = skip_ws(s, i + 1);
    if j < s.len() && s[j] == 125 {
        return None;
    }
    let acc0 = ServerAccX { name: None, sponsor: None, distance: None, host: None };
    let (acc, e) = match server_members(s, i + 1, acc0) {
        None => {
            return None;
        },
        Some(p) => p,
    };
    match (acc.name, acc.sponsor, acc.distance, acc.host) {
        (Some(name), Some(sponsor), Some(distance), Some(host)) => Some(
            (Server { name, sponsor, distance, host }, e),
        ),
        _ => None,
    }
}

struct PerformanceAccX {
    latency: Option<u32>,
    jitter: Option<Option<u32>>,
    download_config: Option<Option<String>>,
    upload_config: Option<Option<String>>,
    download: Option<Option<u64>>,
    upload: Option<Option<u64>>,
}

spec fn performance_acc_view(a: PerformanceAccX) -> PerformanceAcc {
    PerformanceAcc {
        latency: a.latency,
        jitter: a.jitter,
        download_config: match a.download_config {
            Some(x) => Some(opt_str_view(x)),
            None => None,
        },
        upload_config: match a.upload_config {
            Some(x) => Some(opt_str_view(x)),
            None => None,
        },
        download: a.download,
        upload: a.upload,
    }
}

/// Parses a `u32` member value.
fn value_u32(s: &Vec<u8>, v: usize) -> (r: Option<(u32, usize)>)
    requires
        v <= s@.len(),
    ensures
        r is Some <==> spec_value_u32(s@, v as int) is Some,
        r is Some ==> {
            &&& (r->0).0 == (spec_value_u32(s@, v as int)->0).0
            &&& (r->0).1 == (spec_value_u32(s@, v as int)->0).1
            &&& v < (r->0).1 <= s@.len()
        },
{
    let sh = match number_shape(s, v) {
        None => {
            return None;
        },
        Some(sh) => sh,
    };
    proof {
        crate::json::lemma_number_shape_bounds(s@, v as int);
    }
    match u32_from_shape(s, sh) {
        None => None,
        Some(x) => Some((x, sh.end)),
    }
}

/// Parses a rate member value as milli-units.
fn value_milli(s: &Vec<u8>, v: usize) -> (r: Option<(u64, usize)>)
    requires
        v <= s@.len(),
    ensures
        r is Some <==> spec_value_milli(s@, v as int) is Some,
        r is Some ==> {
            &&& (r->0).0 == (spec_value_milli(s@, v as int)->0).0
            &&& (r->0).1 == (spec_value_milli(s@, v as int)->0).1
            &&& v < (r->0).1 <= s@.len()
        },
{
    let sh = match number_shape(s, v) {
        None => {
            return None;
        },
        Some(sh) => sh,
    };
    proof {
        crate::json::lemma_number_shape_bounds(s@, v as int);
    }
    match milli_from_shape(s, sh) {
        None => None,
        Some(x) => Some((x, sh.end)),
    }
}

/// Applies one performance member to the accumulator.
fn performance_apply(s: &Vec<u8>, acc: PerformanceAccX, key: &Vec<u8>, v: usize) -> (r: Option<
    (PerformanceAccX, usize),
>)
    requires
        v <= s@.len(),
    ensures
        r is Some <==> spec_performance_apply(
            s@,
            performance_acc_view(acc),
            key@,
            v as int,
        ) is Some,
        r is Some ==> {
            &&& performance_acc_view((r->0).0) == (spec_performance_apply(
                s@,
                performance_acc_view(acc),
                key@,
                v as int,
            )->0).0
            &&& (r->0).1 == (spec_performance_apply(
                s@,
                performance_acc_view(acc),
                key@,
                v as int,
            )->0).1
            &&& v < (r->0).1 <= s@.len()
        },
{
    if key_is(key, "latency") {
        if acc.latency.is_some() {
            None
        } else {
            match value_u32(s, v) {
                Some((x, e)) => Some((PerformanceAccX { latency: Some(x), ..acc }, e)),
                None => None,
            }
        }
    } else if key_is(key, "jitter") {
        if acc.jitter.is_some() {
            None
        } else if is_null(s, v) {
            Some((PerformanceAccX { jitter: Some(None), ..acc }, v + 4))
        } else {
            match value_u32(s, v) {
                Some((x, e)) => Some((PerformanceAccX { jitter: Some(Some(x)), ..acc }, e)),
                None => None,
            }
        }
    } else if key_is(key, "downloadConfig") {
        if acc.download_config.is_some() {
            None
        } else if is_null(s, v) {
            Some((PerformanceAccX { download_config: Some(None), ..acc }, v + 4))
        } else {
            match value_string(s, v) {
                Some((st, e)) => Some(
                    (PerformanceAccX { download_config: Some(Some(st)), ..acc }, e),
                ),
                None => None,
            }
        }
    } else if key_is(key, "uploadConfig") {
        if acc.upload_config.is_some() {
            None
        } else if is_null(s, v) {
            Some((PerformanceAccX { upload_config: Some(None), ..acc }, v + 4))
        } else {
            match value_string(s, v) {
                Some((st, e)) => Some(
                    (PerformanceAccX { upload_config: Some(Some(st)), ..acc }, e),
                ),
                None => None,
            }
        }
    } else if key_is(key, "download") {
        if acc.download.is_some() {
            None
        } else if is_null(s, v) {
            Some((PerformanceAccX { download: Some(None), ..acc }, v + 4))
        } else {
            match value_milli(s, v) {
                Some((x, e)) => Some((PerformanceAccX { download: Some(Some(x)), ..acc }, e)),
                None => None,
            }
        }
    } else if key_is(key, "upload") {
        if acc.upload.is_some() {
            None
        } else if is_null(s, v) {
            Some((PerformanceAccX { upload: Some(None), ..acc }, v + 4))
        } else {
            match value_milli(s, v) {
                Some((x, e)) => Some((PerformanceAccX { upload: Some(Some(x)), ..acc }, e)),
                None => None,
            }
        }
    } else {
        match skip_value(s, v) {
            Some(e) => Some((acc, e)),
            None => None,
        }
    }
}

/// Reads performance members from just after `{` or a comma.
fn performance_members(s: &Vec<u8>, i: usize, acc: PerformanceAccX) -> (r: Option<
    (PerformanceAccX, usize),
>)
    requires
        i <= s@.len(),
    ensures
        r is Some <==> spec_performance_members(
            s@,
            i as int,
            performance_acc_view(acc),
        ) is Some,
        r is Some ==> {
            &&& performance_acc_view((r->0).0) == (spec_performance_members(
                s@,
                i as int,
                performance_acc_view(acc),
            )->0).0
            &&& (r->0).1 == (spec_performance_members(
                s@,
                i as int,
                performance_acc_view(acc),
            )->0).1
            &&& i < (r->0).1 <= s@.len()
        },
    decreases s@.len() - i, 1int,
{
    let j = skip_ws(s, i);
    let (keyb, k) = match parse_string(s, j) {
        None => {
            return None;
        },
        Some(p) => p,
    };
    let c = skip_ws(s, k);
    if !(j < c && c < s.len() && s[c] == 58) {
        return None;
    }
    let v = skip_ws(s, c + 1);
    let (acc2, e) = match performance_apply(s, acc, &keyb, v) {
        None => {
            return None;
        },
        Some(p) => p,
    };
    let t = skip_ws(s, e);
    if !(t < s.len()) {
        return None;
    }
    if s[t] == 125 {
        Some((acc2, t + 1))
    } else if s[t] == 44 {
        performance_members(s, t + 1, acc2)
    } else {
        None
    }
}

/// Parses a performance object at `i` (at the `{`).
fn parse_performance(s: &Vec<u8>, i: usize) -> (r: Option<(Performance, usize)>)
    requires
        i <= s@.len(),
    ensures
        r is Some <==> spec_parse_performance(s@, i as int) is Some,
        r is Some ==> {
            &&& (r->0).0.view() == (spec_parse_performance(s@, i as int)->0).0
            &&& (r->0).1 == (spec_parse_performance(s@, i as int)->0).1
            &&& i < (r->0).1 <= s@.len()
        },
{
    if !(i < s.len() && s[i] == 123) {
        return None;
    }
    let j = skip_ws(s, i + 1);
    if j < s.len() && s[j] == 125 {
        return None;
    }
    let acc0 = PerformanceAccX {
        latency: None,
        jitter: None,
        download_config: None,
        upload_config: None,
        download: None,
        upload: None,
    };
    let (acc, e) = match performance_members(s, i + 1, acc0) {
        None => {
            return None;
        },
        Some(p) => p,
    };
    match acc.latency {
        Some(latency) => {
            let jitter: Option<u32> = match acc.jitter {
                Some(x) => x,
                None => None,
            };
            let download_config: Option<String> = match acc.download_config {
                Some(x) => x,
                None => None,
            };
            let upload_config: Option<String> = match acc.upload_config {
                Some(x) => x,
                None => None,
            };
            let download: Option<u64> = match acc.download {
                Some(x) => x,
                None => None,
            };
            let upload: Option<u64> = match acc.upload {
                Some(x) => x,
                None => None,
            };
            Some(
                (
                    Performance {
                        latency,
                        jitter,
                        download_config,
                        upload_config,
                        download,
                        upload,
                    },
                    e,
                ),
            )
        },
        None => None,
    }
}

struct EntryAccX {
    timestamp: Option<Timestamp>,
    client: Option<Option<Client>>,
    server: Option<Option<Server>>,
    performance: Option<Option<Performance>>,
}

spec fn entry_acc_view(a: EntryAccX) -> EntryAcc {
    EntryAcc {
        timestamp: a.timestamp,
        client: match a.client {
            Some(Some(c)) => Some(Some(c.view())),
            Some(None) => Some(None),
            None => None,
        },
        server: match a.server {
            Some(Some(c)) => Some(Some(c.view())),
            Some(None) => Some(None),
            None => None,
        },
        performance: match a.performance {
            Some(Some(c)) => Some(Some(c.view())),
            Some(None) => Some(None),
            None => None,
        },
    }
}

enum EntryStepX {
    Fine(EntryAccX, usize),
    BadTs,
    Bad,
}

spec fn entry_step_matches(s: Seq<u8>, r: EntryStepX, m: EntryStep, hi: int) -> bool {
    match r {
        EntryStepX::Fine(acc, e) => m matches EntryStep::Fine(macc, me) && entry_acc_view(acc)
            == macc && e == me && hi < e <= s.len(),
        EntryStepX::BadTs => m is BadTs,
        EntryStepX::Bad => m is Bad,
    }
}

/// Applies one top-level member to the accumulator.
fn entry_apply(s: &Vec<u8>, acc: EntryAccX, key: &Vec<u8>, v: usize) -> (r: EntryStepX)
    requires
        v <= s@.len(),
    ensures
        entry_step_matches(
            s@,
            r,
            spec_entry_apply(s@, entry_acc_view(acc), key@, v as int),
            v as int,
        ),
{
    if key_is(key, "timestamp") {
        if acc.timestamp.is_some() {
            EntryStepX::Bad
        } else {
            match parse_string(s, v) {
                Some((raw, e)) => match parse_timestamp_bytes(raw.as_slice()) {
                    Some(ts) => EntryStepX::Fine(
                        EntryAccX { timestamp: Some(ts), ..acc },
                        e,
                    ),
                    None => EntryStepX::BadTs,
                },
                None => EntryStepX::Bad,
            }
        }
    } else if key_is(key, "client") {
        if acc.client.is_some() {
            EntryStepX::Bad
        } else if is_null(s, v) {
            EntryStepX::Fine(EntryAccX { client: Some(None), ..acc }, v + 4)
        } else {
            match parse_client(s, v) {
                Some((cm, e)) => EntryStepX::Fine(
                    EntryAccX { client: Some(Some(cm)), ..acc },
                    e,
                ),
                None => EntryStepX::Bad,
            }
        }
    } else if key_is(key, "server") {
        if acc.server.is_some() {
            EntryStepX::Bad
        } else if is_null(s, v) {
            EntryStepX::Fine(EntryAccX { server: Some(None), ..acc }, v + 4)
        } else {
            match parse_server(s, v) {
                Some((sm, e)) => EntryStepX::Fine(
                    EntryAccX { server: Some(Some(sm)), ..acc },
                    e,
                ),
                None => EntryStepX::Bad,
            }
        }
    } else if key_is(key, "performance") {
        if acc.performance.is_some() {
            EntryStepX::Bad
        } else if is_null(s, v) {
            EntryStepX::Fine(EntryAccX { performance: Some(None), ..acc }, v + 4)
        } else {
            match parse_performance(s, v) {
                Some((pm, e)) => EntryStepX::Fine(
                    EntryAccX { performance: Some(Some(pm)), ..acc },
                    e,
                ),
                None => EntryStepX::Bad,
            }
        }
    } else {
        match skip_value(s, v) {
            Some(e) => EntryStepX::Fine(acc, e),
            None => EntryStepX::Bad,
        }
    }
}

/// Reads top-level members from just after `{` or a comma.
fn entry_members(s: &Vec<u8>, i: usize, acc: EntryAccX) -> (r: EntryStepX)
    requires
        i <= s@.len(),
    ensures
        entry_step_matches(
            s@,
            r,
            spec_entry_members(s@, i as int, entry_acc_view(acc)),
            i as int,
        ),
    decreases s@.len() - i, 4int,
{
    let j = skip_ws(s, i);
    let (keyb, k) = match parse_string(s, j) {
        None => {
            return EntryStepX::Bad;
        },
        Some(p) => p,
    };
    let c = skip_ws(s, k);
    if !(j < c && c < s.len() && s[c] == 58) {
        return EntryStepX::Bad;
    }
    let v = skip_ws(s, c + 1);
    let (acc2, e) = match entry_apply(s, acc, &keyb, v) {
        EntryStepX::Bad => {
            return EntryStepX::Bad;
        },
        EntryStepX::BadTs => {
            return EntryStepX::BadTs;
        },
        EntryStepX::Fine(a, e) => (a, e),
    };
    let t = skip_ws(s, e);
    if !(t < s.len()) {
        return EntryStepX::Bad;
    }
    if s[t] == 125 {
        EntryStepX::Fine(acc2, t + 1)
    } else if s[t] == 44 {
        entry_members(s, t + 1, acc2)
    } else {
        EntryStepX::Bad
    }
}

/// The record parser: one line of text in, one record (or a typed
/// error) out.
pub struct JsonParser {}

impl JsonParser {
    /// Decodes one line into a measurement record.
    ///
    /// The line must hold exactly one record object; `Ok` exactly when
    /// [`spec_parse_record`] accepts it, `Err(ParseError::BadTimestamp)`
    /// exactly when only its timestamp text is invalid, and
    /// `Err(ParseError::Malformed(_))` exactly otherwise. No side
    /// effects: a pure function of the line.
    pub fn parse(line: &str) -> (r: Result<ParsedEntry, ParseError>)
        ensures
            ({
                let o = spec_parse_record(line.spec_bytes());
                &&& (r is Ok <==> o is Entry)
                &&& (r is Ok ==> (o matches ParseOutcome::Entry(m) && r->Ok_0.view() == m))
                &&& ((r is Err && r->Err_0 is BadTimestamp) <==> o is BadTimestamp)
                &&& ((r is Err && r->Err_0 is Malformed) <==> o is Malformed)
            }),
    {
        let bytes: Vec<u8> = line.as_bytes_vec();
        let j = skip_ws(&bytes, 0);
        if !(j < bytes.len() && bytes[j] == 123) {
            return Err(ParseError::Malformed(String::from_str("not a JSON object")));
        }
        let j2 = skip_ws(&bytes, j + 1);
        if j2 < bytes.len() && bytes[j2] == 125 {
            return Err(ParseError::Malformed(String::from_str("missing field: timestamp")));
        }
        let acc0 = EntryAccX { timestamp: None, client: None, server: None, performance: None };
        let (acc, e) = match entry_members(&bytes, j + 1, acc0) {
            EntryStepX::Bad => {
                return Err(ParseError::Malformed(String::from_str("malformed record")));
            },
            EntryStepX::BadTs => {
                return Err(ParseError::BadTimestamp);
            },
            EntryStepX::Fine(a, e) => (a, e),
        };
        if skip_ws(&bytes, e) != bytes.len() {
            return Err(ParseError::Malformed(String::from_str("trailing input")));
        }
        match acc.timestamp {
            Some(timestamp) => {
                let client: Option<Client> = match acc.client {
                    Some(x) => x,
                    None => None,
                };
                let server: Option<Server> = match acc.server {
                    Some(x) => x,
                    None => None,
                };
                let performance: Option<Performance> = match acc.performance {
                    Some(x) => x,
                    None => None,
                };
                Ok(ParsedEntry { timestamp, client, server, performance })
            },
            None => Err(ParseError::Malformed(String::from_str("missing field: timestamp"))),
        }
    }
}

// ---------------------------------------------------------------------
// record-level date filtering and line loading

/// Whether a timestamp's date lies in the inclusive range
/// `[from, to]`.
pub open spec fn spec_in_range(ts: Timestamp, from: Date, to: Date) -> bool {
    from.spec_le(ts.date) && ts.date.spec_le(to)
}

/// Keeps a record exactly when its date lies within `[from, to]`, both
/// boundary dates included: a record at `from` 00:00:00 or at `to`
/// 23:59:59 is kept; one a second outside either end has another date
/// and is dropped.
pub fn record_in_range(e: &ParsedEntry, from: &Date, to: &Date) -> (r: bool)
    ensures
        r == spec_in_range(e.timestamp, *from, *to),
{
    from.le(&e.timestamp.date) && e.timestamp.date.le(to)
}

/// The records a list of text lines denotes within a date range: each
/// line that parses as a record whose date lies in `[from, to]`
/// contributes, in order; all other lines are dropped.
pub open spec fn spec_load_lines(lines: Seq<Seq<u8>>, from: Date, to: Date) -> Seq<EntryModel> {
    lines.filter_map(
        |b: Seq<u8>|
            match spec_parse_record(b) {
                ParseOutcome::Entry(m) => if spec_in_range(m.timestamp, from, to) {
                    Some(m)
                } else {
                    None
                },
                _ => None,
            },
    )
}

/// Parses every line and keeps the records inside the date range, in
/// input order. Unparsable lines are skipped and never fatal; empty
/// input gives an empty list.
pub fn parse_and_filter_lines(lines: &Vec<String>, from: &Date, to: &Date) -> (r: Vec<
    ParsedEntry,
>)
    ensures
        ({
            let models = spec_load_lines(
                lines@.map_values(|l: String| l@).map_values(|c: Seq<char>| encode_utf8_seq(c)),
                *from,
                *to,
            );
            &&& r@.len() == models.len()
            &&& forall|i: int| 0 <= i < models.len() ==> #[trigger] r@[i].view() == models[i]
        }),
{
    let mut out: Vec<ParsedEntry> = Vec::new();
    let mut i: usize = 0;
    let ghost f = |b: Seq<u8>|
        match spec_parse_record(b) {
            ParseOutcome::Entry(m) => if spec_in_range(m.timestamp, *from, *to) {
                Some(m)
            } else {
                None
            },
            _ => None,
        };
    let ghost bs = lines@.map_values(|l: String| l@).map_values(|c: Seq<char>| encode_utf8_seq(c));
    while i < lines.len()
        invariant
            i <= lines@.len(),
            bs == lines@.map_values(|l: String| l@).map_values(
                |c: Seq<char>| encode_utf8_seq(c),
            ),
            bs.len() == lines@.len(),
            f == (|b: Seq<u8>|
            match spec_parse_record(b) {
                ParseOutcome::Entry(m) => if spec_in_range(m.timestamp, *from, *to) {
                    Some(m)
                } else {
                    None
                },
                _ => None,
            }),
            out@.len() == bs.take(i as int).filter_map(f).len(),
            forall|k: int|
                0 <= k < out@.len() ==> #[trigger] out@[k].view() == bs.take(i as int).filter_map(
                    f,
                )[k],
        decreases lines@.len() - i,
    {
        let ghost pre = out@;
        match JsonParser::parse(lines[i].as_str()) {
            Ok(entry) => {
                if record_in_range(&entry, from, to) {
                    out.push(entry);
                } else {
                }
            },
            Err(_) => {},
        }
        proof {
            assert(bs[i as int] == encode_utf8_seq(lines@[i as int]@));
            bs.lemma_filter_map_take_succ(f, i as int);
        }
        i = i + 1;
    }
    proof {
        assert(bs.take(lines@.len() as int) =~= bs);
    }
    out
}

/// The bytes of a character sequence in UTF-8.
pub open spec fn encode_utf8_seq(c: Seq<char>) -> Seq<u8> {
    vstd::utf8::encode_utf8(c)
}

} // verus!
