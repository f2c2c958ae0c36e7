//! Calendar dates and timestamps as plain integer fields, with parsing of
//! the fixed textual formats `YYYY-MM-DD` and `YYYY-MM-DD HH:MM:SS`, day
//! arithmetic, and formatting (including the monthly data-file name).

use vstd::prelude::*;

use crate::text::{pad_digits, pow10, push_u64_padded};
use vstd::string::StringSliceAdditionalSpecFns;

verus! {

/// A calendar date. Valid dates (see [`Date::valid`]) range from
/// 0001-01-01 to 9999-12-31 in the proleptic Gregorian calendar.
#[derive(Clone, Copy, PartialEq, Eq, Structural, Debug)]
pub struct Date {
    pub year: u16,
    pub month: u8,
    pub day: u8,
}

/// A timestamp: a date with a time of day, to second precision.
#[derive(Clone, Copy, PartialEq, Eq, Structural, Debug)]
pub struct Timestamp {
    pub date: Date,
    pub hour: u8,
    pub minute: u8,
    pub second: u8,
}

pub open spec fn is_leap_year(y: int) -> bool {
    (y % 4 == 0 && y % 100 != 0) || y % 400 == 0
}

pub open spec fn spec_days_in_month(y: int, m: int) -> int {
    if m == 2 {
        if is_leap_year(y) {
            29
        } else {
            28
        }
    } else if m == 4 || m == 6 || m == 9 || m == 11 {
        30
    } else {
        31
    }
}

impl Date {
    /// A well-formed Gregorian calendar date within the supported years.
    pub open spec fn valid(self) -> bool {
        &&& 1 <= self.year <= 9999
        &&& 1 <= self.month <= 12
        &&& 1 <= self.day <= spec_days_in_month(self.year as int, self.month as int)
    }

    /// Chronological order on dates, as lexicographic order on
    /// (year, month, day).
    pub open spec fn spec_le(self, other: Date) -> bool {
        if self.year != other.year {
            self.year < other.year
        } else if self.month != other.month {
            self.month < other.month
        } else {
            self.day <= other.day
        }
    }

    /// Compares two dates chronologically.
    pub fn le(&self, other: &Date) -> (r: bool)
        ensures
            r == self.spec_le(*other),
    {
        if self.year != other.year {
            self.year < other.year
        } else if self.month != other.month {
            self.month < other.month
        } else {
            self.day <= other.day
        }
    }
}

impl Timestamp {
    pub open spec fn valid(self) -> bool {
        &&& self.date.valid()
        &&& self.hour < 24
        &&& self.minute < 60
        &&& self.second < 60
    }

    /// The calendar date of this timestamp.
    pub fn date(&self) -> (r: Date)
        ensures
            r == self.date,
    {
        self.date
    }
}

/// The number of days in month `m` of year `y`.
pub fn days_in_month(y: u16, m: u8) -> (r: u8)
    requires
        1 <= m <= 12,
    ensures
        r == spec_days_in_month(y as int, m as int),
{
    if m == 2 {
        if (y % 4 == 0 && y % 100 != 0) || y % 400 == 0 {
            29
        } else {
            28
        }
    } else if m == 4 || m == 6 || m == 9 || m == 11 {
        30
    } else {
        31
    }
}

/// The day before `d`, clamped at the first supported date: the day before
/// 0001-01-01 is 0001-01-01 itself.
pub open spec fn spec_prev_day(d: Date) -> Date {
    if d.day > 1 {
        Date { year: d.year, month: d.month, day: (d.day - 1) as u8 }
    } else if d.month > 1 {
        Date {
            year: d.year,
            month: (d.month - 1) as u8,
            day: spec_days_in_month(d.year as int, d.month - 1) as u8,
        }
    } else if d.year > 1 {
        Date { year: (d.year - 1) as u16, month: 12, day: 31 }
    } else {
        d
    }
}

/// `d` moved back by `n` days (clamping at the first supported date).
pub open spec fn spec_sub_days(d: Date, n: nat) -> Date
    decreases n,
{
    if n == 0 {
        d
    } else {
        spec_sub_days(spec_prev_day(d), (n - 1) as nat)
    }
}

/// The day before `d`.
pub fn prev_day(d: &Date) -> (r: Date)
    requires
        d.valid(),
    ensures
        r == spec_prev_day(*d),
        r.valid(),
{
    if d.day > 1 {
        Date { year: d.year, month: d.month, day: d.day - 1 }
    } else if d.month > 1 {
        Date { year: d.year, month: d.month - 1, day: days_in_month(d.year, d.month - 1) }
    } else if d.year > 1 {
        Date { year: d.year - 1, month: 12, day: 31 }
    } else {
        *d
    }
}

/// Moves `d` back by `n` days, clamping at the first supported date.
pub fn sub_days(d: &Date, n: u32) -> (r: Date)
    requires
        d.valid(),
    ensures
        r == spec_sub_days(*d, n as nat),
        r.valid(),
{
    let mut cur: Date = *d;
    let mut i: u32 = 0;
    while i < n
        invariant
            i <= n,
            cur.valid(),
            spec_sub_days(*d, n as nat) == spec_sub_days(cur, (n - i) as nat),
        decreases n - i,
    {
        proof {
            assert(spec_sub_days(cur, (n - i) as nat) == spec_sub_days(
                spec_prev_day(cur),
                (n - i - 1) as nat,
            ));
        }
        cur = prev_day(&cur);
        i = i + 1;
    }
    cur
}

pub open spec fn is_ascii_digit(b: u8) -> bool {
    48 <= b <= 57
}

pub open spec fn digit_val(b: u8) -> int {
    b - 48
}

/// The value of the `n` decimal digit bytes of `s` starting at `i`
/// (meaningful only when those bytes are digits).
pub open spec fn digits_val(s: Seq<u8>, i: int, n: nat) -> int
    decreases n,
{
    if n == 0 {
        0
    } else {
        digits_val(s, i, (n - 1) as nat) * 10 + digit_val(s[i + n - 1])
    }
}

pub open spec fn all_digits(s: Seq<u8>, i: int, n: nat) -> bool {
    forall|k: int| i <= k < i + n ==> is_ascii_digit(#[trigger] s[k])
}

/// The value of `n` digit bytes lies below `10^n`.
pub proof fn lemma_digits_val_bound(s: Seq<u8>, i: int, n: nat)
    requires
        all_digits(s, i, n),
    ensures
        0 <= digits_val(s, i, n) < pow10(n),
    decreases n,
{
    if n > 0 {
        lemma_digits_val_bound(s, i, (n - 1) as nat);
    }
}

/// Reads `n` digit bytes of `s` starting at `i` as a decimal number.
fn read_digits(s: &[u8], i: usize, n: usize) -> (r: Option<u32>)
    requires
        i + n <= s@.len(),
        n <= 4,
    ensures
        r is Some <==> all_digits(s@, i as int, n as nat),
        r is Some ==> r->0 == digits_val(s@, i as int, n as nat) && r->0 < pow10(n as nat),
{
    let slen: usize = s.len();
    let mut acc: u32 = 0;
    let mut k: usize = 0;
    while k < n
        invariant
            k <= n,
            n <= 4,
            i + n <= slen,
            slen == s@.len(),
            all_digits(s@, i as int, k as nat),
            acc == digits_val(s@, i as int, k as nat),
            acc < pow10(k as nat),
        decreases n - k,
    {
        proof {
            reveal_with_fuel(pow10, 5);
            assert(pow10(1) == 10 && pow10(2) == 100 && pow10(3) == 1000 && pow10(4) == 10000);
        }
        let b = s[i + k];
        if b < 48 || b > 57 {
            proof {
                assert(!is_ascii_digit(s@[i + k]));
            }
            return None;
        }
        acc = acc * 10 + (b - 48) as u32;
        k = k + 1;
        proof {
            assert(all_digits(s@, i as int, k as nat));
            assert(pow10(k as nat) == 10 * pow10((k - 1) as nat));
        }
    }
    proof {
        lemma_digits_val_bound(s@, i as int, n as nat);
    }
    Some(acc)
}

/// Whether the bytes `s` are a date in the format `YYYY-MM-DD`, and if so,
/// which (valid) date they denote.
pub open spec fn spec_parse_date_at(s: Seq<u8>, i: int) -> Option<Date> {
    if all_digits(s, i, 4) && s[i + 4] == 45 && all_digits(s, i + 5, 2) && s[i + 7] == 45
        && all_digits(s, i + 8, 2) {
        let d = Date {
            year: digits_val(s, i, 4) as u16,
            month: digits_val(s, i + 5, 2) as u8,
            day: digits_val(s, i + 8, 2) as u8,
        };
        if d.valid() {
            Some(d)
        } else {
            None
        }
    } else {
        None
    }
}

pub open spec fn spec_parse_date(s: Seq<u8>) -> Option<Date> {
    if s.len() == 10 {
        spec_parse_date_at(s, 0)
    } else {
        None
    }
}

/// Parses ten bytes of `s` starting at `i` as a `YYYY-MM-DD` date.
fn parse_date_at(s: &[u8], i: usize) -> (r: Option<Date>)
    requires
        i + 10 <= s@.len(),
    ensures
        r == spec_parse_date_at(s@, i as int),
        r is Some ==> r->0.valid(),
{
    let slen: usize = s.len();
    proof {
        assert(i + 10 <= slen);
        reveal_with_fuel(pow10, 5);
        assert(pow10(2) == 100 && pow10(4) == 10000);
        if all_digits(s@, i as int, 4) {
            lemma_digits_val_bound(s@, i as int, 4);
        }
        if all_digits(s@, i + 5, 2) {
            lemma_digits_val_bound(s@, i + 5, 2);
        }
        if all_digits(s@, i + 8, 2) {
            lemma_digits_val_bound(s@, i + 8, 2);
        }
    }
    let year = read_digits(s, i, 4);
    if s[i + 4] != 45 {
        return None;
    }
    let month = read_digits(s, i + 5, 2);
    if s[i + 7] != 45 {
        return None;
    }
    let day = read_digits(s, i + 8, 2);
    match (year, month, day) {
        (Some(y), Some(m), Some(dd)) => {
            if m < 1 || m > 12 {
                return None;
            }
            if y < 1 {
                return None;
            }
            let d = Date { year: y as u16, month: m as u8, day: dd as u8 };
            if dd < 1 || (dd as u8) > days_in_month(d.year, d.month) {
                return None;
            }
            Some(d)
        },
        _ => None,
    }
}

/// Parses a date string in the fixed format `YYYY-MM-DD`.
///
/// Returns `None` exactly when the text is not a well-formed, valid date.
pub fn parse_date(s: &str) -> (r: Option<Date>)
    ensures
        r == spec_parse_date(s.spec_bytes()),
        r is Some ==> r->0.valid(),
{
    let bytes = s.as_bytes();
    if bytes.len() != 10 {
        return None;
    }
    parse_date_at(bytes, 0)
}

/// Whether the bytes `s` are a timestamp in the format
/// `YYYY-MM-DD HH:MM:SS`, and if so, which (valid) timestamp they denote.
pub open spec fn spec_parse_timestamp(s: Seq<u8>) -> Option<Timestamp> {
    if s.len() == 19 && spec_parse_date_at(s, 0) is Some && s[10] == 32 && all_digits(s, 11, 2)
        && s[13] == 58 && all_digits(s, 14, 2) && s[16] == 58 && all_digits(s, 17, 2) {
        let t = Timestamp {
            date: spec_parse_date_at(s, 0)->0,
            hour: digits_val(s, 11, 2) as u8,
            minute: digits_val(s, 14, 2) as u8,
            second: digits_val(s, 17, 2) as u8,
        };
        if t.hour < 24 && t.minute < 60 && t.second < 60 {
            Some(t)
        } else {
            None
        }
    } else {
        None
    }
}

/// Parses a timestamp string in the fixed format `YYYY-MM-DD HH:MM:SS`.
///
/// Returns `None` exactly when the text is not a well-formed, valid
/// timestamp.
pub fn parse_timestamp(s: &str) -> (r: Option<Timestamp>)
    ensures
        r == spec_parse_timestamp(s.spec_bytes()),
        r is Some ==> r->0.valid(),
{
    parse_timestamp_bytes(s.as_bytes())
}

/// Parses timestamp bytes in the fixed format `YYYY-MM-DD HH:MM:SS`.
pub fn parse_timestamp_bytes(bytes: &[u8]) -> (r: Option<Timestamp>)
    ensures
        r == spec_parse_timestamp(bytes@),
        r is Some ==> r->0.valid(),
{
    if bytes.len() != 19 {
        return None;
    }
    proof {
        reveal_with_fuel(pow10, 3);
        assert(pow10(2) == 100);
        if all_digits(bytes@, 11, 2) {
            lemma_digits_val_bound(bytes@, 11, 2);
        }
        if all_digits(bytes@, 14, 2) {
            lemma_digits_val_bound(bytes@, 14, 2);
        }
        if all_digits(bytes@, 17, 2) {
            lemma_digits_val_bound(bytes@, 17, 2);
        }
    }
    let date = match parse_date_at(bytes, 0) {
        Some(d) => d,
        None => {
            return None;
        },
    };
    if bytes[10] != 32 {
        return None;
    }
    let hour = read_digits(bytes, 11, 2);
    if bytes[13] != 58 {
        return None;
    }
    let minute = read_digits(bytes, 14, 2);
    if bytes[16] != 58 {
        return None;
    }
    let second = read_digits(bytes, 17, 2);
    match (hour, minute, second) {
        (Some(h), Some(m), Some(sec)) => {
            if h < 24 && m < 60 && sec < 60 {
                Some(
                    Timestamp {
                        date,
                        hour: h as u8,
                        minute: m as u8,
                        second: sec as u8,
                    },
                )
            } else {
                None
            }
        },
        _ => None,
    }
}

/// The characters `YYYY-MM-DD` of a date.
pub open spec fn spec_format_date(d: Date) -> Seq<char> {
    pad_digits(d.year as int, 4) + seq!['-'] + pad_digits(d.month as int, 2) + seq!['-']
        + pad_digits(d.day as int, 2)
}

/// Formats a date as `YYYY-MM-DD`.
pub fn format_date(d: &Date) -> (r: String)
    ensures
        r@ == spec_format_date(*d),
{
    proof {
        reveal_strlit("-");
    }
    let mut s = String::new();
    push_u64_padded(&mut s, d.year as u64, 4);
    s.append("-");
    push_u64_padded(&mut s, d.month as u64, 2);
    s.append("-");
    push_u64_padded(&mut s, d.day as u64, 2);
    proof {
        assert(s@ =~= spec_format_date(*d));
    }
    s
}

/// The characters `YYYY-MM-DD HH:MM:SS` of a timestamp.
pub open spec fn spec_format_timestamp(t: Timestamp) -> Seq<char> {
    spec_format_date(t.date) + seq![' '] + pad_digits(t.hour as int, 2) + seq![':'] + pad_digits(
        t.minute as int,
        2,
    ) + seq![':'] + pad_digits(t.second as int, 2)
}

/// Formats a timestamp as `YYYY-MM-DD HH:MM:SS`.
pub fn format_timestamp(t: &Timestamp) -> (r: String)
    ensures
        r@ == spec_format_timestamp(*t),
{
    proof {
        reveal_strlit(" ");
        reveal_strlit(":");
    }
    let mut s = format_date(&t.date);
    s.append(" ");
    push_u64_padded(&mut s, t.hour as u64, 2);
    s.append(":");
    push_u64_padded(&mut s, t.minute as u64, 2);
    s.append(":");
    push_u64_padded(&mut s, t.second as u64, 2);
    proof {
        assert(s@ =~= spec_format_timestamp(*t));
    }
    s
}

/// The characters `YYYY-MM-DATA.json` of a monthly data-file name.
pub open spec fn spec_data_file_name(d: Date) -> Seq<char> {
    pad_digits(d.year as int, 4) + seq!['-'] + pad_digits(d.month as int, 2) + "-DATA.json"@
}

/// The name of the monthly data file that holds records of date `d`:
/// `YYYY-MM-DATA.json`. The year-month prefix makes lexicographic order on
/// file names agree with chronological order.
pub fn get_data_file_name(d: &Date) -> (r: String)
    ensures
        r@ == spec_data_file_name(*d),
{
    proof {
        reveal_strlit("-");
        reveal_strlit("-DATA.json");
    }
    let mut s = String::new();
    push_u64_padded(&mut s, d.year as u64, 4);
    s.append("-");
    push_u64_padded(&mut s, d.month as u64, 2);
    s.append("-DATA.json");
    proof {
        assert(s@ =~= spec_data_file_name(*d));
    }
    s
}

} // verus!
