//! Byte-level JSON tokens for the measurement-record format: whitespace,
//! strings with the single-character and `\uXXXX` escapes, plain decimal
//! numbers (scientific notation is not part of this record grammar), and
//! skipping of unknown values. Each executable function is pinned to a
//! spec mirror over the byte sequence.

use vstd::prelude::*;

use crate::date::{digit_val, is_ascii_digit};
use crate::numeric::MAX_MILLI;
use crate::text::pow10;
use vstd::arithmetic::div_mod::{lemma_div_denominator, lemma_div_multiples_vanish_fancy};

verus! {

pub open spec fn is_ws(b: u8) -> bool {
    b == 32 || b == 9 || b == 10 || b == 13
}

/// The first index at or after `i` holding a non-whitespace byte (or the
/// end of the input).
pub open spec fn spec_skip_ws(s: Seq<u8>, i: int) -> int
    decreases s.len() - i,
{
    if i < s.len() && is_ws(s[i]) {
        spec_skip_ws(s, i + 1)
    } else {
        i
    }
}

/// Advances past whitespace.
pub fn skip_ws(s: &Vec<u8>, i: usize) -> (r: usize)
    requires
        i <= s@.len(),
    ensures
        r == spec_skip_ws(s@, i as int),
        i <= r <= s@.len(),
{
    let mut j = i;
    while j < s.len() && (s[j] == 32 || s[j] == 9 || s[j] == 10 || s[j] == 13)
        invariant
            i <= j <= s@.len(),
            spec_skip_ws(s@, i as int) == spec_skip_ws(s@, j as int),
        decreases s@.len() - j,
    {
        j = j + 1;
    }
    j
}

/// The byte denoted by a single-character escape (`\"`, `\\`, `\/`,
/// `\b`, `\f`, `\n`, `\r`, `\t`), if the escape is one of those.
pub open spec fn spec_escape_byte(b: u8) -> Option<u8> {
    if b == 34 {
        Some(34u8)
    } else if b == 92 {
        Some(92u8)
    } else if b == 47 {
        Some(47u8)
    } else if b == 98 {
        Some(8u8)
    } else if b == 102 {
        Some(12u8)
    } else if b == 110 {
        Some(10u8)
    } else if b == 114 {
        Some(13u8)
    } else if b == 116 {
        Some(9u8)
    } else {
        None
    }
}

/// Whether a byte is a hexadecimal digit (either case).
pub open spec fn is_hex_digit(b: u8) -> bool {
    (48 <= b <= 57) || (97 <= b <= 102) || (65 <= b <= 70)
}

/// The value of a hexadecimal digit byte.
pub open spec fn hex_digit_val(b: u8) -> int {
    if 48 <= b <= 57 {
        b - 48
    } else if 97 <= b <= 102 {
        b - 87
    } else {
        b - 55
    }
}

/// Whether the four bytes at `i` are hexadecimal digits.
pub open spec fn hex4_ok(s: Seq<u8>, i: int) -> bool {
    &&& i + 4 <= s.len()
    &&& is_hex_digit(s[i])
    &&& is_hex_digit(s[i + 1])
    &&& is_hex_digit(s[i + 2])
    &&& is_hex_digit(s[i + 3])
}

/// The value of the four hexadecimal digit bytes at `i`.
pub open spec fn hex4_val(s: Seq<u8>, i: int) -> int {
    hex_digit_val(s[i]) * 4096 + hex_digit_val(s[i + 1]) * 256 + hex_digit_val(s[i + 2]) * 16
        + hex_digit_val(s[i + 3])
}

/// The UTF-8 encoding of one Unicode scalar value.
pub open spec fn utf8_enc(cp: int) -> Seq<u8> {
    if cp < 0x80 {
        seq![cp as u8]
    } else if cp < 0x800 {
        seq![(0xC0 + cp / 64) as u8, (0x80 + cp % 64) as u8]
    } else if cp < 0x10000 {
        seq![(0xE0 + cp / 4096) as u8, (0x80 + (cp / 64) % 64) as u8, (0x80 + cp % 64) as u8]
    } else {
        seq![
            (0xF0 + cp / 262144) as u8,
            (0x80 + (cp / 4096) % 64) as u8,
            (0x80 + (cp / 64) % 64) as u8,
            (0x80 + cp % 64) as u8,
        ]
    }
}

/// Parses the body of a string literal from `i` (just after the opening
/// quote): the unescaped content bytes and the index after the closing
/// quote. Escapes are the single-character ones and `\uXXXX` (with
/// surrogate pairs combined; a lone surrogate is rejected). `None` when
/// the string is unterminated, holds a raw control byte, or uses any
/// other escape.
pub open spec fn spec_string_body(s: Seq<u8>, i: int) -> Option<(Seq<u8>, int)>
    decreases s.len() - i,
{
    if i < 0 || i >= s.len() {
        None
    } else if s[i] == 34 {
        Some((Seq::empty(), i + 1))
    } else if s[i] == 92 {
        if i + 1 < s.len() {
            if s[i + 1] == 117 {
                if hex4_ok(s, i + 2) {
                    let u1 = hex4_val(s, i + 2);
                    if 0xD800 <= u1 < 0xDC00 {
                        // a high surrogate must pair with a low one
                        if i + 8 <= s.len() && s[i + 6] == 92 && s[i + 7] == 117 && hex4_ok(
                            s,
                            i + 8,
                        ) {
                            let u2 = hex4_val(s, i + 8);
                            if 0xDC00 <= u2 < 0xE000 {
                                let cp = 0x10000 + (u1 - 0xD800) * 0x400 + (u2 - 0xDC00);
                                match spec_string_body(s, i + 12) {
                                    Some(p) => Some((utf8_enc(cp) + p.0, p.1)),
                                    None => None,
                                }
                            } else {
                                None
                            }
                        } else {
                            None
                        }
                    } else if 0xDC00 <= u1 < 0xE000 {
                        None
                    } else {
                        match spec_string_body(s, i + 6) {
                            Some(p) => Some((utf8_enc(u1) + p.0, p.1)),
                            None => None,
                        }
                    }
                } else {
                    None
                }
            } else {
                match spec_escape_byte(s[i + 1]) {
                    Some(b) => match spec_string_body(s, i + 2) {
                        Some(p) => Some((seq![b] + p.0, p.1)),
                        None => None,
                    },
                    None => None,
                }
            }
        } else {
            None
        }
    } else if s[i] < 32 {
        None
    } else {
        match spec_string_body(s, i + 1) {
            Some(p) => Some((seq![s[i]] + p.0, p.1)),
            None => None,
        }
    }
}

pub proof fn lemma_string_body_bounds(s: Seq<u8>, i: int)
    requires
        spec_string_body(s, i) is Some,
    ensures
        i < (spec_string_body(s, i)->0).1 <= s.len(),
    decreases s.len() - i,
{
    if s[i] == 34 {
    } else if s[i] == 92 {
        if s[i + 1] == 117 {
            let u1 = hex4_val(s, i + 2);
            if 0xD800 <= u1 < 0xDC00 {
                lemma_string_body_bounds(s, i + 12);
            } else {
                lemma_string_body_bounds(s, i + 6);
            }
        } else {
            lemma_string_body_bounds(s, i + 2);
        }
    } else {
        lemma_string_body_bounds(s, i + 1);
    }
}

/// Reads the value of one hexadecimal digit byte.
fn hex_digit(b: u8) -> (r: Option<u32>)
    ensures
        r is Some <==> is_hex_digit(b),
        r is Some ==> r->0 == hex_digit_val(b) && r->0 < 16,
{
    if b >= 48 && b <= 57 {
        Some((b - 48) as u32)
    } else if b >= 97 && b <= 102 {
        Some((b - 87) as u32)
    } else if b >= 65 && b <= 70 {
        Some((b - 55) as u32)
    } else {
        None
    }
}

/// Reads four hexadecimal digit bytes at `i` as one value.
fn read_hex4(s: &Vec<u8>, i: usize) -> (r: Option<u32>)
    requires
        i <= s@.len(),
    ensures
        r is Some <==> hex4_ok(s@, i as int),
        r is Some ==> r->0 == hex4_val(s@, i as int) && r->0 < 0x10000,
{
    if s.len() - i < 4 {
        return None;
    }
    let d0 = match hex_digit(s[i]) {
        None => {
            return None;
        },
        Some(d) => d,
    };
    let d1 = match hex_digit(s[i + 1]) {
        None => {
            return None;
        },
        Some(d) => d,
    };
    let d2 = match hex_digit(s[i + 2]) {
        None => {
            return None;
        },
        Some(d) => d,
    };
    let d3 = match hex_digit(s[i + 3]) {
        None => {
            return None;
        },
        Some(d) => d,
    };
    Some(d0 * 4096 + d1 * 256 + d2 * 16 + d3)
}

/// Appends the UTF-8 encoding of one scalar value.
fn push_utf8(acc: &mut Vec<u8>, cp: u32)
    requires
        cp < 0x110000,
    ensures
        final(acc)@ == old(acc)@ + utf8_enc(cp as int),
{
    if cp < 0x80 {
        acc.push(cp as u8);
    } else if cp < 0x800 {
        acc.push((0xC0 + cp / 64) as u8);
        acc.push((0x80 + cp % 64) as u8);
    } else if cp < 0x10000 {
        acc.push((0xE0 + cp / 4096) as u8);
        acc.push((0x80 + (cp / 64) % 64) as u8);
        acc.push((0x80 + cp % 64) as u8);
    } else {
        acc.push((0xF0 + cp / 262144) as u8);
        acc.push((0x80 + (cp / 4096) % 64) as u8);
        acc.push((0x80 + (cp / 64) % 64) as u8);
        acc.push((0x80 + cp % 64) as u8);
    }
    proof {
        assert(final(acc)@ =~= old(acc)@ + utf8_enc(cp as int));
    }
}

/// A string literal at `i` (at the opening quote): its unescaped content
/// and the index after the closing quote.
pub open spec fn spec_parse_string(s: Seq<u8>, i: int) -> Option<(Seq<u8>, int)> {
    if 0 <= i < s.len() && s[i] == 34 {
        spec_string_body(s, i + 1)
    } else {
        None
    }
}

/// Parses a string literal starting at the quote at `i`.
pub fn parse_string(s: &Vec<u8>, i: usize) -> (r: Option<(Vec<u8>, usize)>)
    requires
        i <= s@.len(),
    ensures
        r is Some <==> spec_parse_string(s@, i as int) is Some,
        r is Some ==> {
            &&& (r->0).0@ == (spec_parse_string(s@, i as int)->0).0
            &&& (r->0).1 == (spec_parse_string(s@, i as int)->0).1
            &&& i + 1 < (r->0).1 <= s@.len()
        },
{
    if i >= s.len() || s[i] != 34 {
        return None;
    }
    let mut acc: Vec<u8> = Vec::new();
    let mut j = i + 1;
    loop
        invariant
            i + 1 <= j <= s@.len(),
            s@[i as int] == 34,
            i < s@.len(),
            spec_string_body(s@, i as int + 1) is Some <==> spec_string_body(s@, j as int)
                is Some,
            spec_string_body(s@, i as int + 1) is Some ==> {
                &&& (spec_string_body(s@, i as int + 1)->0).0 == acc@ + (spec_string_body(
                    s@,
                    j as int,
                )->0).0
                &&& (spec_string_body(s@, i as int + 1)->0).1 == (spec_string_body(s@, j as int)->0).1
            },
        decreases s@.len() - j,
    {
        if j >= s.len() {
            return None;
        }
        let b = s[j];
        if b == 34 {
            proof {
                lemma_string_body_bounds(s@, i as int + 1);
                assert((spec_string_body(s@, i as int + 1)->0).0 =~= acc@);
            }
            return Some((acc, j + 1));
        } else if b == 92 {
            if j + 1 >= s.len() {
                return None;
            }
            let e = s[j + 1];
            if e == 117 {
                let u1 = match read_hex4(s, j + 2) {
                    None => {
                        return None;
                    },
                    Some(u) => u,
                };
                if 0xD800 <= u1 && u1 < 0xDC00 {
                    if !(s.len() - j >= 8 && s[j + 6] == 92 && s[j + 7] == 117) {
                        return None;
                    }
                    let u2 = match read_hex4(s, j + 8) {
                        None => {
                            return None;
                        },
                        Some(u) => u,
                    };
                    if !(0xDC00 <= u2 && u2 < 0xE000) {
                        return None;
                    }
                    let cp: u32 = 0x10000 + (u1 - 0xD800) * 0x400 + (u2 - 0xDC00);
                    let ghost pre = acc@;
                    push_utf8(&mut acc, cp);
                    proof {
                        if spec_string_body(s@, j as int) is Some {
                            assert((pre + (utf8_enc(cp as int) + (spec_string_body(
                                s@,
                                j as int + 12,
                            )->0).0)) =~= (acc@ + (spec_string_body(s@, j as int + 12)->0).0));
                        }
                    }
                    j = j + 12;
                } else if 0xDC00 <= u1 && u1 < 0xE000 {
                    return None;
                } else {
                    let ghost pre = acc@;
                    push_utf8(&mut acc, u1);
                    proof {
                        if spec_string_body(s@, j as int) is Some {
                            assert((pre + (utf8_enc(u1 as int) + (spec_string_body(
                                s@,
                                j as int + 6,
                            )->0).0)) =~= (acc@ + (spec_string_body(s@, j as int + 6)->0).0));
                        }
                    }
                    j = j + 6;
                }
                continue;
            }
            let ghost pre = acc@;
            let unescaped: u8 = if e == 34 {
                34
            } else if e == 92 {
                92
            } else if e == 47 {
                47
            } else if e == 98 {
                8
            } else if e == 102 {
                12
            } else if e == 110 {
                10
            } else if e == 114 {
                13
            } else if e == 116 {
                9
            } else {
                return None;
            };
            proof {
                assert(spec_escape_byte(e) == Some(unescaped));
            }
            acc.push(unescaped);
            proof {
                assert(acc@ =~= pre + seq![unescaped]);
                if spec_string_body(s@, j as int) is Some {
                    assert((pre + (seq![unescaped] + (spec_string_body(s@, j as int + 2)->0).0))
                        =~= (acc@ + (spec_string_body(s@, j as int + 2)->0).0));
                }
            }
            j = j + 2;
        } else if b < 32 {
            return None;
        } else {
            let ghost pre = acc@;
            acc.push(b);
            proof {
                assert(acc@ =~= pre + seq![b]);
                if spec_string_body(s@, j as int) is Some {
                    assert((pre + (seq![b] + (spec_string_body(s@, j as int + 1)->0).0)) =~= (acc@
                        + (spec_string_body(s@, j as int + 1)->0).0));
                }
            }
            j = j + 1;
        }
    }
}

/// The first index at or after `i` that does not hold a digit.
pub open spec fn spec_digits_end(s: Seq<u8>, i: int) -> int
    decreases s.len() - i,
{
    if i < s.len() && 0 <= i && is_ascii_digit(s[i]) {
        spec_digits_end(s, i + 1)
    } else {
        i
    }
}

pub proof fn lemma_digits_end_bounds(s: Seq<u8>, i: int)
    requires
        0 <= i <= s.len(),
    ensures
        i <= spec_digits_end(s, i) <= s.len(),
        forall|t: int| i <= t < spec_digits_end(s, i) ==> is_ascii_digit(#[trigger] s[t]),
        i < s.len() && is_ascii_digit(s[i]) ==> i < spec_digits_end(s, i),
    decreases s.len() - i,
{
    if i < s.len() && is_ascii_digit(s[i]) {
        lemma_digits_end_bounds(s, i + 1);
    }
}

/// Advances past a run of digits.
pub fn digits_end(s: &Vec<u8>, i: usize) -> (r: usize)
    requires
        i <= s@.len(),
    ensures
        r == spec_digits_end(s@, i as int),
        i <= r <= s@.len(),
{
    let mut j = i;
    while j < s.len() && s[j] >= 48 && s[j] <= 57
        invariant
            i <= j <= s@.len(),
            spec_digits_end(s@, i as int) == spec_digits_end(s@, j as int),
        decreases s@.len() - j,
    {
        j = j + 1;
    }
    j
}

/// The shape of a number token: where its sign, integer digits and
/// fraction digits lie. The fraction digits are `[int_end + 1, frac_end)`
/// when `frac_end > int_end`, and absent otherwise; the token is
/// `[start, end)`.
#[derive(Clone, Copy, PartialEq, Eq, Structural, Debug)]
pub struct NumShape {
    pub neg: bool,
    pub int_start: usize,
    pub int_end: usize,
    pub frac_end: usize,
    pub end: usize,
}

/// The shape of the number token at `i`: an optional minus sign, integer
/// digits without a superfluous leading zero, and an optional fraction
/// `.digits`. (This record grammar has no exponent notation.)
pub open spec fn spec_number_shape(s: Seq<u8>, i: int) -> Option<NumShape> {
    if i < 0 || i >= s.len() {
        None
    } else {
        let neg = s[i] == 45;
        let j = if neg {
            i + 1
        } else {
            i
        };
        if j >= s.len() || !is_ascii_digit(s[j]) {
            None
        } else {
            let j1 = spec_digits_end(s, j);
            if s[j] == 48 && j1 > j + 1 {
                None
            } else if j1 < s.len() && s[j1] == 46 {
                if j1 + 1 < s.len() && is_ascii_digit(s[j1 + 1]) {
                    let j2 = spec_digits_end(s, j1 + 1);
                    Some(
                        NumShape {
                            neg,
                            int_start: j as usize,
                            int_end: j1 as usize,
                            frac_end: j2 as usize,
                            end: j2 as usize,
                        },
                    )
                } else {
                    None
                }
            } else {
                Some(
                    NumShape {
                        neg,
                        int_start: j as usize,
                        int_end: j1 as usize,
                        frac_end: j1 as usize,
                        end: j1 as usize,
                    },
                )
            }
        }
    }
}

pub proof fn lemma_number_shape_bounds(s: Seq<u8>, i: int)
    requires
        0 <= i <= s.len(),
        s.len() <= usize::MAX,
        spec_number_shape(s, i) is Some,
    ensures
        ({
            let sh = spec_number_shape(s, i)->0;
            &&& i <= sh.int_start < sh.int_end <= sh.frac_end <= sh.end <= s.len()
            &&& i < sh.end
            &&& forall|t: int|
                sh.int_start <= t < sh.int_end ==> is_ascii_digit(#[trigger] s[t])
            &&& forall|t: int|
                sh.int_end + 1 <= t < sh.frac_end ==> is_ascii_digit(#[trigger] s[t])
        }),
{
    let neg = s[i] == 45;
    let j = if neg {
        i + 1
    } else {
        i
    };
    lemma_digits_end_bounds(s, j);
    let j1 = spec_digits_end(s, j);
    if j1 < s.len() && s[j1] == 46 && j1 + 1 < s.len() && is_ascii_digit(s[j1 + 1]) {
        lemma_digits_end_bounds(s, j1 + 1);
    }
}

/// Reads the shape of the number token at `i`.
pub fn number_shape(s: &Vec<u8>, i: usize) -> (r: Option<NumShape>)
    requires
        i <= s@.len(),
    ensures
        r == spec_number_shape(s@, i as int),
        r is Some ==> i < (r->0).end <= s@.len(),
        s@.len() <= usize::MAX,
{
    let slen = s.len();
    proof {
        if spec_number_shape(s@, i as int) is Some {
            lemma_number_shape_bounds(s@, i as int);
        }
    }
    if i >= slen {
        return None;
    }
    let neg = s[i] == 45;
    let j = if neg {
        i + 1
    } else {
        i
    };
    if j >= s.len() {
        return None;
    }
    let bj = s[j];
    if bj < 48 || bj > 57 {
        return None;
    }
    let j1 = digits_end(s, j);
    if bj == 48 && j1 > j + 1 {
        return None;
    }
    if j1 < s.len() && s[j1] == 46 {
        if j1 + 1 < s.len() && s[j1 + 1] >= 48 && s[j1 + 1] <= 57 {
            let j2 = digits_end(s, j1 + 1);
            Some(NumShape { neg, int_start: j, int_end: j1, frac_end: j2, end: j2 })
        } else {
            None
        }
    } else {
        Some(NumShape { neg, int_start: j, int_end: j1, frac_end: j1, end: j1 })
    }
}

/// The digit values of the bytes `[a, b)` of `s`.
pub open spec fn digit_seq(s: Seq<u8>, a: int, b: int) -> Seq<int> {
    Seq::new(if b >= a {
        (b - a) as nat
    } else {
        0
    }, |t: int| digit_val(s[a + t]))
}

/// The value of a sequence of decimal digit values, most significant
/// first.
pub open spec fn dseq_val(d: Seq<int>) -> int
    decreases d.len(),
{
    if d.len() == 0 {
        0
    } else {
        dseq_val(d.drop_last()) * 10 + d.last()
    }
}

/// All digit values of a number-token shape: the integer digits followed
/// by the fraction digits.
pub open spec fn shape_digits(s: Seq<u8>, sh: NumShape) -> Seq<int> {
    digit_seq(s, sh.int_start as int, sh.int_end as int) + digit_seq(
        s,
        sh.int_end as int + 1,
        sh.frac_end as int,
    )
}

/// The number of fraction digits of a shape.
pub open spec fn shape_frac_len(sh: NumShape) -> int {
    if sh.frac_end > sh.int_end {
        sh.frac_end - sh.int_end - 1
    } else {
        0
    }
}

/// The milli-unit value a number token denotes: its digit string with the
/// decimal point shifted three places right, truncated toward zero below
/// one thousandth. `None` for a negative token or a value beyond
/// [`MAX_MILLI`].
pub open spec fn spec_milli_of(s: Seq<u8>, sh: NumShape) -> Option<u64> {
    if sh.neg {
        None
    } else {
        let d = shape_digits(s, sh);
        let lf = shape_frac_len(sh);
        let v = if lf <= 3 {
            dseq_val(d) * pow10((3 - lf) as nat)
        } else {
            dseq_val(d) / pow10((lf - 3) as nat)
        };
        if v <= MAX_MILLI {
            Some(v as u64)
        } else {
            None
        }
    }
}

/// The `u32` a number token denotes: digits only, no sign and no
/// fraction, within range. (A fractional token is not an integer, the way
/// a typed field read rejects a floating-point number.)
pub open spec fn spec_u32_of(s: Seq<u8>, sh: NumShape) -> Option<u32> {
    if sh.neg || sh.frac_end > sh.int_end {
        None
    } else {
        let v = dseq_val(digit_seq(s, sh.int_start as int, sh.int_end as int));
        if v <= u32::MAX {
            Some(v as u32)
        } else {
            None
        }
    }
}

/// Digit-sequence values are non-negative, and every digit below 10 keeps
/// the value below `10^len`.
pub proof fn lemma_dseq_val_bounds(d: Seq<int>)
    requires
        forall|t: int| 0 <= t < d.len() ==> 0 <= #[trigger] d[t] <= 9,
    ensures
        0 <= dseq_val(d) < pow10(d.len()),
    decreases d.len(),
{
    if d.len() == 0 {
    } else {
        lemma_dseq_val_bounds(d.drop_last());
        assert(dseq_val(d.drop_last()) * 10 + d.last() < pow10(d.len())) by (nonlinear_arith)
            requires
                dseq_val(d.drop_last()) < pow10((d.len() - 1) as nat),
                d.last() <= 9,
                pow10(d.len()) == 10 * pow10((d.len() - 1) as nat),
        ;
        assert(0 <= dseq_val(d.drop_last()) * 10 + d.last()) by (nonlinear_arith)
            requires
                dseq_val(d.drop_last()) >= 0,
                d.last() >= 0,
        ;
    }
}

/// A prefix of a digit sequence has a value no larger than the whole.
pub proof fn lemma_dseq_prefix_le(d: Seq<int>, t: int)
    requires
        0 <= t <= d.len(),
        forall|k: int| 0 <= k < d.len() ==> 0 <= #[trigger] d[k] <= 9,
    ensures
        dseq_val(d.take(t)) <= dseq_val(d),
    decreases d.len() - t,
{
    if t < d.len() {
        lemma_dseq_prefix_le(d, t + 1);
        let p = d.take(t);
        let q = d.take(t + 1);
        assert(q.drop_last() =~= p);
        assert(forall|k: int| 0 <= k < q.len() ==> 0 <= #[trigger] q[k] <= 9);
        lemma_dseq_val_bounds(p);
        assert(dseq_val(p) <= dseq_val(p) * 10 + q.last()) by (nonlinear_arith)
            requires
                dseq_val(p) >= 0,
                q.last() >= 0,
        ;
    } else {
        assert(d.take(t) =~= d);
    }
}

/// Dropping the last `q` digits divides the value by `10^q`.
pub proof fn lemma_dseq_truncate(d: Seq<int>, q: nat)
    requires
        q <= d.len(),
        forall|k: int| 0 <= k < d.len() ==> 0 <= #[trigger] d[k] <= 9,
    ensures
        dseq_val(d.take((d.len() - q) as int)) == dseq_val(d) / pow10(q),
    decreases q,
{
    if q == 0 {
        assert(d.take(d.len() as int) =~= d);
        assert(pow10(0) == 1);
        assert(dseq_val(d) / 1 == dseq_val(d));
    } else {
        let d1 = d.drop_last();
        assert(forall|k: int| 0 <= k < d1.len() ==> 0 <= #[trigger] d1[k] <= 9);
        lemma_dseq_truncate(d1, (q - 1) as nat);
        assert(d1.take((d1.len() - (q - 1)) as int) =~= d.take((d.len() - q) as int));
        lemma_dseq_val_bounds(d1);
        lemma_dseq_val_bounds(d);
        lemma_pow10_pos((q - 1) as nat);
        // dseq_val(d) / 10 == dseq_val(d1)
        assert(dseq_val(d) == dseq_val(d1) * 10 + d.last());
        lemma_div_multiples_vanish_fancy(dseq_val(d1), d.last(), 10);
        assert((10 * dseq_val(d1) + d.last()) / 10 == dseq_val(d1));
        assert(10 * dseq_val(d1) + d.last() == dseq_val(d1) * 10 + d.last()) by (nonlinear_arith);
        assert(dseq_val(d) / 10 == dseq_val(d1));
        // compose divisions: x / pow10(q) == (x / 10) / pow10(q - 1)
        lemma_div_denominator(dseq_val(d), 10, pow10((q - 1) as nat));
        assert(pow10(q) == 10 * pow10((q - 1) as nat));
        assert(dseq_val(d) / pow10(q) == (dseq_val(d) / 10) / pow10((q - 1) as nat));
    }
}

/// `10^n` is positive.
pub proof fn lemma_pow10_pos(n: nat)
    ensures
        pow10(n) >= 1,
    decreases n,
{
    if n > 0 {
        lemma_pow10_pos((n - 1) as nat);
    }
}

/// Converts the number token described by `sh` to milli-units.
pub fn milli_from_shape(s: &Vec<u8>, sh: NumShape) -> (r: Option<u64>)
    requires
        sh.int_start < sh.int_end <= sh.frac_end <= s@.len(),
        sh.frac_end > sh.int_end ==> sh.int_end + 1 <= sh.frac_end,
        forall|t: int| sh.int_start <= t < sh.int_end ==> is_ascii_digit(#[trigger] s@[t]),
        forall|t: int| sh.int_end + 1 <= t < sh.frac_end ==> is_ascii_digit(#[trigger] s@[t]),
    ensures
        r == spec_milli_of(s@, sh),
{
    if sh.neg {
        return None;
    }
    let ghost d = shape_digits(s@, sh);
    proof {
        assert(forall|k: int| 0 <= k < d.len() ==> 0 <= #[trigger] d[k] <= 9);
    }
    // The digits that matter: the integer digits and at most three
    // fraction digits; everything further is below one thousandth.
    let int_len: usize = sh.int_end - sh.int_start;
    let frac_avail: usize = if sh.frac_end > sh.int_end {
        sh.frac_end - sh.int_end - 1
    } else {
        0
    };
    let frac_used: usize = if frac_avail > 3 {
        3
    } else {
        frac_avail
    };
    let ghost dd = d.take(int_len + frac_used);
    let mut m: u128 = 0;
    let mut t: usize = 0;
    while t < int_len + frac_used
        invariant
            t <= int_len + frac_used,
            int_len == sh.int_end - sh.int_start,
            frac_used <= frac_avail,
            frac_used <= 3,
            frac_avail == shape_frac_len(sh),
            frac_avail > 3 ==> frac_used == 3,
            frac_avail <= 3 ==> frac_used == frac_avail,
            sh.int_start < sh.int_end <= sh.frac_end <= s@.len(),
            forall|k: int| sh.int_start <= k < sh.int_end ==> is_ascii_digit(#[trigger] s@[k]),
            forall|k: int|
                sh.int_end + 1 <= k < sh.frac_end ==> is_ascii_digit(#[trigger] s@[k]),
            d == shape_digits(s@, sh),
            dd == d.take(int_len + frac_used),
            int_len + frac_used <= d.len(),
            d.len() == int_len + frac_avail,
            m == dseq_val(dd.take(t as int)),
            m <= MAX_MILLI,
            !sh.neg,
        decreases int_len + frac_used - t,
    {
        let b: u8 = if t < int_len {
            s[sh.int_start + t]
        } else {
            s[sh.int_end + 1 + (t - int_len)]
        };
        proof {
            assert(dd.take(t as int + 1).drop_last() =~= dd.take(t as int));
            assert(dd[t as int] == d[t as int]);
            if t < int_len {
                assert(d[t as int] == digit_val(s@[sh.int_start + t]));
            } else {
                assert(d[t as int] == digit_val(s@[sh.int_end + 1 + (t - int_len)]));
            }
        }
        m = m * 10 + (b - 48) as u128;
        t = t + 1;
        if m > MAX_MILLI as u128 {
            proof {
                assert(forall|k: int| 0 <= k < dd.len() ==> 0 <= #[trigger] dd[k] <= 9);
                lemma_dseq_prefix_le(dd, t as int);
                assert(dd.take(dd.len() as int) =~= dd);
                assert(dseq_val(dd) >= m > MAX_MILLI);
                // The full value is at least the value of these digits.
                lemma_milli_exceeds(
                    s@,
                    sh,
                    d,
                    frac_avail as nat,
                    int_len as int,
                    frac_used as int,
                );
            }
            return None;
        }
    }
    proof {
        assert(dd.take((int_len + frac_used) as int) =~= dd);
    }
    // Scale up when fewer than three fraction digits were present.
    let scale: u64 = if frac_used == 0 {
        1000
    } else if frac_used == 1 {
        100
    } else if frac_used == 2 {
        10
    } else {
        1
    };
    proof {
        reveal_with_fuel(pow10, 5);
        assert(scale == pow10((3 - frac_used) as nat));
        assert((m as int) * (scale as int) <= 0x7FFF_FFFF_FFFF * 1000) by (nonlinear_arith)
            requires
                0 <= m <= MAX_MILLI,
                0 <= scale <= 1000,
        ;
    }
    let scaled: u128 = m * (scale as u128);
    proof {
        lemma_milli_value(
            s@,
            sh,
            d,
            frac_avail as nat,
            int_len as int,
            frac_used as int,
            m as int,
        );
        assert(scaled == (m as int) * pow10((3 - frac_used) as nat));
    }
    if scaled > MAX_MILLI as u128 {
        return None;
    }
    Some(scaled as u64)
}

/// When the leading digits already exceed the bound, the token's value
/// exceeds the bound, whatever the trailing fraction digits hold.
proof fn lemma_milli_exceeds(s: Seq<u8>, sh: NumShape, d: Seq<int>, lf: nat, il: int, fu: int)
    requires
        d == shape_digits(s, sh),
        lf == shape_frac_len(sh),
        il == sh.int_end - sh.int_start,
        fu == if lf > 3 {
            3int
        } else {
            lf as int
        },
        forall|k: int| 0 <= k < d.len() ==> 0 <= #[trigger] d[k] <= 9,
        d.len() == il + lf,
        dseq_val(d.take(il + fu)) > MAX_MILLI,
        !sh.neg,
    ensures
        spec_milli_of(s, sh) is None,
{
    let v = if lf <= 3 {
        dseq_val(d) * pow10((3 - lf) as nat)
    } else {
        dseq_val(d) / pow10((lf - 3) as nat)
    };
    if lf <= 3 {
        assert(d.take(il + fu) =~= d);
        lemma_pow10_pos((3 - lf) as nat);
        assert(v >= dseq_val(d)) by (nonlinear_arith)
            requires
                v == dseq_val(d) * pow10((3 - lf) as nat),
                pow10((3 - lf) as nat) >= 1,
                dseq_val(d) > 0,
        ;
    } else {
        lemma_dseq_truncate(d, (lf - 3) as nat);
        assert(d.take((d.len() - (lf - 3)) as int) =~= d.take(il + fu));
        assert(v == dseq_val(d.take(il + fu)));
    }
}

/// The streamed leading digits, scaled by the missing fraction places,
/// are exactly the token's milli-unit value.
proof fn lemma_milli_value(
    s: Seq<u8>,
    sh: NumShape,
    d: Seq<int>,
    lf: nat,
    il: int,
    fu: int,
    m: int,
)
    requires
        d == shape_digits(s, sh),
        lf == shape_frac_len(sh),
        il == sh.int_end - sh.int_start,
        fu == if lf > 3 {
            3int
        } else {
            lf as int
        },
        forall|k: int| 0 <= k < d.len() ==> 0 <= #[trigger] d[k] <= 9,
        d.len() == il + lf,
        m == dseq_val(d.take(il + fu)),
        0 <= m <= MAX_MILLI,
        !sh.neg,
    ensures
        ({
            let v = if lf <= 3 {
                dseq_val(d) * pow10((3 - lf) as nat)
            } else {
                dseq_val(d) / pow10((lf - 3) as nat)
            };
            let scaled = m * pow10((3 - fu) as nat);
            &&& v == scaled
            &&& (spec_milli_of(s, sh) == if scaled <= MAX_MILLI {
                Some(scaled as u64)
            } else {
                None::<u64>
            })
        }),
{
    if lf <= 3 {
        assert(d.take(il + fu) =~= d);
    } else {
        lemma_dseq_truncate(d, (lf - 3) as nat);
        assert(d.take((d.len() - (lf - 3)) as int) =~= d.take(il + fu));
        assert(pow10(0) == 1);
        assert(m * 1 == m) by (nonlinear_arith);
    }
}

/// Converts the number token described by `sh` to a `u32`.
pub fn u32_from_shape(s: &Vec<u8>, sh: NumShape) -> (r: Option<u32>)
    requires
        sh.int_start < sh.int_end <= sh.frac_end <= s@.len(),
        forall|t: int| sh.int_start <= t < sh.int_end ==> is_ascii_digit(#[trigger] s@[t]),
    ensures
        r == spec_u32_of(s@, sh),
{
    if sh.neg || sh.frac_end > sh.int_end {
        return None;
    }
    let ghost d = digit_seq(s@, sh.int_start as int, sh.int_end as int);
    proof {
        assert(forall|k: int| 0 <= k < d.len() ==> 0 <= #[trigger] d[k] <= 9);
    }
    let mut m: u64 = 0;
    let mut t: usize = 0;
    let n: usize = sh.int_end - sh.int_start;
    while t < n
        invariant
            t <= n == sh.int_end - sh.int_start,
            sh.int_start < sh.int_end <= s@.len(),
            forall|k: int| sh.int_start <= k < sh.int_end ==> is_ascii_digit(#[trigger] s@[k]),
            d == digit_seq(s@, sh.int_start as int, sh.int_end as int),
            m == dseq_val(d.take(t as int)),
            m <= u32::MAX,
        decreases n - t,
    {
        let b = s[sh.int_start + t];
        proof {
            assert(d.take(t as int + 1).drop_last() =~= d.take(t as int));
            assert(d[t as int] == digit_val(s@[sh.int_start + t]));
        }
        m = m * 10 + (b - 48) as u64;
        t = t + 1;
        if m > u32::MAX as u64 {
            proof {
                assert(forall|k: int| 0 <= k < d.len() ==> 0 <= #[trigger] d[k] <= 9);
                lemma_dseq_prefix_le(d, t as int);
                assert(d.take(d.len() as int) =~= d);
            }
            return None;
        }
    }
    proof {
        assert(d.take(n as int) =~= d);
    }
    Some(m as u32)
}

/// Whether the four bytes at `v` spell `null`.
pub open spec fn spec_is_null(s: Seq<u8>, v: int) -> bool {
    &&& v >= 0
    &&& v + 4 <= s.len()
    &&& s[v] == 110
    &&& s[v + 1] == 117
    &&& s[v + 2] == 108
    &&& s[v + 3] == 108
}

/// Tests for the literal `null` at `v`.
pub fn is_null(s: &Vec<u8>, v: usize) -> (r: bool)
    requires
        v <= s@.len(),
    ensures
        r == spec_is_null(s@, v as int),
        r ==> v + 4 <= s@.len() && s@.len() <= usize::MAX,
{
    s.len() - v >= 4 && s[v] == 110 && s[v + 1] == 117 && s[v + 2] == 108 && s[v + 3] == 108
}

/// The index just past the JSON value starting at `i`: a string, number,
/// object, array, `true`, `false` or `null`. Used to skip the values of
/// unknown object members. `None` when no well-formed value starts there.
pub open spec fn spec_skip_value(s: Seq<u8>, i: int) -> Option<int>
    decreases s.len() - i, 0int,
{
    if i < 0 || i >= s.len() {
        None
    } else if s[i] == 34 {
        match spec_parse_string(s, i) {
            Some(p) => Some(p.1),
            None => None,
        }
    } else if s[i] == 123 {
        spec_skip_obj_body(s, i + 1)
    } else if s[i] == 91 {
        spec_skip_arr_body(s, i + 1, true)
    } else if s[i] == 116 {
        if i + 4 <= s.len() && s[i + 1] == 114 && s[i + 2] == 117 && s[i + 3] == 101 {
            Some(i + 4)
        } else {
            None
        }
    } else if s[i] == 102 {
        if i + 5 <= s.len() && s[i + 1] == 97 && s[i + 2] == 108 && s[i + 3] == 115 && s[i + 4]
            == 101 {
            Some(i + 5)
        } else {
            None
        }
    } else if s[i] == 110 {
        if i + 4 <= s.len() && s[i + 1] == 117 && s[i + 2] == 108 && s[i + 3] == 108 {
            Some(i + 4)
        } else {
            None
        }
    } else if s[i] == 45 || is_ascii_digit(s[i]) {
        match spec_number_shape(s, i) {
            Some(sh) => Some(sh.end as int),
            None => None,
        }
    } else {
        None
    }
}

/// Skips the members of an object from just after `{` (or after a
/// comma): whitespace, then `}` or `key : value` pairs.
pub open spec fn spec_skip_obj_body(s: Seq<u8>, i: int) -> Option<int>
    decreases s.len() - i, 2int,
{
    if i < 0 || i > s.len() {
        None
    } else {
        let j = spec_skip_ws(s, i);
        if j < s.len() && s[j] == 125 {
            Some(j + 1)
        } else {
            spec_skip_members(s, i)
        }
    }
}

/// Skips `key : value` members separated by commas, up to the closing
/// `}`.
pub open spec fn spec_skip_members(s: Seq<u8>, i: int) -> Option<int>
    decreases s.len() - i, 1int,
{
    if i < 0 || i > s.len() {
        None
    } else {
        let j = spec_skip_ws(s, i);
        match spec_parse_string(s, j) {
            None => None,
            Some(k) => {
                let c = spec_skip_ws(s, k.1);
                if !(i <= j && j < c && c < s.len() && s[c] == 58) {
                    None
                } else {
                    let v = spec_skip_ws(s, c + 1);
                    if !(c < v && v <= s.len()) {
                        None
                    } else {
                        match spec_skip_value(s, v) {
                            None => None,
                            Some(e) => {
                                let t = spec_skip_ws(s, e);
                                if !(v < e && e <= t && t < s.len()) {
                                    None
                                } else if s[t] == 125 {
                                    Some(t + 1)
                                } else if s[t] == 44 {
                                    if t + 1 > i {
                                        spec_skip_members(s, t + 1)
                                    } else {
                                        None
                                    }
                                } else {
                                    None
                                }
                            },
                        }
                    }
                }
            },
        }
    }
}

/// Skips the elements of an array from just after `[` (or after a
/// comma).
pub open spec fn spec_skip_arr_body(s: Seq<u8>, i: int, first: bool) -> Option<int>
    decreases s.len() - i, 1int,
{
    if i < 0 || i > s.len() {
        None
    } else {
        let j = spec_skip_ws(s, i);
        if j < i || j > s.len() {
            None
        } else if first && j < s.len() && s[j] == 93 {
            Some(j + 1)
        } else {
            match spec_skip_value(s, j) {
                None => None,
                Some(e) => {
                    let t = spec_skip_ws(s, e);
                    if !(i <= j && j < e && e <= t && t < s.len()) {
                        None
                    } else if s[t] == 93 {
                        Some(t + 1)
                    } else if s[t] == 44 {
                        if t + 1 > i {
                            spec_skip_arr_body(s, t + 1, false)
                        } else {
                            None
                        }
                    } else {
                        None
                    }
                },
            }
        }
    }
}

/// Skips the JSON value starting at `i`.
pub fn skip_value(s: &Vec<u8>, i: usize) -> (r: Option<usize>)
    requires
        i <= s@.len(),
    ensures
        r is Some <==> spec_skip_value(s@, i as int) is Some,
        r is Some ==> r->0 == spec_skip_value(s@, i as int)->0 && i < r->0 <= s@.len(),
    decreases s@.len() - i, 0int,
{
    if i >= s.len() {
        return None;
    }
    let b = s[i];
    if b == 34 {
        match parse_string(s, i) {
            Some(p) => Some(p.1),
            None => None,
        }
    } else if b == 123 {
        skip_obj_body(s, i + 1)
    } else if b == 91 {
        skip_arr_body(s, i + 1, true)
    } else if b == 116 {
        if s.len() - i >= 4 && s[i + 1] == 114 && s[i + 2] == 117 && s[i + 3] == 101 {
            Some(i + 4)
        } else {
            None
        }
    } else if b == 102 {
        if s.len() - i >= 5 && s[i + 1] == 97 && s[i + 2] == 108 && s[i + 3] == 115 && s[i + 4]
            == 101 {
            Some(i + 5)
        } else {
            None
        }
    } else if b == 110 {
        if s.len() - i >= 4 && s[i + 1] == 117 && s[i + 2] == 108 && s[i + 3] == 108 {
            Some(i + 4)
        } else {
            None
        }
    } else if b == 45 || (b >= 48 && b <= 57) {
        match number_shape(s, i) {
            Some(sh) => Some(sh.end),
            None => None,
        }
    } else {
        None
    }
}

/// Skips an object body from just after `{`.
pub fn skip_obj_body(s: &Vec<u8>, i: usize) -> (r: Option<usize>)
    requires
        i <= s@.len(),
    ensures
        r is Some <==> spec_skip_obj_body(s@, i as int) is Some,
        r is Some ==> r->0 == spec_skip_obj_body(s@, i as int)->0 && i < r->0 <= s@.len(),
    decreases s@.len() - i, 2int,
{
    let j = skip_ws(s, i);
    if j < s.len() && s[j] == 125 {
        Some(j + 1)
    } else {
        skip_members(s, i)
    }
}

/// Skips `key : value` members up to the closing `}`.
pub fn skip_members(s: &Vec<u8>, i: usize) -> (r: Option<usize>)
    requires
        i <= s@.len(),
    ensures
        r is Some <==> spec_skip_members(s@, i as int) is Some,
        r is Some ==> r->0 == spec_skip_members(s@, i as int)->0 && i < r->0 <= s@.len(),
    decreases s@.len() - i, 1int,
{
    let j = skip_ws(s, i);
    let k = match parse_string(s, j) {
        None => {
            return None;
        },
        Some(p) => p.1,
    };
    let c = skip_ws(s, k);
    if !(j < c && c < s.len() && s[c] == 58) {
        return None;
    }
    let v = skip_ws(s, c + 1);
    let e = match skip_value(s, v) {
        None => {
            return None;
        },
        Some(e) => e,
    };
    let t = skip_ws(s, e);
    if !(v < e && t < s.len()) {
        return None;
    }
    if s[t] == 125 {
        Some(t + 1)
    } else if s[t] == 44 {
        skip_members(s, t + 1)
    } else {
        None
    }
}

/// Skips array elements from just after `[`.
pub fn skip_arr_body(s: &Vec<u8>, i: usize, first: bool) -> (r: Option<usize>)
    requires
        i <= s@.len(),
    ensures
        r is Some <==> spec_skip_arr_body(s@, i as int, first) is Some,
        r is Some ==> r->0 == spec_skip_arr_body(s@, i as int, first)->0 && i < r->0 <= s@.len(),
    decreases s@.len() - i, 1int,
{
    let j = skip_ws(s, i);
    if first && j < s.len() && s[j] == 93 {
        return Some(j + 1);
    }
    let e = match skip_value(s, j) {
        None => {
            return None;
        },
        Some(e) => e,
    };
    let t = skip_ws(s, e);
    if !(t < s.len()) {
        return None;
    }
    if s[t] == 93 {
        Some(t + 1)
    } else if s[t] == 44 {
        skip_arr_body(s, t + 1, false)
    } else {
        None
    }
}

} // verus!
