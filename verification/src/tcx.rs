//! Reader for trackpoint documents: markup with nested activity, lap, track
//! and trackpoint elements, as the upstream activity-log endpoint returns
//! them.
//!
//! The reader accepts a document when it mentions an activity element. A
//! document without any lap element is the distinct "no detail available"
//! outcome, not an error. Otherwise one sample is extracted per
//! `<Trackpoint>` element, in document order; every trackpoint must carry a
//! heart rate (the `<Value>` inside its `<HeartRateBpm>`, a decimal integer)
//! and a cumulative distance (its `<DistanceMeters>` text, one or more
//! digits, optionally followed by a dot and one or more fraction digits).
//! Anything else is a parse failure.

use vstd::prelude::*;
use vstd::utf8::encode_utf8;
use vstd::utf8::is_ascii_chars;
use vstd::utf8::is_ascii_chars_encode_utf8;

use crate::activity::ParseError;
use crate::activity::Sample;
use crate::scan::find_in;
use crate::scan::first_at;
use crate::scan::lemma_first_at;

verus! {

pub open spec fn tag_activity() -> Seq<u8> {
    encode_utf8("<Activity"@)
}

pub open spec fn tag_lap() -> Seq<u8> {
    encode_utf8("<Lap"@)
}

pub open spec fn tag_tp_open() -> Seq<u8> {
    encode_utf8("<Trackpoint>"@)
}

pub open spec fn tag_tp_close() -> Seq<u8> {
    encode_utf8("</Trackpoint>"@)
}

pub open spec fn tag_hr_open() -> Seq<u8> {
    encode_utf8("<HeartRateBpm>"@)
}

pub open spec fn tag_val_open() -> Seq<u8> {
    encode_utf8("<Value>"@)
}

pub open spec fn tag_val_close() -> Seq<u8> {
    encode_utf8("</Value>"@)
}

pub open spec fn tag_dist_open() -> Seq<u8> {
    encode_utf8("<DistanceMeters>"@)
}

pub open spec fn tag_dist_close() -> Seq<u8> {
    encode_utf8("</DistanceMeters>"@)
}

pub open spec fn tag_dot() -> Seq<u8> {
    encode_utf8("."@)
}

proof fn lemma_tag_lengths()
    ensures
        tag_tp_open().len() == 12,
        tag_tp_close().len() == 13,
{
    reveal_strlit("<Trackpoint>");
    reveal_strlit("</Trackpoint>");
    assert(is_ascii_chars("<Trackpoint>"@));
    assert(is_ascii_chars("</Trackpoint>"@));
    is_ascii_chars_encode_utf8("<Trackpoint>"@);
    is_ascii_chars_encode_utf8("</Trackpoint>"@);
}

fn activity_bytes() -> (r: &'static [u8])
    ensures
        r@ == tag_activity(),
{
    "<Activity".as_bytes()
}

fn lap_bytes() -> (r: &'static [u8])
    ensures
        r@ == tag_lap(),
{
    "<Lap".as_bytes()
}

fn tp_open_bytes() -> (r: &'static [u8])
    ensures
        r@ == tag_tp_open(),
{
    "<Trackpoint>".as_bytes()
}

fn tp_close_bytes() -> (r: &'static [u8])
    ensures
        r@ == tag_tp_close(),
{
    "</Trackpoint>".as_bytes()
}

fn hr_open_bytes() -> (r: &'static [u8])
    ensures
        r@ == tag_hr_open(),
{
    "<HeartRateBpm>".as_bytes()
}

fn val_open_bytes() -> (r: &'static [u8])
    ensures
        r@ == tag_val_open(),
{
    "<Value>".as_bytes()
}

fn val_close_bytes() -> (r: &'static [u8])
    ensures
        r@ == tag_val_close(),
{
    "</Value>".as_bytes()
}

fn dist_open_bytes() -> (r: &'static [u8])
    ensures
        r@ == tag_dist_open(),
{
    "<DistanceMeters>".as_bytes()
}

fn dist_close_bytes() -> (r: &'static [u8])
    ensures
        r@ == tag_dist_close(),
{
    "</DistanceMeters>".as_bytes()
}

fn dot_bytes() -> (r: &'static [u8])
    ensures
        r@ == tag_dot(),
{
    ".".as_bytes()
}

/// The byte is an ASCII decimal digit.
pub open spec fn is_digit(b: u8) -> bool {
    48 <= b <= 57
}

/// Every byte of `d[a..b]` is a decimal digit.
pub open spec fn all_digits_in(d: Seq<u8>, a: int, b: int) -> bool {
    forall|i: int| a <= i < b ==> is_digit(#[trigger] d[i])
}

/// The value of the digit string `d[a..b]`, most significant digit first.
pub open spec fn digits_value(d: Seq<u8>, a: int, b: int) -> int
    decreases b - a,
{
    if b <= a {
        0
    } else {
        digits_value(d, a, b - 1) * 10 + (d[b - 1] - 48)
    }
}

/// The digit field `d[a..b]` read as an unsigned integer: one or more
/// digits whose value fits in 64 bits.
pub open spec fn spec_digits_field(d: Seq<u8>, a: int, b: int) -> Option<u64> {
    if a < b && all_digits_in(d, a, b) && digits_value(d, a, b) <= u64::MAX {
        Some(digits_value(d, a, b) as u64)
    } else {
        None
    }
}

/// The digit field `d[a..b]` read as a heart rate: its value must fit in 32
/// bits.
pub open spec fn spec_u32_field(d: Seq<u8>, a: int, b: int) -> Option<u32> {
    match spec_digits_field(d, a, b) {
        Some(v) => if v <= u32::MAX {
            Some(v as u32)
        } else {
            None
        },
        None => None,
    }
}

/// The distance field `d[a..b]`: digits, optionally a dot followed by at
/// least one fraction digit. Yields the whole-meter part and whether the
/// fraction is non-zero.
pub open spec fn spec_distance_field(d: Seq<u8>, a: int, b: int) -> Option<(u64, bool)> {
    match first_at(d, tag_dot(), a, b) {
        None => match spec_digits_field(d, a, b) {
            None => None,
            Some(v) => Some((v, false)),
        },
        Some(p) => match spec_digits_field(d, a, p) {
            None => None,
            Some(v) => if p + 1 < b && all_digits_in(d, p + 1, b) {
                Some((v, exists|j: int| p + 1 <= j < b && d[j] != 48))
            } else {
                None
            },
        },
    }
}

/// The sample encoded between positions `a` and `b` (the inside of one
/// trackpoint element), or `None` when heart rate or distance is missing or
/// malformed there.
pub open spec fn spec_parse_point(d: Seq<u8>, a: int, b: int) -> Option<Sample> {
    match first_at(d, tag_hr_open(), a, b) {
        None => None,
        Some(h) => match first_at(d, tag_val_open(), h, b) {
            None => None,
            Some(v0) => match first_at(d, tag_val_close(), v0 + tag_val_open().len(), b) {
                None => None,
                Some(v1) => match spec_u32_field(d, v0 + tag_val_open().len(), v1) {
                    None => None,
                    Some(hr) => match first_at(d, tag_dist_open(), a, b) {
                        None => None,
                        Some(d0) => match first_at(
                            d,
                            tag_dist_close(),
                            d0 + tag_dist_open().len(),
                            b,
                        ) {
                            None => None,
                            Some(d1) => match spec_distance_field(
                                d,
                                d0 + tag_dist_open().len(),
                                d1,
                            ) {
                                None => None,
                                Some(dist) => Some(
                                    Sample {
                                        heart_rate: hr,
                                        distance_whole_m: dist.0,
                                        distance_has_fraction: dist.1,
                                    },
                                ),
                            },
                        },
                    },
                },
            },
        },
    }
}

/// The samples of all trackpoint elements that start at or after `pos`, in
/// document order; `None` when some trackpoint is unterminated or carries a
/// missing or malformed field.
pub open spec fn spec_parse_points(d: Seq<u8>, pos: int) -> Option<Seq<Sample>>
    decreases d.len() - pos,
        when 0 <= pos <= d.len()
    via spec_parse_points_decreases
{
    match first_at(d, tag_tp_open(), pos, d.len() as int) {
        None => Some(Seq::empty()),
        Some(t) => match first_at(d, tag_tp_close(), t + tag_tp_open().len(), d.len() as int) {
            None => None,
            Some(e) => match spec_parse_point(d, t + tag_tp_open().len(), e) {
                None => None,
                Some(s) => match spec_parse_points(d, e + tag_tp_close().len()) {
                    None => None,
                    Some(rest) => Some(seq![s] + rest),
                },
            },
        },
    }
}

#[via_fn]
proof fn spec_parse_points_decreases(d: Seq<u8>, pos: int) {
    lemma_tag_lengths();
    lemma_first_at(d, tag_tp_open(), pos, d.len() as int);
    match first_at(d, tag_tp_open(), pos, d.len() as int) {
        Some(t) => {
            lemma_first_at(d, tag_tp_close(), t + tag_tp_open().len(), d.len() as int);
        },
        None => {},
    }
}

/// A parsed trackpoint list never holds more samples than the document has
/// bytes past `pos`.
proof fn lemma_points_count(d: Seq<u8>, pos: int)
    requires
        0 <= pos <= d.len(),
    ensures
        match spec_parse_points(d, pos) {
            Some(s) => s.len() <= d.len() - pos,
            None => true,
        },
    decreases d.len() - pos,
{
    lemma_tag_lengths();
    lemma_first_at(d, tag_tp_open(), pos, d.len() as int);
    match first_at(d, tag_tp_open(), pos, d.len() as int) {
        Some(t) => {
            lemma_first_at(d, tag_tp_close(), t + tag_tp_open().len(), d.len() as int);
            match first_at(d, tag_tp_close(), t + tag_tp_open().len(), d.len() as int) {
                Some(e) => {
                    lemma_points_count(d, e + tag_tp_close().len());
                },
                None => {},
            }
        },
        None => {},
    }
}

/// Outcome of reading a whole document: an error when no activity element is
/// present or some trackpoint is broken, the absent-lap outcome when no lap
/// element is present, and otherwise the samples in document order.
pub open spec fn spec_parse_doc(d: Seq<u8>) -> Result<Option<Seq<Sample>>, ParseError> {
    if first_at(d, tag_activity(), 0, d.len() as int) is None {
        Err(ParseError::Malformed)
    } else if first_at(d, tag_lap(), 0, d.len() as int) is None {
        Ok(None)
    } else {
        match spec_parse_points(d, 0) {
            None => Err(ParseError::Malformed),
            Some(s) => Ok(Some(s)),
        }
    }
}

/// A well-formed document yields at most one sample per byte.
pub proof fn lemma_sample_count(d: Seq<u8>)
    ensures
        match spec_parse_doc(d) {
            Ok(Some(s)) => s.len() <= d.len(),
            _ => true,
        },
{
    lemma_points_count(d, 0);
}

proof fn lemma_digits_value_nonneg(d: Seq<u8>, a: int, b: int)
    ensures
        digits_value(d, a, b) >= 0 || !all_digits_in(d, a, b),
    decreases b - a,
{
    if b <= a {
    } else {
        lemma_digits_value_nonneg(d, a, b - 1);
        if all_digits_in(d, a, b) {
            assert(all_digits_in(d, a, b - 1));
            assert(is_digit(d[b - 1]));
        }
    }
}

/// Under an all-digit field, a longer prefix never has a smaller value.
proof fn lemma_digits_value_monotone(d: Seq<u8>, a: int, i: int, b: int)
    requires
        a <= i <= b,
        all_digits_in(d, a, b),
    ensures
        digits_value(d, a, b) >= digits_value(d, a, i),
    decreases b - i,
{
    if i < b {
        lemma_digits_value_monotone(d, a, i, b - 1);
        assert(all_digits_in(d, a, b - 1));
        lemma_digits_value_nonneg(d, a, b - 1);
        assert(is_digit(d[b - 1]));
    }
}

/// Reads the digit field `d[a..b]` as a 64-bit integer.
fn digits_field(d: &[u8], a: usize, b: usize) -> (r: Option<u64>)
    requires
        a <= b,
        b <= d@.len(),
    ensures
        r == spec_digits_field(d@, a as int, b as int),
{
    if a == b {
        return None;
    }
    let mut val: u64 = 0;
    let mut i = a;
    while i < b
        invariant
            a <= i <= b,
            b <= d@.len(),
            a < b,
            all_digits_in(d@, a as int, i as int),
            val == digits_value(d@, a as int, i as int),
        decreases b - i,
    {
        let c = d[i];
        if c < 48 || c > 57 {
            proof {
                assert(!all_digits_in(d@, a as int, b as int));
            }
            return None;
        }
        let digit = (c - 48) as u64;
        if val > (u64::MAX - digit) / 10 {
            proof {
                assert(digits_value(d@, a as int, i + 1) == val * 10 + digit);
                assert(val * 10 + digit > u64::MAX) by (nonlinear_arith)
                    requires
                        val > (u64::MAX - digit) / 10,
                        0 <= digit <= 9,
                ;
                if all_digits_in(d@, a as int, b as int) {
                    lemma_digits_value_monotone(d@, a as int, i + 1, b as int);
                }
            }
            return None;
        }
        proof {
            assert(val * 10 + digit <= u64::MAX) by (nonlinear_arith)
                requires
                    val <= (u64::MAX - digit) / 10,
                    0 <= digit <= 9,
            ;
        }
        val = val * 10 + digit;
        i = i + 1;
    }
    Some(val)
}

/// Reads the digit field `d[a..b]` as a heart rate.
fn u32_field(d: &[u8], a: usize, b: usize) -> (r: Option<u32>)
    requires
        a <= b,
        b <= d@.len(),
    ensures
        r == spec_u32_field(d@, a as int, b as int),
{
    match digits_field(d, a, b) {
        Some(v) => if v <= u32::MAX as u64 {
            Some(v as u32)
        } else {
            None
        },
        None => None,
    }
}

/// Reads the distance field `d[a..b]`.
fn distance_field(d: &[u8], a: usize, b: usize) -> (r: Option<(u64, bool)>)
    requires
        a <= b,
        b <= d@.len(),
    ensures
        r == spec_distance_field(d@, a as int, b as int),
{
    match find_in(d, a, b, dot_bytes()) {
        None => match digits_field(d, a, b) {
            Some(v) => Some((v, false)),
            None => None,
        },
        Some(p) => {
            proof {
                lemma_first_at(d@, tag_dot(), a as int, b as int);
            }
            match digits_field(d, a, p) {
                None => None,
                Some(v) => {
                    if p + 1 >= b {
                        return None;
                    }
                    let mut has_nonzero = false;
                    let mut i = p + 1;
                    while i < b
                        invariant
                            a <= p,
                            p + 1 <= i <= b,
                            b <= d@.len(),
                            first_at(d@, tag_dot(), a as int, b as int) == Some(p as int),
                            spec_digits_field(d@, a as int, p as int) == Some(v),
                            all_digits_in(d@, p + 1, i as int),
                            has_nonzero == exists|j: int| p + 1 <= j < i && d@[j] != 48,
                        decreases b - i,
                    {
                        let c = d[i];
                        if c < 48 || c > 57 {
                            proof {
                                assert(!is_digit(d@[i as int]));
                                assert(!all_digits_in(d@, p + 1, b as int));
                            }
                            return None;
                        }
                        if c != 48 {
                            proof {
                                assert(d@[i as int] != 48);
                            }
                            has_nonzero = true;
                        }
                        i = i + 1;
                    }
                    Some((v, has_nonzero))
                },
            }
        },
    }
}

/// Reads one sample out of the trackpoint content `d[a..b]`.
fn parse_point(d: &[u8], a: usize, b: usize) -> (r: Option<Sample>)
    requires
        a <= b,
        b <= d@.len(),
    ensures
        r == spec_parse_point(d@, a as int, b as int),
{
    let h = match find_in(d, a, b, hr_open_bytes()) {
        None => {
            return None;
        },
        Some(h) => h,
    };
    proof {
        lemma_first_at(d@, tag_hr_open(), a as int, b as int);
    }
    let v0 = match find_in(d, h, b, val_open_bytes()) {
        None => {
            return None;
        },
        Some(v0) => v0,
    };
    proof {
        lemma_first_at(d@, tag_val_open(), h as int, b as int);
    }
    let v_start = v0 + val_open_bytes().len();
    let v1 = match find_in(d, v_start, b, val_close_bytes()) {
        None => {
            return None;
        },
        Some(v1) => v1,
    };
    proof {
        lemma_first_at(d@, tag_val_close(), v_start as int, b as int);
    }
    let hr = match u32_field(d, v_start, v1) {
        None => {
            return None;
        },
        Some(hr) => hr,
    };
    let d0 = match find_in(d, a, b, dist_open_bytes()) {
        None => {
            return None;
        },
        Some(d0) => d0,
    };
    proof {
        lemma_first_at(d@, tag_dist_open(), a as int, b as int);
    }
    let d_start = d0 + dist_open_bytes().len();
    let d1 = match find_in(d, d_start, b, dist_close_bytes()) {
        None => {
            return None;
        },
        Some(d1) => d1,
    };
    proof {
        lemma_first_at(d@, tag_dist_close(), d_start as int, b as int);
    }
    match distance_field(d, d_start, d1) {
        None => None,
        Some(dist) => Some(
            Sample { heart_rate: hr, distance_whole_m: dist.0, distance_has_fraction: dist.1 },
        ),
    }
}

/// Reads every trackpoint of the document, in document order.
fn parse_points(d: &[u8]) -> (r: Option<Vec<Sample>>)
    ensures
        match (r, spec_parse_points(d@, 0)) {
            (Some(v), Some(s)) => v@ == s,
            (None, None) => true,
            _ => false,
        },
{
    let end = d.len();
    let mut acc: Vec<Sample> = Vec::new();
    let mut pos: usize = 0;
    loop
        invariant
            pos <= end,
            end == d@.len(),
            spec_parse_points(d@, 0) == match spec_parse_points(d@, pos as int) {
                Some(rest) => Some(acc@ + rest),
                None => None::<Seq<Sample>>,
            },
        decreases end - pos,
    {
        let t = match find_in(d, pos, end, tp_open_bytes()) {
            None => {
                proof {
                    assert(spec_parse_points(d@, pos as int) == Some(Seq::<Sample>::empty()));
                    assert(acc@ + Seq::<Sample>::empty() =~= acc@);
                }
                return Some(acc);
            },
            Some(t) => t,
        };
        proof {
            lemma_first_at(d@, tag_tp_open(), pos as int, end as int);
            lemma_tag_lengths();
        }
        let content_start = t + tp_open_bytes().len();
        let e = match find_in(d, content_start, end, tp_close_bytes()) {
            None => {
                return None;
            },
            Some(e) => e,
        };
        proof {
            lemma_first_at(d@, tag_tp_close(), content_start as int, end as int);
        }
        let s = match parse_point(d, content_start, e) {
            None => {
                return None;
            },
            Some(s) => s,
        };
        acc.push(s);
        proof {
            let rest = spec_parse_points(d@, e + tag_tp_close().len());
            if rest is Some {
                assert((acc@.drop_last() + (seq![s] + rest.unwrap())) =~= (acc@
                    + rest.unwrap()));
            }
        }
        pos = e + tp_close_bytes().len();
    }
}

/// Reads a whole trackpoint document: `Ok(None)` when the lap is absent,
/// `Ok(Some(samples))` otherwise, `Err` for a malformed document.
pub fn parse_samples(d: &[u8]) -> (r: Result<Option<Vec<Sample>>, ParseError>)
    ensures
        match (r, spec_parse_doc(d@)) {
            (Ok(Some(v)), Ok(Some(s))) => v@ == s,
            (Ok(None), Ok(None)) => true,
            (Err(e1), Err(e2)) => e1 == e2,
            _ => false,
        },
{
    let end = d.len();
    if find_in(d, 0, end, activity_bytes()).is_none() {
        return Err(ParseError::Malformed);
    }
    if find_in(d, 0, end, lap_bytes()).is_none() {
        return Ok(None);
    }
    match parse_points(d) {
        None => Err(ParseError::Malformed),
        Some(v) => Ok(Some(v)),
    }
}

} // verus!
