//! Parsing the sampler's textual output into a measurement sample.
//!
//! The sampler prints one labelled line for the mean observed delay and
//! one for its standard deviation, in either order. The first line whose
//! label matches and whose value reads as a millisecond literal sets the
//! field; if either field is still missing after all lines, parsing fails.

use vstd::prelude::*;
use vstd::utf8::valid_utf8;
use crate::decimal::spec_parse_ticks;
use crate::decimal::parse_ticks;
use crate::text::lines;
use crate::text::lines_from;
use crate::text::read_line;

verus! {

/// One round's parsed measurement: mean observed delay and its standard
/// deviation, in ticks (ten-thousandths of a millisecond).
#[derive(Clone, Copy, Debug, PartialEq, Eq, Structural)]
pub struct MeasurementSample {
    pub mean_ticks: u64,
    pub stdev_ticks: u64,
}

/// Why the sampler's output was rejected.
#[derive(Clone, Copy, Debug, PartialEq, Eq, Structural)]
pub enum ParseError {
    /// The output is not valid text.
    Encoding,
    /// The mean or the standard-deviation line is absent.
    MissingField,
}

/// The label of the mean line: `Avg: `.
pub open spec fn mean_prefix() -> Seq<u8> {
    seq!['A' as u8, 'v' as u8, 'g' as u8, ':' as u8, ' ' as u8]
}

/// The label of the standard-deviation line: `STDEV: `.
pub open spec fn stdev_prefix() -> Seq<u8> {
    seq!['S' as u8, 'T' as u8, 'D' as u8, 'E' as u8, 'V' as u8, ':' as u8, ' ' as u8]
}

/// The value a line contributes under label `p`: the rest of the line
/// after the label, read as a millisecond literal.
pub open spec fn line_value(l: Seq<u8>, p: Seq<u8>) -> Option<u64> {
    if l.len() >= p.len() && l.subrange(0, p.len() as int) == p {
        spec_parse_ticks(l.skip(p.len() as int))
    } else {
        None
    }
}

/// The value of the first line that carries label `p` and parses.
pub open spec fn first_field(ls: Seq<Seq<u8>>, p: Seq<u8>) -> Option<u64>
    decreases ls.len(),
{
    if ls.len() == 0 {
        None
    } else if line_value(ls[0], p) is Some {
        line_value(ls[0], p)
    } else {
        first_field(ls.skip(1), p)
    }
}

/// The mean the sampler reported in `s`, if any.
pub open spec fn spec_mean(s: Seq<u8>) -> Option<u64> {
    first_field(lines(s), mean_prefix())
}

/// The standard deviation the sampler reported in `s`, if any.
pub open spec fn spec_stdev(s: Seq<u8>) -> Option<u64> {
    first_field(lines(s), stdev_prefix())
}

/// Relies on `core::str::from_utf8`: it returns `Ok` exactly when the
/// bytes are valid UTF-8.
#[verifier::external_body]
fn utf8_ok(bytes: &[u8]) -> (r: bool)
    ensures
        r == valid_utf8(bytes@),
{
    core::str::from_utf8(bytes).is_ok()
}

fn mean_value(l: &[u8]) -> (r: Option<u64>)
    ensures
        r == line_value(l@, mean_prefix()),
{
    if l.len() >= 5 && l[0] == 'A' as u8 && l[1] == 'v' as u8 && l[2] == 'g' as u8 && l[3] == ':'
        as u8 && l[4] == ' ' as u8 {
        proof {
            assert(l@.subrange(0, 5) =~= mean_prefix());
        }
        let rest = &l[5..l.len()];
        proof {
            assert(rest@ =~= l@.skip(5));
        }
        parse_ticks(rest)
    } else {
        proof {
            if l@.len() >= 5 && l@.subrange(0, 5) == mean_prefix() {
                assert(l@[0] == mean_prefix()[0]);
                assert(l@[1] == mean_prefix()[1]);
                assert(l@[2] == mean_prefix()[2]);
                assert(l@[3] == mean_prefix()[3]);
                assert(l@[4] == mean_prefix()[4]);
            }
        }
        None
    }
}

fn stdev_value(l: &[u8]) -> (r: Option<u64>)
    ensures
        r == line_value(l@, stdev_prefix()),
{
    if l.len() >= 7 && l[0] == 'S' as u8 && l[1] == 'T' as u8 && l[2] == 'D' as u8 && l[3] == 'E'
        as u8 && l[4] == 'V' as u8 && l[5] == ':' as u8 && l[6] == ' ' as u8 {
        proof {
            assert(l@.subrange(0, 7) =~= stdev_prefix());
        }
        let rest = &l[7..l.len()];
        proof {
            assert(rest@ =~= l@.skip(7));
        }
        parse_ticks(rest)
    } else {
        proof {
            if l@.len() >= 7 && l@.subrange(0, 7) == stdev_prefix() {
                assert(l@[0] == stdev_prefix()[0]);
                assert(l@[1] == stdev_prefix()[1]);
                assert(l@[2] == stdev_prefix()[2]);
                assert(l@[3] == stdev_prefix()[3]);
                assert(l@[4] == stdev_prefix()[4]);
                assert(l@[5] == stdev_prefix()[5]);
                assert(l@[6] == stdev_prefix()[6]);
            }
        }
        None
    }
}

/// Parses the sampler's raw output. Fails with `Encoding` when the bytes
/// are not text, with `MissingField` when either labelled line is absent;
/// otherwise returns exactly the first parsable value of each label,
/// whatever the order of the two lines.
pub fn parse_measurement_output(output: &[u8]) -> (r: Result<MeasurementSample, ParseError>)
    ensures
        !valid_utf8(output@) ==> r == Err::<MeasurementSample, ParseError>(ParseError::Encoding),
        valid_utf8(output@) ==> match r {
            Ok(m) => spec_mean(output@) == Some(m.mean_ticks) && spec_stdev(output@) == Some(
                m.stdev_ticks,
            ),
            Err(e) => e == ParseError::MissingField && (spec_mean(output@) is None || spec_stdev(
                output@,
            ) is None),
        },
{
    if !utf8_ok(output) {
        return Err(ParseError::Encoding);
    }
    let n = output.len();
    let mut mean: Option<u64> = None;
    let mut stdev: Option<u64> = None;
    let mut pos: usize = 0;
    while pos < n
        invariant
            0 <= pos <= n == output@.len(),
            spec_mean(output@) == if mean is Some {
                mean
            } else {
                first_field(lines_from(output@, pos as int), mean_prefix())
            },
            spec_stdev(output@) == if stdev is Some {
                stdev
            } else {
                first_field(lines_from(output@, pos as int), stdev_prefix())
            },
        ensures
            spec_mean(output@) == mean,
            spec_stdev(output@) == stdev,
        decreases n - pos,
    {
        let (line, next) = read_line(output, pos);
        proof {
            let rest = lines_from(output@, pos as int);
            let rest2 = lines_from(output@, next as int);
            assert(rest[0] == line@);
            assert(rest.skip(1) =~= rest2);
        }
        if mean.is_none() {
            let v = mean_value(line);
            if v.is_some() {
                mean = v;
            }
        }
        if stdev.is_none() {
            let v = stdev_value(line);
            if v.is_some() {
                stdev = v;
            }
        }
        pos = next;
        if mean.is_some() && stdev.is_some() {
            break;
        }
    }
    match (mean, stdev) {
        (Some(m), Some(sd)) => Ok(MeasurementSample { mean_ticks: m, stdev_ticks: sd }),
        _ => Err(ParseError::MissingField),
    }
}

} // verus!
