//! The durable results log: one header line, then one row per valid
//! round, `resolution,delta,stdev` with four fraction digits each.
//!
//! Rows are appended one at a time and never rewritten. Reading back
//! re-parses the whole log from the start, passing over the header
//! position and silently skipping rows that do not parse: the file may
//! have been hand-edited or cut short by a crash, and a truncated log is
//! still worth its valid rows.

use vstd::prelude::*;
use vstd::string::StrSliceExecFns;
use vstd::string::StringSliceAdditionalSpecFns;
use crate::decimal::is_ascii_digit;
use crate::decimal::spec_format_ticks;
use crate::decimal::format_ticks;
use crate::decimal::spec_parse_ticks;
use crate::decimal::parse_ticks;
use crate::decimal::lemma_ticks_round_trip;
use crate::decimal::lemma_format_ticks_bytes;
use crate::text::find_from;
use crate::text::lemma_find_from;
use crate::text::lemma_find_from_is;
use crate::text::find_byte;
use crate::text::chomp;
use crate::text::lines;
use crate::text::lines_from;
use crate::text::read_line;

verus! {

/// One recorded round: the requested resolution, the mean observed delta
/// and its standard deviation, in ticks.
#[derive(Clone, Copy, Debug, PartialEq, Eq, Structural)]
pub struct ResultRecord {
    pub resolution_ticks: u64,
    pub delta_ticks: u64,
    pub stdev_ticks: u64,
}

/// The header line of the results log, terminator included.
pub open spec fn spec_header_line() -> Seq<u8> {
    "RequestedResolutionMs,DeltaMs,StandardDeviation\n".spec_bytes()
}

/// The header row that opens a fresh log.
pub fn header_line() -> (r: Vec<u8>)
    ensures
        r@ == spec_header_line(),
{
    "RequestedResolutionMs,DeltaMs,StandardDeviation\n".as_bytes_vec()
}

/// A record rendered as one row, without the terminator.
pub open spec fn spec_record_fields(rec: ResultRecord) -> Seq<u8> {
    spec_format_ticks(rec.resolution_ticks as nat) + seq![44u8] + spec_format_ticks(
        rec.delta_ticks as nat,
    ) + seq![44u8] + spec_format_ticks(rec.stdev_ticks as nat)
}

/// A record rendered as one full row of the log.
pub open spec fn spec_format_record(rec: ResultRecord) -> Seq<u8> {
    spec_record_fields(rec) + seq![10u8]
}

/// Renders one row of the log, terminator included.
pub fn format_record(rec: &ResultRecord) -> (r: Vec<u8>)
    ensures
        r@ == spec_format_record(*rec),
{
    let mut out = format_ticks(rec.resolution_ticks);
    out.push(44);
    let mut t = format_ticks(rec.delta_ticks);
    out.append(&mut t);
    out.push(44);
    let mut t2 = format_ticks(rec.stdev_ticks);
    out.append(&mut t2);
    out.push(10);
    assert(out@ =~= spec_format_record(*rec));
    out
}

/// The record a row holds, if any: three millisecond literals separated
/// by exactly two commas.
pub open spec fn spec_parse_record(l: Seq<u8>) -> Option<ResultRecord> {
    let c1 = find_from(l, 0, 44);
    let c2 = find_from(l, c1 + 1, 44);
    if c1 == l.len() || c2 == l.len() || find_from(l, c2 + 1, 44) != l.len() {
        None
    } else {
        match (
            spec_parse_ticks(l.subrange(0, c1)),
            spec_parse_ticks(l.subrange(c1 + 1, c2)),
            spec_parse_ticks(l.subrange(c2 + 1, l.len() as int)),
        ) {
            (Some(a), Some(b), Some(c)) => Some(
                ResultRecord { resolution_ticks: a, delta_ticks: b, stdev_ticks: c },
            ),
            _ => None,
        }
    }
}

/// Reads one row back as a record, or nothing when the row is malformed.
pub fn parse_record(l: &[u8]) -> (r: Option<ResultRecord>)
    ensures
        r == spec_parse_record(l@),
{
    proof {
        lemma_find_from(l@, 0, 44);
    }
    let n = l.len();
    let c1 = find_byte(l, 0, 44);
    if c1 == n {
        return None;
    }
    proof {
        lemma_find_from(l@, c1 as int + 1, 44);
    }
    let c2 = find_byte(l, c1 + 1, 44);
    if c2 == n {
        return None;
    }
    proof {
        lemma_find_from(l@, c2 as int + 1, 44);
    }
    let c3 = find_byte(l, c2 + 1, 44);
    if c3 != n {
        return None;
    }
    let a = parse_ticks(&l[0..c1]);
    let b = parse_ticks(&l[c1 + 1..c2]);
    let c = parse_ticks(&l[c2 + 1..n]);
    match (a, b, c) {
        (Some(x), Some(y), Some(z)) => Some(
            ResultRecord { resolution_ticks: x, delta_ticks: y, stdev_ticks: z },
        ),
        _ => None,
    }
}

/// Records collected from a sequence of rows, unparsable ones skipped.
pub open spec fn collect_records(ls: Seq<Seq<u8>>) -> Seq<ResultRecord>
    decreases ls.len(),
{
    if ls.len() == 0 {
        Seq::empty()
    } else {
        match spec_parse_record(ls[0]) {
            Some(r) => seq![r] + collect_records(ls.skip(1)),
            None => collect_records(ls.skip(1)),
        }
    }
}

/// Everything a log holds: all rows after the header position that parse
/// as records, in order.
pub open spec fn spec_read_all(s: Seq<u8>) -> Seq<ResultRecord> {
    if lines(s).len() == 0 {
        Seq::empty()
    } else {
        collect_records(lines(s).skip(1))
    }
}

/// Re-reads a whole log. The first line is the header position and is
/// never a record; of the rest, every row that parses is kept, in order,
/// and malformed rows are skipped in silence.
pub fn read_all(s: &[u8]) -> (r: Vec<ResultRecord>)
    ensures
        r@ == spec_read_all(s@),
{
    let mut out: Vec<ResultRecord> = Vec::new();
    let n = s.len();
    if n == 0 {
        return out;
    }
    let (_, first_next) = read_line(s, 0);
    let mut pos = first_next;
    proof {
        assert(lines(s@).skip(1) =~= lines_from(s@, pos as int));
    }
    while pos < n
        invariant
            pos <= n == s@.len(),
            spec_read_all(s@) == out@ + collect_records(lines_from(s@, pos as int)),
        decreases n - pos,
    {
        let (line, next) = read_line(s, pos);
        proof {
            let rest = lines_from(s@, pos as int);
            assert(rest[0] == line@);
            assert(rest.skip(1) =~= lines_from(s@, next as int));
        }
        match parse_record(line) {
            Some(rec) => {
                out.push(rec);
            },
            None => {},
        }
        proof {
            assert(spec_read_all(s@) =~= out@ + collect_records(
                lines_from(s@, next as int),
            ));
        }
        pos = next;
    }
    proof {
        assert(out@ =~= spec_read_all(s@));
    }
    out
}

/// Every byte of a rendered row body is a digit, the dot or the comma.
proof fn lemma_record_fields_bytes(rec: ResultRecord)
    ensures
        forall|i: int|
            0 <= i < spec_record_fields(rec).len() ==> (is_ascii_digit(
                #[trigger] spec_record_fields(rec)[i],
            ) || spec_record_fields(rec)[i] == 46 || spec_record_fields(rec)[i] == 44),
{
    let f = spec_record_fields(rec);
    let r1 = spec_format_ticks(rec.resolution_ticks as nat);
    let r2 = spec_format_ticks(rec.delta_ticks as nat);
    let r3 = spec_format_ticks(rec.stdev_ticks as nat);
    lemma_format_ticks_bytes(rec.resolution_ticks as nat);
    lemma_format_ticks_bytes(rec.delta_ticks as nat);
    lemma_format_ticks_bytes(rec.stdev_ticks as nat);
    let k1 = r1.len() as int;
    let k2 = k1 + 1 + r2.len() as int;
    assert forall|i: int|
        0 <= i < f.len() implies (is_ascii_digit(f[i]) || f[i] == 46 || f[i] == 44) by {
        if i < k1 {
            assert(f[i] == r1[i]);
        } else if i == k1 {
        } else if i < k2 {
            assert(f[i] == r2[i - k1 - 1]);
        } else if i == k2 {
        } else {
            assert(f[i] == r3[i - k2 - 1]);
        }
    }
}

/// A rendered row body reads back as exactly its record.
pub proof fn lemma_record_round_trip(rec: ResultRecord)
    ensures
        spec_parse_record(spec_record_fields(rec)) == Some(rec),
{
    let f = spec_record_fields(rec);
    let r1 = spec_format_ticks(rec.resolution_ticks as nat);
    let r2 = spec_format_ticks(rec.delta_ticks as nat);
    let r3 = spec_format_ticks(rec.stdev_ticks as nat);
    lemma_format_ticks_bytes(rec.resolution_ticks as nat);
    lemma_format_ticks_bytes(rec.delta_ticks as nat);
    lemma_format_ticks_bytes(rec.stdev_ticks as nat);
    let k1 = r1.len() as int;
    let k2 = k1 + 1 + r2.len() as int;
    assert(f[k1] == 44 && f[k2] == 44);
    assert forall|j: int| 0 <= j < k1 implies f[j] != 44 by {
        assert(f[j] == r1[j]);
    }
    lemma_find_from_is(f, 0, 44, k1);
    assert forall|j: int| k1 + 1 <= j < k2 implies f[j] != 44 by {
        assert(f[j] == r2[j - k1 - 1]);
    }
    lemma_find_from_is(f, k1 + 1, 44, k2);
    assert forall|j: int| k2 + 1 <= j < f.len() implies f[j] != 44 by {
        assert(f[j] == r3[j - k2 - 1]);
    }
    lemma_find_from_is(f, k2 + 1, 44, f.len() as int);
    assert(f.subrange(0, k1) =~= r1);
    assert(f.subrange(k1 + 1, k2) =~= r2);
    assert(f.subrange(k2 + 1, f.len() as int) =~= r3);
    lemma_ticks_round_trip(rec.resolution_ticks);
    lemma_ticks_round_trip(rec.delta_ticks);
    lemma_ticks_round_trip(rec.stdev_ticks);
}

/// A log body: the rendered rows of `recs`, one after the other.
pub open spec fn spec_log_body(recs: Seq<ResultRecord>) -> Seq<u8>
    decreases recs.len(),
{
    if recs.len() == 0 {
        Seq::empty()
    } else {
        spec_format_record(recs[0]) + spec_log_body(recs.skip(1))
    }
}

proof fn lemma_find_from_shift(a: Seq<u8>, b: Seq<u8>, j: int, c: u8)
    requires
        0 <= j <= b.len(),
    ensures
        find_from(a + b, a.len() + j, c) == a.len() + find_from(b, j, c),
    decreases b.len() - j,
{
    let s = a + b;
    if j < b.len() {
        assert(s[a.len() + j] == b[j]);
        if b[j] != c {
            lemma_find_from_shift(a, b, j + 1, c);
        }
    }
}

proof fn lemma_lines_from_shift(a: Seq<u8>, b: Seq<u8>, j: int)
    requires
        0 <= j <= b.len(),
    ensures
        lines_from(a + b, a.len() + j) == lines_from(b, j),
    decreases b.len() - j,
{
    let s = a + b;
    if j < b.len() {
        lemma_find_from(b, j, 10);
        lemma_find_from_shift(a, b, j, 10);
        let e = find_from(b, j, 10);
        assert(s.subrange(a.len() + j, a.len() + e) =~= b.subrange(j, e));
        if e < b.len() {
            lemma_lines_from_shift(a, b, e + 1);
        } else {
            assert(lines_from(s, a.len() + e + 1) =~= lines_from(b, e + 1));
        }
        assert(lines_from(s, a.len() + j) =~= lines_from(b, j));
    }
}

/// Splitting off a terminator-free first row.
proof fn lemma_lines_prepend(row: Seq<u8>, rest: Seq<u8>)
    requires
        forall|i: int| 0 <= i < row.len() ==> row[i] != 10,
    ensures
        lines(row + seq![10u8] + rest) == seq![chomp(row)] + lines(rest),
    decreases rest.len(),
{
    let s = row + seq![10u8] + rest;
    assert forall|j: int| 0 <= j < row.len() implies s[j] != 10 by {
        assert(s[j] == row[j]);
    }
    assert(s[row.len() as int] == 10);
    lemma_find_from_is(s, 0, 10, row.len() as int);
    assert(s.subrange(0, row.len() as int) =~= row);
    assert(s =~= (row + seq![10u8]) + rest);
    lemma_lines_from_shift(row + seq![10u8], rest, 0);
    assert(lines(s) =~= seq![chomp(row)] + lines(rest));
}

/// The rows of a rendered log body read back as exactly its records.
proof fn lemma_log_body_reads(recs: Seq<ResultRecord>)
    ensures
        collect_records(lines(spec_log_body(recs))) == recs,
    decreases recs.len(),
{
    if recs.len() == 0 {
        assert(lines(spec_log_body(recs)) =~= Seq::<Seq<u8>>::empty());
    } else {
        let r0 = recs[0];
        let fields = spec_record_fields(r0);
        let body = spec_log_body(recs);
        let tail = spec_log_body(recs.skip(1));
        lemma_record_fields_bytes(r0);
        assert(body =~= fields + seq![10u8] + tail);
        lemma_lines_prepend(fields, tail);
        assert(chomp(fields) == fields) by {
            if fields.len() > 0 {
                assert(fields.last() == fields[fields.len() - 1]);
            }
        }
        let ls = lines(body);
        assert(ls[0] == fields);
        assert(ls.skip(1) =~= lines(tail));
        lemma_record_round_trip(r0);
        lemma_log_body_reads(recs.skip(1));
        assert(collect_records(ls) =~= recs);
    }
}

/// The header line is one full row: no terminator inside, one at the end.
proof fn lemma_header_shape()
    ensures
        spec_header_line().len() == 48,
        spec_header_line().last() == 10,
        forall|i: int| 0 <= i < 47 ==> #[trigger] spec_header_line()[i] != 10,
{
    let h = "RequestedResolutionMs,DeltaMs,StandardDeviation\n";
    reveal_strlit("RequestedResolutionMs,DeltaMs,StandardDeviation\n");
    assert(h.is_ascii());
    vstd::string::is_ascii_spec_bytes(h);
    assert(spec_header_line() =~= Seq::new(h@.len(), |i: int| h@.index(i) as u8));
    assert forall|i: int| 0 <= i < 47 implies #[trigger] spec_header_line()[i] != 10 by {
        assert(spec_header_line()[i] == h@[i] as u8);
    }
}

/// Law: a log written as the header followed by the rendered rows of
/// `recs` reads back as exactly `recs` - every stored record comes back
/// unchanged, to the full four fraction digits.
pub proof fn lemma_store_round_trip(recs: Seq<ResultRecord>)
    ensures
        spec_read_all(spec_header_line() + spec_log_body(recs)) == recs,
{
    lemma_header_shape();
    let h = spec_header_line();
    let row = h.drop_last();
    assert(h + spec_log_body(recs) =~= row + seq![10u8] + spec_log_body(recs));
    assert forall|i: int| 0 <= i < row.len() implies row[i] != 10 by {
        assert(row[i] == h[i]);
    }
    lemma_lines_prepend(row, spec_log_body(recs));
    lemma_log_body_reads(recs);
    let s = h + spec_log_body(recs);
    assert(lines(s).skip(1) =~= lines(spec_log_body(recs)));
}

} // verus!
