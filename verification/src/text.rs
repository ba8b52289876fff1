//! Byte-level text helpers shared by the parsers: first occurrence of a
//! byte, and splitting a buffer into lines.
//!
//! A line ends at a line feed; a single carriage return just before the
//! line feed is not part of the line.

use vstd::prelude::*;

verus! {

/// Index of the first occurrence of `b` in `s` at or after `from`,
/// or `s.len()` when there is none.
pub open spec fn find_from(s: Seq<u8>, from: int, b: u8) -> int
    decreases s.len() - from,
{
    if from < 0 || from >= s.len() {
        s.len() as int
    } else if s[from] == b {
        from
    } else {
        find_from(s, from + 1, b)
    }
}

pub proof fn lemma_find_from(s: Seq<u8>, from: int, b: u8)
    requires
        0 <= from <= s.len(),
    ensures
        from <= find_from(s, from, b) <= s.len(),
        find_from(s, from, b) < s.len() ==> s[find_from(s, from, b)] == b,
        forall|j: int| from <= j < find_from(s, from, b) ==> s[j] != b,
    decreases s.len() - from,
{
    if from < s.len() && s[from] != b {
        lemma_find_from(s, from + 1, b);
    }
}

/// The first occurrence is pinned down by the bytes before it.
pub proof fn lemma_find_from_is(s: Seq<u8>, from: int, b: u8, k: int)
    requires
        0 <= from <= k <= s.len(),
        forall|j: int| from <= j < k ==> s[j] != b,
        k < s.len() ==> s[k] == b,
    ensures
        find_from(s, from, b) == k,
    decreases k - from,
{
    if from < k {
        lemma_find_from_is(s, from + 1, b, k);
    }
}

/// Exec search for the first occurrence of `b` at or after `from`.
pub fn find_byte(s: &[u8], from: usize, b: u8) -> (r: usize)
    requires
        from <= s@.len(),
    ensures
        r == find_from(s@, from as int, b),
{
    let n = s.len();
    let mut i = from;
    while i < n
        invariant
            from <= i <= n == s@.len(),
            forall|j: int| from <= j < i ==> s@[j] != b,
        decreases n - i,
    {
        if s[i] == b {
            proof {
                lemma_find_from_is(s@, from as int, b, i as int);
            }
            return i;
        }
        i += 1;
    }
    proof {
        lemma_find_from_is(s@, from as int, b, n as int);
    }
    n
}

/// A line with a trailing carriage return stripped.
pub open spec fn chomp(l: Seq<u8>) -> Seq<u8> {
    if l.len() > 0 && l.last() == 13 {
        l.drop_last()
    } else {
        l
    }
}

/// The lines of `s` from byte `i` on, split at line feeds, each without
/// its terminator. A final line without a terminator counts too.
pub open spec fn lines_from(s: Seq<u8>, i: int) -> Seq<Seq<u8>>
    decreases s.len() - i + 1,
        via lines_from_decreases
{
    if i < 0 || i >= s.len() {
        Seq::empty()
    } else {
        let e = find_from(s, i, 10);
        seq![chomp(s.subrange(i, e))] + lines_from(s, e + 1)
    }
}

#[via_fn]
proof fn lines_from_decreases(s: Seq<u8>, i: int) {
    if 0 <= i < s.len() {
        lemma_find_from(s, i, 10);
    }
}

/// All lines of `s`.
pub open spec fn lines(s: Seq<u8>) -> Seq<Seq<u8>> {
    lines_from(s, 0)
}

/// Reads the line starting at byte `pos` and returns it together with the
/// position right after its terminator (or the end of the buffer).
pub fn read_line<'a>(s: &'a [u8], pos: usize) -> (r: (&'a [u8], usize))
    requires
        pos < s@.len(),
    ensures
        pos < r.1 <= s@.len(),
        lines_from(s@, pos as int) == seq![r.0@] + lines_from(s@, r.1 as int),
        r.0@ == lines_from(s@, pos as int)[0],
{
    proof {
        lemma_find_from(s@, pos as int, 10);
    }
    let e = find_byte(s, pos, 10);
    let next = if e == s.len() { e } else { e + 1 };
    let mut end = e;
    if end > pos && s[end - 1] == 13 {
        end = end - 1;
    }
    let line = &s[pos..end];
    proof {
        let ghost full = s@.subrange(pos as int, e as int);
        if end < e {
            assert(full.last() == 13);
            assert(line@ =~= chomp(full));
        } else {
            assert(line@ =~= chomp(full));
        }
        if e == s@.len() {
            assert(lines_from(s@, e as int + 1) =~= lines_from(s@, next as int));
        }
        assert(lines_from(s@, pos as int) == seq![line@] + lines_from(s@, next as int));
    }
    (line, next)
}

} // verus!
