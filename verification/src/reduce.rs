//! Reducing the recorded rounds to the optimal resolution.
//!
//! One pass over the records: the running best is replaced only by a
//! record with a strictly lower mean delta, or the same delta and a
//! strictly lower deviation. Among records tied on both criteria the
//! first one recorded - the lowest resolution, in sweep order - wins.

use vstd::prelude::*;
use crate::store::ResultRecord;

verus! {

/// Record `a` beats record `b`: a strictly lower mean delta, or the same
/// delta with a strictly lower deviation.
pub open spec fn beats(a: ResultRecord, b: ResultRecord) -> bool {
    a.delta_ticks < b.delta_ticks || (a.delta_ticks == b.delta_ticks && a.stdev_ticks
        < b.stdev_ticks)
}

/// The single-pass reduction, seeded empty: nothing for no records, else
/// the running best, replaced only when strictly beaten.
pub open spec fn spec_reduce(s: Seq<ResultRecord>) -> Option<ResultRecord>
    decreases s.len(),
{
    if s.len() == 0 {
        None
    } else {
        match spec_reduce(s.drop_last()) {
            None => Some(s.last()),
            Some(b) => if beats(s.last(), b) {
                Some(s.last())
            } else {
                Some(b)
            },
        }
    }
}

/// Picks the optimal record. Nothing comes back exactly when no round
/// was recorded - an empty sweep surfaces as this distinct condition,
/// never as some default record.
pub fn reduce(records: &Vec<ResultRecord>) -> (r: Option<ResultRecord>)
    ensures
        r == spec_reduce(records@),
        r is None <==> records@.len() == 0,
{
    let n = records.len();
    let mut best: Option<ResultRecord> = None;
    let mut i: usize = 0;
    while i < n
        invariant
            i <= n == records@.len(),
            best == spec_reduce(records@.subrange(0, i as int)),
        decreases n - i,
    {
        let rec = records[i];
        proof {
            assert(records@.subrange(0, i as int + 1).drop_last() =~= records@.subrange(
                0,
                i as int,
            ));
            assert(records@.subrange(0, i as int + 1).last() == records@[i as int]);
        }
        best = match best {
            None => Some(rec),
            Some(b) => {
                if rec.delta_ticks < b.delta_ticks || (rec.delta_ticks == b.delta_ticks
                    && rec.stdev_ticks < b.stdev_ticks) {
                    Some(rec)
                } else {
                    Some(b)
                }
            },
        };
        i += 1;
    }
    proof {
        assert(records@.subrange(0, n as int) =~= records@);
    }
    best
}

/// The one failure of the reduction stage: no valid round was recorded.
#[derive(Clone, Copy, Debug, PartialEq, Eq, Structural)]
pub enum ReduceError {
    EmptyResultSet,
}

/// Selects the optimal record, surfacing an empty record set as the
/// distinct fatal condition it is - never as a default record.
pub fn select_optimal(records: &Vec<ResultRecord>) -> (r: Result<ResultRecord, ReduceError>)
    ensures
        records@.len() == 0 ==> r == Err::<ResultRecord, ReduceError>(ReduceError::EmptyResultSet),
        records@.len() > 0 ==> r == Ok::<ResultRecord, ReduceError>(spec_reduce(records@)->Some_0),
{
    match reduce(records) {
        Some(best) => Ok(best),
        None => Err(ReduceError::EmptyResultSet),
    }
}

/// Law: the reduction returns the record at the first index that no
/// other record beats - it strictly beats everything before it, and
/// nothing anywhere beats it.
pub proof fn lemma_reduce_picks_first_best(s: Seq<ResultRecord>, r: ResultRecord)
    requires
        spec_reduce(s) == Some(r),
    ensures
        exists|i: int|
            {
                &&& 0 <= i < s.len()
                &&& r == s[i]
                &&& (forall|j: int| 0 <= j < i ==> beats(s[i], #[trigger] s[j]))
                &&& (forall|j: int| 0 <= j < s.len() ==> !beats(#[trigger] s[j], s[i]))
            },
    decreases s.len(),
{
    let t = s.drop_last();
    let x = s.last();
    if t.len() == 0 {
        assert(r == x && r == s[0]);
        assert({
            &&& 0 <= 0 < s.len()
            &&& r == s[0]
            &&& (forall|j: int| 0 <= j < 0 ==> beats(s[0], #[trigger] s[j]))
            &&& (forall|j: int| 0 <= j < s.len() ==> !beats(#[trigger] s[j], s[0]))
        });
    } else {
        let b = spec_reduce(t)->Some_0;
        lemma_reduce_picks_first_best(t, b);
        let it = choose|i: int|
            {
                &&& 0 <= i < t.len()
                &&& b == t[i]
                &&& (forall|j: int| 0 <= j < i ==> beats(t[i], #[trigger] t[j]))
                &&& (forall|j: int| 0 <= j < t.len() ==> !beats(#[trigger] t[j], t[i]))
            };
        assert(forall|j: int| 0 <= j < t.len() ==> t[j] == s[j]);
        if beats(x, b) {
            let i = s.len() - 1;
            assert forall|j: int| 0 <= j < i implies beats(s[i], #[trigger] s[j]) by {
                assert(!beats(t[j], b));
            }
            assert(forall|j: int| 0 <= j < s.len() ==> !beats(#[trigger] s[j], s[i]));
            assert({
                &&& 0 <= i < s.len()
                &&& r == s[i]
                &&& (forall|j: int| 0 <= j < i ==> beats(s[i], #[trigger] s[j]))
                &&& (forall|j: int| 0 <= j < s.len() ==> !beats(#[trigger] s[j], s[i]))
            });
        } else {
            assert(r == b && r == s[it]);
            assert({
                &&& 0 <= it < s.len()
                &&& r == s[it]
                &&& (forall|j: int| 0 <= j < it ==> beats(s[it], #[trigger] s[j]))
                &&& (forall|j: int| 0 <= j < s.len() ==> !beats(#[trigger] s[j], s[it]))
            });
        }
    }
}

/// Law: no record recorded before the winner carries the winner's exact
/// (delta, deviation) pair - among fully tied records, the earliest one
/// is selected.
pub proof fn lemma_reduce_tie_keeps_first(s: Seq<ResultRecord>, r: ResultRecord)
    requires
        spec_reduce(s) == Some(r),
    ensures
        exists|i: int|
            {
                &&& 0 <= i < s.len()
                &&& r == s[i]
                &&& (forall|j: int|
                    0 <= j < i ==> !((#[trigger] s[j]).delta_ticks == r.delta_ticks
                        && s[j].stdev_ticks == r.stdev_ticks))
            },
{
    lemma_reduce_picks_first_best(s, r);
    let i = choose|i: int|
        {
            &&& 0 <= i < s.len()
            &&& r == s[i]
            &&& (forall|j: int| 0 <= j < i ==> beats(s[i], #[trigger] s[j]))
            &&& (forall|j: int| 0 <= j < s.len() ==> !beats(#[trigger] s[j], s[i]))
        };
    assert({
        &&& 0 <= i < s.len()
        &&& r == s[i]
        &&& (forall|j: int|
            0 <= j < i ==> !((#[trigger] s[j]).delta_ticks == r.delta_ticks && s[j].stdev_ticks
                == r.stdev_ticks))
    });
}

/// Law: which (delta, deviation) pair wins does not depend on the order
/// of the records, only on what was recorded - any permutation of the
/// input yields a winner tied on both criteria, so reordering can only
/// exchange fully tied records.
pub proof fn lemma_reduce_permutation(
    s1: Seq<ResultRecord>,
    s2: Seq<ResultRecord>,
    r1: ResultRecord,
    r2: ResultRecord,
)
    requires
        s1.to_multiset() == s2.to_multiset(),
        spec_reduce(s1) == Some(r1),
        spec_reduce(s2) == Some(r2),
    ensures
        r1.delta_ticks == r2.delta_ticks,
        r1.stdev_ticks == r2.stdev_ticks,
{
    broadcast use vstd::seq_lib::group_to_multiset_ensures;

    lemma_reduce_picks_first_best(s1, r1);
    lemma_reduce_picks_first_best(s2, r2);
    assert(s1.contains(r1));
    assert(s2.contains(r2));
    assert(s2.to_multiset().count(r1) > 0);
    assert(s2.contains(r1));
    let k1 = choose|k: int| 0 <= k < s2.len() && s2[k] == r1;
    assert(!beats(s2[k1], r2));
    assert(s1.to_multiset().count(r2) > 0);
    assert(s1.contains(r2));
    let k2 = choose|k: int| 0 <= k < s1.len() && s1[k] == r2;
    assert(!beats(s1[k2], r1));
}

/// The first recorded row carrying this resolution, if any; the summary
/// marks it as the optimal row.
pub fn find_resolution_index(records: &Vec<ResultRecord>, resolution_ticks: u64) -> (r: Option<
    usize,
>)
    ensures
        match r {
            Some(i) => {
                &&& i < records@.len()
                &&& records@[i as int].resolution_ticks == resolution_ticks
                &&& forall|j: int|
                    0 <= j < i ==> (#[trigger] records@[j]).resolution_ticks != resolution_ticks
            },
            None => forall|j: int|
                0 <= j < records@.len() ==> (#[trigger] records@[j]).resolution_ticks
                    != resolution_ticks,
        },
{
    let n = records.len();
    let mut i: usize = 0;
    while i < n
        invariant
            i <= n == records@.len(),
            forall|j: int|
                0 <= j < i ==> (#[trigger] records@[j]).resolution_ticks != resolution_ticks,
        decreases n - i,
    {
        if records[i].resolution_ticks == resolution_ticks {
            return Some(i);
        }
        i += 1;
    }
    None
}

} // verus!
