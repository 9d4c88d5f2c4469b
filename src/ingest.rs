//! The write side: a batch of samples split into one sub-batch per UTC day,
//! and the outcome of writing those sub-batches.

use vstd::prelude::*;
use crate::calendar::CivilDate;
use crate::clock::{parse_rfc3339, rfc3339_instant_of};
use crate::errors::StoreError;
use crate::record::ProbeDataPoint;
use crate::text::{push_str, string_of};

verus! {

/// The samples of one day partition, in batch order.
#[derive(Debug)]
pub struct DayBatch {
    pub date: CivilDate,
    pub records: Vec<ProbeDataPoint>,
}

/// The samples among the first `n` whose day is `d`, in order.
pub open spec fn rows_on(rows: Seq<ProbeDataPoint>, days: Seq<CivilDate>, d: CivilDate, n: int) -> Seq<ProbeDataPoint>
    decreases n,
{
    if n <= 0 {
        seq![]
    } else if days[n - 1] == d {
        rows_on(rows, days, d, n - 1).push(rows[n - 1])
    } else {
        rows_on(rows, days, d, n - 1)
    }
}

/// Some sample falls on day `d`.
pub open spec fn day_seen(days: Seq<CivilDate>, d: CivilDate) -> bool {
    exists|q: int| 0 <= q < days.len() && #[trigger] days[q] == d
}

/// Some sub-batch is for day `d`.
pub open spec fn has_day(r: Seq<DayBatch>, d: CivilDate) -> bool {
    exists|a: int| 0 <= a < r.len() && #[trigger] r[a].date == d
}

/// Sub-batches for distinct days, each with exactly the samples of its day in
/// batch order, and one for every day that a sample falls on.
pub open spec fn split_by_day(rows: Seq<ProbeDataPoint>, days: Seq<CivilDate>, r: Seq<DayBatch>) -> bool {
    &&& forall|a: int, b: int| 0 <= a < b < r.len() ==> r[a].date != r[b].date
    &&& forall|a: int|
        0 <= a < r.len() ==> (#[trigger] r[a]).records@ == rows_on(rows, days, r[a].date, rows.len() as int)
            && r[a].records@.len() > 0
    &&& forall|m: int| 0 <= m < rows.len() ==> has_day(r, #[trigger] days[m])
}

proof fn lemma_rows_on_nonempty(rows: Seq<ProbeDataPoint>, days: Seq<CivilDate>, m: int, n: int)
    requires
        0 <= m < n <= rows.len(),
        days.len() == rows.len(),
    ensures
        rows_on(rows, days, days[m], n).len() > 0,
    decreases n,
{
    if m < n - 1 {
        lemma_rows_on_nonempty(rows, days, m, n - 1);
    }
}

/// Splits a batch by the given day of each sample (see `split_by_day`).
pub fn group_by_day(rows: &Vec<ProbeDataPoint>, days: &Vec<CivilDate>) -> (r: Vec<DayBatch>)
    requires
        rows@.len() == days@.len(),
    ensures
        split_by_day(rows@, days@, r@),
        (forall|m: int| 0 <= m < days@.len() ==> (#[trigger] days@[m]).wf()) ==> forall|a: int|
            0 <= a < r@.len() ==> (#[trigger] r@[a]).date.wf(),
{
    let mut distinct: Vec<CivilDate> = Vec::new();
    let mut m: usize = 0;
    while m < days.len()
        invariant
            m <= days@.len(),
            forall|a: int, b: int| 0 <= a < b < distinct@.len() ==> distinct@[a] != distinct@[b],
            forall|q: int| 0 <= q < m ==> distinct@.contains(#[trigger] days@[q]),
            forall|a: int| 0 <= a < distinct@.len() ==> day_seen(days@, #[trigger] distinct@[a]),
        decreases days@.len() - m,
    {
        let d = days[m];
        let mut a: usize = 0;
        let mut found = false;
        while a < distinct.len()
            invariant
                a <= distinct@.len(),
                found ==> distinct@.contains(d),
                !found ==> forall|x: int| 0 <= x < a ==> distinct@[x] != d,
            decreases distinct@.len() - a,
        {
            if distinct[a] == d {
                found = true;
            }
            a = a + 1;
        }
        if !found {
            let ghost before = distinct@;
            distinct.push(d);
            proof {
                assert forall|q: int| 0 <= q < m + 1 implies distinct@.contains(#[trigger] days@[q]) by {
                    if q < m {
                        assert(before.contains(days@[q]));
                        let x = choose|x: int| 0 <= x < before.len() && before[x] == days@[q];
                        assert(distinct@[x] == days@[q]);
                    } else {
                        assert(distinct@[before.len() as int] == d);
                    }
                }
                assert forall|a: int| 0 <= a < distinct@.len() implies day_seen(days@, #[trigger] distinct@[a]) by {
                    if a == before.len() {
                        assert(days@[m as int] == distinct@[a]);
                    } else {
                        assert(distinct@[a] == before[a]);
                    }
                }
            }
        }
        m = m + 1;
    }
    let mut out: Vec<DayBatch> = Vec::new();
    let mut a: usize = 0;
    while a < distinct.len()
        invariant
            a <= distinct@.len(),
            rows@.len() == days@.len(),
            out@.len() == a,
            forall|x: int, y: int| 0 <= x < y < distinct@.len() ==> distinct@[x] != distinct@[y],
            forall|x: int| 0 <= x < distinct@.len() ==> day_seen(days@, #[trigger] distinct@[x]),
            forall|x: int| 0 <= x < a ==> (#[trigger] out@[x]).date == distinct@[x],
            forall|x: int|
                0 <= x < a ==> (#[trigger] out@[x]).records@ == rows_on(rows@, days@, out@[x].date, rows@.len() as int)
                    && out@[x].records@.len() > 0,
        decreases distinct@.len() - a,
    {
        let d = distinct[a];
        let mut recs: Vec<ProbeDataPoint> = Vec::new();
        let mut q: usize = 0;
        while q < rows.len()
            invariant
                q <= rows@.len(),
                rows@.len() == days@.len(),
                recs@ == rows_on(rows@, days@, d, q as int),
            decreases rows@.len() - q,
        {
            if days[q] == d {
                recs.push(rows[q].duplicate());
            }
            q = q + 1;
        }
        proof {
            assert(day_seen(days@, distinct@[a as int]));
            let w = choose|w: int| 0 <= w < days@.len() && #[trigger] days@[w] == distinct@[a as int];
            lemma_rows_on_nonempty(rows@, days@, w, rows@.len() as int);
        }
        out.push(DayBatch { date: d, records: recs });
        a = a + 1;
    }
    proof {
        if forall|m: int| 0 <= m < days@.len() ==> (#[trigger] days@[m]).wf() {
            assert forall|x: int| 0 <= x < out@.len() implies (#[trigger] out@[x]).date.wf() by {
                assert(day_seen(days@, distinct@[x]));
                let w = choose|w: int| 0 <= w < days@.len() && #[trigger] days@[w] == distinct@[x];
            }
        }
        assert forall|m: int| 0 <= m < rows@.len() implies has_day(out@, #[trigger] days@[m]) by {
            assert(distinct@.contains(days@[m]));
            let x = choose|x: int| 0 <= x < distinct@.len() && distinct@[x] == days@[m];
            assert(out@[x].date == days@[m]);
        }
    }
    out
}

/// The UTC day of each sample's timestamp, where every timestamp can be read.
pub open spec fn days_of(rows: Seq<ProbeDataPoint>) -> Option<Seq<CivilDate>>
    decreases rows.len(),
{
    if rows.len() == 0 {
        Some(seq![])
    } else {
        match (days_of(rows.drop_last()), rfc3339_instant_of(rows.last().timestamp@)) {
            (Some(s), Some(i)) => Some(s.push(i.date)),
            _ => None,
        }
    }
}

/// Splits a batch into one sub-batch per UTC day of the samples' timestamps.
/// A batch with a timestamp that cannot be read is refused whole, before
/// anything is written.
pub fn partition_batch(rows: &Vec<ProbeDataPoint>) -> (r: Result<Vec<DayBatch>, StoreError>)
    ensures
        match r {
            Ok(parts) => days_of(rows@) matches Some(days) && split_by_day(rows@, days, parts@)
                && forall|a: int| 0 <= a < parts@.len() ==> (#[trigger] parts@[a]).date.wf(),
            Err(e) => days_of(rows@) is None && e is InvalidQuery,
        },
{
    let mut days: Vec<CivilDate> = Vec::new();
    let mut m: usize = 0;
    while m < rows.len()
        invariant
            m <= rows@.len(),
            days_of(rows@.take(m as int)) == Some(days@),
            forall|q: int| 0 <= q < days@.len() ==> (#[trigger] days@[q]).wf(),
        decreases rows@.len() - m,
    {
        assert(rows@.take(m + 1).drop_last() =~= rows@.take(m as int));
        match parse_rfc3339(rows[m].timestamp.as_str()) {
            Some(i) => {
                days.push(i.date);
            },
            None => {
                proof { lemma_days_of_prefix_none(rows@, m as int + 1); }
                let mut msg: Vec<char> = Vec::new();
                push_str(&mut msg, "Invalid timestamp: ");
                push_str(&mut msg, rows[m].timestamp.as_str());
                return Err(StoreError::InvalidQuery(string_of(&msg)));
            },
        }
        m = m + 1;
    }
    assert(rows@.take(rows@.len() as int) =~= rows@);
    proof { lemma_days_of_len(rows@); }
    Ok(group_by_day(rows, &days))
}

proof fn lemma_days_of_len(rows: Seq<ProbeDataPoint>)
    ensures
        days_of(rows) matches Some(d) ==> d.len() == rows.len(),
    decreases rows.len(),
{
    if rows.len() > 0 {
        lemma_days_of_len(rows.drop_last());
    }
}

proof fn lemma_days_of_prefix_none(rows: Seq<ProbeDataPoint>, n: int)
    requires
        0 <= n <= rows.len(),
        days_of(rows.take(n)) is None,
    ensures
        days_of(rows) is None,
    decreases rows.len() - n,
{
    if n < rows.len() {
        assert(rows.take(n + 1).drop_last() =~= rows.take(n));
        lemma_days_of_prefix_none(rows, n + 1);
    } else {
        assert(rows.take(n) =~= rows);
    }
}

/// The days whose sub-batch could not be written; the others were committed.
#[derive(Debug, PartialEq, Eq)]
pub struct IngestError {
    pub failed: Vec<CivilDate>,
}

pub open spec fn failed_days(results: Seq<(CivilDate, bool)>) -> Seq<CivilDate>
    decreases results.len(),
{
    if results.len() == 0 {
        seq![]
    } else if !results.last().1 {
        failed_days(results.drop_last()).push(results.last().0)
    } else {
        failed_days(results.drop_last())
    }
}

/// The outcome of an ingest from the outcome of each day's write (`true`
/// where it was committed): success where every write was, else the failed
/// days, in order.
pub fn ingest_outcome(results: &Vec<(CivilDate, bool)>) -> (r: Result<(), IngestError>)
    ensures
        match r {
            Ok(()) => failed_days(results@).len() == 0,
            Err(e) => e.failed@ == failed_days(results@) && e.failed@.len() > 0,
        },
{
    let mut failed: Vec<CivilDate> = Vec::new();
    let mut m: usize = 0;
    while m < results.len()
        invariant
            m <= results@.len(),
            failed@ == failed_days(results@.take(m as int)),
        decreases results@.len() - m,
    {
        assert(results@.take(m + 1).drop_last() =~= results@.take(m as int));
        if !results[m].1 {
            failed.push(results[m].0);
        }
        m = m + 1;
    }
    assert(results@.take(results@.len() as int) =~= results@);
    if failed.len() == 0 {
        Ok(())
    } else {
        Err(IngestError { failed })
    }
}

} // verus!
