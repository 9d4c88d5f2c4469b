//! Series grouping: rows named `<prefix><index>_<field>` become one series per
//! index (per core, per interface, per disk).

use vstd::prelude::*;
use crate::calendar::{digits_value, all_digits, pow10, lemma_pow10_bound};
use crate::chart::MetricPoint;
use crate::clock::{parse_rfc3339, rfc3339_instant_of};
use crate::record::ProbeDataPoint;
use crate::text::{chars_of, digit_value};
use crate::values::{milli_of, parse_milli};

verus! {

/// Index of the first `_` in `s`, or its length.
pub open spec fn underscore_at(s: Seq<char>) -> int
    decreases s.len(),
{
    if s.len() == 0 {
        0
    } else if s[0] == '_' {
        0
    } else {
        1 + underscore_at(s.drop_first())
    }
}

/// The instance index in `name`: after `prefix`, a run of one to nine digits
/// up to the next `_` or the end.
pub open spec fn index_of(name: Seq<char>, prefix: Seq<char>) -> Option<u32> {
    if prefix.len() <= name.len() && name.subrange(0, prefix.len() as int) == prefix {
        let rest = name.subrange(prefix.len() as int, name.len() as int);
        let seg = rest.subrange(0, underscore_at(rest));
        if 1 <= seg.len() <= 9 && all_digits(seg) {
            Some(digits_value(seg) as u32)
        } else {
            None
        }
    } else {
        None
    }
}

/// The point a row gives: its timestamp as Unix seconds and its value in
/// thousandths, where both can be read.
pub open spec fn point_of(row: ProbeDataPoint) -> Option<MetricPoint> {
    match (rfc3339_instant_of(row.timestamp@), milli_of(row.probe_value@)) {
        (Some(i), Some(v)) => Some(MetricPoint { timestamp: i.unix_seconds, value: v as i64 }),
        _ => None,
    }
}

/// The indexed points of the rows, in row order; rows without an index or a
/// readable point are left out.
pub open spec fn indexed_points_spec(rows: Seq<ProbeDataPoint>, prefix: Seq<char>) -> Seq<(u32, MetricPoint)>
    decreases rows.len(),
{
    if rows.len() == 0 {
        seq![]
    } else {
        let before = indexed_points_spec(rows.drop_last(), prefix);
        match (index_of(rows.last().probe_name@, prefix), point_of(rows.last())) {
            (Some(k), Some(p)) => before.push((k, p)),
            _ => before,
        }
    }
}

/// The points with index `k`, in order.
pub open spec fn points_at(items: Seq<(u32, MetricPoint)>, k: u32) -> Seq<MetricPoint>
    decreases items.len(),
{
    if items.len() == 0 {
        seq![]
    } else if items.last().0 == k {
        points_at(items.drop_last(), k).push(items.last().1)
    } else {
        points_at(items.drop_last(), k)
    }
}

/// Some item among the first `m` has index `k`.
pub open spec fn index_seen(items: Seq<(u32, MetricPoint)>, k: u32, m: int) -> bool {
    exists|q: int| 0 <= q < m && q < items.len() && #[trigger] items[q].0 == k
}

/// Some series has index `k`.
pub open spec fn has_series(r: Seq<IndexedSeries>, k: u32) -> bool {
    exists|a: int| 0 <= a < r.len() && #[trigger] r[a].index == k
}

/// The series of one instance.
#[derive(Debug)]
pub struct IndexedSeries {
    pub index: u32,
    pub points: Vec<MetricPoint>,
}

proof fn lemma_underscore_at(s: Seq<char>)
    ensures
        0 <= underscore_at(s) <= s.len(),
        underscore_at(s) < s.len() ==> s[underscore_at(s)] == '_',
        forall|i: int| 0 <= i < underscore_at(s) ==> s[i] != '_',
    decreases s.len(),
{
    if s.len() > 0 && s[0] != '_' {
        lemma_underscore_at(s.drop_first());
        assert forall|i: int| 0 <= i < underscore_at(s) implies s[i] != '_' by {
            if i > 0 {
                assert(s[i] == s.drop_first()[i - 1]);
            }
        }
    }
}

proof fn lemma_underscore_at_is_first(s: Seq<char>, j: int)
    requires
        0 <= j <= s.len(),
        j < s.len() ==> s[j] == '_',
        forall|i: int| 0 <= i < j ==> s[i] != '_',
    ensures
        underscore_at(s) == j,
{
    lemma_underscore_at(s);
    if underscore_at(s) < j {
        assert(s[underscore_at(s)] == '_');
    }
    if underscore_at(s) > j {
        assert(s[j] != '_');
    }
}

/// The instance index in a probe name (see `index_of`).
pub fn probe_index(name: &str, prefix: &str) -> (r: Option<u32>)
    ensures
        r == index_of(name@, prefix@),
{
    let n = chars_of(name);
    let p = chars_of(prefix);
    if p.len() > n.len() {
        return None;
    }
    let mut i: usize = 0;
    while i < p.len()
        invariant
            n@ == name@,
            p@ == prefix@,
            i <= p@.len() <= n@.len(),
            n@.subrange(0, i as int) == p@.subrange(0, i as int),
        decreases p.len() - i,
    {
        if n[i] != p[i] {
            assert(n@.subrange(0, p@.len() as int)[i as int] != p@[i as int]);
            assert(name@.subrange(0, prefix@.len() as int) != prefix@);
            return None;
        }
        assert(n@.subrange(0, i + 1) =~= n@.subrange(0, i as int).push(n@[i as int]));
        assert(p@.subrange(0, i + 1) =~= p@.subrange(0, i as int).push(p@[i as int]));
        i = i + 1;
    }
    assert(p@.subrange(0, p@.len() as int) =~= p@);
    let ghost rest = name@.subrange(prefix@.len() as int, name@.len() as int);
    let start = p.len();
    let mut j: usize = start;
    let mut v: u64 = 0;
    while j < n.len() && n[j] != '_'
        invariant
            prefix@.len() <= name@.len(),
            name@.subrange(0, prefix@.len() as int) == prefix@,
            start <= j <= n@.len(),
            j - start <= 9,
            p@ == prefix@,
            start == p@.len(),
            n@ == name@,
            rest == name@.subrange(start as int, name@.len() as int),
            forall|k: int| start <= k < j ==> n@[k] != '_',
            j - start <= 9 ==> all_digits(n@.subrange(start as int, j as int)),
            j - start <= 9 ==> v as int == digits_value(n@.subrange(start as int, j as int)),
            j - start <= 9 ==> v < pow10((j - start) as nat),
        decreases n@.len() - j,
    {
        let c = n[j];
        if !('0' <= c && c <= '9') || j - start >= 9 {
            proof {
                lemma_underscore_at(rest);
                assert(underscore_at(rest) > j - start) by {
                    if underscore_at(rest) <= j - start {
                        assert(rest[underscore_at(rest)] == n@[start + underscore_at(rest)]);
                    }
                }
                let seg = rest.subrange(0, underscore_at(rest));
                assert(seg[j - start] == c);
                if !('0' <= c && c <= '9') {
                    assert(digit_value(seg[j - start]) is None);
                    assert(!all_digits(seg));
                } else {
                    assert(seg.len() > 9);
                }
                assert(rest == name@.subrange(prefix@.len() as int, name@.len() as int));
                assert(!(1 <= seg.len() <= 9 && all_digits(seg)));
            }
            return None;
        }
        let ghost prev = n@.subrange(start as int, j as int);
        assert(n@.subrange(start as int, j + 1).drop_last() =~= prev);
        assert(all_digits(n@.subrange(start as int, j + 1))) by {
            assert forall|k: int| 0 <= k < j + 1 - start implies #[trigger] digit_value(
                n@.subrange(start as int, j + 1)[k],
            ) is Some by {
                if k < j - start {
                    assert(n@.subrange(start as int, j + 1)[k] == prev[k]);
                }
            }
        }
        proof { lemma_pow10_bound((j - start) as nat); }
        v = v * 10 + ((c as u64) - ('0' as u64));
        j = j + 1;
    }
    proof {
        lemma_underscore_at_is_first(rest, j - start);
        assert(rest.subrange(0, j - start) =~= n@.subrange(start as int, j as int));
    }
    if j == start {
        return None;
    }
    proof { lemma_pow10_bound((j - start) as nat); }
    Some(v as u32)
}

/// The point of a row (see `point_of`).
pub fn row_point(row: &ProbeDataPoint) -> (r: Option<MetricPoint>)
    ensures
        r == point_of(*row),
{
    let t = parse_rfc3339(row.timestamp.as_str());
    let v = parse_milli(row.probe_value.as_str());
    match (t, v) {
        (Some(i), Some(v)) => Some(MetricPoint { timestamp: i.unix_seconds, value: v }),
        _ => None,
    }
}

/// The indexed points of the rows (see `indexed_points_spec`).
pub fn indexed_points(rows: &Vec<ProbeDataPoint>, prefix: &str) -> (r: Vec<(u32, MetricPoint)>)
    ensures
        r@ == indexed_points_spec(rows@, prefix@),
{
    let mut out: Vec<(u32, MetricPoint)> = Vec::new();
    let mut m: usize = 0;
    while m < rows.len()
        invariant
            m <= rows@.len(),
            out@ == indexed_points_spec(rows@.take(m as int), prefix@),
        decreases rows@.len() - m,
    {
        assert(rows@.take(m + 1).drop_last() =~= rows@.take(m as int));
        let k = probe_index(rows[m].probe_name.as_str(), prefix);
        let p = row_point(&rows[m]);
        match (k, p) {
            (Some(k), Some(p)) => {
                out.push((k, p));
            },
            _ => {},
        }
        m = m + 1;
    }
    assert(rows@.take(rows@.len() as int) =~= rows@);
    out
}

/// The distinct indices of the items, ascending.
fn distinct_indices(items: &Vec<(u32, MetricPoint)>) -> (r: Vec<u32>)
    ensures
        forall|a: int, b: int| 0 <= a < b < r@.len() ==> r@[a] < r@[b],
        forall|a: int| 0 <= a < r@.len() ==> index_seen(items@, #[trigger] r@[a], items@.len() as int),
        forall|m: int| 0 <= m < items@.len() ==> r@.contains(#[trigger] items@[m].0),
{
    let mut r: Vec<u32> = Vec::new();
    let mut m: usize = 0;
    while m < items.len()
        invariant
            m <= items@.len(),
            forall|a: int, b: int| 0 <= a < b < r@.len() ==> r@[a] < r@[b],
            forall|a: int| 0 <= a < r@.len() ==> index_seen(items@, #[trigger] r@[a], m as int),
            forall|q: int| 0 <= q < m ==> r@.contains(#[trigger] items@[q].0),
        decreases items@.len() - m,
    {
        let k = items[m].0;
        let mut pos: usize = 0;
        while pos < r.len() && r[pos] < k
            invariant
                pos <= r@.len(),
                forall|a: int| 0 <= a < pos ==> r@[a] < k,
            decreases r@.len() - pos,
        {
            pos = pos + 1;
        }
        let ghost r0 = r@;
        if pos < r.len() && r[pos] == k {
            assert(r@.contains(items@[m as int].0)) by { assert(r@[pos as int] == k); }
            assert forall|a: int| 0 <= a < r@.len() implies index_seen(items@, #[trigger] r@[a], m + 1) by {
                let q = choose|q: int| 0 <= q < m && q < items@.len() && #[trigger] items@[q].0 == r@[a];
                assert(items@[q].0 == r@[a]);
            }
        } else {
            r.insert(pos, k);
            proof {
                assert forall|a: int, b: int| 0 <= a < b < r@.len() implies r@[a] < r@[b] by {
                    if b < pos {
                    } else if b == pos {
                    } else if a < pos {
                        assert(r@[b] == r0[b - 1]);
                        assert(r0[b - 1] >= k);
                    } else if a == pos {
                        assert(r@[b] == r0[b - 1]);
                    } else {
                        assert(r@[a] == r0[a - 1]);
                        assert(r@[b] == r0[b - 1]);
                    }
                }
                assert forall|a: int| 0 <= a < r@.len() implies index_seen(items@, #[trigger] r@[a], m + 1) by {
                    if a < pos {
                        assert(r@[a] == r0[a]);
                        assert(index_seen(items@, r0[a], m as int));
                        let q = choose|q: int| 0 <= q < m && q < items@.len() && #[trigger] items@[q].0 == r0[a];
                        assert(items@[q].0 == r@[a]);
                    } else if a == pos {
                        assert(items@[m as int].0 == r@[a]);
                    } else {
                        assert(r@[a] == r0[a - 1]);
                        assert(index_seen(items@, r0[a - 1], m as int));
                        let q = choose|q: int| 0 <= q < m && q < items@.len() && #[trigger] items@[q].0 == r0[a - 1];
                        assert(items@[q].0 == r@[a]);
                    }
                }
                assert forall|q: int| 0 <= q < m + 1 implies r@.contains(#[trigger] items@[q].0) by {
                    if q < m {
                        assert(r0.contains(items@[q].0));
                        let a = choose|a: int| 0 <= a < r0.len() && r0[a] == items@[q].0;
                        if a < pos {
                            assert(r@[a] == r0[a]);
                        } else {
                            assert(r@[a + 1] == r0[a]);
                        }
                    } else {
                        assert(r@[pos as int] == k);
                    }
                }
            }
        }
        m = m + 1;
    }
    r
}

/// The points with index `k`, in order.
fn collect_points(items: &Vec<(u32, MetricPoint)>, k: u32) -> (r: Vec<MetricPoint>)
    ensures
        r@ == points_at(items@, k),
{
    let mut out: Vec<MetricPoint> = Vec::new();
    let mut m: usize = 0;
    while m < items.len()
        invariant
            m <= items@.len(),
            out@ == points_at(items@.take(m as int), k),
        decreases items@.len() - m,
    {
        assert(items@.take(m + 1).drop_last() =~= items@.take(m as int));
        if items[m].0 == k {
            out.push(items[m].1);
        }
        m = m + 1;
    }
    assert(items@.take(items@.len() as int) =~= items@);
    out
}

proof fn lemma_points_at_nonempty(items: Seq<(u32, MetricPoint)>, m: int)
    requires
        0 <= m < items.len(),
    ensures
        points_at(items, items[m].0).len() > 0,
    decreases items.len(),
{
    if m < items.len() - 1 {
        lemma_points_at_nonempty(items.drop_last(), m);
    }
}

/// One series per index, ascending by index; each holds the points of its
/// index in their input order. Points of different indices never share a
/// series.
pub fn group_by_index(items: &Vec<(u32, MetricPoint)>) -> (r: Vec<IndexedSeries>)
    ensures
        forall|a: int, b: int| 0 <= a < b < r@.len() ==> r@[a].index < r@[b].index,
        forall|a: int|
            0 <= a < r@.len() ==> (#[trigger] r@[a]).points@ == points_at(items@, r@[a].index)
                && r@[a].points@.len() > 0,
        forall|m: int| 0 <= m < items@.len() ==> has_series(r@, (#[trigger] items@[m]).0),
{
    let keys = distinct_indices(items);
    let mut out: Vec<IndexedSeries> = Vec::new();
    let mut a: usize = 0;
    while a < keys.len()
        invariant
            a <= keys@.len(),
            out@.len() == a,
            forall|x: int, y: int| 0 <= x < y < keys@.len() ==> keys@[x] < keys@[y],
            forall|x: int| 0 <= x < keys@.len() ==> index_seen(items@, #[trigger] keys@[x], items@.len() as int),
            forall|x: int| 0 <= x < a ==> (#[trigger] out@[x]).index == keys@[x],
            forall|x: int|
                0 <= x < a ==> (#[trigger] out@[x]).points@ == points_at(items@, out@[x].index)
                    && out@[x].points@.len() > 0,
        decreases keys@.len() - a,
    {
        let k = keys[a];
        let pts = collect_points(items, k);
        proof {
            assert(index_seen(items@, keys@[a as int], items@.len() as int));
            let m = choose|m: int| 0 <= m < items@.len() && m < items@.len() && #[trigger] items@[m].0 == keys@[a as int];
            lemma_points_at_nonempty(items@, m);
        }
        out.push(IndexedSeries { index: k, points: pts });
        a = a + 1;
    }
    assert forall|m: int| 0 <= m < items@.len() implies has_series(out@, (#[trigger] items@[m]).0) by {
        assert(keys@.contains(items@[m].0));
        let x = choose|x: int| 0 <= x < keys@.len() && keys@[x] == items@[m].0;
        assert(out@[x].index == items@[m].0);
    }
    out
}

/// Groups query rows into one series per instance index, ascending by index.
pub fn group_metrics_by_index(rows: &Vec<ProbeDataPoint>, prefix: &str) -> (r: Vec<IndexedSeries>)
    ensures
        forall|a: int, b: int| 0 <= a < b < r@.len() ==> r@[a].index < r@[b].index,
        forall|a: int|
            0 <= a < r@.len() ==> (#[trigger] r@[a]).points@ == points_at(
                indexed_points_spec(rows@, prefix@),
                r@[a].index,
            ) && r@[a].points@.len() > 0,
        forall|m: int|
            0 <= m < indexed_points_spec(rows@, prefix@).len() ==> has_series(
                r@,
                (#[trigger] indexed_points_spec(rows@, prefix@)[m]).0,
            ),
{
    let items = indexed_points(rows, prefix);
    group_by_index(&items)
}

/// Where some points carry index `k`, some item has it.
pub proof fn lemma_points_at_has_item(items: Seq<(u32, MetricPoint)>, k: u32)
    ensures
        points_at(items, k).len() > 0 ==> exists|m: int| 0 <= m < items.len() && #[trigger] items[m].0 == k,
    decreases items.len(),
{
    if items.len() > 0 {
        lemma_points_at_has_item(items.drop_last(), k);
        if items.last().0 != k && points_at(items, k).len() > 0 {
            let m = choose|m: int| 0 <= m < items.drop_last().len() && #[trigger] items.drop_last()[m].0 == k;
            assert(items[m].0 == k);
        } else if items.last().0 == k {
            assert(items[items.len() - 1].0 == k);
        }
    }
}

} // verus!
