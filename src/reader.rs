//! Queries over a date range: which partition files a range covers, and how
//! the rows that each partition returned become one ascending result.

use vstd::prelude::*;
use crate::calendar::{CivilDate, format_date_spec, push_date};
use crate::date_range::DateRange;
use crate::errors::StoreError;
use crate::merge::{sorted_by_time, stamped, merge_two, is_sorted_by_time, lemma_stamped_add};
use crate::record::{MetricDataPoint, ProbeDataPoint};
use crate::text::{push_str, string_of};

verus! {

/// What one day partition gave for a query.
pub enum PartitionRows {
    /// No partition file exists for the day: nothing was stored that day.
    Missing,
    /// The partition could not be read; the rest of the query goes on.
    Failed(StoreError),
    /// The partition's matching rows.
    Rows(Vec<MetricDataPoint>),
}

/// All rows that the partitions gave, in partition order.
pub open spec fn found_rows(outcomes: Seq<PartitionRows>) -> Seq<ProbeDataPoint>
    decreases outcomes.len(),
{
    if outcomes.len() == 0 {
        seq![]
    } else {
        found_rows(outcomes.drop_last()) + match outcomes.last() {
            PartitionRows::Rows(v) => v@,
            _ => seq![],
        }
    }
}

/// Sorts by timestamp; samples with equal timestamps keep their order.
pub fn sort_by_time(v: &Vec<ProbeDataPoint>) -> (r: Vec<ProbeDataPoint>)
    ensures
        sorted_by_time(r@),
        r@.len() == v@.len(),
        forall|t: Seq<char>| #[trigger] stamped(r@, t) == stamped(v@, t),
{
    let mut acc: Vec<ProbeDataPoint> = Vec::new();
    let mut k: usize = 0;
    while k < v.len()
        invariant
            k <= v.len(),
            sorted_by_time(acc@),
            acc@.len() == k,
            forall|t: Seq<char>| #[trigger] stamped(acc@, t) == stamped(v@.take(k as int), t),
        decreases v.len() - k,
    {
        let one = vec![v[k].duplicate()];
        proof {
            assert forall|t: Seq<char>| #[trigger] stamped(v@.take(k + 1), t) == stamped(
                v@.take(k as int),
                t,
            ) + stamped(one@, t) by {
                assert(v@.take(k + 1) =~= v@.take(k as int) + one@);
                lemma_stamped_add(v@.take(k as int), one@, t);
            }
        }
        acc = merge_two(&acc, &one);
        k = k + 1;
    }
    assert(v@.take(v@.len() as int) =~= v@);
    acc
}

/// Merges what the partitions of a range gave into one result ascending by
/// timestamp. Missing and failed partitions add nothing and fail nothing;
/// rows with equal timestamps keep the order in which they were found.
pub fn merge_partition_results(outcomes: &Vec<PartitionRows>) -> (r: Vec<MetricDataPoint>)
    ensures
        sorted_by_time(r@),
        r@.len() == found_rows(outcomes@).len(),
        forall|t: Seq<char>| #[trigger] stamped(r@, t) == stamped(found_rows(outcomes@), t),
{
    let mut acc: Vec<ProbeDataPoint> = Vec::new();
    let mut k: usize = 0;
    while k < outcomes.len()
        invariant
            k <= outcomes.len(),
            sorted_by_time(acc@),
            acc@.len() == found_rows(outcomes@.take(k as int)).len(),
            forall|t: Seq<char>| #[trigger]
                stamped(acc@, t) == stamped(found_rows(outcomes@.take(k as int)), t),
        decreases outcomes.len() - k,
    {
        let ghost before = outcomes@.take(k as int);
        assert(outcomes@.take(k + 1).drop_last() =~= before);
        match &outcomes[k] {
            PartitionRows::Rows(rows) => {
                let run = if is_sorted_by_time(rows) {
                    let mut copy: Vec<ProbeDataPoint> = Vec::new();
                    let mut m: usize = 0;
                    while m < rows.len()
                        invariant
                            m <= rows.len(),
                            copy@ == rows@.take(m as int),
                        decreases rows.len() - m,
                    {
                        copy.push(rows[m].duplicate());
                        assert(copy@ =~= rows@.take(m + 1));
                        m = m + 1;
                    }
                    assert(copy@ =~= rows@);
                    copy
                } else {
                    sort_by_time(rows)
                };
                proof {
                    assert forall|t: Seq<char>| #[trigger] stamped(
                        found_rows(outcomes@.take(k + 1)),
                        t,
                    ) == stamped(found_rows(before), t) + stamped(run@, t) by {
                        lemma_stamped_add(found_rows(before), rows@, t);
                    }
                }
                acc = merge_two(&acc, &run);
            },
            _ => {
                assert(found_rows(outcomes@.take(k + 1)) =~= found_rows(before));
            },
        }
        k = k + 1;
    }
    assert(outcomes@.take(outcomes@.len() as int) =~= outcomes@);
    acc
}

/// Whatever order the partitions are read or answered in, merged results
/// built from the same rows have the same sequence of timestamps (only rows
/// that share a timestamp may come in another order).
pub proof fn lemma_partition_order_irrelevant(
    o1: Seq<PartitionRows>,
    o2: Seq<PartitionRows>,
    r1: Seq<ProbeDataPoint>,
    r2: Seq<ProbeDataPoint>,
)
    requires
        forall|t: Seq<char>| #[trigger] stamped(found_rows(o1), t).len() == stamped(found_rows(o2), t).len(),
        sorted_by_time(r1),
        sorted_by_time(r2),
        forall|t: Seq<char>| #[trigger] stamped(r1, t) == stamped(found_rows(o1), t),
        forall|t: Seq<char>| #[trigger] stamped(r2, t) == stamped(found_rows(o2), t),
    ensures
        crate::merge::timestamps(r1) == crate::merge::timestamps(r2),
{
    assert forall|t: Seq<char>| #[trigger] stamped(r1, t).len() == stamped(r2, t).len() by {
        assert(stamped(r1, t) == stamped(found_rows(o1), t));
        assert(stamped(r2, t) == stamped(found_rows(o2), t));
        assert(stamped(found_rows(o1), t).len() == stamped(found_rows(o2), t).len());
    }
    crate::merge::lemma_same_counts_same_timestamps(r1, r2);
}

/// The rows one partition gave.
pub open spec fn rows_of(p: PartitionRows) -> Seq<ProbeDataPoint> {
    match p {
        PartitionRows::Rows(v) => v@,
        _ => seq![],
    }
}

proof fn lemma_found_count_remove(o: Seq<PartitionRows>, j: int, t: Seq<char>)
    requires
        0 <= j < o.len(),
    ensures
        stamped(found_rows(o), t).len() == stamped(found_rows(o.remove(j)), t).len() + stamped(
            rows_of(o[j]),
            t,
        ).len(),
    decreases o.len(),
{
    assert(found_rows(o) == found_rows(o.drop_last()) + rows_of(o.last()));
    lemma_stamped_add(found_rows(o.drop_last()), rows_of(o.last()), t);
    if j == o.len() - 1 {
        assert(o.remove(j) =~= o.drop_last());
    } else {
        lemma_found_count_remove(o.drop_last(), j, t);
        let q = o.remove(j);
        assert(q.drop_last() =~= o.drop_last().remove(j));
        assert(q.last() == o.last());
        assert(found_rows(q) == found_rows(q.drop_last()) + rows_of(q.last()));
        lemma_stamped_add(found_rows(q.drop_last()), rows_of(q.last()), t);
    }
}

/// Partitions read in any order give as many rows of every timestamp.
pub proof fn lemma_found_count_permutation(o1: Seq<PartitionRows>, o2: Seq<PartitionRows>, t: Seq<char>)
    requires
        o1.to_multiset() == o2.to_multiset(),
    ensures
        stamped(found_rows(o1), t).len() == stamped(found_rows(o2), t).len(),
    decreases o1.len(),
{
    broadcast use vstd::seq_lib::group_to_multiset_ensures;
    vstd::seq_lib::to_multiset_len(o1);
    vstd::seq_lib::to_multiset_len(o2);
    if o1.len() == 0 {
        assert(o2.len() == 0);
        assert(o1 =~= o2);
    } else {
        let x = o1.last();
        let d = o1.drop_last();
        assert(o1 =~= d.push(x));
        vstd::seq_lib::to_multiset_build(d, x);
        assert(o1.to_multiset().count(x) > 0);
        vstd::seq_lib::to_multiset_contains(o2, x);
        let j = choose|j: int| 0 <= j < o2.len() && o2[j] == x;
        vstd::seq_lib::to_multiset_remove(o2, j);
        assert(o2.remove(j).to_multiset() =~= d.to_multiset());
        lemma_found_count_permutation(d, o2.remove(j), t);
        lemma_found_count_remove(o1, o1.len() - 1, t);
        assert(o1.remove(o1.len() - 1) =~= d);
        lemma_found_count_remove(o2, j, t);
    }
}

/// The partition-order law for reorderings as such: whatever order the same
/// partitions are read in, the merged results have the same sequence of
/// timestamps.
pub proof fn lemma_partitions_in_any_order(
    o1: Seq<PartitionRows>,
    o2: Seq<PartitionRows>,
    r1: Seq<ProbeDataPoint>,
    r2: Seq<ProbeDataPoint>,
)
    requires
        o1.to_multiset() == o2.to_multiset(),
        sorted_by_time(r1),
        sorted_by_time(r2),
        forall|t: Seq<char>| #[trigger] stamped(r1, t) == stamped(found_rows(o1), t),
        forall|t: Seq<char>| #[trigger] stamped(r2, t) == stamped(found_rows(o2), t),
    ensures
        crate::merge::timestamps(r1) == crate::merge::timestamps(r2),
{
    assert forall|t: Seq<char>| #[trigger] stamped(found_rows(o1), t).len() == stamped(found_rows(o2), t).len() by {
        lemma_found_count_permutation(o1, o2, t);
    }
    lemma_partition_order_irrelevant(o1, o2, r1, r2);
}

/// A partition that is missing or failed adds no rows: the rows found are
/// those of the other partitions.
pub proof fn lemma_unreadable_partition_adds_nothing(outcomes: Seq<PartitionRows>, k: int)
    requires
        0 <= k < outcomes.len(),
        !(outcomes[k] is Rows),
    ensures
        found_rows(outcomes) == found_rows(outcomes.remove(k)),
    decreases outcomes.len(),
{
    if k == outcomes.len() - 1 {
        assert(outcomes.remove(k) =~= outcomes.drop_last());
        assert(found_rows(outcomes) =~= found_rows(outcomes.drop_last()));
    } else {
        lemma_unreadable_partition_adds_nothing(outcomes.drop_last(), k);
        assert(outcomes.remove(k).drop_last() =~= outcomes.drop_last().remove(k));
        assert(outcomes.remove(k).last() == outcomes.last());
    }
}

/// Where no partition holds a matching row, the result is empty.
pub proof fn lemma_no_rows_found(outcomes: Seq<PartitionRows>)
    requires
        forall|k: int|
            0 <= k < outcomes.len() ==> match #[trigger] outcomes[k] {
                PartitionRows::Rows(v) => v@.len() == 0,
                _ => true,
            },
    ensures
        found_rows(outcomes).len() == 0,
    decreases outcomes.len(),
{
    if outcomes.len() > 0 {
        lemma_no_rows_found(outcomes.drop_last());
        let last = outcomes[outcomes.len() - 1];
    }
}

/// The file name of the partition for a day: `ferrview_YYYY-MM-DD.db`.
pub open spec fn partition_file_name_spec(d: CivilDate) -> Seq<char> {
    "ferrview_"@ + format_date_spec(d) + ".db"@
}

/// Reads the metrics of a data directory that holds one partition file per day.
pub struct DateRangeReader {
    pub data_dir: String,
}

impl DateRangeReader {
    pub fn new(data_dir: &str) -> (r: DateRangeReader)
        ensures
            r.data_dir@ == data_dir@,
    {
        DateRangeReader { data_dir: String::from_str(data_dir) }
    }

    /// The path of the partition file of a day.
    pub fn partition_path(&self, d: &CivilDate) -> (r: String)
        requires
            d.wf(),
        ensures
            r@ == self.data_dir@ + "/"@ + partition_file_name_spec(*d),
    {
        let mut out: Vec<char> = Vec::new();
        push_str(&mut out, self.data_dir.as_str());
        push_str(&mut out, "/");
        push_str(&mut out, "ferrview_");
        push_date(&mut out, d);
        push_str(&mut out, ".db");
        assert(out@ =~= self.data_dir@ + "/"@ + partition_file_name_spec(*d));
        string_of(&out)
    }

    /// The partition files that a range covers, one per day, in day order.
    pub fn partition_paths(&self, range: &DateRange) -> (r: Vec<String>)
        requires
            range.wf(),
        ensures
            r@.len() == range.days().len(),
            forall|i: int|
                0 <= i < r@.len() ==> #[trigger] r@[i]@ == self.data_dir@ + "/"@
                    + partition_file_name_spec(range.days()[i]),
    {
        let days = range.day_list();
        let mut out: Vec<String> = Vec::new();
        let mut k: usize = 0;
        while k < days.len()
            invariant
                k <= days.len(),
                days@ == range.days(),
                out@.len() == k,
                forall|i: int| 0 <= i < days@.len() ==> (#[trigger] days@[i]).wf(),
                forall|i: int|
                    0 <= i < k ==> #[trigger] out@[i]@ == self.data_dir@ + "/"@
                        + partition_file_name_spec(range.days()[i]),
            decreases days.len() - k,
        {
            out.push(self.partition_path(&days[k]));
            k = k + 1;
        }
        out
    }
}

/// The date part of a partition file name `ferrview_YYYY-MM-DD.db` (22
/// characters); `None` for any other name.
pub open spec fn partition_date_of(name: Seq<char>) -> Option<Seq<char>> {
    if name.len() == 22 && name.subrange(0, 9) == "ferrview_"@ && name.subrange(19, 22) == ".db"@ {
        Some(name.subrange(9, 19))
    } else {
        None
    }
}

/// The date part of a partition file name (see `partition_date_of`).
pub fn partition_date_of_file(name: &str) -> (r: Option<String>)
    ensures
        match r {
            Some(d) => partition_date_of(name@) == Some(d@),
            None => partition_date_of(name@) is None,
        },
{
    let cs = crate::text::chars_of(name);
    if cs.len() != 22 {
        return None;
    }
    let head = crate::text::string_between(&cs, 0, 9);
    let tail = crate::text::string_between(&cs, 19, 22);
    if crate::text::same_text(head.as_str(), "ferrview_") && crate::text::same_text(tail.as_str(), ".db") {
        Some(crate::text::string_between(&cs, 9, 19))
    } else {
        None
    }
}

/// The dates of the partition files among directory entries, in entry order.
pub open spec fn partition_dates(names: Seq<Seq<char>>) -> Seq<Seq<char>>
    decreases names.len(),
{
    if names.len() == 0 {
        seq![]
    } else {
        match partition_date_of(names.last()) {
            Some(d) => partition_dates(names.drop_last()).push(d),
            None => partition_dates(names.drop_last()),
        }
    }
}

/// The dates of the partition files among directory entries, ascending.
pub fn partition_dates_of_files(names: &Vec<String>) -> (r: Vec<String>)
    ensures
        crate::merge::texts_sorted(crate::merge::texts_view(r@)),
        crate::merge::texts_view(r@).to_multiset() == partition_dates(
            names@.map_values(|n: String| n@),
        ).to_multiset(),
{
    let mut out: Vec<String> = Vec::new();
    let mut i: usize = 0;
    while i < names.len()
        invariant
            i <= names@.len(),
            out@.map_values(|d: String| d@) == partition_dates(names@.take(i as int).map_values(|n: String| n@)),
        decreases names@.len() - i,
    {
        let ghost before = out@;
        assert(names@.take(i + 1).map_values(|n: String| n@).drop_last() =~= names@.take(i as int).map_values(|n: String| n@));
        match partition_date_of_file(names[i].as_str()) {
            Some(d) => {
                out.push(d);
                assert(out@.map_values(|d: String| d@) =~= before.map_values(|d: String| d@).push(out@.last()@));
            },
            None => {},
        }
        i = i + 1;
    }
    assert(names@.take(names@.len() as int) =~= names@);
    assert(crate::merge::texts_view(out@) == out@.map_values(|d: String| d@));
    crate::merge::sort_texts(&out)
}

/// A name pattern with one wildcard: `%` (the first one) stands for any run
/// of characters; without `%` the pattern must equal the name.
pub open spec fn glob_matches(pattern: Seq<char>, name: Seq<char>) -> bool {
    let w = crate::text::find_char(pattern, '%');
    if w >= pattern.len() {
        name == pattern
    } else {
        let head = pattern.subrange(0, w);
        let tail = pattern.subrange(w + 1, pattern.len() as int);
        &&& head.len() + tail.len() <= name.len()
        &&& name.subrange(0, head.len() as int) == head
        &&& name.subrange(name.len() - tail.len(), name.len() as int) == tail
    }
}

/// A stored row answers a partition query: same node, name matching the
/// pattern, and timestamp within `[start, end]` in timestamp order.
pub open spec fn row_selected(
    row: ProbeDataPoint,
    node_id: Seq<char>,
    pattern: Seq<char>,
    start: Seq<char>,
    end: Seq<char>,
) -> bool {
    &&& row.node_id@ == node_id
    &&& glob_matches(pattern, row.probe_name@)
    &&& crate::merge::text_le(start, row.timestamp@)
    &&& crate::merge::text_le(row.timestamp@, end)
}

pub open spec fn selected_rows(
    rows: Seq<ProbeDataPoint>,
    node_id: Seq<char>,
    pattern: Seq<char>,
    start: Seq<char>,
    end: Seq<char>,
) -> Seq<ProbeDataPoint>
    decreases rows.len(),
{
    if rows.len() == 0 {
        seq![]
    } else if row_selected(rows.last(), node_id, pattern, start, end) {
        selected_rows(rows.drop_last(), node_id, pattern, start, end).push(rows.last())
    } else {
        selected_rows(rows.drop_last(), node_id, pattern, start, end)
    }
}

fn equal_range(a: &Vec<char>, a_from: usize, b: &Vec<char>, b_from: usize, len: usize) -> (r: bool)
    requires
        a_from + len <= a@.len(),
        b_from + len <= b@.len(),
    ensures
        r == (a@.subrange(a_from as int, a_from + len) == b@.subrange(b_from as int, b_from + len)),
{
    let na = a.len();
    let nb = b.len();
    let mut i: usize = 0;
    while i < len
        invariant
            na == a@.len(),
            nb == b@.len(),
            a_from + len <= a@.len(),
            b_from + len <= b@.len(),
            i <= len,
            a@.subrange(a_from as int, a_from + i) == b@.subrange(b_from as int, b_from + i),
        decreases len - i,
    {
        if a[a_from + i] != b[b_from + i] {
            assert(a@.subrange(a_from as int, a_from + len)[i as int] != b@.subrange(b_from as int, b_from + len)[i as int]);
            return false;
        }
        assert(a@.subrange(a_from as int, a_from + i + 1) =~= a@.subrange(a_from as int, a_from + i).push(a@[a_from + i]));
        assert(b@.subrange(b_from as int, b_from + i + 1) =~= b@.subrange(b_from as int, b_from + i).push(b@[b_from + i]));
        i = i + 1;
    }
    true
}

/// Whether a name matches a one-wildcard pattern (see `glob_matches`).
pub fn name_matches(pattern: &str, name: &str) -> (r: bool)
    ensures
        r == glob_matches(pattern@, name@),
{
    let p = crate::text::chars_of(pattern);
    let n = crate::text::chars_of(name);
    let w = crate::text::find_from(&p, 0, '%');
    assert(p@.subrange(0, p@.len() as int) =~= p@);
    if w == p.len() {
        return crate::text::same_text(pattern, name);
    }
    let tail_len = p.len() - w - 1;
    if w + tail_len > n.len() {
        return false;
    }
    let head_ok = equal_range(&n, 0, &p, 0, w);
    let tail_ok = equal_range(&n, n.len() - tail_len, &p, w + 1, tail_len);
    proof {
        assert(p@.subrange(0, w as int) == p@.subrange(0, w as int));
    }
    head_ok && tail_ok
}

/// The rows that answer a partition query, in their order: node equal,
/// name matching the pattern, timestamp within the bounds.
pub fn select_rows(
    rows: &Vec<ProbeDataPoint>,
    node_id: &str,
    pattern: &str,
    start: &str,
    end: &str,
) -> (r: Vec<ProbeDataPoint>)
    ensures
        r@ == selected_rows(rows@, node_id@, pattern@, start@, end@),
{
    let lo = ProbeDataPoint {
        node_id: String::new(),
        timestamp: String::from_str(start),
        probe_type: String::new(),
        probe_name: String::new(),
        probe_value: String::new(),
    };
    let hi = ProbeDataPoint {
        node_id: String::new(),
        timestamp: String::from_str(end),
        probe_type: String::new(),
        probe_name: String::new(),
        probe_value: String::new(),
    };
    let mut out: Vec<ProbeDataPoint> = Vec::new();
    let mut i: usize = 0;
    while i < rows.len()
        invariant
            i <= rows@.len(),
            lo.timestamp@ == start@,
            hi.timestamp@ == end@,
            out@ == selected_rows(rows@.take(i as int), node_id@, pattern@, start@, end@),
        decreases rows@.len() - i,
    {
        assert(rows@.take(i + 1).drop_last() =~= rows@.take(i as int));
        let row = &rows[i];
        if crate::text::same_text(row.node_id.as_str(), node_id) && name_matches(pattern, row.probe_name.as_str())
            && crate::merge::stamped_no_later(&lo, row) && crate::merge::stamped_no_later(row, &hi) {
            out.push(row.duplicate());
        }
        i = i + 1;
    }
    assert(rows@.take(rows@.len() as int) =~= rows@);
    out
}

/// A node with no stored rows gets none back.
pub proof fn lemma_unknown_node_selects_nothing(
    rows: Seq<ProbeDataPoint>,
    node_id: Seq<char>,
    pattern: Seq<char>,
    start: Seq<char>,
    end: Seq<char>,
)
    requires
        forall|i: int| 0 <= i < rows.len() ==> (#[trigger] rows[i]).node_id@ != node_id,
    ensures
        selected_rows(rows, node_id, pattern, start, end).len() == 0,
    decreases rows.len(),
{
    if rows.len() > 0 {
        lemma_unknown_node_selects_nothing(rows.drop_last(), node_id, pattern, start, end);
        assert(rows.drop_last().len() < rows.len());
        assert(rows[rows.len() - 1].node_id@ != node_id);
    }
}

} // verus!
