//! Ordering of samples by timestamp text and the stable merge of the sorted
//! runs that day partitions return.

use vstd::prelude::*;
use crate::record::ProbeDataPoint;
use crate::text::chars_of;

verus! {

/// Lexicographic order of texts, character by character: the order in which
/// RFC 3339 timestamps of one shape sort by time.
pub open spec fn text_le(a: Seq<char>, b: Seq<char>) -> bool
    decreases a.len(),
{
    if a.len() == 0 {
        true
    } else if b.len() == 0 {
        false
    } else if a[0] != b[0] {
        a[0] < b[0]
    } else {
        text_le(a.drop_first(), b.drop_first())
    }
}

pub proof fn lemma_text_le_total(a: Seq<char>, b: Seq<char>)
    ensures
        text_le(a, b) || text_le(b, a),
    decreases a.len(),
{
    if a.len() > 0 && b.len() > 0 && a[0] == b[0] {
        lemma_text_le_total(a.drop_first(), b.drop_first());
    }
}

pub proof fn lemma_text_le_trans(a: Seq<char>, b: Seq<char>, c: Seq<char>)
    requires
        text_le(a, b),
        text_le(b, c),
    ensures
        text_le(a, c),
    decreases a.len(),
{
    if a.len() > 0 && b.len() > 0 && c.len() > 0 && a[0] == b[0] && b[0] == c[0] {
        lemma_text_le_trans(a.drop_first(), b.drop_first(), c.drop_first());
    }
}

pub proof fn lemma_text_le_antisym(a: Seq<char>, b: Seq<char>)
    requires
        text_le(a, b),
        text_le(b, a),
    ensures
        a == b,
    decreases a.len(),
{
    if a.len() > 0 && b.len() > 0 {
        lemma_text_le_antisym(a.drop_first(), b.drop_first());
        assert(a =~= seq![a[0]] + a.drop_first());
        assert(b =~= seq![b[0]] + b.drop_first());
    } else if a.len() == 0 && b.len() == 0 {
        assert(a =~= b);
    }
}

pub open spec fn time_le(p: ProbeDataPoint, q: ProbeDataPoint) -> bool {
    text_le(p.timestamp@, q.timestamp@)
}

/// Ascending by timestamp.
pub open spec fn sorted_by_time(s: Seq<ProbeDataPoint>) -> bool {
    forall|i: int, j: int| 0 <= i < j < s.len() ==> #[trigger] time_le(s[i], s[j])
}

/// The samples of `s` stamped `t`, in their order in `s`.
pub open spec fn stamped(s: Seq<ProbeDataPoint>, t: Seq<char>) -> Seq<ProbeDataPoint>
    decreases s.len(),
{
    if s.len() == 0 {
        seq![]
    } else if s.last().timestamp@ == t {
        stamped(s.drop_last(), t).push(s.last())
    } else {
        stamped(s.drop_last(), t)
    }
}

pub proof fn lemma_stamped_add(a: Seq<ProbeDataPoint>, b: Seq<ProbeDataPoint>, t: Seq<char>)
    ensures
        stamped(a + b, t) == stamped(a, t) + stamped(b, t),
    decreases b.len(),
{
    if b.len() == 0 {
        assert(a + b =~= a);
        assert(stamped(b, t) =~= seq![]);
        assert(stamped(a, t) + stamped(b, t) =~= stamped(a, t));
    } else {
        lemma_stamped_add(a, b.drop_last(), t);
        assert((a + b).drop_last() =~= a + b.drop_last());
        assert((a + b).last() == b.last());
        if b.last().timestamp@ == t {
            assert(stamped(a, t) + stamped(b, t) =~= (stamped(a, t) + stamped(b.drop_last(), t)).push(
                b.last(),
            ));
        }
    }
}

pub proof fn lemma_stamped_none(s: Seq<ProbeDataPoint>, t: Seq<char>)
    requires
        forall|i: int| 0 <= i < s.len() ==> (#[trigger] s[i]).timestamp@ != t,
    ensures
        stamped(s, t) == Seq::<ProbeDataPoint>::empty(),
    decreases s.len(),
{
    if s.len() > 0 {
        lemma_stamped_none(s.drop_last(), t);
    }
}

/// Text order (see `text_le`).
pub fn text_no_later(x: &str, y: &str) -> (r: bool)
    ensures
        r == text_le(x@, y@),
{
    let a = chars_of(x);
    let b = chars_of(y);
    let mut i: usize = 0;
    assert(a@.subrange(0, a@.len() as int) =~= a@);
    assert(b@.subrange(0, b@.len() as int) =~= b@);
    while i < a.len() && i < b.len() && a[i] == b[i]
        invariant
            i <= a.len(),
            i <= b.len(),
            text_le(a@, b@) == text_le(a@.subrange(i as int, a@.len() as int), b@.subrange(
                i as int,
                b@.len() as int,
            )),
        decreases a.len() - i,
    {
        assert(a@.subrange(i as int, a@.len() as int).drop_first() =~= a@.subrange(
            i + 1,
            a@.len() as int,
        ));
        assert(b@.subrange(i as int, b@.len() as int).drop_first() =~= b@.subrange(
            i + 1,
            b@.len() as int,
        ));
        i = i + 1;
    }
    if i == a.len() {
        true
    } else if i == b.len() {
        false
    } else {
        a[i] < b[i]
    }
}

/// Timestamp order on two samples.
pub fn stamped_no_later(p: &ProbeDataPoint, q: &ProbeDataPoint) -> (r: bool)
    ensures
        r == time_le(*p, *q),
{
    text_no_later(p.timestamp.as_str(), q.timestamp.as_str())
}

pub open spec fn texts_view(v: Seq<String>) -> Seq<Seq<char>> {
    v.map_values(|x: String| x@)
}

/// Ascending in text order.
pub open spec fn texts_sorted(s: Seq<Seq<char>>) -> bool {
    forall|i: int, j: int| 0 <= i < j < s.len() ==> #[trigger] text_le(s[i], s[j])
}

/// The texts in ascending text order: the same texts, as many times each.
pub fn sort_texts(v: &Vec<String>) -> (r: Vec<String>)
    ensures
        texts_sorted(texts_view(r@)),
        texts_view(r@).to_multiset() == texts_view(v@).to_multiset(),
{
    broadcast use vstd::seq_lib::group_to_multiset_ensures;
    let mut out: Vec<String> = Vec::new();
    let mut i: usize = 0;
    while i < v.len()
        invariant
            i <= v@.len(),
            texts_sorted(texts_view(out@)),
            texts_view(out@).to_multiset() == texts_view(v@.take(i as int)).to_multiset(),
        decreases v@.len() - i,
    {
        let x = v[i].clone();
        let mut p: usize = 0;
        while p < out.len() && text_no_later(out[p].as_str(), x.as_str())
            invariant
                p <= out@.len(),
                forall|q: int| 0 <= q < p ==> text_le(out@[q]@, x@),
            decreases out@.len() - p,
        {
            p = p + 1;
        }
        let ghost before = texts_view(out@);
        proof {
            if p < out@.len() {
                lemma_text_le_total(out@[p as int]@, x@);
            }
        }
        out.insert(p, x);
        proof {
            let after = texts_view(out@);
            assert(after =~= before.insert(p as int, x@));
            vstd::seq_lib::to_multiset_insert(before, p as int, x@);
            assert(texts_view(v@.take(i + 1)) =~= texts_view(v@.take(i as int)).push(x@));
            vstd::seq_lib::to_multiset_build(texts_view(v@.take(i as int)), x@);
            assert forall|a: int, b: int| 0 <= a < b < after.len() implies #[trigger] text_le(after[a], after[b]) by {
                if b < p {
                    assert(text_le(before[a], before[b]));
                } else if b == p {
                    assert(after[a] == before[a]);
                } else if a < p {
                    assert(after[b] == before[b - 1]);
                    assert(text_le(before[p as int], before[b - 1]) || p == b - 1);
                    if p < b - 1 {
                        assert(text_le(before[p as int], before[b - 1]));
                    }
                    lemma_text_le_trans(after[a], x@, before[p as int]);
                    if p < b - 1 {
                        lemma_text_le_trans(after[a], before[p as int], before[b - 1]);
                    }
                } else if a == p {
                    assert(after[b] == before[b - 1]);
                    if p < b - 1 {
                        assert(text_le(before[p as int], before[b - 1]));
                        lemma_text_le_trans(x@, before[p as int], before[b - 1]);
                    }
                } else {
                    assert(after[a] == before[a - 1]);
                    assert(after[b] == before[b - 1]);
                    assert(text_le(before[a - 1], before[b - 1]));
                }
            }
        }
        i = i + 1;
    }
    assert(v@.take(v@.len() as int) =~= v@);
    out
}

/// Ascending by timestamp, tested.
pub fn is_sorted_by_time(v: &Vec<ProbeDataPoint>) -> (r: bool)
    ensures
        r == sorted_by_time(v@),
{
    if v.len() == 0 {
        return true;
    }
    let mut i: usize = 1;
    while i < v.len()
        invariant
            1 <= i <= v.len(),
            sorted_by_time(v@.take(i as int)),
        decreases v.len() - i,
    {
        if !stamped_no_later(&v[i - 1], &v[i]) {
            assert(!sorted_by_time(v@)) by {
                assert(!time_le(v@[i - 1], v@[i as int]));
            }
            return false;
        }
        assert forall|a: int, b: int| 0 <= a < b < i + 1 implies #[trigger] time_le(
            v@.take(i + 1)[a],
            v@.take(i + 1)[b],
        ) by {
            if b == i {
                if a < i - 1 {
                    assert(time_le(v@.take(i as int)[a], v@.take(i as int)[i - 1]));
                    lemma_text_le_trans(
                        v@[a].timestamp@,
                        v@[i - 1].timestamp@,
                        v@[b].timestamp@,
                    );
                }
            } else {
                assert(time_le(v@.take(i as int)[a], v@.take(i as int)[b]));
            }
        }
        i = i + 1;
    }
    assert(v@.take(v@.len() as int) =~= v@);
    true
}

/// Merges two runs that are each ascending by timestamp into one ascending
/// run. Samples with equal timestamps keep their order, those of `a` first.
pub fn merge_two(a: &Vec<ProbeDataPoint>, b: &Vec<ProbeDataPoint>) -> (r: Vec<ProbeDataPoint>)
    requires
        sorted_by_time(a@),
        sorted_by_time(b@),
    ensures
        sorted_by_time(r@),
        r@.len() == a@.len() + b@.len(),
        forall|t: Seq<char>| #[trigger] stamped(r@, t) == stamped(a@, t) + stamped(b@, t),
{
    let mut r: Vec<ProbeDataPoint> = Vec::new();
    let mut i: usize = 0;
    let mut j: usize = 0;
    while i < a.len() || j < b.len()
        invariant
            i <= a.len(),
            j <= b.len(),
            r@.len() == i + j,
            sorted_by_time(a@),
            sorted_by_time(b@),
            sorted_by_time(r@),
            forall|t: Seq<char>|
                #[trigger] stamped(r@, t) == stamped(a@.take(i as int), t) + stamped(
                    b@.take(j as int),
                    t,
                ),
            r@.len() > 0 && i < a.len() ==> time_le(r@.last(), a@[i as int]),
            r@.len() > 0 && j < b.len() ==> time_le(r@.last(), b@[j as int]),
            j > 0 && i < a.len() ==> !time_le(a@[i as int], b@[j - 1]),
        decreases a.len() + b.len() - i - j,
    {
        let take_a = if i == a.len() {
            false
        } else if j == b.len() {
            true
        } else {
            stamped_no_later(&a[i], &b[j])
        };
        let ghost r0 = r@;
        if take_a {
            let x = a[i].duplicate();
            proof {
                assert forall|k: int| 0 <= k < r0.len() implies #[trigger] time_le(r0[k], x) by {
                    if k < r0.len() - 1 {
                        assert(time_le(r0[k], r0[r0.len() - 1]));
                        lemma_text_le_trans(r0[k].timestamp@, r0.last().timestamp@, x.timestamp@);
                    }
                }
                assert forall|t: Seq<char>| #[trigger]
                    stamped(r0.push(x), t) == stamped(a@.take(i + 1), t) + stamped(
                        b@.take(j as int),
                        t,
                    ) by {
                    assert(a@.take(i + 1).drop_last() =~= a@.take(i as int));
                    assert(r0.push(x).drop_last() =~= r0);
                    if x.timestamp@ == t {
                        assert forall|k: int| 0 <= k < b@.take(j as int).len() implies (
                        #[trigger] b@.take(j as int)[k]).timestamp@ != t by {
                            if b@[k].timestamp@ == t {
                                if k < j - 1 {
                                    assert(time_le(b@[k], b@[j - 1]));
                                } else {
                                    lemma_text_le_total(t, t);
                                }
                                assert(time_le(a@[i as int], b@[j - 1]));
                            }
                        }
                        lemma_stamped_none(b@.take(j as int), t);
                        assert(stamped(b@.take(j as int), t) =~= seq![]);
                        assert(stamped(r0.push(x), t) == stamped(r0, t).push(x));
                        assert(stamped(a@.take(i + 1), t) == stamped(a@.take(i as int), t).push(x));
                        assert(stamped(a@.take(i + 1), t) + stamped(b@.take(j as int), t)
                            =~= stamped(a@.take(i as int), t).push(x));
                        assert(stamped(r0, t) =~= stamped(a@.take(i as int), t));
                    } else {
                        assert(stamped(r0.push(x), t) == stamped(r0, t));
                        assert(stamped(a@.take(i + 1), t) == stamped(a@.take(i as int), t));
                    }
                }
                if i + 1 < a.len() {
                    assert(time_le(a@[i as int], a@[i + 1]));
                    if j > 0 && time_le(a@[i + 1], b@[j - 1]) {
                        lemma_text_le_trans(
                            a@[i as int].timestamp@,
                            a@[i + 1].timestamp@,
                            b@[j - 1].timestamp@,
                        );
                    }
                }
            }
            r.push(x);
            i = i + 1;
            proof {
                assert(sorted_by_time(r@)) by {
                    assert forall|p: int, q: int| 0 <= p < q < r@.len() implies #[trigger] time_le(
                        r@[p],
                        r@[q],
                    ) by {
                        if q < r@.len() - 1 {
                            assert(time_le(r0[p], r0[q]));
                        }
                    }
                }
            }
        } else {
            let y = b[j].duplicate();
            proof {
                if i < a.len() {
                    lemma_text_le_total(a@[i as int].timestamp@, y.timestamp@);
                }
                assert forall|k: int| 0 <= k < r0.len() implies #[trigger] time_le(r0[k], y) by {
                    if k < r0.len() - 1 {
                        assert(time_le(r0[k], r0[r0.len() - 1]));
                        lemma_text_le_trans(r0[k].timestamp@, r0.last().timestamp@, y.timestamp@);
                    }
                }
                assert forall|t: Seq<char>| #[trigger]
                    stamped(r0.push(y), t) == stamped(a@.take(i as int), t) + stamped(
                        b@.take(j + 1),
                        t,
                    ) by {
                    assert(b@.take(j + 1).drop_last() =~= b@.take(j as int));
                    assert(r0.push(y).drop_last() =~= r0);
                    if y.timestamp@ == t {
                        assert(stamped(r0.push(y), t) == stamped(r0, t).push(y));
                        assert(stamped(b@.take(j + 1), t) == stamped(b@.take(j as int), t).push(y));
                        assert(stamped(a@.take(i as int), t) + stamped(b@.take(j as int), t).push(y)
                            =~= (stamped(a@.take(i as int), t) + stamped(b@.take(j as int), t)).push(
                            y,
                        ));
                    } else {
                        assert(stamped(r0.push(y), t) == stamped(r0, t));
                        assert(stamped(b@.take(j + 1), t) == stamped(b@.take(j as int), t));
                    }
                }
                if j + 1 < b.len() {
                    assert(time_le(b@[j as int], b@[j + 1]));
                }
            }
            r.push(y);
            j = j + 1;
            proof {
                assert(sorted_by_time(r@)) by {
                    assert forall|p: int, q: int| 0 <= p < q < r@.len() implies #[trigger] time_le(
                        r@[p],
                        r@[q],
                    ) by {
                        if q < r@.len() - 1 {
                            assert(time_le(r0[p], r0[q]));
                        }
                    }
                }
            }
        }
    }
    assert(a@.take(a@.len() as int) =~= a@);
    assert(b@.take(b@.len() as int) =~= b@);
    r
}

/// The timestamps of a sequence of samples, in order.
pub open spec fn timestamps(s: Seq<ProbeDataPoint>) -> Seq<Seq<char>> {
    s.map_values(|p: ProbeDataPoint| p.timestamp@)
}

/// Two timestamp-ascending sequences with as many samples of every timestamp
/// have the same sequence of timestamps: the order in which partitions were
/// read changes at most the order of samples that share a timestamp.
pub proof fn lemma_same_counts_same_timestamps(r1: Seq<ProbeDataPoint>, r2: Seq<ProbeDataPoint>)
    requires
        sorted_by_time(r1),
        sorted_by_time(r2),
        forall|t: Seq<char>| #[trigger] stamped(r1, t).len() == stamped(r2, t).len(),
    ensures
        timestamps(r1) == timestamps(r2),
    decreases r1.len() + r2.len(),
{
    if r1.len() == 0 || r2.len() == 0 {
        if r1.len() > 0 {
            lemma_stamped_last(r1);
            lemma_stamped_none(r2, r1.last().timestamp@);
            assert(stamped(r1, r1.last().timestamp@).len() == stamped(r2, r1.last().timestamp@).len());
        } else if r2.len() > 0 {
            lemma_stamped_last(r2);
            lemma_stamped_none(r1, r2.last().timestamp@);
            assert(stamped(r1, r2.last().timestamp@).len() == stamped(r2, r2.last().timestamp@).len());
        } else {
            assert(timestamps(r1) =~= timestamps(r2));
        }
    } else {
        let k1 = r1.last().timestamp@;
        let k2 = r2.last().timestamp@;
        if k1 != k2 {
            lemma_text_le_total(k1, k2);
            if text_le(k1, k2) {
                lemma_below_last(r1, k2);
                lemma_stamped_last(r2);
                assert(stamped(r1, k2).len() == stamped(r2, k2).len());
            } else {
                lemma_below_last(r2, k1);
                lemma_stamped_last(r1);
                assert(stamped(r1, k1).len() == stamped(r2, k1).len());
            }
        }
        let d1 = r1.drop_last();
        let d2 = r2.drop_last();
        assert forall|t: Seq<char>| #[trigger] stamped(d1, t).len() == stamped(d2, t).len() by {
            assert(stamped(r1, t).len() == stamped(r2, t).len());
        }
        assert(sorted_by_time(d1)) by {
            assert forall|i: int, j: int| 0 <= i < j < d1.len() implies #[trigger] time_le(d1[i], d1[j]) by {
                assert(time_le(r1[i], r1[j]));
            }
        }
        assert(sorted_by_time(d2)) by {
            assert forall|i: int, j: int| 0 <= i < j < d2.len() implies #[trigger] time_le(d2[i], d2[j]) by {
                assert(time_le(r2[i], r2[j]));
            }
        }
        lemma_same_counts_same_timestamps(d1, d2);
        assert(timestamps(r1) =~= timestamps(d1).push(k1));
        assert(timestamps(r2) =~= timestamps(d2).push(k2));
    }
}

proof fn lemma_stamped_last(r: Seq<ProbeDataPoint>)
    requires
        r.len() > 0,
    ensures
        stamped(r, r.last().timestamp@).len() > 0,
{
}

/// In an ascending sequence whose last timestamp is at most `k` and is not
/// `k`, no sample is stamped `k`.
proof fn lemma_below_last(r: Seq<ProbeDataPoint>, k: Seq<char>)
    requires
        r.len() > 0,
        sorted_by_time(r),
        text_le(r.last().timestamp@, k),
        r.last().timestamp@ != k,
    ensures
        stamped(r, k).len() == 0,
{
    assert forall|i: int| 0 <= i < r.len() implies (#[trigger] r[i]).timestamp@ != k by {
        if r[i].timestamp@ == k && i < r.len() - 1 {
            assert(time_le(r[i], r[r.len() - 1]));
            lemma_text_le_antisym(k, r.last().timestamp@);
        }
    }
    lemma_stamped_none(r, k);
}

} // verus!
