//! Query strings of dashboard requests, and the date range they ask for.

use vstd::prelude::*;
use crate::clock::{UtcInstant, now_utc};
use crate::errors::StoreError;
use crate::date_range::{DateRange, days_before, custom_start_time, custom_end_time};
use crate::calendar::{parse_date_spec, midnight_of};
use crate::text::{chars_of, find_char, find_from, string_between, same_text};

verus! {

/// `key=value` split at the first `=`; `None` without one.
pub open spec fn pair_of(seg: Seq<char>) -> Option<(Seq<char>, Seq<char>)> {
    let i = find_char(seg, '=');
    if i < seg.len() {
        Some((seg.subrange(0, i), seg.subrange(i + 1, seg.len() as int)))
    } else {
        None
    }
}

/// The pairs of a query string: its `&`-separated parts that hold a `=`, in order.
pub open spec fn query_pairs(q: Seq<char>) -> Seq<(Seq<char>, Seq<char>)>
    decreases q.len(),
{
    let i = find_char(q, '&');
    let head = match pair_of(q.subrange(0, i)) {
        Some(p) => seq![p],
        None => seq![],
    };
    if i < q.len() && 0 <= i {
        head + query_pairs(q.subrange(i + 1, q.len() as int))
    } else {
        head
    }
}

pub open spec fn pairs_view(v: Seq<(String, String)>) -> Seq<(Seq<char>, Seq<char>)> {
    v.map_values(|p: (String, String)| (p.0@, p.1@))
}

fn parse_pairs_from(cs: &Vec<char>, start: usize, out: &mut Vec<(String, String)>)
    requires
        start <= cs@.len(),
    ensures
        pairs_view(final(out)@) == pairs_view(old(out)@) + query_pairs(
            cs@.subrange(start as int, cs@.len() as int),
        ),
    decreases cs@.len() - start,
{
    let ghost q = cs@.subrange(start as int, cs@.len() as int);
    let end = find_from(cs, start, '&');
    let eq = find_from(cs, start, '=');
    let ghost seg = q.subrange(0, end - start);
    proof {
        crate::text::lemma_find_char(q, '=');
        crate::text::lemma_find_char(cs@.subrange(start as int, cs@.len() as int), '=');
        assert(seg =~= cs@.subrange(start as int, end as int));
        let k = if eq < end { eq - start } else { end - start };
        assert forall|i: int| 0 <= i < k implies seg[i] != '=' by {
            assert(seg[i] == q[i]);
        }
        if eq < end {
            assert(seg[eq - start] == q[eq - start]);
        }
        crate::text::lemma_find_char_is(seg, '=', k as int);
    }
    let ghost before = pairs_view(out@);
    if eq < end {
        let key = string_between(cs, start, eq);
        let value = string_between(cs, eq + 1, end);
        out.push((key, value));
        assert(seg.subrange(0, eq - start) =~= cs@.subrange(start as int, eq as int));
        assert(seg.subrange(eq - start + 1, seg.len() as int) =~= cs@.subrange(eq + 1, end as int));
        assert(pairs_view(out@) =~= before + seq![pair_of(seg)->0]);
    } else {
        assert(pair_of(seg) is None);
    }
    let ghost mid = pairs_view(out@);
    if end < cs.len() {
        parse_pairs_from(cs, end + 1, out);
        assert(q.subrange(end - start + 1, q.len() as int) =~= cs@.subrange(end + 1, cs@.len() as int));
        assert(pairs_view(out@) =~= pairs_view(old(out)@) + query_pairs(q));
    } else {
        assert(pairs_view(out@) =~= pairs_view(old(out)@) + query_pairs(q));
    }
}

/// The `key=value` pairs of a query string, in order (none without a query).
pub fn parse_query_string(query: Option<&str>) -> (r: Vec<(String, String)>)
    ensures
        match query {
            Some(q) => pairs_view(r@) == query_pairs(q@),
            None => r@.len() == 0,
        },
{
    let mut out: Vec<(String, String)> = Vec::new();
    match query {
        Some(q) => {
            let cs = chars_of(q);
            parse_pairs_from(&cs, 0, &mut out);
            assert(pairs_view(out@) =~= query_pairs(q@)) by {
                assert(cs@.subrange(0, cs@.len() as int) =~= q@);
                assert(pairs_view(Seq::<(String, String)>::empty()) =~= seq![]);
            }
        },
        None => {},
    }
    out
}

/// The value of the last pair with the given key: a later pair overrides an
/// earlier one.
pub open spec fn param_value(pairs: Seq<(Seq<char>, Seq<char>)>, key: Seq<char>) -> Option<Seq<char>>
    decreases pairs.len(),
{
    if pairs.len() == 0 {
        None
    } else if pairs.last().0 == key {
        Some(pairs.last().1)
    } else {
        param_value(pairs.drop_last(), key)
    }
}

/// Looks up a query parameter (see `param_value`).
pub fn query_param(pairs: &Vec<(String, String)>, key: &str) -> (r: Option<String>)
    ensures
        match r {
            Some(v) => param_value(pairs_view(pairs@), key@) == Some(v@),
            None => param_value(pairs_view(pairs@), key@) is None,
        },
{
    let mut i: usize = pairs.len();
    assert(pairs@.take(i as int) =~= pairs@);
    while i > 0
        invariant
            i <= pairs@.len(),
            param_value(pairs_view(pairs@), key@) == param_value(pairs_view(pairs@.take(i as int)), key@),
        decreases i,
    {
        assert(pairs_view(pairs@.take(i as int)).drop_last() =~= pairs_view(pairs@.take(i - 1)));
        if same_text(pairs[i - 1].0.as_str(), key) {
            return Some(pairs[i - 1].1.clone());
        }
        i = i - 1;
    }
    None
}

/// The kind of range a dashboard request asks for.
#[derive(Debug, PartialEq, Eq)]
pub enum RangeRequest {
    Today,
    LastDays(u32),
    Custom(String, String),
}

pub open spec fn param_or_empty(pairs: Seq<(Seq<char>, Seq<char>)>, key: Seq<char>) -> Seq<char> {
    match param_value(pairs, key) {
        Some(v) => v,
        None => seq![],
    }
}

/// What `range` asks for: `today`, `7d`, `30d`, or `custom` with `start` and
/// `end`; anything else means today.
pub open spec fn range_request_spec(pairs: Seq<(Seq<char>, Seq<char>)>, r: RangeRequest) -> bool {
    match param_value(pairs, "range"@) {
        Some(v) => if v == "7d"@ {
            r == RangeRequest::LastDays(7)
        } else if v == "30d"@ {
            r == RangeRequest::LastDays(30)
        } else if v == "custom"@ {
            r matches RangeRequest::Custom(s, e) && s@ == param_or_empty(pairs, "start"@) && e@
                == param_or_empty(pairs, "end"@)
        } else {
            r == RangeRequest::Today
        },
        None => r == RangeRequest::Today,
    }
}

fn value_or_empty(pairs: &Vec<(String, String)>, key: &str) -> (r: String)
    ensures
        r@ == param_or_empty(pairs_view(pairs@), key@),
{
    match query_param(pairs, key) {
        Some(v) => v,
        None => String::new(),
    }
}

/// The range that a query string asks for.
pub fn range_request(query: Option<&str>) -> (r: RangeRequest)
    ensures
        match query {
            Some(q) => range_request_spec(query_pairs(q@), r),
            None => r == RangeRequest::Today,
        },
{
    let pairs = parse_query_string(query);
    let range = query_param(&pairs, "range");
    let r = match range {
        Some(v) => {
            if same_text(v.as_str(), "7d") {
                RangeRequest::LastDays(7)
            } else if same_text(v.as_str(), "30d") {
                RangeRequest::LastDays(30)
            } else if same_text(v.as_str(), "custom") {
                RangeRequest::Custom(value_or_empty(&pairs, "start"), value_or_empty(&pairs, "end"))
            } else {
                RangeRequest::Today
            }
        },
        None => RangeRequest::Today,
    };
    proof {
        if query is None {
            assert(param_value(pairs_view(pairs@), "range"@) is None);
        }
    }
    r
}

/// The range that a request gives at the instant `now`.
/// What a request gives at the instant `now`: its range, or a validation
/// error for an empty day count or a custom range that is malformed or
/// inverted.
pub open spec fn range_for(req: RangeRequest, now: UtcInstant, r: Result<DateRange, StoreError>) -> bool {
    match req {
        RangeRequest::Today => r == Ok::<DateRange, StoreError>(DateRange::today_spec(now)),
        RangeRequest::LastDays(n) => if n >= 1 {
            r matches Ok(range) && range.start_date == days_before(now.date, (n - 1) as nat)
                && range.end_date == now.date && range.start_time == midnight_of(range.start_date)
                && range.end_time == now.unix_seconds
        } else {
            r matches Err(e) && e is InvalidQuery
        },
        RangeRequest::Custom(s, e) => match (parse_date_spec(s@), parse_date_spec(e@)) {
            (Some(a), Some(b)) => if b.lt(a) {
                r matches Err(e) && e is InvalidQuery
            } else {
                r matches Ok(range) && range.start_date == a && range.end_date == b
                    && range.start_time == custom_start_time(a, b, now) && range.end_time
                    == custom_end_time(b, now)
            },
            _ => r matches Err(e) && e is InvalidQuery,
        },
    }
}

impl DateRange {
    /// The range of a request at the instant `now`; a request that is not
    /// valid is refused with `InvalidQuery`.
    pub fn for_request(req: &RangeRequest, now: UtcInstant) -> (r: Result<DateRange, StoreError>)
        requires
            now.wf(),
        ensures
            r matches Ok(range) ==> range.wf(),
            range_for(*req, now, r),
    {
        match req {
            RangeRequest::Today => Ok(DateRange::today_at(now)),
            RangeRequest::LastDays(n) => {
                if *n >= 1 {
                    Ok(DateRange::last_n_days_at(now, *n))
                } else {
                    Err(StoreError::InvalidQuery(String::from_str("A range must cover at least one day")))
                }
            },
            RangeRequest::Custom(s, e) => DateRange::custom_at(s.as_str(), e.as_str(), now),
        }
    }
}

/// The request that a query string makes (see `range_request_spec`).
pub open spec fn request_for(query: Option<Seq<char>>, req: RangeRequest) -> bool {
    match query {
        Some(q) => range_request_spec(query_pairs(q), req),
        None => req == RangeRequest::Today,
    }
}

/// `r` is what the query asks for at some valid instant.
pub open spec fn range_answers(query: Option<Seq<char>>, r: Result<DateRange, StoreError>) -> bool {
    exists|now: UtcInstant, req: RangeRequest|
        now.wf() && request_for(query, req) && #[trigger] range_for(req, now, r)
}

/// The range that a dashboard query string asks for, by the system clock;
/// `InvalidQuery` for a custom range that is malformed or inverted.
pub fn parse_date_range_from_query(query: Option<&str>) -> (r: Result<DateRange, StoreError>)
    ensures
        r matches Ok(range) ==> range.wf(),
        range_answers(
            match query {
                Some(q) => Some(q@),
                None => None,
            },
            r,
        ),
{
    let req = range_request(query);
    let now = now_utc();
    let r = DateRange::for_request(&req, now);
    let ghost qv = match query {
        Some(q) => Some(q@),
        None => None::<Seq<char>>,
    };
    assert(request_for(qv, req));
    assert(range_for(req, now, r));
    r
}

} // verus!
