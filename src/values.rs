//! Numeric probe values: decimal text read as fixed-point thousandths.

use vstd::prelude::*;
use crate::calendar::{digits_value, all_digits};
use crate::text::{chars_of, digit_value};

verus! {

/// The largest magnitude, in thousandths, that a value may have.
pub const MAX_MILLI: i64 = 100_000_000_000_000_000;

/// Length of a leading sign.
pub open spec fn sign_len(s: Seq<char>) -> int {
    if s.len() > 0 && (s[0] == '-' || s[0] == '+') { 1 } else { 0 }
}

/// Index of the first `.` in `s`, or its length.
pub open spec fn dot_at(s: Seq<char>) -> int
    decreases s.len(),
{
    if s.len() == 0 {
        0
    } else if s[0] == '.' {
        0
    } else {
        1 + dot_at(s.drop_first())
    }
}

/// Thousandths given by the digits after the point (the first three count).
pub open spec fn frac_milli(f: Seq<char>) -> int {
    let d = |i: int| (f[i] as int - '0' as int);
    if f.len() == 0 {
        0
    } else if f.len() == 1 {
        d(0) * 100
    } else if f.len() == 2 {
        d(0) * 100 + d(1) * 10
    } else {
        d(0) * 100 + d(1) * 10 + d(2)
    }
}

/// The text after a leading sign.
pub open spec fn value_body(s: Seq<char>) -> Seq<char> {
    s.subrange(sign_len(s), s.len() as int)
}

/// The digits before the point.
pub open spec fn int_part(s: Seq<char>) -> Seq<char> {
    value_body(s).subrange(0, dot_at(value_body(s)))
}

pub open spec fn has_point(s: Seq<char>) -> bool {
    dot_at(value_body(s)) < value_body(s).len()
}

/// The digits after the point.
pub open spec fn frac_part(s: Seq<char>) -> Seq<char> {
    if has_point(s) {
        value_body(s).subrange(dot_at(value_body(s)) + 1, value_body(s).len() as int)
    } else {
        seq![]
    }
}

/// `[+-]digits[.digits]`.
pub open spec fn value_shaped(s: Seq<char>) -> bool {
    &&& int_part(s).len() >= 1
    &&& all_digits(int_part(s))
    &&& has_point(s) ==> frac_part(s).len() >= 1 && all_digits(frac_part(s))
}

pub open spec fn magnitude(s: Seq<char>) -> int {
    digits_value(int_part(s)) * 1000 + frac_milli(frac_part(s))
}

/// The value of decimal text `[+-]digits[.digits]` in thousandths, rounded
/// toward zero; `None` for other text or a magnitude above `MAX_MILLI`.
pub open spec fn milli_of(s: Seq<char>) -> Option<int> {
    if value_shaped(s) && magnitude(s) <= MAX_MILLI {
        Some(if sign_len(s) == 1 && s[0] == '-' { -magnitude(s) } else { magnitude(s) })
    } else {
        None
    }
}

proof fn lemma_dot_at(s: Seq<char>)
    ensures
        0 <= dot_at(s) <= s.len(),
        dot_at(s) < s.len() ==> s[dot_at(s)] == '.',
        forall|i: int| 0 <= i < dot_at(s) ==> s[i] != '.',
    decreases s.len(),
{
    if s.len() > 0 && s[0] != '.' {
        lemma_dot_at(s.drop_first());
        assert forall|i: int| 0 <= i < dot_at(s) implies s[i] != '.' by {
            if i > 0 {
                assert(s[i] == s.drop_first()[i - 1]);
            }
        }
    }
}

proof fn lemma_digits_value_grows(t: Seq<char>, k: int)
    requires
        0 <= k <= t.len(),
        all_digits(t),
    ensures
        digits_value(t) >= digits_value(t.subrange(0, k)),
        digits_value(t) >= 0,
    decreases t.len(),
{
    if t.len() > 0 {
        assert(all_digits(t.drop_last())) by {
            assert forall|i: int| 0 <= i < t.drop_last().len() implies #[trigger] digit_value(
                t.drop_last()[i],
            ) is Some by {
                assert(t.drop_last()[i] == t[i]);
            }
        }
        assert(digit_value(t[t.len() - 1]) is Some);
        if k == t.len() {
            assert(t.subrange(0, k) =~= t);
            lemma_digits_value_grows(t.drop_last(), 0);
        } else {
            lemma_digits_value_grows(t.drop_last(), k);
            assert(t.drop_last().subrange(0, k) =~= t.subrange(0, k));
        }
    } else {
        assert(t.subrange(0, k) =~= t);
    }
}

/// Reads decimal text as thousandths (see `milli_of`).
pub fn parse_milli(s: &str) -> (r: Option<i64>)
    ensures
        r matches Some(v) ==> milli_of(s@) == Some(v as int),
        r is None ==> milli_of(s@) is None,
{
    let cs = chars_of(s);
    let n = cs.len();
    let start: usize = if n > 0 && (cs[0] == '-' || cs[0] == '+') { 1 } else { 0 };
    let negative = n > 0 && cs[0] == '-';
    let ghost body = s@.subrange(start as int, n as int);
    assert(sign_len(s@) == start as int);
    assert(value_body(s@) == body);
    proof { lemma_dot_at(body); }
    // integer part
    let mut i: usize = start;
    let mut whole: u64 = 0;
    while i < n && cs[i] != '.'
        invariant
            start <= i <= n,
            n == cs@.len(),
            cs@ == s@,
            body == s@.subrange(start as int, n as int),
            value_body(s@) == body,
            forall|k: int| start <= k < i ==> cs@[k] != '.',
            all_digits(cs@.subrange(start as int, i as int)),
            whole as int == digits_value(cs@.subrange(start as int, i as int)),
            whole <= 100_000_000_000_000,
        decreases n - i,
    {
        let c = cs[i];
        if !('0' <= c && c <= '9') {
            proof {
                lemma_dot_at(body);
                assert(body[i - start] == c);
                assert(dot_at(body) > i - start) by {
                    if dot_at(body) <= i - start {
                        assert(body[dot_at(body)] == cs@[start + dot_at(body)]);
                    }
                }
                assert(body.subrange(0, dot_at(body))[i - start] == c);
                assert(digit_value(body.subrange(0, dot_at(body))[i - start]) is None);
                assert(!all_digits(body.subrange(0, dot_at(body))));
                assert(!value_shaped(s@));
            }
            return None;
        }
        let ghost prev = cs@.subrange(start as int, i as int);
        assert(cs@.subrange(start as int, i + 1).drop_last() =~= prev);
        assert(all_digits(cs@.subrange(start as int, i + 1))) by {
            assert forall|k: int| 0 <= k < i + 1 - start implies #[trigger] digit_value(
                cs@.subrange(start as int, i + 1)[k],
            ) is Some by {
                if k < i - start {
                    assert(cs@.subrange(start as int, i + 1)[k] == prev[k]);
                }
            }
        }
        let d: u64 = (c as u64) - ('0' as u64);
        whole = whole * 10 + d;
        i = i + 1;
        if whole > 100_000_000_000_000 {
            proof {
                lemma_dot_at(body);
                let p = dot_at(body);
                assert(p >= i - start) by {
                    if p < i - start {
                        assert(body[p] == cs@[start + p]);
                    }
                }
                if p < body.len() {
                    assert(body[p] == '.');
                }
                let ip = body.subrange(0, p);
                assert(ip.subrange(0, i - start) =~= cs@.subrange(start as int, i as int));
                if all_digits(ip) {
                    lemma_digits_value_grows(ip, i - start);
                    let frac = if p < body.len() { body.subrange(p + 1, body.len() as int) } else { seq![] };
                    if p < body.len() && frac.len() >= 1 && all_digits(frac) {
                        assert(digit_value(frac[0]) is Some);
                        if frac.len() >= 2 { assert(digit_value(frac[1]) is Some); }
                        if frac.len() >= 3 { assert(digit_value(frac[2]) is Some); }
                        assert(frac_milli(frac) >= 0);
                    }
                    assert(frac == frac_part(s@));
                    assert(digits_value(ip) * 1000 + frac_milli(frac) > MAX_MILLI || !(p < body.len() ==> (frac.len() >= 1 && all_digits(frac))));
                }
                assert(ip == int_part(s@));
            }
            return None;
        }
    }
    let ghost p = (i - start) as int;
    proof {
        lemma_dot_at(body);
        if i < n {
            assert(body[p] == '.');
        }
        assert(forall|k: int| 0 <= k < p ==> body[k] == cs@[start + k]);
        assert(dot_at(body) == p) by {
            if dot_at(body) < p {
                assert(body[dot_at(body)] == '.');
                assert(cs@[start + dot_at(body)] == '.');
            }
        }
        assert(body.subrange(0, p) =~= cs@.subrange(start as int, i as int));
    }
    if i == start {
        return None;
    }
    // fraction
    let mut frac: u64 = 0;
    if i < n {
        let fs = i + 1;
        if fs == n {
            return None;
        }
        let mut j: usize = fs;
        while j < n
            invariant
                fs <= j <= n,
                n == cs@.len(),
                cs@ == s@,
                body == s@.subrange(start as int, n as int),
                p == i - start,
                i < n,
                start <= i,
                fs == i + 1,
                dot_at(body) == p,
                value_body(s@) == body,
                all_digits(cs@.subrange(fs as int, j as int)),
            decreases n - j,
        {
            let c = cs[j];
            if !('0' <= c && c <= '9') {
                assert(cs@.subrange(fs as int, n as int)[j - fs] == c);
                assert(body.subrange(p + 1, body.len() as int) =~= cs@.subrange(fs as int, n as int));
                assert(digit_value(cs@.subrange(fs as int, n as int)[j - fs]) is None);
                assert(!all_digits(body.subrange(p + 1, body.len() as int)));
                assert(frac_part(s@) == body.subrange(p + 1, body.len() as int));
                return None;
            }
            assert(all_digits(cs@.subrange(fs as int, j + 1))) by {
                assert forall|k: int| 0 <= k < j + 1 - fs implies #[trigger] digit_value(
                    cs@.subrange(fs as int, j + 1)[k],
                ) is Some by {
                    if k < j - fs {
                        assert(cs@.subrange(fs as int, j + 1)[k] == cs@.subrange(fs as int, j as int)[k]);
                    }
                }
            }
            j = j + 1;
        }
        let ghost f = cs@.subrange(fs as int, n as int);
        assert(body.subrange(p + 1, body.len() as int) =~= f);
        assert(digit_value(f[0]) is Some);
        let d0: u64 = (cs[fs] as u64) - ('0' as u64);
        frac = d0 * 100;
        if fs + 1 < n {
            assert(digit_value(f[1]) is Some);
            frac = frac + ((cs[fs + 1] as u64) - ('0' as u64)) * 10;
            if fs + 2 < n {
                assert(digit_value(f[2]) is Some);
                frac = frac + ((cs[fs + 2] as u64) - ('0' as u64));
            }
        }
        assert(frac as int == frac_milli(f));
    } else {
        assert(body.len() == p);
    }
    let magnitude: u64 = whole * 1000 + frac;
    if magnitude > 100_000_000_000_000_000 {
        return None;
    }
    let m: i64 = magnitude as i64;
    if negative { Some(-m) } else { Some(m) }
}

} // verus!
