//! SVG text pieces: numbers, escaped text, colours and labels.

use vstd::prelude::*;
use crate::text::{decimal, padded, signed_decimal, push_decimal, push_signed, push_padded, digit_char, digit_of};

verus! {

/// XML escape of one character.
pub open spec fn escape_char(c: char) -> Seq<char> {
    if c == '&' {
        "&amp;"@
    } else if c == '<' {
        "&lt;"@
    } else if c == '>' {
        "&gt;"@
    } else if c == '"' {
        "&quot;"@
    } else {
        seq![c]
    }
}

/// XML escape of a text.
pub open spec fn escape(s: Seq<char>) -> Seq<char>
    decreases s.len(),
{
    if s.len() == 0 {
        seq![]
    } else {
        escape(s.drop_last()) + escape_char(s.last())
    }
}

/// Appends the XML escape of `s`.
pub fn push_escaped(out: &mut Vec<char>, s: &str)
    ensures
        final(out)@ == old(out)@ + escape(s@),
{
    let cs = crate::text::chars_of(s);
    let mut i: usize = 0;
    while i < cs.len()
        invariant
            i <= cs@.len(),
            cs@ == s@,
            out@ == old(out)@ + escape(cs@.take(i as int)),
        decreases cs@.len() - i,
    {
        let c = cs[i];
        let ghost before = out@;
        if c == '&' {
            crate::text::push_str(out, "&amp;");
        } else if c == '<' {
            crate::text::push_str(out, "&lt;");
        } else if c == '>' {
            crate::text::push_str(out, "&gt;");
        } else if c == '"' {
            crate::text::push_str(out, "&quot;");
        } else {
            out.push(c);
        }
        assert(cs@.take(i + 1).drop_last() =~= cs@.take(i as int));
        assert(out@ =~= old(out)@ + escape(cs@.take(i + 1)));
        i = i + 1;
    }
    assert(cs@.take(cs@.len() as int) =~= cs@);
}

/// The colour of the series at a position: a fixed palette, by position.
pub open spec fn palette(k: int) -> Seq<char> {
    let m = k % 8;
    if m == 0 {
        "#1f77b4"@
    } else if m == 1 {
        "#ff7f0e"@
    } else if m == 2 {
        "#2ca02c"@
    } else if m == 3 {
        "#d62728"@
    } else if m == 4 {
        "#9467bd"@
    } else if m == 5 {
        "#8c564b"@
    } else if m == 6 {
        "#e377c2"@
    } else {
        "#7f7f7f"@
    }
}

pub fn push_color(out: &mut Vec<char>, k: usize)
    ensures
        final(out)@ == old(out)@ + palette(k as int),
{
    let m = k % 8;
    if m == 0 {
        crate::text::push_str(out, "#1f77b4");
    } else if m == 1 {
        crate::text::push_str(out, "#ff7f0e");
    } else if m == 2 {
        crate::text::push_str(out, "#2ca02c");
    } else if m == 3 {
        crate::text::push_str(out, "#d62728");
    } else if m == 4 {
        crate::text::push_str(out, "#9467bd");
    } else if m == 5 {
        crate::text::push_str(out, "#8c564b");
    } else if m == 6 {
        crate::text::push_str(out, "#e377c2");
    } else {
        crate::text::push_str(out, "#7f7f7f");
    }
}

/// A value in thousandths written with one decimal, rounded toward zero.
pub open spec fn value_label(v: int) -> Seq<char> {
    let a = if v < 0 { -v } else { v };
    (if v < 0 && a >= 100 { "-"@ } else { seq![] }) + decimal((a / 1000) as nat) + "."@ + seq![
        digit_char(((a % 1000) / 100) as nat),
    ]
}

pub fn push_value_label(out: &mut Vec<char>, v: i128)
    requires
        -10_000_000_000_000_000_000 <= v <= 10_000_000_000_000_000_000,
    ensures
        final(out)@ == old(out)@ + value_label(v as int),
{
    let a: i128 = if v < 0 { -v } else { v };
    if v < 0 && a >= 100 {
        crate::text::push_str(out, "-");
    }
    push_decimal(out, (a / 1000) as u64);
    crate::text::push_str(out, ".");
    out.push(digit_of(((a % 1000) / 100) as u64));
    assert(out@ =~= old(out)@ + value_label(v as int));
}

/// `HH:MM` in UTC of a Unix time; `--:--` before 1970.
pub open spec fn time_label(t: int) -> Seq<char> {
    if t < 0 {
        "--:--"@
    } else {
        padded(((t % 86400) / 3600) as nat, 2) + ":"@ + padded(((t % 3600) / 60) as nat, 2)
    }
}

pub fn push_time_label(out: &mut Vec<char>, t: i128)
    ensures
        final(out)@ == old(out)@ + time_label(t as int),
{
    if t < 0 {
        crate::text::push_str(out, "--:--");
    } else {
        push_padded(out, ((t % 86400) / 3600) as u64, 2);
        crate::text::push_str(out, ":");
        push_padded(out, ((t % 3600) / 60) as u64, 2);
    }
    assert(out@ =~= old(out)@ + time_label(t as int));
}

/// A signed integer for an attribute value.
pub open spec fn num(n: int) -> Seq<char> {
    signed_decimal(n)
}

pub fn push_num(out: &mut Vec<char>, n: i128)
    requires
        -9_223_372_036_854_775_808 <= n <= 9_223_372_036_854_775_807,
    ensures
        final(out)@ == old(out)@ + num(n as int),
{
    push_signed(out, n as i64);
}

} // verus!
