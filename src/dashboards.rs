//! The charts of a node's dashboard, built from query rows: CPU, memory,
//! temperature, network, disk and forks.

use vstd::prelude::*;
use crate::chart::{ChartData, MetricPoint, TimeSeries};
use crate::grouping::{IndexedSeries, group_metrics_by_index, indexed_points_spec, points_at, row_point, point_of};
use crate::record::ProbeDataPoint;
use crate::text::{chars_of, decimal, push_decimal, push_str, string_of};

verus! {

/// Bytes per gigabyte (binary).
pub const BYTES_PER_GB: i64 = 1_073_741_824;

/// The first eight characters of a node id (all of a shorter one).
pub open spec fn short_id(id: Seq<char>) -> Seq<char> {
    if id.len() > 8 { id.subrange(0, 8) } else { id }
}

pub fn shorten_id(id: &str) -> (r: String)
    ensures
        r@ == short_id(id@),
{
    let cs = chars_of(id);
    if cs.len() <= 8 {
        return string_of(&cs);
    }
    let mut out: Vec<char> = Vec::new();
    let mut i: usize = 0;
    while i < 8
        invariant
            i <= 8 < cs@.len(),
            out@ == cs@.subrange(0, i as int),
        decreases 8 - i,
    {
        out.push(cs[i]);
        assert(out@ =~= cs@.subrange(0, i + 1));
        i = i + 1;
    }
    string_of(&out)
}

/// A value in bytes (thousandths) as gigabytes (thousandths), rounded toward zero.
pub open spec fn to_gb(v: int) -> int {
    if v >= 0 { v / (BYTES_PER_GB as int) } else { -((-v) / (BYTES_PER_GB as int)) }
}

pub open spec fn scaled_point(p: MetricPoint, gb: bool) -> MetricPoint {
    if gb { MetricPoint { timestamp: p.timestamp, value: to_gb(p.value as int) as i64 } } else { p }
}

pub open spec fn scaled_points(p: Seq<MetricPoint>, gb: bool) -> Seq<MetricPoint> {
    p.map_values(|q: MetricPoint| scaled_point(q, gb))
}

/// The series carries the given unit.
pub open spec fn unit_is(s: TimeSeries, unit: Seq<char>) -> bool {
    s.unit matches Some(u) && u@ == unit
}

/// The label of an instance series: `<label> <index><suffix>`.
pub open spec fn instance_name(label: Seq<char>, index: u32, suffix: Seq<char>) -> Seq<char> {
    label + " "@ + decimal(index as nat) + suffix
}

fn scale_point(p: MetricPoint, gb: bool) -> (r: MetricPoint)
    ensures
        r == scaled_point(p, gb),
{
    if !gb {
        return p;
    }
    let v: i128 = p.value as i128;
    let g: i128 = if v >= 0 { v / (BYTES_PER_GB as i128) } else { -((-v) / (BYTES_PER_GB as i128)) };
    MetricPoint { timestamp: p.timestamp, value: g as i64 }
}

fn scale_all(p: &Vec<MetricPoint>, gb: bool) -> (r: Vec<MetricPoint>)
    ensures
        r@ == scaled_points(p@, gb),
{
    let mut out: Vec<MetricPoint> = Vec::new();
    let mut i: usize = 0;
    while i < p.len()
        invariant
            i <= p@.len(),
            out@ == scaled_points(p@.take(i as int), gb),
        decreases p@.len() - i,
    {
        out.push(scale_point(p[i], gb));
        assert(out@ =~= scaled_points(p@.take(i + 1), gb));
        i = i + 1;
    }
    assert(p@.take(p@.len() as int) =~= p@);
    out
}

/// One series per group, in group order: named `<label> <index><suffix>`,
/// with the given unit, values in gigabytes where `gb` is set.
pub fn series_from_groups(groups: &Vec<IndexedSeries>, label: &str, suffix: &str, unit: &str, gb: bool) -> (r: Vec<TimeSeries>)
    ensures
        r@.len() == groups@.len(),
        forall|i: int|
            0 <= i < r@.len() ==> (#[trigger] r@[i]).name@ == instance_name(
                label@,
                groups@[i].index,
                suffix@,
            ) && r@[i].points@ == scaled_points(groups@[i].points@, gb) && unit_is(r@[i], unit@),
{
    let mut out: Vec<TimeSeries> = Vec::new();
    let mut i: usize = 0;
    while i < groups.len()
        invariant
            i <= groups@.len(),
            out@.len() == i,
            forall|q: int|
                0 <= q < i ==> (#[trigger] out@[q]).name@ == instance_name(
                    label@,
                    groups@[q].index,
                    suffix@,
                ) && out@[q].points@ == scaled_points(groups@[q].points@, gb) && unit_is(out@[q], unit@),
        decreases groups@.len() - i,
    {
        let mut name: Vec<char> = Vec::new();
        push_str(&mut name, label);
        push_str(&mut name, " ");
        push_decimal(&mut name, groups[i].index as u64);
        push_str(&mut name, suffix);
        assert(name@ =~= instance_name(label@, groups@[i as int].index, suffix@));
        let name_text = string_of(&name);
        let series = TimeSeries {
            name: name_text,
            points: scale_all(&groups[i].points, gb),
            unit: Some(String::from_str(unit)),
        };
        out.push(series);
        i = i + 1;
    }
    out
}

/// The readable points of the rows, in row order.
pub open spec fn row_points(rows: Seq<ProbeDataPoint>) -> Seq<MetricPoint>
    decreases rows.len(),
{
    if rows.len() == 0 {
        seq![]
    } else {
        match point_of(rows.last()) {
            Some(p) => row_points(rows.drop_last()).push(p),
            None => row_points(rows.drop_last()),
        }
    }
}

/// A single series from rows, skipping those whose timestamp or value cannot
/// be read.
pub fn series_from_rows(rows: &Vec<ProbeDataPoint>, name: &str, unit: &str, gb: bool) -> (r: TimeSeries)
    ensures
        r.name@ == name@,
        r.points@ == scaled_points(row_points(rows@), gb),
        unit_is(r, unit@),
{
    let mut pts: Vec<MetricPoint> = Vec::new();
    let mut i: usize = 0;
    while i < rows.len()
        invariant
            i <= rows@.len(),
            pts@ == row_points(rows@.take(i as int)),
        decreases rows@.len() - i,
    {
        assert(rows@.take(i + 1).drop_last() =~= rows@.take(i as int));
        match row_point(&rows[i]) {
            Some(p) => pts.push(p),
            None => {},
        }
        i = i + 1;
    }
    assert(rows@.take(rows@.len() as int) =~= rows@);
    TimeSeries {
        name: String::from_str(name),
        points: scale_all(&pts, gb),
        unit: Some(String::from_str(unit)),
    }
}

fn titled(prefix: &str, node_id: &str) -> (r: String)
    ensures
        r@ == prefix@ + short_id(node_id@),
{
    let mut t: Vec<char> = Vec::new();
    push_str(&mut t, prefix);
    let s = shorten_id(node_id);
    push_str(&mut t, s.as_str());
    string_of(&t)
}

/// Some series is the instance series of index `k`.
pub open spec fn has_instance_series(
    series: Seq<TimeSeries>,
    items: Seq<(u32, MetricPoint)>,
    k: u32,
    label: Seq<char>,
    suffix: Seq<char>,
) -> bool {
    exists|i: int|
        0 <= i < series.len() && #[trigger] series[i].name@ == instance_name(label, k, suffix)
            && series[i].points@ == points_at(items, k)
}

/// The series is the non-empty series of some index.
pub open spec fn is_instance_series(
    s: TimeSeries,
    items: Seq<(u32, MetricPoint)>,
    label: Seq<char>,
    suffix: Seq<char>,
) -> bool {
    exists|k: u32|
        s.name@ == instance_name(label, k, suffix) && s.points@ == #[trigger] points_at(items, k)
            && points_at(items, k).len() > 0
}

/// The series are those of strictly ascending indices `ks`, one series per
/// index: series `i` is named for `ks[i]` and holds the (scaled) points of
/// `ks[i]`, of which there is at least one.
pub open spec fn ascending_instances(
    series: Seq<TimeSeries>,
    items: Seq<(u32, MetricPoint)>,
    label: Seq<char>,
    suffix: Seq<char>,
    gb: bool,
) -> bool {
    exists|ks: Seq<u32>| #[trigger] instances_at(series, items, label, suffix, gb, ks)
}

pub open spec fn instances_at(
    series: Seq<TimeSeries>,
    items: Seq<(u32, MetricPoint)>,
    label: Seq<char>,
    suffix: Seq<char>,
    gb: bool,
    ks: Seq<u32>,
) -> bool {
    &&& ks.len() == series.len()
    &&& forall|i: int, j: int| 0 <= i < j < ks.len() ==> ks[i] < ks[j]
    &&& forall|i: int|
        0 <= i < ks.len() ==> (#[trigger] series[i]).name@ == instance_name(label, ks[i], suffix)
            && series[i].points@ == scaled_points(points_at(items, ks[i]), gb) && points_at(
            items,
            ks[i],
        ).len() > 0
}

/// A chart with one series per instance of a grouped metric.
pub open spec fn grouped_chart_ok(
    c: ChartData,
    title: Seq<char>,
    y_label: Seq<char>,
    rows: Seq<ProbeDataPoint>,
    prefix: Seq<char>,
    label: Seq<char>,
    suffix: Seq<char>,
    unit: Seq<char>,
) -> bool {
    &&& c.title@ == title
    &&& c.x_label@ == "Time"@
    &&& c.y_label@ == y_label
    &&& c.series@.len() > 0
    &&& ascending_instances(c.series@, indexed_points_spec(rows, prefix), label, suffix, false)
    &&& forall|i: int|
        0 <= i < c.series@.len() ==> unit_is(#[trigger] c.series@[i], unit) && is_instance_series(
            c.series@[i],
            indexed_points_spec(rows, prefix),
            label,
            suffix,
        )
    &&& forall|m: int|
        0 <= m < indexed_points_spec(rows, prefix).len() ==> has_instance_series(
            c.series@,
            indexed_points_spec(rows, prefix),
            (#[trigger] indexed_points_spec(rows, prefix)[m]).0,
            label,
            suffix,
        )
}

fn grouped_chart(
    title: String,
    y_label: &str,
    rows: &Vec<ProbeDataPoint>,
    prefix: &str,
    label: &str,
    suffix: &str,
    unit: &str,
    empty_message: &str,
) -> (r: Result<ChartData, String>)
    ensures
        match r {
            Ok(c) => grouped_chart_ok(c, title@, y_label@, rows@, prefix@, label@, suffix@, unit@)
                && indexed_points_spec(rows@, prefix@).len() > 0,
            Err(m) => m@ == empty_message@ && indexed_points_spec(rows@, prefix@).len() == 0,
        },
{
    let groups = group_metrics_by_index(rows, prefix);
    if groups.len() == 0 {
        proof {
            if indexed_points_spec(rows@, prefix@).len() > 0 {
                assert(crate::grouping::has_series(groups@, indexed_points_spec(rows@, prefix@)[0].0));
            }
        }
        return Err(String::from_str(empty_message));
    }
    let series = series_from_groups(&groups, label, suffix, unit, false);
    let ghost items = indexed_points_spec(rows@, prefix@);
    proof {
        let a = 0int;
        assert(groups@[a].points@.len() > 0);
        let p = groups@[a].points@[0];
        // a non-empty group has a point, so the rows have an indexed point
        crate::grouping::lemma_points_at_has_item(items, groups@[a].index);
        assert forall|m: int| 0 <= m < items.len() implies has_instance_series(
            series@,
            items,
            (#[trigger] items[m]).0,
            label@,
            suffix@,
        ) by {
            assert(crate::grouping::has_series(groups@, items[m].0));
            let i = choose|i: int| 0 <= i < groups@.len() && #[trigger] groups@[i].index == items[m].0;
            assert(series@[i].name@ == instance_name(label@, items[m].0, suffix@));
            assert(scaled_points(groups@[i].points@, false) =~= groups@[i].points@);
        }
        let ks = groups@.map_values(|g: IndexedSeries| g.index);
        assert forall|i: int| 0 <= i < ks.len() implies (#[trigger] series@[i]).name@ == instance_name(label@, ks[i], suffix@)
            && series@[i].points@ == scaled_points(points_at(items, ks[i]), false) && points_at(items, ks[i]).len() > 0 by {
            assert(series@[i].name@ == instance_name(label@, groups@[i].index, suffix@));
        }
        assert(instances_at(series@, items, label@, suffix@, false, ks));
        assert forall|i: int| 0 <= i < series@.len() implies unit_is(#[trigger] series@[i], unit@)
            && is_instance_series(series@[i], items, label@, suffix@) by {
            assert(series@[i].name@ == instance_name(label@, groups@[i].index, suffix@));
            assert(scaled_points(groups@[i].points@, false) =~= groups@[i].points@);
            assert(series@[i].points@ == points_at(items, groups@[i].index));
        }
    }
    let mut chart = ChartData {
        title,
        series: Vec::new(),
        x_label: String::from_str("Time"),
        y_label: String::from_str(y_label),
    };
    chart.series = series;
    Ok(chart)
}

pub open spec fn cpu_chart_spec(node_id: Seq<char>, rows: Seq<ProbeDataPoint>, r: Result<ChartData, String>) -> bool {
    match r {
        Ok(c) => rows.len() > 0 && grouped_chart_ok(
            c,
            "CPU Usage - Node "@ + short_id(node_id),
            "Usage (%)"@,
            rows,
            "cpu_core_"@,
            "Core"@,
            ""@,
            "%"@,
        ),
        Err(m) => (rows.len() == 0 && m@ == "No CPU data available"@) || (rows.len() > 0
            && indexed_points_spec(rows, "cpu_core_"@).len() == 0 && m@ == "No CPU data found"@),
    }
}

/// Per-core CPU usage: one series `Core <n>` per core, in percent.
pub fn cpu_chart(node_id: &str, rows: &Vec<ProbeDataPoint>) -> (r: Result<ChartData, String>)
    ensures
        cpu_chart_spec(node_id@, rows@, r),
{
    if rows.len() == 0 {
        return Err(String::from_str("No CPU data available"));
    }
    let title = titled("CPU Usage - Node ", node_id);
    grouped_chart(title, "Usage (%)", rows, "cpu_core_", "Core", "", "%", "No CPU data found")
}

pub open spec fn disk_chart_spec(node_id: Seq<char>, rows: Seq<ProbeDataPoint>, r: Result<ChartData, String>) -> bool {
    match r {
        Ok(c) => rows.len() > 0 && grouped_chart_ok(
            c,
            "Disk Usage - Node "@ + short_id(node_id),
            "Usage (%)"@,
            rows,
            "disk_"@,
            "Disk"@,
            ""@,
            "%"@,
        ),
        Err(m) => (rows.len() == 0 && m@ == "No disk data available"@) || (rows.len() > 0
            && indexed_points_spec(rows, "disk_"@).len() == 0 && m@ == "No disk data found"@),
    }
}

/// Per-disk usage: one series `Disk <n>` per disk, in percent.
pub fn disk_chart(node_id: &str, rows: &Vec<ProbeDataPoint>) -> (r: Result<ChartData, String>)
    ensures
        disk_chart_spec(node_id@, rows@, r),
{
    if rows.len() == 0 {
        return Err(String::from_str("No disk data available"));
    }
    let title = titled("Disk Usage - Node ", node_id);
    grouped_chart(title, "Usage (%)", rows, "disk_", "Disk", "", "%", "No disk data found")
}

/// `pat` occurs in `s`.
pub open spec fn contains_text(s: Seq<char>, pat: Seq<char>) -> bool {
    exists|i: int| 0 <= i && i + pat.len() <= s.len() && #[trigger] s.subrange(i, i + pat.len()) == pat
}

/// A temperature row that holds a reading, not a threshold.
pub open spec fn is_reading(row: ProbeDataPoint) -> bool {
    !contains_text(row.probe_name@, "_max_celsius"@) && !contains_text(
        row.probe_name@,
        "_critical_celsius"@,
    )
}

pub open spec fn readings(rows: Seq<ProbeDataPoint>) -> Seq<ProbeDataPoint>
    decreases rows.len(),
{
    if rows.len() == 0 {
        seq![]
    } else if is_reading(rows.last()) {
        readings(rows.drop_last()).push(rows.last())
    } else {
        readings(rows.drop_last())
    }
}

fn matches_at(s: &Vec<char>, p: &Vec<char>, i: usize) -> (r: bool)
    requires
        i + p@.len() <= s@.len(),
    ensures
        r == (s@.subrange(i as int, i + p@.len()) == p@),
{
    let n = s.len();
    let mut j: usize = 0;
    while j < p.len()
        invariant
            n == s@.len(),
            i + p@.len() <= s@.len(),
            j <= p@.len(),
            s@.subrange(i as int, i + j) == p@.subrange(0, j as int),
        decreases p@.len() - j,
    {
        if s[i + j] != p[j] {
            assert(s@.subrange(i as int, i + p@.len())[j as int] != p@[j as int]);
            return false;
        }
        assert(s@.subrange(i as int, i + j + 1) =~= s@.subrange(i as int, i + j).push(s@[i + j]));
        assert(p@.subrange(0, j + 1) =~= p@.subrange(0, j as int).push(p@[j as int]));
        j = j + 1;
    }
    assert(p@.subrange(0, p@.len() as int) =~= p@);
    true
}

fn occurs(s: &Vec<char>, pat: &str) -> (r: bool)
    ensures
        r == contains_text(s@, pat@),
{
    let p = chars_of(pat);
    if p.len() > s.len() {
        return false;
    }
    let mut i: usize = 0;
    let last = s.len() - p.len();
    while i <= last
        invariant
            last + p@.len() == s@.len(),
            p@ == pat@,
            i <= last + 1,
            forall|q: int| 0 <= q < i ==> #[trigger] s@.subrange(q, q + p@.len()) != p@,
        decreases last + 1 - i,
    {
        if matches_at(s, &p, i) {
            return true;
        }
        if i == last {
            assert forall|q: int| 0 <= q && q + pat@.len() <= s@.len() implies #[trigger] s@.subrange(
                q,
                q + pat@.len(),
            ) != pat@ by {
                assert(q <= i);
            }
            return false;
        }
        i = i + 1;
    }
    false
}

/// The rows that hold readings (see `is_reading`), in order.
pub fn without_thresholds(rows: &Vec<ProbeDataPoint>) -> (r: Vec<ProbeDataPoint>)
    ensures
        r@ == readings(rows@),
{
    let mut out: Vec<ProbeDataPoint> = Vec::new();
    let mut i: usize = 0;
    while i < rows.len()
        invariant
            i <= rows@.len(),
            out@ == readings(rows@.take(i as int)),
        decreases rows@.len() - i,
    {
        assert(rows@.take(i + 1).drop_last() =~= rows@.take(i as int));
        let name = chars_of(rows[i].probe_name.as_str());
        if !occurs(&name, "_max_celsius") && !occurs(&name, "_critical_celsius") {
            out.push(rows[i].duplicate());
        }
        i = i + 1;
    }
    assert(rows@.take(rows@.len() as int) =~= rows@);
    out
}

pub open spec fn temperature_chart_spec(node_id: Seq<char>, rows: Seq<ProbeDataPoint>, r: Result<ChartData, String>) -> bool {
    let kept = readings(rows);
    match r {
        Ok(c) => kept.len() > 0 && grouped_chart_ok(
            c,
            "Temperature - Node "@ + short_id(node_id),
            "Temperature (\u{b0}C)"@,
            kept,
            "temperature_sensor_"@,
            "Sensor"@,
            ""@,
            "\u{b0}C"@,
        ),
        Err(m) => (kept.len() == 0 && m@ == "No temperature data available"@) || (kept.len() > 0
            && indexed_points_spec(kept, "temperature_sensor_"@).len() == 0 && m@
            == "No temperature data found"@),
    }
}

/// Per-sensor temperature, thresholds left out: one series `Sensor <n>` per
/// sensor, in degrees Celsius.
pub fn temperature_chart(node_id: &str, rows: &Vec<ProbeDataPoint>) -> (r: Result<ChartData, String>)
    ensures
        temperature_chart_spec(node_id@, rows@, r),
{
    let kept = without_thresholds(rows);
    if kept.len() == 0 {
        return Err(String::from_str("No temperature data available"));
    }
    let title = titled("Temperature - Node ", node_id);
    grouped_chart(
        title,
        "Temperature (\u{b0}C)",
        &kept,
        "temperature_sensor_",
        "Sensor",
        "",
        "\u{b0}C",
        "No temperature data found",
    )
}

fn chart_of(title: String, y_label: &str, series: Vec<TimeSeries>) -> (r: ChartData)
    ensures
        r.title == title,
        r.x_label@ == "Time"@,
        r.y_label@ == y_label@,
        r.series == series,
{
    ChartData { title, series, x_label: String::from_str("Time"), y_label: String::from_str(y_label) }
}

/// The series is `name` in `unit` over the readable points of `rows`.
pub open spec fn rows_series_is(s: TimeSeries, name: Seq<char>, unit: Seq<char>, rows: Seq<ProbeDataPoint>, gb: bool) -> bool {
    s.name@ == name && unit_is(s, unit) && s.points@ == scaled_points(row_points(rows), gb)
}

/// Used memory, and total memory where it was reported, in gigabytes.
pub fn memory_chart(node_id: &str, used: &Vec<ProbeDataPoint>, total: &Vec<ProbeDataPoint>) -> (r: Result<ChartData, String>)
    ensures
        match r {
            Ok(c) => used@.len() > 0 && c.title@ == "Memory Usage - Node "@ + short_id(node_id@)
                && c.x_label@ == "Time"@ && c.y_label@ == "Memory (GB)"@ && c.series@.len() == (if total@.len() > 0 { 2int } else { 1int })
                && rows_series_is(c.series@[0], "Used Memory"@, "GB"@, used@, true)
                && (total@.len() > 0 ==> rows_series_is(c.series@[1], "Total Memory"@, "GB"@, total@, true)),
            Err(m) => used@.len() == 0 && m@ == "No memory data available"@,
        },
{
    if used.len() == 0 {
        return Err(String::from_str("No memory data available"));
    }
    let mut series: Vec<TimeSeries> = Vec::new();
    series.push(series_from_rows(used, "Used Memory", "GB", true));
    if total.len() > 0 {
        series.push(series_from_rows(total, "Total Memory", "GB", true));
    }
    let title = titled("Memory Usage - Node ", node_id);
    Ok(chart_of(title, "Memory (GB)", series))
}

/// Cumulative process forks.
pub fn forks_chart(node_id: &str, rows: &Vec<ProbeDataPoint>) -> (r: Result<ChartData, String>)
    ensures
        match r {
            Ok(c) => rows@.len() > 0 && c.title@ == "Process Forks - Node "@ + short_id(node_id@)
                && c.x_label@ == "Time"@ && c.y_label@ == "Total Forks"@ && c.series@.len() == 1
                && rows_series_is(c.series@[0], "Forks (cumulative)"@, ""@, rows@, false),
            Err(m) => rows@.len() == 0 && m@ == "No forks data available"@,
        },
{
    if rows.len() == 0 {
        return Err(String::from_str("No forks data available"));
    }
    let mut series: Vec<TimeSeries> = Vec::new();
    series.push(series_from_rows(rows, "Forks (cumulative)", "", false));
    let title = titled("Process Forks - Node ", node_id);
    Ok(chart_of(title, "Total Forks", series))
}

/// The series of received and then transmitted bytes, per interface.
pub open spec fn network_series_ok(
    series: Seq<TimeSeries>,
    rx: Seq<ProbeDataPoint>,
    tx: Seq<ProbeDataPoint>,
    n_rx: int,
) -> bool {
    &&& 0 <= n_rx <= series.len()
    &&& ascending_instances(series.subrange(0, n_rx), indexed_points_spec(rx, "network_interface_"@), "eth"@, " RX"@, true)
    &&& ascending_instances(series.subrange(n_rx, series.len() as int), indexed_points_spec(tx, "network_interface_"@), "eth"@, " TX"@, true)
    &&& forall|i: int|
        0 <= i < n_rx ==> unit_is(#[trigger] series[i], "GB"@) && is_gb_instance_series(
            series[i],
            indexed_points_spec(rx, "network_interface_"@),
            " RX"@,
        )
    &&& forall|i: int|
        n_rx <= i < series.len() ==> unit_is(#[trigger] series[i], "GB"@) && is_gb_instance_series(
            series[i],
            indexed_points_spec(tx, "network_interface_"@),
            " TX"@,
        )
    &&& forall|m: int|
        0 <= m < indexed_points_spec(rx, "network_interface_"@).len() ==> has_gb_instance_series(
            series.subrange(0, n_rx),
            indexed_points_spec(rx, "network_interface_"@),
            (#[trigger] indexed_points_spec(rx, "network_interface_"@)[m]).0,
            " RX"@,
        )
    &&& forall|m: int|
        0 <= m < indexed_points_spec(tx, "network_interface_"@).len() ==> has_gb_instance_series(
            series.subrange(n_rx, series.len() as int),
            indexed_points_spec(tx, "network_interface_"@),
            (#[trigger] indexed_points_spec(tx, "network_interface_"@)[m]).0,
            " TX"@,
        )
}

/// The received series come first, then the transmitted ones.
pub open spec fn network_series_split(series: Seq<TimeSeries>, rx: Seq<ProbeDataPoint>, tx: Seq<ProbeDataPoint>) -> bool {
    exists|n_rx: int| network_series_ok(series, rx, tx, n_rx)
}

/// The series is the interface series `eth <k><suffix>` in gigabytes.
pub open spec fn is_gb_instance_series(s: TimeSeries, items: Seq<(u32, MetricPoint)>, suffix: Seq<char>) -> bool {
    exists|k: u32|
        s.name@ == instance_name("eth"@, k, suffix) && s.points@ == scaled_points(
            #[trigger] points_at(items, k),
            true,
        ) && points_at(items, k).len() > 0
}

pub open spec fn has_gb_instance_series(
    series: Seq<TimeSeries>,
    items: Seq<(u32, MetricPoint)>,
    k: u32,
    suffix: Seq<char>,
) -> bool {
    exists|i: int|
        0 <= i < series.len() && #[trigger] series[i].name@ == instance_name("eth"@, k, suffix)
            && series[i].points@ == scaled_points(points_at(items, k), true)
}

fn interface_series(rows: &Vec<ProbeDataPoint>, suffix: &str) -> (r: Vec<TimeSeries>)
    ensures
        ascending_instances(r@, indexed_points_spec(rows@, "network_interface_"@), "eth"@, suffix@, true),
        forall|i: int|
            0 <= i < r@.len() ==> unit_is(#[trigger] r@[i], "GB"@) && is_gb_instance_series(
                r@[i],
                indexed_points_spec(rows@, "network_interface_"@),
                suffix@,
            ),
        forall|m: int|
            0 <= m < indexed_points_spec(rows@, "network_interface_"@).len() ==> has_gb_instance_series(
                r@,
                indexed_points_spec(rows@, "network_interface_"@),
                (#[trigger] indexed_points_spec(rows@, "network_interface_"@)[m]).0,
                suffix@,
            ),
{
    let groups = group_metrics_by_index(rows, "network_interface_");
    let series = series_from_groups(&groups, "eth", suffix, "GB", true);
    let ghost items = indexed_points_spec(rows@, "network_interface_"@);
    proof {
        let ks = groups@.map_values(|g: IndexedSeries| g.index);
        assert forall|i: int| 0 <= i < ks.len() implies (#[trigger] series@[i]).name@ == instance_name("eth"@, ks[i], suffix@)
            && series@[i].points@ == scaled_points(points_at(items, ks[i]), true) && points_at(items, ks[i]).len() > 0 by {
            assert(series@[i].name@ == instance_name("eth"@, groups@[i].index, suffix@));
        }
        assert(instances_at(series@, items, "eth"@, suffix@, true, ks));
        assert forall|i: int| 0 <= i < series@.len() implies unit_is(#[trigger] series@[i], "GB"@)
            && is_gb_instance_series(series@[i], items, suffix@) by {
            assert(series@[i].points@ == scaled_points(points_at(items, groups@[i].index), true));
        }
        assert forall|m: int| 0 <= m < items.len() implies has_gb_instance_series(
            series@,
            items,
            (#[trigger] items[m]).0,
            suffix@,
        ) by {
            assert(crate::grouping::has_series(groups@, items[m].0));
            let i = choose|i: int| 0 <= i < groups@.len() && #[trigger] groups@[i].index == items[m].0;
            assert(series@[i].name@ == instance_name("eth"@, items[m].0, suffix@));
        }
    }
    series
}

/// Received and transmitted traffic per interface (`eth <n> RX`, then
/// `eth <n> TX`), in gigabytes.
pub fn network_chart(node_id: &str, rx: &Vec<ProbeDataPoint>, tx: &Vec<ProbeDataPoint>) -> (r: Result<ChartData, String>)
    ensures
        match r {
            Ok(c) => (rx@.len() > 0 || tx@.len() > 0) && c.title@ == "Network Traffic - Node "@
                + short_id(node_id@) && c.x_label@ == "Time"@ && c.y_label@ == "Traffic (GB)"@
                && network_series_split(c.series@, rx@, tx@),
            Err(m) => rx@.len() == 0 && tx@.len() == 0 && m@ == "No network data available"@,
        },
{
    if rx.len() == 0 && tx.len() == 0 {
        return Err(String::from_str("No network data available"));
    }
    let mut series = interface_series(rx, " RX");
    let n_rx = series.len();
    let ghost rx_part = series@;
    let mut tx_series = interface_series(tx, " TX");
    let ghost tx_part = tx_series@;
    series.append(&mut tx_series);
    proof {
        assert(series@.subrange(0, n_rx as int) =~= rx_part);
        assert(series@.subrange(n_rx as int, series@.len() as int) =~= tx_part);
        assert forall|i: int| n_rx <= i < series@.len() implies unit_is(#[trigger] series@[i], "GB"@)
            && is_gb_instance_series(series@[i], indexed_points_spec(tx@, "network_interface_"@), " TX"@) by {
            assert(series@[i] == tx_part[i - n_rx]);
        }
        assert(network_series_ok(series@, rx@, tx@, n_rx as int));
    }
    let title = titled("Network Traffic - Node ", node_id);
    let c = chart_of(title, "Traffic (GB)", series);
    assert(network_series_ok(c.series@, rx@, tx@, n_rx as int));
    assert(network_series_split(c.series@, rx@, tx@));
    Ok(c)
}

} // verus!
