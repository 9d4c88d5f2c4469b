//! The SVG renderer: a pure function from a chart and a drawing configuration
//! to the text of an SVG document.

use vstd::prelude::*;
use crate::chart::{ChartData, MetricPoint, TimeSeries, TimeSeriesChart, chart_is_empty};
use crate::svg::{escape, palette, value_label, time_label, num, push_escaped, push_color, push_value_label, push_time_label, push_num};
use crate::text::{push_str, string_of};

verus! {

pub const MARGIN_LEFT: i64 = 70;
pub const MARGIN_TOP: i64 = 50;
pub const MARGIN_BOTTOM: i64 = 60;
/// Number of intervals between grid lines along each axis.
pub const GRID_STEPS: i64 = 4;

/// Space to the right of the plot: room for the legend where it is shown.
pub open spec fn margin_right(cfg: TimeSeriesChart) -> int {
    if cfg.show_legend { 200 } else { 30 }
}

pub open spec fn plot_width(cfg: TimeSeriesChart) -> int {
    cfg.width - MARGIN_LEFT - margin_right(cfg)
}

pub open spec fn plot_height(cfg: TimeSeriesChart) -> int {
    cfg.height - MARGIN_TOP - MARGIN_BOTTOM
}

/// The canvas leaves a plot area of at least ten pixels each way.
pub open spec fn fits(cfg: TimeSeriesChart) -> bool {
    plot_width(cfg) >= 10 && plot_height(cfg) >= 10
}

/// The shared time and value ranges of a chart's axes.
#[derive(Debug, Clone, Copy, PartialEq, Eq, Structural)]
pub struct Bounds {
    pub t_min: i128,
    pub t_max: i128,
    pub v_min: i128,
    pub v_max: i128,
}

/// Every point of every series, series by series.
pub open spec fn all_points(series: Seq<TimeSeries>) -> Seq<MetricPoint>
    decreases series.len(),
{
    if series.len() == 0 {
        seq![]
    } else {
        all_points(series.drop_last()) + series.last().points@
    }
}

pub open spec fn min_time(p: Seq<MetricPoint>) -> int
    decreases p.len(),
{
    if p.len() <= 1 {
        if p.len() == 0 { 0 } else { p[0].timestamp as int }
    } else {
        let m = min_time(p.drop_last());
        if p.last().timestamp < m { p.last().timestamp as int } else { m }
    }
}

pub open spec fn max_time(p: Seq<MetricPoint>) -> int
    decreases p.len(),
{
    if p.len() <= 1 {
        if p.len() == 0 { 0 } else { p[0].timestamp as int }
    } else {
        let m = max_time(p.drop_last());
        if p.last().timestamp > m { p.last().timestamp as int } else { m }
    }
}

pub open spec fn min_value(p: Seq<MetricPoint>) -> int
    decreases p.len(),
{
    if p.len() <= 1 {
        if p.len() == 0 { 0 } else { p[0].value as int }
    } else {
        let m = min_value(p.drop_last());
        if p.last().value < m { p.last().value as int } else { m }
    }
}

pub open spec fn max_value(p: Seq<MetricPoint>) -> int
    decreases p.len(),
{
    if p.len() <= 1 {
        if p.len() == 0 { 0 } else { p[0].value as int }
    } else {
        let m = max_value(p.drop_last());
        if p.last().value > m { p.last().value as int } else { m }
    }
}

impl Bounds {
    /// Positive spans, with ends no further than a widening step beyond `i64`.
    pub open spec fn wf(self) -> bool {
        &&& i64::MIN - 1 <= self.t_min < self.t_max <= i64::MAX + 1
        &&& i64::MIN - 1000 <= self.v_min < self.v_max <= i64::MAX + 1000
    }
}

/// The axis ranges: the extremes over all points, widened around the value
/// where a range would be a single point (one second of time, one unit of
/// value to each side).
pub open spec fn bounds_of(series: Seq<TimeSeries>) -> Bounds {
    let p = all_points(series);
    let t0 = min_time(p);
    let t1 = max_time(p);
    let v0 = min_value(p);
    let v1 = max_value(p);
    Bounds {
        t_min: (if t0 == t1 { t0 - 1 } else { t0 }) as i128,
        t_max: (if t0 == t1 { t1 + 1 } else { t1 }) as i128,
        v_min: (if v0 == v1 { v0 - 1000 } else { v0 }) as i128,
        v_max: (if v0 == v1 { v1 + 1000 } else { v1 }) as i128,
    }
}

/// Horizontal pixel of a time.
pub open spec fn scale_x(cfg: TimeSeriesChart, b: Bounds, t: int) -> int {
    MARGIN_LEFT + (t - b.t_min) * plot_width(cfg) / (b.t_max - b.t_min)
}

/// Vertical pixel of a value; larger values plot higher.
pub open spec fn scale_y(cfg: TimeSeriesChart, b: Bounds, v: int) -> int {
    MARGIN_TOP + plot_height(cfg) - (v - b.v_min) * plot_height(cfg) / (b.v_max - b.v_min)
}

// ----- the document, piece by piece -----

pub open spec fn line_text(x1: int, y1: int, x2: int, y2: int, color: Seq<char>) -> Seq<char> {
    "<line x1=\""@ + num(x1) + "\" y1=\""@ + num(y1) + "\" x2=\""@ + num(x2) + "\" y2=\""@ + num(y2)
        + "\" stroke=\""@ + color + "\"/>\n"@
}

pub open spec fn text_open(x: int, y: int, anchor: Seq<char>, size: Seq<char>) -> Seq<char> {
    "<text x=\""@ + num(x) + "\" y=\""@ + num(y) + "\" text-anchor=\""@ + anchor
        + "\" font-family=\"sans-serif\" font-size=\""@ + size + "\">"@
}

pub open spec fn text_elem(x: int, y: int, anchor: Seq<char>, size: Seq<char>, body: Seq<char>) -> Seq<char> {
    text_open(x, y, anchor, size) + body + "</text>\n"@
}

pub open spec fn svg_open(cfg: TimeSeriesChart) -> Seq<char> {
    "<svg xmlns=\"http://www.w3.org/2000/svg\" width=\""@ + num(cfg.width as int) + "\" height=\""@
        + num(cfg.height as int) + "\" viewBox=\"0 0 "@ + num(cfg.width as int) + " "@ + num(
        cfg.height as int,
    ) + "\">\n"@
}

pub open spec fn background(cfg: TimeSeriesChart) -> Seq<char> {
    "<rect width=\""@ + num(cfg.width as int) + "\" height=\""@ + num(cfg.height as int)
        + "\" fill=\"#ffffff\"/>\n"@
}

pub open spec fn header_text(cfg: TimeSeriesChart, title: Seq<char>) -> Seq<char> {
    svg_open(cfg) + background(cfg) + text_elem(
        (cfg.width / 2) as int,
        30,
        "middle"@,
        "16"@,
        escape(title),
    )
}

pub open spec fn grid_item_text(cfg: TimeSeriesChart, b: Bounds, i: int) -> Seq<char> {
    let y = MARGIN_TOP + plot_height(cfg) - plot_height(cfg) * i / (GRID_STEPS as int);
    let x = MARGIN_LEFT + plot_width(cfg) * i / (GRID_STEPS as int);
    let v = b.v_min + (b.v_max - b.v_min) * i / (GRID_STEPS as int);
    let t = b.t_min + (b.t_max - b.t_min) * i / (GRID_STEPS as int);
    line_text(MARGIN_LEFT as int, y, MARGIN_LEFT + plot_width(cfg), y, "#e0e0e0"@) + text_elem(
        MARGIN_LEFT - 8,
        y + 4,
        "end"@,
        "11"@,
        value_label(v),
    ) + line_text(x, MARGIN_TOP as int, x, MARGIN_TOP + plot_height(cfg), "#e0e0e0"@) + text_elem(
        x,
        MARGIN_TOP + plot_height(cfg) + 18,
        "middle"@,
        "11"@,
        time_label(t),
    )
}

pub open spec fn grid_text(cfg: TimeSeriesChart, b: Bounds, k: nat) -> Seq<char>
    decreases k,
{
    if k == 0 {
        seq![]
    } else {
        grid_text(cfg, b, (k - 1) as nat) + grid_item_text(cfg, b, k - 1)
    }
}

pub open spec fn rotated_label(y: int, body: Seq<char>) -> Seq<char> {
    "<text x=\"15\" y=\""@ + num(y)
        + "\" text-anchor=\"middle\" font-family=\"sans-serif\" font-size=\"12\" transform=\"rotate(-90 15 "@
        + num(y) + ")\">"@ + body + "</text>\n"@
}

pub open spec fn axes_text(cfg: TimeSeriesChart, x_label: Seq<char>, y_label: Seq<char>) -> Seq<char> {
    let bottom = MARGIN_TOP + plot_height(cfg);
    line_text(MARGIN_LEFT as int, bottom, MARGIN_LEFT + plot_width(cfg), bottom, "#333333"@)
        + line_text(MARGIN_LEFT as int, MARGIN_TOP as int, MARGIN_LEFT as int, bottom, "#333333"@)
        + text_elem(
        MARGIN_LEFT + plot_width(cfg) / 2,
        cfg.height - 15,
        "middle"@,
        "12"@,
        escape(x_label),
    ) + rotated_label(MARGIN_TOP + plot_height(cfg) / 2, escape(y_label))
}

pub open spec fn point_text(cfg: TimeSeriesChart, b: Bounds, p: MetricPoint) -> Seq<char> {
    num(scale_x(cfg, b, p.timestamp as int)) + ","@ + num(scale_y(cfg, b, p.value as int))
}

pub open spec fn points_text(cfg: TimeSeriesChart, b: Bounds, p: Seq<MetricPoint>) -> Seq<char>
    decreases p.len(),
{
    if p.len() == 0 {
        seq![]
    } else if p.len() == 1 {
        point_text(cfg, b, p[0])
    } else {
        points_text(cfg, b, p.drop_last()) + " "@ + point_text(cfg, b, p.last())
    }
}

/// One series: a polyline through its points, and a dot where it has only one.
pub open spec fn series_text(cfg: TimeSeriesChart, b: Bounds, p: Seq<MetricPoint>, k: int) -> Seq<char> {
    "<polyline fill=\"none\" stroke=\""@ + palette(k) + "\" stroke-width=\"2\" points=\""@
        + points_text(cfg, b, p) + "\"/>\n"@ + if p.len() == 1 {
        "<circle cx=\""@ + num(scale_x(cfg, b, p[0].timestamp as int)) + "\" cy=\""@ + num(
            scale_y(cfg, b, p[0].value as int),
        ) + "\" r=\"3\" fill=\""@ + palette(k) + "\"/>\n"@
    } else {
        seq![]
    }
}

pub open spec fn all_series_text(cfg: TimeSeriesChart, b: Bounds, s: Seq<TimeSeries>, n: nat) -> Seq<char>
    decreases n,
{
    if n == 0 {
        seq![]
    } else {
        all_series_text(cfg, b, s, (n - 1) as nat) + series_text(cfg, b, s[n - 1].points@, n - 1)
    }
}

pub open spec fn legend_label(s: TimeSeries) -> Seq<char> {
    escape(s.name@) + match s.unit {
        Some(u) => if u@.len() > 0 { " ("@ + escape(u@) + ")"@ } else { seq![] },
        None => seq![],
    }
}

pub open spec fn legend_item_text(cfg: TimeSeriesChart, s: TimeSeries, k: int) -> Seq<char> {
    "<rect x=\""@ + num(cfg.width - 190) + "\" y=\""@ + num(MARGIN_TOP + 20 * k)
        + "\" width=\"12\" height=\"12\" fill=\""@ + palette(k) + "\"/>\n<text x=\""@ + num(
        cfg.width - 172,
    ) + "\" y=\""@ + num(MARGIN_TOP + 20 * k + 10)
        + "\" font-family=\"sans-serif\" font-size=\"12\">"@ + legend_label(s) + "</text>\n"@
}

pub open spec fn legend_text(cfg: TimeSeriesChart, s: Seq<TimeSeries>, n: nat) -> Seq<char>
    decreases n,
{
    if n == 0 {
        seq![]
    } else {
        legend_text(cfg, s, (n - 1) as nat) + legend_item_text(cfg, s[n - 1], n - 1)
    }
}

/// The whole document.
pub open spec fn svg_document(cfg: TimeSeriesChart, chart: ChartData) -> Seq<char> {
    let b = bounds_of(chart.series@);
    let n = chart.series@.len();
    header_text(cfg, chart.title@) + (if cfg.show_grid { grid_text(cfg, b, (GRID_STEPS + 1) as nat) } else { seq![] })
        + axes_text(cfg, chart.x_label@, chart.y_label@) + all_series_text(cfg, b, chart.series@, n)
        + (if cfg.show_legend { legend_text(cfg, chart.series@, n) } else { seq![] }) + "</svg>\n"@
}

// ----- facts about the model -----

pub proof fn lemma_extremes(p: Seq<MetricPoint>, i: int)
    requires
        0 <= i < p.len(),
    ensures
        min_time(p) <= p[i].timestamp <= max_time(p),
        min_value(p) <= p[i].value <= max_value(p),
        i64::MIN <= min_time(p) <= max_time(p) <= i64::MAX,
        i64::MIN <= min_value(p) <= max_value(p) <= i64::MAX,
    decreases p.len(),
{
    if p.len() > 1 {
        if i < p.len() - 1 {
            lemma_extremes(p.drop_last(), i);
        } else {
            lemma_extremes(p.drop_last(), 0);
        }
    }
}

pub proof fn lemma_all_points_contains(series: Seq<TimeSeries>, k: int, j: int)
    requires
        0 <= k < series.len(),
        0 <= j < series[k].points@.len(),
    ensures
        all_points(series).contains(series[k].points@[j]),
    decreases series.len(),
{
    let before = all_points(series.drop_last());
    if k == series.len() - 1 {
        assert(all_points(series)[before.len() + j] == series[k].points@[j]);
    } else {
        lemma_all_points_contains(series.drop_last(), k, j);
        let idx = choose|idx: int| 0 <= idx < before.len() && before[idx] == series[k].points@[j];
        assert(all_points(series)[idx] == before[idx]);
    }
}

pub proof fn lemma_all_points_empty(series: Seq<TimeSeries>)
    ensures
        (all_points(series).len() == 0) == chart_is_empty(series),
    decreases series.len(),
{
    if series.len() > 0 {
        lemma_all_points_empty(series.drop_last());
        if !chart_is_empty(series) {
            let k = choose|k: int| 0 <= k < series.len() && (#[trigger] series[k]).points@.len() != 0;
            if k < series.len() - 1 {
                assert(series.drop_last()[k] == series[k]);
            }
        } else {
            assert forall|k: int| 0 <= k < series.drop_last().len() implies (
            #[trigger] series.drop_last()[k]).points@.len() == 0 by {
                assert(series.drop_last()[k] == series[k]);
            }
        }
    }
}

/// Every point of a chart lies within its axis ranges, and each range has a
/// positive span.
pub proof fn lemma_point_in_bounds(series: Seq<TimeSeries>, k: int, j: int)
    requires
        0 <= k < series.len(),
        0 <= j < series[k].points@.len(),
    ensures
        bounds_of(series).t_min < bounds_of(series).t_max,
        bounds_of(series).v_min < bounds_of(series).v_max,
        bounds_of(series).t_min <= series[k].points@[j].timestamp <= bounds_of(series).t_max,
        bounds_of(series).v_min <= series[k].points@[j].value <= bounds_of(series).v_max,
{
    lemma_all_points_contains(series, k, j);
    let p = all_points(series);
    let idx = choose|idx: int| 0 <= idx < p.len() && p[idx] == series[k].points@[j];
    lemma_extremes(p, idx);
}

/// A time within the range plots within the plot area's width, a value within
/// its range within the plot area's height.
pub proof fn lemma_scaled_within_plot(cfg: TimeSeriesChart, b: Bounds, t: int, v: int)
    requires
        fits(cfg),
        b.t_min < b.t_max,
        b.v_min < b.v_max,
        b.t_min <= t <= b.t_max,
        b.v_min <= v <= b.v_max,
    ensures
        MARGIN_LEFT <= scale_x(cfg, b, t) <= MARGIN_LEFT + plot_width(cfg),
        MARGIN_TOP <= scale_y(cfg, b, v) <= MARGIN_TOP + plot_height(cfg),
{
    let w = plot_width(cfg);
    let h = plot_height(cfg);
    let dt = t - b.t_min;
    let st = b.t_max - b.t_min;
    let dv = v - b.v_min;
    let sv = b.v_max - b.v_min;
    assert(0 <= dt * w / st <= w) by (nonlinear_arith)
        requires 0 <= dt <= st, 0 < st, 0 <= w;
    assert(0 <= dv * h / sv <= h) by (nonlinear_arith)
        requires 0 <= dv <= sv, 0 < sv, 0 <= h;
}

/// A chart with a single point renders: its point lies inside the plot area.
pub proof fn lemma_single_point_inside(cfg: TimeSeriesChart, series: Seq<TimeSeries>)
    requires
        fits(cfg),
        series.len() == 1,
        series[0].points@.len() == 1,
    ensures
        !chart_is_empty(series),
        MARGIN_LEFT <= scale_x(cfg, bounds_of(series), series[0].points@[0].timestamp as int)
            <= MARGIN_LEFT + plot_width(cfg),
        MARGIN_TOP <= scale_y(cfg, bounds_of(series), series[0].points@[0].value as int)
            <= MARGIN_TOP + plot_height(cfg),
{
    lemma_point_in_bounds(series, 0, 0);
    lemma_scaled_within_plot(
        cfg,
        bounds_of(series),
        series[0].points@[0].timestamp as int,
        series[0].points@[0].value as int,
    );
}

// ----- the renderer -----

/// Why a chart could not be drawn.
#[derive(Debug, Clone, Copy, PartialEq, Eq, Structural)]
pub enum RenderError {
    /// The chart holds no point; callers draw a placeholder instead.
    EmptyChart,
    /// The canvas leaves no room for the plot area.
    CanvasTooSmall,
}

impl RenderError {
    pub fn message(&self) -> (r: String) {
        match self {
            RenderError::EmptyChart => String::from_str("chart has no data points"),
            RenderError::CanvasTooSmall => String::from_str("canvas too small for the plot area"),
        }
    }
}

/// The axis ranges of a chart with at least one point.
pub fn chart_bounds(series: &Vec<TimeSeries>) -> (r: Option<Bounds>)
    ensures
        match r {
            Some(b) => !chart_is_empty(series@) && b == bounds_of(series@),
            None => chart_is_empty(series@),
        },
{
    let mut seen = false;
    let mut t0: i64 = 0;
    let mut t1: i64 = 0;
    let mut v0: i64 = 0;
    let mut v1: i64 = 0;
    let mut k: usize = 0;
    while k < series.len()
        invariant
            k <= series@.len(),
            seen == (all_points(series@.take(k as int)).len() > 0),
            seen ==> t0 == min_time(all_points(series@.take(k as int))) && t1 == max_time(
                all_points(series@.take(k as int)),
            ) && v0 == min_value(all_points(series@.take(k as int))) && v1 == max_value(
                all_points(series@.take(k as int)),
            ),
        decreases series@.len() - k,
    {
        let pts = &series[k].points;
        let ghost base = all_points(series@.take(k as int));
        let mut j: usize = 0;
        while j < pts.len()
            invariant
                k < series@.len(),
                pts@ == series@[k as int].points@,
                j <= pts@.len(),
                base == all_points(series@.take(k as int)),
                seen == ((base + pts@.take(j as int)).len() > 0),
                seen ==> t0 == min_time(base + pts@.take(j as int)) && t1 == max_time(
                    base + pts@.take(j as int),
                ) && v0 == min_value(base + pts@.take(j as int)) && v1 == max_value(
                    base + pts@.take(j as int),
                ),
            decreases pts@.len() - j,
        {
            let p = pts[j];
            assert((base + pts@.take(j + 1)).drop_last() =~= base + pts@.take(j as int));
            assert((base + pts@.take(j + 1)).last() == p);
            if !seen {
                assert(base + pts@.take(j + 1) =~= seq![p]);
                t0 = p.timestamp;
                t1 = p.timestamp;
                v0 = p.value;
                v1 = p.value;
                seen = true;
            } else {
                if p.timestamp < t0 {
                    t0 = p.timestamp;
                }
                if p.timestamp > t1 {
                    t1 = p.timestamp;
                }
                if p.value < v0 {
                    v0 = p.value;
                }
                if p.value > v1 {
                    v1 = p.value;
                }
            }
            j = j + 1;
        }
        assert(pts@.take(pts@.len() as int) =~= pts@);
        assert(series@.take(k + 1).drop_last() =~= series@.take(k as int));
        assert(all_points(series@.take(k + 1)) == base + pts@);
        k = k + 1;
    }
    assert(series@.take(series@.len() as int) =~= series@);
    proof { lemma_all_points_empty(series@); }
    if !seen {
        return None;
    }
    let b = Bounds {
        t_min: if t0 == t1 { t0 as i128 - 1 } else { t0 as i128 },
        t_max: if t0 == t1 { t1 as i128 + 1 } else { t1 as i128 },
        v_min: if v0 == v1 { v0 as i128 - 1000 } else { v0 as i128 },
        v_max: if v0 == v1 { v1 as i128 + 1000 } else { v1 as i128 },
    };
    Some(b)
}

fn push_line(out: &mut Vec<char>, x1: i128, y1: i128, x2: i128, y2: i128, color: &str)
    requires
        i64::MIN <= x1 <= i64::MAX,
        i64::MIN <= y1 <= i64::MAX,
        i64::MIN <= x2 <= i64::MAX,
        i64::MIN <= y2 <= i64::MAX,
    ensures
        final(out)@ == old(out)@ + line_text(x1 as int, y1 as int, x2 as int, y2 as int, color@),
{
    push_str(out, "<line x1=\"");
    push_num(out, x1);
    push_str(out, "\" y1=\"");
    push_num(out, y1);
    push_str(out, "\" x2=\"");
    push_num(out, x2);
    push_str(out, "\" y2=\"");
    push_num(out, y2);
    push_str(out, "\" stroke=\"");
    push_str(out, color);
    push_str(out, "\"/>\n");
    assert(out@ =~= old(out)@ + line_text(x1 as int, y1 as int, x2 as int, y2 as int, color@));
}

fn push_text_open(out: &mut Vec<char>, x: i128, y: i128, anchor: &str, size: &str)
    requires
        i64::MIN <= x <= i64::MAX,
        i64::MIN <= y <= i64::MAX,
    ensures
        final(out)@ == old(out)@ + text_open(x as int, y as int, anchor@, size@),
{
    push_str(out, "<text x=\"");
    push_num(out, x);
    push_str(out, "\" y=\"");
    push_num(out, y);
    push_str(out, "\" text-anchor=\"");
    push_str(out, anchor);
    push_str(out, "\" font-family=\"sans-serif\" font-size=\"");
    push_str(out, size);
    push_str(out, "\">");
    assert(out@ =~= old(out)@ + text_open(x as int, y as int, anchor@, size@));
}

fn push_header(out: &mut Vec<char>, cfg: &TimeSeriesChart, title: &str)
    ensures
        final(out)@ == old(out)@ + header_text(*cfg, title@),
{
    let ghost o = out@;
    push_str(out, "<svg xmlns=\"http://www.w3.org/2000/svg\" width=\"");
    push_num(out, cfg.width as i128);
    push_str(out, "\" height=\"");
    push_num(out, cfg.height as i128);
    push_str(out, "\" viewBox=\"0 0 ");
    push_num(out, cfg.width as i128);
    push_str(out, " ");
    push_num(out, cfg.height as i128);
    push_str(out, "\">\n");
    assert(out@ =~= o + svg_open(*cfg));
    let ghost o1 = out@;
    push_str(out, "<rect width=\"");
    push_num(out, cfg.width as i128);
    push_str(out, "\" height=\"");
    push_num(out, cfg.height as i128);
    push_str(out, "\" fill=\"#ffffff\"/>\n");
    assert(out@ =~= o1 + background(*cfg));
    let ghost o2 = out@;
    push_text_open(out, (cfg.width / 2) as i128, 30, "middle", "16");
    push_escaped(out, title);
    push_str(out, "</text>\n");
    assert(out@ =~= o2 + text_elem((cfg.width / 2) as int, 30, "middle"@, "16"@, escape(title@)));
    assert(out@ =~= o + header_text(*cfg, title@));
}

fn push_grid_item(out: &mut Vec<char>, cfg: &TimeSeriesChart, b: &Bounds, i: i128)
    requires
        fits(*cfg),
        0 <= i <= GRID_STEPS,
        b.wf(),
    ensures
        final(out)@ == old(out)@ + grid_item_text(*cfg, *b, i as int),
{
    let w: i128 = cfg.width as i128 - MARGIN_LEFT as i128 - if cfg.show_legend { 200 } else { 30 };
    let h: i128 = cfg.height as i128 - MARGIN_TOP as i128 - MARGIN_BOTTOM as i128;
    assert(0 <= h * i / 4 <= h) by (nonlinear_arith)
        requires 0 <= i <= 4, 0 <= h;
    assert(0 <= w * i / 4 <= w) by (nonlinear_arith)
        requires 0 <= i <= 4, 0 <= w;
    let dv = b.v_max - b.v_min;
    let dt = b.t_max - b.t_min;
    assert(0 <= dv * i / 4 <= dv) by (nonlinear_arith)
        requires 0 <= i <= 4, 0 <= dv;
    assert(0 <= dt * i / 4 <= dt) by (nonlinear_arith)
        requires 0 <= i <= 4, 0 <= dt;
    let y: i128 = MARGIN_TOP as i128 + h - h * i / 4;
    let x: i128 = MARGIN_LEFT as i128 + w * i / 4;
    let v: i128 = b.v_min + dv * i / 4;
    let t: i128 = b.t_min + dt * i / 4;
    let ghost o = out@;
    push_line(out, MARGIN_LEFT as i128, y, MARGIN_LEFT as i128 + w, y, "#e0e0e0");
    let ghost o1 = out@;
    push_text_open(out, MARGIN_LEFT as i128 - 8, y + 4, "end", "11");
    push_value_label(out, v);
    push_str(out, "</text>\n");
    assert(out@ =~= o1 + text_elem(MARGIN_LEFT - 8, y + 4, "end"@, "11"@, value_label(v as int)));
    push_line(out, x, MARGIN_TOP as i128, x, MARGIN_TOP as i128 + h, "#e0e0e0");
    let ghost o3 = out@;
    push_text_open(out, x, MARGIN_TOP as i128 + h + 18, "middle", "11");
    push_time_label(out, t);
    push_str(out, "</text>\n");
    assert(out@ =~= o3 + text_elem(x as int, MARGIN_TOP + h + 18, "middle"@, "11"@, time_label(t as int)));
    assert(out@ =~= o + grid_item_text(*cfg, *b, i as int));
}

fn push_grid(out: &mut Vec<char>, cfg: &TimeSeriesChart, b: &Bounds)
    requires
        fits(*cfg),
        b.wf(),
    ensures
        final(out)@ == old(out)@ + grid_text(*cfg, *b, (GRID_STEPS + 1) as nat),
{
    let mut i: i128 = 0;
    while i <= GRID_STEPS as i128
        invariant
            0 <= i <= GRID_STEPS + 1,
            fits(*cfg),
            b.wf(),
            out@ == old(out)@ + grid_text(*cfg, *b, i as nat),
        decreases GRID_STEPS + 1 - i,
    {
        push_grid_item(out, cfg, b, i);
        assert(out@ =~= old(out)@ + grid_text(*cfg, *b, (i + 1) as nat));
        i = i + 1;
    }
}

fn push_axes(out: &mut Vec<char>, cfg: &TimeSeriesChart, x_label: &str, y_label: &str)
    requires
        fits(*cfg),
    ensures
        final(out)@ == old(out)@ + axes_text(*cfg, x_label@, y_label@),
{
    let w: i128 = cfg.width as i128 - MARGIN_LEFT as i128 - if cfg.show_legend { 200 } else { 30 };
    let h: i128 = cfg.height as i128 - MARGIN_TOP as i128 - MARGIN_BOTTOM as i128;
    let bottom: i128 = MARGIN_TOP as i128 + h;
    let mid_y: i128 = MARGIN_TOP as i128 + h / 2;
    let ghost o = out@;
    push_line(out, MARGIN_LEFT as i128, bottom, MARGIN_LEFT as i128 + w, bottom, "#333333");
    push_line(out, MARGIN_LEFT as i128, MARGIN_TOP as i128, MARGIN_LEFT as i128, bottom, "#333333");
    let ghost o2 = out@;
    push_text_open(out, MARGIN_LEFT as i128 + w / 2, cfg.height as i128 - 15, "middle", "12");
    push_escaped(out, x_label);
    push_str(out, "</text>\n");
    assert(out@ =~= o2 + text_elem(MARGIN_LEFT + w / 2, cfg.height - 15, "middle"@, "12"@, escape(x_label@)));
    let ghost o3 = out@;
    push_str(out, "<text x=\"15\" y=\"");
    push_num(out, mid_y);
    push_str(
        out,
        "\" text-anchor=\"middle\" font-family=\"sans-serif\" font-size=\"12\" transform=\"rotate(-90 15 ",
    );
    push_num(out, mid_y);
    push_str(out, ")\">");
    push_escaped(out, y_label);
    push_str(out, "</text>\n");
    assert(out@ =~= o3 + rotated_label(mid_y as int, escape(y_label@)));
    assert(out@ =~= o + axes_text(*cfg, x_label@, y_label@));
}

fn scaled_x(cfg: &TimeSeriesChart, b: &Bounds, t: i64) -> (r: i128)
    requires
        fits(*cfg),
        b.wf(),
        b.t_min <= t <= b.t_max,
    ensures
        r == scale_x(*cfg, *b, t as int),
        MARGIN_LEFT <= r <= MARGIN_LEFT + plot_width(*cfg),
{
    let w: i128 = cfg.width as i128 - MARGIN_LEFT as i128 - if cfg.show_legend { 200 } else { 30 };
    let dt: i128 = t as i128 - b.t_min;
    assert(dt * w <= (b.t_max - b.t_min) * w) by (nonlinear_arith)
        requires dt <= b.t_max - b.t_min, 0 <= w;
    assert(0 <= dt * w) by (nonlinear_arith)
        requires 0 <= dt, 0 <= w;
    assert((b.t_max - b.t_min) * w <= 0x1_0000_0000_0000_0000_0000 * 0x1_0000_0000) by (nonlinear_arith)
        requires b.t_max - b.t_min <= 0x1_0000_0000_0000_0000_0000, w <= 0x1_0000_0000, 0 <= w;
    assert(0 <= dt * w / (b.t_max - b.t_min) <= w) by (nonlinear_arith)
        requires 0 <= dt <= b.t_max - b.t_min, 0 < b.t_max - b.t_min, 0 <= w;
    MARGIN_LEFT as i128 + dt * w / (b.t_max - b.t_min)
}

fn scaled_y(cfg: &TimeSeriesChart, b: &Bounds, v: i64) -> (r: i128)
    requires
        fits(*cfg),
        b.wf(),
        b.v_min <= v <= b.v_max,
    ensures
        r == scale_y(*cfg, *b, v as int),
        MARGIN_TOP <= r <= MARGIN_TOP + plot_height(*cfg),
{
    let h: i128 = cfg.height as i128 - MARGIN_TOP as i128 - MARGIN_BOTTOM as i128;
    let dv: i128 = v as i128 - b.v_min;
    assert(dv * h <= (b.v_max - b.v_min) * h) by (nonlinear_arith)
        requires dv <= b.v_max - b.v_min, 0 <= h;
    assert(0 <= dv * h) by (nonlinear_arith)
        requires 0 <= dv, 0 <= h;
    assert((b.v_max - b.v_min) * h <= 0x1_0000_0000_0000_0000_0000 * 0x1_0000_0000) by (nonlinear_arith)
        requires b.v_max - b.v_min <= 0x1_0000_0000_0000_0000_0000, h <= 0x1_0000_0000, 0 <= h;
    assert(0 <= dv * h / (b.v_max - b.v_min) <= h) by (nonlinear_arith)
        requires 0 <= dv <= b.v_max - b.v_min, 0 < b.v_max - b.v_min, 0 <= h;
    MARGIN_TOP as i128 + h - dv * h / (b.v_max - b.v_min)
}

pub proof fn lemma_bounds_wf(series: Seq<TimeSeries>)
    requires
        !chart_is_empty(series),
    ensures
        bounds_of(series).wf(),
{
    lemma_all_points_empty(series);
    lemma_extremes(all_points(series), 0);
}

fn push_point(out: &mut Vec<char>, cfg: &TimeSeriesChart, b: &Bounds, p: MetricPoint)
    requires
        fits(*cfg),
        b.wf(),
        b.t_min <= p.timestamp <= b.t_max,
        b.v_min <= p.value <= b.v_max,
    ensures
        final(out)@ == old(out)@ + point_text(*cfg, *b, p),
{
    let x = scaled_x(cfg, b, p.timestamp);
    let y = scaled_y(cfg, b, p.value);
    push_num(out, x);
    push_str(out, ",");
    push_num(out, y);
    assert(out@ =~= old(out)@ + point_text(*cfg, *b, p));
}

fn push_series(out: &mut Vec<char>, cfg: &TimeSeriesChart, b: &Bounds, pts: &Vec<MetricPoint>, k: usize)
    requires
        fits(*cfg),
        b.wf(),
        forall|j: int|
            0 <= j < pts@.len() ==> b.t_min <= (#[trigger] pts@[j]).timestamp <= b.t_max
                && b.v_min <= pts@[j].value <= b.v_max,
    ensures
        final(out)@ == old(out)@ + series_text(*cfg, *b, pts@, k as int),
{
    let ghost o = out@;
    push_str(out, "<polyline fill=\"none\" stroke=\"");
    push_color(out, k);
    push_str(out, "\" stroke-width=\"2\" points=\"");
    let ghost o1 = out@;
    let mut j: usize = 0;
    while j < pts.len()
        invariant
            j <= pts@.len(),
            fits(*cfg),
            b.wf(),
            forall|q: int|
                0 <= q < pts@.len() ==> b.t_min <= (#[trigger] pts@[q]).timestamp <= b.t_max
                    && b.v_min <= pts@[q].value <= b.v_max,
            out@ == o1 + points_text(*cfg, *b, pts@.take(j as int)),
        decreases pts@.len() - j,
    {
        assert(pts@.take(j + 1).drop_last() =~= pts@.take(j as int));
        if j > 0 {
            push_str(out, " ");
        }
        push_point(out, cfg, b, pts[j]);
        proof {
            if j == 0 {
                assert(pts@.take(1) =~= seq![pts@[0]]);
                assert(points_text(*cfg, *b, pts@.take(0)) =~= seq![]);
                assert(out@ =~= o1 + points_text(*cfg, *b, pts@.take(1)));
            } else {
                assert(out@ =~= o1 + points_text(*cfg, *b, pts@.take(j + 1)));
            }
        }
        j = j + 1;
    }
    assert(pts@.take(pts@.len() as int) =~= pts@);
    push_str(out, "\"/>\n");
    let ghost o2 = out@;
    if pts.len() == 1 {
        let x = scaled_x(cfg, b, pts[0].timestamp);
        let y = scaled_y(cfg, b, pts[0].value);
        push_str(out, "<circle cx=\"");
        push_num(out, x);
        push_str(out, "\" cy=\"");
        push_num(out, y);
        push_str(out, "\" r=\"3\" fill=\"");
        push_color(out, k);
        push_str(out, "\"/>\n");
    }
    assert(out@ =~= o + series_text(*cfg, *b, pts@, k as int));
}

fn push_legend_item(out: &mut Vec<char>, cfg: &TimeSeriesChart, s: &TimeSeries, k: usize)
    requires
        k < 100_000_000_000_000_000,
    ensures
        final(out)@ == old(out)@ + legend_item_text(*cfg, *s, k as int),
{
    let ghost o = out@;
    push_str(out, "<rect x=\"");
    push_num(out, cfg.width as i128 - 190);
    push_str(out, "\" y=\"");
    push_num(out, MARGIN_TOP as i128 + 20 * k as i128);
    push_str(out, "\" width=\"12\" height=\"12\" fill=\"");
    push_color(out, k);
    push_str(out, "\"/>\n<text x=\"");
    push_num(out, cfg.width as i128 - 172);
    push_str(out, "\" y=\"");
    push_num(out, MARGIN_TOP as i128 + 20 * k as i128 + 10);
    push_str(out, "\" font-family=\"sans-serif\" font-size=\"12\">");
    let ghost o1 = out@;
    push_escaped(out, s.name.as_str());
    match &s.unit {
        Some(u) => {
            if u.as_str().unicode_len() > 0 {
                push_str(out, " (");
                push_escaped(out, u.as_str());
                push_str(out, ")");
            }
        },
        None => {},
    }
    assert(out@ =~= o1 + legend_label(*s));
    push_str(out, "</text>\n");
    assert(out@ =~= o + legend_item_text(*cfg, *s, k as int));
}

/// Draws charts as SVG with a fixed configuration.
pub struct SvgRenderer {
    pub config: TimeSeriesChart,
}

impl SvgRenderer {
    pub fn new(config: TimeSeriesChart) -> (r: SvgRenderer)
        ensures
            r.config == config,
    {
        SvgRenderer { config }
    }

    /// The SVG document of a chart. Fails only when the chart has no point or
    /// the canvas leaves no room for the plot; the same chart and
    /// configuration always give the same text.
    pub fn render_to_string(&self, chart: &ChartData) -> (r: Result<String, RenderError>)
        requires
            chart.series@.len() < 100_000_000_000_000_000,
        ensures
            match r {
                Ok(text) => !chart_is_empty(chart.series@) && fits(self.config) && text@
                    == svg_document(self.config, *chart),
                Err(e) => (e == RenderError::EmptyChart && chart_is_empty(chart.series@)) || (e
                    == RenderError::CanvasTooSmall && !chart_is_empty(chart.series@) && !fits(
                    self.config,
                )),
            },
    {
        let cfg = self.config;
        let b = match chart_bounds(&chart.series) {
            Some(b) => b,
            None => {
                return Err(RenderError::EmptyChart);
            },
        };
        let w: i64 = cfg.width as i64 - MARGIN_LEFT - if cfg.show_legend { 200 } else { 30 };
        let h: i64 = cfg.height as i64 - MARGIN_TOP - MARGIN_BOTTOM;
        if w < 10 || h < 10 {
            return Err(RenderError::CanvasTooSmall);
        }
        proof { lemma_bounds_wf(chart.series@); }
        let mut out: Vec<char> = Vec::new();
        push_header(&mut out, &cfg, chart.title.as_str());
        let ghost o1 = out@;
        if cfg.show_grid {
            push_grid(&mut out, &cfg, &b);
        }
        let ghost o2 = out@;
        push_axes(&mut out, &cfg, chart.x_label.as_str(), chart.y_label.as_str());
        let ghost o3 = out@;
        let n = chart.series.len();
        let mut k: usize = 0;
        while k < n
            invariant
                k <= n,
                n == chart.series@.len(),
                n < 100_000_000_000_000_000,
                fits(cfg),
                b == bounds_of(chart.series@),
                b.wf(),
                out@ == o3 + all_series_text(cfg, b, chart.series@, k as nat),
            decreases n - k,
        {
            let pts = &chart.series[k].points;
            proof {
                assert forall|j: int| 0 <= j < pts@.len() implies b.t_min <= (#[trigger] pts@[j]).timestamp
                    <= b.t_max && b.v_min <= pts@[j].value <= b.v_max by {
                    lemma_point_in_bounds(chart.series@, k as int, j);
                }
            }
            push_series(&mut out, &cfg, &b, pts, k);
            assert(out@ =~= o3 + all_series_text(cfg, b, chart.series@, (k + 1) as nat));
            k = k + 1;
        }
        let ghost o4 = out@;
        if cfg.show_legend {
            let mut k: usize = 0;
            while k < n
                invariant
                    k <= n,
                    n == chart.series@.len(),
                    n < 100_000_000_000_000_000,
                    out@ == o4 + legend_text(cfg, chart.series@, k as nat),
                decreases n - k,
            {
                push_legend_item(&mut out, &cfg, &chart.series[k], k);
                assert(out@ =~= o4 + legend_text(cfg, chart.series@, (k + 1) as nat));
                k = k + 1;
            }
        }
        let ghost o5 = out@;
        push_str(&mut out, "</svg>\n");
        proof {
            if !cfg.show_grid {
                assert(o2 =~= o1 + seq![]);
            }
            if !cfg.show_legend {
                assert(o5 =~= o4 + seq![]);
            }
            assert(out@ =~= svg_document(cfg, *chart));
        }
        Ok(string_of(&out))
    }
}

} // verus!
