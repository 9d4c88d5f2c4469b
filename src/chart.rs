//! The chart model that the renderer draws: named series of timestamped
//! values, the chart that holds them, and the drawing configuration.
//!
//! Values are fixed-point numbers in thousandths of the series' unit.

use vstd::prelude::*;

verus! {

/// One point of a series: Unix seconds and a value in thousandths.
#[derive(Debug, Clone, Copy, PartialEq, Eq, Structural)]
pub struct MetricPoint {
    pub timestamp: i64,
    pub value: i64,
}

impl MetricPoint {
    pub fn new(timestamp: i64, value: i64) -> (r: MetricPoint)
        ensures
            r.timestamp == timestamp,
            r.value == value,
    {
        MetricPoint { timestamp, value }
    }
}

/// A named series, its points in time order, and an optional unit.
#[derive(Debug)]
pub struct TimeSeries {
    pub name: String,
    pub points: Vec<MetricPoint>,
    pub unit: Option<String>,
}

impl TimeSeries {
    pub fn new(name: &str) -> (r: TimeSeries)
        ensures
            r.name@ == name@,
            r.points@.len() == 0,
            r.unit is None,
    {
        TimeSeries { name: String::from_str(name), points: Vec::new(), unit: None }
    }

    pub fn with_unit(self, unit: &str) -> (r: TimeSeries)
        ensures
            r.name == self.name,
            r.points == self.points,
            r.unit matches Some(u) && u@ == unit@,
    {
        TimeSeries { name: self.name, points: self.points, unit: Some(String::from_str(unit)) }
    }

    pub fn add_point(&mut self, timestamp: i64, value: i64)
        ensures
            final(self).points@ == old(self).points@.push(MetricPoint { timestamp, value }),
            final(self).name == old(self).name,
            final(self).unit == old(self).unit,
    {
        self.points.push(MetricPoint::new(timestamp, value));
    }

    pub fn is_empty(&self) -> (r: bool)
        ensures
            r == (self.points@.len() == 0),
    {
        self.points.len() == 0
    }
}

/// A chart: its title, axis labels, and series in legend order.
#[derive(Debug)]
pub struct ChartData {
    pub title: String,
    pub series: Vec<TimeSeries>,
    pub x_label: String,
    pub y_label: String,
}

/// No series, or no series with a point.
pub open spec fn chart_is_empty(series: Seq<TimeSeries>) -> bool {
    forall|i: int| 0 <= i < series.len() ==> (#[trigger] series[i]).points@.len() == 0
}

impl ChartData {
    pub fn new(title: &str) -> (r: ChartData)
        ensures
            r.title@ == title@,
            r.series@.len() == 0,
            r.x_label@ == "Time"@,
            r.y_label@ == "Value"@,
    {
        ChartData {
            title: String::from_str(title),
            series: Vec::new(),
            x_label: String::from_str("Time"),
            y_label: String::from_str("Value"),
        }
    }

    pub fn with_labels(self, x_label: &str, y_label: &str) -> (r: ChartData)
        ensures
            r.title == self.title,
            r.series == self.series,
            r.x_label@ == x_label@,
            r.y_label@ == y_label@,
    {
        ChartData {
            title: self.title,
            series: self.series,
            x_label: String::from_str(x_label),
            y_label: String::from_str(y_label),
        }
    }

    pub fn add_series(&mut self, series: TimeSeries)
        ensures
            final(self).series@ == old(self).series@.push(series),
            final(self).title == old(self).title,
            final(self).x_label == old(self).x_label,
            final(self).y_label == old(self).y_label,
    {
        self.series.push(series);
    }

    pub fn is_empty(&self) -> (r: bool)
        ensures
            r == chart_is_empty(self.series@),
    {
        let mut i: usize = 0;
        while i < self.series.len()
            invariant
                i <= self.series@.len(),
                forall|k: int| 0 <= k < i ==> (#[trigger] self.series@[k]).points@.len() == 0,
            decreases self.series@.len() - i,
        {
            if self.series[i].points.len() > 0 {
                return false;
            }
            i = i + 1;
        }
        true
    }
}

/// Drawing configuration: size in pixels, grid and legend.
#[derive(Debug, Clone, Copy, PartialEq, Eq, Structural)]
pub struct TimeSeriesChart {
    pub width: u32,
    pub height: u32,
    pub show_grid: bool,
    pub show_legend: bool,
}

impl Default for TimeSeriesChart {
    fn default() -> (r: TimeSeriesChart)
        ensures
            r == (TimeSeriesChart { width: 800, height: 400, show_grid: true, show_legend: true }),
    {
        TimeSeriesChart { width: 800, height: 400, show_grid: true, show_legend: true }
    }
}

impl TimeSeriesChart {
    /// A chart of the given size, with grid and legend.
    pub fn new(width: u32, height: u32) -> (r: TimeSeriesChart)
        ensures
            r == (TimeSeriesChart { width, height, show_grid: true, show_legend: true }),
    {
        TimeSeriesChart { width, height, show_grid: true, show_legend: true }
    }
}

} // verus!
