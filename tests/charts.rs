use ferrview::chart::{ChartData, MetricPoint, TimeSeries, TimeSeriesChart};
use ferrview::dashboards::{cpu_chart, disk_chart, forks_chart, memory_chart, network_chart, shorten_id, temperature_chart};
use ferrview::grouping::{group_by_index, group_metrics_by_index, probe_index};
use ferrview::record::ProbeDataPoint;
use ferrview::render::{RenderError, SvgRenderer};
use ferrview::values::parse_milli;

fn row(ts: &str, name: &str, value: &str) -> ProbeDataPoint {
    ProbeDataPoint {
        node_id: "0123456789abcdef".to_string(),
        timestamp: ts.to_string(),
        probe_type: "sysinfo".to_string(),
        probe_name: name.to_string(),
        probe_value: value.to_string(),
    }
}

#[test]
fn two_cores_at_one_instant_make_two_series() {
    let rows = vec![
        row("2024-12-01T10:00:00Z", "cpu_core_0_usage_percent", "10"),
        row("2024-12-01T10:00:00Z", "cpu_core_1_usage_percent", "20"),
    ];
    let groups = group_metrics_by_index(&rows, "cpu_core_");
    assert_eq!(groups.len(), 2);
    assert_eq!(groups[0].index, 0);
    assert_eq!(groups[1].index, 1);
    assert_eq!(groups[0].points, vec![MetricPoint::new(1_733_047_200, 10_000)]);
    assert_eq!(groups[1].points, vec![MetricPoint::new(1_733_047_200, 20_000)]);
}

#[test]
fn grouping_drops_bad_rows_and_orders_by_index() {
    let rows = vec![
        row("2024-12-01T10:00:00Z", "cpu_core_10_usage_percent", "1.5"),
        row("2024-12-01T10:00:00Z", "cpu_core_count", "4"),
        row("2024-12-01T10:00:00Z", "cpu_core_2_usage_percent", "oops"),
        row("not a time", "cpu_core_2_usage_percent", "3"),
        row("2024-12-01T10:01:00Z", "cpu_core_2_usage_percent", "2.25"),
        row("2024-12-01T10:02:00+01:00", "cpu_core_10_usage_percent", "7"),
    ];
    let groups = group_metrics_by_index(&rows, "cpu_core_");
    assert_eq!(groups.len(), 2);
    assert_eq!(groups[0].index, 2);
    assert_eq!(groups[0].points, vec![MetricPoint::new(1_733_047_260, 2_250)]);
    assert_eq!(groups[1].index, 10);
    assert_eq!(
        groups[1].points,
        vec![MetricPoint::new(1_733_047_200, 1_500), MetricPoint::new(1_733_043_720, 7_000)]
    );
}

#[test]
fn group_by_index_keeps_input_order() {
    let items = vec![(3u32, MetricPoint::new(5, 1)), (1, MetricPoint::new(6, 2)), (3, MetricPoint::new(4, 3))];
    let groups = group_by_index(&items);
    assert_eq!(groups.len(), 2);
    assert_eq!(groups[0].index, 1);
    assert_eq!(groups[1].points, vec![MetricPoint::new(5, 1), MetricPoint::new(4, 3)]);
}

#[test]
fn probe_indices() {
    assert_eq!(probe_index("cpu_core_3_usage_percent", "cpu_core_"), Some(3));
    assert_eq!(probe_index("disk_12_name", "disk_"), Some(12));
    assert_eq!(probe_index("disk_7", "disk_"), Some(7));
    assert_eq!(probe_index("disk_count", "disk_"), None);
    assert_eq!(probe_index("disk__x", "disk_"), None);
    assert_eq!(probe_index("memory_used_bytes", "disk_"), None);
    assert_eq!(probe_index("disk_1234567890_x", "disk_"), None);
}

#[test]
fn decimal_values_as_thousandths() {
    assert_eq!(parse_milli("12.345"), Some(12_345));
    assert_eq!(parse_milli("12.3456"), Some(12_345));
    assert_eq!(parse_milli("-1.5"), Some(-1_500));
    assert_eq!(parse_milli("+7"), Some(7_000));
    assert_eq!(parse_milli("0.05"), Some(50));
    assert_eq!(parse_milli("abc"), None);
    assert_eq!(parse_milli("1e3"), None);
    assert_eq!(parse_milli(""), None);
    assert_eq!(parse_milli("1."), None);
    assert_eq!(parse_milli(".5"), None);
    assert_eq!(parse_milli("NaN"), None);
    assert_eq!(parse_milli("100000000000000"), Some(100_000_000_000_000_000));
    assert_eq!(parse_milli("100000000000001"), None);
}

fn one_point_chart() -> ChartData {
    let mut chart = ChartData::new("Single").with_labels("Time", "Value");
    let mut s = TimeSeries::new("only").with_unit("%");
    s.add_point(1_733_047_200, 42_000);
    chart.add_series(s);
    chart
}

#[test]
fn single_point_renders_inside_the_plot() {
    let chart = one_point_chart();
    let renderer = SvgRenderer::new(TimeSeriesChart::new(800, 400));
    let svg = renderer.render_to_string(&chart).unwrap();
    assert!(svg.starts_with("<svg xmlns=\"http://www.w3.org/2000/svg\" width=\"800\" height=\"400\""));
    assert!(svg.ends_with("</svg>\n"));
    // plot area: x in [70, 600], y in [50, 340]; the point is centred.
    assert!(svg.contains("points=\"335,195\""));
    assert!(svg.contains("<circle cx=\"335\" cy=\"195\" r=\"3\" fill=\"#1f77b4\"/>"));
    assert!(svg.contains(">only (%)</text>"));
}

#[test]
fn rendering_twice_gives_the_same_text() {
    let mut chart = ChartData::new("A & B <test>");
    let mut a = TimeSeries::new("a");
    a.add_point(0, 0);
    a.add_point(3600, 1_000);
    a.add_point(7200, 500);
    let mut b = TimeSeries::new("b").with_unit("GB");
    b.add_point(1800, -250);
    chart.add_series(a);
    chart.add_series(b);
    let renderer = SvgRenderer::new(TimeSeriesChart::default());
    let first = renderer.render_to_string(&chart).unwrap();
    let second = renderer.render_to_string(&chart).unwrap();
    assert_eq!(first, second);
    assert!(first.contains("A &amp; B &lt;test&gt;"));
    assert!(first.contains("points=\"70,282 335,50 600,166\""));
    assert!(first.contains("stroke=\"#ff7f0e\""));
    assert!(first.contains(">01:00</text>"));
    assert!(first.contains(">-0.2</text>"));
}

#[test]
fn empty_or_cramped_charts_are_refused() {
    let renderer = SvgRenderer::new(TimeSeriesChart::new(800, 400));
    let empty = ChartData::new("nothing");
    assert_eq!(renderer.render_to_string(&empty), Err(RenderError::EmptyChart));
    let mut hollow = ChartData::new("hollow");
    hollow.add_series(TimeSeries::new("s"));
    assert!(hollow.is_empty());
    assert_eq!(renderer.render_to_string(&hollow), Err(RenderError::EmptyChart));
    let small = SvgRenderer::new(TimeSeriesChart::new(100, 100));
    assert_eq!(small.render_to_string(&one_point_chart()), Err(RenderError::CanvasTooSmall));
}

#[test]
fn chart_model_builders() {
    let c = ChartData::new("t");
    assert_eq!(c.x_label, "Time");
    assert_eq!(c.y_label, "Value");
    assert!(c.is_empty());
    let cfg = TimeSeriesChart::new(1200, 500);
    assert_eq!((cfg.width, cfg.height, cfg.show_grid, cfg.show_legend), (1200, 500, true, true));
    let d = TimeSeriesChart::default();
    assert_eq!((d.width, d.height), (800, 400));
}

#[test]
fn cpu_chart_from_rows() {
    let rows = vec![
        row("2024-12-01T10:00:00Z", "cpu_core_0_usage_percent", "10"),
        row("2024-12-01T10:00:00Z", "cpu_core_1_usage_percent", "20"),
    ];
    let chart = cpu_chart("0123456789abcdef", &rows).unwrap();
    assert_eq!(chart.title, "CPU Usage - Node 01234567");
    assert_eq!(chart.y_label, "Usage (%)");
    let names: Vec<String> = chart.series.iter().map(|s| s.name.clone()).collect();
    assert_eq!(names, vec!["Core 0", "Core 1"]);
    assert_eq!(chart.series[0].unit.as_deref(), Some("%"));
    assert_eq!(cpu_chart("n", &vec![]).unwrap_err(), "No CPU data available");
    let odd = vec![row("2024-12-01T10:00:00Z", "cpu_core_count", "4")];
    assert_eq!(cpu_chart("n", &odd).unwrap_err(), "No CPU data found");
}

#[test]
fn memory_chart_in_gigabytes() {
    let used = vec![row("2024-12-01T10:00:00Z", "memory_used_bytes", "2147483648")];
    let total = vec![row("2024-12-01T10:00:00Z", "memory_total_bytes", "8589934592")];
    let chart = memory_chart("abc", &used, &total).unwrap();
    assert_eq!(chart.title, "Memory Usage - Node abc");
    assert_eq!(chart.series.len(), 2);
    assert_eq!(chart.series[0].name, "Used Memory");
    assert_eq!(chart.series[0].points, vec![MetricPoint::new(1_733_047_200, 2_000)]);
    assert_eq!(chart.series[1].points, vec![MetricPoint::new(1_733_047_200, 8_000)]);
    assert_eq!(memory_chart("abc", &used, &vec![]).unwrap().series.len(), 1);
    assert_eq!(memory_chart("abc", &vec![], &total).unwrap_err(), "No memory data available");
}

#[test]
fn temperature_chart_leaves_out_thresholds() {
    let rows = vec![
        row("2024-12-01T10:00:00Z", "temperature_sensor_0_celsius", "45.5"),
        row("2024-12-01T10:00:00Z", "temperature_sensor_0_max_celsius", "90"),
        row("2024-12-01T10:00:00Z", "temperature_sensor_0_critical_celsius", "100"),
    ];
    let chart = temperature_chart("abc", &rows).unwrap();
    assert_eq!(chart.series.len(), 1);
    assert_eq!(chart.series[0].name, "Sensor 0");
    assert_eq!(chart.series[0].points, vec![MetricPoint::new(1_733_047_200, 45_500)]);
    let only_thresholds = vec![rows[1].clone()];
    assert_eq!(temperature_chart("abc", &only_thresholds).unwrap_err(), "No temperature data available");
}

#[test]
fn network_disk_and_forks_charts() {
    let rx = vec![row("2024-12-01T10:00:00Z", "network_interface_0_total_received_bytes", "1073741824")];
    let tx = vec![row("2024-12-01T10:00:00Z", "network_interface_1_total_transmitted_bytes", "536870912")];
    let chart = network_chart("abc", &rx, &tx).unwrap();
    let names: Vec<String> = chart.series.iter().map(|s| s.name.clone()).collect();
    assert_eq!(names, vec!["eth 0 RX", "eth 1 TX"]);
    assert_eq!(chart.series[0].points[0].value, 1_000);
    assert_eq!(chart.series[1].points[0].value, 500);
    assert_eq!(network_chart("abc", &vec![], &vec![]).unwrap_err(), "No network data available");

    let disks = vec![row("2024-12-01T10:00:00Z", "disk_1_usage_percent", "55.25")];
    let chart = disk_chart("abc", &disks).unwrap();
    assert_eq!(chart.series[0].name, "Disk 1");
    assert_eq!(disk_chart("abc", &vec![]).unwrap_err(), "No disk data available");

    let forks = vec![row("2024-12-01T10:00:00Z", "forks_total", "123"), row("bad", "forks_total", "124")];
    let chart = forks_chart("abc", &forks).unwrap();
    assert_eq!(chart.series[0].name, "Forks (cumulative)");
    assert_eq!(chart.series[0].points, vec![MetricPoint::new(1_733_047_200, 123_000)]);
    assert_eq!(forks_chart("abc", &vec![]).unwrap_err(), "No forks data available");
    assert_eq!(shorten_id("short"), "short");
}
