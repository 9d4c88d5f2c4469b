use ferrview::calendar::CivilDate;
use ferrview::date_range::DateRange;
use ferrview::errors::StoreError;
use ferrview::reader::{merge_partition_results, name_matches, select_rows, sort_by_time, DateRangeReader, PartitionRows};
use ferrview::record::{MetricDataPoint, ProbeDataPoint};

fn row(ts: &str, name: &str, value: &str) -> ProbeDataPoint {
    ProbeDataPoint {
        node_id: "node-1".to_string(),
        timestamp: ts.to_string(),
        probe_type: "sysinfo".to_string(),
        probe_name: name.to_string(),
        probe_value: value.to_string(),
    }
}

fn stamps(rows: &[MetricDataPoint]) -> Vec<String> {
    rows.iter().map(|r| r.timestamp.clone()).collect()
}

#[test]
fn test_new_reader() {
    let reader = DateRangeReader::new("/tmp/test");
    assert_eq!(reader.data_dir, "/tmp/test");
}

#[test]
fn merge_is_ascending_whatever_the_partition_order() {
    let day2 = vec![row("2024-12-02T00:00:05Z", "a", "1"), row("2024-12-02T10:00:00Z", "a", "2")];
    let day1 = vec![row("2024-12-01T08:00:00Z", "a", "3"), row("2024-12-01T09:00:00Z", "a", "4")];
    let merged = merge_partition_results(&vec![PartitionRows::Rows(day2), PartitionRows::Rows(day1)]);
    assert_eq!(
        stamps(&merged),
        vec!["2024-12-01T08:00:00Z", "2024-12-01T09:00:00Z", "2024-12-02T00:00:05Z", "2024-12-02T10:00:00Z"]
    );
}

#[test]
fn merge_keeps_arrival_order_on_equal_timestamps() {
    let first = vec![row("2024-12-01T08:00:00Z", "first", "1")];
    let second = vec![row("2024-12-01T07:00:00Z", "x", "0"), row("2024-12-01T08:00:00Z", "second", "2")];
    let merged = merge_partition_results(&vec![PartitionRows::Rows(first), PartitionRows::Rows(second)]);
    let names: Vec<String> = merged.iter().map(|r| r.probe_name.clone()).collect();
    assert_eq!(names, vec!["x", "first", "second"]);
}

#[test]
fn merge_sorts_a_partition_that_came_unsorted() {
    let rows = vec![row("2024-12-01T09:00:00Z", "b", "1"), row("2024-12-01T08:00:00Z", "a", "1")];
    let merged = merge_partition_results(&vec![PartitionRows::Rows(rows)]);
    assert_eq!(stamps(&merged), vec!["2024-12-01T08:00:00Z", "2024-12-01T09:00:00Z"]);
    let sorted = sort_by_time(&vec![row("3", "c", ""), row("1", "a", ""), row("2", "b", ""), row("1", "a2", "")]);
    let names: Vec<String> = sorted.iter().map(|r| r.probe_name.clone()).collect();
    assert_eq!(names, vec!["a", "a2", "b", "c"]);
}

#[test]
fn missing_middle_partition_is_skipped() {
    let outcomes = vec![
        PartitionRows::Rows(vec![row("2024-12-01T01:00:00Z", "a", "1"), row("2024-12-01T02:00:00Z", "a", "2")]),
        PartitionRows::Missing,
        PartitionRows::Rows(vec![row("2024-12-03T01:00:00Z", "a", "3")]),
    ];
    let merged = merge_partition_results(&outcomes);
    assert_eq!(
        stamps(&merged),
        vec!["2024-12-01T01:00:00Z", "2024-12-01T02:00:00Z", "2024-12-03T01:00:00Z"]
    );
}

#[test]
fn failed_partition_does_not_fail_the_query() {
    let outcomes = vec![
        PartitionRows::Failed(StoreError::Sqlite("database disk image is malformed".to_string())),
        PartitionRows::Rows(vec![row("2024-12-02T01:00:00Z", "a", "1")]),
    ];
    let merged = merge_partition_results(&outcomes);
    assert_eq!(stamps(&merged), vec!["2024-12-02T01:00:00Z"]);
}

#[test]
fn no_stored_data_gives_empty_result() {
    let outcomes = vec![PartitionRows::Missing, PartitionRows::Rows(vec![]), PartitionRows::Missing];
    assert!(merge_partition_results(&outcomes).is_empty());
    assert!(merge_partition_results(&vec![]).is_empty());
}

#[test]
fn partition_paths_follow_the_range() {
    let reader = DateRangeReader::new("/var/lib/ferrview");
    let range = DateRange::custom("2024-12-30", "2025-01-01").unwrap();
    assert_eq!(
        reader.partition_paths(&range),
        vec![
            "/var/lib/ferrview/ferrview_2024-12-30.db",
            "/var/lib/ferrview/ferrview_2024-12-31.db",
            "/var/lib/ferrview/ferrview_2025-01-01.db",
        ]
    );
    let d = CivilDate { year: 2024, month: 12, day: 8 };
    assert_eq!(reader.partition_path(&d), "/var/lib/ferrview/ferrview_2024-12-08.db");
}

#[test]
fn one_wildcard_patterns() {
    assert!(name_matches("cpu_core_%_usage_percent", "cpu_core_3_usage_percent"));
    assert!(name_matches("cpu_core_%_usage_percent", "cpu_core_12_usage_percent"));
    assert!(!name_matches("cpu_core_%_usage_percent", "cpu_core_3_frequency_mhz"));
    assert!(name_matches("forks_total", "forks_total"));
    assert!(!name_matches("forks_total", "forks_total2"));
    assert!(name_matches("%", ""));
    assert!(!name_matches("ab%ba", "aba"));
}

#[test]
fn partition_query_selects_node_name_and_window() {
    let mut other = row("2024-12-01T10:00:00Z", "cpu_core_0_usage_percent", "1");
    other.node_id = "node-2".to_string();
    let rows = vec![
        row("2024-12-01T09:59:59Z", "cpu_core_0_usage_percent", "1"),
        row("2024-12-01T10:00:00Z", "cpu_core_0_usage_percent", "2"),
        other,
        row("2024-12-01T10:30:00Z", "memory_used_bytes", "3"),
        row("2024-12-01T11:00:00Z", "cpu_core_1_usage_percent", "4"),
        row("2024-12-01T11:00:01Z", "cpu_core_1_usage_percent", "5"),
    ];
    let picked = select_rows(&rows, "node-1", "cpu_core_%_usage_percent", "2024-12-01T10:00:00Z", "2024-12-01T11:00:00Z");
    let values: Vec<String> = picked.iter().map(|r| r.probe_value.clone()).collect();
    assert_eq!(values, vec!["2", "4"]);
    assert!(select_rows(&rows, "node-9", "%", "0", "9").is_empty());
}

#[test]
fn partition_order_does_not_change_the_timestamps() {
    let day1 = || vec![row("2024-12-01T08:00:00Z", "a", "1"), row("2024-12-01T09:00:00Z", "b", "2")];
    let day2 = || vec![row("2024-12-01T09:00:00Z", "c", "3"), row("2024-12-02T01:00:00Z", "d", "4")];
    let forward = merge_partition_results(&vec![PartitionRows::Rows(day1()), PartitionRows::Missing, PartitionRows::Rows(day2())]);
    let backward = merge_partition_results(&vec![PartitionRows::Rows(day2()), PartitionRows::Rows(day1()), PartitionRows::Missing]);
    assert_eq!(stamps(&forward), stamps(&backward));
    assert_eq!(forward.len(), 4);
}
