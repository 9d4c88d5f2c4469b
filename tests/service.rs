use ferrview::probes::{probe_cpu, probe_disks, probe_memory, probe_networks, probe_static_info, probe_temperature, usage_percent_text, DiskInfo, InterfaceInfo, SensorInfo};
use ferrview::reader::{partition_date_of_file, partition_dates_of_files};
use ferrview::calendar::CivilDate;
use ferrview::client::{after_attempt, check_status, collector_url, ClientError, RetryAction};
use ferrview::clock::format_timestamp;
use ferrview::config::{default_config_file, SysinfoProbes};
use ferrview::errors::StoreError;
use ferrview::ingest::{group_by_day, ingest_outcome, partition_batch, IngestError};
use ferrview::pages::render;
use ferrview::query::{parse_query_string, query_param, range_request, RangeRequest};
use ferrview::record::ProbeDataPoint;
use ferrview::routes::{route_node, route, ChartKind, Route};

fn row(ts: &str, name: &str) -> ProbeDataPoint {
    ProbeDataPoint {
        node_id: "n".to_string(),
        timestamp: ts.to_string(),
        probe_type: "sysinfo".to_string(),
        probe_name: name.to_string(),
        probe_value: "1".to_string(),
    }
}

fn date(year: i32, month: u8, day: u8) -> CivilDate {
    CivilDate { year, month, day }
}

#[test]
fn timestamps_parse_to_instants_and_days() {
    let parts = partition_batch(&vec![row("2024-12-01T01:00:00+02:00", "a")]).unwrap();
    assert_eq!(parts[0].date, date(2024, 11, 30));
    assert!(partition_batch(&vec![row("2024-12-01", "a")]).is_err());
    let parts = partition_batch(&vec![row("1969-12-31T23:59:59Z", "a")]).unwrap();
    assert_eq!(parts[0].date, date(1969, 12, 31));
    assert_eq!(format_timestamp(1_733_047_200), "2024-12-01T10:00:00Z");
    assert_eq!(format_timestamp(0), "1970-01-01T00:00:00Z");
    assert_eq!(format_timestamp(-1), "1969-12-31T23:59:59Z");
    assert_eq!(format_timestamp(-62_167_219_200), "0000-01-01T00:00:00Z");
    // a year before 0 cannot be written: the epoch stands in
    assert_eq!(format_timestamp(-62_167_219_201), "1970-01-01T00:00:00Z");
}

#[test]
fn batches_split_by_utc_day() {
    let batch = vec![
        row("2024-12-01T23:59:59Z", "a"),
        row("2024-12-02T00:00:00Z", "b"),
        row("2024-12-01T12:00:00Z", "c"),
        row("2024-12-02T01:00:00+02:00", "d"),
    ];
    let parts = partition_batch(&batch).unwrap();
    assert_eq!(parts.len(), 2);
    assert_eq!(parts[0].date, date(2024, 12, 1));
    let names: Vec<String> = parts[0].records.iter().map(|r| r.probe_name.clone()).collect();
    assert_eq!(names, vec!["a", "c", "d"]);
    assert_eq!(parts[1].date, date(2024, 12, 2));
    assert_eq!(parts[1].records.len(), 1);
    let bad = vec![row("2024-12-01T00:00:00Z", "a"), row("yesterday", "b")];
    assert!(matches!(partition_batch(&bad), Err(StoreError::InvalidQuery(_))));
    assert!(partition_batch(&vec![]).unwrap().is_empty());
    let grouped = group_by_day(&vec![row("x", "a"), row("y", "b")], &vec![date(2024, 1, 2), date(2024, 1, 1)]);
    assert_eq!(grouped[0].date, date(2024, 1, 2));
}

#[test]
fn ingest_reports_failed_days() {
    let ok = vec![(date(2024, 1, 1), true), (date(2024, 1, 2), true)];
    assert_eq!(ingest_outcome(&ok), Ok(()));
    let partial = vec![(date(2024, 1, 1), true), (date(2024, 1, 2), false), (date(2024, 1, 3), false)];
    assert_eq!(
        ingest_outcome(&partial),
        Err(IngestError { failed: vec![date(2024, 1, 2), date(2024, 1, 3)] })
    );
}

#[test]
fn query_strings() {
    let pairs = parse_query_string(Some("range=custom&start=2024-12-01&flag&end=2024-12-03&range=7d"));
    assert_eq!(pairs.len(), 4);
    assert_eq!(pairs[0], ("range".to_string(), "custom".to_string()));
    assert_eq!(query_param(&pairs, "range"), Some("7d".to_string()));
    assert_eq!(query_param(&pairs, "missing"), None);
    assert!(parse_query_string(None).is_empty());
    assert_eq!(range_request(Some("range=30d")), RangeRequest::LastDays(30));
    assert_eq!(range_request(Some("range=today")), RangeRequest::Today);
    assert_eq!(range_request(Some("range=weird")), RangeRequest::Today);
    assert_eq!(range_request(None), RangeRequest::Today);
    assert_eq!(
        range_request(Some("range=custom&start=2024-12-01")),
        RangeRequest::Custom("2024-12-01".to_string(), String::new())
    );
}

#[test]
fn routes_of_requests() {
    assert_eq!(route("POST", "/api/v1/probe"), Route::IngestProbe);
    assert_eq!(route("GET", "/api/v1/probe"), Route::NotFound);
    assert_eq!(route("GET", "/health"), Route::Health);
    assert_eq!(route("GET", "/ui"), Route::Home);
    assert_eq!(route("GET", "/ui/node/abc"), Route::NodeDashboard("abc".to_string()));
    assert_eq!(route("GET", "/ui/node/abc/cpu.svg"), Route::NodeChart("abc".to_string(), ChartKind::Cpu));
    assert_eq!(route("GET", "/ui/node/abc/forks.svg"), Route::NodeChart("abc".to_string(), ChartKind::Forks));
    assert_eq!(route("GET", "/ui/node/abc/x.svg"), Route::UnknownChart("x.svg".to_string()));
    assert_eq!(route("GET", "/ui/node/abc/a/b"), Route::NodeDashboard("abc".to_string()));
    assert_eq!(route_node(""), Route::NodeDashboard(String::new()));
    assert_eq!(route("DELETE", "/ui"), Route::NotFound);
}

#[test]
fn client_url_status_and_backoff() {
    assert_eq!(collector_url("localhost:8080"), "http://localhost:8080/api/v1/probe");
    assert_eq!(collector_url("https://c.example"), "https://c.example/api/v1/probe");
    assert_eq!(check_status(200), Ok(()));
    assert_eq!(check_status(202), Ok(()));
    assert_eq!(check_status(500), Err(ClientError::InvalidResponse(500)));
    assert_eq!(after_attempt(1, 3, true), RetryAction::Done);
    assert_eq!(after_attempt(1, 3, false), RetryAction::Wait(1));
    assert_eq!(after_attempt(2, 5, false), RetryAction::Wait(2));
    assert_eq!(after_attempt(4, 5, false), RetryAction::Wait(8));
    assert_eq!(after_attempt(3, 3, false), RetryAction::GiveUp);
    assert_eq!(after_attempt(70, 100, false), RetryAction::Wait(u64::MAX));
}

#[test]
fn error_page_and_config() {
    let page = render("Oops <1>", "a & b");
    assert!(page.contains("<h1>Oops &lt;1&gt;</h1>"));
    assert!(page.contains("<p>a &amp; b</p>"));
    assert_eq!(default_config_file(), "helioscope-collector.toml");
    let probes = SysinfoProbes { cpu: true, memory: false, disk: true, network: false, temperature: false, static_info: true };
    assert_eq!(probes.enabled_count(), 3);
    assert_eq!(StoreError::NotInitialized.message(), "Database not initialized");
}

#[test]
fn probe_samples_are_named_by_index() {
    let cpu = probe_cpu("n1", "2024-12-01T10:00:00Z", &vec![2400, 3000], &vec!["12.5".to_string(), "0".to_string()]);
    let names: Vec<&str> = cpu.iter().map(|p| p.probe_name.as_str()).collect();
    assert_eq!(names, vec!["cpu_core_count", "cpu_core_0_frequency_mhz", "cpu_core_0_usage_percent", "cpu_core_1_frequency_mhz", "cpu_core_1_usage_percent"]);
    assert_eq!(cpu[0].probe_value, "2");
    assert_eq!(cpu[3].probe_value, "3000");
    assert_eq!(cpu[2].probe_value, "12.5");
    assert!(cpu.iter().all(|p| p.probe_type == "sysinfo" && p.node_id == "n1"));

    let mem = probe_memory("n1", "t", 100, 40, 60, 8, 1);
    assert_eq!(mem[1].probe_name, "memory_used_bytes");
    assert_eq!(mem[1].probe_value, "40");
    assert_eq!(mem.len(), 5);

    assert_eq!(usage_percent_text(3, 1), Some("66.67".to_string()));
    assert_eq!(usage_percent_text(1000, 1000), Some("0.00".to_string()));
    assert_eq!(usage_percent_text(8, 0), Some("100.00".to_string()));
    assert_eq!(usage_percent_text(0, 0), None);
    let disks = probe_disks("n1", "t", &vec![
        DiskInfo { name: "sda".to_string(), total_space: 200, available_space: 50, file_system: "ext4".to_string(), mount_point: "/".to_string() },
        DiskInfo { name: "empty".to_string(), total_space: 0, available_space: 0, file_system: "tmpfs".to_string(), mount_point: "/x".to_string() },
    ]);
    let names: Vec<&str> = disks.iter().map(|p| p.probe_name.as_str()).collect();
    assert_eq!(names, vec!["disk_count", "disk_0_name", "disk_0_total_bytes", "disk_0_available_bytes", "disk_0_usage_percent", "disk_0_filesystem_type", "disk_0_mount_point", "disk_1_name", "disk_1_total_bytes", "disk_1_available_bytes", "disk_1_filesystem_type", "disk_1_mount_point"]);
    assert_eq!(disks[4].probe_value, "75.00");

    let nets = probe_networks("n1", "t", &vec![InterfaceInfo { name: "eth0".to_string(), total_received: 5, total_transmitted: 6, packets_received: 7, packets_transmitted: 8, errors_on_received: 0, errors_on_transmitted: 1 }]);
    assert_eq!(nets.len(), 8);
    assert_eq!(nets[2].probe_name, "network_interface_0_total_received_bytes");
    assert_eq!(nets[2].probe_value, "5");

    let temps = probe_temperature("n1", "t", &vec![
        SensorInfo { label: "cpu".to_string(), temperature: Some("45.5".to_string()), max: None, critical: Some("100".to_string()) },
        SensorInfo { label: "gpu".to_string(), temperature: None, max: None, critical: None },
    ]);
    let names: Vec<&str> = temps.iter().map(|p| p.probe_name.as_str()).collect();
    assert_eq!(names, vec!["temperature_sensor_count", "temperature_sensor_0_celsius", "temperature_sensor_0_label", "temperature_sensor_0_critical_celsius", "temperature_sensor_1_label"]);

    let stat = probe_static_info("n1", "t", "x86_64".to_string(), "Linux".to_string(), "6.1".to_string(), "12".to_string(), "host".to_string());
    assert_eq!(stat[4].probe_name, "system_hostname");
    assert_eq!(stat[4].probe_value, "host");
}

#[test]
fn partition_file_names() {
    assert_eq!(partition_date_of_file("ferrview_2024-12-08.db"), Some("2024-12-08".to_string()));
    assert_eq!(partition_date_of_file("ferrview_2024-12-08.db-wal"), None);
    assert_eq!(partition_date_of_file("other_2024-12-08.db"), None);
    let names = vec!["ferrview_2024-12-09.db".to_string(), "notes.txt".to_string(), "ferrview_2024-12-08.db".to_string()];
    assert_eq!(partition_dates_of_files(&names), vec!["2024-12-08", "2024-12-09"]);
}

#[test]
fn texts_sort_with_duplicates_kept() {
    let v = vec!["b".to_string(), "a".to_string(), "b".to_string(), "".to_string(), "ab".to_string()];
    assert_eq!(ferrview::merge::sort_texts(&v), vec!["", "a", "ab", "b", "b"]);
}
