//! The samples that a node's host probes report, built from the plain values
//! that the host gave: names such as `cpu_core_<i>_usage_percent`, values as
//! decimal text.

use vstd::prelude::*;
use crate::record::ProbeDataPoint;
use crate::text::{decimal, push_decimal, push_padded, push_str, string_of, padded};

verus! {

/// The five fields of a sample as texts.
pub open spec fn sample_view(p: ProbeDataPoint) -> (Seq<char>, Seq<char>, Seq<char>, Seq<char>, Seq<char>) {
    (p.node_id@, p.timestamp@, p.probe_type@, p.probe_name@, p.probe_value@)
}

pub open spec fn samples_view(s: Seq<ProbeDataPoint>) -> Seq<(Seq<char>, Seq<char>, Seq<char>, Seq<char>, Seq<char>)> {
    s.map_values(|p: ProbeDataPoint| sample_view(p))
}

/// A host sample of this node at this time.
pub open spec fn host_sample(node: Seq<char>, ts: Seq<char>, name: Seq<char>, value: Seq<char>) -> (Seq<char>, Seq<char>, Seq<char>, Seq<char>, Seq<char>) {
    (node, ts, "sysinfo"@, name, value)
}

/// `<prefix><index><suffix>`.
pub open spec fn indexed_name(prefix: Seq<char>, index: nat, suffix: Seq<char>) -> Seq<char> {
    prefix + decimal(index) + suffix
}

fn sample(node_id: &str, timestamp: &str, name: Vec<char>, value: String) -> (r: ProbeDataPoint)
    ensures
        sample_view(r) == host_sample(node_id@, timestamp@, name@, value@),
{
    ProbeDataPoint {
        node_id: String::from_str(node_id),
        timestamp: String::from_str(timestamp),
        probe_type: String::from_str("sysinfo"),
        probe_name: string_of(&name),
        probe_value: value,
    }
}

fn name_of(prefix: &str, index: u64, suffix: &str) -> (r: Vec<char>)
    ensures
        r@ == indexed_name(prefix@, index as nat, suffix@),
{
    let mut out: Vec<char> = Vec::new();
    push_str(&mut out, prefix);
    push_decimal(&mut out, index);
    push_str(&mut out, suffix);
    assert(out@ =~= indexed_name(prefix@, index as nat, suffix@));
    out
}

fn plain_name(name: &str) -> (r: Vec<char>)
    ensures
        r@ == name@,
{
    crate::text::chars_of(name)
}

fn number_text(n: u64) -> (r: String)
    ensures
        r@ == decimal(n as nat),
{
    let mut out: Vec<char> = Vec::new();
    push_decimal(&mut out, n);
    assert(out@ =~= decimal(n as nat));
    string_of(&out)
}

fn push_sample(
    out: &mut Vec<ProbeDataPoint>,
    node_id: &str,
    timestamp: &str,
    name: Vec<char>,
    value: String,
)
    ensures
        samples_view(final(out)@) == samples_view(old(out)@).push(host_sample(node_id@, timestamp@, name@, value@)),
{
    let ghost n = name@;
    let ghost v = value@;
    out.push(sample(node_id, timestamp, name, value));
    assert(samples_view(out@) =~= samples_view(old(out)@).push(host_sample(node_id@, timestamp@, n, v)));
}

// ----- CPU -----

/// The per-core samples of the first `k` cores.
pub open spec fn cpu_core_samples(node: Seq<char>, ts: Seq<char>, freqs: Seq<u64>, usages: Seq<Seq<char>>, k: nat) -> Seq<(Seq<char>, Seq<char>, Seq<char>, Seq<char>, Seq<char>)>
    decreases k,
{
    if k == 0 {
        seq![]
    } else {
        let i = (k - 1) as nat;
        cpu_core_samples(node, ts, freqs, usages, i).push(
            host_sample(node, ts, indexed_name("cpu_core_"@, i, "_frequency_mhz"@), decimal(freqs[i as int] as nat)),
        ).push(host_sample(node, ts, indexed_name("cpu_core_"@, i, "_usage_percent"@), usages[i as int]))
    }
}

/// The core count, then each core's frequency (MHz) and usage (percent text).
pub fn probe_cpu(node_id: &str, timestamp: &str, frequencies: &Vec<u64>, usages: &Vec<String>) -> (r: Vec<ProbeDataPoint>)
    requires
        frequencies@.len() == usages@.len(),
    ensures
        samples_view(r@) == seq![host_sample(node_id@, timestamp@, "cpu_core_count"@, decimal(frequencies@.len()))]
            + cpu_core_samples(node_id@, timestamp@, frequencies@, usages@.map_values(|u: String| u@), frequencies@.len()),
{
    let mut out: Vec<ProbeDataPoint> = Vec::new();
    push_sample(&mut out, node_id, timestamp, plain_name("cpu_core_count"), number_text(frequencies.len() as u64));
    let ghost head = samples_view(out@);
    let ghost us = usages@.map_values(|u: String| u@);
    let mut i: usize = 0;
    while i < frequencies.len()
        invariant
            i <= frequencies@.len() == usages@.len(),
            us == usages@.map_values(|u: String| u@),
            samples_view(out@) == head + cpu_core_samples(node_id@, timestamp@, frequencies@, us, i as nat),
        decreases frequencies@.len() - i,
    {
        push_sample(&mut out, node_id, timestamp, name_of("cpu_core_", i as u64, "_frequency_mhz"), number_text(frequencies[i]));
        push_sample(&mut out, node_id, timestamp, name_of("cpu_core_", i as u64, "_usage_percent"), usages[i].clone());
        assert(samples_view(out@) =~= head + cpu_core_samples(node_id@, timestamp@, frequencies@, us, (i + 1) as nat));
        i = i + 1;
    }
    out
}

// ----- memory -----

/// Total, used and available memory, then total and used swap, in bytes.
pub fn probe_memory(node_id: &str, timestamp: &str, total: u64, used: u64, available: u64, total_swap: u64, used_swap: u64) -> (r: Vec<ProbeDataPoint>)
    ensures
        samples_view(r@) == seq![
            host_sample(node_id@, timestamp@, "memory_total_bytes"@, decimal(total as nat)),
            host_sample(node_id@, timestamp@, "memory_used_bytes"@, decimal(used as nat)),
            host_sample(node_id@, timestamp@, "memory_available_bytes"@, decimal(available as nat)),
            host_sample(node_id@, timestamp@, "swap_total_bytes"@, decimal(total_swap as nat)),
            host_sample(node_id@, timestamp@, "swap_used_bytes"@, decimal(used_swap as nat)),
        ],
{
    let mut out: Vec<ProbeDataPoint> = Vec::new();
    push_sample(&mut out, node_id, timestamp, plain_name("memory_total_bytes"), number_text(total));
    push_sample(&mut out, node_id, timestamp, plain_name("memory_used_bytes"), number_text(used));
    push_sample(&mut out, node_id, timestamp, plain_name("memory_available_bytes"), number_text(available));
    push_sample(&mut out, node_id, timestamp, plain_name("swap_total_bytes"), number_text(total_swap));
    push_sample(&mut out, node_id, timestamp, plain_name("swap_used_bytes"), number_text(used_swap));
    assert(samples_view(out@) =~= seq![
        host_sample(node_id@, timestamp@, "memory_total_bytes"@, decimal(total as nat)),
        host_sample(node_id@, timestamp@, "memory_used_bytes"@, decimal(used as nat)),
        host_sample(node_id@, timestamp@, "memory_available_bytes"@, decimal(available as nat)),
        host_sample(node_id@, timestamp@, "swap_total_bytes"@, decimal(total_swap as nat)),
        host_sample(node_id@, timestamp@, "swap_used_bytes"@, decimal(used_swap as nat)),
    ]);
    out
}

// ----- disks -----

/// What a node reads of one disk.
pub struct DiskInfo {
    pub name: String,
    pub total_space: u64,
    pub available_space: u64,
    pub file_system: String,
    pub mount_point: String,
}

/// Used space in hundredths of a percent, rounded half up; none for a disk
/// of no size.
pub open spec fn usage_hundredths(total: nat, available: nat) -> Option<nat> {
    if total == 0 {
        None
    } else {
        let used: nat = if available >= total { 0 } else { (total - available) as nat };
        Some(((used * 20000 + total) / (2 * total)) as nat)
    }
}

/// Hundredths written as `<units>.<two digits>`.
pub open spec fn hundredths_text(h: nat) -> Seq<char> {
    decimal(h / 100) + "."@ + padded(h % 100, 2)
}

/// The usage of a disk as percent text with two decimals.
pub fn usage_percent_text(total: u64, available: u64) -> (r: Option<String>)
    ensures
        match r {
            Some(t) => usage_hundredths(total as nat, available as nat) matches Some(h) && t@ == hundredths_text(h),
            None => usage_hundredths(total as nat, available as nat) is None,
        },
{
    if total == 0 {
        return None;
    }
    let used: u128 = if available >= total { 0 } else { (total - available) as u128 };
    let t: u128 = total as u128;
    assert(used * 20000 + t <= 0x1_0000_0000_0000_0000 * 20001) by (nonlinear_arith)
        requires used <= t, t < 0x1_0000_0000_0000_0000;
    let h: u128 = (used * 20000 + t) / (2 * t);
    assert(h <= 10000) by (nonlinear_arith)
        requires used <= t, 0 < t, h == (used * 20000 + t) / (2 * t);
    let mut out: Vec<char> = Vec::new();
    push_decimal(&mut out, (h / 100) as u64);
    push_str(&mut out, ".");
    push_padded(&mut out, (h % 100) as u64, 2);
    assert(out@ =~= hundredths_text(h as nat));
    Some(string_of(&out))
}

/// The samples of one disk.
pub open spec fn disk_block(node: Seq<char>, ts: Seq<char>, i: nat, d: DiskInfo) -> Seq<(Seq<char>, Seq<char>, Seq<char>, Seq<char>, Seq<char>)> {
    seq![
        host_sample(node, ts, indexed_name("disk_"@, i, "_name"@), d.name@),
        host_sample(node, ts, indexed_name("disk_"@, i, "_total_bytes"@), decimal(d.total_space as nat)),
        host_sample(node, ts, indexed_name("disk_"@, i, "_available_bytes"@), decimal(d.available_space as nat)),
    ] + match usage_hundredths(d.total_space as nat, d.available_space as nat) {
        Some(h) => seq![host_sample(node, ts, indexed_name("disk_"@, i, "_usage_percent"@), hundredths_text(h))],
        None => seq![],
    } + seq![
        host_sample(node, ts, indexed_name("disk_"@, i, "_filesystem_type"@), d.file_system@),
        host_sample(node, ts, indexed_name("disk_"@, i, "_mount_point"@), d.mount_point@),
    ]
}

pub open spec fn disk_blocks(node: Seq<char>, ts: Seq<char>, disks: Seq<DiskInfo>, k: nat) -> Seq<(Seq<char>, Seq<char>, Seq<char>, Seq<char>, Seq<char>)>
    decreases k,
{
    if k == 0 {
        seq![]
    } else {
        disk_blocks(node, ts, disks, (k - 1) as nat) + disk_block(node, ts, (k - 1) as nat, disks[k - 1])
    }
}

/// The disk count, then per disk: name, total and available bytes, usage
/// (where the disk has a size), file system and mount point.
pub fn probe_disks(node_id: &str, timestamp: &str, disks: &Vec<DiskInfo>) -> (r: Vec<ProbeDataPoint>)
    ensures
        samples_view(r@) == seq![host_sample(node_id@, timestamp@, "disk_count"@, decimal(disks@.len()))]
            + disk_blocks(node_id@, timestamp@, disks@, disks@.len()),
{
    let mut out: Vec<ProbeDataPoint> = Vec::new();
    push_sample(&mut out, node_id, timestamp, plain_name("disk_count"), number_text(disks.len() as u64));
    let ghost head = samples_view(out@);
    let mut i: usize = 0;
    while i < disks.len()
        invariant
            i <= disks@.len(),
            samples_view(out@) == head + disk_blocks(node_id@, timestamp@, disks@, i as nat),
        decreases disks@.len() - i,
    {
        let d = &disks[i];
        let ghost before = samples_view(out@);
        push_sample(&mut out, node_id, timestamp, name_of("disk_", i as u64, "_name"), d.name.clone());
        push_sample(&mut out, node_id, timestamp, name_of("disk_", i as u64, "_total_bytes"), number_text(d.total_space));
        push_sample(&mut out, node_id, timestamp, name_of("disk_", i as u64, "_available_bytes"), number_text(d.available_space));
        let ghost mid = samples_view(out@);
        match usage_percent_text(d.total_space, d.available_space) {
            Some(t) => push_sample(&mut out, node_id, timestamp, name_of("disk_", i as u64, "_usage_percent"), t),
            None => {},
        }
        let ghost mid2 = samples_view(out@);
        push_sample(&mut out, node_id, timestamp, name_of("disk_", i as u64, "_filesystem_type"), d.file_system.clone());
        push_sample(&mut out, node_id, timestamp, name_of("disk_", i as u64, "_mount_point"), d.mount_point.clone());
        proof {
            let blk = disk_block(node_id@, timestamp@, i as nat, *d);
            assert(samples_view(out@) =~= before + blk);
            assert(disk_blocks(node_id@, timestamp@, disks@, (i + 1) as nat) == disk_blocks(node_id@, timestamp@, disks@, i as nat) + blk);
            assert(samples_view(out@) =~= head + disk_blocks(node_id@, timestamp@, disks@, (i + 1) as nat));
        }
        i = i + 1;
    }
    out
}

// ----- network -----

/// What a node reads of one network interface.
pub struct InterfaceInfo {
    pub name: String,
    pub total_received: u64,
    pub total_transmitted: u64,
    pub packets_received: u64,
    pub packets_transmitted: u64,
    pub errors_on_received: u64,
    pub errors_on_transmitted: u64,
}

pub open spec fn interface_block(node: Seq<char>, ts: Seq<char>, i: nat, n: InterfaceInfo) -> Seq<(Seq<char>, Seq<char>, Seq<char>, Seq<char>, Seq<char>)> {
    seq![
        host_sample(node, ts, indexed_name("network_interface_"@, i, "_name"@), n.name@),
        host_sample(node, ts, indexed_name("network_interface_"@, i, "_total_received_bytes"@), decimal(n.total_received as nat)),
        host_sample(node, ts, indexed_name("network_interface_"@, i, "_total_transmitted_bytes"@), decimal(n.total_transmitted as nat)),
        host_sample(node, ts, indexed_name("network_interface_"@, i, "_packets_received"@), decimal(n.packets_received as nat)),
        host_sample(node, ts, indexed_name("network_interface_"@, i, "_packets_transmitted"@), decimal(n.packets_transmitted as nat)),
        host_sample(node, ts, indexed_name("network_interface_"@, i, "_errors_on_received"@), decimal(n.errors_on_received as nat)),
        host_sample(node, ts, indexed_name("network_interface_"@, i, "_errors_on_transmitted"@), decimal(n.errors_on_transmitted as nat)),
    ]
}

pub open spec fn interface_blocks(node: Seq<char>, ts: Seq<char>, ifs: Seq<InterfaceInfo>, k: nat) -> Seq<(Seq<char>, Seq<char>, Seq<char>, Seq<char>, Seq<char>)>
    decreases k,
{
    if k == 0 {
        seq![]
    } else {
        interface_blocks(node, ts, ifs, (k - 1) as nat) + interface_block(node, ts, (k - 1) as nat, ifs[k - 1])
    }
}

/// The interface count, then per interface: name, byte totals, packet counts
/// and error counts.
pub fn probe_networks(node_id: &str, timestamp: &str, interfaces: &Vec<InterfaceInfo>) -> (r: Vec<ProbeDataPoint>)
    ensures
        samples_view(r@) == seq![host_sample(node_id@, timestamp@, "network_interface_count"@, decimal(interfaces@.len()))]
            + interface_blocks(node_id@, timestamp@, interfaces@, interfaces@.len()),
{
    let mut out: Vec<ProbeDataPoint> = Vec::new();
    push_sample(&mut out, node_id, timestamp, plain_name("network_interface_count"), number_text(interfaces.len() as u64));
    let ghost head = samples_view(out@);
    let mut i: usize = 0;
    while i < interfaces.len()
        invariant
            i <= interfaces@.len(),
            samples_view(out@) == head + interface_blocks(node_id@, timestamp@, interfaces@, i as nat),
        decreases interfaces@.len() - i,
    {
        let n = &interfaces[i];
        let ghost before = samples_view(out@);
        let k = i as u64;
        push_sample(&mut out, node_id, timestamp, name_of("network_interface_", k, "_name"), n.name.clone());
        push_sample(&mut out, node_id, timestamp, name_of("network_interface_", k, "_total_received_bytes"), number_text(n.total_received));
        push_sample(&mut out, node_id, timestamp, name_of("network_interface_", k, "_total_transmitted_bytes"), number_text(n.total_transmitted));
        push_sample(&mut out, node_id, timestamp, name_of("network_interface_", k, "_packets_received"), number_text(n.packets_received));
        push_sample(&mut out, node_id, timestamp, name_of("network_interface_", k, "_packets_transmitted"), number_text(n.packets_transmitted));
        push_sample(&mut out, node_id, timestamp, name_of("network_interface_", k, "_errors_on_received"), number_text(n.errors_on_received));
        push_sample(&mut out, node_id, timestamp, name_of("network_interface_", k, "_errors_on_transmitted"), number_text(n.errors_on_transmitted));
        proof {
            let blk = interface_block(node_id@, timestamp@, i as nat, *n);
            assert(samples_view(out@) =~= before + blk);
            assert(samples_view(out@) =~= head + interface_blocks(node_id@, timestamp@, interfaces@, (i + 1) as nat));
        }
        i = i + 1;
    }
    out
}

// ----- temperature -----

/// What a node reads of one temperature sensor; readings as decimal text.
pub struct SensorInfo {
    pub label: String,
    pub temperature: Option<String>,
    pub max: Option<String>,
    pub critical: Option<String>,
}

pub open spec fn optional_sample(node: Seq<char>, ts: Seq<char>, name: Seq<char>, value: Option<String>) -> Seq<(Seq<char>, Seq<char>, Seq<char>, Seq<char>, Seq<char>)> {
    match value {
        Some(v) => seq![host_sample(node, ts, name, v@)],
        None => seq![],
    }
}

pub open spec fn sensor_block(node: Seq<char>, ts: Seq<char>, i: nat, s: SensorInfo) -> Seq<(Seq<char>, Seq<char>, Seq<char>, Seq<char>, Seq<char>)> {
    optional_sample(node, ts, indexed_name("temperature_sensor_"@, i, "_celsius"@), s.temperature)
        + seq![host_sample(node, ts, indexed_name("temperature_sensor_"@, i, "_label"@), s.label@)]
        + optional_sample(node, ts, indexed_name("temperature_sensor_"@, i, "_max_celsius"@), s.max)
        + optional_sample(node, ts, indexed_name("temperature_sensor_"@, i, "_critical_celsius"@), s.critical)
}

pub open spec fn sensor_blocks(node: Seq<char>, ts: Seq<char>, sensors: Seq<SensorInfo>, k: nat) -> Seq<(Seq<char>, Seq<char>, Seq<char>, Seq<char>, Seq<char>)>
    decreases k,
{
    if k == 0 {
        seq![]
    } else {
        sensor_blocks(node, ts, sensors, (k - 1) as nat) + sensor_block(node, ts, (k - 1) as nat, sensors[k - 1])
    }
}

fn push_optional(out: &mut Vec<ProbeDataPoint>, node_id: &str, timestamp: &str, name: Vec<char>, value: &Option<String>)
    ensures
        samples_view(final(out)@) == samples_view(old(out)@) + optional_sample(node_id@, timestamp@, name@, *value),
{
    match value {
        Some(v) => {
            push_sample(out, node_id, timestamp, name, v.clone());
            assert(samples_view(out@) =~= samples_view(old(out)@) + optional_sample(node_id@, timestamp@, name@, *value));
        },
        None => {
            assert(samples_view(out@) =~= samples_view(old(out)@) + optional_sample(node_id@, timestamp@, name@, *value));
        },
    }
}

/// The sensor count, then per sensor: its reading where there is one, its
/// label, and its maximum and critical thresholds where known.
pub fn probe_temperature(node_id: &str, timestamp: &str, sensors: &Vec<SensorInfo>) -> (r: Vec<ProbeDataPoint>)
    ensures
        samples_view(r@) == seq![host_sample(node_id@, timestamp@, "temperature_sensor_count"@, decimal(sensors@.len()))]
            + sensor_blocks(node_id@, timestamp@, sensors@, sensors@.len()),
{
    let mut out: Vec<ProbeDataPoint> = Vec::new();
    push_sample(&mut out, node_id, timestamp, plain_name("temperature_sensor_count"), number_text(sensors.len() as u64));
    let ghost head = samples_view(out@);
    let mut i: usize = 0;
    while i < sensors.len()
        invariant
            i <= sensors@.len(),
            samples_view(out@) == head + sensor_blocks(node_id@, timestamp@, sensors@, i as nat),
        decreases sensors@.len() - i,
    {
        let s = &sensors[i];
        let ghost before = samples_view(out@);
        let k = i as u64;
        push_optional(&mut out, node_id, timestamp, name_of("temperature_sensor_", k, "_celsius"), &s.temperature);
        push_sample(&mut out, node_id, timestamp, name_of("temperature_sensor_", k, "_label"), s.label.clone());
        push_optional(&mut out, node_id, timestamp, name_of("temperature_sensor_", k, "_max_celsius"), &s.max);
        push_optional(&mut out, node_id, timestamp, name_of("temperature_sensor_", k, "_critical_celsius"), &s.critical);
        proof {
            let blk = sensor_block(node_id@, timestamp@, i as nat, *s);
            assert(samples_view(out@) =~= before + blk);
            assert(samples_view(out@) =~= head + sensor_blocks(node_id@, timestamp@, sensors@, (i + 1) as nat));
        }
        i = i + 1;
    }
    out
}

// ----- static information -----

/// Architecture, OS name, kernel version, OS version and host name.
pub fn probe_static_info(node_id: &str, timestamp: &str, cpu_arch: String, os_name: String, kernel_version: String, os_version: String, host_name: String) -> (r: Vec<ProbeDataPoint>)
    ensures
        samples_view(r@) == seq![
            host_sample(node_id@, timestamp@, "system_cpu_arch"@, cpu_arch@),
            host_sample(node_id@, timestamp@, "system_os_name"@, os_name@),
            host_sample(node_id@, timestamp@, "system_kernel_version"@, kernel_version@),
            host_sample(node_id@, timestamp@, "system_os_version"@, os_version@),
            host_sample(node_id@, timestamp@, "system_hostname"@, host_name@),
        ],
{
    let ghost (a, b, c, d, e) = (cpu_arch@, os_name@, kernel_version@, os_version@, host_name@);
    let mut out: Vec<ProbeDataPoint> = Vec::new();
    push_sample(&mut out, node_id, timestamp, plain_name("system_cpu_arch"), cpu_arch);
    push_sample(&mut out, node_id, timestamp, plain_name("system_os_name"), os_name);
    push_sample(&mut out, node_id, timestamp, plain_name("system_kernel_version"), kernel_version);
    push_sample(&mut out, node_id, timestamp, plain_name("system_os_version"), os_version);
    push_sample(&mut out, node_id, timestamp, plain_name("system_hostname"), host_name);
    assert(samples_view(out@) =~= seq![
        host_sample(node_id@, timestamp@, "system_cpu_arch"@, a),
        host_sample(node_id@, timestamp@, "system_os_name"@, b),
        host_sample(node_id@, timestamp@, "system_kernel_version"@, c),
        host_sample(node_id@, timestamp@, "system_os_version"@, d),
        host_sample(node_id@, timestamp@, "system_hostname"@, e),
    ]);
    out
}

} // verus!
