use sysmon::telemetry::{get_system_info, get_top_processes, percent_hundredths, DiskInfo,
    ProcessInfo};
use sysmon::netinfo::{get_network_interface_details, Platform};

#[test]
fn percent_is_exact() {
    assert_eq!(percent_hundredths(50, 200), 2500);
    assert_eq!(percent_hundredths(1, 3), 3333);
    assert_eq!(percent_hundredths(200, 200), 10000);
    assert_eq!(percent_hundredths(0, 7), 0);
}

#[test]
fn percent_zero_total_is_zero() {
    assert_eq!(percent_hundredths(0, 0), 0);
    assert_eq!(percent_hundredths(12345, 0), 0);
}

#[test]
fn disk_usage_arithmetic() {
    let d = DiskInfo::new("disk0".to_string(), "/".to_string(), 100, 25);
    assert_eq!(d.used_space, 75);
    assert_eq!(d.total_space - d.available_space, d.used_space);
    assert_eq!(d.usage_percent, 7500);
    assert_eq!(d.name, "disk0");
    assert_eq!(d.mount_point, "/");
}

#[test]
fn disk_zero_total_has_zero_percent() {
    let d = DiskInfo::new("ram0".to_string(), "/mnt".to_string(), 0, 0);
    assert_eq!(d.used_space, 0);
    assert_eq!(d.usage_percent, 0);
}

#[test]
fn snapshot_memory_percent_and_fallbacks() {
    let details = get_network_interface_details(Platform::Unknown, None, None, None);
    let info = get_system_info(
        1234,
        512,
        2048,
        Vec::new(),
        Vec::new(),
        details,
        42,
        999,
        Some("TestOS".to_string()),
        None,
        None,
    );
    assert_eq!(info.cpu_usage, 1234);
    assert_eq!(info.memory_usage, 512);
    assert_eq!(info.total_memory, 2048);
    assert_eq!(info.memory_percent, 2500);
    assert_eq!(info.process_count, 42);
    assert_eq!(info.uptime, 999);
    assert_eq!(info.system_name, "TestOS");
    assert_eq!(info.kernel_version, "Unknown");
    assert_eq!(info.host_name, "Unknown");
}

#[test]
fn snapshot_zero_memory_total() {
    let details = get_network_interface_details(Platform::Unknown, None, None, None);
    let info = get_system_info(
        0,
        512,
        0,
        Vec::new(),
        Vec::new(),
        details,
        0,
        0,
        None,
        None,
        None,
    );
    assert_eq!(info.memory_percent, 0);
}

#[test]
fn top_processes_sorted_and_truncated() {
    let procs = vec![
        ProcessInfo { pid: 1, name: "a".to_string(), cpu_usage: 500, memory: 10 },
        ProcessInfo { pid: 2, name: "b".to_string(), cpu_usage: 100, memory: 20 },
        ProcessInfo { pid: 3, name: "c".to_string(), cpu_usage: 900, memory: 30 },
        ProcessInfo { pid: 4, name: "d".to_string(), cpu_usage: 900, memory: 40 },
        ProcessInfo { pid: 5, name: "e".to_string(), cpu_usage: 0, memory: 50 },
    ];
    let top = get_top_processes(procs, 3);
    assert_eq!(top.len(), 3);
    assert_eq!(top[0].cpu_usage, 900);
    assert_eq!(top[1].cpu_usage, 900);
    assert_eq!(top[2].cpu_usage, 500);
    for w in top.windows(2) {
        assert!(w[0].cpu_usage >= w[1].cpu_usage);
    }
}

#[test]
fn top_processes_limit_larger_than_table() {
    let procs = vec![
        ProcessInfo { pid: 1, name: "a".to_string(), cpu_usage: 10, memory: 1 },
        ProcessInfo { pid: 2, name: "b".to_string(), cpu_usage: 30, memory: 2 },
    ];
    let top = get_top_processes(procs, 10);
    assert_eq!(top.len(), 2);
    assert_eq!(top[0].pid, 2);
    assert_eq!(top[1].pid, 1);
}

#[test]
fn top_processes_limit_zero() {
    let procs = vec![ProcessInfo { pid: 1, name: "a".to_string(), cpu_usage: 10, memory: 1 }];
    let top = get_top_processes(procs, 0);
    assert_eq!(top.len(), 0);
}

#[test]
fn top_processes_nan_reading_sorts_last() {
    // The caller maps a non-comparable processor reading to 0 before it
    // reaches the library; 0 sorts last in the descending order.
    let nan: f32 = f32::NAN;
    let mapped: u64 = if nan.is_finite() && nan > 0.0 {
        (nan * 100.0) as u64
    } else {
        0
    };
    let procs = vec![
        ProcessInfo { pid: 1, name: "quiet".to_string(), cpu_usage: mapped, memory: 1 },
        ProcessInfo { pid: 2, name: "busy".to_string(), cpu_usage: 2550, memory: 2 },
    ];
    let top = get_top_processes(procs, 10);
    assert_eq!(top.len(), 2);
    assert_eq!(top[0].pid, 2);
    assert_eq!(top[1].pid, 1);
    assert_eq!(top[1].cpu_usage, 0);
}
