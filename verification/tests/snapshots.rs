use std::cell::Cell;

use nova_monitor::cpu::{build_cpu_info, CpuCore};
use nova_monitor::disk::{
    build_disks_info, parse_diskstats, DiskMonitor, DiskReading, SmartHealth, SmartInfo,
};
use nova_monitor::gpu::{
    build_amd_gpu, build_intel_gpu, build_nvidia_gpu, merge_gpu_results, GpuMonitor, GpuVendor,
};
use nova_monitor::memory::build_memory_info;
use nova_monitor::network::{InterfaceCounters, NetworkMonitor};
use nova_monitor::sensors::{build_sensors_info, ComponentReading, SensorsMonitor};
use nova_monitor::system::SystemMonitor;

fn iface(name: &str, rx: u64, tx: u64) -> InterfaceCounters {
    InterfaceCounters {
        name: String::from(name),
        mac_address: String::from("00:11:22:33:44:55"),
        received_bytes: rx,
        transmitted_bytes: tx,
        received_packets: 10,
        transmitted_packets: 20,
        errors_in: 0,
        errors_out: 1,
    }
}

#[test]
fn network_refresh_computes_rates_and_totals() {
    let mut monitor = NetworkMonitor::default();
    let first = monitor.refresh(0, vec![iface("eth0", 1000, 500)]);
    assert_eq!(first.interfaces.len(), 1);
    assert_eq!(first.interfaces[0].download_rate_bps, 0);
    assert_eq!(first.interfaces[0].upload_rate_bps, 0);
    assert_eq!(first.total_received, 1000);

    let second = monitor.refresh(2000, vec![iface("eth0", 3000, 1500), iface("lo", 100, 100)]);
    assert_eq!(second.interfaces[0].download_rate_bps, 1000);
    assert_eq!(second.interfaces[0].upload_rate_bps, 500);
    // first sight of "lo" yields zero rates
    assert_eq!(second.interfaces[1].download_rate_bps, 0);
    assert_eq!(second.total_received, 3100);
    assert_eq!(second.total_transmitted, 1600);
    assert_eq!(second.total_download_rate, 1000);
    assert_eq!(second.total_upload_rate, 500);
    assert_eq!(second.interfaces[0].received_bytes, 3000);
    assert_eq!(second.interfaces[0].errors_out, 1);
}

#[test]
fn memory_percentages_guard_division_by_zero() {
    let info = build_memory_info(1000, 250, 750, 0, 0);
    assert_eq!(info.memory_usage_percent, 2500);
    assert_eq!(info.swap_usage_percent, 0);
    assert_eq!(info.total_memory, 1000);
    assert_eq!(info.used_memory, 250);
}

#[test]
fn cpu_global_usage_is_the_core_mean() {
    let cores = vec![
        CpuCore { name: String::from("cpu0"), usage: 1000, frequency: 3600 },
        CpuCore { name: String::from("cpu1"), usage: 3000, frequency: 3600 },
    ];
    let info = build_cpu_info(
        String::from("cpu0"),
        String::from("GenuineIntel"),
        String::from("Some CPU"),
        1,
        cores,
    );
    assert_eq!(info.global_usage, 2000);
    assert_eq!(info.logical_cores, 2);
    assert_eq!(info.physical_cores, 1);
}

#[test]
fn cpu_with_no_cores_reads_zero_usage() {
    let info = build_cpu_info(
        String::new(),
        String::new(),
        String::new(),
        0,
        Vec::new(),
    );
    assert_eq!(info.global_usage, 0);
    assert_eq!(info.logical_cores, 0);
}

#[test]
fn system_refresh_defaults_absent_fields() {
    let monitor = SystemMonitor::new();
    let info = monitor.refresh(
        Some(String::from("host")),
        None,
        Some(String::from("1.2")),
        None,
        None,
        3600,
        1700000000,
    );
    assert_eq!(info.hostname, "host");
    assert_eq!(info.os_name, "Unknown");
    assert_eq!(info.os_version, "1.2");
    assert_eq!(info.kernel_version, "Unknown");
    assert_eq!(info.architecture, "Unknown");
    assert_eq!(info.uptime, 3600);
    assert_eq!(info.boot_time, 1700000000);
}

#[test]
fn sensors_identify_cpu_and_gpu_by_label() {
    let readings = vec![
        ComponentReading {
            label: String::from("acpitz"),
            temperature: 2500,
            max: 9000,
            critical: None,
        },
        ComponentReading {
            label: String::from("Package id 0"),
            temperature: 4200,
            max: 10000,
            critical: Some(10500),
        },
        ComponentReading {
            label: String::from("amdgpu edge"),
            temperature: 5100,
            max: 11000,
            critical: None,
        },
        ComponentReading {
            label: String::from("Core 1"),
            temperature: 4300,
            max: 10000,
            critical: None,
        },
    ];
    let info = build_sensors_info(readings);
    assert_eq!(info.sensors.len(), 4);
    // the first matching label wins
    assert_eq!(info.cpu_temp, Some(4200));
    assert_eq!(info.gpu_temp, Some(5100));
    assert_eq!(info.sensors[0].label, "acpitz");
    assert_eq!(info.sensors[0].value, 2500);
    assert_eq!(info.sensors[0].max_value, Some(9000));
    assert_eq!(info.sensors[0].critical_value, None);
    assert_eq!(info.sensors[0].unit, "C");
}

#[test]
fn sensors_cache_serves_within_two_seconds() {
    let mut monitor = SensorsMonitor::new();
    let calls = Cell::new(0u32);
    let scan = |temp: i64| {
        build_sensors_info(vec![ComponentReading {
            label: String::from("Core 0"),
            temperature: temp,
            max: 0,
            critical: None,
        }])
    };
    assert!(monitor.cached(1000).is_none());
    let first = monitor
        .get_or_rescan(1000, || {
            calls.set(calls.get() + 1);
            scan(4000)
        })
        .clone();
    assert_eq!(first.cpu_temp, Some(4000));
    let second = monitor
        .get_or_rescan(2999, || {
            calls.set(calls.get() + 1);
            scan(5000)
        })
        .clone();
    assert_eq!(second.cpu_temp, Some(4000));
    assert_eq!(calls.get(), 1);
    let third = monitor
        .get_or_rescan(3000, || {
            calls.set(calls.get() + 1);
            scan(5000)
        })
        .clone();
    assert_eq!(third.cpu_temp, Some(5000));
    assert_eq!(calls.get(), 2);
}

#[test]
fn disk_snapshot_rolls_up_usage_and_io() {
    let readings = vec![
        DiskReading {
            name: String::from("sda1"),
            mount_point: String::from("/"),
            file_system: String::from("ext4"),
            total_space: 1000,
            available_space: 250,
            is_removable: false,
        },
        DiskReading {
            name: String::from("sdb1"),
            mount_point: String::from("/data"),
            file_system: String::from("xfs"),
            total_space: 0,
            available_space: 0,
            is_removable: true,
        },
    ];
    let io = parse_diskstats(b"8 0 sda1 0 0 10 0 0 0 20 0 0 0 0 0\n");
    let smart = vec![
        Some(SmartInfo {
            health: SmartHealth::Passed,
            temperature: Some(36),
            power_on_hours: Some(1),
            power_cycle_count: Some(2),
        }),
        None,
    ];
    let info = build_disks_info(readings, &io, smart);
    assert_eq!(info.disks.len(), 2);
    assert_eq!(info.disks[0].used_space, 750);
    assert_eq!(info.disks[0].usage_percent, 7500);
    assert_eq!(info.disks[0].read_bytes, 10 * 512);
    assert_eq!(info.disks[0].written_bytes, 20 * 512);
    assert!(info.disks[0].smart.is_some());
    assert_eq!(info.disks[1].usage_percent, 0);
    assert_eq!(info.disks[1].read_bytes, 0);
    assert_eq!(info.disks[1].smart, None);
    assert_eq!(info.total_space, 1000);
    assert_eq!(info.total_used, 750);
    assert_eq!(info.total_available, 250);
}

#[test]
fn disk_smart_cache_probes_once_per_minute() {
    let mut monitor = DiskMonitor::new();
    let device = String::from("/dev/sda");
    let calls = Cell::new(0u32);
    let outcome = SmartInfo {
        health: SmartHealth::Passed,
        temperature: Some(30),
        power_on_hours: None,
        power_cycle_count: None,
    };
    assert!(monitor.smart_cached(&device, 0).is_none());
    let first = monitor
        .smart_get_or_probe(&device, 0, || {
            calls.set(calls.get() + 1);
            Some(outcome)
        })
        .clone();
    assert_eq!(first, Some(outcome));
    let second = monitor
        .smart_get_or_probe(&device, 59999, || {
            calls.set(calls.get() + 1);
            None
        })
        .clone();
    assert_eq!(second, Some(outcome));
    assert_eq!(calls.get(), 1);
    let third = monitor
        .smart_get_or_probe(&device, 60000, || {
            calls.set(calls.get() + 1);
            None
        })
        .clone();
    assert_eq!(third, None);
    assert_eq!(calls.get(), 2);
}

#[test]
fn nvidia_rows_default_absent_metrics() {
    let gpu = build_nvidia_gpu(
        0,
        None,
        None,
        None,
        Some((8000, 3000, 5000)),
        Some(65),
        None,
        None,
        None,
        Some(1800),
        None,
        Some(10),
        None,
    );
    assert_eq!(gpu.name, "Unknown NVIDIA GPU");
    assert_eq!(gpu.uuid, "nvidia-0");
    assert_eq!(gpu.vendor, GpuVendor::Nvidia);
    assert_eq!(gpu.utilization_gpu, 0);
    assert_eq!(gpu.memory_total, 8000);
    assert_eq!(gpu.memory_free, 5000);
    assert_eq!(gpu.temperature, 65);
    assert_eq!(gpu.power_usage, 0);
    // absent fan stays absent rather than reading zero
    assert_eq!(gpu.fan_speed, None);
    assert_eq!(gpu.clock_graphics, 1800);
    assert_eq!(gpu.encoder_utilization, Some(10));
    assert_eq!(gpu.decoder_utilization, None);
}

#[test]
fn amd_rows_derive_memory_utilization() {
    let gpu = build_amd_gpu(
        1,
        String::from("AMD Radeon Graphics"),
        37,
        4000,
        1000,
        Some(60),
        Some(15000),
        Some(2000),
        Some(1000),
    );
    assert_eq!(gpu.uuid, "amd-1");
    assert_eq!(gpu.vendor, GpuVendor::Amd);
    assert_eq!(gpu.utilization_memory, 25);
    assert_eq!(gpu.memory_free, 3000);
    assert_eq!(gpu.temperature, 60);
    assert_eq!(gpu.power_limit, 0);
    assert_eq!(gpu.fan_speed, None);
}

#[test]
fn intel_rows_expose_only_clock_and_utilization() {
    let gpu = build_intel_gpu(0, 40, Some(950));
    assert_eq!(gpu.name, "Intel Integrated GPU");
    assert_eq!(gpu.uuid, "intel-0");
    assert_eq!(gpu.vendor, GpuVendor::Intel);
    assert_eq!(gpu.utilization_gpu, 40);
    assert_eq!(gpu.clock_graphics, 950);
    assert_eq!(gpu.memory_total, 0);
    assert_eq!(gpu.fan_speed, None);
}

#[test]
fn intel_utilization_follows_residency_deltas() {
    let mut monitor = GpuMonitor::new();
    // first observation for a device always reads zero
    assert_eq!(monitor.intel_utilization(0, 1000, 500), 0);
    // 500 ms idle over a 1000 ms interval: half busy
    assert_eq!(monitor.intel_utilization(0, 2000, 1000), 50);
    // fully idle interval reads zero
    assert_eq!(monitor.intel_utilization(0, 3000, 2000), 0);
    // residency reset clamps to fully busy rather than going negative
    assert_eq!(monitor.intel_utilization(0, 4000, 100), 100);
}

#[test]
fn gpu_merge_keeps_vendor_flags() {
    let amd = vec![build_amd_gpu(
        0,
        String::from("AMD Radeon Graphics"),
        0,
        0,
        0,
        None,
        None,
        None,
        None,
    )];
    let merged = merge_gpu_results(Vec::new(), amd, Vec::new(), None, vec![
        String::from("NVIDIA: NVML not initialized"),
    ]);
    assert_eq!(merged.gpus.len(), 1);
    // "nvidia available" means "any identified device at all"
    assert!(merged.nvidia_available);
    assert!(merged.amd_available);
    assert!(!merged.intel_available);
    assert_eq!(merged.errors.len(), 1);

    let empty = merge_gpu_results(Vec::new(), Vec::new(), Vec::new(), None, Vec::new());
    assert!(!empty.nvidia_available);
    assert!(!empty.amd_available);
    assert!(!empty.intel_available);
}
