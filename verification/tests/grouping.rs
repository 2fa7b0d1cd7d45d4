use nova_monitor::error::MonitorError;
use nova_monitor::process::{
    build_process_list, classify_kill_outcome, classify_set_priority_result, group_processes,
    set_priority_precheck, ProcStatus, ProcessInfo, EPERM_ERRNO, ESRCH_ERRNO,
};

fn record(pid: u32, name: &str, cpu_hundredths: u64, memory_bytes: u64) -> ProcessInfo {
    ProcessInfo {
        pid,
        parent_pid: Some(1),
        name: String::from(name),
        exe_path: format!("/usr/bin/{}", name),
        command: vec![String::from(name)],
        status: ProcStatus::Running,
        cpu_usage: cpu_hundredths,
        memory_bytes,
        memory_percent: (memory_bytes % 10000) as u32,
        start_time: 1000 + pid as u64,
        run_time: 50,
        user_id: Some(format!("u{}", pid)),
        nice: 0,
        instance_count: None,
    }
}

#[test]
fn grouping_scenario_min_pid_sum_cpu() {
    let records = vec![
        record(100, "x", 500, 200),
        record(50, "x", 300, 100),
        record(200, "x", 100, 50),
    ];
    let grouped = group_processes(records);
    assert_eq!(grouped.len(), 1);
    let g = &grouped[0];
    assert_eq!(g.pid, 50);
    assert_eq!(g.cpu_usage, 900);
    assert_eq!(g.memory_bytes, 100);
    assert_eq!(g.instance_count, Some(3));
    // the other representative-derived fields follow the min-pid record
    assert_eq!(g.start_time, 1050);
    assert_eq!(g.user_id, Some(String::from("u50")));
}

#[test]
fn grouping_is_order_independent() {
    let a = vec![
        record(100, "x", 500, 200),
        record(50, "x", 300, 100),
        record(200, "x", 100, 50),
        record(7, "y", 900, 40),
    ];
    let b = vec![
        record(7, "y", 900, 40),
        record(200, "x", 100, 50),
        record(100, "x", 500, 200),
        record(50, "x", 300, 100),
    ];
    let mut ga = group_processes(a);
    let mut gb = group_processes(b);
    ga.sort_by(|x, y| x.name.cmp(&y.name));
    gb.sort_by(|x, y| x.name.cmp(&y.name));
    assert_eq!(ga.len(), gb.len());
    for (x, y) in ga.iter().zip(gb.iter()) {
        assert_eq!(x.name, y.name);
        assert_eq!(x.pid, y.pid);
        assert_eq!(x.cpu_usage, y.cpu_usage);
        assert_eq!(x.instance_count, y.instance_count);
        assert_eq!(x.memory_bytes, y.memory_bytes);
        assert_eq!(x.memory_percent, y.memory_percent);
        assert_eq!(x.start_time, y.start_time);
        assert_eq!(x.user_id, y.user_id);
    }
}

#[test]
fn grouping_sorts_by_cpu_descending() {
    let records = vec![
        record(1, "low", 100, 10),
        record(2, "high", 900, 10),
        record(3, "mid", 500, 10),
    ];
    let grouped = group_processes(records);
    assert_eq!(grouped.len(), 3);
    assert_eq!(grouped[0].name, "high");
    assert_eq!(grouped[1].name, "mid");
    assert_eq!(grouped[2].name, "low");
}

#[test]
fn grouping_distinct_names_stay_separate() {
    let records = vec![record(10, "a", 100, 5), record(11, "b", 100, 6)];
    let grouped = group_processes(records);
    assert_eq!(grouped.len(), 2);
    for g in &grouped {
        assert_eq!(g.instance_count, Some(1));
    }
}

#[test]
fn grouping_empty_input_gives_empty_output() {
    let grouped = group_processes(Vec::new());
    assert!(grouped.is_empty());
}

#[test]
fn process_list_counts_grouped_rows() {
    let records = vec![
        record(10, "a", 100, 5),
        record(11, "a", 100, 6),
        record(12, "b", 100, 7),
    ];
    let list = build_process_list(records);
    assert_eq!(list.total_count, 2);
    assert_eq!(list.processes.len(), 2);
}

#[test]
fn terminate_missing_pid_is_process_not_found() {
    let r = classify_kill_outcome(true, false, None, 999999);
    assert!(matches!(r, Err(MonitorError::ProcessNotFound(999999))));
}

#[test]
fn terminate_undelivered_signal_is_permission_denied() {
    let r = classify_kill_outcome(true, true, None, 42);
    assert!(matches!(r, Err(MonitorError::PermissionDenied(_))));
}

#[test]
fn terminate_delivered_signal_reports_outcome() {
    assert_eq!(classify_kill_outcome(true, true, Some(true), 42).unwrap(), true);
    assert_eq!(classify_kill_outcome(true, true, Some(false), 42).unwrap(), false);
}

#[test]
fn terminate_before_initialization_is_system_access() {
    let r = classify_kill_outcome(false, true, Some(true), 42);
    assert!(matches!(r, Err(MonitorError::SystemAccess(_))));
}

#[test]
fn set_priority_rejects_out_of_range_nice_before_os_call() {
    let r = set_priority_precheck(-25);
    assert!(matches!(r, Err(MonitorError::PermissionDenied(_))));
    let r = set_priority_precheck(20);
    assert!(matches!(r, Err(MonitorError::PermissionDenied(_))));
    assert!(set_priority_precheck(-20).is_ok());
    assert!(set_priority_precheck(19).is_ok());
    assert!(set_priority_precheck(0).is_ok());
}

#[test]
fn set_priority_maps_os_errors_to_taxonomy() {
    assert!(classify_set_priority_result(true, 0, 1).is_ok());
    let r = classify_set_priority_result(false, EPERM_ERRNO, 1);
    assert!(matches!(r, Err(MonitorError::PermissionDenied(_))));
    let r = classify_set_priority_result(false, ESRCH_ERRNO, 77);
    assert!(matches!(r, Err(MonitorError::ProcessNotFound(77))));
    let r = classify_set_priority_result(false, 22, 1);
    match r {
        Err(MonitorError::SystemAccess(detail)) => {
            assert_eq!(detail, "Failed to set priority: errno 22");
        }
        other => panic!("unexpected outcome: {:?}", other),
    }
}

#[test]
fn error_messages_name_the_failure() {
    assert_eq!(
        MonitorError::ProcessNotFound(31).message(),
        "Process not found: 31"
    );
    assert_eq!(
        MonitorError::PermissionDenied(String::from("no")).message(),
        "Permission denied: no"
    );
    assert_eq!(
        MonitorError::SystemAccess(String::from("boom")).message(),
        "Failed to access system information: boom"
    );
    assert_eq!(
        MonitorError::GpuNotAvailable(String::from("none")).message(),
        "GPU not available: none"
    );
}
