use usage_monitor::container::{
    calculate_container_cpu_usage, get_resource_usage, ContainerStats, CpuCounters,
};

fn counters(total: u64, system: u64, cores: u32) -> CpuCounters {
    CpuCounters {
        total_usage: Some(total),
        system_cpu_usage: Some(system),
        online_cpus: Some(cores),
    }
}

fn snapshot(limit: Option<u64>, usage: Option<u64>) -> ContainerStats {
    ContainerStats {
        cpu_stats: Some(counters(150, 1500, 2)),
        precpu_stats: Some(counters(100, 1000, 2)),
        memory_usage: usage,
        memory_limit: limit,
    }
}

#[test]
fn cpu_delta_formula() {
    let p = calculate_container_cpu_usage(&counters(100, 1000, 2), &counters(150, 1500, 2))
        .expect("complete counters");
    // (150 - 100) / (1500 - 1000) * 2 * 100 = 20
    assert_eq!(p.numerator, 10_000);
    assert_eq!(p.denominator, 500);
    assert_eq!(p.numerator, 20 * p.denominator);
    assert_eq!(p.rounded(), 20);
}

#[test]
fn cpu_delta_uses_current_core_count() {
    let p = calculate_container_cpu_usage(&counters(0, 0, 1), &counters(30, 100, 4)).unwrap();
    assert_eq!(p.numerator, 30 * 4 * 100);
    assert_eq!(p.denominator, 100);
    assert_eq!(p.rounded(), 120);
}

#[test]
fn cpu_zero_system_delta_is_absent() {
    assert!(calculate_container_cpu_usage(&counters(100, 1000, 2), &counters(150, 1000, 2)).is_none());
}

#[test]
fn cpu_counter_going_backwards_is_absent() {
    assert!(calculate_container_cpu_usage(&counters(150, 1000, 2), &counters(100, 1500, 2)).is_none());
    assert!(calculate_container_cpu_usage(&counters(100, 1500, 2), &counters(150, 1000, 2)).is_none());
}

#[test]
fn cpu_missing_field_is_absent() {
    let mut cur = counters(150, 1500, 2);
    cur.online_cpus = None;
    assert!(calculate_container_cpu_usage(&counters(100, 1000, 2), &cur).is_none());
    let mut prev = counters(100, 1000, 2);
    prev.total_usage = None;
    assert!(calculate_container_cpu_usage(&prev, &counters(150, 1500, 2)).is_none());
    let mut prev = counters(100, 1000, 2);
    prev.system_cpu_usage = None;
    assert!(calculate_container_cpu_usage(&prev, &counters(150, 1500, 2)).is_none());
}

#[test]
fn resource_usage_with_memory_limit() {
    let (cpu, mem) = get_resource_usage(&snapshot(Some(1000), Some(250)), 8000).unwrap();
    assert_eq!(cpu.percentage.rounded(), 20);
    assert_eq!(mem.total, 1000);
    assert_eq!(mem.used, 250);
    assert_eq!(mem.percentage().rounded(), 25);
}

#[test]
fn resource_usage_falls_back_to_host_total() {
    let (_, mem) = get_resource_usage(&snapshot(None, Some(250)), 8000).unwrap();
    assert_eq!(mem.total, 8000);
    assert_eq!(mem.used, 250);
}

#[test]
fn resource_usage_needs_memory_usage() {
    assert!(get_resource_usage(&snapshot(Some(1000), None), 8000).is_none());
}

#[test]
fn resource_usage_needs_both_cpu_readings() {
    let mut s = snapshot(Some(1000), Some(250));
    s.precpu_stats = None;
    assert!(get_resource_usage(&s, 8000).is_none());
    let mut s = snapshot(Some(1000), Some(250));
    s.cpu_stats = None;
    assert!(get_resource_usage(&s, 8000).is_none());
}
