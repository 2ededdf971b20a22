use vstd::prelude::*;

use crate::types::{CpuUsage, MemoryUsage, Percentage};

verus! {

/// Cumulative CPU counters from one reading of a container's runtime stats.
#[derive(Clone, Copy, Debug, PartialEq, Eq, Structural)]
pub struct CpuCounters {
    /// CPU time consumed by the container so far.
    pub total_usage: Option<u64>,
    /// CPU time consumed by the whole system so far.
    pub system_cpu_usage: Option<u64>,
    /// Number of CPU cores online.
    pub online_cpus: Option<u32>,
}

/// One stats snapshot of a container as the runtime reports it: the current
/// and the previous CPU counters, and the memory usage and limit. Any field
/// may be missing.
#[derive(Clone, Copy, Debug, PartialEq, Eq, Structural)]
pub struct ContainerStats {
    pub cpu_stats: Option<CpuCounters>,
    pub precpu_stats: Option<CpuCounters>,
    pub memory_usage: Option<u64>,
    pub memory_limit: Option<u64>,
}

/// The CPU percentage between two counter readings:
/// `(container delta / system delta) * online cores * 100`.
/// Absent when a field is missing, when the system counter did not advance
/// (no division by zero) or when the container counter went backwards.
pub open spec fn cpu_delta_percentage(prev: CpuCounters, cur: CpuCounters) -> Option<Percentage> {
    match (prev.total_usage, cur.total_usage, prev.system_cpu_usage, cur.system_cpu_usage, cur.online_cpus) {
        (Some(p), Some(c), Some(ps), Some(cs), Some(cores)) => {
            if p <= c && ps < cs {
                Some(
                    Percentage {
                        numerator: ((c - p) * cores * 100) as u128,
                        denominator: (cs - ps) as u128,
                    },
                )
            } else {
                None
            }
        },
        _ => None,
    }
}

/// What one snapshot yields: the CPU delta percentage and the memory reading,
/// whose total is the container's limit, or the host's total memory where the
/// container has no limit.
pub open spec fn resource_usage(stats: ContainerStats, host_total_memory: u64) -> Option<
    (CpuUsage, MemoryUsage),
> {
    match (stats.precpu_stats, stats.cpu_stats, stats.memory_usage) {
        (Some(prev), Some(cur), Some(used)) => match cpu_delta_percentage(prev, cur) {
            Some(p) => Some(
                (
                    CpuUsage { percentage: p },
                    MemoryUsage {
                        total: match stats.memory_limit {
                            Some(limit) => limit,
                            None => host_total_memory,
                        },
                        used,
                    },
                ),
            ),
            None => None,
        },
        _ => None,
    }
}

/// Computes the CPU percentage from a previous and a current counter reading.
pub fn calculate_container_cpu_usage(prev_cpu_stat: &CpuCounters, cpu_stat: &CpuCounters) -> (r:
    Option<Percentage>)
    ensures
        r == cpu_delta_percentage(*prev_cpu_stat, *cpu_stat),
        r matches Some(p) ==> p.wf(),
{
    let p = match prev_cpu_stat.total_usage {
        Some(v) => v,
        None => return None,
    };
    let c = match cpu_stat.total_usage {
        Some(v) => v,
        None => return None,
    };
    let ps = match prev_cpu_stat.system_cpu_usage {
        Some(v) => v,
        None => return None,
    };
    let cs = match cpu_stat.system_cpu_usage {
        Some(v) => v,
        None => return None,
    };
    let cores = match cpu_stat.online_cpus {
        Some(v) => v,
        None => return None,
    };
    if p > c || ps >= cs {
        return None;
    }
    let delta = (c - p) as u128;
    let cores = cores as u128;
    assert(delta * cores <= 0xffff_ffff_ffff_ffffu128 * 0xffff_ffffu128) by (nonlinear_arith)
        requires
            delta <= 0xffff_ffff_ffff_ffffu128,
            cores <= 0xffff_ffffu128,
    ;
    let numerator = delta * cores * 100;
    Some(Percentage { numerator, denominator: (cs - ps) as u128 })
}

/// Converts one container's stats snapshot into a CPU and a memory reading,
/// or nothing when the snapshot is incomplete.
pub fn get_resource_usage(stats: &ContainerStats, host_total_memory: u64) -> (r: Option<
    (CpuUsage, MemoryUsage),
>)
    ensures
        r == resource_usage(*stats, host_total_memory),
        r matches Some(u) ==> u.0.percentage.wf(),
{
    let prev = match &stats.precpu_stats {
        Some(v) => v,
        None => return None,
    };
    let cur = match &stats.cpu_stats {
        Some(v) => v,
        None => return None,
    };
    let used = match stats.memory_usage {
        Some(v) => v,
        None => return None,
    };
    let percentage = match calculate_container_cpu_usage(prev, cur) {
        Some(p) => p,
        None => return None,
    };
    let total = match stats.memory_limit {
        Some(limit) => limit,
        None => host_total_memory,
    };
    Some((CpuUsage { percentage }, MemoryUsage { total, used }))
}

} // verus!
