//! The decisions of one sampling tick: which samples go to the store.
use vstd::prelude::*;

use crate::command::DbCommand;
use crate::container::{ContainerStats, get_resource_usage, resource_usage};
use crate::types::{CpuUsage, MemoryUsage, Timestamp};

verus! {

/// The insert of one sample.
pub open spec fn insert_command(
    timestamp: Timestamp,
    cpu_usage: CpuUsage,
    memory_usage: MemoryUsage,
    container: Option<String>,
) -> DbCommand {
    DbCommand::InsertResourceUsage { timestamp, cpu_usage, memory_usage, container }
}

/// The inserts for the listed containers, in order: one for each container
/// whose snapshot was read and is complete, none for the others.
pub open spec fn container_commands(
    timestamp: Timestamp,
    host_total_memory: u64,
    containers: Seq<(String, Option<ContainerStats>)>,
) -> Seq<DbCommand>
    decreases containers.len(),
{
    if containers.len() == 0 {
        Seq::empty()
    } else {
        let rest = container_commands(timestamp, host_total_memory, containers.drop_last());
        let (id, stats) = containers.last();
        match stats {
            Some(s) => match resource_usage(s, host_total_memory) {
                Some((cpu, memory)) => rest.push(insert_command(timestamp, cpu, memory, Some(id))),
                None => rest,
            },
            None => rest,
        }
    }
}

/// Everything one tick inserts: the host's sample, always and first, then the
/// containers' samples.
pub open spec fn tick_commands(
    timestamp: Timestamp,
    host_cpu: CpuUsage,
    host_memory: MemoryUsage,
    containers: Seq<(String, Option<ContainerStats>)>,
) -> Seq<DbCommand> {
    seq![insert_command(timestamp, host_cpu, host_memory, None)] + container_commands(
        timestamp,
        host_memory.total,
        containers,
    )
}

/// Decides what one tick stores, given the host's readings and, for each
/// listed container, its stats snapshot, or `None` where reading it failed.
pub fn collect_information(
    timestamp: Timestamp,
    host_cpu: CpuUsage,
    host_memory: MemoryUsage,
    containers: &Vec<(String, Option<ContainerStats>)>,
) -> (r: Vec<DbCommand>)
    requires
        host_cpu.percentage.wf(),
    ensures
        r@ == tick_commands(timestamp, host_cpu, host_memory, containers@),
        forall|j: int| 0 <= j < r@.len() ==> (#[trigger] r@[j]).wf(),
{
    let mut out: Vec<DbCommand> = Vec::new();
    out.push(DbCommand::InsertResourceUsage {
        timestamp,
        cpu_usage: host_cpu,
        memory_usage: host_memory,
        container: None,
    });
    let mut i: usize = 0;
    while i < containers.len()
        invariant
            i <= containers@.len(),
            out@ =~= seq![insert_command(timestamp, host_cpu, host_memory, None)]
                + container_commands(timestamp, host_memory.total, containers@.take(i as int)),
            forall|j: int| 0 <= j < out@.len() ==> (#[trigger] out@[j]).wf(),
        decreases containers@.len() - i,
    {
        let ghost prefix = containers@.take(i as int);
        assert(containers@.take(i + 1).drop_last() =~= prefix);
        assert(containers@.take(i + 1).last() == containers@[i as int]);
        let entry = &containers[i];
        match &entry.1 {
            Some(stats) => match get_resource_usage(stats, host_memory.total) {
                Some((cpu_usage, memory_usage)) => {
                    out.push(DbCommand::InsertResourceUsage {
                        timestamp,
                        cpu_usage,
                        memory_usage,
                        container: Some(entry.0.clone()),
                    });
                },
                None => {},
            },
            None => {},
        }
        i += 1;
    }
    assert(containers@.take(i as int) =~= containers@);
    out
}

/// One container's failure takes nothing from the others: the host's sample
/// comes first whatever happens, and every container whose snapshot is
/// complete gets its insert, however many of the others failed.
pub proof fn lemma_failure_isolation(
    timestamp: Timestamp,
    host_cpu: CpuUsage,
    host_memory: MemoryUsage,
    containers: Seq<(String, Option<ContainerStats>)>,
    i: int,
    cpu_usage: CpuUsage,
    memory_usage: MemoryUsage,
)
    requires
        0 <= i < containers.len(),
        containers[i].1 matches Some(s) && resource_usage(s, host_memory.total) == Some(
            (cpu_usage, memory_usage),
        ),
    ensures
        tick_commands(timestamp, host_cpu, host_memory, containers)[0] == insert_command(
            timestamp,
            host_cpu,
            host_memory,
            None,
        ),
        tick_commands(timestamp, host_cpu, host_memory, containers).contains(
            insert_command(timestamp, cpu_usage, memory_usage, Some(containers[i].0)),
        ),
    decreases containers.len(),
{
    let cmd = insert_command(timestamp, cpu_usage, memory_usage, Some(containers[i].0));
    let head = seq![insert_command(timestamp, host_cpu, host_memory, None)];
    let rest = containers.drop_last();
    let t = tick_commands(timestamp, host_cpu, host_memory, containers);
    let tr = tick_commands(timestamp, host_cpu, host_memory, rest);
    let cc = container_commands(timestamp, host_memory.total, containers);
    let cr = container_commands(timestamp, host_memory.total, rest);
    if i == containers.len() - 1 {
        assert(cc == cr.push(cmd));
        assert(t[t.len() - 1] == cmd);
    } else {
        assert(rest[i] == containers[i]);
        lemma_failure_isolation(timestamp, host_cpu, host_memory, rest, i, cpu_usage, memory_usage);
        let j = choose|j: int| 0 <= j < tr.len() && tr[j] == cmd;
        assert(cr.is_prefix_of(cc));
        assert(t[j] == tr[j]);
    }
}

} // verus!
