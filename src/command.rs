//! The request protocol of the store: one command in, one reply out, handled
//! strictly one at a time by the store's owner.
use vstd::prelude::*;

use crate::store::{
    DbManager, UsageRow, cpu_history, cpu_interval, inserted, last_cpu, last_memory,
    memory_history, memory_interval, row_of, usage_row,
};
use crate::types::{
    CpuUsage, CpuUsageDataPoint, Interval, MemoryUsage, MemoryUsageDataPoint, Timestamp,
};

verus! {

/// A request to the store.
#[derive(Debug)]
pub enum DbCommand {
    InsertResourceUsage {
        timestamp: Timestamp,
        cpu_usage: CpuUsage,
        memory_usage: MemoryUsage,
        container: Option<String>,
    },
    GetLastCpuUsage { container: Option<String> },
    GetLastMemoryUsage { container: Option<String> },
    GetIntervalCpuUsage { interval: Interval, container: Option<String> },
    GetIntervalMemoryUsage { interval: Interval, container: Option<String> },
    GetCpuUsageHistory {
        from: Option<Timestamp>,
        to: Option<Timestamp>,
        container: Option<String>,
    },
    GetMemoryUsageHistory {
        from: Option<Timestamp>,
        to: Option<Timestamp>,
        container: Option<String>,
    },
}

/// The store's answer to one command.
#[derive(Debug)]
pub enum DbReply {
    /// The row that an insert stored.
    Stored(UsageRow),
    LastCpu(Option<CpuUsageDataPoint>),
    LastMemory(Option<MemoryUsageDataPoint>),
    CpuSeries(Vec<CpuUsageDataPoint>),
    MemorySeries(Vec<MemoryUsageDataPoint>),
}

impl DbCommand {
    /// An insert must carry a well-formed CPU percentage.
    pub open spec fn wf(&self) -> bool {
        match self {
            DbCommand::InsertResourceUsage { cpu_usage, .. } => cpu_usage.percentage.wf(),
            _ => true,
        }
    }
}

impl DbManager {
    /// Carries out one command at time `now` and gives its reply. Queries
    /// leave the store as it was.
    pub fn handle(&mut self, command: DbCommand, now: Timestamp) -> (r: DbReply)
        requires
            command.wf(),
        ensures
            match command {
                DbCommand::InsertResourceUsage { timestamp, cpu_usage, memory_usage, container } => {
                    let row = row_of(timestamp, cpu_usage, memory_usage, container);
                    &&& final(self)@ == inserted(old(self)@, row)
                    &&& r == DbReply::Stored(row)
                },
                DbCommand::GetLastCpuUsage { container } => {
                    &&& final(self)@ == old(self)@
                    &&& r == DbReply::LastCpu(last_cpu(old(self)@, container))
                },
                DbCommand::GetLastMemoryUsage { container } => {
                    &&& final(self)@ == old(self)@
                    &&& r == DbReply::LastMemory(last_memory(old(self)@, container))
                },
                DbCommand::GetIntervalCpuUsage { interval, container } => {
                    &&& final(self)@ == old(self)@
                    &&& r matches DbReply::CpuSeries(v)
                    &&& v@ == cpu_interval(old(self)@, container, interval, now)
                },
                DbCommand::GetIntervalMemoryUsage { interval, container } => {
                    &&& final(self)@ == old(self)@
                    &&& r matches DbReply::MemorySeries(v)
                    &&& v@ == memory_interval(old(self)@, container, interval, now)
                },
                DbCommand::GetCpuUsageHistory { from, to, container } => {
                    &&& final(self)@ == old(self)@
                    &&& r matches DbReply::CpuSeries(v)
                    &&& v@ == cpu_history(old(self)@, container, from, to, now)
                },
                DbCommand::GetMemoryUsageHistory { from, to, container } => {
                    &&& final(self)@ == old(self)@
                    &&& r matches DbReply::MemorySeries(v)
                    &&& v@ == memory_history(old(self)@, container, from, to, now)
                },
            },
    {
        match command {
            DbCommand::InsertResourceUsage { timestamp, cpu_usage, memory_usage, container } => {
                let row = usage_row(timestamp, memory_usage, cpu_usage, container);
                let stored = row.duplicate();
                self.insert_row(row);
                DbReply::Stored(stored)
            },
            DbCommand::GetLastCpuUsage { container } => DbReply::LastCpu(
                self.get_last_cpu_usage(container),
            ),
            DbCommand::GetLastMemoryUsage { container } => DbReply::LastMemory(
                self.get_last_memory_usage(container),
            ),
            DbCommand::GetIntervalCpuUsage { interval, container } => DbReply::CpuSeries(
                self.get_interval_cpu_usage(interval, container, now),
            ),
            DbCommand::GetIntervalMemoryUsage { interval, container } => DbReply::MemorySeries(
                self.get_interval_memory_usage(interval, container, now),
            ),
            DbCommand::GetCpuUsageHistory { from, to, container } => DbReply::CpuSeries(
                self.get_cpu_usage_history(from, to, container, now),
            ),
            DbCommand::GetMemoryUsageHistory { from, to, container } => DbReply::MemorySeries(
                self.get_memory_usage_history(from, to, container, now),
            ),
        }
    }
}

} // verus!
