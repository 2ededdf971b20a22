use usage_monitor::command::{DbCommand, DbReply};
use usage_monitor::store::DbManager;
use usage_monitor::types::{CpuUsage, Interval, MemoryUsage, Percentage};

fn insert(db: &mut DbManager, ts: u64, p: u64, container: Option<String>) -> DbReply {
    db.handle(
        DbCommand::InsertResourceUsage {
            timestamp: ts,
            cpu_usage: CpuUsage { percentage: Percentage::whole(p) },
            memory_usage: MemoryUsage { total: 100, used: p },
            container,
        },
        ts,
    )
}

#[test]
fn handle_insert_replies_with_stored_row() {
    let mut db = DbManager::new();
    let reply = db.handle(
        DbCommand::InsertResourceUsage {
            timestamp: 7,
            cpu_usage: CpuUsage { percentage: Percentage { numerator: 2, denominator: 3 } },
            memory_usage: MemoryUsage { total: 3, used: 1 },
            container: Some("box".to_string()),
        },
        7,
    );
    match reply {
        DbReply::Stored(row) => {
            assert_eq!(row.timestamp, 7);
            assert_eq!(row.container.as_deref(), Some("box"));
            assert_eq!(row.cpu_percentage, 1);
            assert_eq!(row.memory_total, 3);
            assert_eq!(row.memory_used, 1);
            assert_eq!(row.memory_percentage, 33);
        }
        other => panic!("unexpected reply {:?}", other),
    }
}

#[test]
fn handle_queries() {
    let mut db = DbManager::new();
    insert(&mut db, 1_000, 10, None);
    insert(&mut db, 2_000, 20, None);
    insert(&mut db, 2_000, 70, Some("c".to_string()));
    match db.handle(DbCommand::GetLastCpuUsage { container: None }, 3_000) {
        DbReply::LastCpu(Some(p)) => assert_eq!(p.percentage, Percentage::whole(20)),
        other => panic!("unexpected reply {:?}", other),
    }
    match db.handle(DbCommand::GetLastMemoryUsage { container: Some("c".to_string()) }, 3_000) {
        DbReply::LastMemory(Some(p)) => assert_eq!(p.used, 70),
        other => panic!("unexpected reply {:?}", other),
    }
    match db.handle(DbCommand::GetCpuUsageHistory { from: None, to: None, container: None }, 3_000) {
        DbReply::CpuSeries(v) => assert_eq!(v.len(), 2),
        other => panic!("unexpected reply {:?}", other),
    }
    match db.handle(
        DbCommand::GetMemoryUsageHistory { from: Some(1_500), to: None, container: None },
        3_000,
    ) {
        DbReply::MemorySeries(v) => {
            assert_eq!(v.len(), 1);
            assert_eq!(v[0].used, 20);
        }
        other => panic!("unexpected reply {:?}", other),
    }
    match db.handle(DbCommand::GetIntervalCpuUsage { interval: Interval::Hour, container: None }, 3_000) {
        DbReply::CpuSeries(v) => {
            assert_eq!(v.len(), 1);
            assert_eq!(v[0].percentage, Percentage { numerator: 30, denominator: 2 });
        }
        other => panic!("unexpected reply {:?}", other),
    }
    match db.handle(
        DbCommand::GetIntervalMemoryUsage { interval: Interval::Hour, container: Some("c".to_string()) },
        3_000,
    ) {
        DbReply::MemorySeries(v) => {
            assert_eq!(v.len(), 1);
            assert_eq!(v[0].used, 70);
        }
        other => panic!("unexpected reply {:?}", other),
    }
}
