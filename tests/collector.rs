use usage_monitor::collector::collect_information;
use usage_monitor::command::DbCommand;
use usage_monitor::container::{ContainerStats, CpuCounters};
use usage_monitor::store::DbManager;
use usage_monitor::types::{CpuUsage, MemoryUsage, Percentage};

fn good_stats(used: u64) -> ContainerStats {
    ContainerStats {
        cpu_stats: Some(CpuCounters {
            total_usage: Some(150),
            system_cpu_usage: Some(1500),
            online_cpus: Some(2),
        }),
        precpu_stats: Some(CpuCounters {
            total_usage: Some(100),
            system_cpu_usage: Some(1000),
            online_cpus: Some(2),
        }),
        memory_usage: Some(used),
        memory_limit: None,
    }
}

fn container_of(cmd: &DbCommand) -> Option<String> {
    match cmd {
        DbCommand::InsertResourceUsage { container, .. } => container.clone(),
        other => panic!("not an insert: {:?}", other),
    }
}

#[test]
fn one_failing_container_does_not_stop_the_others() {
    let host_cpu = CpuUsage { percentage: Percentage::whole(5) };
    let host_mem = MemoryUsage { total: 1_000, used: 100 };
    let containers = vec![
        ("a".to_string(), Some(good_stats(10))),
        ("b".to_string(), None),
        ("c".to_string(), Some(good_stats(30))),
    ];
    let cmds = collect_information(42, host_cpu, host_mem, &containers);
    assert_eq!(cmds.len(), 3);
    assert_eq!(container_of(&cmds[0]), None);
    assert_eq!(container_of(&cmds[1]), Some("a".to_string()));
    assert_eq!(container_of(&cmds[2]), Some("c".to_string()));
    match &cmds[2] {
        DbCommand::InsertResourceUsage { timestamp, cpu_usage, memory_usage, .. } => {
            assert_eq!(*timestamp, 42);
            assert_eq!(cpu_usage.percentage.rounded(), 20);
            assert_eq!(memory_usage.total, 1_000);
            assert_eq!(memory_usage.used, 30);
        }
        other => panic!("not an insert: {:?}", other),
    }

    let mut db = DbManager::new();
    for cmd in cmds {
        db.handle(cmd, 42);
    }
    assert!(db.get_last_cpu_usage(None).is_some());
    assert!(db.get_last_cpu_usage(Some("a".to_string())).is_some());
    assert!(db.get_last_cpu_usage(Some("b".to_string())).is_none());
    assert!(db.get_last_cpu_usage(Some("c".to_string())).is_some());
}

#[test]
fn incomplete_snapshot_is_skipped() {
    let mut broken = good_stats(10);
    broken.memory_usage = None;
    let containers = vec![("a".to_string(), Some(broken))];
    let cmds = collect_information(
        1,
        CpuUsage { percentage: Percentage::whole(0) },
        MemoryUsage { total: 1, used: 0 },
        &containers,
    );
    assert_eq!(cmds.len(), 1);
    assert_eq!(container_of(&cmds[0]), None);
}

#[test]
fn host_sample_inserted_without_containers() {
    let cmds = collect_information(
        9,
        CpuUsage { percentage: Percentage::whole(3) },
        MemoryUsage { total: 10, used: 4 },
        &Vec::new(),
    );
    assert_eq!(cmds.len(), 1);
    match &cmds[0] {
        DbCommand::InsertResourceUsage { timestamp, cpu_usage, memory_usage, container } => {
            assert_eq!(*timestamp, 9);
            assert_eq!(cpu_usage.percentage, Percentage::whole(3));
            assert_eq!(memory_usage.used, 4);
            assert!(container.is_none());
        }
        other => panic!("not an insert: {:?}", other),
    }
}
