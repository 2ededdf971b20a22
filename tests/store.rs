use usage_monitor::store::DbManager;
use usage_monitor::types::{CpuUsage, Interval, MemoryUsage, Percentage};

const MIN: u64 = 60_000;

fn cpu(p: u64) -> CpuUsage {
    CpuUsage { percentage: Percentage::whole(p) }
}

fn mem(total: u64, used: u64) -> MemoryUsage {
    MemoryUsage { total, used }
}

fn key(s: &str) -> Option<String> {
    Some(s.to_string())
}

#[test]
fn insert_then_get_last_round_trip() {
    let mut db = DbManager::new();
    db.insert_resource_usage(1_000, mem(400, 100), CpuUsage { percentage: Percentage { numerator: 125, denominator: 10 } }, None);
    let c = db.get_last_cpu_usage(None).unwrap();
    assert_eq!(c.timestamp, 1_000);
    assert_eq!(c.percentage, Percentage::whole(13));
    let m = db.get_last_memory_usage(None).unwrap();
    assert_eq!(m.timestamp, 1_000);
    assert_eq!(m.total, 400);
    assert_eq!(m.used, 100);
    assert_eq!(m.percentage, Percentage::whole(25));
}

#[test]
fn get_last_on_empty_store_is_absent() {
    let db = DbManager::new();
    assert!(db.get_last_cpu_usage(None).is_none());
    assert!(db.get_last_memory_usage(key("abc")).is_none());
}

#[test]
fn get_last_is_most_recent_not_last_inserted() {
    let mut db = DbManager::new();
    db.insert_resource_usage(3_000, mem(10, 1), cpu(30), key("c1"));
    db.insert_resource_usage(1_000, mem(10, 1), cpu(10), key("c1"));
    db.insert_resource_usage(2_000, mem(10, 1), cpu(20), key("c1"));
    let c = db.get_last_cpu_usage(key("c1")).unwrap();
    assert_eq!(c.timestamp, 3_000);
    assert_eq!(c.percentage, Percentage::whole(30));
}

#[test]
fn host_and_container_are_disjoint() {
    let mut db = DbManager::new();
    db.insert_resource_usage(5_000, mem(100, 10), cpu(11), None);
    db.insert_resource_usage(5_000, mem(100, 90), cpu(99), key("abc"));
    assert_eq!(db.get_last_cpu_usage(None).unwrap().percentage, Percentage::whole(11));
    assert_eq!(db.get_last_cpu_usage(key("abc")).unwrap().percentage, Percentage::whole(99));
    let host = db.get_cpu_usage_history(None, None, None, 10_000);
    assert_eq!(host.len(), 1);
    assert_eq!(host[0].percentage, Percentage::whole(11));
    let other = db.get_memory_usage_history(None, None, key("abc"), 10_000);
    assert_eq!(other.len(), 1);
    assert_eq!(other[0].used, 90);
}

#[test]
fn container_only_store_has_no_host_answer() {
    let mut db = DbManager::new();
    db.insert_resource_usage(5_000, mem(100, 90), cpu(99), key("abc"));
    assert!(db.get_last_cpu_usage(None).is_none());
    assert!(db.get_cpu_usage_history(None, None, None, 10_000).is_empty());
    let mut db = DbManager::new();
    db.insert_resource_usage(5_000, mem(100, 90), cpu(99), None);
    assert!(db.get_last_cpu_usage(key("")).is_none());
}

#[test]
fn last_value_matches_key_prefix() {
    let mut db = DbManager::new();
    db.insert_resource_usage(1_000, mem(100, 50), cpu(42), key("abc123def"));
    let c = db.get_last_cpu_usage(key("abc123")).unwrap();
    assert_eq!(c.percentage, Percentage::whole(42));
    assert!(db.get_last_cpu_usage(key("xyz")).is_none());
    assert!(db.get_last_memory_usage(key("xyz")).is_none());
    assert!(db.get_last_cpu_usage(key("abc123defg")).is_none());
    assert_eq!(db.get_last_memory_usage(key("abc123def")).unwrap().used, 50);
}

#[test]
fn history_matches_key_exactly() {
    let mut db = DbManager::new();
    db.insert_resource_usage(1_000, mem(100, 50), cpu(42), key("abc123def"));
    assert!(db.get_cpu_usage_history(None, None, key("abc123"), 2_000).is_empty());
    assert_eq!(db.get_cpu_usage_history(None, None, key("abc123def"), 2_000).len(), 1);
}

#[test]
fn history_without_bounds_returns_all_rows_ascending() {
    let mut db = DbManager::new();
    db.insert_resource_usage(3_000, mem(10, 3), cpu(3), None);
    db.insert_resource_usage(1_000, mem(10, 1), cpu(1), None);
    db.insert_resource_usage(2_000, mem(10, 2), cpu(2), None);
    db.insert_resource_usage(2_500, mem(10, 9), cpu(9), key("c"));
    let h = db.get_cpu_usage_history(None, None, None, 10_000);
    let times: Vec<u64> = h.iter().map(|p| p.timestamp).collect();
    assert_eq!(times, vec![1_000, 2_000, 3_000]);
    let values: Vec<u128> = h.iter().map(|p| p.percentage.numerator).collect();
    assert_eq!(values, vec![1, 2, 3]);
    let m = db.get_memory_usage_history(None, None, None, 10_000);
    let used: Vec<u64> = m.iter().map(|p| p.used).collect();
    assert_eq!(used, vec![1, 2, 3]);
}

#[test]
fn history_with_bounds_returns_rows_in_range() {
    let mut db = DbManager::new();
    for t in 1..=5u64 {
        db.insert_resource_usage(t * 1_000, mem(10, t), cpu(t), None);
    }
    let h = db.get_cpu_usage_history(Some(2_000), Some(4_000), None, 10_000);
    let times: Vec<u64> = h.iter().map(|p| p.timestamp).collect();
    assert_eq!(times, vec![2_000, 3_000, 4_000]);
    let h = db.get_memory_usage_history(Some(3_500), None, None, 10_000);
    let times: Vec<u64> = h.iter().map(|p| p.timestamp).collect();
    assert_eq!(times, vec![4_000, 5_000]);
}

#[test]
fn history_to_defaults_to_now() {
    let mut db = DbManager::new();
    db.insert_resource_usage(1_000, mem(10, 1), cpu(1), None);
    db.insert_resource_usage(9_000, mem(10, 9), cpu(9), None);
    let h = db.get_cpu_usage_history(None, None, None, 5_000);
    assert_eq!(h.len(), 1);
    assert_eq!(h[0].timestamp, 1_000);
}

#[test]
fn interval_mean_of_one_bucket() {
    let mut db = DbManager::new();
    let base = 1_000 * 5 * MIN;
    db.insert_resource_usage(base + MIN, mem(100, 10), cpu(10), key("c"));
    db.insert_resource_usage(base + 2 * MIN, mem(200, 20), cpu(20), key("c"));
    db.insert_resource_usage(base + 3 * MIN, mem(300, 30), cpu(30), key("c"));
    let now = base + 4 * MIN;
    let r = db.get_interval_cpu_usage(Interval::Minute5, key("c"), now);
    assert_eq!(r.len(), 1);
    assert_eq!(r[0].timestamp, base);
    assert_eq!(r[0].percentage.numerator, 20 * r[0].percentage.denominator);
    assert_eq!(r[0].percentage.rounded(), 20);
    let m = db.get_interval_memory_usage(Interval::Minute5, key("c"), now);
    assert_eq!(m.len(), 1);
    assert_eq!(m[0].timestamp, base);
    assert_eq!(m[0].total, 200);
    assert_eq!(m[0].used, 20);
    assert_eq!(m[0].percentage.rounded(), 10);
}

#[test]
fn interval_leaves_out_empty_buckets() {
    let mut db = DbManager::new();
    // hour buckets 0, 2 and 3 of day 10 hold rows; bucket 1 holds none
    let day = 10 * 86_400_000;
    let hour = 60 * MIN;
    db.insert_resource_usage(day + 5 * MIN, mem(10, 1), cpu(10), None);
    db.insert_resource_usage(day + 2 * hour + MIN, mem(10, 1), cpu(40), None);
    db.insert_resource_usage(day + 2 * hour + 2 * MIN, mem(10, 1), cpu(50), None);
    db.insert_resource_usage(day + 3 * hour, mem(10, 1), cpu(70), None);
    let r = db.get_interval_cpu_usage(Interval::Day, None, day + 23 * hour);
    assert_eq!(r.len(), 1);
    let r = db.get_interval_cpu_usage(Interval::Hour, None, day + 3 * hour + MIN);
    // window [day + 2h + 1m, day + 3h + 1m]: buckets 2h and 3h
    assert_eq!(r.len(), 2);
    assert_eq!(r[0].timestamp, day + 2 * hour);
    assert_eq!(r[0].percentage.numerator, 90);
    assert_eq!(r[0].percentage.denominator, 2);
    assert_eq!(r[1].timestamp, day + 3 * hour);
    assert_eq!(r[1].percentage, Percentage { numerator: 70, denominator: 1 });
    assert!(r.iter().all(|p| p.percentage.numerator != 0));
}

#[test]
fn interval_with_no_rows_is_empty() {
    let mut db = DbManager::new();
    db.insert_resource_usage(1_000, mem(10, 1), cpu(10), None);
    assert!(db.get_interval_cpu_usage(Interval::Minute5, None, 100 * MIN).is_empty());
    assert!(db.get_interval_memory_usage(Interval::Week, key("c"), 100 * MIN).is_empty());
}

#[test]
fn interval_window_clamped_at_epoch() {
    let mut db = DbManager::new();
    db.insert_resource_usage(0, mem(10, 1), cpu(10), None);
    db.insert_resource_usage(MIN, mem(10, 1), cpu(30), None);
    let r = db.get_interval_cpu_usage(Interval::Day30, None, 2 * MIN);
    assert_eq!(r.len(), 1);
    assert_eq!(r[0].timestamp, 0);
    assert_eq!(r[0].percentage, Percentage { numerator: 40, denominator: 2 });
}

#[test]
fn memory_interval_floors_mean_amounts() {
    let mut db = DbManager::new();
    db.insert_resource_usage(MIN, mem(3, 1), cpu(1), None);
    db.insert_resource_usage(2 * MIN, mem(4, 2), cpu(1), None);
    let m = db.get_interval_memory_usage(Interval::Hour, None, 3 * MIN);
    assert_eq!(m.len(), 1);
    assert_eq!(m[0].total, 3);
    assert_eq!(m[0].used, 1);
}
