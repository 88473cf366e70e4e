use apphub::app_info::AppInfo;
use apphub::cache::{
    event_triggers_rescan, AppCache, AppManager, DiskStep, ReadStep, WatchEventKind,
    DISK_TTL_SECS, MEMORY_TTL_SECS,
};
use apphub::category::Category;

fn app(name: &str) -> AppInfo {
    AppInfo {
        name: name.to_string(),
        path: format!("C:\\{}.exe", name),
        category: Category::Other,
        icon: None,
    }
}

#[test]
fn new_manager_has_no_snapshot_and_default_ttls() {
    let m = AppManager::new();
    assert!(m.memory.is_none());
    assert_eq!(m.memory_ttl_secs, MEMORY_TTL_SECS);
    assert_eq!(m.cache_ttl_secs, DISK_TTL_SECS);
    assert_eq!(MEMORY_TTL_SECS, 300);
    assert_eq!(DISK_TTL_SECS, 3600);
}

#[test]
fn snapshot_one_second_past_ttl_is_stale() {
    // TTL gating at the boundary: timestamp = now - TTL - 1 forces
    // the fallthrough.
    let m = AppManager::new();
    let now: u64 = 1_000_000;
    let stale = AppCache { apps: vec![], timestamp: now - DISK_TTL_SECS - 1 };
    assert!(!m.is_cache_valid(&stale, now));
}

#[test]
fn snapshot_one_second_inside_ttl_is_fresh() {
    // timestamp = now - TTL + 1 is served without touching anything.
    let m = AppManager::new();
    let now: u64 = 1_000_000;
    let fresh = AppCache { apps: vec![], timestamp: now - DISK_TTL_SECS + 1 };
    assert!(m.is_cache_valid(&fresh, now));
}

#[test]
fn snapshot_exactly_at_ttl_is_stale() {
    let m = AppManager::new();
    let now: u64 = 1_000_000;
    let edge = AppCache { apps: vec![], timestamp: now - DISK_TTL_SECS };
    assert!(!m.is_cache_valid(&edge, now));
}

#[test]
fn empty_memory_needs_disk() {
    let m = AppManager::new();
    assert!(matches!(m.read_memory(100), ReadStep::NeedDisk));
}

#[test]
fn fresh_memory_is_served_without_io() {
    let mut m = AppManager::new();
    m.install_scan(vec![app("A")], 1000);
    match m.read_memory(1000 + MEMORY_TTL_SECS - 1) {
        ReadStep::Cached(apps) => {
            assert_eq!(apps.len(), 1);
            assert_eq!(apps[0].name, "A");
        }
        ReadStep::NeedDisk => panic!("fresh snapshot not served"),
    }
}

#[test]
fn stale_memory_needs_disk() {
    let mut m = AppManager::new();
    m.install_scan(vec![app("A")], 1000);
    assert!(matches!(m.read_memory(1000 + MEMORY_TTL_SECS + 1), ReadStep::NeedDisk));
}

#[test]
fn fresh_disk_snapshot_is_adopted() {
    let mut m = AppManager::new();
    let now: u64 = 50_000;
    let disk = AppCache { apps: vec![app("D")], timestamp: now - 10 };
    match m.adopt_disk(Some(disk), now) {
        DiskStep::Adopted(apps) => {
            assert_eq!(apps.len(), 1);
            assert_eq!(apps[0].name, "D");
        }
        DiskStep::NeedScan => panic!("fresh disk snapshot not adopted"),
    }
    // the adopted snapshot now serves memory reads
    assert!(matches!(m.read_memory(now), ReadStep::Cached(_)));
}

#[test]
fn stale_disk_snapshot_forces_scan() {
    let mut m = AppManager::new();
    let now: u64 = 50_000;
    let disk = AppCache { apps: vec![app("D")], timestamp: now - DISK_TTL_SECS - 1 };
    assert!(matches!(m.adopt_disk(Some(disk), now), DiskStep::NeedScan));
    assert!(m.memory.is_none());
}

#[test]
fn absent_disk_snapshot_forces_scan() {
    let mut m = AppManager::new();
    assert!(matches!(m.adopt_disk(None, 50_000), DiskStep::NeedScan));
}

#[test]
fn install_scan_replaces_snapshot_wholesale() {
    let mut m = AppManager::new();
    m.install_scan(vec![app("Old1"), app("Old2")], 1000);
    m.install_scan(vec![app("New")], 2000);
    match &m.memory {
        Some(c) => {
            assert_eq!(c.timestamp, 2000);
            assert_eq!(c.apps.len(), 1);
            assert_eq!(c.apps[0].name, "New");
        }
        None => panic!("no snapshot installed"),
    }
}

#[test]
fn any_change_triggers_rescan() {
    // create, modify and delete are not distinguished: each forces
    // the same full rescan
    assert!(event_triggers_rescan(&WatchEventKind::Create));
    assert!(event_triggers_rescan(&WatchEventKind::Modify));
    assert!(event_triggers_rescan(&WatchEventKind::Remove));
}

#[test]
fn non_change_events_are_ignored() {
    assert!(!event_triggers_rescan(&WatchEventKind::Access));
    assert!(!event_triggers_rescan(&WatchEventKind::Other));
}
