//! The catalog cache: the single authoritative view of the application
//! list, reconciling an in-memory snapshot, a previous-run on-disk
//! snapshot and a fresh scan. The two tiers have independent TTLs; a
//! snapshot is served only while `now - timestamp < ttl`, and every
//! fresh scan overwrites both tiers wholesale. The platform layer owns
//! the lock, the clock, the disk file and the scan I/O; every decision
//! is taken here.

use vstd::prelude::*;
use crate::app_info::AppInfo;

verus! {

/// One complete, timestamped scan result (the shape of the disk cache
/// record as well as of the memory tier).
pub struct AppCache {
    pub apps: Vec<AppInfo>,
    pub timestamp: u64,
}

/// Memory-tier TTL: five minutes.
pub const MEMORY_TTL_SECS: u64 = 300;

/// Disk-tier TTL: one hour.
pub const DISK_TTL_SECS: u64 = 3600;

/// A snapshot taken at `timestamp` may still be served at `now`.
/// Stated over the integers: a timestamp in the future (a clock that
/// moved backwards) is within any positive TTL.
pub open spec fn spec_cache_valid(timestamp: u64, now: u64, ttl: u64) -> bool {
    now - timestamp < ttl
}

/// What a read of the application list does next, after consulting the
/// memory tier.
pub enum ReadStep {
    /// The memory snapshot is fresh: serve it, touching neither the
    /// disk nor the filesystem.
    Cached(Vec<AppInfo>),
    /// No fresh memory snapshot: consult the disk tier.
    NeedDisk,
}

/// What a read does next, after the disk tier was consulted.
pub enum DiskStep {
    /// The disk snapshot is fresh: it has been adopted as the memory
    /// snapshot and is served.
    Adopted(Vec<AppInfo>),
    /// Disk absent, unreadable or stale: a fresh scan is required.
    NeedScan,
}

fn clone_apps(v: &Vec<AppInfo>) -> (r: Vec<AppInfo>)
    ensures
        r@ == v@,
{
    let mut r: Vec<AppInfo> = Vec::new();
    let mut i: usize = 0;
    while i < v.len()
        invariant
            i <= v@.len(),
            r@.len() == i,
            forall|j: int| 0 <= j < i ==> r@[j] == v@[j],
        decreases v.len() - i,
    {
        r.push(v[i].clone());
        i = i + 1;
    }
    proof {
        assert(r@ =~= v@);
    }
    r
}

pub struct AppManager {
    /// The memory-tier snapshot, if one was ever installed.
    pub memory: Option<AppCache>,
    /// TTL of the memory tier, in seconds.
    pub memory_ttl_secs: u64,
    /// TTL of the disk tier, in seconds.
    pub cache_ttl_secs: u64,
}

impl AppManager {
    /// A fresh manager: no snapshot yet, default TTLs.
    pub fn new() -> (r: AppManager)
        ensures
            r.memory is None,
            r.memory_ttl_secs == MEMORY_TTL_SECS,
            r.cache_ttl_secs == DISK_TTL_SECS,
    {
        AppManager { memory: None, memory_ttl_secs: MEMORY_TTL_SECS, cache_ttl_secs: DISK_TTL_SECS }
    }

    /// The disk-tier freshness test.
    pub fn is_cache_valid(&self, cache: &AppCache, now: u64) -> (r: bool)
        ensures
            r == spec_cache_valid(cache.timestamp, now, self.cache_ttl_secs),
    {
        cache.timestamp > now || now - cache.timestamp < self.cache_ttl_secs
    }

    /// First step of a read: serve the memory snapshot iff it exists
    /// and is fresh; otherwise the caller must consult the disk tier.
    pub fn read_memory(&self, now: u64) -> (r: ReadStep)
        ensures
            match r {
                ReadStep::Cached(apps) => {
                    &&& self.memory matches Some(c) && apps@ == c.apps@
                    &&& self.memory matches Some(c) && spec_cache_valid(
                        c.timestamp,
                        now,
                        self.memory_ttl_secs,
                    )
                },
                ReadStep::NeedDisk => match self.memory {
                    Some(c) => !spec_cache_valid(c.timestamp, now, self.memory_ttl_secs),
                    None => true,
                },
            },
    {
        match &self.memory {
            Some(c) => {
                if c.timestamp > now || now - c.timestamp < self.memory_ttl_secs {
                    ReadStep::Cached(clone_apps(&c.apps))
                } else {
                    ReadStep::NeedDisk
                }
            },
            None => ReadStep::NeedDisk,
        }
    }

    /// Second step of a read: given what the disk tier held (`None`
    /// both for an absent and for an unreadable or unparseable file),
    /// adopt a fresh disk snapshot as the memory snapshot and serve it;
    /// otherwise leave the memory tier unchanged and require a scan.
    pub fn adopt_disk(&mut self, disk: Option<AppCache>, now: u64) -> (r: DiskStep)
        ensures
            final(self).memory_ttl_secs == old(self).memory_ttl_secs,
            final(self).cache_ttl_secs == old(self).cache_ttl_secs,
            match r {
                DiskStep::Adopted(apps) => {
                    &&& disk matches Some(c) && spec_cache_valid(
                        c.timestamp,
                        now,
                        old(self).cache_ttl_secs,
                    )
                    &&& disk matches Some(c) && apps@ == c.apps@
                    &&& final(self).memory == disk
                },
                DiskStep::NeedScan => {
                    &&& match disk {
                        Some(c) => !spec_cache_valid(c.timestamp, now, old(self).cache_ttl_secs),
                        None => true,
                    }
                    &&& final(self).memory == old(self).memory
                },
            },
    {
        match disk {
            Some(c) => {
                if self.is_cache_valid(&c, now) {
                    let apps = clone_apps(&c.apps);
                    self.memory = Some(c);
                    DiskStep::Adopted(apps)
                } else {
                    DiskStep::NeedScan
                }
            },
            None => DiskStep::NeedScan,
        }
    }

    /// Install a fresh scan result, taken at `now`, as the snapshot of
    /// the memory tier. Every successful scan lands here, whether it
    /// was demanded by a stale read or forced by the watcher; the new
    /// set replaces the old one wholesale.
    pub fn install_scan(&mut self, apps: Vec<AppInfo>, now: u64)
        ensures
            final(self).memory matches Some(c) && c.apps@ == apps@ && c.timestamp == now,
            final(self).memory_ttl_secs == old(self).memory_ttl_secs,
            final(self).cache_ttl_secs == old(self).cache_ttl_secs,
    {
        self.memory = Some(AppCache { apps, timestamp: now });
    }
}

/// TTL gating, at the boundary: a snapshot one second older than the
/// TTL is rejected and forces the fallthrough (disk read or fresh
/// scan), while a snapshot one second younger than the TTL is served.
pub proof fn lemma_ttl_gating(now: u64, ttl: u64)
    requires
        1 <= ttl,
        ttl + 1 <= now,
        now + 1 <= u64::MAX,
    ensures
        !spec_cache_valid((now - ttl - 1) as u64, now, ttl),
        spec_cache_valid((now - ttl + 1) as u64, now, ttl),
{
}

/// The filesystem watcher's decision: any observed change under the
/// watched root — a creation, a modification or a deletion, none of
/// them distinguished from the others — forces the same full rescan,
/// whatever the cache age. Renames reach the watcher as modify events.
/// Access events are mere reads and are ignored: rescanning on them
/// would rescan on every scan.
#[derive(Clone, Copy, PartialEq, Eq, Structural, Debug)]
pub enum WatchEventKind {
    Create,
    Modify,
    Remove,
    Access,
    Other,
}

pub fn event_triggers_rescan(kind: &WatchEventKind) -> (r: bool)
    ensures
        r == (kind is Create || kind is Modify || kind is Remove),
{
    match kind {
        WatchEventKind::Create => true,
        WatchEventKind::Modify => true,
        WatchEventKind::Remove => true,
        WatchEventKind::Access => false,
        WatchEventKind::Other => false,
    }
}

} // verus!
