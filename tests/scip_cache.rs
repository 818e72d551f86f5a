use mr_hedgehog::scip_cache::{
    lockfile_fingerprint, CacheObservation, CacheState, ScipCache, ScipCacheMetadata,
    CURRENT_VERSION,
};

fn observe(meta: Option<ScipCacheMetadata>, mtimes: Vec<Option<u64>>, lock: Option<String>) -> CacheObservation {
    CacheObservation {
        index_exists: true,
        meta_exists: true,
        metadata: meta,
        source_mtimes: mtimes,
        lockfile_hash: lock,
    }
}

#[test]
fn test_cache_miss_when_no_files() {
    let cache = ScipCache::new("/tmp/ws");
    let obs = CacheObservation {
        index_exists: false,
        meta_exists: false,
        metadata: None,
        source_mtimes: vec![],
        lockfile_hash: None,
    };
    assert!(cache.get_valid_cache(&obs).is_none());
}

#[test]
fn test_cache_hit_after_metadata_update() {
    let cache = ScipCache::new("/tmp/ws");
    let files = vec!["/tmp/ws/test.rs".to_string()];
    let meta = ScipCacheMetadata::snapshot(&files, &vec![Some(1_700_000_000)], 1_700_000_100, None);
    let obs = observe(Some(meta), vec![Some(1_700_000_000)], None);
    assert!(cache.get_valid_cache(&obs).is_some());
}

#[test]
fn test_cache_invalidation_on_source_change() {
    let cache = ScipCache::new("/tmp/ws");
    let stale = ScipCacheMetadata {
        version: CURRENT_VERSION,
        created_at: 0,
        source_files: vec![("/tmp/ws/test.rs".to_string(), 0u64)],
        cargo_lock_hash: None,
    };
    let obs = observe(Some(stale), vec![Some(1_700_000_000)], None);
    assert!(cache.get_valid_cache(&obs).is_none());
}

#[test]
fn test_explicit_invalidation() {
    let cache = ScipCache::new("/tmp/ws");
    let after_invalidate = CacheObservation {
        index_exists: false,
        meta_exists: false,
        metadata: None,
        source_mtimes: vec![],
        lockfile_hash: None,
    };
    assert_eq!(cache.assess(&after_invalidate), CacheState::Absent);
    assert!(cache.get_valid_cache(&after_invalidate).is_none());
}

#[test]
fn paths_of_the_artifacts() {
    let cache = ScipCache::new("/tmp/ws");
    assert_eq!(cache.index_path(), "/tmp/ws/index.scip");
    assert_eq!(cache.meta_path(), "/tmp/ws/index.scip.meta");
    assert_eq!(cache.lockfile_path(), "/tmp/ws/Cargo.lock");
    let slash = ScipCache::new("/tmp/ws/");
    assert_eq!(slash.index_path(), "/tmp/ws/index.scip");
    let empty = ScipCache::new("");
    assert_eq!(empty.index_path(), "index.scip");
}

#[test]
fn round_trip_then_touch() {
    let cache = ScipCache::new("ws");
    let files = vec!["ws/a.rs".to_string(), "ws/b.rs".to_string()];
    let lock = ScipCache::compute_cargo_lock_hash(Some(b"lock contents"));
    let meta = ScipCacheMetadata::snapshot(&files, &vec![Some(10), Some(20)], 99, lock.clone());
    assert_eq!(meta.version, CURRENT_VERSION);
    assert_eq!(meta.created_at, 99);
    assert_eq!(meta.source_files, vec![("ws/a.rs".to_string(), 10), ("ws/b.rs".to_string(), 20)]);
    let same = observe(Some(meta), vec![Some(10), Some(20)], lock.clone());
    assert_eq!(cache.get_valid_cache(&same), Some("ws/index.scip".to_string()));
    let meta = same.metadata.unwrap();
    let touched = observe(Some(meta), vec![Some(10), Some(21)], lock.clone());
    assert_eq!(cache.assess(&touched), CacheState::Stale);
    let meta = touched.metadata.unwrap();
    let gone = observe(Some(meta), vec![Some(10), None], lock);
    assert!(cache.get_valid_cache(&gone).is_none());
    let meta = gone.metadata.unwrap();
    let lock_changed = observe(Some(meta), vec![Some(10), Some(20)], None);
    assert!(cache.get_valid_cache(&lock_changed).is_none());
}

#[test]
fn unreadable_sidecar_or_old_version_is_stale() {
    let cache = ScipCache::new("ws");
    assert_eq!(cache.assess(&observe(None, vec![], None)), CacheState::Stale);
    let old = ScipCacheMetadata { version: 0, created_at: 0, source_files: vec![], cargo_lock_hash: None };
    assert_eq!(cache.assess(&observe(Some(old), vec![], None)), CacheState::Stale);
    let index_only = CacheObservation {
        index_exists: true,
        meta_exists: false,
        metadata: None,
        source_mtimes: vec![],
        lockfile_hash: None,
    };
    assert_eq!(cache.assess(&index_only), CacheState::Absent);
}

#[test]
fn snapshot_skips_unreadable_and_keeps_last_time() {
    let files = vec!["a".to_string(), "b".to_string(), "a".to_string()];
    let meta = ScipCacheMetadata::snapshot(&files, &vec![Some(1), None, Some(3)], 0, None);
    assert_eq!(meta.source_files, vec![("a".to_string(), 3)]);
}

#[test]
fn fingerprint_exact_values() {
    assert_eq!(lockfile_fingerprint(b""), "000000000000");
    assert_eq!(lockfile_fingerprint(b"A"), "414100000001");
    assert_eq!(lockfile_fingerprint(b"lock contents"), "6c730000000d");
    let big = vec![0xabu8; 0x1234];
    assert_eq!(lockfile_fingerprint(&big), "abab00001234");
    assert_eq!(ScipCache::compute_cargo_lock_hash(None), None);
}
