use gql_codegen_core::cache::{
    cache_data_from, check_metadata, order_by_path, text_le_exec, CacheData, FileMeta, FsCache,
    MemoryCache, MetadataCheckResult, NoCache,
};

fn data(inputs_hash: u64, config_hash: u64) -> CacheData {
    CacheData { inputs_hash, config_hash, file_meta: Vec::new() }
}

#[test]
fn test_no_stored_is_not_fresh() {
    let cache = MemoryCache::new();
    let data = data(123, 456);
    assert!(!cache.is_fresh(&data));
}

#[test]
fn test_matching_hashes_is_fresh() {
    let mut cache = MemoryCache::new();
    let data = data(123, 456);
    cache.store(data.clone());
    assert!(cache.is_fresh(&data));
}

#[test]
fn test_different_hashes_not_fresh() {
    let mut cache = MemoryCache::new();
    let data1 = data(123, 456);
    cache.store(data1);

    let data2 = data(999, 456);
    assert!(!cache.is_fresh(&data2));
}

#[test]
fn test_always_not_fresh() {
    let cache = NoCache;
    let data = data(123, 456);
    assert!(!cache.is_fresh(&data));
}

fn meta(mtime_secs: u64, size: u64) -> FileMeta {
    FileMeta { mtime_secs, size }
}

#[test]
fn cache_metadata_checks() {
    let prev = CacheData {
        inputs_hash: 1,
        config_hash: 2,
        file_meta: vec![("a".to_string(), meta(10, 5)), ("b".to_string(), meta(20, 6))],
    };
    let paths = vec!["b".to_string(), "a".to_string()];
    // No previous data.
    assert_eq!(check_metadata(&paths, &vec![None, None], None), MetadataCheckResult::NoPrevious);
    // Same files, same metadata.
    assert_eq!(
        check_metadata(&paths, &vec![Some(meta(20, 6)), Some(meta(10, 5))], Some(&prev)),
        MetadataCheckResult::AllMatch
    );
    // A file changed.
    assert_eq!(
        check_metadata(&paths, &vec![Some(meta(21, 6)), Some(meta(10, 5))], Some(&prev)),
        MetadataCheckResult::Changed
    );
    // A file cannot be read.
    assert_eq!(
        check_metadata(&paths, &vec![Some(meta(20, 6)), None], Some(&prev)),
        MetadataCheckResult::Changed
    );
    // A new file.
    let more = vec!["a".to_string(), "b".to_string(), "c".to_string()];
    assert_eq!(
        check_metadata(&more, &vec![Some(meta(10, 5)), Some(meta(20, 6)), Some(meta(1, 1))], Some(&prev)),
        MetadataCheckResult::Changed
    );
    // A deleted file.
    let fewer = vec!["a".to_string()];
    assert_eq!(check_metadata(&fewer, &vec![Some(meta(10, 5))], Some(&prev)), MetadataCheckResult::Changed);
}

#[test]
fn cache_memory_workflow() {
    let mut cache = MemoryCache::default();
    assert!(cache.stored().is_none());
    assert!(!cache.clear());
    cache.store(data(1, 2));
    assert_eq!(cache.stored().map(|d| d.inputs_hash), Some(1));
    assert!(cache.is_fresh(&data(1, 2)));
    assert!(!cache.is_fresh(&data(1, 3)));
    assert_eq!(cache.check_metadata(&vec![], &vec![]), MetadataCheckResult::AllMatch);
    assert!(cache.clear());
    assert!(!cache.is_fresh(&data(1, 2)));
    assert_eq!(cache.check_metadata(&vec![], &vec![]), MetadataCheckResult::NoPrevious);
}

#[test]
fn cache_no_cache_never_records() {
    let mut cache = NoCache;
    cache.store(data(1, 2));
    assert!(cache.stored().is_none());
    assert!(!cache.is_fresh(&data(1, 2)));
    assert!(!cache.clear());
    assert_eq!(cache.check_metadata(&vec!["a".to_string()], &vec![None]), MetadataCheckResult::NoPrevious);
}

#[test]
fn cache_fs_records_what_was_written() {
    let mut cache = FsCache::new(".sgc", None);
    assert_eq!(cache.cache_dir(), ".sgc");
    assert!(!cache.is_fresh(&data(7, 8)));
    cache.store(data(7, 8));
    assert!(cache.is_fresh(&data(7, 8)));
    cache.clear();
    assert!(cache.stored().is_none());
    let loaded = FsCache::new("d", Some(data(3, 4)));
    assert!(loaded.is_fresh(&data(3, 4)));
}

// The hashes that the command line computes for a configuration text: the
// same text gives the same hashes, a changed one another configuration hash.
fn hashes_for(config_content: &str) -> CacheData {
    let config_hash = if config_content == "{}" { 456 } else { 789 };
    data(123, config_hash)
}

#[test]
fn test_memory_cache_workflow() {
    let mut cache = MemoryCache::new();
    let computed = hashes_for("{}");
    // First check: stale, nothing stored yet.
    assert!(!cache.is_fresh(&computed));
    // Commit the hashes.
    cache.store(computed.clone());
    // Same inputs: fresh.
    assert!(cache.is_fresh(&hashes_for("{}")));
    // Different configuration text: stale.
    assert!(!cache.is_fresh(&hashes_for("{\"changed\": true}")));
}

#[test]
fn test_no_cache_always_stale() {
    let mut cache = NoCache;
    let computed = hashes_for("{}");
    assert!(!cache.is_fresh(&computed));
    cache.store(computed.clone());
    assert!(!cache.is_fresh(&computed));
}

#[test]
fn test_commit_only_after_success() {
    let mut cache = MemoryCache::new();
    let computed = hashes_for("{}");
    // Checked but not committed (generation failed).
    assert!(!cache.is_fresh(&computed));
    // Still stale.
    assert!(!cache.is_fresh(&computed));
    // Now commit.
    cache.store(computed.clone());
    assert!(cache.is_fresh(&computed));
}

#[test]
fn cache_data_records_last_metadata_per_path() {
    let metas = vec![
        ("b".to_string(), Some(meta(1, 1))),
        ("a".to_string(), None),
        ("c".to_string(), Some(meta(3, 3))),
        ("b".to_string(), Some(meta(2, 2))),
    ];
    let d = cache_data_from(10, 20, &metas);
    assert_eq!(d.inputs_hash, 10);
    assert_eq!(d.config_hash, 20);
    assert_eq!(d.file_meta, vec![("b".to_string(), meta(2, 2)), ("c".to_string(), meta(3, 3))]);
}

#[test]
fn content_hashes_ordered_by_path() {
    let inputs = vec![
        ("src/b.ts".to_string(), 2),
        ("schema.graphql".to_string(), 9),
        ("src/a.ts".to_string(), 1),
        ("src".to_string(), 5),
    ];
    let ordered = order_by_path(&inputs);
    let paths: Vec<&str> = ordered.iter().map(|(p, _)| p.as_str()).collect();
    assert_eq!(paths, vec!["schema.graphql", "src", "src/a.ts", "src/b.ts"]);
    assert_eq!(ordered.iter().map(|(_, h)| *h).collect::<Vec<u64>>(), vec![9, 5, 1, 2]);
    assert!(text_le_exec("abc", "abd"));
    assert!(text_le_exec("ab", "abc"));
    assert!(!text_le_exec("b", "a"));
}
