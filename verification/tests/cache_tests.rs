use aviutl2_catalog::cache::build_file_hash_cache;
use aviutl2_catalog::cache::plan_hash_work;
use aviutl2_catalog::cache::FileStat;
use aviutl2_catalog::cache::HashCache;
use aviutl2_catalog::hashing::xxh3_128_hex;

#[test]
fn missing_file_is_skipped_entirely() {
    let paths = vec![String::from("C:\\p\\gone.auf")];
    let stats = vec![None];
    let cache = HashCache { entries: Vec::new() };
    let plan = plan_hash_work(&paths, &stats, &cache);
    assert!(plan.cached.is_empty());
    assert!(plan.to_hash.is_empty());
}

#[test]
fn uncached_present_file_is_listed_for_hashing() {
    let paths = vec![String::from("C:\\p\\foo.auf")];
    let stats = vec![Some(FileStat { mtime_ms: 100, size: 5 })];
    let cache = HashCache { entries: Vec::new() };
    let plan = plan_hash_work(&paths, &stats, &cache);
    assert!(plan.cached.is_empty());
    assert_eq!(plan.to_hash.len(), 1);
    assert_eq!(plan.to_hash[0].0, "C:\\p\\foo.auf");
}

#[test]
fn second_pass_with_unchanged_stat_serves_cache() {
    let paths = vec![String::from("C:\\p\\Foo.auf")];
    let stats = vec![Some(FileStat { mtime_ms: 100, size: 5 })];
    let empty = HashCache { entries: Vec::new() };
    let plan1 = plan_hash_work(&paths, &stats, &empty);
    assert_eq!(plan1.to_hash.len(), 1);
    let contents = vec![Some(b"hello".to_vec())];
    let (hashes1, cache2) = build_file_hash_cache(&plan1, &contents, &empty);
    let expected = xxh3_128_hex(b"hello");
    assert_eq!(hashes1.entries.len(), 1);
    assert_eq!(hashes1.entries[0].1, expected);
    // the record is keyed by the lowercased path
    assert_eq!(cache2.entries.len(), 1);
    assert_eq!(cache2.entries[0].key, "c:\\p\\foo.auf");
    // a second pass with the same (mtime, size) re-reads nothing and
    // returns the same hash
    let plan2 = plan_hash_work(&paths, &stats, &cache2);
    assert!(plan2.to_hash.is_empty());
    assert_eq!(plan2.cached.len(), 1);
    assert_eq!(plan2.cached[0].1, expected);
}

#[test]
fn changed_size_forces_recomputation() {
    let paths = vec![String::from("C:\\p\\Foo.auf")];
    let stats1 = vec![Some(FileStat { mtime_ms: 100, size: 5 })];
    let empty = HashCache { entries: Vec::new() };
    let plan1 = plan_hash_work(&paths, &stats1, &empty);
    let contents = vec![Some(b"hello".to_vec())];
    let (_hashes, cache2) = build_file_hash_cache(&plan1, &contents, &empty);
    let stats2 = vec![Some(FileStat { mtime_ms: 100, size: 6 })];
    let plan2 = plan_hash_work(&paths, &stats2, &cache2);
    assert!(plan2.cached.is_empty());
    assert_eq!(plan2.to_hash.len(), 1);
}

#[test]
fn changed_mtime_forces_recomputation() {
    let paths = vec![String::from("C:\\p\\Foo.auf")];
    let stats1 = vec![Some(FileStat { mtime_ms: 100, size: 5 })];
    let empty = HashCache { entries: Vec::new() };
    let plan1 = plan_hash_work(&paths, &stats1, &empty);
    let contents = vec![Some(b"hello".to_vec())];
    let (_hashes, cache2) = build_file_hash_cache(&plan1, &contents, &empty);
    let stats2 = vec![Some(FileStat { mtime_ms: 101, size: 5 })];
    let plan2 = plan_hash_work(&paths, &stats2, &cache2);
    assert!(plan2.cached.is_empty());
    assert_eq!(plan2.to_hash.len(), 1);
}

#[test]
fn unreadable_file_yields_no_hash_and_no_record() {
    let paths = vec![String::from("C:\\p\\foo.auf")];
    let stats = vec![Some(FileStat { mtime_ms: 1, size: 1 })];
    let empty = HashCache { entries: Vec::new() };
    let plan = plan_hash_work(&paths, &stats, &empty);
    let contents = vec![None];
    let (hashes, cache2) = build_file_hash_cache(&plan, &contents, &empty);
    assert!(hashes.entries.is_empty());
    assert!(cache2.entries.is_empty());
}

#[test]
fn recomputation_replaces_the_cache_record() {
    let paths = vec![String::from("C:\\p\\foo.auf")];
    let empty = HashCache { entries: Vec::new() };
    let stats1 = vec![Some(FileStat { mtime_ms: 1, size: 5 })];
    let plan1 = plan_hash_work(&paths, &stats1, &empty);
    let (_h1, cache2) = build_file_hash_cache(&plan1, &vec![Some(b"hello".to_vec())], &empty);
    let stats2 = vec![Some(FileStat { mtime_ms: 2, size: 6 })];
    let plan2 = plan_hash_work(&paths, &stats2, &cache2);
    let (h2, cache3) = build_file_hash_cache(&plan2, &vec![Some(b"world!".to_vec())], &cache2);
    assert_eq!(cache3.entries.len(), 1);
    assert_eq!(cache3.entries[0].hex, xxh3_128_hex(b"world!"));
    assert_eq!(cache3.entries[0].mtime_ms, 2);
    assert_eq!(cache3.entries[0].size, 6);
    assert_eq!(h2.entries[0].1, xxh3_128_hex(b"world!"));
}
