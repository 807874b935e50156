use hk::cache::{
    fresh_file_cache_key, fresh_file_content_cache_key, split_file_name, CacheManager,
    CacheManagerBuilder, FreshFileKeyMode,
};
use std::collections::hash_map::DefaultHasher;
use std::hash::{Hash, Hasher};

fn hash(keys: &[String]) -> String {
    let mut hasher = DefaultHasher::new();
    keys.hash(&mut hasher);
    format!("{:016x}", hasher.finish())
}

fn build(builder: CacheManagerBuilder) -> CacheManager<u8> {
    let hashes: Vec<Option<String>> = vec![None; builder.unique_files().len()];
    let keys = builder.all_keys(&hashes);
    builder.build(&hash(&keys))
}

#[test]
fn test_cache() {
    let mut cache = build(CacheManagerBuilder::new("/tmp/hk/test-cache.json"));
    assert_eq!(cache.get_or_try_init(None, || Ok(1)), Ok(true));
    assert_eq!(cache.value, Some(1));
    assert_eq!(cache.get_or_try_init(None, || Ok(2)), Ok(false));
    assert_eq!(cache.value, Some(1));
}

#[test]
fn explicit_cache_keys_select_distinct_files() {
    let base = "/tmp/hk/cache-key-test.json";
    let unset = build(
        CacheManagerBuilder::new(base).with_cache_key("HK_PKL_HTTP_REWRITE=<unset>"),
    );
    let rewrite = build(CacheManagerBuilder::new(base).with_cache_key(
        "HK_PKL_HTTP_REWRITE=https://example.com/=https://mirror.example.com/",
    ));
    assert_ne!(unset.cache_file_path, rewrite.cache_file_path);
}

#[test]
fn the_key_goes_between_the_name_and_its_extension() {
    let cache: CacheManager<u8> =
        CacheManagerBuilder::new("/tmp/x.y/imports.v2.json").build("0123456789");
    assert_eq!(cache.cache_file_path, "/tmp/x.y/imports.v2-01234.json");
    assert_eq!(
        split_file_name("/tmp/x.y/imports.v2.json"),
        ("imports.v2".to_string(), "json".to_string())
    );
}

#[test]
fn a_value_in_memory_wins_over_a_stored_one() {
    let mut cache = build(CacheManagerBuilder::new("/tmp/hk/test-cache.json"));
    assert_eq!(cache.get_or_try_init(Some(3), || Ok(1)), Ok(false));
    assert_eq!(cache.value, Some(3));
    assert_eq!(cache.get_or_try_init(Some(4), || Ok(1)), Ok(false));
    assert_eq!(cache.value, Some(3));
}

#[test]
fn a_failed_fetch_leaves_the_cache_empty() {
    let mut cache = build(CacheManagerBuilder::new("/tmp/hk/test-cache.json"));
    assert_eq!(
        cache.get_or_try_init(None, || Err("no".to_string())),
        Err("no".to_string())
    );
    assert_eq!(cache.value, None);
}

#[test]
fn files_are_keyed_by_content_and_where_asked_by_path() {
    let hash = Some("abc".to_string());
    assert_eq!(fresh_file_cache_key("/a/hk.pkl", &hash), "/a/hk.pkl:abc");
    assert_eq!(fresh_file_cache_key("/a/hk.pkl", &None), "/a/hk.pkl:<missing>");
    assert_eq!(fresh_file_content_cache_key(&hash), "abc");
    assert_eq!(fresh_file_content_cache_key(&None), "<missing>");

    let files = vec!["a".to_string(), "b".to_string(), "a".to_string()];
    let hashes = vec![Some("1".to_string()), None];
    let by_path = CacheManagerBuilder::new("x.json").with_fresh_files(files.clone());
    assert_eq!(by_path.fresh_file_key_mode, FreshFileKeyMode::PathAndContent);
    assert_eq!(by_path.all_keys(&hashes), vec!["2.0.0", "a:1", "b:<missing>"]);
    let by_content = CacheManagerBuilder::new("x.json").with_content_fresh_files(files);
    assert_eq!(by_content.all_keys(&hashes), vec!["2.0.0", "1", "<missing>"]);
}

#[test]
fn caches_go_stale() {
    let mut cache = build(CacheManagerBuilder::new("/tmp/hk/test-cache.json"));
    assert!(!cache.is_fresh(false, Some(0)));
    assert!(cache.is_fresh(true, Some(1_000_000)));
    cache.fresh_duration = Some(10);
    assert!(cache.is_fresh(true, Some(9)));
    assert!(!cache.is_fresh(true, Some(10)));
    assert!(cache.is_fresh(true, None));
}
