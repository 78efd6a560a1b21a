use crabbysearch::cache::Cache;
use crabbysearch::config::Config;
use crabbysearch::models::SearchResult;
use crabbysearch::models::SearchResults;

fn sample_results(query: &str) -> SearchResults {
    SearchResults {
        query: query.to_string(),
        results: vec![SearchResult {
            url: "https://a.example".to_string(),
            title: "a".to_string(),
            description: "alpha".to_string(),
            engine_names: vec!["x".to_string()],
        }],
        errors: vec![],
        no_engines_selected: false,
        filtered: true,
    }
}

fn config_with_ttl(ttl: u64) -> Config {
    let mut c = Config::default();
    c.cache_expiry_time = ttl;
    c
}

#[test]
fn put_then_get_returns_a_deep_copy() {
    let mut cache = Cache::build(&config_with_ttl(600));
    let v = sample_results("sweden");
    let now: u64 = 1000;
    cache.cache_results(&vec![v.clone()], &vec!["k1".to_string()], now);
    let got = cache.cached_results("k1", now);
    assert_eq!(got, Some(v));
}

#[test]
fn entry_expires_once_the_lifetime_has_elapsed() {
    let mut cache = Cache::build(&config_with_ttl(600));
    let v = sample_results("sweden");
    let now: u64 = 1000;
    cache.cache_results(&vec![v.clone()], &vec!["k1".to_string()], now);
    assert_eq!(cache.cached_results("k1", now + 599), Some(v));
    assert_eq!(cache.cached_results("k1", now + 600), None);
    assert_eq!(cache.cached_results("k1", now + 601), None);
}

#[test]
fn other_keys_are_untouched() {
    let mut cache = Cache::build(&config_with_ttl(600));
    let v = sample_results("sweden");
    let now: u64 = 5;
    cache.cache_results(&vec![v], &vec!["k1".to_string()], now);
    assert_eq!(cache.cached_results("k2", now), None);
}

#[test]
fn later_write_to_the_same_key_wins() {
    let mut cache = Cache::build(&config_with_ttl(600));
    let v1 = sample_results("first");
    let v2 = sample_results("second");
    let now: u64 = 1;
    cache.cache_results(&vec![v1], &vec!["k".to_string()], now);
    cache.cache_results(&vec![v2.clone()], &vec!["k".to_string()], now);
    assert_eq!(cache.cached_results("k", now), Some(v2));
}

#[test]
fn batch_writes_store_every_pair() {
    let mut cache = Cache::build(&config_with_ttl(600));
    let a = sample_results("a");
    let b = sample_results("b");
    let now: u64 = 42;
    cache.cache_results(
        &vec![a.clone(), b.clone()],
        &vec!["ka".to_string(), "kb".to_string()],
        now,
    );
    assert_eq!(cache.cached_results("ka", now), Some(a));
    assert_eq!(cache.cached_results("kb", now), Some(b));
}

#[test]
fn lifetime_comes_from_the_configuration() {
    let mut cache = Cache::build(&config_with_ttl(10));
    let v = sample_results("short");
    let now: u64 = 100;
    cache.cache_results(&vec![v.clone()], &vec!["k".to_string()], now);
    assert_eq!(cache.cached_results("k", now + 9), Some(v));
    assert_eq!(cache.cached_results("k", now + 10), None);
}

#[test]
fn empty_cache_misses() {
    let cache = Cache::build(&Config::default());
    assert_eq!(cache.cached_results("anything", 0), None);
}
