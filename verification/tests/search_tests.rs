use crabbysearch::cache::Cache;
use crabbysearch::config::Config;
use crabbysearch::engines::Engines;
use crabbysearch::models::EngineErrorKind;
use crabbysearch::models::EngineOutcome;
use crabbysearch::models::SearchResult;
use crabbysearch::search::cache_key;
use crabbysearch::search::current_page_index;
use crabbysearch::search::normalize_query;
use crabbysearch::search::results;
use crabbysearch::search::search;
use crabbysearch::search::warm_pages;

fn no_engines() -> Engines {
    Engines {
        bing: false,
        brave: false,
        duckduckgo: false,
        librex: false,
        mojeek: false,
        search_result_parser: false,
        searx: false,
        startpage: false,
    }
}

fn duck_and_bing() -> Engines {
    let mut e = no_engines();
    e.duckduckgo = true;
    e.bing = true;
    e
}

fn hit(url: &str, description: &str, engine: &str) -> (String, SearchResult) {
    (
        url.to_string(),
        SearchResult {
            url: url.to_string(),
            title: "t".to_string(),
            description: description.to_string(),
            engine_names: vec![engine.to_string()],
        },
    )
}

fn one_hit_outcomes(url: &str) -> Vec<EngineOutcome> {
    vec![EngineOutcome {
        engine_name: "duckduckgo".to_string(),
        outcome: Ok(vec![hit(url, "desc", "duckduckgo")]),
    }]
}

#[test]
fn blank_queries_short_circuit() {
    assert_eq!(normalize_query(&None), None);
    assert_eq!(normalize_query(&Some("".to_string())), None);
    assert_eq!(normalize_query(&Some("   \t\n".to_string())), None);
}

#[test]
fn queries_are_trimmed() {
    assert_eq!(
        normalize_query(&Some("  sweden ".to_string())),
        Some("sweden".to_string())
    );
    assert_eq!(
        normalize_query(&Some("two words".to_string())),
        Some("two words".to_string())
    );
}

#[test]
fn pages_are_numbered_from_one() {
    assert_eq!(current_page_index(&None), 0);
    assert_eq!(current_page_index(&Some(0)), 0);
    assert_eq!(current_page_index(&Some(1)), 0);
    assert_eq!(current_page_index(&Some(2)), 1);
    assert_eq!(current_page_index(&Some(4)), 3);
}

#[test]
fn first_page_warms_only_forward() {
    assert_eq!(warm_pages(0), vec![0, 1]);
}

#[test]
fn later_pages_warm_both_neighbors() {
    assert_eq!(warm_pages(3), vec![2, 3, 4]);
}

#[test]
fn cache_key_is_canonical() {
    let key = cache_key("sweden", 0, &duck_and_bing());
    assert_eq!(key, "search?q=sweden&page=0&engines=duckduckgo,bing");
    let key10 = cache_key("two words", 10, &no_engines());
    assert_eq!(key10, "search?q=two words&page=10&engines=");
}

#[test]
fn requesting_a_page_warms_its_neighbors() {
    let mut cache = Cache::build(&Config::default());
    let sel = duck_and_bing();
    let now: u64 = 1000;
    let outcomes = vec![
        one_hit_outcomes("https://p2.example"),
        one_hit_outcomes("https://p3.example"),
        one_hit_outcomes("https://p4.example"),
    ];
    let (r, key) = search(&mut cache, "sweden", 3, &sel, &outcomes, now);
    assert_eq!(key, cache_key("sweden", 3, &sel));
    assert_eq!(r.results.len(), 1);
    assert_eq!(r.results[0].url, "https://p3.example");
    for page in [2u32, 3, 4] {
        let k = cache_key("sweden", page, &sel);
        assert!(cache.cached_results(&k, now).is_some());
    }
    // the requested page's entry is the very result that was returned
    assert_eq!(cache.cached_results(&key, now), Some(r));
    // pages outside the warmed window stay absent
    let k5 = cache_key("sweden", 5, &sel);
    assert!(cache.cached_results(&k5, now).is_none());
}

#[test]
fn cache_hit_skips_aggregation() {
    let mut cache = Cache::build(&Config::default());
    let sel = duck_and_bing();
    let now: u64 = 1000;
    let fresh = results(
        &mut cache,
        "sweden",
        0,
        &sel,
        &one_hit_outcomes("https://first.example"),
        now,
    );
    // a second resolution of the same page must serve the cached value,
    // whatever the engines would return now
    let cached = results(
        &mut cache,
        "sweden",
        0,
        &sel,
        &one_hit_outcomes("https://other.example"),
        now,
    );
    assert_eq!(cached.0, fresh.0);
    assert_eq!(cached.1, fresh.1);
}

#[test]
fn zero_selected_engines_yield_the_flagged_placeholder() {
    let mut cache = Cache::build(&Config::default());
    let sel = no_engines();
    let now: u64 = 7;
    let outcomes: Vec<EngineOutcome> = vec![];
    let (r, key) = results(&mut cache, "sweden", 0, &sel, &outcomes, now);
    assert!(r.no_engines_selected);
    assert!(!r.filtered);
    assert!(r.results.is_empty());
    assert!(r.errors.is_empty());
    assert_eq!(r.query, "sweden");
    // the placeholder is cached so repeat requests avoid recomputation
    assert_eq!(cache.cached_results(&key, now), Some(r));
}

#[test]
fn no_engines_flag_is_independent_of_cache_state() {
    let mut cache = Cache::build(&Config::default());
    let sel = no_engines();
    let now: u64 = 7;
    let outcomes: Vec<EngineOutcome> = vec![];
    let (first, _) = results(&mut cache, "sweden", 0, &sel, &outcomes, now);
    assert!(first.no_engines_selected);
    // the second resolution is served from the cache and carries the flag too
    let (second, _) = results(&mut cache, "sweden", 0, &sel, &outcomes, now);
    assert!(second.no_engines_selected);
    assert!(!second.filtered);
}

#[test]
fn filtered_is_set_exactly_on_clean_nonempty_responses() {
    let sel = duck_and_bing();
    let now: u64 = 50;

    let mut cache = Cache::build(&Config::default());
    let (clean, _) = results(
        &mut cache,
        "q",
        0,
        &sel,
        &one_hit_outcomes("https://a.example"),
        now,
    );
    assert!(clean.filtered);

    let mut cache2 = Cache::build(&Config::default());
    let with_error = vec![
        EngineOutcome {
            engine_name: "duckduckgo".to_string(),
            outcome: Ok(vec![hit("https://a.example", "d", "duckduckgo")]),
        },
        EngineOutcome {
            engine_name: "bing".to_string(),
            outcome: Err(EngineErrorKind::Timeout),
        },
    ];
    let (partial, _) = results(&mut cache2, "q", 0, &sel, &with_error, now);
    assert!(!partial.filtered);

    let mut cache3 = Cache::build(&Config::default());
    let empty: Vec<EngineOutcome> = vec![EngineOutcome {
        engine_name: "duckduckgo".to_string(),
        outcome: Ok(vec![]),
    }];
    let (no_hits, _) = results(&mut cache3, "q", 0, &sel, &empty, now);
    assert!(!no_hits.filtered);
}

#[test]
fn first_page_request_resolves_two_pages() {
    let mut cache = Cache::build(&Config::default());
    let sel = duck_and_bing();
    let now: u64 = 3;
    let outcomes = vec![
        one_hit_outcomes("https://p0.example"),
        one_hit_outcomes("https://p1.example"),
    ];
    let (r, _key) = search(&mut cache, "sweden", 0, &sel, &outcomes, now);
    assert_eq!(r.results[0].url, "https://p0.example");
    for page in [0u32, 1] {
        let k = cache_key("sweden", page, &sel);
        assert!(cache.cached_results(&k, now).is_some());
    }
}
