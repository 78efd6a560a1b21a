use crabbysearch::aggregator::aggregate;
use crabbysearch::models::EngineErrorKind;
use crabbysearch::models::EngineOutcome;
use crabbysearch::models::SearchResult;

fn hit(url: &str, title: &str, description: &str, engine: &str) -> (String, SearchResult) {
    (
        url.to_string(),
        SearchResult {
            url: url.to_string(),
            title: title.to_string(),
            description: description.to_string(),
            engine_names: vec![engine.to_string()],
        },
    )
}

fn ok_outcome(engine: &str, pairs: Vec<(String, SearchResult)>) -> EngineOutcome {
    EngineOutcome { engine_name: engine.to_string(), outcome: Ok(pairs) }
}

fn err_outcome(engine: &str, kind: EngineErrorKind) -> EngineOutcome {
    EngineOutcome { engine_name: engine.to_string(), outcome: Err(kind) }
}

#[test]
fn partial_failure_keeps_good_results() {
    let outcomes = vec![
        ok_outcome("x", vec![hit("https://a.example", "a", "alpha", "x")]),
        err_outcome("y", EngineErrorKind::Timeout),
    ];
    let r = aggregate("q", &outcomes);
    assert_eq!(r.results.len(), 1);
    assert_eq!(r.results[0].url, "https://a.example");
    assert_eq!(r.results[0].engine_names, vec!["x".to_string()]);
    assert_eq!(r.errors.len(), 1);
    assert_eq!(r.errors[0].engine_name, "y");
    assert_eq!(r.errors[0].error_kind, EngineErrorKind::Timeout);
    assert!(!r.no_engines_selected);
    assert!(!r.filtered);
}

#[test]
fn merge_unions_attribution_and_sorts_by_description_length() {
    let outcomes = vec![
        ok_outcome("x", vec![hit("https://a.example", "a", "12345", "x")]),
        ok_outcome(
            "y",
            vec![
                hit("https://a.example", "a2", "54321", "y"),
                hit("https://b.example", "b", "123", "y"),
            ],
        ),
    ];
    let r = aggregate("q", &outcomes);
    assert_eq!(r.results.len(), 2);
    // the shorter description comes first
    assert_eq!(r.results[0].url, "https://b.example");
    assert_eq!(r.results[0].description, "123");
    assert_eq!(r.results[0].engine_names, vec!["y".to_string()]);
    // the duplicate url keeps the first-merged content, attributed to both
    assert_eq!(r.results[1].url, "https://a.example");
    assert_eq!(r.results[1].title, "a");
    assert_eq!(r.results[1].description, "12345");
    assert_eq!(
        r.results[1].engine_names,
        vec!["x".to_string(), "y".to_string()]
    );
    assert!(r.errors.is_empty());
}

#[test]
fn no_two_merged_results_share_a_url() {
    let outcomes = vec![
        ok_outcome(
            "x",
            vec![
                hit("https://a.example", "a", "aa", "x"),
                hit("https://b.example", "b", "bb", "x"),
            ],
        ),
        ok_outcome(
            "y",
            vec![
                hit("https://b.example", "b", "b2", "y"),
                hit("https://c.example", "c", "cc", "y"),
            ],
        ),
        ok_outcome("z", vec![hit("https://a.example", "a", "a3", "z")]),
    ];
    let r = aggregate("q", &outcomes);
    assert_eq!(r.results.len(), 3);
    for i in 0..r.results.len() {
        for j in (i + 1)..r.results.len() {
            assert_ne!(r.results[i].url, r.results[j].url);
        }
    }
}

#[test]
fn attribution_is_the_union_over_all_engines() {
    let outcomes = vec![
        ok_outcome("x", vec![hit("https://a.example", "a", "aa", "x")]),
        ok_outcome("y", vec![hit("https://a.example", "a", "aa", "y")]),
        ok_outcome("z", vec![hit("https://a.example", "a", "aa", "z")]),
    ];
    let r = aggregate("q", &outcomes);
    assert_eq!(r.results.len(), 1);
    let names = &r.results[0].engine_names;
    assert_eq!(names.len(), 3);
    assert!(names.contains(&"x".to_string()));
    assert!(names.contains(&"y".to_string()));
    assert!(names.contains(&"z".to_string()));
}

#[test]
fn sort_is_stable_for_equal_description_lengths() {
    let outcomes = vec![ok_outcome(
        "x",
        vec![
            hit("https://1.example", "one", "lengthy description", "x"),
            hit("https://2.example", "two", "aa", "x"),
            hit("https://3.example", "three", "bb", "x"),
            hit("https://4.example", "four", "cc", "x"),
        ],
    )];
    let r = aggregate("q", &outcomes);
    assert_eq!(r.results.len(), 4);
    // the three length-2 descriptions keep their arrival order
    assert_eq!(r.results[0].url, "https://2.example");
    assert_eq!(r.results[1].url, "https://3.example");
    assert_eq!(r.results[2].url, "https://4.example");
    assert_eq!(r.results[3].url, "https://1.example");
}

#[test]
fn each_error_kind_is_reported_for_its_engine() {
    let outcomes = vec![
        err_outcome("a", EngineErrorKind::Network),
        err_outcome("b", EngineErrorKind::Timeout),
        err_outcome("c", EngineErrorKind::UpstreamStatus),
        err_outcome("d", EngineErrorKind::Parse),
    ];
    let r = aggregate("q", &outcomes);
    assert!(r.results.is_empty());
    assert_eq!(r.errors.len(), 4);
    assert_eq!(r.errors[0].error_kind, EngineErrorKind::Network);
    assert_eq!(r.errors[1].error_kind, EngineErrorKind::Timeout);
    assert_eq!(r.errors[2].error_kind, EngineErrorKind::UpstreamStatus);
    assert_eq!(r.errors[3].error_kind, EngineErrorKind::Parse);
    assert_eq!(r.errors[0].engine_name, "a");
    assert_eq!(r.errors[3].engine_name, "d");
}

#[test]
fn all_engines_failing_is_not_fatal() {
    let outcomes = vec![
        err_outcome("x", EngineErrorKind::Timeout),
        err_outcome("y", EngineErrorKind::Network),
    ];
    let r = aggregate("sweden", &outcomes);
    assert!(r.results.is_empty());
    assert_eq!(r.errors.len(), 2);
    assert_eq!(r.query, "sweden");
}

#[test]
fn empty_outcomes_give_an_empty_result_set() {
    let outcomes: Vec<EngineOutcome> = vec![];
    let r = aggregate("anything", &outcomes);
    assert!(r.results.is_empty());
    assert!(r.errors.is_empty());
    assert_eq!(r.query, "anything");
}

#[test]
fn one_engine_repeating_a_url_still_yields_one_entry() {
    let outcomes = vec![ok_outcome(
        "x",
        vec![
            hit("https://a.example", "a", "first", "x"),
            hit("https://a.example", "a again", "second", "x"),
        ],
    )];
    let r = aggregate("q", &outcomes);
    assert_eq!(r.results.len(), 1);
    assert_eq!(r.results[0].url, "https://a.example");
    // first-seen content wins, and the engine is named once
    assert_eq!(r.results[0].title, "a");
    assert_eq!(r.results[0].description, "first");
    assert_eq!(r.results[0].engine_names, vec!["x".to_string()]);
}

#[test]
fn engine_returning_nothing_is_success_not_error() {
    let outcomes = vec![
        ok_outcome("x", vec![]),
        ok_outcome("y", vec![hit("https://a.example", "a", "aa", "y")]),
    ];
    let r = aggregate("q", &outcomes);
    assert_eq!(r.results.len(), 1);
    assert!(r.errors.is_empty());
}
