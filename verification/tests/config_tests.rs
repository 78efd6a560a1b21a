use crabbysearch::config::Config;
use crabbysearch::config::Style;
use crabbysearch::engines::Engines;
use crabbysearch::server_models::Cookie;
use crabbysearch::text::join_names;
use crabbysearch::text::sort_names;
use crabbysearch::text::str_eq;
use crabbysearch::text::str_le;
use crabbysearch::text::trim_str;
use crabbysearch::text::u32_to_dec;

#[test]
fn config_defaults_match_the_documented_values() {
    let c = Config::default();
    assert_eq!(c.port, 8080);
    assert_eq!(c.binding_ip, "127.0.0.1");
    assert_eq!(c.style.theme, "simple");
    assert_eq!(c.style.colorscheme, "catppuccin-mocha");
    assert_eq!(c.style.animation, Some("simple-frosted-glow".to_string()));
    assert_eq!(c.cache_expiry_time, 600);
    assert!(c.logging);
    assert!(!c.debug);
    assert!(!c.adaptive_window);
    assert_eq!(
        c.upstream_search_engines,
        vec!["bing".to_string(), "brave".to_string()]
    );
    assert_eq!(c.request_timeout, 2);
    assert_eq!(c.tcp_connection_keep_alive, 10);
    assert_eq!(c.pool_idle_connection_timeout, 30);
}

#[test]
fn all_engines_are_selected_by_default() {
    let e = Engines::default();
    assert!(e.bing && e.brave && e.duckduckgo && e.librex);
    assert!(e.mojeek && e.search_result_parser && e.searx && e.startpage);
    assert!(!e.none_selected());
}

#[test]
fn registry_resolves_names_in_its_fixed_order() {
    let e = Engines::default();
    assert_eq!(
        e.selected_names(),
        vec![
            "duckduckgo".to_string(),
            "searx".to_string(),
            "brave".to_string(),
            "startpage".to_string(),
            "librex".to_string(),
            "mojeek".to_string(),
            "bing".to_string(),
        ]
    );
}

#[test]
fn disabled_engines_are_silently_absent() {
    let mut e = Engines::default();
    e.searx = false;
    e.librex = false;
    let names = e.selected_names();
    assert_eq!(names.len(), 5);
    assert!(!names.contains(&"searx".to_string()));
    assert!(!names.contains(&"librex".to_string()));
}

#[test]
fn the_parser_flag_names_no_engine() {
    let mut e = Engines::default();
    e.bing = false;
    e.brave = false;
    e.duckduckgo = false;
    e.librex = false;
    e.mojeek = false;
    e.searx = false;
    e.startpage = false;
    assert!(e.search_result_parser);
    assert!(e.selected_names().is_empty());
    assert!(e.none_selected());
}

#[test]
fn cookie_build_sorts_the_engine_names() {
    let style = Style {
        theme: "simple".to_string(),
        colorscheme: "catppuccin-mocha".to_string(),
        animation: None,
    };
    let engines = vec![
        "searx".to_string(),
        "bing".to_string(),
        "duckduckgo".to_string(),
    ];
    let cookie = Cookie::build(&style, engines);
    assert_eq!(cookie.theme, "simple");
    assert_eq!(cookie.colorscheme, "catppuccin-mocha");
    assert_eq!(
        cookie.engines,
        vec![
            "bing".to_string(),
            "duckduckgo".to_string(),
            "searx".to_string(),
        ]
    );
}

#[test]
fn decimal_rendering_is_exact() {
    assert_eq!(u32_to_dec(0), "0");
    assert_eq!(u32_to_dec(7), "7");
    assert_eq!(u32_to_dec(10), "10");
    assert_eq!(u32_to_dec(305), "305");
    assert_eq!(u32_to_dec(u32::MAX), "4294967295");
}

#[test]
fn string_helpers_behave_like_std() {
    assert!(str_eq("abc", "abc"));
    assert!(!str_eq("abc", "abd"));
    assert!(!str_eq("abc", "ab"));
    assert!(str_le("abc", "abd"));
    assert!(str_le("ab", "abc"));
    assert!(!str_le("b", "abc"));
    assert_eq!(trim_str("  sweden \t"), "sweden");
    assert_eq!(trim_str("\n"), "");
    assert_eq!(trim_str("a b"), "a b");
}

#[test]
fn sort_names_orders_and_keeps_every_name() {
    let mut names = vec![
        "mojeek".to_string(),
        "bing".to_string(),
        "startpage".to_string(),
        "bing".to_string(),
    ];
    sort_names(&mut names);
    assert_eq!(
        names,
        vec![
            "bing".to_string(),
            "bing".to_string(),
            "mojeek".to_string(),
            "startpage".to_string(),
        ]
    );
    assert_eq!(join_names(&names), "bing,bing,mojeek,startpage");
}
