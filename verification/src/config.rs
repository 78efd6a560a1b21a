//! Server configuration carried into the core: cache lifetime, HTTP client
//! knobs, theming, and the engine names enabled by the server.

use vstd::prelude::*;

verus! {

/// Theming options for the website.
#[derive(Debug, Clone, PartialEq)]
pub struct Style {
    /// Theme name.
    pub theme: String,
    /// Colorscheme name for the theme.
    pub colorscheme: String,
    /// Animation name for the theme, when one is set.
    pub animation: Option<String>,
}

impl Default for Style {
    /// A style with empty names and no animation.
    fn default() -> (r: Self)
        ensures
            r.theme@.len() == 0,
            r.colorscheme@.len() == 0,
            r.animation is None,
    {
        Style { theme: String::new(), colorscheme: String::new(), animation: None }
    }
}

/// Parsed server configuration options.
#[derive(Debug, Clone, PartialEq)]
pub struct Config {
    /// Port the server should listen on.
    pub port: u16,
    /// Address the server should bind to.
    pub binding_ip: String,
    /// Theming options for the website.
    pub style: Style,
    /// Seconds a cache entry lives after it is written.
    pub cache_expiry_time: u64,
    /// Whether logging is enabled.
    pub logging: bool,
    /// Whether debug mode is enabled.
    pub debug: bool,
    /// Whether the HTTP client uses an adaptive HTTP/2 window.
    pub adaptive_window: bool,
    /// Engine names enabled by the server configuration.
    pub upstream_search_engines: Vec<String>,
    /// Seconds before an upstream request times out; also used as the
    /// connect timeout.
    pub request_timeout: u8,
    /// Seconds of TCP keepalive on upstream connections.
    pub tcp_connection_keep_alive: u8,
    /// Seconds an idle upstream connection stays pooled.
    pub pool_idle_connection_timeout: u8,
}

impl Default for Config {
    /// The built-in defaults, used when the environment overrides nothing.
    fn default() -> (r: Self)
        ensures
            r.port == 8080,
            r.binding_ip@ == "127.0.0.1"@,
            r.style.theme@ == "simple"@,
            r.style.colorscheme@ == "catppuccin-mocha"@,
            r.style.animation matches Some(a) && a@ == "simple-frosted-glow"@,
            r.cache_expiry_time == 600,
            r.logging,
            !r.debug,
            !r.adaptive_window,
            r.upstream_search_engines.deep_view() =~= seq!["bing"@, "brave"@],
            r.request_timeout == 2,
            r.tcp_connection_keep_alive == 10,
            r.pool_idle_connection_timeout == 30,
    {
        let mut engines: Vec<String> = Vec::new();
        engines.push("bing".to_owned());
        engines.push("brave".to_owned());
        proof {
            assert(engines.deep_view() =~= seq!["bing"@, "brave"@]);
        }
        Config {
            port: 8080,
            binding_ip: "127.0.0.1".to_owned(),
            style: Style {
                theme: "simple".to_owned(),
                colorscheme: "catppuccin-mocha".to_owned(),
                animation: Some("simple-frosted-glow".to_owned()),
            },
            cache_expiry_time: 600,
            logging: true,
            debug: false,
            adaptive_window: false,
            upstream_search_engines: engines,
            request_timeout: 2,
            tcp_connection_keep_alive: 10,
            pool_idle_connection_timeout: 30,
        }
    }
}

/// Options for a rate limiting middleware in front of the server.
#[derive(Debug, Clone, Copy, PartialEq, Eq, Structural)]
pub struct RateLimiter {
    /// Requests allowed within the time limit.
    pub number_of_requests: u8,
    /// Seconds in which that many requests are accepted.
    pub time_limit: u8,
}

} // verus!
