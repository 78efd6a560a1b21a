//! Models for what the caller hands in with one request: the query
//! parameters of the search URL and the cookie carrying per-user settings.

use crate::config::Style;
use crate::text;
use vstd::prelude::*;

verus! {

/// The parameters of one search request.
#[derive(Debug, Clone, PartialEq)]
pub struct SearchParams {
    /// The search words (`q`), when given.
    pub query: Option<String>,
    /// One-based page number, when given.
    pub page: Option<u32>,
    /// Safe-search level, when given.
    pub safesearch: Option<u8>,
}

/// Per-user settings as the client's cookie carries them.
#[derive(Debug, Clone, PartialEq)]
pub struct Cookie {
    /// Theme name used for the website.
    pub theme: String,
    /// Colorscheme name used for the theme.
    pub colorscheme: String,
    /// Engine names the user selected, kept sorted so equal selections
    /// yield equal cookies.
    pub engines: Vec<String>,
}

impl Cookie {
    /// Builds the cookie value from the style and the user's engine names,
    /// sorting the names into their canonical order.
    pub fn build(style: &Style, engines: Vec<String>) -> (c: Cookie)
        ensures
            c.theme@ == style.theme@,
            c.colorscheme@ == style.colorscheme@,
            text::names_sorted(c.engines@),
            c.engines@.to_multiset() == engines@.to_multiset(),
    {
        let mut engines = engines;
        text::sort_names(&mut engines);
        Cookie {
            theme: style.theme.clone(),
            colorscheme: style.colorscheme.clone(),
            engines,
        }
    }
}

} // verus!
