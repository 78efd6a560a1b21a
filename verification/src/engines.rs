//! The engine registry: resolves the caller's selection of upstream engines
//! into the ordered list of engine names the aggregator fans out to.

use vstd::prelude::*;

verus! {

/// Which upstream engines are selected, one flag per known engine.
#[derive(Debug, Clone, Copy, PartialEq, Eq, Structural)]
pub struct Engines {
    pub bing: bool,
    pub brave: bool,
    pub duckduckgo: bool,
    pub librex: bool,
    pub mojeek: bool,
    pub search_result_parser: bool,
    pub searx: bool,
    pub startpage: bool,
}

/// The selection with every engine enabled.
pub open spec fn all_engines() -> Engines {
    Engines {
        bing: true,
        brave: true,
        duckduckgo: true,
        librex: true,
        mojeek: true,
        search_result_parser: true,
        searx: true,
        startpage: true,
    }
}

/// The names the registry resolves a selection to, in its fixed order.
/// The `search_result_parser` flag names no callable engine and resolves
/// to nothing.
pub open spec fn spec_selected_names(e: Engines) -> Seq<Seq<char>> {
    let s = Seq::<Seq<char>>::empty();
    let s = if e.duckduckgo {
        s.push("duckduckgo"@)
    } else {
        s
    };
    let s = if e.searx {
        s.push("searx"@)
    } else {
        s
    };
    let s = if e.brave {
        s.push("brave"@)
    } else {
        s
    };
    let s = if e.startpage {
        s.push("startpage"@)
    } else {
        s
    };
    let s = if e.librex {
        s.push("librex"@)
    } else {
        s
    };
    let s = if e.mojeek {
        s.push("mojeek"@)
    } else {
        s
    };
    if e.bing {
        s.push("bing"@)
    } else {
        s
    }
}

impl Default for Engines {
    /// Every engine selected.
    fn default() -> (r: Self)
        ensures
            r == all_engines(),
    {
        Engines {
            bing: true,
            brave: true,
            duckduckgo: true,
            librex: true,
            mojeek: true,
            search_result_parser: true,
            searx: true,
            startpage: true,
        }
    }
}

impl Engines {
    /// Resolves the selection into the ordered list of engine names to call;
    /// disabled engines are silently absent, never an error.
    pub fn selected_names(&self) -> (v: Vec<String>)
        ensures
            v.deep_view() == spec_selected_names(*self),
    {
        let mut v: Vec<String> = Vec::new();
        if self.duckduckgo {
            v.push("duckduckgo".to_owned());
        }
        if self.searx {
            v.push("searx".to_owned());
        }
        if self.brave {
            v.push("brave".to_owned());
        }
        if self.startpage {
            v.push("startpage".to_owned());
        }
        if self.librex {
            v.push("librex".to_owned());
        }
        if self.mojeek {
            v.push("mojeek".to_owned());
        }
        if self.bing {
            v.push("bing".to_owned());
        }
        proof {
            assert(v.deep_view() =~= spec_selected_names(*self));
        }
        v
    }

    /// Whether the selection resolves to no callable engine at all.
    pub fn none_selected(&self) -> (b: bool)
        ensures
            b == (spec_selected_names(*self).len() == 0),
    {
        !(self.duckduckgo || self.searx || self.brave || self.startpage || self.librex
            || self.mojeek || self.bing)
    }
}

} // verus!
