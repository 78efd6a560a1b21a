//! The search orchestrator: computes the cache signature of a request,
//! serves each page read-through the cache, invokes the aggregation for
//! pages the cache misses, derives the result flags, and warms the pages
//! next to the requested one.

use crate::aggregator;
use crate::cache::Cache;
use crate::cache::CacheView;
use crate::cache::spec_get;
use crate::cache::spec_put;
use crate::cache::spec_put_all;
use crate::engines::Engines;
use crate::engines::spec_selected_names;
use crate::models::EngineOutcome;
use crate::models::EngineOutcomeView;
use crate::models::SearchResults;
use crate::models::SearchResultView;
use crate::models::SearchResultsView;
use crate::models::filtered_flag_law;
use crate::models::results_wf;
use crate::models::unique_urls;
use crate::text;
use vstd::prelude::*;
use vstd::string::StringExecFns;

verus! {

/// The canonical cache signature of one request: normalized query,
/// zero-based page index, and the selected engines in their fixed order.
pub open spec fn spec_cache_key(q: Seq<char>, page: u32, sel: Engines) -> Seq<char> {
    "search?q="@ + q + "&page="@ + text::dec_str(page as nat) + "&engines="@
        + text::joined_names(spec_selected_names(sel))
}

/// Builds the canonical cache signature of a request, so that equal
/// selections yield identical keys whatever order they were given in.
pub fn cache_key(query: &str, page: u32, sel: &Engines) -> (k: String)
    ensures
        k@ == spec_cache_key(query@, page, *sel),
{
    let mut k = String::new();
    k.append("search?q=");
    k.append(query);
    k.append("&page=");
    let p = text::u32_to_dec(page);
    k.append(p.as_str());
    k.append("&engines=");
    let names = sel.selected_names();
    let joined = text::join_names(&names);
    k.append(joined.as_str());
    k
}

/// Different pages of the same query and selection never share a key.
pub proof fn lemma_cache_key_distinct(q: Seq<char>, p1: u32, p2: u32, sel: Engines)
    requires
        p1 != p2,
    ensures
        spec_cache_key(q, p1, sel) != spec_cache_key(q, p2, sel),
{
    let a = "search?q="@ + q + "&page="@;
    let b = "&engines="@ + text::joined_names(spec_selected_names(sel));
    let d1 = text::dec_str(p1 as nat);
    let d2 = text::dec_str(p2 as nat);
    let k1 = spec_cache_key(q, p1, sel);
    let k2 = spec_cache_key(q, p2, sel);
    assert(k1 =~= a + d1 + b);
    assert(k2 =~= a + d2 + b);
    if d1.len() == d2.len() {
        if k1 == k2 {
            assert(d1 =~= d2) by {
                assert(forall|t: int|
                    0 <= t < d1.len() ==> #[trigger] d1[t] == (a + d1 + b)[a.len() + t]);
                assert(forall|t: int|
                    0 <= t < d2.len() ==> #[trigger] d2[t] == (a + d2 + b)[a.len() + t]);
            }
            text::lemma_dec_str_injective(p1 as nat, p2 as nat);
        }
    } else {
        assert(k1.len() != k2.len());
    }
}

/// The query as the orchestrator uses it: trimmed, or nothing when the
/// caller gave none or only whitespace — the redirect-to-home case, which
/// touches neither the cache nor the engines.
pub fn normalize_query(q: &Option<String>) -> (r: Option<String>)
    ensures
        match q {
            None => r is None,
            Some(s) => if text::blank(s@) {
                r is None
            } else {
                r matches Some(t) && t@ == text::trimmed(s@)
            },
        },
{
    match q {
        None => None,
        Some(s) => {
            let t = text::trim_str(s.as_str());
            proof {
                text::lemma_blank_iff_trim_empty(s@);
            }
            if t.as_str().is_empty() {
                None
            } else {
                Some(t)
            }
        },
    }
}

/// The zero-based index of the requested page: pages are numbered from
/// one, an absent or zero number meaning the first page.
pub open spec fn spec_page_index(page_param: Option<u32>) -> u32 {
    match page_param {
        None => 0u32,
        Some(p) => if p <= 1 {
            0u32
        } else {
            (p - 1) as u32
        },
    }
}

/// Computes the zero-based index of the requested page.
pub fn current_page_index(page_param: &Option<u32>) -> (p: u32)
    ensures
        p == spec_page_index(*page_param),
{
    match page_param {
        None => 0,
        Some(p) => if *p <= 1 {
            0
        } else {
            *p - 1
        },
    }
}

/// The page indexes one request resolves, in order: the previous page when
/// the requested one has a meaningful previous page, the requested page,
/// and the next page.
pub open spec fn spec_warm_pages(page: u32) -> Seq<u32> {
    if page > 0 {
        seq![(page - 1) as u32, page, (page + 1) as u32]
    } else {
        seq![page, (page + 1) as u32]
    }
}

/// Computes the pages one request resolves.
pub fn warm_pages(page: u32) -> (v: Vec<u32>)
    requires
        page < u32::MAX,
    ensures
        v@ == spec_warm_pages(page),
{
    let mut v: Vec<u32> = Vec::new();
    if page > 0 {
        v.push(page - 1);
    }
    v.push(page);
    v.push(page + 1);
    proof {
        assert(v@ =~= spec_warm_pages(page));
    }
    v
}

/// The result set with both flags derived: `no_engines_selected` straight
/// from the selection, `filtered` from the error list, the hits, and the
/// selection.
pub open spec fn spec_finalize(v: SearchResultsView, none_selected: bool) -> SearchResultsView {
    SearchResultsView {
        query: v.query,
        results: v.results,
        errors: v.errors,
        no_engines_selected: none_selected,
        filtered: v.errors.len() == 0 && v.results.len() > 0 && !none_selected,
    }
}

fn finalize(r: &mut SearchResults, none_selected: bool)
    ensures
        final(r)@ == spec_finalize(old(r)@, none_selected),
{
    r.no_engines_selected = none_selected;
    let f = r.errors.len() == 0 && r.results.len() > 0 && !none_selected;
    r.filtered = f;
}

/// The placeholder served when the caller selected no engines: the query
/// echoed, no hits, no errors.
pub open spec fn spec_placeholder(q: Seq<char>) -> SearchResultsView {
    SearchResultsView {
        query: q,
        results: Seq::<SearchResultView>::empty(),
        errors: Seq::<crate::models::EngineErrorInfoView>::empty(),
        no_engines_selected: false,
        filtered: false,
    }
}

fn placeholder(query: &str) -> (r: SearchResults)
    ensures
        r@ == spec_placeholder(query@),
{
    let r = SearchResults {
        query: query.to_owned(),
        results: Vec::new(),
        errors: Vec::new(),
        no_engines_selected: false,
        filtered: false,
    };
    proof {
        assert(r@.results =~= spec_placeholder(query@).results);
        assert(r@.errors =~= spec_placeholder(query@).errors);
    }
    r
}

/// The hits and errors of `r` are exactly the aggregation of these
/// outcomes for this query, with both flags derived.
pub open spec fn aggregated_for(
    r: SearchResultsView,
    q: Seq<char>,
    ocs: Seq<EngineOutcomeView>,
    none_selected: bool,
) -> bool {
    &&& r.query == q
    &&& r.errors == aggregator::merged_errors(ocs)
    &&& unique_urls(r.results)
    &&& results_wf(r.results)
    &&& aggregator::sorted_by_len(r.results)
    &&& (forall|k: nat| #[trigger] aggregator::len_filter(r.results, k) == aggregator::len_filter(
        aggregator::merged_entries(ocs),
        k,
    ))
    &&& (forall|x: SearchResultView|
        r.results.contains(x) <==> aggregator::merged_entries(ocs).contains(x))
    &&& r.no_engines_selected == none_selected
    &&& filtered_flag_law(r)
}

/// What serving one page against a cache state must yield: a live entry
/// under the page's key is served with its flags rederived; otherwise the
/// page is built fresh — the no-engines placeholder, or the aggregation of
/// the outcomes — with its flags derived.
pub open spec fn serves_page(
    c0: CacheView,
    q: Seq<char>,
    page: u32,
    sel: Engines,
    ocs: Seq<EngineOutcomeView>,
    now: u64,
    r: SearchResultsView,
) -> bool {
    let key = spec_cache_key(q, page, sel);
    let none = spec_selected_names(sel).len() == 0;
    match spec_get(c0, key, now) {
        Some(v) => r == spec_finalize(v, none),
        None => if none {
            r == spec_finalize(spec_placeholder(q), true)
        } else {
            aggregated_for(r, q, ocs, none)
        },
    }
}

/// How one page resolves against a cache state: it is served as
/// `serves_page` says, and the cache is untouched on a hit while a miss
/// writes the fresh result back under the page's key.
pub open spec fn resolves_page(
    c0: CacheView,
    q: Seq<char>,
    page: u32,
    sel: Engines,
    ocs: Seq<EngineOutcomeView>,
    now: u64,
    r: SearchResultsView,
    c1: CacheView,
) -> bool {
    let key = spec_cache_key(q, page, sel);
    &&& serves_page(c0, q, page, sel, ocs, now, r)
    &&& c1 == if spec_get(c0, key, now) is Some {
        c0
    } else {
        spec_put(c0, key, r, now)
    }
}

/// Resolves one page of one query read-through the cache: a cache hit is
/// served directly, a miss is aggregated from the given outcomes (or the
/// no-engines placeholder) and written back. Returns the page's results,
/// their flags derived, together with the page's cache key.
pub fn results(
    cache: &mut Cache,
    query: &str,
    page: u32,
    sel: &Engines,
    outcomes: &Vec<EngineOutcome>,
    now: u64,
) -> (r: (SearchResults, String))
    requires
        old(cache).wf(),
        aggregator::outcomes_wf(outcomes.deep_view()),
    ensures
        final(cache).wf(),
        final(cache)@.ttl == old(cache)@.ttl,
        r.1@ == spec_cache_key(query@, page, *sel),
        r.0@.no_engines_selected == (spec_selected_names(*sel).len() == 0),
        filtered_flag_law(r.0@),
        resolves_page(
            old(cache)@,
            query@,
            page,
            *sel,
            outcomes.deep_view(),
            now,
            r.0@,
            final(cache)@,
        ),
{
    let key = cache_key(query, page, sel);
    let none = sel.none_selected();
    match cache.cached_results(key.as_str(), now) {
        Some(v) => {
            let mut v = v;
            finalize(&mut v, none);
            (v, key)
        },
        None => {
            let mut fresh = if none {
                placeholder(query)
            } else {
                aggregator::aggregate(query, outcomes)
            };
            finalize(&mut fresh, none);
            let mut keys: Vec<String> = Vec::new();
            keys.push(key.clone());
            let mut vals: Vec<SearchResults> = Vec::new();
            vals.push(fresh.duplicate());
            cache.cache_results(&vals, &keys, now);
            proof {
                assert(keys.deep_view().len() == 1);
                assert(vals.deep_view().len() == 1);
                assert(keys.deep_view().last() == key@);
                assert(vals.deep_view().last() == fresh@);
                assert(spec_put_all(
                    old(cache)@,
                    keys.deep_view().drop_last(),
                    vals.deep_view().drop_last(),
                    now,
                ) == old(cache)@);
                assert(spec_put_all(
                    old(cache)@,
                    keys.deep_view(),
                    vals.deep_view(),
                    now,
                ) == spec_put(old(cache)@, key@, fresh@, now));
            }
            (fresh, key)
        },
    }
}

/// Where the requested page stands in `spec_warm_pages`.
pub open spec fn spec_current_slot(page: u32) -> int {
    if page > 0 {
        1int
    } else {
        0int
    }
}

/// A key live at clock `now` stays live over a same-clock write, and the
/// written key itself becomes live, while the lifetime is positive.
proof fn lemma_put_keeps_live(
    c: CacheView,
    k: Seq<char>,
    k2: Seq<char>,
    v: SearchResultsView,
    now: u64,
)
    requires
        c.ttl > 0,
        now < u64::MAX,
        spec_get(c, k, now) is Some || k == k2,
    ensures
        spec_get(spec_put(c, k2, v, now), k, now) is Some,
{
}

/// Resolves one search request: the requested page is served read-through
/// the cache, and its neighboring pages are resolved in the same pass to
/// warm the cache for forward and backward navigation. `outcomes` holds,
/// for each page of `spec_warm_pages`, the engine outcomes to aggregate
/// should that page miss the cache. Returns the requested page's results
/// and its cache key.
pub fn search(
    cache: &mut Cache,
    query: &str,
    page: u32,
    sel: &Engines,
    outcomes: &Vec<Vec<EngineOutcome>>,
    now: u64,
) -> (r: (SearchResults, String))
    requires
        old(cache).wf(),
        page < u32::MAX,
        outcomes@.len() == spec_warm_pages(page).len(),
        forall|i: int|
            0 <= i < outcomes@.len() ==> aggregator::outcomes_wf(
                (#[trigger] outcomes@[i]).deep_view(),
            ),
    ensures
        final(cache).wf(),
        final(cache)@.ttl == old(cache)@.ttl,
        r.1@ == spec_cache_key(query@, page, *sel),
        r.0@.no_engines_selected == (spec_selected_names(*sel).len() == 0),
        filtered_flag_law(r.0@),
        serves_page(
            old(cache)@,
            query@,
            page,
            *sel,
            outcomes@[spec_current_slot(page)].deep_view(),
            now,
            r.0@,
        ),
        old(cache)@.ttl > 0 && now < u64::MAX ==> forall|t: int|
            0 <= t < spec_warm_pages(page).len() ==> spec_get(
                final(cache)@,
                spec_cache_key(query@, spec_warm_pages(page)[t], *sel),
                now,
            ) is Some,
        old(cache)@.ttl > 0 && now < u64::MAX ==> match spec_get(final(cache)@, r.1@, now) {
            Some(v) => spec_finalize(v, spec_selected_names(*sel).len() == 0) == r.0@,
            None => false,
        },
{
    let pages = warm_pages(page);
    let cur: usize = if page > 0 {
        1
    } else {
        0
    };
    let ghost c0 = cache@;
    let ghost warm = spec_warm_pages(page);
    let ghost none = spec_selected_names(*sel).len() == 0;
    let ghost key_cur = spec_cache_key(query@, page, *sel);
    let (res, key) = results(cache, query, page, sel, &outcomes[cur], now);
    proof {
        if c0.ttl > 0 && now < u64::MAX {
            if spec_get(c0, key_cur, now) is Some {
            } else {
                lemma_put_keeps_live(c0, key_cur, key_cur, res@, now);
            }
        }
    }
    let mut i: usize = 0;
    while i < pages.len()
        invariant
            pages@ == warm,
            warm == spec_warm_pages(page),
            i <= pages@.len(),
            outcomes@.len() == pages@.len(),
            cur < pages@.len(),
            cur as int == spec_current_slot(page),
            pages@[cur as int] == page,
            page < u32::MAX,
            forall|t: int|
                0 <= t < outcomes@.len() ==> aggregator::outcomes_wf(
                    (#[trigger] outcomes@[t]).deep_view(),
                ),
            cache.wf(),
            cache@.ttl == c0.ttl,
            key_cur == spec_cache_key(query@, page, *sel),
            none == (spec_selected_names(*sel).len() == 0),
            c0.ttl > 0 && now < u64::MAX ==> spec_get(cache@, key_cur, now) is Some,
            c0.ttl > 0 && now < u64::MAX ==> match spec_get(cache@, key_cur, now) {
                Some(v) => spec_finalize(v, none) == res@,
                None => false,
            },
            c0.ttl > 0 && now < u64::MAX ==> forall|t: int|
                0 <= t < i && t != cur as int ==> spec_get(
                    cache@,
                    spec_cache_key(query@, warm[t], *sel),
                    now,
                ) is Some,
        decreases pages@.len() - i,
    {
        if i != cur {
            let ghost cpre = cache@;
            let ghost key_i = spec_cache_key(query@, warm[i as int], *sel);
            let wres = results(cache, query, pages[i], sel, &outcomes[i], now);
            proof {
                assert(warm[i as int] != page) by {
                    if page > 0 {
                        assert(warm =~= seq![(page - 1) as u32, page, (page + 1) as u32]);
                    } else {
                        assert(warm =~= seq![page, (page + 1) as u32]);
                    }
                }
                lemma_cache_key_distinct(query@, warm[i as int], page, *sel);
                assert(key_i != key_cur);
                if c0.ttl > 0 && now < u64::MAX {
                    if spec_get(cpre, key_i, now) is Some {
                        assert(cache@ == cpre);
                    } else {
                        assert(cache@ == spec_put(cpre, key_i, wres.0@, now));
                        lemma_put_keeps_live(cpre, key_i, key_i, wres.0@, now);
                        assert(spec_get(cache@, key_cur, now) == spec_get(cpre, key_cur, now));
                        assert forall|t: int| 0 <= t < i && t != cur as int implies spec_get(
                            cache@,
                            spec_cache_key(query@, warm[t], *sel),
                            now,
                        ) is Some by {
                            let kt = spec_cache_key(query@, warm[t], *sel);
                            assert(spec_get(cpre, kt, now) is Some);
                            lemma_put_keeps_live(cpre, kt, key_i, wres.0@, now);
                        }
                    }
                }
            }
        }
        i += 1;
    }
    proof {
        assert forall|t: int|
            c0.ttl > 0 && now < u64::MAX && 0 <= t < warm.len() implies spec_get(
            cache@,
            spec_cache_key(query@, warm[t], *sel),
            now,
        ) is Some by {
            if t == cur as int {
                assert(warm[t] == page);
            }
        }
    }
    (res, key)
}

} // verus!
