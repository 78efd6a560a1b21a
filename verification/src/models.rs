//! Data model of the aggregation core: merged search hits, per-engine error
//! reports, the outcome of one engine call, and the aggregated result set
//! handed back to the caller.

use vstd::prelude::*;

verus! {

/// The way one upstream engine call failed.
#[derive(Clone, Copy, Debug, PartialEq, Eq, Structural)]
pub enum EngineErrorKind {
    /// The request could not be carried to the upstream at all.
    Network,
    /// The upstream did not answer within the configured timeout.
    Timeout,
    /// The upstream answered with a non-success HTTP status.
    UpstreamStatus,
    /// The upstream answer could not be parsed into results.
    Parse,
}

/// One search hit; within one result set the `url` identifies it uniquely.
#[derive(Debug, Clone, PartialEq)]
pub struct SearchResult {
    /// Address of the hit; the identity key during merging.
    pub url: String,
    /// Title shown for the hit.
    pub title: String,
    /// Description shown for the hit; its length drives the result order.
    pub description: String,
    /// Names of the upstream engines that produced this hit, without
    /// duplicates and never empty.
    pub engine_names: Vec<String>,
}

/// Mathematical image of a [`SearchResult`].
pub struct SearchResultView {
    pub url: Seq<char>,
    pub title: Seq<char>,
    pub description: Seq<char>,
    pub engine_names: Seq<Seq<char>>,
}

impl View for SearchResult {
    type V = SearchResultView;

    open spec fn view(&self) -> SearchResultView {
        SearchResultView {
            url: self.url@,
            title: self.title@,
            description: self.description@,
            engine_names: self.engine_names.deep_view(),
        }
    }
}

impl DeepView for SearchResult {
    type V = SearchResultView;

    open spec fn deep_view(&self) -> SearchResultView {
        self.view()
    }
}

/// Error report for one engine whose call failed; engines that merely
/// returned zero results produce no report.
#[derive(Debug, Clone, PartialEq)]
pub struct EngineErrorInfo {
    /// Name of the engine whose call failed.
    pub engine_name: String,
    /// What went wrong.
    pub error_kind: EngineErrorKind,
}

/// Mathematical image of an [`EngineErrorInfo`].
pub struct EngineErrorInfoView {
    pub engine_name: Seq<char>,
    pub error_kind: EngineErrorKind,
}

impl View for EngineErrorInfo {
    type V = EngineErrorInfoView;

    open spec fn view(&self) -> EngineErrorInfoView {
        EngineErrorInfoView { engine_name: self.engine_name@, error_kind: self.error_kind }
    }
}

impl DeepView for EngineErrorInfo {
    type V = EngineErrorInfoView;

    open spec fn deep_view(&self) -> EngineErrorInfoView {
        self.view()
    }
}

/// What one engine call came back with: an ordered list of `(url, result)`
/// pairs on success, or the kind of failure.
#[derive(Debug, PartialEq)]
pub struct EngineOutcome {
    /// Name of the engine that was called.
    pub engine_name: String,
    /// The pairs it returned, or how it failed.
    pub outcome: Result<Vec<(String, SearchResult)>, EngineErrorKind>,
}

/// Mathematical image of an [`EngineOutcome`].
pub struct EngineOutcomeView {
    pub engine_name: Seq<char>,
    pub outcome: Result<Seq<(Seq<char>, SearchResultView)>, EngineErrorKind>,
}

impl View for EngineOutcome {
    type V = EngineOutcomeView;

    open spec fn view(&self) -> EngineOutcomeView {
        EngineOutcomeView {
            engine_name: self.engine_name@,
            outcome: match self.outcome {
                Ok(pairs) => Ok(pairs.deep_view()),
                Err(kind) => Err(kind),
            },
        }
    }
}

impl DeepView for EngineOutcome {
    type V = EngineOutcomeView;

    open spec fn deep_view(&self) -> EngineOutcomeView {
        self.view()
    }
}

/// The aggregated answer to one query and page: the merged, ordered hits,
/// the per-engine failures, and two flags the caller renders from.
#[derive(Debug, Clone, PartialEq)]
pub struct SearchResults {
    /// Echo of the query, so the caller can repopulate its search bar.
    pub query: String,
    /// Merged hits, no two sharing a `url`, ordered by description length.
    pub results: Vec<SearchResult>,
    /// One report per engine whose call failed.
    pub errors: Vec<EngineErrorInfo>,
    /// True when the caller had selected no engines at all.
    pub no_engines_selected: bool,
    /// True when engines were selected, every one succeeded, and at least
    /// one hit came back.
    pub filtered: bool,
}

/// Mathematical image of a [`SearchResults`].
pub struct SearchResultsView {
    pub query: Seq<char>,
    pub results: Seq<SearchResultView>,
    pub errors: Seq<EngineErrorInfoView>,
    pub no_engines_selected: bool,
    pub filtered: bool,
}

impl View for SearchResults {
    type V = SearchResultsView;

    open spec fn view(&self) -> SearchResultsView {
        SearchResultsView {
            query: self.query@,
            results: self.results.deep_view(),
            errors: self.errors.deep_view(),
            no_engines_selected: self.no_engines_selected,
            filtered: self.filtered,
        }
    }
}

impl DeepView for SearchResults {
    type V = SearchResultsView;

    open spec fn deep_view(&self) -> SearchResultsView {
        self.view()
    }
}

/// The empty result set: everything empty, both flags off.
pub open spec fn empty_results_view() -> SearchResultsView {
    SearchResultsView {
        query: Seq::<char>::empty(),
        results: Seq::<SearchResultView>::empty(),
        errors: Seq::<EngineErrorInfoView>::empty(),
        no_engines_selected: false,
        filtered: false,
    }
}

/// No two hits share a `url`.
pub open spec fn unique_urls(results: Seq<SearchResultView>) -> bool {
    forall|i: int, j: int|
        0 <= i < j < results.len() ==> #[trigger] results[i].url != #[trigger] results[j].url
}

/// A single hit is well formed: attributed to at least one engine, each
/// engine named once.
pub open spec fn result_wf(r: SearchResultView) -> bool {
    &&& r.engine_names.len() > 0
    &&& r.engine_names.no_duplicates()
}

/// Every hit of the sequence is well formed.
pub open spec fn results_wf(results: Seq<SearchResultView>) -> bool {
    forall|i: int| 0 <= i < results.len() ==> result_wf(#[trigger] results[i])
}

/// The law of the `filtered` flag: set exactly when no engine failed, at
/// least one hit came back, and engines were selected.
pub open spec fn filtered_flag_law(v: SearchResultsView) -> bool {
    v.filtered == (v.errors.len() == 0 && v.results.len() > 0 && !v.no_engines_selected)
}

impl SearchResult {
    /// A copy whose mathematical image equals this one's.
    pub fn duplicate(&self) -> (r: Self)
        ensures
            r@ == self@,
    {
        let r = SearchResult {
            url: self.url.clone(),
            title: self.title.clone(),
            description: self.description.clone(),
            engine_names: crate::text::clone_names(&self.engine_names),
        };
        r
    }
}

impl EngineErrorInfo {
    /// A copy whose mathematical image equals this one's.
    pub fn duplicate(&self) -> (r: Self)
        ensures
            r@ == self@,
    {
        EngineErrorInfo { engine_name: self.engine_name.clone(), error_kind: self.error_kind }
    }
}

/// A fresh vector of copies of the given hits, image for image.
pub fn clone_results(v: &Vec<SearchResult>) -> (r: Vec<SearchResult>)
    ensures
        r.deep_view() == v.deep_view(),
{
    let mut r: Vec<SearchResult> = Vec::new();
    let mut i: usize = 0;
    while i < v.len()
        invariant
            i <= v@.len(),
            r@.len() == i,
            forall|k: int| 0 <= k < i ==> r@[k]@ == v@[k]@,
        decreases v@.len() - i,
    {
        let x = v[i].duplicate();
        r.push(x);
        i += 1;
    }
    proof {
        assert(r.deep_view() =~= v.deep_view());
    }
    r
}

/// A fresh vector of copies of the given error reports, image for image.
pub fn clone_errors(v: &Vec<EngineErrorInfo>) -> (r: Vec<EngineErrorInfo>)
    ensures
        r.deep_view() == v.deep_view(),
{
    let mut r: Vec<EngineErrorInfo> = Vec::new();
    let mut i: usize = 0;
    while i < v.len()
        invariant
            i <= v@.len(),
            r@.len() == i,
            forall|k: int| 0 <= k < i ==> r@[k]@ == v@[k]@,
        decreases v@.len() - i,
    {
        let x = v[i].duplicate();
        r.push(x);
        i += 1;
    }
    proof {
        assert(r.deep_view() =~= v.deep_view());
    }
    r
}

impl SearchResults {
    /// A copy whose mathematical image equals this one's.
    pub fn duplicate(&self) -> (r: Self)
        ensures
            r@ == self@,
    {
        let r = SearchResults {
            query: self.query.clone(),
            results: clone_results(&self.results),
            errors: clone_errors(&self.errors),
            no_engines_selected: self.no_engines_selected,
            filtered: self.filtered,
        };
        r
    }
}

impl Default for SearchResults {
    /// An empty result set, used as the placeholder before flags are derived.
    fn default() -> (r: Self)
        ensures
            r@ == empty_results_view(),
    {
        let r = SearchResults {
            query: String::new(),
            results: Vec::new(),
            errors: Vec::new(),
            no_engines_selected: false,
            filtered: false,
        };
        proof {
            assert(r@.results =~= empty_results_view().results);
            assert(r@.errors =~= empty_results_view().errors);
        }
        r
    }
}

} // verus!
