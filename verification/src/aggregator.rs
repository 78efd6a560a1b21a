//! The aggregator: merges what the selected engines returned for one query,
//! removing duplicate hits while keeping every engine's attribution, turns
//! failures into error reports, and orders the merged hits by description
//! length with a stable sort.

use crate::models::EngineErrorInfo;
use crate::models::EngineErrorInfoView;
use crate::models::EngineOutcome;
use crate::models::EngineOutcomeView;
use crate::models::SearchResult;
use crate::models::SearchResultView;
use crate::models::SearchResults;
use crate::models::results_wf;
use crate::models::result_wf;
use crate::models::unique_urls;
use vstd::prelude::*;

verus! {

/// Whether some hit of the sequence carries this url.
pub open spec fn has_url(rs: Seq<SearchResultView>, url: Seq<char>) -> bool {
    exists|i: int| 0 <= i < rs.len() && rs[i].url == url
}

/// The position of the hit carrying this url.
pub open spec fn url_index(rs: Seq<SearchResultView>, url: Seq<char>) -> int {
    choose|i: int| 0 <= i < rs.len() && rs[i].url == url
}

/// When urls are unique, any position whose hit carries the url is the one
/// `url_index` names.
pub proof fn lemma_url_index_unique(rs: Seq<SearchResultView>, url: Seq<char>, i: int)
    requires
        unique_urls(rs),
        0 <= i < rs.len(),
        rs[i].url == url,
    ensures
        has_url(rs, url),
        url_index(rs, url) == i,
{
    assert(has_url(rs, url));
    let j = url_index(rs, url);
    if i < j {
        assert(rs[i].url != rs[j].url);
    } else if j < i {
        assert(rs[j].url != rs[i].url);
    }
}

/// The names of `a` followed by those names of `b` not already present.
pub open spec fn union_names(a: Seq<Seq<char>>, b: Seq<Seq<char>>) -> Seq<Seq<char>>
    decreases b.len(),
{
    if b.len() == 0 {
        a
    } else {
        let u = union_names(a, b.drop_last());
        if u.contains(b.last()) {
            u
        } else {
            u.push(b.last())
        }
    }
}

/// The union keeps names unique, loses none of either side, and invents
/// none.
pub proof fn lemma_union_names_props(a: Seq<Seq<char>>, b: Seq<Seq<char>>)
    requires
        a.no_duplicates(),
    ensures
        union_names(a, b).no_duplicates(),
        union_names(a, b).len() >= a.len(),
        forall|x: Seq<char>| union_names(a, b).contains(x) <==> a.contains(x) || b.contains(x),
    decreases b.len(),
{
    if b.len() == 0 {
    } else {
        lemma_union_names_props(a, b.drop_last());
        let u = union_names(a, b.drop_last());
        let w = union_names(a, b);
        assert forall|x: Seq<char>| b.contains(x) <==> b.drop_last().contains(x) || x == b.last() by {
            if b.contains(x) {
                let t = choose|t: int| 0 <= t < b.len() && b[t] == x;
                if t < b.len() - 1 {
                    assert(b.drop_last()[t] == x);
                }
            }
            if b.drop_last().contains(x) {
                let t = choose|t: int| 0 <= t < b.drop_last().len() && b.drop_last()[t] == x;
                assert(b[t] == x);
            }
            if x == b.last() {
                assert(b[b.len() - 1] == x);
            }
        }
        if u.contains(b.last()) {
        } else {
            assert forall|x: Seq<char>| w.contains(x) <==> u.contains(x) || x == b.last() by {
                if w.contains(x) {
                    let t = choose|t: int| 0 <= t < w.len() && w[t] == x;
                    if t < w.len() - 1 {
                        assert(u[t] == x);
                    }
                }
                if u.contains(x) {
                    let t = choose|t: int| 0 <= t < u.len() && u[t] == x;
                    assert(w[t] == x);
                }
                if x == b.last() {
                    assert(w[w.len() - 1] == x);
                }
            }
            assert forall|s: int, t: int| 0 <= s < t < w.len() implies w[s] != w[t] by {
                if t < w.len() - 1 {
                    assert(u[s] != u[t]);
                } else {
                    assert(w[s] == u[s]);
                    assert(u.contains(u[s]));
                }
            }
        }
    }
}

/// One returned pair merged into the accumulator: a known url unions the
/// attribution into the existing hit and keeps its first-seen content; a
/// new url appends the hit.
pub open spec fn merge_pair(
    acc: Seq<SearchResultView>,
    pair: (Seq<char>, SearchResultView),
) -> Seq<SearchResultView> {
    if has_url(acc, pair.0) {
        let i = url_index(acc, pair.0);
        acc.update(
            i,
            SearchResultView {
                url: acc[i].url,
                title: acc[i].title,
                description: acc[i].description,
                engine_names: union_names(acc[i].engine_names, pair.1.engine_names),
            },
        )
    } else {
        acc.push(pair.1)
    }
}

/// A list of returned pairs merged into the accumulator, first pair first.
pub open spec fn merge_pairs(
    acc: Seq<SearchResultView>,
    pairs: Seq<(Seq<char>, SearchResultView)>,
) -> Seq<SearchResultView>
    decreases pairs.len(),
{
    if pairs.len() == 0 {
        acc
    } else {
        merge_pair(merge_pairs(acc, pairs.drop_last()), pairs.last())
    }
}

/// The merged hits of all outcomes, in completion order; failed outcomes
/// contribute nothing here.
pub open spec fn merged_entries(outcomes: Seq<EngineOutcomeView>) -> Seq<SearchResultView>
    decreases outcomes.len(),
{
    if outcomes.len() == 0 {
        Seq::<SearchResultView>::empty()
    } else {
        match outcomes.last().outcome {
            Ok(pairs) => merge_pairs(merged_entries(outcomes.drop_last()), pairs),
            Err(_) => merged_entries(outcomes.drop_last()),
        }
    }
}

/// One error report per failed outcome, in completion order; successful
/// outcomes contribute nothing here.
pub open spec fn merged_errors(outcomes: Seq<EngineOutcomeView>) -> Seq<EngineErrorInfoView>
    decreases outcomes.len(),
{
    if outcomes.len() == 0 {
        Seq::<EngineErrorInfoView>::empty()
    } else {
        let rest = merged_errors(outcomes.drop_last());
        match outcomes.last().outcome {
            Ok(_) => rest,
            Err(kind) => rest.push(
                EngineErrorInfoView {
                    engine_name: outcomes.last().engine_name,
                    error_kind: kind,
                },
            ),
        }
    }
}

/// A returned pair is keyed by its hit's own url, and the hit is well
/// formed.
pub open spec fn pairs_wf(pairs: Seq<(Seq<char>, SearchResultView)>) -> bool {
    forall|i: int|
        0 <= i < pairs.len() ==> (#[trigger] pairs[i]).1.url == pairs[i].0 && result_wf(
            pairs[i].1,
        )
}

/// What one outcome returned is well formed.
pub open spec fn outcome_wf(o: EngineOutcomeView) -> bool {
    match o.outcome {
        Ok(pairs) => pairs_wf(pairs),
        Err(_) => true,
    }
}

/// Every outcome handed to the aggregator is well formed.
pub open spec fn outcomes_wf(ocs: Seq<EngineOutcomeView>) -> bool {
    forall|i: int| 0 <= i < ocs.len() ==> outcome_wf(#[trigger] ocs[i])
}

/// Merging one well-formed pair keeps the accumulator's urls unique and its
/// hits well formed.
pub proof fn lemma_merge_pair_wf(acc: Seq<SearchResultView>, pair: (Seq<char>, SearchResultView))
    requires
        unique_urls(acc),
        results_wf(acc),
        pair.1.url == pair.0,
        result_wf(pair.1),
    ensures
        unique_urls(merge_pair(acc, pair)),
        results_wf(merge_pair(acc, pair)),
        merge_pair(acc, pair).len() >= acc.len(),
{
    let m = merge_pair(acc, pair);
    if has_url(acc, pair.0) {
        let i = url_index(acc, pair.0);
        lemma_union_names_props(acc[i].engine_names, pair.1.engine_names);
        assert(forall|t: int| 0 <= t < m.len() ==> #[trigger] m[t].url == acc[t].url);
    } else {
        assert forall|s: int, t: int| 0 <= s < t < m.len() implies #[trigger] m[s].url
            != #[trigger] m[t].url by {
            if t < m.len() - 1 {
                assert(acc[s].url != acc[t].url);
            } else {
                assert(m[t] == pair.1);
                assert(0 <= s < acc.len() && acc[s].url == m[s].url);
                if m[s].url == pair.0 {
                    assert(has_url(acc, pair.0));
                }
            }
        }
    }
}

/// Merging a well-formed list of pairs keeps the accumulator's urls unique
/// and its hits well formed.
pub proof fn lemma_merge_pairs_wf(
    acc: Seq<SearchResultView>,
    pairs: Seq<(Seq<char>, SearchResultView)>,
)
    requires
        unique_urls(acc),
        results_wf(acc),
        pairs_wf(pairs),
    ensures
        unique_urls(merge_pairs(acc, pairs)),
        results_wf(merge_pairs(acc, pairs)),
        merge_pairs(acc, pairs).len() >= acc.len(),
    decreases pairs.len(),
{
    if pairs.len() > 0 {
        assert(pairs_wf(pairs.drop_last())) by {
            assert(forall|i: int|
                0 <= i < pairs.len() - 1 ==> pairs.drop_last()[i] == #[trigger] pairs[i]);
        }
        lemma_merge_pairs_wf(acc, pairs.drop_last());
        let last = pairs.last();
        assert(pairs[pairs.len() - 1] == last);
        lemma_merge_pair_wf(merge_pairs(acc, pairs.drop_last()), last);
    }
}

/// The merged hits of well-formed outcomes have unique urls and are well
/// formed.
pub proof fn lemma_merged_entries_wf(ocs: Seq<EngineOutcomeView>)
    requires
        outcomes_wf(ocs),
    ensures
        unique_urls(merged_entries(ocs)),
        results_wf(merged_entries(ocs)),
    decreases ocs.len(),
{
    if ocs.len() > 0 {
        assert(outcomes_wf(ocs.drop_last())) by {
            assert(forall|i: int|
                0 <= i < ocs.len() - 1 ==> ocs.drop_last()[i] == #[trigger] ocs[i]);
        }
        lemma_merged_entries_wf(ocs.drop_last());
        assert(outcome_wf(ocs[ocs.len() - 1]));
        match ocs.last().outcome {
            Ok(pairs) => {
                lemma_merge_pairs_wf(merged_entries(ocs.drop_last()), pairs);
            },
            Err(_) => {},
        }
    }
}

/// Finds the accumulator position already carrying this url, if any.
fn find_url(acc: &Vec<SearchResult>, url: &String) -> (r: Option<usize>)
    requires
        unique_urls(acc.deep_view()),
    ensures
        match r {
            Some(i) => has_url(acc.deep_view(), url@) && i < acc@.len() && url_index(
                acc.deep_view(),
                url@,
            ) == i,
            None => !has_url(acc.deep_view(), url@),
        },
{
    let mut i: usize = 0;
    while i < acc.len()
        invariant
            unique_urls(acc.deep_view()),
            i <= acc@.len(),
            forall|k: int| 0 <= k < i ==> acc.deep_view()[k].url != url@,
        decreases acc@.len() - i,
    {
        if acc[i].url.eq(url) {
            proof {
                assert(acc.deep_view()[i as int].url == url@);
                lemma_url_index_unique(acc.deep_view(), url@, i as int);
            }
            return Some(i);
        }
        i += 1;
    }
    proof {
        if has_url(acc.deep_view(), url@) {
            let k = choose|k: int|
                0 <= k < acc.deep_view().len() && acc.deep_view()[k].url == url@;
            assert(acc.deep_view()[k].url != url@);
        }
    }
    None
}

/// The engine names of `a` followed by those of `b` not already present.
fn union_names_vec(a: &Vec<String>, b: &Vec<String>) -> (r: Vec<String>)
    ensures
        r.deep_view() == union_names(a.deep_view(), b.deep_view()),
{
    let mut r = crate::text::clone_names(a);
    let mut i: usize = 0;
    proof {
        assert(b.deep_view().take(0) =~= Seq::<Seq<char>>::empty());
    }
    while i < b.len()
        invariant
            i <= b@.len(),
            r.deep_view() == union_names(a.deep_view(), b.deep_view().take(i as int)),
        decreases b@.len() - i,
    {
        let ghost pre = r.deep_view();
        if !crate::text::contains_name(&r, &b[i]) {
            let x = b[i].clone();
            r.push(x);
            proof {
                assert(r.deep_view() =~= pre.push(b.deep_view()[i as int]));
            }
        }
        proof {
            let bv = b.deep_view();
            assert(bv.take(i as int + 1).drop_last() =~= bv.take(i as int));
            assert(bv.take(i as int + 1).last() == bv[i as int]);
        }
        i += 1;
    }
    proof {
        assert(b.deep_view().take(b@.len() as int) =~= b.deep_view());
    }
    r
}

/// The set of engine names a list of returned pairs attributes to `u`.
pub open spec fn pairs_engines(
    pairs: Seq<(Seq<char>, SearchResultView)>,
    u: Seq<char>,
) -> Set<Seq<char>>
    decreases pairs.len(),
{
    if pairs.len() == 0 {
        Set::<Seq<char>>::empty()
    } else {
        let rest = pairs_engines(pairs.drop_last(), u);
        if pairs.last().0 == u {
            rest.union(pairs.last().1.engine_names.to_set())
        } else {
            rest
        }
    }
}

/// The set of engine names all successful outcomes attribute to `u`.
pub open spec fn outcomes_engines(ocs: Seq<EngineOutcomeView>, u: Seq<char>) -> Set<Seq<char>>
    decreases ocs.len(),
{
    if ocs.len() == 0 {
        Set::<Seq<char>>::empty()
    } else {
        let rest = outcomes_engines(ocs.drop_last(), u);
        match ocs.last().outcome {
            Ok(pairs) => rest.union(pairs_engines(pairs, u)),
            Err(_) => rest,
        }
    }
}

/// The engine names the merged hit for `u` carries; empty when no hit does.
pub open spec fn entry_engines(rs: Seq<SearchResultView>, u: Seq<char>) -> Set<Seq<char>> {
    if has_url(rs, u) {
        rs[url_index(rs, u)].engine_names.to_set()
    } else {
        Set::<Seq<char>>::empty()
    }
}

proof fn lemma_merge_pair_engines(
    acc: Seq<SearchResultView>,
    pair: (Seq<char>, SearchResultView),
    u: Seq<char>,
)
    requires
        unique_urls(acc),
        results_wf(acc),
        pair.1.url == pair.0,
        result_wf(pair.1),
    ensures
        entry_engines(merge_pair(acc, pair), u) == if pair.0 == u {
            entry_engines(acc, u).union(pair.1.engine_names.to_set())
        } else {
            entry_engines(acc, u)
        },
{
    let m = merge_pair(acc, pair);
    lemma_merge_pair_wf(acc, pair);
    if has_url(acc, pair.0) {
        let i = url_index(acc, pair.0);
        assert(0 <= i < acc.len() && acc[i].url == pair.0);
        lemma_union_names_props(acc[i].engine_names, pair.1.engine_names);
        assert(forall|t: int| 0 <= t < m.len() ==> #[trigger] m[t].url == acc[t].url);
        if pair.0 == u {
            lemma_url_index_unique(m, u, i);
            lemma_url_index_unique(acc, u, i);
            assert(m[i].engine_names == union_names(acc[i].engine_names, pair.1.engine_names));
            assert(entry_engines(m, u) =~= entry_engines(acc, u).union(
                pair.1.engine_names.to_set(),
            ));
        } else {
            if has_url(acc, u) {
                let t = url_index(acc, u);
                assert(0 <= t < acc.len() && acc[t].url == u);
                lemma_url_index_unique(m, u, t);
                assert(t != i);
                assert(m[t] == acc[t]);
            } else {
                if has_url(m, u) {
                    let t = url_index(m, u);
                    assert(acc[t].url == u);
                }
            }
        }
    } else {
        if pair.0 == u {
            assert(m[m.len() - 1] == pair.1);
            lemma_url_index_unique(m, u, m.len() - 1);
            assert(entry_engines(acc, u) =~= Set::<Seq<char>>::empty()) by {
                if has_url(acc, u) {
                    let t = url_index(acc, u);
                    assert(acc[t].url == pair.0);
                }
            }
            assert(entry_engines(m, u) =~= entry_engines(acc, u).union(
                pair.1.engine_names.to_set(),
            ));
        } else {
            if has_url(acc, u) {
                let t = url_index(acc, u);
                assert(m[t] == acc[t]);
                lemma_url_index_unique(m, u, t);
            } else {
                if has_url(m, u) {
                    let t = url_index(m, u);
                    assert(0 <= t < m.len() && m[t].url == u);
                    assert(t < acc.len());
                    assert(acc[t].url == u);
                }
            }
        }
    }
}

proof fn lemma_merge_pairs_engines(
    acc: Seq<SearchResultView>,
    pairs: Seq<(Seq<char>, SearchResultView)>,
    u: Seq<char>,
)
    requires
        unique_urls(acc),
        results_wf(acc),
        pairs_wf(pairs),
    ensures
        entry_engines(merge_pairs(acc, pairs), u) == entry_engines(acc, u).union(
            pairs_engines(pairs, u),
        ),
    decreases pairs.len(),
{
    if pairs.len() == 0 {
        assert(entry_engines(acc, u).union(pairs_engines(pairs, u)) =~= entry_engines(acc, u));
    } else {
        assert(pairs_wf(pairs.drop_last())) by {
            assert(forall|i: int|
                0 <= i < pairs.len() - 1 ==> pairs.drop_last()[i] == #[trigger] pairs[i]);
        }
        lemma_merge_pairs_engines(acc, pairs.drop_last(), u);
        lemma_merge_pairs_wf(acc, pairs.drop_last());
        let rest = merge_pairs(acc, pairs.drop_last());
        assert(pairs[pairs.len() - 1] == pairs.last());
        lemma_merge_pair_engines(rest, pairs.last(), u);
        assert(entry_engines(merge_pairs(acc, pairs), u) =~= entry_engines(acc, u).union(
            pairs_engines(pairs, u),
        ));
    }
}

/// Attribution union law: the merged hit for any url carries exactly the
/// engine names that the successful outcomes returned for that url, no
/// matter in which order the engines finished; and a hit exists for the
/// url exactly when some successful outcome returned it.
pub proof fn lemma_attribution_union(ocs: Seq<EngineOutcomeView>, u: Seq<char>)
    requires
        outcomes_wf(ocs),
    ensures
        entry_engines(merged_entries(ocs), u) == outcomes_engines(ocs, u),
        has_url(merged_entries(ocs), u) <==> outcomes_engines(ocs, u) !== Set::<Seq<char>>::empty(),
    decreases ocs.len(),
{
    lemma_merged_entries_wf(ocs);
    if ocs.len() == 0 {
        assert(!has_url(merged_entries(ocs), u));
    } else {
        assert(outcomes_wf(ocs.drop_last())) by {
            assert(forall|i: int|
                0 <= i < ocs.len() - 1 ==> ocs.drop_last()[i] == #[trigger] ocs[i]);
        }
        lemma_attribution_union(ocs.drop_last(), u);
        lemma_merged_entries_wf(ocs.drop_last());
        assert(outcome_wf(ocs[ocs.len() - 1]));
        match ocs.last().outcome {
            Ok(pairs) => {
                lemma_merge_pairs_engines(merged_entries(ocs.drop_last()), pairs, u);
                assert(entry_engines(merged_entries(ocs), u) =~= outcomes_engines(ocs, u));
            },
            Err(_) => {},
        }
    }
    let m = merged_entries(ocs);
    if has_url(m, u) {
        let i = url_index(m, u);
        assert(0 <= i < m.len() && m[i].url == u);
        assert(result_wf(m[i]));
        assert(m[i].engine_names.contains(m[i].engine_names[0]));
        assert(entry_engines(m, u).contains(m[i].engine_names[0]));
    }
}

/// The titles and descriptions a list of returned pairs offers for `u`.
pub open spec fn pairs_contents(
    pairs: Seq<(Seq<char>, SearchResultView)>,
    u: Seq<char>,
) -> Set<(Seq<char>, Seq<char>)>
    decreases pairs.len(),
{
    if pairs.len() == 0 {
        Set::<(Seq<char>, Seq<char>)>::empty()
    } else {
        let rest = pairs_contents(pairs.drop_last(), u);
        if pairs.last().0 == u {
            rest.insert((pairs.last().1.title, pairs.last().1.description))
        } else {
            rest
        }
    }
}

/// The titles and descriptions all successful outcomes offer for `u`.
pub open spec fn outcomes_contents(
    ocs: Seq<EngineOutcomeView>,
    u: Seq<char>,
) -> Set<(Seq<char>, Seq<char>)>
    decreases ocs.len(),
{
    if ocs.len() == 0 {
        Set::<(Seq<char>, Seq<char>)>::empty()
    } else {
        let rest = outcomes_contents(ocs.drop_last(), u);
        match ocs.last().outcome {
            Ok(pairs) => rest.union(pairs_contents(pairs, u)),
            Err(_) => rest,
        }
    }
}

proof fn lemma_merge_pair_content(
    acc: Seq<SearchResultView>,
    pair: (Seq<char>, SearchResultView),
    u: Seq<char>,
)
    requires
        unique_urls(acc),
        results_wf(acc),
        pair.1.url == pair.0,
        result_wf(pair.1),
        has_url(merge_pair(acc, pair), u),
    ensures
        ({
            let m = merge_pair(acc, pair);
            let e = m[url_index(m, u)];
            (has_url(acc, u) && e.title == acc[url_index(acc, u)].title && e.description
                == acc[url_index(acc, u)].description) || (!has_url(acc, u) && pair.0 == u
                && e.title == pair.1.title && e.description == pair.1.description)
        }),
{
    let m = merge_pair(acc, pair);
    lemma_merge_pair_wf(acc, pair);
    let t = url_index(m, u);
    assert(0 <= t < m.len() && m[t].url == u);
    if has_url(acc, pair.0) {
        let i = url_index(acc, pair.0);
        assert(0 <= i < acc.len() && acc[i].url == pair.0);
        assert(forall|s: int| 0 <= s < m.len() ==> #[trigger] m[s].url == acc[s].url);
        assert(acc[t].url == u);
        lemma_url_index_unique(acc, u, t);
        assert(m[t].title == acc[t].title && m[t].description == acc[t].description);
    } else {
        if t < acc.len() {
            assert(m[t] == acc[t]);
            lemma_url_index_unique(acc, u, t);
        } else {
            assert(m[t] == pair.1);
            assert(pair.0 == u);
            if has_url(acc, u) {
                let s = url_index(acc, u);
                assert(acc[s].url == pair.0);
            }
        }
    }
}

proof fn lemma_merge_pairs_content(
    acc: Seq<SearchResultView>,
    pairs: Seq<(Seq<char>, SearchResultView)>,
    u: Seq<char>,
)
    requires
        unique_urls(acc),
        results_wf(acc),
        pairs_wf(pairs),
        has_url(merge_pairs(acc, pairs), u),
    ensures
        ({
            let m = merge_pairs(acc, pairs);
            let e = m[url_index(m, u)];
            (has_url(acc, u) && e.title == acc[url_index(acc, u)].title && e.description
                == acc[url_index(acc, u)].description) || pairs_contents(pairs, u).contains(
                (e.title, e.description),
            )
        }),
    decreases pairs.len(),
{
    if pairs.len() == 0 {
    } else {
        assert(pairs_wf(pairs.drop_last())) by {
            assert(forall|i: int|
                0 <= i < pairs.len() - 1 ==> pairs.drop_last()[i] == #[trigger] pairs[i]);
        }
        lemma_merge_pairs_wf(acc, pairs.drop_last());
        let rest = merge_pairs(acc, pairs.drop_last());
        assert(pairs[pairs.len() - 1] == pairs.last());
        lemma_merge_pair_content(rest, pairs.last(), u);
        let m = merge_pairs(acc, pairs);
        let e = m[url_index(m, u)];
        if has_url(rest, u) && e.title == rest[url_index(rest, u)].title && e.description
            == rest[url_index(rest, u)].description {
            lemma_merge_pairs_content(acc, pairs.drop_last(), u);
        } else {
            assert(pairs_contents(pairs, u).contains((e.title, e.description)));
        }
    }
}

/// First-seen content law: the title and description of the merged hit for
/// any url are exactly what one of the successful outcomes returned for
/// that url. Which outcome wins depends on completion order; that one of
/// them does is guaranteed.
pub proof fn lemma_content_from_some_engine(ocs: Seq<EngineOutcomeView>, u: Seq<char>)
    requires
        outcomes_wf(ocs),
        has_url(merged_entries(ocs), u),
    ensures
        ({
            let m = merged_entries(ocs);
            let e = m[url_index(m, u)];
            outcomes_contents(ocs, u).contains((e.title, e.description))
        }),
    decreases ocs.len(),
{
    assert(ocs.len() > 0);
    assert(outcomes_wf(ocs.drop_last())) by {
        assert(forall|i: int| 0 <= i < ocs.len() - 1 ==> ocs.drop_last()[i] == #[trigger] ocs[i]);
    }
    lemma_merged_entries_wf(ocs.drop_last());
    assert(outcome_wf(ocs[ocs.len() - 1]));
    let m = merged_entries(ocs);
    let e = m[url_index(m, u)];
    match ocs.last().outcome {
        Ok(pairs) => {
            lemma_merge_pairs_content(merged_entries(ocs.drop_last()), pairs, u);
            let rest = merged_entries(ocs.drop_last());
            if has_url(rest, u) && e.title == rest[url_index(rest, u)].title && e.description
                == rest[url_index(rest, u)].description {
                lemma_content_from_some_engine(ocs.drop_last(), u);
                let er = rest[url_index(rest, u)];
                assert(outcomes_contents(ocs.drop_last(), u).contains((er.title, er.description)));
            }
        },
        Err(_) => {
            lemma_content_from_some_engine(ocs.drop_last(), u);
        },
    }
}

/// Two sequences with unique urls that hold the same hits hold, for every
/// url, the same hit under it. With this, the attribution and content laws
/// above carry over to the sorted output of [`aggregate`], whose `ensures`
/// says it holds the same hits as `merged_entries`.
pub proof fn lemma_entry_by_url_unchanged(
    a: Seq<SearchResultView>,
    b: Seq<SearchResultView>,
    u: Seq<char>,
)
    requires
        unique_urls(a),
        unique_urls(b),
        forall|x: SearchResultView| a.contains(x) <==> b.contains(x),
    ensures
        has_url(a, u) <==> has_url(b, u),
        has_url(a, u) ==> a[url_index(a, u)] == b[url_index(b, u)],
{
    if has_url(a, u) {
        let i = url_index(a, u);
        assert(0 <= i < a.len() && a[i].url == u);
        assert(a.contains(a[i]));
        assert(b.contains(a[i]));
        let j = choose|j: int| 0 <= j < b.len() && b[j] == a[i];
        lemma_url_index_unique(b, u, j);
    }
    if has_url(b, u) {
        let i = url_index(b, u);
        assert(0 <= i < b.len() && b[i].url == u);
        assert(b.contains(b[i]));
        assert(a.contains(b[i]));
        let j = choose|j: int| 0 <= j < a.len() && a[j] == b[i];
        lemma_url_index_unique(a, u, j);
    }
}

/// The sort key: the hit's description length, a lightweight relevance
/// proxy.
pub open spec fn desc_len(r: SearchResultView) -> nat {
    r.description.len()
}

/// Ascending by description length.
pub open spec fn sorted_by_len(s: Seq<SearchResultView>) -> bool {
    forall|i: int, j: int|
        0 <= i <= j < s.len() ==> desc_len(#[trigger] s[i]) <= desc_len(#[trigger] s[j])
}

/// The hits of one description length, in their original order.
pub open spec fn len_filter(s: Seq<SearchResultView>, k: nat) -> Seq<SearchResultView> {
    s.filter(|r: SearchResultView| desc_len(r) == k)
}

/// Sorts the hits ascending by description length. The sort is stable: hits
/// of equal description length keep their relative order, stated here as
/// every `len_filter` selection staying exactly as it was.
fn sort_results(v: &mut Vec<SearchResult>)
    ensures
        final(v)@.len() == old(v)@.len(),
        sorted_by_len(final(v).deep_view()),
        forall|k: nat| #[trigger] len_filter(final(v).deep_view(), k) == len_filter(
            old(v).deep_view(),
            k,
        ),
        forall|x: SearchResultView| final(v).deep_view().contains(x) <==> old(
            v,
        ).deep_view().contains(x),
        unique_urls(old(v).deep_view()) ==> unique_urls(final(v).deep_view()),
        results_wf(old(v).deep_view()) ==> results_wf(final(v).deep_view()),
{
    let n = v.len();
    let mut i: usize = 1;
    if n <= 1 {
        return ;
    }
    while i < n
        invariant
            1 <= i <= n,
            n == v@.len(),
            sorted_by_len(v.deep_view().take(i as int)),
            forall|k: nat| #[trigger] len_filter(v.deep_view(), k) == len_filter(
                old(v).deep_view(),
                k,
            ),
            forall|x: SearchResultView| v.deep_view().contains(x) <==> old(
                v,
            ).deep_view().contains(x),
            unique_urls(old(v).deep_view()) ==> unique_urls(v.deep_view()),
            results_wf(old(v).deep_view()) ==> results_wf(v.deep_view()),
        decreases n - i,
    {
        let ghost sv = v@;
        let ghost s = v.deep_view();
        let x = v.remove(i);
        proof {
            sv.remove_ensures(i as int);
            s.remove_ensures(i as int);
            assert(v.deep_view() =~= s.remove(i as int));
        }
        let kx = x.description.as_str().unicode_len();
        let mut j: usize = i;
        while j > 0 && v[j - 1].description.as_str().unicode_len() > kx
            invariant
                j <= i < s.len(),
                n == s.len(),
                sv.len() == n,
                v@.len() == n - 1,
                v@ == sv.remove(i as int),
                v.deep_view() == s.remove(i as int),
                x@ == s[i as int],
                kx as nat == desc_len(x@),
                forall|t: int| j <= t < i ==> desc_len(#[trigger] s[t]) > desc_len(x@),
            decreases j,
        {
            proof {
                s.remove_ensures(i as int);
                sv.remove_ensures(i as int);
                assert(v.deep_view()[j - 1] == s[j - 1]);
            }
            j -= 1;
        }
        proof {
            s.remove_ensures(i as int);
            sv.remove_ensures(i as int);
            if j > 0 {
                assert(v.deep_view()[j as int - 1] == s[j as int - 1]);
                assert(desc_len(s[j as int - 1]) <= desc_len(x@));
            }
        }
        v.insert(j, x);
        proof {
            let s2 = s.remove(i as int).insert(j as int, s[i as int]);
            sv.remove(i as int).insert_ensures(j as int, sv[i as int]);
            s.remove(i as int).insert_ensures(j as int, s[i as int]);
            assert(v.deep_view() =~= s2);
            crate::seqs::lemma_remove_insert_pointwise(s, i as int, j as int);
            assert forall|k: nat| #[trigger] len_filter(s2, k) == len_filter(s, k) by {
                crate::seqs::lemma_remove_insert_filter(
                    s,
                    i as int,
                    j as int,
                    |r: SearchResultView| desc_len(r) == k,
                );
            }
            crate::seqs::lemma_remove_insert_contains(s, i as int, j as int);
            if unique_urls(s) {
                crate::seqs::lemma_remove_insert_distinct(
                    s,
                    i as int,
                    j as int,
                    |r: SearchResultView| r.url,
                );
                assert(unique_urls(s2));
            }
            if results_wf(s) {
                assert forall|t: int| 0 <= t < s2.len() implies result_wf(#[trigger] s2[t]) by {
                    assert(s2[t] == s[crate::seqs::moved_from(i as int, j as int, t)]);
                }
            }
            assert forall|a: int, b: int| 0 <= a <= b < i + 1 implies desc_len(
                #[trigger] s2[a],
            ) <= desc_len(#[trigger] s2[b]) by {
                let fa = crate::seqs::moved_from(i as int, j as int, a);
                let fb = crate::seqs::moved_from(i as int, j as int, b);
                assert(s2[a] == s[fa]);
                assert(s2[b] == s[fb]);
                if a == b {
                } else if a == j as int {
                    assert(fb == b - 1 && j as int <= b - 1 < i);
                } else if b == j as int {
                    assert(fa == a && a < j as int);
                    assert(desc_len(s[j as int - 1]) <= desc_len(x@));
                    assert(desc_len(s[fa]) <= desc_len(s[j as int - 1]));
                } else {
                    assert(0 <= fa <= fb < i);
                }
            }
            assert(sorted_by_len(s2.take(i as int + 1)));
        }
        i += 1;
    }
    proof {
        assert(v.deep_view().take(n as int) =~= v.deep_view());
    }
}

/// Aggregates what the selected engines returned for one query. Duplicate
/// hits are merged url by url: the attribution becomes the union of the
/// engines' names while the first-seen title and description win. Each
/// failed engine yields one error report and never aborts the aggregation.
/// The merged hits come back ordered ascending by description length, and
/// stably so: hits of equal length keep their arrival order.
pub fn aggregate(query: &str, outcomes: &Vec<EngineOutcome>) -> (r: SearchResults)
    requires
        outcomes_wf(outcomes.deep_view()),
    ensures
        r@.query == query@,
        r@.errors == merged_errors(outcomes.deep_view()),
        unique_urls(r@.results),
        results_wf(r@.results),
        sorted_by_len(r@.results),
        forall|k: nat| #[trigger] len_filter(r@.results, k) == len_filter(
            merged_entries(outcomes.deep_view()),
            k,
        ),
        forall|x: SearchResultView| r@.results.contains(x) <==> merged_entries(
            outcomes.deep_view(),
        ).contains(x),
        !r@.no_engines_selected,
        !r@.filtered,
{
    let mut acc: Vec<SearchResult> = Vec::new();
    let mut errors: Vec<EngineErrorInfo> = Vec::new();
    let mut oi: usize = 0;
    proof {
        assert(outcomes.deep_view().take(0) =~= Seq::<EngineOutcomeView>::empty());
    }
    while oi < outcomes.len()
        invariant
            oi <= outcomes@.len(),
            outcomes_wf(outcomes.deep_view()),
            acc.deep_view() == merged_entries(outcomes.deep_view().take(oi as int)),
            errors.deep_view() == merged_errors(outcomes.deep_view().take(oi as int)),
            unique_urls(acc.deep_view()),
            results_wf(acc.deep_view()),
        decreases outcomes@.len() - oi,
    {
        let ghost ov = outcomes.deep_view();
        let ghost base = acc.deep_view();
        proof {
            assert(outcome_wf(ov[oi as int]));
        }
        match &outcomes[oi].outcome {
            Ok(pairs) => {
                proof {
                    assert(ov[oi as int].outcome == Ok::<_, crate::models::EngineErrorKind>(
                        pairs.deep_view(),
                    ));
                    assert(pairs_wf(pairs.deep_view()));
                    assert(pairs.deep_view().take(0) =~= Seq::<
                        (Seq<char>, SearchResultView),
                    >::empty());
                }
                let mut pi: usize = 0;
                while pi < pairs.len()
                    invariant
                        pi <= pairs@.len(),
                        pairs_wf(pairs.deep_view()),
                        acc.deep_view() == merge_pairs(base, pairs.deep_view().take(pi as int)),
                        unique_urls(acc.deep_view()),
                        results_wf(acc.deep_view()),
                    decreases pairs@.len() - pi,
                {
                    let ghost pv = pairs.deep_view()[pi as int];
                    let ghost cur = acc.deep_view();
                    proof {
                        assert(pv == (pairs@[pi as int].0@, pairs@[pi as int].1@));
                        assert(pv.1.url == pv.0 && result_wf(pv.1));
                    }
                    let url = &pairs[pi].0;
                    match find_url(&acc, url) {
                        Some(idx) => {
                            let merged_names = union_names_vec(
                                &acc[idx].engine_names,
                                &pairs[pi].1.engine_names,
                            );
                            let entry = SearchResult {
                                url: acc[idx].url.clone(),
                                title: acc[idx].title.clone(),
                                description: acc[idx].description.clone(),
                                engine_names: merged_names,
                            };
                            acc.set(idx, entry);
                            proof {
                                assert(acc.deep_view() =~= merge_pair(cur, pv));
                            }
                        },
                        None => {
                            let entry = pairs[pi].1.duplicate();
                            acc.push(entry);
                            proof {
                                assert(acc.deep_view() =~= merge_pair(cur, pv));
                            }
                        },
                    }
                    proof {
                        lemma_merge_pair_wf(cur, pv);
                        let pd = pairs.deep_view();
                        assert(pd.take(pi as int + 1).drop_last() =~= pd.take(pi as int));
                        assert(pd.take(pi as int + 1).last() == pd[pi as int]);
                    }
                    pi += 1;
                }
                proof {
                    assert(pairs.deep_view().take(pairs@.len() as int) =~= pairs.deep_view());
                    let ovt = ov.take(oi as int + 1);
                    assert(ovt.drop_last() =~= ov.take(oi as int));
                    assert(ovt.last() == ov[oi as int]);
                    assert(acc.deep_view() == merged_entries(ov.take(oi as int + 1)));
                    assert(errors.deep_view() == merged_errors(ov.take(oi as int + 1)));
                }
            },
            Err(kind) => {
                let info = EngineErrorInfo {
                    engine_name: outcomes[oi].engine_name.clone(),
                    error_kind: *kind,
                };
                let ghost epre = errors.deep_view();
                errors.push(info);
                proof {
                    assert(ov[oi as int].outcome == Err::<
                        Seq<(Seq<char>, SearchResultView)>,
                        _,
                    >(*kind));
                    let ovt = ov.take(oi as int + 1);
                    assert(ovt.drop_last() =~= ov.take(oi as int));
                    assert(ovt.last() == ov[oi as int]);
                    assert(errors.deep_view() =~= epre.push(
                        EngineErrorInfoView {
                            engine_name: ov[oi as int].engine_name,
                            error_kind: *kind,
                        },
                    ));
                    assert(acc.deep_view() == merged_entries(ov.take(oi as int + 1)));
                    assert(errors.deep_view() == merged_errors(ov.take(oi as int + 1)));
                }
            },
        }
        oi += 1;
    }
    proof {
        assert(outcomes.deep_view().take(outcomes@.len() as int) =~= outcomes.deep_view());
    }
    sort_results(&mut acc);
    let r = SearchResults {
        query: query.to_owned(),
        results: acc,
        errors,
        no_engines_selected: false,
        filtered: false,
    };
    r
}

} // verus!
