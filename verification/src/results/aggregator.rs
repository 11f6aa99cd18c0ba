//! Merging the outcomes of one query into a single ranked list.
//!
//! The address of a result identifies it. Outcomes are folded in the order in
//! which they are given, and the results of one outcome in their own order, so
//! the same outcomes always give the same list. A result that several engines
//! return is kept once, with the title and description seen first and with the
//! names of all those engines. Results without title and description are
//! dropped, and the rest is ordered by the number of engines behind each result,
//! most first; among equals the one merged earlier comes first.

use crate::engine_handler::{EngineOutcome, RawResults};
use crate::models::aggregation_models::{
    clone_names,
    holds_name,
    names_view,
    results_view,
    SearchResult,
    SearchResultView,
};
use crate::models::engine_models::EngineErrorView;
use crate::sequences::{first_match, lemma_first_match, lemma_first_match_is_first};
use vstd::prelude::*;

verus! {

/// The mathematical value of an outcome.
pub type OutcomeView = Result<Seq<SearchResultView>, EngineErrorView>;

/// The value of one outcome.
pub open spec fn outcome_view(outcome: EngineOutcome) -> OutcomeView {
    match outcome {
        Ok(results) => Ok(results_view(results@)),
        Err(error) => Err(error@),
    }
}

/// The values of a sequence of outcomes.
pub open spec fn raw_view(outcomes: Seq<EngineOutcome>) -> Seq<OutcomeView> {
    outcomes.map_values(|outcome: EngineOutcome| outcome_view(outcome))
}

/// The names of `existing` followed by those of `incoming` that are not yet
/// there, each once.
pub open spec fn union_names(existing: Seq<Seq<char>>, incoming: Seq<Seq<char>>) -> Seq<Seq<char>>
    decreases incoming.len(),
{
    if incoming.len() == 0 {
        existing
    } else {
        let merged = union_names(existing, incoming.drop_last());
        if merged.contains(incoming.last()) {
            merged
        } else {
            merged.push(incoming.last())
        }
    }
}

/// The position in `merged` of the first result with address `url`, or the
/// length of `merged` if there is none.
pub open spec fn position_of(merged: Seq<SearchResultView>, url: Seq<char>) -> int {
    first_match(merged, |result: SearchResultView| result.url == url)
}

/// `merged` after one more result has been folded in: a result whose address is
/// new is appended; otherwise the result already there keeps its title and
/// description and gains the engines of `incoming`.
pub open spec fn absorb(merged: Seq<SearchResultView>, incoming: SearchResultView) -> Seq<
    SearchResultView,
> {
    let at = position_of(merged, incoming.url);
    if at < merged.len() {
        merged.update(
            at,
            SearchResultView {
                engine: union_names(merged[at].engine, incoming.engine),
                ..merged[at]
            },
        )
    } else {
        merged.push(
            SearchResultView { engine: union_names(Seq::empty(), incoming.engine), ..incoming },
        )
    }
}

/// `merged` after the results of one engine have been folded in, in their order.
pub open spec fn absorb_all(merged: Seq<SearchResultView>, results: Seq<SearchResultView>) -> Seq<
    SearchResultView,
>
    decreases results.len(),
{
    if results.len() == 0 {
        merged
    } else {
        absorb(absorb_all(merged, results.drop_last()), results.last())
    }
}

/// The merge of all outcomes, in their order. A failure contributes nothing.
pub open spec fn merge_all(outcomes: Seq<OutcomeView>) -> Seq<SearchResultView>
    decreases outcomes.len(),
{
    if outcomes.len() == 0 {
        Seq::empty()
    } else {
        let merged = merge_all(outcomes.drop_last());
        match outcomes.last() {
            Ok(results) => absorb_all(merged, results),
            Err(_) => merged,
        }
    }
}

/// The results that carry a title or a description, in their order.
pub open spec fn without_noise(merged: Seq<SearchResultView>) -> Seq<SearchResultView> {
    merged.filter(|result: SearchResultView| !result.is_noise())
}

/// The position at which a result confirmed by `weight` engines enters
/// `ranked`: before the first result confirmed by fewer.
pub open spec fn slot_for(ranked: Seq<SearchResultView>, weight: nat) -> int {
    first_match(ranked, |result: SearchResultView| result.engine.len() < weight)
}

/// The results of `entries` ordered by the number of engines behind each, most
/// first; results with the same number keep the order they have in `entries`.
pub open spec fn ranked(entries: Seq<SearchResultView>) -> Seq<SearchResultView>
    decreases entries.len(),
{
    if entries.len() == 0 {
        Seq::empty()
    } else {
        let before = ranked(entries.drop_last());
        before.insert(slot_for(before, entries.last().engine.len()), entries.last())
    }
}

/// The ranked list that the outcomes of one query give.
pub open spec fn aggregated(outcomes: Seq<OutcomeView>) -> Seq<SearchResultView> {
    ranked(without_noise(merge_all(outcomes)))
}

/// Adds to `existing` the names of `incoming` that it does not hold yet.
pub fn merge_names(existing: &mut Vec<String>, incoming: &Vec<String>)
    ensures
        names_view(final(existing)@) == union_names(
            names_view(old(existing)@),
            names_view(incoming@),
        ),
{
    let ghost before = names_view(existing@);
    let ghost added = names_view(incoming@);
    let mut i: usize = 0;
    assert(added.take(0) =~= Seq::empty());
    while i < incoming.len()
        invariant
            i <= incoming.len(),
            added == names_view(incoming@),
            names_view(existing@) == union_names(before, added.take(i as int)),
        decreases incoming.len() - i,
    {
        let ghost so_far = names_view(existing@);
        proof {
            assert(added.take(i + 1).drop_last() =~= added.take(i as int));
            assert(added.take(i + 1).last() == incoming@[i as int]@);
        }
        if !holds_name(existing, incoming[i].as_str()) {
            existing.push(incoming[i].clone());
            assert(names_view(existing@) =~= so_far.push(incoming@[i as int]@));
        }
        i += 1;
    }
    assert(added.take(i as int) =~= added);
}

/// Finds the first result of `merged` with address `url`.
pub fn find_url(merged: &Vec<SearchResult>, url: &String) -> (at: usize)
    ensures
        at == position_of(results_view(merged@), url@),
{
    let ghost same = |result: SearchResultView| result.url == url@;
    let mut i: usize = 0;
    while i < merged.len() && merged[i].url != *url
        invariant
            i <= merged.len(),
            same == |result: SearchResultView| result.url == url@,
            forall|j: int| 0 <= j < i ==> !same(#[trigger] results_view(merged@)[j]),
        decreases merged.len() - i,
    {
        i += 1;
    }
    proof {
        lemma_first_match(results_view(merged@), same, i as int);
    }
    i
}

/// Folds one result into `merged`.
pub fn absorb_result(merged: &mut Vec<SearchResult>, incoming: &SearchResult)
    ensures
        results_view(final(merged)@) == absorb(results_view(old(merged)@), incoming@),
{
    let ghost before = results_view(merged@);
    let at = find_url(merged, &incoming.url);
    if at < merged.len() {
        let existing = &merged[at];
        let mut engine = clone_names(&existing.engine);
        merge_names(&mut engine, &incoming.engine);
        let updated = SearchResult {
            title: existing.title.clone(),
            url: existing.url.clone(),
            description: existing.description.clone(),
            engine,
        };
        merged.set(at, updated);
        assert(results_view(merged@) =~= absorb(before, incoming@));
    } else {
        let mut engine: Vec<String> = Vec::new();
        assert(names_view(engine@) =~= Seq::empty());
        merge_names(&mut engine, &incoming.engine);
        let fresh = SearchResult {
            title: incoming.title.clone(),
            url: incoming.url.clone(),
            description: incoming.description.clone(),
            engine,
        };
        merged.push(fresh);
        assert(results_view(merged@) =~= absorb(before, incoming@));
    }
}

/// Merges the successful outcomes of one query; failures are passed over.
pub fn merge(outcomes: &RawResults) -> (merged: Vec<SearchResult>)
    ensures
        results_view(merged@) == merge_all(raw_view(outcomes@)),
{
    let ghost given = raw_view(outcomes@);
    let mut merged: Vec<SearchResult> = Vec::new();
    let mut i: usize = 0;
    assert(results_view(merged@) =~= merge_all(given.take(0)));
    while i < outcomes.len()
        invariant
            i <= outcomes.len(),
            given == raw_view(outcomes@),
            results_view(merged@) == merge_all(given.take(i as int)),
        decreases outcomes.len() - i,
    {
        proof {
            assert(given.take(i + 1).drop_last() =~= given.take(i as int));
            assert(given.take(i + 1).last() == outcome_view(outcomes@[i as int]));
        }
        if let Ok(results) = &outcomes[i] {
            let ghost start = results_view(merged@);
            let ghost found = results_view(results@);
            let mut k: usize = 0;
            while k < results.len()
                invariant
                    k <= results.len(),
                    found == results_view(results@),
                    results_view(merged@) == absorb_all(start, found.take(k as int)),
                decreases results.len() - k,
            {
                proof {
                    assert(found.take(k + 1).drop_last() =~= found.take(k as int));
                    assert(found.take(k + 1).last() == results@[k as int]@);
                }
                absorb_result(&mut merged, &results[k]);
                k += 1;
            }
            assert(found.take(k as int) =~= found);
        }
        i += 1;
    }
    assert(given.take(i as int) =~= given);
    merged
}

/// Drops the results that have neither a title nor a description.
pub fn filter_noise(merged: Vec<SearchResult>) -> (kept: Vec<SearchResult>)
    ensures
        results_view(kept@) == without_noise(results_view(merged@)),
{
    let ghost given = merged@;
    let ghost readable = |result: SearchResultView| !result.is_noise();
    let mut kept: Vec<SearchResult> = Vec::new();
    assert(results_view(kept@) =~= results_view(given.take(0)).filter(readable));
    for result in iter: merged
        invariant
            iter.seq() == given,
            readable == |result: SearchResultView| !result.is_noise(),
            results_view(kept@) == results_view(given.take(iter.index() as int)).filter(readable),
    {
        let ghost so_far = results_view(kept@);
        proof {
            reveal(Seq::filter);
            let k = iter.index() as int;
            assert(results_view(given.take(k + 1)).drop_last() =~= results_view(given.take(k)));
            assert(results_view(given.take(k + 1)).last() == result@);
        }
        if !(result.title.as_str().is_empty() && result.description.as_str().is_empty()) {
            kept.push(result);
            assert(results_view(kept@) =~= so_far.push(result@));
        }
    }
    assert(given.take(given.len() as int) =~= given);
    kept
}

/// Finds where a result confirmed by `weight` engines enters `ordered`.
pub fn find_slot(ordered: &Vec<SearchResult>, weight: usize) -> (at: usize)
    ensures
        at == slot_for(results_view(ordered@), weight as nat),
{
    let ghost lighter = |result: SearchResultView| result.engine.len() < weight as nat;
    let mut i: usize = 0;
    while i < ordered.len() && ordered[i].engine.len() >= weight
        invariant
            i <= ordered.len(),
            lighter == |result: SearchResultView| result.engine.len() < weight as nat,
            forall|j: int| 0 <= j < i ==> !lighter(#[trigger] results_view(ordered@)[j]),
        decreases ordered.len() - i,
    {
        i += 1;
    }
    proof {
        lemma_first_match(results_view(ordered@), lighter, i as int);
    }
    i
}

/// Orders `entries` by the number of engines behind each result, most first,
/// without changing the order of results that have the same number.
pub fn rank(entries: Vec<SearchResult>) -> (ordered: Vec<SearchResult>)
    ensures
        results_view(ordered@) == ranked(results_view(entries@)),
{
    let ghost given = entries@;
    let mut ordered: Vec<SearchResult> = Vec::new();
    assert(results_view(ordered@) =~= ranked(results_view(given.take(0))));
    for entry in iter: entries
        invariant
            iter.seq() == given,
            results_view(ordered@) == ranked(results_view(given.take(iter.index() as int))),
    {
        let ghost before = results_view(ordered@);
        proof {
            let k = iter.index() as int;
            assert(results_view(given.take(k + 1)).drop_last() =~= results_view(given.take(k)));
            assert(results_view(given.take(k + 1)).last() == entry@);
            lemma_first_match_is_first(
                before,
                |result: SearchResultView| result.engine.len() < entry@.engine.len(),
            );
        }
        let at = find_slot(&ordered, entry.engine.len());
        ordered.insert(at, entry);
        assert(results_view(ordered@) =~= before.insert(at as int, entry@));
    }
    assert(given.take(given.len() as int) =~= given);
    ordered
}

/// Merges the outcomes of one query, drops what nobody could read, and ranks
/// the rest. Failures are passed over: when no engine succeeded the list is
/// empty.
pub fn aggregate(outcomes: &RawResults) -> (ordered: Vec<SearchResult>)
    ensures
        results_view(ordered@) == aggregated(raw_view(outcomes@)),
{
    rank(filter_noise(merge(outcomes)))
}

} // verus!
