//! What holds of every merge and every ranking: addresses stay distinct,
//! engines are named once, nothing a successful engine returned is lost, what
//! was merged first stays first, and the ranked list is ordered, stable and
//! complete.

use crate::models::aggregation_models::SearchResultView;
use crate::models::engine_models::EngineErrorView;
use crate::results::aggregator::{
    absorb,
    absorb_all,
    aggregated,
    merge_all,
    position_of,
    ranked,
    slot_for,
    union_names,
    without_noise,
    OutcomeView,
};
use crate::sequences::{lemma_first_match, lemma_first_match_is_first, lemma_none_kept};
use vstd::prelude::*;

verus! {

/// Whether no result of `s` precedes one that more engines confirmed.
pub open spec fn is_ordered(s: Seq<SearchResultView>) -> bool {
    forall|i: int, j: int| 0 <= i < j < s.len() ==> s[i].engine.len() >= s[j].engine.len()
}

/// Whether no two results of `s` have the same address.
pub open spec fn has_unique_urls(s: Seq<SearchResultView>) -> bool {
    forall|i: int, j: int| 0 <= i < j < s.len() ==> s[i].url != s[j].url
}

/// Whether every result of `s` names each of its engines once.
pub open spec fn has_sound_provenance(s: Seq<SearchResultView>) -> bool {
    forall|i: int| 0 <= i < s.len() ==> (#[trigger] s[i]).engine.no_duplicates()
}

/// Ranking keeps every result, exactly as often as it was given, and puts no
/// result before one that more engines confirmed.
pub proof fn lemma_ranked_is_ordered(entries: Seq<SearchResultView>)
    ensures
        ranked(entries).len() == entries.len(),
        ranked(entries).to_multiset() == entries.to_multiset(),
        is_ordered(ranked(entries)),
    decreases entries.len(),
{
    broadcast use {vstd::seq_lib::to_multiset_insert, vstd::seq_lib::to_multiset_build};

    if entries.len() == 0 {
        assert(entries =~= ranked(entries));
    } else {
        let rest = entries.drop_last();
        let last = entries.last();
        lemma_ranked_is_ordered(rest);
        let before = ranked(rest);
        let lighter = |result: SearchResultView| result.engine.len() < last.engine.len();
        lemma_first_match_is_first(before, lighter);
        let at = slot_for(before, last.engine.len());
        let after = before.insert(at, last);
        assert(rest.push(last) =~= entries);
        assert(after.to_multiset() == entries.to_multiset());
        assert forall|i: int, j: int| 0 <= i < j < after.len() implies after[i].engine.len()
            >= after[j].engine.len() by {
            if i < at {
                assert(after[i] == before[i]);
                assert(!lighter(before[i]));
            }
            if j > at {
                assert(after[j] == before[j - 1]);
                assert(lighter(before[at]));
            }
        }
    }
}

/// Ranking does not reorder results that the same number of engines confirmed.
pub proof fn lemma_ranked_is_stable(entries: Seq<SearchResultView>, weight: nat)
    ensures
        ranked(entries).filter(|result: SearchResultView| result.engine.len() == weight)
            == entries.filter(|result: SearchResultView| result.engine.len() == weight),
    decreases entries.len(),
{
    reveal(Seq::filter);
    let same = |result: SearchResultView| result.engine.len() == weight;
    if entries.len() > 0 {
        let rest = entries.drop_last();
        let last = entries.last();
        lemma_ranked_is_stable(rest, weight);
        lemma_ranked_is_ordered(rest);
        let before = ranked(rest);
        let lighter = |result: SearchResultView| result.engine.len() < last.engine.len();
        lemma_first_match_is_first(before, lighter);
        let at = slot_for(before, last.engine.len());
        let head = before.take(at);
        let tail = before.skip(at);
        assert(before =~= head + tail);
        assert(before.insert(at, last) =~= head + seq![last] + tail);
        Seq::filter_distributes_over_add(head, tail, same);
        Seq::filter_distributes_over_add(head + seq![last], tail, same);
        Seq::filter_distributes_over_add(head, seq![last], same);
        assert(seq![last].drop_last() =~= Seq::<SearchResultView>::empty());
        assert(seq![last].drop_last().filter(same) =~= Seq::<SearchResultView>::empty());
        if same(last) {
            assert forall|j: int| 0 <= j < tail.len() implies !same(#[trigger] tail[j]) by {
                assert(tail[j] == before[at + j]);
                assert(lighter(before[at]));
            }
            lemma_none_kept(tail, same);
            assert(seq![last].filter(same) =~= seq![last]);
            assert(before.insert(at, last).filter(same) =~= before.filter(same).push(last));
        } else {
            assert(seq![last].filter(same) =~= Seq::<SearchResultView>::empty());
            assert(before.insert(at, last).filter(same) =~= before.filter(same));
        }
    }
}

/// When every outcome is a failure, nothing is merged and the ranked list is
/// empty.
pub proof fn lemma_all_failures_give_nothing(outcomes: Seq<OutcomeView>)
    requires
        forall|i: int| 0 <= i < outcomes.len() ==> (#[trigger] outcomes[i]) is Err,
    ensures
        merge_all(outcomes).len() == 0,
        aggregated(outcomes).len() == 0,
    decreases outcomes.len(),
{
    reveal(Seq::filter);
    if outcomes.len() > 0 {
        lemma_all_failures_give_nothing(outcomes.drop_last());
    }
    assert(merge_all(outcomes) =~= Seq::empty());
}

/// The union of two lists of names holds exactly the names of either, starts
/// with the first list, and names nothing twice unless the first list did.
pub proof fn lemma_union_names(existing: Seq<Seq<char>>, incoming: Seq<Seq<char>>)
    requires
        existing.no_duplicates(),
    ensures
        union_names(existing, incoming).no_duplicates(),
        existing.is_prefix_of(union_names(existing, incoming)),
        forall|name: Seq<char>|
            union_names(existing, incoming).contains(name) <==> existing.contains(name)
                || incoming.contains(name),
    decreases incoming.len(),
{
    if incoming.len() > 0 {
        let rest = incoming.drop_last();
        let last = incoming.last();
        lemma_union_names(existing, rest);
        let before = union_names(existing, rest);
        let after = union_names(existing, incoming);
        assert forall|name: Seq<char>|
            after.contains(name) <==> existing.contains(name) || incoming.contains(name) by {
            if incoming.contains(name) {
                let i = choose|i: int| 0 <= i < incoming.len() && incoming[i] == name;
                if i < rest.len() {
                    assert(rest[i] == name);
                }
            }
            if rest.contains(name) {
                let i = choose|i: int| 0 <= i < rest.len() && rest[i] == name;
                assert(incoming[i] == name);
            }
            assert(incoming[incoming.len() - 1] == last);
            if before.contains(name) {
                let i = choose|i: int| 0 <= i < before.len() && before[i] == name;
                if !before.contains(last) {
                    assert(after[i] == name);
                }
            }
            if !before.contains(last) {
                assert(after[before.len() as int] == last);
                if after.contains(name) {
                    let i = choose|i: int| 0 <= i < after.len() && after[i] == name;
                    if i < before.len() {
                        assert(before[i] == name);
                    }
                }
            }
        }
    }
}

/// A list that names nothing twice is what its union with nothing gives.
pub proof fn lemma_union_with_nothing(incoming: Seq<Seq<char>>)
    requires
        incoming.no_duplicates(),
    ensures
        union_names(Seq::empty(), incoming) == incoming,
    decreases incoming.len(),
{
    if incoming.len() > 0 {
        let rest = incoming.drop_last();
        lemma_union_with_nothing(rest);
        if rest.contains(incoming.last()) {
            let i = choose|i: int| 0 <= i < rest.len() && rest[i] == incoming.last();
            assert(incoming[i] == incoming[incoming.len() - 1]);
        }
        assert(rest.push(incoming.last()) =~= incoming);
    } else {
        assert(incoming =~= Seq::empty());
    }
}

/// Folding one result in keeps the addresses distinct and the engines of every
/// result named once. Afterwards exactly the position that [`position_of`]
/// gives holds the address of the result folded in; a result that was there
/// keeps its title and description and has the engines of both.
pub proof fn lemma_absorb(merged: Seq<SearchResultView>, incoming: SearchResultView)
    requires
        has_unique_urls(merged),
        has_sound_provenance(merged),
    ensures
        has_unique_urls(absorb(merged, incoming)),
        has_sound_provenance(absorb(merged, incoming)),
        0 <= position_of(merged, incoming.url) <= merged.len(),
        absorb(merged, incoming).len() == if position_of(merged, incoming.url) < merged.len() {
            merged.len()
        } else {
            merged.len() + 1
        },
        forall|i: int|
            0 <= i < absorb(merged, incoming).len() ==> ((#[trigger] absorb(
                merged,
                incoming,
            )[i]).url == incoming.url <==> i == position_of(merged, incoming.url)),
        forall|i: int|
            0 <= i < merged.len() ==> {
                let now = #[trigger] absorb(merged, incoming)[i];
                &&& now.url == merged[i].url
                &&& now.title == merged[i].title
                &&& now.description == merged[i].description
                &&& now.engine == if merged[i].url == incoming.url {
                    union_names(merged[i].engine, incoming.engine)
                } else {
                    merged[i].engine
                }
            },
{
    let same = |result: SearchResultView| result.url == incoming.url;
    lemma_first_match_is_first(merged, same);
    let at = position_of(merged, incoming.url);
    let after = absorb(merged, incoming);
    if at < merged.len() {
        lemma_union_names(merged[at].engine, incoming.engine);
        assert(same(merged[at]));
    } else {
        lemma_union_names(Seq::empty(), incoming.engine);
    }
    assert forall|i: int| 0 <= i < merged.len() && i != at implies merged[i].url
        != incoming.url by {
        if i < at {
            assert(!same(merged[i]));
        }
    }
    assert forall|i: int, j: int| 0 <= i < j < after.len() implies after[i].url
        != after[j].url by {
        if j < merged.len() {
            assert(merged[i].url != merged[j].url);
        }
    }
}

/// Whatever the outcomes, no two merged results have the same address, and
/// every merged result names each of its engines once.
pub proof fn lemma_merge_is_sound(outcomes: Seq<OutcomeView>)
    ensures
        has_unique_urls(merge_all(outcomes)),
        has_sound_provenance(merge_all(outcomes)),
    decreases outcomes.len(),
{
    if outcomes.len() > 0 {
        lemma_merge_is_sound(outcomes.drop_last());
        if let Ok(results) = outcomes.last() {
            lemma_absorb_all_is_sound(merge_all(outcomes.drop_last()), results);
        }
    }
}

/// Folding the results of one engine in keeps the addresses distinct and the
/// engines of every result named once.
pub proof fn lemma_absorb_all_is_sound(
    merged: Seq<SearchResultView>,
    results: Seq<SearchResultView>,
)
    requires
        has_unique_urls(merged),
        has_sound_provenance(merged),
    ensures
        has_unique_urls(absorb_all(merged, results)),
        has_sound_provenance(absorb_all(merged, results)),
    decreases results.len(),
{
    if results.len() > 0 {
        lemma_absorb_all_is_sound(merged, results.drop_last());
        lemma_absorb(absorb_all(merged, results.drop_last()), results.last());
    }
}

/// The merge of two outcomes that hold one result each.
proof fn lemma_merge_two(a: SearchResultView, b: SearchResultView)
    ensures
        merge_all(seq![Ok(seq![a]), Ok(seq![b])]) == absorb(absorb(Seq::empty(), a), b),
{
    let both: Seq<OutcomeView> = seq![Ok(seq![a]), Ok(seq![b])];
    let first: Seq<OutcomeView> = seq![Ok(seq![a])];
    assert(both.drop_last() =~= first);
    assert(first.drop_last() =~= Seq::<OutcomeView>::empty());
    assert(both.last() == Ok::<Seq<SearchResultView>, EngineErrorView>(seq![b]));
    assert(first.last() == Ok::<Seq<SearchResultView>, EngineErrorView>(seq![a]));
    assert(seq![a].drop_last() =~= Seq::<SearchResultView>::empty());
    assert(seq![b].drop_last() =~= Seq::<SearchResultView>::empty());
    assert(merge_all(first.drop_last()) =~= Seq::<SearchResultView>::empty());
    assert(absorb_all(Seq::<SearchResultView>::empty(), seq![a].drop_last()) =~= Seq::<
        SearchResultView,
    >::empty());
    assert(merge_all(first) == absorb(Seq::empty(), a));
    assert(absorb_all(merge_all(first), seq![b].drop_last()) == merge_all(first));
}

/// Two engines that return one result each, with different addresses, give
/// both results as they are, in the order of the two outcomes: whichever
/// outcome is merged first, the same two results are there.
pub proof fn lemma_merge_disjoint(a: SearchResultView, b: SearchResultView)
    requires
        a.url != b.url,
        a.engine.no_duplicates(),
        b.engine.no_duplicates(),
    ensures
        merge_all(seq![Ok(seq![a]), Ok(seq![b])]) == seq![a, b],
        merge_all(seq![Ok(seq![b]), Ok(seq![a])]) == seq![b, a],
        merge_all(seq![Ok(seq![a]), Ok(seq![b])]).to_set() == merge_all(
            seq![Ok(seq![b]), Ok(seq![a])],
        ).to_set(),
{
    lemma_merge_two(a, b);
    lemma_merge_two(b, a);
    lemma_union_with_nothing(a.engine);
    lemma_union_with_nothing(b.engine);
    let none = Seq::<SearchResultView>::empty();
    lemma_first_match(none, |result: SearchResultView| result.url == a.url, 0);
    lemma_first_match(none, |result: SearchResultView| result.url == b.url, 0);
    assert(absorb(none, a) =~= seq![a]);
    assert(absorb(none, b) =~= seq![b]);
    lemma_first_match(seq![a], |result: SearchResultView| result.url == b.url, 1);
    lemma_first_match(seq![b], |result: SearchResultView| result.url == a.url, 1);
    assert(absorb(seq![a], b) =~= seq![a, b]);
    assert(absorb(seq![b], a) =~= seq![b, a]);
    assert(seq![a, b].to_set() =~= seq![b, a].to_set()) by {
        assert forall|r: SearchResultView| seq![a, b].contains(r) <==> seq![b, a].contains(r) by {
            assert(seq![a, b][0] == a && seq![a, b][1] == b);
            assert(seq![b, a][0] == b && seq![b, a][1] == a);
        }
    }
}

/// Two engines that return the same address give one result: it has the title
/// and description that the first engine gave, names every engine of either
/// result, and names none twice.
pub proof fn lemma_merge_same_url(a: SearchResultView, b: SearchResultView)
    requires
        a.url == b.url,
    ensures
        merge_all(seq![Ok(seq![a]), Ok(seq![b])]).len() == 1,
        merge_all(seq![Ok(seq![a]), Ok(seq![b])])[0].url == a.url,
        merge_all(seq![Ok(seq![a]), Ok(seq![b])])[0].title == a.title,
        merge_all(seq![Ok(seq![a]), Ok(seq![b])])[0].description == a.description,
        merge_all(seq![Ok(seq![a]), Ok(seq![b])])[0].engine.no_duplicates(),
        forall|name: Seq<char>|
            merge_all(seq![Ok(seq![a]), Ok(seq![b])])[0].engine.contains(name) <==> a.engine.contains(
                name,
            ) || b.engine.contains(name),
{
    lemma_merge_two(a, b);
    let none = Seq::<SearchResultView>::empty();
    lemma_first_match(none, |result: SearchResultView| result.url == a.url, 0);
    let first = SearchResultView { engine: union_names(Seq::empty(), a.engine), ..a };
    assert(absorb(none, a) =~= seq![first]);
    lemma_first_match(seq![first], |result: SearchResultView| result.url == b.url, 0);
    lemma_union_names(Seq::empty(), a.engine);
    lemma_union_names(first.engine, b.engine);
    let merged = absorb(seq![first], b);
    assert(merged.len() == 1);
    assert(merged[0].engine == union_names(first.engine, b.engine));
    assert forall|name: Seq<char>|
        merged[0].engine.contains(name) <==> a.engine.contains(name) || b.engine.contains(
            name,
        ) by {
        assert(!Seq::<Seq<char>>::empty().contains(name));
    }
}

/// Whether `later` continues `earlier`: every result of `earlier` stands at
/// the same position of `later` with the same address, title and description,
/// and its engines come first among those named there.
pub open spec fn continues(earlier: Seq<SearchResultView>, later: Seq<SearchResultView>) -> bool {
    &&& earlier.len() <= later.len()
    &&& forall|i: int|
        0 <= i < earlier.len() ==> {
            let now = #[trigger] later[i];
            &&& now.url == earlier[i].url
            &&& now.title == earlier[i].title
            &&& now.description == earlier[i].description
            &&& earlier[i].engine.is_prefix_of(now.engine)
        }
}

/// What was merged first stays first and keeps its words: folding the results
/// of one more engine in moves nothing and changes no address, title or
/// description; it only adds results at the end and engines to results.
pub proof fn lemma_absorb_all_continues(
    merged: Seq<SearchResultView>,
    results: Seq<SearchResultView>,
)
    requires
        has_unique_urls(merged),
        has_sound_provenance(merged),
    ensures
        continues(merged, absorb_all(merged, results)),
    decreases results.len(),
{
    if results.len() > 0 {
        let rest = results.drop_last();
        let before = absorb_all(merged, rest);
        let after = absorb_all(merged, results);
        lemma_absorb_all_continues(merged, rest);
        lemma_absorb_all_is_sound(merged, rest);
        lemma_absorb(before, results.last());
        assert forall|i: int| 0 <= i < merged.len() implies merged[i].engine.is_prefix_of(
            (#[trigger] after[i]).engine,
        ) by {
            if before[i].url == results.last().url {
                lemma_union_names(before[i].engine, results.last().engine);
            }
        }
    }
}

/// The merge of more outcomes continues the merge of fewer: an outcome that
/// arrives later never displaces what earlier outcomes gave.
pub proof fn lemma_merge_continues(outcomes: Seq<OutcomeView>, n: int)
    requires
        0 <= n <= outcomes.len(),
    ensures
        continues(merge_all(outcomes.take(n)), merge_all(outcomes)),
    decreases outcomes.len() - n,
{
    if n == outcomes.len() {
        assert(outcomes.take(n) =~= outcomes);
    } else {
        let rest = outcomes.drop_last();
        assert(rest.take(n) =~= outcomes.take(n));
        lemma_merge_continues(rest, n);
        lemma_merge_is_sound(rest);
        if let Ok(results) = outcomes.last() {
            lemma_absorb_all_continues(merge_all(rest), results);
        }
    }
}

/// Whether `merged` holds a result with the address of `result` that names
/// every engine that `result` names.
pub open spec fn covers(merged: Seq<SearchResultView>, result: SearchResultView) -> bool {
    exists|k: int|
        0 <= k < merged.len() && (#[trigger] merged[k]).url == result.url && forall|
            name: Seq<char>,
        |
            result.engine.contains(name) ==> merged[k].engine.contains(name)
}

/// Folding a result in covers it, and uncovers nothing that was covered.
pub proof fn lemma_absorb_covers(
    merged: Seq<SearchResultView>,
    incoming: SearchResultView,
    earlier: SearchResultView,
)
    requires
        has_unique_urls(merged),
        has_sound_provenance(merged),
    ensures
        covers(absorb(merged, incoming), incoming),
        covers(merged, earlier) ==> covers(absorb(merged, incoming), earlier),
{
    lemma_absorb(merged, incoming);
    let at = position_of(merged, incoming.url);
    let after = absorb(merged, incoming);
    if at < merged.len() {
        lemma_union_names(merged[at].engine, incoming.engine);
    } else {
        lemma_union_names(Seq::empty(), incoming.engine);
    }
    assert(after[at].url == incoming.url);
    if covers(merged, earlier) {
        let k = choose|k: int|
            0 <= k < merged.len() && (#[trigger] merged[k]).url == earlier.url && forall|
                name: Seq<char>,
            |
                earlier.engine.contains(name) ==> merged[k].engine.contains(name);
        if merged[k].url == incoming.url {
            lemma_union_names(merged[k].engine, incoming.engine);
        }
        assert(after[k].url == earlier.url);
    }
}

/// Folding the results of one engine in covers each of them, and uncovers
/// nothing that was covered.
pub proof fn lemma_absorb_all_covers(
    merged: Seq<SearchResultView>,
    results: Seq<SearchResultView>,
    earlier: SearchResultView,
)
    requires
        has_unique_urls(merged),
        has_sound_provenance(merged),
    ensures
        forall|j: int| 0 <= j < results.len() ==> covers(absorb_all(merged, results), #[trigger] results[j]),
        covers(merged, earlier) ==> covers(absorb_all(merged, results), earlier),
    decreases results.len(),
{
    if results.len() > 0 {
        let rest = results.drop_last();
        let before = absorb_all(merged, rest);
        lemma_absorb_all_covers(merged, rest, earlier);
        lemma_absorb_all_is_sound(merged, rest);
        lemma_absorb_covers(before, results.last(), earlier);
        assert forall|j: int| 0 <= j < results.len() implies covers(
            absorb_all(merged, results),
            #[trigger] results[j],
        ) by {
            if j < rest.len() {
                assert(rest[j] == results[j]);
                lemma_absorb_covers(before, results.last(), results[j]);
            }
        }
    }
}

/// No result of a successful engine vanishes: the merge holds its address, with
/// every engine that the result names.
pub proof fn lemma_merge_covers(
    outcomes: Seq<OutcomeView>,
    i: int,
    results: Seq<SearchResultView>,
    j: int,
)
    requires
        0 <= i < outcomes.len(),
        outcomes[i] == Ok::<Seq<SearchResultView>, EngineErrorView>(results),
        0 <= j < results.len(),
    ensures
        covers(merge_all(outcomes), results[j]),
    decreases outcomes.len(),
{
    let rest = outcomes.drop_last();
    lemma_merge_is_sound(rest);
    if i < outcomes.len() - 1 {
        assert(rest[i] == outcomes[i]);
        lemma_merge_covers(rest, i, results, j);
        if let Ok(last) = outcomes.last() {
            lemma_absorb_all_covers(merge_all(rest), last, results[j]);
        }
    } else {
        lemma_absorb_all_covers(merge_all(rest), results, results[j]);
    }
}

/// The ranked list holds exactly the merged results that carry a title or a
/// description, each as often as the merge does, and puts none before one that
/// more engines confirmed. So it is empty only when no merged result can be
/// read.
pub proof fn lemma_aggregated_is_ranked(outcomes: Seq<OutcomeView>)
    ensures
        is_ordered(aggregated(outcomes)),
        aggregated(outcomes).len() == without_noise(merge_all(outcomes)).len(),
        aggregated(outcomes).to_multiset() == without_noise(merge_all(outcomes)).to_multiset(),
        forall|i: int|
            0 <= i < aggregated(outcomes).len() ==> !(#[trigger] aggregated(outcomes)[i]).is_noise(),
{
    let merged = merge_all(outcomes);
    let readable = |result: SearchResultView| !result.is_noise();
    let kept = without_noise(merged);
    lemma_ranked_is_ordered(kept);
    assert forall|i: int| 0 <= i < aggregated(outcomes).len() implies !(#[trigger] aggregated(
        outcomes,
    )[i]).is_noise() by {
        let entry = aggregated(outcomes)[i];
        assert(aggregated(outcomes).contains(entry));
        vstd::seq_lib::to_multiset_contains(aggregated(outcomes), entry);
        vstd::seq_lib::to_multiset_contains(kept, entry);
        let k = choose|k: int| 0 <= k < kept.len() && kept[k] == entry;
        merged.lemma_filter_pred(readable, k);
    }
}

/// Dropping results leaves the addresses distinct.
pub proof fn lemma_filter_keeps_urls_unique(
    entries: Seq<SearchResultView>,
    pred: spec_fn(SearchResultView) -> bool,
)
    requires
        has_unique_urls(entries),
    ensures
        has_unique_urls(entries.filter(pred)),
    decreases entries.len(),
{
    reveal(Seq::filter);
    if entries.len() > 0 {
        let rest = entries.drop_last();
        let last = entries.last();
        let kept = rest.filter(pred);
        lemma_filter_keeps_urls_unique(rest, pred);
        if pred(last) {
            let all = entries.filter(pred);
            assert(all =~= kept.push(last));
            assert forall|i: int, j: int| 0 <= i < j < all.len() implies all[i].url
                != all[j].url by {
                if j == kept.len() {
                    assert(kept.contains(kept[i]));
                    rest.lemma_filter_contains_rev(pred, kept[i]);
                    let m = choose|m: int| 0 <= m < rest.len() && rest[m] == kept[i];
                    assert(entries[m].url != entries[entries.len() - 1].url);
                } else {
                    assert(kept[i].url != kept[j].url);
                }
            }
        }
    }
}

/// Ranking leaves the addresses distinct.
pub proof fn lemma_ranked_keeps_urls_unique(entries: Seq<SearchResultView>)
    requires
        has_unique_urls(entries),
    ensures
        has_unique_urls(ranked(entries)),
    decreases entries.len(),
{
    if entries.len() > 0 {
        let rest = entries.drop_last();
        let last = entries.last();
        lemma_ranked_keeps_urls_unique(rest);
        lemma_ranked_is_ordered(rest);
        let before = ranked(rest);
        lemma_first_match_is_first(
            before,
            |result: SearchResultView| result.engine.len() < last.engine.len(),
        );
        let at = slot_for(before, last.engine.len());
        let after = before.insert(at, last);
        assert forall|k: int| 0 <= k < before.len() implies (#[trigger] before[k]).url
            != last.url by {
            assert(before.contains(before[k]));
            vstd::seq_lib::to_multiset_contains(before, before[k]);
            vstd::seq_lib::to_multiset_contains(rest, before[k]);
            let m = choose|m: int| 0 <= m < rest.len() && rest[m] == before[k];
            assert(entries[m].url != entries[entries.len() - 1].url);
        }
        assert forall|i: int, j: int| 0 <= i < j < after.len() implies after[i].url
            != after[j].url by {
            let a = if i < at { i } else { i - 1 };
            let b = if j < at { j } else { j - 1 };
            if i != at && j != at {
                assert(after[i] == before[a] && after[j] == before[b]);
                assert(before[a].url != before[b].url);
            } else if i == at {
                assert(after[j] == before[b]);
            } else {
                assert(after[i] == before[a]);
            }
        }
    }
}

/// The ranked list holds each address once, and every result in it names each
/// of its engines once.
pub proof fn lemma_aggregated_is_sound(outcomes: Seq<OutcomeView>)
    ensures
        has_unique_urls(aggregated(outcomes)),
        has_sound_provenance(aggregated(outcomes)),
{
    let merged = merge_all(outcomes);
    let readable = |result: SearchResultView| !result.is_noise();
    let kept = without_noise(merged);
    lemma_merge_is_sound(outcomes);
    lemma_filter_keeps_urls_unique(merged, readable);
    lemma_ranked_keeps_urls_unique(kept);
    lemma_ranked_is_ordered(kept);
    assert forall|i: int| 0 <= i < aggregated(outcomes).len() implies (#[trigger] aggregated(
        outcomes,
    )[i]).engine.no_duplicates() by {
        let entry = aggregated(outcomes)[i];
        assert(aggregated(outcomes).contains(entry));
        vstd::seq_lib::to_multiset_contains(aggregated(outcomes), entry);
        vstd::seq_lib::to_multiset_contains(kept, entry);
        merged.lemma_filter_contains_rev(readable, entry);
        let m = choose|m: int| 0 <= m < merged.len() && merged[m] == entry;
        assert(merged[m].engine.no_duplicates());
    }
}

} // verus!
