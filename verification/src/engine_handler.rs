//! The closed registry of upstream engines and the handler that decides, for
//! each query, which of the configured engines are asked and which of their
//! answers are handed on.

use crate::models::aggregation_models::{holds_name, names_view, SearchResult};
use crate::models::engine_models::{EngineError, EngineErrorType};
use crate::sequences::lemma_all_kept;
use vstd::prelude::*;
use vstd::string::StringExecFns;

verus! {

/// The upstream engines that exist. The set is closed: a name that is not one
/// of these resolves to nothing.
#[derive(Debug, Clone, Copy, PartialEq, Eq, Structural)]
pub enum EngineKind {
    DuckDuckGo,
    Searx,
    Brave,
}

impl EngineKind {
    /// The name under which the engine is registered and requested.
    pub open spec fn name(self) -> Seq<char> {
        match self {
            EngineKind::DuckDuckGo => "duckduckgo"@,
            EngineKind::Searx => "searx"@,
            EngineKind::Brave => "brave"@,
        }
    }

    /// The name under which the engine is registered and requested.
    pub fn get_name(self) -> (name: &'static str)
        ensures
            name@ == self.name(),
    {
        match self {
            EngineKind::DuckDuckGo => "duckduckgo",
            EngineKind::Searx => "searx",
            EngineKind::Brave => "brave",
        }
    }
}

/// What one engine answered to one query: the results it found, or its failure.
pub type EngineOutcome = Result<Vec<SearchResult>, EngineError>;

/// The outcomes of all engines that were asked and came back.
pub type RawResults = Vec<EngineOutcome>;

/// The lower-case form of `name`, as `str::to_lowercase` computes it.
pub uninterp spec fn lowercase(name: Seq<char>) -> Seq<char>;

/// Calls `str::to_lowercase` of the standard library. The result is a function
/// of the text alone and is known here only by its name, [`lowercase`].
#[verifier::external_body]
fn to_lowercase(name: &str) -> (lowered: String)
    ensures
        lowered@ == lowercase(name@),
{
    name.to_lowercase()
}

/// The engine registered under the lower-case name `lowered`, if any.
pub open spec fn registry(lowered: Seq<char>) -> Option<EngineKind> {
    if lowered == EngineKind::DuckDuckGo.name() {
        Some(EngineKind::DuckDuckGo)
    } else if lowered == EngineKind::Searx.name() {
        Some(EngineKind::Searx)
    } else if lowered == EngineKind::Brave.name() {
        Some(EngineKind::Brave)
    } else {
        None
    }
}

/// The engine that `name` stands for, whatever its case.
pub open spec fn resolve(name: Seq<char>) -> Option<EngineKind> {
    registry(lowercase(name))
}

/// Whether position `i` holds the first name of `names` that stands for no engine.
pub open spec fn first_unresolved(names: Seq<Seq<char>>, i: int) -> bool {
    &&& 0 <= i < names.len()
    &&& resolve(names[i]) is None
    &&& forall|j: int| 0 <= j < i ==> (#[trigger] resolve(names[j])) is Some
}

/// Whether a query that names `requested` (or names nothing) is sent to `kind`.
pub open spec fn is_requested(requested: Option<Seq<Seq<char>>>, kind: EngineKind) -> bool {
    match requested {
        None => true,
        Some(names) => names.contains(kind.name()),
    }
}

/// The value of an optional list of requested names.
pub open spec fn requested_view(engine_names: Option<Vec<String>>) -> Option<Seq<Seq<char>>> {
    match engine_names {
        None => None,
        Some(names) => Some(names_view(names@)),
    }
}

/// The engines among `configured` that a query naming `requested` is sent to, in
/// configuration order.
pub open spec fn dispatched(configured: Seq<EngineKind>, requested: Option<Seq<Seq<char>>>) -> Seq<
    EngineKind,
> {
    configured.filter(|kind: EngineKind| is_requested(requested, kind))
}

/// The outcomes of the units that came back, in the order of `finished`. A unit
/// that ended without an outcome is `None` and leaves no trace.
pub open spec fn joined(finished: Seq<Option<EngineOutcome>>) -> Seq<EngineOutcome> {
    finished.filter(|unit: Option<EngineOutcome>| unit is Some).map_values(
        |unit: Option<EngineOutcome>| unit->0,
    )
}

/// Looks `lowered`, a name already in lower case, up in the registry.
pub fn lookup_engine(lowered: &String) -> (found: Option<EngineKind>)
    ensures
        found == registry(lowered@),
{
    if *lowered == String::from_str(EngineKind::DuckDuckGo.get_name()) {
        Some(EngineKind::DuckDuckGo)
    } else if *lowered == String::from_str(EngineKind::Searx.get_name()) {
        Some(EngineKind::Searx)
    } else if *lowered == String::from_str(EngineKind::Brave.get_name()) {
        Some(EngineKind::Brave)
    } else {
        None
    }
}

/// Resolves `name` against the registry without regard to case.
pub fn resolve_name(name: &str) -> (found: Option<EngineKind>)
    ensures
        found == resolve(name@),
{
    let lowered = to_lowercase(name);
    lookup_engine(&lowered)
}

/// The engines a service was configured with.
pub struct EngineHandler {
    engines: Vec<EngineKind>,
}

impl View for EngineHandler {
    type V = Seq<EngineKind>;

    closed spec fn view(&self) -> Seq<EngineKind> {
        self.engines@
    }
}

impl EngineHandler {
    /// Resolves every configured name, or fails on the first that stands for no
    /// engine. The handler holds one engine per name, in the order of the names.
    pub fn new(engine_names: Vec<String>) -> (made: Result<EngineHandler, EngineError>)
        ensures
            made is Ok <==> forall|i: int|
                0 <= i < engine_names@.len() ==> (#[trigger] resolve(engine_names@[i]@)) is Some,
            made matches Ok(handler) ==> {
                &&& handler@.len() == engine_names@.len()
                &&& forall|i: int|
                    0 <= i < engine_names@.len() ==> #[trigger] resolve(engine_names@[i]@) == Some(
                        handler@[i],
                    )
            },
            made matches Err(error) ==> {
                &&& error.error_type == EngineErrorType::NoSuchEngineFound
                &&& exists|i: int|
                    #![trigger engine_names@[i]]
                    first_unresolved(names_view(engine_names@), i) && error.engine@
                        == engine_names@[i]@
            },
    {
        let mut engines: Vec<EngineKind> = Vec::new();
        let mut i: usize = 0;
        while i < engine_names.len()
            invariant
                i <= engine_names.len(),
                engines@.len() == i,
                forall|j: int|
                    0 <= j < i ==> #[trigger] resolve(engine_names@[j]@) == Some(engines@[j]),
            decreases engine_names.len() - i,
        {
            match resolve_name(engine_names[i].as_str()) {
                Some(kind) => engines.push(kind),
                None => {
                    let error = EngineError {
                        error_type: EngineErrorType::NoSuchEngineFound,
                        engine: engine_names[i].clone(),
                    };
                    proof {
                        let names = names_view(engine_names@);
                        assert forall|j: int| 0 <= j < i implies (#[trigger] resolve(
                            names[j],
                        )) is Some by {
                            assert(resolve(engine_names@[j]@) is Some);
                        }
                        assert(first_unresolved(names, i as int));
                    }
                    return Err(error);
                },
            }
            i += 1;
        }
        Ok(EngineHandler { engines })
    }

    /// The number of configured engines.
    pub fn len(&self) -> (count: usize)
        ensures
            count == self@.len(),
    {
        self.engines.len()
    }

    /// The configured engines, in configuration order.
    pub fn engines(&self) -> (kinds: Vec<EngineKind>)
        ensures
            kinds@ == self@,
    {
        let mut kinds: Vec<EngineKind> = Vec::new();
        let mut i: usize = 0;
        while i < self.engines.len()
            invariant
                i <= self.engines.len(),
                kinds@ == self.engines@.take(i as int),
            decreases self.engines.len() - i,
        {
            kinds.push(self.engines[i]);
            assert(self.engines@.take(i + 1) =~= self.engines@.take(i as int).push(
                self.engines@[i as int],
            ));
            i += 1;
        }
        assert(self.engines@.take(i as int) =~= self.engines@);
        kinds
    }

    /// The engines that a query is sent to: every configured engine whose name
    /// is among `engine_names`, or every configured engine if no names are
    /// given. A requested name that no configured engine bears is ignored.
    pub fn dispatch(&self, engine_names: &Option<Vec<String>>) -> (plan: Vec<EngineKind>)
        ensures
            plan@ == dispatched(self@, requested_view(*engine_names)),
    {
        let ghost requested = requested_view(*engine_names);
        let ghost wanted = |kind: EngineKind| is_requested(requested, kind);
        let mut plan: Vec<EngineKind> = Vec::new();
        let mut i: usize = 0;
        while i < self.engines.len()
            invariant
                i <= self.engines.len(),
                requested == requested_view(*engine_names),
                wanted == |kind: EngineKind| is_requested(requested, kind),
                plan@ == self.engines@.take(i as int).filter(wanted),
            decreases self.engines.len() - i,
        {
            let kind = self.engines[i];
            let asked = match engine_names {
                Some(names) => holds_name(names, kind.get_name()),
                None => true,
            };
            proof {
                reveal(Seq::filter);
                assert(self.engines@.take(i + 1).drop_last() =~= self.engines@.take(i as int));
                assert(asked == wanted(kind));
            }
            if asked {
                plan.push(kind);
            }
            i += 1;
        }
        assert(self.engines@.take(i as int) =~= self.engines@);
        plan
    }

    /// The outcome recorded for an engine that did not answer within the time
    /// it was given: a request failure under the engine's name.
    pub fn stalled(kind: EngineKind) -> (outcome: EngineOutcome)
        ensures
            outcome matches Err(error) && error.error_type == EngineErrorType::RequestError
                && error.engine@ == kind.name(),
    {
        Err(
            EngineError {
                error_type: EngineErrorType::RequestError,
                engine: String::from_str(kind.get_name()),
            },
        )
    }

    /// Gathers what the units of one query left behind, one entry of `finished`
    /// per unit that was started: the outcome of each unit that came back, in
    /// the order of `finished`. A unit that ended without an outcome is left out.
    pub fn join(finished: Vec<Option<EngineOutcome>>) -> (outcomes: RawResults)
        ensures
            outcomes@ == joined(finished@),
    {
        let ghost came_back = |unit: Option<EngineOutcome>| unit is Some;
        let ghost outcome_of = |unit: Option<EngineOutcome>| unit->0;
        let ghost units = finished@;
        let mut outcomes: Vec<EngineOutcome> = Vec::new();
        for unit in iter: finished
            invariant
                iter.seq() == units,
                came_back == |unit: Option<EngineOutcome>| unit is Some,
                outcome_of == |unit: Option<EngineOutcome>| unit->0,
                outcomes@ == units.take(iter.index() as int).filter(came_back).map_values(outcome_of),
        {
            proof {
                reveal(Seq::filter);
                let k = iter.index() as int;
                assert(units.take(k + 1).drop_last() =~= units.take(k));
                assert(units.take(k).filter(came_back).push(unit).map_values(outcome_of)
                    =~= units.take(k).filter(came_back).map_values(outcome_of).push(
                    outcome_of(unit),
                ));
            }
            if let Some(outcome) = unit {
                outcomes.push(outcome);
            }
        }
        assert(units.take(units.len() as int) =~= units);
        outcomes
    }
}

/// Every engine is registered under its own name, and under no other name of
/// the registry: looking the name of an engine up gives that engine.
pub proof fn lemma_registry_finds_each_engine(kind: EngineKind)
    ensures
        registry(kind.name()) == Some(kind),
{
    reveal_strlit("duckduckgo");
    reveal_strlit("searx");
    reveal_strlit("brave");
    assert("searx"@[0] != "brave"@[0]);
}

/// When every started unit comes back, there is one outcome per unit, in the
/// order of the units; in any case there are no more outcomes than units.
pub proof fn lemma_join_accounts_for_all(finished: Seq<Option<EngineOutcome>>)
    ensures
        joined(finished).len() <= finished.len(),
        (forall|i: int| 0 <= i < finished.len() ==> (#[trigger] finished[i]) is Some) ==> {
            &&& joined(finished).len() == finished.len()
            &&& forall|i: int|
                0 <= i < finished.len() ==> finished[i] == Some(#[trigger] joined(finished)[i])
        },
{
    let came_back = |unit: Option<EngineOutcome>| unit is Some;
    finished.lemma_filter_len(came_back);
    if forall|i: int| 0 <= i < finished.len() ==> (#[trigger] finished[i]) is Some {
        lemma_all_kept(finished, came_back);
    }
}

/// A query that names no engines is sent to every configured engine. A query
/// that names engines is sent to configured engines only, to those it names
/// only, and to no more engines than are configured.
pub proof fn lemma_dispatch_respects_request(
    configured: Seq<EngineKind>,
    requested: Option<Seq<Seq<char>>>,
)
    ensures
        requested is None ==> dispatched(configured, requested) == configured,
        dispatched(configured, requested).len() <= configured.len(),
        forall|i: int|
            0 <= i < dispatched(configured, requested).len() ==> {
                let kind = #[trigger] dispatched(configured, requested)[i];
                configured.contains(kind) && is_requested(requested, kind)
            },
        forall|i: int|
            0 <= i < configured.len() && is_requested(requested, #[trigger] configured[i])
                ==> dispatched(configured, requested).contains(configured[i]),
{
    let wanted = |kind: EngineKind| is_requested(requested, kind);
    configured.lemma_filter_len(wanted);
    if requested is None {
        lemma_all_kept(configured, wanted);
    }
    assert forall|i: int|
        0 <= i < configured.len() && is_requested(
            requested,
            #[trigger] configured[i],
        ) implies dispatched(configured, requested).contains(configured[i]) by {
        configured.lemma_filter_contains(wanted, i);
    }
    assert forall|i: int| 0 <= i < dispatched(configured, requested).len() implies {
        let kind = #[trigger] dispatched(configured, requested)[i];
        configured.contains(kind) && is_requested(requested, kind)
    } by {
        let kind = dispatched(configured, requested)[i];
        configured.lemma_filter_pred(wanted, i);
        configured.lemma_filter_contains_rev(wanted, kind);
    }
}

} // verus!
