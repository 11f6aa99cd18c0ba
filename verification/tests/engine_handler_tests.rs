use anvesh::engine_handler::{lookup_engine, resolve_name, EngineHandler, EngineKind, EngineOutcome};
use anvesh::models::aggregation_models::SearchResult;
use anvesh::models::engine_models::{EngineError, EngineErrorType, QueryType, QueryTypes};

fn names(list: &[&str]) -> Vec<String> {
    list.iter().map(|name| name.to_string()).collect()
}

#[test]
fn new_resolves_every_known_name_in_order() {
    let handler = EngineHandler::new(names(&["searx", "duckduckgo", "brave"])).unwrap();
    assert_eq!(handler.len(), 3);
    assert_eq!(
        handler.engines(),
        vec![EngineKind::Searx, EngineKind::DuckDuckGo, EngineKind::Brave]
    );
}

#[test]
fn new_ignores_case() {
    let handler = EngineHandler::new(names(&["DuckDuckGo", "SEARX", "bRaVe"])).unwrap();
    assert_eq!(
        handler.engines(),
        vec![EngineKind::DuckDuckGo, EngineKind::Searx, EngineKind::Brave]
    );
}

#[test]
fn new_with_no_names_gives_an_empty_handler() {
    let handler = EngineHandler::new(Vec::new()).unwrap();
    assert_eq!(handler.len(), 0);
    assert!(handler.dispatch(&None).is_empty());
}

#[test]
fn new_keeps_repeated_names() {
    let handler = EngineHandler::new(names(&["brave", "Brave"])).unwrap();
    assert_eq!(handler.engines(), vec![EngineKind::Brave, EngineKind::Brave]);
}

#[test]
fn new_fails_on_an_unknown_name() {
    match EngineHandler::new(names(&["duckduckgo", "Bing", "searx"])) {
        Ok(_) => panic!("an unknown engine was accepted"),
        Err(error) => {
            assert_eq!(error.error_type, EngineErrorType::NoSuchEngineFound);
            assert_eq!(error.engine, "Bing");
        }
    }
}

#[test]
fn new_names_the_first_unknown_name() {
    match EngineHandler::new(names(&["brave", "yahoo", "bing"])) {
        Ok(_) => panic!("an unknown engine was accepted"),
        Err(error) => assert_eq!(error.engine, "yahoo"),
    }
}

#[test]
fn new_rejects_names_with_surrounding_space() {
    assert!(EngineHandler::new(names(&[" brave"])).is_err());
    assert!(EngineHandler::new(names(&[""])).is_err());
}

#[test]
fn resolve_name_lowers_before_it_looks_up() {
    assert_eq!(resolve_name("DUCKDUCKGO"), Some(EngineKind::DuckDuckGo));
    assert_eq!(resolve_name("Searx"), Some(EngineKind::Searx));
    assert_eq!(resolve_name("brave"), Some(EngineKind::Brave));
    assert_eq!(resolve_name("google"), None);
}

#[test]
fn lookup_engine_is_exact() {
    assert_eq!(lookup_engine(&"searx".to_string()), Some(EngineKind::Searx));
    assert_eq!(lookup_engine(&"Searx".to_string()), None);
    assert_eq!(lookup_engine(&"searx ".to_string()), None);
}

#[test]
fn engine_names_are_the_registered_ones() {
    assert_eq!(EngineKind::DuckDuckGo.get_name(), "duckduckgo");
    assert_eq!(EngineKind::Searx.get_name(), "searx");
    assert_eq!(EngineKind::Brave.get_name(), "brave");
}

#[test]
fn dispatch_without_names_asks_every_engine() {
    let handler = EngineHandler::new(names(&["duckduckgo", "searx", "brave"])).unwrap();
    assert_eq!(
        handler.dispatch(&None),
        vec![EngineKind::DuckDuckGo, EngineKind::Searx, EngineKind::Brave]
    );
}

#[test]
fn dispatch_with_names_asks_only_those() {
    let handler = EngineHandler::new(names(&["duckduckgo", "searx", "brave"])).unwrap();
    assert_eq!(
        handler.dispatch(&Some(names(&["brave", "duckduckgo"]))),
        vec![EngineKind::DuckDuckGo, EngineKind::Brave]
    );
    assert_eq!(handler.dispatch(&Some(names(&["searx"]))), vec![EngineKind::Searx]);
}

#[test]
fn dispatch_ignores_names_that_no_configured_engine_bears() {
    let handler = EngineHandler::new(names(&["duckduckgo", "searx"])).unwrap();
    assert_eq!(
        handler.dispatch(&Some(names(&["brave", "bing", "searx"]))),
        vec![EngineKind::Searx]
    );
    assert!(handler.dispatch(&Some(names(&["Searx"]))).is_empty());
    assert!(handler.dispatch(&Some(Vec::new())).is_empty());
}

fn success(url: &str) -> EngineOutcome {
    Ok(vec![SearchResult::new("t", url, "d", &names(&["searx"]))])
}

fn failure(kind: EngineErrorType) -> EngineOutcome {
    Err(EngineError { error_type: kind, engine: "brave".to_string() })
}

#[test]
fn join_has_one_outcome_per_unit_that_came_back() {
    let outcomes = EngineHandler::join(vec![
        Some(success("u1")),
        Some(failure(EngineErrorType::RequestError)),
        Some(success("u2")),
    ]);
    assert_eq!(outcomes.len(), 3);
    assert_eq!(outcomes[0].as_ref().unwrap()[0].url, "u1");
    assert_eq!(outcomes[1].as_ref().unwrap_err().error_type, EngineErrorType::RequestError);
    assert_eq!(outcomes[2].as_ref().unwrap()[0].url, "u2");
}

#[test]
fn join_leaves_out_units_without_an_outcome() {
    let outcomes = EngineHandler::join(vec![None, Some(success("u1")), None]);
    assert_eq!(outcomes.len(), 1);
    assert_eq!(outcomes[0].as_ref().unwrap()[0].url, "u1");
    assert!(EngineHandler::join(vec![None, None]).is_empty());
    assert!(EngineHandler::join(Vec::new()).is_empty());
}

#[test]
fn outcome_count_equals_dispatched_count() {
    let handler = EngineHandler::new(names(&["duckduckgo", "searx", "brave"])).unwrap();
    let plan = handler.dispatch(&Some(names(&["searx", "brave"])));
    let finished: Vec<Option<EngineOutcome>> =
        plan.iter().map(|kind| Some(success(kind.get_name()))).collect();
    assert_eq!(EngineHandler::join(finished).len(), 2);
}

#[test]
fn message_of_each_error_kind() {
    let error = |kind| EngineError { error_type: kind, engine: "bing".to_string() };
    assert_eq!(
        error(EngineErrorType::NoSuchEngineFound).message(),
        "No such engine with the name 'bing' found"
    );
    assert_eq!(
        error(EngineErrorType::EmptyResultSet).message(),
        "The upstream search engine returned an empty result set"
    );
    assert_eq!(
        error(EngineErrorType::RequestError).message(),
        "Error occurred while requesting data from upstream search engine"
    );
    assert_eq!(
        error(EngineErrorType::UnexpectedError).message(),
        "An unexpected error occurred while processing the data"
    );
}

#[test]
fn query_types_hold_several_kinds_at_once() {
    let none = QueryTypes::empty();
    assert!(!none.contains(QueryType::Text));
    let text = QueryTypes::only(QueryType::Text);
    assert!(text.contains(QueryType::Text));
    assert!(!text.contains(QueryType::Video));
    let both = text.with(QueryType::Image);
    assert!(both.contains(QueryType::Text) && both.contains(QueryType::Image));
    assert!(!both.contains(QueryType::File) && !both.contains(QueryType::AutoCompletion));
    assert_eq!(both.with(QueryType::Image), both);
}

#[test]
fn query_types_intersect_when_they_share_a_kind() {
    let text_image = QueryTypes::only(QueryType::Text).with(QueryType::Image);
    let image_file = QueryTypes::only(QueryType::Image).with(QueryType::File);
    let video = QueryTypes::only(QueryType::Video);
    assert!(text_image.intersects(image_file));
    assert!(!text_image.intersects(video));
    assert!(!QueryTypes::empty().intersects(text_image));
    assert!(QueryTypes::only(QueryType::AutoCompletion)
        .intersects(QueryTypes::only(QueryType::AutoCompletion)));
}

#[test]
fn stalled_is_a_request_failure_of_that_engine() {
    match EngineHandler::stalled(EngineKind::Searx) {
        Ok(_) => panic!("a stalled engine has no results"),
        Err(error) => {
            assert_eq!(error.error_type, EngineErrorType::RequestError);
            assert_eq!(error.engine, "searx");
        }
    }
    assert_eq!(EngineHandler::stalled(EngineKind::Brave).unwrap_err().engine, "brave");
}

#[test]
fn excluded_engines_contribute_no_outcome() {
    let handler = EngineHandler::new(names(&["duckduckgo", "searx", "brave"])).unwrap();
    let plan = handler.dispatch(&Some(names(&["brave"])));
    assert_eq!(plan, vec![EngineKind::Brave]);
    let finished: Vec<Option<EngineOutcome>> =
        plan.iter().map(|kind| Some(EngineHandler::stalled(*kind))).collect();
    let outcomes = EngineHandler::join(finished);
    assert_eq!(outcomes.len(), 1);
    assert_eq!(outcomes[0].as_ref().unwrap_err().engine, "brave");
}

#[test]
fn resolve_name_lowers_letters_outside_ascii() {
    assert_eq!(resolve_name("DUC\u{212A}DUCKGO"), Some(EngineKind::DuckDuckGo));
    assert_eq!(lookup_engine(&"duc\u{212A}duckgo".to_string()), None);
    match EngineHandler::new(names(&["\u{212A}"])) {
        Ok(_) => panic!("an unknown engine was accepted"),
        Err(error) => assert_eq!(error.engine, "\u{212A}"),
    }
}
