use acervo::compile::search_matchers;
use acervo::request::{SearchEvent, SearchRequest, SearchResult};
use acervo::inspection::{
    inspect, modified_seconds, FileFacts, Inspection, InspectionPhase, MAX_CONTENT_BYTES,
    REUSABLE_BUFFER_BYTES,
};
use acervo::matchers::SearchMatchers;
use acervo::search::{
    run_streaming_search, walk_settings, worker_threads, Catalog, CatalogStep, EntryKind,
    SearchProgress, SearchStage, Visit, MAX_RESULTS,
};
use acervo::session::AppState;

fn request(query: &str, mode: &str) -> SearchRequest {
    SearchRequest {
        directory: ".".into(),
        query: query.into(),
        mode: mode.into(),
        use_regex: false,
        case_sensitive: false,
        whole_word: false,
        include_hidden: false,
        include_subfolders: true,
        pre_count: false,
        file_pattern: "*".into(),
        min_size: None,
        max_size: None,
        min_modified: None,
        max_modified: None,
    }
}

fn known(
    req: &SearchRequest,
    matchers: &SearchMatchers,
    name: &str,
    size: u64,
    modified: u64,
) -> Inspection {
    let facts = FileFacts {
        path: format!("/dados/{name}"),
        size,
        since_epoch: Some(modified),
    };
    inspect(&None, name.into()).facts_known(req, matchers, Some(facts))
}

fn told(run: Inspection) -> Option<SearchResult> {
    match run.phase {
        InspectionPhase::Done(told) => told,
        _ => panic!("an outcome was expected"),
    }
}

fn item() -> SearchResult {
    SearchResult {
        name: "a".into(),
        path: "/a".into(),
        size: 1,
        modified: 2,
        matches: 3,
    }
}

#[test]
fn threads_follow_the_machine() {
    assert_eq!(worker_threads("content", Some(1)), 8);
    assert_eq!(worker_threads("content", Some(4)), 8);
    assert_eq!(worker_threads("content", Some(6)), 12);
    assert_eq!(worker_threads("content", Some(16)), 32);
    assert_eq!(worker_threads("content", Some(usize::MAX)), 32);
    assert_eq!(worker_threads("content", None), 16);
    assert_eq!(worker_threads("name", Some(1)), 4);
    assert_eq!(worker_threads("name", Some(10)), 10);
    assert_eq!(worker_threads("name", Some(64)), 16);
    assert_eq!(worker_threads("name", None), 8);
    assert_eq!(worker_threads("Content", Some(6)), 6);
}

#[test]
fn files_are_counted_before_a_search() {
    let mut catalog = Catalog::new(7);
    assert!(matches!(
        catalog.visit(7, EntryKind::File, 99),
        CatalogStep::Continue { event: None }
    ));
    assert!(matches!(
        catalog.visit(7, EntryKind::File, 100),
        CatalogStep::Continue {
            event: Some(SearchEvent::Cataloging { discovered: 2 })
        }
    ));
    assert!(matches!(
        catalog.visit(7, EntryKind::Other, 900),
        CatalogStep::Continue { event: None }
    ));
    assert!(matches!(
        catalog.visit(7, EntryKind::Unreadable, 900),
        CatalogStep::Continue { event: None }
    ));
    assert!(matches!(
        catalog.visit(7, EntryKind::File, 50),
        CatalogStep::Continue { event: None }
    ));
    assert!(matches!(
        catalog.visit(8, EntryKind::File, 900),
        CatalogStep::Quit
    ));
    assert!(matches!(
        Catalog { ..catalog }.finish(7),
        Ok(SearchProgress {
            id: 7,
            scanned: 0,
            found: 0,
            last_progress_ms: 0,
            total: Some(3)
        })
    ));
    assert!(matches!(
        catalog.finish(8),
        Err(SearchEvent::Finished {
            scanned: 0,
            found: 0,
            cancelled: true
        })
    ));
}

#[test]
fn progress_is_told_now_and_then() {
    let mut progress = SearchProgress::new(3, Some(10));
    assert!(matches!(
        progress.visit(3, EntryKind::File, 99),
        Visit::Scan { event: None }
    ));
    assert!(matches!(progress.report(item()), SearchEvent::Result { item } if item.matches == 3));
    assert!(matches!(
        progress.visit(3, EntryKind::File, 120),
        Visit::Scan {
            event: Some(SearchEvent::Progress {
                scanned: 2,
                found: 1,
                total: Some(10)
            })
        }
    ));
    assert!(matches!(
        progress.visit(3, EntryKind::File, 219),
        Visit::Scan { event: None }
    ));
    assert!(matches!(
        progress.visit(3, EntryKind::Other, 500),
        Visit::Pass
    ));
    assert!(matches!(
        progress.visit(3, EntryKind::Unreadable, 500),
        Visit::Pass
    ));
    assert!(matches!(
        progress.finish(3),
        SearchEvent::Finished {
            scanned: 3,
            found: 1,
            cancelled: false
        }
    ));
}

#[test]
fn a_search_ends_with_enough_results() {
    let mut progress = SearchProgress::new(1, None);
    let mut visited = 0;
    while let Visit::Scan { .. } = progress.visit(1, EntryKind::File, 0) {
        let _ = progress.report(item());
        visited += 1;
    }
    assert_eq!(visited, MAX_RESULTS);
    assert_eq!(progress.found, 100_000);
    assert_eq!(progress.scanned, 100_000);
}

#[test]
fn a_cancelled_search_finds_nothing_more() {
    let mut progress = SearchProgress::new(1, None);
    let _ = progress.visit(1, EntryKind::File, 0);
    for time in [0, 1000, 2000] {
        assert!(matches!(
            progress.visit(2, EntryKind::File, time),
            Visit::Quit
        ));
    }
    assert!(matches!(
        progress.finish(2),
        SearchEvent::Finished {
            scanned: 1,
            found: 0,
            cancelled: true
        }
    ));
}

#[test]
fn files_out_of_bounds_are_dropped() {
    let mut req = request("nota", "name");
    let matchers = search_matchers(&req).unwrap();
    req.min_size = Some(10);
    req.max_size = Some(20);
    req.min_modified = Some(100);
    req.max_modified = Some(200);
    for (size, modified, kept) in [
        (10, 100, true),
        (20, 200, true),
        (9, 100, false),
        (21, 100, false),
        (10, 99, false),
        (10, 201, false),
    ] {
        let outcome = told(known(&req, &matchers, "nota.txt", size, modified));
        assert_eq!(outcome.is_some(), kept);
    }
}

#[test]
fn a_search_by_name_counts_terms() {
    let req = request("nota\nfiscal\n2024", "name");
    let matchers = search_matchers(&req).unwrap();
    let result = told(known(&req, &matchers, "Nota-nota-2024.xml", u64::MAX, 5)).unwrap();
    assert_eq!(result.name, "Nota-nota-2024.xml");
    assert_eq!(result.path, "/dados/Nota-nota-2024.xml");
    assert_eq!(result.size, u64::MAX);
    assert_eq!(result.modified, 5);
    assert_eq!(result.matches, 2);
    assert!(told(known(&req, &matchers, "foto.png", 1, 5)).is_none());
}

#[test]
fn content_is_read_up_to_a_size() {
    for mode in ["content", "outro"] {
        let req = request("nota", mode);
        let matchers = search_matchers(&req).unwrap();
        let phase = |size: u64| known(&req, &matchers, "nota", size, 0).phase;
        assert!(matches!(phase(0), InspectionPhase::ReadReusing(_)));
        assert!(matches!(
            phase(REUSABLE_BUFFER_BYTES),
            InspectionPhase::ReadReusing(_)
        ));
        assert!(matches!(phase(1_048_577), InspectionPhase::ReadWhole(_)));
        assert!(matches!(
            phase(MAX_CONTENT_BYTES),
            InspectionPhase::ReadWhole(_)
        ));
        assert!(matches!(phase(268_435_457), InspectionPhase::Done(None)));
    }
}

#[test]
fn content_with_matches_is_reported() {
    let req = request("nota", "content");
    let matchers = search_matchers(&req).unwrap();
    let run = || known(&req, &matchers, "a.txt", 9, 4);
    let result = told(run().content_read(&matchers, Some(b"nota NOTA"))).unwrap();
    assert_eq!(result.matches, 2);
    assert_eq!(result.name, "a.txt");
    assert_eq!(result.path, "/dados/a.txt");
    assert_eq!(result.size, 9);
    assert_eq!(result.modified, 4);
    assert!(told(run().content_read(&matchers, Some(b"nada"))).is_none());
    assert!(told(run().content_read(&matchers, None)).is_none());
}

#[test]
fn files_that_do_not_pass_are_not_looked_at() {
    let req = request("nota", "name");
    let matchers = search_matchers(&req).unwrap();
    let filter = acervo::wildcard::wildcard_regex("*.txt").unwrap();
    assert!(told(inspect(&filter, "nota.xml".into())).is_none());
    let run = inspect(&filter, "nota.TXT".into());
    assert!(matches!(run.phase, InspectionPhase::Facts));
    assert!(told(run.facts_known(&req, &matchers, None)).is_none());
}

#[test]
fn a_search_may_begin_with_a_count() {
    let mut req = request("nota", "content");
    assert!(matches!(
        run_streaming_search(&req, 4),
        SearchStage::Search(SearchProgress {
            id: 4,
            scanned: 0,
            found: 0,
            last_progress_ms: 0,
            total: None
        })
    ));
    req.pre_count = true;
    assert!(matches!(
        run_streaming_search(&req, 4),
        SearchStage::Count(Catalog {
            id: 4,
            discovered: 0,
            last_catalog_ms: 0
        })
    ));
}

#[test]
fn the_walk_follows_the_request() {
    let mut req = request("nota", "content");
    let searching = walk_settings(&req, false, Some(6));
    assert!(searching.skip_hidden);
    assert_eq!(searching.max_depth, None);
    assert!(!searching.follow_links);
    assert_eq!(searching.threads, 12);
    req.include_hidden = true;
    req.include_subfolders = false;
    let counting = walk_settings(&req, true, Some(6));
    assert!(!counting.skip_hidden);
    assert_eq!(counting.max_depth, Some(1));
    assert_eq!(counting.threads, 6);
}

#[test]
fn unknown_times_are_zero() {
    assert_eq!(modified_seconds(Some(17)), 17);
    assert_eq!(modified_seconds(None), 0);
}

#[test]
fn one_search_is_active_at_a_time() {
    let req = request("nota", "content");
    let mut state = AppState::new();
    let (first, matchers, filter) = state.start_search(&req, true).ok().unwrap();
    assert_eq!(first, 1);
    assert_eq!(matchers.count(b"Nota nota"), 2);
    assert!(filter.is_none());
    assert_eq!(state.active_search, first);
    let (second, _, _) = state.start_search(&req, true).ok().unwrap();
    assert_eq!(second, 2);
    assert_ne!(state.active_search, first);
    state.cancel_search();
    assert_eq!(state.active_search, 3);
    assert_ne!(state.active_search, second);
    state.active_search = u64::MAX;
    assert_eq!(state.start_search(&req, true).ok().unwrap().0, 0);
}

#[test]
fn a_refused_request_leaves_the_active_search() {
    let mut state = AppState::new();
    let req = request("nota", "content");
    let (id, _, _) = state.start_search(&req, true).ok().unwrap();
    assert_eq!(
        state.start_search(&req, false).err().unwrap(),
        "Selecione um diretório válido."
    );
    assert_eq!(
        state
            .start_search(&request(" \n", "content"), true)
            .err()
            .unwrap(),
        "Digite o texto que deseja pesquisar."
    );
    let mut broken = request("(", "content");
    broken.use_regex = true;
    assert!(state
        .start_search(&broken, true)
        .err()
        .unwrap()
        .starts_with("Expressão inválida: "));
    assert_eq!(state.active_search, id);
}

#[test]
fn a_search_tells_its_end_once_and_last() {
    let mut req = request("nota", "content");
    req.pre_count = true;
    let mut events = Vec::new();
    let mut catalog = match run_streaming_search(&req, 1) {
        SearchStage::Count(catalog) => catalog,
        SearchStage::Search(_) => panic!("a count was expected"),
    };
    for time in [50, 120, 300] {
        if let CatalogStep::Continue { event: Some(event) } =
            catalog.visit(1, EntryKind::File, time)
        {
            events.push(event);
        }
    }
    let mut progress = catalog.finish(1).ok().unwrap();
    for (time, found) in [(50, true), (120, false), (300, true)] {
        if let Visit::Scan { event } = progress.visit(1, EntryKind::File, time) {
            events.extend(event);
            if found {
                events.push(progress.report(item()));
            }
        }
    }
    events.push(progress.finish(1));
    let results = events
        .iter()
        .filter(|event| matches!(event, SearchEvent::Result { .. }))
        .count();
    let ends = events
        .iter()
        .filter(|event| matches!(event, SearchEvent::Finished { .. }))
        .count();
    assert_eq!(results, 2);
    assert_eq!(ends, 1);
    assert!(matches!(
        events.last(),
        Some(SearchEvent::Finished {
            scanned: 3,
            found: 2,
            cancelled: false
        })
    ));
    assert_eq!(events.len(), 2 + 2 + 2 + 1);
}
