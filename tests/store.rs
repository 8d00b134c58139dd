use vek_torrents::store::{SearchOutcome, Torrent, TorrentService, TorrentStore};

fn rec(name: &str, repacker: &str, link: &str) -> Torrent {
    Torrent::new(name.to_string(), repacker.to_string(), link.to_string())
}

fn pairs(v: &[(String, String)]) -> Vec<(&str, &str)> {
    v.iter().map(|(a, b)| (a.as_str(), b.as_str())).collect()
}

fn sample_store() -> TorrentStore {
    let mut store = TorrentStore::new();
    store.insert(rec("Portal 2", "FitGirl", "u1"));
    store.insert(rec("Halo", "GOG", "u2"));
    store
}

#[test]
fn find_returns_matching_repacker_and_link() {
    let store = sample_store();
    let found = store.find("Portal");
    assert_eq!(pairs(&found), vec![("FitGirl", "u1")]);
}

#[test]
fn find_is_case_sensitive_substring_match() {
    let store = sample_store();
    assert!(store.find("portal").is_empty());
    assert_eq!(pairs(&store.find("rta")), vec![("FitGirl", "u1")]);
    assert_eq!(pairs(&store.find("al")), vec![("FitGirl", "u1"), ("GOG", "u2")]);
    assert_eq!(pairs(&store.find("a")).len(), 2);
    assert_eq!(store.find("").len(), 2);
}

#[test]
fn find_without_match_is_empty_not_an_error() {
    let service = TorrentService::new(sample_store());
    let result = service.search_torrent("Nonexistent");
    assert_eq!(result, Ok(vec![]));
    let outcome = service.search("Nonexistent");
    assert!(matches!(outcome, SearchOutcome::NotFound));
    assert_eq!(outcome.status_code(), 404);
}

#[test]
fn search_outcomes_have_distinct_signals() {
    let found = SearchOutcome::from_result(Ok(vec![("FitGirl".to_string(), "u1".to_string())]));
    assert_eq!(found.status_code(), 200);
    match found {
        SearchOutcome::Found(v) => assert_eq!(pairs(&v), vec![("FitGirl", "u1")]),
        _ => panic!("expected matches"),
    }
    let empty = SearchOutcome::from_result(Ok(vec![]));
    assert_eq!(empty.status_code(), 404);
    let failed = SearchOutcome::from_result(Err("connection lost".to_string()));
    assert_eq!(failed.status_code(), 500);
    match failed {
        SearchOutcome::StoreError(e) => assert_eq!(e, "connection lost"),
        _ => panic!("expected a store error"),
    }
}

#[test]
fn service_search_finds_stored_records() {
    let service = TorrentService::new(sample_store());
    let outcome = service.search("Halo");
    assert_eq!(outcome.status_code(), 200);
    match outcome {
        SearchOutcome::Found(v) => assert_eq!(pairs(&v), vec![("GOG", "u2")]),
        _ => panic!("expected matches"),
    }
}

#[test]
fn recrawl_appends_identical_rows() {
    let mut service = TorrentService::new(TorrentStore::new());
    let batch = || vec![rec("Portal 2", "FitGirl", "u1"), rec("Halo", "GOG", "u2")];
    service.store_torrents(batch());
    assert_eq!(pairs(&service.search_torrent("Portal").unwrap()), vec![("FitGirl", "u1")]);
    service.store_torrents(batch());
    assert_eq!(
        pairs(&service.search_torrent("Portal").unwrap()),
        vec![("FitGirl", "u1"), ("FitGirl", "u1")]
    );
    assert_eq!(service.search_torrent("").unwrap().len(), 4);
}

#[test]
fn store_keeps_insertion_order() {
    let mut store = TorrentStore::new();
    assert_eq!(store.len(), 0);
    store.insert(rec("Doom", "A", "l1"));
    store.insert(rec("Doom II", "B", "l2"));
    store.insert(rec("Quake", "C", "l3"));
    assert_eq!(store.len(), 3);
    assert_eq!(pairs(&store.find("Doom")), vec![("A", "l1"), ("B", "l2")]);
}
