use toshi::catalog::IndexCatalog;
use toshi::error::{Error, ErrorKind};
use toshi::executor::doc_search;
use toshi::handle::IndexHandle;
use toshi::handlers::{flush, summary};
use toshi::query::{FacetRequest, KeyValue, Query, Search};
use toshi::results::{ScoredDoc, SearchResults, sort_docs};
use toshi::rpc;

const SCHEMA: &str = r#"[
  {"name":"test_text","type":"text","options":{"indexing":{"record":"position","fieldnorms":true,"tokenizer":"default"},"stored":true,"fast":false}},
  {"name":"test_i64","type":"i64","options":{"indexed":true,"fieldnorms":true,"fast":true,"stored":true}}
]"#;

fn fixture_catalog(name: &str) -> IndexCatalog {
    let mut catalog = IndexCatalog::new("data".to_string());
    let handle = IndexHandle::create_in_memory(name.to_string(), SCHEMA).unwrap();
    handle.add_document(r#"{"test_text":"Test Document 1","test_i64":2012}"#).unwrap();
    handle.add_document(r#"{"test_text":"Test Document 2","test_i64":2015}"#).unwrap();
    handle.add_document(r#"{"test_text":"Test Document 3","test_i64":2018}"#).unwrap();
    handle.add_document(r#"{"test_text":"Other Text","test_i64":2010}"#).unwrap();
    catalog.add_index(name.to_string(), handle).unwrap();
    flush(&mut catalog, name).unwrap();
    catalog
}

fn term_search(limit: usize) -> Search {
    let term = Query::Exact(KeyValue {
        field: "test_text".to_string(),
        value: "document".to_string(),
    });
    Search::new(Some(term), None, limit)
}

#[test]
fn local_only_search_returns_all_matches() {
    let catalog = fixture_catalog("books");
    let res = doc_search(&catalog, "books", term_search(10), vec![]).unwrap();
    assert_eq!(res.hits, 3);
    assert_eq!(res.docs.len(), 3);
    for d in &res.docs {
        assert!(d.payload.contains("Document"));
    }
}

#[test]
fn unknown_index_is_a_not_found_with_message() {
    let catalog = fixture_catalog("books");
    let err = doc_search(&catalog, "books2", term_search(10), vec![]).unwrap_err();
    assert_eq!(err.kind, ErrorKind::NotFound);
    assert_eq!(err.message, "Unknown Index: 'books2' does not exist");
    assert_eq!(toshi::error::http_status(err.kind), 404);
}

#[test]
fn federated_search_merges_and_survives_a_peer_failure() {
    let catalog = fixture_catalog("logs");
    // One peer answers with three hits; the other is down.
    let mut peer_docs = vec![
        ScoredDoc { score: 2.5f32.to_bits(), peer: 0, segment: 0, doc: 0, payload: "{}".to_string() },
        ScoredDoc { score: 1.5f32.to_bits(), peer: 0, segment: 0, doc: 1, payload: "{}".to_string() },
        ScoredDoc { score: 0.5f32.to_bits(), peer: 0, segment: 0, doc: 2, payload: "{}".to_string() },
    ];
    sort_docs(&mut peer_docs);
    let peer_ok = SearchResults { hits: 3, docs: peer_docs, facets: vec![] };
    let peer_down = Error::new(ErrorKind::Transport, "connection refused".to_string());
    // The local index holds two matching documents.
    let two_local = Query::Range {
        field: "test_i64".to_string(),
        gte: Some(2012),
        lte: Some(2015),
        gt: None,
        lt: None,
    };
    let search = Search::new(Some(two_local), None, 10);
    let res = doc_search(&catalog, "logs", search, vec![Ok(peer_ok), Err(peer_down)]).unwrap();
    assert_eq!(res.hits, 5);
    assert_eq!(res.docs.len(), 5);
    for w in res.docs.windows(2) {
        let a = f32::from_bits(w[0].score);
        let b = f32::from_bits(w[1].score);
        assert!(a >= b);
    }
}

#[test]
fn all_participants_down_surfaces_worst_failure() {
    let mut catalog = IndexCatalog::new("data".to_string());
    catalog
        .add_remote_index(
            "metrics".to_string(),
            vec!["http://peer-one:8081".to_string(), "http://peer-two:8081".to_string()],
        )
        .unwrap();
    assert_eq!(catalog.remote_peers_for("metrics").len(), 2);
    let transport = Error::new(ErrorKind::Transport, "peer one down".to_string());
    let internal = Error::new(ErrorKind::Engine, "peer two broke".to_string());
    let err = doc_search(
        &catalog,
        "metrics",
        term_search(10),
        vec![Err(transport), Err(internal)],
    )
    .unwrap_err();
    assert_eq!(err.kind, ErrorKind::Engine);
}

#[test]
fn create_add_flush_search_lifecycle() {
    let mut catalog = IndexCatalog::new("data".to_string());
    let handle = IndexHandle::create_in_memory("notes".to_string(), SCHEMA).unwrap();
    catalog.add_index("notes".to_string(), handle).unwrap();
    catalog
        .get_index("notes")
        .unwrap()
        .add_document(r#"{"test_text":"a note document","test_i64":1}"#)
        .unwrap();

    let before = doc_search(&catalog, "notes", term_search(10), vec![]).unwrap();
    assert_eq!(before.hits, 0);

    flush(&mut catalog, "notes").unwrap();

    let after = doc_search(&catalog, "notes", term_search(10), vec![]).unwrap();
    assert_eq!(after.hits, 1);
    assert_eq!(after.docs.len(), 1);
}

#[test]
fn inclusive_range_query_scores_one() {
    let catalog = fixture_catalog("books");
    let q = Query::Range {
        field: "test_i64".to_string(),
        gte: Some(2012),
        lte: Some(2015),
        gt: None,
        lt: None,
    };
    let res = doc_search(&catalog, "books", Search::new(Some(q), None, 10), vec![]).unwrap();
    assert_eq!(res.hits as usize, res.docs.len());
    assert_eq!(res.hits, 2);
    assert_eq!(f32::from_bits(res.docs[0].score), 1.0);
}

#[test]
fn boolean_must_and_must_not() {
    let catalog = fixture_catalog("books");
    let term = Query::Exact(KeyValue {
        field: "test_text".to_string(),
        value: "document".to_string(),
    });
    let range = Query::Range {
        field: "test_i64".to_string(),
        gte: None,
        lte: None,
        gt: Some(2017),
        lt: None,
    };
    let q = Query::Boolean { must: vec![term], must_not: vec![range], should: vec![] };
    let res = doc_search(&catalog, "books", Search::new(Some(q), None, 10), vec![]).unwrap();
    assert_eq!(res.hits, 2);
}

#[test]
fn bad_raw_query_is_a_parse_error() {
    let catalog = fixture_catalog("books");
    let q = Query::Raw { raw: "asd*(@sq__".to_string() };
    let err = doc_search(&catalog, "books", Search::new(Some(q), None, 10), vec![]).unwrap_err();
    assert_eq!(err.kind, ErrorKind::QueryParse);
}

#[test]
fn invalid_document_is_an_engine_error() {
    let catalog = fixture_catalog("books");
    let err = catalog.get_index("books").unwrap().add_document("not json").unwrap_err();
    assert_eq!(err.kind, ErrorKind::Engine);
}

const FACET_SCHEMA: &str = r#"[
  {"name":"test_text","type":"text","options":{"indexing":{"record":"position","fieldnorms":true,"tokenizer":"default"},"stored":true,"fast":false}},
  {"name":"test_facet","type":"facet","options":{"stored":true}}
]"#;

#[test]
fn facet_requests_are_counted_per_field() {
    let mut catalog = IndexCatalog::new("data".to_string());
    let handle = IndexHandle::create_in_memory("shop".to_string(), FACET_SCHEMA).unwrap();
    handle.add_document(r#"{"test_text":"a document","test_facet":"/cat/a"}"#).unwrap();
    handle.add_document(r#"{"test_text":"b document","test_facet":"/cat/a"}"#).unwrap();
    handle.add_document(r#"{"test_text":"c document","test_facet":"/cat/b"}"#).unwrap();
    handle.add_document(r#"{"test_text":"other text","test_facet":"/cat/a"}"#).unwrap();
    catalog.add_index("shop".to_string(), handle).unwrap();
    flush(&mut catalog, "shop").unwrap();

    let term = Query::Exact(KeyValue {
        field: "test_text".to_string(),
        value: "document".to_string(),
    });
    let facets = FacetRequest { field: "test_facet".to_string(), paths: vec!["/cat".to_string()] };
    let search = Search::new(Some(term), Some(facets), 10);
    let res = doc_search(&catalog, "shop", search, vec![]).unwrap();
    assert_eq!(res.hits, 3);
    let mut pairs: Vec<(String, u64)> =
        res.facets.iter().map(|f| (f.field.clone(), f.count)).collect();
    pairs.sort();
    assert_eq!(pairs, vec![("/cat/a".to_string(), 2), ("/cat/b".to_string(), 1)]);
}

#[test]
fn search_without_facet_request_reports_none() {
    let catalog = fixture_catalog("plain");
    let res = doc_search(&catalog, "plain", term_search(10), vec![]).unwrap();
    assert!(res.facets.is_empty());
}

#[test]
fn placed_index_is_listed_exactly_once_and_found() {
    let mut catalog = IndexCatalog::new("data".to_string());
    let handle = IndexHandle::create_in_memory("journal".to_string(), SCHEMA).unwrap();
    catalog.add_index("journal".to_string(), handle).unwrap();
    assert!(catalog.get_index("journal").is_ok());
    let listed: Vec<String> = catalog.list();
    assert_eq!(listed.iter().filter(|n| n.as_str() == "journal").count(), 1);
}

#[test]
fn duplicate_index_name_is_refused() {
    let mut catalog = fixture_catalog("books");
    let handle = IndexHandle::create_in_memory("books".to_string(), SCHEMA).unwrap();
    let err = catalog.add_index("books".to_string(), handle).unwrap_err();
    assert_eq!(err.kind, ErrorKind::Exists);
}

#[test]
fn delete_by_term_removes_documents() {
    let mut catalog = fixture_catalog("books");
    let terms = vec![KeyValue { field: "test_text".to_string(), value: "other".to_string() }];
    catalog.get_index("books").unwrap().delete_terms(&terms).unwrap();
    flush(&mut catalog, "books").unwrap();
    let all = doc_search(&catalog, "books", Search::new(None, None, 10), vec![]).unwrap();
    assert_eq!(all.hits, 3);
}

#[test]
fn all_docs_search_uses_the_all_query() {
    let catalog = fixture_catalog("books");
    let res = toshi::executor::all_docs(&catalog, "books", vec![]).unwrap();
    assert_eq!(res.hits, 4);
}

#[test]
fn fuzzy_search_matches_near_terms() {
    let catalog = fixture_catalog("books");
    let q = Query::Fuzzy {
        field: "test_text".to_string(),
        value: "documant".to_string(),
        distance: 1,
        transposition: false,
    };
    let res = doc_search(&catalog, "books", Search::new(Some(q), None, 10), vec![]).unwrap();
    assert_eq!(res.hits, 3);
}

#[test]
fn summary_reports_manifest_and_optional_sizes() {
    let catalog = fixture_catalog("books");
    let with = summary(&catalog, "books", true).unwrap();
    assert!(with.segment_sizes.is_some());
    assert!(with.summaries.contains("segments"));
    let without = summary(&catalog, "books", false).unwrap();
    assert!(without.segment_sizes.is_none());
    let missing = summary(&catalog, "nope", false).unwrap_err();
    assert_eq!(missing.kind, ErrorKind::NotFound);
    assert_eq!(missing.message, "Index nope does not exist");
}

#[test]
fn rpc_verbs_follow_the_wire_contract() {
    let mut catalog = fixture_catalog("books");

    let names = rpc::list_indexes(&catalog);
    assert_eq!(names, vec!["books".to_string()]);

    match rpc::search_index(&catalog, "books", Ok(term_search(10))) {
        rpc::SearchIndexOutcome::Reply(rep) => {
            let result = rep.result.unwrap();
            assert_eq!(result.code, 0);
            assert_eq!(rep.doc.unwrap().hits, 3);
        },
        rpc::SearchIndexOutcome::Status(_) => panic!("expected a reply"),
    }
    match rpc::search_index(&catalog, "gone", Ok(term_search(10))) {
        rpc::SearchIndexOutcome::Status(st) => {
            assert_eq!(st.code, 5);
            assert_eq!(st.message, "Index: gone not found");
        },
        rpc::SearchIndexOutcome::Reply(_) => panic!("expected a status"),
    }

    match rpc::place_document(
        &catalog,
        "books",
        Some(r#"{"test_text":"via rpc","test_i64":3}"#.to_string()),
    ) {
        rpc::PlaceOutcome::Reply(rep) => assert_eq!(rep.code, 0),
        rpc::PlaceOutcome::Status(st) => panic!("unexpected status: {}", st.message),
    }
    match rpc::place_document(&catalog, "books", None) {
        rpc::PlaceOutcome::Status(st) => {
            assert_eq!(st.code, 13);
            assert_eq!(st.message, "Invalid Document request: books");
        },
        rpc::PlaceOutcome::Reply(_) => panic!("expected a status"),
    }

    let terms = vec![KeyValue { field: "test_text".to_string(), value: "rpc".to_string() }];
    match rpc::delete_document(&catalog, "books", Some(terms)) {
        rpc::PlaceOutcome::Reply(rep) => assert_eq!(rep.code, 0),
        rpc::PlaceOutcome::Status(st) => panic!("unexpected status: {}", st.message),
    }

    match rpc::get_summary(&catalog, "books") {
        rpc::SummaryOutcome::Summary(json) => assert!(json.contains("segments")),
        rpc::SummaryOutcome::Status(st) => panic!("unexpected status: {}", st.message),
    }

    match rpc::place_index(&mut catalog, "fresh".to_string(), "not a schema") {
        rpc::PlaceOutcome::Status(st) => {
            assert_eq!(st.code, 5);
            assert_eq!(st.message, "Invalid schema in request");
        },
        rpc::PlaceOutcome::Reply(_) => panic!("expected a status"),
    }

    let unimplemented = rpc::bulk_insert();
    assert_eq!(unimplemented.code, 12);

    assert_eq!(rpc::ping().status, "OK");
}
