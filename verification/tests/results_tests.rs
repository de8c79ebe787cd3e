use toshi::results::{FacetCount, ScoredDoc, SearchResults, fold_results, merge, sat_add_u64, sort_docs, trim_limit};

fn doc(score: u32, peer: u64, segment: u32, id: u32, payload: &str) -> ScoredDoc {
    ScoredDoc { score, peer, segment, doc: id, payload: payload.to_string() }
}

fn facet(field: &str, count: u64) -> FacetCount {
    FacetCount { field: field.to_string(), count }
}

fn results(hits: u64, docs: Vec<ScoredDoc>, facets: Vec<FacetCount>) -> SearchResults {
    let mut docs = docs;
    sort_docs(&mut docs);
    SearchResults { hits, docs, facets }
}

fn keys(r: &SearchResults) -> Vec<(u32, u64, u32, u32)> {
    r.docs.iter().map(|d| (d.score, d.peer, d.segment, d.doc)).collect()
}

fn facet_pairs(r: &SearchResults) -> Vec<(String, u64)> {
    let mut v: Vec<(String, u64)> = r.facets.iter().map(|f| (f.field.clone(), f.count)).collect();
    v.sort();
    v
}

#[test]
fn merge_sums_hits_and_pools_docs() {
    let a = results(2, vec![doc(30, 0, 0, 0, "a0"), doc(10, 0, 0, 1, "a1")], vec![]);
    let b = results(1, vec![doc(20, 1, 0, 0, "b0")], vec![]);
    let m = merge(a, b);
    assert_eq!(m.hits, 3);
    assert_eq!(keys(&m), vec![(30, 0, 0, 0), (20, 1, 0, 0), (10, 0, 0, 1)]);
}

#[test]
fn merge_is_commutative_on_concrete_values() {
    let mk = |flip: bool| {
        let a = results(
            2,
            vec![doc(30, 0, 0, 0, "a0"), doc(10, 0, 0, 1, "a1")],
            vec![facet("/cat/a", 2), facet("/cat/b", 1)],
        );
        let b = results(
            1,
            vec![doc(20, 1, 0, 0, "b0")],
            vec![facet("/cat/b", 4), facet("/cat/c", 7)],
        );
        if flip { merge(b, a) } else { merge(a, b) }
    };
    let ab = mk(false);
    let ba = mk(true);
    assert_eq!(ab.hits, ba.hits);
    assert_eq!(keys(&ab), keys(&ba));
    assert_eq!(facet_pairs(&ab), facet_pairs(&ba));
    assert_eq!(
        facet_pairs(&ab),
        vec![
            ("/cat/a".to_string(), 2),
            ("/cat/b".to_string(), 5),
            ("/cat/c".to_string(), 7)
        ]
    );
}

#[test]
fn merge_is_associative_on_concrete_values() {
    let a = || results(1, vec![doc(30, 0, 0, 0, "a")], vec![facet("/x", 1)]);
    let b = || results(1, vec![doc(20, 1, 0, 0, "b")], vec![facet("/x", 2)]);
    let c = || results(1, vec![doc(25, 2, 0, 0, "c")], vec![facet("/y", 3)]);
    let left = merge(a(), merge(b(), c()));
    let right = merge(merge(a(), b()), c());
    assert_eq!(left.hits, right.hits);
    assert_eq!(keys(&left), keys(&right));
    assert_eq!(facet_pairs(&left), facet_pairs(&right));
    assert_eq!(keys(&left), vec![(30, 0, 0, 0), (25, 2, 0, 0), (20, 1, 0, 0)]);
}

#[test]
fn merge_with_empty_is_identity() {
    let a = results(2, vec![doc(9, 0, 0, 0, "x"), doc(4, 0, 0, 1, "y")], vec![facet("/f", 3)]);
    let e = SearchResults::empty();
    let m = merge(a, e);
    assert_eq!(m.hits, 2);
    assert_eq!(keys(&m), vec![(9, 0, 0, 0), (4, 0, 0, 1)]);
    assert_eq!(facet_pairs(&m), vec![("/f".to_string(), 3)]);
}

#[test]
fn fold_results_is_order_independent() {
    let a = || results(1, vec![doc(30, 0, 0, 0, "a")], vec![facet("/x", 1)]);
    let b = || results(2, vec![doc(20, 1, 0, 0, "b"), doc(18, 1, 0, 1, "b2")], vec![]);
    let c = || results(1, vec![doc(25, 2, 0, 0, "c")], vec![facet("/x", 2)]);
    let one = fold_results(vec![a(), b(), c()]);
    let two = fold_results(vec![c(), a(), b()]);
    let three = fold_results(vec![b(), c(), a()]);
    assert_eq!(one.hits, 4);
    assert_eq!(one.hits, two.hits);
    assert_eq!(keys(&one), keys(&two));
    assert_eq!(keys(&one), keys(&three));
    assert_eq!(facet_pairs(&one), facet_pairs(&two));
    assert_eq!(facet_pairs(&one), facet_pairs(&three));
}

#[test]
fn trim_cuts_docs_but_not_hits_or_facets() {
    let mut m = results(
        3,
        vec![doc(30, 0, 0, 0, "a"), doc(20, 0, 0, 1, "b"), doc(10, 0, 0, 2, "c")],
        vec![facet("/f", 1)],
    );
    trim_limit(&mut m, 2);
    assert_eq!(m.hits, 3);
    assert_eq!(keys(&m), vec![(30, 0, 0, 0), (20, 0, 0, 1)]);
    assert_eq!(m.facets.len(), 1);
}

#[test]
fn sort_orders_by_score_then_peer_then_address() {
    let mut v = vec![
        doc(10, 1, 0, 0, "d"),
        doc(20, 0, 1, 5, "b"),
        doc(20, 0, 0, 7, "a"),
        doc(10, 0, 0, 0, "c"),
    ];
    sort_docs(&mut v);
    let got: Vec<(u32, u64, u32, u32)> = v.iter().map(|d| (d.score, d.peer, d.segment, d.doc)).collect();
    assert_eq!(got, vec![(20, 0, 0, 7), (20, 0, 1, 5), (10, 0, 0, 0), (10, 1, 0, 0)]);
}

#[test]
fn saturating_add_caps_at_max() {
    assert_eq!(sat_add_u64(2, 3), 5);
    assert_eq!(sat_add_u64(u64::MAX - 1, 5), u64::MAX);
    assert_eq!(sat_add_u64(0, u64::MAX), u64::MAX);
}
