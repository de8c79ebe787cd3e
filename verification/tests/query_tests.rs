use toshi::query::{KeyValue, Query, Search, i64_string, render_query, u64_string};

#[test]
fn renders_term_query() {
    let q = Query::Exact(KeyValue { field: "test_text".to_string(), value: "document".to_string() });
    assert_eq!(render_query(&q).unwrap(), "test_text:document");
}

#[test]
fn renders_inclusive_range() {
    let q = Query::Range {
        field: "test_i64".to_string(),
        gte: Some(2012),
        lte: Some(2015),
        gt: None,
        lt: None,
    };
    assert_eq!(render_query(&q).unwrap(), "test_i64:[2012 TO 2015]");
}

#[test]
fn renders_exclusive_and_open_range() {
    let q = Query::Range {
        field: "test_i64".to_string(),
        gte: None,
        lte: None,
        gt: Some(2017),
        lt: None,
    };
    assert_eq!(render_query(&q).unwrap(), "test_i64:{2017 TO *]");
}

#[test]
fn renders_boolean_must_and_must_not() {
    let term = Query::Exact(KeyValue { field: "test_text".to_string(), value: "document".to_string() });
    let range = Query::Range {
        field: "test_i64".to_string(),
        gte: None,
        lte: None,
        gt: Some(2017),
        lt: None,
    };
    let q = Query::Boolean { must: vec![term], must_not: vec![range], should: vec![] };
    assert_eq!(render_query(&q).unwrap(), "( +test_text:document -test_i64:{2017 TO *])");
}

#[test]
fn renders_phrase_and_regex_and_all() {
    let p = Query::Phrase {
        field: "test_text".to_string(),
        terms: vec!["test".to_string(), "document".to_string()],
    };
    assert_eq!(render_query(&p).unwrap(), "test_text:\"test document\"");
    let r = Query::Regex { field: "test_text".to_string(), pattern: "d[ou]c.*ment".to_string() };
    assert_eq!(render_query(&r).unwrap(), "test_text:/d[ou]c.*ment/");
    assert_eq!(render_query(&Query::All).unwrap(), "*");
}

#[test]
fn fuzzy_has_no_text_form() {
    let q = Query::Boolean {
        must: vec![Query::Fuzzy {
            field: "t".to_string(),
            value: "x".to_string(),
            distance: 1,
            transposition: false,
        }],
        must_not: vec![],
        should: vec![],
    };
    let e = render_query(&q).unwrap_err();
    assert_eq!(toshi::error::http_status(e.kind), 400);
}

#[test]
fn escapes_reserved_characters_in_terms() {
    let q = Query::Exact(KeyValue { field: "test_text".to_string(), value: "a:b c".to_string() });
    assert_eq!(render_query(&q).unwrap(), "test_text:a\\:b\\ c");
    let w = Query::Exact(KeyValue { field: "odd field".to_string(), value: "v(1)".to_string() });
    assert_eq!(render_query(&w).unwrap(), "odd\\ field:v\\(1\\)");
}

#[test]
fn escapes_quotes_in_phrases_and_slashes_in_regexes() {
    let p = Query::Phrase {
        field: "test_text".to_string(),
        terms: vec!["say".to_string(), "\"hi\"".to_string()],
    };
    assert_eq!(render_query(&p).unwrap(), "test_text:\"say \\\"hi\\\"\"");
    let r = Query::Regex { field: "test_text".to_string(), pattern: "a/b".to_string() };
    assert_eq!(render_query(&r).unwrap(), "test_text:/a\\/b/");
}

#[test]
fn renders_decimal_numbers() {
    assert_eq!(u64_string(0), "0");
    assert_eq!(u64_string(105), "105");
    assert_eq!(i64_string(-2017), "-2017");
    assert_eq!(i64_string(i64::MIN), "-9223372036854775808");
}

#[test]
fn normalize_substitutes_all_docs() {
    let s = Search::new(None, None, 10).normalize();
    assert!(matches!(s.query, Some(Query::All)));
    assert_eq!(s.limit, 10);
    let t = Search::new(Some(Query::All), None, 7).normalize();
    assert_eq!(t.limit, 7);
}
