use toshi::paths::parse_path;

#[test]
fn test_parse_path() {
    let root = "/";
    let one = "/path";
    let two = "/path/two";

    let parsed_root = parse_path(root);
    let parsed_one = parse_path(one);
    let parsed_two = parse_path(two);
    assert!(parsed_root.0.is_none());
    assert!(parsed_root.1.is_none());
    assert_eq!(parsed_one.0.unwrap(), "path");
    assert_eq!(parsed_two.0.unwrap(), "path");
    assert_eq!(parsed_two.1.unwrap(), "two");
}

#[test]
fn parse_path_empty_yields_empty_components() {
    let p = parse_path("");
    assert!(p.0.is_none());
    assert!(p.1.is_none());
    assert!(p.2.is_none());
}

#[test]
fn parse_path_three_segments_fills_third_slot() {
    let p = parse_path("/a/_summary/extra");
    assert_eq!(p.0.unwrap(), "a");
    assert_eq!(p.1.unwrap(), "_summary");
    assert_eq!(p.2.unwrap(), "extra");
}

#[test]
fn parse_path_ignores_trailing_segments_beyond_three() {
    let p = parse_path("/a/b/c/d/e");
    assert_eq!(p.0.unwrap(), "a");
    assert_eq!(p.1.unwrap(), "b");
    assert_eq!(p.2.unwrap(), "c");
}

#[test]
fn parse_path_drops_empty_segments() {
    let p = parse_path("//x//y/");
    assert_eq!(p.0.unwrap(), "x");
    assert_eq!(p.1.unwrap(), "y");
    assert!(p.2.is_none());
}

#[test]
fn parse_path_two_segments_leaves_third_empty() {
    let p = parse_path("/books/_add");
    assert_eq!(p.0.unwrap(), "books");
    assert_eq!(p.1.unwrap(), "_add");
    assert!(p.2.is_none());
}
