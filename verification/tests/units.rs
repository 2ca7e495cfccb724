use router::strutil::{split_slash, str_eq, toggle_path};
use router::{ParamMap, Router};

#[test]
fn param_map_insert_overwrites() {
    let mut m = ParamMap::new();
    m.insert("k", "1");
    m.insert("k", "2");
    assert_eq!(m.get("k"), Some("2".to_string()));
    assert_eq!(m.len(), 1);
    assert_eq!(m.remove("k"), Some("2".to_string()));
    assert_eq!(m.get("k"), None);
    assert!(m.is_empty());
}

#[test]
fn param_map_keeps_insertion_order() {
    let mut m = ParamMap::new();
    m.insert("a", "1");
    m.insert("b", "2");
    m.insert("c", "3");
    assert_eq!(m.remove("b"), Some("2".to_string()));
    let pairs = m.into_pairs();
    assert_eq!(
        pairs,
        vec![("a".to_string(), "1".to_string()), ("c".to_string(), "3".to_string())]
    );
}

#[test]
fn glob_of_returns_registered_glob() {
    let mut r = Router::new();
    r.get("/foo/:user", 1, Some("u"));
    assert_eq!(r.glob_of("u"), Some("/foo/:user".to_string()));
    assert_eq!(r.glob_of("v"), None);
}

#[test]
fn split_and_toggle_behave() {
    assert_eq!(split_slash("/foo/:user/"), vec!["", "foo", ":user", ""]);
    assert_eq!(split_slash(""), vec![""]);
    assert_eq!(toggle_path("/foo"), "/foo/");
    assert_eq!(toggle_path("/foo/"), "/foo");
    assert_eq!(toggle_path(""), "/");
    assert!(str_eq("ab", "ab"));
    assert!(!str_eq("ab", "ac"));
    assert!(!str_eq("ab", "abc"));
}
