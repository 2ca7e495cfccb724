use router::{url_for, url_for_impl, ParamMap, Router, UrlForError, UrlParts};

fn parts_from(s: &str) -> UrlParts {
    let u = url::Url::parse(s).unwrap();
    let origin = u.origin().ascii_serialization();
    let segments: Vec<String> = u.path_segments().unwrap().map(|x| x.to_string()).collect();
    let query: Option<Vec<(String, String)>> = u
        .query()
        .map(|_| u.query_pairs().map(|(k, v)| (k.to_string(), v.to_string())).collect());
    let fragment = u.fragment().map(|f| f.to_string());
    UrlParts { origin, segments, query, fragment }
}

fn parts_to_string(p: &UrlParts) -> String {
    let mut out = p.origin.clone();
    for seg in &p.segments {
        out.push('/');
        out.push_str(seg);
    }
    if let Some(q) = &p.query {
        for (i, (k, v)) in q.iter().enumerate() {
            out.push(if i == 0 { '?' } else { '&' });
            out.push_str(k);
            out.push('=');
            out.push_str(v);
        }
    }
    if let Some(f) = &p.fragment {
        out.push('#');
        out.push_str(f);
    }
    out
}

#[test]
fn test_no_trailing_slash() {
    let mut url = parts_from("http://localhost/foo/bar/baz");
    let mut rv = ParamMap::new();
    rv.insert("user", "bam");
    url_for_impl(&mut url, "/foo/:user", rv).unwrap();
    assert_eq!(parts_to_string(&url), "http://localhost/foo/bam");
}

#[test]
fn test_trailing_slash() {
    let mut url = parts_from("http://localhost/foo/bar/baz");
    let mut rv = ParamMap::new();
    rv.insert("user", "bam");
    url_for_impl(&mut url, "/foo/:user/", rv).unwrap();
    assert_eq!(parts_to_string(&url), "http://localhost/foo/bam/");
}

#[test]
fn test_with_mount() {
    let mut url = parts_from("http://localhost/mounted/foo/bar/baz");
    let mut rv = ParamMap::new();
    rv.insert("user", "bam");
    url_for_impl(&mut url, "/foo/:user/", rv).unwrap();
    assert_eq!(parts_to_string(&url), "http://localhost/mounted/foo/bam/");
}

#[test]
fn template_at_least_as_long_rebuilds_from_scratch() {
    let mut url = parts_from("http://localhost/deep");
    let mut rv = ParamMap::new();
    rv.insert("a", "1");
    rv.insert("b", "2");
    url_for_impl(&mut url, "/x/:a/:b", rv).unwrap();
    assert_eq!(parts_to_string(&url), "http://localhost/x/1/2");
}

#[test]
fn wildcard_placeholder_consumes_its_value() {
    let mut url = parts_from("http://localhost/");
    let mut rv = ParamMap::new();
    rv.insert("rest", "tail");
    url_for_impl(&mut url, "/files/*rest", rv).unwrap();
    assert_eq!(parts_to_string(&url), "http://localhost/files/tail");
}

#[test]
fn leftover_params_become_query_and_old_query_is_dropped() {
    let mut url = parts_from("http://localhost/foo/bar/baz?stale=1#frag");
    let mut rv = ParamMap::new();
    rv.insert("user", "bam");
    rv.insert("extra", "x");
    rv.insert("more", "y");
    url_for_impl(&mut url, "/foo/:user", rv).unwrap();
    assert_eq!(parts_to_string(&url), "http://localhost/foo/bam?extra=x&more=y");
}

#[test]
fn missing_param_leaves_url_unchanged() {
    let mut url = parts_from("http://localhost/foo/bar/baz");
    let rv = ParamMap::new();
    match url_for_impl(&mut url, "/foo/:user", rv) {
        Err(UrlForError::MissingParam { key }) => assert_eq!(key, "user"),
        other => panic!("expected a missing-parameter error, got {:?}", other),
    }
    assert_eq!(parts_to_string(&url), "http://localhost/foo/bar/baz");
}

#[test]
fn inner_empty_glob_segment_is_kept() {
    let mut url = parts_from("http://localhost/");
    let mut rv = ParamMap::new();
    rv.insert("x", "v");
    url_for_impl(&mut url, "/a//:x", rv).unwrap();
    assert_eq!(parts_to_string(&url), "http://localhost/a//v");
}

#[test]
fn trailing_slash_kept_without_leading_slash() {
    let mut url = parts_from("http://localhost/a/b");
    url_for_impl(&mut url, "foo/", ParamMap::new()).unwrap();
    assert_eq!(parts_to_string(&url), "http://localhost/foo/");
}

#[test]
fn url_for_round_trip_through_router() {
    let mut r = Router::new();
    r.get("/foo/:user", 1, Some("u"));
    let base = parts_from("http://localhost/foo/bar/baz");
    let mut params = ParamMap::new();
    params.insert("user", "bam");
    let out = url_for(&r, &base, "u", params).unwrap();
    assert_eq!(parts_to_string(&out), "http://localhost/foo/bam");
}

#[test]
fn unknown_route_id_fails_lookup() {
    let r = Router::new();
    let base = parts_from("http://localhost/");
    match url_for(&r, &base, "nope", ParamMap::new()) {
        Err(UrlForError::UnknownRouteId { route_id }) => assert_eq!(route_id, "nope"),
        other => panic!("expected a lookup error, got {:?}", other),
    }
}

#[test]
fn registered_glob_with_empty_params_fails_missing() {
    let mut r = Router::new();
    r.get("/foo/:user", 1, Some("u"));
    let base = parts_from("http://localhost/foo/bar/baz");
    match url_for(&r, &base, "u", ParamMap::new()) {
        Err(UrlForError::MissingParam { key }) => assert_eq!(key, "user"),
        other => panic!("expected a missing-parameter error, got {:?}", other),
    }
}
