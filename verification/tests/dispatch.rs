use router::{DispatchOutcome, Method, NoRoute, Router, TrailingSlash};

#[test]
fn exact_match_invokes_registered_handler() {
    let mut r = Router::new();
    r.get("/users/:id", 1, None);
    r.get("/users/:id/posts", 2, None);
    r.post("/users/:id", 3, None);
    match r.handle(Method::Get, "/users/7") {
        DispatchOutcome::Handled { handler, params } => {
            assert_eq!(handler, 1);
            assert_eq!(params, vec![("id".to_string(), "7".to_string())]);
        }
        other => panic!("expected a handled outcome, got {:?}", other),
    }
}

#[test]
fn missing_trailing_slash_redirects() {
    let mut r = Router::new();
    r.get("/foo/", 1, None);
    match r.handle(Method::Get, "/foo") {
        DispatchOutcome::Redirect { path } => assert_eq!(path, "/foo/"),
        other => panic!("expected a redirect, got {:?}", other),
    }
}

#[test]
fn surplus_trailing_slash_redirects() {
    let mut r = Router::new();
    r.get("/bar", 1, None);
    match r.handle(Method::Get, "/bar/") {
        DispatchOutcome::Redirect { path } => assert_eq!(path, "/bar"),
        other => panic!("expected a redirect, got {:?}", other),
    }
}

#[test]
fn exact_match_beats_slash_redirect() {
    let mut r = Router::new();
    r.get("/both", 1, None);
    r.get("/both/", 2, None);
    match r.handle(Method::Get, "/both") {
        DispatchOutcome::Handled { handler, .. } => assert_eq!(handler, 1),
        other => panic!("expected the exact handler, got {:?}", other),
    }
    match r.handle(Method::Get, "/both/") {
        DispatchOutcome::Handled { handler, .. } => assert_eq!(handler, 2),
        other => panic!("expected the exact handler, got {:?}", other),
    }
}

#[test]
fn options_reports_get_and_post() {
    let mut r = Router::new();
    r.get("/thing", 1, None);
    r.post("/thing", 2, None);
    match r.handle(Method::Options, "/thing") {
        DispatchOutcome::OptionsReport { allowed } => {
            assert_eq!(allowed, vec![Method::Get, Method::Post]);
        }
        other => panic!("expected an OPTIONS report, got {:?}", other),
    }
}

#[test]
fn options_with_no_match_reports_empty() {
    let r = Router::new();
    match r.handle(Method::Options, "/nothing") {
        DispatchOutcome::OptionsReport { allowed } => assert!(allowed.is_empty()),
        other => panic!("expected an empty OPTIONS report, got {:?}", other),
    }
}

#[test]
fn options_ignores_slash_toggled_matches() {
    let mut r = Router::new();
    r.get("/thing/", 1, None);
    match r.handle(Method::Options, "/thing") {
        DispatchOutcome::OptionsReport { allowed } => assert!(allowed.is_empty()),
        other => panic!("expected an empty OPTIONS report, got {:?}", other),
    }
}

#[test]
fn no_route_yields_not_found() {
    let mut r = Router::new();
    r.get("/somewhere", 1, None);
    assert_eq!(r.handle(Method::Get, "/elsewhere"), DispatchOutcome::NotFound);
    assert_eq!(r.handle(Method::Post, "/somewhere"), DispatchOutcome::NotFound);
}

#[test]
fn dispatch_is_idempotent() {
    let mut r = Router::new();
    r.get("/a/:x", 5, None);
    assert_eq!(r.handle(Method::Get, "/a/1"), r.handle(Method::Get, "/a/1"));
    assert_eq!(r.handle(Method::Get, "/a"), r.handle(Method::Get, "/a"));
    assert_eq!(r.handle(Method::Post, "/zzz"), r.handle(Method::Post, "/zzz"));
    assert_eq!(r.handle(Method::Options, "/a/1"), r.handle(Method::Options, "/a/1"));
}

#[test]
fn each_method_helper_registers_its_method() {
    let mut r = Router::new();
    r.get("/m", 1, None);
    r.post("/m", 2, None);
    r.put("/m", 3, None);
    r.delete("/m", 4, None);
    r.head("/m", 5, None);
    r.patch("/m", 6, None);
    r.options("/m", 7, None);
    let cases = vec![
        (Method::Get, 1),
        (Method::Post, 2),
        (Method::Put, 3),
        (Method::Delete, 4),
        (Method::Head, 5),
        (Method::Patch, 6),
        (Method::Options, 7),
    ];
    for (m, expected) in cases {
        match r.handle(m, "/m") {
            DispatchOutcome::Handled { handler, .. } => assert_eq!(handler, expected),
            other => panic!("expected a handled outcome, got {:?}", other),
        }
    }
}

#[test]
fn root_route_matches_empty_path_exactly() {
    let mut r = Router::new();
    r.get("/", 9, None);
    match r.handle(Method::Get, "") {
        DispatchOutcome::Handled { handler, .. } => assert_eq!(handler, 9),
        other => panic!("expected a handled outcome, got {:?}", other),
    }
}

#[test]
fn empty_path_is_not_found() {
    let mut r = Router::new();
    r.get("/x", 1, None);
    assert_eq!(r.handle(Method::Get, ""), DispatchOutcome::NotFound);
}

#[test]
fn error_messages() {
    assert_eq!(NoRoute.message(), "No matching route found.");
    assert_eq!(TrailingSlash.message(), "The request had a trailing slash.");
}
