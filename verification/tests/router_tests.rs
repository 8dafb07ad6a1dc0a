use routecore::http::{HttpMethod, Request};
use routecore::router::{Route, RouteAction, Router};

fn req(method: HttpMethod, path: &str) -> Request {
    Request { method, path: path.as_bytes().to_vec(), headers: Vec::new(), body: Vec::new() }
}

#[test]
fn empty_router_misses_everything() {
    let r = Router::new();
    assert_eq!(r.get_handler(&req(HttpMethod::Get, "/")), None);
    assert_eq!(r.get_handler(&req(HttpMethod::Get, "/users/42")), None);
    assert_eq!(r.get_handler(&req(HttpMethod::Post, "")), None);
}

#[test]
fn exact_route_is_dispatched() {
    let mut r = Router::new();
    r.register(Route::get("/users/42", 7));
    assert_eq!(r.get_handler(&req(HttpMethod::Get, "/users/42")), Some(7));
    match r.route(&req(HttpMethod::Get, "/users/42")) {
        RouteAction::Invoke(h) => assert_eq!(h, 7),
        RouteAction::NotFound(_) => panic!("exact route must never fall through to not-found"),
    }
}

#[test]
fn exact_match_wins_over_parameterized() {
    // The parameterized route is registered first, yet the exact one wins.
    let mut r = Router::new();
    r.register(Route::get("/users/{id}", 1));
    r.register(Route::get("/users/42", 2));
    assert_eq!(r.get_handler(&req(HttpMethod::Get, "/users/42")), Some(2));
    // Other paths still go to the parameterized route.
    assert_eq!(r.get_handler(&req(HttpMethod::Get, "/users/7")), Some(1));
}

#[test]
fn parameter_matches_any_single_nonempty_segment() {
    let mut r = Router::new();
    r.register(Route::get("/items/{id}", 5));
    assert_eq!(r.get_handler(&req(HttpMethod::Get, "/items/7")), Some(5));
    assert_eq!(r.get_handler(&req(HttpMethod::Get, "/items/abc")), Some(5));
    // Never across an internal '/': the segment counts differ.
    assert_eq!(r.get_handler(&req(HttpMethod::Get, "/items/7/extra")), None);
    // Never an empty segment.
    assert_eq!(r.get_handler(&req(HttpMethod::Get, "/items/")), None);
}

#[test]
fn segment_count_mismatch_is_a_miss() {
    let mut r = Router::new();
    r.register(Route::get("/a/b", 1));
    r.register(Route::get("/c/{x}", 2));
    assert_eq!(r.get_handler(&req(HttpMethod::Get, "/a/b/c")), None);
    assert_eq!(r.get_handler(&req(HttpMethod::Get, "/a")), None);
    assert_eq!(r.get_handler(&req(HttpMethod::Get, "/c")), None);
    assert_eq!(r.get_handler(&req(HttpMethod::Get, "/c/x/y")), None);
}

#[test]
fn reregistering_replaces_the_handler() {
    let mut r = Router::new();
    r.register(Route::get("/x", 1));
    r.register(Route::get("/x", 2));
    assert_eq!(r.get_handler(&req(HttpMethod::Get, "/x")), Some(2));
}

#[test]
fn reregistering_a_parameterized_pattern_replaces_too() {
    let mut r = Router::new();
    r.register(Route::get("/x/{id}", 1));
    r.register(Route::get("/x/{id}", 2));
    assert_eq!(r.get_handler(&req(HttpMethod::Get, "/x/1")), Some(2));
}

#[test]
fn unknown_path_returns_404_with_body() {
    let mut r = Router::new();
    r.register(Route::get("/known", 1));
    match r.route(&req(HttpMethod::Get, "/unknown")) {
        RouteAction::Invoke(_) => panic!("nothing may be invoked for an unregistered path"),
        RouteAction::NotFound(resp) => {
            assert_eq!(resp.status, 404);
            assert!(!resp.body.is_empty());
            assert_eq!(resp.body, b"Not Found".to_vec());
        }
    }
}

#[test]
fn unknown_method_returns_404() {
    let mut r = Router::new();
    r.register(Route::get("/known", 1));
    match r.route(&req(HttpMethod::Post, "/known")) {
        RouteAction::Invoke(_) => panic!("a POST must not reach a GET route"),
        RouteAction::NotFound(resp) => assert_eq!(resp.status, 404),
    }
}

#[test]
fn methods_are_kept_apart() {
    let mut r = Router::new();
    r.register(Route::new(HttpMethod::Get, "/res", 1));
    r.register(Route::new(HttpMethod::Post, "/res", 2));
    r.register(Route::new(HttpMethod::Delete, "/res/{id}", 3));
    assert_eq!(r.get_handler(&req(HttpMethod::Get, "/res")), Some(1));
    assert_eq!(r.get_handler(&req(HttpMethod::Post, "/res")), Some(2));
    assert_eq!(r.get_handler(&req(HttpMethod::Delete, "/res/9")), Some(3));
    assert_eq!(r.get_handler(&req(HttpMethod::Put, "/res")), None);
}

#[test]
fn overlapping_parameterized_routes_first_registered_wins() {
    let mut r = Router::new();
    r.register(Route::get("/a/{x}", 1));
    r.register(Route::get("/{y}/b", 2));
    // Both match /a/b; the scan runs in registration order.
    assert_eq!(r.get_handler(&req(HttpMethod::Get, "/a/b")), Some(1));
    // Paths only one of them matches are unaffected.
    assert_eq!(r.get_handler(&req(HttpMethod::Get, "/a/c")), Some(1));
    assert_eq!(r.get_handler(&req(HttpMethod::Get, "/c/b")), Some(2));
}

#[test]
fn malformed_placeholder_is_a_literal() {
    let mut r = Router::new();
    // No closing brace: not a placeholder, so the route is exact.
    r.register(Route::get("/a/{x", 1));
    assert_eq!(r.get_handler(&req(HttpMethod::Get, "/a/{x")), Some(1));
    assert_eq!(r.get_handler(&req(HttpMethod::Get, "/a/b")), None);
    // Braces not wrapping the whole segment: literal too.
    let mut r2 = Router::new();
    r2.register(Route::get("/a{b}/c", 2));
    assert_eq!(r2.get_handler(&req(HttpMethod::Get, "/a{b}/c")), Some(2));
    assert_eq!(r2.get_handler(&req(HttpMethod::Get, "/azz/c")), None);
}

#[test]
fn literals_are_case_sensitive() {
    let mut r = Router::new();
    r.register(Route::get("/Users", 1));
    assert_eq!(r.get_handler(&req(HttpMethod::Get, "/users")), None);
    assert_eq!(r.get_handler(&req(HttpMethod::Get, "/Users")), Some(1));
}

#[test]
fn registration_is_observed_by_later_dispatches() {
    let mut r = Router::new();
    assert_eq!(r.get_handler(&req(HttpMethod::Get, "/late")), None);
    r.register(Route::get("/late", 9));
    assert_eq!(r.get_handler(&req(HttpMethod::Get, "/late")), Some(9));
    r.register(Route::get("/later/{id}", 10));
    assert_eq!(r.get_handler(&req(HttpMethod::Get, "/later/1")), Some(10));
}

#[test]
fn repeated_dispatches_are_independent() {
    let mut r = Router::new();
    r.register(Route::get("/a", 1));
    r.register(Route::get("/b", 2));
    for _ in 0..3 {
        assert_eq!(r.get_handler(&req(HttpMethod::Get, "/a")), Some(1));
        assert_eq!(r.get_handler(&req(HttpMethod::Get, "/b")), Some(2));
        assert_eq!(r.get_handler(&req(HttpMethod::Get, "/c")), None);
    }
}

#[test]
fn cloned_router_dispatches_like_the_original() {
    let mut r = Router::new();
    r.register(Route::get("/a", 1));
    r.register(Route::get("/b/{x}", 2));
    let c = r.clone();
    assert_eq!(c.get_handler(&req(HttpMethod::Get, "/a")), Some(1));
    assert_eq!(c.get_handler(&req(HttpMethod::Get, "/b/7")), Some(2));
    assert_eq!(c.get_handler(&req(HttpMethod::Get, "/c")), None);
}

#[test]
fn cloned_route_keeps_the_binding() {
    let route = Route::get("/a/{x}", 3);
    let copy = route.clone();
    let mut r = Router::new();
    r.register(copy);
    assert_eq!(r.get_handler(&req(HttpMethod::Get, "/a/1")), Some(3));
}

#[test]
fn routes_are_collected_in_order() {
    let routes = vec![
        Route::get("/a", 1),
        Route::get("/a/{x}", 2),
        Route::get("/a", 3),
    ];
    let r = Router::from_routes(&routes);
    // The later exact registration of /a replaced the earlier one.
    assert_eq!(r.get_handler(&req(HttpMethod::Get, "/a")), Some(3));
    assert_eq!(r.get_handler(&req(HttpMethod::Get, "/a/b")), Some(2));
    assert_eq!(r.get_handler(&req(HttpMethod::Get, "/b")), None);
}

#[test]
fn root_and_empty_paths() {
    let mut r = Router::new();
    r.register(Route::get("/", 1));
    r.register(Route::get("", 2));
    assert_eq!(r.get_handler(&req(HttpMethod::Get, "/")), Some(1));
    assert_eq!(r.get_handler(&req(HttpMethod::Get, "")), Some(2));
    // "{x}" alone never matches the empty path: the segment is empty.
    let mut r2 = Router::new();
    r2.register(Route::get("{x}", 3));
    assert_eq!(r2.get_handler(&req(HttpMethod::Get, "")), None);
    assert_eq!(r2.get_handler(&req(HttpMethod::Get, "abc")), Some(3));
}
