use routecore::http::not_found_response;
use routecore::pattern::{
    bytes_eq, is_param_segment, path_matches_bytes, pattern_has_param, route_path_matches,
    split_segments,
};

#[test]
fn split_keeps_empty_segments() {
    let segs = split_segments(b"/users/42");
    assert_eq!(segs, vec![b"".to_vec(), b"users".to_vec(), b"42".to_vec()]);
    assert_eq!(split_segments(b""), vec![b"".to_vec()]);
    assert_eq!(split_segments(b"/"), vec![b"".to_vec(), b"".to_vec()]);
    assert_eq!(split_segments(b"a//b"), vec![b"a".to_vec(), b"".to_vec(), b"b".to_vec()]);
    assert_eq!(split_segments(b"abc"), vec![b"abc".to_vec()]);
}

#[test]
fn placeholder_segments_are_brace_wrapped() {
    assert!(is_param_segment(b"{id}"));
    assert!(is_param_segment(b"{}"));
    assert!(!is_param_segment(b"{id"));
    assert!(!is_param_segment(b"id}"));
    assert!(!is_param_segment(b"a{id}"));
    assert!(!is_param_segment(b"id"));
    assert!(!is_param_segment(b""));
    assert!(!is_param_segment(b"{"));
}

#[test]
fn matching_on_text_paths() {
    assert!(route_path_matches("/items/7", "/items/{id}"));
    assert!(route_path_matches("/items/abc", "/items/{id}"));
    assert!(!route_path_matches("/items/7/extra", "/items/{id}"));
    assert!(!route_path_matches("/items/", "/items/{id}"));
    assert!(route_path_matches("/items/7", "/items/7"));
    assert!(!route_path_matches("/items/7", "/items/8"));
    assert!(!route_path_matches("/Items/7", "/items/{id}"));
}

#[test]
fn matching_on_byte_paths() {
    assert!(path_matches_bytes(b"/a/{x}/c", b"/a/b/c"));
    assert!(!path_matches_bytes(b"/a/{x}/c", b"/a/b/d"));
    assert!(!path_matches_bytes(b"/a/{x}/c", b"/a//c"));
    assert!(path_matches_bytes(b"{x}", b"anything"));
    assert!(!path_matches_bytes(b"{x}", b""));
}

#[test]
fn pattern_classification() {
    assert!(pattern_has_param(b"/users/{id}"));
    assert!(pattern_has_param(b"{x}"));
    assert!(!pattern_has_param(b"/users/42"));
    assert!(!pattern_has_param(b"/a/{x"));
    assert!(!pattern_has_param(b"/a{b}/c"));
    assert!(!pattern_has_param(b""));
}

#[test]
fn byte_equality() {
    assert!(bytes_eq(b"abc", b"abc"));
    assert!(bytes_eq(b"", b""));
    assert!(!bytes_eq(b"abc", b"abd"));
    assert!(!bytes_eq(b"abc", b"ab"));
}

#[test]
fn not_found_response_shape() {
    let resp = not_found_response();
    assert_eq!(resp.status, 404);
    assert_eq!(resp.body, b"Not Found".to_vec());
    assert!(resp.headers.is_empty());
}
