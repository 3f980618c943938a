use liveness::parse_request_line;

#[test]
fn parses_request_line_without_query() {
    let (method, path) = parse_request_line("GET / HTTP/1.1");
    assert_eq!(method, "GET");
    assert_eq!(path, "/");
}

#[test]
fn strips_query_from_path() {
    let (method, path) = parse_request_line("GET /?foo=bar HTTP/1.1");
    assert_eq!(method, "GET");
    assert_eq!(path, "/");
}

#[test]
fn handles_root_without_http_version() {
    let (method, path) = parse_request_line("GET /");
    assert_eq!(method, "GET");
    assert_eq!(path, "/");
}

#[test]
fn handles_missing_http_version() {
    let (method, path) = parse_request_line("GET /foo");
    assert_eq!(method, "GET");
    assert_eq!(path, "/foo");
}

#[test]
fn strips_query_with_http_version_and_path() {
    let (method, path) = parse_request_line("GET /foo?bar=baz HTTP/1.1");
    assert_eq!(method, "GET");
    assert_eq!(path, "/foo");
}

#[test]
fn strips_multiple_query_params() {
    let (method, path) = parse_request_line("GET /?foo=bar&baz=qux HTTP/1.1");
    assert_eq!(method, "GET");
    assert_eq!(path, "/");
}

#[test]
fn handles_empty_query_string() {
    let (method, path) = parse_request_line("GET /? HTTP/1.1");
    assert_eq!(method, "GET");
    assert_eq!(path, "/");
}

#[test]
fn preserves_fragment_in_path() {
    let (method, path) = parse_request_line("GET /#section HTTP/1.1");
    assert_eq!(method, "GET");
    assert_eq!(path, "/#section");
}

#[test]
fn handles_empty_request_line() {
    let (method, path) = parse_request_line("");
    assert_eq!(method, "");
    assert_eq!(path, "");
}

#[test]
fn tolerates_extra_spaces_after_method() {
    let (method, path) = parse_request_line("GET  /foo HTTP/1.1");
    assert_eq!(method, "GET");
    assert_eq!(path, "/foo");
}

#[test]
fn line_without_space_has_no_method() {
    let (method, path) = parse_request_line("GET");
    assert_eq!(method, "");
    assert_eq!(path, "");
}

#[test]
fn fragment_and_query_path_keeps_fragment_only_without_query() {
    let (method, path) = parse_request_line("POST /a/b#frag HTTP/1.1");
    assert_eq!(method, "POST");
    assert_eq!(path, "/a/b#frag");
    let (_, path) = parse_request_line("GET /a?x=1#frag HTTP/1.1");
    assert_eq!(path, "/a");
}

#[test]
fn tabs_after_method_are_skipped() {
    let (method, path) = parse_request_line("GET \t/tab HTTP/1.1");
    assert_eq!(method, "GET");
    assert_eq!(path, "/tab");
}
