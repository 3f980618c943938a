use liveness::{
    client_address, extract_content_length, has_chunked_transfer_encoding, log_entry, route,
    sanitize, HeaderError, Route,
};

#[test]
fn sanitize_replaces_controls_and_quotes() {
    assert_eq!(sanitize("a\"b\u{1b}[31m\n\u{85}é"), "a?b?[31m??é");
    assert_eq!(sanitize(""), "");
}

#[test]
fn client_address_prefers_forwarded_token() {
    let h = "GET / HTTP/1.1\r\nx-forwarded-for: 1.2.3.4,5.6.7.8\r\n\r\n";
    assert_eq!(client_address(h, Some("9.9.9.9:1")), "1.2.3.4");
    let h = "GET / HTTP/1.1\r\nX-Forwarded-For: \"evil\r\n\r\n";
    assert_eq!(client_address(h, None), "?evil");
    let h = "GET / HTTP/1.1\r\nX-FORWARDED-FOR: 1.2.3.4\r\n\r\n";
    assert_eq!(client_address(h, Some("9.9.9.9:1")), "9.9.9.9:1");
    assert_eq!(client_address(h, None), "unknown");
}

#[test]
fn log_entry_is_formatted_and_sanitized() {
    assert_eq!(
        log_entry("1.2.3.4", "GET /\"x\" HTTP/1.1", 1234),
        "1.2.3.4 \"GET /?x? HTTP/1.1\" 1234 bytes"
    );
    assert_eq!(log_entry("p", "", 0), "p \"\" 0 bytes");
}

#[test]
fn content_length_is_extracted_case_insensitively() {
    assert_eq!(extract_content_length("GET / HTTP/1.1\r\n\r\n"), Ok(0));
    assert_eq!(extract_content_length("GET / HTTP/1.1\r\ncOnTeNt-LeNgTh:  42 \r\n\r\n"), Ok(42));
    assert_eq!(
        extract_content_length("GET / HTTP/1.1\r\nContent-Length: 1048576\r\n\r\n"),
        Ok(1048576)
    );
    assert_eq!(
        extract_content_length("GET / HTTP/1.1\r\nContent-Length: 1048577\r\n\r\n"),
        Err(HeaderError::BodyTooLarge)
    );
    assert_eq!(
        extract_content_length("GET / HTTP/1.1\r\nContent-Length: 184467440737095516160\r\n\r\n"),
        Err(HeaderError::BodyTooLarge)
    );
    assert_eq!(
        extract_content_length("GET / HTTP/1.1\r\nContent-Length: +12\r\n\r\n"),
        Ok(12)
    );
    assert_eq!(
        extract_content_length("GET / HTTP/1.1\r\nContent-Length:\r\n\r\n"),
        Err(HeaderError::MalformedHeader)
    );
    assert_eq!(
        extract_content_length("GET / HTTP/1.1\r\nContent-Length: x\r\n\r\n"),
        Err(HeaderError::MalformedHeader)
    );
    assert_eq!(
        extract_content_length("GET / HTTP/1.1\r\nContent-Length: -1\r\n\r\n"),
        Err(HeaderError::MalformedHeader)
    );
    assert_eq!(
        extract_content_length("Content-Length: 0\r\nContent-Length: 0\r\n\r\n"),
        Err(HeaderError::DuplicateHeader)
    );
}

#[test]
fn chunked_encoding_is_detected_case_insensitively() {
    assert!(has_chunked_transfer_encoding("POST /x HTTP/1.1\r\nTRANSFER-ENCODING: gzip, Chunked\r\n\r\n"));
    assert!(!has_chunked_transfer_encoding("GET / HTTP/1.1\r\nTransfer-Encoding: gzip\r\n\r\n"));
    assert!(!has_chunked_transfer_encoding("GET / HTTP/1.1\r\nX-Note: chunked\r\n\r\n"));
}

#[test]
fn routes_follow_method_and_path() {
    assert_eq!(route("GET", "/", false), Route::Root { body: true });
    assert_eq!(route("HEAD", "/", false), Route::Root { body: false });
    assert_eq!(route("HEAD", "/favicon.ico", true), Route::Favicon { body: false });
    assert_eq!(route("HEAD", "/favicon.ico", false), Route::NotFound);
    assert_eq!(route("DELETE", "/", true), Route::UnsupportedMethod);
    assert_eq!(route("get", "/", true), Route::UnsupportedMethod);
    assert_eq!(route("GET", "/other", true), Route::DrainThenNotFound);
}
