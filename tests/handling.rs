use liveness::connection::{BODY_READ_LEN, HEADER_READ_LEN, MAX_HEADER_SIZE};
use liveness::request::MAX_BODY_SIZE;
use liveness::response::text_body;
use liveness::{
    inspect, BodyDrain, BodyStep, HeaderReader, HeaderStep, ReadEvent, Reply, Route, Status,
    Verdict,
};

/// Runs one request through the read machines as a connection would,
/// the raw bytes arriving in reads of the usual size.
fn run_request(raw: &str, show_favicon: bool) -> Vec<u8> {
    let bytes = raw.as_bytes();
    let mut reader = HeaderReader::new();
    let mut pos = 0;
    loop {
        let end = (pos + HEADER_READ_LEN).min(bytes.len());
        let step = reader.step(ReadEvent::Data(bytes[pos..end].to_vec()));
        pos = end;
        match step {
            HeaderStep::NeedMore => continue,
            HeaderStep::Complete => break,
            other => {
                return match other.reply() {
                    Some(r) => r.head().into_bytes(),
                    None => Vec::new(),
                }
            }
        }
    }
    let text = reader.text();
    match inspect(&text, Some("127.0.0.1:40000"), show_favicon) {
        Verdict::Reject(status) => Reply::Bare(status).head().into_bytes(),
        Verdict::Proceed { route, content_length, .. } => match route.reply() {
            Some((reply, with_body)) => {
                let mut out = reply.head().into_bytes();
                if with_body && reply == Reply::Text {
                    out.extend_from_slice(text_body().as_bytes());
                }
                out
            }
            None => {
                let mut drain = match BodyDrain::new(content_length, reader.surplus_len()) {
                    Ok(d) => d,
                    Err(status) => return Reply::Bare(status).head().into_bytes(),
                };
                let mut step = BodyStep::Done;
                while !drain.is_done() {
                    let end = (pos + drain.next_read_len()).min(bytes.len());
                    step = drain.step(ReadEvent::Data(bytes[pos..end].to_vec()));
                    pos = end;
                    if step != BodyStep::NeedMore {
                        break;
                    }
                }
                match step.reply() {
                    Some(r) => r.head().into_bytes(),
                    None => Vec::new(),
                }
            }
        },
    }
}

#[test]
fn rejects_oversized_content_length_with_413() {
    let request = format!(
        "GET / HTTP/1.1\r\nHost: example\r\nContent-Length: {}\r\n\r\n",
        MAX_BODY_SIZE + 1
    );
    let response_bytes = run_request(&request, false);
    let response = String::from_utf8_lossy(&response_bytes);
    assert!(
        response.starts_with("HTTP/1.1 413"),
        "unexpected response: {}",
        response
    );
}

#[test]
fn accepts_valid_content_length() {
    let request = "GET / HTTP/1.1\r\nHost: example\r\nContent-Length: 5\r\n\r\nhello";
    let response_bytes = run_request(request, false);
    let response = String::from_utf8_lossy(&response_bytes);
    assert!(
        response.starts_with("HTTP/1.1 200"),
        "unexpected response: {}",
        response
    );
    assert!(response.ends_with("\r\n\r\nOK"));
}

#[test]
fn rejects_chunked_requests_with_501() {
    let request = "GET / HTTP/1.1\r\nHost: example\r\nTransfer-Encoding: chunked\r\n\r\n";
    let response_bytes = run_request(request, false);
    let response = String::from_utf8_lossy(&response_bytes);
    assert!(
        response.starts_with("HTTP/1.1 501"),
        "unexpected response: {}",
        response
    );
}

#[test]
fn read_body_times_out_when_deadline_passed() {
    let mut drain = BodyDrain::new(1, 0).ok().expect("within bounds");
    let step = drain.step(ReadEvent::DeadlinePassed);
    assert_eq!(step, BodyStep::TimedOut);
    assert_eq!(step.reply(), Some(Reply::Bare(Status::RequestTimeout)));
}

#[test]
fn read_body_succeeds_before_deadline() {
    let mut drain = BodyDrain::new(4, 0).ok().expect("within bounds");
    assert_eq!(drain.next_read_len(), 4);
    assert_eq!(drain.step(ReadEvent::Data(b"test".to_vec())), BodyStep::Done);
    assert!(drain.is_done());
}

#[test]
fn get_root_with_body_answers_ok() {
    let response = run_request(
        "GET / HTTP/1.1\r\nHost: example\r\nContent-Length: 5\r\n\r\nhello",
        true,
    );
    let expected = "HTTP/1.1 200 OK\r\nConnection: close\r\nContent-Type: text/plain; charset=utf-8\r\nX-Content-Type-Options: nosniff\r\nX-Frame-Options: DENY\r\nContent-Length: 2\r\n\r\nOK";
    assert_eq!(String::from_utf8(response).unwrap(), expected);
}

#[test]
fn head_root_answers_ok_without_body() {
    let response = run_request("HEAD / HTTP/1.1\r\nHost: example\r\n\r\n", true);
    let text = String::from_utf8(response).unwrap();
    assert!(text.starts_with("HTTP/1.1 200 OK\r\n"));
    assert!(text.contains("Content-Length: 2\r\n"));
    assert!(text.ends_with("\r\n\r\n"));
}

#[test]
fn other_methods_get_501_and_other_paths_404() {
    let post = run_request("POST / HTTP/1.1\r\n\r\n", true);
    assert!(String::from_utf8(post).unwrap().starts_with("HTTP/1.1 501 Not Implemented\r\n"));
    let head = run_request("HEAD /missing HTTP/1.1\r\n\r\n", true);
    assert!(String::from_utf8(head).unwrap().starts_with("HTTP/1.1 404 Not Found\r\n"));
    let get = run_request("GET /missing HTTP/1.1\r\nContent-Length: 3\r\n\r\n", true);
    // The body never arrives: the peer is gone, so nothing is written.
    assert!(get.is_empty());
    let get = run_request("GET /missing HTTP/1.1\r\n\r\n", true);
    assert!(String::from_utf8(get).unwrap().starts_with("HTTP/1.1 404 Not Found\r\n"));
}

#[test]
fn favicon_route_follows_the_switch() {
    let on = run_request("GET /favicon.ico HTTP/1.1\r\n\r\n", true);
    let on = String::from_utf8(on).unwrap();
    assert!(on.starts_with("HTTP/1.1 200 OK\r\n"));
    assert!(on.contains("Content-Type: image/png\r\n"));
    assert!(on.contains("Content-Length: 130\r\n"));
    let off = run_request("GET /favicon.ico HTTP/1.1\r\n\r\n", false);
    assert!(String::from_utf8(off).unwrap().starts_with("HTTP/1.1 404"));
}

#[test]
fn duplicate_and_malformed_lengths_get_431() {
    let dup = run_request(
        "GET / HTTP/1.1\r\nContent-Length: 1\r\ncontent-length: 1\r\n\r\n",
        true,
    );
    assert!(String::from_utf8(dup)
        .unwrap()
        .starts_with("HTTP/1.1 431 Request Header Fields Too Large\r\n"));
    let bad = run_request("GET / HTTP/1.1\r\nContent-Length: -4\r\n\r\n", true);
    assert!(String::from_utf8(bad).unwrap().starts_with("HTTP/1.1 431"));
}

#[test]
fn closing_before_blank_line_is_unexpected_eof() {
    let mut reader = HeaderReader::new();
    assert_eq!(
        reader.step(ReadEvent::Data(b"GET / HTTP/1.1\r\nHost: x\r\n".to_vec())),
        HeaderStep::NeedMore
    );
    let step = reader.step(ReadEvent::Data(Vec::new()));
    assert_eq!(step, HeaderStep::UnexpectedEof);
    assert_eq!(step.reply(), None);
}

#[test]
fn terminator_split_across_reads_completes_the_block() {
    let mut reader = HeaderReader::new();
    assert_eq!(reader.step(ReadEvent::Data(b"GET / HTTP/1.1\r\n\r".to_vec())), HeaderStep::NeedMore);
    assert_eq!(reader.step(ReadEvent::Data(b"\n".to_vec())), HeaderStep::Complete);
    assert_eq!(reader.text(), "GET / HTTP/1.1\r\n\r\n");
}

#[test]
fn header_block_over_limit_gets_431() {
    let mut reader = HeaderReader::new();
    let chunk = vec![b'a'; HEADER_READ_LEN];
    for _ in 0..(MAX_HEADER_SIZE / HEADER_READ_LEN) {
        assert_eq!(reader.step(ReadEvent::Data(chunk.clone())), HeaderStep::NeedMore);
    }
    let step = reader.step(ReadEvent::Data(vec![b'a']));
    assert_eq!(step, HeaderStep::TooLarge);
    assert_eq!(step.reply(), Some(Reply::Bare(Status::HeaderFieldsTooLarge)));
}

#[test]
fn header_deadline_gets_408() {
    let mut reader = HeaderReader::new();
    let step = reader.step(ReadEvent::DeadlinePassed);
    assert_eq!(step, HeaderStep::TimedOut);
    let head = step.reply().unwrap().head();
    assert_eq!(
        head,
        "HTTP/1.1 408 Request Timeout\r\nConnection: close\r\nX-Content-Type-Options: nosniff\r\nX-Frame-Options: DENY\r\nContent-Length: 0\r\n\r\n"
    );
}

#[test]
fn invalid_utf8_in_headers_is_replaced() {
    let mut reader = HeaderReader::new();
    let bytes = b"GET /\xff HTTP/1.1\r\n\r\n".to_vec();
    assert_eq!(reader.step(ReadEvent::Data(bytes)), HeaderStep::Complete);
    assert_eq!(reader.text(), "GET /\u{fffd} HTTP/1.1\r\n\r\n");
}

#[test]
fn oversized_body_cannot_be_drained() {
    assert!(matches!(BodyDrain::new(MAX_BODY_SIZE + 1, 0), Err(Status::PayloadTooLarge)));
    let mut drain = BodyDrain::new(BODY_READ_LEN + 10, 0).ok().unwrap();
    assert_eq!(drain.next_read_len(), BODY_READ_LEN);
    assert_eq!(drain.step(ReadEvent::Data(vec![0; BODY_READ_LEN])), BodyStep::NeedMore);
    assert_eq!(drain.next_read_len(), 10);
    let step = drain.step(ReadEvent::Data(Vec::new()));
    assert_eq!(step, BodyStep::UnexpectedEof);
    assert_eq!(step.reply(), None);
}

#[test]
fn proceed_carries_log_entry_and_route() {
    let headers = "GET /x?y HTTP/1.1\r\nX-Forwarded-For:  10.0.0.1 , 10.0.0.2\r\nContent-Length: 7\r\n\r\n";
    match inspect(headers, Some("127.0.0.1:1"), true) {
        Verdict::Proceed { log_entry, content_length, route } => {
            assert_eq!(content_length, 7);
            assert_eq!(route, Route::DrainThenNotFound);
            let count = headers.len() + 7;
            assert_eq!(log_entry, format!("10.0.0.1  \"GET /x?y HTTP/1.1\" {} bytes", count));
        }
        Verdict::Reject(_) => panic!("expected the request to proceed"),
    }
}

#[test]
fn body_timeout_is_five_seconds() {
    assert_eq!(liveness::body_timeout_duration(), 5000);
}

#[test]
fn header_block_ends_at_the_blank_line() {
    let mut reader = HeaderReader::new();
    let step = reader.step(ReadEvent::Data(
        b"GET /x HTTP/1.1\r\nHost: a\r\n\r\nContent-Length: 9\r\n".to_vec(),
    ));
    assert_eq!(step, HeaderStep::Complete);
    assert_eq!(reader.text(), "GET /x HTTP/1.1\r\nHost: a\r\n\r\n");
    assert_eq!(reader.surplus_len(), 19);
}

#[test]
fn body_sent_with_headers_is_credited_to_the_drain() {
    let response = run_request("GET /missing HTTP/1.1\r\nContent-Length: 5\r\n\r\nhello", true);
    assert!(String::from_utf8(response).unwrap().starts_with("HTTP/1.1 404 Not Found\r\n"));
    let drain = BodyDrain::new(5, 2).ok().unwrap();
    assert_eq!(drain.next_read_len(), 3);
    assert!(BodyDrain::new(5, 9).ok().unwrap().is_done());
}

#[test]
fn blank_line_within_limit_wins_over_size() {
    let mut bytes = b"GET / HTTP/1.1\r\n\r\n".to_vec();
    bytes.resize(MAX_HEADER_SIZE + 1, b'x');
    let mut reader = HeaderReader::new();
    assert_eq!(reader.step(ReadEvent::Data(bytes)), HeaderStep::Complete);
    assert_eq!(reader.text(), "GET / HTTP/1.1\r\n\r\n");

    let mut reader = HeaderReader::new();
    let mut late = vec![b'a'; MAX_HEADER_SIZE - 2];
    late.extend_from_slice(b"\r\n\r\n");
    assert_eq!(reader.step(ReadEvent::Data(late)), HeaderStep::TooLarge);

    let mut reader = HeaderReader::new();
    let mut exact = vec![b'a'; MAX_HEADER_SIZE - 4];
    exact.extend_from_slice(b"\r\n\r\n");
    exact.push(b'z');
    assert_eq!(reader.step(ReadEvent::Data(exact)), HeaderStep::Complete);
    assert_eq!(reader.surplus_len(), 1);
}

#[test]
fn huge_content_length_gets_413() {
    let response = run_request(
        "GET / HTTP/1.1\r\nContent-Length: 99999999999999999999999999\r\n\r\n",
        true,
    );
    assert!(String::from_utf8(response).unwrap().starts_with("HTTP/1.1 413 Payload Too Large\r\n"));
}
