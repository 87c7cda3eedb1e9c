use httprelay::relay::Relay;
use httprelay::relay::effective_listen_addr;
use httprelay::relay::effective_upstream_addr;

fn started(proxy: &str) -> Relay {
    let mut r = Relay::new(proxy.to_string());
    r.on_connected();
    r
}

#[test]
fn method_and_uri_come_from_the_first_line() {
    let mut r = started("127.0.0.1:9000");
    r.on_client_chunk(b"GET /foo/bar HTTP/1.1\r\nAccept: */*");
    let done = r.on_upstream_chunk(b"HTTP/1.1 200 OK\r\n\r\nok");
    assert!(done);
    let e = r.finish_exchange(7);
    assert_eq!(e.method, "GET");
    assert_eq!(e.uri, "/foo/bar");
    assert_eq!(e.elapsed_ms, 7);
}

#[test]
fn two_tokens_leave_method_and_uri_empty() {
    let mut r = started("127.0.0.1:9000");
    r.on_client_chunk(b"GET /onlytwo\r\n");
    r.on_upstream_error();
    let e = r.finish_exchange(0);
    assert_eq!(e.method, "");
    assert_eq!(e.uri, "");
}

#[test]
fn host_line_is_rewritten_to_the_upstream() {
    let mut r = started("127.0.0.1:9000");
    let fwd = r.on_client_chunk(b"GET / HTTP/1.1\r\nHost: example.com\r\nAccept: */*");
    assert_eq!(fwd, "GET / HTTP/1.1\r\nHost: 127.0.0.1:9000\nAccept: */*");
    r.on_upstream_error();
    let e = r.finish_exchange(1);
    assert_eq!(e.raw_request, "GET / HTTP/1.1\r\nHost: 127.0.0.1:9000\nAccept: */*");
}

#[test]
fn host_marker_anywhere_in_a_line_triggers_the_rewrite() {
    let mut r = started("up:1");
    let fwd = r.on_client_chunk(b"GET / HTTP/1.1\nxxHost: yy\n");
    assert_eq!(fwd, "GET / HTTP/1.1\nHost: up:1\n");
}

#[test]
fn chunk_without_host_passes_through_unchanged() {
    let mut r = started("127.0.0.1:9000");
    let request = b"GET /plain HTTP/1.1\r\nAccept: text/html\r\n\r\n";
    let fwd = r.on_client_chunk(request);
    assert_eq!(fwd.as_bytes(), request);
    let done = r.on_upstream_chunk(b"HTTP/1.1 204 No Content\r\n\r\n");
    assert!(done);
    let e = r.finish_exchange(3);
    assert_eq!(e.raw_request.as_bytes(), &request[..]);
    assert_eq!(e.raw_response, "HTTP/1.1 204 No Content\r\n\r\n");
}

#[test]
fn connect_failure_yields_one_diagnostic_exchange() {
    let mut r = Relay::new("10.255.255.1:1".to_string());
    let e = r.on_connect_failed("Connection refused (os error 111)".to_string());
    assert_eq!(e.method, "Connection refused (os error 111)");
    assert_eq!(e.uri, "");
    assert_eq!(e.raw_request, "");
    assert_eq!(e.raw_response, "");
    assert_eq!(e.elapsed_ms, 0);
}

#[test]
fn full_chunk_keeps_the_request_phase_open() {
    let mut first = Vec::from(&b"GET /big HTTP/1.1\n"[..]);
    while first.len() < 1024 {
        first.push(b'a');
    }
    let mut r = started("up:1");
    let fwd1 = r.on_client_chunk(&first);
    assert_eq!(fwd1.len(), 1024);
    // a second client chunk is still part of the same request, and its first
    // line must not disturb the method parsed from the very first line
    let fwd2 = r.on_client_chunk(b"POST /other HTTP/1.1\n");
    assert_eq!(fwd2, "POST /other HTTP/1.1\n");
    r.on_upstream_error();
    let e = r.finish_exchange(0);
    assert_eq!(e.method, "GET");
    assert_eq!(e.uri, "/big");
    let mut expected = String::from_utf8(first).unwrap();
    expected.push_str("POST /other HTTP/1.1\n");
    assert_eq!(e.raw_request, expected);
}

#[test]
fn response_chunks_accumulate_until_a_short_read() {
    let mut big = vec![b'x'; 1024];
    big[0] = b'H';
    let mut r = started("up:1");
    r.on_client_chunk(b"GET / HTTP/1.1\n\n");
    let done1 = r.on_upstream_chunk(&big);
    assert!(!done1);
    let done2 = r.on_upstream_chunk(b"tail");
    assert!(done2);
    let e = r.finish_exchange(2);
    let mut expected = String::from_utf8(big).unwrap();
    expected.push_str("tail");
    assert_eq!(e.raw_response, expected);
}

#[test]
fn invalid_bytes_decode_to_replacement_characters() {
    let mut r = started("up:1");
    r.on_client_chunk(b"GET / HTTP/1.1\n");
    r.on_upstream_chunk(&[0xff, 0xfe, b'o', b'k']);
    let e = r.finish_exchange(0);
    assert_eq!(e.raw_response, "\u{fffd}\u{fffd}ok");
}

#[test]
fn upstream_read_error_keeps_the_partial_response() {
    let mut r = started("up:1");
    r.on_client_chunk(b"GET / HTTP/1.1\n");
    let mut big = vec![b'y'; 1024];
    big[0] = b'p';
    let done = r.on_upstream_chunk(&big);
    assert!(!done);
    r.on_upstream_error();
    let e = r.finish_exchange(4);
    assert_eq!(e.raw_response, String::from_utf8(big).unwrap());
}

#[test]
fn addresses_default_only_when_empty() {
    assert_eq!(effective_listen_addr(String::new()), "0.0.0.0:8081");
    assert_eq!(effective_listen_addr("127.0.0.1:7000".to_string()), "127.0.0.1:7000");
    assert_eq!(effective_upstream_addr(String::new()), "127.0.0.1:8080");
    assert_eq!(effective_upstream_addr("example.org:80".to_string()), "example.org:80");
}
