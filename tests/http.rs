use edge_utilities::http::{dechunk, dechunk_body, discovery_request, extract_json_array, http_body};

#[test]
fn dechunk_single_chunk() {
    assert_eq!(dechunk_body("5\r\nhello\r\n0\r\n\r\n"), "hello");
}

#[test]
fn dechunk_malformed_length_is_empty() {
    assert_eq!(dechunk_body("zz\r\nhello\r\n0\r\n\r\n"), "");
    assert_eq!(dechunk_body("no line ending"), "");
}

#[test]
fn dechunk_several_chunks() {
    assert_eq!(dechunk_body("3\r\nabc\r\nA\r\n0123456789\r\n0\r\n\r\n"), "abc0123456789");
    assert_eq!(dechunk(b" 2 \r\nxy\r\n0\r\n"), b"xy".to_vec());
}

#[test]
fn dechunk_short_last_chunk() {
    assert_eq!(dechunk_body("10\r\nabc"), "abc");
}

#[test]
fn dechunk_counts_bytes() {
    // "é" is two bytes on the wire.
    assert_eq!(dechunk_body("3\r\naé\r\n0\r\n\r\n"), "aé");
}

#[test]
fn body_plain_and_chunked() {
    let plain = b"HTTP/1.1 200 OK\r\nContent-Length: 2\r\n\r\n[]";
    assert_eq!(http_body(plain), Some(b"[]".to_vec()));
    let chunked = b"HTTP/1.1 200 OK\r\nTransfer-Encoding: Chunked\r\n\r\n2\r\n[]\r\n0\r\n\r\n";
    assert_eq!(http_body(chunked), Some(b"[]".to_vec()));
    assert_eq!(http_body(b"HTTP/1.1 200 OK\r\n"), None);
}

#[test]
fn json_array_after_banner() {
    let body = b"Welcome to the endpoint\n[{\"id\":\"1\"}]";
    assert_eq!(extract_json_array(body), Some(b"[{\"id\":\"1\"}]".to_vec()));
}

#[test]
fn json_array_missing() {
    assert_eq!(extract_json_array(b"{\"id\":\"1\"}"), None);
    assert_eq!(extract_json_array(b"] then ["), None);
    assert_eq!(extract_json_array(b""), None);
}

#[test]
fn request_text() {
    assert_eq!(
        discovery_request("/json", 9222),
        "GET /json HTTP/1.1\r\nHost: 127.0.0.1:9222\r\nConnection: close\r\n\r\n"
    );
    assert_eq!(
        discovery_request("/json/version", 0),
        "GET /json/version HTTP/1.1\r\nHost: 127.0.0.1:0\r\nConnection: close\r\n\r\n"
    );
}
