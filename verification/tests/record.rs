use relentless::record::{raw_request, raw_response, record_extension};

#[test]
fn test_empty_body_request() {
    let raw = raw_request("GET", "http://localhost:3000/", "HTTP/1.1", &vec![], Some(b""));
    assert_eq!(raw.as_bytes(), b"GET http://localhost:3000/ HTTP/1.1\n\n");
}

#[test]
fn test_empty_body_response() {
    let raw = raw_response("HTTP/1.1", "200 OK", &vec![], Some(b""));
    assert_eq!(raw.as_bytes(), b"HTTP/1.1 200 OK\n\n");
}

#[test]
fn record_headers_and_body() {
    let headers = vec![
        ("content-type".to_string(), "\"application/json\"".to_string()),
        ("x-id".to_string(), "\"1\"".to_string()),
    ];
    let raw = raw_request("POST", "http://localhost:3000/echo", "HTTP/1.1", &headers, Some(b"{\"a\":1}"));
    assert_eq!(
        raw,
        "POST http://localhost:3000/echo HTTP/1.1\ncontent-type: \"application/json\"\nx-id: \"1\"\n\n{\"a\":1}"
    );
}

#[test]
fn record_invalid_utf8_and_missing_body() {
    let raw = raw_response("HTTP/1.1", "404 Not Found", &vec![], Some(&[0x66, 0xff, 0x6f]));
    assert_eq!(raw, "HTTP/1.1 404 Not Found\n\nf\u{fffd}o");
    let raw = raw_response("HTTP/1.1", "500 Internal Server Error", &vec![], None);
    assert_eq!(raw, "HTTP/1.1 500 Internal Server Error\n\n");
}

#[test]
fn record_extension_by_content_type() {
    assert_eq!(record_extension(Some("application/json")), "json");
    assert_eq!(record_extension(Some("Application/JSON; charset=utf-8")), "json");
    assert_eq!(record_extension(Some("text/plain")), "txt");
    assert_eq!(record_extension(Some("application/jsonx")), "txt");
    assert_eq!(record_extension(None), "txt");
}
