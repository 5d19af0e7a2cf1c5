use russl::error::ScanError;
use russl::scanner::ct::{count_entries, entry_count, entry_request, tally};
use russl::scanner::http::HttpResponse;

#[test]
fn counts_json_array_entries() {
    let body = br#"[{"id":1,"name_value":"a.example.com"},
                        {"id":2,"name_value":"b.example.com"},
                        {"id":3,"name_value":"c.example.com"}]"#;
    assert_eq!(count_entries(body).unwrap(), 3);
}

#[test]
fn empty_body_is_zero() {
    assert_eq!(count_entries(b"").unwrap(), 0);
    assert_eq!(count_entries(b"   \n  ").unwrap(), 0);
    assert_eq!(count_entries(b"[]").unwrap(), 0);
}

#[test]
fn malformed_json_errors() {
    assert!(count_entries(b"not json").is_err());
}

#[test]
fn blank_is_ascii_white_space() {
    assert_eq!(count_entries(b"\t\r\n\x0c ").unwrap(), 0);
    // a vertical tab is not white space here
    assert!(matches!(count_entries(b"\x0b"), Err(ScanError::Json(_))));
    assert!(matches!(count_entries(b"{}"), Err(ScanError::Json(_))));
}

#[test]
fn tally_keeps_the_parser_error() {
    assert_eq!(tally(Ok(7)).unwrap(), 7);
    match tally(Err("why".to_string())) {
        Err(ScanError::Json(s)) => assert_eq!(s, "why"),
        _ => panic!("expected a JSON error"),
    }
}

#[test]
fn entry_count_needs_a_successful_response() {
    let ok = HttpResponse { status: 200, headers: vec![], body: b"[1, 2]".to_vec() };
    assert_eq!(entry_count(&ok).unwrap(), 2);
    let bad = HttpResponse { status: 502, headers: vec![], body: b"[]".to_vec() };
    match entry_count(&bad) {
        Err(ScanError::Http(s)) => assert_eq!(s, "crt.sh returned HTTP 502"),
        _ => panic!("expected an HTTP error"),
    }
}

#[test]
fn entry_request_asks_for_json() {
    assert_eq!(
        entry_request("example.com"),
        b"GET /?q=example.com&output=json HTTP/1.1\r\nHost: crt.sh\r\nUser-Agent: russl/0.1\r\nConnection: close\r\nAccept: application/json\r\n\r\n"
    );
}
