use russl::error::ScanError;
use russl::scanner::http::{
    decode_chunked, find_subsequence, parse_parts, parse_response, request,
};

#[test]
fn parses_content_length_body() {
    let raw = b"HTTP/1.1 200 OK\r\nContent-Length: 5\r\nConnection: close\r\n\r\nhello";
    let resp = parse_response(raw).unwrap();
    assert_eq!(resp.status, 200);
    assert_eq!(resp.body, b"hello");
}

#[test]
fn decodes_chunked_body() {
    let raw = b"HTTP/1.1 200 OK\r\nTransfer-Encoding: chunked\r\n\r\n4\r\nWiki\r\n5\r\npedia\r\n0\r\n\r\n";
    let resp = parse_response(raw).unwrap();
    assert_eq!(resp.status, 200);
    assert_eq!(resp.body, b"Wikipedia");
}

#[test]
fn surfaces_non_200_status() {
    let raw = b"HTTP/1.1 404 Not Found\r\nContent-Length: 0\r\n\r\n";
    let resp = parse_response(raw).unwrap();
    assert_eq!(resp.status, 404);
    assert!(resp.body.is_empty());
}

fn http_error(e: ScanError) -> String {
    match e {
        ScanError::Http(s) => s,
        other => panic!("unexpected error: {other:?}"),
    }
}

#[test]
fn missing_header_terminator_is_an_error() {
    let e = parse_response(b"HTTP/1.1 200 OK\r\nA: b\r\n").unwrap_err();
    assert_eq!(http_error(e), "response missing header terminator");
}

#[test]
fn bad_status_lines_are_errors() {
    for line in ["HTTP/1.1", "", "HTTP/1.1 abc", "HTTP/1.1 65536", "HTTP/1.1 -1"] {
        let raw = format!("{line}\r\n\r\n");
        let e = parse_response(raw.as_bytes()).unwrap_err();
        assert_eq!(http_error(e), format!("bad status line: {line}"));
    }
    assert_eq!(parse_response(b"HTTP/1.1 65535\r\n\r\n").unwrap().status, 65535);
    assert_eq!(parse_response(b"HTTP/1.1  +200 OK\r\n\r\n").unwrap().status, 200);
}

#[test]
fn head_that_is_not_utf8_is_still_read() {
    let raw = b"HTTP/1.1 200 \xff\r\nX: \xc3\xa9\r\n\r\nbody";
    let resp = parse_response(raw).unwrap();
    assert_eq!(resp.status, 200);
    assert_eq!(resp.header("x"), Some("\u{e9}"));
    let bad = parse_response(b"\xff\r\n\r\n").unwrap_err();
    assert_eq!(http_error(bad), "bad status line: \u{fffd}");
}

#[test]
fn body_may_hold_empty_lines() {
    let raw = b"HTTP/1.1 200 OK\r\n\r\na\r\n\r\nb";
    assert_eq!(parse_response(raw).unwrap().body, b"a\r\n\r\nb");
}

#[test]
fn header_lookup_ignores_case_and_takes_the_first() {
    let resp = parse_parts(
        "HTTP/1.1 200 OK\r\nno colon here\r\n Strict-Transport-Security :  max-age=1 \r\nSTRICT-TRANSPORT-SECURITY: max-age=2\r\nTime: 10:30",
        b"",
    )
    .unwrap();
    assert_eq!(resp.header("strict-transport-security"), Some("max-age=1"));
    assert_eq!(resp.header("time"), Some("10:30"));
    assert_eq!(resp.header("absent"), None);
    assert_eq!(resp.headers.len(), 3);
}

#[test]
fn chunked_may_stand_in_a_list() {
    let head = "HTTP/1.1 200 OK\r\ntransfer-encoding: gzip , Chunked";
    let resp = parse_parts(head, b"3;name=value\r\nabc\r\n0\r\nTrailer: x\r\n\r\n").unwrap();
    assert_eq!(resp.body, b"abc");
    let plain = parse_parts("HTTP/1.1 200 OK\r\nTransfer-Encoding: gzip", b"3\r\nabc").unwrap();
    assert_eq!(plain.body, b"3\r\nabc");
}

#[test]
fn chunk_errors() {
    let cases: [(&[u8], &str); 6] = [
        (b"4\nWiki", "malformed chunk header"),
        (b"\xff\r\n", "non-utf8 chunk size"),
        (b"xyz\r\n", "bad chunk size: xyz"),
        (b"\r\n", "bad chunk size: "),
        (b"5\r\nab", "truncated chunk body"),
        (b"1ffffffffffffffff\r\n", "bad chunk size: 1ffffffffffffffff"),
    ];
    for (data, message) in cases {
        assert_eq!(http_error(decode_chunked(data).unwrap_err()), message);
    }
}

#[test]
fn chunks_without_a_final_line_end_are_read() {
    // the line end after a chunk's data is skipped unheeded
    assert_eq!(decode_chunked(b"2\r\nabXX0\r\n").unwrap(), b"ab");
    assert_eq!(decode_chunked(b" A \r\n0123456789\r\n0\r\n").unwrap(), b"0123456789");
}

#[test]
fn request_with_and_without_body() {
    let get = request("GET", "example.com", "/", &[], None);
    assert_eq!(
        get,
        b"GET / HTTP/1.1\r\nHost: example.com\r\nUser-Agent: russl/0.1\r\nConnection: close\r\n\r\n"
    );
    let post = request("POST", "h", "/p", &[("A", "b"), ("C", "d")], Some(b"xyz"));
    assert_eq!(
        post,
        b"POST /p HTTP/1.1\r\nHost: h\r\nUser-Agent: russl/0.1\r\nConnection: close\r\nA: b\r\nC: d\r\nContent-Length: 3\r\n\r\nxyz"
    );
}

#[test]
fn subsequence_is_the_first() {
    assert_eq!(find_subsequence(b"abcabc", b"bc"), Some(1));
    assert_eq!(find_subsequence(b"abc", b"abcd"), None);
    assert_eq!(find_subsequence(b"", b"a"), None);
    assert_eq!(find_subsequence(b"aab", b"ab"), Some(1));
}

#[test]
fn request_head_ends_at_its_only_empty_line() {
    let body = b"\r\n\r\nbody\r\n\r\n";
    let raw = request("POST", "h", "/", &[("A", "b")], Some(body));
    let end = find_subsequence(&raw, b"\r\n\r\n").unwrap();
    assert_eq!(&raw[end + 4..], body);
    let bare = request("GET", "h", "/", &[], None);
    assert_eq!(find_subsequence(&bare, b"\r\n\r\n"), Some(bare.len() - 4));
}

#[test]
fn chunks_read_back() {
    let chunks: [&[u8]; 3] = [b"a", b"\r\n0\r\n\r\n", &[0xff; 300]];
    let mut sent = Vec::new();
    for chunk in chunks {
        sent.extend_from_slice(format!("{:x}\r\n", chunk.len()).as_bytes());
        sent.extend_from_slice(chunk);
        sent.extend_from_slice(b"\r\n");
    }
    sent.extend_from_slice(b"0\r\nTrailer: x\r\n\r\n");
    assert_eq!(decode_chunked(&sent).unwrap(), chunks.concat());
}

#[test]
fn fields_read_back() {
    let fields = [("A", "b: c"), ("Empty", ""), ("X-Y", "1 2")];
    let mut head = "HTTP/1.1 204 No Content".to_string();
    for (k, v) in fields {
        head.push_str(&format!("\r\n{k}: {v}"));
    }
    let resp = parse_parts(&head, b"").unwrap();
    assert_eq!(resp.status, 204);
    let read: Vec<(&str, &str)> =
        resp.headers.iter().map(|(k, v)| (k.as_str(), v.as_str())).collect();
    assert_eq!(read, fields);
}

#[test]
fn chunk_sizes_in_either_case_and_with_extensions() {
    let mut sent = b"A;name=\"v;w\"\r\n0123456789\r\n00c\r\nabcdefghijkl\r\n".to_vec();
    sent.extend_from_slice("1F;\u{e9}\r\n".as_bytes());
    sent.extend_from_slice(&[7; 31]);
    sent.extend_from_slice(b"\r\n000;last\r\n\r\n");
    let wanted = [b"0123456789abcdefghijkl".to_vec(), vec![7; 31]].concat();
    assert_eq!(decode_chunked(&sent).unwrap(), wanted);
}
