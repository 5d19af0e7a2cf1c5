use russl::error::ScanError;
use russl::scanner::der::{self, children, octet_string, read_tlv, sequence, tlv};
use russl::scanner::http::{HttpResponse, Scheme};
use russl::scanner::ocsp::{answer, check, encode_request, parse_status, parse_url, CertStatus};

/// Build a minimal but structurally valid OCSPResponse carrying the given
/// `certStatus` tag, exercising the full response walker.
fn synth_response(cert_status: Vec<u8>) -> Vec<u8> {
    let cert_id = sequence(
        &[
            der::ALGID_SHA1.to_vec(),
            octet_string(&[0xaa; 20]),
            octet_string(&[0xbb; 20]),
            der::integer(&[0x01]),
        ]
        .concat(),
    );
    let this_update = tlv(0x18, b"20240101000000Z");
    let single_response = sequence(&[cert_id, cert_status, this_update].concat());
    let responses = sequence(&single_response);

    let responder_id = tlv(0xA2, &octet_string(&[0xcc; 20])); // byKey [2]
    let produced_at = tlv(0x18, b"20240101000000Z");
    let response_data = sequence(&[responder_id, produced_at, responses].concat());

    let sig_alg = der::ALGID_SHA1.to_vec();
    let signature = tlv(0x03, &[0x00, 0xde, 0xad]); // BIT STRING
    let basic = sequence(&[response_data, sig_alg, signature].concat());

    let oid_basic = tlv(0x06, &[0x2b, 0x06, 0x01, 0x05, 0x05, 0x07, 0x30, 0x01, 0x01]);
    let response_bytes_inner = sequence(&[oid_basic, octet_string(&basic)].concat());
    let response_bytes = tlv(0xA0, &response_bytes_inner);

    let response_status = tlv(0x0a, &[0x00]); // successful
    sequence(&[response_status, response_bytes].concat())
}

#[test]
fn parses_good() {
    let resp = synth_response(vec![0x80, 0x00]);
    assert!(matches!(parse_status(&resp), Ok(CertStatus::Good)));
}

#[test]
fn parses_revoked() {
    // revoked [1] IMPLICIT RevokedInfo { revocationTime GeneralizedTime }
    let revoked = tlv(0xA1, &tlv(0x18, b"20240101000000Z"));
    let resp = synth_response(revoked);
    assert!(matches!(parse_status(&resp), Ok(CertStatus::Revoked)));
}

#[test]
fn parses_unknown() {
    let resp = synth_response(vec![0x82, 0x00]);
    assert!(matches!(parse_status(&resp), Ok(CertStatus::Unknown)));
}

#[test]
fn responder_error_when_status_nonzero() {
    // responseStatus = tryLater (3), no responseBytes
    let resp = sequence(&tlv(0x0a, &[0x03]));
    assert!(matches!(parse_status(&resp), Ok(CertStatus::ResponderError)));
}

#[test]
fn url_parsing() {
    let (_, host, port, path) = parse_url("http://ocsp.example.com/path").unwrap();
    assert_eq!(host, "ocsp.example.com");
    assert_eq!(port, 80);
    assert_eq!(path, "/path");

    let (_, host, port, path) = parse_url("http://r3.o.lencr.org").unwrap();
    assert_eq!(host, "r3.o.lencr.org");
    assert_eq!(port, 80);
    assert_eq!(path, "/");

    let (_, host, port, _) = parse_url("https://ocsp.example.com:8443/x").unwrap();
    assert_eq!(host, "ocsp.example.com");
    assert_eq!(port, 8443);

    assert!(parse_url("ftp://nope").is_err());
}

#[test]
fn url_schemes_and_bad_ports() {
    let (scheme, _, port, _) = parse_url("https://h/").unwrap();
    assert_eq!(scheme, Scheme::Https);
    assert_eq!(port, 443);
    let (scheme, host, port, path) = parse_url("http://h:notaport/a:b").unwrap();
    assert_eq!(scheme, Scheme::Http);
    assert_eq!((host.as_str(), port, path.as_str()), ("h", 80, "/a:b"));
    let (_, host, port, _) = parse_url("http://h:70000").unwrap();
    assert_eq!((host.as_str(), port), ("h", 80));
    let (_, host, port, _) = parse_url("http://a:b:81/").unwrap();
    assert_eq!((host.as_str(), port), ("a:b", 81));
    match parse_url("HTTP://h/") {
        Err(ScanError::Http(s)) => assert_eq!(s, "unsupported OCSP URL: HTTP://h/"),
        _ => panic!("expected an HTTP error"),
    }
}

#[test]
fn malformed_responses_are_errors() {
    let cases: Vec<Vec<u8>> = vec![
        vec![],
        vec![0x30],
        sequence(&[]),
        // successful, but without responseBytes
        sequence(&tlv(0x0a, &[0x00])),
        // responseBytes without an inner sequence
        sequence(&[tlv(0x0a, &[0x00]), tlv(0xa0, &[])].concat()),
        // an inner sequence without a response
        sequence(&[tlv(0x0a, &[0x00]), tlv(0xa0, &sequence(&tlv(0x06, &[1])))].concat()),
    ];
    for case in cases {
        match parse_status(&case) {
            Err(ScanError::Http(s)) => assert_eq!(s, "malformed OCSP response"),
            other => panic!("unexpected: {other:?}"),
        }
    }
    // an empty or differently tagged status is a refusal
    let empty = sequence(&tlv(0x0a, &[]));
    assert_eq!(parse_status(&empty).unwrap(), CertStatus::ResponderError);
    let other = sequence(&tlv(0x02, &[0x00]));
    assert_eq!(parse_status(&other).unwrap(), CertStatus::ResponderError);
}

fn response(status: u16, body: Vec<u8>) -> HttpResponse {
    HttpResponse { status, headers: vec![], body }
}

#[test]
fn answers_are_named() {
    let good = response(200, synth_response(vec![0x80, 0x00]));
    assert_eq!(answer(&good).unwrap(), "Good");
    let revoked = response(200, synth_response(tlv(0xa1, &[])));
    assert_eq!(answer(&revoked).unwrap(), "Revoked");
    let unknown = response(200, synth_response(tlv(0x82, &[])));
    assert_eq!(answer(&unknown).unwrap(), "Unknown");
    let refused = response(200, sequence(&tlv(0x0a, &[0x06])));
    assert_eq!(answer(&refused).unwrap(), "Responder error");
    let missing = response(503, vec![]);
    assert_eq!(answer(&missing).unwrap(), "Responder returned HTTP 503");
    assert!(answer(&response(200, vec![])).is_err());
}

#[test]
fn check_renders_failures() {
    assert_eq!(check(Ok("Good".to_string())), "Good");
    assert_eq!(check(Err(ScanError::Timeout)), "Check failed: Timeout");
    assert_eq!(
        check(Err(ScanError::Http("malformed OCSP response".to_string()))),
        "Check failed: HTTP error: malformed OCSP response"
    );
}

#[test]
fn request_names_its_certificate() {
    let request = encode_request(&[0xaa; 20], &[0xbb; 20], &[0x91, 0x02]);
    let mut inner = request.as_slice();
    for _ in 0..5 {
        let t = read_tlv(inner).unwrap();
        assert_eq!(t.tag, 0x30);
        assert_eq!(t.total_len, inner.len());
        inner = t.content;
    }
    let parts = children(inner);
    assert_eq!(parts.len(), 4);
    assert_eq!(parts[1].content, &[0xaa; 20]);
    assert_eq!(parts[2].content, &[0xbb; 20]);
    assert_eq!(parts[3].content, &[0x00, 0x91, 0x02]);
}

#[test]
fn first_response_counts_whatever_surrounds_it() {
    let single = |tag: u8| sequence(&[sequence(&[]), tlv(tag, &[])].concat());
    let data = sequence(
        &[
            tlv(0xa0, &der::integer(&[0])),
            tlv(0xa1, &[]),
            tlv(0x18, b"20240101000000Z"),
            sequence(&[single(0xa1), single(0x80)].concat()),
            tlv(0xa1, &sequence(&[])),
        ]
        .concat(),
    );
    let basic = sequence(&[data, sequence(&[]), tlv(0x03, &[0]), tlv(0xa0, &[])].concat());
    let bytes = sequence(&[tlv(0x06, &[0x2a]), octet_string(&basic)].concat());
    let response = sequence(&[tlv(0x0a, &[0]), tlv(0xa0, &bytes)].concat());
    assert_eq!(parse_status(&response).unwrap(), CertStatus::Revoked);
}

#[test]
fn urls_come_apart_as_they_were_put_together() {
    for (prefix, scheme, default) in [("http", Scheme::Http, 80), ("https", Scheme::Https, 443)] {
        for port in [0u16, 80, 443, 65535] {
            let url = format!("{prefix}://h.example:{port}/a/b:c?d");
            let (s, host, p, path) = parse_url(&url).unwrap();
            assert_eq!((s, host.as_str(), p, path.as_str()), (scheme, "h.example", port, "/a/b:c?d"));
        }
        let (_, host, p, path) = parse_url(&format!("{prefix}://h.example")).unwrap();
        assert_eq!((host.as_str(), p, path.as_str()), ("h.example", default, "/"));
    }
}

#[test]
fn octets_after_a_response_are_ignored() {
    let mut good = synth_response(vec![0x80, 0x00]);
    good.extend_from_slice(&[0x30, 0xff, 0x00]);
    assert_eq!(parse_status(&good).unwrap(), CertStatus::Good);
    let mut refused = sequence(&tlv(0x0a, &[0x01]));
    refused.push(0x00);
    assert_eq!(parse_status(&refused).unwrap(), CertStatus::ResponderError);
}
