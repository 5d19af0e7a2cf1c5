use russl::error::ScanError;
use russl::scanner::connection::{
    classify_sni, describe_sni, forward_secrecy, inspect, is_forward_secret, parse_hsts, probe_hsts,
    probe_no_sni, probe_primary, root_request, sni_outcome, NoSni,
};
use russl::scanner::handshake::ProtocolResult;
use russl::scanner::http::{self, HttpResponse};
use russl::scanner::ip::is_ip_literal;
use russl::scanner::Target;

fn proto(version: &str, supported: bool, cipher: Option<&str>) -> ProtocolResult {
    ProtocolResult {
        version: version.to_string(),
        supported,
        negotiated_cipher: cipher.map(str::to_string),
        negotiated_group: None,
    }
}

#[test]
fn tls13_is_always_forward_secret() {
    assert!(is_forward_secret("TLS 1.3", None));
    assert!(is_forward_secret("TLS 1.3", Some("TLS13_AES_256_GCM_SHA384")));
}

#[test]
fn tls12_forward_secrecy_keys_off_suite_name() {
    assert!(is_forward_secret(
        "TLS 1.2",
        Some("TLS_ECDHE_RSA_WITH_AES_128_GCM_SHA256")
    ));
    assert!(is_forward_secret(
        "TLS 1.2",
        Some("TLS_DHE_RSA_WITH_AES_128_GCM_SHA256")
    ));
    assert!(!is_forward_secret(
        "TLS 1.2",
        Some("TLS_RSA_WITH_AES_128_GCM_SHA256")
    ));
    assert!(!is_forward_secret("TLS 1.2", None));
}

#[test]
fn forward_secrecy_ignores_unsupported_protocols() {
    let protocols = [
        proto("TLS 1.2", false, None),
        proto("TLS 1.3", true, Some("TLS13_AES_256_GCM_SHA384")),
    ];
    let fs = forward_secrecy(&protocols);
    assert!(fs.all_forward_secret);
    assert_eq!(fs.protocols.len(), 1);
    assert_eq!(fs.protocols[0].version, "TLS 1.3");
}

#[test]
fn forward_secrecy_flags_non_fs_suite() {
    let protocols = [proto("TLS 1.2", true, Some("TLS_RSA_WITH_AES_128_GCM_SHA256"))];
    assert!(!forward_secrecy(&protocols).all_forward_secret);
}

#[test]
fn forward_secrecy_empty_is_not_vacuously_true() {
    assert!(!forward_secrecy(&[]).all_forward_secret);
    assert!(!forward_secrecy(&[proto("TLS 1.2", false, None)]).all_forward_secret);
}

#[test]
fn hsts_absent_header() {
    let h = parse_hsts(None);
    assert!(!h.present);
    assert_eq!(h.max_age, None);
    assert!(!h.include_subdomains);
    assert!(!h.preload);
}

#[test]
fn hsts_full_directive_set() {
    let h = parse_hsts(Some("max-age=31536000; includeSubDomains; preload"));
    assert!(h.present);
    assert_eq!(h.max_age, Some(31_536_000));
    assert!(h.include_subdomains);
    assert!(h.preload);
}

#[test]
fn hsts_max_age_only_case_insensitive() {
    let h = parse_hsts(Some("Max-Age=600"));
    assert_eq!(h.max_age, Some(600));
    assert!(!h.include_subdomains);
    assert!(!h.preload);
}

#[test]
fn hsts_quoted_and_spaced_max_age() {
    let h = parse_hsts(Some("max-age=\"7776000\" ; IncludeSubDomains"));
    assert_eq!(h.max_age, Some(7_776_000));
    assert!(h.include_subdomains);
}

#[test]
fn hsts_malformed_max_age_is_none_but_present() {
    let h = parse_hsts(Some("max-age=oops; preload"));
    assert!(h.present);
    assert_eq!(h.max_age, None);
    assert!(h.preload);
}

#[test]
fn sni_ip_target_is_not_applicable() {
    let b = classify_sni("192.0.2.1", None, &NoSni::Rejected);
    assert_eq!(b.outcome, "not-applicable");
}

#[test]
fn sni_rejected_without_sni() {
    let b = classify_sni("example.com", Some(b"leaf-der"), &NoSni::Rejected);
    assert_eq!(b.outcome, "rejected-without-sni");
}

#[test]
fn sni_unavailable_when_unresolved() {
    let b = classify_sni("example.com", Some(b"leaf-der"), &NoSni::Unavailable);
    assert_eq!(b.outcome, "unknown");
}

#[test]
fn sni_same_and_different_certificate() {
    let leaf = b"identical-der".to_vec();
    let same = classify_sni("example.com", Some(&leaf), &NoSni::Leaf(leaf.clone()));
    assert_eq!(same.outcome, "same-certificate");

    let diff = classify_sni("example.com", Some(b"sni-der"), &NoSni::Leaf(b"default-der".to_vec()));
    assert_eq!(diff.outcome, "different-certificate");
}

#[test]
fn hsts_last_max_age_counts() {
    let h = parse_hsts(Some("max-age=1; max-age = 2 ;; preload=1"));
    assert_eq!(h.max_age, Some(2));
    assert!(!h.preload);
    assert_eq!(parse_hsts(Some("max-age=1; max-age=x")).max_age, None);
    assert_eq!(parse_hsts(Some("max-age=18446744073709551615")).max_age, Some(u64::MAX));
    assert_eq!(parse_hsts(Some("max-age=18446744073709551616")).max_age, None);
    let empty = parse_hsts(Some(""));
    assert!(empty.present);
    assert_eq!(empty.header.as_deref(), Some(""));
}

#[test]
fn hsts_policies_read_back() {
    for age in [0u64, 1, 31_536_000, u64::MAX] {
        for (sub, pre) in [(false, false), (false, true), (true, false), (true, true)] {
            let mut header = format!("max-age={age}");
            if sub {
                header.push_str("; includeSubDomains");
            }
            if pre {
                header.push_str("; preload");
            }
            let h = parse_hsts(Some(&header));
            assert_eq!((h.max_age, h.include_subdomains, h.preload), (Some(age), sub, pre));
            assert_eq!(h.header, Some(header));
        }
    }
}

#[test]
fn ip_literals() {
    let literals = [
        "0.0.0.0",
        "255.255.255.255",
        "::",
        "::1",
        "1::",
        "2001:db8::1",
        "1:2:3:4:5:6:7:8",
        "1:2:3:4:5:6:7::",
        "::2:3:4:5:6:7:8",
        "::ffff:192.0.2.1",
        "1:2:3:4:5:6:192.0.2.1",
        "FE80::AbCd",
        "1:2:3:4:5::192.0.2.1",
    ];
    let others = [
        "",
        "example.com",
        "1.2.3",
        "1.2.3.4.5",
        "256.0.0.1",
        "01.2.3.4",
        "1.2.3.04",
        "1.2.3.+4",
        "1..3.4",
        "1.2.3.4 ",
        ":",
        ":::",
        "1:2:3:4:5:6:7",
        "1:2:3:4:5:6:7:8:9",
        "1:2:3:4:5:6:7:8::",
        "1::2::3",
        "12345::",
        "g::",
        "192.0.2.1::",
        "1:2:3:4:5:6:7:192.0.2.1",
        "1:2:3:4:5:6::192.0.2.1",
        "::1:",
        ":1",
        "fe80::1%eth0",
        "[::1]",
    ];
    for s in literals {
        assert!(is_ip_literal(s), "{s}");
    }
    for s in others {
        assert!(!is_ip_literal(s), "{s}");
    }
}

#[test]
fn sni_outcome_without_a_first_certificate() {
    let leaf = NoSni::Leaf(b"x".to_vec());
    assert_eq!(sni_outcome("example.com", None, &leaf), "different-certificate");
    assert_eq!(sni_outcome("::1", Some(b"x"), &leaf), "not-applicable");
}

#[test]
fn sni_subjects_are_kept_where_compared() {
    let leaf = NoSni::Leaf(b"x".to_vec());
    let a = Some("CN=a".to_string());
    let b = Some("CN=b".to_string());
    let named = describe_sni("example.com", Some(b"x"), a.clone(), &leaf, b.clone());
    assert_eq!(named.with_sni_subject, a);
    assert_eq!(named.without_sni_subject, b);
    let address = describe_sni("192.0.2.1", Some(b"x"), a.clone(), &leaf, b.clone());
    assert_eq!(address.with_sni_subject, a);
    assert_eq!(address.without_sni_subject, None);
    let refused = describe_sni("example.com", Some(b"x"), a.clone(), &NoSni::Rejected, b);
    assert_eq!(refused.with_sni_subject, a);
    assert_eq!(refused.without_sni_subject, None);
}

#[test]
fn probes_are_described() {
    let p = probe_primary(vec![vec![1], vec![2]], &[9, 9, 9], false, true);
    assert_eq!(p.leaf, Some(vec![1]));
    assert!(p.ocsp.stapled);
    assert_eq!(p.ocsp.response_len, 3);
    assert!(p.session.tls13_ticket && !p.session.tls12_session && p.session.supported);
    let none = probe_primary(vec![], &[], false, false);
    assert_eq!(none.leaf, None);
    assert!(!none.ocsp.stapled && !none.session.supported);

    assert!(matches!(probe_no_sni(None), NoSni::Unavailable));
    assert!(matches!(probe_no_sni(Some(Err(ScanError::Timeout))), NoSni::Rejected));
    assert!(matches!(probe_no_sni(Some(Ok(vec![]))), NoSni::Rejected));
    assert!(matches!(probe_no_sni(Some(Ok(vec![vec![7], vec![8]]))), NoSni::Leaf(l) if l == [7]));
}

#[test]
fn hsts_probe_reads_the_header() {
    let response = HttpResponse {
        status: 301,
        headers: vec![("Strict-Transport-Security".to_string(), "max-age=5".to_string())],
        body: vec![],
    };
    let h = probe_hsts(&Ok(response)).unwrap();
    assert_eq!(h.max_age, Some(5));
    let bare = HttpResponse { status: 200, headers: vec![], body: vec![] };
    assert!(!probe_hsts(&Ok(bare)).unwrap().present);
    assert!(probe_hsts(&Err(ScanError::Timeout)).is_none());
}

#[test]
fn root_request_is_a_plain_get() {
    assert_eq!(root_request("example.com"), http::request("GET", "example.com", "/", &[], None));
    assert_eq!(
        root_request("h"),
        b"GET / HTTP/1.1\r\nHost: h\r\nUser-Agent: russl/0.1\r\nConnection: close\r\n\r\n"
    );
}

#[test]
fn only_the_first_probe_can_fail() {
    let target = Target { host: "example.com".to_string(), port: 443 };
    let protocols = [proto("TLS 1.3", true, None)];
    let failed = inspect(&target, Err(ScanError::Timeout), &NoSni::Unavailable, None, &protocols);
    assert!(matches!(failed, Err(ScanError::Timeout)));
    let primary = probe_primary(vec![vec![1]], &[], true, false);
    let props = inspect(&target, Ok(primary), &NoSni::Rejected, None, &protocols).unwrap();
    assert!(props.forward_secrecy.all_forward_secret);
    assert!(props.session_resumption.tls12_session);
    assert!(!props.ocsp_stapling.stapled);
    assert_eq!(props.sni.outcome, "rejected-without-sni");
    assert!(props.hsts.is_none());
}

#[test]
fn probed_suites_are_forward_secret() {
    let rows = russl::scanner::ciphers::enumerate(&[Some(true); 6]);
    for (i, row) in rows.iter().enumerate() {
        let version = if i < 3 { "TLS 1.3" } else { "TLS 1.2" };
        assert!(is_forward_secret(version, Some(&row.suite)));
    }
}

#[test]
fn formatted_addresses_are_literals() {
    for octets in [[0u8, 0, 0, 0], [192, 0, 2, 1], [255, 255, 255, 255], [10, 100, 9, 99]] {
        let parts: Vec<String> = octets.iter().map(|o| o.to_string()).collect();
        assert!(is_ip_literal(&parts.join(".")));
    }
    for groups in [[0u16; 8], [0xffff; 8], [0x2001, 0xdb8, 0, 0, 1, 0x10, 0x100, 0x1000]] {
        let parts: Vec<String> = groups.iter().map(|g| format!("{g:x}")).collect();
        assert!(is_ip_literal(&parts.join(":")));
    }
}
