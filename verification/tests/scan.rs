use russl::error::ScanError;
use russl::output::pretty::{cipher_rows, layout, protocol_rows, vuln_rows};
use russl::scanner::ciphers::CipherResult;
use russl::scanner::handshake::ProtocolResult;
use russl::scanner::vulns::VulnResult;
use russl::scanner::{time_limit, with_timeout, ScanOpts, Target};
use russl::text;

#[test]
fn address_of_a_target() {
    let t = Target { host: "example.com".to_string(), port: 8443 };
    assert_eq!(t.addr(), "example.com:8443");
    let t = Target { host: String::new(), port: 0 };
    assert_eq!(t.addr(), ":0");
}

#[test]
fn all_implies_every_check() {
    let o = ScanOpts::from_flags(false, false, false, false, false, true, 3);
    assert!(o.enumerate_ciphers && o.check_vulns && o.check_ocsp && o.check_ct);
    assert!(o.check_connection);
    assert_eq!(o.timeout_secs, 3);
    let o = ScanOpts::from_flags(false, true, false, true, false, false, 0);
    assert!(!o.enumerate_ciphers && o.check_vulns && !o.check_ocsp && o.check_ct);
    assert!(!o.check_connection);
}

#[test]
fn timeouts() {
    assert_eq!(time_limit(0), None);
    assert_eq!(time_limit(5), Some(5));
    assert!(matches!(with_timeout::<()>(None), Err(ScanError::Timeout)));
    assert_eq!(with_timeout(Some(Ok(42))).unwrap(), 42);
    assert!(matches!(
        with_timeout::<()>(Some(Err(ScanError::Tls("x".to_string())))),
        Err(ScanError::Tls(_))
    ));
}

#[test]
fn error_messages() {
    let x = || "x".to_string();
    assert_eq!(ScanError::Connection(x()).message(), "Connection failed: x");
    assert_eq!(ScanError::Tls(x()).message(), "TLS error: x");
    assert_eq!(ScanError::CertParse(x()).message(), "Certificate parse error: x");
    assert_eq!(ScanError::Timeout.message(), "Timeout");
    assert_eq!(ScanError::Http(x()).message(), "HTTP error: x");
    assert_eq!(ScanError::InvalidName(x()).message(), "Invalid server name: x");
    assert_eq!(ScanError::Json(x()).message(), "JSON error: x");
}

#[test]
fn table_rows() {
    let protocols = vec![ProtocolResult {
        version: "TLS 1.2".to_string(),
        supported: false,
        negotiated_cipher: None,
        negotiated_group: None,
    }];
    assert_eq!(protocol_rows(&protocols), [["TLS 1.2", "❌ No", "—", "—"]]);
    let suites = vec![CipherResult {
        suite: "S".to_string(),
        accepted: false,
        strength: "Weak".to_string(),
    }];
    assert_eq!(cipher_rows(&suites), [["S", "❌", "Weak"]]);
    let checks = vec![VulnResult {
        name: "N".to_string(),
        vulnerable: false,
        description: "D".to_string(),
        severity: "High".to_string(),
    }];
    assert_eq!(vuln_rows(&checks), [["N", "🟢 No", "High", "D"]]);
}

#[test]
fn report_layout() {
    let line = "═══════════════════════════════════════════";
    let text = layout("h", 443, "C", "P", None, Some("V".to_string()));
    assert_eq!(
        text,
        format!(
            "{line}\n  TLS Inspection Report: h:443\n{line}\n\n📜 Certificate\nC\n\n🔒 Protocol Support\nP\n\n⚠️  Vulnerability Checks\nV\n\n"
        )
    );
    let text = layout("h", 1, "C", "P", Some("S".to_string()), None);
    assert!(text.ends_with("P\n\n🔐 Cipher Suites\nS\n\n"));
}

fn chars(s: &str) -> Vec<char> {
    s.chars().collect()
}

fn texts(parts: Vec<&[char]>) -> Vec<String> {
    parts.iter().map(|p| p.iter().collect()).collect()
}

#[test]
fn white_space_is_that_of_unicode() {
    for code in 0..=0x10ffffu32 {
        if let Some(c) = char::from_u32(code) {
            assert_eq!(text::is_white(c), c.is_whitespace(), "{code:x}");
        }
    }
}

#[test]
fn trimming_and_splitting() {
    for s in ["", " ", "  a b\t", "\u{a0}x\u{3000}", "a;b", ";", ";;a; ", "no", "a\r\n\r\nb\r\n"] {
        let c = chars(s);
        let trimmed: String = text::trim(&c).iter().collect();
        assert_eq!(trimmed, s.trim());
        assert_eq!(texts(text::split(&c, &[';'])), s.split(';').collect::<Vec<_>>());
        assert_eq!(texts(text::split(&c, &['\r', '\n'])), s.split("\r\n").collect::<Vec<_>>());
        assert_eq!(texts(text::split_words(&c)), s.split_whitespace().collect::<Vec<_>>());
        let once = text::split_once(&c, ';').map(|(a, b)| texts(vec![a, b]));
        assert_eq!(once, s.split_once(';').map(|(a, b)| vec![a.to_string(), b.to_string()]));
        let last = text::rsplit_once(&c, ';').map(|(a, b)| texts(vec![a, b]));
        assert_eq!(last, s.rsplit_once(';').map(|(a, b)| vec![a.to_string(), b.to_string()]));
        let stripped: String = text::strip(&c, ';').iter().collect();
        assert_eq!(stripped, s.trim_matches(';'));
    }
}

#[test]
fn numbers_are_read_as_the_standard_library_reads_them() {
    for s in ["", "+", "-1", "0", "00", "+7", "++7", " 7", "65535", "65536", "1f", "FF", "zz", "٣"] {
        let c = chars(s);
        assert_eq!(text::parse_number(&c, 10, 0xffff), s.parse::<u16>().ok().map(u64::from), "{s}");
        assert_eq!(text::parse_number(&c, 10, u64::MAX), s.parse::<u64>().ok(), "{s}");
        assert_eq!(text::parse_number(&c, 16, u64::MAX), u64::from_str_radix(s, 16).ok(), "{s}");
    }
    let max = u64::MAX.to_string();
    assert_eq!(text::parse_number(&chars(&max), 10, u64::MAX), Some(u64::MAX));
    assert_eq!(text::parse_number(&chars("18446744073709551616"), 10, u64::MAX), None);
}

#[test]
fn numbers_read_back() {
    for n in [0u64, 1, 9, 10, 15, 16, 255, 4096, u64::MAX] {
        assert_eq!(text::decimal_text(n), n.to_string());
        assert_eq!(text::spell(n, 16), format!("{n:x}"));
        for base in [2u64, 10, 16, 36] {
            let shown = chars(&text::spell(n, base));
            assert_eq!(text::parse_number(&shown, base, u64::MAX), Some(n));
        }
    }
    for n in [i64::MIN, -1, 0, 1, i64::MAX] {
        assert_eq!(text::signed_text(n), n.to_string());
    }
}

#[test]
fn searching_and_joining() {
    assert!(text::contains("TLS_ECDHE", "DHE") && !text::contains("TLS", "TLS_"));
    assert!(text::contains("", "") && text::contains("a", ""));
    assert!(text::starts_with("TLS 1.3 x", "TLS 1.3") && !text::starts_with("TLS", "TLS 1"));
    assert!(text::is_alike(&chars("mAx-Age"), &chars("MAX-aGE")));
    assert!(!text::is_alike(&chars("\u{e9}"), &chars("\u{c9}")));
    let parts = vec!["a".to_string(), "b".to_string(), "c".to_string()];
    assert_eq!(text::join(&parts, ", "), "a, b, c");
    assert_eq!(text::join(&vec![], ", "), "");
}

#[test]
fn split_undoes_join() {
    let parts = vec!["a".to_string(), String::new(), "bc".to_string(), " ".to_string()];
    let joined = chars(&text::join(&parts, ";"));
    assert_eq!(texts(text::split(&joined, &[';'])), parts);
}
