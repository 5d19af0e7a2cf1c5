//! Certificate inspection: names, validity, key strength and validation level.

use crate::error::{ErrorView, ScanError};
use crate::scanner::ocsp;
use crate::scanner::x509::{
    self, AltName, AltNameView, Certificate, CertificateView, Extension, ExtensionView,
};
use crate::text;
use vstd::prelude::*;

verus! {

/// What the report says of the leaf certificate.
#[derive(Debug, Default)]
pub struct CertInfo {
    pub subject: String,
    pub issuer: String,
    pub sans: Vec<String>,
    pub not_before: String,
    pub not_after: String,
    pub days_remaining: i64,
    pub is_expired: bool,
    pub key_algorithm: String,
    /// The size of the public key in bits, where it is known.
    pub key_bits: Option<usize>,
    pub weak_key: bool,
    /// `EV`, `OV`, `IV` or `DV`.
    pub validation_level: String,
    pub signature_algorithm: String,
    pub chain_depth: usize,
    /// `None` when revocation was not checked.
    pub ocsp_status: Option<String>,
    /// `None` when the logs were not asked, or could not be.
    pub ct_log_entries: Option<usize>,
}

/// What a [`CertInfo`] holds.
pub struct CertInfoView {
    pub subject: Seq<char>,
    pub issuer: Seq<char>,
    pub sans: Seq<Seq<char>>,
    pub not_before: Seq<char>,
    pub not_after: Seq<char>,
    pub days_remaining: int,
    pub is_expired: bool,
    pub key_algorithm: Seq<char>,
    pub key_bits: Option<nat>,
    pub weak_key: bool,
    pub validation_level: Seq<char>,
    pub signature_algorithm: Seq<char>,
    pub chain_depth: nat,
    pub ocsp_status: Option<Seq<char>>,
    pub ct_log_entries: Option<nat>,
}

/// What an optional number holds.
pub open spec fn number_view(n: Option<usize>) -> Option<nat> {
    match n {
        Some(v) => Some(v as nat),
        None => None,
    }
}

impl View for CertInfo {
    type V = CertInfoView;

    open spec fn view(&self) -> CertInfoView {
        CertInfoView {
            subject: self.subject@,
            issuer: self.issuer@,
            sans: text::string_views(self.sans@),
            not_before: self.not_before@,
            not_after: self.not_after@,
            days_remaining: self.days_remaining as int,
            is_expired: self.is_expired,
            key_algorithm: self.key_algorithm@,
            key_bits: number_view(self.key_bits),
            weak_key: self.weak_key,
            validation_level: self.validation_level@,
            signature_algorithm: self.signature_algorithm@,
            chain_depth: self.chain_depth as nat,
            ocsp_status: text::option_view(self.ocsp_status),
            ct_log_entries: number_view(self.ct_log_entries),
        }
    }
}

/// The algorithms with a name of their own, by object identifier.
pub open spec fn known_algorithms() -> Seq<(Seq<char>, Seq<char>)> {
    seq![
        ("1.2.840.10045.2.1"@, "EC"@),
        ("1.2.840.113549.1.1.1"@, "RSA"@),
        ("1.3.101.112"@, "Ed25519"@),
        ("1.3.101.110"@, "X25519"@),
        ("1.2.840.10045.4.3.2"@, "ecdsa-with-SHA256"@),
        ("1.2.840.10045.4.3.3"@, "ecdsa-with-SHA384"@),
        ("1.2.840.10045.4.3.4"@, "ecdsa-with-SHA512"@),
        ("1.2.840.113549.1.1.5"@, "sha1WithRSAEncryption"@),
        ("1.2.840.113549.1.1.11"@, "sha256WithRSAEncryption"@),
        ("1.2.840.113549.1.1.12"@, "sha384WithRSAEncryption"@),
        ("1.2.840.113549.1.1.13"@, "sha512WithRSAEncryption"@),
    ]
}

/// The name that the first entry for `oid` gives it, or `oid` itself.
pub open spec fn name_among(table: Seq<(Seq<char>, Seq<char>)>, oid: Seq<char>) -> Seq<char>
    decreases table.len(),
{
    if table.len() == 0 {
        oid
    } else if table[0].0 == oid {
        table[0].1
    } else {
        name_among(table.skip(1), oid)
    }
}

/// The name of an algorithm, or its object identifier where it has none.
pub open spec fn algorithm_name(oid: Seq<char>) -> Seq<char> {
    name_among(known_algorithms(), oid)
}

/// Map well-known OID dotted strings to human-readable algorithm names. Unknown
/// OIDs fall through as-is so nothing is silently lost.
pub fn oid_name(oid: &str) -> (r: &str)
    ensures
        r@ == algorithm_name(oid@),
{
    let table: [(&'static str, &'static str); 11] = [
        // Public key algorithms
        ("1.2.840.10045.2.1", "EC"),
        ("1.2.840.113549.1.1.1", "RSA"),
        ("1.3.101.112", "Ed25519"),
        ("1.3.101.110", "X25519"),
        // Signature algorithms
        ("1.2.840.10045.4.3.2", "ecdsa-with-SHA256"),
        ("1.2.840.10045.4.3.3", "ecdsa-with-SHA384"),
        ("1.2.840.10045.4.3.4", "ecdsa-with-SHA512"),
        ("1.2.840.113549.1.1.5", "sha1WithRSAEncryption"),
        ("1.2.840.113549.1.1.11", "sha256WithRSAEncryption"),
        ("1.2.840.113549.1.1.12", "sha384WithRSAEncryption"),
        ("1.2.840.113549.1.1.13", "sha512WithRSAEncryption"),
    ];
    let ghost known = known_algorithms();
    let mut i: usize = 0;
    proof {
        assert(known.skip(0) =~= known);
        assert(forall|j: int|
            0 <= j < 11 ==> (#[trigger] table@[j]).0@ == known[j].0 && table@[j].1@ == known[j].1);
    }
    while i < 11
        invariant
            0 <= i <= 11,
            table@.len() == 11,
            known == known_algorithms(),
            known.len() == 11,
            forall|j: int|
                0 <= j < 11 ==> (#[trigger] table@[j]).0@ == known[j].0 && table@[j].1@
                    == known[j].1,
            algorithm_name(oid@) == name_among(known.skip(i as int), oid@),
        decreases 11 - i,
    {
        proof {
            assert(known.skip(i as int)[0] == known[i as int]);
            assert(known.skip(i as int).skip(1) =~= known.skip(i + 1));
        }
        let (known_oid, name) = table[i];
        if text::equal(known_oid, oid) {
            return name;
        }
        i += 1;
    }
    proof {
        assert(known.skip(11) =~= seq![]);
    }
    oid
}

/// Whether a key is below what is accepted for its algorithm: RSA and DSA below
/// 2048 bits, EC below 256 bits. A key of another algorithm, or of unknown size,
/// is not called weak.
pub open spec fn weak(algorithm: Seq<char>, bits: Option<nat>) -> bool {
    match bits {
        None => false,
        Some(n) => {
            ||| (algorithm == "1.2.840.113549.1.1.1"@ || algorithm == "1.2.840.10040.4.1"@) && n
                < 2048
            ||| algorithm == "1.2.840.10045.2.1"@ && n < 256
        },
    }
}

/// Whether a key of the given algorithm, as a dotted OID, and size is weak.
pub fn is_weak_key(algorithm: &str, bits: Option<usize>) -> (r: bool)
    ensures
        r == weak(algorithm@, number_view(bits)),
{
    match bits {
        None => false,
        Some(n) => {
            let factoring = text::equal(algorithm, "1.2.840.113549.1.1.1") || text::equal(
                algorithm,
                "1.2.840.10040.4.1",
            );
            let curve = text::equal(algorithm, "1.2.840.10045.2.1");
            (factoring && n < 2048) || (curve && n < 256)
        },
    }
}

/// The validation level that a policy of the CA/Browser Forum stands for.
pub open spec fn policy_level(policy: Seq<char>) -> Option<Seq<char>> {
    if policy == "2.23.140.1.1"@ {
        Some("EV"@)
    } else if policy == "2.23.140.1.2.1"@ {
        Some("DV"@)
    } else if policy == "2.23.140.1.2.2"@ {
        Some("OV"@)
    } else if policy == "2.23.140.1.2.3"@ {
        Some("IV"@)
    } else {
        None
    }
}

/// The level of the first policy that has one.
pub open spec fn level_among(policies: Seq<Seq<char>>) -> Option<Seq<char>>
    decreases policies.len(),
{
    if policies.len() == 0 {
        None
    } else if policy_level(policies[0]) is Some {
        policy_level(policies[0])
    } else {
        level_among(policies.skip(1))
    }
}

/// The level of the first policy that has one in the extensions.
pub open spec fn level_in(extensions: Seq<ExtensionView>) -> Option<Seq<char>>
    decreases extensions.len(),
{
    if extensions.len() == 0 {
        None
    } else {
        let here = match extensions[0] {
            ExtensionView::CertificatePolicies(policies) => level_among(policies),
            _ => None,
        };
        if here is Some {
            here
        } else {
            level_in(extensions.skip(1))
        }
    }
}

/// The validation level of a certificate: that of its policies, else `OV` where
/// the subject names an organization, else `DV`.
pub open spec fn validation_of(cert: CertificateView) -> Seq<char> {
    match level_in(cert.extensions) {
        Some(level) => level,
        None => if cert.subject_attributes.contains("2.5.4.10"@) {
            "OV"@
        } else {
            "DV"@
        },
    }
}

fn level_of_policy(policy: &str) -> (r: Option<&'static str>)
    ensures
        match r {
            Some(level) => policy_level(policy@) == Some(level@),
            None => policy_level(policy@) is None,
        },
{
    if text::equal(policy, "2.23.140.1.1") {
        Some("EV")
    } else if text::equal(policy, "2.23.140.1.2.1") {
        Some("DV")
    } else if text::equal(policy, "2.23.140.1.2.2") {
        Some("OV")
    } else if text::equal(policy, "2.23.140.1.2.3") {
        Some("IV")
    } else {
        None
    }
}

fn level_of_policies(policies: &Vec<String>) -> (r: Option<&'static str>)
    ensures
        match r {
            Some(level) => level_among(text::string_views(policies@)) == Some(level@),
            None => level_among(text::string_views(policies@)) is None,
        },
{
    let ghost views = text::string_views(policies@);
    let mut i: usize = 0;
    proof {
        assert(views.skip(0) =~= views);
    }
    while i < policies.len()
        invariant
            0 <= i <= policies@.len(),
            views == text::string_views(policies@),
            level_among(views) == level_among(views.skip(i as int)),
        decreases policies@.len() - i,
    {
        proof {
            assert(views.skip(i as int)[0] == policies@[i as int]@);
            assert(views.skip(i as int).skip(1) =~= views.skip(i + 1));
        }
        let level = level_of_policy(policies[i].as_str());
        if level.is_some() {
            return level;
        }
        i += 1;
    }
    None
}

fn level_of_extensions(extensions: &Vec<Extension>) -> (r: Option<&'static str>)
    ensures
        match r {
            Some(level) => level_in(x509::extension_views(extensions@)) == Some(level@),
            None => level_in(x509::extension_views(extensions@)) is None,
        },
{
    let ghost views = x509::extension_views(extensions@);
    let mut i: usize = 0;
    proof {
        assert(views.skip(0) =~= views);
    }
    while i < extensions.len()
        invariant
            0 <= i <= extensions@.len(),
            views == x509::extension_views(extensions@),
            level_in(views) == level_in(views.skip(i as int)),
        decreases extensions@.len() - i,
    {
        proof {
            assert(views.skip(i as int)[0] == extensions@[i as int]@);
            assert(views.skip(i as int).skip(1) =~= views.skip(i + 1));
        }
        match &extensions[i] {
            Extension::CertificatePolicies(policies) => {
                let level = level_of_policies(policies);
                if level.is_some() {
                    return level;
                }
            },
            _ => {},
        }
        i += 1;
    }
    None
}

fn holds_text(all: &Vec<String>, wanted: &str) -> (r: bool)
    ensures
        r == text::string_views(all@).contains(wanted@),
{
    let ghost views = text::string_views(all@);
    let mut i: usize = 0;
    while i < all.len()
        invariant
            0 <= i <= all@.len(),
            views == text::string_views(all@),
            forall|j: int| 0 <= j < i ==> #[trigger] views[j] != wanted@,
        decreases all@.len() - i,
    {
        proof {
            assert(views[i as int] == all@[i as int]@);
        }
        if text::equal(all[i].as_str(), wanted) {
            return true;
        }
        i += 1;
    }
    false
}

/// The validation level of a certificate, from the policies that it asserts.
pub fn classify_validation(cert: &Certificate) -> (r: String)
    ensures
        r@ == validation_of(cert@),
{
    match level_of_extensions(&cert.extensions) {
        Some(level) => level.to_string(),
        None => if holds_text(&cert.subject_attributes, "2.5.4.10") {
            "OV".to_string()
        } else {
            "DV".to_string()
        },
    }
}

/// Octets as a list of decimal numbers in brackets.
pub open spec fn octets_text(octets: Seq<u8>) -> Seq<char> {
    "["@ + text::joined(Seq::new(octets.len(), |i: int| text::decimal(octets[i] as nat)), ", "@)
        + "]"@
}

fn show_octets(octets: &Vec<u8>) -> (r: String)
    ensures
        r@ == octets_text(octets@),
{
    let mut parts: Vec<String> = Vec::new();
    let mut i: usize = 0;
    while i < octets.len()
        invariant
            0 <= i <= octets@.len(),
            parts@.len() == i,
            forall|j: int|
                0 <= j < i ==> (#[trigger] parts@[j])@ == text::decimal(octets@[j] as nat),
        decreases octets@.len() - i,
    {
        parts.push(text::decimal_text(octets[i] as u64));
        i += 1;
    }
    proof {
        assert(text::string_views(parts@) =~= Seq::new(
            octets@.len(),
            |i: int| text::decimal(octets@[i] as nat),
        ));
    }
    let mut out = "[".to_string();
    let inner = text::join(&parts, ", ");
    out.append(inner.as_str());
    out.append("]");
    out
}

/// The alternative names that are reported: host names as they are, addresses as
/// lists of octets; other kinds are left out.
pub open spec fn san_texts(names: Seq<AltNameView>) -> Seq<Seq<char>>
    decreases names.len(),
{
    if names.len() == 0 {
        seq![]
    } else {
        let before = san_texts(names.drop_last());
        match names.last() {
            AltNameView::Dns(s) => before.push(s),
            AltNameView::Ip(b) => before.push(octets_text(b)),
            AltNameView::Other => before,
        }
    }
}

/// The alternative names to report.
pub fn sans(names: &Vec<AltName>) -> (r: Vec<String>)
    ensures
        text::string_views(r@) == san_texts(x509::alt_name_views(names@)),
{
    let ghost views = x509::alt_name_views(names@);
    let mut out: Vec<String> = Vec::new();
    let mut i: usize = 0;
    proof {
        assert(views.take(0) =~= Seq::<AltNameView>::empty());
        assert(text::string_views(out@) =~= san_texts(views.take(0)));
    }
    while i < names.len()
        invariant
            0 <= i <= names@.len(),
            views == x509::alt_name_views(names@),
            text::string_views(out@) == san_texts(views.take(i as int)),
        decreases names@.len() - i,
    {
        let ghost before = text::string_views(out@);
        proof {
            let t = views.take(i + 1);
            assert(t.drop_last() =~= views.take(i as int));
            assert(t.last() == names@[i as int]@);
        }
        match &names[i] {
            AltName::Dns(s) => {
                out.push(s.clone());
                proof {
                    assert(text::string_views(out@) =~= before.push(s@));
                }
            },
            AltName::Ip(b) => {
                out.push(show_octets(b));
                proof {
                    assert(text::string_views(out@) =~= before.push(octets_text(b@)));
                }
            },
            AltName::Other => {},
        }
        i += 1;
    }
    proof {
        assert(views.take(views.len() as int) =~= views);
    }
    out
}

/// Whole days between two instants in seconds, rounded toward zero.
pub open spec fn whole_days(from: int, to: int) -> int {
    if to >= from {
        (to - from) / 86400
    } else {
        -((from - to) / 86400)
    }
}

/// Whole days from `now` until `expires`, both in seconds since 1970; negative
/// from one full day past expiry on.
pub fn days_until(now: i64, expires: i64) -> (r: i64)
    ensures
        r == whole_days(now as int, expires as int),
{
    if expires >= now {
        let left: i128 = expires as i128 - now as i128;
        (left / 86400) as i64
    } else {
        let past: i128 = now as i128 - expires as i128;
        let days: i64 = (past / 86400) as i64;
        -days
    }
}

/// What the report says of a leaf in a chain of `depth` certificates at `now`,
/// before any advisory check.
pub open spec fn info_of(leaf: CertificateView, depth: nat, now: int) -> CertInfoView {
    let days = whole_days(now, leaf.summary.expires);
    let bits = if leaf.key_size == 0 {
        None
    } else {
        Some(leaf.key_size)
    };
    CertInfoView {
        subject: leaf.summary.subject,
        issuer: leaf.summary.issuer,
        sans: san_texts(leaf.alt_names),
        not_before: leaf.summary.not_before,
        not_after: leaf.summary.not_after,
        days_remaining: days,
        is_expired: leaf.summary.expires < now,
        key_algorithm: algorithm_name(leaf.summary.key_algorithm),
        key_bits: bits,
        weak_key: weak(leaf.summary.key_algorithm, bits),
        validation_level: validation_of(leaf),
        signature_algorithm: algorithm_name(leaf.summary.signature_algorithm),
        chain_depth: depth,
        ocsp_status: None,
        ct_log_entries: None,
    }
}

/// Describe the leaf of a chain of `depth` certificates at `now`.
pub fn describe(leaf: &Certificate, depth: usize, now: i64) -> (r: CertInfo)
    ensures
        r@ == info_of(leaf@, depth as nat, now as int),
        r.subject@ == leaf.summary.subject@,
        r.issuer@ == leaf.summary.issuer@,
        r.not_before@ == leaf.summary.not_before@,
        r.not_after@ == leaf.summary.not_after@,
        r.is_expired == (leaf.summary.expires < now),
        r.key_algorithm@ == algorithm_name(leaf.summary.key_algorithm@),
        r.signature_algorithm@ == algorithm_name(leaf.summary.signature_algorithm@),
        r.key_bits == (if leaf.key_size == 0 {
            None
        } else {
            Some(leaf.key_size)
        }),
        r.chain_depth == depth,
        r.ocsp_status is None,
        r.ct_log_entries is None,
{
    let days_remaining = days_until(now, leaf.summary.expires);
    let key_bits: Option<usize> = if leaf.key_size == 0 {
        None
    } else {
        Some(leaf.key_size)
    };
    CertInfo {
        subject: leaf.summary.subject.clone(),
        issuer: leaf.summary.issuer.clone(),
        sans: sans(&leaf.alt_names),
        not_before: leaf.summary.not_before.clone(),
        not_after: leaf.summary.not_after.clone(),
        days_remaining,
        is_expired: leaf.summary.expires < now,
        key_algorithm: oid_name(leaf.summary.key_algorithm.as_str()).to_string(),
        key_bits,
        weak_key: is_weak_key(leaf.summary.key_algorithm.as_str(), key_bits),
        validation_level: classify_validation(leaf),
        signature_algorithm: oid_name(leaf.summary.signature_algorithm.as_str()).to_string(),
        chain_depth: depth,
        ocsp_status: None,
        ct_log_entries: None,
    }
}

/// What inspecting a chain gives.
pub open spec fn info_view(r: Result<CertInfo, ScanError>) -> Result<CertInfoView, ErrorView> {
    match r {
        Ok(info) => Ok(info@),
        Err(e) => Err(e@),
    }
}

/// What the report says of a chain of encoded certificates, leaf first.
pub open spec fn inspected(chain: Seq<Seq<u8>>, now: int) -> Result<CertInfoView, ErrorView> {
    if chain.len() == 0 {
        Err(ErrorView::CertParse("No certificate received"@))
    } else {
        match x509::certificate_of(chain[0]) {
            Err(e) => Err(e),
            Ok(leaf) => Ok(info_of(leaf, chain.len(), now)),
        }
    }
}

/// Inspect a chain of encoded certificates, leaf first, at `now`, in seconds since
/// 1970.
pub fn inspect(certs: &[Vec<u8>], now: i64) -> (r: Result<CertInfo, ScanError>)
    ensures
        info_view(r) == inspected(ocsp::chain_view(certs@), now as int),
        r is Ok ==> r->Ok_0.chain_depth == certs@.len() > 0,
{
    if certs.len() == 0 {
        return Err(ScanError::CertParse("No certificate received".to_string()));
    }
    match Certificate::from_der(certs[0].as_slice()) {
        Ok(leaf) => Ok(describe(&leaf, certs.len(), now)),
        Err(e) => Err(e),
    }
}

impl CertInfo {
    /// Add the outcome of the revocation check. A failed check is rendered as
    /// such.
    pub fn with_revocation(self, outcome: Result<String, ScanError>) -> (r: CertInfo)
        ensures
            r@ == (CertInfoView {
                ocsp_status: Some(ocsp::rendered(ocsp::outcome_view(outcome))),
                ..self@
            }),
            r == (CertInfo { ocsp_status: r.ocsp_status, ..self }),
    {
        let mut info = self;
        info.ocsp_status = Some(ocsp::check(outcome));
        info
    }

    /// Add the outcome of the log lookup. A failed lookup leaves no count.
    pub fn with_entries(self, outcome: Result<usize, ScanError>) -> (r: CertInfo)
        ensures
            r@ == (CertInfoView {
                ct_log_entries: match outcome {
                    Ok(n) => Some(n as nat),
                    Err(_) => None,
                },
                ..self@
            }),
            r == (CertInfo {
                ct_log_entries: match outcome {
                    Ok(n) => Some(n),
                    Err(_) => None,
                },
                ..self
            }),
    {
        let mut info = self;
        info.ct_log_entries = match outcome {
            Ok(n) => Some(n),
            Err(_) => None,
        };
        info
    }
}

/// A certificate is expired exactly once the end of its validity window lies in
/// the past.
pub proof fn law_expired_past_the_window(leaf: CertificateView, depth: nat, now: int)
    ensures
        info_of(leaf, depth, now).is_expired <==> leaf.summary.expires < now,
{
}

/// While full days remain a certificate is not expired, and once the count is
/// negative it is.
pub proof fn law_days_agree_with_expiry(leaf: CertificateView, depth: nat, now: int)
    ensures
        info_of(leaf, depth, now).days_remaining > 0 ==> !info_of(leaf, depth, now).is_expired,
        info_of(leaf, depth, now).days_remaining < 0 ==> info_of(leaf, depth, now).is_expired,
{
}

/// Until expiry, the days remaining are the whole days that are left.
pub proof fn law_days_are_whole(now: int, expires: int)
    requires
        now <= expires,
    ensures
        ({
            let days = whole_days(now, expires);
            days * 86400 <= expires - now < (days + 1) * 86400
        }),
{
}

/// As time passes, the days remaining never grow.
pub proof fn law_days_never_grow(earlier: int, later: int, expires: int)
    requires
        earlier <= later,
    ensures
        whole_days(later, expires) <= whole_days(earlier, expires),
{
}

/// An algorithm without a name of its own is shown by its object identifier.
pub proof fn law_unknown_algorithms_are_kept(oid: Seq<char>)
    requires
        forall|i: int|
            0 <= i < known_algorithms().len() ==> (#[trigger] known_algorithms()[i]).0 != oid,
    ensures
        algorithm_name(oid) == oid,
{
    lemma_not_among(known_algorithms(), oid);
}

proof fn lemma_not_among(table: Seq<(Seq<char>, Seq<char>)>, oid: Seq<char>)
    requires
        forall|i: int| 0 <= i < table.len() ==> (#[trigger] table[i]).0 != oid,
    ensures
        name_among(table, oid) == oid,
    decreases table.len(),
{
    if table.len() > 0 {
        assert forall|i: int| 0 <= i < table.len() - 1 implies (#[trigger] table.skip(1)[i]).0
            != oid by {
            assert(table.skip(1)[i] == table[i + 1]);
        }
        assert(table[0].0 != oid);
        lemma_not_among(table.skip(1), oid);
    }
}

/// A key that is weak stays weak at any smaller size.
pub proof fn law_smaller_keys_are_no_stronger(algorithm: Seq<char>, bits: nat, fewer: nat)
    requires
        weak(algorithm, Some(bits)),
        fewer <= bits,
    ensures
        weak(algorithm, Some(fewer)),
{
}

/// The floors of the algorithms: RSA and DSA keys are weak exactly below 2048
/// bits, EC keys exactly below 256 bits, Ed25519 and X25519 keys never.
pub proof fn law_key_floors(bits: nat)
    ensures
        weak("1.2.840.113549.1.1.1"@, Some(bits)) <==> bits < 2048,
        weak("1.2.840.10040.4.1"@, Some(bits)) <==> bits < 2048,
        weak("1.2.840.10045.2.1"@, Some(bits)) <==> bits < 256,
        !weak("1.3.101.112"@, Some(bits)),
        !weak("1.3.101.110"@, Some(bits)),
{
    reveal_strlit("1.2.840.113549.1.1.1");
    reveal_strlit("1.2.840.10040.4.1");
    reveal_strlit("1.2.840.10045.2.1");
    reveal_strlit("1.3.101.112");
    reveal_strlit("1.3.101.110");
    assert("1.2.840.113549.1.1.1"@.len() == 20);
    assert("1.2.840.10040.4.1"@.len() == 17);
    assert("1.2.840.10045.2.1"@.len() == 17);
    assert("1.3.101.112"@.len() == 11);
    assert("1.3.101.110"@.len() == 11);
    assert("1.2.840.10040.4.1"@[12] == '0');
    assert("1.2.840.10045.2.1"@[12] == '5');
}

/// A certificate that asserts a standardized policy has the level of the first
/// such policy, whatever its subject.
pub proof fn law_policies_come_before_the_subject(
    before: Seq<ExtensionView>,
    policies: Seq<Seq<char>>,
    after: Seq<ExtensionView>,
    cert: CertificateView,
)
    requires
        cert.extensions == before + seq![ExtensionView::CertificatePolicies(policies)] + after,
        level_in(before) is None,
        policies.len() > 0,
        policy_level(policies[0]) is Some,
    ensures
        policy_level(policies[0]) == Some(validation_of(cert)),
{
    lemma_level_skips(before, seq![ExtensionView::CertificatePolicies(policies)] + after);
    assert(cert.extensions =~= before + (seq![ExtensionView::CertificatePolicies(policies)]
        + after));
}

proof fn lemma_level_skips(before: Seq<ExtensionView>, rest: Seq<ExtensionView>)
    requires
        level_in(before) is None,
    ensures
        level_in(before + rest) == level_in(rest),
    decreases before.len(),
{
    if before.len() == 0 {
        assert(before + rest =~= rest);
    } else {
        let all = before + rest;
        assert(all[0] == before[0]);
        assert(all.skip(1) =~= before.skip(1) + rest);
        lemma_level_skips(before.skip(1), rest);
    }
}

/// The report gives the names, the validity window and the algorithms of the leaf,
/// each under its own name: the start of the window as its start and the end as its
/// end. The key's size is left out where it is not known, and no advisory check has
/// been made.
pub proof fn law_report_is_of_the_leaf(leaf: CertificateView, depth: nat, now: int)
    ensures
        ({
            let info = info_of(leaf, depth, now);
            &&& info.subject == leaf.summary.subject
            &&& info.issuer == leaf.summary.issuer
            &&& info.not_before == leaf.summary.not_before
            &&& info.not_after == leaf.summary.not_after
            &&& info.key_algorithm == algorithm_name(leaf.summary.key_algorithm)
            &&& info.signature_algorithm == algorithm_name(leaf.summary.signature_algorithm)
            &&& info.key_bits == (if leaf.key_size > 0 {
                Some(leaf.key_size)
            } else {
                None
            })
            &&& info.weak_key == weak(leaf.summary.key_algorithm, info.key_bits)
            &&& info.sans == san_texts(leaf.alt_names)
            &&& info.validation_level == validation_of(leaf)
            &&& info.chain_depth == depth
            &&& info.days_remaining == whole_days(now, leaf.summary.expires)
            &&& info.ocsp_status is None
            &&& info.ct_log_entries is None
        }),
{
}

/// Time changes nothing in the report but the days remaining and the expired flag,
/// and the rest of the chain nothing but its depth.
pub proof fn law_report_changes_with_time_alone(
    leaf: CertificateView,
    depth: nat,
    other_depth: nat,
    now: int,
    later: int,
)
    ensures
        info_of(leaf, other_depth, later) == (CertInfoView {
            days_remaining: info_of(leaf, other_depth, later).days_remaining,
            is_expired: info_of(leaf, other_depth, later).is_expired,
            chain_depth: other_depth,
            ..info_of(leaf, depth, now)
        }),
        info_of(leaf, other_depth, now).days_remaining == info_of(leaf, depth, now).days_remaining,
        info_of(leaf, other_depth, now).is_expired == info_of(leaf, depth, now).is_expired,
{
}

/// The first certificate of a chain is the one reported on, and all of them count
/// for its depth. No other certificate needs to be readable.
pub proof fn law_first_certificate_is_reported(first: Seq<u8>, others: Seq<Seq<u8>>, now: int)
    ensures
        ({
            let chain = seq![first] + others;
            match x509::certificate_of(first) {
                Ok(leaf) => inspected(chain, now) == Ok::<CertInfoView, ErrorView>(
                    info_of(leaf, others.len() + 1, now),
                ),
                Err(e) => inspected(chain, now) == Err::<CertInfoView, ErrorView>(e),
            }
        }),
        inspected(seq![], now) == Err::<CertInfoView, ErrorView>(
            ErrorView::CertParse("No certificate received"@),
        ),
{
    let chain = seq![first] + others;
    assert(chain[0] == first);
}

/// Days past expiry count like days until expiry, with a minus sign.
pub proof fn law_days_past_count_as_negative(now: int, expires: int)
    ensures
        whole_days(now, expires) == -whole_days(expires, now),
{
}

/// The days are those of the difference alone, and 86400 seconds make one.
pub proof fn law_a_day_is_86400_seconds(now: int, expires: int, days: int)
    requires
        now <= expires,
        days >= 0,
    ensures
        whole_days(now, expires + days * 86400) == whole_days(now, expires) + days,
        whole_days(now + days, expires + days) == whole_days(now, expires),
        whole_days(now, now) == 0,
{
    assert((expires + days * 86400 - now) / 86400 == (expires - now) / 86400 + days)
        by (nonlinear_arith)
        requires
            now <= expires,
            days >= 0,
    ;
}

/// Only RSA, DSA and EC keys of known size are ever weak.
pub proof fn law_only_floors_make_keys_weak(algorithm: Seq<char>, bits: Option<nat>)
    requires
        weak(algorithm, bits),
    ensures
        bits is Some,
        bits->0 < 2048,
        algorithm == "1.2.840.113549.1.1.1"@ || algorithm == "1.2.840.10040.4.1"@ || algorithm
            == "1.2.840.10045.2.1"@,
{
}

/// Every entry of the table gives its name, since no object identifier is in it
/// twice.
pub proof fn law_known_algorithms_have_their_names()
    ensures
        algorithm_name("1.2.840.10045.2.1"@) == "EC"@,
        algorithm_name("1.2.840.113549.1.1.1"@) == "RSA"@,
        algorithm_name("1.3.101.112"@) == "Ed25519"@,
        algorithm_name("1.3.101.110"@) == "X25519"@,
        algorithm_name("1.2.840.10045.4.3.2"@) == "ecdsa-with-SHA256"@,
        algorithm_name("1.2.840.10045.4.3.3"@) == "ecdsa-with-SHA384"@,
        algorithm_name("1.2.840.10045.4.3.4"@) == "ecdsa-with-SHA512"@,
        algorithm_name("1.2.840.113549.1.1.5"@) == "sha1WithRSAEncryption"@,
        algorithm_name("1.2.840.113549.1.1.11"@) == "sha256WithRSAEncryption"@,
        algorithm_name("1.2.840.113549.1.1.12"@) == "sha384WithRSAEncryption"@,
        algorithm_name("1.2.840.113549.1.1.13"@) == "sha512WithRSAEncryption"@,
        known_algorithms().len() == 11,
{
    let t = known_algorithms();
    reveal_strlit("1.2.840.10045.2.1");
    reveal_strlit("1.2.840.113549.1.1.1");
    reveal_strlit("1.3.101.112");
    reveal_strlit("1.3.101.110");
    reveal_strlit("1.2.840.10045.4.3.2");
    reveal_strlit("1.2.840.10045.4.3.3");
    reveal_strlit("1.2.840.10045.4.3.4");
    reveal_strlit("1.2.840.113549.1.1.5");
    reveal_strlit("1.2.840.113549.1.1.11");
    reveal_strlit("1.2.840.113549.1.1.12");
    reveal_strlit("1.2.840.113549.1.1.13");
    assert(t[0].0.len() == 17);
    assert(t[1].0.len() == 20);
    assert(t[2].0.len() == 11);
    assert(t[3].0.len() == 11);
    assert(t[4].0.len() == 19);
    assert(t[5].0.len() == 19);
    assert(t[6].0.len() == 19);
    assert(t[7].0.len() == 20);
    assert(t[8].0.len() == 21);
    assert(t[9].0.len() == 21);
    assert(t[10].0.len() == 21);
    assert(t[2].0[10] == '2' && t[3].0[10] == '0');
    assert(t[4].0[18] == '2' && t[5].0[18] == '3' && t[6].0[18] == '4');
    assert(t[1].0[19] == '1' && t[7].0[19] == '5');
    assert(t[8].0[20] == '1' && t[9].0[20] == '2' && t[10].0[20] == '3');
    lemma_name_at(t, 0);
    lemma_name_at(t, 1);
    lemma_name_at(t, 2);
    lemma_name_at(t, 3);
    lemma_name_at(t, 4);
    lemma_name_at(t, 5);
    lemma_name_at(t, 6);
    lemma_name_at(t, 7);
    lemma_name_at(t, 8);
    lemma_name_at(t, 9);
    lemma_name_at(t, 10);
}

proof fn lemma_name_at(table: Seq<(Seq<char>, Seq<char>)>, n: int)
    requires
        0 <= n < table.len(),
        forall|i: int| 0 <= i < n ==> (#[trigger] table[i]).0 != table[n].0,
    ensures
        name_among(table, table[n].0) == table[n].1,
    decreases n,
{
    if n > 0 {
        let rest = table.skip(1);
        assert(table[0].0 != table[n].0);
        assert(rest[n - 1] == table[n]);
        assert forall|i: int| 0 <= i < n - 1 implies (#[trigger] rest[i]).0 != rest[n - 1].0 by {
            assert(rest[i] == table[i + 1]);
        }
        lemma_name_at(rest, n - 1);
    }
}

/// The standardized policies stand for the four levels, and no other policy stands
/// for one.
pub proof fn law_policy_levels(policy: Seq<char>)
    ensures
        policy_level("2.23.140.1.1"@) == Some("EV"@),
        policy_level("2.23.140.1.2.1"@) == Some("DV"@),
        policy_level("2.23.140.1.2.2"@) == Some("OV"@),
        policy_level("2.23.140.1.2.3"@) == Some("IV"@),
        policy_level(policy) is Some <==> policy == "2.23.140.1.1"@ || policy
            == "2.23.140.1.2.1"@ || policy == "2.23.140.1.2.2"@ || policy == "2.23.140.1.2.3"@,
{
    reveal_strlit("2.23.140.1.1");
    reveal_strlit("2.23.140.1.2.1");
    reveal_strlit("2.23.140.1.2.2");
    reveal_strlit("2.23.140.1.2.3");
    assert("2.23.140.1.1"@.len() == 12);
    assert("2.23.140.1.2.1"@.len() == 14 && "2.23.140.1.2.1"@[13] == '1');
    assert("2.23.140.1.2.2"@.len() == 14 && "2.23.140.1.2.2"@[13] == '2');
    assert("2.23.140.1.2.3"@.len() == 14 && "2.23.140.1.2.3"@[13] == '3');
}

/// The first standardized policy decides, wherever it stands: after extensions and
/// policies that are not standardized, and before any that follow. The subject plays
/// no part then.
pub proof fn law_first_standardized_policy_decides(
    before: Seq<ExtensionView>,
    passed: Seq<Seq<char>>,
    policy: Seq<char>,
    others: Seq<Seq<char>>,
    after: Seq<ExtensionView>,
    cert: CertificateView,
)
    requires
        cert.extensions == before + seq![
            ExtensionView::CertificatePolicies(passed + seq![policy] + others),
        ] + after,
        forall|i: int, j: int|
            #![trigger before[i]->CertificatePolicies_0[j]]
            0 <= i < before.len() && before[i] is CertificatePolicies && 0 <= j
                < before[i]->CertificatePolicies_0.len() ==> policy_level(
                before[i]->CertificatePolicies_0[j],
            ) is None,
        forall|i: int| 0 <= i < passed.len() ==> policy_level(#[trigger] passed[i]) is None,
        policy_level(policy) is Some,
    ensures
        policy_level(policy) == Some(validation_of(cert)),
{
    let policies = passed + seq![policy] + others;
    let rest = seq![ExtensionView::CertificatePolicies(policies)] + after;
    lemma_no_level(before);
    lemma_level_skips(before, rest);
    assert(cert.extensions =~= before + rest);
    assert(rest[0] == ExtensionView::CertificatePolicies(policies));
    lemma_level_among(passed, policy, others);
}

proof fn lemma_level_among(passed: Seq<Seq<char>>, policy: Seq<char>, others: Seq<Seq<char>>)
    requires
        forall|i: int| 0 <= i < passed.len() ==> policy_level(#[trigger] passed[i]) is None,
        policy_level(policy) is Some,
    ensures
        level_among(passed + seq![policy] + others) == policy_level(policy),
    decreases passed.len(),
{
    let all = passed + seq![policy] + others;
    if passed.len() == 0 {
        assert(all[0] == policy);
    } else {
        let fewer = passed.skip(1);
        assert(all[0] == passed[0]);
        assert(policy_level(passed[0]) is None);
        assert(all.skip(1) =~= fewer + seq![policy] + others);
        assert forall|i: int| 0 <= i < fewer.len() implies policy_level(#[trigger] fewer[i]) is None by {
            assert(fewer[i] == passed[i + 1]);
        }
        lemma_level_among(fewer, policy, others);
    }
}

proof fn lemma_none_among(policies: Seq<Seq<char>>)
    requires
        forall|i: int| 0 <= i < policies.len() ==> policy_level(#[trigger] policies[i]) is None,
    ensures
        level_among(policies) is None,
    decreases policies.len(),
{
    if policies.len() > 0 {
        let fewer = policies.skip(1);
        assert(policy_level(policies[0]) is None);
        assert forall|i: int| 0 <= i < fewer.len() implies policy_level(#[trigger] fewer[i]) is None by {
            assert(fewer[i] == policies[i + 1]);
        }
        lemma_none_among(fewer);
    }
}

proof fn lemma_no_level(extensions: Seq<ExtensionView>)
    requires
        forall|i: int, j: int|
            #![trigger extensions[i]->CertificatePolicies_0[j]]
            0 <= i < extensions.len() && extensions[i] is CertificatePolicies && 0 <= j
                < extensions[i]->CertificatePolicies_0.len() ==> policy_level(
                extensions[i]->CertificatePolicies_0[j],
            ) is None,
    ensures
        level_in(extensions) is None,
    decreases extensions.len(),
{
    if extensions.len() > 0 {
        let fewer = extensions.skip(1);
        match extensions[0] {
            ExtensionView::CertificatePolicies(policies) => {
                assert forall|j: int| 0 <= j < policies.len() implies policy_level(
                    #[trigger] policies[j],
                ) is None by {
                    assert(extensions[0]->CertificatePolicies_0[j] == policies[j]);
                }
                lemma_none_among(policies);
            },
            _ => {},
        }
        assert forall|i: int, j: int|
            #![trigger fewer[i]->CertificatePolicies_0[j]]
            0 <= i < fewer.len() && fewer[i] is CertificatePolicies && 0 <= j
                < fewer[i]->CertificatePolicies_0.len() implies policy_level(
            fewer[i]->CertificatePolicies_0[j],
        ) is None by {
            assert(fewer[i] == extensions[i + 1]);
            assert(extensions[i + 1]->CertificatePolicies_0[j]
                == fewer[i]->CertificatePolicies_0[j]);
        }
        lemma_no_level(fewer);
    }
}

/// Without a standardized policy, the level is `OV` exactly where some attribute of
/// the subject is an organization, and `DV` everywhere else.
pub proof fn law_subject_decides_without_policies(cert: CertificateView)
    requires
        forall|i: int, j: int|
            #![trigger cert.extensions[i]->CertificatePolicies_0[j]]
            0 <= i < cert.extensions.len() && cert.extensions[i] is CertificatePolicies && 0 <= j
                < cert.extensions[i]->CertificatePolicies_0.len() ==> policy_level(
                cert.extensions[i]->CertificatePolicies_0[j],
            ) is None,
    ensures
        validation_of(cert) == (if exists|i: int|
            0 <= i < cert.subject_attributes.len() && #[trigger] cert.subject_attributes[i]
                == "2.5.4.10"@ {
            "OV"@
        } else {
            "DV"@
        }),
{
    lemma_no_level(cert.extensions);
    let all = cert.subject_attributes;
    if all.contains("2.5.4.10"@) {
        let i = choose|i: int| 0 <= i < all.len() && all[i] == "2.5.4.10"@;
        assert(all[i] == "2.5.4.10"@);
    }
}

/// Alternative names are reported one by one, in order: a host name as it is, an
/// address as its octets, and any other kind not at all.
pub proof fn law_one_more_alternative_name(
    names: Seq<AltNameView>,
    host: Seq<char>,
    octets: Seq<u8>,
)
    ensures
        san_texts(seq![]) == Seq::<Seq<char>>::empty(),
        san_texts(names.push(AltNameView::Dns(host))) == san_texts(names).push(host),
        san_texts(names.push(AltNameView::Ip(octets))) == san_texts(names).push(
            octets_text(octets),
        ),
        san_texts(names.push(AltNameView::Other)) == san_texts(names),
{
    assert(names.push(AltNameView::Dns(host)).drop_last() =~= names);
    assert(names.push(AltNameView::Ip(octets)).drop_last() =~= names);
    assert(names.push(AltNameView::Other).drop_last() =~= names);
}

/// Octets are shown in decimal digits, in brackets, with a comma and a space between
/// each and the next.
pub proof fn law_octets_are_listed(octets: Seq<u8>, last: u8)
    ensures
        octets_text(seq![]) == "["@ + "]"@,
        octets_text(seq![last]) == "["@ + text::decimal(last as nat) + "]"@,
        octets.len() > 0 ==> octets_text(octets.push(last)) == octets_text(octets).drop_last()
            + ", "@ + text::decimal(last as nat) + "]"@,
{
    reveal_strlit("[");
    reveal_strlit("]");
    let empty = Seq::new(0, |i: int| text::decimal(Seq::<u8>::empty()[i] as nat));
    assert(text::joined(empty, ", "@) =~= seq![]);
    assert(octets_text(seq![]) =~= "["@ + "]"@);
    let one = Seq::new(1, |i: int| text::decimal(seq![last][i] as nat));
    assert(one[0] == text::decimal(last as nat));
    assert(text::joined(one, ", "@) == one[0]);
    if octets.len() > 0 {
        let more = octets.push(last);
        let parts = Seq::new(octets.len(), |i: int| text::decimal(octets[i] as nat));
        let longer = Seq::new(more.len(), |i: int| text::decimal(more[i] as nat));
        assert(longer =~= parts.push(text::decimal(last as nat)));
        text::law_joining(parts, text::decimal(last as nat), ", "@);
        assert(octets_text(octets).drop_last() =~= "["@ + text::joined(parts, ", "@));
        assert(octets_text(more) =~= octets_text(octets).drop_last() + ", "@ + text::decimal(
            last as nat,
        ) + "]"@);
    }
}

/// The description of a leaf repeats the leaf's own texts: subject, issuer, and the
/// start and the end of the validity window, none in another's place.
pub proof fn law_description_repeats_the_leaf(
    leaf: Certificate,
    depth: usize,
    now: i64,
    r: CertInfo,
)
    requires
        call_ensures(describe, (&leaf, depth, now), r),
    ensures
        r.subject@ == leaf.summary.subject@,
        r.issuer@ == leaf.summary.issuer@,
        r.not_before@ == leaf.summary.not_before@,
        r.not_after@ == leaf.summary.not_after@,
        r.key_algorithm@ == algorithm_name(leaf.summary.key_algorithm@),
        r.signature_algorithm@ == algorithm_name(leaf.summary.signature_algorithm@),
        r.is_expired <==> now > leaf.summary.expires,
        r.chain_depth == depth,
{
}

} // verus!
