//! Connection-property checks.
//!
//! These describe how the TLS connection itself is configured, beyond the
//! protocol versions that [`crate::scanner::handshake`] reports: forward secrecy,
//! OCSP stapling, session resumption, SNI behaviour and HSTS. The probes hand
//! over what they saw; a failed one yields a descriptive "unknown" or `None`.

use crate::error::ScanError;
use crate::scanner::ciphers;
use crate::scanner::handshake::{self, ProtocolResult, ProtocolView};
use crate::scanner::http::{self, HttpResponse};
use crate::scanner::ip;
use crate::scanner::x509;
use crate::scanner::Target;
use crate::text;
use vstd::prelude::*;
use vstd::utf8;

verus! {

/// How long the read after the handshake may take, in seconds, while it waits for
/// TLS 1.3 `NewSessionTicket` messages.
pub const TICKET_PUMP_SECS: u64 = 3;

/// Everything the connection checks report.
#[derive(Debug)]
pub struct ConnectionProperties {
    pub forward_secrecy: ForwardSecrecy,
    pub ocsp_stapling: OcspStapling,
    pub session_resumption: SessionResumption,
    pub sni: SniBehavior,
    /// `None` when the HSTS probe could not complete (e.g. the target does not
    /// speak HTTPS on this port, or its certificate is untrusted).
    pub hsts: Option<Hsts>,
}

#[derive(Debug)]
pub struct ForwardSecrecy {
    /// True when every supported protocol negotiated a forward-secret suite.
    pub all_forward_secret: bool,
    pub protocols: Vec<FsProtocol>,
}

#[derive(Debug)]
pub struct FsProtocol {
    pub version: String,
    pub cipher: Option<String>,
    pub forward_secret: bool,
}

/// What an [`FsProtocol`] holds.
pub struct FsView {
    pub version: Seq<char>,
    pub cipher: Option<Seq<char>>,
    pub forward_secret: bool,
}

impl View for FsProtocol {
    type V = FsView;

    open spec fn view(&self) -> FsView {
        FsView {
            version: self.version@,
            cipher: text::option_view(self.cipher),
            forward_secret: self.forward_secret,
        }
    }
}

/// What a list of forward secrecy details holds.
pub open spec fn fs_views(v: Seq<FsProtocol>) -> Seq<FsView> {
    Seq::new(v.len(), |i: int| v[i]@)
}

#[derive(Clone, Copy, Debug, PartialEq, Eq, Structural)]
pub struct OcspStapling {
    pub stapled: bool,
    pub response_len: usize,
}

#[derive(Clone, Copy, Debug, PartialEq, Eq, Structural)]
pub struct SessionResumption {
    /// Server issued a TLS 1.3 `NewSessionTicket`.
    pub tls13_ticket: bool,
    /// Server issued a resumable TLS 1.2 session (session id or RFC 5077 ticket).
    pub tls12_session: bool,
    /// True when either resumption mechanism is offered.
    pub supported: bool,
}

#[derive(Debug)]
pub struct SniBehavior {
    /// One of `same-certificate`, `different-certificate`,
    /// `rejected-without-sni`, `not-applicable` (IP target), or `unknown`.
    pub outcome: &'static str,
    pub with_sni_subject: Option<String>,
    pub without_sni_subject: Option<String>,
}

/// What an [`SniBehavior`] holds.
pub struct SniView {
    pub outcome: Seq<char>,
    pub with_sni_subject: Option<Seq<char>>,
    pub without_sni_subject: Option<Seq<char>>,
}

impl View for SniBehavior {
    type V = SniView;

    open spec fn view(&self) -> SniView {
        SniView {
            outcome: self.outcome@,
            with_sni_subject: text::option_view(self.with_sni_subject),
            without_sni_subject: text::option_view(self.without_sni_subject),
        }
    }
}

#[derive(Debug)]
pub struct Hsts {
    pub present: bool,
    pub max_age: Option<u64>,
    pub include_subdomains: bool,
    pub preload: bool,
    /// The raw header value, for transparency.
    pub header: Option<String>,
}

/// What an [`Hsts`] holds.
pub struct HstsView {
    pub present: bool,
    pub max_age: Option<nat>,
    pub include_subdomains: bool,
    pub preload: bool,
    pub header: Option<Seq<char>>,
}

impl View for Hsts {
    type V = HstsView;

    open spec fn view(&self) -> HstsView {
        HstsView {
            present: self.present,
            max_age: match self.max_age {
                Some(n) => Some(n as nat),
                None => None,
            },
            include_subdomains: self.include_subdomains,
            preload: self.preload,
            header: text::option_view(self.header),
        }
    }
}

/// Whether a negotiated suite provides forward secrecy: always with TLS 1.3, else
/// with an ephemeral key exchange in the suite's name.
pub open spec fn secret(version: Seq<char>, cipher: Option<Seq<char>>) -> bool {
    ||| text::begins(version, "TLS 1.3"@)
    ||| match cipher {
        Some(name) => text::holds(name, "ECDHE"@) || text::holds(name, "DHE"@),
        None => false,
    }
}

/// Whether a negotiated suite provides forward secrecy. TLS 1.3 mandates
/// ephemeral (EC)DHE for every suite; TLS 1.2 is forward-secret only with an
/// ephemeral key exchange, identifiable by `ECDHE`/`DHE` in the suite name.
pub fn is_forward_secret(version: &str, cipher: Option<&str>) -> (r: bool)
    ensures
        r == secret(
            version@,
            match cipher {
                Some(name) => Some(name@),
                None => None,
            },
        ),
{
    if text::starts_with(version, "TLS 1.3") {
        return true;
    }
    match cipher {
        Some(name) => text::contains(name, "ECDHE") || text::contains(name, "DHE"),
        None => false,
    }
}

/// The details on the supported protocols, in order.
pub open spec fn fs_rows(protocols: Seq<ProtocolView>) -> Seq<FsView>
    decreases protocols.len(),
{
    if protocols.len() == 0 {
        seq![]
    } else {
        let p = protocols.last();
        let before = fs_rows(protocols.drop_last());
        if p.supported {
            before.push(
                FsView {
                    version: p.version,
                    cipher: p.negotiated_cipher,
                    forward_secret: secret(p.version, p.negotiated_cipher),
                },
            )
        } else {
            before
        }
    }
}

/// Whether all of at least one detail is forward-secret.
pub open spec fn all_secret(rows: Seq<FsView>) -> bool {
    &&& rows.len() > 0
    &&& forall|i: int| 0 <= i < rows.len() ==> (#[trigger] rows[i]).forward_secret
}

/// Report on the forward secrecy of the supported protocols. With none supported
/// there is no evidence, and the answer is no.
pub fn forward_secrecy(protocols: &[ProtocolResult]) -> (r: ForwardSecrecy)
    ensures
        fs_views(r.protocols@) == fs_rows(handshake::protocol_views(protocols@)),
        r.all_forward_secret == all_secret(fs_rows(handshake::protocol_views(protocols@))),
        forall|i: int|
            0 <= i < r.protocols@.len() ==> (#[trigger] r.protocols@[i]).forward_secret == secret(
                r.protocols@[i].version@,
                text::option_view(r.protocols@[i].cipher),
            ),
{
    let ghost views = handshake::protocol_views(protocols@);
    let mut details: Vec<FsProtocol> = Vec::new();
    let mut all = true;
    let mut i: usize = 0;
    proof {
        assert(views.take(0) =~= Seq::<ProtocolView>::empty());
        assert(fs_views(details@) =~= fs_rows(views.take(0)));
    }
    while i < protocols.len()
        invariant
            0 <= i <= protocols@.len(),
            views == handshake::protocol_views(protocols@),
            fs_views(details@) == fs_rows(views.take(i as int)),
            all == (forall|j: int|
                0 <= j < details@.len() ==> (#[trigger] fs_views(details@)[j]).forward_secret),
            forall|j: int|
                0 <= j < details@.len() ==> (#[trigger] details@[j]).forward_secret == secret(
                    details@[j].version@,
                    text::option_view(details@[j].cipher),
                ),
        decreases protocols@.len() - i,
    {
        let ghost before = fs_views(details@);
        proof {
            let t = views.take(i + 1);
            assert(t.drop_last() =~= views.take(i as int));
            assert(t.last() == protocols@[i as int]@);
        }
        if protocols[i].supported {
            let fs = is_forward_secret(
                protocols[i].version.as_str(),
                match &protocols[i].negotiated_cipher {
                    Some(name) => Some(name.as_str()),
                    None => None,
                },
            );
            let row = FsProtocol {
                version: protocols[i].version.clone(),
                cipher: protocols[i].negotiated_cipher.clone(),
                forward_secret: fs,
            };
            let ghost shown = row@;
            details.push(row);
            proof {
                let now = fs_views(details@);
                assert(now =~= before.push(shown));
                assert(now[now.len() - 1].forward_secret == fs);
                if all && fs {
                    assert forall|j: int| 0 <= j < details@.len() implies (
                    #[trigger] fs_views(details@)[j]).forward_secret by {
                        if j < before.len() {
                            assert(before[j] == now[j]);
                        }
                    }
                }
                if !all {
                    let j = choose|j: int|
                        0 <= j < before.len() && !(#[trigger] before[j]).forward_secret;
                    assert(now[j] == before[j]);
                }
            }
            all = all && fs;
        }
        i += 1;
    }
    proof {
        assert(views.take(views.len() as int) =~= views);
    }
    ForwardSecrecy { all_forward_secret: details.len() > 0 && all, protocols: details }
}

/// The directives of a `Strict-Transport-Security` value.
pub open spec fn directives(raw: Seq<char>) -> Seq<Seq<char>> {
    text::pieces(raw, seq![';'])
}

/// Whether a directive is the given flag, in any case.
pub open spec fn is_flag(directive: Seq<char>, flag: Seq<char>) -> bool {
    &&& text::around_first(text::trimmed(directive), '=') is None
    &&& text::alike(text::trimmed(directive), flag)
}

/// Whether some directive is the given flag.
pub open spec fn has_flag(all: Seq<Seq<char>>, flag: Seq<char>) -> bool {
    exists|i: int| 0 <= i < all.len() && is_flag(#[trigger] all[i], flag)
}

/// What a directive gives for `max-age`: nothing where it is another directive,
/// else the number of seconds, where it is one, inside any quotes.
pub open spec fn age_in(directive: Seq<char>) -> Option<Option<nat>> {
    match text::around_first(text::trimmed(directive), '=') {
        Some((k, v)) => if text::alike(text::trimmed(k), "max-age"@) {
            Some(text::number(text::stripped(text::trimmed(v), '"'), 10, u64::MAX as nat))
        } else {
            None
        },
        None => None,
    }
}

/// What the last `max-age` directive gives.
pub open spec fn last_age(all: Seq<Seq<char>>) -> Option<nat>
    decreases all.len(),
{
    if all.len() == 0 {
        None
    } else {
        match age_in(all.last()) {
            Some(age) => age,
            None => last_age(all.drop_last()),
        }
    }
}

/// The policy in a `Strict-Transport-Security` value, or that of its absence.
pub open spec fn policy_in(header: Option<Seq<char>>) -> HstsView {
    match header {
        None => HstsView {
            present: false,
            max_age: None,
            include_subdomains: false,
            preload: false,
            header: None,
        },
        Some(raw) => HstsView {
            present: true,
            max_age: last_age(directives(raw)),
            include_subdomains: has_flag(directives(raw), "includeSubDomains"@),
            preload: has_flag(directives(raw), "preload"@),
            header: Some(raw),
        },
    }
}

/// No text is both flags.
proof fn lemma_flags_differ(s: Seq<char>)
    requires
        text::alike(s, "includeSubDomains"@),
    ensures
        !text::alike(s, "preload"@),
{
    reveal_strlit("includeSubDomains");
    reveal_strlit("preload");
}

/// Parse a `Strict-Transport-Security` header value.
pub fn parse_hsts(header: Option<&str>) -> (r: Hsts)
    ensures
        r@ == policy_in(
            match header {
                Some(raw) => Some(raw@),
                None => None,
            },
        ),
        r.present == (header is Some),
        header is Some ==> r.header is Some && r.header->0@ == header->0@,
        header is Some ==> r.include_subdomains == has_flag(
            directives(header->0@),
            "includeSubDomains"@,
        ),
        header is Some ==> r.preload == has_flag(directives(header->0@), "preload"@),
        header is None ==> r.header is None && r.max_age is None && !r.include_subdomains
            && !r.preload,
{
    let raw = match header {
        Some(raw) => raw,
        None => {
            return Hsts {
                present: false,
                max_age: None,
                include_subdomains: false,
                preload: false,
                header: None,
            };
        },
    };
    let semicolon: [char; 1] = [';'];
    proof {
        assert(semicolon@ =~= seq![';']);
    }
    let chars = text::to_chars(raw);
    let age_name = text::to_chars("max-age");
    let subdomains_name = text::to_chars("includeSubDomains");
    let preload_name = text::to_chars("preload");
    let tokens = text::split(chars.as_slice(), semicolon.as_slice());
    let ghost all = directives(raw@);
    let mut max_age: Option<u64> = None;
    let mut include_subdomains = false;
    let mut preload = false;
    let mut i: usize = 0;
    proof {
        assert(all.take(0) =~= Seq::<Seq<char>>::empty());
    }
    while i < tokens.len()
        invariant
            0 <= i <= tokens@.len(),
            all == text::slice_views(tokens@),
            age_name@ == "max-age"@,
            subdomains_name@ == "includeSubDomains"@,
            preload_name@ == "preload"@,
            match max_age {
                Some(n) => last_age(all.take(i as int)) == Some(n as nat),
                None => last_age(all.take(i as int)) is None,
            },
            include_subdomains == has_flag(all.take(i as int), "includeSubDomains"@),
            preload == has_flag(all.take(i as int), "preload"@),
        decreases tokens@.len() - i,
    {
        let ghost before = all.take(i as int);
        let ghost now = all.take(i + 1);
        let ghost directive = all[i as int];
        proof {
            assert(directive == tokens@[i as int]@);
            assert(now.drop_last() =~= before);
            lemma_flags_grow(before, directive, "includeSubDomains"@);
            lemma_flags_grow(before, directive, "preload"@);
            assert(now =~= before.push(directive));
        }
        let token = text::trim(tokens[i]);
        match text::split_once(token, '=') {
            Some((k, v)) => {
                if text::is_alike(text::trim(k), age_name.as_slice()) {
                    let digits = text::strip(text::trim(v), '"');
                    max_age = text::parse_number(digits, 10, u64::MAX);
                }
            },
            None => {
                if text::is_alike(token, subdomains_name.as_slice()) {
                    proof {
                        lemma_flags_differ(token@);
                    }
                    include_subdomains = true;
                } else if text::is_alike(token, preload_name.as_slice()) {
                    preload = true;
                }
            },
        }
        i += 1;
    }
    proof {
        assert(all.take(all.len() as int) =~= all);
    }
    Hsts { present: true, max_age, include_subdomains, preload, header: Some(raw.to_string()) }
}

/// One more directive adds a flag exactly where it is that flag.
proof fn lemma_flags_grow(all: Seq<Seq<char>>, directive: Seq<char>, flag: Seq<char>)
    ensures
        has_flag(all.push(directive), flag) == (has_flag(all, flag) || is_flag(directive, flag)),
{
    let more = all.push(directive);
    if has_flag(all, flag) {
        let i = choose|i: int| 0 <= i < all.len() && is_flag(#[trigger] all[i], flag);
        assert(more[i] == all[i]);
    }
    if is_flag(directive, flag) {
        assert(is_flag(more[more.len() - 1], flag));
    }
    if has_flag(more, flag) && !is_flag(directive, flag) {
        let i = choose|i: int| 0 <= i < more.len() && is_flag(#[trigger] more[i], flag);
        assert(all[i] == more[i]);
    }
}

/// Outcome of the no-SNI handshake.
#[derive(Debug)]
pub enum NoSni {
    /// Server completed the handshake and presented this leaf certificate.
    Leaf(Vec<u8>),
    /// Server refused the connection when no SNI was sent.
    Rejected,
    /// The host could not be resolved to an address to probe.
    Unavailable,
}

/// How a server treats a client that names no host.
pub open spec fn sni_outcome_of(
    host: Seq<char>,
    with_leaf: Option<Seq<u8>>,
    no_sni: NoSni,
) -> Seq<char> {
    if ip::ip_literal(host) {
        "not-applicable"@
    } else {
        match no_sni {
            NoSni::Unavailable => "unknown"@,
            NoSni::Rejected => "rejected-without-sni"@,
            NoSni::Leaf(leaf) => if with_leaf == Some(leaf@) {
                "same-certificate"@
            } else {
                "different-certificate"@
            },
        }
    }
}

/// The octets of an optional certificate.
pub open spec fn leaf_view(leaf: Option<&[u8]>) -> Option<Seq<u8>> {
    match leaf {
        Some(b) => Some(b@),
        None => None,
    }
}

fn same_octets(a: &[u8], b: &[u8]) -> (r: bool)
    ensures
        r == (a@ == b@),
{
    if a.len() != b.len() {
        return false;
    }
    let mut i: usize = 0;
    while i < a.len()
        invariant
            0 <= i <= a@.len(),
            a@.len() == b@.len(),
            forall|j: int| 0 <= j < i ==> #[trigger] a@[j] == b@[j],
        decreases a@.len() - i,
    {
        if a[i] != b[i] {
            return false;
        }
        i += 1;
    }
    proof {
        assert(a@ =~= b@);
    }
    true
}

/// How a server treats a client that names no host, from the certificates that
/// it presented with and without a name. An address carries no name in either
/// case, so for one the comparison is moot.
pub fn sni_outcome(host: &str, with_leaf: Option<&[u8]>, no_sni: &NoSni) -> (r: &'static str)
    ensures
        r@ == sni_outcome_of(host@, leaf_view(with_leaf), *no_sni),
{
    if ip::is_ip_literal(host) {
        return "not-applicable";
    }
    match no_sni {
        NoSni::Unavailable => "unknown",
        NoSni::Rejected => "rejected-without-sni",
        NoSni::Leaf(leaf) => {
            let same = match with_leaf {
                Some(b) => same_octets(b, leaf.as_slice()),
                None => false,
            };
            if same {
                "same-certificate"
            } else {
                "different-certificate"
            }
        },
    }
}

/// The behaviour towards a client that names no host, with the subjects of the
/// certificates. The second subject is given only where there was a comparison.
pub open spec fn described_sni(
    host: Seq<char>,
    with_leaf: Option<Seq<u8>>,
    with_subject: Option<Seq<char>>,
    no_sni: NoSni,
    without_subject: Option<Seq<char>>,
) -> SniView {
    SniView {
        outcome: sni_outcome_of(host, with_leaf, no_sni),
        with_sni_subject: with_subject,
        without_sni_subject: if no_sni is Leaf && !ip::ip_literal(host) {
            without_subject
        } else {
            None
        },
    }
}

/// Describe the behaviour towards a client that names no host, given the subjects
/// of the certificates that the server presented with and without a name.
pub fn describe_sni(
    host: &str,
    with_leaf: Option<&[u8]>,
    with_subject: Option<String>,
    no_sni: &NoSni,
    without_subject: Option<String>,
) -> (r: SniBehavior)
    ensures
        r@ == described_sni(
            host@,
            leaf_view(with_leaf),
            text::option_view(with_subject),
            *no_sni,
            text::option_view(without_subject),
        ),
        r.outcome@ == sni_outcome_of(host@, leaf_view(with_leaf), *no_sni),
        r.with_sni_subject == with_subject,
        r.without_sni_subject == (if no_sni is Leaf && !ip::ip_literal(host@) {
            without_subject
        } else {
            None
        }),
{
    let outcome = sni_outcome(host, with_leaf, no_sni);
    let compared = matches!(no_sni, NoSni::Leaf(_)) && !ip::is_ip_literal(host);
    SniBehavior {
        outcome,
        with_sni_subject: with_subject,
        without_sni_subject: if compared {
            without_subject
        } else {
            None
        },
    }
}

/// The behaviour towards a client that names no host, with the subjects that the
/// certificates name.
pub open spec fn sni_of(host: Seq<char>, with_leaf: Option<Seq<u8>>, no_sni: NoSni) -> SniView {
    described_sni(
        host,
        with_leaf,
        match with_leaf {
            Some(der) => x509::subject_of(der),
            None => None,
        },
        no_sni,
        match no_sni {
            NoSni::Leaf(der) => x509::subject_of(der@),
            _ => None,
        },
    )
}

/// Compare the certificate served with SNI against the one served without it.
pub fn classify_sni(host: &str, with_leaf: Option<&[u8]>, no_sni: &NoSni) -> (r: SniBehavior)
    ensures
        r@ == sni_of(host@, leaf_view(with_leaf), *no_sni),
{
    let with_sni_subject = match with_leaf {
        Some(der) => x509::leaf_subject(der),
        None => None,
    };
    let without_sni_subject = match no_sni {
        NoSni::Leaf(der) => x509::leaf_subject(der.as_slice()),
        _ => None,
    };
    describe_sni(host, with_leaf, with_sni_subject, no_sni, without_sni_subject)
}

/// Results gathered from a single capturing handshake performed *with* SNI.
#[derive(Debug)]
pub struct Primary {
    /// Leaf certificate DER, used as the SNI baseline.
    pub leaf: Option<Vec<u8>>,
    pub ocsp: OcspStapling,
    pub session: SessionResumption,
}

/// Describe the capturing handshake: the certificates that the server presented,
/// leaf first, the OCSP response that it stapled (empty for none), and whether it
/// handed out a resumable TLS 1.2 session or a TLS 1.3 ticket.
pub fn probe_primary(certs: Vec<Vec<u8>>, ocsp_response: &[u8], tls12: bool, tls13: bool) -> (r:
    Primary)
    ensures
        r.leaf == (if certs@.len() > 0 {
            Some(certs@[0])
        } else {
            None
        }),
        r.ocsp.stapled == (ocsp_response@.len() > 0),
        r.ocsp.response_len == ocsp_response@.len(),
        r.session.tls12_session == tls12,
        r.session.tls13_ticket == tls13,
        r.session.supported == (tls12 || tls13),
{
    Primary {
        leaf: first_certificate(certs),
        ocsp: OcspStapling {
            stapled: ocsp_response.len() > 0,
            response_len: ocsp_response.len(),
        },
        session: SessionResumption {
            tls13_ticket: tls13,
            tls12_session: tls12,
            supported: tls12 || tls13,
        },
    }
}

fn first_certificate(certs: Vec<Vec<u8>>) -> (r: Option<Vec<u8>>)
    ensures
        r == (if certs@.len() > 0 {
            Some(certs@[0])
        } else {
            None
        }),
{
    let mut certs = certs;
    if certs.len() > 0 {
        Some(certs.remove(0))
    } else {
        None
    }
}

/// Describe the handshake without SNI: nothing where the host has no address,
/// else the certificates that the server presented, leaf first, or why the
/// handshake failed.
pub fn probe_no_sni(handshake: Option<Result<Vec<Vec<u8>>, ScanError>>) -> (r: NoSni)
    ensures
        match handshake {
            None => r is Unavailable,
            Some(Err(_)) => r is Rejected,
            Some(Ok(certs)) => if certs@.len() > 0 {
                r == NoSni::Leaf(certs@[0])
            } else {
                r is Rejected
            },
        },
{
    match handshake {
        None => NoSni::Unavailable,
        Some(Err(_)) => NoSni::Rejected,
        Some(Ok(certs)) => match first_certificate(certs) {
            Some(leaf) => NoSni::Leaf(leaf),
            None => NoSni::Rejected,
        },
    }
}

/// Describe the HTTPS response on the target port by its HSTS policy; nothing
/// where there was no response.
pub fn probe_hsts(response: &Result<HttpResponse, ScanError>) -> (r: Option<Hsts>)
    ensures
        match response {
            Ok(resp) => r is Some && r->0@ == policy_in(
                http::field_value(resp@.headers, "strict-transport-security"@),
            ),
            Err(_) => r is None,
        },
{
    match response {
        Ok(resp) => Some(parse_hsts(resp.header("strict-transport-security"))),
        Err(_) => None,
    }
}

/// The request for a host's root document. It serves both to read the HSTS
/// policy and to give TLS 1.3 tickets a chance to arrive.
pub fn root_request(host: &str) -> (r: Vec<u8>)
    ensures
        r@ == utf8::encode_utf8(
            "GET / HTTP/1.1\r\nHost: "@ + host@
                + "\r\nUser-Agent: russl/0.1\r\nConnection: close\r\n\r\n"@,
        ),
{
    let none: [(&str, &str); 0] = [];
    let r = http::request("GET", host, "/", none.as_slice(), None);
    proof {
        reveal_strlit("GET");
        reveal_strlit(" ");
        reveal_strlit("/");
        reveal_strlit(" HTTP/1.1\r\nHost: ");
        reveal_strlit("GET / HTTP/1.1\r\nHost: ");
        reveal_strlit("\r\n");
        reveal_strlit("\r\nUser-Agent: russl/0.1\r\nConnection: close\r\n");
        reveal_strlit("\r\nUser-Agent: russl/0.1\r\nConnection: close\r\n\r\n");
        let head = http::request_head("GET"@, host@, "/"@, http::pair_views(none@), None);
        assert(http::field_lines(http::pair_views(none@)) =~= seq![]);
        assert("GET"@ + " "@ + "/"@ + " HTTP/1.1\r\nHost: "@ =~= "GET / HTTP/1.1\r\nHost: "@);
        assert("\r\nUser-Agent: russl/0.1\r\nConnection: close\r\n"@ + "\r\n"@
            =~= "\r\nUser-Agent: russl/0.1\r\nConnection: close\r\n\r\n"@);
        assert(head =~= "GET / HTTP/1.1\r\nHost: "@ + host@
            + "\r\nUser-Agent: russl/0.1\r\nConnection: close\r\n\r\n"@);
    }
    r
}

/// Put the connection checks together. Only a failed capturing handshake is an
/// error; every other probe degrades on its own.
pub fn inspect(
    target: &Target,
    primary: Result<Primary, ScanError>,
    no_sni: &NoSni,
    hsts: Option<Hsts>,
    protocols: &[ProtocolResult],
) -> (r: Result<ConnectionProperties, ScanError>)
    ensures
        match primary {
            Err(e) => r == Err::<ConnectionProperties, ScanError>(e),
            Ok(p) => {
                let rows = fs_rows(handshake::protocol_views(protocols@));
                &&& r is Ok
                &&& fs_views(r->Ok_0.forward_secrecy.protocols@) == rows
                &&& r->Ok_0.forward_secrecy.all_forward_secret == all_secret(rows)
                &&& r->Ok_0.ocsp_stapling == p.ocsp
                &&& r->Ok_0.session_resumption == p.session
                &&& r->Ok_0.sni@ == sni_of(
                    target.host@,
                    match p.leaf {
                        Some(b) => Some(b@),
                        None => None,
                    },
                    *no_sni,
                )
                &&& r->Ok_0.hsts == hsts
            },
        },
{
    match primary {
        Err(e) => Err(e),
        Ok(p) => {
            let sni = classify_sni(
                target.host.as_str(),
                match &p.leaf {
                    Some(b) => Some(b.as_slice()),
                    None => None,
                },
                no_sni,
            );
            Ok(
                ConnectionProperties {
                    forward_secrecy: forward_secrecy(protocols),
                    ocsp_stapling: p.ocsp,
                    session_resumption: p.session,
                    sni,
                    hsts,
                },
            )
        },
    }
}

/// TLS 1.3 is forward-secret whatever it negotiated.
pub proof fn law_tls13_is_always_forward_secret(cipher: Option<Seq<char>>)
    ensures
        secret("TLS 1.3"@, cipher),
{
    assert("TLS 1.3"@.subrange(0, "TLS 1.3"@.len() as int) =~= "TLS 1.3"@);
}

/// Every probed suite is forward-secret under the version that it belongs to.
pub proof fn law_probed_suites_are_forward_secret(i: int)
    requires
        0 <= i < ciphers::PROBE_SUITES@.len(),
    ensures
        secret(
            if i < 3 {
                "TLS 1.3"@
            } else {
                "TLS 1.2"@
            },
            Some(handshake::suite_name(ciphers::PROBE_SUITES@[i])),
        ),
{
    law_tls13_is_always_forward_secret(Some(handshake::suite_name(ciphers::PROBE_SUITES@[i])));
    let name = handshake::suite_name(ciphers::PROBE_SUITES@[i]);
    reveal_strlit("ECDHE");
    reveal_strlit("TLS_ECDHE_RSA_WITH_AES_256_GCM_SHA384");
    reveal_strlit("TLS_ECDHE_RSA_WITH_AES_128_GCM_SHA256");
    reveal_strlit("TLS_ECDHE_RSA_WITH_CHACHA20_POLY1305_SHA256");
    if i >= 3 {
        assert(name.subrange(4, 9) =~= "ECDHE"@);
        assert(text::occurs_at(name, "ECDHE"@, 4));
    }
}

/// The details are those of the supported protocols, each from one of them.
proof fn lemma_fs_rows(protocols: Seq<ProtocolView>)
    ensures
        forall|i: int|
            0 <= i < protocols.len() && (#[trigger] protocols[i]).supported ==> exists|j: int|
                0 <= j < fs_rows(protocols).len() && (#[trigger] fs_rows(
                    protocols,
                )[j]).forward_secret == secret(
                    protocols[i].version,
                    protocols[i].negotiated_cipher,
                ),
        forall|j: int|
            0 <= j < fs_rows(protocols).len() ==> exists|i: int|
                0 <= i < protocols.len() && (#[trigger] protocols[i]).supported && (
                #[trigger] fs_rows(protocols)[j]).forward_secret == secret(
                    protocols[i].version,
                    protocols[i].negotiated_cipher,
                ),
    decreases protocols.len(),
{
    if protocols.len() > 0 {
        let fewer = protocols.drop_last();
        let rows = fs_rows(protocols);
        let before = fs_rows(fewer);
        lemma_fs_rows(fewer);
        assert forall|i: int|
            0 <= i < protocols.len() && (#[trigger] protocols[i]).supported implies exists|j: int|
            0 <= j < rows.len() && (#[trigger] rows[j]).forward_secret == secret(
                protocols[i].version,
                protocols[i].negotiated_cipher,
            ) by {
            if i < fewer.len() {
                assert(fewer[i] == protocols[i]);
                let j = choose|j: int|
                    0 <= j < before.len() && (#[trigger] before[j]).forward_secret == secret(
                        fewer[i].version,
                        fewer[i].negotiated_cipher,
                    );
                assert(rows[j] == before[j]);
            } else {
                assert(rows[rows.len() - 1].forward_secret == secret(
                    protocols[i].version,
                    protocols[i].negotiated_cipher,
                ));
            }
        }
        assert forall|j: int| 0 <= j < rows.len() implies exists|i: int|
            0 <= i < protocols.len() && (#[trigger] protocols[i]).supported && (
            #[trigger] rows[j]).forward_secret == secret(
                protocols[i].version,
                protocols[i].negotiated_cipher,
            ) by {
            if j < before.len() {
                assert(rows[j] == before[j]);
                let i = choose|i: int|
                    0 <= i < fewer.len() && (#[trigger] fewer[i]).supported
                        && before[j].forward_secret == secret(
                        fewer[i].version,
                        fewer[i].negotiated_cipher,
                    );
                assert(protocols[i] == fewer[i]);
            } else {
                assert(protocols[protocols.len() - 1].supported);
            }
        }
    }
}

/// The server is reported as forward-secret exactly when it supports some
/// protocol and every one that it supports negotiated a forward-secret suite.
/// Unsupported protocols play no part.
pub proof fn law_forward_secrecy_is_of_every_supported_protocol(protocols: Seq<ProtocolView>)
    ensures
        all_secret(fs_rows(protocols)) <==> {
            &&& exists|i: int| 0 <= i < protocols.len() && (#[trigger] protocols[i]).supported
            &&& forall|i: int|
                0 <= i < protocols.len() && (#[trigger] protocols[i]).supported ==> secret(
                    protocols[i].version,
                    protocols[i].negotiated_cipher,
                )
        },
{
    lemma_fs_rows(protocols);
    let rows = fs_rows(protocols);
    if all_secret(rows) {
        assert(rows[0].forward_secret);
    } else if rows.len() > 0 {
        let j = choose|j: int| 0 <= j < rows.len() && !(#[trigger] rows[j]).forward_secret;
        let i = choose|i: int|
            0 <= i < protocols.len() && (#[trigger] protocols[i]).supported
                && rows[j].forward_secret == secret(
                protocols[i].version,
                protocols[i].negotiated_cipher,
            );
        assert(protocols[i].supported);
    }
}

/// A policy as servers send it: the age, then the flags that are set.
pub open spec fn policy_text(age: nat, include_subdomains: bool, preload: bool) -> Seq<char> {
    "max-age="@ + text::decimal(age) + (if include_subdomains {
        "; includeSubDomains"@
    } else {
        seq![]
    }) + (if preload {
        "; preload"@
    } else {
        seq![]
    })
}

proof fn lemma_age_directive(age: nat)
    requires
        age <= u64::MAX,
    ensures
        ({
            let d = "max-age="@ + text::decimal(age);
            &&& !d.contains(';')
            &&& age_in(d) == Some(Some(age))
            &&& text::around_first(text::trimmed(d), '=') is Some
        }),
{
    let digits = text::decimal(age);
    let d = "max-age="@ + digits;
    reveal_strlit("max-age=");
    reveal_strlit("max-age");
    text::lemma_spelled(age, 10);
    text::law_spelled_is_read(age, 10, u64::MAX as nat);
    assert forall|i: int| 0 <= i < digits.len() implies '0' <= #[trigger] digits[i] <= '9' by {
        assert(text::digit_value(digits[i]) < 10);
    }
    assert(digits.last() == digits[digits.len() - 1]);
    assert(d[0] == 'm');
    assert(d.last() == digits.last());
    text::lemma_trimmed_already(d);
    text::lemma_trimmed_already(digits);
    text::lemma_trimmed_already("max-age"@);
    assert forall|i: int| 0 <= i < d.len() implies d[i] != ';' by {
        if i >= 8 {
            assert(d[i] == digits[i - 8]);
        }
    }
    assert(!"max-age"@.contains('='));
    assert(d =~= "max-age"@ + seq!['='] + digits);
    text::lemma_first_char("max-age"@, '=', digits);
    assert(d.take(7) =~= "max-age"@);
    assert(d.skip(8) =~= digits);
    assert(text::stripped_start(digits, '"') == digits);
    assert(text::stripped_end(digits, '"') == digits);
}

proof fn lemma_flag_directives()
    ensures
        !" includeSubDomains"@.contains(';'),
        !" preload"@.contains(';'),
        is_flag(" includeSubDomains"@, "includeSubDomains"@),
        !is_flag(" includeSubDomains"@, "preload"@),
        is_flag(" preload"@, "preload"@),
        !is_flag(" preload"@, "includeSubDomains"@),
        age_in(" includeSubDomains"@) is None,
        age_in(" preload"@) is None,
        "; includeSubDomains"@ == seq![';'] + " includeSubDomains"@,
        "; preload"@ == seq![';'] + " preload"@,
{
    reveal_strlit(" includeSubDomains");
    reveal_strlit(" preload");
    reveal_strlit("includeSubDomains");
    reveal_strlit("preload");
    reveal_strlit("; includeSubDomains");
    reveal_strlit("; preload");
    assert("; includeSubDomains"@ =~= seq![';'] + " includeSubDomains"@);
    assert("; preload"@ =~= seq![';'] + " preload"@);
    assert(" includeSubDomains"@.skip(1) =~= "includeSubDomains"@);
    assert(" preload"@.skip(1) =~= "preload"@);
    assert(text::trimmed(" includeSubDomains"@) == text::trimmed("includeSubDomains"@));
    assert(text::trimmed(" preload"@) == text::trimmed("preload"@));
    text::lemma_trimmed_already("includeSubDomains"@);
    text::lemma_trimmed_already("preload"@);
    text::lemma_no_char("includeSubDomains"@, '=');
    text::lemma_no_char("preload"@, '=');
}

/// A policy is read as it was written: any age that fits, and either flag.
pub proof fn law_policy_reads_back(age: nat, include_subdomains: bool, preload: bool)
    requires
        age <= u64::MAX,
    ensures
        policy_in(Some(policy_text(age, include_subdomains, preload))) == (HstsView {
            present: true,
            max_age: Some(age),
            include_subdomains,
            preload,
            header: Some(policy_text(age, include_subdomains, preload)),
        }),
{
    let first = "max-age="@ + text::decimal(age);
    let sub = " includeSubDomains"@;
    let pre = " preload"@;
    let raw = policy_text(age, include_subdomains, preload);
    let all = directives(raw);
    lemma_age_directive(age);
    lemma_flag_directives();
    text::lemma_no_char(first, ';');
    text::lemma_no_char(sub, ';');
    text::lemma_no_char(pre, ';');
    if include_subdomains && preload {
        assert(raw =~= first + seq![';'] + (sub + seq![';'] + pre));
        text::lemma_split_off(first, ';', sub + seq![';'] + pre);
        text::lemma_split_off(sub, ';', pre);
        assert(all =~= seq![first, sub, pre]);
        assert(all.drop_last() =~= seq![first, sub]);
        assert(all.drop_last().drop_last() =~= seq![first]);
        assert(is_flag(all[1], "includeSubDomains"@));
        assert(is_flag(all[2], "preload"@));
    } else if include_subdomains {
        assert(raw =~= first + seq![';'] + sub);
        text::lemma_split_off(first, ';', sub);
        assert(all =~= seq![first, sub]);
        assert(all.drop_last() =~= seq![first]);
        assert(is_flag(all[1], "includeSubDomains"@));
    } else if preload {
        assert(raw =~= first + seq![';'] + pre);
        text::lemma_split_off(first, ';', pre);
        assert(all =~= seq![first, pre]);
        assert(all.drop_last() =~= seq![first]);
        assert(is_flag(all[1], "preload"@));
    } else {
        assert(raw =~= first);
        assert(all =~= seq![first]);
    }
    reveal_with_fuel(last_age, 4);
}

/// A suite with `DHE` anywhere in its name is forward-secret under any version: the
/// key exchange is ephemeral, with elliptic curves or without.
pub proof fn law_ephemeral_suites_are_forward_secret(
    version: Seq<char>,
    a: Seq<char>,
    b: Seq<char>,
)
    ensures
        secret(version, Some(a + "DHE"@ + b)),
{
    text::lemma_holds(a, "DHE"@, b);
}

/// Under a version that does not begin with TLS 1.3, only such suites are: one
/// without `DHE` in its name is not forward-secret, and neither is none at all.
pub proof fn law_other_suites_are_not_forward_secret(version: Seq<char>, name: Seq<char>)
    requires
        !exists|rest: Seq<char>| version == #[trigger] ("TLS 1.3"@ + rest),
        !exists|a: Seq<char>, b: Seq<char>| name == #[trigger] (a + "DHE"@ + b),
    ensures
        !secret(version, Some(name)),
        !secret(version, None),
{
    text::law_begins(version, "TLS 1.3"@);
    text::law_holds(name, "DHE"@);
    if text::holds(name, "ECDHE"@) {
        text::law_holds(name, "ECDHE"@);
        let (a, b) = choose|a: Seq<char>, b: Seq<char>| name == #[trigger] (a + "ECDHE"@ + b);
        reveal_strlit("ECDHE");
        reveal_strlit("DHE");
        reveal_strlit("EC");
        assert("ECDHE"@ =~= "EC"@ + "DHE"@);
        assert(name =~= (a + "EC"@) + "DHE"@ + b);
    }
}

/// A version that begins with TLS 1.3 is forward-secret whatever follows and
/// whatever was negotiated.
pub proof fn law_tls13_versions_are_forward_secret(rest: Seq<char>, cipher: Option<Seq<char>>)
    ensures
        secret("TLS 1.3"@ + rest, cipher),
{
    text::law_begins("TLS 1.3"@ + rest, "TLS 1.3"@);
}

/// Every suite with an elliptic-curve key exchange that the TLS stack names is
/// forward-secret, with RSA and with ECDSA certificates alike.
pub proof fn law_named_ecdhe_suites_are_forward_secret(version: Seq<char>, code: u16)
    requires
        code == 0xc009 || code == 0xc00a || code == 0xc013 || code == 0xc014 || code == 0xc023
            || code == 0xc024 || code == 0xc027 || code == 0xc028 || code == 0xc02b || code
            == 0xc02c || code == 0xc02f || code == 0xc030 || code == 0xcca8 || code == 0xcca9,
    ensures
        secret(version, Some(handshake::suite_name(code))),
{
    let name = handshake::suite_name(code);
    reveal_strlit("DHE");
    reveal_strlit("TLS_ECDHE_ECDSA_WITH_AES_128_CBC_SHA");
    reveal_strlit("TLS_ECDHE_ECDSA_WITH_AES_256_CBC_SHA");
    reveal_strlit("TLS_ECDHE_RSA_WITH_AES_128_CBC_SHA");
    reveal_strlit("TLS_ECDHE_RSA_WITH_AES_256_CBC_SHA");
    reveal_strlit("TLS_ECDHE_ECDSA_WITH_AES_128_CBC_SHA256");
    reveal_strlit("TLS_ECDHE_ECDSA_WITH_AES_256_CBC_SHA384");
    reveal_strlit("TLS_ECDHE_RSA_WITH_AES_128_CBC_SHA256");
    reveal_strlit("TLS_ECDHE_RSA_WITH_AES_256_CBC_SHA384");
    reveal_strlit("TLS_ECDHE_ECDSA_WITH_AES_128_GCM_SHA256");
    reveal_strlit("TLS_ECDHE_ECDSA_WITH_AES_256_GCM_SHA384");
    reveal_strlit("TLS_ECDHE_RSA_WITH_AES_128_GCM_SHA256");
    reveal_strlit("TLS_ECDHE_RSA_WITH_AES_256_GCM_SHA384");
    reveal_strlit("TLS_ECDHE_RSA_WITH_CHACHA20_POLY1305_SHA256");
    reveal_strlit("TLS_ECDHE_ECDSA_WITH_CHACHA20_POLY1305_SHA256");
    assert(name.len() > 9);
    assert(name[6] == 'D' && name[7] == 'H' && name[8] == 'E');
    assert(name =~= name.take(6) + "DHE"@ + name.skip(9));
    law_ephemeral_suites_are_forward_secret(version, name.take(6), name.skip(9));
}

/// One more protocol adds its own detail where it is supported (its version, its
/// suite and whether that is forward-secret), and nothing where it is not. The
/// details before it stay as they are.
pub proof fn law_one_more_protocol(protocols: Seq<ProtocolView>, row: ProtocolView)
    ensures
        !row.supported ==> fs_rows(protocols.push(row)) == fs_rows(protocols),
        row.supported ==> {
            &&& fs_rows(protocols.push(row)).len() == fs_rows(protocols).len() + 1
            &&& fs_rows(protocols.push(row)).drop_last() == fs_rows(protocols)
            &&& fs_rows(protocols.push(row)).last().version == row.version
            &&& fs_rows(protocols.push(row)).last().cipher == row.negotiated_cipher
            &&& fs_rows(protocols.push(row)).last().forward_secret == secret(
                row.version,
                row.negotiated_cipher,
            )
        },
{
    assert(protocols.push(row).drop_last() =~= protocols);
    if row.supported {
        assert(fs_rows(protocols.push(row)).drop_last() =~= fs_rows(protocols));
    }
}

/// A policy grows by one directive at a time, starting from none: a flag sets itself,
/// an age replaces the one before it, and anything else changes nothing. Names count
/// in any case, and an age may stand in quotes.
pub proof fn law_one_more_directive(
    all: Seq<Seq<char>>,
    directive: Seq<char>,
    key: Seq<char>,
    value: Seq<char>,
)
    requires
        forall|i: int| 0 <= i < all.len() ==> !(#[trigger] all[i]).contains(';'),
        !directive.contains(';'),
        !key.contains('='),
    ensures
        ({
            let raw = text::joined(all.push(directive), ";"@);
            let after = policy_in(Some(raw));
            let (age, subdomains, preload) = if all.len() == 0 {
                (None, false, false)
            } else {
                let before = policy_in(Some(text::joined(all, ";"@)));
                (before.max_age, before.include_subdomains, before.preload)
            };
            let token = text::trimmed(directive);
            &&& after.present
            &&& after.header == Some(raw)
            &&& !token.contains('=') ==> {
                &&& after.max_age == age
                &&& after.include_subdomains <==> subdomains || text::alike(
                    token,
                    "includeSubDomains"@,
                )
                &&& after.preload <==> preload || text::alike(token, "preload"@)
            }
            &&& token == key + "="@ + value ==> {
                &&& after.include_subdomains == subdomains
                &&& after.preload == preload
                &&& text::alike(text::trimmed(key), "max-age"@) ==> after.max_age == text::number(
                    text::stripped(text::trimmed(value), '"'),
                    10,
                    u64::MAX as nat,
                )
                &&& !text::alike(text::trimmed(key), "max-age"@) ==> after.max_age == age
            }
        }),
{
    reveal_strlit(";");
    reveal_strlit("=");
    assert(";"@ =~= seq![';']);
    assert("="@ =~= seq!['=']);
    let more = all.push(directive);
    assert forall|i: int| 0 <= i < more.len() implies !(#[trigger] more[i]).contains(';') by {
        if i < all.len() {
            assert(more[i] == all[i]);
        }
    }
    text::law_split_undoes_join(more, ';');
    if all.len() > 0 {
        text::law_split_undoes_join(all, ';');
    } else {
        assert(last_age(all) is None);
    }
    assert(more.drop_last() =~= all);
    lemma_flags_grow(all, directive, "includeSubDomains"@);
    lemma_flags_grow(all, directive, "preload"@);
    let token = text::trimmed(directive);
    if !token.contains('=') {
        text::lemma_no_char(token, '=');
    }
    if token == key + "="@ + value {
        text::law_around_first(key, '=', value);
    }
}

/// Without a header there is no policy.
pub proof fn law_no_header_is_no_policy()
    ensures
        !policy_in(None).present,
        policy_in(None).max_age is None,
        !policy_in(None).include_subdomains,
        !policy_in(None).preload,
        policy_in(None).header is None,
{
}

/// A server that presents the same certificate with and without a name shows so, and
/// one that presents another, or presented none with a name, shows that; one that
/// refuses, and one that could not be asked, are told apart. An address is never
/// compared.
pub proof fn law_certificates_are_compared(
    host: Seq<char>,
    with_leaf: Option<Seq<u8>>,
    leaf: Vec<u8>,
    no_sni: NoSni,
)
    ensures
        ip::ip_literal(host) ==> sni_of(host, with_leaf, no_sni).outcome == "not-applicable"@,
        !ip::ip_literal(host) ==> {
            &&& sni_of(host, with_leaf, NoSni::Unavailable).outcome == "unknown"@
            &&& sni_of(host, with_leaf, NoSni::Rejected).outcome == "rejected-without-sni"@
            &&& sni_of(host, Some(leaf@), NoSni::Leaf(leaf)).outcome == "same-certificate"@
            &&& with_leaf != Some(leaf@) ==> sni_of(host, with_leaf, NoSni::Leaf(leaf)).outcome
                == "different-certificate"@
        },
{
}

/// The subjects are those that the two certificates name: the first wherever there was
/// a certificate, the second only where there was a comparison.
pub proof fn law_subjects_are_of_their_certificates(
    host: Seq<char>,
    with_leaf: Option<Seq<u8>>,
    leaf: Vec<u8>,
    no_sni: NoSni,
)
    ensures
        with_leaf is Some ==> sni_of(host, with_leaf, no_sni).with_sni_subject == x509::subject_of(
            with_leaf->0,
        ),
        with_leaf is None ==> sni_of(host, with_leaf, no_sni).with_sni_subject is None,
        !ip::ip_literal(host) ==> sni_of(host, with_leaf, NoSni::Leaf(leaf)).without_sni_subject
            == x509::subject_of(leaf@),
        ip::ip_literal(host) || no_sni !is Leaf ==> sni_of(
            host,
            with_leaf,
            no_sni,
        ).without_sni_subject is None,
{
}

/// Tickets are waited for three seconds.
pub proof fn law_ticket_wait()
    ensures
        TICKET_PUMP_SECS == 3,
{
}

/// What the capturing handshake showed is described as it is: the first certificate is
/// the leaf, a response that is not empty was stapled, and either way to resume a
/// session is resumption.
pub proof fn law_capture_is_described(
    certs: Vec<Vec<u8>>,
    stapled: &[u8],
    tls12: bool,
    tls13: bool,
    r: Primary,
)
    requires
        call_ensures(probe_primary, (certs, stapled, tls12, tls13), r),
    ensures
        certs@.len() == 0 ==> r.leaf is None,
        certs@.len() > 0 ==> r.leaf == Some(certs@[0]),
        r.ocsp.stapled <==> stapled@.len() > 0,
        r.ocsp.response_len == stapled@.len(),
        r.session.tls12_session == tls12,
        r.session.tls13_ticket == tls13,
        r.session.supported <==> tls12 || tls13,
{
}

/// A host without an address cannot be asked, a handshake that failed or showed no
/// certificate is a refusal, and the first certificate that was shown is the leaf.
pub proof fn law_nameless_handshakes_are_described(
    e: ScanError,
    certs: Vec<Vec<u8>>,
    unresolved: NoSni,
    failed: NoSni,
    shown: NoSni,
)
    requires
        call_ensures(probe_no_sni, (None::<Result<Vec<Vec<u8>>, ScanError>>,), unresolved),
        call_ensures(
            probe_no_sni,
            (Some(Err::<Vec<Vec<u8>>, ScanError>(e)),),
            failed,
        ),
        call_ensures(
            probe_no_sni,
            (Some(Ok::<Vec<Vec<u8>>, ScanError>(certs)),),
            shown,
        ),
    ensures
        unresolved is Unavailable,
        failed is Rejected,
        certs@.len() == 0 ==> shown is Rejected,
        certs@.len() > 0 ==> shown == NoSni::Leaf(certs@[0]),
{
}

/// The policy of a response is that of its first `Strict-Transport-Security` field, in
/// any case; a response without one has none, and without a response nothing is known.
pub proof fn law_policy_is_of_its_field(
    response: Result<HttpResponse, ScanError>,
    r: Option<Hsts>,
)
    requires
        call_ensures(probe_hsts, (&response,), r),
    ensures
        r is Some <==> response is Ok,
        response is Ok ==> r->0@ == policy_in(
            http::field_value(response->Ok_0@.headers, "Strict-Transport-Security"@),
        ),
{
    if response is Ok {
        let fields = response->Ok_0@.headers;
        let a = "strict-transport-security"@;
        let b = "Strict-Transport-Security"@;
        reveal_strlit("strict-transport-security");
        reveal_strlit("Strict-Transport-Security");
        assert forall|i: int| 0 <= i < a.len() implies text::lower(#[trigger] a[i]) == text::lower(
            b[i],
        ) by {}
        assert(text::alike(a, b));
        http::law_field_names_ignore_case(fields, a, b);
    }
}

/// The checks are put together as they are: a failed capture is the only failure, and
/// each finding stands in its own place.
pub proof fn law_properties_are_put_together(
    target: Target,
    primary: Result<Primary, ScanError>,
    no_sni: NoSni,
    hsts: Option<Hsts>,
    protocols: &[ProtocolResult],
    r: Result<ConnectionProperties, ScanError>,
)
    requires
        call_ensures(inspect, (&target, primary, &no_sni, hsts, protocols), r),
    ensures
        primary is Err ==> r == Err::<ConnectionProperties, ScanError>(primary->Err_0),
        primary is Ok ==> {
            &&& r is Ok
            &&& r->Ok_0.ocsp_stapling == primary->Ok_0.ocsp
            &&& r->Ok_0.session_resumption == primary->Ok_0.session
            &&& r->Ok_0.hsts == hsts
            &&& fs_views(r->Ok_0.forward_secrecy.protocols@) == fs_rows(
                handshake::protocol_views(protocols@),
            )
            &&& primary->Ok_0.leaf is Some ==> r->Ok_0.sni@ == sni_of(
                target.host@,
                Some(primary->Ok_0.leaf->0@),
                no_sni,
            )
            &&& primary->Ok_0.leaf is None ==> r->Ok_0.sni@ == sni_of(target.host@, None, no_sni)
        },
{
}

/// Whatever the version, a name with `DHE` in it is found forward-secret, and under a
/// version other than TLS 1.3 no other name is.
pub proof fn law_forward_secrecy_is_found(version: &str, name: &str, r: bool)
    requires
        call_ensures(is_forward_secret, (version, Some(name)), r),
    ensures
        r <==> (exists|rest: Seq<char>| version@ == #[trigger] ("TLS 1.3"@ + rest)) || (exists|
            a: Seq<char>,
            b: Seq<char>,
        |
            name@ == #[trigger] (a + "DHE"@ + b)),
{
    if exists|a: Seq<char>, b: Seq<char>| name@ == #[trigger] (a + "DHE"@ + b) {
        let (a, b) = choose|a: Seq<char>, b: Seq<char>| name@ == #[trigger] (a + "DHE"@ + b);
        law_ephemeral_suites_are_forward_secret(version@, a, b);
    } else if exists|rest: Seq<char>| version@ == #[trigger] ("TLS 1.3"@ + rest) {
        let rest = choose|rest: Seq<char>| version@ == #[trigger] ("TLS 1.3"@ + rest);
        law_tls13_versions_are_forward_secret(rest, Some(name@));
    } else {
        law_other_suites_are_not_forward_secret(version@, name@);
    }
}

/// The request for the root document is a plain GET to the host, as it is written.
pub proof fn law_root_is_asked_for(host: &str, r: Vec<u8>)
    requires
        call_ensures(root_request, (host,), r),
    ensures
        r@ == utf8::encode_utf8(http::request_head("GET"@, host@, "/"@, seq![], None)),
{
    reveal_strlit("GET");
    reveal_strlit(" ");
    reveal_strlit("/");
    reveal_strlit(" HTTP/1.1\r\nHost: ");
    reveal_strlit("GET / HTTP/1.1\r\nHost: ");
    http::law_request_is_written_by_lines("GET"@, host@, "/"@, seq![], seq![], seq![], 0);
    assert("GET"@ + " "@ + "/"@ + " HTTP/1.1\r\nHost: "@ =~= "GET / HTTP/1.1\r\nHost: "@);
}

} // verus!
