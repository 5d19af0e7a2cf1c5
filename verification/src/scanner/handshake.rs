//! Which protocol versions a server accepts, and what it negotiates.

use crate::error::{ErrorView, ScanError};
use crate::text;
use vstd::prelude::*;

verus! {

/// What a handshake with one protocol version showed.
#[derive(Debug)]
pub struct ProtocolResult {
    pub version: String,
    pub supported: bool,
    pub negotiated_cipher: Option<String>,
    pub negotiated_group: Option<String>,
}

/// What a [`ProtocolResult`] holds.
pub struct ProtocolView {
    pub version: Seq<char>,
    pub supported: bool,
    pub negotiated_cipher: Option<Seq<char>>,
    pub negotiated_group: Option<Seq<char>>,
}

impl View for ProtocolResult {
    type V = ProtocolView;

    open spec fn view(&self) -> ProtocolView {
        ProtocolView {
            version: self.version@,
            supported: self.supported,
            negotiated_cipher: text::option_view(self.negotiated_cipher),
            negotiated_group: text::option_view(self.negotiated_group),
        }
    }
}

/// What a list of protocol results holds.
pub open spec fn protocol_views(v: Seq<ProtocolResult>) -> Seq<ProtocolView> {
    Seq::new(v.len(), |i: int| v[i]@)
}

/// What a completed handshake negotiated.
#[derive(Debug)]
pub struct HandshakeInfo {
    pub cipher: Option<String>,
    pub group: Option<String>,
}

/// The name of a cipher suite: that of its registration where the TLS stack
/// names it in full, else its code.
pub open spec fn suite_name(code: u16) -> Seq<char> {
    if code == 0x0000 {
        "TLS_NULL_WITH_NULL_NULL"@
    } else if code == 0x00a8 {
        "TLS_PSK_WITH_AES_128_GCM_SHA256"@
    } else if code == 0x00a9 {
        "TLS_PSK_WITH_AES_256_GCM_SHA384"@
    } else if code == 0x00ff {
        "TLS_EMPTY_RENEGOTIATION_INFO_SCSV"@
    } else if code == 0x1301 {
        "TLS13_AES_128_GCM_SHA256"@
    } else if code == 0x1302 {
        "TLS13_AES_256_GCM_SHA384"@
    } else if code == 0x1303 {
        "TLS13_CHACHA20_POLY1305_SHA256"@
    } else if code == 0x1304 {
        "TLS13_AES_128_CCM_SHA256"@
    } else if code == 0x1305 {
        "TLS13_AES_128_CCM_8_SHA256"@
    } else if code == 0xc009 {
        "TLS_ECDHE_ECDSA_WITH_AES_128_CBC_SHA"@
    } else if code == 0xc00a {
        "TLS_ECDHE_ECDSA_WITH_AES_256_CBC_SHA"@
    } else if code == 0xc013 {
        "TLS_ECDHE_RSA_WITH_AES_128_CBC_SHA"@
    } else if code == 0xc014 {
        "TLS_ECDHE_RSA_WITH_AES_256_CBC_SHA"@
    } else if code == 0xc023 {
        "TLS_ECDHE_ECDSA_WITH_AES_128_CBC_SHA256"@
    } else if code == 0xc024 {
        "TLS_ECDHE_ECDSA_WITH_AES_256_CBC_SHA384"@
    } else if code == 0xc027 {
        "TLS_ECDHE_RSA_WITH_AES_128_CBC_SHA256"@
    } else if code == 0xc028 {
        "TLS_ECDHE_RSA_WITH_AES_256_CBC_SHA384"@
    } else if code == 0xc02b {
        "TLS_ECDHE_ECDSA_WITH_AES_128_GCM_SHA256"@
    } else if code == 0xc02c {
        "TLS_ECDHE_ECDSA_WITH_AES_256_GCM_SHA384"@
    } else if code == 0xc02f {
        "TLS_ECDHE_RSA_WITH_AES_128_GCM_SHA256"@
    } else if code == 0xc030 {
        "TLS_ECDHE_RSA_WITH_AES_256_GCM_SHA384"@
    } else if code == 0xcca8 {
        "TLS_ECDHE_RSA_WITH_CHACHA20_POLY1305_SHA256"@
    } else if code == 0xcca9 {
        "TLS_ECDHE_ECDSA_WITH_CHACHA20_POLY1305_SHA256"@
    } else {
        "CipherSuite(0x"@ + text::spelled(code as nat, 16) + ")"@
    }
}

/// The name of a key exchange group, or its code where it has none.
pub open spec fn group_name(code: u16) -> Seq<char> {
    if code == 0x0017 {
        "secp256r1"@
    } else if code == 0x0018 {
        "secp384r1"@
    } else if code == 0x0019 {
        "secp521r1"@
    } else if code == 0x001d {
        "X25519"@
    } else if code == 0x001e {
        "X448"@
    } else if code == 0x0100 {
        "FFDHE2048"@
    } else if code == 0x0101 {
        "FFDHE3072"@
    } else if code == 0x0102 {
        "FFDHE4096"@
    } else if code == 0x0103 {
        "FFDHE6144"@
    } else if code == 0x0104 {
        "FFDHE8192"@
    } else if code == 0x0200 {
        "MLKEM512"@
    } else if code == 0x0201 {
        "MLKEM768"@
    } else if code == 0x0202 {
        "MLKEM1024"@
    } else if code == 0x11eb {
        "secp256r1MLKEM768"@
    } else if code == 0x11ec {
        "X25519MLKEM768"@
    } else {
        "NamedGroup(0x"@ + text::spelled(code as nat, 16) + ")"@
    }
}

/// `From<u16>` of `rustls::CipherSuite` and its `Debug` form: the names of its
/// `enum_builder!` table before `!Debug`, and the code in lower-case hexadecimal
/// digits for every other suite.
#[verifier::external_body]
pub(crate) fn cipher_text(code: u16) -> (r: String)
    ensures
        r@ == suite_name(code),
{
    format!("{:?}", rustls::CipherSuite::from(code))
}

/// `From<u16>` of `rustls::NamedGroup` and its `Debug` form: the names of its
/// `enum_builder!` table, and the code in lower-case hexadecimal digits for every
/// other group.
#[verifier::external_body]
fn group_text(code: u16) -> (r: String)
    ensures
        r@ == group_name(code),
{
    format!("{:?}", rustls::NamedGroup::from(code))
}

/// Describe a completed handshake by the codes of the cipher suite and of the
/// key exchange group that it negotiated.
pub fn attempt_handshake(cipher: Option<u16>, group: Option<u16>) -> (r: HandshakeInfo)
    ensures
        match cipher {
            Some(code) => text::option_view(r.cipher) == Some(suite_name(code)),
            None => r.cipher is None,
        },
        match group {
            Some(code) => text::option_view(r.group) == Some(group_name(code)),
            None => r.group is None,
        },
{
    HandshakeInfo {
        cipher: match cipher {
            Some(code) => Some(cipher_text(code)),
            None => None,
        },
        group: match group {
            Some(code) => Some(group_text(code)),
            None => None,
        },
    }
}

/// What `ServerName::try_from` of `rustls` makes of a host: the name as it is
/// presented, or the text of its error.
pub uninterp spec fn parsed_name(host: Seq<char>) -> Result<Seq<char>, Seq<char>>;

/// `ServerName::try_from` and `ServerName::to_str` of `rustls::pki_types`. The
/// result depends on the host alone.
#[verifier::external_body]
fn parse_name(host: &str) -> (r: Result<String, String>)
    ensures
        match r {
            Ok(name) => parsed_name(host@) == Ok::<Seq<char>, Seq<char>>(name@),
            Err(e) => parsed_name(host@) == Err::<Seq<char>, Seq<char>>(e@),
        },
{
    match rustls::pki_types::ServerName::try_from(host) {
        Ok(name) => Ok(name.to_str().into_owned()),
        Err(e) => Err(e.to_string()),
    }
}

/// The name to present to a server, or why a host cannot be presented.
pub open spec fn presented(parsed: Result<Seq<char>, Seq<char>>) -> Result<Seq<char>, ErrorView> {
    match parsed {
        Ok(name) => Ok(name),
        Err(e) => Err(ErrorView::InvalidName(e)),
    }
}

/// What deciding on a server name gives.
pub open spec fn name_view(r: Result<String, ScanError>) -> Result<Seq<char>, ErrorView> {
    match r {
        Ok(name) => Ok(name@),
        Err(e) => Err(e@),
    }
}

/// The name to present, from what parsing the host gave: the name, or the text of
/// the parser's error.
pub fn present(parsed: Result<String, String>) -> (r: Result<String, ScanError>)
    ensures
        name_view(r) == presented(
            match parsed {
                Ok(name) => Ok(name@),
                Err(e) => Err(e@),
            },
        ),
{
    match parsed {
        Ok(name) => Ok(name),
        Err(e) => Err(ScanError::InvalidName(e)),
    }
}

/// The name under which a host is addressed in a handshake.
pub fn server_name(host: &str) -> (r: Result<String, ScanError>)
    ensures
        name_view(r) == presented(parsed_name(host@)),
{
    present(parse_name(host))
}

/// The result for one version: supported where a handshake completed, with what
/// it negotiated; any failure counts as not supported.
pub open spec fn row_for(
    version: Seq<char>,
    outcome: Result<HandshakeInfo, ScanError>,
) -> ProtocolView {
    match outcome {
        Ok(info) => ProtocolView {
            version,
            supported: true,
            negotiated_cipher: text::option_view(info.cipher),
            negotiated_group: text::option_view(info.group),
        },
        Err(_) => ProtocolView {
            version,
            supported: false,
            negotiated_cipher: None,
            negotiated_group: None,
        },
    }
}

/// Whether a result shows the outcome of a handshake: that it completed, and the suite
/// and the group that it negotiated; neither where it failed.
pub open spec fn shows(row: ProtocolResult, outcome: Result<HandshakeInfo, ScanError>) -> bool {
    &&& row.supported <==> outcome is Ok
    &&& outcome is Ok ==> text::option_view(row.negotiated_cipher) == text::option_view(
        outcome->Ok_0.cipher,
    )
    &&& outcome is Ok ==> text::option_view(row.negotiated_group) == text::option_view(
        outcome->Ok_0.group,
    )
    &&& outcome is Err ==> row.negotiated_cipher is None
    &&& outcome is Err ==> row.negotiated_group is None
}

fn protocol_row(version: &str, outcome: Result<HandshakeInfo, ScanError>) -> (r: ProtocolResult)
    ensures
        r@ == row_for(version@, outcome),
        r.version@ == version@,
        shows(r, outcome),
{
    match outcome {
        Ok(info) => ProtocolResult {
            version: version.to_string(),
            supported: true,
            negotiated_cipher: info.cipher,
            negotiated_group: info.group,
        },
        Err(_) => ProtocolResult {
            version: version.to_string(),
            supported: false,
            negotiated_cipher: None,
            negotiated_group: None,
        },
    }
}

/// Report which versions the server accepts, from the outcome of one independent
/// handshake per version.
pub fn probe_protocols(
    tls10: Result<HandshakeInfo, ScanError>,
    tls11: Result<HandshakeInfo, ScanError>,
    tls12: Result<HandshakeInfo, ScanError>,
    tls13: Result<HandshakeInfo, ScanError>,
) -> (r: Result<Vec<ProtocolResult>, ScanError>)
    ensures
        r is Ok,
        protocol_views(r->Ok_0@) == seq![
            row_for("TLS 1.0"@, tls10),
            row_for("TLS 1.1"@, tls11),
            row_for("TLS 1.2"@, tls12),
            row_for("TLS 1.3"@, tls13),
        ],
        r->Ok_0@.len() == 4,
        r->Ok_0@[0].version@ == "TLS 1.0"@,
        r->Ok_0@[1].version@ == "TLS 1.1"@,
        r->Ok_0@[2].version@ == "TLS 1.2"@,
        r->Ok_0@[3].version@ == "TLS 1.3"@,
        shows(r->Ok_0@[0], tls10),
        shows(r->Ok_0@[1], tls11),
        shows(r->Ok_0@[2], tls12),
        shows(r->Ok_0@[3], tls13),
{
    let mut results: Vec<ProtocolResult> = Vec::new();
    let ghost outcomes = (tls10, tls11, tls12, tls13);
    results.push(protocol_row("TLS 1.0", tls10));
    results.push(protocol_row("TLS 1.1", tls11));
    results.push(protocol_row("TLS 1.2", tls12));
    results.push(protocol_row("TLS 1.3", tls13));
    proof {
        assert(protocol_views(results@) =~= seq![
            row_for("TLS 1.0"@, outcomes.0),
            row_for("TLS 1.1"@, outcomes.1),
            row_for("TLS 1.2"@, outcomes.2),
            row_for("TLS 1.3"@, outcomes.3),
        ]);
    }
    Ok(results)
}

/// A handshake that completed is support for its version, with what it negotiated; one
/// that failed, for whatever reason, is none, and nothing was negotiated.
pub proof fn law_completed_handshakes_are_support(
    version: Seq<char>,
    info: HandshakeInfo,
    e: ScanError,
)
    ensures
        row_for(version, Ok(info)).version == version,
        row_for(version, Ok(info)).supported,
        row_for(version, Ok(info)).negotiated_cipher == text::option_view(info.cipher),
        row_for(version, Ok(info)).negotiated_group == text::option_view(info.group),
        row_for(version, Err(e)).version == version,
        !row_for(version, Err(e)).supported,
        row_for(version, Err(e)).negotiated_cipher is None,
        row_for(version, Err(e)).negotiated_group is None,
{
}

/// A name that was parsed is presented as it is; one that was not is an invalid name,
/// with the parser's words.
pub proof fn law_parsed_names_are_presented(name: Seq<char>, reason: Seq<char>)
    ensures
        presented(Ok(name)) == Ok::<Seq<char>, ErrorView>(name),
        presented(Err(reason)) == Err::<Seq<char>, ErrorView>(ErrorView::InvalidName(reason)),
{
}

/// A handshake is described by the name of its suite and the name of its group, each
/// from its own code, and by nothing where it has no code.
pub proof fn law_codes_are_named(cipher: Option<u16>, group: Option<u16>, r: HandshakeInfo)
    requires
        call_ensures(attempt_handshake, (cipher, group), r),
    ensures
        cipher is None ==> r.cipher is None,
        group is None ==> r.group is None,
        cipher is Some ==> r.cipher is Some && r.cipher->0@ == suite_name(cipher->0),
        group is Some ==> r.group is Some && r.group->0@ == group_name(group->0),
{
}

/// The four versions are reported in order, each supported exactly where its own
/// handshake completed.
pub proof fn law_versions_are_reported(
    tls10: Result<HandshakeInfo, ScanError>,
    tls11: Result<HandshakeInfo, ScanError>,
    tls12: Result<HandshakeInfo, ScanError>,
    tls13: Result<HandshakeInfo, ScanError>,
    r: Result<Vec<ProtocolResult>, ScanError>,
)
    requires
        call_ensures(probe_protocols, (tls10, tls11, tls12, tls13), r),
    ensures
        r is Ok,
        r->Ok_0@.len() == 4,
        r->Ok_0@[0].version@ == "TLS 1.0"@ && r->Ok_0@[0].supported == (tls10 is Ok),
        r->Ok_0@[1].version@ == "TLS 1.1"@ && r->Ok_0@[1].supported == (tls11 is Ok),
        r->Ok_0@[2].version@ == "TLS 1.2"@ && r->Ok_0@[2].supported == (tls12 is Ok),
        r->Ok_0@[3].version@ == "TLS 1.3"@ && r->Ok_0@[3].supported == (tls13 is Ok),
{
}

} // verus!
