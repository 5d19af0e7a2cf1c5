//! OCSP revocation check (RFC 6960).
//!
//! Builds a DER `OCSPRequest` for the leaf certificate, addressed to the
//! responder named in the leaf's Authority Information Access extension, and
//! walks the `OCSPResponse` to extract the single `certStatus`.

use crate::error::{self, ErrorView, ScanError};
use crate::scanner::der;
use crate::scanner::http::{self, HttpResponse, ResponseView, Scheme};
use crate::scanner::x509::{
    self, AccessDescription, AccessView, Certificate, CertificateView, Extension, ExtensionView,
};
use crate::text;
use vstd::prelude::*;
use vstd::slice::slice_subrange;
use vstd::utf8;

verus! {

/// id-ad-ocsp, the access method that names an OCSP responder.
pub const OID_AD_OCSP: &'static str = "1.3.6.1.5.5.7.48.1";

/// What a responder says of a certificate.
#[derive(Clone, Copy, Debug, PartialEq, Eq, Structural)]
pub enum CertStatus {
    Good,
    Revoked,
    Unknown,
    /// The responder rejected the request (responseStatus is not successful).
    ResponderError,
}

/// The location of the first OCSP responder among access descriptions.
pub open spec fn responder_among(entries: Seq<AccessView>) -> Option<Seq<char>>
    decreases entries.len(),
{
    if entries.len() == 0 {
        None
    } else if entries[0].method == OID_AD_OCSP@ && entries[0].uri is Some {
        entries[0].uri
    } else {
        responder_among(entries.skip(1))
    }
}

/// The location of the first OCSP responder in the Authority Information Access
/// extensions of a certificate.
pub open spec fn responder_of(extensions: Seq<ExtensionView>) -> Option<Seq<char>>
    decreases extensions.len(),
{
    if extensions.len() == 0 {
        None
    } else {
        let here = match extensions[0] {
            ExtensionView::AuthorityInfoAccess(entries) => responder_among(entries),
            _ => None,
        };
        if here is Some {
            here
        } else {
            responder_of(extensions.skip(1))
        }
    }
}

fn responder_entry(entries: &Vec<AccessDescription>) -> (r: Option<String>)
    ensures
        text::option_view(r) == responder_among(x509::access_views(entries@)),
{
    let ghost views = x509::access_views(entries@);
    let mut i: usize = 0;
    proof {
        assert(views.skip(0) =~= views);
    }
    while i < entries.len()
        invariant
            0 <= i <= entries@.len(),
            views == x509::access_views(entries@),
            responder_among(views) == responder_among(views.skip(i as int)),
        decreases entries@.len() - i,
    {
        proof {
            assert(views.skip(i as int)[0] == entries@[i as int]@);
            assert(views.skip(i as int).skip(1) =~= views.skip(i + 1));
        }
        if text::equal(entries[i].method.as_str(), OID_AD_OCSP) {
            match &entries[i].uri {
                Some(uri) => {
                    return Some(uri.clone());
                },
                None => {},
            }
        }
        i += 1;
    }
    None
}

/// Extract the first OCSP responder URL from the certificate's AIA extension.
pub fn ocsp_url(cert: &Certificate) -> (r: Option<String>)
    ensures
        text::option_view(r) == responder_of(cert@.extensions),
{
    let ghost views = x509::extension_views(cert.extensions@);
    let mut i: usize = 0;
    proof {
        assert(views.skip(0) =~= views);
    }
    while i < cert.extensions.len()
        invariant
            0 <= i <= cert.extensions@.len(),
            views == x509::extension_views(cert.extensions@),
            responder_of(views) == responder_of(views.skip(i as int)),
        decreases cert.extensions@.len() - i,
    {
        proof {
            assert(views.skip(i as int)[0] == cert.extensions@[i as int]@);
            assert(views.skip(i as int).skip(1) =~= views.skip(i + 1));
        }
        match &cert.extensions[i] {
            Extension::AuthorityInfoAccess(entries) => {
                let found = responder_entry(entries);
                if found.is_some() {
                    return found;
                }
            },
            _ => {},
        }
        i += 1;
    }
    None
}

/// The SHA-1 digest of octets.
pub uninterp spec fn sha1_digest(data: Seq<u8>) -> Seq<u8>;

/// `ring::digest::digest` with `SHA1_FOR_LEGACY_USE_ONLY`: twenty octets that
/// depend on the data alone.
#[verifier::external_body]
fn sha1(data: &[u8]) -> (r: Vec<u8>)
    ensures
        r@ == sha1_digest(data@),
        r@.len() == 20,
{
    ring::digest::digest(&ring::digest::SHA1_FOR_LEGACY_USE_ONLY, data).as_ref().to_vec()
}

/// The contents of a `CertID`: the hash algorithm, the hash of the issuer's
/// name, the hash of the issuer's key and the serial number.
pub open spec fn cert_id_items(
    name_hash: Seq<u8>,
    key_hash: Seq<u8>,
    serial: Seq<u8>,
) -> Seq<u8> {
    der::ALGID_SHA1@ + der::encoding(0x04, name_hash) + der::encoding(0x04, key_hash)
        + der::encoding(0x02, der::integer_content(serial))
}

/// A `TBSRequest` for one certificate: `TBSRequest`, the list of requests,
/// `Request` and `CertID`, each a `SEQUENCE`, one inside the other.
pub open spec fn tbs_request(name_hash: Seq<u8>, key_hash: Seq<u8>, serial: Seq<u8>) -> Seq<u8> {
    let cert_id = der::encoding(0x30, cert_id_items(name_hash, key_hash, serial));
    let request = der::encoding(0x30, cert_id);
    let request_list = der::encoding(0x30, request);
    der::encoding(0x30, request_list)
}

/// An `OCSPRequest` for one certificate: a `SEQUENCE` of a `TBSRequest`.
pub open spec fn request_for(name_hash: Seq<u8>, key_hash: Seq<u8>, serial: Seq<u8>) -> Seq<u8> {
    der::encoding(0x30, tbs_request(name_hash, key_hash, serial))
}

/// Assemble the DER `OCSPRequest` for the certificate with the given serial
/// number, from the hashes of its issuer's name and key.
pub fn encode_request(name_hash: &[u8], key_hash: &[u8], serial: &[u8]) -> (r: Vec<u8>)
    ensures
        r@ == request_for(name_hash@, key_hash@, serial@),
{
    let mut cert_id: Vec<u8> = Vec::new();
    let algorithm: [u8; 11] = der::ALGID_SHA1;
    cert_id.extend_from_slice(algorithm.as_slice());
    cert_id.extend_from_slice(der::octet_string(name_hash).as_slice());
    cert_id.extend_from_slice(der::octet_string(key_hash).as_slice());
    cert_id.extend_from_slice(der::integer(serial).as_slice());
    proof {
        assert(cert_id@ =~= cert_id_items(name_hash@, key_hash@, serial@));
    }
    let cert_id = der::sequence(cert_id.as_slice());
    // Request ::= SEQUENCE { reqCert CertID }
    let request = der::sequence(cert_id.as_slice());
    // requestList ::= SEQUENCE OF Request
    let request_list = der::sequence(request.as_slice());
    // TBSRequest ::= SEQUENCE { requestList }
    let tbs = der::sequence(request_list.as_slice());
    // OCSPRequest ::= SEQUENCE { tbsRequest }
    der::sequence(tbs.as_slice())
}

/// The request for `leaf` issued by `issuer`. `CertID` uses SHA-1, mandated for
/// interoperability: the hash of the issuer's name as the leaf encodes it, and
/// the hash of the issuer's public key bits.
pub open spec fn request_of(leaf: CertificateView, issuer: CertificateView) -> Seq<u8> {
    request_for(
        sha1_digest(leaf.summary.issuer_raw),
        sha1_digest(issuer.summary.key_data),
        leaf.summary.serial,
    )
}

/// Whether a request holds, five sequences deep, a `CertID` of four elements: the
/// algorithm SHA-1, the two given hashes and the number of the given serial.
pub open spec fn identifies(
    request: Seq<u8>,
    name_hash: Seq<u8>,
    key_hash: Seq<u8>,
    serial: Seq<u8>,
) -> bool {
    let parts = der::children_of(unwrapped(request, 5)->0);
    &&& unwrapped(request, 5) is Some
    &&& parts.len() == 4
    &&& parts[0].tag == 0x30
    &&& parts[0].content == seq![0x06u8, 0x05, 0x2b, 0x0e, 0x03, 0x02, 0x1a, 0x05, 0x00]
    &&& parts[1].tag == 0x04
    &&& parts[1].content == name_hash
    &&& parts[2].tag == 0x04
    &&& parts[2].content == key_hash
    &&& parts[3].tag == 0x02
    &&& der::be_value(parts[3].content) == der::be_value(serial)
    &&& parts[3].content[0] < 0x80
}

/// Assemble the DER `OCSPRequest` for `leaf` issued by `issuer`.
pub fn build_request(leaf: &Certificate, issuer: &Certificate) -> (r: Vec<u8>)
    ensures
        r@ == request_of(leaf@, issuer@),
        sha1_digest(leaf@.summary.issuer_raw).len() == 20,
        sha1_digest(issuer@.summary.key_data).len() == 20,
        leaf.summary.serial@.len() < 0x7fff_ffff ==> identifies(
            r@,
            sha1_digest(leaf.summary.issuer_raw@),
            sha1_digest(issuer.summary.key_data@),
            leaf.summary.serial@,
        ),
{
    let name_hash = sha1(leaf.summary.issuer_raw.as_slice());
    let key_hash = sha1(issuer.summary.key_data.as_slice());
    proof {
        if leaf.summary.serial@.len() < 0x7fff_ffff {
            lemma_identifies(name_hash@, key_hash@, leaf.summary.serial@);
        }
    }
    encode_request(name_hash.as_slice(), key_hash.as_slice(), leaf.summary.serial.as_slice())
}

/// The status that the tag of a `certStatus` stands for.
pub open spec fn status_of_tag(tag: u8) -> CertStatus {
    if tag == 0x80 {
        CertStatus::Good
    } else if tag == 0xa1 {
        CertStatus::Revoked
    } else {
        CertStatus::Unknown
    }
}

/// The first plain `SEQUENCE` among elements.
pub open spec fn first_sequence(elements: Seq<der::TlvView>) -> Option<der::TlvView>
    decreases elements.len(),
{
    if elements.len() == 0 {
        None
    } else if elements[0].tag == 0x30 {
        Some(elements[0])
    } else {
        first_sequence(elements.skip(1))
    }
}

/// The status in the contents of `ResponseData`: that of the first response in
/// the first plain `SEQUENCE`.
pub open spec fn status_in_data(data: Seq<u8>) -> Option<CertStatus> {
    match first_sequence(der::children_of(data)) {
        None => None,
        Some(responses) => {
            let list = der::children_of(responses.content);
            if list.len() == 0 {
                None
            } else {
                let parts = der::children_of(list[0].content);
                if parts.len() < 2 {
                    None
                } else {
                    Some(status_of_tag(parts[1].tag))
                }
            }
        },
    }
}

/// The status in a `BasicOCSPResponse`, whose first element is `ResponseData`.
pub open spec fn status_in_basic(basic: Seq<u8>) -> Option<CertStatus> {
    match der::front_of(basic) {
        None => None,
        Some(b) => {
            let parts = der::children_of(b.content);
            if parts.len() == 0 {
                None
            } else {
                status_in_data(parts[0].content)
            }
        },
    }
}

/// The status in an explicitly tagged `ResponseBytes`, whose second element holds
/// the `BasicOCSPResponse`.
pub open spec fn status_in_bytes(tagged: Seq<u8>) -> Option<CertStatus> {
    match der::front_of(tagged) {
        None => None,
        Some(bytes) => {
            let parts = der::children_of(bytes.content);
            if parts.len() < 2 {
                None
            } else {
                status_in_basic(parts[1].content)
            }
        },
    }
}

/// The status in an `OCSPResponse`; nothing where it is malformed.
pub open spec fn status_in(response: Seq<u8>) -> Option<CertStatus> {
    match der::front_of(response) {
        None => None,
        Some(ocsp) => {
            let top = der::children_of(ocsp.content);
            if top.len() == 0 {
                None
            } else if !(top[0].tag == 0x0a && top[0].content.len() > 0 && top[0].content[0] == 0) {
                Some(CertStatus::ResponderError)
            } else if top.len() < 2 {
                None
            } else {
                status_in_bytes(top[1].content)
            }
        },
    }
}

fn malformed() -> (r: ScanError)
    ensures
        r@ == ErrorView::Http("malformed OCSP response"@),
{
    ScanError::Http("malformed OCSP response".to_string())
}

fn data_status(data: &[u8]) -> (r: Option<CertStatus>)
    ensures
        r == status_in_data(data@),
{
    let elements = der::children(data);
    let ghost views = der::children_of(data@);
    let mut i: usize = 0;
    proof {
        assert(views.skip(0) =~= views);
    }
    while i < elements.len()
        invariant
            0 <= i <= elements@.len(),
            views == der::children_of(data@),
            views == der::tlv_views(elements@),
            first_sequence(views) == first_sequence(views.skip(i as int)),
        decreases elements@.len() - i,
    {
        proof {
            assert(views.skip(i as int)[0] == elements@[i as int]@);
            assert(views.skip(i as int).skip(1) =~= views.skip(i + 1));
        }
        if elements[i].tag == 0x30 {
            let list = der::children(elements[i].content);
            let ghost list_views = der::children_of(elements@[i as int].content@);
            if list.len() == 0 {
                return None;
            }
            proof {
                assert(list_views[0] == list@[0]@);
            }
            let parts = der::children(list[0].content);
            let ghost part_views = der::children_of(list@[0].content@);
            if parts.len() < 2 {
                return None;
            }
            proof {
                assert(part_views[1] == parts@[1]@);
            }
            return Some(
                match parts[1].tag {
                    0x80 => CertStatus::Good,
                    0xa1 => CertStatus::Revoked,
                    _ => CertStatus::Unknown,
                },
            );
        }
        i += 1;
    }
    None
}

fn basic_status(basic: &[u8]) -> (r: Option<CertStatus>)
    ensures
        r == status_in_basic(basic@),
{
    match der::read_tlv(basic) {
        None => None,
        Some(b) => {
            let parts = der::children(b.content);
            let ghost views = der::children_of(b.content@);
            if parts.len() == 0 {
                return None;
            }
            proof {
                assert(views[0] == parts@[0]@);
            }
            data_status(parts[0].content)
        },
    }
}

fn bytes_status(tagged: &[u8]) -> (r: Option<CertStatus>)
    ensures
        r == status_in_bytes(tagged@),
{
    match der::read_tlv(tagged) {
        None => None,
        Some(bytes) => {
            let parts = der::children(bytes.content);
            let ghost views = der::children_of(bytes.content@);
            if parts.len() < 2 {
                return None;
            }
            proof {
                assert(views[1] == parts@[1]@);
            }
            basic_status(parts[1].content)
        },
    }
}

/// What walking an `OCSPResponse` gives.
pub open spec fn walked(response: Seq<u8>) -> Result<CertStatus, ErrorView> {
    match status_in(response) {
        Some(status) => Ok(status),
        None => Err(ErrorView::Http("malformed OCSP response"@)),
    }
}

/// Walk an `OCSPResponse` down to the single response's `certStatus` tag.
pub fn parse_status(der_bytes: &[u8]) -> (r: Result<CertStatus, ScanError>)
    ensures
        error::result_view(r) == walked(der_bytes@),
{
    // OCSPResponse ::= SEQUENCE { responseStatus ENUMERATED, [0] responseBytes }
    let ocsp = match der::read_tlv(der_bytes) {
        Some(t) => t,
        None => {
            return Err(malformed());
        },
    };
    let top = der::children(ocsp.content);
    let ghost views = der::children_of(ocsp.content@);
    if top.len() == 0 {
        return Err(malformed());
    }
    proof {
        assert(views[0] == top@[0]@);
    }
    let status = top[0].content;
    if top[0].tag != 0x0a || status.len() == 0 || status[0] != 0 {
        return Ok(CertStatus::ResponderError);
    }
    if top.len() < 2 {
        return Err(malformed());
    }
    proof {
        assert(views[1] == top@[1]@);
    }
    // [0] EXPLICIT ResponseBytes ::= SEQUENCE { responseType OID, response OCTET STRING }
    match bytes_status(top[1].content) {
        Some(s) => Ok(s),
        None => Err(malformed()),
    }
}

/// The scheme, what follows it and the port it implies.
pub open spec fn scheme_of(url: Seq<char>) -> Option<(Scheme, Seq<char>, nat)> {
    if text::begins(url, "http://"@) {
        Some((Scheme::Http, url.skip("http://"@.len() as int), 80))
    } else if text::begins(url, "https://"@) {
        Some((Scheme::Https, url.skip("https://"@.len() as int), 443))
    } else {
        None
    }
}

/// The host and the path in what follows the scheme: the path starts at the
/// first slash and is a slash where there is none.
pub open spec fn authority_and_path(rest: Seq<char>) -> (Seq<char>, Seq<char>) {
    match text::first_of(rest, seq!['/']) {
        Some(i) => (rest.take(i as int), rest.skip(i as int)),
        None => (rest, "/"@),
    }
}

/// The host and the port of an authority: the port stands after the last colon,
/// and is the default where that is no port number.
pub open spec fn host_and_port(authority: Seq<char>, default: nat) -> (Seq<char>, nat) {
    match text::around_last(authority, ':') {
        Some((host, port)) => (
            host,
            match text::number(port, 10, 0xffff) {
                Some(n) => n,
                None => default,
            },
        ),
        None => (authority, default),
    }
}

/// The scheme, host, port and path of a responder URL.
pub open spec fn url_parts(url: Seq<char>) -> Result<
    (Scheme, Seq<char>, nat, Seq<char>),
    ErrorView,
> {
    match scheme_of(url) {
        None => Err(ErrorView::Http("unsupported OCSP URL: "@ + url)),
        Some((scheme, rest, default)) => {
            let (authority, path) = authority_and_path(rest);
            let (host, port) = host_and_port(authority, default);
            Ok((scheme, host, port, path))
        },
    }
}

/// What splitting a URL gives.
pub open spec fn url_view(r: Result<(Scheme, String, u16, String), ScanError>) -> Result<
    (Scheme, Seq<char>, nat, Seq<char>),
    ErrorView,
> {
    match r {
        Ok((scheme, host, port, path)) => Ok((scheme, host@, port as nat, path@)),
        Err(e) => Err(e@),
    }
}

/// Split a responder URL into scheme/host/port/path. Only http(s) is accepted.
pub fn parse_url(url: &str) -> (r: Result<(Scheme, String, u16, String), ScanError>)
    ensures
        url_view(r) == url_parts(url@),
{
    let chars = text::to_chars(url);
    let end: usize = chars.len();
    proof {
        reveal_strlit("http://");
        reveal_strlit("https://");
    }
    let scheme: Scheme;
    let default_port: u16;
    let rest: &[char];
    if text::starts_with(url, "http://") {
        scheme = Scheme::Http;
        default_port = 80;
        rest = slice_subrange(chars.as_slice(), 7, end);
        proof {
            assert(rest@ =~= url@.skip(7));
        }
    } else if text::starts_with(url, "https://") {
        scheme = Scheme::Https;
        default_port = 443;
        rest = slice_subrange(chars.as_slice(), 8, end);
        proof {
            assert(rest@ =~= url@.skip(8));
        }
    } else {
        return Err(ScanError::Http(text::prefixed("unsupported OCSP URL: ", url)));
    }
    let slash: [char; 1] = ['/'];
    proof {
        assert(slash@ =~= seq!['/']);
    }
    let authority: &[char];
    let path: String;
    match text::find(rest, slash.as_slice()) {
        Some(i) => {
            authority = slice_subrange(rest, 0, i);
            let tail = slice_subrange(rest, i, rest.len());
            path = text::from_chars(tail);
            proof {
                assert(authority@ =~= rest@.take(i as int));
                assert(tail@ =~= rest@.skip(i as int));
            }
        },
        None => {
            authority = rest;
            path = "/".to_string();
        },
    }
    match text::rsplit_once(authority, ':') {
        Some((h, p)) => {
            let port: u16 = match text::parse_number(p, 10, 0xffff) {
                Some(n) => n as u16,
                None => default_port,
            };
            Ok((scheme, text::from_chars(h), port, path))
        },
        None => Ok((scheme, text::from_chars(authority), default_port, path)),
    }
}

/// What the chain of a server calls for: a status that needs no responder, or a
/// request to send to one.
#[derive(Debug)]
pub enum Query {
    Settled(String),
    Ask { scheme: Scheme, host: String, port: u16, request: Vec<u8> },
}

/// What a [`Query`] holds.
pub enum QueryView {
    Settled(Seq<char>),
    Ask { scheme: Scheme, host: Seq<char>, port: nat, request: Seq<u8> },
}

impl View for Query {
    type V = QueryView;

    open spec fn view(&self) -> QueryView {
        match self {
            Query::Settled(s) => QueryView::Settled(s@),
            Query::Ask { scheme, host, port, request } => QueryView::Ask {
                scheme: *scheme,
                host: host@,
                port: *port as nat,
                request: request@,
            },
        }
    }
}

/// What deciding on a query gives.
pub open spec fn query_view(r: Result<Query, ScanError>) -> Result<QueryView, ErrorView> {
    match r {
        Ok(q) => Ok(q@),
        Err(e) => Err(e@),
    }
}

/// The header fields of an OCSP request.
pub open spec fn request_fields() -> Seq<(Seq<char>, Seq<char>)> {
    seq![
        ("Content-Type"@, "application/ocsp-request"@),
        ("Accept"@, "application/ocsp-response"@),
    ]
}

/// The octets that POST an OCSP request.
pub open spec fn post_of(host: Seq<char>, path: Seq<char>, request: Seq<u8>) -> Seq<u8> {
    utf8::encode_utf8(
        http::request_head("POST"@, host, path, request_fields(), Some(request.len())),
    ) + request
}

/// The query for `leaf` issued by `issuer`.
pub open spec fn query_for(leaf: CertificateView, issuer: CertificateView) -> Result<
    QueryView,
    ErrorView,
> {
    match responder_of(leaf.extensions) {
        None => Ok(QueryView::Settled("No OCSP responder in certificate"@)),
        Some(url) => match url_parts(url) {
            Err(e) => Err(e),
            Ok((scheme, host, port, path)) => Ok(
                QueryView::Ask {
                    scheme,
                    host,
                    port,
                    request: post_of(host, path, request_of(leaf, issuer)),
                },
            ),
        },
    }
}

/// Decide what to ask about `leaf` issued by `issuer`.
pub fn query_certificates(leaf: &Certificate, issuer: &Certificate) -> (r: Result<
    Query,
    ScanError,
>)
    ensures
        query_view(r) == query_for(leaf@, issuer@),
{
    let url = match ocsp_url(leaf) {
        Some(u) => u,
        None => {
            return Ok(Query::Settled("No OCSP responder in certificate".to_string()));
        },
    };
    let body = build_request(leaf, issuer);
    match parse_url(url.as_str()) {
        Err(e) => Err(e),
        Ok((scheme, host, port, path)) => {
            let fields: [(&str, &str); 2] = [
                ("Content-Type", "application/ocsp-request"),
                ("Accept", "application/ocsp-response"),
            ];
            proof {
                assert(http::pair_views(fields@) =~= request_fields());
            }
            let request = http::request(
                "POST",
                host.as_str(),
                path.as_str(),
                fields.as_slice(),
                Some(body.as_slice()),
            );
            Ok(Query::Ask { scheme, host, port, request })
        },
    }
}

/// The query that a chain of encoded certificates calls for, leaf first.
pub open spec fn query_of(chain: Seq<Seq<u8>>) -> Result<QueryView, ErrorView> {
    if chain.len() < 2 {
        Ok(QueryView::Settled("No issuer certificate in chain"@))
    } else {
        match x509::certificate_of(chain[0]) {
            Err(e) => Err(e),
            Ok(leaf) => match x509::certificate_of(chain[1]) {
                Err(e) => Err(e),
                Ok(issuer) => query_for(leaf, issuer),
            },
        }
    }
}

/// What each of a list of encoded certificates holds.
pub open spec fn chain_view(certs: Seq<Vec<u8>>) -> Seq<Seq<u8>> {
    Seq::new(certs.len(), |i: int| certs[i]@)
}

/// Decide what to ask about the leaf of a chain, given leaf first.
pub fn query(certs: &[Vec<u8>]) -> (r: Result<Query, ScanError>)
    ensures
        query_view(r) == query_of(chain_view(certs@)),
{
    if certs.len() < 2 {
        return Ok(Query::Settled("No issuer certificate in chain".to_string()));
    }
    let leaf = match Certificate::from_der(certs[0].as_slice()) {
        Ok(c) => c,
        Err(e) => {
            return Err(e);
        },
    };
    let issuer = match Certificate::from_der(certs[1].as_slice()) {
        Ok(c) => c,
        Err(e) => {
            return Err(e);
        },
    };
    query_certificates(&leaf, &issuer)
}

/// The name of a status.
pub open spec fn status_name(status: CertStatus) -> Seq<char> {
    match status {
        CertStatus::Good => "Good"@,
        CertStatus::Revoked => "Revoked"@,
        CertStatus::Unknown => "Unknown"@,
        CertStatus::ResponderError => "Responder error"@,
    }
}

/// What a responder's answer says.
pub open spec fn answer_of(response: ResponseView) -> Result<Seq<char>, ErrorView> {
    if response.status != 200 {
        Ok("Responder returned HTTP "@ + text::decimal(response.status))
    } else {
        match walked(response.body) {
            Ok(status) => Ok(status_name(status)),
            Err(e) => Err(e),
        }
    }
}

/// What a check gives before it is rendered.
pub open spec fn outcome_view(r: Result<String, ScanError>) -> Result<Seq<char>, ErrorView> {
    match r {
        Ok(s) => Ok(s@),
        Err(e) => Err(e@),
    }
}

/// Read a responder's answer.
pub fn answer(response: &HttpResponse) -> (r: Result<String, ScanError>)
    ensures
        outcome_view(r) == answer_of(response@),
{
    if response.status != 200 {
        let code = text::decimal_text(response.status as u64);
        return Ok(text::prefixed("Responder returned HTTP ", code.as_str()));
    }
    match parse_status(response.body.as_slice()) {
        Ok(status) => Ok(
            match status {
                CertStatus::Good => "Good".to_string(),
                CertStatus::Revoked => "Revoked".to_string(),
                CertStatus::Unknown => "Unknown".to_string(),
                CertStatus::ResponderError => "Responder error".to_string(),
            },
        ),
        Err(e) => Err(e),
    }
}

/// A check's outcome as the report shows it.
pub open spec fn rendered(outcome: Result<Seq<char>, ErrorView>) -> Seq<char> {
    match outcome {
        Ok(status) => status,
        Err(e) => "Check failed: "@ + error::error_text(e),
    }
}

/// Render a check's outcome as a human/JSON-friendly status string. Failures
/// degrade to a descriptive message: revocation status is advisory, not fatal.
pub fn check(outcome: Result<String, ScanError>) -> (r: String)
    ensures
        r@ == rendered(outcome_view(outcome)),
{
    match outcome {
        Ok(status) => status,
        Err(e) => {
            let message = e.message();
            text::prefixed("Check failed: ", message.as_str())
        },
    }
}

/// The contents of `ResponseData`: elements before the list of responses, the
/// list with a first response and others, and elements after it.
pub open spec fn response_data(
    before: Seq<(u8, Seq<u8>)>,
    single: Seq<(u8, Seq<u8>)>,
    others: Seq<(u8, Seq<u8>)>,
    after: Seq<(u8, Seq<u8>)>,
) -> Seq<u8> {
    let responses = seq![(0x30u8, der::encodings(single))] + others;
    der::encodings(before + seq![(0x30u8, der::encodings(responses))] + after)
}

/// A `BasicOCSPResponse` with the given `ResponseData` and whatever follows it.
pub open spec fn basic_response(data: Seq<u8>, signature: Seq<(u8, Seq<u8>)>) -> Seq<u8> {
    der::encoding(0x30, der::encodings(seq![(0x30u8, data)] + signature))
}

/// The contents of a successful `OCSPResponse` of the given type that holds a
/// basic response.
pub open spec fn response_contents(kind: Seq<u8>, basic: Seq<u8>) -> Seq<u8> {
    let bytes = der::encoding(0x30, der::encodings(seq![(0x06u8, kind), (0x04u8, basic)]));
    der::encodings(seq![(0x0au8, seq![0u8]), (0xa0u8, bytes)])
}

/// A successful `OCSPResponse` of the given type that holds a basic response.
pub open spec fn ocsp_response(kind: Seq<u8>, basic: Seq<u8>) -> Seq<u8> {
    der::encoding(0x30, response_contents(kind, basic))
}

proof fn lemma_first_sequence(elements: Seq<der::TlvView>, n: nat)
    requires
        n < elements.len(),
        elements[n as int].tag == 0x30,
        forall|i: int| 0 <= i < n ==> (#[trigger] elements[i]).tag != 0x30,
    ensures
        first_sequence(elements) == Some(elements[n as int]),
    decreases n,
{
    if n > 0 {
        assert(elements[0].tag != 0x30);
        assert forall|i: int| 0 <= i < n - 1 implies (#[trigger] elements.skip(1)[i]).tag
            != 0x30 by {
            assert(elements.skip(1)[i] == elements[i + 1]);
        }
        lemma_first_sequence(elements.skip(1), (n - 1) as nat);
    }
}

/// The children of one constructed value, where all of it is short enough to be
/// read: one for each item, in order.
proof fn lemma_children(items: Seq<(u8, Seq<u8>)>)
    requires
        der::encodings(items).len() < der::readable_limit(),
    ensures
        der::children_of(der::encodings(items)).len() == items.len(),
        forall|i: int|
            0 <= i < items.len() ==> {
                let t = #[trigger] der::children_of(der::encodings(items))[i];
                t.tag == items[i].0 && t.content == items[i].1 && t.content.len()
                    < der::encodings(items).len()
            },
{
    der::lemma_contents_bound(items);
    der::law_children_of_encodings(items);
}

/// One value that is short enough is read back, alone.
proof fn lemma_front(tag: u8, content: Seq<u8>)
    requires
        content.len() < der::readable_limit(),
    ensures
        der::front_of(der::encoding(tag, content)) == Some(
            der::TlvView { tag, content, total_len: der::encoding(tag, content).len() },
        ),
        content.len() < der::encoding(tag, content).len(),
{
    der::law_read_back(tag, content, seq![]);
    assert(der::encoding(tag, content) + Seq::<u8>::empty() =~= der::encoding(tag, content));
}

/// The status of the first response in a well-formed `OCSPResponse` with contents
/// below 4 GiB is the one reported, whatever else the response carries (version,
/// responder, time, further responses, extensions, signature and certificates)
/// and whatever octets follow it.
pub proof fn law_response_gives_its_status(
    kind: Seq<u8>,
    before: Seq<(u8, Seq<u8>)>,
    single: Seq<(u8, Seq<u8>)>,
    others: Seq<(u8, Seq<u8>)>,
    after: Seq<(u8, Seq<u8>)>,
    signature: Seq<(u8, Seq<u8>)>,
    tail: Seq<u8>,
)
    requires
        single.len() >= 2,
        forall|i: int| 0 <= i < before.len() ==> (#[trigger] before[i]).0 != 0x30,
        response_contents(
            kind,
            basic_response(response_data(before, single, others, after), signature),
        ).len() < der::readable_limit(),
    ensures
        walked(
            ocsp_response(
                kind,
                basic_response(response_data(before, single, others, after), signature),
            ) + tail,
        ) == Ok::<CertStatus, ErrorView>(status_of_tag(single[1].0)),
{
    let responses = seq![(0x30u8, der::encodings(single))] + others;
    let elements = before + seq![(0x30u8, der::encodings(responses))] + after;
    let data = der::encodings(elements);
    let parts = seq![(0x30u8, data)] + signature;
    let basic = basic_response(data, signature);
    let pair = seq![(0x06u8, kind), (0x04u8, basic)];
    let bytes = der::encoding(0x30, der::encodings(pair));
    let top = seq![(0x0au8, seq![0u8]), (0xa0u8, bytes)];
    der::law_read_back(0x30, der::encodings(top), tail);
    lemma_children(top);
    let t = der::children_of(der::encodings(top));
    assert(t[0].content == top[0].1);
    assert(t[1].content == top[1].1);
    lemma_front_bound(0x30, der::encodings(pair));
    lemma_front(0x30, der::encodings(pair));
    lemma_children(pair);
    let p = der::children_of(der::encodings(pair));
    assert(p[1].content == pair[1].1);
    lemma_front_bound(0x30, der::encodings(parts));
    lemma_front(0x30, der::encodings(parts));
    lemma_children(parts);
    let b = der::children_of(der::encodings(parts));
    assert(b[0].content == parts[0].1);
    lemma_children(elements);
    let e = der::children_of(data);
    let n = before.len();
    assert(e[n as int].content == elements[n as int].1);
    assert(elements[n as int].1 == der::encodings(responses));
    assert forall|i: int| 0 <= i < n implies (#[trigger] e[i]).tag != 0x30 by {
        assert(elements[i] == before[i]);
    }
    lemma_first_sequence(e, n);
    lemma_children(responses);
    let r = der::children_of(der::encodings(responses));
    assert(r[0].content == responses[0].1);
    lemma_children(single);
    let s = der::children_of(der::encodings(single));
    assert(s[1].tag == single[1].0);
}

/// Contents are shorter than their encoding.
proof fn lemma_front_bound(tag: u8, content: Seq<u8>)
    ensures
        content.len() < der::encoding(tag, content).len(),
{
}

/// A response whose status is not zero is a refusal, whatever else it carries and
/// whatever octets follow it.
pub proof fn law_unsuccessful_is_a_responder_error(
    code: u8,
    rest: Seq<(u8, Seq<u8>)>,
    tail: Seq<u8>,
)
    requires
        code != 0,
        der::encodings(seq![(0x0au8, seq![code])] + rest).len() < der::readable_limit(),
    ensures
        walked(der::encoding(0x30, der::encodings(seq![(0x0au8, seq![code])] + rest)) + tail)
            == Ok::<CertStatus, ErrorView>(CertStatus::ResponderError),
{
    let top = seq![(0x0au8, seq![code])] + rest;
    der::law_read_back(0x30, der::encodings(top), tail);
    lemma_children(top);
    let t = der::children_of(der::encodings(top));
    assert(t[0].content == top[0].1);
}

/// The contents inside so many nested values.
pub open spec fn unwrapped(data: Seq<u8>, depth: nat) -> Option<Seq<u8>>
    decreases depth,
{
    if depth == 0 {
        Some(data)
    } else {
        match der::front_of(data) {
            Some(t) => if t.tag == 0x30 && t.total_len == data.len() {
                unwrapped(t.content, (depth - 1) as nat)
            } else {
                None
            },
            None => None,
        }
    }
}

/// A request names its certificate: inside its five nested sequences stand the
/// hash algorithm, both hashes and the serial number as they were given.
pub proof fn law_request_names_its_certificate(
    name_hash: Seq<u8>,
    key_hash: Seq<u8>,
    serial: Seq<u8>,
)
    requires
        tbs_request(name_hash, key_hash, serial).len() < der::readable_limit(),
    ensures
        ({
            let items = cert_id_items(name_hash, key_hash, serial);
            let parts = der::children_of(items);
            &&& unwrapped(request_for(name_hash, key_hash, serial), 5) == Some(items)
            &&& parts.len() == 4
            &&& parts[0].tag == 0x30
            &&& parts[1].tag == 0x04 && parts[1].content == name_hash
            &&& parts[2].tag == 0x04 && parts[2].content == key_hash
            &&& parts[3].tag == 0x02 && der::be_value(parts[3].content) == der::be_value(serial)
        }),
{
    let items = cert_id_items(name_hash, key_hash, serial);
    let list = cert_id_list(name_hash, key_hash, serial);
    lemma_cert_id_items(name_hash, key_hash, serial);
    let s1 = der::encoding(0x30, items);
    let s2 = der::encoding(0x30, s1);
    let s3 = der::encoding(0x30, s2);
    let s4 = der::encoding(0x30, s3);
    assert(items.len() < s1.len() < s2.len() < s3.len() < s4.len());
    assert(unwrapped(items, 0) == Some(items));
    lemma_unwrap(items, 0);
    lemma_unwrap(s1, 1);
    lemma_unwrap(s2, 2);
    lemma_unwrap(s3, 3);
    lemma_unwrap(s4, 4);
    lemma_children(list);
    let parts = der::children_of(items);
    assert(parts[0].tag == list[0].0);
    assert(parts[1].content == list[1].1);
    assert(parts[2].content == list[2].1);
    assert(parts[3].content == list[3].1);
    der::law_integer_keeps_value(serial);
}

/// The four elements of a `CertID`.
spec fn cert_id_list(name_hash: Seq<u8>, key_hash: Seq<u8>, serial: Seq<u8>) -> Seq<
    (u8, Seq<u8>),
> {
    seq![
        (0x30u8, der::ALGID_SHA1@.skip(2)),
        (0x04u8, name_hash),
        (0x04u8, key_hash),
        (0x02u8, der::integer_content(serial)),
    ]
}

proof fn lemma_cert_id_items(name_hash: Seq<u8>, key_hash: Seq<u8>, serial: Seq<u8>)
    ensures
        cert_id_items(name_hash, key_hash, serial) == der::encodings(
            cert_id_list(name_hash, key_hash, serial),
        ),
{
    let list = cert_id_list(name_hash, key_hash, serial);
    let t1 = list.skip(1);
    let t2 = t1.skip(1);
    let t3 = t2.skip(1);
    assert(der::ALGID_SHA1@ =~= der::encoding(0x30, list[0].1));
    assert(t3.skip(1) =~= seq![]);
    assert(der::encodings(t3.skip(1)) =~= seq![]);
    assert(t3[0] == list[3]);
    assert(der::encodings(t3) =~= der::encoding(0x02, list[3].1));
    assert(t2[0] == list[2]);
    assert(t1[0] == list[1]);
    assert(der::encodings(t2) == der::encoding(0x04, key_hash) + der::encodings(t3));
    assert(der::encodings(t1) == der::encoding(0x04, name_hash) + der::encodings(t2));
    assert(der::encodings(list) == der::encoding(0x30, list[0].1) + der::encodings(t1));
    assert(cert_id_items(name_hash, key_hash, serial) =~= der::encodings(list));
}

proof fn lemma_unwrap(content: Seq<u8>, depth: nat)
    requires
        content.len() < der::readable_limit(),
    ensures
        unwrapped(der::encoding(0x30, content), depth + 1) == unwrapped(content, depth),
{
    lemma_front(0x30, content);
}

/// Whether an extension names an OCSP responder by a URI.
pub open spec fn names_responder(extension: ExtensionView) -> bool {
    match extension {
        ExtensionView::AuthorityInfoAccess(entries) => exists|i: int|
            0 <= i < entries.len() && (#[trigger] entries[i]).method == OID_AD_OCSP@
                && entries[i].uri is Some,
        _ => false,
    }
}

/// A certificate without an OCSP responder is reported as such: it is no error,
/// and nobody is asked. With one, somebody is.
pub proof fn law_without_a_responder_nobody_is_asked(
    leaf: CertificateView,
    issuer: CertificateView,
)
    ensures
        query_for(leaf, issuer) == Ok::<QueryView, ErrorView>(
            QueryView::Settled("No OCSP responder in certificate"@),
        ) <==> forall|i: int|
            0 <= i < leaf.extensions.len() ==> !names_responder(#[trigger] leaf.extensions[i]),
{
    lemma_responder(leaf.extensions);
}

proof fn lemma_responder(extensions: Seq<ExtensionView>)
    ensures
        responder_of(extensions) is None <==> forall|i: int|
            0 <= i < extensions.len() ==> !names_responder(#[trigger] extensions[i]),
    decreases extensions.len(),
{
    if extensions.len() > 0 {
        let rest = extensions.skip(1);
        lemma_responder(rest);
        match extensions[0] {
            ExtensionView::AuthorityInfoAccess(entries) => {
                lemma_entry(entries);
            },
            _ => {},
        }
        assert(forall|i: int| 0 <= i < rest.len() ==> rest[i] == #[trigger] extensions[i + 1]);
        assert(forall|i: int|
            1 <= i < extensions.len() ==> #[trigger] extensions[i] == rest[i - 1]);
    }
}

proof fn lemma_entry(entries: Seq<AccessView>)
    ensures
        responder_among(entries) is Some <==> exists|i: int|
            0 <= i < entries.len() && (#[trigger] entries[i]).method == OID_AD_OCSP@
                && entries[i].uri is Some,
    decreases entries.len(),
{
    if entries.len() > 0 {
        let rest = entries.skip(1);
        lemma_entry(rest);
        assert(forall|i: int| 0 <= i < rest.len() ==> #[trigger] rest[i] == entries[i + 1]);
        assert(forall|i: int| 1 <= i < entries.len() ==> #[trigger] entries[i] == rest[i - 1]);
    }
}

/// A URL is taken apart as it was put together: any host without colons and
/// slashes, any port, and any path that starts with a slash.
pub proof fn law_url_parts_come_apart(
    secure: bool,
    host: Seq<char>,
    port: nat,
    path: Seq<char>,
)
    requires
        !host.contains(':'),
        !host.contains('/'),
        port <= 0xffff,
        path.len() > 0,
        path[0] == '/',
    ensures
        ({
            let prefix = if secure {
                "https://"@
            } else {
                "http://"@
            };
            let (scheme, default) = if secure {
                (Scheme::Https, 443nat)
            } else {
                (Scheme::Http, 80nat)
            };
            &&& url_parts(prefix + host + ":"@ + text::decimal(port) + path) == Ok::<
                (Scheme, Seq<char>, nat, Seq<char>),
                ErrorView,
            >((scheme, host, port, path))
            &&& url_parts(prefix + host + path) == Ok::<
                (Scheme, Seq<char>, nat, Seq<char>),
                ErrorView,
            >((scheme, host, default, path))
            &&& url_parts(prefix + host) == Ok::<(Scheme, Seq<char>, nat, Seq<char>), ErrorView>(
                (scheme, host, default, "/"@),
            )
        }),
{
    let digits = text::decimal(port);
    let with_port = host + ":"@ + digits;
    reveal_strlit(":");
    assert(":"@ =~= seq![':']);
    text::lemma_spelled(port, 10);
    text::law_spelled_is_read(port, 10, 0xffff);
    assert forall|i: int| 0 <= i < digits.len() implies digits[i] != ':' && digits[i] != '/' by {
        assert(text::digit_value(digits[i]) < 10);
    }
    assert(!digits.contains(':'));
    assert(!with_port.contains('/')) by {
        assert forall|i: int| 0 <= i < with_port.len() implies with_port[i] != '/' by {
            if i < host.len() {
                assert(host.contains(host[i]));
            }
        }
    }
    assert(with_port =~= host + seq![':'] + digits);
    text::lemma_last_is(host, ':', digits);
    assert(with_port.take(host.len() as int) =~= host);
    assert(with_port.skip(host.len() as int + 1) =~= digits);
    text::lemma_no_char(host, ':');
    text::lemma_no_char(host, '/');
    lemma_authority(with_port, path);
    lemma_authority(host, path);
    let prefix = if secure {
        "https://"@
    } else {
        "http://"@
    };
    assert(prefix + host + ":"@ + digits + path =~= prefix + (with_port + path));
    assert(prefix + host + path =~= prefix + (host + path));
    lemma_scheme(secure, with_port + path);
    lemma_scheme(secure, host + path);
    lemma_scheme(secure, host);
}

proof fn lemma_authority(authority: Seq<char>, path: Seq<char>)
    requires
        !authority.contains('/'),
        path.len() > 0,
        path[0] == '/',
    ensures
        authority_and_path(authority + path) == (authority, path),
{
    let rest = authority + path;
    assert(rest =~= authority + seq!['/'] + path.skip(1));
    text::lemma_first_char(authority, '/', path.skip(1));
    assert(rest.take(authority.len() as int) =~= authority);
    assert(rest.skip(authority.len() as int) =~= path);
}

proof fn lemma_scheme(secure: bool, rest: Seq<char>)
    ensures
        secure ==> scheme_of("https://"@ + rest) == Some((Scheme::Https, rest, 443nat)),
        !secure ==> scheme_of("http://"@ + rest) == Some((Scheme::Http, rest, 80nat)),
{
    reveal_strlit("http://");
    reveal_strlit("https://");
    let s = "https://"@ + rest;
    let h = "http://"@ + rest;
    assert(s.subrange(0, 8) =~= "https://"@);
    assert(h.subrange(0, 7) =~= "http://"@);
    assert(s.subrange(0, 7)[4] == 's');
    assert(s.skip(8) =~= rest);
    assert(h.skip(7) =~= rest);
}

/// The request that is sent names the leaf by what the leaf itself holds: the digest
/// of the issuer name that it encodes, the digest of the issuer's key bits, and its
/// serial number. It is POSTed with its length to the host and path of the responder.
pub proof fn law_query_names_the_leaf(leaf: CertificateView, issuer: CertificateView)
    requires
        sha1_digest(leaf.summary.issuer_raw).len() == 20,
        sha1_digest(issuer.summary.key_data).len() == 20,
        leaf.summary.serial.len() < 0x7fff_ffff,
        query_for(leaf, issuer) is Ok,
        query_for(leaf, issuer)->Ok_0 is Ask,
    ensures
        ({
            let q = query_for(leaf, issuer)->Ok_0;
            let path = url_parts(responder_of(leaf.extensions)->0)->Ok_0.3;
            exists|head: Seq<u8>, body: Seq<u8>|
                {
                    let items = unwrapped(body, 5)->0;
                    let parts = der::children_of(items);
                    &&& q->request == #[trigger] (head + body)
                    &&& responder_of(leaf.extensions) is Some
                    &&& url_parts(responder_of(leaf.extensions)->0) == Ok::<
                        (Scheme, Seq<char>, nat, Seq<char>),
                        ErrorView,
                    >((q->scheme, q->host, q->port, path))
                    &&& head == utf8::encode_utf8(
                        http::request_head(
                            "POST"@,
                            q->host,
                            path,
                            seq![
                                ("Content-Type"@, "application/ocsp-request"@),
                                ("Accept"@, "application/ocsp-response"@),
                            ],
                            Some(body.len()),
                        ),
                    )
                    &&& unwrapped(body, 5) is Some
                    &&& parts.len() == 4
                    &&& parts[0].tag == 0x30
                    &&& parts[0].content == seq![
                        0x06u8,
                        0x05,
                        0x2b,
                        0x0e,
                        0x03,
                        0x02,
                        0x1a,
                        0x05,
                        0x00,
                    ]
                    &&& parts[1].tag == 0x04
                    &&& parts[1].content == sha1_digest(leaf.summary.issuer_raw)
                    &&& parts[2].tag == 0x04
                    &&& parts[2].content == sha1_digest(issuer.summary.key_data)
                    &&& parts[3].tag == 0x02
                    &&& der::be_value(parts[3].content) == der::be_value(leaf.summary.serial)
                    &&& parts[3].content[0] < 0x80
                }
        }),
{
    let q = query_for(leaf, issuer)->Ok_0;
    let name_hash = sha1_digest(leaf.summary.issuer_raw);
    let key_hash = sha1_digest(issuer.summary.key_data);
    let serial = leaf.summary.serial;
    let body = request_of(leaf, issuer);
    let (scheme, host, port, path) = url_parts(responder_of(leaf.extensions)->0)->Ok_0;
    let fields = seq![
        ("Content-Type"@, "application/ocsp-request"@),
        ("Accept"@, "application/ocsp-response"@),
    ];
    let head = utf8::encode_utf8(
        http::request_head("POST"@, q->host, path, fields, Some(body.len())),
    );
    lemma_identifies(name_hash, key_hash, serial);
    assert(fields =~= request_fields());
    assert(q->request == head + body);
}

proof fn lemma_identifies(name_hash: Seq<u8>, key_hash: Seq<u8>, serial: Seq<u8>)
    requires
        name_hash.len() == 20,
        key_hash.len() == 20,
        serial.len() < 0x7fff_ffff,
    ensures
        identifies(request_for(name_hash, key_hash, serial), name_hash, key_hash, serial),
{
    lemma_request_is_short(name_hash, key_hash, serial);
    law_request_names_its_certificate(name_hash, key_hash, serial);
    let list = cert_id_list(name_hash, key_hash, serial);
    lemma_cert_id_items(name_hash, key_hash, serial);
    lemma_items_are_short(name_hash, key_hash, serial);
    lemma_children(list);
    let parts = der::children_of(unwrapped(request_for(name_hash, key_hash, serial), 5)->0);
    assert(parts[0].content == list[0].1);
    assert(list[0].1 =~= seq![0x06u8, 0x05, 0x2b, 0x0e, 0x03, 0x02, 0x1a, 0x05, 0x00]);
    assert(parts[3].content == list[3].1);
    der::law_integer_keeps_value(serial);
}

proof fn lemma_items_are_short(name_hash: Seq<u8>, key_hash: Seq<u8>, serial: Seq<u8>)
    requires
        name_hash.len() == 20,
        key_hash.len() == 20,
        serial.len() < 0x7fff_ffff,
    ensures
        cert_id_items(name_hash, key_hash, serial).len() < 0x7fff_ffff + 100,
{
    der::lemma_encoding_len(0x04, name_hash);
    der::lemma_encoding_len(0x04, key_hash);
    der::lemma_encoding_len(0x02, der::integer_content(serial));
    assert(der::ALGID_SHA1@.len() == 11);
}

proof fn lemma_request_is_short(name_hash: Seq<u8>, key_hash: Seq<u8>, serial: Seq<u8>)
    requires
        name_hash.len() == 20,
        key_hash.len() == 20,
        serial.len() < 0x7fff_ffff,
    ensures
        tbs_request(name_hash, key_hash, serial).len() < der::readable_limit(),
{
    let items = cert_id_items(name_hash, key_hash, serial);
    let s1 = der::encoding(0x30, items);
    let s2 = der::encoding(0x30, s1);
    let s3 = der::encoding(0x30, s2);
    lemma_items_are_short(name_hash, key_hash, serial);
    der::lemma_encoding_len(0x30, items);
    der::lemma_encoding_len(0x30, s1);
    der::lemma_encoding_len(0x30, s2);
    der::lemma_encoding_len(0x30, s3);
}

/// Of the issuer's certificate, the key bits alone play a part in what is asked: two
/// issuers with the same key are asked about in the same way, whatever their names.
pub proof fn law_issuer_counts_by_its_key(
    leaf: CertificateView,
    issuer: CertificateView,
    other: CertificateView,
)
    requires
        issuer.summary.key_data == other.summary.key_data,
    ensures
        query_for(leaf, issuer) == query_for(leaf, other),
        request_of(leaf, issuer) == request_of(leaf, other),
{
}

/// Of the leaf, its extensions, the issuer name that it encodes and its serial number
/// alone play a part in what is asked.
pub proof fn law_leaf_counts_by_name_and_serial(
    leaf: CertificateView,
    other: CertificateView,
    issuer: CertificateView,
)
    requires
        leaf.extensions == other.extensions,
        leaf.summary.issuer_raw == other.summary.issuer_raw,
        leaf.summary.serial == other.summary.serial,
    ensures
        query_for(leaf, issuer) == query_for(other, issuer),
        request_of(leaf, issuer) == request_of(other, issuer),
{
}

/// What a chain calls for: nothing without an issuer; else the first certificate is
/// asked about, with the second as its issuer, and no further one plays a part. What
/// cannot be read of these two is an error, of the first before the second.
pub proof fn law_first_two_certificates_count(
    first: Seq<u8>,
    second: Seq<u8>,
    others: Seq<Seq<u8>>,
)
    ensures
        query_of(seq![]) == Ok::<QueryView, ErrorView>(
            QueryView::Settled("No issuer certificate in chain"@),
        ),
        query_of(seq![first]) == Ok::<QueryView, ErrorView>(
            QueryView::Settled("No issuer certificate in chain"@),
        ),
        ({
            let q = query_of(seq![first, second] + others);
            match x509::certificate_of(first) {
                Err(e) => q == Err::<QueryView, ErrorView>(e),
                Ok(leaf) => match x509::certificate_of(second) {
                    Err(e) => q == Err::<QueryView, ErrorView>(e),
                    Ok(issuer) => q == query_for(leaf, issuer),
                },
            }
        }),
{
    let chain = seq![first, second] + others;
    assert(chain[0] == first);
    assert(chain[1] == second);
}

/// The first location of an OCSP responder is the one that is asked: after extensions
/// that name none, and after entries of other methods or without a URI.
pub proof fn law_first_responder_is_asked(
    before: Seq<ExtensionView>,
    passed: Seq<AccessView>,
    uri: Seq<char>,
    others: Seq<AccessView>,
    after: Seq<ExtensionView>,
)
    requires
        forall|i: int, j: int|
            #![trigger before[i]->AuthorityInfoAccess_0[j]]
            0 <= i < before.len() && before[i] is AuthorityInfoAccess && 0 <= j
                < before[i]->AuthorityInfoAccess_0.len() ==> !(
            before[i]->AuthorityInfoAccess_0[j].method == "1.3.6.1.5.5.7.48.1"@
                && before[i]->AuthorityInfoAccess_0[j].uri is Some),
        forall|i: int|
            0 <= i < passed.len() ==> !((#[trigger] passed[i]).method == "1.3.6.1.5.5.7.48.1"@
                && passed[i].uri is Some),
    ensures
        responder_of(
            before + seq![
                ExtensionView::AuthorityInfoAccess(
                    passed + seq![
                        AccessView { method: "1.3.6.1.5.5.7.48.1"@, uri: Some(uri) },
                    ] + others,
                ),
            ] + after,
        ) == Some(uri),
        responder_of(before) is None,
    decreases before.len(),
{
    let entry = AccessView { method: "1.3.6.1.5.5.7.48.1"@, uri: Some(uri) };
    let here = ExtensionView::AuthorityInfoAccess(passed + seq![entry] + others);
    let all = before + seq![here] + after;
    if before.len() == 0 {
        assert(all[0] == here);
        lemma_first_entry(passed, uri, others);
    } else {
        let fewer = before.skip(1);
        assert(all[0] == before[0]);
        assert(all.skip(1) =~= fewer + seq![here] + after);
        match before[0] {
            ExtensionView::AuthorityInfoAccess(entries) => {
                assert forall|j: int| 0 <= j < entries.len() implies !((
                #[trigger] entries[j]).method == OID_AD_OCSP@ && entries[j].uri is Some) by {
                    assert(before[0]->AuthorityInfoAccess_0[j] == entries[j]);
                }
                lemma_entry(entries);
            },
            _ => {},
        }
        assert forall|i: int, j: int|
            #![trigger fewer[i]->AuthorityInfoAccess_0[j]]
            0 <= i < fewer.len() && fewer[i] is AuthorityInfoAccess && 0 <= j
                < fewer[i]->AuthorityInfoAccess_0.len() implies !(
        fewer[i]->AuthorityInfoAccess_0[j].method == "1.3.6.1.5.5.7.48.1"@
            && fewer[i]->AuthorityInfoAccess_0[j].uri is Some) by {
            assert(fewer[i] == before[i + 1]);
            assert(before[i + 1]->AuthorityInfoAccess_0[j] == fewer[i]->AuthorityInfoAccess_0[j]);
        }
        law_first_responder_is_asked(fewer, passed, uri, others, after);
    }
}

proof fn lemma_first_entry(passed: Seq<AccessView>, uri: Seq<char>, others: Seq<AccessView>)
    requires
        forall|i: int|
            0 <= i < passed.len() ==> !((#[trigger] passed[i]).method == OID_AD_OCSP@
                && passed[i].uri is Some),
    ensures
        responder_among(
            passed + seq![AccessView { method: OID_AD_OCSP@, uri: Some(uri) }] + others,
        ) == Some(uri),
    decreases passed.len(),
{
    let entry = AccessView { method: OID_AD_OCSP@, uri: Some(uri) };
    let all = passed + seq![entry] + others;
    if passed.len() == 0 {
        assert(all[0] == entry);
    } else {
        let fewer = passed.skip(1);
        assert(all[0] == passed[0]);
        assert(all.skip(1) =~= fewer + seq![entry] + others);
        assert forall|i: int| 0 <= i < fewer.len() implies !((#[trigger] fewer[i]).method
            == OID_AD_OCSP@ && fewer[i].uri is Some) by {
            assert(fewer[i] == passed[i + 1]);
        }
        lemma_first_entry(fewer, uri, others);
    }
}

/// A URL's port is what follows the last colon of its authority, where that is a port
/// number, and else that of its scheme; its host is what stands before that colon. Its
/// path starts at the first slash, and is a slash where there is none.
pub proof fn law_last_colon_starts_the_port(
    secure: bool,
    host: Seq<char>,
    port: Seq<char>,
    path: Seq<char>,
)
    requires
        !host.contains('/'),
        !port.contains('/'),
        !port.contains(':'),
        path.len() > 0 ==> path[0] == '/',
    ensures
        ({
            let prefix = if secure {
                "https://"@
            } else {
                "http://"@
            };
            let number = match text::number(port, 10, 65535) {
                Some(n) => n,
                None => if secure {
                    443
                } else {
                    80
                },
            };
            url_parts(prefix + host + ":"@ + port + path) == Ok::<
                (Scheme, Seq<char>, nat, Seq<char>),
                ErrorView,
            >(
                (
                    if secure {
                        Scheme::Https
                    } else {
                        Scheme::Http
                    },
                    host,
                    number,
                    if path.len() > 0 {
                        path
                    } else {
                        "/"@
                    },
                ),
            )
        }),
{
    let prefix = if secure {
        "https://"@
    } else {
        "http://"@
    };
    let authority = host + ":"@ + port;
    reveal_strlit(":");
    assert(":"@ =~= seq![':']);
    assert(authority =~= host + seq![':'] + port);
    assert forall|i: int| 0 <= i < authority.len() implies authority[i] != '/' by {
        if i < host.len() {
            assert(host.contains(host[i]));
        } else if i > host.len() {
            assert(port.contains(port[i - host.len() - 1]));
        }
    }
    let default: nat = if secure {
        443
    } else {
        80
    };
    let rest = authority + path;
    assert(host_and_port(authority, default) == (
        host,
        match text::number(port, 10, 65535) {
            Some(n) => n,
            None => default,
        },
    )) by {
        text::law_around_last(host, ':', port);
    }
    lemma_scheme(secure, rest);
    assert(prefix + host + ":"@ + port + path =~= prefix + rest);
    let shown = if path.len() > 0 {
        path
    } else {
        "/"@
    };
    assert(authority_and_path(rest) == (authority, shown)) by {
        if path.len() > 0 {
            lemma_authority(authority, path);
        } else {
            assert(rest =~= authority);
            text::lemma_no_char(authority, '/');
        }
    }
}

/// A URL of any other scheme is refused by its text.
pub proof fn law_other_schemes_are_refused(url: Seq<char>)
    requires
        !exists|rest: Seq<char>| url == #[trigger] ("http://"@ + rest),
        !exists|rest: Seq<char>| url == #[trigger] ("https://"@ + rest),
    ensures
        url_parts(url) == Err::<(Scheme, Seq<char>, nat, Seq<char>), ErrorView>(
            ErrorView::Http("unsupported OCSP URL: "@ + url),
        ),
{
    text::law_begins(url, "http://"@);
    text::law_begins(url, "https://"@);
}

/// The tag of a `certStatus`: good is the context tag 0, revoked the constructed
/// context tag 1, and everything else is unknown.
pub proof fn law_status_tags(tag: u8)
    ensures
        status_of_tag(tag) == CertStatus::Good <==> tag == 0x80,
        status_of_tag(tag) == CertStatus::Revoked <==> tag == 0xa1,
        status_of_tag(tag) != CertStatus::ResponderError,
{
}

/// Whether a walk through a response ends at the given tag: the second element of
/// the first response in element `k` of the response data, which is the first plain
/// `SEQUENCE` there.
pub open spec fn walk_ends_at(response: Seq<u8>, k: int, tag: u8) -> bool {
    &&& der::front_of(response) is Some
    &&& {
        let top = der::children_of(der::front_of(response)->0.content);
        &&& top.len() >= 2
        &&& der::front_of(top[1].content) is Some
        &&& {
            let bytes = der::children_of(der::front_of(top[1].content)->0.content);
            &&& bytes.len() >= 2
            &&& der::front_of(bytes[1].content) is Some
            &&& {
                let basic = der::children_of(der::front_of(bytes[1].content)->0.content);
                &&& basic.len() >= 1
                &&& {
                    let data = der::children_of(basic[0].content);
                    &&& 0 <= k < data.len()
                    &&& data[k].tag == 0x30
                    &&& forall|i: int| 0 <= i < k ==> (#[trigger] data[i]).tag != 0x30
                    &&& {
                        let list = der::children_of(data[k].content);
                        &&& list.len() >= 1
                        &&& {
                            let single = der::children_of(list[0].content);
                            single.len() >= 2 && single[1].tag == tag
                        }
                    }
                }
            }
        }
    }
}

/// Whether a response says that it is successful: its first element is an enumerated
/// value that starts with zero.
pub open spec fn is_successful(response: Seq<u8>) -> bool {
    let top = der::children_of(der::front_of(response)->0.content);
    top[0].tag == 0x0a && top[0].content.len() > 0 && top[0].content[0] == 0
}

/// What a response gives, whatever its octets. Without a first element it is
/// malformed. Where that element does not say success, it is a refusal, whatever
/// follows. Else it gives the status at the end of the walk, and is malformed where
/// the walk has no end.
pub proof fn law_every_response_is_walked(response: Seq<u8>)
    ensures
        ({
            let readable = der::front_of(response) is Some && der::children_of(
                der::front_of(response)->0.content,
            ).len() > 0;
            &&& !readable ==> walked(response) == Err::<CertStatus, ErrorView>(
                ErrorView::Http("malformed OCSP response"@),
            )
            &&& readable && !is_successful(response) ==> walked(response) == Ok::<
                CertStatus,
                ErrorView,
            >(CertStatus::ResponderError)
            &&& readable && is_successful(response) ==> {
                &&& forall|k: int, tag: u8| #[trigger]
                    walk_ends_at(response, k, tag) ==> walked(response) == Ok::<
                        CertStatus,
                        ErrorView,
                    >(
                        if tag == 0x80 {
                            CertStatus::Good
                        } else if tag == 0xa1 {
                            CertStatus::Revoked
                        } else {
                            CertStatus::Unknown
                        },
                    )
                &&& (!exists|k: int, tag: u8| #[trigger] walk_ends_at(response, k, tag))
                    ==> walked(response) == Err::<CertStatus, ErrorView>(
                    ErrorView::Http("malformed OCSP response"@),
                )
            }
        }),
{
    if der::front_of(response) is Some {
        let top = der::children_of(der::front_of(response)->0.content);
        if top.len() >= 2 && is_successful(response) && der::front_of(top[1].content) is Some {
            let bytes = der::children_of(der::front_of(top[1].content)->0.content);
            if bytes.len() >= 2 && der::front_of(bytes[1].content) is Some {
                let basic = der::children_of(der::front_of(bytes[1].content)->0.content);
                if basic.len() >= 1 {
                    let data = der::children_of(basic[0].content);
                    lemma_first_sequence_found(data);
                    assert forall|k: int, tag: u8| #[trigger]
                        walk_ends_at(response, k, tag) implies first_sequence(data) == Some(
                        data[k],
                    ) by {
                        lemma_first_sequence(data, k as nat);
                    }
                    match first_sequence(data) {
                        Some(t) => {
                            let k = choose|k: int|
                                0 <= k < data.len() && #[trigger] data[k] == t && t.tag == 0x30 && (
                                forall|i: int| 0 <= i < k ==> (#[trigger] data[i]).tag != 0x30);
                            let list = der::children_of(t.content);
                            if list.len() >= 1 {
                                let single = der::children_of(list[0].content);
                                if single.len() >= 2 {
                                    assert(walk_ends_at(response, k, single[1].tag));
                                }
                            }
                        },
                        None => {},
                    }
                }
            }
        }
    }
}

proof fn lemma_first_sequence_found(elements: Seq<der::TlvView>)
    ensures
        match first_sequence(elements) {
            Some(t) => exists|k: int|
                0 <= k < elements.len() && #[trigger] elements[k] == t && t.tag == 0x30 && (forall|
                    i: int,
                |
                    0 <= i < k ==> (#[trigger] elements[i]).tag != 0x30),
            None => forall|i: int| 0 <= i < elements.len() ==> (#[trigger] elements[i]).tag != 0x30,
        },
    decreases elements.len(),
{
    if elements.len() > 0 {
        let rest = elements.skip(1);
        if elements[0].tag == 0x30 {
            assert(elements[0] == first_sequence(elements)->0);
        } else {
            lemma_first_sequence_found(rest);
            match first_sequence(rest) {
                Some(t) => {
                    let k = choose|k: int|
                        0 <= k < rest.len() && #[trigger] rest[k] == t && t.tag == 0x30 && (forall|
                            i: int,
                        |
                            0 <= i < k ==> (#[trigger] rest[i]).tag != 0x30);
                    assert(elements[k + 1] == t);
                    assert forall|i: int| 0 <= i < k + 1 implies (#[trigger] elements[i]).tag
                        != 0x30 by {
                        if i > 0 {
                            assert(rest[i - 1] == elements[i]);
                        }
                    }
                },
                None => {
                    assert forall|i: int| 0 <= i < elements.len() implies (
                    #[trigger] elements[i]).tag != 0x30 by {
                        if i > 0 {
                            assert(rest[i - 1] == elements[i]);
                        }
                    }
                },
            }
        }
    }
}

/// An answer is the name of its status where the exchange succeeded, and names the
/// HTTP status where it did not, whatever the body. A malformed body is an error.
pub proof fn law_answers_are_named(
    headers: Seq<(Seq<char>, Seq<char>)>,
    body: Seq<u8>,
    status: nat,
)
    ensures
        ({
            let a = answer_of(ResponseView { status: 200, headers, body });
            match walked(body) {
                Ok(CertStatus::Good) => a == Ok::<Seq<char>, ErrorView>("Good"@),
                Ok(CertStatus::Revoked) => a == Ok::<Seq<char>, ErrorView>("Revoked"@),
                Ok(CertStatus::Unknown) => a == Ok::<Seq<char>, ErrorView>("Unknown"@),
                Ok(CertStatus::ResponderError) => a == Ok::<Seq<char>, ErrorView>(
                    "Responder error"@,
                ),
                Err(e) => a == Err::<Seq<char>, ErrorView>(e),
            }
        }),
        status != 200 ==> answer_of(ResponseView { status, headers, body }) == Ok::<
            Seq<char>,
            ErrorView,
        >("Responder returned HTTP "@ + text::decimal(status)),
{
}

/// A status is rendered as it is, and a failure as its message after a notice.
pub proof fn law_failures_are_rendered(status: Seq<char>, e: ErrorView)
    ensures
        rendered(Ok(status)) == status,
        rendered(Err(e)) == "Check failed: "@ + error::error_text(e),
{
}

/// A leaf that names a responder is asked about exactly where the responder's URL can
/// be used, and what is wrong with the URL is the error where it cannot.
pub proof fn law_responder_url_decides(leaf: CertificateView, issuer: CertificateView)
    requires
        responder_of(leaf.extensions) is Some,
    ensures
        ({
            let url = responder_of(leaf.extensions)->0;
            match url_parts(url) {
                Ok((scheme, host, port, path)) => {
                    &&& query_for(leaf, issuer) is Ok
                    &&& query_for(leaf, issuer)->Ok_0 is Ask
                    &&& query_for(leaf, issuer)->Ok_0->scheme == scheme
                    &&& query_for(leaf, issuer)->Ok_0->host == host
                    &&& query_for(leaf, issuer)->Ok_0->port == port
                },
                Err(e) => query_for(leaf, issuer) == Err::<QueryView, ErrorView>(e),
            }
        }),
{
}

/// A leaf that names no responder settles the matter, whatever its issuer.
pub proof fn law_no_responder_settles_the_query(leaf: CertificateView, issuer: CertificateView)
    requires
        responder_of(leaf.extensions) is None,
    ensures
        query_for(leaf, issuer) == Ok::<QueryView, ErrorView>(
            QueryView::Settled("No OCSP responder in certificate"@),
        ),
{
}

/// The request that is built identifies the leaf: by the digest of the issuer name that
/// the leaf encodes, by the digest of the issuer's key bits and by the leaf's serial
/// number. A second issuer with the same key bits gives the same request.
pub proof fn law_built_request_identifies_the_leaf(
    leaf: Certificate,
    issuer: Certificate,
    other: Certificate,
    r: Vec<u8>,
    same: Vec<u8>,
)
    requires
        call_ensures(build_request, (&leaf, &issuer), r),
        call_ensures(build_request, (&leaf, &other), same),
        leaf.summary.serial@.len() < 0x7fff_ffff,
    ensures
        ({
            let parts = der::children_of(unwrapped(r@, 5)->0);
            &&& unwrapped(r@, 5) is Some
            &&& parts.len() == 4
            &&& parts[1].tag == 0x04
            &&& parts[1].content == sha1_digest(leaf.summary.issuer_raw@)
            &&& parts[2].tag == 0x04
            &&& parts[2].content == sha1_digest(issuer.summary.key_data@)
            &&& parts[3].tag == 0x02
            &&& der::be_value(parts[3].content) == der::be_value(leaf.summary.serial@)
        }),
        issuer.summary.key_data@ == other.summary.key_data@ ==> r@ == same@,
{
}

} // verus!
