//! Certificates as plain values.
//!
//! `x509_parser` does the parsing. What the checks read of a certificate is
//! copied into types of this module, one value for one value; every decision on
//! those values is made elsewhere.

use crate::error::{ErrorView, ScanError};
use crate::text;
use vstd::prelude::*;
use x509_parser::extensions::{GeneralName, ParsedExtension};

verus! {

/// The parts of a certificate that every certificate has. Object identifiers are
/// in dotted form.
#[derive(Debug)]
pub struct Summary {
    pub subject: String,
    pub issuer: String,
    /// The issuer's distinguished name as it is encoded.
    pub issuer_raw: Vec<u8>,
    /// The octets of the serial number.
    pub serial: Vec<u8>,
    pub not_before: String,
    pub not_after: String,
    /// The end of the validity window in seconds since 1970.
    pub expires: i64,
    pub key_algorithm: String,
    /// The bits of the subject's public key.
    pub key_data: Vec<u8>,
    pub signature_algorithm: String,
}

/// What a [`Summary`] holds.
pub struct SummaryView {
    pub subject: Seq<char>,
    pub issuer: Seq<char>,
    pub issuer_raw: Seq<u8>,
    pub serial: Seq<u8>,
    pub not_before: Seq<char>,
    pub not_after: Seq<char>,
    pub expires: int,
    pub key_algorithm: Seq<char>,
    pub key_data: Seq<u8>,
    pub signature_algorithm: Seq<char>,
}

impl View for Summary {
    type V = SummaryView;

    open spec fn view(&self) -> SummaryView {
        SummaryView {
            subject: self.subject@,
            issuer: self.issuer@,
            issuer_raw: self.issuer_raw@,
            serial: self.serial@,
            not_before: self.not_before@,
            not_after: self.not_after@,
            expires: self.expires as int,
            key_algorithm: self.key_algorithm@,
            key_data: self.key_data@,
            signature_algorithm: self.signature_algorithm@,
        }
    }
}

/// A subject alternative name: a host name, an address as it is encoded, or any
/// other kind.
#[derive(Debug)]
pub enum AltName {
    Dns(String),
    Ip(Vec<u8>),
    Other,
}

/// What an [`AltName`] holds.
pub enum AltNameView {
    Dns(Seq<char>),
    Ip(Seq<u8>),
    Other,
}

impl View for AltName {
    type V = AltNameView;

    open spec fn view(&self) -> AltNameView {
        match self {
            AltName::Dns(s) => AltNameView::Dns(s@),
            AltName::Ip(b) => AltNameView::Ip(b@),
            AltName::Other => AltNameView::Other,
        }
    }
}

/// One entry of an Authority Information Access extension: the access method,
/// and the location where that is a URI.
#[derive(Debug)]
pub struct AccessDescription {
    pub method: String,
    pub uri: Option<String>,
}

/// What an [`AccessDescription`] holds.
pub struct AccessView {
    pub method: Seq<char>,
    pub uri: Option<Seq<char>>,
}

impl View for AccessDescription {
    type V = AccessView;

    open spec fn view(&self) -> AccessView {
        AccessView { method: self.method@, uri: text::option_view(self.uri) }
    }
}

/// An extension: the entries of Authority Information Access, the policies of
/// Certificate Policies, or any other.
#[derive(Debug)]
pub enum Extension {
    AuthorityInfoAccess(Vec<AccessDescription>),
    CertificatePolicies(Vec<String>),
    Other,
}

/// What an [`Extension`] holds.
pub enum ExtensionView {
    AuthorityInfoAccess(Seq<AccessView>),
    CertificatePolicies(Seq<Seq<char>>),
    Other,
}

/// What a list of access descriptions holds.
pub open spec fn access_views(v: Seq<AccessDescription>) -> Seq<AccessView> {
    Seq::new(v.len(), |i: int| v[i]@)
}

impl View for Extension {
    type V = ExtensionView;

    open spec fn view(&self) -> ExtensionView {
        match self {
            Extension::AuthorityInfoAccess(v) => ExtensionView::AuthorityInfoAccess(
                access_views(v@),
            ),
            Extension::CertificatePolicies(v) => ExtensionView::CertificatePolicies(
                text::string_views(v@),
            ),
            Extension::Other => ExtensionView::Other,
        }
    }
}

/// What a list of alternative names holds.
pub open spec fn alt_name_views(v: Seq<AltName>) -> Seq<AltNameView> {
    Seq::new(v.len(), |i: int| v[i]@)
}

/// What a list of extensions holds.
pub open spec fn extension_views(v: Seq<Extension>) -> Seq<ExtensionView> {
    Seq::new(v.len(), |i: int| v[i]@)
}

/// A certificate.
#[derive(Debug)]
pub struct Certificate {
    pub summary: Summary,
    /// The size of the public key in bits; zero where it is not known.
    pub key_size: usize,
    pub alt_names: Vec<AltName>,
    pub extensions: Vec<Extension>,
    /// The types of the attributes in the subject's name.
    pub subject_attributes: Vec<String>,
}

/// What a [`Certificate`] holds.
pub struct CertificateView {
    pub summary: SummaryView,
    pub key_size: nat,
    pub alt_names: Seq<AltNameView>,
    pub extensions: Seq<ExtensionView>,
    pub subject_attributes: Seq<Seq<char>>,
}

impl View for Certificate {
    type V = CertificateView;

    open spec fn view(&self) -> CertificateView {
        CertificateView {
            summary: self.summary@,
            key_size: self.key_size as nat,
            alt_names: alt_name_views(self.alt_names@),
            extensions: extension_views(self.extensions@),
            subject_attributes: text::string_views(self.subject_attributes@),
        }
    }
}

/// What `x509_parser::parse_x509_certificate` makes of octets: the summary of
/// the certificate they start with, or the text of its error.
pub uninterp spec fn parsed_summary(der: Seq<u8>) -> Result<SummaryView, Seq<char>>;

/// `x509_parser::parse_x509_certificate`, and the accessors `subject`, `issuer`,
/// `raw_serial`, `validity` and `public_key` of what it returns. The result
/// depends on the octets alone.
#[verifier::external_body]
fn parse_summary(der: &[u8]) -> (r: Result<Summary, String>)
    ensures
        match r {
            Ok(s) => parsed_summary(der@) == Ok::<SummaryView, Seq<char>>(s@),
            Err(e) => parsed_summary(der@) == Err::<SummaryView, Seq<char>>(e@),
        },
{
    let (_, c) = x509_parser::parse_x509_certificate(der).map_err(|e| e.to_string())?;
    Ok(Summary {
        subject: c.subject().to_string(),
        issuer: c.issuer().to_string(),
        issuer_raw: c.issuer().as_raw().to_vec(),
        serial: c.raw_serial().to_vec(),
        not_before: c.validity().not_before.to_datetime().to_string(),
        not_after: c.validity().not_after.to_datetime().to_string(),
        expires: c.validity().not_after.to_datetime().unix_timestamp(),
        key_algorithm: c.public_key().algorithm.algorithm.to_string(),
        key_data: c.public_key().subject_public_key.data.to_vec(),
        signature_algorithm: c.signature_algorithm.algorithm.to_string(),
    })
}

/// What `TbsCertificate::subject_alternative_name` returns for the certificate
/// that octets start with.
pub uninterp spec fn parsed_alt_names(der: Seq<u8>) -> Option<Seq<AltNameView>>;

/// `TbsCertificate::subject_alternative_name` of `x509_parser`: the names in the
/// order of the extension; nothing where the certificate does not parse or the
/// extension is missing, malformed or repeated. The result depends on the octets
/// alone.
#[verifier::external_body]
fn parse_alt_names(der: &[u8]) -> (r: Option<Vec<AltName>>)
    ensures
        match r {
            Some(v) => parsed_alt_names(der@) == Some(alt_name_views(v@)),
            None => parsed_alt_names(der@) is None,
        },
{
    let (_, c) = x509_parser::parse_x509_certificate(der).ok()?;
    let extension = c.subject_alternative_name().ok()??;
    Some(extension.value.general_names.iter().map(|n| match n {
        GeneralName::DNSName(s) => AltName::Dns(s.to_string()),
        GeneralName::IPAddress(b) => AltName::Ip(b.to_vec()),
        _ => AltName::Other,
    }).collect())
}

/// What `TbsCertificate::extensions` returns for the certificate that octets
/// start with.
pub uninterp spec fn parsed_extensions(der: Seq<u8>) -> Option<Seq<ExtensionView>>;

/// `TbsCertificate::extensions` of `x509_parser`: one value for each extension,
/// in order; nothing where the certificate does not parse. The result depends on
/// the octets alone.
#[verifier::external_body]
fn parse_extensions(der: &[u8]) -> (r: Option<Vec<Extension>>)
    ensures
        match r {
            Some(v) => parsed_extensions(der@) == Some(extension_views(v@)),
            None => parsed_extensions(der@) is None,
        },
{
    let (_, c) = x509_parser::parse_x509_certificate(der).ok()?;
    Some(c.extensions().iter().map(|e| match e.parsed_extension() {
        ParsedExtension::AuthorityInfoAccess(a) => Extension::AuthorityInfoAccess(
            a.iter().map(|d| AccessDescription {
                method: d.access_method.to_string(),
                uri: match &d.access_location { GeneralName::URI(u) => Some(u.to_string()), _ => None },
            }).collect(),
        ),
        ParsedExtension::CertificatePolicies(p) => Extension::CertificatePolicies(
            p.iter().map(|i| i.policy_id.to_string()).collect(),
        ),
        _ => Extension::Other,
    }).collect())
}

/// The types of the attributes that `X509Name::iter_attributes` returns for the
/// subject of the certificate that octets start with.
pub uninterp spec fn parsed_subject_attributes(der: Seq<u8>) -> Option<Seq<Seq<char>>>;

/// `X509Name::iter_attributes` of `x509_parser` on the subject: the type of each
/// attribute, in order; nothing where the certificate does not parse. The result
/// depends on the octets alone.
#[verifier::external_body]
fn parse_subject_attributes(der: &[u8]) -> (r: Option<Vec<String>>)
    ensures
        match r {
            Some(v) => parsed_subject_attributes(der@) == Some(text::string_views(v@)),
            None => parsed_subject_attributes(der@) is None,
        },
{
    let (_, c) = x509_parser::parse_x509_certificate(der).ok()?;
    Some(c.subject().iter_attributes().map(|a| a.attr_type().to_string()).collect())
}

/// What `PublicKey::key_size` returns for the subject's key of the certificate
/// that octets start with.
pub uninterp spec fn parsed_key_size(der: Seq<u8>) -> Option<nat>;

/// `SubjectPublicKeyInfo::parsed` and `PublicKey::key_size` of `x509_parser`: the
/// size of the key in bits, or zero where the kind of key has none; nothing where
/// the certificate or its key does not parse. The result depends on the octets
/// alone.
#[verifier::external_body]
fn parse_key_size(der: &[u8]) -> (r: Option<usize>)
    ensures
        match r {
            Some(n) => parsed_key_size(der@) == Some(n as nat),
            None => parsed_key_size(der@) is None,
        },
{
    let (_, c) = x509_parser::parse_x509_certificate(der).ok()?;
    let size = c.public_key().parsed().ok()?.key_size();
    Some(size)
}

/// The certificate that octets start with. What the parser cannot give of it is
/// left out: no names, no extensions, no attributes, a key size of zero.
pub open spec fn certificate_of(der: Seq<u8>) -> Result<CertificateView, ErrorView> {
    match parsed_summary(der) {
        Err(e) => Err(ErrorView::CertParse(e)),
        Ok(summary) => Ok(
            CertificateView {
                summary,
                key_size: match parsed_key_size(der) {
                    Some(n) => n,
                    None => 0,
                },
                alt_names: match parsed_alt_names(der) {
                    Some(v) => v,
                    None => seq![],
                },
                extensions: match parsed_extensions(der) {
                    Some(v) => v,
                    None => seq![],
                },
                subject_attributes: match parsed_subject_attributes(der) {
                    Some(v) => v,
                    None => seq![],
                },
            },
        ),
    }
}

/// What reading a certificate gives.
pub open spec fn certificate_view(r: Result<Certificate, ScanError>) -> Result<
    CertificateView,
    ErrorView,
> {
    match r {
        Ok(c) => Ok(c@),
        Err(e) => Err(e@),
    }
}

impl Certificate {
    /// Read the certificate that `der` starts with.
    pub fn from_der(der: &[u8]) -> (r: Result<Certificate, ScanError>)
        ensures
            certificate_view(r) == certificate_of(der@),
    {
        let summary = match parse_summary(der) {
            Ok(s) => s,
            Err(e) => {
                return Err(ScanError::CertParse(e));
            },
        };
        let key_size: usize = match parse_key_size(der) {
            Some(n) => n,
            None => 0,
        };
        let alt_names = match parse_alt_names(der) {
            Some(v) => v,
            None => Vec::new(),
        };
        let extensions = match parse_extensions(der) {
            Some(v) => v,
            None => Vec::new(),
        };
        let subject_attributes = match parse_subject_attributes(der) {
            Some(v) => v,
            None => Vec::new(),
        };
        let c = Certificate { summary, key_size, alt_names, extensions, subject_attributes };
        proof {
            let wanted = certificate_of(der@)->Ok_0;
            assert(c@.alt_names =~= wanted.alt_names);
            assert(c@.extensions =~= wanted.extensions);
            assert(c@.subject_attributes =~= wanted.subject_attributes);
        }
        Ok(c)
    }
}

/// The subject of the certificate that octets start with, where they do.
pub open spec fn subject_of(der: Seq<u8>) -> Option<Seq<char>> {
    match parsed_summary(der) {
        Ok(summary) => Some(summary.subject),
        Err(_) => None,
    }
}

/// The subject of the certificate that `der` starts with, if it does.
pub fn leaf_subject(der: &[u8]) -> (r: Option<String>)
    ensures
        text::option_view(r) == subject_of(der@),
{
    match parse_summary(der) {
        Ok(summary) => Some(summary.subject),
        Err(_) => None,
    }
}

/// A certificate is what the parser reads of it, part by part; a part that the parser
/// cannot give is empty, and only the summary is needed.
pub proof fn law_certificate_is_what_was_parsed(der: Seq<u8>)
    ensures
        certificate_of(der) is Ok <==> parsed_summary(der) is Ok,
        parsed_summary(der) is Err ==> certificate_of(der) == Err::<CertificateView, ErrorView>(
            ErrorView::CertParse(parsed_summary(der)->Err_0),
        ),
        certificate_of(der) is Ok ==> {
            let c = certificate_of(der)->Ok_0;
            &&& c.summary == parsed_summary(der)->Ok_0
            &&& parsed_key_size(der) is Some ==> c.key_size == parsed_key_size(der)->0
            &&& parsed_key_size(der) is None ==> c.key_size == 0
            &&& parsed_alt_names(der) is Some ==> c.alt_names == parsed_alt_names(der)->0
            &&& parsed_alt_names(der) is None ==> c.alt_names.len() == 0
            &&& parsed_extensions(der) is Some ==> c.extensions == parsed_extensions(der)->0
            &&& parsed_extensions(der) is None ==> c.extensions.len() == 0
            &&& parsed_subject_attributes(der) is Some ==> c.subject_attributes
                == parsed_subject_attributes(der)->0
            &&& parsed_subject_attributes(der) is None ==> c.subject_attributes.len() == 0
        },
{
}

/// The subject alone is that of the certificate, and is there where the certificate is.
pub proof fn law_subject_is_of_the_certificate(der: Seq<u8>)
    ensures
        subject_of(der) is Some <==> certificate_of(der) is Ok,
        subject_of(der) is Some ==> subject_of(der)->0 == certificate_of(der)->Ok_0.summary.subject,
{
}

} // verus!
