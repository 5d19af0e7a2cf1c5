//! What can go wrong during a scan.

use crate::text;
use vstd::prelude::*;

verus! {

/// Everything a scan can fail with. What a transport or a parser reported is
/// kept as the text it reported.
#[derive(Debug)]
pub enum ScanError {
    Connection(String),
    Tls(String),
    CertParse(String),
    Timeout,
    Http(String),
    InvalidName(String),
    Json(String),
}

/// A [`ScanError`] with its text as a sequence of characters.
pub enum ErrorView {
    Connection(Seq<char>),
    Tls(Seq<char>),
    CertParse(Seq<char>),
    Timeout,
    Http(Seq<char>),
    InvalidName(Seq<char>),
    Json(Seq<char>),
}

impl View for ScanError {
    type V = ErrorView;

    open spec fn view(&self) -> ErrorView {
        match self {
            ScanError::Connection(s) => ErrorView::Connection(s@),
            ScanError::Tls(s) => ErrorView::Tls(s@),
            ScanError::CertParse(s) => ErrorView::CertParse(s@),
            ScanError::Timeout => ErrorView::Timeout,
            ScanError::Http(s) => ErrorView::Http(s@),
            ScanError::InvalidName(s) => ErrorView::InvalidName(s@),
            ScanError::Json(s) => ErrorView::Json(s@),
        }
    }
}

/// The error as a user reads it: what failed, then what was reported.
pub open spec fn error_text(e: ErrorView) -> Seq<char> {
    match e {
        ErrorView::Connection(s) => "Connection failed: "@ + s,
        ErrorView::Tls(s) => "TLS error: "@ + s,
        ErrorView::CertParse(s) => "Certificate parse error: "@ + s,
        ErrorView::Timeout => "Timeout"@,
        ErrorView::Http(s) => "HTTP error: "@ + s,
        ErrorView::InvalidName(s) => "Invalid server name: "@ + s,
        ErrorView::Json(s) => "JSON error: "@ + s,
    }
}

impl ScanError {
    /// The error as a user reads it.
    pub fn message(&self) -> (r: String)
        ensures
            r@ == error_text(self@),
    {
        match self {
            ScanError::Connection(s) => text::prefixed("Connection failed: ", s.as_str()),
            ScanError::Tls(s) => text::prefixed("TLS error: ", s.as_str()),
            ScanError::CertParse(s) => text::prefixed("Certificate parse error: ", s.as_str()),
            ScanError::Timeout => "Timeout".to_string(),
            ScanError::Http(s) => text::prefixed("HTTP error: ", s.as_str()),
            ScanError::InvalidName(s) => text::prefixed("Invalid server name: ", s.as_str()),
            ScanError::Json(s) => text::prefixed("JSON error: ", s.as_str()),
        }
    }
}

/// What a result holds: its value as it is, or the view of its error.
pub open spec fn result_view<T>(r: Result<T, ScanError>) -> Result<T, ErrorView> {
    match r {
        Ok(v) => Ok(v),
        Err(e) => Err(e@),
    }
}

/// A message names what failed, and ends with the text that was reported.
pub proof fn law_messages_name_what_failed(s: Seq<char>)
    ensures
        error_text(ErrorView::Connection(s)) == "Connection failed: "@ + s,
        error_text(ErrorView::Tls(s)) == "TLS error: "@ + s,
        error_text(ErrorView::CertParse(s)) == "Certificate parse error: "@ + s,
        error_text(ErrorView::Timeout) == "Timeout"@,
        error_text(ErrorView::Http(s)) == "HTTP error: "@ + s,
        error_text(ErrorView::InvalidName(s)) == "Invalid server name: "@ + s,
        error_text(ErrorView::Json(s)) == "JSON error: "@ + s,
{
}

} // verus!
