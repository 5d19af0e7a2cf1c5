//! Certificate Transparency lookup via crt.sh.
//!
//! Asks `https://crt.sh/?q=<domain>&output=json` and reports the number of CT log
//! entries that crt.sh has indexed for the domain.

use crate::error::{ErrorView, ScanError};
use crate::scanner::http::{self, HttpResponse, ResponseView};
use crate::text;
use vstd::prelude::*;
use vstd::utf8;

verus! {

/// The host that is asked, over HTTPS.
pub const CT_HOST: &'static str = "crt.sh";

/// The port that is asked.
pub const CT_PORT: u16 = 443;

/// The request for the entries of a domain.
pub fn entry_request(domain: &str) -> (r: Vec<u8>)
    ensures
        r@ == utf8::encode_utf8(
            http::request_head(
                "GET"@,
                CT_HOST@,
                "/?q="@ + domain@ + "&output=json"@,
                seq![("Accept"@, "application/json"@)],
                None,
            ),
        ),
        CT_HOST@ == "crt.sh"@,
        CT_PORT == 443,
{
    let mut path = text::prefixed("/?q=", domain);
    path.append("&output=json");
    let fields: [(&str, &str); 1] = [("Accept", "application/json")];
    proof {
        assert(http::pair_views(fields@) =~= seq![("Accept"@, "application/json"@)]);
    }
    let r = http::request("GET", CT_HOST, path.as_str(), fields.as_slice(), None);
    proof {
        assert(r@ =~= utf8::encode_utf8(
            http::request_head("GET"@, CT_HOST@, path@, http::pair_views(fields@), None),
        ));
    }
    r
}

/// A JSON value of any kind.
#[verifier::external_type_specification]
#[verifier::external_body]
pub struct ExJsonValue(serde_json::Value);

/// What `serde_json::from_slice` makes of octets as an array: its length, or the
/// text of its error.
pub uninterp spec fn json_array(body: Seq<u8>) -> Result<nat, Seq<char>>;

/// `serde_json::from_slice` for an array of values of any kind. How many values
/// there are, and the text of the error, depend on the octets alone.
#[verifier::external_body]
fn parse_array(body: &[u8]) -> (r: Result<Vec<serde_json::Value>, String>)
    ensures
        match r {
            Ok(v) => json_array(body@) == Ok::<nat, Seq<char>>(v@.len()),
            Err(e) => json_array(body@) == Err::<nat, Seq<char>>(e@),
        },
{
    serde_json::from_slice(body).map_err(|e| e.to_string())
}

/// ASCII white space: space, tab, line feed, form feed and carriage return.
pub open spec fn blank(b: u8) -> bool {
    b == 0x20 || b == 0x09 || b == 0x0a || b == 0x0c || b == 0x0d
}

/// Whether octets are nothing but ASCII white space.
pub open spec fn all_blank(body: Seq<u8>) -> bool {
    forall|i: int| 0 <= i < body.len() ==> blank(#[trigger] body[i])
}

/// What counting gives.
pub open spec fn count_view(r: Result<usize, ScanError>) -> Result<nat, ErrorView> {
    match r {
        Ok(n) => Ok(n as nat),
        Err(e) => Err(e@),
    }
}

/// The number of entries that a parsed array gives.
pub open spec fn counted(parsed: Result<nat, Seq<char>>) -> Result<nat, ErrorView> {
    match parsed {
        Ok(n) => Ok(n),
        Err(e) => Err(ErrorView::Json(e)),
    }
}

/// The number of entries in a body. None at all is no entry.
pub open spec fn entries_in(body: Seq<u8>) -> Result<nat, ErrorView> {
    if all_blank(body) {
        Ok(0)
    } else {
        counted(json_array(body))
    }
}

/// The number of entries that parsing the body as an array gave: its length, or
/// the text of the parser's error.
pub fn tally(parsed: Result<usize, String>) -> (r: Result<usize, ScanError>)
    ensures
        count_view(r) == counted(
            match parsed {
                Ok(n) => Ok(n as nat),
                Err(e) => Err(e@),
            },
        ),
{
    match parsed {
        Ok(n) => Ok(n),
        Err(e) => Err(ScanError::Json(e)),
    }
}

fn is_all_blank(body: &[u8]) -> (r: bool)
    ensures
        r == all_blank(body@),
{
    let mut i: usize = 0;
    while i < body.len()
        invariant
            0 <= i <= body@.len(),
            forall|j: int| 0 <= j < i ==> blank(#[trigger] body@[j]),
        decreases body@.len() - i,
    {
        let b = body[i];
        if !(b == 0x20 || b == 0x09 || b == 0x0a || b == 0x0c || b == 0x0d) {
            return false;
        }
        i += 1;
    }
    true
}

/// Parse a crt.sh `output=json` body into an entry count.
///
/// crt.sh emits a JSON array of certificate records; the entry count is its
/// length. An all-whitespace/empty body means no logged certificates.
pub fn count_entries(body: &[u8]) -> (r: Result<usize, ScanError>)
    ensures
        count_view(r) == entries_in(body@),
{
    if is_all_blank(body) {
        return Ok(0);
    }
    tally(
        match parse_array(body) {
            Ok(entries) => Ok(entries.len()),
            Err(e) => Err(e),
        },
    )
}

/// The number of entries that a response of crt.sh reports.
pub open spec fn reported(response: ResponseView) -> Result<nat, ErrorView> {
    if response.status != 200 {
        Err(ErrorView::Http("crt.sh returned HTTP "@ + text::decimal(response.status)))
    } else {
        entries_in(response.body)
    }
}

/// Return the count of CT log entries that crt.sh reports in its response.
pub fn entry_count(response: &HttpResponse) -> (r: Result<usize, ScanError>)
    ensures
        count_view(r) == reported(response@),
{
    if response.status != 200 {
        let code = text::decimal_text(response.status as u64);
        return Err(ScanError::Http(text::prefixed("crt.sh returned HTTP ", code.as_str())));
    }
    count_entries(response.body.as_slice())
}

/// A body of tabs, line feeds, form feeds, carriage returns and spaces has no entry;
/// any other is counted as the array that it is, or refused as the parser refuses it.
pub proof fn law_bodies_are_counted(body: Seq<u8>)
    ensures
        (forall|i: int|
            0 <= i < body.len() ==> {
                let b = #[trigger] body[i];
                b == 9 || b == 10 || b == 12 || b == 13 || b == 32
            }) ==> entries_in(body) == Ok::<nat, ErrorView>(0),
        forall|i: int|
            0 <= i < body.len() && {
                let b = #[trigger] body[i];
                b != 9 && b != 10 && b != 12 && b != 13 && b != 32
            } ==> match json_array(body) {
                Ok(n) => entries_in(body) == Ok::<nat, ErrorView>(n),
                Err(e) => entries_in(body) == Err::<nat, ErrorView>(ErrorView::Json(e)),
            },
        entries_in(seq![]) == Ok::<nat, ErrorView>(0),
{
    if exists|i: int|
        0 <= i < body.len() && {
            let b = #[trigger] body[i];
            b != 9 && b != 10 && b != 12 && b != 13 && b != 32
        } {
        let i = choose|i: int|
            0 <= i < body.len() && {
                let b = #[trigger] body[i];
                b != 9 && b != 10 && b != 12 && b != 13 && b != 32
            };
        assert(!blank(body[i]));
    }
}

/// A response counts by its body where its status is 200, and is refused by its
/// status where it is not; no header has a say.
pub proof fn law_status_comes_before_the_count(
    status: nat,
    headers: Seq<(Seq<char>, Seq<char>)>,
    body: Seq<u8>,
)
    ensures
        reported(ResponseView { status: 200, headers, body }) == entries_in(body),
        status != 200 ==> reported(ResponseView { status, headers, body }) == Err::<
            nat,
            ErrorView,
        >(ErrorView::Http("crt.sh returned HTTP "@ + text::decimal(status))),
{
}

/// The logs are asked at crt.sh, port 443, for the domain as it is given, in JSON.
pub proof fn law_domain_is_asked_about(domain: &str, r: Vec<u8>)
    requires
        call_ensures(entry_request, (domain,), r),
    ensures
        CT_HOST@ == "crt.sh"@,
        CT_PORT == 443,
        r@ == utf8::encode_utf8(
            http::request_head(
                "GET"@,
                "crt.sh"@,
                "/?q="@ + domain@ + "&output=json"@,
                seq![("Accept"@, "application/json"@)],
                None,
            ),
        ),
{
}

/// A number of entries is the count as it is, and the parser's words are a JSON error.
pub proof fn law_parsed_arrays_are_tallied(
    n: usize,
    e: String,
    counted: Result<usize, ScanError>,
    refused: Result<usize, ScanError>,
)
    requires
        call_ensures(tally, (Ok::<usize, String>(n),), counted),
        call_ensures(tally, (Err::<usize, String>(e),), refused),
    ensures
        counted == Ok::<usize, ScanError>(n),
        refused is Err,
        refused->Err_0@ == ErrorView::Json(e@),
{
}

} // verus!
