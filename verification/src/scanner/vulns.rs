//! Vulnerability checks inferred from the collected protocol results.

use crate::error::ScanError;
use crate::scanner::handshake::{self, HandshakeInfo, ProtocolResult, ProtocolView};
use crate::scanner::Target;
use crate::text;
use vstd::prelude::*;

verus! {

/// What one check found.
#[derive(Debug)]
pub struct VulnResult {
    pub name: String,
    pub vulnerable: bool,
    pub description: String,
    pub severity: String,
}

/// What a [`VulnResult`] holds.
pub struct VulnView {
    pub name: Seq<char>,
    pub vulnerable: bool,
    pub description: Seq<char>,
    pub severity: Seq<char>,
}

impl View for VulnResult {
    type V = VulnView;

    open spec fn view(&self) -> VulnView {
        VulnView {
            name: self.name@,
            vulnerable: self.vulnerable,
            description: self.description@,
            severity: self.severity@,
        }
    }
}

/// What a list of check results holds.
pub open spec fn vuln_views(v: Seq<VulnResult>) -> Seq<VulnView> {
    Seq::new(v.len(), |i: int| v[i]@)
}

/// Whether some result says that the server supports a version.
pub open spec fn accepts(protocols: Seq<ProtocolView>, version: Seq<char>) -> bool {
    exists|i: int|
        0 <= i < protocols.len() && (#[trigger] protocols[i]).version == version
            && protocols[i].supported
}

/// The four checks. SSLv3 cannot be probed and counts as not supported, and the
/// raw probe for Heartbleed does not exist, so the first and the last never flag.
pub open spec fn findings(protocols: Seq<ProtocolView>) -> Seq<VulnView> {
    seq![
        VulnView {
            name: "POODLE"@,
            vulnerable: false,
            description: "SSLv3 not supported by rustls prober (safe by default)"@,
            severity: "High"@,
        },
        VulnView {
            name: "BEAST"@,
            vulnerable: accepts(protocols, "TLS 1.0"@),
            description: "TLS 1.0 with CBC ciphers enables BEAST attack"@,
            severity: "Medium"@,
        },
        VulnView {
            name: "Deprecated TLS 1.1"@,
            vulnerable: accepts(protocols, "TLS 1.1"@),
            description: "TLS 1.1 is deprecated per RFC 8996"@,
            severity: "Low"@,
        },
        VulnView {
            name: "Heartbleed (CVE-2014-0160)"@,
            vulnerable: false,
            description: "Raw TCP probe not yet implemented; use testssl.sh to verify"@,
            severity: "Critical"@,
        },
    ]
}

fn is_accepted(protocols: &[ProtocolResult], version: &str) -> (r: bool)
    ensures
        r == accepts(handshake::protocol_views(protocols@), version@),
        r <==> exists|i: int|
            0 <= i < protocols@.len() && (#[trigger] protocols@[i]).version@ == version@
                && protocols@[i].supported,
{
    let ghost views = handshake::protocol_views(protocols@);
    let mut i: usize = 0;
    while i < protocols.len()
        invariant
            0 <= i <= protocols@.len(),
            views == handshake::protocol_views(protocols@),
            forall|j: int|
                0 <= j < i ==> !((#[trigger] views[j]).version == version@ && views[j].supported),
            forall|j: int|
                0 <= j < i ==> !((#[trigger] protocols@[j]).version@ == version@
                    && protocols@[j].supported),
        decreases protocols@.len() - i,
    {
        proof {
            assert(views[i as int] == protocols@[i as int]@);
        }
        if text::equal(protocols[i].version.as_str(), version) && protocols[i].supported {
            return true;
        }
        i += 1;
    }
    false
}

/// Run every check on the collected protocol results. No check reads the target
/// itself.
pub fn check_all(_target: &Target, protocols: &[ProtocolResult]) -> (r: Result<
    Vec<VulnResult>,
    ScanError,
>)
    ensures
        r is Ok,
        vuln_views(r->Ok_0@) == findings(handshake::protocol_views(protocols@)),
        r->Ok_0@.len() == 4,
        r->Ok_0@[0].name@ == "POODLE"@,
        !r->Ok_0@[0].vulnerable,
        r->Ok_0@[1].name@ == "BEAST"@,
        r->Ok_0@[1].vulnerable <==> exists|i: int|
            0 <= i < protocols@.len() && (#[trigger] protocols@[i]).version@ == "TLS 1.0"@
                && protocols@[i].supported,
        r->Ok_0@[2].name@ == "Deprecated TLS 1.1"@,
        r->Ok_0@[2].vulnerable <==> exists|i: int|
            0 <= i < protocols@.len() && (#[trigger] protocols@[i]).version@ == "TLS 1.1"@
                && protocols@[i].supported,
        r->Ok_0@[3].name@ == "Heartbleed (CVE-2014-0160)"@,
        !r->Ok_0@[3].vulnerable,
{
    let mut results: Vec<VulnResult> = Vec::new();
    // POODLE: requires SSLv3, inferred as not supported
    results.push(
        VulnResult {
            name: "POODLE".to_string(),
            vulnerable: false,
            description: "SSLv3 not supported by rustls prober (safe by default)".to_string(),
            severity: "High".to_string(),
        },
    );
    // BEAST: TLS 1.0 with CBC suites, inferred
    let has_tls10 = is_accepted(protocols, "TLS 1.0");
    results.push(
        VulnResult {
            name: "BEAST".to_string(),
            vulnerable: has_tls10,
            description: "TLS 1.0 with CBC ciphers enables BEAST attack".to_string(),
            severity: "Medium".to_string(),
        },
    );
    let has_tls11 = is_accepted(protocols, "TLS 1.1");
    results.push(
        VulnResult {
            name: "Deprecated TLS 1.1".to_string(),
            vulnerable: has_tls11,
            description: "TLS 1.1 is deprecated per RFC 8996".to_string(),
            severity: "Low".to_string(),
        },
    );
    // Heartbleed needs a raw TCP probe
    results.push(
        VulnResult {
            name: "Heartbleed (CVE-2014-0160)".to_string(),
            vulnerable: false,
            description: "Raw TCP probe not yet implemented; use testssl.sh to verify".to_string(),
            severity: "Critical".to_string(),
        },
    );
    proof {
        let wanted = findings(handshake::protocol_views(protocols@));
        let got = vuln_views(results@);
        assert(got[0] == wanted[0]);
        assert(got[1] == wanted[1]);
        assert(got[2] == wanted[2]);
        assert(got[3] == wanted[3]);
        assert(got =~= wanted);
    }
    Ok(results)
}

/// A server is flagged exactly for the old versions it accepts: the second check
/// follows the TLS 1.0 handshake, the third the TLS 1.1 handshake.
pub proof fn law_flags_follow_old_versions(
    tls10: Result<HandshakeInfo, ScanError>,
    tls11: Result<HandshakeInfo, ScanError>,
    tls12: Result<HandshakeInfo, ScanError>,
    tls13: Result<HandshakeInfo, ScanError>,
)
    ensures
        ({
            let rows = seq![
                handshake::row_for("TLS 1.0"@, tls10),
                handshake::row_for("TLS 1.1"@, tls11),
                handshake::row_for("TLS 1.2"@, tls12),
                handshake::row_for("TLS 1.3"@, tls13),
            ];
            &&& findings(rows)[1].vulnerable == tls10 is Ok
            &&& findings(rows)[2].vulnerable == tls11 is Ok
        }),
{
    let rows = seq![
        handshake::row_for("TLS 1.0"@, tls10),
        handshake::row_for("TLS 1.1"@, tls11),
        handshake::row_for("TLS 1.2"@, tls12),
        handshake::row_for("TLS 1.3"@, tls13),
    ];
    reveal_strlit("TLS 1.0");
    reveal_strlit("TLS 1.1");
    reveal_strlit("TLS 1.2");
    reveal_strlit("TLS 1.3");
    assert("TLS 1.0"@[6] == '0');
    assert("TLS 1.1"@[6] == '1');
    assert("TLS 1.2"@[6] == '2');
    assert("TLS 1.3"@[6] == '3');
    assert(rows[0].version == "TLS 1.0"@ && rows[0].supported == tls10 is Ok);
    assert(rows[1].version == "TLS 1.1"@ && rows[1].supported == tls11 is Ok);
}

/// Whatever the server accepts, POODLE and Heartbleed are never flagged: neither is
/// probed.
pub proof fn law_unprobed_checks_never_flag(protocols: Seq<ProtocolView>)
    ensures
        findings(protocols).len() == 4,
        findings(protocols)[0].name == "POODLE"@,
        !findings(protocols)[0].vulnerable,
        findings(protocols)[3].name == "Heartbleed (CVE-2014-0160)"@,
        !findings(protocols)[3].vulnerable,
{
}

/// Of any results, BEAST is flagged exactly where one says that TLS 1.0 is
/// supported, and the deprecation of TLS 1.1 exactly where one says so of TLS 1.1.
/// Nothing else in the results plays a part.
pub proof fn law_flags_are_of_their_version(protocols: Seq<ProtocolView>)
    ensures
        findings(protocols)[1].name == "BEAST"@,
        findings(protocols)[1].vulnerable <==> exists|i: int|
            0 <= i < protocols.len() && (#[trigger] protocols[i]).supported && protocols[i].version
                == "TLS 1.0"@,
        findings(protocols)[2].name == "Deprecated TLS 1.1"@,
        findings(protocols)[2].vulnerable <==> exists|i: int|
            0 <= i < protocols.len() && (#[trigger] protocols[i]).supported && protocols[i].version
                == "TLS 1.1"@,
{
}

/// The wording of the checks does not depend on the results.
pub proof fn law_wording_is_fixed(protocols: Seq<ProtocolView>, i: int)
    requires
        0 <= i < 4,
    ensures
        findings(protocols)[i].severity == seq!["High"@, "Medium"@, "Low"@, "Critical"@][i],
        findings(protocols)[i].description == seq![
            "SSLv3 not supported by rustls prober (safe by default)"@,
            "TLS 1.0 with CBC ciphers enables BEAST attack"@,
            "TLS 1.1 is deprecated per RFC 8996"@,
            "Raw TCP probe not yet implemented; use testssl.sh to verify"@,
        ][i],
{
}

/// More results flag no less, and results on other versions flag no more: the order
/// of the results and what they say of TLS 1.2 and TLS 1.3 change nothing.
pub proof fn law_one_more_result(protocols: Seq<ProtocolView>, row: ProtocolView)
    ensures
        ({
            let before = findings(protocols);
            let after = findings(protocols.push(row));
            &&& after[1].vulnerable == (before[1].vulnerable || (row.supported && row.version
                == "TLS 1.0"@))
            &&& after[2].vulnerable == (before[2].vulnerable || (row.supported && row.version
                == "TLS 1.1"@))
        }),
{
    lemma_accepts_more(protocols, row, "TLS 1.0"@);
    lemma_accepts_more(protocols, row, "TLS 1.1"@);
}

proof fn lemma_accepts_more(protocols: Seq<ProtocolView>, row: ProtocolView, version: Seq<char>)
    ensures
        accepts(protocols.push(row), version) == (accepts(protocols, version) || (row.supported
            && row.version == version)),
{
    let more = protocols.push(row);
    assert(more[protocols.len() as int] == row);
    if accepts(protocols, version) {
        let i = choose|i: int|
            0 <= i < protocols.len() && (#[trigger] protocols[i]).version == version
                && protocols[i].supported;
        assert(more[i] == protocols[i]);
    }
    if accepts(more, version) {
        let i = choose|i: int|
            0 <= i < more.len() && (#[trigger] more[i]).version == version && more[i].supported;
        if i < protocols.len() {
            assert(protocols[i] == more[i]);
        }
    }
}

/// Whatever a server accepts, the checks that are made never call it vulnerable to
/// POODLE or to Heartbleed, and call it vulnerable to BEAST exactly where some result
/// says that it supports TLS 1.0.
pub proof fn law_checks_of_a_server(
    target: Target,
    protocols: &[ProtocolResult],
    r: Result<Vec<VulnResult>, ScanError>,
)
    requires
        call_ensures(check_all, (&target, protocols), r),
    ensures
        r is Ok,
        r->Ok_0@.len() == 4,
        !r->Ok_0@[0].vulnerable,
        r->Ok_0@[1].vulnerable <==> exists|i: int|
            0 <= i < protocols@.len() && (#[trigger] protocols@[i]).version@ == "TLS 1.0"@
                && protocols@[i].supported,
        r->Ok_0@[2].vulnerable <==> exists|i: int|
            0 <= i < protocols@.len() && (#[trigger] protocols@[i]).version@ == "TLS 1.1"@
                && protocols@[i].supported,
        !r->Ok_0@[3].vulnerable,
{
}

} // verus!
