//! The report as tables for a terminal.

use crate::scanner::cert::{CertInfo, CertInfoView};
use crate::scanner::ciphers::{self, CipherResult, CipherView};
use crate::scanner::handshake::{self, ProtocolResult, ProtocolView};
use crate::scanner::vulns::{self, VulnResult, VulnView};
use crate::scanner::ScanResult;
use crate::text;
use comfy_table::presets::UTF8_FULL;
use comfy_table::Table;
use vstd::prelude::*;

verus! {

/// What the cells of a table hold, row by row.
pub open spec fn cells(rows: Seq<Vec<String>>) -> Seq<Seq<Seq<char>>> {
    Seq::new(rows.len(), |i: int| text::string_views(rows[i]@))
}

/// A table of rows, as `comfy_table` draws it.
pub uninterp spec fn plain_table(rows: Seq<Seq<Seq<char>>>) -> Seq<char>;

/// The `Display` form of a `comfy_table::Table` with the preset `UTF8_FULL` and the
/// given rows. Nothing is arranged by width and nothing is styled, so the text
/// depends on the cells alone.
#[verifier::external_body]
fn draw(rows: &Vec<Vec<String>>) -> (r: String)
    ensures
        r@ == plain_table(cells(rows@)),
{
    Table::new().load_preset(UTF8_FULL).add_rows(rows).to_string()
}

/// A table of rows under a header, as `comfy_table` draws it.
pub uninterp spec fn headed_table(header: Seq<Seq<char>>, rows: Seq<Seq<Seq<char>>>) -> Seq<char>;

/// The `Display` form of a `comfy_table::Table` with the preset `UTF8_FULL`, the
/// given header and the given rows. Nothing is arranged by width and nothing is
/// styled, so the text depends on the cells alone.
#[verifier::external_body]
fn draw_headed(header: &Vec<String>, rows: &Vec<Vec<String>>) -> (r: String)
    ensures
        r@ == headed_table(text::string_views(header@), cells(rows@)),
{
    Table::new().load_preset(UTF8_FULL).set_header(header).add_rows(rows).to_string()
}

fn two(a: &str, b: &str) -> (r: Vec<String>)
    ensures
        text::string_views(r@) == seq![a@, b@],
{
    let mut row: Vec<String> = Vec::new();
    row.push(a.to_string());
    row.push(b.to_string());
    proof {
        assert(text::string_views(row@) =~= seq![a@, b@]);
    }
    row
}

fn three(a: &str, b: &str, c: &str) -> (r: Vec<String>)
    ensures
        text::string_views(r@) == seq![a@, b@, c@],
{
    let mut row = two(a, b);
    let ghost before = text::string_views(row@);
    row.push(c.to_string());
    proof {
        assert(text::string_views(row@) =~= before.push(c@));
        assert(text::string_views(row@) =~= seq![a@, b@, c@]);
    }
    row
}

fn four(a: &str, b: &str, c: &str, d: &str) -> (r: Vec<String>)
    ensures
        text::string_views(r@) == seq![a@, b@, c@, d@],
{
    let mut row = three(a, b, c);
    let ghost before = text::string_views(row@);
    row.push(d.to_string());
    proof {
        assert(text::string_views(row@) =~= before.push(d@));
        assert(text::string_views(row@) =~= seq![a@, b@, c@, d@]);
    }
    row
}

fn add_row(rows: &mut Vec<Vec<String>>, row: Vec<String>)
    ensures
        cells(final(rows)@) == cells(old(rows)@).push(text::string_views(row@)),
{
    let ghost before = cells(rows@);
    let ghost shown = text::string_views(row@);
    rows.push(row);
    proof {
        assert(cells(rows@) =~= before.push(shown));
    }
}

/// A truth value in words.
pub open spec fn bool_text(b: bool) -> Seq<char> {
    if b {
        "true"@
    } else {
        "false"@
    }
}

/// The size of a key, with a warning where the key is weak.
pub open spec fn key_size_text(bits: Option<nat>, weak: bool) -> Seq<char> {
    match bits {
        Some(n) => text::decimal(n) + (if weak {
            " bits (WEAK)"@
        } else {
            " bits"@
        }),
        None => "unknown"@,
    }
}

/// The rows that every certificate has.
pub open spec fn fixed_rows(c: CertInfoView) -> Seq<Seq<Seq<char>>> {
    seq![
        seq!["Subject"@, c.subject],
        seq!["Issuer"@, c.issuer],
        seq!["Not Before"@, c.not_before],
        seq!["Not After"@, c.not_after],
        seq!["Days Remaining"@, text::signed_decimal(c.days_remaining)],
        seq!["Expired"@, bool_text(c.is_expired)],
        seq!["Key Algorithm"@, c.key_algorithm],
        seq!["Key Size"@, key_size_text(c.key_bits, c.weak_key)],
        seq!["Validation"@, c.validation_level],
        seq!["Sig Algorithm"@, c.signature_algorithm],
        seq!["Chain Depth"@, text::decimal(c.chain_depth)],
        seq!["SANs"@, text::joined(c.sans, ", "@)],
    ]
}

/// The rows of the certificate table: those that every certificate has, and one
/// for each advisory check that was made.
pub open spec fn certificate_cells(c: CertInfoView) -> Seq<Seq<Seq<char>>> {
    fixed_rows(c) + (match c.ocsp_status {
        Some(status) => seq![seq!["OCSP Status"@, status]],
        None => seq![],
    }) + (match c.ct_log_entries {
        Some(count) => seq![seq!["CT Log Entries"@, text::decimal(count)]],
        None => seq![],
    })
}

fn show_bool(b: bool) -> (r: &'static str)
    ensures
        r@ == bool_text(b),
{
    if b {
        "true"
    } else {
        "false"
    }
}

fn show_key_size(bits: Option<usize>, weak: bool) -> (r: String)
    ensures
        r@ == key_size_text(crate::scanner::cert::number_view(bits), weak),
{
    match bits {
        Some(n) => {
            let mut out = text::decimal_text(n as u64);
            if weak {
                out.append(" bits (WEAK)");
            } else {
                out.append(" bits");
            }
            out
        },
        None => "unknown".to_string(),
    }
}

/// The rows of the certificate table.
pub fn certificate_rows(c: &CertInfo) -> (r: Vec<Vec<String>>)
    ensures
        cells(r@) == certificate_cells(c@),
        cells(r@).len() >= 12,
        cells(r@)[0] == seq!["Subject"@, c.subject@],
        cells(r@)[1] == seq!["Issuer"@, c.issuer@],
        cells(r@)[2] == seq!["Not Before"@, c.not_before@],
        cells(r@)[3] == seq!["Not After"@, c.not_after@],
        cells(r@)[4] == seq!["Days Remaining"@, text::signed_decimal(c.days_remaining as int)],
        cells(r@)[6] == seq!["Key Algorithm"@, c.key_algorithm@],
        cells(r@)[8] == seq!["Validation"@, c.validation_level@],
        cells(r@)[9] == seq!["Sig Algorithm"@, c.signature_algorithm@],
        cells(r@)[10] == seq!["Chain Depth"@, text::decimal(c.chain_depth as nat)],
        cells(r@)[11] == seq!["SANs"@, text::joined(text::string_views(c.sans@), ", "@)],
{
    let mut rows: Vec<Vec<String>> = Vec::new();
    let days = text::signed_text(c.days_remaining);
    let key_size = show_key_size(c.key_bits, c.weak_key);
    let depth = text::decimal_text(c.chain_depth as u64);
    let sans = text::join(&c.sans, ", ");
    proof {
        assert(cells(rows@) =~= seq![]);
    }
    add_row(&mut rows, two("Subject", c.subject.as_str()));
    add_row(&mut rows, two("Issuer", c.issuer.as_str()));
    add_row(&mut rows, two("Not Before", c.not_before.as_str()));
    add_row(&mut rows, two("Not After", c.not_after.as_str()));
    add_row(&mut rows, two("Days Remaining", days.as_str()));
    add_row(&mut rows, two("Expired", show_bool(c.is_expired)));
    add_row(&mut rows, two("Key Algorithm", c.key_algorithm.as_str()));
    add_row(&mut rows, two("Key Size", key_size.as_str()));
    add_row(&mut rows, two("Validation", c.validation_level.as_str()));
    add_row(&mut rows, two("Sig Algorithm", c.signature_algorithm.as_str()));
    add_row(&mut rows, two("Chain Depth", depth.as_str()));
    add_row(&mut rows, two("SANs", sans.as_str()));
    proof {
        assert(cells(rows@) =~= fixed_rows(c@));
    }
    match &c.ocsp_status {
        Some(status) => {
            add_row(&mut rows, two("OCSP Status", status.as_str()));
        },
        None => {},
    }
    match c.ct_log_entries {
        Some(count) => {
            let shown = text::decimal_text(count as u64);
            add_row(&mut rows, two("CT Log Entries", shown.as_str()));
        },
        None => {},
    }
    proof {
        assert(cells(rows@) =~= certificate_cells(c@));
    }
    rows
}

/// A text, or a dash in its place.
pub open spec fn or_dash(s: Option<Seq<char>>) -> Seq<char> {
    match s {
        Some(t) => t,
        None => "—"@,
    }
}

fn show_or_dash(s: &Option<String>) -> (r: &str)
    ensures
        r@ == or_dash(text::option_view(*s)),
{
    match s {
        Some(t) => t.as_str(),
        None => "—",
    }
}

/// The row of one protocol.
pub open spec fn protocol_cells(p: ProtocolView) -> Seq<Seq<char>> {
    seq![
        p.version,
        if p.supported {
            "✅ Yes"@
        } else {
            "❌ No"@
        },
        or_dash(p.negotiated_cipher),
        or_dash(p.negotiated_group),
    ]
}

/// The rows of the protocol table, one for each protocol in order.
pub fn protocol_rows(protocols: &Vec<ProtocolResult>) -> (r: Vec<Vec<String>>)
    ensures
        cells(r@) == handshake::protocol_views(protocols@).map_values(
            |p: ProtocolView| protocol_cells(p),
        ),
        cells(r@).len() == protocols@.len(),
        forall|i: int|
            0 <= i < protocols@.len() ==> (#[trigger] cells(r@)[i]).len() == 4 && cells(r@)[i][0]
                == protocols@[i].version@,
{
    let ghost views = handshake::protocol_views(protocols@);
    let ghost wanted = views.map_values(|p: ProtocolView| protocol_cells(p));
    let mut rows: Vec<Vec<String>> = Vec::new();
    let mut i: usize = 0;
    while i < protocols.len()
        invariant
            0 <= i <= protocols@.len(),
            views == handshake::protocol_views(protocols@),
            wanted == views.map_values(|p: ProtocolView| protocol_cells(p)),
            cells(rows@) == wanted.take(i as int),
        decreases protocols@.len() - i,
    {
        let p = &protocols[i];
        let supported = if p.supported {
            "✅ Yes"
        } else {
            "❌ No"
        };
        let cipher = show_or_dash(&p.negotiated_cipher);
        let group = show_or_dash(&p.negotiated_group);
        let row = four(p.version.as_str(), supported, cipher, group);
        proof {
            assert(views[i as int] == p@);
            assert(text::string_views(row@) =~= protocol_cells(p@));
            assert(wanted.take(i + 1) =~= wanted.take(i as int).push(wanted[i as int]));
        }
        add_row(&mut rows, row);
        i += 1;
    }
    proof {
        assert(wanted.take(wanted.len() as int) =~= wanted);
    }
    rows
}

/// The row of one cipher suite.
pub open spec fn cipher_cells(c: CipherView) -> Seq<Seq<char>> {
    seq![
        c.suite,
        if c.accepted {
            "✅"@
        } else {
            "❌"@
        },
        c.strength,
    ]
}

/// The rows of the cipher table, one for each suite in order.
pub fn cipher_rows(suites: &Vec<CipherResult>) -> (r: Vec<Vec<String>>)
    ensures
        cells(r@) == ciphers::cipher_views(suites@).map_values(|c: CipherView| cipher_cells(c)),
        cells(r@).len() == suites@.len(),
        forall|i: int|
            0 <= i < suites@.len() ==> (#[trigger] cells(r@)[i]).len() == 3 && cells(r@)[i][0]
                == suites@[i].suite@ && cells(r@)[i][2] == suites@[i].strength@,
{
    let ghost views = ciphers::cipher_views(suites@);
    let ghost wanted = views.map_values(|c: CipherView| cipher_cells(c));
    let mut rows: Vec<Vec<String>> = Vec::new();
    let mut i: usize = 0;
    while i < suites.len()
        invariant
            0 <= i <= suites@.len(),
            views == ciphers::cipher_views(suites@),
            wanted == views.map_values(|c: CipherView| cipher_cells(c)),
            cells(rows@) == wanted.take(i as int),
        decreases suites@.len() - i,
    {
        let c = &suites[i];
        let accepted = if c.accepted {
            "✅"
        } else {
            "❌"
        };
        let row = three(c.suite.as_str(), accepted, c.strength.as_str());
        proof {
            assert(views[i as int] == c@);
            assert(text::string_views(row@) =~= cipher_cells(c@));
            assert(wanted.take(i + 1) =~= wanted.take(i as int).push(wanted[i as int]));
        }
        add_row(&mut rows, row);
        i += 1;
    }
    proof {
        assert(wanted.take(wanted.len() as int) =~= wanted);
    }
    rows
}

/// The row of one vulnerability check.
pub open spec fn vuln_cells(v: VulnView) -> Seq<Seq<char>> {
    seq![
        v.name,
        if v.vulnerable {
            "🔴 YES"@
        } else {
            "🟢 No"@
        },
        v.severity,
        v.description,
    ]
}

/// The rows of the vulnerability table, one for each check in order.
pub fn vuln_rows(checks: &Vec<VulnResult>) -> (r: Vec<Vec<String>>)
    ensures
        cells(r@) == vulns::vuln_views(checks@).map_values(|v: VulnView| vuln_cells(v)),
        cells(r@).len() == checks@.len(),
        forall|i: int|
            0 <= i < checks@.len() ==> (#[trigger] cells(r@)[i]).len() == 4 && cells(r@)[i][0]
                == checks@[i].name@ && cells(r@)[i][2] == checks@[i].severity@ && cells(r@)[i][3]
                == checks@[i].description@,
{
    let ghost views = vulns::vuln_views(checks@);
    let ghost wanted = views.map_values(|v: VulnView| vuln_cells(v));
    let mut rows: Vec<Vec<String>> = Vec::new();
    let mut i: usize = 0;
    while i < checks.len()
        invariant
            0 <= i <= checks@.len(),
            views == vulns::vuln_views(checks@),
            wanted == views.map_values(|v: VulnView| vuln_cells(v)),
            cells(rows@) == wanted.take(i as int),
        decreases checks@.len() - i,
    {
        let v = &checks[i];
        let vulnerable = if v.vulnerable {
            "🔴 YES"
        } else {
            "🟢 No"
        };
        let row = four(v.name.as_str(), vulnerable, v.severity.as_str(), v.description.as_str());
        proof {
            assert(views[i as int] == v@);
            assert(text::string_views(row@) =~= vuln_cells(v@));
            assert(wanted.take(i + 1) =~= wanted.take(i as int).push(wanted[i as int]));
        }
        add_row(&mut rows, row);
        i += 1;
    }
    proof {
        assert(wanted.take(wanted.len() as int) =~= wanted);
    }
    rows
}

/// A section of the report: its title, its table and an empty line.
pub open spec fn section(title: Seq<char>, table: Seq<char>) -> Seq<char> {
    title + "\n"@ + table + "\n\n"@
}

/// The report around its tables: the heading, then a section for each table that
/// is there.
pub open spec fn report(
    host: Seq<char>,
    port: nat,
    certificate: Seq<char>,
    protocols: Seq<char>,
    suites: Option<Seq<char>>,
    checks: Option<Seq<char>>,
) -> Seq<char> {
    "═══════════════════════════════════════════\n  TLS Inspection Report: "@ + host + ":"@
        + text::decimal(port) + "\n═══════════════════════════════════════════\n\n"@ + section(
        "📜 Certificate"@,
        certificate,
    ) + section("🔒 Protocol Support"@, protocols) + (match suites {
        Some(t) => section("🔐 Cipher Suites"@, t),
        None => seq![],
    }) + (match checks {
        Some(t) => section("⚠️  Vulnerability Checks"@, t),
        None => seq![],
    })
}

fn add_section(out: &mut String, title: &str, table: &str)
    ensures
        final(out)@ == old(out)@ + section(title@, table@),
{
    let ghost before = out@;
    out.append(title);
    out.append("\n");
    out.append(table);
    out.append("\n\n");
    proof {
        assert(out@ =~= before + section(title@, table@));
    }
}

/// Put the report together around its tables.
pub fn layout(
    host: &str,
    port: u16,
    certificate: &str,
    protocols: &str,
    suites: Option<String>,
    checks: Option<String>,
) -> (r: String)
    ensures
        r@ == report(
            host@,
            port as nat,
            certificate@,
            protocols@,
            text::option_view(suites),
            text::option_view(checks),
        ),
{
    let mut out =
        "═══════════════════════════════════════════\n  TLS Inspection Report: ".to_string();
    out.append(host);
    out.append(":");
    let digits = text::decimal_text(port as u64);
    out.append(digits.as_str());
    out.append("\n═══════════════════════════════════════════\n\n");
    add_section(&mut out, "📜 Certificate", certificate);
    add_section(&mut out, "🔒 Protocol Support", protocols);
    let ghost base = out@;
    match &suites {
        Some(t) => {
            add_section(&mut out, "🔐 Cipher Suites", t.as_str());
        },
        None => {
            proof {
                assert(base + Seq::<char>::empty() =~= base);
            }
        },
    }
    let ghost base = out@;
    match &checks {
        Some(t) => {
            add_section(&mut out, "⚠️  Vulnerability Checks", t.as_str());
        },
        None => {
            proof {
                assert(base + Seq::<char>::empty() =~= base);
            }
        },
    }
    out
}

/// The report on a scan. Suites and checks have a section only where there are
/// any.
pub open spec fn report_on(result: ScanResult) -> Seq<char> {
    report(
        result.host@,
        result.port as nat,
        plain_table(certificate_cells(result.certificate@)),
        headed_table(
            seq!["Protocol"@, "Supported"@, "Negotiated Cipher"@, "Group"@],
            handshake::protocol_views(result.protocols@).map_values(
                |p: ProtocolView| protocol_cells(p),
            ),
        ),
        if result.cipher_suites@.len() > 0 {
            Some(
                headed_table(
                    seq!["Suite"@, "Accepted"@, "Strength"@],
                    ciphers::cipher_views(result.cipher_suites@).map_values(
                        |c: CipherView| cipher_cells(c),
                    ),
                ),
            )
        } else {
            None
        },
        if result.vulnerabilities@.len() > 0 {
            Some(
                headed_table(
                    seq!["Vulnerability"@, "Vulnerable"@, "Severity"@, "Notes"@],
                    vulns::vuln_views(result.vulnerabilities@).map_values(
                        |v: VulnView| vuln_cells(v),
                    ),
                ),
            )
        } else {
            None
        },
    )
}

/// The report on a scan as it is printed.
pub fn print(result: &ScanResult) -> (r: String)
    ensures
        r@ == report_on(*result),
{
    let certificate = draw(&certificate_rows(&result.certificate));
    let protocols = draw_headed(
        &four("Protocol", "Supported", "Negotiated Cipher", "Group"),
        &protocol_rows(&result.protocols),
    );
    let suites = if result.cipher_suites.len() > 0 {
        Some(
            draw_headed(
                &three("Suite", "Accepted", "Strength"),
                &cipher_rows(&result.cipher_suites),
            ),
        )
    } else {
        None
    };
    let checks = if result.vulnerabilities.len() > 0 {
        Some(
            draw_headed(
                &four("Vulnerability", "Vulnerable", "Severity", "Notes"),
                &vuln_rows(&result.vulnerabilities),
            ),
        )
    } else {
        None
    };
    layout(
        result.host.as_str(),
        result.port,
        certificate.as_str(),
        protocols.as_str(),
        suites,
        checks,
    )
}

/// The certificate table shows each value beside its own label, in one order; the
/// revocation status and the number of log entries have a row only where they are
/// known, at the end.
pub proof fn law_certificate_rows_are_labelled(c: CertInfoView, status: Seq<char>, count: nat)
    ensures
        ({
            let plain = CertInfoView { ocsp_status: None, ct_log_entries: None, ..c };
            let rows = certificate_cells(plain);
            &&& rows.len() == 12
            &&& rows[0] == seq!["Subject"@, c.subject]
            &&& rows[1] == seq!["Issuer"@, c.issuer]
            &&& rows[2] == seq!["Not Before"@, c.not_before]
            &&& rows[3] == seq!["Not After"@, c.not_after]
            &&& rows[4] == seq!["Days Remaining"@, text::signed_decimal(c.days_remaining)]
            &&& c.is_expired ==> rows[5] == seq!["Expired"@, "true"@]
            &&& !c.is_expired ==> rows[5] == seq!["Expired"@, "false"@]
            &&& rows[6] == seq!["Key Algorithm"@, c.key_algorithm]
            &&& c.key_bits is None ==> rows[7] == seq!["Key Size"@, "unknown"@]
            &&& c.key_bits is Some && c.weak_key ==> rows[7] == seq![
                "Key Size"@,
                text::decimal(c.key_bits->0) + " bits (WEAK)"@,
            ]
            &&& c.key_bits is Some && !c.weak_key ==> rows[7] == seq![
                "Key Size"@,
                text::decimal(c.key_bits->0) + " bits"@,
            ]
            &&& rows[8] == seq!["Validation"@, c.validation_level]
            &&& rows[9] == seq!["Sig Algorithm"@, c.signature_algorithm]
            &&& rows[10] == seq!["Chain Depth"@, text::decimal(c.chain_depth)]
            &&& rows[11] == seq!["SANs"@, text::joined(c.sans, ", "@)]
            &&& certificate_cells(CertInfoView { ocsp_status: Some(status), ..plain }) == rows.push(
                seq!["OCSP Status"@, status],
            )
            &&& certificate_cells(CertInfoView { ct_log_entries: Some(count), ..plain })
                == rows.push(seq!["CT Log Entries"@, text::decimal(count)])
            &&& certificate_cells(
                CertInfoView { ocsp_status: Some(status), ct_log_entries: Some(count), ..plain },
            ) == rows.push(seq!["OCSP Status"@, status]).push(
                seq!["CT Log Entries"@, text::decimal(count)],
            )
        }),
{
    let plain = CertInfoView { ocsp_status: None, ct_log_entries: None, ..c };
    let rows = certificate_cells(plain);
    assert(rows =~= fixed_rows(plain));
    assert(certificate_cells(CertInfoView { ocsp_status: Some(status), ..plain }) =~= rows.push(
        seq!["OCSP Status"@, status],
    ));
    assert(certificate_cells(CertInfoView { ct_log_entries: Some(count), ..plain }) =~= rows.push(
        seq!["CT Log Entries"@, text::decimal(count)],
    ));
    assert(certificate_cells(
        CertInfoView { ocsp_status: Some(status), ct_log_entries: Some(count), ..plain },
    ) =~= rows.push(seq!["OCSP Status"@, status]).push(
        seq!["CT Log Entries"@, text::decimal(count)],
    ));
}

/// A protocol's row shows its version, whether it is supported, and the suite and the
/// group that it negotiated, with a dash for what it did not.
pub proof fn law_protocol_rows_show_their_protocol(p: ProtocolView)
    ensures
        ({
            let row = protocol_cells(p);
            &&& row.len() == 4
            &&& row[0] == p.version
            &&& p.supported ==> row[1] == "✅ Yes"@
            &&& !p.supported ==> row[1] == "❌ No"@
            &&& p.negotiated_cipher is Some ==> row[2] == p.negotiated_cipher->0
            &&& p.negotiated_cipher is None ==> row[2] == "—"@
            &&& p.negotiated_group is Some ==> row[3] == p.negotiated_group->0
            &&& p.negotiated_group is None ==> row[3] == "—"@
        }),
{
}

/// A suite's row shows its name, whether it was accepted, and its strength.
pub proof fn law_cipher_rows_show_their_suite(c: CipherView)
    ensures
        ({
            let row = cipher_cells(c);
            &&& row.len() == 3
            &&& row[0] == c.suite
            &&& c.accepted ==> row[1] == "✅"@
            &&& !c.accepted ==> row[1] == "❌"@
            &&& row[2] == c.strength
        }),
{
}

/// A check's row shows its name, whether the server is vulnerable, how severe that is,
/// and its note.
pub proof fn law_vulnerability_rows_show_their_check(v: VulnView)
    ensures
        ({
            let row = vuln_cells(v);
            &&& row.len() == 4
            &&& row[0] == v.name
            &&& v.vulnerable ==> row[1] == "🔴 YES"@
            &&& !v.vulnerable ==> row[1] == "🟢 No"@
            &&& row[2] == v.severity
            &&& row[3] == v.description
        }),
{
}

/// A report is its heading with the endpoint, the certificate's table and the
/// protocols' table under their titles. A table of suites and one of checks are
/// appended under theirs, in this order, where they are there.
pub proof fn law_report_is_its_sections(
    host: Seq<char>,
    port: nat,
    certificate: Seq<char>,
    protocols: Seq<char>,
    suites: Seq<char>,
    checks: Seq<char>,
)
    ensures
        report(host, port, certificate, protocols, None, None)
            == "═══════════════════════════════════════════\n  TLS Inspection Report: "@ + host
            + ":"@ + text::decimal(port) + "\n═══════════════════════════════════════════\n\n"@
            + "📜 Certificate"@ + "\n"@ + certificate + "\n\n"@ + "🔒 Protocol Support"@ + "\n"@
            + protocols + "\n\n"@,
        report(host, port, certificate, protocols, Some(suites), None) == report(
            host,
            port,
            certificate,
            protocols,
            None,
            None,
        ) + "🔐 Cipher Suites"@ + "\n"@ + suites + "\n\n"@,
        report(host, port, certificate, protocols, None, Some(checks)) == report(
            host,
            port,
            certificate,
            protocols,
            None,
            None,
        ) + "⚠️  Vulnerability Checks"@ + "\n"@ + checks + "\n\n"@,
        report(host, port, certificate, protocols, Some(suites), Some(checks)) == report(
            host,
            port,
            certificate,
            protocols,
            Some(suites),
            None,
        ) + "⚠️  Vulnerability Checks"@ + "\n"@ + checks + "\n\n"@,
{
    let base = report(host, port, certificate, protocols, None, None);
    assert(base =~= "═══════════════════════════════════════════\n  TLS Inspection Report: "@ + host
        + ":"@ + text::decimal(port) + "\n═══════════════════════════════════════════\n\n"@
        + "📜 Certificate"@ + "\n"@ + certificate + "\n\n"@ + "🔒 Protocol Support"@ + "\n"@
        + protocols + "\n\n"@);
    assert(report(host, port, certificate, protocols, Some(suites), None) =~= base
        + "🔐 Cipher Suites"@ + "\n"@ + suites + "\n\n"@);
    assert(report(host, port, certificate, protocols, None, Some(checks)) =~= base
        + "⚠️  Vulnerability Checks"@ + "\n"@ + checks + "\n\n"@);
    assert(report(host, port, certificate, protocols, Some(suites), Some(checks)) =~= report(
        host,
        port,
        certificate,
        protocols,
        Some(suites),
        None,
    ) + "⚠️  Vulnerability Checks"@ + "\n"@ + checks + "\n\n"@);
}

/// A report is on its scan: the host and port are those of the scan, the tables have
/// one row for each protocol, suite and check, in order and under their headers, and
/// suites and checks have a table exactly where there are any.
pub proof fn law_report_is_on_its_scan(
    result: ScanResult,
    protocols: Seq<Seq<Seq<char>>>,
    suites: Seq<Seq<Seq<char>>>,
    checks: Seq<Seq<Seq<char>>>,
)
    requires
        protocols.len() == result.protocols@.len(),
        forall|i: int|
            0 <= i < protocols.len() ==> #[trigger] protocols[i] == protocol_cells(
                result.protocols@[i]@,
            ),
        suites.len() == result.cipher_suites@.len(),
        forall|i: int|
            0 <= i < suites.len() ==> #[trigger] suites[i] == cipher_cells(
                result.cipher_suites@[i]@,
            ),
        checks.len() == result.vulnerabilities@.len(),
        forall|i: int|
            0 <= i < checks.len() ==> #[trigger] checks[i] == vuln_cells(
                result.vulnerabilities@[i]@,
            ),
    ensures
        report_on(result) == report(
            result.host@,
            result.port as nat,
            plain_table(certificate_cells(result.certificate@)),
            headed_table(
                seq!["Protocol"@, "Supported"@, "Negotiated Cipher"@, "Group"@],
                protocols,
            ),
            if suites.len() == 0 {
                None
            } else {
                Some(headed_table(seq!["Suite"@, "Accepted"@, "Strength"@], suites))
            },
            if checks.len() == 0 {
                None
            } else {
                Some(
                    headed_table(
                        seq!["Vulnerability"@, "Vulnerable"@, "Severity"@, "Notes"@],
                        checks,
                    ),
                )
            },
        ),
{
    assert(protocols =~= handshake::protocol_views(result.protocols@).map_values(
        |p: ProtocolView| protocol_cells(p),
    ));
    assert(suites =~= ciphers::cipher_views(result.cipher_suites@).map_values(
        |c: CipherView| cipher_cells(c),
    ));
    assert(checks =~= vulns::vuln_views(result.vulnerabilities@).map_values(
        |v: VulnView| vuln_cells(v),
    ));
}

} // verus!
