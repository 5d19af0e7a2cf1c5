//! The checks and the values they report.

pub mod cert;
pub mod ciphers;
pub mod connection;
pub mod ct;
pub mod der;
pub mod handshake;
pub mod http;
pub mod ip;
pub mod ocsp;
pub mod vulns;
pub mod x509;

use crate::error::ScanError;
use crate::scanner::cert::CertInfo;
use crate::scanner::ciphers::CipherResult;
use crate::scanner::connection::ConnectionProperties;
use crate::scanner::handshake::ProtocolResult;
use crate::scanner::vulns::VulnResult;
use crate::text;
use vstd::prelude::*;

verus! {

/// The endpoint that is inspected.
#[derive(Clone, Debug)]
pub struct Target {
    pub host: String,
    pub port: u16,
}

impl Target {
    /// The endpoint as `host:port`.
    pub fn addr(&self) -> (r: String)
        ensures
            r@ == self.host@ + ":"@ + text::decimal(self.port as nat),
    {
        let mut out = text::prefixed(self.host.as_str(), ":");
        let digits = text::decimal_text(self.port as u64);
        out.append(digits.as_str());
        out
    }
}

/// Which checks a scan makes beyond the certificate and the protocols, and how
/// long each network operation may take.
#[derive(Clone, Copy, Debug, PartialEq, Eq, Structural)]
pub struct ScanOpts {
    pub enumerate_ciphers: bool,
    pub check_vulns: bool,
    pub check_ocsp: bool,
    pub check_ct: bool,
    pub check_connection: bool,
    pub timeout_secs: u64,
}

impl ScanOpts {
    /// The options that command line flags ask for: each check on its own flag,
    /// or all of them.
    pub fn from_flags(
        enumerate_ciphers: bool,
        check_vulns: bool,
        ocsp: bool,
        ct: bool,
        connection: bool,
        all: bool,
        timeout_secs: u64,
    ) -> (r: ScanOpts)
        ensures
            r.enumerate_ciphers == (enumerate_ciphers || all),
            r.check_vulns == (check_vulns || all),
            r.check_ocsp == (ocsp || all),
            r.check_ct == (ct || all),
            r.check_connection == (connection || all),
            r.timeout_secs == timeout_secs,
    {
        ScanOpts {
            enumerate_ciphers: enumerate_ciphers || all,
            check_vulns: check_vulns || all,
            check_ocsp: ocsp || all,
            check_ct: ct || all,
            check_connection: connection || all,
            timeout_secs,
        }
    }
}

/// The limit on a network operation in seconds. A setting of zero disables it.
pub fn time_limit(timeout_secs: u64) -> (r: Option<u64>)
    ensures
        r == (if timeout_secs == 0 {
            None
        } else {
            Some(timeout_secs)
        }),
{
    if timeout_secs == 0 {
        None
    } else {
        Some(timeout_secs)
    }
}

/// The result of an operation that may have run out of time: what it returned, or
/// [`ScanError::Timeout`] where it did not return in time.
pub fn with_timeout<T>(finished: Option<Result<T, ScanError>>) -> (r: Result<T, ScanError>)
    ensures
        match finished {
            Some(result) => r == result,
            None => r == Err::<T, ScanError>(ScanError::Timeout),
        },
{
    match finished {
        Some(result) => result,
        None => Err(ScanError::Timeout),
    }
}

/// Everything a scan found.
#[derive(Debug)]
pub struct ScanResult {
    pub host: String,
    pub port: u16,
    pub certificate: CertInfo,
    pub protocols: Vec<ProtocolResult>,
    pub cipher_suites: Vec<CipherResult>,
    pub vulnerabilities: Vec<VulnResult>,
    pub connection: Option<ConnectionProperties>,
}

/// What a scan has found so far.
#[derive(Debug)]
pub struct Scan {
    /// The certificates that the server presented, leaf first.
    pub chain: Vec<Vec<u8>>,
    pub certificate: Option<CertInfo>,
    /// Whether the transparency logs were asked, with or without success.
    pub entries_asked: bool,
    pub protocols: Option<Vec<ProtocolResult>>,
    pub cipher_suites: Option<Vec<CipherResult>>,
    /// `Some(None)` where the connection checks failed.
    pub connection: Option<Option<ConnectionProperties>>,
}

/// What to do next in a scan.
#[derive(Clone, Copy, Debug, PartialEq, Eq, Structural)]
pub enum Action {
    /// Capture the certificates that the server presents.
    Handshake,
    /// Ask the OCSP responder about the captured leaf.
    Revocation,
    /// Ask the transparency logs about the host.
    Entries,
    /// Attempt a handshake with each protocol version.
    Protocols,
    /// Offer each cipher suite alone.
    Ciphers,
    /// Probe the connection properties.
    Connection,
    /// Nothing is left but to report.
    Report,
}

/// What came of an action.
#[derive(Debug)]
pub enum Event {
    /// The captured chain, and the time in seconds since 1970.
    Handshake(Result<Vec<Vec<u8>>, ScanError>, i64),
    Revocation(Result<String, ScanError>),
    Entries(Result<usize, ScanError>),
    Protocols(Result<Vec<ProtocolResult>, ScanError>),
    Ciphers(Result<Vec<CipherResult>, ScanError>),
    Connection(Result<ConnectionProperties, ScanError>),
}

/// The next action: the first that the options ask for and that has not been done.
/// The certificate and the protocols are always looked at.
pub open spec fn next_of(scan: Scan, opts: ScanOpts) -> Action {
    if scan.certificate is None {
        Action::Handshake
    } else if opts.check_ocsp && scan.certificate->0.ocsp_status is None {
        Action::Revocation
    } else if opts.check_ct && !scan.entries_asked {
        Action::Entries
    } else if scan.protocols is None {
        Action::Protocols
    } else if opts.enumerate_ciphers && scan.cipher_suites is None {
        Action::Ciphers
    } else if opts.check_connection && scan.connection is None {
        Action::Connection
    } else {
        Action::Report
    }
}

/// Whether `r` is what `event` makes of `scan`. A failure of the capturing
/// handshake, of the certificate, of the protocol probes or of the cipher probes
/// ends the scan with that error. A failure of the revocation check, of the log
/// lookup or of the connection checks is recorded and ends nothing. The advisory
/// checks have no place before there is a certificate.
pub open spec fn recorded(scan: Scan, event: Event, r: Result<Scan, ScanError>) -> bool {
    match event {
        Event::Handshake(Err(e), _) => r == Err::<Scan, ScanError>(e),
        Event::Handshake(Ok(chain), now) => match cert::inspected(
            ocsp::chain_view(chain@),
            now as int,
        ) {
            Err(e) => r is Err && r->Err_0@ == e,
            Ok(info) => {
                &&& r is Ok
                &&& r->Ok_0.certificate is Some
                &&& r->Ok_0.certificate->0@ == info
                &&& r->Ok_0 == (Scan { chain, certificate: r->Ok_0.certificate, ..scan })
            },
        },
        Event::Revocation(outcome) => match scan.certificate {
            None => r == Ok::<Scan, ScanError>(scan),
            Some(info) => {
                &&& r is Ok
                &&& r->Ok_0.certificate is Some
                &&& r->Ok_0.certificate->0@ == (cert::CertInfoView {
                    ocsp_status: Some(ocsp::rendered(ocsp::outcome_view(outcome))),
                    ..info@
                })
                &&& r->Ok_0 == (Scan { certificate: r->Ok_0.certificate, ..scan })
            },
        },
        Event::Entries(outcome) => match scan.certificate {
            None => r == Ok::<Scan, ScanError>(scan),
            Some(info) => {
                &&& r is Ok
                &&& r->Ok_0.certificate is Some
                &&& r->Ok_0.certificate->0@ == (cert::CertInfoView {
                    ct_log_entries: match outcome {
                        Ok(n) => Some(n as nat),
                        Err(_) => None,
                    },
                    ..info@
                })
                &&& r->Ok_0 == (Scan {
                    certificate: r->Ok_0.certificate,
                    entries_asked: true,
                    ..scan
                })
            },
        },
        Event::Protocols(Err(e)) => r == Err::<Scan, ScanError>(e),
        Event::Protocols(Ok(rows)) => r == Ok::<Scan, ScanError>(
            Scan { protocols: Some(rows), ..scan },
        ),
        Event::Ciphers(Err(e)) => r == Err::<Scan, ScanError>(e),
        Event::Ciphers(Ok(rows)) => r == Ok::<Scan, ScanError>(
            Scan { cipher_suites: Some(rows), ..scan },
        ),
        Event::Connection(outcome) => r == Ok::<Scan, ScanError>(
            Scan {
                connection: Some(
                    match outcome {
                        Ok(properties) => Some(properties),
                        Err(_) => None,
                    },
                ),
                ..scan
            },
        ),
    }
}

impl Scan {
    /// A scan that has found nothing yet.
    pub fn new() -> (r: Scan)
        ensures
            r.chain@.len() == 0,
            r.certificate is None,
            !r.entries_asked,
            r.protocols is None,
            r.cipher_suites is None,
            r.connection is None,
    {
        Scan {
            chain: Vec::new(),
            certificate: None,
            entries_asked: false,
            protocols: None,
            cipher_suites: None,
            connection: None,
        }
    }

    /// What to do next.
    pub fn next_action(&self, opts: &ScanOpts) -> (r: Action)
        ensures
            r == next_of(*self, *opts),
    {
        match &self.certificate {
            None => {
                return Action::Handshake;
            },
            Some(info) => {
                if opts.check_ocsp && info.ocsp_status.is_none() {
                    return Action::Revocation;
                }
            },
        }
        if opts.check_ct && !self.entries_asked {
            Action::Entries
        } else if self.protocols.is_none() {
            Action::Protocols
        } else if opts.enumerate_ciphers && self.cipher_suites.is_none() {
            Action::Ciphers
        } else if opts.check_connection && self.connection.is_none() {
            Action::Connection
        } else {
            Action::Report
        }
    }

    /// Take in what came of an action.
    pub fn record(self, event: Event) -> (r: Result<Scan, ScanError>)
        ensures
            recorded(self, event, r),
    {
        let mut scan = self;
        match event {
            Event::Handshake(Err(e), _) => {
                return Err(e);
            },
            Event::Handshake(Ok(chain), now) => match cert::inspect(chain.as_slice(), now) {
                Ok(info) => {
                    scan.certificate = Some(info);
                    scan.chain = chain;
                },
                Err(e) => {
                    return Err(e);
                },
            },
            Event::Revocation(outcome) => {
                scan.certificate = match scan.certificate {
                    Some(info) => Some(info.with_revocation(outcome)),
                    None => None,
                };
            },
            Event::Entries(outcome) => {
                scan.certificate = match scan.certificate {
                    Some(info) => {
                        scan.entries_asked = true;
                        Some(info.with_entries(outcome))
                    },
                    None => None,
                };
            },
            Event::Protocols(Err(e)) => {
                return Err(e);
            },
            Event::Protocols(Ok(rows)) => {
                scan.protocols = Some(rows);
            },
            Event::Ciphers(Err(e)) => {
                return Err(e);
            },
            Event::Ciphers(Ok(rows)) => {
                scan.cipher_suites = Some(rows);
            },
            Event::Connection(outcome) => {
                scan.connection = Some(
                    match outcome {
                        Ok(properties) => Some(properties),
                        Err(_) => None,
                    },
                );
            },
        }
        Ok(scan)
    }
}

/// Report on a scan once nothing is left to do. What the options did not ask for
/// is left out of the report.
pub fn run_scan(target: &Target, opts: &ScanOpts, scan: Scan) -> (r: Option<ScanResult>)
    ensures
        r is Some <==> next_of(scan, *opts) == Action::Report,
        r is Some ==> {
            &&& r->0.host@ == target.host@
            &&& r->0.port == target.port
            &&& r->0.certificate == scan.certificate->0
            &&& r->0.protocols == scan.protocols->0
            &&& if opts.enumerate_ciphers {
                r->0.cipher_suites == scan.cipher_suites->0
            } else {
                r->0.cipher_suites@.len() == 0
            }
            &&& if opts.check_vulns {
                vulns::vuln_views(r->0.vulnerabilities@) == vulns::findings(
                    handshake::protocol_views(scan.protocols->0@),
                )
            } else {
                r->0.vulnerabilities@.len() == 0
            }
            &&& if opts.check_connection {
                r->0.connection == scan.connection->0
            } else {
                r->0.connection is None
            }
        },
{
    if scan.next_action(opts) != Action::Report {
        return None;
    }
    let certificate = match scan.certificate {
        Some(info) => info,
        None => {
            return None;
        },
    };
    let protocols = match scan.protocols {
        Some(rows) => rows,
        None => {
            return None;
        },
    };
    let cipher_suites = match scan.cipher_suites {
        Some(rows) => if opts.enumerate_ciphers {
            rows
        } else {
            Vec::new()
        },
        None => Vec::new(),
    };
    let vulnerabilities = if opts.check_vulns {
        match vulns::check_all(target, protocols.as_slice()) {
            Ok(checks) => checks,
            Err(_) => Vec::new(),
        }
    } else {
        Vec::new()
    };
    let connection = match scan.connection {
        Some(properties) => if opts.check_connection {
            properties
        } else {
            None
        },
        None => None,
    };
    Some(
        ScanResult {
            host: target.host.clone(),
            port: target.port,
            certificate,
            protocols,
            cipher_suites,
            vulnerabilities,
            connection,
        },
    )
}

/// How many actions are left before the report.
pub open spec fn actions_left(scan: Scan, opts: ScanOpts) -> nat {
    (if scan.certificate is None {
        1nat
    } else {
        0
    }) + (if opts.check_ocsp && (scan.certificate is None || scan.certificate->0.ocsp_status is None) {
        1nat
    } else {
        0
    }) + (if opts.check_ct && !scan.entries_asked {
        1nat
    } else {
        0
    }) + (if scan.protocols is None {
        1nat
    } else {
        0
    }) + (if opts.enumerate_ciphers && scan.cipher_suites is None {
        1nat
    } else {
        0
    }) + (if opts.check_connection && scan.connection is None {
        1nat
    } else {
        0
    })
}

/// Whether an event is what comes of an action.
pub open spec fn answers(event: Event, action: Action) -> bool {
    match action {
        Action::Handshake => event is Handshake,
        Action::Revocation => event is Revocation,
        Action::Entries => event is Entries,
        Action::Protocols => event is Protocols,
        Action::Ciphers => event is Ciphers,
        Action::Connection => event is Connection,
        Action::Report => false,
    }
}

/// A scan makes progress: each action that is done as asked, and does not end the
/// scan, leaves one fewer to do, so that the report is reached.
pub proof fn law_each_action_is_done_once(
    scan: Scan,
    opts: ScanOpts,
    event: Event,
    after: Scan,
)
    requires
        answers(event, next_of(scan, opts)),
        recorded(scan, event, Ok(after)),
    ensures
        actions_left(after, opts) + 1 == actions_left(scan, opts),
{
    match event {
        Event::Handshake(Ok(chain), now) => {
            assert(after.certificate->0@.ocsp_status is None);
        },
        Event::Revocation(outcome) => {
            assert(after.certificate->0@.ocsp_status is Some);
        },
        Event::Entries(outcome) => {
            assert(after.certificate->0@.ocsp_status == scan.certificate->0@.ocsp_status);
        },
        _ => {},
    }
}

/// The report comes exactly when no action is left.
pub proof fn law_report_comes_last(scan: Scan, opts: ScanOpts)
    ensures
        next_of(scan, opts) == Action::Report <==> actions_left(scan, opts) == 0,
{
}

/// The advisory checks never end a scan, whatever came of them.
pub proof fn law_advisory_failures_are_not_fatal(
    scan: Scan,
    event: Event,
    r: Result<Scan, ScanError>,
)
    requires
        event is Revocation || event is Entries || event is Connection,
        recorded(scan, event, r),
    ensures
        r is Ok,
{
}

/// What a scan has found is kept: no later event changes the chain, or what was
/// read from the certificate, but for the advisory fields.
pub proof fn law_findings_are_kept(scan: Scan, event: Event, after: Scan)
    requires
        event !is Handshake,
        scan.certificate is Some,
        recorded(scan, event, Ok(after)),
    ensures
        after.chain == scan.chain,
        after.certificate is Some,
        after.certificate->0@ == (cert::CertInfoView {
            ocsp_status: after.certificate->0@.ocsp_status,
            ct_log_entries: after.certificate->0@.ct_log_entries,
            ..scan.certificate->0@
        }),
{
}

/// The checks are made in one order, each where it is asked for and has not been made:
/// the certificate, its revocation, the transparency logs, the protocols, the cipher
/// suites, the connection; the report comes when nothing of these is left.
pub proof fn law_checks_are_made_in_order(scan: Scan, opts: ScanOpts)
    ensures
        ({
            let next = next_of(scan, opts);
            let captured = scan.certificate is Some;
            let revocation = opts.check_ocsp && scan.certificate->0.ocsp_status is None;
            let entries = opts.check_ct && !scan.entries_asked;
            let protocols = scan.protocols is None;
            let ciphers = opts.enumerate_ciphers && scan.cipher_suites is None;
            let connection = opts.check_connection && scan.connection is None;
            &&& next == Action::Handshake <==> !captured
            &&& next == Action::Revocation <==> captured && revocation
            &&& next == Action::Entries <==> captured && !revocation && entries
            &&& next == Action::Protocols <==> captured && !revocation && !entries && protocols
            &&& next == Action::Ciphers <==> captured && !revocation && !entries && !protocols
                && ciphers
            &&& next == Action::Connection <==> captured && !revocation && !entries && !protocols
                && !ciphers && connection
            &&& next == Action::Report <==> captured && !revocation && !entries && !protocols
                && !ciphers && !connection
        }),
{
}

/// A check that is not asked for is not made, whatever the scan has found.
pub proof fn law_only_what_is_asked_for_is_checked(scan: Scan, opts: ScanOpts)
    ensures
        next_of(scan, opts) == Action::Revocation ==> opts.check_ocsp,
        next_of(scan, opts) == Action::Entries ==> opts.check_ct,
        next_of(scan, opts) == Action::Ciphers ==> opts.enumerate_ciphers,
        next_of(scan, opts) == Action::Connection ==> opts.check_connection,
        next_of(scan, opts) == next_of(
            scan,
            ScanOpts { check_vulns: !opts.check_vulns, timeout_secs: 0, ..opts },
        ),
{
}

/// A failure of the handshake, of the protocol probes or of the cipher probes ends the
/// scan with that failure, and so does a chain that cannot be inspected.
pub proof fn law_other_failures_are_fatal(
    scan: Scan,
    e: ScanError,
    chain: Vec<Vec<u8>>,
    now: i64,
    r: Result<Scan, ScanError>,
)
    ensures
        recorded(scan, Event::Handshake(Err(e), now), r) ==> r == Err::<Scan, ScanError>(e),
        recorded(scan, Event::Protocols(Err(e)), r) ==> r == Err::<Scan, ScanError>(e),
        recorded(scan, Event::Ciphers(Err(e)), r) ==> r == Err::<Scan, ScanError>(e),
        recorded(scan, Event::Handshake(Ok(chain), now), r) && cert::inspected(
            ocsp::chain_view(chain@),
            now as int,
        ) is Err ==> r is Err && r->Err_0@ == cert::inspected(
            ocsp::chain_view(chain@),
            now as int,
        )->Err_0,
{
}

/// What a handshake captured is inspected at the time it was captured, and kept; what
/// had been found otherwise stays.
pub proof fn law_captured_chain_is_inspected(
    scan: Scan,
    chain: Vec<Vec<u8>>,
    now: i64,
    r: Result<Scan, ScanError>,
)
    requires
        recorded(scan, Event::Handshake(Ok(chain), now), r),
        cert::inspected(ocsp::chain_view(chain@), now as int) is Ok,
    ensures
        r is Ok,
        r->Ok_0.chain == chain,
        r->Ok_0.certificate is Some,
        r->Ok_0.certificate->0@ == cert::inspected(ocsp::chain_view(chain@), now as int)->Ok_0,
        r->Ok_0.entries_asked == scan.entries_asked,
        r->Ok_0.protocols == scan.protocols,
        r->Ok_0.cipher_suites == scan.cipher_suites,
        r->Ok_0.connection == scan.connection,
{
}

/// What the protocol probes, the cipher probes and the connection checks found is kept
/// as it came, each in its own place; connection checks that failed leave that they
/// were made.
pub proof fn law_findings_are_recorded(
    scan: Scan,
    protocols: Vec<ProtocolResult>,
    ciphers: Vec<CipherResult>,
    properties: ConnectionProperties,
    e: ScanError,
    r: Result<Scan, ScanError>,
)
    ensures
        recorded(scan, Event::Protocols(Ok(protocols)), r) ==> {
            &&& r is Ok
            &&& r->Ok_0.protocols == Some(protocols)
            &&& r->Ok_0.chain == scan.chain
            &&& r->Ok_0.certificate == scan.certificate
            &&& r->Ok_0.entries_asked == scan.entries_asked
            &&& r->Ok_0.cipher_suites == scan.cipher_suites
            &&& r->Ok_0.connection == scan.connection
        },
        recorded(scan, Event::Ciphers(Ok(ciphers)), r) ==> {
            &&& r is Ok
            &&& r->Ok_0.cipher_suites == Some(ciphers)
            &&& r->Ok_0.chain == scan.chain
            &&& r->Ok_0.certificate == scan.certificate
            &&& r->Ok_0.entries_asked == scan.entries_asked
            &&& r->Ok_0.protocols == scan.protocols
            &&& r->Ok_0.connection == scan.connection
        },
        recorded(scan, Event::Connection(Ok(properties)), r) ==> {
            &&& r is Ok
            &&& r->Ok_0.connection == Some(Some(properties))
            &&& r->Ok_0.chain == scan.chain
            &&& r->Ok_0.certificate == scan.certificate
            &&& r->Ok_0.entries_asked == scan.entries_asked
            &&& r->Ok_0.protocols == scan.protocols
            &&& r->Ok_0.cipher_suites == scan.cipher_suites
        },
        recorded(scan, Event::Connection(Err(e)), r) ==> {
            &&& r is Ok
            &&& r->Ok_0.connection == Some(None::<ConnectionProperties>)
            &&& r->Ok_0.chain == scan.chain
            &&& r->Ok_0.certificate == scan.certificate
            &&& r->Ok_0.entries_asked == scan.entries_asked
            &&& r->Ok_0.protocols == scan.protocols
            &&& r->Ok_0.cipher_suites == scan.cipher_suites
        },
{
}

/// The advisory checks are noted on the certificate: a status as it came and a failure
/// as its message after a notice, a number of entries as it came and a failure as
/// none. The other check's note, and all else that was found, stays.
pub proof fn law_advice_is_noted(
    scan: Scan,
    status: String,
    n: usize,
    e: ScanError,
    r: Result<Scan, ScanError>,
)
    requires
        scan.certificate is Some,
    ensures
        recorded(scan, Event::Revocation(Ok(status)), r) ==> {
            &&& r is Ok
            &&& r->Ok_0.certificate->0@.ocsp_status == Some(status@)
            &&& r->Ok_0.certificate->0@.ct_log_entries == scan.certificate->0@.ct_log_entries
            &&& r->Ok_0.entries_asked == scan.entries_asked
        },
        recorded(scan, Event::Revocation(Err(e)), r) ==> {
            &&& r is Ok
            &&& r->Ok_0.certificate->0@.ocsp_status == Some(
                "Check failed: "@ + crate::error::error_text(e@),
            )
            &&& r->Ok_0.certificate->0@.ct_log_entries == scan.certificate->0@.ct_log_entries
            &&& r->Ok_0.entries_asked == scan.entries_asked
        },
        recorded(scan, Event::Entries(Ok(n)), r) ==> {
            &&& r is Ok
            &&& r->Ok_0.certificate->0@.ct_log_entries == Some(n as nat)
            &&& r->Ok_0.certificate->0@.ocsp_status == scan.certificate->0@.ocsp_status
            &&& r->Ok_0.entries_asked
        },
        recorded(scan, Event::Entries(Err(e)), r) ==> {
            &&& r is Ok
            &&& r->Ok_0.certificate->0@.ct_log_entries is None
            &&& r->Ok_0.certificate->0@.ocsp_status == scan.certificate->0@.ocsp_status
            &&& r->Ok_0.entries_asked
        },
        forall|outcome: Result<String, ScanError>| #[trigger]
            recorded(scan, Event::Revocation(outcome), r) ==> {
                &&& r->Ok_0.protocols == scan.protocols
                &&& r->Ok_0.cipher_suites == scan.cipher_suites
                &&& r->Ok_0.connection == scan.connection
            },
        forall|outcome: Result<usize, ScanError>| #[trigger]
            recorded(scan, Event::Entries(outcome), r) ==> {
                &&& r->Ok_0.protocols == scan.protocols
                &&& r->Ok_0.cipher_suites == scan.cipher_suites
                &&& r->Ok_0.connection == scan.connection
            },
{
}

/// Before there is a certificate the advisory checks change nothing.
pub proof fn law_advice_needs_a_certificate(
    scan: Scan,
    revocation: Result<String, ScanError>,
    entries: Result<usize, ScanError>,
    r: Result<Scan, ScanError>,
)
    requires
        scan.certificate is None,
    ensures
        recorded(scan, Event::Revocation(revocation), r) ==> r == Ok::<Scan, ScanError>(scan),
        recorded(scan, Event::Entries(entries), r) ==> r == Ok::<Scan, ScanError>(scan),
{
}

/// A limit of zero seconds is no limit, and any other is the limit itself.
pub proof fn law_zero_disables_the_limit(secs: u64, r: Option<u64>)
    requires
        call_ensures(time_limit, (secs,), r),
    ensures
        secs == 0 ==> r is None,
        secs > 0 ==> r == Some(secs),
{
}

/// Every flag turns its own check on and no other, and the last one turns all of them
/// on; none has a say in the limit.
pub proof fn law_flags_turn_on_their_checks(
    ciphers: bool,
    vulns: bool,
    ocsp: bool,
    ct: bool,
    connection: bool,
    secs: u64,
    all: ScanOpts,
    some: ScanOpts,
)
    requires
        call_ensures(ScanOpts::from_flags, (ciphers, vulns, ocsp, ct, connection, true, secs), all),
        call_ensures(
            ScanOpts::from_flags,
            (ciphers, vulns, ocsp, ct, connection, false, secs),
            some,
        ),
    ensures
        all.enumerate_ciphers && all.check_vulns && all.check_ocsp && all.check_ct
            && all.check_connection,
        some.enumerate_ciphers == ciphers,
        some.check_vulns == vulns,
        some.check_ocsp == ocsp,
        some.check_ct == ct,
        some.check_connection == connection,
        all.timeout_secs == secs,
        some.timeout_secs == secs,
{
}

/// What finished in time is the result as it is, and what did not is a timeout.
pub proof fn law_unfinished_is_a_timeout<T>(
    finished: Result<T, ScanError>,
    kept: Result<T, ScanError>,
    late: Result<T, ScanError>,
)
    requires
        call_ensures(with_timeout::<T>, (Some(finished),), kept),
        call_ensures(with_timeout::<T>, (None::<Result<T, ScanError>>,), late),
    ensures
        kept == finished,
        late == Err::<T, ScanError>(ScanError::Timeout),
{
}

/// An endpoint is its host, a colon and its port in decimal digits.
pub proof fn law_endpoint_is_host_and_port(target: Target, r: String)
    requires
        call_ensures(Target::addr, (&target,), r),
    ensures
        r@ == target.host@ + ":"@ + text::decimal(target.port as nat),
{
}

/// A report is of its endpoint and of what the scan found: the certificate and the
/// protocols always, the cipher suites and the connection only where they were asked
/// for, and checks for vulnerabilities only where those were.
pub proof fn law_report_is_of_the_scan(
    target: Target,
    opts: ScanOpts,
    scan: Scan,
    r: Option<ScanResult>,
)
    requires
        call_ensures(run_scan, (&target, &opts, scan), r),
        r is Some,
    ensures
        r->0.host@ == target.host@,
        r->0.port == target.port,
        scan.certificate == Some(r->0.certificate),
        scan.protocols == Some(r->0.protocols),
        opts.enumerate_ciphers ==> scan.cipher_suites == Some(r->0.cipher_suites),
        !opts.enumerate_ciphers ==> r->0.cipher_suites@.len() == 0,
        opts.check_connection ==> scan.connection == Some(r->0.connection),
        !opts.check_connection ==> r->0.connection is None,
        opts.check_vulns ==> r->0.vulnerabilities@.len() == 4,
        !opts.check_vulns ==> r->0.vulnerabilities@.len() == 0,
{
    if opts.check_vulns {
        assert(vulns::vuln_views(r->0.vulnerabilities@).len() == 4);
    }
}

/// A scan is reported on exactly where nothing that was asked for is left to do.
pub proof fn law_report_waits_for_every_check(
    target: Target,
    opts: ScanOpts,
    scan: Scan,
    r: Option<ScanResult>,
)
    requires
        call_ensures(run_scan, (&target, &opts, scan), r),
    ensures
        r is Some <==> {
            &&& scan.certificate is Some
            &&& opts.check_ocsp ==> scan.certificate->0.ocsp_status is Some
            &&& opts.check_ct ==> scan.entries_asked
            &&& scan.protocols is Some
            &&& opts.enumerate_ciphers ==> scan.cipher_suites is Some
            &&& opts.check_connection ==> scan.connection is Some
        },
{
}

} // verus!
