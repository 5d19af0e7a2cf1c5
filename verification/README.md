# russl

The logic of a TLS inspection tool, verified with Verus.

`src/` is the library:

- `scanner` decides what a scan does next, takes in what came of it and puts the
  result together. Its modules hold the checks: `cert` (names, validity, key
  strength, validation level), `ocsp` (revocation requests and responses), `ct`
  (transparency log counts), `handshake` and `ciphers` (protocol versions and
  suites), `vulns` (checks inferred from the protocols) and `connection` (forward
  secrecy, stapling, resumption, SNI, HSTS). `der`, `http`, `ip` and `x509` are the
  formats they rest on.
- `output` lays the report out as tables.
- `error` and `text` hold the errors and the string handling that all share.

Every function states its result in its contract. Properties that span functions,
such as that reading gives back what was encoded, are public proof functions named
`law_…`. What other crates compute (X.509 and JSON parsing, SHA-1, names of TLS
parameters, table drawing) enters through small functions marked
`#[verifier::external_body]`, whose doc comments say what is taken on trust.

`app/` is the program around the library: arguments, sockets, TLS connections, the
clock and JSON output. The TLS stack implements TLS 1.2 and TLS 1.3; the older
versions are reported as not supported.
