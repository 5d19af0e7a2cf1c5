//! The logic of a TLS inspection tool: DER and HTTP codecs, certificate
//! classification, revocation and transparency lookups, connection properties
//! and the report. Network traffic, argument handling and printing live in the
//! surrounding program.

pub mod error;
pub mod output;
pub mod scanner;
pub mod text;
