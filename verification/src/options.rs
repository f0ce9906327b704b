//! The server's start-up options, as plain data.
//!
//! Parsing the command line and reading files happen outside the library;
//! the values land here.

use vstd::prelude::*;

use crate::authorization::AuthorizationSpec;

verus! {

/// What the server is started with.
#[derive(Clone, Debug)]
pub struct Options {
    /// `host:port` to listen on.
    pub endpoint: String,
    /// Whether to wrap accepted connections in TLS.
    pub tls: bool,
    /// The certificate file, when TLS is on.
    pub certfile: Option<String>,
    /// The private key file, when TLS is on.
    pub keyfile: Option<String>,
    /// The password file for the `htpasswd` method.
    pub pwfile: Option<String>,
    /// The authorization policy file.
    pub authorizations_file: Option<String>,
    /// Policy rules given inline, merged with the file's.
    pub authorizations: Vec<AuthorizationSpec>,
}

} // verus!
