//! The TLS client of the platform and the download that uses it.
use vstd::prelude::*;
use crate::errors::Error;
use crate::gh::http::hyper_base::{self, Connector, NewSslClient};
use crate::web::ParsedUrl;

verus! {

/// The platform's TLS client, set up for the system's root certificates.
pub struct NativeSslClient;

impl NewSslClient for NativeSslClient {
    fn new() -> Self {
        NativeSslClient
    }

    fn maybe_init_certs() {
        maybe_init_certs()
    }
}

/// Calls `openssl_probe::init_ssl_cert_env_vars`, which points the process's
/// `SSL_CERT_FILE` and `SSL_CERT_DIR` at the system's root certificates where it finds
/// them. Nothing is claimed: the effect is on the process environment.
#[verifier::external_body]
#[allow(deprecated)]
pub fn maybe_init_certs() {
    openssl_probe::init_ssl_cert_env_vars()
}

/// Chooses the connection for `url` with the platform's TLS client.
pub fn download(url: &ParsedUrl) -> (r: Result<Connector<NativeSslClient>, Error>)
    ensures
        url@.scheme == "https"@ ==> r matches Ok(Connector::Https(_)),
        url@.scheme == "http"@ ==> r matches Ok(Connector::Http),
        url@.scheme != "https"@ && url@.scheme != "http"@ ==> (r matches Err(
            Error::UnsupportedScheme(s),
        ) && s@ == url@.scheme),
{
    hyper_base::download::<NativeSslClient>(url)
}

} // verus!
