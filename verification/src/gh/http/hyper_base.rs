//! Choosing a connection by URL scheme, and a proxy from the environment.
use vstd::prelude::*;
use crate::errors::Error;
use crate::web::{ParsedUrl, parse_url, url_parse};

verus! {

/// A TLS client that can be made from nothing and that may need its root certificates set
/// up before use.
pub trait NewSslClient: Sized {
    fn new() -> Self;

    fn maybe_init_certs();
}

/// The connection that a download uses.
pub enum Connector<S> {
    /// Over TLS, with this client.
    Https(S),
    /// In plain text.
    Http,
}

/// Chooses the connection for `url`: TLS for `https`, plain for `http`; any other scheme is
/// refused. The TLS client's certificates are set up first, whatever the scheme.
pub fn download<S: NewSslClient>(url: &ParsedUrl) -> (r: Result<Connector<S>, Error>)
    ensures
        url@.scheme == "https"@ ==> r matches Ok(Connector::Https(_)),
        url@.scheme == "http"@ ==> r matches Ok(Connector::Http),
        url@.scheme != "https"@ && url@.scheme != "http"@ ==> (r matches Err(
            Error::UnsupportedScheme(s),
        ) && s@ == url@.scheme),
{
    S::maybe_init_certs();
    proof {
        reveal_strlit("https");
        reveal_strlit("http");
        assert("https"@.len() == 5 && "http"@.len() == 4);
    }
    if crate::text::str_eq(url.scheme.as_str(), "https") {
        Ok(Connector::Https(S::new()))
    } else if crate::text::str_eq(url.scheme.as_str(), "http") {
        Ok(Connector::Http)
    } else {
        Err(Error::UnsupportedScheme(url.scheme.clone()))
    }
}

/// The proxy settings of the environment; a variable that is not valid Unicode reads as an
/// empty text.
pub struct ProxyEnv {
    /// `https_proxy`.
    pub https_proxy: Option<String>,
    /// `HTTPS_PROXY`, read where `https_proxy` is not set.
    pub https_proxy_upper: Option<String>,
    /// `http_proxy`.
    pub http_proxy: Option<String>,
    /// `all_proxy`.
    pub all_proxy: Option<String>,
    /// `ALL_PROXY`, read where `all_proxy` is not set.
    pub all_proxy_upper: Option<String>,
}

/// The text of an optional string.
pub open spec fn opt_view(o: Option<String>) -> Option<Seq<char>> {
    match o {
        Some(s) => Some(s@),
        None => None,
    }
}

/// The first of two optional texts that is set.
pub open spec fn or_else(a: Option<Seq<char>>, b: Option<Seq<char>>) -> Option<Seq<char>> {
    match a {
        Some(x) => Some(x),
        None => b,
    }
}

/// The proxy setting that applies to a URL of scheme `scheme`: for `https` the HTTPS
/// setting, else the HTTP one, else the general one; for `http` the HTTP one, else the
/// general one; for any other scheme the general one.
pub open spec fn proxy_setting(scheme: Seq<char>, env: ProxyEnv) -> Option<Seq<char>> {
    let https = or_else(opt_view(env.https_proxy), opt_view(env.https_proxy_upper));
    let http = opt_view(env.http_proxy);
    let all = or_else(opt_view(env.all_proxy), opt_view(env.all_proxy_upper));
    if scheme == "https"@ {
        or_else(https, or_else(http, all))
    } else if scheme == "http"@ {
        or_else(http, all)
    } else {
        all
    }
}

/// The proxy host and port for a URL of scheme `scheme`: those of the setting that applies,
/// where it parses as a URL with a host; the port is 8080 where the setting names none.
pub open spec fn proxy_spec(scheme: Seq<char>, env: ProxyEnv) -> Option<(Seq<char>, u16)> {
    match proxy_setting(scheme, env) {
        Some(v) => match url_parse(v) {
            Some(p) => match p.host {
                Some(h) => Some(
                    (
                        h,
                        match p.port {
                            Some(n) => n,
                            None => 8080,
                        },
                    ),
                ),
                None => None,
            },
            None => None,
        },
        None => None,
    }
}

fn first_set(a: &Option<String>, b: &Option<String>) -> (r: Option<String>)
    ensures
        opt_view(r) == or_else(opt_view(*a), opt_view(*b)),
{
    match a {
        Some(x) => Some(x.clone()),
        None => match b {
            Some(y) => Some(y.clone()),
            None => None,
        },
    }
}

/// The proxy host and port that the environment names for a download of `url`.
pub fn proxy_from_env(url: &ParsedUrl, env: &ProxyEnv) -> (r: Option<(String, u16)>)
    ensures
        match r {
            Some((h, p)) => proxy_spec(url@.scheme, *env) == Some((h@, p)),
            None => proxy_spec(url@.scheme, *env) is None,
        },
{
    proof {
        reveal_strlit("https");
        reveal_strlit("http");
        assert("https"@.len() == 5 && "http"@.len() == 4);
    }
    let https = first_set(&env.https_proxy, &env.https_proxy_upper);
    let http = match &env.http_proxy {
        Some(x) => Some(x.clone()),
        None => None,
    };
    assert(opt_view(http) == opt_view(env.http_proxy));
    let all = first_set(&env.all_proxy, &env.all_proxy_upper);
    let setting = if crate::text::str_eq(url.scheme.as_str(), "https") {
        let rest = first_set(&http, &all);
        first_set(&https, &rest)
    } else if crate::text::str_eq(url.scheme.as_str(), "http") {
        first_set(&http, &all)
    } else {
        all
    };
    assert(opt_view(setting) == proxy_setting(url@.scheme, *env));
    match setting {
        Some(v) => match parse_url(v.as_str()) {
            Some(p) => match p.host {
                Some(h) => {
                    let port = match p.port {
                        Some(n) => n,
                        None => 8080,
                    };
                    Some((h, port))
                },
                None => None,
            },
            None => None,
        },
        None => None,
    }
}

} // verus!
