//! URLs, parsed by the `url` crate into the plain parts that the library reads.
use vstd::prelude::*;

verus! {

/// The parts of a parsed URL that the library reads.
pub struct UrlParts {
    /// The whole URL as the parser writes it back.
    pub serialization: Seq<char>,
    /// The scheme, lower-cased, without its `:`.
    pub scheme: Seq<char>,
    /// The host, where the URL has one.
    pub host: Option<Seq<char>>,
    /// The port, where the URL names one that is not the scheme's default.
    pub port: Option<u16>,
}

/// A parsed URL.
#[derive(Debug)]
pub struct ParsedUrl {
    pub serialization: String,
    pub scheme: String,
    pub host: Option<String>,
    pub port: Option<u16>,
}

impl View for ParsedUrl {
    type V = UrlParts;

    open spec fn view(&self) -> UrlParts {
        UrlParts {
            serialization: self.serialization@,
            scheme: self.scheme@,
            host: match self.host {
                Some(h) => Some(h@),
                None => None,
            },
            port: self.port,
        }
    }
}

/// What `url::Url::parse` makes of a text: its parts, or `None` where it rejects the text.
pub uninterp spec fn url_parse(text: Seq<char>) -> Option<UrlParts>;

/// Calls `url::Url::parse` and reads `as_str`, `scheme`, `host_str` and `port` of the
/// result. Claims that the parts are `url_parse` of the text, and `None` exactly where
/// that name is `None`.
#[verifier::external_body]
pub(crate) fn parse_url(text: &str) -> (r: Option<ParsedUrl>)
    ensures
        match r {
            Some(u) => url_parse(text@) == Some(u@),
            None => url_parse(text@) is None,
        },
{
    match url::Url::parse(text) {
        Ok(u) => Some(
            ParsedUrl {
                serialization: u.as_str().to_string(),
                scheme: u.scheme().to_string(),
                host: u.host_str().map(str::to_string),
                port: u.port(),
            },
        ),
        Err(_) => None,
    }
}

} // verus!
