//! The errors of the library, each with the message the tools print for it.
use vstd::prelude::*;
use crate::text::format_u32;

verus! {

/// What can go wrong while reading a plan, checking it, or preparing GitHub requests.
#[derive(Debug)]
pub enum Error {
    /// The YAML reader rejected a text; the reader's own message.
    YamlScan(String),
    /// A GitHub request was answered with an unsuccessful status code.
    HttpStatus(u32),
    /// A file that should exist does not.
    FileNotFound,
    /// Some reference of the plan points at nothing.
    InvalidBattleplan,
    /// A YAML map lacks a required field.
    MissingField(String),
    /// A field that must hold a string holds something else.
    NotAString,
    /// A field that must hold a boolean holds something else.
    NotABool,
    /// A data file holds no YAML document; the kind of record it should list.
    NoElements(String),
    /// A data file's first document is not a list; the kind of record it should list.
    NotAnArray(String),
    /// A URL has a scheme other than `http` or `https`.
    UnsupportedScheme(String),
    /// A GitHub answer is not shaped as expected.
    UnexpectedJson,
    /// A pull request record names no URL to fetch it from.
    MissingPullRequestUrl,
}

/// The message printed for an error.
pub open spec fn error_message(e: Error) -> Seq<char> {
    match e {
        Error::YamlScan(m) => m@,
        Error::HttpStatus(code) => "http request returned an unsuccessful status code: "@
            + crate::text::decimal(code as nat),
        Error::FileNotFound => "file not found"@,
        Error::InvalidBattleplan => "invalid battleplan"@,
        Error::MissingField(f) => "missing field `"@ + f@ + "`"@,
        Error::NotAString => "not a string"@,
        Error::NotABool => "not a bool"@,
        Error::NoElements(t) => t@ + " yaml has no elements"@,
        Error::NotAnArray(t) => t@ + " yaml is not an array"@,
        Error::UnsupportedScheme(s) => "unsupported URL scheme: '"@ + s@ + "'"@,
        Error::UnexpectedJson => "FIXME"@,
        Error::MissingPullRequestUrl => "FIXME"@,
    }
}

impl Error {
    /// The message printed for this error.
    pub fn message(&self) -> (r: String)
        ensures
            r@ == error_message(*self),
    {
        match self {
            Error::YamlScan(m) => m.clone(),
            Error::HttpStatus(code) => {
                let mut s = String::from_str("http request returned an unsuccessful status code: ");
                let n = format_u32(*code);
                s.append(n.as_str());
                s
            },
            Error::FileNotFound => String::from_str("file not found"),
            Error::InvalidBattleplan => String::from_str("invalid battleplan"),
            Error::MissingField(f) => {
                let mut s = String::from_str("missing field `");
                s.append(f.as_str());
                s.append("`");
                s
            },
            Error::NotAString => String::from_str("not a string"),
            Error::NotABool => String::from_str("not a bool"),
            Error::NoElements(t) => {
                let mut s = t.clone();
                s.append(" yaml has no elements");
                s
            },
            Error::NotAnArray(t) => {
                let mut s = t.clone();
                s.append(" yaml is not an array");
                s
            },
            Error::UnsupportedScheme(sc) => {
                let mut s = String::from_str("unsupported URL scheme: '");
                s.append(sc.as_str());
                s.append("'");
                s
            },
            Error::UnexpectedJson => String::from_str("FIXME"),
            Error::MissingPullRequestUrl => String::from_str("FIXME"),
        }
    }
}

} // verus!
