//! The GitHub issue record that the crawl keeps.
use vstd::prelude::*;
use crate::time::{parse_utc, utc_parsed};

verus! {

/// An issue as GitHub's API describes it: the fields the library reads.
#[derive(Debug)]
pub struct IssueFromJson {
    pub number: u64,
    pub title: String,
    pub body: Option<String>,
    /// When the issue last changed, in seconds since the Unix epoch (UTC).
    pub updated_at: i64,
}

/// The content of an issue record.
pub struct IssueView {
    pub number: u64,
    pub title: Seq<char>,
    pub body: Option<Seq<char>>,
    pub updated_at: i64,
}

impl View for IssueFromJson {
    type V = IssueView;

    open spec fn view(&self) -> IssueView {
        IssueView {
            number: self.number,
            title: self.title@,
            body: match self.body {
                Some(b) => Some(b@),
                None => None,
            },
            updated_at: self.updated_at,
        }
    }
}

impl IssueFromJson {
    /// The record for an issue from the fields of its JSON description, `updated_at` as
    /// the date-time text that GitHub writes; `None` where that text is not a date-time.
    pub fn from_fields(number: u64, title: String, body: Option<String>, updated_at: &str) -> (r:
        Option<IssueFromJson>)
        ensures
            match utc_parsed(updated_at@) {
                Some(t) => r matches Some(i) && i@ == (IssueView {
                    number,
                    title: title@,
                    body: match body {
                        Some(b) => Some(b@),
                        None => None,
                    },
                    updated_at: t,
                }),
                None => r is None,
            },
    {
        match parse_utc(updated_at) {
            Some(t) => Some(IssueFromJson { number, title, body, updated_at: t }),
            None => None,
        }
    }

    /// Whether two records hold the same content.
    pub fn same_as(&self, other: &IssueFromJson) -> (r: bool)
        ensures
            r == (self@ == other@),
    {
        if self.number != other.number || self.updated_at != other.updated_at {
            return false;
        }
        if self.title != other.title {
            return false;
        }
        match (&self.body, &other.body) {
            (Some(a), Some(b)) => *a == *b,
            (None, None) => true,
            _ => false,
        }
    }
}

} // verus!

verus! {

/// A JSON value as GitHub's API returns it; numbers keep their text, objects their members
/// in order.
#[derive(Debug)]
pub enum JsonValue {
    Null,
    Bool(bool),
    Number(String),
    Str(String),
    Array(Vec<JsonValue>),
    Object(Vec<(String, JsonValue)>),
}

/// The value of the first member of an object named `name`.
pub open spec fn json_member(m: Seq<(String, JsonValue)>, name: Seq<char>) -> Option<JsonValue>
    decreases m.len(),
{
    if m.len() == 0 {
        None
    } else if m[0].0@ == name {
        Some(m[0].1)
    } else {
        json_member(m.drop_first(), name)
    }
}

/// The value of the first member of an object named `name`.
pub fn get_member<'a>(m: &'a Vec<(String, JsonValue)>, name: &str) -> (r: Option<&'a JsonValue>)
    ensures
        match r {
            Some(v) => json_member(m@, name@) == Some(*v),
            None => json_member(m@, name@) is None,
        },
{
    let mut i: usize = 0;
    assert(m@.skip(0) =~= m@);
    while i < m.len()
        invariant
            i <= m@.len(),
            json_member(m@, name@) == json_member(m@.skip(i as int), name@),
        decreases m@.len() - i,
    {
        if crate::text::str_eq(m[i].0.as_str(), name) {
            return Some(&m[i].1);
        }
        assert(m@.skip(i as int).drop_first() =~= m@.skip(i + 1));
        i = i + 1;
    }
    None
}

} // verus!
