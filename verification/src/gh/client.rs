//! The GitHub API client: the requests it makes and what it reads from the answers. The
//! requests themselves are sent by the caller.
use vstd::prelude::*;
use crate::errors::Error;
use crate::gh::models::{JsonValue, get_member, json_member};
use crate::text::{
    decimal,
    Strip,
    format_u32,
    lemma_seq_lt_total,
    lemma_seq_lt_trans,
    seq_lt,
    split_char,
    split_spec,
    str_eq,
    str_lt,
    strip_both,
    strip_end,
    strip_start,
    trim,
    trim_spec,
};
use crate::time::{debug_utc, now_timestamp, utc_debug};

verus! {

/// Where GitHub's API lives.
pub const BASE_URL: &'static str = "https://api.github.com";

/// How long to wait after preparing each request, in milliseconds.
pub const DELAY: u64 = 300;

/// How many records to ask for per page.
pub const PER_PAGE: u32 = 100;

// ---------------------------------------------------------------------------------------
// Query parameters
// ---------------------------------------------------------------------------------------

/// The addresses of a pull request, by kind.
pub type PullRequestUrls = ParameterMap;

/// The parameters of a request, kept in ascending order of name, each name once.
pub struct ParameterMap {
    entries: Vec<(String, String)>,
}

/// The content of a list of name and value pairs.
pub open spec fn param_pairs(v: Seq<(String, String)>) -> Seq<(Seq<char>, Seq<char>)> {
    Seq::new(v.len(), |i: int| (v[i].0@, v[i].1@))
}

/// The names are in ascending order, hence distinct.
pub open spec fn names_ascending(ps: Seq<(Seq<char>, Seq<char>)>) -> bool {
    forall|i: int, j: int| 0 <= i < j < ps.len() ==> seq_lt(#[trigger] ps[i].0, #[trigger] ps[j].0)
}

/// The parameters as a map from name to value.
pub open spec fn params_map(ps: Seq<(Seq<char>, Seq<char>)>) -> Map<Seq<char>, Seq<char>> {
    Map::new(
        |k: Seq<char>| exists|i: int| 0 <= i < ps.len() && (#[trigger] ps[i]).0 == k,
        |k: Seq<char>| ps[param_index(ps, k)].1,
    )
}

/// A position where parameter `k` is listed.
pub open spec fn param_index(ps: Seq<(Seq<char>, Seq<char>)>, k: Seq<char>) -> int {
    choose|i: int| 0 <= i < ps.len() && (#[trigger] ps[i]).0 == k
}

impl ParameterMap {
    /// The parameters in the order they are sent: ascending by name.
    pub closed spec fn pairs(&self) -> Seq<(Seq<char>, Seq<char>)> {
        param_pairs(self.entries@)
    }

    /// The parameters by name.
    pub open spec fn map(&self) -> Map<Seq<char>, Seq<char>> {
        params_map(self.pairs())
    }

    /// The names are in ascending order.
    pub open spec fn wf(&self) -> bool {
        names_ascending(self.pairs())
    }

    /// No parameters.
    pub fn new() -> (r: ParameterMap)
        ensures
            r.wf(),
            r.pairs() == Seq::<(Seq<char>, Seq<char>)>::empty(),
    {
        let r = ParameterMap { entries: Vec::new() };
        assert(r.pairs() =~= Seq::<(Seq<char>, Seq<char>)>::empty());
        r
    }

    /// Sets parameter `name` to `value`, replacing the value it had.
    pub fn insert(&mut self, name: String, value: String)
        requires
            old(self).wf(),
        ensures
            final(self).wf(),
            final(self).map() == old(self).map().insert(name@, value@),
    {
        let ghost ps = self.pairs();
        let n = self.entries.len();
        let mut p: usize = 0;
        while p < n && str_lt(self.entries[p].0.as_str(), name.as_str())
            invariant
                ps == param_pairs(self.entries@),
                names_ascending(ps),
                n == ps.len(),
                p <= n,
                forall|k: int| 0 <= k < p ==> seq_lt(#[trigger] ps[k].0, name@),
            decreases n - p,
        {
            p = p + 1;
        }
        let ghost nv = value@;
        let ghost nk = name@;
        if p < n && str_eq(self.entries[p].0.as_str(), name.as_str()) {
            let _ = self.entries.remove(p);
            self.entries.insert(p, (name, value));
            proof {
                let qs = self.pairs();
                assert(qs.len() == ps.len());
                assert forall|k: int| 0 <= k < qs.len() && k != p implies qs[k] == ps[k] by {}
                assert(qs[p as int] == (nk, nv));
                assert(ps[p as int].0 == nk);
                assert forall|i: int, j: int| 0 <= i < j < qs.len() implies seq_lt(#[trigger] qs[i].0, #[trigger] qs[j].0) by {
                    assert(qs[i].0 == ps[i].0);
                    assert(qs[j].0 == ps[j].0);
                }
                self.lemma_map_update(ps, qs, p as int, nk, nv);
            }
        } else {
            self.entries.insert(p, (name, value));
            proof {
                let qs = self.pairs();
                assert(qs.len() == ps.len() + 1);
                assert(qs[p as int] == (nk, nv));
                assert forall|k: int| 0 <= k < p implies qs[k] == ps[k] by {}
                assert forall|k: int| p < k < qs.len() implies qs[k] == ps[k - 1] by {}
                if p < n {
                    lemma_seq_lt_total(ps[p as int].0, nk);
                    assert(seq_lt(nk, ps[p as int].0));
                }
                assert forall|i: int, j: int| 0 <= i < j < qs.len() implies seq_lt(#[trigger] qs[i].0, #[trigger] qs[j].0) by {
                    if j < p {
                    } else if j == p {
                        assert(seq_lt(ps[i].0, nk));
                    } else if i == p {
                        if j - 1 > p {
                            assert(seq_lt(ps[p as int].0, ps[j - 1].0));
                            lemma_seq_lt_trans(nk, ps[p as int].0, ps[j - 1].0);
                        }
                    } else if i < p {
                        assert(seq_lt(ps[i].0, ps[j - 1].0));
                    } else {
                        assert(seq_lt(ps[i - 1].0, ps[j - 1].0));
                    }
                }
                assert forall|k: int| 0 <= k < ps.len() implies ps[k].0 != nk by {
                    if k < p {
                        lemma_seq_lt_total(ps[k].0, nk);
                    } else if k > p {
                        assert(seq_lt(ps[p as int].0, ps[k].0));
                        lemma_seq_lt_trans(nk, ps[p as int].0, ps[k].0);
                        lemma_seq_lt_total(nk, ps[k].0);
                    }
                }
                self.lemma_map_insert(ps, qs, p as int, nk, nv);
            }
        }
    }

    proof fn lemma_map_update(
        &self,
        ps: Seq<(Seq<char>, Seq<char>)>,
        qs: Seq<(Seq<char>, Seq<char>)>,
        p: int,
        nk: Seq<char>,
        nv: Seq<char>,
    )
        requires
            names_ascending(ps),
            names_ascending(qs),
            qs.len() == ps.len(),
            0 <= p < ps.len(),
            ps[p].0 == nk,
            qs[p] == (nk, nv),
            forall|k: int| 0 <= k < qs.len() && k != p ==> qs[k] == ps[k],
        ensures
            params_map(qs) == params_map(ps).insert(nk, nv),
    {
        assert forall|k: Seq<char>| #[trigger] params_map(qs).dom().contains(k) <==> params_map(ps).insert(nk, nv).dom().contains(k) by {
            if params_map(qs).dom().contains(k) {
                let i = choose|i: int| 0 <= i < qs.len() && (#[trigger] qs[i]).0 == k;
                assert(ps[i].0 == k);
            }
            if params_map(ps).dom().contains(k) {
                let i = choose|i: int| 0 <= i < ps.len() && (#[trigger] ps[i]).0 == k;
                assert(qs[i].0 == k);
            }
            if k == nk {
                assert(qs[p].0 == k);
            }
        }
        assert forall|k: Seq<char>| #[trigger] params_map(qs).dom().contains(k) implies params_map(qs)[k] == params_map(ps).insert(nk, nv)[k] by {
            let i = choose|i: int| 0 <= i < qs.len() && (#[trigger] qs[i]).0 == k;
            if k == nk {
                if i != p {
                    if i < p { assert(seq_lt(qs[i].0, qs[p].0)); } else { assert(seq_lt(qs[p].0, qs[i].0)); }
                    lemma_seq_lt_total(nk, nk);
                }
            } else {
                let i2 = choose|i: int| 0 <= i < ps.len() && (#[trigger] ps[i]).0 == k;
                if i != i2 {
                    if i < i2 { assert(seq_lt(ps[i].0, ps[i2].0)); } else { assert(seq_lt(ps[i2].0, ps[i].0)); }
                    lemma_seq_lt_total(k, k);
                }
            }
        }
        assert(params_map(qs) =~= params_map(ps).insert(nk, nv));
    }

    proof fn lemma_map_insert(
        &self,
        ps: Seq<(Seq<char>, Seq<char>)>,
        qs: Seq<(Seq<char>, Seq<char>)>,
        p: int,
        nk: Seq<char>,
        nv: Seq<char>,
    )
        requires
            names_ascending(ps),
            names_ascending(qs),
            qs.len() == ps.len() + 1,
            0 <= p <= ps.len(),
            qs[p] == (nk, nv),
            forall|k: int| 0 <= k < p ==> qs[k] == ps[k],
            forall|k: int| p < k < qs.len() ==> qs[k] == ps[k - 1],
            forall|k: int| 0 <= k < ps.len() ==> ps[k].0 != nk,
        ensures
            params_map(qs) == params_map(ps).insert(nk, nv),
    {
        assert forall|k: Seq<char>| #[trigger] params_map(qs).dom().contains(k) <==> params_map(ps).insert(nk, nv).dom().contains(k) by {
            if params_map(qs).dom().contains(k) {
                let i = choose|i: int| 0 <= i < qs.len() && (#[trigger] qs[i]).0 == k;
                if i < p { assert(ps[i].0 == k); } else if i > p { assert(ps[i - 1].0 == k); }
            }
            if params_map(ps).dom().contains(k) {
                let i = choose|i: int| 0 <= i < ps.len() && (#[trigger] ps[i]).0 == k;
                if i < p { assert(qs[i].0 == k); } else { assert(qs[i + 1].0 == k); }
            }
            if k == nk {
                assert(qs[p].0 == k);
            }
        }
        assert forall|k: Seq<char>| #[trigger] params_map(qs).dom().contains(k) implies params_map(qs)[k] == params_map(ps).insert(nk, nv)[k] by {
            let i = choose|i: int| 0 <= i < qs.len() && (#[trigger] qs[i]).0 == k;
            if k == nk {
                if i != p {
                    if i < p { assert(seq_lt(qs[i].0, qs[p].0)); } else { assert(seq_lt(qs[p].0, qs[i].0)); }
                    lemma_seq_lt_total(nk, nk);
                }
            } else {
                let i2 = choose|i: int| 0 <= i < ps.len() && (#[trigger] ps[i]).0 == k;
                let j = if i2 < p { i2 } else { i2 + 1 };
                assert(qs[j] == ps[i2]);
                if i != j {
                    if i < j { assert(seq_lt(qs[i].0, qs[j].0)); } else { assert(seq_lt(qs[j].0, qs[i].0)); }
                    lemma_seq_lt_total(k, k);
                }
            }
        }
        assert(params_map(qs) =~= params_map(ps).insert(nk, nv));
    }

    /// The value of parameter `name`, if set.
    pub fn get(&self, name: &str) -> (r: Option<&String>)
        requires
            self.wf(),
        ensures
            match r {
                Some(v) => self.map().contains_key(name@) && self.map()[name@] == v@,
                None => !self.map().contains_key(name@),
            },
    {
        let ghost ps = self.pairs();
        let mut i: usize = 0;
        while i < self.entries.len()
            invariant
                ps == param_pairs(self.entries@),
                names_ascending(ps),
                i <= ps.len(),
                forall|k: int| 0 <= k < i ==> (#[trigger] ps[k]).0 != name@,
            decreases ps.len() - i,
        {
            if str_eq(self.entries[i].0.as_str(), name) {
                proof {
                    assert(ps[i as int].0 == name@);
                    let c = choose|c: int| 0 <= c < ps.len() && (#[trigger] ps[c]).0 == name@;
                    if c != i {
                        if c < i { assert(seq_lt(ps[c].0, ps[i as int].0)); } else { assert(seq_lt(ps[i as int].0, ps[c].0)); }
                        lemma_seq_lt_total(name@, name@);
                    }
                }
                return Some(&self.entries[i].1);
            }
            i = i + 1;
        }
        None
    }
}

proof fn lemma_in_map(ps: Seq<(Seq<char>, Seq<char>)>, i: int)
    requires
        0 <= i < ps.len(),
    ensures
        params_map(ps).contains_key(ps[i].0),
{
}

/// Two lists of parameters in ascending order of name that hold the same parameters are the
/// same list.
pub proof fn lemma_sorted_unique(ps: Seq<(Seq<char>, Seq<char>)>, qs: Seq<(Seq<char>, Seq<char>)>)
    requires
        names_ascending(ps),
        names_ascending(qs),
        params_map(ps) == params_map(qs),
    ensures
        ps == qs,
    decreases ps.len(),
{
    if ps.len() == 0 {
        if qs.len() > 0 {
            lemma_in_map(qs, 0);
            let i = choose|i: int| 0 <= i < ps.len() && (#[trigger] ps[i]).0 == qs[0].0;
        }
        assert(ps =~= qs);
    } else {
        lemma_in_map(ps, 0);
        assert(qs.len() > 0);
        lemma_in_map(qs, 0);
        let k = ps[0].0;
        let j = choose|j: int| 0 <= j < qs.len() && (#[trigger] qs[j]).0 == k;
        let i = choose|i: int| 0 <= i < ps.len() && (#[trigger] ps[i]).0 == qs[0].0;
        if j > 0 {
            assert(seq_lt(qs[0].0, qs[j].0));
            if i > 0 {
                assert(seq_lt(ps[0].0, ps[i].0));
                lemma_seq_lt_total(ps[0].0, qs[0].0);
            } else {
                lemma_seq_lt_total(k, k);
            }
        }
        assert(qs[0].0 == k);
        let m = params_map(ps);
        lemma_map_value(ps, 0);
        lemma_map_value(qs, 0);
        assert(ps[0].1 == qs[0].1);
        let ps2 = ps.drop_first();
        let qs2 = qs.drop_first();
        lemma_drop_first_map(ps);
        lemma_drop_first_map(qs);
        lemma_sorted_unique(ps2, qs2);
        assert(ps =~= seq![ps[0]] + ps2);
        assert(qs =~= seq![qs[0]] + qs2);
    }
}

proof fn lemma_map_value(ps: Seq<(Seq<char>, Seq<char>)>, i: int)
    requires
        names_ascending(ps),
        0 <= i < ps.len(),
    ensures
        params_map(ps).contains_key(ps[i].0),
        params_map(ps)[ps[i].0] == ps[i].1,
{
    let k = ps[i].0;
    assert(params_map(ps).dom().contains(k));
    let c = param_index(ps, k);
    if c != i {
        if c < i { assert(seq_lt(ps[c].0, ps[i].0)); } else { assert(seq_lt(ps[i].0, ps[c].0)); }
        lemma_seq_lt_total(k, k);
    }
}

proof fn lemma_drop_first_map(ps: Seq<(Seq<char>, Seq<char>)>)
    requires
        names_ascending(ps),
        ps.len() > 0,
    ensures
        names_ascending(ps.drop_first()),
        params_map(ps.drop_first()) == params_map(ps).remove(ps[0].0),
{
    let t = ps.drop_first();
    assert forall|i: int, j: int| 0 <= i < j < t.len() implies seq_lt(#[trigger] t[i].0, #[trigger] t[j].0) by {
        assert(t[i] == ps[i + 1]);
        assert(t[j] == ps[j + 1]);
    }
    let k0 = ps[0].0;
    assert forall|k: Seq<char>| #[trigger] params_map(t).dom().contains(k) <==> params_map(ps).remove(k0).dom().contains(k) by {
        if params_map(t).dom().contains(k) {
            let i = choose|i: int| 0 <= i < t.len() && (#[trigger] t[i]).0 == k;
            assert(ps[i + 1].0 == k);
            assert(seq_lt(ps[0].0, ps[i + 1].0));
            lemma_seq_lt_total(k, k);
        }
        if params_map(ps).remove(k0).dom().contains(k) {
            let i = choose|i: int| 0 <= i < ps.len() && (#[trigger] ps[i]).0 == k;
            assert(i != 0);
            assert(t[i - 1].0 == k);
        }
    }
    assert forall|k: Seq<char>| #[trigger] params_map(t).dom().contains(k) implies params_map(t)[k] == params_map(ps).remove(k0)[k] by {
        let i = choose|i: int| 0 <= i < t.len() && (#[trigger] t[i]).0 == k;
        let i2 = choose|i: int| 0 <= i < ps.len() && (#[trigger] ps[i]).0 == k;
        assert(ps[i + 1] == t[i]);
        if i2 != i + 1 {
            if i2 < i + 1 { assert(seq_lt(ps[i2].0, ps[i + 1].0)); } else { assert(seq_lt(ps[i + 1].0, ps[i2].0)); }
            lemma_seq_lt_total(k, k);
        }
    }
    assert(params_map(t) =~= params_map(ps).remove(k0));
}

/// The address of the issue listing of `repo`.
pub open spec fn issues_url(repo: Seq<char>) -> Seq<char> {
    BASE_URL@ + "/repos/"@ + repo + "/issues"@
}

/// The parameters of an issue listing, in the order they are sent.
pub open spec fn issues_params(since: Seq<char>) -> Seq<(Seq<char>, Seq<char>)> {
    seq![
        ("direction"@, "asc"@),
        ("per_page"@, decimal(PER_PAGE as nat)),
        ("since"@, since),
        ("state"@, "all"@),
    ]
}

/// The address of the comment listing of `repo`.
pub open spec fn comments_url(repo: Seq<char>) -> Seq<char> {
    BASE_URL@ + "/repos/"@ + repo + "/issues/comments"@
}

/// The parameters of a comment listing, in the order they are sent.
pub open spec fn comments_params(since: Seq<char>) -> Seq<(Seq<char>, Seq<char>)> {
    seq![
        ("direction"@, "asc"@),
        ("per_page"@, decimal(PER_PAGE as nat)),
        ("since"@, since),
        ("sort"@, "created"@),
    ]
}

/// The address of the repository listing of an organisation.
pub open spec fn org_repos_url(org: Seq<char>) -> Seq<char> {
    BASE_URL@ + "/orgs/"@ + org + "/repos"@
}

/// The address of one issue.
pub open spec fn issue_url(owner: Seq<char>, repo: Seq<char>, number: Seq<char>) -> Seq<char> {
    "https://api.github.com/repos/"@ + owner + "/"@ + repo + "/issues/"@ + number
}

/// The name `org/<name>` of a repository that a listing entry describes: an object whose
/// `name` member is a string.
pub open spec fn repo_name(org: Seq<char>, v: JsonValue) -> Option<Seq<char>> {
    match v {
        JsonValue::Object(m) => match json_member(m@, "name"@) {
            Some(JsonValue::Str(s)) => Some(org + "/"@ + s@),
            _ => None,
        },
        _ => None,
    }
}

/// The query of a request: `name=value` for each parameter in order, joined by `&`.
pub open spec fn query_spec(ps: Seq<(Seq<char>, Seq<char>)>) -> Seq<char>
    decreases ps.len(),
{
    if ps.len() == 0 {
        Seq::empty()
    } else if ps.len() == 1 {
        ps[0].0 + "="@ + ps[0].1
    } else {
        query_spec(ps.drop_last()) + "&"@ + ps.last().0 + "="@ + ps.last().1
    }
}

/// The address that a request goes to: `url`, then, where there are parameters, `?` and
/// the query.
pub open spec fn request_url_spec(url: Seq<char>, params: Option<Seq<(Seq<char>, Seq<char>)>>) -> Seq<
    char,
> {
    match params {
        Some(ps) => url + "?"@ + query_spec(ps),
        None => url,
    }
}

// ---------------------------------------------------------------------------------------
// Pagination
// ---------------------------------------------------------------------------------------

/// The address that one entry of a `Link` header points to when it is marked
/// `rel="next"`: the entry must have exactly two `;`-separated parts.
pub open spec fn next_link_target(link: Seq<char>) -> Option<Seq<char>> {
    let tokens = split_spec(trim_spec(link), ';');
    if tokens.len() == 2 && trim_spec(tokens[1]) == "rel=\"next\""@ {
        Some(strip_end(strip_start(trim_spec(tokens[0]), Strip::Char('<')), Strip::Char('>')))
    } else {
        None
    }
}

/// The first entry of a list that points to a next page.
pub open spec fn first_next_target(links: Seq<Seq<char>>) -> Option<Seq<char>>
    decreases links.len(),
{
    if links.len() == 0 {
        None
    } else {
        match next_link_target(links[0]) {
            Some(t) => Some(t),
            None => first_next_target(links.drop_first()),
        }
    }
}

/// The text of an optional string.
pub open spec fn opt_text(o: Option<&str>) -> Option<Seq<char>> {
    match o {
        Some(s) => Some(s@),
        None => None,
    }
}

/// The next page that a `Link` header points to.
pub open spec fn next_page_spec(header: Option<Seq<char>>) -> Option<Seq<char>> {
    match header {
        Some(h) => first_next_target(split_spec(h, ',')),
        None => None,
    }
}

/// An entry of a `Link` header is marked as the next page: it has exactly two `;`-separated
/// parts and the second, trimmed, is `rel="next"`.
pub open spec fn marked_next(entry: Seq<char>) -> bool {
    let parts = split_spec(trim_spec(entry), ';');
    parts.len() == 2 && trim_spec(parts[1]) == "rel=\"next\""@
}

/// The address an entry of a `Link` header gives: its first part, trimmed, without the
/// enclosing `<` and `>`.
pub open spec fn entry_address(entry: Seq<char>) -> Seq<char> {
    strip_end(
        strip_start(trim_spec(split_spec(trim_spec(entry), ';')[0]), Strip::Char('<')),
        Strip::Char('>'),
    )
}

proof fn lemma_first_next_target(es: Seq<Seq<char>>)
    ensures
        match first_next_target(es) {
            Some(t) => exists|i: int|
                0 <= i < es.len() && marked_next(es[i]) && entry_address(es[i]) == t && forall|j: int|
                    0 <= j < i ==> !#[trigger] marked_next(es[j]),
            None => forall|i: int| 0 <= i < es.len() ==> !#[trigger] marked_next(es[i]),
        },
    decreases es.len(),
{
    if es.len() > 0 {
        let rest = es.drop_first();
        lemma_first_next_target(rest);
        if marked_next(es[0]) {
            assert(next_link_target(es[0]) == Some(entry_address(es[0])));
        } else {
            assert(next_link_target(es[0]) is None);
            match first_next_target(rest) {
                Some(t) => {
                    let i = choose|i: int|
                        0 <= i < rest.len() && marked_next(rest[i]) && entry_address(rest[i]) == t
                            && forall|j: int| 0 <= j < i ==> !#[trigger] marked_next(rest[j]);
                    assert(es[i + 1] == rest[i]);
                    assert forall|j: int| 0 <= j < i + 1 implies !#[trigger] marked_next(es[j]) by {
                        if j > 0 {
                            assert(es[j] == rest[j - 1]);
                        }
                    }
                },
                None => {
                    assert forall|i: int| 0 <= i < es.len() implies !#[trigger] marked_next(es[i]) by {
                        if i > 0 {
                            assert(es[i] == rest[i - 1]);
                        }
                    }
                },
            }
        }
    }
}

/// The next page that a `Link` header gives is the address of its first entry marked
/// `rel="next"`; entries marked otherwise (`prev`, `last`, `first`) are passed over, and a
/// header with no entry so marked gives none.
pub proof fn lemma_next_page_is_first_marked_next(h: Seq<char>)
    ensures
        match next_page_spec(Some(h)) {
            Some(t) => exists|i: int|
                0 <= i < split_spec(h, ',').len() && marked_next(split_spec(h, ',')[i])
                    && entry_address(split_spec(h, ',')[i]) == t && forall|j: int|
                    0 <= j < i ==> !#[trigger] marked_next(split_spec(h, ',')[j]),
            None => forall|i: int|
                0 <= i < split_spec(h, ',').len() ==> !#[trigger] marked_next(split_spec(h, ',')[i]),
        },
{
    lemma_first_next_target(split_spec(h, ','));
}

fn next_target(link: &str) -> (r: Option<String>)
    ensures
        match r {
            Some(t) => next_link_target(link@) == Some(t@),
            None => next_link_target(link@) is None,
        },
{
    let l = trim(link);
    let tokens = split_char(l.as_str(), ';');
    if tokens.len() != 2 {
        return None;
    }
    let rel = trim(tokens[1].as_str());
    proof { reveal_strlit("rel=\"next\""); }
    assert(tokens.deep_view()[1] == tokens@[1]@);
    if !str_eq(rel.as_str(), "rel=\"next\"") {
        return None;
    }
    let target = trim(tokens[0].as_str());
    assert(tokens.deep_view()[0] == tokens@[0]@);
    Some(strip_both(target.as_str(), Strip::Char('<'), Strip::Char('>')))
}

// ---------------------------------------------------------------------------------------
// The client
// ---------------------------------------------------------------------------------------

/// A GitHub API client: the credentials and user agent it sends, and its rate limit.
#[derive(Debug)]
pub struct Client {
    token: String,
    ua: String,
    rate_limit: u32,
    /// When the rate limit resets, in seconds since the Unix epoch.
    rate_limit_timeout: i64,
}

impl Client {
    /// The token the client holds.
    pub closed spec fn token_view(&self) -> Seq<char> {
        self.token@
    }

    /// The user agent the client sends.
    pub closed spec fn ua_view(&self) -> Seq<char> {
        self.ua@
    }

    /// The requests left before the limit.
    pub closed spec fn rate_limit_view(&self) -> u32 {
        self.rate_limit
    }

    /// A client with no known rate limit, whose limit resets now.
    pub fn new() -> (r: Client)
        ensures
            r.token_view() == "todo"@,
            r.ua_view() == "rust battleplan (banderson@mozilla.com)"@,
            r.rate_limit_view() == u32::MAX,
    {
        Client {
            token: String::from_str("todo"),
            ua: String::from_str("rust battleplan (banderson@mozilla.com)"),
            rate_limit: u32::MAX,
            rate_limit_timeout: now_timestamp(),
        }
    }

    /// The address a request to `url` with `params` goes to.
    pub fn request(&self, url: &str, params: Option<&ParameterMap>) -> (r: String)
        ensures
            r@ == request_url_spec(
                url@,
                match params {
                    Some(p) => Some(p.pairs()),
                    None => None,
                },
            ),
    {
        let mut out = String::from_str(url);
        match params {
            Some(p) => {
                out.append("?");
                let ghost ps = p.pairs();
                let ghost start = out@;
                let mut i: usize = 0;
                assert(ps.take(0) =~= Seq::<(Seq<char>, Seq<char>)>::empty());
                assert(out@ =~= start + query_spec(ps.take(0)));
                while i < p.entries.len()
                    invariant
                        ps == param_pairs(p.entries@),
                        i <= ps.len(),
                        out@ == start + query_spec(ps.take(i as int)),
                    decreases ps.len() - i,
                {
                    let ghost before = out@;
                    if i > 0 {
                        out.append("&");
                    }
                    out.append(p.entries[i].0.as_str());
                    out.append("=");
                    out.append(p.entries[i].1.as_str());
                    proof {
                        assert(ps.take(i + 1).drop_last() =~= ps.take(i as int));
                        assert(ps.take(i + 1).last() == ps[i as int]);
                        if i == 0 {
                            assert(query_spec(ps.take(1)) == ps[0].0 + "="@ + ps[0].1);
                            assert(out@ =~= start + query_spec(ps.take(i + 1)));
                        } else {
                            assert(out@ =~= start + query_spec(ps.take(i + 1)));
                        }
                    }
                    i = i + 1;
                }
                assert(ps.take(ps.len() as int) =~= ps);
                out
            },
            None => out,
        }
    }

    /// The parameters of a request, from a map of them.
    proof fn lemma_pairs_of(p: &ParameterMap, qs: Seq<(Seq<char>, Seq<char>)>)
        requires
            p.wf(),
            names_ascending(qs),
            params_map(qs) == p.map(),
        ensures
            p.pairs() == qs,
    {
        lemma_sorted_unique(p.pairs(), qs);
    }

    /// The address of a listing of the issues of `repo` that changed since `start` (seconds
    /// since the Unix epoch), oldest first; `None` where `start` is out of `chrono`'s range.
    pub fn issues_since(&self, repo: &str, start: i64) -> (r: Option<String>)
        ensures
            match utc_debug(start) {
                Some(d) => r matches Some(u) && u@ == request_url_spec(
                    issues_url(repo@),
                    Some(issues_params(d)),
                ),
                None => r is None,
            },
    {
        let since = debug_utc(start)?;
        let mut url = String::from_str(BASE_URL);
        url.append("/repos/");
        url.append(repo);
        url.append("/issues");
        let ghost d = since@;
        let mut params = ParameterMap::new();
        params.insert(String::from_str("state"), String::from_str("all"));
        params.insert(String::from_str("since"), since);
        params.insert(String::from_str("state"), String::from_str("all"));
        params.insert(String::from_str("per_page"), format_u32(PER_PAGE));
        params.insert(String::from_str("direction"), String::from_str("asc"));
        proof {
            let qs = issues_params(d);
            reveal_strlit("direction");
            reveal_strlit("per_page");
            reveal_strlit("since");
            reveal_strlit("state");
            reveal_with_fuel(seq_lt, 3);
            assert(names_ascending(qs));
            let m = params.map();
            assert(params_map(qs) =~= m) by {
                lemma_map_value(qs, 0);
                lemma_map_value(qs, 1);
                lemma_map_value(qs, 2);
                lemma_map_value(qs, 3);
                assert forall|k: Seq<char>| params_map(qs).dom().contains(k) implies m.dom().contains(k) by {
                    let i = choose|i: int| 0 <= i < qs.len() && (#[trigger] qs[i]).0 == k;
                    assert(i == 0 || i == 1 || i == 2 || i == 3);
                }
            }
            Self::lemma_pairs_of(&params, qs);
        }
        Some(self.request(url.as_str(), Some(&params)))
    }

    /// The address of a listing of the comments on the issues of `repo` made since `start`
    /// (seconds since the Unix epoch), oldest first; `None` where `start` is out of
    /// `chrono`'s range.
    pub fn comments_since(&self, repo: &str, start: i64) -> (r: Option<String>)
        ensures
            match utc_debug(start) {
                Some(d) => r matches Some(u) && u@ == request_url_spec(
                    comments_url(repo@),
                    Some(comments_params(d)),
                ),
                None => r is None,
            },
    {
        let since = debug_utc(start)?;
        let mut url = String::from_str(BASE_URL);
        url.append("/repos/");
        url.append(repo);
        url.append("/issues/comments");
        let ghost d = since@;
        let mut params = ParameterMap::new();
        params.insert(String::from_str("sort"), String::from_str("created"));
        params.insert(String::from_str("direction"), String::from_str("asc"));
        params.insert(String::from_str("since"), since);
        params.insert(String::from_str("per_page"), format_u32(PER_PAGE));
        proof {
            let qs = comments_params(d);
            reveal_strlit("direction");
            reveal_strlit("per_page");
            reveal_strlit("since");
            reveal_strlit("sort");
            reveal_with_fuel(seq_lt, 3);
            assert(names_ascending(qs));
            let m = params.map();
            assert(params_map(qs) =~= m) by {
                lemma_map_value(qs, 0);
                lemma_map_value(qs, 1);
                lemma_map_value(qs, 2);
                lemma_map_value(qs, 3);
                assert forall|k: Seq<char>| params_map(qs).dom().contains(k) implies m.dom().contains(k) by {
                    let i = choose|i: int| 0 <= i < qs.len() && (#[trigger] qs[i]).0 == k;
                    assert(i == 0 || i == 1 || i == 2 || i == 3);
                }
            }
            Self::lemma_pairs_of(&params, qs);
        }
        Some(self.request(url.as_str(), Some(&params)))
    }

    /// What a listing yields from the answer to its request: no models where the request
    /// and the reading of its body succeeded, the body being read and set aside; the error
    /// where they failed.
    pub fn get_models<M>(&self, answer: Result<String, Error>) -> (r: Result<Vec<M>, Error>)
        ensures
            match answer {
                Ok(_) => r matches Ok(v) && v@.len() == 0,
                Err(e) => r == Err::<Vec<M>, Error>(e),
            },
    {
        match answer {
            Ok(_) => Ok(Vec::new()),
            Err(e) => Err(e),
        }
    }

    /// The address of the listing of the repositories of organisation `org`; the listing is
    /// asked for with an empty set of parameters.
    pub fn org_repos_request(&self, org: &str) -> (r: String)
        ensures
            r@ == request_url_spec(org_repos_url(org@), Some(Seq::empty())),
    {
        let mut url = String::from_str(BASE_URL);
        url.append("/orgs/");
        url.append(org);
        url.append("/repos");
        let params = ParameterMap::new();
        self.request(url.as_str(), Some(&params))
    }

    /// The repositories, `org/<name>`, that the entries of a listing of organisation `org`
    /// describe, in order; `UnexpectedJson` where an entry is not an object with a string
    /// `name`.
    pub fn org_repos(&self, org: &str, vals: Vec<JsonValue>) -> (r: Result<Vec<String>, Error>)
        ensures
            (forall|i: int| 0 <= i < vals@.len() ==> (#[trigger] repo_name(org@, vals@[i])) is Some)
                ==> (r matches Ok(v) && v@.len() == vals@.len() && forall|i: int|
                0 <= i < vals@.len() ==> Some(#[trigger] v@[i]@) == repo_name(org@, vals@[i])),
            !(forall|i: int| 0 <= i < vals@.len() ==> (#[trigger] repo_name(org@, vals@[i])) is Some)
                ==> r matches Err(Error::UnexpectedJson),
    {
        let mut repos: Vec<String> = Vec::new();
        let mut i: usize = 0;
        proof { reveal_strlit("name"); }
        while i < vals.len()
            invariant
                i <= vals@.len(),
                repos@.len() == i,
                forall|k: int| 0 <= k < i ==> Some(#[trigger] repos@[k]@) == repo_name(org@, vals@[k]),
            decreases vals@.len() - i,
        {
            let name = match &vals[i] {
                JsonValue::Object(m) => match get_member(m, "name") {
                    Some(JsonValue::Str(s)) => s,
                    _ => {
                        assert(repo_name(org@, vals@[i as int]) is None);
                        return Err(Error::UnexpectedJson);
                    },
                },
                _ => {
                    assert(repo_name(org@, vals@[i as int]) is None);
                    return Err(Error::UnexpectedJson);
                },
            };
            let mut repo = String::from_str(org);
            repo.append("/");
            repo.append(name.as_str());
            repos.push(repo);
            i = i + 1;
        }
        assert forall|k: int| 0 <= k < vals@.len() implies (#[trigger] repo_name(org@, vals@[k])) is Some by {
            assert(Some(repos@[k]@) == repo_name(org@, vals@[k]));
        }
        Ok(repos)
    }

    /// The address of issue `number` of `owner/repo`.
    pub fn fetch_issue(&self, owner: &str, repo: &str, number: &str) -> (r: String)
        ensures
            r@ == issue_url(owner@, repo@, number@),
    {
        let mut url = String::from_str("https://api.github.com/repos/");
        url.append(owner);
        url.append("/");
        url.append(repo);
        url.append("/issues/");
        url.append(number);
        self.request(url.as_str(), None)
    }

    /// The address of a pull request: its `url` entry; `MissingPullRequestUrl` where it has
    /// none.
    pub fn fetch_pull_request(&self, pr_info: &PullRequestUrls) -> (r: Result<String, Error>)
        requires
            pr_info.wf(),
        ensures
            pr_info.map().contains_key("url"@) ==> (r matches Ok(u) && u@ == pr_info.map()["url"@]),
            !pr_info.map().contains_key("url"@) ==> r matches Err(Error::MissingPullRequestUrl),
    {
        match pr_info.get("url") {
            Some(url) => Ok(self.request(url.as_str(), None)),
            None => Err(Error::MissingPullRequestUrl),
        }
    }

    /// The headers sent with every request.
    pub fn request_headers(&self) -> (r: Vec<(String, String)>)
        ensures
            param_pairs(r@) == seq![
                ("User-Agent"@, self.ua_view()),
                ("Time-Zone"@, "UTC"@),
                ("Accept"@, "application/vnd.github.v3"@),
                ("Connection"@, "close"@),
            ],
    {
        let mut h: Vec<(String, String)> = Vec::new();
        h.push((String::from_str("User-Agent"), self.ua.clone()));
        h.push((String::from_str("Time-Zone"), String::from_str("UTC")));
        h.push((String::from_str("Accept"), String::from_str("application/vnd.github.v3")));
        h.push((String::from_str("Connection"), String::from_str("close")));
        assert(param_pairs(h@) =~= seq![
            ("User-Agent"@, self.ua_view()),
            ("Time-Zone"@, "UTC"@),
            ("Accept"@, "application/vnd.github.v3"@),
            ("Connection"@, "close"@),
        ]);
        h
    }

    /// The page that follows, from the `Link` header of an answer.
    pub fn next_page(link_header: Option<&str>) -> (r: Option<String>)
        ensures
            match r {
                Some(t) => next_page_spec(opt_text(link_header)) == Some(t@),
                None => next_page_spec(opt_text(link_header)) is None,
            },
    {
        match link_header {
            Some(h) => {
                let links = split_char(h, ',');
                let ghost all = links.deep_view();
                let mut i: usize = 0;
                assert(all.skip(0) =~= all);
                while i < links.len()
                    invariant
                        all == links.deep_view(),
                        all == split_spec(h@, ','),
                        opt_text(link_header) == Some(h@),
                        i <= links@.len(),
                        first_next_target(all) == first_next_target(all.skip(i as int)),
                    decreases links@.len() - i,
                {
                    assert(all[i as int] == links@[i as int]@);
                    match next_target(links[i].as_str()) {
                        Some(t) => {
                            assert(all.skip(i as int)[0] == all[i as int]);
                            assert(first_next_target(all.skip(i as int)) == Some(t@));
                            assert(first_next_target(all) == Some(t@));
                            assert(next_page_spec(Some(h@)) == Some(t@));
                            assert(opt_text(link_header) == Some(h@));
                            return Some(t);
                        },
                        None => {
                            assert(all.skip(i as int).drop_first() =~= all.skip(i + 1));
                        },
                    }
                    i = i + 1;
                }
                None
            },
            None => None,
        }
    }
}

} // verus!
