//! Pondering the crawl: for each campaign, the RFC its tracking issue refers to and how long
//! ago the issue last changed.
use vstd::prelude::*;
use crate::crawl::{FactStore, tracked_url};
use crate::errors::Error;
use crate::gh::models::IssueView;
use crate::plan::{Battleplan, Campaign};
use crate::text::{decimal, format_u32, lemma_lines_join, lines, lines_spec, parse_u32, parse_u32_spec};
use crate::time::{days_between, days_since, format_utc, now_timestamp, utc_formatted};
use crate::web::{parse_url, url_parse};

verus! {

/// A reference to an RFC pull request by number: `rust-lang/rfcs#<digits>`.
pub const RFC_REF_PATTERN: &'static str = "rust-lang/rfcs#(\\d+)";

/// A link to an RFC pull request: `https://github.com/rust-lang/rfcs/pull/<digits>`.
pub const RFC_URL_PATTERN: &'static str = "https://github.com/rust-lang/rfcs/pull/(\\d+)";

/// The text of the first capture group of the leftmost match of the regular expression
/// `pattern` in `text`, as the `regex` crate finds it; `None` where nothing matches or the
/// pattern is rejected.
pub uninterp spec fn regex_first_capture(pattern: Seq<char>, text: Seq<char>) -> Option<Seq<char>>;

/// Calls `regex::Regex::new` and then `captures` and `get(1)` on the result. Claims that the
/// text is `regex_first_capture` of the arguments.
#[verifier::external_body]
fn first_capture(pattern: &str, text: &str) -> (r: Option<String>)
    ensures
        match r {
            Some(s) => regex_first_capture(pattern@, text@) == Some(s@),
            None => regex_first_capture(pattern@, text@) is None,
        },
{
    let re = regex::Regex::new(pattern).ok()?;
    let caps = re.captures(text)?;
    let group = caps.get(1)?;
    Some(group.as_str().to_string())
}

/// The RFC number that a line refers to: a `rust-lang/rfcs#` reference first, else a pull
/// request link; `None` where neither is there or the digits do not make a `u32`.
pub open spec fn rfc_number_of_line(line: Seq<char>) -> Option<u32> {
    match regex_first_capture(RFC_REF_PATTERN@, line) {
        Some(d) => parse_u32_spec(d),
        None => match regex_first_capture(RFC_URL_PATTERN@, line) {
            Some(d) => parse_u32_spec(d),
            None => None,
        },
    }
}

/// `rfc_number_of_line`, as a function value.
pub open spec fn rfc_line_reader() -> spec_fn(Seq<char>) -> Option<u32> {
    |line: Seq<char>| rfc_number_of_line(line)
}

/// The RFC numbers that a text refers to, at most one per line, in order.
pub open spec fn rfc_numbers_spec(text: Seq<char>) -> Seq<u32> {
    lines_spec(text).filter_map(rfc_line_reader())
}

proof fn lemma_filter_map_add<A, B>(x: Seq<A>, y: Seq<A>, f: spec_fn(A) -> Option<B>)
    ensures
        (x + y).filter_map(f) == x.filter_map(f) + y.filter_map(f),
    decreases y.len(),
{
    if y.len() == 0 {
        assert(x + y =~= x);
        assert(x.filter_map(f) + y.filter_map(f) =~= x.filter_map(f));
    } else {
        let z = x + y;
        assert(z.drop_last() =~= x + y.drop_last());
        assert(z.last() == y.last());
        lemma_filter_map_add(x, y.drop_last(), f);
        match f(y.last()) {
            Some(v) => {
                assert((x.filter_map(f) + y.drop_last().filter_map(f)) + seq![v] =~= x.filter_map(f)
                    + (y.drop_last().filter_map(f) + seq![v]));
            },
            None => {},
        }
    }
}

proof fn lemma_filter_map_none<A, B>(s: Seq<A>, f: spec_fn(A) -> Option<B>)
    requires
        s.filter_map(f).len() == 0,
    ensures
        forall|i: int| 0 <= i < s.len() ==> #[trigger] f(s[i]) is None,
    decreases s.len(),
{
    if s.len() > 0 {
        let d = s.drop_last();
        if f(s.last()) is Some {
            assert(s.filter_map(f).len() == d.filter_map(f).len() + 1);
        }
        lemma_filter_map_none(d, f);
        assert forall|i: int| 0 <= i < s.len() implies #[trigger] f(s[i]) is None by {
            if i < d.len() {
                assert(s[i] == d[i]);
                assert(f(d[i]) is None);
            }
        }
    }
}

proof fn lemma_filter_map_first<A, B>(s: Seq<A>, f: spec_fn(A) -> Option<B>)
    requires
        s.filter_map(f).len() > 0,
    ensures
        exists|i: int|
            0 <= i < s.len() && f(s[i]) == Some(s.filter_map(f)[0]) && forall|j: int|
                0 <= j < i ==> #[trigger] f(s[j]) is None,
    decreases s.len(),
{
    let d = s.drop_last();
    if d.filter_map(f).len() > 0 {
        lemma_filter_map_first(d, f);
        let i = choose|i: int|
            0 <= i < d.len() && f(d[i]) == Some(d.filter_map(f)[0]) && forall|j: int|
                0 <= j < i ==> #[trigger] f(d[j]) is None;
        assert(s.filter_map(f)[0] == d.filter_map(f)[0]);
        assert(s[i] == d[i]);
        assert forall|j: int| 0 <= j < i implies #[trigger] f(s[j]) is None by {
            assert(s[j] == d[j]);
            assert(f(d[j]) is None);
        }
    } else {
        lemma_filter_map_none(d, f);
        let i = s.len() - 1;
        assert(f(s.last()) is Some);
        assert(s.filter_map(f) =~= seq![f(s.last()).unwrap()]);
        assert forall|j: int| 0 <= j < i implies #[trigger] f(s[j]) is None by {
            assert(s[j] == d[j]);
            assert(f(d[j]) is None);
        }
        assert(f(s[i]) == Some(s.filter_map(f)[0]));
    }
}

/// The RFC that an issue body refers to is the first of the RFC numbers found in it, line by
/// line, and its pull request is that number's address as the URL parser writes it back;
/// a body in which no number is found refers to none.
pub proof fn lemma_rfc_info_is_first_number(body: Seq<char>)
    ensures
        match rfc_info_spec(body) {
            Some((n, pr)) => rfc_numbers_spec(body).len() > 0 && n == rfc_numbers_spec(body)[0] && (
            url_parse("https://github.com/rust-lang/rfcs/pulls/"@ + decimal(n as nat)) matches Some(p)
                && p.serialization == pr),
            None => rfc_numbers_spec(body).len() == 0 || url_parse(
                "https://github.com/rust-lang/rfcs/pulls/"@ + decimal(rfc_numbers_spec(body)[0] as nat),
            ) is None,
        },
{
}

/// The first RFC number found in a text is the one named by its first line that names any:
/// some line names it and no earlier line names a number. Where no line names a number,
/// none is found.
pub proof fn lemma_first_rfc_number_is_first_line(text: Seq<char>)
    ensures
        rfc_numbers_spec(text).len() > 0 ==> exists|i: int|
            0 <= i < lines_spec(text).len() && rfc_number_of_line(lines_spec(text)[i]) == Some(
                rfc_numbers_spec(text)[0],
            ) && forall|j: int|
                0 <= j < i ==> #[trigger] rfc_number_of_line(lines_spec(text)[j]) is None,
        (forall|i: int|
            0 <= i < lines_spec(text).len() ==> #[trigger] rfc_number_of_line(lines_spec(text)[i])
                is None) ==> rfc_numbers_spec(text).len() == 0,
{
    let ls = lines_spec(text);
    let f = rfc_line_reader();
    assert forall|x: Seq<char>| #[trigger] f(x) == rfc_number_of_line(x) by {}
    if rfc_numbers_spec(text).len() > 0 {
        lemma_filter_map_first(ls, f);
        let i0 = choose|i: int|
            0 <= i < ls.len() && f(ls[i]) == Some(ls.filter_map(f)[0]) && forall|j: int|
                0 <= j < i ==> #[trigger] f(ls[j]) is None;
        assert(f(ls[i0]) == rfc_number_of_line(ls[i0]));
        assert forall|j: int| 0 <= j < i0 implies #[trigger] rfc_number_of_line(ls[j]) is None by {
            assert(f(ls[j]) is None);
        }
    }
    if forall|i: int| 0 <= i < ls.len() ==> #[trigger] rfc_number_of_line(ls[i]) is None {
        if rfc_numbers_spec(text).len() > 0 {
            lemma_filter_map_first(ls, f);
            let i0 = choose|i: int|
                0 <= i < ls.len() && f(ls[i]) == Some(ls.filter_map(f)[0]) && forall|j: int|
                    0 <= j < i ==> #[trigger] f(ls[j]) is None;
            assert(rfc_number_of_line(ls[i0]) is None);
        }
    }
}

/// The RFC numbers of two texts joined by a line ending are those of the first, then those
/// of the second, where the first is not empty and ends with neither `\n` nor `\r`.
pub proof fn lemma_rfc_numbers_join(a: Seq<char>, b: Seq<char>)
    requires
        a.len() > 0,
        a.last() != '\n',
        a.last() != '\r',
    ensures
        rfc_numbers_spec(a + "\n"@ + b) == rfc_numbers_spec(a) + rfc_numbers_spec(b),
{
    reveal_strlit("\n");
    assert("\n"@ =~= seq!['\n']);
    lemma_lines_join(a, b);
    lemma_filter_map_add(lines_spec(a), lines_spec(b), rfc_line_reader());
}

fn rfc_number_of(line: &str) -> (r: Option<u32>)
    ensures
        r == rfc_number_of_line(line@),
{
    match first_capture(RFC_REF_PATTERN, line) {
        Some(d) => parse_u32(d.as_str()),
        None => match first_capture(RFC_URL_PATTERN, line) {
            Some(d) => parse_u32(d.as_str()),
            None => None,
        },
    }
}

/// The RFC numbers that a text refers to, at most one per line, in order.
pub fn parse_rfc_numbers(text: &str) -> (r: Vec<u32>)
    ensures
        r@ == rfc_numbers_spec(text@),
{
    let ls = lines(text);
    let ghost all = ls.deep_view();
    let mut out: Vec<u32> = Vec::new();
    let mut i: usize = 0;
    assert(all.take(0) =~= Seq::<Seq<char>>::empty());
    while i < ls.len()
        invariant
            all == ls.deep_view(),
            all == lines_spec(text@),
            i <= ls@.len(),
            out@ == all.take(i as int).filter_map(rfc_line_reader()),
        decreases ls@.len() - i,
    {
        proof { all.lemma_filter_map_take_succ(rfc_line_reader(), i as int); }
        assert(all[i as int] == ls@[i as int]@);
        match rfc_number_of(ls[i].as_str()) {
            Some(n) => out.push(n),
            None => {},
        }
        i = i + 1;
    }
    assert(all.take(ls@.len() as int) =~= all);
    out
}

/// An RFC: its number and its pull request.
#[derive(Debug)]
pub struct RfcInfo {
    pub num: u32,
    pub pr: String,
}

impl View for RfcInfo {
    type V = (u32, Seq<char>);

    open spec fn view(&self) -> (u32, Seq<char>) {
        (self.num, self.pr@)
    }
}

/// The address of the pull request of RFC `n`, before parsing.
pub open spec fn rfc_pr_text(n: u32) -> Seq<char> {
    "https://github.com/rust-lang/rfcs/pulls/"@ + decimal(n as nat)
}

/// The RFC that an issue body refers to: the first number found, with its pull request's
/// address as the URL parser writes it back; `None` where no number is found or the
/// address does not parse.
pub open spec fn rfc_info_spec(body: Seq<char>) -> Option<(u32, Seq<char>)> {
    let nums = rfc_numbers_spec(body);
    if nums.len() == 0 {
        None
    } else {
        match url_parse(rfc_pr_text(nums[0])) {
            Some(p) => Some((nums[0], p.serialization)),
            None => None,
        }
    }
}

/// The RFC that an issue body refers to.
pub fn rfc_info_from_body(body: &str) -> (r: Option<RfcInfo>)
    ensures
        match r {
            Some(info) => rfc_info_spec(body@) == Some(info@),
            None => rfc_info_spec(body@) is None,
        },
{
    let nums = parse_rfc_numbers(body);
    if nums.len() == 0 {
        return None;
    }
    let n = nums[0];
    let mut text = String::from_str("https://github.com/rust-lang/rfcs/pulls/");
    let digits = format_u32(n);
    text.append(digits.as_str());
    match parse_url(text.as_str()) {
        Some(u) => Some(RfcInfo { num: n, pr: u.serialization }),
        None => None,
    }
}

/// An issue's body, or an empty text where it has none.
pub open spec fn issue_body(iv: IssueView) -> Seq<char> {
    match iv.body {
        Some(b) => b,
        None => Seq::empty(),
    }
}

/// The RFC that the issue crawled for `u` refers to.
pub open spec fn rfc_info_for(facts: FactStore, u: Seq<char>) -> Option<(u32, Seq<char>)> {
    match facts.first_issue(u) {
        Some(iv) => rfc_info_spec(issue_body(iv)),
        None => None,
    }
}

/// The RFC that the issue crawled for a campaign's URL refers to.
pub fn get_rfc_info(url_facts: &FactStore, campaign_url: &String) -> (r: Option<RfcInfo>)
    requires
        url_facts.wf(),
    ensures
        match r {
            Some(info) => rfc_info_for(*url_facts, campaign_url@) == Some(info@),
            None => rfc_info_for(*url_facts, campaign_url@) is None,
        },
{
    if !url_facts.knows(campaign_url) {
        return None;
    }
    match url_facts.gh_issue(campaign_url) {
        Some(issue) => match &issue.body {
            Some(b) => rfc_info_from_body(b.as_str()),
            None => {
                let empty = String::new();
                assert(issue_body(issue@) =~= empty@);
                rfc_info_from_body(empty.as_str())
            },
        },
        None => None,
    }
}

/// The day the issue crawled for `u` last changed, written `%Y-%m-%d`, and the whole days
/// since then at time `now`.
pub open spec fn last_updated_for(facts: FactStore, u: Seq<char>, now: i64) -> Option<
    (Seq<char>, u32),
> {
    match facts.first_issue(u) {
        Some(iv) => match utc_formatted(iv.updated_at, "%Y-%m-%d"@) {
            Some(d) => Some((d, days_since(now, iv.updated_at))),
            None => None,
        },
        None => None,
    }
}

/// When the issue crawled for a campaign's URL last changed, and how many days ago that is
/// at time `now` (seconds since the Unix epoch).
pub fn get_last_updated(url_facts: &FactStore, campaign_url: &String, now: i64) -> (r: Option<
    (String, u32),
>)
    requires
        url_facts.wf(),
    ensures
        match r {
            Some((d, days)) => last_updated_for(*url_facts, campaign_url@, now) == Some((d@, days)),
            None => last_updated_for(*url_facts, campaign_url@, now) is None,
        },
{
    match url_facts.gh_issue(campaign_url) {
        Some(issue) => match format_utc(issue.updated_at, "%Y-%m-%d") {
            Some(date) => Some((date, days_between(now, issue.updated_at))),
            None => None,
        },
        None => None,
    }
}


/// A campaign's id and the URL it tracks, where the link parses.
pub open spec fn campaign_url(c: Campaign) -> Option<(Seq<char>, Seq<char>)> {
    match tracked_url(c) {
        Some(u) => Some((c.id@, u)),
        None => None,
    }
}

/// `campaign_url`, as a function value.
pub open spec fn campaign_url_reader() -> spec_fn(Campaign) -> Option<(Seq<char>, Seq<char>)> {
    |c: Campaign| campaign_url(c)
}

/// The content of a list of pairs of texts.
pub open spec fn pairs_view(v: Seq<(String, String)>) -> Seq<(Seq<char>, Seq<char>)> {
    Seq::new(v.len(), |i: int| (v[i].0@, v[i].1@))
}

/// Each campaign's id with the URL it tracks, in order; campaigns whose link does not parse
/// are left out.
pub fn campaign_urls_from_plan(plan: &Battleplan) -> (r: Vec<(String, String)>)
    ensures
        pairs_view(r@) == plan.campaigns@.filter_map(campaign_url_reader()),
{
    let mut cs: Vec<(String, String)> = Vec::new();
    let ghost all = plan.campaigns@;
    let mut i: usize = 0;
    assert(all.take(0) =~= Seq::<Campaign>::empty());
    assert(pairs_view(cs@) =~= Seq::<(Seq<char>, Seq<char>)>::empty());
    while i < plan.campaigns.len()
        invariant
            all == plan.campaigns@,
            i <= all.len(),
            pairs_view(cs@) == all.take(i as int).filter_map(campaign_url_reader()),
        decreases all.len() - i,
    {
        proof { all.lemma_filter_map_take_succ(campaign_url_reader(), i as int); }
        let ghost before = cs@;
        match parse_url(plan.campaigns[i].tracking_link.as_str()) {
            Some(u) => {
                cs.push((plan.campaigns[i].id.clone(), u.serialization));
                assert(pairs_view(cs@) =~= pairs_view(before).push(
                    (all[i as int].id@, u@.serialization),
                ));
            },
            None => {},
        }
        i = i + 1;
    }
    assert(all.take(all.len() as int) =~= all);
    cs
}

/// What pondering finds about one campaign.
#[derive(Debug)]
pub struct CampaignReport {
    pub rfc: Option<RfcInfo>,
    pub fcp: Option<String>,
    pub completed: bool,
    /// The day its issue last changed (`%Y-%m-%d`) and the whole days since then.
    pub last_updated: Option<(String, u32)>,
}

/// The content of a campaign report.
pub struct ReportView {
    pub rfc: Option<(u32, Seq<char>)>,
    pub fcp: Option<Seq<char>>,
    pub completed: bool,
    pub last_updated: Option<(Seq<char>, u32)>,
}

impl View for CampaignReport {
    type V = ReportView;

    open spec fn view(&self) -> ReportView {
        ReportView {
            rfc: match self.rfc {
                Some(i) => Some(i@),
                None => None,
            },
            fcp: match self.fcp {
                Some(f) => Some(f@),
                None => None,
            },
            completed: self.completed,
            last_updated: match self.last_updated {
                Some((d, n)) => Some((d@, n)),
                None => None,
            },
        }
    }
}

/// The report for the campaign tracking `u` at time `now`.
pub open spec fn report_for(facts: FactStore, u: Seq<char>, now: i64) -> ReportView {
    ReportView {
        rfc: rfc_info_for(facts, u),
        fcp: None,
        completed: false,
        last_updated: last_updated_for(facts, u, now),
    }
}

/// The reports by campaign id, for the campaigns (id and URL) in order: a campaign whose URL
/// the crawl learned nothing about gets none, and a later campaign replaces an earlier one
/// with the same id.
pub open spec fn ponder_map(
    pairs: Seq<(Seq<char>, Seq<char>)>,
    facts: FactStore,
    now: i64,
) -> Map<Seq<char>, ReportView>
    decreases pairs.len(),
{
    if pairs.len() == 0 {
        Map::empty()
    } else {
        let m = ponder_map(pairs.drop_last(), facts, now);
        let (id, u) = pairs.last();
        if facts@.contains_key(u) {
            m.insert(id, report_for(facts, u, now))
        } else {
            m
        }
    }
}

/// No id occurs twice.
pub open spec fn ids_distinct(v: Seq<(String, CampaignReport)>) -> bool {
    forall|i: int, k: int| 0 <= i < k < v.len() ==> (#[trigger] v[i]).0@ != (#[trigger] v[k]).0@
}

/// Some entry has the id `id`.
pub open spec fn has_id(v: Seq<(String, CampaignReport)>, id: Seq<char>) -> bool {
    exists|i: int| 0 <= i < v.len() && (#[trigger] v[i]).0@ == id
}

/// The reports by id.
pub open spec fn reports_map(v: Seq<(String, CampaignReport)>) -> Map<Seq<char>, ReportView> {
    Map::new(
        |id: Seq<char>| has_id(v, id),
        |id: Seq<char>| v[choose|i: int| 0 <= i < v.len() && (#[trigger] v[i]).0@ == id].1@,
    )
}

/// Puts `report` under `id`, replacing the report held under it.
fn insert_report(v: &mut Vec<(String, CampaignReport)>, id: String, report: CampaignReport)
    requires
        ids_distinct(old(v)@),
    ensures
        ids_distinct(final(v)@),
        reports_map(final(v)@) == reports_map(old(v)@).insert(id@, report@),
{
    let ghost old_v = v@;
    let ghost rv = report@;
    let ghost idv = id@;
    let mut i: usize = 0;
    while i < v.len()
        invariant
            v@ == old_v,
            old_v == old(v)@,
            ids_distinct(old_v),
            rv == report@,
            i <= v@.len(),
            forall|k: int| 0 <= k < i ==> (#[trigger] v@[k]).0@ != idv,
            idv == id@,
        decreases v@.len() - i,
    {
        if v[i].0 == id {
            let _ = v.remove(i);
            v.insert(i, (id, report));
            proof {
                let nv = v@;
                assert(nv.len() == old_v.len());
                assert forall|k: int| 0 <= k < nv.len() && k != i implies nv[k] == old_v[k] by {}
                assert forall|a: int, b: int| 0 <= a < b < nv.len() implies (#[trigger] nv[a]).0@ != (#[trigger] nv[b]).0@ by {
                    assert(nv[a].0@ == old_v[a].0@);
                    assert(nv[b].0@ == old_v[b].0@);
                }
                assert forall|x: Seq<char>| #[trigger] has_id(nv, x) <==> has_id(old_v, x) by {
                    if has_id(nv, x) {
                        let k = choose|k: int| 0 <= k < nv.len() && (#[trigger] nv[k]).0@ == x;
                        assert(old_v[k].0@ == x);
                    }
                    if has_id(old_v, x) {
                        let k = choose|k: int| 0 <= k < old_v.len() && (#[trigger] old_v[k]).0@ == x;
                        assert(nv[k].0@ == x);
                    }
                }
                assert forall|x: Seq<char>| has_id(nv, x) implies reports_map(nv)[x] == reports_map(old_v).insert(idv, rv)[x] by {
                    let c = choose|k: int| 0 <= k < nv.len() && (#[trigger] nv[k]).0@ == x;
                    if x == idv {
                        if c != i {
                            if c < i { assert(nv[c].0@ != nv[i as int].0@); } else { assert(nv[i as int].0@ != nv[c].0@); }
                        }
                    } else {
                        let c2 = choose|k: int| 0 <= k < old_v.len() && (#[trigger] old_v[k]).0@ == x;
                        assert(c != i);
                        if c != c2 {
                            if c < c2 { assert(old_v[c].0@ != old_v[c2].0@); } else { assert(old_v[c2].0@ != old_v[c].0@); }
                        }
                    }
                }
                assert(has_id(old_v, idv)) by { assert(old_v[i as int].0@ == idv); }
                assert(reports_map(nv) =~= reports_map(old_v).insert(idv, rv));
            }
            return;
        }
        i = i + 1;
    }
    v.push((id, report));
    proof {
        let nv = v@;
        let n = old_v.len() as int;
        assert(nv[n].0@ == idv);
        assert forall|k: int| 0 <= k < n implies nv[k] == old_v[k] by {}
        assert forall|a: int, b: int| 0 <= a < b < nv.len() implies (#[trigger] nv[a]).0@ != (#[trigger] nv[b]).0@ by {
            if b == n {
                assert(nv[a] == old_v[a]);
            } else {
                assert(old_v[a].0@ != old_v[b].0@);
            }
        }
        assert forall|x: Seq<char>| #[trigger] has_id(nv, x) <==> (x == idv || has_id(old_v, x)) by {
            if has_id(nv, x) {
                let k = choose|k: int| 0 <= k < nv.len() && (#[trigger] nv[k]).0@ == x;
                if k < n { assert(old_v[k].0@ == x); }
            }
            if x == idv { assert(nv[n].0@ == x); }
            if has_id(old_v, x) {
                let k = choose|k: int| 0 <= k < old_v.len() && (#[trigger] old_v[k]).0@ == x;
                assert(nv[k].0@ == x);
            }
        }
        assert forall|x: Seq<char>| has_id(nv, x) implies reports_map(nv)[x] == reports_map(old_v).insert(idv, rv)[x] by {
            let c = choose|k: int| 0 <= k < nv.len() && (#[trigger] nv[k]).0@ == x;
            if x == idv {
                if c < n { assert(old_v[c].0@ != idv); }
            } else {
                let c2 = choose|k: int| 0 <= k < old_v.len() && (#[trigger] old_v[k]).0@ == x;
                assert(c != n);
                if c != c2 {
                    if c < c2 { assert(old_v[c].0@ != old_v[c2].0@); } else { assert(old_v[c2].0@ != old_v[c].0@); }
                }
            }
        }
        assert(reports_map(nv) =~= reports_map(old_v).insert(idv, rv));
    }
}

/// The report of every campaign whose URL the crawl learned something about, by campaign id,
/// at time `now` (seconds since the Unix epoch).
pub fn ponder_at(plan: &Battleplan, url_facts: &FactStore, now: i64) -> (r: Vec<
    (String, CampaignReport),
>)
    requires
        url_facts.wf(),
    ensures
        ids_distinct(r@),
        reports_map(r@) == ponder_map(
            plan.campaigns@.filter_map(campaign_url_reader()),
            *url_facts,
            now,
        ),
{
    let campaign_urls = campaign_urls_from_plan(plan);
    let ghost pairs = pairs_view(campaign_urls@);
    let mut campaigns: Vec<(String, CampaignReport)> = Vec::new();
    let mut cu = campaign_urls;
    let n = cu.len();
    let mut i: usize = 0;
    assert(reports_map(campaigns@) =~= Map::<Seq<char>, ReportView>::empty());
    assert(pairs.take(0) =~= Seq::<(Seq<char>, Seq<char>)>::empty());
    while i < n
        invariant
            n == pairs.len(),
            i <= n,
            pairs_view(cu@) == pairs.skip(i as int),
            ids_distinct(campaigns@),
            reports_map(campaigns@) == ponder_map(pairs.take(i as int), *url_facts, now),
            url_facts.wf(),
        decreases n - i,
    {
        assert(pairs_view(cu@).len() == cu@.len());
        let ghost cu_before = cu@;
        let (campaign_id, url) = cu.remove(0);
        assert(cu_before[0] == (campaign_id, url));
        assert(pairs_view(cu_before)[0] == (campaign_id@, url@));
        assert(pairs_view(cu@) =~= pairs.skip(i + 1)) by {
            assert(pairs.skip(i as int)[0] == (campaign_id@, url@));
            assert forall|k: int| 0 <= k < cu@.len() implies pairs_view(cu@)[k] == #[trigger] pairs.skip(i + 1)[k] by {
                assert(cu@[k] == cu_before[k + 1]);
                assert(pairs_view(cu_before)[k + 1] == pairs.skip(i as int)[k + 1]);
            }
        }
        assert(pairs.take(i + 1).drop_last() =~= pairs.take(i as int));
        assert(pairs.take(i + 1).last() == (campaign_id@, url@)) by {
            assert(pairs.skip(i as int)[0] == pairs[i as int]);
        }
        if url_facts.knows(&url) {
            let rfc = get_rfc_info(url_facts, &url);
            let last_updated = get_last_updated(url_facts, &url, now);
            let report = CampaignReport { rfc, fcp: None, completed: false, last_updated };
            assert(report@ == report_for(*url_facts, url@, now));
            insert_report(&mut campaigns, campaign_id, report);
        }
        i = i + 1;
    }
    assert(pairs.take(n as int) =~= pairs);
    campaigns
}

/// Ponders a plan against what the crawl learned: checks the plan's references, then reports
/// on every campaign whose URL the crawl learned something about, at the current time.
pub fn ponder(plan: &Battleplan, url_facts: &FactStore) -> (r: Result<
    Vec<(String, CampaignReport)>,
    Error,
>)
    requires
        url_facts.wf(),
    ensures
        r is Ok <==> plan.is_consistent(),
        r is Err ==> r matches Err(Error::InvalidBattleplan),
        r matches Ok(v) ==> ids_distinct(v@) && exists|now: i64|
            reports_map(v@) == ponder_map(
                plan.campaigns@.filter_map(campaign_url_reader()),
                *url_facts,
                now,
            ),
{
    plan.validate()?;
    let now = now_timestamp();
    Ok(ponder_at(plan, url_facts, now))
}

} // verus!
