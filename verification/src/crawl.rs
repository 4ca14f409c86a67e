//! The crawl of a plan's tracking links: a queue of URLs to visit and the facts learned
//! about each URL.
use vstd::prelude::*;
use std::collections::VecDeque;
use crate::errors::Error;
use crate::plan::{Battleplan, Campaign};
use crate::web::{parse_url, url_parse};
use crate::gh::models::{IssueFromJson, IssueView};
use crate::text::{
    contains_seq,
    contains_str,
    find_char_from,
    first_from,
    is_first_from,
    is_prefix,
    lemma_first_from,
    occurs_at,
    occurs_at_exec,
    starts_with,
    substring,
};

verus! {

/// Something learned about a URL.
#[derive(Debug)]
pub enum Fact {
    /// Visiting the URL failed, with this message.
    CrawlError(String),
    /// The URL is a GitHub issue, as fetched.
    GitHubIssue(IssueFromJson),
    /// The URL is a GitHub pull request.
    GitHubPullRequest,
}

/// The content of a fact.
pub enum FactView {
    CrawlError(Seq<char>),
    GitHubIssue(IssueView),
    GitHubPullRequest,
}

impl View for Fact {
    type V = FactView;

    open spec fn view(&self) -> FactView {
        match self {
            Fact::CrawlError(m) => FactView::CrawlError(m@),
            Fact::GitHubIssue(i) => FactView::GitHubIssue(i@),
            Fact::GitHubPullRequest => FactView::GitHubPullRequest,
        }
    }
}

impl Fact {
    /// Whether two facts hold the same content.
    pub fn same_as(&self, other: &Fact) -> (r: bool)
        ensures
            r == (self@ == other@),
    {
        match (self, other) {
            (Fact::CrawlError(a), Fact::CrawlError(b)) => *a == *b,
            (Fact::GitHubIssue(a), Fact::GitHubIssue(b)) => a.same_as(b),
            (Fact::GitHubPullRequest, Fact::GitHubPullRequest) => true,
            _ => false,
        }
    }
}

/// Entry `i` is the one for URL `u`.
pub open spec fn url_at(entries: Seq<(String, Vec<Fact>)>, u: Seq<char>, i: int) -> bool {
    0 <= i < entries.len() && entries[i].0@ == u
}

/// Some entry is the one for URL `u`.
pub open spec fn has_url(entries: Seq<(String, Vec<Fact>)>, u: Seq<char>) -> bool {
    exists|i: int| url_at(entries, u, i)
}

/// The facts recorded for URL `u`.
pub open spec fn facts_at(entries: Seq<(String, Vec<Fact>)>, u: Seq<char>) -> Set<FactView> {
    Set::new(
        |f: FactView|
            exists|i: int, j: int|
                url_at(entries, u, i) && 0 <= j < entries[i].1@.len() && (
                #[trigger] entries[i].1@[j])@ == f,
    )
}

/// The first issue among a URL's facts, in the order they were learned.
pub open spec fn first_issue_in(fs: Seq<Fact>) -> Option<IssueView>
    decreases fs.len(),
{
    if fs.len() == 0 {
        None
    } else {
        match fs[0] {
            Fact::GitHubIssue(i) => Some(i@),
            _ => first_issue_in(fs.drop_first()),
        }
    }
}

/// The content of a list of facts.
pub open spec fn fact_set(fs: Seq<Fact>) -> Set<FactView> {
    Set::new(|f: FactView| exists|k: int| 0 <= k < fs.len() && (#[trigger] fs[k])@ == f)
}

/// What a list of entries says: each URL that has an entry, with the facts that its entries
/// list.
pub open spec fn entries_map(entries: Seq<(String, Vec<Fact>)>) -> Map<Seq<char>, Set<FactView>> {
    Map::new(|u: Seq<char>| has_url(entries, u), |u: Seq<char>| facts_at(entries, u))
}

/// What a list of entries says once one more entry follows.
pub proof fn lemma_entries_map_push(es: Seq<(String, Vec<Fact>)>, e: (String, Vec<Fact>))
    ensures
        entries_map(es.push(e)) == entries_map(es).insert(
            e.0@,
            (if entries_map(es).contains_key(e.0@) {
                entries_map(es)[e.0@]
            } else {
                Set::empty()
            }).union(fact_set(e.1@)),
        ),
{
    let ne = es.push(e);
    let n = es.len() as int;
    let m = entries_map(es);
    let base = if m.contains_key(e.0@) { m[e.0@] } else { Set::<FactView>::empty() };
    assert forall|u: Seq<char>| #[trigger] has_url(ne, u) <==> (u == e.0@ || has_url(es, u)) by {
        if has_url(ne, u) {
            let k = choose|k: int| url_at(ne, u, k);
            if k < n { assert(url_at(es, u, k)); }
        }
        if u == e.0@ { assert(url_at(ne, u, n)); }
        if has_url(es, u) {
            let k = choose|k: int| url_at(es, u, k);
            assert(url_at(ne, u, k));
        }
    }
    assert(facts_at(ne, e.0@) =~= base.union(fact_set(e.1@))) by {
        assert forall|f: FactView| #[trigger] facts_at(ne, e.0@).contains(f) <==> base.union(fact_set(e.1@)).contains(f) by {
            if facts_at(ne, e.0@).contains(f) {
                let (a, b) = choose|a: int, b: int| url_at(ne, e.0@, a) && 0 <= b < ne[a].1@.len() && (#[trigger] ne[a].1@[b])@ == f;
                if a < n {
                    assert(url_at(es, e.0@, a));
                    assert(es[a].1@[b] == ne[a].1@[b]);
                    assert(facts_at(es, e.0@).contains(f));
                } else {
                    assert(e.1@[b]@ == f);
                }
            }
            if base.contains(f) {
                let (a, b) = choose|a: int, b: int| url_at(es, e.0@, a) && 0 <= b < es[a].1@.len() && (#[trigger] es[a].1@[b])@ == f;
                assert(ne[a] == es[a]);
                assert(ne[a].1@[b]@ == f);
                assert(url_at(ne, e.0@, a));
            }
            if fact_set(e.1@).contains(f) {
                let k = choose|k: int| 0 <= k < e.1@.len() && (#[trigger] e.1@[k])@ == f;
                assert(ne[n].1@[k]@ == f);
                assert(url_at(ne, e.0@, n));
            }
        }
    }
    assert forall|u: Seq<char>| u != e.0@ implies facts_at(ne, u) =~= facts_at(es, u) by {
        assert forall|f: FactView| facts_at(ne, u).contains(f) <==> facts_at(es, u).contains(f) by {
            if facts_at(ne, u).contains(f) {
                let (a, b) = choose|a: int, b: int| url_at(ne, u, a) && 0 <= b < ne[a].1@.len() && (#[trigger] ne[a].1@[b])@ == f;
                assert(a != n);
                assert(es[a] == ne[a]);
                assert(url_at(es, u, a));
            }
            if facts_at(es, u).contains(f) {
                let (a, b) = choose|a: int, b: int| url_at(es, u, a) && 0 <= b < es[a].1@.len() && (#[trigger] es[a].1@[b])@ == f;
                assert(es[a] == ne[a]);
                assert(url_at(ne, u, a));
            }
        }
    }
    assert(entries_map(ne) =~= m.insert(e.0@, base.union(fact_set(e.1@))));
}

/// The facts learned so far, by URL; each URL appears once, with each fact once.
pub struct FactStore {
    entries: Vec<(String, Vec<Fact>)>,
}

impl View for FactStore {
    type V = Map<Seq<char>, Set<FactView>>;

    closed spec fn view(&self) -> Map<Seq<char>, Set<FactView>> {
        entries_map(self.entries@)
    }
}

impl FactStore {
    /// No URL appears twice, and no URL lists a fact twice.
    pub closed spec fn wf(&self) -> bool {
        &&& forall|i: int, k: int|
            0 <= i < k < self.entries@.len() ==> (#[trigger] self.entries@[i]).0@ != (
            #[trigger] self.entries@[k]).0@
        &&& forall|i: int, j: int, l: int|
            0 <= i < self.entries@.len() && 0 <= j < l < self.entries@[i].1@.len() ==> (
            #[trigger] self.entries@[i].1@[j])@ != (#[trigger] self.entries@[i].1@[l])@
    }

    /// A store that knows nothing.
    pub fn new() -> (r: FactStore)
        ensures
            r.wf(),
            r@ == Map::<Seq<char>, Set<FactView>>::empty(),
    {
        let r = FactStore { entries: Vec::new() };
        assert(r@ =~= Map::<Seq<char>, Set<FactView>>::empty());
        r
    }

    /// The number of URLs that facts are known about.
    pub fn len(&self) -> (r: usize)
        requires
            self.wf(),
        ensures
            r == self@.dom().len(),
    {
        proof { self.lemma_dom(); }
        self.entries.len()
    }

    proof fn lemma_dom(&self)
        requires
            self.wf(),
        ensures
            self@.dom() == self.entries@.map_values(|e: (String, Vec<Fact>)| e.0@).to_set(),
            self@.dom().finite(),
            self@.dom().len() == self.entries@.len(),
    {
        let keys = self.entries@.map_values(|e: (String, Vec<Fact>)| e.0@);
        assert(self@.dom() =~= keys.to_set()) by {
            assert forall|u: Seq<char>| self@.dom().contains(u) <==> keys.to_set().contains(u) by {
                if self@.dom().contains(u) {
                    let i = choose|i: int| url_at(self.entries@, u, i);
                    assert(keys[i] == u);
                }
                if keys.to_set().contains(u) {
                    let i = choose|i: int| 0 <= i < keys.len() && keys[i] == u;
                    assert(url_at(self.entries@, u, i));
                }
            }
        }
        assert(keys.no_duplicates()) by {
            assert forall|i: int, k: int| 0 <= i < keys.len() && 0 <= k < keys.len() && i != k
                implies keys[i] != keys[k] by {
                if i < k {
                    assert(self.entries@[i].0@ != self.entries@[k].0@);
                } else {
                    assert(self.entries@[k].0@ != self.entries@[i].0@);
                }
            }
        }
        keys.unique_seq_to_set();
    }

    /// The position of URL `u`, if facts are known about it.
    fn find(&self, u: &String) -> (r: Option<usize>)
        ensures
            r matches Some(i) ==> url_at(self.entries@, u@, i as int),
            r is None ==> forall|i: int| !url_at(self.entries@, u@, i),
    {
        let mut i: usize = 0;
        while i < self.entries.len()
            invariant
                i <= self.entries@.len(),
                forall|k: int| 0 <= k < i ==> !url_at(self.entries@, u@, k),
            decreases self.entries@.len() - i,
        {
            if self.entries[i].0 == *u {
                return Some(i);
            }
            i = i + 1;
        }
        None
    }

    /// Whether some fact is known about `url`.
    pub fn knows(&self, url: &String) -> (r: bool)
        ensures
            r == self@.contains_key(url@),
            !r ==> self.first_issue(url@) is None,
    {
        match self.find(url) {
            Some(i) => {
                assert(has_url(self.entries@, url@));
                true
            },
            None => false,
        }
    }

    /// The issue that the store gives out for `url`: the first recorded for it.
    pub closed spec fn first_issue(&self, u: Seq<char>) -> Option<IssueView> {
        if has_url(self.entries@, u) {
            first_issue_in(self.entries@[choose|i: int| url_at(self.entries@, u, i)].1@)
        } else {
            None
        }
    }

    /// An issue recorded for `url`, if there is one: the first recorded.
    pub fn gh_issue(&self, url: &String) -> (r: Option<&IssueFromJson>)
        requires
            self.wf(),
        ensures
            r matches Some(issue) ==> self@.contains_key(url@) && self@[url@].contains(
                FactView::GitHubIssue(issue@),
            ) && self.first_issue(url@) == Some(issue@),
            r is None ==> self.first_issue(url@) is None && (!self@.contains_key(url@) || forall|
                v: IssueView,
            | !#[trigger] self@[url@].contains(FactView::GitHubIssue(v))),
    {
        match self.find(url) {
            Some(i) => {
                let facts = &self.entries[i].1;
                proof {
                    let c = choose|c: int| url_at(self.entries@, url@, c);
                    assert(url_at(self.entries@, url@, i as int));
                    if c != i {
                        if c < i { assert(self.entries@[c].0@ != self.entries@[i as int].0@); }
                        else { assert(self.entries@[i as int].0@ != self.entries@[c].0@); }
                    }
                    assert(facts@.skip(0) =~= facts@);
                }
                let mut j: usize = 0;
                while j < facts.len()
                    invariant
                        j <= facts@.len(),
                        facts@ == self.entries@[i as int].1@,
                        url_at(self.entries@, url@, i as int),
                        self.first_issue(url@) == first_issue_in(facts@.skip(j as int)),
                        forall|l: int| 0 <= l < j ==> !(#[trigger] facts@[l] is GitHubIssue),
                    decreases facts@.len() - j,
                {
                    match &facts[j] {
                        Fact::GitHubIssue(issue) => {
                            assert(facts_at(self.entries@, url@).contains(FactView::GitHubIssue(issue@))) by {
                                assert(facts@[j as int]@ == FactView::GitHubIssue(issue@));
                                assert(self.entries@[i as int].1@[j as int]@ == FactView::GitHubIssue(issue@));
                            }
                            return Some(issue);
                        },
                        _ => {
                            assert(facts@.skip(j as int).drop_first() =~= facts@.skip(j + 1));
                        },
                    }
                    j = j + 1;
                }
                assert forall|v: IssueView| !#[trigger] self@[url@].contains(FactView::GitHubIssue(v)) by {
                    if facts_at(self.entries@, url@).contains(FactView::GitHubIssue(v)) {
                        let (a, b) = choose|a: int, b: int| url_at(self.entries@, url@, a) && 0 <= b < self.entries@[a].1@.len() && (#[trigger] self.entries@[a].1@[b])@ == FactView::GitHubIssue(v);
                        if a != i {
                            if a < i { assert(self.entries@[a].0@ != self.entries@[i as int].0@); }
                            else { assert(self.entries@[i as int].0@ != self.entries@[a].0@); }
                        }
                        assert(self.entries@[i as int].1@[b] is GitHubIssue);
                    }
                }
                None
            },
            None => None,
        }
    }

    /// Hands out what the store knows: one entry per URL, with the facts known about it.
    pub fn into_entries(self) -> (r: Vec<(String, Vec<Fact>)>)
        requires
            self.wf(),
        ensures
            forall|u: Seq<char>| #[trigger] self@.contains_key(u) <==> has_url(r@, u),
            forall|u: Seq<char>| #[trigger] self@.contains_key(u) ==> self@[u] == facts_at(r@, u),
            forall|i: int, k: int| 0 <= i < k < r@.len() ==> (#[trigger] r@[i]).0@ != (#[trigger] r@[k]).0@,
    {
        self.entries
    }

    /// Makes sure that `url` has an entry; a new entry lists no facts.
    fn touch(&mut self, url: &String)
        requires
            old(self).wf(),
        ensures
            final(self).wf(),
            final(self)@ == (if old(self)@.contains_key(url@) {
                old(self)@
            } else {
                old(self)@.insert(url@, Set::empty())
            }),
    {
        match self.find(url) {
            Some(i) => {
                assert(url_at(self.entries@, url@, i as int));
            },
            None => {
                let ghost old_entries = self.entries@;
                let facts: Vec<Fact> = Vec::new();
                self.entries.push((url.clone(), facts));
                proof {
                    let ne = self.entries@;
                    let n = old_entries.len() as int;
                    assert(ne == old_entries.push(ne[n]));
                    lemma_entries_map_push(old_entries, ne[n]);
                    assert(fact_set(ne[n].1@) =~= Set::<FactView>::empty());
                    assert(!old(self)@.contains_key(url@));
                    assert(Set::<FactView>::empty().union(Set::<FactView>::empty()) =~= Set::<FactView>::empty());
                    assert forall|a: int, k: int|
                        0 <= a < k < ne.len() implies (#[trigger] ne[a]).0@ != (#[trigger] ne[k]).0@ by {
                        if k == n {
                            assert(!url_at(old_entries, url@, a));
                        } else {
                            assert(old_entries[a].0@ != old_entries[k].0@);
                        }
                    }
                    assert forall|a: int, b: int, l: int|
                        0 <= a < ne.len() && 0 <= b < l < ne[a].1@.len() implies (#[trigger] ne[a].1@[b])@ != (#[trigger] ne[a].1@[l])@ by {
                        assert(a < n);
                        assert(ne[a] == old_entries[a]);
                    }
                }
            },
        }
    }

    /// The store that a list of entries describes: every URL that has an entry, with the
    /// facts that its entries list, each URL and each of its facts kept once.
    pub fn from_entries(entries: Vec<(String, Vec<Fact>)>) -> (r: FactStore)
        ensures
            r.wf(),
            r@ == entries_map(entries@),
    {
        let mut store = FactStore::new();
        let mut entries = entries;
        let ghost all = entries@;
        let n = entries.len();
        let mut i: usize = 0;
        assert(all.skip(0) =~= all);
        assert(entries_map(all.take(0)) =~= Map::<Seq<char>, Set<FactView>>::empty());
        while i < n
            invariant
                n == all.len(),
                i <= n,
                entries@ == all.skip(i as int),
                store.wf(),
                store@ == entries_map(all.take(i as int)),
            decreases n - i,
        {
            let ghost e = all[i as int];
            assert(entries@[0] == e);
            let (url, facts) = entries.remove(0);
            assert(entries@ =~= all.skip(i + 1));
            let ghost m = store@;
            store.touch(&url);
            let ghost m0 = store@;
            let ghost fs = facts@;
            let mut facts = facts;
            let k = facts.len();
            let mut j: usize = 0;
            assert(fs.skip(0) =~= fs);
            assert(fact_set(fs.take(0)) =~= Set::<FactView>::empty());
            assert(m0.contains_key(url@));
            assert(m0[url@].union(fact_set(fs.take(0))) =~= m0[url@]);
            assert(m0.insert(url@, m0[url@].union(fact_set(fs.take(0)))) =~= m0);
            while j < k
                invariant
                    k == fs.len(),
                    j <= k,
                    facts@ == fs.skip(j as int),
                    store.wf(),
                    m0.contains_key(url@),
                    store@ == m0.insert(url@, m0[url@].union(fact_set(fs.take(j as int)))),
                decreases k - j,
            {
                assert(facts@[0] == fs[j as int]);
                let f = facts.remove(0);
                assert(facts@ =~= fs.skip(j + 1));
                let ghost prev = store@;
                store.add_fact(&url, f);
                assert(fact_set(fs.take(j + 1)) =~= fact_set(fs.take(j as int)).insert(f@)) by {
                    assert forall|v: FactView| #[trigger] fact_set(fs.take(j + 1)).contains(v) <==> fact_set(fs.take(j as int)).insert(f@).contains(v) by {
                        if fact_set(fs.take(j + 1)).contains(v) {
                            let q = choose|q: int| 0 <= q < fs.take(j + 1).len() && (#[trigger] fs.take(j + 1)[q])@ == v;
                            if q < j {
                                assert(fs.take(j as int)[q] == fs.take(j + 1)[q]);
                            }
                        }
                        if fact_set(fs.take(j as int)).contains(v) {
                            let q = choose|q: int| 0 <= q < fs.take(j as int).len() && (#[trigger] fs.take(j as int)[q])@ == v;
                            assert(fs.take(j + 1)[q] == fs.take(j as int)[q]);
                        }
                        if v == f@ {
                            assert(fs.take(j + 1)[j as int] == f);
                        }
                    }
                }
                assert(prev.contains_key(url@));
                assert(prev[url@].insert(f@) =~= m0[url@].union(fact_set(fs.take(j + 1))));
                assert(store@ =~= m0.insert(url@, m0[url@].union(fact_set(fs.take(j + 1)))));
                j = j + 1;
            }
            assert(fs.take(k as int) =~= fs);
            proof {
                assert(all.take(i + 1) =~= all.take(i as int).push(e));
                lemma_entries_map_push(all.take(i as int), e);
                let base = if m.contains_key(url@) { m[url@] } else { Set::<FactView>::empty() };
                assert(m0[url@] == base);
                assert(store@ =~= m.insert(url@, base.union(fact_set(fs))));
            }
            i = i + 1;
        }
        assert(all.take(n as int) =~= all);
        store
    }

    /// Records that `fact` holds of `url`; a fact already recorded for the URL is kept once.
    pub fn add_fact(&mut self, url: &String, fact: Fact)
        requires
            old(self).wf(),
        ensures
            final(self).wf(),
            final(self)@ == old(self)@.insert(
                url@,
                if old(self)@.contains_key(url@) {
                    old(self)@[url@].insert(fact@)
                } else {
                    set![fact@]
                },
            ),
    {
        let ghost old_entries = self.entries@;
        match self.find(url) {
            Some(i) => {
                let mut entry = self.entries.remove(i);
                let mut present = false;
                let mut j: usize = 0;
                while j < entry.1.len()
                    invariant
                        j <= entry.1@.len(),
                        present == exists|l: int| 0 <= l < j && (#[trigger] entry.1@[l])@ == fact@,
                    decreases entry.1@.len() - j,
                {
                    if entry.1[j].same_as(&fact) {
                        present = true;
                    }
                    j = j + 1;
                }
                let ghost before = entry.1@;
                if !present {
                    entry.1.push(fact);
                }
                self.entries.insert(i, entry);
                proof {
                    let ne = self.entries@;
                    assert(ne.len() == old_entries.len());
                    assert forall|k: int| 0 <= k < ne.len() && k != i implies ne[k] == old_entries[k] by {}
                    assert(ne[i as int].0 == old_entries[i as int].0);
                    assert(facts_at(ne, url@) =~= facts_at(old_entries, url@).insert(fact@)) by {
                        assert forall|f: FactView| #[trigger] facts_at(ne, url@).contains(f) <==> facts_at(old_entries, url@).insert(fact@).contains(f) by {
                            if facts_at(ne, url@).contains(f) {
                                let (a, b) = choose|a: int, b: int| url_at(ne, url@, a) && 0 <= b < ne[a].1@.len() && (#[trigger] ne[a].1@[b])@ == f;
                                if a != i {
                                    assert(old_entries[a].0@ == url@);
                                    assert(old_entries[i as int].0@ == url@);
                                    if a < i { assert(old_entries[a].0@ != old_entries[i as int].0@); }
                                    else { assert(old_entries[i as int].0@ != old_entries[a].0@); }
                                }
                                if f != fact@ {
                                    assert(b < before.len());
                                    assert(old_entries[i as int].1@[b] == ne[a].1@[b]);
                                    assert(facts_at(old_entries, url@).contains(f));
                                }
                            }
                            if facts_at(old_entries, url@).insert(fact@).contains(f) {
                                if f == fact@ {
                                    if present {
                                        let l = choose|l: int| 0 <= l < before.len() && (#[trigger] before[l])@ == fact@;
                                        assert(ne[i as int].1@[l] == before[l]);
                                    } else {
                                        assert(ne[i as int].1@[before.len() as int] == fact);
                                    }
                                    assert(url_at(ne, url@, i as int));
                                } else {
                                    let (a, b) = choose|a: int, b: int| url_at(old_entries, url@, a) && 0 <= b < old_entries[a].1@.len() && (#[trigger] old_entries[a].1@[b])@ == f;
                                    if a != i {
                                        if a < i { assert(old_entries[a].0@ != old_entries[i as int].0@); }
                                        else { assert(old_entries[i as int].0@ != old_entries[a].0@); }
                                    }
                                    assert(ne[i as int].1@[b] == old_entries[i as int].1@[b]);
                                    assert(url_at(ne, url@, i as int));
                                }
                            }
                        }
                    }
                    assert forall|u: Seq<char>| u != url@ implies facts_at(ne, u) =~= facts_at(old_entries, u) by {
                        assert forall|f: FactView| facts_at(ne, u).contains(f) <==> facts_at(old_entries, u).contains(f) by {
                            if facts_at(ne, u).contains(f) {
                                let (a, b) = choose|a: int, b: int| url_at(ne, u, a) && 0 <= b < ne[a].1@.len() && (#[trigger] ne[a].1@[b])@ == f;
                                assert(a != i);
                                assert(old_entries[a] == ne[a]);
                            }
                            if facts_at(old_entries, u).contains(f) {
                                let (a, b) = choose|a: int, b: int| url_at(old_entries, u, a) && 0 <= b < old_entries[a].1@.len() && (#[trigger] old_entries[a].1@[b])@ == f;
                                assert(a != i);
                                assert(old_entries[a] == ne[a]);
                            }
                        }
                    }
                    assert forall|u: Seq<char>| #[trigger] has_url(ne, u) <==> has_url(old_entries, u) by {
                        if has_url(ne, u) {
                            let k = choose|k: int| url_at(ne, u, k);
                            assert(url_at(old_entries, u, k));
                        }
                        if has_url(old_entries, u) {
                            let k = choose|k: int| url_at(old_entries, u, k);
                            assert(url_at(ne, u, k));
                        }
                    }
                    assert(old(self)@.contains_key(url@)) by { assert(url_at(old_entries, url@, i as int)); }
                    assert(self@ =~= old(self)@.insert(url@, old(self)@[url@].insert(fact@)));
                    assert forall|a: int, b: int, l: int|
                        0 <= a < ne.len() && 0 <= b < l < ne[a].1@.len() implies (#[trigger] ne[a].1@[b])@ != (#[trigger] ne[a].1@[l])@ by {
                        if a != i {
                            assert(ne[a] == old_entries[a]);
                        } else if !present && l == before.len() {
                            assert(ne[a].1@[b] == before[b]);
                        } else {
                            assert(ne[a].1@[b] == old_entries[a].1@[b]);
                            assert(ne[a].1@[l] == old_entries[a].1@[l]);
                        }
                    }
                }
            },
            None => {
                let mut facts: Vec<Fact> = Vec::new();
                facts.push(fact);
                let ghost fs = facts@;
                self.entries.push((url.clone(), facts));
                proof {
                    let ne = self.entries@;
                    let n = old_entries.len() as int;
                    assert(ne[n].0@ == url@);
                    assert forall|k: int| 0 <= k < n implies ne[k] == old_entries[k] by {}
                    assert(facts_at(ne, url@) =~= set![fact@]) by {
                        assert forall|f: FactView| #[trigger] facts_at(ne, url@).contains(f) <==> set![fact@].contains(f) by {
                            if facts_at(ne, url@).contains(f) {
                                let (a, b) = choose|a: int, b: int| url_at(ne, url@, a) && 0 <= b < ne[a].1@.len() && (#[trigger] ne[a].1@[b])@ == f;
                                if a < n { assert(!url_at(old_entries, url@, a)); }
                            }
                            if f == fact@ {
                                assert(ne[n].1@[0] == fact);
                                assert(url_at(ne, url@, n));
                            }
                        }
                    }
                    assert forall|u: Seq<char>| u != url@ implies facts_at(ne, u) =~= facts_at(old_entries, u) by {
                        assert forall|f: FactView| facts_at(ne, u).contains(f) <==> facts_at(old_entries, u).contains(f) by {
                            if facts_at(ne, u).contains(f) {
                                let (a, b) = choose|a: int, b: int| url_at(ne, u, a) && 0 <= b < ne[a].1@.len() && (#[trigger] ne[a].1@[b])@ == f;
                                assert(a != n);
                                assert(old_entries[a] == ne[a]);
                            }
                            if facts_at(old_entries, u).contains(f) {
                                let (a, b) = choose|a: int, b: int| url_at(old_entries, u, a) && 0 <= b < old_entries[a].1@.len() && (#[trigger] old_entries[a].1@[b])@ == f;
                                assert(old_entries[a] == ne[a]);
                            }
                        }
                    }
                    assert forall|u: Seq<char>| #[trigger] has_url(ne, u) <==> (u == url@ || has_url(old_entries, u)) by {
                        if has_url(ne, u) {
                            let k = choose|k: int| url_at(ne, u, k);
                            if k < n { assert(url_at(old_entries, u, k)); }
                        }
                        if u == url@ { assert(url_at(ne, u, n)); }
                        if has_url(old_entries, u) {
                            let k = choose|k: int| url_at(old_entries, u, k);
                            assert(url_at(ne, u, k));
                        }
                    }
                    assert(!old(self)@.contains_key(url@));
                    assert(self@ =~= old(self)@.insert(url@, set![fact@]));
                    assert forall|a: int, k: int|
                        0 <= a < k < ne.len() implies (#[trigger] ne[a]).0@ != (#[trigger] ne[k]).0@ by {
                        if k == n {
                            assert(!url_at(old_entries, url@, a));
                        } else {
                            assert(old_entries[a].0@ != old_entries[k].0@);
                        }
                    }
                    assert forall|a: int, b: int, l: int|
                        0 <= a < ne.len() && 0 <= b < l < ne[a].1@.len() implies (#[trigger] ne[a].1@[b])@ != (#[trigger] ne[a].1@[l])@ by {
                        if a < n {
                            assert(ne[a] == old_entries[a]);
                        }
                    }
                }
            },
        }
    }
}


/// What a store hands out, read back, is the store: for entries as `into_entries` hands them
/// out, `from_entries` rebuilds exactly the store's facts.
pub proof fn lemma_entries_round_trip(s: FactStore, es: Seq<(String, Vec<Fact>)>)
    requires
        s.wf(),
        forall|u: Seq<char>| #[trigger] s@.contains_key(u) <==> has_url(es, u),
        forall|u: Seq<char>| #[trigger] s@.contains_key(u) ==> s@[u] == facts_at(es, u),
    ensures
        entries_map(es) == s@,
{
    assert(entries_map(es) =~= s@);
}

// ---------------------------------------------------------------------------------------
// GitHub issue URLs
// ---------------------------------------------------------------------------------------

/// Searching a suffix of `s` finds what searching `s` from the same place finds.
pub proof fn lemma_first_from_sub(s: Seq<char>, c: char, o: int, f: int)
    requires
        0 <= o <= s.len(),
        0 <= f <= s.len() - o,
    ensures
        match first_from(s, c, o + f) {
            Some(k) => first_from(s.subrange(o, s.len() as int), c, f) == Some(k - o),
            None => first_from(s.subrange(o, s.len() as int), c, f) is None,
        },
{
    let t = s.subrange(o, s.len() as int);
    lemma_first_from(s, c, o + f);
    lemma_first_from(t, c, f);
    match first_from(s, c, o + f) {
        Some(k) => {
            assert(is_first_from(t, c, f, k - o));
        },
        None => {
            if first_from(t, c, f) is Some {
                let k = first_from(t, c, f).unwrap();
                assert(s[o + k] == t[k]);
            }
        },
    }
}

/// The owner, repository and issue number that a GitHub issue URL names:
/// `https://github.com/<owner>/<repo>/issues/<number>`, the number ending at an optional
/// `#`; `None` where the URL does not have that shape, owner and repository being
/// non-empty.
pub open spec fn gh_issue_parts(u: Seq<char>) -> Option<(Seq<char>, Seq<char>, Seq<char>)> {
    let site = "https://github.com/"@;
    if !is_prefix(site, u) {
        None
    } else {
        let a = u.subrange(site.len() as int, u.len() as int);
        match first_from(a, '/', 0) {
            Some(k) => if 0 < k < a.len() {
                let owner = a.subrange(0, k);
                let b = a.subrange(k + 1, a.len() as int);
                match first_from(b, '/', 0) {
                    Some(k2) => if 0 < k2 < b.len() {
                        let repo = b.subrange(0, k2);
                        let c = b.subrange(k2 + 1, b.len() as int);
                        if is_prefix("issues/"@, c) {
                            let d = c.subrange(7, c.len() as int);
                            let number = match first_from(d, '#', 0) {
                                Some(h) => if 0 <= h <= d.len() {
                                    d.subrange(0, h)
                                } else {
                                    d
                                },
                                None => d,
                            };
                            Some((owner, repo, number))
                        } else {
                            None
                        }
                    } else {
                        None
                    },
                    None => None,
                }
            } else {
                None
            },
            None => None,
        }
    }
}

/// The owner, repository and issue number of a GitHub issue URL; `None` where the URL does
/// not have the shape `https://github.com/<owner>/<repo>/issues/<number>`.
pub fn issue_link_parts(url: &str) -> (r: Option<(String, String, String)>)
    ensures
        match gh_issue_parts(url@) {
            Some((o, p, n)) => r matches Some((a, b, c)) && a@ == o && b@ == p && c@ == n,
            None => r is None,
        },
{
    let site = "https://github.com/";
    proof {
        reveal_strlit("https://github.com/");
        reveal_strlit("issues/");
    }
    assert(site@.len() == 19);
    if !starts_with(url, site) {
        return None;
    }
    let n = url.unicode_len();
    let ghost u = url@;
    let ghost a = u.subrange(19, n as int);
    proof { lemma_first_from_sub(u, '/', 19, 0); lemma_first_from(u, '/', 19); }
    let k = match find_char_from(url, '/', 19) {
        Some(k) => k,
        None => return None,
    };
    if k == 19 {
        return None;
    }
    let owner = substring(url, 19, k);
    assert(owner@ =~= a.subrange(0, k - 19));
    let ghost b = a.subrange(k - 19 + 1, a.len() as int);
    assert(b =~= u.subrange(k + 1, n as int));
    proof { lemma_first_from_sub(u, '/', k + 1, 0); lemma_first_from(u, '/', k + 1); }
    let k2 = match find_char_from(url, '/', k + 1) {
        Some(k2) => k2,
        None => return None,
    };
    if k2 == k + 1 {
        return None;
    }
    let repo = substring(url, k + 1, k2);
    assert(repo@ =~= b.subrange(0, k2 - k - 1));
    let ghost c = b.subrange(k2 - k - 1 + 1, b.len() as int);
    assert(c =~= u.subrange(k2 + 1, n as int));
    let at_issues = occurs_at_exec(url, "issues/", k2 + 1);
    assert(at_issues == is_prefix("issues/"@, c)) by {
        if k2 + 1 + 7 <= n {
            assert(c.subrange(0, 7) =~= u.subrange(k2 + 1, k2 + 8));
        }
    }
    if !at_issues {
        return None;
    }
    let start = k2 + 8;
    let ghost d = c.subrange(7, c.len() as int);
    assert(d =~= u.subrange(start as int, n as int));
    proof { lemma_first_from_sub(u, '#', start as int, 0); lemma_first_from(u, '#', start as int); }
    let end = match find_char_from(url, '#', start) {
        Some(h) => h,
        None => n,
    };
    let number = substring(url, start, end);
    assert(number@ =~= match first_from(d, '#', 0) {
        Some(h) => if 0 <= h <= d.len() {
            d.subrange(0, h)
        } else {
            d
        },
        None => d,
    });
    Some((owner, repo, number))
}

/// Reads the owner, repository and issue number from a GitHub issue URL of the shape
/// `https://github.com/<owner>/<repo>/issues/<number>`, the number ending at an optional `#`.
pub fn parse_gh_issue(url: &str) -> (r: Result<(String, String, String), Error>)
    requires
        gh_issue_parts(url@) is Some,
    ensures
        r matches Ok((a, b, c)) && gh_issue_parts(url@) == Some((a@, b@, c@)),
{
    Ok(issue_link_parts(url).unwrap())
}

/// The issue URL built from an owner, a repository and a number reads back as them: owner
/// and repository non-empty and free of `/`, the number free of `#`.
pub proof fn lemma_gh_issue_parts_of_built(o: Seq<char>, p: Seq<char>, n: Seq<char>)
    requires
        o.len() > 0,
        !o.contains('/'),
        p.len() > 0,
        !p.contains('/'),
        !n.contains('#'),
    ensures
        gh_issue_parts("https://github.com/"@ + o + "/"@ + p + "/issues/"@ + n) == Some((o, p, n)),
{
    reveal_strlit("https://github.com/");
    reveal_strlit("issues/");
    reveal_strlit("/");
    reveal_strlit("/issues/");
    let site = "https://github.com/"@;
    let u = site + o + "/"@ + p + "/issues/"@ + n;
    assert(site.len() == 19 && "/"@.len() == 1 && "/issues/"@.len() == 8 && "issues/"@.len() == 7);
    assert(u.subrange(0, 19) =~= site);
    assert(is_prefix(site, u));
    let a = u.subrange(19, u.len() as int);
    assert(a =~= o + "/"@ + p + "/issues/"@ + n);
    let k = o.len() as int;
    assert(is_first_from(a, '/', 0, k)) by {
        assert(a[k] == '/');
        assert forall|j: int| 0 <= j < k implies a[j] != '/' by {
            assert(a[j] == o[j]);
            if o[j] == '/' { assert(o.contains('/')); }
        }
    }
    lemma_first_from(a, '/', 0);
    assert(a.subrange(0, k) =~= o);
    let b = a.subrange(k + 1, a.len() as int);
    assert(b =~= p + "/issues/"@ + n);
    let k2 = p.len() as int;
    assert(is_first_from(b, '/', 0, k2)) by {
        assert(b[k2] == '/');
        assert forall|j: int| 0 <= j < k2 implies b[j] != '/' by {
            assert(b[j] == p[j]);
            if p[j] == '/' { assert(p.contains('/')); }
        }
    }
    lemma_first_from(b, '/', 0);
    assert(b.subrange(0, k2) =~= p);
    let c = b.subrange(k2 + 1, b.len() as int);
    assert(c =~= "issues/"@ + n);
    assert(c.subrange(0, 7) =~= "issues/"@);
    let d = c.subrange(7, c.len() as int);
    assert(d =~= n);
    lemma_first_from(d, '#', 0);
    if first_from(d, '#', 0) is Some {
        let h = first_from(d, '#', 0).unwrap();
        assert(n[h] == '#');
        assert(n.contains('#'));
    }
}

/// A GitHub issue URL is the site, the owner, the repository, `issues/` and the number,
/// followed by nothing or by a `#` fragment; owner and repository hold no `/`, the number
/// no `#`.
pub proof fn lemma_gh_issue_parts_rebuild(u: Seq<char>)
    requires
        gh_issue_parts(u) is Some,
    ensures
        ({
            let (o, p, n) = gh_issue_parts(u).unwrap();
            let rest = u.subrange(
                ("https://github.com/"@ + o + "/"@ + p + "/issues/"@ + n).len() as int,
                u.len() as int,
            );
            &&& is_prefix("https://github.com/"@ + o + "/"@ + p + "/issues/"@ + n, u)
            &&& rest.len() == 0 || rest[0] == '#'
            &&& !o.contains('/') && o.len() > 0
            &&& !p.contains('/') && p.len() > 0
            &&& !n.contains('#')
        }),
{
    reveal_strlit("https://github.com/");
    reveal_strlit("issues/");
    reveal_strlit("/");
    reveal_strlit("/issues/");
    let site = "https://github.com/"@;
    let a = u.subrange(19, u.len() as int);
    lemma_first_from(a, '/', 0);
    let k = first_from(a, '/', 0).unwrap();
    let b = a.subrange(k + 1, a.len() as int);
    lemma_first_from(b, '/', 0);
    let k2 = first_from(b, '/', 0).unwrap();
    let c = b.subrange(k2 + 1, b.len() as int);
    let d = c.subrange(7, c.len() as int);
    lemma_first_from(d, '#', 0);
    let (o, p, n) = gh_issue_parts(u).unwrap();
    let whole = site + o + "/"@ + p + "/issues/"@ + n;
    assert(!o.contains('/')) by {
        if o.contains('/') {
            let j = choose|j: int| 0 <= j < o.len() && o[j] == '/';
            assert(a[j] == '/');
        }
    }
    assert(!p.contains('/')) by {
        if p.contains('/') {
            let j = choose|j: int| 0 <= j < p.len() && p[j] == '/';
            assert(b[j] == '/');
        }
    }
    assert(!n.contains('#')) by {
        if n.contains('#') {
            let j = choose|j: int| 0 <= j < n.len() && n[j] == '#';
            assert(d[j] == '#');
        }
    }
    assert(u.subrange(0, whole.len() as int) =~= whole) by {
        assert forall|j: int| 0 <= j < whole.len() implies u[j] == whole[j] by {
            if j < 19 {
                assert(u.subrange(0, 19)[j] == site[j]);
            } else if j < 19 + k {
                assert(a[j - 19] == o[j - 19]);
            } else if j == 19 + k {
                assert(a[k] == '/');
            } else if j < 19 + k + 1 + k2 {
                assert(b[j - 19 - k - 1] == p[j - 19 - k - 1]);
            } else if j == 19 + k + 1 + k2 {
                assert(b[k2] == '/');
            } else if j < 19 + k + 1 + k2 + 1 + 7 {
                assert(c.subrange(0, 7) =~= "issues/"@);
                assert(c[j - (19 + k + 1 + k2 + 1)] == "issues/"@[j - (19 + k + 1 + k2 + 1)]);
            } else {
                assert(d[j - (19 + k + 1 + k2 + 1 + 7)] == n[j - (19 + k + 1 + k2 + 1 + 7)]);
            }
        }
    }
    let rest = u.subrange(whole.len() as int, u.len() as int);
    if rest.len() > 0 {
        assert(rest[0] == d[n.len() as int]);
    }
}


// ---------------------------------------------------------------------------------------
// The crawl
// ---------------------------------------------------------------------------------------

/// How many links away from the plan the crawl still follows a URL.
pub const MAX_DISTANCE: u32 = 5;

/// What the crawl asks its driver to do next.
#[derive(Debug)]
pub enum CrawlAction {
    /// Fetch the GitHub issue at `url`, which names `owner`, `repo` and `number`, and report
    /// the outcome with `record_issue`.
    FetchIssue { url: String, owner: String, repo: String, number: String },
    /// `url` is a GitHub issue link without the shape `<owner>/<repo>/issues/<number>`; the
    /// crawl cannot go on.
    Malformed { url: String },
    /// `url` is a GitHub URL but not an issue link: the crawl does not understand it and
    /// passes over it.
    GitHubNotUnderstood { url: String },
    /// `url` is not a GitHub URL: the crawl does not understand it and passes over it.
    NotUnderstood { url: String },
}

/// A link that the crawl follows: a GitHub URL with an issue path.
pub open spec fn is_issue_link(u: Seq<char>) -> bool {
    is_prefix("https://github.com"@, u) && contains_seq(u, "/issues/"@)
}

/// A queued URL that the crawl visits: one close enough to the plan.
pub open spec fn actionable(e: (Seq<char>, u32)) -> bool {
    e.1 <= MAX_DISTANCE
}

/// Position `k` holds the first queued URL that the crawl visits.
pub open spec fn is_first_actionable(q: Seq<(Seq<char>, u32)>, k: int) -> bool {
    &&& 0 <= k < q.len()
    &&& actionable(q[k])
    &&& forall|j: int| 0 <= j < k ==> !actionable(#[trigger] q[j])
}

/// The position of the first queued URL that the crawl visits.
pub open spec fn first_actionable(q: Seq<(Seq<char>, u32)>) -> Option<int> {
    if exists|k: int| is_first_actionable(q, k) {
        Some(choose|k: int| is_first_actionable(q, k))
    } else {
        None
    }
}

proof fn lemma_first_actionable(q: Seq<(Seq<char>, u32)>)
    ensures
        forall|k: int| is_first_actionable(q, k) ==> first_actionable(q) == Some(k),
        (forall|k: int| 0 <= k < q.len() ==> !actionable(#[trigger] q[k])) ==> first_actionable(
            q,
        ) is None,
{
    assert forall|k: int| is_first_actionable(q, k) implies first_actionable(q) == Some(k) by {
        let c = choose|k: int| is_first_actionable(q, k);
        if c < k {
            assert(!actionable(q[c]));
        } else if c > k {
            assert(!actionable(q[k]));
        }
    }
}

/// `a` is the action for the visited URL `u`: fetch a GitHub issue link, or stop at one
/// that is malformed; report a GitHub URL that is not an issue link, or a URL that is not a
/// GitHub one, as not understood.
pub open spec fn action_for(u: Seq<char>, a: CrawlAction) -> bool {
    if is_prefix("https://github.com"@, u) {
        if contains_seq(u, "/issues/"@) {
            match gh_issue_parts(u) {
                Some((o, p, n)) => a matches CrawlAction::FetchIssue { url, owner, repo, number }
                    && url@ == u && owner@ == o && repo@ == p && number@ == n,
                None => a matches CrawlAction::Malformed { url } && url@ == u,
            }
        } else {
            a matches CrawlAction::GitHubNotUnderstood { url } && url@ == u
        }
    } else {
        a matches CrawlAction::NotUnderstood { url } && url@ == u
    }
}

/// The fact that the outcome of fetching an issue teaches.
pub open spec fn outcome_fact(outcome: Result<IssueFromJson, String>) -> FactView {
    match outcome {
        Ok(issue) => FactView::GitHubIssue(issue@),
        Err(msg) => FactView::CrawlError(msg@),
    }
}

/// `m` with `f` added to the facts of `u`.
pub open spec fn with_fact(m: Map<Seq<char>, Set<FactView>>, u: Seq<char>, f: FactView) -> Map<
    Seq<char>,
    Set<FactView>,
> {
    m.insert(
        u,
        if m.contains_key(u) {
            m[u].insert(f)
        } else {
            set![f]
        },
    )
}

/// Recording a fetched issue for a URL adds the issue exactly as it was fetched, body
/// included, to the URL's facts, and nothing else: every other fact the URL now holds it held
/// before.
pub proof fn lemma_recorded_issue_is_as_fetched(
    m: Map<Seq<char>, Set<FactView>>,
    u: Seq<char>,
    issue: IssueFromJson,
)
    ensures
        ({
            let fetched = FactView::GitHubIssue(
                IssueView {
                    number: issue.number,
                    title: issue.title@,
                    body: match issue.body {
                        Some(b) => Some(b@),
                        None => None,
                    },
                    updated_at: issue.updated_at,
                },
            );
            let after = with_fact(m, u, outcome_fact(Ok(issue)));
            &&& after.contains_key(u)
            &&& after[u].contains(fetched)
            &&& forall|f: FactView| #[trigger] after[u].contains(f) ==> f == fetched || (
                m.contains_key(u) && m[u].contains(f))
            &&& forall|v: Seq<char>| v != u ==> #[trigger] after.contains_key(v) == m.contains_key(v)
                && (m.contains_key(v) ==> after[v] == m[v])
        }),
{
}

/// Recording a failed fetch adds exactly its message to the URL's facts.
pub proof fn lemma_recorded_failure_is_its_message(
    m: Map<Seq<char>, Set<FactView>>,
    u: Seq<char>,
    msg: String,
)
    ensures
        ({
            let after = with_fact(m, u, outcome_fact(Err(msg)));
            &&& after.contains_key(u)
            &&& after[u].contains(FactView::CrawlError(msg@))
            &&& forall|f: FactView| #[trigger] after[u].contains(f) ==> f == FactView::CrawlError(msg@)
                || (m.contains_key(u) && m[u].contains(f))
        }),
{
}

/// Learning a fact twice teaches no more than learning it once.
pub proof fn lemma_with_fact_idempotent(m: Map<Seq<char>, Set<FactView>>, u: Seq<char>, f: FactView)
    ensures
        with_fact(with_fact(m, u, f), u, f) == with_fact(m, u, f),
        with_fact(m, u, f).contains_key(u) && with_fact(m, u, f)[u].contains(f),
{
    let once = with_fact(m, u, f);
    assert(once[u].insert(f) =~= once[u]);
    assert(with_fact(once, u, f) =~= once);
}

/// Every step of the crawl takes at least one URL off the queue or ends it, and nothing puts
/// URLs back: the crawl of a finite queue ends.
pub proof fn lemma_crawl_progress(q: Seq<(Seq<char>, u32)>)
    ensures
        match first_actionable(q) {
            Some(k) => q.skip(k + 1).len() < q.len() && actionable(q[k]),
            None => forall|j: int| 0 <= j < q.len() ==> !actionable(#[trigger] q[j]),
        },
{
    lemma_first_actionable(q);
    if first_actionable(q) is Some {
        let k = first_actionable(q).unwrap();
        assert(is_first_actionable(q, k));
    } else {
        assert forall|j: int| 0 <= j < q.len() implies !actionable(#[trigger] q[j]) by {
            if actionable(q[j]) {
                lemma_first_actionable_exists(q, j);
            }
        }
    }
}

proof fn lemma_first_actionable_exists(q: Seq<(Seq<char>, u32)>, l: int)
    requires
        0 <= l < q.len(),
        actionable(q[l]),
    ensures
        first_actionable(q) is Some,
    decreases l,
{
    lemma_first_actionable(q);
    if exists|w: int| 0 <= w < l && actionable(#[trigger] q[w]) {
        let w = choose|w: int| 0 <= w < l && actionable(#[trigger] q[w]);
        lemma_first_actionable_exists(q, w);
    } else {
        assert(is_first_actionable(q, l));
    }
}

/// The issue links that a crawl of queue `q` fetches, in order: each queued entry close
/// enough to the plan that is a GitHub issue link, once per entry.
pub open spec fn fetched(q: Seq<(Seq<char>, u32)>) -> Seq<Seq<char>>
    decreases q.len(),
{
    if q.len() == 0 {
        seq![]
    } else {
        (if actionable(q[0]) && is_issue_link(q[0].0) {
            seq![q[0].0]
        } else {
            seq![]
        }) + fetched(q.drop_first())
    }
}

/// The facts after recording, for each of the fetched links `us` in turn, the outcome of
/// fetching it.
pub open spec fn record_all(
    facts: Map<Seq<char>, Set<FactView>>,
    us: Seq<Seq<char>>,
    outcomes: Seq<FactView>,
) -> Map<Seq<char>, Set<FactView>>
    decreases us.len(),
{
    if us.len() == 0 {
        facts
    } else {
        record_all(with_fact(facts, us[0], outcomes[0]), us.drop_first(), outcomes.drop_first())
    }
}

proof fn lemma_fetched_skip(q: Seq<(Seq<char>, u32)>, j: int)
    requires
        0 <= j <= q.len(),
        forall|i: int| 0 <= i < j ==> !actionable(#[trigger] q[i]),
    ensures
        fetched(q) == fetched(q.skip(j)),
    decreases j,
{
    if j == 0 {
        assert(q.skip(0) =~= q);
    } else {
        lemma_fetched_skip(q, j - 1);
        let t = q.skip(j - 1);
        assert(t[0] == q[j - 1]);
        assert(t.drop_first() =~= q.skip(j));
        assert(fetched(t) =~= fetched(t.drop_first()));
    }
}

/// Each step of the crawl fetches what is due: the URL it visits, where that is an issue
/// link, comes first among the links left to fetch, and the rest are those of the queue it
/// leaves; with nothing left to visit, nothing is left to fetch.
pub proof fn lemma_crawl_step_fetches(q: Seq<(Seq<char>, u32)>)
    ensures
        match first_actionable(q) {
            Some(k) => fetched(q) == (if is_issue_link(q[k].0) {
                seq![q[k].0]
            } else {
                seq![]
            }) + fetched(q.skip(k + 1)),
            None => fetched(q) == Seq::<Seq<char>>::empty(),
        },
{
    lemma_crawl_progress(q);
    lemma_first_actionable(q);
    match first_actionable(q) {
        Some(k) => {
            assert(is_first_actionable(q, k));
            lemma_fetched_skip(q, k);
            let t = q.skip(k);
            assert(t[0] == q[k]);
            assert(t.drop_first() =~= q.skip(k + 1));
        },
        None => {
            lemma_fetched_skip(q, q.len() as int);
            assert(q.skip(q.len() as int) =~= Seq::<(Seq<char>, u32)>::empty());
        },
    }
}

proof fn lemma_record_all_keeps(
    facts: Map<Seq<char>, Set<FactView>>,
    us: Seq<Seq<char>>,
    outcomes: Seq<FactView>,
    u: Seq<char>,
    f: FactView,
)
    requires
        facts.contains_key(u),
        facts[u].contains(f),
    ensures
        record_all(facts, us, outcomes).contains_key(u),
        record_all(facts, us, outcomes)[u].contains(f),
    decreases us.len(),
{
    if us.len() > 0 {
        let next = with_fact(facts, us[0], outcomes[0]);
        assert(next.contains_key(u) && next[u].contains(f));
        lemma_record_all_keeps(next, us.drop_first(), outcomes.drop_first(), u, f);
    }
}

/// Recording an outcome for each fetched link keys the facts by exactly the links known
/// before and the links fetched; each fetched link holds the outcome of its fetch, and the
/// facts of every other link stay as they were.
pub proof fn lemma_record_all(
    facts: Map<Seq<char>, Set<FactView>>,
    us: Seq<Seq<char>>,
    outcomes: Seq<FactView>,
)
    requires
        outcomes.len() >= us.len(),
    ensures
        record_all(facts, us, outcomes).dom() == facts.dom() + us.to_set(),
        forall|i: int|
            0 <= i < us.len() ==> #[trigger] record_all(facts, us, outcomes)[us[i]].contains(
                outcomes[i],
            ),
        forall|u: Seq<char>|
            !us.contains(u) && facts.contains_key(u) ==> #[trigger] record_all(facts, us, outcomes)[u]
                == facts[u],
    decreases us.len(),
{
    let r = record_all(facts, us, outcomes);
    if us.len() == 0 {
        assert(us.to_set() =~= Set::<Seq<char>>::empty());
        assert(facts.dom() + us.to_set() =~= facts.dom());
    } else {
        let next = with_fact(facts, us[0], outcomes[0]);
        let rest = us.drop_first();
        lemma_record_all(next, rest, outcomes.drop_first());
        assert(r == record_all(next, rest, outcomes.drop_first()));
        assert(r.dom() =~= facts.dom() + us.to_set()) by {
            assert forall|u: Seq<char>| r.dom().contains(u) <==> (facts.dom() + us.to_set()).contains(u) by {
                if rest.to_set().contains(u) {
                    let i = choose|i: int| 0 <= i < rest.len() && rest[i] == u;
                    assert(us[i + 1] == u);
                }
                if us.to_set().contains(u) {
                    let i = choose|i: int| 0 <= i < us.len() && us[i] == u;
                    if i > 0 {
                        assert(rest[i - 1] == u);
                    }
                }
            }
        }
        assert forall|i: int| 0 <= i < us.len() implies #[trigger] r[us[i]].contains(outcomes[i]) by {
            if i == 0 {
                lemma_record_all_keeps(next, rest, outcomes.drop_first(), us[0], outcomes[0]);
            } else {
                assert(rest[i - 1] == us[i]);
                assert(outcomes.drop_first()[i - 1] == outcomes[i]);
            }
        }
        assert forall|u: Seq<char>| !us.contains(u) && facts.contains_key(u) implies #[trigger] r[u]
            == facts[u] by {
            assert(u != us[0]);
            if rest.contains(u) {
                let i = choose|i: int| 0 <= i < rest.len() && rest[i] == u;
                assert(us[i + 1] == u);
            }
        }
    }
}

/// The crawl of a plan fetches each of the issue links among the URLs its campaigns track,
/// once per link listed, and no other URL; recording the outcomes keys the facts by exactly
/// those links.
pub proof fn lemma_crawl_run(urls: Seq<Seq<char>>, outcomes: Seq<FactView>)
    requires
        outcomes.len() >= fetched(at_distance_zero(urls)).len(),
    ensures
        forall|u: Seq<char>|
            #[trigger] fetched(at_distance_zero(urls)).contains(u) <==> urls.contains(u)
                && is_issue_link(u),
        record_all(Map::empty(), fetched(at_distance_zero(urls)), outcomes).dom() == Set::new(
            |u: Seq<char>| urls.contains(u) && is_issue_link(u),
        ),
{
    lemma_fetched_zero(urls);
    lemma_record_all(Map::empty(), fetched(at_distance_zero(urls)), outcomes);
    let fs = fetched(at_distance_zero(urls));
    assert(Map::<Seq<char>, Set<FactView>>::empty().dom() + fs.to_set() =~= Set::new(
        |u: Seq<char>| urls.contains(u) && is_issue_link(u),
    ));
}

proof fn lemma_fetched_zero(urls: Seq<Seq<char>>)
    ensures
        forall|u: Seq<char>|
            #[trigger] fetched(at_distance_zero(urls)).contains(u) <==> urls.contains(u)
                && is_issue_link(u),
    decreases urls.len(),
{
    let q = at_distance_zero(urls);
    if urls.len() > 0 {
        let rest = urls.drop_first();
        lemma_fetched_zero(rest);
        assert(q.drop_first() =~= at_distance_zero(rest));
        assert(q[0] == (urls[0], 0u32));
        let head = if is_issue_link(urls[0]) {
            seq![urls[0]]
        } else {
            Seq::<Seq<char>>::empty()
        };
        assert(fetched(q) == head + fetched(at_distance_zero(rest)));
        assert forall|u: Seq<char>| #[trigger] fetched(q).contains(u) <==> urls.contains(u)
            && is_issue_link(u) by {
            let f = fetched(at_distance_zero(rest));
            if fetched(q).contains(u) {
                let i = choose|i: int| 0 <= i < fetched(q).len() && fetched(q)[i] == u;
                if i < head.len() {
                    assert(urls[0] == u);
                } else {
                    assert(f[i - head.len()] == u);
                    assert(f.contains(u));
                    let j = choose|j: int| 0 <= j < rest.len() && rest[j] == u;
                    assert(urls[j + 1] == u);
                }
            }
            if urls.contains(u) && is_issue_link(u) {
                let j = choose|j: int| 0 <= j < urls.len() && urls[j] == u;
                if j == 0 {
                    assert(fetched(q)[0] == u);
                } else {
                    assert(rest[j - 1] == u);
                    assert(rest.contains(u));
                    assert(f.contains(u));
                    let i = choose|i: int| 0 <= i < f.len() && f[i] == u;
                    assert(fetched(q)[head.len() + i] == u);
                }
            }
        }
    } else {
        assert(fetched(q) =~= Seq::<Seq<char>>::empty());
    }
}

/// The link that a campaign tracks, as the URL parser writes it back, if it parses.
pub open spec fn tracked_url(c: Campaign) -> Option<Seq<char>> {
    match url_parse(c.tracking_link@) {
        Some(p) => Some(p.serialization),
        None => None,
    }
}

/// `tracked_url`, as a function value.
pub open spec fn tracked_url_reader() -> spec_fn(Campaign) -> Option<Seq<char>> {
    |c: Campaign| tracked_url(c)
}

/// The URLs that the plan's campaigns track, in order; links that do not parse are left
/// out.
pub fn initial_urls_from_plan(plan: &Battleplan) -> (r: Vec<String>)
    ensures
        r.deep_view() == plan.campaigns@.filter_map(tracked_url_reader()),
{
    let mut urls: Vec<String> = Vec::new();
    let mut i: usize = 0;
    let ghost cs = plan.campaigns@;
    assert(cs.take(0) =~= Seq::<Campaign>::empty());
    while i < plan.campaigns.len()
        invariant
            cs == plan.campaigns@,
            i <= cs.len(),
            urls.deep_view() == cs.take(i as int).filter_map(tracked_url_reader()),
        decreases cs.len() - i,
    {
        proof { cs.lemma_filter_map_take_succ(tracked_url_reader(), i as int); }
        let ghost before = urls.deep_view();
        match parse_url(plan.campaigns[i].tracking_link.as_str()) {
            Some(u) => {
                urls.push(u.serialization);
                assert(urls.deep_view() =~= before.push(u@.serialization));
            },
            None => {},
        }
        i = i + 1;
    }
    assert(cs.take(cs.len() as int) =~= cs);
    urls
}

/// The content of a queue of URLs with distances.
pub open spec fn queue_view(q: Seq<(String, u32)>) -> Seq<(Seq<char>, u32)> {
    Seq::new(q.len(), |i: int| (q[i].0@, q[i].1))
}

/// URLs queued in order, each at distance zero.
pub open spec fn at_distance_zero(us: Seq<Seq<char>>) -> Seq<(Seq<char>, u32)> {
    Seq::new(us.len(), |i: int| (us[i], 0u32))
}

/// A crawl in progress: the URLs still to visit, each with its distance from the plan, and
/// the facts learned so far.
pub struct Crawler {
    queue: VecDeque<(String, u32)>,
    facts: FactStore,
}

impl Crawler {
    /// The URLs still to visit, with their distances, in visiting order.
    pub closed spec fn queue(&self) -> Seq<(Seq<char>, u32)> {
        queue_view(self.queue@)
    }

    /// The facts learned so far.
    pub closed spec fn facts(&self) -> Map<Seq<char>, Set<FactView>> {
        self.facts@
    }

    /// The store of facts is well formed.
    pub closed spec fn wf(&self) -> bool {
        self.facts.wf()
    }

    /// A crawl that will visit `urls`, in order, each at distance zero, knowing nothing yet.
    pub fn new(urls: Vec<String>) -> (r: Crawler)
        ensures
            r.wf(),
            r.queue() == at_distance_zero(urls.deep_view()),
            r.facts() == Map::<Seq<char>, Set<FactView>>::empty(),
    {
        let mut queue: VecDeque<(String, u32)> = VecDeque::new();
        let mut urls = urls;
        let ghost all = urls@;
        let ghost target = at_distance_zero(urls.deep_view());
        let n = urls.len();
        let mut i: usize = 0;
        assert(all.skip(0) =~= all);
        assert(queue_view(queue@) =~= target.take(0));
        while i < n
            invariant
                n == all.len(),
                i <= n,
                urls@ == all.skip(i as int),
                queue_view(queue@) == target.take(i as int),
                target.len() == n,
                forall|j: int| 0 <= j < n ==> #[trigger] target[j] == (all[j]@, 0u32),
            decreases n - i,
        {
            let u = urls.remove(0);
            assert(u == all[i as int]);
            assert(urls@ =~= all.skip(i + 1));
            let ghost prev = queue@;
            queue.push_back((u, 0));
            assert(queue@ == prev.push((u, 0u32)));
            assert(queue_view(queue@) =~= target.take(i + 1)) by {
                assert(queue_view(prev) == target.take(i as int));
                assert(target.take(i as int).len() == i);
                assert(queue_view(prev).len() == prev.len());
                assert(prev.len() == i);
                assert forall|j: int| 0 <= j < i implies queue_view(queue@)[j] == #[trigger] target.take(i + 1)[j] by {
                    assert(queue@[j] == prev[j]);
                    assert(queue_view(queue@)[j] == (queue@[j].0@, queue@[j].1));
                    assert(queue_view(prev)[j] == (prev[j].0@, prev[j].1));
                    assert(queue_view(prev)[j] == target.take(i as int)[j]);
                }
                assert(queue_view(queue@).len() == i + 1);
                assert(target.take(i + 1)[i as int] == target[i as int]);
            }
            i = i + 1;
        }
        assert(target.take(n as int) =~= target);
        Crawler { queue, facts: FactStore::new() }
    }

    /// The next thing to do: URLs too far from the plan are passed over, and the first one
    /// close enough is taken off the queue and acted on; `None` once the queue is empty.
    pub fn next_action(&mut self) -> (r: Option<CrawlAction>)
        requires
            old(self).wf(),
        ensures
            final(self).wf(),
            final(self).facts() == old(self).facts(),
            match first_actionable(old(self).queue()) {
                Some(k) => final(self).queue() == old(self).queue().skip(k + 1) && (r matches Some(
                    a,
                ) && action_for(old(self).queue()[k].0, a)),
                None => final(self).queue() == Seq::<(Seq<char>, u32)>::empty() && r is None,
            },
    {
        let ghost q0 = old(self).queue();
        let ghost mut skipped: int = 0;
        proof { lemma_first_actionable(q0); }
        loop
            invariant
                self.wf(),
                self.facts() == old(self).facts(),
                q0 == old(self).queue(),
                0 <= skipped <= q0.len(),
                self.queue() == q0.skip(skipped),
                forall|j: int| 0 <= j < skipped ==> !actionable(#[trigger] q0[j]),
            decreases q0.len() - skipped,
        {
            let ghost before = self.queue@;
            let ghost before_view = self.queue();
            match self.queue.pop_front() {
                None => {
                    assert(self.queue() =~= Seq::<(Seq<char>, u32)>::empty());
                    assert(skipped == q0.len()) by {
                        assert(q0.skip(skipped).len() == 0);
                    }
                    proof { lemma_first_actionable(q0); }
                    return None;
                },
                Some(entry) => {
                    assert(before_view[0] == (entry.0@, entry.1));
                    assert(before_view[0] == q0[skipped]);
                    assert(self.queue() =~= before_view.drop_first());
                    assert(before_view.drop_first() =~= q0.skip(skipped + 1));
                    let (url, distance) = entry;
                    if distance <= MAX_DISTANCE {
                        assert(is_first_actionable(q0, skipped));
                        proof { lemma_first_actionable(q0); }
                        let action = if starts_with(url.as_str(), "https://github.com") {
                            if contains_str(url.as_str(), "/issues/") {
                                match issue_link_parts(url.as_str()) {
                                    Some((owner, repo, number)) => CrawlAction::FetchIssue {
                                        url,
                                        owner,
                                        repo,
                                        number,
                                    },
                                    None => CrawlAction::Malformed { url },
                                }
                            } else {
                                CrawlAction::GitHubNotUnderstood { url }
                            }
                        } else {
                            CrawlAction::NotUnderstood { url }
                        };
                        return Some(action);
                    }
                    proof { skipped = skipped + 1; }
                },
            }
        }
    }

    /// Records what fetching the issue at `url` gave: the issue, or the error message.
    pub fn record_issue(&mut self, url: &String, outcome: Result<IssueFromJson, String>)
        requires
            old(self).wf(),
        ensures
            final(self).wf(),
            final(self).queue() == old(self).queue(),
            final(self).facts() == with_fact(old(self).facts(), url@, outcome_fact(outcome)),
            final(self).facts() == with_fact(
                old(self).facts(),
                url@,
                match outcome {
                    Ok(issue) => FactView::GitHubIssue(
                        IssueView {
                            number: issue.number,
                            title: issue.title@,
                            body: match issue.body {
                                Some(b) => Some(b@),
                                None => None,
                            },
                            updated_at: issue.updated_at,
                        },
                    ),
                    Err(msg) => FactView::CrawlError(msg@),
                },
            ),
    {
        let fact = match outcome {
            Ok(issue) => Fact::GitHubIssue(issue),
            Err(msg) => Fact::CrawlError(msg),
        };
        self.facts.add_fact(url, fact);
    }

    /// The number of URLs still to visit.
    pub fn pending(&self) -> (r: usize)
        ensures
            r == self.queue().len(),
    {
        self.queue.len()
    }

    /// Ends the crawl, handing out the facts learned.
    pub fn into_facts(self) -> (r: FactStore)
        requires
            self.wf(),
        ensures
            r.wf(),
            r@ == self.facts(),
    {
        self.facts
    }
}

/// Starts the crawl of a plan: checks the plan's references, then queues the links its
/// campaigns track.
pub fn crawl(plan: &Battleplan) -> (r: Result<Crawler, Error>)
    ensures
        r is Ok <==> plan.is_consistent(),
        r is Err ==> r matches Err(Error::InvalidBattleplan),
        r matches Ok(c) ==> c.wf() && c.facts() == Map::<Seq<char>, Set<FactView>>::empty()
            && c.queue() == at_distance_zero(plan.campaigns@.filter_map(tracked_url_reader())),
{
    plan.validate()?;
    let urls = initial_urls_from_plan(plan);
    Ok(Crawler::new(urls))
}

} // verus!
