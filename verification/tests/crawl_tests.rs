use battleplan::crawl::{crawl, initial_urls_from_plan, issue_link_parts, parse_gh_issue, CrawlAction, Crawler, Fact, FactStore};
use battleplan::gh::models::IssueFromJson;
use battleplan::plan::{load_plan, PlanSources};

fn plan_with_links(links: &[&str]) -> PlanSources {
    let mut campaigns = String::new();
    for (i, l) in links.iter().enumerate() {
        campaigns.push_str(&format!(
            "- id: c{}\n  goal: g\n  pitch: p\n  battlefront: bf\n  tracking-link: \"{}\"\n  release: r1\n",
            i, l
        ));
    }
    PlanSources {
        battlefronts: "- id: bf\n  name: Front\n  team: core\n  pitch: p\n".to_string(),
        campaigns,
        problems: "- id: pr\n  pitch: p\n  battlefront: bf\n".to_string(),
        teams: "- id: core\n  name: Core\n".to_string(),
        releases: "- id: r1\n".to_string(),
    }
}

fn issue(number: u64, body: Option<&str>) -> IssueFromJson {
    IssueFromJson {
        number,
        title: "t".to_string(),
        body: body.map(|b| b.to_string()),
        updated_at: 1480291200,
    }
}

#[test]
fn gh_issue_urls_are_split() {
    assert_eq!(
        parse_gh_issue("https://github.com/rust-lang/rust/issues/1234#issuecomment-1").ok(),
        Some(("rust-lang".to_string(), "rust".to_string(), "1234".to_string()))
    );
    assert_eq!(
        parse_gh_issue("https://github.com/a/b/issues/").ok(),
        Some(("a".to_string(), "b".to_string(), "".to_string()))
    );
    assert_eq!(issue_link_parts("https://github.com/rust-lang/rust/pull/1"), None);
    assert_eq!(issue_link_parts("https://github.com//rust/issues/1"), None);
    assert_eq!(issue_link_parts("https://github.com/rust-lang"), None);
    assert_eq!(issue_link_parts("http://github.com/a/b/issues/1"), None);
}

#[test]
fn facts_are_kept_once() {
    let mut store = FactStore::new();
    let url = "https://github.com/a/b/issues/1".to_string();
    assert!(!store.knows(&url));
    store.add_fact(&url, Fact::CrawlError("boom".to_string()));
    store.add_fact(&url, Fact::CrawlError("boom".to_string()));
    store.add_fact(&url, Fact::GitHubIssue(issue(1, Some("x"))));
    store.add_fact(&url, Fact::GitHubIssue(issue(1, Some("x"))));
    assert!(store.knows(&url));
    assert_eq!(store.len(), 1);
    assert_eq!(store.gh_issue(&url).unwrap().number, 1);
    let other = "https://example.com".to_string();
    store.add_fact(&other, Fact::GitHubPullRequest);
    assert_eq!(store.len(), 2);
    assert!(store.gh_issue(&other).is_none());
    let entries = store.into_entries();
    assert_eq!(entries[0].1.len(), 2);
    assert_eq!(entries[1].1.len(), 1);
}

#[test]
fn the_crawl_visits_links_in_order() {
    let plan = load_plan(&plan_with_links(&[
        "https://github.com/rust-lang/rust/issues/10",
        "https://example.com/x",
        "https://github.com/rust-lang/rust/pull/3",
        "not a url",
        "https://github.com/rust-lang/rust/issues/11#top",
    ]))
    .unwrap();
    let urls = initial_urls_from_plan(&plan);
    assert_eq!(urls.len(), 4);
    assert_eq!(urls[1], "https://example.com/x");

    let mut c = crawl(&plan).unwrap();
    assert_eq!(c.pending(), 4);
    match c.next_action() {
        Some(CrawlAction::FetchIssue { url, owner, repo, number }) => {
            assert_eq!(url, "https://github.com/rust-lang/rust/issues/10");
            assert_eq!((owner.as_str(), repo.as_str(), number.as_str()), ("rust-lang", "rust", "10"));
            c.record_issue(&url, Ok(issue(10, Some("see rust-lang/rfcs#1234"))));
        }
        other => panic!("unexpected {:?}", other),
    }
    match c.next_action() {
        Some(CrawlAction::NotUnderstood { url }) => assert_eq!(url, "https://example.com/x"),
        other => panic!("unexpected {:?}", other),
    }
    match c.next_action() {
        Some(CrawlAction::GitHubNotUnderstood { url }) => {
            assert_eq!(url, "https://github.com/rust-lang/rust/pull/3")
        }
        other => panic!("unexpected {:?}", other),
    }
    match c.next_action() {
        Some(CrawlAction::FetchIssue { url, number, .. }) => {
            assert_eq!(number, "11");
            c.record_issue(&url, Err("http error".to_string()));
        }
        other => panic!("unexpected {:?}", other),
    }
    assert!(c.next_action().is_none());
    assert_eq!(c.pending(), 0);
    let facts = c.into_facts();
    assert_eq!(facts.len(), 2);
}

#[test]
fn a_malformed_issue_link_stops_the_crawl() {
    let mut c = Crawler::new(vec!["https://github.com/a/issues/1".to_string()]);
    match c.next_action() {
        Some(CrawlAction::Malformed { url }) => assert_eq!(url, "https://github.com/a/issues/1"),
        other => panic!("unexpected {:?}", other),
    }
}

#[test]
fn an_inconsistent_plan_is_not_crawled() {
    let mut src = plan_with_links(&["https://github.com/a/b/issues/1"]);
    src.teams = "- id: nobody\n  name: N\n".to_string();
    let plan = load_plan(&src).unwrap();
    assert!(crawl(&plan).is_err());
}

#[test]
fn issue_record_from_json_fields() {
    let issue = IssueFromJson::from_fields(
        1398,
        "Tracking issue".to_string(),
        Some("body".to_string()),
        "2016-08-01T12:00:00Z",
    )
    .expect("a valid date-time");
    assert_eq!(issue.number, 1398);
    assert_eq!(issue.title, "Tracking issue");
    assert_eq!(issue.body.as_deref(), Some("body"));
    assert_eq!(issue.updated_at, 1470052800);
}

#[test]
fn issue_record_rejects_bad_date() {
    assert!(IssueFromJson::from_fields(1, "t".to_string(), None, "yesterday").is_none());
}

#[test]
fn entries_read_back_give_the_same_store() {
    let mut store = FactStore::new();
    let a = "https://github.com/a/b/issues/1".to_string();
    let b = "https://example.com".to_string();
    store.add_fact(&a, Fact::CrawlError("boom".to_string()));
    store.add_fact(&a, Fact::GitHubIssue(issue(7, Some("x"))));
    store.add_fact(&b, Fact::GitHubPullRequest);
    let rebuilt = FactStore::from_entries(store.into_entries());
    assert_eq!(rebuilt.len(), 2);
    assert_eq!(rebuilt.gh_issue(&a).unwrap().number, 7);
    assert!(rebuilt.knows(&b));
    let entries = rebuilt.into_entries();
    assert_eq!(entries[0].0, a);
    assert_eq!(entries[0].1.len(), 2);
    assert_eq!(entries[1].0, b);
    assert_eq!(entries[1].1.len(), 1);
}

#[test]
fn entries_with_repeats_are_merged() {
    let u = "https://github.com/a/b/issues/1".to_string();
    let v = "https://github.com/a/b/issues/2".to_string();
    let store = FactStore::from_entries(vec![
        (u.clone(), vec![Fact::GitHubPullRequest, Fact::GitHubPullRequest]),
        (v.clone(), vec![]),
        (u.clone(), vec![Fact::CrawlError("e".to_string()), Fact::GitHubPullRequest]),
    ]);
    assert_eq!(store.len(), 2);
    assert!(store.knows(&v));
    let entries = store.into_entries();
    assert_eq!(entries[0].0, u);
    assert_eq!(entries[0].1.len(), 2);
    assert_eq!(entries[1].0, v);
    assert!(entries[1].1.is_empty());
}

#[test]
fn built_issue_urls_read_back() {
    for (o, r, n) in [("rust-lang", "rust", "31844"), ("a", "b-c_d", "7")] {
        let url = format!("https://github.com/{}/{}/issues/{}", o, r, n);
        let parsed = url::Url::parse(&url).unwrap();
        assert_eq!(
            parse_gh_issue(parsed.as_str()).ok(),
            Some((o.to_string(), r.to_string(), n.to_string()))
        );
        assert_eq!(issue_link_parts(&url), Some((o.to_string(), r.to_string(), n.to_string())));
    }
}

#[test]
fn a_link_off_github_is_reported_and_passed_over() {
    let mut c = Crawler::new(vec!["https://example.com/a".to_string()]);
    match c.next_action() {
        Some(CrawlAction::NotUnderstood { url }) => assert_eq!(url, "https://example.com/a"),
        other => panic!("unexpected {:?}", other),
    }
    assert!(c.next_action().is_none());
}
