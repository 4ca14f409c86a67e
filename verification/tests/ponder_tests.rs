use battleplan::crawl::{Fact, FactStore};
use battleplan::gh::models::IssueFromJson;
use battleplan::plan::{load_plan, PlanSources};
use battleplan::ponder::{
    campaign_urls_from_plan, get_last_updated, get_rfc_info, parse_rfc_numbers, ponder, ponder_at,
    rfc_info_from_body,
};
use battleplan::time::days_between;

fn plan_src() -> PlanSources {
    PlanSources {
        battlefronts: "- id: bf\n  name: Front\n  team: core\n  pitch: p\n".to_string(),
        campaigns: "- id: c1\n  goal: g\n  pitch: p\n  battlefront: bf\n  tracking-link: https://github.com/rust-lang/rust/issues/1\n  release: r1\n- id: c2\n  goal: g\n  pitch: p\n  battlefront: bf\n  tracking-link: https://github.com/rust-lang/rust/issues/2\n  release: r1\n- id: c3\n  goal: g\n  pitch: p\n  battlefront: bf\n  tracking-link: https://github.com/rust-lang/rust/issues/3\n  release: r1\n".to_string(),
        problems: "- id: pr\n  pitch: p\n  battlefront: bf\n".to_string(),
        teams: "- id: core\n  name: Core\n".to_string(),
        releases: "- id: r1\n".to_string(),
    }
}

fn issue(body: Option<&str>, updated_at: i64) -> IssueFromJson {
    IssueFromJson { number: 1, title: "t".to_string(), body: body.map(|b| b.to_string()), updated_at }
}

#[test]
fn rfc_numbers_are_found_per_line() {
    let text = "see rust-lang/rfcs#1234 and rust-lang/rfcs#5\nhttps://github.com/rust-lang/rfcs/pull/99\nnothing\nrust-lang/rfcs#99999999999\n";
    assert_eq!(parse_rfc_numbers(text), vec![1234, 99]);
    assert_eq!(parse_rfc_numbers(""), Vec::<u32>::new());
}

#[test]
fn rfc_info_names_the_pull_request() {
    let info = rfc_info_from_body("tracking rust-lang/rfcs#1234").unwrap();
    assert_eq!(info.num, 1234);
    assert_eq!(info.pr, "https://github.com/rust-lang/rfcs/pulls/1234");
    assert!(rfc_info_from_body("no rfc here").is_none());
}

#[test]
fn dates_and_days() {
    assert_eq!(days_between(1480291200 + 3 * 86400 + 5, 1480291200), 3);
    assert_eq!(days_between(1480291200, 1480291200 + 10), 0);
    assert_eq!(days_between(i64::MAX, i64::MIN), 0);
}

#[test]
fn campaign_reports_come_from_the_facts() {
    let plan = load_plan(&plan_src()).unwrap();
    let urls = campaign_urls_from_plan(&plan);
    assert_eq!(urls.len(), 3);
    assert_eq!(urls[0].0, "c1");

    let mut facts = FactStore::new();
    let u1 = "https://github.com/rust-lang/rust/issues/1".to_string();
    let u2 = "https://github.com/rust-lang/rust/issues/2".to_string();
    facts.add_fact(&u1, Fact::GitHubIssue(issue(Some("rust-lang/rfcs#42"), 1480291200)));
    facts.add_fact(&u2, Fact::CrawlError("boom".to_string()));

    let now = 1480291200 + 10 * 86400;
    let info = get_rfc_info(&facts, &u1).unwrap();
    assert_eq!(info.num, 42);
    assert_eq!(get_last_updated(&facts, &u1, now), Some(("2016-11-28".to_string(), 10)));
    assert!(get_rfc_info(&facts, &u2).is_none());
    assert!(get_last_updated(&facts, &u2, now).is_none());

    let reports = ponder_at(&plan, &facts, now);
    assert_eq!(reports.len(), 2);
    assert_eq!(reports[0].0, "c1");
    assert_eq!(reports[0].1.rfc.as_ref().unwrap().num, 42);
    assert!(!reports[0].1.completed);
    assert!(reports[0].1.fcp.is_none());
    assert_eq!(reports[1].0, "c2");
    assert!(reports[1].1.rfc.is_none());
    assert!(reports[1].1.last_updated.is_none());
    assert_eq!(ponder(&plan, &facts).unwrap().len(), 2);
}

#[test]
fn rfc_numbers_of_joined_texts() {
    let a = "see rust-lang/rfcs#1\nnothing here";
    let b = "https://github.com/rust-lang/rfcs/pull/22\nrust-lang/rfcs#3";
    let mut expected = parse_rfc_numbers(a);
    expected.extend(parse_rfc_numbers(b));
    assert_eq!(parse_rfc_numbers(&format!("{}\n{}", a, b)), expected);
    assert_eq!(expected, vec![1, 22, 3]);
}
