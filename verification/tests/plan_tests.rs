use battleplan::errors::Error;
use battleplan::plan::{
    battlefronts_from_yaml, campaigns_from_yaml, first_scan_error, load_plan, releases_from_yaml,
    validate_plan,
    PlanSources,
};
use battleplan::reading::{read_warnings, ReadWarning};
use battleplan::yaml::{lookup, lookup_bool, lookup_string, root_yaml_to_vec, yaml_from_str, YamlValue};

fn key(s: &str) -> YamlValue {
    YamlValue::Str(s.to_string())
}

fn sources(teams: &str) -> PlanSources {
    PlanSources {
        battlefronts: "- id: bf\n  name: Front\n  team: core\n  top: true\n  pitch: p\n".to_string(),
        campaigns: "- id: c1\n  goal: g\n  pitch: p\n  battlefront: bf\n  tracking-link: https://github.com/rust-lang/rust/issues/1\n  release: r1\n".to_string(),
        problems: "- id: pr\n  pitch: p\n  battlefront: bf\n".to_string(),
        teams: teams.to_string(),
        releases: "- id: r1\n  future: true\n".to_string(),
    }
}

#[test]
fn yaml_documents_are_read() {
    let docs = yaml_from_str("- a\n- b\n").unwrap();
    assert_eq!(docs.len(), 1);
    match &docs[0] {
        YamlValue::Array(v) => {
            assert_eq!(v.len(), 2);
            assert!(matches!(&v[0], YamlValue::Str(s) if s == "a"));
        }
        _ => panic!("not a list"),
    }
    assert!(matches!(yaml_from_str("a: [1, 2"), Err(Error::YamlScan(_))));
}

#[test]
fn a_scan_error_keeps_the_reader_message() {
    let expected = format!("{}", yaml_rust::YamlLoader::load_from_str("a: [1, 2").unwrap_err());
    match yaml_from_str("a: [1, 2") {
        Err(e) => {
            assert_eq!(e.message(), expected);
            assert!(!expected.is_empty());
        }
        Ok(_) => panic!("the text is not YAML"),
    }
}

#[test]
fn lookup_takes_the_field_out() {
    let mut m = vec![(key("id"), key("x")), (key("name"), key("y"))];
    let v = lookup(&mut m, "id").unwrap();
    assert!(matches!(v, YamlValue::Str(s) if s == "x"));
    assert_eq!(m.len(), 1);
    assert!(matches!(lookup(&mut m, "id"), Err(Error::MissingField(f)) if f == "id"));
    assert_eq!(lookup_string(&mut m, "name").unwrap(), "y");
    assert!(m.is_empty());
}

#[test]
fn lookup_string_and_bool_check_kinds() {
    let mut m = vec![
        (key("n"), YamlValue::Integer(3)),
        (key("b"), YamlValue::Boolean(true)),
        (key("s"), key("yes")),
    ];
    assert!(matches!(lookup_string(&mut m, "n"), Err(Error::NotAString)));
    assert_eq!(lookup_bool(&mut m, "b").unwrap(), true);
    assert_eq!(lookup_bool(&mut m, "missing").unwrap(), false);
    assert!(matches!(lookup_bool(&mut m, "s"), Err(Error::NotABool)));
}

#[test]
fn root_list_is_required() {
    assert!(matches!(root_yaml_to_vec(vec![], "team"), Err(Error::NoElements(t)) if t == "team"));
    let docs = yaml_from_str("a: 1\n").unwrap();
    assert!(matches!(root_yaml_to_vec(docs, "team"), Err(Error::NotAnArray(t)) if t == "team"));
    assert_eq!(Error::NoElements("team".to_string()).message(), "team yaml has no elements");
}

#[test]
fn battlefronts_skip_bad_items() {
    let text = "- id: a\n  name: A\n  team: t\n  pitch: p\n- id: b\n  name: B\n- 7\n- id: c\n  name: C\n  team: t\n  top: true\n  pitch: q\n  extra: 1\n- id: d\n  name: D\n  team: t\n  top: nope\n  pitch: p\n";
    let bfs = battlefronts_from_yaml(yaml_from_str(text).unwrap()).unwrap();
    assert_eq!(bfs.len(), 2);
    assert_eq!(bfs[0].id, "a");
    assert!(!bfs[0].top);
    assert_eq!(bfs[1].id, "c");
    assert!(bfs[1].top);
    assert_eq!(bfs[1].pitch, "q");
}

#[test]
fn campaigns_and_releases_are_read() {
    let cs = campaigns_from_yaml(yaml_from_str(&sources("").campaigns).unwrap()).unwrap();
    assert_eq!(cs.len(), 1);
    assert_eq!(cs[0].tracking_link, "https://github.com/rust-lang/rust/issues/1");
    assert!(!cs[0].top);
    let rs = releases_from_yaml(yaml_from_str("- id: r\n- id: s\n  future: 3\n").unwrap()).unwrap();
    assert_eq!(rs.len(), 1);
    assert!(!rs[0].future);
}

#[test]
fn a_consistent_plan_validates() {
    let src = sources("- id: core\n  name: Core\n");
    let plan = load_plan(&src).unwrap();
    assert_eq!(plan.battlefronts.len(), 1);
    assert_eq!(plan.teams[0].name, "Core");
    assert!(plan.validate().is_ok());
    assert!(validate_plan(&src).is_ok());
}

#[test]
fn a_bogus_team_is_invalid() {
    let src = sources("- id: other\n  name: Other\n");
    assert!(matches!(validate_plan(&src), Err(Error::InvalidBattleplan)));
    assert_eq!(Error::InvalidBattleplan.message(), "invalid battleplan");
}

#[test]
fn load_reports_the_first_failure() {
    let mut src = sources("- id: core\n  name: Core\n");
    src.problems = "a: [".to_string();
    src.teams = "".to_string();
    assert!(matches!(load_plan(&src), Err(Error::YamlScan(_))));
    let mut src = sources("");
    src.releases = "x: 1\n".to_string();
    assert!(matches!(load_plan(&src), Err(Error::NoElements(t)) if t == "team"));
}

fn plan_src(battlefronts: &str, campaigns: &str, problems: &str) -> PlanSources {
    PlanSources {
        battlefronts: battlefronts.to_string(),
        campaigns: campaigns.to_string(),
        problems: problems.to_string(),
        teams: "- id: core\n  name: Core\n".to_string(),
        releases: "- id: r1\n".to_string(),
    }
}

#[test]
fn warnings_follow_the_check_order() {
    let plan = load_plan(&plan_src(
        "- id: bf\n  name: F\n  team: nobody\n  pitch: p\n",
        "- id: c1\n  goal: g\n  pitch: p\n  battlefront: gone\n  tracking-link: http://example.com\n  release: r9\n- id: c2\n  goal: g\n  pitch: p\n  battlefront: bf\n  tracking-link: https://example.com\n  release: r1\n",
        "- id: pr\n  pitch: p\n  battlefront: elsewhere\n",
    ))
    .unwrap();
    let messages: Vec<String> = plan.warnings().iter().map(|w| w.message()).collect();
    assert_eq!(
        messages,
        vec![
            "battlefront bf mentions bogus team 'nobody'".to_string(),
            "campaign c1 mentions bogus battlefront 'gone'".to_string(),
            "campaign c1 mentions bogus release 'r9'".to_string(),
            "campaign c1 has https tracking link: http://example.com".to_string(),
            "problem pr mentions bogus battlefront 'elsewhere'".to_string(),
        ]
    );
    assert!(plan.validate().is_err());
}

#[test]
fn a_plain_link_warns_but_validates() {
    let plan = load_plan(&plan_src(
        "- id: bf\n  name: F\n  team: core\n  pitch: p\n",
        "- id: c1\n  goal: g\n  pitch: p\n  battlefront: bf\n  tracking-link: http://example.com\n  release: r1\n",
        "- id: pr\n  pitch: p\n  battlefront: bf\n",
    ))
    .unwrap();
    let warnings = plan.warnings();
    assert_eq!(warnings.len(), 1);
    assert_eq!(warnings[0].message(), "campaign c1 has https tracking link: http://example.com");
    assert!(plan.validate().is_ok());
}

#[test]
fn validation_ignores_order_and_descriptions() {
    let a = load_plan(&plan_src(
        "- id: bf\n  name: F\n  team: core\n  pitch: p\n- id: bg\n  name: G\n  team: core\n  pitch: q\n",
        "- id: c1\n  goal: g\n  pitch: p\n  battlefront: bg\n  tracking-link: x\n  release: r1\n",
        "- id: pr\n  pitch: p\n  battlefront: bf\n",
    ))
    .unwrap();
    let b = load_plan(&plan_src(
        "- id: bg\n  name: Other\n  team: core\n  top: true\n  pitch: z\n- id: bf\n  name: F2\n  team: core\n  pitch: y\n",
        "- id: c1\n  goal: other\n  pitch: other\n  battlefront: bg\n  tracking-link: y\n  release: r1\n",
        "- id: pr\n  pitch: changed\n  battlefront: bf\n",
    ))
    .unwrap();
    assert!(a.validate().is_ok());
    assert!(b.validate().is_ok());
}

#[test]
fn the_first_scan_error_among_read_files() {
    assert!(first_scan_error(&vec!["- a\n".to_string(), "- b\n".to_string()]).is_none());
    let expected = format!("{}", yaml_rust::YamlLoader::load_from_str("a: [1, 2").unwrap_err());
    match first_scan_error(&vec!["- a\n".to_string(), "a: [1, 2".to_string(), "b: [".to_string()]) {
        Some(e) => assert_eq!(e.message(), expected),
        None => panic!("the second text is not YAML"),
    }
}

#[test]
fn reading_warns_about_skipped_items_and_extra_fields() {
    let src = plan_src(
        "- id: bf\n  name: F\n  team: core\n  pitch: p\n  colour: red\n- just text\n- id: bg\n  team: core\n- id: [1]\n",
        "- id: c1\n  goal: g\n  top: maybe\n  pitch: p\n  battlefront: bf\n  tracking-link: x\n  release: r1\n",
        "- id: pr\n  pitch: p\n  battlefront: bf\n",
    );
    let texts: Vec<String> = read_warnings(&src).iter().map(|w| w.text()).collect();
    assert_eq!(
        texts,
        vec![
            "battlefront bf has extra field: ".to_string(),
            "battlefront 1 is not a map".to_string(),
            "battlefront bg; missing field `name`".to_string(),
            "battlefront 3; not a string".to_string(),
            "campaign c1; not a bool".to_string(),
        ]
    );
    match &read_warnings(&src)[0] {
        ReadWarning::ExtraField { key, .. } => assert!(matches!(key, YamlValue::Str(s) if s == "colour")),
        _ => panic!("the first warning is about the extra field"),
    }
    let plan = load_plan(&src).unwrap();
    assert_eq!(plan.battlefronts.len(), 1);
    assert_eq!(plan.campaigns.len(), 0);
}

#[test]
fn reading_stops_at_a_file_that_lists_nothing() {
    let mut src = plan_src("- id: bf\n  name: F\n  team: core\n  pitch: p\n  x: 1\n", "a: 1\n", "- 3\n");
    assert_eq!(read_warnings(&src).len(), 1);
    src.battlefronts = "a: [1".to_string();
    assert!(read_warnings(&src).is_empty());
}
