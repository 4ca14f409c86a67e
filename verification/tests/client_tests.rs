use battleplan::command::{load_yaml_text, main_, read_args, Command, Config};
use battleplan::errors::Error;
use battleplan::gh::client::{Client, ParameterMap};
use battleplan::gh::http::hyper::{download, NativeSslClient};
use battleplan::gh::http::hyper_base::{proxy_from_env, Connector, ProxyEnv};
use battleplan::gh::models::JsonValue;
use battleplan::web::ParsedUrl;

fn parse_url(text: &str) -> Option<ParsedUrl> {
    let u = url::Url::parse(text).ok()?;
    Some(ParsedUrl {
        serialization: u.as_str().to_string(),
        scheme: u.scheme().to_string(),
        host: u.host_str().map(str::to_string),
        port: u.port(),
    })
}

#[test]
fn parameters_are_sent_in_name_order() {
    let c = Client::new();
    let mut p = ParameterMap::new();
    p.insert("state".to_string(), "open".to_string());
    p.insert("b".to_string(), "2".to_string());
    p.insert("state".to_string(), "all".to_string());
    assert_eq!(p.get("state").unwrap(), "all");
    assert!(p.get("c").is_none());
    assert_eq!(c.request("https://x/y", Some(&p)), "https://x/y?b=2&state=all");
    assert_eq!(c.request("https://x/y", Some(&ParameterMap::new())), "https://x/y?");
    assert_eq!(c.request("https://x/y", None), "https://x/y");
}

#[test]
fn listing_addresses() {
    let c = Client::new();
    assert_eq!(
        c.issues_since("rust-lang/rust", 0).unwrap(),
        "https://api.github.com/repos/rust-lang/rust/issues?direction=asc&per_page=100&since=1970-01-01T00:00:00Z&state=all"
    );
    assert_eq!(
        c.comments_since("rust-lang/rust", 0).unwrap(),
        "https://api.github.com/repos/rust-lang/rust/issues/comments?direction=asc&per_page=100&since=1970-01-01T00:00:00Z&sort=created"
    );
    assert!(c.issues_since("r", i64::MAX).is_none());
    assert_eq!(c.org_repos_request("rust-lang"), "https://api.github.com/orgs/rust-lang/repos?");
    assert_eq!(
        c.fetch_issue("rust-lang", "rust", "7"),
        "https://api.github.com/repos/rust-lang/rust/issues/7"
    );
}

#[test]
fn request_headers_name_the_client() {
    let c = Client::new();
    let h = c.request_headers();
    assert_eq!(h[0], ("User-Agent".to_string(), "rust battleplan (banderson@mozilla.com)".to_string()));
    assert_eq!(h[3], ("Connection".to_string(), "close".to_string()));
}

#[test]
fn next_page_follows_the_link_header() {
    let h = "<https://api.github.com/x?page=2>; rel=\"next\", <https://api.github.com/x?page=5>; rel=\"last\"";
    assert_eq!(Client::next_page(Some(h)), Some("https://api.github.com/x?page=2".to_string()));
    let h = "<https://a?page=5>; rel=\"last\",  <https://a?page=3> ;  rel=\"next\" ";
    assert_eq!(Client::next_page(Some(h)), Some("https://a?page=3".to_string()));
    assert_eq!(Client::next_page(Some("<https://a>; rel=\"next\"; x")), None);
    assert_eq!(Client::next_page(None), None);
}

#[test]
fn repository_names_from_a_listing() {
    let c = Client::new();
    let entry = |name: &str| JsonValue::Object(vec![("name".to_string(), JsonValue::Str(name.to_string()))]);
    assert_eq!(
        c.org_repos("rust-lang", vec![entry("rust"), entry("cargo")]).unwrap(),
        vec!["rust-lang/rust", "rust-lang/cargo"]
    );
    assert!(c.org_repos("o", vec![]).unwrap().is_empty());
    assert!(matches!(c.org_repos("o", vec![entry("a"), JsonValue::Null]), Err(Error::UnexpectedJson)));
    let bad = JsonValue::Object(vec![("name".to_string(), JsonValue::Number("1".to_string()))]);
    assert!(matches!(c.org_repos("o", vec![bad]), Err(Error::UnexpectedJson)));
}

#[test]
fn pull_request_address() {
    let c = Client::new();
    let mut urls = ParameterMap::new();
    assert!(matches!(c.fetch_pull_request(&urls), Err(Error::MissingPullRequestUrl)));
    urls.insert("url".to_string(), "https://api.github.com/pr/1".to_string());
    assert_eq!(c.fetch_pull_request(&urls).unwrap(), "https://api.github.com/pr/1");
}

#[test]
fn downloads_choose_by_scheme() {
    let https = parse_url("https://github.com/").unwrap();
    assert!(matches!(download(&https), Ok(Connector::Https(NativeSslClient))));
    let http = parse_url("http://example.com/").unwrap();
    assert!(matches!(download(&http), Ok(Connector::Http)));
    let ftp = parse_url("ftp://example.com/").unwrap();
    match download(&ftp) {
        Err(e) => assert_eq!(e.message(), "unsupported URL scheme: 'ftp'"),
        Ok(_) => panic!("ftp accepted"),
    }
}

#[test]
fn proxies_from_the_environment() {
    let env = ProxyEnv {
        https_proxy: None,
        https_proxy_upper: Some("http://secure.proxy:3128".to_string()),
        http_proxy: Some("http://plain.proxy".to_string()),
        all_proxy: None,
        all_proxy_upper: Some("not a url".to_string()),
    };
    let https = parse_url("https://github.com/").unwrap();
    let http = parse_url("http://github.com/").unwrap();
    let ftp = parse_url("ftp://github.com/").unwrap();
    assert_eq!(proxy_from_env(&https, &env), Some(("secure.proxy".to_string(), 3128)));
    assert_eq!(proxy_from_env(&http, &env), Some(("plain.proxy".to_string(), 8080)));
    assert_eq!(proxy_from_env(&ftp, &env), None);
}

#[test]
fn error_messages() {
    assert_eq!(Error::MissingField("id".to_string()).message(), "missing field `id`");
    assert_eq!(Error::NotAString.message(), "not a string");
    assert_eq!(Error::NotABool.message(), "not a bool");
    assert_eq!(Error::NotAnArray("team".to_string()).message(), "team yaml is not an array");
    assert_eq!(
        Error::HttpStatus(404).message(),
        "http request returned an unsuccessful status code: 404"
    );
}

#[test]
fn subcommands() {
    assert_eq!(read_args(Some("crawl")), Config::Crawl);
    assert_eq!(read_args(Some("ponder")), Config::Ponder);
    assert_eq!(read_args(Some("merge")), Config::Merge);
    assert_eq!(read_args(Some("triage")), Config::Check);
    assert_eq!(read_args(None), Config::Check);
    assert_eq!(main_(Config::Check), Command::Check);
    assert_eq!(main_(Config::Crawl), Command::Crawl);
    assert_eq!(main_(Config::Ponder), Command::Ponder);
}

#[test]
fn generated_yaml_text_is_fixed() {
    assert_eq!(load_yaml_text("a ... b"), "a .. b");
}

#[test]
fn a_listing_yields_no_models() {
    let c = Client::new();
    let ok: Result<Vec<JsonValue>, Error> = c.get_models(Ok("[{\"name\": \"x\"}]".to_string()));
    assert_eq!(ok.unwrap().len(), 0);
    let failed: Result<Vec<JsonValue>, Error> = c.get_models(Err(Error::HttpStatus(404)));
    assert!(matches!(failed, Err(Error::HttpStatus(404))));
}

#[test]
fn clean_generated_text_is_kept() {
    assert_eq!(load_yaml_text("a: b .. c\n"), "a: b .. c\n");
}
