use ohara::links::redirect_destination;
use ohara::scraper::config::{
    default_endpoint, expand_environment, Config, FetchKind, FileConfig, SearchConfig, SearchKind,
};
use ohara::scraper::providers::{
    brave_request, check_search, duckduckgo_address, keeps_page, keeps_rendered, normalize_results,
    normalize_url, parse_rss, rss_address,
};
use ohara::scraper::{
    after_lookup, authorized, catalog_path, id_for_url, plan_publication, respond, usable_token, validate_request,
    AfterLookup, QueuedDocument, ScrapeRequest, ScraperError, ScraperHttpError, TopicResult,
};

#[test]
fn parses_supported_provider_names() {
    assert!(matches!(SearchKind::parse("bing"), Ok(SearchKind::BingNews)));
    assert!(matches!(SearchKind::parse("google-news"), Ok(SearchKind::GoogleNews)));
    assert!(matches!(SearchKind::parse("brave"), Ok(SearchKind::Brave)));
    assert!(matches!(SearchKind::parse("ddg"), Ok(SearchKind::DuckDuckGo)));
    assert!(matches!(SearchKind::parse("rss"), Ok(SearchKind::Rss)));
    assert!(SearchKind::parse("unknown").is_err());
}

/// Reads a configuration file.
fn file_of(text: &str) -> Option<(FileConfig, String)> {
    let value: serde_yaml_ng::Value = serde_yaml_ng::from_str(text).ok()?;
    let text_of = |v: Option<&serde_yaml_ng::Value>| v.and_then(|v| v.as_str()).map(str::to_string);
    let search = value.get("search")?;
    let fetch = value.get("fetch");
    let file = FileConfig {
        provider: text_of(search.get("provider"))?,
        url: text_of(search.get("url")),
        country: text_of(search.get("country")).unwrap_or_else(|| "us".into()),
        language: text_of(search.get("language")).unwrap_or_else(|| "en".into()),
        brave_api_key: text_of(search.get("brave_api_key")),
        fetcher: text_of(fetch.and_then(|f| f.get("kind"))).unwrap_or_else(|| "http".into()),
        obscura_binary: text_of(fetch.and_then(|f| f.get("obscura_binary")))
            .unwrap_or_else(|| "obscura".into()),
    };
    Some((file, text_of(value.get("bind"))?))
}

fn config_of(text: &str) -> Option<Result<Config, ScraperError>> {
    let (file, bind) = file_of(text)?;
    let bind = if bind.contains(':') {
        Ok(bind)
    } else {
        Err("invalid socket address syntax".to_string())
    };
    Some(Config::from_file(&file, bind))
}

#[test]
fn parses_file_configuration() {
    let config = config_of("bind: 127.0.0.1:3010\nsearch:\n  provider: google-news\n");
    assert!(config.and_then(|c| c.ok()).is_some());
}

#[test]
fn file_configuration_is_validated() {
    let config = config_of("bind: 127.0.0.1:3010\nsearch:\n  provider: Bing\n").unwrap().unwrap();
    assert_eq!(config.search.kind, SearchKind::BingNews);
    assert_eq!(Some(config.search.endpoint.as_str()), default_endpoint(SearchKind::BingNews));
    assert!(matches!(config.fetch, FetchKind::Http));
    let rendered = config_of(
        "bind: 127.0.0.1:3010\nsearch:\n  provider: ddg\nfetch:\n  kind: obscura\n  obscura_binary: /bin/o\n",
    )
    .unwrap()
    .unwrap();
    assert!(matches!(rendered.fetch, FetchKind::Obscura { binary } if binary == "/bin/o"));
    let no_feed = config_of("bind: 127.0.0.1:3010\nsearch:\n  provider: rss\n").unwrap();
    assert!(matches!(no_feed, Err(ScraperError::Configuration(_))));
    let no_bind = config_of("bind: nowhere\nsearch:\n  provider: bing\n").unwrap();
    assert!(matches!(no_bind, Err(ScraperError::Configuration(_))));
    let no_fetcher =
        config_of("bind: 127.0.0.1:1\nsearch:\n  provider: bing\nfetch:\n  kind: pigeon\n").unwrap();
    assert!(matches!(no_fetcher, Err(ScraperError::Configuration(_))));
}

#[test]
fn expands_defaults_without_process_environment() {
    assert_eq!(
        expand_environment("bind: ${MISSING:-127.0.0.1:3010}", &vec![]).ok(),
        Some("bind: 127.0.0.1:3010".to_string())
    );
}

#[test]
fn rejects_unterminated_environment_expression() {
    assert!(expand_environment("bind: ${MISSING", &vec![]).is_err());
}

#[test]
fn environment_values_replace_expressions() {
    let env = vec![("A".to_string(), "1".to_string()), ("E".to_string(), String::new())];
    assert_eq!(expand_environment("x${A}y${A:-2}z", &env).ok(), Some("x1y1z".to_string()));
    assert_eq!(
        expand_environment("${B}", &env).map_err(|e| e.message()),
        Err("configuration: environment variable 'B' is not set".to_string())
    );
    assert_eq!(expand_environment("plain $ text", &env).ok(), Some("plain $ text".to_string()));
}

#[test]
fn authorization_accepts_only_a_matching_bearer_token() {
    assert!(authorized(Some("Bearer secret"), "secret"));
    assert!(!authorized(Some("Bearer secret"), "different"));
    assert!(authorized(Some("bearer secret"), "secret"));
}

#[test]
fn authorization_rejects_missing_or_malformed_headers() {
    assert!(!authorized(None, "secret"));
    assert!(!authorized(Some("Basic secret"), "secret"));
    assert!(!authorized(Some("Bearersecret"), "secret"));
    assert!(!authorized(Some("Bearer  secret"), "secret"));
}

#[test]
fn parses_rss_and_atom_links() {
    let body = br#"<feed><entry><title>Atom article</title><link href="https://example.com/atom" /></entry></feed>"#;
    let result = parse_rss(body, 1)
        .ok()
        .and_then(|mut results| results.pop())
        .map(|result| (result.title, result.url));
    assert_eq!(
        result,
        Some(("Atom article".to_string(), "https://example.com/atom".to_string()))
    );
}

fn topic(title: &str, url: &str) -> TopicResult {
    TopicResult { title: title.into(), url: url.into() }
}

#[test]
fn parses_brave_search_results() {
    let body = br#"{"web":{"results":[{"title":"Rust","url":"https://www.rust-lang.org/?utm_source=test"}]}}"#;
    let value: serde_json::Value = serde_json::from_slice(body).unwrap();
    let found = value["web"]["results"]
        .as_array()
        .unwrap()
        .iter()
        .map(|r| topic(r["title"].as_str().unwrap(), r["url"].as_str().unwrap()))
        .collect();
    let result = normalize_results(&found, 1).pop().map(|result| (result.title, result.url));
    assert_eq!(result, Some(("Rust".to_string(), "https://www.rust-lang.org/".to_string())));
}

#[test]
fn parses_obscura_json_string_output() {
    let output = br#""[{\"title\":\"DuckDuckGo result\",\"url\":\"https://example.com/result\"}]""#;
    let inner: String = serde_json::from_slice(output).unwrap();
    let value: serde_json::Value = serde_json::from_str(&inner).unwrap();
    let found = value
        .as_array()
        .unwrap()
        .iter()
        .map(|r| topic(r["title"].as_str().unwrap(), r["url"].as_str().unwrap()))
        .collect();
    let result = normalize_results(&found, 1).pop().map(|result| (result.title, result.url));
    assert_eq!(
        result,
        Some(("DuckDuckGo result".to_string(), "https://example.com/result".to_string()))
    );
}

#[test]
fn unwraps_common_search_redirects() {
    assert_eq!(
        redirect_destination("https://example.com/?uddg=https%3A%2F%2Frust-lang.org"),
        "https://rust-lang.org"
    );
    assert_eq!(
        redirect_destination("https://example.com/article"),
        "https://example.com/article"
    );
}

#[test]
fn search_results_are_unique_fetchable_and_bounded() {
    let found = vec![
        topic("a", "https://example.com/x?utm_source=1"),
        topic("b", "https://example.com/x"),
        topic("c", "mailto:x@example.com"),
        topic("d", "https://example.com/y#part"),
        topic("e", "https://example.com/z"),
    ];
    let urls: Vec<String> = normalize_results(&found, 2).into_iter().map(|r| r.url).collect();
    assert_eq!(urls, vec!["https://example.com/x", "https://example.com/y"]);
    assert_eq!(
        normalize_url("ftp://example.com").map_err(|e| e.message()),
        Err("invalid provider response: result URL is not fetchable".to_string())
    );
    let once = normalize_url("https://EXAMPLE.com/a?utm_medium=x&b=1").unwrap();
    assert_eq!(normalize_url(&once), Ok(once.clone()));
}

fn search(kind: SearchKind, key: Option<&str>) -> SearchConfig {
    SearchConfig {
        kind,
        endpoint: "https://search.example/s".into(),
        brave_api_key: key.map(str::to_string),
        country: "us".into(),
        language: "en".into(),
        obscura_binary: "obscura".into(),
    }
}

#[test]
fn searches_are_addressed_per_provider() {
    let bing = rss_address(&search(SearchKind::BingNews, None), "rust lang").unwrap();
    assert!(bing.starts_with("https://search.example/s?"));
    assert!(bing.contains("q=rust+lang"));
    assert!(rss_address(&search(SearchKind::Brave, None), "x").is_err());
    assert_eq!(
        brave_request(&search(SearchKind::Brave, None), "x", 3).map_err(|e| e.message()),
        Err("configuration: OHARA_SCRAPER_BRAVE_API_KEY is required when using Brave Search".to_string())
    );
    let (address, key) = brave_request(&search(SearchKind::Brave, Some("k")), "x", 3).unwrap();
    assert!(address.contains("q=x"));
    assert_eq!(key, "k");
    assert_eq!(
        duckduckgo_address(&search(SearchKind::DuckDuckGo, None), "a b"),
        Ok("https://search.example/s?q=a+b".to_string())
    );
    assert!(check_search(SearchKind::Rss, true, "200 OK", "", 10).is_ok());
    assert!(check_search(SearchKind::Rss, false, "500", "", 10).is_err());
    assert!(check_search(SearchKind::Rss, true, "200 OK", "", 2_097_153).is_err());
    assert!(keeps_page(true, 10_485_760));
    assert!(!keeps_page(true, 10_485_761));
    assert!(!keeps_page(false, 1));
    assert_eq!(keeps_rendered(true, "0", "", 1), Ok(true));
    assert_eq!(
        keeps_rendered(false, "exit status: 1", " bad ", 1).map_err(|e| e.message()),
        Err("network: Obscura page fetch returned exit status: 1: bad".to_string())
    );
}

#[test]
fn requests_are_validated() {
    let ask = |topic: &str, limit: Option<usize>| {
        validate_request(&ScrapeRequest { topic: topic.into(), limit })
            .map_err(|e| (e.status(), e.message()))
    };
    assert_eq!(ask("  rust ", None), Ok(("rust".to_string(), 5)));
    assert_eq!(ask(" ", None), Err((400, "topic must not be empty".to_string())));
    assert!(ask(&"x".repeat(201), None).is_err());
    assert!(ask("x", Some(0)).is_err());
    assert!(ask("x", Some(11)).is_err());
    assert_eq!(ask("x", Some(10)), Ok(("x".to_string(), 10)));
    assert_eq!(ScraperHttpError::Unauthorized.status(), 401);
    assert_eq!(ScraperHttpError::Unauthorized.message(), "process authentication failed");
    assert_eq!(ScraperHttpError::Scraper(ScraperError::Network("x".into())).status(), 502);
    assert_eq!(usable_token(Some("  ".into())), None);
    assert_eq!(usable_token(Some("t".into())), Some("t".to_string()));
}

#[test]
fn results_are_queued_once_and_published() {
    let found = topic("T", "https://example.com/a");
    let id = id_for_url("https://example.com/a");
    assert_eq!(id, ohara::digest::sha256_hex("https://example.com/a"));
    assert!(matches!(
        after_lookup(&found, true),
        AfterLookup::Duplicate(d) if d.document_id == id && d.job_id.is_none() && d.status == "duplicate"
    ));
    assert!(matches!(
        after_lookup(&found, false),
        AfterLookup::Fetch { document_id } if document_id == id
    ));
    let plan = plan_publication(&found, "data", "now");
    assert_eq!(plan.page_path, format!("data/raw/{id}.html"));
    assert_eq!(plan.inbox_path, format!("data/inbox/cleaning/{id}.json"));
    assert_eq!(plan.catalog_path, format!("data/catalog/{id}.json"));
    assert_eq!(plan.catalog_path, catalog_path("data", &id));
    assert_eq!(plan.artifact.document_id, id);
}

#[test]
fn every_result_is_counted() {
    let queued = |status: &'static str| QueuedDocument {
        document_id: "d".into(),
        job_id: None,
        source_url: "u".into(),
        status,
        title: "t".into(),
    };
    let (response, failed) = respond(
        "rust".into(),
        5,
        vec![Some(queued("queued")), None, Some(queued("duplicate"))],
    );
    assert_eq!((response.requested, response.discovered), (5, 3));
    assert_eq!((response.enqueued, response.duplicates, failed), (1, 1, 1));
    assert_eq!(response.documents.len(), 2);
}
