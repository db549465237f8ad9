use ohara::engine::http::{
    browser_headers, capabilities_of, check_profile, check_robots, check_target, finish_body,
    finish_head, is_fetchable_content, is_fetchable_ip, map_request_error, may_connect,
    plain_headers, redirect_step, robots_step, Finish, HttpFetcherParams, Ip,
    Location, Politeness, ResponseHead, RobotsDecision, RobotsStep,
};
use ohara::engine::ladder::{combined, sends_validators, FetchLadder};
use ohara::engine::llm::{
    chat_request, completion_outcome, endpoint_address, parse_chat, probe_outcome, ChatResponse,
    Usage, COMPLETIONS_PATH,
};
use ohara::engine::obscura::{
    build_request, capabilities, decode_response, diagnostic, exit_failure, map_error,
    robots_outcome, ObscuraDocument, ObscuraError, ObscuraResponse, ObscuraResult, Validation,
};
use ohara::engine::robots::Robots;
use ohara::engine::topic_search::{
    build_result, check_response, parse_rss, search_address, TopicSearchError,
};
use ohara::engine::{
    FetchCapabilities, FetchError, FetchLeg, FetchPolicy, FetchValidators, FetchedDoc,
    NormalizedUrl, UrlError,
};
use ohara::llm::{CompletionRequest, LlmError, NoLlm};
use ohara::Class;

// Addresses.

#[test]
fn parse_lowercases_and_drops_fragments_and_default_ports() {
    let url = NormalizedUrl::parse("HTTP://EXAMPLE.com:80/Path/?x=1#frag").unwrap();
    assert_eq!(url.as_str(), "http://example.com/Path/?x=1");
}

#[test]
fn parse_strips_tracking_params_and_sorts_the_rest() {
    let url =
        NormalizedUrl::parse("https://example.com/p?utm_source=feed&z=2&a=1&fbclid=abc").unwrap();
    assert_eq!(url.as_str(), "https://example.com/p?a=1&z=2");
}

#[test]
fn parse_drops_the_query_entirely_when_only_tracking_params_remain() {
    let url = NormalizedUrl::parse("https://example.com/p?utm_content=x").unwrap();
    assert_eq!(url.as_str(), "https://example.com/p");
}

#[test]
fn parse_punycodes_internationalized_hosts() {
    let url = NormalizedUrl::parse("https://Bücher.example/lesenswert").unwrap();
    assert_eq!(url.as_str(), "https://xn--bcher-kva.example/lesenswert");
}

#[test]
fn new_absolutizes_relative_forms_against_the_final_url() {
    let url = NormalizedUrl::new("/next/page?a=1", "https://example.com/dir/post").unwrap();
    assert_eq!(url.as_str(), "https://example.com/next/page?a=1");
}

#[test]
fn normalization_is_idempotent() {
    let once = NormalizedUrl::parse("https://example.com/p?b=2&a=1&utm_medium=rss").unwrap();
    let twice = NormalizedUrl::parse(once.as_str()).unwrap();
    assert_eq!(once.as_str(), twice.as_str());
    assert_eq!(once.host_str(), twice.host_str());
    assert_eq!(once.scheme(), twice.scheme());
}

#[test]
fn non_http_schemes_are_rejected() {
    let err = NormalizedUrl::parse("ftp://example.com/file").unwrap_err();
    assert!(matches!(err, UrlError::Scheme(s) if s == "ftp"));
    let err = NormalizedUrl::parse("javascript:alert(1)").unwrap_err();
    assert!(matches!(err, UrlError::Scheme(_)));
}

#[test]
fn unparseable_input_is_rejected() {
    assert!(matches!(
        NormalizedUrl::parse("not a url at all").unwrap_err(),
        UrlError::Invalid(_)
    ));
}

#[test]
fn host_str_is_lowercase_punycode() {
    let url = NormalizedUrl::parse("https://Ünïcode.example/path").unwrap();
    let host = url.host_str();
    assert!(
        host.starts_with("xn--") && host == host.to_lowercase(),
        "IDN host must serialize as lowercase punycode, got {host}"
    );
}

#[test]
fn query_values_survive_reencoding() {
    let url = NormalizedUrl::parse("https://example.com/q?q=rust+sqlite&lang=en").unwrap();
    assert_eq!(url.as_str(), "https://example.com/q?lang=en&q=rust+sqlite");
    let url = NormalizedUrl::parse("https://example.com/q?q=a%2Bb").unwrap();
    assert_eq!(url.as_str(), "https://example.com/q?q=a%2Bb");
    let url = NormalizedUrl::parse("https://example.com/q?weird%20key=a%26b").unwrap();
    assert_eq!(url.as_str(), "https://example.com/q?weird+key=a%26b");
}

#[test]
fn origins_and_targets_are_read_from_addresses() {
    let url = NormalizedUrl::parse("http://example.com:8080/a/b?z=1&a=2").unwrap();
    assert_eq!(url.origin_key(), "http://example.com:8080");
    assert_eq!(url.path_and_query(), "/a/b?a=2&z=1");
    assert_eq!(url.port(), 8080);
    let plain = NormalizedUrl::parse("https://example.com:443").unwrap();
    assert_eq!(plain.origin_key(), "https://example.com");
    assert_eq!(plain.path_and_query(), "/");
    assert_eq!(plain.port(), 443);
    assert_eq!(NormalizedUrl::parse("http://example.com").unwrap().port(), 80);
    assert_eq!(
        NormalizedUrl::parse("ftp://x").unwrap_err().message(),
        "unsupported scheme \"ftp\": only http/https are fetched"
    );
    assert_eq!(
        FetchError::from_url_error(&NormalizedUrl::new("http://[", "http://x").unwrap_err()).message(),
        "protocol violation: invalid url: invalid IPv6 address"
    );
}

// Robots.

const SAMPLE: &str = "
# comment line
User-agent: *
Disallow: /admin/
Allow: /admin/public/

User-agent: ohara
Disallow: /private/*
Disallow: *.pdf$
Crawl-delay: 5
";

#[test]
fn wildcard_group_rules_apply() {
    let robots = Robots::parse(SAMPLE);
    assert!(robots.allows("anyone", "/posts/1"));
    assert!(!robots.allows("anyone", "/admin/secret"));
    assert!(robots.allows("anyone", "/admin/public/page"), "Allow wins on tie/longer");
}

#[test]
fn specific_group_overrides_the_wildcard_group() {
    let robots = Robots::parse(SAMPLE);
    assert!(!robots.allows("ohara/0.1 (+https://github.com/Chandra179/ohara)", "/private/x"));
    assert!(!robots.allows("ohara", "/doc/report.pdf"), "$ anchors the end");
    assert!(robots.allows("ohara", "/doc/report.pdfx"));
    // The wildcard group's rules do not apply to the matched specific agent.
    assert!(robots.allows("ohara", "/admin/secret"));
}

#[test]
fn missing_robots_means_everything_is_allowed() {
    let robots = Robots::parse("");
    assert!(robots.allows("ohara", "/anything/at/all"));
}

#[test]
fn malformed_lines_are_skipped() {
    let robots = Robots::parse("garbage\n\nDisallow\nUser-agent: ohara\nDisallow: /x\n");
    assert!(!robots.allows("ohara", "/x"));
    assert!(robots.allows("ohara", "/y"));
}

#[test]
fn user_agent_lines_in_a_row_name_one_group() {
    let robots = Robots::parse("User-agent: alpha\nUser-agent: beta\nDisallow: /x\n");
    assert!(!robots.allows("alpha", "/x"));
    assert!(!robots.allows("beta", "/x"));
    let apart = Robots::parse(
        "User-agent: alpha\nDisallow: /a\nUser-agent: beta\nCrawl-delay: 1\nUser-agent: gamma\nDisallow: /b\n",
    );
    assert!(!apart.allows("alpha", "/a"));
    assert!(apart.allows("alpha", "/b"));
    assert!(!apart.allows("beta", "/b") && !apart.allows("gamma", "/b"));
    assert!(apart.allows("gamma", "/a"));
}

#[test]
fn star_matches_runs_of_any_length() {
    let robots = Robots::parse("User-agent: *\nDisallow: /a*b\n");
    assert!(!robots.allows("ohara", "/axxxb"));
    assert!(!robots.allows("ohara", "/ab"));
    assert!(robots.allows("ohara", "/ac"));
}

// Topic search.

#[test]
fn parses_and_normalizes_news_results() {
    let body = br#"<?xml version="1.0"?><rss><channel><item><title>Example story</title><link>https://www.bing.com/news/apiclick.aspx?ref=FexRss&amp;url=https%3A%2F%2FEXAMPLE.com%2Fstory%3Futm_source%3Dbing</link></item></channel></rss>"#;
    let results = parse_rss(body, 5).unwrap();
    assert_eq!(results[0].title, "Example story");
    assert_eq!(results[0].url.as_str(), "https://example.com/story");
}

#[test]
fn rejects_non_http_result_urls() {
    assert!(build_result("Example", "javascript:alert(1)").is_none());
}

#[test]
fn recovers_bings_collapsed_encoded_redirect() {
    let link = "http://www.bing.com/news/apiclick.aspx?ref=FexRssaid%3Dtid%3D1url%3Dhttps%3A%2F%2Fexample.com%2Fstory%3Fmkt%3Den-id";
    let result = build_result("Example", link).unwrap();
    assert_eq!(result.url.as_str(), "https://example.com/story");
}

#[test]
fn applies_the_result_limit_and_deduplicates_urls() {
    let body = br"<rss><channel><item><title>One</title><link>https://example.com/a</link></item><item><title>Same</title><link>https://example.com/a#fragment</link></item><item><title>Two</title><link>https://example.com/b</link></item></channel></rss>";
    let results = parse_rss(body, 1).unwrap();
    assert_eq!(results.len(), 1);
    assert_eq!(results[0].title, "One");
    let all = parse_rss(body, 9).unwrap();
    let urls: Vec<&str> = all.iter().map(|r| r.url.as_str()).collect();
    assert_eq!(urls, vec!["https://example.com/a", "https://example.com/b"]);
}

#[test]
fn topic_searches_are_addressed_and_checked() {
    assert_eq!(
        search_address("rust & verus").unwrap(),
        "https://www.bing.com/news/search?q=rust+%26+verus&format=rss"
    );
    assert_eq!(
        parse_rss(b"<rss><item></rss>", 3).map(|r| r.len()).is_err(),
        true
    );
    assert_eq!(
        TopicSearchError::Unavailable("x".into()).message(),
        "topic search unavailable: x"
    );
    assert!(check_response(true, "200 OK", 10).is_ok());
    assert!(matches!(
        check_response(false, "503 Service Unavailable", 10),
        Err(TopicSearchError::Unavailable(_))
    ));
    assert!(matches!(
        check_response(true, "200 OK", 2_097_153),
        Err(TopicSearchError::InvalidResponse(_))
    ));
}

// Plain fetching.

fn v4(a: u8, b: u8, c: u8, d: u8) -> Ip {
    Ip::V4([a, b, c, d])
}

fn v6(s: [u16; 8]) -> Ip {
    Ip::V6(s)
}

#[test]
fn ssrf_guard_refuses_every_non_global_range() {
    let blocked = [
        v4(0, 0, 0, 1),
        v4(10, 1, 2, 3),
        v4(100, 64, 0, 9),
        v4(127, 0, 0, 1),
        v4(169, 254, 1, 1),
        v4(172, 16, 0, 1),
        v4(172, 31, 255, 255),
        v4(192, 0, 0, 1),
        v4(192, 0, 2, 1),
        v4(192, 88, 99, 1),
        v4(192, 168, 1, 1),
        v4(198, 18, 0, 1),
        v4(198, 51, 100, 7),
        v4(203, 0, 113, 9),
        v4(224, 0, 0, 1),
        v4(240, 0, 0, 1),
        v4(255, 255, 255, 255),
        v6([0, 0, 0, 0, 0, 0, 0, 0]),
        v6([0, 0, 0, 0, 0, 0, 0, 1]),
        v6([0, 0, 0, 0, 0, 0xffff, 0x7f00, 1]),
        v6([0, 0, 0, 0, 0, 0xffff, 0x0a00, 1]),
        v6([0x100, 0, 0, 0, 0, 0, 0, 1]),
        v6([0x2001, 2, 0, 0, 0, 0, 0, 1]),
        v6([0x2001, 0xdb8, 0, 0, 0, 0, 0, 1]),
        v6([0xfc00, 0, 0, 0, 0, 0, 0, 1]),
        v6([0xfe80, 0, 0, 0, 0, 0, 0, 1]),
        v6([0xff02, 0, 0, 0, 0, 0, 0, 1]),
    ];
    for ip in blocked {
        assert!(!is_fetchable_ip(ip), "{ip:?} must be refused");
    }
    let allowed = [
        v4(8, 8, 8, 8),
        v4(93, 184, 216, 34),
        v6([0x2606, 0x4700, 0, 0, 0, 0, 0, 0x1111]),
        v6([0x2620, 0xfe, 0, 0, 0, 0, 0, 0xfe]),
    ];
    for ip in allowed {
        assert!(is_fetchable_ip(ip), "{ip:?} must be fetchable");
    }
}

#[test]
fn browser_profile_adds_navigation_headers() {
    let headers = browser_headers();
    let get = |name: &str| headers.iter().find(|h| h.0 == name).map(|h| h.1);
    assert_eq!(get("accept-language"), Some("en-US,en;q=0.9"));
    assert_eq!(get("sec-fetch-mode"), Some("navigate"));
    assert_eq!(get("upgrade-insecure-requests"), Some("1"));
    assert_eq!(plain_headers(), vec![("accept", "text/html,application/xhtml+xml,*/*;q=0.8")]);
}

fn url(text: &str) -> NormalizedUrl {
    NormalizedUrl::parse(text).unwrap()
}

fn head(status: u16, content_type: Option<&str>) -> ResponseHead {
    ResponseHead {
        status,
        content_type: content_type.map(str::to_string),
        etag: Some("v1".into()),
        last_modified: None,
    }
}

#[test]
fn fetch_returns_a_labeled_document() {
    let target = url("http://example.com/post");
    let head = head(200, Some("text/html; charset=utf-8"));
    assert!(matches!(finish_head(&head, &target, "now"), Ok(Finish::ReadBody)));
    let doc = finish_body(&head, b"<html><body>hello</body></html>", &target, 1024, "now").unwrap();
    assert_eq!(doc.status, 200);
    assert!(doc.html.contains("hello"));
    assert!(!doc.js_executed, "plain fetching cannot execute JavaScript and says so");
    assert_eq!(doc.final_url, "http://example.com/post");
    assert!(doc.content_type.as_deref().unwrap_or("").contains("text/html"));
    assert_eq!((doc.etag.as_deref(), doc.last_modified), (Some("v1"), None));
    assert!(!capabilities_of(false).js_rendering);
}

#[test]
fn robots_disallow_is_refused() {
    assert_eq!(robots_step(Some(200)), RobotsStep::ReadBody);
    let decision = RobotsDecision {
        robots: Robots::parse("User-agent: *\nDisallow: /"),
        disallow_all: false,
    };
    let err = check_robots(&decision, &url("http://example.com/private")).unwrap_err();
    assert!(matches!(err, FetchError::Protocol(m) if m.contains("robots.txt disallows")));
}

#[test]
fn unreadable_robots_allow_nothing_and_missing_ones_everything() {
    assert_eq!(robots_step(Some(404)), RobotsStep::AllowAll);
    assert_eq!(robots_step(Some(410)), RobotsStep::AllowAll);
    assert_eq!(robots_step(Some(500)), RobotsStep::DisallowAll);
    assert_eq!(robots_step(Some(301)), RobotsStep::DisallowAll);
    assert_eq!(robots_step(None), RobotsStep::DisallowAll);
    assert!(RobotsDecision::allow_all().allows("/x"));
    assert!(!RobotsDecision::disallow_all().allows("/x"));
    assert!(check_robots(&RobotsDecision::allow_all(), &url("http://example.com/")).is_ok());
}

#[test]
fn status_mapping_matches_the_taxonomy() {
    let target = url("http://example.com/gone");
    let err = finish_head(&head(404, Some("text/html")), &target, "now").unwrap_err();
    assert!(matches!(err, FetchError::NotFound { .. }));
    assert_eq!(err.class(), Class::Permanent);
    let err = finish_head(&head(403, Some("text/html")), &target, "now").unwrap_err();
    assert!(matches!(err, FetchError::AntiBot { .. }));
    assert_eq!(err.class(), Class::Retry);
    let err = finish_head(&head(429, None), &target, "now").unwrap_err();
    assert!(matches!(err, FetchError::AntiBot { .. }));
    let err = finish_head(&head(500, None), &target, "now").unwrap_err();
    assert_eq!(
        err.message(),
        "protocol violation: unexpected status 500 on http://example.com/gone"
    );
    let Ok(Finish::NotModified(doc)) = finish_head(&head(304, Some("application/pdf")), &target, "now")
    else {
        panic!("an unchanged document is done");
    };
    assert_eq!((doc.html.as_str(), doc.status, doc.js_executed), ("", 304, false));
}

fn step(status: u16, location: &Location, used: usize) -> Result<Option<NormalizedUrl>, FetchError> {
    let start = url("http://example.com/old");
    redirect_step(status, location, &start, &start, used, 5)
}

#[test]
fn redirects_are_followed_and_labeled_with_the_final_url() {
    let next = step(301, &Location::To("/final?a=1".into()), 0).unwrap().unwrap();
    assert_eq!(next.as_str(), "http://example.com/final?a=1");
    assert!(redirect_step(200, &Location::Missing, &next, &next, 1, 5).unwrap().is_none());
    let doc = finish_body(&head(200, None), b"<html>moved</html>", &next, 100, "now").unwrap();
    assert_eq!(doc.final_url, "http://example.com/final?a=1");
    assert!(doc.html.contains("moved"));
}

#[test]
fn redirects_fail_by_the_taxonomy() {
    assert!(step(304, &Location::Missing, 0).unwrap().is_none());
    let message = |r: Result<Option<NormalizedUrl>, FetchError>| r.map(|_| ()).map_err(|e| e.message());
    assert_eq!(
        message(step(302, &Location::Missing, 0)),
        Err("protocol violation: redirect without Location on http://example.com/old".into())
    );
    assert_eq!(
        message(step(302, &Location::Malformed, 0)),
        Err("protocol violation: non-ASCII Location on http://example.com/old".into())
    );
    assert_eq!(
        message(step(302, &Location::To("/x".into()), 5)),
        Err("protocol violation: more than 5 redirects on http://example.com/old".into())
    );
    assert_eq!(
        message(step(302, &Location::To("ftp://x/y".into()), 0)),
        Err("protocol violation: unsupported scheme \"ftp\": only http/https are fetched".into())
    );
    assert!(matches!(
        step(302, &Location::To("http://[".into()), 0),
        Err(FetchError::Protocol(m)) if m.starts_with("invalid url: ")
    ));
}

#[test]
fn private_targets_are_blocked_by_default() {
    let target = url("http://127.0.0.1:9/x");
    let err = check_target(false, &vec![v4(127, 0, 0, 1)], &target).unwrap_err();
    assert_eq!(err.class(), Class::Retry);
    assert_eq!(
        err,
        FetchError::Protocol("no fetchable (global) address for http://127.0.0.1:9/x — §12 SSRF guard".into())
    );
    assert!(check_target(true, &vec![], &target).is_ok());
    assert!(check_target(false, &vec![v4(10, 0, 0, 1), v4(8, 8, 8, 8)], &target).is_ok());
    assert!(check_target(false, &vec![], &target).is_err());
    assert!(!may_connect(false, v4(127, 0, 0, 1)));
    assert!(may_connect(true, v4(127, 0, 0, 1)));
}

#[test]
fn unreadable_content_types_are_protocol_violations() {
    let target = url("http://example.com/doc.pdf");
    let err = finish_head(&head(200, Some("application/pdf")), &target, "now").unwrap_err();
    assert_eq!(
        err,
        FetchError::Protocol(
            "unsupported content-type \"application/pdf\" on http://example.com/doc.pdf".into()
        )
    );
    for good in ["", "TEXT/plain", "application/xhtml+xml", "application/json ; x", "x/html"] {
        assert!(is_fetchable_content(Some(good)), "{good}");
    }
    assert!(is_fetchable_content(None));
    assert!(!is_fetchable_content(Some("image/png; text/html")));
}

#[test]
fn bodies_are_bounded_and_read_lossily() {
    let target = url("http://example.com/");
    assert_eq!(
        finish_body(&head(200, None), b"1234", &target, 3, "now").map(|d| d.html),
        Err(FetchError::Protocol("body exceeds 3 bytes on http://example.com/".into()))
    );
    let doc = finish_body(&head(200, None), &[b'a', 0xff, b'b'], &target, 3, "now").unwrap();
    assert_eq!(doc.html, "a\u{fffd}b");
}

#[test]
fn politeness_floor_serializes_requests_to_one_host() {
    let mut hosts = Politeness::new(250);
    assert_eq!(hosts.politeness_wait("a", 100, 0), Some(0));
    assert_eq!(hosts.politeness_wait("a", 100, 0), Some(250));
    assert_eq!(hosts.politeness_wait("b", 100, 0), Some(0));
    assert_eq!(hosts.politeness_wait("a", 400, 0), Some(200));
    assert_eq!(hosts.politeness_wait("a", 900, 0), Some(0));
}

#[test]
fn concurrent_requests_to_one_host_serialize() {
    let mut hosts = Politeness::new(2_000);
    let given: Vec<_> = [0, 1_000, 2_000, 2_000]
        .iter()
        .map(|&asked| asked + hosts.politeness_wait("a", asked, 0).unwrap())
        .collect();
    assert_eq!(given, [0, 2_000, 4_000, 6_000]);
    assert_eq!(hosts.politeness_wait("a", 2_000, u64::MAX), None);
    assert_eq!(hosts.politeness_wait("a", 2_000, 0), Some(6_000));
}

#[test]
fn per_fetch_rate_limit_is_at_least_the_global_floor() {
    let mut hosts = Politeness::new(0);
    assert_eq!(hosts.politeness_wait("a", 10, 250), Some(0));
    assert_eq!(hosts.politeness_wait("a", 10, 250), Some(250));
    let mut hosts = Politeness::new(500);
    assert_eq!(hosts.politeness_wait("a", 10, 250), Some(0));
    assert_eq!(hosts.politeness_wait("a", 10, 250), Some(500));
}

#[test]
fn request_timeout_maps_to_the_timeout_variant() {
    assert_eq!(map_request_error(true, "late", 30), FetchError::Timeout { secs: 30 });
    assert_eq!(FetchError::Timeout { secs: 30 }.message(), "timeout after 30s");
    assert_eq!(
        map_request_error(false, "refused", 30),
        FetchError::Protocol("request failed: refused".into())
    );
}

#[test]
fn declares_browser_profile_without_javascript() {
    assert!(check_profile("Mozilla/5.0 test browser").is_ok());
    assert_eq!(
        capabilities_of(true),
        FetchCapabilities { js_rendering: false, stealth: true }
    );
}

#[test]
fn rejects_an_empty_browser_user_agent() {
    let result = check_profile("");
    assert!(matches!(result, Err(FetchError::Protocol(message)) if message.contains("user-agent")));
}

// The ladder.

#[derive(Clone, Copy)]
enum Outcome {
    AntiBot,
    JavaScriptRequired,
    NotFound,
    Success,
}

/// Runs a ladder over providers with fixed outcomes; answers the provider that succeeded or the
/// error, and how often each provider was called.
fn climb(
    legs: &[(FetchLeg, Outcome)],
    start_leg: FetchLeg,
) -> (Result<usize, FetchError>, Vec<usize>) {
    let ladder = FetchLadder::new(&legs.iter().map(|l| l.0).collect()).unwrap();
    let mut calls = vec![0; legs.len()];
    let mut at = match ladder.start(start_leg) {
        Ok(at) => at,
        Err(e) => return (Err(e), calls),
    };
    loop {
        let provider = ladder.provider(at);
        calls[provider] += 1;
        let target = "https://example.com/page".to_string();
        let error = match legs[provider].1 {
            Outcome::Success => return (Ok(provider), calls),
            Outcome::AntiBot => FetchError::AntiBot { url: target },
            Outcome::JavaScriptRequired => FetchError::JavaScriptRequired { url: target },
            Outcome::NotFound => FetchError::NotFound { url: target },
        };
        match ladder.after(at, error) {
            Ok(next) => at = next,
            Err(e) => return (Err(e), calls),
        }
    }
}

const PLAIN: FetchCapabilities = FetchCapabilities { js_rendering: false, stealth: false };
const BROWSER: FetchCapabilities = FetchCapabilities { js_rendering: true, stealth: true };

#[test]
fn anti_bot_escalates_to_the_next_available_leg() {
    let (result, calls) = climb(
        &[(FetchLeg::Plain, Outcome::AntiBot), (FetchLeg::Browser, Outcome::Success)],
        FetchLeg::Plain,
    );
    assert_eq!(result, Ok(1));
    assert_eq!(calls, vec![1, 1]);
    assert_eq!(combined(&vec![PLAIN, BROWSER]), BROWSER);
    assert_eq!(combined(&vec![]), PLAIN);
}

#[test]
fn javascript_required_escalates_to_a_rendering_leg() {
    let (result, calls) = climb(
        &[(FetchLeg::Browser, Outcome::Success), (FetchLeg::Plain, Outcome::JavaScriptRequired)],
        FetchLeg::Plain,
    );
    assert_eq!(result, Ok(0));
    assert_eq!(calls[0], 1);
}

#[test]
fn configured_start_leg_skips_lower_legs() {
    let (result, calls) = climb(
        &[(FetchLeg::Plain, Outcome::Success), (FetchLeg::Impersonate, Outcome::Success)],
        FetchLeg::Impersonate,
    );
    assert_eq!(result, Ok(1));
    assert_eq!(calls, vec![0, 1]);
}

#[test]
fn permanent_errors_do_not_escalate() {
    let (result, calls) = climb(
        &[(FetchLeg::Plain, Outcome::NotFound), (FetchLeg::Browser, Outcome::Success)],
        FetchLeg::Plain,
    );
    assert!(matches!(result, Err(FetchError::NotFound { .. })));
    assert_eq!(calls[1], 0);
}

#[test]
fn ladders_refuse_no_legs_repeated_legs_and_missing_legs() {
    assert_eq!(
        FetchLadder::new(&vec![]).map(|l| l.len()),
        Err(FetchError::Protocol("fetch ladder requires at least one leg".into()))
    );
    assert_eq!(
        FetchLadder::new(&vec![FetchLeg::Browser, FetchLeg::Plain, FetchLeg::Browser]).map(|l| l.len()),
        Err(FetchError::Protocol("fetch ladder contains duplicate Browser leg".into()))
    );
    let (result, _) = climb(&[(FetchLeg::Plain, Outcome::Success)], FetchLeg::Browser);
    assert_eq!(
        result,
        Err(FetchError::Protocol("fetch ladder has no provider at or after Browser".into()))
    );
    let (result, _) = climb(&[(FetchLeg::Plain, Outcome::AntiBot)], FetchLeg::Plain);
    assert!(matches!(result, Err(FetchError::AntiBot { .. })));
    let single = FetchLadder::single();
    assert_eq!((single.len(), single.provider(0)), (1, 0));
    assert!(sends_validators(1, 1));
    assert!(!sends_validators(2, 1));
}

// The rendering provider.

fn params() -> HttpFetcherParams {
    HttpFetcherParams {
        user_agent: "ohara/obscura-test".into(),
        timeout_ms: 2000,
        rate_limit_ms: 0,
        allow_private_hosts: true,
        max_body_bytes: 1024,
        max_redirects: 2,
    }
}

/// Reads a response of the provider from JSON.
fn response(text: &str) -> ObscuraResponse {
    let value: serde_json::Value = serde_json::from_str(text).unwrap();
    let opt = |v: &serde_json::Value| v.as_str().map(str::to_string);
    let result = if value["status"] == "ok" {
        let d = &value["document"];
        ObscuraResult::Document(ObscuraDocument {
            html: opt(&d["html"]).unwrap(),
            js_executed: d["js_executed"].as_bool().unwrap(),
            final_url: opt(&d["final_url"]).unwrap(),
            redirects: d["redirects"]
                .as_array()
                .map(|r| r.iter().filter_map(opt).collect())
                .unwrap_or_default(),
            status: d["status"].as_u64().unwrap() as u16,
            content_type: opt(&d["content_type"]),
            etag: opt(&d["etag"]),
            last_modified: opt(&d["last_modified"]),
            fetched_at: opt(&d["fetched_at"]).unwrap(),
        })
    } else {
        let e = &value["error"];
        ObscuraResult::Failure(ObscuraError {
            kind: opt(&e["kind"]).unwrap(),
            message: opt(&e["message"]).unwrap(),
            secs: e["secs"].as_u64(),
        })
    };
    ObscuraResponse {
        protocol_version: value["protocol_version"].as_u64().unwrap() as u32,
        result,
    }
}

/// Decides on a response, with every address accepted that `judge` accepts.
fn decide(
    response: &ObscuraResponse,
    requested: &NormalizedUrl,
    max_body_bytes: usize,
    allow_private_hosts: bool,
    judge: fn(&str) -> Ip,
) -> Result<FetchedDoc, FetchError> {
    let mut accepted = Vec::new();
    loop {
        match decode_response(response, requested, max_body_bytes, 2, &accepted)? {
            Validation::Accept(doc) => return Ok(doc),
            Validation::Resolve(next) => {
                check_target(allow_private_hosts, &vec![judge(next.host_str())], &next)?;
                accepted.push(next);
            }
        }
    }
}

fn resolve(host: &str) -> Ip {
    if host == "127.0.0.1" {
        v4(127, 0, 0, 1)
    } else {
        v4(93, 184, 216, 34)
    }
}

#[test]
fn declares_rendering_and_stealth_capabilities() {
    assert_eq!(capabilities(), FetchCapabilities { js_rendering: true, stealth: true });
}

#[test]
fn invokes_versioned_protocol_and_returns_labeled_document() {
    let target = url("https://example.com/start");
    let policy = FetchPolicy { robots: false, rate_limit_ms: 7, ..FetchPolicy::default() };
    let validators = FetchValidators { etag: Some("v0".into()), last_modified: None };
    let request = build_request(&target, &policy, &validators, &params());
    assert_eq!((request.protocol_version, request.url.as_str()), (1, "https://example.com/start"));
    assert_eq!((request.robots, request.rate_limit_ms, request.timeout_ms), (false, 7, 2000));
    assert_eq!((request.max_body_bytes, request.max_redirects), (1024, 2));
    assert_eq!(request.validators.etag.as_deref(), Some("v0"));

    let answer = response(
        r#"{"protocol_version":1,"status":"ok","document":{"html":"<main>ok</main>","js_executed":true,"final_url":"https://example.com/final","status":200,"content_type":"text/html","etag":"v1","last_modified":null,"fetched_at":"2026-09-10T00:00:00Z"}}"#,
    );
    let document = decide(&answer, &target, 1024, true, resolve).unwrap();
    assert_eq!(document.html, "<main>ok</main>");
    assert!(document.js_executed);
    assert_eq!(document.final_url, "https://example.com/final");
    assert_eq!(document.etag.as_deref(), Some("v1"));
}

#[test]
fn maps_provider_errors_into_fetch_taxonomy() {
    let answer = response(
        r#"{"protocol_version":1,"status":"error","error":{"kind":"anti_bot","message":"blocked","secs":null}}"#,
    );
    let error = decide(&answer, &url("https://example.com/start"), 1024, true, resolve).unwrap_err();
    assert!(matches!(error, FetchError::AntiBot { .. }));
    assert_eq!(error.class(), Class::Retry);
    let mapped = |kind: &str, message: &str, secs: Option<u64>| {
        map_error(
            &ObscuraError { kind: kind.into(), message: message.into(), secs },
            &url("https://example.com/start"),
        )
    };
    assert_eq!(mapped("timeout", "x", None), FetchError::Timeout { secs: 0 });
    assert_eq!(mapped("timeout", "x", Some(9)), FetchError::Timeout { secs: 9 });
    assert!(matches!(mapped("not_found", "x", None), FetchError::NotFound { .. }));
    assert!(matches!(mapped("javascript_required", "x", None), FetchError::JavaScriptRequired { .. }));
    assert_eq!(
        mapped("protocol", "", None),
        FetchError::Protocol("Obscura provider returned an empty error message".into())
    );
    assert_eq!(
        mapped("odd\"", "m", None),
        FetchError::Protocol("unknown Obscura error kind \"odd\\\"\": m".into())
    );
}

#[test]
fn rejects_false_rendering_claims() {
    let answer = response(
        r#"{"protocol_version":1,"status":"ok","document":{"html":"ok","js_executed":false,"final_url":"https://example.com","status":200,"content_type":"text/html","etag":null,"last_modified":null,"fetched_at":"now"}}"#,
    );
    let error = decide(&answer, &url("https://example.com"), 1024, true, resolve).unwrap_err();
    assert!(matches!(error, FetchError::Protocol(message) if message.contains("JavaScript")));
}

#[test]
fn enforces_the_configured_body_limit() {
    let answer = response(
        r#"{"protocol_version":1,"status":"ok","document":{"html":"four","js_executed":true,"final_url":"https://example.com","status":200,"content_type":"text/html","etag":null,"last_modified":null,"fetched_at":"now"}}"#,
    );
    let error = decide(&answer, &url("https://example.com"), 3, true, resolve).unwrap_err();
    assert!(matches!(error, FetchError::Protocol(message) if message.contains("body exceeds")));
}

#[test]
fn maps_http_statuses_from_the_child() {
    let answer = response(
        r#"{"protocol_version":1,"status":"ok","document":{"html":"","js_executed":true,"final_url":"https://example.com/missing","status":404,"content_type":"text/html","etag":null,"last_modified":null,"fetched_at":"now"}}"#,
    );
    let error = decide(&answer, &url("https://example.com"), 1024, true, resolve).unwrap_err();
    assert!(matches!(error, FetchError::NotFound { .. }));
    assert_eq!(error.class(), Class::Permanent);
}

#[test]
fn rejects_a_private_final_url_when_ssrf_protection_is_on() {
    let answer = response(
        r#"{"protocol_version":1,"status":"ok","document":{"html":"ok","js_executed":true,"final_url":"http://127.0.0.1/private","status":200,"content_type":"text/html","etag":null,"last_modified":null,"fetched_at":"now"}}"#,
    );
    let error = decide(&answer, &url("https://example.com"), 1024, false, resolve).unwrap_err();
    assert!(matches!(error, FetchError::Protocol(message) if message.contains("SSRF")));
}

#[test]
fn rejects_a_private_redirect_hop_when_ssrf_protection_is_on() {
    let answer = response(
        r#"{"protocol_version":1,"status":"ok","document":{"html":"ok","js_executed":true,"final_url":"https://example.com/final","redirects":["http://127.0.0.1/private"],"status":200,"content_type":"text/html","etag":null,"last_modified":null,"fetched_at":"now"}}"#,
    );
    let error = decide(&answer, &url("https://example.com"), 1024, false, resolve).unwrap_err();
    assert!(matches!(error, FetchError::Protocol(message) if message.contains("SSRF")));
}

fn rendered(status: u16) -> ObscuraDocument {
    ObscuraDocument {
        html: "é".into(),
        js_executed: true,
        final_url: "end".into(),
        redirects: vec!["/a/b".into(), "c".into()],
        status,
        content_type: None,
        etag: None,
        last_modified: Some("then".into()),
        fetched_at: "now".into(),
    }
}

fn decide_document(doc: ObscuraDocument, max_body_bytes: usize) -> Result<FetchedDoc, FetchError> {
    let answer = ObscuraResponse { protocol_version: 1, result: ObscuraResult::Document(doc) };
    decide(&answer, &url("https://example.com/x"), max_body_bytes, false, resolve)
}

#[test]
fn rendered_documents_are_checked_in_order() {
    let doc = decide_document(rendered(200), 2).unwrap();
    assert_eq!((doc.final_url.as_str(), doc.html.as_str()), ("https://example.com/a/end", "é"));
    assert_eq!(doc.last_modified.as_deref(), Some("then"));
    let doc = decide_document(rendered(304), 2).unwrap();
    assert_eq!((doc.html.as_str(), doc.js_executed), ("", true));
    let message = |r: Result<FetchedDoc, FetchError>| r.map(|_| ()).map_err(|e| e.message());
    assert_eq!(
        message(decide_document(rendered(200), 1)),
        Err("protocol violation: Obscura body exceeds 1 bytes on https://example.com/x".into())
    );
    assert_eq!(
        message(decide_document(rendered(500), 9)),
        Err("protocol violation: unexpected Obscura status 500 on https://example.com/a/end".into())
    );
    assert!(matches!(decide_document(rendered(429), 9), Err(FetchError::AntiBot { .. })));
    let mut doc = rendered(200);
    doc.content_type = Some("image/png".into());
    assert_eq!(
        message(decide_document(doc, 9)),
        Err("protocol violation: unsupported Obscura content-type Some(\"image/png\") on https://example.com/x".into())
    );
    let mut doc = rendered(200);
    doc.fetched_at = String::new();
    assert_eq!(
        message(decide_document(doc, 9)),
        Err("protocol violation: Obscura response has an empty fetched_at".into())
    );
    let mut doc = rendered(200);
    doc.redirects.push("d".into());
    assert_eq!(
        message(decide_document(doc, 9)),
        Err("protocol violation: Obscura response exceeds the 2-redirect limit on https://example.com/x".into())
    );
    let mut doc = rendered(200);
    doc.redirects[1] = "mailto:x@y".into();
    assert_eq!(
        message(decide_document(doc, 9)),
        Err("protocol violation: unsupported scheme \"mailto\": only http/https are fetched".into())
    );
    let answer = ObscuraResponse { protocol_version: 2, result: ObscuraResult::Document(rendered(200)) };
    assert_eq!(
        message(decide(&answer, &url("https://example.com/x"), 9, false, resolve)),
        Err("protocol violation: unsupported Obscura protocol version 2".into())
    );
}

#[test]
fn provider_diagnostics_are_bounded() {
    assert_eq!(diagnostic(b"  oops \n"), "oops");
    assert_eq!(diagnostic(&[b'x'; 5000]).len(), 4096);
    assert_eq!(
        exit_failure("exit status: 1", b" bad ").message(),
        "protocol violation: Obscura exited with exit status: 1: bad"
    );
    let page = |status: u16| FetchedDoc {
        html: "User-agent: *\nDisallow: /x".into(),
        js_executed: false,
        final_url: String::new(),
        status,
        content_type: None,
        etag: None,
        last_modified: None,
        fetched_at: String::new(),
    };
    let rules = robots_outcome(&Ok(page(200)));
    assert!(rules.allows("/y") && !rules.allows("/x"));
    assert!(!robots_outcome(&Ok(page(404))).allows("/y"));
    assert!(robots_outcome(&Err(FetchError::NotFound { url: "u".into() })).allows("/x"));
    assert!(!robots_outcome(&Err(FetchError::Timeout { secs: 1 })).allows("/y"));
}

// The language model.

#[test]
fn error_classes_follow_the_taxonomy() {
    assert_eq!(LlmError::Unavailable("down".to_string()).class(), Class::Retry);
    assert_eq!(LlmError::RateLimited.class(), Class::Retry);
    assert_eq!(LlmError::InvalidResponse("x".into()).class(), Class::Permanent);
    assert_eq!(LlmError::RateLimited.message(), "llm rate limited");
    assert_eq!(LlmError::InvalidResponse("x".into()).message(), "llm response invalid: x");
    assert_eq!(LlmError::Unavailable("x".into()).message(), "llm endpoint unavailable: x");
}

fn completion(json_schema: Option<&str>) -> CompletionRequest {
    CompletionRequest {
        model: "gemma3:1b".to_string(),
        prompt: "x".to_string(),
        max_tokens: Some(5),
        temperature_bits: 0.0f32.to_bits(),
        json_schema: json_schema.map(str::to_string),
    }
}

#[test]
fn no_llm_never_completes() {
    let err = NoLlm.complete(&completion(None)).unwrap_err();
    assert!(matches!(err, LlmError::Unavailable(_)), "got {err:?}");
    assert_eq!(
        err.message(),
        "llm endpoint unavailable: no LLM provider is wired (graph_enabled = false, §6)"
    );
    assert_eq!(NoLlm.provider_name(), "none");
}

/// Decodes an answer of the endpoint.
fn decode_chat(body: &[u8]) -> Result<ChatResponse, String> {
    let value: serde_json::Value = serde_json::from_slice(body).map_err(|e| e.to_string())?;
    let choices = value["choices"].as_array().ok_or("missing field `choices`")?;
    Ok(ChatResponse {
        choices: choices
            .iter()
            .map(|c| c["message"]["content"].as_str().map(str::to_string))
            .collect(),
        usage: value["usage"].as_object().map(|u| Usage {
            prompt_tokens: u.get("prompt_tokens").and_then(|n| n.as_u64()),
            completion_tokens: u.get("completion_tokens").and_then(|n| n.as_u64()),
        }),
    })
}

#[test]
fn parses_a_wellformed_completion_response() {
    let body = r#"{
        "choices": [{"message": {"role": "assistant", "content": "{\"ok\": true}"}}],
        "usage": {"prompt_tokens": 12, "completion_tokens": 3}
    }"#;
    let parsed = parse_chat(&decode_chat(body.as_bytes())).unwrap();
    assert_eq!(parsed.text, "{\"ok\": true}");
    assert_eq!(parsed.prompt_tokens, 12);
    assert_eq!(parsed.completion_tokens, 3);
}

#[test]
fn maps_malformed_responses_to_invalid_response() {
    let err = parse_chat(&decode_chat(b"not json")).unwrap_err();
    assert!(matches!(err, LlmError::InvalidResponse(_)), "got {err:?}");
    assert_eq!(err.class(), Class::Permanent);

    let no_choices = r#"{"choices": [], "usage": null}"#;
    let err = parse_chat(&decode_chat(no_choices.as_bytes())).unwrap_err();
    assert!(matches!(err, LlmError::InvalidResponse(_)), "got {err:?}");

    let no_content = r#"{"choices": [{"message": {}}], "usage": null}"#;
    let err = parse_chat(&decode_chat(no_content.as_bytes())).unwrap_err();
    assert!(matches!(err, LlmError::InvalidResponse(_)), "got {err:?}");
}

#[test]
fn missing_usage_counts_zero() {
    let body = r#"{"choices": [{"message": {"content": "hi"}}], "usage": null}"#;
    let parsed = parse_chat(&decode_chat(body.as_bytes())).unwrap();
    assert_eq!((parsed.prompt_tokens, parsed.completion_tokens), (0, 0));
}

#[test]
fn completions_are_requested_and_mapped() {
    let request = chat_request(&completion(Some("{}")));
    assert_eq!((request.model.as_str(), request.role, request.content.as_str()), ("gemma3:1b", "user", "x"));
    assert_eq!(request.max_tokens, Some(5));
    let format = request.response_format.unwrap();
    assert_eq!((format.kind, format.name, format.strict), ("json_schema", "response", true));
    assert_eq!(format.schema, "{}");
    assert!(chat_request(&completion(None)).response_format.is_none());
    assert_eq!(
        endpoint_address("http://localhost:11434", COMPLETIONS_PATH),
        Ok("http://localhost:11434/v1/chat/completions".to_string())
    );
    assert_eq!(
        endpoint_address("nope", COMPLETIONS_PATH),
        Err(LlmError::Unavailable("base_url join failed: relative URL without a base".into()))
    );
    assert_eq!(probe_outcome(200), Ok(()));
    assert_eq!(probe_outcome(429), Err(LlmError::RateLimited));
    assert_eq!(
        probe_outcome(500),
        Err(LlmError::Unavailable("ollama health probe got HTTP 500".into()))
    );
    assert_eq!(completion_outcome(200, "m"), Ok(()));
    assert_eq!(completion_outcome(429, "m"), Err(LlmError::RateLimited));
    assert_eq!(
        completion_outcome(404, "m"),
        Err(LlmError::Unavailable("model \"m\" not found on the endpoint".into()))
    );
    assert_eq!(
        completion_outcome(500, "m"),
        Err(LlmError::Unavailable("completion endpoint answered HTTP 500".into()))
    );
}
