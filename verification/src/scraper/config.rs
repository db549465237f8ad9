//! Scraper process configuration.

use vstd::prelude::*;
use vstd::string::StringExecFns;

use super::ScraperError;
use crate::text::{
    chars_of, find_str, find_text, is_ascii_alnum, is_blank, lower_ascii, lowercase_ascii, opt_text,
    same, string_of, trim, trimmed,
};
use crate::web::{parse_url, url_error, url_parts};

verus! {

/// The endpoint of Bing News.
pub const DEFAULT_BING_NEWS_URL: &'static str = "https://www.bing.com/news/search";

/// The endpoint of Google News.
pub const DEFAULT_GOOGLE_NEWS_URL: &'static str = "https://news.google.com/rss/search";

/// The endpoint of Brave Search.
pub const DEFAULT_BRAVE_URL: &'static str = "https://api.search.brave.com/res/v1/web/search";

/// The endpoint of DuckDuckGo.
pub const DEFAULT_DUCKDUCKGO_URL: &'static str = "https://html.duckduckgo.com/html/";

/// The browser executable.
pub const DEFAULT_OBSCURA_BIN: &'static str = "obscura";

/// The search country.
pub const DEFAULT_SEARCH_COUNTRY: &'static str = "us";

/// The search language.
pub const DEFAULT_SEARCH_LANGUAGE: &'static str = "en";

/// Discovery provider selected for a scraper process.
#[derive(Clone, Copy, Debug, PartialEq, Eq, Structural)]
pub enum SearchKind {
    /// Bing News RSS.
    BingNews,
    /// Google News RSS.
    GoogleNews,
    /// Brave Search JSON API.
    Brave,
    /// DuckDuckGo HTML rendered by a browser.
    DuckDuckGo,
    /// A caller-provided RSS or Atom endpoint.
    Rss,
}

/// The provider of a name in lower case.
pub open spec fn kind_of(name: Seq<char>) -> Option<SearchKind> {
    if name == "bing"@ || name == "bing-news"@ {
        Some(SearchKind::BingNews)
    } else if name == "google"@ || name == "google-news"@ {
        Some(SearchKind::GoogleNews)
    } else if name == "brave"@ || name == "brave-search"@ {
        Some(SearchKind::Brave)
    } else if name == "ddg"@ || name == "duckduckgo"@ || name == "duck-duck-go"@ {
        Some(SearchKind::DuckDuckGo)
    } else if name == "rss"@ || name == "atom"@ || name == "custom-rss"@ {
        Some(SearchKind::Rss)
    } else {
        None
    }
}

/// The message for an unknown provider.
pub open spec fn unknown_provider(name: Seq<char>) -> Seq<char> {
    "unsupported search.provider '"@ + name
        + "'; expected bing-news, google-news, brave, duckduckgo, or rss"@
}

impl SearchKind {
    /// The provider of a name, whatever its case and the space around it.
    pub fn parse(value: &str) -> (res: Result<SearchKind, ScraperError>)
        ensures
            match kind_of(lower_ascii(trimmed(value@))) {
                Some(k) => res == Ok::<SearchKind, ScraperError>(k),
                None => res matches Err(ScraperError::Configuration(m)) && m@ == unknown_provider(
                    lower_ascii(trimmed(value@)),
                ),
            },
    {
        let name = lowercase_ascii(trim(value).as_str());
        let n = name.as_str();
        if same(n, "bing") || same(n, "bing-news") {
            Ok(SearchKind::BingNews)
        } else if same(n, "google") || same(n, "google-news") {
            Ok(SearchKind::GoogleNews)
        } else if same(n, "brave") || same(n, "brave-search") {
            Ok(SearchKind::Brave)
        } else if same(n, "ddg") || same(n, "duckduckgo") || same(n, "duck-duck-go") {
            Ok(SearchKind::DuckDuckGo)
        } else if same(n, "rss") || same(n, "atom") || same(n, "custom-rss") {
            Ok(SearchKind::Rss)
        } else {
            let mut s = "unsupported search.provider '".to_owned();
            s.append(n);
            s.append("'; expected bing-news, google-news, brave, duckduckgo, or rss");
            Err(ScraperError::Configuration(s))
        }
    }

    /// The built-in endpoint of the provider, where it has one.
    pub open spec fn endpoint(self) -> Option<Seq<char>> {
        match self {
            SearchKind::BingNews => Some(DEFAULT_BING_NEWS_URL@),
            SearchKind::GoogleNews => Some(DEFAULT_GOOGLE_NEWS_URL@),
            SearchKind::Brave => Some(DEFAULT_BRAVE_URL@),
            SearchKind::DuckDuckGo => Some(DEFAULT_DUCKDUCKGO_URL@),
            SearchKind::Rss => None,
        }
    }
}

/// The built-in endpoint of a provider, where it has one.
pub fn default_endpoint(kind: SearchKind) -> (res: Option<&'static str>)
    ensures
        match res {
            Some(s) => kind.endpoint() == Some(s@),
            None => kind.endpoint() is None,
        },
{
    match kind {
        SearchKind::BingNews => Some(DEFAULT_BING_NEWS_URL),
        SearchKind::GoogleNews => Some(DEFAULT_GOOGLE_NEWS_URL),
        SearchKind::Brave => Some(DEFAULT_BRAVE_URL),
        SearchKind::DuckDuckGo => Some(DEFAULT_DUCKDUCKGO_URL),
        SearchKind::Rss => None,
    }
}

/// Page fetcher selected for a scraper process.
#[derive(Clone, Debug)]
pub enum FetchKind {
    /// Fetch the response with the process HTTP client.
    Http,
    /// Render the page with a browser executable.
    Obscura {
        /// The executable.
        binary: String,
    },
}

/// Search provider settings.
#[derive(Clone, Debug)]
pub struct SearchConfig {
    /// Selected discovery provider.
    pub kind: SearchKind,
    /// Provider endpoint.
    pub endpoint: String,
    /// Optional Brave API credential.
    pub brave_api_key: Option<String>,
    /// Search country or region.
    pub country: String,
    /// Search language.
    pub language: String,
    /// Executable used by browser-backed discovery.
    pub obscura_binary: String,
}

/// Complete configuration for one scraper process.
#[derive(Clone, Debug)]
pub struct Config {
    /// Address on which the scraper HTTP process listens.
    pub bind: String,
    /// Search provider settings.
    pub search: SearchConfig,
    /// Page-fetch implementation.
    pub fetch: FetchKind,
}

/// The settings of a configuration file.
#[derive(Debug)]
pub struct FileConfig {
    /// The search provider.
    pub provider: String,
    /// Its endpoint.
    pub url: Option<String>,
    /// The country.
    pub country: String,
    /// The language.
    pub language: String,
    /// The Brave credential.
    pub brave_api_key: Option<String>,
    /// The page fetcher.
    pub fetcher: String,
    /// The browser executable.
    pub obscura_binary: String,
}

/// A setting that is not blank.
pub open spec fn filled(value: Option<Seq<char>>) -> Option<Seq<char>> {
    match value {
        Some(v) => if trimmed(v).len() == 0 {
            None
        } else {
            Some(v)
        },
        None => None,
    }
}

/// A setting that is not blank, else a default.
pub open spec fn filled_or(value: Seq<char>, default: Seq<char>) -> Seq<char> {
    match filled(Some(value)) {
        Some(v) => v,
        None => default,
    }
}

/// A setting that is not blank.
pub fn non_empty(value: &Option<String>) -> (res: Option<String>)
    ensures
        opt_text(res) == filled(opt_text(*value)),
{
    match value {
        Some(v) => if is_blank(v.as_str()) {
            None
        } else {
            Some(v.clone())
        },
        None => None,
    }
}

fn non_empty_or(value: &str, default: &str) -> (res: String)
    ensures
        res@ == filled_or(value@, default@),
{
    if is_blank(value) {
        default.to_owned()
    } else {
        value.to_owned()
    }
}

/// The endpoint in use: the one given, else the built-in one.
pub open spec fn endpoint_of(kind: SearchKind, url: Option<Seq<char>>) -> Option<Seq<char>> {
    match filled(url) {
        Some(u) => Some(u),
        None => kind.endpoint(),
    }
}

/// Whether a configuration holds the settings of a file.
pub open spec fn configured(
    file: FileConfig,
    bind: Seq<char>,
    kind: SearchKind,
    config: Config,
) -> bool {
    let binary = filled_or(file.obscura_binary@, DEFAULT_OBSCURA_BIN@);
    &&& config.bind@ == bind
    &&& config.search.kind == kind
    &&& Some(config.search.endpoint@) == endpoint_of(kind, opt_text(file.url))
    &&& opt_text(config.search.brave_api_key) == filled(opt_text(file.brave_api_key))
    &&& config.search.country@ == filled_or(file.country@, DEFAULT_SEARCH_COUNTRY@)
    &&& config.search.language@ == filled_or(file.language@, DEFAULT_SEARCH_LANGUAGE@)
    &&& config.search.obscura_binary@ == binary
    &&& if lower_ascii(trimmed(file.fetcher@)) == "http"@ {
        config.fetch is Http
    } else {
        config.fetch is Obscura && config.fetch->binary@ == binary
    }
}

fn failure(message: &str) -> (res: ScraperError)
    ensures
        res is Configuration,
        res->Configuration_0@ == message@,
{
    ScraperError::Configuration(message.to_owned())
}

impl Config {
    /// Validates the settings of a file. `bind` is the socket address, or why the one given is none.
    pub fn from_file(file: &FileConfig, bind: Result<String, String>) -> (res: Result<
        Config,
        ScraperError,
    >)
        ensures
            ({
                let name = lower_ascii(trimmed(file.provider@));
                let fetcher = lower_ascii(trimmed(file.fetcher@));
                match bind {
                    Err(e) => res matches Err(ScraperError::Configuration(m)) && m@
                        == "bind is not a valid socket address: "@ + e@,
                    Ok(address) => match kind_of(name) {
                        None => res matches Err(ScraperError::Configuration(m)) && m@
                            == unknown_provider(name),
                        Some(kind) => match endpoint_of(kind, opt_text(file.url)) {
                            None => res matches Err(ScraperError::Configuration(m)) && m@
                                == "search.url is required when search.provider is rss"@,
                            Some(endpoint) => if url_parts(endpoint) is None {
                                res matches Err(ScraperError::Configuration(m)) && m@
                                    == "search.url is not a valid URL: "@ + url_error(endpoint)
                            } else if kind == SearchKind::Brave && filled(
                                opt_text(file.brave_api_key),
                            ) is None {
                                res matches Err(ScraperError::Configuration(m)) && m@
                                    == "search.brave_api_key is required when search.provider is brave"@
                            } else if fetcher != "http"@ && fetcher != "obscura"@ {
                                res matches Err(ScraperError::Configuration(m)) && m@
                                    == "unsupported fetch.kind '"@ + fetcher
                                    + "'; expected http or obscura"@
                            } else {
                                res matches Ok(config) && configured(
                                    *file,
                                    address@,
                                    kind,
                                    config,
                                )
                            },
                        },
                    },
                }
            }),
    {
        let bind = match bind {
            Ok(address) => address,
            Err(e) => {
                let mut s = "bind is not a valid socket address: ".to_owned();
                s.append(e.as_str());
                return Err(ScraperError::Configuration(s));
            },
        };
        let kind = match SearchKind::parse(file.provider.as_str()) {
            Ok(kind) => kind,
            Err(e) => {
                return Err(e);
            },
        };
        let endpoint = match non_empty(&file.url) {
            Some(endpoint) => endpoint,
            None => match default_endpoint(kind) {
                Some(endpoint) => endpoint.to_owned(),
                None => {
                    return Err(failure("search.url is required when search.provider is rss"));
                },
            },
        };
        if let Err(e) = parse_url(endpoint.as_str()) {
            let mut s = "search.url is not a valid URL: ".to_owned();
            s.append(e.as_str());
            return Err(ScraperError::Configuration(s));
        }
        let brave_api_key = non_empty(&file.brave_api_key);
        if kind == SearchKind::Brave && brave_api_key.is_none() {
            return Err(
                failure("search.brave_api_key is required when search.provider is brave"),
            );
        }
        let country = non_empty_or(file.country.as_str(), DEFAULT_SEARCH_COUNTRY);
        let language = non_empty_or(file.language.as_str(), DEFAULT_SEARCH_LANGUAGE);
        let obscura_binary = non_empty_or(file.obscura_binary.as_str(), DEFAULT_OBSCURA_BIN);
        let fetcher = lowercase_ascii(trim(file.fetcher.as_str()).as_str());
        let fetch = if same(fetcher.as_str(), "http") {
            FetchKind::Http
        } else if same(fetcher.as_str(), "obscura") {
            FetchKind::Obscura { binary: obscura_binary.clone() }
        } else {
            let mut s = "unsupported fetch.kind '".to_owned();
            s.append(fetcher.as_str());
            s.append("'; expected http or obscura");
            return Err(ScraperError::Configuration(s));
        };
        Ok(
            Config {
                bind,
                search: SearchConfig {
                    kind,
                    endpoint,
                    brave_api_key,
                    country,
                    language,
                    obscura_binary,
                },
                fetch,
            },
        )
    }
}

// ---------------------------------------------------------------------------------------------
// Environment expressions.
// ---------------------------------------------------------------------------------------------
/// The model of an environment.
pub open spec fn env_views(env: Seq<(String, String)>) -> Seq<(Seq<char>, Seq<char>)> {
    env.map_values(|p: (String, String)| (p.0@, p.1@))
}

/// The value of a variable that is set and not empty.
pub open spec fn env_value(env: Seq<(Seq<char>, Seq<char>)>, name: Seq<char>) -> Option<Seq<char>>
    decreases env.len(),
{
    if env.len() == 0 {
        None
    } else if env[0].0 == name {
        if env[0].1.len() == 0 {
            None
        } else {
            Some(env[0].1)
        }
    } else {
        env_value(env.drop_first(), name)
    }
}

/// Whether a text names a variable.
pub open spec fn is_variable(name: Seq<char>) -> bool {
    name.len() > 0 && forall|i: int|
        0 <= i < name.len() ==> is_ascii_alnum(#[trigger] name[i]) || name[i] == '_'
}

/// The name and the fallback of an expression.
pub open spec fn expression_parts(body: Seq<char>) -> (Seq<char>, Option<Seq<char>>) {
    match find_text(body, ":-"@, 0) {
        Some(at) => (body.take(at), Some(body.skip(at + ":-"@.len()))),
        None => (body, None),
    }
}

/// What an expression stands for, or why it stands for nothing.
pub open spec fn expression_value(env: Seq<(Seq<char>, Seq<char>)>, body: Seq<char>) -> Result<
    Seq<char>,
    Seq<char>,
> {
    let (name, fallback) = expression_parts(body);
    if !is_variable(name) {
        Err("invalid environment variable expression '${"@ + body + "}'"@)
    } else {
        match env_value(env, name) {
            Some(v) => Ok(v),
            None => match fallback {
                Some(f) => Ok(f),
                None => Err("environment variable '"@ + name + "' is not set"@),
            },
        }
    }
}

/// A text with its `${NAME}` and `${NAME:-fallback}` expressions replaced, or why that fails.
pub open spec fn expanded(env: Seq<(Seq<char>, Seq<char>)>, source: Seq<char>) -> Result<
    Seq<char>,
    Seq<char>,
>
    decreases source.len(),
    via expanded_decreases
{
    match find_text(source, "${"@, 0) {
        None => Ok(source),
        Some(start) => {
            let expression = source.skip(start + "${"@.len());
            match find_text(expression, "}"@, 0) {
                None => Err("unterminated ${...} in scraper config"@),
                Some(end) => match expression_value(env, expression.take(end)) {
                    Err(e) => Err(e),
                    Ok(value) => match expanded(env, expression.skip(end + 1)) {
                        Err(e) => Err(e),
                        Ok(rest) => Ok(source.take(start) + value + rest),
                    },
                },
            }
        },
    }
}

#[via_fn]
proof fn expanded_decreases(env: Seq<(Seq<char>, Seq<char>)>, source: Seq<char>) {
    crate::text::lemma_find_text(source, "${"@, 0);
    reveal_strlit("${");
    reveal_strlit("}");
    if let Some(start) = find_text(source, "${"@, 0) {
        crate::text::lemma_find_text(source.skip(start + "${"@.len()), "}"@, 0);
    }
}

fn look_up(env: &Vec<(String, String)>, name: &str) -> (res: Option<String>)
    ensures
        opt_text(res) == env_value(env_views(env@), name@),
{
    let ghost all = env_views(env@);
    assert(all.skip(0) =~= all);
    let mut i: usize = 0;
    while i < env.len()
        invariant
            i <= env@.len(),
            all == env_views(env@),
            env_value(all, name@) == env_value(all.skip(i as int), name@),
        decreases env@.len() - i,
    {
        let pair = &env[i];
        assert(all.skip(i as int)[0] == (pair.0@, pair.1@));
        assert(all.skip(i as int).drop_first() =~= all.skip(i + 1));
        if same(pair.0.as_str(), name) {
            if pair.1.as_str().is_empty() {
                return None;
            }
            return Some(pair.1.clone());
        }
        i = i + 1;
    }
    None
}

fn names_variable(name: &str) -> (res: bool)
    ensures
        res == is_variable(name@),
{
    let v = chars_of(name);
    let mut i: usize = 0;
    while i < v.len()
        invariant
            i <= v@.len(),
            v@ == name@,
            forall|j: int| 0 <= j < i ==> is_ascii_alnum(#[trigger] v@[j]) || v@[j] == '_',
        decreases v@.len() - i,
    {
        let c = v[i];
        let plain = ('a' <= c && c <= 'z') || ('A' <= c && c <= 'Z') || ('0' <= c && c <= '9')
            || c == '_';
        if !plain {
            assert(!(is_ascii_alnum(name@[i as int]) || name@[i as int] == '_'));
            return false;
        }
        i = i + 1;
    }
    v.len() > 0
}

fn evaluate(env: &Vec<(String, String)>, body: &str) -> (res: Result<String, String>)
    ensures
        match res {
            Ok(s) => expression_value(env_views(env@), body@) == Ok::<Seq<char>, Seq<char>>(s@),
            Err(e) => expression_value(env_views(env@), body@) == Err::<Seq<char>, Seq<char>>(e@),
        },
{
    let chars = chars_of(body);
    let n: usize = chars.len();
    let mark = chars_of(":-");
    let (name, fallback) = match find_str(chars.as_slice(), mark.as_slice(), 0) {
        Some(at) => {
            let name = string_of(chars.as_slice(), 0, at);
            let from: usize = at + mark.len();
            let rest = string_of(chars.as_slice(), from, n);
            assert(name@ =~= body@.take(at as int));
            assert(rest@ =~= body@.skip(at + ":-"@.len()));
            (name, Some(rest))
        },
        None => (body.to_owned(), None),
    };
    if !names_variable(name.as_str()) {
        let mut s = "invalid environment variable expression '${".to_owned();
        s.append(body);
        s.append("}'");
        return Err(s);
    }
    match look_up(env, name.as_str()) {
        Some(v) => Ok(v),
        None => match fallback {
            Some(f) => Ok(f),
            None => {
                let mut s = "environment variable '".to_owned();
                s.append(name.as_str());
                s.append("' is not set");
                Err(s)
            },
        },
    }
}

/// Whether a result is what expanding gives.
pub open spec fn expands_to(
    env: Seq<(Seq<char>, Seq<char>)>,
    source: Seq<char>,
    res: Result<String, ScraperError>,
) -> bool {
    match expanded(env, source) {
        Ok(s) => res matches Ok(t) && t@ == s,
        Err(e) => res matches Err(ScraperError::Configuration(m)) && m@ == e,
    }
}

/// Replaces the `${NAME}` and `${NAME:-fallback}` expressions of a text by the values of the
/// environment.
pub fn expand_environment(source: &str, env: &Vec<(String, String)>) -> (res: Result<
    String,
    ScraperError,
>)
    ensures
        expands_to(env_views(env@), source@, res),
{
    let ghost vars = env_views(env@);
    let open = chars_of("${");
    let close = chars_of("}");
    let chars = chars_of(source);
    let n: usize = chars.len();
    let mut done = String::new();
    let mut from: usize = 0;
    proof {
        reveal_strlit("${");
        reveal_strlit("}");
        assert(source@.skip(0) =~= source@);
    }
    loop
        invariant
            from <= n == chars@.len(),
            chars@ == source@,
            vars == env_views(env@),
            open@ == "${"@,
            close@ == "}"@,
            open@.len() == 2,
            close@.len() == 1,
            match expanded(vars, source@.skip(from as int)) {
                Ok(rest) => expanded(vars, source@) == Ok::<Seq<char>, Seq<char>>(done@ + rest),
                Err(e) => expanded(vars, source@) == Err::<Seq<char>, Seq<char>>(e),
            },
        decreases n - from,
    {
        let rest = string_of(chars.as_slice(), from, n);
        assert(rest@ =~= source@.skip(from as int));
        let rest_chars = chars_of(rest.as_str());
        let m: usize = rest_chars.len();
        match find_str(rest_chars.as_slice(), open.as_slice(), 0) {
            None => {
                done.append(rest.as_str());
                return Ok(done);
            },
            Some(start) => {
                let after: usize = start + 2;
                let expression = string_of(rest_chars.as_slice(), after, m);
                assert(expression@ =~= rest@.skip(start + 2));
                let expression_chars = chars_of(expression.as_str());
                match find_str(expression_chars.as_slice(), close.as_slice(), 0) {
                    None => {
                        return Err(failure("unterminated ${...} in scraper config"));
                    },
                    Some(end) => {
                        let body = string_of(expression_chars.as_slice(), 0, end);
                        assert(body@ =~= expression@.take(end as int));
                        match evaluate(env, body.as_str()) {
                            Err(e) => {
                                return Err(ScraperError::Configuration(e));
                            },
                            Ok(value) => {
                                let head = string_of(rest_chars.as_slice(), 0, start);
                                assert(head@ =~= rest@.take(start as int));
                                let ghost before = done@;
                                done.append(head.as_str());
                                done.append(value.as_str());
                                from = from + start + 2 + end + 1;
                                proof {
                                    assert(source@.skip(from as int) =~= expression@.skip(
                                        end + 1,
                                    ));
                                    match expanded(vars, source@.skip(from as int)) {
                                        Ok(tail) => {
                                            assert(done@ + tail =~= before + (head@ + value@
                                                + tail));
                                        },
                                        Err(_) => {},
                                    }
                                }
                            },
                        }
                    },
                }
            },
        }
    }
}

/// A text without expressions is left as it is.
pub proof fn law_plain_text_is_kept(env: Seq<(Seq<char>, Seq<char>)>, source: Seq<char>)
    requires
        find_text(source, "${"@, 0) is None,
    ensures
        expanded(env, source) == Ok::<Seq<char>, Seq<char>>(source),
{
}

} // verus!
