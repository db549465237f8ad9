//! Topic discovery: the request to the news search and the reading of its feed.

use vstd::prelude::*;
use vstd::string::StringExecFns;

use super::{normal_form, NormalizedUrl};
use crate::feed::{next_article, outside, xml_events, Dialect, EventView, FeedReader, Next};
use crate::feed::lemma_article_advances;
use crate::links::{bing_destination, news_target};
use crate::text::{decimal, decimal_string, same, trim, trimmed};
use crate::web::{append_pairs, pair_views, parse_url, url_error, url_parts, with_pairs, UrlView};

verus! {

/// The news search.
pub const BING_NEWS_ENDPOINT: &'static str = "https://www.bing.com/news/search";

/// The largest response that is read.
pub const MAX_RESPONSE_BYTES: usize = 2_097_152;

/// One result returned by a topic search.
#[derive(Debug)]
pub struct TopicResult {
    /// The title supplied by the search provider.
    pub title: String,
    /// The validated and normalized article URL.
    pub url: NormalizedUrl,
}

/// Network failures and malformed provider responses from topic search.
#[derive(Debug, Clone, PartialEq, Eq)]
pub enum TopicSearchError {
    /// The search provider could not be reached or returned a non-success status.
    Unavailable(String),
    /// The provider response could not be decoded into usable search results.
    InvalidResponse(String),
}

impl TopicSearchError {
    /// The message of the error.
    pub open spec fn text(self) -> Seq<char> {
        match self {
            TopicSearchError::Unavailable(m) => "topic search unavailable: "@ + m@,
            TopicSearchError::InvalidResponse(m) => "topic search returned an invalid response: "@
                + m@,
        }
    }

    /// The message of the error.
    pub fn message(&self) -> (res: String)
        ensures
            res@ == self.text(),
    {
        match self {
            TopicSearchError::Unavailable(m) => {
                let mut s = "topic search unavailable: ".to_owned();
                s.append(m.as_str());
                s
            },
            TopicSearchError::InvalidResponse(m) => {
                let mut s = "topic search returned an invalid response: ".to_owned();
                s.append(m.as_str());
                s
            },
        }
    }
}

/// The parameters of a search.
pub open spec fn search_pairs(topic: Seq<char>) -> Seq<(Seq<char>, Seq<char>)> {
    seq![("q"@, topic), ("format"@, "rss"@)]
}

/// The address of a search for a topic.
pub fn search_address(topic: &str) -> (res: Result<String, TopicSearchError>)
    ensures
        if url_parts(BING_NEWS_ENDPOINT@) is Some {
            res matches Ok(s) && s@ == with_pairs(BING_NEWS_ENDPOINT@, search_pairs(topic@))
        } else {
            res matches Err(TopicSearchError::InvalidResponse(m)) && m@
                == "invalid search endpoint: "@ + url_error(BING_NEWS_ENDPOINT@)
        },
{
    match parse_url(BING_NEWS_ENDPOINT) {
        Err(e) => {
            let mut s = "invalid search endpoint: ".to_owned();
            s.append(e.as_str());
            Err(TopicSearchError::InvalidResponse(s))
        },
        Ok(_) => {
            let mut pairs: Vec<(String, String)> = Vec::new();
            pairs.push(("q".to_owned(), topic.to_owned()));
            pairs.push(("format".to_owned(), "rss".to_owned()));
            assert(pair_views(pairs@) =~= search_pairs(topic@));
            Ok(append_pairs(BING_NEWS_ENDPOINT, &pairs))
        },
    }
}

/// Accepts a response of the search provider: its status must tell of success, and its body must
/// not be too large. `status` is the status as a text.
pub fn check_response(success: bool, status: &str, size: usize) -> (res: Result<
    (),
    TopicSearchError,
>)
    ensures
        if !success {
            res matches Err(TopicSearchError::Unavailable(m)) && m@
                == "search provider returned HTTP "@ + status@
        } else if size > MAX_RESPONSE_BYTES {
            res matches Err(TopicSearchError::InvalidResponse(m)) && m@ == "response exceeded "@
                + decimal(MAX_RESPONSE_BYTES as nat) + " bytes"@
        } else {
            res is Ok
        },
{
    if !success {
        let mut s = "search provider returned HTTP ".to_owned();
        s.append(status);
        return Err(TopicSearchError::Unavailable(s));
    }
    if size > MAX_RESPONSE_BYTES {
        let mut s = "response exceeded ".to_owned();
        s.append(decimal_string(MAX_RESPONSE_BYTES as u64).as_str());
        s.append(" bytes");
        return Err(TopicSearchError::InvalidResponse(s));
    }
    Ok(())
}

/// The destination of a link: what is behind it, else the link itself.
pub open spec fn article_address(link: Seq<char>) -> Seq<char> {
    match news_target(trimmed(link)) {
        Some(d) => d,
        None => trimmed(link),
    }
}

/// The title and the normalized address of an article; none where the title is blank or the address
/// cannot be fetched.
pub open spec fn article_of(title: Seq<char>, link: Seq<char>) -> Option<(Seq<char>, UrlView)> {
    if trimmed(title).len() == 0 {
        None
    } else {
        match url_parts(article_address(link)) {
            None => None,
            Some(v) => if v.is_web() {
                Some((trimmed(title), UrlView { href: normal_form(v.href), ..v }))
            } else {
                None
            },
        }
    }
}

/// The result of an article.
pub fn build_result(title: &str, link: &str) -> (res: Option<TopicResult>)
    ensures
        match res {
            Some(r) => article_of(title@, link@) == Some((r.title@, r.url@)),
            None => article_of(title@, link@) is None,
        },
{
    let title = trim(title);
    if title.as_str().is_empty() {
        return None;
    }
    let link = trim(link);
    let destination = match bing_destination(link.as_str()) {
        Some(d) => d,
        None => link,
    };
    match NormalizedUrl::parse(destination.as_str()) {
        Ok(url) => Some(TopicResult { title, url }),
        Err(_) => None,
    }
}

/// The titles and addresses of results.
pub open spec fn result_views(results: Seq<TopicResult>) -> Seq<(Seq<char>, UrlView)> {
    results.map_values(|r: TopicResult| (r.title@, r.url@))
}

/// Whether an address is among results.
pub open spec fn seen(results: Seq<(Seq<char>, UrlView)>, href: Seq<char>) -> bool {
    exists|i: int| 0 <= i < results.len() && (#[trigger] results[i]).1.href == href
}

/// The results once an article was read: an address counts once.
pub open spec fn with_article(
    results: Seq<(Seq<char>, UrlView)>,
    title: Seq<char>,
    link: Seq<char>,
) -> Seq<(Seq<char>, UrlView)> {
    match article_of(title, link) {
        Some(a) => if seen(results, a.1.href) {
            results
        } else {
            results.push(a)
        },
        None => results,
    }
}

/// The results of a feed, up to a limit; an error where the feed cannot be read that far.
pub open spec fn results_of(
    events: Seq<EventView>,
    limit: nat,
    results: Seq<(Seq<char>, UrlView)>,
) -> Result<Seq<(Seq<char>, UrlView)>, Seq<char>>
    decreases events.len(),
    via results_of_decreases
{
    if results.len() >= limit {
        Ok(results)
    } else {
        match next_article(Dialect::News, outside(), events) {
            Next::End => Ok(results),
            Next::Failed(e) => Err(e),
            Next::Article(title, link, rest) => results_of(
                rest,
                limit,
                with_article(results, title, link),
            ),
        }
    }
}

#[via_fn]
proof fn results_of_decreases(
    events: Seq<EventView>,
    limit: nat,
    results: Seq<(Seq<char>, UrlView)>,
) {
    lemma_article_advances(Dialect::News, outside(), events);
}

fn is_seen(results: &Vec<TopicResult>, href: &str) -> (res: bool)
    ensures
        res == seen(result_views(results@), href@),
{
    let ghost all = result_views(results@);
    let mut i: usize = 0;
    while i < results.len()
        invariant
            i <= results@.len(),
            all == result_views(results@),
            forall|j: int| 0 <= j < i ==> (#[trigger] all[j]).1.href != href@,
        decreases results@.len() - i,
    {
        assert(all[i as int] == (results@[i as int].title@, results@[i as int].url@));
        if same(results[i].url.as_str(), href) {
            return true;
        }
        i = i + 1;
    }
    false
}

/// Reads up to `limit` results out of a feed, each address once.
pub fn parse_rss(body: &[u8], limit: usize) -> (res: Result<Vec<TopicResult>, TopicSearchError>)
    ensures
        match results_of(xml_events(body@), limit as nat, seq![]) {
            Ok(found) => res matches Ok(v) && result_views(v@) == found,
            Err(e) => res matches Err(TopicSearchError::InvalidResponse(m)) && m@ == e,
        },
{
    let mut reader = FeedReader::new(body, Dialect::News);
    let mut results: Vec<TopicResult> = Vec::new();
    let ghost goal = results_of(xml_events(body@), limit as nat, seq![]);
    assert(result_views(results@) =~= seq![]);
    while results.len() < limit
        invariant
            reader.kind() == Dialect::News,
            goal == results_of(xml_events(body@), limit as nat, seq![]),
            goal == results_of(reader.ahead(), limit as nat, result_views(results@)),
        decreases reader.ahead().len(),
    {
        let ghost before = result_views(results@);
        proof {
            lemma_article_advances(Dialect::News, outside(), reader.ahead());
        }
        match reader.next() {
            Err(e) => {
                return Err(TopicSearchError::InvalidResponse(e));
            },
            Ok(None) => {
                return Ok(results);
            },
            Ok(Some(article)) => {
                if let Some(result) = build_result(article.title.as_str(), article.link.as_str()) {
                    if !is_seen(&results, result.url.as_str()) {
                        let ghost added = (result.title@, result.url@);
                        results.push(result);
                        assert(result_views(results@) =~= before.push(added));
                    }
                }
            },
        }
    }
    Ok(results)
}

/// Results are unique by address, and there are no more of them than were asked for.
pub proof fn law_results_are_unique_and_bounded(
    events: Seq<EventView>,
    limit: nat,
    results: Seq<(Seq<char>, UrlView)>,
)
    requires
        forall|i: int, j: int|
            0 <= i < j < results.len() ==> (#[trigger] results[i]).1.href != (
            #[trigger] results[j]).1.href,
        results.len() <= limit,
    ensures
        results_of(events, limit, results) matches Ok(found) ==> found.len() <= limit && (forall|
            i: int,
            j: int,
        |
            0 <= i < j < found.len() ==> (#[trigger] found[i]).1.href != (
            #[trigger] found[j]).1.href),
    decreases events.len(),
{
    if results.len() < limit {
        lemma_article_advances(Dialect::News, outside(), events);
        if let Next::Article(title, link, rest) = next_article(Dialect::News, outside(), events) {
            let more = with_article(results, title, link);
            assert forall|i: int, j: int| 0 <= i < j < more.len() implies (
            #[trigger] more[i]).1.href != (#[trigger] more[j]).1.href by {
                assert(more[i] == results[i]);
                if j < results.len() {
                    assert(more[j] == results[j]);
                }
            }
            law_results_are_unique_and_bounded(rest, limit, more);
        }
    }
}

/// What is made of an article: its title, trimmed, and the normal form of the address behind its link; an
/// article with a blank title or an address that is none of the web is left out, and one whose address
/// was found already too. No other is.
pub proof fn law_articles_become_results(
    title: &str,
    link: &str,
    res: Option<TopicResult>,
    results: Seq<(Seq<char>, UrlView)>,
    v: UrlView,
)
    requires
        call_ensures(build_result, (title, link), res),
        news_target(trimmed(link@)) is None,
        url_parts(trimmed(link@)) == Some(v),
    ensures
        res is Some <==> trimmed(title@).len() > 0 && (v.scheme == "http"@ || v.scheme == "https"@),
        res matches Some(r) ==> r.title@ == trimmed(title@) && r.url@.scheme == v.scheme && r.url@.host
            == v.host && r.url@.href == normal_form(v.href),
        res is None ==> with_article(results, title@, link@) == results,
        res matches Some(r) ==> {
            let after = with_article(results, title@, link@);
            &&& (forall|i: int| 0 <= i < results.len() ==> (#[trigger] results[i]).1.href != r.url@.href)
                ==> after == results.push((r.title@, r.url@))
            &&& (exists|i: int| 0 <= i < results.len() && (#[trigger] results[i]).1.href == r.url@.href)
                ==> after == results
        },
{
}

} // verus!
