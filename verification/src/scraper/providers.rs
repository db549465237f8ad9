//! Search discovery: requests to the providers and the reading of their results.

use vstd::prelude::*;
use vstd::string::StringExecFns;

use super::config::{SearchConfig, SearchKind};
use super::{ScraperError, TopicResult, MAX_DOCUMENT_BYTES, MAX_RSS_BYTES};
use crate::feed::{next_article, outside, xml_events, Dialect, EventView, FeedReader, Next};
use crate::feed::lemma_article_advances;
use crate::links::{redirect_destination, redirect_target};
use crate::text::{
    decimal, decimal_string, has_prefix, lower_ascii, lowercase_ascii, opt_text, same, starts_with,
    trim, trimmed, upper_ascii, uppercase_ascii,
};
use crate::web::{
    append_pairs, drop_fragment, encode_pairs, encoded_pairs, is_web_scheme, opt_ref, pair_views,
    parse_url, query_of, query_pairs, replace_query, serializes, unfragmented, url_error,
    url_parts, with_pairs, with_query, UrlView,
};

verus! {

/// Whether a parameter of a result is dropped: the `utm_` family in any case, and `fbclid`.
pub open spec fn dropped(key: Seq<char>) -> bool {
    has_prefix(lower_ascii(key), "utm_"@) || key == "fbclid"@
}

/// The parameters of a result that stay.
pub open spec fn retained(pairs: Seq<(Seq<char>, Seq<char>)>) -> Seq<(Seq<char>, Seq<char>)> {
    pairs.filter(|p: (Seq<char>, Seq<char>)| !dropped(p.0))
}

/// The query of the parameters that stay; none where none stays.
pub open spec fn retained_query(pairs: Seq<(Seq<char>, Seq<char>)>) -> Option<Seq<char>> {
    if retained(pairs).len() == 0 {
        None
    } else {
        Some(encoded_pairs(retained(pairs)))
    }
}

/// The address of a result without its fragment and the parameters that are dropped.
pub open spec fn result_address(href: Seq<char>) -> Seq<char> {
    let bare = unfragmented(href);
    with_query(bare, retained_query(query_of(bare)))
}

/// The normalized address of a result: none where it cannot be fetched.
pub open spec fn result_url(raw: Seq<char>) -> Option<Seq<char>> {
    match url_parts(raw) {
        None => None,
        Some(v) => if v.is_web() && v.host is Some {
            Some(result_address(v.href))
        } else {
            None
        },
    }
}

fn retain(pairs: &Vec<(String, String)>) -> (res: Vec<(String, String)>)
    ensures
        pair_views(res@) == retained(pair_views(pairs@)),
{
    let ghost all = pair_views(pairs@);
    let ghost keep = |p: (Seq<char>, Seq<char>)| !dropped(p.0);
    let mut res: Vec<(String, String)> = Vec::new();
    let mut i: usize = 0;
    assert(pair_views(res@) =~= all.take(0).filter(keep)) by {
        reveal(Seq::filter);
    }
    while i < pairs.len()
        invariant
            i <= pairs@.len(),
            all == pair_views(pairs@),
            keep == (|p: (Seq<char>, Seq<char>)| !dropped(p.0)),
            pair_views(res@) == all.take(i as int).filter(keep),
        decreases pairs@.len() - i,
    {
        let pair = &pairs[i];
        let ghost before = pair_views(res@);
        proof {
            reveal(Seq::filter);
            assert(all.take(i + 1).drop_last() =~= all.take(i as int));
            assert(all.take(i + 1).last() == (pair.0@, pair.1@));
        }
        let lower = lowercase_ascii(pair.0.as_str());
        if !starts_with(lower.as_str(), "utm_") && !same(pair.0.as_str(), "fbclid") {
            let copy = (pair.0.clone(), pair.1.clone());
            res.push(copy);
            assert(pair_views(res@) =~= before.push((pair.0@, pair.1@)));
        }
        i = i + 1;
    }
    assert(all.take(i as int) =~= all);
    res
}

/// Normalizes the address of a result. Only `http` and `https` addresses with a host are accepted.
pub fn normalize_url(raw: &str) -> (res: Result<String, ScraperError>)
    ensures
        match url_parts(raw@) {
            None => res matches Err(ScraperError::InvalidResponse(m)) && m@ == url_error(raw@),
            Some(v) => if v.is_web() && v.host is Some {
                res matches Ok(s) && s@ == result_address(v.href) && result_url(s@) == Some(s@)
            } else {
                res matches Err(ScraperError::InvalidResponse(m)) && m@
                    == "result URL is not fetchable"@
            },
        },
{
    let parts = match parse_url(raw) {
        Ok(parts) => parts,
        Err(e) => {
            return Err(ScraperError::InvalidResponse(e));
        },
    };
    if !is_web_scheme(parts.scheme.as_str()) || parts.host.is_none() {
        return Err(ScraperError::InvalidResponse("result URL is not fetchable".to_owned()));
    }
    let ghost v = parts@;
    let bare = drop_fragment(parts.href.as_str());
    assert(serializes(bare@, (UrlView { href: bare@, ..v })));
    let pairs = query_pairs(bare.as_str());
    let kept = retain(&pairs);
    let ghost all = query_of(bare@);
    let encoded = encode_pairs(&kept);
    let query = if kept.len() == 0 {
        None
    } else {
        Some(encoded.as_str())
    };
    assert(pair_views(kept@).len() == kept@.len());
    assert(opt_ref(query) == retained_query(all));
    let res = replace_query(bare.as_str(), query);
    proof {
        assert(serializes(res@, (UrlView { href: res@, ..v })));
        if query is None {
            assert(pair_views(kept@) =~= seq![]);
        }
        assert(query_of(res@) =~= retained(all));
        lemma_retained_again(all);
        assert(retained_query(query_of(res@)) == retained_query(all));
        assert(result_address(res@) == res@);
    }
    Ok(res)
}

/// Dropping parameters a second time drops nothing.
proof fn lemma_retained_again(pairs: Seq<(Seq<char>, Seq<char>)>)
    ensures
        retained(retained(pairs)) == retained(pairs),
{
    let keep = |p: (Seq<char>, Seq<char>)| !dropped(p.0);
    let places = crate::rows::lemma_filter_places(pairs, keep);
    let k = retained(pairs);
    assert forall|i: int| 0 <= i < k.len() implies keep(#[trigger] k[i]) by {
        assert(pairs[places[i]] == k[i]);
    }
    crate::rows::lemma_filter_all(k, keep);
}

/// The titles and addresses of results.
pub open spec fn topic_views(results: Seq<TopicResult>) -> Seq<(Seq<char>, Seq<char>)> {
    results.map_values(|r: TopicResult| (r.title@, r.url@))
}

/// Whether an address is among results.
pub open spec fn listed(results: Seq<(Seq<char>, Seq<char>)>, url: Seq<char>) -> bool {
    exists|i: int| 0 <= i < results.len() && (#[trigger] results[i]).1 == url
}

/// The results once one more was found: it needs a title and an address that can be fetched, and an
/// address counts once.
pub open spec fn with_result(
    results: Seq<(Seq<char>, Seq<char>)>,
    title: Seq<char>,
    link: Seq<char>,
) -> Seq<(Seq<char>, Seq<char>)> {
    match result_url(redirect_target(link)) {
        None => results,
        Some(url) => if trimmed(title).len() == 0 || listed(results, url) {
            results
        } else {
            results.push((trimmed(title), url))
        },
    }
}

/// The first results of a list, up to a limit.
pub open spec fn first_results(
    found: Seq<(Seq<char>, Seq<char>)>,
    limit: nat,
    results: Seq<(Seq<char>, Seq<char>)>,
) -> Seq<(Seq<char>, Seq<char>)>
    decreases found.len(),
{
    if found.len() == 0 || results.len() >= limit {
        results
    } else {
        first_results(
            found.drop_first(),
            limit,
            with_result(results, found[0].0, found[0].1),
        )
    }
}

fn is_listed(results: &Vec<TopicResult>, url: &str) -> (res: bool)
    ensures
        res == listed(topic_views(results@), url@),
{
    let ghost all = topic_views(results@);
    let mut i: usize = 0;
    while i < results.len()
        invariant
            i <= results@.len(),
            all == topic_views(results@),
            forall|j: int| 0 <= j < i ==> (#[trigger] all[j]).1 != url@,
        decreases results@.len() - i,
    {
        assert(all[i as int] == (results@[i as int].title@, results@[i as int].url@));
        if same(results[i].url.as_str(), url) {
            return true;
        }
        i = i + 1;
    }
    false
}

fn add_result(results: &mut Vec<TopicResult>, title: &str, link: &str)
    ensures
        topic_views(final(results)@) == with_result(topic_views(old(results)@), title@, link@),
{
    let ghost before = topic_views(results@);
    let target = redirect_destination(link);
    match normalize_url(target.as_str()) {
        Err(_) => {},
        Ok(url) => {
            let title = trim(title);
            if !title.as_str().is_empty() && !is_listed(results, url.as_str()) {
                let ghost added = (title@, url@);
                results.push(TopicResult { title, url });
                assert(topic_views(results@) =~= before.push(added));
            }
        },
    }
}

/// Normalizes up to `limit` results: without blank titles, without addresses that cannot be fetched,
/// each address once.
pub fn normalize_results(found: &Vec<TopicResult>, limit: usize) -> (res: Vec<TopicResult>)
    ensures
        topic_views(res@) == first_results(topic_views(found@), limit as nat, seq![]),
{
    let ghost all = topic_views(found@);
    let ghost goal = first_results(all, limit as nat, seq![]);
    let mut results: Vec<TopicResult> = Vec::new();
    let mut i: usize = 0;
    assert(topic_views(results@) =~= seq![]);
    assert(all.skip(0) =~= all);
    while i < found.len() && results.len() < limit
        invariant
            i <= found@.len(),
            all == topic_views(found@),
            goal == first_results(all.skip(i as int), limit as nat, topic_views(results@)),
        decreases found@.len() - i,
    {
        assert(all.skip(i as int)[0] == (found@[i as int].title@, found@[i as int].url@));
        assert(all.skip(i as int).drop_first() =~= all.skip(i + 1));
        add_result(&mut results, found[i].title.as_str(), found[i].url.as_str());
        i = i + 1;
    }
    assert(topic_views(results@).len() == results@.len());
    results
}

/// The results of a feed, up to a limit; an error where the feed cannot be read that far.
pub open spec fn feed_results(
    events: Seq<EventView>,
    limit: nat,
    results: Seq<(Seq<char>, Seq<char>)>,
) -> Result<Seq<(Seq<char>, Seq<char>)>, Seq<char>>
    decreases events.len(),
    via feed_results_decreases
{
    if results.len() >= limit {
        Ok(results)
    } else {
        match next_article(Dialect::Syndication, outside(), events) {
            Next::End => Ok(results),
            Next::Failed(e) => Err(e),
            Next::Article(title, link, rest) => feed_results(
                rest,
                limit,
                with_result(results, title, link),
            ),
        }
    }
}

#[via_fn]
proof fn feed_results_decreases(
    events: Seq<EventView>,
    limit: nat,
    results: Seq<(Seq<char>, Seq<char>)>,
) {
    lemma_article_advances(Dialect::Syndication, outside(), events);
}

/// Reads up to `limit` results out of an RSS or Atom feed.
pub fn parse_rss(body: &[u8], limit: usize) -> (res: Result<Vec<TopicResult>, ScraperError>)
    ensures
        match feed_results(xml_events(body@), limit as nat, seq![]) {
            Ok(found) => res matches Ok(v) && topic_views(v@) == found,
            Err(e) => res matches Err(ScraperError::InvalidResponse(m)) && m@ == e,
        },
{
    let mut reader = FeedReader::new(body, Dialect::Syndication);
    let mut results: Vec<TopicResult> = Vec::new();
    let ghost goal = feed_results(xml_events(body@), limit as nat, seq![]);
    assert(topic_views(results@) =~= seq![]);
    while results.len() < limit
        invariant
            reader.kind() == Dialect::Syndication,
            goal == feed_results(xml_events(body@), limit as nat, seq![]),
            goal == feed_results(reader.ahead(), limit as nat, topic_views(results@)),
        decreases reader.ahead().len(),
    {
        proof {
            lemma_article_advances(Dialect::Syndication, outside(), reader.ahead());
        }
        match reader.next() {
            Err(e) => {
                return Err(ScraperError::InvalidResponse(e));
            },
            Ok(None) => {
                return Ok(results);
            },
            Ok(Some(article)) => {
                add_result(&mut results, article.title.as_str(), article.link.as_str());
            },
        }
    }
    assert(topic_views(results@).len() == results@.len());
    Ok(results)
}

// ---------------------------------------------------------------------------------------------
// Requests and responses.
// ---------------------------------------------------------------------------------------------
/// The parameters of a search at a feed provider.
pub open spec fn feed_pairs(config: SearchConfig, topic: Seq<char>) -> Seq<(Seq<char>, Seq<char>)> {
    match config.kind {
        SearchKind::GoogleNews => {
            let country = upper_ascii(config.country@);
            seq![
                ("q"@, topic),
                ("hl"@, config.language@),
                ("gl"@, country),
                ("ceid"@, country + ":"@ + config.language@),
            ]
        },
        _ => seq![("q"@, topic), ("format"@, "rss"@)],
    }
}

/// Whether a provider answers with a feed.
pub open spec fn is_feed(kind: SearchKind) -> bool {
    kind == SearchKind::BingNews || kind == SearchKind::GoogleNews || kind == SearchKind::Rss
}

/// The address of a search at a feed provider.
pub fn rss_address(config: &SearchConfig, topic: &str) -> (res: Result<String, ScraperError>)
    ensures
        if url_parts(config.endpoint@) is None {
            res matches Err(ScraperError::Configuration(m)) && m@ == url_error(config.endpoint@)
        } else if !is_feed(config.kind) {
            res matches Err(ScraperError::Configuration(m)) && m@
                == "non-RSS provider reached RSS adapter"@
        } else {
            res matches Ok(s) && s@ == with_pairs(config.endpoint@, feed_pairs(*config, topic@))
        },
{
    if let Err(e) = parse_url(config.endpoint.as_str()) {
        return Err(ScraperError::Configuration(e));
    }
    let mut pairs: Vec<(String, String)> = Vec::new();
    pairs.push(("q".to_owned(), topic.to_owned()));
    match config.kind {
        SearchKind::GoogleNews => {
            let country = uppercase_ascii(config.country.as_str());
            let mut edition = country.clone();
            edition.append(":");
            edition.append(config.language.as_str());
            pairs.push(("hl".to_owned(), config.language.clone()));
            pairs.push(("gl".to_owned(), country));
            pairs.push(("ceid".to_owned(), edition));
        },
        SearchKind::BingNews | SearchKind::Rss => {
            pairs.push(("format".to_owned(), "rss".to_owned()));
        },
        SearchKind::Brave | SearchKind::DuckDuckGo => {
            return Err(
                ScraperError::Configuration("non-RSS provider reached RSS adapter".to_owned()),
            );
        },
    }
    assert(pair_views(pairs@) =~= feed_pairs(*config, topic@));
    Ok(append_pairs(config.endpoint.as_str(), &pairs))
}

/// The parameters of a search at Brave.
pub open spec fn brave_pairs(config: SearchConfig, topic: Seq<char>, limit: nat) -> Seq<
    (Seq<char>, Seq<char>),
> {
    seq![
        ("q"@, topic),
        ("count"@, decimal(limit)),
        ("country"@, config.country@),
        ("search_lang"@, config.language@),
    ]
}

/// The address of a search at Brave and the credential to send along.
pub fn brave_request(config: &SearchConfig, topic: &str, limit: usize) -> (res: Result<
    (String, String),
    ScraperError,
>)
    ensures
        match opt_text(config.brave_api_key) {
            None => res matches Err(ScraperError::Configuration(m)) && m@
                == "OHARA_SCRAPER_BRAVE_API_KEY is required when using Brave Search"@,
            Some(key) => if url_parts(config.endpoint@) is None {
                res matches Err(ScraperError::Configuration(m)) && m@ == url_error(
                    config.endpoint@,
                )
            } else {
                res matches Ok(request) && request.0@ == with_pairs(
                    config.endpoint@,
                    brave_pairs(*config, topic@, limit as nat),
                ) && request.1@ == key
            },
        },
{
    let key = match &config.brave_api_key {
        Some(key) => key.clone(),
        None => {
            return Err(
                ScraperError::Configuration(
                    "OHARA_SCRAPER_BRAVE_API_KEY is required when using Brave Search".to_owned(),
                ),
            );
        },
    };
    if let Err(e) = parse_url(config.endpoint.as_str()) {
        return Err(ScraperError::Configuration(e));
    }
    let mut pairs: Vec<(String, String)> = Vec::new();
    pairs.push(("q".to_owned(), topic.to_owned()));
    pairs.push(("count".to_owned(), decimal_string(limit as u64)));
    pairs.push(("country".to_owned(), config.country.clone()));
    pairs.push(("search_lang".to_owned(), config.language.clone()));
    assert(pair_views(pairs@) =~= brave_pairs(*config, topic@, limit as nat));
    Ok((append_pairs(config.endpoint.as_str(), &pairs), key))
}

/// The address of a search at DuckDuckGo.
pub fn duckduckgo_address(config: &SearchConfig, topic: &str) -> (res: Result<
    String,
    ScraperError,
>)
    ensures
        if url_parts(config.endpoint@) is None {
            res matches Err(ScraperError::Configuration(m)) && m@ == url_error(config.endpoint@)
        } else {
            res matches Ok(s) && s@ == with_pairs(config.endpoint@, seq![("q"@, topic@)])
        },
{
    if let Err(e) = parse_url(config.endpoint.as_str()) {
        return Err(ScraperError::Configuration(e));
    }
    let mut pairs: Vec<(String, String)> = Vec::new();
    pairs.push(("q".to_owned(), topic.to_owned()));
    assert(pair_views(pairs@) =~= seq![("q"@, topic@)]);
    Ok(append_pairs(config.endpoint.as_str(), &pairs))
}

/// How a provider is called in messages about its status and its size.
pub open spec fn provider_words(kind: SearchKind) -> (Seq<char>, Seq<char>) {
    match kind {
        SearchKind::Brave => ("Brave Search"@, "Brave Search"@),
        SearchKind::DuckDuckGo => ("Obscura search"@, "DuckDuckGo"@),
        _ => ("search provider"@, "RSS"@),
    }
}

/// Accepts the answer of a provider: its status must tell of success, and its body must not be too
/// large. `status` is the status as a text; `errors` is what a browser wrote about its failure.
pub fn check_search(kind: SearchKind, success: bool, status: &str, errors: &str, size: usize) -> (res:
    Result<(), ScraperError>)
    ensures
        if !success {
            res matches Err(ScraperError::Network(m)) && m@ == if kind == SearchKind::DuckDuckGo {
                provider_words(kind).0 + " returned "@ + status@ + ": "@ + trimmed(errors@)
            } else {
                provider_words(kind).0 + " returned "@ + status@
            }
        } else if size > MAX_RSS_BYTES {
            res matches Err(ScraperError::InvalidResponse(m)) && m@ == provider_words(kind).1
                + " response is too large"@
        } else {
            res is Ok
        },
{
    let (sender, answer) = match kind {
        SearchKind::Brave => ("Brave Search", "Brave Search"),
        SearchKind::DuckDuckGo => ("Obscura search", "DuckDuckGo"),
        _ => ("search provider", "RSS"),
    };
    if !success {
        let mut s = sender.to_owned();
        s.append(" returned ");
        s.append(status);
        if kind == SearchKind::DuckDuckGo {
            s.append(": ");
            s.append(trim(errors).as_str());
        }
        return Err(ScraperError::Network(s));
    }
    if size > MAX_RSS_BYTES {
        let mut s = answer.to_owned();
        s.append(" response is too large");
        return Err(ScraperError::InvalidResponse(s));
    }
    Ok(())
}

/// Whether a fetched page is kept: its status must tell of success, and it must not be too large.
pub fn keeps_page(success: bool, size: usize) -> (res: bool)
    ensures
        res == (success && size <= MAX_DOCUMENT_BYTES),
{
    success && size <= MAX_DOCUMENT_BYTES
}

/// Whether a page rendered by a browser is kept; a failure of the browser is reported.
pub fn keeps_rendered(success: bool, status: &str, errors: &str, size: usize) -> (res: Result<
    bool,
    ScraperError,
>)
    ensures
        if !success {
            res matches Err(ScraperError::Network(m)) && m@ == "Obscura page fetch returned "@
                + status@ + ": "@ + trimmed(errors@)
        } else {
            res == Ok::<bool, ScraperError>(size <= MAX_DOCUMENT_BYTES)
        },
{
    if !success {
        let mut s = "Obscura page fetch returned ".to_owned();
        s.append(status);
        s.append(": ");
        s.append(trim(errors).as_str());
        return Err(ScraperError::Network(s));
    }
    Ok(size <= MAX_DOCUMENT_BYTES)
}

// ---------------------------------------------------------------------------------------------
// Laws.
// ---------------------------------------------------------------------------------------------
/// Results are unique by address.
pub open spec fn unique(results: Seq<(Seq<char>, Seq<char>)>) -> bool {
    forall|i: int, j: int|
        0 <= i < j < results.len() ==> (#[trigger] results[i]).1 != (#[trigger] results[j]).1
}

proof fn lemma_with_result_unique(
    results: Seq<(Seq<char>, Seq<char>)>,
    title: Seq<char>,
    link: Seq<char>,
)
    requires
        unique(results),
    ensures
        unique(with_result(results, title, link)),
        with_result(results, title, link).len() <= results.len() + 1,
{
    let more = with_result(results, title, link);
    assert forall|i: int, j: int| 0 <= i < j < more.len() implies (#[trigger] more[i]).1 != (
    #[trigger] more[j]).1 by {
        assert(more[i] == results[i]);
        if j < results.len() {
            assert(more[j] == results[j]);
        }
    }
}

/// What a search returns holds each address once, and no more results than were asked for.
pub proof fn law_search_results_are_unique_and_bounded(
    events: Seq<EventView>,
    found: Seq<(Seq<char>, Seq<char>)>,
    limit: nat,
    results: Seq<(Seq<char>, Seq<char>)>,
)
    requires
        unique(results),
        results.len() <= limit,
    ensures
        unique(first_results(found, limit, results)),
        first_results(found, limit, results).len() <= limit,
        feed_results(events, limit, results) matches Ok(r) ==> unique(r) && r.len() <= limit,
    decreases events.len() + found.len(),
{
    if results.len() < limit {
        if found.len() > 0 {
            lemma_with_result_unique(results, found[0].0, found[0].1);
            law_search_results_are_unique_and_bounded(
                seq![],
                found.drop_first(),
                limit,
                with_result(results, found[0].0, found[0].1),
            );
        }
        lemma_article_advances(Dialect::Syndication, outside(), events);
        if let Next::Article(title, link, rest) = next_article(
            Dialect::Syndication,
            outside(),
            events,
        ) {
            lemma_with_result_unique(results, title, link);
            law_search_results_are_unique_and_bounded(
                rest,
                seq![],
                limit,
                with_result(results, title, link),
            );
        }
    }
}

/// What stays of the parameters of a result: those whose name neither begins with `utm_`, however
/// capitalized, nor is `fbclid`.
pub proof fn law_results_drop_trackers(pairs: Seq<(Seq<char>, Seq<char>)>, p: (Seq<char>, Seq<char>))
    ensures
        ({
            let k = lower_ascii(p.0);
            let family = k.len() >= 4 && k[0] == 'u' && k[1] == 't' && k[2] == 'm' && k[3] == '_';
            retained(pairs).contains(p) <==> pairs.contains(p) && !family && p.0 != "fbclid"@
        }),
{
    reveal_strlit("utm_");
    let keep = |q: (Seq<char>, Seq<char>)| !dropped(q.0);
    crate::rows::lemma_filter_kept(pairs, keep);
    let k = lower_ascii(p.0);
    if has_prefix(k, "utm_"@) {
        let t = k.take(4);
        assert(t == "utm_"@);
        assert(t[0] == k[0] && t[1] == k[1] && t[2] == k[2] && t[3] == k[3]);
    }
    if k.len() >= 4 && k[0] == 'u' && k[1] == 't' && k[2] == 'm' && k[3] == '_' {
        assert(k.take(4) =~= "utm_"@);
    }
    assert(keep(p) == !dropped(p.0));
}

proof fn lemma_first_results(
    found: Seq<(Seq<char>, Seq<char>)>,
    limit: nat,
    results: Seq<(Seq<char>, Seq<char>)>,
    i: int,
)
    requires
        results.len() <= limit,
    ensures
        ({
            let after = first_results(found, limit, results);
            &&& after.len() >= results.len()
            &&& after.len() <= limit
            &&& after.take(results.len() as int) == results
            &&& after.len() < limit && 0 <= i < found.len() && trimmed(found[i].0).len() > 0 ==> (
            result_url(redirect_target(found[i].1)) matches Some(url) ==> listed(after, url))
        }),
        forall|k: int|
            results.len() <= k < first_results(found, limit, results).len() ==> exists|j: int|
                0 <= j < found.len() && #[trigger] first_results(found, limit, results)[k] == (
                    trimmed((#[trigger] found[j]).0),
                    result_url(redirect_target(found[j].1))->0,
                ) && result_url(redirect_target(found[j].1)) is Some && trimmed(found[j].0).len() > 0,
    decreases found.len(),
{
    let after = first_results(found, limit, results);
    if found.len() == 0 || results.len() >= limit {
        assert(after.take(results.len() as int) =~= results);
    } else {
        let rest = found.drop_first();
        let next = with_result(results, found[0].0, found[0].1);
        lemma_first_results(rest, limit, next, i - 1);
        assert(after == first_results(rest, limit, next));
        assert(after.take(next.len() as int) == next);
        assert(after.take(results.len() as int) =~= next.take(results.len() as int));
        assert(next.take(results.len() as int) =~= results);
        if i > 0 && i < found.len() {
            assert(rest[i - 1] == found[i]);
        }
        if i == 0 && trimmed(found[0].0).len() > 0 {
            if let Some(url) = result_url(redirect_target(found[0].1)) {
                assert(listed(next, url)) by {
                    if !listed(results, url) {
                        assert(next[results.len() as int].1 == url);
                    }
                }
                let n = choose|n: int| 0 <= n < next.len() && (#[trigger] next[n]).1 == url;
                assert(after.take(next.len() as int)[n] == after[n]);
                assert(after[n].1 == url);
            }
        }
        assert forall|k: int| results.len() <= k < after.len() implies exists|j: int|
            0 <= j < found.len() && #[trigger] after[k] == (
                trimmed((#[trigger] found[j]).0),
                result_url(redirect_target(found[j].1))->0,
            ) && result_url(redirect_target(found[j].1)) is Some && trimmed(found[j].0).len() > 0 by {
            if k < next.len() {
                assert(after.take(next.len() as int)[k] == after[k]);
                assert(after[k] == next[k]);
                assert(found[0] == found[0]);
                assert(after[k] == (
                    trimmed(found[0].0),
                    result_url(redirect_target(found[0].1))->0,
                ));
            } else {
                let j = choose|j: int|
                    0 <= j < rest.len() && after[k] == (
                        trimmed((#[trigger] rest[j]).0),
                        result_url(redirect_target(rest[j].1))->0,
                    ) && result_url(redirect_target(rest[j].1)) is Some && trimmed(rest[j].0).len()
                        > 0;
                assert(found[j + 1] == rest[j]);
            }
        }
    }
}

/// Normalizing results leaves out nothing that can be fetched: where fewer are returned than were asked for,
/// every result with a title and an address that can be fetched has its address among them; each
/// returned one is a found one, trimmed, and each address comes once.
pub proof fn law_fetchable_results_are_kept(
    found: &Vec<TopicResult>,
    limit: usize,
    res: Vec<TopicResult>,
    i: int,
    j: int,
)
    requires
        call_ensures(normalize_results, (found, limit), res),
    ensures
        res@.len() <= limit,
        res@.len() < limit && 0 <= i < found@.len() && trimmed(found@[i].title@).len() > 0 ==> (
        result_url(redirect_target(found@[i].url@)) matches Some(url) ==> exists|n: int|
            0 <= n < res@.len() && (#[trigger] res@[n]).url@ == url),
        0 <= i < res@.len() ==> exists|n: int|
            0 <= n < found@.len() && res@[i].title@ == trimmed((#[trigger] found@[n]).title@)
                && result_url(redirect_target(found@[n].url@)) == Some(res@[i].url@)
                && res@[i].title@.len() > 0,
        0 <= i < j < res@.len() ==> res@[i].url@ != res@[j].url@,
{
    let all = topic_views(found@);
    let shown = topic_views(res@);
    lemma_first_results(all, limit as nat, seq![], i);
    law_search_results_are_unique_and_bounded(seq![], all, limit as nat, seq![]);
    assert(shown == first_results(all, limit as nat, seq![]));
    if 0 <= i < found@.len() {
        assert(all[i] == (found@[i].title@, found@[i].url@));
        if res@.len() < limit && trimmed(found@[i].title@).len() > 0 {
            if let Some(url) = result_url(redirect_target(found@[i].url@)) {
                let n = choose|n: int| 0 <= n < shown.len() && (#[trigger] shown[n]).1 == url;
                assert(shown[n] == (res@[n].title@, res@[n].url@));
                assert(res@[n].url@ == url);
            }
        }
    }
    if 0 <= i < res@.len() {
        assert(shown[i] == (res@[i].title@, res@[i].url@));
        let n = choose|n: int|
            0 <= n < all.len() && shown[i] == (
                trimmed((#[trigger] all[n]).0),
                result_url(redirect_target(all[n].1))->0,
            ) && result_url(redirect_target(all[n].1)) is Some && trimmed(all[n].0).len() > 0;
        assert(all[n] == (found@[n].title@, found@[n].url@));
        assert(res@[i].title@ == trimmed(found@[n].title@));
    }
    if 0 <= i < j < res@.len() {
        assert(shown[i] == (res@[i].title@, res@[i].url@));
        assert(shown[j] == (res@[j].title@, res@[j].url@));
    }
}

/// Only an address of the web with a host is a result, and its normal form drops fragment and trackers; a page
/// is kept where it came and is no larger than ten mebibytes.
pub proof fn law_results_are_fetchable(
    raw: &str,
    res: Result<String, ScraperError>,
    v: UrlView,
    success: bool,
    size: usize,
    kept: bool,
)
    requires
        call_ensures(normalize_url, (raw,), res),
        call_ensures(keeps_page, (success, size), kept),
        url_parts(raw@) == Some(v),
    ensures
        res is Ok <==> (v.scheme == "http"@ || v.scheme == "https"@) && v.host is Some,
        kept <==> success && size <= 10485760,
{
}

} // verus!
