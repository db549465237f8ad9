//! Plain and impersonated HTTP: the decisions about robots, politeness, redirects, responses and
//! which addresses may be fetched.

use vstd::prelude::*;
use vstd::string::StringExecFns;

use super::robots::{rules_allow, rules_of, GroupView, Robots, RuleView};
use super::{FetchCapabilities, FetchError, FetchedDoc, NormalizedUrl};
use crate::assoc::{
    assoc, lemma_assoc, lemma_assoc_absent, lemma_assoc_push, lemma_assoc_update, unique_keys,
};
use crate::text::{
    chars_of, copy_opt, debug_form, debug_string, decimal, decimal_string, ends_with, find,
    find_char, has_prefix, has_suffix, lower_ascii, lowercase_ascii, opt_text, same, starts_with,
    string_of, trim, trimmed, utf8_lossy, utf8_string_lossy,
};
use crate::web::{joined_error, joined_parts, UrlView};

verus! {

/// The user-agent token this crawler presents to `robots.txt`.
pub const AGENT_TOKEN: &'static str = "ohara";

/// Construction parameters of a fetcher.
#[derive(Debug, Clone)]
pub struct HttpFetcherParams {
    /// Honest User-Agent header.
    pub user_agent: String,
    /// Per-request deadline in milliseconds.
    pub timeout_ms: u64,
    /// Default politeness floor between requests to one host, in milliseconds.
    pub rate_limit_ms: u64,
    /// Allow private, loopback and link-local targets.
    pub allow_private_hosts: bool,
    /// Maximum accepted response body in bytes.
    pub max_body_bytes: usize,
    /// Maximum redirect hops, each revalidated.
    pub max_redirects: usize,
}

/// What a fetcher can do: a browser profile is stealthy, and neither executes JavaScript.
pub fn capabilities_of(impersonated: bool) -> (res: FetchCapabilities)
    ensures
        res == (FetchCapabilities { js_rendering: false, stealth: impersonated }),
{
    FetchCapabilities { js_rendering: false, stealth: impersonated }
}

/// What stands in a list of headers.
pub open spec fn header_views(headers: Seq<(&'static str, &'static str)>) -> Seq<
    (Seq<char>, Seq<char>),
> {
    headers.map_values(|h: (&'static str, &'static str)| (h.0@, h.1@))
}

/// The default headers of plain requests.
pub fn plain_headers() -> (res: Vec<(&'static str, &'static str)>)
    ensures
        header_views(res@) =~= seq![
            ("accept"@, "text/html,application/xhtml+xml,*/*;q=0.8"@),
        ],
{
    let mut headers: Vec<(&'static str, &'static str)> = Vec::new();
    headers.push(("accept", "text/html,application/xhtml+xml,*/*;q=0.8"));
    headers
}

/// The default headers of requests with a browser profile.
pub fn browser_headers() -> (res: Vec<(&'static str, &'static str)>)
    ensures
        header_views(res@) =~= seq![
            (
                "accept"@,
                "text/html,application/xhtml+xml,application/xml;q=0.9,image/avif,image/webp,*/*;q=0.8"@,
            ),
            ("accept-language"@, "en-US,en;q=0.9"@),
            ("cache-control"@, "no-cache"@),
            ("pragma"@, "no-cache"@),
            ("upgrade-insecure-requests"@, "1"@),
            ("sec-fetch-dest"@, "document"@),
            ("sec-fetch-mode"@, "navigate"@),
            ("sec-fetch-site"@, "none"@),
        ],
{
    let mut headers: Vec<(&'static str, &'static str)> = Vec::new();
    headers.push(
        (
            "accept",
            "text/html,application/xhtml+xml,application/xml;q=0.9,image/avif,image/webp,*/*;q=0.8",
        ),
    );
    headers.push(("accept-language", "en-US,en;q=0.9"));
    headers.push(("cache-control", "no-cache"));
    headers.push(("pragma", "no-cache"));
    headers.push(("upgrade-insecure-requests", "1"));
    headers.push(("sec-fetch-dest", "document"));
    headers.push(("sec-fetch-mode", "navigate"));
    headers.push(("sec-fetch-site", "none"));
    headers
}

/// Accepts the User-Agent of a browser profile: it must not be empty.
pub fn check_profile(user_agent: &str) -> (res: Result<(), FetchError>)
    ensures
        if user_agent@.len() == 0 {
            res matches Err(FetchError::Protocol(m)) && m@
                == "impersonation user-agent must be non-empty"@
        } else {
            res is Ok
        },
{
    if user_agent.is_empty() {
        Err(FetchError::Protocol("impersonation user-agent must be non-empty".to_owned()))
    } else {
        Ok(())
    }
}

// ---------------------------------------------------------------------------------------------
// Robots and politeness.
// ---------------------------------------------------------------------------------------------
/// The per-host robots verdict.
#[derive(Debug)]
pub struct RobotsDecision {
    /// The rules.
    pub robots: Robots,
    /// Whether every path is disallowed: the rules could not be read.
    pub disallow_all: bool,
}

/// Whether rules allow the crawler a path.
pub open spec fn crawler_allowed(groups: Seq<GroupView>, path: Seq<char>) -> bool {
    exists|rules: Seq<RuleView>| #[trigger]
        rules_of(groups, lower_ascii(AGENT_TOKEN@), rules) && rules_allow(rules, path)
}

impl RobotsDecision {
    /// Everything is allowed.
    pub fn allow_all() -> (res: RobotsDecision)
        ensures
            res.robots@ == Seq::<GroupView>::empty(),
            !res.disallow_all,
    {
        RobotsDecision { robots: Robots::empty(), disallow_all: false }
    }

    /// Nothing is allowed.
    pub fn disallow_all() -> (res: RobotsDecision)
        ensures
            res.disallow_all,
    {
        RobotsDecision { robots: Robots::empty(), disallow_all: true }
    }

    /// Whether a path may be fetched.
    pub fn allows(&self, path: &str) -> (res: bool)
        ensures
            res == (!self.disallow_all && crawler_allowed(self.robots@, path@)),
    {
        if self.disallow_all {
            return false;
        }
        let res = self.robots.allows(AGENT_TOKEN, path);
        proof {
            let agent = lower_ascii(AGENT_TOKEN@);
            let used = choose|rules: Seq<RuleView>| #[trigger]
                rules_of(self.robots@, agent, rules) && res == rules_allow(rules, path@);
            assert(rules_of(self.robots@, agent, used) && res == rules_allow(used, path@));
            if crawler_allowed(self.robots@, path@) {
                let other = choose|rules: Seq<RuleView>| #[trigger]
                    rules_of(self.robots@, agent, rules) && rules_allow(rules, path@);
                super::robots::law_rules_are_determined(self.robots@, agent, used, other);
            }
        }
        res
    }
}

/// What to make of the answer to a request for `robots.txt`.
#[derive(Debug, Clone, Copy, PartialEq, Eq, Structural)]
pub enum RobotsStep {
    /// There are no rules.
    AllowAll,
    /// The rules are in the body.
    ReadBody,
    /// The rules could not be read.
    DisallowAll,
}

/// Decides on the status of the answer; none is a request that failed. Missing rules allow
/// everything, unreadable ones nothing.
pub fn robots_step(status: Option<u16>) -> (res: RobotsStep)
    ensures
        res == match status {
            None => RobotsStep::DisallowAll,
            Some(s) => if s == 404 || s == 410 {
                RobotsStep::AllowAll
            } else if 200 <= s < 300 {
                RobotsStep::ReadBody
            } else {
                RobotsStep::DisallowAll
            },
        },
{
    match status {
        None => RobotsStep::DisallowAll,
        Some(s) => if s == 404 || s == 410 {
            RobotsStep::AllowAll
        } else if 200 <= s && s < 300 {
            RobotsStep::ReadBody
        } else {
            RobotsStep::DisallowAll
        },
    }
}

/// Refuses a fetch that `robots.txt` disallows.
pub fn check_robots(decision: &RobotsDecision, url: &NormalizedUrl) -> (res: Result<(), FetchError>)
    ensures
        if !decision.disallow_all && crawler_allowed(decision.robots@, super::target_of(url@)) {
            res is Ok
        } else {
            res matches Err(FetchError::Protocol(m)) && m@ == "robots.txt disallows "@ + url@.href
        },
{
    let path = url.path_and_query();
    if decision.allows(path.as_str()) {
        Ok(())
    } else {
        let mut s = "robots.txt disallows ".to_owned();
        s.append(url.as_str());
        Err(FetchError::Protocol(s))
    }
}

/// The greater of two numbers.
pub open spec fn greater(a: u64, b: u64) -> u64 {
    if a > b {
        a
    } else {
        b
    }
}

/// The floor in use between requests to one host.
pub fn effective_rate_limit(default_ms: u64, policy_ms: u64) -> (res: u64)
    ensures
        res == greater(default_ms, policy_ms),
{
    if default_ms > policy_ms {
        default_ms
    } else {
        policy_ms
    }
}

/// The time of the next request to a host whose last one was given the time `last`: now, but no sooner
/// than the floor after that one.
pub open spec fn slot_after(last: Option<int>, now: int, floor: int) -> int {
    match last {
        Some(t) => if t + floor > now {
            t + floor
        } else {
            now
        },
        None => now,
    }
}

/// A request for a time: the host, the time of asking and the floor of that request.
#[verifier::ext_equal]
pub struct AskView {
    pub host: Seq<char>,
    pub now: int,
    pub floor: nat,
}

/// The time that a request is given, where the last time of each host is as `last` says; none where it
/// is beyond the largest number.
pub open spec fn time_given(last: Map<Seq<char>, int>, ask: AskView) -> Option<int> {
    let before = if last.contains_key(ask.host) {
        Some(last[ask.host])
    } else {
        None
    };
    let slot = slot_after(before, ask.now, ask.floor as int);
    if slot <= u64::MAX {
        Some(slot)
    } else {
        None
    }
}

/// The last times of the hosts after a request.
pub open spec fn kept_with(last: Map<Seq<char>, int>, ask: AskView) -> Map<Seq<char>, int> {
    match time_given(last, ask) {
        Some(t) => last.insert(ask.host, t),
        None => last,
    }
}

/// The last times of the hosts after requests.
pub open spec fn kept_after(asks: Seq<AskView>) -> Map<Seq<char>, int>
    decreases asks.len(),
{
    if asks.len() == 0 {
        Map::empty()
    } else {
        kept_with(kept_after(asks.drop_last()), asks.last())
    }
}

/// The times that requests are given, in the order in which they ask.
pub open spec fn times_given(asks: Seq<AskView>) -> Seq<Option<int>>
    decreases asks.len(),
{
    if asks.len() == 0 {
        seq![]
    } else {
        times_given(asks.drop_last()).push(time_given(kept_after(asks.drop_last()), asks.last()))
    }
}

/// The hosts and times in a list of pairs.
pub open spec fn host_times(s: Seq<(String, u64)>) -> Seq<(Seq<char>, int)> {
    Seq::new(s.len(), |i: int| (s[i].0@, s[i].1 as int))
}

/// The politeness of a fetcher: the default floor between requests to one host, and the time that each
/// host was last given, in milliseconds.
#[derive(Debug)]
pub struct Politeness {
    rate_limit_ms: u64,
    last: Vec<(String, u64)>,
}

impl Politeness {
    /// The default floor.
    pub closed spec fn rate_limit(&self) -> u64 {
        self.rate_limit_ms
    }

    /// The time that each host was last given.
    pub closed spec fn last(&self) -> Map<Seq<char>, int> {
        assoc(host_times(self.last@))
    }

    /// No host is kept twice.
    pub closed spec fn wf(&self) -> bool {
        unique_keys(host_times(self.last@))
    }

    /// No host has been given a time.
    pub fn new(rate_limit_ms: u64) -> (res: Politeness)
        ensures
            res.wf(),
            res.rate_limit() == rate_limit_ms,
            res.last() == Map::<Seq<char>, int>::empty(),
    {
        let res = Politeness { rate_limit_ms, last: Vec::new() };
        assert(host_times(res.last@) =~= seq![]);
        res
    }

    /// Reserves the time of the next request to a host and tells how long to wait for it. The time is
    /// kept before the wait, so concurrent requests serialize. A time beyond the largest number never
    /// comes: none is reserved.
    pub fn politeness_wait(&mut self, host: &str, now_ms: u64, policy_ms: u64) -> (res: Option<u64>)
        requires
            old(self).wf(),
        ensures
            final(self).wf(),
            final(self).rate_limit() == old(self).rate_limit(),
            ({
                let floor = greater(old(self).rate_limit(), policy_ms);
                let ask = AskView { host: host@, now: now_ms as int, floor: floor as nat };
                &&& final(self).last() == kept_with(old(self).last(), ask)
                &&& match time_given(old(self).last(), ask) {
                    Some(t) => res == Some((t - now_ms) as u64) && t - now_ms == res->0,
                    None => res is None,
                }
            }),
    {
        let ghost pairs = host_times(self.last@);
        let floor: u64 = effective_rate_limit(self.rate_limit_ms, policy_ms);
        let mut i: usize = 0;
        while i < self.last.len() && !same(self.last[i].0.as_str(), host)
            invariant
                i <= self.last@.len(),
                pairs == host_times(self.last@),
                forall|k: int| 0 <= k < i ==> (#[trigger] pairs[k]).0 != host@,
            decreases self.last@.len() - i,
        {
            assert(pairs[i as int].0 != host@);
            i = i + 1;
        }
        if i < self.last.len() {
            proof {
                lemma_assoc(pairs);
                assert(pairs[i as int] == (host@, self.last@[i as int].1 as int));
            }
            let before: u64 = self.last[i].1;
            if before > u64::MAX - floor {
                return None;
            }
            let slot: u64 = if before + floor > now_ms {
                before + floor
            } else {
                now_ms
            };
            proof {
                lemma_assoc_update(pairs, i as int, slot as int);
            }
            let mut key = String::new();
            key.append(host);
            self.last.set(i, (key, slot));
            assert(host_times(self.last@) =~= pairs.update(i as int, (pairs[i as int].0, slot as int)));
            Some(slot - now_ms)
        } else {
            proof {
                lemma_assoc_absent(pairs, host@);
                lemma_assoc_push(pairs, host@, now_ms as int);
            }
            let mut key = String::new();
            key.append(host);
            self.last.push((key, now_ms));
            assert(host_times(self.last@) =~= pairs.push((host@, now_ms as int)));
            Some(0)
        }
    }
}

proof fn lemma_kept_is_latest(asks: Seq<AskView>, i: int)
    requires
        0 <= i < asks.len(),
        times_given(asks)[i] is Some,
    ensures
        kept_after(asks).contains_key(asks[i].host),
        kept_after(asks)[asks[i].host] >= times_given(asks)[i]->0,
    decreases asks.len(),
{
    let rest = asks.drop_last();
    lemma_times_given(asks);
    lemma_times_given(rest);
    if i < rest.len() {
        assert(times_given(asks)[i] == times_given(rest)[i] && rest[i] == asks[i]);
        lemma_kept_is_latest(rest, i);
    }
}

proof fn lemma_times_given(asks: Seq<AskView>)
    ensures
        times_given(asks).len() == asks.len(),
    decreases asks.len(),
{
    if asks.len() > 0 {
        lemma_times_given(asks.drop_last());
    }
}

/// One host is never asked faster than the floor: whenever requests are made and to whatever hosts, of
/// two to one host the later is given a time that is at least its floor after the time of the earlier,
/// and no request is given a time before it was made.
pub proof fn law_requests_keep_their_floors(asks: Seq<AskView>, i: int, j: int)
    requires
        0 <= i < j < asks.len(),
        asks[i].host == asks[j].host,
    ensures
        times_given(asks).len() == asks.len(),
        times_given(asks)[i] matches Some(a) ==> a >= asks[i].now,
        times_given(asks)[j] matches Some(b) ==> b >= asks[j].now,
        times_given(asks)[i] matches Some(a) ==> times_given(asks)[j] matches Some(b) ==> b - a
            >= asks[j].floor,
    decreases asks.len(),
{
    let rest = asks.drop_last();
    lemma_times_given(asks);
    lemma_times_given(rest);
    assert(times_given(asks)[i] == times_given(rest)[i] && rest[i] == asks[i]);
    if j < rest.len() {
        assert(times_given(asks)[j] == times_given(rest)[j] && rest[j] == asks[j]);
        law_requests_keep_their_floors(rest, i, j);
    } else {
        if times_given(rest)[i] is Some {
            lemma_kept_is_latest(rest, i);
        }
        lemma_given_late_enough(rest, i);
    }
}

proof fn lemma_given_late_enough(asks: Seq<AskView>, i: int)
    requires
        0 <= i < asks.len(),
    ensures
        times_given(asks)[i] matches Some(a) ==> a >= asks[i].now,
    decreases asks.len(),
{
    let rest = asks.drop_last();
    lemma_times_given(rest);
    if i < rest.len() {
        assert(times_given(asks)[i] == times_given(rest)[i] && rest[i] == asks[i]);
        lemma_given_late_enough(rest, i);
    }
}

/// With one floor for all requests, the times that any two requests to one host are given are at least
/// that floor apart.
pub proof fn law_requests_keep_the_floor(asks: Seq<AskView>, floor: nat, i: int, j: int)
    requires
        0 <= i < asks.len(),
        0 <= j < asks.len(),
        i != j,
        asks[i].host == asks[j].host,
        forall|k: int| 0 <= k < asks.len() ==> (#[trigger] asks[k]).floor == floor,
    ensures
        times_given(asks)[i] matches Some(a) ==> times_given(asks)[j] matches Some(b) ==> (a - b
            >= floor || b - a >= floor),
{
    if i < j {
        law_requests_keep_their_floors(asks, i, j);
    } else {
        law_requests_keep_their_floors(asks, j, i);
    }
}

// ---------------------------------------------------------------------------------------------
// Redirects.
// ---------------------------------------------------------------------------------------------
/// Whether a status sends the client elsewhere.
pub open spec fn redirects(status: u16) -> bool {
    300 <= status < 400 && status != 304
}

/// The `Location` of a response.
#[derive(Debug)]
pub enum Location {
    /// There is none.
    Missing,
    /// It is no text.
    Malformed,
    /// Where to go.
    To(String),
}

/// Where a redirect leads: its target, relative to the address that was requested, where that is an
/// address of the web.
pub open spec fn hop_target(base: Seq<char>, target: Seq<char>) -> Option<UrlView> {
    match joined_parts(base, target) {
        Some(v) if v.is_web() => Some(UrlView { href: super::normal_form(v.href), ..v }),
        _ => None,
    }
}

/// Why a redirect leads nowhere.
pub open spec fn hop_refusal(base: Seq<char>, target: Seq<char>) -> Seq<char> {
    match joined_parts(base, target) {
        None => "invalid url: "@ + joined_error(base, target),
        Some(v) => "unsupported scheme "@ + debug_form(v.scheme) + ": only http/https are fetched"@,
    }
}

/// Resolves the target of a redirect: a fresh address, relative to the one that was requested.
pub fn hop(target: &str, base: &NormalizedUrl) -> (res: Result<NormalizedUrl, FetchError>)
    ensures
        match hop_target(base@.href, target@) {
            Some(v) => res matches Ok(next) && next@ == v,
            None => res matches Err(FetchError::Protocol(m)) && m@ == hop_refusal(
                base@.href,
                target@,
            ),
        },
{
    match NormalizedUrl::new(target, base.as_str()) {
        Err(e) => Err(FetchError::from_url_error(&e)),
        Ok(next) => Ok(next),
    }
}

/// What follows a response on the way from `start`: nothing where the response is final, else the
/// next address. `used` redirects were followed before.
pub fn redirect_step(
    status: u16,
    location: &Location,
    current: &NormalizedUrl,
    start: &NormalizedUrl,
    used: usize,
    max_redirects: usize,
) -> (res: Result<Option<NormalizedUrl>, FetchError>)
    ensures
        if !redirects(status) {
            res == Ok::<Option<NormalizedUrl>, FetchError>(None)
        } else {
            match location {
                Location::Missing => res matches Err(FetchError::Protocol(m)) && m@
                    == "redirect without Location on "@ + current@.href,
                Location::Malformed => res matches Err(FetchError::Protocol(m)) && m@
                    == "non-ASCII Location on "@ + current@.href,
                Location::To(target) => match hop_target(current@.href, target@) {
                    None => res matches Err(FetchError::Protocol(m)) && m@ == hop_refusal(
                        current@.href,
                        target@,
                    ),
                    Some(v) => if used >= max_redirects {
                        res matches Err(FetchError::Protocol(m)) && m@ == "more than "@ + decimal(
                            max_redirects as nat,
                        ) + " redirects on "@ + start@.href
                    } else {
                        res matches Ok(Some(next)) && next@ == v
                    },
                },
            }
        },
{
    if status < 300 || status >= 400 || status == 304 {
        return Ok(None);
    }
    match location {
        Location::Missing => {
            let mut s = "redirect without Location on ".to_owned();
            s.append(current.as_str());
            Err(FetchError::Protocol(s))
        },
        Location::Malformed => {
            let mut s = "non-ASCII Location on ".to_owned();
            s.append(current.as_str());
            Err(FetchError::Protocol(s))
        },
        Location::To(target) => match hop(target.as_str(), current) {
            Err(e) => Err(e),
            Ok(next) => if used >= max_redirects {
                let mut s = "more than ".to_owned();
                s.append(decimal_string(max_redirects as u64).as_str());
                s.append(" redirects on ");
                s.append(start.as_str());
                Err(FetchError::Protocol(s))
            } else {
                Ok(Some(next))
            },
        },
    }
}

// ---------------------------------------------------------------------------------------------
// Responses.
// ---------------------------------------------------------------------------------------------
/// The media type of a content type: without parameters, in lower case.
pub open spec fn media_type(content_type: Seq<char>) -> Seq<char> {
    lower_ascii(trimmed(content_type.take(find(content_type, ';'))))
}

/// Whether a payload is something that cleaning can consume: text, markup or JSON, or unlabeled.
pub open spec fn consumable(content_type: Option<Seq<char>>) -> bool {
    match content_type {
        None => true,
        Some(ct) => {
            let kind = media_type(ct);
            kind.len() == 0 || has_prefix(kind, "text/"@) || has_suffix(kind, "html"@)
                || has_suffix(kind, "+xml"@) || has_suffix(kind, "json"@)
        },
    }
}

/// Whether a payload is something that cleaning can consume.
pub fn is_fetchable_content(content_type: Option<&str>) -> (res: bool)
    ensures
        res == consumable(
            match content_type {
                Some(s) => Some(s@),
                None => None,
            },
        ),
{
    match content_type {
        None => true,
        Some(ct) => {
            let chars = chars_of(ct);
            let n: usize = chars.len();
            let end: usize = find_char(chars.as_slice(), 0, n, ';');
            assert(chars@.subrange(0, n as int) =~= ct@);
            let head = string_of(chars.as_slice(), 0, end);
            assert(head@ =~= ct@.take(find(ct@, ';')));
            let kind = lowercase_ascii(trim(head.as_str()).as_str());
            let k = kind.as_str();
            k.is_empty() || starts_with(k, "text/") || ends_with(k, "html") || ends_with(k, "+xml")
                || ends_with(k, "json")
        },
    }
}

/// The head of a final response.
#[derive(Debug)]
pub struct ResponseHead {
    /// The status.
    pub status: u16,
    /// The content type, where it is a text.
    pub content_type: Option<String>,
    /// The entity tag, where it is a text.
    pub etag: Option<String>,
    /// The modification time, where it is a text.
    pub last_modified: Option<String>,
}

/// Whether a document is what a head and a body tell.
pub open spec fn labeled(
    head: ResponseHead,
    html: Seq<char>,
    js_executed: bool,
    url: Seq<char>,
    now: Seq<char>,
    doc: FetchedDoc,
) -> bool {
    &&& doc.html@ == html
    &&& doc.js_executed == js_executed
    &&& doc.final_url@ == url
    &&& doc.status == head.status
    &&& opt_text(doc.content_type) == opt_text(head.content_type)
    &&& opt_text(doc.etag) == opt_text(head.etag)
    &&& opt_text(doc.last_modified) == opt_text(head.last_modified)
    &&& doc.fetched_at@ == now
}

fn label(
    head: &ResponseHead,
    html: String,
    js_executed: bool,
    url: &str,
    now: &str,
) -> (res: FetchedDoc)
    ensures
        labeled(*head, html@, js_executed, url@, now@, res),
{
    FetchedDoc {
        html,
        js_executed,
        final_url: url.to_owned(),
        status: head.status,
        content_type: copy_opt(&head.content_type),
        etag: copy_opt(&head.etag),
        last_modified: copy_opt(&head.last_modified),
        fetched_at: now.to_owned(),
    }
}

/// What to do with a final response.
#[derive(Debug)]
pub enum Finish {
    /// The document did not change.
    NotModified(FetchedDoc),
    /// The body is to be read.
    ReadBody,
}

/// A text quoted as in debugging output; nothing is quoted as the empty text.
pub open spec fn quoted_or_empty(s: Option<Seq<char>>) -> Seq<char> {
    match s {
        Some(t) => debug_form(t),
        None => debug_form(seq![]),
    }
}

/// Decides on the head of a final response: an unchanged document is done; what cleaning cannot
/// consume, a block, a missing target and any other failure are errors.
pub fn finish_head(head: &ResponseHead, url: &NormalizedUrl, now: &str) -> (res: Result<
    Finish,
    FetchError,
>)
    ensures
        if head.status == 304 {
            res matches Ok(Finish::NotModified(doc)) && labeled(
                *head,
                seq![],
                false,
                url@.href,
                now@,
                doc,
            )
        } else if !consumable(opt_text(head.content_type)) {
            res matches Err(FetchError::Protocol(m)) && m@ == "unsupported content-type "@
                + quoted_or_empty(opt_text(head.content_type)) + " on "@ + url@.href
        } else if head.status == 403 || head.status == 429 {
            res matches Err(FetchError::AntiBot { url: u }) && u@ == url@.href
        } else if head.status == 404 || head.status == 410 {
            res matches Err(FetchError::NotFound { url: u }) && u@ == url@.href
        } else if 200 <= head.status < 300 {
            res matches Ok(Finish::ReadBody)
        } else {
            res matches Err(FetchError::Protocol(m)) && m@ == "unexpected status "@ + decimal(
                head.status as nat,
            ) + " on "@ + url@.href
        },
{
    let href = url.as_str();
    if head.status == 304 {
        let empty = String::new();
        assert(empty@ =~= seq![]);
        return Ok(Finish::NotModified(label(head, empty, false, href, now)));
    }
    let content_type = match &head.content_type {
        Some(s) => Some(s.as_str()),
        None => None,
    };
    if !is_fetchable_content(content_type) {
        let shown = match content_type {
            Some(s) => debug_string(s),
            None => debug_string(""),
        };
        let mut s = "unsupported content-type ".to_owned();
        s.append(shown.as_str());
        s.append(" on ");
        s.append(href);
        return Err(FetchError::Protocol(s));
    }
    if head.status == 403 || head.status == 429 {
        return Err(FetchError::AntiBot { url: href.to_owned() });
    }
    if head.status == 404 || head.status == 410 {
        return Err(FetchError::NotFound { url: href.to_owned() });
    }
    if 200 <= head.status && head.status < 300 {
        return Ok(Finish::ReadBody);
    }
    let mut s = "unexpected status ".to_owned();
    s.append(decimal_string(head.status as u64).as_str());
    s.append(" on ");
    s.append(href);
    Err(FetchError::Protocol(s))
}

/// Labels the document of a successful response. A body that is too large is refused.
pub fn finish_body(
    head: &ResponseHead,
    body: &[u8],
    url: &NormalizedUrl,
    max_body_bytes: usize,
    now: &str,
) -> (res: Result<FetchedDoc, FetchError>)
    ensures
        if body@.len() > max_body_bytes {
            res matches Err(FetchError::Protocol(m)) && m@ == "body exceeds "@ + decimal(
                max_body_bytes as nat,
            ) + " bytes on "@ + url@.href
        } else {
            res matches Ok(doc) && labeled(
                *head,
                utf8_lossy(body@),
                false,
                url@.href,
                now@,
                doc,
            )
        },
{
    let href = url.as_str();
    if body.len() > max_body_bytes {
        let mut s = "body exceeds ".to_owned();
        s.append(decimal_string(max_body_bytes as u64).as_str());
        s.append(" bytes on ");
        s.append(href);
        return Err(FetchError::Protocol(s));
    }
    Ok(label(head, utf8_string_lossy(body), false, href, now))
}

/// The failure of a request: a deadline that passed, or anything else by its wording.
pub fn map_request_error(timed_out: bool, message: &str, timeout_secs: u64) -> (res: FetchError)
    ensures
        if timed_out {
            res matches FetchError::Timeout { secs } && secs == timeout_secs
        } else {
            res matches FetchError::Protocol(m) && m@ == "request failed: "@ + message@
        },
{
    if timed_out {
        FetchError::Timeout { secs: timeout_secs }
    } else {
        let mut s = "request failed: ".to_owned();
        s.append(message);
        FetchError::Protocol(s)
    }
}

// ---------------------------------------------------------------------------------------------
// Addresses.
// ---------------------------------------------------------------------------------------------
/// The address of a host.
#[derive(Debug, Clone, Copy)]
pub enum Ip {
    /// Version 4, by its octets.
    V4([u8; 4]),
    /// Version 6, by its segments.
    V6([u16; 8]),
}

/// Whether an IPv4 address is globally routable: not of the current network, private, shared,
/// loopback, link-local, for protocols, documentation or benchmarks, a relay, multicast or reserved.
pub open spec fn global_v4(a: u8, b: u8, c: u8) -> bool {
    !{
        ||| a == 0
        ||| a == 10
        ||| a == 100 && 64 <= b <= 127
        ||| a == 127
        ||| a == 169 && b == 254
        ||| a == 172 && 16 <= b <= 31
        ||| a == 192 && b == 0 && (c == 0 || c == 2)
        ||| a == 192 && b == 88 && c == 99
        ||| a == 192 && b == 168
        ||| a == 198 && (b == 18 || b == 19)
        ||| a == 198 && b == 51 && c == 100
        ||| a == 203 && b == 0 && c == 113
        ||| a >= 224
    }
}

/// Whether an IPv6 address is globally routable: not unspecified, loopback, discard-only, for
/// benchmarks, documentation or overlay identifiers, unique-local, link-local or multicast.
pub open spec fn global_v6(s: Seq<u16>) -> bool {
    !{
        ||| forall|i: int| 0 <= i < 8 ==> s[i] == 0
        ||| s[7] == 1 && forall|i: int| 0 <= i < 7 ==> s[i] == 0
        ||| s[0] == 0x0100
        ||| s[0] == 0x2001 && s[1] == 0x0002 && s[2] == 0
        ||| s[0] == 0x2001 && s[1] == 0x0db8
        ||| s[0] == 0x2001 && 0x0010 <= s[1] <= 0x001f
        ||| 0xfc00 <= s[0] <= 0xfdff
        ||| 0xfe80 <= s[0] <= 0xfebf
        ||| 0xff00 <= s[0]
    }
}

/// Whether an IPv6 address embeds an IPv4 one: mapped or compatible.
pub open spec fn embeds_v4(s: Seq<u16>) -> bool {
    (forall|i: int| 0 <= i < 5 ==> s[i] == 0) && (s[5] == 0 || s[5] == 0xffff)
}

/// Whether an address is globally routable. An embedded IPv4 address counts as that address.
pub open spec fn fetchable(ip: Ip) -> bool {
    match ip {
        Ip::V4(o) => global_v4(o[0], o[1], o[2]),
        Ip::V6(s) => if embeds_v4(s@) {
            global_v4((s[6] / 256) as u8, (s[6] % 256) as u8, (s[7] / 256) as u8)
        } else {
            global_v6(s@)
        },
    }
}

/// Whether an IPv4 address is globally routable.
pub fn is_global_v4(a: u8, b: u8, c: u8) -> (res: bool)
    ensures
        res == global_v4(a, b, c),
{
    !(a == 0 || a == 10 || (a == 100 && 64 <= b && b <= 127) || a == 127 || (a == 169 && b == 254)
        || (a == 172 && 16 <= b && b <= 31) || (a == 192 && b == 0 && (c == 0 || c == 2)) || (a
        == 192 && b == 88 && c == 99) || (a == 192 && b == 168) || (a == 198 && (b == 18 || b
        == 19)) || (a == 198 && b == 51 && c == 100) || (a == 203 && b == 0 && c == 113) || a
        >= 224)
}

/// Whether an IPv6 address is globally routable.
pub fn is_global_v6(s: [u16; 8]) -> (res: bool)
    ensures
        res == global_v6(s@),
{
    let leading = s[0] == 0 && s[1] == 0 && s[2] == 0 && s[3] == 0 && s[4] == 0 && s[5] == 0
        && s[6] == 0;
    proof {
        if leading {
            assert forall|i: int| 0 <= i < 7 implies s@[i] == 0 by {}
        }
        if !leading {
            assert(s@[0] != 0 || s@[1] != 0 || s@[2] != 0 || s@[3] != 0 || s@[4] != 0 || s@[5] != 0
                || s@[6] != 0);
        }
    }
    !((leading && (s[7] == 0 || s[7] == 1)) || s[0] == 0x0100 || (s[0] == 0x2001 && s[1] == 0x0002
        && s[2] == 0) || (s[0] == 0x2001 && s[1] == 0x0db8) || (s[0] == 0x2001 && 0x0010 <= s[1]
        && s[1] <= 0x001f) || (0xfc00 <= s[0] && s[0] <= 0xfdff) || (0xfe80 <= s[0] && s[0]
        <= 0xfebf) || 0xff00 <= s[0])
}

/// Whether an address is globally routable.
pub fn is_fetchable_ip(ip: Ip) -> (res: bool)
    ensures
        res == fetchable(ip),
{
    match ip {
        Ip::V4(o) => is_global_v4(o[0], o[1], o[2]),
        Ip::V6(s) => {
            let embedded = s[0] == 0 && s[1] == 0 && s[2] == 0 && s[3] == 0 && s[4] == 0 && (s[5]
                == 0 || s[5] == 0xffff);
            proof {
                if embedded {
                    assert forall|i: int| 0 <= i < 5 implies s@[i] == 0 by {}
                } else {
                    assert(s@[0] != 0 || s@[1] != 0 || s@[2] != 0 || s@[3] != 0 || s@[4] != 0 || (
                    s@[5] != 0 && s@[5] != 0xffff));
                }
            }
            if embedded {
                is_global_v4((s[6] / 256) as u8, (s[6] % 256) as u8, (s[7] / 256) as u8)
            } else {
                is_global_v6(s)
            }
        },
    }
}

/// Whether an address may be connected to.
pub fn may_connect(allow_private_hosts: bool, ip: Ip) -> (res: bool)
    ensures
        res == (allow_private_hosts || fetchable(ip)),
{
    allow_private_hosts || is_fetchable_ip(ip)
}

/// Accepts a target whose host was resolved: one of its addresses must be globally routable, unless
/// private hosts are allowed.
pub fn check_target(allow_private_hosts: bool, addresses: &Vec<Ip>, url: &NormalizedUrl) -> (res:
    Result<(), FetchError>)
    ensures
        if allow_private_hosts || exists|i: int|
            0 <= i < addresses@.len() && fetchable(#[trigger] addresses@[i]) {
            res is Ok
        } else {
            res matches Err(FetchError::Protocol(m)) && m@
                == "no fetchable (global) address for "@ + url@.href + " — §12 SSRF guard"@
        },
{
    if allow_private_hosts {
        return Ok(());
    }
    let mut i: usize = 0;
    while i < addresses.len()
        invariant
            i <= addresses@.len(),
            forall|j: int| 0 <= j < i ==> !fetchable(#[trigger] addresses@[j]),
        decreases addresses@.len() - i,
    {
        if is_fetchable_ip(addresses[i]) {
            assert(fetchable(addresses@[i as int]));
            return Ok(());
        }
        i = i + 1;
    }
    let mut s = "no fetchable (global) address for ".to_owned();
    s.append(url.as_str());
    s.append(" — §12 SSRF guard");
    Err(FetchError::Protocol(s))
}

// ---------------------------------------------------------------------------------------------
// Laws.
// ---------------------------------------------------------------------------------------------
/// Loopback and the private ranges are never fetched, in either version of the protocol.
pub proof fn law_private_addresses_are_not_fetchable(b: u8, c: u8, d: u8)
    ensures
        !fetchable(Ip::V4([127, b, c, d])),
        !fetchable(Ip::V4([10, b, c, d])),
        !fetchable(Ip::V4([192, 168, c, d])),
        !fetchable(Ip::V4([169, 254, c, d])),
        16 <= b <= 31 ==> !fetchable(Ip::V4([172, b, c, d])),
{
}

/// An IPv4 address embedded in an IPv6 one is fetched exactly where it is fetched itself.
pub proof fn law_embedded_addresses_inherit(hi: u16, lo: u16, mapped: bool)
    ensures
        ({
            let mark: u16 = if mapped {
                0xffff
            } else {
                0
            };
            fetchable(Ip::V6([0, 0, 0, 0, 0, mark, hi, lo])) == global_v4(
                (hi / 256) as u8,
                (hi % 256) as u8,
                (lo / 256) as u8,
            )
        }),
{
    let mark: u16 = if mapped {
        0xffff
    } else {
        0
    };
    let s: [u16; 8] = [0, 0, 0, 0, 0, mark, hi, lo];
    assert(forall|i: int| 0 <= i < 5 ==> s@[i] == 0);
}

/// Rules that are missing allow everything, rules that cannot be had allow nothing: only where the answer is
/// `404` or `410` is everything allowed, only a success is read, and a failed request, a server error, a
/// redirect and a refusal disallow everything.
pub proof fn law_unreadable_rules_disallow(status: Option<u16>, step: RobotsStep)
    requires
        call_ensures(robots_step, (status,), step),
    ensures
        step == RobotsStep::AllowAll <==> status == Some(404u16) || status == Some(410u16),
        step == RobotsStep::ReadBody <==> (status matches Some(s) && s / 100 == 2),
        status is None ==> step == RobotsStep::DisallowAll,
        (status matches Some(s) && (s / 100 == 5 || s == 401 || s == 403 || s == 429 || s / 100 == 3))
            ==> step == RobotsStep::DisallowAll,
{
}

/// How the head of a final response is answered goes by its status, once the payload can be consumed: a
/// success is read, a block is told from a missing target, and any other status is a failure; a document
/// that did not change is done without a body.
pub proof fn law_statuses_decide(
    head: &ResponseHead,
    url: &NormalizedUrl,
    now: &str,
    res: Result<Finish, FetchError>,
)
    requires
        call_ensures(finish_head, (head, url, now), res),
    ensures
        head.status == 304 <==> (res matches Ok(Finish::NotModified(_))),
        res matches Ok(Finish::NotModified(doc)) ==> doc.html@.len() == 0 && doc.status == 304
            && doc.final_url@ == url@.href && opt_text(doc.etag) == opt_text(head.etag) && opt_text(
            doc.last_modified,
        ) == opt_text(head.last_modified) && doc.fetched_at@ == now@,
        res matches Ok(Finish::ReadBody) ==> head.status / 100 == 2,
        (res matches Err(FetchError::AntiBot { .. })) ==> head.status == 403 || head.status == 429,
        (res matches Err(FetchError::NotFound { .. })) ==> head.status == 404 || head.status == 410,
        res matches Err(FetchError::AntiBot { url: u }) ==> u@ == url@.href,
        res matches Err(FetchError::NotFound { url: u }) ==> u@ == url@.href,
        head.content_type is None && head.status / 100 == 2 ==> (res matches Ok(Finish::ReadBody)),
        head.content_type is None && (head.status == 403 || head.status == 429) ==> (res matches Err(
            FetchError::AntiBot { .. },
        )),
        head.content_type is None && (head.status == 404 || head.status == 410) ==> (res matches Err(
            FetchError::NotFound { .. },
        )),
        head.status / 100 == 5 || head.status == 401 ==> (res matches Err(FetchError::Protocol(_))),
{
}

/// Text, HTML, XML and JSON can be consumed, however they are capitalized and whatever parameters follow, and
/// so can a payload without a label; an image, a sound, a film or an archive cannot.
pub proof fn law_texts_are_consumed(
    major: Seq<char>,
    minor: Seq<char>,
    parameters: Seq<char>,
    label: &str,
    labeled: bool,
    unlabeled: bool,
)
    requires
        call_ensures(is_fetchable_content, (Some(label),), labeled),
        call_ensures(is_fetchable_content, (None,), unlabeled),
        minor.len() > 0,
        forall|i: int| 0 <= i < major.len() ==> #[trigger] major[i] != ';' && major[i] != '/',
        forall|i: int| 0 <= i < minor.len() ==> #[trigger] minor[i] != ';' && minor[i] != '/',
        major.len() > 0,
        !crate::text::is_white(major[0]),
        !crate::text::is_white(minor.last()),
        label@ == major + "/"@ + minor + ";"@ + parameters,
    ensures
        unlabeled,
        lower_ascii(major) == "text"@ ==> labeled,
        lower_ascii(minor) == "html"@ || lower_ascii(minor) == "xhtml+xml"@ || lower_ascii(minor)
            == "json"@ || lower_ascii(minor) == "ld+json"@ || lower_ascii(minor) == "rss+xml"@
            ==> labeled,
        lower_ascii(major) != "text"@ && (lower_ascii(minor) == "png"@ || lower_ascii(minor)
            == "octet-stream"@ || lower_ascii(minor) == "zip"@ || lower_ascii(minor) == "pdf"@)
            ==> !labeled,
{
    let kind = major + "/"@ + minor;
    reveal_strlit("/");
    reveal_strlit(";");
    reveal_strlit("text");
    reveal_strlit("text/");
    reveal_strlit("html");
    reveal_strlit("+xml");
    reveal_strlit("xhtml+xml");
    reveal_strlit("rss+xml");
    reveal_strlit("json");
    reveal_strlit("ld+json");
    reveal_strlit("png");
    reveal_strlit("octet-stream");
    reveal_strlit("zip");
    reveal_strlit("pdf");
    let n = kind.len() as int;
    assert forall|i: int| 0 <= i < n implies #[trigger] label@[i] != ';' by {
        if i < major.len() {
            assert(label@[i] == major[i]);
        } else if i > major.len() {
            assert(label@[i] == minor[i - major.len() - 1]);
        }
    }
    assert(label@[n] == ';');
    crate::text::lemma_find_by_unique(label@, crate::text::is_char(';'), n);
    assert(label@.take(n) =~= kind);
    assert(kind[0] == major[0]);
    assert(kind.last() == minor.last());
    crate::text::lemma_trim_start_by(kind, crate::text::white(), 0);
    assert(kind.skip(0) =~= kind);
    crate::text::lemma_trim_end_by(kind, crate::text::white(), n);
    assert(kind.take(n) =~= kind);
    let low = lower_ascii(kind);
    assert(media_type(label@) == low);
    let (a, b) = (lower_ascii(major), lower_ascii(minor));
    assert(low =~= a + "/"@ + b) by {
        assert(crate::text::lower_char('/') == '/');
    }
    assert(forall|i: int| 0 <= i < b.len() ==> low[a.len() + 1 + i] == b[i]);
    assert(low.skip(low.len() - b.len()) =~= b);
    if a == "text"@ {
        assert(low.take(5) =~= "text/"@);
    }
    if b == "html"@ {
        assert(low.skip(low.len() - 4) =~= "html"@);
    }
    if b == "xhtml+xml"@ || b == "rss+xml"@ {
        assert(low.skip(low.len() - 4) =~= "+xml"@) by {
            assert(forall|i: int|
                0 <= i < 4 ==> #[trigger] low.skip(low.len() - 4)[i] == b[b.len() - 4 + i]);
        }
    }
    if b == "json"@ || b == "ld+json"@ {
        assert(low.skip(low.len() - 4) =~= "json"@) by {
            assert(forall|i: int|
                0 <= i < 4 ==> #[trigger] low.skip(low.len() - 4)[i] == b[b.len() - 4 + i]);
        }
    }
    if a != "text"@ && (b == "png"@ || b == "octet-stream"@ || b == "zip"@ || b == "pdf"@) {
        assert(low.last() == b.last());
        if has_prefix(low, "text/"@) {
            assert(low.take(5) =~= "text/"@);
            assert(low[4] == "text/"@[4]);
            assert(low[4] == '/');
            assert(a.len() <= 4) by {
                if a.len() > 4 {
                    assert(low[4] == a[4]);
                    assert(a[4] == crate::text::lower_char(major[4]));
                }
            }
            assert(low[a.len() as int] == '/');
            assert(a.len() == 4) by {
                if a.len() < 4 {
                    assert(low.take(5)[a.len() as int] == '/');
                    assert("text/"@[a.len() as int] == '/');
                }
            }
            assert(a =~= "text"@) by {
                let t = low.take(5);
                assert(t == "text/"@);
                assert(t[0] == 't' && t[1] == 'e' && t[2] == 'x' && t[3] == 't');
                assert(low[0] == a[0] && low[1] == a[1] && low[2] == a[2] && low[3] == a[3]);
            }
        }
        if has_suffix(low, "html"@) {
            assert(low.skip(low.len() - 4)[3] == 'l');
        }
        if has_suffix(low, "+xml"@) {
            assert(low.skip(low.len() - 4)[3] == 'l');
        }
        if has_suffix(low, "json"@) {
            assert(low.skip(low.len() - 4)[3] == 'n');
        }
    }
}

/// A redirect is followed where it leads to the web and not too many were: only such a status is, what has no
/// readable target or is one too many fails, and the next address is the target relative to the present
/// one.
pub proof fn law_redirects_are_bounded(
    status: u16,
    location: &Location,
    current: &NormalizedUrl,
    start: &NormalizedUrl,
    used: usize,
    max: usize,
    res: Result<Option<NormalizedUrl>, FetchError>,
)
    requires
        call_ensures(redirect_step, (status, location, current, start, used, max), res),
    ensures
        status / 100 != 3 || status == 304 ==> (res matches Ok(None)),
        res matches Ok(None) ==> status / 100 != 3 || status == 304,
        res matches Ok(Some(next)) ==> used < max && (location matches Location::To(target)
            && joined_parts(current@.href, target@) matches Some(v) && next@.host == v.host
            && next@.scheme == v.scheme && (v.scheme == "http"@ || v.scheme == "https"@)),
        status / 100 == 3 && status != 304 && used >= max ==> (res matches Err(FetchError::Protocol(_))),
        status / 100 == 3 && status != 304 && (location matches Location::Missing) ==> (res matches Err(
            FetchError::Protocol(_),
        )),
        status / 100 == 3 && status != 304 && used < max && (location matches Location::To(target)
            && joined_parts(current@.href, target@) matches Some(v) && (v.scheme == "http"@ || v.scheme
            == "https"@)) ==> (res matches Ok(Some(_))),
{
}

/// A body is kept whole or refused: one of as many bytes as are accepted is taken, one of more is not, and the
/// document tells the address, the status and the labels of the response.
pub proof fn law_bodies_are_bounded(
    head: &ResponseHead,
    body: &[u8],
    url: &NormalizedUrl,
    max: usize,
    now: &str,
    res: Result<FetchedDoc, FetchError>,
)
    requires
        call_ensures(finish_body, (head, body, url, max, now), res),
    ensures
        res is Ok <==> body@.len() <= max,
        res matches Ok(doc) ==> doc.html@ == utf8_lossy(body@) && !doc.js_executed && doc.final_url@
            == url@.href && doc.status == head.status && opt_text(doc.content_type) == opt_text(
            head.content_type,
        ) && opt_text(doc.etag) == opt_text(head.etag) && opt_text(doc.last_modified) == opt_text(
            head.last_modified,
        ) && doc.fetched_at@ == now@,
{
}

/// Politeness costs no more than it must: the first request to a host does not wait, a later one waits until
/// the larger of the two floors has passed since the time that the host was last given, and no longer;
/// the other hosts are not touched.
pub proof fn law_requests_wait_no_longer(
    politeness: &mut Politeness,
    host: &str,
    now: u64,
    policy: u64,
    res: Option<u64>,
    other: Seq<char>,
)
    requires
        call_ensures(Politeness::politeness_wait, (politeness, host, now, policy), res),
    ensures
        !old(politeness).last().contains_key(host@) ==> res == Some(0u64) && final(politeness).last().contains_key(host@) && final(politeness).last()[host@] == now,
        old(politeness).last().contains_key(host@) ==> {
            let before = old(politeness).last()[host@];
            let floor = if policy < old(politeness).rate_limit() {
                old(politeness).rate_limit()
            } else {
                policy
            };
            &&& before + floor <= now ==> res == Some(0u64) && final(politeness).last()[host@] == now
            &&& now < before + floor <= u64::MAX ==> res is Some && now + res->0 == before + floor
                && final(politeness).last()[host@] == before + floor
        },
        other != host@ ==> final(politeness).last().contains_key(other) == old(politeness).last().contains_key(other) && (old(politeness).last().contains_key(other) ==> final(politeness).last()[other] == old(politeness).last()[other]),
{
}

/// Only public addresses are connected to where private hosts are not allowed: the local, private, shared,
/// link-local, multicast and reserved ones of both versions are not, and an address of the open internet
/// is.
pub proof fn law_only_public_addresses_are_connected_to(ip: Ip, res: bool, allowed: bool)
    requires
        call_ensures(may_connect, (false, ip), res),
        call_ensures(may_connect, (true, ip), allowed),
    ensures
        allowed,
        ip matches Ip::V4(o) ==> (o[0] == 0 || o[0] == 10 || o[0] == 127 || o[0] >= 224 || (o[0] == 100
            && o[1] / 64 == 1) || (o[0] == 169 && o[1] == 254) || (o[0] == 172 && o[1] / 16 == 1) || (
        o[0] == 192 && o[1] == 168)) ==> !res,
        ip matches Ip::V4(o) ==> o[0] == 1 || o[0] == 8 || (11 <= o[0] <= 99) || (101 <= o[0] <= 126)
            || (128 <= o[0] <= 168) || (173 <= o[0] <= 191) || (193 <= o[0] <= 197) || (204 <= o[0]
            <= 223) || (o[0] == 100 && o[1] < 64) || (o[0] == 172 && o[1] < 16) || (o[0] == 172
            && o[1] >= 32) ==> res,
        ip matches Ip::V6(s) ==> (s[0] / 512 == 0x7e || s[0] / 64 == 0x3fa || s[0] / 256 == 0xff || (s[0]
            == 0x2001 && s[1] == 0x0db8)) ==> !res,
        ip matches Ip::V6(s) ==> (s[0] == 0 && s[1] == 0 && s[2] == 0 && s[3] == 0 && s[4] == 0 && s[5]
            == 0 && s[6] == 0 && s[7] <= 1) ==> !res,
        ip matches Ip::V6(s) ==> (0x2002 <= s[0] <= 0x3fff || (s[0] == 0x2001 && s[1] >= 0x0db9)) ==> res,
{
    if let Ip::V6(s) = ip {
        assert(s@[0] == s[0]);
    }
}

/// A target is accepted where one of its addresses is public, wherever in the list it stands; a target that
/// has none is refused unless private hosts are allowed.
pub proof fn law_one_public_address_is_enough(
    addresses: &Vec<Ip>,
    url: &NormalizedUrl,
    allow: bool,
    res: Result<(), FetchError>,
    each: Seq<bool>,
)
    requires
        call_ensures(check_target, (allow, addresses, url), res),
        each.len() == addresses@.len(),
        forall|i: int|
            0 <= i < each.len() ==> call_ensures(
                is_fetchable_ip,
                (#[trigger] addresses@[i],),
                #[trigger] each[i],
            ),
    ensures
        res is Ok <==> allow || each.contains(true),
        !(res is Ok) ==> (res matches Err(FetchError::Protocol(_))),
{
    if each.contains(true) {
        let i = choose|i: int| 0 <= i < each.len() && each[i] == true;
        assert(call_ensures(is_fetchable_ip, (addresses@[i],), each[i]));
        assert(fetchable(addresses@[i]));
    }
    if exists|i: int| 0 <= i < addresses@.len() && fetchable(#[trigger] addresses@[i]) {
        let i = choose|i: int| 0 <= i < addresses@.len() && fetchable(#[trigger] addresses@[i]);
        assert(call_ensures(is_fetchable_ip, (addresses@[i],), each[i]));
        assert(each[i] == true);
        assert(each.contains(each[i]));
    }
}

/// A fetch goes on exactly where the rules were had and allow the crawler its target.
pub proof fn law_refused_paths_are_not_fetched(
    decision: &RobotsDecision,
    url: &NormalizedUrl,
    target: &str,
    agent: &str,
    allowed: bool,
    res: Result<(), FetchError>,
)
    requires
        call_ensures(check_robots, (decision, url), res),
        call_ensures(Robots::allows, (&decision.robots, agent, target), allowed),
        agent@ == "ohara"@,
        target@ == super::target_of(url@),
    ensures
        res is Ok <==> !decision.disallow_all && allowed,
{
    let groups = decision.robots@;
    let found = choose|found: Seq<RuleView>| #[trigger]
        rules_of(groups, lower_ascii(agent@), found) && allowed == rules_allow(found, target@);
    if crawler_allowed(groups, target@) {
        let other = choose|rules: Seq<RuleView>| #[trigger]
            rules_of(groups, lower_ascii(AGENT_TOKEN@), rules) && rules_allow(rules, target@);
        super::robots::law_rules_are_determined(groups, lower_ascii(agent@), found, other);
    }
}

} // verus!
