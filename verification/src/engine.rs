//! Engine plane: normalized addresses, the fetch taxonomy, and the decisions of every fetch leg.

use vstd::prelude::*;
use vstd::string::StringExecFns;

use crate::order::{
    key_views, lemma_ordered_pick_exists, lemma_ordered_pick_unique, ordered_pick, sort_picked,
    SortKey,
};
use crate::text::{debug_form, debug_string, decimal, decimal_string, has_prefix, opt_text};
use crate::text::{lower_ascii, same, starts_with};
use crate::web::{
    drop_fragment, encode_pairs, encoded_pairs, is_web_scheme, join_url, joined_error,
    joined_parts, opt_ref, pair_views, parse_url, path_named, path_of, port_named, port_of,
    query_named, query_of, query_pairs, query_text, replace_query, serializes, settled,
    unfragmented, url_error, url_parts, with_query, UrlParts, UrlView,
};
use crate::Class;

pub mod http;
pub mod ladder;
pub mod llm;
pub mod obscura;
pub mod robots;
pub mod topic_search;

verus! {

/// Whether a query parameter only tracks where a reader came from: the `utm_` family, and the names
/// that the large platforms add.
pub open spec fn tracking(key: Seq<char>) -> bool {
    ||| has_prefix(key, "utm_"@)
    ||| key == "_hsenc"@
    ||| key == "_hsmi"@
    ||| key == "dclid"@
    ||| key == "fbclid"@
    ||| key == "gclid"@
    ||| key == "igshid"@
    ||| key == "irclid"@
    ||| key == "mc_cid"@
    ||| key == "mc_eid"@
    ||| key == "msclkid"@
    ||| key == "ref_src"@
    ||| key == "ref_url"@
    ||| key == "twclid"@
}

/// Whether a query parameter only tracks where a reader came from.
pub fn is_tracking_param(key: &str) -> (res: bool)
    ensures
        res == tracking(key@),
{
    starts_with(key, "utm_") || same(key, "_hsenc") || same(key, "_hsmi") || same(key, "dclid")
        || same(key, "fbclid") || same(key, "gclid") || same(key, "igshid") || same(key, "irclid")
        || same(key, "mc_cid") || same(key, "mc_eid") || same(key, "msclkid") || same(
        key,
        "ref_src",
    ) || same(key, "ref_url") || same(key, "twclid")
}

/// Which parameters stay.
pub open spec fn kept_flags(pairs: Seq<(Seq<char>, Seq<char>)>) -> Seq<bool> {
    pairs.map_values(|p: (Seq<char>, Seq<char>)| !tracking(p.0))
}

/// The places of the parameters that stay, in the order of names and values.
pub open spec fn kept_order(pairs: Seq<(Seq<char>, Seq<char>)>) -> Seq<int> {
    choose|order: Seq<int>| #[trigger]
        ordered_pick::<(String, String)>(pairs, kept_flags(pairs), order)
}

/// The parameters that stay, ordered by name and value.
pub open spec fn kept_pairs(pairs: Seq<(Seq<char>, Seq<char>)>) -> Seq<(Seq<char>, Seq<char>)> {
    kept_order(pairs).map_values(|i: int| pairs[i])
}

/// The query of the parameters that stay; none where none stays.
pub open spec fn rebuilt_query(pairs: Seq<(Seq<char>, Seq<char>)>) -> Option<Seq<char>> {
    let rebuilt = encoded_pairs(kept_pairs(pairs));
    if rebuilt.len() == 0 {
        None
    } else {
        Some(rebuilt)
    }
}

/// The normal form of an absolute address: no fragment, and the parameters that do not track,
/// ordered by name and value.
pub open spec fn normal_form(href: Seq<char>) -> Seq<char> {
    let bare = unfragmented(href);
    with_query(bare, rebuilt_query(query_of(bare)))
}

fn keep_pairs(pairs: &Vec<(String, String)>) -> (res: Vec<(String, String)>)
    ensures
        pair_views(res@) == kept_pairs(pair_views(pairs@)),
{
    let ghost all = pair_views(pairs@);
    let mut pick: Vec<bool> = Vec::new();
    let mut i: usize = 0;
    while i < pairs.len()
        invariant
            i <= pairs@.len(),
            all == pair_views(pairs@),
            pick@ =~= kept_flags(all).take(i as int),
        decreases pairs@.len() - i,
    {
        assert(all[i as int] == (pairs@[i as int].0@, pairs@[i as int].1@));
        pick.push(!is_tracking_param(pairs[i].0.as_str()));
        i = i + 1;
    }
    assert(kept_flags(all).take(i as int) =~= kept_flags(all));
    let order = sort_picked(pairs, &pick);
    let ghost indices = order@.map_values(|i: usize| i as int);
    proof {
        assert(key_views(pairs@) =~= all);
        lemma_ordered_pick_unique::<(String, String)>(
            all,
            kept_flags(all),
            indices,
            kept_order(all),
        );
    }
    let mut res: Vec<(String, String)> = Vec::new();
    let mut k: usize = 0;
    while k < order.len()
        invariant
            k <= order@.len(),
            all == pair_views(pairs@),
            indices == order@.map_values(|i: usize| i as int),
            forall|j: int| 0 <= j < order@.len() ==> #[trigger] order@[j] < pairs@.len(),
            pair_views(res@) =~= indices.take(k as int).map_values(|i: int| all[i]),
        decreases order@.len() - k,
    {
        let ghost before = pair_views(res@);
        let at: usize = order[k];
        let pair = (pairs[at].0.clone(), pairs[at].1.clone());
        assert(all[at as int] == (pair.0@, pair.1@));
        res.push(pair);
        assert(pair_views(res@) =~= before.push(all[at as int]));
        k = k + 1;
    }
    assert(indices.take(k as int) =~= indices);
    res
}

/// URL validation failures.
#[derive(Debug, Clone, PartialEq, Eq)]
pub enum UrlError {
    /// The input is not a parseable URL.
    Invalid(String),
    /// The scheme is not `http`/`https`.
    Scheme(String),
}

impl UrlError {
    /// The message of the error.
    pub open spec fn text(self) -> Seq<char> {
        match self {
            UrlError::Invalid(m) => "invalid url: "@ + m@,
            UrlError::Scheme(s) => "unsupported scheme "@ + debug_form(s@)
                + ": only http/https are fetched"@,
        }
    }

    /// The message of the error.
    pub fn message(&self) -> (res: String)
        ensures
            res@ == self.text(),
    {
        match self {
            UrlError::Invalid(m) => {
                let mut s = "invalid url: ".to_owned();
                s.append(m.as_str());
                s
            },
            UrlError::Scheme(scheme) => {
                let mut s = "unsupported scheme ".to_owned();
                s.append(debug_string(scheme.as_str()).as_str());
                s.append(": only http/https are fetched");
                s
            },
        }
    }
}

/// A validated, normalized URL: parsed once at the boundary.
///
/// Scheme and host are in lower case and internationalized hosts in their ASCII form, default ports
/// and fragments are dropped, query parameters sorted, tracking parameters stripped.
#[derive(Debug, PartialEq, Eq, Hash)]
pub struct NormalizedUrl {
    href: String,
    scheme: String,
    host: Option<String>,
}

impl View for NormalizedUrl {
    type V = UrlView;

    closed spec fn view(&self) -> UrlView {
        UrlView { href: self.href@, scheme: self.scheme@, host: opt_text(self.host) }
    }
}

/// Whether no parameter tracks, and all are ordered by name and value.
pub open spec fn clean_query(pairs: Seq<(Seq<char>, Seq<char>)>) -> bool {
    &&& forall|i: int| 0 <= i < pairs.len() ==> !tracking((#[trigger] pairs[i]).0)
    &&& forall|i: int, j: int|
        0 <= i < j < pairs.len() ==> !crate::order::pair_less(
            #[trigger] pairs[j],
            #[trigger] pairs[i],
        )
}

/// Whether an address is in normal form: its scheme is `http` or `https`, its host is in lower case, it
/// has no fragment, none of its parameters tracks, they are ordered, and normalizing it changes
/// nothing.
pub open spec fn is_normal(v: UrlView) -> bool {
    &&& settled(v)
    &&& unfragmented(v.href) == v.href
    &&& clean_query(query_of(v.href))
    &&& normal_form(v.href) == v.href
}

/// The port at which an address of the web is reached: the one it names, or else the default one of its
/// scheme.
pub open spec fn port_to_connect(v: UrlView) -> u16 {
    match port_named(v.href) {
        Some(port) => port,
        None => if v.scheme == "https"@ {
            443
        } else {
            80
        },
    }
}

/// The origin of an address.
pub open spec fn origin_of(v: UrlView) -> Seq<char> {
    let site = v.scheme + "://"@ + match v.host {
        Some(h) => h,
        None => ""@,
    };
    match port_named(v.href) {
        Some(port) => site + ":"@ + decimal(port as nat),
        None => site,
    }
}

/// The path and the query of an address.
pub open spec fn target_of(v: UrlView) -> Seq<char> {
    match query_named(v.href) {
        Some(query) => path_named(v.href) + "?"@ + query,
        None => path_named(v.href),
    }
}

/// What normalizing the address that was read gives.
pub open spec fn normalized(v: UrlView, res: Result<NormalizedUrl, UrlError>) -> bool {
    if v.is_web() {
        &&& res is Ok
        &&& res->Ok_0@ == (UrlView { href: normal_form(v.href), ..v })
        &&& is_normal(res->Ok_0@)
    } else {
        res matches Err(UrlError::Scheme(s)) && s@ == v.scheme
    }
}

impl NormalizedUrl {
    #[verifier::type_invariant]
    spec fn inv(&self) -> bool {
        is_normal(self@)
    }

    /// Parses `raw`, relative to `final_url` where it is relative, and normalizes it. Only `http`
    /// and `https` are accepted.
    pub fn new(raw: &str, final_url: &str) -> (res: Result<NormalizedUrl, UrlError>)
        ensures
            match url_parts(final_url@) {
                None => res matches Err(UrlError::Invalid(m)) && m@ == url_error(final_url@),
                Some(_) => match joined_parts(final_url@, raw@) {
                    None => res matches Err(UrlError::Invalid(m)) && m@ == joined_error(
                        final_url@,
                        raw@,
                    ),
                    Some(v) => normalized(v, res),
                },
            },
    {
        match parse_url(final_url) {
            Err(e) => Err(UrlError::Invalid(e)),
            Ok(_) => match join_url(final_url, raw) {
                Err(e) => Err(UrlError::Invalid(e)),
                Ok(parts) => Self::normalize(parts),
            },
        }
    }

    /// Parses an absolute URL and normalizes it. Only `http` and `https` are accepted.
    pub fn parse(raw: &str) -> (res: Result<NormalizedUrl, UrlError>)
        ensures
            match url_parts(raw@) {
                None => res matches Err(UrlError::Invalid(m)) && m@ == url_error(raw@),
                Some(v) => normalized(v, res),
            },
    {
        match parse_url(raw) {
            Err(e) => Err(UrlError::Invalid(e)),
            Ok(parts) => Self::normalize(parts),
        }
    }

    fn normalize(parts: UrlParts) -> (res: Result<NormalizedUrl, UrlError>)
        requires
            parts@.is_web() ==> settled(parts@),
        ensures
            normalized(parts@, res),
    {
        if !is_web_scheme(parts.scheme.as_str()) {
            return Err(UrlError::Scheme(parts.scheme));
        }
        let ghost v = parts@;
        let bare = drop_fragment(parts.href.as_str());
        let ghost bare_view = UrlView { href: bare@, ..v };
        assert(serializes(bare@, bare_view));
        let pairs = query_pairs(bare.as_str());
        let kept = keep_pairs(&pairs);
        let rebuilt = encode_pairs(&kept);
        let ghost all = query_of(bare@);
        let query = if rebuilt.as_str().is_empty() {
            None
        } else {
            Some(rebuilt.as_str())
        };
        assert(opt_ref(query) == rebuilt_query(all));
        let href = replace_query(bare.as_str(), query);
        let ghost done = UrlView { href: href@, ..v };
        proof {
            assert(serializes(href@, done));
            if query is None {
                assert(kept@.len() == 0);
                assert(pair_views(kept@) =~= seq![]);
                assert(query_of(href@) =~= kept_pairs(all));
            } else {
                assert(query_of(href@) == kept_pairs(all));
            }
            lemma_kept_again(all);
            assert(rebuilt_query(query_of(href@)) == rebuilt_query(all));
            law_kept_parameters_do_not_track(all);
            assert(normal_form(href@) == href@);
        }
        let res = NormalizedUrl { href, scheme: parts.scheme, host: parts.host };
        assert(res@ =~= done);
        Ok(res)
    }

    /// The normalized URL as a string.
    pub fn as_str(&self) -> (res: &str)
        ensures
            res@ == self@.href,
            is_normal(self@),
    {
        proof {
            use_type_invariant(self);
        }
        self.href.as_str()
    }

    /// The host, for per-host policy lookups; it is in lower case.
    pub fn host_str(&self) -> (res: &str)
        ensures
            res@ == match self@.host {
                Some(h) => h,
                None => ""@,
            },
            lower_ascii(res@) == res@,
    {
        proof {
            use_type_invariant(self);
            reveal_strlit("");
            assert(lower_ascii(""@) =~= ""@);
        }
        match &self.host {
            Some(h) => h.as_str(),
            None => "",
        }
    }

    /// The scheme, the host and the port that is not the default one: what `robots.txt` applies to.
    pub fn origin_key(&self) -> (res: String)
        ensures
            res@ == origin_of(self@),
    {
        proof {
            use_type_invariant(self);
        }
        let mut s = self.scheme.clone();
        s.append("://");
        s.append(self.host_str());
        if let Some(port) = port_of(self.href.as_str()) {
            s.append(":");
            s.append(decimal_string(port as u64).as_str());
        }
        s
    }

    /// The port to connect to.
    pub fn port(&self) -> (res: u16)
        ensures
            res == port_to_connect(self@),
    {
        proof {
            use_type_invariant(self);
        }
        match port_of(self.href.as_str()) {
            Some(port) => port,
            None => if same(self.scheme.as_str(), "https") {
                443
            } else {
                80
            },
        }
    }

    /// The path and the query, as sent.
    pub fn path_and_query(&self) -> (res: String)
        ensures
            res@ == target_of(self@),
    {
        proof {
            use_type_invariant(self);
        }
        let mut s = path_of(self.href.as_str());
        if let Some(query) = query_text(self.href.as_str()) {
            s.append("?");
            s.append(query.as_str());
        }
        s
    }

    /// The scheme: `http` or `https`.
    pub fn scheme(&self) -> (res: &str)
        ensures
            res@ == self@.scheme,
            res@ == "http"@ || res@ == "https"@,
    {
        proof {
            use_type_invariant(self);
        }
        self.scheme.as_str()
    }
}

impl Clone for NormalizedUrl {
    fn clone(&self) -> (res: NormalizedUrl)
        ensures
            res@ == self@,
    {
        proof {
            use_type_invariant(self);
        }
        let host = crate::text::copy_opt(&self.host);
        let href = self.href.clone();
        let scheme = self.scheme.clone();
        assert(UrlView { href: href@, scheme: scheme@, host: opt_text(host) } =~= self@);
        NormalizedUrl { href, scheme, host }
    }
}

/// Keeping the parameters that stay, and ordering them, a second time changes nothing.
pub proof fn lemma_kept_again(pairs: Seq<(Seq<char>, Seq<char>)>)
    ensures
        kept_pairs(kept_pairs(pairs)) == kept_pairs(pairs),
{
    lemma_ordered_pick_exists::<(String, String)>(pairs, kept_flags(pairs));
    let order = kept_order(pairs);
    let flags = kept_flags(pairs);
    assert(ordered_pick::<(String, String)>(pairs, flags, order));
    let k = kept_pairs(pairs);
    lemma_ordered_pick_exists::<(String, String)>(k, kept_flags(k));
    let id = Seq::new(k.len(), |i: int| i);
    assert(ordered_pick::<(String, String)>(k, kept_flags(k), id)) by {
        assert forall|a: int, b: int| 0 <= a < b < id.len() implies crate::order::row_before::<
            (String, String),
        >(k, #[trigger] id[a], #[trigger] id[b]) by {
            assert(crate::order::row_before::<(String, String)>(pairs, order[a], order[b]));
            assert(k[a] == pairs[order[a]] && k[b] == pairs[order[b]]);
        }
        assert forall|i: int| #[trigger]
            id.contains(i) <==> 0 <= i < k.len() && i < kept_flags(k).len() && kept_flags(
                k,
            )[i] by {
            if 0 <= i < k.len() {
                assert(id[i] == i);
                assert(order.contains(order[i]));
                assert(flags[order[i]]);
                assert(k[i] == pairs[order[i]]);
            }
        }
    }
    lemma_ordered_pick_unique::<(String, String)>(k, kept_flags(k), id, kept_order(k));
    assert(kept_pairs(k) =~= k);
}

/// Normalization is idempotent: the normalized form parses to itself.
pub proof fn law_normalization_is_idempotent(v: UrlView, again: Result<NormalizedUrl, UrlError>)
    requires
        is_normal(v),
        normalized(v, again),
    ensures
        url_parts(v.href) == Some(v),
        again is Ok,
        again->Ok_0@ == v,
{
    assert(again->Ok_0@ =~= v);
}

/// No parameter that tracks is left, and those left are in order.
pub proof fn law_kept_parameters_do_not_track(pairs: Seq<(Seq<char>, Seq<char>)>)
    ensures
        clean_query(kept_pairs(pairs)),
{
    lemma_ordered_pick_exists::<(String, String)>(pairs, kept_flags(pairs));
    let order = kept_order(pairs);
    assert(ordered_pick::<(String, String)>(pairs, kept_flags(pairs), order));
    let k = kept_pairs(pairs);
    assert forall|i: int| 0 <= i < k.len() implies !tracking((#[trigger] k[i]).0) by {
        assert(order.contains(order[i]));
        assert(kept_flags(pairs)[order[i]]);
    }
    assert forall|i: int, j: int| 0 <= i < j < k.len() implies !crate::order::pair_less(
        #[trigger] k[j],
        #[trigger] k[i],
    ) by {
        assert(crate::order::row_before::<(String, String)>(pairs, order[i], order[j]));
        <(String, String) as SortKey>::lemma_order(k[i], k[j], k[i]);
        <(String, String) as SortKey>::lemma_order(k[j], k[i], k[j]);
    }
}

// ---------------------------------------------------------------------------------------------
// The fetch taxonomy.
// ---------------------------------------------------------------------------------------------
/// A leg of the fetch ladder.
#[derive(Debug, Clone, Copy, PartialEq, Eq, PartialOrd, Ord, Structural)]
pub enum FetchLeg {
    /// Plain HTTP: fast and cheap, but no JavaScript or stealth support.
    Plain,
    /// Browser-profile HTTP impersonation without JavaScript execution.
    Impersonate,
    /// JavaScript-rendering and stealth subprocess.
    Browser,
}

/// Per-fetch policy. The rate limit is a floor addition: a fetcher never goes faster than its own
/// default or this value, whichever is larger.
#[derive(Debug, Clone, Copy, PartialEq, Eq, Structural)]
pub struct FetchPolicy {
    /// Minimum ladder capability to use for this request.
    pub start_leg: FetchLeg,
    /// Minimum spacing between requests to one host in milliseconds; zero keeps the fetcher's own
    /// default.
    pub rate_limit_ms: u64,
    /// Honor `robots.txt` for this fetch.
    pub robots: bool,
}

impl Default for FetchPolicy {
    fn default() -> (res: FetchPolicy)
        ensures
            res == (FetchPolicy { start_leg: FetchLeg::Plain, rate_limit_ms: 0, robots: true }),
    {
        FetchPolicy { start_leg: FetchLeg::Plain, rate_limit_ms: 0, robots: true }
    }
}

/// HTTP validators from the last successful fetch. They apply to the first request only; redirect
/// targets are requested normally.
#[derive(Debug, Clone, PartialEq, Eq)]
pub struct FetchValidators {
    /// The server's entity tag, if it supplied one.
    pub etag: Option<String>,
    /// The server's last-modified timestamp, if it supplied one.
    pub last_modified: Option<String>,
}

impl Default for FetchValidators {
    fn default() -> (res: FetchValidators)
        ensures
            res.etag is None,
            res.last_modified is None,
    {
        FetchValidators { etag: None, last_modified: None }
    }
}

/// What was fetched, labeled.
#[derive(Debug, Clone)]
pub struct FetchedDoc {
    /// Raw response body (HTML, or whatever the server returned).
    pub html: String,
    /// Whether JavaScript rendering was executed for this fetch.
    pub js_executed: bool,
    /// URL after redirects: the base for relative-link resolution.
    pub final_url: String,
    /// HTTP status code of the final response.
    pub status: u16,
    /// Content-Type as reported by the server, if any.
    pub content_type: Option<String>,
    /// Conditional re-crawl validator, as served.
    pub etag: Option<String>,
    /// Conditional re-crawl validator, as served.
    pub last_modified: Option<String>,
    /// Fetch completion timestamp.
    pub fetched_at: String,
}

/// Honest capability declaration.
#[derive(Debug, Clone, Copy, PartialEq, Eq, Structural)]
pub struct FetchCapabilities {
    /// This fetcher can execute JavaScript.
    pub js_rendering: bool,
    /// This fetcher applies anti-bot countermeasures (impersonation, stealth).
    pub stealth: bool,
}

/// Fetch failures, unified across every ladder leg.
#[derive(Debug, Clone, PartialEq, Eq)]
pub enum FetchError {
    /// The target served an anti-bot block.
    AntiBot {
        /// The blocked URL.
        url: String,
    },
    /// The fetch exceeded its deadline.
    Timeout {
        /// The deadline, in seconds.
        secs: u64,
    },
    /// The target is gone.
    NotFound {
        /// The missing URL.
        url: String,
    },
    /// The response is a JavaScript shell and requires a rendering-capable leg.
    JavaScriptRequired {
        /// The URL whose response requires rendering.
        url: String,
    },
    /// The peer or subprocess violated the protocol, or the target is refused.
    Protocol(String),
}

impl FetchError {
    /// The retry class: a missing target is permanent, everything else is retried.
    pub open spec fn retry_class(self) -> Class {
        match self {
            FetchError::NotFound { .. } => Class::Permanent,
            _ => Class::Retry,
        }
    }

    /// The retry class: a missing target is permanent, everything else is retried.
    pub fn class(&self) -> (res: Class)
        ensures
            res == self.retry_class(),
    {
        match self {
            FetchError::NotFound { .. } => Class::Permanent,
            _ => Class::Retry,
        }
    }

    /// The message of the error.
    pub open spec fn text(self) -> Seq<char> {
        match self {
            FetchError::AntiBot { url } => "anti-bot block on "@ + url@,
            FetchError::Timeout { secs } => "timeout after "@ + decimal(secs as nat) + "s"@,
            FetchError::NotFound { url } => "not found: "@ + url@,
            FetchError::JavaScriptRequired { url } => "javascript rendering required for "@ + url@,
            FetchError::Protocol(m) => "protocol violation: "@ + m@,
        }
    }

    /// The message of the error.
    pub fn message(&self) -> (res: String)
        ensures
            res@ == self.text(),
    {
        match self {
            FetchError::AntiBot { url } => {
                let mut s = "anti-bot block on ".to_owned();
                s.append(url.as_str());
                s
            },
            FetchError::Timeout { secs } => {
                let mut s = "timeout after ".to_owned();
                s.append(decimal_string(*secs).as_str());
                s.append("s");
                s
            },
            FetchError::NotFound { url } => {
                let mut s = "not found: ".to_owned();
                s.append(url.as_str());
                s
            },
            FetchError::JavaScriptRequired { url } => {
                let mut s = "javascript rendering required for ".to_owned();
                s.append(url.as_str());
                s
            },
            FetchError::Protocol(m) => {
                let mut s = "protocol violation: ".to_owned();
                s.append(m.as_str());
                s
            },
        }
    }

    /// The failure of a fetch whose address is malformed or not fetchable: a redirect target, for
    /// one, is the peer's doing.
    pub fn from_url_error(error: &UrlError) -> (res: FetchError)
        ensures
            res is Protocol,
            res->Protocol_0@ == error.text(),
    {
        FetchError::Protocol(error.message())
    }
}

/// Normalizing drops the parameters that track and those alone, and puts the others in order: a parameter
/// stays exactly where its name does not begin with `utm_` and is none of the click identifiers, and of
/// two that stay the one with the smaller name, or the smaller value, comes first.
pub proof fn law_parameters_are_kept_in_order(
    pairs: Seq<(Seq<char>, Seq<char>)>,
    p: (Seq<char>, Seq<char>),
    i: int,
    j: int,
)
    ensures
        ({
            let k = p.0;
            let listed = k == "_hsenc"@ || k == "_hsmi"@ || k == "dclid"@ || k == "fbclid"@ || k
                == "gclid"@ || k == "igshid"@ || k == "irclid"@ || k == "mc_cid"@ || k == "mc_eid"@ || k
                == "msclkid"@ || k == "ref_src"@ || k == "ref_url"@ || k == "twclid"@;
            let family = k.len() >= 4 && k[0] == 'u' && k[1] == 't' && k[2] == 'm' && k[3] == '_';
            kept_pairs(pairs).contains(p) <==> pairs.contains(p) && !listed && !family
        }),
        0 <= i < j < kept_pairs(pairs).len() ==> {
            let (a, b) = (kept_pairs(pairs)[i], kept_pairs(pairs)[j]);
            crate::text::text_less(a.0, b.0) || (a.0 == b.0 && (crate::text::text_less(a.1, b.1) || a.1
                == b.1))
        },
{
    reveal_strlit("utm_");
    let keys = pairs;
    let flags = kept_flags(pairs);
    let order = kept_order(pairs);
    lemma_ordered_pick_exists::<(String, String)>(keys, flags);
    assert(ordered_pick::<(String, String)>(keys, flags, order));
    law_kept_parameters_do_not_track(pairs);
    let kept = kept_pairs(pairs);
    if has_prefix(p.0, "utm_"@) {
        assert(p.0.take(4) =~= "utm_"@);
        assert(p.0.take(4)[0] == p.0[0] && p.0.take(4)[1] == p.0[1] && p.0.take(4)[2] == p.0[2]
            && p.0.take(4)[3] == p.0[3]);
    }
    if p.0.len() >= 4 && p.0[0] == 'u' && p.0[1] == 't' && p.0[2] == 'm' && p.0[3] == '_' {
        assert(p.0.take(4) =~= "utm_"@);
    }
    if kept.contains(p) {
        let n = choose|n: int| 0 <= n < kept.len() && kept[n] == p;
        assert(order.contains(order[n]));
        assert(kept[n] == pairs[order[n]]);
        assert(0 <= order[n] < pairs.len());
        assert(pairs[order[n]] == p);
    }
    if pairs.contains(p) && !tracking(p.0) {
        let n = choose|n: int| 0 <= n < pairs.len() && pairs[n] == p;
        assert(flags[n]);
        assert(order.contains(n));
        let at = choose|at: int| 0 <= at < order.len() && order[at] == n;
        assert(kept[at] == p);
    }
    if 0 <= i < j < kept.len() {
        let (a, b) = (kept[i], kept[j]);
        assert(!crate::order::pair_less(b, a));
        crate::text::lemma_text_less_total(a.0, b.0);
        crate::text::lemma_text_less_total(a.1, b.1);
    }
}

/// What normalizing an address keeps and drops, over the call: only the web's schemes pass, the scheme and the
/// host stay, the fragment goes, and the parameters are those that do not track.
pub proof fn law_parsed_addresses_are_clean(
    raw: &str,
    res: Result<NormalizedUrl, UrlError>,
    v: UrlView,
)
    requires
        call_ensures(NormalizedUrl::parse, (raw,), res),
        url_parts(raw@) == Some(v),
    ensures
        res is Ok <==> v.scheme == "http"@ || v.scheme == "https"@,
        res matches Ok(url) ==> url@.scheme == v.scheme && url@.host == v.host && unfragmented(url@.href)
            == url@.href && clean_query(query_of(url@.href)),
        res matches Err(e) ==> (e matches UrlError::Scheme(s) && s@ == v.scheme),
{
}

/// Without a port of its own an address is reached at the default one of its scheme; with one, at that.
pub proof fn law_ports_default_by_scheme(url: &NormalizedUrl, res: u16)
    requires
        call_ensures(NormalizedUrl::port, (url,), res),
    ensures
        port_named(url@.href) matches Some(p) ==> res == p,
        port_named(url@.href) is None && url@.scheme == "https"@ ==> res == 443,
        port_named(url@.href) is None && url@.scheme != "https"@ ==> res == 80,
{
}

/// Two addresses have one origin where they agree in scheme, host and port alone: what follows does not count.
pub proof fn law_origins_ignore_paths(a: &NormalizedUrl, b: &NormalizedUrl, x: String, y: String)
    requires
        call_ensures(NormalizedUrl::origin_key, (a,), x),
        call_ensures(NormalizedUrl::origin_key, (b,), y),
        a@.scheme == b@.scheme,
        a@.host == b@.host,
        port_named(a@.href) == port_named(b@.href),
    ensures
        x@ == y@,
        (a@.host matches Some(h) && port_named(a@.href) is None) ==> x@ == a@.scheme + "://"@
            + a@.host->0,
        (a@.host matches Some(h) && port_named(a@.href) is Some) ==> x@ == a@.scheme + "://"@
            + a@.host->0 + ":"@ + decimal(port_named(a@.href)->0 as nat),
{
}

/// Only a missing target is given up on; every other failure is tried again.
pub proof fn law_only_missing_targets_are_given_up(error: &FetchError, res: Class)
    requires
        call_ensures(FetchError::class, (error,), res),
    ensures
        res == Class::Permanent <==> *error is NotFound,
        res == Class::Retry <==> (*error is AntiBot || *error is Timeout || *error is JavaScriptRequired
            || *error is Protocol),
{
}

} // verus!
