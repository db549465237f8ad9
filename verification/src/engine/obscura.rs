//! The external JavaScript-rendering and stealth provider: what it is asked, and what is accepted of
//! its answers. One executable is started per fetch; it reads one request and answers one response.

use vstd::prelude::*;
use vstd::string::StringExecFns;

use super::http::{
    consumable, effective_rate_limit, greater, hop, hop_refusal, hop_target, is_fetchable_content,
    HttpFetcherParams, RobotsDecision,
};
use super::robots::Robots;
use super::{FetchCapabilities, FetchError, FetchPolicy, FetchValidators, FetchedDoc, NormalizedUrl};
use crate::text::{
    byte_len, copy_opt, debug_form, debug_string, decimal, decimal_string, opt_text, same, trim,
    trimmed, utf8_len, utf8_lossy, utf8_string_lossy,
};

verus! {

/// The version of the protocol.
pub const PROTOCOL_VERSION: u32 = 1;

/// How much of the diagnostic output is kept.
pub const STDERR_LIMIT: usize = 4096;

/// What the provider can do: render and hide.
pub fn capabilities() -> (res: FetchCapabilities)
    ensures
        res == (FetchCapabilities { js_rendering: true, stealth: true }),
{
    FetchCapabilities { js_rendering: true, stealth: true }
}

// ---------------------------------------------------------------------------------------------
// Robots.
// ---------------------------------------------------------------------------------------------
/// The robots verdict from the outcome of fetching `robots.txt`: the rules of a document, no rules
/// where there is no document, and nothing is allowed otherwise.
pub fn robots_outcome(outcome: &Result<FetchedDoc, FetchError>) -> (res: RobotsDecision)
    ensures
        match outcome {
            Ok(doc) => if doc.status < 400 {
                !res.disallow_all && res.robots@ == super::robots::parsed(doc.html@)
            } else {
                res.disallow_all
            },
            Err(FetchError::NotFound { .. }) => !res.disallow_all && res.robots@.len() == 0,
            Err(_) => res.disallow_all,
        },
{
    match outcome {
        Ok(doc) => if doc.status < 400 {
            RobotsDecision { robots: Robots::parse(doc.html.as_str()), disallow_all: false }
        } else {
            RobotsDecision::disallow_all()
        },
        Err(FetchError::NotFound { .. }) => RobotsDecision::allow_all(),
        Err(_) => RobotsDecision::disallow_all(),
    }
}

// ---------------------------------------------------------------------------------------------
// Requests.
// ---------------------------------------------------------------------------------------------
/// What the provider is asked.
#[derive(Debug)]
pub struct ObscuraRequest {
    /// The version of the protocol.
    pub protocol_version: u32,
    /// The normalized address.
    pub url: String,
    /// Whether `robots.txt` is honored.
    pub robots: bool,
    /// The floor between requests to one host in milliseconds.
    pub rate_limit_ms: u64,
    /// The deadline in milliseconds.
    pub timeout_ms: u64,
    /// The largest accepted body in bytes.
    pub max_body_bytes: usize,
    /// The largest accepted number of redirects.
    pub max_redirects: usize,
    /// Whether private hosts may be fetched.
    pub allow_private_hosts: bool,
    /// The validators of the last fetch.
    pub validators: FetchValidators,
}

/// Writes the request for a fetch.
pub fn build_request(
    url: &NormalizedUrl,
    policy: &FetchPolicy,
    validators: &FetchValidators,
    params: &HttpFetcherParams,
) -> (res: ObscuraRequest)
    ensures
        res.protocol_version == PROTOCOL_VERSION,
        res.url@ == url@.href,
        res.robots == policy.robots,
        res.rate_limit_ms == greater(params.rate_limit_ms, policy.rate_limit_ms),
        res.timeout_ms == params.timeout_ms,
        res.max_body_bytes == params.max_body_bytes,
        res.max_redirects == params.max_redirects,
        res.allow_private_hosts == params.allow_private_hosts,
        opt_text(res.validators.etag) == opt_text(validators.etag),
        opt_text(res.validators.last_modified) == opt_text(validators.last_modified),
{
    ObscuraRequest {
        protocol_version: PROTOCOL_VERSION,
        url: url.as_str().to_owned(),
        robots: policy.robots,
        rate_limit_ms: effective_rate_limit(params.rate_limit_ms, policy.rate_limit_ms),
        timeout_ms: params.timeout_ms,
        max_body_bytes: params.max_body_bytes,
        max_redirects: params.max_redirects,
        allow_private_hosts: params.allow_private_hosts,
        validators: FetchValidators {
            etag: copy_opt(&validators.etag),
            last_modified: copy_opt(&validators.last_modified),
        },
    }
}

// ---------------------------------------------------------------------------------------------
// Responses.
// ---------------------------------------------------------------------------------------------
/// A document that the provider fetched.
#[derive(Debug)]
pub struct ObscuraDocument {
    /// The rendered document.
    pub html: String,
    /// Whether JavaScript was executed.
    pub js_executed: bool,
    /// Where the document was found.
    pub final_url: String,
    /// The redirects on the way.
    pub redirects: Vec<String>,
    /// The status.
    pub status: u16,
    /// The content type.
    pub content_type: Option<String>,
    /// The entity tag.
    pub etag: Option<String>,
    /// The modification time.
    pub last_modified: Option<String>,
    /// When it was fetched.
    pub fetched_at: String,
}

/// A failure that the provider reports.
#[derive(Debug)]
pub struct ObscuraError {
    /// What kind of failure.
    pub kind: String,
    /// In words.
    pub message: String,
    /// The deadline that passed, in seconds.
    pub secs: Option<u64>,
}

/// The outcome that the provider reports.
#[derive(Debug)]
pub enum ObscuraResult {
    /// A document.
    Document(ObscuraDocument),
    /// A failure.
    Failure(ObscuraError),
}

/// One answer of the provider.
#[derive(Debug)]
pub struct ObscuraResponse {
    /// The version of the protocol.
    pub protocol_version: u32,
    /// The outcome.
    pub result: ObscuraResult,
}

/// How a reported failure is worded.
pub open spec fn worded(message: Seq<char>) -> Seq<char> {
    if message.len() == 0 {
        "Obscura provider returned an empty error message"@
    } else {
        message
    }
}

/// Whether a failure of a fetch stands for one that the provider reports.
pub open spec fn stands_for(error: ObscuraError, url: Seq<char>, res: FetchError) -> bool {
    if error.kind@ == "anti_bot"@ {
        res matches FetchError::AntiBot { url: u } && u@ == url
    } else if error.kind@ == "timeout"@ {
        res matches FetchError::Timeout { secs } && secs == match error.secs {
            Some(s) => s,
            None => 0,
        }
    } else if error.kind@ == "not_found"@ {
        res matches FetchError::NotFound { url: u } && u@ == url
    } else if error.kind@ == "javascript_required"@ {
        res matches FetchError::JavaScriptRequired { url: u } && u@ == url
    } else if error.kind@ == "protocol"@ {
        res matches FetchError::Protocol(m) && m@ == worded(error.message@)
    } else {
        res matches FetchError::Protocol(m) && m@ == "unknown Obscura error kind "@ + debug_form(
            error.kind@,
        ) + ": "@ + worded(error.message@)
    }
}

/// The failure of a fetch for a failure that the provider reports.
pub fn map_error(error: &ObscuraError, url: &NormalizedUrl) -> (res: FetchError)
    ensures
        stands_for(*error, url@.href, res),
{
    let kind = error.kind.as_str();
    let message = if error.message.as_str().is_empty() {
        "Obscura provider returned an empty error message".to_owned()
    } else {
        error.message.clone()
    };
    if same(kind, "anti_bot") {
        FetchError::AntiBot { url: url.as_str().to_owned() }
    } else if same(kind, "timeout") {
        FetchError::Timeout {
            secs: match error.secs {
                Some(s) => s,
                None => 0,
            },
        }
    } else if same(kind, "not_found") {
        FetchError::NotFound { url: url.as_str().to_owned() }
    } else if same(kind, "javascript_required") {
        FetchError::JavaScriptRequired { url: url.as_str().to_owned() }
    } else if same(kind, "protocol") {
        FetchError::Protocol(message)
    } else {
        let mut s = "unknown Obscura error kind ".to_owned();
        s.append(debug_string(kind).as_str());
        s.append(": ");
        s.append(message.as_str());
        FetchError::Protocol(s)
    }
}

/// An optional text as in debugging output.
pub open spec fn quoted_option(s: Option<Seq<char>>) -> Seq<char> {
    match s {
        Some(t) => "Some("@ + debug_form(t) + ")"@,
        None => "None"@,
    }
}

/// What is wrong with a document, its addresses aside: the first of these that holds.
pub open spec fn document_violation(
    doc: ObscuraDocument,
    requested: Seq<char>,
    max_body_bytes: usize,
    max_redirects: usize,
) -> Option<Seq<char>> {
    if !doc.js_executed {
        Some("Obscura response did not execute JavaScript"@)
    } else if byte_len(doc.html@) > max_body_bytes {
        Some("Obscura body exceeds "@ + decimal(max_body_bytes as nat) + " bytes on "@ + requested)
    } else if !consumable(opt_text(doc.content_type)) {
        Some(
            "unsupported Obscura content-type "@ + quoted_option(opt_text(doc.content_type))
                + " on "@ + requested,
        )
    } else if doc.fetched_at@.len() == 0 {
        Some("Obscura response has an empty fetched_at"@)
    } else if doc.redirects@.len() > max_redirects {
        Some(
            "Obscura response exceeds the "@ + decimal(max_redirects as nat)
                + "-redirect limit on "@ + requested,
        )
    } else {
        None
    }
}

fn check_document(
    doc: &ObscuraDocument,
    requested: &NormalizedUrl,
    max_body_bytes: usize,
    max_redirects: usize,
) -> (res: Result<(), FetchError>)
    ensures
        match document_violation(*doc, requested@.href, max_body_bytes, max_redirects) {
            None => res is Ok,
            Some(v) => res matches Err(FetchError::Protocol(m)) && m@ == v,
        },
{
    if !doc.js_executed {
        return Err(
            FetchError::Protocol("Obscura response did not execute JavaScript".to_owned()),
        );
    }
    if utf8_len(doc.html.as_str()) > max_body_bytes as u128 {
        let mut s = "Obscura body exceeds ".to_owned();
        s.append(decimal_string(max_body_bytes as u64).as_str());
        s.append(" bytes on ");
        s.append(requested.as_str());
        return Err(FetchError::Protocol(s));
    }
    let content_type = match &doc.content_type {
        Some(s) => Some(s.as_str()),
        None => None,
    };
    if !is_fetchable_content(content_type) {
        let mut s = "unsupported Obscura content-type ".to_owned();
        match &doc.content_type {
            Some(t) => {
                s.append("Some(");
                s.append(debug_string(t.as_str()).as_str());
                s.append(")");
                assert(s@ =~= "unsupported Obscura content-type "@ + quoted_option(
                    opt_text(doc.content_type),
                ));
            },
            None => {
                s.append("None");
            },
        }
        s.append(" on ");
        s.append(requested.as_str());
        return Err(FetchError::Protocol(s));
    }
    if doc.fetched_at.as_str().is_empty() {
        return Err(FetchError::Protocol("Obscura response has an empty fetched_at".to_owned()));
    }
    if doc.redirects.len() > max_redirects {
        let mut s = "Obscura response exceeds the ".to_owned();
        s.append(decimal_string(max_redirects as u64).as_str());
        s.append("-redirect limit on ");
        s.append(requested.as_str());
        return Err(FetchError::Protocol(s));
    }
    Ok(())
}

/// Whether a fetched document is the provider's, under its final address.
pub open spec fn relabeled(
    doc: ObscuraDocument,
    html: Seq<char>,
    final_url: Seq<char>,
    res: FetchedDoc,
) -> bool {
    &&& res.html@ == html
    &&& res.js_executed
    &&& res.final_url@ == final_url
    &&& res.status == doc.status
    &&& opt_text(res.content_type) == opt_text(doc.content_type)
    &&& opt_text(res.etag) == opt_text(doc.etag)
    &&& opt_text(res.last_modified) == opt_text(doc.last_modified)
    &&& res.fetched_at@ == doc.fetched_at@
}

fn relabel(doc: &ObscuraDocument, html: String, final_url: &str) -> (res: FetchedDoc)
    ensures
        relabeled(*doc, html@, final_url@, res),
{
    FetchedDoc {
        html,
        js_executed: true,
        final_url: final_url.to_owned(),
        status: doc.status,
        content_type: copy_opt(&doc.content_type),
        etag: copy_opt(&doc.etag),
        last_modified: copy_opt(&doc.last_modified),
        fetched_at: doc.fetched_at.clone(),
    }
}

/// What becomes of a document whose addresses were all accepted.
pub open spec fn settled(
    doc: ObscuraDocument,
    final_url: Seq<char>,
    res: Result<FetchedDoc, FetchError>,
) -> bool {
    if doc.status == 304 {
        res matches Ok(d) && relabeled(doc, seq![], final_url, d)
    } else if doc.status == 403 || doc.status == 429 {
        res matches Err(FetchError::AntiBot { url }) && url@ == final_url
    } else if doc.status == 404 || doc.status == 410 {
        res matches Err(FetchError::NotFound { url }) && url@ == final_url
    } else if 200 <= doc.status < 400 {
        res matches Ok(d) && relabeled(doc, doc.html@, final_url, d)
    } else {
        res matches Err(FetchError::Protocol(m)) && m@ == "unexpected Obscura status "@ + decimal(
            doc.status as nat,
        ) + " on "@ + final_url
    }
}

fn settle(doc: &ObscuraDocument, final_url: &NormalizedUrl) -> (res: Result<
    FetchedDoc,
    FetchError,
>)
    ensures
        settled(*doc, final_url@.href, res),
{
    let href = final_url.as_str();
    if doc.status == 304 {
        let empty = String::new();
        assert(empty@ =~= seq![]);
        Ok(relabel(doc, empty, href))
    } else if doc.status == 403 || doc.status == 429 {
        Err(FetchError::AntiBot { url: href.to_owned() })
    } else if doc.status == 404 || doc.status == 410 {
        Err(FetchError::NotFound { url: href.to_owned() })
    } else if 200 <= doc.status && doc.status < 400 {
        Ok(relabel(doc, doc.html.clone(), href))
    } else {
        let mut s = "unexpected Obscura status ".to_owned();
        s.append(decimal_string(doc.status as u64).as_str());
        s.append(" on ");
        s.append(href);
        Err(FetchError::Protocol(s))
    }
}

/// The next thing to do about a document.
#[derive(Debug)]
pub enum Validation {
    /// This address is to be resolved and accepted.
    Resolve(NormalizedUrl),
    /// The document is accepted.
    Accept(FetchedDoc),
}

/// The address that the next one is relative to: the last that was accepted.
pub open spec fn last_accepted(
    requested: NormalizedUrl,
    accepted: Seq<NormalizedUrl>,
) -> Seq<char> {
    if accepted.len() == 0 {
        requested@.href
    } else {
        accepted.last()@.href
    }
}

/// The address that a document names at a step: its redirects, and where it was found.
pub open spec fn address_at(doc: ObscuraDocument, i: int) -> Seq<char> {
    if i < doc.redirects@.len() {
        doc.redirects@[i]@
    } else {
        doc.final_url@
    }
}

/// What a document's validation comes to, when its first `accepted` addresses were resolved and
/// accepted: each address is relative to the one before, and each is to be accepted.
pub open spec fn validates(
    doc: ObscuraDocument,
    requested: NormalizedUrl,
    max_body_bytes: usize,
    max_redirects: usize,
    accepted: Seq<NormalizedUrl>,
    res: Result<Validation, FetchError>,
) -> bool {
    match document_violation(doc, requested@.href, max_body_bytes, max_redirects) {
        Some(v) => res matches Err(FetchError::Protocol(m)) && m@ == v,
        None => if accepted.len() <= doc.redirects@.len() {
            let base = last_accepted(requested, accepted);
            let target = address_at(doc, accepted.len() as int);
            match hop_target(base, target) {
                Some(v) => res matches Ok(Validation::Resolve(next)) && next@ == v,
                None => res matches Err(FetchError::Protocol(m)) && m@ == hop_refusal(base, target),
            }
        } else {
            match res {
                Ok(Validation::Resolve(_)) => false,
                Ok(Validation::Accept(d)) => settled(
                    doc,
                    accepted[doc.redirects@.len() as int]@.href,
                    Ok(d),
                ),
                Err(e) => settled(doc, accepted[doc.redirects@.len() as int]@.href, Err(e)),
            }
        },
    }
}

/// Validates a document, step by step: `accepted` holds the addresses that were handed out before
/// and accepted.
pub fn validate_document(
    doc: &ObscuraDocument,
    requested: &NormalizedUrl,
    max_body_bytes: usize,
    max_redirects: usize,
    accepted: &Vec<NormalizedUrl>,
) -> (res: Result<Validation, FetchError>)
    ensures
        validates(*doc, *requested, max_body_bytes, max_redirects, accepted@, res),
{
    match check_document(doc, requested, max_body_bytes, max_redirects) {
        Err(e) => return Err(e),
        Ok(_) => {},
    }
    let n: usize = accepted.len();
    if n <= doc.redirects.len() {
        let base = if n == 0 {
            requested
        } else {
            &accepted[n - 1]
        };
        let target = if n < doc.redirects.len() {
            doc.redirects[n].as_str()
        } else {
            doc.final_url.as_str()
        };
        match hop(target, base) {
            Ok(next) => Ok(Validation::Resolve(next)),
            Err(e) => Err(e),
        }
    } else {
        match settle(doc, &accepted[doc.redirects.len()]) {
            Ok(d) => Ok(Validation::Accept(d)),
            Err(e) => Err(e),
        }
    }
}

/// Decides on an answer of the provider, step by step: an unknown version is refused, a failure is
/// reported, a document is validated.
pub fn decode_response(
    response: &ObscuraResponse,
    requested: &NormalizedUrl,
    max_body_bytes: usize,
    max_redirects: usize,
    accepted: &Vec<NormalizedUrl>,
) -> (res: Result<Validation, FetchError>)
    ensures
        if response.protocol_version != PROTOCOL_VERSION {
            res matches Err(FetchError::Protocol(m)) && m@
                == "unsupported Obscura protocol version "@ + decimal(
                response.protocol_version as nat,
            )
        } else {
            match response.result {
                ObscuraResult::Failure(e) => res matches Err(f) && stands_for(
                    e,
                    requested@.href,
                    f,
                ),
                ObscuraResult::Document(doc) => validates(
                    doc,
                    *requested,
                    max_body_bytes,
                    max_redirects,
                    accepted@,
                    res,
                ),
            }
        },
{
    if response.protocol_version != PROTOCOL_VERSION {
        let mut s = "unsupported Obscura protocol version ".to_owned();
        s.append(decimal_string(response.protocol_version as u64).as_str());
        return Err(FetchError::Protocol(s));
    }
    match &response.result {
        ObscuraResult::Failure(error) => Err(map_error(error, requested)),
        ObscuraResult::Document(doc) => validate_document(
            doc,
            requested,
            max_body_bytes,
            max_redirects,
            accepted,
        ),
    }
}

// ---------------------------------------------------------------------------------------------
// Diagnostics.
// ---------------------------------------------------------------------------------------------
/// The part of the diagnostic output that is kept.
pub open spec fn diagnosed(stderr: Seq<u8>) -> Seq<char> {
    trimmed(utf8_lossy(if stderr.len() > STDERR_LIMIT {
        stderr.take(STDERR_LIMIT as int)
    } else {
        stderr
    }))
}

/// The part of the diagnostic output that is kept.
pub fn diagnostic(stderr: &[u8]) -> (res: String)
    ensures
        res@ == diagnosed(stderr@),
{
    let mut kept: Vec<u8> = Vec::new();
    let mut i: usize = 0;
    while i < stderr.len() && i < STDERR_LIMIT
        invariant
            i <= stderr@.len(),
            i <= STDERR_LIMIT,
            kept@ =~= stderr@.take(i as int),
        decreases stderr@.len() - i,
    {
        kept.push(stderr[i]);
        i = i + 1;
    }
    assert(kept@ =~= if stderr@.len() > STDERR_LIMIT {
        stderr@.take(STDERR_LIMIT as int)
    } else {
        stderr@
    });
    let text = utf8_string_lossy(kept.as_slice());
    trim(text.as_str())
}

/// The failure of a provider that exited with an error.
pub fn exit_failure(status: &str, stderr: &[u8]) -> (res: FetchError)
    ensures
        res matches FetchError::Protocol(m) && m@ == "Obscura exited with "@ + status@ + ": "@
            + diagnosed(stderr@),
{
    let mut s = "Obscura exited with ".to_owned();
    s.append(status);
    s.append(": ");
    s.append(diagnostic(stderr).as_str());
    FetchError::Protocol(s)
}

/// What the provider reports is what a fetch fails with: each kind has its failure, an unknown one violates
/// the protocol, and the address is the requested one.
pub proof fn law_reported_failures_keep_their_kind(
    error: &ObscuraError,
    url: &NormalizedUrl,
    res: FetchError,
)
    requires
        call_ensures(map_error, (error, url), res),
    ensures
        res is AntiBot <==> error.kind@ == "anti_bot"@,
        res is Timeout <==> error.kind@ == "timeout"@,
        res is NotFound <==> error.kind@ == "not_found"@,
        res is JavaScriptRequired <==> error.kind@ == "javascript_required"@,
        res matches FetchError::AntiBot { url: u } ==> u@ == url@.href,
        res matches FetchError::NotFound { url: u } ==> u@ == url@.href,
        res matches FetchError::JavaScriptRequired { url: u } ==> u@ == url@.href,
        res matches FetchError::Timeout { secs } ==> (error.secs matches Some(s) ==> secs == s),
{
    reveal_strlit("anti_bot");
    reveal_strlit("timeout");
    reveal_strlit("not_found");
    reveal_strlit("javascript_required");
    assert("anti_bot"@[0] == 'a' && "timeout"@[0] == 't' && "not_found"@[0] == 'n'
        && "javascript_required"@[0] == 'j');
}

/// Rules that were rendered are read, rules that are missing allow everything, and rules that could not be had
/// allow nothing.
pub proof fn law_rendered_rules_decide(
    outcome: &Result<FetchedDoc, FetchError>,
    res: RobotsDecision,
    path: &str,
    allowed: bool,
)
    requires
        call_ensures(robots_outcome, (outcome,), res),
        call_ensures(RobotsDecision::allows, (&res, path), allowed),
    ensures
        (outcome matches Err(e) && !(e is NotFound)) ==> !allowed,
        (outcome matches Err(e) && e is NotFound) ==> allowed,
        (outcome matches Ok(doc) && doc.status >= 400) ==> !allowed,
        (outcome matches Ok(doc) && doc.status < 400) ==> !res.disallow_all,
{
    if outcome matches Err(e) && e is NotFound {
        let none = Seq::<super::robots::RuleView>::empty();
        assert(res.robots@ =~= Seq::<super::robots::GroupView>::empty());
        assert(super::robots::rules_of(
            res.robots@,
            crate::text::lower_ascii(super::http::AGENT_TOKEN@),
            none,
        ));
        assert(super::robots::rules_allow(none, path@));
    }
}

/// The provider is asked for what the policy says, never to go faster than either floor.
pub proof fn law_provider_requests_keep_the_policy(
    url: &NormalizedUrl,
    policy: &FetchPolicy,
    validators: &FetchValidators,
    params: &HttpFetcherParams,
    res: ObscuraRequest,
    floor: u64,
)
    requires
        call_ensures(build_request, (url, policy, validators, params), res),
        call_ensures(effective_rate_limit, (params.rate_limit_ms, policy.rate_limit_ms), floor),
    ensures
        res.url@ == url@.href,
        res.robots == policy.robots,
        res.rate_limit_ms >= policy.rate_limit_ms && res.rate_limit_ms >= params.rate_limit_ms,
        res.rate_limit_ms == policy.rate_limit_ms || res.rate_limit_ms == params.rate_limit_ms,
        floor == res.rate_limit_ms,
        res.timeout_ms == params.timeout_ms,
        res.max_body_bytes == params.max_body_bytes,
        res.max_redirects == params.max_redirects,
        res.allow_private_hosts == params.allow_private_hosts,
        opt_text(res.validators.etag) == opt_text(validators.etag),
        opt_text(res.validators.last_modified) == opt_text(validators.last_modified),
{
}

} // verus!
