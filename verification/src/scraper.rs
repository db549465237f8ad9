//! Scraper process: topic requests, result normalization, and the publication of raw artifacts.

use vstd::prelude::*;
use vstd::string::StringExecFns;

use crate::control::documents::{join_path, joined_path};
use crate::digest::{sha256_hex, text_digest};
use crate::text::{
    chars_of, decimal, decimal_string, find_char, lower_ascii, same, same_ignoring_ascii_case,
    split_once, string_of, trim, trimmed,
};

pub mod config;
pub mod providers;

verus! {

/// The number of articles where a request names none.
pub const DEFAULT_LIMIT: usize = 5;

/// The largest number of articles of a request.
pub const MAX_LIMIT: usize = 10;

/// The longest topic, in characters.
pub const MAX_TOPIC_CHARS: usize = 200;

/// The largest search response that is read.
pub const MAX_RSS_BYTES: usize = 2_097_152;

/// The largest document that is kept.
pub const MAX_DOCUMENT_BYTES: usize = 10_485_760;

/// The version of raw artifacts.
pub const ARTIFACT_VERSION: u8 = 1;

/// Errors raised by the scraper process.
#[derive(Debug, Clone, PartialEq, Eq)]
pub enum ScraperError {
    /// The process configuration is invalid.
    Configuration(String),
    /// A local artifact could not be read or written.
    Storage(String),
    /// The search provider or target document could not be reached.
    Network(String),
    /// The search response was not usable.
    InvalidResponse(String),
    /// The HTTP listener failed.
    Listener(String),
}

impl ScraperError {
    /// The message of the error.
    pub open spec fn text(self) -> Seq<char> {
        match self {
            ScraperError::Configuration(m) => "configuration: "@ + m@,
            ScraperError::Storage(m) => "storage: "@ + m@,
            ScraperError::Network(m) => "network: "@ + m@,
            ScraperError::InvalidResponse(m) => "invalid provider response: "@ + m@,
            ScraperError::Listener(m) => "listener: "@ + m@,
        }
    }

    /// The message of the error.
    pub fn message(&self) -> (res: String)
        ensures
            res@ == self.text(),
    {
        let (head, m) = match self {
            ScraperError::Configuration(m) => ("configuration: ", m),
            ScraperError::Storage(m) => ("storage: ", m),
            ScraperError::Network(m) => ("network: ", m),
            ScraperError::InvalidResponse(m) => ("invalid provider response: ", m),
            ScraperError::Listener(m) => ("listener: ", m),
        };
        let mut s = head.to_owned();
        s.append(m.as_str());
        s
    }
}

/// Failures of a request to the scraper.
#[derive(Debug, Clone, PartialEq, Eq)]
pub enum ScraperHttpError {
    /// The caller is not authenticated.
    Unauthorized,
    /// The request is malformed.
    BadRequest(String),
    /// The scraper failed.
    Scraper(ScraperError),
    /// An artifact could not be read or written.
    Storage(String),
}

impl ScraperHttpError {
    /// The HTTP status of the failure.
    pub open spec fn code(self) -> u16 {
        match self {
            ScraperHttpError::Unauthorized => 401,
            ScraperHttpError::BadRequest(_) => 400,
            ScraperHttpError::Scraper(_) => 502,
            ScraperHttpError::Storage(_) => 502,
        }
    }

    /// The HTTP status of the failure.
    pub fn status(&self) -> (res: u16)
        ensures
            res == self.code(),
    {
        match self {
            ScraperHttpError::Unauthorized => 401,
            ScraperHttpError::BadRequest(_) => 400,
            ScraperHttpError::Scraper(_) => 502,
            ScraperHttpError::Storage(_) => 502,
        }
    }

    /// The message of the failure.
    pub open spec fn text(self) -> Seq<char> {
        match self {
            ScraperHttpError::Unauthorized => "process authentication failed"@,
            ScraperHttpError::BadRequest(m) => m@,
            ScraperHttpError::Scraper(e) => e.text(),
            ScraperHttpError::Storage(m) => m@,
        }
    }

    /// The message of the failure.
    pub fn message(&self) -> (res: String)
        ensures
            res@ == self.text(),
    {
        match self {
            ScraperHttpError::Unauthorized => "process authentication failed".to_owned(),
            ScraperHttpError::BadRequest(m) => m.clone(),
            ScraperHttpError::Scraper(e) => e.message(),
            ScraperHttpError::Storage(m) => m.clone(),
        }
    }
}

/// Calls `subtle::ConstantTimeEq::ct_eq` on the bytes of two texts: it answers whether they are the
/// same.
#[verifier::external_body]
pub(crate) fn same_secret(a: &str, b: &str) -> (res: bool)
    ensures
        res == (a@ == b@),
{
    bool::from(subtle::ConstantTimeEq::ct_eq(a.as_bytes(), b.as_bytes()))
}

/// Whether the value of an `Authorization` header carries the expected bearer token. `header` is
/// none where the header is missing or no text.
pub fn authorized(header: Option<&str>, expected: &str) -> (res: bool)
    ensures
        res == match header {
            None => false,
            Some(value) => match split_once(value@, ' ') {
                None => false,
                Some((scheme, token)) => lower_ascii(scheme) == lower_ascii("Bearer"@) && token
                    == expected@,
            },
        },
{
    match header {
        None => false,
        Some(value) => {
            let chars = chars_of(value);
            let n: usize = chars.len();
            let at: usize = find_char(chars.as_slice(), 0, n, ' ');
            assert(chars@.subrange(0, n as int) =~= value@);
            if at == n {
                return false;
            }
            let scheme = string_of(chars.as_slice(), 0, at);
            let token = string_of(chars.as_slice(), at + 1, n);
            assert(scheme@ =~= value@.take(at as int));
            assert(token@ =~= value@.skip(at + 1));
            same_ignoring_ascii_case(scheme.as_str(), "Bearer") && same_secret(
                expected,
                token.as_str(),
            )
        },
    }
}

/// A token that is not blank.
pub fn usable_token(token: Option<String>) -> (res: Option<String>)
    ensures
        res == match token {
            Some(t) => if trimmed(t@).len() == 0 {
                None
            } else {
                Some(t)
            },
            None => None,
        },
{
    match token {
        Some(t) => if crate::text::is_blank(t.as_str()) {
            None
        } else {
            Some(t)
        },
        None => None,
    }
}

/// A topic request accepted by the scraper process.
#[derive(Debug)]
pub struct ScrapeRequest {
    /// Human-entered topic text.
    pub topic: String,
    /// Maximum number of articles to discover and fetch.
    pub limit: Option<usize>,
}

/// The limit of a request.
pub open spec fn limit_of(request: ScrapeRequest) -> usize {
    match request.limit {
        Some(n) => n,
        None => DEFAULT_LIMIT,
    }
}

/// Validates a request: the topic without the space around it, and the number of articles.
pub fn validate_request(request: &ScrapeRequest) -> (res: Result<
    (String, usize),
    ScraperHttpError,
>)
    ensures
        ({
            let topic = trimmed(request.topic@);
            let limit = limit_of(*request);
            if topic.len() == 0 {
                res matches Err(ScraperHttpError::BadRequest(m)) && m@ == "topic must not be empty"@
            } else if topic.len() > MAX_TOPIC_CHARS {
                res matches Err(ScraperHttpError::BadRequest(m)) && m@ == "topic must be at most "@
                    + decimal(MAX_TOPIC_CHARS as nat) + " characters"@
            } else if limit < 1 || limit > MAX_LIMIT {
                res matches Err(ScraperHttpError::BadRequest(m)) && m@
                    == "limit must be between 1 and "@ + decimal(MAX_LIMIT as nat)
            } else {
                res matches Ok(accepted) && accepted.0@ == topic && accepted.1 == limit
            }
        }),
{
    let topic = trim(request.topic.as_str());
    let chars = chars_of(topic.as_str());
    if chars.len() == 0 {
        return Err(ScraperHttpError::BadRequest("topic must not be empty".to_owned()));
    }
    if chars.len() > MAX_TOPIC_CHARS {
        let mut s = "topic must be at most ".to_owned();
        s.append(decimal_string(MAX_TOPIC_CHARS as u64).as_str());
        s.append(" characters");
        return Err(ScraperHttpError::BadRequest(s));
    }
    let limit: usize = match request.limit {
        Some(n) => n,
        None => DEFAULT_LIMIT,
    };
    if limit < 1 || limit > MAX_LIMIT {
        let mut s = "limit must be between 1 and ".to_owned();
        s.append(decimal_string(MAX_LIMIT as u64).as_str());
        return Err(ScraperHttpError::BadRequest(s));
    }
    Ok((topic, limit))
}

/// A result of a search.
#[derive(Debug)]
pub struct TopicResult {
    /// Provider title.
    pub title: String,
    /// Normalized address.
    pub url: String,
}

/// The publication result for one discovered article.
#[derive(Debug)]
pub struct QueuedDocument {
    /// Stable content identity derived from the normalized URL.
    pub document_id: String,
    /// The stage handoff identity, present for newly queued work.
    pub job_id: Option<String>,
    /// Normalized source URL.
    pub source_url: String,
    /// `enqueued` or `duplicate`.
    pub status: &'static str,
    /// Provider title.
    pub title: String,
}

/// A document returned to the frontend-facing process after topic ingestion.
#[derive(Debug)]
pub struct ScrapeResponse {
    /// Normalized topic text.
    pub topic: String,
    /// Requested result count.
    pub requested: usize,
    /// Number of provider results accepted.
    pub discovered: usize,
    /// Number of new raw artifacts written.
    pub enqueued: usize,
    /// Number of documents already present in the artifact catalog.
    pub duplicates: usize,
    /// Per-result publication status.
    pub documents: Vec<QueuedDocument>,
}

/// What the cleaning process is handed.
#[derive(Debug)]
pub struct RawArtifact {
    /// The version of the artifact.
    pub schema_version: u8,
    /// The document.
    pub document_id: String,
    /// Normalized source URL.
    pub source_url: String,
    /// Provider title.
    pub title: String,
    /// Where the page lies, below the data directory.
    pub raw_path: String,
    /// When it was fetched.
    pub fetched_at: String,
}

/// The identity of a document: the digest of its address.
pub fn id_for_url(url: &str) -> (res: String)
    ensures
        res@ == text_digest(url@),
{
    sha256_hex(url)
}

/// The path of a document's file in a directory below the data directory.
pub open spec fn file_path(
    data_dir: Seq<char>,
    dir: Seq<char>,
    id: Seq<char>,
    extension: Seq<char>,
) -> Seq<char> {
    joined_path(joined_path(data_dir, dir), id + extension)
}

/// The path of a document's file in a directory below the data directory.
fn path_of(data_dir: &str, dir: &str, id: &str, extension: &str) -> (res: String)
    ensures
        res@ == file_path(data_dir@, dir@, id@, extension@),
{
    let base = join_path(data_dir, dir);
    let mut file = id.to_owned();
    file.append(extension);
    join_path(base.as_str(), file.as_str())
}

/// The path of a document's catalog entry.
pub fn catalog_path(data_dir: &str, id: &str) -> (res: String)
    ensures
        res@ == file_path(data_dir@, "catalog"@, id@, ".json"@),
{
    path_of(data_dir, "catalog", id, ".json")
}

/// What to do with a result once the catalog was looked at.
#[derive(Debug)]
pub enum AfterLookup {
    /// The document is there: this is the answer.
    Duplicate(QueuedDocument),
    /// The page is to be fetched.
    Fetch {
        /// The document.
        document_id: String,
    },
}

/// Decides on a result whose catalog entry was looked for.
pub fn after_lookup(result: &TopicResult, cataloged: bool) -> (res: AfterLookup)
    ensures
        if cataloged {
            res matches AfterLookup::Duplicate(d) && d.document_id@ == text_digest(result.url@)
                && d.job_id is None && d.source_url@ == result.url@ && d.status@ == "duplicate"@
                && d.title@ == result.title@
        } else {
            res matches AfterLookup::Fetch { document_id } && document_id@ == text_digest(
                result.url@,
            )
        },
{
    let document_id = id_for_url(result.url.as_str());
    if cataloged {
        AfterLookup::Duplicate(
            QueuedDocument {
                document_id,
                job_id: None,
                source_url: result.url.clone(),
                status: "duplicate",
                title: result.title.clone(),
            },
        )
    } else {
        AfterLookup::Fetch { document_id }
    }
}

/// The catalog entry of a new document.
#[derive(Debug)]
pub struct CatalogEntry {
    /// The document.
    pub id: String,
    /// Normalized source URL.
    pub source_url: String,
    /// Provider title.
    pub title: String,
    /// The state: `NEW`.
    pub status: &'static str,
    /// The chunks so far: none.
    pub chunk_count: u64,
    /// When the document was fetched.
    pub created_at: String,
}

/// What is written for a fetched page, in this order: the page, its artifact, the catalog entry, and
/// the handoff to the cleaning process.
#[derive(Debug)]
pub struct Publication {
    /// Where the page goes.
    pub page_path: String,
    /// Where the artifact goes.
    pub artifact_path: String,
    /// Where the catalog entry goes.
    pub catalog_path: String,
    /// Where the handoff goes; it holds the artifact.
    pub inbox_path: String,
    /// The artifact.
    pub artifact: RawArtifact,
    /// The catalog entry.
    pub catalog: CatalogEntry,
    /// The answer to the caller.
    pub queued: QueuedDocument,
}

/// Plans the publication of a fetched page.
pub fn plan_publication(result: &TopicResult, data_dir: &str, now: &str) -> (res: Publication)
    ensures
        ({
            let id = text_digest(result.url@);
            &&& res.page_path@ == file_path(data_dir@, "raw"@, id, ".html"@)
            &&& res.artifact_path@ == file_path(data_dir@, "raw"@, id, ".json"@)
            &&& res.catalog_path@ == file_path(data_dir@, "catalog"@, id, ".json"@)
            &&& res.inbox_path@ == file_path(data_dir@, "inbox/cleaning"@, id, ".json"@)
            &&& res.artifact.schema_version == ARTIFACT_VERSION
            &&& res.artifact.document_id@ == id
            &&& res.artifact.source_url@ == result.url@
            &&& res.artifact.title@ == result.title@
            &&& res.artifact.raw_path@ == "raw/"@ + id + ".html"@
            &&& res.artifact.fetched_at@ == now@
            &&& res.catalog.id@ == id
            &&& res.catalog.source_url@ == result.url@
            &&& res.catalog.title@ == result.title@
            &&& res.catalog.status@ == "NEW"@
            &&& res.catalog.chunk_count == 0
            &&& res.catalog.created_at@ == now@
            &&& res.queued.document_id@ == id
            &&& res.queued.job_id is Some
            &&& res.queued.job_id->0@ == id
            &&& res.queued.source_url@ == result.url@
            &&& res.queued.status@ == "enqueued"@
            &&& res.queued.title@ == result.title@
        }),
{
    let id = id_for_url(result.url.as_str());
    let mut raw_path = "raw/".to_owned();
    raw_path.append(id.as_str());
    raw_path.append(".html");
    Publication {
        page_path: path_of(data_dir, "raw", id.as_str(), ".html"),
        artifact_path: path_of(data_dir, "raw", id.as_str(), ".json"),
        catalog_path: catalog_path(data_dir, id.as_str()),
        inbox_path: path_of(data_dir, "inbox/cleaning", id.as_str(), ".json"),
        artifact: RawArtifact {
            schema_version: ARTIFACT_VERSION,
            document_id: id.clone(),
            source_url: result.url.clone(),
            title: result.title.clone(),
            raw_path,
            fetched_at: now.to_owned(),
        },
        catalog: CatalogEntry {
            id: id.clone(),
            source_url: result.url.clone(),
            title: result.title.clone(),
            status: "NEW",
            chunk_count: 0,
            created_at: now.to_owned(),
        },
        queued: QueuedDocument {
            document_id: id.clone(),
            job_id: Some(id),
            source_url: result.url.clone(),
            status: "enqueued",
            title: result.title.clone(),
        },
    }
}

/// The outcomes that are documents.
pub open spec fn published(outcomes: Seq<Option<QueuedDocument>>) -> Seq<QueuedDocument>
    decreases outcomes.len(),
{
    if outcomes.len() == 0 {
        seq![]
    } else {
        match outcomes.last() {
            Some(d) => published(outcomes.drop_last()).push(d),
            None => published(outcomes.drop_last()),
        }
    }
}

/// The number of documents that were there before.
pub open spec fn duplicates_of(documents: Seq<QueuedDocument>) -> nat {
    documents.filter(|d: QueuedDocument| d.status@ == "duplicate"@).len()
}

/// The number of documents that are new.
pub open spec fn enqueued_of(documents: Seq<QueuedDocument>) -> nat {
    documents.filter(|d: QueuedDocument| d.status@ != "duplicate"@).len()
}

/// The number of results that became no document.
pub open spec fn skipped_of(outcomes: Seq<Option<QueuedDocument>>) -> nat {
    outcomes.filter(|o: Option<QueuedDocument>| o is None).len()
}

/// Answers a request with what became of its results, and tells how many were skipped.
pub fn respond(topic: String, requested: usize, outcomes: Vec<Option<QueuedDocument>>) -> (res: (
    ScrapeResponse,
    usize,
))
    ensures
        res.0.topic@ == topic@,
        res.0.requested == requested,
        res.0.discovered == outcomes@.len(),
        res.0.documents@ == published(outcomes@),
        res.0.duplicates == duplicates_of(published(outcomes@)),
        res.0.enqueued == enqueued_of(published(outcomes@)),
        res.1 == skipped_of(outcomes@),
{
    let discovered: usize = outcomes.len();
    let ghost all = outcomes@;
    let ghost hit = |d: QueuedDocument| d.status@ == "duplicate"@;
    let mut rest = outcomes;
    let mut documents: Vec<QueuedDocument> = Vec::new();
    let mut enqueued: usize = 0;
    let mut duplicates: usize = 0;
    let mut skipped: usize = 0;
    let ghost mut n: int = 0;
    assert(all.take(0) =~= seq![]);
    assert(all.skip(0) =~= all);
    assert(Seq::<QueuedDocument>::empty().filter(hit).len() == 0) by {
        reveal(Seq::filter);
    }
    while rest.len() > 0
        invariant
            0 <= n <= all.len(),
            hit == (|d: QueuedDocument| d.status@ == "duplicate"@),
            rest@ == all.skip(n),
            all.len() == discovered,
            documents@ == published(all.take(n)),
            duplicates == documents@.filter(hit).len(),
            enqueued + duplicates == documents@.len(),
            skipped + documents@.len() == n,
        decreases rest@.len(),
    {
        let outcome = rest.remove(0);
        let ghost before = documents@;
        proof {
            assert(outcome == all[n]);
            assert(all.take(n + 1).drop_last() =~= all.take(n));
            assert(all.take(n + 1).last() == all[n]);
            assert(rest@ =~= all.skip(n + 1));
        }
        match outcome {
            None => {
                skipped = skipped + 1;
            },
            Some(document) => {
                proof {
                    reveal(Seq::filter);
                    assert(before.push(document).drop_last() =~= before);
                }
                if same(document.status, "duplicate") {
                    duplicates = duplicates + 1;
                } else {
                    enqueued = enqueued + 1;
                }
                documents.push(document);
            },
        }
        proof {
            n = n + 1;
        }
    }
    proof {
        assert(all.take(n) =~= all);
        lemma_documents_are_counted(documents@);
        law_every_result_is_counted(all);
    }
    (ScrapeResponse { topic, requested, discovered, enqueued, duplicates, documents }, skipped)
}

proof fn lemma_documents_are_counted(documents: Seq<QueuedDocument>)
    ensures
        enqueued_of(documents) + duplicates_of(documents) == documents.len(),
    decreases documents.len(),
{
    reveal(Seq::filter);
    if documents.len() > 0 {
        lemma_documents_are_counted(documents.drop_last());
    }
}

/// Every result is counted once: as new, as a duplicate, or as skipped.
pub proof fn law_every_result_is_counted(outcomes: Seq<Option<QueuedDocument>>)
    ensures
        enqueued_of(published(outcomes)) + duplicates_of(published(outcomes)) + skipped_of(outcomes)
            == outcomes.len(),
    decreases outcomes.len(),
{
    reveal(Seq::filter);
    if outcomes.len() > 0 {
        law_every_result_is_counted(outcomes.drop_last());
        lemma_documents_are_counted(published(outcomes));
        lemma_documents_are_counted(published(outcomes.drop_last()));
    }
}

/// Only the bearer of the token passes: a header of the scheme `Bearer`, however capitalized, a space and
/// the token does; one with another token, another scheme or without a space does not, nor does none.
pub proof fn law_only_the_bearer_passes(
    header: &str,
    expected: &str,
    res: bool,
    scheme: Seq<char>,
    token: Seq<char>,
    missing: bool,
)
    requires
        call_ensures(authorized, (Some(header), expected), res),
        call_ensures(authorized, (None, expected), missing),
        header@ == scheme + seq![' '] + token,
        forall|i: int| 0 <= i < scheme.len() ==> #[trigger] scheme[i] != ' ',
    ensures
        !missing,
        res <==> lower_ascii(scheme) == "bearer"@ && token == expected@,
{
    reveal_strlit("Bearer");
    reveal_strlit("bearer");
    assert(lower_ascii("Bearer"@) =~= "bearer"@);
    let n = scheme.len() as int;
    let h = header@;
    assert forall|i: int| 0 <= i < n implies #[trigger] h[i] != ' ' by {
        assert(h[i] == scheme[i]);
    }
    assert(h[n] == ' ');
    crate::text::lemma_find_by_unique(h, crate::text::is_char(' '), n);
    assert(h.take(n) =~= scheme);
    assert(h.skip(n + 1) =~= token);
}

/// A request is accepted where its topic is not blank and has 200 characters at most, and it asks for one to
/// ten articles; without a number it asks for five.
pub proof fn law_requests_are_checked(
    request: &ScrapeRequest,
    res: Result<(String, usize), ScraperHttpError>,
)
    requires
        call_ensures(validate_request, (request,), res),
    ensures
        res is Ok <==> 1 <= trimmed(request.topic@).len() <= 200 && (request.limit is None || 1
            <= request.limit->0 <= 10),
        res matches Ok(accepted) ==> accepted.0@ == trimmed(request.topic@) && (request.limit is None
            ==> accepted.1 == 5) && (request.limit matches Some(n) ==> accepted.1 == n),
        res matches Err(e) ==> e is BadRequest,
{
}

/// A page that is known is not fetched again; a new one is published under the digest of its address, which
/// every part of the publication and the answer name.
pub proof fn law_known_pages_are_not_fetched(
    result: &TopicResult,
    cataloged: bool,
    after: AfterLookup,
    data_dir: &str,
    now: &str,
    plan: Publication,
    id: String,
    url: &str,
)
    requires
        call_ensures(after_lookup, (result, cataloged), after),
        call_ensures(plan_publication, (result, data_dir, now), plan),
        call_ensures(id_for_url, (url,), id),
        url@ == result.url@,
    ensures
        cataloged <==> after is Duplicate,
        after matches AfterLookup::Duplicate(d) ==> d.status@ == "duplicate"@ && d.job_id is None
            && d.document_id@ == id@ && d.source_url@ == result.url@,
        after matches AfterLookup::Fetch { document_id } ==> document_id@ == id@,
        plan.artifact.document_id@ == id@,
        plan.catalog.id@ == id@,
        plan.queued.document_id@ == id@,
        plan.artifact.source_url@ == result.url@,
        plan.catalog.source_url@ == result.url@,
        plan.queued.source_url@ == result.url@,
        plan.artifact.title@ == result.title@,
        plan.queued.status@ == "enqueued"@,
        plan.catalog.status@ == "NEW"@,
        plan.artifact.fetched_at@ == now@,
        plan.catalog.created_at@ == now@,
{
}

/// What became of the results is told: a result that became a document is listed after those before it, new
/// or a duplicate, one that did not is skipped.
pub proof fn law_results_are_told(
    topic: String,
    requested: usize,
    outcomes: Vec<Option<QueuedDocument>>,
    more: Vec<Option<QueuedDocument>>,
    before: (ScrapeResponse, usize),
    after: (ScrapeResponse, usize),
)
    requires
        call_ensures(respond, (topic, requested, outcomes), before),
        call_ensures(respond, (topic, requested, more), after),
        more@.len() > 0,
        more@.drop_last() == outcomes@,
    ensures
        after.0.discovered == before.0.discovered + 1,
        more@.last() is None ==> after.1 == before.1 + 1 && after.0.documents@ == before.0.documents@,
        more@.last() matches Some(d) ==> after.1 == before.1 && after.0.documents@
            == before.0.documents@.push(d) && (d.status@ == "duplicate"@ ==> after.0.duplicates
            == before.0.duplicates + 1 && after.0.enqueued == before.0.enqueued) && (d.status@
            != "duplicate"@ ==> after.0.enqueued == before.0.enqueued + 1 && after.0.duplicates
            == before.0.duplicates),
        outcomes@.len() == 0 ==> before.0.documents@.len() == 0 && before.1 == 0 && before.0.enqueued
            == 0 && before.0.duplicates == 0,
{
    reveal(Seq::filter);
    let docs = published(outcomes@);
    if more@.last() is Some {
        let d = more@.last()->0;
        assert(docs.push(d).drop_last() =~= docs);
        assert(docs.push(d).last() == d);
    }
}

} // verus!
