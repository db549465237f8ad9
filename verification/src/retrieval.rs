//! Retrieval: the health report, pages of the catalog, prompts and answers.

use vstd::prelude::*;
use vstd::string::StringExecFns;

use crate::artifacts::capped_sum;
use crate::order::{
    key_views, lemma_ordered_pick_exists, lemma_ordered_pick_unique, ordered_pick, sort_picked,
};
use crate::tally::{counted, counts};
use crate::text::{
    chars_of, contains, copy_opt, has_text, is_char, join, join_strings, lower_ascii,
    lowercase_ascii, opt_text, same, string_of, texts, trim, trim_end_by, trimmed, upper_ascii,
    uppercase_ascii,
};

pub mod signals;

verus! {

/// How many chunks a query asks for unless it says.
pub const DEFAULT_TOP_K: usize = 5;

/// How many chunks a query may ask for.
pub const MAX_TOP_K: usize = 20;

/// How old the heartbeat of a running process may be, in milliseconds.
pub const HEARTBEAT_MS: u64 = 15_000;

// ---------------------------------------------------------------------------------------------
// Errors.
// ---------------------------------------------------------------------------------------------
/// Errors raised while starting the retrieval process.
#[derive(Debug, Clone, PartialEq, Eq)]
pub enum RetrievalError {
    /// The process configuration is invalid.
    Configuration(String),
    /// A local file operation failed.
    Storage(String),
    /// A provider client could not be created.
    Provider(String),
    /// The listener failed.
    Listener(String),
}

impl RetrievalError {
    /// The message of the error.
    pub open spec fn text(self) -> Seq<char> {
        match self {
            RetrievalError::Configuration(m) => "configuration: "@ + m@,
            RetrievalError::Storage(m) => "storage: "@ + m@,
            RetrievalError::Provider(m) => "provider client: "@ + m@,
            RetrievalError::Listener(m) => "listener: "@ + m@,
        }
    }

    /// The message of the error.
    pub fn message(&self) -> (res: String)
        ensures
            res@ == self.text(),
    {
        let (start, rest) = match self {
            RetrievalError::Configuration(m) => ("configuration: ", m),
            RetrievalError::Storage(m) => ("storage: ", m),
            RetrievalError::Provider(m) => ("provider client: ", m),
            RetrievalError::Listener(m) => ("listener: ", m),
        };
        let mut s = start.to_owned();
        s.append(rest.as_str());
        s
    }
}

/// What a request is refused with.
#[derive(Debug, Clone, PartialEq, Eq)]
pub enum RetrievalHttpError {
    /// The request is wrong.
    BadRequest(String),
    /// A service behind this one answered wrongly.
    BadGateway(String),
    /// A service behind this one is not there.
    ServiceUnavailable(String),
    /// There is no such thing.
    NotFound,
    /// Something is wrong here.
    Internal(String),
    /// A local file operation failed.
    Storage(String),
}

impl RetrievalHttpError {
    /// The message of the error.
    pub open spec fn text(self) -> Seq<char> {
        match self {
            RetrievalHttpError::BadRequest(m) => "bad request: "@ + m@,
            RetrievalHttpError::BadGateway(m) => "bad gateway: "@ + m@,
            RetrievalHttpError::ServiceUnavailable(m) => "service unavailable: "@ + m@,
            RetrievalHttpError::NotFound => "not found"@,
            RetrievalHttpError::Internal(m) => "internal error: "@ + m@,
            RetrievalHttpError::Storage(m) => "storage: "@ + m@,
        }
    }

    /// The message of the error.
    pub fn message(&self) -> (res: String)
        ensures
            res@ == self.text(),
    {
        let (start, rest) = match self {
            RetrievalHttpError::BadRequest(m) => ("bad request: ", m),
            RetrievalHttpError::BadGateway(m) => ("bad gateway: ", m),
            RetrievalHttpError::ServiceUnavailable(m) => ("service unavailable: ", m),
            RetrievalHttpError::NotFound => {
                return "not found".to_owned();
            },
            RetrievalHttpError::Internal(m) => ("internal error: ", m),
            RetrievalHttpError::Storage(m) => ("storage: ", m),
        };
        let mut s = start.to_owned();
        s.append(rest.as_str());
        s
    }

    /// The HTTP status of the error.
    pub open spec fn code(self) -> u16 {
        match self {
            RetrievalHttpError::BadRequest(_) => 400,
            RetrievalHttpError::NotFound => 404,
            RetrievalHttpError::ServiceUnavailable(_) => 503,
            RetrievalHttpError::BadGateway(_) => 502,
            RetrievalHttpError::Internal(_) | RetrievalHttpError::Storage(_) => 500,
        }
    }

    /// The HTTP status of the error.
    pub fn status(&self) -> (res: u16)
        ensures
            res == self.code(),
    {
        match self {
            RetrievalHttpError::BadRequest(_) => 400,
            RetrievalHttpError::NotFound => 404,
            RetrievalHttpError::ServiceUnavailable(_) => 503,
            RetrievalHttpError::BadGateway(_) => 502,
            RetrievalHttpError::Internal(_) => 500,
            RetrievalHttpError::Storage(_) => 500,
        }
    }

    /// The refusal of a request that failed behind this service.
    pub fn from_error(error: &RetrievalError) -> (res: RetrievalHttpError)
        ensures
            res matches RetrievalHttpError::BadGateway(m) && m@ == error.text(),
    {
        RetrievalHttpError::BadGateway(error.message())
    }
}

// ---------------------------------------------------------------------------------------------
// Health.
// ---------------------------------------------------------------------------------------------
/// What was found when the parts of the system were probed.
#[derive(Debug, Clone, Copy, PartialEq, Eq, Structural)]
pub struct Probes {
    /// The artifact directory exists.
    pub artifact_store: bool,
    /// The vector store answers.
    pub qdrant: bool,
    /// The graph store answers.
    pub falkordb: bool,
    /// The language model answers.
    pub ollama: bool,
    /// The embedding model is cached.
    pub embedding_model: bool,
    /// The scraper is alive.
    pub scraper: bool,
    /// The cleaning process is alive.
    pub cleaning: bool,
    /// The indexer is alive.
    pub indexer: bool,
    /// The graph process is alive.
    pub graph: bool,
}

/// What is wrong with a part of the system, and what to do about it.
#[derive(Debug, Clone, Copy)]
pub struct Diagnostic {
    /// The part.
    pub component: &'static str,
    /// What is wrong.
    pub message: &'static str,
    /// What to do.
    pub action: &'static str,
}

impl View for Diagnostic {
    type V = (Seq<char>, Seq<char>, Seq<char>);

    open spec fn view(&self) -> (Seq<char>, Seq<char>, Seq<char>) {
        (self.component@, self.message@, self.action@)
    }
}

/// The models of diagnostics.
pub open spec fn diagnostic_views(v: Seq<Diagnostic>) -> Seq<(Seq<char>, Seq<char>, Seq<char>)> {
    v.map_values(|d: Diagnostic| d@)
}

/// The health of the system.
#[derive(Debug)]
pub struct Health {
    /// The overall status.
    pub status: &'static str,
    /// What is wrong.
    pub diagnostics: Vec<Diagnostic>,
}

/// A diagnostic where something is not ready.
pub open spec fn unless(
    ready: bool,
    component: Seq<char>,
    message: Seq<char>,
    action: Seq<char>,
) -> Seq<(Seq<char>, Seq<char>, Seq<char>)> {
    if ready {
        seq![]
    } else {
        seq![(component, message, action)]
    }
}

/// A diagnostic where a process is not alive.
pub open spec fn unless_alive(ready: bool, name: Seq<char>) -> Seq<
    (Seq<char>, Seq<char>, Seq<char>),
> {
    unless(ready, name, "process heartbeat is missing or stale"@, "Start or restart this process."@)
}

/// What is wrong, for what was found.
pub open spec fn findings(p: Probes) -> Seq<(Seq<char>, Seq<char>, Seq<char>)> {
    unless(
        p.artifact_store,
        "artifactStore"@,
        "artifact directory is unavailable"@,
        "Create the configured data directory and restart the retrieval process."@,
    ) + unless(
        p.qdrant,
        "qdrant"@,
        "Qdrant is unavailable"@,
        "Start Qdrant with docker compose."@,
    ) + unless(
        p.falkordb,
        "falkordb"@,
        "FalkorDB is unavailable"@,
        "Start FalkorDB with docker compose."@,
    ) + unless(
        p.embedding_model,
        "embeddingModel"@,
        "the local embedding model is not cached"@,
        "Start the indexer once with network access to download the embedding model."@,
    ) + unless(
        p.ollama,
        "ollama"@,
        "the configured Ollama model is unavailable"@,
        "Start Ollama and pull the configured model."@,
    ) + unless_alive(p.scraper, "scraper"@) + unless_alive(p.cleaning, "cleaning"@) + unless_alive(
        p.indexer,
        "indexer"@,
    ) + unless_alive(p.graph, "graph"@)
}

/// The overall status, for what was found.
pub open spec fn overall(p: Probes) -> Seq<char> {
    if !p.artifact_store {
        "offline"@
    } else if p.qdrant && p.falkordb && p.embedding_model && p.ollama && p.scraper && p.cleaning
        && p.indexer && p.graph {
        "healthy"@
    } else {
        "degraded"@
    }
}

fn note(
    list: &mut Vec<Diagnostic>,
    ready: bool,
    component: &'static str,
    message: &'static str,
    action: &'static str,
)
    ensures
        diagnostic_views(final(list)@) == diagnostic_views(old(list)@) + unless(
            ready,
            component@,
            message@,
            action@,
        ),
{
    let ghost before = diagnostic_views(list@);
    if !ready {
        list.push(Diagnostic { component, message, action });
        assert(diagnostic_views(list@) =~= before + seq![(component@, message@, action@)]);
    } else {
        assert(before + seq![] =~= before);
    }
}

/// Reports the health of the system: offline without the artifact directory, healthy where every
/// part is ready, else degraded, with a diagnostic for each part that is not ready.
pub fn health(probes: Probes) -> (res: Health)
    ensures
        res.status@ == overall(probes),
        diagnostic_views(res.diagnostics@) == findings(probes),
{
    let mut list: Vec<Diagnostic> = Vec::new();
    assert(diagnostic_views(list@) =~= seq![]);
    note(
        &mut list,
        probes.artifact_store,
        "artifactStore",
        "artifact directory is unavailable",
        "Create the configured data directory and restart the retrieval process.",
    );
    note(
        &mut list,
        probes.qdrant,
        "qdrant",
        "Qdrant is unavailable",
        "Start Qdrant with docker compose.",
    );
    note(
        &mut list,
        probes.falkordb,
        "falkordb",
        "FalkorDB is unavailable",
        "Start FalkorDB with docker compose.",
    );
    note(
        &mut list,
        probes.embedding_model,
        "embeddingModel",
        "the local embedding model is not cached",
        "Start the indexer once with network access to download the embedding model.",
    );
    note(
        &mut list,
        probes.ollama,
        "ollama",
        "the configured Ollama model is unavailable",
        "Start Ollama and pull the configured model.",
    );
    let stale = "process heartbeat is missing or stale";
    let restart = "Start or restart this process.";
    note(&mut list, probes.scraper, "scraper", stale, restart);
    note(&mut list, probes.cleaning, "cleaning", stale, restart);
    note(&mut list, probes.indexer, "indexer", stale, restart);
    note(&mut list, probes.graph, "graph", stale, restart);
    assert(diagnostic_views(list@) =~= findings(probes));
    let status = if !probes.artifact_store {
        "offline"
    } else if !probes.qdrant || !probes.falkordb || !probes.embedding_model || !probes.ollama
        || !probes.scraper || !probes.cleaning || !probes.indexer || !probes.graph {
        "degraded"
    } else {
        "healthy"
    };
    Health { status, diagnostics: list }
}

/// How a part of the system is reported.
pub fn availability(ready: bool) -> (res: &'static str)
    ensures
        res@ == if ready {
            "available"@
        } else {
            "unavailable"@
        },
{
    if ready {
        "available"
    } else {
        "unavailable"
    }
}

/// Whether a process is alive, by the age of its heartbeat; none is a heartbeat that is missing or
/// lies in the future.
pub fn process_ready(heartbeat_age_ms: Option<u64>) -> (res: bool)
    ensures
        res == (heartbeat_age_ms matches Some(age) && age < HEARTBEAT_MS),
{
    match heartbeat_age_ms {
        Some(age) => age < HEARTBEAT_MS,
        None => false,
    }
}

// ---------------------------------------------------------------------------------------------
// The catalog.
// ---------------------------------------------------------------------------------------------
/// A document of the catalog.
#[derive(Debug)]
pub struct CatalogDocument {
    /// Stable document identity.
    pub id: String,
    /// Source URL.
    pub source_url: String,
    /// The title.
    pub title: Option<String>,
    /// The status.
    pub status: String,
    /// The number of its chunks.
    pub chunk_count: usize,
    /// When it was queued.
    pub created_at: String,
    /// When it was last processed.
    pub last_processed_at: Option<String>,
    /// What went wrong.
    pub error: Option<String>,
}

/// The model of a [`CatalogDocument`].
#[verifier::ext_equal]
pub struct CatalogView {
    pub id: Seq<char>,
    pub source_url: Seq<char>,
    pub title: Option<Seq<char>>,
    pub status: Seq<char>,
    pub chunk_count: int,
    pub created_at: Seq<char>,
    pub last_processed_at: Option<Seq<char>>,
    pub error: Option<Seq<char>>,
}

impl View for CatalogDocument {
    type V = CatalogView;

    open spec fn view(&self) -> CatalogView {
        CatalogView {
            id: self.id@,
            source_url: self.source_url@,
            title: opt_text(self.title),
            status: self.status@,
            chunk_count: self.chunk_count as int,
            created_at: self.created_at@,
            last_processed_at: opt_text(self.last_processed_at),
            error: opt_text(self.error),
        }
    }
}

impl CatalogDocument {
    fn copy(&self) -> (res: CatalogDocument)
        ensures
            res@ == self@,
    {
        CatalogDocument {
            id: self.id.clone(),
            source_url: self.source_url.clone(),
            title: copy_opt(&self.title),
            status: self.status.clone(),
            chunk_count: self.chunk_count,
            created_at: self.created_at.clone(),
            last_processed_at: copy_opt(&self.last_processed_at),
            error: copy_opt(&self.error),
        }
    }
}

/// The models of the documents of a catalog.
pub open spec fn catalog_views(v: Seq<CatalogDocument>) -> Seq<CatalogView> {
    v.map_values(|d: CatalogDocument| d@)
}

/// What is asked of the catalog.
#[derive(Debug)]
pub struct DocumentQuery {
    /// How many documents to skip.
    pub cursor: Option<usize>,
    /// How many documents to answer.
    pub limit: Option<usize>,
    /// A text to find in addresses and titles.
    pub search: Option<String>,
    /// The status of the documents.
    pub status: Option<String>,
}

/// One page of the catalog.
#[derive(Debug)]
pub struct DocumentPage {
    /// The documents.
    pub items: Vec<CatalogDocument>,
    /// Where the next page begins.
    pub next_cursor: Option<usize>,
}

/// The size of a page.
pub open spec fn page_limit(limit: Option<usize>) -> int {
    match limit {
        None => 25,
        Some(n) => if n < 1 {
            1
        } else if n > 100 {
            100
        } else {
            n as int
        },
    }
}

/// Where a page begins.
pub open spec fn page_start(cursor: Option<usize>) -> int {
    match cursor {
        None => 0,
        Some(n) => n as int,
    }
}

/// Whether a text holds another, whatever their ASCII case.
pub open spec fn mentions(text: Seq<char>, search: Seq<char>) -> bool {
    has_text(lower_ascii(text), lower_ascii(search))
}

/// Whether a document meets a query: its status is the one asked for, in upper case, and its address
/// or title holds the search text.
pub open spec fn meets(d: CatalogView, q: DocumentQuery) -> bool {
    &&& q.status matches Some(s) ==> d.status == upper_ascii(s@)
    &&& q.search matches Some(s) ==> {
        ||| s@.len() == 0
        ||| mentions(d.source_url, s@)
        ||| mentions(
            match d.title {
                Some(t) => t,
                None => seq![],
            },
            s@,
        )
    }
}

/// The ids of documents.
pub open spec fn catalog_ids(docs: Seq<CatalogView>) -> Seq<Seq<char>> {
    docs.map_values(|d: CatalogView| d.id)
}

/// Which documents meet a query.
pub open spec fn meeting(docs: Seq<CatalogView>, q: DocumentQuery) -> Seq<bool> {
    docs.map_values(|d: CatalogView| meets(d, q))
}

/// The places of the documents that meet a query, by ascending id.
pub open spec fn found_places(docs: Seq<CatalogView>, q: DocumentQuery) -> Seq<int> {
    choose|order: Seq<int>| #[trigger]
        ordered_pick::<String>(catalog_ids(docs), meeting(docs, q), order)
}

/// The documents that meet a query, by ascending id.
pub open spec fn found(docs: Seq<CatalogView>, q: DocumentQuery) -> Seq<CatalogView> {
    found_places(docs, q).map_values(|i: int| docs[i])
}

/// A part of a list: from `start` on, no more than `limit`.
pub open spec fn page_of(list: Seq<CatalogView>, start: int, limit: int) -> Seq<CatalogView> {
    if start >= list.len() {
        seq![]
    } else if start + limit > list.len() {
        list.skip(start)
    } else {
        list.subrange(start, start + limit)
    }
}

/// What a query finds.
pub open spec fn answers(docs: Seq<CatalogView>, q: DocumentQuery, page: DocumentPage) -> bool {
    let items = page_of(found(docs, q), page_start(q.cursor), page_limit(q.limit));
    &&& catalog_views(page.items@) == items
    &&& if items.len() == page_limit(q.limit) {
        page.next_cursor matches Some(n) && n == page_start(q.cursor) + items.len()
    } else {
        page.next_cursor is None
    }
}

fn clamp(n: usize, lo: usize, hi: usize) -> (res: usize)
    requires
        lo <= hi,
    ensures
        res == if n < lo {
            lo
        } else if n > hi {
            hi
        } else {
            n
        },
{
    if n < lo {
        lo
    } else if n > hi {
        hi
    } else {
        n
    }
}

fn document_meets(
    d: &CatalogDocument,
    status: &Option<String>,
    search: &Option<String>,
    q: Ghost<DocumentQuery>,
) -> (res: bool)
    requires
        match q@.status {
            Some(s) => status matches Some(t) && t@ == upper_ascii(s@),
            None => status is None,
        },
        match q@.search {
            Some(s) => search matches Some(t) && t@ == lower_ascii(s@),
            None => search is None,
        },
    ensures
        res == meets(d@, q@),
{
    if let Some(wanted) = status {
        if !same(d.status.as_str(), wanted.as_str()) {
            return false;
        }
    }
    match search {
        None => true,
        Some(s) => {
            if s.as_str().is_empty() {
                return true;
            }
            let address = lowercase_ascii(d.source_url.as_str());
            let title = match &d.title {
                Some(t) => lowercase_ascii(t.as_str()),
                None => lowercase_ascii(""),
            };
            proof {
                reveal_strlit("");
                assert(""@ =~= seq![]);
            }
            contains(address.as_str(), s.as_str()) || contains(title.as_str(), s.as_str())
        },
    }
}

/// Reads a page of the catalog: the documents that meet the query by ascending id, after those that
/// are skipped, no more than the limit. A full page tells where the next one begins.
pub fn documents(catalog: &Vec<CatalogDocument>, query: &DocumentQuery) -> (res: DocumentPage)
    ensures
        answers(catalog_views(catalog@), *query, res),
{
    let ghost docs = catalog_views(catalog@);
    let limit: usize = match query.limit {
        None => 25,
        Some(n) => clamp(n, 1, 100),
    };
    let cursor: usize = match query.cursor {
        None => 0,
        Some(n) => n,
    };
    let status = match &query.status {
        Some(s) => Some(uppercase_ascii(s.as_str())),
        None => None,
    };
    let search = match &query.search {
        Some(s) => Some(lowercase_ascii(s.as_str())),
        None => None,
    };
    let ghost wanted_keys = catalog_ids(docs);
    let ghost wanted_pick = meeting(docs, *query);
    let mut keys: Vec<String> = Vec::new();
    let mut pick: Vec<bool> = Vec::new();
    let mut i: usize = 0;
    while i < catalog.len()
        invariant
            i <= catalog@.len(),
            docs == catalog_views(catalog@),
            wanted_keys == catalog_ids(docs),
            wanted_pick == meeting(docs, *query),
            key_views(keys@) == wanted_keys.take(i as int),
            pick@ == wanted_pick.take(i as int),
            match query.status {
                Some(s) => status matches Some(t) && t@ == upper_ascii(s@),
                None => status is None,
            },
            match query.search {
                Some(s) => search matches Some(t) && t@ == lower_ascii(s@),
                None => search is None,
            },
        decreases catalog@.len() - i,
    {
        let d = &catalog[i];
        assert(docs[i as int] == d@);
        let ghost before = key_views(keys@);
        let key = d.id.clone();
        keys.push(key);
        pick.push(document_meets(d, &status, &search, Ghost(*query)));
        assert(key_views(keys@) =~= before.push(key@));
        i = i + 1;
        assert(key_views(keys@) =~= wanted_keys.take(i as int));
        assert(pick@ =~= wanted_pick.take(i as int));
    }
    assert(wanted_keys.take(i as int) =~= wanted_keys);
    assert(wanted_pick.take(i as int) =~= wanted_pick);
    assert(keys@.len() == key_views(keys@).len());
    let order = sort_picked(&keys, &pick);
    let ghost indices = order@.map_values(|i: usize| i as int);
    proof {
        lemma_ordered_pick_exists::<String>(wanted_keys, wanted_pick);
        lemma_ordered_pick_unique::<String>(
            wanted_keys,
            wanted_pick,
            indices,
            found_places(docs, *query),
        );
    }
    let ghost list = found(docs, *query);
    let n: usize = order.len();
    let start: usize = if cursor < n {
        cursor
    } else {
        n
    };
    let end: usize = if limit < n - start {
        start + limit
    } else {
        n
    };
    let mut items: Vec<CatalogDocument> = Vec::new();
    let mut k: usize = start;
    assert(catalog_views(items@) =~= list.subrange(start as int, start as int));
    while k < end
        invariant
            start <= k <= end <= n == order@.len(),
            docs == catalog_views(catalog@),
            list == found(docs, *query),
            indices == found_places(docs, *query),
            indices == order@.map_values(|i: usize| i as int),
            forall|j: int| 0 <= j < order@.len() ==> #[trigger] order@[j] < catalog@.len(),
            catalog_views(items@) == list.subrange(start as int, k as int),
        decreases end - k,
    {
        let ghost before = catalog_views(items@);
        let item = catalog[order[k]].copy();
        assert(docs[order@[k as int] as int] == catalog@[order@[k as int] as int]@);
        assert(list[k as int] == item@);
        items.push(item);
        assert(catalog_views(items@) =~= before.push(item@));
        k = k + 1;
        assert(catalog_views(items@) =~= list.subrange(start as int, k as int));
    }
    let ghost page = page_of(list, page_start(query.cursor), page_limit(query.limit));
    assert(catalog_views(items@) =~= page);
    assert(items@.len() == catalog_views(items@).len());
    let next_cursor = if items.len() == limit {
        Some(cursor + limit)
    } else {
        None
    };
    DocumentPage { items, next_cursor }
}

/// Counts the documents of a catalog by status.
pub fn documents_by_status(catalog: &Vec<CatalogDocument>) -> (res: Vec<(String, u64)>)
    ensures
        counted(catalog_views(catalog@).map_values(|d: CatalogView| d.status), res@),
{
    let ghost wanted = catalog_views(catalog@).map_values(|d: CatalogView| d.status);
    let mut labels: Vec<String> = Vec::new();
    let mut i: usize = 0;
    while i < catalog.len()
        invariant
            i <= catalog@.len(),
            wanted == catalog_views(catalog@).map_values(|d: CatalogView| d.status),
            texts(labels@) == wanted.take(i as int),
        decreases catalog@.len() - i,
    {
        let ghost before = texts(labels@);
        let label = catalog[i].status.clone();
        labels.push(label);
        assert(texts(labels@) =~= before.push(label@));
        assert(wanted[i as int] == label@);
        i = i + 1;
        assert(texts(labels@) =~= wanted.take(i as int));
    }
    assert(wanted.take(i as int) =~= wanted);
    counts(&labels)
}

/// A document that waits for a process.
#[derive(Debug)]
pub struct QueueItem {
    /// The document.
    pub document_id: String,
    /// The status of the document.
    pub document_status: String,
    /// What went wrong.
    pub error: Option<String>,
    /// The status of the job.
    pub job_status: &'static str,
    /// Source URL.
    pub source_url: String,
    /// The last stage that was done.
    pub stage: &'static str,
    /// The title.
    pub title: Option<String>,
}

/// A queue, by the process that it belongs to.
#[derive(Debug, Clone, Copy, PartialEq, Eq, Structural)]
pub enum Inbox {
    /// What the scraper left for cleaning.
    Cleaning,
    /// What cleaning left for the indexer.
    Indexer,
    /// What the indexer left for the graph.
    Graph,
}

/// The stage that the documents in a queue have been through.
pub open spec fn stage_of(inbox: Inbox) -> Seq<char> {
    match inbox {
        Inbox::Cleaning => "SCRAPE"@,
        Inbox::Indexer => "CLEAN"@,
        Inbox::Graph => "EXTRACT"@,
    }
}

/// The first document of a catalog with an id.
pub open spec fn first_with(docs: Seq<CatalogView>, id: Seq<char>) -> Option<CatalogView>
    decreases docs.len(),
{
    if docs.len() == 0 {
        None
    } else if docs[0].id == id {
        Some(docs[0])
    } else {
        first_with(docs.drop_first(), id)
    }
}

/// Reports a document that waits in a queue, with what the catalog knows of it.
pub fn queue_item(inbox: Inbox, id: &str, catalog: &Vec<CatalogDocument>) -> (res: QueueItem)
    ensures
        res.document_id@ == id@,
        res.job_status@ == "PENDING"@,
        res.stage@ == stage_of(inbox),
        match first_with(catalog_views(catalog@), id@) {
            Some(d) => {
                &&& res.document_status@ == d.status
                &&& opt_text(res.error) == d.error
                &&& res.source_url@ == d.source_url
                &&& opt_text(res.title) == d.title
            },
            None => {
                &&& res.document_status@ == "NEW"@
                &&& res.error is None
                &&& res.source_url@.len() == 0
                &&& res.title is None
            },
        },
{
    let ghost docs = catalog_views(catalog@);
    let stage = match inbox {
        Inbox::Cleaning => "SCRAPE",
        Inbox::Indexer => "CLEAN",
        Inbox::Graph => "EXTRACT",
    };
    let mut i: usize = 0;
    assert(docs.skip(0) =~= docs);
    while i < catalog.len()
        invariant
            i <= catalog@.len(),
            docs == catalog_views(catalog@),
            stage@ == stage_of(inbox),
            first_with(docs, id@) == first_with(docs.skip(i as int), id@),
        decreases catalog@.len() - i,
    {
        let d = &catalog[i];
        assert(docs.skip(i as int)[0] == d@);
        if same(d.id.as_str(), id) {
            return QueueItem {
                document_id: id.to_owned(),
                document_status: d.status.clone(),
                error: copy_opt(&d.error),
                job_status: "PENDING",
                source_url: d.source_url.clone(),
                stage,
                title: copy_opt(&d.title),
            };
        }
        assert(docs.skip(i as int).drop_first() =~= docs.skip(i + 1));
        i = i + 1;
    }
    QueueItem {
        document_id: id.to_owned(),
        document_status: "NEW".to_owned(),
        error: None,
        job_status: "PENDING",
        source_url: String::new(),
        stage,
        title: None,
    }
}

/// The number of raw pages, and their size in bytes: of each file its extension and size are given.
pub open spec fn usage(files: Seq<(Option<String>, u64)>) -> (nat, u64)
    decreases files.len(),
{
    if files.len() == 0 {
        (0, 0)
    } else {
        let (n, bytes) = usage(files.drop_last());
        if opt_text(files.last().0) == Some("html"@) {
            (n + 1, capped_sum(bytes, files.last().1))
        } else {
            (n, bytes)
        }
    }
}

/// The number of raw pages, and their size in bytes.
pub fn raw_usage(files: &Vec<(Option<String>, u64)>) -> (res: (usize, u64))
    ensures
        res.0 == usage(files@).0,
        res.1 == usage(files@).1,
{
    let mut count: usize = 0;
    let mut bytes: u64 = 0;
    let mut i: usize = 0;
    assert(files@.take(0) =~= seq![]);
    while i < files.len()
        invariant
            i <= files@.len(),
            count <= i,
            count == usage(files@.take(i as int)).0,
            bytes == usage(files@.take(i as int)).1,
        decreases files@.len() - i,
    {
        assert(files@.take(i + 1).drop_last() =~= files@.take(i as int));
        assert(files@.take(i + 1).last() == files@[i as int]);
        let is_page = match &files[i].0 {
            Some(e) => same(e.as_str(), "html"),
            None => false,
        };
        if is_page {
            count = count + 1;
            let size: u64 = files[i].1;
            bytes = if bytes > u64::MAX - size {
                u64::MAX
            } else {
                bytes + size
            };
        }
        i = i + 1;
    }
    assert(files@.take(i as int) =~= files@);
    (count, bytes)
}

// ---------------------------------------------------------------------------------------------
// Queries.
// ---------------------------------------------------------------------------------------------
/// A service's address with a path: slashes at the end of the address do not count.
pub fn endpoint(base: &str, path: &str) -> (res: String)
    ensures
        res@ == trim_end_by(base@, is_char('/')) + path@,
{
    let v = chars_of(base);
    let mut n: usize = v.len();
    assert(base@.take(n as int) =~= base@);
    while n > 0 && v[n - 1] == '/'
        invariant
            n <= v@.len(),
            v@ == base@,
            trim_end_by(base@, is_char('/')) == trim_end_by(base@.take(n as int), is_char('/')),
        decreases n,
    {
        assert(base@.take(n as int).drop_last() =~= base@.take(n - 1));
        assert(base@.take(n as int).last() == '/');
        n = n - 1;
    }
    assert(trim_end_by(base@.take(n as int), is_char('/')) == base@.take(n as int)) by {
        if n > 0 {
            assert(base@.take(n as int).last() != '/');
        }
    }
    let mut s = string_of(v.as_slice(), 0, n);
    assert(s@ =~= base@.take(n as int));
    s.append(path);
    s
}

/// Accepts the question of a query: it must not be blank.
pub fn question_of(query: &str) -> (res: Result<String, RetrievalHttpError>)
    ensures
        if trimmed(query@).len() == 0 {
            res matches Err(RetrievalHttpError::BadRequest(m)) && m@ == "query must not be empty"@
        } else {
            res matches Ok(q) && q@ == trimmed(query@)
        },
{
    let question = trim(query);
    if question.as_str().is_empty() {
        Err(RetrievalHttpError::BadRequest("query must not be empty".to_owned()))
    } else {
        Ok(question)
    }
}

/// How many chunks a query asks for: at least one, at most [`MAX_TOP_K`].
pub fn top_k(asked: Option<usize>) -> (res: usize)
    ensures
        res == match asked {
            None => DEFAULT_TOP_K,
            Some(n) => if n < 1 {
                1
            } else if n > MAX_TOP_K {
                MAX_TOP_K
            } else {
                n
            },
        },
{
    match asked {
        None => DEFAULT_TOP_K,
        Some(n) => clamp(n, 1, MAX_TOP_K),
    }
}

/// A point that the vector store found: the texts of its payload that count.
#[derive(Debug)]
pub struct QdrantPoint {
    /// The bits of its score.
    pub score_bits: u32,
    /// The chunk, where the payload names one.
    pub chunk_id: Option<String>,
    /// The text, where the payload holds one.
    pub text: Option<String>,
}

/// A chunk that answers a query.
#[derive(Debug)]
pub struct QueryChunk {
    /// The chunk.
    pub chunk_id: String,
    /// The bits of its score.
    pub score_bits: u32,
    /// Its text.
    pub text: String,
}

/// The model of a [`QueryChunk`].
#[verifier::ext_equal]
pub struct QueryChunkView {
    pub chunk_id: Seq<char>,
    pub score_bits: u32,
    pub text: Seq<char>,
}

impl View for QueryChunk {
    type V = QueryChunkView;

    open spec fn view(&self) -> QueryChunkView {
        QueryChunkView { chunk_id: self.chunk_id@, score_bits: self.score_bits, text: self.text@ }
    }
}

/// The models of chunks.
pub open spec fn chunk_views(v: Seq<QueryChunk>) -> Seq<QueryChunkView> {
    v.map_values(|c: QueryChunk| c@)
}

/// The chunk of a point; none where the payload lacks a text.
pub open spec fn chunk_of(p: QdrantPoint) -> Option<QueryChunkView> {
    match (p.chunk_id, p.text) {
        (Some(id), Some(text)) => Some(
            QueryChunkView { chunk_id: id@, score_bits: p.score_bits, text: text@ },
        ),
        _ => None,
    }
}

/// The chunk of a point; none where the payload lacks a text.
pub fn point_to_chunk(point: &QdrantPoint) -> (res: Option<QueryChunk>)
    ensures
        match res {
            Some(c) => chunk_of(*point) == Some(c@),
            None => chunk_of(*point) is None,
        },
{
    match (&point.chunk_id, &point.text) {
        (Some(id), Some(text)) => Some(
            QueryChunk { chunk_id: id.clone(), score_bits: point.score_bits, text: text.clone() },
        ),
        _ => None,
    }
}

/// The chunks of points, without those that have none.
pub open spec fn chunks_found(points: Seq<QdrantPoint>) -> Seq<QueryChunkView>
    decreases points.len(),
{
    if points.len() == 0 {
        seq![]
    } else {
        match chunk_of(points.last()) {
            Some(c) => chunks_found(points.drop_last()).push(c),
            None => chunks_found(points.drop_last()),
        }
    }
}

/// The chunks of points, without those that have none.
pub fn chunks_of(points: &Vec<QdrantPoint>) -> (res: Vec<QueryChunk>)
    ensures
        chunk_views(res@) == chunks_found(points@),
{
    let mut res: Vec<QueryChunk> = Vec::new();
    let mut i: usize = 0;
    assert(points@.take(0) =~= seq![]);
    assert(chunk_views(res@) =~= seq![]);
    while i < points.len()
        invariant
            i <= points@.len(),
            chunk_views(res@) == chunks_found(points@.take(i as int)),
        decreases points@.len() - i,
    {
        assert(points@.take(i + 1).drop_last() =~= points@.take(i as int));
        assert(points@.take(i + 1).last() == points@[i as int]);
        if let Some(c) = point_to_chunk(&points[i]) {
            let ghost before = chunk_views(res@);
            res.push(c);
            assert(chunk_views(res@) =~= before.push(c@));
        }
        i = i + 1;
    }
    assert(points@.take(i as int) =~= points@);
    res
}

/// A chunk as evidence.
pub open spec fn evidence_of(c: QueryChunkView) -> Seq<char> {
    "["@ + c.chunk_id + "]\n"@ + c.text
}

/// The prompt for a question with its evidence.
pub open spec fn prompt_of(question: Seq<char>, chunks: Seq<QueryChunkView>) -> Seq<char> {
    "Answer the question using only the evidence below. If the evidence does not support an answer, say that it is not known. Do not invent facts.\n\nQuestion: "@
        + question + "\n\nEvidence:\n"@ + join(
        chunks.map_values(|c: QueryChunkView| evidence_of(c)),
        "\n\n"@,
    ) + "\n\nAnswer concisely:"@
}

/// Writes the prompt for a question with its evidence.
pub fn render_prompt(question: &str, chunks: &Vec<QueryChunk>) -> (res: String)
    ensures
        res@ == prompt_of(question@, chunk_views(chunks@)),
{
    let ghost wanted = chunk_views(chunks@).map_values(|c: QueryChunkView| evidence_of(c));
    let mut parts: Vec<String> = Vec::new();
    let mut i: usize = 0;
    while i < chunks.len()
        invariant
            i <= chunks@.len(),
            wanted == chunk_views(chunks@).map_values(|c: QueryChunkView| evidence_of(c)),
            texts(parts@) == wanted.take(i as int),
        decreases chunks@.len() - i,
    {
        let ghost before = texts(parts@);
        let mut part = "[".to_owned();
        part.append(chunks[i].chunk_id.as_str());
        part.append("]\n");
        part.append(chunks[i].text.as_str());
        assert(wanted[i as int] == part@);
        parts.push(part);
        assert(texts(parts@) =~= before.push(part@));
        i = i + 1;
        assert(texts(parts@) =~= wanted.take(i as int));
    }
    assert(wanted.take(i as int) =~= wanted);
    let evidence = join_strings(&parts, "\n\n");
    let mut s =
        "Answer the question using only the evidence below. If the evidence does not support an answer, say that it is not known. Do not invent facts.\n\nQuestion: ".to_owned();
    s.append(question);
    s.append("\n\nEvidence:\n");
    s.append(evidence.as_str());
    s.append("\n\nAnswer concisely:");
    s
}

/// The answer to a query.
#[derive(Debug)]
pub struct QueryResponse {
    /// The answer, where there is one.
    pub answer: Option<String>,
    /// Whether the language model was there.
    pub availability: &'static str,
    /// The chunks that the answer rests on.
    pub citations: Vec<String>,
    /// The chunks that were found.
    pub chunks: Vec<QueryChunk>,
    /// Whether the answer rests on the chunks.
    pub grounding: &'static str,
}

/// Whether the language model is to be asked: only where there is evidence.
pub fn needs_answer(chunks: &Vec<QueryChunk>) -> (res: bool)
    ensures
        res == (chunks@.len() > 0),
{
    chunks.len() > 0
}

/// Answers a query with the reply of the language model, or without one where it was not asked: an
/// answer that is not blank is grounded and cites every chunk; without one nothing is cited.
pub fn respond(chunks: Vec<QueryChunk>, reply: Option<Result<Option<String>, String>>) -> (res:
    QueryResponse)
    ensures
        chunk_views(res.chunks@) == chunk_views(chunks@),
        match reply {
            Some(Ok(Some(value))) if trimmed(value@).len() > 0 => {
                &&& opt_text(res.answer) == Some(value@)
                &&& res.availability@ == "available"@
                &&& res.grounding@ == "grounded"@
                &&& texts(res.citations@) == chunk_views(chunks@).map_values(
                    |c: QueryChunkView| c.chunk_id,
                )
            },
            Some(Err(_)) => {
                &&& res.answer is None
                &&& res.availability@ == "unavailable"@
                &&& res.grounding@ == "ungrounded"@
                &&& res.citations@.len() == 0
            },
            _ => {
                &&& res.answer is None
                &&& res.availability@ == "available"@
                &&& res.grounding@ == "ungrounded"@
                &&& res.citations@.len() == 0
            },
        },
{
    match reply {
        Some(Ok(Some(value))) => {
            let text = trim(value.as_str());
            if text.as_str().is_empty() {
                return QueryResponse {
                    answer: None,
                    availability: "available",
                    citations: Vec::new(),
                    chunks,
                    grounding: "ungrounded",
                };
            }
            let ghost wanted = chunk_views(chunks@).map_values(|c: QueryChunkView| c.chunk_id);
            let mut citations: Vec<String> = Vec::new();
            let mut i: usize = 0;
            while i < chunks.len()
                invariant
                    i <= chunks@.len(),
                    wanted == chunk_views(chunks@).map_values(|c: QueryChunkView| c.chunk_id),
                    texts(citations@) == wanted.take(i as int),
                decreases chunks@.len() - i,
            {
                let ghost before = texts(citations@);
                let id = chunks[i].chunk_id.clone();
                citations.push(id);
                assert(texts(citations@) =~= before.push(id@));
                assert(wanted[i as int] == id@);
                i = i + 1;
                assert(texts(citations@) =~= wanted.take(i as int));
            }
            assert(wanted.take(i as int) =~= wanted);
            QueryResponse {
                answer: Some(value),
                availability: "available",
                citations,
                chunks,
                grounding: "grounded",
            }
        },
        Some(Err(_)) => QueryResponse {
            answer: None,
            availability: "unavailable",
            citations: Vec::new(),
            chunks,
            grounding: "ungrounded",
        },
        _ => QueryResponse {
            answer: None,
            availability: "available",
            citations: Vec::new(),
            chunks,
            grounding: "ungrounded",
        },
    }
}

/// Decides on the status of a search in the vector store.
pub fn search_outcome(status: u16, shown: &str) -> (res: Result<(), RetrievalHttpError>)
    ensures
        if 200 <= status < 300 {
            res is Ok
        } else {
            res matches Err(RetrievalHttpError::ServiceUnavailable(m)) && m@ == "qdrant returned "@
                + shown@
        },
{
    if 200 <= status && status < 300 {
        Ok(())
    } else {
        let mut s = "qdrant returned ".to_owned();
        s.append(shown);
        Err(RetrievalHttpError::ServiceUnavailable(s))
    }
}

/// Decides on the status of a generation.
pub fn generation_outcome(status: u16, shown: &str) -> (res: Result<(), RetrievalError>)
    ensures
        if 200 <= status < 300 {
            res is Ok
        } else {
            res matches Err(RetrievalError::Provider(m)) && m@ == "ollama returned "@ + shown@
        },
{
    if 200 <= status && status < 300 {
        Ok(())
    } else {
        let mut s = "ollama returned ".to_owned();
        s.append(shown);
        Err(RetrievalError::Provider(s))
    }
}

/// Decides on the status of a scrape.
pub fn scrape_outcome(status: u16, shown: &str) -> (res: Result<(), RetrievalHttpError>)
    ensures
        if 200 <= status < 300 {
            res is Ok
        } else {
            res matches Err(RetrievalHttpError::BadGateway(m)) && m@ == "scraper returned "@
                + shown@
        },
{
    if 200 <= status && status < 300 {
        Ok(())
    } else {
        let mut s = "scraper returned ".to_owned();
        s.append(shown);
        Err(RetrievalHttpError::BadGateway(s))
    }
}

// ---------------------------------------------------------------------------------------------
// Laws.
// ---------------------------------------------------------------------------------------------
/// The system is healthy exactly where nothing is wrong.
pub proof fn law_healthy_means_no_findings(p: Probes)
    ensures
        overall(p) == "healthy"@ <==> findings(p).len() == 0,
{
    reveal_strlit("healthy");
    reveal_strlit("degraded");
    reveal_strlit("offline");
    assert("healthy"@.len() == 7 && "degraded"@.len() == 8);
    assert("healthy"@[0] == 'h' && "offline"@[0] == 'o');
}

/// Two pages, the second from where the first ends, are one page of both lengths: nothing is left
/// out and nothing comes twice.
pub proof fn law_pages_continue(list: Seq<CatalogView>, start: int, limit: int)
    requires
        0 <= start,
        0 < limit,
        page_of(list, start, limit).len() == limit,
    ensures
        page_of(list, start, limit) + page_of(list, start + limit, limit) == page_of(
            list,
            start,
            2 * limit,
        ),
{
    let a = page_of(list, start, limit);
    let b = page_of(list, start + limit, limit);
    assert(a + b =~= page_of(list, start, 2 * limit));
}

/// A page of the catalog holds documents that meet the query, in the order of their ids, no more than were
/// asked for: 25 where nothing is said, one at least and 100 at most. A page that is not full leaves out
/// no document of the first page's query, and a full one tells where to go on.
pub proof fn law_pages_hold_what_was_asked_for(
    catalog: &Vec<CatalogDocument>,
    query: &DocumentQuery,
    res: DocumentPage,
    i: int,
    j: int,
    d: int,
)
    requires
        call_ensures(documents, (catalog, query), res),
    ensures
        query.limit is None ==> res.items@.len() <= 25,
        query.limit matches Some(n) ==> res.items@.len() <= 100 && (n > 0 ==> res.items@.len() <= n),
        0 <= i < res.items@.len() ==> catalog_views(catalog@).contains(res.items@[i]@),
        0 <= i < res.items@.len() ==> (query.status matches Some(s) ==> res.items@[i].status@
            == upper_ascii(s@)),
        0 <= i < res.items@.len() ==> (query.search matches Some(s) ==> s@.len() > 0 ==> {
            ||| has_text(lower_ascii(res.items@[i].source_url@), lower_ascii(s@))
            ||| res.items@[i].title matches Some(t) && has_text(lower_ascii(t@), lower_ascii(s@))
            ||| res.items@[i].title is None && has_text(seq![], lower_ascii(s@))
        }),
        0 <= i < j < res.items@.len() ==> !crate::text::text_less(res.items@[j].id@, res.items@[i].id@),
        query.cursor is None && res.next_cursor is None && 0 <= d < catalog@.len() && (
        query.status matches Some(s) ==> catalog@[d].status@ == upper_ascii(s@)) && (
        query.search is None || has_text(
            lower_ascii(catalog@[d].source_url@),
            lower_ascii(query.search->0@),
        ) || (catalog@[d].title is Some && has_text(
            lower_ascii(catalog@[d].title->0@),
            lower_ascii(query.search->0@),
        ))) ==> catalog_views(res.items@).contains(catalog@[d]@),
        query.cursor is None && res.next_cursor is Some ==> res.next_cursor == Some(
            res.items@.len() as usize,
        ) && res.items@.len() > 0,
{
    let docs = catalog_views(catalog@);
    let q = *query;
    let keys = catalog_ids(docs);
    let flags = meeting(docs, q);
    let order = found_places(docs, q);
    lemma_ordered_pick_exists::<String>(keys, flags);
    assert(ordered_pick::<String>(keys, flags, order));
    let all = found(docs, q);
    let start = page_start(q.cursor);
    let shown = catalog_views(res.items@);
    assert(shown == page_of(all, start, page_limit(q.limit)));
    assert forall|k: int| 0 <= k < shown.len() implies {
        &&& 0 <= start + k < all.len()
        &&& #[trigger] shown[k] == all[start + k]
        &&& 0 <= order[start + k] < docs.len()
        &&& flags[order[start + k]]
    } by {
        assert(order.contains(order[start + k]));
    }
    if 0 <= i < shown.len() {
        let at = order[start + i];
        assert(shown[i] == res.items@[i]@);
        assert(docs[at] == shown[i]);
        assert(meets(docs[at], q));
    }
    if 0 <= i < j < shown.len() {
        assert(shown[i] == res.items@[i]@ && shown[j] == res.items@[j]@);
        let (a, b) = (order[start + i], order[start + j]);
        assert(crate::order::row_before::<String>(keys, a, b));
        assert(keys[a] == docs[a].id && keys[b] == docs[b].id);
        crate::text::lemma_text_less_total(keys[a], keys[b]);
    }
    if q.cursor is None && res.next_cursor is None && 0 <= d < docs.len() {
        assert(docs[d] == catalog@[d]@);
        if meets(docs[d], q) {
            assert(flags[d]);
            assert(order.contains(d));
            let at = choose|at: int| 0 <= at < order.len() && order[at] == d;
            assert(all[at] == docs[d]);
            assert(shown =~= all.skip(0));
            assert(shown[at] == docs[d]);
        }
    }
}

/// Only pages count toward the raw pages: a file named `html` adds one and its size, up to the largest
/// number, another nothing.
pub proof fn law_raw_pages_are_counted(
    files: &Vec<(Option<String>, u64)>,
    more: &Vec<(Option<String>, u64)>,
    before: (usize, u64),
    after: (usize, u64),
)
    requires
        call_ensures(raw_usage, (files,), before),
        call_ensures(raw_usage, (more,), after),
        more@.len() > 0,
        more@.drop_last() == files@,
    ensures
        opt_text(more@.last().0) == Some("html"@) ==> after.0 == before.0 + 1 && (before.1
            + more@.last().1 <= u64::MAX ==> after.1 == before.1 + more@.last().1) && (before.1
            + more@.last().1 > u64::MAX ==> after.1 == u64::MAX),
        opt_text(more@.last().0) != Some("html"@) ==> after == before,
        files@.len() == 0 ==> before == (0usize, 0u64),
{
}

proof fn lemma_part_of_join(parts: Seq<Seq<char>>, sep: Seq<char>, i: int) -> (at: int)
    requires
        0 <= i < parts.len(),
    ensures
        0 <= at,
        at + parts[i].len() <= join(parts, sep).len(),
        join(parts, sep).subrange(at, at + parts[i].len()) == parts[i],
    decreases parts.len(),
{
    let whole = join(parts, sep);
    if parts.len() == 1 {
        assert(whole.subrange(0, whole.len() as int) =~= whole);
        0
    } else if i == parts.len() - 1 {
        let at = whole.len() - parts[i].len();
        assert(whole.subrange(at, whole.len() as int) =~= parts[i]);
        at
    } else {
        let front = parts.drop_last();
        assert(front[i] == parts[i]);
        let at = lemma_part_of_join(front, sep, i);
        assert(whole.subrange(at, at + parts[i].len()) =~= join(front, sep).subrange(
            at,
            at + parts[i].len(),
        ));
        at
    }
}

/// A prompt holds its question and, of every chunk that was found, the name and the text under it.
pub proof fn law_prompts_hold_their_evidence(
    question: &str,
    chunks: &Vec<QueryChunk>,
    res: String,
    i: int,
)
    requires
        call_ensures(render_prompt, (question, chunks), res),
    ensures
        exists|at: int|
            0 <= at && at + question@.len() <= res@.len() && #[trigger] res@.subrange(
                at,
                at + question@.len(),
            ) == question@,
        0 <= i < chunks@.len() ==> {
            let told = "["@ + chunks@[i].chunk_id@ + "]\n"@ + chunks@[i].text@;
            exists|at: int|
                0 <= at && at + told.len() <= res@.len() && #[trigger] res@.subrange(
                    at,
                    at + told.len(),
                ) == told
        },
{
    let views = chunk_views(chunks@);
    let parts = views.map_values(|c: QueryChunkView| evidence_of(c));
    let evidence = join(parts, "\n\n"@);
    let tail = "\n\nAnswer concisely:"@;
    let middle = "\n\nEvidence:\n"@;
    let whole = prompt_of(question@, views);
    let e = whole.len() - tail.len() - evidence.len();
    let q = e - middle.len() - question@.len();
    assert(whole.subrange(q, q + question@.len()) =~= question@);
    if 0 <= i < chunks@.len() {
        let told = evidence_of(views[i]);
        assert(views[i] == chunks@[i]@);
        assert(parts[i] == told);
        let at = lemma_part_of_join(parts, "\n\n"@, i);
        assert(whole.subrange(e, e + evidence.len()) =~= evidence);
        assert(whole.subrange(e + at, e + at + told.len()) =~= evidence.subrange(at, at + told.len()));
    }
}

/// An answer is grounded exactly where the model gave one that is not blank; it then cites the chunks that
/// were found, in their order, and only then; a model that failed is told from one that kept silent.
pub proof fn law_answers_are_grounded(
    chunks: Vec<QueryChunk>,
    reply: Option<Result<Option<String>, String>>,
    res: QueryResponse,
    i: int,
)
    requires
        call_ensures(respond, (chunks, reply), res),
    ensures
        ({
            let told = reply matches Some(Ok(Some(v))) && trimmed(v@).len() > 0;
            &&& told <==> res.answer is Some
            &&& told ==> res.grounding@ == "grounded"@ && res.answer->0@ == reply->0->Ok_0->0@
            &&& told ==> res.citations@.len() == chunks@.len()
            &&& told && 0 <= i < chunks@.len() ==> res.citations@[i]@ == chunks@[i].chunk_id@
            &&& !told ==> res.grounding@ == "ungrounded"@ && res.citations@.len() == 0
        }),
        (reply matches Some(Err(_))) ==> res.availability@ == "unavailable"@,
        !(reply matches Some(Err(_))) ==> res.availability@ == "available"@,
        res.chunks@.len() == chunks@.len(),
        0 <= i < chunks@.len() ==> res.chunks@[i]@ == chunks@[i]@,
{
    let views = chunk_views(chunks@);
    assert(chunk_views(res.chunks@).len() == views.len());
    if reply matches Some(Ok(Some(v))) && trimmed(v@).len() > 0 {
        let cited = texts(res.citations@);
        assert(cited == views.map_values(|c: QueryChunkView| c.chunk_id));
        assert(cited.len() == views.len());
        if 0 <= i < chunks@.len() {
            assert(cited[i] == views[i].chunk_id);
            assert(cited[i] == res.citations@[i]@);
        }
    }
    if 0 <= i < chunks@.len() {
        assert(chunk_views(res.chunks@)[i] == res.chunks@[i]@);
        assert(views[i] == chunks@[i]@);
    }
}

/// Points become chunks in their order; a point without a chunk or without a text is left out, and nothing
/// else is.
pub proof fn law_points_become_chunks(
    points: &Vec<QdrantPoint>,
    more: &Vec<QdrantPoint>,
    before: Vec<QueryChunk>,
    after: Vec<QueryChunk>,
)
    requires
        call_ensures(chunks_of, (points,), before),
        call_ensures(chunks_of, (more,), after),
        more@.len() > 0,
        more@.drop_last() == points@,
    ensures
        points@.len() == 0 ==> before@.len() == 0,
        (more@.last().chunk_id is None || more@.last().text is None) ==> chunk_views(after@)
            == chunk_views(before@),
        (more@.last().chunk_id is Some && more@.last().text is Some) ==> {
            &&& chunk_views(after@).drop_last() == chunk_views(before@)
            &&& after@.len() == before@.len() + 1
            &&& after@.last().chunk_id@ == more@.last().chunk_id->0@
            &&& after@.last().text@ == more@.last().text->0@
            &&& after@.last().score_bits == more@.last().score_bits
        },
{
    assert(chunk_views(before@).len() == before@.len());
    if more@.last().chunk_id is Some && more@.last().text is Some {
        let views = chunk_views(after@);
        assert(views == chunks_found(points@).push(chunk_of(more@.last())->0));
        assert(views.drop_last() =~= chunks_found(points@));
        assert(views[views.len() - 1] == after@[after@.len() - 1]@);
    }
}

/// What requests are answered with: a blank question is refused and another trimmed; five chunks are asked
/// for where nothing is said, one at least and twenty at most; a heartbeat counts for fifteen seconds;
/// and each refusal has its status.
pub proof fn law_requests_are_bounded(
    query: &str,
    question: Result<String, RetrievalHttpError>,
    asked: Option<usize>,
    k: usize,
    age: Option<u64>,
    alive: bool,
    error: &RetrievalHttpError,
    status: u16,
)
    requires
        call_ensures(question_of, (query,), question),
        call_ensures(top_k, (asked,), k),
        call_ensures(process_ready, (age,), alive),
        call_ensures(RetrievalHttpError::status, (error,), status),
    ensures
        question is Ok <==> trimmed(query@).len() > 0,
        question matches Ok(q) ==> q@ == trimmed(query@),
        question matches Err(e) ==> e is BadRequest,
        asked is None ==> k == 5,
        1 <= k <= 20,
        asked matches Some(n) ==> 1 <= n <= 20 ==> k == n,
        asked matches Some(n) ==> n == 0 ==> k == 1,
        asked matches Some(n) ==> n > 20 ==> k == 20,
        alive <==> (age matches Some(a) && a < 15000),
        *error is BadRequest <==> status == 400,
        *error is NotFound <==> status == 404,
        *error is BadGateway <==> status == 502,
        *error is ServiceUnavailable <==> status == 503,
        *error is Internal || *error is Storage <==> status == 500,
{
}

/// The health report names what is not ready: without the artifact directory the system is offline, with
/// every part healthy, else degraded, and each part that is not ready has its diagnostic.
pub proof fn law_health_names_what_is_missing(probes: Probes, res: Health)
    requires
        call_ensures(health, (probes,), res),
    ensures
        res.status@ == "offline"@ <==> !probes.artifact_store,
        res.status@ == "healthy"@ <==> res.diagnostics@.len() == 0,
        !probes.artifact_store <==> names_part(res.diagnostics@, "artifactStore"@),
        !probes.qdrant <==> names_part(res.diagnostics@, "qdrant"@),
        !probes.falkordb <==> names_part(res.diagnostics@, "falkordb"@),
        !probes.embedding_model <==> names_part(res.diagnostics@, "embeddingModel"@),
        !probes.ollama <==> names_part(res.diagnostics@, "ollama"@),
        !probes.scraper <==> names_part(res.diagnostics@, "scraper"@),
        !probes.cleaning <==> names_part(res.diagnostics@, "cleaning"@),
        !probes.indexer <==> names_part(res.diagnostics@, "indexer"@),
        !probes.graph <==> names_part(res.diagnostics@, "graph"@),
{
    law_healthy_means_no_findings(probes);
    reveal_strlit("offline");
    reveal_strlit("healthy");
    reveal_strlit("degraded");
    assert("offline"@[0] == 'o' && "healthy"@[0] == 'h' && "degraded"@[0] == 'd');
    assert(diagnostic_views(res.diagnostics@).len() == res.diagnostics@.len());
    lemma_names_part(res.diagnostics@, probes);
}

/// Whether a diagnostic is about a part.
pub open spec fn names_part(list: Seq<Diagnostic>, part: Seq<char>) -> bool {
    exists|i: int| 0 <= i < list.len() && (#[trigger] list[i]).component@ == part
}

spec fn names_in(list: Seq<(Seq<char>, Seq<char>, Seq<char>)>, part: Seq<char>) -> bool {
    exists|i: int| 0 <= i < list.len() && (#[trigger] list[i]).0 == part
}

proof fn lemma_names_in(
    a: Seq<(Seq<char>, Seq<char>, Seq<char>)>,
    b: Seq<(Seq<char>, Seq<char>, Seq<char>)>,
    part: Seq<char>,
)
    ensures
        names_in(a + b, part) <==> names_in(a, part) || names_in(b, part),
{
    let all = a + b;
    if names_in(a, part) {
        let i = choose|i: int| 0 <= i < a.len() && (#[trigger] a[i]).0 == part;
        assert(all[i] == a[i]);
    }
    if names_in(b, part) {
        let i = choose|i: int| 0 <= i < b.len() && (#[trigger] b[i]).0 == part;
        assert(all[a.len() + i] == b[i]);
    }
    if names_in(all, part) {
        let i = choose|i: int| 0 <= i < all.len() && (#[trigger] all[i]).0 == part;
        if i < a.len() {
            assert(a[i] == all[i]);
        } else {
            assert(b[i - a.len()] == all[i]);
        }
    }
}

proof fn lemma_unless(ready: bool, c: Seq<char>, m: Seq<char>, a: Seq<char>, part: Seq<char>)
    ensures
        names_in(unless(ready, c, m, a), part) <==> !ready && c == part,
{
    if !ready {
        assert(unless(ready, c, m, a)[0].0 == c);
    }
}

proof fn lemma_finding(p: Probes, part: Seq<char>)
    ensures
        names_in(findings(p), part) <==> {
            ||| !p.artifact_store && part == "artifactStore"@
            ||| !p.qdrant && part == "qdrant"@
            ||| !p.falkordb && part == "falkordb"@
            ||| !p.embedding_model && part == "embeddingModel"@
            ||| !p.ollama && part == "ollama"@
            ||| !p.scraper && part == "scraper"@
            ||| !p.cleaning && part == "cleaning"@
            ||| !p.indexer && part == "indexer"@
            ||| !p.graph && part == "graph"@
        },
{
    let a = unless(
        p.artifact_store,
        "artifactStore"@,
        "artifact directory is unavailable"@,
        "Create the configured data directory and restart the retrieval process."@,
    );
    lemma_unless(
        p.artifact_store,
        "artifactStore"@,
        "artifact directory is unavailable"@,
        "Create the configured data directory and restart the retrieval process."@,
        part,
    );
    let b = unless(
        p.qdrant,
        "qdrant"@,
        "Qdrant is unavailable"@,
        "Start Qdrant with docker compose."@,
    );
    lemma_unless(
        p.qdrant,
        "qdrant"@,
        "Qdrant is unavailable"@,
        "Start Qdrant with docker compose."@,
        part,
    );
    let c = unless(
        p.falkordb,
        "falkordb"@,
        "FalkorDB is unavailable"@,
        "Start FalkorDB with docker compose."@,
    );
    lemma_unless(
        p.falkordb,
        "falkordb"@,
        "FalkorDB is unavailable"@,
        "Start FalkorDB with docker compose."@,
        part,
    );
    let d = unless(
        p.embedding_model,
        "embeddingModel"@,
        "the local embedding model is not cached"@,
        "Start the indexer once with network access to download the embedding model."@,
    );
    lemma_unless(
        p.embedding_model,
        "embeddingModel"@,
        "the local embedding model is not cached"@,
        "Start the indexer once with network access to download the embedding model."@,
        part,
    );
    let e = unless(
        p.ollama,
        "ollama"@,
        "the configured Ollama model is unavailable"@,
        "Start Ollama and pull the configured model."@,
    );
    lemma_unless(
        p.ollama,
        "ollama"@,
        "the configured Ollama model is unavailable"@,
        "Start Ollama and pull the configured model."@,
        part,
    );
    let still = "process heartbeat is missing or stale"@;
    let restart = "Start or restart this process."@;
    let f = unless_alive(p.scraper, "scraper"@);
    lemma_unless(p.scraper, "scraper"@, still, restart, part);
    let g = unless_alive(p.cleaning, "cleaning"@);
    lemma_unless(p.cleaning, "cleaning"@, still, restart, part);
    let h = unless_alive(p.indexer, "indexer"@);
    lemma_unless(p.indexer, "indexer"@, still, restart, part);
    let k = unless_alive(p.graph, "graph"@);
    lemma_unless(p.graph, "graph"@, still, restart, part);
    lemma_names_in(a, b, part);
    lemma_names_in(a + b, c, part);
    lemma_names_in(a + b + c, d, part);
    lemma_names_in(a + b + c + d, e, part);
    lemma_names_in(a + b + c + d + e, f, part);
    lemma_names_in(a + b + c + d + e + f, g, part);
    lemma_names_in(a + b + c + d + e + f + g, h, part);
    lemma_names_in(a + b + c + d + e + f + g + h, k, part);
}

proof fn lemma_same_names(list: Seq<Diagnostic>, part: Seq<char>)
    ensures
        names_part(list, part) <==> names_in(diagnostic_views(list), part),
{
    let views = diagnostic_views(list);
    if names_part(list, part) {
        let i = choose|i: int| 0 <= i < list.len() && (#[trigger] list[i]).component@ == part;
        assert(views[i] == list[i]@);
    }
    if names_in(views, part) {
        let i = choose|i: int| 0 <= i < views.len() && (#[trigger] views[i]).0 == part;
        assert(views[i] == list[i]@);
    }
}

proof fn lemma_names_part(list: Seq<Diagnostic>, p: Probes)
    requires
        diagnostic_views(list) == findings(p),
    ensures
        !p.artifact_store <==> names_part(list, "artifactStore"@),
        !p.qdrant <==> names_part(list, "qdrant"@),
        !p.falkordb <==> names_part(list, "falkordb"@),
        !p.embedding_model <==> names_part(list, "embeddingModel"@),
        !p.ollama <==> names_part(list, "ollama"@),
        !p.scraper <==> names_part(list, "scraper"@),
        !p.cleaning <==> names_part(list, "cleaning"@),
        !p.indexer <==> names_part(list, "indexer"@),
        !p.graph <==> names_part(list, "graph"@),
{
    reveal_strlit("artifactStore");
    reveal_strlit("qdrant");
    reveal_strlit("falkordb");
    reveal_strlit("embeddingModel");
    reveal_strlit("ollama");
    reveal_strlit("scraper");
    reveal_strlit("cleaning");
    reveal_strlit("indexer");
    reveal_strlit("graph");
    assert("artifactStore"@[0] == 'a' && "qdrant"@[0] == 'q' && "falkordb"@[0] == 'f'
        && "embeddingModel"@[0] == 'e' && "ollama"@[0] == 'o' && "scraper"@[0] == 's'
        && "cleaning"@[0] == 'c' && "indexer"@[0] == 'i' && "graph"@[0] == 'g');
    lemma_same_names(list, "artifactStore"@);
    lemma_same_names(list, "qdrant"@);
    lemma_same_names(list, "falkordb"@);
    lemma_same_names(list, "embeddingModel"@);
    lemma_same_names(list, "ollama"@);
    lemma_same_names(list, "scraper"@);
    lemma_same_names(list, "cleaning"@);
    lemma_same_names(list, "indexer"@);
    lemma_same_names(list, "graph"@);
    lemma_finding(p, "artifactStore"@);
    lemma_finding(p, "qdrant"@);
    lemma_finding(p, "falkordb"@);
    lemma_finding(p, "embeddingModel"@);
    lemma_finding(p, "ollama"@);
    lemma_finding(p, "scraper"@);
    lemma_finding(p, "cleaning"@);
    lemma_finding(p, "indexer"@);
    lemma_finding(p, "graph"@);
}

} // verus!
