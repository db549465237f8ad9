//! Read models assembled for operator surfaces: presentation-neutral records of documents, the
//! queue and the reviews.

use vstd::prelude::*;

use super::entities::registry::{has_entity, AliasView, EntityRegistry, EntityView};
use super::entities::review::{review_keys, ReviewView};
use super::metrics::{document_statuses, status_labels};
use super::models::{DocStatus, JobStatus};
use super::store::{ControlStore, Document, DocumentView, JobRow, JobView};
use crate::order::{key_views, ordered_pick, sort_picked, Descending, SortKey};
use crate::tally::{counted, counts};
use crate::text::{
    contains, copy_opt, has_text, lemma_text_less_total, lemma_text_less_trans, less, lower_ascii,
    lowercase_ascii, opt_text, same, text_less,
};

verus! {

/// Maximum page size accepted by the local document read model.
pub const MAX_DOCUMENT_PAGE_SIZE: usize = 100;

/// A bounded document-list query.
#[derive(Debug, Clone)]
pub struct DocumentListQuery {
    /// Maximum number of rows to return.
    pub limit: usize,
    /// The last document id returned by the previous page.
    pub cursor: Option<String>,
    /// Optional exact durable document status filter.
    pub status: Option<DocStatus>,
    /// Optional case-insensitive title or URL substring.
    pub search: Option<String>,
}

impl Default for DocumentListQuery {
    fn default() -> (res: DocumentListQuery)
        ensures
            res.limit == 0,
            res.cursor is None,
            res.status is None,
            res.search is None,
    {
        DocumentListQuery { limit: 0, cursor: None, status: None, search: None }
    }
}

/// A document summary safe to expose to an operator surface.
#[derive(Debug, Clone, PartialEq, Eq)]
pub struct DocumentListItem {
    /// Stable document id.
    pub doc_id: String,
    /// The registered source URL.
    pub source_url: String,
    /// Extracted title, when cleaning has produced one.
    pub title: Option<String>,
    /// Durable document milestone/status.
    pub status: String,
    /// Number of persisted chunks.
    pub chunk_count: u64,
    /// Document registration timestamp.
    pub created_at: String,
    /// Last successful or terminal processing timestamp.
    pub last_processed_at: Option<String>,
    /// Last recorded failure detail.
    pub error: Option<String>,
}

/// One page of document summaries.
#[derive(Debug, Clone, PartialEq, Eq)]
pub struct DocumentPage {
    /// Rows in descending stable-id order.
    pub items: Vec<DocumentListItem>,
    /// Cursor for the next page, if more rows remain.
    pub next_cursor: Option<String>,
}

/// A queue row joined with the document metadata needed by the overview.
#[derive(Debug, Clone, PartialEq, Eq)]
pub struct QueueItem {
    /// Stable job id.
    pub job_id: String,
    /// Stable document id.
    pub doc_id: String,
    /// Extracted title, when available.
    pub title: Option<String>,
    /// Registered source URL.
    pub source_url: String,
    /// Current durable document status.
    pub document_status: String,
    /// Pipeline stage represented by this job.
    pub stage: String,
    /// Job execution status.
    pub job_status: String,
    /// Last queue transition timestamp.
    pub updated_at: String,
    /// Last job failure detail, when present.
    pub error: Option<String>,
}

/// Read model for the overview page.
#[derive(Debug, Clone, PartialEq, Eq)]
pub struct OverviewSnapshot {
    /// Document totals grouped by their durable status, by ascending status.
    pub documents_by_status: Vec<(String, u64)>,
    /// A bounded view of non-terminal queue work and dead jobs.
    pub queue: Vec<QueueItem>,
}

/// One entity summary used by review list and preview read models.
#[derive(Debug, Clone, PartialEq, Eq)]
pub struct EntitySummary {
    /// Stable entity id.
    pub entity_id: String,
    /// Canonical display name.
    pub canonical_name: String,
    /// Closed ontology type.
    pub entity_type: String,
    /// Number of registered aliases in the control plane.
    pub alias_count: u64,
}

/// A pending entity-review row with both candidate entities hydrated.
#[derive(Debug, Clone, PartialEq)]
pub struct EntityReviewItem {
    /// Review row id.
    pub review_id: i64,
    /// First candidate captured by the detector.
    pub entity_a: EntitySummary,
    /// Second candidate captured by the detector.
    pub entity_b: EntitySummary,
    /// The bits of the similarity score that caused the review.
    pub score: Option<u64>,
}

impl DocumentListItem {
    /// Whether the item tells of a document.
    pub open spec fn reads(self, d: DocumentView) -> bool {
        &&& self.doc_id@ == d.doc_id
        &&& self.source_url@ == d.source_url
        &&& opt_text(self.title) == d.title
        &&& self.status@ == d.status.name()
        &&& self.chunk_count == d.chunk_count as u64
        &&& self.created_at@ == d.created_at
        &&& opt_text(self.last_processed_at) == d.last_processed_at
        &&& opt_text(self.error) == d.error
    }
}

/// Whether a text holds another, whatever the case of their ASCII letters.
pub open spec fn mentions_text(s: Seq<char>, part: Seq<char>) -> bool {
    has_text(lower_ascii(s), lower_ascii(part))
}

/// Whether a document meets a query.
pub open spec fn meets(d: DocumentView, q: DocumentListQuery) -> bool {
    &&& q.cursor is Some ==> text_less(d.doc_id, q.cursor->0@)
    &&& q.status is Some ==> d.status == q.status->0
    &&& q.search is Some ==> mentions_text(d.source_url, q.search->0@) || (d.title is Some
        && mentions_text(d.title->0, q.search->0@))
}

/// The ids of documents.
pub open spec fn doc_ids(docs: Seq<DocumentView>) -> Seq<Seq<char>> {
    docs.map_values(|d: DocumentView| d.doc_id)
}

/// Which documents meet a query.
pub open spec fn meeting(docs: Seq<DocumentView>, q: DocumentListQuery) -> Seq<bool> {
    docs.map_values(|d: DocumentView| meets(d, q))
}

/// The smaller of two numbers.
pub open spec fn least(a: nat, b: nat) -> nat {
    if a < b {
        a
    } else {
        b
    }
}

/// Whether a page holds the first of the documents that meet a query, the greatest id first, and
/// points to the next page exactly where more remain.
pub open spec fn pages(docs: Seq<DocumentView>, q: DocumentListQuery, page: DocumentPage) -> bool {
    exists|order: Seq<int>|
        {
            &&& #[trigger] ordered_pick::<Descending>(doc_ids(docs), meeting(docs, q), order)
            &&& page.items@.len() == least(order.len(), q.limit as nat)
            &&& forall|i: int|
                0 <= i < page.items@.len() ==> (#[trigger] page.items@[i]).reads(docs[order[i]])
            &&& opt_text(page.next_cursor) == if order.len() > q.limit && q.limit > 0 {
                Some(docs[order[q.limit - 1]].doc_id)
            } else {
                None
            }
        }
}

fn mentions(s: &str, part: &str) -> (res: bool)
    ensures
        res == mentions_text(s@, part@),
{
    contains(lowercase_ascii(s).as_str(), lowercase_ascii(part).as_str())
}

fn document_meets(d: &Document, q: &DocumentListQuery) -> (res: bool)
    ensures
        res == meets(d@, *q),
{
    if let Some(cursor) = &q.cursor {
        if !less(d.doc_id.as_str(), cursor.as_str()) {
            return false;
        }
    }
    if let Some(status) = q.status {
        if d.status != status {
            return false;
        }
    }
    if let Some(search) = &q.search {
        let by_title = match &d.title {
            Some(t) => mentions(t.as_str(), search.as_str()),
            None => false,
        };
        if !by_title && !mentions(d.source_url.as_str(), search.as_str()) {
            return false;
        }
    }
    true
}

fn list_item(d: &Document) -> (res: DocumentListItem)
    ensures
        res.reads(d@),
{
    DocumentListItem {
        doc_id: d.doc_id.clone(),
        source_url: d.source_url.clone(),
        title: copy_opt(&d.title),
        status: d.status.as_str().to_owned(),
        chunk_count: #[verifier::truncate]
        (d.chunk_count as u64),
        created_at: d.created_at.clone(),
        last_processed_at: copy_opt(&d.last_processed_at),
        error: copy_opt(&d.error),
    }
}

/// Reads one bounded page of document summaries.
pub fn list_documents(store: &ControlStore, query: &DocumentListQuery) -> (res: DocumentPage)
    ensures
        pages(store.docs(), *query, res),
{
    let ghost docs = store.docs();
    let ghost wanted_keys = doc_ids(docs);
    let ghost wanted_pick = meeting(docs, *query);
    let mut keys: Vec<Descending> = Vec::new();
    let mut pick: Vec<bool> = Vec::new();
    let mut i: usize = 0;
    while i < store.documents.len()
        invariant
            i <= store.documents@.len(),
            docs == store.docs(),
            wanted_keys == doc_ids(docs),
            wanted_pick == meeting(docs, *query),
            key_views(keys@) == wanted_keys.take(i as int),
            pick@ == wanted_pick.take(i as int),
        decreases store.documents@.len() - i,
    {
        let d = &store.documents[i];
        assert(docs[i as int] == d@);
        let ghost before = key_views(keys@);
        let key = Descending { text: d.doc_id.clone() };
        keys.push(key);
        pick.push(document_meets(d, query));
        assert(key_views(keys@) =~= before.push(key@));
        i = i + 1;
        assert(key_views(keys@) =~= wanted_keys.take(i as int));
        assert(pick@ =~= wanted_pick.take(i as int));
    }
    assert(wanted_keys.take(i as int) =~= wanted_keys);
    assert(wanted_pick.take(i as int) =~= wanted_pick);
    assert(keys@.len() == key_views(keys@).len());
    let order = sort_picked(&keys, &pick);
    let ghost indices = order@.map_values(|i: usize| i as int);
    assert(ordered_pick::<Descending>(wanted_keys, wanted_pick, indices));
    let n: usize = if order.len() < query.limit {
        order.len()
    } else {
        query.limit
    };
    let mut items: Vec<DocumentListItem> = Vec::new();
    let mut k: usize = 0;
    while k < n
        invariant
            k <= n <= order@.len(),
            docs == store.docs(),
            indices == order@.map_values(|i: usize| i as int),
            forall|j: int|
                0 <= j < order@.len() ==> #[trigger] order@[j] < store.documents@.len(),
            items@.len() == k,
            forall|j: int| 0 <= j < k ==> (#[trigger] items@[j]).reads(docs[indices[j]]),
        decreases n - k,
    {
        assert(docs[order@[k as int] as int] == store.documents@[order@[k as int] as int]@);
        items.push(list_item(&store.documents[order[k]]));
        k = k + 1;
    }
    let next_cursor = if order.len() > query.limit && query.limit > 0 {
        let last: usize = order[query.limit - 1];
        assert(docs[last as int] == store.documents@[last as int]@);
        assert(indices[query.limit - 1] == last);
        Some(store.documents[last].doc_id.clone())
    } else {
        None
    };
    DocumentPage { items, next_cursor }
}

/// The key by which queue rows are ordered.
#[derive(Debug)]
pub struct QueueKey {
    /// Running first, pending next, then the others.
    pub rank: u8,
    /// The priority; lower is sooner.
    pub priority: i64,
    /// The last transition; the latest first.
    pub updated_at: String,
    /// The job.
    pub job_id: String,
}

/// The model of a [`QueueKey`].
#[verifier::ext_equal]
pub struct QueueKeyView {
    pub rank: int,
    pub priority: int,
    pub updated_at: Seq<char>,
    pub job_id: Seq<char>,
}

impl View for QueueKey {
    type V = QueueKeyView;

    open spec fn view(&self) -> QueueKeyView {
        QueueKeyView {
            rank: self.rank as int,
            priority: self.priority as int,
            updated_at: self.updated_at@,
            job_id: self.job_id@,
        }
    }
}

impl SortKey for QueueKey {
    open spec fn precedes(a: QueueKeyView, b: QueueKeyView) -> bool {
        ||| a.rank < b.rank
        ||| a.rank == b.rank && a.priority < b.priority
        ||| a.rank == b.rank && a.priority == b.priority && text_less(b.updated_at, a.updated_at)
        ||| a.rank == b.rank && a.priority == b.priority && a.updated_at == b.updated_at
            && text_less(a.job_id, b.job_id)
    }

    proof fn lemma_order(a: QueueKeyView, b: QueueKeyView, c: QueueKeyView) {
        lemma_text_less_total(a.updated_at, b.updated_at);
        lemma_text_less_total(b.updated_at, c.updated_at);
        lemma_text_less_total(a.job_id, b.job_id);
        if text_less(b.updated_at, a.updated_at) && text_less(c.updated_at, b.updated_at) {
            lemma_text_less_trans(c.updated_at, b.updated_at, a.updated_at);
        }
        if text_less(a.job_id, b.job_id) && text_less(b.job_id, c.job_id) {
            lemma_text_less_trans(a.job_id, b.job_id, c.job_id);
        }
        if !Self::precedes(a, b) && !Self::precedes(b, a) {
            assert(a =~= b);
        }
    }

    fn before(&self, other: &Self) -> bool {
        if self.rank != other.rank {
            self.rank < other.rank
        } else if self.priority != other.priority {
            self.priority < other.priority
        } else if !same(self.updated_at.as_str(), other.updated_at.as_str()) {
            less(other.updated_at.as_str(), self.updated_at.as_str())
        } else {
            proof {
                lemma_text_less_total(self.updated_at@, other.updated_at@);
            }
            less(self.job_id.as_str(), other.job_id.as_str())
        }
    }
}

/// The rank of an execution status in the queue.
pub open spec fn status_rank(status: JobStatus) -> int {
    match status {
        JobStatus::Running => 0,
        JobStatus::Pending => 1,
        _ => 2,
    }
}

/// The keys of jobs in the queue.
pub open spec fn queue_keys(jobs: Seq<JobView>) -> Seq<QueueKeyView> {
    jobs.map_values(
        |j: JobView|
            QueueKeyView {
                rank: status_rank(j.status),
                priority: j.priority,
                updated_at: j.updated_at,
                job_id: j.job_id,
            },
    )
}

/// The status of a document.
pub open spec fn archived_doc(docs: Seq<DocumentView>, id: Seq<char>) -> bool {
    exists|i: int|
        0 <= i < docs.len() && (#[trigger] docs[i]).doc_id == id && docs[i].status
            == DocStatus::Archived
}

/// Which jobs are listed: those not done, of documents not archived.
pub open spec fn queued(jobs: Seq<JobView>, docs: Seq<DocumentView>) -> Seq<bool> {
    jobs.map_values(|j: JobView| j.status != JobStatus::Done && !archived_doc(docs, j.doc_id))
}

impl QueueItem {
    /// Whether the item tells of a job and its document.
    pub open spec fn reads(self, j: JobView, d: DocumentView) -> bool {
        &&& self.job_id@ == j.job_id
        &&& self.doc_id@ == j.doc_id
        &&& opt_text(self.title) == d.title
        &&& self.source_url@ == d.source_url
        &&& self.document_status@ == d.status.name()
        &&& self.stage@ == j.stage.name()
        &&& self.job_status@ == j.status.name()
        &&& self.updated_at@ == j.updated_at
        &&& opt_text(self.error) == j.last_error
    }

    /// Whether the item tells of a job and its document among those registered.
    pub open spec fn reads_from(self, j: JobView, docs: Seq<DocumentView>) -> bool {
        exists|i: int|
            0 <= i < docs.len() && (#[trigger] docs[i]).doc_id == j.doc_id && self.reads(j, docs[i])
    }
}

/// Whether `queue` holds the first of the listed jobs in the order of the queue.
pub open spec fn lists_queue(
    jobs: Seq<JobView>,
    docs: Seq<DocumentView>,
    limit: nat,
    queue: Seq<QueueItem>,
) -> bool {
    exists|order: Seq<int>|
        {
            &&& #[trigger] ordered_pick::<QueueKey>(queue_keys(jobs), queued(jobs, docs), order)
            &&& queue.len() == least(order.len(), limit)
            &&& forall|i: int|
                0 <= i < queue.len() ==> (#[trigger] queue[i]).reads_from(jobs[order[i]], docs)
        }
}

fn queue_key(j: &JobRow) -> (res: QueueKey)
    ensures
        res@.rank == status_rank(j.status),
        res@.priority == j.priority,
        res@.updated_at == j.updated_at@,
        res@.job_id == j.job_id@,
{
    let rank: u8 = match j.status {
        JobStatus::Running => 0,
        JobStatus::Pending => 1,
        _ => 2,
    };
    QueueKey {
        rank,
        priority: j.priority,
        updated_at: j.updated_at.clone(),
        job_id: j.job_id.clone(),
    }
}

/// Reads document status counts and a bounded queue projection.
pub fn overview(store: &ControlStore, queue_limit: usize) -> (res: OverviewSnapshot)
    requires
        store.wf(),
    ensures
        counted(status_labels(store.docs()), res.documents_by_status@),
        lists_queue(store.job_list(), store.docs(), queue_limit as nat, res.queue@),
{
    let statuses = document_statuses(store);
    let documents_by_status = counts(&statuses);
    let ghost (jobs, docs) = (store.job_list(), store.docs());
    let ghost wanted_keys = queue_keys(jobs);
    let ghost wanted_pick = queued(jobs, docs);
    let mut keys: Vec<QueueKey> = Vec::new();
    let mut pick: Vec<bool> = Vec::new();
    let mut places: Vec<usize> = Vec::new();
    let mut i: usize = 0;
    while i < store.jobs.len()
        invariant
            i <= store.jobs@.len(),
            store.wf(),
            jobs == store.job_list(),
            docs == store.docs(),
            wanted_keys == queue_keys(jobs),
            wanted_pick == queued(jobs, docs),
            key_views(keys@) == wanted_keys.take(i as int),
            pick@ == wanted_pick.take(i as int),
            places@.len() == i,
            forall|j: int|
                0 <= j < i ==> #[trigger] places@[j] < docs.len() && docs[places@[j] as int].doc_id
                    == jobs[j].doc_id,
        decreases store.jobs@.len() - i,
    {
        let j = &store.jobs[i];
        assert(jobs[i as int] == j@);
        let ghost before = key_views(keys@);
        let key = queue_key(j);
        assert(key@ =~= wanted_keys[i as int]);
        let at: usize = match store.doc_index(j.doc_id.as_str()) {
            Some(at) => at,
            None => {
                assert(super::store::has_doc(docs, jobs[i as int].doc_id));
                0
            },
        };
        assert(docs[at as int] == store.documents@[at as int]@);
        let listed = j.status != JobStatus::Done && store.documents[at].status
            != DocStatus::Archived;
        proof {
            if archived_doc(docs, j.doc_id@) {
                let a = choose|a: int|
                    0 <= a < docs.len() && (#[trigger] docs[a]).doc_id == j.doc_id@
                        && docs[a].status == DocStatus::Archived;
                if a < at {
                    assert(docs[a].doc_id != docs[at as int].doc_id);
                } else if at < a {
                    assert(docs[at as int].doc_id != docs[a].doc_id);
                }
            }
        }
        keys.push(key);
        pick.push(listed);
        places.push(at);
        assert(key_views(keys@) =~= before.push(wanted_keys[i as int]));
        i = i + 1;
        assert(key_views(keys@) =~= wanted_keys.take(i as int));
        assert(pick@ =~= wanted_pick.take(i as int));
    }
    assert(wanted_keys.take(i as int) =~= wanted_keys);
    assert(wanted_pick.take(i as int) =~= wanted_pick);
    assert(keys@.len() == key_views(keys@).len());
    let order = sort_picked(&keys, &pick);
    let ghost indices = order@.map_values(|i: usize| i as int);
    assert(ordered_pick::<QueueKey>(wanted_keys, wanted_pick, indices));
    let n: usize = if order.len() < queue_limit {
        order.len()
    } else {
        queue_limit
    };
    let mut queue: Vec<QueueItem> = Vec::new();
    let mut k: usize = 0;
    while k < n
        invariant
            k <= n <= order@.len(),
            jobs == store.job_list(),
            docs == store.docs(),
            places@.len() == jobs.len(),
            forall|j: int|
                0 <= j < jobs.len() ==> #[trigger] places@[j] < docs.len()
                    && docs[places@[j] as int].doc_id == jobs[j].doc_id,
            indices == order@.map_values(|i: usize| i as int),
            forall|j: int| 0 <= j < order@.len() ==> #[trigger] order@[j] < jobs.len(),
            queue@.len() == k,
            forall|j: int| 0 <= j < k ==> (#[trigger] queue@[j]).reads_from(jobs[indices[j]], docs),
        decreases n - k,
    {
        let at: usize = order[k];
        let j = &store.jobs[at];
        let d = &store.documents[places[at]];
        assert(jobs[at as int] == j@);
        assert(docs[places@[at as int] as int] == d@);
        let item = QueueItem {
            job_id: j.job_id.clone(),
            doc_id: j.doc_id.clone(),
            title: copy_opt(&d.title),
            source_url: d.source_url.clone(),
            document_status: d.status.as_str().to_owned(),
            stage: j.stage.as_str().to_owned(),
            job_status: j.status.as_str().to_owned(),
            updated_at: j.updated_at.clone(),
            error: copy_opt(&j.last_error),
        };
        assert(item.reads(j@, d@));
        assert(item.reads_from(jobs[indices[k as int]], docs));
        queue.push(item);
        k = k + 1;
    }
    OverviewSnapshot { documents_by_status, queue }
}

/// The number of aliases of an entity.
pub open spec fn alias_count(aliases: Seq<AliasView>, id: Seq<char>) -> nat {
    aliases.filter(|a: AliasView| a.entity_id == id).len()
}

impl EntitySummary {
    /// Whether the summary tells of an entity.
    pub open spec fn reads(self, e: EntityView, aliases: Seq<AliasView>) -> bool {
        &&& self.entity_id@ == e.entity_id
        &&& self.canonical_name@ == e.canonical_name
        &&& self.entity_type@ == e.entity_type
        &&& self.alias_count == alias_count(aliases, e.entity_id)
    }

    /// Whether the summary tells of a registered entity.
    pub open spec fn reads_from(
        self,
        id: Seq<char>,
        entities: Seq<EntityView>,
        aliases: Seq<AliasView>,
    ) -> bool {
        exists|i: int|
            0 <= i < entities.len() && (#[trigger] entities[i]).entity_id == id && self.reads(
                entities[i],
                aliases,
            )
    }
}

/// Which reviews are pending between registered entities.
pub open spec fn hydrated(reviews: Seq<ReviewView>, entities: Seq<EntityView>) -> Seq<bool> {
    reviews.map_values(
        |r: ReviewView|
            r.status == super::entities::review::ReviewStatus::Pending && has_entity(
                entities,
                r.entity_a,
            ) && has_entity(entities, r.entity_b),
    )
}

/// Whether `res` lists the pending reviews between registered entities, the oldest first.
pub open spec fn lists_reviews(
    reviews: Seq<ReviewView>,
    entities: Seq<EntityView>,
    aliases: Seq<AliasView>,
    res: Seq<EntityReviewItem>,
) -> bool {
    exists|order: Seq<int>|
        {
            &&& #[trigger] ordered_pick::<(String, String)>(
                review_keys(reviews),
                hydrated(reviews, entities),
                order,
            )
            &&& res.len() == order.len()
            &&& forall|i: int|
                0 <= i < res.len() ==> {
                    &&& (#[trigger] res[i]).review_id == reviews[order[i]].id
                    &&& res[i].score == reviews[order[i]].score
                    &&& res[i].entity_a.reads_from(reviews[order[i]].entity_a, entities, aliases)
                    &&& res[i].entity_b.reads_from(reviews[order[i]].entity_b, entities, aliases)
                }
        }
}

fn count_aliases(registry: &EntityRegistry, id: &str) -> (res: u64)
    ensures
        res == alias_count(registry.alias_list(), id@),
{
    let ghost all = registry.alias_list();
    let ghost hit = |a: AliasView| a.entity_id == id@;
    let mut res: u64 = 0;
    let mut i: usize = 0;
    assert(all.take(0).filter(hit).len() == 0) by {
        reveal(Seq::filter);
    }
    while i < registry.aliases.len()
        invariant
            i <= registry.aliases@.len(),
            all == registry.alias_list(),
            hit == (|a: AliasView| a.entity_id == id@),
            res <= i,
            res == all.take(i as int).filter(hit).len(),
        decreases registry.aliases@.len() - i,
    {
        proof {
            reveal(Seq::filter);
            assert(all.take(i + 1).drop_last() =~= all.take(i as int));
            assert(all.take(i + 1).last() == registry.aliases@[i as int]@);
        }
        if same(registry.aliases[i].entity_id.as_str(), id) {
            res = res + 1;
        }
        i = i + 1;
    }
    assert(all.take(i as int) =~= all);
    res
}

fn summary(registry: &EntityRegistry, id: &str) -> (res: Option<EntitySummary>)
    ensures
        match res {
            Some(s) => s.reads_from(id@, registry.entity_list(), registry.alias_list()),
            None => !has_entity(registry.entity_list(), id@),
        },
        res is Some ==> has_entity(registry.entity_list(), id@),
{
    match registry.entity_index(id) {
        None => None,
        Some(i) => {
            let e = &registry.entities[i];
            assert(registry.entity_list()[i as int] == e@);
            let alias_count: u64 = count_aliases(registry, id);
            let res = EntitySummary {
                entity_id: e.entity_id.clone(),
                canonical_name: e.canonical_name.clone(),
                entity_type: e.entity_type.clone(),
                alias_count,
            };
            assert(res.reads(e@, registry.alias_list()));
            Some(res)
        },
    }
}

/// Reads pending entity reviews and hydrates both registry rows. A review of an unregistered entity
/// is left out.
pub fn entity_review_items(registry: &EntityRegistry) -> (res: Vec<EntityReviewItem>)
    ensures
        lists_reviews(
            registry.review_list(),
            registry.entity_list(),
            registry.alias_list(),
            res@,
        ),
{
    let ghost all = registry.review_list();
    let ghost (entities, aliases) = (registry.entity_list(), registry.alias_list());
    let ghost wanted_keys = review_keys(all);
    let ghost wanted_pick = hydrated(all, entities);
    let mut keys: Vec<(String, String)> = Vec::new();
    let mut pick: Vec<bool> = Vec::new();
    let mut i: usize = 0;
    while i < registry.reviews.len()
        invariant
            i <= registry.reviews@.len(),
            all == registry.review_list(),
            entities == registry.entity_list(),
            wanted_keys == review_keys(all),
            wanted_pick == hydrated(all, entities),
            key_views(keys@) == wanted_keys.take(i as int),
            pick@ == wanted_pick.take(i as int),
        decreases registry.reviews@.len() - i,
    {
        let r = &registry.reviews[i];
        assert(all[i as int] == r@);
        let ghost before = key_views(keys@);
        let key = (r.created_at.clone(), String::new());
        assert((key.0@, key.1@) == wanted_keys[i as int]);
        keys.push(key);
        let known = registry.entity_index(r.entity_a.as_str()).is_some() && registry.entity_index(
            r.entity_b.as_str(),
        ).is_some();
        proof {
            if known {
                assert(has_entity(entities, r@.entity_a) && has_entity(entities, r@.entity_b));
            }
        }
        pick.push(r.status == super::entities::review::ReviewStatus::Pending && known);
        assert(key_views(keys@) =~= before.push(wanted_keys[i as int]));
        i = i + 1;
        assert(key_views(keys@) =~= wanted_keys.take(i as int));
        assert(pick@ =~= wanted_pick.take(i as int));
    }
    assert(wanted_keys.take(i as int) =~= wanted_keys);
    assert(wanted_pick.take(i as int) =~= wanted_pick);
    assert(keys@.len() == key_views(keys@).len());
    let order = sort_picked(&keys, &pick);
    let ghost indices = order@.map_values(|i: usize| i as int);
    assert(ordered_pick::<(String, String)>(wanted_keys, wanted_pick, indices));
    let mut res: Vec<EntityReviewItem> = Vec::new();
    let mut k: usize = 0;
    while k < order.len()
        invariant
            k <= order@.len(),
            all == registry.review_list(),
            entities == registry.entity_list(),
            aliases == registry.alias_list(),
            wanted_keys == review_keys(all),
            wanted_pick == hydrated(all, entities),
            indices == order@.map_values(|i: usize| i as int),
            ordered_pick::<(String, String)>(wanted_keys, wanted_pick, indices),
            forall|j: int|
                0 <= j < order@.len() ==> #[trigger] order@[j] < registry.reviews@.len(),
            res@.len() == k,
            forall|j: int|
                0 <= j < k ==> {
                    &&& (#[trigger] res@[j]).review_id == all[indices[j]].id
                    &&& res@[j].score == all[indices[j]].score
                    &&& res@[j].entity_a.reads_from(all[indices[j]].entity_a, entities, aliases)
                    &&& res@[j].entity_b.reads_from(all[indices[j]].entity_b, entities, aliases)
                },
        decreases order@.len() - k,
    {
        let r = &registry.reviews[order[k]];
        assert(all[order@[k as int] as int] == r@);
        assert(indices[k as int] == order@[k as int]);
        assert(indices.contains(indices[k as int]));
        assert(wanted_pick[indices[k as int]]);
        let a = summary(registry, r.entity_a.as_str());
        let b = summary(registry, r.entity_b.as_str());
        if let (Some(entity_a), Some(entity_b)) = (a, b) {
            res.push(EntityReviewItem { review_id: r.id, entity_a, entity_b, score: r.score });
        }
        k = k + 1;
    }
    res
}

/// Pages follow each other: what the next page may list are the documents below the last id of this
/// one.
pub proof fn law_next_page_continues(d: DocumentView, q: DocumentListQuery, last: String)
    requires
        q.cursor is None,
    ensures
        meets(
            d,
            (DocumentListQuery { cursor: Some(last), ..q }),
        ) <==> meets(d, q) && text_less(d.doc_id, last@),
{
}

/// A page of documents goes from the greatest id down and holds what was asked for: no more documents than
/// the limit, each of the status and with the text asked for and below the cursor. It points on exactly
/// where something is left out, to the last id it shows.
pub proof fn law_pages_go_down_the_ids(
    store: &ControlStore,
    query: &DocumentListQuery,
    res: DocumentPage,
    i: int,
    j: int,
    d: int,
)
    requires
        call_ensures(list_documents, (store, query), res),
        query.limit > 0,
    ensures
        res.items@.len() <= query.limit,
        0 <= i < j < res.items@.len() ==> !text_less(res.items@[i].doc_id@, res.items@[j].doc_id@),
        0 <= i < res.items@.len() ==> (query.cursor matches Some(c) ==> text_less(
            res.items@[i].doc_id@,
            c@,
        )),
        0 <= i < res.items@.len() ==> (query.status matches Some(s) ==> res.items@[i].status@
            == s.name()),
        0 <= i < res.items@.len() ==> (query.search matches Some(s) ==> {
            ||| has_text(lower_ascii(res.items@[i].source_url@), lower_ascii(s@))
            ||| res.items@[i].title matches Some(t) && has_text(lower_ascii(t@), lower_ascii(s@))
        }),
        res.next_cursor is None && 0 <= d < store.docs().len() && (query.cursor matches Some(c)
            ==> text_less(store.docs()[d].doc_id, c@)) && (query.status matches Some(s)
            ==> store.docs()[d].status == s) && (query.search matches Some(s) ==> has_text(
            lower_ascii(store.docs()[d].source_url),
            lower_ascii(s@),
        )) ==> exists|n: int|
            0 <= n < res.items@.len() && (#[trigger] res.items@[n]).doc_id@ == store.docs()[d].doc_id,
        res.next_cursor matches Some(c) ==> res.items@.len() == query.limit && c@
            == res.items@.last().doc_id@,
{
    let docs = store.docs();
    let q = *query;
    let keys = doc_ids(docs);
    let flags = meeting(docs, q);
    let order = choose|order: Seq<int>|
        {
            &&& #[trigger] ordered_pick::<Descending>(doc_ids(docs), meeting(docs, q), order)
            &&& res.items@.len() == least(order.len(), q.limit as nat)
            &&& forall|i: int|
                0 <= i < res.items@.len() ==> (#[trigger] res.items@[i]).reads(docs[order[i]])
            &&& opt_text(res.next_cursor) == if order.len() > q.limit && q.limit > 0 {
                Some(docs[order[q.limit - 1]].doc_id)
            } else {
                None
            }
        };
    if 0 <= i < res.items@.len() {
        assert(res.items@[i].reads(docs[order[i]]));
        assert(order.contains(order[i]));
        assert(flags[order[i]]);
        assert(meets(docs[order[i]], q));
    }
    if 0 <= i < j < res.items@.len() {
        assert(res.items@[j].reads(docs[order[j]]));
        assert(order.contains(order[j]));
        assert(crate::order::row_before::<Descending>(keys, order[i], order[j]));
        assert(keys[order[i]] == docs[order[i]].doc_id && keys[order[j]] == docs[order[j]].doc_id);
        lemma_text_less_total(keys[order[i]], keys[order[j]]);
    }
    if res.next_cursor is None && 0 <= d < docs.len() && meets(docs[d], q) {
        assert(flags[d]);
        assert(order.contains(d));
        let n = choose|n: int| 0 <= n < order.len() && order[n] == d;
        assert(res.items@[n].reads(docs[order[n]]));
        assert(res.items@[n].doc_id@ == docs[d].doc_id);
    }
    if res.next_cursor is Some {
        let n = q.limit - 1;
        assert(res.items@[n].reads(docs[order[n]]));
    }
}

/// The queue shows what is to be done: no job that is done and none of an archived document; what runs
/// before what waits, and that before what was given up; among those the lower number of priority first,
/// and of one priority the one that changed last.
pub proof fn law_queues_show_what_is_to_be_done(
    store: &ControlStore,
    limit: usize,
    res: OverviewSnapshot,
) -> (order: Seq<int>)
    requires
        call_ensures(overview, (store, limit), res),
    ensures
        res.queue@.len() <= limit,
        res.queue@.len() <= order.len(),
        res.queue@.len() < limit ==> res.queue@.len() == order.len(),
        forall|i: int|
            0 <= i < res.queue@.len() ==> {
                let j = store.job_list()[order[i]];
                &&& 0 <= order[i] < store.job_list().len()
                &&& (#[trigger] res.queue@[i]).job_id@ == j.job_id
                &&& res.queue@[i].doc_id@ == j.doc_id
                &&& res.queue@[i].stage@ == j.stage.name()
                &&& res.queue@[i].job_status@ == j.status.name()
                &&& opt_text(res.queue@[i].error) == j.last_error
                &&& j.status != JobStatus::Done
            },
        forall|i: int|
            0 <= i < store.job_list().len() && (#[trigger] store.job_list()[i]).status != JobStatus::Done
                && (forall|d: int|
                0 <= d < store.docs().len() && (#[trigger] store.docs()[d]).doc_id
                    == store.job_list()[i].doc_id ==> store.docs()[d].status != DocStatus::Archived)
                ==> order.contains(i),
        forall|a: int, b: int|
            0 <= a < b < order.len() ==> {
                let x = store.job_list()[#[trigger] order[a]];
                let y = store.job_list()[#[trigger] order[b]];
                &&& y.status == JobStatus::Running ==> x.status == JobStatus::Running
                &&& y.status == JobStatus::Pending ==> x.status == JobStatus::Running || x.status
                    == JobStatus::Pending
                &&& x.status == y.status ==> x.priority <= y.priority
                &&& x.status == y.status && x.priority == y.priority ==> !text_less(
                    x.updated_at,
                    y.updated_at,
                )
            },
{
    let (jobs, docs) = (store.job_list(), store.docs());
    let keys = queue_keys(jobs);
    let flags = queued(jobs, docs);
    let order = choose|order: Seq<int>|
        {
            &&& #[trigger] ordered_pick::<QueueKey>(queue_keys(jobs), queued(jobs, docs), order)
            &&& res.queue@.len() == least(order.len(), limit as nat)
            &&& forall|i: int|
                0 <= i < res.queue@.len() ==> (#[trigger] res.queue@[i]).reads_from(
                    jobs[order[i]],
                    docs,
                )
        };
    assert forall|i: int| 0 <= i < res.queue@.len() implies {
        let j = jobs[order[i]];
        &&& 0 <= order[i] < jobs.len()
        &&& (#[trigger] res.queue@[i]).job_id@ == j.job_id
        &&& res.queue@[i].doc_id@ == j.doc_id
        &&& res.queue@[i].stage@ == j.stage.name()
        &&& res.queue@[i].job_status@ == j.status.name()
        &&& opt_text(res.queue@[i].error) == j.last_error
        &&& j.status != JobStatus::Done
    } by {
        assert(order.contains(order[i]));
        assert(flags[order[i]]);
        assert(res.queue@[i].reads_from(jobs[order[i]], docs));
    }
    assert forall|i: int|
        0 <= i < jobs.len() && (#[trigger] jobs[i]).status != JobStatus::Done && (forall|d: int|
            0 <= d < docs.len() && (#[trigger] docs[d]).doc_id == jobs[i].doc_id ==> docs[d].status
                != DocStatus::Archived) implies order.contains(i) by {
        assert(flags[i]);
    }
    assert forall|a: int, b: int| 0 <= a < b < order.len() implies {
        let x = jobs[#[trigger] order[a]];
        let y = jobs[#[trigger] order[b]];
        &&& y.status == JobStatus::Running ==> x.status == JobStatus::Running
        &&& y.status == JobStatus::Pending ==> x.status == JobStatus::Running || x.status
            == JobStatus::Pending
        &&& x.status == y.status ==> x.priority <= y.priority
        &&& x.status == y.status && x.priority == y.priority ==> !text_less(
            x.updated_at,
            y.updated_at,
        )
    } by {
        assert(order.contains(order[a]) && order.contains(order[b]));
        assert(flags[order[a]] && flags[order[b]]);
        assert(crate::order::row_before::<QueueKey>(keys, order[a], order[b]));
        lemma_text_less_total(jobs[order[a]].updated_at, jobs[order[b]].updated_at);
    }
    order
}

/// The reviews that are shown are pending, between registered entities, the oldest first; each entity is
/// shown by its own name, with the number of its aliases.
pub proof fn law_reviews_show_both_entities(
    registry: &EntityRegistry,
    res: Vec<EntityReviewItem>,
) -> (order: Seq<int>)
    requires
        call_ensures(entity_review_items, (registry,), res),
    ensures
        order.len() == res@.len(),
        forall|i: int|
            0 <= i < res@.len() ==> {
                let r = registry.review_list()[order[i]];
                &&& 0 <= order[i] < registry.review_list().len()
                &&& (#[trigger] res@[i]).review_id == r.id
                &&& res@[i].score == r.score
                &&& res@[i].entity_a.entity_id@ == r.entity_a
                &&& res@[i].entity_b.entity_id@ == r.entity_b
                &&& r.status == super::entities::review::ReviewStatus::Pending
                &&& res@[i].entity_a.alias_count == registry.alias_list().filter(
                    |a: AliasView| a.entity_id == r.entity_a,
                ).len()
            },
        forall|a: int, b: int|
            0 <= a < b < order.len() ==> !text_less(
                registry.review_list()[#[trigger] order[b]].created_at,
                registry.review_list()[#[trigger] order[a]].created_at,
            ),
        forall|i: int|
            0 <= i < registry.review_list().len() && (#[trigger] registry.review_list()[i]).status
                == super::entities::review::ReviewStatus::Pending && has_entity(
                registry.entity_list(),
                registry.review_list()[i].entity_a,
            ) && has_entity(registry.entity_list(), registry.review_list()[i].entity_b)
                ==> order.contains(i),
{
    let reviews = registry.review_list();
    let entities = registry.entity_list();
    let aliases = registry.alias_list();
    let keys = review_keys(reviews);
    let flags = hydrated(reviews, entities);
    let order = choose|order: Seq<int>|
        {
            &&& #[trigger] ordered_pick::<(String, String)>(
                review_keys(reviews),
                hydrated(reviews, entities),
                order,
            )
            &&& res@.len() == order.len()
            &&& forall|i: int|
                0 <= i < res@.len() ==> {
                    &&& (#[trigger] res@[i]).review_id == reviews[order[i]].id
                    &&& res@[i].score == reviews[order[i]].score
                    &&& res@[i].entity_a.reads_from(reviews[order[i]].entity_a, entities, aliases)
                    &&& res@[i].entity_b.reads_from(reviews[order[i]].entity_b, entities, aliases)
                }
        };
    assert forall|i: int| 0 <= i < res@.len() implies {
        let r = reviews[order[i]];
        &&& 0 <= order[i] < reviews.len()
        &&& (#[trigger] res@[i]).review_id == r.id
        &&& res@[i].score == r.score
        &&& res@[i].entity_a.entity_id@ == r.entity_a
        &&& res@[i].entity_b.entity_id@ == r.entity_b
        &&& r.status == super::entities::review::ReviewStatus::Pending
        &&& res@[i].entity_a.alias_count == aliases.filter(
            |a: AliasView| a.entity_id == r.entity_a,
        ).len()
    } by {
        assert(order.contains(order[i]));
        assert(flags[order[i]]);
        assert(res@[i].entity_a.reads_from(reviews[order[i]].entity_a, entities, aliases));
    }
    assert forall|a: int, b: int| 0 <= a < b < order.len() implies !text_less(
        reviews[#[trigger] order[b]].created_at,
        reviews[#[trigger] order[a]].created_at,
    ) by {
        assert(order.contains(order[a]) && order.contains(order[b]));
        assert(crate::order::row_before::<(String, String)>(keys, order[a], order[b]));
        let (x, y) = (keys[order[a]], keys[order[b]]);
        assert(x == (reviews[order[a]].created_at, Seq::<char>::empty()));
        assert(y == (reviews[order[b]].created_at, Seq::<char>::empty()));
        lemma_text_less_total(x.0, y.0);
        lemma_text_less_total(x.1, y.1);
    }
    assert forall|i: int|
        0 <= i < reviews.len() && (#[trigger] reviews[i]).status
            == super::entities::review::ReviewStatus::Pending && has_entity(
            entities,
            reviews[i].entity_a,
        ) && has_entity(entities, reviews[i].entity_b) implies order.contains(i) by {
        assert(flags[i]);
    }
    order
}

} // verus!
