//! Document registry: registration, lookups, outcomes beside the milestones, re-crawl due dates, and
//! the deletion protocol.

use vstd::prelude::*;
use vstd::string::StringExecFns;

use super::db::DbError;
use super::jobs::{has_job_id, lemma_still_wf, new_job, on_doc, same_docs};
use super::models::{DocStatus, JobStatus, Stage};
use super::store::{
    docs_distinct, has_deletion, has_doc, ControlStore, DeletionRow, DeletionView, Document,
    DocumentView, JobRow, JobView,
};
use crate::order::{key_views, ordered_pick, sort_picked};
use crate::rows::{
    lemma_filter_kept, lemma_filter_map, lemma_filter_places, remove_owned, Owned,
};
use crate::text::{copy_opt, less, same};
use crate::text::{opt_text, text_less, texts};

verus! {

/// A document registration request.
#[derive(Debug, Clone)]
pub struct NewDocument {
    /// The URL as given.
    pub source_url: String,
    /// The normalized form, by which documents are told apart.
    pub source_url_normalized: String,
    /// Priority for the document's jobs; lower is sooner.
    pub priority: i64,
    /// Pipeline version recorded on the row.
    pub pipeline_version: String,
}

/// The outcome of a registration: a duplicate is a value, not an error.
#[derive(Debug, Clone, PartialEq, Eq)]
pub enum EnqueueOutcome {
    /// Document created and its SCRAPE job enqueued.
    Enqueued {
        /// The document.
        doc_id: String,
        /// The SCRAPE job.
        job_id: String,
    },
    /// The normalized URL is already registered.
    Duplicate {
        /// The registered document.
        doc_id: String,
    },
}

impl EnqueueOutcome {
    /// The document of the outcome.
    pub open spec fn document(self) -> Seq<char> {
        match self {
            EnqueueOutcome::Enqueued { doc_id, .. } => doc_id@,
            EnqueueOutcome::Duplicate { doc_id } => doc_id@,
        }
    }

    /// The document this outcome refers to: created on [`EnqueueOutcome::Enqueued`],
    /// already-registered on [`EnqueueOutcome::Duplicate`].
    pub fn doc_id(&self) -> (res: &str)
        ensures
            res@ == self.document(),
    {
        match self {
            EnqueueOutcome::Enqueued { doc_id, .. } => doc_id.as_str(),
            EnqueueOutcome::Duplicate { doc_id } => doc_id.as_str(),
        }
    }
}

/// A pending deletion intent.
#[derive(Debug, Clone, PartialEq, Eq)]
pub struct DeletionIntent {
    /// The document marked for deletion.
    pub doc_id: String,
    /// Why, if the requester said.
    pub reason: Option<String>,
}

/// A path with a relative part appended.
pub open spec fn joined_path(base: Seq<char>, part: Seq<char>) -> Seq<char> {
    if base.len() == 0 || base.last() == '/' {
        base + part
    } else {
        base + seq!['/'] + part
    }
}

/// Appends a relative part to a path.
pub fn join_path(base: &str, part: &str) -> (res: String)
    ensures
        res@ == joined_path(base@, part@),
{
    let chars = crate::text::chars_of(base);
    let n: usize = chars.len();
    let mut res = base.to_owned();
    if n > 0 && chars[n - 1] != '/' {
        res.push('/');
        res.append(part);
        assert(res@ =~= base@ + seq!['/'] + part@);
    } else {
        res.append(part);
    }
    res
}

/// Where the raw payload of a document lives.
pub open spec fn raw_path(data_dir: Seq<char>, doc_id: Seq<char>) -> Seq<char> {
    joined_path(joined_path(data_dir, "raw"@), doc_id + ".html.gz"@)
}

/// A registered document before any of its stages ran.
pub open spec fn new_doc(
    new: NewDocument,
    data_dir: Seq<char>,
    doc_id: Seq<char>,
    now: Seq<char>,
) -> DocumentView {
    DocumentView {
        doc_id,
        source_url: new.source_url@,
        source_url_normalized: new.source_url_normalized@,
        raw_file_path: raw_path(data_dir, doc_id),
        clean_file_path: None,
        clean_content_hash: None,
        status: DocStatus::New,
        title: None,
        author: None,
        language: None,
        word_count: None,
        token_count: None,
        chunk_count: 0,
        http_status: None,
        etag: None,
        last_modified: None,
        fetched_at: None,
        next_crawl_at: None,
        created_at: now,
        last_processed_at: None,
        error: None,
        pipeline_version: new.pipeline_version@,
    }
}

/// Whether a normalized URL is registered.
pub open spec fn has_url(docs: Seq<DocumentView>, url: Seq<char>) -> bool {
    exists|i: int| 0 <= i < docs.len() && (#[trigger] docs[i]).source_url_normalized == url
}

/// Looks up a document by its normalized URL.
pub fn find_id_by_url(store: &ControlStore, source_url_normalized: &str) -> (res: Option<String>)
    ensures
        match res {
            Some(id) => exists|i: int|
                {
                    &&& 0 <= i < store.docs().len()
                    &&& (#[trigger] store.docs()[i]).source_url_normalized
                        == source_url_normalized@
                    &&& store.docs()[i].doc_id == id@
                },
            None => !has_url(store.docs(), source_url_normalized@),
        },
{
    let ghost docs = store.docs();
    let mut i: usize = 0;
    while i < store.documents.len()
        invariant
            i <= store.documents@.len(),
            docs == store.docs(),
            forall|j: int|
                0 <= j < i ==> (#[trigger] docs[j]).source_url_normalized
                    != source_url_normalized@,
        decreases store.documents@.len() - i,
    {
        assert(docs[i as int] == store.documents@[i as int]@);
        if same(store.documents[i].source_url_normalized.as_str(), source_url_normalized) {
            return Some(store.documents[i].doc_id.clone());
        }
        i = i + 1;
    }
    None
}

/// Looks up the first document of a clean-content hash.
pub fn find_id_by_content_hash(store: &ControlStore, clean_content_hash: &str) -> (res: Option<
    String,
>)
    ensures
        match res {
            Some(id) => exists|i: int|
                {
                    &&& 0 <= i < store.docs().len()
                    &&& (#[trigger] store.docs()[i]).clean_content_hash == Some(
                        clean_content_hash@,
                    )
                    &&& store.docs()[i].doc_id == id@
                    &&& forall|j: int|
                        0 <= j < i ==> (#[trigger] store.docs()[j]).clean_content_hash != Some(
                            clean_content_hash@,
                        )
                },
            None => forall|i: int|
                0 <= i < store.docs().len() ==> (#[trigger] store.docs()[i]).clean_content_hash
                    != Some(clean_content_hash@),
        },
{
    let ghost docs = store.docs();
    let mut i: usize = 0;
    while i < store.documents.len()
        invariant
            i <= store.documents@.len(),
            docs == store.docs(),
            forall|j: int|
                0 <= j < i ==> (#[trigger] docs[j]).clean_content_hash != Some(clean_content_hash@),
        decreases store.documents@.len() - i,
    {
        assert(docs[i as int] == store.documents@[i as int]@);
        if let Some(hash) = &store.documents[i].clean_content_hash {
            if same(hash.as_str(), clean_content_hash) {
                assert(store.docs()[i as int].clean_content_hash == Some(clean_content_hash@));
                return Some(store.documents[i].doc_id.clone());
            }
        }
        i = i + 1;
    }
    None
}

/// Loads one document.
pub fn get<'a>(store: &'a ControlStore, doc_id: &str) -> (res: Option<&'a Document>)
    ensures
        match res {
            Some(d) => d@.doc_id == doc_id@ && store.docs().contains(d@),
            None => !has_doc(store.docs(), doc_id@),
        },
{
    match store.doc_index(doc_id) {
        Some(i) => {
            assert(store.docs()[i as int] == store.documents@[i as int]@);
            Some(&store.documents[i])
        },
        None => None,
    }
}

proof fn lemma_added_doc(docs: Seq<DocumentView>, d: DocumentView)
    requires
        docs_distinct(docs),
        !has_doc(docs, d.doc_id),
        !has_url(docs, d.source_url_normalized),
    ensures
        docs_distinct(docs.push(d)),
        forall|id: Seq<char>| #[trigger] has_doc(docs.push(d), id) <==> has_doc(docs, id) || id
            == d.doc_id,
{
    let next = docs.push(d);
    assert forall|i: int, j: int| 0 <= i < j < next.len() implies (#[trigger] next[i]).doc_id != (
    #[trigger] next[j]).doc_id && next[i].source_url_normalized
        != next[j].source_url_normalized by {
        assert(next[i] == docs[i]);
        if j < docs.len() {
            assert(next[j] == docs[j]);
        }
    }
    assert forall|id: Seq<char>| #[trigger] has_doc(next, id) <==> has_doc(docs, id) || id
        == d.doc_id by {
        if has_doc(docs, id) {
            let i = choose|i: int| 0 <= i < docs.len() && (#[trigger] docs[i]).doc_id == id;
            assert(next[i].doc_id == id);
        }
        if id == d.doc_id {
            assert(next[docs.len() as int].doc_id == id);
        }
        if has_doc(next, id) {
            let i = choose|i: int| 0 <= i < next.len() && (#[trigger] next[i]).doc_id == id;
            if i < docs.len() {
                assert(docs[i].doc_id == id);
            }
        }
    }
}

/// Registers a document and enqueues its SCRAPE job as one step. A registered URL is a duplicate
/// that registers nothing. `doc_id` and `job_id` are the ids to use; where one of them is taken
/// nothing changes.
pub fn insert_new(
    store: &mut ControlStore,
    data_dir: &str,
    new: &NewDocument,
    doc_id: &str,
    job_id: &str,
    now_stamp: &str,
) -> (res: Result<EnqueueOutcome, DbError>)
    requires
        old(store).wf(),
    ensures
        final(store).wf(),
        final(store).intents() == old(store).intents(),
        final(store).default_max_attempts == old(store).default_max_attempts,
        ({
            let known = has_url(old(store).docs(), new.source_url_normalized@);
            let taken = has_doc(old(store).docs(), doc_id@) || has_job_id(
                old(store).job_list(),
                job_id@,
            );
            if known || taken {
                &&& final(store).docs() == old(store).docs()
                &&& final(store).job_list() == old(store).job_list()
                &&& if known {
                    &&& res is Ok
                    &&& res->Ok_0 is Duplicate
                    &&& exists|i: int|
                        {
                            &&& 0 <= i < old(store).docs().len()
                            &&& (#[trigger] old(store).docs()[i]).source_url_normalized
                                == new.source_url_normalized@
                            &&& old(store).docs()[i].doc_id == res->Ok_0.document()
                        }
                } else {
                    res is Err && res->Err_0 is Sqlite
                }
            } else {
                &&& res is Ok
                &&& res->Ok_0 is Enqueued
                &&& res->Ok_0->Enqueued_doc_id@ == doc_id@
                &&& res->Ok_0->Enqueued_job_id@ == job_id@
                &&& final(store).docs() == old(store).docs().push(
                    new_doc(*new, data_dir@, doc_id@, now_stamp@),
                )
                &&& final(store).job_list() == old(store).job_list().push(
                    new_job(
                        job_id@,
                        doc_id@,
                        Stage::Scrape,
                        new.priority as int,
                        old(store).default_max_attempts as int,
                        None,
                        now_stamp@,
                    ),
                )
            }
        }),
{
    if let Some(existing) = find_id_by_url(store, new.source_url_normalized.as_str()) {
        return Ok(EnqueueOutcome::Duplicate { doc_id: existing });
    }
    if store.doc_index(doc_id).is_some() {
        return Err(DbError::Sqlite("UNIQUE constraint failed: documents.doc_id".to_owned()));
    }
    if id_of_job(store, job_id) {
        return Err(DbError::Sqlite("UNIQUE constraint failed: jobs.job_id".to_owned()));
    }
    let ghost before = *store;
    let raw_dir = join_path(data_dir, "raw");
    let mut file = doc_id.to_owned();
    file.append(".html.gz");
    let raw_file_path = join_path(raw_dir.as_str(), file.as_str());
    let document = Document {
        doc_id: doc_id.to_owned(),
        source_url: new.source_url.clone(),
        source_url_normalized: new.source_url_normalized.clone(),
        raw_file_path,
        clean_file_path: None,
        clean_content_hash: None,
        status: DocStatus::New,
        title: None,
        author: None,
        language: None,
        word_count: None,
        token_count: None,
        chunk_count: 0,
        http_status: None,
        etag: None,
        last_modified: None,
        fetched_at: None,
        next_crawl_at: None,
        created_at: now_stamp.to_owned(),
        last_processed_at: None,
        error: None,
        pipeline_version: new.pipeline_version.clone(),
    };
    let row = JobRow {
        job_id: job_id.to_owned(),
        doc_id: doc_id.to_owned(),
        stage: Stage::Scrape,
        status: JobStatus::Pending,
        priority: new.priority,
        attempts: 0,
        max_attempts: store.default_max_attempts,
        next_attempt_at: None,
        lease_owner: None,
        lease_expires_at: None,
        last_error: None,
        params: None,
        created_at: now_stamp.to_owned(),
        updated_at: now_stamp.to_owned(),
    };
    let ghost d = document@;
    let ghost j = row@;
    store.documents.push(document);
    store.jobs.push(row);
    proof {
        assert(d =~= new_doc(*new, data_dir@, doc_id@, now_stamp@));
        assert(j =~= new_job(
            job_id@,
            doc_id@,
            Stage::Scrape,
            new.priority as int,
            before.default_max_attempts as int,
            None,
            now_stamp@,
        ));
        assert(store.docs() =~= before.docs().push(d));
        assert(store.job_list() =~= before.job_list().push(j));
        assert(store.intents() =~= before.intents());
        lemma_added_doc(before.docs(), d);
        let (old_jobs, jobs) = (before.job_list(), store.job_list());
        assert forall|a: int, b: int| 0 <= a < b < jobs.len() implies (#[trigger] jobs[a]).job_id
            != (#[trigger] jobs[b]).job_id && !(jobs[a].doc_id == jobs[b].doc_id && jobs[a].stage
            == jobs[b].stage) by {
            assert(jobs[a] == old_jobs[a]);
            assert(has_doc(before.docs(), old_jobs[a].doc_id));
            if b < old_jobs.len() {
                assert(jobs[b] == old_jobs[b]);
            }
        }
        assert forall|a: int| 0 <= a < jobs.len() implies has_doc(
            store.docs(),
            (#[trigger] jobs[a]).doc_id,
        ) by {
            if a < old_jobs.len() {
                assert(jobs[a] == old_jobs[a]);
            }
        }
        let intents = before.intents();
        assert forall|a: int| 0 <= a < intents.len() implies has_doc(
            store.docs(),
            (#[trigger] intents[a]).doc_id,
        ) by {
            assert(has_doc(before.docs(), intents[a].doc_id));
        }
    }
    Ok(EnqueueOutcome::Enqueued { doc_id: doc_id.to_owned(), job_id: job_id.to_owned() })
}

fn id_of_job(store: &ControlStore, job_id: &str) -> (res: bool)
    ensures
        res == has_job_id(store.job_list(), job_id@),
{
    let ghost jobs = store.job_list();
    let mut i: usize = 0;
    while i < store.jobs.len()
        invariant
            i <= store.jobs@.len(),
            jobs == store.job_list(),
            forall|j: int| 0 <= j < i ==> (#[trigger] jobs[j]).job_id != job_id@,
        decreases store.jobs@.len() - i,
    {
        assert(jobs[i as int] == store.jobs@[i as int]@);
        if same(store.jobs[i].job_id.as_str(), job_id) {
            return true;
        }
        i = i + 1;
    }
    false
}

/// A document once the quality gate has rejected it.
pub open spec fn rejected(d: DocumentView, reason: Seq<char>, now: Seq<char>) -> DocumentView {
    DocumentView {
        status: DocStatus::FailedQuality,
        error: Some(reason),
        last_processed_at: Some(now),
        ..d
    }
}

/// A document once it is archived.
pub open spec fn archived(d: DocumentView, now: Seq<char>) -> DocumentView {
    DocumentView { status: DocStatus::Archived, last_processed_at: Some(now), ..d }
}

/// Records a quality-gate rejection with its reason.
pub fn mark_quality_rejected(store: &mut ControlStore, doc_id: &str, reason: &str, now_stamp: &str)
    requires
        old(store).wf(),
    ensures
        final(store).wf(),
        final(store).docs() == on_doc(
            old(store).docs(),
            doc_id@,
            |d: DocumentView| rejected(d, reason@, now_stamp@),
        ),
        final(store).job_list() == old(store).job_list(),
        final(store).intents() == old(store).intents(),
        final(store).default_max_attempts == old(store).default_max_attempts,
{
    let ghost start = *store;
    let ghost before = store.docs();
    let ghost image = on_doc(
        before,
        doc_id@,
        |d: DocumentView| rejected(d, reason@, now_stamp@),
    );
    if let Some(i) = store.doc_index(doc_id) {
        assert(before[i as int] == store.documents@[i as int]@);
        store.documents[i].status = DocStatus::FailedQuality;
        store.documents[i].error = Some(reason.to_owned());
        store.documents[i].last_processed_at = Some(now_stamp.to_owned());
        proof {
            let after = store.docs();
            assert(after[i as int] =~= rejected(before[i as int], reason@, now_stamp@));
            assert forall|k: int| 0 <= k < before.len() implies #[trigger] after[k] == image[k] by {
                if k < i {
                    assert(before[k].doc_id != before[i as int].doc_id);
                } else if i < k {
                    assert(before[i as int].doc_id != before[k].doc_id);
                }
            }
        }
    } else {
        assert forall|k: int| 0 <= k < before.len() implies (#[trigger] before[k]).doc_id
            != doc_id@ by {}
    }
    proof {
        assert(store.docs() =~= image);
        assert(store.job_list() =~= start.job_list());
        assert(store.intents() =~= start.intents());
        assert(same_docs(before, image));
        lemma_still_wf(start, *store);
    }
}

/// Archives a document: its jobs are no longer claimed and it is no longer re-crawled.
pub fn archive(store: &mut ControlStore, doc_id: &str, now_stamp: &str)
    requires
        old(store).wf(),
    ensures
        final(store).wf(),
        final(store).docs() == on_doc(
            old(store).docs(),
            doc_id@,
            |d: DocumentView| archived(d, now_stamp@),
        ),
        final(store).job_list() == old(store).job_list(),
        final(store).intents() == old(store).intents(),
        final(store).default_max_attempts == old(store).default_max_attempts,
{
    let ghost start = *store;
    let ghost before = store.docs();
    let ghost image = on_doc(before, doc_id@, |d: DocumentView| archived(d, now_stamp@));
    if let Some(i) = store.doc_index(doc_id) {
        assert(before[i as int] == store.documents@[i as int]@);
        store.documents[i].status = DocStatus::Archived;
        store.documents[i].last_processed_at = Some(now_stamp.to_owned());
        proof {
            let after = store.docs();
            assert(after[i as int] =~= archived(before[i as int], now_stamp@));
            assert forall|k: int| 0 <= k < before.len() implies #[trigger] after[k] == image[k] by {
                if k < i {
                    assert(before[k].doc_id != before[i as int].doc_id);
                } else if i < k {
                    assert(before[i as int].doc_id != before[k].doc_id);
                }
            }
        }
    } else {
        assert forall|k: int| 0 <= k < before.len() implies (#[trigger] before[k]).doc_id
            != doc_id@ by {}
    }
    proof {
        assert(store.docs() =~= image);
        assert(store.job_list() =~= start.job_list());
        assert(store.intents() =~= start.intents());
        assert(same_docs(before, image));
        lemma_still_wf(start, *store);
    }
}

/// Whether a document is due for re-crawl: its date has come, and it has neither failed nor been
/// archived.
pub open spec fn recrawl_due(d: DocumentView, now: Seq<char>) -> bool {
    &&& d.status != DocStatus::FailedQuality && d.status != DocStatus::Failed && d.status
        != DocStatus::Archived
    &&& match d.next_crawl_at {
        Some(at) => !text_less(now, at),
        None => false,
    }
}

/// The key by which due documents are ordered.
pub open spec fn crawl_key(d: DocumentView) -> (Seq<char>, Seq<char>) {
    (
        match d.next_crawl_at {
            Some(at) => at,
            None => seq![],
        },
        seq![],
    )
}

/// The keys by which documents are ordered for re-crawl.
pub open spec fn crawl_keys(docs: Seq<DocumentView>) -> Seq<(Seq<char>, Seq<char>)> {
    docs.map_values(|d: DocumentView| crawl_key(d))
}

/// Which documents are due for re-crawl.
pub open spec fn due_flags(docs: Seq<DocumentView>, now: Seq<char>) -> Seq<bool> {
    docs.map_values(|d: DocumentView| recrawl_due(d, now))
}

/// Whether `ids` lists the documents due for re-crawl, the earliest first.
pub open spec fn lists_due(docs: Seq<DocumentView>, now: Seq<char>, ids: Seq<Seq<char>>) -> bool {
    exists|order: Seq<int>|
        {
            &&& #[trigger] ordered_pick::<(String, String)>(crawl_keys(docs), due_flags(docs, now), order)
            &&& ids == order.map_values(|i: int| docs[i].doc_id)
        }
}

/// Whether a document is due for re-crawl.
pub fn is_recrawl_due(d: &Document, now: &str) -> (res: bool)
    ensures
        res == recrawl_due(d@, now@),
{
    if d.status == DocStatus::FailedQuality || d.status == DocStatus::Failed || d.status
        == DocStatus::Archived {
        return false;
    }
    match &d.next_crawl_at {
        Some(at) => !less(now, at.as_str()),
        None => false,
    }
}

/// The documents due for re-crawl, the earliest first.
pub fn due_for_recrawl(store: &ControlStore, now_stamp: &str) -> (res: Vec<String>)
    ensures
        lists_due(store.docs(), now_stamp@, texts(res@)),
{
    let ghost docs = store.docs();
    let ghost wanted_keys = crawl_keys(docs);
    let ghost wanted_pick = due_flags(docs, now_stamp@);
    let mut keys: Vec<(String, String)> = Vec::new();
    let mut pick: Vec<bool> = Vec::new();
    let mut i: usize = 0;
    while i < store.documents.len()
        invariant
            i <= store.documents@.len(),
            docs == store.docs(),
            wanted_keys == crawl_keys(docs),
            wanted_pick == due_flags(docs, now_stamp@),
            key_views(keys@) == wanted_keys.take(i as int),
            pick@ == wanted_pick.take(i as int),
        decreases store.documents@.len() - i,
    {
        let d = &store.documents[i];
        assert(docs[i as int] == d@);
        let at = match &d.next_crawl_at {
            Some(at) => at.clone(),
            None => String::new(),
        };
        let ghost before = key_views(keys@);
        let key = (at, String::new());
        assert((key.0@, key.1@) == crawl_key(d@));
        keys.push(key);
        pick.push(is_recrawl_due(d, now_stamp));
        assert(key_views(keys@) =~= before.push(crawl_key(d@)));
        i = i + 1;
        assert(key_views(keys@) =~= wanted_keys.take(i as int));
        assert(pick@ =~= wanted_pick.take(i as int));
    }
    assert(wanted_keys.take(i as int) =~= wanted_keys);
    assert(wanted_pick.take(i as int) =~= wanted_pick);
    assert(keys@.len() == key_views(keys@).len());
    let order = sort_picked(&keys, &pick);
    let ghost indices = order@.map_values(|i: usize| i as int);
    let mut res: Vec<String> = Vec::new();
    let mut k: usize = 0;
    while k < order.len()
        invariant
            k <= order@.len(),
            docs == store.docs(),
            indices == order@.map_values(|i: usize| i as int),
            forall|j: int| 0 <= j < order@.len() ==> #[trigger] order@[j] < store.documents@.len(),
            texts(res@) == indices.take(k as int).map_values(|i: int| docs[i].doc_id),
        decreases order@.len() - k,
    {
        let ghost before = texts(res@);
        let id = store.documents[order[k]].doc_id.clone();
        assert(docs[order@[k as int] as int] == store.documents@[order@[k as int] as int]@);
        res.push(id);
        assert(texts(res@) =~= before.push(id@));
        k = k + 1;
        assert(texts(res@) =~= indices.take(k as int).map_values(|i: int| docs[i].doc_id));
    }
    assert(indices.take(k as int) =~= indices);
    res
}

/// Records the intent to delete a document, which must be registered. A second intent for one
/// document changes nothing.
pub fn request_deletion(
    store: &mut ControlStore,
    doc_id: &str,
    reason: Option<&str>,
    now_stamp: &str,
) -> (res: Result<(), DbError>)
    requires
        old(store).wf(),
    ensures
        final(store).wf(),
        final(store).docs() == old(store).docs(),
        final(store).job_list() == old(store).job_list(),
        final(store).default_max_attempts == old(store).default_max_attempts,
        if !has_doc(old(store).docs(), doc_id@) {
            &&& res is Err
            &&& res->Err_0 is Sqlite
            &&& final(store).intents() == old(store).intents()
        } else if has_deletion(old(store).intents(), doc_id@) {
            &&& res is Ok
            &&& final(store).intents() == old(store).intents()
        } else {
            &&& res is Ok
            &&& final(store).intents() == old(store).intents().push(
                DeletionView {
                    doc_id: doc_id@,
                    reason: match reason {
                        Some(r) => Some(r@),
                        None => None,
                    },
                    requested_at: now_stamp@,
                },
            )
        },
{
    if store.doc_index(doc_id).is_none() {
        return Err(DbError::Sqlite("FOREIGN KEY constraint failed".to_owned()));
    }
    if store.deletion_intended(doc_id) {
        return Ok(());
    }
    let ghost before = *store;
    let row = DeletionRow {
        doc_id: doc_id.to_owned(),
        reason: match reason {
            Some(r) => Some(r.to_owned()),
            None => None,
        },
        requested_at: now_stamp.to_owned(),
    };
    let ghost added = row@;
    store.deletions.push(row);
    proof {
        let (a, b) = (before.intents(), store.intents());
        assert(b =~= a.push(added));
        assert(store.docs() =~= before.docs());
        assert(store.job_list() =~= before.job_list());
        assert forall|i: int, j: int| 0 <= i < j < b.len() implies (#[trigger] b[i]).doc_id != (
        #[trigger] b[j]).doc_id by {
            assert(b[i] == a[i]);
            if j < a.len() {
                assert(b[j] == a[j]);
            }
        }
        assert forall|i: int| 0 <= i < b.len() implies has_doc(
            store.docs(),
            (#[trigger] b[i]).doc_id,
        ) by {
            if i < a.len() {
                assert(b[i] == a[i]);
            }
        }
    }
    Ok(())
}

/// The keys by which deletion intents are ordered.
pub open spec fn intent_keys(intents: Seq<DeletionView>) -> Seq<(Seq<char>, Seq<char>)> {
    intents.map_values(|d: DeletionView| (d.requested_at, Seq::<char>::empty()))
}

/// Every deletion intent is listed.
pub open spec fn all_intents(intents: Seq<DeletionView>) -> Seq<bool> {
    intents.map_values(|d: DeletionView| true)
}

/// Whether `res` lists the deletion intents, the oldest first.
pub open spec fn lists_intents(intents: Seq<DeletionView>, res: Seq<DeletionIntent>) -> bool {
    exists|order: Seq<int>|
        {
            &&& #[trigger] ordered_pick::<(String, String)>(intent_keys(intents), all_intents(intents), order)
            &&& res.len() == order.len()
            &&& forall|i: int|
                0 <= i < res.len() ==> (#[trigger] res[i]).doc_id@ == intents[order[i]].doc_id
                    && opt_text(res[i].reason) == intents[order[i]].reason
        }
}

/// The pending deletion intents, the oldest first.
pub fn pending_deletions(store: &ControlStore) -> (res: Vec<DeletionIntent>)
    ensures
        lists_intents(store.intents(), res@),
{
    let ghost intents = store.intents();
    let ghost wanted_keys = intent_keys(intents);
    let ghost wanted_pick = all_intents(intents);
    let mut keys: Vec<(String, String)> = Vec::new();
    let mut pick: Vec<bool> = Vec::new();
    let mut i: usize = 0;
    while i < store.deletions.len()
        invariant
            i <= store.deletions@.len(),
            intents == store.intents(),
            wanted_keys == intent_keys(intents),
            wanted_pick == all_intents(intents),
            key_views(keys@) == wanted_keys.take(i as int),
            pick@ == wanted_pick.take(i as int),
        decreases store.deletions@.len() - i,
    {
        assert(intents[i as int] == store.deletions@[i as int]@);
        let ghost before = key_views(keys@);
        let key = (store.deletions[i].requested_at.clone(), String::new());
        assert((key.0@, key.1@) == wanted_keys[i as int]);
        keys.push(key);
        pick.push(true);
        assert(key_views(keys@) =~= before.push(wanted_keys[i as int]));
        i = i + 1;
        assert(key_views(keys@) =~= wanted_keys.take(i as int));
        assert(pick@ =~= wanted_pick.take(i as int));
    }
    assert(wanted_keys.take(i as int) =~= wanted_keys);
    assert(wanted_pick.take(i as int) =~= wanted_pick);
    assert(keys@.len() == key_views(keys@).len());
    let order = sort_picked(&keys, &pick);
    let ghost indices = order@.map_values(|i: usize| i as int);
    let mut res: Vec<DeletionIntent> = Vec::new();
    let mut k: usize = 0;
    while k < order.len()
        invariant
            k <= order@.len(),
            intents == store.intents(),
            indices == order@.map_values(|i: usize| i as int),
            forall|j: int| 0 <= j < order@.len() ==> #[trigger] order@[j] < store.deletions@.len(),
            res@.len() == k,
            forall|j: int|
                0 <= j < k ==> (#[trigger] res@[j]).doc_id@ == intents[indices[j]].doc_id
                    && opt_text(res@[j].reason) == intents[indices[j]].reason,
        decreases order@.len() - k,
    {
        let row = &store.deletions[order[k]];
        assert(intents[order@[k as int] as int] == row@);
        res.push(DeletionIntent { doc_id: row.doc_id.clone(), reason: copy_opt(&row.reason) });
        k = k + 1;
    }
    assert(ordered_pick::<(String, String)>(wanted_keys, wanted_pick, indices));
    res
}

/// The documents without the one of an id.
pub open spec fn docs_without(docs: Seq<DocumentView>, id: Seq<char>) -> Seq<DocumentView> {
    docs.filter(|d: DocumentView| d.doc_id != id)
}

/// The jobs without those of a document.
pub open spec fn jobs_without(jobs: Seq<JobView>, id: Seq<char>) -> Seq<JobView> {
    jobs.filter(|j: JobView| j.doc_id != id)
}

/// The deletion intents without that of a document.
pub open spec fn intents_without(intents: Seq<DeletionView>, id: Seq<char>) -> Seq<DeletionView> {
    intents.filter(|d: DeletionView| d.doc_id != id)
}

/// Deletes a document with its jobs and its deletion intent. Answers whether it was there.
pub fn execute_deletion(store: &mut ControlStore, doc_id: &str) -> (res: bool)
    requires
        old(store).wf(),
    ensures
        final(store).wf(),
        res == has_doc(old(store).docs(), doc_id@),
        final(store).docs() == docs_without(old(store).docs(), doc_id@),
        final(store).job_list() == jobs_without(old(store).job_list(), doc_id@),
        final(store).intents() == intents_without(old(store).intents(), doc_id@),
        final(store).default_max_attempts == old(store).default_max_attempts,
{
    let ghost before = *store;
    let found = store.doc_index(doc_id).is_some();
    remove_owned(&mut store.documents, doc_id);
    remove_owned(&mut store.jobs, doc_id);
    remove_owned(&mut store.deletions, doc_id);
    proof {
        let kept_doc = |d: DocumentView| d.doc_id != doc_id@;
        let kept_job = |j: JobView| j.doc_id != doc_id@;
        let kept_intent = |d: DeletionView| d.doc_id != doc_id@;
        let doc_view = |d: Document| d@;
        let job_view = |j: JobRow| j@;
        let intent_view = |d: DeletionRow| d@;
        lemma_filter_map(before.documents@, doc_view, kept_doc);
        lemma_filter_map(before.jobs@, job_view, kept_job);
        lemma_filter_map(before.deletions@, intent_view, kept_intent);
        assert((|d: Document| kept_doc(doc_view(d))) =~= (|d: Document| d.owner() != doc_id@));
        assert((|j: JobRow| kept_job(job_view(j))) =~= (|j: JobRow| j.owner() != doc_id@));
        assert((|d: DeletionRow| kept_intent(intent_view(d))) =~= (|d: DeletionRow|
            d.owner() != doc_id@));
        lemma_doc_removed(before, *store, doc_id@);
    }
    found
}

proof fn lemma_doc_removed(before: ControlStore, after: ControlStore, id: Seq<char>)
    requires
        before.wf(),
        after.docs() == docs_without(before.docs(), id),
        after.job_list() == jobs_without(before.job_list(), id),
        after.intents() == intents_without(before.intents(), id),
    ensures
        after.wf(),
{
    let (a, b) = (before.docs(), after.docs());
    let kept_doc = |d: DocumentView| d.doc_id != id;
    let at = lemma_filter_places(a, kept_doc);
    assert forall|i: int, j: int| 0 <= i < j < b.len() implies (#[trigger] b[i]).doc_id != (
    #[trigger] b[j]).doc_id && b[i].source_url_normalized != b[j].source_url_normalized by {
        assert(at[i] < at[j]);
        assert(a[at[i]] == b[i] && a[at[j]] == b[j]);
    }
    assert forall|other: Seq<char>| other != id && has_doc(a, other) implies #[trigger] has_doc(
        b,
        other,
    ) by {
        let k = choose|k: int| 0 <= k < a.len() && (#[trigger] a[k]).doc_id == other;
        assert(kept_doc(a[k]));
        let i = choose|i: int| 0 <= i < at.len() && at[i] == k;
        assert(a[at[i]] == b[i]);
    }
    let (jobs, kept) = (before.job_list(), after.job_list());
    let kept_job = |j: JobView| j.doc_id != id;
    let places = lemma_filter_places(jobs, kept_job);
    assert forall|i: int, j: int| 0 <= i < j < kept.len() implies (#[trigger] kept[i]).job_id != (
    #[trigger] kept[j]).job_id && !(kept[i].doc_id == kept[j].doc_id && kept[i].stage
        == kept[j].stage) by {
        assert(places[i] < places[j]);
        assert(jobs[places[i]] == kept[i] && jobs[places[j]] == kept[j]);
    }
    assert forall|i: int| 0 <= i < kept.len() implies has_doc(b, (#[trigger] kept[i]).doc_id) by {
        assert(jobs[places[i]] == kept[i] && kept_job(kept[i]));
        assert(has_doc(a, jobs[places[i]].doc_id));
    }
    let (c, e) = (before.intents(), after.intents());
    let kept_intent = |d: DeletionView| d.doc_id != id;
    let spots = lemma_filter_places(c, kept_intent);
    assert forall|i: int| 0 <= i < e.len() implies has_doc(b, (#[trigger] e[i]).doc_id) by {
        assert(c[spots[i]] == e[i] && kept_intent(e[i]));
        assert(has_doc(a, c[spots[i]].doc_id));
    }
    assert forall|i: int, j: int| 0 <= i < j < e.len() implies (#[trigger] e[i]).doc_id != (
    #[trigger] e[j]).doc_id by {
        assert(spots[i] < spots[j]);
        assert(c[spots[i]] == e[i] && c[spots[j]] == e[j]);
    }
}

// ---------------------------------------------------------------------------------------------
// Laws.
// ---------------------------------------------------------------------------------------------
/// Registering a URL twice registers it once: after a registration the URL is known.
pub proof fn law_registration_is_remembered(
    docs: Seq<DocumentView>,
    new: NewDocument,
    data_dir: Seq<char>,
    doc_id: Seq<char>,
    now: Seq<char>,
)
    ensures
        has_url(
            docs.push(new_doc(new, data_dir, doc_id, now)),
            new.source_url_normalized@,
        ),
{
    let after = docs.push(new_doc(new, data_dir, doc_id, now));
    assert(after[docs.len() as int].source_url_normalized == new.source_url_normalized@);
}

/// Archived and failed documents, and those without a date, are never due for re-crawl.
pub proof fn law_terminal_documents_are_not_recrawled(d: DocumentView, now: Seq<char>)
    requires
        d.status == DocStatus::Archived || d.status == DocStatus::Failed || d.status
            == DocStatus::FailedQuality || d.next_crawl_at is None,
    ensures
        !recrawl_due(d, now),
{
}

/// A deletion leaves nothing of the document behind, takes nothing of another, and executed again
/// it changes nothing: an interrupted deletion can be repeated.
pub proof fn law_deletion_is_complete_and_repeatable(
    docs: Seq<DocumentView>,
    jobs: Seq<JobView>,
    intents: Seq<DeletionView>,
    id: Seq<char>,
)
    ensures
        !has_doc(docs_without(docs, id), id),
        forall|j: JobView| jobs_without(jobs, id).contains(j) <==> jobs.contains(j) && j.doc_id
            != id,
        !has_deletion(intents_without(intents, id), id),
        forall|d: DocumentView| docs_without(docs, id).contains(d) <==> docs.contains(d)
            && d.doc_id != id,
        docs_without(docs_without(docs, id), id) == docs_without(docs, id),
        jobs_without(jobs_without(jobs, id), id) == jobs_without(jobs, id),
        intents_without(intents_without(intents, id), id) == intents_without(intents, id),
{
    lemma_filter_kept(docs, |d: DocumentView| d.doc_id != id);
    lemma_filter_kept(jobs, |j: JobView| j.doc_id != id);
    lemma_filter_kept(intents, |d: DeletionView| d.doc_id != id);
    assert forall|d: DocumentView| docs_without(docs, id).contains(d) implies d.doc_id != id by {}
    if has_doc(docs_without(docs, id), id) {
        let i = choose|i: int|
            0 <= i < docs_without(docs, id).len() && (#[trigger] docs_without(docs, id)[i]).doc_id
                == id;
        assert(docs_without(docs, id).contains(docs_without(docs, id)[i]));
    }
    if has_deletion(intents_without(intents, id), id) {
        let i = choose|i: int|
            0 <= i < intents_without(intents, id).len() && (#[trigger] intents_without(
                intents,
                id,
            )[i]).doc_id == id;
        assert(intents_without(intents, id).contains(intents_without(intents, id)[i]));
    }
}

/// What is due is crawled again: a document whose date has come is listed unless it has failed or been
/// archived, and only such documents are; of two listed documents the first is due no later.
pub proof fn law_due_documents_are_listed(
    docs: Seq<DocumentView>,
    now: Seq<char>,
    ids: Seq<Seq<char>>,
    i: int,
    a: int,
    b: int,
)
    requires
        lists_due(docs, now, ids),
    ensures
        0 <= i < docs.len() && docs[i].next_crawl_at is Some && !text_less(
            now,
            docs[i].next_crawl_at->0,
        ) && docs[i].status != DocStatus::Failed && docs[i].status != DocStatus::FailedQuality
            && docs[i].status != DocStatus::Archived ==> ids.contains(docs[i].doc_id),
        0 <= a < b < ids.len() ==> exists|x: int, y: int|
            {
                &&& 0 <= x < docs.len() && 0 <= y < docs.len() && x != y
                &&& (#[trigger] docs[x]).doc_id == ids[a] && (#[trigger] docs[y]).doc_id == ids[b]
                &&& docs[x].next_crawl_at is Some && docs[y].next_crawl_at is Some
                &&& !text_less(now, docs[x].next_crawl_at->0) && !text_less(
                    now,
                    docs[y].next_crawl_at->0,
                )
                &&& !text_less(docs[y].next_crawl_at->0, docs[x].next_crawl_at->0)
            },
{
    let (keys, pick) = (crawl_keys(docs), due_flags(docs, now));
    let order = choose|order: Seq<int>|
        {
            &&& #[trigger] ordered_pick::<(String, String)>(keys, pick, order)
            &&& ids == order.map_values(|i: int| docs[i].doc_id)
        };
    if 0 <= i < docs.len() && recrawl_due(docs[i], now) {
        assert(pick[i]);
        assert(order.contains(i));
        let k = choose|k: int| 0 <= k < order.len() && order[k] == i;
        assert(ids[k] == docs[i].doc_id);
    }
    if 0 <= a < b < ids.len() {
        crate::order::law_picked_rows_never_go_back(keys, pick, order, a, b);
        let (x, y) = (order[a], order[b]);
        assert(recrawl_due(docs[x], now) && recrawl_due(docs[y], now));
        assert(keys[x] == crawl_key(docs[x]) && keys[y] == crawl_key(docs[y]));
        assert(docs[x].doc_id == ids[a] && docs[y].doc_id == ids[b]);
    }
}

/// Deletions are executed in the order of their requests: every intent is listed, and of two listed ones
/// the first was requested no later.
pub proof fn law_deletions_go_oldest_first(
    intents: Seq<DeletionView>,
    res: Seq<DeletionIntent>,
    i: int,
    a: int,
    b: int,
)
    requires
        lists_intents(intents, res),
    ensures
        0 <= i < intents.len() ==> exists|k: int|
            {
                &&& 0 <= k < res.len()
                &&& (#[trigger] res[k]).doc_id@ == intents[i].doc_id
                &&& opt_text(res[k].reason) == intents[i].reason
            },
        0 <= a < b < res.len() ==> exists|x: int, y: int|
            {
                &&& 0 <= x < intents.len() && 0 <= y < intents.len() && x != y
                &&& (#[trigger] intents[x]).doc_id == res[a].doc_id@
                &&& (#[trigger] intents[y]).doc_id == res[b].doc_id@
                &&& !text_less(intents[y].requested_at, intents[x].requested_at)
            },
{
    let (keys, pick) = (intent_keys(intents), all_intents(intents));
    let order = choose|order: Seq<int>|
        {
            &&& #[trigger] ordered_pick::<(String, String)>(keys, pick, order)
            &&& res.len() == order.len()
            &&& forall|i: int|
                0 <= i < res.len() ==> (#[trigger] res[i]).doc_id@ == intents[order[i]].doc_id
                    && opt_text(res[i].reason) == intents[order[i]].reason
        };
    if 0 <= i < intents.len() {
        assert(pick[i]);
        assert(order.contains(i));
        let k = choose|k: int| 0 <= k < order.len() && order[k] == i;
        assert(res[k].doc_id@ == intents[i].doc_id);
    }
    if 0 <= a < b < res.len() {
        crate::order::law_picked_rows_never_go_back(keys, pick, order, a, b);
        let (x, y) = (order[a], order[b]);
        assert(intents[x].doc_id == res[a].doc_id@ && intents[y].doc_id == res[b].doc_id@);
        assert(keys[x].0 == intents[x].requested_at && keys[y].0 == intents[y].requested_at);
    }
}

/// A registered document starts the pipeline: it is new, keeps its addresses, has no chunk, error or date,
/// and its payload goes where its id says; the job that comes with it waits for the first stage and can
/// be claimed at once.
pub proof fn law_registration_starts_the_pipeline(
    docs: Seq<DocumentView>,
    intents: Seq<DeletionView>,
    new: NewDocument,
    data_dir: Seq<char>,
    doc_id: Seq<char>,
    job_id: Seq<char>,
    max_attempts: int,
    now: Seq<char>,
    later: Seq<char>,
)
    requires
        !has_deletion(intents, doc_id),
        data_dir.len() > 0,
        data_dir.last() != '/',
    ensures
        ({
            let d = new_doc(new, data_dir, doc_id, now);
            &&& d.doc_id == doc_id
            &&& d.source_url == new.source_url@
            &&& d.source_url_normalized == new.source_url_normalized@
            &&& d.pipeline_version == new.pipeline_version@
            &&& d.status == DocStatus::New
            &&& d.chunk_count == 0
            &&& d.error is None && d.next_crawl_at is None && d.fetched_at is None
            &&& d.created_at == now
            &&& d.raw_file_path == data_dir + "/raw/"@ + doc_id + ".html.gz"@
        }),
        ({
            let j = new_job(
                job_id,
                doc_id,
                Stage::Scrape,
                new.priority as int,
                max_attempts,
                None,
                now,
            );
            &&& super::jobs::claimable(
                docs.push(new_doc(new, data_dir, doc_id, now)),
                intents,
                j,
                Stage::Scrape,
                later,
            )
            &&& j.job_id == job_id && j.doc_id == doc_id && j.priority == new.priority
            &&& j.attempts == 0 && j.max_attempts == max_attempts
        }),
{
    reveal_strlit("raw");
    reveal_strlit("/raw/");
    let after = docs.push(new_doc(new, data_dir, doc_id, now));
    assert(after[docs.len() as int].doc_id == doc_id);
    let base = joined_path(data_dir, "raw"@);
    assert(base =~= data_dir + seq!['/'] + "raw"@);
    assert(base.last() == 'w');
    assert("/raw/"@ =~= seq!['/'] + "raw"@ + seq!['/']);
    assert(raw_path(data_dir, doc_id) =~= data_dir + "/raw/"@ + doc_id + ".html.gz"@);
}

/// Rejecting and archiving record what happened to a document and change no other: a rejected one has
/// failed the quality gate with its reason, an archived one is worked on and crawled no more.
pub proof fn law_outcomes_are_recorded(
    docs: Seq<DocumentView>,
    intents: Seq<DeletionView>,
    id: Seq<char>,
    reason: Seq<char>,
    now: Seq<char>,
    later: Seq<char>,
    k: int,
)
    requires
        0 <= k < docs.len(),
    ensures
        ({
            let rejecting = on_doc(docs, id, |d: DocumentView| rejected(d, reason, now));
            let archiving = on_doc(docs, id, |d: DocumentView| archived(d, now));
            &&& docs[k].doc_id != id ==> rejecting[k] == docs[k] && archiving[k] == docs[k]
            &&& docs[k].doc_id == id ==> {
                &&& rejecting[k].status == DocStatus::FailedQuality
                &&& rejecting[k].error == Some(reason)
                &&& rejecting[k].source_url == docs[k].source_url
                &&& !recrawl_due(rejecting[k], later)
                &&& archiving[k].status == DocStatus::Archived
                &&& archiving[k].chunk_count == docs[k].chunk_count
                &&& !recrawl_due(archiving[k], later)
            }
            &&& !super::jobs::workable(archiving, intents, id)
        }),
{
    let archiving = on_doc(docs, id, |d: DocumentView| archived(d, now));
    assert forall|i: int| 0 <= i < archiving.len() && (#[trigger] archiving[i]).doc_id == id implies archiving[i].status
        == DocStatus::Archived by {
        assert(docs[i].doc_id == archiving[i].doc_id);
    }
}

/// Registering a document stores it once: a new address is stored under the given id as a new document, with
/// a first job that waits to scrape it; a known address stores nothing and names the stored document.
pub proof fn law_addresses_are_registered_once(
    store: &mut ControlStore,
    data_dir: &str,
    new: &NewDocument,
    doc_id: &str,
    job_id: &str,
    now: &str,
    res: Result<EnqueueOutcome, DbError>,
    i: int,
)
    requires
        call_ensures(insert_new, (store, data_dir, new, doc_id, job_id, now), res),
        old(store).wf(),
    ensures
        0 <= i < old(store).docs().len() && old(store).docs()[i].source_url_normalized
            == new.source_url_normalized@ ==> {
            &&& res matches Ok(EnqueueOutcome::Duplicate { .. })
            &&& res->Ok_0.document() == old(store).docs()[i].doc_id
            &&& final(store).docs() == old(store).docs()
            &&& final(store).job_list() == old(store).job_list()
        },
        (forall|k: int|
            0 <= k < old(store).docs().len() ==> (#[trigger] old(store).docs()[k]).source_url_normalized
                != new.source_url_normalized@ && old(store).docs()[k].doc_id != doc_id@) && (forall|k: int|
            0 <= k < old(store).job_list().len() ==> (#[trigger] old(store).job_list()[k]).job_id
                != job_id@) ==> {
            let (docs, jobs) = (final(store).docs(), final(store).job_list());
            &&& res matches Ok(EnqueueOutcome::Enqueued { .. })
            &&& docs.drop_last() == old(store).docs()
            &&& docs.last().doc_id == doc_id@
            &&& docs.last().status == DocStatus::New
            &&& docs.last().source_url == new.source_url@
            &&& docs.last().source_url_normalized == new.source_url_normalized@
            &&& docs.last().chunk_count == 0
            &&& docs.last().created_at == now@
            &&& jobs.drop_last() == old(store).job_list()
            &&& jobs.last().job_id == job_id@
            &&& jobs.last().doc_id == doc_id@
            &&& jobs.last().stage == Stage::Scrape
            &&& jobs.last().status == JobStatus::Pending
            &&& jobs.last().attempts == 0
            &&& jobs.last().priority == new.priority
            &&& jobs.last().max_attempts == old(store).default_max_attempts
        },
{
    let docs = old(store).docs();
    if 0 <= i < docs.len() && docs[i].source_url_normalized == new.source_url_normalized@ {
        assert(has_url(docs, new.source_url_normalized@));
        let k = choose|k: int|
            {
                &&& 0 <= k < docs.len()
                &&& (#[trigger] docs[k]).source_url_normalized == new.source_url_normalized@
                &&& docs[k].doc_id == res->Ok_0.document()
            };
        assert(docs[k].source_url_normalized == docs[i].source_url_normalized);
        assert(k == i);
    }
    if final(store).docs().len() == docs.len() + 1 {
        assert(final(store).docs().drop_last() =~= docs);
        assert(final(store).job_list().drop_last() =~= old(store).job_list());
    }
}

/// Deleting a document deletes its jobs and the intent with it, and nothing of another document.
pub proof fn law_deletions_take_one_document(
    store: &mut ControlStore,
    doc_id: &str,
    res: bool,
    i: int,
    d: DocumentView,
    j: JobView,
)
    requires
        call_ensures(execute_deletion, (store, doc_id), res),
    ensures
        0 <= i < old(store).docs().len() && old(store).docs()[i].doc_id == doc_id@ ==> res,
        0 <= i < final(store).docs().len() ==> final(store).docs()[i].doc_id != doc_id@,
        0 <= i < final(store).job_list().len() ==> final(store).job_list()[i].doc_id != doc_id@,
        0 <= i < final(store).intents().len() ==> final(store).intents()[i].doc_id != doc_id@,
        d.doc_id != doc_id@ ==> (final(store).docs().contains(d) <==> old(store).docs().contains(d)),
        j.doc_id != doc_id@ ==> (final(store).job_list().contains(j) <==> old(store).job_list().contains(j)),
{
    let id = doc_id@;
    law_deletion_is_complete_and_repeatable(
        old(store).docs(),
        old(store).job_list(),
        old(store).intents(),
        id,
    );
    if 0 <= i < final(store).docs().len() {
        assert(final(store).docs().contains(final(store).docs()[i]));
    }
    if 0 <= i < final(store).job_list().len() {
        assert(final(store).job_list().contains(final(store).job_list()[i]));
    }
    if 0 <= i < final(store).intents().len() {
        assert(final(store).intents()[i].doc_id != id) by {
            if final(store).intents()[i].doc_id == id {
                assert(has_deletion(final(store).intents(), id));
            }
        }
    }
}

/// The documents due are those whose time has come, the one that waits longest first; what was rejected, given
/// up or archived is not due, nor is what has no time. Intents are read the oldest first.
pub proof fn law_due_documents_are_read(
    store: &ControlStore,
    now: &str,
    due: Vec<String>,
    intents: Vec<DeletionIntent>,
    i: int,
)
    requires
        call_ensures(due_for_recrawl, (store, now), due),
        call_ensures(pending_deletions, (store,), intents),
    ensures
        0 <= i < store.docs().len() && store.docs()[i].next_crawl_at is Some && !text_less(
            now@,
            store.docs()[i].next_crawl_at->0,
        ) && store.docs()[i].status != DocStatus::Failed && store.docs()[i].status
            != DocStatus::FailedQuality && store.docs()[i].status != DocStatus::Archived ==> texts(
            due@,
        ).contains(store.docs()[i].doc_id),
        0 <= i < due@.len() ==> exists|x: int|
            {
                &&& 0 <= x < store.docs().len()
                &&& (#[trigger] store.docs()[x]).doc_id == due@[i]@
                &&& store.docs()[x].next_crawl_at is Some
                &&& !text_less(now@, store.docs()[x].next_crawl_at->0)
                &&& store.docs()[x].status != DocStatus::Failed
                &&& store.docs()[x].status != DocStatus::FailedQuality
                &&& store.docs()[x].status != DocStatus::Archived
            },
        0 <= i < store.intents().len() ==> exists|k: int|
            0 <= k < intents@.len() && (#[trigger] intents@[k]).doc_id@ == store.intents()[i].doc_id
                && opt_text(intents@[k].reason) == store.intents()[i].reason,
{
    let docs = store.docs();
    law_due_documents_are_listed(docs, now@, texts(due@), i, 0, 0);
    law_deletions_go_oldest_first(store.intents(), intents@, i, 0, 0);
    if 0 <= i < due@.len() {
        let ids = texts(due@);
        assert(lists_due(docs, now@, ids));
        let order = choose|order: Seq<int>|
            {
                &&& #[trigger] ordered_pick::<(String, String)>(
                    crawl_keys(docs),
                    due_flags(docs, now@),
                    order,
                )
                &&& ids == order.map_values(|i: int| docs[i].doc_id)
            };
        assert(ids.len() == due@.len());
        assert(ids == order.map_values(|i: int| docs[i].doc_id));
        assert(order.len() == ids.len());
        assert(order.contains(order[i]));
        assert(ids[i] == docs[order[i]].doc_id);
        assert(ids[i] == due@[i]@);
        assert(due_flags(docs, now@)[order[i]]);
        assert(docs[order[i]].doc_id == due@[i]@);
    }
}

/// A rejection touches one document: it has failed the quality gate, for the reason given, and the others and
/// all jobs stay as they are.
pub proof fn law_rejections_touch_one_document(
    store: &mut ControlStore,
    doc_id: &str,
    reason: &str,
    now: &str,
    i: int,
)
    requires
        call_ensures(mark_quality_rejected, (store, doc_id, reason, now), ()),
        0 <= i < old(store).docs().len(),
    ensures
        final(store).docs().len() == old(store).docs().len(),
        final(store).job_list() == old(store).job_list(),
        old(store).docs()[i].doc_id == doc_id@ ==> final(store).docs()[i].status
            == DocStatus::FailedQuality && final(store).docs()[i].error == Some(reason@) && final(store).docs()[i].doc_id == doc_id@ && final(store).docs()[i].last_processed_at == Some(now@),
        old(store).docs()[i].doc_id != doc_id@ ==> final(store).docs()[i] == old(store).docs()[i],
{
}

/// A document is found by its address, and where none has it none is found.
pub proof fn law_documents_are_found_by_address(
    store: &ControlStore,
    url: &str,
    res: Option<String>,
    i: int,
)
    requires
        call_ensures(find_id_by_url, (store, url), res),
        docs_distinct(store.docs()),
    ensures
        0 <= i < store.docs().len() && store.docs()[i].source_url_normalized == url@ ==> (
        res matches Some(id) && id@ == store.docs()[i].doc_id),
        (forall|k: int|
            0 <= k < store.docs().len() ==> (#[trigger] store.docs()[k]).source_url_normalized != url@)
            ==> res is None,
{
    let docs = store.docs();
    if 0 <= i < docs.len() && docs[i].source_url_normalized == url@ {
        assert(has_url(docs, url@));
        let k = choose|k: int|
            {
                &&& 0 <= k < docs.len()
                &&& (#[trigger] docs[k]).source_url_normalized == url@
                &&& docs[k].doc_id == res->0@
            };
        assert(docs[k].source_url_normalized == docs[i].source_url_normalized);
        assert(k == i);
    }
}

/// A document is found by its content, the first that has it, and where none has it none is found.
pub proof fn law_documents_are_found_by_content(
    store: &ControlStore,
    hash: &str,
    res: Option<String>,
    i: int,
)
    requires
        call_ensures(find_id_by_content_hash, (store, hash), res),
    ensures
        0 <= i < store.docs().len() && store.docs()[i].clean_content_hash == Some(hash@) && (forall|
            k: int,
        |
            0 <= k < i ==> (#[trigger] store.docs()[k]).clean_content_hash != Some(hash@)) ==> (
        res matches Some(id) && id@ == store.docs()[i].doc_id),
        (forall|k: int|
            0 <= k < store.docs().len() ==> (#[trigger] store.docs()[k]).clean_content_hash != Some(
                hash@,
            )) ==> res is None,
{
}

} // verus!
