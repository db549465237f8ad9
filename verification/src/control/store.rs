//! The rows of the control plane and what holds of them.

use vstd::prelude::*;

use super::models::{DocStatus, JobStatus, Stage};
use crate::rows::Owned;
use crate::text::{opt_text, same};

verus! {

/// A job.
#[derive(Debug)]
pub struct JobRow {
    /// The job.
    pub job_id: String,
    /// The document that the job advances.
    pub doc_id: String,
    /// The stage that the job runs.
    pub stage: Stage,
    /// The execution state.
    pub status: JobStatus,
    /// The priority; lower is sooner.
    pub priority: i64,
    /// The ended executions.
    pub attempts: i64,
    /// The executions allowed.
    pub max_attempts: i64,
    /// When the job may run again, where it waits.
    pub next_attempt_at: Option<String>,
    /// Who runs the job.
    pub lease_owner: Option<String>,
    /// Until when the run is leased.
    pub lease_expires_at: Option<String>,
    /// The last failure.
    pub last_error: Option<String>,
    /// JSON stage parameters.
    pub params: Option<String>,
    /// When the job was created.
    pub created_at: String,
    /// When the job last changed.
    pub updated_at: String,
}

impl Owned for JobRow {
    open spec fn owner(self) -> Seq<char> {
        self.doc_id@
    }

    fn owned_by(&self, id: &str) -> bool {
        same(self.doc_id.as_str(), id)
    }
}

/// The model of a [`JobRow`].
#[verifier::ext_equal]
pub struct JobView {
    pub job_id: Seq<char>,
    pub doc_id: Seq<char>,
    pub stage: Stage,
    pub status: JobStatus,
    pub priority: int,
    pub attempts: int,
    pub max_attempts: int,
    pub next_attempt_at: Option<Seq<char>>,
    pub lease_owner: Option<Seq<char>>,
    pub lease_expires_at: Option<Seq<char>>,
    pub last_error: Option<Seq<char>>,
    pub params: Option<Seq<char>>,
    pub created_at: Seq<char>,
    pub updated_at: Seq<char>,
}

impl View for JobRow {
    type V = JobView;

    open spec fn view(&self) -> JobView {
        JobView {
            job_id: self.job_id@,
            doc_id: self.doc_id@,
            stage: self.stage,
            status: self.status,
            priority: self.priority as int,
            attempts: self.attempts as int,
            max_attempts: self.max_attempts as int,
            next_attempt_at: opt_text(self.next_attempt_at),
            lease_owner: opt_text(self.lease_owner),
            lease_expires_at: opt_text(self.lease_expires_at),
            last_error: opt_text(self.last_error),
            params: opt_text(self.params),
            created_at: self.created_at@,
            updated_at: self.updated_at@,
        }
    }
}

/// A document.
#[derive(Debug, Clone)]
pub struct Document {
    /// The document.
    pub doc_id: String,
    /// The URL as given.
    pub source_url: String,
    /// The normalized URL, by which documents are told apart.
    pub source_url_normalized: String,
    /// Where the raw payload lives.
    pub raw_file_path: String,
    /// Where the cleaned Markdown lives, once it is there.
    pub clean_file_path: Option<String>,
    /// The hash of the cleaned content.
    pub clean_content_hash: Option<String>,
    /// Last completed milestone.
    pub status: DocStatus,
    /// Page title.
    pub title: Option<String>,
    /// Byline.
    pub author: Option<String>,
    /// Detected language.
    pub language: Option<String>,
    /// Clean-text word count.
    pub word_count: Option<i64>,
    /// Clean-text token count.
    pub token_count: Option<i64>,
    /// Chunks written.
    pub chunk_count: i64,
    /// Last fetch's HTTP status.
    pub http_status: Option<i64>,
    /// Conditional re-crawl validator.
    pub etag: Option<String>,
    /// Conditional re-crawl validator.
    pub last_modified: Option<String>,
    /// Last fetch time.
    pub fetched_at: Option<String>,
    /// Next re-crawl due date; none means never.
    pub next_crawl_at: Option<String>,
    /// Row creation time.
    pub created_at: String,
    /// The time of the last transition.
    pub last_processed_at: Option<String>,
    /// Last failure detail.
    pub error: Option<String>,
    /// The pipeline version that the row was made by.
    pub pipeline_version: String,
}

impl Owned for Document {
    open spec fn owner(self) -> Seq<char> {
        self.doc_id@
    }

    fn owned_by(&self, id: &str) -> bool {
        same(self.doc_id.as_str(), id)
    }
}

/// The model of a [`Document`].
#[verifier::ext_equal]
pub struct DocumentView {
    pub doc_id: Seq<char>,
    pub source_url: Seq<char>,
    pub source_url_normalized: Seq<char>,
    pub raw_file_path: Seq<char>,
    pub clean_file_path: Option<Seq<char>>,
    pub clean_content_hash: Option<Seq<char>>,
    pub status: DocStatus,
    pub title: Option<Seq<char>>,
    pub author: Option<Seq<char>>,
    pub language: Option<Seq<char>>,
    pub word_count: Option<i64>,
    pub token_count: Option<i64>,
    pub chunk_count: i64,
    pub http_status: Option<i64>,
    pub etag: Option<Seq<char>>,
    pub last_modified: Option<Seq<char>>,
    pub fetched_at: Option<Seq<char>>,
    pub next_crawl_at: Option<Seq<char>>,
    pub created_at: Seq<char>,
    pub last_processed_at: Option<Seq<char>>,
    pub error: Option<Seq<char>>,
    pub pipeline_version: Seq<char>,
}

impl View for Document {
    type V = DocumentView;

    open spec fn view(&self) -> DocumentView {
        DocumentView {
            doc_id: self.doc_id@,
            source_url: self.source_url@,
            source_url_normalized: self.source_url_normalized@,
            raw_file_path: self.raw_file_path@,
            clean_file_path: opt_text(self.clean_file_path),
            clean_content_hash: opt_text(self.clean_content_hash),
            status: self.status,
            title: opt_text(self.title),
            author: opt_text(self.author),
            language: opt_text(self.language),
            word_count: self.word_count,
            token_count: self.token_count,
            chunk_count: self.chunk_count,
            http_status: self.http_status,
            etag: opt_text(self.etag),
            last_modified: opt_text(self.last_modified),
            fetched_at: opt_text(self.fetched_at),
            next_crawl_at: opt_text(self.next_crawl_at),
            created_at: self.created_at@,
            last_processed_at: opt_text(self.last_processed_at),
            error: opt_text(self.error),
            pipeline_version: self.pipeline_version@,
        }
    }
}

/// A recorded intent to delete a document.
#[derive(Debug)]
pub struct DeletionRow {
    /// The document.
    pub doc_id: String,
    /// Why, if the requester said.
    pub reason: Option<String>,
    /// When the intent was recorded.
    pub requested_at: String,
}

impl Owned for DeletionRow {
    open spec fn owner(self) -> Seq<char> {
        self.doc_id@
    }

    fn owned_by(&self, id: &str) -> bool {
        same(self.doc_id.as_str(), id)
    }
}

/// The model of a [`DeletionRow`].
#[verifier::ext_equal]
pub struct DeletionView {
    pub doc_id: Seq<char>,
    pub reason: Option<Seq<char>>,
    pub requested_at: Seq<char>,
}

impl View for DeletionRow {
    type V = DeletionView;

    open spec fn view(&self) -> DeletionView {
        DeletionView {
            doc_id: self.doc_id@,
            reason: opt_text(self.reason),
            requested_at: self.requested_at@,
        }
    }
}

/// The documents, their jobs, and the recorded deletion intents.
#[derive(Debug)]
pub struct ControlStore {
    /// The documents.
    pub documents: Vec<Document>,
    /// The jobs.
    pub jobs: Vec<JobRow>,
    /// The deletion intents.
    pub deletions: Vec<DeletionRow>,
    /// The executions that a new job is allowed.
    pub default_max_attempts: i64,
}

/// Whether a document is registered.
pub open spec fn has_doc(docs: Seq<DocumentView>, id: Seq<char>) -> bool {
    exists|i: int| 0 <= i < docs.len() && (#[trigger] docs[i]).doc_id == id
}

/// Whether the deletion of a document is intended.
pub open spec fn has_deletion(deletions: Seq<DeletionView>, id: Seq<char>) -> bool {
    exists|i: int| 0 <= i < deletions.len() && (#[trigger] deletions[i]).doc_id == id
}

/// Whether no two documents share their id or normalized URL.
pub open spec fn docs_distinct(docs: Seq<DocumentView>) -> bool {
    forall|i: int, j: int|
        0 <= i < j < docs.len() ==> (#[trigger] docs[i]).doc_id != (#[trigger] docs[j]).doc_id
            && docs[i].source_url_normalized != docs[j].source_url_normalized
}

/// Whether no two jobs share their id, nor their document and stage.
pub open spec fn jobs_distinct(jobs: Seq<JobView>) -> bool {
    forall|i: int, j: int|
        0 <= i < j < jobs.len() ==> (#[trigger] jobs[i]).job_id != (#[trigger] jobs[j]).job_id && !(
        jobs[i].doc_id == jobs[j].doc_id && jobs[i].stage == jobs[j].stage)
}

/// Whether the document of every job is registered.
pub open spec fn jobs_owned(jobs: Seq<JobView>, docs: Seq<DocumentView>) -> bool {
    forall|i: int| 0 <= i < jobs.len() ==> has_doc(docs, (#[trigger] jobs[i]).doc_id)
}

/// Whether each deletion intent is of a registered document, and each document has at most one.
pub open spec fn deletions_owned(deletions: Seq<DeletionView>, docs: Seq<DocumentView>) -> bool {
    &&& forall|i: int|
        0 <= i < deletions.len() ==> has_doc(docs, (#[trigger] deletions[i]).doc_id)
    &&& forall|i: int, j: int|
        0 <= i < j < deletions.len() ==> (#[trigger] deletions[i]).doc_id != (
        #[trigger] deletions[j]).doc_id
}

impl ControlStore {
    /// The models of the documents.
    pub open spec fn docs(&self) -> Seq<DocumentView> {
        self.documents@.map_values(|d: Document| d@)
    }

    /// The models of the jobs.
    pub open spec fn job_list(&self) -> Seq<JobView> {
        self.jobs@.map_values(|j: JobRow| j@)
    }

    /// The models of the deletion intents.
    pub open spec fn intents(&self) -> Seq<DeletionView> {
        self.deletions@.map_values(|d: DeletionRow| d@)
    }

    /// What holds of every store: documents are distinct by id and normalized URL, there is one job
    /// per document and stage, and jobs and deletion intents belong to registered documents.
    pub open spec fn wf(&self) -> bool {
        &&& docs_distinct(self.docs())
        &&& jobs_distinct(self.job_list())
        &&& jobs_owned(self.job_list(), self.docs())
        &&& deletions_owned(self.intents(), self.docs())
    }

    /// An empty store, whose jobs are allowed `default_max_attempts` executions.
    pub fn new(default_max_attempts: i64) -> (res: ControlStore)
        ensures
            res.wf(),
            res.docs() == Seq::<DocumentView>::empty(),
            res.job_list() == Seq::<JobView>::empty(),
            res.intents() == Seq::<DeletionView>::empty(),
            res.default_max_attempts == default_max_attempts,
    {
        let res = ControlStore {
            documents: Vec::new(),
            jobs: Vec::new(),
            deletions: Vec::new(),
            default_max_attempts,
        };
        assert(res.docs() =~= Seq::empty());
        assert(res.job_list() =~= Seq::empty());
        assert(res.intents() =~= Seq::empty());
        res
    }

    /// The index of a document.
    pub(crate) fn doc_index(&self, doc_id: &str) -> (res: Option<usize>)
        ensures
            match res {
                Some(i) => {
                    &&& i < self.documents@.len()
                    &&& self.docs()[i as int].doc_id == doc_id@
                    &&& has_doc(self.docs(), doc_id@)
                },
                None => !has_doc(self.docs(), doc_id@),
            },
    {
        let ghost docs = self.docs();
        let mut i: usize = 0;
        while i < self.documents.len()
            invariant
                i <= self.documents@.len(),
                docs == self.docs(),
                forall|j: int| 0 <= j < i ==> (#[trigger] docs[j]).doc_id != doc_id@,
            decreases self.documents@.len() - i,
        {
            assert(docs[i as int] == self.documents@[i as int]@);
            if same(self.documents[i].doc_id.as_str(), doc_id) {
                return Some(i);
            }
            i = i + 1;
        }
        None
    }

    /// Whether the deletion of a document is intended.
    pub(crate) fn deletion_intended(&self, doc_id: &str) -> (res: bool)
        ensures
            res == has_deletion(self.intents(), doc_id@),
    {
        let ghost intents = self.intents();
        let mut i: usize = 0;
        while i < self.deletions.len()
            invariant
                i <= self.deletions@.len(),
                intents == self.intents(),
                forall|j: int| 0 <= j < i ==> (#[trigger] intents[j]).doc_id != doc_id@,
            decreases self.deletions@.len() - i,
        {
            assert(intents[i as int] == self.deletions@[i as int]@);
            if same(self.deletions[i].doc_id.as_str(), doc_id) {
                return true;
            }
            i = i + 1;
        }
        false
    }

    /// Whether what must hold of a store holds of this one.
    pub fn is_valid(&self) -> (res: bool)
        ensures
            res == self.wf(),
    {
        self.valid_docs() && self.valid_jobs() && self.valid_deletions()
    }

    fn valid_docs(&self) -> (res: bool)
        ensures
            res == docs_distinct(self.docs()),
    {
        let ghost docs = self.docs();
        let mut j: usize = 0;
        while j < self.documents.len()
            invariant
                j <= self.documents@.len(),
                docs == self.docs(),
                docs_distinct(docs.take(j as int)),
            decreases self.documents@.len() - j,
        {
            let mut i: usize = 0;
            while i < j
                invariant
                    i <= j < self.documents@.len(),
                    docs == self.docs(),
                    forall|a: int|
                        0 <= a < i ==> (#[trigger] docs[a]).doc_id != docs[j as int].doc_id
                            && docs[a].source_url_normalized
                            != docs[j as int].source_url_normalized,
                decreases j - i,
            {
                assert(docs[i as int] == self.documents@[i as int]@ && docs[j as int]
                    == self.documents@[j as int]@);
                if same(
                    self.documents[i].doc_id.as_str(),
                    self.documents[j].doc_id.as_str(),
                ) || same(
                    self.documents[i].source_url_normalized.as_str(),
                    self.documents[j].source_url_normalized.as_str(),
                ) {
                    assert(!docs_distinct(docs));
                    return false;
                }
                i = i + 1;
            }
            proof {
                let next = docs.take(j + 1);
                assert forall|a: int, b: int| 0 <= a < b < next.len() implies (
                #[trigger] next[a]).doc_id != (#[trigger] next[b]).doc_id
                    && next[a].source_url_normalized != next[b].source_url_normalized by {
                    assert(next[a] == docs[a] && next[b] == docs[b]);
                    if b < j {
                        assert(docs.take(j as int)[a] == docs[a] && docs.take(j as int)[b]
                            == docs[b]);
                    }
                }
            }
            j = j + 1;
        }
        assert(docs.take(j as int) =~= docs);
        true
    }

    fn valid_jobs(&self) -> (res: bool)
        ensures
            res == (jobs_distinct(self.job_list()) && jobs_owned(self.job_list(), self.docs())),
    {
        let ghost jobs = self.job_list();
        let mut j: usize = 0;
        while j < self.jobs.len()
            invariant
                j <= self.jobs@.len(),
                jobs == self.job_list(),
                jobs_distinct(jobs.take(j as int)),
                jobs_owned(jobs.take(j as int), self.docs()),
            decreases self.jobs@.len() - j,
        {
            assert(jobs[j as int] == self.jobs@[j as int]@);
            if self.doc_index(self.jobs[j].doc_id.as_str()).is_none() {
                assert(!has_doc(self.docs(), jobs[j as int].doc_id));
                return false;
            }
            let mut i: usize = 0;
            while i < j
                invariant
                    i <= j < self.jobs@.len(),
                    jobs == self.job_list(),
                    forall|a: int|
                        0 <= a < i ==> (#[trigger] jobs[a]).job_id != jobs[j as int].job_id && !(
                        jobs[a].doc_id == jobs[j as int].doc_id && jobs[a].stage
                            == jobs[j as int].stage),
                decreases j - i,
            {
                assert(jobs[i as int] == self.jobs@[i as int]@ && jobs[j as int]
                    == self.jobs@[j as int]@);
                if same(self.jobs[i].job_id.as_str(), self.jobs[j].job_id.as_str()) || (
                self.jobs[i].stage == self.jobs[j].stage && same(
                    self.jobs[i].doc_id.as_str(),
                    self.jobs[j].doc_id.as_str(),
                )) {
                    assert(!jobs_distinct(jobs));
                    return false;
                }
                i = i + 1;
            }
            proof {
                let next = jobs.take(j + 1);
                assert forall|a: int, b: int| 0 <= a < b < next.len() implies (
                #[trigger] next[a]).job_id != (#[trigger] next[b]).job_id && !(next[a].doc_id
                    == next[b].doc_id && next[a].stage == next[b].stage) by {
                    assert(next[a] == jobs[a] && next[b] == jobs[b]);
                    if b < j {
                        assert(jobs.take(j as int)[a] == jobs[a] && jobs.take(j as int)[b]
                            == jobs[b]);
                    }
                }
                assert forall|a: int| 0 <= a < next.len() implies has_doc(
                    self.docs(),
                    (#[trigger] next[a]).doc_id,
                ) by {
                    if a < j {
                        assert(jobs.take(j as int)[a] == next[a]);
                    }
                }
            }
            j = j + 1;
        }
        assert(jobs.take(j as int) =~= jobs);
        true
    }

    fn valid_deletions(&self) -> (res: bool)
        ensures
            res == deletions_owned(self.intents(), self.docs()),
    {
        let ghost intents = self.intents();
        let mut j: usize = 0;
        while j < self.deletions.len()
            invariant
                j <= self.deletions@.len(),
                intents == self.intents(),
                deletions_owned(intents.take(j as int), self.docs()),
            decreases self.deletions@.len() - j,
        {
            assert(intents[j as int] == self.deletions@[j as int]@);
            if self.doc_index(self.deletions[j].doc_id.as_str()).is_none() {
                assert(!has_doc(self.docs(), intents[j as int].doc_id));
                return false;
            }
            let mut i: usize = 0;
            while i < j
                invariant
                    i <= j < self.deletions@.len(),
                    intents == self.intents(),
                    forall|a: int|
                        0 <= a < i ==> (#[trigger] intents[a]).doc_id != intents[j as int].doc_id,
                decreases j - i,
            {
                assert(intents[i as int] == self.deletions@[i as int]@ && intents[j as int]
                    == self.deletions@[j as int]@);
                if same(self.deletions[i].doc_id.as_str(), self.deletions[j].doc_id.as_str()) {
                    assert(!deletions_owned(intents, self.docs()));
                    return false;
                }
                i = i + 1;
            }
            proof {
                let next = intents.take(j + 1);
                assert forall|a: int, b: int| 0 <= a < b < next.len() implies (
                #[trigger] next[a]).doc_id != (#[trigger] next[b]).doc_id by {
                    assert(next[a] == intents[a] && next[b] == intents[b]);
                    if b < j {
                        assert(intents.take(j as int)[a] == intents[a] && intents.take(j as int)[b]
                            == intents[b]);
                    }
                }
                assert forall|a: int| 0 <= a < next.len() implies has_doc(
                    self.docs(),
                    (#[trigger] next[a]).doc_id,
                ) by {
                    if a < j {
                        assert(intents.take(j as int)[a] == next[a]);
                    }
                }
            }
            j = j + 1;
        }
        assert(intents.take(j as int) =~= intents);
        true
    }
}

} // verus!
