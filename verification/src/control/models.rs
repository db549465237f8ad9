//! Row types that cross module boundaries, and the shape of the pipeline: stage order and
//! milestones.

use vstd::prelude::*;

use crate::text::{opt_text, same};

verus! {

/// Priority used when a document has no SCRAPE job to inherit from.
pub const DEFAULT_JOB_PRIORITY: i64 = 5;

/// Pipeline stages: one job per document and stage.
#[derive(Debug, Clone, Copy, PartialEq, Eq, PartialOrd, Ord, Hash, Structural)]
pub enum Stage {
    /// Fetch and store raw HTML.
    Scrape,
    /// Clean, deduplicate, quality and language gate.
    Clean,
    /// Chunk and vectorize.
    Vectorize,
    /// Triplet extraction and entity resolution.
    Extract,
}

impl Stage {
    /// The stored discriminator.
    pub open spec fn name(self) -> Seq<char> {
        match self {
            Stage::Scrape => "SCRAPE"@,
            Stage::Clean => "CLEAN"@,
            Stage::Vectorize => "VECTORIZE"@,
            Stage::Extract => "EXTRACT"@,
        }
    }

    /// The stage after this one.
    pub open spec fn next(self) -> Option<Stage> {
        match self {
            Stage::Scrape => Some(Stage::Clean),
            Stage::Clean => Some(Stage::Vectorize),
            Stage::Vectorize => Some(Stage::Extract),
            Stage::Extract => None,
        }
    }

    /// The document status that completing this stage sets.
    pub open spec fn reached(self) -> DocStatus {
        match self {
            Stage::Scrape => DocStatus::Scraped,
            Stage::Clean => DocStatus::Cleaned,
            Stage::Vectorize => DocStatus::Vectorized,
            Stage::Extract => DocStatus::Indexed,
        }
    }

    /// All stages in pipeline order.
    pub fn all() -> (res: [Stage; 4])
        ensures
            res@ == seq![Stage::Scrape, Stage::Clean, Stage::Vectorize, Stage::Extract],
    {
        let res = [Stage::Scrape, Stage::Clean, Stage::Vectorize, Stage::Extract];
        assert(res@ =~= seq![Stage::Scrape, Stage::Clean, Stage::Vectorize, Stage::Extract]);
        res
    }

    /// The `jobs.stage` discriminator.
    pub fn as_str(self) -> (res: &'static str)
        ensures
            res@ == self.name(),
    {
        match self {
            Stage::Scrape => "SCRAPE",
            Stage::Clean => "CLEAN",
            Stage::Vectorize => "VECTORIZE",
            Stage::Extract => "EXTRACT",
        }
    }

    /// The next stage in the pipeline; none after EXTRACT.
    pub fn successor(self) -> (res: Option<Stage>)
        ensures
            res == self.next(),
    {
        match self {
            Stage::Scrape => Some(Stage::Clean),
            Stage::Clean => Some(Stage::Vectorize),
            Stage::Vectorize => Some(Stage::Extract),
            Stage::Extract => None,
        }
    }

    /// The document status that completing this stage sets.
    pub fn milestone_status(self) -> (res: DocStatus)
        ensures
            res == self.reached(),
    {
        match self {
            Stage::Scrape => DocStatus::Scraped,
            Stage::Clean => DocStatus::Cleaned,
            Stage::Vectorize => DocStatus::Vectorized,
            Stage::Extract => DocStatus::Indexed,
        }
    }

    /// The discriminator of the document milestone that completing this stage sets.
    pub fn milestone(self) -> (res: &'static str)
        ensures
            res@ == self.reached().name(),
    {
        self.milestone_status().as_str()
    }
}

/// What a completed job means for its document and the chain.
#[derive(Debug, Clone, Copy, PartialEq, Eq, Structural)]
pub enum Completion {
    /// Advance the milestone and enqueue the job of the next stage.
    Chain,
    /// Advance the milestone; the chain ends here.
    Milestone,
    /// Complete the job only: the stage recorded the document's outcome itself.
    Done,
}

/// Document registry states.
#[derive(Debug, Clone, Copy, PartialEq, Eq, Hash, Structural)]
pub enum DocStatus {
    /// Enqueued; no milestone completed yet.
    New,
    /// Raw payload stored.
    Scraped,
    /// Cleaned Markdown stored.
    Cleaned,
    /// Chunked and vectorized.
    Vectorized,
    /// Graph extracted; fully indexed.
    Indexed,
    /// The quality gate rejected the document.
    FailedQuality,
    /// A job went `DEAD`.
    Failed,
    /// User-marked retention state; chunks stay queryable.
    Archived,
}

impl DocStatus {
    /// The stored discriminator.
    pub open spec fn name(self) -> Seq<char> {
        match self {
            DocStatus::New => "NEW"@,
            DocStatus::Scraped => "SCRAPED"@,
            DocStatus::Cleaned => "CLEANED"@,
            DocStatus::Vectorized => "VECTORIZED"@,
            DocStatus::Indexed => "INDEXED"@,
            DocStatus::FailedQuality => "FAILED_QUALITY"@,
            DocStatus::Failed => "FAILED"@,
            DocStatus::Archived => "ARCHIVED"@,
        }
    }

    /// The `documents.status` discriminator.
    pub fn as_str(self) -> (res: &'static str)
        ensures
            res@ == self.name(),
    {
        match self {
            DocStatus::New => "NEW",
            DocStatus::Scraped => "SCRAPED",
            DocStatus::Cleaned => "CLEANED",
            DocStatus::Vectorized => "VECTORIZED",
            DocStatus::Indexed => "INDEXED",
            DocStatus::FailedQuality => "FAILED_QUALITY",
            DocStatus::Failed => "FAILED",
            DocStatus::Archived => "ARCHIVED",
        }
    }

    /// The status of this discriminator.
    pub fn from_str(s: &str) -> (res: Result<DocStatus, ()>)
        ensures
            match res {
                Ok(status) => status.name() == s@,
                Err(_) => forall|status: DocStatus| #[trigger] status.name() != s@,
            },
    {
        if same(s, "NEW") {
            Ok(DocStatus::New)
        } else if same(s, "SCRAPED") {
            Ok(DocStatus::Scraped)
        } else if same(s, "CLEANED") {
            Ok(DocStatus::Cleaned)
        } else if same(s, "VECTORIZED") {
            Ok(DocStatus::Vectorized)
        } else if same(s, "INDEXED") {
            Ok(DocStatus::Indexed)
        } else if same(s, "FAILED_QUALITY") {
            Ok(DocStatus::FailedQuality)
        } else if same(s, "FAILED") {
            Ok(DocStatus::Failed)
        } else if same(s, "ARCHIVED") {
            Ok(DocStatus::Archived)
        } else {
            Err(())
        }
    }
}

/// The discriminators of two document states are the same only where the states are, so that a
/// stored state is read back as it was.
pub proof fn law_status_names_are_distinct(a: DocStatus, b: DocStatus)
    ensures
        a.name() == b.name() <==> a == b,
{
    reveal_strlit("NEW");
    reveal_strlit("SCRAPED");
    reveal_strlit("CLEANED");
    reveal_strlit("VECTORIZED");
    reveal_strlit("INDEXED");
    reveal_strlit("FAILED_QUALITY");
    reveal_strlit("FAILED");
    reveal_strlit("ARCHIVED");
    assert("NEW"@.len() == 3 && "SCRAPED"@.len() == 7 && "CLEANED"@.len() == 7);
    assert("VECTORIZED"@.len() == 10 && "INDEXED"@.len() == 7 && "FAILED_QUALITY"@.len() == 14);
    assert("FAILED"@.len() == 6 && "ARCHIVED"@.len() == 8);
    assert("SCRAPED"@[0] == 'S' && "CLEANED"@[0] == 'C' && "INDEXED"@[0] == 'I');
}

/// The discriminators of two stages are the same only where the stages are.
pub proof fn law_stage_names_are_distinct(a: Stage, b: Stage)
    ensures
        a.name() == b.name() <==> a == b,
{
    reveal_strlit("SCRAPE");
    reveal_strlit("CLEAN");
    reveal_strlit("VECTORIZE");
    reveal_strlit("EXTRACT");
    assert("SCRAPE"@.len() == 6 && "CLEAN"@.len() == 5);
    assert("VECTORIZE"@.len() == 9 && "EXTRACT"@.len() == 7);
}

/// The pipeline runs SCRAPE, CLEAN, VECTORIZE, EXTRACT and ends: every stage is reached from SCRAPE
/// and none follows EXTRACT.
pub proof fn law_pipeline_order()
    ensures
        Stage::Scrape.next() == Some(Stage::Clean),
        Stage::Clean.next() == Some(Stage::Vectorize),
        Stage::Vectorize.next() == Some(Stage::Extract),
        Stage::Extract.next() is None,
{
}

/// A document's state tells the last stage that was completed: each stage has a milestone of its own,
/// which is none of the states in which nothing was completed or processing ended early.
pub proof fn law_milestones_tell_the_stage(a: Stage, b: Stage)
    ensures
        a.reached() == b.reached() <==> a == b,
        a.reached() != DocStatus::New,
        a.reached() != DocStatus::Failed,
        a.reached() != DocStatus::FailedQuality,
        a.reached() != DocStatus::Archived,
        a.reached() == DocStatus::Indexed <==> a.next() is None,
        a.reached() == DocStatus::Scraped <==> a == Stage::Scrape,
        a.reached() == DocStatus::Cleaned <==> a == Stage::Clean,
        a.reached() == DocStatus::Vectorized <==> a == Stage::Vectorize,
{
}

/// One audit record.
#[derive(Debug, Clone, PartialEq, Eq)]
pub struct StageEvent {
    /// The event id, ordered by insertion.
    pub event_id: i64,
    /// The document involved, when the event belongs to a document.
    pub doc_id: Option<String>,
    /// The job involved, when the event belongs to a job.
    pub job_id: Option<String>,
    /// The stage involved, when the event belongs to a stage.
    pub stage: Option<String>,
    /// The recorded outcome.
    pub outcome: String,
    /// Error chain or decision detail, when recorded.
    pub detail: Option<String>,
    /// The time of the event.
    pub ts: String,
}

/// A job claimed by the worker.
#[derive(Debug, Clone)]
pub struct ClaimedJob {
    pub(crate) job_id: String,
    pub(crate) doc_id: String,
    pub(crate) attempts: i64,
    pub(crate) max_attempts: i64,
    pub(crate) priority: i64,
    pub(crate) params: Option<String>,
}

/// The model of a [`ClaimedJob`].
pub struct ClaimedView {
    pub job_id: Seq<char>,
    pub doc_id: Seq<char>,
    pub attempts: int,
    pub max_attempts: int,
    pub priority: int,
    pub params: Option<Seq<char>>,
}

impl View for ClaimedJob {
    type V = ClaimedView;

    closed spec fn view(&self) -> ClaimedView {
        ClaimedView {
            job_id: self.job_id@,
            doc_id: self.doc_id@,
            attempts: self.attempts as int,
            max_attempts: self.max_attempts as int,
            priority: self.priority as int,
            params: opt_text(self.params),
        }
    }
}

impl ClaimedJob {
    /// A claimed job of these values.
    pub(crate) fn from_parts(
        job_id: String,
        doc_id: String,
        attempts: i64,
        max_attempts: i64,
        priority: i64,
        params: Option<String>,
    ) -> (res: ClaimedJob)
        ensures
            res@ == (ClaimedView {
                job_id: job_id@,
                doc_id: doc_id@,
                attempts: attempts as int,
                max_attempts: max_attempts as int,
                priority: priority as int,
                params: opt_text(params),
            }),
    {
        ClaimedJob { job_id, doc_id, attempts, max_attempts, priority, params }
    }

    /// Stable job identifier.
    pub fn job_id(&self) -> (res: &str)
        ensures
            res@ == self@.job_id,
    {
        self.job_id.as_str()
    }

    /// The document this job advances.
    pub fn doc_id(&self) -> (res: &str)
        ensures
            res@ == self@.doc_id,
    {
        self.doc_id.as_str()
    }

    /// Ended executions before this run.
    pub fn attempts(&self) -> (res: i64)
        ensures
            res == self@.attempts,
    {
        self.attempts
    }

    /// Attempts allowed before the job goes `DEAD`.
    pub fn max_attempts(&self) -> (res: i64)
        ensures
            res == self@.max_attempts,
    {
        self.max_attempts
    }

    /// Enqueue priority, inherited by the job of the next stage.
    pub fn priority(&self) -> (res: i64)
        ensures
            res == self@.priority,
    {
        self.priority
    }

    /// JSON stage parameters, if any.
    pub fn params(&self) -> (res: Option<&str>)
        ensures
            match res {
                Some(s) => self@.params == Some(s@),
                None => self@.params is None,
            },
    {
        match &self.params {
            Some(s) => Some(s.as_str()),
            None => None,
        }
    }
}

/// Job execution states.
#[derive(Debug, Clone, Copy, PartialEq, Eq, Hash, Structural)]
pub enum JobStatus {
    /// Waiting to be claimed.
    Pending,
    /// Claimed under a lease.
    Running,
    /// Completed.
    Done,
    /// Given up.
    Dead,
}

impl JobStatus {
    /// The stored discriminator.
    pub open spec fn name(self) -> Seq<char> {
        match self {
            JobStatus::Pending => "PENDING"@,
            JobStatus::Running => "RUNNING"@,
            JobStatus::Done => "DONE"@,
            JobStatus::Dead => "DEAD"@,
        }
    }

    /// The `jobs.status` discriminator.
    pub fn as_str(self) -> (res: &'static str)
        ensures
            res@ == self.name(),
    {
        match self {
            JobStatus::Pending => "PENDING",
            JobStatus::Running => "RUNNING",
            JobStatus::Done => "DONE",
            JobStatus::Dead => "DEAD",
        }
    }
}

} // verus!
