//! The job queue: the lease-based claim and the transitions of a job, with stage chaining.

use vstd::prelude::*;

use super::db::{now_plus, shifted_stamp, DbError};
use super::models::{ClaimedJob, ClaimedView, Completion, DocStatus, JobStatus, Stage};
use super::store::{
    docs_distinct, has_deletion, has_doc, jobs_distinct, ControlStore, DeletionView, DocumentView,
    JobRow, JobView,
};
use crate::knowledge::edge::{saturated, saturating_sum};
use crate::text::{copy_opt, less, same};
use crate::text::{lemma_text_less_total, lemma_text_less_trans, text_less};

verus! {

// ---------------------------------------------------------------------------------------------
// Transitions of one job.
// ---------------------------------------------------------------------------------------------
/// A job once it is claimed: attempts count ended executions, so they grow only where an expired
/// run is taken over.
pub open spec fn claimed(
    j: JobView,
    worker: Seq<char>,
    expires: Seq<char>,
    now: Seq<char>,
) -> JobView {
    JobView {
        status: JobStatus::Running,
        lease_owner: Some(worker),
        lease_expires_at: Some(expires),
        attempts: if j.status == JobStatus::Running {
            saturated(j.attempts, 1)
        } else {
            j.attempts
        },
        last_error: if j.status == JobStatus::Running {
            Some("lease expired"@)
        } else {
            j.last_error
        },
        updated_at: now,
        ..j
    }
}

/// A job once it is completed.
pub open spec fn completed(j: JobView, now: Seq<char>) -> JobView {
    JobView {
        status: JobStatus::Done,
        lease_owner: None,
        lease_expires_at: None,
        next_attempt_at: None,
        updated_at: now,
        ..j
    }
}

/// A job once it waits for another attempt.
pub open spec fn retried(j: JobView, due: Seq<char>, error: Seq<char>, now: Seq<char>) -> JobView {
    JobView {
        status: JobStatus::Pending,
        attempts: saturated(j.attempts, 1),
        next_attempt_at: Some(due),
        last_error: Some(error),
        lease_owner: None,
        lease_expires_at: None,
        updated_at: now,
        ..j
    }
}

/// A job once it is given up.
pub open spec fn died(j: JobView, error: Seq<char>, now: Seq<char>) -> JobView {
    JobView {
        status: JobStatus::Dead,
        last_error: Some(error),
        lease_owner: None,
        lease_expires_at: None,
        updated_at: now,
        ..j
    }
}

/// A job once it is back in the queue with a fresh attempt budget.
pub open spec fn reset(j: JobView, now: Seq<char>) -> JobView {
    JobView {
        status: JobStatus::Pending,
        attempts: 0,
        next_attempt_at: None,
        last_error: None,
        lease_owner: None,
        lease_expires_at: None,
        updated_at: now,
        ..j
    }
}

/// A document once a stage of it is completed.
pub open spec fn advanced(d: DocumentView, stage: Stage, now: Seq<char>) -> DocumentView {
    DocumentView { status: stage.reached(), last_processed_at: Some(now), error: None, ..d }
}

/// A document once a job of it is given up.
pub open spec fn failed(d: DocumentView, error: Seq<char>, now: Seq<char>) -> DocumentView {
    DocumentView {
        status: DocStatus::Failed,
        error: Some(error),
        last_processed_at: Some(now),
        ..d
    }
}

/// The jobs with the one of id `id` replaced by its image.
pub open spec fn on_job(jobs: Seq<JobView>, id: Seq<char>, f: spec_fn(JobView) -> JobView) -> Seq<
    JobView,
> {
    jobs.map_values(
        |j: JobView|
            if j.job_id == id {
                f(j)
            } else {
                j
            },
    )
}

/// The documents with the one of id `id` replaced by its image.
pub open spec fn on_doc(
    docs: Seq<DocumentView>,
    id: Seq<char>,
    f: spec_fn(DocumentView) -> DocumentView,
) -> Seq<DocumentView> {
    docs.map_values(
        |d: DocumentView|
            if d.doc_id == id {
                f(d)
            } else {
                d
            },
    )
}

/// Whether `b` holds the same jobs as `a`, told apart by their ids, documents and stages.
pub open spec fn same_jobs(a: Seq<JobView>, b: Seq<JobView>) -> bool {
    &&& a.len() == b.len()
    &&& forall|i: int|
        0 <= i < a.len() ==> (#[trigger] a[i]).job_id == b[i].job_id && a[i].doc_id == b[i].doc_id
            && a[i].stage == b[i].stage
}

/// Whether `b` holds the same documents as `a` but for what changes as they are processed.
pub open spec fn same_docs(a: Seq<DocumentView>, b: Seq<DocumentView>) -> bool {
    &&& a.len() == b.len()
    &&& forall|i: int|
        0 <= i < a.len() ==> (#[trigger] a[i]).doc_id == b[i].doc_id && a[i].source_url_normalized
            == b[i].source_url_normalized
}

pub(crate) proof fn lemma_same_docs(a: Seq<DocumentView>, b: Seq<DocumentView>)
    requires
        same_docs(a, b),
        docs_distinct(a),
    ensures
        docs_distinct(b),
        forall|id: Seq<char>| #[trigger] has_doc(a, id) <==> has_doc(b, id),
{
    assert forall|i: int, j: int| 0 <= i < j < b.len() implies (#[trigger] b[i]).doc_id != (
    #[trigger] b[j]).doc_id && b[i].source_url_normalized != b[j].source_url_normalized by {
        assert(a[i].doc_id == b[i].doc_id && a[j].doc_id == b[j].doc_id);
    }
    assert forall|id: Seq<char>| #[trigger] has_doc(a, id) <==> has_doc(b, id) by {
        if has_doc(a, id) {
            let i = choose|i: int| 0 <= i < a.len() && (#[trigger] a[i]).doc_id == id;
            assert(b[i].doc_id == id);
        }
        if has_doc(b, id) {
            let i = choose|i: int| 0 <= i < b.len() && (#[trigger] b[i]).doc_id == id;
            assert(a[i].doc_id == id);
        }
    }
}

proof fn lemma_same_jobs(a: Seq<JobView>, b: Seq<JobView>)
    requires
        same_jobs(a, b),
        jobs_distinct(a),
    ensures
        jobs_distinct(b),
{
    assert forall|i: int, j: int| 0 <= i < j < b.len() implies (#[trigger] b[i]).job_id != (
    #[trigger] b[j]).job_id && !(b[i].doc_id == b[j].doc_id && b[i].stage == b[j].stage) by {
        assert(a[i].job_id == b[i].job_id && a[j].job_id == b[j].job_id);
    }
}

/// A store whose jobs and documents only ran is still well-formed.
pub(crate) proof fn lemma_still_wf(before: ControlStore, after: ControlStore)
    requires
        before.wf(),
        same_jobs(before.job_list(), after.job_list()),
        same_docs(before.docs(), after.docs()),
        before.intents() == after.intents(),
    ensures
        after.wf(),
{
    lemma_same_docs(before.docs(), after.docs());
    lemma_same_jobs(before.job_list(), after.job_list());
    let (a, b) = (before.job_list(), after.job_list());
    assert forall|i: int| 0 <= i < b.len() implies has_doc(after.docs(), (#[trigger] b[i]).doc_id) by {
        assert(a[i].doc_id == b[i].doc_id);
        assert(has_doc(before.docs(), a[i].doc_id));
    }
    let d = before.intents();
    assert forall|i: int| 0 <= i < d.len() implies has_doc(after.docs(), (#[trigger] d[i]).doc_id) by {
        assert(has_doc(before.docs(), d[i].doc_id));
    }
}

// ---------------------------------------------------------------------------------------------
// The claim.
// ---------------------------------------------------------------------------------------------
/// Whether a document can be worked on: it is registered, not archived, and not to be deleted.
pub open spec fn workable(
    docs: Seq<DocumentView>,
    intents: Seq<DeletionView>,
    id: Seq<char>,
) -> bool {
    &&& exists|i: int|
        0 <= i < docs.len() && (#[trigger] docs[i]).doc_id == id && docs[i].status
            != DocStatus::Archived
    &&& !has_deletion(intents, id)
}

/// Whether a job is due: it waits and its backoff has passed, or it runs and its lease has expired.
pub open spec fn due(j: JobView, now: Seq<char>) -> bool {
    match j.status {
        JobStatus::Pending => match j.next_attempt_at {
            None => true,
            Some(at) => !text_less(now, at),
        },
        JobStatus::Running => match j.lease_expires_at {
            None => false,
            Some(at) => text_less(at, now),
        },
        _ => false,
    }
}

/// Whether a job can be claimed for a stage.
pub open spec fn claimable(
    docs: Seq<DocumentView>,
    intents: Seq<DeletionView>,
    j: JobView,
    stage: Stage,
    now: Seq<char>,
) -> bool {
    j.stage == stage && workable(docs, intents, j.doc_id) && due(j, now)
}

/// The order of the queue: by priority, then by age, then by id.
pub open spec fn queued_before(a: JobView, b: JobView) -> bool {
    ||| a.priority < b.priority
    ||| a.priority == b.priority && text_less(a.created_at, b.created_at)
    ||| a.priority == b.priority && a.created_at == b.created_at && text_less(a.job_id, b.job_id)
}

proof fn lemma_queue_order(a: JobView, b: JobView, c: JobView)
    ensures
        a.job_id != b.job_id ==> queued_before(a, b) || queued_before(b, a),
        queued_before(a, b) && queued_before(b, c) ==> queued_before(a, c),
{
    lemma_text_less_total(a.created_at, b.created_at);
    lemma_text_less_total(a.job_id, b.job_id);
    if text_less(a.created_at, b.created_at) && text_less(b.created_at, c.created_at) {
        lemma_text_less_trans(a.created_at, b.created_at, c.created_at);
    }
    if text_less(a.job_id, b.job_id) && text_less(b.job_id, c.job_id) {
        lemma_text_less_trans(a.job_id, b.job_id, c.job_id);
    }
}

/// Whether the job at `i` is the next to claim: it can be claimed, and comes before every other that
/// can.
pub open spec fn is_next(
    store: &ControlStore,
    i: int,
    stage: Stage,
    now: Seq<char>,
) -> bool {
    let jobs = store.job_list();
    &&& 0 <= i < jobs.len()
    &&& claimable(store.docs(), store.intents(), jobs[i], stage, now)
    &&& forall|k: int|
        0 <= k < jobs.len() && k != i && claimable(
            store.docs(),
            store.intents(),
            #[trigger] jobs[k],
            stage,
            now,
        ) ==> queued_before(jobs[i], jobs[k])
}

/// What a claim hands out of a job.
pub open spec fn handed_out(j: JobView) -> ClaimedView {
    ClaimedView {
        job_id: j.job_id,
        doc_id: j.doc_id,
        attempts: j.attempts,
        max_attempts: j.max_attempts,
        priority: j.priority,
        params: j.params,
    }
}

fn is_workable(store: &ControlStore, doc_id: &str) -> (res: bool)
    requires
        store.wf(),
    ensures
        res == workable(store.docs(), store.intents(), doc_id@),
{
    match store.doc_index(doc_id) {
        None => {
            assert(!workable(store.docs(), store.intents(), doc_id@)) by {
                if exists|i: int|
                    0 <= i < store.docs().len() && (#[trigger] store.docs()[i]).doc_id == doc_id@
                        && store.docs()[i].status != DocStatus::Archived {
                    assert(has_doc(store.docs(), doc_id@));
                }
            }
            false
        },
        Some(i) => {
            let open = store.documents[i].status != DocStatus::Archived;
            proof {
                let docs = store.docs();
                assert(docs[i as int] == store.documents@[i as int]@);
                assert forall|k: int|
                    0 <= k < docs.len() && (#[trigger] docs[k]).doc_id == doc_id@ implies k == i by {
                    if k < i {
                        assert(docs[k].doc_id != docs[i as int].doc_id);
                    } else if i < k {
                        assert(docs[i as int].doc_id != docs[k].doc_id);
                    }
                }
            }
            open && !store.deletion_intended(doc_id)
        },
    }
}

fn is_due(j: &JobRow, now: &str) -> (res: bool)
    ensures
        res == due(j@, now@),
{
    match j.status {
        JobStatus::Pending => match &j.next_attempt_at {
            None => true,
            Some(at) => !less(now, at.as_str()),
        },
        JobStatus::Running => match &j.lease_expires_at {
            None => false,
            Some(at) => less(at.as_str(), now),
        },
        _ => false,
    }
}

fn comes_before(a: &JobRow, b: &JobRow) -> (res: bool)
    ensures
        res == queued_before(a@, b@),
{
    if a.priority != b.priority {
        return a.priority < b.priority;
    }
    if same(a.created_at.as_str(), b.created_at.as_str()) {
        proof {
            lemma_text_less_total(a.created_at@, b.created_at@);
        }
        less(a.job_id.as_str(), b.job_id.as_str())
    } else {
        less(a.created_at.as_str(), b.created_at.as_str())
    }
}

fn next_index(store: &ControlStore, stage: Stage, now: &str) -> (res: Option<usize>)
    requires
        store.wf(),
    ensures
        match res {
            Some(i) => is_next(store, i as int, stage, now@),
            None => forall|k: int|
                0 <= k < store.job_list().len() ==> !claimable(
                    store.docs(),
                    store.intents(),
                    #[trigger] store.job_list()[k],
                    stage,
                    now@,
                ),
        },
{
    let ghost jobs = store.job_list();
    let ghost docs = store.docs();
    let ghost intents = store.intents();
    let mut best: Option<usize> = None;
    let mut i: usize = 0;
    while i < store.jobs.len()
        invariant
            i <= store.jobs@.len(),
            store.wf(),
            jobs == store.job_list(),
            docs == store.docs(),
            intents == store.intents(),
            match best {
                Some(b) => {
                    &&& b < i
                    &&& claimable(docs, intents, jobs[b as int], stage, now@)
                    &&& forall|k: int|
                        0 <= k < i && k != b && claimable(
                            docs,
                            intents,
                            #[trigger] jobs[k],
                            stage,
                            now@,
                        ) ==> queued_before(jobs[b as int], jobs[k])
                },
                None => forall|k: int|
                    0 <= k < i ==> !claimable(docs, intents, #[trigger] jobs[k], stage, now@),
            },
        decreases store.jobs@.len() - i,
    {
        let j = &store.jobs[i];
        assert(jobs[i as int] == j@);
        if j.stage == stage && is_due(j, now) && is_workable(store, j.doc_id.as_str()) {
            match best {
                Some(b) => {
                    proof {
                        assert(jobs[b as int] == store.jobs@[b as int]@);
                        assert(jobs[b as int].job_id != jobs[i as int].job_id);
                        lemma_queue_order(jobs[i as int], jobs[b as int], jobs[b as int]);
                    }
                    if comes_before(j, &store.jobs[b]) {
                        proof {
                            assert forall|k: int|
                                0 <= k < i + 1 && k != i && claimable(
                                    docs,
                                    intents,
                                    #[trigger] jobs[k],
                                    stage,
                                    now@,
                                ) implies queued_before(jobs[i as int], jobs[k]) by {
                                if k != b {
                                    lemma_queue_order(jobs[i as int], jobs[b as int], jobs[k]);
                                }
                            }
                        }
                        best = Some(i);
                    }
                },
                None => {
                    best = Some(i);
                },
            }
        }
        i = i + 1;
    }
    best
}

/// Claims the next runnable job of a stage: a waiting job past its backoff, or a running one whose
/// lease has expired, first in the order of the queue. Nothing changes where there is none, or where
/// `now` is no timestamp.
pub fn claim_next(
    store: &mut ControlStore,
    stage: Stage,
    worker: &str,
    now_stamp: &str,
    lease_secs: u64,
) -> (res: Result<Option<ClaimedJob>, DbError>)
    requires
        old(store).wf(),
    ensures
        final(store).wf(),
        final(store).docs() == old(store).docs(),
        final(store).intents() == old(store).intents(),
        final(store).default_max_attempts == old(store).default_max_attempts,
        match shifted_stamp(now_stamp@, lease_secs as int) {
            None => {
                &&& res is Err
                &&& res->Err_0 is Timestamp
                &&& res->Err_0->Timestamp_value@ == now_stamp@
                &&& final(store).job_list() == old(store).job_list()
            },
            Some(expires) => {
                &&& res is Ok
                &&& match res->Ok_0 {
                    None => {
                        &&& final(store).job_list() == old(store).job_list()
                        &&& forall|k: int|
                            0 <= k < old(store).job_list().len() ==> !claimable(
                                old(store).docs(),
                                old(store).intents(),
                                #[trigger] old(store).job_list()[k],
                                stage,
                                now_stamp@,
                            )
                    },
                    Some(job) => exists|i: int|
                        {
                            &&& #[trigger] is_next(old(store), i, stage, now_stamp@)
                            &&& final(store).job_list() == old(store).job_list().update(
                                i,
                                claimed(
                                    old(store).job_list()[i],
                                    worker@,
                                    expires,
                                    now_stamp@,
                                ),
                            )
                            &&& job@ == handed_out(final(store).job_list()[i])
                        },
                }
            },
        },
{
    let lease_expires_at = match now_plus(now_stamp, lease_secs) {
        Ok(s) => s,
        Err(e) => {
            return Err(e);
        },
    };
    let ghost before = *store;
    match next_index(store, stage, now_stamp) {
        None => Ok(None),
        Some(i) => {
            let ghost jobs = store.job_list();
            assert(jobs[i as int] == store.jobs@[i as int]@);
            if store.jobs[i].status == JobStatus::Running {
                let attempts = saturating_sum(store.jobs[i].attempts, 1);
                store.jobs[i].attempts = attempts;
                store.jobs[i].last_error = Some("lease expired".to_owned());
            }
            store.jobs[i].status = JobStatus::Running;
            store.jobs[i].lease_owner = Some(worker.to_owned());
            store.jobs[i].lease_expires_at = Some(lease_expires_at);
            store.jobs[i].updated_at = now_stamp.to_owned();
            let r = &store.jobs[i];
            let job = ClaimedJob::from_parts(
                r.job_id.clone(),
                r.doc_id.clone(),
                r.attempts,
                r.max_attempts,
                r.priority,
                copy_opt(&r.params),
            );
            proof {
                let image = claimed(jobs[i as int], worker@, lease_expires_at@, now_stamp@);
                assert(store.jobs@[i as int]@ =~= image);
                assert(store.job_list() =~= jobs.update(i as int, image));
                assert(store.docs() =~= before.docs());
                lemma_still_wf(before, *store);
                assert(is_next(&before, i as int, stage, now_stamp@));
            }
            Ok(Some(job))
        },
    }
}


// ---------------------------------------------------------------------------------------------
// Completion and chaining.
// ---------------------------------------------------------------------------------------------
/// Whether a document has a job of a stage.
pub open spec fn has_job(jobs: Seq<JobView>, doc_id: Seq<char>, stage: Stage) -> bool {
    exists|i: int|
        0 <= i < jobs.len() && (#[trigger] jobs[i]).doc_id == doc_id && jobs[i].stage == stage
}

/// Whether an id is that of a job.
pub open spec fn has_job_id(jobs: Seq<JobView>, id: Seq<char>) -> bool {
    exists|i: int| 0 <= i < jobs.len() && (#[trigger] jobs[i]).job_id == id
}

/// A new job in the queue.
pub open spec fn new_job(
    job_id: Seq<char>,
    doc_id: Seq<char>,
    stage: Stage,
    priority: int,
    max_attempts: int,
    params: Option<Seq<char>>,
    now: Seq<char>,
) -> JobView {
    JobView {
        job_id,
        doc_id,
        stage,
        status: JobStatus::Pending,
        priority,
        attempts: 0,
        max_attempts,
        next_attempt_at: None,
        lease_owner: None,
        lease_expires_at: None,
        last_error: None,
        params,
        created_at: now,
        updated_at: now,
    }
}

/// A job that a chain reaches: a finished one is queued again with the new priority, a live one is
/// left alone.
pub open spec fn chained_to(j: JobView, priority: int, now: Seq<char>) -> JobView {
    if j.status == JobStatus::Dead || j.status == JobStatus::Done {
        JobView { priority, ..reset(j, now) }
    } else {
        j
    }
}

/// The jobs once a chain reaches a stage of a document: its job is queued again or left alone, or
/// created where there is none.
pub open spec fn chained(
    jobs: Seq<JobView>,
    new_id: Seq<char>,
    doc_id: Seq<char>,
    stage: Stage,
    priority: int,
    max_attempts: int,
    now: Seq<char>,
) -> Seq<JobView> {
    if has_job(jobs, doc_id, stage) {
        jobs.map_values(
            |j: JobView|
                if j.doc_id == doc_id && j.stage == stage {
                    chained_to(j, priority, now)
                } else {
                    j
                },
        )
    } else {
        jobs.push(new_job(new_id, doc_id, stage, priority, max_attempts, None, now))
    }
}

/// The stage that a completion chains to.
pub open spec fn chain_target(stage: Stage, completion: Completion) -> Option<Stage> {
    if completion == Completion::Chain {
        stage.next()
    } else {
        None
    }
}

/// Whether the job that a completion would create cannot be: its id is taken, or its document is not
/// registered.
pub open spec fn chain_refused(
    jobs: Seq<JobView>,
    docs: Seq<DocumentView>,
    doc_id: Seq<char>,
    target: Option<Stage>,
    new_id: Seq<char>,
) -> bool {
    match target {
        Some(next) => !has_job(jobs, doc_id, next) && (!has_doc(docs, doc_id) || has_job_id(
            jobs,
            new_id,
        )),
        None => false,
    }
}

fn job_index(store: &ControlStore, doc_id: &str, stage: Stage) -> (res: Option<usize>)
    ensures
        match res {
            Some(i) => {
                &&& i < store.jobs@.len()
                &&& store.job_list()[i as int].doc_id == doc_id@
                &&& store.job_list()[i as int].stage == stage
                &&& has_job(store.job_list(), doc_id@, stage)
            },
            None => !has_job(store.job_list(), doc_id@, stage),
        },
{
    let ghost jobs = store.job_list();
    let mut i: usize = 0;
    while i < store.jobs.len()
        invariant
            i <= store.jobs@.len(),
            jobs == store.job_list(),
            forall|j: int|
                0 <= j < i ==> !((#[trigger] jobs[j]).doc_id == doc_id@ && jobs[j].stage == stage),
        decreases store.jobs@.len() - i,
    {
        assert(jobs[i as int] == store.jobs@[i as int]@);
        if store.jobs[i].stage == stage && same(store.jobs[i].doc_id.as_str(), doc_id) {
            return Some(i);
        }
        i = i + 1;
    }
    None
}

fn job_id_taken(store: &ControlStore, job_id: &str) -> (res: bool)
    ensures
        res == has_job_id(store.job_list(), job_id@),
{
    let ghost jobs = store.job_list();
    let mut i: usize = 0;
    while i < store.jobs.len()
        invariant
            i <= store.jobs@.len(),
            jobs == store.job_list(),
            forall|j: int| 0 <= j < i ==> (#[trigger] jobs[j]).job_id != job_id@,
        decreases store.jobs@.len() - i,
    {
        assert(jobs[i as int] == store.jobs@[i as int]@);
        if same(store.jobs[i].job_id.as_str(), job_id) {
            return true;
        }
        i = i + 1;
    }
    false
}

/// The job of a document and stage.
pub fn find<'a>(store: &'a ControlStore, doc_id: &str, stage: Stage) -> (res: Option<&'a JobRow>)
    requires
        store.wf(),
    ensures
        match res {
            Some(row) => row@.doc_id == doc_id@ && row@.stage == stage && store.job_list().contains(
                row@,
            ),
            None => !has_job(store.job_list(), doc_id@, stage),
        },
{
    match job_index(store, doc_id, stage) {
        Some(i) => {
            assert(store.job_list()[i as int] == store.jobs@[i as int]@);
            Some(&store.jobs[i])
        },
        None => None,
    }
}

fn mark_done(store: &mut ControlStore, job_id: &str, now: &str)
    ensures
        final(store).job_list() == on_job(
            old(store).job_list(),
            job_id@,
            |j: JobView| completed(j, now@),
        ),
        final(store).docs() == old(store).docs(),
        final(store).intents() == old(store).intents(),
        final(store).default_max_attempts == old(store).default_max_attempts,
{
    let ghost before = store.job_list();
    let ghost docs = store.docs();
    let ghost intents = store.intents();
    let ghost image = on_job(before, job_id@, |j: JobView| completed(j, now@));
    let ghost limit = store.default_max_attempts;
    let mut i: usize = 0;
    while i < store.jobs.len()
        invariant
            i <= store.jobs@.len() == before.len(),
            store.docs() == docs,
            store.intents() == intents,
            store.default_max_attempts == limit,
            image == on_job(before, job_id@, |j: JobView| completed(j, now@)),
            forall|k: int| 0 <= k < i ==> (#[trigger] store.jobs@[k])@ == image[k],
            forall|k: int| i <= k < before.len() ==> (#[trigger] store.jobs@[k])@ == before[k],
        decreases store.jobs@.len() - i,
    {
        assert(store.jobs@[i as int]@ == before[i as int]);
        if same(store.jobs[i].job_id.as_str(), job_id) {
            store.jobs[i].status = JobStatus::Done;
            store.jobs[i].lease_owner = None;
            store.jobs[i].lease_expires_at = None;
            store.jobs[i].next_attempt_at = None;
            store.jobs[i].updated_at = now.to_owned();
            assert(store.docs() =~= docs);
            assert(store.intents() =~= intents);
        }
        assert(store.jobs@[i as int]@ =~= image[i as int]);
        i = i + 1;
    }
    assert(store.job_list() =~= image);
}

fn advance_doc(store: &mut ControlStore, doc_id: &str, stage: Stage, now: &str)
    ensures
        final(store).docs() == on_doc(
            old(store).docs(),
            doc_id@,
            |d: DocumentView| advanced(d, stage, now@),
        ),
        final(store).job_list() == old(store).job_list(),
        final(store).intents() == old(store).intents(),
        final(store).default_max_attempts == old(store).default_max_attempts,
{
    let ghost before = store.docs();
    let ghost jobs = store.job_list();
    let ghost intents = store.intents();
    let ghost limit = store.default_max_attempts;
    let ghost image = on_doc(before, doc_id@, |d: DocumentView| advanced(d, stage, now@));
    let mut i: usize = 0;
    while i < store.documents.len()
        invariant
            i <= store.documents@.len() == before.len(),
            store.job_list() == jobs,
            store.intents() == intents,
            store.default_max_attempts == limit,
            image == on_doc(before, doc_id@, |d: DocumentView| advanced(d, stage, now@)),
            forall|k: int| 0 <= k < i ==> (#[trigger] store.documents@[k])@ == image[k],
            forall|k: int| i <= k < before.len() ==> (#[trigger] store.documents@[k])@ == before[k],
        decreases store.documents@.len() - i,
    {
        assert(store.documents@[i as int]@ == before[i as int]);
        if same(store.documents[i].doc_id.as_str(), doc_id) {
            store.documents[i].status = stage.milestone_status();
            store.documents[i].last_processed_at = Some(now.to_owned());
            store.documents[i].error = None;
            assert(store.job_list() =~= jobs);
            assert(store.intents() =~= intents);
        }
        assert(store.documents@[i as int]@ =~= image[i as int]);
        i = i + 1;
    }
    assert(store.docs() =~= image);
}

/// Whether two lists of jobs have the same job ids, documents and stages.
proof fn lemma_on_job_same(jobs: Seq<JobView>, id: Seq<char>, f: spec_fn(JobView) -> JobView)
    requires
        forall|j: JobView|
            (#[trigger] f(j)).job_id == j.job_id && f(j).doc_id == j.doc_id && f(j).stage
                == j.stage,
    ensures
        same_jobs(jobs, on_job(jobs, id, f)),
{
    let image = on_job(jobs, id, f);
    assert forall|i: int| 0 <= i < jobs.len() implies (#[trigger] jobs[i]).job_id == image[i].job_id
        && jobs[i].doc_id == image[i].doc_id && jobs[i].stage == image[i].stage by {
        let g = f(jobs[i]);
    }
}

proof fn lemma_on_doc_same(
    docs: Seq<DocumentView>,
    id: Seq<char>,
    f: spec_fn(DocumentView) -> DocumentView,
)
    requires
        forall|d: DocumentView|
            (#[trigger] f(d)).doc_id == d.doc_id && f(d).source_url_normalized
                == d.source_url_normalized,
    ensures
        same_docs(docs, on_doc(docs, id, f)),
{
    let image = on_doc(docs, id, f);
    assert forall|i: int| 0 <= i < docs.len() implies (#[trigger] docs[i]).doc_id == image[i].doc_id
        && docs[i].source_url_normalized == image[i].source_url_normalized by {
        let g = f(docs[i]);
    }
}

fn chain_job(
    store: &mut ControlStore,
    new_id: &str,
    doc_id: &str,
    stage: Stage,
    priority: i64,
    now: &str,
)
    requires
        old(store).wf(),
        !chain_refused(
            old(store).job_list(),
            old(store).docs(),
            doc_id@,
            Some(stage),
            new_id@,
        ),
    ensures
        final(store).wf(),
        final(store).job_list() == chained(
            old(store).job_list(),
            new_id@,
            doc_id@,
            stage,
            priority as int,
            old(store).default_max_attempts as int,
            now@,
        ),
        final(store).docs() == old(store).docs(),
        final(store).intents() == old(store).intents(),
        final(store).default_max_attempts == old(store).default_max_attempts,
{
    let ghost before = *store;
    let ghost jobs = store.job_list();
    match job_index(store, doc_id, stage) {
        Some(i) => {
            assert(jobs[i as int] == store.jobs@[i as int]@);
            let finished = store.jobs[i].status == JobStatus::Dead || store.jobs[i].status
                == JobStatus::Done;
            if finished {
                store.jobs[i].status = JobStatus::Pending;
                store.jobs[i].attempts = 0;
                store.jobs[i].next_attempt_at = None;
                store.jobs[i].lease_owner = None;
                store.jobs[i].lease_expires_at = None;
                store.jobs[i].last_error = None;
                store.jobs[i].priority = priority;
                store.jobs[i].updated_at = now.to_owned();
            }
            proof {
                let after = store.job_list();
                let image = chained(
                    jobs,
                    new_id@,
                    doc_id@,
                    stage,
                    priority as int,
                    before.default_max_attempts as int,
                    now@,
                );
                assert(after[i as int] =~= chained_to(jobs[i as int], priority as int, now@));
                assert forall|k: int| 0 <= k < jobs.len() implies #[trigger] after[k]
                    == image[k] by {
                    if k < i {
                        assert(!(jobs[k].doc_id == jobs[i as int].doc_id && jobs[k].stage
                            == jobs[i as int].stage));
                    } else if i < k {
                        assert(!(jobs[i as int].doc_id == jobs[k].doc_id && jobs[i as int].stage
                            == jobs[k].stage));
                    }
                }
                assert(after =~= image);
                assert(store.docs() =~= before.docs());
                assert(store.intents() =~= before.intents());
                lemma_still_wf(before, *store);
            }
        },
        None => {
            let row = JobRow {
                job_id: new_id.to_owned(),
                doc_id: doc_id.to_owned(),
                stage,
                status: JobStatus::Pending,
                priority,
                attempts: 0,
                max_attempts: store.default_max_attempts,
                next_attempt_at: None,
                lease_owner: None,
                lease_expires_at: None,
                last_error: None,
                params: None,
                created_at: now.to_owned(),
                updated_at: now.to_owned(),
            };
            let ghost added = row@;
            store.jobs.push(row);
            proof {
                assert(added =~= new_job(
                    new_id@,
                    doc_id@,
                    stage,
                    priority as int,
                    before.default_max_attempts as int,
                    None,
                    now@,
                ));
                assert(store.job_list() =~= jobs.push(added));
                lemma_added_job(before, *store, added);
            }
        },
    }
}

proof fn lemma_added_job(before: ControlStore, after: ControlStore, row: JobView)
    requires
        before.wf(),
        after.docs() == before.docs(),
        after.intents() == before.intents(),
        after.job_list() == before.job_list().push(row),
        has_doc(before.docs(), row.doc_id),
        !has_job(before.job_list(), row.doc_id, row.stage),
        !has_job_id(before.job_list(), row.job_id),
    ensures
        after.wf(),
{
    let jobs = before.job_list();
    let next = after.job_list();
    assert forall|i: int, j: int| 0 <= i < j < next.len() implies (#[trigger] next[i]).job_id != (
    #[trigger] next[j]).job_id && !(next[i].doc_id == next[j].doc_id && next[i].stage
        == next[j].stage) by {
        assert(next[i] == jobs[i]);
        if j < jobs.len() {
            assert(next[j] == jobs[j]);
        }
    }
    assert forall|i: int| 0 <= i < next.len() implies has_doc(
        after.docs(),
        (#[trigger] next[i]).doc_id,
    ) by {
        if i < jobs.len() {
            assert(next[i] == jobs[i]);
        }
    }
}

/// Completes a claimed job and applies the decision of the worker as one step: the job is done, the
/// document's milestone advances and its error is cleared, and the job of the next stage is queued.
/// Where the next job cannot be created nothing changes. `new_job_id` names the next job should one
/// be created.
pub fn complete(
    store: &mut ControlStore,
    stage: Stage,
    job: &ClaimedJob,
    completion: Completion,
    now_stamp: &str,
    new_job_id: &str,
) -> (res: Result<(), DbError>)
    requires
        old(store).wf(),
    ensures
        final(store).wf(),
        final(store).intents() == old(store).intents(),
        final(store).default_max_attempts == old(store).default_max_attempts,
        ({
            let target = chain_target(stage, completion);
            let done = on_job(
                old(store).job_list(),
                job@.job_id,
                |j: JobView| completed(j, now_stamp@),
            );
            if chain_refused(
                old(store).job_list(),
                old(store).docs(),
                job@.doc_id,
                target,
                new_job_id@,
            ) {
                &&& res is Err
                &&& res->Err_0 is Sqlite
                &&& final(store).job_list() == old(store).job_list()
                &&& final(store).docs() == old(store).docs()
            } else {
                &&& res is Ok
                &&& final(store).docs() == if completion == Completion::Done {
                    old(store).docs()
                } else {
                    on_doc(
                        old(store).docs(),
                        job@.doc_id,
                        |d: DocumentView| advanced(d, stage, now_stamp@),
                    )
                }
                &&& final(store).job_list() == match target {
                    Some(next) => chained(
                        done,
                        new_job_id@,
                        job@.doc_id,
                        next,
                        job@.priority,
                        old(store).default_max_attempts as int,
                        now_stamp@,
                    ),
                    None => done,
                }
            }
        }),
{
    let target = if completion == Completion::Chain {
        stage.successor()
    } else {
        None
    };
    let ghost before = *store;
    if let Some(next) = target {
        if job_index(store, job.doc_id(), next).is_none() {
            if store.doc_index(job.doc_id()).is_none() {
                return Err(DbError::Sqlite("FOREIGN KEY constraint failed".to_owned()));
            }
            if job_id_taken(store, new_job_id) {
                return Err(DbError::Sqlite("UNIQUE constraint failed: jobs.job_id".to_owned()));
            }
        }
    }
    mark_done(store, job.job_id(), now_stamp);
    let ghost done = store.job_list();
    proof {
        lemma_on_job_same(
            before.job_list(),
            job@.job_id,
            |j: JobView| completed(j, now_stamp@),
        );
        lemma_still_wf(before, *store);
    }
    let ghost middle = *store;
    if completion != Completion::Done {
        advance_doc(store, job.doc_id(), stage, now_stamp);
        proof {
            lemma_on_doc_same(
                before.docs(),
                job@.doc_id,
                |d: DocumentView| advanced(d, stage, now_stamp@),
            );
            lemma_still_wf(middle, *store);
            lemma_same_docs(before.docs(), store.docs());
        }
    }
    if let Some(next) = target {
        proof {
            lemma_same_jobs_lookup(before.job_list(), done);
        }
        chain_job(store, new_job_id, job.doc_id(), next, job.priority(), now_stamp);
    }
    Ok(())
}

proof fn lemma_same_jobs_lookup(a: Seq<JobView>, b: Seq<JobView>)
    requires
        same_jobs(a, b),
    ensures
        forall|doc: Seq<char>, stage: Stage| #[trigger]
            has_job(a, doc, stage) <==> has_job(b, doc, stage),
        forall|id: Seq<char>| #[trigger] has_job_id(a, id) <==> has_job_id(b, id),
{
    assert forall|doc: Seq<char>, stage: Stage| #[trigger]
        has_job(a, doc, stage) <==> has_job(b, doc, stage) by {
        if has_job(a, doc, stage) {
            let i = choose|i: int|
                0 <= i < a.len() && (#[trigger] a[i]).doc_id == doc && a[i].stage == stage;
            assert(b[i].doc_id == doc && b[i].stage == stage);
        }
        if has_job(b, doc, stage) {
            let i = choose|i: int|
                0 <= i < b.len() && (#[trigger] b[i]).doc_id == doc && b[i].stage == stage;
            assert(a[i].doc_id == doc && a[i].stage == stage);
        }
    }
    assert forall|id: Seq<char>| #[trigger] has_job_id(a, id) <==> has_job_id(b, id) by {
        if has_job_id(a, id) {
            let i = choose|i: int| 0 <= i < a.len() && (#[trigger] a[i]).job_id == id;
            assert(b[i].job_id == id);
        }
        if has_job_id(b, id) {
            let i = choose|i: int| 0 <= i < b.len() && (#[trigger] b[i]).job_id == id;
            assert(a[i].job_id == id);
        }
    }
}

// ---------------------------------------------------------------------------------------------
// Failure and recovery.
// ---------------------------------------------------------------------------------------------
/// Sends a failed job back to the queue with a backoff deadline.
pub fn retry(store: &mut ControlStore, job_id: &str, due: &str, error: &str, now_stamp: &str)
    requires
        old(store).wf(),
    ensures
        final(store).wf(),
        final(store).job_list() == on_job(
            old(store).job_list(),
            job_id@,
            |j: JobView| retried(j, due@, error@, now_stamp@),
        ),
        final(store).docs() == old(store).docs(),
        final(store).intents() == old(store).intents(),
        final(store).default_max_attempts == old(store).default_max_attempts,
{
    let ghost start = *store;
    let ghost before = store.job_list();
    let ghost docs = store.docs();
    let ghost intents = store.intents();
    let ghost limit = store.default_max_attempts;
    let ghost image = on_job(before, job_id@, |j: JobView| retried(j, due@, error@, now_stamp@));
    let mut i: usize = 0;
    while i < store.jobs.len()
        invariant
            i <= store.jobs@.len() == before.len(),
            store.docs() == docs,
            store.intents() == intents,
            store.default_max_attempts == limit,
            image == on_job(before, job_id@, |j: JobView| retried(j, due@, error@, now_stamp@)),
            forall|k: int| 0 <= k < i ==> (#[trigger] store.jobs@[k])@ == image[k],
            forall|k: int| i <= k < before.len() ==> (#[trigger] store.jobs@[k])@ == before[k],
        decreases store.jobs@.len() - i,
    {
        assert(store.jobs@[i as int]@ == before[i as int]);
        if same(store.jobs[i].job_id.as_str(), job_id) {
            let attempts = saturating_sum(store.jobs[i].attempts, 1);
            store.jobs[i].status = JobStatus::Pending;
            store.jobs[i].attempts = attempts;
            store.jobs[i].next_attempt_at = Some(due.to_owned());
            store.jobs[i].last_error = Some(error.to_owned());
            store.jobs[i].lease_owner = None;
            store.jobs[i].lease_expires_at = None;
            store.jobs[i].updated_at = now_stamp.to_owned();
            assert(store.docs() =~= docs);
            assert(store.intents() =~= intents);
        }
        assert(store.jobs@[i as int]@ =~= image[i as int]);
        i = i + 1;
    }
    assert(store.job_list() =~= image);
    proof {
        lemma_on_job_same(before, job_id@, |j: JobView| retried(j, due@, error@, now_stamp@));
        lemma_still_wf(start, *store);
    }
}

fn kill_job(store: &mut ControlStore, job_id: &str, error: &str, now: &str)
    ensures
        final(store).job_list() == on_job(
            old(store).job_list(),
            job_id@,
            |j: JobView| died(j, error@, now@),
        ),
        final(store).docs() == old(store).docs(),
        final(store).intents() == old(store).intents(),
        final(store).default_max_attempts == old(store).default_max_attempts,
{
    let ghost before = store.job_list();
    let ghost docs = store.docs();
    let ghost intents = store.intents();
    let ghost limit = store.default_max_attempts;
    let ghost image = on_job(before, job_id@, |j: JobView| died(j, error@, now@));
    let mut i: usize = 0;
    while i < store.jobs.len()
        invariant
            i <= store.jobs@.len() == before.len(),
            store.docs() == docs,
            store.intents() == intents,
            store.default_max_attempts == limit,
            image == on_job(before, job_id@, |j: JobView| died(j, error@, now@)),
            forall|k: int| 0 <= k < i ==> (#[trigger] store.jobs@[k])@ == image[k],
            forall|k: int| i <= k < before.len() ==> (#[trigger] store.jobs@[k])@ == before[k],
        decreases store.jobs@.len() - i,
    {
        assert(store.jobs@[i as int]@ == before[i as int]);
        if same(store.jobs[i].job_id.as_str(), job_id) {
            store.jobs[i].status = JobStatus::Dead;
            store.jobs[i].last_error = Some(error.to_owned());
            store.jobs[i].lease_owner = None;
            store.jobs[i].lease_expires_at = None;
            store.jobs[i].updated_at = now.to_owned();
            assert(store.docs() =~= docs);
            assert(store.intents() =~= intents);
        }
        assert(store.jobs@[i as int]@ =~= image[i as int]);
        i = i + 1;
    }
    assert(store.job_list() =~= image);
}

/// Gives up a job and marks its document failed.
pub fn dead(store: &mut ControlStore, job_id: &str, doc_id: &str, error: &str, now_stamp: &str)
    requires
        old(store).wf(),
    ensures
        final(store).wf(),
        final(store).job_list() == on_job(
            old(store).job_list(),
            job_id@,
            |j: JobView| died(j, error@, now_stamp@),
        ),
        final(store).docs() == on_doc(
            old(store).docs(),
            doc_id@,
            |d: DocumentView| failed(d, error@, now_stamp@),
        ),
        final(store).intents() == old(store).intents(),
        final(store).default_max_attempts == old(store).default_max_attempts,
{
    let ghost start = *store;
    kill_job(store, job_id, error, now_stamp);
    let ghost jobs = store.job_list();
    let ghost before = store.docs();
    let ghost intents = store.intents();
    let ghost limit = store.default_max_attempts;
    let ghost image = on_doc(before, doc_id@, |d: DocumentView| failed(d, error@, now_stamp@));
    let mut i: usize = 0;
    while i < store.documents.len()
        invariant
            i <= store.documents@.len() == before.len(),
            store.job_list() == jobs,
            store.intents() == intents,
            store.default_max_attempts == limit,
            image == on_doc(before, doc_id@, |d: DocumentView| failed(d, error@, now_stamp@)),
            forall|k: int| 0 <= k < i ==> (#[trigger] store.documents@[k])@ == image[k],
            forall|k: int| i <= k < before.len() ==> (#[trigger] store.documents@[k])@ == before[k],
        decreases store.documents@.len() - i,
    {
        assert(store.documents@[i as int]@ == before[i as int]);
        if same(store.documents[i].doc_id.as_str(), doc_id) {
            store.documents[i].status = DocStatus::Failed;
            store.documents[i].error = Some(error.to_owned());
            store.documents[i].last_processed_at = Some(now_stamp.to_owned());
            assert(store.job_list() =~= jobs);
            assert(store.intents() =~= intents);
        }
        assert(store.documents@[i as int]@ =~= image[i as int]);
        i = i + 1;
    }
    assert(store.docs() =~= image);
    proof {
        lemma_on_job_same(start.job_list(), job_id@, |j: JobView| died(j, error@, now_stamp@));
        lemma_on_doc_same(
            start.docs(),
            doc_id@,
            |d: DocumentView| failed(d, error@, now_stamp@),
        );
        lemma_still_wf(start, *store);
    }
}

/// Whether requeueing a document resets a job: it is the document's and was given up or runs.
pub open spec fn requeued(j: JobView, doc_id: Seq<char>) -> bool {
    j.doc_id == doc_id && (j.status == JobStatus::Dead || j.status == JobStatus::Running)
}

/// How many of the first `n` jobs requeueing a document resets.
pub open spec fn requeue_count(jobs: Seq<JobView>, doc_id: Seq<char>, n: int) -> nat
    decreases n,
{
    if n <= 0 {
        0
    } else {
        requeue_count(jobs, doc_id, n - 1) + if requeued(jobs[n - 1], doc_id) {
            1nat
        } else {
            0nat
        }
    }
}

/// Resets the given-up and interrupted jobs of a document to a fresh attempt budget. Completed
/// stages are left alone. Answers how many were reset.
pub fn requeue(store: &mut ControlStore, doc_id: &str, now_stamp: &str) -> (count: usize)
    requires
        old(store).wf(),
    ensures
        final(store).wf(),
        final(store).job_list() == old(store).job_list().map_values(
            |j: JobView|
                if requeued(j, doc_id@) {
                    reset(j, now_stamp@)
                } else {
                    j
                },
        ),
        count == requeue_count(
            old(store).job_list(),
            doc_id@,
            old(store).job_list().len() as int,
        ),
        final(store).docs() == old(store).docs(),
        final(store).intents() == old(store).intents(),
        final(store).default_max_attempts == old(store).default_max_attempts,
{
    let ghost start = *store;
    let ghost before = store.job_list();
    let ghost docs = store.docs();
    let ghost intents = store.intents();
    let ghost limit = store.default_max_attempts;
    let ghost image = before.map_values(
        |j: JobView|
            if requeued(j, doc_id@) {
                reset(j, now_stamp@)
            } else {
                j
            },
    );
    let mut count: usize = 0;
    let mut i: usize = 0;
    while i < store.jobs.len()
        invariant
            i <= store.jobs@.len() == before.len(),
            store.docs() == docs,
            store.intents() == intents,
            store.default_max_attempts == limit,
            image == before.map_values(
                |j: JobView|
                    if requeued(j, doc_id@) {
                        reset(j, now_stamp@)
                    } else {
                        j
                    },
            ),
            count <= i,
            count == requeue_count(before, doc_id@, i as int),
            forall|k: int| 0 <= k < i ==> (#[trigger] store.jobs@[k])@ == image[k],
            forall|k: int| i <= k < before.len() ==> (#[trigger] store.jobs@[k])@ == before[k],
        decreases store.jobs@.len() - i,
    {
        assert(store.jobs@[i as int]@ == before[i as int]);
        let stopped = store.jobs[i].status == JobStatus::Dead || store.jobs[i].status
            == JobStatus::Running;
        if stopped && same(store.jobs[i].doc_id.as_str(), doc_id) {
            store.jobs[i].status = JobStatus::Pending;
            store.jobs[i].attempts = 0;
            store.jobs[i].next_attempt_at = None;
            store.jobs[i].last_error = None;
            store.jobs[i].lease_owner = None;
            store.jobs[i].lease_expires_at = None;
            store.jobs[i].updated_at = now_stamp.to_owned();
            count = count + 1;
            assert(store.docs() =~= docs);
            assert(store.intents() =~= intents);
        }
        assert(store.jobs@[i as int]@ =~= image[i as int]);
        i = i + 1;
    }
    assert(store.job_list() =~= image);
    proof {
        assert(same_jobs(before, image));
        lemma_still_wf(start, *store);
    }
    count
}

/// Enqueues a job. The id must be new, the document registered, and its stage without a job; else
/// nothing changes.
pub fn enqueue(
    store: &mut ControlStore,
    job_id: &str,
    doc_id: &str,
    stage: Stage,
    priority: i64,
    params: Option<&str>,
    now_stamp: &str,
) -> (res: Result<(), DbError>)
    requires
        old(store).wf(),
    ensures
        final(store).wf(),
        final(store).docs() == old(store).docs(),
        final(store).intents() == old(store).intents(),
        final(store).default_max_attempts == old(store).default_max_attempts,
        if has_job_id(old(store).job_list(), job_id@) || has_job(
            old(store).job_list(),
            doc_id@,
            stage,
        ) || !has_doc(old(store).docs(), doc_id@) {
            &&& res is Err
            &&& res->Err_0 is Sqlite
            &&& final(store).job_list() == old(store).job_list()
        } else {
            &&& res is Ok
            &&& final(store).job_list() == old(store).job_list().push(
                new_job(
                    job_id@,
                    doc_id@,
                    stage,
                    priority as int,
                    old(store).default_max_attempts as int,
                    match params {
                        Some(p) => Some(p@),
                        None => None,
                    },
                    now_stamp@,
                ),
            )
        },
{
    if job_id_taken(store, job_id) {
        return Err(DbError::Sqlite("UNIQUE constraint failed: jobs.job_id".to_owned()));
    }
    if job_index(store, doc_id, stage).is_some() {
        return Err(
            DbError::Sqlite("UNIQUE constraint failed: jobs.doc_id, jobs.stage".to_owned()),
        );
    }
    if store.doc_index(doc_id).is_none() {
        return Err(DbError::Sqlite("FOREIGN KEY constraint failed".to_owned()));
    }
    let ghost before = *store;
    let row = JobRow {
        job_id: job_id.to_owned(),
        doc_id: doc_id.to_owned(),
        stage,
        status: JobStatus::Pending,
        priority,
        attempts: 0,
        max_attempts: store.default_max_attempts,
        next_attempt_at: None,
        lease_owner: None,
        lease_expires_at: None,
        last_error: None,
        params: match params {
            Some(p) => Some(p.to_owned()),
            None => None,
        },
        created_at: now_stamp.to_owned(),
        updated_at: now_stamp.to_owned(),
    };
    let ghost added = row@;
    store.jobs.push(row);
    proof {
        assert(added =~= new_job(
            job_id@,
            doc_id@,
            stage,
            priority as int,
            before.default_max_attempts as int,
            match params {
                Some(p) => Some(p@),
                None => None,
            },
            now_stamp@,
        ));
        assert(store.job_list() =~= before.job_list().push(added));
        lemma_added_job(before, *store, added);
    }
    Ok(())
}

// ---------------------------------------------------------------------------------------------
// Laws.
// ---------------------------------------------------------------------------------------------
/// Chaining never disturbs live work: a waiting or running job of the next stage stays exactly as it
/// is.
pub proof fn law_chain_keeps_live_jobs(
    jobs: Seq<JobView>,
    new_id: Seq<char>,
    doc_id: Seq<char>,
    stage: Stage,
    priority: int,
    max_attempts: int,
    now: Seq<char>,
    i: int,
)
    requires
        0 <= i < jobs.len(),
        jobs[i].status == JobStatus::Pending || jobs[i].status == JobStatus::Running,
    ensures
        chained(jobs, new_id, doc_id, stage, priority, max_attempts, now)[i] == jobs[i],
{
}

/// Chaining leaves a job of the stage it reaches, and every such job is in the queue or running.
pub proof fn law_chain_leaves_a_live_job(
    jobs: Seq<JobView>,
    new_id: Seq<char>,
    doc_id: Seq<char>,
    stage: Stage,
    priority: int,
    max_attempts: int,
    now: Seq<char>,
)
    ensures
        has_job(
            chained(jobs, new_id, doc_id, stage, priority, max_attempts, now),
            doc_id,
            stage,
        ),
        forall|i: int|
            0 <= i < chained(jobs, new_id, doc_id, stage, priority, max_attempts, now).len() && (
            #[trigger] chained(
                jobs,
                new_id,
                doc_id,
                stage,
                priority,
                max_attempts,
                now,
            )[i]).doc_id == doc_id && chained(
                jobs,
                new_id,
                doc_id,
                stage,
                priority,
                max_attempts,
                now,
            )[i].stage == stage ==> ({
                let j = chained(jobs, new_id, doc_id, stage, priority, max_attempts, now)[i];
                j.status == JobStatus::Pending || j.status == JobStatus::Running
            }),
{
    let after = chained(jobs, new_id, doc_id, stage, priority, max_attempts, now);
    if has_job(jobs, doc_id, stage) {
        let i = choose|i: int|
            0 <= i < jobs.len() && (#[trigger] jobs[i]).doc_id == doc_id && jobs[i].stage == stage;
        assert(after[i].doc_id == doc_id && after[i].stage == stage);
    } else {
        assert(after[jobs.len() as int].doc_id == doc_id);
        assert forall|i: int|
            0 <= i < after.len() && (#[trigger] after[i]).doc_id == doc_id && after[i].stage
                == stage implies after[i].status == JobStatus::Pending || after[i].status
            == JobStatus::Running by {
            if i < jobs.len() {
                assert(after[i] == jobs[i]);
            }
        }
    }
}

/// Backoff is real: a retried job cannot be claimed before it is due.
pub proof fn law_retry_waits_until_due(
    docs: Seq<DocumentView>,
    intents: Seq<DeletionView>,
    j: JobView,
    stage: Stage,
    at: Seq<char>,
    error: Seq<char>,
    then: Seq<char>,
    now: Seq<char>,
)
    requires
        text_less(now, at),
    ensures
        !claimable(docs, intents, retried(j, at, error, then), stage, now),
{
}

/// A lease protects its holder: a claimed job cannot be claimed again before its lease expires.
pub proof fn law_lease_excludes_others(
    docs: Seq<DocumentView>,
    intents: Seq<DeletionView>,
    j: JobView,
    stage: Stage,
    worker: Seq<char>,
    expires: Seq<char>,
    then: Seq<char>,
    now: Seq<char>,
)
    requires
        !text_less(expires, now),
    ensures
        !claimable(docs, intents, claimed(j, worker, expires, then), stage, now),
{
}

/// Completed and given-up jobs are never claimed, and neither are jobs of documents that are
/// archived or to be deleted.
pub proof fn law_finished_work_is_not_claimed(
    store: &ControlStore,
    i: int,
    stage: Stage,
    now: Seq<char>,
)
    requires
        store.wf(),
        is_next(store, i, stage, now),
    ensures
        store.job_list()[i].status == JobStatus::Pending || store.job_list()[i].status
            == JobStatus::Running,
        !has_deletion(store.intents(), store.job_list()[i].doc_id),
        forall|k: int|
            0 <= k < store.docs().len() && (#[trigger] store.docs()[k]).doc_id
                == store.job_list()[i].doc_id ==> store.docs()[k].status != DocStatus::Archived,
        store.job_list()[i].stage == stage,
{
}

/// The queue decides: at most one job is the next to claim.
pub proof fn law_next_job_is_unique(
    store: &ControlStore,
    i: int,
    j: int,
    stage: Stage,
    now: Seq<char>,
)
    requires
        is_next(store, i, stage, now),
        is_next(store, j, stage, now),
    ensures
        i == j,
{
    if i != j {
        let (a, b) = (store.job_list()[i], store.job_list()[j]);
        assert(queued_before(a, b) && queued_before(b, a));
        lemma_text_less_total(a.created_at, b.created_at);
        lemma_text_less_total(a.job_id, b.job_id);
    }
}

/// Attempts count ended executions, not claims: claiming a waiting job keeps its count, taking over
/// an expired run adds one.
pub proof fn law_attempts_count_ended_executions(
    j: JobView,
    worker: Seq<char>,
    expires: Seq<char>,
    now: Seq<char>,
)
    requires
        0 <= j.attempts < i64::MAX,
    ensures
        j.status == JobStatus::Pending ==> claimed(j, worker, expires, now).attempts == j.attempts,
        j.status == JobStatus::Running ==> claimed(j, worker, expires, now).attempts == j.attempts
            + 1,
{
}

/// Requeueing is idempotent: a second requeue finds nothing to reset.
pub proof fn law_requeue_is_idempotent(jobs: Seq<JobView>, doc_id: Seq<char>, now: Seq<char>, n: int)
    requires
        0 <= n <= jobs.len(),
    ensures
        requeue_count(
            jobs.map_values(
                |j: JobView|
                    if requeued(j, doc_id) {
                        reset(j, now)
                    } else {
                        j
                    },
            ),
            doc_id,
            n,
        ) == 0,
    decreases n,
{
    if n > 0 {
        law_requeue_is_idempotent(jobs, doc_id, now, n - 1);
    }
}

/// The claim takes work of higher urgency first and older work of one urgency first: of the jobs of a
/// stage that wait without a backoff or past it, for a registered document that is neither archived
/// nor to be deleted, none has a lower priority number than the job that is handed out, and none of
/// its number was created earlier.
pub proof fn law_claim_takes_the_oldest_of_the_most_urgent(
    store: &ControlStore,
    i: int,
    k: int,
    d: int,
    stage: Stage,
    now: Seq<char>,
)
    requires
        is_next(store, i, stage, now),
        0 <= k < store.job_list().len(),
        0 <= d < store.docs().len(),
        store.docs()[d].doc_id == store.job_list()[k].doc_id,
        store.docs()[d].status != DocStatus::Archived,
        forall|n: int|
            0 <= n < store.intents().len() ==> (#[trigger] store.intents()[n]).doc_id
                != store.job_list()[k].doc_id,
        store.job_list()[k].stage == stage,
        ({
            let j = store.job_list()[k];
            ||| j.status == JobStatus::Pending && j.next_attempt_at is None
            ||| j.status == JobStatus::Pending && !text_less(now, j.next_attempt_at->0)
            ||| j.status == JobStatus::Running && j.lease_expires_at is Some && text_less(
                j.lease_expires_at->0,
                now,
            )
        }),
    ensures
        store.job_list()[i].stage == stage,
        store.job_list()[i].priority <= store.job_list()[k].priority,
        store.job_list()[i].priority == store.job_list()[k].priority ==> !text_less(
            store.job_list()[k].created_at,
            store.job_list()[i].created_at,
        ),
        store.job_list()[i].priority == store.job_list()[k].priority
            && store.job_list()[i].created_at == store.job_list()[k].created_at ==> !text_less(
            store.job_list()[k].job_id,
            store.job_list()[i].job_id,
        ),
{
    let (a, b) = (store.job_list()[i], store.job_list()[k]);
    assert(workable(store.docs(), store.intents(), b.doc_id)) by {
        assert(store.docs()[d].doc_id == b.doc_id);
    }
    assert(claimable(store.docs(), store.intents(), b, stage, now));
    lemma_text_less_total(a.created_at, b.created_at);
    lemma_text_less_total(a.job_id, b.job_id);
}

/// Work that waits is handed out: a job of the stage that waits without a backoff, for a registered
/// document that is neither archived nor to be deleted, can be claimed at any time.
pub proof fn law_waiting_work_can_be_claimed(
    docs: Seq<DocumentView>,
    intents: Seq<DeletionView>,
    j: JobView,
    d: int,
    now: Seq<char>,
)
    requires
        0 <= d < docs.len(),
        docs[d].doc_id == j.doc_id,
        docs[d].status != DocStatus::Archived,
        forall|n: int| 0 <= n < intents.len() ==> (#[trigger] intents[n]).doc_id != j.doc_id,
        j.status == JobStatus::Pending,
    ensures
        j.next_attempt_at is None ==> claimable(docs, intents, j, j.stage, now),
        j.next_attempt_at == Some(now) ==> claimable(docs, intents, j, j.stage, now),
        forall|other: Stage| #[trigger] claimable(docs, intents, j, other, now) ==> other == j.stage,
{
    lemma_text_less_total(now, now);
    assert(docs[d].doc_id == j.doc_id);
}

/// An interrupted run is taken over: a claimed job whose lease is over can be claimed again, and by
/// then the ended execution is counted; the priority, the age and the parameters of a job stay as they
/// are.
pub proof fn law_expired_runs_are_taken_over(
    docs: Seq<DocumentView>,
    intents: Seq<DeletionView>,
    j: JobView,
    worker: Seq<char>,
    expires: Seq<char>,
    then: Seq<char>,
    now: Seq<char>,
    other: Seq<char>,
    later: Seq<char>,
)
    requires
        claimable(docs, intents, j, j.stage, then),
        text_less(expires, now),
        0 <= j.attempts < i64::MAX - 1,
    ensures
        claimable(docs, intents, claimed(j, worker, expires, then), j.stage, now),
        ({
            let first = claimed(j, worker, expires, then);
            let second = claimed(first, other, later, now);
            &&& first.lease_owner == Some(worker) && first.lease_expires_at == Some(expires)
            &&& second.lease_owner == Some(other) && second.lease_expires_at == Some(later)
            &&& second.attempts == first.attempts + 1
            &&& second.last_error == Some("lease expired"@)
            &&& second.job_id == j.job_id && second.doc_id == j.doc_id && second.stage == j.stage
            &&& second.priority == j.priority && second.created_at == j.created_at
            &&& second.params == j.params && second.max_attempts == j.max_attempts
            &&& second.updated_at == now
        }),
{
}

/// What a claim hands out is the job that is now leased: completing, retrying or giving up the job of
/// the handed-out id changes that job alone.
pub proof fn law_a_claim_names_its_job(
    jobs: Seq<JobView>,
    i: int,
    worker: Seq<char>,
    expires: Seq<char>,
    now: Seq<char>,
    f: spec_fn(JobView) -> JobView,
)
    requires
        0 <= i < jobs.len(),
        jobs_distinct(jobs),
    ensures
        ({
            let leased = claimed(jobs[i], worker, expires, now);
            let after = jobs.update(i, leased);
            let job = handed_out(leased);
            &&& on_job(after, job.job_id, f) == jobs.update(i, f(leased))
            &&& job.doc_id == jobs[i].doc_id
            &&& job.attempts == leased.attempts && job.max_attempts == jobs[i].max_attempts
            &&& job.priority == jobs[i].priority && job.params == jobs[i].params
        }),
{
    let leased = claimed(jobs[i], worker, expires, now);
    let after = jobs.update(i, leased);
    let one = on_job(after, handed_out(leased).job_id, f);
    let two = jobs.update(i, f(leased));
    assert forall|k: int| 0 <= k < two.len() implies one[k] == two[k] by {
        if k != i {
            assert(after[k] == jobs[k]);
            assert(jobs[k].job_id != jobs[i].job_id);
        }
    }
    assert(one =~= two);
}

/// Completing ends a job and no other: it is done, nobody holds it, it waits for nothing, and it is not
/// claimed again.
pub proof fn law_completion_ends_the_job(
    jobs: Seq<JobView>,
    id: Seq<char>,
    k: int,
    docs: Seq<DocumentView>,
    intents: Seq<DeletionView>,
    then: Seq<char>,
    stage: Stage,
    now: Seq<char>,
)
    requires
        0 <= k < jobs.len(),
    ensures
        ({
            let after = on_job(jobs, id, |j: JobView| completed(j, then));
            &&& after.len() == jobs.len()
            &&& jobs[k].job_id != id ==> after[k] == jobs[k]
            &&& jobs[k].job_id == id ==> {
                &&& after[k].status == JobStatus::Done
                &&& after[k].lease_owner is None && after[k].lease_expires_at is None
                &&& after[k].next_attempt_at is None
                &&& after[k].attempts == jobs[k].attempts
                &&& !claimable(docs, intents, after[k], stage, now)
            }
        }),
{
}

/// A failed attempt costs one: a retried job waits again with its error and one attempt more, and can
/// be claimed as soon as it is due.
pub proof fn law_retry_costs_one_attempt(
    docs: Seq<DocumentView>,
    intents: Seq<DeletionView>,
    j: JobView,
    at: Seq<char>,
    error: Seq<char>,
    then: Seq<char>,
    now: Seq<char>,
)
    requires
        0 <= j.attempts < i64::MAX,
        workable(docs, intents, j.doc_id),
        !text_less(now, at),
    ensures
        retried(j, at, error, then).status == JobStatus::Pending,
        retried(j, at, error, then).attempts == j.attempts + 1,
        retried(j, at, error, then).last_error == Some(error),
        retried(j, at, error, then).lease_owner is None,
        retried(j, at, error, then).priority == j.priority,
        retried(j, at, error, then).created_at == j.created_at,
        claimable(docs, intents, retried(j, at, error, then), j.stage, now),
{
}

/// Giving a job up is final and seen: the job is dead with its error and never claimed, and its document
/// has failed with that error.
pub proof fn law_given_up_jobs_stay_dead(
    docs: Seq<DocumentView>,
    intents: Seq<DeletionView>,
    j: JobView,
    d: DocumentView,
    error: Seq<char>,
    then: Seq<char>,
    stage: Stage,
    now: Seq<char>,
)
    ensures
        died(j, error, then).status == JobStatus::Dead,
        died(j, error, then).last_error == Some(error),
        died(j, error, then).lease_owner is None,
        died(j, error, then).attempts == j.attempts,
        !claimable(docs, intents, died(j, error, then), stage, now),
        failed(d, error, then).status == DocStatus::Failed,
        failed(d, error, then).error == Some(error),
        failed(d, error, then).doc_id == d.doc_id,
{
}

/// Requeueing gives a document's given-up and interrupted jobs a fresh start: each can be claimed at
/// once with no attempt spent and no error, and every other job, that of a completed stage too, is left
/// as it is.
pub proof fn law_requeue_starts_afresh(
    jobs: Seq<JobView>,
    doc_id: Seq<char>,
    k: int,
    docs: Seq<DocumentView>,
    intents: Seq<DeletionView>,
    then: Seq<char>,
    now: Seq<char>,
)
    requires
        0 <= k < jobs.len(),
        workable(docs, intents, doc_id),
    ensures
        ({
            let after = jobs.map_values(
                |j: JobView|
                    if requeued(j, doc_id) {
                        reset(j, then)
                    } else {
                        j
                    },
            );
            if jobs[k].doc_id == doc_id && (jobs[k].status == JobStatus::Dead || jobs[k].status
                == JobStatus::Running) {
                &&& claimable(docs, intents, after[k], jobs[k].stage, now)
                &&& after[k].attempts == 0
                &&& after[k].last_error is None
                &&& after[k].lease_owner is None
                &&& after[k].job_id == jobs[k].job_id && after[k].priority == jobs[k].priority
                &&& after[k].created_at == jobs[k].created_at
            } else {
                after[k] == jobs[k]
            }
        }),
{
}

/// A completed stage hands its document on: it has the milestone of the stage and no error, and where
/// the worker asked for the next stage, a job of exactly that stage of that document waits or runs.
pub proof fn law_completion_hands_the_document_on(
    jobs: Seq<JobView>,
    new_id: Seq<char>,
    d: DocumentView,
    stage: Stage,
    priority: int,
    max_attempts: int,
    now: Seq<char>,
)
    ensures
        advanced(d, stage, now).status == stage.reached(),
        advanced(d, stage, now).error is None,
        advanced(d, stage, now).doc_id == d.doc_id,
        advanced(d, stage, now).last_processed_at == Some(now),
        chain_target(stage, Completion::Done) is None,
        chain_target(stage, Completion::Chain) == stage.next(),
        stage.next() matches Some(next) ==> ({
            let after = chained(jobs, new_id, d.doc_id, next, priority, max_attempts, now);
            exists|i: int|
                {
                    &&& 0 <= i < after.len()
                    &&& (#[trigger] after[i]).doc_id == d.doc_id
                    &&& after[i].stage == next
                    &&& after[i].status == JobStatus::Pending || after[i].status == JobStatus::Running
                }
        }),
{
    if let Some(next) = stage.next() {
        law_chain_leaves_a_live_job(jobs, new_id, d.doc_id, next, priority, max_attempts, now);
        let after = chained(jobs, new_id, d.doc_id, next, priority, max_attempts, now);
        let i = choose|i: int|
            0 <= i < after.len() && (#[trigger] after[i]).doc_id == d.doc_id && after[i].stage == next;
        assert(after[i].doc_id == d.doc_id);
    }
}

/// A job that a chain queues begins anew: it waits with the priority of the job before it, no attempt
/// spent and no backoff.
pub proof fn law_chained_jobs_begin_anew(
    jobs: Seq<JobView>,
    new_id: Seq<char>,
    doc_id: Seq<char>,
    stage: Stage,
    priority: int,
    max_attempts: int,
    now: Seq<char>,
    i: int,
)
    requires
        0 <= i < chained(jobs, new_id, doc_id, stage, priority, max_attempts, now).len(),
    ensures
        ({
            let after = chained(jobs, new_id, doc_id, stage, priority, max_attempts, now);
            let fresh = i == jobs.len() || jobs[i].status == JobStatus::Done || jobs[i].status
                == JobStatus::Dead;
            if after[i].doc_id == doc_id && after[i].stage == stage && fresh {
                &&& after[i].status == JobStatus::Pending
                &&& after[i].priority == priority
                &&& after[i].attempts == 0
                &&& after[i].next_attempt_at is None
                &&& after[i].lease_owner is None
                &&& after[i].last_error is None
                &&& i < jobs.len() ==> after[i].job_id == jobs[i].job_id
                &&& i == jobs.len() ==> after[i].job_id == new_id && after[i].max_attempts
                    == max_attempts && after[i].created_at == now
            } else {
                i < jobs.len() && after[i] == jobs[i]
            }
        }),
{
}

/// A claim hands work out in the order of the queue: where it hands out a job, that is a job of the asked
/// stage that now runs for the worker, every other job is as it was, and no job that waits for the stage,
/// without a backoff, of a registered document that is neither archived nor to be deleted, is more urgent,
/// or as urgent and older. Where it hands out none, no such job waits.
pub proof fn law_claims_follow_the_queue(
    store: &mut ControlStore,
    stage: Stage,
    worker: &str,
    now: &str,
    lease_secs: u64,
    res: Result<Option<ClaimedJob>, DbError>,
    k: int,
    d: int,
)
    requires
        old(store).wf(),
        call_ensures(claim_next, (store, stage, worker, now, lease_secs), res),
        res is Ok,
        0 <= k < old(store).job_list().len(),
        0 <= d < old(store).docs().len(),
        old(store).docs()[d].doc_id == old(store).job_list()[k].doc_id,
        old(store).docs()[d].status != DocStatus::Archived,
        forall|n: int|
            0 <= n < old(store).intents().len() ==> (#[trigger] old(store).intents()[n]).doc_id != old(store).job_list()[k].doc_id,
        old(store).job_list()[k].stage == stage,
        old(store).job_list()[k].status == JobStatus::Pending,
        old(store).job_list()[k].next_attempt_at is None,
    ensures
        res->Ok_0 is Some,
        exists|i: int|
            {
                &&& 0 <= i < old(store).job_list().len() == final(store).job_list().len()
                &&& (#[trigger] old(store).job_list()[i]).job_id == res->Ok_0->0@.job_id
                &&& old(store).job_list()[i].doc_id == res->Ok_0->0@.doc_id
                &&& old(store).job_list()[i].stage == stage
                &&& old(store).job_list()[i].priority <= old(store).job_list()[k].priority
                &&& old(store).job_list()[i].priority == old(store).job_list()[k].priority ==> !text_less(
                    old(store).job_list()[k].created_at,
                    old(store).job_list()[i].created_at,
                )
                &&& final(store).job_list()[i].status == JobStatus::Running
                &&& final(store).job_list()[i].lease_owner == Some(worker@)
                &&& final(store).job_list()[i].job_id == old(store).job_list()[i].job_id
                &&& forall|n: int| 0 <= n < old(store).job_list().len() && n != i ==> #[trigger] final(store).job_list()[n] == old(store).job_list()[n]
            },
{
    let s = &*store;
    let jobs = s.job_list();
    law_waiting_work_can_be_claimed(s.docs(), s.intents(), jobs[k], d, now@);
    assert(claimable(s.docs(), s.intents(), jobs[k], stage, now@));
    let i = choose|i: int| #[trigger] is_next(s, i, stage, now@) && final(store).job_list()
        == jobs.update(
        i,
        claimed(
            jobs[i],
            worker@,
            shifted_stamp(now@, lease_secs as int)->0,
            now@,
        ),
    ) && res->Ok_0->0@ == handed_out(final(store).job_list()[i]);
    law_claim_takes_the_oldest_of_the_most_urgent(s, i, k, d, stage, now@);
    assert(jobs[i].job_id == res->Ok_0->0@.job_id);
}

/// Completing a job as a link of the chain ends it, moves its document on and queues the next stage: the job
/// is done, its document has the milestone of the stage and no error, a job of the next stage of that
/// document waits or runs, and what is of other documents is as it was.
pub proof fn law_completion_chains(
    store: &mut ControlStore,
    stage: Stage,
    job: &ClaimedJob,
    now: &str,
    new_id: &str,
    res: Result<(), DbError>,
    next: Stage,
    k: int,
    d: int,
)
    requires
        old(store).wf(),
        call_ensures(complete, (store, stage, job, Completion::Chain, now, new_id), res),
        res is Ok,
        stage == Stage::Scrape && next == Stage::Clean || stage == Stage::Clean && next
            == Stage::Vectorize || stage == Stage::Vectorize && next == Stage::Extract,
        0 <= k < old(store).job_list().len(),
        0 <= d < old(store).docs().len(),
    ensures
        ({
            let (before, after) = (old(store).job_list(), final(store).job_list());
            &&& before[k].job_id == job@.job_id && !(before[k].doc_id == job@.doc_id && before[k].stage
                == next) ==> after[k].status == JobStatus::Done && after[k].lease_owner is None
            &&& before[k].job_id != job@.job_id && before[k].doc_id != job@.doc_id ==> after[k]
                == before[k]
            &&& has_job(after, job@.doc_id, next)
            &&& forall|i: int|
                0 <= i < after.len() && (#[trigger] after[i]).doc_id == job@.doc_id && after[i].stage
                    == next ==> after[i].status == JobStatus::Pending || after[i].status
                    == JobStatus::Running
        }),
        old(store).docs()[d].doc_id == job@.doc_id ==> final(store).docs()[d].error is None && final(store).docs()[d].status == match stage {
            Stage::Scrape => DocStatus::Scraped,
            Stage::Clean => DocStatus::Cleaned,
            Stage::Vectorize => DocStatus::Vectorized,
            Stage::Extract => DocStatus::Indexed,
        },
        old(store).docs()[d].doc_id != job@.doc_id ==> final(store).docs()[d] == old(store).docs()[d],
{
    let before = old(store).job_list();
    let done = on_job(before, job@.job_id, |j: JobView| completed(j, now@));
    let most = old(store).default_max_attempts as int;
    law_chain_leaves_a_live_job(done, new_id@, job@.doc_id, next, job@.priority, most, now@);
    law_chained_jobs_begin_anew(done, new_id@, job@.doc_id, next, job@.priority, most, now@, k);
}

/// Retrying puts the job back to wait until its date with its error, and giving it up kills it and fails its
/// document; every other job and document is as it was.
pub proof fn law_failures_touch_their_job(
    store: &mut ControlStore,
    given: &mut ControlStore,
    id: &str,
    doc: &str,
    due_at: &str,
    error: &str,
    now: &str,
    k: int,
    d: int,
)
    requires
        old(store).wf(),
        old(given).wf(),
        call_ensures(retry, (store, id, due_at, error, now), ()),
        call_ensures(dead, (given, id, doc, error, now), ()),
        old(given).job_list() == old(store).job_list(),
        0 <= k < old(store).job_list().len(),
        0 <= d < old(given).docs().len(),
    ensures
        ({
            let before = old(store).job_list()[k];
            let (waits, died) = (final(store).job_list()[k], final(given).job_list()[k]);
            &&& before.job_id == id@ ==> {
                &&& waits.status == JobStatus::Pending && died.status == JobStatus::Dead
                &&& waits.next_attempt_at == Some(due_at@)
                &&& waits.last_error == Some(error@) && died.last_error == Some(error@)
                &&& waits.lease_owner is None && died.lease_owner is None
                &&& before.attempts < i64::MAX && before.attempts >= 0 ==> waits.attempts
                    == before.attempts + 1
            }
            &&& before.job_id != id@ ==> waits == before && died == before
        }),
        final(store).docs() == old(store).docs(),
        old(given).docs()[d].doc_id == doc@ ==> final(given).docs()[d].status == DocStatus::Failed
            && final(given).docs()[d].error == Some(error@),
        old(given).docs()[d].doc_id != doc@ ==> final(given).docs()[d] == old(given).docs()[d],
{
}

/// Requeueing makes a document's given-up and interrupted jobs wait again with no attempt spent, leaves its
/// completed and waiting ones and every other job alone, and tells how many it reset.
pub proof fn law_requeue_resets_what_stopped(
    store: &mut ControlStore,
    doc: &str,
    now: &str,
    count: usize,
    k: int,
)
    requires
        old(store).wf(),
        call_ensures(requeue, (store, doc, now), count),
        0 <= k < old(store).job_list().len(),
    ensures
        ({
            let (before, after) = (old(store).job_list()[k], final(store).job_list()[k]);
            if before.doc_id == doc@ && (before.status == JobStatus::Dead || before.status
                == JobStatus::Running) {
                &&& after.status == JobStatus::Pending && after.attempts == 0
                &&& after.next_attempt_at is None && after.lease_owner is None
                &&& after.last_error is None && after.job_id == before.job_id
                &&& count > 0
            } else {
                after == before
            }
        }),
        count <= old(store).job_list().len(),
{
    lemma_requeue_count(old(store).job_list(), doc@, k, old(store).job_list().len() as int);
}

proof fn lemma_requeue_count(jobs: Seq<JobView>, doc_id: Seq<char>, k: int, n: int)
    requires
        0 <= n <= jobs.len(),
        0 <= k < jobs.len(),
    ensures
        requeue_count(jobs, doc_id, n) <= n,
        k < n && requeued(jobs[k], doc_id) ==> requeue_count(jobs, doc_id, n) > 0,
    decreases n,
{
    if n > 0 {
        lemma_requeue_count(jobs, doc_id, k, n - 1);
    }
}

} // verus!
