//! Control-plane metrics derived from the stored state and the audit rows.

use vstd::prelude::*;

use super::audit::{AuditLog, EventView};
use super::documents::{is_recrawl_due, recrawl_due};
use super::entities::registry::EntityRegistry;
use super::entities::review::{ReviewStatus, ReviewView};
use super::store::{ControlStore, DocumentView, JobView};
use crate::tally::{counted, counts, labels_of};
use crate::text::{ascending, same, texts};

verus! {

/// A consistent read of the control-plane metrics used by the operator view.
#[derive(Debug, Clone, PartialEq, Eq)]
pub struct MetricsSnapshot {
    /// UTC timestamp at which the snapshot's due-date checks were evaluated.
    pub captured_at: String,
    /// Number of documents grouped by their milestone/status, by ascending status.
    pub documents_by_status: Vec<(String, u64)>,
    /// Number of jobs grouped by pipeline stage and execution status, both ascending.
    pub jobs_by_stage_status: Vec<(String, Vec<(String, u64)>)>,
    /// Number of retained audit events grouped by outcome.
    pub events_by_outcome: Vec<(String, u64)>,
    /// Number of retained audit events grouped by stage.
    pub events_by_stage: Vec<(String, u64)>,
    /// Number of unresolved cross-document entity-review candidates.
    pub pending_er_reviews: u64,
    /// Number of documents currently eligible for a conditional re-crawl.
    pub due_for_recrawl: u64,
}

/// The statuses of documents.
pub open spec fn status_labels(docs: Seq<DocumentView>) -> Seq<Seq<char>> {
    docs.map_values(|d: DocumentView| d.status.name())
}

/// The stages of jobs.
pub open spec fn stage_labels(jobs: Seq<JobView>) -> Seq<Seq<char>> {
    jobs.map_values(|j: JobView| j.stage.name())
}

/// The execution statuses of the jobs of a stage.
pub open spec fn stage_statuses(jobs: Seq<JobView>, stage: Seq<char>) -> Seq<Seq<char>> {
    jobs.filter(|j: JobView| j.stage.name() == stage).map_values(|j: JobView| j.status.name())
}

/// The outcomes of events.
pub open spec fn outcome_labels(events: Seq<EventView>) -> Seq<Seq<char>> {
    events.map_values(|e: EventView| e.outcome)
}

/// The stages of events; an event without one counts as `(none)`.
pub open spec fn event_stage_labels(events: Seq<EventView>) -> Seq<Seq<char>> {
    events.map_values(
        |e: EventView|
            match e.stage {
                Some(s) => s,
                None => "(none)"@,
            },
    )
}

/// The stages of nested counts.
pub open spec fn outer_labels(nested: Seq<(String, Vec<(String, u64)>)>) -> Seq<Seq<char>> {
    nested.map_values(|n: (String, Vec<(String, u64)>)| n.0@)
}

/// Whether `nested` counts the jobs of every stage by their execution status.
pub open spec fn jobs_counted(jobs: Seq<JobView>, nested: Seq<(String, Vec<(String, u64)>)>) -> bool {
    &&& ascending(outer_labels(nested))
    &&& forall|l: Seq<char>| #[trigger]
        outer_labels(nested).contains(l) <==> stage_labels(jobs).contains(l)
    &&& forall|i: int|
        0 <= i < nested.len() ==> counted(
            stage_statuses(jobs, (#[trigger] nested[i]).0@),
            nested[i].1@,
        )
}

/// The labels of the statuses of documents.
pub fn document_statuses(store: &ControlStore) -> (res: Vec<String>)
    ensures
        texts(res@) == status_labels(store.docs()),
{
    let ghost docs = store.docs();
    let mut res: Vec<String> = Vec::new();
    let mut i: usize = 0;
    while i < store.documents.len()
        invariant
            i <= store.documents@.len(),
            docs == store.docs(),
            texts(res@) =~= status_labels(docs).take(i as int),
        decreases store.documents@.len() - i,
    {
        let ghost before = texts(res@);
        let label = store.documents[i].status.as_str().to_owned();
        assert(docs[i as int] == store.documents@[i as int]@);
        res.push(label);
        assert(texts(res@) =~= before.push(label@));
        i = i + 1;
    }
    assert(status_labels(docs).take(i as int) =~= status_labels(docs));
    res
}

fn grouped_job_counts(store: &ControlStore) -> (res: Vec<(String, Vec<(String, u64)>)>)
    ensures
        jobs_counted(store.job_list(), res@),
{
    let ghost jobs = store.job_list();
    let mut stages: Vec<String> = Vec::new();
    let mut i: usize = 0;
    while i < store.jobs.len()
        invariant
            i <= store.jobs@.len(),
            jobs == store.job_list(),
            texts(stages@) =~= stage_labels(jobs).take(i as int),
        decreases store.jobs@.len() - i,
    {
        let ghost before = texts(stages@);
        let label = store.jobs[i].stage.as_str().to_owned();
        assert(jobs[i as int] == store.jobs@[i as int]@);
        stages.push(label);
        assert(texts(stages@) =~= before.push(label@));
        i = i + 1;
    }
    assert(stage_labels(jobs).take(i as int) =~= stage_labels(jobs));
    let outer = counts(&stages);
    let mut res: Vec<(String, Vec<(String, u64)>)> = Vec::new();
    let mut k: usize = 0;
    while k < outer.len()
        invariant
            k <= outer@.len(),
            jobs == store.job_list(),
            outer_labels(res@) =~= labels_of(outer@).take(k as int),
            forall|j: int|
                0 <= j < res@.len() ==> counted(
                    stage_statuses(jobs, (#[trigger] res@[j]).0@),
                    res@[j].1@,
                ),
        decreases outer@.len() - k,
    {
        let ghost before = outer_labels(res@);
        let statuses = statuses_of_stage(store, outer[k].0.as_str());
        let inner = counts(&statuses);
        let label = outer[k].0.clone();
        res.push((label, inner));
        assert(outer_labels(res@) =~= before.push(label@));
        k = k + 1;
    }
    assert(labels_of(outer@).take(k as int) =~= labels_of(outer@));
    res
}

fn statuses_of_stage(store: &ControlStore, stage: &str) -> (res: Vec<String>)
    ensures
        texts(res@) == stage_statuses(store.job_list(), stage@),
{
    let ghost jobs = store.job_list();
    let ghost hit = |j: JobView| j.stage.name() == stage@;
    let ghost label = |j: JobView| j.status.name();
    let mut res: Vec<String> = Vec::new();
    let mut i: usize = 0;
    assert(texts(res@) =~= jobs.take(0).filter(hit).map_values(label)) by {
        reveal(Seq::filter);
    }
    while i < store.jobs.len()
        invariant
            i <= store.jobs@.len(),
            jobs == store.job_list(),
            hit == (|j: JobView| j.stage.name() == stage@),
            label == (|j: JobView| j.status.name()),
            texts(res@) == jobs.take(i as int).filter(hit).map_values(label),
        decreases store.jobs@.len() - i,
    {
        let row = &store.jobs[i];
        let ghost before = texts(res@);
        let ghost kept = jobs.take(i as int).filter(hit);
        proof {
            reveal(Seq::filter);
            assert(jobs.take(i + 1).drop_last() =~= jobs.take(i as int));
            assert(jobs.take(i + 1).last() == row@);
        }
        if same(row.stage.as_str(), stage) {
            let item = row.status.as_str().to_owned();
            res.push(item);
            assert(texts(res@) =~= before.push(item@));
            assert(kept.push(row@).map_values(label) =~= before.push(label(row@)));
        }
        i = i + 1;
    }
    assert(jobs.take(i as int) =~= jobs);
    res
}

fn event_labels(log: &AuditLog) -> (res: (Vec<String>, Vec<String>))
    ensures
        texts(res.0@) == outcome_labels(log.event_list()),
        texts(res.1@) == event_stage_labels(log.event_list()),
{
    let ghost events = log.event_list();
    let mut outcomes: Vec<String> = Vec::new();
    let mut stages: Vec<String> = Vec::new();
    let mut i: usize = 0;
    while i < log.events.len()
        invariant
            i <= log.events@.len(),
            events == log.event_list(),
            texts(outcomes@) =~= outcome_labels(events).take(i as int),
            texts(stages@) =~= event_stage_labels(events).take(i as int),
        decreases log.events@.len() - i,
    {
        let ghost (a, b) = (texts(outcomes@), texts(stages@));
        let row = &log.events[i];
        assert(events[i as int] == row@);
        let outcome = row.outcome.clone();
        let stage = match &row.stage {
            Some(s) => s.clone(),
            None => "(none)".to_owned(),
        };
        outcomes.push(outcome);
        stages.push(stage);
        assert(texts(outcomes@) =~= a.push(outcome@));
        assert(texts(stages@) =~= b.push(stage@));
        i = i + 1;
    }
    assert(outcome_labels(events).take(i as int) =~= outcome_labels(events));
    assert(event_stage_labels(events).take(i as int) =~= event_stage_labels(events));
    (outcomes, stages)
}

/// The number of documents due for re-crawl.
pub open spec fn due_count(docs: Seq<DocumentView>, now: Seq<char>) -> nat {
    docs.filter(|d: DocumentView| recrawl_due(d, now)).len()
}

/// The number of pending reviews.
pub open spec fn pending_count(reviews: Seq<ReviewView>) -> nat {
    reviews.filter(|r: ReviewView| r.status == ReviewStatus::Pending).len()
}

fn count_due(store: &ControlStore, now_stamp: &str) -> (res: u64)
    ensures
        res == due_count(store.docs(), now_stamp@),
{
    let ghost docs = store.docs();
    let ghost hit = |d: DocumentView| recrawl_due(d, now_stamp@);
    let mut res: u64 = 0;
    let mut i: usize = 0;
    assert(docs.take(0).filter(hit).len() == 0) by {
        reveal(Seq::filter);
    }
    while i < store.documents.len()
        invariant
            i <= store.documents@.len(),
            docs == store.docs(),
            hit == (|d: DocumentView| recrawl_due(d, now_stamp@)),
            res <= i,
            res == docs.take(i as int).filter(hit).len(),
        decreases store.documents@.len() - i,
    {
        proof {
            reveal(Seq::filter);
            assert(docs.take(i + 1).drop_last() =~= docs.take(i as int));
            assert(docs.take(i + 1).last() == store.documents@[i as int]@);
        }
        if is_recrawl_due(&store.documents[i], now_stamp) {
            res = res + 1;
        }
        i = i + 1;
    }
    assert(docs.take(i as int) =~= docs);
    res
}

fn count_pending(registry: &EntityRegistry) -> (res: u64)
    ensures
        res == pending_count(registry.review_list()),
{
    let ghost reviews = registry.review_list();
    let ghost hit = |r: ReviewView| r.status == ReviewStatus::Pending;
    let mut res: u64 = 0;
    let mut i: usize = 0;
    assert(reviews.take(0).filter(hit).len() == 0) by {
        reveal(Seq::filter);
    }
    while i < registry.reviews.len()
        invariant
            i <= registry.reviews@.len(),
            reviews == registry.review_list(),
            hit == (|r: ReviewView| r.status == ReviewStatus::Pending),
            res <= i,
            res == reviews.take(i as int).filter(hit).len(),
        decreases registry.reviews@.len() - i,
    {
        proof {
            reveal(Seq::filter);
            assert(reviews.take(i + 1).drop_last() =~= reviews.take(i as int));
            assert(reviews.take(i + 1).last() == registry.reviews@[i as int]@);
        }
        if registry.reviews[i].status == ReviewStatus::Pending {
            res = res + 1;
        }
        i = i + 1;
    }
    assert(reviews.take(i as int) =~= reviews);
    res
}

/// Reads a metrics snapshot.
pub fn snapshot(
    store: &ControlStore,
    registry: &EntityRegistry,
    log: &AuditLog,
    now_stamp: &str,
) -> (res: MetricsSnapshot)
    ensures
        res.captured_at@ == now_stamp@,
        counted(status_labels(store.docs()), res.documents_by_status@),
        jobs_counted(store.job_list(), res.jobs_by_stage_status@),
        counted(outcome_labels(log.event_list()), res.events_by_outcome@),
        counted(event_stage_labels(log.event_list()), res.events_by_stage@),
        res.pending_er_reviews == pending_count(registry.review_list()),
        res.due_for_recrawl == due_count(store.docs(), now_stamp@),
{
    let statuses = document_statuses(store);
    let (outcomes, stages) = event_labels(log);
    MetricsSnapshot {
        captured_at: now_stamp.to_owned(),
        documents_by_status: counts(&statuses),
        jobs_by_stage_status: grouped_job_counts(store),
        events_by_outcome: counts(&outcomes),
        events_by_stage: counts(&stages),
        pending_er_reviews: count_pending(registry),
        due_for_recrawl: count_due(store, now_stamp),
    }
}

proof fn lemma_status_count(docs: Seq<DocumentView>, label: Seq<char>)
    ensures
        crate::tally::occurrences(status_labels(docs), label) == docs.filter(
            |d: DocumentView| d.status.name() == label,
        ).len(),
    decreases docs.len(),
{
    reveal(Seq::filter);
    if docs.len() > 0 {
        lemma_status_count(docs.drop_last(), label);
        assert(status_labels(docs).drop_last() =~= status_labels(docs.drop_last()));
    }
}

proof fn lemma_outcome_count(events: Seq<EventView>, label: Seq<char>)
    ensures
        crate::tally::occurrences(outcome_labels(events), label) == events.filter(
            |e: EventView| e.outcome == label,
        ).len(),
        crate::tally::occurrences(event_stage_labels(events), label) == events.filter(
            |e: EventView|
                e.stage == Some(label) || (e.stage is None && label == "(none)"@),
        ).len(),
    decreases events.len(),
{
    reveal(Seq::filter);
    if events.len() > 0 {
        lemma_outcome_count(events.drop_last(), label);
        assert(outcome_labels(events).drop_last() =~= outcome_labels(events.drop_last()));
        assert(event_stage_labels(events).drop_last() =~= event_stage_labels(events.drop_last()));
    }
}

proof fn lemma_job_count(jobs: Seq<JobView>, stage: Seq<char>, label: Seq<char>)
    ensures
        crate::tally::occurrences(stage_statuses(jobs, stage), label) == jobs.filter(
            |j: JobView| j.stage.name() == stage && j.status.name() == label,
        ).len(),
    decreases jobs.len(),
{
    reveal(Seq::filter);
    let p = |j: JobView| j.stage.name() == stage;
    if jobs.len() > 0 {
        let front = jobs.drop_last();
        lemma_job_count(front, stage, label);
        if p(jobs.last()) {
            assert(stage_statuses(jobs, stage).drop_last() =~= stage_statuses(front, stage));
            assert(stage_statuses(jobs, stage).last() == jobs.last().status.name());
        } else {
            assert(stage_statuses(jobs, stage) =~= stage_statuses(front, stage));
        }
    } else {
        assert(stage_statuses(jobs, stage).len() == 0);
    }
}

/// A snapshot counts what is stored: of documents those of a status, of jobs those of a stage and a status,
/// of events those of an outcome and those of a stage, an event without one among `(none)`; and the
/// pending reviews and the documents that are due.
pub proof fn law_snapshots_count_what_is_stored(
    store: &ControlStore,
    registry: &EntityRegistry,
    log: &AuditLog,
    now: &str,
    res: MetricsSnapshot,
    i: int,
    k: int,
)
    requires
        call_ensures(snapshot, (store, registry, log, now), res),
    ensures
        res.captured_at@ == now@,
        0 <= i < res.documents_by_status@.len() ==> {
            let (label, n) = res.documents_by_status@[i];
            n == store.docs().filter(|d: DocumentView| d.status.name() == label@).len()
        },
        0 <= i < res.jobs_by_stage_status@.len() && 0 <= k < res.jobs_by_stage_status@[i].1@.len() ==> {
            let stage = res.jobs_by_stage_status@[i].0;
            let (label, n) = res.jobs_by_stage_status@[i].1@[k];
            n == store.job_list().filter(
                |j: JobView| j.stage.name() == stage@ && j.status.name() == label@,
            ).len()
        },
        0 <= i < res.events_by_outcome@.len() ==> {
            let (label, n) = res.events_by_outcome@[i];
            n == log.event_list().filter(|e: EventView| e.outcome == label@).len()
        },
        0 <= i < res.events_by_stage@.len() ==> {
            let (label, n) = res.events_by_stage@[i];
            n == log.event_list().filter(
                |e: EventView|
                    e.stage == Some(label@) || (e.stage is None && label@ == "(none)"@),
            ).len()
        },
        0 <= i < store.docs().len() ==> labels_of(res.documents_by_status@).contains(
            store.docs()[i].status.name(),
        ),
        0 <= i < log.event_list().len() ==> labels_of(res.events_by_outcome@).contains(
            log.event_list()[i].outcome,
        ),
{
    if 0 <= i < res.documents_by_status@.len() {
        lemma_status_count(store.docs(), res.documents_by_status@[i].0@);
    }
    if 0 <= i < res.jobs_by_stage_status@.len() && 0 <= k < res.jobs_by_stage_status@[i].1@.len() {
        let (stage, inner) = res.jobs_by_stage_status@[i];
        assert(counted(stage_statuses(store.job_list(), stage@), inner@));
        lemma_job_count(store.job_list(), stage@, inner@[k].0@);
    }
    if 0 <= i < res.events_by_outcome@.len() {
        lemma_outcome_count(log.event_list(), res.events_by_outcome@[i].0@);
    }
    if 0 <= i < res.events_by_stage@.len() {
        lemma_outcome_count(log.event_list(), res.events_by_stage@[i].0@);
    }
    if 0 <= i < store.docs().len() {
        assert(status_labels(store.docs())[i] == store.docs()[i].status.name());
        assert(status_labels(store.docs()).contains(store.docs()[i].status.name()));
    }
    if 0 <= i < log.event_list().len() {
        assert(outcome_labels(log.event_list())[i] == log.event_list()[i].outcome);
        assert(outcome_labels(log.event_list()).contains(log.event_list()[i].outcome));
    }
}

} // verus!
