use ohara::control::audit::{events_for_doc, reconcile_retention, record_event, AuditLog, ReconcileReport};
use ohara::control::db::{now_minus, now_plus, pending_migrations, shift, DbError};
use ohara::control::documents::{
    archive, due_for_recrawl, execute_deletion, find_id_by_content_hash, find_id_by_url, get,
    insert_new, join_path, mark_quality_rejected, pending_deletions, request_deletion,
    EnqueueOutcome, NewDocument,
};
use ohara::control::jobs::{claim_next, complete, dead, enqueue, find, requeue, retry};
use ohara::control::metrics::snapshot;
use ohara::control::models::{ClaimedJob, Completion, DocStatus, JobStatus, Stage, StageEvent};
use ohara::control::read_models::{entity_review_items, list_documents, overview, DocumentListQuery};
use ohara::control::entities::registry::{ensure_entity, EntityRegistry};
use ohara::control::entities::review::er_review_candidate;
use ohara::control::entities::triplets::{forget_document, ChunkRow, TripletStore};
use ohara::control::sites::{self, LadderHint, SitePolicy, SiteRow};
use ohara::control::store::{ControlStore, Document, JobRow};
use ohara::control::workers::{self, WorkerState, WorkerStatus};
use ohara::ops;

const NOW: &str = "2026-09-06 12:00:00";
const LATER: &str = "2026-09-06 12:05:00";
const NINETY_DAYS: u64 = 90 * 24 * 3600;

fn boot() -> ControlStore {
    ControlStore::new(5)
}

fn new_doc(slug: &str) -> NewDocument {
    NewDocument {
        source_url: format!("https://example.com/{slug}?utm_source=x"),
        source_url_normalized: format!("https://example.com/{slug}"),
        priority: 5,
        pipeline_version: "0.1.0".to_string(),
    }
}

fn seed_doc(store: &mut ControlStore, slug: &str) -> String {
    let id = format!("doc-{slug}");
    let job = format!("job-{slug}");
    insert_new(store, "data", &new_doc(slug), &id, &job, NOW).unwrap().doc_id().to_string()
}

fn claim(store: &mut ControlStore, stage: Stage) -> ClaimedJob {
    claim_next(store, stage, "w1", LATER, 60).unwrap().expect("claimable job")
}

fn job_status(store: &ControlStore, doc_id: &str, stage: Stage) -> Option<&'static str> {
    find(store, doc_id, stage).map(|j| j.status.as_str())
}

fn doc_status(store: &ControlStore, doc_id: &str) -> &'static str {
    get(store, doc_id).expect("row exists").status.as_str()
}

fn document_mut<'a>(store: &'a mut ControlStore, doc_id: &str) -> &'a mut Document {
    store.documents.iter_mut().find(|d| d.doc_id == doc_id).expect("row exists")
}

fn plain_document(id: &str, url: &str, status: DocStatus) -> Document {
    Document {
        doc_id: id.to_string(),
        source_url: url.to_string(),
        source_url_normalized: url.to_string(),
        raw_file_path: format!("raw/{id}"),
        clean_file_path: None,
        clean_content_hash: None,
        status,
        title: None,
        author: None,
        language: None,
        word_count: None,
        token_count: None,
        chunk_count: 0,
        http_status: None,
        etag: None,
        last_modified: None,
        fetched_at: None,
        next_crawl_at: None,
        created_at: NOW.to_string(),
        last_processed_at: None,
        error: None,
        pipeline_version: "test".to_string(),
    }
}

fn plain_job(id: &str, doc_id: &str, stage: Stage, status: JobStatus) -> JobRow {
    JobRow {
        job_id: id.to_string(),
        doc_id: doc_id.to_string(),
        stage,
        status,
        priority: 5,
        attempts: 0,
        max_attempts: 5,
        next_attempt_at: None,
        lease_owner: None,
        lease_expires_at: None,
        last_error: None,
        params: None,
        created_at: NOW.to_string(),
        updated_at: NOW.to_string(),
    }
}

// Timestamps ----------------------------------------------------------------------------------

#[test]
fn now_plus_advances_and_preserves_format() {
    let stamp = "2026-09-06 23:59:30";
    let advanced = now_plus(stamp, 60).expect("valid stamp");
    assert_eq!(advanced, "2026-09-07 00:00:30");
}

#[test]
fn now_plus_rejects_malformed_stamps() {
    let err = now_plus("not-a-timestamp", 60).expect_err("must reject");
    assert!(matches!(err, DbError::Timestamp { .. }));
    assert!(err.message().contains("not-a-timestamp"));
}

#[test]
fn stamps_move_both_ways_and_saturate() {
    assert_eq!(now_minus("2026-03-01 00:00:10", 20).unwrap(), "2026-02-28 23:59:50");
    assert_eq!(shift("2024-02-28 12:00:00", 86_400).unwrap(), "2024-02-29 12:00:00");
    assert_eq!(shift("2026-01-01 00:00:00", 0).unwrap(), "2026-01-01 00:00:00");
    assert_eq!(shift("2026-01-01 00:00:00", i64::MAX).unwrap(), "9999-12-31 23:59:59");
    assert_eq!(shift("2026-01-01 00:00:00", i64::MIN).unwrap(), "0000-01-01 00:00:00");
    assert_eq!(now_plus("2026-01-01 00:00:00", u64::MAX).unwrap(), "9999-12-31 23:59:59");
    assert_eq!(shift("2026-01-01 00:00:00", 400_000_000_000).unwrap(), "9999-12-31 23:59:59");
    assert_eq!(shift("2026-01-01 00:00:00", -400_000_000_000).unwrap(), "0000-01-01 00:00:00");
    assert!(shift("2026-01-01", i64::MAX).is_err());
}

#[test]
fn migrations_are_applied_in_order_and_once() {
    let all = vec!["0001".to_string(), "0002".to_string(), "0003".to_string()];
    assert_eq!(pending_migrations(&all, &Vec::new()), all);
    assert_eq!(pending_migrations(&all, &vec!["0001".to_string()]), ["0002", "0003"]);
    assert!(pending_migrations(&all, &all).is_empty());
}

// Documents -----------------------------------------------------------------------------------

#[test]
fn insert_new_creates_a_new_document_with_its_scrape_job() {
    let mut store = boot();

    let outcome = insert_new(&mut store, "data", &new_doc("a"), "id-a", "job-a", NOW).unwrap();

    let EnqueueOutcome::Enqueued { doc_id, job_id } = outcome else {
        panic!("fresh store must enqueue");
    };
    let doc = get(&store, &doc_id).expect("row exists");
    assert_eq!(doc.status, DocStatus::New, "no milestone completed yet");
    assert_eq!(doc.raw_file_path, format!("data/raw/{doc_id}.html.gz"));
    assert_eq!(doc.chunk_count, 0);
    let job = store.jobs.iter().find(|j| j.job_id == job_id).expect("job exists");
    assert_eq!(
        (job.stage.as_str(), job.status.as_str(), job.priority),
        ("SCRAPE", "PENDING", 5)
    );
}

#[test]
fn insert_new_reports_a_duplicate_url_as_a_value() {
    let mut store = boot();
    let first = match insert_new(&mut store, "data", &new_doc("a"), "id-a", "job-a", NOW).unwrap() {
        EnqueueOutcome::Enqueued { doc_id, .. } => doc_id,
        EnqueueOutcome::Duplicate { .. } => panic!("first insert enqueues"),
    };

    let second = insert_new(&mut store, "data", &new_doc("a"), "id-b", "job-b", NOW).unwrap();

    assert_eq!(second, EnqueueOutcome::Duplicate { doc_id: first.clone() });
    assert_eq!(
        (store.documents.len(), store.jobs.len()),
        (1, 1),
        "the duplicate registered nothing"
    );
}

#[test]
fn insert_new_refuses_an_id_that_is_taken() {
    let mut store = boot();
    insert_new(&mut store, "data", &new_doc("a"), "id-a", "job-a", NOW).unwrap();
    let err = insert_new(&mut store, "data", &new_doc("b"), "id-a", "job-b", NOW).unwrap_err();
    assert!(matches!(err, DbError::Sqlite(_)));
    let err = insert_new(&mut store, "data", &new_doc("b"), "id-b", "job-a", NOW).unwrap_err();
    assert!(matches!(err, DbError::Sqlite(_)));
    assert_eq!((store.documents.len(), store.jobs.len()), (1, 1));
}

#[test]
fn paths_join_with_one_separator() {
    assert_eq!(join_path("data", "raw"), "data/raw");
    assert_eq!(join_path("data/", "raw"), "data/raw");
    assert_eq!(join_path("", "raw"), "raw");
}

#[test]
fn lookups_resolve_by_url_and_content_hash() {
    let mut store = boot();
    let doc_id = match insert_new(&mut store, "data", &new_doc("a"), "id-a", "job-a", NOW).unwrap() {
        EnqueueOutcome::Enqueued { doc_id, .. } => doc_id,
        EnqueueOutcome::Duplicate { .. } => panic!("fresh store"),
    };

    assert_eq!(
        find_id_by_url(&store, "https://example.com/a").as_deref(),
        Some(doc_id.as_str())
    );
    assert_eq!(find_id_by_url(&store, "https://example.com/z"), None);
    assert_eq!(find_id_by_content_hash(&store, "nope"), None);
    document_mut(&mut store, &doc_id).clean_content_hash = Some("h1".to_string());
    assert_eq!(find_id_by_content_hash(&store, "h1").as_deref(), Some(doc_id.as_str()));
}

#[test]
fn quality_rejection_records_failed_quality_with_the_reason() {
    let mut store = boot();
    let doc_id = seed_doc(&mut store, "a");

    mark_quality_rejected(&mut store, &doc_id, "paywall markers", NOW);

    let doc = get(&store, &doc_id).unwrap();
    assert_eq!(doc.status, DocStatus::FailedQuality);
    assert_eq!(doc.error.as_deref(), Some("paywall markers"));
    assert_eq!(doc.last_processed_at.as_deref(), Some(NOW));
}

#[test]
fn due_for_recrawl_excludes_terminal_and_undated_documents() {
    let mut store = boot();
    let due_id = seed_doc(&mut store, "due");
    let future_id = seed_doc(&mut store, "future");
    let never_id = seed_doc(&mut store, "never");
    let failed_id = seed_doc(&mut store, "failed");
    document_mut(&mut store, &due_id).next_crawl_at = Some("2026-09-06 11:00:00".to_string());
    document_mut(&mut store, &future_id).next_crawl_at = Some("2026-09-06 23:00:00".to_string());
    let failed = document_mut(&mut store, &failed_id);
    failed.status = DocStatus::Failed;
    failed.next_crawl_at = Some("2026-09-06 11:00:00".to_string());

    let due = due_for_recrawl(&store, NOW);

    assert_eq!(due, vec![due_id], "past-due only; FAILED and undated never");
    let _ = (future_id, never_id);
}

#[test]
fn deletion_intent_executes_with_cascades_and_disappears() {
    let mut store = boot();
    let doc_id = seed_doc(&mut store, "a");
    let mut texts = TripletStore {
        chunks: vec![ChunkRow {
            chunk_id: "c1".to_string(),
            doc_id: doc_id.clone(),
            seq: 0,
            text: "SQLite is embedded".to_string(),
        }],
        triplets: Vec::new(),
    };

    request_deletion(&mut store, &doc_id, Some("user request"), NOW).unwrap();
    assert_eq!(pending_deletions(&store).len(), 1);

    assert!(execute_deletion(&mut store, &doc_id));
    forget_document(&mut texts, &doc_id);

    assert!(get(&store, &doc_id).is_none());
    assert!(pending_deletions(&store).is_empty(), "the intent row dies with the document");
    assert_eq!((store.jobs.len(), texts.chunks.len()), (0, 0), "the cascade removed dependents");
    assert!(!execute_deletion(&mut store, &doc_id), "a second execution finds nothing");
}

#[test]
fn a_repeated_deletion_request_keeps_one_intent() {
    let mut store = boot();
    let doc_id = seed_doc(&mut store, "a");
    request_deletion(&mut store, &doc_id, Some("first"), NOW).unwrap();
    request_deletion(&mut store, &doc_id, Some("second"), LATER).unwrap();
    assert_eq!(pending_deletions(&store).len(), 1);
}

#[test]
fn deletion_of_an_unknown_document_is_a_foreign_key_error() {
    let mut store = boot();
    let err = request_deletion(&mut store, "missing", None, NOW).unwrap_err();
    assert!(matches!(err, DbError::Sqlite(_)));
}

#[test]
fn milestone_advance_is_jobs_completes_concern_not_documents() {
    let mut store = boot();
    let doc_id = seed_doc(&mut store, "a");
    let job = claim_next(&mut store, Stage::Scrape, "w1", NOW, 60).unwrap().expect("claim");
    complete(&mut store, Stage::Scrape, &job, Completion::Chain, NOW, "next").unwrap();
    assert_eq!(get(&store, &doc_id).unwrap().status, DocStatus::Scraped);
}

#[test]
fn archived_documents_keep_their_row_and_are_not_crawled_again() {
    let mut store = boot();
    let doc_id = seed_doc(&mut store, "a");
    document_mut(&mut store, &doc_id).next_crawl_at = Some("2026-09-06 11:00:00".to_string());
    assert_eq!(due_for_recrawl(&store, NOW), vec![doc_id.clone()]);
    archive(&mut store, &doc_id, NOW);
    assert_eq!(doc_status(&store, &doc_id), "ARCHIVED");
    assert!(due_for_recrawl(&store, NOW).is_empty());
    assert!(store.is_valid());
}

// Jobs ----------------------------------------------------------------------------------------

#[test]
fn complete_chain_advances_milestone_and_enqueues_successor() {
    let mut store = boot();
    let doc_id = seed_doc(&mut store, "d1");
    let job = claim(&mut store, Stage::Scrape);

    complete(&mut store, Stage::Scrape, &job, Completion::Chain, LATER, "next").unwrap();

    assert_eq!(job_status(&store, &doc_id, Stage::Scrape), Some("DONE"));
    assert_eq!(doc_status(&store, &doc_id), "SCRAPED");
    let next = find(&store, &doc_id, Stage::Clean).expect("successor");
    assert_eq!(next.status.as_str(), "PENDING", "the successor job is chained in the same step");
    assert_eq!(next.priority, 5, "chained jobs inherit the completing job's priority");
}

#[test]
fn complete_chain_never_disturbs_a_live_successor_job() {
    let mut store = boot();
    let doc_id = seed_doc(&mut store, "d1");
    enqueue(&mut store, "pre-existing", &doc_id, Stage::Clean, 9, None, LATER).unwrap();
    let job = claim(&mut store, Stage::Scrape);

    complete(&mut store, Stage::Scrape, &job, Completion::Chain, LATER, "next").unwrap();

    let live = store.jobs.iter().find(|j| j.job_id == "pre-existing").unwrap();
    assert_eq!(
        (live.status.as_str(), live.priority, live.attempts),
        ("PENDING", 9, 0),
        "chaining resurrects terminal rows only"
    );
}

#[test]
fn complete_chain_resurrects_a_dead_successor() {
    let mut store = boot();
    let doc_id = seed_doc(&mut store, "d1");
    enqueue(&mut store, "dead-clean", &doc_id, Stage::Clean, 5, None, LATER).unwrap();
    let row = store.jobs.iter_mut().find(|j| j.job_id == "dead-clean").unwrap();
    row.status = JobStatus::Dead;
    row.attempts = 5;
    row.last_error = Some("boom".to_string());
    let job = claim(&mut store, Stage::Scrape);

    complete(&mut store, Stage::Scrape, &job, Completion::Chain, LATER, "next").unwrap();

    let row = store.jobs.iter().find(|j| j.job_id == "dead-clean").unwrap();
    assert_eq!(row.status.as_str(), "PENDING");
    assert_eq!(row.attempts, 0, "replay starts with a fresh attempt budget");
    assert_eq!(row.last_error, None::<String>);
}

#[test]
fn complete_milestone_ends_the_chain_when_the_graph_is_off() {
    let mut store = boot();
    let doc_id = seed_doc(&mut store, "d1");
    for stage in [Stage::Scrape, Stage::Clean] {
        let job = claim(&mut store, stage);
        let next = format!("after-{}", stage.as_str());
        complete(&mut store, stage, &job, Completion::Chain, LATER, &next).unwrap();
    }
    let job = claim(&mut store, Stage::Vectorize);

    complete(&mut store, Stage::Vectorize, &job, Completion::Milestone, LATER, "unused").unwrap();

    assert_eq!(doc_status(&store, &doc_id), "VECTORIZED");
    assert_eq!(
        job_status(&store, &doc_id, Stage::Extract),
        None,
        "no EXTRACT job when the graph is disabled"
    );
}

#[test]
fn complete_done_records_a_terminal_domain_outcome_only() {
    let mut store = boot();
    let doc_id = seed_doc(&mut store, "d1");
    mark_quality_rejected(&mut store, &doc_id, "word count < 50", LATER);
    let job = claim(&mut store, Stage::Scrape);

    complete(&mut store, Stage::Scrape, &job, Completion::Done, LATER, "unused").unwrap();

    assert_eq!(job_status(&store, &doc_id, Stage::Scrape), Some("DONE"));
    assert_eq!(
        doc_status(&store, &doc_id),
        "FAILED_QUALITY",
        "the stage's own outcome stands; complete must not overwrite it"
    );
    assert_eq!(
        job_status(&store, &doc_id, Stage::Clean),
        None,
        "a rejected document chains nothing"
    );
}

#[test]
fn complete_chain_clears_a_stale_error() {
    let mut store = boot();
    let doc_id = seed_doc(&mut store, "d1");
    document_mut(&mut store, &doc_id).error = Some("old failure".to_string());
    let job = claim(&mut store, Stage::Scrape);

    complete(&mut store, Stage::Scrape, &job, Completion::Chain, LATER, "next").unwrap();

    assert_eq!(
        get(&store, &doc_id).unwrap().error,
        None,
        "a completed milestone invalidates the last failure"
    );
}

#[test]
fn requeue_resets_dead_and_running_jobs_with_a_fresh_budget() {
    let mut store = boot();
    let doc_id = seed_doc(&mut store, "d1");
    let job = claim(&mut store, Stage::Scrape);
    complete(&mut store, Stage::Scrape, &job, Completion::Chain, LATER, "next").unwrap();
    let clean = claim(&mut store, Stage::Clean);
    dead(&mut store, clean.job_id(), &doc_id, "boom", LATER);

    let reset = requeue(&mut store, &doc_id, LATER);

    assert_eq!(reset, 1);
    assert_eq!(
        job_status(&store, &doc_id, Stage::Scrape),
        Some("DONE"),
        "completed stages are not re-run by requeue"
    );
    let row = store.jobs.iter().find(|j| j.job_id == clean.job_id()).unwrap();
    assert_eq!(row.status.as_str(), "PENDING");
    assert_eq!(row.attempts, 0, "requeue grants a fresh attempt budget");
    assert_eq!(row.last_error, None);
    assert_eq!(doc_status(&store, &doc_id), "FAILED", "milestone untouched until re-run");
}

#[test]
fn a_lease_excludes_other_workers_until_it_expires() {
    let mut store = boot();
    seed_doc(&mut store, "d1");
    let first = claim_next(&mut store, Stage::Scrape, "w1", NOW, 60).unwrap().expect("claim");
    assert!(claim_next(&mut store, Stage::Scrape, "w2", NOW, 60).unwrap().is_none());
    let again = claim_next(&mut store, Stage::Scrape, "w2", "2026-09-06 12:01:01", 60)
        .unwrap()
        .expect("the lease has expired");
    assert_eq!(first.job_id(), again.job_id());
    assert_eq!(store.jobs[0].lease_owner.as_deref(), Some("w2"));
    assert_eq!(store.jobs[0].lease_expires_at.as_deref(), Some("2026-09-06 12:02:01"));
}

#[test]
fn a_retried_job_waits_until_it_is_due() {
    let mut store = boot();
    let doc_id = seed_doc(&mut store, "d1");
    let job = claim_next(&mut store, Stage::Scrape, "w1", NOW, 60).unwrap().expect("claim");
    retry(&mut store, job.job_id(), "2026-09-06 12:10:00", "timeout", NOW);
    let row = find(&store, &doc_id, Stage::Scrape).unwrap();
    assert_eq!(row.status, JobStatus::Pending);
    assert_eq!(row.attempts, 1);
    assert_eq!(row.last_error.as_deref(), Some("timeout"));
    assert!(claim_next(&mut store, Stage::Scrape, "w1", "2026-09-06 12:09:59", 60).unwrap().is_none());
    assert!(claim_next(&mut store, Stage::Scrape, "w1", "2026-09-06 12:10:00", 60).unwrap().is_some());
}

#[test]
fn the_queue_takes_the_lowest_priority_value_first() {
    let mut store = boot();
    for slug in ["a", "b", "c"] {
        seed_doc(&mut store, slug);
    }
    let urgent = store.jobs.iter_mut().find(|j| j.job_id == "job-b").unwrap();
    urgent.priority = 1;
    let first = claim(&mut store, Stage::Scrape);
    assert_eq!(first.job_id(), "job-b");
    assert_eq!(first.priority(), 1);
    assert_eq!(first.max_attempts(), 5);
    assert_eq!(first.params(), None);
    assert_eq!(claim(&mut store, Stage::Scrape).job_id(), "job-a");
}

#[test]
fn jobs_of_a_document_to_be_deleted_are_not_claimed() {
    let mut store = boot();
    let doc_id = seed_doc(&mut store, "a");
    request_deletion(&mut store, &doc_id, None, NOW).unwrap();
    assert!(claim_next(&mut store, Stage::Scrape, "w1", NOW, 60).unwrap().is_none());
}

#[test]
fn a_malformed_stamp_claims_nothing() {
    let mut store = boot();
    let doc_id = seed_doc(&mut store, "a");
    let err = claim_next(&mut store, Stage::Scrape, "w1", "yesterday", 60).unwrap_err();
    assert!(matches!(err, DbError::Timestamp { .. }));
    assert_eq!(job_status(&store, &doc_id, Stage::Scrape), Some("PENDING"));
}

#[test]
fn enqueue_refuses_unknown_documents_and_taken_places() {
    let mut store = boot();
    let doc_id = seed_doc(&mut store, "a");
    for (job, doc, stage) in [
        ("new", "missing", Stage::Clean),
        ("job-a", doc_id.as_str(), Stage::Clean),
        ("new", doc_id.as_str(), Stage::Scrape),
    ] {
        let err = enqueue(&mut store, job, doc, stage, 5, None, NOW).unwrap_err();
        assert!(matches!(err, DbError::Sqlite(_)));
    }
    enqueue(&mut store, "new", &doc_id, Stage::Clean, 5, Some("{}"), NOW).unwrap();
    assert_eq!(claim(&mut store, Stage::Clean).params(), Some("{}"));
}

#[test]
fn stages_follow_each_other_and_reach_their_milestones() {
    let names: Vec<&str> = Stage::all().iter().map(|s| s.as_str()).collect();
    assert_eq!(names, ["SCRAPE", "CLEAN", "VECTORIZE", "EXTRACT"]);
    assert_eq!(Stage::Scrape.successor(), Some(Stage::Clean));
    assert_eq!(Stage::Extract.successor(), None);
    let reached: Vec<&str> = Stage::all().iter().map(|s| s.milestone()).collect();
    assert_eq!(reached, ["SCRAPED", "CLEANED", "VECTORIZED", "INDEXED"]);
    assert_eq!(DocStatus::from_str("FAILED_QUALITY"), Ok(DocStatus::FailedQuality));
    assert!(DocStatus::from_str("unknown").is_err());
}

// Operator commands ---------------------------------------------------------------------------

#[test]
fn lifecycle_commands_use_the_control_facade_and_are_idempotent() {
    let mut store = boot();
    let new = NewDocument {
        source_url: "https://example.com/lifecycle".to_string(),
        source_url_normalized: "https://example.com/lifecycle".to_string(),
        priority: 5,
        pipeline_version: "test".to_string(),
    };
    let doc_id = insert_new(&mut store, "data", &new, "doc", "job", NOW)
        .expect("document")
        .doc_id()
        .to_string();
    let job = claim_next(&mut store, Stage::Scrape, "test", NOW, 60)
        .expect("claim")
        .expect("scrape job");
    dead(&mut store, job.job_id(), &doc_id, "test failure", NOW);

    let requeued = ops::requeue(&mut store, &doc_id, NOW).expect("requeue");
    assert_eq!(requeued.jobs_reset, 1);
    assert_eq!(
        ops::requeue(&mut store, &doc_id, NOW).expect("idempotent requeue").jobs_reset,
        0
    );

    let archived = ops::archive(&mut store, &doc_id, NOW).expect("archive");
    assert_eq!(archived.doc_id, doc_id);
    assert_eq!(get(&store, &doc_id).unwrap().status, DocStatus::Archived);
    assert!(claim_next(&mut store, Stage::Scrape, "test", NOW, 60)
        .expect("archived jobs are not claimable")
        .is_none());

    let deleted = ops::delete_document(&mut store, &doc_id, NOW).expect("delete");
    assert_eq!(deleted.doc_id, doc_id);
    ops::delete_document(&mut store, &doc_id, NOW).expect("idempotent delete");
    assert_eq!(pending_deletions(&store).len(), 1);
}

#[test]
fn operator_commands_name_a_missing_document() {
    let mut store = boot();
    let err = ops::requeue(&mut store, "missing", NOW).expect_err("no such document");
    assert!(err.message().contains("missing"));
    assert!(ops::archive(&mut store, "missing", NOW).is_err());
    assert!(ops::delete_document(&mut store, "missing", NOW).is_err());
}

// Metrics and read models ---------------------------------------------------------------------

fn count_of(counts: &[(String, u64)], label: &str) -> Option<u64> {
    counts.iter().find(|c| c.0 == label).map(|c| c.1)
}

#[test]
fn snapshot_groups_control_state_and_due_documents() {
    let mut store = boot();
    let mut document = plain_document("doc-1", "https://a.test", DocStatus::Indexed);
    document.next_crawl_at = Some("2026-09-10 10:00:00".to_string());
    store.documents.push(document);
    store.jobs.push(plain_job("job-1", "doc-1", Stage::Extract, JobStatus::Done));
    let mut log = AuditLog::new();
    record_event(&mut log, Some("doc-1"), Some("job-1"), Some("EXTRACT"), "DONE", None, NOW).unwrap();
    let mut registry = EntityRegistry::new();
    assert!(er_review_candidate(&mut registry, "a", "b", 0.9_f64.to_bits(), NOW).unwrap());

    let metrics = snapshot(&store, &registry, &log, "2026-09-10 11:00:00");
    assert_eq!(metrics.captured_at, "2026-09-10 11:00:00");
    assert_eq!(count_of(&metrics.documents_by_status, "INDEXED"), Some(1));
    assert_eq!(metrics.jobs_by_stage_status[0].0, "EXTRACT");
    assert_eq!(count_of(&metrics.jobs_by_stage_status[0].1, "DONE"), Some(1));
    assert_eq!(count_of(&metrics.events_by_outcome, "DONE"), Some(1));
    assert_eq!(count_of(&metrics.events_by_stage, "EXTRACT"), Some(1));
    assert_eq!(metrics.pending_er_reviews, 1);
    assert_eq!(metrics.due_for_recrawl, 1);
}

#[test]
fn document_pages_use_a_stable_cursor_and_preserve_statuses() {
    let mut store = boot();
    store.documents.push(plain_document("doc-b", "https://doc-b.test", DocStatus::FailedQuality));
    store.documents.push(plain_document("doc-a", "https://doc-a.test", DocStatus::Indexed));

    let first = list_documents(
        &store,
        &DocumentListQuery { limit: 1, ..DocumentListQuery::default() },
    );
    assert_eq!(first.items[0].status, DocStatus::FailedQuality.as_str());
    assert_eq!(first.next_cursor.as_deref(), Some("doc-b"));

    let second = list_documents(
        &store,
        &DocumentListQuery { cursor: first.next_cursor, limit: 1, ..DocumentListQuery::default() },
    );
    assert_eq!(second.items[0].status, DocStatus::Indexed.as_str());
    assert!(second.next_cursor.is_none());
}

#[test]
fn document_lists_filter_by_status_and_text() {
    let mut store = boot();
    store.documents.push(plain_document("doc-b", "https://Rust.test", DocStatus::New));
    store.documents.push(plain_document("doc-a", "https://other.test", DocStatus::Indexed));
    let by_status = list_documents(
        &store,
        &DocumentListQuery { status: Some(DocStatus::Indexed), limit: 10, ..DocumentListQuery::default() },
    );
    assert_eq!(by_status.items.len(), 1);
    assert_eq!(by_status.items[0].doc_id, "doc-a");
    let by_text = list_documents(
        &store,
        &DocumentListQuery { search: Some("rust".to_string()), limit: 10, ..DocumentListQuery::default() },
    );
    assert_eq!(by_text.items.len(), 1);
    assert_eq!(by_text.items[0].doc_id, "doc-b");
}

#[test]
fn overview_returns_counts_and_only_active_queue_rows() {
    let mut store = boot();
    store.documents.push(plain_document("doc-1", "https://one.test", DocStatus::New));
    store.jobs.push(plain_job("job-pending", "doc-1", Stage::Scrape, JobStatus::Pending));
    store.jobs.push(plain_job("job-done", "doc-1", Stage::Clean, JobStatus::Done));

    let snapshot = overview(&store, 10);
    assert_eq!(count_of(&snapshot.documents_by_status, "NEW"), Some(1));
    assert_eq!(snapshot.queue.len(), 1);
    assert_eq!(snapshot.queue[0].job_status, "PENDING");
}

#[test]
fn entity_reviews_hydrate_both_candidates() {
    let mut registry = EntityRegistry::new();
    for (id, name) in [("entity-a", "Ohara"), ("entity-b", "O'hara")] {
        ensure_entity(&mut registry, id, name, "PRODUCT", None, NOW).expect("entity");
    }
    er_review_candidate(&mut registry, "entity-a", "entity-b", 0.91_f64.to_bits(), NOW)
        .expect("review");

    let reviews = entity_review_items(&registry);
    assert_eq!(reviews.len(), 1);
    assert_eq!(reviews[0].entity_a.canonical_name, "Ohara");
    assert_eq!(reviews[0].score.map(f64::from_bits), Some(0.91));
}

// Retention -----------------------------------------------------------------------------------

fn ancient() -> AuditLog {
    let mut log = AuditLog::new();
    record_event(&mut log, Some("ancient"), None, None, "DEAD", None, "2020-01-01 00:00:00").unwrap();
    log
}

#[test]
fn reconcile_prunes_stage_events_past_retention() {
    let mut log = ancient();
    record_event(&mut log, Some("d"), Some("j"), Some("SCRAPE"), "DONE", None, NOW).unwrap();

    let report = reconcile_retention(&mut log, NOW, NINETY_DAYS).unwrap();

    assert_eq!(report.stage_events_pruned, 1, "90-day retention");
    let again = reconcile_retention(&mut log, NOW, NINETY_DAYS).unwrap();
    assert_eq!(again.stage_events_pruned, 0, "a second sweep finds nothing");
    assert_eq!(log.events.len(), 1, "recent audit rows survive");
    let kept: Vec<StageEvent> = events_for_doc(&log, "d");
    assert_eq!(kept.len(), 1);
    assert_eq!(kept[0].outcome, "DONE");
    assert!(events_for_doc(&log, "ancient").is_empty());
}

#[test]
fn logs_out_of_order_are_told_apart() {
    let mut log = ancient();
    record_event(&mut log, Some("d"), None, None, "DONE", None, NOW).unwrap();
    assert!(log.is_valid());
    log.events.swap(0, 1);
    assert!(!log.is_valid());
    log.events.swap(0, 1);
    log.next_event_id = log.events[1].event_id;
    assert!(!log.is_valid());
}

#[test]
fn zero_retention_disables_pruning() {
    let mut log = ancient();

    let report = reconcile_retention(&mut log, NOW, 0).unwrap();

    assert_eq!(report.stage_events_pruned, 0);
    assert_eq!(log.events.len(), 1);
}

#[test]
fn reconcile_on_a_fresh_store_is_a_no_op() {
    let mut log = AuditLog::new();
    let report = reconcile_retention(&mut log, NOW, NINETY_DAYS).unwrap();
    assert_eq!(report, ReconcileReport::default(), "a clean boot reconciles nothing");
}

// Sites and workers ---------------------------------------------------------------------------

#[test]
fn absent_host_has_no_policy() {
    let rows: Vec<SiteRow> = Vec::new();
    assert_eq!(sites::get(&rows, "example.com"), None);
}

#[test]
fn set_then_get_roundtrips_the_policy() {
    let mut rows: Vec<SiteRow> = Vec::new();
    sites::set(&mut rows, "example.com", Some(5_000), Some(86_400), Some(LadderHint::Browser));
    let policy = sites::get(&rows, "example.com").expect("row");
    assert_eq!(
        policy,
        SitePolicy {
            rate_limit_ms: Some(5_000),
            recrawl_seconds: Some(86_400),
            fetch_hint: Some(LadderHint::Browser),
        }
    );

    // Unknown hint strings degrade to "no hint".
    sites::set(&mut rows, "other.com", None, None, None);
    rows.iter_mut().find(|r| r.host == "other.com").unwrap().fetch_hint = Some("??? ".to_string());
    let policy = sites::get(&rows, "other.com").expect("row");
    assert_eq!(policy.fetch_hint, None);

    sites::set(&mut rows, "example.com", None, None, None);
    assert_eq!(rows.len(), 2, "a host has one row");
    assert_eq!(sites::get(&rows, "example.com").expect("row").rate_limit_ms, None);
}

#[test]
fn worker_status_registers_updates_and_detects_staleness() {
    let now = "2026-09-12 12:00:00";
    let mut rows: Vec<WorkerStatus> = Vec::new();
    workers::register(&mut rows, "worker-a", 42, "2026-09-12 11:59:50");
    workers::update_state(
        &mut rows,
        "worker-a",
        WorkerState::Running,
        Some("CLEAN"),
        Some("job-a"),
        None,
        "2026-09-12 11:59:55",
    )
    .unwrap();
    workers::heartbeat(&mut rows, "worker-a", "2026-09-12 11:59:59").unwrap();

    let fresh = workers::latest(&rows, now, 10).unwrap().expect("worker observation");
    assert_eq!(fresh.status.state, WorkerState::Running);
    assert_eq!(fresh.status.current_stage.as_deref(), Some("CLEAN"));
    assert!(!fresh.stale);

    let stale = workers::latest(&rows, now, 0).unwrap().expect("worker observation");
    assert!(stale.stale);
}

#[test]
fn a_retried_boot_registers_one_worker() {
    let mut rows: Vec<WorkerStatus> = Vec::new();
    workers::register(&mut rows, "worker-a", 42, NOW);
    workers::register(&mut rows, "worker-b", 43, NOW);
    workers::register(&mut rows, "worker-a", 42, NOW);
    assert_eq!(rows.len(), 2);
    assert_eq!((rows[0].worker_id.as_str(), rows[0].process_id), ("worker-a", 42));
    assert_eq!(rows[0].state, WorkerState::Starting);
    assert_eq!(rows[0].started_at, NOW);
}

#[test]
fn an_unknown_worker_has_no_heartbeat() {
    let mut rows: Vec<WorkerStatus> = Vec::new();
    assert!(workers::heartbeat(&mut rows, "nobody", NOW).is_err());
    assert!(workers::latest(&rows, NOW, 10).unwrap().is_none());
}
