//! Operator services over the control store: requeueing, archiving and deleting documents, and where
//! a backup may lie.

use vstd::prelude::*;
use vstd::string::StringExecFns;

use crate::control::db::DbError;
use crate::control::documents;
use crate::control::documents::{archived, recrawl_due};
use crate::control::jobs;
use crate::control::jobs::{claimable, on_doc, requeue_count, requeued, reset};
use crate::control::models::{DocStatus, Stage};
use crate::control::store::{
    has_deletion, has_doc, ControlStore, DeletionView, DocumentView, JobView,
};
use crate::text::{debug_form, debug_string, decimal, decimal_string, same, texts};

verus! {

/// The version of the layout of a backup.
pub const BACKUP_FORMAT_VERSION: u32 = 1;

/// The name of the file whose lock the worker and the operator share.
pub const RUNTIME_LOCK_NAME: &'static str = ".ohara.lock";

/// Why an operator deletes a document.
pub const OPERATOR_DELETE_REASON: &'static str = "operator request";

/// Operator failures.
#[derive(Debug)]
pub enum OpsError {
    /// The worker or another operator process currently owns the runtime lock.
    RuntimeBusy {
        /// Lock path.
        path: String,
    },
    /// An I/O operation failed at a specific path.
    Io {
        /// Path involved in the operation.
        path: String,
        /// Underlying failure.
        source: String,
    },
    /// The control store failed.
    Control(DbError),
    /// The requested document is not registered.
    DocumentNotFound {
        /// Requested document id.
        doc_id: String,
    },
    /// The destination already exists; backups never overwrite an existing snapshot.
    DestinationExists {
        /// Existing destination.
        path: String,
    },
    /// A backup cannot be placed inside the live data root or at the live database path.
    DestinationInsideSource {
        /// Invalid destination.
        path: String,
    },
    /// A source entry is not a regular file or directory.
    UnsupportedEntry {
        /// Unsupported source path.
        path: String,
    },
    /// The manifest could not be encoded.
    Manifest(String),
}

impl OpsError {
    /// The message of the error.
    pub open spec fn text(self) -> Seq<char> {
        match self {
            OpsError::RuntimeBusy { path } => "ohara is busy; runtime lock is held at "@
                + debug_form(path@),
            OpsError::Io { path, source } => "I/O at "@ + debug_form(path@) + ": "@ + source@,
            OpsError::Control(e) => "control snapshot: "@ + e.text(),
            OpsError::DocumentNotFound { doc_id } => "document not found: "@ + doc_id@,
            OpsError::DestinationExists { path } => "backup destination already exists: "@
                + debug_form(path@),
            OpsError::DestinationInsideSource { path } =>
                "backup destination must be outside the live data root: "@ + debug_form(path@),
            OpsError::UnsupportedEntry { path } => "unsupported runtime entry at "@ + debug_form(
                path@,
            ),
            OpsError::Manifest(m) => "backup manifest: "@ + m@,
        }
    }

    /// The message of the error.
    pub fn message(&self) -> (res: String)
        ensures
            res@ == self.text(),
    {
        match self {
            OpsError::RuntimeBusy { path } => {
                let mut s = "ohara is busy; runtime lock is held at ".to_owned();
                s.append(debug_string(path.as_str()).as_str());
                s
            },
            OpsError::Io { path, source } => {
                let mut s = "I/O at ".to_owned();
                s.append(debug_string(path.as_str()).as_str());
                s.append(": ");
                s.append(source.as_str());
                s
            },
            OpsError::Control(e) => {
                let mut s = "control snapshot: ".to_owned();
                s.append(e.message().as_str());
                s
            },
            OpsError::DocumentNotFound { doc_id } => {
                let mut s = "document not found: ".to_owned();
                s.append(doc_id.as_str());
                s
            },
            OpsError::DestinationExists { path } => {
                let mut s = "backup destination already exists: ".to_owned();
                s.append(debug_string(path.as_str()).as_str());
                s
            },
            OpsError::DestinationInsideSource { path } => {
                let mut s = "backup destination must be outside the live data root: ".to_owned();
                s.append(debug_string(path.as_str()).as_str());
                s
            },
            OpsError::UnsupportedEntry { path } => {
                let mut s = "unsupported runtime entry at ".to_owned();
                s.append(debug_string(path.as_str()).as_str());
                s
            },
            OpsError::Manifest(m) => {
                let mut s = "backup manifest: ".to_owned();
                s.append(m.as_str());
                s
            },
        }
    }
}

/// A completed backup location.
#[derive(Debug)]
pub struct BackupReport {
    destination: String,
}

impl BackupReport {
    /// The committed backup directory.
    pub closed spec fn location(self) -> Seq<char> {
        self.destination@
    }

    /// The report of a backup at a place.
    pub fn new(destination: String) -> (res: BackupReport)
        ensures
            res.location() == destination@,
    {
        BackupReport { destination }
    }

    /// The committed backup directory.
    pub fn destination(&self) -> (res: &str)
        ensures
            res@ == self.location(),
    {
        self.destination.as_str()
    }
}

/// Result of resetting a document's failed or interrupted jobs.
#[derive(Debug, Clone, PartialEq, Eq)]
pub struct RequeueReport {
    /// Document whose jobs were reset.
    pub doc_id: String,
    /// Number of given-up or interrupted jobs reset.
    pub jobs_reset: usize,
}

/// Result of marking a document archived.
#[derive(Debug, Clone, PartialEq, Eq)]
pub struct ArchiveReport {
    /// Document marked archived.
    pub doc_id: String,
}

/// Result of recording a deletion intent.
#[derive(Debug, Clone, PartialEq, Eq)]
pub struct DeleteReport {
    /// Document whose deletion was requested.
    pub doc_id: String,
}

/// Whether a path leads into a directory: its parts begin with those of the directory.
pub open spec fn leads_into(path: Seq<Seq<char>>, dir: Seq<Seq<char>>) -> bool {
    dir.len() <= path.len() && path.take(dir.len() as int) == dir
}

fn begins_with(path: &Vec<String>, dir: &Vec<String>) -> (res: bool)
    ensures
        res == leads_into(texts(path@), texts(dir@)),
{
    let ghost p = texts(path@);
    let ghost d = texts(dir@);
    if dir.len() > path.len() {
        return false;
    }
    let mut i: usize = 0;
    while i < dir.len()
        invariant
            i <= dir@.len(),
            dir@.len() <= path@.len(),
            p == texts(path@),
            d == texts(dir@),
            forall|j: int| 0 <= j < i ==> #[trigger] p[j] == d[j],
        decreases dir@.len() - i,
    {
        if !same(path[i].as_str(), dir[i].as_str()) {
            assert(p[i as int] != d[i as int]);
            assert(p.take(d.len() as int)[i as int] == p[i as int]);
            return false;
        }
        assert(p[i as int] == d[i as int]);
        i = i + 1;
    }
    assert(p.take(d.len() as int) =~= d);
    true
}

/// Accepts the place of a backup, given the parts of the absolute paths: it lies outside the data
/// directory, is not the database, and does not exist.
pub fn check_destination(
    shown: &str,
    destination: &Vec<String>,
    data_dir: &Vec<String>,
    db_path: &Vec<String>,
    occupied: bool,
) -> (res: Result<(), OpsError>)
    ensures
        if leads_into(texts(destination@), texts(data_dir@)) || texts(destination@) == texts(
            db_path@,
        ) {
            res matches Err(OpsError::DestinationInsideSource { path }) && path@ == shown@
        } else if occupied {
            res matches Err(OpsError::DestinationExists { path }) && path@ == shown@
        } else {
            res is Ok
        },
{
    let is_db = begins_with(destination, db_path) && begins_with(db_path, destination);
    proof {
        let a = texts(destination@);
        let b = texts(db_path@);
        if is_db {
            assert(a.take(b.len() as int) =~= a);
        } else if a == b {
            assert(a.take(b.len() as int) =~= a);
        }
    }
    if begins_with(destination, data_dir) || is_db {
        Err(OpsError::DestinationInsideSource { path: shown.to_owned() })
    } else if occupied {
        Err(OpsError::DestinationExists { path: shown.to_owned() })
    } else {
        Ok(())
    }
}

/// The name of the directory in which a backup is assembled, beside its place.
pub fn staging_name(name: &str, process_id: u32) -> (res: String)
    ensures
        res@ == "."@ + name@ + ".partial-"@ + decimal(process_id as nat),
{
    let mut s = ".".to_owned();
    s.append(name);
    s.append(".partial-");
    s.append(decimal_string(process_id as u64).as_str());
    s
}

/// The entries of the data directory that a backup leaves out: the database with its journals, and
/// the runtime lock.
pub open spec fn left_out(path: Seq<char>, db_path: Seq<char>, lock_path: Seq<char>) -> bool {
    path == db_path || path == db_path + "-wal"@ || path == db_path + "-shm"@ || path == lock_path
}

/// Whether a backup leaves an entry out.
pub fn is_left_out(path: &str, db_path: &str, lock_path: &str) -> (res: bool)
    ensures
        res == left_out(path@, db_path@, lock_path@),
{
    let mut wal = db_path.to_owned();
    wal.append("-wal");
    let mut shm = db_path.to_owned();
    shm.append("-shm");
    same(path, db_path) || same(path, wal.as_str()) || same(path, shm.as_str()) || same(
        path,
        lock_path,
    )
}

fn require_document(store: &ControlStore, doc_id: &str) -> (res: Result<(), OpsError>)
    ensures
        if has_doc(store.docs(), doc_id@) {
            res is Ok
        } else {
            res matches Err(OpsError::DocumentNotFound { doc_id: d }) && d@ == doc_id@
        },
{
    match documents::get(store, doc_id) {
        Some(d) => {
            proof {
                let docs = store.docs();
                let i = choose|i: int| 0 <= i < docs.len() && docs[i] == d@;
                assert(docs[i].doc_id == doc_id@);
            }
            Ok(())
        },
        None => Err(OpsError::DocumentNotFound { doc_id: doc_id.to_owned() }),
    }
}

/// Resets a document's failed or interrupted jobs to a fresh retry budget. Completed stages remain
/// complete. An unknown document is refused, and changes nothing.
pub fn requeue(store: &mut ControlStore, doc_id: &str, now_stamp: &str) -> (res: Result<
    RequeueReport,
    OpsError,
>)
    requires
        old(store).wf(),
    ensures
        final(store).wf(),
        final(store).docs() == old(store).docs(),
        final(store).intents() == old(store).intents(),
        final(store).default_max_attempts == old(store).default_max_attempts,
        if has_doc(old(store).docs(), doc_id@) {
            &&& res matches Ok(r) && r.doc_id@ == doc_id@ && r.jobs_reset == requeue_count(
                old(store).job_list(),
                doc_id@,
                old(store).job_list().len() as int,
            )
            &&& final(store).job_list() == old(store).job_list().map_values(
                |j: JobView|
                    if requeued(j, doc_id@) {
                        reset(j, now_stamp@)
                    } else {
                        j
                    },
            )
        } else {
            &&& res matches Err(OpsError::DocumentNotFound { doc_id: d }) && d@ == doc_id@
            &&& final(store).job_list() == old(store).job_list()
        },
{
    match require_document(store, doc_id) {
        Err(e) => return Err(e),
        Ok(_) => {},
    }
    let jobs_reset: usize = jobs::requeue(store, doc_id, now_stamp);
    Ok(RequeueReport { doc_id: doc_id.to_owned(), jobs_reset })
}

/// Archives a document while retaining its chunks. Archived documents cannot be claimed or scheduled
/// for re-crawl. An unknown document is refused, and changes nothing.
pub fn archive(store: &mut ControlStore, doc_id: &str, now_stamp: &str) -> (res: Result<
    ArchiveReport,
    OpsError,
>)
    requires
        old(store).wf(),
    ensures
        final(store).wf(),
        final(store).job_list() == old(store).job_list(),
        final(store).intents() == old(store).intents(),
        final(store).default_max_attempts == old(store).default_max_attempts,
        if has_doc(old(store).docs(), doc_id@) {
            &&& res matches Ok(r) && r.doc_id@ == doc_id@
            &&& final(store).docs() == on_doc(
                old(store).docs(),
                doc_id@,
                |d: DocumentView| archived(d, now_stamp@),
            )
        } else {
            &&& res matches Err(OpsError::DocumentNotFound { doc_id: d }) && d@ == doc_id@
            &&& final(store).docs() == old(store).docs()
        },
{
    match require_document(store, doc_id) {
        Err(e) => return Err(e),
        Ok(_) => {},
    }
    documents::archive(store, doc_id, now_stamp);
    Ok(ArchiveReport { doc_id: doc_id.to_owned() })
}

/// Records the intent to delete a document. Repeating it changes nothing. An unknown document is
/// refused.
pub fn delete_document(store: &mut ControlStore, doc_id: &str, now_stamp: &str) -> (res: Result<
    DeleteReport,
    OpsError,
>)
    requires
        old(store).wf(),
    ensures
        final(store).wf(),
        final(store).docs() == old(store).docs(),
        final(store).job_list() == old(store).job_list(),
        final(store).default_max_attempts == old(store).default_max_attempts,
        if has_doc(old(store).docs(), doc_id@) {
            &&& res matches Ok(r) && r.doc_id@ == doc_id@
            &&& final(store).intents() == if has_deletion(old(store).intents(), doc_id@) {
                old(store).intents()
            } else {
                old(store).intents().push(
                    DeletionView {
                        doc_id: doc_id@,
                        reason: Some(OPERATOR_DELETE_REASON@),
                        requested_at: now_stamp@,
                    },
                )
            }
        } else {
            &&& res matches Err(OpsError::DocumentNotFound { doc_id: d }) && d@ == doc_id@
            &&& final(store).intents() == old(store).intents()
        },
{
    match require_document(store, doc_id) {
        Err(e) => return Err(e),
        Ok(_) => {},
    }
    match documents::request_deletion(store, doc_id, Some(OPERATOR_DELETE_REASON), now_stamp) {
        Err(e) => Err(OpsError::Control(e)),
        Ok(_) => Ok(DeleteReport { doc_id: doc_id.to_owned() }),
    }
}

/// Archived documents are retired: none of their jobs can be claimed, and they are not due for
/// re-crawl.
pub proof fn law_archived_documents_are_retired(
    store: &ControlStore,
    doc_id: Seq<char>,
    then: Seq<char>,
    job: JobView,
    stage: Stage,
    now: Seq<char>,
)
    requires
        store.wf(),
        job.doc_id == doc_id,
    ensures
        ({
            let docs = on_doc(store.docs(), doc_id, |d: DocumentView| archived(d, then));
            &&& !claimable(docs, store.intents(), job, stage, now)
            &&& forall|i: int|
                0 <= i < docs.len() && (#[trigger] docs[i]).doc_id == doc_id ==> !recrawl_due(
                    docs[i],
                    now,
                )
        }),
{
    let before = store.docs();
    let docs = on_doc(before, doc_id, |d: DocumentView| archived(d, then));
    assert forall|i: int| 0 <= i < docs.len() && (#[trigger] docs[i]).doc_id == doc_id implies docs[i].status
        == DocStatus::Archived by {
        assert(before[i].doc_id == docs[i].doc_id);
    }
}

/// A backup goes to a new place outside of what it copies: a destination inside the data directory, that
/// directory itself and the database are refused, and so is one that exists.
pub proof fn law_backups_go_elsewhere(
    shown: &str,
    destination: &Vec<String>,
    data_dir: &Vec<String>,
    db_path: &Vec<String>,
    occupied: bool,
    res: Result<(), OpsError>,
    below: Seq<Seq<char>>,
)
    requires
        call_ensures(check_destination, (shown, destination, data_dir, db_path, occupied), res),
    ensures
        occupied ==> res is Err,
        texts(destination@) == texts(data_dir@) + below ==> (res matches Err(
            OpsError::DestinationInsideSource { .. },
        )),
        texts(destination@) == texts(db_path@) ==> (res matches Err(
            OpsError::DestinationInsideSource { .. },
        )),
        !occupied && texts(destination@) != texts(db_path@) && (texts(destination@).len() < texts(
            data_dir@,
        ).len() || exists|i: int|
            0 <= i < texts(data_dir@).len() && #[trigger] texts(data_dir@)[i] != texts(
                destination@,
            )[i]) ==> res is Ok,
{
    let (d, s) = (texts(destination@), texts(data_dir@));
    if d == s + below {
        assert(d.take(s.len() as int) =~= s);
    }
    if exists|i: int| 0 <= i < s.len() && #[trigger] s[i] != d[i] {
        let i = choose|i: int| 0 <= i < s.len() && #[trigger] s[i] != d[i];
        if s.len() <= d.len() {
            assert(d.take(s.len() as int)[i] == d[i]);
        }
    }
}

/// A backup leaves out the database, its write-ahead log and its shared memory, and the lock; nothing else.
pub proof fn law_backups_leave_out_live_files(path: &str, db: &str, lock: &str, res: bool)
    requires
        call_ensures(is_left_out, (path, db, lock), res),
    ensures
        res <==> path@ == db@ || path@ == db@ + "-wal"@ || path@ == db@ + "-shm"@ || path@ == lock@,
{
}

/// Archiving touches one document: it is archived, keeps its identity and its address, and the others and
/// all jobs stay as they are; of an unknown document nothing changes.
pub proof fn law_archiving_touches_one_document(
    store: &mut ControlStore,
    doc_id: &str,
    now: &str,
    res: Result<ArchiveReport, OpsError>,
    i: int,
)
    requires
        call_ensures(archive, (store, doc_id, now), res),
        0 <= i < old(store).docs().len(),
    ensures
        final(store).docs().len() == old(store).docs().len(),
        final(store).job_list() == old(store).job_list(),
        old(store).docs()[i].doc_id == doc_id@ ==> {
            &&& res is Ok
            &&& final(store).docs()[i].status == DocStatus::Archived
            &&& final(store).docs()[i].doc_id == doc_id@
            &&& final(store).docs()[i].last_processed_at == Some(now@)
            &&& final(store).docs()[i].next_crawl_at == old(store).docs()[i].next_crawl_at
        },
        old(store).docs()[i].doc_id != doc_id@ ==> final(store).docs()[i] == old(store).docs()[i],
        res is Err ==> final(store).docs() == old(store).docs(),
{
    if old(store).docs()[i].doc_id == doc_id@ {
        assert(has_doc(old(store).docs(), doc_id@));
    }
}

/// Asking for a deletion records it once, with the operator's reason; a document is not gone before it is
/// executed, and an unknown one is refused.
pub proof fn law_deletions_are_recorded_once(
    store: &mut ControlStore,
    doc_id: &str,
    now: &str,
    res: Result<DeleteReport, OpsError>,
    i: int,
)
    requires
        call_ensures(delete_document, (store, doc_id, now), res),
    ensures
        final(store).docs() == old(store).docs(),
        0 <= i < old(store).docs().len() && old(store).docs()[i].doc_id == doc_id@ ==> {
            &&& res is Ok
            &&& has_deletion(final(store).intents(), doc_id@)
            &&& has_deletion(old(store).intents(), doc_id@) ==> final(store).intents() == old(store).intents()
            &&& !has_deletion(old(store).intents(), doc_id@) ==> {
                &&& final(store).intents().len() == old(store).intents().len() + 1
                &&& final(store).intents().last().doc_id == doc_id@
                &&& final(store).intents().last().reason == Some("operator request"@)
                &&& final(store).intents().last().requested_at == now@
            }
        },
        res is Err ==> final(store).intents() == old(store).intents(),
{
    if 0 <= i < old(store).docs().len() && old(store).docs()[i].doc_id == doc_id@ {
        assert(has_doc(old(store).docs(), doc_id@));
        if !has_deletion(old(store).intents(), doc_id@) {
            let n = old(store).intents().len() as int;
            assert(final(store).intents()[n].doc_id == doc_id@);
        }
    }
}

} // verus!
