//! Durable worker lifecycle projections.

use vstd::prelude::*;
use vstd::string::StringExecFns;

use super::audit::opt_str;
use super::db::{now_minus, shifted_stamp, DbError, TS_FMT};
use crate::text::{copy_opt, debug_form, debug_string, lemma_text_less_total, lemma_text_less_trans};
use crate::text::{less, opt_text, same, text_less};

verus! {

/// The lifecycle state of a worker.
#[derive(Debug, Clone, Copy, PartialEq, Eq, Structural)]
pub enum WorkerState {
    /// Booting.
    Starting,
    /// Claiming and running jobs.
    Running,
}

/// The projection of one worker.
#[derive(Debug)]
pub struct WorkerStatus {
    /// The worker, unique per process lifetime.
    pub worker_id: String,
    /// Its process.
    pub process_id: u32,
    /// Its state.
    pub state: WorkerState,
    /// When it booted.
    pub started_at: String,
    /// When it was last heard of.
    pub last_heartbeat_at: String,
    /// The stage that it runs.
    pub current_stage: Option<String>,
    /// The job that it runs.
    pub current_job_id: Option<String>,
    /// Its last failure.
    pub last_error: Option<String>,
}

/// The model of a [`WorkerStatus`].
#[verifier::ext_equal]
pub struct WorkerView {
    pub worker_id: Seq<char>,
    pub process_id: u32,
    pub state: WorkerState,
    pub started_at: Seq<char>,
    pub last_heartbeat_at: Seq<char>,
    pub current_stage: Option<Seq<char>>,
    pub current_job_id: Option<Seq<char>>,
    pub last_error: Option<Seq<char>>,
}

impl View for WorkerStatus {
    type V = WorkerView;

    open spec fn view(&self) -> WorkerView {
        WorkerView {
            worker_id: self.worker_id@,
            process_id: self.process_id,
            state: self.state,
            started_at: self.started_at@,
            last_heartbeat_at: self.last_heartbeat_at@,
            current_stage: opt_text(self.current_stage),
            current_job_id: opt_text(self.current_job_id),
            last_error: opt_text(self.last_error),
        }
    }
}

/// A worker as observed at some time.
#[derive(Debug)]
pub struct WorkerObservation {
    /// The projection.
    pub status: WorkerStatus,
    /// Whether the heartbeat is too old.
    pub stale: bool,
}

/// The models of worker rows.
pub open spec fn worker_views(rows: Seq<WorkerStatus>) -> Seq<WorkerView> {
    rows.map_values(|w: WorkerStatus| w@)
}

/// Workers differ in their ids.
pub open spec fn workers_distinct(workers: Seq<WorkerView>) -> bool {
    forall|i: int, j: int|
        0 <= i < j < workers.len() ==> (#[trigger] workers[i]).worker_id != (
        #[trigger] workers[j]).worker_id
}

/// Whether a worker is registered.
pub open spec fn has_worker(workers: Seq<WorkerView>, id: Seq<char>) -> bool {
    exists|i: int| 0 <= i < workers.len() && (#[trigger] workers[i]).worker_id == id
}

/// A worker that has just booted.
pub open spec fn booted(id: Seq<char>, process_id: u32, now: Seq<char>) -> WorkerView {
    WorkerView {
        worker_id: id,
        process_id,
        state: WorkerState::Starting,
        started_at: now,
        last_heartbeat_at: now,
        current_stage: None,
        current_job_id: None,
        last_error: None,
    }
}

/// The workers with one of them changed.
pub open spec fn on_worker(
    workers: Seq<WorkerView>,
    id: Seq<char>,
    f: spec_fn(WorkerView) -> WorkerView,
) -> Seq<WorkerView> {
    workers.map_values(
        |w: WorkerView|
            if w.worker_id == id {
                f(w)
            } else {
                w
            },
    )
}

fn worker_index(rows: &Vec<WorkerStatus>, id: &str) -> (res: Option<usize>)
    ensures
        match res {
            Some(i) => i < rows@.len() && worker_views(rows@)[i as int].worker_id == id@,
            None => !has_worker(worker_views(rows@), id@),
        },
{
    let ghost all = worker_views(rows@);
    let mut i: usize = 0;
    while i < rows.len()
        invariant
            i <= rows@.len(),
            all == worker_views(rows@),
            forall|j: int| 0 <= j < i ==> (#[trigger] all[j]).worker_id != id@,
        decreases rows@.len() - i,
    {
        assert(all[i as int] == rows@[i as int]@);
        if same(rows[i].worker_id.as_str(), id) {
            return Some(i);
        }
        i = i + 1;
    }
    None
}

proof fn lemma_changed(
    before: Seq<WorkerView>,
    i: int,
    id: Seq<char>,
    f: spec_fn(WorkerView) -> WorkerView,
)
    requires
        workers_distinct(before),
        0 <= i < before.len(),
        before[i].worker_id == id,
        f(before[i]).worker_id == id,
    ensures
        before.update(i, f(before[i])) == on_worker(before, id, f),
        workers_distinct(before.update(i, f(before[i]))),
{
    let after = before.update(i, f(before[i]));
    let image = on_worker(before, id, f);
    assert forall|k: int| 0 <= k < before.len() implies #[trigger] after[k] == image[k] by {
        if k < i {
            assert(before[k].worker_id != before[i].worker_id);
        } else if i < k {
            assert(before[i].worker_id != before[k].worker_id);
        }
    }
    assert(after =~= image);
    assert forall|a: int, b: int| 0 <= a < b < after.len() implies (#[trigger] after[a]).worker_id
        != (#[trigger] after[b]).worker_id by {
        assert(before[a].worker_id != before[b].worker_id);
    }
}

/// The workers once one has booted: its row starts anew, or is added.
pub open spec fn registered(
    workers: Seq<WorkerView>,
    id: Seq<char>,
    process_id: u32,
    now: Seq<char>,
) -> Seq<WorkerView> {
    if has_worker(workers, id) {
        on_worker(workers, id, |w: WorkerView| booted(id, process_id, now))
    } else {
        workers.push(booted(id, process_id, now))
    }
}

/// Registers one worker boot. Registering a worker again boots it anew.
pub fn register(rows: &mut Vec<WorkerStatus>, worker_id: &str, process_id: u32, now_stamp: &str)
    requires
        workers_distinct(worker_views(old(rows)@)),
    ensures
        workers_distinct(worker_views(final(rows)@)),
        worker_views(final(rows)@) == registered(
            worker_views(old(rows)@),
            worker_id@,
            process_id,
            now_stamp@,
        ),
{
    let ghost before = worker_views(rows@);
    let row = WorkerStatus {
        worker_id: worker_id.to_owned(),
        process_id,
        state: WorkerState::Starting,
        started_at: now_stamp.to_owned(),
        last_heartbeat_at: now_stamp.to_owned(),
        current_stage: None,
        current_job_id: None,
        last_error: None,
    };
    assert(row@ =~= booted(worker_id@, process_id, now_stamp@));
    match worker_index(rows, worker_id) {
        Some(i) => {
            rows.set(i, row);
            proof {
                let f = |w: WorkerView| booted(worker_id@, process_id, now_stamp@);
                lemma_changed(before, i as int, worker_id@, f);
                assert(worker_views(rows@) =~= before.update(i as int, f(before[i as int])));
            }
        },
        None => {
            let ghost added = row@;
            rows.push(row);
            proof {
                let after = worker_views(rows@);
                assert(after =~= before.push(added));
                assert forall|i: int, j: int| 0 <= i < j < after.len() implies (
                #[trigger] after[i]).worker_id != (#[trigger] after[j]).worker_id by {
                    assert(after[i] == before[i]);
                    if j < before.len() {
                        assert(after[j] == before[j]);
                    }
                }
            }
        },
    }
}

/// The message that a worker is not registered.
pub open spec fn unregistered(id: Seq<char>) -> Seq<char> {
    "worker "@ + debug_form(id) + " is not registered"@
}

fn not_registered(worker_id: &str) -> (res: DbError)
    ensures
        res is WorkerRecord,
        res->WorkerRecord_0@ == unregistered(worker_id@),
{
    let mut s = "worker ".to_owned();
    s.append(debug_string(worker_id).as_str());
    s.append(" is not registered");
    DbError::WorkerRecord(s)
}

/// Updates the lifecycle projection of a registered worker.
pub fn update_state(
    rows: &mut Vec<WorkerStatus>,
    worker_id: &str,
    state: WorkerState,
    current_stage: Option<&str>,
    current_job_id: Option<&str>,
    last_error: Option<&str>,
    now_stamp: &str,
) -> (res: Result<(), DbError>)
    requires
        workers_distinct(worker_views(old(rows)@)),
    ensures
        workers_distinct(worker_views(final(rows)@)),
        if has_worker(worker_views(old(rows)@), worker_id@) {
            &&& res is Ok
            &&& worker_views(final(rows)@) == on_worker(
                worker_views(old(rows)@),
                worker_id@,
                |w: WorkerView|
                    WorkerView {
                        state,
                        current_stage: opt_str(current_stage),
                        current_job_id: opt_str(current_job_id),
                        last_error: opt_str(last_error),
                        last_heartbeat_at: now_stamp@,
                        ..w
                    },
            )
        } else {
            &&& worker_views(final(rows)@) == worker_views(old(rows)@)
            &&& res matches Err(DbError::WorkerRecord(m)) && m@ == unregistered(worker_id@)
        },
{
    let ghost before = worker_views(rows@);
    match worker_index(rows, worker_id) {
        None => Err(not_registered(worker_id)),
        Some(i) => {
            assert(before[i as int] == rows@[i as int]@);
            rows[i].state = state;
            rows[i].current_stage = match current_stage {
                Some(s) => Some(s.to_owned()),
                None => None,
            };
            rows[i].current_job_id = match current_job_id {
                Some(s) => Some(s.to_owned()),
                None => None,
            };
            rows[i].last_error = match last_error {
                Some(s) => Some(s.to_owned()),
                None => None,
            };
            rows[i].last_heartbeat_at = now_stamp.to_owned();
            proof {
                let f = |w: WorkerView|
                    WorkerView {
                        state,
                        current_stage: opt_str(current_stage),
                        current_job_id: opt_str(current_job_id),
                        last_error: opt_str(last_error),
                        last_heartbeat_at: now_stamp@,
                        ..w
                    };
                lemma_changed(before, i as int, worker_id@, f);
                assert(worker_views(rows@)[i as int] =~= f(before[i as int]));
                assert(worker_views(rows@) =~= before.update(i as int, f(before[i as int])));
            }
            Ok(())
        },
    }
}

/// Updates only the heartbeat, so long-running stages remain visible.
pub fn heartbeat(rows: &mut Vec<WorkerStatus>, worker_id: &str, now_stamp: &str) -> (res: Result<
    (),
    DbError,
>)
    requires
        workers_distinct(worker_views(old(rows)@)),
    ensures
        workers_distinct(worker_views(final(rows)@)),
        if has_worker(worker_views(old(rows)@), worker_id@) {
            &&& res is Ok
            &&& worker_views(final(rows)@) == on_worker(
                worker_views(old(rows)@),
                worker_id@,
                |w: WorkerView| WorkerView { last_heartbeat_at: now_stamp@, ..w },
            )
        } else {
            &&& worker_views(final(rows)@) == worker_views(old(rows)@)
            &&& res matches Err(DbError::WorkerRecord(m)) && m@ == unregistered(worker_id@)
        },
{
    let ghost before = worker_views(rows@);
    match worker_index(rows, worker_id) {
        None => Err(not_registered(worker_id)),
        Some(i) => {
            assert(before[i as int] == rows@[i as int]@);
            rows[i].last_heartbeat_at = now_stamp.to_owned();
            proof {
                let f = |w: WorkerView| WorkerView { last_heartbeat_at: now_stamp@, ..w };
                lemma_changed(before, i as int, worker_id@, f);
                assert(worker_views(rows@)[i as int] =~= f(before[i as int]));
                assert(worker_views(rows@) =~= before.update(i as int, f(before[i as int])));
            }
            Ok(())
        },
    }
}

/// Whether one worker was heard of later than another, or has the greater id.
pub open spec fn newer(a: WorkerView, b: WorkerView) -> bool {
    text_less(b.last_heartbeat_at, a.last_heartbeat_at) || (a.last_heartbeat_at
        == b.last_heartbeat_at && text_less(b.worker_id, a.worker_id))
}

/// Whether no worker is newer than `w`, which is one of them.
pub open spec fn newest(workers: Seq<WorkerView>, w: WorkerView) -> bool {
    workers.contains(w) && forall|i: int|
        0 <= i < workers.len() ==> !newer(#[trigger] workers[i], w)
}

fn is_newer(a: &WorkerStatus, b: &WorkerStatus) -> (res: bool)
    ensures
        res == newer(a@, b@),
{
    if same(a.last_heartbeat_at.as_str(), b.last_heartbeat_at.as_str()) {
        proof {
            lemma_text_less_total(a.last_heartbeat_at@, b.last_heartbeat_at@);
        }
        less(b.worker_id.as_str(), a.worker_id.as_str())
    } else {
        less(b.last_heartbeat_at.as_str(), a.last_heartbeat_at.as_str())
    }
}

proof fn lemma_newer(a: WorkerView, b: WorkerView, c: WorkerView)
    ensures
        newer(a, b) && !newer(c, b) ==> !newer(c, a),
        !newer(a, a),
{
    lemma_text_less_total(a.last_heartbeat_at, a.last_heartbeat_at);
    lemma_text_less_total(a.worker_id, a.worker_id);
    lemma_text_less_total(a.last_heartbeat_at, b.last_heartbeat_at);
    lemma_text_less_total(a.last_heartbeat_at, c.last_heartbeat_at);
    lemma_text_less_total(b.last_heartbeat_at, c.last_heartbeat_at);
    lemma_text_less_total(a.worker_id, b.worker_id);
    lemma_text_less_total(a.worker_id, c.worker_id);
    lemma_text_less_total(b.worker_id, c.worker_id);
    if newer(a, b) && newer(c, a) {
        if text_less(b.last_heartbeat_at, a.last_heartbeat_at) && text_less(
            a.last_heartbeat_at,
            c.last_heartbeat_at,
        ) {
            lemma_text_less_trans(b.last_heartbeat_at, a.last_heartbeat_at, c.last_heartbeat_at);
        }
        if text_less(b.worker_id, a.worker_id) && text_less(a.worker_id, c.worker_id) {
            lemma_text_less_trans(b.worker_id, a.worker_id, c.worker_id);
        }
    }
}

fn copy_status(w: &WorkerStatus) -> (res: WorkerStatus)
    ensures
        res@ == w@,
{
    let res = WorkerStatus {
        worker_id: w.worker_id.clone(),
        process_id: w.process_id,
        state: w.state,
        started_at: w.started_at.clone(),
        last_heartbeat_at: w.last_heartbeat_at.clone(),
        current_stage: copy_opt(&w.current_stage),
        current_job_id: copy_opt(&w.current_job_id),
        last_error: copy_opt(&w.last_error),
    };
    assert(res@ =~= w@);
    res
}

/// Reads the newest worker projection and applies the stale-heartbeat rule: a heartbeat older than
/// the cutoff is stale.
pub fn latest(rows: &Vec<WorkerStatus>, now_stamp: &str, stale_after_secs: u64) -> (res: Result<
    Option<WorkerObservation>,
    DbError,
>)
    ensures
        if rows@.len() == 0 {
            res is Ok && res->Ok_0 is None
        } else {
            match shifted_stamp(now_stamp@, -(stale_after_secs as int)) {
                None => res matches Err(DbError::Timestamp { value, fmt }) && value@ == now_stamp@
                    && fmt@ == TS_FMT@,
                Some(cutoff) => {
                    &&& res is Ok
                    &&& res->Ok_0 is Some
                    &&& newest(worker_views(rows@), res->Ok_0->0.status@)
                    &&& res->Ok_0->0.stale == text_less(
                        res->Ok_0->0.status.last_heartbeat_at@,
                        cutoff,
                    )
                },
            }
        },
{
    if rows.len() == 0 {
        return Ok(None);
    }
    let ghost all = worker_views(rows@);
    let mut best: usize = 0;
    let mut i: usize = 1;
    proof {
        lemma_newer(all[0], all[0], all[0]);
    }
    while i < rows.len()
        invariant
            all == worker_views(rows@),
            best < i <= rows@.len(),
            forall|j: int| 0 <= j < i ==> !newer(#[trigger] all[j], all[best as int]),
        decreases rows@.len() - i,
    {
        assert(all[i as int] == rows@[i as int]@);
        assert(all[best as int] == rows@[best as int]@);
        if is_newer(&rows[i], &rows[best]) {
            proof {
                assert forall|j: int| 0 <= j < i + 1 implies !newer(
                    #[trigger] all[j],
                    all[i as int],
                ) by {
                    lemma_newer(all[i as int], all[best as int], all[j]);
                }
            }
            best = i;
        }
        i = i + 1;
    }
    match now_minus(now_stamp, stale_after_secs) {
        Err(e) => Err(e),
        Ok(cutoff) => {
            let status = copy_status(&rows[best]);
            assert(all[best as int] == rows@[best as int]@);
            assert(all.contains(status@));
            let stale = less(status.last_heartbeat_at.as_str(), cutoff.as_str());
            Ok(Some(WorkerObservation { status, stale }))
        },
    }
}

/// A retried startup is safe: registering a boot again changes nothing, and the worker is registered.
pub proof fn law_boot_replay_is_a_noop(
    workers: Seq<WorkerView>,
    id: Seq<char>,
    process_id: u32,
    now: Seq<char>,
)
    ensures
        has_worker(registered(workers, id, process_id, now), id),
        registered(registered(workers, id, process_id, now), id, process_id, now) == registered(
            workers,
            id,
            process_id,
            now,
        ),
{
    let once = registered(workers, id, process_id, now);
    if has_worker(workers, id) {
        let i = choose|i: int| 0 <= i < workers.len() && (#[trigger] workers[i]).worker_id == id;
        assert(once[i].worker_id == id);
    } else {
        assert(once[workers.len() as int].worker_id == id);
        assert forall|i: int| 0 <= i < workers.len() implies (#[trigger] once[i]).worker_id != id by {
            assert(once[i] == workers[i]);
        }
    }
    assert(registered(once, id, process_id, now) =~= once);
}

/// The latest worker is the last that was heard of: no worker has a later heartbeat, and among those of
/// one heartbeat none has a greater id.
pub proof fn law_latest_is_the_last_heard(workers: Seq<WorkerView>, w: WorkerView, i: int)
    requires
        newest(workers, w),
        0 <= i < workers.len(),
    ensures
        workers.contains(w),
        !text_less(w.last_heartbeat_at, workers[i].last_heartbeat_at),
        workers[i].last_heartbeat_at == w.last_heartbeat_at ==> !text_less(
            w.worker_id,
            workers[i].worker_id,
        ),
{
    assert(!newer(workers[i], w));
}

/// A boot starts a worker's row anew and touches no other: it is starting, its times are now, and it has
/// neither work nor an error.
pub proof fn law_boot_starts_anew(
    workers: Seq<WorkerView>,
    id: Seq<char>,
    process_id: u32,
    now: Seq<char>,
    k: int,
)
    requires
        0 <= k < registered(workers, id, process_id, now).len(),
    ensures
        ({
            let after = registered(workers, id, process_id, now);
            &&& after[k].worker_id == id ==> {
                &&& after[k].process_id == process_id
                &&& after[k].state == WorkerState::Starting
                &&& after[k].started_at == now && after[k].last_heartbeat_at == now
                &&& after[k].current_stage is None && after[k].current_job_id is None
                &&& after[k].last_error is None
            }
            &&& after[k].worker_id != id ==> k < workers.len() && after[k] == workers[k]
        }),
{
    let after = registered(workers, id, process_id, now);
    if !has_worker(workers, id) && k < workers.len() {
        assert(after[k] == workers[k]);
    }
}

/// A heartbeat tells the time of one worker and nothing else; a change of state tells its state, its stage, its
/// job and its failure too; a worker that is not registered is refused, and a boot starts one anew.
pub proof fn law_reports_touch_one_worker(
    beat: &mut Vec<WorkerStatus>,
    changed: &mut Vec<WorkerStatus>,
    worker_id: &str,
    state: WorkerState,
    stage: Option<&str>,
    job: Option<&str>,
    error: Option<&str>,
    now: &str,
    heard: Result<(), DbError>,
    told: Result<(), DbError>,
    i: int,
)
    requires
        call_ensures(heartbeat, (beat, worker_id, now), heard),
        call_ensures(update_state, (changed, worker_id, state, stage, job, error, now), told),
        old(beat)@ == old(changed)@,
        0 <= i < old(beat)@.len(),
    ensures
        final(beat)@.len() == old(beat)@.len(),
        final(changed)@.len() == old(beat)@.len(),
        old(beat)@[i].worker_id@ == worker_id@ ==> {
            let (was, b, c) = (old(beat)@[i]@, final(beat)@[i]@, final(changed)@[i]@);
            &&& heard is Ok && told is Ok
            &&& b.last_heartbeat_at == now@
            &&& b.state == was.state && b.current_job_id == was.current_job_id && b.started_at
                == was.started_at && b.current_stage == was.current_stage && b.last_error
                == was.last_error
            &&& c.last_heartbeat_at == now@
            &&& c.state == state
            &&& c.current_stage == opt_str(stage)
            &&& c.current_job_id == opt_str(job)
            &&& c.last_error == opt_str(error)
            &&& c.started_at == was.started_at && c.process_id == was.process_id
        },
        old(beat)@[i].worker_id@ != worker_id@ ==> final(beat)@[i]@ == old(beat)@[i]@ && final(changed)@[i]@ == old(beat)@[i]@,
        heard is Ok <==> told is Ok,
{
    let was = worker_views(old(beat)@);
    let b = worker_views(final(beat)@);
    let c = worker_views(final(changed)@);
    assert(was[i] == old(beat)@[i]@);
    if old(beat)@[i].worker_id@ == worker_id@ {
        assert(has_worker(was, worker_id@));
    }
    assert(b.len() == was.len() && c.len() == was.len());
    assert(b[i] == final(beat)@[i]@ && c[i] == final(changed)@[i]@);
}

/// The latest worker is one that none was heard of after, and it is stale where it was last heard of before
/// the cutoff.
pub proof fn law_the_last_heard_is_observed(
    rows: &Vec<WorkerStatus>,
    now: &str,
    secs: u64,
    res: Result<Option<WorkerObservation>, DbError>,
    cutoff: Seq<char>,
    i: int,
)
    requires
        call_ensures(latest, (rows, now, secs), res),
        shifted_stamp(now@, -(secs as int)) == Some(cutoff),
        0 <= i < rows@.len(),
    ensures
        res matches Ok(Some(seen)) && {
            &&& worker_views(rows@).contains(seen.status@)
            &&& !text_less(seen.status.last_heartbeat_at@, rows@[i].last_heartbeat_at@)
            &&& seen.stale <==> text_less(seen.status.last_heartbeat_at@, cutoff)
        },
{
    let all = worker_views(rows@);
    assert(all[i] == rows@[i]@);
    let w = res->Ok_0->0.status@;
    assert(!newer(all[i], w));
    lemma_text_less_total(all[i].last_heartbeat_at, w.last_heartbeat_at);
}

/// A boot starts a worker anew: it is starting, under the process and at the time of the boot, with no job and
/// no failure, and the others stay as they are.
pub proof fn law_boots_are_registered(
    rows: &mut Vec<WorkerStatus>,
    worker_id: &str,
    process_id: u32,
    now: &str,
    i: int,
)
    requires
        call_ensures(register, (rows, worker_id, process_id, now), ()),
    ensures
        exists|k: int|
            {
                &&& 0 <= k < final(rows)@.len()
                &&& (#[trigger] final(rows)@[k]).worker_id@ == worker_id@
                &&& final(rows)@[k].process_id == process_id
                &&& final(rows)@[k].state == WorkerState::Starting
                &&& final(rows)@[k].started_at@ == now@
                &&& final(rows)@[k].last_heartbeat_at@ == now@
                &&& final(rows)@[k].current_job_id is None
                &&& final(rows)@[k].last_error is None
            },
        0 <= i < old(rows)@.len() && old(rows)@[i].worker_id@ != worker_id@ ==> final(rows)@[i]@ == old(rows)@[i]@,
{
    let was = worker_views(old(rows)@);
    let now_rows = worker_views(final(rows)@);
    assert(now_rows == registered(was, worker_id@, process_id, now@));
    let k = if has_worker(was, worker_id@) {
        choose|k: int| 0 <= k < was.len() && (#[trigger] was[k]).worker_id == worker_id@
    } else {
        was.len() as int
    };
    assert(now_rows[k] == booted(worker_id@, process_id, now@));
    assert(now_rows[k] == final(rows)@[k]@);
    assert(final(rows)@[k].worker_id@ == worker_id@);
    if 0 <= i < old(rows)@.len() && old(rows)@[i].worker_id@ != worker_id@ {
        assert(was[i] == old(rows)@[i]@);
        assert(now_rows[i] == final(rows)@[i]@);
    }
}

} // verus!
