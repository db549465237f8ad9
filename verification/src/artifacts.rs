//! What the worker processes do with a queued artifact once it was processed: the update of its
//! catalog entry, where the queue file goes, and the counters of the process.

use vstd::prelude::*;

use crate::text::same;

verus! {

/// The fields of a catalog entry that a stage replaces; the others are kept.
#[derive(Debug)]
pub struct CatalogUpdate {
    /// The status of the document.
    pub status: &'static str,
    /// The number of its chunks.
    pub chunk_count: usize,
    /// What went wrong.
    pub error: Option<String>,
}

/// A stage that ends the processing of an artifact.
#[derive(Debug, Clone, Copy, PartialEq, Eq, Structural)]
pub enum Worker {
    /// The cleaning process.
    Cleaning,
    /// The indexer process.
    Indexer,
}

/// What a worker names a document that it is done with.
pub open spec fn done_status(worker: Worker) -> Seq<char> {
    match worker {
        Worker::Cleaning => "CLEANED"@,
        Worker::Indexer => "INDEXED"@,
    }
}

/// Where a queue file goes.
#[derive(Debug, Clone, Copy, PartialEq, Eq, Structural)]
pub enum Disposal {
    /// It is removed.
    Remove,
    /// It is kept apart.
    DeadLetter,
}

/// Decides on a processed artifact: a failure is noted in the catalog and its file kept apart; a
/// success is noted with the number of chunks and its file removed.
pub fn settle(worker: Worker, outcome: &Result<usize, String>) -> (res: (CatalogUpdate, Disposal))
    ensures
        match outcome {
            Ok(chunks) => {
                &&& res.0.status@ == done_status(worker)
                &&& res.0.chunk_count == chunks
                &&& res.0.error is None
                &&& res.1 == Disposal::Remove
            },
            Err(e) => {
                &&& res.0.status@ == "FAILED"@
                &&& res.0.chunk_count == 0
                &&& res.0.error matches Some(m) && m@ == e@
                &&& res.1 == Disposal::DeadLetter
            },
        },
{
    match outcome {
        Ok(chunks) => {
            let status = match worker {
                Worker::Cleaning => "CLEANED",
                Worker::Indexer => "INDEXED",
            };
            (CatalogUpdate { status, chunk_count: *chunks, error: None }, Disposal::Remove)
        },
        Err(e) => (
            CatalogUpdate { status: "FAILED", chunk_count: 0, error: Some(e.clone()) },
            Disposal::DeadLetter,
        ),
    }
}

/// Where the queue file of a processed artifact goes, whatever the stage.
pub fn disposal_of(outcome: &Result<usize, String>) -> (res: Disposal)
    ensures
        res == if outcome is Ok {
            Disposal::Remove
        } else {
            Disposal::DeadLetter
        },
{
    match outcome {
        Ok(_) => Disposal::Remove,
        Err(_) => Disposal::DeadLetter,
    }
}

/// Whether an entry of a queue holds an artifact: a file named `*.json`.
pub fn holds_artifact(is_file: bool, extension: Option<&str>) -> (res: bool)
    ensures
        res == (is_file && (extension matches Some(e) && e@ == "json"@)),
{
    match extension {
        Some(e) => is_file && same(e, "json"),
        None => false,
    }
}

// ---------------------------------------------------------------------------------------------
// Counters.
// ---------------------------------------------------------------------------------------------
/// Durable counters and latencies of a process.
#[derive(Debug)]
pub struct Snapshot {
    /// The process.
    pub process: String,
    /// Inputs seen.
    pub input_count: u64,
    /// Outputs produced.
    pub output_count: u64,
    /// Failures.
    pub failure_count: u64,
    /// The sum of all latencies in milliseconds.
    pub total_latency_ms: u64,
    /// The last latency in milliseconds.
    pub last_latency_ms: u64,
    /// The largest latency in milliseconds.
    pub max_latency_ms: u64,
    /// When it was last updated.
    pub updated_at: String,
}

/// The sum of two counts, no larger than a count can be.
pub open spec fn capped_sum(a: u64, b: u64) -> u64 {
    if a + b > u64::MAX {
        u64::MAX
    } else {
        (a + b) as u64
    }
}

fn add_capped(a: u64, b: u64) -> (res: u64)
    ensures
        res == capped_sum(a, b),
{
    if a > u64::MAX - b {
        u64::MAX
    } else {
        a + b
    }
}

impl Snapshot {
    /// The counters of a process that did nothing yet.
    pub fn new(process: &str, now: &str) -> (res: Snapshot)
        ensures
            res.process@ == process@,
            res.input_count == 0,
            res.output_count == 0,
            res.failure_count == 0,
            res.total_latency_ms == 0,
            res.last_latency_ms == 0,
            res.max_latency_ms == 0,
            res.updated_at@ == now@,
    {
        Snapshot {
            process: process.to_owned(),
            input_count: 0,
            output_count: 0,
            failure_count: 0,
            total_latency_ms: 0,
            last_latency_ms: 0,
            max_latency_ms: 0,
            updated_at: now.to_owned(),
        }
    }

    /// Takes the counters that were stored, where they are those of the process; else new ones.
    pub fn resume(stored: Option<Snapshot>, process: &str, now: &str) -> (res: Snapshot)
        ensures
            match stored {
                Some(s) if s.process@ == process@ => res == s,
                _ => {
                    &&& res.process@ == process@
                    &&& res.input_count == 0
                    &&& res.output_count == 0
                    &&& res.failure_count == 0
                    &&& res.total_latency_ms == 0
                    &&& res.last_latency_ms == 0
                    &&& res.max_latency_ms == 0
                    &&& res.updated_at@ == now@
                },
            },
    {
        if let Some(s) = stored {
            if same(s.process.as_str(), process) {
                return s;
            }
        }
        Snapshot::new(process, now)
    }

    /// Counts one piece of work; no count overflows.
    pub fn record(
        &mut self,
        input_count: u64,
        output_count: u64,
        failure_count: u64,
        latency_ms: u64,
        now: &str,
    )
        ensures
            final(self).process == old(self).process,
            final(self).input_count == capped_sum(old(self).input_count, input_count),
            final(self).output_count == capped_sum(old(self).output_count, output_count),
            final(self).failure_count == capped_sum(old(self).failure_count, failure_count),
            final(self).total_latency_ms == capped_sum(old(self).total_latency_ms, latency_ms),
            final(self).last_latency_ms == latency_ms,
            final(self).max_latency_ms == if old(self).max_latency_ms > latency_ms {
                old(self).max_latency_ms
            } else {
                latency_ms
            },
            final(self).updated_at@ == now@,
    {
        self.input_count = add_capped(self.input_count, input_count);
        self.output_count = add_capped(self.output_count, output_count);
        self.failure_count = add_capped(self.failure_count, failure_count);
        self.total_latency_ms = add_capped(self.total_latency_ms, latency_ms);
        self.last_latency_ms = latency_ms;
        if self.max_latency_ms < latency_ms {
            self.max_latency_ms = latency_ms;
        }
        self.updated_at = now.to_owned();
    }
}

/// A processed artifact is settled by its outcome: a success is noted under the stage's own status with its
/// chunks and leaves the queue, a failure is noted with its reason and kept apart.
pub proof fn law_outcomes_settle_artifacts(
    outcome: &Result<usize, String>,
    cleaning: (CatalogUpdate, Disposal),
    indexing: (CatalogUpdate, Disposal),
    disposal: Disposal,
    is_file: bool,
    extension: &str,
    holds: bool,
)
    requires
        call_ensures(settle, (Worker::Cleaning, outcome), cleaning),
        call_ensures(settle, (Worker::Indexer, outcome), indexing),
        call_ensures(disposal_of, (outcome,), disposal),
        call_ensures(holds_artifact, (is_file, Some(extension)), holds),
    ensures
        outcome matches Ok(n) ==> {
            &&& cleaning.0.status@ == "CLEANED"@ && indexing.0.status@ == "INDEXED"@
            &&& cleaning.0.chunk_count == n && indexing.0.chunk_count == n
            &&& cleaning.0.error is None && indexing.0.error is None
            &&& cleaning.1 == Disposal::Remove && indexing.1 == Disposal::Remove && disposal
                == Disposal::Remove
        },
        outcome matches Err(e) ==> {
            &&& cleaning.0.status@ == "FAILED"@ && indexing.0.status@ == "FAILED"@
            &&& cleaning.0.chunk_count == 0 && indexing.0.chunk_count == 0
            &&& cleaning.0.error matches Some(m) && m@ == e@
            &&& indexing.0.error matches Some(m) && m@ == e@
            &&& cleaning.1 == Disposal::DeadLetter && indexing.1 == Disposal::DeadLetter && disposal
                == Disposal::DeadLetter
        },
        holds <==> is_file && extension@ == "json"@,
{
}

/// Counters only grow: recording adds to each count, up to the largest number, keeps the last latency and the
/// largest, and a process goes on with its own counters alone.
pub proof fn law_counters_add_up(
    snapshot: &mut Snapshot,
    input: u64,
    output: u64,
    failures: u64,
    latency: u64,
    now: &str,
    stored: Snapshot,
    process: &str,
    resumed: Snapshot,
)
    requires
        call_ensures(Snapshot::record, (snapshot, input, output, failures, latency, now), ()),
        call_ensures(Snapshot::resume, (Some(stored), process, now), resumed),
    ensures
        old(snapshot).input_count + input <= u64::MAX ==> final(snapshot).input_count == old(snapshot).input_count + input,
        old(snapshot).output_count + output <= u64::MAX ==> final(snapshot).output_count == old(snapshot).output_count + output,
        old(snapshot).failure_count + failures <= u64::MAX ==> final(snapshot).failure_count == old(snapshot).failure_count + failures,
        old(snapshot).total_latency_ms + latency <= u64::MAX ==> final(snapshot).total_latency_ms == old(snapshot).total_latency_ms + latency,
        final(snapshot).input_count >= old(snapshot).input_count,
        final(snapshot).last_latency_ms == latency,
        final(snapshot).max_latency_ms >= latency,
        final(snapshot).max_latency_ms >= old(snapshot).max_latency_ms,
        final(snapshot).max_latency_ms == latency || final(snapshot).max_latency_ms == old(snapshot).max_latency_ms,
        stored.process@ == process@ ==> resumed == stored,
        stored.process@ != process@ ==> resumed.process@ == process@ && resumed.input_count == 0
            && resumed.failure_count == 0 && resumed.total_latency_ms == 0,
{
}

} // verus!
