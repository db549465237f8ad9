//! The audit trail of stage transitions, and its retention.

use vstd::prelude::*;

use super::db::{now_minus, shifted_stamp, DbError, TS_FMT};
use super::models::StageEvent;
use crate::rows::{lemma_filter_first, lemma_filter_kept, lemma_filter_places};
use crate::text::{copy_opt, less, opt_text, same, text_less};

verus! {

/// The model of a [`StageEvent`].
#[verifier::ext_equal]
pub struct EventView {
    pub event_id: int,
    pub doc_id: Option<Seq<char>>,
    pub job_id: Option<Seq<char>>,
    pub stage: Option<Seq<char>>,
    pub outcome: Seq<char>,
    pub detail: Option<Seq<char>>,
    pub ts: Seq<char>,
}

impl View for StageEvent {
    type V = EventView;

    open spec fn view(&self) -> EventView {
        EventView {
            event_id: self.event_id as int,
            doc_id: opt_text(self.doc_id),
            job_id: opt_text(self.job_id),
            stage: opt_text(self.stage),
            outcome: self.outcome@,
            detail: opt_text(self.detail),
            ts: self.ts@,
        }
    }
}

/// The models of a list of events.
pub open spec fn event_views(list: Seq<StageEvent>) -> Seq<EventView> {
    list.map_values(|e: StageEvent| e@)
}

/// The retained events and the id of the next one. An event refers to nothing that must exist: the
/// trail outlives deleted rows.
#[derive(Debug)]
pub struct AuditLog {
    /// The retained events in the order of their recording.
    pub events: Vec<StageEvent>,
    /// The id of the next event.
    pub next_event_id: i64,
}

impl AuditLog {
    /// The models of the retained events.
    pub open spec fn event_list(self) -> Seq<EventView> {
        event_views(self.events@)
    }

    /// Well-formedness: the ids grow, and stay below the next one.
    pub open spec fn wf(self) -> bool {
        let events = self.event_list();
        &&& forall|i: int, j: int|
            0 <= i < j < events.len() ==> (#[trigger] events[i]).event_id < (
            #[trigger] events[j]).event_id
        &&& forall|i: int|
            0 <= i < events.len() ==> (#[trigger] events[i]).event_id < self.next_event_id
    }

    /// An empty log.
    pub fn new() -> (res: AuditLog)
        ensures
            res.wf(),
            res.event_list() == Seq::<EventView>::empty(),
            res.next_event_id == 1,
    {
        AuditLog { events: Vec::new(), next_event_id: 1 }
    }

    /// Whether what must hold of a log holds of this one.
    pub fn is_valid(&self) -> (res: bool)
        ensures
            res == self.wf(),
    {
        let ghost all = self.event_list();
        let mut j: usize = 0;
        while j < self.events.len()
            invariant
                j <= self.events@.len(),
                all == self.event_list(),
                forall|a: int, b: int|
                    0 <= a < b < j ==> (#[trigger] all[a]).event_id < (#[trigger] all[b]).event_id,
                forall|a: int| 0 <= a < j ==> (#[trigger] all[a]).event_id < self.next_event_id,
            decreases self.events@.len() - j,
        {
            assert(all[j as int] == self.events@[j as int]@);
            if self.events[j].event_id >= self.next_event_id {
                assert(!(all[j as int].event_id < self.next_event_id));
                return false;
            }
            if j > 0 {
                assert(all[j - 1] == self.events@[j - 1]@);
                if self.events[j - 1].event_id >= self.events[j].event_id {
                    assert(!(all[j - 1].event_id < all[j as int].event_id));
                    return false;
                }
            }
            j = j + 1;
        }
        true
    }
}

/// The text of an optional argument.
pub open spec fn opt_str(s: Option<&str>) -> Option<Seq<char>> {
    match s {
        Some(t) => Some(t@),
        None => None,
    }
}

fn own(s: Option<&str>) -> (res: Option<String>)
    ensures
        opt_text(res) == opt_str(s),
{
    match s {
        Some(t) => Some(t.to_owned()),
        None => None,
    }
}

/// Appends an event: every transition and every error is recorded. Fails only where the ids have
/// run out.
pub fn record_event(
    log: &mut AuditLog,
    doc_id: Option<&str>,
    job_id: Option<&str>,
    stage: Option<&str>,
    outcome: &str,
    detail: Option<&str>,
    ts: &str,
) -> (res: Result<(), DbError>)
    requires
        old(log).wf(),
    ensures
        final(log).wf(),
        if old(log).next_event_id < i64::MAX {
            &&& res is Ok
            &&& final(log).next_event_id == old(log).next_event_id + 1
            &&& final(log).event_list() == old(log).event_list().push(
                EventView {
                    event_id: old(log).next_event_id as int,
                    doc_id: opt_str(doc_id),
                    job_id: opt_str(job_id),
                    stage: opt_str(stage),
                    outcome: outcome@,
                    detail: opt_str(detail),
                    ts: ts@,
                },
            )
        } else {
            &&& res is Err
            &&& res->Err_0 is Sqlite
            &&& *final(log) == *old(log)
        },
{
    if log.next_event_id == i64::MAX {
        return Err(DbError::Sqlite("database or disk is full".to_owned()));
    }
    let ghost before = log.event_list();
    let event = StageEvent {
        event_id: log.next_event_id,
        doc_id: own(doc_id),
        job_id: own(job_id),
        stage: own(stage),
        outcome: outcome.to_owned(),
        detail: own(detail),
        ts: ts.to_owned(),
    };
    let ghost added = event@;
    log.events.push(event);
    log.next_event_id = log.next_event_id + 1;
    proof {
        let after = log.event_list();
        assert(after =~= before.push(added));
        assert forall|i: int| 0 <= i < after.len() implies (#[trigger] after[i]).event_id
            < log.next_event_id by {
            if i < before.len() {
                assert(after[i] == before[i]);
            }
        }
        assert forall|i: int, j: int| 0 <= i < j < after.len() implies (
        #[trigger] after[i]).event_id < (#[trigger] after[j]).event_id by {
            assert(after[i] == before[i]);
            if j < before.len() {
                assert(after[j] == before[j]);
            }
        }
    }
    Ok(())
}

/// The events of a document, in the order of their recording.
pub open spec fn events_of(events: Seq<EventView>, doc_id: Seq<char>) -> Seq<EventView> {
    events.filter(|e: EventView| e.doc_id == Some(doc_id))
}

fn copy_event(e: &StageEvent) -> (res: StageEvent)
    ensures
        res@ == e@,
{
    let res = StageEvent {
        event_id: e.event_id,
        doc_id: copy_opt(&e.doc_id),
        job_id: copy_opt(&e.job_id),
        stage: copy_opt(&e.stage),
        outcome: e.outcome.clone(),
        detail: copy_opt(&e.detail),
        ts: e.ts.clone(),
    };
    assert(res@ =~= e@);
    res
}

/// Reads the retained trail for one document in the order of its recording.
pub fn events_for_doc(log: &AuditLog, doc_id: &str) -> (res: Vec<StageEvent>)
    ensures
        event_views(res@) == events_of(log.event_list(), doc_id@),
{
    let ghost all = log.event_list();
    let ghost hit = |e: EventView| e.doc_id == Some(doc_id@);
    let mut res: Vec<StageEvent> = Vec::new();
    let mut i: usize = 0;
    assert(event_views(res@) =~= all.take(0).filter(hit)) by {
        reveal(Seq::filter);
    }
    while i < log.events.len()
        invariant
            i <= log.events@.len(),
            all == log.event_list(),
            hit == (|e: EventView| e.doc_id == Some(doc_id@)),
            event_views(res@) == all.take(i as int).filter(hit),
        decreases log.events@.len() - i,
    {
        let row = &log.events[i];
        let ghost before = event_views(res@);
        proof {
            reveal(Seq::filter);
            assert(all.take(i + 1).drop_last() =~= all.take(i as int));
            assert(all.take(i + 1).last() == row@);
        }
        if let Some(id) = &row.doc_id {
            if same(id.as_str(), doc_id) {
                assert(hit(row@));
                let copy = copy_event(row);
                res.push(copy);
                assert(event_views(res@) =~= before.push(row@));
            }
        }
        i = i + 1;
    }
    assert(all.take(i as int) =~= all);
    res
}

/// What one sweep did.
#[derive(Debug, Clone, Copy, PartialEq, Eq, Structural)]
pub struct ReconcileReport {
    /// Deletion intents executed.
    pub deletions_executed: usize,
    /// Audit rows pruned past the retention window.
    pub stage_events_pruned: usize,
}

impl Default for ReconcileReport {
    fn default() -> (res: ReconcileReport)
        ensures
            res == (ReconcileReport { deletions_executed: 0, stage_events_pruned: 0 }),
    {
        ReconcileReport { deletions_executed: 0, stage_events_pruned: 0 }
    }
}

/// The events from `cutoff` on.
pub open spec fn retained(events: Seq<StageEvent>, cutoff: Seq<char>) -> Seq<StageEvent> {
    events.filter(|e: StageEvent| !text_less(e.ts@, cutoff))
}

fn drop_before(events: &mut Vec<StageEvent>, cutoff: &str)
    ensures
        final(events)@ == retained(old(events)@, cutoff@),
{
    let ghost before = events@;
    let ghost keep = |e: StageEvent| !text_less(e.ts@, cutoff@);
    let mut i: usize = events.len();
    assert(before.skip(i as int) =~= seq![]);
    assert(Seq::<StageEvent>::empty().filter(keep) =~= seq![]) by {
        reveal(Seq::filter);
    }
    while i > 0
        invariant
            i <= events@.len(),
            keep == (|e: StageEvent| !text_less(e.ts@, cutoff@)),
            i <= before.len(),
            events@ =~= before.take(i as int) + before.skip(i as int).filter(keep),
        decreases i,
    {
        i = i - 1;
        let ghost tail = before.skip(i + 1).filter(keep);
        assert(events@[i as int] == before[i as int]);
        proof {
            lemma_filter_first(before.skip(i as int), keep);
            assert(before.skip(i as int).drop_first() =~= before.skip(i + 1));
            assert(before.skip(i as int)[0] == before[i as int]);
        }
        if less(events[i].ts.as_str(), cutoff) {
            let _ = events.remove(i);
            assert(events@ =~= before.take(i as int) + tail);
        } else {
            assert(before.take(i as int) + (seq![before[i as int]] + tail) =~= before.take(i + 1)
                + tail);
        }
    }
    assert(before.skip(0) =~= before);
    assert(before.take(0) + before.filter(keep) =~= before.filter(keep));
}

/// Prunes the audit events older than the retention and touches nothing else. No retention prunes
/// nothing. The report tells how many events went.
pub fn reconcile_retention(log: &mut AuditLog, now_stamp: &str, retention_secs: u64) -> (res: Result<
    ReconcileReport,
    DbError,
>)
    requires
        old(log).wf(),
    ensures
        final(log).wf(),
        final(log).next_event_id == old(log).next_event_id,
        if retention_secs == 0 {
            &&& final(log).events@ == old(log).events@
            &&& res == Ok::<ReconcileReport, DbError>(
                (ReconcileReport { deletions_executed: 0, stage_events_pruned: 0 }),
            )
        } else {
            match shifted_stamp(now_stamp@, -(retention_secs as int)) {
                None => {
                    &&& final(log).events@ == old(log).events@
                    &&& res matches Err(DbError::Timestamp { value, fmt }) && value@ == now_stamp@
                        && fmt@ == TS_FMT@
                },
                Some(cutoff) => {
                    &&& final(log).events@ == retained(old(log).events@, cutoff)
                    &&& res matches Ok(report) && report.deletions_executed == 0
                        && report.stage_events_pruned == old(log).events@.len()
                        - final(log).events@.len()
                },
            }
        },
{
    if retention_secs == 0 {
        return Ok(ReconcileReport { deletions_executed: 0, stage_events_pruned: 0 });
    }
    match now_minus(now_stamp, retention_secs) {
        Err(e) => Err(e),
        Ok(cutoff) => {
            let ghost before = log.events@;
            let n: usize = log.events.len();
            drop_before(&mut log.events, cutoff.as_str());
            proof {
                let keep = |e: StageEvent| !text_less(e.ts@, cutoff@);
                let places = lemma_filter_places(before, keep);
                lemma_ascending_places(places, before.len() as int);
                let (a, b) = (event_views(before), log.event_list());
                assert forall|i: int| 0 <= i < b.len() implies #[trigger] b[i] == a[places[i]] by {
                    assert(before[places[i]] == log.events@[i]);
                }
                assert forall|i: int, j: int| 0 <= i < j < b.len() implies (
                #[trigger] b[i]).event_id < (#[trigger] b[j]).event_id by {
                    assert(places[i] < places[j]);
                    assert(a[places[i]].event_id < a[places[j]].event_id);
                }
            }
            Ok(
                ReconcileReport {
                    deletions_executed: 0,
                    stage_events_pruned: n - log.events.len(),
                },
            )
        },
    }
}

proof fn lemma_ascending_places(places: Seq<int>, n: int)
    requires
        forall|i: int| 0 <= i < places.len() ==> 0 <= #[trigger] places[i] < n,
        forall|i: int, j: int|
            0 <= i < j < places.len() ==> #[trigger] places[i] < #[trigger] places[j],
        n >= 0,
    ensures
        places.len() <= n,
    decreases places.len(),
{
    if places.len() > 0 {
        let rest = places.drop_last();
        let top = places[places.len() - 1];
        assert forall|i: int| 0 <= i < rest.len() implies 0 <= #[trigger] rest[i] < top by {
            assert(rest[i] == places[i]);
        }
        lemma_ascending_places(rest, top);
    }
}

/// Retention drops exactly what is older than the cutoff, and applied again it drops nothing more.
pub proof fn law_retention_keeps_recent_events(events: Seq<StageEvent>, cutoff: Seq<char>)
    ensures
        forall|e: StageEvent|
            retained(events, cutoff).contains(e) <==> events.contains(e) && !text_less(
                e.ts@,
                cutoff,
            ),
        retained(retained(events, cutoff), cutoff) == retained(events, cutoff),
{
    lemma_filter_kept(events, |e: StageEvent| !text_less(e.ts@, cutoff));
}

/// The trail of a document holds all of its events and no other, in the order of their recording.
pub proof fn law_trails_hold_their_events(
    log: &AuditLog,
    doc_id: &str,
    res: Vec<StageEvent>,
    e: EventView,
    i: int,
    j: int,
)
    requires
        call_ensures(events_for_doc, (log, doc_id), res),
        log.wf(),
    ensures
        event_views(res@).contains(e) <==> log.event_list().contains(e) && e.doc_id == Some(doc_id@),
        0 <= i < j < res@.len() ==> res@[i].event_id < res@[j].event_id,
{
    let all = log.event_list();
    let p = |e: EventView| e.doc_id == Some(doc_id@);
    let kept = event_views(res@);
    assert(kept == all.filter(p));
    lemma_filter_kept(all, p);
    if 0 <= i < j < res@.len() {
        lemma_filter_ascends(all, p);
        assert(kept[i] == res@[i]@ && kept[j] == res@[j]@);
    }
}

proof fn lemma_filter_ascends(events: Seq<EventView>, p: spec_fn(EventView) -> bool)
    requires
        forall|i: int, j: int|
            0 <= i < j < events.len() ==> (#[trigger] events[i]).event_id < (
            #[trigger] events[j]).event_id,
    ensures
        forall|i: int, j: int|
            0 <= i < j < events.filter(p).len() ==> (#[trigger] events.filter(p)[i]).event_id < (
            #[trigger] events.filter(p)[j]).event_id,
        forall|i: int|
            0 <= i < events.filter(p).len() ==> events.contains(#[trigger] events.filter(p)[i]),
    decreases events.len(),
{
    reveal(Seq::filter);
    if events.len() > 0 {
        let front = events.drop_last();
        let last = events.last();
        lemma_filter_ascends(front, p);
        let kept = events.filter(p);
        assert(events[events.len() - 1] == last);
        assert forall|i: int| 0 <= i < front.filter(p).len() implies events.contains(
            #[trigger] front.filter(p)[i],
        ) && front.filter(p)[i].event_id < last.event_id by {
            let at = choose|at: int| 0 <= at < front.len() && front[at] == front.filter(p)[i];
            assert(events[at] == front[at]);
        }
    }
}

/// Retention prunes what is older than the window and nothing else: an event stays exactly where its time
/// is not before the cutoff, the report tells how many went, and no window prunes nothing.
pub proof fn law_retention_prunes_what_is_old(
    log: &mut AuditLog,
    now: &str,
    secs: u64,
    res: Result<ReconcileReport, DbError>,
    cutoff: Seq<char>,
    e: StageEvent,
)
    requires
        call_ensures(reconcile_retention, (log, now, secs), res),
        shifted_stamp(now@, -(secs as int)) == Some(cutoff),
    ensures
        res is Ok,
        secs == 0 ==> final(log).events@ == old(log).events@,
        secs > 0 ==> (final(log).events@.contains(e) <==> old(log).events@.contains(e) && !text_less(
            e.ts@,
            cutoff,
        )),
        res->Ok_0.stage_events_pruned == old(log).events@.len() - final(log).events@.len(),
        res->Ok_0.deletions_executed == 0,
{
    law_retention_keeps_recent_events(old(log).events@, cutoff);
}

/// What is recorded is read: an event joins the trail of its document as its last one.
pub proof fn law_recorded_events_are_read(
    log: &mut AuditLog,
    doc_id: &str,
    job_id: Option<&str>,
    stage: Option<&str>,
    outcome: &str,
    detail: Option<&str>,
    ts: &str,
    res: Result<(), DbError>,
    after: &AuditLog,
    trail: Vec<StageEvent>,
)
    requires
        call_ensures(record_event, (log, Some(doc_id), job_id, stage, outcome, detail, ts), res),
        old(log).next_event_id < i64::MAX,
        *final(log) == *after,
        call_ensures(events_for_doc, (after, doc_id), trail),
    ensures
        res is Ok,
        trail@.len() > 0,
        trail@.last().outcome@ == outcome@,
        trail@.last().ts@ == ts@,
        opt_text(trail@.last().doc_id) == Some(doc_id@),
        opt_text(trail@.last().job_id) == opt_str(job_id),
        opt_text(trail@.last().stage) == opt_str(stage),
        opt_text(trail@.last().detail) == opt_str(detail),
{
    reveal(Seq::filter);
    let views = event_views(trail@);
    let all = after.event_list();
    assert(all.drop_last() =~= old(log).event_list());
    assert(views.last() == all.last());
    assert(views[views.len() - 1] == trail@[trail@.len() - 1]@);
}

} // verus!
