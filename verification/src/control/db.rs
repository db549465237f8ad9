//! Control-plane errors and the one timestamp rule.
//!
//! Timestamps are UTC `YYYY-MM-DD HH:MM:SS`, so that lexicographic order is chronological order:
//! lease expiry and backoff comparisons depend on it.

use vstd::prelude::*;
use vstd::string::StringExecFns;

use crate::text::{contains_text, debug_form, debug_string, opt_text, texts};

verus! {

/// The timestamp format.
pub const TS_FMT: &'static str = "%Y-%m-%d %H:%M:%S";

/// The largest shift, in seconds: the range of a `chrono` duration.
pub const MAX_SHIFT_SECS: i64 = 9_223_372_036_854_775;

/// Control-plane errors.
#[derive(Debug)]
pub enum DbError {
    /// A statement, pragma, or transaction failed.
    Sqlite(String),
    /// A migration failed mid-apply; it is rolled back and its version is not recorded.
    Migration {
        /// The migration that failed.
        version: String,
    },
    /// A stored or computed timestamp does not follow the format.
    Timestamp {
        /// The offending value.
        value: String,
        /// The expected format.
        fmt: &'static str,
    },
    /// An entity referenced by an operator merge does not exist.
    EntityNotFound {
        /// Missing entity id.
        entity_id: String,
    },
    /// An entity cannot be merged into itself.
    MergeSelf {
        /// Repeated entity id.
        entity_id: String,
    },
    /// An entity merge would cross the closed ontology's supertypes.
    EntityTypeMismatch {
        /// Loser entity id.
        loser_id: String,
        /// Loser entity type.
        loser_type: String,
        /// Winner entity id.
        winner_id: String,
        /// Winner entity type.
        winner_type: String,
    },
    /// The merge audit already records a different winner for the loser.
    MergeConflict {
        /// Loser entity id.
        loser_id: String,
        /// Existing winner.
        existing_winner: String,
        /// Requested winner.
        requested_winner: String,
    },
    /// The merge audit contains a cycle and cannot be resolved safely.
    MergeCycle {
        /// Entity id where resolution revisited a node.
        entity_id: String,
    },
    /// A worker record is missing or malformed.
    WorkerRecord(String),
}

impl DbError {
    /// The text of the error.
    pub open spec fn text(self) -> Seq<char> {
        match self {
            DbError::Sqlite(m) => "sqlite: "@ + m@,
            DbError::Migration { version } => "migration "@ + version@ + " failed"@,
            DbError::Timestamp { value, fmt } => "malformed timestamp "@ + debug_form(value@)
                + ": expected "@ + debug_form(fmt@),
            DbError::EntityNotFound { entity_id } => "entity not found: "@ + entity_id@,
            DbError::MergeSelf { entity_id } => "cannot merge entity "@ + entity_id@
                + " into itself"@,
            DbError::EntityTypeMismatch { loser_id, loser_type, winner_id, winner_type } =>
                "entity types do not match: "@ + loser_id@ + "="@ + loser_type@ + ", "@ + winner_id@
                + "="@ + winner_type@,
            DbError::MergeConflict { loser_id, existing_winner, requested_winner } => "entity "@
                + loser_id@ + " already merges into "@ + existing_winner@ + ", not "@
                + requested_winner@,
            DbError::MergeCycle { entity_id } => "entity merge cycle at "@ + entity_id@,
            DbError::WorkerRecord(m) => "worker record: "@ + m@,
        }
    }

    /// The text of the error.
    pub fn message(&self) -> (res: String)
        ensures
            res@ == self.text(),
    {
        match self {
            DbError::Sqlite(m) => {
                let mut s = "sqlite: ".to_owned();
                s.append(m.as_str());
                s
            },
            DbError::Migration { version } => {
                let mut s = "migration ".to_owned();
                s.append(version.as_str());
                s.append(" failed");
                s
            },
            DbError::Timestamp { value, fmt } => {
                let mut s = "malformed timestamp ".to_owned();
                let v = debug_string(value.as_str());
                s.append(v.as_str());
                s.append(": expected ");
                let f = debug_string(fmt);
                s.append(f.as_str());
                s
            },
            DbError::EntityNotFound { entity_id } => {
                let mut s = "entity not found: ".to_owned();
                s.append(entity_id.as_str());
                s
            },
            DbError::MergeSelf { entity_id } => {
                let mut s = "cannot merge entity ".to_owned();
                s.append(entity_id.as_str());
                s.append(" into itself");
                s
            },
            DbError::EntityTypeMismatch { loser_id, loser_type, winner_id, winner_type } => {
                let mut s = "entity types do not match: ".to_owned();
                s.append(loser_id.as_str());
                s.append("=");
                s.append(loser_type.as_str());
                s.append(", ");
                s.append(winner_id.as_str());
                s.append("=");
                s.append(winner_type.as_str());
                s
            },
            DbError::MergeConflict { loser_id, existing_winner, requested_winner } => {
                let mut s = "entity ".to_owned();
                s.append(loser_id.as_str());
                s.append(" already merges into ");
                s.append(existing_winner.as_str());
                s.append(", not ");
                s.append(requested_winner.as_str());
                s
            },
            DbError::MergeCycle { entity_id } => {
                let mut s = "entity merge cycle at ".to_owned();
                s.append(entity_id.as_str());
                s
            },
            DbError::WorkerRecord(m) => {
                let mut s = "worker record: ".to_owned();
                s.append(m.as_str());
                s
            },
        }
    }
}

/// A timestamp moved by a number of seconds, as `chrono` computes it: none where the text is no
/// timestamp or the result is out of range.
pub uninterp spec fn moved_stamp(stamp: Seq<char>, secs: int) -> Option<Seq<char>>;

/// Calls `chrono::NaiveDateTime::checked_add_signed` on the time that the text denotes in
/// [`TS_FMT`], and writes the sum in the same format. The result is a function of the text and the
/// seconds. Durations beyond the range of `chrono`, on which it panics, are excluded.
#[verifier::external_body]
fn move_stamp(stamp: &str, secs: i64) -> (res: Option<String>)
    requires
        -MAX_SHIFT_SECS <= secs <= MAX_SHIFT_SECS,
    ensures
        opt_text(res) == moved_stamp(stamp@, secs as int),
{
    let time = chrono::NaiveDateTime::parse_from_str(stamp, TS_FMT).ok()?;
    let moved = time.checked_add_signed(chrono::Duration::seconds(secs))?;
    Some(moved.format(TS_FMT).to_string())
}

/// A number of seconds held to the range of shifts.
pub open spec fn held(secs: int) -> int {
    if secs > MAX_SHIFT_SECS {
        MAX_SHIFT_SECS as int
    } else if secs < -MAX_SHIFT_SECS {
        -MAX_SHIFT_SECS
    } else {
        secs
    }
}

/// The last timestamp that a shift gives.
pub const LAST_STAMP: &'static str = "9999-12-31 23:59:59";

/// The first timestamp that a shift gives.
pub const FIRST_STAMP: &'static str = "0000-01-01 00:00:00";

/// The length of a timestamp.
pub const STAMP_LEN: usize = 19;

/// The end of the range of timestamps, its first or its last.
pub open spec fn horizon(first: bool) -> Seq<char> {
    if first {
        FIRST_STAMP@
    } else {
        LAST_STAMP@
    }
}

/// A timestamp moved by `secs`; none where the text is no timestamp. A sum that is out of range, or
/// whose year does not have four digits, saturates at the end of the range of timestamps: the first
/// one for years below zero, the last one for years above.
pub open spec fn shifted_stamp(stamp: Seq<char>, secs: int) -> Option<Seq<char>> {
    if moved_stamp(stamp, 0) is None {
        None
    } else {
        match moved_stamp(stamp, held(secs)) {
            Some(s) => Some(
                if s.len() == STAMP_LEN {
                    s
                } else {
                    horizon(s.len() > 0 && s[0] == '-')
                },
            ),
            None => Some(horizon(secs < 0)),
        }
    }
}

/// Whether `res` is the timestamp `stamp` shifted by `secs`, or the error that quotes it.
pub open spec fn shifted(stamp: Seq<char>, secs: int, res: Result<String, DbError>) -> bool {
    match res {
        Ok(s) => shifted_stamp(stamp, secs) == Some(s@),
        Err(e) => {
            &&& shifted_stamp(stamp, secs) is None
            &&& e is Timestamp
            &&& e->Timestamp_value@ == stamp
            &&& e->Timestamp_fmt@ == TS_FMT@
        },
    }
}

/// `stamp` shifted by `secs`, into the past where negative. Shifts beyond every sensible horizon
/// saturate rather than overflow; only a malformed `stamp` is an error.
pub fn shift(stamp: &str, secs: i64) -> (res: Result<String, DbError>)
    ensures
        shifted(stamp@, secs as int, res),
        res is Ok <==> moved_stamp(stamp@, 0) is Some,
{
    if move_stamp(stamp, 0).is_none() {
        return Err(DbError::Timestamp { value: stamp.to_owned(), fmt: TS_FMT });
    }
    let within: i64 = if secs > MAX_SHIFT_SECS {
        MAX_SHIFT_SECS
    } else if secs < -MAX_SHIFT_SECS {
        -MAX_SHIFT_SECS
    } else {
        secs
    };
    let first = match move_stamp(stamp, within) {
        Some(s) => {
            if s.as_str().unicode_len() == STAMP_LEN {
                return Ok(s);
            }
            !s.as_str().is_empty() && s.as_str().get_char(0) == '-'
        },
        None => secs < 0,
    };
    Ok(
        if first {
            FIRST_STAMP.to_owned()
        } else {
            LAST_STAMP.to_owned()
        },
    )
}

/// `stamp` advanced by `secs`: lease expiries and backoff dues.
pub fn now_plus(stamp: &str, secs: u64) -> (res: Result<String, DbError>)
    ensures
        shifted(stamp@, secs as int, res),
{
    let within: i64 = if secs > MAX_SHIFT_SECS as u64 {
        MAX_SHIFT_SECS
    } else {
        secs as i64
    };
    shift(stamp, within)
}

/// `stamp` moved back by `secs`: retention and staleness cutoffs.
pub fn now_minus(stamp: &str, secs: u64) -> (res: Result<String, DbError>)
    ensures
        shifted(stamp@, -(secs as int), res),
{
    let within: i64 = if secs > MAX_SHIFT_SECS as u64 {
        MAX_SHIFT_SECS
    } else {
        secs as i64
    };
    shift(stamp, -within)
}

/// The migrations that are still to be applied, in their order.
pub open spec fn pending(all: Seq<Seq<char>>, applied: Seq<Seq<char>>) -> Seq<Seq<char>>
    decreases all.len(),
{
    if all.len() == 0 {
        seq![]
    } else if applied.contains(all.last()) {
        pending(all.drop_last(), applied)
    } else {
        pending(all.drop_last(), applied).push(all.last())
    }
}

/// The migrations that are still to be applied, in their order.
pub fn pending_migrations(all: &Vec<String>, applied: &Vec<String>) -> (res: Vec<String>)
    ensures
        texts(res@) == pending(texts(all@), texts(applied@)),
{
    let ghost versions = texts(all@);
    let ghost done = texts(applied@);
    let mut res: Vec<String> = Vec::new();
    let mut i: usize = 0;
    assert(versions.take(0) =~= seq![]);
    assert(texts(res@) =~= seq![]);
    while i < all.len()
        invariant
            i <= all@.len(),
            versions == texts(all@),
            done == texts(applied@),
            texts(res@) == pending(versions.take(i as int), done),
        decreases all@.len() - i,
    {
        assert(versions.take(i + 1).drop_last() =~= versions.take(i as int));
        assert(versions.take(i + 1).last() == all@[i as int]@);
        if !contains_text(applied, all[i].as_str()) {
            let ghost before = texts(res@);
            let version = all[i].clone();
            res.push(version);
            assert(texts(res@) =~= before.push(version@));
        }
        i = i + 1;
    }
    assert(versions.take(i as int) =~= versions);
    res
}

/// A shift keeps the format and never fails on a timestamp: whatever one is moved by, the result is as
/// long as timestamps are.
pub proof fn law_shifts_keep_the_format(stamp: Seq<char>, secs: int)
    ensures
        shifted_stamp(stamp, secs) matches Some(s) ==> s.len() == STAMP_LEN,
        shifted_stamp(stamp, secs) is Some <==> shifted_stamp(stamp, 0) is Some,
{
    reveal_strlit("9999-12-31 23:59:59");
    reveal_strlit("0000-01-01 00:00:00");
}

/// Once every migration is applied, none is applied again.
pub proof fn law_migrations_apply_once(all: Seq<Seq<char>>, applied: Seq<Seq<char>>)
    requires
        forall|i: int| 0 <= i < all.len() ==> applied.contains(#[trigger] all[i]),
    ensures
        pending(all, applied).len() == 0,
    decreases all.len(),
{
    if all.len() > 0 {
        assert(all[all.len() - 1] == all.last());
        let rest = all.drop_last();
        assert forall|i: int| 0 <= i < rest.len() implies applied.contains(#[trigger] rest[i]) by {
            assert(rest[i] == all[i]);
        }
        law_migrations_apply_once(rest, applied);
    }
}

/// A shift is the sum: wherever the moved time can be written as a timestamp, a shift of any sensible
/// length gives exactly it; what is out of range is held to the end of the range that the shift goes
/// towards, and a shift is held to the longest one that can be made.
pub proof fn law_shifts_are_sums(stamp: Seq<char>, secs: int, s: Seq<char>)
    requires
        moved_stamp(stamp, 0) is Some,
    ensures
        -9_223_372_036_854_775 <= secs <= 9_223_372_036_854_775 && moved_stamp(stamp, secs) == Some(s)
            && s.len() == 19 ==> shifted_stamp(stamp, secs) == Some(s),
        -9_223_372_036_854_775 <= secs <= 9_223_372_036_854_775 && moved_stamp(stamp, secs) is None
            ==> shifted_stamp(stamp, secs) == Some(
            if secs < 0 {
                "0000-01-01 00:00:00"@
            } else {
                "9999-12-31 23:59:59"@
            },
        ),
        secs > 9_223_372_036_854_775 ==> shifted_stamp(stamp, secs) == shifted_stamp(
            stamp,
            9_223_372_036_854_775,
        ),
        secs < -9_223_372_036_854_775 ==> shifted_stamp(stamp, secs) == shifted_stamp(
            stamp,
            -9_223_372_036_854_775,
        ),
{
}

/// Exactly the migrations that were not applied are pending, in the order in which they are given.
pub proof fn law_pending_migrations_are_the_missing_ones(
    all: Seq<Seq<char>>,
    applied: Seq<Seq<char>>,
    x: Seq<char>,
)
    ensures
        pending(all, applied).contains(x) <==> all.contains(x) && !applied.contains(x),
        (forall|i: int| 0 <= i < all.len() ==> !applied.contains(#[trigger] all[i])) ==> pending(
            all,
            applied,
        ) == all,
    decreases all.len(),
{
    if all.len() > 0 {
        let rest = all.drop_last();
        law_pending_migrations_are_the_missing_ones(rest, applied, x);
        crate::text::lemma_push_contains(rest, all.last());
        crate::text::lemma_push_contains(pending(rest, applied), all.last());
        assert(rest.push(all.last()) =~= all);
        if forall|i: int| 0 <= i < all.len() ==> !applied.contains(#[trigger] all[i]) {
            assert(all[all.len() - 1] == all.last());
            assert forall|i: int| 0 <= i < rest.len() implies !applied.contains(
                #[trigger] rest[i],
            ) by {
                assert(rest[i] == all[i]);
            }
        }
    } else {
        assert(all =~= pending(all, applied));
    }
}

} // verus!
