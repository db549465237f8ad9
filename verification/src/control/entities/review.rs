//! Entity-resolution review candidates.

use vstd::prelude::*;

use super::super::db::DbError;
use super::registry::{reviews_ascend, EntityRegistry};
use crate::order::{key_views, ordered_pick, sort_picked};
use crate::text::same;

verus! {

/// The state of a review.
#[derive(Debug, Clone, Copy, PartialEq, Eq, Structural)]
pub enum ReviewStatus {
    /// Waiting for a decision.
    Pending,
    /// The pair was merged.
    Merged,
    /// The pair was dropped.
    Rejected,
}

/// A row of the review queue.
#[derive(Debug)]
pub struct ReviewRow {
    /// Review row id.
    pub id: i64,
    /// First entity captured by the detector.
    pub entity_a: String,
    /// Second entity captured by the detector.
    pub entity_b: String,
    /// The bits of the similarity score that caused the review.
    pub score: Option<u64>,
    /// The state.
    pub status: ReviewStatus,
    /// When the review was filed.
    pub created_at: String,
}

/// The model of a [`ReviewRow`].
#[verifier::ext_equal]
pub struct ReviewView {
    pub id: int,
    pub entity_a: Seq<char>,
    pub entity_b: Seq<char>,
    pub score: Option<u64>,
    pub status: ReviewStatus,
    pub created_at: Seq<char>,
}

impl View for ReviewRow {
    type V = ReviewView;

    open spec fn view(&self) -> ReviewView {
        ReviewView {
            id: self.id as int,
            entity_a: self.entity_a@,
            entity_b: self.entity_b@,
            score: self.score,
            status: self.status,
            created_at: self.created_at@,
        }
    }
}

/// One pending cross-document entity-resolution review candidate.
#[derive(Debug, Clone, PartialEq)]
pub struct ErReview {
    /// Review row id.
    pub id: i64,
    /// First entity captured by the detector.
    pub entity_a: String,
    /// Second entity captured by the detector.
    pub entity_b: String,
    /// The bits of the similarity score that caused the review.
    pub score: Option<u64>,
}

/// Whether a review is about an unordered pair.
pub open spec fn about(r: ReviewView, a: Seq<char>, b: Seq<char>) -> bool {
    (r.entity_a == a && r.entity_b == b) || (r.entity_a == b && r.entity_b == a)
}

/// Whether a decision on an unordered pair is pending.
pub open spec fn pair_pending(reviews: Seq<ReviewView>, a: Seq<char>, b: Seq<char>) -> bool {
    exists|i: int|
        0 <= i < reviews.len() && (#[trigger] reviews[i]).status == ReviewStatus::Pending && about(
            reviews[i],
            a,
            b,
        )
}

/// The id of the next review.
pub open spec fn next_review_id(reviews: Seq<ReviewView>) -> int {
    if reviews.len() == 0 {
        1
    } else {
        reviews.last().id + 1
    }
}

/// Reviews once those that meet a condition and are pending took a status.
pub open spec fn settled(
    reviews: Seq<ReviewView>,
    which: spec_fn(ReviewView) -> bool,
    status: ReviewStatus,
) -> Seq<ReviewView> {
    reviews.map_values(
        |r: ReviewView|
            if r.status == ReviewStatus::Pending && which(r) {
                ReviewView { status, ..r }
            } else {
                r
            },
    )
}

/// Settling keeps the ids.
pub proof fn lemma_settled_ascend(
    reviews: Seq<ReviewView>,
    which: spec_fn(ReviewView) -> bool,
    status: ReviewStatus,
)
    ensures
        reviews_ascend(reviews) ==> reviews_ascend(settled(reviews, which, status)),
{
    let after = settled(reviews, which, status);
    if reviews_ascend(reviews) {
        assert forall|i: int, j: int| 0 <= i < j < after.len() implies (#[trigger] after[i]).id < (
        #[trigger] after[j]).id by {
            assert(after[i].id == reviews[i].id && after[j].id == reviews[j].id);
            assert(reviews[i].id < reviews[j].id);
        }
    }
}

fn review_about(row: &ReviewRow, a: &str, b: &str) -> (res: bool)
    ensures
        res == about(row@, a@, b@),
{
    (same(row.entity_a.as_str(), a) && same(row.entity_b.as_str(), b)) || (same(
        row.entity_a.as_str(),
        b,
    ) && same(row.entity_b.as_str(), a))
}

/// The condition that a review is about a pair.
pub open spec fn of_pair(a: Seq<char>, b: Seq<char>) -> spec_fn(ReviewView) -> bool {
    |r: ReviewView| about(r, a, b)
}

/// The condition that a review is about an entity.
pub open spec fn of_entity(id: Seq<char>) -> spec_fn(ReviewView) -> bool {
    |r: ReviewView| r.entity_a == id || r.entity_b == id
}

/// The condition that a review has an id.
pub open spec fn of_id(id: int) -> spec_fn(ReviewView) -> bool {
    |r: ReviewView| r.id == id
}

/// The models of review rows.
pub open spec fn review_views(rows: Seq<ReviewRow>) -> Seq<ReviewView> {
    rows.map_values(|r: ReviewRow| r@)
}

/// Closes the pending reviews of a pair as merged.
pub fn settle_pair(reviews: &mut Vec<ReviewRow>, a: &str, b: &str)
    ensures
        review_views(final(reviews)@) == settled(
            review_views(old(reviews)@),
            of_pair(a@, b@),
            ReviewStatus::Merged,
        ),
{
    let ghost before = review_views(reviews@);
    let ghost after = settled(before, of_pair(a@, b@), ReviewStatus::Merged);
    let n: usize = reviews.len();
    let mut i: usize = 0;
    while i < n
        invariant
            i <= n == reviews@.len(),
            before.len() == n,
            after == settled(before, of_pair(a@, b@), ReviewStatus::Merged),
            review_views(reviews@) =~= after.take(i as int) + before.skip(i as int),
        decreases n - i,
    {
        let ghost now = review_views(reviews@);
        assert(now[i as int] == reviews@[i as int]@);
        assert(now[i as int] == before[i as int]);
        if reviews[i].status == ReviewStatus::Pending && review_about(&reviews[i], a, b) {
            reviews[i].status = ReviewStatus::Merged;
        }
        assert(review_views(reviews@)[i as int] =~= after[i as int]);
        assert(review_views(reviews@) =~= now.update(i as int, after[i as int]));
        i = i + 1;
    }
    assert(after.take(n as int) + before.skip(n as int) =~= after);
}

/// Closes the pending reviews of an entity as rejected.
pub fn reject_entity(reviews: &mut Vec<ReviewRow>, id: &str)
    ensures
        review_views(final(reviews)@) == settled(
            review_views(old(reviews)@),
            of_entity(id@),
            ReviewStatus::Rejected,
        ),
{
    let ghost before = review_views(reviews@);
    let ghost after = settled(before, of_entity(id@), ReviewStatus::Rejected);
    let n: usize = reviews.len();
    let mut i: usize = 0;
    while i < n
        invariant
            i <= n == reviews@.len(),
            before.len() == n,
            after == settled(before, of_entity(id@), ReviewStatus::Rejected),
            review_views(reviews@) =~= after.take(i as int) + before.skip(i as int),
        decreases n - i,
    {
        let ghost now = review_views(reviews@);
        assert(now[i as int] == reviews@[i as int]@);
        assert(now[i as int] == before[i as int]);
        let hit = same(reviews[i].entity_a.as_str(), id) || same(reviews[i].entity_b.as_str(), id);
        if reviews[i].status == ReviewStatus::Pending && hit {
            reviews[i].status = ReviewStatus::Rejected;
        }
        assert(review_views(reviews@)[i as int] =~= after[i as int]);
        assert(review_views(reviews@) =~= now.update(i as int, after[i as int]));
        i = i + 1;
    }
    assert(after.take(n as int) + before.skip(n as int) =~= after);
}

/// Closes a review whose two ids already resolve to the same merged root.
pub fn mark_er_review_merged(registry: &mut EntityRegistry, review_id: i64)
    requires
        old(registry).wf(),
    ensures
        final(registry).wf(),
        final(registry).review_list() == settled(
            old(registry).review_list(),
            of_id(review_id as int),
            ReviewStatus::Merged,
        ),
        final(registry).entity_list() == old(registry).entity_list(),
        final(registry).alias_list() == old(registry).alias_list(),
        final(registry).merge_list() == old(registry).merge_list(),
        final(registry).candidate_list() == old(registry).candidate_list(),
{
    let ghost start = *registry;
    let ghost before = registry.review_list();
    let ghost after = settled(before, of_id(review_id as int), ReviewStatus::Merged);
    let n: usize = registry.reviews.len();
    let mut i: usize = 0;
    while i < n
        invariant
            i <= n == registry.reviews@.len(),
            before.len() == n,
            after == settled(before, of_id(review_id as int), ReviewStatus::Merged),
            registry.review_list() =~= after.take(i as int) + before.skip(i as int),
            registry.entities == start.entities,
            registry.aliases == start.aliases,
            registry.merges == start.merges,
            registry.candidates == start.candidates,
        decreases n - i,
    {
        let ghost now = registry.review_list();
        assert(now[i as int] == registry.reviews@[i as int]@);
        assert(now[i as int] == before[i as int]);
        if registry.reviews[i].status == ReviewStatus::Pending && registry.reviews[i].id
            == review_id {
            registry.reviews[i].status = ReviewStatus::Merged;
        }
        assert(registry.review_list()[i as int] =~= after[i as int]);
        assert(registry.review_list() =~= now.update(i as int, after[i as int]));
        i = i + 1;
    }
    proof {
        assert(after.take(n as int) + before.skip(n as int) =~= after);
        lemma_settled_ascend(before, of_id(review_id as int), ReviewStatus::Merged);
    }
}

/// Files a cross-document merge candidate: two entities that similarity matching could not
/// separate. A self pair, and a pair in either order whose decision is pending, files nothing.
/// Answers whether a row was filed, which takes the next id.
pub fn er_review_candidate(
    registry: &mut EntityRegistry,
    entity_a: &str,
    entity_b: &str,
    score: u64,
    now_stamp: &str,
) -> (res: Result<bool, DbError>)
    requires
        old(registry).wf(),
    ensures
        final(registry).wf(),
        final(registry).entity_list() == old(registry).entity_list(),
        final(registry).alias_list() == old(registry).alias_list(),
        final(registry).merge_list() == old(registry).merge_list(),
        final(registry).candidate_list() == old(registry).candidate_list(),
        ({
            let before = old(registry).review_list();
            let quiet = entity_a@ == entity_b@ || pair_pending(before, entity_a@, entity_b@);
            if quiet {
                &&& res is Ok
                &&& !res->Ok_0
                &&& final(registry).review_list() == before
            } else if next_review_id(before) > i64::MAX {
                &&& res is Err
                &&& res->Err_0 is Sqlite
                &&& final(registry).review_list() == before
            } else {
                &&& res is Ok
                &&& res->Ok_0
                &&& final(registry).review_list() == before.push(
                    ReviewView {
                        id: next_review_id(before),
                        entity_a: entity_a@,
                        entity_b: entity_b@,
                        score: Some(score),
                        status: ReviewStatus::Pending,
                        created_at: now_stamp@,
                    },
                )
            }
        }),
{
    if same(entity_a, entity_b) {
        return Ok(false);
    }
    let ghost before = registry.review_list();
    let mut i: usize = 0;
    while i < registry.reviews.len()
        invariant
            i <= registry.reviews@.len(),
            *registry == *old(registry),
            old(registry).wf(),
            entity_a@ != entity_b@,
            before == registry.review_list(),
            forall|j: int|
                0 <= j < i ==> !((#[trigger] before[j]).status == ReviewStatus::Pending && about(
                    before[j],
                    entity_a@,
                    entity_b@,
                )),
        decreases registry.reviews@.len() - i,
    {
        assert(before[i as int] == registry.reviews@[i as int]@);
        if registry.reviews[i].status == ReviewStatus::Pending && review_about(
            &registry.reviews[i],
            entity_a,
            entity_b,
        ) {
            return Ok(false);
        }
        i = i + 1;
    }
    let n: usize = registry.reviews.len();
    let review_id: i64 = if n == 0 {
        1
    } else {
        let last: i64 = registry.reviews[n - 1].id;
        assert(before.last() == registry.reviews@[n - 1]@);
        if last == i64::MAX {
            return Err(DbError::Sqlite("database or disk is full".to_owned()));
        }
        last + 1
    };
    let ghost start = *registry;
    let row = ReviewRow {
        id: review_id,
        entity_a: entity_a.to_owned(),
        entity_b: entity_b.to_owned(),
        score: Some(score),
        status: ReviewStatus::Pending,
        created_at: now_stamp.to_owned(),
    };
    let ghost added = row@;
    registry.reviews.push(row);
    proof {
        let after = registry.review_list();
        assert(after =~= before.push(added));
        assert(registry.entity_list() =~= start.entity_list());
        assert(registry.alias_list() =~= start.alias_list());
        assert(registry.merge_list() =~= start.merge_list());
        assert(registry.candidate_list() =~= start.candidate_list());
        assert forall|i: int, j: int| 0 <= i < j < after.len() implies (#[trigger] after[i]).id < (
        #[trigger] after[j]).id by {
            assert(after[i] == before[i]);
            if j < before.len() {
                assert(after[j] == before[j]);
            } else if i < before.len() - 1 {
                assert(before[i].id < before[before.len() - 1].id);
            }
        }
    }
    Ok(true)
}

/// The times at which reviews were filed.
pub open spec fn review_keys(reviews: Seq<ReviewView>) -> Seq<(Seq<char>, Seq<char>)> {
    reviews.map_values(|r: ReviewView| (r.created_at, Seq::<char>::empty()))
}

/// Which reviews are pending.
pub open spec fn pending_flags(reviews: Seq<ReviewView>) -> Seq<bool> {
    reviews.map_values(|r: ReviewView| r.status == ReviewStatus::Pending)
}

/// Whether `res` lists the pending reviews, the oldest first. Reviews are filed with growing ids, so
/// those of one time come by id.
pub open spec fn lists_pending(reviews: Seq<ReviewView>, res: Seq<ErReview>) -> bool {
    exists|order: Seq<int>|
        {
            &&& #[trigger] ordered_pick::<(String, String)>(review_keys(reviews), pending_flags(reviews), order)
            &&& res.len() == order.len()
            &&& forall|i: int|
                0 <= i < res.len() ==> {
                    &&& (#[trigger] res[i]).id == reviews[order[i]].id
                    &&& res[i].entity_a@ == reviews[order[i]].entity_a
                    &&& res[i].entity_b@ == reviews[order[i]].entity_b
                    &&& res[i].score == reviews[order[i]].score
                }
        }
}

/// The pending cross-document merge queue, the oldest first.
pub fn pending_er_reviews(registry: &EntityRegistry) -> (res: Vec<ErReview>)
    ensures
        lists_pending(registry.review_list(), res@),
{
    let ghost all = registry.review_list();
    let ghost wanted_keys = review_keys(all);
    let ghost wanted_pick = pending_flags(all);
    let mut keys: Vec<(String, String)> = Vec::new();
    let mut pick: Vec<bool> = Vec::new();
    let mut i: usize = 0;
    while i < registry.reviews.len()
        invariant
            i <= registry.reviews@.len(),
            all == registry.review_list(),
            wanted_keys == review_keys(all),
            wanted_pick == pending_flags(all),
            key_views(keys@) == wanted_keys.take(i as int),
            pick@ == wanted_pick.take(i as int),
        decreases registry.reviews@.len() - i,
    {
        assert(all[i as int] == registry.reviews@[i as int]@);
        let ghost before = key_views(keys@);
        let key = (registry.reviews[i].created_at.clone(), String::new());
        assert((key.0@, key.1@) == wanted_keys[i as int]);
        keys.push(key);
        pick.push(registry.reviews[i].status == ReviewStatus::Pending);
        assert(key_views(keys@) =~= before.push(wanted_keys[i as int]));
        i = i + 1;
        assert(key_views(keys@) =~= wanted_keys.take(i as int));
        assert(pick@ =~= wanted_pick.take(i as int));
    }
    assert(wanted_keys.take(i as int) =~= wanted_keys);
    assert(wanted_pick.take(i as int) =~= wanted_pick);
    assert(keys@.len() == key_views(keys@).len());
    let order = sort_picked(&keys, &pick);
    let ghost indices = order@.map_values(|i: usize| i as int);
    let mut res: Vec<ErReview> = Vec::new();
    let mut k: usize = 0;
    while k < order.len()
        invariant
            k <= order@.len(),
            all == registry.review_list(),
            indices == order@.map_values(|i: usize| i as int),
            forall|j: int| 0 <= j < order@.len() ==> #[trigger] order@[j] < registry.reviews@.len(),
            res@.len() == k,
            forall|j: int|
                0 <= j < k ==> {
                    &&& (#[trigger] res@[j]).id == all[indices[j]].id
                    &&& res@[j].entity_a@ == all[indices[j]].entity_a
                    &&& res@[j].entity_b@ == all[indices[j]].entity_b
                    &&& res@[j].score == all[indices[j]].score
                },
        decreases order@.len() - k,
    {
        let row = &registry.reviews[order[k]];
        assert(all[order@[k as int] as int] == row@);
        res.push(
            ErReview {
                id: row.id,
                entity_a: row.entity_a.clone(),
                entity_b: row.entity_b.clone(),
                score: row.score,
            },
        );
        k = k + 1;
    }
    assert(ordered_pick::<(String, String)>(wanted_keys, wanted_pick, indices));
    res
}

/// The queue holds one decision per unordered pair.
pub open spec fn one_decision_per_pair(reviews: Seq<ReviewView>) -> bool {
    forall|i: int, j: int|
        0 <= i < j < reviews.len() && (#[trigger] reviews[i]).status == ReviewStatus::Pending && (
        #[trigger] reviews[j]).status == ReviewStatus::Pending ==> !about(
            reviews[j],
            reviews[i].entity_a,
            reviews[i].entity_b,
        )
}

/// Filing a pair that is not pending, and closing reviews, keep one decision per pair.
pub proof fn law_one_decision_per_pair(
    reviews: Seq<ReviewView>,
    row: ReviewView,
    which: spec_fn(ReviewView) -> bool,
    status: ReviewStatus,
)
    requires
        one_decision_per_pair(reviews),
        status != ReviewStatus::Pending,
        !pair_pending(reviews, row.entity_a, row.entity_b),
    ensures
        one_decision_per_pair(reviews.push(row)),
        one_decision_per_pair(settled(reviews, which, status)),
{
    let after = reviews.push(row);
    assert forall|i: int, j: int|
        0 <= i < j < after.len() && (#[trigger] after[i]).status == ReviewStatus::Pending && (
        #[trigger] after[j]).status == ReviewStatus::Pending implies !about(
        after[j],
        after[i].entity_a,
        after[i].entity_b,
    ) by {
        assert(after[i] == reviews[i]);
        if j < reviews.len() {
            assert(after[j] == reviews[j]);
        }
    }
    let done = settled(reviews, which, status);
    assert forall|i: int, j: int|
        0 <= i < j < done.len() && (#[trigger] done[i]).status == ReviewStatus::Pending && (
        #[trigger] done[j]).status == ReviewStatus::Pending implies !about(
        done[j],
        done[i].entity_a,
        done[i].entity_b,
    ) by {
        assert(done[i] == reviews[i] && done[j] == reviews[j]);
    }
}

/// The queue is worked off in its order: every pending review is listed with its pair and score, nothing
/// else is, and of two listed ones the first was filed no later.
pub proof fn law_pending_reviews_go_oldest_first(
    reviews: Seq<ReviewView>,
    res: Seq<ErReview>,
    i: int,
    a: int,
    b: int,
)
    requires
        lists_pending(reviews, res),
    ensures
        0 <= i < reviews.len() && reviews[i].status == ReviewStatus::Pending ==> exists|k: int|
            {
                &&& 0 <= k < res.len()
                &&& (#[trigger] res[k]).id == reviews[i].id
                &&& res[k].entity_a@ == reviews[i].entity_a
                &&& res[k].entity_b@ == reviews[i].entity_b
                &&& res[k].score == reviews[i].score
            },
        0 <= a < b < res.len() ==> exists|x: int, y: int|
            {
                &&& 0 <= x < reviews.len() && 0 <= y < reviews.len() && x != y
                &&& (#[trigger] reviews[x]).id == res[a].id && (#[trigger] reviews[y]).id == res[b].id
                &&& reviews[x].status == ReviewStatus::Pending && reviews[y].status
                    == ReviewStatus::Pending
                &&& !crate::text::text_less(reviews[y].created_at, reviews[x].created_at)
            },
{
    let (keys, pick) = (review_keys(reviews), pending_flags(reviews));
    let order = choose|order: Seq<int>|
        {
            &&& #[trigger] ordered_pick::<(String, String)>(keys, pick, order)
            &&& res.len() == order.len()
            &&& forall|i: int|
                0 <= i < res.len() ==> {
                    &&& (#[trigger] res[i]).id == reviews[order[i]].id
                    &&& res[i].entity_a@ == reviews[order[i]].entity_a
                    &&& res[i].entity_b@ == reviews[order[i]].entity_b
                    &&& res[i].score == reviews[order[i]].score
                }
        };
    if 0 <= i < reviews.len() && reviews[i].status == ReviewStatus::Pending {
        assert(pick[i]);
        assert(order.contains(i));
        let k = choose|k: int| 0 <= k < order.len() && order[k] == i;
        assert(res[k].id == reviews[i].id);
    }
    if 0 <= a < b < res.len() {
        crate::order::law_picked_rows_never_go_back(keys, pick, order, a, b);
        let (x, y) = (order[a], order[b]);
        assert(reviews[x].id == res[a].id && reviews[y].id == res[b].id);
        assert(keys[x].0 == reviews[x].created_at && keys[y].0 == reviews[y].created_at);
    }
}

/// Closing the reviews of a pair, in whichever order it is named, closes all of them that wait and no
/// other; closing those of an entity closes every one that names it. A closed review stays as it is.
pub proof fn law_settling_closes_what_it_names(
    reviews: Seq<ReviewView>,
    a: Seq<char>,
    b: Seq<char>,
    status: ReviewStatus,
    i: int,
)
    requires
        0 <= i < reviews.len(),
    ensures
        ({
            let r = reviews[i];
            let pair = settled(reviews, of_pair(a, b), status)[i];
            let one = settled(reviews, of_entity(a), status)[i];
            &&& r.status != ReviewStatus::Pending ==> pair == r && one == r
            &&& r.status == ReviewStatus::Pending && ((r.entity_a == a && r.entity_b == b) || (
            r.entity_a == b && r.entity_b == a)) ==> pair.status == status && pair.id == r.id
                && pair.score == r.score
            &&& !((r.entity_a == a && r.entity_b == b) || (r.entity_a == b && r.entity_b == a))
                ==> pair == r
            &&& r.status == ReviewStatus::Pending && (r.entity_a == a || r.entity_b == a)
                ==> one.status == status && one.id == r.id
            &&& r.entity_a != a && r.entity_b != a ==> one == r
        }),
{
}

/// Reviews are filed under growing numbers: the next number is none that was given before.
pub proof fn law_review_numbers_are_new(reviews: Seq<ReviewView>, i: int)
    requires
        reviews_ascend(reviews),
        0 <= i < reviews.len(),
    ensures
        next_review_id(reviews) > reviews[i].id,
        next_review_id(Seq::<ReviewView>::empty()) == 1,
{
    assert(reviews[reviews.len() - 1] == reviews.last());
}

/// Filing a review of two entities adds a pending one of both, once: an entity is not reviewed against itself,
/// and a pair that waits already is not filed again, whichever of the two comes first.
pub proof fn law_pairs_are_filed_once(
    registry: &mut EntityRegistry,
    a: &str,
    b: &str,
    score: u64,
    now: &str,
    res: Result<bool, DbError>,
    i: int,
)
    requires
        call_ensures(er_review_candidate, (registry, a, b, score, now), res),
    ensures
        a@ == b@ ==> res == Ok::<bool, DbError>(false),
        0 <= i < old(registry).review_list().len() && old(registry).review_list()[i].status
            == ReviewStatus::Pending && ((old(registry).review_list()[i].entity_a == a@ && old(registry).review_list()[i].entity_b == b@) || (old(registry).review_list()[i].entity_a == b@ && old(registry).review_list()[i].entity_b == a@)) ==> res == Ok::<bool, DbError>(false),
        res != Ok::<bool, DbError>(true) ==> final(registry).review_list() == old(registry).review_list(),
        res == Ok::<bool, DbError>(true) ==> {
            let last = final(registry).review_list().last();
            &&& final(registry).review_list().drop_last() == old(registry).review_list()
            &&& last.status == ReviewStatus::Pending
            &&& last.entity_a == a@ && last.entity_b == b@
            &&& last.score == Some(score)
            &&& last.created_at == now@
        },
{
    let before = old(registry).review_list();
    if 0 <= i < before.len() && before[i].status == ReviewStatus::Pending && ((before[i].entity_a == a@
        && before[i].entity_b == b@) || (before[i].entity_a == b@ && before[i].entity_b == a@)) {
        assert(about(before[i], a@, b@));
        assert(pair_pending(before, a@, b@));
    }
    if res == Ok::<bool, DbError>(true) {
        assert(final(registry).review_list().drop_last() =~= before);
    }
}

/// Closing a review closes that one alone, where it is pending; rejecting an entity closes every pending review
/// that it is in, on either side, and no other.
pub proof fn law_reviews_are_closed_by_name(
    registry: &mut EntityRegistry,
    id: i64,
    rows: &mut Vec<ReviewRow>,
    entity: &str,
    i: int,
)
    requires
        call_ensures(mark_er_review_merged, (registry, id), ()),
        call_ensures(reject_entity, (rows, entity), ()),
    ensures
        final(registry).review_list().len() == old(registry).review_list().len(),
        0 <= i < old(registry).review_list().len() ==> {
            let (was, is) = (old(registry).review_list()[i], final(registry).review_list()[i]);
            &&& was.id == id && was.status == ReviewStatus::Pending ==> is.status
                == ReviewStatus::Merged && is.id == was.id && is.entity_a == was.entity_a
            &&& was.id != id || was.status != ReviewStatus::Pending ==> is == was
        },
        final(rows)@.len() == old(rows)@.len(),
        0 <= i < old(rows)@.len() ==> {
            let (was, is) = (old(rows)@[i]@, final(rows)@[i]@);
            let named = was.entity_a == entity@ || was.entity_b == entity@;
            &&& named && was.status == ReviewStatus::Pending ==> is.status == ReviewStatus::Rejected
                && is.id == was.id
            &&& !named || was.status != ReviewStatus::Pending ==> is == was
        },
{
    let (was, is) = (review_views(old(rows)@), review_views(final(rows)@));
    assert(was.len() == is.len());
    if 0 <= i < old(rows)@.len() {
        assert(was[i] == old(rows)@[i]@ && is[i] == final(rows)@[i]@);
    }
}

} // verus!
