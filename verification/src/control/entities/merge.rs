//! Offline entity-merge records and resolution.

use vstd::prelude::*;

use super::super::db::DbError;
use super::registry::{
    aliases_distinct, has_entity, losers_distinct, AliasRow, AliasSource, AliasView,
    EntityRegistry, EntityView, MergeRow, MergeView,
};
use super::review::{
    lemma_settled_ascend, of_pair, review_views, settle_pair, settled, ReviewStatus,
};
use crate::order::{key_views, ordered_pick, sort_picked};
use crate::text::{contains_text, opt_text, same, texts};

verus! {

/// The stable control-plane metadata for one entity.
#[derive(Debug, Clone, PartialEq, Eq)]
pub struct EntityDetails {
    /// Stable surrogate.
    pub entity_id: String,
    /// Canonical display name.
    pub canonical_name: String,
    /// Closed ontology supertype.
    pub entity_type: String,
    /// Creation timestamp used as the deterministic merge tie-breaker.
    pub created_at: String,
}

/// One recorded offline entity merge.
#[derive(Debug, Clone, PartialEq, Eq)]
pub struct EntityMerge {
    /// Entity folded away in the knowledge plane.
    pub loser_id: String,
    /// Entity retained as the canonical graph node.
    pub winner_id: String,
}

/// Whether details tell of a row.
pub open spec fn details_of(d: EntityDetails, e: EntityView) -> bool {
    &&& d.entity_id@ == e.entity_id
    &&& d.canonical_name@ == e.canonical_name
    &&& d.entity_type@ == e.entity_type
    &&& d.created_at@ == e.created_at
}

/// Reads one entity's merge-decision metadata.
pub fn entity_details(registry: &EntityRegistry, entity_id: &str) -> (res: Option<EntityDetails>)
    ensures
        match res {
            Some(d) => d.entity_id@ == entity_id@ && exists|i: int|
                0 <= i < registry.entity_list().len() && details_of(
                    d,
                    #[trigger] registry.entity_list()[i],
                ),
            None => !has_entity(registry.entity_list(), entity_id@),
        },
{
    match registry.entity_index(entity_id) {
        Some(i) => {
            let row = &registry.entities[i];
            assert(registry.entity_list()[i as int] == row@);
            Some(
                EntityDetails {
                    entity_id: row.entity_id.clone(),
                    canonical_name: row.canonical_name.clone(),
                    entity_type: row.entity_type.clone(),
                    created_at: row.created_at.clone(),
                },
            )
        },
        None => None,
    }
}

/// The entity that another was folded into.
pub open spec fn winner_of(merges: Seq<MergeView>, id: Seq<char>) -> Option<Seq<char>>
    decreases merges.len(),
{
    if merges.len() == 0 {
        None
    } else if merges[0].loser_id == id {
        Some(merges[0].winner_id)
    } else {
        winner_of(merges.drop_first(), id)
    }
}

proof fn lemma_winner_of(merges: Seq<MergeView>, id: Seq<char>)
    ensures
        match winner_of(merges, id) {
            Some(w) => exists|i: int|
                0 <= i < merges.len() && (#[trigger] merges[i]).loser_id == id
                    && merges[i].winner_id == w,
            None => forall|i: int|
                0 <= i < merges.len() ==> (#[trigger] merges[i]).loser_id != id,
        },
    decreases merges.len(),
{
    if merges.len() > 0 {
        let rest = merges.drop_first();
        lemma_winner_of(rest, id);
        if merges[0].loser_id != id {
            if winner_of(rest, id) is Some {
                let i = choose|i: int|
                    0 <= i < rest.len() && (#[trigger] rest[i]).loser_id == id && rest[i].winner_id
                        == winner_of(rest, id)->0;
                assert(merges[i + 1] == rest[i]);
            } else {
                assert forall|i: int| 0 <= i < merges.len() implies (#[trigger] merges[i]).loser_id
                    != id by {
                    if i > 0 {
                        assert(rest[i - 1] == merges[i]);
                    }
                }
            }
        }
    }
}

proof fn lemma_winner_push(merges: Seq<MergeView>, row: MergeView, id: Seq<char>)
    ensures
        winner_of(merges.push(row), id) == match winner_of(merges, id) {
            Some(w) => Some(w),
            None => if row.loser_id == id {
                Some(row.winner_id)
            } else {
                None
            },
        },
    decreases merges.len(),
{
    let after = merges.push(row);
    if merges.len() == 0 {
        assert(after[0] == row);
        assert(after.drop_first() =~= merges);
        assert(winner_of(merges, id) is None);
    } else {
        assert(after[0] == merges[0]);
        assert(after.drop_first() =~= merges.drop_first().push(row));
        lemma_winner_push(merges.drop_first(), row, id);
    }
}

/// Whether `path` follows the recorded merges from `id`.
pub open spec fn merge_path(merges: Seq<MergeView>, id: Seq<char>, path: Seq<Seq<char>>) -> bool {
    &&& path.len() > 0
    &&& path[0] == id
    &&& forall|i: int|
        0 <= i < path.len() - 1 ==> winner_of(merges, #[trigger] path[i]) == Some(path[i + 1])
}

/// Whether the recorded merges lead from `id` to `root`, which was not folded away.
pub open spec fn resolves_to(merges: Seq<MergeView>, id: Seq<char>, root: Seq<char>) -> bool {
    exists|path: Seq<Seq<char>>|
        {
            &&& #[trigger] merge_path(merges, id, path)
            &&& path.last() == root
            &&& winner_of(merges, root) is None
        }
}

/// Whether `id` resolves, and not to `other`.
pub open spec fn resolves_elsewhere(
    merges: Seq<MergeView>,
    id: Seq<char>,
    other: Seq<char>,
) -> bool {
    exists|root: Seq<char>| #[trigger] resolves_to(merges, id, root) && root != other
}

/// Whether the recorded merges lead from `id` back to `again`, the first entity met twice.
pub open spec fn revisits(merges: Seq<MergeView>, id: Seq<char>, again: Seq<char>) -> bool {
    exists|path: Seq<Seq<char>>|
        {
            &&& #[trigger] merge_path(merges, id, path)
            &&& path.no_duplicates()
            &&& winner_of(merges, path.last()) == Some(again)
            &&& path.contains(again)
        }
}

/// Whether the recorded merges lead from `id` to a root.
pub open spec fn resolvable(merges: Seq<MergeView>, id: Seq<char>) -> bool {
    exists|root: Seq<char>| #[trigger] resolves_to(merges, id, root)
}

/// Whether every entity resolves.
pub open spec fn acyclic(merges: Seq<MergeView>) -> bool {
    forall|id: Seq<char>| #[trigger] resolvable(merges, id)
}

proof fn lemma_losers_bound(merges: Seq<MergeView>, path: Seq<Seq<char>>)
    requires
        path.no_duplicates(),
        forall|i: int| 0 <= i < path.len() ==> winner_of(merges, #[trigger] path[i]) is Some,
    ensures
        path.len() <= merges.len(),
{
    let losers = merges.map_values(|m: MergeView| m.loser_id);
    path.unique_seq_to_set();
    assert forall|x: Seq<char>| path.to_set().contains(x) implies losers.to_set().contains(x) by {
        assert(path.contains(x));
        let i = choose|i: int| 0 <= i < path.len() && path[i] == x;
        lemma_winner_of(merges, path[i]);
        let k = choose|k: int|
            0 <= k < merges.len() && (#[trigger] merges[k]).loser_id == x && merges[k].winner_id
                == winner_of(merges, x)->0;
        assert(losers[k] == x);
        assert(losers.contains(x));
    }
    assert(path.to_set().subset_of(losers.to_set()));
    losers.lemma_cardinality_of_set();
    vstd::set_lib::lemma_len_subset(path.to_set(), losers.to_set());
}

fn winner(registry: &EntityRegistry, id: &str) -> (res: Option<String>)
    ensures
        opt_text(res) == winner_of(registry.merge_list(), id@),
{
    let ghost all = registry.merge_list();
    assert(all.skip(0) =~= all);
    let mut i: usize = 0;
    while i < registry.merges.len()
        invariant
            i <= registry.merges@.len(),
            all == registry.merge_list(),
            winner_of(all, id@) == winner_of(all.skip(i as int), id@),
        decreases registry.merges@.len() - i,
    {
        let row = &registry.merges[i];
        assert(all.skip(i as int)[0] == row@);
        assert(all.skip(i as int).drop_first() =~= all.skip(i + 1));
        if same(row.loser_id.as_str(), id) {
            return Some(row.winner_id.clone());
        }
        i = i + 1;
    }
    None
}

/// Resolves an entity through the recorded merge chain to its current root. A chain that comes back
/// to an entity is reported.
pub fn resolve_entity(registry: &EntityRegistry, entity_id: &str) -> (res: Result<String, DbError>)
    ensures
        ({
            let merges = registry.merge_list();
            if !has_entity(registry.entity_list(), entity_id@) {
                res matches Err(DbError::EntityNotFound { entity_id: id }) && id@ == entity_id@
            } else {
                match res {
                    Ok(root) => resolves_to(merges, entity_id@, root@),
                    Err(DbError::MergeCycle { entity_id: again }) => revisits(
                        merges,
                        entity_id@,
                        again@,
                    ),
                    Err(_) => false,
                }
            }
        }),
{
    if entity_details(registry, entity_id).is_none() {
        return Err(DbError::EntityNotFound { entity_id: entity_id.to_owned() });
    }
    let ghost merges = registry.merge_list();
    let mut seen: Vec<String> = Vec::new();
    let mut current = entity_id.to_owned();
    let ghost mut path: Seq<Seq<char>> = seq![];
    loop
        invariant
            merges == registry.merge_list(),
            has_entity(registry.entity_list(), entity_id@),
            texts(seen@) == path,
            path.no_duplicates(),
            path.len() == 0 ==> current@ == entity_id@,
            path.len() > 0 ==> merge_path(merges, entity_id@, path) && winner_of(
                merges,
                path.last(),
            ) == Some(current@),
            forall|i: int| 0 <= i < path.len() ==> winner_of(merges, #[trigger] path[i]) is Some,
        decreases merges.len() + 1 - path.len(),
    {
        proof {
            lemma_losers_bound(merges, path);
        }
        if contains_text(&seen, current.as_str()) {
            assert(path.contains(current@));
            return Err(DbError::MergeCycle { entity_id: current });
        }
        let next = winner(registry, current.as_str());
        let ghost before = path;
        let ghost longer = path.push(current@);
        proof {
            assert(merge_path(merges, entity_id@, longer)) by {
                assert forall|i: int| 0 <= i < longer.len() - 1 implies winner_of(
                    merges,
                    #[trigger] longer[i],
                ) == Some(longer[i + 1]) by {
                    assert(longer[i] == before[i]);
                    if i < before.len() - 1 {
                        assert(longer[i + 1] == before[i + 1]);
                    }
                }
            }
            assert(longer.last() == current@);
        }
        match next {
            None => {
                return Ok(current);
            },
            Some(next_id) => {
                proof {
                    assert(longer.no_duplicates()) by {
                        assert(!before.contains(current@));
                    }
                    assert forall|i: int| 0 <= i < longer.len() implies winner_of(
                        merges,
                        #[trigger] longer[i],
                    ) is Some by {
                        if i < before.len() {
                            assert(longer[i] == before[i]);
                        }
                    }
                    lemma_losers_bound(merges, longer);
                    path = longer;
                }
                seen.push(current);
                assert(texts(seen@) =~= path);
                current = next_id;
            },
        }
    }
}

/// The keys by which merges are ordered.
pub open spec fn merge_keys(merges: Seq<MergeView>) -> Seq<(Seq<char>, Seq<char>)> {
    merges.map_values(|m: MergeView| (m.merged_at, m.loser_id))
}

/// Every merge is listed.
pub open spec fn all_merges(merges: Seq<MergeView>) -> Seq<bool> {
    merges.map_values(|m: MergeView| true)
}

/// Whether `res` lists the recorded merges by time, then by loser.
pub open spec fn lists_merges(merges: Seq<MergeView>, res: Seq<EntityMerge>) -> bool {
    exists|order: Seq<int>|
        {
            &&& #[trigger] ordered_pick::<(String, String)>(merge_keys(merges), all_merges(merges), order)
            &&& res.len() == order.len()
            &&& forall|i: int|
                0 <= i < res.len() ==> (#[trigger] res[i]).loser_id@ == merges[order[i]].loser_id
                    && res[i].winner_id@ == merges[order[i]].winner_id
        }
}

/// Reads every recorded merge for the knowledge-plane repair sweep.
pub fn entity_merges(registry: &EntityRegistry) -> (res: Vec<EntityMerge>)
    ensures
        lists_merges(registry.merge_list(), res@),
{
    let ghost all = registry.merge_list();
    let ghost wanted_keys = merge_keys(all);
    let ghost wanted_pick = all_merges(all);
    let mut keys: Vec<(String, String)> = Vec::new();
    let mut pick: Vec<bool> = Vec::new();
    let mut i: usize = 0;
    while i < registry.merges.len()
        invariant
            i <= registry.merges@.len(),
            all == registry.merge_list(),
            wanted_keys == merge_keys(all),
            wanted_pick == all_merges(all),
            key_views(keys@) == wanted_keys.take(i as int),
            pick@ == wanted_pick.take(i as int),
        decreases registry.merges@.len() - i,
    {
        assert(all[i as int] == registry.merges@[i as int]@);
        let ghost before = key_views(keys@);
        let key = (registry.merges[i].merged_at.clone(), registry.merges[i].loser_id.clone());
        assert((key.0@, key.1@) == wanted_keys[i as int]);
        keys.push(key);
        pick.push(true);
        assert(key_views(keys@) =~= before.push(wanted_keys[i as int]));
        i = i + 1;
        assert(key_views(keys@) =~= wanted_keys.take(i as int));
        assert(pick@ =~= wanted_pick.take(i as int));
    }
    assert(wanted_keys.take(i as int) =~= wanted_keys);
    assert(wanted_pick.take(i as int) =~= wanted_pick);
    assert(keys@.len() == key_views(keys@).len());
    let order = sort_picked(&keys, &pick);
    let ghost indices = order@.map_values(|i: usize| i as int);
    let mut res: Vec<EntityMerge> = Vec::new();
    let mut k: usize = 0;
    while k < order.len()
        invariant
            k <= order@.len(),
            all == registry.merge_list(),
            indices == order@.map_values(|i: usize| i as int),
            forall|j: int| 0 <= j < order@.len() ==> #[trigger] order@[j] < registry.merges@.len(),
            res@.len() == k,
            forall|j: int|
                0 <= j < k ==> (#[trigger] res@[j]).loser_id@ == all[indices[j]].loser_id
                    && res@[j].winner_id@ == all[indices[j]].winner_id,
        decreases order@.len() - k,
    {
        let row = &registry.merges[order[k]];
        assert(all[order@[k as int] as int] == row@);
        res.push(
            EntityMerge { loser_id: row.loser_id.clone(), winner_id: row.winner_id.clone() },
        );
        k = k + 1;
    }
    assert(ordered_pick::<(String, String)>(wanted_keys, wanted_pick, indices));
    res
}

/// The aliases once those of the loser name the winner. An alias of one type has one owner, so the
/// winner never holds one of the loser's already.
pub open spec fn remapped(
    aliases: Seq<AliasView>,
    loser: Seq<char>,
    winner: Seq<char>,
) -> Seq<AliasView> {
    aliases.map_values(
        |a: AliasView|
            if a.entity_id == loser {
                AliasView { entity_id: winner, source: AliasSource::Merge, ..a }
            } else {
                a
            },
    )
}

fn remap(aliases: &mut Vec<AliasRow>, loser: &str, winner: &str)
    ensures
        final(aliases)@.map_values(|a: AliasRow| a@) == remapped(
            old(aliases)@.map_values(|a: AliasRow| a@),
            loser@,
            winner@,
        ),
{
    let ghost before = aliases@.map_values(|a: AliasRow| a@);
    let ghost after = remapped(before, loser@, winner@);
    let n: usize = aliases.len();
    let mut i: usize = 0;
    while i < n
        invariant
            i <= n == aliases@.len(),
            before.len() == n,
            after == remapped(before, loser@, winner@),
            aliases@.map_values(|a: AliasRow| a@) =~= after.take(i as int) + before.skip(i as int),
        decreases n - i,
    {
        let ghost now = aliases@.map_values(|a: AliasRow| a@);
        assert(now[i as int] == aliases@[i as int]@);
        assert(now[i as int] == before[i as int]);
        if same(aliases[i].entity_id.as_str(), loser) {
            aliases[i].entity_id = winner.to_owned();
            aliases[i].source = AliasSource::Merge;
        }
        assert(aliases@[i as int]@ =~= after[i as int]);
        assert(aliases@.map_values(|a: AliasRow| a@) =~= now.update(i as int, after[i as int]));
        i = i + 1;
    }
    assert(after.take(n as int) + before.skip(n as int) =~= after);
}

/// Whether `id` is registered with a type.
pub open spec fn typed(entities: Seq<EntityView>, id: Seq<char>, t: Seq<char>) -> bool {
    exists|i: int|
        0 <= i < entities.len() && (#[trigger] entities[i]).entity_id == id
            && entities[i].entity_type == t
}

/// Whether two entities are registered with one type.
pub open spec fn same_type(entities: Seq<EntityView>, a: Seq<char>, b: Seq<char>) -> bool {
    exists|t: Seq<char>| #[trigger] typed(entities, a, t) && typed(entities, b, t)
}

/// Records the control-plane half of an offline entity merge.
///
/// The aliases of the loser are remapped, the audit row is added, and the pending review of the
/// pair is closed. A recorded merge is repeated without effect, but for the review.
pub fn record_entity_merge(
    registry: &mut EntityRegistry,
    loser_id: &str,
    winner_id: &str,
    reason: &str,
    now_stamp: &str,
) -> (res: Result<bool, DbError>)
    requires
        old(registry).wf(),
    ensures
        final(registry).wf(),
        acyclic(old(registry).merge_list()) ==> acyclic(final(registry).merge_list()),
        final(registry).entity_list() == old(registry).entity_list(),
        final(registry).candidate_list() == old(registry).candidate_list(),
        res is Ok ==> final(registry).review_list() == settled(
            old(registry).review_list(),
            of_pair(loser_id@, winner_id@),
            ReviewStatus::Merged,
        ),
        res == Ok::<bool, DbError>(true) ==> {
            &&& final(registry).alias_list() == remapped(
                old(registry).alias_list(),
                loser_id@,
                winner_id@,
            )
            &&& final(registry).merge_list() == old(registry).merge_list().push(
                MergeView {
                    loser_id: loser_id@,
                    winner_id: winner_id@,
                    reason: reason@,
                    merged_at: now_stamp@,
                },
            )
        },
        res != Ok::<bool, DbError>(true) ==> {
            &&& final(registry).alias_list() == old(registry).alias_list()
            &&& final(registry).merge_list() == old(registry).merge_list()
        },
        res is Err ==> final(registry).review_list() == old(registry).review_list(),
        ({
            let entities = old(registry).entity_list();
            let merges = old(registry).merge_list();
            if loser_id@ == winner_id@ {
                res matches Err(DbError::MergeSelf { entity_id }) && entity_id@ == loser_id@
            } else if !has_entity(entities, loser_id@) {
                res matches Err(DbError::EntityNotFound { entity_id }) && entity_id@ == loser_id@
            } else if !has_entity(entities, winner_id@) {
                res matches Err(DbError::EntityNotFound { entity_id }) && entity_id@ == winner_id@
            } else if !same_type(entities, loser_id@, winner_id@) {
                res matches Err(
                    DbError::EntityTypeMismatch { loser_id: l, loser_type, winner_id: w, winner_type },
                ) && l@ == loser_id@ && w@ == winner_id@ && typed(entities, loser_id@, loser_type@)
                    && typed(entities, winner_id@, winner_type@)
            } else {
                match res {
                    Err(DbError::MergeCycle { entity_id }) => (entity_id@ == loser_id@
                        && resolves_to(merges, winner_id@, loser_id@)) || revisits(
                        merges,
                        winner_id@,
                        entity_id@,
                    ),
                    Err(
                        DbError::MergeConflict { loser_id: l, existing_winner, requested_winner },
                    ) => {
                        &&& l@ == loser_id@
                        &&& requested_winner@ == winner_id@
                        &&& winner_of(merges, loser_id@) == Some(existing_winner@)
                        &&& existing_winner@ != winner_id@
                        &&& resolves_elsewhere(merges, winner_id@, loser_id@)
                    },
                    Err(_) => false,
                    Ok(fresh) => {
                        &&& resolves_elsewhere(merges, winner_id@, loser_id@)
                        &&& winner_of(merges, loser_id@) == if fresh {
                            None
                        } else {
                            Some(winner_id@)
                        }
                    },
                }
            }
        }),
{
    if same(loser_id, winner_id) {
        return Err(DbError::MergeSelf { entity_id: loser_id.to_owned() });
    }
    let ghost start = *registry;
    let ghost entities = registry.entity_list();
    let ghost merges = registry.merge_list();
    let loser_at: usize = match registry.entity_index(loser_id) {
        Some(i) => i,
        None => {
            return Err(DbError::EntityNotFound { entity_id: loser_id.to_owned() });
        },
    };
    let winner_at: usize = match registry.entity_index(winner_id) {
        Some(i) => i,
        None => {
            return Err(DbError::EntityNotFound { entity_id: winner_id.to_owned() });
        },
    };
    assert(entities[loser_at as int] == registry.entities@[loser_at as int]@);
    assert(entities[winner_at as int] == registry.entities@[winner_at as int]@);
    let loser_type = registry.entities[loser_at].entity_type.clone();
    let winner_type = registry.entities[winner_at].entity_type.clone();
    assert(typed(entities, loser_id@, loser_type@));
    assert(typed(entities, winner_id@, winner_type@));
    if !same(loser_type.as_str(), winner_type.as_str()) {
        proof {
            assert forall|t: Seq<char>| #[trigger]
                typed(entities, loser_id@, t) implies t == loser_type@ by {
                lemma_type_unique(entities, loser_id@, t, loser_type@);
            }
            assert forall|t: Seq<char>| #[trigger]
                typed(entities, winner_id@, t) implies t == winner_type@ by {
                lemma_type_unique(entities, winner_id@, t, winner_type@);
            }
        }
        return Err(
            DbError::EntityTypeMismatch {
                loser_id: loser_id.to_owned(),
                loser_type,
                winner_id: winner_id.to_owned(),
                winner_type,
            },
        );
    }
    match resolve_entity(registry, winner_id) {
        Err(e) => {
            return Err(e);
        },
        Ok(root) => {
            if same(root.as_str(), loser_id) {
                return Err(DbError::MergeCycle { entity_id: loser_id.to_owned() });
            }
            proof {
                if resolves_to(merges, winner_id@, loser_id@) {
                    lemma_root_unique(merges, winner_id@, root@, loser_id@);
                }
            }
        },
    }
    if let Some(existing_winner) = winner(registry, loser_id) {
        if !same(existing_winner.as_str(), winner_id) {
            return Err(
                DbError::MergeConflict {
                    loser_id: loser_id.to_owned(),
                    existing_winner,
                    requested_winner: winner_id.to_owned(),
                },
            );
        }
        settle_pair(&mut registry.reviews, loser_id, winner_id);
        proof {
            assert(registry.review_list() == review_views(registry.reviews@));
            assert(start.review_list() == review_views(start.reviews@));
            lemma_settled_ascend(
                start.review_list(),
                of_pair(loser_id@, winner_id@),
                ReviewStatus::Merged,
            );
        }
        return Ok(false);
    }
    remap(&mut registry.aliases, loser_id, winner_id);
    let row = MergeRow {
        loser_id: loser_id.to_owned(),
        winner_id: winner_id.to_owned(),
        reason: reason.to_owned(),
        merged_at: now_stamp.to_owned(),
    };
    let ghost added = row@;
    registry.merges.push(row);
    settle_pair(&mut registry.reviews, loser_id, winner_id);
    proof {
        assert(registry.review_list() == review_views(registry.reviews@));
        assert(start.review_list() == review_views(start.reviews@));
        lemma_settled_ascend(
            start.review_list(),
            of_pair(loser_id@, winner_id@),
            ReviewStatus::Merged,
        );
        let after = registry.merge_list();
        assert(after =~= merges.push(added));
        lemma_winner_of(merges, loser_id@);
        assert(losers_distinct(after)) by {
            assert forall|i: int, j: int| 0 <= i < j < after.len() implies (
            #[trigger] after[i]).loser_id != (#[trigger] after[j]).loser_id by {
                assert(after[i] == merges[i]);
                if j < merges.len() {
                    assert(after[j] == merges[j]);
                }
            }
        }
        assert forall|i: int| 0 <= i < after.len() implies has_entity(
            entities,
            (#[trigger] after[i]).loser_id,
        ) && has_entity(entities, after[i].winner_id) by {
            if i < merges.len() {
                assert(after[i] == merges[i]);
            }
        }
        let (a, b) = (start.alias_list(), registry.alias_list());
        assert(b == remapped(a, loser_id@, winner_id@));
        assert forall|i: int, j: int| 0 <= i < j < b.len() implies !((#[trigger] b[i]).alias == (
        #[trigger] b[j]).alias && b[i].entity_type == b[j].entity_type) by {
            assert(b[i].alias == a[i].alias && b[j].alias == a[j].alias);
        }
        assert forall|i: int| 0 <= i < b.len() implies has_entity(
            entities,
            (#[trigger] b[i]).entity_id,
        ) by {
            assert(has_entity(entities, a[i].entity_id));
        }
        if acyclic(merges) {
            lemma_merge_keeps_acyclic(merges, added);
        }
    }
    Ok(true)
}

proof fn lemma_type_unique(entities: Seq<EntityView>, id: Seq<char>, s: Seq<char>, t: Seq<char>)
    requires
        super::registry::entities_distinct(entities),
        typed(entities, id, s),
        typed(entities, id, t),
    ensures
        s == t,
{
    let i = choose|i: int|
        0 <= i < entities.len() && (#[trigger] entities[i]).entity_id == id
            && entities[i].entity_type == s;
    let j = choose|j: int|
        0 <= j < entities.len() && (#[trigger] entities[j]).entity_id == id
            && entities[j].entity_type == t;
    if i < j {
        assert(entities[i].entity_id != entities[j].entity_id);
    } else if j < i {
        assert(entities[j].entity_id != entities[i].entity_id);
    }
}

proof fn lemma_paths_agree(
    merges: Seq<MergeView>,
    id: Seq<char>,
    a: Seq<Seq<char>>,
    b: Seq<Seq<char>>,
    n: int,
)
    requires
        merge_path(merges, id, a),
        merge_path(merges, id, b),
        0 <= n < a.len(),
        n < b.len(),
    ensures
        a[n] == b[n],
    decreases n,
{
    if n > 0 {
        lemma_paths_agree(merges, id, a, b, n - 1);
        assert(winner_of(merges, a[n - 1]) == Some(a[n - 1 + 1]));
        assert(winner_of(merges, b[n - 1]) == Some(b[n - 1 + 1]));
    }
}

/// An entity resolves to one root.
pub proof fn lemma_root_unique(
    merges: Seq<MergeView>,
    id: Seq<char>,
    r: Seq<char>,
    s: Seq<char>,
)
    requires
        resolves_to(merges, id, r),
        resolves_to(merges, id, s),
    ensures
        r == s,
{
    let a = choose|path: Seq<Seq<char>>|
        {
            &&& #[trigger] merge_path(merges, id, path)
            &&& path.last() == r
            &&& winner_of(merges, r) is None
        };
    let b = choose|path: Seq<Seq<char>>|
        {
            &&& #[trigger] merge_path(merges, id, path)
            &&& path.last() == s
            &&& winner_of(merges, s) is None
        };
    if a.len() < b.len() {
        lemma_paths_agree(merges, id, a, b, a.len() - 1);
        assert(winner_of(merges, b[a.len() - 1]) == Some(b[a.len() - 1 + 1]));
    } else if b.len() < a.len() {
        lemma_paths_agree(merges, id, a, b, b.len() - 1);
        assert(winner_of(merges, a[b.len() - 1]) == Some(a[b.len() - 1 + 1]));
    } else {
        lemma_paths_agree(merges, id, a, b, a.len() - 1);
    }
}

proof fn lemma_old_path(
    merges: Seq<MergeView>,
    row: MergeView,
    id: Seq<char>,
    path: Seq<Seq<char>>,
)
    requires
        merge_path(merges, id, path),
        winner_of(merges, row.loser_id) is None,
    ensures
        merge_path(merges.push(row), id, path),
{
    assert forall|i: int| 0 <= i < path.len() - 1 implies winner_of(
        merges.push(row),
        #[trigger] path[i],
    ) == Some(path[i + 1]) by {
        lemma_winner_push(merges, row, path[i]);
    }
}

proof fn lemma_merge_keeps_acyclic(merges: Seq<MergeView>, row: MergeView)
    requires
        acyclic(merges),
        winner_of(merges, row.loser_id) is None,
        !resolves_to(merges, row.winner_id, row.loser_id),
    ensures
        acyclic(merges.push(row)),
{
    let after = merges.push(row);
    let (l, w) = (row.loser_id, row.winner_id);
    assert(resolvable(merges, w));
    let wr = choose|root: Seq<char>| #[trigger] resolves_to(merges, w, root);
    assert(resolves_to(merges, w, wr));
    let tail = choose|path: Seq<Seq<char>>|
        {
            &&& #[trigger] merge_path(merges, w, path)
            &&& path.last() == wr
            &&& winner_of(merges, wr) is None
        };
    lemma_old_path(merges, row, w, tail);
    lemma_winner_push(merges, row, wr);
    lemma_winner_push(merges, row, l);
    assert(wr != l);
    assert forall|id: Seq<char>| #[trigger] resolvable(after, id) by {
        assert(resolvable(merges, id));
        let r = choose|root: Seq<char>| #[trigger] resolves_to(merges, id, root);
        assert(resolves_to(merges, id, r));
        let path = choose|path: Seq<Seq<char>>|
            {
                &&& #[trigger] merge_path(merges, id, path)
                &&& path.last() == r
                &&& winner_of(merges, r) is None
            };
        lemma_old_path(merges, row, id, path);
        lemma_winner_push(merges, row, r);
        if r != l {
            assert(resolves_to(after, id, r));
        } else {
            let whole = path + tail;
            assert forall|i: int| 0 <= i < whole.len() - 1 implies winner_of(
                after,
                #[trigger] whole[i],
            ) == Some(whole[i + 1]) by {
                if i < path.len() - 1 {
                    assert(whole[i] == path[i] && whole[i + 1] == path[i + 1]);
                } else if i == path.len() - 1 {
                    assert(whole[i] == l && whole[i + 1] == tail[0]);
                } else {
                    let k = i - path.len();
                    assert(whole[i] == tail[k] && whole[i + 1] == tail[k + 1]);
                }
            }
            assert(whole.last() == tail.last());
            assert(merge_path(after, id, whole));
            assert(resolves_to(after, id, wr));
        }
    }
}

// ---------------------------------------------------------------------------------------------
// Laws.
// ---------------------------------------------------------------------------------------------
/// An empty audit resolves every entity to itself.
pub proof fn law_unmerged_entities_are_roots(id: Seq<char>)
    ensures
        resolves_to(Seq::<MergeView>::empty(), id, id),
        acyclic(Seq::<MergeView>::empty()),
{
    let none = Seq::<MergeView>::empty();
    assert forall|x: Seq<char>| #[trigger] resolvable(none, x) by {
        assert(merge_path(none, x, seq![x]));
        assert(resolves_to(none, x, x));
    }
    assert(merge_path(none, id, seq![id]));
}

/// After a merge, the loser resolves to what the winner resolves to, and the merge is on record, so
/// that it is not recorded again.
pub proof fn law_loser_resolves_to_winner(
    merges: Seq<MergeView>,
    row: MergeView,
    root: Seq<char>,
)
    requires
        winner_of(merges, row.loser_id) is None,
        resolves_to(merges, row.winner_id, root),
        root != row.loser_id,
    ensures
        winner_of(merges.push(row), row.loser_id) == Some(row.winner_id),
        resolves_to(merges.push(row), row.loser_id, root),
        resolves_to(merges.push(row), row.winner_id, root),
{
    let after = merges.push(row);
    let path = choose|path: Seq<Seq<char>>|
        {
            &&& #[trigger] merge_path(merges, row.winner_id, path)
            &&& path.last() == root
            &&& winner_of(merges, root) is None
        };
    lemma_old_path(merges, row, row.winner_id, path);
    lemma_winner_push(merges, row, root);
    lemma_winner_push(merges, row, row.loser_id);
    let whole = seq![row.loser_id] + path;
    assert forall|i: int| 0 <= i < whole.len() - 1 implies winner_of(after, #[trigger] whole[i])
        == Some(whole[i + 1]) by {
        if i > 0 {
            assert(whole[i] == path[i - 1] && whole[i + 1] == path[i - 1 + 1]);
        }
    }
    assert(whole.last() == path.last());
    assert(merge_path(after, row.loser_id, whole));
}

/// After a merge no alias names the loser, and every alias keeps its form and type.
pub proof fn law_merge_leaves_no_alias_of_the_loser(
    aliases: Seq<AliasView>,
    loser: Seq<char>,
    winner: Seq<char>,
)
    requires
        loser != winner,
        aliases_distinct(aliases),
    ensures
        aliases_distinct(remapped(aliases, loser, winner)),
        forall|i: int|
            0 <= i < aliases.len() ==> {
                &&& (#[trigger] remapped(aliases, loser, winner)[i]).entity_id != loser
                &&& remapped(aliases, loser, winner)[i].alias == aliases[i].alias
                &&& remapped(aliases, loser, winner)[i].entity_type == aliases[i].entity_type
            },
{
    let after = remapped(aliases, loser, winner);
    assert forall|i: int, j: int| 0 <= i < j < after.len() implies !((#[trigger] after[i]).alias
        == (#[trigger] after[j]).alias && after[i].entity_type == after[j].entity_type) by {
        assert(after[i].alias == aliases[i].alias && after[j].alias == aliases[j].alias);
        assert(!(aliases[i].alias == aliases[j].alias && aliases[i].entity_type
            == aliases[j].entity_type));
    }
}

/// A merge hands the loser's aliases to the winner: each of them names the winner, as one that came by a
/// merge, and every other alias is left as it is.
pub proof fn law_merge_hands_aliases_over(
    aliases: Seq<AliasView>,
    loser: Seq<char>,
    winner: Seq<char>,
    i: int,
)
    requires
        0 <= i < aliases.len(),
    ensures
        remapped(aliases, loser, winner).len() == aliases.len(),
        aliases[i].entity_id == loser ==> remapped(aliases, loser, winner)[i] == (AliasView {
            alias: aliases[i].alias,
            entity_type: aliases[i].entity_type,
            entity_id: winner,
            source: AliasSource::Merge,
        }),
        aliases[i].entity_id != loser ==> remapped(aliases, loser, winner)[i] == aliases[i],
{
}

/// The record of merges tells who was folded into whom: an entity on record as a loser has the winner of
/// its row, and one that is not on record has none and is its own root.
pub proof fn law_merge_record_tells_the_winner(merges: Seq<MergeView>, i: int, id: Seq<char>)
    requires
        losers_distinct(merges),
    ensures
        0 <= i < merges.len() ==> winner_of(merges, merges[i].loser_id) == Some(merges[i].winner_id),
        (forall|k: int| 0 <= k < merges.len() ==> (#[trigger] merges[k]).loser_id != id) ==> winner_of(
            merges,
            id,
        ) is None && resolves_to(merges, id, id),
        winner_of(merges, id) is None ==> forall|root: Seq<char>| #[trigger]
            resolves_to(merges, id, root) ==> root == id,
    decreases merges.len(),
{
    if merges.len() > 0 {
        let rest = merges.drop_first();
        assert forall|a: int, b: int| 0 <= a < b < rest.len() implies (#[trigger] rest[a]).loser_id != (
        #[trigger] rest[b]).loser_id by {
            assert(rest[a] == merges[a + 1] && rest[b] == merges[b + 1]);
        }
        law_merge_record_tells_the_winner(rest, i - 1, id);
        if 0 < i < merges.len() {
            assert(rest[i - 1] == merges[i]);
            assert(merges[0].loser_id != merges[i].loser_id);
        }
        if forall|k: int| 0 <= k < merges.len() ==> (#[trigger] merges[k]).loser_id != id {
            assert(merges[0].loser_id != id);
            assert forall|k: int| 0 <= k < rest.len() implies (#[trigger] rest[k]).loser_id != id by {
                assert(rest[k] == merges[k + 1]);
            }
        }
    }
    if winner_of(merges, id) is None {
        assert(merge_path(merges, id, seq![id]));
        assert(resolves_to(merges, id, id));
        assert forall|root: Seq<char>| #[trigger] resolves_to(merges, id, root) implies root == id by {
            lemma_root_unique(merges, id, id, root);
        }
    }
}

/// Resolution follows the record: what is resolved to has not been folded away, and an entity that was
/// folded resolves to what its winner resolves to.
pub proof fn law_resolution_follows_the_record(
    merges: Seq<MergeView>,
    id: Seq<char>,
    winner: Seq<char>,
    root: Seq<char>,
)
    requires
        winner_of(merges, id) == Some(winner),
    ensures
        resolves_to(merges, id, root) ==> winner_of(merges, root) is None && root != id,
        resolves_to(merges, winner, root) ==> resolves_to(merges, id, root),
        resolves_to(merges, id, root) ==> resolves_to(merges, winner, root),
{
    if resolves_to(merges, winner, root) {
        let path = choose|path: Seq<Seq<char>>|
            {
                &&& #[trigger] merge_path(merges, winner, path)
                &&& path.last() == root
                &&& winner_of(merges, root) is None
            };
        let whole = seq![id] + path;
        assert forall|i: int| 0 <= i < whole.len() - 1 implies winner_of(merges, #[trigger] whole[i])
            == Some(whole[i + 1]) by {
            if i > 0 {
                assert(whole[i] == path[i - 1] && whole[i + 1] == path[i - 1 + 1]);
            }
        }
        assert(whole.last() == path.last());
        assert(merge_path(merges, id, whole));
    }
    if resolves_to(merges, id, root) {
        let path = choose|path: Seq<Seq<char>>|
            {
                &&& #[trigger] merge_path(merges, id, path)
                &&& path.last() == root
                &&& winner_of(merges, root) is None
            };
        assert(path.len() > 1) by {
            if path.len() == 1 {
                assert(path.last() == path[0]);
            }
        }
        let rest = path.drop_first();
        assert(winner_of(merges, path[0]) == Some(path[0int + 1]));
        assert(rest[0] == winner);
        assert forall|i: int| 0 <= i < rest.len() - 1 implies winner_of(merges, #[trigger] rest[i])
            == Some(rest[i + 1]) by {
            assert(rest[i] == path[i + 1]);
            assert(winner_of(merges, path[i + 1]) == Some(path[i + 1 + 1]));
        }
        assert(rest.last() == path.last());
        assert(merge_path(merges, winner, rest));
    }
}

/// The record is replayed in its order: every merge is listed, and of two listed ones the first was made
/// no later.
pub proof fn law_merges_are_listed_oldest_first(
    merges: Seq<MergeView>,
    res: Seq<EntityMerge>,
    i: int,
    a: int,
    b: int,
)
    requires
        lists_merges(merges, res),
    ensures
        0 <= i < merges.len() ==> exists|k: int|
            {
                &&& 0 <= k < res.len()
                &&& (#[trigger] res[k]).loser_id@ == merges[i].loser_id
                &&& res[k].winner_id@ == merges[i].winner_id
            },
        0 <= a < b < res.len() ==> exists|x: int, y: int|
            {
                &&& 0 <= x < merges.len() && 0 <= y < merges.len() && x != y
                &&& (#[trigger] merges[x]).loser_id == res[a].loser_id@
                &&& (#[trigger] merges[y]).loser_id == res[b].loser_id@
                &&& !crate::text::text_less(merges[y].merged_at, merges[x].merged_at)
            },
{
    let (keys, pick) = (merge_keys(merges), all_merges(merges));
    let order = choose|order: Seq<int>|
        {
            &&& #[trigger] ordered_pick::<(String, String)>(keys, pick, order)
            &&& res.len() == order.len()
            &&& forall|i: int|
                0 <= i < res.len() ==> (#[trigger] res[i]).loser_id@ == merges[order[i]].loser_id
                    && res[i].winner_id@ == merges[order[i]].winner_id
        };
    if 0 <= i < merges.len() {
        assert(pick[i]);
        assert(order.contains(i));
        let k = choose|k: int| 0 <= k < order.len() && order[k] == i;
        assert(res[k].loser_id@ == merges[i].loser_id);
    }
    if 0 <= a < b < res.len() {
        crate::order::law_picked_rows_never_go_back(keys, pick, order, a, b);
        let (x, y) = (order[a], order[b]);
        assert(merges[x].loser_id == res[a].loser_id@ && merges[y].loser_id == res[b].loser_id@);
        assert(keys[x].0 == merges[x].merged_at && keys[y].0 == merges[y].merged_at);
    }
}

/// A recorded merge leads the loser to the winner: it is listed, every alias of the loser is the winner's and
/// the others keep theirs, and the pending reviews of the two are closed. Nothing is merged into itself,
/// with an unknown entity or with one of another type; a refusal changes nothing.
pub proof fn law_recorded_merges_are_complete(
    registry: &mut EntityRegistry,
    loser: &str,
    winner: &str,
    reason: &str,
    now: &str,
    res: Result<bool, DbError>,
    i: int,
)
    requires
        call_ensures(record_entity_merge, (registry, loser, winner, reason, now), res),
    ensures
        loser@ == winner@ ==> res is Err,
        !has_entity(old(registry).entity_list(), loser@) || !has_entity(
            old(registry).entity_list(),
            winner@,
        ) ==> res is Err,
        res == Ok::<bool, DbError>(true) ==> {
            let (was, now_aliases) = (old(registry).alias_list(), final(registry).alias_list());
            &&& final(registry).merge_list().drop_last() == old(registry).merge_list()
            &&& final(registry).merge_list().last().loser_id == loser@
            &&& final(registry).merge_list().last().winner_id == winner@
            &&& final(registry).merge_list().last().reason == reason@
            &&& now_aliases.len() == was.len()
            &&& 0 <= i < was.len() && was[i].entity_id == loser@ ==> now_aliases[i].entity_id == winner@
                && now_aliases[i].alias == was[i].alias && now_aliases[i].entity_type
                == was[i].entity_type
            &&& 0 <= i < was.len() && was[i].entity_id != loser@ ==> now_aliases[i] == was[i]
        },
        res is Ok && 0 <= i < old(registry).review_list().len() ==> {
            let (r, after) = (old(registry).review_list()[i], final(registry).review_list()[i]);
            let both = (r.entity_a == loser@ && r.entity_b == winner@) || (r.entity_a == winner@
                && r.entity_b == loser@);
            &&& r.status == ReviewStatus::Pending && both ==> after.status == ReviewStatus::Merged
            &&& !(r.status == ReviewStatus::Pending && both) ==> after == r
            &&& after.id == r.id
        },
        res is Err ==> final(registry).alias_list() == old(registry).alias_list() && final(registry).merge_list() == old(registry).merge_list() && final(registry).review_list() == old(registry).review_list(),
{
    if res == Ok::<bool, DbError>(true) {
        assert(final(registry).merge_list().drop_last() =~= old(registry).merge_list());
    }
}

} // verus!
