//! Entity garbage-collection candidate lifecycle.

use vstd::prelude::*;

use super::registry::{
    candidates_distinct, has_entity, AliasRow, AliasView, CandidateView, EntityGcCandidate,
    EntityRegistry, EntityRow, EntityView, MergeView,
};
use super::review::{
    lemma_settled_ascend, of_entity, reject_entity, review_views, settled, ReviewStatus,
};
use crate::order::{key_views, ordered_pick, sort_picked};
use crate::rows::{lemma_filter_map, lemma_filter_places, remove_owned, Owned};
use crate::text::{less, same, text_less, texts};

verus! {

/// Whether the merge audit speaks of an entity.
pub open spec fn referenced(merges: Seq<MergeView>, id: Seq<char>) -> bool {
    exists|i: int|
        0 <= i < merges.len() && ((#[trigger] merges[i]).loser_id == id || merges[i].winner_id
            == id)
}

fn is_referenced(registry: &EntityRegistry, id: &str) -> (res: bool)
    ensures
        res == referenced(registry.merge_list(), id@),
{
    let ghost all = registry.merge_list();
    let mut i: usize = 0;
    while i < registry.merges.len()
        invariant
            i <= registry.merges@.len(),
            all == registry.merge_list(),
            forall|j: int|
                0 <= j < i ==> (#[trigger] all[j]).loser_id != id@ && all[j].winner_id != id@,
        decreases registry.merges@.len() - i,
    {
        assert(all[i as int] == registry.merges@[i as int]@);
        if same(registry.merges[i].loser_id.as_str(), id) || same(
            registry.merges[i].winner_id.as_str(),
            id,
        ) {
            return true;
        }
        i = i + 1;
    }
    false
}

/// The ids of entities as sort keys.
pub open spec fn id_keys(entities: Seq<EntityView>) -> Seq<(Seq<char>, Seq<char>)> {
    entities.map_values(|e: EntityView| (e.entity_id, Seq::<char>::empty()))
}

/// Which entities the merge audit does not speak of.
pub open spec fn unreferenced(entities: Seq<EntityView>, merges: Seq<MergeView>) -> Seq<bool> {
    entities.map_values(|e: EntityView| !referenced(merges, e.entity_id))
}

/// Whether `ids` lists the entities that the merge audit does not speak of, by id.
pub open spec fn lists_unreferenced(
    entities: Seq<EntityView>,
    merges: Seq<MergeView>,
    ids: Seq<Seq<char>>,
) -> bool {
    exists|order: Seq<int>|
        {
            &&& #[trigger] ordered_pick::<(String, String)>(
                id_keys(entities),
                unreferenced(entities, merges),
                order,
            )
            &&& ids == order.map_values(|i: int| entities[i].entity_id)
        }
}

/// Lists entities that are safe to consider for garbage collection, by id. Entities that the merge
/// audit speaks of remain, so the audit stays resolvable.
pub fn entity_ids_for_gc(registry: &EntityRegistry) -> (res: Vec<String>)
    ensures
        lists_unreferenced(registry.entity_list(), registry.merge_list(), texts(res@)),
{
    let ghost all = registry.entity_list();
    let ghost wanted_keys = id_keys(all);
    let ghost wanted_pick = unreferenced(all, registry.merge_list());
    let mut keys: Vec<(String, String)> = Vec::new();
    let mut pick: Vec<bool> = Vec::new();
    let mut i: usize = 0;
    while i < registry.entities.len()
        invariant
            i <= registry.entities@.len(),
            all == registry.entity_list(),
            wanted_keys == id_keys(all),
            wanted_pick == unreferenced(all, registry.merge_list()),
            key_views(keys@) == wanted_keys.take(i as int),
            pick@ == wanted_pick.take(i as int),
        decreases registry.entities@.len() - i,
    {
        assert(all[i as int] == registry.entities@[i as int]@);
        let ghost before = key_views(keys@);
        let key = (registry.entities[i].entity_id.clone(), String::new());
        assert((key.0@, key.1@) == wanted_keys[i as int]);
        keys.push(key);
        pick.push(!is_referenced(registry, registry.entities[i].entity_id.as_str()));
        assert(key_views(keys@) =~= before.push(wanted_keys[i as int]));
        i = i + 1;
        assert(key_views(keys@) =~= wanted_keys.take(i as int));
        assert(pick@ =~= wanted_pick.take(i as int));
    }
    assert(wanted_keys.take(i as int) =~= wanted_keys);
    assert(wanted_pick.take(i as int) =~= wanted_pick);
    assert(keys@.len() == key_views(keys@).len());
    let order = sort_picked(&keys, &pick);
    let ghost indices = order@.map_values(|i: usize| i as int);
    let mut res: Vec<String> = Vec::new();
    let mut k: usize = 0;
    while k < order.len()
        invariant
            k <= order@.len(),
            all == registry.entity_list(),
            indices == order@.map_values(|i: usize| i as int),
            forall|j: int|
                0 <= j < order@.len() ==> #[trigger] order@[j] < registry.entities@.len(),
            texts(res@) == indices.take(k as int).map_values(|i: int| all[i].entity_id),
        decreases order@.len() - k,
    {
        let ghost before = texts(res@);
        let id = registry.entities[order[k]].entity_id.clone();
        assert(all[order@[k as int] as int] == registry.entities@[order@[k as int] as int]@);
        res.push(id);
        assert(texts(res@) =~= before.push(id@));
        k = k + 1;
        assert(texts(res@) =~= indices.take(k as int).map_values(|i: int| all[i].entity_id));
    }
    assert(indices.take(k as int) =~= indices);
    res
}

/// Whether an entity is a candidate.
pub open spec fn is_candidate(candidates: Seq<CandidateView>, id: Seq<char>) -> bool {
    exists|i: int| 0 <= i < candidates.len() && (#[trigger] candidates[i]).entity_id == id
}

fn candidate_known(registry: &EntityRegistry, id: &str) -> (res: bool)
    ensures
        res == is_candidate(registry.candidate_list(), id@),
{
    let ghost all = registry.candidate_list();
    let mut i: usize = 0;
    while i < registry.candidates.len()
        invariant
            i <= registry.candidates@.len(),
            all == registry.candidate_list(),
            forall|j: int| 0 <= j < i ==> (#[trigger] all[j]).entity_id != id@,
        decreases registry.candidates@.len() - i,
    {
        assert(all[i as int] == registry.candidates@[i as int]@);
        if same(registry.candidates[i].entity_id.as_str(), id) {
            return true;
        }
        i = i + 1;
    }
    false
}

/// Records the first zero-mention observation for an entity. The first timestamp is kept across
/// repeated sweeps. Answers whether a candidate was newly recorded; an unregistered entity is not.
pub fn record_entity_gc_candidate(
    registry: &mut EntityRegistry,
    entity_id: &str,
    zero_since: &str,
) -> (res: bool)
    requires
        old(registry).wf(),
    ensures
        final(registry).wf(),
        final(registry).entity_list() == old(registry).entity_list(),
        final(registry).alias_list() == old(registry).alias_list(),
        final(registry).merge_list() == old(registry).merge_list(),
        final(registry).review_list() == old(registry).review_list(),
        res == (has_entity(old(registry).entity_list(), entity_id@) && !is_candidate(
            old(registry).candidate_list(),
            entity_id@,
        )),
        final(registry).candidate_list() == if res {
            old(registry).candidate_list().push(
                CandidateView { entity_id: entity_id@, zero_since: zero_since@ },
            )
        } else {
            old(registry).candidate_list()
        },
{
    if registry.entity_index(entity_id).is_none() || candidate_known(registry, entity_id) {
        return false;
    }
    let ghost start = *registry;
    let row = EntityGcCandidate {
        entity_id: entity_id.to_owned(),
        zero_since: zero_since.to_owned(),
    };
    let ghost added = row@;
    registry.candidates.push(row);
    proof {
        let (a, b) = (start.candidate_list(), registry.candidate_list());
        assert(b =~= a.push(added));
        assert(registry.entity_list() =~= start.entity_list());
        assert(registry.alias_list() =~= start.alias_list());
        assert(registry.merge_list() =~= start.merge_list());
        assert(registry.review_list() =~= start.review_list());
        assert forall|i: int, j: int| 0 <= i < j < b.len() implies (#[trigger] b[i]).entity_id != (
        #[trigger] b[j]).entity_id by {
            assert(b[i] == a[i]);
            if j < a.len() {
                assert(b[j] == a[j]);
            }
        }
        assert forall|i: int| 0 <= i < b.len() implies has_entity(
            start.entity_list(),
            (#[trigger] b[i]).entity_id,
        ) by {
            if i < a.len() {
                assert(b[i] == a[i]);
            }
        }
    }
    true
}

/// The candidates without those of an entity.
pub open spec fn candidates_without(candidates: Seq<CandidateView>, id: Seq<char>) -> Seq<
    CandidateView,
> {
    candidates.filter(|c: CandidateView| c.entity_id != id)
}

fn drop_candidate(candidates: &mut Vec<EntityGcCandidate>, id: &str)
    ensures
        final(candidates)@.map_values(|c: EntityGcCandidate| c@) == candidates_without(
            old(candidates)@.map_values(|c: EntityGcCandidate| c@),
            id@,
        ),
{
    let ghost before = candidates@;
    remove_owned(candidates, id);
    proof {
        let view = |c: EntityGcCandidate| c@;
        let keep = |c: CandidateView| c.entity_id != id@;
        lemma_filter_map(before, view, keep);
        assert((|c: EntityGcCandidate| keep(view(c))) =~= (|c: EntityGcCandidate| c.owner()
            != id@));
    }
}

proof fn lemma_candidates_without(candidates: Seq<CandidateView>, id: Seq<char>)
    requires
        candidates_distinct(candidates),
    ensures
        candidates_distinct(candidates_without(candidates, id)),
        !is_candidate(candidates_without(candidates, id), id),
        forall|i: int|
            0 <= i < candidates_without(candidates, id).len() ==> candidates.contains(
                #[trigger] candidates_without(candidates, id)[i],
            ),
{
    let keep = |c: CandidateView| c.entity_id != id;
    let places = lemma_filter_places(candidates, keep);
    let kept = candidates_without(candidates, id);
    assert forall|i: int, j: int| 0 <= i < j < kept.len() implies (#[trigger] kept[i]).entity_id
        != (#[trigger] kept[j]).entity_id by {
        assert(places[i] < places[j]);
        assert(candidates[places[i]] == kept[i] && candidates[places[j]] == kept[j]);
    }
    assert forall|i: int| 0 <= i < kept.len() implies candidates.contains(#[trigger] kept[i])
        && kept[i].entity_id != id by {
        assert(candidates[places[i]] == kept[i]);
    }
}

/// Cancels a zero-mention candidate after a mention reappears. Answers whether there was one.
pub fn cancel_entity_gc_candidate(registry: &mut EntityRegistry, entity_id: &str) -> (res: bool)
    requires
        old(registry).wf(),
    ensures
        final(registry).wf(),
        final(registry).entity_list() == old(registry).entity_list(),
        final(registry).alias_list() == old(registry).alias_list(),
        final(registry).merge_list() == old(registry).merge_list(),
        final(registry).review_list() == old(registry).review_list(),
        res == is_candidate(old(registry).candidate_list(), entity_id@),
        final(registry).candidate_list() == candidates_without(
            old(registry).candidate_list(),
            entity_id@,
        ),
{
    let ghost start = *registry;
    let res = candidate_known(registry, entity_id);
    drop_candidate(&mut registry.candidates, entity_id);
    proof {
        let (a, b) = (start.candidate_list(), registry.candidate_list());
        lemma_candidates_without(a, entity_id@);
        assert(registry.entity_list() =~= start.entity_list());
        assert forall|i: int| 0 <= i < b.len() implies has_entity(
            start.entity_list(),
            (#[trigger] b[i]).entity_id,
        ) by {
            assert(a.contains(b[i]));
            let k = choose|k: int| 0 <= k < a.len() && a[k] == b[i];
            assert(has_entity(start.entity_list(), a[k].entity_id));
        }
    }
    res
}

/// The keys by which candidates are ordered.
pub open spec fn candidate_keys(candidates: Seq<CandidateView>) -> Seq<(Seq<char>, Seq<char>)> {
    candidates.map_values(|c: CandidateView| (c.zero_since, c.entity_id))
}

/// Which candidates were observed at the cutoff or before.
pub open spec fn due_candidates(candidates: Seq<CandidateView>, cutoff: Seq<char>) -> Seq<bool> {
    candidates.map_values(|c: CandidateView| !text_less(cutoff, c.zero_since))
}

/// Whether `res` lists the candidates whose grace period has elapsed, by time, then by id.
pub open spec fn lists_due_candidates(
    candidates: Seq<CandidateView>,
    cutoff: Seq<char>,
    res: Seq<EntityGcCandidate>,
) -> bool {
    exists|order: Seq<int>|
        {
            &&& #[trigger] ordered_pick::<(String, String)>(
                candidate_keys(candidates),
                due_candidates(candidates, cutoff),
                order,
            )
            &&& res.len() == order.len()
            &&& forall|i: int| 0 <= i < res.len() ==> (#[trigger] res[i])@ == candidates[order[i]]
        }
}

/// Lists candidates whose grace period has elapsed. The caller must recheck mentions immediately
/// before deleting, because the graph is a separate store.
pub fn due_entity_gc_candidates(registry: &EntityRegistry, cutoff_stamp: &str) -> (res: Vec<
    EntityGcCandidate,
>)
    ensures
        lists_due_candidates(registry.candidate_list(), cutoff_stamp@, res@),
{
    let ghost all = registry.candidate_list();
    let ghost wanted_keys = candidate_keys(all);
    let ghost wanted_pick = due_candidates(all, cutoff_stamp@);
    let mut keys: Vec<(String, String)> = Vec::new();
    let mut pick: Vec<bool> = Vec::new();
    let mut i: usize = 0;
    while i < registry.candidates.len()
        invariant
            i <= registry.candidates@.len(),
            all == registry.candidate_list(),
            wanted_keys == candidate_keys(all),
            wanted_pick == due_candidates(all, cutoff_stamp@),
            key_views(keys@) == wanted_keys.take(i as int),
            pick@ == wanted_pick.take(i as int),
        decreases registry.candidates@.len() - i,
    {
        let row = &registry.candidates[i];
        assert(all[i as int] == row@);
        let ghost before = key_views(keys@);
        let key = (row.zero_since.clone(), row.entity_id.clone());
        assert((key.0@, key.1@) == wanted_keys[i as int]);
        keys.push(key);
        pick.push(!less(cutoff_stamp, row.zero_since.as_str()));
        assert(key_views(keys@) =~= before.push(wanted_keys[i as int]));
        i = i + 1;
        assert(key_views(keys@) =~= wanted_keys.take(i as int));
        assert(pick@ =~= wanted_pick.take(i as int));
    }
    assert(wanted_keys.take(i as int) =~= wanted_keys);
    assert(wanted_pick.take(i as int) =~= wanted_pick);
    assert(keys@.len() == key_views(keys@).len());
    let order = sort_picked(&keys, &pick);
    let ghost indices = order@.map_values(|i: usize| i as int);
    let mut res: Vec<EntityGcCandidate> = Vec::new();
    let mut k: usize = 0;
    while k < order.len()
        invariant
            k <= order@.len(),
            all == registry.candidate_list(),
            indices == order@.map_values(|i: usize| i as int),
            forall|j: int|
                0 <= j < order@.len() ==> #[trigger] order@[j] < registry.candidates@.len(),
            res@.len() == k,
            forall|j: int| 0 <= j < k ==> (#[trigger] res@[j])@ == all[indices[j]],
        decreases order@.len() - k,
    {
        let row = &registry.candidates[order[k]];
        assert(all[order@[k as int] as int] == row@);
        let item = EntityGcCandidate {
            entity_id: row.entity_id.clone(),
            zero_since: row.zero_since.clone(),
        };
        assert(item@ =~= row@);
        res.push(item);
        k = k + 1;
    }
    assert(ordered_pick::<(String, String)>(wanted_keys, wanted_pick, indices));
    res
}

/// The entities without one.
pub open spec fn entities_without(entities: Seq<EntityView>, id: Seq<char>) -> Seq<EntityView> {
    entities.filter(|e: EntityView| e.entity_id != id)
}

/// The aliases without those of an entity.
pub open spec fn aliases_without(aliases: Seq<AliasView>, id: Seq<char>) -> Seq<AliasView> {
    aliases.filter(|a: AliasView| a.entity_id != id)
}

/// Removes an unmerged entity after its knowledge-plane node and vector have been deleted: its
/// registration, its aliases and its candidate row go, and its pending reviews are rejected. An
/// entity that the merge audit speaks of stays and only ceases to be a candidate. Answers whether
/// an entity was removed.
pub fn execute_entity_gc(registry: &mut EntityRegistry, entity_id: &str) -> (res: bool)
    requires
        old(registry).wf(),
    ensures
        final(registry).wf(),
        final(registry).merge_list() == old(registry).merge_list(),
        final(registry).candidate_list() == candidates_without(
            old(registry).candidate_list(),
            entity_id@,
        ),
        res == (has_entity(old(registry).entity_list(), entity_id@) && !referenced(
            old(registry).merge_list(),
            entity_id@,
        )),
        if referenced(old(registry).merge_list(), entity_id@) {
            &&& final(registry).entity_list() == old(registry).entity_list()
            &&& final(registry).alias_list() == old(registry).alias_list()
            &&& final(registry).review_list() == old(registry).review_list()
        } else {
            &&& final(registry).entity_list() == entities_without(
                old(registry).entity_list(),
                entity_id@,
            )
            &&& final(registry).alias_list() == aliases_without(
                old(registry).alias_list(),
                entity_id@,
            )
            &&& final(registry).review_list() == settled(
                old(registry).review_list(),
                of_entity(entity_id@),
                ReviewStatus::Rejected,
            )
        },
{
    if is_referenced(registry, entity_id) {
        let _ = cancel_entity_gc_candidate(registry, entity_id);
        return false;
    }
    let ghost start = *registry;
    let res = registry.entity_index(entity_id).is_some();
    reject_entity(&mut registry.reviews, entity_id);
    remove_owned(&mut registry.aliases, entity_id);
    remove_owned(&mut registry.entities, entity_id);
    drop_candidate(&mut registry.candidates, entity_id);
    proof {
        assert(registry.review_list() == review_views(registry.reviews@));
        assert(start.review_list() == review_views(start.reviews@));
        lemma_settled_ascend(
            start.review_list(),
            of_entity(entity_id@),
            ReviewStatus::Rejected,
        );
        let entity_view = |e: EntityRow| e@;
        let keep_entity = |e: EntityView| e.entity_id != entity_id@;
        lemma_filter_map(start.entities@, entity_view, keep_entity);
        assert((|e: EntityRow| keep_entity(entity_view(e))) =~= (|e: EntityRow| e.owner()
            != entity_id@));
        let alias_view = |a: AliasRow| a@;
        let keep_alias = |a: AliasView| a.entity_id != entity_id@;
        lemma_filter_map(start.aliases@, alias_view, keep_alias);
        assert((|a: AliasRow| keep_alias(alias_view(a))) =~= (|a: AliasRow| a.owner()
            != entity_id@));
        lemma_entity_removed(start, *registry, entity_id@);
    }
    res
}

proof fn lemma_entity_removed(before: EntityRegistry, after: EntityRegistry, id: Seq<char>)
    requires
        before.wf(),
        !referenced(before.merge_list(), id),
        after.merge_list() == before.merge_list(),
        after.entity_list() == entities_without(before.entity_list(), id),
        after.alias_list() == aliases_without(before.alias_list(), id),
        after.candidate_list() == candidates_without(before.candidate_list(), id),
        super::registry::reviews_ascend(after.review_list()),
    ensures
        after.wf(),
{
    let (e, f) = (before.entity_list(), after.entity_list());
    let (a, b) = (before.alias_list(), after.alias_list());
    let (c, d) = (before.candidate_list(), after.candidate_list());
    let keep_entity = |x: EntityView| x.entity_id != id;
    let entity_places = lemma_filter_places(e, keep_entity);
    assert forall|i: int, j: int| 0 <= i < j < f.len() implies (#[trigger] f[i]).entity_id != (
    #[trigger] f[j]).entity_id && !(f[i].canonical_name == f[j].canonical_name && f[i].entity_type
        == f[j].entity_type) by {
        assert(entity_places[i] < entity_places[j]);
        assert(e[entity_places[i]] == f[i] && e[entity_places[j]] == f[j]);
    }
    assert forall|other: Seq<char>| other != id && has_entity(e, other) implies #[trigger] has_entity(
        f,
        other,
    ) by {
        let k = choose|k: int| 0 <= k < e.len() && (#[trigger] e[k]).entity_id == other;
        assert(keep_entity(e[k]));
        assert(entity_places.contains(k));
        let i = choose|i: int| 0 <= i < entity_places.len() && entity_places[i] == k;
        assert(f[i] == e[k]);
    }
    let keep_alias = |x: AliasView| x.entity_id != id;
    let alias_places = lemma_filter_places(a, keep_alias);
    assert forall|i: int, j: int| 0 <= i < j < b.len() implies !((#[trigger] b[i]).alias == (
    #[trigger] b[j]).alias && b[i].entity_type == b[j].entity_type) by {
        assert(alias_places[i] < alias_places[j]);
        assert(a[alias_places[i]] == b[i] && a[alias_places[j]] == b[j]);
    }
    assert forall|i: int| 0 <= i < b.len() implies has_entity(f, (#[trigger] b[i]).entity_id) by {
        assert(a[alias_places[i]] == b[i] && keep_alias(b[i]));
        assert(has_entity(e, a[alias_places[i]].entity_id));
    }
    lemma_candidates_without(c, id);
    assert forall|i: int| 0 <= i < d.len() implies has_entity(f, (#[trigger] d[i]).entity_id) by {
        assert(c.contains(d[i]));
        let k = choose|k: int| 0 <= k < c.len() && c[k] == d[i];
        assert(has_entity(e, c[k].entity_id));
        assert(!is_candidate(d, id));
    }
    let merges = before.merge_list();
    assert forall|i: int| 0 <= i < merges.len() implies has_entity(
        f,
        (#[trigger] merges[i]).loser_id,
    ) && has_entity(f, merges[i].winner_id) by {
        assert(has_entity(e, merges[i].loser_id) && has_entity(e, merges[i].winner_id));
    }
}

/// A sweep that sees an entity again without mentions keeps the first observation: a candidate is
/// recorded once, whatever the time of the later sweep.
pub proof fn law_first_observation_is_kept(
    candidates: Seq<CandidateView>,
    id: Seq<char>,
    zero_since: Seq<char>,
)
    ensures
        is_candidate(
            candidates.push(CandidateView { entity_id: id, zero_since }),
            id,
        ),
{
    let after = candidates.push(CandidateView { entity_id: id, zero_since });
    assert(after[candidates.len() as int].entity_id == id);
}

/// Garbage collection spares what the merge audit speaks of: exactly the entities that no merge names, as
/// a loser or as a winner, are listed for it, each once.
pub proof fn law_collection_spares_merged_entities(
    entities: Seq<EntityView>,
    merges: Seq<MergeView>,
    ids: Seq<Seq<char>>,
    i: int,
    k: int,
)
    requires
        lists_unreferenced(entities, merges, ids),
    ensures
        0 <= i < entities.len() && (forall|m: int|
            0 <= m < merges.len() ==> (#[trigger] merges[m]).loser_id != entities[i].entity_id
                && merges[m].winner_id != entities[i].entity_id) ==> ids.contains(
            entities[i].entity_id,
        ),
        0 <= k < ids.len() ==> has_entity(entities, ids[k]) && forall|m: int|
            0 <= m < merges.len() ==> (#[trigger] merges[m]).loser_id != ids[k]
                && merges[m].winner_id != ids[k],
{
    let (keys, pick) = (id_keys(entities), unreferenced(entities, merges));
    let order = choose|order: Seq<int>|
        {
            &&& #[trigger] ordered_pick::<(String, String)>(keys, pick, order)
            &&& ids == order.map_values(|i: int| entities[i].entity_id)
        };
    if 0 <= i < entities.len() && !referenced(merges, entities[i].entity_id) {
        assert(pick[i]);
        assert(order.contains(i));
        let n = choose|n: int| 0 <= n < order.len() && order[n] == i;
        assert(ids[n] == entities[i].entity_id);
    }
    if 0 <= k < ids.len() {
        assert(order.contains(order[k]));
        let x = order[k];
        assert(pick[x]);
        assert(entities[x].entity_id == ids[k]);
        assert(!referenced(merges, ids[k]));
    }
}

/// The grace period is kept: exactly the candidates that were first seen without mentions at the cutoff or
/// before are due, the longest-waiting first.
pub proof fn law_grace_period_is_kept(
    candidates: Seq<CandidateView>,
    cutoff: Seq<char>,
    res: Seq<EntityGcCandidate>,
    i: int,
    a: int,
    b: int,
)
    requires
        lists_due_candidates(candidates, cutoff, res),
    ensures
        0 <= i < candidates.len() && !text_less(cutoff, candidates[i].zero_since) ==> exists|k: int|
            0 <= k < res.len() && (#[trigger] res[k])@ == candidates[i],
        0 <= a < res.len() ==> candidates.contains(res[a]@) && !text_less(cutoff, res[a]@.zero_since),
        0 <= a < b < res.len() ==> !text_less(res[b]@.zero_since, res[a]@.zero_since),
{
    let (keys, pick) = (candidate_keys(candidates), due_candidates(candidates, cutoff));
    let order = choose|order: Seq<int>|
        {
            &&& #[trigger] ordered_pick::<(String, String)>(keys, pick, order)
            &&& res.len() == order.len()
            &&& forall|i: int| 0 <= i < res.len() ==> (#[trigger] res[i])@ == candidates[order[i]]
        };
    if 0 <= i < candidates.len() && !text_less(cutoff, candidates[i].zero_since) {
        assert(pick[i]);
        assert(order.contains(i));
        let k = choose|k: int| 0 <= k < order.len() && order[k] == i;
        assert(res[k]@ == candidates[i]);
    }
    if 0 <= a < res.len() {
        assert(order.contains(order[a]));
        assert(pick[order[a]]);
        assert(res[a]@ == candidates[order[a]]);
    }
    if 0 <= a < b < res.len() {
        crate::order::law_picked_rows_never_go_back(keys, pick, order, a, b);
        assert(res[a]@ == candidates[order[a]] && res[b]@ == candidates[order[b]]);
        assert(keys[order[a]].0 == candidates[order[a]].zero_since);
    }
}

/// Collecting an entity takes all of it and nothing else: of entities, aliases and candidates exactly those
/// of other entities are left.
pub proof fn law_collection_takes_one_entity(
    entities: Seq<EntityView>,
    aliases: Seq<AliasView>,
    candidates: Seq<CandidateView>,
    id: Seq<char>,
    e: EntityView,
    a: AliasView,
    c: CandidateView,
)
    ensures
        entities_without(entities, id).contains(e) <==> entities.contains(e) && e.entity_id != id,
        aliases_without(aliases, id).contains(a) <==> aliases.contains(a) && a.entity_id != id,
        candidates_without(candidates, id).contains(c) <==> candidates.contains(c) && c.entity_id != id,
{
    crate::rows::lemma_filter_kept(entities, |e: EntityView| e.entity_id != id);
    crate::rows::lemma_filter_kept(aliases, |a: AliasView| a.entity_id != id);
    crate::rows::lemma_filter_kept(candidates, |c: CandidateView| c.entity_id != id);
}

/// Collecting an entity takes it, its aliases and its candidacy, rejects its pending reviews, and touches no
/// other entity; one that a merge speaks of stays with all it has, and is no longer a candidate.
pub proof fn law_collection_is_complete(
    registry: &mut EntityRegistry,
    id: &str,
    res: bool,
    m: int,
    e: EntityView,
    a: AliasView,
    c: CandidateView,
)
    requires
        call_ensures(execute_entity_gc, (registry, id), res),
    ensures
        0 <= m < old(registry).merge_list().len() && (old(registry).merge_list()[m].loser_id == id@ || old(registry).merge_list()[m].winner_id == id@) ==> !res && final(registry).entity_list() == old(registry).entity_list() && final(registry).alias_list() == old(registry).alias_list(),
        res ==> (final(registry).entity_list().contains(e) <==> old(registry).entity_list().contains(e)
            && e.entity_id != id@),
        res ==> (final(registry).alias_list().contains(a) <==> old(registry).alias_list().contains(a)
            && a.entity_id != id@),
        final(registry).candidate_list().contains(c) <==> old(registry).candidate_list().contains(c)
            && c.entity_id != id@,
        has_entity(old(registry).entity_list(), id@) && (forall|k: int|
            0 <= k < old(registry).merge_list().len() ==> (#[trigger] old(registry).merge_list()[k]).loser_id != id@ && old(registry).merge_list()[k].winner_id != id@)
            ==> res,
{
    crate::rows::lemma_filter_kept(old(registry).entity_list(), |x: EntityView| x.entity_id != id@);
    crate::rows::lemma_filter_kept(old(registry).alias_list(), |x: AliasView| x.entity_id != id@);
    crate::rows::lemma_filter_kept(
        old(registry).candidate_list(),
        |x: CandidateView| x.entity_id != id@,
    );
    if 0 <= m < old(registry).merge_list().len() && (old(registry).merge_list()[m].loser_id == id@
        || old(registry).merge_list()[m].winner_id == id@) {
        assert(referenced(old(registry).merge_list(), id@));
    }
}

} // verus!
