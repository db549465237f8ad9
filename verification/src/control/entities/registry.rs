//! Entity registry and typed alias operations.

use vstd::prelude::*;

use super::super::db::DbError;
use super::review::{ReviewRow, ReviewView};
use crate::rows::Owned;
use crate::text::{opt_text, same, texts};

verus! {

/// A registered entity.
#[derive(Debug)]
pub struct EntityRow {
    /// The stable id.
    pub entity_id: String,
    /// The canonical name.
    pub canonical_name: String,
    /// The supertype.
    pub entity_type: String,
    /// The subtype, where one is known.
    pub subtype: Option<String>,
    /// When the entity was registered.
    pub created_at: String,
}

/// The model of an [`EntityRow`].
#[verifier::ext_equal]
pub struct EntityView {
    pub entity_id: Seq<char>,
    pub canonical_name: Seq<char>,
    pub entity_type: Seq<char>,
    pub subtype: Option<Seq<char>>,
    pub created_at: Seq<char>,
}

impl View for EntityRow {
    type V = EntityView;

    open spec fn view(&self) -> EntityView {
        EntityView {
            entity_id: self.entity_id@,
            canonical_name: self.canonical_name@,
            entity_type: self.entity_type@,
            subtype: opt_text(self.subtype),
            created_at: self.created_at@,
        }
    }
}

impl Owned for EntityRow {
    open spec fn owner(self) -> Seq<char> {
        self.entity_id@
    }

    fn owned_by(&self, id: &str) -> bool {
        same(self.entity_id.as_str(), id)
    }
}

/// Where an alias came from.
#[derive(Debug, Clone, Copy, PartialEq, Eq, Structural)]
pub enum AliasSource {
    /// Extraction saw the surface form.
    Extraction,
    /// A merge carried the surface form over.
    Merge,
}

/// A surface form of an entity.
#[derive(Debug)]
pub struct AliasRow {
    /// The normalized surface form.
    pub alias: String,
    /// The supertype that the form is used with.
    pub entity_type: String,
    /// The entity that the form names.
    pub entity_id: String,
    /// Where the mapping came from.
    pub source: AliasSource,
}

/// The model of an [`AliasRow`].
#[verifier::ext_equal]
pub struct AliasView {
    pub alias: Seq<char>,
    pub entity_type: Seq<char>,
    pub entity_id: Seq<char>,
    pub source: AliasSource,
}

impl View for AliasRow {
    type V = AliasView;

    open spec fn view(&self) -> AliasView {
        AliasView {
            alias: self.alias@,
            entity_type: self.entity_type@,
            entity_id: self.entity_id@,
            source: self.source,
        }
    }
}

impl Owned for AliasRow {
    open spec fn owner(self) -> Seq<char> {
        self.entity_id@
    }

    fn owned_by(&self, id: &str) -> bool {
        same(self.entity_id.as_str(), id)
    }
}

/// A row of the merge audit.
#[derive(Debug)]
pub struct MergeRow {
    /// The entity folded away.
    pub loser_id: String,
    /// The entity kept.
    pub winner_id: String,
    /// Why.
    pub reason: String,
    /// When.
    pub merged_at: String,
}

/// The model of a [`MergeRow`].
#[verifier::ext_equal]
pub struct MergeView {
    pub loser_id: Seq<char>,
    pub winner_id: Seq<char>,
    pub reason: Seq<char>,
    pub merged_at: Seq<char>,
}

impl View for MergeRow {
    type V = MergeView;

    open spec fn view(&self) -> MergeView {
        MergeView {
            loser_id: self.loser_id@,
            winner_id: self.winner_id@,
            reason: self.reason@,
            merged_at: self.merged_at@,
        }
    }
}

/// An unmerged entity observed without any knowledge-plane mentions.
#[derive(Debug, Clone, PartialEq, Eq)]
pub struct EntityGcCandidate {
    /// Stable entity id awaiting the grace period.
    pub entity_id: String,
    /// First timestamp at which the entity was observed with zero mentions.
    pub zero_since: String,
}

/// The model of an [`EntityGcCandidate`].
#[verifier::ext_equal]
pub struct CandidateView {
    pub entity_id: Seq<char>,
    pub zero_since: Seq<char>,
}

impl View for EntityGcCandidate {
    type V = CandidateView;

    open spec fn view(&self) -> CandidateView {
        CandidateView { entity_id: self.entity_id@, zero_since: self.zero_since@ }
    }
}

impl Owned for EntityGcCandidate {
    open spec fn owner(self) -> Seq<char> {
        self.entity_id@
    }

    fn owned_by(&self, id: &str) -> bool {
        same(self.entity_id.as_str(), id)
    }
}

/// The registry: entities, their aliases, the merge audit, the review queue and the candidates for
/// garbage collection.
#[derive(Debug)]
pub struct EntityRegistry {
    /// The entities.
    pub entities: Vec<EntityRow>,
    /// The surface forms.
    pub aliases: Vec<AliasRow>,
    /// The merge audit.
    pub merges: Vec<MergeRow>,
    /// The review queue.
    pub reviews: Vec<ReviewRow>,
    /// The entities seen without mentions.
    pub candidates: Vec<EntityGcCandidate>,
}

/// Whether an id is registered.
pub open spec fn has_entity(entities: Seq<EntityView>, id: Seq<char>) -> bool {
    exists|i: int| 0 <= i < entities.len() && (#[trigger] entities[i]).entity_id == id
}

/// Entities differ in their ids and in their names of one type.
pub open spec fn entities_distinct(entities: Seq<EntityView>) -> bool {
    forall|i: int, j: int|
        0 <= i < j < entities.len() ==> (#[trigger] entities[i]).entity_id != (
        #[trigger] entities[j]).entity_id && !(entities[i].canonical_name
            == entities[j].canonical_name && entities[i].entity_type == entities[j].entity_type)
}

/// An alias of one type names one entity.
pub open spec fn aliases_distinct(aliases: Seq<AliasView>) -> bool {
    forall|i: int, j: int|
        0 <= i < j < aliases.len() ==> !((#[trigger] aliases[i]).alias == (
        #[trigger] aliases[j]).alias && aliases[i].entity_type == aliases[j].entity_type)
}

/// An entity is folded away at most once.
pub open spec fn losers_distinct(merges: Seq<MergeView>) -> bool {
    forall|i: int, j: int|
        0 <= i < j < merges.len() ==> (#[trigger] merges[i]).loser_id != (
        #[trigger] merges[j]).loser_id
}

/// Reviews are filed with growing ids.
pub open spec fn reviews_ascend(reviews: Seq<ReviewView>) -> bool {
    forall|i: int, j: int|
        0 <= i < j < reviews.len() ==> (#[trigger] reviews[i]).id < (#[trigger] reviews[j]).id
}

/// An entity is a candidate at most once.
pub open spec fn candidates_distinct(candidates: Seq<CandidateView>) -> bool {
    forall|i: int, j: int|
        0 <= i < j < candidates.len() ==> (#[trigger] candidates[i]).entity_id != (
        #[trigger] candidates[j]).entity_id
}

impl EntityRegistry {
    /// The models of the entities.
    pub open spec fn entity_list(self) -> Seq<EntityView> {
        self.entities@.map_values(|e: EntityRow| e@)
    }

    /// The models of the aliases.
    pub open spec fn alias_list(self) -> Seq<AliasView> {
        self.aliases@.map_values(|a: AliasRow| a@)
    }

    /// The models of the merge audit.
    pub open spec fn merge_list(self) -> Seq<MergeView> {
        self.merges@.map_values(|m: MergeRow| m@)
    }

    /// The models of the review queue.
    pub open spec fn review_list(self) -> Seq<ReviewView> {
        self.reviews@.map_values(|r: ReviewRow| r@)
    }

    /// The models of the candidates.
    pub open spec fn candidate_list(self) -> Seq<CandidateView> {
        self.candidates@.map_values(|c: EntityGcCandidate| c@)
    }

    /// Well-formedness: the keys are distinct, and aliases, merges and candidates speak of
    /// registered entities.
    pub open spec fn wf(self) -> bool {
        let entities = self.entity_list();
        let (aliases, merges) = (self.alias_list(), self.merge_list());
        let candidates = self.candidate_list();
        &&& entities_distinct(entities)
        &&& aliases_distinct(aliases)
        &&& losers_distinct(merges)
        &&& reviews_ascend(self.review_list())
        &&& candidates_distinct(candidates)
        &&& forall|i: int|
            0 <= i < aliases.len() ==> has_entity(entities, (#[trigger] aliases[i]).entity_id)
        &&& forall|i: int|
            0 <= i < merges.len() ==> has_entity(entities, (#[trigger] merges[i]).loser_id)
                && has_entity(entities, merges[i].winner_id)
        &&& forall|i: int|
            0 <= i < candidates.len() ==> has_entity(
                entities,
                (#[trigger] candidates[i]).entity_id,
            )
    }

    /// An empty registry.
    pub fn new() -> (res: EntityRegistry)
        ensures
            res.wf(),
            res.entity_list() == Seq::<EntityView>::empty(),
            res.alias_list() == Seq::<AliasView>::empty(),
            res.merge_list() == Seq::<MergeView>::empty(),
            res.review_list() == Seq::<ReviewView>::empty(),
            res.candidate_list() == Seq::<CandidateView>::empty(),
    {
        EntityRegistry {
            entities: Vec::new(),
            aliases: Vec::new(),
            merges: Vec::new(),
            reviews: Vec::new(),
            candidates: Vec::new(),
        }
    }

    /// The row of an entity.
    pub fn entity_index(&self, entity_id: &str) -> (res: Option<usize>)
        ensures
            match res {
                Some(i) => i < self.entity_list().len() && self.entity_list()[i as int].entity_id
                    == entity_id@,
                None => !has_entity(self.entity_list(), entity_id@),
            },
    {
        let ghost all = self.entity_list();
        let mut i: usize = 0;
        while i < self.entities.len()
            invariant
                i <= self.entities@.len(),
                all == self.entity_list(),
                forall|j: int| 0 <= j < i ==> (#[trigger] all[j]).entity_id != entity_id@,
            decreases self.entities@.len() - i,
        {
            assert(all[i as int] == self.entities@[i as int]@);
            if same(self.entities[i].entity_id.as_str(), entity_id) {
                return Some(i);
            }
            i = i + 1;
        }
        None
    }
}

/// The owner of an alias of one type.
pub open spec fn alias_owner(
    aliases: Seq<AliasView>,
    alias: Seq<char>,
    entity_type: Seq<char>,
) -> Option<Seq<char>>
    decreases aliases.len(),
{
    if aliases.len() == 0 {
        None
    } else if aliases[0].alias == alias && aliases[0].entity_type == entity_type {
        Some(aliases[0].entity_id)
    } else {
        alias_owner(aliases.drop_first(), alias, entity_type)
    }
}

/// What [`alias_owner`] finds is a row, and it finds any row there is.
pub proof fn lemma_alias_owner(aliases: Seq<AliasView>, alias: Seq<char>, entity_type: Seq<char>)
    ensures
        match alias_owner(aliases, alias, entity_type) {
            Some(id) => exists|i: int|
                {
                    &&& 0 <= i < aliases.len()
                    &&& (#[trigger] aliases[i]).alias == alias
                    &&& aliases[i].entity_type == entity_type
                    &&& aliases[i].entity_id == id
                },
            None => forall|i: int|
                0 <= i < aliases.len() ==> !((#[trigger] aliases[i]).alias == alias
                    && aliases[i].entity_type == entity_type),
        },
        aliases_distinct(aliases) ==> forall|i: int|
            0 <= i < aliases.len() && (#[trigger] aliases[i]).alias == alias
                && aliases[i].entity_type == entity_type ==> alias_owner(aliases, alias, entity_type)
                == Some(aliases[i].entity_id),
    decreases aliases.len(),
{
    if aliases.len() > 0 {
        let rest = aliases.drop_first();
        lemma_alias_owner(rest, alias, entity_type);
        if aliases[0].alias == alias && aliases[0].entity_type == entity_type {
            if aliases_distinct(aliases) {
                assert forall|i: int|
                    0 <= i < aliases.len() && (#[trigger] aliases[i]).alias == alias
                        && aliases[i].entity_type == entity_type implies i == 0 by {
                    if i > 0 {
                        assert(!(aliases[0].alias == aliases[i].alias && aliases[0].entity_type
                            == aliases[i].entity_type));
                    }
                }
            }
        } else {
            if alias_owner(rest, alias, entity_type) is Some {
                let i = choose|i: int|
                    {
                        &&& 0 <= i < rest.len()
                        &&& (#[trigger] rest[i]).alias == alias
                        &&& rest[i].entity_type == entity_type
                        &&& rest[i].entity_id == alias_owner(rest, alias, entity_type)->0
                    };
                assert(aliases[i + 1] == rest[i]);
            } else {
                assert forall|i: int| 0 <= i < aliases.len() implies !((
                #[trigger] aliases[i]).alias == alias && aliases[i].entity_type == entity_type) by {
                    if i > 0 {
                        assert(rest[i - 1] == aliases[i]);
                    }
                }
            }
            if aliases_distinct(aliases) {
                assert forall|i: int, j: int| 0 <= i < j < rest.len() implies !((
                #[trigger] rest[i]).alias == (#[trigger] rest[j]).alias && rest[i].entity_type
                    == rest[j].entity_type) by {
                    assert(rest[i] == aliases[i + 1] && rest[j] == aliases[j + 1]);
                }
                assert forall|i: int|
                    0 <= i < aliases.len() && (#[trigger] aliases[i]).alias == alias
                        && aliases[i].entity_type == entity_type implies alias_owner(
                    aliases,
                    alias,
                    entity_type,
                ) == Some(aliases[i].entity_id) by {
                    assert(rest[i - 1] == aliases[i]);
                }
            }
        }
    }
}

/// The typed alias hit: the entity of an exact alias and type.
pub fn lookup_alias(registry: &EntityRegistry, alias: &str, entity_type: &str) -> (res: Option<
    String,
>)
    ensures
        opt_text(res) == alias_owner(registry.alias_list(), alias@, entity_type@),
{
    let ghost all = registry.alias_list();
    assert(all.skip(0) =~= all);
    let mut i: usize = 0;
    while i < registry.aliases.len()
        invariant
            i <= registry.aliases@.len(),
            all == registry.alias_list(),
            alias_owner(all, alias@, entity_type@) == alias_owner(
                all.skip(i as int),
                alias@,
                entity_type@,
            ),
        decreases registry.aliases@.len() - i,
    {
        let row = &registry.aliases[i];
        assert(all.skip(i as int)[0] == row@);
        assert(all.skip(i as int).drop_first() =~= all.skip(i + 1));
        if same(row.alias.as_str(), alias) && same(row.entity_type.as_str(), entity_type) {
            return Some(row.entity_id.clone());
        }
        i = i + 1;
    }
    None
}

/// The entities of an alias, whatever their types.
pub open spec fn owners_of(aliases: Seq<AliasView>, alias: Seq<char>) -> Seq<Seq<char>> {
    aliases.filter(|a: AliasView| a.alias == alias).map_values(|a: AliasView| a.entity_id)
}

/// The query-entity hit: every type-variant of an alias.
pub fn lookup_alias_all_types(registry: &EntityRegistry, alias: &str) -> (res: Vec<String>)
    ensures
        texts(res@) == owners_of(registry.alias_list(), alias@),
{
    let ghost all = registry.alias_list();
    let ghost hit = |a: AliasView| a.alias == alias@;
    let mut res: Vec<String> = Vec::new();
    let mut i: usize = 0;
    assert(texts(res@) =~= all.take(0).filter(hit).map_values(|a: AliasView| a.entity_id)) by {
        reveal(Seq::filter);
    }
    while i < registry.aliases.len()
        invariant
            i <= registry.aliases@.len(),
            all == registry.alias_list(),
            hit == (|a: AliasView| a.alias == alias@),
            texts(res@) == all.take(i as int).filter(hit).map_values(
                |a: AliasView| a.entity_id,
            ),
        decreases registry.aliases@.len() - i,
    {
        let row = &registry.aliases[i];
        let ghost before = texts(res@);
        let ghost kept = all.take(i as int).filter(hit);
        proof {
            reveal(Seq::filter);
            assert(all.take(i + 1).drop_last() =~= all.take(i as int));
            assert(all.take(i + 1).last() == row@);
        }
        if same(row.alias.as_str(), alias) {
            res.push(row.entity_id.clone());
            assert(texts(res@) =~= before.push(row@.entity_id));
            assert(kept.push(row@).map_values(|a: AliasView| a.entity_id) =~= before.push(
                row@.entity_id,
            ));
        }
        i = i + 1;
    }
    assert(all.take(i as int) =~= all);
    res
}

/// Registers a surface form for an entity. An alias that already names an entity of that type is
/// left alone, and its entity is returned: a shared alias is evidence for a merge and never rewired
/// here. A new alias must name a registered entity.
pub fn upsert_alias(
    registry: &mut EntityRegistry,
    alias: &str,
    entity_type: &str,
    entity_id: &str,
) -> (res: Result<Option<String>, DbError>)
    requires
        old(registry).wf(),
    ensures
        final(registry).wf(),
        final(registry).entity_list() == old(registry).entity_list(),
        final(registry).merge_list() == old(registry).merge_list(),
        final(registry).review_list() == old(registry).review_list(),
        final(registry).candidate_list() == old(registry).candidate_list(),
        match alias_owner(old(registry).alias_list(), alias@, entity_type@) {
            Some(owner) => {
                &&& res is Ok
                &&& opt_text(res->Ok_0) == Some(owner)
                &&& final(registry).alias_list() == old(registry).alias_list()
            },
            None => if has_entity(old(registry).entity_list(), entity_id@) {
                &&& res is Ok
                &&& res->Ok_0 is None
                &&& final(registry).alias_list() == old(registry).alias_list().push(
                    AliasView {
                        alias: alias@,
                        entity_type: entity_type@,
                        entity_id: entity_id@,
                        source: AliasSource::Extraction,
                    },
                )
            } else {
                &&& res is Err
                &&& res->Err_0 is Sqlite
                &&& final(registry).alias_list() == old(registry).alias_list()
            },
        },
{
    if let Some(owner) = lookup_alias(registry, alias, entity_type) {
        return Ok(Some(owner));
    }
    if registry.entity_index(entity_id).is_none() {
        return Err(DbError::Sqlite("FOREIGN KEY constraint failed".to_owned()));
    }
    let ghost before = *registry;
    let row = AliasRow {
        alias: alias.to_owned(),
        entity_type: entity_type.to_owned(),
        entity_id: entity_id.to_owned(),
        source: AliasSource::Extraction,
    };
    let ghost added = row@;
    registry.aliases.push(row);
    proof {
        let (a, b) = (before.alias_list(), registry.alias_list());
        assert(b =~= a.push(added));
        assert(registry.entity_list() =~= before.entity_list());
        assert(registry.merge_list() =~= before.merge_list());
        assert(registry.review_list() =~= before.review_list());
        assert(registry.candidate_list() =~= before.candidate_list());
        lemma_alias_owner(a, alias@, entity_type@);
        assert forall|i: int, j: int| 0 <= i < j < b.len() implies !((#[trigger] b[i]).alias == (
        #[trigger] b[j]).alias && b[i].entity_type == b[j].entity_type) by {
            assert(b[i] == a[i]);
            if j < a.len() {
                assert(b[j] == a[j]);
            }
        }
        assert forall|i: int| 0 <= i < b.len() implies has_entity(
            before.entity_list(),
            (#[trigger] b[i]).entity_id,
        ) by {
            if i < a.len() {
                assert(b[i] == a[i]);
            }
        }
    }
    Ok(None)
}

/// The id that owns a name of one type.
pub open spec fn name_owner(
    entities: Seq<EntityView>,
    name: Seq<char>,
    entity_type: Seq<char>,
    id: Seq<char>,
) -> bool {
    exists|i: int|
        {
            &&& 0 <= i < entities.len()
            &&& (#[trigger] entities[i]).canonical_name == name
            &&& entities[i].entity_type == entity_type
            &&& entities[i].entity_id == id
        }
}

/// Whether a name of one type is registered.
pub open spec fn name_taken(
    entities: Seq<EntityView>,
    name: Seq<char>,
    entity_type: Seq<char>,
) -> bool {
    exists|i: int|
        {
            &&& 0 <= i < entities.len()
            &&& (#[trigger] entities[i]).canonical_name == name
            &&& entities[i].entity_type == entity_type
        }
}

/// Registers an entity under its name and type, and returns the id that owns them: the one given
/// where the name is new, else the registered one. A new name needs an id that no entity has.
pub fn ensure_entity(
    registry: &mut EntityRegistry,
    entity_id: &str,
    canonical_name: &str,
    entity_type: &str,
    subtype: Option<&str>,
    now_stamp: &str,
) -> (res: Result<String, DbError>)
    requires
        old(registry).wf(),
    ensures
        final(registry).wf(),
        final(registry).alias_list() == old(registry).alias_list(),
        final(registry).merge_list() == old(registry).merge_list(),
        final(registry).review_list() == old(registry).review_list(),
        final(registry).candidate_list() == old(registry).candidate_list(),
        if name_taken(old(registry).entity_list(), canonical_name@, entity_type@) {
            &&& final(registry).entity_list() == old(registry).entity_list()
            &&& res is Ok
            &&& name_owner(
                old(registry).entity_list(),
                canonical_name@,
                entity_type@,
                res->Ok_0@,
            )
        } else if has_entity(old(registry).entity_list(), entity_id@) {
            &&& final(registry).entity_list() == old(registry).entity_list()
            &&& res is Err
            &&& res->Err_0 is Sqlite
        } else {
            &&& res is Ok
            &&& res->Ok_0@ == entity_id@
            &&& final(registry).entity_list() == old(registry).entity_list().push(
                EntityView {
                    entity_id: entity_id@,
                    canonical_name: canonical_name@,
                    entity_type: entity_type@,
                    subtype: match subtype {
                        Some(s) => Some(s@),
                        None => None,
                    },
                    created_at: now_stamp@,
                },
            )
        },
{
    let ghost all = registry.entity_list();
    let mut i: usize = 0;
    while i < registry.entities.len()
        invariant
            i <= registry.entities@.len(),
            *registry == *old(registry),
            old(registry).wf(),
            all == registry.entity_list(),
            forall|j: int|
                0 <= j < i ==> !((#[trigger] all[j]).canonical_name == canonical_name@
                    && all[j].entity_type == entity_type@),
        decreases registry.entities@.len() - i,
    {
        assert(all[i as int] == registry.entities@[i as int]@);
        if same(registry.entities[i].canonical_name.as_str(), canonical_name) && same(
            registry.entities[i].entity_type.as_str(),
            entity_type,
        ) {
            return Ok(registry.entities[i].entity_id.clone());
        }
        i = i + 1;
    }
    if registry.entity_index(entity_id).is_some() {
        return Err(DbError::Sqlite("UNIQUE constraint failed: entities.entity_id".to_owned()));
    }
    let ghost before = *registry;
    let row = EntityRow {
        entity_id: entity_id.to_owned(),
        canonical_name: canonical_name.to_owned(),
        entity_type: entity_type.to_owned(),
        subtype: match subtype {
            Some(s) => Some(s.to_owned()),
            None => None,
        },
        created_at: now_stamp.to_owned(),
    };
    let ghost added = row@;
    registry.entities.push(row);
    proof {
        let b = registry.entity_list();
        assert(b =~= all.push(added));
        assert(registry.alias_list() =~= before.alias_list());
        assert(registry.merge_list() =~= before.merge_list());
        assert(registry.review_list() =~= before.review_list());
        assert(registry.candidate_list() =~= before.candidate_list());
        assert forall|id: Seq<char>| has_entity(all, id) implies #[trigger] has_entity(b, id) by {
            let i = choose|i: int| 0 <= i < all.len() && (#[trigger] all[i]).entity_id == id;
            assert(b[i] == all[i]);
        }
        assert forall|i: int, j: int| 0 <= i < j < b.len() implies (#[trigger] b[i]).entity_id != (
        #[trigger] b[j]).entity_id && !(b[i].canonical_name == b[j].canonical_name
            && b[i].entity_type == b[j].entity_type) by {
            assert(b[i] == all[i]);
            if j < all.len() {
                assert(b[j] == all[j]);
            }
        }
    }
    Ok(entity_id.to_owned())
}

/// The registered supertype of an entity.
pub fn entity_type_of(registry: &EntityRegistry, entity_id: &str) -> (res: Option<String>)
    ensures
        match res {
            Some(t) => exists|i: int|
                {
                    &&& 0 <= i < registry.entity_list().len()
                    &&& (#[trigger] registry.entity_list()[i]).entity_id == entity_id@
                    &&& registry.entity_list()[i].entity_type == t@
                },
            None => !has_entity(registry.entity_list(), entity_id@),
        },
{
    match registry.entity_index(entity_id) {
        Some(i) => {
            assert(registry.entity_list()[i as int] == registry.entities@[i as int]@);
            Some(registry.entities[i].entity_type.clone())
        },
        None => None,
    }
}

/// The canonical name of an entity.
pub fn canonical_name(registry: &EntityRegistry, entity_id: &str) -> (res: Option<String>)
    ensures
        match res {
            Some(n) => exists|i: int|
                {
                    &&& 0 <= i < registry.entity_list().len()
                    &&& (#[trigger] registry.entity_list()[i]).entity_id == entity_id@
                    &&& registry.entity_list()[i].canonical_name == n@
                },
            None => !has_entity(registry.entity_list(), entity_id@),
        },
{
    match registry.entity_index(entity_id) {
        Some(i) => {
            assert(registry.entity_list()[i as int] == registry.entities@[i as int]@);
            Some(registry.entities[i].canonical_name.clone())
        },
        None => None,
    }
}

/// The candidate pool used by same-supertype name resolution.
#[derive(Debug, Clone)]
pub struct NameCandidate {
    /// The candidate's surrogate id.
    pub entity_id: String,
    /// Its canonical (registry) name.
    pub canonical_name: String,
}

/// The ids and names of a list of candidates.
pub open spec fn name_pairs(list: Seq<NameCandidate>) -> Seq<(Seq<char>, Seq<char>)> {
    list.map_values(|c: NameCandidate| (c.entity_id@, c.canonical_name@))
}

/// The ids and names of the entities of one type.
pub open spec fn names_of_type(entities: Seq<EntityView>, entity_type: Seq<char>) -> Seq<
    (Seq<char>, Seq<char>),
> {
    entities.filter(|e: EntityView| e.entity_type == entity_type).map_values(
        |e: EntityView| (e.entity_id, e.canonical_name),
    )
}

/// Every canonical name registered under a type: similarity matching never crosses supertypes.
pub fn canonical_names(registry: &EntityRegistry, entity_type: &str) -> (res: Vec<NameCandidate>)
    ensures
        name_pairs(res@) == names_of_type(registry.entity_list(), entity_type@),
{
    let ghost all = registry.entity_list();
    let ghost hit = |e: EntityView| e.entity_type == entity_type@;
    let ghost pair = |e: EntityView| (e.entity_id, e.canonical_name);
    let mut res: Vec<NameCandidate> = Vec::new();
    let mut i: usize = 0;
    assert(name_pairs(res@) =~= all.take(0).filter(hit).map_values(pair)) by {
        reveal(Seq::filter);
    }
    while i < registry.entities.len()
        invariant
            i <= registry.entities@.len(),
            all == registry.entity_list(),
            hit == (|e: EntityView| e.entity_type == entity_type@),
            pair == (|e: EntityView| (e.entity_id, e.canonical_name)),
            name_pairs(res@) == all.take(i as int).filter(hit).map_values(pair),
        decreases registry.entities@.len() - i,
    {
        let row = &registry.entities[i];
        let ghost before = name_pairs(res@);
        let ghost kept = all.take(i as int).filter(hit);
        proof {
            reveal(Seq::filter);
            assert(all.take(i + 1).drop_last() =~= all.take(i as int));
            assert(all.take(i + 1).last() == row@);
        }
        if same(row.entity_type.as_str(), entity_type) {
            let entry = NameCandidate {
                entity_id: row.entity_id.clone(),
                canonical_name: row.canonical_name.clone(),
            };
            res.push(entry);
            assert(name_pairs(res@) =~= before.push(pair(row@)));
            assert(kept.push(row@).map_values(pair) =~= before.push(pair(row@)));
        }
        i = i + 1;
    }
    assert(all.take(i as int) =~= all);
    res
}

/// Same-name entities of different types are different entities, and so are same-alias ones: what
/// is registered under another type does not decide who owns an alias.
pub proof fn law_homographs_coexist(
    aliases: Seq<AliasView>,
    row: AliasView,
    alias: Seq<char>,
    entity_type: Seq<char>,
)
    requires
        row.entity_type != entity_type,
    ensures
        alias_owner(aliases.push(row), alias, entity_type) == alias_owner(
            aliases,
            alias,
            entity_type,
        ),
    decreases aliases.len(),
{
    let after = aliases.push(row);
    if aliases.len() == 0 {
        assert(after.drop_first() =~= seq![]);
        assert(after[0] == row);
    } else {
        assert(after.drop_first() =~= aliases.drop_first().push(row));
        assert(after[0] == aliases[0]);
        law_homographs_coexist(aliases.drop_first(), row, alias, entity_type);
    }
}

/// A registered alias is found again, and never rewired by registering it anew.
pub proof fn law_alias_reads_back(aliases: Seq<AliasView>, row: AliasView)
    requires
        alias_owner(aliases, row.alias, row.entity_type) is None,
    ensures
        alias_owner(aliases.push(row), row.alias, row.entity_type) == Some(row.entity_id),
    decreases aliases.len(),
{
    let after = aliases.push(row);
    if aliases.len() == 0 {
        assert(after[0] == row);
    } else {
        assert(after.drop_first() =~= aliases.drop_first().push(row));
        assert(after[0] == aliases[0]);
        law_alias_reads_back(aliases.drop_first(), row);
    }
}

/// An alias is looked up by its form and its type: the owner is that of the row with both, and there is one
/// wherever such a row is.
pub proof fn law_aliases_are_looked_up_by_form_and_type(aliases: Seq<AliasView>, i: int)
    requires
        aliases_distinct(aliases),
        0 <= i < aliases.len(),
    ensures
        alias_owner(aliases, aliases[i].alias, aliases[i].entity_type) == Some(aliases[i].entity_id),
        forall|form: Seq<char>, t: Seq<char>|
            (forall|k: int|
                0 <= k < aliases.len() ==> !((#[trigger] aliases[k]).alias == form
                    && aliases[k].entity_type == t)) ==> #[trigger] alias_owner(aliases, form, t) is None,
{
    lemma_alias_owner(aliases, aliases[i].alias, aliases[i].entity_type);
    assert forall|form: Seq<char>, t: Seq<char>|
        (forall|k: int|
            0 <= k < aliases.len() ==> !((#[trigger] aliases[k]).alias == form
                && aliases[k].entity_type == t)) implies #[trigger] alias_owner(aliases, form, t) is None by {
        lemma_alias_owner(aliases, form, t);
    }
}

/// A query finds every variant of an alias: exactly the entities of the rows of its form, whatever their
/// types.
pub proof fn law_queries_find_every_variant(aliases: Seq<AliasView>, form: Seq<char>, id: Seq<char>)
    ensures
        owners_of(aliases, form).contains(id) <==> exists|i: int|
            0 <= i < aliases.len() && (#[trigger] aliases[i]).alias == form && aliases[i].entity_id
                == id,
{
    let p = |a: AliasView| a.alias == form;
    let kept = aliases.filter(p);
    let owners = owners_of(aliases, form);
    crate::rows::lemma_filter_kept(aliases, p);
    if owners.contains(id) {
        let k = choose|k: int| 0 <= k < owners.len() && owners[k] == id;
        assert(kept.contains(kept[k]));
        let i = choose|i: int| 0 <= i < aliases.len() && aliases[i] == kept[k];
        assert(aliases[i].alias == form && aliases[i].entity_id == id);
    }
    if exists|i: int|
        0 <= i < aliases.len() && (#[trigger] aliases[i]).alias == form && aliases[i].entity_id == id {
        let i = choose|i: int|
            0 <= i < aliases.len() && (#[trigger] aliases[i]).alias == form && aliases[i].entity_id
                == id;
        assert(aliases.contains(aliases[i]));
        assert(kept.contains(aliases[i]));
        let k = choose|k: int| 0 <= k < kept.len() && kept[k] == aliases[i];
        assert(owners[k] == id);
    }
}

/// Name matching never crosses types: exactly the entities of the asked type are offered, each with its own
/// name.
pub proof fn law_names_are_offered_by_type(
    entities: Seq<EntityView>,
    entity_type: Seq<char>,
    id: Seq<char>,
    name: Seq<char>,
)
    ensures
        names_of_type(entities, entity_type).contains((id, name)) <==> exists|i: int|
            {
                &&& 0 <= i < entities.len()
                &&& (#[trigger] entities[i]).entity_type == entity_type
                &&& entities[i].entity_id == id
                &&& entities[i].canonical_name == name
            },
{
    let p = |e: EntityView| e.entity_type == entity_type;
    let kept = entities.filter(p);
    let names = names_of_type(entities, entity_type);
    crate::rows::lemma_filter_kept(entities, p);
    if names.contains((id, name)) {
        let k = choose|k: int| 0 <= k < names.len() && names[k] == (id, name);
        assert(kept.contains(kept[k]));
        let i = choose|i: int| 0 <= i < entities.len() && entities[i] == kept[k];
        assert(entities[i].entity_type == entity_type && entities[i].entity_id == id);
    }
    if exists|i: int|
        {
            &&& 0 <= i < entities.len()
            &&& (#[trigger] entities[i]).entity_type == entity_type
            &&& entities[i].entity_id == id
            &&& entities[i].canonical_name == name
        } {
        let i = choose|i: int|
            {
                &&& 0 <= i < entities.len()
                &&& (#[trigger] entities[i]).entity_type == entity_type
                &&& entities[i].entity_id == id
                &&& entities[i].canonical_name == name
            };
        assert(entities.contains(entities[i]));
        assert(kept.contains(entities[i]));
        let k = choose|k: int| 0 <= k < kept.len() && kept[k] == entities[i];
        assert(names[k] == (id, name));
    }
}

/// An alias that was recorded is found: for its form and its type the entity is named, at once and among all
/// types; an alias keeps the entity it was first recorded for; and an alias of an unknown entity is
/// refused.
pub proof fn law_recorded_aliases_are_found(
    registry: &mut EntityRegistry,
    after: &EntityRegistry,
    alias: &str,
    kind: &str,
    id: &str,
    res: Result<Option<String>, DbError>,
    found: Option<String>,
    all: Vec<String>,
    i: int,
)
    requires
        call_ensures(upsert_alias, (registry, alias, kind, id), res),
        *final(registry) == *after,
        call_ensures(lookup_alias, (after, alias, kind), found),
        call_ensures(lookup_alias_all_types, (after, alias), all),
    ensures
        res matches Ok(None) ==> found is Some && found->0@ == id@ && texts(all@).contains(id@)
            && has_entity(old(registry).entity_list(), id@),
        res matches Ok(Some(owner)) ==> found is Some && found->0@ == owner@ && texts(all@).contains(
            owner@,
        ) && final(registry).alias_list() == old(registry).alias_list(),
        res is Err ==> !has_entity(old(registry).entity_list(), id@) && found is None,
        0 <= i < old(registry).alias_list().len() && old(registry).alias_list()[i].alias == alias@ && old(registry).alias_list()[i].entity_type == kind@ ==> (res matches Ok(Some(_))),
{
    let before = old(registry).alias_list();
    let rows = after.alias_list();
    lemma_owner_is_a_row(before, alias@, kind@);
    lemma_owner_is_a_row(rows, alias@, kind@);
    let hit = |a: AliasView| a.alias == alias@;
    crate::rows::lemma_filter_kept(rows, hit);
    assert forall|k: int|
        0 <= k < rows.len() && (#[trigger] rows[k]).alias == alias@ implies texts(all@).contains(
        rows[k].entity_id,
    ) by {
        assert(rows.contains(rows[k]));
        assert(hit(rows[k]));
        let kept = rows.filter(hit);
        assert(kept.contains(rows[k]));
        let n = choose|n: int| 0 <= n < kept.len() && kept[n] == rows[k];
        assert(texts(all@)[n] == rows[k].entity_id);
    }
    if res matches Ok(None) {
        let n = before.len() as int;
        assert(rows[n].alias == alias@ && rows[n].entity_type == kind@);
    }
}

proof fn lemma_owner_is_a_row(aliases: Seq<AliasView>, alias: Seq<char>, kind: Seq<char>)
    ensures
        match alias_owner(aliases, alias, kind) {
            Some(owner) => exists|i: int|
                {
                    &&& 0 <= i < aliases.len()
                    &&& (#[trigger] aliases[i]).alias == alias
                    &&& aliases[i].entity_type == kind
                    &&& aliases[i].entity_id == owner
                    &&& forall|k: int|
                        0 <= k < i ==> (#[trigger] aliases[k]).alias != alias || aliases[k].entity_type
                            != kind
                },
            None => forall|i: int|
                0 <= i < aliases.len() ==> (#[trigger] aliases[i]).alias != alias
                    || aliases[i].entity_type != kind,
        },
    decreases aliases.len(),
{
    if aliases.len() > 0 && !(aliases[0].alias == alias && aliases[0].entity_type == kind) {
        let rest = aliases.drop_first();
        lemma_owner_is_a_row(rest, alias, kind);
        assert forall|k: int| 0 < k < aliases.len() implies #[trigger] aliases[k] == rest[k - 1] by {}
        if alias_owner(rest, alias, kind) is Some {
            let i = choose|i: int|
                {
                    &&& 0 <= i < rest.len()
                    &&& (#[trigger] rest[i]).alias == alias
                    &&& rest[i].entity_type == kind
                    &&& rest[i].entity_id == alias_owner(rest, alias, kind)->0
                    &&& forall|k: int|
                        0 <= k < i ==> (#[trigger] rest[k]).alias != alias || rest[k].entity_type
                            != kind
                };
            assert(aliases[i + 1] == rest[i]);
            assert forall|k: int| 0 <= k < i + 1 implies (#[trigger] aliases[k]).alias != alias
                || aliases[k].entity_type != kind by {
                if k > 0 {
                    assert(aliases[k] == rest[k - 1]);
                }
            }
        }
    }
}

/// A name of a type is registered once: asking for it again names the entity that has it, of another type it is
/// another entity, and what was registered is read by its id.
pub proof fn law_names_are_registered_once(
    registry: &mut EntityRegistry,
    after: &EntityRegistry,
    id: &str,
    name: &str,
    kind: &str,
    now: &str,
    res: Result<String, DbError>,
    read_name: Option<String>,
    read_kind: Option<String>,
    i: int,
)
    requires
        call_ensures(ensure_entity, (registry, id, name, kind, None, now), res),
        old(registry).wf(),
        *final(registry) == *after,
        call_ensures(canonical_name, (after, id), read_name),
        call_ensures(entity_type_of, (after, id), read_kind),
    ensures
        0 <= i < old(registry).entity_list().len() && old(registry).entity_list()[i].canonical_name
            == name@ && old(registry).entity_list()[i].entity_type == kind@ ==> final(registry).entity_list() == old(registry).entity_list() && res is Ok,
        (forall|k: int|
            0 <= k < old(registry).entity_list().len() ==> (#[trigger] old(registry).entity_list()[k]).entity_id != id@ && (old(registry).entity_list()[k].canonical_name
                != name@ || old(registry).entity_list()[k].entity_type != kind@)) ==> {
            &&& res matches Ok(given) && given@ == id@
            &&& read_name matches Some(n) && n@ == name@
            &&& read_kind matches Some(t) && t@ == kind@
            &&& final(registry).entity_list().drop_last() == old(registry).entity_list()
        },
{
    let before = old(registry).entity_list();
    let rows = after.entity_list();
    if 0 <= i < before.len() && before[i].canonical_name == name@ && before[i].entity_type == kind@ {
        assert(name_taken(before, name@, kind@));
    }
    if forall|k: int|
        0 <= k < before.len() ==> (#[trigger] before[k]).entity_id != id@ && (before[k].canonical_name
            != name@ || before[k].entity_type != kind@) {
        assert(!name_taken(before, name@, kind@));
        assert(!has_entity(before, id@));
        let n = before.len() as int;
        assert(rows[n].entity_id == id@);
        assert(rows.drop_last() =~= before);
        assert(forall|k: int| 0 <= k < n ==> #[trigger] rows[k] == before[k]);
    }
}

} // verus!
