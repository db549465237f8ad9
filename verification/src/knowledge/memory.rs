//! In-memory knowledge store.
//!
//! Vector components are carried by the bit pattern of their IEEE 754 single; the similarity of two
//! vectors is computed by the caller and handed back as bits.

use vstd::prelude::*;

use super::edge::{
    array_of, capped_push, capped_union, count_chunk, counted_with, is_counted, json_get,
    json_property, list_value, object_of, one_or_listed, push_capped, string_or_list, union_capped,
    Json, JsonView, Property, ValueView, EVIDENCE_KEY,
    OCCURRED_ON_KEY, OCCURRENCES_KEY,
};
use super::falkor::Fact;
use super::traversal::{discovered, key_views, traverse, FactKey, FactKeyView};
use crate::assoc::{
    assoc, lemma_assoc, lemma_assoc_absent, lemma_assoc_push, lemma_assoc_remove,
    lemma_assoc_update, unique_keys,
};
use crate::knowledge::{
    EntityRecord, EntityRecordView, FactCaps, KnowledgeError, KsCapabilities, Predicate, SpaceView,
    VectorSpace,
};
use crate::reply::is_backend;
use crate::text::{ascending, texts};
use crate::text::{contains_text, copy_opt, copy_texts, insert_ascending, same};

verus! {

/// A stored vector.
#[derive(Debug)]
struct VectorRecord {
    space: VectorSpace,
    id: String,
    doc_id: String,
    vector: Vec<u32>,
}

/// A chunk that mentions an entity.
#[derive(Debug)]
struct MentionRecord {
    chunk_id: String,
    entity_id: String,
}

/// A stored fact.
#[derive(Debug)]
struct FactRecord {
    key: FactKey,
    support: u64,
    evidence: Vec<String>,
    occurrences: Vec<String>,
    counted: Vec<String>,
}

/// The model of a stored vector: its document and components.
pub struct VectorView {
    pub doc_id: Seq<char>,
    pub vector: Seq<u32>,
}

/// The model of a stored fact. Beside the evidence stand the chunks that were counted without a
/// place in it.
pub struct FactStateView {
    pub support: nat,
    pub evidence: Seq<Seq<char>>,
    pub occurrences: Seq<Seq<char>>,
    pub counted: Seq<Seq<char>>,
}

/// Small deterministic store.
#[derive(Debug)]
pub struct InMemoryKnowledge {
    vectors: Vec<VectorRecord>,
    entities: Vec<EntityRecord>,
    mentions: Vec<MentionRecord>,
    facts: Vec<FactRecord>,
    graph_traversal: bool,
}

spec fn vector_pairs(v: Seq<VectorRecord>) -> Seq<((SpaceView, Seq<char>), VectorView)> {
    v.map_values(
        |r: VectorRecord|
            ((r.space@, r.id@), VectorView { doc_id: r.doc_id@, vector: r.vector@ }),
    )
}

spec fn entity_pairs(v: Seq<EntityRecord>) -> Seq<(Seq<char>, EntityRecordView)> {
    v.map_values(|e: EntityRecord| (e.entity_id@, e@))
}

spec fn mention_pairs(v: Seq<MentionRecord>) -> Seq<(Seq<char>, Seq<char>)> {
    v.map_values(|m: MentionRecord| (m.chunk_id@, m.entity_id@))
}

spec fn fact_state(f: FactRecord) -> FactStateView {
    FactStateView {
        support: f.support as nat,
        evidence: texts(f.evidence@),
        occurrences: texts(f.occurrences@),
        counted: texts(f.counted@),
    }
}

spec fn fact_pairs(v: Seq<FactRecord>) -> Seq<(FactKeyView, FactStateView)> {
    v.map_values(|f: FactRecord| (f.key@, fact_state(f)))
}

/// A fact that nothing asserts yet.
pub open spec fn no_assertions() -> FactStateView {
    FactStateView { support: 0, evidence: seq![], occurrences: seq![], counted: seq![] }
}

/// A fact after the assertion by `chunk` on `dates`: its support grows by one exactly where the chunk
/// was not counted before, up to the largest count.
pub open spec fn fact_asserted(
    f: FactStateView,
    chunk: Seq<char>,
    dates: Seq<Seq<char>>,
    caps: FactCaps,
) -> FactStateView {
    let evidence = capped_push(f.evidence, chunk, caps.max_evidence as nat);
    FactStateView {
        support: if is_counted(f.evidence, f.counted, chunk) || f.support == u64::MAX {
            f.support
        } else {
            f.support + 1
        },
        evidence,
        occurrences: capped_union(f.occurrences, dates, caps.max_occurrences as nat),
        counted: counted_with(evidence, f.counted, chunk),
    }
}

/// Two facts merged into one.
pub open spec fn facts_united(a: FactStateView, b: FactStateView) -> FactStateView {
    FactStateView {
        support: if a.support + b.support > u64::MAX {
            u64::MAX as nat
        } else {
            a.support + b.support
        },
        evidence: capped_union(a.evidence, b.evidence, usize::MAX as nat),
        occurrences: capped_union(a.occurrences, b.occurrences, usize::MAX as nat),
        counted: capped_union(a.counted, b.counted, usize::MAX as nat),
    }
}

/// An entity id with `loser` replaced by `winner`.
pub open spec fn replaced(id: Seq<char>, loser: Seq<char>, winner: Seq<char>) -> Seq<char> {
    if id == loser {
        winner
    } else {
        id
    }
}

/// The identity of a fact with `loser` replaced by `winner`.
pub open spec fn replaced_key(k: FactKeyView, loser: Seq<char>, winner: Seq<char>) -> FactKeyView {
    FactKeyView {
        subject: replaced(k.subject, loser, winner),
        predicate: k.predicate,
        object: replaced(k.object, loser, winner),
    }
}

/// The facts of a list with `loser` replaced by `winner`; those that become one are united.
pub open spec fn folded_facts(
    facts: Seq<(FactKeyView, FactStateView)>,
    loser: Seq<char>,
    winner: Seq<char>,
) -> Map<FactKeyView, FactStateView>
    decreases facts.len(),
{
    if facts.len() == 0 {
        Map::empty()
    } else {
        let before = folded_facts(facts.drop_last(), loser, winner);
        let k = replaced_key(facts.last().0, loser, winner);
        before.insert(
            k,
            facts_united(
                if before.contains_key(k) {
                    before[k]
                } else {
                    no_assertions()
                },
                facts.last().1,
            ),
        )
    }
}

/// The vectors after the first `n` of `ids` are stored in a space.
pub open spec fn upserted(
    vectors: Map<(SpaceView, Seq<char>), VectorView>,
    space: SpaceView,
    doc_id: Seq<char>,
    ids: Seq<Seq<char>>,
    values: Seq<Vec<u32>>,
    n: int,
) -> Map<(SpaceView, Seq<char>), VectorView>
    decreases n,
{
    if n <= 0 {
        vectors
    } else {
        upserted(vectors, space, doc_id, ids, values, n - 1).insert(
            (space, ids[n - 1]),
            VectorView { doc_id, vector: values[n - 1]@ },
        )
    }
}

impl InMemoryKnowledge {
    /// The stored vectors by space and id.
    pub closed spec fn vectors(&self) -> Map<(SpaceView, Seq<char>), VectorView> {
        assoc(vector_pairs(self.vectors@))
    }

    /// The stored entities by id.
    pub closed spec fn entities(&self) -> Map<Seq<char>, EntityRecordView> {
        assoc(entity_pairs(self.entities@))
    }

    /// The stored mentions, as pairs of chunk and entity.
    pub closed spec fn mentions(&self) -> Set<(Seq<char>, Seq<char>)> {
        mention_pairs(self.mentions@).to_set()
    }

    /// The stored facts in the order in which they were first asserted.
    pub closed spec fn fact_list(&self) -> Seq<(FactKeyView, FactStateView)> {
        fact_pairs(self.facts@)
    }

    /// The stored facts by identity.
    pub open spec fn facts(&self) -> Map<FactKeyView, FactStateView> {
        assoc(self.fact_list())
    }

    /// Whether the store supports graph traversal.
    pub closed spec fn traverses(&self) -> bool {
        self.graph_traversal
    }

    /// Whether no vector, entity or fact is stored twice.
    pub closed spec fn wf(&self) -> bool {
        &&& unique_keys(vector_pairs(self.vectors@))
        &&& unique_keys(entity_pairs(self.entities@))
        &&& unique_keys(fact_pairs(self.facts@))
    }

    /// Whether all but the vectors is the same in two stores.
    pub open spec fn same_graph(&self, other: &InMemoryKnowledge) -> bool {
        &&& self.entities() == other.entities()
        &&& self.mentions() == other.mentions()
        &&& self.fact_list() == other.fact_list()
        &&& self.traverses() == other.traverses()
    }

    /// An empty store.
    pub fn new() -> (res: InMemoryKnowledge)
        ensures
            res.wf(),
            res.vectors() == Map::<(SpaceView, Seq<char>), VectorView>::empty(),
            res.entities() == Map::<Seq<char>, EntityRecordView>::empty(),
            res.mentions() == Set::<(Seq<char>, Seq<char>)>::empty(),
            res.fact_list() == Seq::<(FactKeyView, FactStateView)>::empty(),
            res.traverses(),
    {
        let res = InMemoryKnowledge {
            vectors: Vec::new(),
            entities: Vec::new(),
            mentions: Vec::new(),
            facts: Vec::new(),
            graph_traversal: true,
        };
        assert(mention_pairs(res.mentions@).to_set() =~= Set::empty());
        assert(fact_pairs(res.facts@) =~= Seq::empty());
        res
    }

    /// An empty store with graph traversal disabled.
    pub fn without_graph() -> (res: InMemoryKnowledge)
        ensures
            res.wf(),
            res.vectors() == Map::<(SpaceView, Seq<char>), VectorView>::empty(),
            res.entities() == Map::<Seq<char>, EntityRecordView>::empty(),
            res.mentions() == Set::<(Seq<char>, Seq<char>)>::empty(),
            res.fact_list() == Seq::<(FactKeyView, FactStateView)>::empty(),
            !res.traverses(),
    {
        let mut res = InMemoryKnowledge::new();
        res.graph_traversal = false;
        res
    }

    /// Capability declaration.
    pub fn capabilities(&self) -> (res: KsCapabilities)
        ensures
            res == (KsCapabilities { filtered_ann: false, graph_traversal: self.traverses() }),
    {
        KsCapabilities { filtered_ann: false, graph_traversal: self.graph_traversal }
    }

    fn vector_index(&self, space: &VectorSpace, id: &str) -> (res: Option<usize>)
        requires
            self.wf(),
        ensures
            match res {
                Some(i) => {
                    &&& i < self.vectors@.len()
                    &&& vector_pairs(self.vectors@)[i as int].0 == (space@, id@)
                    &&& self.vectors().contains_key((space@, id@))
                },
                None => {
                    &&& forall|i: int|
                        0 <= i < vector_pairs(self.vectors@).len() ==> (
                        #[trigger] vector_pairs(self.vectors@)[i]).0 != (space@, id@)
                    &&& !self.vectors().contains_key((space@, id@))
                },
            },
    {
        let ghost pairs = vector_pairs(self.vectors@);
        proof {
            lemma_assoc(pairs);
        }
        let mut i: usize = 0;
        while i < self.vectors.len()
            invariant
                i <= self.vectors@.len(),
                self.wf(),
                pairs == vector_pairs(self.vectors@),
                forall|j: int| 0 <= j < i ==> (#[trigger] pairs[j]).0 != (space@, id@),
            decreases self.vectors@.len() - i,
        {
            let r = &self.vectors[i];
            assert(pairs[i as int].0 == (r.space@, r.id@));
            if r.space.is(space) && same(r.id.as_str(), id) {
                proof {
                    lemma_assoc(pairs);
                }
                return Some(i);
            }
            i = i + 1;
        }
        proof {
            lemma_assoc_absent(pairs, (space@, id@));
        }
        None
    }

    fn put_vector(&mut self, space: &VectorSpace, doc_id: &str, id: &str, vector: &Vec<u32>)
        requires
            old(self).wf(),
        ensures
            final(self).wf(),
            final(self).vectors() == old(self).vectors().insert(
                (space@, id@),
                VectorView { doc_id: doc_id@, vector: vector@ },
            ),
            final(self).same_graph(old(self)),
    {
        let ghost pairs = vector_pairs(self.vectors@);
        let record = VectorRecord {
            space: space.clone(),
            id: id.to_owned(),
            doc_id: doc_id.to_owned(),
            vector: copy_bits(vector),
        };
        let ghost pair = (
            (space@, id@),
            VectorView { doc_id: doc_id@, vector: vector@ },
        );
        match self.vector_index(space, id) {
            Some(i) => {
                self.vectors.set(i, record);
                proof {
                    lemma_assoc_update(pairs, i as int, pair.1);
                    assert(vector_pairs(self.vectors@) =~= pairs.update(i as int, pair));
                }
            },
            None => {
                self.vectors.push(record);
                proof {
                    lemma_assoc_push(pairs, pair.0, pair.1);
                    assert(vector_pairs(self.vectors@) =~= pairs.push(pair));
                }
            },
        }
    }

    /// Stores vectors in a space, each under its id; a repeated id keeps its last vector. Lists of
    /// different length are an error that changes nothing.
    pub fn upsert_vectors(
        &mut self,
        space: &VectorSpace,
        doc_id: &str,
        ids: &Vec<String>,
        vectors: &Vec<Vec<u32>>,
    ) -> (res: Result<(), KnowledgeError>)
        requires
            old(self).wf(),
        ensures
            final(self).wf(),
            final(self).same_graph(old(self)),
            if ids@.len() == vectors@.len() {
                &&& res is Ok
                &&& final(self).vectors() == upserted(
                    old(self).vectors(),
                    space@,
                    doc_id@,
                    texts(ids@),
                    vectors@,
                    ids@.len() as int,
                )
            } else {
                &&& res is Err
                &&& is_backend(res->Err_0, "vector id/value length mismatch"@)
                &&& final(self).vectors() == old(self).vectors()
            },
    {
        if ids.len() != vectors.len() {
            return Err(KnowledgeError::Backend("vector id/value length mismatch".to_owned()));
        }
        let mut i: usize = 0;
        while i < ids.len()
            invariant
                i <= ids@.len() == vectors@.len(),
                self.wf(),
                self.same_graph(old(self)),
                self.vectors() == upserted(
                    old(self).vectors(),
                    space@,
                    doc_id@,
                    texts(ids@),
                    vectors@,
                    i as int,
                ),
            decreases ids@.len() - i,
        {
            assert(texts(ids@)[i as int] == ids@[i as int]@);
            self.put_vector(space, doc_id, ids[i].as_str(), &vectors[i]);
            i = i + 1;
        }
        Ok(())
    }

    /// Whether `id` has a vector in `space`.
    pub fn has_vector(&self, space: &VectorSpace, id: &str) -> (res: bool)
        requires
            self.wf(),
        ensures
            res == self.vectors().contains_key((space@, id@)),
    {
        self.vector_index(space, id).is_some()
    }

    fn drop_vector(&mut self, space: &VectorSpace, id: &str)
        requires
            old(self).wf(),
        ensures
            final(self).wf(),
            final(self).vectors() == old(self).vectors().remove((space@, id@)),
            final(self).same_graph(old(self)),
    {
        let ghost pairs = vector_pairs(self.vectors@);
        match self.vector_index(space, id) {
            Some(i) => {
                let _ = self.vectors.remove(i);
                proof {
                    lemma_assoc_remove(pairs, i as int);
                    assert(vector_pairs(self.vectors@) =~= pairs.remove(i as int));
                }
            },
            None => {
                assert(self.vectors().remove((space@, id@)) =~= self.vectors());
            },
        }
    }

    fn entity_index(&self, id: &str) -> (res: Option<usize>)
        requires
            self.wf(),
        ensures
            match res {
                Some(i) => {
                    &&& i < self.entities@.len()
                    &&& entity_pairs(self.entities@)[i as int].0 == id@
                    &&& self.entities().contains_key(id@)
                },
                None => {
                    &&& forall|i: int|
                        0 <= i < entity_pairs(self.entities@).len() ==> (
                        #[trigger] entity_pairs(self.entities@)[i]).0 != id@
                    &&& !self.entities().contains_key(id@)
                },
            },
    {
        let ghost pairs = entity_pairs(self.entities@);
        let mut i: usize = 0;
        while i < self.entities.len()
            invariant
                i <= self.entities@.len(),
                self.wf(),
                pairs == entity_pairs(self.entities@),
                forall|j: int| 0 <= j < i ==> (#[trigger] pairs[j]).0 != id@,
            decreases self.entities@.len() - i,
        {
            assert(pairs[i as int].0 == self.entities@[i as int].entity_id@);
            if same(self.entities[i].entity_id.as_str(), id) {
                proof {
                    lemma_assoc(pairs);
                }
                return Some(i);
            }
            i = i + 1;
        }
        proof {
            lemma_assoc_absent(pairs, id@);
        }
        None
    }

    /// Stores an entity under its id, replacing what was there.
    pub fn upsert_entity(&mut self, entity: &EntityRecord)
        requires
            old(self).wf(),
        ensures
            final(self).wf(),
            final(self).entities() == old(self).entities().insert(entity.entity_id@, entity@),
            final(self).vectors() == old(self).vectors(),
            final(self).mentions() == old(self).mentions(),
            final(self).fact_list() == old(self).fact_list(),
            final(self).traverses() == old(self).traverses(),
    {
        let ghost pairs = entity_pairs(self.entities@);
        let record = EntityRecord {
            entity_id: entity.entity_id.clone(),
            canonical_name: entity.canonical_name.clone(),
            entity_type: entity.entity_type,
            subtype: copy_opt(&entity.subtype),
        };
        let ghost pair = (entity.entity_id@, entity@);
        match self.entity_index(entity.entity_id.as_str()) {
            Some(i) => {
                self.entities.set(i, record);
                proof {
                    lemma_assoc_update(pairs, i as int, pair.1);
                    assert(entity_pairs(self.entities@) =~= pairs.update(i as int, pair));
                }
            },
            None => {
                self.entities.push(record);
                proof {
                    lemma_assoc_push(pairs, pair.0, pair.1);
                    assert(entity_pairs(self.entities@) =~= pairs.push(pair));
                }
            },
        }
    }

    fn has_mention(&self, chunk_id: &str, entity_id: &str) -> (res: bool)
        ensures
            res == self.mentions().contains((chunk_id@, entity_id@)),
    {
        let ghost pairs = mention_pairs(self.mentions@);
        let mut i: usize = 0;
        while i < self.mentions.len()
            invariant
                i <= self.mentions@.len(),
                pairs == mention_pairs(self.mentions@),
                forall|j: int| 0 <= j < i ==> #[trigger] pairs[j] != (chunk_id@, entity_id@),
            decreases self.mentions@.len() - i,
        {
            let m = &self.mentions[i];
            assert(pairs[i as int] == (m.chunk_id@, m.entity_id@));
            if same(m.chunk_id.as_str(), chunk_id) && same(m.entity_id.as_str(), entity_id) {
                assert(pairs.contains((chunk_id@, entity_id@)));
                return true;
            }
            i = i + 1;
        }
        false
    }

    /// Records that a chunk mentions an entity; a mention is recorded once.
    pub fn link_mention(&mut self, chunk_id: &str, entity_id: &str)
        requires
            old(self).wf(),
        ensures
            final(self).wf(),
            final(self).mentions() == old(self).mentions().insert((chunk_id@, entity_id@)),
            final(self).vectors() == old(self).vectors(),
            final(self).entities() == old(self).entities(),
            final(self).fact_list() == old(self).fact_list(),
            final(self).traverses() == old(self).traverses(),
    {
        let ghost pairs = mention_pairs(self.mentions@);
        if !self.has_mention(chunk_id, entity_id) {
            self.mentions.push(
                MentionRecord { chunk_id: chunk_id.to_owned(), entity_id: entity_id.to_owned() },
            );
            proof {
                assert(mention_pairs(self.mentions@) =~= pairs.push((chunk_id@, entity_id@)));
                crate::text::lemma_push_to_set(pairs, (chunk_id@, entity_id@));
            }
        } else {
            assert(self.mentions().insert((chunk_id@, entity_id@)) =~= self.mentions());
        }
    }
}

fn copy_bits(v: &Vec<u32>) -> (res: Vec<u32>)
    ensures
        res@ == v@,
{
    let mut res: Vec<u32> = Vec::new();
    let mut i: usize = 0;
    while i < v.len()
        invariant
            i <= v@.len(),
            res@ == v@.take(i as int),
        decreases v@.len() - i,
    {
        res.push(v[i]);
        i = i + 1;
    }
    assert(v@.take(i as int) =~= v@);
    res
}


impl FactRecord {
    fn matches(&self, subject_id: &str, predicate: Predicate, object_id: &str) -> (res: bool)
        ensures
            res == (self.key@ == (FactKeyView {
                subject: subject_id@,
                predicate,
                object: object_id@,
            })),
    {
        self.key.predicate == predicate && same(self.key.subject_id.as_str(), subject_id) && same(
            self.key.object_id.as_str(),
            object_id,
        )
    }
}

fn fact_index(facts: &Vec<FactRecord>, subject_id: &str, predicate: Predicate, object_id: &str) -> (res: Option<
    usize,
>)
    requires
        unique_keys(fact_pairs(facts@)),
    ensures
        ({
            let k = FactKeyView { subject: subject_id@, predicate, object: object_id@ };
            match res {
                Some(i) => {
                    &&& i < facts@.len()
                    &&& fact_pairs(facts@)[i as int].0 == k
                    &&& assoc(fact_pairs(facts@)).contains_key(k)
                    &&& assoc(fact_pairs(facts@))[k] == fact_state(facts@[i as int])
                },
                None => {
                    &&& forall|i: int|
                        0 <= i < fact_pairs(facts@).len() ==> (#[trigger] fact_pairs(
                            facts@,
                        )[i]).0 != k
                    &&& !assoc(fact_pairs(facts@)).contains_key(k)
                },
            }
        }),
{
    let ghost pairs = fact_pairs(facts@);
    let ghost k = FactKeyView { subject: subject_id@, predicate, object: object_id@ };
    let mut i: usize = 0;
    while i < facts.len()
        invariant
            i <= facts@.len(),
            pairs == fact_pairs(facts@),
            unique_keys(pairs),
            k == (FactKeyView { subject: subject_id@, predicate, object: object_id@ }),
            forall|j: int| 0 <= j < i ==> (#[trigger] pairs[j]).0 != k,
        decreases facts@.len() - i,
    {
        assert(pairs[i as int].0 == facts@[i as int].key@);
        if facts[i].matches(subject_id, predicate, object_id) {
            proof {
                lemma_assoc(pairs);
            }
            return Some(i);
        }
        i = i + 1;
    }
    proof {
        lemma_assoc_absent(pairs, k);
    }
    None
}

fn put_fact(facts: &mut Vec<FactRecord>, record: FactRecord, at: Option<usize>)
    requires
        unique_keys(fact_pairs(old(facts)@)),
        match at {
            Some(i) => i < old(facts)@.len() && old(facts)@[i as int].key@ == record.key@,
            None => forall|i: int|
                0 <= i < fact_pairs(old(facts)@).len() ==> (#[trigger] fact_pairs(old(facts)@)[i]).0
                    != record.key@,
        },
    ensures
        unique_keys(fact_pairs(final(facts)@)),
        assoc(fact_pairs(final(facts)@)) == assoc(fact_pairs(old(facts)@)).insert(
            record.key@,
            fact_state(record),
        ),
{
    let ghost pairs = fact_pairs(facts@);
    let ghost pair = (record.key@, fact_state(record));
    match at {
        Some(i) => {
            assert(pairs[i as int].0 == record.key@);
            facts.set(i, record);
            proof {
                lemma_assoc_update(pairs, i as int, pair.1);
                assert(fact_pairs(facts@) =~= pairs.update(i as int, pair));
            }
        },
        None => {
            facts.push(record);
            proof {
                lemma_assoc_push(pairs, pair.0, pair.1);
                assert(fact_pairs(facts@) =~= pairs.push(pair));
            }
        },
    }
}

fn substituted(id: &String, loser: &str, winner: &str) -> (res: String)
    ensures
        res@ == replaced(id@, loser@, winner@),
{
    if same(id.as_str(), loser) {
        winner.to_owned()
    } else {
        id.clone()
    }
}

fn fold_facts(facts: &Vec<FactRecord>, loser: &str, winner: &str) -> (res: Vec<FactRecord>)
    ensures
        unique_keys(fact_pairs(res@)),
        assoc(fact_pairs(res@)) == folded_facts(fact_pairs(facts@), loser@, winner@),
{
    let ghost pairs = fact_pairs(facts@);
    let mut out: Vec<FactRecord> = Vec::new();
    let mut i: usize = 0;
    assert(fact_pairs(out@) =~= seq![]);
    while i < facts.len()
        invariant
            i <= facts@.len(),
            pairs == fact_pairs(facts@),
            unique_keys(fact_pairs(out@)),
            assoc(fact_pairs(out@)) == folded_facts(pairs.take(i as int), loser@, winner@),
        decreases facts@.len() - i,
    {
        let f = &facts[i];
        assert(pairs.take(i + 1).drop_last() =~= pairs.take(i as int));
        assert(pairs[i as int] == (f.key@, fact_state(*f)));
        let subject_id = substituted(&f.key.subject_id, loser, winner);
        let object_id = substituted(&f.key.object_id, loser, winner);
        let at = fact_index(&out, subject_id.as_str(), f.key.predicate, object_id.as_str());
        let (support, mut evidence, mut occurrences, mut counted) = match at {
            Some(k) => (
                out[k].support,
                copy_texts(&out[k].evidence),
                copy_texts(&out[k].occurrences),
                copy_texts(&out[k].counted),
            ),
            None => (0u64, Vec::new(), Vec::new(), Vec::new()),
        };
        let ghost known = FactStateView {
            support: support as nat,
            evidence: texts(evidence@),
            occurrences: texts(occurrences@),
            counted: texts(counted@),
        };
        proof {
            if at is None {
                assert(texts(evidence@) =~= seq![]);
                assert(texts(occurrences@) =~= seq![]);
                assert(texts(counted@) =~= seq![]);
                assert(known == no_assertions());
            }
        }
        union_capped(&mut evidence, &f.evidence, usize::MAX);
        union_capped(&mut occurrences, &f.occurrences, usize::MAX);
        union_capped(&mut counted, &f.counted, usize::MAX);
        let record = FactRecord {
            key: FactKey { subject_id, predicate: f.key.predicate, object_id },
            support: support.saturating_add(f.support),
            evidence,
            occurrences,
            counted,
        };
        assert(fact_state(record) == facts_united(known, fact_state(*f)));
        assert(record.key@ == replaced_key(f.key@, loser@, winner@));
        proof {
            if let Some(k) = at {
                assert(fact_pairs(out@)[k as int].0 == out@[k as int].key@);
            }
        }
        put_fact(&mut out, record, at);
        i = i + 1;
    }
    assert(pairs.take(i as int) =~= pairs);
    out
}

/// The mentions with `loser` replaced by `winner`.
pub open spec fn folded_mentions(
    mentions: Set<(Seq<char>, Seq<char>)>,
    loser: Seq<char>,
    winner: Seq<char>,
) -> Set<(Seq<char>, Seq<char>)> {
    mentions.map(|m: (Seq<char>, Seq<char>)| (m.0, replaced(m.1, loser, winner)))
}

fn fold_mentions(mentions: &Vec<MentionRecord>, loser: &str, winner: &str) -> (res: Vec<MentionRecord>)
    ensures
        mention_pairs(res@).to_set() == folded_mentions(
            mention_pairs(mentions@).to_set(),
            loser@,
            winner@,
        ),
{
    let ghost pairs = mention_pairs(mentions@);
    let ghost f = |m: (Seq<char>, Seq<char>)| (m.0, replaced(m.1, loser@, winner@));
    let mut out: Vec<MentionRecord> = Vec::new();
    let mut i: usize = 0;
    while i < mentions.len()
        invariant
            i <= mentions@.len(),
            pairs == mention_pairs(mentions@),
            f == (|m: (Seq<char>, Seq<char>)| (m.0, replaced(m.1, loser@, winner@))),
            out@.len() == i,
            forall|j: int| 0 <= j < i ==> #[trigger] mention_pairs(out@)[j] == f(pairs[j]),
        decreases mentions@.len() - i,
    {
        let m = &mentions[i];
        let ghost before = mention_pairs(out@);
        out.push(
            MentionRecord {
                chunk_id: m.chunk_id.clone(),
                entity_id: substituted(&m.entity_id, loser, winner),
            },
        );
        assert(pairs[i as int] == (m.chunk_id@, m.entity_id@));
        assert(mention_pairs(out@).len() == i + 1);
        assert(mention_pairs(out@)[i as int] == f(pairs[i as int]));
        assert forall|j: int| 0 <= j < i implies #[trigger] mention_pairs(out@)[j] == before[j] by {}
        i = i + 1;
    }
    proof {
        let after = mention_pairs(out@);
        let image = folded_mentions(pairs.to_set(), loser@, winner@);
        assert forall|p: (Seq<char>, Seq<char>)| after.to_set().contains(p) implies image.contains(
            p,
        ) by {
            let j = choose|j: int| 0 <= j < after.len() && after[j] == p;
            assert(pairs.contains(pairs[j]));
            assert(pairs.to_set().contains(pairs[j]));
            assert(f(pairs[j]) == p);
        }
        assert forall|p: (Seq<char>, Seq<char>)| image.contains(p) implies after.to_set().contains(
            p,
        ) by {
            let q = choose|q: (Seq<char>, Seq<char>)| pairs.to_set().contains(q) && f(q) == p;
            let j = choose|j: int| 0 <= j < pairs.len() && pairs[j] == q;
            assert(after[j] == p);
        }
        assert(after.to_set() =~= image);
    }
    out
}

impl InMemoryKnowledge {
    /// Folds `loser` into `winner`: its mentions and facts move over, facts that become one are
    /// united, and its record goes. Folding an entity into itself changes nothing.
    pub fn fold_entity(&mut self, loser: &str, winner: &str)
        requires
            old(self).wf(),
        ensures
            final(self).wf(),
            final(self).vectors() == old(self).vectors(),
            final(self).traverses() == old(self).traverses(),
            if loser@ == winner@ {
                final(self).same_graph(old(self))
            } else {
                &&& final(self).entities() == old(self).entities().remove(loser@)
                &&& final(self).mentions() == folded_mentions(
                    old(self).mentions(),
                    loser@,
                    winner@,
                )
                &&& final(self).facts() == folded_facts(old(self).fact_list(), loser@, winner@)
            },
    {
        if same(loser, winner) {
            return ;
        }
        let ghost pairs = entity_pairs(self.entities@);
        match self.entity_index(loser) {
            Some(i) => {
                let _ = self.entities.remove(i);
                proof {
                    lemma_assoc_remove(pairs, i as int);
                    assert(entity_pairs(self.entities@) =~= pairs.remove(i as int));
                }
            },
            None => {
                assert(self.entities().remove(loser@) =~= self.entities());
            },
        }
        self.mentions = fold_mentions(&self.mentions, loser, winner);
        self.facts = fold_facts(&self.facts, loser, winner);
    }

    /// Merges the assertion of a fact by a chunk. Both endpoints must be stored; where one is not,
    /// nothing changes.
    pub fn merge_fact(
        &mut self,
        subject_id: &str,
        predicate: Predicate,
        object_id: &str,
        evidence_chunk: &str,
        properties: Option<&Json>,
        caps: FactCaps,
    ) -> (res: Result<(), KnowledgeError>)
        requires
            old(self).wf(),
            properties is Some ==> properties->0.wf(),
        ensures
            final(self).wf(),
            final(self).vectors() == old(self).vectors(),
            final(self).entities() == old(self).entities(),
            final(self).mentions() == old(self).mentions(),
            final(self).traverses() == old(self).traverses(),
            if old(self).entities().contains_key(subject_id@) && old(self).entities().contains_key(
                object_id@,
            ) {
                let k = FactKeyView { subject: subject_id@, predicate, object: object_id@ };
                let dates = match properties {
                    Some(j) => one_or_listed(json_property(j@, OCCURRED_ON_KEY@)),
                    None => seq![],
                };
                &&& res is Ok
                &&& final(self).facts() == old(self).facts().insert(
                    k,
                    fact_asserted(
                        if old(self).facts().contains_key(k) {
                            old(self).facts()[k]
                        } else {
                            no_assertions()
                        },
                        evidence_chunk@,
                        dates,
                        caps,
                    ),
                )
            } else {
                &&& res is Err
                &&& is_backend(res->Err_0, "fact endpoint is missing"@)
                &&& final(self).fact_list() == old(self).fact_list()
            },
    {
        if self.entity_index(subject_id).is_none() || self.entity_index(object_id).is_none() {
            return Err(KnowledgeError::Backend("fact endpoint is missing".to_owned()));
        }
        let at = fact_index(&self.facts, subject_id, predicate, object_id);
        let (support, mut evidence, mut occurrences, mut counted) = match at {
            Some(k) => (
                self.facts[k].support,
                copy_texts(&self.facts[k].evidence),
                copy_texts(&self.facts[k].occurrences),
                copy_texts(&self.facts[k].counted),
            ),
            None => (0u64, Vec::new(), Vec::new(), Vec::new()),
        };
        let ghost known = FactStateView {
            support: support as nat,
            evidence: texts(evidence@),
            occurrences: texts(occurrences@),
            counted: texts(counted@),
        };
        proof {
            if at is None {
                assert(texts(evidence@) =~= seq![]);
                assert(texts(occurrences@) =~= seq![]);
                assert(texts(counted@) =~= seq![]);
            }
        }
        let new_support = if contains_text(&evidence, evidence_chunk) || contains_text(
            &counted,
            evidence_chunk,
        ) {
            support
        } else {
            support.saturating_add(1)
        };
        let _ = push_capped(&mut evidence, evidence_chunk, caps.max_evidence);
        count_chunk(&evidence, &mut counted, evidence_chunk);
        let dates = match properties {
            Some(j) => string_or_list(json_get(j, OCCURRED_ON_KEY)),
            None => {
                let none: Vec<String> = Vec::new();
                assert(texts(none@) =~= seq![]);
                none
            },
        };
        union_capped(&mut occurrences, &dates, caps.max_occurrences);
        let record = FactRecord {
            key: FactKey {
                subject_id: subject_id.to_owned(),
                predicate,
                object_id: object_id.to_owned(),
            },
            support: new_support,
            evidence,
            occurrences,
            counted,
        };
        assert(fact_state(record) == fact_asserted(known, evidence_chunk@, texts(dates@), caps));
        proof {
            if let Some(k) = at {
                assert(fact_pairs(self.facts@)[k as int].0 == self.facts@[k as int].key@);
            }
        }
        put_fact(&mut self.facts, record, at);
        Ok(())
    }

    /// The chunks that mention any of `ids`, each once and in ascending order.
    pub fn chunks_for_entities(&self, ids: &Vec<String>) -> (res: Vec<String>)
        ensures
            ascending(texts(res@)),
            forall|c: Seq<char>| #[trigger]
                texts(res@).contains(c) <==> exists|e: Seq<char>| #[trigger]
                    texts(ids@).contains(e) && self.mentions().contains((c, e)),
    {
        let ghost pairs = mention_pairs(self.mentions@);
        let mut res: Vec<String> = Vec::new();
        let mut i: usize = 0;
        assert(texts(res@) =~= seq![]);
        while i < self.mentions.len()
            invariant
                i <= self.mentions@.len(),
                pairs == mention_pairs(self.mentions@),
                ascending(texts(res@)),
                forall|c: Seq<char>| #[trigger]
                    texts(res@).contains(c) <==> exists|j: int|
                        0 <= j < i && (#[trigger] pairs[j]).0 == c && texts(ids@).contains(
                            pairs[j].1,
                        ),
            decreases self.mentions@.len() - i,
        {
            let m = &self.mentions[i];
            assert(pairs[i as int] == (m.chunk_id@, m.entity_id@));
            let ghost before = texts(res@);
            if contains_text(ids, m.entity_id.as_str()) {
                insert_ascending(&mut res, m.chunk_id.clone());
            }
            proof {
                assert forall|c: Seq<char>| #[trigger]
                    texts(res@).contains(c) <==> exists|j: int|
                        0 <= j < i + 1 && (#[trigger] pairs[j]).0 == c && texts(ids@).contains(
                            pairs[j].1,
                        ) by {
                    assert(before.contains(c) <==> exists|j: int|
                        0 <= j < i && (#[trigger] pairs[j]).0 == c && texts(ids@).contains(
                            pairs[j].1,
                        ));
                    if texts(res@).contains(c) {
                        if before.contains(c) {
                            let j = choose|j: int|
                                0 <= j < i && (#[trigger] pairs[j]).0 == c && texts(ids@).contains(
                                    pairs[j].1,
                                );
                            assert(j < i + 1 && pairs[j].0 == c);
                        } else {
                            assert(pairs[i as int].0 == c);
                        }
                    }
                    if exists|j: int|
                        0 <= j < i + 1 && (#[trigger] pairs[j]).0 == c && texts(ids@).contains(
                            pairs[j].1,
                        ) {
                        let j = choose|j: int|
                            0 <= j < i + 1 && (#[trigger] pairs[j]).0 == c && texts(
                                ids@,
                            ).contains(pairs[j].1);
                        if j < i {
                            assert(before.contains(c));
                        }
                    }
                }
            }
            i = i + 1;
        }
        proof {
            assert forall|c: Seq<char>| #[trigger]
                texts(res@).contains(c) <==> exists|e: Seq<char>| #[trigger]
                    texts(ids@).contains(e) && self.mentions().contains((c, e)) by {
                if texts(res@).contains(c) {
                    let j = choose|j: int|
                        0 <= j < i && (#[trigger] pairs[j]).0 == c && texts(ids@).contains(
                            pairs[j].1,
                        );
                    assert(pairs.contains(pairs[j]));
                    assert(self.mentions().contains((c, pairs[j].1)));
                }
                if exists|e: Seq<char>| #[trigger]
                    texts(ids@).contains(e) && self.mentions().contains((c, e)) {
                    let e = choose|e: Seq<char>| #[trigger]
                        texts(ids@).contains(e) && self.mentions().contains((c, e));
                    assert(pairs.contains((c, e)));
                    let j = choose|j: int| 0 <= j < pairs.len() && pairs[j] == (c, e);
                    assert(pairs[j].0 == c && texts(ids@).contains(pairs[j].1));
                }
            }
        }
        res
    }
}


/// Whether a chunk has a vector that belongs to a document.
pub open spec fn chunk_of_doc(
    vectors: Map<(SpaceView, Seq<char>), VectorView>,
    chunk_id: Seq<char>,
    doc_id: Seq<char>,
) -> bool {
    exists|model: Seq<char>|
        vectors.contains_key((Some(model), chunk_id)) && (#[trigger] vectors[(
            Some(model),
            chunk_id,
        )]).doc_id == doc_id
}

/// Whether `after` are the vectors of `before` without those of a document.
pub open spec fn purged_vectors(
    before: Map<(SpaceView, Seq<char>), VectorView>,
    after: Map<(SpaceView, Seq<char>), VectorView>,
    doc_id: Seq<char>,
) -> bool {
    &&& forall|k: (SpaceView, Seq<char>)| #[trigger]
        after.contains_key(k) <==> before.contains_key(k) && before[k].doc_id != doc_id
    &&& forall|k: (SpaceView, Seq<char>)| #[trigger]
        after.contains_key(k) ==> after[k] == before[k]
}

/// Whether `after` are the mentions of `before` without those by chunks of a document.
pub open spec fn purged_mentions(
    vectors: Map<(SpaceView, Seq<char>), VectorView>,
    before: Set<(Seq<char>, Seq<char>)>,
    after: Set<(Seq<char>, Seq<char>)>,
    doc_id: Seq<char>,
) -> bool {
    forall|c: Seq<char>, e: Seq<char>| #[trigger]
        after.contains((c, e)) <==> before.contains((c, e)) && !chunk_of_doc(vectors, c, doc_id)
}

/// A vector to compare with a query.
#[derive(Debug)]
pub struct Neighbor {
    /// The id of the vector.
    pub id: String,
    /// The bits of its components.
    pub vector: Vec<u32>,
}

impl InMemoryKnowledge {
    fn drop_doc_vectors(&mut self, doc_id: &str) -> (deleted: Vec<String>)
        requires
            old(self).wf(),
        ensures
            final(self).wf(),
            final(self).same_graph(old(self)),
            forall|k: (SpaceView, Seq<char>)| #[trigger]
                final(self).vectors().contains_key(k) <==> old(self).vectors().contains_key(k)
                    && old(self).vectors()[k].doc_id != doc_id@,
            forall|k: (SpaceView, Seq<char>)| #[trigger]
                final(self).vectors().contains_key(k) ==> final(self).vectors()[k] == old(self).vectors()[k],
            forall|c: Seq<char>| #[trigger]
                texts(deleted@).contains(c) <==> chunk_of_doc(old(self).vectors(), c, doc_id@),
    {
        let ghost before = self.vectors();
        let mut deleted: Vec<String> = Vec::new();
        let mut i: usize = 0;
        proof {
            lemma_assoc(vector_pairs(self.vectors@));
        }
        while i < self.vectors.len()
            invariant
                i <= self.vectors@.len(),
                self.wf(),
                self.same_graph(old(self)),
                before == old(self).vectors(),
                forall|j: int|
                    0 <= j < i ==> (#[trigger] vector_pairs(self.vectors@)[j]).1.doc_id != doc_id@,
                forall|k: (SpaceView, Seq<char>)| #[trigger]
                    self.vectors().contains_key(k) ==> before.contains_key(k) && self.vectors()[k]
                        == before[k],
                forall|k: (SpaceView, Seq<char>)|
                    #![trigger before.contains_key(k)]
                    before.contains_key(k) && !self.vectors().contains_key(k) ==> before[k].doc_id
                        == doc_id@ && (k.0 is Some ==> texts(deleted@).contains(k.1)),
                forall|c: Seq<char>| #[trigger]
                    texts(deleted@).contains(c) ==> chunk_of_doc(before, c, doc_id@),
            decreases self.vectors@.len() - i,
        {
            let ghost pairs = vector_pairs(self.vectors@);
            let ghost listed = texts(deleted@);
            proof {
                lemma_assoc(pairs);
            }
            let r = &self.vectors[i];
            let ghost key = (r.space@, r.id@);
            assert(pairs[i as int] == (
                key,
                VectorView { doc_id: r.doc_id@, vector: r.vector@ },
            ));
            assert(self.vectors().contains_key(key));
            if same(r.doc_id.as_str(), doc_id) {
                if let VectorSpace::Chunks { model_id } = &r.space {
                    deleted.push(r.id.clone());
                    proof {
                        assert(texts(deleted@) =~= listed.push(r.id@));
                        crate::text::lemma_push_contains(listed, r.id@);
                        assert(before[(Some(model_id@), r.id@)].doc_id == doc_id@);
                        assert(chunk_of_doc(before, r.id@, doc_id@));
                    }
                }
                let _ = self.vectors.remove(i);
                proof {
                    lemma_assoc_remove(pairs, i as int);
                    assert(vector_pairs(self.vectors@) =~= pairs.remove(i as int));
                    assert(key.0 is Some ==> texts(deleted@).contains(key.1));
                    assert forall|j: int| 0 <= j < i implies (#[trigger] vector_pairs(
                        self.vectors@,
                    )[j]).1.doc_id != doc_id@ by {
                        assert(vector_pairs(self.vectors@)[j] == pairs[j]);
                    }
                }
            } else {
                i = i + 1;
            }
        }
        proof {
            let pairs = vector_pairs(self.vectors@);
            lemma_assoc(pairs);
            assert forall|k: (SpaceView, Seq<char>)| #[trigger]
                self.vectors().contains_key(k) implies before[k].doc_id != doc_id@ by {
                let j = choose|j: int| 0 <= j < pairs.len() && (#[trigger] pairs[j]).0 == k;
                assert(pairs[j].1.doc_id != doc_id@);
            }
            assert forall|k: (SpaceView, Seq<char>)| #[trigger]
                self.vectors().contains_key(k) <==> before.contains_key(k) && before[k].doc_id
                    != doc_id@ by {
                if before.contains_key(k) && before[k].doc_id != doc_id@ {
                    assert(self.vectors().contains_key(k));
                }
            }
            assert forall|c: Seq<char>| #[trigger]
                texts(deleted@).contains(c) <==> chunk_of_doc(before, c, doc_id@) by {
                if chunk_of_doc(before, c, doc_id@) {
                    let model = choose|model: Seq<char>|
                        before.contains_key((Some(model), c)) && (#[trigger] before[(
                            Some(model),
                            c,
                        )]).doc_id == doc_id@;
                    let k = (Some(model), c);
                    assert(before.contains_key(k));
                    assert(!self.vectors().contains_key(k));
                }
            }
        }
        deleted
    }

    /// Deletes every vector of a document, and every mention by a chunk whose vector it was.
    pub fn delete_doc(&mut self, doc_id: &str)
        requires
            old(self).wf(),
        ensures
            final(self).wf(),
            final(self).entities() == old(self).entities(),
            final(self).fact_list() == old(self).fact_list(),
            final(self).traverses() == old(self).traverses(),
            purged_vectors(old(self).vectors(), final(self).vectors(), doc_id@),
            purged_mentions(
                old(self).vectors(),
                old(self).mentions(),
                final(self).mentions(),
                doc_id@,
            ),
    {
        let deleted = self.drop_doc_vectors(doc_id);
        let ghost stripped = self.vectors();
        let ghost before = mention_pairs(self.mentions@);
        let mut kept: Vec<MentionRecord> = Vec::new();
        let mut i: usize = 0;
        assert(mention_pairs(kept@) =~= seq![]);
        while i < self.mentions.len()
            invariant
                i <= self.mentions@.len(),
                stripped == self.vectors(),
                before == mention_pairs(self.mentions@),
                forall|p: (Seq<char>, Seq<char>)| #[trigger]
                    mention_pairs(kept@).contains(p) <==> before.take(i as int).contains(p)
                        && !texts(deleted@).contains(p.0),
            decreases self.mentions@.len() - i,
        {
            let m = &self.mentions[i];
            let ghost p = (m.chunk_id@, m.entity_id@);
            let ghost sofar = mention_pairs(kept@);
            assert(before[i as int] == p);
            assert(before.take(i + 1) =~= before.take(i as int).push(p));
            proof {
                crate::text::lemma_push_contains(before.take(i as int), p);
                crate::text::lemma_push_contains(sofar, p);
            }
            if !contains_text(&deleted, m.chunk_id.as_str()) {
                kept.push(
                    MentionRecord {
                        chunk_id: m.chunk_id.clone(),
                        entity_id: m.entity_id.clone(),
                    },
                );
                assert(mention_pairs(kept@) =~= sofar.push(p));
            }
            i = i + 1;
        }
        assert(before.take(i as int) =~= before);
        self.mentions = kept;
        assert(self.vectors() == stripped);
        assert forall|c: Seq<char>, e: Seq<char>| #[trigger]
            self.mentions().contains((c, e)) <==> old(self).mentions().contains((c, e))
                && !chunk_of_doc(old(self).vectors(), c, doc_id@) by {
            assert(mention_pairs(self.mentions@).contains((c, e)) <==> before.contains((c, e))
                && !texts(deleted@).contains(c));
        }
    }

    fn is_referenced(&self, entity_id: &str) -> (res: bool)
        ensures
            res == ((exists|c: Seq<char>| self.mentions().contains((c, entity_id@))) || (exists|
                i: int,
            |
                0 <= i < self.fact_list().len() && ((#[trigger] self.fact_list()[i]).0.subject
                    == entity_id@ || self.fact_list()[i].0.object == entity_id@))),
    {
        let ghost pairs = mention_pairs(self.mentions@);
        let ghost facts = fact_pairs(self.facts@);
        let mut i: usize = 0;
        while i < self.mentions.len()
            invariant
                i <= self.mentions@.len(),
                pairs == mention_pairs(self.mentions@),
                forall|j: int| 0 <= j < i ==> (#[trigger] pairs[j]).1 != entity_id@,
            decreases self.mentions@.len() - i,
        {
            let m = &self.mentions[i];
            assert(pairs[i as int] == (m.chunk_id@, m.entity_id@));
            if same(m.entity_id.as_str(), entity_id) {
                assert(pairs.contains((m.chunk_id@, entity_id@)));
                assert(self.mentions().contains((m.chunk_id@, entity_id@)));
                return true;
            }
            i = i + 1;
        }
        assert forall|c: Seq<char>| !self.mentions().contains((c, entity_id@)) by {
            if pairs.contains((c, entity_id@)) {
                let j = choose|j: int| 0 <= j < pairs.len() && pairs[j] == (c, entity_id@);
                assert(pairs[j].1 == entity_id@);
            }
        }
        let mut k: usize = 0;
        while k < self.facts.len()
            invariant
                k <= self.facts@.len(),
                facts == fact_pairs(self.facts@),
                forall|j: int|
                    0 <= j < k ==> (#[trigger] facts[j]).0.subject != entity_id@
                        && facts[j].0.object != entity_id@,
            decreases self.facts@.len() - k,
        {
            let f = &self.facts[k];
            assert(facts[k as int].0 == f.key@);
            if same(f.key.subject_id.as_str(), entity_id) || same(
                f.key.object_id.as_str(),
                entity_id,
            ) {
                assert(self.fact_list()[k as int].0 == f.key@);
                return true;
            }
            k = k + 1;
        }
        false
    }

    /// Deletes an entity that nothing mentions and no fact holds, with its name vector. An entity
    /// that is not stored only loses its name vector. Answers whether an entity was deleted.
    pub fn delete_entity(&mut self, entity_id: &str) -> (res: bool)
        requires
            old(self).wf(),
        ensures
            final(self).wf(),
            final(self).mentions() == old(self).mentions(),
            final(self).fact_list() == old(self).fact_list(),
            final(self).traverses() == old(self).traverses(),
            ({
                let stored = old(self).entities().contains_key(entity_id@);
                let referenced = (exists|c: Seq<char>|
                    old(self).mentions().contains((c, entity_id@))) || (exists|i: int|
                    0 <= i < old(self).fact_list().len() && ((#[trigger] old(self).fact_list()[i]).0.subject == entity_id@ || old(self).fact_list()[i].0.object
                        == entity_id@));
                &&& res == (stored && !referenced)
                &&& final(self).entities() == if res {
                    old(self).entities().remove(entity_id@)
                } else {
                    old(self).entities()
                }
                &&& final(self).vectors() == if stored && referenced {
                    old(self).vectors()
                } else {
                    old(self).vectors().remove((None, entity_id@))
                }
            }),
    {
        let space = VectorSpace::EntityNames;
        match self.entity_index(entity_id) {
            None => {
                self.drop_vector(&space, entity_id);
                false
            },
            Some(i) => {
                if self.is_referenced(entity_id) {
                    return false;
                }
                let ghost pairs = entity_pairs(self.entities@);
                let _ = self.entities.remove(i);
                proof {
                    lemma_assoc_remove(pairs, i as int);
                    assert(entity_pairs(self.entities@) =~= pairs.remove(i as int));
                }
                self.drop_vector(&space, entity_id);
                true
            },
        }
    }

    /// The vectors of a space, each once.
    pub fn neighbors(&self, space: &VectorSpace) -> (res: Vec<Neighbor>)
        requires
            self.wf(),
        ensures
            forall|i: int|
                0 <= i < res@.len() ==> self.vectors().contains_key(
                    (space@, (#[trigger] res@[i]).id@),
                ) && self.vectors()[(space@, res@[i].id@)].vector == res@[i].vector@,
            forall|id: Seq<char>| #[trigger]
                self.vectors().contains_key((space@, id)) ==> exists|i: int|
                    0 <= i < res@.len() && (#[trigger] res@[i]).id@ == id,
            forall|i: int, j: int|
                0 <= i < j < res@.len() ==> (#[trigger] res@[i]).id@ != (#[trigger] res@[j]).id@,
    {
        let ghost pairs = vector_pairs(self.vectors@);
        let mut res: Vec<Neighbor> = Vec::new();
        let mut i: usize = 0;
        proof {
            lemma_assoc(pairs);
        }
        while i < self.vectors.len()
            invariant
                i <= self.vectors@.len(),
                self.wf(),
                pairs == vector_pairs(self.vectors@),
                forall|k: int|
                    0 <= k < pairs.len() ==> self.vectors().contains_key((#[trigger] pairs[k]).0)
                        && self.vectors()[pairs[k].0] == pairs[k].1,
                forall|j: int|
                    0 <= j < res@.len() ==> self.vectors().contains_key(
                        (space@, (#[trigger] res@[j]).id@),
                    ) && self.vectors()[(space@, res@[j].id@)].vector == res@[j].vector@,
                forall|j: int|
                    0 <= j < res@.len() ==> exists|k: int|
                        0 <= k < i && (#[trigger] pairs[k]).0 == (space@, (
                        #[trigger] res@[j]).id@),
                forall|k: int|
                    0 <= k < i && (#[trigger] pairs[k]).0.0 == space@ ==> exists|j: int|
                        0 <= j < res@.len() && (#[trigger] res@[j]).id@ == pairs[k].0.1,
                forall|a: int, b: int|
                    0 <= a < b < res@.len() ==> (#[trigger] res@[a]).id@ != (
                    #[trigger] res@[b]).id@,
            decreases self.vectors@.len() - i,
        {
            let r = &self.vectors[i];
            assert(pairs[i as int].0 == (r.space@, r.id@));
            let ghost known = res@;
            if r.space.is(space) {
                let n = Neighbor { id: r.id.clone(), vector: copy_bits(&r.vector) };
                res.push(n);
                proof {
                    assert forall|a: int| 0 <= a < known.len() implies (#[trigger] known[a]).id@
                        != n.id@ by {
                        let k = choose|k: int|
                            0 <= k < i && (#[trigger] pairs[k]).0 == (space@, known[a].id@);
                        assert(pairs[k].0 != pairs[i as int].0);
                    }
                    assert forall|j: int| 0 <= j < res@.len() implies exists|k: int|
                        0 <= k < i + 1 && (#[trigger] pairs[k]).0 == (space@, (
                        #[trigger] res@[j]).id@) by {
                        if j < known.len() {
                            assert(res@[j] == known[j]);
                            let k = choose|k: int|
                                0 <= k < i && (#[trigger] pairs[k]).0 == (space@, known[j].id@);
                            assert(pairs[k].0 == (space@, res@[j].id@));
                        } else {
                            assert(pairs[i as int].0 == (space@, res@[j].id@));
                        }
                    }
                    assert forall|k: int|
                        0 <= k < i + 1 && (#[trigger] pairs[k]).0.0 == space@ implies exists|
                        j: int,
                    |
                        0 <= j < res@.len() && (#[trigger] res@[j]).id@ == pairs[k].0.1 by {
                        if k < i {
                            let j = choose|j: int|
                                0 <= j < known.len() && (#[trigger] known[j]).id@ == pairs[k].0.1;
                            assert(res@[j] == known[j]);
                        } else {
                            assert(res@[known.len() as int].id@ == pairs[k].0.1);
                        }
                    }
                }
            } else {
                assert forall|j: int| 0 <= j < res@.len() implies exists|k: int|
                    0 <= k < i + 1 && (#[trigger] pairs[k]).0 == (space@, (
                    #[trigger] res@[j]).id@) by {
                    let k = choose|k: int|
                        0 <= k < i && (#[trigger] pairs[k]).0 == (space@, known[j].id@);
                    assert(pairs[k].0 == (space@, res@[j].id@));
                }
            }
            i = i + 1;
        }
        proof {
            lemma_assoc(pairs);
            assert forall|id: Seq<char>| #[trigger]
                self.vectors().contains_key((space@, id)) implies exists|i: int|
                0 <= i < res@.len() && (#[trigger] res@[i]).id@ == id by {
                let k = choose|k: int| 0 <= k < pairs.len() && (#[trigger] pairs[k]).0 == (
                    space@,
                    id,
                );
                assert(pairs[k].0.0 == space@);
            }
        }
        res
    }
}


/// The properties of a stored fact as callers see them.
pub open spec fn shown_properties(f: FactStateView) -> Map<Seq<char>, ValueView> {
    Map::empty().insert(EVIDENCE_KEY@, array_of(f.evidence)).insert(
        OCCURRENCES_KEY@,
        array_of(f.occurrences),
    )
}

/// Whether `f` is a stored fact as callers see it.
pub open spec fn shows_stored(stored: (FactKeyView, FactStateView), f: Fact) -> bool {
    &&& f.subject_id@ == stored.0.subject
    &&& f.predicate == stored.0.predicate
    &&& f.object_id@ == stored.0.object
    &&& f.support_count == stored.1.support
    &&& f.properties is Some
    &&& f.properties->0@ == JsonView::Object(shown_properties(stored.1))
}

/// Whether `shown` are the stored facts at the indices `found`.
pub open spec fn shows_stored_facts(
    stored: Seq<(FactKeyView, FactStateView)>,
    found: Seq<int>,
    shown: Seq<Fact>,
) -> bool {
    &&& shown.len() == found.len()
    &&& forall|i: int|
        0 <= i < found.len() ==> 0 <= found[i] < stored.len() && shows_stored(
            stored[found[i]],
            #[trigger] shown[i],
        )
}

fn show_fact(f: &FactRecord) -> (res: Fact)
    ensures
        shows_stored((f.key@, fact_state(*f)), res),
{
    let mut entries: Vec<Property> = Vec::new();
    let ghost empty = entries@;
    entries.push(Property { key: EVIDENCE_KEY.to_owned(), value: list_value(&f.evidence) });
    let ghost one = entries@;
    entries.push(Property { key: OCCURRENCES_KEY.to_owned(), value: list_value(&f.occurrences) });
    proof {
        assert(entries@.drop_last() =~= one);
        assert(one.drop_last() =~= empty);
        assert(object_of(empty) =~= Map::empty());
        assert(object_of(one) == object_of(empty).insert(
            EVIDENCE_KEY@,
            array_of(texts(f.evidence@)),
        ));
        assert(object_of(entries@) == object_of(one).insert(
            OCCURRENCES_KEY@,
            array_of(texts(f.occurrences@)),
        ));
    }
    Fact {
        subject_id: f.key.subject_id.clone(),
        predicate: f.key.predicate,
        object_id: f.key.object_id.clone(),
        support_count: f.support,
        properties: Some(Json::Object(entries)),
    }
}

impl InMemoryKnowledge {
    fn fact_keys(&self) -> (res: Vec<FactKey>)
        ensures
            key_views(res@) == self.fact_list().map_values(
                |p: (FactKeyView, FactStateView)| p.0,
            ),
    {
        let ghost all = self.fact_list().map_values(|p: (FactKeyView, FactStateView)| p.0);
        let mut res: Vec<FactKey> = Vec::new();
        let mut i: usize = 0;
        while i < self.facts.len()
            invariant
                i <= self.facts@.len(),
                all == self.fact_list().map_values(|p: (FactKeyView, FactStateView)| p.0),
                key_views(res@) == all.take(i as int),
            decreases self.facts@.len() - i,
        {
            let f = &self.facts[i];
            let ghost before = key_views(res@);
            let k = FactKey {
                subject_id: f.key.subject_id.clone(),
                predicate: f.key.predicate,
                object_id: f.key.object_id.clone(),
            };
            res.push(k);
            assert(key_views(res@) =~= before.push(k@));
            assert(self.fact_list()[i as int].0 == f.key@);
            assert(all[i as int] == k@);
            i = i + 1;
            assert(key_views(res@) =~= all.take(i as int));
        }
        assert(all.take(i as int) =~= all);
        res
    }

    /// The facts within `hops` edges of any of `ids`, in the order in which a breadth-first walk
    /// finds them.
    pub fn facts_within_hops(&self, ids: &Vec<String>, hops: u8) -> (res: Vec<Fact>)
        ensures
            shows_stored_facts(
                self.fact_list(),
                discovered(
                    self.fact_list().map_values(|p: (FactKeyView, FactStateView)| p.0),
                    texts(ids@).to_set(),
                    hops as nat,
                ),
                res@,
            ),
    {
        let keys = self.fact_keys();
        let indices = traverse(&keys, ids, hops);
        let ghost found = indices@.map_values(|i: usize| i as int);
        assert(key_views(keys@).len() == keys@.len());
        let mut res: Vec<Fact> = Vec::new();
        let mut i: usize = 0;
        while i < indices.len()
            invariant
                i <= indices@.len(),
                found == indices@.map_values(|i: usize| i as int),
                forall|j: int| 0 <= j < indices@.len() ==> #[trigger] indices@[j] < self.facts@.len(),
                shows_stored_facts(self.fact_list(), found.take(i as int), res@),
            decreases indices@.len() - i,
        {
            let at: usize = indices[i];
            assert(found[i as int] == at);
            let ghost before = res@;
            let f = show_fact(&self.facts[at]);
            res.push(f);
            proof {
                assert(self.fact_list()[at as int] == (
                    self.facts@[at as int].key@,
                    fact_state(self.facts@[at as int]),
                ));
                let next = found.take(i + 1);
                assert forall|j: int| 0 <= j < next.len() implies 0 <= next[j]
                    < self.fact_list().len() && shows_stored(
                    self.fact_list()[next[j]],
                    #[trigger] res@[j],
                ) by {
                    if j < i {
                        assert(next[j] == found.take(i as int)[j]);
                        assert(res@[j] == before[j]);
                    }
                }
            }
            i = i + 1;
        }
        assert(found.take(i as int) =~= found);
        res
    }
}

// ---------------------------------------------------------------------------------------------
// Laws.
// ---------------------------------------------------------------------------------------------
spec fn touched(space: SpaceView, ids: Seq<Seq<char>>, n: int, k: (SpaceView, Seq<char>)) -> bool {
    exists|j: int| 0 <= j < n && k == (space, #[trigger] ids[j])
}

proof fn lemma_upserted(
    a: Map<(SpaceView, Seq<char>), VectorView>,
    b: Map<(SpaceView, Seq<char>), VectorView>,
    space: SpaceView,
    doc_id: Seq<char>,
    ids: Seq<Seq<char>>,
    values: Seq<Vec<u32>>,
    n: int,
)
    ensures
        forall|k: (SpaceView, Seq<char>)| #[trigger]
            upserted(a, space, doc_id, ids, values, n).contains_key(k) <==> a.contains_key(k)
                || touched(space, ids, n, k),
        forall|k: (SpaceView, Seq<char>)|
            !touched(space, ids, n, k) ==> #[trigger] upserted(
                a,
                space,
                doc_id,
                ids,
                values,
                n,
            )[k] == a[k],
        forall|k: (SpaceView, Seq<char>)|
            touched(space, ids, n, k) ==> #[trigger] upserted(
                a,
                space,
                doc_id,
                ids,
                values,
                n,
            )[k] == upserted(b, space, doc_id, ids, values, n)[k],
    decreases n,
{
    if n > 0 {
        lemma_upserted(a, b, space, doc_id, ids, values, n - 1);
        let last = (space, ids[n - 1]);
        assert forall|k: (SpaceView, Seq<char>)| #[trigger]
            touched(space, ids, n, k) <==> touched(space, ids, n - 1, k) || k == last by {
            if touched(space, ids, n - 1, k) {
                let j = choose|j: int| 0 <= j < n - 1 && k == (space, #[trigger] ids[j]);
                assert(j < n && k == (space, ids[j]));
            }
            if k == last {
                assert(k == (space, ids[n - 1]));
            }
        }
        let value = VectorView { doc_id, vector: values[n - 1]@ };
        let prev = upserted(a, space, doc_id, ids, values, n - 1);
        let other_prev = upserted(b, space, doc_id, ids, values, n - 1);
        let cur = upserted(a, space, doc_id, ids, values, n);
        let other_cur = upserted(b, space, doc_id, ids, values, n);
        assert(cur == prev.insert(last, value));
        assert(other_cur == other_prev.insert(last, value));
        assert forall|k: (SpaceView, Seq<char>)| #[trigger]
            cur.contains_key(k) <==> a.contains_key(k) || touched(space, ids, n, k) by {
            assert(prev.contains_key(k) <==> a.contains_key(k) || touched(space, ids, n - 1, k));
        }
        assert forall|k: (SpaceView, Seq<char>)| !touched(space, ids, n, k) implies #[trigger] cur[k]
            == a[k] by {
            assert(prev[k] == a[k]);
        }
        assert forall|k: (SpaceView, Seq<char>)| touched(space, ids, n, k) implies #[trigger] cur[k]
            == other_cur[k] by {
            if k != last {
                assert(prev[k] == other_prev[k]);
            }
        }
    } else {
        assert forall|k: (SpaceView, Seq<char>)| !touched(space, ids, n, k) by {}
    }
}

/// Storing the same vectors again changes nothing.
pub proof fn law_vector_replay_is_a_noop(
    vectors: Map<(SpaceView, Seq<char>), VectorView>,
    space: SpaceView,
    doc_id: Seq<char>,
    ids: Seq<Seq<char>>,
    values: Seq<Vec<u32>>,
)
    ensures
        ({
            let once = upserted(vectors, space, doc_id, ids, values, ids.len() as int);
            upserted(once, space, doc_id, ids, values, ids.len() as int) == once
        }),
{
    let n = ids.len() as int;
    let once = upserted(vectors, space, doc_id, ids, values, n);
    let twice = upserted(once, space, doc_id, ids, values, n);
    lemma_upserted(once, vectors, space, doc_id, ids, values, n);
    lemma_upserted(vectors, once, space, doc_id, ids, values, n);
    assert forall|k: (SpaceView, Seq<char>)| #[trigger] twice.contains_key(k) <==> once.contains_key(
        k,
    ) by {}
    assert forall|k: (SpaceView, Seq<char>)| #[trigger] twice.contains_key(k) implies twice[k]
        == once[k] by {
        if touched(space, ids, n, k) {
            assert(twice[k] == upserted(vectors, space, doc_id, ids, values, n)[k]);
        }
    }
    assert(twice =~= once);
}

/// Collections are isolated: storing vectors in one space changes no vector of another.
pub proof fn law_spaces_are_isolated(
    vectors: Map<(SpaceView, Seq<char>), VectorView>,
    space: SpaceView,
    other: SpaceView,
    doc_id: Seq<char>,
    ids: Seq<Seq<char>>,
    values: Seq<Vec<u32>>,
    id: Seq<char>,
)
    requires
        space != other,
    ensures
        ({
            let after = upserted(vectors, space, doc_id, ids, values, ids.len() as int);
            &&& after.contains_key((other, id)) <==> vectors.contains_key((other, id))
            &&& after[(other, id)] == vectors[(other, id)]
        }),
{
    lemma_upserted(vectors, vectors, space, doc_id, ids, values, ids.len() as int);
    assert(!touched(space, ids, ids.len() as int, (other, id)));
}

/// Replaying the assertion of a fact changes nothing, however full its evidence list is.
pub proof fn law_fact_replay_is_a_noop(
    f: FactStateView,
    chunk: Seq<char>,
    dates: Seq<Seq<char>>,
    caps: FactCaps,
)
    ensures
        fact_asserted(fact_asserted(f, chunk, dates, caps), chunk, dates, caps) == fact_asserted(
            f,
            chunk,
            dates,
            caps,
        ),
{
    let once = fact_asserted(f, chunk, dates, caps);
    crate::text::lemma_push_contains(f.evidence, chunk);
    crate::text::lemma_push_contains(f.counted, chunk);
    super::edge::lemma_capped_union(f.occurrences, dates, caps.max_occurrences as nat);
    super::edge::lemma_capped_union_noop(once.occurrences, dates, caps.max_occurrences as nat);
}

/// After a fold nothing mentions the folded entity any more.
pub proof fn law_folded_entity_is_not_mentioned(
    mentions: Set<(Seq<char>, Seq<char>)>,
    loser: Seq<char>,
    winner: Seq<char>,
    chunk: Seq<char>,
)
    requires
        loser != winner,
    ensures
        !folded_mentions(mentions, loser, winner).contains((chunk, loser)),
        mentions.contains((chunk, loser)) ==> folded_mentions(mentions, loser, winner).contains(
            (chunk, winner),
        ),
{
    let f = |m: (Seq<char>, Seq<char>)| (m.0, replaced(m.1, loser, winner));
    if mentions.contains((chunk, loser)) {
        assert(f((chunk, loser)) == (chunk, winner));
    }
}

/// A deleted document is forgotten: no space holds a vector of it any more, none of its chunks
/// mentions an entity, what is of other documents stays, and deleting it again changes nothing.
pub proof fn law_deleted_document_is_forgotten(
    before: Map<(SpaceView, Seq<char>), VectorView>,
    after: Map<(SpaceView, Seq<char>), VectorView>,
    mentions_before: Set<(Seq<char>, Seq<char>)>,
    mentions_after: Set<(Seq<char>, Seq<char>)>,
    doc_id: Seq<char>,
)
    requires
        purged_vectors(before, after, doc_id),
        purged_mentions(before, mentions_before, mentions_after, doc_id),
    ensures
        forall|space: SpaceView, id: Seq<char>| #[trigger]
            after.contains_key((space, id)) ==> after[(space, id)].doc_id != doc_id,
        forall|c: Seq<char>, e: Seq<char>|
            chunk_of_doc(before, c, doc_id) ==> !#[trigger] mentions_after.contains((c, e)),
        forall|space: SpaceView, id: Seq<char>| #[trigger]
            before.contains_key((space, id)) && before[(space, id)].doc_id != doc_id
                ==> after.contains_key((space, id)) && after[(space, id)] == before[(space, id)],
        purged_vectors(after, after, doc_id),
        purged_mentions(after, mentions_after, mentions_after, doc_id),
{
    assert forall|c: Seq<char>| !chunk_of_doc(after, c, doc_id) by {
        if chunk_of_doc(after, c, doc_id) {
            let model = choose|model: Seq<char>|
                after.contains_key((Some(model), c)) && (#[trigger] after[(Some(model), c)]).doc_id
                    == doc_id;
            assert(after.contains_key((Some(model), c)));
        }
    }
}

/// Storing an entity or a mention again changes nothing.
pub proof fn law_graph_replay_is_a_noop(
    entities: Map<Seq<char>, EntityRecordView>,
    id: Seq<char>,
    entity: EntityRecordView,
    mentions: Set<(Seq<char>, Seq<char>)>,
    mention: (Seq<char>, Seq<char>),
)
    ensures
        entities.insert(id, entity).insert(id, entity) == entities.insert(id, entity),
        mentions.insert(mention).insert(mention) == mentions.insert(mention),
{
    assert(entities.insert(id, entity).insert(id, entity) =~= entities.insert(id, entity));
    assert(mentions.insert(mention).insert(mention) =~= mentions.insert(mention));
}

spec fn holds_once(list: Seq<Seq<char>>) -> bool {
    list.no_duplicates() && list.len() <= usize::MAX
}

proof fn lemma_union_holds_once(list: Seq<Seq<char>>, items: Seq<Seq<char>>)
    requires
        holds_once(list),
    ensures
        holds_once(capped_union(list, items, usize::MAX as nat)),
    decreases items.len(),
{
    if items.len() > 0 {
        lemma_union_holds_once(list, items.drop_last());
    }
}

proof fn lemma_union_with_nothing(items: Seq<Seq<char>>)
    requires
        holds_once(items),
    ensures
        capped_union(seq![], items, usize::MAX as nat) == items,
    decreases items.len(),
{
    if items.len() > 0 {
        let rest = items.drop_last();
        lemma_union_with_nothing(rest);
        assert(!rest.contains(items.last())) by {
            if rest.contains(items.last()) {
                let i = choose|i: int| 0 <= i < rest.len() && rest[i] == items.last();
                assert(items[i] == items[items.len() - 1]);
            }
        }
        assert(rest.push(items.last()) =~= items);
    }
}

proof fn lemma_folded(
    facts: Seq<(FactKeyView, FactStateView)>,
    loser: Seq<char>,
    winner: Seq<char>,
)
    requires
        loser != winner,
    ensures
        forall|k: FactKeyView| #[trigger]
            folded_facts(facts, loser, winner).contains_key(k) ==> {
                let f = folded_facts(facts, loser, winner)[k];
                &&& k.subject != loser
                &&& k.object != loser
                &&& f.support <= u64::MAX
                &&& holds_once(f.evidence)
                &&& holds_once(f.occurrences)
                &&& holds_once(f.counted)
            },
    decreases facts.len(),
{
    if facts.len() > 0 {
        lemma_folded(facts.drop_last(), loser, winner);
        let before = folded_facts(facts.drop_last(), loser, winner);
        let k = replaced_key(facts.last().0, loser, winner);
        let base = if before.contains_key(k) {
            before[k]
        } else {
            no_assertions()
        };
        lemma_union_holds_once(base.evidence, facts.last().1.evidence);
        lemma_union_holds_once(base.occurrences, facts.last().1.occurrences);
        lemma_union_holds_once(base.counted, facts.last().1.counted);
    }
}

proof fn lemma_refolded(
    facts: Seq<(FactKeyView, FactStateView)>,
    loser: Seq<char>,
    winner: Seq<char>,
)
    requires
        unique_keys(facts),
        forall|i: int|
            0 <= i < facts.len() ==> {
                let (k, f) = #[trigger] facts[i];
                &&& k.subject != loser
                &&& k.object != loser
                &&& f.support <= u64::MAX
                &&& holds_once(f.evidence)
                &&& holds_once(f.occurrences)
                &&& holds_once(f.counted)
            },
    ensures
        folded_facts(facts, loser, winner) == assoc(facts),
    decreases facts.len(),
{
    if facts.len() > 0 {
        let rest = facts.drop_last();
        let (k, f) = facts.last();
        assert(facts[facts.len() - 1] == facts.last());
        assert forall|i: int| 0 <= i < rest.len() implies ({
            let (k, f) = #[trigger] rest[i];
            &&& k.subject != loser
            &&& k.object != loser
            &&& f.support <= u64::MAX
            &&& holds_once(f.evidence)
            &&& holds_once(f.occurrences)
            &&& holds_once(f.counted)
        }) by {
            assert(rest[i] == facts[i]);
        }
        assert(unique_keys(rest)) by {
            assert forall|i: int, j: int| 0 <= i < j < rest.len() implies (#[trigger] rest[i]).0
                != (#[trigger] rest[j]).0 by {
                assert(rest[i] == facts[i] && rest[j] == facts[j]);
            }
        }
        lemma_refolded(rest, loser, winner);
        assert forall|i: int| 0 <= i < rest.len() implies (#[trigger] rest[i]).0 != k by {
            assert(rest[i] == facts[i]);
        }
        lemma_assoc_absent(rest, k);
        assert(replaced_key(k, loser, winner) == k);
        lemma_union_with_nothing(f.evidence);
        lemma_union_with_nothing(f.occurrences);
        lemma_union_with_nothing(f.counted);
        assert(facts_united(no_assertions(), f) == f);
    }
}

/// Folding an entity away again changes nothing: its mentions and facts have moved over already,
/// and no support is counted twice.
pub proof fn law_fold_replay_is_a_noop(
    facts: Seq<(FactKeyView, FactStateView)>,
    after: Seq<(FactKeyView, FactStateView)>,
    mentions: Set<(Seq<char>, Seq<char>)>,
    loser: Seq<char>,
    winner: Seq<char>,
)
    requires
        loser != winner,
        unique_keys(after),
        assoc(after) == folded_facts(facts, loser, winner),
    ensures
        folded_facts(after, loser, winner) == assoc(after),
        ({
            let once = folded_mentions(mentions, loser, winner);
            folded_mentions(once, loser, winner) == once
        }),
{
    lemma_folded(facts, loser, winner);
    lemma_assoc(after);
    assert forall|i: int| 0 <= i < after.len() implies ({
        let (k, f) = #[trigger] after[i];
        &&& k.subject != loser
        &&& k.object != loser
        &&& f.support <= u64::MAX
        &&& holds_once(f.evidence)
        &&& holds_once(f.occurrences)
        &&& holds_once(f.counted)
    }) by {
        assert(assoc(after).contains_key(after[i].0) && assoc(after)[after[i].0] == after[i].1);
    }
    lemma_refolded(after, loser, winner);
    let once = folded_mentions(mentions, loser, winner);
    let twice = folded_mentions(once, loser, winner);
    let f = |m: (Seq<char>, Seq<char>)| (m.0, replaced(m.1, loser, winner));
    assert forall|m: (Seq<char>, Seq<char>)| once.contains(m) <==> twice.contains(m) by {
        if once.contains(m) {
            let p = choose|p: (Seq<char>, Seq<char>)| mentions.contains(p) && f(p) == m;
            assert(m.1 != loser);
            assert(f(m) == m);
        }
        if twice.contains(m) {
            let q = choose|q: (Seq<char>, Seq<char>)| once.contains(q) && f(q) == m;
            let p = choose|p: (Seq<char>, Seq<char>)| mentions.contains(p) && f(p) == q;
            assert(q.1 != loser);
            assert(f(q) == q);
        }
    }
    assert(once =~= twice);
}

/// The support of the facts that become the fact `k` when `loser` is folded into `winner`.
pub open spec fn support_becoming(
    facts: Seq<(FactKeyView, FactStateView)>,
    loser: Seq<char>,
    winner: Seq<char>,
    k: FactKeyView,
) -> nat
    decreases facts.len(),
{
    if facts.len() == 0 {
        0
    } else {
        support_becoming(facts.drop_last(), loser, winner, k) + if replaced_key(
            facts.last().0,
            loser,
            winner,
        ) == k {
            facts.last().1.support
        } else {
            0
        }
    }
}

/// A fold loses no support: every fact has the sum of the supports of the facts that become it, where
/// that sum can be counted, those of the folded entity with itself not left out.
pub proof fn law_fold_adds_up(
    facts: Seq<(FactKeyView, FactStateView)>,
    loser: Seq<char>,
    winner: Seq<char>,
    k: FactKeyView,
)
    requires
        support_becoming(facts, loser, winner, k) <= u64::MAX,
    ensures
        folded_facts(facts, loser, winner).contains_key(k) ==> folded_facts(
            facts,
            loser,
            winner,
        )[k].support == support_becoming(facts, loser, winner, k),
        !folded_facts(facts, loser, winner).contains_key(k) ==> support_becoming(
            facts,
            loser,
            winner,
            k,
        ) == 0,
    decreases facts.len(),
{
    if facts.len() > 0 {
        law_fold_adds_up(facts.drop_last(), loser, winner, k);
    }
}

proof fn lemma_roomy_union(list: Seq<Seq<char>>, items: Seq<Seq<char>>, max: nat, x: Seq<char>)
    ensures
        capped_union(list, items, max).contains(x) ==> list.contains(x) || items.contains(x),
        capped_union(list, items, max).len() >= list.len(),
        list.contains(x) ==> capped_union(list, items, max).contains(x),
        capped_union(list, items, max).len() < max && items.contains(x) ==> capped_union(
            list,
            items,
            max,
        ).contains(x),
    decreases items.len(),
{
    if items.len() > 0 {
        let rest = items.drop_last();
        let last = items.last();
        lemma_roomy_union(list, rest, max, x);
        let before = capped_union(list, rest, max);
        let after = capped_union(list, items, max);
        assert(items[items.len() - 1] == last);
        if rest.contains(x) {
            let i = choose|i: int| 0 <= i < rest.len() && rest[i] == x;
            assert(items[i] == x);
        }
        if items.contains(x) && !rest.contains(x) {
            let i = choose|i: int| 0 <= i < items.len() && items[i] == x;
            if i < rest.len() {
                assert(rest[i] == x);
            }
            assert(x == last);
        }
        if after != before {
            assert(after == before.push(last));
            assert(after[before.len() as int] == last);
            if before.contains(x) {
                let i = choose|i: int| 0 <= i < before.len() && before[i] == x;
                assert(after[i] == x);
            }
            if after.contains(x) && x != last {
                let i = choose|i: int| 0 <= i < after.len() && after[i] == x;
                assert(before[i] == x);
            }
        }
    }
}

proof fn lemma_fold_keeps(
    facts: Seq<(FactKeyView, FactStateView)>,
    loser: Seq<char>,
    winner: Seq<char>,
    i: int,
    x: Seq<char>,
)
    requires
        0 <= i < facts.len(),
    ensures
        ({
            let after = folded_facts(facts, loser, winner);
            let k = replaced_key(facts[i].0, loser, winner);
            &&& after.contains_key(k)
            &&& after[k].evidence.len() < usize::MAX && facts[i].1.evidence.contains(x)
                ==> after[k].evidence.contains(x)
            &&& after[k].occurrences.len() < usize::MAX && facts[i].1.occurrences.contains(x)
                ==> after[k].occurrences.contains(x)
        }),
    decreases facts.len(),
{
    let front = facts.drop_last();
    let last = facts.last();
    let before = folded_facts(front, loser, winner);
    let k = replaced_key(last.0, loser, winner);
    let base = if before.contains_key(k) {
        before[k]
    } else {
        no_assertions()
    };
    lemma_roomy_union(base.evidence, last.1.evidence, usize::MAX as nat, x);
    lemma_roomy_union(base.occurrences, last.1.occurrences, usize::MAX as nat, x);
    if i < facts.len() - 1 {
        assert(front[i] == facts[i]);
        lemma_fold_keeps(front, loser, winner, i, x);
    }
}

proof fn lemma_fold_makes_nothing_up(
    facts: Seq<(FactKeyView, FactStateView)>,
    loser: Seq<char>,
    winner: Seq<char>,
    k: FactKeyView,
    x: Seq<char>,
)
    requires
        folded_facts(facts, loser, winner).contains_key(k),
    ensures
        exists|i: int| 0 <= i < facts.len() && replaced_key((#[trigger] facts[i]).0, loser, winner) == k,
        folded_facts(facts, loser, winner)[k].evidence.contains(x) ==> exists|i: int|
            0 <= i < facts.len() && replaced_key((#[trigger] facts[i]).0, loser, winner) == k
                && facts[i].1.evidence.contains(x),
        folded_facts(facts, loser, winner)[k].occurrences.contains(x) ==> exists|i: int|
            0 <= i < facts.len() && replaced_key((#[trigger] facts[i]).0, loser, winner) == k
                && facts[i].1.occurrences.contains(x),
    decreases facts.len(),
{
    let front = facts.drop_last();
    let last = facts.last();
    let n = facts.len() - 1;
    assert(facts[n] == last);
    let before = folded_facts(front, loser, winner);
    let own = replaced_key(last.0, loser, winner);
    let base = if before.contains_key(own) {
        before[own]
    } else {
        no_assertions()
    };
    lemma_roomy_union(base.evidence, last.1.evidence, usize::MAX as nat, x);
    lemma_roomy_union(base.occurrences, last.1.occurrences, usize::MAX as nat, x);
    if before.contains_key(k) {
        lemma_fold_makes_nothing_up(front, loser, winner, k, x);
        let i = choose|i: int|
            0 <= i < front.len() && replaced_key((#[trigger] front[i]).0, loser, winner) == k;
        assert(facts[i] == front[i]);
        if before[k].evidence.contains(x) {
            let e = choose|i: int|
                0 <= i < front.len() && replaced_key((#[trigger] front[i]).0, loser, winner) == k
                    && front[i].1.evidence.contains(x);
            assert(facts[e] == front[e]);
        }
        if before[k].occurrences.contains(x) {
            let o = choose|i: int|
                0 <= i < front.len() && replaced_key((#[trigger] front[i]).0, loser, winner) == k
                    && front[i].1.occurrences.contains(x);
            assert(facts[o] == front[o]);
        }
    }
}

/// Folding an entity into another keeps what was known of it: each stored fact stands afterwards with the
/// loser replaced by the winner, as subject and as object, with every chunk and every date it had; no
/// fact, chunk or date comes from nowhere; the loser's mentions are the winner's, the mentions of others
/// and the vectors stay, and the loser alone is no longer stored.
pub proof fn law_folds_keep_what_was_known(
    store: &mut InMemoryKnowledge,
    loser: &str,
    winner: &str,
    i: int,
    x: Seq<char>,
    c: Seq<char>,
    e: Seq<char>,
)
    requires
        call_ensures(InMemoryKnowledge::fold_entity, (store, loser, winner), ()),
        loser@ != winner@,
    ensures
        0 <= i < old(store).fact_list().len() ==> {
            let f = old(store).fact_list()[i];
            let k = FactKeyView {
                subject: if f.0.subject == loser@ {
                    winner@
                } else {
                    f.0.subject
                },
                predicate: f.0.predicate,
                object: if f.0.object == loser@ {
                    winner@
                } else {
                    f.0.object
                },
            };
            &&& final(store).facts().contains_key(k)
            &&& final(store).facts()[k].evidence.len() < usize::MAX && f.1.evidence.contains(x)
                ==> final(store).facts()[k].evidence.contains(x)
            &&& final(store).facts()[k].occurrences.len() < usize::MAX && f.1.occurrences.contains(x)
                ==> final(store).facts()[k].occurrences.contains(x)
        },
        forall|k: FactKeyView| #[trigger]
            final(store).facts().contains_key(k) && final(store).facts()[k].occurrences.contains(x)
                ==> exists|n: int|
                0 <= n < old(store).fact_list().len() && (#[trigger] old(store).fact_list()[n]).1.occurrences.contains(x) && old(store).fact_list()[n].0.predicate
                    == k.predicate,
        old(store).mentions().contains((c, loser@)) ==> final(store).mentions().contains((c, winner@)),
        e != loser@ && old(store).mentions().contains((c, e)) ==> final(store).mentions().contains(
            (c, e),
        ),
        e != loser@ && e != winner@ && final(store).mentions().contains((c, e)) ==> old(store).mentions().contains((c, e)),
        !final(store).mentions().contains((c, loser@)),
        !final(store).entities().contains_key(loser@),
        e != loser@ ==> (final(store).entities().contains_key(e) <==> old(store).entities().contains_key(e)),
        final(store).vectors() == old(store).vectors(),
{
    let facts = old(store).fact_list();
    let after = folded_facts(facts, loser@, winner@);
    if 0 <= i < facts.len() {
        lemma_fold_keeps(facts, loser@, winner@, i, x);
    }
    assert forall|k: FactKeyView| #[trigger]
        after.contains_key(k) && after[k].occurrences.contains(x) implies exists|n: int|
        0 <= n < facts.len() && (#[trigger] facts[n]).1.occurrences.contains(x)
            && facts[n].0.predicate == k.predicate by {
        lemma_fold_makes_nothing_up(facts, loser@, winner@, k, x);
        let n = choose|n: int|
            0 <= n < facts.len() && replaced_key((#[trigger] facts[n]).0, loser@, winner@) == k
                && facts[n].1.occurrences.contains(x);
        assert(facts[n].1.occurrences.contains(x));
    }
    let f = |m: (Seq<char>, Seq<char>)| (m.0, replaced(m.1, loser@, winner@));
    let mentions = old(store).mentions();
    if mentions.contains((c, loser@)) {
        assert(f((c, loser@)) == (c, winner@));
    }
    if e != loser@ && mentions.contains((c, e)) {
        assert(f((c, e)) == (c, e));
    }
}

/// An assertion is stored with its traces: the fact's support grows by one where the chunk did not assert
/// it before and stays where it did, the chunk joins the evidence and the dates join the dates while
/// there is room, what was listed stays, and no other fact changes. Without both endpoints nothing does.
pub proof fn law_merged_facts_keep_their_traces(
    store: &mut InMemoryKnowledge,
    subject: &str,
    predicate: Predicate,
    object: &str,
    chunk: &str,
    caps: FactCaps,
    properties: &Json,
    entries: Map<Seq<char>, ValueView>,
    date: Seq<char>,
    res: Result<(), KnowledgeError>,
    other: FactKeyView,
)
    requires
        call_ensures(
            InMemoryKnowledge::merge_fact,
            (store, subject, predicate, object, chunk, Some(properties), caps),
            res,
        ),
        properties@ == JsonView::Object(entries),
        entries.contains_key("occurred_on"@),
        entries["occurred_on"@] == ValueView::Text(date),
    ensures
        res is Ok <==> old(store).entities().contains_key(subject@) && old(store).entities().contains_key(object@),
        res is Err ==> final(store).fact_list() == old(store).fact_list(),
        res is Ok ==> {
            let k = FactKeyView { subject: subject@, predicate, object: object@ };
            let now = final(store).facts()[k];
            let was = old(store).facts()[k];
            &&& final(store).facts().contains_key(k)
            &&& !old(store).facts().contains_key(k) ==> now.support == 1 && (caps.max_evidence > 0
                ==> now.evidence == seq![chunk@]) && (caps.max_occurrences > 0 ==> now.occurrences
                == seq![date])
            &&& old(store).facts().contains_key(k) ==> {
                &&& now.support == was.support + if was.evidence.contains(chunk@)
                    || was.counted.contains(chunk@) || was.support == u64::MAX {
                    0int
                } else {
                    1int
                }
                &&& was.evidence.contains(chunk@) || was.evidence.len() < caps.max_evidence
                    ==> now.evidence.contains(chunk@)
                &&& was.occurrences.contains(date) || was.occurrences.len() < caps.max_occurrences
                    ==> now.occurrences.contains(date)
                &&& now.evidence.take(was.evidence.len() as int) == was.evidence
                &&& now.occurrences.take(was.occurrences.len() as int) == was.occurrences
            }
            &&& other != k ==> final(store).facts().contains_key(other) == old(store).facts().contains_key(other) && final(store).facts()[other] == old(store).facts()[other]
        },
{
    if res is Ok {
        let k = FactKeyView { subject: subject@, predicate, object: object@ };
        let base = if old(store).facts().contains_key(k) {
            old(store).facts()[k]
        } else {
            no_assertions()
        };
        let dates = seq![date];
        assert(dates.drop_last() =~= seq![]);
        let (e, o) = (caps.max_evidence as nat, caps.max_occurrences as nat);
        assert(capped_union(base.occurrences, dates.drop_last(), o) == base.occurrences);
        assert(capped_union(base.occurrences, dates, o) == capped_push(base.occurrences, date, o));
        let evidence = capped_push(base.evidence, chunk@, e);
        let occurrences = capped_push(base.occurrences, date, o);
        assert(evidence.take(base.evidence.len() as int) =~= base.evidence);
        assert(occurrences.take(base.occurrences.len() as int) =~= base.occurrences);
        if evidence != base.evidence {
            assert(evidence[base.evidence.len() as int] == chunk@);
        }
        if occurrences != base.occurrences {
            assert(occurrences[base.occurrences.len() as int] == date);
        }
        if base.evidence.len() == 0 && e > 0 {
            assert(evidence =~= seq![chunk@]);
        }
        if base.occurrences.len() == 0 && o > 0 {
            assert(occurrences =~= seq![date]);
        }
    }
}

proof fn lemma_upserted_at(
    vectors: Map<(SpaceView, Seq<char>), VectorView>,
    space: SpaceView,
    doc_id: Seq<char>,
    ids: Seq<Seq<char>>,
    values: Seq<Vec<u32>>,
    n: int,
    i: int,
    k: (SpaceView, Seq<char>),
)
    requires
        0 <= n <= ids.len(),
    ensures
        ({
            let after = upserted(vectors, space, doc_id, ids, values, n);
            &&& 0 <= i < n && (forall|j: int| i < j < n ==> #[trigger] ids[j] != ids[i])
                ==> after.contains_key((space, ids[i])) && after[(space, ids[i])] == (VectorView {
                doc_id,
                vector: values[i]@,
            })
            &&& (forall|j: int| 0 <= j < n ==> (space, #[trigger] ids[j]) != k) ==> (
            after.contains_key(k) == vectors.contains_key(k) && after[k] == vectors[k])
        }),
    decreases n,
{
    if n > 0 {
        lemma_upserted_at(vectors, space, doc_id, ids, values, n - 1, i, k);
        if 0 <= i < n - 1 && (forall|j: int| i < j < n ==> #[trigger] ids[j] != ids[i]) {
            assert(ids[n - 1] != ids[i]);
        }
        if forall|j: int| 0 <= j < n ==> (space, #[trigger] ids[j]) != k {
            assert((space, ids[n - 1]) != k);
        }
    }
}

/// Stored vectors read back: of vectors stored under distinct ids, each is found under its id, with the
/// document it was stored for, and nothing else in the store changes. Lists of different length store
/// nothing.
pub proof fn law_vectors_read_back(
    store: &mut InMemoryKnowledge,
    space: &VectorSpace,
    doc_id: &str,
    ids: &Vec<String>,
    values: &Vec<Vec<u32>>,
    res: Result<(), KnowledgeError>,
    i: int,
    k: (SpaceView, Seq<char>),
)
    requires
        call_ensures(InMemoryKnowledge::upsert_vectors, (store, space, doc_id, ids, values), res),
        0 <= i < ids@.len(),
        forall|j: int| i < j < ids@.len() ==> (#[trigger] ids@[j])@ != ids@[i]@,
    ensures
        res is Ok <==> ids@.len() == values@.len(),
        res is Ok ==> {
            let at = (space@, ids@[i]@);
            &&& final(store).vectors().contains_key(at)
            &&& final(store).vectors()[at].vector == values@[i]@
            &&& final(store).vectors()[at].doc_id == doc_id@
        },
        res is Err ==> final(store).vectors() == old(store).vectors(),
        (forall|j: int| 0 <= j < ids@.len() ==> (space@, (#[trigger] ids@[j])@) != k) ==> final(store).vectors().contains_key(k) == old(store).vectors().contains_key(k) && final(store).vectors()[k] == old(store).vectors()[k],
        final(store).fact_list() == old(store).fact_list(),
{
    let names = texts(ids@);
    assert forall|j: int| i < j < names.len() implies #[trigger] names[j] != names[i] by {
        assert(names[j] == ids@[j]@);
    }
    lemma_upserted_at(old(store).vectors(), space@, doc_id@, names, values@, names.len() as int, i, k);
    if forall|j: int| 0 <= j < ids@.len() ==> (space@, (#[trigger] ids@[j])@) != k {
        assert forall|j: int| 0 <= j < names.len() implies (space@, #[trigger] names[j]) != k by {
            assert(names[j] == ids@[j]@);
        }
    }
}

/// An entity that a chunk mentions or a fact holds, as its subject or object, is not deleted; one that
/// nothing holds is, and its name vector with it.
pub proof fn law_held_entities_stay(
    store: &mut InMemoryKnowledge,
    id: &str,
    res: bool,
    c: Seq<char>,
    i: int,
)
    requires
        call_ensures(InMemoryKnowledge::delete_entity, (store, id), res),
    ensures
        old(store).mentions().contains((c, id@)) ==> !res,
        0 <= i < old(store).fact_list().len() && (old(store).fact_list()[i].0.subject == id@ || old(store).fact_list()[i].0.object == id@) ==> !res,
        res ==> old(store).entities().contains_key(id@) && !final(store).entities().contains_key(id@)
            && !final(store).vectors().contains_key((None, id@)),
        !res ==> final(store).entities() == old(store).entities(),
        old(store).entities().contains_key(id@) && old(store).mentions() == Set::<
            (Seq<char>, Seq<char>),
        >::empty() && old(store).fact_list().len() == 0 ==> res,
{
    if old(store).entities().contains_key(id@) && old(store).mentions() == Set::<
        (Seq<char>, Seq<char>),
    >::empty() && old(store).fact_list().len() == 0 {
        assert(forall|x: Seq<char>| !old(store).mentions().contains((x, id@)));
    }
}

/// What is deleted with a document is all of its vectors and the mentions by its chunks, and nothing of
/// another document: its vectors, the mentions by its chunks, the entities and the facts stay.
pub proof fn law_deletions_spare_other_documents(
    store: &mut InMemoryKnowledge,
    doc_id: &str,
    k: (SpaceView, Seq<char>),
    c: Seq<char>,
    e: Seq<char>,
)
    requires
        call_ensures(InMemoryKnowledge::delete_doc, (store, doc_id), ()),
    ensures
        final(store).vectors().contains_key(k) <==> old(store).vectors().contains_key(k) && old(store).vectors()[k].doc_id != doc_id@,
        final(store).vectors().contains_key(k) ==> final(store).vectors()[k] == old(store).vectors()[k],
        final(store).mentions().contains((c, e)) ==> old(store).mentions().contains((c, e)),
        old(store).mentions().contains((c, e)) && (forall|model: Seq<char>|
            old(store).vectors().contains_key((Some(model), c)) ==> (#[trigger] old(store).vectors()[(
                Some(model),
                c,
            )]).doc_id != doc_id@) ==> final(store).mentions().contains((c, e)),
        (k.0 matches Some(_) && old(store).vectors().contains_key(k) && old(store).vectors()[k].doc_id
            == doc_id@) ==> !final(store).mentions().contains((k.1, e)),
        final(store).entities() == old(store).entities(),
        final(store).fact_list() == old(store).fact_list(),
{
    if k.0 matches Some(model) && old(store).vectors().contains_key(k) && old(store).vectors()[k].doc_id
        == doc_id@ {
        let model = k.0->0;
        assert(k == (Some(model), k.1));
        assert(old(store).vectors()[(Some(model), k.1)].doc_id == doc_id@);
        assert(chunk_of_doc(old(store).vectors(), k.1, doc_id@));
    }
}

/// The chunks of entities are those that mention one of them, each once, in order.
pub proof fn law_mentioning_chunks_are_found(
    store: &InMemoryKnowledge,
    ids: &Vec<String>,
    res: Vec<String>,
    c: Seq<char>,
    i: int,
    j: int,
)
    requires
        call_ensures(InMemoryKnowledge::chunks_for_entities, (store, ids), res),
    ensures
        0 <= i < ids@.len() && store.mentions().contains((c, ids@[i]@)) ==> texts(res@).contains(c),
        texts(res@).contains(c) ==> exists|n: int|
            0 <= n < ids@.len() && store.mentions().contains((c, (#[trigger] ids@[n])@)),
        0 <= i < j < res@.len() ==> crate::text::text_less(res@[i]@, res@[j]@),
{
    let names = texts(ids@);
    if 0 <= i < ids@.len() && store.mentions().contains((c, ids@[i]@)) {
        assert(names[i] == ids@[i]@);
        let e = ids@[i]@;
        assert(names.contains(e) && store.mentions().contains((c, e)));
        assert(exists|e: Seq<char>| #[trigger]
            texts(ids@).contains(e) && store.mentions().contains((c, e)));
        assert(texts(res@).contains(c));
    }
    if texts(res@).contains(c) {
        let e = choose|e: Seq<char>| #[trigger]
            names.contains(e) && store.mentions().contains((c, e));
        let n = choose|n: int| 0 <= n < names.len() && names[n] == e;
        assert(names[n] == ids@[n]@);
    }
    if 0 <= i < j < res@.len() {
        assert(texts(res@)[i] == res@[i]@ && texts(res@)[j] == res@[j]@);
    }
}

/// What the store shows of a fact within one hop is what it holds: each stored fact with one of the entities
/// as its subject or object is shown, with its support, its chunks and its dates.
pub proof fn law_stored_facts_are_shown(
    store: &InMemoryKnowledge,
    ids: &Vec<String>,
    hops: u8,
    res: Vec<Fact>,
    i: int,
)
    requires
        call_ensures(InMemoryKnowledge::facts_within_hops, (store, ids, hops), res),
        store.wf(),
        hops > 0,
        0 <= i < store.fact_list().len(),
        texts(ids@).contains(store.fact_list()[i].0.subject) || texts(ids@).contains(
            store.fact_list()[i].0.object,
        ),
    ensures
        exists|n: int|
            {
                &&& 0 <= n < res@.len()
                &&& (#[trigger] res@[n]).subject_id@ == store.fact_list()[i].0.subject
                &&& res@[n].predicate == store.fact_list()[i].0.predicate
                &&& res@[n].object_id@ == store.fact_list()[i].0.object
                &&& res@[n].support_count == store.fact_list()[i].1.support
                &&& res@[n].properties is Some
                &&& json_property(res@[n].properties->0@, "evidence"@) == Some(
                    array_of(store.fact_list()[i].1.evidence),
                )
                &&& json_property(res@[n].properties->0@, "occurrences"@) == Some(
                    array_of(store.fact_list()[i].1.occurrences),
                )
            },
{
    reveal_strlit("evidence");
    reveal_strlit("occurrences");
    assert("evidence"@.len() == 8 && "occurrences"@.len() == 11);
    let stored = store.fact_list();
    let keys = stored.map_values(|p: (FactKeyView, FactStateView)| p.0);
    let start = texts(ids@).to_set();
    let found = discovered(keys, start, hops as nat);
    assert(shows_stored_facts(stored, found, res@));
    super::traversal::law_walk_finds_what_it_touches(keys, start, hops as nat);
    assert(keys[i] == stored[i].0);
    assert(super::traversal::frontier(keys, start, 0) == start);
    assert(super::traversal::touches(keys[i], super::traversal::frontier(keys, start, 0)));
    assert(super::traversal::seen(keys, found, keys[i]));
    let n = choose|n: int| 0 <= n < found.len() && keys[#[trigger] found[n]] == keys[i];
    assert(shows_stored(stored[found[n]], res@[n]));
    let pairs = fact_pairs(store.facts@);
    assert(keys[found[n]] == stored[found[n]].0);
    assert(unique_keys(pairs));
    assert(found[n] == i);
    assert(res@[n].subject_id@ == stored[i].0.subject);
}

} // verus!
