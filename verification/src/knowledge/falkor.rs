//! The remote graph: statements, decoded rows, and the decisions between them.

use vstd::prelude::*;
use vstd::string::StringExecFns;

use super::cypher::{cypher_list, cypher_str, quoted, quoted_list};
use super::edge::{parse_json, show_json, Json};
use super::traversal::{discovered, traverse, FactKey, FactKeyView};
use crate::knowledge::{EntityRecord, KnowledgeError, Predicate};
use crate::reply::{
    column_number, column_text, is_backend, row_string, row_string_optional, row_u64, Reply,
};
use crate::text::{debug_form, decimal, opt_text, texts};
use crate::text::{contains_text, decimal_string, same};

verus! {

/// The query for all facts.
pub const ALL_FACTS: &'static str = "MATCH (s:Entity)-[f:FACT]->(o:Entity) RETURN s.entity_id, f.predicate, o.entity_id, f.support, f.properties";

/// The statement that records a chunk of a document.
pub open spec fn ensure_chunk_text(chunk_id: Seq<char>, doc_id: Seq<char>) -> Seq<char> {
    "MERGE (c:Chunk {chunk_id: "@ + quoted(chunk_id) + "}) SET c.doc_id = "@ + quoted(doc_id)
}

/// The statement that records a chunk of a document.
pub fn ensure_chunk(chunk_id: &str, doc_id: &str) -> (res: String)
    ensures
        res@ == ensure_chunk_text(chunk_id@, doc_id@),
{
    let chunk_id_literal = cypher_str(chunk_id);
    let doc_id_literal = cypher_str(doc_id);
    let mut q = "MERGE (c:Chunk {chunk_id: ".to_owned();
    q.append(chunk_id_literal.as_str());
    q.append("}) SET c.doc_id = ");
    q.append(doc_id_literal.as_str());
    q
}

/// The statement that links a chunk to an entity once.
pub open spec fn link_mention_text(chunk_id: Seq<char>, entity_id: Seq<char>) -> Seq<char> {
    "MERGE (c:Chunk {chunk_id: "@ + quoted(chunk_id) + "}) MERGE (e:Entity {entity_id: "@ + quoted(entity_id) + "}) MERGE (c)-[m:MENTIONS]->(e) ON CREATE SET m.support = 1"@
}

/// The statement that links a chunk to an entity once.
pub fn link_mention(chunk_id: &str, entity_id: &str) -> (res: String)
    ensures
        res@ == link_mention_text(chunk_id@, entity_id@),
{
    let chunk_id_literal = cypher_str(chunk_id);
    let entity_id_literal = cypher_str(entity_id);
    let mut q = "MERGE (c:Chunk {chunk_id: ".to_owned();
    q.append(chunk_id_literal.as_str());
    q.append("}) MERGE (e:Entity {entity_id: ");
    q.append(entity_id_literal.as_str());
    q.append("}) MERGE (c)-[m:MENTIONS]->(e) ON CREATE SET m.support = 1");
    q
}

/// The query for the mentions of an entity.
pub open spec fn mentions_of_text(entity_id: Seq<char>) -> Seq<char> {
    "MATCH (c:Chunk)-[m:MENTIONS]->(e:Entity {entity_id: "@ + quoted(entity_id) + "}) RETURN c.chunk_id, m.support"@
}

/// The query for the mentions of an entity.
pub fn mentions_of(entity_id: &str) -> (res: String)
    ensures
        res@ == mentions_of_text(entity_id@),
{
    let entity_id_literal = cypher_str(entity_id);
    let mut q = "MATCH (c:Chunk)-[m:MENTIONS]->(e:Entity {entity_id: ".to_owned();
    q.append(entity_id_literal.as_str());
    q.append("}) RETURN c.chunk_id, m.support");
    q
}

/// The query for the facts of an entity.
pub open spec fn facts_of_text(entity_id: Seq<char>) -> Seq<char> {
    "MATCH (s:Entity)-[f:FACT]->(o:Entity) WHERE s.entity_id = "@ + quoted(entity_id) + " OR o.entity_id = "@ + quoted(entity_id) + " RETURN s.entity_id, f.predicate, o.entity_id, f.support, f.properties"@
}

/// The query for the facts of an entity.
pub fn facts_of(entity_id: &str) -> (res: String)
    ensures
        res@ == facts_of_text(entity_id@),
{
    let entity_id_literal = cypher_str(entity_id);
    let mut q = "MATCH (s:Entity)-[f:FACT]->(o:Entity) WHERE s.entity_id = ".to_owned();
    q.append(entity_id_literal.as_str());
    q.append(" OR o.entity_id = ");
    q.append(entity_id_literal.as_str());
    q.append(" RETURN s.entity_id, f.predicate, o.entity_id, f.support, f.properties");
    q
}

/// The statement that deletes an entity with its edges.
pub open spec fn detach_entity_text(entity_id: Seq<char>) -> Seq<char> {
    "MATCH (e:Entity {entity_id: "@ + quoted(entity_id) + "}) DETACH DELETE e"@
}

/// The statement that deletes an entity with its edges.
pub fn detach_entity(entity_id: &str) -> (res: String)
    ensures
        res@ == detach_entity_text(entity_id@),
{
    let entity_id_literal = cypher_str(entity_id);
    let mut q = "MATCH (e:Entity {entity_id: ".to_owned();
    q.append(entity_id_literal.as_str());
    q.append("}) DETACH DELETE e");
    q
}

/// The query for the endpoints of a fact.
pub open spec fn endpoints_text(subject_id: Seq<char>, object_id: Seq<char>) -> Seq<char> {
    "MATCH (e:Entity) WHERE e.entity_id IN ["@ + quoted(subject_id) + ", "@ + quoted(object_id) + "] RETURN e.entity_id"@
}

/// The query for the endpoints of a fact.
pub fn endpoints(subject_id: &str, object_id: &str) -> (res: String)
    ensures
        res@ == endpoints_text(subject_id@, object_id@),
{
    let subject_id_literal = cypher_str(subject_id);
    let object_id_literal = cypher_str(object_id);
    let mut q = "MATCH (e:Entity) WHERE e.entity_id IN [".to_owned();
    q.append(subject_id_literal.as_str());
    q.append(", ");
    q.append(object_id_literal.as_str());
    q.append("] RETURN e.entity_id");
    q
}

/// The query for one fact.
pub open spec fn fact_edge_text(subject_id: Seq<char>, predicate: Predicate, object_id: Seq<char>) -> Seq<char> {
    "MATCH (s:Entity {entity_id: "@ + quoted(subject_id) + "})-[f:FACT {predicate: "@ + quoted(predicate.name()) + "}]->(o:Entity {entity_id: "@ + quoted(object_id) + "}) RETURN s.entity_id, f.predicate, o.entity_id, f.support, f.properties"@
}

/// The query for one fact.
pub fn fact_edge(subject_id: &str, predicate: Predicate, object_id: &str) -> (res: String)
    ensures
        res@ == fact_edge_text(subject_id@, predicate, object_id@),
{
    let subject_id_literal = cypher_str(subject_id);
    let predicate_literal = cypher_str(predicate.as_str());
    let object_id_literal = cypher_str(object_id);
    let mut q = "MATCH (s:Entity {entity_id: ".to_owned();
    q.append(subject_id_literal.as_str());
    q.append("})-[f:FACT {predicate: ");
    q.append(predicate_literal.as_str());
    q.append("}]->(o:Entity {entity_id: ");
    q.append(object_id_literal.as_str());
    q.append("}) RETURN s.entity_id, f.predicate, o.entity_id, f.support, f.properties");
    q
}

/// The statement that stores the support and properties of a fact.
pub open spec fn write_fact_text(subject_id: Seq<char>, predicate: Predicate, object_id: Seq<char>, support: u64, properties: Seq<char>) -> Seq<char> {
    "MATCH (s:Entity {entity_id: "@ + quoted(subject_id) + "}), (o:Entity {entity_id: "@ + quoted(object_id) + "}) MERGE (s)-[f:FACT {predicate: "@ + quoted(predicate.name()) + "}]->(o) SET f.support = "@ + decimal(support as nat) + ", f.properties = "@ + quoted(properties)
}

/// The statement that stores the support and properties of a fact.
pub fn write_fact(subject_id: &str, predicate: Predicate, object_id: &str, support: u64, properties: &str) -> (res: String)
    ensures
        res@ == write_fact_text(subject_id@, predicate, object_id@, support, properties@),
{
    let subject_id_literal = cypher_str(subject_id);
    let object_id_literal = cypher_str(object_id);
    let predicate_literal = cypher_str(predicate.as_str());
    let support_digits = decimal_string(support);
    let properties_literal = cypher_str(properties);
    let mut q = "MATCH (s:Entity {entity_id: ".to_owned();
    q.append(subject_id_literal.as_str());
    q.append("}), (o:Entity {entity_id: ");
    q.append(object_id_literal.as_str());
    q.append("}) MERGE (s)-[f:FACT {predicate: ");
    q.append(predicate_literal.as_str());
    q.append("}]->(o) SET f.support = ");
    q.append(support_digits.as_str());
    q.append(", f.properties = ");
    q.append(properties_literal.as_str());
    q
}

/// The statement that adds support to a mention.
pub open spec fn merge_mention_text(chunk_id: Seq<char>, entity_id: Seq<char>, support: u64) -> Seq<char> {
    "MERGE (c:Chunk {chunk_id: "@ + quoted(chunk_id) + "}) MERGE (e:Entity {entity_id: "@ + quoted(entity_id) + "}) MERGE (c)-[m:MENTIONS]->(e) ON CREATE SET m.support = "@ + decimal(support as nat) + " ON MATCH SET m.support = coalesce(m.support, 0) + "@ + decimal(support as nat)
}

/// The statement that adds support to a mention.
pub fn merge_mention(chunk_id: &str, entity_id: &str, support: u64) -> (res: String)
    ensures
        res@ == merge_mention_text(chunk_id@, entity_id@, support),
{
    let chunk_id_literal = cypher_str(chunk_id);
    let entity_id_literal = cypher_str(entity_id);
    let support_digits = decimal_string(support);
    let mut q = "MERGE (c:Chunk {chunk_id: ".to_owned();
    q.append(chunk_id_literal.as_str());
    q.append("}) MERGE (e:Entity {entity_id: ");
    q.append(entity_id_literal.as_str());
    q.append("}) MERGE (c)-[m:MENTIONS]->(e) ON CREATE SET m.support = ");
    q.append(support_digits.as_str());
    q.append(" ON MATCH SET m.support = coalesce(m.support, 0) + ");
    q.append(support_digits.as_str());
    q
}

/// The statement that deletes the chunks of a document.
pub open spec fn delete_document_text(doc_id: Seq<char>) -> Seq<char> {
    "MATCH (c:Chunk {doc_id: "@ + quoted(doc_id) + "}) DETACH DELETE c"@
}

/// The statement that deletes the chunks of a document.
pub fn delete_document(doc_id: &str) -> (res: String)
    ensures
        res@ == delete_document_text(doc_id@),
{
    let doc_id_literal = cypher_str(doc_id);
    let mut q = "MATCH (c:Chunk {doc_id: ".to_owned();
    q.append(doc_id_literal.as_str());
    q.append("}) DETACH DELETE c");
    q
}

/// The query for the number of edges of an entity.
pub open spec fn entity_degree_text(entity_id: Seq<char>) -> Seq<char> {
    "MATCH (e:Entity {entity_id: "@ + quoted(entity_id) + "}) OPTIONAL MATCH (e)-[r]-() RETURN count(DISTINCT e), count(r)"@
}

/// The query for the number of edges of an entity.
pub fn entity_degree(entity_id: &str) -> (res: String)
    ensures
        res@ == entity_degree_text(entity_id@),
{
    let entity_id_literal = cypher_str(entity_id);
    let mut q = "MATCH (e:Entity {entity_id: ".to_owned();
    q.append(entity_id_literal.as_str());
    q.append("}) OPTIONAL MATCH (e)-[r]-() RETURN count(DISTINCT e), count(r)");
    q
}

/// The statement that deletes an entity without edges.
pub open spec fn delete_entity_text(entity_id: Seq<char>) -> Seq<char> {
    "MATCH (e:Entity {entity_id: "@ + quoted(entity_id) + "}) DELETE e"@
}

/// The statement that deletes an entity without edges.
pub fn delete_entity(entity_id: &str) -> (res: String)
    ensures
        res@ == delete_entity_text(entity_id@),
{
    let entity_id_literal = cypher_str(entity_id);
    let mut q = "MATCH (e:Entity {entity_id: ".to_owned();
    q.append(entity_id_literal.as_str());
    q.append("}) DELETE e");
    q
}

/// The query for the chunks that mention any of the entities.
pub open spec fn chunks_for_entities_text(ids: Seq<Seq<char>>) -> Seq<char> {
    "MATCH (c:Chunk)-[:MENTIONS]->(e:Entity) WHERE e.entity_id IN ["@ + quoted_list(ids) + "] RETURN DISTINCT c.chunk_id ORDER BY c.chunk_id"@
}

/// The query for the chunks that mention any of the entities.
pub fn chunks_for_entities(ids: &Vec<String>) -> (res: String)
    ensures
        res@ == chunks_for_entities_text(texts(ids@)),
{
    let ids_literals = cypher_list(ids);
    let mut q = "MATCH (c:Chunk)-[:MENTIONS]->(e:Entity) WHERE e.entity_id IN [".to_owned();
    q.append(ids_literals.as_str());
    q.append("] RETURN DISTINCT c.chunk_id ORDER BY c.chunk_id");
    q
}

/// The statement that records an entity.
pub open spec fn upsert_entity_text(entity: EntityRecord) -> Seq<char> {
    "MERGE (e:Entity {entity_id: "@ + quoted(entity.entity_id@) + "}) SET e.canonical_name = "@
        + quoted(entity.canonical_name@) + ", e.entity_type = "@ + quoted(entity.entity_type.name())
        + ", e.subtype = "@ + quoted(
        match entity.subtype {
            Some(s) => s@,
            None => seq![],
        },
    )
}

/// The statement that records an entity.
pub fn upsert_entity(entity: &EntityRecord) -> (res: String)
    ensures
        res@ == upsert_entity_text(*entity),
{
    let id = cypher_str(entity.entity_id.as_str());
    let name = cypher_str(entity.canonical_name.as_str());
    let kind = cypher_str(entity.entity_type.as_str());
    let subtype = match &entity.subtype {
        Some(s) => cypher_str(s.as_str()),
        None => {
            let empty = String::new();
            cypher_str(empty.as_str())
        },
    };
    let mut q = "MERGE (e:Entity {entity_id: ".to_owned();
    q.append(id.as_str());
    q.append("}) SET e.canonical_name = ");
    q.append(name.as_str());
    q.append(", e.entity_type = ");
    q.append(kind.as_str());
    q.append(", e.subtype = ");
    q.append(subtype.as_str());
    q
}

/// A fact as the graph stores it.
#[derive(Debug)]
pub struct GraphFact {
    /// The subject.
    pub subject_id: String,
    /// The predicate.
    pub predicate: Predicate,
    /// The object.
    pub object_id: String,
    /// How many chunks assert the fact.
    pub support: u64,
    /// The stored properties.
    pub properties: Option<String>,
}

/// The model of a [`GraphFact`].
pub struct GraphFactView {
    pub subject: Seq<char>,
    pub predicate: Predicate,
    pub object: Seq<char>,
    pub support: nat,
    pub properties: Option<Seq<char>>,
}

impl View for GraphFact {
    type V = GraphFactView;

    open spec fn view(&self) -> GraphFactView {
        GraphFactView {
            subject: self.subject_id@,
            predicate: self.predicate,
            object: self.object_id@,
            support: self.support as nat,
            properties: opt_text(self.properties),
        }
    }
}

/// Whether `res` is what a row of a fact decodes to: the subject, predicate, object, support and
/// properties of its first five columns, or what is wrong with the first faulty one.
pub open spec fn decodes_fact(row: Seq<Reply>, res: Result<GraphFact, KnowledgeError>) -> bool {
    match column_text(row, 0) {
        Err(m) => res is Err && is_backend(res->Err_0, m),
        Ok(subject) => match column_text(row, 1) {
            Err(m) => res is Err && is_backend(res->Err_0, m),
            Ok(name) => if forall|p: Predicate| #[trigger] p.name() != name {
                res is Err && is_backend(res->Err_0, "unknown predicate "@ + debug_form(name))
            } else {
                match column_text(row, 2) {
                    Err(m) => res is Err && is_backend(res->Err_0, m),
                    Ok(object) => match column_number(row, 3) {
                        Err(m) => res is Err && is_backend(res->Err_0, m),
                        Ok(support) => {
                            let absent = 4 < row.len() && row[4].body is Nil;
                            if !absent && column_text(row, 4) is Err {
                                res is Err && is_backend(res->Err_0, column_text(row, 4)->Err_0)
                            } else {
                                &&& res is Ok
                                &&& res->Ok_0@.subject == subject
                                &&& res->Ok_0@.predicate.name() == name
                                &&& res->Ok_0@.object == object
                                &&& res->Ok_0@.support == support
                                &&& res->Ok_0@.properties == if absent {
                                    None
                                } else {
                                    Some(column_text(row, 4)->Ok_0)
                                }
                            }
                        },
                    },
                }
            },
        },
    }
}

/// Decodes a row of a fact.
pub fn graph_fact(row: &Vec<Reply>) -> (res: Result<GraphFact, KnowledgeError>)
    ensures
        decodes_fact(row@, res),
{
    let subject_id = match row_string(row, 0) {
        Ok(s) => s,
        Err(e) => {
            return Err(e);
        },
    };
    let name = match row_string(row, 1) {
        Ok(s) => s,
        Err(e) => {
            return Err(e);
        },
    };
    let predicate = match Predicate::from_str(name.as_str()) {
        Ok(p) => p,
        Err(e) => {
            return Err(e);
        },
    };
    let object_id = match row_string(row, 2) {
        Ok(s) => s,
        Err(e) => {
            return Err(e);
        },
    };
    let support = match row_u64(row, 3) {
        Ok(n) => n,
        Err(e) => {
            return Err(e);
        },
    };
    let properties = match row_string_optional(row, 4) {
        Ok(p) => p,
        Err(e) => {
            return Err(e);
        },
    };
    Ok(GraphFact { subject_id, predicate, object_id, support, properties })
}

/// A fact edge between entities, as callers see it.
#[derive(Debug)]
pub struct Fact {
    /// The subject entity id.
    pub subject_id: String,
    /// The relation.
    pub predicate: Predicate,
    /// The object entity id.
    pub object_id: String,
    /// How many chunks assert this fact.
    pub support_count: u64,
    /// The properties of the edge, if any.
    pub properties: Option<Json>,
}

/// The identity of a stored fact.
pub open spec fn fact_key(f: GraphFactView) -> FactKeyView {
    FactKeyView { subject: f.subject, predicate: f.predicate, object: f.object }
}

/// The identities of stored facts.
pub open spec fn fact_keys(facts: Seq<GraphFact>) -> Seq<FactKeyView> {
    facts.map_values(|f: GraphFact| fact_key(f@))
}

/// Whether `f` is a stored fact as callers see it: its properties are read as JSON and left out
/// where they are none.
pub open spec fn shows_fact(stored: GraphFactView, f: Fact) -> bool {
    &&& f.subject_id@ == stored.subject
    &&& f.predicate == stored.predicate
    &&& f.object_id@ == stored.object
    &&& f.support_count == stored.support
    &&& super::edge::json_view(f.properties) == match stored.properties {
        Some(raw) => match super::edge::parsed_json(raw) {
            Ok(j) => Some(super::edge::shown_json(j)),
            Err(_) => None,
        },
        None => None,
    }
}

/// Whether the first `n` of `shown` are the stored facts at the indices `found`.
pub open spec fn shows_facts(facts: Seq<GraphFact>, found: Seq<int>, shown: Seq<Fact>, n: int) -> bool {
    forall|j: int|
        0 <= j < n ==> 0 <= found[j] < facts.len() && shows_fact(
            facts[found[j]]@,
            #[trigger] shown[j],
        )
}

fn keys_of(facts: &Vec<GraphFact>) -> (res: Vec<FactKey>)
    ensures
        super::traversal::key_views(res@) == fact_keys(facts@),
{
    let mut res: Vec<FactKey> = Vec::new();
    let mut i: usize = 0;
    while i < facts.len()
        invariant
            i <= facts@.len(),
            super::traversal::key_views(res@) == fact_keys(facts@).take(i as int),
        decreases facts@.len() - i,
    {
        let ghost before = super::traversal::key_views(res@);
        let k = FactKey {
            subject_id: facts[i].subject_id.clone(),
            predicate: facts[i].predicate,
            object_id: facts[i].object_id.clone(),
        };
        res.push(k);
        assert(super::traversal::key_views(res@) =~= before.push(k@));
        assert(fact_keys(facts@)[i as int] == k@);
        i = i + 1;
        assert(super::traversal::key_views(res@) =~= fact_keys(facts@).take(i as int));
    }
    assert(fact_keys(facts@).take(i as int) =~= fact_keys(facts@));
    res
}

/// The facts within `hops` edges of any of `ids`, in the order in which a breadth-first walk finds
/// them.
pub fn facts_within_hops(facts: &Vec<GraphFact>, ids: &Vec<String>, hops: u8) -> (res: Vec<Fact>)
    ensures
        ({
            let found = discovered(fact_keys(facts@), texts(ids@).to_set(), hops as nat);
            &&& res@.len() == found.len()
            &&& shows_facts(facts@, found, res@, found.len() as int)
        }),
{
    let keys = keys_of(facts);
    let indices = traverse(&keys, ids, hops);
    assert(keys@.len() == fact_keys(facts@).len());
    let ghost found = discovered(fact_keys(facts@), texts(ids@).to_set(), hops as nat);
    let mut res: Vec<Fact> = Vec::new();
    let mut i: usize = 0;
    while i < indices.len()
        invariant
            i <= indices@.len() == found.len(),
            res@.len() == i,
            forall|j: int|
                0 <= j < indices@.len() ==> #[trigger] indices@[j] == found[j] && indices@[j]
                    < facts@.len(),
            shows_facts(facts@, found, res@, i as int),
        decreases indices@.len() - i,
    {
        let f = &facts[indices[i]];
        assert(found[i as int] == indices@[i as int]);
        let ghost shown = res@;
        let properties = match &f.properties {
            Some(raw) => match parse_json(raw.as_str()) {
                Ok(j) => Some(show_json(j)),
                Err(_) => None,
            },
            None => None,
        };
        res.push(
            Fact {
                subject_id: f.subject_id.clone(),
                predicate: f.predicate,
                object_id: f.object_id.clone(),
                support_count: f.support,
                properties,
            },
        );
        assert(shows_facts(facts@, found, res@, i + 1)) by {
            assert(shows_fact(f@, res@[i as int]));
            assert(0 <= found[i as int] < facts@.len());
            assert(facts@[found[i as int]]@ == f@);
            assert(shows_facts(facts@, found, shown, i as int));
            assert forall|j: int| 0 <= j < i + 1 implies 0 <= #[trigger] found[j] < facts@.len() by {
                if j < i {
                    assert(res@[j] == shown[j]);
                }
            }
            assert forall|j: int| 0 <= j < i + 1 implies shows_fact(
                facts@[found[j]]@,
                #[trigger] res@[j],
            ) by {
                if j < i {
                    assert(res@[j] == shown[j]);
                }
            }
        }
        i = i + 1;
    }
    res
}

/// Whether both endpoints of a fact are among the entities found. The endpoints of a fact from an
/// entity to itself are one entity, which is not enough.
pub fn endpoints_present(found: &Vec<String>) -> (res: bool)
    ensures
        res == (texts(found@).to_set().len() == 2),
{
    let mut distinct: Vec<String> = Vec::new();
    let ghost all = texts(found@);
    let mut i: usize = 0;
    proof {
        assert(texts(distinct@) =~= seq![]);
        assert(texts(distinct@).to_set() =~= all.take(0).to_set());
    }
    while i < found.len()
        invariant
            i <= found@.len(),
            all == texts(found@),
            texts(distinct@).no_duplicates(),
            texts(distinct@).to_set() == all.take(i as int).to_set(),
        decreases found@.len() - i,
    {
        let ghost before = texts(distinct@);
        let ghost x = found@[i as int]@;
        assert(all.take(i + 1) =~= all.take(i as int).push(x));
        proof {
            crate::text::lemma_push_to_set(all.take(i as int), x);
            crate::text::lemma_push_to_set(before, x);
        }
        if !contains_text(&distinct, found[i].as_str()) {
            distinct.push(found[i].clone());
            assert(texts(distinct@) =~= before.push(x));
        } else {
            assert(before.to_set().contains(x));
            assert(before.to_set().insert(x) =~= before.to_set());
        }
        i = i + 1;
    }
    proof {
        assert(all.take(i as int) =~= all);
        texts(distinct@).unique_seq_to_set();
    }
    distinct.len() == 2
}

/// The error of a fact whose endpoints are not both there.
pub fn missing_endpoints(subject_id: &str, object_id: &str) -> (res: KnowledgeError)
    ensures
        is_backend(
            res,
            "fact endpoints are missing: "@ + subject_id@ + " -> "@ + object_id@,
        ),
{
    let mut m = "fact endpoints are missing: ".to_owned();
    m.append(subject_id);
    m.append(" -> ");
    m.append(object_id);
    KnowledgeError::Backend(m)
}

/// A fact with the folded entity replaced by the kept one at both ends.
pub fn substitute_entity(fact: GraphFact, loser: &str, winner: &str) -> (res: GraphFact)
    ensures
        res@ == (GraphFactView {
            subject: if fact@.subject == loser@ {
                winner@
            } else {
                fact@.subject
            },
            object: if fact@.object == loser@ {
                winner@
            } else {
                fact@.object
            },
            ..fact@
        }),
{
    let subject_id = if same(fact.subject_id.as_str(), loser) {
        winner.to_owned()
    } else {
        fact.subject_id
    };
    let object_id = if same(fact.object_id.as_str(), loser) {
        winner.to_owned()
    } else {
        fact.object_id
    };
    GraphFact {
        subject_id,
        predicate: fact.predicate,
        object_id,
        support: fact.support,
        properties: fact.properties,
    }
}

/// The support that a folded mention hands over: at least one.
pub fn folded_support(stored: u64) -> (res: u64)
    ensures
        res == if stored == 0 {
            1
        } else {
            stored
        },
{
    if stored == 0 {
        1
    } else {
        stored
    }
}

/// The support and stored properties of a fact that takes over those of a folded one.
pub fn merged_fact_state(existing: Option<(u64, Option<String>)>, fact: &GraphFact) -> (res: (
    u64,
    String,
))
    ensures
        match existing {
            Some((support, properties)) => {
                &&& res.0 == if support + fact.support > u64::MAX {
                    u64::MAX as int
                } else {
                    support + fact.support
                }
                &&& res.1@ == super::edge::remote_edge_text(
                    super::edge::remotely_folded_edge(
                        super::edge::edge_state_of(super::edge::stored_text(properties)),
                        super::edge::edge_state_of(super::edge::stored_text(fact.properties)),
                    ),
                )
            },
            None => {
                &&& res.0 == fact.support
                &&& res.1@ == super::edge::remote_edge_text(
                    super::edge::remotely_folded_edge(
                        super::edge::edge_state_of(seq![]),
                        super::edge::edge_state_of(super::edge::stored_text(fact.properties)),
                    ),
                )
            },
        },
{
    let incoming = match &fact.properties {
        Some(s) => Some(s.as_str()),
        None => None,
    };
    match existing {
        Some((support, properties)) => {
            let stored = match &properties {
                Some(s) => Some(s.as_str()),
                None => None,
            };
            (
                support.saturating_add(fact.support),
                super::edge::merge_remote_edge_properties(stored, incoming),
            )
        },
        None => (fact.support, super::edge::merge_remote_edge_properties(None, incoming)),
    }
}

/// What the deletion of an entity comes to.
#[derive(Debug, Clone, Copy, PartialEq, Eq, Structural)]
pub enum EntityDeleteOutcome {
    /// The entity is there and has no edge: it is deleted.
    Deleted,
    /// The entity still has edges and stays.
    Referenced,
    /// There is no such entity.
    Absent,
}

/// Decides the deletion of an entity from the reply to its degree query.
pub fn delete_outcome(rows: &Vec<&Vec<Reply>>) -> (res: Result<EntityDeleteOutcome, KnowledgeError>)
    ensures
        if rows@.len() == 0 {
            res == Ok::<EntityDeleteOutcome, KnowledgeError>(EntityDeleteOutcome::Absent)
        } else {
            let row = rows@[0]@;
            match column_number(row, 0) {
                Err(m) => res is Err && is_backend(res->Err_0, m),
                Ok(count) => if count == 0 {
                    res == Ok::<EntityDeleteOutcome, KnowledgeError>(EntityDeleteOutcome::Absent)
                } else {
                    match column_number(row, 1) {
                        Err(m) => res is Err && is_backend(res->Err_0, m),
                        Ok(edges) => res == Ok::<EntityDeleteOutcome, KnowledgeError>(
                            if edges > 0 {
                                EntityDeleteOutcome::Referenced
                            } else {
                                EntityDeleteOutcome::Deleted
                            },
                        ),
                    }
                },
            }
        },
{
    if rows.len() == 0 {
        return Ok(EntityDeleteOutcome::Absent);
    }
    let row = rows[0];
    match row_u64(row, 0) {
        Err(e) => Err(e),
        Ok(count) => if count == 0 {
            Ok(EntityDeleteOutcome::Absent)
        } else {
            match row_u64(row, 1) {
                Err(e) => Err(e),
                Ok(edges) => if edges > 0 {
                    Ok(EntityDeleteOutcome::Referenced)
                } else {
                    Ok(EntityDeleteOutcome::Deleted)
                },
            }
        },
    }
}

/// Refuses writes in a process that may only read.
pub fn require_writable(read_only: bool) -> (res: Result<(), KnowledgeError>)
    ensures
        match res {
            Ok(_) => !read_only,
            Err(e) => {
                &&& read_only
                &&& e is Unavailable
                &&& e->Unavailable_0@ == "knowledge store is read-only in this process"@
            },
        },
{
    if read_only {
        Err(
            KnowledgeError::Unavailable("knowledge store is read-only in this process".to_owned()),
        )
    } else {
        Ok(())
    }
}

/// A fact that a fold moves keeps all but its folded endpoint: the loser becomes the winner, as subject and as
/// object, every other entity stays, and so do predicate, support and properties. The supports of facts
/// that become one are added, up to the largest number, and a stored mention without support counts once.
pub proof fn law_folded_facts_keep_their_support(
    fact: GraphFact,
    loser: &str,
    winner: &str,
    moved: GraphFact,
    stored: u64,
    counted: u64,
    support: u64,
    properties: Option<String>,
    merged: (u64, String),
    fresh: (u64, String),
)
    requires
        call_ensures(substitute_entity, (fact, loser, winner), moved),
        call_ensures(folded_support, (stored,), counted),
        call_ensures(merged_fact_state, (Some((support, properties)), &fact), merged),
        call_ensures(merged_fact_state, (None, &fact), fresh),
    ensures
        fact@.subject == loser@ ==> moved@.subject == winner@,
        fact@.subject != loser@ ==> moved@.subject == fact@.subject,
        fact@.object == loser@ ==> moved@.object == winner@,
        fact@.object != loser@ ==> moved@.object == fact@.object,
        moved@.predicate == fact@.predicate,
        moved@.support == fact@.support,
        moved@.properties == fact@.properties,
        stored == 0 ==> counted == 1,
        stored > 0 ==> counted == stored,
        support + fact.support <= u64::MAX ==> merged.0 == support + fact.support,
        support + fact.support > u64::MAX ==> merged.0 == u64::MAX,
        fresh.0 == fact.support,
{
}

/// An entity is deleted where it is there and has no edge, is kept where it has one, and is absent where it is
/// not there; nothing is written in a process that only reads.
pub proof fn law_entities_with_edges_are_kept(
    rows: &Vec<&Vec<Reply>>,
    res: Result<EntityDeleteOutcome, KnowledgeError>,
    there: nat,
    edges: nat,
    read_only: bool,
    writable: Result<(), KnowledgeError>,
)
    requires
        call_ensures(delete_outcome, (rows,), res),
        call_ensures(require_writable, (read_only,), writable),
        rows@.len() > 0,
        column_number(rows@[0]@, 0) == Ok::<nat, Seq<char>>(there),
        column_number(rows@[0]@, 1) == Ok::<nat, Seq<char>>(edges),
    ensures
        there == 0 ==> res == Ok::<EntityDeleteOutcome, KnowledgeError>(EntityDeleteOutcome::Absent),
        there > 0 && edges > 0 ==> res == Ok::<EntityDeleteOutcome, KnowledgeError>(
            EntityDeleteOutcome::Referenced,
        ),
        there > 0 && edges == 0 ==> res == Ok::<EntityDeleteOutcome, KnowledgeError>(
            EntityDeleteOutcome::Deleted,
        ),
        writable is Ok <==> !read_only,
{
}

/// Every stored fact of one of the entities is shown, with its support, whichever of its endpoints the entity
/// is.
pub proof fn law_facts_of_both_ends_are_shown(
    facts: &Vec<GraphFact>,
    ids: &Vec<String>,
    hops: u8,
    res: Vec<Fact>,
    i: int,
)
    requires
        call_ensures(facts_within_hops, (facts, ids, hops), res),
        hops > 0,
        0 <= i < facts@.len(),
        texts(ids@).contains(facts@[i]@.subject) || texts(ids@).contains(facts@[i]@.object),
        forall|k: int|
            0 <= k < facts@.len() && k != i ==> fact_key((#[trigger] facts@[k])@) != fact_key(
                facts@[i]@,
            ),
    ensures
        exists|n: int|
            {
                &&& 0 <= n < res@.len()
                &&& (#[trigger] res@[n]).subject_id@ == facts@[i]@.subject
                &&& res@[n].predicate == facts@[i]@.predicate
                &&& res@[n].object_id@ == facts@[i]@.object
                &&& res@[n].support_count == facts@[i]@.support
            },
{
    let keys = fact_keys(facts@);
    let start = texts(ids@).to_set();
    let found = discovered(keys, start, hops as nat);
    super::traversal::law_walk_finds_what_it_touches(keys, start, hops as nat);
    assert(keys[i] == fact_key(facts@[i]@));
    assert(super::traversal::frontier(keys, start, 0) == start);
    assert(super::traversal::touches(keys[i], super::traversal::frontier(keys, start, 0)));
    assert(super::traversal::seen(keys, found, keys[i]));
    let n = choose|n: int| 0 <= n < found.len() && keys[#[trigger] found[n]] == keys[i];
    assert(shows_fact(facts@[found[n]]@, res@[n]));
    assert(keys[found[n]] == fact_key(facts@[found[n]]@));
    assert(found[n] == i);
    assert(res@[n].subject_id@ == facts@[i]@.subject);
}

} // verus!
