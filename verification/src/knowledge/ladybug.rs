//! The embedded graph store: statements, decoded cells, and the decisions between them.

use vstd::prelude::*;
use vstd::string::StringExecFns;

use super::collections::{names_with_prefix, with_prefix};
use super::cypher::{cypher_str, quoted};
use super::edge::{json_view, parse_json, parsed_json, show_json, shown_json, JsonView};
use super::falkor::{EntityDeleteOutcome, Fact};
use super::walk::{Triple, TripleView};
use crate::knowledge::{KnowledgeError, Predicate};
use crate::reply::is_backend;
use crate::text::{contains, decimal_string, same};
use crate::text::{debug_form, decimal, has_text, opt_text, texts};

verus! {

/// A value of a result tuple.
#[derive(Debug)]
pub struct Cell {
    /// What the value is.
    pub value: CellValue,
    /// The printed form of the value.
    pub shown: String,
}

/// What a value of a result tuple is. Floating-point values are carried by their bits.
#[derive(Debug)]
pub enum CellValue {
    /// A string.
    Text(String),
    /// No value.
    Null,
    /// A 64-bit integer.
    Int64(i64),
    /// A 32-bit integer.
    Int32(i32),
    /// A double-precision number.
    Double(u64),
    /// A single-precision number.
    Float(u32),
    /// Any other value.
    Other,
}

/// The bits of a floating-point value.
#[derive(Debug, Clone, Copy, PartialEq, Eq, Structural)]
pub enum RealBits {
    /// A double-precision number.
    Double(u64),
    /// A single-precision number.
    Single(u32),
}

/// What is said of a missing column.
pub open spec fn missing_message(i: int) -> Seq<char> {
    "Ladybug result tuple is missing column "@ + decimal(i as nat)
}

/// What is said of a column of another type.
pub open spec fn type_message(tuple: Seq<Cell>, i: int, expected: Seq<char>) -> Seq<char> {
    "Ladybug result column "@ + decimal(i as nat) + " has unexpected value "@ + tuple[i].shown@
        + "; expected "@ + expected
}

fn missing_error(i: usize) -> (res: KnowledgeError)
    ensures
        is_backend(res, missing_message(i as int)),
{
    let mut m = "Ladybug result tuple is missing column ".to_owned();
    let d = decimal_string(i as u64);
    m.append(d.as_str());
    KnowledgeError::Backend(m)
}

fn type_error(tuple: &Vec<Cell>, i: usize, expected: &str) -> (res: KnowledgeError)
    requires
        i < tuple@.len(),
    ensures
        is_backend(res, type_message(tuple@, i as int, expected@)),
{
    let mut m = "Ladybug result column ".to_owned();
    let d = decimal_string(i as u64);
    m.append(d.as_str());
    m.append(" has unexpected value ");
    m.append(tuple[i].shown.as_str());
    m.append("; expected ");
    m.append(expected);
    KnowledgeError::Backend(m)
}

/// Reads a string from a result tuple.
pub fn string_at(tuple: &Vec<Cell>, i: usize) -> (res: Result<String, KnowledgeError>)
    ensures
        if i >= tuple@.len() {
            res is Err && is_backend(res->Err_0, missing_message(i as int))
        } else {
            match tuple@[i as int].value {
                CellValue::Text(s) => res is Ok && res->Ok_0@ == s@,
                _ => res is Err && is_backend(
                    res->Err_0,
                    type_message(tuple@, i as int, "STRING"@),
                ),
            }
        },
{
    if i >= tuple.len() {
        return Err(missing_error(i));
    }
    match &tuple[i].value {
        CellValue::Text(s) => Ok(s.clone()),
        _ => Err(type_error(tuple, i, "STRING")),
    }
}

/// Reads a string that may be absent from a result tuple.
pub fn optional_string_at(tuple: &Vec<Cell>, i: usize) -> (res: Result<
    Option<String>,
    KnowledgeError,
>)
    ensures
        if i >= tuple@.len() {
            res is Err && is_backend(res->Err_0, missing_message(i as int))
        } else {
            match tuple@[i as int].value {
                CellValue::Text(s) => res is Ok && opt_text(res->Ok_0) == Some(s@),
                CellValue::Null => res is Ok && res->Ok_0 is None,
                _ => res is Err && is_backend(
                    res->Err_0,
                    type_message(tuple@, i as int, "STRING or NULL"@),
                ),
            }
        },
{
    if i >= tuple.len() {
        return Err(missing_error(i));
    }
    match &tuple[i].value {
        CellValue::Text(s) => Ok(Some(s.clone())),
        CellValue::Null => Ok(None),
        _ => Err(type_error(tuple, i, "STRING or NULL")),
    }
}

/// Reads an integer from a result tuple.
pub fn int_at(tuple: &Vec<Cell>, i: usize) -> (res: Result<i64, KnowledgeError>)
    ensures
        if i >= tuple@.len() {
            res is Err && is_backend(res->Err_0, missing_message(i as int))
        } else {
            match tuple@[i as int].value {
                CellValue::Int64(n) => res == Ok::<i64, KnowledgeError>(n),
                CellValue::Int32(n) => res == Ok::<i64, KnowledgeError>(n as i64),
                _ => res is Err && is_backend(res->Err_0, type_message(tuple@, i as int, "INT"@)),
            }
        },
{
    if i >= tuple.len() {
        return Err(missing_error(i));
    }
    match &tuple[i].value {
        CellValue::Int64(n) => Ok(*n),
        CellValue::Int32(n) => Ok(*n as i64),
        _ => Err(type_error(tuple, i, "INT")),
    }
}

/// Reads a floating-point number from a result tuple, by its bits.
pub fn double_at(tuple: &Vec<Cell>, i: usize) -> (res: Result<RealBits, KnowledgeError>)
    ensures
        if i >= tuple@.len() {
            res is Err && is_backend(res->Err_0, missing_message(i as int))
        } else {
            match tuple@[i as int].value {
                CellValue::Double(b) => res == Ok::<RealBits, KnowledgeError>(RealBits::Double(b)),
                CellValue::Float(b) => res == Ok::<RealBits, KnowledgeError>(RealBits::Single(b)),
                _ => res is Err && is_backend(
                    res->Err_0,
                    type_message(tuple@, i as int, "DOUBLE"@),
                ),
            }
        },
{
    if i >= tuple.len() {
        return Err(missing_error(i));
    }
    match &tuple[i].value {
        CellValue::Double(b) => Ok(RealBits::Double(*b)),
        CellValue::Float(b) => Ok(RealBits::Single(*b)),
        _ => Err(type_error(tuple, i, "DOUBLE")),
    }
}

/// The number of the first cell of the first tuple; 0 where there is no tuple.
pub fn count_of(first: Option<&Vec<Cell>>) -> (res: Result<i64, KnowledgeError>)
    ensures
        match first {
            None => res == Ok::<i64, KnowledgeError>(0),
            Some(tuple) => if tuple@.len() == 0 {
                res is Err && is_backend(res->Err_0, missing_message(0))
            } else {
                match tuple@[0].value {
                    CellValue::Int64(n) => res == Ok::<i64, KnowledgeError>(n),
                    CellValue::Int32(n) => res == Ok::<i64, KnowledgeError>(n as i64),
                    _ => res is Err && is_backend(res->Err_0, type_message(tuple@, 0, "INT"@)),
                }
            },
        },
{
    match first {
        None => Ok(0),
        Some(tuple) => int_at(tuple, 0),
    }
}

/// The error of the engine as an error of the store: a refused concurrent writer is contention, all
/// else is a failed operation.
pub fn backend(message: &str) -> (res: KnowledgeError)
    ensures
        if has_text(message@, "Only one write transaction at a time"@) {
            res is Unavailable && res->Unavailable_0@ == message@
        } else {
            is_backend(res, message@)
        },
{
    if contains(message, "Only one write transaction at a time") {
        KnowledgeError::Unavailable(message.to_owned())
    } else {
        KnowledgeError::Backend(message.to_owned())
    }
}

/// Checks the embedding width of a new store.
pub fn check_dim(dim: usize) -> (res: Result<(), KnowledgeError>)
    ensures
        match res {
            Ok(_) => dim > 0,
            Err(e) => dim == 0 && is_backend(e, "embedding dim must be > 0"@),
        },
{
    if dim == 0 {
        Err(KnowledgeError::Backend("embedding dim must be > 0".to_owned()))
    } else {
        Ok(())
    }
}

/// The statements that create the graph schema where it is missing, in order.
pub fn schema_statements() -> (res: Vec<&'static str>)
    ensures
        res@ == seq![
            "CREATE NODE TABLE IF NOT EXISTS Chunk(chunk_id STRING, doc_id STRING, PRIMARY KEY(chunk_id))",
            "CREATE NODE TABLE IF NOT EXISTS Entity(entity_id STRING, canonical_name STRING, entity_type STRING, subtype STRING, PRIMARY KEY(entity_id))",
            "CREATE REL TABLE IF NOT EXISTS MENTIONS(FROM Chunk TO Entity, support INT64 DEFAULT 1, properties STRING)",
            "CREATE REL TABLE IF NOT EXISTS FACT(FROM Entity TO Entity, predicate STRING, support INT64 DEFAULT 1, properties STRING)",
        ],
{
    let mut res: Vec<&'static str> = Vec::new();
    res.push(
        "CREATE NODE TABLE IF NOT EXISTS Chunk(chunk_id STRING, doc_id STRING, PRIMARY KEY(chunk_id))",
    );
    res.push(
        "CREATE NODE TABLE IF NOT EXISTS Entity(entity_id STRING, canonical_name STRING, entity_type STRING, subtype STRING, PRIMARY KEY(entity_id))",
    );
    res.push(
        "CREATE REL TABLE IF NOT EXISTS MENTIONS(FROM Chunk TO Entity, support INT64 DEFAULT 1, properties STRING)",
    );
    res.push(
        "CREATE REL TABLE IF NOT EXISTS FACT(FROM Entity TO Entity, predicate STRING, support INT64 DEFAULT 1, properties STRING)",
    );
    assert(res@ =~= seq![
        "CREATE NODE TABLE IF NOT EXISTS Chunk(chunk_id STRING, doc_id STRING, PRIMARY KEY(chunk_id))",
        "CREATE NODE TABLE IF NOT EXISTS Entity(entity_id STRING, canonical_name STRING, entity_type STRING, subtype STRING, PRIMARY KEY(entity_id))",
        "CREATE REL TABLE IF NOT EXISTS MENTIONS(FROM Chunk TO Entity, support INT64 DEFAULT 1, properties STRING)",
        "CREATE REL TABLE IF NOT EXISTS FACT(FROM Entity TO Entity, predicate STRING, support INT64 DEFAULT 1, properties STRING)",
    ]);
    res
}

/// The statement that creates a collection where it is missing.
pub fn collection_statement(table: &str, dim: usize) -> (res: String)
    ensures
        res@ == "CREATE NODE TABLE IF NOT EXISTS "@ + table@
            + "(id STRING, doc_id STRING, embedding FLOAT["@ + decimal(dim as nat)
            + "], PRIMARY KEY(id))"@,
{
    let mut q = "CREATE NODE TABLE IF NOT EXISTS ".to_owned();
    q.append(table);
    q.append("(id STRING, doc_id STRING, embedding FLOAT[");
    let d = decimal_string(dim as u64);
    q.append(d.as_str());
    q.append("], PRIMARY KEY(id))");
    q
}

/// The names among `names` that are those of chunk tables, in order.
pub open spec fn chunk_tables(names: Seq<Seq<char>>) -> Seq<Seq<char>> {
    with_prefix(names, "ChunkVec_"@)
}

/// Picks the names of chunk tables.
pub fn chunk_collection_names(names: &Vec<String>) -> (res: Vec<String>)
    ensures
        texts(res@) == chunk_tables(texts(names@)),
{
    names_with_prefix(names, "ChunkVec_")
}

/// How an entity is stored.
#[derive(Debug, Clone, Copy, PartialEq, Eq, Structural)]
pub enum EntityWrite {
    /// The entity of this name and type is there: its subtype is set.
    SetSubtype,
    /// It is not there: it is created under its id.
    Create,
}

impl EntityWrite {
    /// The statement of the write. Its parameters are `n`, `t` and `s`, and `id` on creation.
    pub fn statement(self) -> (res: &'static str)
        ensures
            res@ == match self {
                EntityWrite::SetSubtype => "MATCH (e:Entity {canonical_name: $n, entity_type: $t}) SET e.subtype = $s"@,
                EntityWrite::Create => "CREATE (e:Entity {entity_id: $id, canonical_name: $n, entity_type: $t, subtype: $s})"@,
            },
    {
        match self {
            EntityWrite::SetSubtype => "MATCH (e:Entity {canonical_name: $n, entity_type: $t}) SET e.subtype = $s",
            EntityWrite::Create => "CREATE (e:Entity {entity_id: $id, canonical_name: $n, entity_type: $t, subtype: $s})",
        }
    }
}

/// The query for an entity by name and type.
pub const FIND_ENTITY: &'static str = "MATCH (e:Entity {canonical_name: $n, entity_type: $t}) RETURN e.entity_id";

/// The query for the number of chunks of an id.
pub const COUNT_CHUNK: &'static str = "MATCH (c:Chunk {chunk_id: $id}) RETURN count(c)";

/// The query for the number of entities of an id.
pub const COUNT_ENTITY: &'static str = "MATCH (e:Entity {entity_id: $id}) RETURN count(e)";

/// The query for the number of mentions of an entity by a chunk.
pub const COUNT_MENTION: &'static str = "MATCH (c:Chunk {chunk_id: $c})-[m:MENTIONS]->(e:Entity {entity_id: $e}) RETURN count(m)";

/// Decides how an entity is stored from whether one of its name and type was found.
pub fn upsert_entity(found: bool) -> (res: EntityWrite)
    ensures
        res == if found {
            EntityWrite::SetSubtype
        } else {
            EntityWrite::Create
        },
{
    if found {
        EntityWrite::SetSubtype
    } else {
        EntityWrite::Create
    }
}

/// The statement that creates a bare chunk.
pub open spec fn bare_chunk(chunk_id: Seq<char>) -> Seq<char> {
    "CREATE (c:Chunk {chunk_id: "@ + quoted(chunk_id) + ", doc_id: ''})"@
}

/// The statement that creates a bare entity.
pub open spec fn bare_entity(entity_id: Seq<char>) -> Seq<char> {
    "CREATE (e:Entity {entity_id: "@ + quoted(entity_id)
        + ", canonical_name: '', entity_type: 'CONCEPT', subtype: ''})"@
}

/// The statement that creates a mention.
pub open spec fn new_mention(chunk_id: Seq<char>, entity_id: Seq<char>) -> Seq<char> {
    "MATCH (c:Chunk {chunk_id: "@ + quoted(chunk_id) + "}), (e:Entity {entity_id: "@ + quoted(
        entity_id,
    ) + "}) CREATE (c)-[:MENTIONS {support: 1}]->(e)"@
}

/// The statement that a missing chunk needs, where it is missing.
pub fn ensure_chunk(count: i64, chunk_id: &str) -> (res: Option<String>)
    ensures
        opt_text(res) == if count == 0 {
            Some(bare_chunk(chunk_id@))
        } else {
            None
        },
{
    if count != 0 {
        return None;
    }
    let mut q = "CREATE (c:Chunk {chunk_id: ".to_owned();
    let id = cypher_str(chunk_id);
    q.append(id.as_str());
    q.append(", doc_id: ''})");
    Some(q)
}

/// The statement that a missing entity needs, where it is missing.
pub fn ensure_entity_node(count: i64, entity_id: &str) -> (res: Option<String>)
    ensures
        opt_text(res) == if count == 0 {
            Some(bare_entity(entity_id@))
        } else {
            None
        },
{
    if count != 0 {
        return None;
    }
    let mut q = "CREATE (e:Entity {entity_id: ".to_owned();
    let id = cypher_str(entity_id);
    q.append(id.as_str());
    q.append(", canonical_name: '', entity_type: 'CONCEPT', subtype: ''})");
    Some(q)
}

/// The statement that a missing mention needs, where it is missing: a mention is created once.
pub fn link_mention(count: i64, chunk_id: &str, entity_id: &str) -> (res: Option<String>)
    ensures
        opt_text(res) == if count == 0 {
            Some(new_mention(chunk_id@, entity_id@))
        } else {
            None
        },
{
    if count != 0 {
        return None;
    }
    let c = cypher_str(chunk_id);
    let e = cypher_str(entity_id);
    let mut q = "MATCH (c:Chunk {chunk_id: ".to_owned();
    q.append(c.as_str());
    q.append("}), (e:Entity {entity_id: ");
    q.append(e.as_str());
    q.append("}) CREATE (c)-[:MENTIONS {support: 1}]->(e)");
    Some(q)
}

/// Whether a fold has anything to do: not where an entity is folded into itself or is not there. The
/// kept entity must be there.
pub fn plan_fold(loser: &str, winner: &str, loser_count: i64, winner_count: i64) -> (res: Result<
    bool,
    KnowledgeError,
>)
    ensures
        match res {
            Ok(proceed) => proceed == (loser@ != winner@ && loser_count > 0) && (proceed
                ==> winner_count > 0),
            Err(e) => {
                &&& loser@ != winner@
                &&& loser_count > 0
                &&& winner_count <= 0
                &&& is_backend(e, "fold_entity: winner "@ + winner@ + " does not exist"@)
            },
        },
{
    if same(loser, winner) || loser_count <= 0 {
        return Ok(false);
    }
    if winner_count <= 0 {
        let mut m = "fold_entity: winner ".to_owned();
        m.append(winner);
        m.append(" does not exist");
        return Err(KnowledgeError::Backend(m));
    }
    Ok(true)
}

/// The statement that deletes the edges of a folded entity, or the entity itself.
pub open spec fn fold_step(loser: Seq<char>, rest: Seq<char>) -> Seq<char> {
    "MATCH (loser:Entity {entity_id: "@ + quoted(loser) + rest
}

fn fold_statement(loser: &str, rest: &str) -> (res: String)
    ensures
        res@ == fold_step(loser@, rest@),
{
    let mut q = "MATCH (loser:Entity {entity_id: ".to_owned();
    let id = cypher_str(loser);
    q.append(id.as_str());
    q.append(rest);
    q
}

/// The statements that delete a folded entity: its mentions and facts in both directions, then the
/// entity.
pub fn fold_deletions(loser: &str) -> (res: Vec<String>)
    ensures
        texts(res@) == seq![
            fold_step(loser@, "})-[m:MENTIONS]->() DELETE m"@),
            fold_step(loser@, "})<-[m:MENTIONS]-() DELETE m"@),
            fold_step(loser@, "})-[f:FACT]->() DELETE f"@),
            fold_step(loser@, "})<-[f:FACT]-() DELETE f"@),
            fold_step(loser@, "}) DELETE loser"@),
        ],
{
    let mut res: Vec<String> = Vec::new();
    res.push(fold_statement(loser, "})-[m:MENTIONS]->() DELETE m"));
    res.push(fold_statement(loser, "})<-[m:MENTIONS]-() DELETE m"));
    res.push(fold_statement(loser, "})-[f:FACT]->() DELETE f"));
    res.push(fold_statement(loser, "})<-[f:FACT]-() DELETE f"));
    res.push(fold_statement(loser, "}) DELETE loser"));
    assert(texts(res@) =~= seq![
        fold_step(loser@, "})-[m:MENTIONS]->() DELETE m"@),
        fold_step(loser@, "})<-[m:MENTIONS]-() DELETE m"@),
        fold_step(loser@, "})-[f:FACT]->() DELETE f"@),
        fold_step(loser@, "})<-[f:FACT]-() DELETE f"@),
        fold_step(loser@, "}) DELETE loser"@),
    ]);
    res
}

/// Checks that an endpoint of a fact is stored.
pub fn require_endpoint(count: i64, entity_id: &str) -> (res: Result<(), KnowledgeError>)
    ensures
        match res {
            Ok(_) => count != 0,
            Err(e) => count == 0 && is_backend(
                e,
                "merge_fact: entity "@ + entity_id@ + " does not exist"@,
            ),
        },
{
    if count == 0 {
        let mut m = "merge_fact: entity ".to_owned();
        m.append(entity_id);
        m.append(" does not exist");
        return Err(KnowledgeError::Backend(m));
    }
    Ok(())
}

/// The support of a stored fact; it cannot be negative.
pub fn fact_support(stored: i64) -> (res: Result<u64, KnowledgeError>)
    ensures
        match res {
            Ok(n) => n == stored,
            Err(e) => stored < 0 && is_backend(e, "FACT support count cannot be negative"@),
        },
{
    if stored < 0 {
        Err(KnowledgeError::Backend("FACT support count cannot be negative".to_owned()))
    } else {
        Ok(stored as u64)
    }
}

/// The column that holds the names in a listing of the tables.
pub fn name_column(columns: &Vec<String>) -> (res: Result<usize, KnowledgeError>)
    ensures
        match res {
            Ok(i) => {
                &&& i < columns@.len()
                &&& columns@[i as int]@ == "name"@
                &&& forall|j: int| 0 <= j < i ==> (#[trigger] columns@[j])@ != "name"@
            },
            Err(e) => {
                &&& forall|j: int| 0 <= j < columns@.len() ==> (#[trigger] columns@[j])@ != "name"@
                &&& is_backend(e, "Ladybug show_tables result has no `name` column"@)
            },
        },
{
    let mut i: usize = 0;
    while i < columns.len()
        invariant
            i <= columns@.len(),
            forall|j: int| 0 <= j < i ==> (#[trigger] columns@[j])@ != "name"@,
        decreases columns@.len() - i,
    {
        if same(columns[i].as_str(), "name") {
            return Ok(i);
        }
        i = i + 1;
    }
    Err(KnowledgeError::Backend("Ladybug show_tables result has no `name` column".to_owned()))
}

/// What a deletion of an entity comes to, by how many nodes it has and how many edges they have. A
/// node with an edge stays.
pub fn delete_outcome(nodes: i64, edges: i64) -> (res: EntityDeleteOutcome)
    ensures
        res is Absent <==> nodes == 0,
        res is Referenced <==> nodes != 0 && edges > 0,
        res is Deleted <==> nodes != 0 && edges <= 0,
{
    if nodes == 0 {
        EntityDeleteOutcome::Absent
    } else if edges > 0 {
        EntityDeleteOutcome::Referenced
    } else {
        EntityDeleteOutcome::Deleted
    }
}

/// The statement that stores the document of a chunk, by what counting its node gave: a node that
/// is missing is created, another is updated.
pub fn chunk_node_statement(count: i64) -> (res: &'static str)
    ensures
        res@ == if count == 0 {
            "CREATE (c:Chunk {chunk_id: $id, doc_id: $doc})"@
        } else {
            "MATCH (c:Chunk {chunk_id: $id}) SET c.doc_id = $doc"@
        },
{
    if count == 0 {
        "CREATE (c:Chunk {chunk_id: $id, doc_id: $doc})"
    } else {
        "MATCH (c:Chunk {chunk_id: $id}) SET c.doc_id = $doc"
    }
}

/// The query for the facts that leave an entity, or that reach it.
pub open spec fn directed_text(anchor: Seq<char>, outgoing: bool) -> Seq<char> {
    if outgoing {
        "MATCH (a:Entity {entity_id: "@ + quoted(anchor)
            + "})-[f:FACT]->(b:Entity) RETURN DISTINCT a.entity_id, b.entity_id, f.predicate"@
    } else {
        "MATCH (a:Entity)-[f:FACT]->(b:Entity {entity_id: "@ + quoted(anchor)
            + "}) RETURN DISTINCT a.entity_id, b.entity_id, f.predicate"@
    }
}

/// The query for the facts that leave an entity, or that reach it.
pub fn directed_facts(anchor: &str, outgoing: bool) -> (res: String)
    ensures
        res@ == directed_text(anchor@, outgoing),
{
    let id = cypher_str(anchor);
    if outgoing {
        let mut q = "MATCH (a:Entity {entity_id: ".to_owned();
        q.append(id.as_str());
        q.append("})-[f:FACT]->(b:Entity) RETURN DISTINCT a.entity_id, b.entity_id, f.predicate");
        q
    } else {
        let mut q = "MATCH (a:Entity)-[f:FACT]->(b:Entity {entity_id: ".to_owned();
        q.append(id.as_str());
        q.append("}) RETURN DISTINCT a.entity_id, b.entity_id, f.predicate");
        q
    }
}

/// The text of a cell, or what is wrong with it.
pub open spec fn text_cell(tuple: Seq<Cell>, i: int) -> Result<Seq<char>, Seq<char>> {
    if i >= tuple.len() {
        Err(missing_message(i))
    } else {
        match tuple[i].value {
            CellValue::Text(s) => Ok(s@),
            _ => Err(type_message(tuple, i, "STRING"@)),
        }
    }
}

/// The text of a cell that may be absent, or what is wrong with it.
pub open spec fn optional_cell(tuple: Seq<Cell>, i: int) -> Result<Option<Seq<char>>, Seq<char>> {
    if i >= tuple.len() {
        Err(missing_message(i))
    } else {
        match tuple[i].value {
            CellValue::Text(s) => Ok(Some(s@)),
            CellValue::Null => Ok(None),
            _ => Err(type_message(tuple, i, "STRING or NULL"@)),
        }
    }
}

/// The integer of a cell, or what is wrong with it.
pub open spec fn int_cell(tuple: Seq<Cell>, i: int) -> Result<int, Seq<char>> {
    if i >= tuple.len() {
        Err(missing_message(i))
    } else {
        match tuple[i].value {
            CellValue::Int64(n) => Ok(n as int),
            CellValue::Int32(n) => Ok(n as int),
            _ => Err(type_message(tuple, i, "INT"@)),
        }
    }
}

/// The identity of the fact in a tuple of subject, object and predicate.
pub fn directed_edge(tuple: &Vec<Cell>) -> (res: Result<Triple, KnowledgeError>)
    ensures
        match text_cell(tuple@, 0) {
            Err(m) => res is Err && is_backend(res->Err_0, m),
            Ok(subject) => match text_cell(tuple@, 1) {
                Err(m) => res is Err && is_backend(res->Err_0, m),
                Ok(object) => match text_cell(tuple@, 2) {
                    Err(m) => res is Err && is_backend(res->Err_0, m),
                    Ok(predicate) => res is Ok && res->Ok_0@ == (TripleView {
                        subject,
                        predicate,
                        object,
                    }),
                },
            },
        },
{
    let subject = string_at(tuple, 0)?;
    let object = string_at(tuple, 1)?;
    let predicate = string_at(tuple, 2)?;
    Ok(Triple { subject, predicate, object })
}

/// The message where a fact is gone by the time it is read.
pub open spec fn vanished_message(key: TripleView) -> Seq<char> {
    "FACT edge vanished mid-read: "@ + key.subject + "--"@ + key.predicate + "-->"@ + key.object
}

/// The properties that a stored text holds, or what is wrong with it. No text and the empty text
/// hold none.
pub open spec fn stored_properties(raw: Option<Seq<char>>) -> Result<Option<JsonView>, Seq<char>> {
    match raw {
        None => Ok(None),
        Some(raw) => if raw.len() == 0 {
            Ok(None)
        } else {
            match parsed_json(raw) {
                Ok(j) => Ok(Some(shown_json(j))),
                Err(m) => Err("invalid FACT properties JSON: "@ + m),
            }
        },
    }
}

/// Whether `res` is what the support and properties of a found fact decode to.
pub open spec fn reads_fact(
    key: TripleView,
    tuple: Seq<Cell>,
    res: Result<Fact, KnowledgeError>,
) -> bool {
    if forall|p: Predicate| #[trigger] p.name() != key.predicate {
        res is Err && is_backend(res->Err_0, "unknown predicate "@ + debug_form(key.predicate))
    } else {
        match int_cell(tuple, 0) {
            Err(m) => res is Err && is_backend(res->Err_0, m),
            Ok(support) => if support < 0 {
                res is Err && is_backend(res->Err_0, "FACT support count cannot be negative"@)
            } else {
                match optional_cell(tuple, 1) {
                    Err(m) => res is Err && is_backend(res->Err_0, m),
                    Ok(raw) => match stored_properties(raw) {
                        Err(m) => res is Err && is_backend(res->Err_0, m),
                        Ok(properties) => {
                            &&& res is Ok
                            &&& res->Ok_0.subject_id@ == key.subject
                            &&& res->Ok_0.predicate.name() == key.predicate
                            &&& res->Ok_0.object_id@ == key.object
                            &&& res->Ok_0.support_count == support
                            &&& json_view(res->Ok_0.properties) == properties
                        },
                    },
                }
            },
        }
    }
}

/// The fact of this identity from the first tuple of its support and properties.
pub fn stored_fact(key: &Triple, first: Option<&Vec<Cell>>) -> (res: Result<Fact, KnowledgeError>)
    ensures
        match first {
            None => res is Err && is_backend(res->Err_0, vanished_message(key@)),
            Some(tuple) => reads_fact(key@, tuple@, res),
        },
{
    let tuple = match first {
        Some(tuple) => tuple,
        None => {
            let mut m = "FACT edge vanished mid-read: ".to_owned();
            m.append(key.subject.as_str());
            m.append("--");
            m.append(key.predicate.as_str());
            m.append("-->");
            m.append(key.object.as_str());
            return Err(KnowledgeError::Backend(m));
        },
    };
    let predicate = match Predicate::from_str(key.predicate.as_str()) {
        Ok(p) => p,
        Err(e) => {
            return Err(e);
        },
    };
    assert(predicate.name() == key.predicate@);
    let support = int_at(tuple, 0)?;
    let support_count = fact_support(support)?;
    let raw = optional_string_at(tuple, 1)?;
    let properties = match raw {
        None => None,
        Some(raw) => if raw.as_str().is_empty() {
            None
        } else {
            match parse_json(raw.as_str()) {
                Ok(j) => Some(show_json(j)),
                Err(cause) => {
                    let mut m = "invalid FACT properties JSON: ".to_owned();
                    m.append(cause.as_str());
                    return Err(KnowledgeError::Backend(m));
                },
            }
        },
    };
    Ok(
        Fact {
            subject_id: key.subject.clone(),
            predicate,
            object_id: key.object.clone(),
            support_count,
            properties,
        },
    )
}

/// A fold goes ahead between two different entities that are both there; a loser that is not there leaves
/// nothing to do, and a winner that is not there fails. What the store counts decides on a deletion too:
/// an entity without edges is deleted, one with edges is kept.
pub proof fn law_counts_decide(
    loser: &str,
    winner: &str,
    losers: i64,
    winners: i64,
    plan: Result<bool, KnowledgeError>,
    nodes: i64,
    edges: i64,
    outcome: EntityDeleteOutcome,
    id: &str,
    endpoint: Result<(), KnowledgeError>,
    support: Result<u64, KnowledgeError>,
)
    requires
        call_ensures(plan_fold, (loser, winner, losers, winners), plan),
        call_ensures(delete_outcome, (nodes, edges), outcome),
        call_ensures(require_endpoint, (nodes, id), endpoint),
        call_ensures(fact_support, (edges,), support),
    ensures
        loser@ == winner@ || losers <= 0 ==> plan == Ok::<bool, KnowledgeError>(false),
        loser@ != winner@ && losers > 0 && winners > 0 ==> plan == Ok::<bool, KnowledgeError>(true),
        loser@ != winner@ && losers > 0 && winners <= 0 ==> plan is Err,
        nodes == 0 ==> outcome is Absent && endpoint is Err,
        nodes > 0 ==> endpoint is Ok,
        nodes > 0 && edges > 0 ==> outcome is Referenced,
        nodes > 0 && edges == 0 ==> outcome is Deleted,
        edges >= 0 ==> (support matches Ok(n) && n == edges),
        edges < 0 ==> support is Err,
{
}

} // verus!
