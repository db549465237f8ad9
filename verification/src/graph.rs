//! Graph process: the indexed artifact and the statements that publish its entities.
//!
//! Extraction and identity resolution are deterministic, bounded, and local.

use vstd::prelude::*;
use vstd::string::StringExecFns;

use crate::knowledge::cypher::{escape, escaped};
use crate::text::{decimal, decimal_string, join_strings, texts};

pub mod entities;
pub mod entity_resolution;

use entities::{entities_in, entity_id_text, entity_views, extract, Entity, EntityView};

verus! {

/// The version of the artifact format.
pub const ARTIFACT_VERSION: u8 = 1;

/// Errors raised by the graph process.
#[derive(Debug)]
pub enum GraphError {
    /// An indexed artifact could not be decoded.
    Artifact(String),
    /// A local file operation failed.
    Storage(String),
    /// The graph store could not accept the write.
    Falkor(String),
}

impl GraphError {
    /// The text of the error.
    pub open spec fn text(self) -> Seq<char> {
        match self {
            GraphError::Artifact(m) => "invalid artifact: "@ + m@,
            GraphError::Storage(m) => "storage: "@ + m@,
            GraphError::Falkor(m) => "falkordb: "@ + m@,
        }
    }

    /// The text of the error.
    pub fn message(&self) -> (res: String)
        ensures
            res@ == self.text(),
    {
        let (prefix, detail) = match self {
            GraphError::Artifact(m) => ("invalid artifact: ", m),
            GraphError::Storage(m) => ("storage: ", m),
            GraphError::Falkor(m) => ("falkordb: ", m),
        };
        let mut res = prefix.to_owned();
        res.append(detail.as_str());
        res
    }
}

/// A document that the indexer has split into chunks.
#[derive(Debug)]
pub struct IndexedArtifact {
    /// The version of the artifact format.
    pub schema_version: u8,
    /// The document.
    pub document_id: String,
    /// The address that the document came from.
    pub source_url: String,
    /// The title of the document.
    pub title: String,
    /// The chunks of the document.
    pub chunks: Vec<Chunk>,
}

/// A chunk of a document.
#[derive(Debug)]
pub struct Chunk {
    /// The chunk.
    pub chunk_id: String,
    /// The text of the chunk.
    pub text: String,
}

/// What is said of an artifact of another version.
pub open spec fn version_message(kind: Seq<char>, version: u8, expected: u8) -> Seq<char> {
    "unsupported "@ + kind + " artifact schema version "@ + decimal(version as nat)
        + "; expected "@ + decimal(expected as nat)
}

/// Writes [`version_message`].
pub(crate) fn version_text(kind: &str, version: u8, expected: u8) -> (res: String)
    ensures
        res@ == version_message(kind@, version, expected),
{
    let mut m = "unsupported ".to_owned();
    m.append(kind);
    m.append(" artifact schema version ");
    let found = decimal_string(version as u64);
    m.append(found.as_str());
    m.append("; expected ");
    let wanted = decimal_string(expected as u64);
    m.append(wanted.as_str());
    m
}

/// Accepts only the artifact version that this process reads.
pub fn validate_version(version: u8) -> (res: Result<(), GraphError>)
    ensures
        match res {
            Ok(_) => version == ARTIFACT_VERSION,
            Err(e) => {
                &&& version != ARTIFACT_VERSION
                &&& e is Artifact
                &&& e->Artifact_0@ == version_message("indexed"@, version, ARTIFACT_VERSION)
            },
        },
{
    if version == ARTIFACT_VERSION {
        Ok(())
    } else {
        Err(GraphError::Artifact(version_text("indexed", version, ARTIFACT_VERSION)))
    }
}

/// The statement that records an entity and its mention by a chunk.
pub open spec fn mention_statement(document: Seq<char>, chunk: Seq<char>, e: EntityView) -> Seq<
    char,
> {
    "MERGE (c:Chunk {id:'"@ + escaped(chunk) + "', doc_id:'"@ + escaped(document)
        + "'}) MERGE (e:Entity {id:'"@ + escaped(entity_id_text(e.kind, e.normalized))
        + "'}) SET e.name='"@ + escaped(e.name) + "', e.type='"@ + e.kind.name()
        + "', e.normalized='"@ + escaped(e.normalized) + "', e.aliases='"@ + escaped(
        crate::text::join(e.aliases, "|"@),
    ) + "' MERGE (c)-[:MENTIONS]->(e)"@
}

/// Writes the statement that records an entity and its mention by a chunk.
pub fn mention_query(document_id: &str, chunk_id: &str, entity: &Entity) -> (res: String)
    ensures
        res@ == mention_statement(document_id@, chunk_id@, entity@),
{
    let chunk = escape(chunk_id);
    let document = escape(document_id);
    let id = entity.id();
    let id = escape(id.as_str());
    let name = escape(entity.name.as_str());
    let normalized = escape(entity.normalized.as_str());
    let aliases = join_strings(&entity.aliases, "|");
    let aliases = escape(aliases.as_str());
    let mut q = "MERGE (c:Chunk {id:'".to_owned();
    q.append(chunk.as_str());
    q.append("', doc_id:'");
    q.append(document.as_str());
    q.append("'}) MERGE (e:Entity {id:'");
    q.append(id.as_str());
    q.append("'}) SET e.name='");
    q.append(name.as_str());
    q.append("', e.type='");
    q.append(entity.kind.as_str());
    q.append("', e.normalized='");
    q.append(normalized.as_str());
    q.append("', e.aliases='");
    q.append(aliases.as_str());
    q.append("' MERGE (c)-[:MENTIONS]->(e)");
    q
}

/// The statements of the entities of one chunk.
pub open spec fn chunk_statements(document: Seq<char>, chunk: Chunk) -> Seq<Seq<char>> {
    entities_in(chunk.text@).map_values(
        |e: EntityView| mention_statement(document, chunk.chunk_id@, e),
    )
}

/// The statements of the entities of the first `n` chunks.
pub open spec fn statements(document: Seq<char>, chunks: Seq<Chunk>, n: int) -> Seq<Seq<char>>
    decreases n,
{
    if n <= 0 {
        seq![]
    } else {
        statements(document, chunks, n - 1) + chunk_statements(document, chunks[n - 1])
    }
}

/// The statements that publish an artifact, one for each entity of each chunk in order.
pub fn artifact_queries(artifact: &IndexedArtifact) -> (res: Result<Vec<String>, GraphError>)
    ensures
        match res {
            Ok(queries) => {
                &&& artifact.schema_version == ARTIFACT_VERSION
                &&& texts(queries@) == statements(
                    artifact.document_id@,
                    artifact.chunks@,
                    artifact.chunks@.len() as int,
                )
            },
            Err(e) => {
                &&& artifact.schema_version != ARTIFACT_VERSION
                &&& e is Artifact
                &&& e->Artifact_0@ == version_message(
                    "indexed"@,
                    artifact.schema_version,
                    ARTIFACT_VERSION,
                )
            },
        },
{
    match validate_version(artifact.schema_version) {
        Ok(_) => {},
        Err(e) => {
            return Err(e);
        },
    }
    let mut queries: Vec<String> = Vec::new();
    let ghost document = artifact.document_id@;
    let mut i: usize = 0;
    assert(texts(queries@) =~= seq![]);
    while i < artifact.chunks.len()
        invariant
            i <= artifact.chunks@.len(),
            document == artifact.document_id@,
            texts(queries@) == statements(document, artifact.chunks@, i as int),
        decreases artifact.chunks@.len() - i,
    {
        let chunk = &artifact.chunks[i];
        let found = extract(chunk.text.as_str());
        let ghost before = texts(queries@);
        let ghost wanted = chunk_statements(document, *chunk);
        assert(wanted.len() == entity_views(found@).len() == found@.len());
        let mut k: usize = 0;
        assert(before + wanted.take(0) =~= before);
        while k < found.len()
            invariant
                k <= found@.len() == wanted.len(),
                document == artifact.document_id@,
                entity_views(found@) == entities_in(chunk.text@),
                wanted == chunk_statements(document, *chunk),
                texts(queries@) == before + wanted.take(k as int),
            decreases found@.len() - k,
        {
            let ghost now = texts(queries@);
            let query = mention_query(
                artifact.document_id.as_str(),
                chunk.chunk_id.as_str(),
                &found[k],
            );
            assert(entity_views(found@)[k as int] == found@[k as int]@);
            queries.push(query);
            assert(texts(queries@) =~= now.push(query@));
            assert(wanted.take(k + 1) =~= wanted.take(k as int).push(wanted[k as int]));
            k = k + 1;
            assert(texts(queries@) =~= before + wanted.take(k as int));
        }
        assert(wanted.take(k as int) =~= wanted);
        i = i + 1;
    }
    Ok(queries)
}

proof fn lemma_statements_hold(document: Seq<char>, chunks: Seq<Chunk>, n: int, c: int, e: int)
    requires
        0 <= c < n <= chunks.len(),
        0 <= e < entities_in(chunks[c].text@).len(),
    ensures
        statements(document, chunks, n).contains(
            mention_statement(document, chunks[c].chunk_id@, entities_in(chunks[c].text@)[e]),
        ),
    decreases n,
{
    let before = statements(document, chunks, n - 1);
    let here = chunk_statements(document, chunks[n - 1]);
    let all = statements(document, chunks, n);
    if c == n - 1 {
        assert(all[before.len() + e] == here[e]);
    } else {
        lemma_statements_hold(document, chunks, n - 1, c, e);
        let wanted = mention_statement(document, chunks[c].chunk_id@, entities_in(chunks[c].text@)[e]);
        let at = choose|at: int| 0 <= at < before.len() && before[at] == wanted;
        assert(all[at] == wanted);
    }
}

/// Publishing an artifact leaves out no entity: of an artifact of the first version, each entity that is
/// extracted from a chunk is recorded with that chunk and its document; another version is refused.
pub proof fn law_every_entity_is_published(
    artifact: &IndexedArtifact,
    res: Result<Vec<String>, GraphError>,
    text: &str,
    found: Vec<Entity>,
    c: int,
    e: int,
)
    requires
        call_ensures(artifact_queries, (artifact,), res),
        call_ensures(entities::extract, (text,), found),
        0 <= c < artifact.chunks@.len(),
        text@ == artifact.chunks@[c].text@,
        0 <= e < found@.len(),
    ensures
        res is Ok <==> artifact.schema_version == 1,
        res matches Ok(queries) ==> texts(queries@).contains(
            mention_statement(artifact.document_id@, artifact.chunks@[c].chunk_id@, found@[e]@),
        ),
{
    let chunks = artifact.chunks@;
    assert(entities::entity_views(found@)[e] == found@[e]@);
    lemma_statements_hold(artifact.document_id@, chunks, chunks.len() as int, c, e);
}

} // verus!
