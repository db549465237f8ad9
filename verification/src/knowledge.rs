//! Knowledge plane: vector collections and the property graph.
//!
//! Everything held here is a rebuildable index over the control plane's records.

use vstd::prelude::*;
use vstd::string::StringExecFns;

use crate::text::{debug_form, debug_string, opt_text, same};
use crate::Class;

pub mod collections;
pub mod cypher;
pub mod edge;
pub mod falkor;
pub mod ladybug;
pub mod memory;
pub mod qdrant;
pub mod remote;
pub mod traversal;
pub mod walk;

verus! {

/// Embedding-model identity: one vector collection exists per id. An id is never empty.
#[derive(Debug, PartialEq, Eq, Hash, PartialOrd, Ord)]
pub struct ModelId {
    id: String,
}

impl View for ModelId {
    type V = Seq<char>;

    closed spec fn view(&self) -> Seq<char> {
        self.id@
    }
}

impl ModelId {
    #[verifier::type_invariant]
    spec fn not_empty(self) -> bool {
        self.id@.len() > 0
    }

    /// Wraps a model id, which must not be empty.
    pub fn new(raw: String) -> (res: ModelId)
        requires
            raw@.len() > 0,
        ensures
            res@ == raw@,
    {
        ModelId { id: raw }
    }

    /// The id as a string; it is never empty.
    pub fn as_str(&self) -> (res: &str)
        ensures
            res@ == self@,
            res@.len() > 0,
    {
        proof {
            use_type_invariant(self);
        }
        self.id.as_str()
    }
}

impl Clone for ModelId {
    fn clone(&self) -> (res: ModelId)
        ensures
            res@ == self@,
    {
        proof {
            use_type_invariant(self);
        }
        ModelId { id: self.id.clone() }
    }
}

/// Which vector collection a call addresses: one per model, plus entity names.
#[derive(Debug, PartialEq, Eq, Hash)]
pub enum VectorSpace {
    /// Chunk vectors for one embedding model.
    Chunks {
        /// The model whose collection is addressed.
        model_id: ModelId,
    },
    /// Entity-name vectors.
    EntityNames,
}

/// The model of a [`VectorSpace`]: the model id of a chunk space, none for entity names.
pub type SpaceView = Option<Seq<char>>;

impl View for VectorSpace {
    type V = SpaceView;

    open spec fn view(&self) -> SpaceView {
        match self {
            VectorSpace::Chunks { model_id } => Some(model_id@),
            VectorSpace::EntityNames => None,
        }
    }
}

impl VectorSpace {
    /// Whether two spaces are the same collection.
    pub fn is(&self, other: &VectorSpace) -> (res: bool)
        ensures
            res == (self@ == other@),
    {
        match (self, other) {
            (VectorSpace::Chunks { model_id: a }, VectorSpace::Chunks { model_id: b }) => same(
                a.as_str(),
                b.as_str(),
            ),
            (VectorSpace::EntityNames, VectorSpace::EntityNames) => true,
            _ => false,
        }
    }
}

impl Clone for VectorSpace {
    fn clone(&self) -> (res: VectorSpace)
        ensures
            res@ == self@,
    {
        match self {
            VectorSpace::Chunks { model_id } => VectorSpace::Chunks { model_id: model_id.clone() },
            VectorSpace::EntityNames => VectorSpace::EntityNames,
        }
    }
}

/// Entity supertypes: the closed ontology.
#[derive(Debug, Clone, Copy, PartialEq, Eq, Hash, Structural)]
pub enum EntityType {
    /// A person.
    Person,
    /// An organization.
    Organization,
    /// A location.
    Location,
    /// An event.
    Event,
    /// A bounded concept.
    Concept,
    /// A product.
    Product,
}

impl EntityType {
    /// The stored discriminator.
    pub open spec fn name(self) -> Seq<char> {
        match self {
            EntityType::Person => "PERSON"@,
            EntityType::Organization => "ORGANIZATION"@,
            EntityType::Location => "LOCATION"@,
            EntityType::Event => "EVENT"@,
            EntityType::Concept => "CONCEPT"@,
            EntityType::Product => "PRODUCT"@,
        }
    }

    /// The `entity_type` discriminator.
    pub fn as_str(self) -> (res: &'static str)
        ensures
            res@ == self.name(),
    {
        match self {
            EntityType::Person => "PERSON",
            EntityType::Organization => "ORGANIZATION",
            EntityType::Location => "LOCATION",
            EntityType::Event => "EVENT",
            EntityType::Concept => "CONCEPT",
            EntityType::Product => "PRODUCT",
        }
    }
}

/// The discriminators of two entity types are the same only where the types are.
pub proof fn law_entity_type_names_are_distinct(a: EntityType, b: EntityType)
    ensures
        a.name() == b.name() <==> a == b,
{
    reveal_strlit("PERSON");
    reveal_strlit("ORGANIZATION");
    reveal_strlit("LOCATION");
    reveal_strlit("EVENT");
    reveal_strlit("CONCEPT");
    reveal_strlit("PRODUCT");
    assert("PERSON"@.len() == 6 && "ORGANIZATION"@.len() == 12 && "LOCATION"@.len() == 8);
    assert("EVENT"@.len() == 5 && "CONCEPT"@.len() == 7 && "PRODUCT"@.len() == 7);
    assert("CONCEPT"@[0] == 'C' && "PRODUCT"@[0] == 'P');
}

/// The closed predicate set for fact edges.
#[derive(Debug, Clone, Copy, PartialEq, Eq, Hash, Structural)]
pub enum Predicate {
    /// Spatial containment.
    LocatedIn,
    /// Mereological containment.
    PartOf,
    /// Authorship or creation.
    CreatedBy,
    /// Causation.
    Caused,
    /// Affected by.
    Affected,
    /// Participation in an event.
    ParticipatedIn,
    /// Weak association, the fallback relation.
    AssociatedWith,
    /// Produces or yields.
    Produces,
    /// Founded.
    Founded,
    /// Reliance on.
    DependsOn,
}

impl Predicate {
    /// The stored discriminator.
    pub open spec fn name(self) -> Seq<char> {
        match self {
            Predicate::LocatedIn => "LOCATED_IN"@,
            Predicate::PartOf => "PART_OF"@,
            Predicate::CreatedBy => "CREATED_BY"@,
            Predicate::Caused => "CAUSED"@,
            Predicate::Affected => "AFFECTED"@,
            Predicate::ParticipatedIn => "PARTICIPATED_IN"@,
            Predicate::AssociatedWith => "ASSOCIATED_WITH"@,
            Predicate::Produces => "PRODUCES"@,
            Predicate::Founded => "FOUNDED"@,
            Predicate::DependsOn => "DEPENDS_ON"@,
        }
    }

    /// The `predicate` discriminator.
    pub fn as_str(self) -> (res: &'static str)
        ensures
            res@ == self.name(),
    {
        match self {
            Predicate::LocatedIn => "LOCATED_IN",
            Predicate::PartOf => "PART_OF",
            Predicate::CreatedBy => "CREATED_BY",
            Predicate::Caused => "CAUSED",
            Predicate::Affected => "AFFECTED",
            Predicate::ParticipatedIn => "PARTICIPATED_IN",
            Predicate::AssociatedWith => "ASSOCIATED_WITH",
            Predicate::Produces => "PRODUCES",
            Predicate::Founded => "FOUNDED",
            Predicate::DependsOn => "DEPENDS_ON",
        }
    }

    /// The predicate of this discriminator; every other text is an error that quotes it.
    pub fn from_str(s: &str) -> (res: Result<Predicate, KnowledgeError>)
        ensures
            match res {
                Ok(p) => p.name() == s@,
                Err(e) => {
                    &&& forall|p: Predicate| #[trigger] p.name() != s@
                    &&& e is Backend
                    &&& e->Backend_0@ == "unknown predicate "@ + debug_form(s@)
                },
            },
    {
        if same(s, "LOCATED_IN") {
            Ok(Predicate::LocatedIn)
        } else if same(s, "PART_OF") {
            Ok(Predicate::PartOf)
        } else if same(s, "CREATED_BY") {
            Ok(Predicate::CreatedBy)
        } else if same(s, "CAUSED") {
            Ok(Predicate::Caused)
        } else if same(s, "AFFECTED") {
            Ok(Predicate::Affected)
        } else if same(s, "PARTICIPATED_IN") {
            Ok(Predicate::ParticipatedIn)
        } else if same(s, "ASSOCIATED_WITH") {
            Ok(Predicate::AssociatedWith)
        } else if same(s, "PRODUCES") {
            Ok(Predicate::Produces)
        } else if same(s, "FOUNDED") {
            Ok(Predicate::Founded)
        } else if same(s, "DEPENDS_ON") {
            Ok(Predicate::DependsOn)
        } else {
            let mut m = "unknown predicate ".to_owned();
            let q = debug_string(s);
            m.append(q.as_str());
            Err(KnowledgeError::Backend(m))
        }
    }
}

/// The discriminators of two predicates are the same only where the predicates are, so that a
/// stored predicate is read back as it was.
pub proof fn law_predicate_names_are_distinct(a: Predicate, b: Predicate)
    ensures
        a.name() == b.name() <==> a == b,
{
    reveal_strlit("LOCATED_IN");
    reveal_strlit("PART_OF");
    reveal_strlit("CREATED_BY");
    reveal_strlit("CAUSED");
    reveal_strlit("AFFECTED");
    reveal_strlit("PARTICIPATED_IN");
    reveal_strlit("ASSOCIATED_WITH");
    reveal_strlit("PRODUCES");
    reveal_strlit("FOUNDED");
    reveal_strlit("DEPENDS_ON");
    assert("LOCATED_IN"@.len() == 10 && "PART_OF"@.len() == 7 && "CREATED_BY"@.len() == 10);
    assert("CAUSED"@.len() == 6 && "AFFECTED"@.len() == 8 && "PARTICIPATED_IN"@.len() == 15);
    assert("ASSOCIATED_WITH"@.len() == 15 && "PRODUCES"@.len() == 8 && "FOUNDED"@.len() == 7);
    assert("DEPENDS_ON"@.len() == 10);
    assert("LOCATED_IN"@[0] == 'L' && "CREATED_BY"@[0] == 'C' && "DEPENDS_ON"@[0] == 'D');
    assert("PARTICIPATED_IN"@[0] == 'P' && "ASSOCIATED_WITH"@[0] == 'A');
    assert("PART_OF"@[0] == 'P' && "FOUNDED"@[0] == 'F');
    assert("AFFECTED"@[0] == 'A' && "PRODUCES"@[0] == 'P');
}

/// An entity record for the graph. Identity is `entity_id`; the lookup key is
/// `(canonical_name, entity_type)`.
#[derive(Debug, Clone)]
pub struct EntityRecord {
    /// The stable surrogate id.
    pub entity_id: String,
    /// The canonical surface name.
    pub canonical_name: String,
    /// The supertype.
    pub entity_type: EntityType,
    /// Free-form refinement under the supertype, if any.
    pub subtype: Option<String>,
}

/// The model of an [`EntityRecord`].
pub struct EntityRecordView {
    pub entity_id: Seq<char>,
    pub canonical_name: Seq<char>,
    pub entity_type: EntityType,
    pub subtype: Option<Seq<char>>,
}

impl View for EntityRecord {
    type V = EntityRecordView;

    open spec fn view(&self) -> EntityRecordView {
        EntityRecordView {
            entity_id: self.entity_id@,
            canonical_name: self.canonical_name@,
            entity_type: self.entity_type,
            subtype: opt_text(self.subtype),
        }
    }
}

/// Filter for filtered search; it holds no condition yet.
#[derive(Debug, Clone, Default, PartialEq, Eq)]
pub struct ChunkFilter {}

/// The bounds on the lists that a fact edge keeps.
#[derive(Debug, Clone, Copy, PartialEq, Eq, Structural)]
pub struct FactCaps {
    /// The most evidence chunk ids kept.
    pub max_evidence: usize,
    /// The most occurrence dates kept.
    pub max_occurrences: usize,
}

/// Knowledge-plane capability declaration.
#[derive(Debug, Clone, Copy, PartialEq, Eq, Structural)]
pub struct KsCapabilities {
    /// Filtered search is supported natively.
    pub filtered_ann: bool,
    /// Graph traversal is supported.
    pub graph_traversal: bool,
}

/// Knowledge-plane failures.
#[derive(Debug)]
pub enum KnowledgeError {
    /// The store is not reachable or not ready.
    Unavailable(String),
    /// A vector or graph operation failed inside the store.
    Backend(String),
}

impl KnowledgeError {
    /// Retry class: both unavailability and backend failures are retried.
    pub fn class(&self) -> (res: Class)
        ensures
            res == Class::Retry,
    {
        Class::Retry
    }

    /// The text of the error.
    pub open spec fn text(self) -> Seq<char> {
        match self {
            KnowledgeError::Unavailable(m) => "knowledge store unavailable: "@ + m@,
            KnowledgeError::Backend(m) => "knowledge store operation failed: "@ + m@,
        }
    }

    /// The text of the error.
    pub fn message(&self) -> (res: String)
        ensures
            res@ == self.text(),
    {
        let (prefix, detail) = match self {
            KnowledgeError::Unavailable(m) => ("knowledge store unavailable: ", m),
            KnowledgeError::Backend(m) => ("knowledge store operation failed: ", m),
        };
        let mut res = prefix.to_owned();
        res.append(detail.as_str());
        res
    }
}

} // verus!
