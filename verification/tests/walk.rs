use ohara::knowledge::collections::{chunk_collections, collection, table, ENTITY_COLLECTION};
use ohara::knowledge::edge::{Element, Json, PropertyValue};
use ohara::knowledge::falkor::{facts_within_hops, EntityDeleteOutcome, Fact, GraphFact};
use ohara::knowledge::ladybug::{
    backend, chunk_collection_names, chunk_node_statement, count_of, delete_outcome,
    directed_edge, directed_facts, ensure_chunk, ensure_entity_node, fact_support,
    fold_deletions, link_mention, name_column, optional_string_at, schema_statements,
    stored_fact, upsert_entity, Cell, CellValue, EntityWrite,
};
use ohara::knowledge::remote::{after_delete, capabilities, holds_chunks};
use ohara::knowledge::walk::{Triple, Walk};
use ohara::knowledge::{KnowledgeError, ModelId, Predicate, VectorSpace};

fn strings(items: &[&str]) -> Vec<String> {
    items.iter().map(|s| s.to_string()).collect()
}

fn triple(subject: &str, predicate: &str, object: &str) -> Triple {
    Triple {
        subject: subject.to_string(),
        predicate: predicate.to_string(),
        object: object.to_string(),
    }
}

fn names(edges: &[Triple]) -> Vec<String> {
    edges.iter().map(|e| format!("{}-{}-{}", e.subject, e.predicate, e.object)).collect()
}

fn text_cell(value: &str) -> Cell {
    Cell { value: CellValue::Text(value.to_string()), shown: format!("String({value:?})") }
}

fn int_cell(value: i64) -> Cell {
    Cell { value: CellValue::Int64(value), shown: format!("Int64({value})") }
}

fn null_cell() -> Cell {
    Cell { value: CellValue::Null, shown: "Null(String)".to_string() }
}

fn message(error: KnowledgeError) -> String {
    match error {
        KnowledgeError::Backend(m) => m,
        other => panic!("{other:?}"),
    }
}

#[test]
fn a_walk_finds_each_fact_once_and_goes_on_from_new_ones() {
    let mut walk = Walk::start(&strings(&["a"]));
    assert_eq!(walk.frontier, ["a"]);
    walk.absorb(vec![triple("a", "CAUSED", "b"), triple("a", "CAUSED", "b")]);
    walk.absorb(vec![triple("a", "CAUSED", "b"), triple("a", "AFFECTED", "b")]);
    assert_eq!(names(&walk.found), ["a-CAUSED-b", "a-AFFECTED-b"]);
    assert_eq!(walk.next, ["a", "b"]);
    assert!(walk.advance());
    assert_eq!(walk.frontier, ["a", "b"]);
    assert!(walk.next.is_empty());
    walk.absorb(vec![triple("a", "CAUSED", "b"), triple("b", "CAUSED", "c")]);
    assert_eq!(walk.next, ["b", "c"]);
    assert_eq!(walk.found.len(), 3);
    assert!(walk.advance());
    walk.absorb(vec![triple("b", "CAUSED", "c")]);
    assert!(!walk.advance());
}

#[test]
fn batches_of_edges_add_up() {
    let mut parts = Walk::start(&strings(&["a"]));
    parts.absorb(vec![triple("a", "CAUSED", "b")]);
    parts.absorb(vec![triple("c", "CAUSED", "a"), triple("a", "CAUSED", "b")]);
    let mut whole = Walk::start(&strings(&["a"]));
    whole.absorb(vec![
        triple("a", "CAUSED", "b"),
        triple("c", "CAUSED", "a"),
        triple("a", "CAUSED", "b"),
    ]);
    assert_eq!(names(&parts.found), names(&whole.found));
}

fn stepwise(facts: &[(&str, &str)], from: &str, hops: u8) -> Vec<String> {
    let mut walk = Walk::start(&strings(&[from]));
    for _ in 0..hops {
        for anchor in walk.frontier.clone() {
            let touching = facts
                .iter()
                .filter(|f| f.0 == anchor || f.1 == anchor)
                .map(|f| triple(f.0, "CAUSED", f.1))
                .collect();
            walk.absorb(touching);
        }
        if !walk.advance() {
            break;
        }
    }
    let mut found = names(&walk.found);
    found.sort();
    found
}

#[test]
fn a_stepwise_walk_finds_what_a_walk_over_all_facts_finds() {
    let edges = [("a", "b"), ("b", "c"), ("c", "d"), ("d", "a"), ("x", "y")];
    let facts: Vec<GraphFact> = edges
        .iter()
        .map(|(s, o)| GraphFact {
            subject_id: s.to_string(),
            predicate: Predicate::Caused,
            object_id: o.to_string(),
            support: 1,
            properties: None,
        })
        .collect();
    for hops in 0..5u8 {
        let mut all: Vec<String> = facts_within_hops(&facts, &strings(&["a"]), hops)
            .iter()
            .map(|f| format!("{}-{}-{}", f.subject_id, f.predicate.as_str(), f.object_id))
            .collect();
        all.sort();
        assert_eq!(stepwise(&edges, "a", hops), all, "{hops} hops");
    }
    assert_eq!(stepwise(&edges, "a", 1), ["a-CAUSED-b", "d-CAUSED-a"]);
    assert_eq!(stepwise(&edges, "a", 4).len(), 4);
}

#[test]
fn directed_facts_are_asked_for_and_read() {
    assert_eq!(
        directed_facts("o'b", true),
        "MATCH (a:Entity {entity_id: 'o\\'b'})-[f:FACT]->(b:Entity) RETURN DISTINCT a.entity_id, b.entity_id, f.predicate"
    );
    assert_eq!(
        directed_facts("e1", false),
        "MATCH (a:Entity)-[f:FACT]->(b:Entity {entity_id: 'e1'}) RETURN DISTINCT a.entity_id, b.entity_id, f.predicate"
    );
    let edge = directed_edge(&vec![text_cell("s"), text_cell("o"), text_cell("CAUSED")]).unwrap();
    assert_eq!(names(&[edge]), ["s-CAUSED-o"]);
    assert_eq!(
        message(directed_edge(&vec![text_cell("s"), int_cell(4)]).unwrap_err()),
        "Ladybug result column 1 has unexpected value Int64(4); expected STRING"
    );
    assert_eq!(
        message(directed_edge(&vec![text_cell("s"), text_cell("o")]).unwrap_err()),
        "Ladybug result tuple is missing column 2"
    );
}

fn stored(predicate: &str, row: Option<Vec<Cell>>) -> Result<Fact, KnowledgeError> {
    stored_fact(&triple("s", predicate, "o"), row.as_ref())
}

#[test]
fn stored_facts_are_read_with_their_properties() {
    let fact = stored(
        "DEPENDS_ON",
        Some(vec![int_cell(2), text_cell(r#"{"evidence":["ck1","ck2"],"weight":3}"#)]),
    )
    .unwrap();
    assert_eq!(fact.subject_id, "s");
    assert_eq!(fact.predicate, Predicate::DependsOn);
    assert_eq!(fact.object_id, "o");
    assert_eq!(fact.support_count, 2);
    let Some(Json::Object(properties)) = fact.properties else { panic!("no object") };
    assert_eq!(properties.len(), 2);
    let PropertyValue::Array(evidence) = &properties[0].value else { panic!("no list") };
    assert!(matches!(&evidence[1], Element::Text(t) if t == "ck2"));
    assert!(matches!(&properties[1].value, PropertyValue::Other(t) if t == "3"));

    assert!(stored("CAUSED", Some(vec![int_cell(0), text_cell("")])).unwrap().properties.is_none());
    assert!(stored("CAUSED", Some(vec![int_cell(1), null_cell()])).unwrap().properties.is_none());
}

#[test]
fn stored_facts_that_cannot_be_read_say_why() {
    assert_eq!(
        message(stored("CAUSED", None).unwrap_err()),
        "FACT edge vanished mid-read: s--CAUSED-->o"
    );
    assert_eq!(
        message(stored("LIKES", Some(vec![])).unwrap_err()),
        "unknown predicate \"LIKES\""
    );
    assert_eq!(
        message(stored("CAUSED", Some(vec![int_cell(-1), null_cell()])).unwrap_err()),
        "FACT support count cannot be negative"
    );
    assert_eq!(
        message(stored("CAUSED", Some(vec![int_cell(1)])).unwrap_err()),
        "Ladybug result tuple is missing column 1"
    );
    let cause = serde_json::from_str::<serde_json::Value>("{oops").unwrap_err().to_string();
    assert_eq!(
        message(stored("CAUSED", Some(vec![int_cell(1), text_cell("{oops")])).unwrap_err()),
        format!("invalid FACT properties JSON: {cause}")
    );
    assert_eq!(fact_support(7).unwrap(), 7);
}

#[test]
fn nodes_and_edges_are_created_once() {
    assert_eq!(chunk_node_statement(0), "CREATE (c:Chunk {chunk_id: $id, doc_id: $doc})");
    assert_eq!(chunk_node_statement(1), "MATCH (c:Chunk {chunk_id: $id}) SET c.doc_id = $doc");
    assert_eq!(
        ensure_chunk(0, "ck").unwrap(),
        "CREATE (c:Chunk {chunk_id: 'ck', doc_id: ''})"
    );
    assert!(ensure_chunk(1, "ck").is_none());
    assert_eq!(
        ensure_entity_node(0, "e").unwrap(),
        "CREATE (e:Entity {entity_id: 'e', canonical_name: '', entity_type: 'CONCEPT', subtype: ''})"
    );
    assert!(ensure_entity_node(2, "e").is_none());
    assert_eq!(
        link_mention(0, "ck", "e").unwrap(),
        "MATCH (c:Chunk {chunk_id: 'ck'}), (e:Entity {entity_id: 'e'}) CREATE (c)-[:MENTIONS {support: 1}]->(e)"
    );
    assert!(link_mention(1, "ck", "e").is_none());
    assert!(matches!(upsert_entity(true), EntityWrite::SetSubtype));
    assert!(matches!(upsert_entity(false), EntityWrite::Create));
    assert_eq!(schema_statements().len(), 4);
    assert_eq!(fold_deletions("l").last().unwrap(), "MATCH (loser:Entity {entity_id: 'l'}) DELETE loser");
    assert_eq!(fold_deletions("l").len(), 5);
}

#[test]
fn counts_and_absent_texts_are_read() {
    assert_eq!(count_of(None).unwrap(), 0);
    assert_eq!(count_of(Some(&vec![int_cell(3)])).unwrap(), 3);
    assert_eq!(
        message(count_of(Some(&vec![null_cell()])).unwrap_err()),
        "Ladybug result column 0 has unexpected value Null(String); expected INT"
    );
    assert!(optional_string_at(&vec![null_cell()], 0).unwrap().is_none());
    assert_eq!(
        message(optional_string_at(&vec![int_cell(1)], 0).unwrap_err()),
        "Ladybug result column 0 has unexpected value Int64(1); expected STRING or NULL"
    );
}

#[test]
fn a_refused_concurrent_writer_is_contention() {
    assert!(matches!(
        backend("Runtime: Only one write transaction at a time is allowed."),
        KnowledgeError::Unavailable(_)
    ));
    assert_eq!(message(backend("disk full")), "disk full");
}

#[test]
fn table_listings_name_the_chunk_collections() {
    assert_eq!(name_column(&strings(&["id", "name", "type", "name"])).unwrap(), 1);
    assert_eq!(
        message(name_column(&strings(&["id"])).unwrap_err()),
        "Ladybug show_tables result has no `name` column"
    );
    let chunks = VectorSpace::Chunks { model_id: ModelId::new("m".to_string()) };
    let listed = vec![table(&chunks), "Entity".to_string(), table(&VectorSpace::EntityNames)];
    assert_eq!(chunk_collection_names(&listed), [table(&chunks)]);
}

#[test]
fn every_chunk_collection_is_purged_and_no_entity_name() {
    let first = VectorSpace::Chunks { model_id: ModelId::new("m/1".to_string()) };
    let second = VectorSpace::Chunks { model_id: ModelId::new("m_1".to_string()) };
    let listed = vec![
        collection(&first),
        ENTITY_COLLECTION.to_string(),
        collection(&second),
        "other".to_string(),
    ];
    assert_eq!(chunk_collections(&listed), [collection(&first), collection(&second)]);
    assert_eq!(collection(&VectorSpace::EntityNames), ENTITY_COLLECTION);
}

#[test]
fn deleting_an_entity_keeps_what_is_referenced() {
    assert_eq!(delete_outcome(0, 0), EntityDeleteOutcome::Absent);
    assert_eq!(delete_outcome(1, 2), EntityDeleteOutcome::Referenced);
    assert_eq!(delete_outcome(1, 0), EntityDeleteOutcome::Deleted);
    assert_eq!(after_delete(&EntityDeleteOutcome::Deleted), (true, true));
    assert_eq!(after_delete(&EntityDeleteOutcome::Absent), (true, false));
    assert_eq!(after_delete(&EntityDeleteOutcome::Referenced), (false, false));
    assert!(capabilities().graph_traversal && capabilities().filtered_ann);
    assert!(holds_chunks(&VectorSpace::Chunks { model_id: ModelId::new("m".to_string()) }));
    assert!(!holds_chunks(&VectorSpace::EntityNames));
}
