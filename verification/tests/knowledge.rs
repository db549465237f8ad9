use ohara::knowledge::collections::{collection, point_id, table};
use ohara::knowledge::cypher::{cypher_id_list, cypher_list, cypher_str};
use ohara::knowledge::edge::{
    edge_json, edge_state, fact_transfers, merge_edge_properties, merge_fact,
    merge_new_assertion, merge_remote_edge_properties, push_capped, rewired_fact, rewired_mention,
    saturating_sum, EdgeRow, FactRow, Json, Property, PropertyValue,
};
use ohara::knowledge::falkor::{facts_within_hops, graph_fact, substitute_entity, Fact, GraphFact};
use ohara::knowledge::ladybug::{
    check_dim, collection_statement, double_at, int_at, plan_fold, require_endpoint, stored_fact,
    string_at, Cell, CellValue,
};
use ohara::knowledge::memory::InMemoryKnowledge;
use ohara::knowledge::qdrant::{hit_id, plan_search, plan_upsert, response_error};
use ohara::knowledge::walk::Triple;
use ohara::knowledge::{
    EntityRecord, EntityType, FactCaps, KnowledgeError, ModelId, Predicate, VectorSpace,
};
use ohara::ranking::{rank, Scored};
use ohara::reply::{parse_rows, Body, Reply};
use ohara::Class;

const CAPS: FactCaps = FactCaps { max_evidence: 8, max_occurrences: 8 };

fn space(model: &str) -> VectorSpace {
    VectorSpace::Chunks { model_id: ModelId::new(model.to_string()) }
}

fn v(scalar: f32) -> Vec<f32> {
    vec![scalar, 0.0, 0.0, 0.0]
}

fn bits(vector: &[f32]) -> Vec<u32> {
    vector.iter().map(|x| x.to_bits()).collect()
}

fn strings(items: &[&str]) -> Vec<String> {
    items.iter().map(|s| s.to_string()).collect()
}

fn cosine(a: &[f32], b: &[f32]) -> f32 {
    let dot: f32 = a.iter().zip(b).map(|(x, y)| x * y).sum();
    let norm = |x: &[f32]| x.iter().map(|y| y * y).sum::<f32>().sqrt();
    if norm(a) == 0.0 || norm(b) == 0.0 {
        0.0
    } else {
        dot / (norm(a) * norm(b))
    }
}

fn knn(store: &InMemoryKnowledge, space: &VectorSpace, query: &[f32], limit: usize) -> Vec<Scored> {
    let scored = store
        .neighbors(space)
        .into_iter()
        .map(|n| {
            let vector: Vec<f32> = n.vector.iter().map(|b| f32::from_bits(*b)).collect();
            Scored { id: n.id, bits: cosine(query, &vector).to_bits() }
        })
        .collect();
    rank(scored, limit)
}

fn entity(id: &str, name: &str, t: EntityType) -> EntityRecord {
    EntityRecord {
        entity_id: id.to_string(),
        canonical_name: name.to_string(),
        entity_type: t,
        subtype: None,
    }
}

fn object(pairs: &[(&str, &str)]) -> Json {
    Json::Object(
        pairs
            .iter()
            .map(|(k, v)| Property { key: k.to_string(), value: PropertyValue::Text(v.to_string()) })
            .collect(),
    )
}

fn array_len(fact: &Fact, key: &str) -> usize {
    let Some(Json::Object(properties)) = &fact.properties else {
        panic!("an object");
    };
    match properties.iter().find(|p| p.key == key).map(|p| &p.value) {
        Some(PropertyValue::Array(items)) => items.len(),
        _ => 0,
    }
}

// Vector collections --------------------------------------------------------------------------

#[test]
fn model_ids_with_colliding_identifier_forms_get_distinct_collections() {
    assert_ne!(
        table(&space("model-a")),
        table(&space("model_a")),
        "sanitization must not collapse distinct model identities"
    );
    assert_ne!(collection(&space("model-a")), collection(&space("model_a")));
    assert_eq!(collection(&VectorSpace::EntityNames), "ohara_entity_names");
    assert!(collection(&space("model-a")).starts_with("ohara_chunks_"));
}

#[test]
fn result_decoders_reject_missing_and_wrong_values() {
    let wrong = vec![Cell { value: CellValue::Text("nope".to_string()), shown: "nope".to_string() }];
    assert!(string_at(&Vec::new(), 0).is_err());
    assert!(int_at(&wrong, 0).is_err());
    assert!(double_at(&wrong, 0).is_err());
    assert_eq!(string_at(&wrong, 0).unwrap(), "nope");
}

#[test]
fn upsert_then_knn_returns_scores_in_order() {
    let mut store = InMemoryKnowledge::new();
    let s = space("bge-small-en-v1.5");
    store
        .upsert_vectors(
            &s,
            "doc1",
            &strings(&["near", "far"]),
            &vec![bits(&v(1.0)), bits(&[0.0, 0.0, 1.0, 0.0])],
        )
        .unwrap();
    let hits = knn(&store, &s, &v(1.0), 2);
    assert_eq!(hits.len(), 2);
    assert_eq!(hits[0].id, "near");
    assert!(f32::from_bits(hits[0].bits) > 0.99);
    assert!(f32::from_bits(hits[1].bits) < 0.01);
}

#[test]
fn upsert_is_deterministic_replay_is_noop() {
    let mut store = InMemoryKnowledge::new();
    let s = space("m");
    for _ in 0..2 {
        store.upsert_vectors(&s, "doc1", &strings(&["a"]), &vec![bits(&v(0.5))]).unwrap();
    }
    let hits = knn(&store, &s, &v(0.5), 10);
    assert_eq!(hits.len(), 1, "replay must not duplicate");
    assert!((f32::from_bits(hits[0].bits) - 1.0).abs() < 1e-5);
}

#[test]
fn collections_are_isolated_per_model_and_entity_space() {
    let mut store = InMemoryKnowledge::new();
    store.upsert_vectors(&space("m1"), "d", &strings(&["x"]), &vec![bits(&v(1.0))]).unwrap();
    assert!(!store.has_vector(&space("m2"), "x"));
    assert!(!store.has_vector(&VectorSpace::EntityNames, "x"));
    assert!(store.has_vector(&space("m1"), "x"));
}

#[test]
fn delete_doc_purges_every_chunk_collection() {
    let mut store = InMemoryKnowledge::new();
    store.upsert_vectors(&space("m1"), "doc1", &strings(&["a"]), &vec![bits(&v(1.0))]).unwrap();
    store.upsert_vectors(&space("m2"), "doc1", &strings(&["b"]), &vec![bits(&v(1.0))]).unwrap();
    store.upsert_vectors(&space("m1"), "other", &strings(&["c"]), &vec![bits(&v(1.0))]).unwrap();
    store.delete_doc("doc1");
    assert!(!store.has_vector(&space("m1"), "a"));
    assert!(!store.has_vector(&space("m2"), "b"));
    assert!(knn(&store, &space("m1"), &v(1.0), 10).iter().all(|h| h.id != "a"));
    assert!(store.has_vector(&space("m1"), "c"));
}

#[test]
fn width_mismatches_are_backend_errors() {
    let err = plan_upsert(false, 4, 1, &vec![1]).unwrap_err();
    assert!(matches!(err, KnowledgeError::Backend(_)), "got {err:?}");
    let err = plan_search(4, 1, 3).unwrap_err();
    assert!(matches!(err, KnowledgeError::Backend(_)), "got {err:?}");
    let mut store = InMemoryKnowledge::new();
    let err = store.upsert_vectors(&space("m"), "d", &strings(&["a"]), &Vec::new()).unwrap_err();
    assert!(matches!(err, KnowledgeError::Backend(_)), "got {err:?}");
}

#[test]
fn a_read_only_plane_refuses_vectors_and_nothing_is_written_for_none() {
    assert!(plan_upsert(true, 4, 1, &vec![4]).is_err());
    assert_eq!(plan_upsert(false, 4, 0, &Vec::new()).unwrap(), false);
    assert_eq!(plan_upsert(false, 4, 1, &vec![4]).unwrap(), true);
    assert_eq!(plan_search(4, 4, 0).unwrap(), false);
    assert_eq!(plan_search(4, 4, 1).unwrap(), true);
    assert!(check_dim(0).is_err());
    assert!(check_dim(4).is_ok());
    assert!(collection_statement("chunks", 384).contains("384"));
}

#[test]
fn points_are_named_by_their_id_alone() {
    assert_eq!(point_id("ck1"), point_id("ck1"));
    assert_ne!(point_id("ck1"), point_id("ck2"));
    assert_eq!(point_id("ck1").len(), 36);
    assert_eq!(hit_id(&Some("ck1".to_string()), &None).unwrap(), "ck1");
    assert!(hit_id(&None, &None).is_err());
    assert!(response_error("search", "500", Some("down")).message().contains("search"));
}

#[test]
fn equal_scores_are_ranked_by_name() {
    let items = vec![
        Scored { id: "b".to_string(), bits: 0.5_f32.to_bits() },
        Scored { id: "c".to_string(), bits: (-0.5_f32).to_bits() },
        Scored { id: "a".to_string(), bits: 0.5_f32.to_bits() },
        Scored { id: "d".to_string(), bits: 0.75_f32.to_bits() },
    ];
    let ids: Vec<String> = rank(items, 3).into_iter().map(|s| s.id).collect();
    assert_eq!(ids, ["d", "a", "b"]);
}

// Graph ---------------------------------------------------------------------------------------

#[test]
fn upsert_entity_round_trips_by_identity_key() {
    let mut store = InMemoryKnowledge::new();
    store.upsert_entity(&entity("e1", "Ada Lovelace", EntityType::Person));
    store.upsert_entity(&EntityRecord {
        entity_id: "e1".into(),
        canonical_name: "Ada Lovelace".into(),
        entity_type: EntityType::Person,
        subtype: Some("mathematician".into()),
    });
    store.upsert_entity(&entity("e2", "Ada Lovelace", EntityType::Concept));
    assert!(store.delete_entity("e1"), "one node by the identity");
    assert!(!store.delete_entity("e1"));
    assert!(store.delete_entity("e2"), "another type is another node");
}

#[test]
fn fold_rewires_mentions_and_facts_in_one_transaction() {
    let mut store = InMemoryKnowledge::new();
    store.upsert_entity(&entity("loser", "Obama", EntityType::Person));
    store.upsert_entity(&entity("winner", "Barack Obama", EntityType::Person));
    store.upsert_entity(&entity("place", "Hawaii", EntityType::Location));
    store.link_mention("c1", "loser");
    store.link_mention("c2", "loser");
    store.merge_fact("loser", Predicate::LocatedIn, "place", "c1", None, CAPS).unwrap();

    store.fold_entity("loser", "winner");

    assert_eq!(store.chunks_for_entities(&strings(&["winner"])), ["c1", "c2"]);
    let facts = store.facts_within_hops(&strings(&["winner"]), 1);
    assert_eq!(facts.len(), 1);
    assert_eq!(facts[0].subject_id, "winner");
    assert_eq!(facts[0].predicate, Predicate::LocatedIn);
    assert!(store.chunks_for_entities(&strings(&["loser"])).is_empty());
    assert!(!store.delete_entity("loser"), "loser node must be gone");

    let mention = rewired_mention(None, 3, &None);
    assert_eq!(mention.support, 3);
    let moved = fact_transfers(
        &vec![FactRow {
            other: "place".to_string(),
            predicate: "LOCATED_IN".to_string(),
            support: 2,
            properties: None,
        }],
        &Vec::new(),
        "loser",
        "winner",
    );
    assert_eq!(moved.len(), 1);
    assert_eq!(moved[0].subject_id, "winner");
    assert_eq!(moved[0].object_id, "place");
    assert_eq!(moved[0].predicate, "LOCATED_IN");
    let (support, _) = rewired_fact(Some(&EdgeRow { support: 1, properties: None }), &moved[0]);
    assert_eq!(support, 3);
}

#[test]
fn replayed_graph_writes_change_nothing() {
    let mut store = InMemoryKnowledge::new();
    for _ in 0..2 {
        store.upsert_entity(&entity("loser", "Obama", EntityType::Person));
        store.upsert_entity(&entity("winner", "Barack Obama", EntityType::Person));
        store.upsert_entity(&entity("place", "Hawaii", EntityType::Location));
        store.link_mention("c1", "loser");
        store.merge_fact("loser", Predicate::LocatedIn, "place", "c1", None, CAPS).unwrap();
        store.merge_fact("winner", Predicate::LocatedIn, "place", "c2", None, CAPS).unwrap();
    }
    assert_eq!(store.chunks_for_entities(&strings(&["loser"])), ["c1"]);
    for _ in 0..2 {
        store.fold_entity("loser", "winner");
        let facts = store.facts_within_hops(&strings(&["winner"]), 1);
        assert_eq!(facts.len(), 1);
        assert_eq!(facts[0].support_count, 2, "support is counted once");
        assert_eq!(array_len(&facts[0], "evidence"), 2);
        assert_eq!(store.chunks_for_entities(&strings(&["winner"])), ["c1"]);
    }
}

#[test]
fn a_deleted_document_is_forgotten_in_every_space() {
    let mut store = InMemoryKnowledge::new();
    for model in ["m1", "m2"] {
        store
            .upsert_vectors(&space(model), "doc", &strings(&["ck1"]), &vec![bits(&v(1.0))])
            .unwrap();
        store
            .upsert_vectors(&space(model), "other", &strings(&["ck2"]), &vec![bits(&v(0.5))])
            .unwrap();
    }
    store.link_mention("ck1", "e");
    store.link_mention("ck2", "e");
    for _ in 0..2 {
        store.delete_doc("doc");
        for model in ["m1", "m2"] {
            let ids: Vec<String> =
                knn(&store, &space(model), &v(1.0), 10).into_iter().map(|hit| hit.id).collect();
            assert_eq!(ids, ["ck2"]);
        }
        assert_eq!(store.chunks_for_entities(&strings(&["e"])), ["ck2"]);
    }
}

#[test]
fn a_fold_of_absent_entities_is_left_alone() {
    assert_eq!(plan_fold("a", "a", 1, 1).unwrap(), false);
    assert_eq!(plan_fold("nope", "also-nope", 0, 0).unwrap(), false);
    assert_eq!(plan_fold("loser", "winner", 1, 1).unwrap(), true);
}

#[test]
fn chunks_for_entities_returns_mentioning_chunks() {
    let mut store = InMemoryKnowledge::new();
    store.upsert_entity(&entity("x", "X", EntityType::Person));
    store.link_mention("ck1", "x");
    assert_eq!(store.chunks_for_entities(&strings(&["x"])), ["ck1"]);
    assert!(store.chunks_for_entities(&Vec::new()).is_empty());
}

#[test]
fn facts_within_hops_walks_one_and_two_hops() {
    let mut store = InMemoryKnowledge::new();
    for id in ["a", "b", "c"] {
        store.upsert_entity(&entity(id, id, EntityType::Person));
    }
    store.merge_fact("a", Predicate::Caused, "b", "ck", None, CAPS).unwrap();
    store.merge_fact("b", Predicate::Affected, "c", "ck", None, CAPS).unwrap();

    let one = store.facts_within_hops(&strings(&["a"]), 1);
    assert_eq!(one.len(), 1);
    assert_eq!(one[0].subject_id, "a");
    assert_eq!(one[0].object_id, "b");
    assert_eq!(one[0].support_count, 1);

    let two = store.facts_within_hops(&strings(&["a"]), 2);
    assert_eq!(two.len(), 2);

    assert!(store.facts_within_hops(&Vec::new(), 2).is_empty());
    assert!(store.facts_within_hops(&strings(&["a"]), 0).is_empty());
}

#[test]
fn vector_collections_and_graph_share_the_store() {
    let mut store = InMemoryKnowledge::new();
    let s = space("bge-small-en-v1.5");
    store.upsert_vectors(&s, "doc1", &strings(&["ck1"]), &vec![bits(&[1.0; 4])]).unwrap();
    store.fold_entity("nope", "also-nope");
    store.delete_doc("doc1");
    assert!(!store.has_vector(&s, "ck1"));
}

#[test]
fn merge_fact_creates_and_aggregates_by_edge_identity() {
    let mut store = InMemoryKnowledge::new();
    store.upsert_entity(&entity("s", "SQLite", EntityType::Product));
    store.upsert_entity(&entity("o", "C", EntityType::Concept));

    store.merge_fact("s", Predicate::DependsOn, "o", "ck1", None, CAPS).unwrap();
    store.merge_fact("s", Predicate::DependsOn, "o", "ck1", None, CAPS).unwrap();
    store.merge_fact("s", Predicate::DependsOn, "o", "ck2", None, CAPS).unwrap();

    let facts = store.facts_within_hops(&strings(&["s"]), 1);
    assert_eq!(facts.len(), 1);
    assert_eq!(facts[0].subject_id, "s");
    assert_eq!(facts[0].predicate, Predicate::DependsOn);
    assert_eq!(facts[0].object_id, "o");
    assert_eq!(facts[0].support_count, 2, "replay must not double-count");
    assert_eq!(array_len(&facts[0], "evidence"), 2);

    store.merge_fact("s", Predicate::AssociatedWith, "o", "ck1", None, CAPS).unwrap();
    assert_eq!(store.facts_within_hops(&strings(&["s"]), 1).len(), 2);

    // The same assertions on a stored edge.
    let (support, first) = merge_fact(None, "ck1", None, CAPS).unwrap();
    assert_eq!(support, 1);
    let row = EdgeRow { support, properties: Some(first) };
    let (support, replayed) = merge_fact(Some(&row), "ck1", None, CAPS).unwrap();
    assert_eq!(support, 1, "replay must not double-count");
    let row = EdgeRow { support, properties: Some(replayed) };
    let (support, second) = merge_fact(Some(&row), "ck2", None, CAPS).unwrap();
    assert_eq!(support, 2);
    assert_eq!(edge_state(&second).evidence, ["ck1", "ck2"]);
}

#[test]
fn merge_fact_caps_evidence_and_occurrences_and_tracks_as_of() {
    let caps = FactCaps { max_evidence: 2, max_occurrences: 2 };
    let mut row: Option<EdgeRow> = None;
    for i in 0..5 {
        let chunk = format!("ck{i}");
        let props = object(&[("occurred_on", &format!("2020-0{i}-01"))]);
        let (support, properties) = merge_fact(row.as_ref(), &chunk, Some(&props), caps).unwrap();
        row = Some(EdgeRow { support, properties: Some(properties) });
    }
    let merged = row.as_ref().unwrap();
    let state = edge_state(merged.properties.as_ref().unwrap());
    assert_eq!(state.evidence.len(), 2, "evidence is capped");
    assert_eq!(state.occurrences.len(), 2, "occurrences are capped");
    assert_eq!(merged.support, 5, "the count still reflects every distinct chunk");

    for (chunk, as_of) in [("ck9", "2020-01-01"), ("ck10", "2021-06-15")] {
        let props = object(&[("as_of", as_of)]);
        let (support, properties) = merge_fact(row.as_ref(), chunk, Some(&props), caps).unwrap();
        row = Some(EdgeRow { support, properties: Some(properties) });
    }
    let stored = row.unwrap().properties.unwrap();
    assert!(stored.contains("\"as_of\":\"2021-06-15\""), "as_of keeps the latest: {stored}");
}

#[test]
fn push_capped_tells_whether_the_list_grew() {
    let mut list = strings(&["a"]);
    assert!(!push_capped(&mut list, "b", 1));
    assert_eq!(list, ["a"]);
    assert!(push_capped(&mut list, "b", 2));
    assert!(!push_capped(&mut list, "b", 9));
    assert_eq!(list, ["a", "b"]);
    assert!(!push_capped(&mut list, "c", 0));
}

#[test]
fn replay_beyond_a_full_evidence_list_counts_nothing() {
    let caps = FactCaps { max_evidence: 2, max_occurrences: 2 };
    let mut row: Option<EdgeRow> = None;
    let mut remote = (0, String::new());
    let mut store = InMemoryKnowledge::new();
    store.upsert_entity(&entity("s", "S", EntityType::Concept));
    store.upsert_entity(&entity("o", "O", EntityType::Concept));
    for chunk in ["ck0", "ck1", "ck2", "ck2", "ck1"] {
        let (support, properties) = merge_fact(row.as_ref(), chunk, None, caps).unwrap();
        row = Some(EdgeRow { support, properties: Some(properties) });
        remote = merge_new_assertion(Some(&remote.1), remote.0, chunk, None, caps);
        store.merge_fact("s", Predicate::AssociatedWith, "o", chunk, None, caps).unwrap();
    }
    let row = row.unwrap();
    assert_eq!((row.support, remote.0), (3, 3));
    let stored = row.properties.unwrap();
    assert_eq!(edge_state(&stored).evidence, ["ck0", "ck1"]);
    assert_eq!(edge_state(&stored).counted, ["ck2"]);
    assert_eq!(edge_state(&remote.1).evidence, ["ck0", "ck1"]);
    let again = EdgeRow { support: 3, properties: Some(stored.clone()) };
    assert_eq!(merge_fact(Some(&again), "ck2", None, caps).unwrap(), (3, stored));
    let facts = store.facts_within_hops(&strings(&["s"]), 1);
    assert_eq!(facts[0].support_count, 3);
}

#[test]
fn chunks_beyond_the_evidence_are_stored_and_not_shown() {
    let caps = FactCaps { max_evidence: 1, max_occurrences: 2 };
    let own = object(&[("counted", "mine"), ("occurred_on", "2020-01-01")]);
    let first = merge_new_assertion(None, 0, "ck0", Some(&own), caps);
    let (support, stored) = merge_new_assertion(Some(&first.1), first.0, "ck1", Some(&own), caps);
    assert_eq!(support, 2);
    assert_eq!(edge_state(&stored).counted, ["ck1"]);
    assert_eq!(merge_new_assertion(Some(&stored), 2, "ck1", Some(&own), caps), (2, stored.clone()));
    let remote = facts_within_hops(
        &vec![GraphFact {
            subject_id: "s".into(),
            predicate: Predicate::AssociatedWith,
            object_id: "o".into(),
            support,
            properties: Some(stored.clone()),
        }],
        &strings(&["s"]),
        1,
    );
    let embedded = stored_fact(
        &Triple {
            subject: "s".into(),
            predicate: Predicate::AssociatedWith.as_str().into(),
            object: "o".into(),
        },
        Some(&vec![
            Cell { value: CellValue::Int64(2), shown: "2".into() },
            Cell { value: CellValue::Text(stored.clone()), shown: stored },
        ]),
    )
    .unwrap();
    for fact in [&remote[0], &embedded] {
        let Some(Json::Object(properties)) = &fact.properties else {
            panic!("an object");
        };
        let mut keys: Vec<_> = properties.iter().map(|p| p.key.as_str()).collect();
        keys.sort_unstable();
        assert_eq!(keys, ["counted", "evidence", "occurrences"]);
        assert_eq!(array_len(fact, "evidence"), 1);
        assert_eq!(array_len(fact, "occurrences"), 1);
    }
}

#[test]
fn a_fact_of_the_folded_entity_with_itself_moves_once() {
    let row = |other: &str, support| FactRow {
        other: other.to_string(),
        predicate: "CAUSED".to_string(),
        support,
        properties: None,
    };
    let moved = fact_transfers(
        &vec![row("loser", 2), row("winner", 3), row("x", 1)],
        &vec![row("loser", 2), row("winner", 4), row("x", 5)],
        "loser",
        "winner",
    );
    let seen: Vec<_> = moved
        .iter()
        .map(|t| (t.subject_id.as_str(), t.object_id.as_str(), t.support))
        .collect();
    assert_eq!(seen, [("winner", "winner", 9), ("winner", "x", 1), ("x", "winner", 5)]);
}

#[test]
fn merge_fact_requires_existing_endpoints() {
    let err = require_endpoint(0, "ghost").unwrap_err();
    assert!(
        matches!(err, KnowledgeError::Backend(ref m) if m.contains("ghost")),
        "got {err:?}"
    );
    assert!(require_endpoint(1, "s").is_ok());
    let mut store = InMemoryKnowledge::new();
    store.upsert_entity(&entity("s", "X", EntityType::Concept));
    assert!(store.merge_fact("s", Predicate::PartOf, "ghost", "ck", None, CAPS).is_err());
}

#[test]
fn edge_properties_read_back_and_unite() {
    let state = edge_state("{\"evidence\":[\"a\"],\"occurrences\":[],\"as_of\":\"2020\"}");
    assert_eq!(state.evidence, ["a"]);
    let stored = edge_json(state);
    assert_eq!(edge_state(&stored).evidence, ["a"]);
    assert!(stored.contains("\"as_of\":\"2020\""));
    assert!(edge_state("no json").evidence.is_empty());
    let both = merge_edge_properties(
        Some("{\"evidence\":[\"a\"]}"),
        Some("{\"evidence\":[\"b\",\"a\"]}"),
    );
    assert_eq!(edge_state(&both).evidence, ["a", "b"]);
    let remote = merge_remote_edge_properties(Some("{\"evidence\":[\"a\"]}"), None);
    assert_eq!(edge_state(&remote).evidence, ["a"]);
    let (support, _) = merge_new_assertion(None, 0, "ck1", None, CAPS);
    assert_eq!(support, 1);
    assert_eq!(saturating_sum(i64::MAX, 1), i64::MAX);
}

#[test]
fn quoted_text_holds_its_quotes() {
    assert_eq!(cypher_str("O'Hara"), "'O\\'Hara'");
    assert_eq!(cypher_list(&strings(&["a", "b'"])), "'a', 'b\\''");
    assert_eq!(cypher_id_list(&strings(&["a", "b"])), "['a', 'b']");
    assert_eq!(cypher_id_list(&Vec::new()), "[]");
}

#[test]
fn rows_of_the_graph_become_facts() {
    let text = |s: &str| Reply { body: Body::Bulk(s.as_bytes().to_vec()), shown: s.to_string() };
    let row = vec![
        text("a"),
        text("CAUSED"),
        text("b"),
        Reply { body: Body::Int(3), shown: "3".to_string() },
        Reply { body: Body::Nil, shown: "nil".to_string() },
    ];
    let fact = graph_fact(&row).unwrap();
    assert_eq!((fact.subject_id.as_str(), fact.object_id.as_str(), fact.support), ("a", "b", 3));
    assert_eq!(fact.predicate, Predicate::Caused);
    let moved: GraphFact = substitute_entity(fact, "a", "w");
    assert_eq!(moved.subject_id, "w");
    assert!(parse_rows(&Reply { body: Body::Nil, shown: "nil".to_string() }).is_err());
}

#[test]
fn predicates_and_errors_are_named() {
    assert_eq!(Predicate::from_str("LOCATED_IN").unwrap(), Predicate::LocatedIn);
    assert!(Predicate::from_str("UNKNOWN").is_err());
    assert_eq!(Predicate::DependsOn.as_str(), "DEPENDS_ON");
    assert_eq!(EntityType::Organization.as_str(), "ORGANIZATION");
    assert_eq!(KnowledgeError::Unavailable("x".to_string()).class(), Class::Retry);
    assert_eq!(KnowledgeError::Backend("x".to_string()).class(), Class::Retry);
    assert!(InMemoryKnowledge::new().capabilities().graph_traversal);
    assert!(!InMemoryKnowledge::without_graph().capabilities().graph_traversal);
}
