use ohara::control::db::DbError;
use ohara::control::entities::gc::{
    cancel_entity_gc_candidate, due_entity_gc_candidates, entity_ids_for_gc, execute_entity_gc,
    record_entity_gc_candidate,
};
use ohara::control::entities::merge::{
    entity_details, entity_merges, record_entity_merge, resolve_entity,
};
use ohara::control::entities::registry::{
    canonical_name, canonical_names, ensure_entity, entity_type_of, lookup_alias,
    lookup_alias_all_types, upsert_alias, EntityRegistry,
};
use ohara::control::entities::review::{
    er_review_candidate, mark_er_review_merged, pending_er_reviews,
};
use ohara::control::entities::triplets::{
    chunks_without_triplets, forget_document, stage_triplets, triplets_of_doc, ChunkRow, NewTriplet,
    TripletStore,
};
use ohara::digest::sha256_hex;

const NOW: &str = "2026-09-06 12:00:00";

fn triplet(chunk_id: &str, subject: &str, predicate: &str, object: &str) -> NewTriplet {
    NewTriplet {
        triplet_id: format!("id-{chunk_id}-{subject}-{predicate}-{object}"),
        chunk_id: chunk_id.to_string(),
        subject: subject.to_string(),
        subject_type: "PERSON".to_string(),
        predicate: predicate.to_string(),
        object: object.to_string(),
        object_type: "LOCATION".to_string(),
        properties: None,
        model: "gemma3:1b".to_string(),
    }
}

fn seed_chunks(doc_id: &str, texts: &[&str]) -> (TripletStore, Vec<String>) {
    let chunks: Vec<ChunkRow> = texts
        .iter()
        .enumerate()
        .map(|(seq, text)| ChunkRow {
            chunk_id: sha256_hex(&format!("{doc_id}:{seq}")),
            doc_id: doc_id.to_string(),
            seq: i64::try_from(seq).unwrap_or(i64::MAX),
            text: text.to_string(),
        })
        .collect();
    let ids = chunks.iter().map(|c| c.chunk_id.clone()).collect();
    (TripletStore { chunks, triplets: Vec::new() }, ids)
}

#[test]
fn stage_triplets_returns_only_fresh_rows_and_replays_are_noops() {
    let (mut store, ids) = seed_chunks("d", &["text"]);
    let chunk = ids[0].clone();

    let fresh = stage_triplets(&mut store, vec![triplet(&chunk, "Ada", "LOCATED_IN", "London")]).unwrap();
    assert_eq!(fresh.len(), 1);
    let replayed = stage_triplets(&mut store, vec![triplet(&chunk, "Ada", "LOCATED_IN", "London")]).unwrap();
    assert!(replayed.is_empty(), "the cost is never paid twice");
    assert_eq!(store.triplets.len(), 1);
    let rows = triplets_of_doc(&store, "d");
    assert_eq!(rows.len(), 1);
    assert_eq!(rows[0].object, "London");
}

#[test]
fn chunks_without_triplets_skips_covered_chunks() {
    let (mut store, ids) = seed_chunks("d", &["covered", "pending"]);
    stage_triplets(&mut store, vec![triplet(&ids[0], "A", "LOCATED_IN", "B")]).unwrap();

    let pending = chunks_without_triplets(&store, "d");
    assert_eq!(pending.len(), 1);
    assert_eq!(pending[0].chunk_id, ids[1]);
    assert!(chunks_without_triplets(&store, "missing-doc").is_empty());
}

#[test]
fn triplets_need_their_chunk_and_go_with_their_document() {
    let (mut store, ids) = seed_chunks("d", &["one", "two"]);
    store.chunks.push(ChunkRow {
        chunk_id: "other".to_string(),
        doc_id: "e".to_string(),
        seq: 0,
        text: "three".to_string(),
    });
    let batch = vec![triplet(&ids[0], "A", "LOCATED_IN", "B"), triplet("ghost", "A", "LOCATED_IN", "B")];
    assert!(matches!(stage_triplets(&mut store, batch), Err(DbError::Sqlite(_))));
    assert!(store.triplets.is_empty(), "nothing is staged");

    let batch = vec![triplet(&ids[1], "A", "LOCATED_IN", "B"), triplet("other", "A", "LOCATED_IN", "B")];
    assert_eq!(stage_triplets(&mut store, batch).unwrap().len(), 2);
    forget_document(&mut store, "d");
    assert_eq!(store.chunks.len(), 1);
    assert_eq!(store.triplets.len(), 1);
    assert_eq!(store.triplets[0].chunk_id, "other");
    assert!(triplets_of_doc(&store, "d").is_empty());
    assert_eq!(triplets_of_doc(&store, "e").len(), 1);
}

#[test]
fn entity_registry_merges_on_the_identity_key() {
    let mut registry = EntityRegistry::new();
    let first = ensure_entity(&mut registry, "e1", "Ada Lovelace", "PERSON", None, NOW).unwrap();
    let again =
        ensure_entity(&mut registry, "e2", "Ada Lovelace", "PERSON", Some("math"), NOW).unwrap();
    assert_eq!(first, "e1");
    assert_eq!(again, "e1", "the identity key, not the passed id, decides");
    let other = ensure_entity(&mut registry, "e3", "Ada Lovelace", "CONCEPT", None, NOW).unwrap();
    assert_eq!(other, "e3");
    let row = registry.entities.iter().find(|e| e.entity_id == "e3").unwrap();
    assert_eq!(row.canonical_name, "Ada Lovelace");
    assert_eq!(row.subtype, None);
    assert_eq!(canonical_name(&registry, "e3").as_deref(), Some("Ada Lovelace"));
    assert_eq!(entity_type_of(&registry, "e3").as_deref(), Some("CONCEPT"));
    assert_eq!(entity_type_of(&registry, "e9"), None);
}

#[test]
fn typed_alias_hits_are_exact_and_homographs_coexist() {
    let mut registry = EntityRegistry::new();
    ensure_entity(&mut registry, "p1", "Jordan Peele", "PERSON", None, NOW).unwrap();
    ensure_entity(&mut registry, "l1", "Jordan", "LOCATION", None, NOW).unwrap();
    ensure_entity(&mut registry, "p2", "Michael Jordan", "PERSON", None, NOW).unwrap();
    assert_eq!(lookup_alias(&registry, "jordan", "PERSON"), None);
    assert_eq!(
        upsert_alias(&mut registry, "jordan", "PERSON", "p1").unwrap(),
        None,
        "fresh alias"
    );
    assert_eq!(lookup_alias(&registry, "jordan", "PERSON").as_deref(), Some("p1"));
    assert_eq!(upsert_alias(&mut registry, "jordan", "LOCATION", "l1").unwrap(), None);
    assert_eq!(lookup_alias(&registry, "jordan", "LOCATION").as_deref(), Some("l1"));
    assert_eq!(
        upsert_alias(&mut registry, "jordan", "PERSON", "p2").unwrap().as_deref(),
        Some("p1")
    );
    assert!(matches!(
        upsert_alias(&mut registry, "nobody", "PERSON", "missing"),
        Err(DbError::Sqlite(_))
    ));
}

#[test]
fn alias_lookup_across_types_returns_every_variant() {
    let mut registry = EntityRegistry::new();
    ensure_entity(&mut registry, "p1", "Jordan Peele", "PERSON", None, NOW).unwrap();
    ensure_entity(&mut registry, "l1", "Jordan", "LOCATION", None, NOW).unwrap();
    ensure_entity(&mut registry, "r1", "Jordan River", "LOCATION", None, NOW).unwrap();
    upsert_alias(&mut registry, "jordan", "PERSON", "p1").unwrap();
    upsert_alias(&mut registry, "jordan", "LOCATION", "l1").unwrap();
    upsert_alias(&mut registry, "jordan river", "LOCATION", "r1").unwrap();

    let mut ids = lookup_alias_all_types(&registry, "jordan");
    ids.sort();
    assert_eq!(ids, ["l1", "p1"]);
    assert!(lookup_alias_all_types(&registry, "nobody").is_empty());
}

#[test]
fn canonical_names_stay_within_the_supertype() {
    let mut registry = EntityRegistry::new();
    ensure_entity(&mut registry, "p1", "Jordan", "PERSON", None, NOW).unwrap();
    ensure_entity(&mut registry, "l1", "Jordan", "LOCATION", None, NOW).unwrap();
    let people = canonical_names(&registry, "PERSON");
    assert_eq!(people.len(), 1);
    assert_eq!(people[0].entity_id, "p1");
}

#[test]
fn er_review_dedups_pending_pairs_in_either_order() {
    let mut registry = EntityRegistry::new();
    let score = 0.9_f64.to_bits();
    assert!(er_review_candidate(&mut registry, "a", "b", score, NOW).unwrap());
    assert!(!er_review_candidate(&mut registry, "b", "a", score, NOW).unwrap(), "dup");
    assert!(!er_review_candidate(&mut registry, "a", "a", score, NOW).unwrap(), "self");
    let pending = pending_er_reviews(&registry);
    assert_eq!(pending.len(), 1);
    mark_er_review_merged(&mut registry, pending[0].id);
    assert!(pending_er_reviews(&registry).is_empty());
}

#[test]
fn entity_merge_remaps_aliases_and_is_replay_safe() {
    let mut registry = EntityRegistry::new();
    ensure_entity(&mut registry, "loser", "Ada", "PERSON", None, NOW).unwrap();
    ensure_entity(&mut registry, "winner", "Ada Lovelace", "PERSON", None, NOW).unwrap();
    upsert_alias(&mut registry, "ada", "PERSON", "loser").unwrap();
    upsert_alias(&mut registry, "ada lovelace", "PERSON", "winner").unwrap();
    assert!(er_review_candidate(&mut registry, "loser", "winner", 0.91_f64.to_bits(), NOW).unwrap());

    assert!(record_entity_merge(&mut registry, "loser", "winner", "test", NOW).unwrap());
    assert_eq!(resolve_entity(&registry, "loser").unwrap(), "winner");
    assert_eq!(lookup_alias(&registry, "ada", "PERSON").as_deref(), Some("winner"));
    assert!(pending_er_reviews(&registry).is_empty());
    assert_eq!(entity_merges(&registry).len(), 1);
    assert!(!record_entity_merge(&mut registry, "loser", "winner", "replay", NOW).unwrap());
}

#[test]
fn entity_merges_name_what_they_refuse() {
    let mut registry = EntityRegistry::new();
    ensure_entity(&mut registry, "p", "Jordan", "PERSON", None, NOW).unwrap();
    ensure_entity(&mut registry, "l", "Jordan", "LOCATION", None, NOW).unwrap();
    assert!(matches!(
        record_entity_merge(&mut registry, "p", "p", "x", NOW),
        Err(DbError::MergeSelf { .. })
    ));
    assert!(matches!(
        record_entity_merge(&mut registry, "ghost", "p", "x", NOW),
        Err(DbError::EntityNotFound { .. })
    ));
    assert!(matches!(
        record_entity_merge(&mut registry, "p", "ghost", "x", NOW),
        Err(DbError::EntityNotFound { .. })
    ));
    assert!(matches!(
        record_entity_merge(&mut registry, "p", "l", "x", NOW),
        Err(DbError::EntityTypeMismatch { .. })
    ));
    assert!(entity_merges(&registry).is_empty());
}

#[test]
fn registries_with_taken_keys_are_told_apart() {
    let mut registry = EntityRegistry::new();
    assert!(registry.is_valid());
    ensure_entity(&mut registry, "a", "Ada", "PERSON", None, NOW).unwrap();
    ensure_entity(&mut registry, "b", "Bob", "PERSON", None, NOW).unwrap();
    upsert_alias(&mut registry, "ada", "PERSON", "a").unwrap();
    assert!(record_entity_merge(&mut registry, "a", "b", "x", NOW).unwrap());
    assert!(registry.is_valid());
    registry.entities[1].entity_id = "a".to_string();
    assert!(!registry.is_valid(), "an id is taken");
    registry.entities[1].entity_id = "b".to_string();
    assert!(registry.is_valid());
    registry.entities[1].canonical_name = "Ada".to_string();
    assert!(!registry.is_valid(), "a name of a type is taken");
}

#[test]
fn merges_chain_to_the_last_winner() {
    let mut registry = EntityRegistry::new();
    for (id, name) in [("a", "A"), ("b", "B"), ("c", "C")] {
        ensure_entity(&mut registry, id, name, "CONCEPT", None, NOW).unwrap();
    }
    assert!(record_entity_merge(&mut registry, "a", "b", "x", NOW).unwrap());
    assert!(record_entity_merge(&mut registry, "b", "c", "x", NOW).unwrap());
    assert_eq!(resolve_entity(&registry, "a").unwrap(), "c");
    assert_eq!(resolve_entity(&registry, "c").unwrap(), "c");
}

#[test]
fn entity_gc_candidates_preserve_first_observation_and_delete_registry_rows() {
    let mut registry = EntityRegistry::new();
    ensure_entity(&mut registry, "unused", "Unused", "CONCEPT", None, NOW).unwrap();
    assert_eq!(entity_ids_for_gc(&registry), ["unused"]);
    assert!(record_entity_gc_candidate(&mut registry, "unused", "2026-09-01 00:00:00"));
    assert!(!record_entity_gc_candidate(&mut registry, "unused", "2026-09-02 00:00:00"));
    assert_eq!(
        due_entity_gc_candidates(&registry, "2026-10-01 00:00:00")[0].zero_since,
        "2026-09-01 00:00:00"
    );
    upsert_alias(&mut registry, "unused", "CONCEPT", "unused").unwrap();
    assert!(execute_entity_gc(&mut registry, "unused"));
    assert!(entity_details(&registry, "unused").is_none());
    assert!(due_entity_gc_candidates(&registry, "9999-12-31 00:00:00").is_empty());
    assert!(!execute_entity_gc(&mut registry, "unused"));
}

#[test]
fn entity_gc_candidates_are_cancelled_when_mentions_return() {
    let mut registry = EntityRegistry::new();
    ensure_entity(&mut registry, "used", "Used", "CONCEPT", None, NOW).unwrap();
    assert!(record_entity_gc_candidate(&mut registry, "used", "2026-09-01 00:00:00"));
    assert!(cancel_entity_gc_candidate(&mut registry, "used"));
    assert!(!cancel_entity_gc_candidate(&mut registry, "used"));
    assert!(due_entity_gc_candidates(&registry, "2026-10-01 00:00:00").is_empty());
}
