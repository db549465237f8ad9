use ohara::graph::entities::{extract, normalize_name, resolve, Mention};
use ohara::knowledge::EntityType;
use ohara::graph::entity_resolution::{compare_mentions, tally, validate, Case, Comparison, Fixture};
use ohara::graph::entity_resolution::Mention as LabeledMention;
use ohara::graph::{artifact_queries, validate_version, Chunk, GraphError, IndexedArtifact};
use ohara::graph::ARTIFACT_VERSION;

#[test]
fn extracts_all_supported_types_from_structured_fields() {
    let entities = extract(
        "PERSON: Ada Lovelace (also known as Ada Byron); \
         ORGANIZATION: OpenAI (aka Open AI); \
         PLACE: São Paulo; EVENT: RustConf 2026; \
         CONCEPT: Knowledge Graph; PRODUCT: Ohara",
    );

    assert_eq!(entities.len(), 6);
    assert!(entities.iter().any(|entity| {
        entity.kind == EntityType::Person
            && entity.name == "Ada Lovelace"
            && entity.aliases == vec!["Ada Byron"]
    }));
    assert!(entities.iter().any(|entity| {
        entity.kind == EntityType::Organization
            && entity.name == "OpenAI"
            && entity.aliases == vec!["Open AI"]
    }));
    assert!(entities
        .iter()
        .any(|entity| { entity.kind == EntityType::Location && entity.normalized == "sao paulo" }));
    assert!(entities.iter().any(|entity| entity.kind == EntityType::Event));
    assert!(entities.iter().any(|entity| entity.kind == EntityType::Concept));
    assert!(entities.iter().any(|entity| entity.kind == EntityType::Product));
}

#[test]
fn typed_fields_extract_without_a_capitalized_phrase_baseline() {
    let entities = extract("organization: openai; product: ohara; in paris.");

    assert!(entities
        .iter()
        .any(|entity| { entity.kind == EntityType::Organization && entity.normalized == "openai" }));
    assert!(entities
        .iter()
        .any(|entity| { entity.kind == EntityType::Product && entity.normalized == "ohara" }));
    assert!(!entities.iter().any(|entity| entity.normalized == "paris"));
}

#[test]
fn typed_lexical_cues_extract_people_and_suffix_entities() {
    let entities = extract(
        "Dr Ada Lovelace visited Acme Labs in São Paulo City during RustConf 2026 Conference.",
    );

    assert!(entities
        .iter()
        .any(|entity| { entity.kind == EntityType::Person && entity.normalized == "ada lovelace" }));
    assert!(entities
        .iter()
        .any(|entity| { entity.kind == EntityType::Organization && entity.normalized == "acme labs" }));
    assert!(entities.iter().any(|entity| {
        entity.kind == EntityType::Location && entity.normalized == "sao paulo city"
    }));
    assert!(entities.iter().any(|entity| {
        entity.kind == EntityType::Event && entity.normalized == "rustconf 2026 conference"
    }));
}

#[test]
fn normalized_identity_handles_case_punctuation_and_diacritics() {
    assert_eq!(normalize_name(" José O'Hara "), Some("jose o hara".into()));
    assert_eq!(normalize_name("jose o'hara"), Some("jose o hara".into()));
}

#[test]
fn resolution_keeps_same_name_different_types_separate() {
    let entities = resolve(&vec![
        Mention {
            kind: EntityType::Organization,
            surface: "Apple Inc.".into(),
            canonical: None,
        },
        Mention { kind: EntityType::Product, surface: "Apple".into(), canonical: None },
    ]);

    assert_eq!(entities.len(), 2);
    assert_ne!(entities[0].id(), entities[1].id());
}

#[test]
fn ignores_untyped_capitalized_phrases_and_empty_text() {
    assert!(extract("London Alice OpenAI").is_empty());
    assert!(extract(" ").is_empty());
}

#[test]
fn rejects_unknown_indexed_artifact_versions() {
    assert!(matches!(
        validate_version(ARTIFACT_VERSION + 1),
        Err(GraphError::Artifact(message)) if message.contains("schema version")
    ));
}

fn mention(kind: &str, name: &str, aliases: &[&str]) -> LabeledMention {
    LabeledMention {
        document_id: "doc".into(),
        entity_type: kind.into(),
        name: name.into(),
        aliases: aliases.iter().map(|a| a.to_string()).collect(),
    }
}

fn labeled(id: &str, left: LabeledMention, right: LabeledMention, same: bool) -> Case {
    Case { id: id.into(), reason: "because".into(), left, right, expected_same: same }
}

#[test]
fn comparison_goes_by_type_name_and_alias_before_any_measure() {
    let apple_org = mention("ORGANIZATION", "Apple", &[]);
    let apple_product = mention("PRODUCT", "Apple", &[]);
    assert!(matches!(compare_mentions(&apple_org, &apple_product), Comparison::Never));
    assert!(matches!(
        compare_mentions(&mention("organisation", "APPLE", &[]), &apple_org),
        Comparison::Same
    ));
    assert!(matches!(
        compare_mentions(&mention("ORGANIZATION", "Big Fruit", &["Apple"]), &apple_org),
        Comparison::Same
    ));
    assert!(matches!(
        compare_mentions(&mention("ORGANIZATION", "Appel", &[]), &apple_org),
        Comparison::Measure { left, right } if left == "appel" && right == "apple"
    ));
    assert!(matches!(compare_mentions(&mention("PLANET", "Apple", &[]), &apple_org), Comparison::Never));
}

#[test]
fn type_mismatch_never_becomes_a_merge_candidate() {
    let case = labeled(
        "same-name-different-type",
        mention("ORGANIZATION", "Apple", &[]),
        mention("PRODUCT", "Apple", &[]),
        false,
    );
    // At a threshold of zero every measured pair is merged.
    let merged = !matches!(compare_mentions(&case.left, &case.right), Comparison::Never);
    let counts = tally(&vec![case], &vec![merged]);
    assert_eq!(counts.false_merges, 0);
    assert_eq!(counts.missed_merges, 0);
}

#[test]
fn tallies_decisions_against_labels() {
    let cases = vec![
        labeled("a", mention("PERSON", "A", &[]), mention("PERSON", "B", &[]), true),
        labeled("b", mention("PERSON", "A", &[]), mention("PERSON", "B", &[]), true),
        labeled("c", mention("PERSON", "A", &[]), mention("PERSON", "B", &[]), false),
        labeled("d", mention("PERSON", "A", &[]), mention("PERSON", "B", &[]), false),
    ];
    let counts = tally(&cases, &vec![true, false, true, false]);
    assert_eq!((counts.true_positive, counts.missed_merges, counts.false_merges), (1, 1, 1));
}

fn fixture(cases: Vec<Case>) -> Fixture {
    Fixture {
        schema_version: 1,
        selected_threshold: 0.9f64.to_bits(),
        thresholds: vec![0.8f64.to_bits(), 0.9f64.to_bits()],
        cases,
    }
}

#[test]
fn labeled_sets_are_validated() {
    let good = || labeled("a", mention("PERSON", "A", &[]), mention("PERSON", "B", &["C"]), true);
    assert_eq!(validate(&fixture(vec![good()])), Ok(()));
    assert_eq!(
        validate(&fixture(vec![])),
        Err("entity-resolution fixture has no cases".to_string())
    );
    assert_eq!(
        validate(&fixture(vec![good(), good()])),
        Err("case id is empty or duplicated: a".to_string())
    );
    let mut wrong = fixture(vec![good()]);
    wrong.schema_version = 2;
    assert_eq!(
        validate(&wrong),
        Err("unsupported entity-resolution schema version 2; expected 1".to_string())
    );
    let mut wrong = fixture(vec![good()]);
    wrong.selected_threshold = f64::NAN.to_bits();
    assert_eq!(
        validate(&wrong),
        Err("selected threshold must be finite and between 0 and 1".to_string())
    );
    let mut wrong = fixture(vec![good()]);
    wrong.thresholds = vec![1.5f64.to_bits()];
    assert_eq!(
        validate(&wrong),
        Err("thresholds must be finite values between 0 and 1".to_string())
    );
    let mut wrong = fixture(vec![good()]);
    wrong.thresholds = vec![0.5f64.to_bits(), 0.5f64.to_bits()];
    assert_eq!(validate(&wrong), Err("thresholds must be unique".to_string()));
    let blank = labeled("a", mention("PERSON", " ", &[]), mention("PERSON", "B", &[]), true);
    assert_eq!(
        validate(&fixture(vec![blank])),
        Err("case a has an incomplete mention".to_string())
    );
    let alias = labeled("a", mention("PERSON", "A", &[""]), mention("PERSON", "B", &[]), true);
    assert_eq!(validate(&fixture(vec![alias])), Err("case a has an empty alias".to_string()));
    let kind = labeled("a", mention("PLANET", "A", &[]), mention("PERSON", "B", &[]), true);
    assert_eq!(
        validate(&fixture(vec![kind])),
        Err("case a has an unknown entity type".to_string())
    );
}

#[test]
fn artifact_queries_escape_and_name_every_mention() {
    let artifact = IndexedArtifact {
        schema_version: ARTIFACT_VERSION,
        document_id: "doc'1".into(),
        source_url: "https://example.com".into(),
        title: "T".into(),
        chunks: vec![Chunk { chunk_id: "c1".into(), text: "PERSON: Ada Lovelace".into() }],
    };
    let queries = artifact_queries(&artifact).unwrap();
    assert_eq!(queries.len(), 1);
    assert!(queries[0].starts_with("MERGE (c:Chunk {id:'c1', doc_id:'doc\\'1'}) MERGE (e:Entity {id:'entity-"));
    assert!(queries[0].contains("SET e.name='Ada Lovelace', e.type='PERSON', e.normalized='ada lovelace'"));
    assert!(queries[0].ends_with("MERGE (c)-[:MENTIONS]->(e)"));
}

#[test]
fn entity_identities_are_digests_of_type_and_name() {
    let entities = extract("PERSON: Ada Lovelace");
    assert_eq!(entities.len(), 1);
    assert_eq!(
        entities[0].id(),
        format!("entity-{}", ohara::digest::sha256_hex("PERSON:ada lovelace"))
    );
}
