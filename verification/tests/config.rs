use ohara::config::{
    Config, ConfigError, RawConfig, RawEmbedder, RawEr, RawFetcher, RawKnowledge, RawLlm,
    RawPipeline, RawRetrieval,
};

fn text(table: &toml::Table, key: &str) -> Option<String> {
    table.get(key).and_then(|v| v.as_str()).map(str::to_string)
}

fn number(table: &toml::Table, key: &str) -> Option<u64> {
    table.get(key).and_then(|v| v.as_integer()).map(|n| n as u64)
}

fn flag(table: &toml::Table, key: &str) -> Option<bool> {
    table.get(key).and_then(|v| v.as_bool())
}

fn bits(table: &toml::Table, key: &str) -> Option<u64> {
    table.get(key).and_then(|v| v.as_float()).map(f64::to_bits)
}

/// Reads settings from TOML; keys that no setting has are refused, as the program does.
fn raw_from(source: &str) -> Result<RawConfig, ConfigError> {
    let table: toml::Table = source.parse().map_err(|e: toml::de::Error| ConfigError::Parse(e.to_string()))?;
    let known = [
        "db_path",
        "data_dir",
        "poll_interval_ms",
        "lease_secs",
        "backoff_base_secs",
        "stage_events_retention_days",
        "default_rate_limit_ms",
        "target_languages",
        "pipeline",
        "fetcher",
        "embedder",
        "knowledge",
        "llm",
        "er",
        "retrieval",
    ];
    if let Some(key) = table.keys().find(|k| !known.contains(&k.as_str())) {
        return Err(ConfigError::Parse(format!("unknown field `{key}`")));
    }
    let part = |key: &str| table.get(key).and_then(|v| v.as_table()).cloned();
    Ok(RawConfig {
        db_path: text(&table, "db_path"),
        data_dir: text(&table, "data_dir"),
        poll_interval_ms: number(&table, "poll_interval_ms"),
        lease_secs: number(&table, "lease_secs"),
        backoff_base_secs: number(&table, "backoff_base_secs"),
        stage_events_retention_days: number(&table, "stage_events_retention_days"),
        default_rate_limit_ms: number(&table, "default_rate_limit_ms"),
        target_languages: table
            .get("target_languages")
            .and_then(|v| v.as_array())
            .map(|v| v.iter().filter_map(|l| l.as_str().map(str::to_string)).collect()),
        pipeline: part("pipeline").map(|t| RawPipeline { graph_enabled: flag(&t, "graph_enabled") }),
        fetcher: part("fetcher").map(|t| RawFetcher {
            robots: flag(&t, "robots"),
            timeout_secs: number(&t, "timeout_secs"),
            user_agent: text(&t, "user_agent"),
            allow_private_hosts: flag(&t, "allow_private_hosts"),
        }),
        embedder: part("embedder").map(|t| RawEmbedder {
            model_id: text(&t, "model_id"),
            dim: number(&t, "dim").map(|n| n as usize),
        }),
        knowledge: part("knowledge").map(|t| RawKnowledge {
            read_model: text(&t, "read_model"),
            write_model: text(&t, "write_model"),
        }),
        llm: part("llm").map(|t| RawLlm {
            base_url: text(&t, "base_url"),
            extraction_model: text(&t, "extraction_model"),
            fallback_model: text(&t, "fallback_model"),
            cloud_llm_enabled: flag(&t, "cloud_llm_enabled"),
        }),
        er: part("er").map(|t| RawEr {
            name_similarity_threshold: bits(&t, "name_similarity_threshold"),
            embedding_similarity_threshold: bits(&t, "embedding_similarity_threshold"),
            max_evidence: number(&t, "max_evidence").map(|n| n as usize),
            max_occurrences: number(&t, "max_occurrences").map(|n| n as usize),
        }),
        retrieval: part("retrieval").map(|t| RawRetrieval {
            entity_embedding_threshold: bits(&t, "entity_embedding_threshold"),
            max_query_entities: number(&t, "max_query_entities").map(|n| n as usize),
            fact_hops: number(&t, "fact_hops").map(|n| n as u8),
        }),
    })
}

fn load_from_str(source: &str) -> Result<Config, ConfigError> {
    Config::build(&raw_from(source)?)
}

fn load_defaults() -> Result<Config, ConfigError> {
    Config::build(&RawConfig::default())
}

#[test]
fn defaults_load_and_validate() {
    let config = load_defaults().expect("defaults are valid");
    assert_eq!(config.embedder().model_id(), "bge-small-en-v1.5");
    assert_eq!(config.embedder().dim(), 384);
    assert_eq!(config.knowledge().read_model(), "bge-small-en-v1.5");
    assert_eq!(config.llm().extraction_model(), "phi4-mini:latest");
    assert!(!config.llm().cloud_llm_enabled());
    assert_eq!(config.target_languages(), &vec!["en"]);
    assert!(config.pipeline().graph_enabled(), "graph on by default");
    assert_eq!(config.validate(), Ok(()));
}

#[test]
fn fetcher_defaults_are_honest() {
    let config = load_defaults().expect("defaults are valid");
    assert!(config.fetcher().robots());
    assert_eq!(config.fetcher().timeout(), 30);
    assert!(config.fetcher().user_agent().starts_with("ohara/"));
    assert!(!config.fetcher().allow_private_hosts(), "private hosts are off");
}

#[test]
fn fetcher_overrides_apply() {
    let config = load_from_str(
        "[fetcher]\nrobots = false\ntimeout_secs = 5\nallow_private_hosts = true\n",
    )
    .expect("valid config");
    assert!(!config.fetcher().robots());
    assert_eq!(config.fetcher().timeout(), 5);
    assert!(config.fetcher().allow_private_hosts());
}

#[test]
fn graph_disable_stops_the_chain_knob() {
    let config = load_from_str("[pipeline]\ngraph_enabled = false\n").expect("valid config");
    assert!(!config.pipeline().graph_enabled());
}

#[test]
fn invalid_values_fail_with_named_knobs() {
    let err = load_from_str("[embedder]\ndim = 0").expect_err("dim 0 must fail");
    assert!(matches!(err, ConfigError::Validation(m) if m.contains("embedder.dim")));

    let err = load_from_str("[llm]\nbase_url = \"ftp://x\"").expect_err("scheme");
    assert!(matches!(err, ConfigError::Validation(m) if m.contains("http/https")));
}

#[test]
fn overrides_apply() {
    let config = load_from_str(
        "data_dir = \"/tmp/ohara\"\n[embedder]\nmodel_id = \"bge-small-en-v1.5:int8\"\n",
    )
    .expect("valid");
    assert_eq!(config.data_dir(), "/tmp/ohara");
    // db_path defaults under data_dir.
    assert_eq!(config.db_path(), "/tmp/ohara/ohara.db");
    assert_eq!(config.embedder().model_id(), "bge-small-en-v1.5:int8");
    // knowledge pointers follow the embedder override.
    assert_eq!(config.knowledge().read_model(), "bge-small-en-v1.5:int8");
}

fn double(bits: u64) -> f64 {
    f64::from_bits(bits)
}

#[test]
fn er_knobs_default_and_override() {
    let config = load_defaults().expect("defaults are valid");
    assert_eq!(double(config.er().name_sim_threshold()), 0.85);
    assert_eq!(double(config.er().embedding_sim_threshold()), 0.75);
    assert_eq!(config.er().max_evidence(), 8);
    assert_eq!(config.er().max_occurrences(), 8);

    let config = load_from_str(
        "[er]\nname_similarity_threshold = 0.9\nembedding_similarity_threshold = 0.8\nmax_evidence = 3\nmax_occurrences = 2\n",
    )
    .expect("valid");
    assert_eq!(double(config.er().name_sim_threshold()), 0.9);
    assert_eq!(double(config.er().embedding_sim_threshold()), 0.8);
    assert_eq!(config.er().max_evidence(), 3);
    assert_eq!(config.er().max_occurrences(), 2);
}

#[test]
fn er_thresholds_are_validated() {
    let err = load_from_str("[er]\nname_similarity_threshold = 1.5").expect_err("must fail");
    assert!(matches!(err, ConfigError::Validation(m) if m.contains("name_similarity_threshold")));

    let err = load_from_str("[er]\nmax_evidence = 0").expect_err("must fail");
    assert!(matches!(err, ConfigError::Validation(m) if m.contains("max_evidence")));
}

#[test]
fn retrieval_knobs_default_and_override() {
    let config = load_defaults().expect("defaults are valid");
    assert_eq!(double(config.retrieval().entity_embedding_threshold()), 0.75);
    assert_eq!(config.retrieval().max_query_entities(), 8);
    assert_eq!(config.retrieval().fact_hops(), 2);

    let config = load_from_str(
        "[retrieval]\nentity_embedding_threshold = 0.8\nmax_query_entities = 4\nfact_hops = 1\n",
    )
    .expect("valid");
    assert_eq!(double(config.retrieval().entity_embedding_threshold()), 0.8);
    assert_eq!(config.retrieval().max_query_entities(), 4);
    assert_eq!(config.retrieval().fact_hops(), 1);
}

#[test]
fn retrieval_knobs_are_validated() {
    let err =
        load_from_str("[retrieval]\nentity_embedding_threshold = 1.5").expect_err("must fail");
    assert!(matches!(err, ConfigError::Validation(m) if m.contains("entity_embedding_threshold")));

    let err = load_from_str("[retrieval]\nfact_hops = 0").expect_err("must fail");
    assert!(matches!(err, ConfigError::Validation(m) if m.contains("fact_hops")));

    let err = load_from_str("[retrieval]\nfact_hops = 3").expect_err("must fail");
    assert!(matches!(err, ConfigError::Validation(m) if m.contains("fact_hops")));

    let err = load_from_str("[retrieval]\nmax_query_entities = 0").expect_err("must fail");
    assert!(matches!(err, ConfigError::Validation(m) if m.contains("max_query_entities")));
}

#[test]
fn violations_name_the_knob_and_the_expectation() {
    for (source, message) in [
        ("target_languages = []", "target_languages must not be empty (§8 Stage 2 gate)"),
        (
            "[fetcher]\nuser_agent = \"\"",
            "fetcher.user_agent must be non-empty (§8: honest User-Agent)",
        ),
        (
            "[er]\nmax_evidence = 0",
            "er.max_evidence / er.max_occurrences must be > 0 (§8 Stage 4 caps)",
        ),
        (
            "[retrieval]\nmax_query_entities = 0",
            "retrieval.max_query_entities must be > 0 (§8 Stage 5.2)",
        ),
        (
            "[retrieval]\nfact_hops = 3",
            "retrieval.fact_hops must be in 1..=2 (§8 Stage 5.3 precision-first)",
        ),
    ] {
        assert_eq!(load_from_str(source).unwrap_err().message(), message);
    }
}

#[test]
fn config_errors_read_well() {
    assert_eq!(
        ConfigError::Io { path: "a\"b".into(), source: "gone".into() }.message(),
        "cannot read config file \"a\\\"b\": gone"
    );
    assert_eq!(ConfigError::Parse("x".into()).message(), "cannot parse config file: x");
    assert_eq!(ConfigError::Validation("x".into()).message(), "x");
    assert_eq!(
        ohara::BootError::Config(ConfigError::Validation("x".into())).message(),
        "invalid configuration: x"
    );
    assert_eq!(ohara::BootError::Io("x".into()).message(), "io: x");
    assert_eq!(ohara::BootError::Worker("x".into()).message(), "worker loop failed: x");
    assert_eq!(ohara::BootError::Fatal("x".into()).message(), "fatal stage failure: x");
    assert_eq!(
        ohara::BootError::Control(ohara::control::db::DbError::Sqlite("x".into())).message(),
        "control store: sqlite: x"
    );
}
