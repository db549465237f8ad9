//! Configuration: every knob, validated at boot. [`Config`] is immutable after construction; a model
//! or policy change is a restart.

use vstd::prelude::*;
use vstd::string::StringExecFns;

use crate::control::documents::{join_path, joined_path};
use crate::text::{copy_opt, copy_texts, debug_form, debug_string, opt_text, texts};
use crate::web::{is_web_scheme, parse_url, url_parts};

verus! {

/// Worker poll interval when the queue is empty (ms).
pub const POLL_INTERVAL_MS: u64 = 2_000;

/// Job lease duration.
pub const LEASE_SECS: u64 = 60;

/// Base for jittered exponential retry backoff.
pub const BACKOFF_BASE_SECS: u64 = 60;

/// Retention of audit events before pruning; zero disables pruning.
pub const STAGE_EVENTS_RETENTION_DAYS: u64 = 90;

/// Global politeness default: one request in two seconds.
pub const RATE_LIMIT_MS: u64 = 2_000;

/// Pinned embedder model; the quantization variant is part of the id.
pub const EMBEDDER_MODEL: &'static str = "bge-small-en-v1.5";

/// Pinned embedder dimensionality.
pub const EMBEDDER_DIM: usize = 384;

/// Local model endpoint; nothing leaves the machine by default.
pub const LLM_BASE_URL: &'static str = "http://localhost:11434";

/// Pinned extraction model.
pub const LLM_EXTRACTION_MODEL: &'static str = "phi4-mini:latest";

/// The bits of 0.85: normalized-name similarity floor for same-supertype matches.
pub const ER_NAME_SIMILARITY: u64 = 0x3feb_3333_3333_3333;

/// The bits of 0.75: entity-name embedding similarity floor for same-supertype matches.
pub const ER_EMBEDDING_SIMILARITY: u64 = 0x3fe8_0000_0000_0000;

/// Evidence chunk ids kept per fact edge.
pub const ER_MAX_EVIDENCE: usize = 8;

/// Occurrence dates kept per fact edge.
pub const ER_MAX_OCCURRENCES: usize = 8;

/// The bits of 0.75: embedding-similarity floor for query entities.
pub const RETRIEVAL_ENTITY_THRESHOLD: u64 = 0x3fe8_0000_0000_0000;

/// Cap on query entities feeding the graph paths.
pub const RETRIEVAL_MAX_QUERY_ENTITIES: usize = 8;

/// Fact-graph hops from query entities.
pub const RETRIEVAL_FACT_HOPS: u8 = 2;

/// Fetch deadline per request.
pub const FETCH_TIMEOUT_SECS: u64 = 30;

/// Honest User-Agent: identifies the crawler and its owner.
pub const USER_AGENT: &'static str = "ohara/0.1.0 (https://github.com/Chandra179/ohara)";

/// Boot failures: fail fast at boot, never mid-stage.
#[derive(Debug, Clone, PartialEq, Eq)]
pub enum ConfigError {
    /// The config file could not be read.
    Io {
        /// The path that failed.
        path: String,
        /// The underlying I/O error.
        source: String,
    },
    /// The config file is not valid.
    Parse(String),
    /// A knob is invalid; the message names the knob and the expectation.
    Validation(String),
}

impl ConfigError {
    /// The message of the error.
    pub open spec fn text(self) -> Seq<char> {
        match self {
            ConfigError::Io { path, source } => "cannot read config file "@ + debug_form(path@)
                + ": "@ + source@,
            ConfigError::Parse(m) => "cannot parse config file: "@ + m@,
            ConfigError::Validation(m) => m@,
        }
    }

    /// The message of the error.
    pub fn message(&self) -> (res: String)
        ensures
            res@ == self.text(),
    {
        match self {
            ConfigError::Io { path, source } => {
                let mut s = "cannot read config file ".to_owned();
                s.append(debug_string(path.as_str()).as_str());
                s.append(": ");
                s.append(source.as_str());
                s
            },
            ConfigError::Parse(m) => {
                let mut s = "cannot parse config file: ".to_owned();
                s.append(m.as_str());
                s
            },
            ConfigError::Validation(m) => m.clone(),
        }
    }
}

/// Whether the double of this bit pattern is above 0 and not above 1.
pub open spec fn is_threshold(bits: u64) -> bool {
    0 < bits <= 0x3ff0_0000_0000_0000
}

// ---------------------------------------------------------------------------------------------
// Settings as they are given.
// ---------------------------------------------------------------------------------------------

/// Fetch-ladder knobs as they are given.
#[derive(Debug)]
pub struct RawFetcher {
    /// Honor `robots.txt`.
    pub robots: Option<bool>,
    /// Per-request deadline.
    pub timeout_secs: Option<u64>,
    /// User-Agent header.
    pub user_agent: Option<String>,
    /// Whether private hosts are fetchable.
    pub allow_private_hosts: Option<bool>,
}

impl Default for RawFetcher {
    fn default() -> (res: RawFetcher)
        ensures
            res.robots is None,
            res.timeout_secs is None,
            res.user_agent is None,
            res.allow_private_hosts is None,
    {
        RawFetcher {
            robots: None,
            timeout_secs: None,
            user_agent: None,
            allow_private_hosts: None,
        }
    }
}

/// Pipeline knobs as they are given.
#[derive(Debug)]
pub struct RawPipeline {
    /// Whether the chain continues into extraction.
    pub graph_enabled: Option<bool>,
}

impl Default for RawPipeline {
    fn default() -> (res: RawPipeline)
        ensures
            res.graph_enabled is None,
    {
        RawPipeline {
            graph_enabled: None,
        }
    }
}

/// The embedder as it is given.
#[derive(Debug)]
pub struct RawEmbedder {
    /// Model id.
    pub model_id: Option<String>,
    /// Dimensionality.
    pub dim: Option<usize>,
}

impl Default for RawEmbedder {
    fn default() -> (res: RawEmbedder)
        ensures
            res.model_id is None,
            res.dim is None,
    {
        RawEmbedder {
            model_id: None,
            dim: None,
        }
    }
}

/// Knowledge-plane pointers as they are given.
#[derive(Debug)]
pub struct RawKnowledge {
    /// Model that serves reads.
    pub read_model: Option<String>,
    /// Model that receives writes.
    pub write_model: Option<String>,
}

impl Default for RawKnowledge {
    fn default() -> (res: RawKnowledge)
        ensures
            res.read_model is None,
            res.write_model is None,
    {
        RawKnowledge {
            read_model: None,
            write_model: None,
        }
    }
}

/// The language model as it is given.
#[derive(Debug)]
pub struct RawLlm {
    /// Endpoint.
    pub base_url: Option<String>,
    /// Extraction model.
    pub extraction_model: Option<String>,
    /// Fallback model.
    pub fallback_model: Option<String>,
    /// Whether cloud egress is allowed.
    pub cloud_llm_enabled: Option<bool>,
}

impl Default for RawLlm {
    fn default() -> (res: RawLlm)
        ensures
            res.base_url is None,
            res.extraction_model is None,
            res.fallback_model is None,
            res.cloud_llm_enabled is None,
    {
        RawLlm {
            base_url: None,
            extraction_model: None,
            fallback_model: None,
            cloud_llm_enabled: None,
        }
    }
}

/// Entity-resolution knobs as they are given.
#[derive(Debug)]
pub struct RawEr {
    /// The bits of the name similarity floor.
    pub name_similarity_threshold: Option<u64>,
    /// The bits of the embedding similarity floor.
    pub embedding_similarity_threshold: Option<u64>,
    /// Evidence cap.
    pub max_evidence: Option<usize>,
    /// Occurrence cap.
    pub max_occurrences: Option<usize>,
}

impl Default for RawEr {
    fn default() -> (res: RawEr)
        ensures
            res.name_similarity_threshold is None,
            res.embedding_similarity_threshold is None,
            res.max_evidence is None,
            res.max_occurrences is None,
    {
        RawEr {
            name_similarity_threshold: None,
            embedding_similarity_threshold: None,
            max_evidence: None,
            max_occurrences: None,
        }
    }
}

/// Retrieval knobs as they are given.
#[derive(Debug)]
pub struct RawRetrieval {
    /// The bits of the similarity floor.
    pub entity_embedding_threshold: Option<u64>,
    /// Cap on query entities.
    pub max_query_entities: Option<usize>,
    /// Fact-graph hops.
    pub fact_hops: Option<u8>,
}

impl Default for RawRetrieval {
    fn default() -> (res: RawRetrieval)
        ensures
            res.entity_embedding_threshold is None,
            res.max_query_entities is None,
            res.fact_hops is None,
    {
        RawRetrieval {
            entity_embedding_threshold: None,
            max_query_entities: None,
            fact_hops: None,
        }
    }
}

/// The settings of a config file; what is not given is none.
#[derive(Debug)]
pub struct RawConfig {
    /// Control-store location.
    pub db_path: Option<String>,
    /// Payload root.
    pub data_dir: Option<String>,
    /// Worker poll interval.
    pub poll_interval_ms: Option<u64>,
    /// Job lease duration.
    pub lease_secs: Option<u64>,
    /// Backoff base.
    pub backoff_base_secs: Option<u64>,
    /// Audit retention.
    pub stage_events_retention_days: Option<u64>,
    /// Politeness floor.
    pub default_rate_limit_ms: Option<u64>,
    /// Accepted languages.
    pub target_languages: Option<Vec<String>>,
    /// Pipeline knobs.
    pub pipeline: Option<RawPipeline>,
    /// Fetch-ladder knobs.
    pub fetcher: Option<RawFetcher>,
    /// The embedder.
    pub embedder: Option<RawEmbedder>,
    /// Knowledge-plane pointers.
    pub knowledge: Option<RawKnowledge>,
    /// The language model.
    pub llm: Option<RawLlm>,
    /// Entity-resolution knobs.
    pub er: Option<RawEr>,
    /// Retrieval knobs.
    pub retrieval: Option<RawRetrieval>,
}

impl Default for RawConfig {
    fn default() -> (res: RawConfig)
        ensures
            res.db_path is None,
            res.data_dir is None,
            res.poll_interval_ms is None,
            res.lease_secs is None,
            res.backoff_base_secs is None,
            res.stage_events_retention_days is None,
            res.default_rate_limit_ms is None,
            res.target_languages is None,
            res.pipeline is None,
            res.fetcher is None,
            res.embedder is None,
            res.knowledge is None,
            res.llm is None,
            res.er is None,
            res.retrieval is None,
    {
        RawConfig {
            db_path: None,
            data_dir: None,
            poll_interval_ms: None,
            lease_secs: None,
            backoff_base_secs: None,
            stage_events_retention_days: None,
            default_rate_limit_ms: None,
            target_languages: None,
            pipeline: None,
            fetcher: None,
            embedder: None,
            knowledge: None,
            llm: None,
            er: None,
            retrieval: None,
        }
    }
}

// ---------------------------------------------------------------------------------------------
// Settings in use.
// ---------------------------------------------------------------------------------------------

/// Pipeline-level knobs.
#[derive(Debug, Clone)]
pub struct PipelineConfig {
    graph_enabled: bool,
}

/// The model of [`PipelineConfig`].
#[verifier::ext_equal]
pub struct PipelineView {
    pub graph_enabled: bool,
}

impl View for PipelineConfig {
    type V = PipelineView;

    closed spec fn view(&self) -> PipelineView {
        PipelineView {
            graph_enabled: self.graph_enabled,
        }
    }
}

impl PipelineConfig {
    /// Whether the chain runs into extraction: otherwise it ends at vectorization, and documents stay
    /// retrievable by text and vector.
    pub fn graph_enabled(&self) -> (res: bool)
        ensures
            res == self@.graph_enabled,
    {
        self.graph_enabled
    }
}

/// Fetch-ladder knobs. Only globally routable targets are fetchable unless private hosts are allowed.
#[derive(Debug, Clone)]
pub struct FetcherConfig {
    robots: bool,
    timeout: u64,
    user_agent: String,
    allow_private_hosts: bool,
}

/// The model of [`FetcherConfig`].
#[verifier::ext_equal]
pub struct FetcherView {
    pub robots: bool,
    pub timeout: u64,
    pub user_agent: Seq<char>,
    pub allow_private_hosts: bool,
}

impl View for FetcherConfig {
    type V = FetcherView;

    closed spec fn view(&self) -> FetcherView {
        FetcherView {
            robots: self.robots,
            timeout: self.timeout,
            user_agent: self.user_agent@,
            allow_private_hosts: self.allow_private_hosts,
        }
    }
}

impl FetcherConfig {
    /// Whether `robots.txt` is honored.
    pub fn robots(&self) -> (res: bool)
        ensures
            res == self@.robots,
    {
        self.robots
    }

    /// Per-request fetch deadline, in seconds.
    pub fn timeout(&self) -> (res: u64)
        ensures
            res == self@.timeout,
    {
        self.timeout
    }

    /// Honest User-Agent header.
    pub fn user_agent(&self) -> (res: &str)
        ensures
            res@ == self@.user_agent,
    {
        self.user_agent.as_str()
    }

    /// Whether private and loopback targets are fetchable.
    pub fn allow_private_hosts(&self) -> (res: bool)
        ensures
            res == self@.allow_private_hosts,
    {
        self.allow_private_hosts
    }
}

/// Pinned embedder identity: model and quantization variant are one id.
#[derive(Debug, Clone)]
pub struct EmbedderConfig {
    model_id: String,
    dim: usize,
}

/// The model of [`EmbedderConfig`].
#[verifier::ext_equal]
pub struct EmbedderView {
    pub model_id: Seq<char>,
    pub dim: usize,
}

impl View for EmbedderConfig {
    type V = EmbedderView;

    closed spec fn view(&self) -> EmbedderView {
        EmbedderView {
            model_id: self.model_id@,
            dim: self.dim,
        }
    }
}

impl EmbedderConfig {
    /// Model id.
    pub fn model_id(&self) -> (res: &str)
        ensures
            res@ == self@.model_id,
    {
        self.model_id.as_str()
    }

    /// Embedding dimensionality.
    pub fn dim(&self) -> (res: usize)
        ensures
            res == self@.dim,
    {
        self.dim
    }
}

/// Knowledge-plane namespace pointers.
#[derive(Debug, Clone)]
pub struct KnowledgeConfig {
    read_model: String,
    write_model: String,
}

/// The model of [`KnowledgeConfig`].
#[verifier::ext_equal]
pub struct KnowledgeView {
    pub read_model: Seq<char>,
    pub write_model: Seq<char>,
}

impl View for KnowledgeConfig {
    type V = KnowledgeView;

    closed spec fn view(&self) -> KnowledgeView {
        KnowledgeView {
            read_model: self.read_model@,
            write_model: self.write_model@,
        }
    }
}

impl KnowledgeConfig {
    /// Model whose collection serves reads.
    pub fn read_model(&self) -> (res: &str)
        ensures
            res@ == self@.read_model,
    {
        self.read_model.as_str()
    }

    /// Model whose collection receives writes.
    pub fn write_model(&self) -> (res: &str)
        ensures
            res@ == self@.write_model,
    {
        self.write_model.as_str()
    }
}

/// Language-model endpoint and pinned models.
#[derive(Debug, Clone)]
pub struct LlmConfig {
    base_url: String,
    scheme: String,
    extraction_model: String,
    fallback_model: Option<String>,
    cloud_llm_enabled: bool,
}

/// The model of [`LlmConfig`].
#[verifier::ext_equal]
pub struct LlmView {
    pub base_url: Seq<char>,
    pub scheme: Seq<char>,
    pub extraction_model: Seq<char>,
    pub fallback_model: Option<Seq<char>>,
    pub cloud_llm_enabled: bool,
}

impl View for LlmConfig {
    type V = LlmView;

    closed spec fn view(&self) -> LlmView {
        LlmView {
            base_url: self.base_url@,
            scheme: self.scheme@,
            extraction_model: self.extraction_model@,
            fallback_model: opt_text(self.fallback_model),
            cloud_llm_enabled: self.cloud_llm_enabled,
        }
    }
}

impl LlmConfig {
    /// The base URL.
    pub fn base_url(&self) -> (res: &str)
        ensures
            res@ == self@.base_url,
    {
        self.base_url.as_str()
    }

    /// The scheme of the base URL.
    pub fn scheme(&self) -> (res: &str)
        ensures
            res@ == self@.scheme,
    {
        self.scheme.as_str()
    }

    /// Pinned extraction model.
    pub fn extraction_model(&self) -> (res: &str)
        ensures
            res@ == self@.extraction_model,
    {
        self.extraction_model.as_str()
    }

    /// Optional quality-fallback model.
    pub fn fallback_model(&self) -> (res: Option<&str>)
        ensures
            match res {
                Some(s) => self@.fallback_model == Some(s@),
                None => self@.fallback_model is None,
            },
    {
        match &self.fallback_model {
            Some(s) => Some(s.as_str()),
            None => None,
        }
    }

    /// Whether cloud egress is allowed.
    pub fn cloud_llm_enabled(&self) -> (res: bool)
        ensures
            res == self@.cloud_llm_enabled,
    {
        self.cloud_llm_enabled
    }
}

/// Entity-resolution thresholds and fact-edge caps.
#[derive(Debug, Clone)]
pub struct ErConfig {
    name_sim_threshold: u64,
    embedding_sim_threshold: u64,
    max_evidence: usize,
    max_occurrences: usize,
}

/// The model of [`ErConfig`].
#[verifier::ext_equal]
pub struct ErView {
    pub name_sim_threshold: u64,
    pub embedding_sim_threshold: u64,
    pub max_evidence: usize,
    pub max_occurrences: usize,
}

impl View for ErConfig {
    type V = ErView;

    closed spec fn view(&self) -> ErView {
        ErView {
            name_sim_threshold: self.name_sim_threshold,
            embedding_sim_threshold: self.embedding_sim_threshold,
            max_evidence: self.max_evidence,
            max_occurrences: self.max_occurrences,
        }
    }
}

impl ErConfig {
    /// The bits of the normalized-name similarity floor.
    pub fn name_sim_threshold(&self) -> (res: u64)
        ensures
            res == self@.name_sim_threshold,
    {
        self.name_sim_threshold
    }

    /// The bits of the entity-name embedding similarity floor.
    pub fn embedding_sim_threshold(&self) -> (res: u64)
        ensures
            res == self@.embedding_sim_threshold,
    {
        self.embedding_sim_threshold
    }

    /// Evidence chunk-id cap per fact edge.
    pub fn max_evidence(&self) -> (res: usize)
        ensures
            res == self@.max_evidence,
    {
        self.max_evidence
    }

    /// Occurrence cap per fact edge.
    pub fn max_occurrences(&self) -> (res: usize)
        ensures
            res == self@.max_occurrences,
    {
        self.max_occurrences
    }
}

/// Retrieval knobs.
#[derive(Debug, Clone)]
pub struct RetrievalConfig {
    entity_embedding_threshold: u64,
    max_query_entities: usize,
    fact_hops: u8,
}

/// The model of [`RetrievalConfig`].
#[verifier::ext_equal]
pub struct RetrievalView {
    pub entity_embedding_threshold: u64,
    pub max_query_entities: usize,
    pub fact_hops: u8,
}

impl View for RetrievalConfig {
    type V = RetrievalView;

    closed spec fn view(&self) -> RetrievalView {
        RetrievalView {
            entity_embedding_threshold: self.entity_embedding_threshold,
            max_query_entities: self.max_query_entities,
            fact_hops: self.fact_hops,
        }
    }
}

impl RetrievalConfig {
    /// The bits of the embedding-similarity floor for query entities.
    pub fn entity_embedding_threshold(&self) -> (res: u64)
        ensures
            res == self@.entity_embedding_threshold,
    {
        self.entity_embedding_threshold
    }

    /// Cap on query entities feeding the graph paths.
    pub fn max_query_entities(&self) -> (res: usize)
        ensures
            res == self@.max_query_entities,
    {
        self.max_query_entities
    }

    /// Fact-graph hops from query entities.
    pub fn fact_hops(&self) -> (res: u8)
        ensures
            res == self@.fact_hops,
    {
        self.fact_hops
    }
}

/// Validated, immutable runtime configuration.
#[derive(Debug, Clone)]
pub struct Config {
    db_path: String,
    data_dir: String,
    poll_interval: u64,
    lease_ttl: u64,
    backoff_base: u64,
    stage_events_retention: u64,
    rate_limit: u64,
    target_languages: Vec<String>,
    pipeline: PipelineConfig,
    fetcher: FetcherConfig,
    embedder: EmbedderConfig,
    knowledge: KnowledgeConfig,
    llm: LlmConfig,
    er: ErConfig,
    retrieval: RetrievalConfig,
}

/// The model of [`Config`].
#[verifier::ext_equal]
pub struct ConfigView {
    pub db_path: Seq<char>,
    pub data_dir: Seq<char>,
    pub poll_interval: u64,
    pub lease_ttl: u64,
    pub backoff_base: u64,
    pub stage_events_retention: u64,
    pub rate_limit: u64,
    pub target_languages: Seq<Seq<char>>,
    pub pipeline: PipelineView,
    pub fetcher: FetcherView,
    pub embedder: EmbedderView,
    pub knowledge: KnowledgeView,
    pub llm: LlmView,
    pub er: ErView,
    pub retrieval: RetrievalView,
}

impl View for Config {
    type V = ConfigView;

    closed spec fn view(&self) -> ConfigView {
        ConfigView {
            db_path: self.db_path@,
            data_dir: self.data_dir@,
            poll_interval: self.poll_interval,
            lease_ttl: self.lease_ttl,
            backoff_base: self.backoff_base,
            stage_events_retention: self.stage_events_retention,
            rate_limit: self.rate_limit,
            target_languages: texts(self.target_languages@),
            pipeline: self.pipeline@,
            fetcher: self.fetcher@,
            embedder: self.embedder@,
            knowledge: self.knowledge@,
            llm: self.llm@,
            er: self.er@,
            retrieval: self.retrieval@,
        }
    }
}

impl Config {
    /// Control-store location.
    pub fn db_path(&self) -> (res: &str)
        ensures
            res@ == self@.db_path,
    {
        self.db_path.as_str()
    }

    /// Runtime payload root.
    pub fn data_dir(&self) -> (res: &str)
        ensures
            res@ == self@.data_dir,
    {
        self.data_dir.as_str()
    }

    /// Worker sleep when no job is claimable, in milliseconds.
    pub fn poll_interval(&self) -> (res: u64)
        ensures
            res == self@.poll_interval,
    {
        self.poll_interval
    }

    /// Job lease duration, in seconds.
    pub fn lease_ttl(&self) -> (res: u64)
        ensures
            res == self@.lease_ttl,
    {
        self.lease_ttl
    }

    /// Base for jittered exponential retry backoff, in seconds.
    pub fn backoff_base(&self) -> (res: u64)
        ensures
            res == self@.backoff_base,
    {
        self.backoff_base
    }

    /// Audit retention in seconds; zero disables pruning.
    pub fn stage_events_retention(&self) -> (res: u64)
        ensures
            res == self@.stage_events_retention,
    {
        self.stage_events_retention
    }

    /// Global politeness floor between requests to one host, in milliseconds.
    pub fn rate_limit(&self) -> (res: u64)
        ensures
            res == self@.rate_limit,
    {
        self.rate_limit
    }

    /// Languages accepted by the cleaning gate.
    pub fn target_languages(&self) -> (res: &Vec<String>)
        ensures
            texts(res@) == self@.target_languages,
    {
        &self.target_languages
    }

    /// Pipeline-level knobs.
    pub fn pipeline(&self) -> (res: &PipelineConfig)
        ensures
            res@ == self@.pipeline,
    {
        &self.pipeline
    }

    /// Fetch-ladder knobs.
    pub fn fetcher(&self) -> (res: &FetcherConfig)
        ensures
            res@ == self@.fetcher,
    {
        &self.fetcher
    }

    /// Pinned embedder identity.
    pub fn embedder(&self) -> (res: &EmbedderConfig)
        ensures
            res@ == self@.embedder,
    {
        &self.embedder
    }

    /// Knowledge-plane namespace pointers.
    pub fn knowledge(&self) -> (res: &KnowledgeConfig)
        ensures
            res@ == self@.knowledge,
    {
        &self.knowledge
    }

    /// Language-model endpoint and pinned models.
    pub fn llm(&self) -> (res: &LlmConfig)
        ensures
            res@ == self@.llm,
    {
        &self.llm
    }

    /// Entity-resolution and fact-edge aggregation knobs.
    pub fn er(&self) -> (res: &ErConfig)
        ensures
            res@ == self@.er,
    {
        &self.er
    }

    /// Retrieval knobs.
    pub fn retrieval(&self) -> (res: &RetrievalConfig)
        ensures
            res@ == self@.retrieval,
    {
        &self.retrieval
    }
}

// ---------------------------------------------------------------------------------------------
// Building and validating.
// ---------------------------------------------------------------------------------------------

/// A given text, else a default.
pub open spec fn text_or(given: Option<String>, default: Seq<char>) -> Seq<char> {
    match given {
        Some(s) => s@,
        None => default,
    }
}

fn string_or(given: &Option<String>, default: &str) -> (res: String)
    ensures
        res@ == text_or(*given, default@),
{
    match given {
        Some(s) => s.clone(),
        None => default.to_owned(),
    }
}

/// The data directory in use.
pub open spec fn data_dir_of(raw: RawConfig) -> Seq<char> {
    text_or(raw.data_dir, "data"@)
}

/// The audit retention in use, in days.
pub open spec fn retention_days(raw: RawConfig) -> u64 {
    match raw.stage_events_retention_days {
        Some(n) => n,
        None => STAGE_EVENTS_RETENTION_DAYS,
    }
}

/// The languages in use.
pub open spec fn languages_of(raw: RawConfig) -> Seq<Seq<char>> {
    match raw.target_languages {
        Some(v) => texts(v@),
        None => seq!["en"@],
    }
}

/// The pipeline knobs in use.
pub open spec fn pipeline_of(raw: Option<RawPipeline>) -> PipelineView {
    PipelineView {
        graph_enabled: match raw {
            Some(p) => match p.graph_enabled {
                Some(b) => b,
                None => true,
            },
            None => true,
        },
    }
}

/// The fetch-ladder knobs in use.
pub open spec fn fetcher_of(raw: Option<RawFetcher>) -> FetcherView {
    match raw {
        Some(f) => FetcherView {
            robots: match f.robots {
                Some(b) => b,
                None => true,
            },
            timeout: match f.timeout_secs {
                Some(n) => n,
                None => FETCH_TIMEOUT_SECS,
            },
            user_agent: text_or(f.user_agent, USER_AGENT@),
            allow_private_hosts: match f.allow_private_hosts {
                Some(b) => b,
                None => false,
            },
        },
        None => FetcherView {
            robots: true,
            timeout: FETCH_TIMEOUT_SECS,
            user_agent: USER_AGENT@,
            allow_private_hosts: false,
        },
    }
}

/// The embedder in use.
pub open spec fn embedder_of(raw: Option<RawEmbedder>) -> EmbedderView {
    match raw {
        Some(e) => EmbedderView {
            model_id: text_or(e.model_id, EMBEDDER_MODEL@),
            dim: match e.dim {
                Some(n) => n,
                None => EMBEDDER_DIM,
            },
        },
        None => EmbedderView { model_id: EMBEDDER_MODEL@, dim: EMBEDDER_DIM },
    }
}

/// The knowledge-plane pointers in use: they follow the embedder where they are not given.
pub open spec fn knowledge_of(raw: Option<RawKnowledge>, model_id: Seq<char>) -> KnowledgeView {
    match raw {
        Some(k) => KnowledgeView {
            read_model: text_or(k.read_model, model_id),
            write_model: text_or(k.write_model, model_id),
        },
        None => KnowledgeView { read_model: model_id, write_model: model_id },
    }
}

/// The endpoint of the language model as it is given, if it is.
pub open spec fn given_base_url(raw: Option<RawLlm>) -> Option<Seq<char>> {
    match raw {
        Some(l) => opt_text(l.base_url),
        None => None,
    }
}

/// The endpoint of the language model in use.
pub open spec fn base_url_of(raw: Option<RawLlm>) -> Seq<char> {
    match given_base_url(raw) {
        Some(s) => s,
        None => LLM_BASE_URL@,
    }
}

/// The language model in use, with the endpoint that was read.
pub open spec fn llm_of(raw: Option<RawLlm>, href: Seq<char>, scheme: Seq<char>) -> LlmView {
    match raw {
        Some(l) => LlmView {
            base_url: href,
            scheme,
            extraction_model: text_or(l.extraction_model, LLM_EXTRACTION_MODEL@),
            fallback_model: opt_text(l.fallback_model),
            cloud_llm_enabled: match l.cloud_llm_enabled {
                Some(b) => b,
                None => false,
            },
        },
        None => LlmView {
            base_url: href,
            scheme,
            extraction_model: LLM_EXTRACTION_MODEL@,
            fallback_model: None,
            cloud_llm_enabled: false,
        },
    }
}

/// The entity-resolution knobs in use.
pub open spec fn er_of(raw: Option<RawEr>) -> ErView {
    match raw {
        Some(e) => ErView {
            name_sim_threshold: match e.name_similarity_threshold {
                Some(n) => n,
                None => ER_NAME_SIMILARITY,
            },
            embedding_sim_threshold: match e.embedding_similarity_threshold {
                Some(n) => n,
                None => ER_EMBEDDING_SIMILARITY,
            },
            max_evidence: match e.max_evidence {
                Some(n) => n,
                None => ER_MAX_EVIDENCE,
            },
            max_occurrences: match e.max_occurrences {
                Some(n) => n,
                None => ER_MAX_OCCURRENCES,
            },
        },
        None => ErView {
            name_sim_threshold: ER_NAME_SIMILARITY,
            embedding_sim_threshold: ER_EMBEDDING_SIMILARITY,
            max_evidence: ER_MAX_EVIDENCE,
            max_occurrences: ER_MAX_OCCURRENCES,
        },
    }
}

/// The retrieval knobs in use.
pub open spec fn retrieval_of(raw: Option<RawRetrieval>) -> RetrievalView {
    match raw {
        Some(r) => RetrievalView {
            entity_embedding_threshold: match r.entity_embedding_threshold {
                Some(n) => n,
                None => RETRIEVAL_ENTITY_THRESHOLD,
            },
            max_query_entities: match r.max_query_entities {
                Some(n) => n,
                None => RETRIEVAL_MAX_QUERY_ENTITIES,
            },
            fact_hops: match r.fact_hops {
                Some(n) => n,
                None => RETRIEVAL_FACT_HOPS,
            },
        },
        None => RetrievalView {
            entity_embedding_threshold: RETRIEVAL_ENTITY_THRESHOLD,
            max_query_entities: RETRIEVAL_MAX_QUERY_ENTITIES,
            fact_hops: RETRIEVAL_FACT_HOPS,
        },
    }
}

/// The configuration of given settings, with the endpoint that was read.
pub open spec fn built(raw: RawConfig, href: Seq<char>, scheme: Seq<char>) -> ConfigView {
    let embedder = embedder_of(raw.embedder);
    ConfigView {
        db_path: text_or(raw.db_path, joined_path(data_dir_of(raw), "ohara.db"@)),
        data_dir: data_dir_of(raw),
        poll_interval: match raw.poll_interval_ms {
            Some(n) => n,
            None => POLL_INTERVAL_MS,
        },
        lease_ttl: match raw.lease_secs {
            Some(n) => n,
            None => LEASE_SECS,
        },
        backoff_base: match raw.backoff_base_secs {
            Some(n) => n,
            None => BACKOFF_BASE_SECS,
        },
        stage_events_retention: (retention_days(raw) * 24 * 3600) as u64,
        rate_limit: match raw.default_rate_limit_ms {
            Some(n) => n,
            None => RATE_LIMIT_MS,
        },
        target_languages: languages_of(raw),
        pipeline: pipeline_of(raw.pipeline),
        fetcher: fetcher_of(raw.fetcher),
        embedder,
        knowledge: knowledge_of(raw.knowledge, embedder.model_id),
        llm: llm_of(raw.llm, href, scheme),
        er: er_of(raw.er),
        retrieval: retrieval_of(raw.retrieval),
    }
}


/// The first knob that violates its expectation, as the message that names it.
pub open spec fn violation(c: ConfigView) -> Option<Seq<char>> {
    if !(c.poll_interval > 0) {
        Some("poll_interval_ms must be > 0"@)
    } else if !(c.lease_ttl > 0) {
        Some("lease_secs must be > 0"@)
    } else if !(c.backoff_base > 0) {
        Some("backoff_base_secs must be > 0"@)
    } else if !(c.rate_limit > 0) {
        Some("default_rate_limit_ms must be > 0"@)
    } else if !(c.embedder.dim > 0) {
        Some("embedder.dim must be > 0"@)
    } else if !(c.embedder.model_id.len() > 0) {
        Some("embedder.model_id must be non-empty"@)
    } else if !(c.knowledge.read_model.len() > 0 && c.knowledge.write_model.len() > 0) {
        Some("knowledge.read_model / knowledge.write_model must be non-empty"@)
    } else if !(c.target_languages.len() > 0) {
        Some("target_languages must not be empty (§8 Stage 2 gate)"@)
    } else if !(c.llm.extraction_model.len() > 0) {
        Some("llm.extraction_model must be non-empty"@)
    } else if !(c.fetcher.timeout > 0) {
        Some("fetcher.timeout_secs must be > 0"@)
    } else if !(c.fetcher.user_agent.len() > 0) {
        Some("fetcher.user_agent must be non-empty (§8: honest User-Agent)"@)
    } else if !(c.llm.scheme == "http"@ || c.llm.scheme == "https"@) {
        Some("llm.base_url must be http/https, got "@ + debug_form(c.llm.scheme))
    } else if !(is_threshold(c.er.name_sim_threshold)) {
        Some("er.name_similarity_threshold must be in (0, 1]"@)
    } else if !(is_threshold(c.er.embedding_sim_threshold)) {
        Some("er.embedding_similarity_threshold must be in (0, 1]"@)
    } else if !(c.er.max_evidence > 0 && c.er.max_occurrences > 0) {
        Some("er.max_evidence / er.max_occurrences must be > 0 (§8 Stage 4 caps)"@)
    } else if !(is_threshold(c.retrieval.entity_embedding_threshold)) {
        Some("retrieval.entity_embedding_threshold must be in (0, 1]"@)
    } else if !(c.retrieval.max_query_entities > 0) {
        Some("retrieval.max_query_entities must be > 0 (§8 Stage 5.2)"@)
    } else if !(0 < c.retrieval.fact_hops <= 2) {
        Some("retrieval.fact_hops must be in 1..=2 (§8 Stage 5.3 precision-first)"@)
    } else {
        None
    }
}

fn checked(ok: bool, message: &str) -> (res: Result<(), ConfigError>)
    ensures
        ok ==> res is Ok,
        !ok ==> (res matches Err(ConfigError::Validation(m)) && m@ == message@),
{
    if ok {
        Ok(())
    } else {
        Err(ConfigError::Validation(message.to_owned()))
    }
}

fn threshold(bits: u64) -> (res: bool)
    ensures
        res == is_threshold(bits),
{
    0 < bits && bits <= 0x3ff0_0000_0000_0000
}

fn build_fetcher(raw: &Option<RawFetcher>) -> (res: FetcherConfig)
    ensures
        res@ == fetcher_of(*raw),
{
    let res = match raw {
        Some(f) => FetcherConfig {
            robots: f.robots.unwrap_or(true),
            timeout: f.timeout_secs.unwrap_or(FETCH_TIMEOUT_SECS),
            user_agent: string_or(&f.user_agent, USER_AGENT),
            allow_private_hosts: f.allow_private_hosts.unwrap_or(false),
        },
        None => FetcherConfig {
            robots: true,
            timeout: FETCH_TIMEOUT_SECS,
            user_agent: USER_AGENT.to_owned(),
            allow_private_hosts: false,
        },
    };
    assert(res@ =~= fetcher_of(*raw));
    res
}

fn build_embedder(raw: &Option<RawEmbedder>) -> (res: EmbedderConfig)
    ensures
        res@ == embedder_of(*raw),
{
    let res = match raw {
        Some(e) => EmbedderConfig {
            model_id: string_or(&e.model_id, EMBEDDER_MODEL),
            dim: e.dim.unwrap_or(EMBEDDER_DIM),
        },
        None => EmbedderConfig { model_id: EMBEDDER_MODEL.to_owned(), dim: EMBEDDER_DIM },
    };
    assert(res@ =~= embedder_of(*raw));
    res
}

fn build_knowledge(raw: &Option<RawKnowledge>, model_id: &str) -> (res: KnowledgeConfig)
    ensures
        res@ == knowledge_of(*raw, model_id@),
{
    let res = match raw {
        Some(k) => KnowledgeConfig {
            read_model: string_or(&k.read_model, model_id),
            write_model: string_or(&k.write_model, model_id),
        },
        None => KnowledgeConfig {
            read_model: model_id.to_owned(),
            write_model: model_id.to_owned(),
        },
    };
    assert(res@ =~= knowledge_of(*raw, model_id@));
    res
}

fn build_llm(raw: &Option<RawLlm>, base_url: String, scheme: String) -> (res: LlmConfig)
    ensures
        res@ == llm_of(*raw, base_url@, scheme@),
{
    let ghost (href, kind) = (base_url@, scheme@);
    let res = match raw {
        Some(l) => LlmConfig {
            base_url,
            scheme,
            extraction_model: string_or(&l.extraction_model, LLM_EXTRACTION_MODEL),
            fallback_model: copy_opt(&l.fallback_model),
            cloud_llm_enabled: l.cloud_llm_enabled.unwrap_or(false),
        },
        None => LlmConfig {
            base_url,
            scheme,
            extraction_model: LLM_EXTRACTION_MODEL.to_owned(),
            fallback_model: None,
            cloud_llm_enabled: false,
        },
    };
    assert(res@ =~= llm_of(*raw, href, kind));
    res
}

fn build_er(raw: &Option<RawEr>) -> (res: ErConfig)
    ensures
        res@ == er_of(*raw),
{
    let res = match raw {
        Some(e) => ErConfig {
            name_sim_threshold: e.name_similarity_threshold.unwrap_or(ER_NAME_SIMILARITY),
            embedding_sim_threshold: e.embedding_similarity_threshold.unwrap_or(
                ER_EMBEDDING_SIMILARITY,
            ),
            max_evidence: e.max_evidence.unwrap_or(ER_MAX_EVIDENCE),
            max_occurrences: e.max_occurrences.unwrap_or(ER_MAX_OCCURRENCES),
        },
        None => ErConfig {
            name_sim_threshold: ER_NAME_SIMILARITY,
            embedding_sim_threshold: ER_EMBEDDING_SIMILARITY,
            max_evidence: ER_MAX_EVIDENCE,
            max_occurrences: ER_MAX_OCCURRENCES,
        },
    };
    assert(res@ =~= er_of(*raw));
    res
}

fn build_retrieval(raw: &Option<RawRetrieval>) -> (res: RetrievalConfig)
    ensures
        res@ == retrieval_of(*raw),
{
    let res = match raw {
        Some(r) => RetrievalConfig {
            entity_embedding_threshold: r.entity_embedding_threshold.unwrap_or(
                RETRIEVAL_ENTITY_THRESHOLD,
            ),
            max_query_entities: r.max_query_entities.unwrap_or(RETRIEVAL_MAX_QUERY_ENTITIES),
            fact_hops: r.fact_hops.unwrap_or(RETRIEVAL_FACT_HOPS),
        },
        None => RetrievalConfig {
            entity_embedding_threshold: RETRIEVAL_ENTITY_THRESHOLD,
            max_query_entities: RETRIEVAL_MAX_QUERY_ENTITIES,
            fact_hops: RETRIEVAL_FACT_HOPS,
        },
    };
    assert(res@ =~= retrieval_of(*raw));
    res
}

/// Why the endpoint of the language model is refused.
pub open spec fn base_url_message(given: Option<Seq<char>>) -> Seq<char> {
    match given {
        Some(s) => "llm.base_url "@ + debug_form(s) + " is not a valid URL"@,
        None => "built-in llm.base_url default is invalid"@,
    }
}

impl Config {
    /// Assembles the configuration of given settings and validates every knob. The retention must
    /// be countable in seconds.
    pub fn build(raw: &RawConfig) -> (res: Result<Config, ConfigError>)
        requires
            retention_days(*raw) * 24 * 3600 <= u64::MAX,
        ensures
            match url_parts(base_url_of(raw.llm)) {
                None => res matches Err(ConfigError::Validation(m)) && m@ == base_url_message(
                    given_base_url(raw.llm),
                ),
                Some(v) => match violation(built(*raw, v.href, v.scheme)) {
                    Some(message) => res matches Err(ConfigError::Validation(m)) && m@ == message,
                    None => res matches Ok(c) && c@ == built(*raw, v.href, v.scheme),
                },
            },
    {
        let data_dir = string_or(&raw.data_dir, "data");
        let db_path = match &raw.db_path {
            Some(p) => p.clone(),
            None => join_path(data_dir.as_str(), "ohara.db"),
        };
        let days: u64 = raw.stage_events_retention_days.unwrap_or(STAGE_EVENTS_RETENTION_DAYS);
        let target_languages = match &raw.target_languages {
            Some(v) => copy_texts(v),
            None => {
                let mut v: Vec<String> = Vec::new();
                v.push("en".to_owned());
                assert(texts(v@) =~= seq!["en"@]);
                v
            },
        };
        let graph_enabled = match &raw.pipeline {
            Some(p) => p.graph_enabled.unwrap_or(true),
            None => true,
        };
        let pipeline = PipelineConfig { graph_enabled };
        let fetcher = build_fetcher(&raw.fetcher);
        let embedder = build_embedder(&raw.embedder);
        let knowledge = build_knowledge(&raw.knowledge, embedder.model_id.as_str());
        let given = match &raw.llm {
            Some(l) => copy_opt(&l.base_url),
            None => None,
        };
        let address = string_or(&given, LLM_BASE_URL);
        let parts = match parse_url(address.as_str()) {
            Ok(parts) => parts,
            Err(_) => {
                let message = match given {
                    Some(s) => {
                        let mut m = "llm.base_url ".to_owned();
                        m.append(debug_string(s.as_str()).as_str());
                        m.append(" is not a valid URL");
                        m
                    },
                    None => "built-in llm.base_url default is invalid".to_owned(),
                };
                return Err(ConfigError::Validation(message));
            },
        };
        let ghost (href, scheme) = (parts.href@, parts.scheme@);
        let llm = build_llm(&raw.llm, parts.href, parts.scheme);
        let config = Config {
            db_path,
            data_dir,
            poll_interval: raw.poll_interval_ms.unwrap_or(POLL_INTERVAL_MS),
            lease_ttl: raw.lease_secs.unwrap_or(LEASE_SECS),
            backoff_base: raw.backoff_base_secs.unwrap_or(BACKOFF_BASE_SECS),
            stage_events_retention: days * 24 * 3600,
            rate_limit: raw.default_rate_limit_ms.unwrap_or(RATE_LIMIT_MS),
            target_languages,
            pipeline,
            fetcher,
            embedder,
            knowledge,
            llm,
            er: build_er(&raw.er),
            retrieval: build_retrieval(&raw.retrieval),
        };
        assert(config@ =~= built(*raw, href, scheme));
        match config.validate() {
            Ok(()) => Ok(config),
            Err(e) => Err(e),
        }
    }

    /// Fails on the first knob that violates its expectation, naming the knob.
    pub fn validate(&self) -> (res: Result<(), ConfigError>)
        ensures
            match violation(self@) {
                Some(message) => res matches Err(ConfigError::Validation(m)) && m@ == message,
                None => res is Ok,
            },
    {
        if let Err(e) = checked(self.poll_interval > 0, "poll_interval_ms must be > 0") {
            return Err(e);
        }
        if let Err(e) = checked(self.lease_ttl > 0, "lease_secs must be > 0") {
            return Err(e);
        }
        if let Err(e) = checked(self.backoff_base > 0, "backoff_base_secs must be > 0") {
            return Err(e);
        }
        if let Err(e) = checked(self.rate_limit > 0, "default_rate_limit_ms must be > 0") {
            return Err(e);
        }
        if let Err(e) = checked(self.embedder.dim > 0, "embedder.dim must be > 0") {
            return Err(e);
        }
        if let Err(e) = checked(!self.embedder.model_id.as_str().is_empty(), "embedder.model_id must be non-empty") {
            return Err(e);
        }
        if let Err(e) = checked(!self.knowledge.read_model.as_str().is_empty() && !self.knowledge.write_model.as_str().is_empty(), "knowledge.read_model / knowledge.write_model must be non-empty") {
            return Err(e);
        }
        if let Err(e) = checked(self.target_languages.len() > 0, "target_languages must not be empty (§8 Stage 2 gate)") {
            return Err(e);
        }
        if let Err(e) = checked(!self.llm.extraction_model.as_str().is_empty(), "llm.extraction_model must be non-empty") {
            return Err(e);
        }
        if let Err(e) = checked(self.fetcher.timeout > 0, "fetcher.timeout_secs must be > 0") {
            return Err(e);
        }
        if let Err(e) = checked(!self.fetcher.user_agent.as_str().is_empty(), "fetcher.user_agent must be non-empty (§8: honest User-Agent)") {
            return Err(e);
        }
        if !is_web_scheme(self.llm.scheme.as_str()) {
            let mut s = "llm.base_url must be http/https, got ".to_owned();
            s.append(debug_string(self.llm.scheme.as_str()).as_str());
            return Err(ConfigError::Validation(s));
        }
        if let Err(e) = checked(threshold(self.er.name_sim_threshold), "er.name_similarity_threshold must be in (0, 1]") {
            return Err(e);
        }
        if let Err(e) = checked(threshold(self.er.embedding_sim_threshold), "er.embedding_similarity_threshold must be in (0, 1]") {
            return Err(e);
        }
        if let Err(e) = checked(self.er.max_evidence > 0 && self.er.max_occurrences > 0, "er.max_evidence / er.max_occurrences must be > 0 (§8 Stage 4 caps)") {
            return Err(e);
        }
        if let Err(e) = checked(threshold(self.retrieval.entity_embedding_threshold), "retrieval.entity_embedding_threshold must be in (0, 1]") {
            return Err(e);
        }
        if let Err(e) = checked(self.retrieval.max_query_entities > 0, "retrieval.max_query_entities must be > 0 (§8 Stage 5.2)") {
            return Err(e);
        }
        if let Err(e) = checked(self.retrieval.fact_hops > 0 && self.retrieval.fact_hops <= 2, "retrieval.fact_hops must be in 1..=2 (§8 Stage 5.3 precision-first)") {
            return Err(e);
        }
        Ok(())
    }
}

/// The built-in profile is valid wherever its endpoint reads as a web address.
pub proof fn law_defaults_are_valid(raw: RawConfig, href: Seq<char>, scheme: Seq<char>)
    requires
        raw.poll_interval_ms is None,
        raw.lease_secs is None,
        raw.backoff_base_secs is None,
        raw.default_rate_limit_ms is None,
        raw.target_languages is None,
        raw.fetcher is None,
        raw.embedder is None,
        raw.knowledge is None,
        raw.llm is None,
        raw.er is None,
        raw.retrieval is None,
        scheme == "http"@ || scheme == "https"@,
    ensures
        violation(built(raw, href, scheme)) is None,
{
    reveal_strlit("bge-small-en-v1.5");
    reveal_strlit("phi4-mini:latest");
    reveal_strlit("ohara/0.1.0 (https://github.com/Chandra179/ohara)");
}

/// What validates keeps the loops of the pipeline going and its thresholds meaningful: every
/// interval is positive, every threshold lies above 0 and not above 1, and facts are followed one
/// or two hops.
pub proof fn law_valid_knobs(c: ConfigView)
    requires
        violation(c) is None,
    ensures
        c.poll_interval > 0 && c.lease_ttl > 0 && c.backoff_base > 0 && c.rate_limit > 0,
        is_threshold(c.er.name_sim_threshold) && is_threshold(c.er.embedding_sim_threshold),
        is_threshold(c.retrieval.entity_embedding_threshold),
        1 <= c.retrieval.fact_hops <= 2,
        c.embedder.dim > 0,
        c.target_languages.len() > 0,
{
}

/// A configuration keeps what is given and falls back to the documented defaults: each knob that is set has
/// its value, and one that is not the built-in one; the models that are read and written follow the
/// embedder.
pub proof fn law_settings_are_kept_or_default(raw: &RawConfig, res: Result<Config, ConfigError>)
    requires
        call_ensures(Config::build, (raw,), res),
        res is Ok,
        retention_days(*raw) * 24 * 3600 <= u64::MAX,
    ensures
        ({
            let c = res->Ok_0@;
            &&& raw.poll_interval_ms matches Some(n) ==> c.poll_interval == n
            &&& raw.poll_interval_ms is None ==> c.poll_interval == 2000
            &&& raw.lease_secs matches Some(n) ==> c.lease_ttl == n
            &&& raw.lease_secs is None ==> c.lease_ttl == 60
            &&& raw.backoff_base_secs matches Some(n) ==> c.backoff_base == n
            &&& raw.backoff_base_secs is None ==> c.backoff_base == 60
            &&& raw.stage_events_retention_days matches Some(n) ==> c.stage_events_retention == n * 86400
            &&& raw.stage_events_retention_days is None ==> c.stage_events_retention == 90 * 86400
            &&& raw.default_rate_limit_ms matches Some(n) ==> c.rate_limit == n
            &&& raw.default_rate_limit_ms is None ==> c.rate_limit == 2000
            &&& raw.data_dir matches Some(s) ==> c.data_dir == s@
            &&& raw.data_dir is None ==> c.data_dir == "data"@
            &&& raw.db_path matches Some(s) ==> c.db_path == s@
            &&& raw.target_languages matches Some(v) ==> c.target_languages == texts(v@)
            &&& raw.target_languages is None ==> c.target_languages == seq!["en"@]
            &&& raw.pipeline is None ==> c.pipeline.graph_enabled
            &&& raw.pipeline matches Some(p) ==> p.graph_enabled == Some(false)
                ==> !c.pipeline.graph_enabled
            &&& raw.fetcher is None ==> c.fetcher.robots && c.fetcher.timeout == 30
                && !c.fetcher.allow_private_hosts
            &&& raw.fetcher matches Some(f) ==> (f.robots matches Some(b) ==> c.fetcher.robots == b) && (
            f.timeout_secs matches Some(n) ==> c.fetcher.timeout == n) && (
            f.allow_private_hosts matches Some(b) ==> c.fetcher.allow_private_hosts == b) && (
            f.user_agent matches Some(s) ==> c.fetcher.user_agent == s@)
            &&& raw.embedder is None ==> c.embedder.dim == 384 && c.embedder.model_id
                == "bge-small-en-v1.5"@
            &&& raw.embedder matches Some(e) ==> (e.dim matches Some(n) ==> c.embedder.dim == n) && (
            e.model_id matches Some(s) ==> c.embedder.model_id == s@)
            &&& raw.knowledge is None ==> c.knowledge.read_model == c.embedder.model_id
                && c.knowledge.write_model == c.embedder.model_id
            &&& raw.knowledge matches Some(k) ==> (k.read_model matches Some(s)
                ==> c.knowledge.read_model == s@) && (k.write_model matches Some(s)
                ==> c.knowledge.write_model == s@) && (k.read_model is None ==> c.knowledge.read_model
                == c.embedder.model_id)
            &&& raw.llm is None ==> !c.llm.cloud_llm_enabled && c.llm.fallback_model is None
                && c.llm.extraction_model == "phi4-mini:latest"@
            &&& raw.er is None ==> c.er.max_evidence == 8 && c.er.max_occurrences == 8
            &&& raw.er matches Some(e) ==> (e.max_evidence matches Some(n) ==> c.er.max_evidence == n)
                && (e.max_occurrences matches Some(n) ==> c.er.max_occurrences == n) && (
            e.name_similarity_threshold matches Some(n) ==> c.er.name_sim_threshold == n) && (
            e.embedding_similarity_threshold matches Some(n) ==> c.er.embedding_sim_threshold == n)
            &&& raw.retrieval is None ==> c.retrieval.max_query_entities == 8 && c.retrieval.fact_hops
                == 2
            &&& raw.retrieval matches Some(r) ==> (r.fact_hops matches Some(n)
                ==> c.retrieval.fact_hops == n) && (r.max_query_entities matches Some(n)
                ==> c.retrieval.max_query_entities == n) && (
            r.entity_embedding_threshold matches Some(n) ==> c.retrieval.entity_embedding_threshold
                == n)
        }),
{
}

/// What cannot work is refused: an interval, a width or a bound of zero, an empty model, agent or list of
/// languages, a threshold of zero or above one, no hop or more than two, and an endpoint that is none of
/// the web. What is none of these is accepted.
pub proof fn law_unworkable_knobs_are_refused(config: &Config, res: Result<(), ConfigError>)
    requires
        call_ensures(Config::validate, (config,), res),
    ensures
        ({
            let c = config@;
            let workable = c.poll_interval > 0 && c.lease_ttl > 0 && c.backoff_base > 0 && c.rate_limit
                > 0 && c.embedder.dim > 0 && c.embedder.model_id.len() > 0
                && c.knowledge.read_model.len() > 0 && c.knowledge.write_model.len() > 0
                && c.target_languages.len() > 0 && c.llm.extraction_model.len() > 0
                && c.fetcher.timeout > 0 && c.fetcher.user_agent.len() > 0 && (c.llm.scheme == "http"@
                || c.llm.scheme == "https"@) && 0 < c.er.name_sim_threshold <= 0x3ff0_0000_0000_0000
                && 0 < c.er.embedding_sim_threshold <= 0x3ff0_0000_0000_0000 && c.er.max_evidence > 0
                && c.er.max_occurrences > 0 && 0 < c.retrieval.entity_embedding_threshold
                <= 0x3ff0_0000_0000_0000 && c.retrieval.max_query_entities > 0
                && 1 <= c.retrieval.fact_hops <= 2;
            res is Ok <==> workable
        }),
{
}

} // verus!
