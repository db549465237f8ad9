use ohara::retrieval::signals::{
    availability_of, gather, graph_signals, parse_graph_paths, rank_full_text, select, text_match,
    unique_terms, Candidate, GraphPath, IndexedChunk,
};
use ohara::ranking::Scored;
use ohara::reply::{Body, Reply};
use ohara::retrieval::{
    availability, chunks_of, documents, documents_by_status, endpoint, generation_outcome, health,
    needs_answer, process_ready, question_of, queue_item, raw_usage, render_prompt, respond,
    scrape_outcome, search_outcome, top_k, CatalogDocument, DocumentQuery, Inbox, Probes,
    QdrantPoint, QueryChunk, RetrievalError, RetrievalHttpError,
};

/// The full-text score of a chunk, from its counts.
fn full_text_score(question: &str, chunk: &IndexedChunk) -> f32 {
    let m = text_match(question, chunk);
    if m.terms == 0 {
        return 0.0;
    }
    let denominator = f32::from(m.terms);
    ((f32::from(m.body) / denominator) * 0.8 + (f32::from(m.title) / denominator) * 0.2).min(1.0)
}

#[test]
fn full_text_score_prefers_body_and_title_matches() {
    let chunk = IndexedChunk {
        chunk_id: "chunk-1".into(),
        title: "Rust retrieval".into(),
        text: "Rust retrieval combines local evidence.".into(),
    };
    assert!((full_text_score("Rust retrieval", &chunk) - 1.0).abs() < f32::EPSILON);
    assert!(full_text_score("Python", &chunk).abs() < f32::EPSILON);
}

#[test]
fn graph_signal_requires_a_query_entity_match() {
    let paths = vec![GraphPath {
        chunk_id: "chunk-1".into(),
        entity_name: "Rust Foundation".into(),
        length: 1,
    }];
    assert!(graph_signals("Tell me about Rust", &paths).iter().any(|s| s.chunk_id == "chunk-1"));
    assert!(graph_signals("Tell me about Python", &paths).is_empty());
}

fn reply(body: Body) -> Reply {
    Reply { body, shown: String::new() }
}

fn bulk(text: &str) -> Reply {
    reply(Body::Bulk(text.as_bytes().to_vec()))
}

#[test]
fn parses_graph_query_rows() {
    let response = reply(Body::Array(vec![
        reply(Body::Array(vec![bulk("c.id"), bulk("e.name"), bulk("length(p)")])),
        reply(Body::Array(vec![reply(Body::Array(vec![
            bulk("chunk-1"),
            bulk("Rust"),
            reply(Body::Int(1)),
        ]))])),
        reply(Body::Simple("Cached execution: 0".into())),
    ]));
    let paths = parse_graph_paths(&response);
    assert_eq!(paths.len(), 1);
    assert_eq!(paths[0].chunk_id, "chunk-1");
    assert_eq!(paths[0].entity_name, "Rust");
    assert_eq!(paths[0].length, 1);
}

#[test]
fn odd_graph_rows_are_skipped_or_defaulted() {
    let rows = reply(Body::Array(vec![
        reply(Body::Array(vec![bulk("only one column")])),
        reply(Body::Array(vec![bulk("c1"), reply(Body::Verbatim("E".into()))])),
        reply(Body::Array(vec![bulk("c2"), reply(Body::Nil), reply(Body::Int(1))])),
        reply(Body::Array(vec![bulk("c3"), reply(Body::Int(-4)), bulk("no number")])),
        reply(Body::Array(vec![bulk("c4"), bulk("E"), bulk("7")])),
        reply(Body::Array(vec![reply(Body::Bulk(vec![0xff])), bulk("E")])),
    ]));
    let paths: Vec<(String, String, usize)> = parse_graph_paths(&rows)
        .into_iter()
        .map(|p| (p.chunk_id, p.entity_name, p.length))
        .collect();
    assert_eq!(
        paths,
        vec![
            ("c1".to_string(), "E".to_string(), 1),
            ("c3".to_string(), "-4".to_string(), 1),
            ("c4".to_string(), "E".to_string(), 7),
        ]
    );
    assert!(parse_graph_paths(&reply(Body::Int(1))).is_empty());
    assert!(parse_graph_paths(&reply(Body::Array(vec![]))).is_empty());
}

#[test]
fn terms_are_lowercase_runs_of_more_than_one_character() {
    assert_eq!(unique_terms("Rust, a RUST-y ÉTÉ 2024!"), vec!["2024", "rust", "été"]);
    assert!(unique_terms("? a b c !").is_empty());
}

#[test]
fn graph_signals_count_terms_and_lengths() {
    let paths = vec![
        GraphPath { chunk_id: "c".into(), entity_name: "Rust".into(), length: 0 },
        GraphPath { chunk_id: "d".into(), entity_name: "rust graph".into(), length: 70_000 },
    ];
    let signals = graph_signals("rust graph store", &paths);
    assert_eq!(signals.len(), 2);
    assert_eq!((signals[0].terms, signals[0].matched, signals[0].length), (3, 1, 1));
    assert_eq!((signals[1].terms, signals[1].matched, signals[1].length), (3, 2, u16::MAX));
}

fn scored(id: &str, score: f32) -> Scored {
    Scored { id: id.into(), bits: score.to_bits() }
}

#[test]
fn full_text_matches_are_ranked_and_bounded() {
    let ranked = rank_full_text(
        vec![scored("a", 0.2), scored("b", 0.9), scored("c", 0.0), scored("d", 0.9), scored("e", -1.0)],
        3,
    );
    let ids: Vec<&str> = ranked.iter().map(|s| s.id.as_str()).collect();
    assert_eq!(ids, vec!["b", "d", "a"]);
}

fn point(id: Option<&str>, text: Option<&str>, score: f32) -> QdrantPoint {
    QdrantPoint {
        score_bits: score.to_bits(),
        chunk_id: id.map(str::to_string),
        text: text.map(str::to_string),
    }
}

fn indexed(id: &str, text: &str) -> IndexedChunk {
    IndexedChunk { chunk_id: id.into(), title: String::new(), text: text.into() }
}

fn by_id<'a>(list: &'a [Candidate], id: &str) -> Option<&'a Candidate> {
    list.iter().find(|c| c.chunk_id == id)
}

#[test]
fn candidates_merge_every_signal() {
    let points = vec![
        point(Some("a"), Some("first"), 0.5),
        point(Some("a"), Some("second"), 0.75),
        point(Some("b"), None, 0.9),
    ];
    let index = vec![indexed("c", "old"), indexed("c", "new"), indexed("a", "from index")];
    let full_text = vec![scored("c", 0.4), scored("a", 0.3), scored("missing", 1.0)];
    let graph = vec![scored("a", 0.1), scored("unknown", 1.0), scored("c", 0.2)];
    let list = gather(&points, &index, &full_text, &graph);
    assert_eq!(list.len(), 2);
    let a = by_id(&list, "a").unwrap();
    assert_eq!(a.text, "first");
    assert_eq!(
        (a.vector_bits, a.full_text_bits, a.graph_path_bits),
        (0.75f32.to_bits(), 0.3f32.to_bits(), 0.1f32.to_bits())
    );
    let c = by_id(&list, "c").unwrap();
    assert_eq!(c.text, "new");
    assert_eq!(
        (c.vector_bits, c.full_text_bits, c.graph_path_bits),
        (0, 0.4f32.to_bits(), 0.2f32.to_bits())
    );
    let fused: Vec<u32> = list
        .iter()
        .map(|c| if c.chunk_id == "a" { 0.25f32.to_bits() } else { 0.5f32.to_bits() })
        .collect();
    let chosen = select(&list, &fused, 1);
    assert_eq!(chosen.len(), 1);
    assert_eq!((chosen[0].chunk_id.as_str(), chosen[0].text.as_str()), ("c", "new"));
    assert_eq!(chosen[0].score_bits, 0.5f32.to_bits());
    let all = select(&list, &fused, 5);
    assert_eq!(all[1].chunk_id, "a");
    let seen = availability_of(&index, false);
    assert!(seen.qdrant && seen.full_text && !seen.graph_path);
}

fn probes(ready: bool) -> Probes {
    Probes {
        artifact_store: ready,
        qdrant: ready,
        falkordb: ready,
        ollama: ready,
        embedding_model: ready,
        scraper: ready,
        cleaning: ready,
        indexer: ready,
        graph: ready,
    }
}

#[test]
fn health_reports_status_and_diagnostics() {
    let fine = health(probes(true));
    assert_eq!(fine.status, "healthy");
    assert!(fine.diagnostics.is_empty());
    let down = health(probes(false));
    assert_eq!(down.status, "offline");
    let parts: Vec<&str> = down.diagnostics.iter().map(|d| d.component).collect();
    assert_eq!(
        parts,
        vec![
            "artifactStore",
            "qdrant",
            "falkordb",
            "embeddingModel",
            "ollama",
            "scraper",
            "cleaning",
            "indexer",
            "graph"
        ]
    );
    let mut partial = probes(true);
    partial.indexer = false;
    let report = health(partial);
    assert_eq!(report.status, "degraded");
    assert_eq!(report.diagnostics.len(), 1);
    assert_eq!(report.diagnostics[0].message, "process heartbeat is missing or stale");
    assert_eq!(report.diagnostics[0].action, "Start or restart this process.");
    assert_eq!((availability(true), availability(false)), ("available", "unavailable"));
    assert!(process_ready(Some(14_999)));
    assert!(!process_ready(Some(15_000)));
    assert!(!process_ready(None));
}

fn entry(id: &str, url: &str, title: Option<&str>, status: &str) -> CatalogDocument {
    CatalogDocument {
        id: id.into(),
        source_url: url.into(),
        title: title.map(str::to_string),
        status: status.into(),
        chunk_count: 1,
        created_at: "0".into(),
        last_processed_at: None,
        error: Some("e".into()),
    }
}

fn asked(cursor: Option<usize>, limit: Option<usize>, search: Option<&str>, status: Option<&str>) -> DocumentQuery {
    DocumentQuery {
        cursor,
        limit,
        search: search.map(str::to_string),
        status: status.map(str::to_string),
    }
}

fn ids(page: &[CatalogDocument]) -> Vec<&str> {
    page.iter().map(|d| d.id.as_str()).collect()
}

#[test]
fn catalog_pages_filter_order_and_continue() {
    let catalog = vec![
        entry("c", "https://x.com/Rust", None, "INDEXED"),
        entry("a", "https://x.com/one", Some("About RUST"), "CLEANED"),
        entry("b", "https://x.com/two", Some("Other"), "INDEXED"),
    ];
    let all = documents(&catalog, &asked(None, None, None, None));
    assert_eq!(ids(&all.items), vec!["a", "b", "c"]);
    assert_eq!(all.next_cursor, None);
    let first = documents(&catalog, &asked(None, Some(2), None, None));
    assert_eq!((ids(&first.items), first.next_cursor), (vec!["a", "b"], Some(2)));
    let second = documents(&catalog, &asked(Some(2), Some(2), None, None));
    assert_eq!((ids(&second.items), second.next_cursor), (vec!["c"], None));
    let tiny = documents(&catalog, &asked(None, Some(0), None, None));
    assert_eq!((ids(&tiny.items), tiny.next_cursor), (vec!["a"], Some(1)));
    let rust = documents(&catalog, &asked(None, None, Some("rUsT"), None));
    assert_eq!(ids(&rust.items), vec!["a", "c"]);
    let status = documents(&catalog, &asked(None, None, Some(""), Some("indexed")));
    assert_eq!(ids(&status.items), vec!["b", "c"]);
    let beyond = documents(&catalog, &asked(Some(usize::MAX), Some(5), None, None));
    assert!(beyond.items.is_empty());
    assert_eq!(beyond.next_cursor, None);
    assert_eq!(
        documents_by_status(&catalog),
        vec![("CLEANED".to_string(), 1), ("INDEXED".to_string(), 2)]
    );
}

#[test]
fn queue_items_show_what_the_catalog_knows() {
    let catalog = vec![entry("a", "https://x.com/one", Some("T"), "CLEANED")];
    let known = queue_item(Inbox::Indexer, "a", &catalog);
    assert_eq!((known.stage, known.document_status.as_str()), ("CLEAN", "CLEANED"));
    assert_eq!((known.source_url.as_str(), known.title.as_deref()), ("https://x.com/one", Some("T")));
    assert_eq!((known.error.as_deref(), known.job_status), (Some("e"), "PENDING"));
    let unknown = queue_item(Inbox::Cleaning, "z", &catalog);
    assert_eq!((unknown.stage, unknown.document_status.as_str()), ("SCRAPE", "NEW"));
    assert_eq!((unknown.source_url.as_str(), unknown.title, unknown.error), ("", None, None));
    assert_eq!(queue_item(Inbox::Graph, "z", &catalog).stage, "EXTRACT");
}

#[test]
fn raw_pages_are_counted_without_overflow() {
    let files = vec![
        (Some("html".to_string()), 10),
        (Some("json".to_string()), 99),
        (None, 99),
        (Some("html".to_string()), u64::MAX),
    ];
    assert_eq!(raw_usage(&files), (2, u64::MAX));
}

#[test]
fn questions_and_limits_are_checked() {
    assert_eq!(question_of("  why?  "), Ok("why?".to_string()));
    assert_eq!(
        question_of(" \n").map_err(|e| (e.status(), e.message())),
        Err((400, "bad request: query must not be empty".to_string()))
    );
    assert_eq!((top_k(None), top_k(Some(0)), top_k(Some(7)), top_k(Some(99))), (5, 1, 7, 20));
    assert_eq!(endpoint("http://h:1//", "/api"), "http://h:1/api");
    assert_eq!(endpoint("http://h", "/x"), "http://h/x");
}

fn found() -> Vec<QueryChunk> {
    chunks_of(&vec![
        point(Some("c1"), Some("one"), 0.5),
        point(None, Some("lost"), 0.5),
        point(Some("c2"), Some("two"), 0.25),
        point(Some("c3"), None, 0.25),
    ])
}

#[test]
fn prompts_hold_the_question_and_the_evidence() {
    let chunks = found();
    assert_eq!(chunks.len(), 2);
    assert!(needs_answer(&chunks));
    assert!(!needs_answer(&Vec::new()));
    assert_eq!(
        render_prompt("why?", &chunks),
        "Answer the question using only the evidence below. If the evidence does not support an answer, say that it is not known. Do not invent facts.\n\nQuestion: why?\n\nEvidence:\n[c1]\none\n\n[c2]\ntwo\n\nAnswer concisely:"
    );
}

#[test]
fn answers_are_grounded_only_with_text() {
    let good = respond(found(), Some(Ok(Some("because".into()))));
    assert_eq!(good.answer.as_deref(), Some("because"));
    assert_eq!((good.availability, good.grounding), ("available", "grounded"));
    assert_eq!(good.citations, vec!["c1", "c2"]);
    for reply in [None, Some(Ok(None)), Some(Ok(Some("  ".to_string())))] {
        let res = respond(found(), reply);
        assert_eq!((res.answer, res.availability, res.grounding), (None, "available", "ungrounded"));
        assert!(res.citations.is_empty());
    }
    let lost = respond(found(), Some(Err("down".into())));
    assert_eq!((lost.answer, lost.availability, lost.grounding), (None, "unavailable", "ungrounded"));
    assert_eq!(lost.chunks.len(), 2);
}

#[test]
fn failures_behind_the_service_are_mapped() {
    assert_eq!(search_outcome(200, "200 OK"), Ok(()));
    assert_eq!(
        search_outcome(500, "500 X").map_err(|e| (e.status(), e.message())),
        Err((503, "service unavailable: qdrant returned 500 X".into()))
    );
    assert_eq!(
        scrape_outcome(401, "401 Unauthorized").map_err(|e| (e.status(), e.message())),
        Err((502, "bad gateway: scraper returned 401 Unauthorized".into()))
    );
    let error = generation_outcome(500, "500 X").unwrap_err();
    assert_eq!(error, RetrievalError::Provider("ollama returned 500 X".into()));
    assert_eq!(
        RetrievalHttpError::from_error(&error).message(),
        "bad gateway: provider client: ollama returned 500 X"
    );
    assert_eq!(RetrievalHttpError::NotFound.status(), 404);
    assert_eq!(RetrievalHttpError::NotFound.message(), "not found");
    assert_eq!(RetrievalHttpError::Internal("x".into()).status(), 500);
    assert_eq!(RetrievalHttpError::Storage("x".into()).message(), "storage: x");
    assert_eq!(RetrievalError::Configuration("x".into()).message(), "configuration: x");
    assert_eq!(RetrievalError::Listener("x".into()).message(), "listener: x");
    assert_eq!(RetrievalError::Storage("x".into()).message(), "storage: x");
}
