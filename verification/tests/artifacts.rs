use ohara::artifacts::{disposal_of, holds_artifact, settle, Disposal, Snapshot, Worker};
use ohara::cleaning;
use ohara::cleaning::{clean_article, clean_page, extract, sanitize, Article, CleaningError};
use ohara::embedding::{embedding_values, EMBEDDING_DIMENSION};
use ohara::indexer;
use ohara::indexer::{
    check_vectors, chunk, chunk_id, collection_outcome, index_document, is_chunkable, point_id,
    upsert_outcome, CleanArtifact, IndexerError,
};
use ohara::markup::is_convertible;
use sha2::Digest;

#[test]
fn rejects_unknown_raw_artifact_versions() {
    assert!(matches!(
        cleaning::validate_version(cleaning::ARTIFACT_VERSION + 1),
        Err(CleaningError::Artifact(message)) if message.contains("schema version")
    ));
}

#[test]
fn chunks_are_stable_and_have_document_identity() {
    let clean = CleanArtifact {
        schema_version: indexer::ARTIFACT_VERSION,
        document_id: "doc".into(),
        source_url: "https://example.com".into(),
        title: "Title".into(),
        markdown: "A paragraph. ".repeat(500),
    };
    let chunks = chunk(&clean);
    assert!(chunks.len() > 1);
    assert!(chunks
        .iter()
        .enumerate()
        .all(|(index, item)| item.sequence == index && item.id.len() == 64));
}

#[test]
fn rejects_unknown_clean_artifact_versions() {
    assert!(matches!(
        indexer::validate_version(indexer::ARTIFACT_VERSION + 1),
        Err(IndexerError::Artifact(message)) if message.contains("schema version")
    ));
}

fn clean(markdown: &str) -> CleanArtifact {
    CleanArtifact {
        schema_version: indexer::ARTIFACT_VERSION,
        document_id: "doc".into(),
        source_url: "https://example.com".into(),
        title: "Title".into(),
        markdown: markdown.into(),
    }
}

#[test]
fn chunks_break_at_white_space_and_overlap() {
    let text = "word ".repeat(1000);
    let chunks = chunk(&clean(&text));
    assert_eq!(chunks[0].text.len(), 2399);
    assert!(chunks.iter().all(|c| c.text.len() <= 2400));
    assert!(chunks.iter().all(|c| c.text.split(' ').all(|w| w == "word" || "word".ends_with(w))));
    assert_eq!(chunks.last().map(|c| c.text.ends_with("word")), Some(true));
    assert_eq!(chunks[0].id, ohara::digest::sha256_hex("doc:0"));
    assert_eq!(chunk_id("doc", 7), ohara::digest::sha256_hex("doc:7"));
}

#[test]
fn texts_without_white_space_are_cut_at_the_limit() {
    let chunks = chunk(&clean(&"x".repeat(5000)));
    assert_eq!(chunks.iter().map(|c| c.text.len()).collect::<Vec<_>>(), vec![2400, 2400, 680]);
    assert!(chunk(&clean("   ")).is_empty());
}

#[test]
fn texts_that_cannot_be_cut_are_told_apart() {
    assert!(is_chunkable("plain text"));
    assert!(!is_chunkable(&format!("{}é{}", "x".repeat(2399), "x".repeat(10))));
    let stuck = format!("{} {}", "a".repeat(100), "b".repeat(5000));
    assert!(!is_chunkable(&stuck));
}

#[test]
fn indexing_publishes_the_chunks_of_a_document() {
    let indexed = index_document(&clean("Some text."), "now").unwrap();
    assert_eq!(indexed.document_id, "doc");
    assert_eq!(indexed.indexed_at, "now");
    assert_eq!(indexed.chunks.len(), 1);
    assert_eq!(indexed.chunks[0].text, "Some text.");
    assert_eq!(indexed.chunks[0].title, "Title");
    let mut wrong = clean("Some text.");
    wrong.schema_version = 9;
    assert!(matches!(
        index_document(&wrong, "now"),
        Err(IndexerError::Artifact(m))
            if m == "unsupported clean artifact schema version 9; expected 1"
    ));
}

#[test]
fn point_ids_group_the_first_bytes_of_chunk_ids() {
    assert_eq!(
        point_id("0123456789abcdef0123456789abcdef0123"),
        "01234567-89ab-cdef-0123-456789abcdef"
    );
}

#[test]
fn vector_store_answers_are_mapped() {
    assert_eq!(check_vectors(2, 2), Ok(()));
    assert_eq!(
        check_vectors(2, 1),
        Err(IndexerError::Qdrant("chunk/vector count mismatch".into()))
    );
    assert_eq!(collection_outcome(200, "200 OK"), Ok(()));
    assert_eq!(collection_outcome(409, "409 Conflict"), Ok(()));
    assert_eq!(
        collection_outcome(500, "500 Internal Server Error").map_err(|e| e.message()),
        Err("qdrant: collection creation returned 500 Internal Server Error".into())
    );
    assert_eq!(
        upsert_outcome(409, "409 Conflict").map_err(|e| e.message()),
        Err("qdrant: upsert returned 409 Conflict".into())
    );
    assert_eq!(IndexerError::Embedder("x".into()).message(), "embedder: x");
    assert_eq!(IndexerError::Storage("x".into()).message(), "storage: x");
}

#[test]
fn deterministic_embeddings_digest_text_and_place() {
    let values = embedding_values("hello");
    assert_eq!(values.len(), EMBEDDING_DIMENSION);
    for index in [0usize, 1, 255, 256, 383] {
        let mut digest = sha2::Sha256::new();
        digest.update("hello".as_bytes());
        digest.update((index as u64).to_le_bytes());
        let bytes = digest.finalize();
        assert_eq!(values[index], u16::from_le_bytes([bytes[0], bytes[1]]));
    }
    assert_ne!(values, embedding_values("world"));
}

#[test]
fn sanitizing_drops_data_and_blank_runs() {
    assert_eq!(
        sanitize("\n\n first \n\n\n\nsecond\n![x](DATA:image/png;base64,xyz)\n third\n\n"),
        "first\n\nsecond\nthird"
    );
    assert_eq!(sanitize(""), "");
    assert_eq!(sanitize("a\n\ndata:x\n\nb"), "a\n\n\nb");
    assert_eq!(sanitize(" da\nta: kept \n"), "da\nta: kept");
}

const PAGE: &str = "<html><head><title>Page title</title></head><body><article>\
    <p>The quick brown fox jumps over the lazy dog, and then it rests for a while in the shade.</p>\
    <p>Another paragraph with enough words, punctuation, and sentences, so that the article is found by the reader.</p>\
    </article></body></html>";

fn raw() -> cleaning::RawArtifact {
    cleaning::RawArtifact {
        schema_version: 1,
        document_id: "doc".into(),
        source_url: "https://example.com/a".into(),
        title: "Provider title".into(),
        raw_path: "raw/doc.html".into(),
    }
}

#[test]
fn pages_are_cleaned_to_markdown() {
    let artifact = clean_page(&raw(), PAGE, "now").unwrap();
    assert_eq!(artifact.title, "Page title");
    assert!(artifact.markdown.contains("quick brown fox"));
    assert!(!artifact.markdown.contains('<'));
    assert_eq!(artifact.language.as_deref(), Some("eng"));
    assert_eq!(artifact.document_id, "doc");
    assert_eq!(artifact.cleaned_at, "now");
}

#[test]
fn extraction_needs_a_readable_address() {
    let article = extract(PAGE, "https://example.com/a").unwrap();
    assert_eq!(article.title, "Page title");
    assert!(article.content.contains("Another paragraph"));
    assert!(matches!(
        extract(PAGE, "not a url"),
        Err(CleaningError::Artifact(m)) if m == "relative URL without a base"
    ));
}

#[test]
fn articles_with_lists_and_tables_are_converted() {
    let page = PAGE.replace(
        "</article>",
        "<h2>Steps <a href=\"/x?a=1&amp;b=2\">here</a></h2><!-- note --><blockquote><ol class='steps'>\
         <li><b>First</b> step, <a href=\"/one\">with a link</a><ol><li>inner</li></ol></li><li>Second step</ol></blockquote>\
         <table><tr><td><ul><li>cell</li></ul></td><td><em>other</em></td></tr></table>\
         <noscript><img src=\"x.png\"></noscript><svg><title>Icon</title><g><path d=\"M0\"></path></g></svg>\
         <dl><dt>Term</dt><dd><p>Meaning</p></dd></dl><p>Closing words, to end the article.</p></article>",
    );
    let article = extract(&page, "https://example.com/a").unwrap();
    assert!(article.content.contains("**First** step"), "{}", article.content);
    assert!(article.content.contains("Second step"));
    assert!(article.content.contains("Closing words"));
}

#[test]
fn articles_with_stray_items_in_styles_are_refused() {
    let page = PAGE.replace("</article>", "<b><li>a stray item, in a style</li></b></article>");
    assert!(matches!(
        extract(&page, "https://example.com/a"),
        Err(CleaningError::Artifact(m)) if m == "article holds list items that cannot be converted"
    ));
    let harmless = PAGE.replace("</article>", "<div><li>a stray item, in no style</li></div></article>");
    assert!(extract(&harmless, "https://example.com/a").unwrap().content.contains("a stray item"));
}

#[test]
fn list_items_need_a_list_or_nothing_that_remembers_its_place() {
    for html in [
        "",
        "a < b",
        "<b>no items</b",
        "<ul><li>one</li><li>two</li></ul>",
        "<p>text<b>bold<ul><li><i>x</i><ol><li>y</li></ol></li></ul></b></p>",
        "<LI>alone</LI><li>again</li>",
        "<!DOCTYPE html><html><head><title>a<b</title></head><body><ul><li>x</li></ul></body></html>",
        "<b><table><tbody><tr><td><li>x</li></td></tr></tbody></table></b>",
        "<ul><template>text</template><li><template></template>x</li></ul>",
        "<svg><title>A title</title><desc>words</desc><svg><fegaussianblur></fegaussianblur></svg></svg><ul><li>x</li></ul>",
        "<dialog><search><ul><li>x</li></ul></search></dialog>",
        "<ul><li><ruby>x<rp>(</rp><rt>y</rt><rtc><rt>z</rt></rtc></ruby></li></ul>",
        "<ul><li><select><option>a</option><optgroup label=\"g\"><option>b</option></optgroup></select></li></ul>",
        "<ul><li><nobr>x</nobr></li></ul>",
        "<tr><td><ul><li>x</li></ul></td><td><li>y</li></td></tr>",
        "<a href=\"?x=<li>\"><menu><li><img src=\"a\"><br></li></menu></a>",
    ] {
        assert!(is_convertible(html), "{html}");
    }
    for html in [
        "<p></p><b><li></li></b>",
        "<a href=\"x\"><div><li>x</li></div></a>",
        "<ul><table><tbody><tr><td><b><li>x</li></b></td></tr></tbody></table></ul>",
        "<ul><li><div><li>x</li></div></li></ul>",
        "<ul><li>x</ul>",
        "<div><ul></div><li>x</li></ul>",
        "<ul><template><b></b></template><li>x</li></ul>",
        "<p></p><p></p><p></p><svg><title><title><!--</title></title></svg><b>--></title></title></svg><li></li>",
        "<svg><title><g></g></title></svg><ul><li>x</li></ul>",
        "<dialog><ul><li><dialog></dialog></li></ul></dialog>",
        "<ruby><ruby></ruby></ruby><ul><li>x</li></ul>",
        "<rt>gloss</rt><ul><li>x</li></ul>",
        "<select><ul><li>x</li></ul></select>",
        "<select><option><b>x</b></option></select><ul><li>x</li></ul>",
        "<nobr><nobr>x</nobr></nobr><ul><li>x</li></ul>",
        "<b><td><li>x</li></td></b>",
        "<script></script><ul><li>x</li></ul>",
        "<ul><li class=x>y</li></ul>",
        "<!-- <ul> --!><li>x</li>",
        "<iframe><ul></iframe x><li>x</li></ul></iframe>",
        "<h1><h2></h2></h1><ul><li>x</li></ul>",
        "<table><tr><ul><li>x</li></ul></tr></table>",
        "<svg><li>x</li></svg>",
    ] {
        assert!(!is_convertible(html), "{html}");
    }
}

#[test]
fn ordinary_text_can_be_cut_into_chunks() {
    assert!(is_chunkable(&"word ".repeat(3_000)));
    assert!(is_chunkable(&format!("{} ", "x".repeat(2_000)).repeat(20)));
}

#[test]
fn short_documents_are_refused_and_blank_titles_replaced() {
    let short = Article { title: "T".into(), content: "only four words here".into() };
    assert_eq!(
        clean_article(&raw(), &short, "now").map(|a| a.markdown).map_err(|e| e.message()),
        Err("invalid artifact: document has 4 words; minimum is 20".into())
    );
    let untitled = Article { title: "  ".into(), content: "word ".repeat(20) };
    assert_eq!(clean_article(&raw(), &untitled, "now").unwrap().title, "Provider title");
    let digits = Article { title: "T".into(), content: "12 ".repeat(20) };
    assert_eq!(clean_article(&raw(), &digits, "now").unwrap().language, None);
    assert_eq!(CleaningError::Storage("x".into()).message(), "storage: x");
}

#[test]
fn processed_artifacts_are_settled() {
    let (update, disposal) = settle(Worker::Indexer, &Ok(3));
    assert_eq!((update.status, update.chunk_count, update.error), ("INDEXED", 3, None));
    assert_eq!(disposal, Disposal::Remove);
    let (update, _) = settle(Worker::Cleaning, &Ok(0));
    assert_eq!(update.status, "CLEANED");
    let (update, disposal) = settle(Worker::Cleaning, &Err("broken".into()));
    assert_eq!(
        (update.status, update.chunk_count, update.error),
        ("FAILED", 0, Some("broken".to_string()))
    );
    assert_eq!(disposal, Disposal::DeadLetter);
    assert_eq!(disposal_of(&Ok(0)), Disposal::Remove);
    assert_eq!(disposal_of(&Err("broken".into())), Disposal::DeadLetter);
    assert!(holds_artifact(true, Some("json")));
    assert!(!holds_artifact(false, Some("json")));
    assert!(!holds_artifact(true, Some("tmp-1")));
    assert!(!holds_artifact(true, None));
}

#[test]
fn counters_saturate_and_resume() {
    let mut s = Snapshot::new("graph", "t0");
    s.record(1, 1, 0, 30, "t1");
    s.record(1, 0, 1, 20, "t2");
    assert_eq!((s.input_count, s.output_count, s.failure_count), (2, 1, 1));
    assert_eq!((s.total_latency_ms, s.last_latency_ms, s.max_latency_ms), (50, 20, 30));
    assert_eq!(s.updated_at, "t2");
    s.record(u64::MAX, 0, 0, u64::MAX, "t3");
    assert_eq!((s.input_count, s.total_latency_ms), (u64::MAX, u64::MAX));
    let kept = Snapshot::resume(Some(s), "graph", "t4");
    assert_eq!(kept.input_count, u64::MAX);
    let fresh = Snapshot::resume(Some(kept), "indexer", "t5");
    assert_eq!((fresh.process.as_str(), fresh.input_count), ("indexer", 0));
    assert_eq!(Snapshot::resume(None, "x", "t6").updated_at, "t6");
}
