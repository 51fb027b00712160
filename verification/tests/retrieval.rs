//! Tests of the retrieval subsystem: the vector codec, the chunker, the
//! store with its cascade, ingestion, and both search strategies.

use genie_core::chunker::chunk_text;
use genie_core::codec::{blob_to_embedding, embedding_to_blob};
use genie_core::embeddings::{estimate_tokens, model_info_for_name};
use genie_core::rag::{
    should_ingest_file, title_of_path, Chunk, IngestOptions, RagError, RagStore, SourceFile,
    SourceText,
};
use genie_core::repo::{chunk_files, get_language_for_extension, should_include_file, FileSnippet,
    RepoOptions};
use genie_core::search::{
    build_context, build_rag_prompt, embedded_only, has_any_embedding, rank_scored_chunks,
    simple_text_search, Retrieval,
};

fn plain_chunk(id: &str, doc: &str, col: &str, text: &str, embedding: Vec<u32>) -> Chunk {
    Chunk {
        id: id.to_string(),
        document_id: doc.to_string(),
        collection_id: col.to_string(),
        text: text.to_string(),
        embedding,
        order: 0,
    }
}

fn bits(v: &[f32]) -> Vec<u32> {
    v.iter().map(|x| x.to_bits()).collect()
}

fn cosine_millionths(a: &[f32], b: &[f32]) -> i64 {
    if a.len() != b.len() || a.is_empty() {
        return 0;
    }
    let dot: f32 = a.iter().zip(b.iter()).map(|(x, y)| x * y).sum();
    let norm_a: f32 = a.iter().map(|x| x * x).sum::<f32>().sqrt();
    let norm_b: f32 = b.iter().map(|x| x * x).sum::<f32>().sqrt();
    if norm_a == 0.0 || norm_b == 0.0 {
        0
    } else {
        ((dot / (norm_a * norm_b)) as f64 * 1_000_000.0) as i64
    }
}

#[test]
fn test_embedding_blob_roundtrip() {
    let embedding: Vec<f32> = vec![0.1, 0.2, 0.3, -0.4, 0.5];
    let blob = embedding_to_blob(&bits(&embedding));
    let recovered = blob_to_embedding(&blob);

    assert_eq!(embedding.len(), recovered.len());
    for (a, b) in embedding.iter().zip(recovered.iter()) {
        assert_eq!(a.to_bits(), *b);
    }
}

#[test]
fn test_blob_truncates_partial_word() {
    let blob = vec![1u8, 2, 3, 4, 5, 6];
    let recovered = blob_to_embedding(&blob);
    assert_eq!(recovered.len(), 1);
    assert_eq!(recovered[0], u32::from_le_bytes([1, 2, 3, 4]));
}

#[test]
fn test_chunk_text() {
    let text = "First paragraph.\n\nSecond paragraph.\n\nThird paragraph.";
    let chunks = chunk_text(text, 50);

    assert!(!chunks.is_empty());
    for chunk in &chunks {
        assert!(chunk.len() <= 100); // Allow some flexibility
    }
}

#[test]
fn test_chunk_text_exact_split() {
    let text = "First paragraph.\n\nSecond paragraph.\n\nThird paragraph.";
    let chunks = chunk_text(text, 50);
    assert_eq!(
        chunks,
        vec![
            "First paragraph.\n\nSecond paragraph.".to_string(),
            "Third paragraph.".to_string(),
        ]
    );
}

#[test]
fn test_chunk_text_splits_long_paragraph() {
    let long_word_para = vec!["word"; 300].join(" ");
    let chunks = chunk_text(&long_word_para, 100);
    assert!(chunks.len() > 1);
    for c in &chunks {
        assert!(!c.trim().is_empty());
    }
    let rebuilt: String = chunks.join("");
    let visible = |s: &str| s.chars().filter(|c| !c.is_whitespace()).collect::<String>();
    assert_eq!(visible(&rebuilt), visible(&long_word_para));
}

#[test]
fn test_collection_crud_and_duplicate_name() {
    let mut store = RagStore::new();
    let a = store.create_collection("alpha", Some("first")).unwrap();
    let b = store.create_collection("beta", None).unwrap();
    assert_ne!(a.id, b.id);

    let dup = store.create_collection("alpha", None);
    assert!(matches!(dup, Err(RagError::DuplicateName(_))));

    let by_name = store.get_collection("alpha").unwrap();
    assert_eq!(by_name.id, a.id);
    let by_id = store.get_collection(&b.id).unwrap();
    assert_eq!(by_id.name, "beta");

    let listed = store.list_collections();
    assert_eq!(listed.len(), 2);
    assert_eq!(listed[0].name, "beta"); // newest first

    assert!(matches!(
        store.get_collection("missing"),
        Err(RagError::CollectionNotFound(_))
    ));
}

#[test]
fn test_delete_collection_cascades() {
    let mut store = RagStore::new();
    let col = store.create_collection("docs", None).unwrap();
    let files = vec![SourceFile {
        path: "notes.txt".to_string(),
        content: SourceText::Text("Alpha paragraph.\n\nBeta paragraph.".to_string()),
    }];
    let stats = store
        .ingest(&col.id, &files, &IngestOptions::default())
        .unwrap();
    assert_eq!(stats.documents_ingested, 1);
    assert!(stats.chunks_created >= 1);

    store.delete_collection("docs").unwrap();
    assert!(matches!(
        store.get_collection("docs"),
        Err(RagError::CollectionNotFound(_))
    ));
    assert!(matches!(
        store.get_collection(&col.id),
        Err(RagError::CollectionNotFound(_))
    ));
    assert_eq!(store.documents.len(), 0);
    assert_eq!(store.chunks.len(), 0);

    assert!(matches!(
        store.delete_collection("docs"),
        Err(RagError::CollectionNotFound(_))
    ));
}

#[test]
fn test_ingest_two_paragraph_file() {
    let mut store = RagStore::new();
    let col = store.create_collection("papers", None).unwrap();
    let short = "a".repeat(40);
    let long = "b".repeat(1200);
    let text = format!("{}\n\n{}", short, long);
    let files = vec![SourceFile {
        path: "doc.txt".to_string(),
        content: SourceText::Text(text),
    }];
    let mut options = IngestOptions::default();
    options.chunk_size = 500;
    let stats = store.ingest(&col.id, &files, &options).unwrap();
    assert_eq!(stats.documents_ingested, 1);
    assert!(stats.chunks_created >= 2);
    assert!(stats.errors.is_empty());
    let col_now = store.get_collection("papers").unwrap();
    assert_eq!(col_now.document_count, 1);
    assert_eq!(col_now.chunk_count, stats.chunks_created);
    let first = &store.chunks[0];
    assert!(first.text.len() <= 500);
    assert_eq!(first.order, 0);
}

#[test]
fn test_ingest_reports_unreadable_file() {
    let mut store = RagStore::new();
    let col = store.create_collection("mixed", None).unwrap();
    let files = vec![
        SourceFile {
            path: "good.txt".to_string(),
            content: SourceText::Text("Readable content here.".to_string()),
        },
        SourceFile {
            path: "bad.bin".to_string(),
            content: SourceText::Unreadable("invalid utf-8".to_string()),
        },
    ];
    let stats = store
        .ingest(&col.id, &files, &IngestOptions::default())
        .unwrap();
    assert_eq!(stats.documents_ingested, 1);
    assert_eq!(stats.errors.len(), 1);
    assert!(stats.errors[0].contains("bad.bin"));
    assert!(stats.errors[0].contains("invalid utf-8"));
}

#[test]
fn test_ingest_missing_collection() {
    let mut store = RagStore::new();
    let files = vec![];
    assert!(matches!(
        store.ingest("nope", &files, &IngestOptions::default()),
        Err(RagError::CollectionNotFound(_))
    ));
}

#[test]
fn test_simple_text_search() {
    let chunks = vec![
        (
            plain_chunk("1", "doc1", "col1", "Rust is a systems programming language.", vec![]),
            "/path/to/rust.txt".to_string(),
        ),
        (
            plain_chunk("2", "doc2", "col1", "Bananas are yellow fruits.", vec![]),
            "/path/to/fruits.txt".to_string(),
        ),
    ];

    let results = simple_text_search(&chunks, "Rust programming", 5);
    assert!(!results.is_empty());
    assert!(results[0].chunk.text.contains("Rust"));
}

#[test]
fn test_lexical_scores_and_exclusion() {
    let chunks = vec![
        (
            plain_chunk("1", "d1", "c", "rust is great", vec![]),
            "a.txt".to_string(),
        ),
        (
            plain_chunk("2", "d2", "c", "bananas are yellow", vec![]),
            "b.txt".to_string(),
        ),
        (
            plain_chunk("3", "d3", "c", "rust programming is fun", vec![]),
            "c.txt".to_string(),
        ),
    ];
    let results = simple_text_search(&chunks, "Rust programming", 5);
    // the chunk matching both tokens comes first with a perfect score
    assert_eq!(results.len(), 2);
    assert_eq!(results[0].chunk.id, "3");
    assert_eq!(results[0].score, 1_000_000);
    // one of two tokens matched: half the scale
    assert_eq!(results[1].chunk.id, "1");
    assert_eq!(results[1].score, 500_000);
}

#[test]
fn test_embedding_search() {
    let chunks = vec![
        (
            plain_chunk("1", "doc1", "col1", "Rust programming", bits(&[1.0, 0.0, 0.0])),
            "/path/to/rust.txt".to_string(),
        ),
        (
            plain_chunk("2", "doc2", "col1", "Bananas", bits(&[0.0, 1.0, 0.0])),
            "/path/to/fruits.txt".to_string(),
        ),
    ];

    let query_emb = [1.0f32, 0.0, 0.0];
    assert!(has_any_embedding(&chunks));
    let candidates = embedded_only(&chunks);
    let scores: Vec<i64> = candidates
        .iter()
        .map(|(c, _)| {
            let stored: Vec<f32> = c.embedding.iter().map(|b| f32::from_bits(*b)).collect();
            cosine_millionths(&query_emb, &stored)
        })
        .collect();
    let results = rank_scored_chunks(&candidates, &scores, 5, false);

    assert!(!results.is_empty());
    assert!(results[0].chunk.text.contains("Rust"));
    assert_eq!(results[0].score, 1_000_000); // Perfect match
}

#[test]
fn test_query_empty_collection_answers_directly() {
    let mut store = RagStore::new();
    let col = store.create_collection("empty", None).unwrap();
    match store.begin_query(&col.id, 5).unwrap() {
        Retrieval::Done(resp) => {
            assert_eq!(resp.answer, "No documents found in this collection.");
            assert!(resp.sources.is_empty());
        }
        Retrieval::Candidates(_) => panic!("expected a finished answer"),
    }
}

#[test]
fn test_semantic_query_through_store() {
    let mut store = RagStore::new();
    let col = store.create_collection("vectors", None).unwrap();
    let chunks = vec!["Rust programming".to_string(), "Bananas".to_string()];
    let embeddings = Some(vec![bits(&[1.0, 0.0, 0.0]), bits(&[0.0, 1.0, 0.0])]);
    let (_doc, count) = store
        .record_document(&col.id, "facts.txt", &chunks, &embeddings)
        .unwrap();
    assert_eq!(count, 2);
    assert_eq!(store.chunks[0].order, 0);
    assert_eq!(store.chunks[1].order, 1);

    let cands = match store.begin_query("vectors", 5).unwrap() {
        Retrieval::Candidates(c) => c,
        Retrieval::Done(_) => panic!("expected candidates"),
    };
    assert!(has_any_embedding(&cands));
    let embedded = embedded_only(&cands);
    let query = [1.0f32, 0.0, 0.0]; // identical to the first chunk's vector
    let scores: Vec<i64> = embedded
        .iter()
        .map(|(c, _)| {
            let stored: Vec<f32> = c.embedding.iter().map(|b| f32::from_bits(*b)).collect();
            cosine_millionths(&query, &stored)
        })
        .collect();
    let ranked = rank_scored_chunks(&embedded, &scores, 5, false);
    assert_eq!(ranked[0].chunk.text, "Rust programming");
    assert_eq!(ranked[0].score, 1_000_000);
    assert_eq!(ranked[0].document_path, "facts.txt");
}

#[test]
fn test_record_document_missing_collection() {
    let mut store = RagStore::new();
    let chunks = vec!["text".to_string()];
    assert!(matches!(
        store.record_document("absent", "a.txt", &chunks, &None),
        Err(RagError::CollectionNotFound(_))
    ));
}

#[test]
fn test_query_zero_top_k_loads_nothing() {
    let mut store = RagStore::new();
    let col = store.create_collection("capped", None).unwrap();
    let files = vec![SourceFile {
        path: "a.txt".to_string(),
        content: SourceText::Text("Something.".to_string()),
    }];
    store.ingest(&col.id, &files, &IngestOptions::default()).unwrap();
    match store.begin_query("capped", 0).unwrap() {
        Retrieval::Done(resp) => assert!(resp.sources.is_empty()),
        Retrieval::Candidates(_) => panic!("a zero cap loads no candidates"),
    }
}

#[test]
fn test_query_candidates_carry_paths() {
    let mut store = RagStore::new();
    let col = store.create_collection("filled", None).unwrap();
    let files = vec![SourceFile {
        path: "src/lib.txt".to_string(),
        content: SourceText::Text("Alpha.\n\nBeta.".to_string()),
    }];
    store.ingest(&col.id, &files, &IngestOptions::default()).unwrap();
    match store.begin_query("filled", 5).unwrap() {
        Retrieval::Candidates(cands) => {
            assert!(!cands.is_empty());
            for (_, path) in &cands {
                assert_eq!(path, "src/lib.txt");
            }
        }
        Retrieval::Done(_) => panic!("expected candidates"),
    }
}

#[test]
fn test_context_and_prompt_shape() {
    let chunks = vec![(
        plain_chunk("1", "d", "c", "The sky is blue.", vec![]),
        "sky.txt".to_string(),
    )];
    let results = simple_text_search(&chunks, "sky", 5);
    let context = build_context(&results);
    assert!(context.contains("--- Source: sky.txt (score: 1.000) ---"));
    assert!(context.contains("The sky is blue."));
    let prompt = build_rag_prompt(&context, "What color is the sky?");
    assert!(prompt.contains("Context:"));
    assert!(prompt.contains("Question: What color is the sky?"));
    assert!(prompt.ends_with("Answer:"));
}

#[test]
fn test_should_ingest_file_extensions() {
    let options = IngestOptions::default();
    assert!(should_ingest_file("notes.txt", &options));
    assert!(should_ingest_file("src/main.rs", &options));
    assert!(should_ingest_file("paper.pdf", &options));
    assert!(!should_ingest_file("image.png", &options));

    let mut no_pdf = IngestOptions::default();
    no_pdf.include_pdfs = false;
    assert!(!should_ingest_file("paper.pdf", &no_pdf));

    let mut patterned = IngestOptions::default();
    patterned.pattern = Some("*.txt".to_string());
    assert!(should_ingest_file("notes.txt", &patterned));
    assert!(!should_ingest_file("main.rs", &patterned));
}

#[test]
fn test_hidden_components_are_excluded() {
    let options = IngestOptions::default();
    assert!(!should_ingest_file(".secrets/notes.txt", &options));
    assert!(!should_ingest_file("docs/.hidden.txt", &options));
    assert!(should_ingest_file("./notes.txt", &options));
    assert!(should_ingest_file("../notes.txt", &options));
}

#[test]
fn test_chunk_text_respects_budget() {
    let text = vec!["ab cd ef gh ij"; 30].join("

");
    let chunks = chunk_text(&text, 50);
    for c in &chunks {
        assert!(c.chars().count() <= 52 || !c.contains(' '));
    }
}

#[test]
fn test_chunk_files_respects_budget() {
    let snippet = |name: &str| FileSnippet {
        path: name.to_string(),
        language: "Rust".to_string(),
        content: "x".repeat(100),
        truncated: false,
        size: 100,
    };
    // each file weighs well over the four-character-per-token budget of 40
    let files = vec![snippet("a.rs"), snippet("b.rs"), snippet("c.rs")];
    let chunks = chunk_files(files, 10);
    assert_eq!(chunks.len(), 3);
    for c in &chunks {
        assert_eq!(c.files.len(), 1);
    }
}

#[test]
fn test_title_of_path_strips_extension() {
    assert_eq!(title_of_path("dir/report.txt"), Some("report".to_string()));
    assert_eq!(title_of_path("archive.tar.gz"), Some("archive.tar".to_string()));
    assert_eq!(title_of_path("README"), Some("README".to_string()));
    assert_eq!(title_of_path(""), None);
}

#[test]
fn test_get_language_for_extension() {
    assert_eq!(get_language_for_extension("rs"), Some("Rust".to_string()));
    assert_eq!(get_language_for_extension("py"), Some("Python".to_string()));
    assert_eq!(get_language_for_extension("unknown"), None);
}

#[test]
fn test_should_include_file() {
    let options = RepoOptions::default();

    assert!(should_include_file("main.rs", &options));
    assert!(should_include_file("app.py", &options));
    assert!(!should_include_file("image.png", &options));
}

#[test]
fn test_chunk_files() {
    let files = vec![
        FileSnippet {
            path: "file1.rs".to_string(),
            language: "Rust".to_string(),
            content: "fn main() {}".to_string(),
            truncated: false,
            size: 12,
        },
        FileSnippet {
            path: "file2.rs".to_string(),
            language: "Rust".to_string(),
            content: "fn test() {}".to_string(),
            truncated: false,
            size: 12,
        },
    ];

    let chunks = chunk_files(files, 1000);
    assert!(!chunks.is_empty());
    let total: usize = chunks.iter().map(|c| c.files.len()).sum();
    assert_eq!(total, 2);
    assert_eq!(chunks[0].id, 1);
}

#[test]
fn test_model_catalog() {
    let info = model_info_for_name("all-MiniLM-L6-v2");
    assert_eq!(info.dimensions, 384);
    assert_eq!(info.name, "all-MiniLM-L6-v2");
    let mapped = model_info_for_name("text-embedding-3-large");
    assert_eq!(mapped.dimensions, 768);
}

#[test]
fn test_estimate_tokens_counts_chars() {
    let texts = vec!["Hello world".to_string(), "Test".to_string()];
    let tokens = estimate_tokens(&texts);
    assert_eq!(tokens, 3); // 15 characters over 4
}
