use embed_index::document::Document;
use embed_index::document::MetaField;
use embed_index::document::MetaValue;
use embed_index::document::PayloadValue;
use embed_index::document::payload_get;
use embed_index::embedding::Embedding;
use embed_index::errors::CollectionState;
use embed_index::errors::DistanceMetric;
use embed_index::errors::PipelineError;
use embed_index::index::VectorIndex;
use embed_index::orchestrator::RunConfig;
use embed_index::orchestrator::RunAction;
use embed_index::orchestrator::RunEvent;
use embed_index::orchestrator::RunState;
use embed_index::orchestrator::ingest_and_query;
use embed_index::orchestrator::step;
use embed_index::record::build_record;
use embed_index::record::build_record_with_id;
use embed_index::record::build_records;
use embed_index::record::check_alignment;

fn doc(text: &str) -> Document {
    Document { text: text.to_owned(), metadata: Vec::new() }
}

fn vector(dimension: usize, seed: u32) -> Embedding {
    let mut bits: Vec<u32> = Vec::new();
    let mut i: usize = 0;
    while i < dimension {
        bits.push(seed.wrapping_add(i as u32));
        i += 1;
    }
    Embedding::new(bits)
}

fn config(name: &str, dimension: usize, top_k: usize) -> RunConfig {
    RunConfig {
        collection_name: name.to_owned(),
        dimension,
        metric: DistanceMetric::Cosine,
        top_k,
    }
}

fn document_text(m: &embed_index::index::SearchMatch) -> String {
    let key = "document".to_owned();
    match payload_get(&m.payload, &key) {
        Some(PayloadValue::Text(t)) => t.clone(),
        _ => panic!("payload has no document text"),
    }
}

#[test]
fn alignment_guard_accepts_matching_counts() {
    let docs = vec![doc("a"), doc("b")];
    let embs = vec![vector(4, 1), vector(4, 100)];
    assert!(check_alignment(&docs, &embs).is_ok());
}

#[test]
fn alignment_guard_reports_both_counts() {
    let docs = vec![doc("a"), doc("b"), doc("c")];
    let embs = vec![vector(4, 1), vector(4, 100)];
    match check_alignment(&docs, &embs) {
        Err(PipelineError::Alignment { documents, embeddings }) => {
            assert_eq!(documents, 3);
            assert_eq!(embeddings, 2);
        },
        _ => panic!("expected an alignment error"),
    }
}

#[test]
fn alignment_failure_writes_nothing() {
    let mut index = VectorIndex::new();
    let cfg = config("docs", 4, 1);
    let docs = vec![doc("a"), doc("b")];
    let embs = vec![vector(4, 1)];
    let r = ingest_and_query(&mut index, &cfg, &docs, &embs);
    assert!(matches!(r, Err(PipelineError::Alignment { documents: 2, embeddings: 1 })));
    assert!(!index.collection_exists(&"docs".to_owned()));
}

#[test]
fn ensure_collection_is_idempotent() {
    let mut index = VectorIndex::new();
    let name = "docs".to_owned();
    let first = index.ensure_collection(&name, 384, DistanceMetric::Cosine);
    assert!(matches!(first, Ok(CollectionState::Created)));
    let second = index.ensure_collection(&name, 384, DistanceMetric::Cosine);
    assert!(matches!(second, Ok(CollectionState::AlreadyExists)));
    assert!(index.collection_exists(&name));
}

#[test]
fn repeated_creation_keeps_stored_points() {
    let mut index = VectorIndex::new();
    let name = "docs".to_owned();
    index.ensure_collection(&name, 4, DistanceMetric::Cosine).unwrap();
    let e = vector(4, 7);
    let record = build_record(&doc("kept"), &e).unwrap();
    index.upsert_points(&name, vec![record]).unwrap();
    let second = index.ensure_collection(&name, 4, DistanceMetric::Cosine);
    assert!(matches!(second, Ok(CollectionState::AlreadyExists)));
    let matches = index.query_points(&name, &e, 10, true).unwrap();
    assert_eq!(matches.len(), 1);
    assert_eq!(document_text(&matches[0]), "kept");
}

#[test]
fn payload_lookup_misses_absent_key() {
    let record = build_record(&doc("a"), &vector(4, 1)).unwrap();
    assert!(payload_get(&record.payload, &"missing".to_owned()).is_none());
}

#[test]
fn ensure_collection_rejects_conflicting_schema() {
    let mut index = VectorIndex::new();
    let name = "docs".to_owned();
    assert!(index.ensure_collection(&name, 384, DistanceMetric::Cosine).is_ok());
    match index.ensure_collection(&name, 512, DistanceMetric::Cosine) {
        Err(PipelineError::SchemaMismatch { expected, actual }) => {
            assert_eq!(expected.dimension, 512);
            assert_eq!(actual.dimension, 384);
        },
        _ => panic!("expected a schema mismatch"),
    }
    match index.ensure_collection(&name, 384, DistanceMetric::Euclidean) {
        Err(PipelineError::SchemaMismatch { .. }) => {},
        _ => panic!("expected a schema mismatch"),
    }
}

#[test]
fn upsert_same_record_twice_stores_it_once() {
    let mut index = VectorIndex::new();
    let name = "docs".to_owned();
    index.ensure_collection(&name, 4, DistanceMetric::Cosine).unwrap();
    let d = doc("Some text");
    let e = vector(4, 7);
    let first = build_record_with_id(&d, &e, "stable-id".to_owned()).unwrap();
    let second = build_record_with_id(&d, &e, "stable-id".to_owned()).unwrap();
    index.upsert_points(&name, vec![first]).unwrap();
    index.upsert_points(&name, vec![second]).unwrap();
    let matches = index.query_points(&name, &e, 10, true).unwrap();
    assert_eq!(matches.len(), 1);
    assert_eq!(matches[0].id, "stable-id");
    assert_eq!(document_text(&matches[0]), "Some text");
}

#[test]
fn upsert_replaces_payload_of_latest_write() {
    let mut index = VectorIndex::new();
    let name = "docs".to_owned();
    index.ensure_collection(&name, 4, DistanceMetric::Cosine).unwrap();
    let e = vector(4, 7);
    let first = build_record_with_id(&doc("old text"), &e, "stable-id".to_owned()).unwrap();
    let second = build_record_with_id(&doc("new text"), &e, "stable-id".to_owned()).unwrap();
    index.upsert_points(&name, vec![first]).unwrap();
    index.upsert_points(&name, vec![second]).unwrap();
    let matches = index.query_points(&name, &e, 10, true).unwrap();
    assert_eq!(matches.len(), 1);
    assert_eq!(document_text(&matches[0]), "new text");
}

#[test]
fn round_trip_payload_returns_exact_text() {
    let d = doc("Some text");
    let e = vector(4, 9);
    let record = build_record(&d, &e).unwrap();
    let key = "document".to_owned();
    match payload_get(&record.payload, &key) {
        Some(PayloadValue::Text(t)) => assert_eq!(t, "Some text"),
        _ => panic!("payload lost the document text"),
    }
}

#[test]
fn metadata_round_trips_through_payload() {
    let d = Document {
        text: "annotated".to_owned(),
        metadata: vec![
            MetaField { name: "lang".to_owned(), value: MetaValue::Text("en".to_owned()) },
            MetaField { name: "year".to_owned(), value: MetaValue::Int(2024) },
            MetaField { name: "draft".to_owned(), value: MetaValue::Flag(false) },
        ],
    };
    let record = build_record(&d, &vector(4, 3)).unwrap();
    assert_eq!(record.payload.len(), 4);
    match payload_get(&record.payload, &"year".to_owned()) {
        Some(PayloadValue::Int(y)) => assert_eq!(*y, 2024),
        _ => panic!("metadata field lost"),
    }
}

#[test]
fn unencodable_metadata_names_the_field() {
    let d = Document {
        text: "annotated".to_owned(),
        metadata: vec![
            MetaField { name: "lang".to_owned(), value: MetaValue::Text("en".to_owned()) },
            MetaField {
                name: "tags".to_owned(),
                value: MetaValue::TextList(vec!["a".to_owned(), "b".to_owned()]),
            },
        ],
    };
    match build_record(&d, &vector(4, 3)) {
        Err(PipelineError::PayloadEncoding { field }) => assert_eq!(field, "tags"),
        _ => panic!("expected a payload encoding error"),
    }
}

#[test]
fn fresh_identities_have_uuid_shape_and_differ() {
    let d = doc("a");
    let e = vector(4, 1);
    let one = build_record(&d, &e).unwrap();
    let two = build_record(&d, &e).unwrap();
    assert_eq!(one.id.chars().count(), 36);
    assert_eq!(two.id.chars().count(), 36);
    assert_ne!(one.id, two.id);
}

#[test]
fn self_retrieval_finds_each_document() {
    let mut index = VectorIndex::new();
    let cfg = config("docs", 8, 1);
    let docs = vec![doc("first"), doc("second"), doc("third")];
    let embs = vec![vector(8, 10), vector(8, 2000), vector(8, 300000)];
    ingest_and_query(&mut index, &cfg, &docs, &embs).unwrap();
    let name = "docs".to_owned();
    let texts = ["first", "second", "third"];
    for (i, text) in texts.iter().enumerate() {
        let matches = index.query_points(&name, &embs[i], 1, true).unwrap();
        assert_eq!(matches.len(), 1);
        assert_eq!(document_text(&matches[0]), *text);
    }
}

#[test]
fn schema_fixation_rejects_wrong_dimension_vector() {
    let mut index = VectorIndex::new();
    let name = "docs".to_owned();
    index.ensure_collection(&name, 384, DistanceMetric::Cosine).unwrap();
    let record = build_record(&doc("long"), &vector(512, 1)).unwrap();
    match index.upsert_points(&name, vec![record]) {
        Err(PipelineError::SchemaMismatch { expected, actual }) => {
            assert_eq!(expected.dimension, 384);
            assert_eq!(actual.dimension, 512);
        },
        _ => panic!("expected a schema mismatch"),
    }
    let matches = index.query_points(&name, &vector(384, 1), 5, true).unwrap();
    assert!(matches.is_empty());
}

#[test]
fn upsert_into_missing_collection_is_a_write_error() {
    let mut index = VectorIndex::new();
    let record = build_record(&doc("a"), &vector(4, 1)).unwrap();
    let r = index.upsert_points(&"nowhere".to_owned(), vec![record]);
    assert!(matches!(r, Err(PipelineError::IndexWrite)));
}

#[test]
fn query_of_missing_collection_is_a_query_error() {
    let index = VectorIndex::new();
    let r = index.query_points(&"nowhere".to_owned(), &vector(4, 1), 1, true);
    assert!(matches!(r, Err(PipelineError::IndexQuery)));
}

#[test]
fn query_without_payload_returns_bare_matches() {
    let mut index = VectorIndex::new();
    let name = "docs".to_owned();
    index.ensure_collection(&name, 4, DistanceMetric::Cosine).unwrap();
    let record = build_record(&doc("a"), &vector(4, 1)).unwrap();
    index.upsert_points(&name, vec![record]).unwrap();
    let matches = index.query_points(&name, &vector(4, 1), 1, false).unwrap();
    assert_eq!(matches.len(), 1);
    assert!(matches[0].payload.is_empty());
}

#[test]
fn query_for_more_results_than_points_returns_all() {
    let mut index = VectorIndex::new();
    let name = "docs".to_owned();
    index.ensure_collection(&name, 4, DistanceMetric::Cosine).unwrap();
    let records = build_records(
        &vec![doc("a"), doc("b")],
        &vec![vector(4, 1), vector(4, 77)],
    )
    .unwrap();
    index.upsert_points(&name, records).unwrap();
    let matches = index.query_points(&name, &vector(4, 1), 10, true).unwrap();
    assert_eq!(matches.len(), 2);
}

#[test]
fn concrete_scenario_retrieves_some_text() {
    let mut index = VectorIndex::new();
    let cfg = config("rig-collection", 384, 1);
    let docs = vec![doc("Some text"), doc("Mofo "), doc("wwW")];
    let embs = vec![vector(384, 5), vector(384, 4096), vector(384, 1 << 20)];
    let matches = ingest_and_query(&mut index, &cfg, &docs, &embs).unwrap();
    assert_eq!(matches.len(), 1);
    assert_eq!(document_text(&matches[0]), "Some text");
}

#[test]
fn state_machine_runs_one_full_cycle() {
    let mut index = VectorIndex::new();
    let cfg = config("rig-collection", 4, 1);
    let docs = vec![doc("Some text"), doc("Mofo "), doc("wwW")];
    let embs = vec![vector(4, 5), vector(4, 4096), vector(4, 1 << 20)];
    let query_vector = embs[0].clone();

    let (state, action) = step(RunState::Idle { documents: docs }, RunEvent::StartRun);
    assert!(matches!(action, RunAction::ComputeEmbeddings));
    let (state, action) = step(state, RunEvent::EmbeddingsComputed { embeddings: embs });
    assert!(matches!(action, RunAction::Proceed));
    let (state, action) = step(state, RunEvent::Advance);
    assert!(matches!(action, RunAction::Proceed));
    let (state, action) = step(state, RunEvent::Advance);
    assert!(matches!(action, RunAction::PerformEnsureCollection));

    let outcome = index
        .ensure_collection(&cfg.collection_name, cfg.dimension, cfg.metric)
        .unwrap();
    let (state, action) = step(state, RunEvent::CollectionReady { state: outcome });
    assert!(matches!(action, RunAction::PerformUpsert));

    let records = match &state {
        RunState::Writing { records, .. } => {
            let mut copy = Vec::new();
            for r in records {
                copy.push(r.clone());
            }
            copy
        },
        _ => panic!("expected the writing state"),
    };
    index.upsert_points(&cfg.collection_name, records).unwrap();
    let (state, action) = step(state, RunEvent::WriteAcknowledged);
    assert!(matches!(action, RunAction::PerformQuery));

    let results = index
        .query_points(&cfg.collection_name, &query_vector, cfg.top_k, true)
        .unwrap();
    let (state, action) = step(state, RunEvent::QueryReturned { results });
    assert!(matches!(action, RunAction::Halt));
    match state {
        RunState::Done { results } => {
            assert_eq!(results.len(), 1);
            assert_eq!(document_text(&results[0]), "Some text");
        },
        _ => panic!("expected the run to finish"),
    }
}

#[test]
fn engine_failure_fails_the_run() {
    let docs = vec![doc("a")];
    let (state, _) = step(RunState::Idle { documents: docs }, RunEvent::StartRun);
    let (state, action) = step(state, RunEvent::EngineFailed);
    assert!(matches!(action, RunAction::Halt));
    assert!(matches!(state, RunState::Failed { error: PipelineError::Engine }));
}

#[test]
fn misaligned_engine_answer_fails_the_run() {
    let docs = vec![doc("a"), doc("b")];
    let embs = vec![vector(4, 1)];
    let (state, _) = step(RunState::Idle { documents: docs }, RunEvent::StartRun);
    let (state, _) = step(state, RunEvent::EmbeddingsComputed { embeddings: embs });
    let (state, action) = step(state, RunEvent::Advance);
    assert!(matches!(action, RunAction::Halt));
    assert!(matches!(
        state,
        RunState::Failed { error: PipelineError::Alignment { documents: 2, embeddings: 1 } }
    ));
}
