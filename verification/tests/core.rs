use wordstore::WordStoreError;
use wordstore::embedding::{
    ColumnKind, EmbeddingSpace, MeaningEmbeddingFunction, NgramEmbeddingFunction, check_components,
    ngram_embed_text, width_of, COMPONENT_BOUND, MEANING_WIDTH, NGRAM_WIDTH,
};
use wordstore::index::VectorIndex;
use wordstore::embedding::EmbeddingVector;
use wordstore::registry::{EmbeddingRegistration, EmbeddingRegistry};
use wordstore::schema::{expected_schema, check_compatible, open_or_create_schema, bindings_resolve};
use wordstore::text::{text_matches, str_eq, fold_str};

fn meaning_vec(first: i64) -> Vec<i64> {
    let mut v = vec![0i64; 768];
    v[0] = first;
    v
}

#[test]
fn text_matching_is_case_insensitive_substring() {
    assert!(text_matches("Ameliorate", "amelio"));
    assert!(text_matches("ameliorate", "MELIOR"));
    assert!(text_matches("ameliorate", ""));
    assert!(!text_matches("ameliorate", "xyz"));
    assert!(!text_matches("cat", "cats"));
}

#[test]
fn str_eq_compares_characters() {
    assert!(str_eq("word", "word"));
    assert!(!str_eq("word", "Word"));
    assert!(!str_eq("word", "words"));
}

#[test]
fn fold_str_lowercases_ascii_only() {
    let folded = fold_str("AbZ9");
    assert_eq!(folded, vec!['a', 'b', 'z', '9']);
}

#[test]
fn widths_are_768_and_150() {
    assert_eq!(width_of(EmbeddingSpace::Meaning), 768);
    assert_eq!(width_of(EmbeddingSpace::Ngram), 150);
    assert_eq!(MEANING_WIDTH, 768);
    assert_eq!(NGRAM_WIDTH, 150);
}

#[test]
fn ngram_embedding_has_declared_width() {
    let v = ngram_embed_text("ameliorate");
    assert!(matches!(v.space, EmbeddingSpace::Ngram));
    assert_eq!(v.components.len(), 150);
    let total: i64 = v.components.iter().sum();
    // "ameliorate" has 10 characters, so 8 trigrams are counted.
    assert_eq!(total, 8);
}

#[test]
fn ngram_embedding_is_deterministic_and_case_folded() {
    let a = ngram_embed_text("Ameliorate");
    let b = ngram_embed_text("ameliorate");
    assert_eq!(a.components, b.components);
    let c = ngram_embed_text("different");
    assert_ne!(a.components, c.components);
}

#[test]
fn ngram_batch_is_one_vector_per_text_in_order() {
    let f = NgramEmbeddingFunction::new();
    let texts = vec!["one".to_string(), "two".to_string(), "three".to_string()];
    let out = f.compute_source_embeddings(&texts);
    assert_eq!(out.len(), 3);
    for (i, v) in out.iter().enumerate() {
        assert_eq!(v.components.len(), 150);
        assert_eq!(v.components, ngram_embed_text(&texts[i]).components);
    }
    let queried = f.compute_query_embeddings(&texts);
    assert_eq!(queried.len(), 3);
    assert_eq!(queried[0].components, out[0].components);
}

#[test]
fn meaning_batch_validates_count_and_width() {
    let f = MeaningEmbeddingFunction::new("test-model");
    let texts = vec!["alpha".to_string(), "beta".to_string()];
    let good = vec![meaning_vec(1), meaning_vec(2)];
    let out = f.compute_source_embeddings(&texts, &good).unwrap();
    assert_eq!(out.len(), 2);
    assert_eq!(out[0].components[0], 1);
    assert_eq!(out[1].components[0], 2);

    // One row short: rejected whole, never truncated or padded.
    let short = vec![meaning_vec(1)];
    assert!(matches!(
        f.compute_source_embeddings(&texts, &short),
        Err(WordStoreError::ComputeError)
    ));

    // Wrong width: rejected.
    let narrow = vec![vec![1i64; 767], meaning_vec(2)];
    assert!(matches!(
        f.compute_source_embeddings(&texts, &narrow),
        Err(WordStoreError::ComputeError)
    ));

    // Out-of-range component: rejected.
    let huge = vec![vec![COMPONENT_BOUND + 1; 768], meaning_vec(2)];
    assert!(matches!(
        f.compute_query_embeddings(&texts, &huge),
        Err(WordStoreError::ComputeError)
    ));
}

#[test]
fn embedding_function_declared_types() {
    let m = MeaningEmbeddingFunction::new("test-model");
    assert_eq!(m.name(), "meaning");
    assert_eq!(m.source_type(), ColumnKind::Utf8);
    assert_eq!(m.dest_type(), ColumnKind::FixedSizeList(768));
    let n = NgramEmbeddingFunction::new();
    assert_eq!(n.name(), "ngram");
    assert_eq!(n.source_type(), ColumnKind::Utf8);
    assert_eq!(n.dest_type(), ColumnKind::FixedSizeList(150));
}

fn standard_registry() -> EmbeddingRegistry {
    let mut reg = EmbeddingRegistry::new();
    reg.register(EmbeddingRegistration {
        name: "meaning".to_string(),
        space: EmbeddingSpace::Meaning,
        source_column: "word".to_string(),
        dest_column: "meaning_embed".to_string(),
    })
    .unwrap();
    reg.register(EmbeddingRegistration {
        name: "ngram".to_string(),
        space: EmbeddingSpace::Ngram,
        source_column: "word".to_string(),
        dest_column: "ngram_vector".to_string(),
    })
    .unwrap();
    reg
}

#[test]
fn registry_rejects_duplicate_names_and_answers_lookups() {
    let mut reg = standard_registry();
    let dup = reg.register(EmbeddingRegistration {
        name: "meaning".to_string(),
        space: EmbeddingSpace::Meaning,
        source_column: "word".to_string(),
        dest_column: "other".to_string(),
    });
    assert_eq!(dup, Err(WordStoreError::DuplicateName));
    let found = reg.lookup("ngram").unwrap();
    assert_eq!(found.dest_column, "ngram_vector");
    assert!(reg.lookup("unknown").is_none());
}

#[test]
fn schema_open_or_create() {
    // No existing table: the expected schema is created.
    let created = open_or_create_schema(None).unwrap();
    assert_eq!(created.columns.len(), 3);
    assert_eq!(created.columns[0].name, "word");
    assert_eq!(created.columns[1].kind, ColumnKind::FixedSizeList(768));
    assert_eq!(created.columns[1].embedding.as_deref(), Some("meaning"));
    assert_eq!(created.columns[2].kind, ColumnKind::FixedSizeList(150));
    assert_eq!(created.columns[2].embedding.as_deref(), Some("ngram"));

    // A matching existing table is opened.
    let existing = expected_schema();
    assert!(check_compatible(&existing, &expected_schema()));
    assert!(open_or_create_schema(Some(existing)).is_ok());

    // A table with a wrong vector width is a fatal schema error.
    let mut bad = expected_schema();
    bad.columns[1].kind = ColumnKind::FixedSizeList(512);
    assert!(matches!(
        open_or_create_schema(Some(bad)),
        Err(WordStoreError::SchemaError)
    ));
}

#[test]
fn schema_bindings_resolve_in_the_registry() {
    let schema = expected_schema();
    let full = standard_registry();
    assert!(bindings_resolve(&schema, &full));

    // A registry missing the ngram binding cannot serve this schema.
    let mut partial = EmbeddingRegistry::new();
    partial
        .register(EmbeddingRegistration {
            name: "meaning".to_string(),
            space: EmbeddingSpace::Meaning,
            source_column: "word".to_string(),
            dest_column: "meaning_embed".to_string(),
        })
        .unwrap();
    assert!(!bindings_resolve(&schema, &partial));
}

#[test]
fn nearest_on_empty_index_is_empty() {
    let index = VectorIndex::new();
    let query = EmbeddingVector {
        space: EmbeddingSpace::Meaning,
        components: meaning_vec(5),
    };
    let hits = index.nearest(&query, 10);
    assert!(hits.is_empty());
}

#[test]
fn nearest_returns_at_most_k_sorted_by_distance() {
    let mut index = VectorIndex::new();
    index.append(1, &"one".to_string(), &meaning_vec(10)).unwrap();
    index.append(2, &"two".to_string(), &meaning_vec(100)).unwrap();
    index.append(3, &"three".to_string(), &meaning_vec(12)).unwrap();

    let query = EmbeddingVector {
        space: EmbeddingSpace::Meaning,
        components: meaning_vec(11),
    };
    let top2 = index.nearest(&query, 2);
    assert_eq!(top2.len(), 2);
    assert!(top2[0].distance <= top2[1].distance);
    assert_eq!(top2[0].row.word_id, 1);
    assert_eq!(top2[0].distance, 1);
    assert_eq!(top2[1].row.word_id, 3);
    assert_eq!(top2[1].distance, 1);

    // Fewer rows than k: every row comes back, still sorted.
    let all = index.nearest(&query, 10);
    assert_eq!(all.len(), 3);
    assert!(all[0].distance <= all[1].distance && all[1].distance <= all[2].distance);
    assert_eq!(all[2].row.word_id, 2);
}

#[test]
fn nearest_with_k_zero_is_empty() {
    let mut index = VectorIndex::new();
    index.append(1, &"one".to_string(), &meaning_vec(10)).unwrap();
    let query = EmbeddingVector {
        space: EmbeddingSpace::Meaning,
        components: meaning_vec(11),
    };
    assert!(index.nearest(&query, 0).is_empty());
}

#[test]
fn append_rejects_malformed_meaning_vector() {
    let mut index = VectorIndex::new();
    let err = index.append(1, &"one".to_string(), &vec![1i64; 10]);
    assert_eq!(err, Err(WordStoreError::ComputeError));
    // All-or-nothing: no partial row was left behind.
    assert_eq!(index.len(), 0);
}

#[test]
fn check_components_enforces_width_and_range() {
    assert!(check_components(EmbeddingSpace::Meaning, &meaning_vec(3)));
    assert!(!check_components(EmbeddingSpace::Meaning, &vec![0i64; 150]));
    assert!(!check_components(
        EmbeddingSpace::Ngram,
        &vec![COMPONENT_BOUND + 1; 150]
    ));
    assert!(check_components(EmbeddingSpace::Ngram, &vec![0i64; 150]));
}
