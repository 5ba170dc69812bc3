use wordstore::WordStoreError;
use wordstore::catalog::{NewWord, WordCatalog};
use wordstore::search::{SearchMode, WordStore};

fn meaning_vec(first: i64) -> Vec<i64> {
    let mut v = vec![0i64; 768];
    v[0] = first;
    v
}

fn new_word(text: &str, class: &str, definition: &str) -> NewWord {
    NewWord {
        word: text.to_string(),
        class: class.to_string(),
        definition: definition.to_string(),
        example: String::new(),
    }
}

#[test]
fn created_word_is_found_by_exact_search() {
    let mut store = WordStore::new();
    let out = store
        .create_word(new_word("ameliorate", "verb", "to make better"), "t0", Some(&meaning_vec(7)))
        .unwrap();
    let found = store.search_words(&"ameliorate".to_string(), SearchMode::Exact, None, 10);
    assert_eq!(found.len(), 1);
    assert_eq!(found[0].id, out.id);
    assert_eq!(found[0].word, "ameliorate");

    // Substring and case-insensitive matches find it too.
    let by_fragment = store.search_words(&"MELIor".to_string(), SearchMode::Exact, None, 10);
    assert_eq!(by_fragment.len(), 1);
    assert_eq!(by_fragment[0].id, out.id);
}

#[test]
fn catalog_assigns_increasing_ids_and_keeps_insertion_order() {
    let mut cat = WordCatalog::new();
    let a = cat.create(new_word("alpha", "noun", "first"), "t0").unwrap();
    let b = cat.create(new_word("beta", "noun", "second"), "t1").unwrap();
    assert_eq!(a, 1);
    assert_eq!(b, 2);
    let all = cat.get_all();
    assert_eq!(all.len(), 2);
    assert_eq!(all[0].word, "alpha");
    assert_eq!(all[1].word, "beta");
    assert_eq!(all[0].created_at, "t0");
    assert_eq!(all[0].updated_at, "t0");
}

#[test]
fn empty_word_text_is_a_constraint_violation() {
    let mut cat = WordCatalog::new();
    let r = cat.create(new_word("", "noun", "nothing"), "t0");
    assert!(matches!(r, Err(WordStoreError::ConstraintViolation)));
    assert!(cat.get_all().is_empty());
}

#[test]
fn empty_query_returns_all_rows_in_insertion_order() {
    let mut cat = WordCatalog::new();
    cat.create(new_word("zebra", "noun", "animal"), "t0").unwrap();
    cat.create(new_word("apple", "noun", "fruit"), "t1").unwrap();
    let all = cat.query_all(&String::new());
    assert_eq!(all.len(), 2);
    assert_eq!(all[0].word, "zebra");
    assert_eq!(all[1].word, "apple");
}

#[test]
fn create_word_without_meaning_response_is_partial_success() {
    let mut store = WordStore::new();
    let out = store
        .create_word(new_word("pending", "noun", "awaiting index"), "t0", None)
        .unwrap();
    // The word is saved and exact-searchable, the index write is pending.
    assert_eq!(out.index_error, Some(WordStoreError::ConsistencyError));
    let found = store.search_words(&"pending".to_string(), SearchMode::Exact, None, 10);
    assert_eq!(found.len(), 1);

    // A malformed response is the same partial success.
    let out2 = store
        .create_word(new_word("narrow", "noun", "wrong width"), "t1", Some(&vec![1i64; 3]))
        .unwrap();
    assert_eq!(out2.index_error, Some(WordStoreError::ConsistencyError));

    // A well-formed response indexes the word.
    let out3 = store
        .create_word(new_word("whole", "noun", "indexed"), "t2", Some(&meaning_vec(4)))
        .unwrap();
    assert_eq!(out3.index_error, None);
}

#[test]
fn semantic_search_resolves_nearest_words() {
    let mut store = WordStore::new();
    let a = store
        .create_word(new_word("ameliorate", "verb", "to make better"), "t0", Some(&meaning_vec(10)))
        .unwrap();
    let b = store
        .create_word(new_word("zyzzyva", "noun", "a weevil"), "t1", Some(&meaning_vec(1000)))
        .unwrap();

    // "improve" embeds near "ameliorate" in this meaning space.
    let improve = meaning_vec(12);
    let top = store.search_words(&"improve".to_string(), SearchMode::Semantic, Some(improve), 1);
    assert_eq!(top.len(), 1);
    assert_eq!(top[0].id, a.id);
    assert_ne!(top[0].id, b.id);
}

#[test]
fn semantic_search_degrades_to_exact_without_embedding() {
    let mut store = WordStore::new();
    store
        .create_word(new_word("ameliorate", "verb", "to make better"), "t0", Some(&meaning_vec(10)))
        .unwrap();
    // No query embedding: fall back to the exact results, not an error.
    let r = store.search_words(&"amelio".to_string(), SearchMode::Semantic, None, 5);
    assert_eq!(r.len(), 1);
    assert_eq!(r[0].word, "ameliorate");
    // Malformed query embedding: the same fallback.
    let r2 = store.search_words(&"amelio".to_string(), SearchMode::Fused, Some(vec![1i64; 2]), 5);
    assert_eq!(r2.len(), 1);
}

#[test]
fn fused_search_deduplicates_by_word_id() {
    let mut store = WordStore::new();
    let out = store
        .create_word(new_word("ameliorate", "verb", "to make better"), "t0", Some(&meaning_vec(10)))
        .unwrap();
    // The word's own text matches both the substring and the semantic
    // signal; it must come back exactly once.
    let r = store.search_words(
        &"ameliorate".to_string(),
        SearchMode::Fused,
        Some(meaning_vec(10)),
        10,
    );
    assert_eq!(r.len(), 1);
    assert_eq!(r[0].id, out.id);
}

#[test]
fn fused_search_ranks_exact_before_semantic_only() {
    let mut store = WordStore::new();
    let exact_hit = store
        .create_word(new_word("bright", "adjective", "shining"), "t0", Some(&meaning_vec(500)))
        .unwrap();
    let semantic_hit = store
        .create_word(new_word("luminous", "adjective", "glowing"), "t1", Some(&meaning_vec(10)))
        .unwrap();
    // The query text matches "bright" exactly; the query embedding is
    // nearest to "luminous".
    let r = store.search_words(&"bright".to_string(), SearchMode::Fused, Some(meaning_vec(11)), 10);
    assert_eq!(r.len(), 2);
    assert_eq!(r[0].id, exact_hit.id);
    assert_eq!(r[1].id, semantic_hit.id);
}

#[test]
fn delete_of_referenced_word_fails_and_leaves_both_rows() {
    let mut store = WordStore::new();
    let out = store
        .create_word(new_word("anchor", "noun", "holds a ship"), "t0", Some(&meaning_vec(3)))
        .unwrap();
    store.create_challenge(out.id, "t1").unwrap();

    let r = store.delete_word(out.id);
    assert!(matches!(r, Err(WordStoreError::ReferentialIntegrityError)));

    // The word row is intact.
    let found = store.search_words(&"anchor".to_string(), SearchMode::Exact, None, 10);
    assert_eq!(found.len(), 1);
    // The vector row is intact: the word still resolves semantically.
    let top = store.search_words(&String::new(), SearchMode::Semantic, Some(meaning_vec(3)), 1);
    assert_eq!(top.len(), 1);
    assert_eq!(top[0].id, out.id);
}

#[test]
fn delete_of_unreferenced_word_removes_it() {
    let mut store = WordStore::new();
    let out = store
        .create_word(new_word("ephemeral", "adjective", "short-lived"), "t0", Some(&meaning_vec(2)))
        .unwrap();
    let r = store.delete_word(out.id).unwrap();
    assert_eq!(r, 1);
    let found = store.search_words(&"ephemeral".to_string(), SearchMode::Exact, None, 10);
    assert!(found.is_empty());
    // Deleting an absent id deletes nothing, without an error.
    assert_eq!(store.delete_word(out.id).unwrap(), 0);
}

#[test]
fn delete_unblocks_after_challenge_removed() {
    let mut store = WordStore::new();
    let out = store
        .create_word(new_word("anchor", "noun", "holds a ship"), "t0", Some(&meaning_vec(3)))
        .unwrap();
    let ch = store.create_challenge(out.id, "t1").unwrap();
    assert!(store.delete_word(out.id).is_err());
    assert_eq!(store.delete_challenge(ch), 1);
    assert_eq!(store.delete_word(out.id).unwrap(), 1);
}

#[test]
fn challenges_join_their_words() {
    let mut store = WordStore::new();
    let a = store
        .create_word(new_word("anchor", "noun", "holds a ship"), "t0", Some(&meaning_vec(3)))
        .unwrap();
    let b = store
        .create_word(new_word("beacon", "noun", "a guiding light"), "t1", Some(&meaning_vec(4)))
        .unwrap();
    let ch_a = store.create_challenge(a.id, "t2").unwrap();
    let ch_b = store.create_challenge(b.id, "t3").unwrap();

    let all = store.query_all_challenges();
    assert_eq!(all.len(), 2);
    assert_eq!(all[0].id, ch_a);
    assert_eq!(all[0].word, "anchor");
    assert_eq!(all[0].definition, "holds a ship");
    assert_eq!(all[1].id, ch_b);
    assert_eq!(all[1].word, "beacon");

    let one = store.query_challenge(ch_b).unwrap();
    assert_eq!(one.word, "beacon");
    assert_eq!(one.class, "noun");
    assert_eq!(one.created_at, "t3");
    assert!(one.answer.is_none());
    assert!(store.query_challenge(999).is_none());
}

#[test]
fn challenge_for_missing_word_is_rejected() {
    let mut store = WordStore::new();
    let r = store.create_challenge(42, "t0");
    assert!(matches!(r, Err(WordStoreError::ConstraintViolation)));
}

#[test]
fn homographs_are_kept_apart_by_id() {
    let mut store = WordStore::new();
    let noun = store
        .create_word(new_word("bank", "noun", "the side of a river"), "t0", Some(&meaning_vec(1)))
        .unwrap();
    let verb = store
        .create_word(new_word("bank", "verb", "to tilt in flight"), "t1", Some(&meaning_vec(2)))
        .unwrap();
    assert_ne!(noun.id, verb.id);

    // Both homographs match, in insertion order.
    let found = store.search_words(&"bank".to_string(), SearchMode::Exact, None, 10);
    assert_eq!(found.len(), 2);
    assert_eq!(found[0].id, noun.id);
    assert_eq!(found[1].id, verb.id);

    // Deleting one leaves the other.
    assert_eq!(store.delete_word(noun.id).unwrap(), 1);
    let left = store.search_words(&"bank".to_string(), SearchMode::Exact, None, 10);
    assert_eq!(left.len(), 1);
    assert_eq!(left[0].id, verb.id);
    assert_eq!(left[0].class, "verb");
}

#[test]
fn reconciliation_replays_missing_vector_rows() {
    let mut store = WordStore::new();
    let indexed = store
        .create_word(new_word("anchor", "noun", "holds a ship"), "t0", Some(&meaning_vec(3)))
        .unwrap();
    let pending = store
        .create_word(new_word("beacon", "noun", "a guiding light"), "t1", None)
        .unwrap();

    // Only the word whose append was skipped is on the work list.
    assert_eq!(store.unindexed_word_ids(), vec![pending.id]);

    // The pending word is invisible to semantic search.
    let before = store.search_words(&String::new(), SearchMode::Semantic, Some(meaning_vec(8)), 10);
    assert_eq!(before.len(), 1);
    assert_eq!(before[0].id, indexed.id);

    // Replaying phase two indexes it; the replay is idempotent.
    assert_eq!(store.reconcile_word(pending.id, &meaning_vec(8)).unwrap(), true);
    assert_eq!(store.reconcile_word(pending.id, &meaning_vec(8)).unwrap(), false);
    assert!(store.unindexed_word_ids().is_empty());

    let after = store.search_words(&String::new(), SearchMode::Semantic, Some(meaning_vec(8)), 1);
    assert_eq!(after.len(), 1);
    assert_eq!(after[0].id, pending.id);

    // A malformed replay writes nothing.
    let mut other = WordStore::new();
    let p = other
        .create_word(new_word("gamma", "noun", "third"), "t0", None)
        .unwrap();
    assert!(matches!(
        other.reconcile_word(p.id, &vec![1i64; 4]),
        Err(WordStoreError::ComputeError)
    ));
    assert_eq!(other.unindexed_word_ids(), vec![p.id]);
    // Reconciling an unknown id is rejected.
    assert!(matches!(
        other.reconcile_word(99, &meaning_vec(1)),
        Err(WordStoreError::ConstraintViolation)
    ));
}

#[test]
fn end_to_end_insert_search_exact_and_semantic() {
    let mut store = WordStore::new();
    let out = store
        .create_word(
            new_word("ameliorate", "verb", "to make better"),
            "2024-01-01T00:00:00Z",
            Some(&meaning_vec(40)),
        )
        .unwrap();
    let i = out.id;

    let exact = store.search_words(&"amelio".to_string(), SearchMode::Exact, None, 10);
    assert_eq!(exact.len(), 1);
    assert_eq!(exact[0].id, i);
    assert_eq!(exact[0].word, "ameliorate");
    assert_eq!(exact[0].class, "verb");
    assert_eq!(exact[0].definition, "to make better");

    // The external model rates "improve" close to "ameliorate".
    let improve = meaning_vec(41);
    let semantic = store.search_words(&"improve".to_string(), SearchMode::Semantic, Some(improve), 3);
    assert!(semantic.iter().any(|w| w.id == i));
}
