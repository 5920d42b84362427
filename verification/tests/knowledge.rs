use openteam::base64::{decode, decode_words, encode, encode_words};
use openteam::agent::AgentId;
use openteam::ids::{EventId, KnowledgeEntryId};
use openteam::knowledge::{
    best, feature_counts, EmbedError, FeatureHashEmbedder, KnowledgeError, KnowledgeKind,
    KnowledgeStore, DEFAULT_DIMENSIONS,
};

/// The unit vector in the direction of bucket counts.
fn unit(counts: &[i128]) -> Vec<f32> {
    let mut vector: Vec<f32> = counts.iter().map(|n| *n as f32).collect();
    let norm = vector.iter().map(|v| v * v).sum::<f32>().sqrt();
    if norm > 0.0 {
        for value in &mut vector {
            *value /= norm;
        }
    }
    vector
}

fn embed_text(text: &str, dimensions: usize) -> Vec<f32> {
    unit(&feature_counts(text, dimensions))
}

fn cosine(a: &[f32], b: &[f32]) -> f32 {
    a.iter().zip(b).map(|(x, y)| x * y).sum()
}

/// A key that orders as `total_cmp` does.
fn key(score: f32) -> i32 {
    let bits = score.to_bits() as i32;
    bits ^ (((bits >> 31) as u32) >> 1) as i32
}

fn scores(entries: &KnowledgeStore, query: &str) -> Vec<f32> {
    let embedder = FeatureHashEmbedder::default();
    let wanted = unit(&embedder.embed_text(query));
    entries
        .entries()
        .iter()
        .map(|entry| cosine(&wanted, &unit(&embedder.embed_text(&entry.text))))
        .collect()
}

fn ranked(entries: &KnowledgeStore, query: &str, k: usize) -> Vec<usize> {
    let keys: Vec<i32> = scores(entries, query).into_iter().map(key).collect();
    best(&keys, k)
}

#[test]
fn feature_hash_embedder_is_deterministic_normalized_d256() {
    let embedder = FeatureHashEmbedder::default();
    let a = unit(&embedder.embed_text("Install mise; then `mise run build` / `test`."));
    let b = unit(&embedder.embed_text("Install mise; then `mise run build` / `test`."));
    assert_eq!(a, b, "identical text yields the identical vector");
    assert_eq!(a.len(), 256, "default D = 256");
    let norm: f32 = a.iter().map(|v| v * v).sum::<f32>().sqrt();
    assert!((norm - 1.0).abs() < 1e-5, "L2-normalized, got {norm}");

    // Tokenization: lowercase, split on non-alphanumeric.
    assert_eq!(
        embedder.embed_text("Install, MISE!"),
        embedder.embed_text("install mise")
    );

    // dimensions-overridable.
    assert_eq!(
        FeatureHashEmbedder::with_dimensions(64)
            .embed_text("x")
            .len(),
        64
    );

    // Empty text embeds to the zero vector without panicking.
    assert!(embedder.embed_text("").iter().all(|v| *v == 0));
}

#[test]
fn cosine_top_k_ranks_higher_token_overlap_first() {
    let mut store = KnowledgeStore::new();
    let overlap = store.insert(
        "install mise then run build and test",
        AgentId::team(1),
        EventId::new(13),
        KnowledgeKind::Note,
    );
    let unrelated = store.insert(
        "the quantum flamingo dances at midnight",
        AgentId::team(2),
        EventId::new(14),
        KnowledgeKind::Note,
    );

    assert_eq!(overlap, KnowledgeEntryId::new(1));
    assert_eq!(unrelated, KnowledgeEntryId::new(2));

    let hits = ranked(&store, "mise build test", 2);
    assert_eq!(hits.len(), 2);
    assert_eq!(store.entries()[hits[0]].id, overlap, "higher overlap ranks first");
    let scores = scores(&store, "mise build test");
    assert!(scores[hits[0]] > scores[hits[1]]);
    assert!(key(scores[hits[0]]) > key(scores[hits[1]]));

    // k truncates.
    assert_eq!(ranked(&store, "mise", 1).len(), 1);
}

#[test]
fn accessors_expose_count_bytes_and_entries_in_id_order() {
    let mut store = KnowledgeStore::new();
    store.insert(
        "abc",
        AgentId::team(1),
        EventId::new(1),
        KnowledgeKind::Message,
    );
    store.insert(
        "defgh",
        AgentId::team(2),
        EventId::new(2),
        KnowledgeKind::TaskCompletion,
    );

    assert_eq!(store.entry_count(), 2);
    assert_eq!(store.byte_size(), 8);
    let entries = store.entries();
    assert_eq!(entries[0].id, KnowledgeEntryId::new(1));
    assert_eq!(entries[1].id, KnowledgeEntryId::new(2));
    assert_eq!(entries[1].kind, KnowledgeKind::TaskCompletion);
}

#[test]
fn equal_keys_keep_their_order() {
    assert_eq!(best(&vec![1, 5, 5, 2, 5], 4), vec![1, 2, 4, 3]);
    assert_eq!(best(&vec![-3, -1], 5), vec![1, 0]);
    assert_eq!(best(&vec![], 3), Vec::<usize>::new());
}

#[test]
fn bucket_counts_are_signed_and_case_blind() {
    let counts = feature_counts("Alpha alpha ALPHA beta", 16);
    assert_eq!(counts.iter().map(|n| n.abs()).max(), Some(3));
    assert_eq!(counts, feature_counts("alpha ALPHA alpha -- Beta", 16));
}

#[test]
fn knowledge_errors_read_as_text() {
    let backend = EmbedError::Backend("down".to_string());
    assert_eq!(backend.message(), "embedding backend error: down");
    assert!(KnowledgeError::Embed(backend)
        .message()
        .contains("embedding backend error: down"));
}

#[test]
fn identical_text_yields_the_identical_vector() {
    let text = "Setup: install mise; then `mise run build` / `test`.";
    assert_eq!(
        embed_text(text, DEFAULT_DIMENSIONS),
        embed_text(text, DEFAULT_DIMENSIONS)
    );
}

#[test]
fn vectors_are_l2_normalized() {
    let vector = embed_text("install mise and build the workspace", DEFAULT_DIMENSIONS);
    let norm: f32 = vector.iter().map(|v| v * v).sum::<f32>().sqrt();
    assert!((norm - 1.0).abs() < 1e-5, "norm was {norm}");
}

#[test]
fn empty_text_is_the_zero_vector() {
    let vector = embed_text("", DEFAULT_DIMENSIONS);
    assert_eq!(vector.len(), DEFAULT_DIMENSIONS);
    assert!(vector.iter().all(|v| *v == 0.0));
}

#[test]
fn dimensions_are_honored() {
    assert_eq!(embed_text("hello world", 16).len(), 16);
    assert_eq!(embed_text("hello world", 1536).len(), 1536);
    assert!(embed_text("hello world", 0).is_empty());
}

#[test]
fn tokenization_is_case_and_punctuation_insensitive() {
    assert_eq!(
        embed_text("Install MISE, then build!", DEFAULT_DIMENSIONS),
        embed_text("install mise then build", DEFAULT_DIMENSIONS)
    );
}

#[test]
fn lexical_overlap_lands_nearer_in_cosine_space() {
    let base = embed_text("install mise then run the build", DEFAULT_DIMENSIONS);
    let near = embed_text("install mise and run tests", DEFAULT_DIMENSIONS);
    let far = embed_text("zebra quantum harpsichord", DEFAULT_DIMENSIONS);
    assert!(cosine(&base, &near) > cosine(&base, &far));
}

#[test]
fn vectors_read_back_from_base64() {
    // The examples of RFC 4648.
    for (bytes, text) in [
        ("", ""),
        ("f", "Zg=="),
        ("fo", "Zm8="),
        ("foo", "Zm9v"),
        ("foob", "Zm9vYg=="),
        ("fooba", "Zm9vYmE="),
        ("foobar", "Zm9vYmFy"),
    ] {
        assert_eq!(encode(&bytes.as_bytes().to_vec()), text);
        assert_eq!(decode(text), Some(bytes.as_bytes().to_vec()));
    }
    assert_eq!(encode(&vec![0xfb, 0xff, 0xbf]), "+/+/");
    for wrong in ["Z", "Zg", "Zg=", "Zh==", "Zm9=", "Zg==Zg==", "Zg=a", "Zm9v ", "Zm-v", "===="] {
        assert_eq!(decode(wrong), None, "{wrong}");
    }
    let floats: [f32; 4] = [0.0, 1.0, -0.5, f32::MIN_POSITIVE];
    let words: Vec<u32> = floats.iter().map(|v| v.to_bits()).collect();
    let bytes: Vec<u8> = floats.iter().flat_map(|v| v.to_le_bytes()).collect();
    assert_eq!(encode_words(&words), encode(&bytes));
    assert_eq!(encode_words(&vec![0x3f80_0000]), "AACAPw==");
    assert_eq!(decode_words(&encode_words(&words)), Some(words));
    assert_eq!(decode_words("Zm8="), None);
}
