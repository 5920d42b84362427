use openteam::hash::{encode_fields, fnv1a64};
use openteam::mock::seed::{derive_rng, Draws};
use rand::{RngExt, SeedableRng};
use rand_chacha::ChaCha8Rng;

fn first_draws(seed: u64, user: &str, call_seq: u64) -> [u64; 4] {
    let mut rng = derive_rng(seed, user, call_seq);
    [rng.random(), rng.random(), rng.random(), rng.random()]
}

#[test]
fn fnv1a64_matches_reference_vectors() {
    // The published FNV-1a-64 vectors: empty input is the offset basis.
    assert_eq!(fnv1a64(b""), 0xcbf2_9ce4_8422_2325);
    assert_eq!(fnv1a64(b"a"), 0xaf63_dc4c_8601_ec8c);
    assert_eq!(fnv1a64(b"foobar"), 0x8594_4171_f739_67e8);
}

#[test]
fn same_tuple_yields_the_same_stream() {
    assert_eq!(
        first_draws(42, "orchestrator", 0),
        first_draws(42, "orchestrator", 0)
    );
    assert_eq!(
        first_draws(u64::MAX, "team-agent:agent-3:generalist", 7),
        first_draws(u64::MAX, "team-agent:agent-3:generalist", 7)
    );
}

#[test]
fn each_field_decorrelates_the_stream() {
    let base = first_draws(42, "orchestrator", 0);
    assert_ne!(base, first_draws(43, "orchestrator", 0), "seed must matter");
    assert_ne!(
        base,
        first_draws(42, "meta-agent:meta-1", 0),
        "user must matter"
    );
    assert_ne!(base, first_draws(42, "orchestrator", 1), "call_seq matters");
}

#[test]
fn length_delimiting_prevents_field_boundary_collisions() {
    // A bare concatenation would encode ("ab","c") and ("a","bc")
    // identically; the length prefixes must split them.
    let left = encode_fields(&vec![b"ab".to_vec(), b"c".to_vec()]);
    let right = encode_fields(&vec![b"a".to_vec(), b"bc".to_vec()]);
    assert_ne!(left, right);
    assert_ne!(fnv1a64(&left), fnv1a64(&right));
}

#[test]
fn edge_seeds_produce_distinct_streams() {
    let edges = [0_u64, 1, u64::MAX, 4_294_967_291, 2_305_843_009_213_693_951];
    let draws: Vec<[u64; 4]> = edges
        .iter()
        .map(|&seed| first_draws(seed, "orchestrator", 0))
        .collect();
    for i in 0..draws.len() {
        for j in (i + 1)..draws.len() {
            assert_ne!(draws[i], draws[j], "seeds {} vs {}", edges[i], edges[j]);
        }
    }
}

#[test]
fn draws_follow_one_generator_that_is_never_reset() {
    for key in [0_u64, 7, u64::MAX] {
        let mut draws = Draws { key, position: 0 };
        let mut rng = ChaCha8Rng::seed_from_u64(key);
        for round in 0..200_u64 {
            assert_eq!(draws.random_range(1, 8), rng.random_range(1..=8_u64));
            assert_eq!(draws.random_index(5), rng.random_range(0..5_usize));
            assert_eq!(draws.random_size(3), rng.random_range(1..=3_usize));
            assert_eq!(draws.random_ratio(4, 5), rng.random_bool(0.8));
            assert_eq!(draws.random_ratio(3, 5), rng.random_bool(0.6));
            assert_eq!(draws.random_ratio(3, 4), rng.random_bool(0.75));
            assert_eq!(draws.random_ratio(1, 4), rng.random_bool(0.25));
            assert_eq!(draws.random(), rng.random::<u64>(), "round {round}");
        }
        assert_eq!(draws.position, rng.get_word_pos());
    }
}
