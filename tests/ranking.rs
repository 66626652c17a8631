use embeddings::codec::encode_vector;
use embeddings::embedding::{decode_rows, Embedding};
use embeddings::rank::{distance_key, rank, SENTINEL_DISTANCE, SIGN_BIT};

fn scored(items: &[(&str, f64)]) -> Vec<(String, u64)> {
    items.iter().map(|(l, d)| (l.to_string(), d.to_bits())).collect()
}

fn labels(r: &[(String, u64)]) -> Vec<&str> {
    r.iter().map(|(l, _)| l.as_str()).collect()
}

fn cosine_distance(a: &[f32], b: &[f32]) -> f64 {
    if a.len() != b.len() {
        return 2.0;
    }
    let dot: f32 = a.iter().zip(b).map(|(x, y)| x * y).sum();
    let mag_a = a.iter().map(|x| x * x).sum::<f32>().sqrt();
    let mag_b = b.iter().map(|x| x * x).sum::<f32>().sqrt();
    if mag_a == 0.0 || mag_b == 0.0 {
        return 2.0;
    }
    (1.0 - dot / (mag_a * mag_b)) as f64
}

fn search(store: &[Embedding], query: &[f32], limit: usize) -> Vec<(String, u64)> {
    let rows: Vec<(String, Vec<u8>)> =
        store.iter().map(|e| (e.label.clone(), e.blob())).collect();
    let decoded = decode_rows(rows).unwrap();
    let scores = decoded
        .into_iter()
        .map(|(label, v)| {
            let stored: Vec<f32> = v.into_iter().map(f32::from_bits).collect();
            (label, cosine_distance(query, &stored).to_bits())
        })
        .collect();
    rank(scores, limit)
}

fn record(label: &str, v: &[f32]) -> Embedding {
    Embedding::new(label.to_string(), v.iter().map(|x| x.to_bits()).collect())
}

#[test]
fn three_records() {
    let store = vec![
        record("cat", &[1.0, 0.0, 0.0]),
        record("dog", &[0.0, 1.0, 0.0]),
        record("kitten", &[0.9, 0.1, 0.0]),
    ];
    let r = search(&store, &[1.0, 0.0, 0.0], 2);
    assert_eq!(labels(&r), vec!["cat", "kitten"]);
    let d0 = f64::from_bits(r[0].1);
    let d1 = f64::from_bits(r[1].1);
    assert!(d0.abs() < 1e-6);
    assert!(d1 > 0.0 && d1 < 0.02);
}

#[test]
fn mismatched_dimension_ranks_last() {
    let store = vec![
        record("three", &[1.0, 0.0, 0.0]),
        record("four_a", &[0.0, 1.0, 0.0, 0.0]),
        record("four_b", &[1.0, 1.0, 0.0, 0.0]),
    ];
    let r = search(&store, &[1.0, 0.0, 0.0, 0.0], 10);
    assert_eq!(labels(&r), vec!["four_b", "four_a", "three"]);
    assert_eq!(r[2].1, SENTINEL_DISTANCE);
    assert_eq!(f64::from_bits(r[2].1), 2.0);
}

#[test]
fn sentinel_ties_keep_store_order() {
    let store = vec![
        record("three", &[1.0, 0.0, 0.0]),
        record("opposite", &[-1.0, 0.0, 0.0, 0.0]),
        record("zero", &[0.0, 0.0, 0.0, 0.0]),
    ];
    let r = search(&store, &[1.0, 0.0, 0.0, 0.0], 3);
    assert_eq!(labels(&r), vec!["three", "opposite", "zero"]);
    assert!(r.iter().all(|(_, d)| *d == SENTINEL_DISTANCE));
}

#[test]
fn empty_store_gives_empty_result() {
    assert!(rank(Vec::new(), 3).is_empty());
    assert!(search(&[], &[1.0, 2.0], 3).is_empty());
}

#[test]
fn ascending_and_truncated() {
    let r = rank(scored(&[("a", 0.5), ("b", 0.1), ("c", 1.5), ("d", 0.3)]), 3);
    assert_eq!(labels(&r), vec!["b", "d", "a"]);
    for w in r.windows(2) {
        assert!(f64::from_bits(w[0].1) <= f64::from_bits(w[1].1));
    }
}

#[test]
fn fewer_records_than_limit() {
    let r = rank(scored(&[("a", 0.5), ("b", 0.1)]), 5);
    assert_eq!(labels(&r), vec!["b", "a"]);
}

#[test]
fn limit_zero_gives_nothing() {
    assert!(rank(scored(&[("a", 0.5)]), 0).is_empty());
}

#[test]
fn equal_distances_keep_order() {
    let r = rank(scored(&[("x", 1.0), ("y", 0.2), ("z", 1.0), ("w", 1.0)]), 4);
    assert_eq!(labels(&r), vec!["y", "x", "z", "w"]);
}

#[test]
fn duplicate_labels_rank_independently() {
    let r = rank(scored(&[("same", 0.9), ("same", 0.1)]), 2);
    assert_eq!(r, vec![("same".to_string(), 0.1f64.to_bits()), ("same".to_string(), 0.9f64.to_bits())]);
}

#[test]
fn nan_sinks_to_the_end() {
    let r = rank(scored(&[("nan", f64::NAN), ("two", 2.0), ("neg_nan", -f64::NAN), ("zero", 0.0)]), 4);
    assert_eq!(labels(&r), vec!["zero", "two", "nan", "neg_nan"]);
}

#[test]
fn slightly_negative_distance_comes_first() {
    let r = rank(scored(&[("zero", 0.0), ("neg", -1e-9), ("small", 1e-9)]), 3);
    assert_eq!(labels(&r), vec!["neg", "zero", "small"]);
}

#[test]
fn negative_zero_ties_with_zero() {
    assert_eq!(distance_key(SIGN_BIT), distance_key(0));
    let r = rank(scored(&[("pos", 0.0), ("neg", -0.0)]), 2);
    assert_eq!(labels(&r), vec!["pos", "neg"]);
}

#[test]
fn keys_follow_numeric_order() {
    let values = [-2.0f64, -1.0, -1e-300, 0.0, 1e-300, 0.25, 1.0, 2.0, f64::INFINITY];
    for w in values.windows(2) {
        assert!(distance_key(w[0].to_bits()) < distance_key(w[1].to_bits()));
    }
    assert_eq!(distance_key(f64::NAN.to_bits()), u64::MAX);
    assert_eq!(distance_key(0.5f64.to_bits()), 0.5f64.to_bits() | SIGN_BIT);
}
