use embeddings::codec::DecodeError;
use embeddings::embedding::{decode_rows, Embedding};

#[test]
fn new_keeps_parts() {
    let e = Embedding::new("label".to_string(), vec![1, 2]);
    assert_eq!(e.label, "label");
    assert_eq!(e.vector, vec![1, 2]);
}

#[test]
fn batch_new_pairs_in_order() {
    let r = Embedding::batch_new(
        vec!["a".to_string(), "b".to_string(), "c".to_string()],
        vec![vec![1], vec![2, 3]],
    );
    assert_eq!(r.len(), 2);
    assert_eq!(r[0].label, "a");
    assert_eq!(r[0].vector, vec![1]);
    assert_eq!(r[1].label, "b");
    assert_eq!(r[1].vector, vec![2, 3]);
}

#[test]
fn blob_is_four_bytes_per_component() {
    let e = Embedding::new("x".to_string(), vec![1.0f32.to_bits(), 0x0102_0304]);
    assert_eq!(e.blob(), vec![0x00, 0x00, 0x80, 0x3f, 0x04, 0x03, 0x02, 0x01]);
}

#[test]
fn decode_rows_reads_all() {
    let rows = vec![
        ("a".to_string(), vec![1, 0, 0, 0]),
        ("b".to_string(), vec![]),
    ];
    let r = decode_rows(rows).unwrap();
    assert_eq!(r, vec![("a".to_string(), vec![1]), ("b".to_string(), vec![])]);
}

#[test]
fn decode_rows_stops_at_bad_blob() {
    let rows = vec![
        ("a".to_string(), vec![1, 0, 0, 0]),
        ("b".to_string(), vec![1, 2]),
        ("c".to_string(), vec![1, 2, 3, 4, 5, 6, 7]),
    ];
    assert_eq!(decode_rows(rows), Err(DecodeError::BadLength(2)));
}
