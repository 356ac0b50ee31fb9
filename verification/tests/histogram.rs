use prometheus_client::metrics::histogram::{
    downsample_buckets, encode_spans_and_deltas, increment_bucket,
};

#[test]
fn native_histogram_encodes_spans_and_deltas() {
    let buckets = vec![(-10, 1), (-7, 7), (-5, 7), (2, 8)];

    let encoding = encode_spans_and_deltas(&buckets).unwrap();

    assert_eq!(encoding.spans, vec![(-10, 6), (6, 1)]);
    assert_eq!(encoding.deltas, vec![1, -1, 0, 7, -7, 7, 1]);
}

#[test]
fn native_histogram_downsamples_like_go_client() {
    let buckets = vec![(-2, 1), (-1, 2), (0, 4), (1, 8)];

    let downsampled = downsample_buckets(&buckets);

    assert_eq!(downsampled, vec![(-1, 1), (0, 6), (1, 8)]);
}

#[test]
fn native_histogram_fails_for_counts_not_fitting_delta_wire_type() {
    let buckets = vec![(0, i64::MAX as u64 + 1)];

    assert!(encode_spans_and_deltas(&buckets).is_err());
}

#[test]
fn increment_bucket_inserts_in_order_and_counts() {
    let mut buckets: Vec<(i32, u64)> = Vec::new();
    increment_bucket(&mut buckets, 3);
    increment_bucket(&mut buckets, -2);
    increment_bucket(&mut buckets, 3);
    increment_bucket(&mut buckets, 0);
    increment_bucket(&mut buckets, 7);
    increment_bucket(&mut buckets, -2);
    assert_eq!(buckets, vec![(-2, 2), (0, 1), (3, 2), (7, 1)]);
}

#[test]
fn downsampling_keeps_the_total() {
    let buckets = vec![(-5, 1), (-4, 2), (-1, 3), (1, 4), (2, 5), (9, 6)];
    let downsampled = downsample_buckets(&buckets);
    assert_eq!(downsampled, vec![(-2, 3), (0, 3), (1, 9), (5, 6)]);
    let total: u64 = downsampled.iter().map(|(_, c)| c).sum();
    assert_eq!(21, total);
}

#[test]
fn encoding_of_empty_and_adjacent_buckets() {
    let empty = encode_spans_and_deltas(&Vec::new()).unwrap();
    assert!(empty.spans.is_empty());
    assert!(empty.deltas.is_empty());

    let encoding = encode_spans_and_deltas(&vec![(3, 5), (4, 2), (5, 2)]).unwrap();
    assert_eq!(encoding.spans, vec![(3, 3)]);
    assert_eq!(encoding.deltas, vec![5, -3, 0]);
}

#[test]
fn encoding_fills_gaps_of_two_and_splits_larger_ones() {
    let encoding = encode_spans_and_deltas(&vec![(0, 1), (3, 1), (7, 4)]).unwrap();
    assert_eq!(encoding.spans, vec![(0, 4), (3, 1)]);
    assert_eq!(encoding.deltas, vec![1, -1, 0, 1, 3]);
}

#[test]
fn increment_bucket_adds_one_to_the_total() {
    let mut buckets: Vec<(i32, u64)> = vec![(-3, 2), (4, 5)];
    increment_bucket(&mut buckets, 4);
    assert_eq!(buckets, vec![(-3, 2), (4, 6)]);
    increment_bucket(&mut buckets, 0);
    assert_eq!(buckets, vec![(-3, 2), (0, 1), (4, 6)]);
    let total: u64 = buckets.iter().map(|b| b.1).sum();
    assert_eq!(9, total);
}
