use openlabels_core::spans::{
    batch_deduplicate, batch_overlap_check, check_overlaps, deduplicate_spans,
};

#[test]
fn test_no_overlaps() {
    let spans = vec![(0, 5), (5, 10), (10, 15)];
    let result = check_overlaps(&spans, true);
    assert!(result.is_empty());
}

#[test]
fn test_simple_overlap() {
    let spans = vec![(0, 10), (5, 15)];
    let result = check_overlaps(&spans, true);
    assert_eq!(result.len(), 1);
    assert_eq!(result[0], (0, 1));
}

#[test]
fn test_identical_allowed() {
    let spans = vec![(0, 10), (0, 10)];
    let result = check_overlaps(&spans, true);
    assert!(result.is_empty());
}

#[test]
fn test_identical_not_allowed() {
    let spans = vec![(0, 10), (0, 10)];
    let result = check_overlaps(&spans, false);
    assert_eq!(result.len(), 1);
}

#[test]
fn test_dedup_by_confidence() {
    let spans = vec![
        (0, 10, "SSN".to_string(), 85),
        (5, 15, "SSN".to_string(), 99),
    ];
    let keep = deduplicate_spans(&spans);
    // Should keep index 1 (higher confidence)
    assert_eq!(keep, vec![1]);
}

#[test]
fn test_dedup_no_overlap() {
    let spans = vec![
        (0, 5, "SSN".to_string(), 99),
        (5, 10, "EMAIL".to_string(), 95),
    ];
    let keep = deduplicate_spans(&spans);
    assert_eq!(keep, vec![0, 1]);
}

#[test]
fn test_dedup_equal_confidence_keep_longer() {
    let spans = vec![
        (0, 5, "SSN".to_string(), 99),
        (0, 10, "SSN".to_string(), 99),
    ];
    let keep = deduplicate_spans(&spans);
    // Should keep index 1 (longer span)
    assert_eq!(keep, vec![1]);
}

#[test]
fn test_dedup_empty_and_single() {
    let keep = deduplicate_spans(&vec![]);
    assert!(keep.is_empty());
    let keep = deduplicate_spans(&vec![(3, 7, "NAME".to_string(), 50)]);
    assert_eq!(keep, vec![0]);
}

#[test]
fn test_dedup_full_tie_keeps_earlier_sorted() {
    // Equal confidence and equal length: the span sorting earlier wins.
    let spans = vec![
        (0, 10, "SSN".to_string(), 90),
        (0, 10, "MRN".to_string(), 90),
    ];
    let keep = deduplicate_spans(&spans);
    assert_eq!(keep, vec![0]);
}

#[test]
fn test_overlap_pair_order_and_indices() {
    // Indices refer to the original positions, smaller first, even when
    // the input is not sorted by start.
    let spans = vec![(5, 15), (0, 10)];
    let result = check_overlaps(&spans, true);
    assert_eq!(result, vec![(0, 1)]);
}

#[test]
fn test_batch_overlap_check_preserves_group_order() {
    let groups = vec![
        vec![(0, 10), (5, 15)],
        vec![(0, 5), (5, 10)],
        vec![(0, 10), (0, 10)],
    ];
    let results = batch_overlap_check(&groups, true);
    assert_eq!(results.len(), 3);
    assert_eq!(results[0], vec![(0, 1)]);
    assert!(results[1].is_empty());
    assert!(results[2].is_empty());
}

#[test]
fn test_batch_deduplicate_preserves_group_order() {
    let groups = vec![
        vec![
            (0, 10, "SSN".to_string(), 85),
            (5, 15, "SSN".to_string(), 99),
        ],
        vec![
            (0, 5, "SSN".to_string(), 99),
            (5, 10, "EMAIL".to_string(), 95),
        ],
    ];
    let results = batch_deduplicate(&groups);
    assert_eq!(results.len(), 2);
    assert_eq!(results[0], vec![1]);
    assert_eq!(results[1], vec![0, 1]);
}
