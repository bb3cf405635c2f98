use strategy_transfer::{transferred_rank, ClassCounts, TransferClass};

#[test]
fn class_labels() {
    assert_eq!(TransferClass::Positive.to_string(), "positive");
    assert_eq!(TransferClass::Negative.to_string(), "negative");
    assert_eq!(TransferClass::Neutral.to_string(), "neutral");
}

#[test]
fn class_from_comparisons() {
    assert_eq!(TransferClass::from_gain_comparison(true, false), TransferClass::Positive);
    assert_eq!(TransferClass::from_gain_comparison(false, true), TransferClass::Negative);
    assert_eq!(TransferClass::from_gain_comparison(false, false), TransferClass::Neutral);
    assert_eq!(TransferClass::from_gain_comparison(true, true), TransferClass::Positive);
}

#[test]
fn counts_of_empty_list() {
    let t = ClassCounts::from_classes(&[]);
    assert_eq!(t.total_experiments, 0);
    assert_eq!(t.positive_count, 0);
    assert_eq!(t.negative_count, 0);
    assert_eq!(t.neutral_count, 0);
}

#[test]
fn counts_partition_the_experiments() {
    let classes = vec![
        TransferClass::Positive,
        TransferClass::Neutral,
        TransferClass::Negative,
        TransferClass::Neutral,
        TransferClass::Neutral,
        TransferClass::Positive,
    ];
    let t = ClassCounts::from_classes(&classes);
    assert_eq!(t.total_experiments, 6);
    assert_eq!(t.positive_count, 2);
    assert_eq!(t.negative_count, 1);
    assert_eq!(t.neutral_count, 3);
    assert_eq!(t.positive_count + t.negative_count + t.neutral_count, t.total_experiments);
}

#[test]
fn rank_counts_strictly_higher_competitors() {
    assert_eq!(transferred_rank(false, false), 1);
    assert_eq!(transferred_rank(true, false), 2);
    assert_eq!(transferred_rank(false, true), 2);
    assert_eq!(transferred_rank(true, true), 3);
}
