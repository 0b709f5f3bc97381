//! Partitioning strategy names.

use szrsql_sql::partition::PartitionStrategy;

#[test]
fn test_strategy_from_str() {
    assert_eq!(
        PartitionStrategy::from_str_ci("range"),
        Some(PartitionStrategy::Range)
    );
    assert_eq!(
        PartitionStrategy::from_str_ci("LIST"),
        Some(PartitionStrategy::List)
    );
    assert_eq!(
        PartitionStrategy::from_str_ci("Hash"),
        Some(PartitionStrategy::Hash)
    );
    assert_eq!(PartitionStrategy::from_str_ci("foo"), None);
}

#[test]
fn test_strategy_display() {
    assert_eq!(PartitionStrategy::Range.to_string(), "RANGE");
    assert_eq!(PartitionStrategy::List.to_string(), "LIST");
    assert_eq!(PartitionStrategy::Hash.to_string(), "HASH");
}

#[test]
fn strategy_as_str_is_upper_case() {
    assert_eq!(PartitionStrategy::Range.as_str(), "RANGE");
    assert_eq!(PartitionStrategy::from_str_ci("hAsH"), Some(PartitionStrategy::Hash));
    assert_eq!(PartitionStrategy::from_str_ci(" hash"), None);
    assert_eq!(PartitionStrategy::from_str_ci(""), None);
}
