use rasn::table::{ArrowError, IpRangeTableV4};

fn three_ranges() -> IpRangeTableV4 {
    IpRangeTableV4::from_columns(
        vec![100, 200, 300],
        vec![150, 250, 350],
        vec![1, 2, 3],
        vec!["US".to_string(), "GB".to_string(), "DE".to_string()],
        vec!["Org1".to_string(), "Org2".to_string(), "Org3".to_string()],
    )
    .unwrap()
}

#[test]
fn test_binary_search_basic() {
    let table = three_ranges();

    assert_eq!(table.binary_search(100), Some(0));
    assert_eq!(table.binary_search(125), Some(0));
    assert_eq!(table.binary_search(150), Some(0));
    assert_eq!(table.binary_search(225), Some(1));
    assert_eq!(table.binary_search(350), Some(2));

    assert_eq!(table.binary_search(50), None);
    assert_eq!(table.binary_search(175), None);
    assert_eq!(table.binary_search(400), None);
}

#[test]
fn test_table_properties() {
    let table = IpRangeTableV4::from_columns(
        vec![100],
        vec![200],
        vec![15169],
        vec!["US".to_string()],
        vec!["Google".to_string()],
    )
    .unwrap();

    assert_eq!(table.len(), 1);
    assert!(!table.is_empty());
}

#[test]
fn find_ip_reports_the_holding_range() {
    let table = three_ranges();
    let info = table.find_ip(125).unwrap();
    assert_eq!(info.asn.0, 1);
    assert_eq!(info.organization, "Org1");
    assert_eq!(info.country, Some("US".to_string()));
    assert_eq!(info.description, None);
    assert_eq!(table.find_ip(225).unwrap().asn.0, 2);
    assert_eq!(table.find_ip(225).unwrap().organization, "Org2");
    assert!(table.find_ip(50).is_none());
    assert!(table.find_ip(400).is_none());
}

#[test]
fn range_bounds_are_inclusive() {
    let table = three_ranges();
    assert_eq!(table.find_ip(200).unwrap().asn.0, 2);
    assert_eq!(table.find_ip(250).unwrap().asn.0, 2);
    assert!(table.find_ip(199).is_none());
    assert!(table.find_ip(251).is_none());
    assert_eq!(table.find_ip(300).unwrap().asn.0, 3);
    assert_eq!(table.find_ip(350).unwrap().asn.0, 3);
    assert!(table.find_ip(351).is_none());
}

#[test]
fn extreme_addresses() {
    let table = IpRangeTableV4::from_columns(
        vec![0, 4_000_000_000],
        vec![9, u32::MAX],
        vec![7, 8],
        vec!["AA".to_string(), "BB".to_string()],
        vec!["Low".to_string(), "High".to_string()],
    )
    .unwrap();
    assert_eq!(table.find_ip(0).unwrap().asn.0, 7);
    assert_eq!(table.find_ip(u32::MAX).unwrap().asn.0, 8);
    assert!(table.find_ip(10).is_none());
}

#[test]
fn empty_table_finds_nothing() {
    let table = IpRangeTableV4::from_columns(
        vec![],
        vec![],
        vec![],
        vec![],
        vec![],
    )
    .unwrap();
    assert!(table.is_empty());
    assert_eq!(table.len(), 0);
    assert!(table.find_ip(12345).is_none());
}

#[test]
fn columns_of_different_lengths_are_refused() {
    let r = IpRangeTableV4::from_columns(
        vec![1, 5],
        vec![2],
        vec![1, 2],
        vec!["A".to_string(), "B".to_string()],
        vec!["A".to_string(), "B".to_string()],
    );
    assert!(matches!(r, Err(ArrowError::InvalidSchema(_))));
}

#[test]
fn overlapping_or_unsorted_ranges_are_refused() {
    let overlapping = IpRangeTableV4::from_columns(
        vec![100, 150],
        vec![200, 300],
        vec![1, 2],
        vec!["A".to_string(), "B".to_string()],
        vec!["A".to_string(), "B".to_string()],
    );
    assert!(matches!(overlapping, Err(ArrowError::InvalidSchema(_))));

    let reversed = IpRangeTableV4::from_columns(
        vec![10],
        vec![5],
        vec![1],
        vec!["A".to_string()],
        vec!["A".to_string()],
    );
    assert!(matches!(reversed, Err(ArrowError::InvalidSchema(_))));
}
