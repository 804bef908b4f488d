use tbr::common::{is_overlap, overlap_range};

#[test]
fn test_is_range_overlap() {
    assert!(is_overlap(&(10..15), &(9..14)));
    assert!(is_overlap(&(10..15), &(9..15)));
    assert!(is_overlap(&(10..15), &(9..16)));
    assert!(is_overlap(&(10..15), &(10..14)));
    assert!(is_overlap(&(10..15), &(10..15)));
    assert!(is_overlap(&(10..15), &(10..16)));
    assert!(is_overlap(&(10..15), &(11..14)));
    assert!(is_overlap(&(10..15), &(11..15)));
    assert!(is_overlap(&(10..15), &(11..16)));

    assert!(!is_overlap(&(10..15), &(8..9)));
    assert!(!is_overlap(&(10..15), &(15..16)));
}

#[test]
fn test_overlap_range() {
    assert_eq!(overlap_range(&(10..15), &(9..14)), Some(10..14));
    assert_eq!(overlap_range(&(10..15), &(9..15)), Some(10..15));
    assert_eq!(overlap_range(&(10..15), &(9..16)), Some(10..15));
    assert_eq!(overlap_range(&(10..15), &(10..14)), Some(10..14));
    assert_eq!(overlap_range(&(10..15), &(10..15)), Some(10..15));
    assert_eq!(overlap_range(&(10..15), &(10..16)), Some(10..15));
    assert_eq!(overlap_range(&(10..15), &(11..14)), Some(11..14));
    assert_eq!(overlap_range(&(10..15), &(11..15)), Some(11..15));
    assert_eq!(overlap_range(&(10..15), &(11..16)), Some(11..15));

    assert!(overlap_range(&(10..15), &(8..9)).is_none());
    assert!(overlap_range(&(10..15), &(15..16)).is_none());
}
