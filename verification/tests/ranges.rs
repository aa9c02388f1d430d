use gix_blame::{BlameRanges, Error, ObjectId, Offset, Span};

#[test]
fn result_ok() -> Result<(), Error> {
    Ok(())
}

#[test]
fn one_based_range_becomes_zero_based_exclusive() {
    let ranges = BlameRanges::from_one_based_inclusive_range(20, 40).expect("valid range");
    assert_eq!(
        ranges.to_ranges(100),
        vec![Span { start: 19, end: 40 }]
    );
}

#[test]
fn invalid_one_based_ranges_are_rejected() {
    assert_eq!(
        BlameRanges::from_one_based_inclusive_range(0, 5).unwrap_err(),
        Error::InvalidOneBasedLineRange
    );
    assert_eq!(
        BlameRanges::from_one_based_inclusive_range(5, 4).unwrap_err(),
        Error::InvalidOneBasedLineRange
    );
}

#[test]
fn empty_range_list_blames_the_whole_file() {
    let ranges = BlameRanges::from_one_based_inclusive_ranges(&Vec::new()).expect("valid ranges");
    assert_eq!(ranges, BlameRanges::WholeFile);
    assert_eq!(ranges.to_ranges(4), vec![Span { start: 0, end: 4 }]);
}

#[test]
fn overlapping_ranges_merge() {
    let ranges =
        BlameRanges::from_one_based_inclusive_ranges(&vec![(1, 4), (3, 7)]).expect("valid ranges");
    assert_eq!(ranges.to_ranges(100), vec![Span { start: 0, end: 7 }]);
}

#[test]
fn touching_ranges_merge() {
    let ranges =
        BlameRanges::from_one_based_inclusive_ranges(&vec![(1, 4), (5, 7)]).expect("valid ranges");
    assert_eq!(ranges.to_ranges(100), vec![Span { start: 0, end: 7 }]);
}

#[test]
fn merge_is_order_independent() {
    let forward =
        BlameRanges::from_one_based_inclusive_ranges(&vec![(1, 4), (3, 7)]).expect("valid ranges");
    let backward =
        BlameRanges::from_one_based_inclusive_ranges(&vec![(3, 7), (1, 4)]).expect("valid ranges");
    assert_eq!(forward, backward);

    let forward =
        BlameRanges::from_one_based_inclusive_ranges(&vec![(10, 14), (1, 4), (4, 9)])
            .expect("valid ranges");
    let backward =
        BlameRanges::from_one_based_inclusive_ranges(&vec![(4, 9), (10, 14), (1, 4)])
            .expect("valid ranges");
    assert_eq!(forward, backward);
    assert_eq!(forward.to_ranges(100), vec![Span { start: 0, end: 14 }]);
}

#[test]
fn add_range_merges_and_keeps_distinct_ranges_apart() {
    let mut ranges = BlameRanges::from_one_based_inclusive_range(1, 4).expect("valid range");
    ranges.add_range(10, 14).expect("valid range");
    assert_eq!(
        ranges.to_ranges(100),
        vec![Span { start: 0, end: 4 }, Span { start: 9, end: 14 }]
    );
    ranges.add_range(1, 1).expect("valid range"); // duplicate range, no change
    assert_eq!(
        ranges.to_ranges(100),
        vec![Span { start: 0, end: 4 }, Span { start: 9, end: 14 }]
    );
}

#[test]
fn add_range_on_whole_file_is_rejected() {
    let mut ranges = BlameRanges::whole_file();
    assert_eq!(
        ranges.add_range(1, 2).unwrap_err(),
        Error::InvalidOneBasedLineRange
    );
    assert_eq!(ranges, BlameRanges::WholeFile);
}

#[test]
fn shifted_range_moves_both_endpoints() {
    let range = Span { start: 5, end: 9 };
    assert_eq!(
        Offset::Added(3).shifted_range(&range),
        Span { start: 2, end: 6 }
    );
    assert_eq!(
        Offset::Deleted(3).shifted_range(&range),
        Span { start: 8, end: 12 }
    );
}

#[test]
fn offset_addition_collapses_algebraically() {
    assert_eq!(Offset::Added(2).plus(3), Offset::Added(5));
    assert_eq!(Offset::Deleted(2).plus(3), Offset::Added(1));
    assert_eq!(Offset::Deleted(5).plus(3), Offset::Deleted(2));
    assert_eq!(Offset::Added(2).minus(5), Offset::Deleted(3));
    assert_eq!(Offset::Added(5).minus(2), Offset::Added(3));
    assert_eq!(Offset::Deleted(2).minus(3), Offset::Deleted(5));
}

#[test]
fn offset_round_trip_returns_to_the_start() {
    let values = [
        Offset::Added(0),
        Offset::Added(7),
        Offset::Deleted(4),
    ];
    for o in values {
        assert_eq!(o.plus(9).minus(9), o);
        assert_eq!(o.minus(9).plus(9), o);
    }
}

#[test]
fn object_id_parses_forty_hex_digits() {
    let id = ObjectId::from_hex(b"0123456789abcdef0123456789ABCDEF01234567").expect("valid id");
    assert_eq!(id.w0, 0x0123456789abcdefu64);
    assert_eq!(id.w1, 0x0123456789abcdefu64);
    assert_eq!(id.w2, 0x01234567u32);
    assert!(ObjectId::from_hex(b"0123").is_none());
    assert!(ObjectId::from_hex(b"012345678-abcdef0123456789ABCDEF01234567").is_none());
}

#[test]
fn object_id_equality_is_byte_equality() {
    let a = ObjectId::from_hex(b"134385f6d781b7e97062102c6a483440bfda2a03").unwrap();
    let b = ObjectId::from_hex(b"134385f6d781b7e97062102c6a483440bfda2a03").unwrap();
    let c = ObjectId::from_hex(b"9902e3c3e8f0c569b4ab295ddf473e6de763e1e7").unwrap();
    assert_eq!(a, b);
    assert_ne!(a, c);
    assert_eq!(ObjectId::null(), ObjectId { w0: 0, w1: 0, w2: 0 });
}
