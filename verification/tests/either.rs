use advent2020::either::Either;

#[test]
fn either_maps_its_own_side() {
    let left: Either<u8, &str> = Either::Left(3);
    let right: Either<u8, &str> = Either::Right("x");
    assert!(left.is_left());
    assert!(!left.is_right());
    assert!(right.is_right());
    assert!(!right.is_left());
    assert_eq!(left.clone().map_left(|n| n + 1).left(), Some(4));
    assert_eq!(left.clone().map_right(|s| s.len()).left(), Some(3));
    assert_eq!(right.clone().map_right(|s| s.len()).right(), Some(1));
    assert_eq!(right.clone().map_left(|n| n + 1).right(), Some("x"));
    assert_eq!(left.clone().right(), None);
    assert_eq!(right.left(), None);
}

#[test]
fn either_reads_the_left_side_first() {
    let number = |s: &str| s.parse::<i32>().ok();
    let word = |s: &str| if s.is_empty() { None } else { Some(s.to_string()) };
    let names = ("i32", "String");
    let read = Either::<i32, String>::from_str("12", number, word, names).unwrap();
    assert_eq!(read.left(), Some(12));
    let read = Either::<i32, String>::from_str("twelve", number, word, names).unwrap();
    assert_eq!(read.right(), Some("twelve".to_string()));
    let read = Either::<i32, String>::from_str("", number, word, names);
    assert_eq!(
        read.unwrap_err(),
        "`` is not parsable as either `i32` or `String`"
    );
}
