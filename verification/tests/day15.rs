use advent2020::day15::{star_one, star_two, Entry};

#[test]
fn day15_test_star_one() {
    assert_eq!(star_one("0,3,6", 2020), Some(436));
    assert_eq!(star_one("1,3,2", 2020), Some(1));
    assert_eq!(star_one("1,3,2", 2020), Some(1));
    assert_eq!(star_one("1,3,2", 2020), Some(1));
    assert_eq!(star_one("2,1,3", 2020), Some(10));
    assert_eq!(star_one("1,2,3", 2020), Some(27));
    assert_eq!(star_one("2,3,1", 2020), Some(78));
    assert_eq!(star_one("3,2,1", 2020), Some(438));
    assert_eq!(star_one("3,1,2", 2020), Some(1836));
}

#[test]
fn day15_first_turns() {
    let expected = [0, 3, 6, 0, 3, 3, 1, 0, 4, 0];
    for turn in 3..=10 {
        assert_eq!(star_one("0,3,6", turn), Some(expected[turn - 1]));
    }
    assert_eq!(star_one("0,3,6", 2), Some(6));
    assert_eq!(star_one("0, 3 ,6\n", 0), Some(6));
    assert_eq!(star_one("", 0), Some(0));
    assert_eq!(star_one("", 1), None);
    assert_eq!(star_one("0,x", 5), None);
    assert_eq!(star_one("5,5", 3), Some(1));
    assert_eq!(star_two("0,3,6", 2020), Some(436));
}

#[test]
fn day15_entries() {
    let mut entry = Entry::new(4);
    assert!(entry.is_first());
    assert_eq!(entry.age(), 0);
    entry.spoken(9);
    assert!(!entry.is_first());
    assert_eq!(entry.age(), 5);
    entry.spoken(10);
    assert_eq!(entry.age(), 1);
}
