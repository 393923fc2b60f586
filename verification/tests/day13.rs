use advent2020::day13::{inverse, parse, star_one, star_two};

#[test]
fn day13_test_star_one() {
    assert_eq!(
        star_one(
            "939
7,13,x,x,59,x,31,19"
        ),
        Some(295)
    );
}

#[test]
fn day13_test_star_two() {
    assert_eq!(
        star_two(
            "939
7,13,x,x,59,x,31,19"
        ),
        Some(1068781)
    );
    assert_eq!(
        star_two(
            "1232131
67,x,7,59,61"
        ),
        Some(779210)
    );
    assert_eq!(
        star_two(
            "1232131
1789,37,47,1889"
        ),
        Some(1202161486)
    );
}

#[test]
fn day13_inverses() {
    assert_eq!(inverse(3, 7), Some(5));
    assert_eq!(inverse(2, 4), None);
    assert_eq!(inverse(5, 1), None);
    assert_eq!(parse("7\n3, x ,5", false), Some((7, vec![Some(3), None, Some(5)])));
    assert_eq!(parse("7\n3,x,5", true), Some((7, vec![Some(3), Some(5)])));
    assert_eq!(parse("7", true), None);
    assert_eq!(parse("7\n3,y", true), None);
    assert_eq!(star_one("10\n5,3"), Some(6));
    assert_eq!(star_one("10\n0"), None);
}
