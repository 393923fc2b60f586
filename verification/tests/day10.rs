use advent2020::day10::{star_one, star_two};

const INPUT_SMALL: &'static str = "16
10
15
5
1
11
7
19
6
12
4";

const INPUT_SMALL_SEQUENCE: &'static str = "1
2
3
4";

const INPUT_LARGE: &'static str = "28
33
18
42
31
14
46
20
48
47
24
23
49
45
19
38
39
11
1
32
25
35
8
17
7
9
4
2
34
10
3";

#[test]
fn day10_test_star_one() {
    assert_eq!(star_one(INPUT_SMALL), Some(35));
    assert_eq!(star_one(INPUT_LARGE), Some(220));
}

#[test]
fn day10_test_star_two() {
    assert_eq!(star_two(INPUT_SMALL), Some(8));
    assert_eq!(star_two(INPUT_SMALL_SEQUENCE), Some(7));
    assert_eq!(star_two(INPUT_LARGE), Some(19208));
}

#[test]
fn day10_chains_that_cannot_be_made() {
    assert_eq!(star_one("1\n5"), None);
    assert_eq!(star_one("3"), None);
    assert_eq!(star_one("1"), Some(1));
    assert_eq!(star_one("1\n1\n2"), Some(2));
    assert_eq!(star_one(""), None);
    assert_eq!(star_two("1\n5"), None);
    assert_eq!(star_two("4"), None);
    assert_eq!(star_two("0\n1"), None);
    assert_eq!(star_two("3"), Some(1));
    assert_eq!(star_two("1\n2\n3"), Some(4));
    assert_eq!(star_two(""), None);
}
