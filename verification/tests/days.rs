use advent2020::day05::BoardingPass;
use advent2020::{day01, day02, day03, day05, day06, day09};

const DAY01_INPUT: &'static str = "1721
979
366
299
675
1456";

#[test]
fn day01_test_star_one() {
    assert_eq!(day01::star_one(DAY01_INPUT), Some(514579));
}

#[test]
fn day01_test_star_two() {
    assert_eq!(day01::star_two(DAY01_INPUT), Some(241861950));
}

#[test]
fn day01_without_a_match_is_zero() {
    assert_eq!(day01::star_one("1\n2\n3"), Some(0));
    assert_eq!(day01::star_two("1\n2\n3"), Some(0));
    assert_eq!(day01::star_one(""), Some(0));
    assert_eq!(day01::star_one("1010"), Some(1020100));
    assert_eq!(day01::star_one("12\nx"), None);
}

const DAY02_INPUT: &'static str = "1-3 a: abcde
1-3 b: cdefg
2-9 c: ccccccccc";

#[test]
fn day02_test_star_one() {
    assert_eq!(day02::star_one(DAY02_INPUT), Some(2));
}

#[test]
fn day02_test_star_two() {
    assert_eq!(day02::star_two(DAY02_INPUT), Some(1))
}

#[test]
fn day02_lines_that_state_no_entry() {
    assert_eq!(day02::star_one("1-3 a abcde"), None);
    assert_eq!(day02::star_one("1-3: abcde"), None);
    assert_eq!(day02::star_one("1-x a: abcde"), None);
    assert_eq!(day02::star_two("2-2 a: aaa"), Some(0));
    assert_eq!(day02::star_two("1-9 a: abc"), Some(1));
}

const DAY03_INPUT: &'static str = "..##.......
#...#...#..
.#....#..#.
..#.#...#.#
.#...##..#.
..#.##.....
.#.#.#....#
.#........#
#.##...#...
#...##....#
.#..#...#.#";

#[test]
fn day03_test_star_one() {
    assert_eq!(day03::star_one(DAY03_INPUT), Some(7));
}

#[test]
fn day03_test_star_two() {
    assert_eq!(day03::star_two(DAY03_INPUT), Some(336));
}

#[test]
fn day03_maps_that_cannot_be_read() {
    assert_eq!(day03::star_one("..#\n.x."), None);
    assert_eq!(day03::star_one("....\n."), None);
    assert_eq!(day03::star_one(""), Some(0));
}

#[test]
fn test_parse_boarding_pass() {
    let pass = |s: &str| BoardingPass::from_str(&s.chars().collect());
    assert_eq!(pass("BFFFBBFRRR"), Some(BoardingPass::new(70, 7)));
    assert_eq!(pass("FFFBBBFRRR"), Some(BoardingPass::new(14, 7)));
    assert_eq!(pass("BBFFBBFRLL"), Some(BoardingPass::new(102, 4)));
}

#[test]
fn day05_seats() {
    let pass = |s: &str| BoardingPass::from_str(&s.chars().collect());
    assert_eq!(pass("FBFBBFFRLR"), Some(BoardingPass::new(44, 5)));
    assert_eq!(pass("FBFBBFFRLR").map(|p| p.id()), Some(357));
    assert_eq!(pass("fbfbbffRLR"), Some(BoardingPass::new(44, 5)));
    assert_eq!(pass("FBFBBFFrlr"), None);
    assert_eq!(pass("FBFBBFFRL"), None);
    assert_eq!(pass("FBFXBFFRLR"), None);
    assert_eq!(BoardingPass::all().len(), 127 * 8);
    assert_eq!(BoardingPass::all()[8 * 3 + 2], BoardingPass::new(3, 2));
    assert_eq!(
        day05::star_one("BFFFBBFRRR\nFFFBBBFRRR\nBBFFBBFRLL"),
        Some(820)
    );
    assert_eq!(day05::star_one(""), None);
    // the seats 8 and 10 are taken, the seat 9 is free
    assert_eq!(day05::star_two("FFFFFFBLLL\nFFFFFFBLRL"), Some(9));
    assert_eq!(day05::star_two("FFFFFFBLLL"), Some(0));
}

const DAY06_INPUT: &'static str = "abc

a
b
c

ab
ac

a
a
a
a

b";

#[test]
fn day06_test_star_one() {
    assert_eq!(day06::star_one(DAY06_INPUT), Some(11));
}

#[test]
fn day06_test_star_two() {
    assert_eq!(day06::star_two(DAY06_INPUT), Some(6));
}

#[test]
fn day06_lines_as_they_stand() {
    assert_eq!(day06::star_one("a b\r\nb a\n"), Some(3));
    assert_eq!(day06::star_two("a\n\n\nb"), Some(1));
    assert_eq!(day06::star_two(""), Some(0));
}

const DAY09_INPUT: &'static str = "35
20
15
25
47
40
62
55
65
95
102
117
150
182
127
219
299
277
309
576";

#[test]
fn day09_test_star_one() {
    assert_eq!(day09::star_one(DAY09_INPUT, 5), Some(127));
}

#[test]
fn day09_test_star_two() {
    assert_eq!(day09::star_two(DAY09_INPUT, 127), Some(62));
}

#[test]
fn day09_windows() {
    // 4 is 2 + 2 only with the same place taken twice
    assert_eq!(day09::star_one("1\n2\n4", 2), Some(4));
    assert_eq!(day09::star_one("2\n2\n4", 2), Some(0));
    assert_eq!(day09::star_one("1\n2\n3", 5), Some(0));
    assert_eq!(day09::star_two("1\n2\n3", 7), None);
    assert_eq!(day09::star_two("1\n2\n3", 6), Some(4));
}
