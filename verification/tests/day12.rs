use advent2020::day12::{rotate, star_one, star_two};
use advent2020::math::Vector2;

const DAY12_INPUT: &'static str = "F10
N3
F7
R90
F11";

#[test]
fn day12_test_star_one() {
    assert_eq!(star_one(DAY12_INPUT), Some(25));
}

#[test]
fn day12_test_star_two() {
    assert_eq!(star_two(DAY12_INPUT), Some(286));
}

#[test]
fn day12_turns() {
    assert_eq!(rotate(Vector2::new(10, 4), 90), Some(Vector2::new(-4, 10)));
    assert_eq!(rotate(Vector2::new(10, 4), -90), Some(Vector2::new(4, -10)));
    assert_eq!(rotate(Vector2::new(10, 4), 180), Some(Vector2::new(-10, -4)));
    assert_eq!(rotate(Vector2::new(10, 4), 270), Some(Vector2::new(4, -10)));
    assert_eq!(rotate(Vector2::new(10, 4), -360), Some(Vector2::new(10, 4)));
    assert_eq!(rotate(Vector2::new(10, 4), 45), None);
    assert_eq!(star_one("L90\nF5\nW2\nS1"), Some(6));
    assert_eq!(star_one("X5"), None);
    assert_eq!(star_one("F"), None);
    assert_eq!(star_one("F9223372036854775807\nF1"), None);
}
