use advent2020::day11::{star_one, star_two, Location, SeatMap};
use advent2020::math::Vector2;

const INPUT: &'static str = "L.LL.LL.LL
LLLLLLL.LL
L.L.L..L..
LLLL.LL.LL
L.LL.LL.LL
L.LLLLL.LL
..L.L.....
LLLLLLLLLL
L.LLLLLL.L
L.LLLLL.LL";

#[test]
fn day11_test_star_one() {
    assert_eq!(star_one(INPUT), Some(37));
}

#[test]
fn day11_test_star_two() {
    assert_eq!(star_two(INPUT), Some(26));
}

#[test]
fn day11_one_change() {
    let map = SeatMap::from_str(INPUT).unwrap();
    let map = map.tick(true);
    assert_eq!(
        map.to_string(),
        "#.##.##.##
#######.##
#.#.#..#..
####.##.##
#.##.##.##
#.#####.##
..#.#.....
##########
#.######.#
#.#####.##"
    );
    let map = map.tick(true);
    assert_eq!(
        map.to_string(),
        "#.LL.L#.##
#LLLLLL.L#
L.L.L..L..
#LLL.LL.L#
#.LL.LL.LL
#.LLLL#.##
..L.L.....
#LLLLLLLL#
#.LLLLLL.L
#.#LLLL.##"
    );
    let map = SeatMap::from_str(INPUT).unwrap().tick(false).tick(false);
    assert_eq!(
        map.to_string(),
        "#.LL.LL.L#
#LLLLLL.LL
L.L.L..L..
LLLL.LL.LL
L.LL.LL.LL
L.LLLLL.LL
..L.L.....
LLLLLLLLL#
#.LLLLLL.L
#.LLLLL.L#"
    );
}

#[test]
fn day11_what_is_seen() {
    let map = SeatMap::from_str(
        ".......#.
...#.....
.#.......
.........
..#L....#
....#....
.........
#........
...#.....",
    )
    .unwrap();
    assert_eq!(
        map.visible_seats(Vector2::new(3, 4)),
        vec![Location::FilledSeat; 8]
    );
    assert_eq!(
        map.adjacent_seats(Vector2::new(3, 4)),
        vec![
            Location::FilledSeat,
            Location::Floor,
            Location::Floor,
            Location::FilledSeat,
            Location::Floor,
            Location::Floor,
            Location::Floor,
            Location::Floor
        ]
    );
    assert_eq!(map.adjacent_seats(Vector2::new(0, 0)).len(), 3);
    assert_eq!(map.adjacent_seats(Vector2::new(-5, 0)).len(), 0);
    assert!(map.is_out_of_bounds(Vector2::new(9, 0)));
    assert!(map.is_out_of_bounds(Vector2::new(0, -1)));
    assert!(!map.is_out_of_bounds(Vector2::new(8, 8)));
    let map = SeatMap::from_str(".............\n.L.L.#.#.#.#.\n.............").unwrap();
    assert_eq!(
        map.visible_seats(Vector2::new(1, 1)),
        vec![Location::EmptySeat]
    );
    assert_eq!(
        map.apply_visible_rule((Vector2::new(1, 1), Location::EmptySeat)),
        Location::FilledSeat
    );
    assert_eq!(
        map.apply_adjacent_rule((Vector2::new(6, 1), Location::FilledSeat)),
        Location::FilledSeat
    );
    assert_eq!(map.all_seats().len(), 39);
}

#[test]
fn day11_rooms_that_cannot_be_read() {
    assert_eq!(star_one("L.x"), None);
    assert_eq!(star_one(""), Some(0));
    assert_eq!(star_one("L"), Some(1));
    assert_eq!(star_two("#\n##\n#.#"), Some(5));
    assert_eq!(Location::try_from('L'), Some(Location::EmptySeat));
    assert_eq!(Location::try_from('x'), None);
    assert_eq!(Location::FilledSeat.as_char(), '#');
    assert_eq!(SeatMap::from_str("").unwrap().to_string(), "");
}
