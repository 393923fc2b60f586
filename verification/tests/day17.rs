use advent2020::day17::{row, star_one, star_two, State, World};

const INPUT: &'static str = ".#.
..#
###";

#[test]
fn day17_test_star_one() {
    assert_eq!(star_one(INPUT), Some(112));
}

#[test]
fn day17_test_star_two() {
    assert_eq!(star_two(INPUT), Some(848));
}

#[test]
fn day17_one_change() {
    let world = World::from_str(INPUT, false).unwrap();
    assert_eq!(world.size, (3, 3, 1, 1));
    assert_eq!(world.active_cubes(), Some(5));
    assert_eq!(world.neighbours(1, 1, 0, 0), 5);
    assert_eq!(world.neighbours(1, 1, 1, 0), 5);
    assert_eq!(world.neighbours(1, 1, 1, 1), 0);
    assert_eq!(world.neighbours(-1, 3, 0, 0), 1);
    assert_eq!(world.state(1, 0, 0, 0), State::Active);
    assert_eq!(world.state(0, 0, 0, 0), State::Inactive);
    assert_eq!(world.state(1, 0, 1, 0), State::Inactive);
    assert!(!world.is_alive(-1, 0, 0, 0));
    let next = world.tick().unwrap();
    assert_eq!(next.size, (5, 5, 3, 1));
    assert_eq!(next.active_cubes(), Some(11));
    // the plane in the middle, one cube wider on each side
    assert_eq!(
        next.cells[0][1],
        vec![
            vec![false, false, false, false, false],
            vec![false, false, false, false, false],
            vec![false, true, false, true, false],
            vec![false, false, true, true, false],
            vec![false, false, true, false, false],
        ]
    );
    let world = World::from_str(INPUT, true).unwrap();
    assert_eq!(world.neighbours(1, 1, 1, 1), 5);
    let next = world.tick().unwrap();
    assert_eq!(next.size, (5, 5, 3, 3));
    assert_eq!(next.active_cubes(), Some(29));
}

#[test]
fn day17_planes_that_cannot_be_read() {
    assert_eq!(star_one("#x"), None);
    assert_eq!(star_one(""), Some(0));
    assert_eq!(star_one("#"), Some(0));
    assert_eq!(star_two("##\n#"), star_two("##\n#."));
    assert_eq!(row(&vec!['#', '.']), Some(vec![true, false]));
    assert_eq!(row(&vec!['#', 'L']), None);
}
