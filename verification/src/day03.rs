//! Trees met on the way down a slope, on a map that repeats to the right.

use vstd::prelude::*;
use vstd::arithmetic::div_mod::lemma_add_mod_noop_right;
use crate::text::{lines, lines_spec, parse_all, parse_all_spec};

verus! {

/// What a square of the map holds.
#[derive(Debug, Clone, Copy, PartialEq, Eq)]
pub enum Location {
    Empty,
    Tree,
}

impl Location {
    /// The location that `c` draws: `#` a tree, `.` an open square.
    pub open spec fn try_from_spec(c: char) -> Option<Location> {
        if c == '#' {
            Some(Location::Tree)
        } else if c == '.' {
            Some(Location::Empty)
        } else {
            None
        }
    }

    pub fn try_from(c: char) -> (r: Option<Location>)
        ensures
            r == Location::try_from_spec(c),
    {
        if c == '#' {
            Some(Location::Tree)
        } else if c == '.' {
            Some(Location::Empty)
        } else {
            None
        }
    }
}

/// The row of the map that `line` draws; nothing where a character of it
/// draws no location.
pub open spec fn row_spec(line: Seq<char>) -> Option<Seq<Location>>
    decreases line.len(),
{
    if line.len() == 0 {
        Some(Seq::empty())
    } else {
        match (row_spec(line.drop_last()), Location::try_from_spec(line.last())) {
            (Some(before), Some(location)) => Some(before.push(location)),
            _ => None,
        }
    }
}

proof fn lemma_row_spec_fails_on(line: Seq<char>, k: int)
    requires
        0 <= k <= line.len(),
        row_spec(line.take(k)) is None,
    ensures
        row_spec(line) is None,
    decreases line.len(),
{
    if k == line.len() {
        assert(line.take(k) =~= line);
    } else {
        assert(line.drop_last().take(k) =~= line.take(k));
        lemma_row_spec_fails_on(line.drop_last(), k);
    }
}

/// Reads a row of the map.
pub fn row(line: &Vec<char>) -> (r: Option<Vec<Location>>)
    ensures
        match r {
            Some(found) => row_spec(line@) == Some(found@),
            None => row_spec(line@) is None,
        },
{
    let mut found: Vec<Location> = Vec::new();
    let mut i: usize = 0;
    while i < line.len()
        invariant
            i <= line.len(),
            row_spec(line@.take(i as int)) == Some(found@),
        decreases line.len() - i,
    {
        proof {
            assert(line@.take(i + 1).drop_last() =~= line@.take(i as int));
            assert(line@.take(i + 1).last() == line@[i as int]);
        }
        match Location::try_from(line[i]) {
            Some(location) => {
                found.push(location);
            },
            None => {
                proof {
                    lemma_row_spec_fails_on(line@, i + 1);
                }
                return None;
            },
        }
        i += 1;
    }
    assert(line@.take(line.len() as int) =~= line@);
    Some(found)
}

/// The map: its rows from the top down.
#[derive(Debug, Clone)]
pub struct World {
    pub locations: Vec<Vec<Location>>,
}

/// The rows of a map as plain values.
pub open spec fn rows_of(locations: Seq<Vec<Location>>) -> Seq<Seq<Location>> {
    locations.map_values(|row: Vec<Location>| row@)
}

/// The square at `x`, `y`, where the map repeats to the right with the
/// width of its first row; nothing where `y` is below the map, or where the
/// row is too short.
pub open spec fn at(rows: Seq<Seq<Location>>, x: int, y: int) -> Option<Location> {
    if 0 <= y < rows.len() && rows[0].len() > 0 && 0 <= x % (rows[0].len() as int)
        < rows[y].len() {
        Some(rows[y][x % (rows[0].len() as int)])
    } else {
        None
    }
}

/// How many trees stand on the squares that are met from `x`, `y` on, going
/// `xdelta` to the right and `ydelta` down at a time, until the map is left
/// at the bottom; nothing where a square that is met is missing.
pub open spec fn trees_from(
    rows: Seq<Seq<Location>>,
    xdelta: nat,
    ydelta: nat,
    x: int,
    y: int,
) -> Option<nat>
    decreases
        (if y < rows.len() {
            rows.len() - y
        } else {
            0
        }),
{
    if 0 <= y < rows.len() && ydelta > 0 {
        let below = trees_from(rows, xdelta, ydelta, x + xdelta, y + ydelta);
        match (at(rows, x, y), below) {
            (Some(location), Some(n)) => Some(
                if location == Location::Tree {
                    n + 1
                } else {
                    n
                },
            ),
            _ => None,
        }
    } else {
        Some(0)
    }
}


/// [`row_spec`] as a value.
pub open spec fn row_fn() -> spec_fn(Seq<char>) -> Option<Seq<Location>> {
    |line: Seq<char>| row_spec(line)
}

/// The map that `input` draws, a row on each line that holds more than white
/// space; nothing where a character draws no location.
pub open spec fn world_spec(input: Seq<char>) -> Option<Seq<Seq<Location>>> {
    parse_all_spec(lines_spec(input), row_fn())
}

impl World {
    /// The rows of the map as plain values.
    pub open spec fn rows(&self) -> Seq<Seq<Location>> {
        rows_of(self.locations@)
    }

    /// Reads the map.
    pub fn from_str(input: &str) -> (r: Option<World>)
        ensures
            match r {
                Some(world) => world_spec(input@) == Some(world.rows()),
                None => world_spec(input@) is None,
            },
    {
        let found = lines(input);
        let read = |line: &Vec<char>| -> (r: Option<Vec<Location>>)
            ensures
                match r {
                    Some(found) => row_spec(line@) == Some(found@),
                    None => row_spec(line@) is None,
                },
            { row(line) };
        match parse_all::<Vec<Location>, Seq<Location>, _>(
            &found,
            read,
            Ghost(row_fn()),
            Ghost(|row: Vec<Location>| row@),
        ) {
            Some(locations) => Some(World { locations }),
            None => None,
        }
    }

    /// Whether the row `y` is below the map.
    pub fn is_past_end(&self, y: usize) -> (past: bool)
        ensures
            past == (y >= self.rows().len()),
    {
        y >= self.locations.len()
    }

    /// The square at `x`, `y`.
    pub fn index(&self, x: usize, y: usize) -> (r: Option<Location>)
        ensures
            r == at(self.rows(), x as int, y as int),
    {
        if y >= self.locations.len() {
            return None;
        }
        let width = self.locations[0].len();
        if width == 0 {
            return None;
        }
        let column = x % width;
        if column >= self.locations[y].len() {
            return None;
        }
        Some(self.locations[y][column])
    }
}

/// How many trees are met on the way down the slope that goes `xdelta` to
/// the right and `ydelta` down at a time, from the top left square on.
pub fn check_slope(world: &World, xdelta: usize, ydelta: usize) -> (r: Option<usize>)
    requires
        ydelta > 0,
    ensures
        match r {
            Some(n) => trees_from(world.rows(), xdelta as nat, ydelta as nat, 0, 0) == Some(
                n as nat,
            ),
            None => trees_from(world.rows(), xdelta as nat, ydelta as nat, 0, 0) is None,
        },
{
    let ghost rows = world.rows();
    if world.locations.len() == 0 {
        return Some(0);
    }
    let width = world.locations[0].len();
    if width == 0 {
        return None;
    }
    let mut n: usize = 0;
    let mut x: usize = 0;
    let mut y: usize = 0;
    let ghost mut far: int = 0;
    while !world.is_past_end(y)
        invariant
            rows == world.rows(),
            rows.len() == world.locations.len(),
            ydelta > 0,
            x < width,
            width == rows[0].len(),
            width > 0,
            rows.len() > 0,
            n <= y,
            0 <= far,
            x == far % (width as int),
            trees_from(rows, xdelta as nat, ydelta as nat, 0, 0) == (match trees_from(
                rows,
                xdelta as nat,
                ydelta as nat,
                far,
                y as int,
            ) {
                Some(m) => Some((m + n) as nat),
                None => None,
            }),
        decreases
            (if y < rows.len() {
                rows.len() - y
            } else {
                0
            }),
    {
        proof {
            vstd::arithmetic::div_mod::lemma_small_mod(x as nat, width as nat);
            assert(at(rows, x as int, y as int) == at(rows, far, y as int));
        }
        let here = match world.index(x, y) {
            Some(here) => here,
            None => {
                return None;
            },
        };
        match here {
            Location::Tree => {
                n += 1;
            },
            Location::Empty => {},
        }
        proof {
            lemma_add_mod_noop_right(xdelta as int, far, width as int);
            assert((xdelta + x) % (width as int) == (far + xdelta) % (width as int));
            far = far + xdelta;
        }
        x = ((x as u128 + xdelta as u128) % (width as u128)) as usize;
        y = match y.checked_add(ydelta) {
            Some(next) => next,
            None => {
                assert(trees_from(rows, xdelta as nat, ydelta as nat, far, y + ydelta) == Some(
                    0nat,
                ));
                return Some(n);
            },
        };
    }
    Some(n)
}

/// The slopes that are tried, each as the steps to the right and down.
pub open spec fn slopes() -> Seq<(nat, nat)> {
    seq![(1, 1), (3, 1), (5, 1), (7, 1), (1, 2)]
}

/// The product of the numbers of trees met on each of `slopes`; nothing
/// where a square that is met is missing, or where the product does not fit.
pub open spec fn product_of_slopes(rows: Seq<Seq<Location>>, slopes: Seq<(nat, nat)>) -> Option<
    nat,
>
    decreases slopes.len(),
{
    if slopes.len() == 0 {
        Some(1)
    } else {
        match (
            product_of_slopes(rows, slopes.drop_last()),
            trees_from(rows, slopes.last().0, slopes.last().1, 0, 0),
        ) {
            (Some(product), Some(trees)) => if product * trees <= usize::MAX {
                Some(product * trees)
            } else {
                None
            },
            _ => None,
        }
    }
}

proof fn lemma_product_of_slopes_fails_on(
    rows: Seq<Seq<Location>>,
    slopes: Seq<(nat, nat)>,
    k: int,
)
    requires
        0 <= k <= slopes.len(),
        product_of_slopes(rows, slopes.take(k)) is None,
    ensures
        product_of_slopes(rows, slopes) is None,
    decreases slopes.len(),
{
    if k == slopes.len() {
        assert(slopes.take(k) =~= slopes);
    } else {
        assert(slopes.drop_last().take(k) =~= slopes.take(k));
        lemma_product_of_slopes_fails_on(rows, slopes.drop_last(), k);
    }
}

/// What [`star_one`] yields: the trees met going three to the right and one
/// down at a time.
pub open spec fn star_one_spec(input: Seq<char>) -> Option<nat> {
    match world_spec(input) {
        Some(rows) => trees_from(rows, 3, 1, 0, 0),
        None => None,
    }
}

/// What [`star_two`] yields: the product of the trees met on each of
/// [`slopes`].
pub open spec fn star_two_spec(input: Seq<char>) -> Option<nat> {
    match world_spec(input) {
        Some(rows) => product_of_slopes(rows, slopes()),
        None => None,
    }
}

pub fn star_one(input: &str) -> (r: Option<usize>)
    ensures
        match r {
            Some(n) => star_one_spec(input@) == Some(n as nat),
            None => star_one_spec(input@) is None,
        },
{
    match World::from_str(input) {
        Some(world) => check_slope(&world, 3, 1),
        None => None,
    }
}

pub fn star_two(input: &str) -> (r: Option<usize>)
    ensures
        match r {
            Some(n) => star_two_spec(input@) == Some(n as nat),
            None => star_two_spec(input@) is None,
        },
{
    let world = match World::from_str(input) {
        Some(world) => world,
        None => {
            return None;
        },
    };
    let mut tried: Vec<(usize, usize)> = Vec::new();
    tried.push((1, 1));
    tried.push((3, 1));
    tried.push((5, 1));
    tried.push((7, 1));
    tried.push((1, 2));
    let ghost rows = world.rows();
    assert(tried@.map_values(|s: (usize, usize)| (s.0 as nat, s.1 as nat)) =~= slopes());
    let mut product: usize = 1;
    let mut i: usize = 0;
    while i < tried.len()
        invariant
            i <= tried.len(),
            rows == world.rows(),
            world_spec(input@) == Some(rows),
            tried@.map_values(|s: (usize, usize)| (s.0 as nat, s.1 as nat)) == slopes(),
            forall|k: int| 0 <= k < tried.len() ==> (#[trigger] tried@[k]).1 > 0,
            product_of_slopes(rows, slopes().take(i as int)) == Some(product as nat),
        decreases tried.len() - i,
    {
        let (xdelta, ydelta) = tried[i];
        proof {
            let upto = slopes().take(i + 1);
            assert(upto.drop_last() =~= slopes().take(i as int));
            assert(upto.last() == (xdelta as nat, ydelta as nat));
        }
        let trees = match check_slope(&world, xdelta, ydelta) {
            Some(trees) => trees,
            None => {
                proof {
                    lemma_product_of_slopes_fails_on(rows, slopes(), i + 1);
                }
                return None;
            },
        };
        product = match product.checked_mul(trees) {
            Some(product) => product,
            None => {
                proof {
                    lemma_product_of_slopes_fails_on(rows, slopes(), i + 1);
                }
                return None;
            },
        };
        i += 1;
    }
    assert(slopes().take(tried.len() as int) =~= slopes());
    Some(product)
}

} // verus!
