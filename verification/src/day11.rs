//! A waiting room whose seats fill and empty by what the people see around
//! them, until nothing new comes of it.

use vstd::prelude::*;
use itertools::Itertools;
use crate::math::Vector2;
use crate::text::{lines, lines_spec, parse_all, parse_all_spec, push_char};

verus! {

/// What a place of the room holds.
#[derive(Debug, Clone, Copy, PartialEq, Eq, Hash, Structural)]
pub enum Location {
    Floor,
    FilledSeat,
    EmptySeat,
}

impl Location {
    /// The location that `c` draws.
    pub open spec fn try_from_spec(c: char) -> Option<Location> {
        if c == '#' {
            Some(Location::FilledSeat)
        } else if c == 'L' {
            Some(Location::EmptySeat)
        } else if c == '.' {
            Some(Location::Floor)
        } else {
            None
        }
    }

    pub fn try_from(c: char) -> (r: Option<Location>)
        ensures
            r == Location::try_from_spec(c),
    {
        if c == '#' {
            Some(Location::FilledSeat)
        } else if c == 'L' {
            Some(Location::EmptySeat)
        } else if c == '.' {
            Some(Location::Floor)
        } else {
            None
        }
    }

    /// The character that draws the location.
    pub fn as_char(&self) -> (c: char)
        ensures
            Location::try_from_spec(c) == Some(*self),
    {
        match self {
            Location::Floor => '.',
            Location::FilledSeat => '#',
            Location::EmptySeat => 'L',
        }
    }
}

/// The room as plain values: its rows from the top down.
pub type Grid = Seq<Seq<Location>>;

/// What stands at the column `x` of the row `y`; nothing outside the room.
pub open spec fn at(grid: Grid, x: int, y: int) -> Option<Location> {
    if 0 <= y < grid.len() && 0 <= x < grid[y].len() {
        Some(grid[y][x])
    } else {
        None
    }
}

/// The eight directions, as steps along the row and from row to row.
pub open spec fn directions() -> Seq<(int, int)> {
    seq![(-1, 0), (-1, 1), (0, 1), (1, 1), (1, 0), (1, -1), (0, -1), (-1, -1)]
}

/// What stands next to the place `x`, `y` in the first `k` directions, as far
/// as the room reaches.
pub open spec fn adjacent_spec(grid: Grid, x: int, y: int, k: int) -> Seq<Location>
    decreases k,
{
    if k <= 0 || k > 8 {
        Seq::empty()
    } else {
        match at(grid, x + directions()[k - 1].0, y + directions()[k - 1].1) {
            Some(l) => adjacent_spec(grid, x, y, k - 1).push(l),
            None => adjacent_spec(grid, x, y, k - 1),
        }
    }
}

/// How far the room reaches from the place `x`, `y` in the direction `dx`,
/// `dy`.
pub open spec fn room(grid: Grid, x: int, y: int, dx: int, dy: int) -> int {
    if !(0 <= y < grid.len() && 0 <= x < grid[y].len()) {
        0
    } else if dy > 0 {
        grid.len() - y
    } else if dy < 0 {
        y + 1
    } else if dx > 0 {
        grid[y].len() - x
    } else if dx < 0 {
        x + 1
    } else {
        0
    }
}

/// The first seat from the place `x`, `y` on in the direction `dx`, `dy`;
/// nothing where the room ends before a seat comes.
pub open spec fn first_seat(grid: Grid, x: int, y: int, dx: int, dy: int) -> Option<Location>
    decreases room(grid, x, y, dx, dy),
{
    match at(grid, x, y) {
        None => None,
        Some(Location::Floor) => if dx != 0 || dy != 0 {
            first_seat(grid, x + dx, y + dy, dx, dy)
        } else {
            None
        },
        Some(seat) => Some(seat),
    }
}

/// The seats that are seen from the place `x`, `y` in the first `k`
/// directions: in each the first seat, if there is one.
pub open spec fn visible_spec(grid: Grid, x: int, y: int, k: int) -> Seq<Location>
    decreases k,
{
    if k <= 0 || k > 8 {
        Seq::empty()
    } else {
        match first_seat(
            grid,
            x + directions()[k - 1].0,
            y + directions()[k - 1].1,
            directions()[k - 1].0,
            directions()[k - 1].1,
        ) {
            Some(l) => visible_spec(grid, x, y, k - 1).push(l),
            None => visible_spec(grid, x, y, k - 1),
        }
    }
}

/// How many of `seen` are filled seats.
pub open spec fn count_filled(seen: Seq<Location>) -> nat
    decreases seen.len(),
{
    if seen.len() == 0 {
        0
    } else if seen.last() == Location::FilledSeat {
        count_filled(seen.drop_last()) + 1
    } else {
        count_filled(seen.drop_last())
    }
}

/// What becomes of `l` where `seen` is around it: an empty seat fills where
/// no filled seat is seen, a filled seat empties where `tolerance` filled
/// seats or more are, and all else stays.
pub open spec fn apply_rule_spec(l: Location, seen: Seq<Location>, tolerance: nat) -> Location {
    match l {
        Location::Floor => Location::Floor,
        Location::EmptySeat => if count_filled(seen) == 0 {
            Location::FilledSeat
        } else {
            Location::EmptySeat
        },
        Location::FilledSeat => if count_filled(seen) >= tolerance {
            Location::EmptySeat
        } else {
            Location::FilledSeat
        },
    }
}

/// What becomes of the place `x`, `y`: by the seats next to it and a
/// tolerance of four, or by the seats seen from it and a tolerance of five.
pub open spec fn next_spec(grid: Grid, use_adjacent_rule: bool, x: int, y: int) -> Location {
    if use_adjacent_rule {
        apply_rule_spec(grid[y][x], adjacent_spec(grid, x, y, 8), 4)
    } else {
        apply_rule_spec(grid[y][x], visible_spec(grid, x, y, 8), 5)
    }
}

/// The room after all its places have changed at once.
pub open spec fn tick_spec(grid: Grid, use_adjacent_rule: bool) -> Grid {
    Seq::new(
        grid.len(),
        |y: int| Seq::new(grid[y].len(), |x: int| next_spec(grid, use_adjacent_rule, x, y)),
    )
}

/// The room after `k` changes.
pub open spec fn state(grid: Grid, use_adjacent_rule: bool, k: nat) -> Grid
    decreases k,
{
    if k == 0 {
        grid
    } else {
        tick_spec(state(grid, use_adjacent_rule, (k - 1) as nat), use_adjacent_rule)
    }
}

/// Whether the room after `k` changes is as it was after fewer changes.
pub open spec fn seen_before(grid: Grid, use_adjacent_rule: bool, k: nat) -> bool {
    exists|j: nat|
        j < k && #[trigger] state(grid, use_adjacent_rule, j) == state(
            grid,
            use_adjacent_rule,
            k,
        )
}

/// The room after the least number of changes, `k` or more, after which it
/// is as it was before; nothing where that takes more than `limit` changes.
pub open spec fn stable_from(grid: Grid, use_adjacent_rule: bool, k: nat, limit: nat) -> Option<
    Grid,
>
    decreases limit + 1 - k,
{
    if k > limit {
        None
    } else if seen_before(grid, use_adjacent_rule, k) {
        Some(state(grid, use_adjacent_rule, k))
    } else {
        stable_from(grid, use_adjacent_rule, k + 1, limit)
    }
}

/// The rows as plain values.
pub open spec fn grid_view(seats: Seq<Vec<Location>>) -> Grid {
    Seq::new(seats.len(), |y: int| seats[y]@)
}

/// The room.
#[derive(Debug)]
pub struct SeatMap {
    pub seats: Vec<Vec<Location>>,
}

impl View for SeatMap {
    type V = Grid;

    open spec fn view(&self) -> Grid {
        grid_view(self.seats@)
    }
}

/// The direction `k`.
pub fn direction(k: usize) -> (d: (isize, isize))
    requires
        k < 8,
    ensures
        (d.0 as int, d.1 as int) == directions()[k as int],
        -1 <= d.0 <= 1,
        -1 <= d.1 <= 1,
        d.0 != 0 || d.1 != 0,
{
    if k == 0 {
        (-1, 0)
    } else if k == 1 {
        (-1, 1)
    } else if k == 2 {
        (0, 1)
    } else if k == 3 {
        (1, 1)
    } else if k == 4 {
        (1, 0)
    } else if k == 5 {
        (1, -1)
    } else if k == 6 {
        (0, -1)
    } else {
        (-1, -1)
    }
}

/// How many of `seen` are filled seats.
pub fn filled(seen: &Vec<Location>) -> (n: usize)
    ensures
        n == count_filled(seen@),
{
    let mut n: usize = 0;
    let mut i: usize = 0;
    while i < seen.len()
        invariant
            i <= seen.len(),
            n <= i,
            n == count_filled(seen@.take(i as int)),
        decreases seen.len() - i,
    {
        proof {
            assert(seen@.take(i + 1).drop_last() =~= seen@.take(i as int));
            assert(seen@.take(i + 1).last() == seen@[i as int]);
        }
        if seen[i] == Location::FilledSeat {
            n += 1;
        }
        i += 1;
    }
    assert(seen@.take(seen.len() as int) =~= seen@);
    n
}

/// What becomes of `l` where `seen` is around it.
pub fn apply_rule(l: Location, seen: &Vec<Location>, tolerance: usize) -> (next: Location)
    ensures
        next == apply_rule_spec(l, seen@, tolerance as nat),
{
    match l {
        Location::Floor => Location::Floor,
        Location::EmptySeat => if filled(seen) == 0 {
            Location::FilledSeat
        } else {
            Location::EmptySeat
        },
        Location::FilledSeat => if filled(seen) >= tolerance {
            Location::EmptySeat
        } else {
            Location::FilledSeat
        },
    }
}

impl SeatMap {
    /// What stands at the column `x` of the row `y`.
    pub fn get(&self, x: i128, y: i128) -> (l: Option<Location>)
        ensures
            l == at(self@, x as int, y as int),
    {
        if y < 0 || y >= self.seats.len() as i128 {
            return None;
        }
        let row = &self.seats[y as usize];
        if x < 0 || x >= row.len() as i128 {
            return None;
        }
        Some(row[x as usize])
    }

    /// Whether `location` lies outside the room.
    pub fn is_out_of_bounds(&self, location: Vector2<isize>) -> (out: bool)
        ensures
            out == at(self@, location.x as int, location.y as int) is None,
    {
        self.get(location.x as i128, location.y as i128).is_none()
    }

    /// What stands next to `to`, direction by direction.
    pub fn adjacent_seats(&self, to: Vector2<isize>) -> (seen: Vec<Location>)
        ensures
            seen@ == adjacent_spec(self@, to.x as int, to.y as int, 8),
    {
        self.adjacent_at(to.x as i128, to.y as i128)
    }

    /// What stands next to the place `x`, `y`, direction by direction.
    pub fn adjacent_at(&self, x: i128, y: i128) -> (seen: Vec<Location>)
        requires
            -(u64::MAX as int) <= x as int <= u64::MAX as int,
            -(u64::MAX as int) <= y as int <= u64::MAX as int,
        ensures
            seen@ == adjacent_spec(self@, x as int, y as int, 8),
    {
        let mut seen: Vec<Location> = Vec::new();
        let mut k: usize = 0;
        while k < 8
            invariant
                k <= 8,
                -(u64::MAX as int) <= x as int <= u64::MAX as int,
                -(u64::MAX as int) <= y as int <= u64::MAX as int,
                seen@ == adjacent_spec(self@, x as int, y as int, k as int),
            decreases 8 - k,
        {
            let (dx, dy) = direction(k);
            match self.get(x + dx as i128, y + dy as i128) {
                Some(l) => {
                    seen.push(l);
                },
                None => {},
            }
            k += 1;
        }
        seen
    }

    /// The first seat from the place `x`, `y` on in the direction `dx`, `dy`.
    #[verifier::loop_isolation(false)]
    pub fn look(&self, x: i128, y: i128, dx: isize, dy: isize) -> (seat: Option<Location>)
        requires
            -1 <= dx <= 1,
            -1 <= dy <= 1,
            dx != 0 || dy != 0,
            -(u64::MAX as int) <= x as int <= u64::MAX as int + 1,
            -(u64::MAX as int) <= y as int <= u64::MAX as int + 1,
        ensures
            seat == first_seat(self@, x as int, y as int, dx as int, dy as int),
    {
        let ghost from = (x as int, y as int);
        let mut x = x;
        let mut y = y;
        loop
            invariant
                -1 <= dx <= 1,
                -1 <= dy <= 1,
                dx != 0 || dy != 0,
                -(u64::MAX as int) <= x as int <= u64::MAX as int + 1,
                -(u64::MAX as int) <= y as int <= u64::MAX as int + 1,
                first_seat(self@, from.0, from.1, dx as int, dy as int)
                    == first_seat(self@, x as int, y as int, dx as int, dy as int),
            decreases room(self@, x as int, y as int, dx as int, dy as int),
        {
            match self.get(x, y) {
                None => {
                    return None;
                },
                Some(Location::Floor) => {
                    proof {
                        let height = self.seats.len();
                        let width = self.seats@[y as int].len();
                        assert(0 <= y < height && 0 <= x < width);
                    }
                    x = x + dx as i128;
                    y = y + dy as i128;
                },
                Some(seat) => {
                    return Some(seat);
                },
            }
        }
    }

    /// The seats that are seen from `to`, direction by direction.
    pub fn visible_seats(&self, to: Vector2<isize>) -> (seen: Vec<Location>)
        ensures
            seen@ == visible_spec(self@, to.x as int, to.y as int, 8),
    {
        self.visible_at(to.x as i128, to.y as i128)
    }

    /// The seats that are seen from the place `x`, `y`, direction by
    /// direction.
    pub fn visible_at(&self, x: i128, y: i128) -> (seen: Vec<Location>)
        requires
            -(u64::MAX as int) + 1 <= x as int <= u64::MAX as int,
            -(u64::MAX as int) + 1 <= y as int <= u64::MAX as int,
        ensures
            seen@ == visible_spec(self@, x as int, y as int, 8),
    {
        let mut seen: Vec<Location> = Vec::new();
        let mut k: usize = 0;
        while k < 8
            invariant
                k <= 8,
                -(u64::MAX as int) + 1 <= x as int <= u64::MAX as int,
                -(u64::MAX as int) + 1 <= y as int <= u64::MAX as int,
                seen@ == visible_spec(self@, x as int, y as int, k as int),
            decreases 8 - k,
        {
            let (dx, dy) = direction(k);
            match self.look(x + dx as i128, y + dy as i128, dx, dy) {
                Some(l) => {
                    seen.push(l);
                },
                None => {},
            }
            k += 1;
        }
        seen
    }

    /// What becomes of the location `to.1` at the place `to.0` by the seats
    /// next to it.
    pub fn apply_adjacent_rule(&self, to: (Vector2<isize>, Location)) -> (next: Location)
        ensures
            next == apply_rule_spec(to.1, adjacent_spec(self@, to.0.x as int, to.0.y as int, 8), 4),
    {
        apply_rule(to.1, &self.adjacent_seats(to.0), 4)
    }

    /// What becomes of the location `to.1` at the place `to.0` by the seats
    /// seen from it.
    pub fn apply_visible_rule(&self, to: (Vector2<isize>, Location)) -> (next: Location)
        ensures
            next == apply_rule_spec(to.1, visible_spec(self@, to.0.x as int, to.0.y as int, 8), 5),
    {
        apply_rule(to.1, &self.visible_seats(to.0), 5)
    }
}


/// The places of `grid`, row after row.
pub open spec fn all_seats_spec(grid: Grid) -> Seq<Location>
    decreases grid.len(),
{
    if grid.len() == 0 {
        Seq::empty()
    } else {
        all_seats_spec(grid.drop_last()) + grid.last()
    }
}

/// The row that `line` draws; nothing where a character draws no location.
pub open spec fn row_spec(line: Seq<char>) -> Option<Seq<Location>>
    decreases line.len(),
{
    if line.len() == 0 {
        Some(Seq::empty())
    } else {
        match (row_spec(line.drop_last()), Location::try_from_spec(line.last())) {
            (Some(before), Some(location)) => Some(before.push(location)),
            _ => None,
        }
    }
}

proof fn lemma_row_spec_fails_on(line: Seq<char>, k: int)
    requires
        0 <= k <= line.len(),
        row_spec(line.take(k)) is None,
    ensures
        row_spec(line) is None,
    decreases line.len(),
{
    if k == line.len() {
        assert(line.take(k) =~= line);
    } else {
        assert(line.drop_last().take(k) =~= line.take(k));
        lemma_row_spec_fails_on(line.drop_last(), k);
    }
}

/// [`row_spec`] as a value.
pub open spec fn row_fn() -> spec_fn(Seq<char>) -> Option<Seq<Location>> {
    |line: Seq<char>| row_spec(line)
}

/// Reads a row of the room.
pub fn row(line: &Vec<char>) -> (r: Option<Vec<Location>>)
    ensures
        match r {
            Some(found) => row_spec(line@) == Some(found@),
            None => row_spec(line@) is None,
        },
{
    let mut found: Vec<Location> = Vec::new();
    let mut i: usize = 0;
    while i < line.len()
        invariant
            i <= line.len(),
            row_spec(line@.take(i as int)) == Some(found@),
        decreases line.len() - i,
    {
        proof {
            assert(line@.take(i + 1).drop_last() =~= line@.take(i as int));
            assert(line@.take(i + 1).last() == line@[i as int]);
        }
        match Location::try_from(line[i]) {
            Some(location) => {
                found.push(location);
            },
            None => {
                proof {
                    lemma_row_spec_fails_on(line@, i + 1);
                }
                return None;
            },
        }
        i += 1;
    }
    assert(line@.take(line.len() as int) =~= line@);
    Some(found)
}

/// Whether the two rooms are the same.
pub fn same_seats(a: &Vec<Vec<Location>>, b: &Vec<Vec<Location>>) -> (equal: bool)
    ensures
        equal == (grid_view(a@) == grid_view(b@)),
{
    if a.len() != b.len() {
        assert(grid_view(a@).len() != grid_view(b@).len());
        return false;
    }
    let mut y: usize = 0;
    while y < a.len()
        invariant
            y <= a.len(),
            a.len() == b.len(),
            forall|k: int| 0 <= k < y ==> (#[trigger] a@[k])@ == b@[k]@,
        decreases a.len() - y,
    {
        if a[y].len() != b[y].len() {
            assert(grid_view(a@)[y as int].len() != grid_view(b@)[y as int].len());
            return false;
        }
        let mut x: usize = 0;
        while x < a[y].len()
            invariant
                y < a.len(),
                a.len() == b.len(),
                x <= a@[y as int]@.len(),
                a@[y as int]@.len() == b@[y as int]@.len(),
                forall|k: int| 0 <= k < x ==> a@[y as int]@[k] == b@[y as int]@[k],
            decreases a@[y as int]@.len() - x,
        {
            if a[y][x] != b[y][x] {
                assert(grid_view(a@)[y as int][x as int] != grid_view(b@)[y as int][x as int]);
                return false;
            }
            x += 1;
        }
        assert(a@[y as int]@ =~= b@[y as int]@);
        y += 1;
    }
    assert(grid_view(a@) =~= grid_view(b@));
    true
}

/// A copy of the room.
pub fn copy_seats(seats: &Vec<Vec<Location>>) -> (copy: Vec<Vec<Location>>)
    ensures
        grid_view(copy@) == grid_view(seats@),
{
    let mut copy: Vec<Vec<Location>> = Vec::new();
    let mut y: usize = 0;
    while y < seats.len()
        invariant
            y <= seats.len(),
            copy@.len() == y,
            forall|k: int| 0 <= k < y ==> (#[trigger] copy@[k])@ == seats@[k]@,
        decreases seats.len() - y,
    {
        let mut row: Vec<Location> = Vec::new();
        let mut x: usize = 0;
        while x < seats[y].len()
            invariant
                y < seats.len(),
                x <= seats@[y as int]@.len(),
                row@ == seats@[y as int]@.take(x as int),
            decreases seats@[y as int]@.len() - x,
        {
            row.push(seats[y][x]);
            assert(row@ =~= seats@[y as int]@.take(x + 1));
            x += 1;
        }
        assert(seats@[y as int]@.take(seats@[y as int]@.len() as int) =~= seats@[y as int]@);
        copy.push(row);
        y += 1;
    }
    assert(grid_view(copy@) =~= grid_view(seats@));
    copy
}

/// What `Itertools::intersperse` makes of `items` and `separator`: the
/// items with the separator between each two of them.
pub open spec fn interspersed(items: Seq<Seq<char>>, separator: Seq<char>) -> Seq<Seq<char>> {
    if items.len() == 0 {
        Seq::empty()
    } else {
        Seq::new(
            (2 * items.len() - 1) as nat,
            |i: int|
                if i % 2 == 0 {
                    items[i / 2]
                } else {
                    separator
                },
        )
    }
}

/// The texts that `items` hold.
pub open spec fn strings(items: Seq<String>) -> Seq<Seq<char>> {
    Seq::new(items.len(), |i: int| items[i]@)
}

/// `Itertools::intersperse`.
#[verifier::external_body]
fn intersperse(items: Vec<String>, separator: String) -> (r: Vec<String>)
    ensures
        strings(r@) == interspersed(strings(items@), separator@),
{
    Itertools::intersperse(items.into_iter(), separator).collect()
}

/// The texts of `items`, one after the other.
pub open spec fn concat(items: Seq<Seq<char>>) -> Seq<char>
    decreases items.len(),
{
    if items.len() == 0 {
        Seq::empty()
    } else {
        concat(items.drop_last()) + items.last()
    }
}

/// The characters that draw `row`.
pub open spec fn drawn(row: Seq<Location>) -> Seq<char> {
    Seq::new(
        row.len(),
        |x: int|
            match row[x] {
                Location::Floor => '.',
                Location::FilledSeat => '#',
                Location::EmptySeat => 'L',
            },
    )
}

impl SeatMap {
    /// The places of the room, row after row.
    pub fn all_seats(&self) -> (all: Vec<Location>)
        ensures
            all@ == all_seats_spec(self@),
    {
        let mut all: Vec<Location> = Vec::new();
        let mut y: usize = 0;
        assert(self@.take(0) =~= Seq::<Seq<Location>>::empty());
        while y < self.seats.len()
            invariant
                y <= self.seats.len(),
                all@ == all_seats_spec(self@.take(y as int)),
            decreases self.seats.len() - y,
        {
            let ghost before = all@;
            let mut x: usize = 0;
            while x < self.seats[y].len()
                invariant
                    y < self.seats.len(),
                    x <= self.seats@[y as int]@.len(),
                    all@ == before + self.seats@[y as int]@.take(x as int),
                decreases self.seats@[y as int]@.len() - x,
            {
                all.push(self.seats[y][x]);
                assert(all@ =~= before + self.seats@[y as int]@.take(x + 1));
                x += 1;
            }
            proof {
                assert(self.seats@[y as int]@.take(self.seats@[y as int]@.len() as int)
                    =~= self.seats@[y as int]@);
                assert(self@.take(y + 1).drop_last() =~= self@.take(y as int));
                assert(self@.take(y + 1).last() == self.seats@[y as int]@);
            }
            y += 1;
        }
        assert(self@.take(self.seats.len() as int) =~= self@);
        all
    }

    /// The room after all its places have changed at once.
    pub fn tick(self, use_adjacent_rule: bool) -> (next: SeatMap)
        ensures
            next@ == tick_spec(self@, use_adjacent_rule),
    {
        let mut seats: Vec<Vec<Location>> = Vec::new();
        let mut y: usize = 0;
        while y < self.seats.len()
            invariant
                y <= self.seats.len(),
                seats@.len() == y,
                forall|k: int|
                    0 <= k < y ==> (#[trigger] seats@[k])@ == tick_spec(self@, use_adjacent_rule)[k],
            decreases self.seats.len() - y,
        {
            let mut row: Vec<Location> = Vec::new();
            let mut x: usize = 0;
            while x < self.seats[y].len()
                invariant
                    y < self.seats.len(),
                    x <= self.seats@[y as int]@.len(),
                    row@.len() == x,
                    forall|k: int|
                        0 <= k < x ==> (#[trigger] row@[k]) == next_spec(
                            self@,
                            use_adjacent_rule,
                            k,
                            y as int,
                        ),
                decreases self.seats@[y as int]@.len() - x,
            {
                let l = self.seats[y][x];
                let next = if use_adjacent_rule {
                    apply_rule(l, &self.adjacent_at(x as i128, y as i128), 4)
                } else {
                    apply_rule(l, &self.visible_at(x as i128, y as i128), 5)
                };
                row.push(next);
                x += 1;
            }
            assert(row@ =~= tick_spec(self@, use_adjacent_rule)[y as int]);
            seats.push(row);
            y += 1;
        }
        let next = SeatMap { seats };
        assert(next@ =~= tick_spec(self@, use_adjacent_rule));
        next
    }
}


/// The room that the lines of `input` draw.
pub open spec fn seat_map_spec(input: Seq<char>) -> Option<Grid> {
    parse_all_spec(lines_spec(input), row_fn())
}

/// The text that draws `grid`: its rows with a line feed between each two
/// of them.
pub open spec fn to_string_spec(grid: Grid) -> Seq<char> {
    concat(interspersed(Seq::new(grid.len(), |y: int| drawn(grid[y])), seq!['\n']))
}

impl SeatMap {
    /// Reads the room.
    pub fn from_str(input: &str) -> (r: Option<SeatMap>)
        ensures
            match r {
                Some(map) => seat_map_spec(input@) == Some(map@),
                None => seat_map_spec(input@) is None,
            },
    {
        let found = lines(input);
        let read = |line: &Vec<char>| -> (r: Option<Vec<Location>>)
            ensures
                match r {
                    Some(found) => row_spec(line@) == Some(found@),
                    None => row_spec(line@) is None,
                },
            { row(line) };
        match parse_all::<Vec<Location>, Seq<Location>, _>(
            &found,
            read,
            Ghost(row_fn()),
            Ghost(|row: Vec<Location>| row@),
        ) {
            Some(seats) => {
                let map = SeatMap { seats };
                assert(map@ =~= seats@.map_values(|row: Vec<Location>| row@));
                Some(map)
            },
            None => None,
        }
    }

    /// The text that draws the room.
    pub fn to_string(&self) -> (text: String)
        ensures
            text@ == to_string_spec(self@),
    {
        let ghost rows = Seq::new(self@.len(), |y: int| drawn(self@[y]));
        let mut drawn_rows: Vec<String> = Vec::new();
        let mut y: usize = 0;
        while y < self.seats.len()
            invariant
                y <= self.seats.len(),
                rows == Seq::new(self@.len(), |y: int| drawn(self@[y])),
                strings(drawn_rows@) == rows.take(y as int),
            decreases self.seats.len() - y,
        {
            let mut row = String::new();
            let mut x: usize = 0;
            while x < self.seats[y].len()
                invariant
                    y < self.seats.len(),
                    x <= self.seats@[y as int]@.len(),
                    row@ == drawn(self@[y as int]).take(x as int),
                decreases self.seats@[y as int]@.len() - x,
            {
                let c = match self.seats[y][x] {
                    Location::Floor => '.',
                    Location::FilledSeat => '#',
                    Location::EmptySeat => 'L',
                };
                push_char(&mut row, c);
                assert(row@ =~= drawn(self@[y as int]).take(x + 1));
                x += 1;
            }
            assert(drawn(self@[y as int]).take(self.seats@[y as int]@.len() as int) =~= drawn(
                self@[y as int],
            ));
            let ghost before = strings(drawn_rows@);
            let ghost line = row@;
            drawn_rows.push(row);
            assert(strings(drawn_rows@) =~= before.push(line));
            assert(rows.take(y + 1) =~= rows.take(y as int).push(rows[y as int]));
            y += 1;
        }
        assert(rows.take(self.seats.len() as int) =~= rows);
        let mut separator = String::new();
        push_char(&mut separator, '\n');
        assert(separator@ =~= seq!['\n']);
        let pieces = intersperse(drawn_rows, separator);
        let mut text = String::new();
        let mut i: usize = 0;
        assert(strings(pieces@).take(0) =~= Seq::<Seq<char>>::empty());
        while i < pieces.len()
            invariant
                i <= pieces.len(),
                text@ == concat(strings(pieces@).take(i as int)),
            decreases pieces.len() - i,
        {
            proof {
                assert(strings(pieces@).take(i + 1).drop_last() =~= strings(pieces@).take(i as int));
                assert(strings(pieces@).take(i + 1).last() == pieces@[i as int]@);
            }
            text.append(pieces[i].as_str());
            i += 1;
        }
        assert(strings(pieces@).take(pieces.len() as int) =~= strings(pieces@));
        text
    }

    /// Lets the room change until it is as it was before, and yields it as it
    /// then is. Nothing where that takes more changes than the machine can
    /// count.
    #[verifier::loop_isolation(false)]
    pub fn tick_until_stable(self, use_adjacent_rule: bool) -> (stable: Option<SeatMap>)
        ensures
            match stable {
                Some(map) => stable_from(self@, use_adjacent_rule, 1, usize::MAX as nat) == Some(
                    map@,
                ),
                None => stable_from(self@, use_adjacent_rule, 1, usize::MAX as nat) is None,
            },
    {
        let ghost start = self@;
        let mut observed: Vec<Vec<Vec<Location>>> = Vec::new();
        observed.push(copy_seats(&self.seats));
        let mut map = self;
        let mut steps: usize = 0;
        loop
            invariant
                observed@.len() == steps + 1,
                forall|j: int|
                    0 <= j <= steps ==> grid_view((#[trigger] observed@[j])@) == state(
                        start,
                        use_adjacent_rule,
                        j as nat,
                    ),
                map@ == state(start, use_adjacent_rule, steps as nat),
                stable_from(start, use_adjacent_rule, 1, usize::MAX as nat) == stable_from(
                    start,
                    use_adjacent_rule,
                    (steps + 1) as nat,
                    usize::MAX as nat,
                ),
            decreases usize::MAX - steps,
        {
            if steps == usize::MAX {
                return None;
            }
            map = map.tick(use_adjacent_rule);
            let ghost k = (steps + 1) as nat;
            assert(map@ == state(start, use_adjacent_rule, k));
            let mut j: usize = 0;
            while j < observed.len()
                invariant
                    j <= observed.len(),
                    observed@.len() == steps + 1,
                    k == steps + 1,
                    map@ == state(start, use_adjacent_rule, k),
                    forall|i: int|
                        0 <= i <= steps ==> grid_view((#[trigger] observed@[i])@) == state(
                            start,
                            use_adjacent_rule,
                            i as nat,
                        ),
                    forall|i: nat|
                        i < j ==> #[trigger] state(start, use_adjacent_rule, i) != state(
                            start,
                            use_adjacent_rule,
                            k,
                        ),
                decreases observed.len() - j,
            {
                if same_seats(&observed[j], &map.seats) {
                    assert(state(start, use_adjacent_rule, j as nat) == state(
                        start,
                        use_adjacent_rule,
                        k,
                    ));
                    return Some(map);
                }
                j += 1;
            }
            observed.push(copy_seats(&map.seats));
            steps += 1;
        }
    }
}

/// What a star yields: how many seats are filled when the room has become
/// as it was before. Nothing where `input` draws no room, or where the
/// room does not come to that.
pub open spec fn star_spec(input: Seq<char>, use_adjacent_rule: bool) -> Option<nat> {
    match seat_map_spec(input) {
        Some(grid) => match stable_from(grid, use_adjacent_rule, 1, usize::MAX as nat) {
            Some(stable) => Some(count_filled(all_seats_spec(stable))),
            None => None,
        },
        None => None,
    }
}

/// How many seats are filled in the end.
pub fn star(input: &str, use_adjacent_rule: bool) -> (r: Option<usize>)
    ensures
        match r {
            Some(n) => star_spec(input@, use_adjacent_rule) == Some(n as nat),
            None => star_spec(input@, use_adjacent_rule) is None,
        },
{
    let seat_map = match SeatMap::from_str(input) {
        Some(seat_map) => seat_map,
        None => {
            return None;
        },
    };
    match seat_map.tick_until_stable(use_adjacent_rule) {
        Some(stable) => Some(filled(&stable.all_seats())),
        None => None,
    }
}

/// How many seats are filled in the end, where people go by the seats next
/// to them.
pub fn star_one(input: &str) -> (r: Option<usize>)
    ensures
        match r {
            Some(n) => star_spec(input@, true) == Some(n as nat),
            None => star_spec(input@, true) is None,
        },
{
    star(input, true)
}

/// How many seats are filled in the end, where people go by the seats they
/// see.
pub fn star_two(input: &str) -> (r: Option<usize>)
    ensures
        match r {
            Some(n) => star_spec(input@, false) == Some(n as nat),
            None => star_spec(input@, false) is None,
        },
{
    star(input, false)
}

} // verus!
