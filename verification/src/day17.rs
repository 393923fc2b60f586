//! Cubes in a grid without end, in three or in four dimensions, that switch
//! on and off by how many of their neighbours are on.

use vstd::prelude::*;
use crate::text::{lines, lines_spec, parse_all, parse_all_spec};

verus! {

/// Whether a cube is on.
#[derive(Debug, Clone, Copy, PartialEq, Eq, Structural)]
pub enum State {
    Active,
    Inactive,
}

/// The cubes of a box, as plain values: whether each is on, by its place
/// along the fourth, the third, the second and the first axis.
pub type Cells = Seq<Seq<Seq<Seq<bool>>>>;

/// Whether the cube at `x`, `y`, `z`, `w` is on. All cubes outside the box
/// are off.
pub open spec fn alive(cells: Cells, x: int, y: int, z: int, w: int) -> bool {
    &&& 0 <= w < cells.len()
    &&& 0 <= z < cells[w].len()
    &&& 0 <= y < cells[w][z].len()
    &&& 0 <= x < cells[w][z][y].len()
    &&& cells[w][z][y][x]
}

/// Whether the neighbour `k` of the 81 places around a cube counts: the cube
/// itself does not, and in three dimensions a place off along the fourth
/// axis does not.
pub open spec fn counted(k: int, four: bool) -> bool {
    k != 40 && (four || (k / 27) % 3 == 1)
}

/// How many of the first `k` places around the cube at `x`, `y`, `z`, `w`
/// count and are on.
pub open spec fn around(cells: Cells, x: int, y: int, z: int, w: int, four: bool, k: int) -> nat
    decreases k,
{
    if k <= 0 {
        0
    } else if counted(k - 1, four) && alive(
        cells,
        x + (k - 1) % 3 - 1,
        y + ((k - 1) / 3) % 3 - 1,
        z + ((k - 1) / 9) % 3 - 1,
        w + ((k - 1) / 27) % 3 - 1,
    ) {
        around(cells, x, y, z, w, four, k - 1) + 1
    } else {
        around(cells, x, y, z, w, four, k - 1)
    }
}

/// Whether a cube is on after a change: one that is on stays on with two or
/// three neighbours on, one that is off switches on with three.
pub open spec fn rule(on: bool, neighbours: nat) -> bool {
    if on {
        neighbours == 2 || neighbours == 3
    } else {
        neighbours == 3
    }
}

/// Whether the cube at `x`, `y`, `z`, `w` is on after a change.
pub open spec fn next(cells: Cells, four: bool, x: int, y: int, z: int, w: int) -> bool {
    rule(alive(cells, x, y, z, w), around(cells, x, y, z, w, four, 81))
}

/// How far the box reaches along the four axes.
pub type Size = (usize, usize, usize, usize);

/// The box after a change: one cube wider on each side along each axis
/// that is in use, and each cube on or off as the rule says.
pub open spec fn tick_spec(cells: Cells, four: bool, size: Size) -> Cells {
    let shift = if four {
        1int
    } else {
        0int
    };
    Seq::new(
        (size.3 + 2 * shift) as nat,
        |w: int|
            Seq::new(
                (size.2 + 2) as nat,
                |z: int|
                    Seq::new(
                        (size.1 + 2) as nat,
                        |y: int|
                            Seq::new(
                                (size.0 + 2) as nat,
                                |x: int| next(cells, four, x - 1, y - 1, z - 1, w - shift),
                            ),
                    ),
            ),
    )
}

/// How many of `row` are on.
pub open spec fn count_row(row: Seq<bool>) -> nat
    decreases row.len(),
{
    if row.len() == 0 {
        0
    } else {
        count_row(row.drop_last()) + if row.last() {
            1nat
        } else {
            0nat
        }
    }
}

/// How many cubes of `plane` are on.
pub open spec fn count_plane(plane: Seq<Seq<bool>>) -> nat
    decreases plane.len(),
{
    if plane.len() == 0 {
        0
    } else {
        count_plane(plane.drop_last()) + count_row(plane.last())
    }
}

/// How many cubes of `space` are on.
pub open spec fn count_space(space: Seq<Seq<Seq<bool>>>) -> nat
    decreases space.len(),
{
    if space.len() == 0 {
        0
    } else {
        count_space(space.drop_last()) + count_plane(space.last())
    }
}

/// How many cubes of `cells` are on.
pub open spec fn count_cells(cells: Cells) -> nat
    decreases cells.len(),
{
    if cells.len() == 0 {
        0
    } else {
        count_cells(cells.drop_last()) + count_space(cells.last())
    }
}

/// The rows as plain values.
pub open spec fn plane_view(plane: Seq<Vec<bool>>) -> Seq<Seq<bool>> {
    Seq::new(plane.len(), |y: int| plane[y]@)
}

/// The planes as plain values.
pub open spec fn space_view(space: Seq<Vec<Vec<bool>>>) -> Seq<Seq<Seq<bool>>> {
    Seq::new(space.len(), |z: int| plane_view(space[z]@))
}

/// The spaces as plain values.
pub open spec fn cells_view(cells: Seq<Vec<Vec<Vec<bool>>>>) -> Cells {
    Seq::new(cells.len(), |w: int| space_view(cells[w]@))
}

/// A box of cubes, beyond which all cubes are off.
pub struct World {
    pub four_dimensional: bool,
    pub size: Size,
    pub cells: Vec<Vec<Vec<Vec<bool>>>>,
}

impl View for World {
    type V = Cells;

    open spec fn view(&self) -> Cells {
        cells_view(self.cells@)
    }
}

/// How many of `row` are on.
pub fn on_in_row(row: &Vec<bool>) -> (n: usize)
    ensures
        n == count_row(row@),
{
    let mut n: usize = 0;
    let mut i: usize = 0;
    while i < row.len()
        invariant
            i <= row.len(),
            n <= i,
            n == count_row(row@.take(i as int)),
        decreases row.len() - i,
    {
        proof {
            assert(row@.take(i + 1).drop_last() =~= row@.take(i as int));
            assert(row@.take(i + 1).last() == row@[i as int]);
        }
        if row[i] {
            n += 1;
        }
        i += 1;
    }
    assert(row@.take(row.len() as int) =~= row@);
    n
}

impl World {
    /// Whether the cube at `x`, `y`, `z`, `w` is on.
    pub fn is_alive(&self, x: i128, y: i128, z: i128, w: i128) -> (on: bool)
        ensures
            on == alive(self@, x as int, y as int, z as int, w as int),
    {
        if w < 0 || w >= self.cells.len() as i128 {
            return false;
        }
        let space = &self.cells[w as usize];
        if z < 0 || z >= space.len() as i128 {
            return false;
        }
        let plane = &space[z as usize];
        if y < 0 || y >= plane.len() as i128 {
            return false;
        }
        let row = &plane[y as usize];
        if x < 0 || x >= row.len() as i128 {
            return false;
        }
        row[x as usize]
    }

    /// The state of the cube at `x`, `y`, `z`, `w`.
    pub fn state(&self, x: i128, y: i128, z: i128, w: i128) -> (state: State)
        ensures
            state == State::Active <==> alive(self@, x as int, y as int, z as int, w as int),
    {
        if self.is_alive(x, y, z, w) {
            State::Active
        } else {
            State::Inactive
        }
    }

    /// How many neighbours of the cube at `x`, `y`, `z`, `w` are on.
    pub fn neighbours(&self, x: i128, y: i128, z: i128, w: i128) -> (n: usize)
        requires
            -(u64::MAX as int) <= x as int <= u64::MAX as int + 1,
            -(u64::MAX as int) <= y as int <= u64::MAX as int + 1,
            -(u64::MAX as int) <= z as int <= u64::MAX as int + 1,
            -(u64::MAX as int) <= w as int <= u64::MAX as int + 1,
        ensures
            n == around(self@, x as int, y as int, z as int, w as int, self.four_dimensional, 81),
    {
        let mut n: usize = 0;
        let mut k: usize = 0;
        while k < 81
            invariant
                k <= 81,
                n <= k,
                -(u64::MAX as int) <= x as int <= u64::MAX as int + 1,
                -(u64::MAX as int) <= y as int <= u64::MAX as int + 1,
                -(u64::MAX as int) <= z as int <= u64::MAX as int + 1,
                -(u64::MAX as int) <= w as int <= u64::MAX as int + 1,
                n == around(
                    self@,
                    x as int,
                    y as int,
                    z as int,
                    w as int,
                    self.four_dimensional,
                    k as int,
                ),
            decreases 81 - k,
        {
            let dx = (k % 3) as i128 - 1;
            let dy = ((k / 3) % 3) as i128 - 1;
            let dz = ((k / 9) % 3) as i128 - 1;
            let dw = ((k / 27) % 3) as i128 - 1;
            if k != 40 && (self.four_dimensional || dw == 0) && self.is_alive(
                x + dx,
                y + dy,
                z + dz,
                w + dw,
            ) {
                n += 1;
            }
            k += 1;
        }
        n
    }

    /// How many cubes are on; nothing where the number does not fit.
    pub fn active_cubes(&self) -> (r: Option<usize>)
        ensures
            match r {
                Some(n) => n == count_cells(self@),
                None => count_cells(self@) > usize::MAX,
            },
    {
        let mut n: u128 = 0;
        let mut w: usize = 0;
        assert(self@.take(0) =~= Seq::<Seq<Seq<Seq<bool>>>>::empty());
        while w < self.cells.len()
            invariant
                w <= self.cells.len(),
                n == count_cells(self@.take(w as int)) || (n > usize::MAX && count_cells(
                    self@.take(w as int),
                ) > usize::MAX),
                n <= usize::MAX as u128 + 1,
            decreases self.cells.len() - w,
        {
            let space = &self.cells[w];
            let ghost sv = space_view(space@);
            let mut in_space: u128 = 0;
            let mut z: usize = 0;
            assert(sv.take(0) =~= Seq::<Seq<Seq<bool>>>::empty());
            while z < space.len()
                invariant
                    z <= space.len(),
                    sv == space_view(space@),
                    in_space == count_space(sv.take(z as int)) || (in_space > usize::MAX
                        && count_space(sv.take(z as int)) > usize::MAX),
                    in_space <= usize::MAX as u128 + 1,
                decreases space.len() - z,
            {
                let plane = &space[z];
                let ghost pv = plane_view(plane@);
                let mut in_plane: u128 = 0;
                let mut y: usize = 0;
                assert(pv.take(0) =~= Seq::<Seq<bool>>::empty());
                while y < plane.len()
                    invariant
                        y <= plane.len(),
                        pv == plane_view(plane@),
                        in_plane == count_plane(pv.take(y as int)) || (in_plane > usize::MAX
                            && count_plane(pv.take(y as int)) > usize::MAX),
                        in_plane <= usize::MAX as u128 + 1,
                    decreases plane.len() - y,
                {
                    proof {
                        assert(pv.take(y + 1).drop_last() =~= pv.take(y as int));
                        assert(pv.take(y + 1).last() == plane@[y as int]@);
                    }
                    in_plane = in_plane + on_in_row(&plane[y]) as u128;
                    if in_plane > usize::MAX as u128 {
                        in_plane = usize::MAX as u128 + 1;
                    }
                    y += 1;
                }
                proof {
                    assert(pv.take(plane.len() as int) =~= pv);
                    assert(sv.take(z + 1).drop_last() =~= sv.take(z as int));
                    assert(sv.take(z + 1).last() == pv);
                }
                in_space = in_space + in_plane;
                if in_space > usize::MAX as u128 {
                    in_space = usize::MAX as u128 + 1;
                }
                z += 1;
            }
            proof {
                assert(sv.take(space.len() as int) =~= sv);
                assert(self@.take(w + 1).drop_last() =~= self@.take(w as int));
                assert(self@.take(w + 1).last() == sv);
            }
            n = n + in_space;
            if n > usize::MAX as u128 {
                n = usize::MAX as u128 + 1;
            }
            w += 1;
        }
        assert(self@.take(self.cells.len() as int) =~= self@);
        if n <= usize::MAX as u128 {
            Some(n as usize)
        } else {
            None
        }
    }
}


/// The size of the box after a change; nothing where it does not fit.
pub open spec fn grown(size: Size, four: bool) -> Option<Size> {
    let shift = if four {
        2int
    } else {
        0int
    };
    if size.0 + 2 <= usize::MAX && size.1 + 2 <= usize::MAX && size.2 + 2 <= usize::MAX && size.3
        + shift <= usize::MAX {
        Some(
            (
                (size.0 + 2) as usize,
                (size.1 + 2) as usize,
                (size.2 + 2) as usize,
                (size.3 + shift) as usize,
            ),
        )
    } else {
        None
    }
}

impl World {
    /// A row of the box after a change: the row `y`, `z`, `w` of the box as
    /// it is, one cube wider on each side.
    fn next_row(&self, y: i128, z: i128, w: i128, width: usize) -> (row: Vec<bool>)
        requires
            -1 <= y <= u64::MAX,
            -1 <= z <= u64::MAX,
            -1 <= w <= u64::MAX,
        ensures
            row@ == Seq::new(
                width as nat,
                |x: int| next(self@, self.four_dimensional, x - 1, y as int, z as int, w as int),
            ),
    {
        let mut row: Vec<bool> = Vec::new();
        let mut x: usize = 0;
        while x < width
            invariant
                x <= width,
                -1 <= y <= u64::MAX,
                -1 <= z <= u64::MAX,
                -1 <= w <= u64::MAX,
                row@.len() == x,
                forall|k: int|
                    0 <= k < x ==> (#[trigger] row@[k]) == next(
                        self@,
                        self.four_dimensional,
                        k - 1,
                        y as int,
                        z as int,
                        w as int,
                    ),
            decreases width - x,
        {
            let on = self.is_alive(x as i128 - 1, y, z, w);
            let around = self.neighbours(x as i128 - 1, y, z, w);
            let next = if on {
                around == 2 || around == 3
            } else {
                around == 3
            };
            row.push(next);
            x += 1;
        }
        assert(row@ =~= Seq::new(
            width as nat,
            |x: int| next(self@, self.four_dimensional, x - 1, y as int, z as int, w as int),
        ));
        row
    }

    /// A plane of the box after a change.
    fn next_plane(&self, z: i128, w: i128, height: usize, width: usize) -> (plane: Vec<Vec<bool>>)
        requires
            -1 <= z <= u64::MAX,
            -1 <= w <= u64::MAX,
        ensures
            plane_view(plane@) == Seq::new(
                height as nat,
                |y: int|
                    Seq::new(
                        width as nat,
                        |x: int|
                            next(self@, self.four_dimensional, x - 1, y - 1, z as int, w as int),
                    ),
            ),
    {
        let mut plane: Vec<Vec<bool>> = Vec::new();
        let mut y: usize = 0;
        while y < height
            invariant
                y <= height,
                -1 <= z <= u64::MAX,
                -1 <= w <= u64::MAX,
                plane@.len() == y,
                forall|k: int|
                    0 <= k < y ==> (#[trigger] plane@[k])@ == Seq::new(
                        width as nat,
                        |x: int|
                            next(self@, self.four_dimensional, x - 1, k - 1, z as int, w as int),
                    ),
            decreases height - y,
        {
            let row = self.next_row(y as i128 - 1, z, w, width);
            plane.push(row);
            y += 1;
        }
        assert(plane_view(plane@) =~= Seq::new(
            height as nat,
            |y: int|
                Seq::new(
                    width as nat,
                    |x: int| next(self@, self.four_dimensional, x - 1, y - 1, z as int, w as int),
                ),
        ));
        plane
    }

    /// A space of the box after a change.
    fn next_space(&self, w: i128, depth: usize, height: usize, width: usize) -> (space: Vec<
        Vec<Vec<bool>>,
    >)
        requires
            -1 <= w <= u64::MAX,
        ensures
            space_view(space@) == Seq::new(
                depth as nat,
                |z: int|
                    Seq::new(
                        height as nat,
                        |y: int|
                            Seq::new(
                                width as nat,
                                |x: int|
                                    next(
                                        self@,
                                        self.four_dimensional,
                                        x - 1,
                                        y - 1,
                                        z - 1,
                                        w as int,
                                    ),
                            ),
                    ),
            ),
    {
        let mut space: Vec<Vec<Vec<bool>>> = Vec::new();
        let mut z: usize = 0;
        while z < depth
            invariant
                z <= depth,
                -1 <= w <= u64::MAX,
                space@.len() == z,
                forall|k: int|
                    0 <= k < z ==> plane_view((#[trigger] space@[k])@) == Seq::new(
                        height as nat,
                        |y: int|
                            Seq::new(
                                width as nat,
                                |x: int|
                                    next(
                                        self@,
                                        self.four_dimensional,
                                        x - 1,
                                        y - 1,
                                        k - 1,
                                        w as int,
                                    ),
                            ),
                    ),
            decreases depth - z,
        {
            let plane = self.next_plane(z as i128 - 1, w, height, width);
            space.push(plane);
            z += 1;
        }
        assert(space_view(space@) =~= Seq::new(
            depth as nat,
            |z: int|
                Seq::new(
                    height as nat,
                    |y: int|
                        Seq::new(
                            width as nat,
                            |x: int|
                                next(self@, self.four_dimensional, x - 1, y - 1, z - 1, w as int),
                        ),
                ),
        ));
        space
    }

    /// The box after a change; nothing where its size does not fit.
    pub fn tick(&self) -> (r: Option<World>)
        ensures
            match r {
                Some(world) => {
                    &&& grown(self.size, self.four_dimensional) == Some(world.size)
                    &&& world.four_dimensional == self.four_dimensional
                    &&& world@ == tick_spec(self@, self.four_dimensional, self.size)
                },
                None => grown(self.size, self.four_dimensional) is None,
            },
    {
        let shift: usize = if self.four_dimensional {
            1
        } else {
            0
        };
        let size = match (
            self.size.0.checked_add(2),
            self.size.1.checked_add(2),
            self.size.2.checked_add(2),
            self.size.3.checked_add(2 * shift),
        ) {
            (Some(width), Some(height), Some(depth), Some(span)) => (width, height, depth, span),
            _ => {
                return None;
            },
        };
        let mut cells: Vec<Vec<Vec<Vec<bool>>>> = Vec::new();
        let mut w: usize = 0;
        while w < size.3
            invariant
                w <= size.3,
                shift == (if self.four_dimensional {
                    1int
                } else {
                    0int
                }),
                cells@.len() == w,
                forall|k: int|
                    0 <= k < w ==> space_view((#[trigger] cells@[k])@) == Seq::new(
                        size.2 as nat,
                        |z: int|
                            Seq::new(
                                size.1 as nat,
                                |y: int|
                                    Seq::new(
                                        size.0 as nat,
                                        |x: int|
                                            next(
                                                self@,
                                                self.four_dimensional,
                                                x - 1,
                                                y - 1,
                                                z - 1,
                                                k - shift,
                                            ),
                                    ),
                            ),
                    ),
            decreases size.3 - w,
        {
            let space = self.next_space(w as i128 - shift as i128, size.2, size.1, size.0);
            cells.push(space);
            w += 1;
        }
        let world = World { four_dimensional: self.four_dimensional, size, cells };
        assert(world@ =~= tick_spec(self@, self.four_dimensional, self.size));
        Some(world)
    }
}

/// The cubes that `line` draws: `#` one that is on, `.` one that is off.
pub open spec fn row_spec(line: Seq<char>) -> Option<Seq<bool>>
    decreases line.len(),
{
    if line.len() == 0 {
        Some(Seq::empty())
    } else {
        match row_spec(line.drop_last()) {
            Some(before) => if line.last() == '#' {
                Some(before.push(true))
            } else if line.last() == '.' {
                Some(before.push(false))
            } else {
                None
            },
            None => None,
        }
    }
}

proof fn lemma_row_spec_fails_on(line: Seq<char>, k: int)
    requires
        0 <= k <= line.len(),
        row_spec(line.take(k)) is None,
    ensures
        row_spec(line) is None,
    decreases line.len(),
{
    if k == line.len() {
        assert(line.take(k) =~= line);
    } else {
        assert(line.drop_last().take(k) =~= line.take(k));
        lemma_row_spec_fails_on(line.drop_last(), k);
    }
}

/// [`row_spec`] as a value.
pub open spec fn row_fn() -> spec_fn(Seq<char>) -> Option<Seq<bool>> {
    |line: Seq<char>| row_spec(line)
}

/// Reads a row of cubes.
pub fn row(line: &Vec<char>) -> (r: Option<Vec<bool>>)
    ensures
        match r {
            Some(found) => row_spec(line@) == Some(found@),
            None => row_spec(line@) is None,
        },
{
    let mut found: Vec<bool> = Vec::new();
    let mut i: usize = 0;
    while i < line.len()
        invariant
            i <= line.len(),
            row_spec(line@.take(i as int)) == Some(found@),
        decreases line.len() - i,
    {
        proof {
            assert(line@.take(i + 1).drop_last() =~= line@.take(i as int));
            assert(line@.take(i + 1).last() == line@[i as int]);
        }
        if line[i] == '#' {
            found.push(true);
        } else if line[i] == '.' {
            found.push(false);
        } else {
            proof {
                lemma_row_spec_fails_on(line@, i + 1);
            }
            return None;
        }
        i += 1;
    }
    assert(line@.take(line.len() as int) =~= line@);
    Some(found)
}

/// The length of the longest of the first `k` rows.
pub open spec fn widest(rows: Seq<Seq<bool>>, k: int) -> nat
    decreases k,
{
    if k <= 0 {
        0
    } else if rows[k - 1].len() > widest(rows, k - 1) {
        rows[k - 1].len()
    } else {
        widest(rows, k - 1)
    }
}

/// The box that the lines of `input` draw: a single plane.
pub open spec fn world_spec(input: Seq<char>) -> Option<(Cells, Size)> {
    match parse_all_spec(lines_spec(input), row_fn()) {
        Some(rows) => Some(
            (
                seq![seq![rows]],
                (widest(rows, rows.len() as int) as usize, rows.len() as usize, 1usize, 1usize),
            ),
        ),
        None => None,
    }
}

impl World {
    /// Reads a plane of cubes, for a grid of three or of four dimensions.
    #[verifier::loop_isolation(false)]
    pub fn from_str(input: &str, four_dimensional: bool) -> (r: Option<World>)
        ensures
            match r {
                Some(world) => world_spec(input@) == Some((world@, world.size))
                    && world.four_dimensional == four_dimensional,
                None => world_spec(input@) is None,
            },
    {
        let found = lines(input);
        let read = |line: &Vec<char>| -> (r: Option<Vec<bool>>)
            ensures
                match r {
                    Some(found) => row_spec(line@) == Some(found@),
                    None => row_spec(line@) is None,
                },
            { row(line) };
        let rows = match parse_all::<Vec<bool>, Seq<bool>, _>(
            &found,
            read,
            Ghost(row_fn()),
            Ghost(|row: Vec<bool>| row@),
        ) {
            Some(rows) => rows,
            None => {
                return None;
            },
        };
        let ghost drawn = rows@.map_values(|row: Vec<bool>| row@);
        let mut width: usize = 0;
        let mut k: usize = 0;
        while k < rows.len()
            invariant
                k <= rows.len(),
                width == widest(drawn, k as int),
            decreases rows.len() - k,
        {
            assert(drawn[k as int] == rows@[k as int]@);
            if rows[k].len() > width {
                width = rows[k].len();
            }
            k += 1;
        }
        let height = rows.len();
        let mut space: Vec<Vec<Vec<bool>>> = Vec::new();
        space.push(rows);
        let mut cells: Vec<Vec<Vec<Vec<bool>>>> = Vec::new();
        cells.push(space);
        let world = World { four_dimensional, size: (width, height, 1, 1), cells };
        proof {
            assert(plane_view(rows@) =~= drawn);
            assert(space_view(space@) =~= seq![drawn]);
            assert(world@ =~= seq![seq![drawn]]);
        }
        Some(world)
    }
}

/// The box and its size after `n` changes; nothing where its size does not
/// fit.
pub open spec fn ticks_spec(cells: Cells, size: Size, four: bool, n: nat) -> Option<(Cells, Size)>
    decreases n,
{
    if n == 0 {
        Some((cells, size))
    } else {
        match ticks_spec(cells, size, four, (n - 1) as nat) {
            Some((before, extent)) => match grown(extent, four) {
                Some(larger) => Some((tick_spec(before, four, extent), larger)),
                None => None,
            },
            None => None,
        }
    }
}

proof fn lemma_ticks_spec_fails_on(cells: Cells, size: Size, four: bool, n: nat, k: nat)
    requires
        k <= n,
        ticks_spec(cells, size, four, k) is None,
    ensures
        ticks_spec(cells, size, four, n) is None,
    decreases n,
{
    if k < n {
        lemma_ticks_spec_fails_on(cells, size, four, (n - 1) as nat, k);
    }
}

/// What a star yields: how many cubes are on after six changes. Nothing
/// where `input` draws no plane of cubes, or where a number does not fit.
pub open spec fn star_spec(input: Seq<char>, four: bool) -> Option<usize> {
    match world_spec(input) {
        Some((cells, size)) => match ticks_spec(cells, size, four, 6) {
            Some((after, _)) => if count_cells(after) <= usize::MAX {
                Some(count_cells(after) as usize)
            } else {
                None
            },
            None => None,
        },
        None => None,
    }
}

/// How many cubes are on after six changes.
#[verifier::loop_isolation(false)]
pub fn star(input: &str, four_dimensional: bool) -> (r: Option<usize>)
    ensures
        r == star_spec(input@, four_dimensional),
{
    let mut world = match World::from_str(input, four_dimensional) {
        Some(world) => world,
        None => {
            return None;
        },
    };
    let ghost start = (world@, world.size);
    let mut n: usize = 0;
    while n < 6
        invariant
            n <= 6,
            world.four_dimensional == four_dimensional,
            ticks_spec(start.0, start.1, four_dimensional, n as nat) == Some(
                (world@, world.size),
            ),
        decreases 6 - n,
    {
        world = match world.tick() {
            Some(world) => world,
            None => {
                proof {
                    lemma_ticks_spec_fails_on(
                        start.0,
                        start.1,
                        four_dimensional,
                        6,
                        (n + 1) as nat,
                    );
                }
                return None;
            },
        };
        n += 1;
    }
    world.active_cubes()
}

/// How many cubes are on after six changes in three dimensions.
pub fn star_one(input: &str) -> (r: Option<usize>)
    ensures
        r == star_spec(input@, false),
{
    star(input, false)
}

/// How many cubes are on after six changes in four dimensions.
pub fn star_two(input: &str) -> (r: Option<usize>)
    ensures
        r == star_spec(input@, true),
{
    star(input, true)
}

} // verus!
