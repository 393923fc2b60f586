//! A ship that follows instructions to move, to turn and to go forward,
//! read in one of two ways.

use vstd::prelude::*;
use crate::math::Vector2;
use crate::text::{
    lines, lines_spec, parse_all, parse_all_spec, parse_isize, signed_spec, slice,
};

verus! {

/// One step of the way.
#[derive(Debug, Clone, Copy)]
pub enum Instruction {
    North(isize),
    South(isize),
    West(isize),
    East(isize),
    /// A turn to the left by that many degrees.
    Rotate(isize),
    Forward(isize),
}

impl Instruction {
    /// The instruction that `s` states: a letter and a number. `L` turns to
    /// the left, `R` to the right, which is to the left by the negative.
    pub open spec fn from_str_spec(s: Seq<char>) -> Option<Instruction> {
        if s.len() == 0 {
            None
        } else {
            match signed_spec(s.skip(1), isize::MIN as int, isize::MAX as int) {
                None => None,
                Some(value) => if s[0] == 'N' {
                    Some(Instruction::North(value as isize))
                } else if s[0] == 'S' {
                    Some(Instruction::South(value as isize))
                } else if s[0] == 'E' {
                    Some(Instruction::East(value as isize))
                } else if s[0] == 'W' {
                    Some(Instruction::West(value as isize))
                } else if s[0] == 'L' {
                    Some(Instruction::Rotate(value as isize))
                } else if s[0] == 'R' && value > isize::MIN {
                    Some(Instruction::Rotate((-value) as isize))
                } else if s[0] == 'F' {
                    Some(Instruction::Forward(value as isize))
                } else {
                    None
                },
            }
        }
    }

    pub fn from_str(s: &Vec<char>) -> (r: Option<Instruction>)
        ensures
            r == Instruction::from_str_spec(s@),
    {
        if s.len() == 0 {
            return None;
        }
        let rest = slice(s, 1, s.len());
        assert(rest@ =~= s@.skip(1));
        let value = match parse_isize(&rest) {
            Some(value) => value,
            None => {
                return None;
            },
        };
        let letter = s[0];
        if letter == 'N' {
            Some(Instruction::North(value))
        } else if letter == 'S' {
            Some(Instruction::South(value))
        } else if letter == 'E' {
            Some(Instruction::East(value))
        } else if letter == 'W' {
            Some(Instruction::West(value))
        } else if letter == 'L' {
            Some(Instruction::Rotate(value))
        } else if letter == 'R' && value > isize::MIN {
            Some(Instruction::Rotate(-value))
        } else if letter == 'F' {
            Some(Instruction::Forward(value))
        } else {
            None
        }
    }
}

/// A vector of whole numbers of any size.
pub type Point = (int, int);

/// The vector as numbers of any size.
pub open spec fn point(v: Vector2<isize>) -> Point {
    (v.x as int, v.y as int)
}

/// Whether both numbers of `p` fit the machine's numbers.
pub open spec fn fits(p: Point) -> bool {
    isize::MIN <= p.0 <= isize::MAX && isize::MIN <= p.1 <= isize::MAX
}

/// `vector` turned to the left by `degrees`, for a number of right angles;
/// nothing for any other angle.
pub open spec fn rotate_spec(vector: Point, degrees: int) -> Option<Point> {
    let turn = degrees % 360;
    if turn == 0 {
        Some(vector)
    } else if turn == 90 {
        Some((-vector.1, vector.0))
    } else if turn == 180 {
        Some((-vector.0, -vector.1))
    } else if turn == 270 {
        Some((vector.1, -vector.0))
    } else {
        None
    }
}

/// Turns `vector` to the left by `degrees`, which have to make a number of
/// right angles. Nothing for any other angle, or where the result does not
/// fit.
pub fn rotate(vector: Vector2<isize>, degrees: isize) -> (r: Option<Vector2<isize>>)
    ensures
        match r {
            Some(turned) => rotate_spec(point(vector), degrees as int) == Some(point(turned)),
            None => !(rotate_spec(point(vector), degrees as int) matches Some(p) && fits(p)),
        },
{
    let turn = degrees % 360;
    let turn = if turn < 0 {
        turn + 360
    } else {
        turn
    };
    assert(turn == (degrees as int) % 360);
    if turn == 0 {
        Some(vector)
    } else if turn == 90 {
        if vector.y == isize::MIN {
            None
        } else {
            Some(Vector2::new(-vector.y, vector.x))
        }
    } else if turn == 180 {
        if vector.x == isize::MIN || vector.y == isize::MIN {
            None
        } else {
            Some(Vector2::new(-vector.x, -vector.y))
        }
    } else if turn == 270 {
        if vector.x == isize::MIN {
            None
        } else {
            Some(Vector2::new(vector.y, -vector.x))
        }
    } else {
        None
    }
}

/// `position` moved `steps` times along `direction`.
pub open spec fn moved(position: Point, direction: Point, steps: int) -> Point {
    (position.0 + direction.0 * steps, position.1 + direction.1 * steps)
}

/// `position` moved `steps` times along `direction`, if every number on the
/// way fits.
pub fn advance(position: Vector2<isize>, direction: Vector2<isize>, steps: isize) -> (r: Option<
    Vector2<isize>,
>)
    ensures
        match r {
            Some(reached) => point(reached) == moved(point(position), point(direction), steps as int)
                && fits((direction.x * steps, direction.y * steps)),
            None => !fits((direction.x * steps, direction.y * steps)) || !fits(
                moved(point(position), point(direction), steps as int),
            ),
        },
{
    match direction.checked_mul(steps) {
        Some(way) => position.checked_add(way),
        None => None,
    }
}

/// Which part of the ship's state an instruction acts on.
#[derive(Debug, Clone, Copy)]
pub enum Part {
    /// Moves move the ship, turns turn it, and it goes forward where it
    /// looks.
    One,
    /// Moves move the waypoint, turns turn the waypoint about the ship, and
    /// the ship goes forward to the waypoint.
    Two,
}

/// Where `instruction` leaves the ship: its position, and with it the
/// direction it looks in under [`Part::One`] or the waypoint under
/// [`Part::Two`]. Nothing where a turn is no number of right angles, or
/// where a number does not fit.
pub open spec fn execute_spec(part: Part, instruction: Instruction, position: Point, aim: Point) -> Option<
    (Point, Point),
> {
    let (direction, steps) = match instruction {
        Instruction::North(steps) => ((0int, 1int), steps),
        Instruction::South(steps) => ((0int, -1int), steps),
        Instruction::East(steps) => ((1int, 0int), steps),
        Instruction::West(steps) => ((-1int, 0int), steps),
        Instruction::Rotate(degrees) => ((0int, 0int), 0isize),
        Instruction::Forward(steps) => (aim, steps),
    };
    let way = (direction.0 * steps, direction.1 * steps);
    match instruction {
        Instruction::Rotate(degrees) => match rotate_spec(aim, degrees as int) {
            Some(turned) => if fits(turned) {
                Some((position, turned))
            } else {
                None
            },
            None => None,
        },
        Instruction::Forward(_) => if fits(way) && fits(
            moved(position, direction, steps as int),
        ) {
            Some((moved(position, direction, steps as int), aim))
        } else {
            None
        },
        _ => match part {
            Part::One => if fits(way) && fits(moved(position, direction, steps as int)) {
                Some((moved(position, direction, steps as int), aim))
            } else {
                None
            },
            Part::Two => if fits(way) && fits(moved(aim, direction, steps as int)) {
                Some((position, moved(aim, direction, steps as int)))
            } else {
                None
            },
        },
    }
}

/// Where `instructions` leave the ship, one after the other.
pub open spec fn execute_all_spec(
    part: Part,
    instructions: Seq<Instruction>,
    position: Point,
    aim: Point,
) -> Option<(Point, Point)>
    decreases instructions.len(),
{
    if instructions.len() == 0 {
        Some((position, aim))
    } else {
        match execute_all_spec(part, instructions.drop_last(), position, aim) {
            Some((reached, turned)) => execute_spec(part, instructions.last(), reached, turned),
            None => None,
        }
    }
}

proof fn lemma_execute_all_fails_on(
    part: Part,
    instructions: Seq<Instruction>,
    position: Point,
    aim: Point,
    k: int,
)
    requires
        0 <= k <= instructions.len(),
        execute_all_spec(part, instructions.take(k), position, aim) is None,
    ensures
        execute_all_spec(part, instructions, position, aim) is None,
    decreases instructions.len(),
{
    if k == instructions.len() {
        assert(instructions.take(k) =~= instructions);
    } else {
        assert(instructions.drop_last().take(k) =~= instructions.take(k));
        lemma_execute_all_fails_on(part, instructions.drop_last(), position, aim, k);
    }
}

/// The ship: where it is, where it looks, and where its waypoint lies,
/// seen from the ship.
pub struct World {
    pub position: Vector2<isize>,
    pub dir: Vector2<isize>,
    pub waypoint: Vector2<isize>,
}

/// Carries out `instruction` under `part`.
pub fn execute_instruction(
    part: Part,
    instruction: &Instruction,
    position: Vector2<isize>,
    aim: Vector2<isize>,
) -> (r: Option<(Vector2<isize>, Vector2<isize>)>)
    ensures
        match r {
            Some((reached, turned)) => execute_spec(
                part,
                *instruction,
                point(position),
                point(aim),
            ) == Some((point(reached), point(turned))),
            None => execute_spec(part, *instruction, point(position), point(aim)) is None,
        },
{
    let (direction, steps) = match instruction {
        Instruction::North(steps) => (Vector2::new(0, 1), *steps),
        Instruction::South(steps) => (Vector2::new(0, -1), *steps),
        Instruction::East(steps) => (Vector2::new(1, 0), *steps),
        Instruction::West(steps) => (Vector2::new(-1, 0), *steps),
        Instruction::Rotate(degrees) => {
            return match rotate(aim, *degrees) {
                Some(turned) => Some((position, turned)),
                None => None,
            };
        },
        Instruction::Forward(steps) => {
            return match advance(position, aim, *steps) {
                Some(reached) => Some((reached, aim)),
                None => None,
            };
        },
    };
    match part {
        Part::One => match advance(position, direction, steps) {
            Some(reached) => Some((reached, aim)),
            None => None,
        },
        Part::Two => match advance(aim, direction, steps) {
            Some(moved) => Some((position, moved)),
            None => None,
        },
    }
}

impl World {
    /// A ship at the origin that looks east.
    pub fn new() -> (world: Self)
        ensures
            point(world.position) == (0int, 0int),
            point(world.dir) == (1int, 0int),
            point(world.waypoint) == (0int, 0int),
    {
        World {
            position: Vector2::new(0, 0),
            dir: Vector2::new(1, 0),
            waypoint: Vector2::new(0, 0),
        }
    }

    /// A ship at the origin that looks east, with its waypoint at
    /// `waypoint_position`.
    pub fn with_waypoint(waypoint_position: Vector2<isize>) -> (world: Self)
        ensures
            point(world.position) == (0int, 0int),
            point(world.dir) == (1int, 0int),
            world.waypoint == waypoint_position,
    {
        World {
            position: Vector2::new(0, 0),
            dir: Vector2::new(1, 0),
            waypoint: waypoint_position,
        }
    }

    pub fn execute_instruction_part_1(
        instruction: &Instruction,
        position: Vector2<isize>,
        dir: Vector2<isize>,
    ) -> (r: Option<(Vector2<isize>, Vector2<isize>)>)
        ensures
            match r {
                Some((reached, turned)) => execute_spec(
                    Part::One,
                    *instruction,
                    point(position),
                    point(dir),
                ) == Some((point(reached), point(turned))),
                None => execute_spec(Part::One, *instruction, point(position), point(dir))
                    is None,
            },
    {
        execute_instruction(Part::One, instruction, position, dir)
    }

    pub fn execute_instruction_part_2(
        instruction: &Instruction,
        position: Vector2<isize>,
        waypoint: Vector2<isize>,
    ) -> (r: Option<(Vector2<isize>, Vector2<isize>)>)
        ensures
            match r {
                Some((reached, moved)) => execute_spec(
                    Part::Two,
                    *instruction,
                    point(position),
                    point(waypoint),
                ) == Some((point(reached), point(moved))),
                None => execute_spec(Part::Two, *instruction, point(position), point(waypoint))
                    is None,
            },
    {
        execute_instruction(Part::Two, instruction, position, waypoint)
    }

    /// Carries out `instructions` under `part`, from `position` and `aim` on.
    pub fn execute_all(
        part: Part,
        instructions: &Vec<Instruction>,
        position: Vector2<isize>,
        aim: Vector2<isize>,
    ) -> (r: Option<(Vector2<isize>, Vector2<isize>)>)
        ensures
            match r {
                Some((reached, turned)) => execute_all_spec(
                    part,
                    instructions@,
                    point(position),
                    point(aim),
                ) == Some((point(reached), point(turned))),
                None => execute_all_spec(part, instructions@, point(position), point(aim))
                    is None,
            },
    {
        let mut reached = position;
        let mut turned = aim;
        let mut i: usize = 0;
        while i < instructions.len()
            invariant
                i <= instructions.len(),
                execute_all_spec(part, instructions@.take(i as int), point(position), point(aim))
                    == Some((point(reached), point(turned))),
            decreases instructions.len() - i,
        {
            proof {
                assert(instructions@.take(i + 1).drop_last() =~= instructions@.take(i as int));
                assert(instructions@.take(i + 1).last() == instructions@[i as int]);
            }
            match execute_instruction(part, &instructions[i], reached, turned) {
                Some((next, aim)) => {
                    reached = next;
                    turned = aim;
                },
                None => {
                    proof {
                        lemma_execute_all_fails_on(
                            part,
                            instructions@,
                            point(position),
                            point(aim),
                            i + 1,
                        );
                    }
                    return None;
                },
            }
            i += 1;
        }
        assert(instructions@.take(instructions.len() as int) =~= instructions@);
        Some((reached, turned))
    }

    /// Carries out `instructions`, which move and turn the ship. Says
    /// whether all of them could be carried out; where not, the ship stays
    /// as it was.
    pub fn execute_instructions_part_1(&mut self, instructions: &Vec<Instruction>) -> (done: bool)
        ensures
            final(self).waypoint == old(self).waypoint,
            match execute_all_spec(
                Part::One,
                instructions@,
                point(old(self).position),
                point(old(self).dir),
            ) {
                Some((reached, turned)) => done && point(final(self).position) == reached
                    && point(final(self).dir) == turned,
                None => !done && *final(self) == *old(self),
            },
    {
        match World::execute_all(Part::One, instructions, self.position, self.dir) {
            Some((reached, turned)) => {
                self.position = reached;
                self.dir = turned;
                true
            },
            None => false,
        }
    }

    /// Carries out `instructions`, which move and turn the waypoint. Says
    /// whether all of them could be carried out; where not, the ship stays
    /// as it was.
    pub fn execute_instructions_part_2(&mut self, instructions: &Vec<Instruction>) -> (done: bool)
        ensures
            final(self).dir == old(self).dir,
            match execute_all_spec(
                Part::Two,
                instructions@,
                point(old(self).position),
                point(old(self).waypoint),
            ) {
                Some((reached, moved)) => done && point(final(self).position) == reached
                    && point(final(self).waypoint) == moved,
                None => !done && *final(self) == *old(self),
            },
    {
        match World::execute_all(Part::Two, instructions, self.position, self.waypoint) {
            Some((reached, moved)) => {
                self.position = reached;
                self.waypoint = moved;
                true
            },
            None => false,
        }
    }

    /// How far the ship is from the origin, along the axes; nothing where
    /// that does not fit.
    pub fn ship_manhattan_distance(&self) -> (r: Option<isize>)
        ensures
            match r {
                Some(d) => d == self.position.manhattan_distance_spec(Vector2 { x: 0, y: 0 }),
                None => self.position.manhattan_distance_spec(Vector2 { x: 0, y: 0 })
                    > isize::MAX,
            },
    {
        let origin: Vector2<isize> = Vector2::new(0, 0);
        let x = self.position.x as i128;
        let y = self.position.y as i128;
        let far = (if x < 0 {
            -x
        } else {
            x
        }) + (if y < 0 {
            -y
        } else {
            y
        });
        if far <= isize::MAX as i128 {
            Some(self.position.manhattan_distance(origin))
        } else {
            None
        }
    }
}

/// [`Instruction::from_str_spec`] as a value.
pub open spec fn instruction_fn() -> spec_fn(Seq<char>) -> Option<Instruction> {
    |line: Seq<char>| Instruction::from_str_spec(line)
}

/// The distance of `p` from the origin, along the axes.
pub open spec fn far(p: Point) -> int {
    (if p.0 < 0 {
        -p.0
    } else {
        p.0
    }) + (if p.1 < 0 {
        -p.1
    } else {
        p.1
    })
}

/// What a star yields: how far from the origin the instructions on the
/// lines of `input` leave the ship, which starts at the origin with `aim`.
/// Nothing where a line states no instruction, where a turn is no number of
/// right angles, or where a number does not fit.
pub open spec fn star_spec(part: Part, input: Seq<char>, aim: Point) -> Option<isize> {
    match parse_all_spec(lines_spec(input), instruction_fn()) {
        Some(instructions) => match execute_all_spec(part, instructions, (0, 0), aim) {
            Some((reached, _)) => if far(reached) <= isize::MAX {
                Some(far(reached) as isize)
            } else {
                None
            },
            None => None,
        },
        None => None,
    }
}

/// Reads the instructions.
pub fn instructions(input: &str) -> (r: Option<Vec<Instruction>>)
    ensures
        match r {
            Some(found) => parse_all_spec(lines_spec(input@), instruction_fn()) == Some(found@),
            None => parse_all_spec(lines_spec(input@), instruction_fn()) is None,
        },
{
    let found = lines(input);
    let read = |line: &Vec<char>| -> (r: Option<Instruction>)
        ensures
            r == Instruction::from_str_spec(line@),
        { Instruction::from_str(line) };
    let r = parse_all::<Instruction, Instruction, _>(
        &found,
        read,
        Ghost(instruction_fn()),
        Ghost(|instruction: Instruction| instruction),
    );
    proof {
        if r is Some {
            assert(r->Some_0@.map_values(|instruction: Instruction| instruction) =~= r->Some_0@);
        }
    }
    r
}

/// How far from the origin the ship ends when the instructions move and
/// turn the ship itself, which looks east at first.
pub fn star_one(input: &str) -> (r: Option<isize>)
    ensures
        r == star_spec(Part::One, input@, (1, 0)),
{
    let instructions = match instructions(input) {
        Some(instructions) => instructions,
        None => {
            return None;
        },
    };
    let mut world = World::new();
    if !world.execute_instructions_part_1(&instructions) {
        return None;
    }
    world.ship_manhattan_distance()
}

/// How far from the origin the ship ends when the instructions move and
/// turn its waypoint, which lies ten east and one north of it at first.
pub fn star_two(input: &str) -> (r: Option<isize>)
    ensures
        r == star_spec(Part::Two, input@, (10, 1)),
{
    let instructions = match instructions(input) {
        Some(instructions) => instructions,
        None => {
            return None;
        },
    };
    let mut world = World::with_waypoint(Vector2::new(10, 1));
    if !world.execute_instructions_part_2(&instructions) {
        return None;
    }
    world.ship_manhattan_distance()
}

} // verus!
