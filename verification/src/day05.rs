//! Boarding passes that name a seat by halving the plane seven times and the
//! row three times.

use vstd::prelude::*;
use crate::text::{contains, lemma_parse_all_each, lines, lines_spec, parse_all, parse_all_spec};

verus! {

/// A seat: its row and its column.
#[derive(Debug, Clone, Copy, PartialEq, Eq, Hash)]
pub struct BoardingPass {
    pub row: usize,
    pub column: usize,
}

/// The small letter for a capital ASCII letter; any other character as it
/// is.
pub open spec fn to_ascii_lowercase_spec(c: char) -> char {
    if 'A' <= c <= 'Z' {
        ((c as u8) + 32) as char
    } else {
        c
    }
}

pub fn to_ascii_lowercase(c: char) -> (lowered: char)
    ensures
        lowered == to_ascii_lowercase_spec(c),
{
    if 'A' <= c && c <= 'Z' {
        ((c as u8) + 32) as char
    } else {
        c
    }
}

/// The half of `range` that `c` picks: the upper half for the letter `high`,
/// the lower half for the letter `low`, in small or capital. Nothing for any
/// other character.
pub open spec fn halve(range: (nat, nat), c: char, chars: (char, char)) -> Option<(nat, nat)> {
    let half = ((range.1 - range.0) / 2) as nat;
    if to_ascii_lowercase_spec(c) == chars.0 {
        Some((range.0 + half, range.1))
    } else if to_ascii_lowercase_spec(c) == chars.1 {
        Some((range.0, range.0 + half))
    } else {
        None
    }
}

/// What is left of `range`, which runs from its first number up to but not
/// including its second, after each character of `input` has halved it.
pub open spec fn reduce_range_spec(input: Seq<char>, range: (nat, nat), chars: (char, char)) -> Option<
    (nat, nat),
>
    decreases input.len(),
{
    if input.len() == 0 {
        Some(range)
    } else {
        match reduce_range_spec(input.drop_last(), range, chars) {
            Some(before) => halve(before, input.last(), chars),
            None => None,
        }
    }
}

/// Halving leaves a part of the range.
pub proof fn lemma_reduce_range_within(input: Seq<char>, range: (nat, nat), chars: (char, char))
    requires
        range.0 <= range.1,
    ensures
        reduce_range_spec(input, range, chars) matches Some(left) ==> range.0 <= left.0 <= left.1
            <= range.1,
    decreases input.len(),
{
    if input.len() > 0 {
        lemma_reduce_range_within(input.drop_last(), range, chars);
    }
}

proof fn lemma_reduce_range_fails_on(
    input: Seq<char>,
    range: (nat, nat),
    chars: (char, char),
    k: int,
)
    requires
        0 <= k <= input.len(),
        reduce_range_spec(input.take(k), range, chars) is None,
    ensures
        reduce_range_spec(input, range, chars) is None,
    decreases input.len(),
{
    if k == input.len() {
        assert(input.take(k) =~= input);
    } else {
        assert(input.drop_last().take(k) =~= input.take(k));
        lemma_reduce_range_fails_on(input.drop_last(), range, chars, k);
    }
}

/// Halves the range from `start` up to but not including `end` once for each
/// character of `input` from `from` up to `to`.
pub fn reduce_range(
    input: &Vec<char>,
    from: usize,
    to: usize,
    start: usize,
    end: usize,
    chars: (char, char),
) -> (r: Option<(usize, usize)>)
    requires
        from <= to <= input.len(),
        start <= end,
    ensures
        match r {
            Some(left) => reduce_range_spec(
                input@.subrange(from as int, to as int),
                (start as nat, end as nat),
                chars,
            ) == Some((left.0 as nat, left.1 as nat)),
            None => reduce_range_spec(
                input@.subrange(from as int, to as int),
                (start as nat, end as nat),
                chars,
            ) is None,
        },
        r matches Some(left) ==> start <= left.0 <= left.1 <= end,
{
    let ghost steps = input@.subrange(from as int, to as int);
    let mut low: usize = start;
    let mut high: usize = end;
    let mut i: usize = from;
    while i < to
        invariant
            from <= i <= to <= input.len(),
            steps == input@.subrange(from as int, to as int),
            start <= low <= high <= end,
            reduce_range_spec(steps.take(i - from), (start as nat, end as nat), chars) == Some(
                (low as nat, high as nat),
            ),
        decreases to - i,
    {
        proof {
            assert(steps.take(i - from + 1).drop_last() =~= steps.take(i - from));
            assert(steps.take(i - from + 1).last() == input@[i as int]);
        }
        let half = (high - low) / 2;
        let lowered = to_ascii_lowercase(input[i]);
        if lowered == chars.0 {
            low = low + half;
        } else if lowered == chars.1 {
            high = low + half;
        } else {
            proof {
                lemma_reduce_range_fails_on(steps, (start as nat, end as nat), chars, i - from + 1);
            }
            return None;
        }
        i += 1;
    }
    assert(steps.take(to - from) =~= steps);
    Some((low, high))
}

impl BoardingPass {
    pub fn new(row: usize, column: usize) -> (pass: Self)
        ensures
            pass.row == row,
            pass.column == column,
    {
        BoardingPass { row, column }
    }

    /// The number of the seat.
    pub open spec fn id_spec(&self) -> nat {
        (self.row * 8 + self.column) as nat
    }

    /// The number of the seat.
    pub fn id(&self) -> (id: usize)
        requires
            self.id_spec() <= usize::MAX,
        ensures
            id == self.id_spec(),
    {
        self.row * 8 + self.column
    }

    /// The seats of the rows 0 to 126, row after row.
    pub fn all() -> (seats: Vec<BoardingPass>)
        ensures
            seats@.len() == 127 * 8,
            forall|row: int, column: int|
                0 <= row < 127 && 0 <= column < 8 ==> #[trigger] seats@[row * 8 + column]
                    == (BoardingPass { row: row as usize, column: column as usize }),
    {
        let mut seats: Vec<BoardingPass> = Vec::new();
        let mut row: usize = 0;
        while row < 127
            invariant
                row <= 127,
                seats@.len() == row * 8,
                forall|r: int, c: int|
                    0 <= r < row && 0 <= c < 8 ==> #[trigger] seats@[r * 8 + c] == (BoardingPass {
                        row: r as usize,
                        column: c as usize,
                    }),
            decreases 127 - row,
        {
            let mut column: usize = 0;
            while column < 8
                invariant
                    row < 127,
                    column <= 8,
                    seats@.len() == row * 8 + column,
                    forall|r: int, c: int|
                        0 <= r < row && 0 <= c < 8 ==> #[trigger] seats@[r * 8 + c]
                            == (BoardingPass { row: r as usize, column: c as usize }),
                    forall|c: int|
                        0 <= c < column ==> #[trigger] seats@[row * 8 + c] == (BoardingPass {
                            row,
                            column: c as usize,
                        }),
                decreases 8 - column,
            {
                seats.push(BoardingPass::new(row, column));
                column += 1;
            }
            row += 1;
        }
        seats
    }

    /// The seat that `s` names: ten characters, seven of `B` and `F`, capital
    /// or small, that halve the rows 0 to 127, and three of `L` and `R`,
    /// capital, that halve the columns 0 to 7.
    pub open spec fn from_str_spec(s: Seq<char>) -> Option<BoardingPass> {
        if s.len() != 10 || !(forall|i: int| 7 <= i < 10 ==> s[i] == 'L' || s[i] == 'R') {
            None
        } else {
            match (
                reduce_range_spec(s.subrange(0, 7), (0, 128), ('b', 'f')),
                reduce_range_spec(s.subrange(7, 10), (0, 8), ('r', 'l')),
            ) {
                (Some(rows), Some(columns)) => if rows.1 - rows.0 == 1 && columns.1 - columns.0
                    == 1 {
                    Some(BoardingPass { row: rows.0 as usize, column: columns.0 as usize })
                } else {
                    None
                },
                _ => None,
            }
        }
    }

    pub fn from_str(s: &Vec<char>) -> (r: Option<BoardingPass>)
        ensures
            r == BoardingPass::from_str_spec(s@),
    {
        if s.len() != 10 {
            return None;
        }
        if !((s[7] == 'L' || s[7] == 'R') && (s[8] == 'L' || s[8] == 'R') && (s[9] == 'L' || s[9]
            == 'R')) {
            return None;
        }
        let rows = reduce_range(s, 0, 7, 0, 128, ('b', 'f'));
        let columns = reduce_range(s, 7, 10, 0, 8, ('r', 'l'));
        match (rows, columns) {
            (Some(rows), Some(columns)) => {
                if rows.1 - rows.0 == 1 && columns.1 - columns.0 == 1 {
                    Some(BoardingPass { row: rows.0, column: columns.0 })
                } else {
                    None
                }
            },
            _ => None,
        }
    }
}

/// [`BoardingPass::from_str_spec`] as a value.
pub open spec fn pass_fn() -> spec_fn(Seq<char>) -> Option<BoardingPass> {
    |line: Seq<char>| BoardingPass::from_str_spec(line)
}

/// A seat that a line names lies in the rows 0 to 127 and the columns 0 to 7.
pub proof fn lemma_pass_in_plane(s: Seq<char>)
    ensures
        BoardingPass::from_str_spec(s) matches Some(pass) ==> pass.row < 128 && pass.column < 8,
{
    if s.len() == 10 {
        lemma_reduce_range_within(s.subrange(0, 7), (0, 128), ('b', 'f'));
        lemma_reduce_range_within(s.subrange(7, 10), (0, 8), ('r', 'l'));
    }
}

/// The numbers of `passes`.
pub open spec fn ids_of(passes: Seq<BoardingPass>) -> Seq<usize> {
    passes.map_values(|pass: BoardingPass| pass.id_spec() as usize)
}

/// The largest of `ids`, or zero where there is none.
pub open spec fn largest(ids: Seq<usize>) -> usize
    decreases ids.len(),
{
    if ids.len() == 0 {
        0
    } else if ids.last() > largest(ids.drop_last()) {
        ids.last()
    } else {
        largest(ids.drop_last())
    }
}

/// The least number from `id` up to 1015 that is none of `ids`, while the
/// numbers next to it on both sides are.
pub open spec fn least_free(ids: Seq<usize>, id: nat) -> Option<nat>
    decreases 1016 - id,
{
    if id < 1 || id > 1015 {
        None
    } else if !ids.contains(id as usize) && ids.contains((id - 1) as usize) && ids.contains(
        (id + 1) as usize,
    ) {
        Some(id)
    } else {
        least_free(ids, id + 1)
    }
}

/// What [`star_one`] yields: the largest number of a seat that the lines of
/// `input` name. Nothing where a line names no seat, or where there is no
/// line.
pub open spec fn star_one_spec(input: Seq<char>) -> Option<usize> {
    match parse_all_spec(lines_spec(input), pass_fn()) {
        Some(passes) => if passes.len() > 0 {
            Some(largest(ids_of(passes)))
        } else {
            None
        },
        None => None,
    }
}

/// What [`star_two`] yields: the least number of a seat from row 1 to row
/// 126 that no line names, while lines name the seats with the numbers next
/// to it; zero where there is no such seat. Nothing where a line names no
/// seat.
pub open spec fn star_two_spec(input: Seq<char>) -> Option<usize> {
    match parse_all_spec(lines_spec(input), pass_fn()) {
        Some(passes) => Some(
            match least_free(ids_of(passes), 8) {
                Some(id) => id as usize,
                None => 0,
            },
        ),
        None => None,
    }
}

/// The numbers of the seats that the lines of `input` name.
pub fn ids(input: &str) -> (r: Option<Vec<usize>>)
    ensures
        match r {
            Some(found) => parse_all_spec(lines_spec(input@), pass_fn()) matches Some(passes)
                && found@ == ids_of(passes),
            None => parse_all_spec(lines_spec(input@), pass_fn()) is None,
        },
{
    let found = lines(input);
    let read = |line: &Vec<char>| -> (r: Option<BoardingPass>)
        ensures
            r == BoardingPass::from_str_spec(line@),
        { BoardingPass::from_str(line) };
    let passes = match parse_all::<BoardingPass, BoardingPass, _>(
        &found,
        read,
        Ghost(pass_fn()),
        Ghost(|pass: BoardingPass| pass),
    ) {
        Some(passes) => passes,
        None => {
            return None;
        },
    };
    proof {
        lemma_parse_all_each(lines_spec(input@), pass_fn());
        assert(passes@.map_values(|pass: BoardingPass| pass) =~= passes@);
    }
    let mut ids: Vec<usize> = Vec::new();
    let mut i: usize = 0;
    while i < passes.len()
        invariant
            i <= passes.len(),
            parse_all_spec(lines_spec(input@), pass_fn()) == Some(passes@),
            passes@.len() == lines_spec(input@).len(),
            forall|k: int|
                0 <= k < passes.len() ==> pass_fn()(lines_spec(input@)[k]) == Some(
                    #[trigger] passes@[k],
                ),
            ids@ == ids_of(passes@.take(i as int)),
        decreases passes.len() - i,
    {
        proof {
            lemma_pass_in_plane(lines_spec(input@)[i as int]);
        }
        ids.push(passes[i].id());
        assert(ids@ =~= ids_of(passes@.take(i + 1)));
        i += 1;
    }
    assert(passes@.take(passes.len() as int) =~= passes@);
    Some(ids)
}

pub fn star_one(input: &str) -> (r: Option<usize>)
    ensures
        r == star_one_spec(input@),
{
    let ids = match ids(input) {
        Some(ids) => ids,
        None => {
            return None;
        },
    };
    if ids.len() == 0 {
        return None;
    }
    let mut most: usize = 0;
    let mut i: usize = 0;
    while i < ids.len()
        invariant
            i <= ids.len(),
            most == largest(ids@.take(i as int)),
        decreases ids.len() - i,
    {
        proof {
            assert(ids@.take(i + 1).drop_last() =~= ids@.take(i as int));
            assert(ids@.take(i + 1).last() == ids@[i as int]);
        }
        if ids[i] > most {
            most = ids[i];
        }
        i += 1;
    }
    assert(ids@.take(ids.len() as int) =~= ids@);
    Some(most)
}

pub fn star_two(input: &str) -> (r: Option<usize>)
    ensures
        r == star_two_spec(input@),
{
    let ids = match ids(input) {
        Some(ids) => ids,
        None => {
            return None;
        },
    };
    let ghost passes = parse_all_spec(lines_spec(input@), pass_fn())->Some_0;
    let mut id: usize = 8;
    while id <= 1015
        invariant
            8 <= id <= 1016,
            parse_all_spec(lines_spec(input@), pass_fn()) == Some(passes),
            ids@ == ids_of(passes),
            least_free(ids@, 8) == least_free(ids@, id as nat),
        decreases 1016 - id,
    {
        if !contains(&ids, id) && contains(&ids, id - 1) && contains(&ids, id + 1) {
            return Some(id);
        }
        id += 1;
    }
    Some(0)
}

} // verus!
