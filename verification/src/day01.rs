//! Entries of an expense report that add up to 2020.

use vstd::prelude::*;
use crate::text::{contains, lines, lines_spec, numbers, numbers_spec};

verus! {

/// The sum that the entries are to reach.
pub const TARGET: usize = 2020;

/// The least number from `x` on that stands in `numbers` together with what
/// it lacks to the target.
pub open spec fn least_pair(numbers: Seq<usize>, x: nat) -> Option<nat>
    decreases 2021 - x,
{
    if x > 2020 {
        None
    } else if numbers.contains(x as usize) && numbers.contains((2020 - x) as usize) {
        Some(x)
    } else {
        least_pair(numbers, x + 1)
    }
}

/// The first two of three entries of `numbers` that add up to the target:
/// the least first entry from `x` on, and with it the least second entry,
/// from `y` on where the first is `x`.
pub open spec fn least_triple(numbers: Seq<usize>, x: nat, y: nat) -> Option<(nat, nat)>
    decreases 2021 - x, 2021 - y,
{
    if x > 2020 {
        None
    } else if y > 2020 - x {
        least_triple(numbers, x + 1, 0)
    } else if numbers.contains(x as usize) && numbers.contains(y as usize) && numbers.contains(
        (2020 - x - y) as usize,
    ) {
        Some((x, y))
    } else {
        least_triple(numbers, x, y + 1)
    }
}

/// The product of the two entries of the report that add up to 2020, the
/// lesser of them as small as can be; zero where no two do. Nothing where a
/// line of the report is no number.
pub open spec fn star_one_spec(input: Seq<char>) -> Option<usize> {
    match numbers_spec(lines_spec(input)) {
        None => None,
        Some(numbers) => Some(
            match least_pair(numbers, 0) {
                Some(x) => (x * (2020 - x)) as usize,
                None => 0,
            },
        ),
    }
}

/// The product of the three entries of the report that add up to 2020, the
/// first of them as small as can be and then the second; zero where no
/// three do. Nothing where a line of the report is no number.
pub open spec fn star_two_spec(input: Seq<char>) -> Option<usize> {
    match numbers_spec(lines_spec(input)) {
        None => None,
        Some(numbers) => Some(
            match least_triple(numbers, 0, 0) {
                Some((x, y)) => (x * y * (2020 - x - y)) as usize,
                None => 0,
            },
        ),
    }
}

proof fn lemma_no_triple_without_first(numbers: Seq<usize>, x: nat, y: nat)
    requires
        x <= 2020,
        y <= 2021 - x,
        !numbers.contains(x as usize),
    ensures
        least_triple(numbers, x, y) == least_triple(numbers, x + 1, 0),
    decreases 2021 - x - y,
{
    if y <= 2020 - x {
        lemma_no_triple_without_first(numbers, x, y + 1);
    }
}

pub fn star_one(input: &str) -> (r: Option<usize>)
    ensures
        r == star_one_spec(input@),
{
    let report = match numbers(&lines(input)) {
        Some(report) => report,
        None => {
            return None;
        },
    };
    let mut x: usize = 0;
    while x <= TARGET
        invariant
            x <= 2021,
            numbers_spec(lines_spec(input@)) == Some(report@),
            least_pair(report@, 0) == least_pair(report@, x as nat),
        decreases 2021 - x,
    {
        if contains(&report, x) && contains(&report, TARGET - x) {
            assert(x * (2020 - x) <= 2020 * 2020) by (nonlinear_arith)
                requires
                    0 <= x <= 2020,
            ;
            return Some(x * (TARGET - x));
        }
        x += 1;
    }
    Some(0)
}

pub fn star_two(input: &str) -> (r: Option<usize>)
    ensures
        r == star_two_spec(input@),
{
    let report = match numbers(&lines(input)) {
        Some(report) => report,
        None => {
            return None;
        },
    };
    let mut x: usize = 0;
    while x <= TARGET
        invariant
            x <= 2021,
            numbers_spec(lines_spec(input@)) == Some(report@),
            least_triple(report@, 0, 0) == least_triple(report@, x as nat, 0),
        decreases 2021 - x,
    {
        if contains(&report, x) {
            let mut y: usize = 0;
            while y <= TARGET - x
                invariant
                    x <= 2020,
                    y <= 2021 - x,
                    report@.contains(x),
                    numbers_spec(lines_spec(input@)) == Some(report@),
                    least_triple(report@, 0, 0) == least_triple(report@, x as nat, y as nat),
                decreases 2021 - y,
            {
                if contains(&report, y) && contains(&report, TARGET - x - y) {
                    let z: usize = TARGET - x - y;
                    assert(x * y <= 1020100) by (nonlinear_arith)
                        requires
                            0 <= x,
                            0 <= y,
                            x + y <= 2020,
                    {
                        assert(4 * (x * y) <= (x + y) * (x + y));
                        assert((x + y) * (x + y) <= 2020 * 2020);
                    }
                    assert(x * y * z <= 1020100 * 2020) by (nonlinear_arith)
                        requires
                            0 <= x * y <= 1020100,
                            0 <= z <= 2020,
                    ;
                    return Some(x * y * z);
                }
                y += 1;
            }
        } else {
            proof {
                lemma_no_triple_without_first(report@, x as nat, 0);
            }
        }
        x += 1;
    }
    Some(0)
}

} // verus!
