//! A list of numbers in which each is to be the sum of two of those
//! shortly before it.

use vstd::prelude::*;
use itertools::Itertools;
use crate::text::{lines, lines_spec, numbers, numbers_spec};

verus! {

/// The pairs of `s` whose first member stands before the second, ordered by
/// where the first stands and then by where the second does.
pub open spec fn pairs_of(s: Seq<usize>) -> Seq<(usize, usize)>
    decreases s.len(),
{
    if s.len() < 2 {
        Seq::empty()
    } else {
        Seq::new((s.len() - 1) as nat, |j: int| (s[0], s[j + 1])) + pairs_of(s.skip(1))
    }
}

/// `Itertools::combinations` with a length of two, on the numbers of
/// `window`: the pairs of its numbers, first by the place of the first
/// member, then by that of the second, a pair for every two places.
#[verifier::external_body]
fn pairs(window: &Vec<usize>) -> (found: Vec<(usize, usize)>)
    ensures
        found@ == pairs_of(window@),
{
    window.iter().combinations(2).map(|pair| (*pair[0], *pair[1])).collect()
}

/// Whether two numbers at different places of `window` add up to `n`.
pub open spec fn is_sum_of_two(window: Seq<usize>, n: usize) -> bool {
    exists|a: int, b: int|
        0 <= a < b < window.len() && #[trigger] window[a] + #[trigger] window[b] == n
}

/// Whether a pair of `pairs` adds up to `n`.
pub open spec fn has_sum(pairs: Seq<(usize, usize)>, n: usize) -> bool {
    exists|k: int| 0 <= k < pairs.len() && (#[trigger] pairs[k]).0 + pairs[k].1 == n
}

/// The pairs of a window are its numbers at any two different places.
pub proof fn lemma_pairs_of(s: Seq<usize>, n: usize)
    ensures
        has_sum(pairs_of(s), n) == is_sum_of_two(s, n),
    decreases s.len(),
{
    if s.len() >= 2 {
        let first = Seq::new((s.len() - 1) as nat, |j: int| (s[0], s[j + 1]));
        let rest = pairs_of(s.skip(1));
        lemma_pairs_of(s.skip(1), n);
        if has_sum(pairs_of(s), n) {
            let k = choose|k: int|
                0 <= k < pairs_of(s).len() && (#[trigger] pairs_of(s)[k]).0 + pairs_of(s)[k].1
                    == n;
            if k < first.len() {
                assert(pairs_of(s)[k] == first[k]);
                assert(s[0] + s[k + 1] == n);
            } else {
                assert(pairs_of(s)[k] == rest[k - first.len()]);
                assert(has_sum(rest, n));
                let (a, b) = choose|a: int, b: int|
                    0 <= a < b < s.skip(1).len() && #[trigger] s.skip(1)[a] + #[trigger] s.skip(
                        1,
                    )[b] == n;
                assert(s[a + 1] + s[b + 1] == n);
            }
        }
        if is_sum_of_two(s, n) {
            let (a, b) = choose|a: int, b: int|
                0 <= a < b < s.len() && #[trigger] s[a] + #[trigger] s[b] == n;
            if a == 0 {
                assert(pairs_of(s)[b - 1] == first[b - 1]);
                assert(pairs_of(s)[b - 1].0 + pairs_of(s)[b - 1].1 == n);
            } else {
                assert(s.skip(1)[a - 1] + s.skip(1)[b - 1] == n);
                assert(is_sum_of_two(s.skip(1), n));
                let k = choose|k: int|
                    0 <= k < rest.len() && (#[trigger] rest[k]).0 + rest[k].1 == n;
                assert(pairs_of(s)[first.len() + k] == rest[k]);
                assert(pairs_of(s)[first.len() + k].0 + pairs_of(s)[first.len() + k].1 == n);
            }
        }
    }
}

/// The first number of `numbers`, from the place `i` on, that is not the sum
/// of two of the `window_size` numbers before it.
pub open spec fn first_invalid(numbers: Seq<usize>, window_size: nat, i: nat) -> Option<usize>
    decreases numbers.len() - i,
{
    if i < window_size || i >= numbers.len() {
        None
    } else if !is_sum_of_two(numbers.subrange(i - window_size, i as int), numbers[i as int]) {
        Some(numbers[i as int])
    } else {
        first_invalid(numbers, window_size, i + 1)
    }
}

/// What [`star_one`] yields: the first number, after the first `window_size`
/// ones, that is not the sum of two of the `window_size` numbers before it;
/// zero where there is none. Nothing where a line holds no number.
pub open spec fn star_one_spec(input: Seq<char>, window_size: usize) -> Option<usize> {
    match numbers_spec(lines_spec(input)) {
        Some(numbers) => Some(
            match first_invalid(numbers, window_size as nat, window_size as nat) {
                Some(n) => n,
                None => 0,
            },
        ),
        None => None,
    }
}

/// Whether a pair of `pairs` adds up to `n`.
pub fn any_sum(pairs: &Vec<(usize, usize)>, n: usize) -> (found: bool)
    ensures
        found == has_sum(pairs@, n),
{
    let mut k: usize = 0;
    while k < pairs.len()
        invariant
            k <= pairs.len(),
            forall|j: int| 0 <= j < k ==> (#[trigger] pairs@[j]).0 + pairs@[j].1 != n,
        decreases pairs.len() - k,
    {
        let (a, b) = pairs[k];
        if a as u128 + b as u128 == n as u128 {
            return true;
        }
        k += 1;
    }
    false
}

/// The numbers of `numbers` from `from` up to `to`.
pub fn window(numbers: &Vec<usize>, from: usize, to: usize) -> (found: Vec<usize>)
    requires
        from <= to <= numbers.len(),
    ensures
        found@ == numbers@.subrange(from as int, to as int),
{
    let mut found: Vec<usize> = Vec::new();
    let mut i: usize = from;
    while i < to
        invariant
            from <= i <= to <= numbers.len(),
            found@ == numbers@.subrange(from as int, i as int),
        decreases to - i,
    {
        found.push(numbers[i]);
        assert(numbers@.subrange(from as int, i + 1) =~= numbers@.subrange(
            from as int,
            i as int,
        ).push(numbers@[i as int]));
        i += 1;
    }
    found
}

pub fn star_one(input: &str, window_size: usize) -> (r: Option<usize>)
    ensures
        r == star_one_spec(input@, window_size),
{
    let found = match numbers(&lines(input)) {
        Some(found) => found,
        None => {
            return None;
        },
    };
    let mut i: usize = window_size;
    while i < found.len()
        invariant
            window_size <= i,
            numbers_spec(lines_spec(input@)) == Some(found@),
            first_invalid(found@, window_size as nat, window_size as nat) == first_invalid(
                found@,
                window_size as nat,
                i as nat,
            ),
        decreases found.len() - i,
    {
        let before = window(&found, i - window_size, i);
        proof {
            lemma_pairs_of(before@, found@[i as int]);
        }
        if !any_sum(&pairs(&before), found[i]) {
            return Some(found[i]);
        }
        i += 1;
    }
    Some(0)
}

/// The sum of the numbers of `numbers` from `from` up to `to`.
pub open spec fn sum_of(numbers: Seq<usize>, from: int, to: int) -> nat
    decreases to - from,
{
    if from >= to {
        0
    } else {
        sum_of(numbers, from, to - 1) + numbers[to - 1] as nat
    }
}

/// The least of the numbers of `numbers` from `from` up to `to`.
pub open spec fn least_of(numbers: Seq<usize>, from: int, to: int) -> usize
    decreases to - from,
{
    if from + 1 >= to {
        numbers[from]
    } else if numbers[to - 1] < least_of(numbers, from, to - 1) {
        numbers[to - 1]
    } else {
        least_of(numbers, from, to - 1)
    }
}

/// The largest of the numbers of `numbers` from `from` up to `to`.
pub open spec fn largest_of(numbers: Seq<usize>, from: int, to: int) -> usize
    decreases to - from,
{
    if from + 1 >= to {
        numbers[from]
    } else if numbers[to - 1] > largest_of(numbers, from, to - 1) {
        numbers[to - 1]
    } else {
        largest_of(numbers, from, to - 1)
    }
}

/// Where the first run of `size` numbers in a row that add up to `target`
/// starts, looked for from `from` on.
pub open spec fn first_run(numbers: Seq<usize>, target: usize, size: nat, from: nat) -> Option<
    nat,
>
    decreases numbers.len() + 1 - from,
{
    if from + size > numbers.len() {
        None
    } else if sum_of(numbers, from as int, (from + size) as int) == target {
        Some(from)
    } else {
        first_run(numbers, target, size, from + 1)
    }
}

/// The shortest run of at least `size` numbers in a row that add up to
/// `target`, and among the runs of that length the first: where it starts
/// and how long it is.
pub open spec fn shortest_run(numbers: Seq<usize>, target: usize, size: nat) -> Option<
    (nat, nat),
>
    decreases numbers.len() + 1 - size,
{
    if size > numbers.len() {
        None
    } else {
        match first_run(numbers, target, size, 0) {
            Some(from) => Some((from, size)),
            None => shortest_run(numbers, target, size + 1),
        }
    }
}

/// What [`star_two`] yields: the sum of the least and the largest number of
/// the shortest run of two or more numbers in a row that add up to `target`.
/// Nothing where a line holds no number, where no run adds up to `target`,
/// or where the sum does not fit.
pub open spec fn star_two_spec(input: Seq<char>, target: usize) -> Option<usize> {
    match numbers_spec(lines_spec(input)) {
        Some(numbers) => match shortest_run(numbers, target, 2) {
            Some((from, size)) => {
                let sum = least_of(numbers, from as int, (from + size) as int) + largest_of(
                    numbers,
                    from as int,
                    (from + size) as int,
                );
                if sum <= usize::MAX {
                    Some(sum as usize)
                } else {
                    None
                }
            },
            None => None,
        },
        None => None,
    }
}

/// Whether the `size` numbers from `from` on add up to `target`.
pub fn adds_up(numbers: &Vec<usize>, from: usize, size: usize, target: usize) -> (found: bool)
    requires
        from + size <= numbers.len(),
    ensures
        found == (sum_of(numbers@, from as int, from + size) == target),
{
    let mut sum: u128 = 0;
    let mut i: usize = from;
    while i < from + size
        invariant
            from <= i <= from + size <= numbers.len(),
            sum == sum_of(numbers@, from as int, i as int),
            sum <= (i - from) * usize::MAX,
        decreases from + size - i,
    {
        assert((i - from) * usize::MAX + usize::MAX == (i + 1 - from) * usize::MAX)
            by (nonlinear_arith);
        assert((i - from) * usize::MAX <= usize::MAX * usize::MAX) by (nonlinear_arith)
            requires
                0 <= i - from <= usize::MAX,
        ;
        assert(usize::MAX * usize::MAX + usize::MAX < u128::MAX) by (nonlinear_arith)
            requires
                usize::MAX <= u64::MAX,
        ;
        sum = sum + numbers[i] as u128;
        i += 1;
    }
    sum == target as u128
}

pub fn star_two(input: &str, target: usize) -> (r: Option<usize>)
    ensures
        r == star_two_spec(input@, target),
{
    let found = match numbers(&lines(input)) {
        Some(found) => found,
        None => {
            return None;
        },
    };
    let mut size: usize = 2;
    while size <= found.len()
        invariant
            2 <= size,
            numbers_spec(lines_spec(input@)) == Some(found@),
            shortest_run(found@, target, 2) == shortest_run(found@, target, size as nat),
        decreases found.len() + 1 - size,
    {
        let mut from: usize = 0;
        while from <= found.len() - size
            invariant
                2 <= size <= found.len(),
                numbers_spec(lines_spec(input@)) == Some(found@),
                shortest_run(found@, target, 2) == shortest_run(found@, target, size as nat),
                first_run(found@, target, size as nat, 0) == first_run(
                    found@,
                    target,
                    size as nat,
                    from as nat,
                ),
            decreases found.len() + 1 - from,
        {
            if adds_up(&found, from, size, target) {
                let mut least: usize = found[from];
                let mut largest: usize = found[from];
                let mut i: usize = from + 1;
                while i < from + size
                    invariant
                        from < i <= from + size <= found.len(),
                        least == least_of(found@, from as int, i as int),
                        largest == largest_of(found@, from as int, i as int),
                    decreases from + size - i,
                {
                    if found[i] < least {
                        least = found[i];
                    }
                    if found[i] > largest {
                        largest = found[i];
                    }
                    i += 1;
                }
                return least.checked_add(largest);
            }
            from += 1;
        }
        if size == found.len() {
            assert(shortest_run(found@, target, (size + 1) as nat) is None);
            return None;
        }
        size += 1;
    }
    None
}

} // verus!
