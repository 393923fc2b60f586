//! Adapters that each take an input of up to three jolts less than their
//! own rating, put in a chain from the outlet to the device.

use vstd::prelude::*;
use crate::text::{contains, lines, lines_spec, numbers, numbers_spec};

verus! {

/// The largest of `numbers`, or zero where there is none.
pub open spec fn largest(numbers: Seq<usize>) -> usize
    decreases numbers.len(),
{
    if numbers.len() == 0 {
        0
    } else if numbers.last() > largest(numbers.drop_last()) {
        numbers.last()
    } else {
        largest(numbers.drop_last())
    }
}

/// The largest of the numbers is at least each of them.
pub proof fn lemma_largest(numbers: Seq<usize>, x: usize)
    requires
        numbers.contains(x),
    ensures
        x <= largest(numbers),
    decreases numbers.len(),
{
    if numbers.last() != x {
        let i = choose|i: int| 0 <= i < numbers.len() && numbers[i] == x;
        assert(numbers.drop_last()[i] == x);
        lemma_largest(numbers.drop_last(), x);
    }
}

/// The largest of `numbers`.
pub fn max(numbers: &Vec<usize>) -> (most: usize)
    ensures
        most == largest(numbers@),
{
    let mut most: usize = 0;
    let mut i: usize = 0;
    while i < numbers.len()
        invariant
            i <= numbers.len(),
            most == largest(numbers@.take(i as int)),
        decreases numbers.len() - i,
    {
        proof {
            assert(numbers@.take(i + 1).drop_last() =~= numbers@.take(i as int));
            assert(numbers@.take(i + 1).last() == numbers@[i as int]);
        }
        if numbers[i] > most {
            most = numbers[i];
        }
        i += 1;
    }
    assert(numbers@.take(numbers.len() as int) =~= numbers@);
    most
}

/// Whether something is rated `jolts`: one of the adapters, or the device,
/// which is rated `top`.
pub open spec fn rated(adapters: Seq<usize>, top: nat, jolts: nat) -> bool {
    jolts == top || (jolts <= usize::MAX && adapters.contains(jolts as usize))
}

/// The chain from `jolts` up to the device, which always goes on with the
/// least rating that is more than the one before it, and at most three
/// more: how many steps of one and how many steps of three it makes, after
/// `ones` and `threes` of them so far. Nothing where it cannot go on.
pub open spec fn chain(adapters: Seq<usize>, top: nat, jolts: nat, ones: nat, threes: nat) -> Option<
    (nat, nat),
>
    decreases top - jolts,
{
    if jolts >= top {
        Some((ones, threes))
    } else if rated(adapters, top, jolts + 1) {
        chain(adapters, top, jolts + 1, ones + 1, threes)
    } else if jolts + 2 <= top && rated(adapters, top, jolts + 2) {
        chain(adapters, top, jolts + 2, ones, threes)
    } else if jolts + 3 <= top && rated(adapters, top, jolts + 3) {
        chain(adapters, top, jolts + 3, ones, threes + 1)
    } else {
        None
    }
}

/// What [`star_one`] yields: the number of steps of one times the number of
/// steps of three in the chain of all adapters, from the outlet at zero to
/// the device, which is rated three more than the largest adapter. Nothing
/// where a line holds no number, where there is no adapter, where the chain
/// cannot be made, where it has no step of one or none of three, or where a
/// number does not fit.
pub open spec fn star_one_spec(input: Seq<char>) -> Option<usize> {
    match numbers_spec(lines_spec(input)) {
        None => None,
        Some(adapters) => if adapters.len() == 0 || largest(adapters) + 3 > usize::MAX {
            None
        } else {
            match chain(adapters, (largest(adapters) + 3) as nat, 0, 0, 0) {
                Some((ones, threes)) => if ones > 0 && threes > 0 && ones * threes
                    <= usize::MAX {
                    Some((ones * threes) as usize)
                } else {
                    None
                },
                None => None,
            }
        },
    }
}

/// Whether something is rated `jolts`.
pub fn is_rated(adapters: &Vec<usize>, top: usize, jolts: usize) -> (found: bool)
    ensures
        found == rated(adapters@, top as nat, jolts as nat),
{
    jolts == top || contains(adapters, jolts)
}

#[verifier::loop_isolation(false)]
pub fn star_one(input: &str) -> (r: Option<usize>)
    ensures
        r == star_one_spec(input@),
{
    let adapters = match numbers(&lines(input)) {
        Some(adapters) => adapters,
        None => {
            return None;
        },
    };
    if adapters.len() == 0 {
        return None;
    }
    let top = match max(&adapters).checked_add(3) {
        Some(top) => top,
        None => {
            return None;
        },
    };
    let mut jolts: usize = 0;
    let mut ones: usize = 0;
    let mut threes: usize = 0;
    while jolts < top
        invariant
            jolts <= top,
            ones <= jolts,
            threes <= jolts,
            chain(adapters@, top as nat, 0, 0, 0) == chain(
                adapters@,
                top as nat,
                jolts as nat,
                ones as nat,
                threes as nat,
            ),
        decreases top - jolts,
    {
        if is_rated(&adapters, top, jolts + 1) {
            jolts = jolts + 1;
            ones = ones + 1;
        } else if jolts + 2 <= top && is_rated(&adapters, top, jolts + 2) {
            jolts = jolts + 2;
        } else if jolts + 3 <= top && is_rated(&adapters, top, jolts + 3) {
            jolts = jolts + 3;
            threes = threes + 1;
        } else {
            return None;
        }
    }
    if ones == 0 || threes == 0 {
        return None;
    }
    ones.checked_mul(threes)
}

/// In how many ways adapters can be put in a chain from the outlet at zero
/// to something rated `jolts`.
pub open spec fn ways(adapters: Seq<usize>, top: nat, jolts: int) -> nat
    decreases jolts + 3,
{
    if jolts < 0 {
        0
    } else if jolts == 0 {
        1
    } else if !rated(adapters, top, jolts as nat) {
        0
    } else {
        ways(adapters, top, jolts - 1) + ways(adapters, top, jolts - 2) + ways(
            adapters,
            top,
            jolts - 3,
        )
    }
}

/// Whether the number of ways fits the machine's numbers for every rating
/// up to `jolts`.
pub open spec fn ways_fit(adapters: Seq<usize>, top: nat, jolts: int) -> bool {
    forall|j: int| 0 <= j <= jolts ==> #[trigger] ways(adapters, top, j) <= usize::MAX
}

/// Past three ratings in a row that cannot be reached nothing can be
/// reached.
pub proof fn lemma_no_way_on(adapters: Seq<usize>, top: nat, from: int, to: int)
    requires
        3 <= from <= to,
        ways(adapters, top, from) == 0,
        ways(adapters, top, from - 1) == 0,
        ways(adapters, top, from - 2) == 0,
    ensures
        ways(adapters, top, to) == 0,
    decreases to - from,
{
    if from < to {
        lemma_no_way_on(adapters, top, from + 1, to);
    }
}

/// What [`star_two`] yields: in how many ways adapters can be put in a chain
/// from the outlet to the device. Nothing where a line holds no number,
/// where there is no adapter or one rated zero, where there is no way, or
/// where a number does not fit.
pub open spec fn star_two_spec(input: Seq<char>) -> Option<usize> {
    match numbers_spec(lines_spec(input)) {
        None => None,
        Some(adapters) => {
            let top = (largest(adapters) + 3) as nat;
            if adapters.len() == 0 || adapters.contains(0) || top > usize::MAX || ways(
                adapters,
                top,
                top as int,
            ) == 0 || !ways_fit(adapters, top, top as int) {
                None
            } else {
                Some(ways(adapters, top, top as int) as usize)
            }
        },
    }
}

#[verifier::loop_isolation(false)]
pub fn star_two(input: &str) -> (r: Option<usize>)
    ensures
        r == star_two_spec(input@),
{
    let adapters = match numbers(&lines(input)) {
        Some(adapters) => adapters,
        None => {
            return None;
        },
    };
    if adapters.len() == 0 || contains(&adapters, 0) {
        return None;
    }
    let top = match max(&adapters).checked_add(3) {
        Some(top) => top,
        None => {
            return None;
        },
    };
    let ghost all = adapters@;
    // The ways to the last three ratings.
    let mut one_back: usize = 1;
    let mut two_back: usize = 0;
    let mut three_back: usize = 0;
    let mut jolts: usize = 0;
    while jolts < top
        invariant
            jolts <= top,
            one_back == ways(all, top as nat, jolts as int),
            two_back == ways(all, top as nat, jolts - 1),
            three_back == ways(all, top as nat, jolts - 2),
            ways_fit(all, top as nat, jolts as int),
        decreases top - jolts,
    {
        if jolts >= 2 && one_back == 0 && two_back == 0 && three_back == 0 {
            proof {
                lemma_no_way_on(all, top as nat, jolts as int, top as int);
            }
            return None;
        }
        jolts = jolts + 1;
        let here: u128 = if is_rated(&adapters, top, jolts) {
            one_back as u128 + two_back as u128 + three_back as u128
        } else {
            0
        };
        if here > usize::MAX as u128 {
            assert(ways(all, top as nat, jolts as int) == here);
            assert(!ways_fit(all, top as nat, top as int));
            return None;
        }
        three_back = two_back;
        two_back = one_back;
        one_back = here as usize;
    }
    if one_back == 0 {
        None
    } else {
        Some(one_back)
    }
}

} // verus!
