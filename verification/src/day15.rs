//! A game of memory: each number says how long ago the number before it had
//! been said before.

use vstd::prelude::*;
use std::collections::HashMap;
use crate::text::{
    chars_of, numbers, numbers_spec, split, split_spec, texts, trim, trimmed_non_empty,
};

verus! {

broadcast use vstd::std_specs::hash::group_hash_axioms;

/// When a number was said: for the first time, and the last two times. The
/// last two times are the same where it was said once.
#[derive(Debug, Clone, Copy)]
pub struct Entry {
    pub first_spoken: usize,
    pub last_spoken: (usize, usize),
}

impl Entry {
    /// The entry of a number that is said for the first time at the turn
    /// `first_spoken`.
    pub fn new(first_spoken: usize) -> (entry: Self)
        ensures
            entry.first_spoken == first_spoken,
            entry.last_spoken == (first_spoken, first_spoken),
    {
        Entry { first_spoken, last_spoken: (first_spoken, first_spoken) }
    }

    /// Whether the number was said once only.
    pub fn is_first(&self) -> (first: bool)
        ensures
            first == (self.first_spoken == self.last_spoken.1),
    {
        self.first_spoken == self.last_spoken.1
    }

    /// How many turns lie between the last two times.
    pub fn age(&self) -> (age: usize)
        requires
            self.last_spoken.0 <= self.last_spoken.1,
        ensures
            age == self.last_spoken.1 - self.last_spoken.0,
    {
        self.last_spoken.1 - self.last_spoken.0
    }

    /// Takes down that the number is said at `turn`.
    pub fn spoken(&mut self, turn: usize)
        ensures
            final(self).first_spoken == old(self).first_spoken,
            final(self).last_spoken == (old(self).last_spoken.1, turn),
    {
        self.last_spoken = (self.last_spoken.1, turn);
    }
}

/// The last turn, counted from one, at which `v` is among `spoken`.
pub open spec fn previous_turn(spoken: Seq<usize>, v: usize) -> Option<nat>
    decreases spoken.len(),
{
    if spoken.len() == 0 {
        None
    } else if spoken.last() == v {
        Some(spoken.len())
    } else {
        previous_turn(spoken.drop_last(), v)
    }
}

/// A number is last said at one of the turns so far.
pub proof fn lemma_previous_turn_bounds(spoken: Seq<usize>, v: usize)
    ensures
        previous_turn(spoken, v) matches Some(turn) ==> 1 <= turn <= spoken.len(),
    decreases spoken.len(),
{
    if spoken.len() > 0 {
        lemma_previous_turn_bounds(spoken.drop_last(), v);
    }
}

/// The number that follows `spoken`: how many turns before the last turn
/// the last number had been said before, or zero where it had not.
pub open spec fn next_spoken(spoken: Seq<usize>) -> usize
    recommends
        spoken.len() > 0,
{
    match previous_turn(spoken.drop_last(), spoken.last()) {
        Some(turn) => (spoken.len() - turn) as usize,
        None => 0,
    }
}

/// The numbers of the first `turns` turns of the game that starts with
/// `start`.
pub open spec fn game(start: Seq<usize>, turns: nat) -> Seq<usize>
    decreases turns,
{
    if turns <= start.len() {
        start.take(turns as int)
    } else {
        game(start, (turns - 1) as nat).push(next_spoken(game(start, (turns - 1) as nat)))
    }
}

/// The game has as many numbers as turns, where it has all its starting
/// numbers.
pub proof fn lemma_game_len(start: Seq<usize>, turns: nat)
    requires
        turns >= start.len(),
    ensures
        game(start, turns).len() == turns,
    decreases turns,
{
    if turns > start.len() {
        lemma_game_len(start, (turns - 1) as nat);
    }
}

/// Whether `entry` is what is to be known of `v` after `spoken`.
pub open spec fn recorded(entry: Entry, spoken: Seq<usize>, v: usize) -> bool {
    &&& previous_turn(spoken, v) == Some(entry.last_spoken.1 as nat)
    &&& entry.first_spoken <= entry.last_spoken.0 <= entry.last_spoken.1
    &&& match previous_turn(spoken.take(entry.last_spoken.1 - 1), v) {
        Some(turn) => entry.last_spoken.0 == turn && entry.first_spoken < entry.last_spoken.1,
        None => entry.last_spoken.0 == entry.last_spoken.1 && entry.first_spoken
            == entry.last_spoken.1,
    }
}

/// Whether `entries` hold what is to be known after `spoken`.
pub open spec fn models(entries: Map<usize, Entry>, spoken: Seq<usize>) -> bool {
    &&& forall|v: usize| #[trigger] entries.contains_key(v) <==> previous_turn(spoken, v) is Some
    &&& forall|v: usize| #[trigger] entries.contains_key(v) ==> recorded(entries[v], spoken, v)
}

/// Takes down that `number` is said at `turn`, the turn after `spoken`.
pub fn speak(
    entries: &mut HashMap<usize, Entry>,
    number: usize,
    turn: usize,
    Ghost(spoken): Ghost<Seq<usize>>,
)
    requires
        models(old(entries)@, spoken),
        turn == spoken.len() + 1,
    ensures
        models(final(entries)@, spoken.push(number)),
{
    let ghost after = spoken.push(number);
    let entry = match entries.get(&number) {
        Some(known) => {
            let mut entry = *known;
            entry.spoken(turn);
            proof {
                lemma_previous_turn_bounds(spoken, number);
                assert(after.take(turn - 1) =~= spoken);
            }
            entry
        },
        None => {
            proof {
                assert(after.take(turn - 1) =~= spoken);
            }
            Entry::new(turn)
        },
    };
    let ghost before = entries@;
    entries.insert(number, entry);
    proof {
        assert(after.drop_last() =~= spoken);
        assert forall|v: usize| #[trigger] entries@.contains_key(v) implies recorded(
            entries@[v],
            after,
            v,
        ) by {
            if v != number {
                lemma_previous_turn_bounds(spoken, v);
                assert(after.take(before[v].last_spoken.1 - 1) =~= spoken.take(
                    before[v].last_spoken.1 - 1,
                ));
            }
        }
    }
}

/// The numbers that `input` holds, with commas between them.
pub open spec fn starting_numbers(input: Seq<char>) -> Option<Seq<usize>> {
    numbers_spec(trimmed_non_empty(split_spec(input, ',')))
}

/// What [`star_one`] yields: the number of the turn `nth_number` of the
/// game that starts with the numbers of `input`; the last of these where the
/// game is still at them. Nothing where `input` holds something that is no
/// number, or where it holds no number and the game is to have a turn.
pub open spec fn star_one_spec(input: Seq<char>, nth_number: usize) -> Option<usize> {
    match starting_numbers(input) {
        None => None,
        Some(start) => if nth_number <= start.len() {
            Some(
                if start.len() == 0 {
                    0
                } else {
                    start.last()
                },
            )
        } else if start.len() == 0 {
            None
        } else {
            Some(game(start, nth_number as nat).last())
        },
    }
}

/// Reads the starting numbers.
pub fn parse(input: &str) -> (r: Option<Vec<usize>>)
    ensures
        match r {
            Some(found) => starting_numbers(input@) == Some(found@),
            None => starting_numbers(input@) is None,
        },
{
    let pieces = split(&chars_of(input), ',');
    let mut found: Vec<Vec<char>> = Vec::new();
    let mut i: usize = 0;
    while i < pieces.len()
        invariant
            i <= pieces.len(),
            texts(found@) == trimmed_non_empty(texts(pieces@).take(i as int)),
        decreases pieces.len() - i,
    {
        let piece = trim(&pieces[i]);
        proof {
            let upto = texts(pieces@).take(i + 1);
            assert(upto.drop_last() =~= texts(pieces@).take(i as int));
            assert(upto.last() == pieces[i as int]@);
        }
        if piece.len() > 0 {
            let ghost before = texts(found@);
            found.push(piece);
            assert(texts(found@) =~= before.push(piece@));
        }
        i += 1;
    }
    assert(texts(pieces@).take(pieces.len() as int) =~= texts(pieces@));
    numbers(&found)
}

#[verifier::loop_isolation(false)]
pub fn star_one(input: &str, nth_number: usize) -> (r: Option<usize>)
    ensures
        r == star_one_spec(input@, nth_number),
{
    let start = match parse(input) {
        Some(start) => start,
        None => {
            return None;
        },
    };
    let mut entries: HashMap<usize, Entry> = HashMap::new();
    let mut most_recently_spoken: usize = 0;
    let ghost mut spoken: Seq<usize> = Seq::empty();
    let mut i: usize = 0;
    while i < start.len()
        invariant
            i <= start.len(),
            spoken == start@.take(i as int),
            models(entries@, spoken),
            i > 0 ==> most_recently_spoken == start@[i - 1],
            i == 0 ==> most_recently_spoken == 0,
        decreases start.len() - i,
    {
        most_recently_spoken = start[i];
        speak(&mut entries, start[i], i + 1, Ghost(spoken));
        proof {
            spoken = spoken.push(start@[i as int]);
            assert(spoken =~= start@.take(i + 1));
        }
        i += 1;
    }
    assert(start@.take(start.len() as int) =~= start@);
    if nth_number <= start.len() {
        return Some(most_recently_spoken);
    }
    if start.len() == 0 {
        return None;
    }
    let mut turn: usize = start.len();
    while turn < nth_number
        invariant
            start.len() <= turn <= nth_number,
            spoken == game(start@, turn as nat),
            spoken.len() == turn,
            models(entries@, spoken),
            most_recently_spoken == spoken.last(),
        decreases nth_number - turn,
    {
        let number = match entries.get(&most_recently_spoken) {
            Some(entry) => {
                proof {
                    assert(spoken.drop_last() =~= spoken.take(turn - 1));
                    assert(previous_turn(spoken, most_recently_spoken) == Some(turn as nat));
                }
                if entry.is_first() {
                    0
                } else {
                    entry.age()
                }
            },
            None => {
                assert(previous_turn(spoken, most_recently_spoken) is Some);
                return None;
            },
        };
        speak(&mut entries, number, turn + 1, Ghost(spoken));
        proof {
            spoken = spoken.push(number);
        }
        most_recently_spoken = number;
        turn += 1;
    }
    Some(most_recently_spoken)
}

/// The same as [`star_one`], for games that go on for longer.
pub fn star_two(input: &str, nth_number: usize) -> (r: Option<usize>)
    ensures
        r == star_one_spec(input@, nth_number),
{
    star_one(input, nth_number)
}

} // verus!
