//! Passwords, each held against the policy that stands before it.

use vstd::prelude::*;
use crate::text::{
    count, lines, lines_spec, occurrences, parse_usize, split, split_spec, texts, trim, trim_spec,
    unsigned_spec, words, words_spec,
};

verus! {

/// A letter with two numbers, which are read as the policy in force wants.
#[derive(Debug, Clone, Copy)]
pub struct Policy {
    pub required_char: char,
    pub start: usize,
    pub end: usize,
}

/// A password with the policy that it is held against.
#[derive(Debug, Clone)]
pub struct Entry {
    pub policy: Policy,
    pub password: Vec<char>,
}

impl Policy {
    /// Whether the letter stands in `password` at least `start` and at most
    /// `end` times.
    pub open spec fn is_valid_sled_spec(&self, password: Seq<char>) -> bool {
        self.start <= occurrences(password, self.required_char) <= self.end
    }

    /// Whether the letter stands at `position` of `password`, counted from
    /// one.
    pub open spec fn stands_at(&self, password: Seq<char>, position: usize) -> bool {
        1 <= position <= password.len() && password[position - 1] == self.required_char
    }

    /// Whether the letter stands at exactly one of the two positions `start`
    /// and `end`, which have to differ.
    pub open spec fn is_valid_toboggan_spec(&self, password: Seq<char>) -> bool {
        self.start != self.end && (self.stands_at(password, self.start) != self.stands_at(
            password,
            self.end,
        ))
    }

    pub fn is_valid_sled(&self, password: &Vec<char>) -> (valid: bool)
        ensures
            valid == self.is_valid_sled_spec(password@),
    {
        let n = count(password, self.required_char);
        self.start <= n && n <= self.end
    }

    fn found_at(&self, password: &Vec<char>, position: usize) -> (found: bool)
        ensures
            found == self.stands_at(password@, position),
    {
        1 <= position && position <= password.len() && password[position - 1]
            == self.required_char
    }

    pub fn is_valid_toboggan(&self, password: &Vec<char>) -> (valid: bool)
        ensures
            valid == self.is_valid_toboggan_spec(password@),
    {
        self.start != self.end && (self.found_at(password, self.start) != self.found_at(
            password,
            self.end,
        ))
    }

    /// The policy that `s` states: two numbers with a `-` between them, and,
    /// after white space, a letter. What follows the letter is passed over.
    pub open spec fn from_str_spec(s: Seq<char>) -> Option<Policy> {
        let parts = words_spec(s);
        if parts.len() < 2 {
            None
        } else {
            let bounds = split_spec(parts[0], '-');
            if bounds.len() != 2 || parts[1].len() == 0 {
                None
            } else {
                match (
                    unsigned_spec(trim_spec(bounds[0]), usize::MAX as nat),
                    unsigned_spec(trim_spec(bounds[1]), usize::MAX as nat),
                ) {
                    (Some(start), Some(end)) => Some(
                        Policy {
                            required_char: parts[1][0],
                            start: start as usize,
                            end: end as usize,
                        },
                    ),
                    _ => None,
                }
            }
        }
    }

    pub fn from_str(s: &Vec<char>) -> (r: Option<Policy>)
        ensures
            r == Policy::from_str_spec(s@),
    {
        let parts = words(s);
        if parts.len() < 2 {
            return None;
        }
        assert(texts(parts@)[0] == parts@[0]@);
        assert(texts(parts@)[1] == parts@[1]@);
        let bounds = split(&parts[0], '-');
        if bounds.len() != 2 || parts[1].len() == 0 {
            return None;
        }
        assert(texts(bounds@)[0] == bounds@[0]@);
        assert(texts(bounds@)[1] == bounds@[1]@);
        match (parse_usize(&trim(&bounds[0])), parse_usize(&trim(&bounds[1]))) {
            (Some(start), Some(end)) => Some(Policy { required_char: parts[1][0], start, end }),
            _ => None,
        }
    }
}

impl Entry {
    pub open spec fn is_valid_sled_spec(&self) -> bool {
        self.policy.is_valid_sled_spec(self.password@)
    }

    pub open spec fn is_valid_toboggan_spec(&self) -> bool {
        self.policy.is_valid_toboggan_spec(self.password@)
    }

    pub fn is_valid_sled(&self) -> (valid: bool)
        ensures
            valid == self.is_valid_sled_spec(),
    {
        self.policy.is_valid_sled(&self.password)
    }

    pub fn is_valid_toboggan(&self) -> (valid: bool)
        ensures
            valid == self.is_valid_toboggan_spec(),
    {
        self.policy.is_valid_toboggan(&self.password)
    }

    /// The policy and the password that `s` states: the policy, a `:`, and
    /// the password, which is taken without the white space around it.
    pub open spec fn from_str_spec(s: Seq<char>) -> Option<(Policy, Seq<char>)> {
        let parts = split_spec(s, ':');
        if parts.len() != 2 {
            None
        } else {
            match Policy::from_str_spec(parts[0]) {
                Some(policy) => Some((policy, trim_spec(parts[1]))),
                None => None,
            }
        }
    }

    pub fn from_str(s: &Vec<char>) -> (r: Option<Entry>)
        ensures
            match r {
                Some(entry) => Entry::from_str_spec(s@) == Some((entry.policy, entry.password@)),
                None => Entry::from_str_spec(s@) is None,
            },
    {
        let parts = split(s, ':');
        if parts.len() != 2 {
            return None;
        }
        assert(texts(parts@)[0] == parts@[0]@);
        assert(texts(parts@)[1] == parts@[1]@);
        match Policy::from_str(&parts[0]) {
            Some(policy) => Some(Entry { policy, password: trim(&parts[1]) }),
            None => None,
        }
    }
}

/// Which of the two readings of a policy is in force.
#[derive(Debug, Clone, Copy)]
pub enum Reading {
    Sled,
    Toboggan,
}

/// Whether the entry that `line` states is valid under `reading`; nothing
/// where the line states no entry.
pub open spec fn valid_line(reading: Reading, line: Seq<char>) -> Option<bool> {
    match Entry::from_str_spec(line) {
        Some((policy, password)) => Some(
            match reading {
                Reading::Sled => policy.is_valid_sled_spec(password),
                Reading::Toboggan => policy.is_valid_toboggan_spec(password),
            },
        ),
        None => None,
    }
}

/// How many of `lines` state an entry that is valid under `reading`; nothing
/// where one of them states no entry.
pub open spec fn count_valid(reading: Reading, lines: Seq<Seq<char>>) -> Option<nat>
    decreases lines.len(),
{
    if lines.len() == 0 {
        Some(0)
    } else {
        match (count_valid(reading, lines.drop_last()), valid_line(reading, lines.last())) {
            (Some(n), Some(valid)) => Some(
                if valid {
                    n + 1
                } else {
                    n
                },
            ),
            _ => None,
        }
    }
}

proof fn lemma_count_valid_fails_on(reading: Reading, lines: Seq<Seq<char>>, k: int)
    requires
        0 <= k <= lines.len(),
        count_valid(reading, lines.take(k)) is None,
    ensures
        count_valid(reading, lines) is None,
    decreases lines.len(),
{
    if k == lines.len() {
        assert(lines.take(k) =~= lines);
    } else {
        assert(lines.drop_last().take(k) =~= lines.take(k));
        lemma_count_valid_fails_on(reading, lines.drop_last(), k);
    }
}

/// How many lines of `input` state an entry that is valid under `reading`.
pub fn count_valid_entries(reading: Reading, input: &str) -> (r: Option<usize>)
    ensures
        r matches Some(n) ==> count_valid(reading, lines_spec(input@)) == Some(n as nat),
        r is None ==> count_valid(reading, lines_spec(input@)) is None,
{
    let found = lines(input);
    let mut n: usize = 0;
    let mut i: usize = 0;
    while i < found.len()
        invariant
            i <= found.len(),
            n <= i,
            texts(found@) == lines_spec(input@),
            count_valid(reading, texts(found@).take(i as int)) == Some(n as nat),
        decreases found.len() - i,
    {
        proof {
            let upto = texts(found@).take(i + 1);
            assert(upto.drop_last() =~= texts(found@).take(i as int));
            assert(upto.last() == found[i as int]@);
        }
        match Entry::from_str(&found[i]) {
            Some(entry) => {
                let valid = match reading {
                    Reading::Sled => entry.is_valid_sled(),
                    Reading::Toboggan => entry.is_valid_toboggan(),
                };
                if valid {
                    n += 1;
                }
            },
            None => {
                proof {
                    lemma_count_valid_fails_on(reading, texts(found@), i + 1);
                }
                return None;
            },
        }
        i += 1;
    }
    assert(texts(found@).take(found.len() as int) =~= texts(found@));
    Some(n)
}

/// How many passwords hold their letter as often as their policy asks.
/// Nothing where a line states no entry.
pub fn star_one(input: &str) -> (r: Option<usize>)
    ensures
        r matches Some(n) ==> count_valid(Reading::Sled, lines_spec(input@)) == Some(n as nat),
        r is None ==> count_valid(Reading::Sled, lines_spec(input@)) is None,
{
    count_valid_entries(Reading::Sled, input)
}

/// How many passwords hold their letter at exactly one of the two positions
/// of their policy. Nothing where a line states no entry.
pub fn star_two(input: &str) -> (r: Option<usize>)
    ensures
        r matches Some(n) ==> count_valid(Reading::Toboggan, lines_spec(input@)) == Some(
            n as nat,
        ),
        r is None ==> count_valid(Reading::Toboggan, lines_spec(input@)) is None,
{
    count_valid_entries(Reading::Toboggan, input)
}

} // verus!
