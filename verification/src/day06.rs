//! Answers of groups of people, a group on the lines between two empty
//! lines and a person on each line.

use vstd::prelude::*;
use crate::text::{
    chars_of, contains_char, plain_lines, plain_lines_spec, split_text, split_text_spec, texts,
};

verus! {

/// The characters of `s`, each once, in the order in which they first come.
pub open spec fn distinct(s: Seq<char>) -> Seq<char>
    decreases s.len(),
{
    if s.len() == 0 {
        Seq::empty()
    } else if distinct(s.drop_last()).contains(s.last()) {
        distinct(s.drop_last())
    } else {
        distinct(s.drop_last()).push(s.last())
    }
}

/// The texts of `lines`, one after the other.
pub open spec fn concat_all(lines: Seq<Seq<char>>) -> Seq<char>
    decreases lines.len(),
{
    if lines.len() == 0 {
        Seq::empty()
    } else {
        concat_all(lines.drop_last()) + lines.last()
    }
}

/// Whether `c` stands on each of `lines`.
pub open spec fn on_every(lines: Seq<Seq<char>>, c: char) -> bool {
    forall|i: int| 0 <= i < lines.len() ==> (#[trigger] lines[i]).contains(c)
}

/// How many of `chars` stand on each of `lines`.
pub open spec fn count_on_every(chars: Seq<char>, lines: Seq<Seq<char>>) -> nat
    decreases chars.len(),
{
    if chars.len() == 0 {
        0
    } else if on_every(lines, chars.last()) {
        count_on_every(chars.drop_last(), lines) + 1
    } else {
        count_on_every(chars.drop_last(), lines)
    }
}

/// How a group is counted.
#[derive(Debug, Clone, Copy)]
pub enum Rule {
    /// The questions that anyone of the group answered.
    Anyone,
    /// The questions that everyone of the group answered.
    Everyone,
}

/// How many questions count for the group whose answers `group` holds.
pub open spec fn group_count(rule: Rule, group: Seq<char>) -> nat {
    let lines = plain_lines_spec(group);
    let answered = distinct(concat_all(lines));
    match rule {
        Rule::Anyone => answered.len(),
        Rule::Everyone => count_on_every(answered, lines),
    }
}

/// The sum of what `groups` count for, if it fits.
pub open spec fn sum_of_groups(rule: Rule, groups: Seq<Seq<char>>) -> Option<nat>
    decreases groups.len(),
{
    if groups.len() == 0 {
        Some(0)
    } else {
        match sum_of_groups(rule, groups.drop_last()) {
            Some(sum) => if sum + group_count(rule, groups.last()) <= usize::MAX {
                Some(sum + group_count(rule, groups.last()))
            } else {
                None
            },
            None => None,
        }
    }
}

proof fn lemma_sum_of_groups_fails_on(rule: Rule, groups: Seq<Seq<char>>, k: int)
    requires
        0 <= k <= groups.len(),
        sum_of_groups(rule, groups.take(k)) is None,
    ensures
        sum_of_groups(rule, groups) is None,
    decreases groups.len(),
{
    if k == groups.len() {
        assert(groups.take(k) =~= groups);
    } else {
        assert(groups.drop_last().take(k) =~= groups.take(k));
        lemma_sum_of_groups_fails_on(rule, groups.drop_last(), k);
    }
}

/// The characters that stand on `lines`, each once.
pub fn answered(lines: &Vec<Vec<char>>) -> (found: Vec<char>)
    ensures
        found@ == distinct(concat_all(texts(lines@))),
{
    let mut found: Vec<char> = Vec::new();
    let mut i: usize = 0;
    while i < lines.len()
        invariant
            i <= lines.len(),
            found@ == distinct(concat_all(texts(lines@).take(i as int))),
        decreases lines.len() - i,
    {
        let line = &lines[i];
        let ghost before = concat_all(texts(lines@).take(i as int));
        let mut j: usize = 0;
        assert(before + line@.take(0) =~= before);
        while j < line.len()
            invariant
                j <= line.len(),
                found@ == distinct(before + line@.take(j as int)),
            decreases line.len() - j,
        {
            proof {
                let longer = before + line@.take(j + 1);
                assert(longer.drop_last() =~= before + line@.take(j as int));
                assert(longer.last() == line@[j as int]);
            }
            if !contains_char(&found, line[j]) {
                found.push(line[j]);
            }
            j += 1;
        }
        proof {
            let upto = texts(lines@).take(i + 1);
            assert(upto.drop_last() =~= texts(lines@).take(i as int));
            assert(upto.last() == line@);
            assert(line@.take(line.len() as int) =~= line@);
        }
        i += 1;
    }
    assert(texts(lines@).take(lines.len() as int) =~= texts(lines@));
    found
}

/// Whether `c` stands on each of `lines`.
pub fn stands_on_every(lines: &Vec<Vec<char>>, c: char) -> (found: bool)
    ensures
        found == on_every(texts(lines@), c),
{
    let mut i: usize = 0;
    while i < lines.len()
        invariant
            i <= lines.len(),
            forall|k: int| 0 <= k < i ==> (#[trigger] texts(lines@)[k]).contains(c),
        decreases lines.len() - i,
    {
        if !contains_char(&lines[i], c) {
            assert(!texts(lines@)[i as int].contains(c));
            return false;
        }
        i += 1;
    }
    true
}

/// How many questions count for the group whose answers `group` holds.
pub fn count_group(rule: Rule, group: &Vec<char>) -> (n: usize)
    ensures
        n == group_count(rule, group@),
{
    let lines = plain_lines(group);
    let found = answered(&lines);
    match rule {
        Rule::Anyone => found.len(),
        Rule::Everyone => {
            let mut n: usize = 0;
            let mut i: usize = 0;
            while i < found.len()
                invariant
                    i <= found.len(),
                    n <= i,
                    n == count_on_every(found@.take(i as int), texts(lines@)),
                decreases found.len() - i,
            {
                proof {
                    assert(found@.take(i + 1).drop_last() =~= found@.take(i as int));
                    assert(found@.take(i + 1).last() == found@[i as int]);
                }
                if stands_on_every(&lines, found[i]) {
                    n += 1;
                }
                i += 1;
            }
            assert(found@.take(found.len() as int) =~= found@);
            n
        },
    }
}

/// The text that stands between two groups: an empty line.
pub open spec fn empty_line() -> Seq<char> {
    seq!['\n', '\n']
}

/// The sum of what the groups of `input` count for under `rule`.
pub fn count_groups(rule: Rule, input: &str) -> (r: Option<usize>)
    ensures
        match r {
            Some(n) => sum_of_groups(rule, split_text_spec(input@, empty_line())) == Some(
                n as nat,
            ),
            None => sum_of_groups(rule, split_text_spec(input@, empty_line())) is None,
        },
{
    let mut separator: Vec<char> = Vec::new();
    separator.push('\n');
    separator.push('\n');
    assert(separator@ =~= empty_line());
    let groups = split_text(&chars_of(input), &separator);
    let mut sum: usize = 0;
    let mut i: usize = 0;
    while i < groups.len()
        invariant
            i <= groups.len(),
            texts(groups@) == split_text_spec(input@, empty_line()),
            sum_of_groups(rule, texts(groups@).take(i as int)) == Some(sum as nat),
        decreases groups.len() - i,
    {
        proof {
            let upto = texts(groups@).take(i + 1);
            assert(upto.drop_last() =~= texts(groups@).take(i as int));
            assert(upto.last() == groups[i as int]@);
        }
        sum = match sum.checked_add(count_group(rule, &groups[i])) {
            Some(sum) => sum,
            None => {
                proof {
                    lemma_sum_of_groups_fails_on(rule, texts(groups@), i + 1);
                }
                return None;
            },
        };
        i += 1;
    }
    assert(texts(groups@).take(groups.len() as int) =~= texts(groups@));
    Some(sum)
}

/// The sum, over the groups, of the number of questions that anyone of the
/// group answered. Nothing where the sum does not fit.
pub fn star_one(input: &str) -> (r: Option<usize>)
    ensures
        match r {
            Some(n) => sum_of_groups(Rule::Anyone, split_text_spec(input@, empty_line()))
                == Some(n as nat),
            None => sum_of_groups(Rule::Anyone, split_text_spec(input@, empty_line())) is None,
        },
{
    count_groups(Rule::Anyone, input)
}

/// The sum, over the groups, of the number of questions that everyone of the
/// group answered. Nothing where the sum does not fit.
pub fn star_two(input: &str) -> (r: Option<usize>)
    ensures
        match r {
            Some(n) => sum_of_groups(Rule::Everyone, split_text_spec(input@, empty_line()))
                == Some(n as nat),
            None => sum_of_groups(Rule::Everyone, split_text_spec(input@, empty_line()))
                is None,
        },
{
    count_groups(Rule::Everyone, input)
}

} // verus!
