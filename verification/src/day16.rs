//! Train tickets whose fields are numbers, and rules that say which numbers
//! a field may hold.

use vstd::prelude::*;
use crate::text::{
    chars_of, is_text, lemma_unvisited_update, lines, lines_spec, parse_usize, product,
    product_of, same, split, split_spec, split_text, split_text_spec, sum, sum_of, texts, trim,
    trim_spec, unsigned_spec, unvisited,
};

verus! {

/// A range of numbers, both ends included.
pub type Range = (usize, usize);

/// A rule: the name of a field and the ranges that its number may lie in.
#[derive(Debug, Clone)]
pub struct Validation {
    pub category: Vec<char>,
    pub valid_ranges: Vec<Range>,
}

/// A rule as plain values.
pub struct ValidationSpec {
    pub category: Seq<char>,
    pub valid_ranges: Seq<Range>,
}

impl View for Validation {
    type V = ValidationSpec;

    open spec fn view(&self) -> ValidationSpec {
        ValidationSpec { category: self.category@, valid_ranges: self.valid_ranges@ }
    }
}

/// Both values, where both are there.
pub fn merge<T>(opt: (Option<T>, Option<T>)) -> (r: Option<(T, T)>)
    ensures
        r == (match opt {
            (Some(a), Some(b)) => Some((a, b)),
            _ => None,
        }),
{
    match opt {
        (Some(a), Some(b)) => Some((a, b)),
        _ => None,
    }
}

/// The range that `s` states: two numbers with a `-` between them. What
/// follows a second `-` is passed over.
pub open spec fn parse_range_spec(s: Seq<char>) -> Option<Range> {
    let parts = split_spec(s, '-');
    if parts.len() < 2 {
        None
    } else {
        match (
            unsigned_spec(trim_spec(parts[0]), usize::MAX as nat),
            unsigned_spec(trim_spec(parts[1]), usize::MAX as nat),
        ) {
            (Some(lower), Some(upper)) => Some((lower as usize, upper as usize)),
            _ => None,
        }
    }
}

pub fn parse_range(s: &Vec<char>) -> (r: Option<Range>)
    ensures
        r == parse_range_spec(s@),
{
    let parts = split(s, '-');
    if parts.len() < 2 {
        return None;
    }
    assert(texts(parts@)[0] == parts@[0]@);
    assert(texts(parts@)[1] == parts@[1]@);
    merge((parse_usize(&trim(&parts[0])), parse_usize(&trim(&parts[1]))))
}

/// Whether `value` lies in one of `ranges`.
pub open spec fn in_ranges(ranges: Seq<Range>, value: usize) -> bool {
    exists|i: int| 0 <= i < ranges.len() && (#[trigger] ranges[i]).0 <= value <= ranges[i].1
}

/// The word that stands between the two ranges of a rule.
pub open spec fn or() -> Seq<char> {
    seq!['o', 'r']
}

impl Validation {
    /// Whether the rule allows `value`.
    pub fn is_valid(&self, value: usize) -> (valid: bool)
        ensures
            valid == in_ranges(self@.valid_ranges, value),
    {
        let mut i: usize = 0;
        while i < self.valid_ranges.len()
            invariant
                i <= self.valid_ranges.len(),
                forall|k: int|
                    0 <= k < i ==> !((#[trigger] self.valid_ranges@[k]).0 <= value
                        <= self.valid_ranges@[k].1),
            decreases self.valid_ranges.len() - i,
        {
            let (lower, upper) = self.valid_ranges[i];
            if lower <= value && value <= upper {
                return true;
            }
            i += 1;
        }
        false
    }

    /// The rule that `s` states: a name, a `:`, and two ranges with the word
    /// `or` between them. What follows a second `:` or a second `or` is
    /// passed over.
    pub open spec fn from_str_spec(s: Seq<char>) -> Option<ValidationSpec> {
        let parts = split_spec(s, ':');
        if parts.len() < 2 {
            None
        } else {
            let ranges = split_text_spec(trim_spec(parts[1]), or());
            if ranges.len() < 2 {
                None
            } else {
                match (
                    parse_range_spec(trim_spec(ranges[0])),
                    parse_range_spec(trim_spec(ranges[1])),
                ) {
                    (Some(first), Some(second)) => Some(
                        ValidationSpec {
                            category: trim_spec(parts[0]),
                            valid_ranges: seq![first, second],
                        },
                    ),
                    _ => None,
                }
            }
        }
    }

    pub fn from_str(s: &Vec<char>) -> (r: Option<Validation>)
        ensures
            match r {
                Some(validation) => Validation::from_str_spec(s@) == Some(validation@),
                None => Validation::from_str_spec(s@) is None,
            },
    {
        let parts = split(s, ':');
        if parts.len() < 2 {
            return None;
        }
        assert(texts(parts@)[0] == parts@[0]@);
        assert(texts(parts@)[1] == parts@[1]@);
        let mut word: Vec<char> = Vec::new();
        word.push('o');
        word.push('r');
        assert(word@ =~= or());
        let ranges = split_text(&trim(&parts[1]), &word);
        if ranges.len() < 2 {
            return None;
        }
        assert(texts(ranges@)[0] == ranges@[0]@);
        assert(texts(ranges@)[1] == ranges@[1]@);
        match merge((parse_range(&trim(&ranges[0])), parse_range(&trim(&ranges[1])))) {
            Some((first, second)) => {
                let mut valid_ranges: Vec<Range> = Vec::new();
                valid_ranges.push(first);
                valid_ranges.push(second);
                assert(valid_ranges@ =~= seq![first, second]);
                Some(Validation { category: trim(&parts[0]), valid_ranges })
            },
            None => None,
        }
    }
}

/// A ticket: the numbers of its fields.
#[derive(Debug, Clone)]
pub struct Ticket {
    pub digits: Vec<usize>,
}

/// The numbers that `parts` state, as they stand.
pub open spec fn digits_spec(parts: Seq<Seq<char>>) -> Option<Seq<usize>>
    decreases parts.len(),
{
    if parts.len() == 0 {
        Some(Seq::empty())
    } else {
        match (digits_spec(parts.drop_last()), unsigned_spec(parts.last(), usize::MAX as nat)) {
            (Some(before), Some(n)) => Some(before.push(n as usize)),
            _ => None,
        }
    }
}

proof fn lemma_digits_spec_fails_on(parts: Seq<Seq<char>>, k: int)
    requires
        0 <= k <= parts.len(),
        digits_spec(parts.take(k)) is None,
    ensures
        digits_spec(parts) is None,
    decreases parts.len(),
{
    if k == parts.len() {
        assert(parts.take(k) =~= parts);
    } else {
        assert(parts.drop_last().take(k) =~= parts.take(k));
        lemma_digits_spec_fails_on(parts.drop_last(), k);
    }
}

/// Whether each of `digits` is allowed by the rule at its place, of as many
/// rules as there are digits.
pub open spec fn each_valid(digits: Seq<usize>, validations: Seq<ValidationSpec>) -> bool {
    &&& digits.len() == validations.len()
    &&& forall|i: int|
        0 <= i < digits.len() ==> in_ranges((#[trigger] validations[i]).valid_ranges, digits[i])
}

/// The rules as plain values.
pub open spec fn rules(validations: Seq<Validation>) -> Seq<ValidationSpec> {
    validations.map_values(|v: Validation| v@)
}

impl Ticket {
    /// Whether the ticket has as many fields as there are rules, each
    /// allowed by the rule at its place.
    pub fn is_valid(&self, validations: &Vec<Validation>) -> (valid: bool)
        ensures
            valid == each_valid(self.digits@, rules(validations@)),
    {
        if self.digits.len() != validations.len() {
            return false;
        }
        let mut i: usize = 0;
        while i < self.digits.len()
            invariant
                i <= self.digits.len(),
                self.digits.len() == validations.len(),
                forall|k: int|
                    0 <= k < i ==> in_ranges(
                        (#[trigger] rules(validations@)[k]).valid_ranges,
                        self.digits@[k],
                    ),
            decreases self.digits.len() - i,
        {
            if !validations[i].is_valid(self.digits[i]) {
                assert(!in_ranges(rules(validations@)[i as int].valid_ranges, self.digits@[i as int]));
                return false;
            }
            i += 1;
        }
        true
    }

    /// The ticket that `s` states: numbers with commas between them.
    pub open spec fn from_str_spec(s: Seq<char>) -> Option<Seq<usize>> {
        digits_spec(split_spec(s, ','))
    }

    #[verifier::loop_isolation(false)]
    pub fn from_str(s: &Vec<char>) -> (r: Option<Ticket>)
        ensures
            match r {
                Some(ticket) => Ticket::from_str_spec(s@) == Some(ticket.digits@),
                None => Ticket::from_str_spec(s@) is None,
            },
    {
        let parts = split(s, ',');
        let mut digits: Vec<usize> = Vec::new();
        let mut i: usize = 0;
        while i < parts.len()
            invariant
                i <= parts.len(),
                digits_spec(texts(parts@).take(i as int)) == Some(digits@),
            decreases parts.len() - i,
        {
            proof {
                let upto = texts(parts@).take(i + 1);
                assert(upto.drop_last() =~= texts(parts@).take(i as int));
                assert(upto.last() == parts@[i as int]@);
            }
            match parse_usize(&parts[i]) {
                Some(n) => {
                    digits.push(n);
                },
                None => {
                    proof {
                        lemma_digits_spec_fails_on(texts(parts@), i + 1);
                    }
                    return None;
                },
            }
            i += 1;
        }
        assert(texts(parts@).take(parts.len() as int) =~= texts(parts@));
        Some(Ticket { digits })
    }
}

/// What the lines that are being read state.
#[derive(Debug, Clone, Copy)]
pub enum ParserState {
    Validations,
    YourTicket,
    NearbyTickets,
}

/// What the notes state: the rules, one's own tickets and the tickets
/// nearby.
pub struct Notes {
    pub validations: Vec<Validation>,
    pub yours: Vec<Ticket>,
    pub nearby: Vec<Ticket>,
}

/// The notes as plain values.
pub struct NotesSpec {
    pub validations: Seq<ValidationSpec>,
    pub yours: Seq<Seq<usize>>,
    pub nearby: Seq<Seq<usize>>,
}

/// The tickets as plain values.
pub open spec fn tickets(found: Seq<Ticket>) -> Seq<Seq<usize>> {
    found.map_values(|t: Ticket| t.digits@)
}

impl View for Notes {
    type V = NotesSpec;

    open spec fn view(&self) -> NotesSpec {
        NotesSpec {
            validations: rules(self.validations@),
            yours: tickets(self.yours@),
            nearby: tickets(self.nearby@),
        }
    }
}

/// What `lines` state, and what is being read after them. The rules come
/// first; the line `your ticket:` turns to one's own tickets, the line
/// `nearby tickets:` to the tickets nearby.
pub open spec fn notes_spec(lines: Seq<Seq<char>>) -> Option<(ParserState, NotesSpec)>
    decreases lines.len(),
{
    if lines.len() == 0 {
        Some(
            (
                ParserState::Validations,
                NotesSpec { validations: Seq::empty(), yours: Seq::empty(), nearby: Seq::empty() },
            ),
        )
    } else {
        match notes_spec(lines.drop_last()) {
            None => None,
            Some((state, notes)) => {
                let line = lines.last();
                if line == "your ticket:"@ {
                    Some((ParserState::YourTicket, notes))
                } else if line == "nearby tickets:"@ {
                    Some((ParserState::NearbyTickets, notes))
                } else {
                    match state {
                        ParserState::Validations => match Validation::from_str_spec(line) {
                            Some(validation) => Some(
                                (
                                    state,
                                    NotesSpec {
                                        validations: notes.validations.push(validation),
                                        ..notes
                                    },
                                ),
                            ),
                            None => None,
                        },
                        ParserState::YourTicket => match Ticket::from_str_spec(line) {
                            Some(ticket) => Some(
                                (state, NotesSpec { yours: notes.yours.push(ticket), ..notes }),
                            ),
                            None => None,
                        },
                        ParserState::NearbyTickets => match Ticket::from_str_spec(line) {
                            Some(ticket) => Some(
                                (state, NotesSpec { nearby: notes.nearby.push(ticket), ..notes }),
                            ),
                            None => None,
                        },
                    }
                }
            },
        }
    }
}

proof fn lemma_notes_spec_fails_on(lines: Seq<Seq<char>>, k: int)
    requires
        0 <= k <= lines.len(),
        notes_spec(lines.take(k)) is None,
    ensures
        notes_spec(lines) is None,
    decreases lines.len(),
{
    if k == lines.len() {
        assert(lines.take(k) =~= lines);
    } else {
        assert(lines.drop_last().take(k) =~= lines.take(k));
        lemma_notes_spec_fails_on(lines.drop_last(), k);
    }
}

/// Reads the notes.
pub fn parse(input: &str) -> (r: Option<Notes>)
    ensures
        match r {
            Some(notes) => notes_spec(lines_spec(input@)) matches Some((_, found)) && found
                == notes@,
            None => notes_spec(lines_spec(input@)) is None,
        },
{
    let found = lines(input);
    let mut notes = Notes { validations: Vec::new(), yours: Vec::new(), nearby: Vec::new() };
    let mut state = ParserState::Validations;
    let mut i: usize = 0;
    assert(notes@.validations =~= Seq::empty());
    assert(notes@.yours =~= Seq::empty());
    assert(notes@.nearby =~= Seq::empty());
    while i < found.len()
        invariant
            i <= found.len(),
            texts(found@) == lines_spec(input@),
            notes_spec(texts(found@).take(i as int)) == Some((state, notes@)),
        decreases found.len() - i,
    {
        proof {
            let upto = texts(found@).take(i + 1);
            assert(upto.drop_last() =~= texts(found@).take(i as int));
            assert(upto.last() == found[i as int]@);
        }
        let line = &found[i];
        let ghost before = notes@;
        if is_text(line, "your ticket:") {
            state = ParserState::YourTicket;
        } else if is_text(line, "nearby tickets:") {
            state = ParserState::NearbyTickets;
        } else {
            match state {
                ParserState::Validations => match Validation::from_str(line) {
                    Some(validation) => {
                        notes.validations.push(validation);
                        assert(notes@.validations =~= before.validations.push(validation@));
                        assert(notes@.yours =~= before.yours);
                        assert(notes@.nearby =~= before.nearby);
                    },
                    None => {
                        proof {
                            lemma_notes_spec_fails_on(texts(found@), i + 1);
                        }
                        return None;
                    },
                },
                ParserState::YourTicket => match Ticket::from_str(line) {
                    Some(ticket) => {
                        notes.yours.push(ticket);
                        assert(notes@.yours =~= before.yours.push(ticket.digits@));
                        assert(notes@.validations =~= before.validations);
                        assert(notes@.nearby =~= before.nearby);
                    },
                    None => {
                        proof {
                            lemma_notes_spec_fails_on(texts(found@), i + 1);
                        }
                        return None;
                    },
                },
                ParserState::NearbyTickets => match Ticket::from_str(line) {
                    Some(ticket) => {
                        notes.nearby.push(ticket);
                        assert(notes@.nearby =~= before.nearby.push(ticket.digits@));
                        assert(notes@.validations =~= before.validations);
                        assert(notes@.yours =~= before.yours);
                    },
                    None => {
                        proof {
                            lemma_notes_spec_fails_on(texts(found@), i + 1);
                        }
                        return None;
                    },
                },
            }
        }
        i += 1;
    }
    assert(texts(found@).take(found.len() as int) =~= texts(found@));
    Some(notes)
}

/// Whether one of `validations` allows `value`.
pub open spec fn allowed(validations: Seq<ValidationSpec>, value: usize) -> bool {
    exists|i: int|
        0 <= i < validations.len() && in_ranges((#[trigger] validations[i]).valid_ranges, value)
}

/// Whether one of `validations` allows `value`.
pub fn is_allowed(validations: &Vec<Validation>, value: usize) -> (valid: bool)
    ensures
        valid == allowed(rules(validations@), value),
{
    let mut i: usize = 0;
    while i < validations.len()
        invariant
            i <= validations.len(),
            forall|k: int|
                0 <= k < i ==> !in_ranges((#[trigger] rules(validations@)[k]).valid_ranges, value),
        decreases validations.len() - i,
    {
        if validations[i].is_valid(value) {
            assert(in_ranges(rules(validations@)[i as int].valid_ranges, value));
            return true;
        }
        i += 1;
    }
    false
}

/// The numbers of `digits` that none of `validations` allows.
pub open spec fn errors_of(validations: Seq<ValidationSpec>, digits: Seq<usize>) -> Seq<usize>
    decreases digits.len(),
{
    if digits.len() == 0 {
        Seq::empty()
    } else if allowed(validations, digits.last()) {
        errors_of(validations, digits.drop_last())
    } else {
        errors_of(validations, digits.drop_last()).push(digits.last())
    }
}

/// The numbers of `found` that none of `validations` allows, ticket after
/// ticket.
pub open spec fn all_errors(validations: Seq<ValidationSpec>, found: Seq<Seq<usize>>) -> Seq<
    usize,
>
    decreases found.len(),
{
    if found.len() == 0 {
        Seq::empty()
    } else {
        all_errors(validations, found.drop_last()) + errors_of(validations, found.last())
    }
}

/// What [`star_one`] yields: the sum of the numbers on the tickets nearby
/// that no rule allows. Nothing where the notes cannot be read, or where
/// the sum does not fit.
pub open spec fn star_one_spec(input: Seq<char>) -> Option<usize> {
    match notes_spec(lines_spec(input)) {
        Some((_, notes)) => if sum_of(all_errors(notes.validations, notes.nearby))
            <= usize::MAX {
            Some(sum_of(all_errors(notes.validations, notes.nearby)) as usize)
        } else {
            None
        },
        None => None,
    }
}

#[verifier::loop_isolation(false)]
pub fn star_one(input: &str) -> (r: Option<usize>)
    ensures
        r == star_one_spec(input@),
{
    let notes = match parse(input) {
        Some(notes) => notes,
        None => {
            return None;
        },
    };
    let ghost validations = notes@.validations;
    let ghost nearby = notes@.nearby;
    let mut errors: Vec<usize> = Vec::new();
    let mut i: usize = 0;
    while i < notes.nearby.len()
        invariant
            i <= notes.nearby.len(),
            errors@ == all_errors(validations, nearby.take(i as int)),
        decreases notes.nearby.len() - i,
    {
        let ticket = &notes.nearby[i];
        let ghost before = errors@;
        let mut k: usize = 0;
        assert(ticket.digits@.take(0) =~= Seq::<usize>::empty());
        while k < ticket.digits.len()
            invariant
                k <= ticket.digits.len(),
                errors@ == before + errors_of(validations, ticket.digits@.take(k as int)),
            decreases ticket.digits.len() - k,
        {
            proof {
                assert(ticket.digits@.take(k + 1).drop_last() =~= ticket.digits@.take(k as int));
                assert(ticket.digits@.take(k + 1).last() == ticket.digits@[k as int]);
            }
            if !is_allowed(&notes.validations, ticket.digits[k]) {
                errors.push(ticket.digits[k]);
                assert(errors@ =~= before + errors_of(validations, ticket.digits@.take(k + 1)));
            }
            k += 1;
        }
        proof {
            assert(ticket.digits@.take(ticket.digits.len() as int) =~= ticket.digits@);
            assert(nearby.take(i + 1).drop_last() =~= nearby.take(i as int));
            assert(nearby.take(i + 1).last() == ticket.digits@);
        }
        i += 1;
    }
    assert(nearby.take(notes.nearby.len() as int) =~= nearby);
    sum(&errors)
}


/// Whether each number of `digits` is allowed by one of `validations`.
pub open spec fn fine(validations: Seq<ValidationSpec>, digits: Seq<usize>) -> bool {
    forall|i: int| 0 <= i < digits.len() ==> allowed(validations, #[trigger] digits[i])
}

/// Those of `found` on which each number is allowed by one of `validations`.
pub open spec fn kept(validations: Seq<ValidationSpec>, found: Seq<Seq<usize>>) -> Seq<Seq<usize>>
    decreases found.len(),
{
    if found.len() == 0 {
        Seq::empty()
    } else if fine(validations, found.last()) {
        kept(validations, found.drop_last()).push(found.last())
    } else {
        kept(validations, found.drop_last())
    }
}

/// The tickets that the fields are found from: the tickets nearby that are
/// fine, and after them the first ticket of one's own.
pub open spec fn considered(notes: NotesSpec) -> Seq<Seq<usize>>
    recommends
        notes.yours.len() > 0,
{
    kept(notes.validations, notes.nearby).push(notes.yours[0])
}

/// Whether the rule `j` stands before no rule that is the same.
pub open spec fn fresh(validations: Seq<ValidationSpec>, j: int) -> bool {
    forall|i: int| 0 <= i < j ==> #[trigger] validations[i] != validations[j]
}

/// Whether the rule `j` fits the field `idx` of each of `found`.
pub open spec fn fits_all(
    validations: Seq<ValidationSpec>,
    found: Seq<Seq<usize>>,
    j: int,
    idx: int,
) -> bool {
    forall|t: int|
        0 <= t < found.len() ==> in_ranges(validations[j].valid_ranges, (#[trigger] found[t])[idx])
}

/// Which rules can stand for which field: for each field, for each rule,
/// whether it is fresh and fits that field of each ticket.
pub open spec fn candidates(
    validations: Seq<ValidationSpec>,
    found: Seq<Seq<usize>>,
    fields: nat,
) -> Seq<Seq<bool>> {
    Seq::new(
        fields,
        |idx: int|
            Seq::new(
                validations.len(),
                |j: int| fresh(validations, j) && fits_all(validations, found, j, idx),
            ),
    )
}

/// How many of `row` are set.
pub open spec fn count_set(row: Seq<bool>) -> nat
    decreases row.len(),
{
    if row.len() == 0 {
        0
    } else if row.last() {
        count_set(row.drop_last()) + 1
    } else {
        count_set(row.drop_last())
    }
}

/// The number of set entries of each row.
pub open spec fn counts_of(matrix: Seq<Seq<bool>>) -> Seq<nat> {
    Seq::new(matrix.len(), |idx: int| count_set(matrix[idx]))
}

/// Among the first `k` fields, the one that is not done and has the least
/// count, the first of them where several have it.
pub open spec fn least_undone(counts: Seq<nat>, done: Seq<bool>, k: int) -> Option<int>
    decreases k,
{
    if k <= 0 {
        None
    } else if done[k - 1] {
        least_undone(counts, done, k - 1)
    } else {
        match least_undone(counts, done, k - 1) {
            Some(best) => if counts[k - 1] < counts[best] {
                Some(k - 1)
            } else {
                Some(best)
            },
            None => Some(k - 1),
        }
    }
}

/// The field found is one of the first `k` and is not done.
pub proof fn lemma_least_undone(counts: Seq<nat>, done: Seq<bool>, k: int)
    requires
        0 <= k <= done.len(),
    ensures
        least_undone(counts, done, k) matches Some(best) ==> 0 <= best < k && !done[best],
        least_undone(counts, done, k) is None ==> forall|i: int| 0 <= i < k ==> done[i],
    decreases k,
{
    if k > 0 {
        lemma_least_undone(counts, done, k - 1);
    }
}

/// Whether `row` is set at `j`, where `j` is not taken.
pub open spec fn left(row: Seq<bool>, taken: Seq<bool>) -> Seq<bool> {
    Seq::new(row.len(), |j: int| row[j] && !taken[j])
}

/// The first place at which `row` is set.
pub open spec fn first_set(row: Seq<bool>, j: int) -> int
    decreases row.len() - j,
{
    if 0 <= j < row.len() && !row[j] {
        first_set(row, j + 1)
    } else {
        j
    }
}

/// The rule for each field: the fields are taken by their count of
/// candidates, least first, and each takes the one candidate that the fields
/// before it have left to it. Nothing where a field is left with no
/// candidate or with more than one.
pub open spec fn assign(
    matrix: Seq<Seq<bool>>,
    counts: Seq<nat>,
    done: Seq<bool>,
    taken: Seq<bool>,
    assigned: Seq<int>,
) -> Option<Seq<int>>
    decreases unvisited(done),
{
    match least_undone(counts, done, done.len() as int) {
        None => Some(assigned),
        Some(idx) => {
            let open = left(matrix[idx], taken);
            if count_set(open) != 1 {
                None
            } else {
                proof {
                    lemma_least_undone(counts, done, done.len() as int);
                    lemma_unvisited_update(done, idx);
                }
                assign(
                    matrix,
                    counts,
                    done.update(idx, true),
                    taken.update(first_set(open, 0), true),
                    assigned.update(idx, first_set(open, 0)),
                )
            }
        },
    }
}

/// Whether `category` starts with the word `departure`.
pub open spec fn is_departure(category: Seq<char>) -> bool {
    category.len() >= 9 && category.take(9) == "departure"@
}

/// The numbers of `yours` in the fields whose rule is named `departure`
/// something, in the order of the fields.
pub open spec fn departures(
    validations: Seq<ValidationSpec>,
    assigned: Seq<int>,
    yours: Seq<usize>,
    k: int,
) -> Seq<usize>
    decreases k,
{
    if k <= 0 {
        Seq::empty()
    } else if is_departure(validations[assigned[k - 1]].category) {
        departures(validations, assigned, yours, k - 1).push(yours[k - 1])
    } else {
        departures(validations, assigned, yours, k - 1)
    }
}

/// What [`star_two`] yields: the product of the numbers of one's own ticket
/// in the fields named `departure` something, once each field has found its
/// rule. Nothing where the notes cannot be read, where there is no ticket
/// of one's own, where a ticket is shorter than the first one considered,
/// where the rules cannot be assigned, or where the product does not fit.
pub open spec fn star_two_spec(input: Seq<char>) -> Option<usize> {
    match notes_spec(lines_spec(input)) {
        None => None,
        Some((_, notes)) => if notes.yours.len() == 0 {
            None
        } else {
            let found = considered(notes);
            let fields = found[0].len();
            if exists|t: int| 0 <= t < found.len() && (#[trigger] found[t]).len() < fields {
                None
            } else {
                let matrix = candidates(notes.validations, found, fields);
                match assign(
                    matrix,
                    counts_of(matrix),
                    Seq::new(fields, |i: int| false),
                    Seq::new(notes.validations.len(), |j: int| false),
                    Seq::new(fields, |i: int| 0int),
                ) {
                    None => None,
                    Some(assigned) => match product_of(
                        departures(notes.validations, assigned, notes.yours[0], fields as int),
                    ) {
                        Some(product) => Some(product as usize),
                        None => None,
                    },
                }
            }
        },
    }
}

/// Whether each number of `digits` is allowed by one of `validations`.
pub fn is_fine(validations: &Vec<Validation>, digits: &Vec<usize>) -> (valid: bool)
    ensures
        valid == fine(rules(validations@), digits@),
{
    let mut i: usize = 0;
    while i < digits.len()
        invariant
            i <= digits.len(),
            forall|k: int| 0 <= k < i ==> allowed(rules(validations@), #[trigger] digits@[k]),
        decreases digits.len() - i,
    {
        if !is_allowed(validations, digits[i]) {
            return false;
        }
        i += 1;
    }
    true
}

/// Whether the two rules are the same.
pub fn same_rule(a: &Validation, b: &Validation) -> (equal: bool)
    ensures
        equal == (a@ == b@),
{
    if !same(&a.category, &b.category) {
        return false;
    }
    if a.valid_ranges.len() != b.valid_ranges.len() {
        assert(a@.valid_ranges.len() != b@.valid_ranges.len());
        return false;
    }
    let mut i: usize = 0;
    while i < a.valid_ranges.len()
        invariant
            i <= a.valid_ranges.len(),
            a.valid_ranges.len() == b.valid_ranges.len(),
            a.category@ == b.category@,
            forall|k: int| 0 <= k < i ==> a.valid_ranges@[k] == b.valid_ranges@[k],
        decreases a.valid_ranges.len() - i,
    {
        let (x, y) = a.valid_ranges[i];
        let (u, v) = b.valid_ranges[i];
        if x != u || y != v {
            assert(a@.valid_ranges[i as int] != b@.valid_ranges[i as int]);
            return false;
        }
        i += 1;
    }
    assert(a@.valid_ranges =~= b@.valid_ranges);
    true
}

/// Whether the rule `j` stands before no rule that is the same.
pub fn is_fresh(validations: &Vec<Validation>, j: usize) -> (r: bool)
    requires
        j < validations.len(),
    ensures
        r == fresh(rules(validations@), j as int),
{
    let mut i: usize = 0;
    while i < j
        invariant
            i <= j < validations.len(),
            forall|k: int|
                0 <= k < i ==> #[trigger] rules(validations@)[k] != rules(validations@)[j as int],
        decreases j - i,
    {
        if same_rule(&validations[i], &validations[j]) {
            assert(rules(validations@)[i as int] == rules(validations@)[j as int]);
            return false;
        }
        i += 1;
    }
    true
}

/// Whether the rule `j` fits the field `idx` of each of `found`.
pub fn fits_every(validations: &Vec<Validation>, found: &Vec<Vec<usize>>, j: usize, idx: usize) -> (r:
    bool)
    requires
        j < validations.len(),
        forall|t: int| 0 <= t < found.len() ==> idx < (#[trigger] found@[t]).len(),
    ensures
        r == fits_all(rules(validations@), texts_of(found@), j as int, idx as int),
{
    let mut t: usize = 0;
    while t < found.len()
        invariant
            t <= found.len(),
            j < validations.len(),
            forall|t: int| 0 <= t < found.len() ==> idx < (#[trigger] found@[t]).len(),
            forall|k: int|
                0 <= k < t ==> in_ranges(
                    rules(validations@)[j as int].valid_ranges,
                    (#[trigger] texts_of(found@)[k])[idx as int],
                ),
        decreases found.len() - t,
    {
        if !validations[j].is_valid(found[t][idx]) {
            assert(!in_ranges(
                rules(validations@)[j as int].valid_ranges,
                texts_of(found@)[t as int][idx as int],
            ));
            return false;
        }
        t += 1;
    }
    true
}

/// The numbers that `found` holds.
pub open spec fn texts_of(found: Seq<Vec<usize>>) -> Seq<Seq<usize>> {
    found.map_values(|t: Vec<usize>| t@)
}

/// A copy of `digits`.
pub fn copy(digits: &Vec<usize>) -> (r: Vec<usize>)
    ensures
        r@ == digits@,
{
    let mut r: Vec<usize> = Vec::new();
    let mut i: usize = 0;
    while i < digits.len()
        invariant
            i <= digits.len(),
            r@ == digits@.take(i as int),
        decreases digits.len() - i,
    {
        r.push(digits[i]);
        assert(r@ =~= digits@.take(i + 1));
        i += 1;
    }
    assert(digits@.take(digits.len() as int) =~= digits@);
    r
}

/// How many of `row` are set.
pub fn count_row(row: &Vec<bool>) -> (n: usize)
    ensures
        n == count_set(row@),
{
    let mut n: usize = 0;
    let mut i: usize = 0;
    while i < row.len()
        invariant
            i <= row.len(),
            n <= i,
            n == count_set(row@.take(i as int)),
        decreases row.len() - i,
    {
        proof {
            assert(row@.take(i + 1).drop_last() =~= row@.take(i as int));
            assert(row@.take(i + 1).last() == row@[i as int]);
        }
        if row[i] {
            n += 1;
        }
        i += 1;
    }
    assert(row@.take(row.len() as int) =~= row@);
    n
}

/// A row that is set once is set at the first place at which it is set.
pub proof fn lemma_first_set(row: Seq<bool>, j: int)
    requires
        0 <= j <= row.len(),
    ensures
        j <= first_set(row, j) <= row.len(),
        first_set(row, j) < row.len() ==> row[first_set(row, j)],
        forall|i: int| j <= i < first_set(row, j) ==> !row[i],
    decreases row.len() - j,
{
    if j < row.len() && !row[j] {
        lemma_first_set(row, j + 1);
    }
}

/// A row that is set nowhere counts zero.
pub proof fn lemma_count_set_zero(row: Seq<bool>)
    requires
        forall|i: int| 0 <= i < row.len() ==> !row[i],
    ensures
        count_set(row) == 0,
    decreases row.len(),
{
    if row.len() > 0 {
        lemma_count_set_zero(row.drop_last());
    }
}

#[verifier::loop_isolation(false)]
pub fn star_two(input: &str) -> (r: Option<usize>)
    ensures
        r == star_two_spec(input@),
{
    let notes = match parse(input) {
        Some(notes) => notes,
        None => {
            return None;
        },
    };
    if notes.yours.len() == 0 {
        return None;
    }
    let ghost validations = notes@.validations;
    let ghost nearby = notes@.nearby;
    let n = notes.validations.len();
    // The tickets that are considered.
    let mut found: Vec<Vec<usize>> = Vec::new();
    let mut i: usize = 0;
    assert(texts_of(found@) =~= Seq::<Seq<usize>>::empty());
    while i < notes.nearby.len()
        invariant
            i <= notes.nearby.len(),
            texts_of(found@) == kept(validations, nearby.take(i as int)),
        decreases notes.nearby.len() - i,
    {
        proof {
            assert(nearby.take(i + 1).drop_last() =~= nearby.take(i as int));
            assert(nearby.take(i + 1).last() == notes.nearby@[i as int].digits@);
        }
        if is_fine(&notes.validations, &notes.nearby[i].digits) {
            let ghost before = texts_of(found@);
            let ticket = copy(&notes.nearby[i].digits);
            found.push(ticket);
            assert(texts_of(found@) =~= before.push(ticket@));
        }
        i += 1;
    }
    assert(nearby.take(notes.nearby.len() as int) =~= nearby);
    let yours = copy(&notes.yours[0].digits);
    let ghost before = texts_of(found@);
    found.push(copy(&yours));
    assert(texts_of(found@) =~= before.push(yours@));
    let ghost all = considered(notes@);
    assert(texts_of(found@) == all);
    let fields = found[0].len();
    assert(all[0] == found@[0]@);
    let mut t: usize = 0;
    while t < found.len()
        invariant
            t <= found.len(),
            forall|k: int| 0 <= k < t ==> fields <= (#[trigger] found@[k]).len(),
        decreases found.len() - t,
    {
        if found[t].len() < fields {
            assert(all[t as int].len() < fields);
            return None;
        }
        t += 1;
    }
    assert forall|t: int| 0 <= t < all.len() implies !((#[trigger] all[t]).len() < fields) by {
        assert(all[t] == found@[t]@);
    }
    assert(found@[found.len() - 1]@ == yours@);
    assert(yours.len() >= fields);
    // Which rules can stand for which field.
    let ghost wanted = candidates(validations, all, fields as nat);
    let mut matrix: Vec<Vec<bool>> = Vec::new();
    let mut counts: Vec<usize> = Vec::new();
    let mut idx: usize = 0;
    while idx < fields
        invariant
            idx <= fields,
            matrix@.len() == idx,
            counts@.len() == idx,
            forall|k: int| 0 <= k < idx ==> (#[trigger] matrix@[k])@ == wanted[k],
            forall|k: int| 0 <= k < idx ==> (#[trigger] counts@[k]) == count_set(wanted[k]),
        decreases fields - idx,
    {
        let mut row: Vec<bool> = Vec::new();
        let mut j: usize = 0;
        while j < n
            invariant
                j <= n,
                idx < fields,
                row@.len() == j,
                forall|k: int| 0 <= k < j ==> (#[trigger] row@[k]) == wanted[idx as int][k],
            decreases n - j,
        {
            let can = is_fresh(&notes.validations, j) && fits_every(
                &notes.validations,
                &found,
                j,
                idx,
            );
            row.push(can);
            j += 1;
        }
        assert(row@ =~= wanted[idx as int]);
        counts.push(count_row(&row));
        matrix.push(row);
        idx += 1;
    }
    let ghost rows = Seq::new(fields as nat, |k: int| matrix@[k]@);
    assert(rows =~= wanted);
    let ghost numbers = counts_of(wanted);
    assert(numbers =~= Seq::new(fields as nat, |k: int| counts@[k] as nat));
    // Each field takes the one rule that is left to it.
    let mut done: Vec<bool> = Vec::new();
    let mut assigned: Vec<usize> = Vec::new();
    let mut k: usize = 0;
    while k < fields
        invariant
            k <= fields,
            done@ == Seq::new(k as nat, |i: int| false),
            assigned@.len() == k,
            forall|i: int| 0 <= i < k ==> (#[trigger] assigned@[i]) == 0,
        decreases fields - k,
    {
        done.push(false);
        assigned.push(0);
        assert(done@ =~= Seq::new((k + 1) as nat, |i: int| false));
        k += 1;
    }
    let mut taken: Vec<bool> = Vec::new();
    let mut j: usize = 0;
    while j < n
        invariant
            j <= n,
            taken@ == Seq::new(j as nat, |i: int| false),
        decreases n - j,
    {
        taken.push(false);
        assert(taken@ =~= Seq::new((j + 1) as nat, |i: int| false));
        j += 1;
    }
    let ghost start = assign(
        wanted,
        numbers,
        Seq::new(fields as nat, |i: int| false),
        Seq::new(validations.len(), |j: int| false),
        Seq::new(fields as nat, |i: int| 0int),
    );
    assert(assigned@.map_values(|j: usize| j as int) =~= Seq::new(fields as nat, |i: int| 0int));
    proof {
        crate::text::lemma_unvisited_none_set(fields as nat);
    }
    let mut round: usize = 0;
    while round < fields
        invariant
            round <= fields,
            done@.len() == fields,
            taken@.len() == n,
            assigned@.len() == fields,
            forall|i: int| 0 <= i < fields ==> (#[trigger] assigned@[i]) < n || n == 0,
            round > 0 ==> n > 0,
            unvisited(done@) == fields - round,
            start == assign(
                wanted,
                numbers,
                done@,
                taken@,
                assigned@.map_values(|j: usize| j as int),
            ),
        decreases fields - round,
    {
        // The field that is not done and has the least count.
        let mut best: Option<usize> = None;
        let mut idx: usize = 0;
        while idx < fields
            invariant
                idx <= fields,
                done@.len() == fields,
                match best {
                    Some(b) => least_undone(numbers, done@, idx as int) == Some(b as int) && b
                        < idx,
                    None => least_undone(numbers, done@, idx as int) is None,
                },
            decreases fields - idx,
        {
            if !done[idx] {
                best = match best {
                    Some(b) => if counts[idx] < counts[b] {
                        Some(idx)
                    } else {
                        Some(b)
                    },
                    None => Some(idx),
                };
            }
            idx += 1;
        }
        let idx = match best {
            Some(idx) => idx,
            None => {
                proof {
                    lemma_least_undone(numbers, done@, fields as int);
                    crate::text::lemma_unvisited_all_set(done@);
                }
                return None;
            },
        };
        proof {
            lemma_least_undone(numbers, done@, fields as int);
        }
        // The rules that are left to it.
        let ghost open = left(wanted[idx as int], taken@);
        let mut remaining: Vec<bool> = Vec::new();
        let mut j: usize = 0;
        while j < n
            invariant
                j <= n,
                remaining@.len() == j,
                forall|i: int| 0 <= i < j ==> (#[trigger] remaining@[i]) == open[i],
            decreases n - j,
        {
            remaining.push(matrix[idx][j] && !taken[j]);
            j += 1;
        }
        assert(remaining@ =~= open);
        if count_row(&remaining) != 1 {
            return None;
        }
        let mut chosen: usize = 0;
        while chosen < n && !remaining[chosen]
            invariant
                chosen <= n,
                first_set(open, 0) == first_set(open, chosen as int),
            decreases n - chosen,
        {
            chosen += 1;
        }
        proof {
            lemma_first_set(open, 0);
            if chosen == n {
                lemma_count_set_zero(open);
            }
            lemma_unvisited_update(done@, idx as int);
        }
        let ghost before = assigned@.map_values(|j: usize| j as int);
        done.set(idx, true);
        taken.set(chosen, true);
        assigned.set(idx, chosen);
        assert(assigned@.map_values(|j: usize| j as int) =~= before.update(
            idx as int,
            chosen as int,
        ));
        round += 1;
    }
    proof {
        crate::text::lemma_unvisited_none_left(done@);
        lemma_least_undone(numbers, done@, fields as int);
    }
    // The numbers of one's own ticket in the fields of departure.
    let ghost rule_of = assigned@.map_values(|j: usize| j as int);
    let mut factors: Vec<usize> = Vec::new();
    let mut idx: usize = 0;
    while idx < fields
        invariant
            idx <= fields,
            factors@ == departures(validations, rule_of, yours@, idx as int),
        decreases fields - idx,
    {
        proof {
            assert(rule_of[idx as int] == assigned@[idx as int]);
            assert(validations[rule_of[idx as int]]
                == notes.validations@[assigned@[idx as int] as int]@);
        }
        if starts_with_departure(&notes.validations[assigned[idx]].category) {
            factors.push(yours[idx]);
        }
        idx += 1;
    }
    product(&factors)
}

/// Whether `category` starts with the word `departure`.
#[verifier::loop_isolation(false)]
pub fn starts_with_departure(category: &Vec<char>) -> (r: bool)
    ensures
        r == is_departure(category@),
{
    if category.len() < 9 {
        return false;
    }
    let word = chars_of("departure");
    let mut i: usize = 0;
    proof {
        reveal_strlit("departure");
    }
    while i < 9
        invariant
            i <= 9,
            word@.len() == 9,
            category.len() >= 9,
            forall|k: int| 0 <= k < i ==> category@[k] == word@[k],
        decreases 9 - i,
    {
        if category[i] != word[i] {
            assert(category@.take(9)[i as int] != word@[i as int]);
            return false;
        }
        i += 1;
    }
    assert(category@.take(9) =~= word@);
    true
}

} // verus!
