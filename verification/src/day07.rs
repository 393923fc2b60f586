//! Bags that have to hold certain numbers of other bags.

use vstd::prelude::*;
use crate::text::{
    chars_of, is_text, is_whitespace, lines, lines_spec, non_whitespace,
    parse_all, parse_all_spec, parse_usize, run_end, same, slice, split, split_spec, split_text,
    split_text_spec, texts, trim, trim_spec, unsigned_spec,
};

verus! {

/// Whether `s` ends with `pattern`.
pub open spec fn ends_with(s: Seq<char>, pattern: Seq<char>) -> bool {
    pattern.len() <= s.len() && s.skip(s.len() - pattern.len()) == pattern
}

/// `s` without `pattern` at its end, as often as it stands there.
pub open spec fn trim_end_matches_spec(s: Seq<char>, pattern: Seq<char>) -> Seq<char>
    decreases s.len(),
{
    if pattern.len() > 0 && ends_with(s, pattern) {
        trim_end_matches_spec(s.take(s.len() - pattern.len()), pattern)
    } else {
        s
    }
}

/// `v` without `pattern` at its end, as often as it stands there.
pub fn trim_end_matches(v: &Vec<char>, pattern: &str) -> (trimmed: Vec<char>)
    ensures
        trimmed@ == trim_end_matches_spec(v@, pattern@),
{
    let word = chars_of(pattern);
    let mut end: usize = v.len();
    assert(v@.take(end as int) =~= v@);
    while word.len() > 0 && word.len() <= end && tail_is(v, end, &word)
        invariant
            end <= v.len(),
            word@ == pattern@,
            trim_end_matches_spec(v@, pattern@) == trim_end_matches_spec(
                v@.take(end as int),
                pattern@,
            ),
        decreases end,
    {
        proof {
            assert(v@.take(end as int).take(end - word.len()) =~= v@.take(end - word.len()));
        }
        end = end - word.len();
    }
    slice_to(v, end)
}

/// Whether the characters of `v` before `end` end with `word`.
fn tail_is(v: &Vec<char>, end: usize, word: &Vec<char>) -> (r: bool)
    requires
        word.len() <= end <= v.len(),
    ensures
        r == ends_with(v@.take(end as int), word@),
{
    let start = end - word.len();
    let mut i: usize = 0;
    while i < word.len()
        invariant
            i <= word.len(),
            start + word.len() == end,
            end <= v.len(),
            forall|k: int| 0 <= k < i ==> v@[start + k] == word@[k],
        decreases word.len() - i,
    {
        if v[start + i] != word[i] {
            assert(v@.take(end as int).skip(end - word.len())[i as int] != word@[i as int]);
            return false;
        }
        i += 1;
    }
    assert(v@.take(end as int).skip(end - word.len()) =~= word@);
    true
}

/// The characters of `v` before `end`.
fn slice_to(v: &Vec<char>, end: usize) -> (r: Vec<char>)
    requires
        end <= v.len(),
    ensures
        r@ == v@.take(end as int),
{
    let r = slice(v, 0, end);
    assert(v@.subrange(0, end as int) =~= v@.take(end as int));
    r
}

/// The name of a bag as it is looked up: without white space around it, and
/// without the full stops and the words `bags` and `bag` at its end.
pub open spec fn normalize_bag_name_spec(name: Seq<char>) -> Seq<char> {
    trim_spec(
        trim_end_matches_spec(
            trim_end_matches_spec(trim_end_matches_spec(trim_spec(name), "."@), "bags"@),
            "bag"@,
        ),
    )
}

pub fn normalize_bag_name(name: &Vec<char>) -> (normal: Vec<char>)
    ensures
        normal@ == normalize_bag_name_spec(name@),
{
    trim(
        &trim_end_matches(
            &trim_end_matches(&trim_end_matches(&trim(name), "."), "bags"),
            "bag",
        ),
    )
}

/// What a bag holds of one kind: how many, and the name.
pub type Content = (usize, Seq<char>);

/// What an entry of a list of contents states.
pub enum Entry {
    /// So many bags of that name.
    Bags(usize, Seq<char>),
    /// That there are no bags.
    Nothing,
    /// Nothing that can be read.
    Invalid,
}

/// What `s` states: `no other bags.`, or a number, white space and a name.
pub open spec fn entry_spec(s: Seq<char>) -> Entry {
    let end = run_end(s, non_whitespace(), 0);
    if s == "no other bags."@ {
        Entry::Nothing
    } else if end >= s.len() {
        Entry::Invalid
    } else {
        match unsigned_spec(s.take(end), usize::MAX as nat) {
            Some(count) => Entry::Bags(count as usize, normalize_bag_name_spec(s.skip(end + 1))),
            None => Entry::Invalid,
        }
    }
}

/// What the entries `items` state together, read in order: the contents,
/// or no contents where the first entry that states no bags states that
/// there are none. Nothing where that entry cannot be read.
pub open spec fn bag_list_spec(items: Seq<Seq<char>>) -> Option<Option<Seq<Content>>>
    decreases items.len(),
{
    if items.len() == 0 {
        Some(Some(Seq::empty()))
    } else {
        match entry_spec(trim_spec(items[0])) {
            Entry::Invalid => None,
            Entry::Nothing => Some(None),
            Entry::Bags(count, name) => match bag_list_spec(items.skip(1)) {
                Some(Some(rest)) => Some(Some(seq![(count, name)] + rest)),
                other => other,
            },
        }
    }
}

/// The contents as plain values.
pub open spec fn contents_view(contents: Seq<(usize, Vec<char>)>) -> Seq<Content> {
    contents.map_values(|c: (usize, Vec<char>)| (c.0, c.1@))
}

/// Reads a list of contents: entries with commas between them.
#[verifier::loop_isolation(false)]
pub fn parse_bag_list(list: &Vec<char>) -> (r: Option<Option<Vec<(usize, Vec<char>)>>>)
    ensures
        match r {
            Some(Some(contents)) => bag_list_spec(split_spec(list@, ',')) == Some(
                Some(contents_view(contents@)),
            ),
            Some(None) => bag_list_spec(split_spec(list@, ',')) == Some(
                None::<Seq<Content>>,
            ),
            None => bag_list_spec(split_spec(list@, ',')) is None,
        },
{
    let items = split(list, ',');
    let ghost all = texts(items@);
    let mut contents: Vec<(usize, Vec<char>)> = Vec::new();
    let mut i: usize = 0;
    assert(all.skip(0) =~= all);
    while i < items.len()
        invariant
            i <= items.len(),
            bag_list_spec(all) == (match bag_list_spec(all.skip(i as int)) {
                Some(Some(rest)) => Some(Some(contents_view(contents@) + rest)),
                other => other,
            }),
        decreases items.len() - i,
    {
        proof {
            assert(all.skip(i as int).skip(1) =~= all.skip(i + 1));
            assert(all.skip(i as int)[0] == items@[i as int]@);
        }
        let s = trim(&items[i]);
        if is_text(&s, "no other bags.") {
            return Some(None);
        }
        let mut end: usize = 0;
        while end < s.len() && !is_whitespace(s[end])
            invariant
                end <= s.len(),
                run_end(s@, non_whitespace(), 0) == run_end(s@, non_whitespace(), end as int),
            decreases s.len() - end,
        {
            end += 1;
        }
        if end >= s.len() {
            return None;
        }
        let number = slice(&s, 0, end);
        assert(number@ =~= s@.take(end as int));
        let count = match parse_usize(&number) {
            Some(count) => count,
            None => {
                return None;
            },
        };
        let rest = slice(&s, end + 1, s.len());
        assert(rest@ =~= s@.skip(end + 1));
        let name = normalize_bag_name(&rest);
        let ghost before = contents_view(contents@);
        contents.push((count, name));
        proof {
            assert(contents_view(contents@) =~= before.push((count, name@)));
            let later = bag_list_spec(all.skip(i + 1));
            match later {
                Some(Some(more)) => {
                    assert(contents_view(contents@) + more =~= before + (seq![(count, name@)]
                        + more));
                },
                _ => {},
            }
        }
        i += 1;
    }
    assert(contents_view(contents@) + Seq::<Content>::empty() =~= contents_view(contents@));
    Some(Some(contents))
}

/// A bag: its name and what it has to hold.
#[derive(Debug)]
pub struct Bag {
    pub name: Vec<char>,
    pub contents: Vec<(usize, Vec<char>)>,
}

/// A bag as plain values.
pub struct BagSpec {
    pub name: Seq<char>,
    pub contents: Seq<Content>,
}

impl View for Bag {
    type V = BagSpec;

    open spec fn view(&self) -> BagSpec {
        BagSpec { name: self.name@, contents: contents_view(self.contents@) }
    }
}

impl Bag {
    /// Whether this is the bag that everything turns on.
    pub fn is_shiny(&self) -> (shiny: bool)
        ensures
            shiny == (self@.name == "shiny gold"@),
    {
        is_text(&self.name, "shiny gold")
    }

    /// The bag that `s` states: a name, the word `contain`, and a list of
    /// contents. What follows a second `contain` is passed over.
    pub open spec fn from_str_spec(s: Seq<char>) -> Option<BagSpec> {
        let parts = split_text_spec(s, "contain"@);
        if parts.len() < 2 {
            None
        } else {
            match bag_list_spec(split_spec(parts[1], ',')) {
                Some(Some(contents)) => Some(
                    BagSpec { name: normalize_bag_name_spec(parts[0]), contents },
                ),
                Some(None) => Some(
                    BagSpec { name: normalize_bag_name_spec(parts[0]), contents: Seq::empty() },
                ),
                None => None,
            }
        }
    }

    pub fn from_str(s: &Vec<char>) -> (r: Option<Bag>)
        ensures
            match r {
                Some(bag) => Bag::from_str_spec(s@) == Some(bag@),
                None => Bag::from_str_spec(s@) is None,
            },
    {
        let word = chars_of("contain");
        proof {
            reveal_strlit("contain");
        }
        let parts = split_text(s, &word);
        if parts.len() < 2 {
            return None;
        }
        assert(texts(parts@)[0] == parts@[0]@);
        assert(texts(parts@)[1] == parts@[1]@);
        let name = normalize_bag_name(&parts[0]);
        match parse_bag_list(&parts[1]) {
            Some(Some(contents)) => Some(Bag { name, contents }),
            Some(None) => {
                let bag = Bag { name, contents: Vec::new() };
                assert(bag@.contents =~= Seq::<Content>::empty());
                Some(bag)
            },
            None => None,
        }
    }
}

/// The bags as plain values.
pub open spec fn bags_view(bags: Seq<Bag>) -> Seq<BagSpec> {
    bags.map_values(|b: Bag| b@)
}

/// Where the bag named `name` stands among the first `k` of `bags`: the
/// last of that name counts.
pub open spec fn lookup(bags: Seq<BagSpec>, name: Seq<char>, k: int) -> Option<int>
    decreases k,
{
    if k <= 0 {
        None
    } else if bags[k - 1].name == name {
        Some(k - 1)
    } else {
        lookup(bags, name, k - 1)
    }
}

/// A bag that is found stands among the bags.
pub proof fn lemma_lookup(bags: Seq<BagSpec>, name: Seq<char>, k: int)
    requires
        0 <= k <= bags.len(),
    ensures
        lookup(bags, name, k) matches Some(i) ==> 0 <= i < k && bags[i].name == name,
    decreases k,
{
    if k > 0 {
        lemma_lookup(bags, name, k - 1);
    }
}

/// Whether the bag named `name` is the shiny gold one or holds it, directly
/// or through other bags, which are gone through in order. Nothing where a
/// bag that is come to is not among `bags`, or where the search goes
/// deeper than `fuel` bags: as it does where a bag holds itself.
pub open spec fn find_spec(bags: Seq<BagSpec>, name: Seq<char>, fuel: nat) -> Option<bool>
    decreases fuel, 0nat, 0nat,
{
    if fuel == 0 {
        None
    } else {
        match lookup(bags, name, bags.len() as int) {
            None => None,
            Some(i) => if name == "shiny gold"@ {
                Some(true)
            } else {
                find_any_spec(bags, bags[i].contents, (fuel - 1) as nat)
            },
        }
    }
}

/// Whether one of `contents` is the shiny gold bag or holds it.
pub open spec fn find_any_spec(bags: Seq<BagSpec>, contents: Seq<Content>, fuel: nat) -> Option<
    bool,
>
    decreases fuel, 1nat, contents.len(),
{
    if contents.len() == 0 {
        Some(false)
    } else {
        match find_spec(bags, contents[0].1, fuel) {
            None => None,
            Some(true) => Some(true),
            Some(false) => find_any_spec(bags, contents.skip(1), fuel),
        }
    }
}

/// How many bags the bag named `name` holds in all. Nothing where a bag
/// that is come to is not among `bags`, where the count goes deeper than
/// `fuel` bags, or where a number does not fit.
pub open spec fn count_spec(bags: Seq<BagSpec>, name: Seq<char>, fuel: nat) -> Option<nat>
    decreases fuel, 0nat, 0nat,
{
    if fuel == 0 {
        None
    } else {
        match lookup(bags, name, bags.len() as int) {
            None => None,
            Some(i) => count_all_spec(bags, bags[i].contents, (fuel - 1) as nat),
        }
    }
}

/// How many bags `contents` make in all, with what they hold.
pub open spec fn count_all_spec(bags: Seq<BagSpec>, contents: Seq<Content>, fuel: nat) -> Option<
    nat,
>
    decreases fuel, 1nat, contents.len(),
{
    if contents.len() == 0 {
        Some(0)
    } else {
        match (
            count_all_spec(bags, contents.drop_last(), fuel),
            count_spec(bags, contents.last().1, fuel),
        ) {
            (Some(before), Some(inside)) => if 1 + inside <= usize::MAX && contents.last().0 * (1
                + inside) <= usize::MAX && before + contents.last().0 * (1 + inside)
                <= usize::MAX {
                Some((before + contents.last().0 * (1 + inside)) as nat)
            } else {
                None
            },
            _ => None,
        }
    }
}

/// Where the bag named `name` stands among `bags`.
pub fn position(bags: &Vec<Bag>, name: &Vec<char>) -> (r: Option<usize>)
    ensures
        match r {
            Some(i) => lookup(bags_view(bags@), name@, bags.len() as int) == Some(i as int) && i
                < bags.len(),
            None => lookup(bags_view(bags@), name@, bags.len() as int) is None,
        },
{
    let mut k: usize = bags.len();
    while k > 0
        invariant
            k <= bags.len(),
            lookup(bags_view(bags@), name@, bags.len() as int) == lookup(
                bags_view(bags@),
                name@,
                k as int,
            ),
        decreases k,
    {
        assert(bags_view(bags@)[k - 1] == bags@[k - 1]@);
        if same(&bags[k - 1].name, name) {
            return Some(k - 1);
        }
        k -= 1;
    }
    None
}

/// Whether the bag named `name` is the shiny gold one or holds it.
#[verifier::loop_isolation(false)]
pub fn find(name: &Vec<char>, bags: &Vec<Bag>, fuel: usize) -> (r: Option<bool>)
    ensures
        r == find_spec(bags_view(bags@), name@, fuel as nat),
    decreases fuel,
{
    if fuel == 0 {
        return None;
    }
    let i = match position(bags, name) {
        Some(i) => i,
        None => {
            return None;
        },
    };
    assert(bags_view(bags@)[i as int] == bags@[i as int]@);
    proof {
        lemma_lookup(bags_view(bags@), name@, bags.len() as int);
    }
    if bags[i].is_shiny() {
        return Some(true);
    }
    let contents = &bags[i].contents;
    let ghost all = contents_view(contents@);
    let mut k: usize = 0;
    assert(all.skip(0) =~= all);
    while k < contents.len()
        invariant
            k <= contents.len(),
            fuel > 0,
            all == contents_view(contents@),
            find_any_spec(bags_view(bags@), all, (fuel - 1) as nat) == find_any_spec(
                bags_view(bags@),
                all.skip(k as int),
                (fuel - 1) as nat,
            ),
        decreases contents.len() - k,
    {
        proof {
            assert(all.skip(k as int).skip(1) =~= all.skip(k + 1));
            assert(all.skip(k as int)[0] == (contents@[k as int].0, contents@[k as int].1@));
        }
        match find(&contents[k].1, bags, fuel - 1) {
            None => {
                return None;
            },
            Some(true) => {
                return Some(true);
            },
            Some(false) => {},
        }
        k += 1;
    }
    Some(false)
}

proof fn lemma_count_all_fails_on(bags: Seq<BagSpec>, contents: Seq<Content>, fuel: nat, k: int)
    requires
        0 <= k <= contents.len(),
        count_all_spec(bags, contents.take(k), fuel) is None,
    ensures
        count_all_spec(bags, contents, fuel) is None,
    decreases contents.len(),
{
    if k == contents.len() {
        assert(contents.take(k) =~= contents);
    } else {
        assert(contents.drop_last().take(k) =~= contents.take(k));
        lemma_count_all_fails_on(bags, contents.drop_last(), fuel, k);
    }
}

/// How many bags the bag named `name` holds in all.
#[verifier::loop_isolation(false)]
pub fn count(name: &Vec<char>, bags: &Vec<Bag>, fuel: usize) -> (r: Option<usize>)
    ensures
        match r {
            Some(n) => count_spec(bags_view(bags@), name@, fuel as nat) == Some(n as nat),
            None => count_spec(bags_view(bags@), name@, fuel as nat) is None,
        },
    decreases fuel,
{
    if fuel == 0 {
        return None;
    }
    let i = match position(bags, name) {
        Some(i) => i,
        None => {
            return None;
        },
    };
    assert(bags_view(bags@)[i as int] == bags@[i as int]@);
    let contents = &bags[i].contents;
    let ghost all = contents_view(contents@);
    let mut total: usize = 0;
    let mut k: usize = 0;
    while k < contents.len()
        invariant
            k <= contents.len(),
            fuel > 0,
            all == contents_view(contents@),
            count_all_spec(bags_view(bags@), all.take(k as int), (fuel - 1) as nat) == Some(
                total as nat,
            ),
        decreases contents.len() - k,
    {
        proof {
            assert(all.take(k + 1).drop_last() =~= all.take(k as int));
            assert(all.take(k + 1).last() == (contents@[k as int].0, contents@[k as int].1@));
        }
        let inside = count(&contents[k].1, bags, fuel - 1);
        let added = match inside {
            Some(inside) => match inside.checked_add(1) {
                Some(each) => match contents[k].0.checked_mul(each) {
                    Some(all) => total.checked_add(all),
                    None => None,
                },
                None => None,
            },
            None => None,
        };
        total = match added {
            Some(total) => total,
            None => {
                proof {
                    lemma_count_all_fails_on(
                        bags_view(bags@),
                        all,
                        (fuel - 1) as nat,
                        k + 1,
                    );
                }
                return None;
            },
        };
        k += 1;
    }
    assert(all.take(contents.len() as int) =~= all);
    Some(total)
}

/// [`Bag::from_str_spec`] as a value.
pub open spec fn bag_fn() -> spec_fn(Seq<char>) -> Option<BagSpec> {
    |line: Seq<char>| Bag::from_str_spec(line)
}

/// Whether the bag at `i` is the one that its name looks up, and not the
/// shiny gold one.
pub open spec fn is_holder_candidate(bags: Seq<BagSpec>, i: int) -> bool {
    lookup(bags, bags[i].name, bags.len() as int) == Some(i) && bags[i].name != "shiny gold"@
}

/// How many of the first `k` bags, each name counted once and the shiny
/// gold bag left out, hold the shiny gold bag. Nothing where the search
/// for one of them comes to nothing.
pub open spec fn count_holders(bags: Seq<BagSpec>, k: int) -> Option<nat>
    decreases k,
{
    if k <= 0 {
        Some(0)
    } else {
        match count_holders(bags, k - 1) {
            None => None,
            Some(n) => if is_holder_candidate(bags, k - 1) {
                match find_spec(bags, bags[k - 1].name, bags.len()) {
                    Some(true) => Some(n + 1),
                    Some(false) => Some(n),
                    None => None,
                }
            } else {
                Some(n)
            },
        }
    }
}

proof fn lemma_count_holders_fails_on(bags: Seq<BagSpec>, k: int, j: int)
    requires
        0 <= j <= k,
        count_holders(bags, j) is None,
    ensures
        count_holders(bags, k) is None,
    decreases k,
{
    if j < k {
        lemma_count_holders_fails_on(bags, k - 1, j);
    }
}

/// What [`star_one`] yields: how many kinds of bags hold the shiny gold bag
/// in the end.
pub open spec fn star_one_spec(input: Seq<char>) -> Option<nat> {
    match parse_all_spec(lines_spec(input), bag_fn()) {
        Some(bags) => count_holders(bags, bags.len() as int),
        None => None,
    }
}

/// What [`star_two`] yields: how many bags the shiny gold bag holds in all;
/// zero where there is no shiny gold bag.
pub open spec fn star_two_spec(input: Seq<char>) -> Option<nat> {
    match parse_all_spec(lines_spec(input), bag_fn()) {
        Some(bags) => match lookup(bags, "shiny gold"@, bags.len() as int) {
            Some(_) => count_spec(bags, "shiny gold"@, bags.len()),
            None => Some(0),
        },
        None => None,
    }
}

/// Reads the bags.
pub fn bags(input: &str) -> (r: Option<Vec<Bag>>)
    ensures
        match r {
            Some(found) => parse_all_spec(lines_spec(input@), bag_fn()) == Some(
                bags_view(found@),
            ),
            None => parse_all_spec(lines_spec(input@), bag_fn()) is None,
        },
{
    let found = lines(input);
    let read = |line: &Vec<char>| -> (r: Option<Bag>)
        ensures
            match r {
                Some(bag) => Bag::from_str_spec(line@) == Some(bag@),
                None => Bag::from_str_spec(line@) is None,
            },
        { Bag::from_str(line) };
    parse_all::<Bag, BagSpec, _>(&found, read, Ghost(bag_fn()), Ghost(|b: Bag| b@))
}

#[verifier::loop_isolation(false)]
pub fn star_one(input: &str) -> (r: Option<usize>)
    ensures
        match r {
            Some(n) => star_one_spec(input@) == Some(n as nat),
            None => star_one_spec(input@) is None,
        },
{
    let bags = match bags(input) {
        Some(bags) => bags,
        None => {
            return None;
        },
    };
    let ghost all = bags_view(bags@);
    let mut n: usize = 0;
    let mut k: usize = 0;
    while k < bags.len()
        invariant
            k <= bags.len(),
            n <= k,
            count_holders(all, k as int) == Some(n as nat),
        decreases bags.len() - k,
    {
        assert(all[k as int] == bags@[k as int]@);
        let live = match position(&bags, &bags[k].name) {
            Some(i) => i == k,
            None => false,
        };
        if live && !bags[k].is_shiny() {
            match find(&bags[k].name, &bags, bags.len()) {
                Some(true) => {
                    n += 1;
                },
                Some(false) => {},
                None => {
                    proof {
                        lemma_count_holders_fails_on(all, bags.len() as int, k + 1);
                    }
                    return None;
                },
            }
        }
        k += 1;
    }
    Some(n)
}

pub fn star_two(input: &str) -> (r: Option<usize>)
    ensures
        match r {
            Some(n) => star_two_spec(input@) == Some(n as nat),
            None => star_two_spec(input@) is None,
        },
{
    let bags = match bags(input) {
        Some(bags) => bags,
        None => {
            return None;
        },
    };
    let shiny = chars_of("shiny gold");
    match position(&bags, &shiny) {
        Some(_) => count(&shiny, &bags, bags.len()),
        None => Some(0),
    }
}

} // verus!
