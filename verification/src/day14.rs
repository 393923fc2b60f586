//! A memory that is written to through a mask of bits, which acts on the
//! values or on the addresses.

use vstd::prelude::*;
use std::collections::HashSet;
use itertools::Itertools;
use crate::either::Either;
use crate::text::{
    is_text, lines, lines_spec, parse_all, parse_all_spec, parse_usize,
    split, split_spec, texts, trim, trim_spec, unsigned_spec,
};

verus! {

broadcast use vstd::std_specs::hash::group_hash_axioms;

/// Two to the power of `n`.
pub open spec fn two_to(n: nat) -> nat
    decreases n,
{
    if n == 0 {
        1
    } else {
        2 * two_to((n - 1) as nat)
    }
}

/// The number in base two whose digit is one wherever `text` holds `one`.
pub open spec fn bits_of(text: Seq<char>, one: char) -> nat
    decreases text.len(),
{
    if text.len() == 0 {
        0
    } else {
        2 * bits_of(text.drop_last(), one) + if text.last() == one {
            1nat
        } else {
            0nat
        }
    }
}

/// A start of a text stands for no more than the text.
pub proof fn lemma_bits_of_prefix(text: Seq<char>, one: char, k: int)
    requires
        0 <= k <= text.len(),
    ensures
        bits_of(text.take(k), one) <= bits_of(text, one),
    decreases text.len(),
{
    if k == text.len() {
        assert(text.take(k) =~= text);
    } else {
        lemma_bits_of_prefix(text.drop_last(), one, k);
        assert(text.drop_last().take(k) =~= text.take(k));
    }
}

/// Whether every character of `text` is one of `0`, `1` and `X`.
pub open spec fn is_mask(text: Seq<char>) -> bool {
    forall|i: int|
        0 <= i < text.len() ==> (#[trigger] text[i]) == '0' || text[i] == '1' || text[i] == 'X'
}

/// The number in base two whose digit is one wherever `text`, from `from`
/// on, holds `one`, if it fits.
pub fn bits(text: &Vec<char>, from: usize, one: char) -> (r: Option<usize>)
    requires
        from <= text.len(),
    ensures
        match r {
            Some(n) => n == bits_of(text@.skip(from as int), one),
            None => bits_of(text@.skip(from as int), one) > usize::MAX,
        },
{
    let ghost digits = text@.skip(from as int);
    let mut n: usize = 0;
    let mut k: usize = from;
    while k < text.len()
        invariant
            from <= k <= text.len(),
            digits == text@.skip(from as int),
            n == bits_of(digits.take(k - from), one),
        decreases text.len() - k,
    {
        proof {
            let longer = digits.take(k - from + 1);
            assert(longer.drop_last() =~= digits.take(k - from));
            assert(longer.last() == text@[k as int]);
            lemma_bits_of_prefix(digits, one, k - from + 1);
        }
        let bit: usize = if text[k] == one {
            1
        } else {
            0
        };
        n = match n.checked_mul(2) {
            Some(twice) => match twice.checked_add(bit) {
                Some(n) => n,
                None => {
                    return None;
                },
            },
            None => {
                return None;
            },
        };
        k += 1;
    }
    assert(digits.take(k - from) =~= digits);
    Some(n)
}

/// A mask: its text, the bits that it leaves to the value, and the bits
/// that it sets.
#[derive(Debug)]
pub struct Mask {
    pub raw: Vec<char>,
    pub mask: usize,
    pub base_value: usize,
}

/// A mask as plain values.
pub struct MaskSpec {
    pub raw: Seq<char>,
    pub mask: usize,
    pub base_value: usize,
}

impl View for Mask {
    type V = MaskSpec;

    open spec fn view(&self) -> MaskSpec {
        MaskSpec { raw: self.raw@, mask: self.mask, base_value: self.base_value }
    }
}

/// A value to be written at an address.
#[derive(Debug, Clone, Copy)]
pub struct Assignment {
    pub address: usize,
    pub value: usize,
}

/// The digits of a number in base two that a `+` may precede.
pub open spec fn unsigned_part(text: Seq<char>) -> Seq<char> {
    if text.len() > 0 && text[0] == '+' {
        text.skip(1)
    } else {
        text
    }
}

impl Mask {
    pub fn new(mask: usize, base_value: usize, raw: Vec<char>) -> (made: Self)
        ensures
            made.mask == mask,
            made.base_value == base_value,
            made.raw == raw,
    {
        Mask { mask, base_value, raw }
    }

    /// The mask that `s` states: the word `mask`, a `=`, and a text of `0`,
    /// `1` and `X`, which a `+` may precede. The bits left to the value are
    /// those at an `X`, the bits set those at a `1`.
    pub open spec fn from_str_spec(s: Seq<char>) -> Option<MaskSpec> {
        let parts = split_spec(s, '=');
        if parts.len() < 2 || trim_spec(parts[0]) != "mask"@ {
            None
        } else {
            let raw = trim_spec(parts[1]);
            let digits = unsigned_part(raw);
            if digits.len() > 0 && is_mask(digits) && bits_of(digits, 'X') <= usize::MAX
                && bits_of(digits, '1') <= usize::MAX {
                Some(
                    MaskSpec {
                        raw,
                        mask: bits_of(digits, 'X') as usize,
                        base_value: bits_of(digits, '1') as usize,
                    },
                )
            } else {
                None
            }
        }
    }

    #[verifier::loop_isolation(false)]
    pub fn from_str(s: &Vec<char>) -> (r: Option<Mask>)
        ensures
            match r {
                Some(mask) => Mask::from_str_spec(s@) == Some(mask@),
                None => Mask::from_str_spec(s@) is None,
            },
    {
        let parts = split(s, '=');
        if parts.len() < 2 {
            return None;
        }
        assert(texts(parts@)[0] == parts@[0]@);
        assert(texts(parts@)[1] == parts@[1]@);
        if !is_text(&trim(&parts[0]), "mask") {
            return None;
        }
        let raw = trim(&parts[1]);
        let from: usize = if raw.len() > 0 && raw[0] == '+' {
            1
        } else {
            0
        };
        let ghost digits = unsigned_part(raw@);
        assert(digits =~= raw@.skip(from as int));
        if from == raw.len() {
            return None;
        }
        let mut k: usize = from;
        while k < raw.len()
            invariant
                from <= k <= raw.len(),
                digits == raw@.skip(from as int),
                forall|i: int|
                    0 <= i < k - from ==> (#[trigger] digits[i]) == '0' || digits[i] == '1'
                        || digits[i] == 'X',
            decreases raw.len() - k,
        {
            if raw[k] != '0' && raw[k] != '1' && raw[k] != 'X' {
                assert(!(digits[k - from] == '0' || digits[k - from] == '1' || digits[k - from]
                    == 'X'));
                return None;
            }
            k += 1;
        }
        match (bits(&raw, from, 'X'), bits(&raw, from, '1')) {
            (Some(mask), Some(base_value)) => Some(Mask { raw, mask, base_value }),
            _ => None,
        }
    }

    /// `value` with the bits that the mask sets set, and all other bits that
    /// it does not leave to the value cleared.
    pub fn apply_mask(&self, value: usize) -> (masked: Option<usize>)
        ensures
            match masked {
                Some(masked) => masked == self.base_value + (value & self.mask),
                None => self.base_value + (value & self.mask) > usize::MAX,
            },
    {
        self.base_value.checked_add(value & self.mask)
    }
}

/// The choices for the bit of an address at which the mask holds `c`, where
/// the address itself has `bit` there.
pub open spec fn choices(c: char, bit: bool) -> Seq<char> {
    if c == '1' {
        seq!['1']
    } else if c == 'X' {
        seq!['0', '1']
    } else if bit {
        seq!['1']
    } else {
        seq!['0']
    }
}

/// Whether `address` has the bit `b` set.
pub open spec fn bit_at(address: usize, b: nat) -> bool {
    (address as nat / two_to(b)) % 2 == 1
}

/// The choices for each bit of `address` under the mask `raw`, from the
/// lowest bit up. The mask holds the highest bit first.
pub open spec fn options_spec(raw: Seq<char>, address: usize) -> Seq<Seq<char>> {
    Seq::new(raw.len(), |b: int| choices(raw[raw.len() - 1 - b], bit_at(address, b as nat)))
}

/// All the ways to pick one of each of `options`, ordered by the first pick,
/// then by the second and so on. There is one way to pick from nothing.
pub open spec fn picks(options: Seq<Seq<char>>) -> Seq<Seq<char>>
    decreases options.len(),
{
    if options.len() == 0 {
        seq![Seq::empty()]
    } else {
        let rest = picks(options.skip(1));
        Seq::new(
            options[0].len() * rest.len(),
            |k: int| seq![options[0][k / (rest.len() as int)]] + rest[k % (rest.len() as int)],
        )
    }
}

/// What `Itertools::multi_cartesian_product` yields for `options`: all the
/// ways to pick one of each, the last pick changing fastest; and nothing
/// where there are no options at all.
pub open spec fn cartesian(options: Seq<Seq<char>>) -> Seq<Seq<char>> {
    if options.len() == 0 {
        Seq::empty()
    } else {
        picks(options)
    }
}

/// `Itertools::multi_cartesian_product` on the characters of `options`.
#[verifier::external_body]
fn product(options: &Vec<Vec<char>>) -> (found: Vec<Vec<char>>)
    ensures
        texts(found@) == cartesian(texts(options@)),
{
    options.iter().map(|option| option.iter().cloned()).multi_cartesian_product().collect()
}

/// The number whose bits, from the lowest up, are set where `picked` holds
/// a `1`.
pub open spec fn address_of(picked: Seq<char>) -> nat
    decreases picked.len(),
{
    if picked.len() == 0 {
        0
    } else {
        address_of(picked.drop_last()) + if picked.last() == '1' {
            two_to((picked.len() - 1) as nat)
        } else {
            0nat
        }
    }
}

/// The addresses that the mask `raw` makes of `address`: where it holds `0`
/// the bit of the address stays, where it holds `1` the bit is set, and
/// where it holds `X` the bit takes both values. Nothing where the mask
/// holds another character or more characters than an address has bits.
pub open spec fn addresses_spec(raw: Seq<char>, address: usize) -> Option<Seq<nat>> {
    if !is_mask(raw) || (raw.len() > 0 && 2 * two_to((raw.len() - 1) as nat) > usize::MAX + 1) {
        None
    } else {
        Some(cartesian(options_spec(raw, address)).map_values(|picked: Seq<char>| address_of(picked)))
    }
}


/// Each way to pick holds one pick for each option.
pub proof fn lemma_picks_len(options: Seq<Seq<char>>, k: int)
    requires
        0 <= k < picks(options).len(),
    ensures
        picks(options)[k].len() == options.len(),
    decreases options.len(),
{
    if options.len() > 0 {
        let rest = picks(options.skip(1));
        assert(0 <= k < options[0].len() * rest.len());
        assert(rest.len() > 0) by (nonlinear_arith)
            requires
                0 <= k < options[0].len() * rest.len(),
        ;
        assert(0 <= k % (rest.len() as int) < rest.len());
        lemma_picks_len(options.skip(1), k % (rest.len() as int));
    }
}

/// The powers of two grow.
pub proof fn lemma_two_to_grows(a: nat, b: nat)
    requires
        a <= b,
    ensures
        1 <= two_to(a) <= two_to(b),
    decreases b,
{
    if a < b {
        lemma_two_to_grows(a, (b - 1) as nat);
    } else if a > 0 {
        lemma_two_to_grows((a - 1) as nat, (a - 1) as nat);
    }
}

/// Bits below the bit `n` make a number below two to the power of `n`.
pub proof fn lemma_address_of_bound(picked: Seq<char>)
    ensures
        address_of(picked) < two_to(picked.len()),
    decreases picked.len(),
{
    if picked.len() > 0 {
        lemma_address_of_bound(picked.drop_last());
    }
}

impl Mask {
    /// The addresses that the mask makes of `address`.
    #[verifier::loop_isolation(false)]
    pub fn apply_address_mask(&self, address: usize) -> (r: Option<Vec<usize>>)
        ensures
            match r {
                Some(found) => addresses_spec(self.raw@, address) == Some(
                    found@.map_values(|a: usize| a as nat),
                ),
                None => addresses_spec(self.raw@, address) is None,
            },
    {
        let n = self.raw.len();
        let ghost raw = self.raw@;
        let mut i: usize = 0;
        while i < n
            invariant
                i <= n,
                forall|k: int|
                    0 <= k < i ==> (#[trigger] raw[k]) == '0' || raw[k] == '1' || raw[k] == 'X',
            decreases n - i,
        {
            let c = self.raw[i];
            if c != '0' && c != '1' && c != 'X' {
                assert(!(raw[i as int] == '0' || raw[i as int] == '1' || raw[i as int] == 'X'));
                return None;
            }
            i += 1;
        }
        // The powers of two, one for each bit.
        let mut weights: Vec<usize> = Vec::new();
        let mut b: usize = 0;
        while b < n
            invariant
                b <= n,
                weights@.len() == b,
                forall|k: int| 0 <= k < b ==> (#[trigger] weights@[k]) == two_to(k as nat),
            decreases n - b,
        {
            let weight: usize = if b == 0 {
                1
            } else {
                match weights[b - 1].checked_mul(2) {
                    Some(weight) => weight,
                    None => {
                        proof {
                            lemma_two_to_grows(b as nat, (n - 1) as nat);
                        }
                        return None;
                    },
                }
            };
            weights.push(weight);
            b += 1;
        }
        if n > 0 && weights[n - 1] as u128 * 2 > usize::MAX as u128 + 1 {
            return None;
        }
        let mut options: Vec<Vec<char>> = Vec::new();
        let mut b: usize = 0;
        while b < n
            invariant
                b <= n,
                texts(options@) == options_spec(raw, address).take(b as int),
            decreases n - b,
        {
            let c = self.raw[n - 1 - b];
            proof {
                lemma_two_to_grows(b as nat, b as nat);
            }
            let bit = (address / weights[b]) % 2 == 1;
            let mut option: Vec<char> = Vec::new();
            if c == '1' {
                option.push('1');
            } else if c == 'X' {
                option.push('0');
                option.push('1');
            } else if bit {
                option.push('1');
            } else {
                option.push('0');
            }
            assert(option@ =~= choices(c, bit_at(address, b as nat)));
            options.push(option);
            assert(texts(options@) =~= options_spec(raw, address).take(b + 1));
            b += 1;
        }
        assert(options_spec(raw, address).take(n as int) =~= options_spec(raw, address));
        let picked = product(&options);
        let ghost all = cartesian(options_spec(raw, address));
        let mut found: Vec<usize> = Vec::new();
        let mut k: usize = 0;
        while k < picked.len()
            invariant
                k <= picked.len(),
                texts(picked@) == all,
                found@.map_values(|a: usize| a as nat) == all.take(k as int).map_values(
                    |picked: Seq<char>| address_of(picked),
                ),
            decreases picked.len() - k,
        {
            let pick = &picked[k];
            proof {
                assert(texts(picked@)[k as int] == pick@);
                lemma_picks_len(options_spec(raw, address), k as int);
            }
            let mut made: usize = 0;
            let mut b: usize = 0;
            while b < pick.len()
                invariant
                    b <= pick.len(),
                    pick.len() == n,
                    made == address_of(pick@.take(b as int)),
                decreases pick.len() - b,
            {
                proof {
                    assert(pick@.take(b + 1).drop_last() =~= pick@.take(b as int));
                    assert(pick@.take(b + 1).last() == pick@[b as int]);
                    lemma_address_of_bound(pick@.take(b as int));
                    lemma_two_to_grows((b + 1) as nat, n as nat);
                }
                if pick[b] == '1' {
                    made = made + weights[b];
                }
                b += 1;
            }
            assert(pick@.take(pick.len() as int) =~= pick@);
            let ghost before = found@.map_values(|a: usize| a as nat);
            found.push(made);
            assert(found@.map_values(|a: usize| a as nat) =~= before.push(made as nat));
            assert(all.take(k + 1).map_values(|picked: Seq<char>| address_of(picked))
                =~= all.take(k as int).map_values(|picked: Seq<char>| address_of(picked)).push(
                address_of(pick@),
            ));
            k += 1;
        }
        assert(all.take(picked.len() as int) =~= all);
        Some(found)
    }
}

/// `s` without its square brackets.
pub open spec fn without_brackets(s: Seq<char>) -> Seq<char>
    decreases s.len(),
{
    if s.len() == 0 {
        Seq::empty()
    } else if s.last() == '[' || s.last() == ']' {
        without_brackets(s.drop_last())
    } else {
        without_brackets(s.drop_last()).push(s.last())
    }
}

/// Whether `s` starts with the word `mem`.
pub open spec fn starts_with_mem(s: Seq<char>) -> bool {
    s.len() >= 3 && s[0] == 'm' && s[1] == 'e' && s[2] == 'm'
}

impl Assignment {
    pub fn new(address: usize, value: usize) -> (made: Self)
        ensures
            made.address == address,
            made.value == value,
    {
        Assignment { address, value }
    }

    /// The assignment that `s` states: the word `mem` and an address, which
    /// may stand in square brackets, a `=`, and a value.
    pub open spec fn from_str_spec(s: Seq<char>) -> Option<Assignment> {
        let parts = split_spec(s, '=');
        if parts.len() < 2 || !starts_with_mem(trim_spec(parts[0])) {
            None
        } else {
            match (
                unsigned_spec(without_brackets(trim_spec(parts[0]).skip(3)), usize::MAX as nat),
                unsigned_spec(trim_spec(parts[1]), usize::MAX as nat),
            ) {
                (Some(address), Some(value)) => Some(
                    Assignment { address: address as usize, value: value as usize },
                ),
                _ => None,
            }
        }
    }

    pub fn from_str(s: &Vec<char>) -> (r: Option<Assignment>)
        ensures
            r == Assignment::from_str_spec(s@),
    {
        let parts = split(s, '=');
        if parts.len() < 2 {
            return None;
        }
        assert(texts(parts@)[0] == parts@[0]@);
        assert(texts(parts@)[1] == parts@[1]@);
        let marker = trim(&parts[0]);
        if !(marker.len() >= 3 && marker[0] == 'm' && marker[1] == 'e' && marker[2] == 'm') {
            return None;
        }
        let mut index: Vec<char> = Vec::new();
        let mut i: usize = 3;
        let ghost indexing = marker@.skip(3);
        assert(indexing.take(0) =~= Seq::<char>::empty());
        while i < marker.len()
            invariant
                3 <= i <= marker.len(),
                indexing == marker@.skip(3),
                index@ == without_brackets(indexing.take(i - 3)),
            decreases marker.len() - i,
        {
            proof {
                assert(indexing.take(i - 3 + 1).drop_last() =~= indexing.take(i - 3));
                assert(indexing.take(i - 3 + 1).last() == marker@[i as int]);
            }
            if marker[i] != '[' && marker[i] != ']' {
                index.push(marker[i]);
            }
            i += 1;
        }
        assert(indexing.take(marker.len() - 3) =~= indexing);
        match (parse_usize(&index), parse_usize(&trim(&parts[1]))) {
            (Some(address), Some(value)) => Some(Assignment { address, value }),
            _ => None,
        }
    }
}

/// A line of a program as plain values.
pub type Item = Either<Assignment, MaskSpec>;

/// A line of a program as plain values.
pub open spec fn item_view(item: Either<Assignment, Mask>) -> Item {
    match item {
        Either::Left(assignment) => Either::Left(assignment),
        Either::Right(mask) => Either::Right(mask@),
    }
}

/// What `line` states: an assignment, or else a mask.
pub open spec fn item_spec(line: Seq<char>) -> Option<Item> {
    match Assignment::from_str_spec(line) {
        Some(assignment) => Some(Either::Left(assignment)),
        None => match Mask::from_str_spec(line) {
            Some(mask) => Some(Either::Right(mask)),
            None => None,
        },
    }
}

/// [`item_spec`] as a value.
pub open spec fn item_fn() -> spec_fn(Seq<char>) -> Option<Item> {
    |line: Seq<char>| item_spec(line)
}

/// Reads a line of a program.
pub fn item(line: &Vec<char>) -> (r: Option<Either<Assignment, Mask>>)
    ensures
        match r {
            Some(found) => item_spec(line@) == Some(item_view(found)),
            None => item_spec(line@) is None,
        },
{
    match Assignment::from_str(line) {
        Some(assignment) => Some(Either::Left(assignment)),
        None => match Mask::from_str(line) {
            Some(mask) => Some(Either::Right(mask)),
            None => None,
        },
    }
}

/// What a mask acts on.
#[derive(Debug, Clone, Copy)]
pub enum Version {
    /// On the value that is written.
    One,
    /// On the address that is written to.
    Two,
}

/// A write: the address and the value.
pub type Write = (usize, usize);

/// The writes that `assignment` makes under the mask `active`.
pub open spec fn writes_of(version: Version, active: MaskSpec, assignment: Assignment) -> Option<
    Seq<Write>,
> {
    match version {
        Version::One => if active.base_value + (assignment.value & active.mask) <= usize::MAX {
            Some(
                seq![
                    (
                        assignment.address,
                        (active.base_value + (assignment.value & active.mask)) as usize,
                    ),
                ],
            )
        } else {
            None
        },
        Version::Two => match addresses_spec(active.raw, assignment.address) {
            Some(addresses) => Some(
                addresses.map_values(|address: nat| (address as usize, assignment.value)),
            ),
            None => None,
        },
    }
}

/// The writes that `items` make in order, the mask `active` being in force
/// at first.
pub open spec fn run_spec(version: Version, items: Seq<Item>, active: MaskSpec) -> Option<
    Seq<Write>,
>
    decreases items.len(),
{
    if items.len() == 0 {
        Some(Seq::empty())
    } else {
        match items[0] {
            Either::Right(mask) => run_spec(version, items.skip(1), mask),
            Either::Left(assignment) => match (
                writes_of(version, active, assignment),
                run_spec(version, items.skip(1), active),
            ) {
                (Some(first), Some(rest)) => Some(first + rest),
                _ => None,
            },
        }
    }
}

/// Whether one of `writes` goes to `address`.
pub open spec fn written(writes: Seq<Write>, address: usize) -> bool {
    exists|i: int| 0 <= i < writes.len() && (#[trigger] writes[i]).0 == address
}

/// The sum of what the memory holds after `writes`: of each write that no
/// later write to the same address follows, the value.
pub open spec fn total(writes: Seq<Write>) -> nat
    decreases writes.len(),
{
    if writes.len() == 0 {
        0
    } else if written(writes.skip(1), writes[0].0) {
        total(writes.skip(1))
    } else {
        total(writes.skip(1)) + writes[0].1 as nat
    }
}

/// The lines of `items` after the first mask, and that mask.
pub open spec fn after_first_mask(items: Seq<Item>) -> Option<(MaskSpec, Seq<Item>)>
    decreases items.len(),
{
    if items.len() == 0 {
        None
    } else {
        match items[0] {
            Either::Right(mask) => Some((mask, items.skip(1))),
            Either::Left(_) => after_first_mask(items.skip(1)),
        }
    }
}

/// What a star yields: the sum of what the memory holds after the program
/// that the lines of `input` state, which starts at its first mask. Nothing
/// where a line states neither an assignment nor a mask, where there is no
/// mask, where a mask cannot be applied, or where a number does not fit.
pub open spec fn star_spec(version: Version, input: Seq<char>) -> Option<usize> {
    match parse_all_spec(lines_spec(input), item_fn()) {
        Some(items) => match after_first_mask(items) {
            Some((mask, rest)) => match run_spec(version, rest, mask) {
                Some(writes) => if total(writes) <= usize::MAX {
                    Some(total(writes) as usize)
                } else {
                    None
                },
                None => None,
            },
            None => None,
        },
        None => None,
    }
}

/// The sum of what the memory holds after `writes`, if it fits.
pub fn sum_memory(writes: &Vec<Write>) -> (r: Option<usize>)
    ensures
        match r {
            Some(sum) => sum == total(writes@),
            None => total(writes@) > usize::MAX,
        },
{
    let mut seen: HashSet<usize> = HashSet::new();
    let mut sum: u128 = 0;
    let mut i: usize = writes.len();
    assert(writes@.skip(i as int) =~= Seq::<Write>::empty());
    while i > 0
        invariant
            i <= writes.len(),
            forall|a: usize| seen@.contains(a) <==> written(writes@.skip(i as int), a),
            sum == total(writes@.skip(i as int)),
            sum <= (writes.len() - i) * usize::MAX,
        decreases i,
    {
        i -= 1;
        let (address, value) = writes[i];
        let ghost later = writes@.skip(i + 1);
        let ghost now = writes@.skip(i as int);
        proof {
            assert(now.skip(1) =~= later);
            assert(now[0] == writes@[i as int]);
            assert((writes.len() - (i + 1)) * usize::MAX + usize::MAX == (writes.len() - i)
                * usize::MAX) by (nonlinear_arith);
            assert((writes.len() - i) * usize::MAX <= usize::MAX * usize::MAX)
                by (nonlinear_arith)
                requires
                    0 <= writes.len() - i <= usize::MAX,
            ;
            assert(usize::MAX * usize::MAX < u128::MAX) by (nonlinear_arith)
                requires
                    usize::MAX <= u64::MAX,
            ;
        }
        if !seen.contains(&address) {
            sum = sum + value as u128;
            seen.insert(address);
        }
        proof {
            assert forall|a: usize| seen@.contains(a) <==> written(now, a) by {
                if written(now, a) {
                    let j = choose|j: int| 0 <= j < now.len() && (#[trigger] now[j]).0 == a;
                    if j > 0 {
                        assert(later[j - 1] == now[j]);
                    }
                }
                if written(later, a) {
                    let j = choose|j: int| 0 <= j < later.len() && (#[trigger] later[j]).0 == a;
                    assert(now[j + 1] == later[j]);
                }
                if a == address {
                    assert(now[0].0 == a);
                }
            }
        }
    }
    assert(writes@.skip(0) =~= writes@);
    if sum <= usize::MAX as u128 {
        Some(sum as usize)
    } else {
        None
    }
}

/// Carries out `items` from the place `from` on, with `mask` in force at
/// first, and yields the writes.
#[verifier::loop_isolation(false)]
pub fn run(version: Version, items: &Vec<Either<Assignment, Mask>>, from: usize, mask: &Mask) -> (r:
    Option<Vec<Write>>)
    requires
        from <= items.len(),
    ensures
        match r {
            Some(writes) => run_spec(
                version,
                items@.map_values(|i: Either<Assignment, Mask>| item_view(i)).skip(from as int),
                mask@,
            ) == Some(writes@),
            None => run_spec(
                version,
                items@.map_values(|i: Either<Assignment, Mask>| item_view(i)).skip(from as int),
                mask@,
            ) is None,
        },
{
    let ghost all = items@.map_values(|i: Either<Assignment, Mask>| item_view(i));
    let mut writes: Vec<Write> = Vec::new();
    let mut active: &Mask = mask;
    let mut i: usize = from;
    while i < items.len()
        invariant
            from <= i <= items.len(),
            run_spec(version, all.skip(from as int), mask@) == (match run_spec(
                version,
                all.skip(i as int),
                active@,
            ) {
                Some(rest) => Some(writes@ + rest),
                None => None,
            }),
        decreases items.len() - i,
    {
        proof {
            assert(all.skip(i as int).skip(1) =~= all.skip(i + 1));
            assert(all.skip(i as int)[0] == item_view(items@[i as int]));
        }
        let ghost before = writes@;
        let ghost rest = run_spec(version, all.skip(i + 1), active@);
        match &items[i] {
            Either::Right(mask) => {
                active = mask;
            },
            Either::Left(assignment) => {
                match version {
                    Version::One => {
                        match active.apply_mask(assignment.value) {
                            Some(masked) => {
                                writes.push((assignment.address, masked));
                                proof {
                                    if rest is Some {
                                        assert(writes@ + rest->Some_0 =~= before + (seq![
                                            (assignment.address, masked),
                                        ] + rest->Some_0));
                                    }
                                }
                            },
                            None => {
                                return None;
                            },
                        }
                    },
                    Version::Two => {
                        match active.apply_address_mask(assignment.address) {
                            Some(addresses) => {
                                let ghost made = writes_of(version, active@, *assignment)->Some_0;
                                let mut k: usize = 0;
                                while k < addresses.len()
                                    invariant
                                        k <= addresses.len(),
                                        writes@ == before + made.take(k as int),
                                    decreases addresses.len() - k,
                                {
                                    writes.push((addresses[k], assignment.value));
                                    assert(writes@ =~= before + made.take(k + 1));
                                    k += 1;
                                }
                                proof {
                                    assert(made.take(addresses.len() as int) =~= made);
                                    if rest is Some {
                                        assert(writes@ + rest->Some_0 =~= before + (made
                                            + rest->Some_0));
                                    }
                                }
                            },
                            None => {
                                return None;
                            },
                        }
                    },
                }
            },
        }
        i += 1;
    }
    assert(writes@ + Seq::<Write>::empty() =~= writes@);
    Some(writes)
}

/// The sum of what the memory holds after the program of `input`.
#[verifier::loop_isolation(false)]
pub fn star(version: Version, input: &str) -> (r: Option<usize>)
    ensures
        r == star_spec(version, input@),
{
    let found = lines(input);
    let read = |line: &Vec<char>| -> (r: Option<Either<Assignment, Mask>>)
        ensures
            match r {
                Some(found) => item_spec(line@) == Some(item_view(found)),
                None => item_spec(line@) is None,
            },
        { item(line) };
    let items = match parse_all::<Either<Assignment, Mask>, Item, _>(
        &found,
        read,
        Ghost(item_fn()),
        Ghost(|i: Either<Assignment, Mask>| item_view(i)),
    ) {
        Some(items) => items,
        None => {
            return None;
        },
    };
    let ghost all = items@.map_values(|i: Either<Assignment, Mask>| item_view(i));
    let mut first: usize = 0;
    assert(all.skip(0) =~= all);
    while first < items.len()
        invariant
            first <= items.len(),
            after_first_mask(all) == after_first_mask(all.skip(first as int)),
        decreases items.len() - first,
    {
        proof {
            assert(all.skip(first as int).skip(1) =~= all.skip(first + 1));
            assert(all.skip(first as int)[0] == item_view(items@[first as int]));
        }
        match &items[first] {
            Either::Right(mask) => {
                return match run(version, &items, first + 1, mask) {
                    Some(writes) => sum_memory(&writes),
                    None => None,
                };
            },
            Either::Left(_) => {},
        }
        first += 1;
    }
    None
}

/// The sum of what the memory holds where the masks act on the values.
pub fn star_one(input: &str) -> (r: Option<usize>)
    ensures
        r == star_spec(Version::One, input@),
{
    star(Version::One, input)
}

/// The sum of what the memory holds where the masks act on the addresses.
pub fn star_two(input: &str) -> (r: Option<usize>)
    ensures
        r == star_spec(Version::Two, input@),
{
    star(Version::Two, input)
}

} // verus!
