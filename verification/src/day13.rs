//! Buses that leave at every multiple of their number.

use vstd::prelude::*;
use crate::text::{
    chars_of, is_text, parse_usize, plain_lines, plain_lines_spec, split, split_spec, texts, trim,
    trim_spec, unsigned_spec,
};

verus! {

/// The bus that `entry` names: a number, or none for an `x`; nothing for
/// anything else.
pub open spec fn bus_spec(entry: Seq<char>) -> Option<Option<usize>> {
    if trim_spec(entry) == "x"@ {
        Some(None)
    } else {
        match unsigned_spec(trim_spec(entry), usize::MAX as nat) {
            Some(id) => Some(Some(id as usize)),
            None => None,
        }
    }
}

/// The buses that `entries` name; with `filter`, without those named `x`.
pub open spec fn buses_spec(entries: Seq<Seq<char>>, filter: bool) -> Option<Seq<Option<usize>>>
    decreases entries.len(),
{
    if entries.len() == 0 {
        Some(Seq::empty())
    } else {
        match (buses_spec(entries.drop_last(), filter), bus_spec(entries.last())) {
            (Some(before), Some(bus)) => if filter && bus is None {
                Some(before)
            } else {
                Some(before.push(bus))
            },
            _ => None,
        }
    }
}

proof fn lemma_buses_spec_fails_on(entries: Seq<Seq<char>>, filter: bool, k: int)
    requires
        0 <= k <= entries.len(),
        buses_spec(entries.take(k), filter) is None,
    ensures
        buses_spec(entries, filter) is None,
    decreases entries.len(),
{
    if k == entries.len() {
        assert(entries.take(k) =~= entries);
    } else {
        assert(entries.drop_last().take(k) =~= entries.take(k));
        lemma_buses_spec_fails_on(entries.drop_last(), filter, k);
    }
}

/// What `input` states: on its first line the time from which on one can
/// leave, on its second the buses, with commas between them.
pub open spec fn parse_spec(input: Seq<char>, filter: bool) -> Option<(usize, Seq<Option<usize>>)> {
    let lines = plain_lines_spec(input);
    if lines.len() < 2 {
        None
    } else {
        match (
            unsigned_spec(trim_spec(lines[0]), usize::MAX as nat),
            buses_spec(split_spec(trim_spec(lines[1]), ','), filter),
        ) {
            (Some(departure), Some(buses)) => Some((departure as usize, buses)),
            _ => None,
        }
    }
}

/// Reads the time and the buses.
#[verifier::loop_isolation(false)]
pub fn parse(input: &str, filter: bool) -> (r: Option<(usize, Vec<Option<usize>>)>)
    ensures
        match r {
            Some((departure, buses)) => parse_spec(input@, filter) == Some((departure, buses@)),
            None => parse_spec(input@, filter) is None,
        },
{
    let lines = plain_lines(&chars_of(input));
    if lines.len() < 2 {
        return None;
    }
    assert(texts(lines@)[0] == lines@[0]@);
    assert(texts(lines@)[1] == lines@[1]@);
    let departure = match parse_usize(&trim(&lines[0])) {
        Some(departure) => departure,
        None => {
            return None;
        },
    };
    let entries = split(&trim(&lines[1]), ',');
    let mut buses: Vec<Option<usize>> = Vec::new();
    let mut i: usize = 0;
    while i < entries.len()
        invariant
            i <= entries.len(),
            buses_spec(texts(entries@).take(i as int), filter) == Some(buses@),
        decreases entries.len() - i,
    {
        proof {
            let upto = texts(entries@).take(i + 1);
            assert(upto.drop_last() =~= texts(entries@).take(i as int));
            assert(upto.last() == entries@[i as int]@);
        }
        let entry = trim(&entries[i]);
        if is_text(&entry, "x") {
            if !filter {
                buses.push(None);
            }
        } else {
            match parse_usize(&entry) {
                Some(id) => {
                    buses.push(Some(id));
                },
                None => {
                    proof {
                        lemma_buses_spec_fails_on(texts(entries@), filter, i + 1);
                    }
                    return None;
                },
            }
        }
        i += 1;
    }
    assert(texts(entries@).take(entries.len() as int) =~= texts(entries@));
    Some((departure, buses))
}

/// The least number from `x` on, and below `modulus`, whose product with
/// `y` leaves one when divided by `modulus`.
pub open spec fn inverse_from(y: nat, modulus: nat, x: nat) -> Option<nat>
    decreases modulus - x,
{
    if x >= modulus {
        None
    } else if (x * y) % modulus == 1 {
        Some(x)
    } else {
        inverse_from(y, modulus, x + 1)
    }
}

/// The least number, from one on, whose product with `y` leaves one when
/// divided by `modulus`; nothing where there is none.
pub fn inverse(y: usize, modulus: usize) -> (r: Option<usize>)
    ensures
        match r {
            Some(x) => inverse_from(y as nat, modulus as nat, 1) == Some(x as nat),
            None => inverse_from(y as nat, modulus as nat, 1) is None,
        },
{
    let mut x: usize = 1;
    while x < modulus
        invariant
            1 <= x,
            inverse_from(y as nat, modulus as nat, 1) == inverse_from(
                y as nat,
                modulus as nat,
                x as nat,
            ),
        decreases modulus - x,
    {
        assert(x * y <= usize::MAX * usize::MAX) by (nonlinear_arith)
            requires
                0 <= x <= usize::MAX,
                0 <= y <= usize::MAX,
        ;
        assert(usize::MAX * usize::MAX < u128::MAX) by (nonlinear_arith)
            requires
                usize::MAX <= u64::MAX,
        ;
        if (x as u128 * y as u128) % (modulus as u128) == 1 {
            return Some(x);
        }
        x += 1;
    }
    None
}

/// How long one waits for `bus` from `departure` on; a full round where it
/// leaves right then.
pub open spec fn wait(departure: usize, bus: usize) -> nat
    recommends
        bus > 0,
{
    (bus - departure % bus) as nat
}

/// The first of `buses` for which one waits least, with the wait; nothing
/// where a bus has the number zero, or where there is no bus.
pub open spec fn earliest(departure: usize, buses: Seq<Option<usize>>) -> Option<(usize, nat)>
    decreases buses.len(),
{
    if buses.len() == 0 {
        None
    } else {
        match buses.last() {
            Some(bus) => if bus == 0 {
                None
            } else if buses.len() == 1 {
                Some((bus, wait(departure, bus)))
            } else {
                match earliest(departure, buses.drop_last()) {
                    Some((best, least)) => if wait(departure, bus) < least {
                        Some((bus, wait(departure, bus)))
                    } else {
                        Some((best, least))
                    },
                    None => None,
                }
            },
            None => None,
        }
    }
}

proof fn lemma_earliest_fails_on(departure: usize, buses: Seq<Option<usize>>, k: int)
    requires
        1 <= k <= buses.len(),
        earliest(departure, buses.take(k)) is None,
    ensures
        earliest(departure, buses) is None,
    decreases buses.len(),
{
    if k == buses.len() {
        assert(buses.take(k) =~= buses);
    } else {
        assert(buses.drop_last().take(k) =~= buses.take(k));
        lemma_earliest_fails_on(departure, buses.drop_last(), k);
    }
}

/// What [`star_one`] yields: the number of the bus for which one waits
/// least, times the wait; zero where there is no bus. Nothing where `input`
/// cannot be read, where a bus has the number zero, or where the product
/// does not fit.
pub open spec fn star_one_spec(input: Seq<char>) -> Option<usize> {
    match parse_spec(input, true) {
        Some((departure, buses)) => if buses.len() == 0 {
            Some(0)
        } else {
            match earliest(departure, buses) {
                Some((bus, least)) => if bus * least <= usize::MAX {
                    Some((bus * least) as usize)
                } else {
                    None
                },
                None => None,
            }
        },
        None => None,
    }
}

pub fn star_one(input: &str) -> (r: Option<usize>)
    ensures
        r == star_one_spec(input@),
{
    let (departure, buses) = match parse(input, true) {
        Some(found) => found,
        None => {
            return None;
        },
    };
    if buses.len() == 0 {
        return Some(0);
    }
    let mut best: usize = 0;
    let mut least: usize = 0;
    let mut i: usize = 0;
    while i < buses.len()
        invariant
            i <= buses.len(),
            parse_spec(input@, true) == Some((departure, buses@)),
            i > 0 ==> earliest(departure, buses@.take(i as int)) == Some((best, least as nat)),
        decreases buses.len() - i,
    {
        proof {
            assert(buses@.take(i + 1).drop_last() =~= buses@.take(i as int));
            assert(buses@.take(i + 1).last() == buses@[i as int]);
        }
        let bus = match buses[i] {
            Some(bus) => bus,
            None => {
                proof {
                    lemma_earliest_fails_on(departure, buses@, i + 1);
                }
                return None;
            },
        };
        if bus == 0 {
            proof {
                lemma_earliest_fails_on(departure, buses@, i + 1);
            }
            return None;
        }
        let wait = bus - departure % bus;
        if i == 0 || wait < least {
            best = bus;
            least = wait;
        }
        i += 1;
    }
    assert(buses@.take(buses.len() as int) =~= buses@);
    best.checked_mul(least)
}

/// The product of the numbers of `buses`, if every product on the way fits.
pub open spec fn product_spec(buses: Seq<Option<usize>>) -> Option<nat>
    decreases buses.len(),
{
    if buses.len() == 0 {
        Some(1)
    } else {
        match (product_spec(buses.drop_last()), buses.last()) {
            (Some(product), Some(bus)) => if product * bus <= usize::MAX {
                Some((product * bus) as nat)
            } else {
                None
            },
            (Some(product), None) => Some(product),
            _ => None,
        }
    }
}

proof fn lemma_product_spec_fails_on(buses: Seq<Option<usize>>, k: int)
    requires
        0 <= k <= buses.len(),
        product_spec(buses.take(k)) is None,
    ensures
        product_spec(buses) is None,
    decreases buses.len(),
{
    if k == buses.len() {
        assert(buses.take(k) =~= buses);
    } else {
        assert(buses.drop_last().take(k) =~= buses.take(k));
        lemma_product_spec_fails_on(buses.drop_last(), k);
    }
}

/// What the bus `bus` at the place `offset` adds to the time looked for:
/// the time that it is to leave its multiples behind, times the product
/// `n` of all numbers without its own, times the inverse of that with
/// regard to its number. Nothing where the bus has the number zero, where
/// there is no inverse, or where a product does not fit.
pub open spec fn term_spec(offset: nat, bus: usize, n: nat) -> Option<nat> {
    if bus == 0 {
        None
    } else {
        let a = (bus - offset % (bus as nat)) as nat;
        let y = n / (bus as nat);
        match inverse_from(y, bus as nat, 1) {
            Some(z) => if a * y <= usize::MAX && a * y * z <= usize::MAX {
                Some(a * y * z)
            } else {
                None
            },
            None => None,
        }
    }
}

/// The sum of what the first `k` of `buses` add, if it fits.
pub open spec fn sum_spec(buses: Seq<Option<usize>>, n: nat, k: nat) -> Option<nat>
    decreases k,
{
    if k == 0 || k > buses.len() {
        Some(0)
    } else {
        match (sum_spec(buses, n, (k - 1) as nat), buses[k - 1]) {
            (Some(sum), Some(bus)) => match term_spec((k - 1) as nat, bus, n) {
                Some(term) => if sum + term <= usize::MAX {
                    Some(sum + term)
                } else {
                    None
                },
                None => None,
            },
            (Some(sum), None) => Some(sum),
            _ => None,
        }
    }
}

proof fn lemma_sum_spec_fails_on(buses: Seq<Option<usize>>, n: nat, k: nat, j: nat)
    requires
        j <= k <= buses.len(),
        sum_spec(buses, n, j) is None,
    ensures
        sum_spec(buses, n, k) is None,
    decreases k,
{
    if j < k {
        lemma_sum_spec_fails_on(buses, n, (k - 1) as nat, j);
    }
}

/// What [`star_two`] yields: the sum of what the buses add, reduced by the
/// product of their numbers. Nothing where `input` cannot be read, or where
/// a term or a product cannot be had.
pub open spec fn star_two_spec(input: Seq<char>) -> Option<usize> {
    match parse_spec(input, false) {
        Some((_, buses)) => match product_spec(buses) {
            Some(n) => match sum_spec(buses, n, buses.len()) {
                Some(sum) => if n > 0 {
                    Some((sum % n) as usize)
                } else {
                    None
                },
                None => None,
            },
            None => None,
        },
        None => None,
    }
}

/// What the bus `bus` at the place `offset` adds to the time looked for.
pub fn term(offset: usize, bus: usize, n: usize) -> (r: Option<usize>)
    ensures
        match r {
            Some(t) => term_spec(offset as nat, bus, n as nat) == Some(t as nat),
            None => term_spec(offset as nat, bus, n as nat) is None,
        },
{
    if bus == 0 {
        return None;
    }
    let a = bus - offset % bus;
    let y = n / bus;
    let z = match inverse(y, bus) {
        Some(z) => z,
        None => {
            return None;
        },
    };
    match a.checked_mul(y) {
        Some(ay) => ay.checked_mul(z),
        None => None,
    }
}

#[verifier::loop_isolation(false)]
pub fn star_two(input: &str) -> (r: Option<usize>)
    ensures
        r == star_two_spec(input@),
{
    let (_, buses) = match parse(input, false) {
        Some(found) => found,
        None => {
            return None;
        },
    };
    let mut n: usize = 1;
    let mut i: usize = 0;
    while i < buses.len()
        invariant
            i <= buses.len(),
            product_spec(buses@.take(i as int)) == Some(n as nat),
        decreases buses.len() - i,
    {
        proof {
            assert(buses@.take(i + 1).drop_last() =~= buses@.take(i as int));
            assert(buses@.take(i + 1).last() == buses@[i as int]);
        }
        match buses[i] {
            Some(bus) => {
                n = match n.checked_mul(bus) {
                    Some(n) => n,
                    None => {
                        proof {
                            lemma_product_spec_fails_on(buses@, i + 1);
                        }
                        return None;
                    },
                };
            },
            None => {},
        }
        i += 1;
    }
    assert(buses@.take(buses.len() as int) =~= buses@);
    let mut sum: usize = 0;
    let mut k: usize = 0;
    while k < buses.len()
        invariant
            k <= buses.len(),
            sum_spec(buses@, n as nat, k as nat) == Some(sum as nat),
        decreases buses.len() - k,
    {
        match buses[k] {
            Some(bus) => {
                let added = match term(k, bus, n) {
                    Some(added) => added,
                    None => {
                        proof {
                            lemma_sum_spec_fails_on(
                                buses@,
                                n as nat,
                                buses.len() as nat,
                                (k + 1) as nat,
                            );
                        }
                        return None;
                    },
                };
                sum = match sum.checked_add(added) {
                    Some(sum) => sum,
                    None => {
                        proof {
                            lemma_sum_spec_fails_on(
                                buses@,
                                n as nat,
                                buses.len() as nat,
                                (k + 1) as nat,
                            );
                        }
                        return None;
                    },
                };
            },
            None => {},
        }
        k += 1;
    }
    if n == 0 {
        None
    } else {
        Some(sum % n)
    }
}

} // verus!
