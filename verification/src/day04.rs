//! Passports: which of them hold all the fields that are asked for, and
//! which hold them with values that are allowed.

use vstd::prelude::*;
use crate::text::{
    chars_of, is_digit, is_digit_spec, is_text, join3, parse_usize, split, split_spec,
    split_text, split_text_spec, text_of, texts, trim, trim_spec, unsigned_spec, words,
    words_spec,
};

verus! {

/// A field of a passport: its key and its value.
pub type Field = (Seq<char>, Seq<char>);

/// The fields of a passport, in the order in which they stand. Where a key
/// stands more than once, the last one counts.
pub struct Props {
    pub fields: Vec<(Vec<char>, Vec<char>)>,
}

impl View for Props {
    type V = Seq<Field>;

    open spec fn view(&self) -> Seq<Field> {
        Seq::new(self.fields@.len(), |i: int| (self.fields@[i].0@, self.fields@[i].1@))
    }
}

/// The value that `fields` hold for `key`.
pub open spec fn lookup(fields: Seq<Field>, key: Seq<char>) -> Option<Seq<char>>
    decreases fields.len(),
{
    if fields.len() == 0 {
        None
    } else if fields.last().0 == key {
        Some(fields.last().1)
    } else {
        lookup(fields.drop_last(), key)
    }
}

/// The field that `word` states: what stands before its first `:` and what
/// stands between that and the next, both without white space at their
/// ends. Nothing where it holds no `:`.
pub open spec fn field_spec(word: Seq<char>) -> Option<Field> {
    let parts = split_spec(word, ':');
    if parts.len() >= 2 {
        Some((trim_spec(parts[0]), trim_spec(parts[1])))
    } else {
        None
    }
}

/// The fields that `words` state.
pub open spec fn fields_spec(words: Seq<Seq<char>>) -> Seq<Field>
    decreases words.len(),
{
    if words.len() == 0 {
        Seq::empty()
    } else {
        match field_spec(words.last()) {
            Some(field) => fields_spec(words.drop_last()).push(field),
            None => fields_spec(words.drop_last()),
        }
    }
}

/// The fields of the passport that `s` states.
pub open spec fn props_spec(s: Seq<char>) -> Seq<Field> {
    fields_spec(words_spec(s))
}

impl Props {
    /// Reads the fields of a passport.
    pub fn from_str(s: &Vec<char>) -> (props: Props)
        ensures
            props@ == props_spec(s@),
    {
        let found = words(s);
        let mut props = Props { fields: Vec::new() };
        let mut i: usize = 0;
        assert(props@ =~= Seq::<Field>::empty());
        while i < found.len()
            invariant
                i <= found.len(),
                props@ == fields_spec(texts(found@).take(i as int)),
            decreases found.len() - i,
        {
            proof {
                let upto = texts(found@).take(i + 1);
                assert(upto.drop_last() =~= texts(found@).take(i as int));
                assert(upto.last() == found[i as int]@);
            }
            let parts = split(&found[i], ':');
            if parts.len() >= 2 {
                assert(texts(parts@)[0] == parts@[0]@);
                assert(texts(parts@)[1] == parts@[1]@);
                let ghost before = props@;
                let key = trim(&parts[0]);
                let value = trim(&parts[1]);
                props.fields.push((key, value));
                assert(props@ =~= before.push((key@, value@)));
            }
            i += 1;
        }
        assert(texts(found@).take(found.len() as int) =~= texts(found@));
        props
    }

    /// The value of the field `key`.
    pub fn get(&self, key: &str) -> (value: Option<&Vec<char>>)
        ensures
            match value {
                Some(found) => lookup(self@, key@) == Some(found@),
                None => lookup(self@, key@) is None,
            },
    {
        let mut i: usize = self.fields.len();
        assert(self@.take(i as int) =~= self@);
        while i > 0
            invariant
                i <= self.fields.len(),
                lookup(self@, key@) == lookup(self@.take(i as int), key@),
            decreases i,
        {
            proof {
                assert(self@.take(i as int).drop_last() =~= self@.take(i - 1));
                assert(self@.take(i as int).last() == self@[i - 1]);
            }
            if is_text(&self.fields[i - 1].0, key) {
                return Some(&self.fields[i - 1].1);
            }
            i -= 1;
        }
        None
    }

    /// Whether there is a field `key`.
    pub fn contains_key(&self, key: &str) -> (found: bool)
        ensures
            found == lookup(self@, key@) is Some,
    {
        self.get(key).is_some()
    }
}

/// Whether `fields` hold all the fields that are asked for.
pub open spec fn has_required(fields: Seq<Field>) -> bool {
    &&& lookup(fields, "byr"@) is Some
    &&& lookup(fields, "iyr"@) is Some
    &&& lookup(fields, "eyr"@) is Some
    &&& lookup(fields, "hgt"@) is Some
    &&& lookup(fields, "hcl"@) is Some
    &&& lookup(fields, "ecl"@) is Some
    &&& lookup(fields, "pid"@) is Some
}

/// Whether `number` is there and stands for a number from `low` to `high`.
pub open spec fn number_valid_spec(number: Option<Seq<char>>, low: usize, high: usize) -> bool {
    match number {
        Some(text) => match unsigned_spec(text, usize::MAX as nat) {
            Some(n) => low <= n <= high,
            None => false,
        },
        None => false,
    }
}

pub fn number_valid(number: Option<&Vec<char>>, low: usize, high: usize) -> (valid: bool)
    ensures
        valid == number_valid_spec(
            match number {
                Some(text) => Some(text@),
                None => None,
            },
            low,
            high,
        ),
{
    match number {
        Some(text) => match parse_usize(text) {
            Some(n) => low <= n && n <= high,
            None => false,
        },
        None => false,
    }
}

/// Whether `text` ends with the two characters `a` and `b`.
pub open spec fn ends_with(text: Seq<char>, a: char, b: char) -> bool {
    text.len() >= 2 && text[text.len() - 2] == a && text[text.len() - 1] == b
}

/// Whether `height` is there and is a number from 150 to 193 followed by
/// `cm`, or a number from 59 to 76 followed by `in`.
pub open spec fn height_valid_spec(height: Option<Seq<char>>) -> bool {
    match height {
        Some(text) => if ends_with(text, 'c', 'm') {
            number_valid_spec(Some(text.take(text.len() - 2)), 150, 193)
        } else if ends_with(text, 'i', 'n') {
            number_valid_spec(Some(text.take(text.len() - 2)), 59, 76)
        } else {
            false
        },
        None => false,
    }
}

pub fn height_valid(height: Option<&Vec<char>>) -> (valid: bool)
    ensures
        valid == height_valid_spec(
            match height {
                Some(text) => Some(text@),
                None => None,
            },
        ),
{
    match height {
        Some(text) => {
            let n = text.len();
            if n < 2 {
                return false;
            }
            let mut number: Vec<char> = Vec::new();
            let mut i: usize = 0;
            while i < n - 2
                invariant
                    i <= n - 2,
                    n == text.len(),
                    number@ == text@.take(i as int),
                decreases n - 2 - i,
            {
                number.push(text[i]);
                assert(text@.take(i + 1) =~= text@.take(i as int).push(text@[i as int]));
                i += 1;
            }
            if text[n - 2] == 'c' && text[n - 1] == 'm' {
                number_valid(Some(&number), 150, 193)
            } else if text[n - 2] == 'i' && text[n - 1] == 'n' {
                number_valid(Some(&number), 59, 76)
            } else {
                false
            }
        },
        None => false,
    }
}

/// Whether `c` is a digit of base sixteen.
pub open spec fn is_hex_digit_spec(c: char) -> bool {
    is_digit_spec(c) || 'a' <= c <= 'f' || 'A' <= c <= 'F'
}

/// The number that the digit `c` of base sixteen stands for.
pub open spec fn hex_digit_value(c: char) -> nat {
    if is_digit_spec(c) {
        (c as u32 - '0' as u32) as nat
    } else if 'a' <= c <= 'f' {
        (c as u32 - 'a' as u32 + 10) as nat
    } else {
        (c as u32 - 'A' as u32 + 10) as nat
    }
}

/// The number that a run of digits stands for in base sixteen.
pub open spec fn hex_value(digits: Seq<char>) -> nat
    decreases digits.len(),
{
    if digits.len() == 0 {
        0
    } else {
        16 * hex_value(digits.drop_last()) + hex_digit_value(digits.last())
    }
}

/// A prefix of a run of digits stands for no more than the whole run.
pub proof fn lemma_hex_value_prefix(digits: Seq<char>, k: int)
    requires
        0 <= k <= digits.len(),
    ensures
        hex_value(digits.take(k)) <= hex_value(digits),
    decreases digits.len(),
{
    if k == digits.len() {
        assert(digits.take(k) =~= digits);
    } else {
        lemma_hex_value_prefix(digits.drop_last(), k);
        assert(digits.drop_last().take(k) =~= digits.take(k));
    }
}

/// Whether every character of `s` is a digit of base sixteen.
pub open spec fn all_hex_digits(s: Seq<char>) -> bool {
    forall|i: int| 0 <= i < s.len() ==> is_hex_digit_spec(#[trigger] s[i])
}

/// Whether `text` stands for a number of 32 bits in base sixteen: digits, at
/// least one, which a `+` may precede.
pub open spec fn is_hex_number(text: Seq<char>) -> bool {
    let digits = if text.len() > 0 && text[0] == '+' {
        text.skip(1)
    } else {
        text
    };
    &&& digits.len() > 0
    &&& all_hex_digits(digits)
    &&& hex_value(digits) <= u32::MAX
}

/// Whether `hcl` is there and is a `#` followed by a number of 32 bits in
/// base sixteen.
pub open spec fn hair_color_valid_spec(hcl: Option<Seq<char>>) -> bool {
    match hcl {
        Some(text) => text.len() > 0 && text[0] == '#' && is_hex_number(text.skip(1)),
        None => false,
    }
}

#[verifier::loop_isolation(false)]
pub fn hair_color_valid(hcl: Option<&Vec<char>>) -> (valid: bool)
    ensures
        valid == hair_color_valid_spec(
            match hcl {
                Some(text) => Some(text@),
                None => None,
            },
        ),
{
    let text = match hcl {
        Some(text) => text,
        None => {
            return false;
        },
    };
    if text.len() == 0 || text[0] != '#' {
        return false;
    }
    let from: usize = if text.len() > 1 && text[1] == '+' {
        2
    } else {
        1
    };
    let ghost digits = if text@.skip(1).len() > 0 && text@.skip(1)[0] == '+' {
        text@.skip(1).skip(1)
    } else {
        text@.skip(1)
    };
    assert(digits =~= text@.skip(from as int));
    if from == text.len() {
        return false;
    }
    let mut value: u64 = 0;
    let mut k: usize = from;
    while k < text.len()
        invariant
            from <= k <= text.len(),
            digits == text@.skip(from as int),
            forall|i: int| 0 <= i < k - from ==> is_hex_digit_spec(#[trigger] digits[i]),
            value == hex_value(digits.take(k - from)),
            value <= u32::MAX,
        decreases text.len() - k,
    {
        let c = text[k];
        let d: u64 = if is_digit(c) {
            (c as u32 - '0' as u32) as u64
        } else if 'a' <= c && c <= 'f' {
            (c as u32 - 'a' as u32 + 10) as u64
        } else if 'A' <= c && c <= 'F' {
            (c as u32 - 'A' as u32 + 10) as u64
        } else {
            assert(!is_hex_digit_spec(digits[k - from]));
            return false;
        };
        let next = value * 16 + d;
        proof {
            let longer = digits.take(k - from + 1);
            assert(longer.drop_last() =~= digits.take(k - from));
            assert(longer.last() == c);
        }
        if next > u32::MAX as u64 {
            proof {
                lemma_hex_value_prefix(digits, k - from + 1);
            }
            return false;
        }
        value = next;
        k += 1;
    }
    assert(digits.take(k - from) =~= digits);
    true
}

/// Whether `c` is a number of one of Unicode's kinds `Nd`, `Nl` and `No`:
/// what `char::is_numeric` says of it.
pub uninterp spec fn is_numeric_spec(c: char) -> bool;

/// `char::is_numeric`.
#[verifier::external_body]
fn is_numeric(c: char) -> (numeric: bool)
    ensures
        numeric == is_numeric_spec(c),
{
    c.is_numeric()
}

/// How many characters of `text` are numbers.
pub open spec fn count_numeric(text: Seq<char>) -> nat
    decreases text.len(),
{
    if text.len() == 0 {
        0
    } else if is_numeric_spec(text.last()) {
        count_numeric(text.drop_last()) + 1
    } else {
        count_numeric(text.drop_last())
    }
}

/// Whether `pid` is there and holds nine characters that are numbers, among
/// whatever else.
pub open spec fn pid_valid_spec(pid: Option<Seq<char>>) -> bool {
    match pid {
        Some(text) => count_numeric(text) == 9,
        None => false,
    }
}

pub fn pid_valid(pid: Option<&Vec<char>>) -> (valid: bool)
    ensures
        valid == pid_valid_spec(
            match pid {
                Some(text) => Some(text@),
                None => None,
            },
        ),
{
    match pid {
        Some(text) => {
            let mut n: usize = 0;
            let mut i: usize = 0;
            while i < text.len()
                invariant
                    i <= text.len(),
                    n <= i,
                    n == count_numeric(text@.take(i as int)),
                decreases text.len() - i,
            {
                proof {
                    assert(text@.take(i + 1).drop_last() =~= text@.take(i as int));
                    assert(text@.take(i + 1).last() == text@[i as int]);
                }
                if is_numeric(text[i]) {
                    n += 1;
                }
                i += 1;
            }
            assert(text@.take(text.len() as int) =~= text@);
            n == 9
        },
        None => false,
    }
}

/// Whether `ecl` is there and is one of the seven colours.
pub open spec fn ecl_valid_spec(ecl: Option<Seq<char>>) -> bool {
    match ecl {
        Some(text) => {
            ||| text == "amb"@
            ||| text == "blu"@
            ||| text == "brn"@
            ||| text == "gry"@
            ||| text == "grn"@
            ||| text == "hzl"@
            ||| text == "oth"@
        },
        None => false,
    }
}

pub fn ecl_valid(ecl: Option<&Vec<char>>) -> (valid: bool)
    ensures
        valid == ecl_valid_spec(
            match ecl {
                Some(text) => Some(text@),
                None => None,
            },
        ),
{
    match ecl {
        Some(text) => is_text(text, "amb") || is_text(text, "blu") || is_text(text, "brn")
            || is_text(text, "gry") || is_text(text, "grn") || is_text(text, "hzl") || is_text(
            text,
            "oth",
        ),
        None => false,
    }
}

/// Whether the values of `fields` are allowed: the years of birth, of issue
/// and of expiry in their ranges, and height, hair colour, eye colour and
/// number as their rules ask.
pub open spec fn fields_valid_spec(fields: Seq<Field>) -> bool {
    &&& number_valid_spec(lookup(fields, "byr"@), 1920, 2002)
    &&& number_valid_spec(lookup(fields, "iyr"@), 2010, 2020)
    &&& number_valid_spec(lookup(fields, "eyr"@), 2020, 2030)
    &&& height_valid_spec(lookup(fields, "hgt"@))
    &&& hair_color_valid_spec(lookup(fields, "hcl"@))
    &&& ecl_valid_spec(lookup(fields, "ecl"@))
    &&& pid_valid_spec(lookup(fields, "pid"@))
}

pub fn fields_valid(props: &Props) -> (valid: bool)
    ensures
        valid == fields_valid_spec(props@),
{
    let years = number_valid(props.get("byr"), 1920, 2002) && number_valid(
        props.get("iyr"),
        2010,
        2020,
    ) && number_valid(props.get("eyr"), 2020, 2030);
    let height = height_valid(props.get("hgt"));
    let hair = hair_color_valid(props.get("hcl"));
    let eyes = ecl_valid(props.get("ecl"));
    let number = pid_valid(props.get("pid"));
    years && height && hair && eyes && number
}

/// Accepts any fields.
pub fn any_fields(props: &Props) -> (valid: bool)
    ensures
        valid,
{
    true
}

/// A passport that holds all the fields that are asked for.
#[derive(Debug)]
pub struct Passport {
    pub byr: String,
    pub iyr: String,
    pub eyr: String,
    pub hgt: String,
    pub hcl: String,
    pub ecl: String,
    pub pid: String,
    pub cid: Option<String>,
}

impl Passport {
    /// Whether the passport holds what `fields` hold for its eight keys.
    pub open spec fn holds(&self, fields: Seq<Field>) -> bool {
        &&& lookup(fields, "byr"@) == Some(self.byr@)
        &&& lookup(fields, "iyr"@) == Some(self.iyr@)
        &&& lookup(fields, "eyr"@) == Some(self.eyr@)
        &&& lookup(fields, "hgt"@) == Some(self.hgt@)
        &&& lookup(fields, "hcl"@) == Some(self.hcl@)
        &&& lookup(fields, "ecl"@) == Some(self.ecl@)
        &&& lookup(fields, "pid"@) == Some(self.pid@)
        &&& match self.cid {
            Some(cid) => lookup(fields, "cid"@) == Some(cid@),
            None => lookup(fields, "cid"@) is None,
        }
    }

    /// The message for a text that states no valid passport.
    pub open spec fn failure(s: Seq<char>) -> Seq<char> {
        "Invalid passport `"@ + s + "`"@
    }

    /// Whether `validator` can say `valid` of fields that are `fields`.
    pub open spec fn judged<F: Fn(&Props) -> bool>(
        validator: F,
        fields: Seq<Field>,
        valid: bool,
    ) -> bool {
        exists|props: Props| props@ == fields && #[trigger] validator.ensures((&props,), valid)
    }

    /// Reads the passport that `s` states. It is valid where it holds all
    /// the fields that are asked for and `validator` accepts them.
    pub fn from_str<F: Fn(&Props) -> bool>(s: &str, validator: F) -> (r: Result<Passport, String>)
        requires
            forall|props: &Props| #[trigger] validator.requires((props,)),
        ensures
            match r {
                Ok(passport) => {
                    &&& has_required(props_spec(s@))
                    &&& Passport::judged(validator, props_spec(s@), true)
                    &&& passport.holds(props_spec(s@))
                },
                Err(message) => {
                    &&& !has_required(props_spec(s@)) || Passport::judged(
                        validator,
                        props_spec(s@),
                        false,
                    )
                    &&& message@ == Passport::failure(s@)
                },
            },
    {
        let props = Props::from_str(&chars_of(s));
        let found = (
            props.get("byr"),
            props.get("iyr"),
            props.get("eyr"),
            props.get("hgt"),
            props.get("hcl"),
            props.get("ecl"),
            props.get("pid"),
        );
        match found {
            (Some(byr), Some(iyr), Some(eyr), Some(hgt), Some(hcl), Some(ecl), Some(pid)) => {
                if validator(&props) {
                    Ok(
                        Passport {
                            byr: text_of(byr),
                            iyr: text_of(iyr),
                            eyr: text_of(eyr),
                            hgt: text_of(hgt),
                            hcl: text_of(hcl),
                            ecl: text_of(ecl),
                            pid: text_of(pid),
                            cid: match props.get("cid") {
                                Some(cid) => Some(text_of(cid)),
                                None => None,
                            },
                        },
                    )
                } else {
                    Err(join3("Invalid passport `", s, "`"))
                }
            },
            _ => Err(join3("Invalid passport `", s, "`")),
        }
    }
}

/// Which passports count.
#[derive(Debug, Clone, Copy)]
pub enum Check {
    /// Those that hold all the fields that are asked for.
    Present,
    /// Those that hold them with values that are allowed.
    Valid,
}

/// Whether the passport that `s` states counts.
pub open spec fn counts(check: Check, s: Seq<char>) -> bool {
    match check {
        Check::Present => has_required(props_spec(s)),
        Check::Valid => has_required(props_spec(s)) && fields_valid_spec(props_spec(s)),
    }
}

/// How many of `batches` hold more than white space and state a passport
/// that counts.
pub open spec fn count_passports(check: Check, batches: Seq<Seq<char>>) -> nat
    decreases batches.len(),
{
    if batches.len() == 0 {
        0
    } else if trim_spec(batches.last()).len() > 0 && counts(check, trim_spec(batches.last())) {
        count_passports(check, batches.drop_last()) + 1
    } else {
        count_passports(check, batches.drop_last())
    }
}

/// The text that stands between two passports: an empty line.
pub open spec fn empty_line() -> Seq<char> {
    seq!['\n', '\n']
}

/// How many passports of `input` count.
pub fn count_valid(check: Check, input: &str) -> (n: usize)
    ensures
        n == count_passports(check, split_text_spec(input@, empty_line())),
{
    let mut separator: Vec<char> = Vec::new();
    separator.push('\n');
    separator.push('\n');
    assert(separator@ =~= empty_line());
    let batches = split_text(&chars_of(input), &separator);
    let mut n: usize = 0;
    let mut i: usize = 0;
    while i < batches.len()
        invariant
            i <= batches.len(),
            n <= i,
            n == count_passports(check, texts(batches@).take(i as int)),
        decreases batches.len() - i,
    {
        proof {
            let upto = texts(batches@).take(i + 1);
            assert(upto.drop_last() =~= texts(batches@).take(i as int));
            assert(upto.last() == batches[i as int]@);
        }
        let batch = trim(&batches[i]);
        if batch.len() > 0 {
            let text = text_of(&batch);
            let valid = match check {
                Check::Present => Passport::from_str(text.as_str(), any_fields).is_ok(),
                Check::Valid => Passport::from_str(text.as_str(), fields_valid).is_ok(),
            };
            if valid {
                n += 1;
            }
        }
        i += 1;
    }
    assert(texts(batches@).take(batches.len() as int) =~= texts(batches@));
    n
}

/// How many passports hold all the fields that are asked for.
pub fn star_one(input: &str) -> (n: usize)
    ensures
        n == count_passports(Check::Present, split_text_spec(input@, empty_line())),
{
    count_valid(Check::Present, input)
}

/// How many passports hold all the fields that are asked for, with values
/// that are allowed.
pub fn star_two(input: &str) -> (n: usize)
    ensures
        n == count_passports(Check::Valid, split_text_spec(input@, empty_line())),
{
    count_valid(Check::Valid, input)
}

} // verus!
