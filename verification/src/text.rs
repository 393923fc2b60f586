//! Characters, lines and numbers: the groundwork shared by the solvers.

use vstd::prelude::*;

verus! {

/// Whether `c` is white space: the characters that Unicode gives the
/// property `White_Space`.
pub open spec fn is_whitespace_spec(c: char) -> bool {
    let n = c as u32;
    ||| 0x09 <= n <= 0x0d
    ||| n == 0x20
    ||| n == 0x85
    ||| n == 0xa0
    ||| n == 0x1680
    ||| 0x2000 <= n <= 0x200a
    ||| n == 0x2028
    ||| n == 0x2029
    ||| n == 0x202f
    ||| n == 0x205f
    ||| n == 0x3000
}

/// Whether `c` is one of the ten ASCII digits.
pub open spec fn is_digit_spec(c: char) -> bool {
    '0' <= c <= '9'
}

/// The number that the digit `c` stands for.
pub open spec fn digit_value_spec(c: char) -> nat
    recommends
        is_digit_spec(c),
{
    (c as u32 - '0' as u32) as nat
}

/// The number that a run of digits stands for in base ten; the empty run
/// stands for zero.
pub open spec fn decimal_value(digits: Seq<char>) -> nat
    decreases digits.len(),
{
    if digits.len() == 0 {
        0
    } else {
        10 * decimal_value(digits.drop_last()) + digit_value_spec(digits.last())
    }
}

/// Whether every character of `s` is a digit.
pub open spec fn all_digits(s: Seq<char>) -> bool {
    forall|i: int| 0 <= i < s.len() ==> is_digit_spec(#[trigger] s[i])
}

/// [`is_whitespace_spec`] as a value.
pub open spec fn whitespace() -> spec_fn(char) -> bool {
    |c: char| is_whitespace_spec(c)
}

/// [`is_digit_spec`] as a value.
pub open spec fn digit() -> spec_fn(char) -> bool {
    |c: char| is_digit_spec(c)
}

/// Where the run of characters that `keep` holds of, and that starts at `i`,
/// ends: the first position from `i` on whose character `keep` does not hold
/// of, or the end of `s`.
pub open spec fn run_end(s: Seq<char>, keep: spec_fn(char) -> bool, i: int) -> int
    decreases s.len() - i,
{
    if 0 <= i < s.len() && keep(s[i]) {
        run_end(s, keep, i + 1)
    } else {
        i
    }
}

/// The run that starts at `i` ends between `i` and the end of `s`; `keep`
/// holds of all of it, and not of the character that follows it.
pub proof fn lemma_run_end(s: Seq<char>, keep: spec_fn(char) -> bool, i: int)
    requires
        0 <= i <= s.len(),
    ensures
        i <= run_end(s, keep, i) <= s.len(),
        forall|k: int| i <= k < run_end(s, keep, i) ==> keep(#[trigger] s[k]),
        run_end(s, keep, i) < s.len() ==> !keep(s[run_end(s, keep, i)]),
    decreases s.len() - i,
{
    if i < s.len() && keep(s[i]) {
        lemma_run_end(s, keep, i + 1);
    }
}

/// A position that `keep` holds of everything before, and not of the
/// character at it, is where the run ends.
pub proof fn lemma_run_end_is(s: Seq<char>, keep: spec_fn(char) -> bool, i: int, end: int)
    requires
        0 <= i <= end <= s.len(),
        forall|k: int| i <= k < end ==> keep(#[trigger] s[k]),
        end < s.len() ==> !keep(s[end]),
    ensures
        run_end(s, keep, i) == end,
    decreases end - i,
{
    if i < end {
        lemma_run_end_is(s, keep, i + 1, end);
    }
}

/// A prefix of a run of digits stands for no more than the whole run.
pub proof fn lemma_decimal_value_prefix(digits: Seq<char>, k: int)
    requires
        0 <= k <= digits.len(),
    ensures
        decimal_value(digits.take(k)) <= decimal_value(digits),
    decreases digits.len(),
{
    if k == digits.len() {
        assert(digits.take(k) =~= digits);
    } else {
        lemma_decimal_value_prefix(digits.drop_last(), k);
        assert(digits.drop_last().take(k) =~= digits.take(k));
    }
}

pub fn is_whitespace(c: char) -> (b: bool)
    ensures
        b == is_whitespace_spec(c),
{
    let n: u32 = c as u32;
    (0x09 <= n && n <= 0x0d) || n == 0x20 || n == 0x85 || n == 0xa0 || n == 0x1680 || (0x2000 <= n
        && n <= 0x200a) || n == 0x2028 || n == 0x2029 || n == 0x202f || n == 0x205f || n == 0x3000
}

pub fn is_digit(c: char) -> (b: bool)
    ensures
        b == is_digit_spec(c),
{
    '0' <= c && c <= '9'
}

/// The value of a digit, as a machine number.
pub fn digit_value(c: char) -> (d: u8)
    requires
        is_digit_spec(c),
    ensures
        d == digit_value_spec(c),
        d <= 9,
{
    (c as u32 - '0' as u32) as u8
}

/// The characters of `s`, one by one.
pub fn chars_of(s: &str) -> (v: Vec<char>)
    ensures
        v@ == s@,
{
    let mut v: Vec<char> = Vec::new();
    for c in it: s.chars()
        invariant
            v@ == it.seq().take(it.index() as int),
            it.seq() == s@,
    {
        v.push(c);
    }
    v
}

/// `String::push`: the string gains `c` at its end.
#[verifier::external_body]
pub(crate) fn push_char(s: &mut String, c: char)
    ensures
        final(s)@ == old(s)@.push(c),
{
    s.push(c)
}

/// The string made of the characters of `v`.
pub fn text_of(v: &Vec<char>) -> (s: String)
    ensures
        s@ == v@,
{
    let mut s = String::new();
    let mut i: usize = 0;
    while i < v.len()
        invariant
            i <= v.len(),
            s@ == v@.take(i as int),
        decreases v.len() - i,
    {
        push_char(&mut s, v[i]);
        i += 1;
    }
    s
}

/// The three texts, one after the other.
pub fn join3(a: &str, b: &str, c: &str) -> (s: String)
    ensures
        s@ == a@ + b@ + c@,
{
    let mut s = String::from_str(a);
    s.append(b);
    s.append(c);
    s
}


/// Where the run of characters that `keep` holds of, and that ends before
/// `j`, starts.
pub open spec fn run_start(s: Seq<char>, keep: spec_fn(char) -> bool, j: int) -> int
    decreases j,
{
    if 0 < j <= s.len() && keep(s[j - 1]) {
        run_start(s, keep, j - 1)
    } else {
        j
    }
}

/// `s` without the white space at its two ends.
pub open spec fn trim_spec(s: Seq<char>) -> Seq<char> {
    let from = run_end(s, whitespace(), 0);
    let to = run_start(s, whitespace(), s.len() as int);
    if from < to {
        s.subrange(from, to)
    } else {
        Seq::empty()
    }
}

/// The pieces between the occurrences of `separator` from `i` on, the first
/// of them starting at `start`.
pub open spec fn split_from(s: Seq<char>, separator: char, start: int, i: int) -> Seq<Seq<char>>
    decreases s.len() - i,
{
    if i < 0 || i >= s.len() {
        seq![s.subrange(start, s.len() as int)]
    } else if s[i] == separator {
        seq![s.subrange(start, i)] + split_from(s, separator, i + 1, i + 1)
    } else {
        split_from(s, separator, start, i + 1)
    }
}

/// The pieces of `s` between the occurrences of `separator`: one more than
/// there are occurrences, empty pieces included.
pub open spec fn split_spec(s: Seq<char>, separator: char) -> Seq<Seq<char>> {
    split_from(s, separator, 0, 0)
}

/// The texts of `pieces` that hold more than white space, each without the
/// white space at its ends.
pub open spec fn trimmed_non_empty(pieces: Seq<Seq<char>>) -> Seq<Seq<char>>
    decreases pieces.len(),
{
    if pieces.len() == 0 {
        Seq::empty()
    } else {
        let before = trimmed_non_empty(pieces.drop_last());
        let piece = trim_spec(pieces.last());
        if piece.len() > 0 {
            before.push(piece)
        } else {
            before
        }
    }
}

/// The lines of `s` that hold more than white space, each without the white
/// space at its ends.
pub open spec fn lines_spec(s: Seq<char>) -> Seq<Seq<char>> {
    trimmed_non_empty(split_spec(s, '\n'))
}

/// `s` without its white space.
pub open spec fn without_whitespace(s: Seq<char>) -> Seq<char>
    decreases s.len(),
{
    if s.len() == 0 {
        Seq::empty()
    } else if is_whitespace_spec(s.last()) {
        without_whitespace(s.drop_last())
    } else {
        without_whitespace(s.drop_last()).push(s.last())
    }
}

/// The texts that `lines` holds.
pub open spec fn texts(lines: Seq<Vec<char>>) -> Seq<Seq<char>> {
    Seq::new(lines.len(), |i: int| lines[i]@)
}

/// The characters of `v` from `from` up to `to`.
pub fn slice(v: &Vec<char>, from: usize, to: usize) -> (piece: Vec<char>)
    requires
        from <= to <= v.len(),
    ensures
        piece@ == v@.subrange(from as int, to as int),
{
    let mut piece: Vec<char> = Vec::new();
    let mut i: usize = from;
    while i < to
        invariant
            from <= i <= to <= v.len(),
            piece@ == v@.subrange(from as int, i as int),
        decreases to - i,
    {
        piece.push(v[i]);
        assert(v@.subrange(from as int, i + 1) =~= v@.subrange(from as int, i as int).push(
            v@[i as int],
        ));
        i += 1;
    }
    piece
}

/// `v` without the white space at its two ends.
pub fn trim(v: &Vec<char>) -> (trimmed: Vec<char>)
    ensures
        trimmed@ == trim_spec(v@),
{
    let mut from: usize = 0;
    while from < v.len() && is_whitespace(v[from])
        invariant
            from <= v.len(),
            run_end(v@, whitespace(), 0) == run_end(v@, whitespace(), from as int),
        decreases v.len() - from,
    {
        from += 1;
    }
    let mut to: usize = v.len();
    while to > 0 && is_whitespace(v[to - 1])
        invariant
            to <= v.len(),
            run_start(v@, whitespace(), v.len() as int) == run_start(v@, whitespace(), to as int),
        decreases to,
    {
        to -= 1;
    }
    if from < to {
        slice(v, from, to)
    } else {
        Vec::new()
    }
}

/// The pieces of `v` between the occurrences of `separator`.
pub fn split(v: &Vec<char>, separator: char) -> (pieces: Vec<Vec<char>>)
    ensures
        texts(pieces@) == split_spec(v@, separator),
{
    let mut pieces: Vec<Vec<char>> = Vec::new();
    let mut start: usize = 0;
    let mut i: usize = 0;
    while i < v.len()
        invariant
            start <= i <= v.len(),
            split_spec(v@, separator) == texts(pieces@) + split_from(
                v@,
                separator,
                start as int,
                i as int,
            ),
        decreases v.len() - i,
    {
        if v[i] == separator {
            let piece = slice(v, start, i);
            let ghost before = texts(pieces@);
            pieces.push(piece);
            assert(texts(pieces@) =~= before.push(piece@));
            assert(before.push(piece@) + split_from(v@, separator, i + 1, i + 1) =~= before + (
            seq![piece@] + split_from(v@, separator, i + 1, i + 1)));
            start = i + 1;
        }
        i += 1;
    }
    let piece = slice(v, start, v.len());
    let ghost before = texts(pieces@);
    pieces.push(piece);
    assert(texts(pieces@) =~= before + seq![piece@]);
    pieces
}

/// The lines of `input` that hold more than white space, each without the
/// white space at its ends.
pub fn lines(input: &str) -> (found: Vec<Vec<char>>)
    ensures
        texts(found@) == lines_spec(input@),
{
    let text = chars_of(input);
    let pieces = split(&text, '\n');
    let mut found: Vec<Vec<char>> = Vec::new();
    let mut i: usize = 0;
    while i < pieces.len()
        invariant
            i <= pieces.len(),
            texts(found@) == trimmed_non_empty(texts(pieces@).take(i as int)),
        decreases pieces.len() - i,
    {
        let piece = trim(&pieces[i]);
        proof {
            let upto = texts(pieces@).take(i + 1);
            assert(upto.drop_last() =~= texts(pieces@).take(i as int));
            assert(upto.last() == pieces[i as int]@);
        }
        if piece.len() > 0 {
            let ghost before = texts(found@);
            found.push(piece);
            assert(texts(found@) =~= before.push(piece@));
        }
        i += 1;
    }
    assert(texts(pieces@).take(pieces.len() as int) =~= texts(pieces@));
    found
}

/// `v` without its white space.
pub fn strip_whitespace(v: &Vec<char>) -> (stripped: Vec<char>)
    ensures
        stripped@ == without_whitespace(v@),
{
    let mut stripped: Vec<char> = Vec::new();
    let mut i: usize = 0;
    while i < v.len()
        invariant
            i <= v.len(),
            stripped@ == without_whitespace(v@.take(i as int)),
        decreases v.len() - i,
    {
        proof {
            assert(v@.take(i + 1).drop_last() =~= v@.take(i as int));
            assert(v@.take(i + 1).last() == v@[i as int]);
        }
        if !is_whitespace(v[i]) {
            stripped.push(v[i]);
        }
        i += 1;
    }
    assert(v@.take(v.len() as int) =~= v@);
    stripped
}


/// The number that `s` stands for: a run of digits, which a `+` may
/// precede, and which stands for no more than `largest`.
pub open spec fn unsigned_spec(s: Seq<char>, largest: nat) -> Option<nat> {
    let digits = if s.len() > 0 && s[0] == '+' {
        s.skip(1)
    } else {
        s
    };
    if digits.len() > 0 && all_digits(digits) && decimal_value(digits) <= largest {
        Some(decimal_value(digits))
    } else {
        None
    }
}

/// The number that `s` stands for: a run of digits, which a `+` or a `-` may
/// precede, and which stands for a number from `least` to `largest`.
pub open spec fn signed_spec(s: Seq<char>, least: int, largest: int) -> Option<int> {
    let negative = s.len() > 0 && s[0] == '-';
    let digits = if s.len() > 0 && (s[0] == '+' || s[0] == '-') {
        s.skip(1)
    } else {
        s
    };
    let value = if negative {
        -(decimal_value(digits) as int)
    } else {
        decimal_value(digits) as int
    };
    if digits.len() > 0 && all_digits(digits) && least <= value <= largest {
        Some(value)
    } else {
        None
    }
}

/// The number that the characters of `v` from `from` on stand for, if they
/// are digits, at least one, and stand for no more than `limit`.
pub fn parse_digits(v: &Vec<char>, from: usize, limit: u64) -> (r: Option<u64>)
    requires
        from <= v.len(),
    ensures
        r == (if v@.skip(from as int).len() > 0 && all_digits(v@.skip(from as int))
            && decimal_value(v@.skip(from as int)) <= limit {
            Some(decimal_value(v@.skip(from as int)) as u64)
        } else {
            None
        }),
{
    let ghost digits = v@.skip(from as int);
    if from == v.len() {
        return None;
    }
    let mut n: u64 = 0;
    let mut k: usize = from;
    while k < v.len()
        invariant
            from <= k <= v.len(),
            digits == v@.skip(from as int),
            all_digits(digits.take(k - from)),
            n == decimal_value(digits.take(k - from)),
            n <= limit,
        decreases v.len() - k,
    {
        if !is_digit(v[k]) {
            assert(!is_digit_spec(digits[k - from]));
            return None;
        }
        let d = digit_value(v[k]);
        let next: u128 = n as u128 * 10 + d as u128;
        proof {
            let longer = digits.take(k - from + 1);
            assert(longer.drop_last() =~= digits.take(k - from));
            assert(longer.last() == v@[k as int]);
            assert(next == decimal_value(longer));
            assert forall|i: int| 0 <= i < longer.len() implies is_digit_spec(
                #[trigger] longer[i],
            ) by {
                if i < k - from {
                    assert(longer[i] == digits.take(k - from)[i]);
                }
            }
        }
        if next > limit as u128 {
            proof {
                lemma_decimal_value_prefix(digits, k - from + 1);
            }
            return None;
        }
        n = next as u64;
        k += 1;
    }
    assert(digits.take(k - from) =~= digits);
    Some(n)
}

/// Reads `v` as a number without sign.
pub fn parse_usize(v: &Vec<char>) -> (r: Option<usize>)
    ensures
        r matches Some(n) ==> unsigned_spec(v@, usize::MAX as nat) == Some(n as nat),
        r is None ==> unsigned_spec(v@, usize::MAX as nat) is None,
{
    let from: usize = if v.len() > 0 && v[0] == '+' {
        1
    } else {
        0
    };
    assert(v@.skip(0) =~= v@);
    match parse_digits(v, from, usize::MAX as u64) {
        Some(n) => Some(n as usize),
        None => None,
    }
}

/// Reads `v` as a number with or without sign.
pub fn parse_isize(v: &Vec<char>) -> (r: Option<isize>)
    ensures
        r matches Some(n) ==> signed_spec(v@, isize::MIN as int, isize::MAX as int) == Some(
            n as int,
        ),
        r is None ==> signed_spec(v@, isize::MIN as int, isize::MAX as int) is None,
{
    assert(v@.skip(0) =~= v@);
    if v.len() > 0 && v[0] == '-' {
        match parse_digits(v, 1, isize::MAX as u64 + 1) {
            Some(n) => {
                if n == isize::MAX as u64 + 1 {
                    Some(isize::MIN)
                } else {
                    Some(-(n as isize))
                }
            },
            None => None,
        }
    } else {
        let from: usize = if v.len() > 0 && v[0] == '+' {
            1
        } else {
            0
        };
        match parse_digits(v, from, isize::MAX as u64) {
            Some(n) => Some(n as isize),
            None => None,
        }
    }
}

/// The numbers that the lines of `input` hold, one on each line that holds
/// more than white space; nothing if one of these lines is not a number.
pub open spec fn numbers_spec(lines: Seq<Seq<char>>) -> Option<Seq<usize>>
    decreases lines.len(),
{
    if lines.len() == 0 {
        Some(Seq::empty())
    } else {
        match (
            numbers_spec(lines.drop_last()),
            unsigned_spec(lines.last(), usize::MAX as nat),
        ) {
            (Some(before), Some(n)) => Some(before.push(n as usize)),
            _ => None,
        }
    }
}

/// Reads each of `lines` as a number without sign.
pub fn numbers(lines: &Vec<Vec<char>>) -> (r: Option<Vec<usize>>)
    ensures
        r matches Some(found) ==> numbers_spec(texts(lines@)) == Some(found@),
        r is None ==> numbers_spec(texts(lines@)) is None,
{
    let mut found: Vec<usize> = Vec::new();
    let mut i: usize = 0;
    while i < lines.len()
        invariant
            i <= lines.len(),
            numbers_spec(texts(lines@).take(i as int)) == Some(found@),
        decreases lines.len() - i,
    {
        proof {
            let upto = texts(lines@).take(i + 1);
            assert(upto.drop_last() =~= texts(lines@).take(i as int));
            assert(upto.last() == lines[i as int]@);
        }
        match parse_usize(&lines[i]) {
            Some(n) => {
                found.push(n);
            },
            None => {
                proof {
                    lemma_numbers_spec_fails_on(texts(lines@), i + 1);
                }
                return None;
            },
        }
        i += 1;
    }
    assert(texts(lines@).take(lines.len() as int) =~= texts(lines@));
    Some(found)
}

/// Lines of which the first `k` hold something that is no number hold
/// something that is no number.
pub proof fn lemma_numbers_spec_fails_on(lines: Seq<Seq<char>>, k: int)
    requires
        0 <= k <= lines.len(),
        numbers_spec(lines.take(k)) is None,
    ensures
        numbers_spec(lines) is None,
    decreases lines.len(),
{
    if k == lines.len() {
        assert(lines.take(k) =~= lines);
    } else {
        assert(lines.drop_last().take(k) =~= lines.take(k));
        lemma_numbers_spec_fails_on(lines.drop_last(), k);
    }
}


/// The negation of [`is_whitespace_spec`] as a value.
pub open spec fn non_whitespace() -> spec_fn(char) -> bool {
    |c: char| !is_whitespace_spec(c)
}

/// The words of `s` from `i` on: the longest runs of characters that are no
/// white space.
pub open spec fn words_from(s: Seq<char>, i: int) -> Seq<Seq<char>>
    decreases s.len() - i,
{
    let start = run_end(s, whitespace(), i);
    let end = run_end(s, non_whitespace(), start);
    if 0 <= i <= start < end <= s.len() {
        seq![s.subrange(start, end)] + words_from(s, end)
    } else {
        Seq::empty()
    }
}

/// The words of `s`: the longest runs of characters that are no white space.
pub open spec fn words_spec(s: Seq<char>) -> Seq<Seq<char>> {
    words_from(s, 0)
}

/// How often `c` stands in `s`.
pub open spec fn occurrences(s: Seq<char>, c: char) -> nat
    decreases s.len(),
{
    if s.len() == 0 {
        0
    } else if s.last() == c {
        occurrences(s.drop_last(), c) + 1
    } else {
        occurrences(s.drop_last(), c)
    }
}

/// A character stands in a text no more often than the text is long.
pub proof fn lemma_occurrences_bound(s: Seq<char>, c: char)
    ensures
        occurrences(s, c) <= s.len(),
    decreases s.len(),
{
    if s.len() > 0 {
        lemma_occurrences_bound(s.drop_last(), c);
    }
}

/// How often `c` stands in `v`.
pub fn count(v: &Vec<char>, c: char) -> (n: usize)
    ensures
        n == occurrences(v@, c),
{
    let mut n: usize = 0;
    let mut i: usize = 0;
    while i < v.len()
        invariant
            i <= v.len(),
            n == occurrences(v@.take(i as int), c),
            n <= i,
        decreases v.len() - i,
    {
        proof {
            assert(v@.take(i + 1).drop_last() =~= v@.take(i as int));
            assert(v@.take(i + 1).last() == v@[i as int]);
        }
        if v[i] == c {
            n += 1;
        }
        i += 1;
    }
    assert(v@.take(v.len() as int) =~= v@);
    n
}

/// The words of `v`.
pub fn words(v: &Vec<char>) -> (found: Vec<Vec<char>>)
    ensures
        texts(found@) == words_spec(v@),
{
    let mut found: Vec<Vec<char>> = Vec::new();
    let mut i: usize = 0;
    loop
        invariant
            i <= v.len(),
            words_spec(v@) == texts(found@) + words_from(v@, i as int),
        decreases v.len() - i,
    {
        let mut start: usize = i;
        while start < v.len() && is_whitespace(v[start])
            invariant
                i <= start <= v.len(),
                run_end(v@, whitespace(), i as int) == run_end(v@, whitespace(), start as int),
            decreases v.len() - start,
        {
            start += 1;
        }
        if start == v.len() {
            assert(texts(found@) + Seq::<Seq<char>>::empty() =~= texts(found@));
            return found;
        }
        let mut end: usize = start + 1;
        while end < v.len() && !is_whitespace(v[end])
            invariant
                start < end <= v.len(),
                run_end(v@, non_whitespace(), start as int) == run_end(
                    v@,
                    non_whitespace(),
                    end as int,
                ),
            decreases v.len() - end,
        {
            end += 1;
        }
        let word = slice(v, start, end);
        let ghost before = texts(found@);
        found.push(word);
        proof {
            assert(texts(found@) =~= before.push(word@));
            assert(before.push(word@) + words_from(v@, end as int) =~= before + (seq![word@]
                + words_from(v@, end as int)));
        }
        i = end;
    }
}


/// What `f` makes of each of `lines`, in order; nothing where it makes
/// nothing of one of them.
pub open spec fn parse_all_spec<V>(
    lines: Seq<Seq<char>>,
    f: spec_fn(Seq<char>) -> Option<V>,
) -> Option<Seq<V>>
    decreases lines.len(),
{
    if lines.len() == 0 {
        Some(Seq::empty())
    } else {
        match (parse_all_spec(lines.drop_last(), f), f(lines.last())) {
            (Some(before), Some(v)) => Some(before.push(v)),
            _ => None,
        }
    }
}

/// Where `f` makes nothing of one of the first `k` lines, it makes nothing of
/// the lines.
pub proof fn lemma_parse_all_fails_on<V>(
    lines: Seq<Seq<char>>,
    f: spec_fn(Seq<char>) -> Option<V>,
    k: int,
)
    requires
        0 <= k <= lines.len(),
        parse_all_spec(lines.take(k), f) is None,
    ensures
        parse_all_spec(lines, f) is None,
    decreases lines.len(),
{
    if k == lines.len() {
        assert(lines.take(k) =~= lines);
    } else {
        assert(lines.drop_last().take(k) =~= lines.take(k));
        lemma_parse_all_fails_on(lines.drop_last(), f, k);
    }
}

/// What is made of all the lines holds something for each line, in order.
pub proof fn lemma_parse_all_each<V>(lines: Seq<Seq<char>>, f: spec_fn(Seq<char>) -> Option<V>)
    ensures
        parse_all_spec(lines, f) matches Some(items) ==> {
            &&& items.len() == lines.len()
            &&& forall|i: int| 0 <= i < lines.len() ==> f(lines[i]) == Some(#[trigger] items[i])
        },
    decreases lines.len(),
{
    if lines.len() > 0 {
        lemma_parse_all_each(lines.drop_last(), f);
    }
}

/// Applies `parse` to each of `lines` and gathers what it yields; nothing
/// where it yields nothing for one of them. `f` says what `parse` yields, as
/// seen through `view`.
pub fn parse_all<T, V, F>(
    lines: &Vec<Vec<char>>,
    parse: F,
    Ghost(f): Ghost<spec_fn(Seq<char>) -> Option<V>>,
    Ghost(view): Ghost<spec_fn(T) -> V>,
) -> (r: Option<Vec<T>>) where F: Fn(&Vec<char>) -> Option<T>
    requires
        forall|line: &Vec<char>| #[trigger] parse.requires((line,)),
        forall|line: &Vec<char>, item: Option<T>| #[trigger]
            parse.ensures((line,), item) ==> (match item {
                Some(t) => f(line@) == Some(view(t)),
                None => f(line@) is None,
            }),
    ensures
        match r {
            Some(items) => parse_all_spec(texts(lines@), f) == Some(items@.map_values(view)),
            None => parse_all_spec(texts(lines@), f) is None,
        },
{
    let mut items: Vec<T> = Vec::new();
    let mut i: usize = 0;
    while i < lines.len()
        invariant
            i <= lines.len(),
            forall|line: &Vec<char>| #[trigger] parse.requires((line,)),
            forall|line: &Vec<char>, item: Option<T>| #[trigger]
                parse.ensures((line,), item) ==> (match item {
                    Some(t) => f(line@) == Some(view(t)),
                    None => f(line@) is None,
                }),
            parse_all_spec(texts(lines@).take(i as int), f) == Some(items@.map_values(view)),
        decreases lines.len() - i,
    {
        proof {
            let upto = texts(lines@).take(i + 1);
            assert(upto.drop_last() =~= texts(lines@).take(i as int));
            assert(upto.last() == lines[i as int]@);
        }
        match parse(&lines[i]) {
            Some(item) => {
                let ghost before = items@.map_values(view);
                items.push(item);
                assert(items@.map_values(view) =~= before.push(view(item)));
            },
            None => {
                proof {
                    lemma_parse_all_fails_on(texts(lines@), f, i + 1);
                }
                return None;
            },
        }
        i += 1;
    }
    assert(texts(lines@).take(lines.len() as int) =~= texts(lines@));
    Some(items)
}


/// Whether `x` is one of `numbers`.
pub fn contains(numbers: &Vec<usize>, x: usize) -> (found: bool)
    ensures
        found == numbers@.contains(x),
{
    let mut i: usize = 0;
    while i < numbers.len()
        invariant
            i <= numbers.len(),
            forall|k: int| 0 <= k < i ==> numbers@[k] != x,
        decreases numbers.len() - i,
    {
        if numbers[i] == x {
            return true;
        }
        i += 1;
    }
    false
}

/// Whether `c` is one of `chars`.
pub fn contains_char(chars: &Vec<char>, c: char) -> (found: bool)
    ensures
        found == chars@.contains(c),
{
    let mut i: usize = 0;
    while i < chars.len()
        invariant
            i <= chars.len(),
            forall|k: int| 0 <= k < i ==> chars@[k] != c,
        decreases chars.len() - i,
    {
        if chars[i] == c {
            return true;
        }
        i += 1;
    }
    false
}

/// Whether `pattern` stands in `s` at `i`.
pub open spec fn matches_at(s: Seq<char>, pattern: Seq<char>, i: int) -> bool {
    0 <= i && i + pattern.len() <= s.len() && s.subrange(i, i + pattern.len()) == pattern
}

/// The pieces between the occurrences of `pattern` from `i` on, the first of
/// them starting at `start`. Occurrences are looked for from left to right
/// and do not overlap.
pub open spec fn split_text_from(s: Seq<char>, pattern: Seq<char>, start: int, i: int) -> Seq<
    Seq<char>,
>
    decreases s.len() - i,
{
    if i < 0 || pattern.len() == 0 || i + pattern.len() > s.len() {
        seq![s.subrange(start, s.len() as int)]
    } else if matches_at(s, pattern, i) {
        seq![s.subrange(start, i)] + split_text_from(
            s,
            pattern,
            i + pattern.len(),
            i + pattern.len(),
        )
    } else {
        split_text_from(s, pattern, start, i + 1)
    }
}

/// The pieces of `s` between the occurrences of `pattern`.
pub open spec fn split_text_spec(s: Seq<char>, pattern: Seq<char>) -> Seq<Seq<char>> {
    split_text_from(s, pattern, 0, 0)
}

/// Whether `pattern` stands in `v` at `i`.
pub fn found_at(v: &Vec<char>, pattern: &Vec<char>, i: usize) -> (found: bool)
    requires
        i + pattern.len() <= v.len(),
    ensures
        found == matches_at(v@, pattern@, i as int),
{
    let mut k: usize = 0;
    while k < pattern.len()
        invariant
            k <= pattern.len(),
            i + pattern.len() <= v.len(),
            forall|j: int| 0 <= j < k ==> v@[i + j] == pattern@[j],
        decreases pattern.len() - k,
    {
        if v[i + k] != pattern[k] {
            assert(v@.subrange(i as int, i + pattern.len())[k as int] != pattern@[k as int]);
            return false;
        }
        k += 1;
    }
    assert(v@.subrange(i as int, i + pattern.len()) =~= pattern@);
    true
}

/// The pieces of `v` between the occurrences of `pattern`, which has to hold
/// a character.
pub fn split_text(v: &Vec<char>, pattern: &Vec<char>) -> (pieces: Vec<Vec<char>>)
    requires
        pattern.len() > 0,
    ensures
        texts(pieces@) == split_text_spec(v@, pattern@),
{
    let mut pieces: Vec<Vec<char>> = Vec::new();
    let mut start: usize = 0;
    let mut i: usize = 0;
    while pattern.len() <= v.len() && i <= v.len() - pattern.len()
        invariant
            start <= i <= v.len(),
            pattern.len() > 0,
            split_text_spec(v@, pattern@) == texts(pieces@) + split_text_from(
                v@,
                pattern@,
                start as int,
                i as int,
            ),
        decreases v.len() - i,
    {
        if found_at(v, pattern, i) {
            let piece = slice(v, start, i);
            let ghost before = texts(pieces@);
            pieces.push(piece);
            i = i + pattern.len();
            start = i;
            proof {
                assert(texts(pieces@) =~= before.push(piece@));
                assert(before.push(piece@) + split_text_from(v@, pattern@, i as int, i as int)
                    =~= before + (seq![piece@] + split_text_from(
                    v@,
                    pattern@,
                    i as int,
                    i as int,
                )));
            }
        } else {
            i += 1;
        }
    }
    let piece = slice(v, start, v.len());
    let ghost before = texts(pieces@);
    pieces.push(piece);
    assert(texts(pieces@) =~= before + seq![piece@]);
    pieces
}

/// `s` without the carriage return at its end, if it has one there.
pub open spec fn without_return(s: Seq<char>) -> Seq<char> {
    if s.len() > 0 && s.last() == '\r' {
        s.drop_last()
    } else {
        s
    }
}

/// The lines of `s`: the pieces that the line feeds end, each without the
/// carriage return before its line feed, and after them what follows the
/// last line feed, if anything does.
pub open spec fn plain_lines_spec(s: Seq<char>) -> Seq<Seq<char>> {
    let pieces = split_spec(s, '\n');
    let ended = pieces.drop_last().map_values(|piece: Seq<char>| without_return(piece));
    if pieces.last().len() > 0 {
        ended.push(pieces.last())
    } else {
        ended
    }
}

/// [`split_spec`] yields at least one piece.
pub proof fn lemma_split_from_non_empty(s: Seq<char>, separator: char, start: int, i: int)
    ensures
        split_from(s, separator, start, i).len() > 0,
    decreases s.len() - i,
{
    if 0 <= i < s.len() && s[i] != separator {
        lemma_split_from_non_empty(s, separator, start, i + 1);
    }
}

/// The lines of `v`, as they stand.
pub fn plain_lines(v: &Vec<char>) -> (found: Vec<Vec<char>>)
    ensures
        texts(found@) == plain_lines_spec(v@),
{
    let pieces = split(v, '\n');
    proof {
        lemma_split_from_non_empty(v@, '\n', 0, 0);
    }
    let mut found: Vec<Vec<char>> = Vec::new();
    let mut i: usize = 0;
    let ghost ended = texts(pieces@).drop_last().map_values(
        |piece: Seq<char>| without_return(piece),
    );
    while i + 1 < pieces.len()
        invariant
            i + 1 <= pieces.len(),
            pieces.len() > 0,
            ended == texts(pieces@).drop_last().map_values(
                |piece: Seq<char>| without_return(piece),
            ),
            texts(found@) == ended.take(i as int),
        decreases pieces.len() - i,
    {
        let piece = &pieces[i];
        let line = if piece.len() > 0 && piece[piece.len() - 1] == '\r' {
            slice(piece, 0, piece.len() - 1)
        } else {
            slice(piece, 0, piece.len())
        };
        proof {
            assert(piece@.subrange(0, piece.len() as int) =~= piece@);
            assert(piece@.subrange(0, piece.len() - 1) =~= piece@.drop_last());
            assert(line@ == without_return(piece@));
            assert(ended[i as int] == without_return(texts(pieces@).drop_last()[i as int]));
        }
        let ghost before = texts(found@);
        found.push(line);
        assert(texts(found@) =~= before.push(line@));
        assert(ended.take(i + 1) =~= ended.take(i as int).push(ended[i as int]));
        i += 1;
    }
    assert(ended.take(i as int) =~= ended);
    let last = &pieces[pieces.len() - 1];
    if last.len() > 0 {
        let line = slice(last, 0, last.len());
        assert(line@ =~= last@);
        let ghost before = texts(found@);
        found.push(line);
        assert(texts(found@) =~= before.push(line@));
    }
    found
}


/// Whether the two texts are the same.
pub fn same(a: &Vec<char>, b: &Vec<char>) -> (equal: bool)
    ensures
        equal == (a@ == b@),
{
    if a.len() != b.len() {
        return false;
    }
    let mut i: usize = 0;
    while i < a.len()
        invariant
            i <= a.len(),
            a.len() == b.len(),
            forall|k: int| 0 <= k < i ==> a@[k] == b@[k],
        decreases a.len() - i,
    {
        if a[i] != b[i] {
            return false;
        }
        i += 1;
    }
    assert(a@ =~= b@);
    true
}

/// Whether `v` holds the text `s`.
pub fn is_text(v: &Vec<char>, s: &str) -> (equal: bool)
    ensures
        equal == (v@ == s@),
{
    same(v, &chars_of(s))
}


/// The sum of `values`.
pub open spec fn sum_of(values: Seq<usize>) -> nat
    decreases values.len(),
{
    if values.len() == 0 {
        0
    } else {
        sum_of(values.drop_last()) + values.last() as nat
    }
}

/// The first values add up to no more than all of them.
pub proof fn lemma_sum_of_prefix(values: Seq<usize>, k: int)
    requires
        0 <= k <= values.len(),
    ensures
        sum_of(values.take(k)) <= sum_of(values),
    decreases values.len(),
{
    if k == values.len() {
        assert(values.take(k) =~= values);
    } else {
        lemma_sum_of_prefix(values.drop_last(), k);
        assert(values.drop_last().take(k) =~= values.take(k));
    }
}

/// The sum of `values`, if it fits.
pub fn sum(values: &Vec<usize>) -> (r: Option<usize>)
    ensures
        match r {
            Some(total) => total == sum_of(values@),
            None => sum_of(values@) > usize::MAX,
        },
{
    let mut total: usize = 0;
    let mut i: usize = 0;
    while i < values.len()
        invariant
            i <= values.len(),
            total == sum_of(values@.take(i as int)),
        decreases values.len() - i,
    {
        proof {
            assert(values@.take(i + 1).drop_last() =~= values@.take(i as int));
            assert(values@.take(i + 1).last() == values@[i as int]);
            lemma_sum_of_prefix(values@, i + 1);
        }
        total = match total.checked_add(values[i]) {
            Some(total) => total,
            None => {
                return None;
            },
        };
        i += 1;
    }
    assert(values@.take(values.len() as int) =~= values@);
    Some(total)
}

/// The product of `values`, if every product on the way fits.
pub open spec fn product_of(values: Seq<usize>) -> Option<nat>
    decreases values.len(),
{
    if values.len() == 0 {
        Some(1)
    } else {
        match product_of(values.drop_last()) {
            Some(product) => if product * values.last() <= usize::MAX {
                Some((product * values.last()) as nat)
            } else {
                None
            },
            None => None,
        }
    }
}

/// Where the product of the first values does not fit, the product of all of
/// them does not.
pub proof fn lemma_product_of_fails_on(values: Seq<usize>, k: int)
    requires
        0 <= k <= values.len(),
        product_of(values.take(k)) is None,
    ensures
        product_of(values) is None,
    decreases values.len(),
{
    if k == values.len() {
        assert(values.take(k) =~= values);
    } else {
        assert(values.drop_last().take(k) =~= values.take(k));
        lemma_product_of_fails_on(values.drop_last(), k);
    }
}

/// The product of `values`, if every product on the way fits.
pub fn product(values: &Vec<usize>) -> (r: Option<usize>)
    ensures
        match r {
            Some(total) => product_of(values@) == Some(total as nat),
            None => product_of(values@) is None,
        },
{
    let mut total: usize = 1;
    let mut i: usize = 0;
    while i < values.len()
        invariant
            i <= values.len(),
            product_of(values@.take(i as int)) == Some(total as nat),
        decreases values.len() - i,
    {
        proof {
            assert(values@.take(i + 1).drop_last() =~= values@.take(i as int));
            assert(values@.take(i + 1).last() == values@[i as int]);
        }
        total = match total.checked_mul(values[i]) {
            Some(total) => total,
            None => {
                proof {
                    lemma_product_of_fails_on(values@, i + 1);
                }
                return None;
            },
        };
        i += 1;
    }
    assert(values@.take(values.len() as int) =~= values@);
    Some(total)
}


/// How many of `visited` are not set.
pub open spec fn unvisited(visited: Seq<bool>) -> nat
    decreases visited.len(),
{
    if visited.len() == 0 {
        0
    } else if visited.last() {
        unvisited(visited.drop_last())
    } else {
        unvisited(visited.drop_last()) + 1
    }
}

/// To set one more leaves one less unset.
pub proof fn lemma_unvisited_update(visited: Seq<bool>, i: int)
    requires
        0 <= i < visited.len(),
        !visited[i],
    ensures
        unvisited(visited.update(i, true)) + 1 == unvisited(visited),
    decreases visited.len(),
{
    if i == visited.len() - 1 {
        assert(visited.update(i, true).drop_last() =~= visited.drop_last());
    } else {
        lemma_unvisited_update(visited.drop_last(), i);
        assert(visited.update(i, true).drop_last() =~= visited.drop_last().update(i, true));
    }
}



/// Where all are set none is unset.
pub proof fn lemma_unvisited_all_set(visited: Seq<bool>)
    requires
        forall|i: int| 0 <= i < visited.len() ==> visited[i],
    ensures
        unvisited(visited) == 0,
    decreases visited.len(),
{
    if visited.len() > 0 {
        lemma_unvisited_all_set(visited.drop_last());
    }
}

/// Where none is unset all are set.
pub proof fn lemma_unvisited_none_left(visited: Seq<bool>)
    requires
        unvisited(visited) == 0,
    ensures
        forall|i: int| 0 <= i < visited.len() ==> visited[i],
    decreases visited.len(),
{
    if visited.len() > 0 {
        lemma_unvisited_none_left(visited.drop_last());
        assert forall|i: int| 0 <= i < visited.len() implies visited[i] by {
            if i < visited.len() - 1 {
                assert(visited.drop_last()[i]);
            }
        }
    }
}

/// Where none is set all are unset.
pub proof fn lemma_unvisited_none_set(n: nat)
    ensures
        unvisited(Seq::new(n, |i: int| false)) == n,
    decreases n,
{
    if n > 0 {
        lemma_unvisited_none_set((n - 1) as nat);
        assert(Seq::new(n, |i: int| false).drop_last() =~= Seq::new(
            (n - 1) as nat,
            |i: int| false,
        ));
    }
}

} // verus!
