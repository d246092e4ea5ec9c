use vstd::prelude::*;
use super::value::DataValue;
use vstd::string::{StrSliceExecFns, StringExecFns};

verus! {

/// The numeral of a digit.
pub open spec fn digit_text(digit: nat) -> Seq<char> {
    if digit == 0 {
        "0"@
    } else if digit == 1 {
        "1"@
    } else if digit == 2 {
        "2"@
    } else if digit == 3 {
        "3"@
    } else if digit == 4 {
        "4"@
    } else if digit == 5 {
        "5"@
    } else if digit == 6 {
        "6"@
    } else if digit == 7 {
        "7"@
    } else if digit == 8 {
        "8"@
    } else {
        "9"@
    }
}

/// The decimal numeral of `n`, without leading zeros.
pub open spec fn decimal_text(n: nat) -> Seq<char>
    decreases n,
{
    if n < 10 {
        digit_text(n)
    } else {
        decimal_text(n / 10) + digit_text(n % 10)
    }
}

fn digit_str(digit: u8) -> (r: &'static str)
    requires
        digit < 10,
    ensures
        r@ == digit_text(digit as nat),
{
    if digit == 0 {
        "0"
    } else if digit == 1 {
        "1"
    } else if digit == 2 {
        "2"
    } else if digit == 3 {
        "3"
    } else if digit == 4 {
        "4"
    } else if digit == 5 {
        "5"
    } else if digit == 6 {
        "6"
    } else if digit == 7 {
        "7"
    } else if digit == 8 {
        "8"
    } else {
        "9"
    }
}

/// Appends the decimal numeral of `n` to `out`.
pub fn push_decimal(out: &mut String, n: u128)
    ensures
        final(out)@ == old(out)@ + decimal_text(n as nat),
    decreases n,
{
    if n >= 10 {
        push_decimal(out, n / 10);
    }
    out.append(digit_str((n % 10) as u8));
    proof {
        if n >= 10 {
            assert(old(out)@ + decimal_text(n as nat / 10) + digit_text(n as nat % 10) =~= old(out)@
                + decimal_text(n as nat));
        }
    }
}

/// The numeral of a hexadecimal digit, in upper case.
pub open spec fn hex_digit_text(digit: nat) -> Seq<char> {
    if digit < 10 {
        digit_text(digit)
    } else if digit == 10 {
        "A"@
    } else if digit == 11 {
        "B"@
    } else if digit == 12 {
        "C"@
    } else if digit == 13 {
        "D"@
    } else if digit == 14 {
        "E"@
    } else {
        "F"@
    }
}

/// The hexadecimal numeral of `n` with `digits` digits: the low digits of
/// `n`, with leading zeros.
pub open spec fn hex_text(n: nat, digits: nat) -> Seq<char>
    decreases digits,
{
    if digits == 0 {
        Seq::empty()
    } else {
        hex_text(n / 16, (digits - 1) as nat) + hex_digit_text(n % 16)
    }
}

/// The decimal numeral of an integer, with a minus sign where it is
/// negative.
pub open spec fn signed_text(n: int) -> Seq<char> {
    if n < 0 {
        "-"@ + decimal_text((-n) as nat)
    } else {
        decimal_text(n as nat)
    }
}

fn hex_digit_str(digit: u8) -> (r: &'static str)
    requires
        digit < 16,
    ensures
        r@ == hex_digit_text(digit as nat),
{
    if digit < 10 {
        digit_str(digit)
    } else if digit == 10 {
        "A"
    } else if digit == 11 {
        "B"
    } else if digit == 12 {
        "C"
    } else if digit == 13 {
        "D"
    } else if digit == 14 {
        "E"
    } else {
        "F"
    }
}

/// Appends the hexadecimal numeral of `n` with `digits` digits to `out`.
pub fn push_hex(out: &mut String, n: u32, digits: u8)
    ensures
        final(out)@ == old(out)@ + hex_text(n as nat, digits as nat),
    decreases digits,
{
    if digits > 0 {
        push_hex(out, n / 16, digits - 1);
        out.append(hex_digit_str((n % 16) as u8));
        proof {
            assert(old(out)@ + hex_text(n as nat / 16, (digits - 1) as nat) + hex_digit_text(
                n as nat % 16,
            ) =~= old(out)@ + hex_text(n as nat, digits as nat));
        }
    } else {
        proof {
            assert(old(out)@ + hex_text(n as nat, 0) =~= old(out)@);
        }
    }
}

/// Appends the decimal numeral of an integer to `out`.
pub fn push_signed(out: &mut String, n: i128)
    ensures
        final(out)@ == old(out)@ + signed_text(n as int),
{
    if n < 0 {
        out.append("-");
        let magnitude: u128 = if n == i128::MIN {
            0x8000_0000_0000_0000_0000_0000_0000_0000
        } else {
            (-n) as u128
        };
        push_decimal(out, magnitude);
        proof {
            assert(old(out)@ + "-"@ + decimal_text((-n) as nat) =~= old(out)@ + signed_text(
                n as int,
            ));
        }
    } else {
        push_decimal(out, n as u128);
    }
}

/// The place of the first `c` in `text`; the length of `text` where there
/// is none.
pub open spec fn first_occurrence(text: Seq<char>, c: char) -> int
    decreases text.len(),
{
    if text.len() == 0 || text[0] == c {
        0
    } else {
        1 + first_occurrence(text.drop_first(), c)
    }
}

/// The number of times that `c` occurs in `text`.
pub open spec fn occurrences(text: Seq<char>, c: char) -> nat
    decreases text.len(),
{
    if text.len() == 0 {
        0
    } else {
        occurrences(text.drop_last(), c) + if text.last() == c {
            1nat
        } else {
            0nat
        }
    }
}

/// The first occurrence is the one place with `c` that has no `c` before
/// it.
pub proof fn lemma_first_occurrence(text: Seq<char>, c: char, at: int)
    requires
        0 <= at <= text.len(),
        forall|j: int| 0 <= j < at ==> text[j] != c,
        at < text.len() ==> text[at] == c,
    ensures
        first_occurrence(text, c) == at,
    decreases text.len(),
{
    if text.len() > 0 && text[0] != c {
        assert forall|j: int| 0 <= j < at - 1 implies text.drop_first()[j] != c by {
            assert(text[j + 1] != c);
        }
        lemma_first_occurrence(text.drop_first(), c, at - 1);
    }
}

/// True for the characters that Unicode counts as white space.
pub open spec fn is_space(c: char) -> bool {
    let code = c as u32;
    ||| 0x09 <= code <= 0x0D
    ||| code == 0x20
    ||| code == 0x85
    ||| code == 0xA0
    ||| code == 0x1680
    ||| 0x2000 <= code <= 0x200A
    ||| code == 0x2028
    ||| code == 0x2029
    ||| code == 0x202F
    ||| code == 0x205F
    ||| code == 0x3000
}

/// Tells whether Unicode counts `c` as white space.
pub fn is_whitespace(c: char) -> (r: bool)
    ensures
        r == is_space(c),
{
    let code = c as u32;
    (0x09 <= code && code <= 0x0D) || code == 0x20 || code == 0x85 || code == 0xA0 || code
        == 0x1680 || (0x2000 <= code && code <= 0x200A) || code == 0x2028 || code == 0x2029
        || code == 0x202F || code == 0x205F || code == 0x3000
}

/// `text` without the white space at its start.
pub open spec fn trim_start(text: Seq<char>) -> Seq<char>
    decreases text.len(),
{
    if text.len() > 0 && is_space(text[0]) {
        trim_start(text.drop_first())
    } else {
        text
    }
}

/// `text` without the white space at its end.
pub open spec fn trim_end(text: Seq<char>) -> Seq<char>
    decreases text.len(),
{
    if text.len() > 0 && is_space(text.last()) {
        trim_end(text.drop_last())
    } else {
        text
    }
}

/// `text` without the white space at its start and at its end.
pub open spec fn trimmed(text: Seq<char>) -> Seq<char> {
    trim_end(trim_start(text))
}

/// The names in a list that separates them by `separator`: the pieces
/// between the separators, each without the white space around it, and
/// without the pieces that are then empty.
pub open spec fn listed_names(text: Seq<char>, separator: char) -> Seq<Seq<char>>
    decreases text.len(),
{
    let at = first_occurrence(text, separator);
    let head = trimmed(text.take(at));
    let here = if head.len() == 0 {
        Seq::<Seq<char>>::empty()
    } else {
        seq![head]
    };
    if at >= text.len() || at < 0 {
        here
    } else {
        here + listed_names(text.skip(at + 1), separator)
    }
}

proof fn lemma_trim_start(text: Seq<char>, from: int)
    requires
        0 <= from <= text.len(),
        forall|j: int| 0 <= j < from ==> is_space(text[j]),
        from < text.len() ==> !is_space(text[from]),
    ensures
        trim_start(text) == text.skip(from),
    decreases text.len(),
{
    if from > 0 {
        assert forall|j: int| 0 <= j < from - 1 implies is_space(text.drop_first()[j]) by {
            assert(is_space(text[j + 1]));
        }
        lemma_trim_start(text.drop_first(), from - 1);
        assert(text.drop_first().skip(from - 1) =~= text.skip(from));
    } else {
        assert(text.skip(0) =~= text);
    }
}

proof fn lemma_trim_end(text: Seq<char>, until: int)
    requires
        0 <= until <= text.len(),
        forall|j: int| until <= j < text.len() ==> is_space(text[j]),
        until > 0 ==> !is_space(text[until - 1]),
    ensures
        trim_end(text) == text.take(until),
    decreases text.len(),
{
    if until < text.len() {
        lemma_trim_end(text.drop_last(), until);
        assert(text.drop_last().take(until) =~= text.take(until));
    } else {
        assert(text.take(until) =~= text);
    }
}

/// The text between the white space at the start and at the end of the
/// characters from `from` up to `until`: the bounds of what stays.
#[verifier::rlimit(40)]
fn trim_bounds(text: &str, from: usize, until: usize) -> (r: (usize, usize))
    requires
        from <= until <= text@.len(),
    ensures
        from <= r.0 <= r.1 <= until,
        trimmed(text@.subrange(from as int, until as int)) == text@.subrange(
            r.0 as int,
            r.1 as int,
        ),
{
    let ghost piece = text@.subrange(from as int, until as int);
    let mut start = from;
    while start < until && is_whitespace(text.get_char(start))
        invariant
            from <= start <= until <= text@.len(),
            forall|j: int| from <= j < start ==> is_space(text@[j]),
        decreases until - start,
    {
        start = start + 1;
    }
    let mut end = until;
    while end > start && is_whitespace(text.get_char(end - 1))
        invariant
            start <= end <= until <= text@.len(),
            forall|j: int| end <= j < until ==> is_space(text@[j]),
        decreases end,
    {
        end = end - 1;
    }
    proof {
        lemma_trim_start(piece, start - from);
        let rest = piece.skip(start - from);
        assert(rest =~= text@.subrange(start as int, until as int));
        lemma_trim_end(rest, end - start);
        assert(rest.take(end - start) =~= text@.subrange(start as int, end as int));
    }
    (start, end)
}

/// The place of the first `c` at or behind `from`; the length of `text`
/// where there is none.
fn find_from(text: &str, from: usize, length: usize, c: char) -> (at: usize)
    requires
        from <= length,
        length == text@.len(),
    ensures
        from <= at <= length,
        at - from == first_occurrence(text@.skip(from as int), c),
{
    let mut at = from;
    while at < length && text.get_char(at) != c
        invariant
            from <= at <= length,
            length == text@.len(),
            forall|j: int| from <= j < at ==> text@[j] != c,
        decreases length - at,
    {
        at = at + 1;
    }
    proof {
        lemma_first_occurrence(text@.skip(from as int), c, at - from);
    }
    at
}

/// The texts of a list of strings.
pub open spec fn texts_of(names: Seq<String>) -> Seq<Seq<char>> {
    Seq::new(names.len(), |i: int| names[i]@)
}

/// Splits a list of names at `separator`: see `listed_names`.
#[verifier::rlimit(40)]
pub fn split_names(text: &str, separator: char) -> (names: Vec<String>)
    ensures
        texts_of(names@) == listed_names(text@, separator),
{
    let length = text.unicode_len();
    let mut names: Vec<String> = Vec::new();
    let mut from: usize = 0;
    let mut done = false;
    proof {
        assert(text@.skip(0) =~= text@);
        assert(texts_of(names@) =~= Seq::empty());
    }
    while !done
        invariant
            from <= length,
            length == text@.len(),
            !done ==> texts_of(names@) + listed_names(text@.skip(from as int), separator)
                == listed_names(text@, separator),
            done ==> texts_of(names@) == listed_names(text@, separator),
        decreases length - from + (if done {
            0int
        } else {
            1int
        }),
    {
        let ghost rest = text@.skip(from as int);
        let ghost before = texts_of(names@);
        let at = find_from(text, from, length, separator);
        let (start, end) = trim_bounds(text, from, at);
        proof {
            assert(rest.take(at - from) =~= text@.subrange(from as int, at as int));
        }
        if start < end {
            let name = String::from_str(text.substring_char(start, end));
            names.push(name);
            proof {
                assert(texts_of(names@) =~= before + seq![text@.subrange(start as int, end as int)]);
            }
        }
        if at >= length {
            done = true;
        } else {
            proof {
                assert(rest.skip(at - from + 1) =~= text@.skip(at + 1));
            }
            from = at + 1;
        }
    }
    names
}

/// Tells whether `text` holds nothing but white space.
pub fn is_blank(text: &str) -> (r: bool)
    ensures
        r == (trimmed(text@).len() == 0),
{
    let length = text.unicode_len();
    let (start, end) = trim_bounds(text, 0, length);
    proof {
        assert(text@.subrange(0, length as int) =~= text@);
    }
    start == end
}

/// The code of a character, with the capital letters of ASCII folded onto
/// the small ones.
pub open spec fn folded(c: char) -> u32 {
    let code = c as u32;
    if 0x41 <= code <= 0x5A {
        (code + 0x20) as u32
    } else {
        code
    }
}

/// The folded codes of the characters of `text`.
pub open spec fn folded_text(text: Seq<char>) -> Seq<u32> {
    Seq::new(text.len(), |i: int| folded(text[i]))
}

fn fold(c: char) -> (r: u32)
    ensures
        r == folded(c),
{
    let code = c as u32;
    if 0x41 <= code && code <= 0x5A {
        code + 0x20
    } else {
        code
    }
}

/// Tells whether `text`, without the white space around it, is `target` up
/// to the case of ASCII letters.
pub fn matches_ignoring_case(text: &str, target: &str) -> (r: bool)
    ensures
        r == (folded_text(trimmed(text@)) == folded_text(target@)),
{
    let length = text.unicode_len();
    let wanted = target.unicode_len();
    let (start, end) = trim_bounds(text, 0, length);
    let ghost kept = trimmed(text@);
    proof {
        assert(text@.subrange(0, length as int) =~= text@);
    }
    if end - start != wanted {
        proof {
            assert(folded_text(kept).len() != folded_text(target@).len());
        }
        return false;
    }
    let mut i: usize = 0;
    while i < wanted
        invariant
            i <= wanted,
            wanted == target@.len(),
            start <= end <= length,
            length == text@.len(),
            end - start == wanted,
            kept == text@.subrange(start as int, end as int),
            kept == trimmed(text@),
            forall|j: int| 0 <= j < i ==> folded(kept[j]) == folded(target@[j]),
        decreases wanted - i,
    {
        if fold(text.get_char(start + i)) != fold(target.get_char(i)) {
            proof {
                assert(folded_text(kept)[i as int] != folded_text(target@)[i as int]);
            }
            return false;
        }
        i = i + 1;
    }
    proof {
        assert(folded_text(kept) =~= folded_text(target@));
    }
    true
}

/// Tells whether the end of `text` is `ending` up to the case of ASCII
/// letters.
pub open spec fn ends_like(text: Seq<char>, ending: Seq<char>) -> bool {
    text.len() >= ending.len() && folded_text(text.skip(text.len() - ending.len()))
        == folded_text(ending)
}

/// Tells whether the end of `text` is `ending` up to the case of ASCII
/// letters.
pub fn ends_ignoring_case(text: &str, ending: &str) -> (r: bool)
    ensures
        r == ends_like(text@, ending@),
{
    let length = text.unicode_len();
    let wanted = ending.unicode_len();
    if length < wanted {
        return false;
    }
    let start = length - wanted;
    let ghost tail = text@.skip(start as int);
    let mut i: usize = 0;
    while i < wanted
        invariant
            i <= wanted,
            wanted == ending@.len(),
            length == text@.len(),
            start + wanted == length,
            tail == text@.skip(start as int),
            forall|j: int| 0 <= j < i ==> folded(tail[j]) == folded(ending@[j]),
        decreases wanted - i,
    {
        if fold(text.get_char(start + i)) != fold(ending.get_char(i)) {
            proof {
                assert(folded_text(tail)[i as int] != folded_text(ending@)[i as int]);
            }
            return false;
        }
        i = i + 1;
    }
    proof {
        assert(folded_text(tail) =~= folded_text(ending@));
    }
    true
}

/// Tells whether `text` is the word `word`.
pub fn is_word(text: &String, word: &str) -> (r: bool)
    ensures
        r == (text@ == word@),
{
    let other = String::from_str(word);
    text.eq(&other)
}

/// The text behind a leading `#`; nothing for a text that does not start
/// with one.
pub open spec fn reference_of(text: Seq<char>) -> Option<Seq<char>> {
    if text.len() > 0 && text[0] == '#' {
        Some(text.skip(1))
    } else {
        None
    }
}

/// The name that a text refers to with a leading `#`.
pub fn strip_hash(text: &str) -> (r: Option<String>)
    ensures
        match r {
            Some(name) => reference_of(text@) == Some(name@),
            None => reference_of(text@) is None,
        },
{
    let length = text.unicode_len();
    if length > 0 && text.get_char(0) == '#' {
        proof {
            assert(text@.subrange(1, length as int) =~= text@.skip(1));
        }
        Some(String::from_str(text.substring_char(1, length)))
    } else {
        None
    }
}

/// True for the ten digits of ASCII.
pub open spec fn is_digit(c: char) -> bool {
    0x30 <= c as u32 <= 0x39
}

/// The number that a digit stands for.
pub open spec fn digit_value(c: char) -> nat {
    (c as u32 - 0x30) as nat
}

/// The number that a text of digits spells in decimal.
pub open spec fn decimal_value(digits: Seq<char>) -> nat
    decreases digits.len(),
{
    if digits.len() == 0 {
        0
    } else {
        decimal_value(digits.drop_last()) * 10 + digit_value(digits.last())
    }
}

/// True for a text of one or more digits.
pub open spec fn is_numeral(digits: Seq<char>) -> bool {
    digits.len() > 0 && forall|i: int| 0 <= i < digits.len() ==> is_digit(#[trigger] digits[i])
}

/// The integer that a text spells: digits, behind a plus or minus sign or
/// none.
pub open spec fn spelled_integer(text: Seq<char>) -> Option<int> {
    if text.len() > 0 && text[0] == '-' {
        if is_numeral(text.skip(1)) {
            Some(-(decimal_value(text.skip(1)) as int))
        } else {
            None
        }
    } else if text.len() > 0 && text[0] == '+' {
        if is_numeral(text.skip(1)) {
            Some(decimal_value(text.skip(1)) as int)
        } else {
            None
        }
    } else if is_numeral(text) {
        Some(decimal_value(text) as int)
    } else {
        None
    }
}

/// The value that a text gives as an integer: unsigned where it spells an
/// integer without minus sign that fits 64 bits; else signed where it spells
/// one that fits 64 bits with sign; else none.
pub open spec fn parsed_integer(text: Seq<char>) -> Option<DataValue> {
    match spelled_integer(text) {
        None => None,
        Some(n) => if !(text.len() > 0 && text[0] == '-') && n <= u64::MAX {
            Some(DataValue::U64(n as u64))
        } else if i64::MIN <= n <= i64::MAX {
            Some(DataValue::I64(n as i64))
        } else {
            None
        },
    }
}

/// A longer numeral spells no less.
proof fn lemma_decimal_value_grows(digits: Seq<char>, count: int)
    requires
        0 <= count <= digits.len(),
    ensures
        decimal_value(digits.take(count)) <= decimal_value(digits),
    decreases digits.len() - count,
{
    if count < digits.len() {
        lemma_decimal_value_grows(digits, count + 1);
        assert(digits.take(count + 1).drop_last() =~= digits.take(count));
    } else {
        assert(digits.take(count) =~= digits);
    }
}

/// The number that the characters from `from` on spell, where they are one
/// or more digits and the number is at most `limit`.
fn parse_digits(text: &str, from: usize, length: usize, limit: u64) -> (r: Option<u64>)
    requires
        from <= length,
        length == text@.len(),
        limit >= 9,
    ensures
        match r {
            Some(n) => is_numeral(text@.skip(from as int)) && n == decimal_value(
                text@.skip(from as int),
            ) && n <= limit,
            None => !is_numeral(text@.skip(from as int)) || decimal_value(text@.skip(from as int))
                > limit,
        },
{
    let ghost digits = text@.skip(from as int);
    if from == length {
        return None;
    }
    let mut value: u64 = 0;
    let mut i: usize = from;
    proof {
        assert(digits.take(0) =~= Seq::empty());
    }
    while i < length
        invariant
            from <= i <= length,
            length == text@.len(),
            digits == text@.skip(from as int),
            forall|j: int| 0 <= j < i - from ==> is_digit(#[trigger] digits[j]),
            value == decimal_value(digits.take(i - from)),
            value <= limit,
            limit >= 9,
        decreases length - i,
    {
        let c = text.get_char(i);
        let code = c as u32;
        if code < 0x30 || code > 0x39 {
            proof {
                assert(!is_digit(digits[i - from]));
            }
            return None;
        }
        let digit = (code - 0x30) as u64;
        proof {
            assert(digits.take(i - from + 1).drop_last() =~= digits.take(i - from));
            assert(digits.take(i - from + 1).last() == c);
            lemma_decimal_value_grows(digits, i - from + 1);
        }
        if value > (limit - digit) / 10 {
            proof {
                assert(value * 10 + digit > limit) by (nonlinear_arith)
                    requires
                        value > (limit - digit) / 10,
                        digit <= limit,
                        0 <= digit < 10,
                ;
            }
            return None;
        }
        proof {
            assert(value * 10 + digit <= limit) by (nonlinear_arith)
                requires
                    value <= (limit - digit) / 10,
                    digit <= limit,
            ;
        }
        value = value * 10 + digit;
        i = i + 1;
    }
    proof {
        assert(digits.take(length - from) =~= digits);
    }
    Some(value)
}

/// The value that a text gives as an integer: see `parsed_integer`.
pub fn parse_integer(text: &str) -> (r: Option<DataValue>)
    ensures
        r == parsed_integer(text@),
{
    let length = text.unicode_len();
    if length == 0 {
        return None;
    }
    let first = text.get_char(0);
    proof {
        assert(text@.skip(0) =~= text@);
    }
    if first == '-' {
        match parse_digits(text, 1, length, 0x8000_0000_0000_0000) {
            Some(n) => {
                let value: i128 = -(n as i128);
                Some(DataValue::I64(value as i64))
            },
            None => None,
        }
    } else {
        let from: usize = if first == '+' {
            1
        } else {
            0
        };
        match parse_digits(text, from, length, 0xFFFF_FFFF_FFFF_FFFF) {
            Some(n) => Some(DataValue::U64(n)),
            None => None,
        }
    }
}

/// True for the characters that separate the numbers of a list: white
/// space, the comma and the semicolon.
pub open spec fn is_delimiter(c: char) -> bool {
    is_space(c) || c == ',' || c == ';'
}

/// The pieces between delimiters in the first `count` characters of
/// `text`: the pieces that are complete, and the piece that is still open.
pub open spec fn scanned(text: Seq<char>, count: nat) -> (Seq<Seq<char>>, Seq<char>)
    decreases count,
{
    if count == 0 || count > text.len() {
        (Seq::empty(), Seq::empty())
    } else {
        let (done, open) = scanned(text, (count - 1) as nat);
        let c = text[count - 1];
        if !is_delimiter(c) {
            (done, open.push(c))
        } else if open.len() > 0 {
            (done.push(open), Seq::empty())
        } else {
            (done, open)
        }
    }
}

/// The pieces of `text` between delimiters, without the empty ones.
pub open spec fn number_pieces(text: Seq<char>) -> Seq<Seq<char>> {
    let (done, open) = scanned(text, text.len());
    if open.len() > 0 {
        done.push(open)
    } else {
        done
    }
}

/// Splits a list of numbers at white space, commas and semicolons: see
/// `number_pieces`.
pub fn split_numbers(text: &str) -> (pieces: Vec<String>)
    ensures
        texts_of(pieces@) == number_pieces(text@),
{
    let length = text.unicode_len();
    let mut pieces: Vec<String> = Vec::new();
    let mut start: usize = 0;
    let mut i: usize = 0;
    proof {
        assert(texts_of(pieces@) =~= Seq::empty());
        assert(text@.subrange(0, 0) =~= Seq::empty());
    }
    while i < length
        invariant
            start <= i <= length,
            length == text@.len(),
            scanned(text@, i as nat) == (texts_of(pieces@), text@.subrange(start as int, i as int)),
        decreases length - i,
    {
        let ghost before = texts_of(pieces@);
        let c = text.get_char(i);
        if is_whitespace(c) || c == ',' || c == ';' {
            if start < i {
                pieces.push(String::from_str(text.substring_char(start, i)));
                proof {
                    assert(texts_of(pieces@) =~= before.push(
                        text@.subrange(start as int, i as int),
                    ));
                }
            }
            start = i + 1;
            proof {
                assert(text@.subrange(start as int, i + 1) =~= Seq::empty());
            }
        } else {
            proof {
                assert(text@.subrange(start as int, i + 1) =~= text@.subrange(
                    start as int,
                    i as int,
                ).push(c));
            }
        }
        i = i + 1;
    }
    if start < length {
        let ghost before = texts_of(pieces@);
        pieces.push(String::from_str(text.substring_char(start, length)));
        proof {
            assert(texts_of(pieces@) =~= before.push(
                text@.subrange(start as int, length as int),
            ));
        }
    }
    pieces
}

} // verus!
