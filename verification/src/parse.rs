//! Reading numbers and words out of text.

use crate::text::{characters, decimal_text, digit_text};
use vstd::prelude::*;

verus! {

pub open spec fn is_digit(c: char) -> bool {
    '0' <= c <= '9'
}

pub open spec fn all_digits(text: Seq<char>) -> bool {
    forall|i: int| 0 <= i < text.len() ==> is_digit(#[trigger] text[i])
}

/// The number that decimal digits spell.
pub open spec fn digits_value(text: Seq<char>) -> nat
    decreases text.len(),
{
    if text.len() == 0 {
        0
    } else {
        digits_value(text.drop_last()) * 10 + (text.last() as nat - '0' as nat) as nat
    }
}

proof fn prefix_value_is_no_larger(text: Seq<char>, count: int)
    requires
        0 <= count <= text.len(),
        all_digits(text),
    ensures
        digits_value(text.take(count)) <= digits_value(text),
    decreases text.len() - count,
{
    if count < text.len() {
        prefix_value_is_no_larger(text, count + 1);
        assert(text.take(count + 1).drop_last() =~= text.take(count));
        assert(is_digit(text[count]));
    } else {
        assert(text.take(count) =~= text);
    }
}

/// A digit spells itself.
pub(crate) proof fn digits_read_back(digit: int)
    requires
        0 <= digit < 10,
    ensures
        digit_text(digit).len() == 1,
        is_digit(digit_text(digit)[0]),
        digit_text(digit)[0] as nat - '0' as nat == digit,
{
    reveal_strlit("0");
    reveal_strlit("1");
    reveal_strlit("2");
    reveal_strlit("3");
    reveal_strlit("4");
    reveal_strlit("5");
    reveal_strlit("6");
    reveal_strlit("7");
    reveal_strlit("8");
    reveal_strlit("9");
}

/// A number that is written in decimal is read back as the same number.
pub proof fn decimals_read_back(number: nat)
    ensures
        decimal_text(number).len() > 0,
        all_digits(decimal_text(number)),
        digits_value(decimal_text(number)) == number,
    decreases number,
{
    let text = decimal_text(number);
    if number < 10 {
        digits_read_back(number as int);
        assert(text.drop_last() =~= Seq::<char>::empty());
        assert(digits_value(Seq::<char>::empty()) == 0);
    } else {
        let rest = decimal_text(number / 10);
        let last = digit_text((number % 10) as int);
        decimals_read_back(number / 10);
        digits_read_back((number % 10) as int);
        assert(text.drop_last() =~= rest);
        assert(text.last() == last[0]);
        assert forall|i: int| 0 <= i < text.len() implies is_digit(#[trigger] text[i]) by {
            if i < rest.len() {
                assert(text[i] == rest[i]);
            }
        }
    }
}

/// The number spelled by one or more digits, if it is at most `max`.
pub open spec fn bounded_digits(text: Seq<char>, max: nat) -> Option<nat> {
    if text.len() > 0 && all_digits(text) && digits_value(text) <= max {
        Some(digits_value(text))
    } else {
        None
    }
}

fn parse_digits(text: &Vec<char>, from: usize, max: u64) -> (number: Option<u64>)
    requires
        from <= text@.len(),
    ensures
        number matches Some(value) ==> bounded_digits(text@.skip(from as int), max as nat) == Some(value as nat),
        number is None ==> bounded_digits(text@.skip(from as int), max as nat) is None,
{
    let ghost digits = text@.skip(from as int);
    if from == text.len() {
        return None;
    }
    let mut value: u64 = 0;
    let mut i: usize = from;
    assert(digits.take(0) =~= Seq::<char>::empty());
    while i < text.len()
        invariant
            from <= i <= text@.len(),
            digits == text@.skip(from as int),
            all_digits(digits.take(i - from)),
            value == digits_value(digits.take(i - from)),
            value <= max,
        decreases text@.len() - i,
    {
        let c = text[i];
        assert(digits[i - from] == c);
        if c < '0' || c > '9' {
            assert(!is_digit(digits[i - from]));
            return None;
        }
        let digit: u64 = (c as u32 - '0' as u32) as u64;
        let next: u128 = value as u128 * 10 + digit as u128;
        proof {
            assert(digits.take(i - from + 1).drop_last() =~= digits.take(i - from));
            assert(digits_value(digits.take(i - from + 1)) == next);
        }
        if next > max as u128 {
            proof {
                if all_digits(digits) {
                    prefix_value_is_no_larger(digits, i - from + 1);
                }
            }
            return None;
        }
        value = next as u64;
        i += 1;
    }
    assert(digits.take(i - from) =~= digits);
    Some(value)
}

/// The number that a text spells as an unsigned decimal, with an optional
/// plus sign, if it is at most `max`.
pub open spec fn unsigned_value(text: Seq<char>, max: nat) -> Option<nat> {
    if text.len() > 0 && text[0] == '+' {
        bounded_digits(text.skip(1), max)
    } else {
        bounded_digits(text, max)
    }
}

/// Reads an unsigned number.
pub fn parse_unsigned(text: &str, max: u64) -> (number: Option<u64>)
    ensures
        number matches Some(value) ==> unsigned_value(text@, max as nat) == Some(value as nat),
        number is None ==> unsigned_value(text@, max as nat) is None,
{
    let list = characters(text);
    assert(list@.skip(0) =~= list@);
    if list.len() > 0 && list[0] == '+' {
        parse_digits(&list, 1, max)
    } else {
        parse_digits(&list, 0, max)
    }
}

/// The number that a text spells as a signed decimal in the range of `i32`.
pub open spec fn signed_value(text: Seq<char>) -> Option<int> {
    if text.len() > 0 && text[0] == '-' {
        match bounded_digits(text.skip(1), 2147483648) {
            Some(value) => Some(-(value as int)),
            None => None,
        }
    } else {
        match unsigned_value(text, 2147483647) {
            Some(value) => Some(value as int),
            None => None,
        }
    }
}

/// Reads a signed number.
pub fn parse_i32(text: &str) -> (number: Option<i32>)
    ensures
        number matches Some(value) ==> signed_value(text@) == Some(value as int),
        number is None ==> signed_value(text@) is None,
{
    let list = characters(text);
    assert(list@.skip(0) =~= list@);
    if list.len() > 0 && list[0] == '-' {
        match parse_digits(&list, 1, 2147483648) {
            Some(value) => {
                let negative: i64 = -(value as i64);
                Some(negative as i32)
            },
            None => None,
        }
    } else if list.len() > 0 && list[0] == '+' {
        match parse_digits(&list, 1, 2147483647) {
            Some(value) => Some(value as i32),
            None => None,
        }
    } else {
        match parse_digits(&list, 0, 2147483647) {
            Some(value) => Some(value as i32),
            None => None,
        }
    }
}

/// The characters with the Unicode property `White_Space`.
pub open spec fn is_white_space(c: char) -> bool {
    let code = c as u32;
    ||| 0x09 <= code <= 0x0d
    ||| code == 0x20
    ||| code == 0x85
    ||| code == 0xa0
    ||| code == 0x1680
    ||| 0x2000 <= code <= 0x200a
    ||| code == 0x2028
    ||| code == 0x2029
    ||| code == 0x202f
    ||| code == 0x205f
    ||| code == 0x3000
}

fn white_space(c: char) -> (r: bool)
    ensures
        r == is_white_space(c),
{
    let code: u32 = c as u32;
    (code >= 0x09 && code <= 0x0d) || code == 0x20 || code == 0x85 || code == 0xa0 || code == 0x1680
        || (code >= 0x2000 && code <= 0x200a) || code == 0x2028 || code == 0x2029 || code == 0x202f
        || code == 0x205f || code == 0x3000
}

/// `inner` is `text` without the white space around it.
pub open spec fn is_trim_of(inner: Seq<char>, text: Seq<char>) -> bool {
    exists|from: int, to: int| #[trigger] is_trim_range(text, from, to) && inner == text.subrange(from, to)
}

/// All of `text` outside `from..to` is white space, and the range itself
/// neither begins nor ends with any.
pub open spec fn is_trim_range(text: Seq<char>, from: int, to: int) -> bool {
    &&& 0 <= from <= to <= text.len()
    &&& forall|i: int| 0 <= i < from ==> is_white_space(#[trigger] text[i])
    &&& forall|i: int| to <= i < text.len() ==> is_white_space(#[trigger] text[i])
    &&& from < to ==> !is_white_space(text[from]) && !is_white_space(text[to - 1])
    &&& from == to ==> from == text.len()
}

/// A text without the white space around it.
pub open spec fn trim_text(text: Seq<char>) -> Seq<char> {
    choose|inner: Seq<char>| is_trim_of(inner, text)
}

/// A text has only one trimmed form.
pub proof fn trim_is_unique(a: Seq<char>, b: Seq<char>, text: Seq<char>)
    requires
        is_trim_of(a, text),
        is_trim_of(b, text),
    ensures
        a == b,
{
    let (f, t) = choose|from: int, to: int| #[trigger] is_trim_range(text, from, to) && a == text.subrange(from, to);
    let (g, u) = choose|from: int, to: int| #[trigger] is_trim_range(text, from, to) && b == text.subrange(from, to);
    if f < t {
        assert(!is_white_space(text[f]));
        assert(!is_white_space(text[t - 1]));
    }
    if g < u {
        assert(!is_white_space(text[g]));
        assert(!is_white_space(text[u - 1]));
    }
    if f < t && g < u {
        assert(f == g);
        assert(t == u);
    } else if f == t && g == u {
        assert(a =~= b);
    } else if f == t {
        assert(is_white_space(text[g]));
    } else {
        assert(is_white_space(text[f]));
    }
}

/// The text without the white space around it.
pub fn trimmed(text: &str) -> (inner: String)
    ensures
        inner@ == trim_text(text@),
        is_trim_of(inner@, text@),
{
    let list = characters(text);
    let mut from: usize = 0;
    while from < list.len() && white_space(list[from])
        invariant
            from <= list@.len(),
            list@ == text@,
            forall|i: int| 0 <= i < from ==> is_white_space(#[trigger] list@[i]),
        decreases list@.len() - from,
    {
        from += 1;
    }
    let mut to: usize = list.len();
    while to > from && white_space(list[to - 1])
        invariant
            from <= to <= list@.len(),
            list@ == text@,
            from < list@.len() ==> !is_white_space(list@[from as int]),
            forall|i: int| to <= i < list@.len() ==> is_white_space(#[trigger] list@[i]),
        decreases to,
    {
        to -= 1;
    }
    let inner = text.substring_char(from, to);
    proof {
        if from == to && from < list@.len() {
            assert(is_white_space(list@[from as int]));
        }
        assert(is_trim_range(text@, from as int, to as int));
        assert(is_trim_of(inner@, text@));
        trim_is_unique(inner@, trim_text(text@), text@);
    }
    inner.to_owned()
}

/// A character with ASCII capitals made small.
pub open spec fn small_letter(c: char) -> char {
    if 'A' <= c <= 'Z' {
        ((c as u32 + 32) as u32) as char
    } else {
        c
    }
}

/// `needle` stands in `text` at `at`, if capitals do not matter in `text`.
pub open spec fn stands_at(text: Seq<char>, needle: Seq<char>, at: int) -> bool {
    &&& 0 <= at
    &&& at + needle.len() <= text.len()
    &&& forall|i: int| 0 <= i < needle.len() ==> small_letter(#[trigger] text[at + i]) == needle[i]
}

/// `text`, in small ASCII letters, holds `needle`.
pub open spec fn mentions(text: Seq<char>, needle: Seq<char>) -> bool {
    exists|at: int| #[trigger] stands_at(text, needle, at)
}

fn same_letter(c: char, wanted: char) -> (same: bool)
    ensures
        same == (small_letter(c) == wanted),
{
    if c >= 'A' && c <= 'Z' {
        c as u32 + 32 == wanted as u32
    } else {
        c == wanted
    }
}

/// Whether a text, in small ASCII letters, holds the given words.
pub fn mentions_words(text: &str, needle: &str) -> (found: bool)
    ensures
        found == mentions(text@, needle@),
{
    let list = characters(text);
    let wanted = characters(needle);
    if wanted.len() > list.len() {
        return false;
    }
    let last: usize = list.len() - wanted.len();
    let mut at: usize = 0;
    loop
        invariant
            at <= last,
            last == list@.len() - wanted@.len(),
            list@ == text@,
            wanted@ == needle@,
            list@.len() <= usize::MAX,
            forall|j: int| 0 <= j < at ==> !#[trigger] stands_at(text@, needle@, j),
        decreases last - at,
    {
        let mut i: usize = 0;
        let mut same = true;
        while i < wanted.len() && same
            invariant
                i <= wanted@.len(),
                at + wanted@.len() <= list@.len() <= usize::MAX,
                list@ == text@,
                wanted@ == needle@,
                same ==> forall|k: int| 0 <= k < i ==> small_letter(#[trigger] list@[at + k]) == wanted@[k],
                !same ==> !stands_at(text@, needle@, at as int),
            decreases wanted@.len() - i + if same { 1int } else { 0int },
        {
            if same_letter(list[at + i], wanted[i]) {
                i += 1;
            } else {
                assert(small_letter(text@[at + i]) != needle@[i as int]);
                same = false;
            }
        }
        if same {
            assert(stands_at(text@, needle@, at as int));
            return true;
        }
        if at == last {
            assert forall|j: int| !#[trigger] stands_at(text@, needle@, j) by {}
            return false;
        }
        at += 1;
    }
}

/// The parts of a text between the occurrences of a separator.
pub open spec fn split_text(text: Seq<char>, separator: char) -> Seq<Seq<char>>
    decreases text.len(),
{
    if text.len() == 0 {
        seq![Seq::empty()]
    } else {
        let rest = split_text(text.drop_last(), separator);
        if text.last() == separator {
            rest.push(Seq::empty())
        } else {
            rest.drop_last().push(rest.last().push(text.last()))
        }
    }
}

/// Splitting gives at least one part.
pub proof fn split_has_parts(text: Seq<char>, separator: char)
    ensures
        split_text(text, separator).len() > 0,
    decreases text.len(),
{
    if text.len() > 0 {
        split_has_parts(text.drop_last(), separator);
    }
}

/// Splits a text at every separator.
pub fn split_at_each(text: &str, separator: char) -> (parts: Vec<String>)
    ensures
        crate::views::views(parts@) == split_text(text@, separator),
{
    let list = characters(text);
    let mut parts: Vec<String> = Vec::new();
    let mut from: usize = 0;
    let mut i: usize = 0;
    let ghost mut done: Seq<Seq<char>> = Seq::empty();
    assert(list@.take(0) =~= Seq::<char>::empty());
    assert(list@.subrange(0, 0) =~= Seq::<char>::empty());
    assert(crate::views::views(parts@) =~= done);
    assert(done.push(list@.subrange(0, 0)) =~= seq![Seq::<char>::empty()]);
    while i < list.len()
        invariant
            from <= i <= list@.len(),
            list@ == text@,
            crate::views::views(parts@) == done,
            split_text(list@.take(i as int), separator) == done.push(list@.subrange(from as int, i as int)),
        decreases list@.len() - i,
    {
        proof {
            assert(list@.take(i + 1).drop_last() =~= list@.take(i as int));
            assert(list@.take(i + 1).last() == list@[i as int]);
        }
        if list[i] == separator {
            let part = text.substring_char(from, i).to_owned();
            proof {
                crate::views::views_push(parts@, part);
                done = done.push(part@);
            }
            parts.push(part);
            from = i + 1;
            assert(list@.subrange(i + 1, i + 1) =~= Seq::<char>::empty());
        } else {
            proof {
                let before = done.push(list@.subrange(from as int, i as int));
                assert(before.drop_last() =~= done);
                assert(list@.subrange(from as int, i + 1) =~= list@.subrange(from as int, i as int).push(list@[i as int]));
            }
        }
        i += 1;
    }
    let part = text.substring_char(from, i).to_owned();
    proof {
        assert(list@.take(i as int) =~= text@);
        crate::views::views_push(parts@, part);
    }
    parts.push(part);
    parts
}

/// The place of the first `separator`, or the length of the text.
pub open spec fn first_place(text: Seq<char>, separator: char) -> int
    decreases text.len(),
{
    if text.len() == 0 {
        0
    } else if text[0] == separator {
        0
    } else {
        1 + first_place(text.drop_first(), separator)
    }
}

/// What stands before and after the first separator.
pub open spec fn split_pair(text: Seq<char>, separator: char) -> Option<(Seq<char>, Seq<char>)> {
    let at = first_place(text, separator);
    if at < text.len() {
        Some((text.take(at), text.skip(at + 1)))
    } else {
        None
    }
}

proof fn first_place_found(text: Seq<char>, separator: char, at: int)
    requires
        0 <= at <= text.len(),
        forall|i: int| 0 <= i < at ==> #[trigger] text[i] != separator,
        at < text.len() ==> text[at] == separator,
    ensures
        first_place(text, separator) == at,
    decreases text.len(),
{
    if text.len() > 0 && at > 0 {
        assert(text[0] != separator);
        assert forall|i: int| 0 <= i < at - 1 implies #[trigger] text.drop_first()[i] != separator by {
            assert(text.drop_first()[i] == text[i + 1]);
        }
        first_place_found(text.drop_first(), separator, at - 1);
    }
}

/// Splits a text at its first separator.
pub fn split_at_first(text: &str, separator: char) -> (pair: Option<(String, String)>)
    ensures
        match pair {
            Some((before, after)) => split_pair(text@, separator) == Some((before@, after@)),
            None => split_pair(text@, separator) is None,
        },
{
    let list = characters(text);
    let mut at: usize = 0;
    while at < list.len() && list[at] != separator
        invariant
            at <= list@.len(),
            list@ == text@,
            forall|i: int| 0 <= i < at ==> #[trigger] list@[i] != separator,
        decreases list@.len() - at,
    {
        at += 1;
    }
    proof {
        first_place_found(text@, separator, at as int);
    }
    if at < list.len() {
        let before = text.substring_char(0, at).to_owned();
        let after = text.substring_char(at + 1, list.len()).to_owned();
        assert(text@.subrange(0, at as int) =~= text@.take(at as int));
        assert(text@.subrange(at + 1, text@.len() as int) =~= text@.skip(at + 1));
        Some((before, after))
    } else {
        None
    }
}

} // verus!
