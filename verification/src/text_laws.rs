//! What texts spell and how they are taken apart, character by character.

use crate::parse::{all_digits, bounded_digits, decimals_read_back, digits_value, first_place, is_digit, is_trim_of,
    is_trim_range, is_white_space, mentions, signed_value, small_letter, split_pair, stands_at, trim_is_unique, trim_text,
    unsigned_value};
use crate::text::{decimal_text, digit_text, signed_text, text_less};
use vstd::prelude::*;

verus! {

// ---------------------------------------------------------------------------
// Order

/// The texts agree on the first `count` characters.
pub open spec fn agree_on(a: Seq<char>, b: Seq<char>, count: int) -> bool {
    &&& 0 <= count <= a.len()
    &&& count <= b.len()
    &&& forall|i: int| 0 <= i < count ==> a[i] == #[trigger] b[i]
}

/// One text comes before another exactly if, after what they have in common,
/// it is at its end and the other is not, or its next character is smaller.
pub proof fn texts_are_ordered_by_their_first_difference(a: Seq<char>, b: Seq<char>)
    ensures
        text_less(a, b) <==> exists|n: int|
            #[trigger] agree_on(a, b, n) && n < b.len() && (n == a.len() || a[n] < b[n]),
    decreases a.len(),
{
    if a.len() > 0 && b.len() > 0 && a[0] == b[0] {
        let x = a.drop_first();
        let y = b.drop_first();
        texts_are_ordered_by_their_first_difference(x, y);
        if text_less(a, b) {
            let n = choose|n: int| #[trigger] agree_on(x, y, n) && n < y.len() && (n == x.len() || x[n] < y[n]);
            assert forall|i: int| 0 <= i < n + 1 implies a[i] == #[trigger] b[i] by {
                if i > 0 {
                    assert(x[i - 1] == y[i - 1]);
                }
            }
            assert(agree_on(a, b, n + 1));
        }
        if exists|n: int| #[trigger] agree_on(a, b, n) && n < b.len() && (n == a.len() || a[n] < b[n]) {
            let n = choose|n: int| #[trigger] agree_on(a, b, n) && n < b.len() && (n == a.len() || a[n] < b[n]);
            assert(n > 0);
            assert forall|i: int| 0 <= i < n - 1 implies x[i] == #[trigger] y[i] by {
                assert(a[i + 1] == b[i + 1]);
            }
            assert(agree_on(x, y, n - 1));
        }
    } else {
        if text_less(a, b) {
            assert(agree_on(a, b, 0));
        }
        if exists|n: int| #[trigger] agree_on(a, b, n) && n < b.len() && (n == a.len() || a[n] < b[n]) {
            let n = choose|n: int| #[trigger] agree_on(a, b, n) && n < b.len() && (n == a.len() || a[n] < b[n]);
            if n > 0 {
                assert(a[0] == b[0]);
            }
        }
    }
}

// ---------------------------------------------------------------------------
// Numbers

/// One more digit makes a number ten times as large and adds the digit; a
/// zero in front makes no difference.
pub proof fn digits_count_by_tens(text: Seq<char>, digit: char)
    requires
        all_digits(text),
        '0' <= digit <= '9',
    ensures
        digits_value(Seq::empty()) == 0,
        digits_value(text.push(digit)) == 10 * digits_value(text) + (digit as int - 48),
        digits_value(seq!['0'] + text) == digits_value(text),
    decreases text.len(),
{
    assert(text.push(digit).drop_last() =~= text);
    let padded = seq!['0'] + text;
    if text.len() == 0 {
        assert(padded.drop_last() =~= Seq::<char>::empty());
        assert(padded.last() == '0');
    } else {
        assert(all_digits(text.drop_last()));
        digits_count_by_tens(text.drop_last(), digit);
        assert(padded.drop_last() =~= seq!['0'] + text.drop_last());
        assert(padded.last() == text.last());
    }
}

/// Decimal spellings are short: none but that of zero begins with a zero.
pub proof fn decimals_have_no_leading_zero(number: nat)
    ensures
        decimal_text(number).len() > 0,
        number > 0 ==> decimal_text(number)[0] != '0',
        number == 0 ==> decimal_text(number) == seq!['0'],
    decreases number,
{
    reveal_strlit("0");
    reveal_strlit("1");
    reveal_strlit("2");
    reveal_strlit("3");
    reveal_strlit("4");
    reveal_strlit("5");
    reveal_strlit("6");
    reveal_strlit("7");
    reveal_strlit("8");
    reveal_strlit("9");
    if number >= 10 {
        decimals_have_no_leading_zero(number / 10);
    } else {
        assert(digit_text(0) =~= seq!['0']);
    }
}

/// A number is read exactly as it is spelled, with or without a plus, if it is
/// within the bound; beyond the bound it is not read at all.
pub proof fn numbers_read_back(number: nat, max: nat)
    ensures
        number <= max ==> unsigned_value(decimal_text(number), max) == Some(number),
        number <= max ==> unsigned_value(seq!['+'] + decimal_text(number), max) == Some(number),
        number > max ==> unsigned_value(decimal_text(number), max) is None,
{
    let text = decimal_text(number);
    decimals_read_back(number);
    assert(is_digit(text[0]));
    let signed = seq!['+'] + text;
    assert(signed.skip(1) =~= text);
}

/// What is no row of digits, but for one sign in front, is no number.
pub proof fn only_digits_are_numbers(text: Seq<char>, max: nat, i: int)
    requires
        0 <= i < text.len(),
        !('0' <= text[i] <= '9'),
        i == 0 ==> text[0] != '+' || text.len() == 1,
    ensures
        unsigned_value(text, max) is None,
        unsigned_value(Seq::empty(), max) is None,
        i > 0 || text[0] != '-' || text.len() == 1 ==> signed_value(text) is None,
{
    assert(!is_digit(text[i]));
    let rest = text.skip(1);
    if i > 0 {
        assert(rest[i - 1] == text[i]);
        assert(!all_digits(rest));
    } else if text.len() == 1 {
        assert(rest =~= Seq::<char>::empty());
    }
}

/// Signed numbers of 32 bits are read exactly as they are spelled.
pub proof fn signed_numbers_read_back(number: int)
    requires
        -2147483648 <= number <= 2147483647,
    ensures
        signed_value(signed_text(number)) == Some(number),
        number >= 0 ==> signed_text(number) == decimal_text(number as nat),
        number < 0 ==> signed_text(number) == seq!['-'] + decimal_text((-number) as nat),
{
    reveal_strlit("-");
    assert("-"@ =~= seq!['-']);
    if number >= 0 {
        let text = decimal_text(number as nat);
        decimals_read_back(number as nat);
        assert(is_digit(text[0]));
        numbers_read_back(number as nat, 2147483647);
    } else {
        let digits = decimal_text((-number) as nat);
        decimals_read_back((-number) as nat);
        let text = signed_text(number);
        assert(text.skip(1) =~= digits);
        assert(text[0] == '-');
        assert(bounded_digits(digits, 2147483648) == Some((-number) as nat));
    }
}

// ---------------------------------------------------------------------------
// White space and words

/// Blanks, tabs and line ends are white space; what prints is not.
pub proof fn white_space_does_not_print(c: char)
    ensures
        c == ' ' || c == '\t' || c == '\n' || c == '\r' ==> is_white_space(c),
        '!' <= c <= '~' ==> !is_white_space(c),
        is_white_space(c) <==> {
            ||| c == ' ' || c == '\t' || c == '\n' || c == '\u{b}' || c == '\u{c}' || c == '\r'
            ||| c == '\u{85}' || c == '\u{a0}' || c == '\u{1680}' || '\u{2000}' <= c <= '\u{200a}'
            ||| c == '\u{2028}' || c == '\u{2029}' || c == '\u{202f}' || c == '\u{205f}' || c == '\u{3000}'
        },
{
}

/// Trimming takes away all the white space around a text and nothing else.
pub proof fn trimming_takes_only_what_is_around(before: Seq<char>, inner: Seq<char>, behind: Seq<char>)
    requires
        forall|i: int| 0 <= i < before.len() ==> is_white_space(#[trigger] before[i]),
        forall|i: int| 0 <= i < behind.len() ==> is_white_space(#[trigger] behind[i]),
        inner.len() > 0 ==> !is_white_space(inner[0]) && !is_white_space(inner.last()),
    ensures
        trim_text(before + inner + behind) == inner,
{
    let text = before + inner + behind;
    if inner.len() > 0 {
        let from = before.len() as int;
        let to = from + inner.len();
        assert forall|i: int| 0 <= i < from implies is_white_space(#[trigger] text[i]) by {
            assert(text[i] == before[i]);
        }
        assert forall|i: int| to <= i < text.len() implies is_white_space(#[trigger] text[i]) by {
            assert(text[i] == behind[i - to]);
        }
        assert(text[from] == inner[0]);
        assert(text[to - 1] == inner.last());
        assert(is_trim_range(text, from, to));
        assert(text.subrange(from, to) =~= inner);
    } else {
        let end = text.len() as int;
        assert forall|i: int| 0 <= i < end implies is_white_space(#[trigger] text[i]) by {
            if i < before.len() {
                assert(text[i] == before[i]);
            } else {
                assert(text[i] == behind[i - before.len()]);
            }
        }
        assert(is_trim_range(text, end, end));
        assert(text.subrange(end, end) =~= inner);
    }
    assert(is_trim_of(inner, text));
    trim_is_unique(inner, trim_text(text), text);
}

/// The two characters are the same letter, small or capital, or the same
/// character.
pub open spec fn same_but_for_capitals(c: char, wanted: char) -> bool {
    c == wanted || ('A' <= c <= 'Z' && wanted as int == c as int + 32)
}

/// A text mentions a word in small letters wherever the word stands in it,
/// whatever stands around it and whichever letters are capitals.
pub proof fn words_are_found_wherever_they_stand(before: Seq<char>, word: Seq<char>, behind: Seq<char>, needle: Seq<char>)
    requires
        word.len() == needle.len(),
        forall|i: int| 0 <= i < needle.len() ==> same_but_for_capitals(word[i], #[trigger] needle[i]),
        forall|i: int| 0 <= i < needle.len() ==> !('A' <= #[trigger] needle[i] <= 'Z'),
    ensures
        mentions(before + word + behind, needle),
{
    let text = before + word + behind;
    let at = before.len() as int;
    assert forall|i: int| 0 <= i < needle.len() implies small_letter(#[trigger] text[at + i]) == needle[i] by {
        assert(text[at + i] == word[i]);
        let c = word[i];
        let wanted = needle[i];
        assert(same_but_for_capitals(c, wanted));
        if 'A' <= c <= 'Z' {
            assert(wanted as int == c as int + 32);
        }
    }
    assert(stands_at(text, needle, at));
}

/// The word stands in the text at that place, capitals apart.
pub open spec fn is_written_at(text: Seq<char>, needle: Seq<char>, at: int) -> bool {
    &&& 0 <= at <= text.len() - needle.len()
    &&& forall|i: int| 0 <= i < needle.len() ==> same_but_for_capitals(#[trigger] text[at + i], needle[i])
}

/// What a text mentions stands in it, capitals apart.
pub proof fn mentioned_words_stand_somewhere(text: Seq<char>, needle: Seq<char>)
    requires
        mentions(text, needle),
        forall|i: int| 0 <= i < needle.len() ==> !('A' <= #[trigger] needle[i] <= 'Z'),
    ensures
        exists|at: int| is_written_at(text, needle, at),
{
    let at = choose|at: int| #[trigger] stands_at(text, needle, at);
    assert forall|i: int| 0 <= i < needle.len() implies same_but_for_capitals(#[trigger] text[at + i], needle[i]) by {
        assert(small_letter(text[at + i]) == needle[i]);
    }
    assert(is_written_at(text, needle, at));
}

// ---------------------------------------------------------------------------
// Pairs

/// A text is taken apart at its first separator, and only there.
pub proof fn pairs_part_at_the_first_separator(name: Seq<char>, value: Seq<char>, separator: char)
    requires
        !name.contains(separator),
    ensures
        split_pair(name.push(separator) + value, separator) == Some((name, value)),
        split_pair(name, separator) is None,
    decreases name.len(),
{
    let whole = name.push(separator) + value;
    first_place_after(name, value, separator);
    assert(whole.take(name.len() as int) =~= name);
    assert(whole.skip(name.len() as int + 1) =~= value);
    no_first_place(name, separator);
}

proof fn first_place_after(name: Seq<char>, value: Seq<char>, separator: char)
    requires
        !name.contains(separator),
    ensures
        first_place(name.push(separator) + value, separator) == name.len(),
    decreases name.len(),
{
    let whole = name.push(separator) + value;
    if name.len() > 0 {
        assert(name.contains(name[0]));
        let rest = name.drop_first();
        assert forall|c: char| rest.contains(c) implies name.contains(c) by {
            let i = choose|i: int| 0 <= i < rest.len() && rest[i] == c;
            assert(name[i + 1] == c);
        }
        first_place_after(rest, value, separator);
        assert(whole.drop_first() =~= rest.push(separator) + value);
    }
}

proof fn no_first_place(text: Seq<char>, separator: char)
    requires
        !text.contains(separator),
    ensures
        first_place(text, separator) == text.len(),
    decreases text.len(),
{
    if text.len() > 0 {
        assert(text.contains(text[0]));
        let rest = text.drop_first();
        assert forall|c: char| rest.contains(c) implies text.contains(c) by {
            let i = choose|i: int| 0 <= i < rest.len() && rest[i] == c;
            assert(text[i + 1] == c);
        }
        no_first_place(rest, separator);
    }
}

} // verus!
