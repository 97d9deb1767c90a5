//! Text helpers: equality, order, searching and number rendering over
//! sequences of characters.

use vstd::prelude::*;

verus! {

/// `a` comes strictly before `b` in lexicographic code point order, which is
/// also the order of their UTF-8 encodings.
pub open spec fn text_less(a: Seq<char>, b: Seq<char>) -> bool
    decreases a.len(),
{
    if b.len() == 0 {
        false
    } else if a.len() == 0 {
        true
    } else if a[0] == b[0] {
        text_less(a.drop_first(), b.drop_first())
    } else {
        a[0] < b[0]
    }
}

/// Nothing comes before itself.
pub proof fn text_order_irreflexive(a: Seq<char>)
    ensures
        !text_less(a, a),
    decreases a.len(),
{
    if a.len() > 0 {
        text_order_irreflexive(a.drop_first());
    }
}

/// Of two texts one comes first, unless they are the same.
pub proof fn text_order_total(a: Seq<char>, b: Seq<char>)
    ensures
        text_less(a, b) || text_less(b, a) || a == b,
        !(text_less(a, b) && text_less(b, a)),
    decreases a.len(),
{
    if a.len() == 0 || b.len() == 0 {
        if a.len() == 0 && b.len() == 0 {
            assert(a =~= b);
        }
    } else if a[0] == b[0] {
        text_order_total(a.drop_first(), b.drop_first());
        if a.drop_first() == b.drop_first() {
            assert(a =~= seq![a[0]] + a.drop_first());
            assert(b =~= seq![b[0]] + b.drop_first());
        }
    }
}

/// The order is transitive.
pub proof fn text_order_transitive(a: Seq<char>, b: Seq<char>, c: Seq<char>)
    requires
        text_less(a, b),
        text_less(b, c),
    ensures
        text_less(a, c),
    decreases a.len(),
{
    if a.len() > 0 && a[0] == b[0] && b[0] == c[0] {
        text_order_transitive(a.drop_first(), b.drop_first(), c.drop_first());
    }
}

proof fn text_less_after_common_prefix(a: Seq<char>, b: Seq<char>, n: int)
    requires
        0 <= n <= a.len(),
        n <= b.len(),
        a.take(n) == b.take(n),
    ensures
        text_less(a, b) == text_less(a.skip(n), b.skip(n)),
    decreases n,
{
    if n == 0 {
        assert(a.skip(0) =~= a);
        assert(b.skip(0) =~= b);
    } else {
        assert(a[0] == a.take(n)[0]);
        assert(b[0] == b.take(n)[0]);
        assert(a.drop_first().take(n - 1) =~= a.take(n).drop_first());
        assert(b.drop_first().take(n - 1) =~= b.take(n).drop_first());
        text_less_after_common_prefix(a.drop_first(), b.drop_first(), n - 1);
        assert(a.drop_first().skip(n - 1) =~= a.skip(n));
        assert(b.drop_first().skip(n - 1) =~= b.skip(n));
    }
}

/// The characters of a text, in order.
pub fn characters(text: &str) -> (list: Vec<char>)
    ensures
        list@ == text@,
{
    let mut list: Vec<char> = Vec::new();
    for c in it: text.chars()
        invariant
            list@.len() == it.index(),
            it.seq() == text@,
            forall|i: int| 0 <= i < list@.len() ==> list@[i] == it.seq()[i],
    {
        list.push(c);
    }
    assert(list@ =~= text@);
    list
}

/// Whether two texts hold the same characters.
pub fn same_text(a: &str, b: &str) -> (same: bool)
    ensures
        same == (a@ == b@),
{
    let left = characters(a);
    let right = characters(b);
    if left.len() != right.len() {
        return false;
    }
    let mut i: usize = 0;
    while i < left.len()
        invariant
            i <= left.len(),
            left.len() == right.len(),
            left@ == a@,
            right@ == b@,
            forall|j: int| 0 <= j < i ==> left@[j] == right@[j],
        decreases left.len() - i,
    {
        if left[i] != right[i] {
            return false;
        }
        i += 1;
    }
    assert(a@ =~= b@);
    true
}

/// Whether `a` comes strictly before `b`.
pub fn text_before(a: &str, b: &str) -> (before: bool)
    ensures
        before == text_less(a@, b@),
{
    let left = characters(a);
    let right = characters(b);
    let mut i: usize = 0;
    while i < left.len() && i < right.len() && left[i] == right[i]
        invariant
            i <= left.len(),
            i <= right.len(),
            left@ == a@,
            right@ == b@,
            left@.take(i as int) == right@.take(i as int),
        decreases left.len() - i,
    {
        assert(left@.take(i + 1) =~= left@.take(i as int).push(left@[i as int]));
        assert(right@.take(i + 1) =~= right@.take(i as int).push(right@[i as int]));
        i += 1;
    }
    proof {
        text_less_after_common_prefix(a@, b@, i as int);
    }
    if i >= right.len() {
        false
    } else if i >= left.len() {
        true
    } else {
        left[i] < right[i]
    }
}

/// The text that spells one decimal digit.
pub open spec fn digit_text(digit: int) -> Seq<char> {
    if digit == 0 { "0"@ }
    else if digit == 1 { "1"@ }
    else if digit == 2 { "2"@ }
    else if digit == 3 { "3"@ }
    else if digit == 4 { "4"@ }
    else if digit == 5 { "5"@ }
    else if digit == 6 { "6"@ }
    else if digit == 7 { "7"@ }
    else if digit == 8 { "8"@ }
    else { "9"@ }
}

/// The decimal spelling of a natural number, without leading zeros.
pub open spec fn decimal_text(number: nat) -> Seq<char>
    decreases number,
{
    if number < 10 {
        digit_text(number as int)
    } else {
        decimal_text(number / 10) + digit_text((number % 10) as int)
    }
}

fn digit(value: u64) -> (text: &'static str)
    requires
        value < 10,
    ensures
        text@ == digit_text(value as int),
{
    if value == 0 { "0" }
    else if value == 1 { "1" }
    else if value == 2 { "2" }
    else if value == 3 { "3" }
    else if value == 4 { "4" }
    else if value == 5 { "5" }
    else if value == 6 { "6" }
    else if value == 7 { "7" }
    else if value == 8 { "8" }
    else { "9" }
}

/// Renders a number in decimal.
pub fn decimal(number: u64) -> (text: String)
    ensures
        text@ == decimal_text(number as nat),
    decreases number,
{
    if number < 10 {
        digit(number).to_owned()
    } else {
        let mut text = decimal(number / 10);
        text.append(digit(number % 10));
        text
    }
}

/// The decimal spelling of a signed number.
pub open spec fn signed_text(number: int) -> Seq<char> {
    if number < 0 {
        "-"@ + decimal_text((-number) as nat)
    } else {
        decimal_text(number as nat)
    }
}

/// Renders a signed number in decimal.
pub fn signed_decimal(number: i32) -> (text: String)
    ensures
        text@ == signed_text(number as int),
{
    if number < 0 {
        let magnitude: i64 = -(number as i64);
        let mut text = "-".to_owned();
        text.append(decimal(magnitude as u64).as_str());
        text
    } else {
        decimal(number as u64)
    }
}

/// Joins two texts.
pub fn joined(a: &str, b: &str) -> (text: String)
    ensures
        text@ == a@ + b@,
{
    let mut text = a.to_owned();
    text.append(b);
    text
}

} // verus!
