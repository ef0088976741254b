//! What splitting and removing do to a text, and what numerals stand for.

use crate::decimal;
use crate::text;
use vstd::prelude::*;

verus! {

/// The characters of a list of strings are those of its strings, one by one.
pub proof fn views_are_the_characters(strings: Seq<String>)
    ensures
        text::views(strings).len() == strings.len(),
        forall|i: int| 0 <= i < strings.len() ==> #[trigger] text::views(strings)[i] == strings[i]@,
{
}

/// A text without the separator is its only piece.
pub proof fn unseparated_texts_are_one_piece(s: Seq<char>, sep: char)
    requires
        !s.contains(sep),
    ensures
        text::split(s, sep) == seq![s],
{
    text::lemma_first_index(s, sep);
    if text::first_index(s, sep) < s.len() {
        assert(s.contains(s[text::first_index(s, sep)]));
    }
}

/// The pieces of two texts with a separator between them are those of the first, and after them
/// those of the second.
pub proof fn separators_split(a: Seq<char>, sep: char, b: Seq<char>)
    ensures
        text::split(a + seq![sep] + b, sep) == text::split(a, sep) + text::split(b, sep),
    decreases a.len(),
{
    let s = a + seq![sep] + b;
    text::lemma_first_index(a, sep);
    let i = text::first_index(a, sep);
    assert(s[a.len() as int] == sep);
    assert forall|j: int| 0 <= j < i implies s[j] != sep by {
        assert(s[j] == a[j]);
    }
    assert(s[i] == sep);
    text::lemma_first_index_unique(s, sep, i);
    assert(s.take(i) =~= a.take(i));
    if i < a.len() {
        let rest = a.skip(i + 1);
        separators_split(rest, sep, b);
        assert(s.skip(i + 1) =~= rest + seq![sep] + b);
        assert(text::split(s, sep) =~= seq![a.take(i)] + (text::split(rest, sep) + text::split(
            b,
            sep,
        )));
        assert(text::split(a, sep) == seq![a.take(i)] + text::split(rest, sep));
        assert(text::split(s, sep) =~= text::split(a, sep) + text::split(b, sep));
    } else {
        assert(a.take(i) =~= a);
        assert(s.skip(i + 1) =~= b);
        assert(text::split(s, sep) =~= text::split(a, sep) + text::split(b, sep));
    }
}

/// A text in which a pattern does not occur is left as it is.
pub proof fn absent_patterns_remove_nothing(s: Seq<char>, pattern: Seq<char>)
    requires
        forall|i: int| 0 <= i <= s.len() ==> !pattern.is_prefix_of(#[trigger] s.skip(i)),
    ensures
        text::without(s, pattern) == s,
    decreases s.len(),
{
    if s.len() > 0 {
        let rest = s.drop_first();
        assert forall|i: int| 0 <= i <= rest.len() implies !pattern.is_prefix_of(
            #[trigger] rest.skip(i),
        ) by {
            assert(rest.skip(i) =~= s.skip(i + 1));
        }
        absent_patterns_remove_nothing(rest, pattern);
        assert(s.skip(0) =~= s);
        assert(seq![s[0]] + rest =~= s);
    }
}

/// Where a pattern first occurs, it is taken out; what stands before it stays, and what follows is
/// treated alike.
pub proof fn patterns_are_taken_out(a: Seq<char>, pattern: Seq<char>, b: Seq<char>)
    requires
        pattern.len() > 0,
        forall|i: int|
            0 <= i < a.len() ==> !pattern.is_prefix_of(#[trigger] (a + pattern + b).skip(i)),
    ensures
        text::without(a + pattern + b, pattern) == a + text::without(b, pattern),
    decreases a.len(),
{
    let s = a + pattern + b;
    if a.len() == 0 {
        assert(s =~= pattern + b);
        assert(pattern.is_prefix_of(s)) by {
            assert(s.subrange(0, pattern.len() as int) =~= pattern);
        }
        assert(s.skip(pattern.len() as int) =~= b);
        assert(a + text::without(b, pattern) =~= text::without(b, pattern));
    } else {
        let rest = a.drop_first();
        assert(s.skip(0) =~= s);
        assert(!pattern.is_prefix_of(s.skip(0)));
        assert(s.drop_first() =~= rest + pattern + b);
        assert forall|i: int| 0 <= i < rest.len() implies !pattern.is_prefix_of(
            #[trigger] (rest + pattern + b).skip(i),
        ) by {
            assert((rest + pattern + b).skip(i) =~= s.skip(i + 1));
        }
        patterns_are_taken_out(rest, pattern, b);
        assert(seq![s[0]] + (rest + text::without(b, pattern)) =~= a + text::without(b, pattern));
    }
}

/// A further digit makes a number ten times as large and adds the digit.
pub proof fn digits_are_positional(digits: Seq<char>, digit: char)
    requires
        '0' <= digit <= '9',
    ensures
        decimal::value(Seq::empty()) == 0,
        decimal::value(digits.push(digit)) == 10 * decimal::value(digits) + (digit as int
            - '0' as int),
{
    assert(digits.push(digit).drop_last() =~= digits);
}

/// Digits stand for a number where it is not too large for 64 bits, also after a plus sign.
pub proof fn digits_are_numbers(digits: Seq<char>)
    requires
        digits.len() > 0,
        forall|i: int| 0 <= i < digits.len() ==> '0' <= #[trigger] digits[i] <= '9',
    ensures
        decimal::number(digits) is Some <==> decimal::value(digits) < 0x1_0000_0000_0000_0000,
        decimal::number(digits) matches Some(n) ==> n == decimal::value(digits),
        decimal::number(seq!['+'] + digits) == decimal::number(digits),
{
    assert('0' <= digits[0] <= '9');
    assert((seq!['+'] + digits).skip(1) =~= digits);
    assert(forall|i: int| 0 <= i < digits.len() ==> decimal::is_digit(#[trigger] digits[i]));
}

/// Nothing else stands for a number: not the empty text, nor a plus sign alone, nor a text with
/// anything but digits and a plus sign before them.
pub proof fn other_texts_are_no_numbers(text: Seq<char>, i: int)
    requires
        text.len() == 0 || text == seq!['+'] || (0 <= i < text.len() && !('0' <= text[i] <= '9')
            && (i > 0 || text[i] != '+')),
    ensures
        decimal::number(text) is None,
{
    if text.len() > 0 && text != seq!['+'] {
        let digits = decimal::unsigned(text);
        if text[0] == '+' {
            if i == 0 {
                assert(false);
            }
            assert(digits[i - 1] == text[i]);
            assert(!decimal::is_digit(digits[i - 1]));
        } else {
            assert(digits[i] == text[i]);
            assert(!decimal::is_digit(digits[i]));
        }
    }
}

/// The numeral of a number has digits alone, does not start with a zero unless it is the only
/// digit, and stands for the number.
pub proof fn numerals_stand_for_their_numbers(n: nat)
    ensures
        decimal::numeral(n).len() > 0,
        forall|i: int|
            0 <= i < decimal::numeral(n).len() ==> '0' <= #[trigger] decimal::numeral(n)[i] <= '9',
        decimal::numeral(n).len() > 1 ==> decimal::numeral(n)[0] != '0',
        decimal::value(decimal::numeral(n)) == n,
    decreases n,
{
    reveal_with_fuel(decimal::value, 2);
    if n < 10 {
        assert(decimal::numeral(n).drop_last() =~= Seq::<char>::empty());
    } else {
        numerals_stand_for_their_numbers(n / 10);
        assert(decimal::numeral(n).drop_last() =~= decimal::numeral(n / 10));
        assert(decimal::numeral(n)[0] == decimal::numeral(n / 10)[0]);
        if n / 10 < 10 {
            assert(decimal::numeral(n / 10)[0] == (48 + n / 10) as char);
        }
    }
}

} // verus!
