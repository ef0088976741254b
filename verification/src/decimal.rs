//! Decimal numerals.

use vstd::prelude::*;
use vstd::string::*;

verus! {

/// Whether `c` is a decimal digit.
pub open spec fn is_digit(c: char) -> bool {
    '0' <= c && c <= '9'
}

/// The number that a sequence of digits stands for.
pub open spec fn value(digits: Seq<char>) -> nat
    decreases digits.len(),
{
    if digits.len() == 0 {
        0
    } else {
        (value(digits.drop_last()) * 10 + (digits.last() as int - '0' as int)) as nat
    }
}

/// The numeral of a number, without leading zeros.
pub open spec fn numeral(n: nat) -> Seq<char>
    decreases n,
{
    if n < 10 {
        seq![(48 + n) as char]
    } else {
        numeral(n / 10).push((48 + n % 10) as char)
    }
}

/// The digits of a numeral: what follows the plus sign that may stand before them.
pub open spec fn unsigned(numeral: Seq<char>) -> Seq<char> {
    if numeral.len() > 0 && numeral[0] == '+' {
        numeral.skip(1)
    } else {
        numeral
    }
}

/// The number that a numeral stands for: one digit or more, after a plus sign or none. There is
/// none where the text is no numeral, or the number does not fit.
pub open spec fn number(numeral: Seq<char>) -> Option<u64> {
    let digits = unsigned(numeral);
    if digits.len() > 0 && (forall|i: int| 0 <= i < digits.len() ==> is_digit(#[trigger] digits[i]))
        && value(digits) <= u64::MAX {
        Some(value(digits) as u64)
    } else {
        None
    }
}

/// More digits never make a number smaller.
proof fn lemma_value_grows(digits: Seq<char>, n: int)
    requires
        0 <= n <= digits.len(),
        forall|i: int| 0 <= i < digits.len() ==> is_digit(#[trigger] digits[i]),
    ensures
        value(digits.take(n)) <= value(digits),
    decreases digits.len() - n,
{
    if n == digits.len() {
        assert(digits.take(n) =~= digits);
    } else {
        assert(digits.take(n + 1).drop_last() =~= digits.take(n));
        assert(is_digit(digits[n]));
        lemma_value_grows(digits, n + 1);
    }
}

/// Reads a decimal numeral.
pub fn parse(text: &str) -> (parsed: Option<u64>)
    ensures
        parsed == number(text@),
{
    let n: usize = text.unicode_len();
    let start: usize = if n > 0 && text.get_char(0) == '+' {
        1
    } else {
        0
    };
    if start == n {
        return None;
    }
    let ghost digits = unsigned(text@);
    assert(digits =~= text@.skip(start as int));
    let mut total: u64 = 0;
    let mut i: usize = start;
    assert(digits.take(0) =~= Seq::<char>::empty());
    while i < n
        invariant
            start <= i <= n,
            n == text@.len(),
            digits == unsigned(text@),
            digits == text@.skip(start as int),
            total == value(digits.take(i - start)),
            forall|k: int| 0 <= k < i - start ==> is_digit(#[trigger] digits[k]),
        decreases n - i,
    {
        let c: char = text.get_char(i);
        assert(c == digits[i - start]);
        assert(digits.take(i - start + 1).drop_last() =~= digits.take(i - start));
        if c < '0' || c > '9' {
            return None;
        }
        let digit: u64 = (c as u32 - '0' as u32) as u64;
        if total > (u64::MAX - digit) / 10 {
            proof {
                assert(value(digits.take(i - start + 1)) > u64::MAX);
                if forall|k: int| 0 <= k < digits.len() ==> is_digit(#[trigger] digits[k]) {
                    lemma_value_grows(digits, i - start + 1);
                }
            }
            return None;
        }
        total = total * 10 + digit;
        i = i + 1;
    }
    assert(digits.take(n - start) =~= digits);
    Some(total)
}

/// The numeral of `n`.
pub fn render(n: u64) -> (text: String)
    ensures
        text@ == numeral(n as nat),
    decreases n,
{
    let digit: usize = (n % 10) as usize;
    proof {
        reveal_strlit("0123456789");
        assert("0123456789"@[0] == '0' && "0123456789"@[1] == '1' && "0123456789"@[2] == '2'
            && "0123456789"@[3] == '3' && "0123456789"@[4] == '4' && "0123456789"@[5] == '5'
            && "0123456789"@[6] == '6' && "0123456789"@[7] == '7' && "0123456789"@[8] == '8'
            && "0123456789"@[9] == '9');
    }
    let last = "0123456789".substring_char(digit, digit + 1);
    assert(last@ =~= seq![(48 + digit) as char]);
    if n < 10 {
        last.to_string()
    } else {
        let text = render(n / 10).concat(last);
        assert(text@ =~= numeral(n as nat));
        text
    }
}

/// A numeral has only digits, and they stand for the number.
proof fn lemma_numeral(n: nat)
    ensures
        numeral(n).len() > 0,
        forall|i: int| 0 <= i < numeral(n).len() ==> is_digit(#[trigger] numeral(n)[i]),
        value(numeral(n)) == n,
    decreases n,
{
    reveal_with_fuel(value, 2);
    if n < 10 {
        assert(numeral(n).drop_last() =~= Seq::<char>::empty());
    } else {
        lemma_numeral(n / 10);
        assert(numeral(n).drop_last() =~= numeral(n / 10));
    }
}

/// Reading the numeral of a number gives the number back.
pub proof fn parsing_undoes_rendering(n: u64)
    ensures
        number(numeral(n as nat)) == Some(n),
{
    lemma_numeral(n as nat);
    assert(is_digit(numeral(n as nat)[0]));
}

/// Different numbers have different numerals.
pub proof fn numerals_are_distinct(m: nat, n: nat)
    requires
        numeral(m) == numeral(n),
    ensures
        m == n,
{
    lemma_numeral(m);
    lemma_numeral(n);
}

} // verus!
