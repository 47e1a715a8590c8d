//! Non-negative integers in decimal notation.

use vstd::prelude::*;

verus! {

/// Whether `c` is one of the ten ASCII digits.
pub open spec fn is_digit(c: char) -> bool {
    '0' <= c <= '9'
}

/// The value of an ASCII digit.
pub open spec fn digit_value(c: char) -> nat {
    (c as int - '0' as int) as nat
}

/// Whether `text` consists of ASCII digits alone.
pub open spec fn all_digits(text: Seq<char>) -> bool {
    forall|i: int| 0 <= i < text.len() ==> is_digit(#[trigger] text[i])
}

/// The number that a sequence of digits denotes in base ten. Leading zeros
/// do not change it.
pub open spec fn digits_value(digits: Seq<char>) -> nat
    decreases digits.len(),
{
    if digits.len() == 0 {
        0
    } else {
        10 * digits_value(digits.drop_last()) + digit_value(digits.last())
    }
}

/// `text` without one leading plus sign, if it has one.
pub open spec fn without_plus(text: Seq<char>) -> Seq<char> {
    if text.len() > 0 && text[0] == '+' {
        text.drop_first()
    } else {
        text
    }
}

/// The count that `text` denotes: an optional plus sign followed by one or
/// more ASCII digits whose value fits in a `usize`. Anything else, the
/// empty text, a lone sign, a minus sign, a blank or a letter, denotes
/// none.
pub open spec fn parsed_count(text: Seq<char>) -> Option<usize> {
    let digits = without_plus(text);
    if digits.len() > 0 && all_digits(digits) && digits_value(digits) <= usize::MAX {
        Some(digits_value(digits) as usize)
    } else {
        None
    }
}

/// The decimal notation of `n`, without sign or leading zeros.
pub open spec fn decimal(n: nat) -> Seq<char>
    decreases n,
{
    if n < 10 {
        seq![digit_char(n)]
    } else {
        decimal(n / 10).push(digit_char(n % 10))
    }
}

/// The ASCII digit for a value below ten.
pub open spec fn digit_char(d: nat) -> char {
    (d + '0' as nat) as char
}

/// Reading more digits never gives a smaller number.
pub proof fn lemma_digits_value_grows(digits: Seq<char>, k: int)
    requires
        0 <= k <= digits.len(),
    ensures
        digits_value(digits.take(k)) <= digits_value(digits),
    decreases digits.len() - k,
{
    if k < digits.len() {
        lemma_digits_value_grows(digits, k + 1);
        assert(digits.take(k + 1).drop_last() =~= digits.take(k));
    } else {
        assert(digits.take(k) =~= digits);
    }
}

/// What is written by `decimal` is read back by `parsed_count`.
pub proof fn lemma_decimal_round_trip(n: usize)
    ensures
        parsed_count(decimal(n as nat)) == Some(n),
{
    lemma_decimal_digits(n as nat);
}

/// The notation of `n` consists of at least one digit, digits alone, and
/// denotes `n`.
pub proof fn lemma_decimal_digits(n: nat)
    ensures
        decimal(n).len() >= 1,
        all_digits(decimal(n)),
        digits_value(decimal(n)) == n,
        without_plus(decimal(n)) == decimal(n),
    decreases n,
{
    if n < 10 {
        let d = decimal(n);
        assert(d.drop_last() =~= Seq::<char>::empty());
        assert(digit_value(d[0]) == n);
        assert(digits_value(d.drop_last()) == 0);
    } else {
        lemma_decimal_digits(n / 10);
        let front = decimal(n / 10);
        let d = decimal(n);
        assert(d.drop_last() =~= front);
        assert(digit_value(d.last()) == n % 10);
        assert(d[0] == front[0]);
    }
}

/// Reads a count in decimal notation, as `parsed_count` defines it. `None`
/// is returned for text that denotes no count or one too large for a
/// `usize`.
pub fn parse_count(text: &str) -> (count: Option<usize>)
    ensures
        count == parsed_count(text@),
{
    let mut value: usize = 0;
    let mut any_digit: bool = false;
    let mut signed: bool = false;
    let ghost digits = without_plus(text@);
    let ghost mut seen: int = 0;
    for c in it: text.chars()
        invariant
            it.seq() == text@,
            digits == without_plus(text@),
            signed <==> (it.index() > 0 && text@[0] == '+'),
            seen == it.index() - if signed { 1int } else { 0int },
            0 <= seen <= digits.len(),
            any_digit <==> seen > 0,
            all_digits(digits.take(seen)),
            value == digits_value(digits.take(seen)),
    {
        if c == '+' && !any_digit && !signed {
            signed = true;
        } else if c >= '0' && c <= '9' {
            let d: usize = (c as u32 - '0' as u32) as usize;
            proof {
                assert(digits[seen] == c);
                assert(digits.take(seen + 1).drop_last() =~= digits.take(seen));
                lemma_digits_value_grows(digits, seen + 1);
            }
            if value > (usize::MAX - d) / 10 {
                return None;
            }
            value = value * 10 + d;
            any_digit = true;
            proof {
                seen = seen + 1;
            }
        } else {
            proof {
                assert(digits[seen] == c);
                assert(!is_digit(digits[seen]));
            }
            return None;
        }
    }
    proof {
        assert(digits.take(seen) =~= digits);
    }
    if any_digit {
        Some(value)
    } else {
        None
    }
}

/// Writes `n` in decimal notation.
pub fn decimal_string(n: usize) -> (text: String)
    ensures
        text@ == decimal(n as nat),
    decreases n,
{
    if n < 10 {
        let mut text = String::new();
        text.push(digit_of(n));
        text
    } else {
        let mut text = decimal_string(n / 10);
        text.push(digit_of(n % 10));
        text
    }
}

/// The ASCII digit for a value below ten.
fn digit_of(d: usize) -> (c: char)
    requires
        d < 10,
    ensures
        c == digit_char(d as nat),
{
    (d as u8 + 48u8) as char
}

} // verus!
