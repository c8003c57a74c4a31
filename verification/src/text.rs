//! Small helpers on texts: their characters, and whole numbers written in
//! decimal digits.

use vstd::prelude::*;

verus! {

/// `String::push` appends exactly one character to the end of the string.
pub assume_specification[ String::push ](s: &mut String, ch: char)
    ensures
        final(s)@ == old(s)@.push(ch),
;

/// The characters of a text, in order.
pub fn chars_of(text: &str) -> (chars: Vec<char>)
    ensures
        chars@ == text@,
{
    let mut chars: Vec<char> = Vec::new();
    for c in iter: text.chars()
        invariant
            chars@ == iter.seq().take(iter.index() as int),
            iter.seq() == text@,
    {
        chars.push(c);
    }
    chars
}

/// The texts of a run of strings, in order.
pub open spec fn texts_of(strings: Seq<String>) -> Seq<Seq<char>> {
    strings.map_values(|s: String| s@)
}

/// The digit that stands for a number below ten.
pub open spec fn digit_char(digit: nat) -> char {
    if digit == 0 {
        '0'
    } else if digit == 1 {
        '1'
    } else if digit == 2 {
        '2'
    } else if digit == 3 {
        '3'
    } else if digit == 4 {
        '4'
    } else if digit == 5 {
        '5'
    } else if digit == 6 {
        '6'
    } else if digit == 7 {
        '7'
    } else if digit == 8 {
        '8'
    } else {
        '9'
    }
}

/// The number that a decimal digit stands for. Only the ten digits `0` to
/// `9` are decimal digits.
pub open spec fn digit_value(c: char) -> Option<nat> {
    if c == '0' {
        Some(0)
    } else if c == '1' {
        Some(1)
    } else if c == '2' {
        Some(2)
    } else if c == '3' {
        Some(3)
    } else if c == '4' {
        Some(4)
    } else if c == '5' {
        Some(5)
    } else if c == '6' {
        Some(6)
    } else if c == '7' {
        Some(7)
    } else if c == '8' {
        Some(8)
    } else if c == '9' {
        Some(9)
    } else {
        None
    }
}

/// A number written in decimal digits, without leading zeros but for zero itself.
pub open spec fn decimal_text(n: nat) -> Seq<char>
    decreases n,
{
    if n < 10 {
        seq![digit_char(n)]
    } else {
        decimal_text(n / 10).push(digit_char(n % 10))
    }
}

/// The number that a run of decimal digits stands for: zero for no digit at
/// all, and none where something else than a digit occurs.
pub open spec fn digits_value(digits: Seq<char>) -> Option<nat>
    decreases digits.len(),
{
    if digits.len() == 0 {
        Some(0)
    } else {
        match (digits_value(digits.drop_last()), digit_value(digits.last())) {
            (Some(front), Some(last)) => Some(10 * front + last),
            _ => None,
        }
    }
}

/// The number that a text stands for, if it is made of decimal digits, at
/// least one, and the number fits in 32 bits.
pub open spec fn decimal_u32(text: Seq<char>) -> Option<u32> {
    match digits_value(text) {
        Some(value) => if text.len() > 0 && value <= u32::MAX {
            Some(value as u32)
        } else {
            None
        },
        None => None,
    }
}

/// A number is read back from the digits it is written in.
pub proof fn lemma_decimal_round_trip(n: nat)
    ensures
        digits_value(decimal_text(n)) == Some(n),
        decimal_text(n).len() > 0,
        n <= u32::MAX ==> decimal_u32(decimal_text(n)) == Some(n as u32),
    decreases n,
{
    if n < 10 {
        let text = decimal_text(n);
        assert(text.drop_last() =~= Seq::empty());
        assert(digits_value(text.drop_last()) == Some(0nat));
    } else {
        lemma_decimal_round_trip(n / 10);
        let text = decimal_text(n);
        assert(text.drop_last() == decimal_text(n / 10));
        assert(text.last() == digit_char(n % 10));
    }
}

/// The digit that stands for `digit`.
fn digit_of(digit: u64) -> (c: char)
    requires
        digit < 10,
    ensures
        c == digit_char(digit as nat),
{
    if digit == 0 {
        '0'
    } else if digit == 1 {
        '1'
    } else if digit == 2 {
        '2'
    } else if digit == 3 {
        '3'
    } else if digit == 4 {
        '4'
    } else if digit == 5 {
        '5'
    } else if digit == 6 {
        '6'
    } else if digit == 7 {
        '7'
    } else if digit == 8 {
        '8'
    } else {
        '9'
    }
}

/// The number that the digit `c` stands for.
fn value_of(c: char) -> (value: Option<u64>)
    ensures
        match value {
            Some(v) => digit_value(c) == Some(v as nat) && v < 10,
            None => digit_value(c) is None,
        },
{
    if c == '0' {
        Some(0)
    } else if c == '1' {
        Some(1)
    } else if c == '2' {
        Some(2)
    } else if c == '3' {
        Some(3)
    } else if c == '4' {
        Some(4)
    } else if c == '5' {
        Some(5)
    } else if c == '6' {
        Some(6)
    } else if c == '7' {
        Some(7)
    } else if c == '8' {
        Some(8)
    } else if c == '9' {
        Some(9)
    } else {
        None
    }
}

/// Writes a number in decimal digits.
pub fn write_decimal(n: u64) -> (text: String)
    ensures
        text@ == decimal_text(n as nat),
{
    let mut reversed: Vec<char> = Vec::new();
    let mut rest = n;
    reversed.push(digit_of(rest % 10));
    rest = rest / 10;
    assert(reversed@.reverse() =~= seq![digit_char((n % 10) as nat)]);
    while rest > 0
        invariant
            reversed@.len() > 0,
            decimal_text(n as nat) == if rest == 0 {
                reversed@.reverse()
            } else {
                decimal_text(rest as nat) + reversed@.reverse()
            },
        decreases rest,
    {
        let ghost before = reversed@;
        reversed.push(digit_of(rest % 10));
        proof {
            assert(reversed@.reverse() =~= seq![digit_char((rest % 10) as nat)] + before.reverse());
            if rest >= 10 {
                assert(decimal_text(rest as nat) + before.reverse() =~= decimal_text(
                    (rest / 10) as nat,
                ) + reversed@.reverse());
            } else {
                assert(decimal_text(rest as nat) + before.reverse() =~= reversed@.reverse());
            }
        }
        rest = rest / 10;
    }
    let mut text = String::new();
    let mut i = reversed.len();
    while i > 0
        invariant
            i <= reversed@.len(),
            text@ == reversed@.reverse().take(reversed@.len() - i),
        decreases i,
    {
        i -= 1;
        text.push(reversed[i]);
        assert(text@ =~= reversed@.reverse().take(reversed@.len() - i));
    }
    assert(reversed@.reverse().take(reversed@.len() as int) == reversed@.reverse());
    text
}

/// Reads a number that is written in decimal digits. A text that holds
/// anything but digits, or none, or stands for a number beyond 32 bits, is
/// no number.
pub fn read_decimal_u32(text: &str) -> (number: Option<u32>)
    ensures
        number == decimal_u32(text@),
{
    let chars = chars_of(text);
    let n = chars.len();
    let mut value: u64 = 0;
    let mut valid = true;
    let mut fits = true;
    let mut i: usize = 0;
    assert(chars@.take(0) =~= Seq::empty());
    while i < n
        invariant
            n == chars@.len(),
            i <= n,
            valid == digits_value(chars@.take(i as int)).is_some(),
            valid ==> fits == (digits_value(chars@.take(i as int)).unwrap() <= u32::MAX),
            valid && fits ==> value == digits_value(chars@.take(i as int)).unwrap(),
        decreases n - i,
    {
        proof {
            assert(chars@.take(i as int + 1).drop_last() == chars@.take(i as int));
            assert(chars@.take(i as int + 1).last() == chars@[i as int]);
        }
        match value_of(chars[i]) {
            Some(digit) => {
                if valid && fits {
                    value = 10 * value + digit;
                    if value > 0xffff_ffff {
                        fits = false;
                    }
                }
            },
            None => {
                valid = false;
            },
        }
        i += 1;
    }
    assert(chars@.take(n as int) == chars@);
    if valid && fits && n > 0 {
        Some(value as u32)
    } else {
        None
    }
}

} // verus!
