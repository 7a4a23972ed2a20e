//! Whole numbers written in decimal.

use vstd::prelude::*;

verus! {

/// The character for the digit `d`, for `d` from 0 to 9.
pub open spec fn digit(d: int) -> char {
    if d == 0 {
        '0'
    } else if d == 1 {
        '1'
    } else if d == 2 {
        '2'
    } else if d == 3 {
        '3'
    } else if d == 4 {
        '4'
    } else if d == 5 {
        '5'
    } else if d == 6 {
        '6'
    } else if d == 7 {
        '7'
    } else if d == 8 {
        '8'
    } else {
        '9'
    }
}

/// The digits of `n`, most significant first and without leading zeros.
pub open spec fn digits(n: nat) -> Seq<char>
    decreases n,
{
    if n < 10 {
        seq![digit(n as int)]
    } else {
        digits(n / 10).push(digit((n % 10) as int))
    }
}

/// `v` in decimal: its digits, after a minus sign where `v` is negative.
pub open spec fn decimal(v: int) -> Seq<char> {
    if v < 0 {
        seq!['-'] + digits((-v) as nat)
    } else {
        digits(v as nat)
    }
}

/// The digit that the character `c` stands for.
pub open spec fn digit_value(c: char) -> int {
    if c == '0' {
        0
    } else if c == '1' {
        1
    } else if c == '2' {
        2
    } else if c == '3' {
        3
    } else if c == '4' {
        4
    } else if c == '5' {
        5
    } else if c == '6' {
        6
    } else if c == '7' {
        7
    } else if c == '8' {
        8
    } else {
        9
    }
}

/// The number that the digits `text` spell.
pub open spec fn number(text: Seq<char>) -> int
    decreases text.len(),
{
    if text.len() == 0 {
        0
    } else {
        10 * number(text.drop_last()) + digit_value(text.last())
    }
}

/// The digits of a number spell that number.
pub proof fn lemma_digits_spell_number(n: nat)
    ensures
        number(digits(n)) == n,
    decreases n,
{
    if n < 10 {
        assert(digits(n).drop_last() =~= Seq::empty());
        assert(number(digits(n).drop_last()) == 0);
    } else {
        lemma_digits_spell_number(n / 10);
        assert(digits(n).drop_last() =~= digits(n / 10));
    }
}

/// The digits of a number are at least one, and the first is no minus sign.
pub proof fn lemma_digits_begin_with_digit(n: nat)
    ensures
        digits(n).len() > 0,
        digits(n)[0] != '-',
    decreases n,
{
    if n >= 10 {
        lemma_digits_begin_with_digit(n / 10);
    }
}

/// Two numbers written alike are one number.
pub proof fn lemma_decimal_tells_numbers_apart(a: int, b: int)
    requires
        decimal(a) == decimal(b),
    ensures
        a == b,
{
    let abs_a: nat = if a < 0 { (-a) as nat } else { a as nat };
    let abs_b: nat = if b < 0 { (-b) as nat } else { b as nat };
    lemma_digits_begin_with_digit(abs_a);
    lemma_digits_begin_with_digit(abs_b);
    lemma_digits_spell_number(abs_a);
    lemma_digits_spell_number(abs_b);
    assert((seq!['-'] + digits(abs_a))[0] == '-');
    assert((seq!['-'] + digits(abs_b))[0] == '-');
    if a < 0 && b < 0 {
        assert((seq!['-'] + digits(abs_a)).skip(1) =~= digits(abs_a));
        assert((seq!['-'] + digits(abs_b)).skip(1) =~= digits(abs_b));
    }
}

/// The text of one digit.
fn digit_str(d: u8) -> (text: &'static str)
    requires
        d < 10,
    ensures
        text@ == seq![digit(d as int)],
{
    proof {
        reveal_strlit("0");
        reveal_strlit("1");
        reveal_strlit("2");
        reveal_strlit("3");
        reveal_strlit("4");
        reveal_strlit("5");
        reveal_strlit("6");
        reveal_strlit("7");
        reveal_strlit("8");
        reveal_strlit("9");
    }
    let text = match d {
        0 => "0",
        1 => "1",
        2 => "2",
        3 => "3",
        4 => "4",
        5 => "5",
        6 => "6",
        7 => "7",
        8 => "8",
        _ => "9",
    };
    assert(text@ =~= seq![digit(d as int)]);
    text
}

/// Appends the digits of `n` to `text`.
fn push_digits(text: &mut String, n: u64)
    ensures
        final(text)@ == old(text)@ + digits(n as nat),
    decreases n,
{
    if n >= 10 {
        push_digits(text, n / 10);
    }
    text.append(digit_str((n % 10) as u8));
    assert(text@ =~= old(text)@ + digits(n as nat));
}

/// Writes `v` in decimal.
pub fn to_decimal(v: i64) -> (text: String)
    ensures
        text@ == decimal(v as int),
{
    let mut text = String::new();
    if v < 0 {
        text.append("-");
        proof {
            reveal_strlit("-");
            assert(text@ =~= seq!['-']);
        }
        push_digits(&mut text, (-(v + 1)) as u64 + 1);
    } else {
        push_digits(&mut text, v as u64);
        assert(text@ =~= digits(v as nat));
    }
    text
}

} // verus!
