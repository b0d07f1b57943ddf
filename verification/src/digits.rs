//! The number that a file's path carries, and numbers written out in decimal.

use vstd::prelude::*;

verus! {

/// Whether `c` is one of the ten decimal digits `0` to `9`.
pub open spec fn is_digit(c: char) -> bool {
    c == '0' || c == '1' || c == '2' || c == '3' || c == '4' || c == '5' || c == '6' || c == '7'
        || c == '8' || c == '9'
}

/// The number that the digit `c` stands for.
pub open spec fn digit_value(c: char) -> nat {
    if c == '1' {
        1
    } else if c == '2' {
        2
    } else if c == '3' {
        3
    } else if c == '4' {
        4
    } else if c == '5' {
        5
    } else if c == '6' {
        6
    } else if c == '7' {
        7
    } else if c == '8' {
        8
    } else if c == '9' {
        9
    } else {
        0
    }
}

/// The digits of `text`, in the order in which they stand in it.
pub open spec fn digits_of(text: Seq<char>) -> Seq<char> {
    text.filter(|c: char| is_digit(c))
}

/// The number that a string of digits writes in base ten; the empty string
/// writes zero.
pub open spec fn decimal_value(digits: Seq<char>) -> nat
    decreases digits.len(),
{
    if digits.len() == 0 {
        0
    } else {
        10 * decimal_value(digits.drop_last()) + digit_value(digits.last())
    }
}

/// The index that a path gives to its page: the number written by all the
/// digits of the path, read from left to right; zero when the path holds no
/// digit or the number does not fit in a `usize`.
pub open spec fn sequence_index(path: Seq<char>) -> nat {
    let value = decimal_value(digits_of(path));
    if value <= usize::MAX {
        value
    } else {
        0
    }
}

/// Which of the ten digits `c` is, if any.
pub fn digit_of(c: char) -> (value: Option<u8>)
    ensures
        value.is_some() <==> is_digit(c),
        value matches Some(d) ==> d == digit_value(c) && d <= 9,
{
    if c == '0' {
        Some(0)
    } else if c == '1' {
        Some(1)
    } else if c == '2' {
        Some(2)
    } else if c == '3' {
        Some(3)
    } else if c == '4' {
        Some(4)
    } else if c == '5' {
        Some(5)
    } else if c == '6' {
        Some(6)
    } else if c == '7' {
        Some(7)
    } else if c == '8' {
        Some(8)
    } else if c == '9' {
        Some(9)
    } else {
        None
    }
}

/// Appending a character to a text appends it to the digits of the text when
/// it is a digit, and leaves them alone when it is not.
pub proof fn lemma_digits_of_push(text: Seq<char>, c: char)
    ensures
        digits_of(text.push(c)) == if is_digit(c) {
            digits_of(text).push(c)
        } else {
            digits_of(text)
        },
{
    reveal(Seq::filter);
    assert(text.push(c).drop_last() =~= text);
}

/// A longer string of digits never writes a smaller number.
pub proof fn lemma_decimal_value_grows(digits: Seq<char>, c: char)
    ensures
        decimal_value(digits.push(c)) == 10 * decimal_value(digits) + digit_value(c),
        decimal_value(digits.push(c)) >= decimal_value(digits),
{
    assert(digits.push(c).drop_last() =~= digits);
}

/// The index that `path` gives to its page.
pub fn path_to_num(path: &str) -> (index: usize)
    ensures
        index == sequence_index(path@),
{
    let mut value: usize = 0;
    let mut fits = true;
    let chars = path.chars();
    proof {
        vstd::string::axiom_spec_iter(path);
    }
    let ghost mut seen: Seq<char> = Seq::empty();
    proof {
        assert(digits_of(seen) =~= Seq::<char>::empty()) by {
            reveal(Seq::filter);
        }
    }
    for c in it: chars
        invariant
            it.seq() == path@,
            seen == path@.take(it.index()),
            fits ==> value == decimal_value(digits_of(seen)),
            !fits ==> decimal_value(digits_of(seen)) > usize::MAX,
    {
        proof {
            assert(path@.take(it.index() + 1) =~= seen.push(c));
            lemma_digits_of_push(seen, c);
            lemma_decimal_value_grows(digits_of(seen), c);
            seen = seen.push(c);
        }
        if let Some(d) = digit_of(c) {
            if fits {
                if value > (usize::MAX - d as usize) / 10 {
                    fits = false;
                } else {
                    value = 10 * value + d as usize;
                }
            }
        }
    }
    proof {
        assert(seen =~= path@);
    }
    if fits {
        value
    } else {
        0
    }
}

/// The character that writes a number below ten.
pub open spec fn digit_char(d: nat) -> char {
    if d == 0 {
        '0'
    } else if d == 1 {
        '1'
    } else if d == 2 {
        '2'
    } else if d == 3 {
        '3'
    } else if d == 4 {
        '4'
    } else if d == 5 {
        '5'
    } else if d == 6 {
        '6'
    } else if d == 7 {
        '7'
    } else if d == 8 {
        '8'
    } else {
        '9'
    }
}

/// A number written in base ten, without leading zeros.
pub open spec fn decimal_digits(n: nat) -> Seq<char>
    decreases n,
{
    if n < 10 {
        seq![digit_char(n)]
    } else {
        decimal_digits(n / 10).push(digit_char(n % 10))
    }
}

/// The text of one digit.
fn digit_text(d: u8) -> (text: &'static str)
    requires
        d < 10,
    ensures
        text@ == seq![digit_char(d as nat)],
{
    proof {
        reveal_strlit("0");
        reveal_strlit("1");
        reveal_strlit("2");
        reveal_strlit("3");
        reveal_strlit("4");
        reveal_strlit("5");
        reveal_strlit("6");
        reveal_strlit("7");
        reveal_strlit("8");
        reveal_strlit("9");
    }
    let text = if d == 0 {
        "0"
    } else if d == 1 {
        "1"
    } else if d == 2 {
        "2"
    } else if d == 3 {
        "3"
    } else if d == 4 {
        "4"
    } else if d == 5 {
        "5"
    } else if d == 6 {
        "6"
    } else if d == 7 {
        "7"
    } else if d == 8 {
        "8"
    } else {
        "9"
    };
    assert(text@ =~= seq![digit_char(d as nat)]);
    text
}

/// Writes `n` in base ten at the end of `text`.
pub fn write_decimal(n: usize, text: &mut String)
    ensures
        final(text)@ == old(text)@ + decimal_digits(n as nat),
    decreases n,
{
    if n >= 10 {
        write_decimal(n / 10, text);
    }
    text.append(digit_text((n % 10) as u8));
    proof {
        assert(final(text)@ =~= old(text)@ + decimal_digits(n as nat));
    }
}

/// What has been written in base ten reads back as the same number: it is
/// made of digits alone, and they write the number.
pub proof fn lemma_decimal_reads_back(n: nat)
    ensures
        decimal_value(decimal_digits(n)) == n,
        digits_of(decimal_digits(n)) == decimal_digits(n),
    decreases n,
{
    if n < 10 {
        let one = seq![digit_char(n)];
        assert(one.drop_last() =~= Seq::<char>::empty());
        assert(decimal_value(one.drop_last()) == 0);
        lemma_digits_of_push(Seq::<char>::empty(), digit_char(n));
        assert(Seq::<char>::empty().push(digit_char(n)) =~= one);
        assert(digits_of(Seq::<char>::empty()) =~= Seq::<char>::empty()) by {
            reveal(Seq::filter);
        }
    } else {
        lemma_decimal_reads_back(n / 10);
        lemma_decimal_value_grows(decimal_digits(n / 10), digit_char(n % 10));
        lemma_digits_of_push(decimal_digits(n / 10), digit_char(n % 10));
    }
}

} // verus!
