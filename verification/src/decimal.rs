//! Unsigned decimal numbers as text: how a value is written, and which texts
//! are read as a value.

use crate::text::is_whitespace;
use vstd::prelude::*;
use vstd::string::*;

verus! {

/// `c` is one of the ten decimal digits.
pub open spec fn is_digit(c: char) -> bool {
    0x30 <= c as u32 <= 0x39
}

/// The value of the digit `c`; 0 for any other character.
pub open spec fn digit_value(c: char) -> nat {
    if is_digit(c) {
        (c as u32 - 0x30) as nat
    } else {
        0
    }
}

/// The digit that stands for `d`.
pub open spec fn digit_char(d: nat) -> char {
    if d == 0 {
        '0'
    } else if d == 1 {
        '1'
    } else if d == 2 {
        '2'
    } else if d == 3 {
        '3'
    } else if d == 4 {
        '4'
    } else if d == 5 {
        '5'
    } else if d == 6 {
        '6'
    } else if d == 7 {
        '7'
    } else if d == 8 {
        '8'
    } else {
        '9'
    }
}

/// Every character of `text` is a digit.
pub open spec fn all_digits(text: Seq<char>) -> bool {
    forall|i: int| 0 <= i < text.len() ==> is_digit(#[trigger] text[i])
}

/// The number that the digits of `text` denote, most significant first.
pub open spec fn digits_value(text: Seq<char>) -> nat
    decreases text.len(),
{
    if text.len() == 0 {
        0
    } else {
        digits_value(text.drop_last()) * 10 + digit_value(text.last())
    }
}

/// `text` without one leading plus sign.
pub open spec fn unsigned_body(text: Seq<char>) -> Seq<char> {
    if text.len() > 0 && text[0] == '+' {
        text.drop_first()
    } else {
        text
    }
}

/// The value that `text` is read as: an optional plus sign, then one or more
/// digits that denote a number of 64 bits. Any other text has no value.
pub open spec fn parse_u64(text: Seq<char>) -> Option<u64> {
    let body = unsigned_body(text);
    if body.len() > 0 && all_digits(body) && digits_value(body) <= u64::MAX {
        Some(digits_value(body) as u64)
    } else {
        None
    }
}

/// How `n` is written: its decimal digits, most significant first, with no
/// sign and no leading zero.
pub open spec fn decimal(n: nat) -> Seq<char>
    decreases n,
{
    if n < 10 {
        seq![digit_char(n)]
    } else {
        decimal(n / 10).push(digit_char(n % 10))
    }
}

/// A prefix of a text denotes no more than the text.
pub proof fn lemma_digits_prefix(text: Seq<char>, count: int)
    requires
        0 <= count <= text.len(),
    ensures
        digits_value(text.take(count)) <= digits_value(text),
    decreases text.len() - count,
{
    if count == text.len() {
        assert(text.take(count) =~= text);
    } else {
        lemma_digits_prefix(text.drop_last(), count);
        assert(text.drop_last().take(count) =~= text.take(count));
    }
}

/// What is written for a number is read back as that number: the text is not
/// empty, holds digits only, and denotes the number.
pub proof fn lemma_decimal_digits(n: nat)
    ensures
        decimal(n).len() >= 1,
        all_digits(decimal(n)),
        digits_value(decimal(n)) == n,
        unsigned_body(decimal(n)) == decimal(n),
    decreases n,
{
    if n < 10 {
        let text = decimal(n);
        assert(text.drop_last() =~= Seq::<char>::empty());
        assert(digits_value(text.drop_last()) == 0);
        assert(digit_value(text.last()) == n);
    } else {
        lemma_decimal_digits(n / 10);
        let front = decimal(n / 10);
        let text = decimal(n);
        assert(text.drop_last() =~= front);
        assert(digit_value(text.last()) == n % 10);
        assert forall|i: int| 0 <= i < text.len() implies is_digit(#[trigger] text[i]) by {
            if i < front.len() {
                assert(text[i] == front[i]);
            }
        }
        assert(text[0] == front[0]);
    }
}

/// Digits are neither spaces nor any other whitespace.
pub proof fn lemma_digits_are_plain(digits: Seq<char>)
    requires
        all_digits(digits),
    ensures
        !digits.contains(' '),
        forall|i: int| 0 <= i < digits.len() ==> !is_whitespace(#[trigger] digits[i]),
{
    assert forall|i: int| 0 <= i < digits.len() implies !is_whitespace(#[trigger] digits[i]) by {
        assert(is_digit(digits[i]));
    }
    if digits.contains(' ') {
        let i = choose|i: int| 0 <= i < digits.len() && digits[i] == ' ';
        assert(is_digit(digits[i]));
    }
}

/// Writing a 64-bit number and reading the text gives the number back.
pub proof fn lemma_decimal_round_trip(value: u64)
    ensures
        parse_u64(decimal(value as nat)) == Some(value),
{
    lemma_decimal_digits(value as nat);
}

/// The text of one digit.
fn digit_text(d: u64) -> (text: &'static str)
    requires
        d < 10,
    ensures
        text@ == seq![digit_char(d as nat)],
{
    proof {
        reveal_strlit("0");
        reveal_strlit("1");
        reveal_strlit("2");
        reveal_strlit("3");
        reveal_strlit("4");
        reveal_strlit("5");
        reveal_strlit("6");
        reveal_strlit("7");
        reveal_strlit("8");
        reveal_strlit("9");
    }
    let text: &'static str = if d == 0 {
        "0"
    } else if d == 1 {
        "1"
    } else if d == 2 {
        "2"
    } else if d == 3 {
        "3"
    } else if d == 4 {
        "4"
    } else if d == 5 {
        "5"
    } else if d == 6 {
        "6"
    } else if d == 7 {
        "7"
    } else if d == 8 {
        "8"
    } else {
        "9"
    };
    assert(text@ =~= seq![digit_char(d as nat)]);
    text
}

/// Appends the decimal digits of `value` to `out`.
pub fn push_decimal(out: &mut String, value: u64)
    ensures
        final(out)@ == old(out)@ + decimal(value as nat),
    decreases value,
{
    if value >= 10 {
        push_decimal(out, value / 10);
    }
    out.append(digit_text(value % 10));
    proof {
        assert(out@ =~= old(out)@ + decimal(value as nat));
    }
}

/// The decimal text of `value`.
pub fn to_decimal(value: u64) -> (text: String)
    ensures
        text@ == decimal(value as nat),
{
    let mut text: String = String::new();
    push_decimal(&mut text, value);
    proof {
        assert(text@ =~= decimal(value as nat));
    }
    text
}

/// Reads the characters of `text` between `start` and `end` as a number.
pub fn parse_decimal(text: &Vec<char>, start: usize, end: usize) -> (value: Option<u64>)
    requires
        start <= end <= text.len(),
    ensures
        value == parse_u64(text@.subrange(start as int, end as int)),
{
    let ghost whole = text@.subrange(start as int, end as int);
    let first: usize = if start < end && text[start] == '+' {
        start + 1
    } else {
        start
    };
    let ghost body = text@.subrange(first as int, end as int);
    proof {
        assert(unsigned_body(whole) =~= body);
    }
    if first == end {
        return None;
    }
    let mut acc: u64 = 0;
    let mut i: usize = first;
    proof {
        assert(body.take(0) =~= Seq::<char>::empty());
    }
    while i < end
        invariant
            start <= first <= i <= end <= text.len(),
            body == text@.subrange(first as int, end as int),
            body == unsigned_body(text@.subrange(start as int, end as int)),
            all_digits(body.take(i - first)),
            acc == digits_value(body.take(i - first)),
        decreases end - i,
    {
        let c: char = text[i];
        let u: u32 = c as u32;
        if u < 0x30 || u > 0x39 {
            proof {
                assert(!is_digit(body[i - first]));
            }
            return None;
        }
        let d: u64 = (u - 0x30) as u64;
        proof {
            let longer = body.take(i - first + 1);
            assert(longer.drop_last() =~= body.take(i - first));
            assert(longer.last() == c);
            assert(digits_value(longer) == acc * 10 + d);
            lemma_digits_prefix(body, i - first + 1);
            assert forall|k: int| 0 <= k < longer.len() implies is_digit(#[trigger] longer[k]) by {
                if k < i - first {
                    assert(longer[k] == body.take(i - first)[k]);
                }
            }
        }
        if acc > (u64::MAX - d) / 10 {
            return None;
        }
        acc = acc * 10 + d;
        i = i + 1;
    }
    proof {
        assert(body.take(end - first) =~= body);
    }
    Some(acc)
}

} // verus!
