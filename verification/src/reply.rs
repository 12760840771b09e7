//! The answer to a `get`: the key with its value, or the words `not found`.

use crate::decimal::{
    decimal, is_digit, lemma_decimal_digits, lemma_digits_are_plain, parse_decimal, parse_u64,
    push_decimal,
};
use crate::store::KeyValue;
use crate::text::{
    chars_of, lemma_single_word, lemma_trimmed_unchanged, lemma_words_after_first, pieces,
    split_words, trim_bounds, trimmed, words,
};
use vstd::prelude::*;
use vstd::string::*;

verus! {

/// What a node answers to a `get`.
#[derive(Debug)]
pub enum Reply {
    /// The key is bound, and this is the pair decided last.
    Found(KeyValue),
    /// No decided entry binds the key.
    NotFound,
}

/// Why a text is no reply.
#[derive(Clone, Copy, Debug, PartialEq, Eq, Structural)]
pub enum ReplyError {
    /// The text holds a key but no value.
    MissingValue,
    /// What follows the key is no unsigned 64-bit number.
    BadValue,
}

/// The answer for an absent key.
pub open spec fn not_found_text() -> Seq<char> {
    seq!['n', 'o', 't', ' ', 'f', 'o', 'u', 'n', 'd']
}

/// The text of the answer for `key`: the key, a space and the value in
/// decimal when the key is bound, and `not found` when it is not.
pub open spec fn reply_text(key: Seq<char>, found: Option<u64>) -> Seq<char> {
    match found {
        Some(value) => key + seq![' '] + decimal(value as nat),
        None => not_found_text(),
    }
}

/// What `text` means as a reply. The text `not found`, and no other, says
/// that the key is absent. Every other text is read as a key and a value: its
/// first word is the key, whatever it is, and its second word the value.
pub open spec fn parse_reply(text: Seq<char>) -> Result<Option<(Seq<char>, u64)>, ReplyError> {
    let w = words(text);
    if text == not_found_text() {
        Ok(None)
    } else if w.len() == 1 {
        Err(ReplyError::MissingValue)
    } else {
        match parse_u64(trimmed(w[1])) {
            Some(value) => Ok(Some((w[0], value))),
            None => Err(ReplyError::BadValue),
        }
    }
}

impl Reply {
    /// The reply as a plain value.
    pub open spec fn outcome(self) -> Option<(Seq<char>, u64)> {
        match self {
            Reply::Found(pair) => Some((pair.key@, pair.value)),
            Reply::NotFound => None,
        }
    }
}

/// Writes the answer to a `get` for `key`, given what the read found.
pub fn render_reply(key: &String, found: Option<u64>) -> (text: String)
    ensures
        text@ == reply_text(key@, found),
{
    match found {
        Some(value) => {
            let mut text: String = key.clone();
            text.append(" ");
            proof {
                reveal_strlit(" ");
                assert(" "@ =~= seq![' ']);
            }
            push_decimal(&mut text, value);
            text
        },
        None => {
            proof {
                reveal_strlit("not found");
                assert("not found"@ =~= not_found_text());
            }
            "not found".to_owned()
        },
    }
}

/// Tells whether `chars` is the answer for an absent key.
fn is_not_found(chars: &Vec<char>) -> (same: bool)
    ensures
        same == (chars@ == not_found_text()),
{
    if chars.len() != 9 {
        proof {
            assert(not_found_text().len() == 9);
        }
        return false;
    }
    let same: bool = chars[0] == 'n' && chars[1] == 'o' && chars[2] == 't' && chars[3] == ' '
        && chars[4] == 'f' && chars[5] == 'o' && chars[6] == 'u' && chars[7] == 'n' && chars[8]
        == 'd';
    proof {
        if same {
            assert(chars@ =~= not_found_text());
        }
    }
    same
}

/// Reads `text` as the answer to a `get`.
pub fn read_reply(text: &str) -> (result: Result<Reply, ReplyError>)
    ensures
        match result {
            Ok(reply) => parse_reply(text@) == Ok::<Option<(Seq<char>, u64)>, ReplyError>(
                reply.outcome(),
            ),
            Err(error) => parse_reply(text@) == Err::<Option<(Seq<char>, u64)>, ReplyError>(error),
        },
        result matches Ok(Reply::NotFound) <==> text@ == not_found_text(),
{
    let chars: Vec<char> = chars_of(text);
    if is_not_found(&chars) {
        return Ok(Reply::NotFound);
    }
    let bounds: Vec<(usize, usize)> = split_words(&chars, 0, chars.len());
    proof {
        assert(chars@.subrange(0, chars.len() as int) =~= chars@);
        assert(pieces(chars@, bounds@)[0] == chars@.subrange(bounds[0].0 as int, bounds[0].1 as int));
    }
    let head: (usize, usize) = bounds[0];
    if bounds.len() == 1 {
        return Err(ReplyError::MissingValue);
    }
    let number: (usize, usize) = bounds[1];
    proof {
        assert(pieces(chars@, bounds@)[1] == chars@.subrange(number.0 as int, number.1 as int));
    }
    let inner: (usize, usize) = trim_bounds(&chars, number.0, number.1);
    match parse_decimal(&chars, inner.0, inner.1) {
        Some(value) => {
            let key: String = text.substring_char(head.0, head.1).to_owned();
            Ok(Reply::Found(KeyValue { key, value }))
        },
        None => Err(ReplyError::BadValue),
    }
}

/// The answer for a bound key is never the answer for an absent key: it ends
/// in a digit.
pub proof fn lemma_found_is_not_sentinel(key: Seq<char>, value: u64)
    ensures
        reply_text(key, Some(value)) != not_found_text(),
{
    let digits = decimal(value as nat);
    let text = key + seq![' '] + digits;
    lemma_decimal_digits(value as nat);
    assert(text.last() == digits.last());
    assert(is_digit(digits[digits.len() - 1]));
    assert(not_found_text().last() == 'd');
}

/// What a node writes, the client reads: the answer for a bound key is read
/// as that key with that value, whatever the key is, provided it holds no
/// space.
pub proof fn lemma_found_is_read(key: Seq<char>, value: u64)
    requires
        !key.contains(' '),
    ensures
        parse_reply(reply_text(key, Some(value))) == Ok::<Option<(Seq<char>, u64)>, ReplyError>(
            Some((key, value)),
        ),
{
    let digits = decimal(value as nat);
    lemma_found_is_not_sentinel(key, value);
    lemma_decimal_digits(value as nat);
    lemma_digits_are_plain(digits);
    lemma_words_after_first(key, digits);
    lemma_single_word(digits);
    assert(words(key + seq![' '] + digits) =~= seq![key, digits]);
    lemma_trimmed_unchanged(digits);
}

/// The answer for an absent key is read as absence, never as an error and
/// never as a value.
pub proof fn lemma_not_found_is_read(key: Seq<char>)
    ensures
        parse_reply(reply_text(key, None)) == Ok::<Option<(Seq<char>, u64)>, ReplyError>(None),
{
}

/// Absence is read from the text `not found` alone: no other text, and so no
/// answer for a bound key, is read as absence.
pub proof fn lemma_absent_only_for_sentinel(text: Seq<char>)
    ensures
        parse_reply(text) == Ok::<Option<(Seq<char>, u64)>, ReplyError>(None) <==> text
            == not_found_text(),
{
}

} // verus!
