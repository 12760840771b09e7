//! The command grammar that client and nodes share.
//!
//! A command is a line of words separated by single spaces. `put <key>
//! <value>` binds a key to an unsigned number; `get <key>` asks for the value
//! bound to a key last.

use crate::decimal::{
    decimal, lemma_decimal_digits, lemma_digits_are_plain, parse_decimal, parse_u64,
};
use crate::store::KeyValue;
use crate::text::{
    chars_of, lemma_single_word, lemma_trimmed_unchanged, lemma_words_after_first,
    pieces, split_words, trim_bounds, trimmed, words,
};
use vstd::prelude::*;
use vstd::string::*;

verus! {

/// A well-formed command.
#[derive(Debug)]
pub enum Command {
    /// Bind the key of the pair to its value.
    Put(KeyValue),
    /// Ask for the latest value of the key.
    Get(String),
}

/// What a command asks for, as a plain value.
pub enum Request {
    Put { key: Seq<char>, value: u64 },
    Get { key: Seq<char> },
}

/// Why a line is no command.
#[derive(Clone, Copy, Debug, PartialEq, Eq, Structural)]
pub enum CommandError {
    /// The first word is neither `put` nor `get`.
    UnknownVerb,
    /// The verb stands alone.
    MissingKey,
    /// A `put` names a key but no value.
    MissingValue,
    /// A `put` holds more than a key and a value.
    TooManyWords,
    /// The value of a `put` is no unsigned 64-bit number.
    BadValue,
}

/// The word `put`.
pub open spec fn put_word() -> Seq<char> {
    seq!['p', 'u', 't']
}

/// The word `get`.
pub open spec fn get_word() -> Seq<char> {
    seq!['g', 'e', 't']
}

/// What `text` means as a command. The verb and the key are taken as they
/// stand; the value may carry whitespace around it.
pub open spec fn parse_command(text: Seq<char>) -> Result<Request, CommandError> {
    let w = words(text);
    if w[0] == put_word() {
        if w.len() == 1 {
            Err(CommandError::MissingKey)
        } else if w.len() == 2 {
            Err(CommandError::MissingValue)
        } else if w.len() > 3 {
            Err(CommandError::TooManyWords)
        } else {
            match parse_u64(trimmed(w[2])) {
                Some(value) => Ok(Request::Put { key: w[1], value }),
                None => Err(CommandError::BadValue),
            }
        }
    } else if w[0] == get_word() {
        if w.len() == 1 {
            Err(CommandError::MissingKey)
        } else {
            Ok(Request::Get { key: w[1] })
        }
    } else {
        Err(CommandError::UnknownVerb)
    }
}

impl Command {
    /// The request that this command makes.
    pub open spec fn request(self) -> Request {
        match self {
            Command::Put(pair) => Request::Put { key: pair.key@, value: pair.value },
            Command::Get(key) => Request::Get { key: key@ },
        }
    }

    /// The key that the command is about.
    pub fn key(&self) -> (key: &String)
        ensures
            key@ == request_key(self.request()),
    {
        match self {
            Command::Put(pair) => &pair.key,
            Command::Get(key) => key,
        }
    }

    /// Tells whether the command is a `put`.
    pub fn is_put(&self) -> (put: bool)
        ensures
            put == (self.request() is Put),
    {
        match self {
            Command::Put(_) => true,
            Command::Get(_) => false,
        }
    }
}

/// The key that a request is about.
pub open spec fn request_key(request: Request) -> Seq<char> {
    match request {
        Request::Put { key, value } => key,
        Request::Get { key } => key,
    }
}

/// Tells whether the characters of `text` between `start` and `end` are the
/// three characters given.
fn is_word(text: &Vec<char>, start: usize, end: usize, a: char, b: char, c: char) -> (same: bool)
    requires
        start <= end <= text.len(),
    ensures
        same == (text@.subrange(start as int, end as int) == seq![a, b, c]),
{
    let ghost word = text@.subrange(start as int, end as int);
    if end - start != 3 {
        proof {
            assert(word.len() == end - start);
            assert(seq![a, b, c].len() == 3);
        }
        return false;
    }
    let same: bool = text[start] == a && text[start + 1] == b && text[start + 2] == c;
    proof {
        assert(word[0] == text[start as int]);
        assert(word[1] == text[start + 1]);
        assert(word[2] == text[start + 2]);
        if same {
            assert(word =~= seq![a, b, c]);
        }
    }
    same
}

/// Reads `text` as a command.
pub fn parse(text: &str) -> (result: Result<Command, CommandError>)
    ensures
        match result {
            Ok(command) => parse_command(text@) == Ok::<Request, CommandError>(command.request()),
            Err(error) => parse_command(text@) == Err::<Request, CommandError>(error),
        },
{
    let chars: Vec<char> = chars_of(text);
    let bounds: Vec<(usize, usize)> = split_words(&chars, 0, chars.len());
    proof {
        assert(chars@.subrange(0, chars.len() as int) =~= chars@);
        assert(pieces(chars@, bounds@) == words(text@));
        assert(pieces(chars@, bounds@)[0] == chars@.subrange(bounds[0].0 as int, bounds[0].1 as int));
    }
    let verb: (usize, usize) = bounds[0];
    let put: bool = is_word(&chars, verb.0, verb.1, 'p', 'u', 't');
    let get: bool = is_word(&chars, verb.0, verb.1, 'g', 'e', 't');
    if !put && !get {
        return Err(CommandError::UnknownVerb);
    }
    if bounds.len() == 1 {
        return Err(CommandError::MissingKey);
    }
    let at: (usize, usize) = bounds[1];
    proof {
        assert(pieces(chars@, bounds@)[1] == chars@.subrange(at.0 as int, at.1 as int));
    }
    if get {
        let key: String = text.substring_char(at.0, at.1).to_owned();
        return Ok(Command::Get(key));
    }
    if bounds.len() == 2 {
        return Err(CommandError::MissingValue);
    }
    if bounds.len() > 3 {
        return Err(CommandError::TooManyWords);
    }
    let number: (usize, usize) = bounds[2];
    proof {
        assert(pieces(chars@, bounds@)[2] == chars@.subrange(number.0 as int, number.1 as int));
    }
    let inner: (usize, usize) = trim_bounds(&chars, number.0, number.1);
    match parse_decimal(&chars, inner.0, inner.1) {
        Some(value) => {
            let key: String = text.substring_char(at.0, at.1).to_owned();
            Ok(Command::Put(KeyValue { key, value }))
        },
        None => Err(CommandError::BadValue),
    }
}

/// How a `put` of `value` under `key` is written.
pub open spec fn put_text(key: Seq<char>, value: u64) -> Seq<char> {
    put_word() + seq![' '] + key + seq![' '] + decimal(value as nat)
}

/// How a `get` of `key` is written.
pub open spec fn get_text(key: Seq<char>) -> Seq<char> {
    get_word() + seq![' '] + key
}

/// A `put` written in the usual way is read back as itself: `put`, a key
/// without a space, and the decimal digits of the value.
pub proof fn lemma_put_is_parsed(key: Seq<char>, value: u64)
    requires
        !key.contains(' '),
    ensures
        parse_command(put_text(key, value)) == Ok::<Request, CommandError>(
            Request::Put { key, value },
        ),
{
    let digits = decimal(value as nat);
    let text = put_text(key, value);
    lemma_decimal_digits(value as nat);
    lemma_digits_are_plain(digits);
    assert(!put_word().contains(' '));
    assert(text =~= put_word() + seq![' '] + (key + seq![' '] + digits));
    lemma_words_after_first(put_word(), key + seq![' '] + digits);
    lemma_words_after_first(key, digits);
    lemma_single_word(digits);
    assert(words(text) =~= seq![put_word(), key, digits]);
    lemma_trimmed_unchanged(digits);
}

/// A `get` for a key without a space is read back as itself.
pub proof fn lemma_get_is_parsed(key: Seq<char>)
    requires
        !key.contains(' '),
    ensures
        parse_command(get_text(key)) == Ok::<Request, CommandError>(Request::Get { key }),
{
    assert(!get_word().contains(' '));
    lemma_words_after_first(get_word(), key);
    lemma_single_word(key);
    assert(words(get_text(key)) =~= seq![get_word(), key]);
    assert(get_word() != put_word()) by {
        assert(get_word()[0] != put_word()[0]);
    }
}

} // verus!
