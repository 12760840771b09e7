//! The payloads that travel between client and nodes: a number or a text,
//! framed by `bincode` with fixed-width little-endian integers.
//!
//! A number is its eight bytes, least significant first. A text is the number
//! of bytes of its UTF-8 form, framed as a number, followed by those bytes.
//! Bytes after a complete frame are ignored.

use vstd::prelude::*;
use vstd::utf8::*;

verus! {

/// The eight bytes of `value`, least significant first.
pub open spec fn number_frame(value: u64) -> Seq<u8> {
    seq![
        (value % 0x100) as u8,
        (value / 0x100 % 0x100) as u8,
        (value / 0x1_0000 % 0x100) as u8,
        (value / 0x100_0000 % 0x100) as u8,
        (value / 0x1_0000_0000 % 0x100) as u8,
        (value / 0x100_0000_0000 % 0x100) as u8,
        (value / 0x1_0000_0000_0000 % 0x100) as u8,
        (value / 0x100_0000_0000_0000 % 0x100) as u8,
    ]
}

/// The number whose frame the first eight bytes of `bytes` are.
pub open spec fn leading_number(bytes: Seq<u8>) -> u64
    recommends
        bytes.len() >= 8,
{
    (bytes[0] as nat + bytes[1] as nat * 0x100 + bytes[2] as nat * 0x1_0000 + bytes[3] as nat
        * 0x100_0000 + bytes[4] as nat * 0x1_0000_0000 + bytes[5] as nat * 0x100_0000_0000
        + bytes[6] as nat * 0x1_0000_0000_0000 + bytes[7] as nat * 0x100_0000_0000_0000) as u64
}

/// The number that `bytes` is read as: the one framed by its first eight
/// bytes, or none when there are fewer.
pub open spec fn read_number(bytes: Seq<u8>) -> Option<u64> {
    if bytes.len() >= 8 {
        Some(leading_number(bytes))
    } else {
        None
    }
}

/// The frame of `text`: the byte length of its UTF-8 form as a number, then
/// the UTF-8 form itself.
pub open spec fn text_frame(text: Seq<char>) -> Seq<u8> {
    number_frame(encode_utf8(text).len() as u64) + encode_utf8(text)
}

/// The text that `bytes` is read as: a length, then that many bytes of valid
/// UTF-8. There is none when a part is missing or the bytes are not UTF-8.
pub open spec fn read_text(bytes: Seq<u8>) -> Option<Seq<char>> {
    if bytes.len() < 8 {
        None
    } else {
        let length = leading_number(bytes) as int;
        if length > bytes.len() - 8 || !valid_utf8(bytes.subrange(8, 8 + length)) {
            None
        } else {
            Some(decode_utf8(bytes.subrange(8, 8 + length)))
        }
    }
}

/// Calls `bincode::serialize` on a `u64`. With the fixed-width little-endian
/// encoding that this function uses, the result is the eight bytes of the
/// value, least significant first; the call cannot fail on an integer.
#[verifier::external_body]
pub(crate) fn frame_number(value: u64) -> (bytes: Vec<u8>)
    ensures
        bytes@ == number_frame(value),
{
    bincode::serialize(&value).unwrap_or_default()
}

/// Calls `bincode::deserialize` for a `u64`. It reads the first eight bytes
/// as a little-endian integer and ignores what follows; with fewer than
/// eight bytes it fails.
#[verifier::external_body]
pub(crate) fn unframe_number(bytes: &[u8]) -> (value: Option<u64>)
    ensures
        value == read_number(bytes@),
{
    bincode::deserialize::<u64>(bytes).ok()
}

/// Calls `bincode::serialize` on a `str`. The result is the byte length of
/// the text as a fixed-width little-endian integer of eight bytes, followed
/// by the text's UTF-8 bytes; the call cannot fail on a text.
#[verifier::external_body]
pub(crate) fn frame_text(text: &str) -> (bytes: Vec<u8>)
    ensures
        bytes@ == text_frame(text@),
{
    bincode::serialize(text).unwrap_or_default()
}

/// Calls `bincode::deserialize` for a `String`. It reads a length of eight
/// bytes, then that many bytes, which must be valid UTF-8, and ignores what
/// follows; it fails when bytes are missing or are not UTF-8.
#[verifier::external_body]
pub(crate) fn unframe_text(bytes: &[u8]) -> (text: Option<String>)
    ensures
        text is Some <==> read_text(bytes@) is Some,
        text is Some ==> text->0@ == read_text(bytes@)->0,
{
    bincode::deserialize::<String>(bytes).ok()
}

/// A framed number is read back as itself, whatever follows the frame.
pub proof fn lemma_number_round_trip(value: u64, tail: Seq<u8>)
    ensures
        number_frame(value).len() == 8,
        read_number(number_frame(value) + tail) == Some(value),
{
    let bytes = number_frame(value) + tail;
    assert(bytes[0] == number_frame(value)[0]);
    assert(bytes[1] == number_frame(value)[1]);
    assert(bytes[2] == number_frame(value)[2]);
    assert(bytes[3] == number_frame(value)[3]);
    assert(bytes[4] == number_frame(value)[4]);
    assert(bytes[5] == number_frame(value)[5]);
    assert(bytes[6] == number_frame(value)[6]);
    assert(bytes[7] == number_frame(value)[7]);
    lemma_number_digits(value);
}

/// A number is the sum of its eight bytes, each weighted by its place.
proof fn lemma_number_digits(value: u64)
    ensures
        value == value % 0x100 + (value / 0x100 % 0x100) * 0x100 + (value / 0x1_0000 % 0x100)
            * 0x1_0000 + (value / 0x100_0000 % 0x100) * 0x100_0000 + (value / 0x1_0000_0000
            % 0x100) * 0x1_0000_0000 + (value / 0x100_0000_0000 % 0x100) * 0x100_0000_0000 + (value
            / 0x1_0000_0000_0000 % 0x100) * 0x1_0000_0000_0000 + (value / 0x100_0000_0000_0000
            % 0x100) * 0x100_0000_0000_0000,
{
    assert(value / 0x1_0000 == value / 0x100 / 0x100) by (bit_vector);
    assert(value / 0x100_0000 == value / 0x1_0000 / 0x100) by (bit_vector);
    assert(value / 0x1_0000_0000 == value / 0x100_0000 / 0x100) by (bit_vector);
    assert(value / 0x100_0000_0000 == value / 0x1_0000_0000 / 0x100) by (bit_vector);
    assert(value / 0x1_0000_0000_0000 == value / 0x100_0000_0000 / 0x100) by (bit_vector);
    assert(value / 0x100_0000_0000_0000 == value / 0x1_0000_0000_0000 / 0x100) by (bit_vector);
    assert(value / 0x100_0000_0000_0000 < 0x100) by (bit_vector);
    let q1: int = value as int / 0x100;
    let q2: int = q1 / 0x100;
    let q3: int = q2 / 0x100;
    let q4: int = q3 / 0x100;
    let q5: int = q4 / 0x100;
    let q6: int = q5 / 0x100;
    let q7: int = q6 / 0x100;
    assert(value == q1 * 0x100 + value % 0x100);
    assert(q1 == q2 * 0x100 + q1 % 0x100);
    assert(q2 == q3 * 0x100 + q2 % 0x100);
    assert(q3 == q4 * 0x100 + q3 % 0x100);
    assert(q4 == q5 * 0x100 + q4 % 0x100);
    assert(q5 == q6 * 0x100 + q5 % 0x100);
    assert(q6 == q7 * 0x100 + q6 % 0x100);
    assert(q7 == q7 % 0x100);
}

/// A framed text is read back as itself, whatever follows the frame, as long
/// as its UTF-8 form is short enough for its length to be a 64-bit number.
pub proof fn lemma_text_round_trip(text: Seq<char>, tail: Seq<u8>)
    requires
        encode_utf8(text).len() <= u64::MAX,
    ensures
        read_text(text_frame(text) + tail) == Some(text),
{
    let body = encode_utf8(text);
    let length = body.len() as u64;
    let bytes = text_frame(text) + tail;
    lemma_number_round_trip(length, body + tail);
    assert(bytes =~= number_frame(length) + (body + tail));
    assert(leading_number(bytes) == length);
    assert(bytes.subrange(8, 8 + length) =~= body);
    encode_utf8_valid_utf8(text);
    encode_utf8_decode_utf8(text);
}

/// Fewer than eight bytes are neither a number nor a text.
pub proof fn lemma_short_frames_fail(bytes: Seq<u8>)
    requires
        bytes.len() < 8,
    ensures
        read_number(bytes) is None,
        read_text(bytes) is None,
{
}

} // verus!
