//! Strings on the wire: the length of the UTF-8 bytes as a varint, then the
//! bytes, with no terminator.

use crate::error::Error;
use crate::varint::{decode_varint, encode_varint, lemma_encode_varint_len, lemma_varint_round_trip};
use vstd::prelude::*;
use vstd::utf8::*;

verus! {

/// The encoding of a string.
pub open spec fn encode_string(chars: Seq<char>) -> Seq<u8> {
    encode_varint(encode_utf8(chars).len() as u64) + encode_utf8(chars)
}

/// The string that stands at the front of `bytes` and the number of bytes it
/// takes, or why there is none: `bytes` ends before the string does, or the
/// bytes of the string are not valid UTF-8.
pub open spec fn decode_string(bytes: Seq<u8>) -> Result<(Seq<char>, nat), Error> {
    match decode_varint(bytes) {
        None => Err(Error::Truncation),
        Some((length, prefix)) => {
            if bytes.len() - prefix < length {
                Err(Error::Truncation)
            } else {
                let body = bytes.subrange(prefix as int, prefix + length);
                if valid_utf8(body) {
                    Ok((decode_utf8(body), prefix + length as nat))
                } else {
                    Err(Error::InvalidEncoding)
                }
            }
        },
    }
}

/// Decoding the encoding of a string gives the string back, whatever follows it.
pub proof fn lemma_string_round_trip(chars: Seq<char>, rest: Seq<u8>)
    requires
        encode_utf8(chars).len() <= u64::MAX,
    ensures
        decode_string(encode_string(chars) + rest) == Ok::<(Seq<char>, nat), Error>(
            (chars, encode_string(chars).len()),
        ),
{
    let body = encode_utf8(chars);
    let length = body.len() as u64;
    let prefix = encode_varint(length);
    let whole = encode_string(chars) + rest;
    lemma_encode_varint_len(length);
    assert(whole =~= prefix + (body + rest));
    lemma_varint_round_trip(length, body + rest);
    assert(whole.subrange(prefix.len() as int, prefix.len() + length) =~= body);
    encode_utf8_valid_utf8(chars);
    encode_utf8_decode_utf8(chars);
}

/// `String::from_utf8` of std: the string whose UTF-8 bytes are `bytes`, or
/// nothing where `bytes` is not valid UTF-8.
#[verifier::external_body]
pub(crate) fn string_from_utf8(bytes: Vec<u8>) -> (r: Option<String>)
    ensures
        r is Some <==> valid_utf8(bytes@),
        r matches Some(s) ==> encode_utf8(s@) == bytes@,
{
    match String::from_utf8(bytes) {
        Ok(s) => Some(s),
        Err(_) => None,
    }
}

} // verus!
