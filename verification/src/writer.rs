//! The sequential byte sink.

use crate::error::Error;
use crate::le::le_encode;
use crate::message::Struct;
use crate::primitive::Primitive;
use crate::string::encode_string;
use crate::varint::{
    encode_varint, lemma_data_bits, lemma_varint_len, lemma_varint_word_fits, size_of_varint,
};
use vstd::arithmetic::power2::*;
use vstd::bits::*;
use vstd::prelude::*;

verus! {

/// What a writer is: the bytes that its sink holds and the number of them
/// that were written through it.
pub struct Output {
    pub bytes: Seq<u8>,
    pub offset: nat,
}

impl Output {
    /// The output after `data` was written to it.
    pub open spec fn append(self, data: Seq<u8>) -> Output {
        Output { bytes: self.bytes + data, offset: self.offset + data.len() }
    }
}

/// A byte sink that is written front to back and counts what it was given.
pub struct Writer {
    sink: Vec<u8>,
    offset: usize,
}

impl View for Writer {
    type V = Output;

    closed spec fn view(&self) -> Output {
        Output { bytes: self.sink@, offset: self.offset as nat }
    }
}

impl Writer {
    #[verifier::type_invariant]
    spec fn counted(self) -> bool {
        self.offset <= self.sink@.len()
    }

    /// A writer that appends to `sink`.
    pub fn new(sink: Vec<u8>) -> (writer: Self)
        ensures
            writer@ == (Output { bytes: sink@, offset: 0 }),
    {
        Writer { sink, offset: 0 }
    }

    /// Gives the sink back.
    pub fn into_inner(self) -> (sink: Vec<u8>)
        ensures
            sink@ == self@.bytes,
    {
        self.sink
    }

    /// The number of bytes written through this writer.
    pub fn offset(&self) -> (offset: usize)
        ensures
            offset == self@.offset,
    {
        self.offset
    }

    /// Writes `buf` as it is.
    pub fn write_all(&mut self, buf: &[u8]) -> (r: Result<(), Error>)
        ensures
            r is Ok,
            final(self)@ == old(self)@.append(buf@),
    {
        proof {
            use_type_invariant(&*self);
        }
        // The sink leaves the writer while it grows: the count and the sink
        // agree whenever the writer can be seen.
        let mut taken = Writer { sink: Vec::new(), offset: 0 };
        core::mem::swap(self, &mut taken);
        let Writer { mut sink, offset } = taken;
        let ghost before = sink@;
        sink.extend_from_slice(buf);
        let held = sink.len();
        assert(offset + buf@.len() <= held);
        assert(sink@ =~= before + buf@);
        *self = Writer { sink, offset: offset + buf.len() };
        Ok(())
    }

    /// Writes a fixed-width integer, least significant byte first.
    pub fn write_integer<T: Primitive>(&mut self, value: T) -> (r: Result<(), Error>)
        ensures
            r is Ok,
            final(self)@ == old(self)@.append(value.wire()),
    {
        value.write(self)
    }

    /// Writes a string: the length of its UTF-8 bytes as a varint, then the
    /// bytes, with nothing after them.
    pub fn write_string(&mut self, value: &str) -> (r: Result<(), Error>)
        ensures
            r is Ok,
            final(self)@ == old(self)@.append(encode_string(value@)),
    {
        let bytes = value.as_bytes();
        self.write_varint(bytes.len() as u64)?;
        self.write_all(bytes)?;
        assert(self@.bytes =~= old(self)@.bytes + encode_string(value@));
        Ok(())
    }

    /// Writes `value` as a varint.
    pub fn write_varint(&mut self, value: u64) -> (r: Result<(), Error>)
        ensures
            r is Ok,
            final(self)@ == old(self)@.append(encode_varint(value)),
    {
        let length = size_of_varint(value);
        proof {
            lemma_varint_len(value);
            lemma_data_bits(value, 56);
            lemma2_to64_rest();
        }
        if length > 8 {
            let mut buffer: Vec<u8> = Vec::with_capacity(9);
            buffer.push(0u8);
            let body = le_encode(value, 8);
            buffer.extend_from_slice(body.as_slice());
            assert(buffer@ =~= encode_varint(value));
            self.write_all(buffer.as_slice())
        } else {
            let shift: u64 = (length - 1) as u64;
            let odd: u64 = 2 * value + 1;
            proof {
                lemma_varint_word_fits(value);
                lemma_u64_shl_is_mul(odd, shift);
            }
            let word: u64 = odd << shift;
            let buffer = le_encode(word, length);
            self.write_all(buffer.as_slice())
        }
    }

    /// Writes the body of a nested composite value.
    pub fn write_struct<S: Struct>(&mut self, value: &S) -> (r: Result<(), Error>)
        ensures
            match value.encoded_body() {
                Ok(body) => r is Ok && final(self)@ == old(self)@.append(body),
                Err(e) => r == Err::<(), Error>(e),
            },
    {
        value.encode_body(self)
    }
}

} // verus!
