//! The seekable byte source.

use crate::error::Error;
use crate::le::{le_decode, le_value};
use crate::message::Struct;
use crate::primitive::Primitive;
use crate::string::{decode_string, string_from_utf8};
use crate::varint::{decode_varint, lemma_trailing_zeros_bound, trailing_zeros, varint_len_of};
use vstd::bits::*;
use vstd::prelude::*;
use vstd::slice::{slice_subrange, slice_to_vec};
use vstd::utf8::*;

verus! {

/// What a reader is: the whole of its source and the place of the next byte
/// to read, which may lie past the end.
pub struct Input {
    pub data: Seq<u8>,
    pub position: nat,
}

impl Input {
    /// What is left to read.
    pub open spec fn remaining(self) -> Seq<u8> {
        if self.position <= self.data.len() {
            self.data.subrange(self.position as int, self.data.len() as int)
        } else {
            Seq::empty()
        }
    }

    /// The input after `count` bytes were read from it.
    pub open spec fn advance(self, count: nat) -> Input {
        Input { data: self.data, position: self.position + count }
    }
}

/// A byte string that is read front to back from a position that can be moved.
pub struct Reader<'a> {
    data: &'a [u8],
    position: u64,
}

impl<'a> View for Reader<'a> {
    type V = Input;

    closed spec fn view(&self) -> Input {
        Input { data: self.data@, position: self.position as nat }
    }
}

impl<'a> Reader<'a> {
    /// A reader at the start of `data`.
    pub fn new(data: &'a [u8]) -> (reader: Self)
        ensures
            reader@ == (Input { data: data@, position: 0 }),
    {
        Reader { data, position: 0 }
    }

    /// The current position.
    pub fn offset(&mut self) -> (r: Result<u64, Error>)
        ensures
            r matches Ok(position) && position == old(self)@.position,
            final(self)@ == old(self)@,
    {
        Ok(self.position)
    }

    /// Moves to the absolute position `offset`, which may lie past the end.
    pub fn seek(&mut self, offset: u64) -> (r: Result<u64, Error>)
        ensures
            r == Ok::<u64, Error>(offset),
            final(self)@ == (Input { data: old(self)@.data, position: offset as nat }),
    {
        self.position = offset;
        Ok(offset)
    }

    /// The number of bytes left to read.
    fn available(&self) -> (count: usize)
        ensures
            count == self@.remaining().len(),
    {
        let length = self.data.len();
        if self.position >= length as u64 {
            0
        } else {
            length - self.position as usize
        }
    }

    /// Hands out the next `count` bytes, or fails and reads nothing where
    /// fewer are left.
    fn take(&mut self, count: usize) -> (r: Result<&'a [u8], Error>)
        ensures
            match r {
                Ok(bytes) => {
                    &&& count <= old(self)@.remaining().len()
                    &&& bytes@ == old(self)@.remaining().take(count as int)
                    &&& final(self)@ == old(self)@.advance(count as nat)
                },
                Err(e) => {
                    &&& e == Error::Truncation
                    &&& old(self)@.remaining().len() < count
                    &&& final(self)@ == old(self)@
                },
            },
    {
        let left = self.available();
        if left < count {
            Err(Error::Truncation)
        } else if count == 0 {
            let bytes = slice_subrange(self.data, 0, 0);
            assert(bytes@ =~= self@.remaining().take(0));
            Ok(bytes)
        } else {
            let length = self.data.len();
            assert(self.position < length && left == length - self.position);
            let start = self.position as usize;
            let bytes = slice_subrange(self.data, start, start + count);
            assert(bytes@ =~= self@.remaining().take(count as int));
            self.position = self.position + count as u64;
            Ok(bytes)
        }
    }

    /// Fills `buf` with the next bytes, or fails and reads nothing where
    /// fewer are left than `buf` holds.
    pub fn read_exact(&mut self, buf: &mut [u8]) -> (r: Result<(), Error>)
        ensures
            match r {
                Ok(_) => {
                    &&& old(buf)@.len() <= old(self)@.remaining().len()
                    &&& final(buf)@ == old(self)@.remaining().take(old(buf)@.len() as int)
                    &&& final(self)@ == old(self)@.advance(old(buf)@.len())
                },
                Err(e) => {
                    &&& e == Error::Truncation
                    &&& old(self)@.remaining().len() < old(buf)@.len()
                    &&& final(self)@ == old(self)@
                    &&& final(buf)@ == old(buf)@
                },
            },
    {
        let count = buf.len();
        match self.take(count) {
            Err(e) => Err(e),
            Ok(bytes) => {
                let mut done: usize = 0;
                while done < count
                    invariant
                        done <= count,
                        count == buf@.len(),
                        count == bytes@.len(),
                        forall|i: int| 0 <= i < done ==> buf@[i] == bytes@[i],
                    decreases count - done,
                {
                    buf[done] = bytes[done];
                    done += 1;
                }
                assert(buf@ =~= bytes@);
                Ok(())
            },
        }
    }

    /// Reads a fixed-width integer, least significant byte first.
    pub fn read_integer<T: Primitive>(&mut self) -> (r: Result<T, Error>)
        ensures
            match r {
                Ok(value) => {
                    &&& T::width() <= old(self)@.remaining().len()
                    &&& value == T::from_wire(old(self)@.remaining().take(T::width() as int))
                    &&& final(self)@ == old(self)@.advance(T::width())
                },
                Err(e) => {
                    &&& e == Error::Truncation
                    &&& old(self)@.remaining().len() < T::width()
                    &&& final(self)@ == old(self)@
                },
            },
    {
        T::read(self)
    }

    /// Reads `width` bytes as an unsigned number, least significant byte first.
    pub(crate) fn read_le(&mut self, width: usize) -> (r: Result<u64, Error>)
        requires
            width <= 8,
        ensures
            match r {
                Ok(value) => {
                    &&& width <= old(self)@.remaining().len()
                    &&& value == le_value(old(self)@.remaining().take(width as int))
                    &&& final(self)@ == old(self)@.advance(width as nat)
                },
                Err(e) => {
                    &&& e == Error::Truncation
                    &&& old(self)@.remaining().len() < width
                    &&& final(self)@ == old(self)@
                },
            },
    {
        let bytes = self.take(width)?;
        Ok(le_decode(bytes))
    }

    /// Reads a string: a varint that gives the number of bytes, then that
    /// many bytes of UTF-8. A failure reads nothing.
    pub fn read_string(&mut self) -> (r: Result<String, Error>)
        ensures
            match decode_string(old(self)@.remaining()) {
                Ok((chars, count)) => {
                    &&& r matches Ok(string)
                    &&& string@ == chars
                    &&& final(self)@ == old(self)@.advance(count)
                },
                Err(e) => r == Err::<String, Error>(e) && final(self)@ == old(self)@,
            },
    {
        let start = self.position;
        let ghost whole = self@.remaining();
        let length = self.read_varint()?;
        if (self.available() as u64) < length {
            self.position = start;
            return Err(Error::Truncation);
        }
        let ghost prefix = decode_varint(whole).unwrap().1;
        let body = self.take(length as usize)?;
        assert(body@ =~= whole.subrange(prefix as int, prefix + length));
        match string_from_utf8(slice_to_vec(body)) {
            Some(string) => {
                proof {
                    encode_utf8_decode_utf8(string@);
                }
                Ok(string)
            },
            None => {
                self.position = start;
                Err(Error::InvalidEncoding)
            },
        }
    }

    /// The length of the varint that begins with the byte `first`.
    fn varint_length(first: u8) -> (length: usize)
        ensures
            length == varint_len_of(first),
            1 <= length <= 9,
    {
        if first == 0 {
            return 9;
        }
        let mut rest: u8 = first;
        let mut zeros: usize = 0;
        proof {
            lemma_trailing_zeros_bound(first);
        }
        while rest % 2 == 0
            invariant
                rest != 0,
                trailing_zeros(first) == zeros + trailing_zeros(rest),
                zeros + trailing_zeros(rest) <= 7,
            decreases rest,
        {
            rest = rest / 2;
            zeros += 1;
        }
        zeros + 1
    }

    /// Reads a varint. A failure reads nothing.
    pub fn read_varint(&mut self) -> (r: Result<u64, Error>)
        ensures
            match decode_varint(old(self)@.remaining()) {
                Some((value, count)) => {
                    &&& r == Ok::<u64, Error>(value)
                    &&& final(self)@ == old(self)@.advance(count)
                },
                None => r == Err::<u64, Error>(Error::Truncation) && final(self)@ == old(self)@,
            },
    {
        let left = self.available();
        if left == 0 {
            return Err(Error::Truncation);
        }
        let start = self.position as usize;
        let length = Self::varint_length(self.data[start]);
        if left < length {
            return Err(Error::Truncation);
        }
        let ghost whole = self@.remaining();
        assert(whole[0] == self.data@[start as int]);
        let data: &'a [u8] = self.data;
        let value = if length > 8 {
            let body = slice_subrange(data, start + 1, start + 9);
            assert(body@ =~= whole.subrange(1, 9));
            le_decode(body)
        } else {
            let bytes = slice_subrange(data, start, start + length);
            assert(bytes@ =~= whole.subrange(0, length as int));
            let word = le_decode(bytes);
            proof {
                lemma_u64_shr_is_div(word, length as u64);
            }
            word >> (length as u64)
        };
        self.position = self.position + length as u64;
        Ok(value)
    }

    /// Reads the body of a nested composite value into `value`.
    pub fn read_struct<S: Struct>(&mut self, value: &mut S) -> (r: Result<(), Error>)
        ensures
            match old(value).decoding_body(old(self)@) {
                Ok(rest) => {
                    &&& r is Ok
                    &&& final(self)@ == rest
                    &&& old(value).decoded_body(old(self)@, *final(value))
                },
                Err(e) => r == Err::<(), Error>(e),
            },
    {
        value.decode_body(self)
    }
}

} // verus!
