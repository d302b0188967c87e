//! Fixed-width integers on the wire: the bytes of the type's width, least
//! significant first, with negative numbers in two's complement. Every bit
//! pattern of the right length is a value.

use crate::error::Error;
use crate::le::{
    le_bytes, le_encode, le_value, lemma_le_bytes_len, lemma_le_bytes_of_value,
    lemma_le_value_bound, lemma_le_value_of_bytes,
};
use crate::reader::Reader;
use crate::writer::Writer;
use vstd::arithmetic::power2::*;
use vstd::prelude::*;

verus! {

/// The number below `2^bits` that stands for `value` in two's complement.
pub open spec fn to_unsigned(value: int, bits: nat) -> nat {
    if value >= 0 {
        value as nat
    } else {
        (value + pow2(bits)) as nat
    }
}

/// The number that `raw` stands for in two's complement of `bits` bits.
pub open spec fn to_signed(raw: nat, bits: nat) -> int {
    if raw < pow2((bits - 1) as nat) {
        raw as int
    } else {
        raw - pow2(bits)
    }
}

/// An integer that is written as the bytes of its width, least significant first.
pub trait Primitive: Sized {
    /// The number of bytes that every value of the type takes.
    spec fn width() -> nat;

    /// The bytes that stand for `self`.
    spec fn wire(self) -> Seq<u8>;

    /// The value that `bytes` stand for.
    spec fn from_wire(bytes: Seq<u8>) -> Self;

    /// The bytes of a value are as many as the type takes, and stand for it.
    proof fn lemma_round_trip(self)
        ensures
            self.wire().len() == Self::width(),
            Self::from_wire(self.wire()) == self,
    ;

    /// Any bytes of the type's width are the bytes of the value they stand for.
    proof fn lemma_every_pattern(bytes: Seq<u8>)
        requires
            bytes.len() == Self::width(),
        ensures
            Self::from_wire(bytes).wire() == bytes,
    ;

    /// Writes the bytes of `self`.
    fn write(self, writer: &mut Writer) -> (r: Result<(), Error>)
        ensures
            r is Ok,
            final(writer)@ == old(writer)@.append(self.wire()),
    ;

    /// Reads the value that the next bytes stand for, or fails and reads
    /// nothing where fewer are left than the type takes.
    fn read(reader: &mut Reader) -> (r: Result<Self, Error>)
        ensures
            match r {
                Ok(value) => {
                    &&& Self::width() <= old(reader)@.remaining().len()
                    &&& value == Self::from_wire(old(reader)@.remaining().take(Self::width() as int))
                    &&& final(reader)@ == old(reader)@.advance(Self::width())
                },
                Err(e) => {
                    &&& e == Error::Truncation
                    &&& old(reader)@.remaining().len() < Self::width()
                    &&& final(reader)@ == old(reader)@
                },
            },
    ;
}

impl Primitive for u8 {
    open spec fn width() -> nat {
        1
    }

    open spec fn wire(self) -> Seq<u8> {
        le_bytes(self as nat, 1)
    }

    open spec fn from_wire(bytes: Seq<u8>) -> Self {
        le_value(bytes) as u8
    }

    proof fn lemma_round_trip(self) {
        lemma2_to64();
        lemma_le_bytes_len(self as nat, 1);
        lemma_le_value_of_bytes(self as nat, 1);
    }

    proof fn lemma_every_pattern(bytes: Seq<u8>) {
        lemma2_to64();
        lemma_le_value_bound(bytes);
        lemma_le_bytes_of_value(bytes);
    }

    fn write(self, writer: &mut Writer) -> (r: Result<(), Error>) {
        let bytes = le_encode(self as u64, 1);
        writer.write_all(bytes.as_slice())
    }

    fn read(reader: &mut Reader) -> (r: Result<Self, Error>) {
        let ghost taken = reader@.remaining().take(1);
        let raw = reader.read_le(1)?;
        proof {
            lemma2_to64();
            lemma_le_value_bound(taken);
        }
        Ok(raw as u8)
    }
}

impl Primitive for u16 {
    open spec fn width() -> nat {
        2
    }

    open spec fn wire(self) -> Seq<u8> {
        le_bytes(self as nat, 2)
    }

    open spec fn from_wire(bytes: Seq<u8>) -> Self {
        le_value(bytes) as u16
    }

    proof fn lemma_round_trip(self) {
        lemma2_to64();
        lemma_le_bytes_len(self as nat, 2);
        lemma_le_value_of_bytes(self as nat, 2);
    }

    proof fn lemma_every_pattern(bytes: Seq<u8>) {
        lemma2_to64();
        lemma_le_value_bound(bytes);
        lemma_le_bytes_of_value(bytes);
    }

    fn write(self, writer: &mut Writer) -> (r: Result<(), Error>) {
        let bytes = le_encode(self as u64, 2);
        writer.write_all(bytes.as_slice())
    }

    fn read(reader: &mut Reader) -> (r: Result<Self, Error>) {
        let ghost taken = reader@.remaining().take(2);
        let raw = reader.read_le(2)?;
        proof {
            lemma2_to64();
            lemma_le_value_bound(taken);
        }
        Ok(raw as u16)
    }
}

impl Primitive for u32 {
    open spec fn width() -> nat {
        4
    }

    open spec fn wire(self) -> Seq<u8> {
        le_bytes(self as nat, 4)
    }

    open spec fn from_wire(bytes: Seq<u8>) -> Self {
        le_value(bytes) as u32
    }

    proof fn lemma_round_trip(self) {
        lemma2_to64();
        lemma_le_bytes_len(self as nat, 4);
        lemma_le_value_of_bytes(self as nat, 4);
    }

    proof fn lemma_every_pattern(bytes: Seq<u8>) {
        lemma2_to64();
        lemma_le_value_bound(bytes);
        lemma_le_bytes_of_value(bytes);
    }

    fn write(self, writer: &mut Writer) -> (r: Result<(), Error>) {
        let bytes = le_encode(self as u64, 4);
        writer.write_all(bytes.as_slice())
    }

    fn read(reader: &mut Reader) -> (r: Result<Self, Error>) {
        let ghost taken = reader@.remaining().take(4);
        let raw = reader.read_le(4)?;
        proof {
            lemma2_to64();
            lemma_le_value_bound(taken);
        }
        Ok(raw as u32)
    }
}

impl Primitive for u64 {
    open spec fn width() -> nat {
        8
    }

    open spec fn wire(self) -> Seq<u8> {
        le_bytes(self as nat, 8)
    }

    open spec fn from_wire(bytes: Seq<u8>) -> Self {
        le_value(bytes) as u64
    }

    proof fn lemma_round_trip(self) {
        lemma2_to64();
        lemma_le_bytes_len(self as nat, 8);
        lemma_le_value_of_bytes(self as nat, 8);
    }

    proof fn lemma_every_pattern(bytes: Seq<u8>) {
        lemma2_to64();
        lemma_le_value_bound(bytes);
        lemma_le_bytes_of_value(bytes);
    }

    fn write(self, writer: &mut Writer) -> (r: Result<(), Error>) {
        let bytes = le_encode(self, 8);
        writer.write_all(bytes.as_slice())
    }

    fn read(reader: &mut Reader) -> (r: Result<Self, Error>) {
        let ghost taken = reader@.remaining().take(8);
        let raw = reader.read_le(8)?;
        proof {
            lemma2_to64();
            lemma_le_value_bound(taken);
        }
        Ok(raw)
    }
}

impl Primitive for i8 {
    open spec fn width() -> nat {
        1
    }

    open spec fn wire(self) -> Seq<u8> {
        le_bytes(to_unsigned(self as int, 8), 1)
    }

    open spec fn from_wire(bytes: Seq<u8>) -> Self {
        to_signed(le_value(bytes), 8) as i8
    }

    proof fn lemma_round_trip(self) {
        lemma2_to64();
        let raw = to_unsigned(self as int, 8);
        lemma_le_bytes_len(raw, 1);
        lemma_le_value_of_bytes(raw, 1);
    }

    proof fn lemma_every_pattern(bytes: Seq<u8>) {
        lemma2_to64();
        lemma_le_value_bound(bytes);
        lemma_le_bytes_of_value(bytes);
    }

    fn write(self, writer: &mut Writer) -> (r: Result<(), Error>) {
        let raw = self as u8;
        proof {
            lemma2_to64();
            assert(raw as int == (if self >= 0 {
                self as int
            } else {
                self as int + 0x100
            })) by (bit_vector)
                requires
                    raw == self as u8,
            ;
        }
        let bytes = le_encode(raw as u64, 1);
        writer.write_all(bytes.as_slice())
    }

    fn read(reader: &mut Reader) -> (r: Result<Self, Error>) {
        let ghost taken = reader@.remaining().take(1);
        let raw = reader.read_le(1)?;
        proof {
            lemma2_to64();
            lemma_le_value_bound(taken);
        }
        let narrow = raw as u8;
        let value = narrow as i8;
        proof {
            assert(value as int == (if narrow < 0x80u8 {
                narrow as int
            } else {
                narrow as int - 0x100
            })) by (bit_vector)
                requires
                    value == narrow as i8,
            ;
        }
        Ok(value)
    }
}

impl Primitive for i16 {
    open spec fn width() -> nat {
        2
    }

    open spec fn wire(self) -> Seq<u8> {
        le_bytes(to_unsigned(self as int, 16), 2)
    }

    open spec fn from_wire(bytes: Seq<u8>) -> Self {
        to_signed(le_value(bytes), 16) as i16
    }

    proof fn lemma_round_trip(self) {
        lemma2_to64();
        let raw = to_unsigned(self as int, 16);
        lemma_le_bytes_len(raw, 2);
        lemma_le_value_of_bytes(raw, 2);
    }

    proof fn lemma_every_pattern(bytes: Seq<u8>) {
        lemma2_to64();
        lemma_le_value_bound(bytes);
        lemma_le_bytes_of_value(bytes);
    }

    fn write(self, writer: &mut Writer) -> (r: Result<(), Error>) {
        let raw = self as u16;
        proof {
            lemma2_to64();
            assert(raw as int == (if self >= 0 {
                self as int
            } else {
                self as int + 0x1_0000
            })) by (bit_vector)
                requires
                    raw == self as u16,
            ;
        }
        let bytes = le_encode(raw as u64, 2);
        writer.write_all(bytes.as_slice())
    }

    fn read(reader: &mut Reader) -> (r: Result<Self, Error>) {
        let ghost taken = reader@.remaining().take(2);
        let raw = reader.read_le(2)?;
        proof {
            lemma2_to64();
            lemma_le_value_bound(taken);
        }
        let narrow = raw as u16;
        let value = narrow as i16;
        proof {
            assert(value as int == (if narrow < 0x8000u16 {
                narrow as int
            } else {
                narrow as int - 0x1_0000
            })) by (bit_vector)
                requires
                    value == narrow as i16,
            ;
        }
        Ok(value)
    }
}

impl Primitive for i32 {
    open spec fn width() -> nat {
        4
    }

    open spec fn wire(self) -> Seq<u8> {
        le_bytes(to_unsigned(self as int, 32), 4)
    }

    open spec fn from_wire(bytes: Seq<u8>) -> Self {
        to_signed(le_value(bytes), 32) as i32
    }

    proof fn lemma_round_trip(self) {
        lemma2_to64();
        let raw = to_unsigned(self as int, 32);
        lemma_le_bytes_len(raw, 4);
        lemma_le_value_of_bytes(raw, 4);
    }

    proof fn lemma_every_pattern(bytes: Seq<u8>) {
        lemma2_to64();
        lemma_le_value_bound(bytes);
        lemma_le_bytes_of_value(bytes);
    }

    fn write(self, writer: &mut Writer) -> (r: Result<(), Error>) {
        let raw = self as u32;
        proof {
            lemma2_to64();
            assert(raw as int == (if self >= 0 {
                self as int
            } else {
                self as int + 0x1_0000_0000
            })) by (bit_vector)
                requires
                    raw == self as u32,
            ;
        }
        let bytes = le_encode(raw as u64, 4);
        writer.write_all(bytes.as_slice())
    }

    fn read(reader: &mut Reader) -> (r: Result<Self, Error>) {
        let ghost taken = reader@.remaining().take(4);
        let raw = reader.read_le(4)?;
        proof {
            lemma2_to64();
            lemma_le_value_bound(taken);
        }
        let narrow = raw as u32;
        let value = narrow as i32;
        proof {
            assert(value as int == (if narrow < 0x8000_0000u32 {
                narrow as int
            } else {
                narrow as int - 0x1_0000_0000
            })) by (bit_vector)
                requires
                    value == narrow as i32,
            ;
        }
        Ok(value)
    }
}

impl Primitive for i64 {
    open spec fn width() -> nat {
        8
    }

    open spec fn wire(self) -> Seq<u8> {
        le_bytes(to_unsigned(self as int, 64), 8)
    }

    open spec fn from_wire(bytes: Seq<u8>) -> Self {
        to_signed(le_value(bytes), 64) as i64
    }

    proof fn lemma_round_trip(self) {
        lemma2_to64();
            lemma2_to64_rest();
        let raw = to_unsigned(self as int, 64);
        lemma_le_bytes_len(raw, 8);
        lemma_le_value_of_bytes(raw, 8);
    }

    proof fn lemma_every_pattern(bytes: Seq<u8>) {
        lemma2_to64();
            lemma2_to64_rest();
        lemma_le_value_bound(bytes);
        lemma_le_bytes_of_value(bytes);
    }

    fn write(self, writer: &mut Writer) -> (r: Result<(), Error>) {
        let raw = self as u64;
        proof {
            lemma2_to64();
            lemma2_to64_rest();
            assert(raw as int == (if self >= 0 {
                self as int
            } else {
                self as int + 0x1_0000_0000_0000_0000
            })) by (bit_vector)
                requires
                    raw == self as u64,
            ;
        }
        let bytes = le_encode(raw, 8);
        writer.write_all(bytes.as_slice())
    }

    fn read(reader: &mut Reader) -> (r: Result<Self, Error>) {
        let ghost taken = reader@.remaining().take(8);
        let raw = reader.read_le(8)?;
        proof {
            lemma2_to64();
    lemma2_to64_rest();
            lemma_le_value_bound(taken);
        }
        let narrow = raw;
        let value = narrow as i64;
        proof {
            assert(value as int == (if narrow < 0x8000_0000_0000_0000u64 {
                narrow as int
            } else {
                narrow as int - 0x1_0000_0000_0000_0000
            })) by (bit_vector)
                requires
                    value == narrow as i64,
            ;
        }
        Ok(value)
    }
}

/// The number of bytes of a pointer-width integer on this machine.
pub(crate) fn pointer_width() -> (width: usize)
    ensures
        width == usize::BITS / 8,
        width == 4 || width == 8,
{
    (usize::BITS / 8) as usize
}

/// A pointer-width integer takes the width of the machine that writes it.
/// Bytes that a machine of one width wrote do not read back alike on a
/// machine of another: a schema that crosses machines wants a fixed width.
impl Primitive for usize {
    open spec fn width() -> nat {
        (usize::BITS / 8) as nat
    }

    open spec fn wire(self) -> Seq<u8> {
        le_bytes(self as nat, (usize::BITS / 8) as nat)
    }

    open spec fn from_wire(bytes: Seq<u8>) -> Self {
        le_value(bytes) as usize
    }

    proof fn lemma_round_trip(self) {
        lemma2_to64();
        lemma_le_bytes_len(self as nat, (usize::BITS / 8) as nat);
        lemma_le_value_of_bytes(self as nat, (usize::BITS / 8) as nat);
    }

    proof fn lemma_every_pattern(bytes: Seq<u8>) {
        lemma2_to64();
        lemma_le_value_bound(bytes);
        lemma_le_bytes_of_value(bytes);
    }

    fn write(self, writer: &mut Writer) -> (r: Result<(), Error>) {
        let bytes = le_encode(self as u64, pointer_width());
        writer.write_all(bytes.as_slice())
    }

    fn read(reader: &mut Reader) -> (r: Result<Self, Error>) {
        let width = pointer_width();
        let ghost taken = reader@.remaining().take(width as int);
        let raw = reader.read_le(width)?;
        proof {
            lemma2_to64();
            lemma_le_value_bound(taken);
        }
        Ok(raw as usize)
    }
}

/// A signed pointer-width integer, of the width of the machine as `usize` is.
impl Primitive for isize {
    open spec fn width() -> nat {
        (usize::BITS / 8) as nat
    }

    open spec fn wire(self) -> Seq<u8> {
        le_bytes(to_unsigned(self as int, usize::BITS as nat), (usize::BITS / 8) as nat)
    }

    open spec fn from_wire(bytes: Seq<u8>) -> Self {
        to_signed(le_value(bytes), usize::BITS as nat) as isize
    }

    proof fn lemma_round_trip(self) {
        lemma2_to64();
        lemma2_to64_rest();
        let raw = to_unsigned(self as int, usize::BITS as nat);
        lemma_le_bytes_len(raw, (usize::BITS / 8) as nat);
        lemma_le_value_of_bytes(raw, (usize::BITS / 8) as nat);
    }

    proof fn lemma_every_pattern(bytes: Seq<u8>) {
        lemma2_to64();
        lemma2_to64_rest();
        lemma_le_value_bound(bytes);
        lemma_le_bytes_of_value(bytes);
    }

    fn write(self, writer: &mut Writer) -> (r: Result<(), Error>) {
        if pointer_width() == 8 {
            (self as i64).write(writer)
        } else {
            (self as i32).write(writer)
        }
    }

    fn read(reader: &mut Reader) -> (r: Result<Self, Error>) {
        if pointer_width() == 8 {
            Ok(i64::read(reader)? as isize)
        } else {
            Ok(i32::read(reader)? as isize)
        }
    }
}

} // verus!
