//! Runtime codec of a compact, schema-driven binary message format.
//!
//! Values become bytes through a [`Writer`] and bytes become values through
//! a [`Reader`]. Integers of fixed width are written least significant byte
//! first, lengths as varints of one to nine bytes, strings as a length and
//! their UTF-8 bytes. A [`Message`] is framed into a head, which begins with
//! the [`Preamble`], and a tail.

pub mod compiler;
pub mod enums;
pub mod error;
pub mod le;
pub mod message;
pub mod primitive;
pub mod reader;
pub mod string;
pub mod varint;
pub mod writer;

pub use array_init::array_init;
pub use compiler::{compiler_arguments, compiler_outcome};
pub use enums::{discriminant_index, Bitfield};
pub use error::Error;
pub use message::{
    read_head_only, read_head_tail, read_preamble, write_head_only, write_head_tail,
    write_preamble, Message, Preamble, Struct,
};
pub use primitive::Primitive;
pub use reader::Reader;
pub use varint::size_of_varint;
pub use writer::Writer;
