//! Nested composites, top-level messages, and the framing of a message into a
//! head that begins with a preamble and a tail whose length the preamble gives.

use crate::error::Error;
use crate::le::{le_bytes, le_value, lemma_le_bytes_len, lemma_le_value_of_bytes};
use crate::reader::{Input, Reader};
use crate::writer::Writer;
use vstd::arithmetic::power2::*;
use vstd::prelude::*;

verus! {

/// A nested composite value: one contiguous body, its fields in declared
/// order, with no identity and no framing of its own.
///
/// What the methods do is stated over three functions of the value:
/// `encoded_body`, `decoding_body` and `decoded_body`. A type that is verified
/// defines them and is held to them. For any other type they stand for
/// whatever its methods do, and all that is then claimed of the methods is
/// that they treat equal values and equal inputs alike.
pub trait Struct: Sized {
    /// The body that `encode_body` writes, or the error it fails with.
    open spec fn encoded_body(&self) -> Result<Seq<u8>, Error> {
        arbitrary::<spec_fn(Self) -> Result<Seq<u8>, Error>>()(*self)
    }

    /// How `decode_body` fares when it reads `input` into `self`: where the
    /// input stands after it, or the error it fails with.
    open spec fn decoding_body(&self, input: Input) -> Result<Input, Error> {
        arbitrary::<spec_fn(Self, Input) -> Result<Input, Error>>()(*self, input)
    }

    /// Whether `decoded` is what `decode_body` makes of `self` when it reads
    /// `input`. A type says here what its fields hold after decoding, each by
    /// its view.
    open spec fn decoded_body(&self, input: Input, decoded: Self) -> bool {
        arbitrary::<spec_fn(Self, Input, Self) -> bool>()(*self, input, decoded)
    }

    /// The exact number of bytes that the body takes.
    fn size_of_body(&self) -> (size: usize)
        ensures
            self.encoded_body() matches Ok(body) ==> size == body.len(),
    ;

    /// Writes every field in declared order.
    fn encode_body(&self, writer: &mut Writer) -> (r: Result<(), Error>)
        ensures
            match self.encoded_body() {
                Ok(body) => r is Ok && final(writer)@ == old(writer)@.append(body),
                Err(e) => r == Err::<(), Error>(e),
            },
    ;

    /// Reads every field in declared order into `self`.
    fn decode_body(&mut self, reader: &mut Reader) -> (r: Result<(), Error>)
        ensures
            match old(self).decoding_body(old(reader)@) {
                Ok(rest) => {
                    &&& r is Ok
                    &&& final(reader)@ == rest
                    &&& old(self).decoded_body(old(reader)@, *final(self))
                },
                Err(e) => r == Err::<(), Error>(e),
            },
    ;
}

/// A top-level value with an identity of its own, split into a head and a tail.
///
/// The head begins with the preamble: the message's id and the length of its
/// tail. After it stand the fields that live in the head, within the budget
/// of the type. Which fields live in the head and which in the tail is the
/// schema's choice.
///
/// What the methods do is stated over functions of the value, as for
/// [`Struct`]: a type that is verified defines them, and for any other type
/// they stand for whatever its methods do.
pub trait Message: Sized {
    /// The identity that all values of the type share.
    const MESSAGE_ID: u32;

    /// The byte budget of the head, the same for every value of the type.
    const HEAD_SIZE: usize;

    /// The meaningful bytes of the head, which `encode_head` writes, or the
    /// error it fails with.
    open spec fn encoded_head(&self) -> Result<Seq<u8>, Error> {
        arbitrary::<spec_fn(Self) -> Result<Seq<u8>, Error>>()(*self)
    }

    /// The tail that `encode_tail` writes, or the error it fails with.
    open spec fn encoded_tail(&self) -> Result<Seq<u8>, Error> {
        arbitrary::<spec_fn(Self) -> Result<Seq<u8>, Error>>()(*self)
    }

    /// How `decode_head` fares when it reads `input` into `self`: where the
    /// input stands after it, or the error it fails with.
    open spec fn decoding_head(&self, input: Input) -> Result<Input, Error> {
        arbitrary::<spec_fn(Self, Input) -> Result<Input, Error>>()(*self, input)
    }

    /// Whether `decoded` is what `decode_head` makes of `self` when it reads
    /// `input`.
    open spec fn decoded_head(&self, input: Input, decoded: Self) -> bool {
        arbitrary::<spec_fn(Self, Input, Self) -> bool>()(*self, input, decoded)
    }

    /// How `decode_tail` fares when it reads `input` into `self`: where the
    /// input stands after it, or the error it fails with.
    open spec fn decoding_tail(&self, input: Input) -> Result<Input, Error> {
        arbitrary::<spec_fn(Self, Input) -> Result<Input, Error>>()(*self, input)
    }

    /// Whether `decoded` is what `decode_tail` makes of `self` when it reads
    /// `input`.
    open spec fn decoded_tail(&self, input: Input, decoded: Self) -> bool {
        arbitrary::<spec_fn(Self, Input, Self) -> bool>()(*self, input, decoded)
    }

    /// The number of meaningful bytes in the head of this value.
    fn size_of_head(&self) -> (size: usize)
        ensures
            self.encoded_head() matches Ok(head) ==> size == head.len(),
    ;

    /// The exact number of bytes that the tail of this value takes.
    fn size_of_tail(&self) -> (size: usize)
        ensures
            self.encoded_tail() matches Ok(tail) ==> size == tail.len(),
    ;

    /// Writes the preamble and the fields that live in the head. A value
    /// whose head and tail both encode keeps to the layout: its head fits
    /// the budget and begins with the id of the type and the length of the
    /// tail.
    fn encode_head(&self, writer: &mut Writer) -> (r: Result<(), Error>)
        ensures
            match self.encoded_head() {
                Ok(head) => r is Ok && final(writer)@ == old(writer)@.append(head),
                Err(e) => r == Err::<(), Error>(e),
            },
            match (self.encoded_head(), self.encoded_tail()) {
                (Ok(head), Ok(tail)) => well_framed(
                    head,
                    tail,
                    Self::MESSAGE_ID,
                    Self::HEAD_SIZE as nat,
                ),
                _ => true,
            },
    ;

    /// Writes the fields that live in the tail.
    fn encode_tail(&self, writer: &mut Writer) -> (r: Result<(), Error>)
        ensures
            match self.encoded_tail() {
                Ok(tail) => r is Ok && final(writer)@ == old(writer)@.append(tail),
                Err(e) => r == Err::<(), Error>(e),
            },
    ;

    /// Reads the preamble and the fields that live in the head into `self`.
    fn decode_head(&mut self, reader: &mut Reader) -> (r: Result<(), Error>)
        ensures
            match old(self).decoding_head(old(reader)@) {
                Ok(rest) => {
                    &&& r is Ok
                    &&& final(reader)@ == rest
                    &&& old(self).decoded_head(old(reader)@, *final(self))
                },
                Err(e) => r == Err::<(), Error>(e),
            },
    ;

    /// Reads the fields that live in the tail into `self`.
    fn decode_tail(&mut self, reader: &mut Reader) -> (r: Result<(), Error>)
        ensures
            match old(self).decoding_tail(old(reader)@) {
                Ok(rest) => {
                    &&& r is Ok
                    &&& final(reader)@ == rest
                    &&& old(self).decoded_tail(old(reader)@, *final(self))
                },
                Err(e) => r == Err::<(), Error>(e),
            },
    ;
}

/// The first eight bytes of every message head: the id of the message and the
/// length of its tail in bytes.
#[derive(Debug, Clone, Copy)]
pub struct Preamble {
    id: u32,
    tail_size: u32,
}

impl View for Preamble {
    type V = (u32, u32);

    /// The id and the tail size.
    closed spec fn view(&self) -> (u32, u32) {
        (self.id, self.tail_size)
    }
}

impl Preamble {
    /// The preamble of a message with the given id and tail size.
    pub fn new(id: u32, tail_size: u32) -> (preamble: Self)
        ensures
            preamble@ == (id, tail_size),
    {
        Preamble { id, tail_size }
    }

    /// The id of the message.
    pub fn id(&self) -> (id: u32)
        ensures
            id == self@.0,
    {
        self.id
    }

    /// The length of the tail of the message in bytes.
    pub fn tail_size(&self) -> (tail_size: u32)
        ensures
            tail_size == self@.1,
    {
        self.tail_size
    }
}

/// The eight bytes of a preamble: the id, then the tail size, each in four
/// bytes, least significant first.
pub open spec fn encode_preamble(preamble: (u32, u32)) -> Seq<u8> {
    le_bytes(preamble.0 as nat, 4) + le_bytes(preamble.1 as nat, 4)
}

/// The preamble that stands at the front of `bytes`, or `None` where `bytes`
/// holds fewer than eight bytes.
pub open spec fn decode_preamble(bytes: Seq<u8>) -> Option<(u32, u32)> {
    if bytes.len() < 8 {
        None
    } else {
        Some((le_value(bytes.subrange(0, 4)) as u32, le_value(bytes.subrange(4, 8)) as u32))
    }
}

/// Decoding the bytes of a preamble gives the preamble back, whatever follows
/// them.
pub proof fn lemma_preamble_round_trip(preamble: (u32, u32), rest: Seq<u8>)
    ensures
        encode_preamble(preamble).len() == 8,
        decode_preamble(encode_preamble(preamble) + rest) == Some(preamble),
{
    let id = le_bytes(preamble.0 as nat, 4);
    let tail_size = le_bytes(preamble.1 as nat, 4);
    let whole = encode_preamble(preamble) + rest;
    lemma2_to64();
    lemma_le_bytes_len(preamble.0 as nat, 4);
    lemma_le_bytes_len(preamble.1 as nat, 4);
    lemma_le_value_of_bytes(preamble.0 as nat, 4);
    lemma_le_value_of_bytes(preamble.1 as nat, 4);
    assert(whole.subrange(0, 4) =~= id);
    assert(whole.subrange(4, 8) =~= tail_size);
}

/// Whether a head and a tail keep to the layout of a message of the type
/// with the id `id` and the head budget `budget`: the head fits the budget
/// and begins with the preamble that holds the id and the length of the tail.
pub open spec fn well_framed(head: Seq<u8>, tail: Seq<u8>, id: u32, budget: nat) -> bool {
    &&& 8 <= head.len() <= budget
    &&& tail.len() <= u32::MAX
    &&& head.take(8) == encode_preamble((id, tail.len() as u32))
}

/// Reads the preamble that stands next in `reader` and leaves `reader` where
/// it was, whether there is one or not: what is decoded from `reader` after a
/// look at the preamble is what would have been decoded without it.
pub fn read_preamble(reader: &mut Reader) -> (r: Result<Preamble, Error>)
    ensures
        final(reader)@ == old(reader)@,
        match decode_preamble(old(reader)@.remaining()) {
            Some(preamble) => r matches Ok(read) && read@ == preamble,
            None => r matches Err(e) && e == Error::Truncation,
        },
{
    let ghost whole = reader@.remaining();
    let start = reader.offset()?;
    let id = reader.read_integer::<u32>()?;
    assert(whole.take(4) =~= whole.subrange(0, 4));
    assert(reader@.remaining().len() >= 4 ==> reader@.remaining().take(4) =~= whole.subrange(
        4,
        8,
    ));
    let tail_size = match reader.read_integer::<u32>() {
        Ok(tail_size) => tail_size,
        Err(e) => {
            let _ = reader.seek(start);
            return Err(e);
        },
    };
    let _ = reader.seek(start);
    Ok(Preamble::new(id, tail_size))
}

/// Writes the eight bytes of `preamble`.
pub fn write_preamble(writer: &mut Writer, preamble: Preamble) -> (r: Result<(), Error>)
    ensures
        r is Ok,
        final(writer)@ == old(writer)@.append(encode_preamble(preamble@)),
{
    writer.write_integer(preamble.id())?;
    writer.write_integer(preamble.tail_size())?;
    assert(writer@.bytes =~= old(writer)@.bytes + encode_preamble(preamble@));
    Ok(())
}

/// Whether `buffer` is the head buffer of a type with the budget `budget`
/// whose meaningful bytes are `head`: it is exactly as long as the budget,
/// and begins with `head`, or with as much of it as the budget holds. The
/// bytes after `head` are whatever they are.
pub open spec fn is_head_buffer(buffer: Seq<u8>, head: Seq<u8>, budget: nat) -> bool {
    &&& buffer.len() == budget
    &&& forall|i: int| 0 <= i < head.len() && i < budget ==> buffer[i] == head[i]
}

/// The preamble that is read from the head buffer of a message that keeps to
/// the layout holds the id of the type and the length of the tail.
pub proof fn lemma_preamble_of_buffer(
    buffer: Seq<u8>,
    head: Seq<u8>,
    tail: Seq<u8>,
    id: u32,
    budget: nat,
)
    requires
        well_framed(head, tail, id, budget),
        is_head_buffer(buffer, head, budget),
    ensures
        decode_preamble(buffer) == Some((id, tail.len() as u32)),
{
    let preamble = (id, tail.len() as u32);
    assert(buffer.take(8) =~= head.take(8));
    assert(buffer =~= encode_preamble(preamble) + buffer.skip(8));
    lemma_preamble_round_trip(preamble, buffer.skip(8));
}

/// Pads or cuts `written` to exactly `budget` bytes.
fn head_buffer(written: Vec<u8>, budget: usize) -> (buffer: Vec<u8>)
    ensures
        is_head_buffer(buffer@, written@, budget as nat),
{
    let mut buffer = written;
    buffer.resize(budget, 0u8);
    buffer
}

/// What `read_head_tail` comes to when it starts from `initial`, with
/// `headed` for the value that the head gave: the head's error with the tail
/// input untouched, or else the tail's error or the message, with each input
/// where its decoding left it.
pub open spec fn head_tail_read<M: Message>(
    initial: M,
    headed: M,
    head: Input,
    tail: Input,
    r: Result<M, Error>,
    head_after: Input,
    tail_after: Input,
) -> bool {
    match initial.decoding_head(head) {
        Err(e) => r == Err::<M, Error>(e) && tail_after == tail,
        Ok(head_rest) => {
            &&& head_after == head_rest
            &&& initial.decoded_head(head, headed)
            &&& match headed.decoding_tail(tail) {
                Err(e) => r == Err::<M, Error>(e),
                Ok(tail_rest) => {
                    &&& tail_after == tail_rest
                    &&& r matches Ok(message)
                    &&& headed.decoded_tail(tail, message)
                },
            }
        },
    }
}

/// Decodes a message from its head and its tail: the head is read into the
/// default value of the type, then the tail into what the head gave. Where
/// the head fails the tail is not read.
pub fn read_head_tail<M: Default + Message>(
    head_reader: &mut Reader,
    tail_reader: &mut Reader,
) -> (r: Result<M, Error>)
    ensures
        exists|initial: M, headed: M|
            call_ensures(M::default, (), initial) && #[trigger] head_tail_read(
                initial,
                headed,
                old(head_reader)@,
                old(tail_reader)@,
                r,
                final(head_reader)@,
                final(tail_reader)@,
            ),
{
    let mut message = M::default();
    let ghost initial = message;
    match message.decode_head(head_reader) {
        Err(e) => {
            let r = Err(e);
            assert(head_tail_read(
                initial,
                initial,
                old(head_reader)@,
                old(tail_reader)@,
                r,
                head_reader@,
                tail_reader@,
            ));
            r
        },
        Ok(_) => {
            let ghost headed = message;
            let r = match message.decode_tail(tail_reader) {
                Err(e) => Err(e),
                Ok(_) => Ok(message),
            };
            assert(head_tail_read(
                initial,
                headed,
                old(head_reader)@,
                old(tail_reader)@,
                r,
                head_reader@,
                tail_reader@,
            ));
            r
        },
    }
}

/// Decodes a message from its head alone: the head is read into the default
/// value of the type.
pub fn read_head_only<M: Default + Message>(head_reader: &mut Reader) -> (r: Result<M, Error>)
    ensures
        exists|initial: M| #[trigger]
            call_ensures(M::default, (), initial) && match initial.decoding_head(
                old(head_reader)@,
            ) {
                Err(e) => r == Err::<M, Error>(e),
                Ok(rest) => {
                    &&& r matches Ok(message)
                    &&& initial.decoded_head(old(head_reader)@, message)
                    &&& final(head_reader)@ == rest
                },
            },
{
    let mut message = M::default();
    message.decode_head(head_reader)?;
    Ok(message)
}

/// Encodes the head and the tail of `message`, each into a buffer of its own.
/// The head buffer is exactly as long as the budget of the type and begins
/// with the meaningful bytes of the head; the tail buffer is the tail, and
/// the preamble that is read from the head buffer gives its length. Where the
/// head fails the tail is not tried.
pub fn write_head_tail<M: Message>(message: &M) -> (r: Result<(Vec<u8>, Vec<u8>), Error>)
    ensures
        match (message.encoded_head(), message.encoded_tail()) {
            (Ok(head), Ok(tail)) => {
                &&& r matches Ok(buffers)
                &&& is_head_buffer(buffers.0@, head, M::HEAD_SIZE as nat)
                &&& buffers.1@ == tail
                &&& decode_preamble(buffers.0@) == Some((M::MESSAGE_ID, tail.len() as u32))
            },
            (Ok(_), Err(e)) => r matches Err(failure) && failure == e,
            (Err(e), _) => r matches Err(failure) && failure == e,
        },
{
    let mut head_writer = Writer::new(Vec::with_capacity(M::HEAD_SIZE));
    let mut tail_writer = Writer::new(Vec::with_capacity(message.size_of_tail()));
    message.encode_head(&mut head_writer)?;
    message.encode_tail(&mut tail_writer)?;
    let head = head_buffer(head_writer.into_inner(), M::HEAD_SIZE);
    let tail = tail_writer.into_inner();
    proof {
        lemma_preamble_of_buffer(
            head@,
            message.encoded_head().unwrap(),
            tail@,
            M::MESSAGE_ID,
            M::HEAD_SIZE as nat,
        );
    }
    Ok((head, tail))
}

/// Encodes the head of `message` into a buffer of its own, which is exactly
/// as long as the budget of the type and begins with the meaningful bytes of
/// the head.
pub fn write_head_only<M: Message>(message: &M) -> (r: Result<Vec<u8>, Error>)
    ensures
        match message.encoded_head() {
            Ok(head) => {
                &&& r matches Ok(buffer)
                &&& is_head_buffer(buffer@, head, M::HEAD_SIZE as nat)
                &&& message.encoded_tail() matches Ok(tail) ==> decode_preamble(buffer@) == Some(
                    (M::MESSAGE_ID, tail.len() as u32),
                )
            },
            Err(e) => r matches Err(failure) && failure == e,
        },
{
    let mut head_writer = Writer::new(Vec::with_capacity(M::HEAD_SIZE));
    message.encode_head(&mut head_writer)?;
    let head = head_buffer(head_writer.into_inner(), M::HEAD_SIZE);
    proof {
        if message.encoded_tail() is Ok {
            lemma_preamble_of_buffer(
                head@,
                message.encoded_head().unwrap(),
                message.encoded_tail().unwrap(),
                M::MESSAGE_ID,
                M::HEAD_SIZE as nat,
            );
        }
    }
    Ok(head)
}

} // verus!
