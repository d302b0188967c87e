use bragi::{
    array_init, discriminant_index, read_head_only, size_of_varint, write_head_only,
    write_preamble, Error, Message, Preamble, Reader, Writer,
};

#[derive(Debug, Clone, Copy, PartialEq, Eq, Hash)]
enum Foo {
    A,
    B,
    C,
    D,
    E,
    F,
}

impl Foo {
    fn value(self) -> u8 {
        match self {
            Foo::A => 1,
            Foo::B => 2,
            Foo::C => 4,
            Foo::D => 5,
            Foo::E => 6,
            Foo::F => 7,
        }
    }
}

impl TryFrom<u8> for Foo {
    type Error = u8;

    fn try_from(value: u8) -> Result<Self, Self::Error> {
        let variants = [Foo::A, Foo::B, Foo::C, Foo::D, Foo::E, Foo::F];
        let declared = variants.map(|variant| variant.value() as u64);
        match discriminant_index(&declared, value as u64) {
            Ok(index) => Ok(variants[index]),
            Err(_) => Err(value),
        }
    }
}

#[derive(Debug, Default, Clone, Copy, PartialEq, Eq, Hash)]
struct Bar(u8);

#[allow(dead_code)]
impl Bar {
    const A: Self = Self(1);
    const B: Self = Self(2);
    const C: Self = Self(4);
    const D: Self = Self(2);
    const E: Self = Self(3);
    const F: Self = Self(4);

    fn value(&self) -> u8 {
        self.0
    }
}

impl From<u8> for Bar {
    fn from(value: u8) -> Self {
        Self(value)
    }
}

#[derive(Debug)]
struct Test {
    foo: Foo,
    bar: Bar,
    foos: Vec<Foo>,
    bars: [Bar; 4],
    unknown: Vec<u8>,
}

impl Default for Test {
    fn default() -> Self {
        Test {
            foo: Foo::A,
            bar: Bar::default(),
            foos: Vec::new(),
            bars: [Bar::default(); 4],
            unknown: Vec::new(),
        }
    }
}

impl Test {
    fn new(foo: Foo, bar: Bar, foos: Vec<Foo>, bars: [Bar; 4]) -> Self {
        Test { foo, bar, foos, bars, unknown: Vec::new() }
    }

    fn foo(&self) -> Foo {
        self.foo
    }

    fn bar(&self) -> Bar {
        self.bar
    }

    fn foos(&self) -> &[Foo] {
        &self.foos
    }

    fn bars(&self) -> &[Bar; 4] {
        &self.bars
    }
}

impl Message for Test {
    const MESSAGE_ID: u32 = 1;
    const HEAD_SIZE: usize = 128;

    fn size_of_head(&self) -> usize {
        8 + 1 + 1 + size_of_varint(self.foos.len() as u64) + self.foos.len() + 4
    }

    fn size_of_tail(&self) -> usize {
        0
    }

    fn encode_head(&self, writer: &mut Writer) -> Result<(), Error> {
        write_preamble(writer, Preamble::new(Self::MESSAGE_ID, self.size_of_tail() as u32))?;
        writer.write_integer(self.foo.value())?;
        writer.write_integer(self.bar.value())?;
        writer.write_varint(self.foos.len() as u64)?;
        for foo in &self.foos {
            writer.write_integer(foo.value())?;
        }
        for bar in &self.bars {
            writer.write_integer(bar.value())?;
        }
        Ok(())
    }

    fn encode_tail(&self, _writer: &mut Writer) -> Result<(), Error> {
        Ok(())
    }

    fn decode_head(&mut self, reader: &mut Reader) -> Result<(), Error> {
        let _id: u32 = reader.read_integer()?;
        let _tail_size: u32 = reader.read_integer()?;
        self.unknown.clear();
        match Foo::try_from(reader.read_integer::<u8>()?) {
            Ok(foo) => self.foo = foo,
            Err(raw) => self.unknown.push(raw),
        }
        self.bar = Bar::from(reader.read_integer::<u8>()?);
        let count = reader.read_varint()?;
        self.foos.clear();
        for _ in 0..count {
            match Foo::try_from(reader.read_integer::<u8>()?) {
                Ok(foo) => self.foos.push(foo),
                Err(raw) => self.unknown.push(raw),
            }
        }
        let mut failure = None;
        self.bars = array_init(|_| match reader.read_integer::<u8>() {
            Ok(raw) => Bar::from(raw),
            Err(e) => {
                failure = Some(e);
                Bar::default()
            }
        });
        match failure {
            Some(e) => Err(e),
            None => Ok(()),
        }
    }

    fn decode_tail(&mut self, _reader: &mut Reader) -> Result<(), Error> {
        Ok(())
    }
}

#[test]
fn enums_test() -> Result<(), Error> {
    let msg = Test::new(
        Foo::D,
        Bar::E,
        vec![Foo::D, Foo::A, Foo::F, Foo::B],
        [Bar::E, Bar::B, Bar::A, Bar::C],
    );

    assert_eq!(Test::MESSAGE_ID, 1);
    assert_eq!(Test::HEAD_SIZE, 128);
    assert_eq!(msg.size_of_tail(), 0);

    assert_eq!(Foo::A.value(), 1);
    assert_eq!(Foo::B.value(), 2);
    assert_eq!(Foo::C.value(), 4);
    assert_eq!(Foo::D.value(), 5);
    assert_eq!(Foo::E.value(), 6);
    assert_eq!(Foo::F.value(), 7);

    assert_eq!(Bar::A.value(), 1);
    assert_eq!(Bar::B.value(), 2);
    assert_eq!(Bar::C.value(), 4);
    assert_eq!(Bar::D.value(), 2);
    assert_eq!(Bar::E.value(), 3);
    assert_eq!(Bar::F.value(), 4);

    let buffer = write_head_only(&msg)?;
    let msg: Test = read_head_only(&mut Reader::new(&buffer))?;

    assert_eq!(msg.foo(), Foo::D);
    assert_eq!(msg.bar(), Bar::E);
    assert_eq!(msg.foos(), &[Foo::D, Foo::A, Foo::F, Foo::B]);
    assert_eq!(msg.bars(), &[Bar::E, Bar::B, Bar::A, Bar::C]);

    Ok(())
}

#[test]
fn aliased_constants_round_trip_by_value() -> Result<(), Error> {
    let msg = Test::new(Foo::A, Bar::D, vec![], [Bar::D, Bar::B, Bar::F, Bar::C]);

    let buffer = write_head_only(&msg)?;
    let back: Test = read_head_only(&mut Reader::new(&buffer))?;

    assert_eq!(back.bar(), Bar::B);
    assert_eq!(back.bar().value(), 2);
    assert_eq!(back.bars(), &[Bar::B, Bar::D, Bar::C, Bar::F]);

    Ok(())
}

#[test]
fn unknown_discriminant_is_handed_back_and_decoding_goes_on() -> Result<(), Error> {
    assert_eq!(Foo::try_from(3), Err(3));
    assert_eq!(Foo::try_from(0), Err(0));
    assert_eq!(Foo::try_from(4), Ok(Foo::C));

    let msg = Test::new(Foo::B, Bar::A, vec![Foo::C, Foo::E], [Bar::A; 4]);
    let mut buffer = write_head_only(&msg)?;
    buffer[8] = 3;
    buffer[11] = 200;

    let back: Test = read_head_only(&mut Reader::new(&buffer))?;

    assert_eq!(back.unknown, vec![3, 200]);
    assert_eq!(back.foos(), &[Foo::E]);
    assert_eq!(back.bar(), Bar::A);

    Ok(())
}
