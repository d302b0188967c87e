use bragi::{
    array_init, read_head_only, size_of_varint, write_head_only, write_preamble, Error, Message,
    Preamble, Reader, Writer,
};

fn size_of_bytes(bytes: &[u8]) -> usize {
    size_of_varint(bytes.len() as u64) + bytes.len()
}

fn write_bytes(writer: &mut Writer, bytes: &[u8]) -> Result<(), Error> {
    writer.write_varint(bytes.len() as u64)?;
    writer.write_all(bytes)
}

fn read_bytes(reader: &mut Reader) -> Result<Vec<u8>, Error> {
    let length = reader.read_varint()?;
    let mut bytes = Vec::new();
    for _ in 0..length {
        bytes.push(reader.read_integer::<u8>()?);
    }
    Ok(bytes)
}

fn read_array<const N: usize>(reader: &mut Reader) -> Result<[u8; N], Error> {
    let mut bytes = [0u8; N];
    reader.read_exact(&mut bytes)?;
    Ok(bytes)
}

fn read_preamble_of(reader: &mut Reader, id: u32) -> Result<(), Error> {
    let read_id: u32 = reader.read_integer()?;
    let _tail_size: u32 = reader.read_integer()?;
    assert_eq!(read_id, id);
    Ok(())
}

#[derive(Debug, Default)]
struct Test1 {
    arr: Vec<u8>,
}

impl Test1 {
    fn new(arr: Vec<u8>) -> Self {
        Test1 { arr }
    }

    fn arr(&self) -> &[u8] {
        &self.arr
    }
}

impl Message for Test1 {
    const MESSAGE_ID: u32 = 1;
    const HEAD_SIZE: usize = 128;

    fn size_of_head(&self) -> usize {
        8 + size_of_bytes(&self.arr)
    }

    fn size_of_tail(&self) -> usize {
        0
    }

    fn encode_head(&self, writer: &mut Writer) -> Result<(), Error> {
        write_preamble(writer, Preamble::new(Self::MESSAGE_ID, self.size_of_tail() as u32))?;
        write_bytes(writer, &self.arr)
    }

    fn encode_tail(&self, _writer: &mut Writer) -> Result<(), Error> {
        Ok(())
    }

    fn decode_head(&mut self, reader: &mut Reader) -> Result<(), Error> {
        read_preamble_of(reader, Self::MESSAGE_ID)?;
        self.arr = read_bytes(reader)?;
        Ok(())
    }

    fn decode_tail(&mut self, _reader: &mut Reader) -> Result<(), Error> {
        Ok(())
    }
}

#[derive(Debug, Default)]
struct Test2 {
    arr: [u8; 5],
}

impl Test2 {
    fn new(arr: [u8; 5]) -> Self {
        Test2 { arr }
    }

    fn arr(&self) -> &[u8; 5] {
        &self.arr
    }
}

impl Message for Test2 {
    const MESSAGE_ID: u32 = 2;
    const HEAD_SIZE: usize = 128;

    fn size_of_head(&self) -> usize {
        8 + 5
    }

    fn size_of_tail(&self) -> usize {
        0
    }

    fn encode_head(&self, writer: &mut Writer) -> Result<(), Error> {
        write_preamble(writer, Preamble::new(Self::MESSAGE_ID, self.size_of_tail() as u32))?;
        writer.write_all(&self.arr)
    }

    fn encode_tail(&self, _writer: &mut Writer) -> Result<(), Error> {
        Ok(())
    }

    fn decode_head(&mut self, reader: &mut Reader) -> Result<(), Error> {
        read_preamble_of(reader, Self::MESSAGE_ID)?;
        self.arr = read_array(reader)?;
        Ok(())
    }

    fn decode_tail(&mut self, _reader: &mut Reader) -> Result<(), Error> {
        Ok(())
    }
}

#[derive(Debug, Default)]
struct Test3 {
    arr: Vec<Vec<u8>>,
}

impl Test3 {
    fn new(arr: Vec<Vec<u8>>) -> Self {
        Test3 { arr }
    }

    fn arr(&self) -> &[Vec<u8>] {
        &self.arr
    }
}

impl Message for Test3 {
    const MESSAGE_ID: u32 = 3;
    const HEAD_SIZE: usize = 128;

    fn size_of_head(&self) -> usize {
        let inner: usize = self.arr.iter().map(|bytes| size_of_bytes(bytes)).sum();
        8 + size_of_varint(self.arr.len() as u64) + inner
    }

    fn size_of_tail(&self) -> usize {
        0
    }

    fn encode_head(&self, writer: &mut Writer) -> Result<(), Error> {
        write_preamble(writer, Preamble::new(Self::MESSAGE_ID, self.size_of_tail() as u32))?;
        writer.write_varint(self.arr.len() as u64)?;
        for bytes in &self.arr {
            write_bytes(writer, bytes)?;
        }
        Ok(())
    }

    fn encode_tail(&self, _writer: &mut Writer) -> Result<(), Error> {
        Ok(())
    }

    fn decode_head(&mut self, reader: &mut Reader) -> Result<(), Error> {
        read_preamble_of(reader, Self::MESSAGE_ID)?;
        let count = reader.read_varint()?;
        self.arr.clear();
        for _ in 0..count {
            self.arr.push(read_bytes(reader)?);
        }
        Ok(())
    }

    fn decode_tail(&mut self, _reader: &mut Reader) -> Result<(), Error> {
        Ok(())
    }
}

#[derive(Debug, Default)]
struct Test4 {
    arr1: Vec<[u8; 5]>,
    arr2: [Vec<u8>; 5],
}

impl Test4 {
    fn new(arr1: Vec<[u8; 5]>, arr2: [Vec<u8>; 5]) -> Self {
        Test4 { arr1, arr2 }
    }

    fn arr1(&self) -> &[[u8; 5]] {
        &self.arr1
    }

    fn arr2(&self) -> &[Vec<u8>; 5] {
        &self.arr2
    }
}

impl Message for Test4 {
    const MESSAGE_ID: u32 = 4;
    const HEAD_SIZE: usize = 128;

    fn size_of_head(&self) -> usize {
        let second: usize = self.arr2.iter().map(|bytes| size_of_bytes(bytes)).sum();
        8 + size_of_varint(self.arr1.len() as u64) + 5 * self.arr1.len() + second
    }

    fn size_of_tail(&self) -> usize {
        0
    }

    fn encode_head(&self, writer: &mut Writer) -> Result<(), Error> {
        write_preamble(writer, Preamble::new(Self::MESSAGE_ID, self.size_of_tail() as u32))?;
        writer.write_varint(self.arr1.len() as u64)?;
        for bytes in &self.arr1 {
            writer.write_all(bytes)?;
        }
        for bytes in &self.arr2 {
            write_bytes(writer, bytes)?;
        }
        Ok(())
    }

    fn encode_tail(&self, _writer: &mut Writer) -> Result<(), Error> {
        Ok(())
    }

    fn decode_head(&mut self, reader: &mut Reader) -> Result<(), Error> {
        read_preamble_of(reader, Self::MESSAGE_ID)?;
        let count = reader.read_varint()?;
        self.arr1.clear();
        for _ in 0..count {
            self.arr1.push(read_array(reader)?);
        }
        let mut failure = None;
        self.arr2 = array_init(|_| match read_bytes(reader) {
            Ok(bytes) => bytes,
            Err(e) => {
                failure = Some(e);
                Vec::new()
            }
        });
        match failure {
            Some(e) => Err(e),
            None => Ok(()),
        }
    }

    fn decode_tail(&mut self, _reader: &mut Reader) -> Result<(), Error> {
        Ok(())
    }
}

#[derive(Debug, Default)]
struct Test5 {
    arr: [[u8; 4]; 4],
}

impl Test5 {
    fn new(arr: [[u8; 4]; 4]) -> Self {
        Test5 { arr }
    }

    fn arr(&self) -> &[[u8; 4]; 4] {
        &self.arr
    }
}

impl Message for Test5 {
    const MESSAGE_ID: u32 = 5;
    const HEAD_SIZE: usize = 128;

    fn size_of_head(&self) -> usize {
        8 + 16
    }

    fn size_of_tail(&self) -> usize {
        0
    }

    fn encode_head(&self, writer: &mut Writer) -> Result<(), Error> {
        write_preamble(writer, Preamble::new(Self::MESSAGE_ID, self.size_of_tail() as u32))?;
        for row in &self.arr {
            writer.write_all(row)?;
        }
        Ok(())
    }

    fn encode_tail(&self, _writer: &mut Writer) -> Result<(), Error> {
        Ok(())
    }

    fn decode_head(&mut self, reader: &mut Reader) -> Result<(), Error> {
        read_preamble_of(reader, Self::MESSAGE_ID)?;
        let mut failure = None;
        self.arr = array_init(|_| match read_array(reader) {
            Ok(row) => row,
            Err(e) => {
                failure = Some(e);
                [0u8; 4]
            }
        });
        match failure {
            Some(e) => Err(e),
            None => Ok(()),
        }
    }

    fn decode_tail(&mut self, _reader: &mut Reader) -> Result<(), Error> {
        Ok(())
    }
}

#[test]
fn test1() -> Result<(), Error> {
    let msg = Test1::new(vec![0xDE, 0xAD, 0xBE, 0xEF]);

    assert_eq!(Test1::MESSAGE_ID, 1);
    assert_eq!(Test1::HEAD_SIZE, 128);
    assert_eq!(msg.size_of_tail(), 0);

    let buffer = write_head_only(&msg)?;
    let msg: Test1 = read_head_only(&mut Reader::new(&buffer))?;

    assert_eq!(msg.arr(), &[0xDE, 0xAD, 0xBE, 0xEF]);
    assert_eq!(msg.size_of_tail(), 0);

    Ok(())
}

#[test]
fn test2() -> Result<(), Error> {
    let msg = Test2::new([0xDE, 0xAD, 0xBE, 0xEF, 0xFF]);

    assert_eq!(Test2::MESSAGE_ID, 2);
    assert_eq!(Test2::HEAD_SIZE, 128);
    assert_eq!(msg.size_of_tail(), 0);

    let buffer = write_head_only(&msg)?;
    let msg: Test2 = read_head_only(&mut Reader::new(&buffer))?;

    assert_eq!(msg.arr(), &[0xDE, 0xAD, 0xBE, 0xEF, 0xFF]);

    Ok(())
}

#[test]
fn test3() -> Result<(), Error> {
    let msg = Test3::new(vec![
        vec![0xDE, 0xAD, 0xBE, 0xEF],
        vec![0xCA, 0xFE, 0xBA, 0xBE],
        vec![0xB1, 0x6B, 0x00, 0xB5],
    ]);

    assert_eq!(Test3::MESSAGE_ID, 3);
    assert_eq!(Test3::HEAD_SIZE, 128);
    assert_eq!(msg.size_of_tail(), 0);

    let buffer = write_head_only(&msg)?;
    let msg: Test3 = read_head_only(&mut Reader::new(&buffer))?;

    assert_eq!(msg.arr().len(), 3);
    assert_eq!(msg.arr()[0], &[0xDE, 0xAD, 0xBE, 0xEF]);
    assert_eq!(msg.arr()[1], &[0xCA, 0xFE, 0xBA, 0xBE]);
    assert_eq!(msg.arr()[2], &[0xB1, 0x6B, 0x00, 0xB5]);

    Ok(())
}

#[test]
fn test4() -> Result<(), Error> {
    let msg = Test4::new(
        vec![
            [0xDE, 0xAD, 0xBE, 0xEF, 0xFF],
            [0xCA, 0xFE, 0xBA, 0xBE, 0xFF],
            [0xB1, 0x6B, 0x00, 0xB5, 0xFF],
        ],
        [
            vec![0xDE, 0xAD, 0xBE, 0xEF],
            vec![0xCA, 0xFE, 0xBA, 0xBE],
            vec![0xB1, 0x6B, 0x00, 0xB5],
            vec![],
            vec![],
        ],
    );

    assert_eq!(Test4::MESSAGE_ID, 4);
    assert_eq!(Test4::HEAD_SIZE, 128);
    assert_eq!(msg.size_of_tail(), 0);

    let buffer = write_head_only(&msg)?;
    let msg: Test4 = read_head_only(&mut Reader::new(&buffer))?;

    assert_eq!(msg.arr1().len(), 3);
    assert_eq!(msg.arr1()[0], [0xDE, 0xAD, 0xBE, 0xEF, 0xFF]);
    assert_eq!(msg.arr1()[1], [0xCA, 0xFE, 0xBA, 0xBE, 0xFF]);
    assert_eq!(msg.arr1()[2], [0xB1, 0x6B, 0x00, 0xB5, 0xFF]);
    assert_eq!(msg.arr2().len(), 5);
    assert_eq!(msg.arr2()[0], &[0xDE, 0xAD, 0xBE, 0xEF]);
    assert_eq!(msg.arr2()[1], &[0xCA, 0xFE, 0xBA, 0xBE]);
    assert_eq!(msg.arr2()[2], &[0xB1, 0x6B, 0x00, 0xB5]);
    assert_eq!(msg.arr2()[3], &[]);
    assert_eq!(msg.arr2()[4], &[]);

    Ok(())
}

#[test]
fn test5() -> Result<(), Error> {
    let msg = Test5::new([
        [0xDE, 0xAD, 0xBE, 0xEF],
        [0xCA, 0xFE, 0xBA, 0xBE],
        [0xB1, 0x6B, 0x00, 0xB5],
        [0xDE, 0xAD, 0xBE, 0xEF],
    ]);

    assert_eq!(Test5::MESSAGE_ID, 5);
    assert_eq!(Test5::HEAD_SIZE, 128);
    assert_eq!(msg.size_of_tail(), 0);

    let buffer = write_head_only(&msg)?;
    let msg: Test5 = read_head_only(&mut Reader::new(&buffer))?;

    assert_eq!(
        msg.arr(),
        &[
            [0xDE, 0xAD, 0xBE, 0xEF],
            [0xCA, 0xFE, 0xBA, 0xBE],
            [0xB1, 0x6B, 0x00, 0xB5],
            [0xDE, 0xAD, 0xBE, 0xEF],
        ]
    );

    Ok(())
}
