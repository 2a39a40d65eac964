use scry::errors::ScryError;
use scry::reader::to_u32;
use scry::reader::ScryByteReader;

fn reader1() -> ScryByteReader {
    ScryByteReader::new(vec![5, 6, 7, 0, 1, 2, 3, 4])
}

#[test]
fn test_read_u8() {
    let mut reader1 = reader1();
    let res = reader1.read_u8().expect("Fixture will always have value");
    assert_eq!(res, 5);
    assert_eq!(reader1.current_byte, 1);
    let res = reader1.read_u8().expect("Fixture will always have value");
    assert_eq!(res, 6);
    assert_eq!(reader1.current_byte, 2);
}

#[test]
fn test_read_u16_le() {
    let mut reader1 = reader1();
    let res = reader1.read_u16_le().expect("Fixture will always have value");
    assert_eq!(res, 0x0605);
    assert_eq!(reader1.current_byte, 2);
}

#[test]
fn test_read_u32_le() {
    let mut reader1 = reader1();
    let resk = reader1.read_u32_le().expect("Fixture will always have value");
    assert_eq!(resk, 0x00070605);
    assert_eq!(reader1.current_byte, 4);
}

#[test]
fn test_read_u32_le_high_bytes() {
    let mut sr = ScryByteReader::new(vec![0x78, 0x56, 0x34, 0xf2]);
    assert_eq!(sr.read_u32_le(), Ok(0xf2345678));
}

#[test]
fn test_read_past_end_is_eof() {
    let mut sr = ScryByteReader::new(vec![1, 2, 3]);
    assert_eq!(sr.read_u32_le(), Err(ScryError::EOF));
    assert_eq!(sr.read_u16_le(), Ok(0x0201));
    assert_eq!(sr.read_u16_le(), Err(ScryError::EOF));
    assert_eq!(sr.read_u8(), Ok(3));
    assert_eq!(sr.read_u8(), Err(ScryError::EOF));
    assert_eq!(sr.read_bit(), Err(ScryError::EOF));
}

#[test]
fn test_read_null_terminated_string() {
    let inner: Vec<u8> = vec![
        b'h', b'e', b'l', b'l', b'o', b' ', b'w', b'o', b'r', b'l', b'd', 0,
    ];
    let mut sr = ScryByteReader::new(inner);
    let s = sr.read_null_terminated_string().expect("Known value");
    assert_eq!(s, "hello world");
    assert_eq!(sr.current_byte, 12)
}

#[test]
fn test_read_null_terminated_string_errors() {
    let mut sr = ScryByteReader::new(vec![b'a', b'b']);
    assert_eq!(sr.read_null_terminated_string(), Err(ScryError::EOF));
    let mut sr = ScryByteReader::new(vec![b'a', 0xff, 0, b'b']);
    assert_eq!(sr.read_null_terminated_string(), Err(ScryError::UTF8Invalid));
    let mut sr = ScryByteReader::new(vec![0xc3, 0xa9, 0, b'b']);
    assert_eq!(sr.read_null_terminated_string(), Ok("\u{e9}".to_string()));
    assert_eq!(sr.read_u8(), Ok(b'b'));
}

#[test]
fn test_crc32_initial_value() {
    let mut sr = ScryByteReader::new(vec![]);
    sr.begin_crc();
    let result = sr.end_crc().expect("should have value");
    assert_eq!(result, 0x0000);
}

#[test]
fn test_crc32_one_byte() {
    let mut sr = ScryByteReader::new(vec![b'h']);
    sr.begin_crc();
    sr.read_u8().expect("known value");
    let result = sr.end_crc().expect("should have value");
    assert_eq!(result, 0x916B06E7);
}

#[test]
fn test_crc32() {
    let inner: Vec<u8> = vec![b'h', b'e', b'l', b'l', b'o'];
    let n = inner.len();
    let mut sr = ScryByteReader::new(inner);
    sr.begin_crc();
    for _ in 0..n {
        sr.read_u8().expect("known value");
    }
    let result = sr.end_crc().expect("should have value");
    assert_eq!(result, 0x3610A686);
}

#[test]
fn test_crc_scope_only_counts_bytes_inside() {
    let mut sr = ScryByteReader::new(vec![b'x', b'h', b'e', b'l', b'l', b'o', b'y']);
    assert_eq!(sr.end_crc(), None);
    sr.read_u8().unwrap();
    sr.begin_crc();
    sr.read_u8().unwrap();
    sr.read_u32_le().unwrap();
    assert_eq!(sr.end_crc(), Some(0x3610A686));
    assert_eq!(sr.end_crc(), None);
    sr.begin_crc();
    sr.read_u8().unwrap();
    sr.begin_crc();
    assert_eq!(sr.end_crc(), Some(0));
}

#[test]
fn test_read_bit() {
    let mut sr = ScryByteReader::new(vec![0b10011001, 0b00011100]);
    assert_eq!(sr.current_byte, 0);
    assert_eq!(sr.read_bit().unwrap(), 1);
    assert_eq!(sr.current_byte, 1);
    assert_eq!(sr.read_bit().unwrap(), 0);
    assert_eq!(sr.current_bit, 2);
    assert_eq!(sr.read_bit().unwrap(), 0);
    assert_eq!(sr.read_bit().unwrap(), 1);
    assert_eq!(sr.read_bit().unwrap(), 1);
    assert_eq!(sr.read_bit().unwrap(), 0);
    assert_eq!(sr.read_bit().unwrap(), 0);
    assert_eq!(sr.read_bit().unwrap(), 1);
    assert_eq!(sr.current_bit, 0);
    assert_eq!(sr.read_bit().unwrap(), 0);
    assert_eq!(sr.current_byte, 2);
    assert_eq!(sr.read_bit().unwrap(), 0);
    assert_eq!(sr.read_bit().unwrap(), 1);
    assert_eq!(sr.read_bit().unwrap(), 1);
    assert_eq!(sr.read_bit().unwrap(), 1);
    assert_eq!(sr.read_bit().unwrap(), 0);
    assert_eq!(sr.read_bit().unwrap(), 0);
    assert_eq!(sr.read_bit().unwrap(), 0);
}

#[test]
fn test_read_n_bits_le() {
    let mut sr = ScryByteReader::new(vec![0b1011_0110, 0b0000_0101, 0xff, 0xff]);
    assert_eq!(sr.read_n_bits_le(0), Ok(0));
    assert_eq!(sr.read_n_bits_le(3), Ok(0b110));
    assert_eq!(sr.read_n_bits_le(7), Ok(0b01_1011_0));
    assert_eq!(sr.position(), 2);
    assert_eq!(sr.bit_position(), 2);
    assert_eq!(sr.read_n_bits_le(17), Err(ScryError::InvalidNumberOfBits { num: 17 }));
    sr.discard_until_next_byte();
    assert_eq!(sr.read_n_bits_le(16), Ok(0xffff));
    assert_eq!(sr.read_n_bits_le(1), Err(ScryError::EOF));
}

#[test]
fn test_read_two_bits() {
    let mut sr = ScryByteReader::new(vec![0b1110_0100]);
    assert_eq!(sr.read_two_bits(), Ok(0));
    assert_eq!(sr.read_two_bits(), Ok(1));
    assert_eq!(sr.read_two_bits(), Ok(2));
    assert_eq!(sr.read_two_bits(), Ok(3));
    assert_eq!(sr.read_two_bits(), Err(ScryError::EOF));
}

#[test]
fn test_to_u32() {
    assert_eq!(to_u32(0), Some(0));
    assert_eq!(to_u32(u32::MAX as usize), Some(u32::MAX));
    assert_eq!(to_u32(u32::MAX as usize + 1), None);
}
