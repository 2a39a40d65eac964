use std::io::Write;

use flate2::write::DeflateEncoder;
use flate2::write::GzEncoder;
use flate2::Compression;
use flate2::GzBuilder;
use scry::checkpoint::Checkpoint;
use scry::checkpoint::Checkpointer;
use scry::decompress::BlockType;
use scry::decompress::Deflator;
use scry::errors::ScryError;
use scry::huffman::HuffmanTree;
use scry::reader::ScryByteReader;

fn gzip(data: &[u8], level: Compression) -> Vec<u8> {
    let mut e = GzEncoder::new(Vec::new(), level);
    e.write_all(data).unwrap();
    e.finish().unwrap()
}

fn crc_of(bytes: &[u8]) -> u32 {
    let mut c = flate2::Crc::new();
    c.update(bytes);
    c.sum()
}

fn decode_all(data: Vec<u8>, chunk: usize) -> Result<(Vec<u8>, Vec<Checkpoint>), ScryError> {
    let reader = ScryByteReader::new(data);
    let mut deflator = Deflator::new(reader, Checkpointer::init_memory().unwrap());
    let mut out: Vec<u8> = Vec::new();
    let mut buf = vec![0u8; chunk];
    loop {
        let n = deflator.read(&mut buf)?;
        if n == 0 {
            break;
        }
        out.extend_from_slice(&buf[..n]);
    }
    assert!(deflator.is_done());
    assert_eq!(deflator.read(&mut buf), Ok(0));
    Ok((out, deflator.take_checkpoints()))
}

/// Writes bits the way DEFLATE packs them.
struct Bits {
    bytes: Vec<u8>,
    used: u8,
}

fn bits_new() -> Bits {
    Bits { bytes: Vec::new(), used: 0 }
}

fn put_bit(b: &mut Bits, bit: u8) {
    if b.used == 0 {
        b.bytes.push(0);
    }
    let last = b.bytes.len() - 1;
    b.bytes[last] |= bit << b.used;
    b.used = (b.used + 1) % 8;
}

fn put_value(b: &mut Bits, value: u32, n: u8) {
    for i in 0..n {
        put_bit(b, ((value >> i) & 1) as u8);
    }
}

fn put_code(b: &mut Bits, code: u32, n: u8) {
    for i in (0..n).rev() {
        put_bit(b, ((code >> i) & 1) as u8);
    }
}

fn put_fixed(b: &mut Bits, symbol: u32) {
    if symbol < 144 {
        put_code(b, 0b00110000 + symbol, 8);
    } else if symbol < 256 {
        put_code(b, 0b110010000 + (symbol - 144), 9);
    } else if symbol < 280 {
        put_code(b, symbol - 256, 7);
    } else {
        put_code(b, 0b11000000 + (symbol - 280), 8);
    }
}

fn member(deflate: &[u8], plain: &[u8]) -> Vec<u8> {
    let mut v = vec![0x1f, 0x8b, 8, 0, 0, 0, 0, 0, 0, 3];
    v.extend_from_slice(deflate);
    v.extend_from_slice(&crc_of(plain).to_le_bytes());
    v.extend_from_slice(&(plain.len() as u32).to_le_bytes());
    v
}

fn sample_text(len: usize) -> Vec<u8> {
    let words = [
        "the", "window", "slides", "over", "every", "byte", "that", "a", "decoder", "has",
        "written", "and", "keeps", "thirty", "two", "kilobytes", "of", "it", "for", "copies",
        "from", "the", "past", "while", "checkpoints", "mark", "where", "blocks", "begin",
    ];
    let mut state: u32 = 12345;
    let mut out = Vec::new();
    while out.len() < len {
        state = state.wrapping_mul(1103515245).wrapping_add(12345);
        let w = words[((state >> 16) as usize) % words.len()];
        out.extend_from_slice(w.as_bytes());
        out.push(if (state >> 8) % 11 == 0 { b'\n' } else { b' ' });
    }
    out.truncate(len);
    out
}

fn check_checkpoints(input_len: usize, out: &[u8], cps: &[Checkpoint]) {
    for (i, c) in cps.iter().enumerate() {
        let end = c.end.expect("every block has ended");
        assert!(c.from_byte < input_len);
        assert!(c.from_bit < 8);
        assert!(c.header_len_bits >= 3);
        assert!(end.block_len_bits >= c.header_len_bits);
        assert_eq!(end.crc32, crc_of(&out[c.to_byte..c.to_byte + end.len]));
        assert_eq!(c.data.len(), 32768);
        let mut history = vec![0u8; 32768];
        history.extend_from_slice(&out[..c.to_byte]);
        assert_eq!(c.data[..], history[history.len() - 32768..]);
        if i + 1 < cps.len() {
            let next = &cps[i + 1];
            assert_eq!(c.to_byte + end.len, next.to_byte);
            let here = (c.from_byte * 8 + c.from_bit as usize) as isize + end.block_len_bits;
            let there = (next.from_byte * 8 + next.from_bit as usize) as isize;
            assert!(here <= there);
        } else {
            assert_eq!(c.to_byte + end.len, out.len());
        }
    }
}

#[test]
fn test_read_block_header() {
    let mut e = DeflateEncoder::new(Vec::new(), Compression::fast());
    e.write_all(b"hello world").unwrap();
    let v = e.finish().unwrap();
    let reader = ScryByteReader::new(v);
    let mut deflator = Deflator::new(reader, Checkpointer::init_memory().unwrap());
    let block_header = deflator.read_block_header().unwrap();
    assert_eq!(block_header.block_type, BlockType::FixedHuffman);
    assert_eq!(block_header.is_final, true);
}

#[test]
fn test_read_block_header_kinds() {
    for (byte, expected) in [
        (0b000u8, Ok((BlockType::NoCompression, false))),
        (0b001, Ok((BlockType::NoCompression, true))),
        (0b010, Ok((BlockType::FixedHuffman, false))),
        (0b101, Ok((BlockType::DynamicHuffman, true))),
        (0b110, Err(ScryError::InvalidBlockType)),
    ] {
        let mut deflator = Deflator::new(
            ScryByteReader::new(vec![byte]),
            Checkpointer::init_memory().unwrap(),
        );
        let got = deflator.read_block_header().map(|h| (h.block_type, h.is_final));
        assert_eq!(got, expected);
    }
    let mut deflator =
        Deflator::new(ScryByteReader::new(vec![]), Checkpointer::init_memory().unwrap());
    assert_eq!(deflator.read_block_header().err(), Some(ScryError::EOF));
}

#[test]
fn test_decode_symbol_with_fixed_tree() {
    let mut b = bits_new();
    put_fixed(&mut b, 104);
    put_fixed(&mut b, 256);
    put_fixed(&mut b, 200);
    put_fixed(&mut b, 285);
    let mut reader = ScryByteReader::new(b.bytes);
    let tree = HuffmanTree::fixed();
    assert_eq!(Deflator::decode(&mut reader, &tree), Ok(104));
    assert_eq!(Deflator::decode(&mut reader, &tree), Ok(256));
    assert_eq!(Deflator::decode(&mut reader, &tree), Ok(200));
    assert_eq!(Deflator::decode(&mut reader, &tree), Ok(285));
}

#[test]
fn test_decode_symbol_without_match() {
    let tree = HuffmanTree::new(&[1, 0]);
    let mut reader = ScryByteReader::new(vec![0xff, 0xff, 0xff]);
    assert_eq!(
        Deflator::decode(&mut reader, &tree),
        Err(ScryError::InvalidHuffmanCode { code: 0xffff, position: 2, bit: 0 })
    );
    let mut reader = ScryByteReader::new(vec![0xff]);
    assert_eq!(Deflator::decode(&mut reader, &tree), Err(ScryError::EOF));
}

#[test]
fn test_deflate_non_compressed_block() {
    let v = gzip(b"hello world", Compression::none());
    let (out, cps) = decode_all(v.clone(), 4096).unwrap();
    assert_eq!(String::from_utf8(out.clone()).unwrap(), "hello world".to_string());
    assert_eq!(cps.len(), 1);
    assert_eq!(cps[0].block_type, BlockType::NoCompression);
    assert_eq!(cps[0].from_byte, 10);
    assert_eq!(cps[0].from_bit, 0);
    assert_eq!(cps[0].header_len_bits, 40);
    let end = cps[0].end.unwrap();
    assert_eq!(end.len, 11);
    assert_eq!(end.block_len_bits, 40 + 88);
    assert_eq!(end.crc32, crc_of(b"hello world"));
    check_checkpoints(v.len(), &out, &cps);
}

#[test]
fn test_deflate_fixed_compressed_block() {
    let v = gzip(b"hello world", Compression::fast());
    let (out, cps) = decode_all(v.clone(), 4096).unwrap();
    assert_eq!(String::from_utf8(out.clone()).unwrap(), "hello world".to_string());
    assert_eq!(cps.len(), 1);
    assert_eq!(cps[0].block_type, BlockType::FixedHuffman);
    assert_eq!(cps[0].header_len_bits, 3);
    assert_eq!(cps[0].to_byte, 0);
    assert_eq!(cps[0].data, vec![0u8; 32768]);
    check_checkpoints(v.len(), &out, &cps);
}

#[test]
fn test_deflate_fixed_compressed_block_2() {
    let v = gzip(b"hello world", Compression::fast());
    let (out, _) = decode_all(v, 1).unwrap();
    assert_eq!(out, vec![0x68, 0x65, 0x6c, 0x6c, 0x6f, 0x20, 0x77, 0x6f, 0x72, 0x6c, 0x64]);
}

#[test]
fn test_deflate_fixed_compressed_block_3() {
    let v = gzip(b"aaaaaaaaaaaaaaaaaaaaaabbbbbbb", Compression::fast());
    for chunk in [1usize, 2, 3, 7, 64] {
        let (out, _) = decode_all(v.clone(), chunk).unwrap();
        assert_eq!(
            String::from_utf8(out).unwrap(),
            "aaaaaaaaaaaaaaaaaaaaaabbbbbbb".to_string()
        );
    }
}

#[test]
fn test_deflate_dynamic_block() {
    let text = b"AYAYA waenfiopnwaeiofon vnvnvnvnvnvna lklklkklkl ffffff AYAYAYA FFFFFFF";
    let v = gzip(text, Compression::fast());
    let (out, cps) = decode_all(v.clone(), 4096).unwrap();
    assert_eq!(out, text.to_vec());
    check_checkpoints(v.len(), &out, &cps);
}

#[test]
fn test_multiple_gzip_members() {
    let mut v = gzip(b"hello world", Compression::fast());
    let mut v2 = gzip(b"hello world2", Compression::fast());
    v.append(&mut v2);
    let (out, cps) = decode_all(v, 4096).unwrap();
    assert_eq!(String::from_utf8(out).unwrap(), "hello worldhello world2".to_string());
    assert_eq!(cps.len(), 2);
    assert_eq!(cps[1].to_byte, 11);
}

#[test]
fn test_same_member_twice() {
    let mut v = gzip(b"hello world", Compression::fast());
    let first_len = v.len();
    let mut v2 = v.clone();
    v.append(&mut v2);
    let (out, cps) = decode_all(v, 5).unwrap();
    assert_eq!(out, b"hello worldhello world".to_vec());
    assert_eq!(cps.len(), 2);
    assert_eq!(cps[0].from_byte, 10);
    assert_eq!(cps[1].from_byte, first_len + 10);
    assert_eq!(cps[1].to_byte, 11);
    assert_eq!(&cps[1].data[32768 - 11..], b"hello world");
    assert_eq!(cps[0].end.unwrap().crc32, cps[1].end.unwrap().crc32);
}

#[test]
fn test_concatenation_decodes_to_concatenation() {
    let x = gzip(&sample_text(5000), Compression::default());
    let y = gzip(b"second member", Compression::none());
    let (dx, _) = decode_all(x.clone(), 100).unwrap();
    let (dy, _) = decode_all(y.clone(), 100).unwrap();
    let mut xy = x;
    xy.extend_from_slice(&y);
    let (dxy, _) = decode_all(xy, 100).unwrap();
    let mut expected = dx;
    expected.extend_from_slice(&dy);
    assert_eq!(dxy, expected);
}

#[test]
fn test_empty_input() {
    let (out, cps) = decode_all(vec![], 16).unwrap();
    assert_eq!(out, Vec::<u8>::new());
    assert_eq!(cps.len(), 0);
}

#[test]
fn test_empty_stored_block() {
    let v = member(&[0x01, 0x00, 0x00, 0xff, 0xff], b"");
    let (out, cps) = decode_all(v, 16).unwrap();
    assert_eq!(out, Vec::<u8>::new());
    assert_eq!(cps.len(), 1);
    assert_eq!(cps[0].block_type, BlockType::NoCompression);
    let end = cps[0].end.unwrap();
    assert_eq!(end.len, 0);
    assert_eq!(end.block_len_bits, 40);
    assert_eq!(end.crc32, 0);
}

#[test]
fn test_stored_block_after_unaligned_block() {
    let mut b = bits_new();
    put_value(&mut b, 0, 1);
    put_value(&mut b, 1, 2);
    put_fixed(&mut b, 120);
    put_fixed(&mut b, 256);
    put_value(&mut b, 1, 1);
    put_value(&mut b, 0, 2);
    let mut deflate = b.bytes;
    deflate.extend_from_slice(&[2, 0, 0xfd, 0xff, b'y', b'z']);
    let v = member(&deflate, b"xyz");
    let (out, cps) = decode_all(v, 16).unwrap();
    assert_eq!(out, b"xyz".to_vec());
    assert_eq!(cps.len(), 2);
    assert_eq!((cps[0].from_byte, cps[0].from_bit), (10, 0));
    assert_eq!(cps[0].header_len_bits, 3);
    assert_eq!(cps[0].end.unwrap().block_len_bits, 3 + 8 + 7);
    assert_eq!((cps[1].from_byte, cps[1].from_bit), (12, 2));
    assert_eq!(cps[1].header_len_bits, 6 + 32);
    assert_eq!(cps[1].end.unwrap().block_len_bits, 6 + 32 + 16);
    assert_eq!(cps[1].end.unwrap().crc32, crc_of(b"yz"));
    assert_eq!(cps[1].to_byte, 1);
}

#[test]
fn test_large_text_across_window() {
    let text = sample_text(200_000);
    let mut e = GzEncoder::new(Vec::new(), Compression::default());
    for part in text.chunks(50_000) {
        e.write_all(part).unwrap();
        e.flush().unwrap();
    }
    let v = e.finish().unwrap();
    let (out, cps) = decode_all(v.clone(), 8192).unwrap();
    assert_eq!(out, text);
    assert!(cps.len() >= 4);
    assert_eq!(cps[0].block_type, BlockType::DynamicHuffman);
    assert!(cps.iter().any(|c| c.to_byte > 32768 && c.block_type == BlockType::DynamicHuffman));
    check_checkpoints(v.len(), &out, &cps);
}

#[test]
fn test_large_text_small_buffer() {
    let text = sample_text(70_000);
    let v = gzip(&text, Compression::best());
    let (out, _) = decode_all(v, 3).unwrap();
    assert_eq!(out, text);
}

#[test]
fn test_max_run_length() {
    let mut b = bits_new();
    put_value(&mut b, 1, 1);
    put_value(&mut b, 1, 2);
    put_fixed(&mut b, 97);
    put_fixed(&mut b, 285);
    put_code(&mut b, 0, 5);
    put_fixed(&mut b, 256);
    let plain = vec![b'a'; 259];
    let v = member(&b.bytes, &plain);
    for chunk in [1usize, 100, 258, 259, 1000] {
        let (out, cps) = decode_all(v.clone(), chunk).unwrap();
        assert_eq!(out, plain);
        assert_eq!(cps[0].end.unwrap().len, 259);
    }
}

#[test]
fn test_long_runs_from_encoder() {
    let plain = vec![b'q'; 100_000];
    let v = gzip(&plain, Compression::default());
    let (out, _) = decode_all(v, 1000).unwrap();
    assert_eq!(out, plain);
}

#[test]
fn test_dynamic_block_with_all_repeat_codes() {
    let mut b = bits_new();
    put_value(&mut b, 1, 1);
    put_value(&mut b, 2, 2);
    put_value(&mut b, 0, 5);
    put_value(&mut b, 0, 5);
    put_value(&mut b, 10, 4);
    for len in [3u32, 3, 1, 3, 0, 0, 0, 0, 0, 0, 0, 0, 0, 3] {
        put_value(&mut b, len, 3);
    }
    put_code(&mut b, 0b0, 1);
    put_value(&mut b, 86, 7);
    put_code(&mut b, 0b101, 3);
    put_code(&mut b, 0b110, 3);
    put_value(&mut b, 3, 2);
    put_code(&mut b, 0b0, 1);
    put_value(&mut b, 127, 7);
    put_code(&mut b, 0b111, 3);
    put_value(&mut b, 7, 3);
    put_code(&mut b, 0b111, 3);
    put_value(&mut b, 1, 3);
    put_code(&mut b, 0b101, 3);
    put_code(&mut b, 0b100, 3);
    for code in 0..7u32 {
        put_code(&mut b, code, 3);
    }
    put_code(&mut b, 0b111, 3);
    let v = member(&b.bytes, b"abcdefg");
    let (out, cps) = decode_all(v, 16).unwrap();
    assert_eq!(out, b"abcdefg".to_vec());
    assert_eq!(cps.len(), 1);
    assert_eq!(cps[0].block_type, BlockType::DynamicHuffman);
    assert_eq!(cps[0].header_len_bits, 17 + 42 + 8 + 3 + 5 + 8 + 6 + 6 + 3 + 3);
    assert_eq!(cps[0].end.unwrap().block_len_bits, cps[0].header_len_bits + 24);
}

#[test]
fn test_dynamic_block_repeat_without_previous() {
    let mut b = bits_new();
    put_value(&mut b, 1, 1);
    put_value(&mut b, 2, 2);
    put_value(&mut b, 0, 5);
    put_value(&mut b, 0, 5);
    put_value(&mut b, 0, 4);
    for len in [1u32, 1, 0, 0] {
        put_value(&mut b, len, 3);
    }
    put_code(&mut b, 0b0, 1);
    put_value(&mut b, 0, 2);
    let v = member(&b.bytes, b"");
    assert_eq!(decode_all(v, 16).err(), Some(ScryError::InvalidDynamicBlockCodeLength));
}

#[test]
fn test_dynamic_block_repeat_past_the_end() {
    let mut b = bits_new();
    put_value(&mut b, 1, 1);
    put_value(&mut b, 2, 2);
    put_value(&mut b, 0, 5);
    put_value(&mut b, 0, 5);
    put_value(&mut b, 0, 4);
    for len in [0u32, 0, 1, 1] {
        put_value(&mut b, len, 3);
    }
    put_code(&mut b, 0b1, 1);
    put_value(&mut b, 127, 7);
    put_code(&mut b, 0b1, 1);
    put_value(&mut b, 127, 7);
    let v = member(&b.bytes, b"");
    assert_eq!(decode_all(v, 16).err(), Some(ScryError::InvalidDynamicBlockCodeLength));
}

#[test]
fn test_corrupted_trailer_crc() {
    let mut v = gzip(b"hello world", Compression::fast());
    let n = v.len();
    v[n - 8] ^= 1;
    let expected = crc_of(b"hello world");
    assert_eq!(
        decode_all(v, 64).err(),
        Some(ScryError::InvalidGZIPCRC { position: n - 4, expected, found: expected ^ 1 })
    );
}

#[test]
fn test_corrupted_trailer_size() {
    let mut v = gzip(b"hello world", Compression::fast());
    let n = v.len();
    v[n - 4] = 12;
    assert_eq!(
        decode_all(v, 64).err(),
        Some(ScryError::InvalidGZIPIsize { position: n, expected: 11, found: 12 })
    );
}

#[test]
fn test_truncated_input() {
    let v = gzip(b"hello world, hello world, hello world", Compression::default());
    for cut in [1usize, 5, 10, 11, 15, v.len() - 9, v.len() - 5, v.len() - 1] {
        let mut part = v.clone();
        part.truncate(cut);
        assert_eq!(decode_all(part, 64).err(), Some(ScryError::EOF));
    }
}

#[test]
fn test_garbage_after_member() {
    let mut v = gzip(b"hello", Compression::fast());
    v.push(0x42);
    assert_eq!(decode_all(v, 64).err(), Some(ScryError::EOF));
    let mut v = gzip(b"hello", Compression::fast());
    v.extend_from_slice(&[0x42, 0x43]);
    assert_eq!(decode_all(v, 64).err(), Some(ScryError::NotGZIPHeader));
}

#[test]
fn test_invalid_block_type() {
    let v = member(&[0b111], b"");
    assert_eq!(decode_all(v, 64).err(), Some(ScryError::InvalidBlockType));
}

#[test]
fn test_invalid_stored_header() {
    let v = member(&[0x01, 0x05, 0x00, 0xfa, 0xfe], b"");
    assert_eq!(
        decode_all(v, 64).err(),
        Some(ScryError::InvalidNonCompressedBlockHeader { expected: 0xfffa, found: 0xfefa })
    );
}

#[test]
fn test_length_symbol_out_of_range() {
    let mut b = bits_new();
    put_value(&mut b, 1, 1);
    put_value(&mut b, 1, 2);
    put_fixed(&mut b, 286);
    let v = member(&b.bytes, b"");
    assert_eq!(
        decode_all(v, 64).err(),
        Some(ScryError::InvalidHuffmanCode { code: 286, position: 12, bit: 3 })
    );
}

#[test]
fn test_distance_symbol_out_of_range() {
    let mut b = bits_new();
    put_value(&mut b, 1, 1);
    put_value(&mut b, 1, 2);
    put_fixed(&mut b, 97);
    put_fixed(&mut b, 257);
    put_code(&mut b, 30, 5);
    let v = member(&b.bytes, b"");
    assert_eq!(
        decode_all(v, 64).err(),
        Some(ScryError::InvalidLengthDistancePair { lookback: 30, size: 3 })
    );
}

#[test]
fn test_header_with_name_comment_and_crc() {
    let mut e = GzBuilder::new()
        .filename("file.txt")
        .comment("a comment")
        .mtime(77)
        .write(Vec::new(), Compression::fast());
    e.write_all(b"hello world").unwrap();
    let plain_header = e.finish().unwrap();
    let header_len = 10 + 9 + 10;
    let mut v = plain_header[..header_len].to_vec();
    v[3] |= 2;
    let sum = crc_of(&v);
    v.extend_from_slice(&(sum as u16).to_le_bytes());
    v.extend_from_slice(&plain_header[header_len..]);
    let (out, cps) = decode_all(v.clone(), 64).unwrap();
    assert_eq!(out, b"hello world".to_vec());
    assert_eq!(cps[0].from_byte, header_len + 2);

    let mut bad = v;
    bad[header_len] ^= 0x10;
    assert_eq!(
        decode_all(bad, 64).err(),
        Some(ScryError::InvalidHeaderCRC {
            expected: sum as u16,
            found: (sum as u16) ^ 0x10
        })
    );
}

#[test]
fn test_state_transition_steps() {
    let v = gzip(b"hi", Compression::none());
    let mut deflator = Deflator::new(ScryByteReader::new(v), Checkpointer::init_memory().unwrap());
    let mut buf = [0u8; 1];
    assert_eq!(deflator.state_transition(&mut buf), Ok(0));
    assert_eq!(deflator.checkpointer().records().len(), 0);
    assert_eq!(deflator.state_transition(&mut buf), Ok(0));
    assert_eq!(deflator.state_transition(&mut buf), Ok(0));
    assert_eq!(deflator.checkpointer().records().len(), 1);
    assert!(deflator.checkpointer().records()[0].end.is_none());
    assert_eq!(deflator.take_checkpoints().len(), 0);
    assert_eq!(deflator.state_transition(&mut buf), Ok(1));
    assert_eq!(buf[0], b'h');
    assert_eq!(deflator.buffer.get_bytes_written(), 1);
    assert_eq!(deflator.state_transition(&mut buf), Ok(1));
    assert_eq!(buf[0], b'i');
    assert!(deflator.checkpointer().records()[0].end.is_some());
    assert_eq!(deflator.state_transition(&mut buf), Ok(0));
    assert_eq!(deflator.state_transition(&mut buf), Ok(0));
    assert_eq!(deflator.state_transition(&mut buf), Ok(0));
    assert!(deflator.is_done());
    assert_eq!(deflator.take_checkpoints().len(), 1);
    assert_eq!(deflator.take_checkpoints().len(), 0);
}

#[test]
fn test_reference_before_the_member_reads_the_window() {
    let mut b = bits_new();
    put_value(&mut b, 1, 1);
    put_value(&mut b, 1, 2);
    put_fixed(&mut b, 257);
    put_code(&mut b, 0, 5);
    put_fixed(&mut b, 256);
    let y = member(&b.bytes, &[0, 0, 0]);
    let (out, _) = decode_all(y.clone(), 16).unwrap();
    assert_eq!(out, vec![0, 0, 0]);

    let mut xy = gzip(b"a", Compression::fast());
    let at = xy.len() + y.len() - 4;
    xy.extend_from_slice(&y);
    assert_eq!(
        decode_all(xy, 16).err(),
        Some(ScryError::InvalidGZIPCRC {
            position: at,
            expected: crc_of(b"aaa"),
            found: crc_of(&[0, 0, 0])
        })
    );
}

#[test]
fn test_body_start_can_be_notified_by_hand() {
    let mut deflator = Deflator::new(
        ScryByteReader::new(vec![0b0000_0011]),
        Checkpointer::init_memory().unwrap(),
    );
    deflator.on_block_data_start().unwrap();
    assert_eq!(deflator.checkpointer().records().len(), 1);
    assert_eq!(deflator.checkpointer().records()[0].header_len_bits, 0);
    assert_eq!(deflator.checkpointer().records()[0].data, vec![0u8; 32768]);
    assert_eq!(deflator.bytes_written(), 0);
}
