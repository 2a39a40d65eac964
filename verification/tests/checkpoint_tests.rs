use scry::checkpoint::block_type_name;
use scry::checkpoint::crc32_hex;
use scry::checkpoint::dist_in_bits;
use scry::checkpoint::BlockEnd;
use scry::checkpoint::Checkpointer;
use scry::decompress::BlockType;

#[test]
fn test_dist_in_bits() {
    assert_eq!(dist_in_bits(0, 0, 0, 0), 0);
    assert_eq!(dist_in_bits(10, 0, 10, 3), 3);
    assert_eq!(dist_in_bits(10, 3, 12, 1), 14);
    assert_eq!(dist_in_bits(12, 1, 10, 3), -14);
    assert_eq!(dist_in_bits(1, 7, 2, 0), 1);
}

#[test]
fn test_block_type_name() {
    assert_eq!(block_type_name(BlockType::NoCompression), "nocompression");
    assert_eq!(block_type_name(BlockType::FixedHuffman), "fixed");
    assert_eq!(block_type_name(BlockType::DynamicHuffman), "dynamic");
}

#[test]
fn test_crc32_hex() {
    assert_eq!(crc32_hex(0), b"0".to_vec());
    assert_eq!(crc32_hex(9), b"9".to_vec());
    assert_eq!(crc32_hex(10), b"a".to_vec());
    assert_eq!(crc32_hex(0xab), b"ab".to_vec());
    assert_eq!(crc32_hex(0x3610A686), b"3610a686".to_vec());
    assert_eq!(crc32_hex(0x0fff_ffff), b"fffffff".to_vec());
    assert_eq!(crc32_hex(u32::MAX), b"ffffffff".to_vec());
    assert_eq!(crc32_hex(0x100), format!("{:x}", 0x100).into_bytes());
}

#[test]
fn test_block_events_make_one_checkpoint() {
    let mut c = Checkpointer::init_memory().unwrap();
    assert_eq!(c.records().len(), 0);
    c.on_block_start(11, 3, 100);
    c.set_block_type(BlockType::DynamicHuffman);
    assert_eq!(c.records().len(), 0);
    c.on_block_data_start(13, 0, vec![1, 2, 3]).unwrap();
    {
        let r = &c.records()[0];
        assert_eq!(r.from_byte, 10);
        assert_eq!(r.from_bit, 3);
        assert_eq!(r.to_byte, 100);
        assert_eq!(r.block_type, BlockType::DynamicHuffman);
        assert_eq!(r.header_len_bits, (13 - 10) * 8 - 3);
        assert_eq!(r.data, vec![1, 2, 3]);
        assert_eq!(r.end, None);
    }
    assert_eq!(c.take_finished().len(), 0);
    c.on_block_end(21, 6, 250, 0xdead_beef).unwrap();
    assert_eq!(
        c.records()[0].end,
        Some(BlockEnd { block_len_bits: (20 - 10) * 8 + (6 - 3), len: 150, crc32: 0xdead_beef })
    );
    let taken = c.take_finished();
    assert_eq!(taken.len(), 1);
    assert_eq!(taken[0].header_len_bits, 21);
    assert_eq!(c.records().len(), 0);
    c.on_block_end(30, 0, 300, 1).unwrap();
    assert_eq!(c.records().len(), 0);
}

#[test]
fn test_block_start_on_a_byte_boundary() {
    let mut c = Checkpointer::init_memory().unwrap();
    c.on_block_start(10, 0, 0);
    c.set_block_type(BlockType::NoCompression);
    c.on_block_data_start(15, 0, vec![]).unwrap();
    c.on_block_end(20, 0, 5, 7).unwrap();
    let r = &c.records()[0];
    assert_eq!(r.from_byte, 10);
    assert_eq!(r.header_len_bits, 40);
    assert_eq!(r.end.unwrap().block_len_bits, 80);
    assert_eq!(r.end.unwrap().len, 5);
}
