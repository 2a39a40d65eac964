use scry::huffman::HuffmanCode;
use scry::huffman::HuffmanTree;

#[test]
fn test_lut_values_correct() {
    let test_values: [u8; 8] = [3, 3, 3, 3, 3, 2, 4, 4];
    let tree = HuffmanTree::new(&test_values);
    let codes = tree.get_lut();
    assert_eq!(codes.get(&0b01), None);
    assert_eq!(codes.get(&0b010), Some(&HuffmanCode { symbol: 0, len: 3 }));
    assert_eq!(codes.get(&0b1111), Some(&HuffmanCode { symbol: 7, len: 4 }));
    assert_eq!(codes.get(&0b00), Some(&HuffmanCode { symbol: 5, len: 2 }));
    assert_eq!(codes.len(), 8);
}

#[test]
fn test_lut_values_with_gaps() {
    let test_values: [u8; 12] = [0, 3, 3, 3, 0, 3, 3, 2, 0, 4, 4, 0];
    let tree = HuffmanTree::new(&test_values);
    let codes = tree.get_lut();
    assert_eq!(codes.get(&0b01), None);
    assert_eq!(codes.get(&0b010), Some(&HuffmanCode { symbol: 1, len: 3 }));
    assert_eq!(codes.get(&0b1111), Some(&HuffmanCode { symbol: 10, len: 4 }));
    assert_eq!(codes.get(&0b00), Some(&HuffmanCode { symbol: 7, len: 2 }));
    assert_eq!(codes.len(), 8);
}

#[test]
fn test_lut_values_with_gaps_2() {
    let test_values = [
        11_u8, 12, 11, 12, 0, 11, 9, 8, 7, 7, 7, 6, 6, 6, 5, 5, 4, 5, 4, 4, 4, 4, 3, 4, 4, 4, 4,
        4, 4, 6, 0, 0, 0, 0, 0, 0, 0, 0,
    ];
    let tree = HuffmanTree::new(&test_values);
    let codes = tree.get_lut();
    assert_eq!(codes.get(&0b1011), Some(&HuffmanCode { symbol: 27, len: 4 }));
    assert_eq!(codes.get(&0b11111111110), Some(&HuffmanCode { symbol: 5, len: 11 }));
}

#[test]
fn test_lut_fixed() {
    let tree = HuffmanTree::fixed();
    let codes = tree.get_lut();
    assert_eq!(codes.get(&0b110001), Some(&HuffmanCode { symbol: 1, len: 8 }));
    assert_eq!(codes.get(&0b11000111), Some(&HuffmanCode { symbol: 287, len: 8 }));
    assert_eq!(codes.get(&0b111111110), Some(&HuffmanCode { symbol: 254, len: 9 }));
    assert_eq!(codes.get(&0b0000000), Some(&HuffmanCode { symbol: 256, len: 7 }));
    assert_eq!(codes.get(&0b1111111111), None);
    assert_eq!(codes.len(), 288);
}

#[test]
fn test_lut_fixed_dist() {
    let tree = HuffmanTree::fixed_dist();
    assert_eq!(tree.get_lut().len(), 31);
    for symbol in 0..31u16 {
        assert_eq!(tree.decode(symbol, 5), Some(symbol));
        assert_eq!(tree.decode(symbol, 4), None);
    }
    assert_eq!(tree.decode(31, 5), None);
    tree.export();
}

#[test]
fn test_decode() {
    let test_values: [u8; 8] = [3, 3, 3, 3, 3, 2, 4, 4];
    let tree = HuffmanTree::new(&test_values);
    assert_eq!(tree.decode(0b0, 1), None);
    assert_eq!(tree.decode(0b10, 2), None);
    assert_eq!(tree.decode(0b010, 3), Some(0));
    assert_eq!(tree.decode(0b00, 2), Some(5));
    assert_eq!(tree.decode(0b00, 3), None);
}

#[test]
fn test_empty_and_longest_codes() {
    let tree = HuffmanTree::new(&[]);
    assert_eq!(tree.get_lut().len(), 0);
    let tree = HuffmanTree::new(&[0, 0, 0]);
    assert_eq!(tree.get_lut().len(), 0);
    let tree = HuffmanTree::new(&[15, 15, 1]);
    assert_eq!(tree.decode(0, 1), Some(2));
    assert_eq!(tree.decode(0b100000000000000, 15), Some(0));
    assert_eq!(tree.decode(0b100000000000001, 15), Some(1));
}

#[test]
fn test_later_symbol_wins_a_shared_value() {
    let lengths = [1u8, 1, 1, 2];
    let tree = HuffmanTree::new(&lengths);
    assert_eq!(tree.decode(0, 1), Some(0));
    assert_eq!(tree.decode(1, 1), Some(1));
    assert_eq!(tree.decode(2, 1), Some(2));
    assert_eq!(tree.decode(6, 2), Some(3));
}
