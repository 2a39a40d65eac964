use scry::circle::CircularBuffer;
use scry::errors::ScryError;

#[test]
fn test_get_normalized_buffer() {
    let mut cb = CircularBuffer::new(8);
    for _ in 0..5 {
        for i in 0..8 {
            cb.push(i);
        }
        let nb = cb.get_normalized_buffer().unwrap();
        assert_eq!(vec![0, 1, 2, 3, 4, 5, 6, 7], nb);
    }
}

#[test]
fn test_new_window_is_zero() {
    for _ in 0..20 {
        let cb = CircularBuffer::new(5);
        assert_eq!(cb.get_normalized_buffer().unwrap(), vec![0; 5]);
        assert_eq!(cb.capacity(), 5);
        assert_eq!(cb.get_bytes_written(), 0);
    }
}

#[test]
fn test_get_normalized_buffer_overwrite() {
    let mut cb = CircularBuffer::new(8);
    for i in 0..9 {
        cb.push(i);
    }
    let nb = cb.get_normalized_buffer().unwrap();
    assert_eq!(vec![1, 2, 3, 4, 5, 6, 7, 8], nb);
}

#[test]
fn test_push_from_buffer() {
    let mut cb = CircularBuffer::new(8);
    for i in 0..8 {
        cb.push(i);
    }
    cb.push_from_buffer(5, 3).unwrap();
    let expected: Vec<u8> = vec![3, 4, 5, 6, 7, 3, 4, 5];
    assert_eq!(cb.get_normalized_buffer().unwrap(), expected);
}

#[test]
fn test_push_from_buffer_rle() {
    let mut cb = CircularBuffer::new(800);
    cb.push(3);
    cb.push_from_buffer(1, 799).unwrap();
    let expected: Vec<u8> = vec![3; 800];
    assert_eq!(cb.get_normalized_buffer().unwrap(), expected);
}

#[test]
fn test_push_from_buffer_max_run() {
    let mut cb = CircularBuffer::new(32768);
    cb.push(9);
    cb.push(7);
    cb.push_from_buffer(1, 258).unwrap();
    assert_eq!(cb.head(259).unwrap(), vec![7; 259]);
    assert_eq!(cb.head(260).unwrap()[0], 9);
    assert_eq!(cb.get_bytes_written(), 260);
}

#[test]
fn test_push_from_buffer_whole_window_back() {
    let mut cb = CircularBuffer::new(32768);
    for i in 0..32768u32 {
        cb.push((i % 251) as u8);
    }
    cb.push_from_buffer(32768, 2).unwrap();
    assert_eq!(cb.head(2).unwrap(), vec![0, 1]);
}

#[test]
fn test_push_from_buffer_bad_distance() {
    let mut cb = CircularBuffer::new(32768);
    cb.push(1);
    assert_eq!(
        cb.push_from_buffer(0, 3),
        Err(ScryError::InvalidLengthDistancePair { lookback: 0, size: 3 })
    );
    assert_eq!(
        cb.push_from_buffer(32769, 4),
        Err(ScryError::InvalidLengthDistancePair { lookback: 32769, size: 4 })
    );
    assert_eq!(cb.get_bytes_written(), 1);
    assert_eq!(cb.head(1).unwrap(), vec![1]);
}

#[test]
fn test_head() {
    let mut cb = CircularBuffer::new(8);
    for i in 0..8 {
        cb.push(i);
    }
    let v = cb.head(5).unwrap();
    assert_eq!(v, vec![3, 4, 5, 6, 7]);
    assert_eq!(cb.head(0).unwrap(), Vec::<u8>::new());
}

#[test]
fn test_two_checksums_and_counters() {
    let mut cb = CircularBuffer::new(16);
    for b in b"hel" {
        cb.push(*b);
    }
    assert_eq!(cb.block_crc32(), scry_crc(b"hel"));
    for b in b"lo" {
        cb.push(*b);
    }
    assert_eq!(cb.block_crc32(), scry_crc(b"lo"));
    assert_eq!(cb.crc32(), 0x3610A686);
    assert_eq!(cb.crc32(), 0);
    assert_eq!(cb.counter(), 5);
    assert_eq!(cb.counter(), 0);
    assert_eq!(cb.get_bytes_written(), 5);
}

fn scry_crc(bytes: &[u8]) -> u32 {
    let mut c = flate2::Crc::new();
    c.update(bytes);
    c.sum()
}
