use std::io::Write;

use flate2::Compression;
use flate2::GzBuilder;
use scry::errors::ScryError;
use scry::header::read_header;
use scry::header::ExtraFlag;
use scry::header::GzipHeader;
use scry::header::OperatingSystem;
use scry::reader::ScryByteReader;

fn header_crc(bytes: &[u8]) -> [u8; 2] {
    let mut c = flate2::Crc::new();
    c.update(bytes);
    (c.sum() as u16).to_le_bytes()
}

#[test]
fn read_header_bails_on_non_gzip_header() {
    let mut sr = ScryByteReader::new(vec![5, 6, 7, 0, 1, 2, 3, 4]);
    assert_eq!(read_header(&mut sr), Err(ScryError::NotGZIPHeader));
    let mut sr = ScryByteReader::new(vec![0x1f, 0x8c, 8, 0]);
    assert_eq!(read_header(&mut sr), Err(ScryError::NotGZIPHeader));
}

#[test]
fn read_header_bails_on_not_deflate() {
    let mut sr = ScryByteReader::new(vec![0x1f, 0x8b, 4]);
    assert_eq!(read_header(&mut sr), Err(ScryError::InvalidCompressionMethod));
}

#[test]
fn read_header_tells_clean_end_from_cut_input() {
    let mut sr = ScryByteReader::new(vec![]);
    assert_eq!(read_header(&mut sr), Err(ScryError::ExpectedEOF));
    let mut sr = ScryByteReader::new(vec![0x1f]);
    assert_eq!(read_header(&mut sr), Err(ScryError::EOF));
    let mut sr = ScryByteReader::new(vec![0x1f, 0x8b, 8, 0, 0, 0, 0, 0, 0]);
    assert_eq!(read_header(&mut sr), Err(ScryError::EOF));
}

#[test]
fn read_header_reads_valid_header_minimal() {
    let mut sr = ScryByteReader::new(vec![0x1f, 0x8b, 8, 0, 0, 0, 0, 0, 0, 3, 0xcb]);
    assert_eq!(
        read_header(&mut sr),
        Ok(GzipHeader {
            comment: None,
            text: false,
            name: None,
            mtime: 0,
            extra: ExtraFlag::Unknown,
            os: OperatingSystem::Unix
        })
    );
    assert_eq!(sr.current_byte, 10);
}

#[test]
fn read_header_reads_valid_text_comment() {
    let mut e = GzBuilder::new()
        .filename("filename")
        .comment("This is a comment")
        .mtime(1677648839)
        .write(Vec::new(), Compression::default());
    e.write_all(b"x").unwrap();
    let v = e.finish().unwrap();
    let os = match v[9] {
        0 => OperatingSystem::Fat,
        3 => OperatingSystem::Unix,
        7 => OperatingSystem::Macintosh,
        11 => OperatingSystem::NTFS,
        _ => OperatingSystem::Unknown,
    };
    let extra = match v[8] {
        2 => ExtraFlag::SlowestAlgorithm,
        4 => ExtraFlag::FastestAlgorithm,
        _ => ExtraFlag::Unknown,
    };
    let mut sr = ScryByteReader::new(v);
    assert_eq!(
        read_header(&mut sr),
        Ok(GzipHeader {
            comment: Some("This is a comment".to_string()),
            text: false,
            name: Some("filename".to_string()),
            mtime: 1677648839,
            extra,
            os
        })
    );
    assert_eq!(sr.current_byte, 10 + 9 + 18);
}

#[test]
fn read_header_reads_every_field() {
    let mut v = vec![0x1f, 0x8b, 8, 0b0001_1111, 0x12, 0x1d, 0xf4, 0x4b, 4, 11];
    v.extend_from_slice(&[3, 0, 9, 9, 9]);
    v.extend_from_slice(b"name\0");
    v.extend_from_slice(b"[gzip comment]\n\0");
    let sum = header_crc(&v);
    v.extend_from_slice(&sum);
    v.push(0x55);
    let n = v.len();
    let mut sr = ScryByteReader::new(v);
    assert_eq!(
        read_header(&mut sr),
        Ok(GzipHeader {
            comment: Some("[gzip comment]\n".to_string()),
            text: true,
            name: Some("name".to_string()),
            mtime: 0x4bf41d12,
            extra: ExtraFlag::FastestAlgorithm,
            os: OperatingSystem::NTFS
        })
    );
    assert_eq!(sr.current_byte, n - 1);
    assert_eq!(sr.end_crc(), None);
}

#[test]
fn read_header_knows_flags_and_systems() {
    for (xfl, extra) in [
        (2u8, ExtraFlag::SlowestAlgorithm),
        (4, ExtraFlag::FastestAlgorithm),
        (0, ExtraFlag::Unknown),
        (6, ExtraFlag::Unknown),
    ] {
        let mut sr = ScryByteReader::new(vec![0x1f, 0x8b, 8, 0, 0, 0, 0, 0, xfl, 0]);
        assert_eq!(read_header(&mut sr).unwrap().extra, extra);
    }
    for (byte, os) in [
        (0u8, OperatingSystem::Fat),
        (3, OperatingSystem::Unix),
        (7, OperatingSystem::Macintosh),
        (11, OperatingSystem::NTFS),
        (1, OperatingSystem::Unknown),
        (255, OperatingSystem::Unknown),
    ] {
        let mut sr = ScryByteReader::new(vec![0x1f, 0x8b, 8, 0, 0, 0, 0, 0, 0, byte]);
        assert_eq!(read_header(&mut sr).unwrap().os, os);
    }
}

#[test]
fn read_header_errors_on_incorrect_hcrc() {
    let mut v = vec![0x1f, 0x8b, 8, 2, 1, 2, 3, 4, 0, 3];
    let sum = header_crc(&v);
    v.extend_from_slice(&[sum[0] ^ 1, sum[1]]);
    let expected = u16::from_le_bytes(sum);
    let mut sr = ScryByteReader::new(v);
    assert_eq!(
        read_header(&mut sr),
        Err(ScryError::InvalidHeaderCRC { expected, found: expected ^ 1 })
    );
}

#[test]
fn read_header_errors_on_bad_text() {
    let mut v = vec![0x1f, 0x8b, 8, 8, 0, 0, 0, 0, 0, 3];
    v.extend_from_slice(&[0xff, 0xfe, 0]);
    let mut sr = ScryByteReader::new(v);
    assert_eq!(read_header(&mut sr), Err(ScryError::UTF8Invalid));
    let mut v = vec![0x1f, 0x8b, 8, 16, 0, 0, 0, 0, 0, 3];
    v.extend_from_slice(b"never ends");
    let mut sr = ScryByteReader::new(v);
    assert_eq!(read_header(&mut sr), Err(ScryError::EOF));
    let mut sr = ScryByteReader::new(vec![0x1f, 0x8b, 8, 4, 0, 0, 0, 0, 0, 3, 5, 0, 1, 2]);
    assert_eq!(read_header(&mut sr), Err(ScryError::EOF));
}
