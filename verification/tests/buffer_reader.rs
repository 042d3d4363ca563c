use sherlock::errors::ChainError;
use sherlock::io::buffer_reader::BufferReader;

// EOF handling: every primitive reader returns Err on exhaustion.

#[test]
fn eof_u8_empty_buffer() {
    let mut r = BufferReader::new(&[]);
    assert!(matches!(r.read_u8(), Err(ChainError::UnexpectedEof { context: "u8" })));
}

#[test]
fn eof_u16_le_truncated() {
    let mut r = BufferReader::new(&[0xAB]);
    assert!(matches!(r.read_u16_le(), Err(ChainError::UnexpectedEof { context: "u16_le" })));
}

#[test]
fn eof_u32_le_truncated() {
    let mut r = BufferReader::new(&[0x01, 0x02, 0x03]);
    assert!(matches!(r.read_u32_le(), Err(ChainError::UnexpectedEof { context: "u32_le" })));
}

#[test]
fn eof_u64_le_truncated() {
    let mut r = BufferReader::new(&[0x00; 7]);
    assert!(matches!(r.read_u64_le(), Err(ChainError::UnexpectedEof { context: "u64_le" })));
}

#[test]
fn eof_read_bytes_partial() {
    let data = [0xDE, 0xAD];
    let mut r = BufferReader::new(&data);
    assert!(matches!(r.read_bytes(10), Err(ChainError::UnexpectedEof { context: "read_bytes" })));
}

// CompactSize: all four cases.

#[test]
fn varint_direct_byte_zero() {
    let mut r = BufferReader::new(&[0x00]);
    assert_eq!(r.read_compact_size().unwrap(), 0);
}

#[test]
fn varint_direct_byte_max() {
    let mut r = BufferReader::new(&[0xFC]);
    assert_eq!(r.read_compact_size().unwrap(), 0xFC);
}

#[test]
fn varint_fd_u16_le() {
    let mut r = BufferReader::new(&[0xFD, 0x01, 0x02]);
    assert_eq!(r.read_compact_size().unwrap(), 0x0201u64);
}

#[test]
fn varint_fe_u32_le() {
    let mut r = BufferReader::new(&[0xFE, 0x78, 0x56, 0x34, 0x12]);
    assert_eq!(r.read_compact_size().unwrap(), 0x1234_5678u64);
}

#[test]
fn varint_ff_u64_le() {
    let bytes: &[u8] = &[0xFF, 0xFF, 0xFF, 0xFF, 0xFF, 0xFF, 0xFF, 0xFF, 0xFF];
    let mut r = BufferReader::new(bytes);
    assert_eq!(r.read_compact_size().unwrap(), u64::MAX);
}

#[test]
fn varint_fd_eof_returns_err() {
    let mut r = BufferReader::new(&[0xFD, 0x01]);
    assert!(r.read_compact_size().is_err());
}

#[test]
fn varint_ff_eof_returns_err() {
    let mut r = BufferReader::new(&[0xFF, 0x00, 0x00, 0x00, 0x00]);
    assert!(r.read_compact_size().is_err());
}

// Zero-copy slices point into the original buffer.

#[test]
fn read_bytes_zero_copy_pointer_identity() {
    let data: &[u8] = &[0x01, 0x02, 0x03, 0x04, 0x05, 0x06];
    let mut r = BufferReader::new(data);
    r.read_u16_le().unwrap();
    let slice = r.read_bytes(3).unwrap();

    let data_start = data.as_ptr() as usize;
    let data_end = data_start + data.len();
    let slice_start = slice.as_ptr() as usize;
    let slice_end = slice_start + slice.len();

    assert!(
        slice_start >= data_start && slice_end <= data_end,
        "slice {:?} is not inside original buffer {:?}",
        slice_start..slice_end,
        data_start..data_end,
    );

    assert_eq!(slice, &[0x03, 0x04, 0x05]);
}

#[test]
fn remaining_and_is_empty() {
    let mut r = BufferReader::new(&[0xAA, 0xBB]);
    assert_eq!(r.remaining(), 2);
    assert!(!r.is_empty());
    r.read_u8().unwrap();
    assert_eq!(r.remaining(), 1);
    r.read_u8().unwrap();
    assert_eq!(r.remaining(), 0);
    assert!(r.is_empty());
}

#[test]
fn sequential_reads_advance_cursor() {
    let data: &[u8] = &[0x01, 0x02, 0x00, 0x03, 0x04, 0x05, 0x06];
    let mut r = BufferReader::new(data);
    assert_eq!(r.read_u8().unwrap(), 0x01);
    assert_eq!(r.read_u16_le().unwrap(), 0x0002);
    let tail = r.read_bytes(4).unwrap();
    assert_eq!(tail, &[0x03, 0x04, 0x05, 0x06]);
    assert!(r.is_empty());
}

// Further cases.

#[test]
fn compact_size_error_reports_leading_byte() {
    let mut r = BufferReader::new(&[0xFE, 0x01]);
    assert!(matches!(r.read_compact_size(), Err(ChainError::InvalidVarInt { byte: 0xFE })));
    assert_eq!(r.position(), 1);
}

#[test]
fn compact_size_empty_is_eof() {
    let mut r = BufferReader::new(&[]);
    assert!(matches!(r.read_compact_size(), Err(ChainError::UnexpectedEof { context: "u8" })));
}

#[test]
fn read_i32_le_negative() {
    let mut r = BufferReader::new(&[0xFF, 0xFF, 0xFF, 0xFF, 0x02, 0x00, 0x00, 0x80]);
    assert_eq!(r.read_i32_le().unwrap(), -1);
    assert_eq!(r.read_i32_le().unwrap(), i32::MIN + 2);
    assert!(matches!(r.read_i32_le(), Err(ChainError::UnexpectedEof { context: "i32_le" })));
}

#[test]
fn read_u64_le_value_and_position() {
    let mut r = BufferReader::new(&[1, 2, 3, 4, 5, 6, 7, 8, 9]);
    assert_eq!(r.read_u64_le().unwrap(), 0x0807060504030201);
    assert_eq!(r.position(), 8);
    assert_eq!(r.remaining(), 1);
}

#[test]
fn failed_read_leaves_cursor() {
    let mut r = BufferReader::new(&[0x10, 0x20, 0x30]);
    r.read_u8().unwrap();
    assert!(r.read_u32_le().is_err());
    assert_eq!(r.position(), 1);
    assert_eq!(r.read_u16_le().unwrap(), 0x3020);
}

#[test]
fn non_minimal_compact_size_is_rejected() {
    for bytes in [&[0xfd, 0x01, 0x00][..], &[0xfe, 0xff, 0xff, 0x00, 0x00][..], &[0xff, 1, 0, 0, 0, 0, 0, 0, 0][..]] {
        let mut r = BufferReader::new(bytes);
        assert!(matches!(r.read_compact_size(), Err(ChainError::InvalidVarInt { byte }) if byte == bytes[0]));
    }
    let mut r = BufferReader::new(&[0xfd, 0xfd, 0x00]);
    assert_eq!(r.read_compact_size().unwrap(), 0xfd);
}
