use sherlock::errors::{error_code, ChainError};

#[test]
fn error_messages_and_codes() {
    let e = ChainError::UnexpectedEof { context: "u32_le" };
    assert_eq!(e.message(), "unexpected EOF while reading u32_le");
    assert_eq!(error_code(&e), "UNEXPECTED_EOF");
    let e = ChainError::InvalidVarInt { byte: 0x0f };
    assert_eq!(e.message(), "invalid VarInt leading byte: 0x0f");
    assert_eq!(error_code(&e), "INVALID_VARINT");
    let e = ChainError::InvalidMagic { expected: 0xD9B4BEF9, got: 0x1234 };
    assert_eq!(e.message(), "invalid block magic: expected 0xd9b4bef9, got 0x00001234");
    let e = ChainError::InvalidField { field: "merkle", detail: "no transactions".to_owned() };
    assert_eq!(e.message(), "invalid field 'merkle': no transactions");
    assert_eq!(error_code(&e), "INVALID_FIELD");
    let e = ChainError::MerkleRootMismatch { computed: "aa".to_owned(), header: "bb".to_owned() };
    assert_eq!(e.message(), "merkle root mismatch: computed aa, header bb");
    let e = ChainError::InvalidCoinbase { detail: "no height".to_owned() };
    assert_eq!(e.message(), "invalid coinbase transaction: no height");
    let e = ChainError::InvalidUndoData { detail: "short".to_owned() };
    assert_eq!(e.message(), "invalid undo data: short");
    assert_eq!(error_code(&e), "INVALID_UNDO_DATA");
    let e = ChainError::NotImplemented { feature: "x" };
    assert_eq!(e.message(), "not implemented: x");
    let e = ChainError::IoError(std::io::Error::new(std::io::ErrorKind::Other, "boom"));
    assert_eq!(e.message(), "I/O error: boom");
    assert_eq!(error_code(&e), "IO_ERROR");
}
