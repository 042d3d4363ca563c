//! The error type shared by every parser and analysis stage.

use vstd::prelude::*;

use crate::text::{push_hex_fixed, spec_hex_fixed};

verus! {

#[verifier::external_type_specification]
#[verifier::external_body]
pub struct ExIoError(std::io::Error);

#[verifier::external_type_specification]
#[verifier::external_body]
pub struct ExUtf8Error(std::str::Utf8Error);

/// Central error type for all chain-analysis operations.
///
/// Every variant maps to a distinct failure mode in protocol parsing or I/O.
#[derive(Debug)]
pub enum ChainError {
    /// The buffer was exhausted before the requested read completed.
    UnexpectedEof { context: &'static str },
    /// A CompactSize/VARINT first byte was valid but its continuation was
    /// missing or formed an impossible encoding.
    InvalidVarInt { byte: u8 },
    /// A storage-file magic number did not match 0xD9B4BEF9.
    InvalidMagic { expected: u32, got: u32 },
    /// Raw bytes claimed to be UTF-8 but were not.
    Utf8Error(std::str::Utf8Error),
    /// Underlying OS / file I/O error.
    IoError(std::io::Error),
    /// A field value was structurally legal but semantically invalid.
    InvalidField { field: &'static str, detail: String },
    /// The computed Merkle root does not match the one in the block header.
    MerkleRootMismatch { computed: String, header: String },
    /// The coinbase transaction is malformed.
    InvalidCoinbase { detail: String },
    /// The undo (rev*.dat) data is truncated or structurally invalid.
    InvalidUndoData { detail: String },
    /// Feature not yet implemented.
    NotImplemented { feature: &'static str },
}

/// What the contracts say of an error: its variant and its fields as plain
/// values (the wrapped I/O and UTF-8 errors are left out).
pub enum ErrorKind {
    UnexpectedEof(Seq<char>),
    InvalidVarInt(u8),
    InvalidMagic(u32, u32),
    Utf8,
    Io,
    /// The field and the detail message.
    InvalidField(Seq<char>, Seq<char>),
    MerkleRootMismatch(Seq<char>, Seq<char>),
    InvalidCoinbase(Seq<char>),
    InvalidUndoData(Seq<char>),
    NotImplemented(Seq<char>),
}

impl ChainError {
    /// The variant and fixed fields of this error.
    pub open spec fn kind(&self) -> ErrorKind {
        match self {
            ChainError::UnexpectedEof { context } => ErrorKind::UnexpectedEof(context@),
            ChainError::InvalidVarInt { byte } => ErrorKind::InvalidVarInt(*byte),
            ChainError::InvalidMagic { expected, got } => ErrorKind::InvalidMagic(*expected, *got),
            ChainError::Utf8Error(_) => ErrorKind::Utf8,
            ChainError::IoError(_) => ErrorKind::Io,
            ChainError::InvalidField { field, detail } => ErrorKind::InvalidField(field@, detail@),
            ChainError::MerkleRootMismatch { computed, header } => ErrorKind::MerkleRootMismatch(
                computed@,
                header@,
            ),
            ChainError::InvalidCoinbase { detail } => ErrorKind::InvalidCoinbase(detail@),
            ChainError::InvalidUndoData { detail } => ErrorKind::InvalidUndoData(detail@),
            ChainError::NotImplemented { feature } => ErrorKind::NotImplemented(feature@),
        }
    }
}

impl From<std::io::Error> for ChainError {
    fn from(e: std::io::Error) -> (r: Self) {
        ChainError::IoError(e)
    }
}

impl vstd::std_specs::convert::FromSpecImpl<std::io::Error> for ChainError {
    open spec fn obeys_from_spec() -> bool {
        true
    }

    open spec fn from_spec(v: std::io::Error) -> Self {
        ChainError::IoError(v)
    }
}

impl From<std::str::Utf8Error> for ChainError {
    fn from(e: std::str::Utf8Error) -> (r: Self) {
        ChainError::Utf8Error(e)
    }
}

impl vstd::std_specs::convert::FromSpecImpl<std::str::Utf8Error> for ChainError {
    open spec fn obeys_from_spec() -> bool {
        true
    }

    open spec fn from_spec(v: std::str::Utf8Error) -> Self {
        ChainError::Utf8Error(v)
    }
}

/// The stable error code of each error kind, as used in JSON output.
pub open spec fn spec_error_code(k: ErrorKind) -> Seq<char> {
    match k {
        ErrorKind::UnexpectedEof(_) => "UNEXPECTED_EOF"@,
        ErrorKind::InvalidVarInt(_) => "INVALID_VARINT"@,
        ErrorKind::InvalidMagic(_, _) => "INVALID_MAGIC"@,
        ErrorKind::Utf8 => "UTF8_ERROR"@,
        ErrorKind::Io => "IO_ERROR"@,
        ErrorKind::InvalidField(_, _) => "INVALID_FIELD"@,
        ErrorKind::MerkleRootMismatch(_, _) => "MERKLE_ROOT_MISMATCH"@,
        ErrorKind::InvalidCoinbase(_) => "INVALID_COINBASE"@,
        ErrorKind::InvalidUndoData(_) => "INVALID_UNDO_DATA"@,
        ErrorKind::NotImplemented(_) => "NOT_IMPLEMENTED"@,
    }
}

/// Maps a `ChainError` to the stable error code string used in JSON output.
pub fn error_code(e: &ChainError) -> (code: &'static str)
    ensures
        code@ == spec_error_code(e.kind()),
{
    match e {
        ChainError::UnexpectedEof { .. } => "UNEXPECTED_EOF",
        ChainError::InvalidVarInt { .. } => "INVALID_VARINT",
        ChainError::InvalidMagic { .. } => "INVALID_MAGIC",
        ChainError::Utf8Error(_) => "UTF8_ERROR",
        ChainError::IoError(_) => "IO_ERROR",
        ChainError::InvalidField { .. } => "INVALID_FIELD",
        ChainError::MerkleRootMismatch { .. } => "MERKLE_ROOT_MISMATCH",
        ChainError::InvalidCoinbase { .. } => "INVALID_COINBASE",
        ChainError::InvalidUndoData { .. } => "INVALID_UNDO_DATA",
        ChainError::NotImplemented { .. } => "NOT_IMPLEMENTED",
    }
}

/// The text of an I/O error, as `std::io::Error` displays it.
///
/// Nothing is stated of it: the text comes from the operating system.
#[verifier::external_body]
fn io_error_text(e: &std::io::Error) -> String {
    e.to_string()
}

/// The text of a UTF-8 decoding error, as `std::str::Utf8Error` displays it.
///
/// Nothing is stated of it: the error value is opaque here.
#[verifier::external_body]
fn utf8_error_text(e: &std::str::Utf8Error) -> String {
    e.to_string()
}

/// `prefix` followed by `rest`.
fn joined(prefix: &str, rest: &str) -> (s: String)
    ensures
        s@ == prefix@ + rest@,
{
    let mut s = prefix.to_owned();
    s.append(rest);
    s
}

impl ChainError {
    /// The human-readable message of the error.
    pub fn message(&self) -> (m: String)
        ensures
            match self {
                ChainError::UnexpectedEof { context } => m@ == "unexpected EOF while reading "@
                    + context@,
                ChainError::InvalidVarInt { byte } => m@ == "invalid VarInt leading byte: 0x"@
                    + spec_hex_fixed(*byte as nat, 2),
                ChainError::InvalidMagic { expected, got } => m@ == "invalid block magic: expected 0x"@
                    + spec_hex_fixed(*expected as nat, 8) + ", got 0x"@ + spec_hex_fixed(
                    *got as nat,
                    8,
                ),
                ChainError::Utf8Error(_) => m@.len() >= "UTF-8 decode error: "@.len() && m@.take(
                    "UTF-8 decode error: "@.len() as int,
                ) == "UTF-8 decode error: "@,
                ChainError::IoError(_) => m@.len() >= "I/O error: "@.len() && m@.take(
                    "I/O error: "@.len() as int,
                ) == "I/O error: "@,
                ChainError::InvalidField { field, detail } => m@ == "invalid field '"@ + field@
                    + "': "@ + detail@,
                ChainError::MerkleRootMismatch { computed, header } => m@
                    == "merkle root mismatch: computed "@ + computed@ + ", header "@ + header@,
                ChainError::InvalidCoinbase { detail } => m@ == "invalid coinbase transaction: "@
                    + detail@,
                ChainError::InvalidUndoData { detail } => m@ == "invalid undo data: "@ + detail@,
                ChainError::NotImplemented { feature } => m@ == "not implemented: "@ + feature@,
            },
    {
        match self {
            ChainError::UnexpectedEof { context } => joined("unexpected EOF while reading ", context),
            ChainError::InvalidVarInt { byte } => {
                let mut m = "invalid VarInt leading byte: 0x".to_owned();
                push_hex_fixed(&mut m, *byte as u64, 2);
                m
            },
            ChainError::InvalidMagic { expected, got } => {
                let mut m = "invalid block magic: expected 0x".to_owned();
                push_hex_fixed(&mut m, *expected as u64, 8);
                m.append(", got 0x");
                push_hex_fixed(&mut m, *got as u64, 8);
                m
            },
            ChainError::Utf8Error(e) => {
                let t = utf8_error_text(e);
                let m = joined("UTF-8 decode error: ", t.as_str());
                proof {
                    assert(m@.take("UTF-8 decode error: "@.len() as int) =~= "UTF-8 decode error: "@);
                }
                m
            },
            ChainError::IoError(e) => {
                let t = io_error_text(e);
                let m = joined("I/O error: ", t.as_str());
                proof {
                    assert(m@.take("I/O error: "@.len() as int) =~= "I/O error: "@);
                }
                m
            },
            ChainError::InvalidField { field, detail } => {
                let mut m = joined("invalid field '", field);
                m.append("': ");
                m.append(detail.as_str());
                m
            },
            ChainError::MerkleRootMismatch { computed, header } => {
                let mut m = joined("merkle root mismatch: computed ", computed.as_str());
                m.append(", header ");
                m.append(header.as_str());
                m
            },
            ChainError::InvalidCoinbase { detail } => joined(
                "invalid coinbase transaction: ",
                detail.as_str(),
            ),
            ChainError::InvalidUndoData { detail } => joined("invalid undo data: ", detail.as_str()),
            ChainError::NotImplemented { feature } => joined("not implemented: ", feature),
        }
    }
}

} // verus!
