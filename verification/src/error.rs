//! The ways in which decoding a container can fail.

use vstd::prelude::*;
use vstd::string::*;

verus! {

/// What went wrong while decoding a container.
#[derive(Clone, Copy, Debug, PartialEq, Eq, Structural)]
pub enum ErrorKind {
    /// The file does not start with the container's magic bytes.
    InvalidContainer,
    /// The core key chunk does not decrypt (bad length or padding).
    CoreKeyDecrypt,
    /// The decrypted core key holds no key material past its 17-byte prefix.
    CoreKeyTooShort,
    /// The metadata chunk is not valid Base64.
    MetadataBase64,
    /// The Base64-decoded metadata does not decrypt (bad length or padding).
    MetadataDecrypt,
    /// The decrypted metadata is shorter than 6 bytes.
    MetadataTooShort,
    /// The metadata's JSON text is not valid JSON.
    MetadataJson,
    /// The metadata names no output format, and strict metadata handling was asked for.
    MissingFormat,
}

/// A decoding failure: its kind, and the text of the underlying error where there is one
/// (the Base64 decoder's or the JSON parser's message), else empty.
#[derive(Debug)]
pub struct UnpackError {
    pub kind: ErrorKind,
    pub detail: String,
}

/// The message that describes a failure of the given kind.
pub open spec fn error_message(kind: ErrorKind, detail: Seq<char>) -> Seq<char> {
    match kind {
        ErrorKind::InvalidContainer => "not a valid supported container file"@,
        ErrorKind::CoreKeyDecrypt => "failed to decrypt core key chunk: invalid PKCS7 padding"@,
        ErrorKind::CoreKeyTooShort => "core key chunk is too short"@,
        ErrorKind::MetadataBase64 => "failed to decode metadata base64: "@ + detail,
        ErrorKind::MetadataDecrypt => "failed to decrypt metadata chunk: invalid PKCS7 padding"@,
        ErrorKind::MetadataTooShort => "metadata chunk is too short"@,
        ErrorKind::MetadataJson => "failed to parse metadata JSON: "@ + detail,
        ErrorKind::MissingFormat => "metadata is missing format"@,
    }
}

impl UnpackError {
    /// A failure of the given kind with no underlying error.
    pub fn new(kind: ErrorKind) -> (e: UnpackError)
        ensures
            e.kind == kind,
            e.detail@ == Seq::<char>::empty(),
    {
        UnpackError { kind, detail: String::new() }
    }

    /// The message that describes this failure.
    pub fn message(&self) -> (m: String)
        ensures
            m@ == error_message(self.kind, self.detail@),
    {
        match self.kind {
            ErrorKind::InvalidContainer => String::from_str("not a valid supported container file"),
            ErrorKind::CoreKeyDecrypt => String::from_str(
                "failed to decrypt core key chunk: invalid PKCS7 padding",
            ),
            ErrorKind::CoreKeyTooShort => String::from_str("core key chunk is too short"),
            ErrorKind::MetadataBase64 => {
                let m = String::from_str("failed to decode metadata base64: ");
                m.concat(self.detail.as_str())
            },
            ErrorKind::MetadataDecrypt => String::from_str(
                "failed to decrypt metadata chunk: invalid PKCS7 padding",
            ),
            ErrorKind::MetadataTooShort => String::from_str("metadata chunk is too short"),
            ErrorKind::MetadataJson => {
                let m = String::from_str("failed to parse metadata JSON: ");
                m.concat(self.detail.as_str())
            },
            ErrorKind::MissingFormat => String::from_str("metadata is missing format"),
        }
    }
}

} // verus!
